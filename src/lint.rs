//! A static check for names that a statement uses where no enclosing guard
//! can bind them.

use vstd::prelude::*;
use crate::ast::{Block, Body, Expression, Statement, contains_string, extend_strings,
    group_names_list, provides, regex_provides};
use crate::interp::{interpolated_variables, names_from};
use crate::rx::{regex_group_names, strings_view};
use crate::text::concat;

verus! {

broadcast use vstd::std_specs::vec::group_vec_axioms;

/// A finding of the check.
#[derive(Debug, PartialEq)]
pub struct LintMessage(pub String);

impl LintMessage {
    /// The text of the finding.
    pub fn to_string(&self) -> (r: String)
        ensures
            r@ == self.0@,
    {
        self.0.clone()
    }
}

/// The names an expression uses.
pub open spec fn expr_consumes(e: Expression) -> Seq<Seq<char>> {
    match e {
        Expression::Identifier(n) => seq![n@],
        Expression::String(c, interpolated) => if interpolated {
            names_from(c@, 0)
        } else {
            seq![]
        },
    }
}

/// The names of `a` that `b` does not hold, in order.
pub open spec fn without(a: Seq<Seq<char>>, b: Seq<Seq<char>>) -> Seq<Seq<char>>
    decreases a.len(),
{
    if a.len() == 0 {
        seq![]
    } else if b.contains(a.last()) {
        without(a.drop_last(), b)
    } else {
        without(a.drop_last(), b).push(a.last())
    }
}

/// The names a statement uses from outside: a substitution's replacement
/// may use the groups of its own regex.
pub open spec fn stmt_consumes(st: Statement) -> Seq<Seq<char>> {
    match st {
        Statement::Print(e) => expr_consumes(e),
        Statement::Quit => seq![],
        Statement::Subst(rx, e) => without(expr_consumes(e), group_names_list(regex_group_names(rx@))),
        Statement::Gsubst(rx, e) => without(expr_consumes(e), group_names_list(regex_group_names(rx@))),
        Statement::Read(e) => expr_consumes(e),
        Statement::Write(e) => expr_consumes(e),
        Statement::Exec(e) => expr_consumes(e),
        Statement::Append(e) => expr_consumes(e),
        Statement::Assign(e) => expr_consumes(e),
    }
}

/// Whether one of the scopes holds `k`.
pub open spec fn in_scopes(scopes: Seq<Seq<Seq<char>>>, k: Seq<char>) -> bool {
    exists|i: int| 0 <= i < scopes.len() && #[trigger] scopes[i].contains(k)
}

/// The names of `needed` that no scope holds, in order.
pub open spec fn unresolved(scopes: Seq<Seq<Seq<char>>>, needed: Seq<Seq<char>>) -> Seq<Seq<char>>
    decreases needed.len(),
{
    if needed.len() == 0 {
        seq![]
    } else if in_scopes(scopes, needed.last()) {
        unresolved(scopes, needed.drop_last())
    } else {
        unresolved(scopes, needed.drop_last()).push(needed.last())
    }
}

/// The unbound names a body uses, under the names the enclosing guards can
/// bind.
pub open spec fn lint_body(b: Body, scopes: Seq<Seq<Seq<char>>>) -> Seq<Seq<char>>
    decreases b, 0int, 0int,
{
    match b {
        Body::Bare(st) => unresolved(scopes, stmt_consumes(st)),
        Body::Single(sel, st) => unresolved(scopes.push(provides(sel)), stmt_consumes(st)),
        Body::Guard(sel, blk) => lint_nodes(blk, blk.subnodes@.len() as int, scopes.push(provides(sel))),
    }
}

/// The unbound names the first `i` bodies of a block use.
pub open spec fn lint_nodes(blk: Block, i: int, scopes: Seq<Seq<Seq<char>>>) -> Seq<Seq<char>>
    decreases blk, 1int, i,
{
    if i <= 0 || i > blk.subnodes@.len() {
        seq![]
    } else {
        lint_nodes(blk, i - 1, scopes) + lint_body(blk.subnodes@[i - 1], scopes)
    }
}

/// A sequence with runs of equal names cut to one.
pub open spec fn dedup(s: Seq<Seq<char>>) -> Seq<Seq<char>>
    decreases s.len(),
{
    if s.len() <= 1 {
        s
    } else if s.last() == s[s.len() - 2] {
        dedup(s.drop_last())
    } else {
        dedup(s.drop_last()).push(s.last())
    }
}

pub open spec fn scopes_view(v: Seq<Vec<String>>) -> Seq<Seq<Seq<char>>> {
    v.map_values(|x: Vec<String>| strings_view(x@))
}

/// The names bound everywhere: the line, `_`.
pub open spec fn initial_scopes() -> Seq<Seq<Seq<char>>> {
    seq![seq![seq!['_']]]
}

/// The text of a finding about a name.
pub open spec fn undefined_message(k: Seq<char>) -> Seq<char> {
    "Undefined variable "@ + k
}

fn expr_consumes_exec(e: &Expression) -> (r: Vec<String>)
    ensures
        strings_view(r@) == expr_consumes(*e),
{
    match e {
        Expression::Identifier(n) => {
            let v = vec![n.clone()];
            assert(strings_view(v@) =~= seq![n@]);
            v
        },
        Expression::String(c, interpolated) => if *interpolated {
            interpolated_variables(c.as_str())
        } else {
            let v: Vec<String> = Vec::new();
            assert(strings_view(v@) =~= Seq::<Seq<char>>::empty());
            v
        },
    }
}

fn without_exec(a: &Vec<String>, b: &Vec<String>) -> (r: Vec<String>)
    ensures
        strings_view(r@) == without(strings_view(a@), strings_view(b@)),
{
    let mut out: Vec<String> = Vec::new();
    let mut i: usize = 0;
    while i < a.len()
        invariant
            i <= a@.len(),
            strings_view(out@) == without(strings_view(a@.subrange(0, i as int)), strings_view(b@)),
        decreases a.len() - i,
    {
        assert(strings_view(a@.subrange(0, i + 1)).drop_last() =~= strings_view(a@.subrange(0, i as int)));
        if !contains_string(b, &a[i]) {
            let ghost before = strings_view(out@);
            out.push(a[i].clone());
            assert(strings_view(out@) =~= before.push(a@[i as int]@));
        }
        i += 1;
    }
    assert(a@.subrange(0, i as int) =~= a@);
    out
}

impl Statement {
    /// The names this statement uses from outside.
    pub fn consumes(&self) -> (r: Vec<String>)
        ensures
            strings_view(r@) == stmt_consumes(*self),
    {
        match self {
            Statement::Print(e) => expr_consumes_exec(e),
            Statement::Quit => {
                let v: Vec<String> = Vec::new();
                assert(strings_view(v@) =~= Seq::<Seq<char>>::empty());
                v
            },
            Statement::Subst(rx, e) | Statement::Gsubst(rx, e) => {
                let used = expr_consumes_exec(e);
                let own = regex_provides(rx);
                without_exec(&used, &own)
            },
            Statement::Read(e) => expr_consumes_exec(e),
            Statement::Write(e) => expr_consumes_exec(e),
            Statement::Exec(e) => expr_consumes_exec(e),
            Statement::Append(e) => expr_consumes_exec(e),
            Statement::Assign(e) => expr_consumes_exec(e),
        }
    }
}

fn in_scopes_exec(scopes: &Vec<Vec<String>>, k: &String) -> (r: bool)
    ensures
        r == in_scopes(scopes_view(scopes@), k@),
{
    let mut i: usize = 0;
    while i < scopes.len()
        invariant
            i <= scopes@.len(),
            forall|j: int| 0 <= j < i ==> !(#[trigger] scopes_view(scopes@)[j]).contains(k@),
        decreases scopes.len() - i,
    {
        if contains_string(&scopes[i], k) {
            assert(scopes_view(scopes@)[i as int].contains(k@));
            return true;
        }
        i += 1;
    }
    false
}

/// The names of `needed` that none of `scopes` holds, in order.
fn check_vars(scopes: &Vec<Vec<String>>, needed: &Vec<String>) -> (r: Vec<String>)
    ensures
        strings_view(r@) == unresolved(scopes_view(scopes@), strings_view(needed@)),
{
    let mut out: Vec<String> = Vec::new();
    let mut i: usize = 0;
    while i < needed.len()
        invariant
            i <= needed@.len(),
            strings_view(out@) == unresolved(scopes_view(scopes@), strings_view(needed@.subrange(0, i as int))),
        decreases needed.len() - i,
    {
        assert(strings_view(needed@.subrange(0, i + 1)).drop_last() =~= strings_view(needed@.subrange(0, i as int)));
        if !in_scopes_exec(scopes, &needed[i]) {
            let ghost before = strings_view(out@);
            out.push(needed[i].clone());
            assert(strings_view(out@) =~= before.push(needed@[i as int]@));
        }
        i += 1;
    }
    assert(needed@.subrange(0, i as int) =~= needed@);
    out
}

fn push_scope(scopes: &mut Vec<Vec<String>>, names: Vec<String>)
    ensures
        scopes_view(final(scopes)@) == scopes_view(old(scopes)@).push(strings_view(names@)),
{
    let ghost nv = strings_view(names@);
    scopes.push(names);
    assert(scopes_view(scopes@) =~= scopes_view(old(scopes)@).push(nv));
}

fn pop_scope(scopes: &mut Vec<Vec<String>>)
    requires
        scopes_view(old(scopes)@).len() > 0,
    ensures
        scopes_view(final(scopes)@) == scopes_view(old(scopes)@).drop_last(),
{
    let _ = scopes.pop();
    assert(scopes_view(scopes@) =~= scopes_view(old(scopes)@).drop_last());
}

impl Body {
    /// The unbound names this body uses, under `scopes`.
    fn lint_vars(&self, scopes: &mut Vec<Vec<String>>) -> (r: Vec<String>)
        ensures
            strings_view(r@) == lint_body(*self, scopes_view(old(scopes)@)),
            scopes_view(final(scopes)@) == scopes_view(old(scopes)@),
        decreases self, 0int, 0int,
    {
        match self {
            Body::Bare(st) => check_vars(scopes, &st.consumes()),
            Body::Single(sel, st) => {
                push_scope(scopes, sel.provides());
                let r = check_vars(scopes, &st.consumes());
                pop_scope(scopes);
                assert(scopes_view(scopes@) =~= scopes_view(old(scopes)@));
                r
            },
            Body::Guard(sel, blk) => {
                push_scope(scopes, sel.provides());
                let r = blk.lint_vars(scopes);
                pop_scope(scopes);
                assert(scopes_view(scopes@) =~= scopes_view(old(scopes)@));
                r
            },
        }
    }
}

impl Block {
    /// The unbound names this block uses, under `scopes`, in order.
    fn lint_vars(&self, scopes: &mut Vec<Vec<String>>) -> (r: Vec<String>)
        ensures
            strings_view(r@) == lint_nodes(*self, self.subnodes@.len() as int, scopes_view(old(scopes)@)),
            scopes_view(final(scopes)@) == scopes_view(old(scopes)@),
        decreases self, 2int, 0int,
    {
        let ghost sv = scopes_view(scopes@);
        let mut out: Vec<String> = Vec::new();
        let mut i: usize = 0;
        while i < self.subnodes.len()
            invariant
                i <= self.subnodes@.len(),
                scopes_view(scopes@) == sv,
                strings_view(out@) == lint_nodes(*self, i as int, sv),
            decreases self.subnodes.len() - i,
        {
            let more = self.subnodes[i].lint_vars(scopes);
            extend_strings(&mut out, &more);
            i += 1;
        }
        out
    }
}

/// Runs of equal names cut to one.
fn dedup_names(v: &Vec<String>) -> (r: Vec<String>)
    ensures
        strings_view(r@) == dedup(strings_view(v@)),
{
    let mut out: Vec<String> = Vec::new();
    let mut i: usize = 0;
    while i < v.len()
        invariant
            i <= v@.len(),
            strings_view(out@) == dedup(strings_view(v@.subrange(0, i as int))),
            i > 0 ==> out@.len() > 0 && out@.last()@ == v@[i - 1]@,
        decreases v.len() - i,
    {
        let ghost s = strings_view(v@.subrange(0, i + 1));
        assert(s.drop_last() =~= strings_view(v@.subrange(0, i as int)));
        let ghost before = strings_view(out@);
        if i == 0 || !(v[i] == v[i - 1]) {
            out.push(v[i].clone());
            assert(strings_view(out@) =~= before.push(v@[i as int]@));
        }
        proof {
            lemma_dedup_last(s);
        }
        i += 1;
    }
    assert(v@.subrange(0, i as int) =~= v@);
    out
}

proof fn lemma_dedup_last(s: Seq<Seq<char>>)
    requires
        s.len() > 0,
    ensures
        dedup(s).len() > 0,
        dedup(s).last() == s.last(),
    decreases s.len(),
{
    if s.len() > 1 && s.last() == s[s.len() - 2] {
        lemma_dedup_last(s.drop_last());
    }
}

/// Finds the names that the program's statements use where no enclosing
/// guard can bind them (`_`, the line, is always bound); one finding per
/// run of the same name.
pub fn lint(node: &Block) -> (r: Vec<LintMessage>)
    ensures
        r@.len() == dedup(lint_nodes(*node, node.subnodes@.len() as int, initial_scopes())).len(),
        forall|i: int| 0 <= i < r@.len() ==> (#[trigger] r@[i]).0@ == undefined_message(
            dedup(lint_nodes(*node, node.subnodes@.len() as int, initial_scopes()))[i]),
{
    let mut scopes: Vec<Vec<String>> = Vec::new();
    proof {
        reveal_strlit("_");
    }
    let underscore = "_".to_owned();
    assert(underscore@ =~= seq!['_']);
    let base = vec![underscore];
    assert(strings_view(base@) =~= seq![seq!['_']]);
    push_scope(&mut scopes, base);
    assert(scopes_view(scopes@) =~= initial_scopes());
    let found = node.lint_vars(&mut scopes);
    let names = dedup_names(&found);
    let mut out: Vec<LintMessage> = Vec::new();
    let mut i: usize = 0;
    while i < names.len()
        invariant
            i <= names@.len(),
            out@.len() == i,
            forall|j: int| 0 <= j < i ==> (#[trigger] out@[j]).0@ == undefined_message(names@[j]@),
        decreases names.len() - i,
    {
        out.push(LintMessage(concat("Undefined variable ", names[i].as_str())));
        i += 1;
    }
    assert forall|j: int| 0 <= j < out@.len() implies (#[trigger] out@[j]).0@ == undefined_message(
        dedup(lint_nodes(*node, node.subnodes@.len() as int, initial_scopes()))[j]) by {
        assert(strings_view(names@)[j] == names@[j]@);
    }
    out
}

} // verus!
