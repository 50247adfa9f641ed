//! Statement execution, and the walk of the program tree for one event.

use vstd::prelude::*;
use crate::ast::{Block, Body, Expression, Statement, Selector, block_ranges, body_ranges,
    body_is_lifecycle, nodes_ranges, lemma_nodes_ranges_mono, sel_ranges};
use crate::env::{Bindings, Effect, EffectView, EnvView, Environment, Event, EventView, advance,
    line_of, pop_stack, value_of_name};
use crate::eval::{sel_holds, sel_scope, select_view};
use crate::interp::{interp, interpolate};
use crate::rx::{Rx, regex_group_names, regex_matches, regex_pieces, regex_finds, opts_view,
    strings_view};
use crate::scope::{Scope, groups_map};
use crate::text::concat;

verus! {

broadcast use vstd::std_specs::vec::group_vec_axioms;

/// A line ending.
pub open spec fn nl() -> Seq<char> {
    seq!['\n']
}

/// The value of an expression.
pub open spec fn expr_value(e: Expression, v: EnvView) -> Seq<char> {
    match e {
        Expression::String(t, interpolated) => if interpolated {
            interp(t@, v)
        } else {
            t@
        },
        Expression::Identifier(n) => value_of_name(v, n@),
    }
}

/// The state with the current line replaced; unchanged outside a line event.
pub open spec fn set_line(v: EnvView, t: Seq<char>) -> EnvView {
    if v.event is Line {
        EnvView { event: EventView::Line(t), ..v }
    } else {
        v
    }
}

/// The whole text of a match.
pub open spec fn whole_match(g: Seq<Option<Seq<char>>>) -> Seq<char> {
    if g.len() > 0 && g[0] is Some {
        g[0]->0
    } else {
        seq![]
    }
}

/// The pieces between matches, each followed by the text put in place of
/// the match after it.
pub open spec fn rebuild(pieces: Seq<Seq<char>>, reps: Seq<Seq<char>>) -> Seq<char>
    decreases pieces.len(),
{
    if pieces.len() == 0 {
        seq![]
    } else {
        let i = pieces.len() - 1;
        rebuild(pieces.drop_last(), reps) + pieces[i] + (if i < reps.len() {
            reps[i]
        } else {
            seq![]
        })
    }
}

/// The value of `e` for a match with groups `g`: evaluated with the match's
/// named groups pushed as an innermost scope.
pub open spec fn replacement(rx: Rx, e: Expression, g: Seq<Option<Seq<char>>>, v: EnvView) -> Seq<char> {
    expr_value(e, EnvView { stack: v.stack.push(groups_map(regex_group_names(rx@), g)), ..v })
}

/// What each match of `rx` in `t` is replaced by: the replacement for the
/// first (for every one where `all`), the match itself otherwise.
pub open spec fn subst_reps(rx: Rx, e: Expression, t: Seq<char>, v: EnvView, all: bool) -> Seq<Seq<char>> {
    let ms = regex_matches(rx@, t);
    Seq::new(ms.len(), |i: int| if all || i == 0 {
        replacement(rx, e, ms[i], v)
    } else {
        whole_match(ms[i])
    })
}

/// `t` with the first match of `rx` (every match where `all`) replaced by
/// the value of `e` under that match's groups; `t` itself where `rx` does
/// not match.
pub open spec fn subst_text(rx: Rx, e: Expression, t: Seq<char>, v: EnvView, all: bool) -> Seq<char> {
    if regex_matches(rx@, t).len() == 0 {
        t
    } else {
        rebuild(regex_pieces(rx@, t), subst_reps(rx, e, t, v, all))
    }
}

/// What a statement does to the state.
pub open spec fn stmt_step(st: Statement, v: EnvView) -> EnvView {
    match st {
        Statement::Print(e) => EnvView { out: v.out.push(EffectView::Output(expr_value(e, v) + nl())), ..v },
        Statement::Quit => EnvView { quit: true, ..v },
        Statement::Subst(rx, e) => set_line(v, subst_text(rx, e, line_of(v.event), v, false)),
        Statement::Gsubst(rx, e) => set_line(v, subst_text(rx, e, line_of(v.event), v, true)),
        Statement::Read(e) => EnvView { out: v.out.push(EffectView::ReadFile(expr_value(e, v))), ..v },
        Statement::Write(e) => if v.event is Line {
            EnvView {
                out: v.out.push(EffectView::AppendToFile(expr_value(e, v), line_of(v.event) + nl())),
                ..v
            }
        } else {
            v
        },
        Statement::Exec(e) => EnvView { out: v.out.push(EffectView::Shell(expr_value(e, v))), ..v },
        Statement::Append(e) => set_line(v, line_of(v.event) + expr_value(e, v)),
        Statement::Assign(e) => set_line(v, expr_value(e, v)),
    }
}

/// A statement runs unless a quit statement ran before.
pub open spec fn run_stmt(st: Statement, v: EnvView) -> EnvView {
    if v.quit {
        v
    } else {
        stmt_step(st, v)
    }
}

/// The cursor moved on past `k` ranges that are not evaluated.
pub open spec fn skip_view(v: EnvView, k: int) -> EnvView {
    EnvView { pos: advance(v.pos, k, v.states.len() as int), steps: v.steps + k, ..v }
}

/// The state with a scope pushed.
pub open spec fn push_view(v: EnvView, b: Bindings) -> EnvView {
    EnvView { stack: v.stack.push(b), ..v }
}

/// The state with the innermost scope popped.
pub open spec fn pop_view(v: EnvView) -> EnvView {
    EnvView { stack: pop_stack(v.stack), ..v }
}

/// Whether an event is the start or the end of the stream.
pub open spec fn event_is_lifecycle(ev: EventView) -> bool {
    !(ev is Line)
}

/// What performing a body does to the state. Once a quit statement ran it
/// changes nothing; a guard's statements run, under the scope it provides,
/// only where it fires; the ranges that are not evaluated are stepped over.
pub open spec fn perform_body(b: Body, v: EnvView) -> EnvView
    decreases b, 0int, 0int,
{
    if v.quit {
        v
    } else {
        match b {
            Body::Bare(st) => stmt_step(st, v),
            Body::Single(sel, st) => {
                let w = select_view(sel, v);
                if sel_holds(sel, v) {
                    pop_view(run_stmt(st, push_view(w, sel_scope(sel, w, v.pos, w.states))))
                } else {
                    w
                }
            },
            Body::Guard(sel, blk) => {
                let w = select_view(sel, v);
                if sel_holds(sel, v) {
                    pop_view(perform_block(blk, push_view(w, sel_scope(sel, w, v.pos, w.states))))
                } else {
                    skip_view(w, block_ranges(blk) as int)
                }
            },
        }
    }
}

/// What performing the first `i` bodies of a block does to the state. At
/// the root of a program only the bodies that suit the event run: those
/// headed by the start or end of the stream on those events, the others on
/// lines.
pub open spec fn perform_nodes(blk: Block, i: int, v: EnvView) -> EnvView
    decreases blk, 1int, i,
{
    if i <= 0 || i > blk.subnodes@.len() {
        v
    } else {
        let w = perform_nodes(blk, i - 1, v);
        let b = blk.subnodes@[i - 1];
        if !blk.toplevel || event_is_lifecycle(w.event) == body_is_lifecycle(b) {
            perform_body(b, w)
        } else if w.quit {
            w
        } else {
            skip_view(w, body_ranges(b) as int)
        }
    }
}

/// What performing a block does to the state.
pub open spec fn perform_block(blk: Block, v: EnvView) -> EnvView
    decreases blk, 2int, 0int,
{
    if v.quit {
        v
    } else {
        perform_nodes(blk, blk.subnodes@.len() as int, v)
    }
}

impl Expression {
    /// The value of this expression.
    pub fn to_value(&self, env: &Environment) -> (r: String)
        ensures
            r@ == expr_value(*self, env@),
    {
        match self {
            Expression::String(t, interpolated) => if *interpolated {
                interpolate(t.as_str(), env)
            } else {
                t.clone()
            },
            Expression::Identifier(n) => match env.lookup(n.as_str()) {
                Some(v) => v,
                None => String::new(),
            },
        }
    }
}

/// Replaces the current line; nothing outside a line event.
fn replace_line(env: &mut Environment, t: String)
    ensures
        final(env)@ == set_line(old(env)@, t@),
        final(env).tracker == old(env).tracker,
{
    if let Event::Line(_) = env.event {
        env.event = Event::Line(t);
    }
}

/// Prints the value of `expr` and a newline.
pub fn print(expr: &Expression, env: &mut Environment)
    ensures
        final(env)@ == stmt_step(Statement::Print(*expr), old(env)@),
        final(env).tracker == old(env).tracker,
{
    let v = expr.to_value(env);
    proof {
        reveal_strlit("\n");
    }
    let line = concat(v.as_str(), "\n");
    assert(line@ =~= v@ + nl());
    env.emit(Effect::Output(line));
}

/// Sets the quit flag: nothing more runs, on this event or a later one.
pub fn quit(env: &mut Environment)
    ensures
        final(env)@ == stmt_step(Statement::Quit, old(env)@),
        final(env).tracker == old(env).tracker,
{
    env.quit = true;
}

/// The value of `expr` with the named groups of a match pushed as an
/// innermost scope.
fn replacement_value(rx: &Rx, expr: &Expression, names: &Vec<Option<String>>,
    g: &Vec<Option<String>>, env: &mut Environment) -> (r: String)
    requires
        opts_view(names@) == regex_group_names(rx@),
    ensures
        r@ == replacement(*rx, *expr, opts_view(g@), old(env)@),
        final(env)@ == old(env)@,
        final(env).tracker == old(env).tracker,
{
    let scope = Scope::from_groups(names, g);
    env.push(scope);
    let r = expr.to_value(env);
    env.pop();
    assert(env@.stack =~= old(env)@.stack);
    assert(env@ =~= old(env)@);
    r
}

/// Replaces the first match of `regex` in `line` (every match where
/// `all`) by the value of `expr` under the match's groups.
fn substitute(regex: &Rx, expr: &Expression, line: &String, all: bool, env: &mut Environment) -> (r: String)
    ensures
        r@ == subst_text(*regex, *expr, line@, old(env)@, all),
        !regex_finds(regex@, line@) ==> r@ == line@,
        final(env)@ == old(env)@,
        final(env).tracker == old(env).tracker,
{
    let ms = regex.all_captures(line.as_str());
    if ms.len() == 0 {
        assert(regex_matches(regex@, line@).len() == 0);
        return line.clone();
    }
    let ghost v = env@;
    let ghost msv = regex_matches(regex@, line@);
    let names = regex.group_names();
    let pieces = regex.split(line.as_str());
    let ghost pv = strings_view(pieces@);
    let ghost reps = subst_reps(*regex, *expr, line@, v, all);
    assert(ms@.len() == msv.len());
    let mut out = String::new();
    let mut i: usize = 0;
    while i < pieces.len()
        invariant
            i <= pieces@.len(),
            env@ == v,
            env.tracker == old(env).tracker,
            pv == strings_view(pieces@),
            pv == regex_pieces(regex@, line@),
            msv == regex_matches(regex@, line@),
            ms@.map_values(|g: Vec<Option<String>>| opts_view(g@)) == msv,
            opts_view(names@) == regex_group_names(regex@),
            reps == subst_reps(*regex, *expr, line@, v, all),
            out@ == rebuild(pv.subrange(0, i as int), reps),
        decreases pieces.len() - i,
    {
        assert(pv.subrange(0, i + 1).drop_last() =~= pv.subrange(0, i as int));
        out = concat(out.as_str(), pieces[i].as_str());
        if i < ms.len() {
            assert(opts_view(ms@[i as int]@) == msv[i as int]);
            let rep = if all || i == 0 {
                replacement_value(regex, expr, &names, &ms[i], env)
            } else if ms[i].len() > 0 {
                match &ms[i][0] {
                    Some(w) => w.clone(),
                    None => String::new(),
                }
            } else {
                String::new()
            };
            out = concat(out.as_str(), rep.as_str());
        } else {
            assert(out@ =~= out@ + Seq::<char>::empty());
        }
        i += 1;
    }
    assert(pv.subrange(0, i as int) =~= pv);
    out
}

/// Replaces the first match of `regex` in the current line by the value of
/// `expr` under the match's groups; nothing outside a line event.
pub fn subst(regex: &Rx, expr: &Expression, env: &mut Environment)
    ensures
        final(env)@ == stmt_step(Statement::Subst(*regex, *expr), old(env)@),
        final(env).tracker == old(env).tracker,
{
    let line = match &env.event {
        Event::Line(t) => t.clone(),
        _ => {
            return;
        },
    };
    let r = substitute(regex, expr, &line, false, env);
    replace_line(env, r);
}

/// Replaces every match of `regex` in the current line by the value of
/// `expr` under that match's groups; nothing outside a line event. Where
/// `regex` does not match, the line stays as it is.
pub fn gsubst(regex: &Rx, expr: &Expression, env: &mut Environment)
    ensures
        final(env)@ == stmt_step(Statement::Gsubst(*regex, *expr), old(env)@),
        final(env).tracker == old(env).tracker,
        old(env)@.event is Line && !regex_finds(regex@, line_of(old(env)@.event))
            ==> final(env)@ == old(env)@,
{
    let line = match &env.event {
        Event::Line(t) => t.clone(),
        _ => {
            return;
        },
    };
    let r = substitute(regex, expr, &line, true, env);
    replace_line(env, r);
    proof {
        if !regex_finds(regex@, line@) {
            assert(env@ =~= old(env)@);
        }
    }
}

/// Asks for the file named by `expr` to be copied to the output.
pub fn read(expr: &Expression, env: &mut Environment)
    ensures
        final(env)@ == stmt_step(Statement::Read(*expr), old(env)@),
        final(env).tracker == old(env).tracker,
{
    let name = expr.to_value(env);
    env.emit(Effect::ReadFile(name));
}

/// Asks for the current line and a newline to be appended to the file named
/// by `expr`; nothing outside a line event.
pub fn write(expr: &Expression, env: &mut Environment)
    ensures
        final(env)@ == stmt_step(Statement::Write(*expr), old(env)@),
        final(env).tracker == old(env).tracker,
{
    proof {
        reveal_strlit("\n");
    }
    let line = match &env.event {
        Event::Line(t) => concat(t.as_str(), "\n"),
        _ => {
            return;
        },
    };
    assert(line@ =~= line_of(env@.event) + nl());
    let name = expr.to_value(env);
    env.emit(Effect::AppendToFile(name, line));
}

/// Asks for the command given by `expr` to be run through the shell.
pub fn exec(expr: &Expression, env: &mut Environment)
    ensures
        final(env)@ == stmt_step(Statement::Exec(*expr), old(env)@),
        final(env).tracker == old(env).tracker,
{
    let cmd = expr.to_value(env);
    env.emit(Effect::Shell(cmd));
}

/// Appends the value of `expr` to the current line; nothing outside a line
/// event.
pub fn append(expr: &Expression, env: &mut Environment)
    ensures
        final(env)@ == stmt_step(Statement::Append(*expr), old(env)@),
        final(env).tracker == old(env).tracker,
{
    let line = match &env.event {
        Event::Line(t) => t.clone(),
        _ => {
            return;
        },
    };
    let v = expr.to_value(env);
    let r = concat(line.as_str(), v.as_str());
    replace_line(env, r);
}

/// Replaces the current line by the value of `expr`; nothing outside a line
/// event.
pub fn set(expr: &Expression, env: &mut Environment)
    ensures
        final(env)@ == stmt_step(Statement::Assign(*expr), old(env)@),
        final(env).tracker == old(env).tracker,
{
    if let Event::Line(_) = env.event {
        let v = expr.to_value(env);
        replace_line(env, v);
    }
}

/// Whether an event is the start or the end of the stream.
pub fn is_lifecycle_event(ev: &Event) -> (r: bool)
    ensures
        r == event_is_lifecycle(ev@),
{
    match ev {
        Event::Line(_) => false,
        _ => true,
    }
}

impl Statement {
    /// Runs this statement, unless a quit statement ran before.
    pub fn perform(&self, env: &mut Environment)
        ensures
            final(env)@ == run_stmt(*self, old(env)@),
            final(env).tracker == old(env).tracker,
    {
        if env.finished() {
            return;
        }
        match self {
            Statement::Print(e) => print(e, env),
            Statement::Quit => quit(env),
            Statement::Subst(rx, e) => subst(rx, e, env),
            Statement::Gsubst(rx, e) => gsubst(rx, e, env),
            Statement::Read(e) => read(e, env),
            Statement::Write(e) => write(e, env),
            Statement::Exec(e) => exec(e, env),
            Statement::Append(e) => append(e, env),
            Statement::Assign(e) => set(e, env),
        }
    }
}

/// Steps the cursor over `k` ranges that are not evaluated.
fn skip_ranges(env: &mut Environment, k: usize)
    requires
        old(env).tracker.wf(),
    ensures
        final(env).tracker.wf(),
        final(env).tracker.states@.len() == old(env).tracker.states@.len(),
        final(env)@ == skip_view(old(env)@, k as int),
{
    env.tracker.skip(k);
    assert(env@ =~= skip_view(old(env)@, k as int));
}

impl Body {
    /// Performs this body: nothing once a quit statement ran; under a
    /// guard, the statements run with the guard's scope pushed, and only
    /// where the guard fires. Every range guard it holds moves the cursor
    /// on once, evaluated or not.
    pub fn perform(&self, env: &mut Environment)
        requires
            old(env).tracker.wf(),
            body_ranges(*self) <= old(env).tracker.states@.len(),
        ensures
            final(env).tracker.wf(),
            final(env).tracker.states@.len() == old(env).tracker.states@.len(),
            final(env)@ == perform_body(*self, old(env)@),
            old(env)@.quit ==> final(env)@ == old(env)@,
        decreases self, 0int, 0int,
    {
        let slots = env.tracker.states.len();
        assert(body_ranges(*self) <= slots);
        if env.finished() {
            return;
        }
        match self {
            Body::Bare(st) => st.perform(env),
            Body::Single(sel, st) => {
                let base = env.tracker.pos;
                if sel.select(env) {
                    let s = sel.scope(env, base);
                    env.push(s);
                    st.perform(env);
                    env.pop();
                }
            },
            Body::Guard(sel, blk) => {
                let base = env.tracker.pos;
                if sel.select(env) {
                    let s = sel.scope(env, base);
                    env.push(s);
                    blk.perform(env);
                    env.pop();
                } else {
                    let k = blk.num_ranges();
                    skip_ranges(env, k);
                }
            },
        }
    }
}

impl Block {
    /// Performs the bodies of this block in order; at the root of a program
    /// only those that suit the event. Every range guard it holds moves the
    /// cursor on once, evaluated or not.
    pub fn perform(&self, env: &mut Environment)
        requires
            old(env).tracker.wf(),
            block_ranges(*self) <= old(env).tracker.states@.len(),
        ensures
            final(env).tracker.wf(),
            final(env).tracker.states@.len() == old(env).tracker.states@.len(),
            final(env)@ == perform_block(*self, old(env)@),
            old(env)@.quit ==> final(env)@ == old(env)@,
        decreases self, 2int, 0int,
    {
        let slots = env.tracker.states.len();
        assert(block_ranges(*self) <= slots);
        if env.finished() {
            return;
        }
        let ghost start = env@;
        let mut i: usize = 0;
        while i < self.subnodes.len()
            invariant
                i <= self.subnodes@.len(),
                env.tracker.wf(),
                env.tracker.states@.len() == old(env).tracker.states@.len(),
                block_ranges(*self) <= env.tracker.states@.len(),
                env@ == perform_nodes(*self, i as int, start),
            decreases self.subnodes.len() - i,
        {
            proof {
                lemma_nodes_ranges_mono(*self, i + 1, self.subnodes@.len() as int);
            }
            let slots = env.tracker.states.len();
            let sub = &self.subnodes[i];
            if !self.toplevel || is_lifecycle_event(&env.event) == sub.is_lifecycle() {
                sub.perform(env);
            } else if !env.finished() {
                let k = sub.num_ranges();
                skip_ranges(env, k);
            }
            i += 1;
        }
    }
}

/// The cursor over `n` slots stands within them.
pub open spec fn cursor_ok(v: EnvView) -> bool {
    &&& v.states.len() > 0 ==> 0 <= v.pos < v.states.len()
    &&& v.states.len() == 0 ==> v.pos == 0
}

proof fn lemma_advance_add(p: int, a: int, b: int, n: int)
    requires
        n >= 0,
        n > 0 ==> 0 <= p < n,
        a >= 0,
        b >= 0,
    ensures
        advance(advance(p, a, n), b, n) == advance(p, a + b, n),
        n > 0 ==> 0 <= advance(p, a, n) < n,
{
    if n > 0 {
        vstd::arithmetic::div_mod::lemma_add_mod_noop_right(b, p + a, n);
        vstd::arithmetic::div_mod::lemma_mod_bound(p + a, n);
        let x = (p + a) % n;
        assert((b + x) % n == (b + (p + a)) % n);
        assert(x + b == b + x);
        assert(b + (p + a) == p + (a + b));
        assert((x + b) % n == (p + (a + b)) % n);
        assert(advance(p, a, n) == x);
        assert(advance(x, b, n) == (x + b) % n);
        assert(advance(p, a + b, n) == (p + (a + b)) % n);
    }
}

/// Evaluating a selector moves the cursor on once for each range it holds,
/// whatever the outcome, and keeps the number of slots.
pub proof fn lemma_select_moves_cursor(s: Selector, v: EnvView)
    requires
        cursor_ok(v),
        sel_ranges(s) <= v.states.len(),
    ensures
        select_view(s, v).steps == v.steps + sel_ranges(s),
        select_view(s, v).pos == advance(v.pos, sel_ranges(s) as int, v.states.len() as int),
        select_view(s, v).states.len() == v.states.len(),
        cursor_ok(select_view(s, v)),
        select_view(s, v).lineno == v.lineno,
        select_view(s, v).quit == v.quit,
    decreases s,
{
    let n = v.states.len() as int;
    match s {
        Selector::Range(_) => {
            lemma_advance_add(v.pos, 0, 1, n);
        },
        Selector::Negate(inner) => {
            lemma_select_moves_cursor(*inner, v);
        },
        Selector::Conjunction(l, r) => {
            lemma_select_moves_cursor(*l, v);
            lemma_select_moves_cursor(*r, select_view(*l, v));
            lemma_advance_add(v.pos, sel_ranges(*l) as int, sel_ranges(*r) as int, n);
        },
        Selector::Disjunction(l, r) => {
            lemma_select_moves_cursor(*l, v);
            lemma_select_moves_cursor(*r, select_view(*l, v));
            lemma_advance_add(v.pos, sel_ranges(*l) as int, sel_ranges(*r) as int, n);
        },
        _ => {
            lemma_advance_add(v.pos, 0, 0, n);
            if n > 0 {
                vstd::arithmetic::div_mod::lemma_small_mod(v.pos as nat, n as nat);
            }
        },
    }
}

/// Performing a body moves the cursor on once for each range guard it
/// holds, whichever guards fire, unless a quit statement runs; once the
/// quit flag is set it changes nothing.
pub proof fn lemma_body_moves_cursor(b: Body, v: EnvView)
    requires
        cursor_ok(v),
        body_ranges(b) <= v.states.len(),
    ensures
        !perform_body(b, v).quit ==> perform_body(b, v).steps == v.steps + body_ranges(b),
        !perform_body(b, v).quit ==> perform_body(b, v).pos == advance(v.pos, body_ranges(b) as int, v.states.len() as int),
        v.quit ==> perform_body(b, v) == v,
        perform_body(b, v).states.len() == v.states.len(),
        cursor_ok(perform_body(b, v)),
        perform_body(b, v).lineno == v.lineno,
    decreases b, 0int, 0int,
{
    let n = v.states.len() as int;
    lemma_advance_add(v.pos, body_ranges(b) as int, 0, n);
    if v.quit {
    } else {
        match b {
            Body::Bare(st) => {
                lemma_advance_add(v.pos, 0, 0, n);
                if n > 0 {
                    vstd::arithmetic::div_mod::lemma_small_mod(v.pos as nat, n as nat);
                }
            },
            Body::Single(sel, st) => {
                lemma_select_moves_cursor(sel, v);
            },
            Body::Guard(sel, blk) => {
                lemma_select_moves_cursor(sel, v);
                let w = select_view(sel, v);
                lemma_advance_add(v.pos, sel_ranges(sel) as int, block_ranges(blk) as int, n);
                if sel_holds(sel, v) {
                    lemma_block_moves_cursor(blk, push_view(w, sel_scope(sel, w, v.pos, w.states)));
                }
            },
        }
    }
}

proof fn lemma_nodes_move_cursor(blk: Block, i: int, v: EnvView)
    requires
        cursor_ok(v),
        0 <= i <= blk.subnodes@.len(),
        nodes_ranges(blk, i) <= v.states.len(),
    ensures
        !perform_nodes(blk, i, v).quit ==> perform_nodes(blk, i, v).steps == v.steps + nodes_ranges(blk, i),
        !perform_nodes(blk, i, v).quit ==> perform_nodes(blk, i, v).pos == advance(v.pos, nodes_ranges(blk, i) as int, v.states.len() as int),
        v.quit ==> perform_nodes(blk, i, v) == v,
        perform_nodes(blk, i, v).states.len() == v.states.len(),
        cursor_ok(perform_nodes(blk, i, v)),
        perform_nodes(blk, i, v).lineno == v.lineno,
    decreases blk, 1int, i,
{
    let n = v.states.len() as int;
    if i == 0 {
        lemma_advance_add(v.pos, 0, 0, n);
        if n > 0 {
            vstd::arithmetic::div_mod::lemma_small_mod(v.pos as nat, n as nat);
        }
    } else {
        lemma_nodes_move_cursor(blk, i - 1, v);
        let w = perform_nodes(blk, i - 1, v);
        let b = blk.subnodes@[i - 1];
        lemma_body_moves_cursor(b, w);
        lemma_advance_add(v.pos, nodes_ranges(blk, i - 1) as int, body_ranges(b) as int, n);
        lemma_advance_add(w.pos, body_ranges(b) as int, 0, n);
    }
}

/// One event: performing a program (or any block) in which no quit
/// statement runs moves the range cursor on exactly once for each range
/// guard it holds, whichever guards fire, so that it comes back to where
/// it started after a whole event. Once the quit flag is set, performing
/// changes nothing at all.
pub proof fn lemma_block_moves_cursor(blk: Block, v: EnvView)
    requires
        cursor_ok(v),
        block_ranges(blk) <= v.states.len(),
    ensures
        !perform_block(blk, v).quit ==> perform_block(blk, v).steps == v.steps + block_ranges(blk),
        !perform_block(blk, v).quit ==> perform_block(blk, v).pos == advance(v.pos, block_ranges(blk) as int, v.states.len() as int),
        v.quit ==> perform_block(blk, v) == v,
        perform_block(blk, v).states.len() == v.states.len(),
        cursor_ok(perform_block(blk, v)),
        perform_block(blk, v).lineno == v.lineno,
    decreases blk, 2int, 0int,
{
    let n = v.states.len() as int;
    lemma_advance_add(v.pos, block_ranges(blk) as int, 0, n);
    if !v.quit {
        lemma_nodes_move_cursor(blk, blk.subnodes@.len() as int, v);
    }
}

} // verus!
