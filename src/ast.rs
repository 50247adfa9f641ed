//! The syntax tree of a program, and what can be read off it statically.

use vstd::prelude::*;
use crate::rx::{Rx, regex_group_names, strings_view};

verus! {

broadcast use vstd::std_specs::vec::group_vec_axioms;

/// A condition on the current event.
#[derive(Debug, PartialEq)]
pub enum Match {
    /// The start of the stream.
    Begin,
    /// The end of the stream.
    End,
    /// The line with this number (counted from one).
    Index(i64),
    /// A line in which the pattern matches somewhere.
    Regex(Rx),
}

/// A range of lines, from a line that meets the first condition up to,
/// but not including, a line that meets the second.
#[derive(Debug, PartialEq)]
pub struct Range(pub Match, pub Match);

/// One position of a pattern match over the fields of a line.
#[derive(Debug, PartialEq)]
pub enum Pattern {
    /// A field in which the pattern matches.
    Regex(Rx),
    /// A field equal to the text; the flag says whether `${name}` in the
    /// text is replaced first.
    String(String, bool),
    /// Any field, bound to the name (`_` binds nothing).
    Identifier(String),
}

/// A match over the fields of a line, position by position.
#[derive(Debug, PartialEq)]
pub struct PatternMatch {
    pub patterns: Vec<Pattern>,
}

/// A guard.
#[derive(Debug, PartialEq)]
pub enum Selector {
    Match(Match),
    Range(Range),
    Pattern(PatternMatch),
    Negate(Box<Selector>),
    Conjunction(Box<Selector>, Box<Selector>),
    Disjunction(Box<Selector>, Box<Selector>),
}

/// A value: a text (the flag says whether `${name}` is replaced in it) or
/// the text bound to a name.
#[derive(Debug, PartialEq)]
pub enum Expression {
    String(String, bool),
    Identifier(String),
}

/// An action.
#[derive(Debug, PartialEq)]
pub enum Statement {
    /// Prints the value and a newline.
    Print(Expression),
    /// Stops all processing.
    Quit,
    /// Replaces the first match in the line.
    Subst(Rx, Expression),
    /// Replaces every match in the line.
    Gsubst(Rx, Expression),
    /// Copies the file so named to the output.
    Read(Expression),
    /// Appends the line to the file so named.
    Write(Expression),
    /// Runs the command through the shell, its output going to the output.
    Exec(Expression),
    /// Appends the value to the line.
    Append(Expression),
    /// Replaces the line with the value.
    Assign(Expression),
}

/// A statement, alone or under a guard, or a block under a guard.
#[derive(Debug, PartialEq)]
pub enum Body {
    Bare(Statement),
    Single(Selector, Statement),
    Guard(Selector, Block),
}

/// A sequence of bodies; `toplevel` marks the root of a program.
#[derive(Debug, PartialEq)]
pub struct Block {
    pub subnodes: Vec<Body>,
    pub toplevel: bool,
}

/// What an expression is, over plain values.
pub enum ExprView {
    String(Seq<char>, bool),
    Identifier(Seq<char>),
}

/// What a statement is, over plain values (a regex by its source text).
pub enum StmtView {
    Print(ExprView),
    Quit,
    Subst(Seq<char>, ExprView),
    Gsubst(Seq<char>, ExprView),
    Read(ExprView),
    Write(ExprView),
    Exec(ExprView),
    Append(ExprView),
    Assign(ExprView),
}

impl View for Expression {
    type V = ExprView;

    open spec fn view(&self) -> ExprView {
        match self {
            Expression::String(t, i) => ExprView::String(t@, *i),
            Expression::Identifier(n) => ExprView::Identifier(n@),
        }
    }
}

impl View for Statement {
    type V = StmtView;

    open spec fn view(&self) -> StmtView {
        match self {
            Statement::Print(e) => StmtView::Print(e@),
            Statement::Quit => StmtView::Quit,
            Statement::Subst(rx, e) => StmtView::Subst(rx@, e@),
            Statement::Gsubst(rx, e) => StmtView::Gsubst(rx@, e@),
            Statement::Read(e) => StmtView::Read(e@),
            Statement::Write(e) => StmtView::Write(e@),
            Statement::Exec(e) => StmtView::Exec(e@),
            Statement::Append(e) => StmtView::Append(e@),
            Statement::Assign(e) => StmtView::Assign(e@),
        }
    }
}

/// What a match is, over plain values (a regex by its source text).
pub enum MatchView {
    Begin,
    End,
    Index(int),
    Regex(Seq<char>),
}

/// What a position of a pattern match is, over plain values.
pub enum PatternView {
    Regex(Seq<char>),
    String(Seq<char>, bool),
    Identifier(Seq<char>),
}

/// What a selector is, over plain values.
pub enum SelView {
    Match(MatchView),
    Range(MatchView, MatchView),
    Pattern(Seq<PatternView>),
    Negate(Box<SelView>),
    Conjunction(Box<SelView>, Box<SelView>),
    Disjunction(Box<SelView>, Box<SelView>),
}

impl View for Match {
    type V = MatchView;

    open spec fn view(&self) -> MatchView {
        match self {
            Match::Begin => MatchView::Begin,
            Match::End => MatchView::End,
            Match::Index(n) => MatchView::Index(*n as int),
            Match::Regex(rx) => MatchView::Regex(rx@),
        }
    }
}

impl View for Pattern {
    type V = PatternView;

    open spec fn view(&self) -> PatternView {
        match self {
            Pattern::Regex(rx) => PatternView::Regex(rx@),
            Pattern::String(t, i) => PatternView::String(t@, *i),
            Pattern::Identifier(n) => PatternView::Identifier(n@),
        }
    }
}

pub open spec fn patterns_view(ps: Seq<Pattern>) -> Seq<PatternView> {
    ps.map_values(|p: Pattern| p@)
}

/// What a selector is, over plain values.
pub open spec fn sel_view(s: Selector) -> SelView
    decreases s,
{
    match s {
        Selector::Match(m) => SelView::Match(m@),
        Selector::Range(r) => SelView::Range(r.0@, r.1@),
        Selector::Pattern(pm) => SelView::Pattern(patterns_view(pm.patterns@)),
        Selector::Negate(inner) => SelView::Negate(Box::new(sel_view(*inner))),
        Selector::Conjunction(l, r) => SelView::Conjunction(Box::new(sel_view(*l)), Box::new(sel_view(*r))),
        Selector::Disjunction(l, r) => SelView::Disjunction(Box::new(sel_view(*l)), Box::new(sel_view(*r))),
    }
}

/// How many range guards a selector holds.
pub open spec fn sel_ranges(s: Selector) -> nat
    decreases s,
{
    match s {
        Selector::Range(_) => 1,
        Selector::Negate(inner) => sel_ranges(*inner),
        Selector::Conjunction(l, r) => sel_ranges(*l) + sel_ranges(*r),
        Selector::Disjunction(l, r) => sel_ranges(*l) + sel_ranges(*r),
        _ => 0,
    }
}

/// How many range guards a body holds.
pub open spec fn body_ranges(b: Body) -> nat
    decreases b, 0nat,
{
    match b {
        Body::Bare(_) => 0,
        Body::Single(sel, _) => sel_ranges(sel),
        Body::Guard(sel, blk) => sel_ranges(sel) + nodes_ranges(blk, blk.subnodes@.len() as int),
    }
}

/// How many range guards the first `i` bodies of a block hold.
pub open spec fn nodes_ranges(blk: Block, i: int) -> nat
    decreases blk, i,
{
    if i <= 0 || i > blk.subnodes@.len() {
        0
    } else {
        nodes_ranges(blk, i - 1) + body_ranges(blk.subnodes@[i - 1])
    }
}

/// How many range guards a block holds.
pub open spec fn block_ranges(blk: Block) -> nat {
    nodes_ranges(blk, blk.subnodes@.len() as int)
}

impl Selector {
    /// How many range guards this selector holds.
    pub fn num_ranges(&self) -> (r: usize)
        requires
            sel_ranges(*self) <= usize::MAX,
        ensures
            r == sel_ranges(*self),
        decreases self,
    {
        match self {
            Selector::Range(_) => 1,
            Selector::Negate(inner) => inner.num_ranges(),
            Selector::Conjunction(l, r) => l.num_ranges() + r.num_ranges(),
            Selector::Disjunction(l, r) => l.num_ranges() + r.num_ranges(),
            _ => 0,
        }
    }
}

impl Body {
    /// How many range guards this body holds.
    pub fn num_ranges(&self) -> (r: usize)
        requires
            body_ranges(*self) <= usize::MAX,
        ensures
            r == body_ranges(*self),
        decreases self, 0nat,
    {
        match self {
            Body::Bare(_) => 0,
            Body::Single(sel, _) => sel.num_ranges(),
            Body::Guard(sel, blk) => sel.num_ranges() + blk.num_ranges(),
        }
    }
}

impl Block {
    /// How many range guards this block holds: the number of slots its
    /// range tracker needs.
    pub fn num_ranges(&self) -> (r: usize)
        requires
            block_ranges(*self) <= usize::MAX,
        ensures
            r == block_ranges(*self),
        decreases self, 1nat,
    {
        let mut count: usize = 0;
        let mut i: usize = 0;
        while i < self.subnodes.len()
            invariant
                i <= self.subnodes@.len(),
                count == nodes_ranges(*self, i as int),
                block_ranges(*self) <= usize::MAX,
            decreases self.subnodes.len() - i,
        {
            proof {
                lemma_nodes_ranges_mono(*self, i + 1, self.subnodes@.len() as int);
            }
            count = count + self.subnodes[i].num_ranges();
            i += 1;
        }
        count
    }
}

impl Selector {
    /// How many range guards this selector holds; `None` where the count
    /// does not fit in a `usize`.
    pub fn count_ranges(&self) -> (r: Option<usize>)
        ensures
            match r {
                Some(n) => n == sel_ranges(*self),
                None => sel_ranges(*self) > usize::MAX,
            },
        decreases self,
    {
        match self {
            Selector::Range(_) => Some(1),
            Selector::Negate(inner) => inner.count_ranges(),
            Selector::Conjunction(l, r) | Selector::Disjunction(l, r) => match (l.count_ranges(), r.count_ranges()) {
                (Some(a), Some(b)) => a.checked_add(b),
                _ => None,
            },
            _ => Some(0),
        }
    }
}

impl Body {
    /// How many range guards this body holds; `None` where the count does
    /// not fit in a `usize`.
    pub fn count_ranges(&self) -> (r: Option<usize>)
        ensures
            match r {
                Some(n) => n == body_ranges(*self),
                None => body_ranges(*self) > usize::MAX,
            },
        decreases self, 0nat,
    {
        match self {
            Body::Bare(_) => Some(0),
            Body::Single(sel, _) => sel.count_ranges(),
            Body::Guard(sel, blk) => match (sel.count_ranges(), blk.count_ranges()) {
                (Some(a), Some(b)) => a.checked_add(b),
                _ => None,
            },
        }
    }
}

impl Block {
    /// How many range guards this block holds, counted once, depth first;
    /// `None` where the count does not fit in a `usize`.
    pub fn count_ranges(&self) -> (r: Option<usize>)
        ensures
            match r {
                Some(n) => n == block_ranges(*self),
                None => block_ranges(*self) > usize::MAX,
            },
        decreases self, 1nat,
    {
        let mut count: usize = 0;
        let mut i: usize = 0;
        while i < self.subnodes.len()
            invariant
                i <= self.subnodes@.len(),
                count == nodes_ranges(*self, i as int),
            decreases self.subnodes.len() - i,
        {
            let more = match self.subnodes[i].count_ranges() {
                Some(k) => k,
                None => {
                    proof {
                        lemma_nodes_ranges_mono(*self, i + 1, self.subnodes@.len() as int);
                    }
                    return None;
                },
            };
            match count.checked_add(more) {
                Some(c) => {
                    count = c;
                },
                None => {
                    proof {
                        lemma_nodes_ranges_mono(*self, i + 1, self.subnodes@.len() as int);
                    }
                    return None;
                },
            }
            i += 1;
        }
        Some(count)
    }
}

pub proof fn lemma_nodes_ranges_mono(blk: Block, i: int, j: int)
    requires
        0 <= i <= j <= blk.subnodes@.len(),
    ensures
        nodes_ranges(blk, i) <= nodes_ranges(blk, j),
    decreases j - i,
{
    if i < j {
        lemma_nodes_ranges_mono(blk, i, j - 1);
    }
}

/// The names in a list of group names, in order.
pub open spec fn group_names_list(ns: Seq<Option<Seq<char>>>) -> Seq<Seq<char>>
    decreases ns.len(),
{
    if ns.len() == 0 {
        seq![]
    } else {
        let rest = group_names_list(ns.drop_last());
        match ns.last() {
            Some(n) => rest.push(n),
            None => rest,
        }
    }
}

/// The names a match can bind.
pub open spec fn match_provides(m: Match) -> Seq<Seq<char>> {
    match m {
        Match::Regex(rx) => group_names_list(regex_group_names(rx@)),
        _ => seq![],
    }
}

/// The names a position of a pattern match can bind.
pub open spec fn pattern_provides(p: Pattern) -> Seq<Seq<char>> {
    match p {
        Pattern::Regex(rx) => group_names_list(regex_group_names(rx@)),
        Pattern::String(_, _) => seq![],
        Pattern::Identifier(n) => seq![n@],
    }
}

/// The names the positions of a pattern match can bind, in order.
pub open spec fn patterns_provide(ps: Seq<Pattern>) -> Seq<Seq<char>>
    decreases ps.len(),
{
    if ps.len() == 0 {
        seq![]
    } else {
        patterns_provide(ps.drop_last()) + pattern_provides(ps.last())
    }
}

/// The names of `a` that `b` holds too, in the order of `a`.
pub open spec fn common_names(a: Seq<Seq<char>>, b: Seq<Seq<char>>) -> Seq<Seq<char>>
    decreases a.len(),
{
    if a.len() == 0 {
        seq![]
    } else {
        let rest = common_names(a.drop_last(), b);
        if b.contains(a.last()) {
            rest.push(a.last())
        } else {
            rest
        }
    }
}

/// The names a selector can bind, whatever the line. A negation binds
/// nothing; a disjunction only the names that both operands can bind.
pub open spec fn provides(s: Selector) -> Seq<Seq<char>>
    decreases s,
{
    match s {
        Selector::Match(m) => match_provides(m),
        Selector::Range(r) => match_provides(r.0),
        Selector::Pattern(pm) => patterns_provide(pm.patterns@),
        Selector::Negate(_) => seq![],
        Selector::Conjunction(l, r) => provides(*l) + provides(*r),
        Selector::Disjunction(l, r) => common_names(provides(*l), provides(*r)),
    }
}

/// Whether a vector of strings holds one equal to `s`.
pub fn contains_string(v: &Vec<String>, s: &String) -> (r: bool)
    ensures
        r == strings_view(v@).contains(s@),
{
    let mut i: usize = 0;
    while i < v.len()
        invariant
            i <= v@.len(),
            forall|j: int| 0 <= j < i ==> v@[j]@ != s@,
        decreases v.len() - i,
    {
        if v[i] == *s {
            assert(strings_view(v@)[i as int] == s@);
            return true;
        }
        i += 1;
    }
    assert(!strings_view(v@).contains(s@)) by {
        if strings_view(v@).contains(s@) {
            let j = choose|j: int| 0 <= j < strings_view(v@).len() && strings_view(v@)[j] == s@;
            assert(v@[j]@ == s@);
        }
    }
    false
}

/// The names of the named groups of a pattern, in order.
pub fn regex_provides(rx: &Rx) -> (r: Vec<String>)
    ensures
        strings_view(r@) == group_names_list(regex_group_names(rx@)),
{
    let names = rx.group_names();
    let ghost ns = regex_group_names(rx@);
    let mut out: Vec<String> = Vec::new();
    let mut i: usize = 0;
    while i < names.len()
        invariant
            i <= names@.len(),
            ns == crate::rx::opts_view(names@),
            strings_view(out@) == group_names_list(ns.subrange(0, i as int)),
        decreases names.len() - i,
    {
        assert(ns.subrange(0, i + 1).drop_last() =~= ns.subrange(0, i as int));
        assert(ns[i as int] == crate::rx::opt_view(names@[i as int]));
        match &names[i] {
            Some(n) => {
                let ghost before = strings_view(out@);
                out.push(n.clone());
                assert(strings_view(out@) =~= before.push(n@));
            },
            None => {},
        }
        i += 1;
    }
    assert(ns.subrange(0, i as int) =~= ns);
    out
}

fn no_strings() -> (r: Vec<String>)
    ensures
        strings_view(r@) == Seq::<Seq<char>>::empty(),
{
    let v: Vec<String> = Vec::new();
    assert(strings_view(v@) =~= Seq::<Seq<char>>::empty());
    v
}

impl Match {
    /// The names this match can bind.
    pub fn provides(&self) -> (r: Vec<String>)
        ensures
            strings_view(r@) == match_provides(*self),
    {
        match self {
            Match::Regex(rx) => regex_provides(rx),
            _ => no_strings(),
        }
    }
}

impl Pattern {
    /// The names this position can bind.
    pub fn provides(&self) -> (r: Vec<String>)
        ensures
            strings_view(r@) == pattern_provides(*self),
    {
        match self {
            Pattern::Regex(rx) => regex_provides(rx),
            Pattern::String(_, _) => no_strings(),
            Pattern::Identifier(n) => {
                let v: Vec<String> = vec![n.clone()];
                assert(strings_view(v@) =~= seq![n@]);
                v
            },
        }
    }
}

/// Appends the strings of `src` to `dst`.
pub fn extend_strings(dst: &mut Vec<String>, src: &Vec<String>)
    ensures
        strings_view(final(dst)@) == strings_view(old(dst)@) + strings_view(src@),
{
    let ghost start = strings_view(dst@);
    let mut i: usize = 0;
    while i < src.len()
        invariant
            i <= src@.len(),
            strings_view(dst@) == start + strings_view(src@.subrange(0, i as int)),
        decreases src.len() - i,
    {
        let ghost before = dst@;
        dst.push(src[i].clone());
        assert(strings_view(dst@) =~= strings_view(before).push(src@[i as int]@));
        assert(strings_view(src@.subrange(0, i + 1)) =~= strings_view(src@.subrange(0, i as int)).push(src@[i as int]@));
        assert(strings_view(dst@) =~= start + strings_view(src@.subrange(0, i + 1)));
        i += 1;
    }
    assert(src@.subrange(0, i as int) =~= src@);
}

impl Selector {
    /// The names this selector can bind, whatever the line: for a
    /// disjunction, only those that both operands can bind.
    pub fn provides(&self) -> (r: Vec<String>)
        ensures
            strings_view(r@) == provides(*self),
        decreases self,
    {
        match self {
            Selector::Match(m) => m.provides(),
            Selector::Range(r) => r.0.provides(),
            Selector::Pattern(pm) => {
                let mut out: Vec<String> = Vec::new();
                let mut i: usize = 0;
                while i < pm.patterns.len()
                    invariant
                        i <= pm.patterns@.len(),
                        strings_view(out@) == patterns_provide(pm.patterns@.subrange(0, i as int)),
                    decreases pm.patterns.len() - i,
                {
                    assert(pm.patterns@.subrange(0, i + 1).drop_last() =~= pm.patterns@.subrange(0, i as int));
                    let more = pm.patterns[i].provides();
                    extend_strings(&mut out, &more);
                    i += 1;
                }
                assert(pm.patterns@.subrange(0, i as int) =~= pm.patterns@);
                out
            },
            Selector::Negate(_) => no_strings(),
            Selector::Conjunction(l, r) => {
                let mut out = l.provides();
                let more = r.provides();
                extend_strings(&mut out, &more);
                out
            },
            Selector::Disjunction(l, r) => {
                let left = l.provides();
                let right = r.provides();
                let mut out: Vec<String> = Vec::new();
                let mut i: usize = 0;
                while i < left.len()
                    invariant
                        i <= left@.len(),
                        strings_view(right@) == provides(**r),
                        strings_view(out@) == common_names(strings_view(left@.subrange(0, i as int)), provides(**r)),
                    decreases left.len() - i,
                {
                    let ghost before = strings_view(out@);
                    assert(strings_view(left@.subrange(0, i + 1)).drop_last() =~= strings_view(left@.subrange(0, i as int)));
                    if contains_string(&right, &left[i]) {
                        out.push(left[i].clone());
                        assert(strings_view(out@) =~= before.push(left@[i as int]@));
                    }
                    i += 1;
                }
                assert(left@.subrange(0, i as int) =~= left@);
                out
            },
        }
    }
}

/// Whether a statement produces output of its own.
pub open spec fn stmt_significant(s: Statement) -> bool {
    match s {
        Statement::Print(_) | Statement::Read(_) | Statement::Write(_) | Statement::Exec(_) => true,
        _ => false,
    }
}

/// Whether a body holds a statement that produces output of its own.
pub open spec fn body_significant(b: Body) -> bool
    decreases b, 0nat,
{
    match b {
        Body::Bare(s) => stmt_significant(s),
        Body::Single(_, s) => stmt_significant(s),
        Body::Guard(_, blk) => nodes_significant(blk, blk.subnodes@.len() as int),
    }
}

/// Whether one of the first `i` bodies of a block is significant.
pub open spec fn nodes_significant(blk: Block, i: int) -> bool
    decreases blk, i,
{
    if i <= 0 || i > blk.subnodes@.len() {
        false
    } else {
        nodes_significant(blk, i - 1) || body_significant(blk.subnodes@[i - 1])
    }
}

/// Whether a block holds, at any depth, a print, read, write or exec.
pub open spec fn block_significant(blk: Block) -> bool {
    nodes_significant(blk, blk.subnodes@.len() as int)
}

impl Statement {
    /// Whether this statement produces output of its own.
    pub fn significant(&self) -> (r: bool)
        ensures
            r == stmt_significant(*self),
    {
        match self {
            Statement::Print(_) | Statement::Read(_) | Statement::Write(_) | Statement::Exec(_) => true,
            _ => false,
        }
    }
}

impl Body {
    /// Whether this body holds a statement that produces output of its own.
    pub fn significant(&self) -> (r: bool)
        ensures
            r == body_significant(*self),
        decreases self, 0nat,
    {
        match self {
            Body::Bare(s) => s.significant(),
            Body::Single(_, s) => s.significant(),
            Body::Guard(_, blk) => blk.significant(),
        }
    }

    /// Whether this body is guarded by the start or the end of the stream.
    pub fn is_lifecycle(&self) -> (r: bool)
        ensures
            r == body_is_lifecycle(*self),
    {
        match self {
            Body::Bare(_) => false,
            Body::Single(sel, _) => sel.is_lifecycle(),
            Body::Guard(sel, _) => sel.is_lifecycle(),
        }
    }
}

impl Block {
    /// Whether this block holds, at any depth, a print, read, write or exec;
    /// where it does not, each line is printed after it is processed.
    pub fn significant(&self) -> (r: bool)
        ensures
            r == block_significant(*self),
        decreases self, 1nat,
    {
        let mut i: usize = 0;
        while i < self.subnodes.len()
            invariant
                i <= self.subnodes@.len(),
                !nodes_significant(*self, i as int),
            decreases self.subnodes.len() - i,
        {
            if self.subnodes[i].significant() {
                proof {
                    lemma_nodes_significant_mono(*self, i + 1, self.subnodes@.len() as int);
                }
                return true;
            }
            i += 1;
        }
        false
    }
}

proof fn lemma_nodes_significant_mono(blk: Block, i: int, j: int)
    requires
        0 <= i <= j <= blk.subnodes@.len(),
        nodes_significant(blk, i),
    ensures
        nodes_significant(blk, j),
    decreases j - i,
{
    if i < j {
        lemma_nodes_significant_mono(blk, i, j - 1);
    }
}

/// Whether a selector is the start or the end of the stream.
pub open spec fn sel_is_lifecycle(s: Selector) -> bool {
    s matches Selector::Match(Match::Begin) || s matches Selector::Match(Match::End)
}

/// Whether a body is guarded by the start or the end of the stream.
pub open spec fn body_is_lifecycle(b: Body) -> bool {
    match b {
        Body::Bare(_) => false,
        Body::Single(sel, _) => sel_is_lifecycle(sel),
        Body::Guard(sel, _) => sel_is_lifecycle(sel),
    }
}

impl Selector {
    /// Whether this selector is the start or the end of the stream.
    pub fn is_lifecycle(&self) -> (r: bool)
        ensures
            r == sel_is_lifecycle(*self),
    {
        match self {
            Selector::Match(Match::Begin) | Selector::Match(Match::End) => true,
            _ => false,
        }
    }
}

} // verus!
