//! Guard evaluation: whether a selector fires on the current event, how it
//! moves the range tracker, and the scope it contributes when it fires.

use vstd::prelude::*;
use crate::ast::{Match, Pattern, PatternMatch, Range, Selector, provides, sel_ranges};
use crate::env::{Bindings, EnvView, Environment, Event, advance, line_of};
use crate::interp::{interp, interpolate};
use crate::rx::{regex_finds, regex_pieces, strings_view};
use crate::scope::{Scope, regex_scope};

verus! {

/// Whether a match holds on the current event.
pub open spec fn match_holds(m: Match, v: EnvView) -> bool {
    match m {
        Match::Begin => v.event is Begin,
        Match::End => v.event is End,
        Match::Index(n) => v.lineno == n as int,
        Match::Regex(rx) => v.event is Line && regex_finds(rx@, line_of(v.event)),
    }
}

/// The scope a match contributes: the named groups of a regex's first match
/// in the line; nothing otherwise.
pub open spec fn match_scope(m: Match, v: EnvView) -> Bindings {
    match m {
        Match::Regex(rx) => if v.event is Line {
            regex_scope(rx@, line_of(v.event))
        } else {
            Map::empty()
        },
        _ => Map::empty(),
    }
}

/// The next state of a range's slot. Outside, the range is entered where
/// its start holds, capturing the start's scope. Inside, it is left where
/// its end holds, and entered again at once where its start holds too.
pub open spec fn range_next(r: Range, st: Option<Bindings>, v: EnvView) -> Option<Bindings> {
    if st is None || match_holds(r.1, v) {
        if match_holds(r.0, v) {
            Some(match_scope(r.0, v))
        } else {
            None
        }
    } else {
        st
    }
}

/// The fields of the current line: its pieces between separator matches.
pub open spec fn fields_of(v: EnvView) -> Seq<Seq<char>> {
    regex_pieces(v.sep, line_of(v.event))
}

/// Whether a position of a pattern match accepts a field.
pub open spec fn pattern_fits(p: Pattern, field: Seq<char>, v: EnvView) -> bool {
    match p {
        Pattern::Regex(rx) => regex_finds(rx@, field),
        Pattern::String(t, interpolated) => if interpolated {
            interp(t@, v) == field
        } else {
            t@ == field
        },
        Pattern::Identifier(_) => true,
    }
}

/// Whether a pattern match holds: on a line with a field for each position,
/// each position accepting its field.
pub open spec fn pattern_holds(pm: PatternMatch, v: EnvView) -> bool {
    let fields = fields_of(v);
    &&& v.event is Line
    &&& pm.patterns@.len() <= fields.len()
    &&& forall|i: int| 0 <= i < pm.patterns@.len() ==> pattern_fits(#[trigger] pm.patterns@[i], fields[i], v)
}

/// The bindings of the positions of a pattern match over their fields:
/// identifiers (but `_`) bind their field, regexes the named groups of
/// their first match in it.
pub open spec fn patterns_scope(ps: Seq<Pattern>, fields: Seq<Seq<char>>) -> Bindings
    decreases ps.len(),
{
    if ps.len() == 0 {
        Map::empty()
    } else {
        let rest = patterns_scope(ps.drop_last(), fields);
        let i = ps.len() - 1;
        if i >= fields.len() {
            rest
        } else {
            match ps.last() {
                Pattern::Identifier(n) => if n@ == seq!['_'] {
                    rest
                } else {
                    rest.insert(n@, fields[i])
                },
                Pattern::Regex(rx) => rest.union_prefer_right(regex_scope(rx@, fields[i])),
                Pattern::String(_, _) => rest,
            }
        }
    }
}

/// The scope a pattern match contributes; nothing where the line has too
/// few fields.
pub open spec fn pattern_scope(pm: PatternMatch, v: EnvView) -> Bindings {
    if v.event is Line && pm.patterns@.len() <= fields_of(v).len() {
        patterns_scope(pm.patterns@, fields_of(v))
    } else {
        Map::empty()
    }
}

/// The state after a selector is evaluated: each range it holds, in
/// textual order, steps its slot and moves the cursor on by one.
pub open spec fn select_view(s: Selector, v: EnvView) -> EnvView
    decreases s,
{
    match s {
        Selector::Range(r) => EnvView {
            states: v.states.update(v.pos, range_next(r, v.states[v.pos], v)),
            pos: advance(v.pos, 1, v.states.len() as int),
            steps: v.steps + 1,
            ..v
        },
        Selector::Negate(inner) => select_view(*inner, v),
        Selector::Conjunction(l, r) => select_view(*r, select_view(*l, v)),
        Selector::Disjunction(l, r) => select_view(*r, select_view(*l, v)),
        _ => v,
    }
}

/// Whether a selector fires. Both operands of a conjunction or disjunction
/// are always evaluated, the right one after the left.
pub open spec fn sel_holds(s: Selector, v: EnvView) -> bool
    decreases s,
{
    match s {
        Selector::Match(m) => match_holds(m, v),
        Selector::Range(r) => range_next(r, v.states[v.pos], v) is Some,
        Selector::Pattern(pm) => pattern_holds(pm, v),
        Selector::Negate(inner) => !sel_holds(*inner, v),
        Selector::Conjunction(l, r) => sel_holds(*l, v) && sel_holds(*r, select_view(*l, v)),
        Selector::Disjunction(l, r) => sel_holds(*l, v) || sel_holds(*r, select_view(*l, v)),
    }
}

/// The scope a selector contributes once evaluated, its first range at slot
/// `base` of the slots `fin`. A range gives the scope captured when it was
/// entered; a negation nothing; a conjunction both scopes, the right one
/// winning; a disjunction the same, kept to the names both sides provide.
pub open spec fn sel_scope(s: Selector, v: EnvView, base: int, fin: Seq<Option<Bindings>>) -> Bindings
    decreases s,
{
    match s {
        Selector::Match(m) => match_scope(m, v),
        Selector::Range(_) => match fin[base] {
            Some(b) => b,
            None => Map::empty(),
        },
        Selector::Pattern(pm) => pattern_scope(pm, v),
        Selector::Negate(_) => Map::empty(),
        Selector::Conjunction(l, r) => sel_scope(*l, v, base, fin).union_prefer_right(
            sel_scope(*r, v, advance(base, sel_ranges(*l) as int, fin.len() as int), fin),
        ),
        Selector::Disjunction(l, r) => sel_scope(*l, v, base, fin).union_prefer_right(
            sel_scope(*r, v, advance(base, sel_ranges(*l) as int, fin.len() as int), fin),
        ).restrict(provides(s).to_set()),
    }
}

/// The cursor position `k` slots on from `pos`, over `n` slots.
pub fn advance_pos(pos: usize, k: usize, n: usize) -> (r: usize)
    requires
        n > 0 ==> pos < n,
        n == 0 ==> pos == 0,
        k <= n,
    ensures
        r == advance(pos as int, k as int, n as int),
        n > 0 ==> r < n,
        n == 0 ==> r == 0,
{
    if n == 0 {
        pos
    } else if pos >= n - k {
        proof {
            vstd::arithmetic::div_mod::lemma_mod_sub_multiples_vanish(pos + k, n as int);
            vstd::arithmetic::div_mod::lemma_small_mod((pos + k - n) as nat, n as nat);
        }
        pos - (n - k)
    } else {
        proof {
            vstd::arithmetic::div_mod::lemma_small_mod((pos + k) as nat, n as nat);
        }
        pos + k
    }
}

impl Match {
    /// Whether this match holds on the current event.
    pub fn select(&self, env: &Environment) -> (r: bool)
        ensures
            r == match_holds(*self, env@),
    {
        match self {
            Match::Begin => matches!(env.event, Event::Begin),
            Match::End => matches!(env.event, Event::End),
            Match::Index(n) => env.lineno == *n,
            Match::Regex(rx) => match &env.event {
                Event::Line(t) => rx.is_match(t.as_str()),
                _ => false,
            },
        }
    }

    /// The scope this match contributes.
    pub fn scope(&self, env: &Environment) -> (r: Scope)
        ensures
            r@ == match_scope(*self, env@),
    {
        match self {
            Match::Regex(rx) => match &env.event {
                Event::Line(t) => Scope::from_regex(rx, t.as_str()),
                _ => Scope::new(),
            },
            _ => Scope::new(),
        }
    }
}

impl Range {
    /// Steps this range's slot (the one under the cursor) and moves the
    /// cursor on; whether the range holds the current line.
    pub fn select(&self, env: &mut Environment) -> (r: bool)
        requires
            old(env).tracker.wf(),
            old(env).tracker.states@.len() > 0,
        ensures
            final(env).tracker.wf(),
            final(env).tracker.states@.len() == old(env).tracker.states@.len(),
            r == sel_holds(Selector::Range(*self), old(env)@),
            final(env)@ == select_view(Selector::Range(*self), old(env)@),
    {
        let ghost v = env@;
        let Range(start, end) = self;
        if !env.tracker.in_range() {
            if start.select(env) {
                let s = start.scope(env);
                env.tracker.set(s);
            }
        } else if end.select(env) {
            env.tracker.clear();
            if start.select(env) {
                let s = start.scope(env);
                env.tracker.set(s);
            }
        }
        let inside = env.tracker.in_range();
        proof {
            assert(env@.states =~= v.states.update(v.pos, range_next(*self, v.states[v.pos], v)));
        }
        env.tracker.next();
        proof {
            assert(env@ =~= select_view(Selector::Range(*self), v));
        }
        inside
    }
}

impl PatternMatch {
    /// Whether this pattern match holds on the current line.
    pub fn select(&self, env: &Environment) -> (r: bool)
        ensures
            r == pattern_holds(*self, env@),
    {
        let line = match &env.event {
            Event::Line(t) => t,
            _ => {
                return false;
            },
        };
        let fields = env.sep.split(line.as_str());
        if self.patterns.len() > fields.len() {
            return false;
        }
        let ghost fv = strings_view(fields@);
        let mut i: usize = 0;
        while i < self.patterns.len()
            invariant
                i <= self.patterns@.len(),
                self.patterns@.len() <= fields@.len(),
                fv == strings_view(fields@),
                fv == fields_of(env@),
                env@.event is Line,
                forall|j: int| 0 <= j < i ==> pattern_fits(#[trigger] self.patterns@[j], fv[j], env@),
            decreases self.patterns.len() - i,
        {
            let field = &fields[i];
            let fits = match &self.patterns[i] {
                Pattern::Regex(rx) => rx.is_match(field.as_str()),
                Pattern::String(t, interpolated) => if *interpolated {
                    interpolate(t.as_str(), env) == *field
                } else {
                    *t == *field
                },
                Pattern::Identifier(_) => true,
            };
            if !fits {
                assert(!pattern_fits(self.patterns@[i as int], fv[i as int], env@));
                return false;
            }
            i += 1;
        }
        true
    }

    /// The scope this pattern match contributes: each identifier (but `_`)
    /// bound to its field, and the named groups of each regex's first match
    /// in its field.
    pub fn scope(&self, env: &Environment) -> (r: Scope)
        ensures
            r@ == pattern_scope(*self, env@),
    {
        let line = match &env.event {
            Event::Line(t) => t,
            _ => {
                return Scope::new();
            },
        };
        let fields = env.sep.split(line.as_str());
        if self.patterns.len() > fields.len() {
            return Scope::new();
        }
        let ghost fv = strings_view(fields@);
        let mut scope = Scope::new();
        let mut i: usize = 0;
        while i < self.patterns.len()
            invariant
                i <= self.patterns@.len(),
                self.patterns@.len() <= fields@.len(),
                fv == strings_view(fields@),
                fv == fields_of(env@),
                env@.event is Line,
                scope@ == patterns_scope(self.patterns@.subrange(0, i as int), fv),
            decreases self.patterns.len() - i,
        {
            assert(self.patterns@.subrange(0, i + 1).drop_last() =~= self.patterns@.subrange(0, i as int));
            let field = &fields[i];
            match &self.patterns[i] {
                Pattern::Identifier(n) => {
                    if !crate::scope::is_underscore(n) {
                        scope.set(n.clone(), field.clone());
                    }
                },
                Pattern::Regex(rx) => {
                    let found = Scope::from_regex(rx, field.as_str());
                    scope = scope.overlay(&found);
                },
                Pattern::String(_, _) => {},
            }
            i += 1;
        }
        assert(self.patterns@.subrange(0, i as int) =~= self.patterns@);
        scope
    }
}

impl Selector {
    /// Whether this selector fires on the current event. Every range it
    /// holds is stepped, in textual order, whatever the outcome: the cursor
    /// moves on once per range.
    pub fn select(&self, env: &mut Environment) -> (r: bool)
        requires
            old(env).tracker.wf(),
            sel_ranges(*self) <= old(env).tracker.states@.len(),
        ensures
            final(env).tracker.wf(),
            final(env).tracker.states@.len() == old(env).tracker.states@.len(),
            r == sel_holds(*self, old(env)@),
            final(env)@ == select_view(*self, old(env)@),
        decreases self,
    {
        match self {
            Selector::Match(m) => m.select(env),
            Selector::Range(r) => r.select(env),
            Selector::Pattern(pm) => pm.select(env),
            Selector::Negate(inner) => !inner.select(env),
            Selector::Conjunction(l, r) => {
                let a = l.select(env);
                let b = r.select(env);
                a && b
            },
            Selector::Disjunction(l, r) => {
                let a = l.select(env);
                let b = r.select(env);
                a || b
            },
        }
    }

    /// The scope this selector contributes once evaluated, its first range
    /// at slot `base`.
    pub fn scope(&self, env: &Environment, base: usize) -> (r: Scope)
        requires
            env.tracker.wf(),
            sel_ranges(*self) <= env.tracker.states@.len(),
            env.tracker.states@.len() > 0 ==> base < env.tracker.states@.len(),
            env.tracker.states@.len() == 0 ==> base == 0,
        ensures
            r@ == sel_scope(*self, env@, base as int, env@.states),
        decreases self,
    {
        match self {
            Selector::Match(m) => m.scope(env),
            Selector::Range(_) => match env.tracker.get(base) {
                Some(s) => s,
                None => Scope::new(),
            },
            Selector::Pattern(pm) => pm.scope(env),
            Selector::Negate(_) => Scope::new(),
            Selector::Conjunction(l, r) => {
                let n = env.tracker.states.len();
                let next = advance_pos(base, l.num_ranges(), n);
                let a = l.scope(env, base);
                let b = r.scope(env, next);
                a.overlay(&b)
            },
            Selector::Disjunction(l, r) => {
                let n = env.tracker.states.len();
                let next = advance_pos(base, l.num_ranges(), n);
                let a = l.scope(env, base);
                let b = r.scope(env, next);
                let keys = self.provides();
                a.overlay(&b).pick(&keys)
            },
        }
    }
}

} // verus!
