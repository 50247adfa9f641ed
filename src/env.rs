//! The mutable context of a run: the current event, the line counter, the
//! stack of scopes, the range tracker, the effects asked for so far and the
//! quit flag.

use vstd::prelude::*;
use crate::rx::Rx;
use crate::scope::{Scope, copy_scope};

verus! {

/// An event to be processed.
#[derive(Debug, PartialEq)]
pub enum Event {
    /// The start of the stream.
    Begin,
    /// A line of input, without its line ending.
    Line(String),
    /// The end of the stream.
    End,
}

/// Work that a run asks of the world outside, in order.
#[derive(Debug, PartialEq)]
pub enum Effect {
    /// Write this text to the output.
    Output(String),
    /// Copy the file so named to the output.
    ReadFile(String),
    /// Append the text (second) to the file so named (first), creating it
    /// where it is absent.
    AppendToFile(String, String),
    /// Run the command through the platform shell, its output going to the
    /// output.
    Shell(String),
}

/// What an event is, over plain values.
pub enum EventView {
    Begin,
    Line(Seq<char>),
    End,
}

/// What an effect is, over plain values.
pub enum EffectView {
    Output(Seq<char>),
    ReadFile(Seq<char>),
    AppendToFile(Seq<char>, Seq<char>),
    Shell(Seq<char>),
}

/// A scope map.
pub type Bindings = Map<Seq<char>, Seq<char>>;

/// The state of a run, over plain values.
pub struct EnvView {
    pub lineno: int,
    pub event: EventView,
    pub stack: Seq<Bindings>,
    /// One entry per range guard: the scope captured on entry, where the
    /// range is open.
    pub states: Seq<Option<Bindings>>,
    /// The slot of the range guard that is evaluated next.
    pub pos: int,
    /// How many times the cursor has moved on.
    pub steps: int,
    pub sep: Seq<char>,
    pub out: Seq<EffectView>,
    pub quit: bool,
}

impl View for Event {
    type V = EventView;

    open spec fn view(&self) -> EventView {
        match self {
            Event::Begin => EventView::Begin,
            Event::Line(t) => EventView::Line(t@),
            Event::End => EventView::End,
        }
    }
}

impl View for Effect {
    type V = EffectView;

    open spec fn view(&self) -> EffectView {
        match self {
            Effect::Output(t) => EffectView::Output(t@),
            Effect::ReadFile(t) => EffectView::ReadFile(t@),
            Effect::AppendToFile(f, t) => EffectView::AppendToFile(f@, t@),
            Effect::Shell(t) => EffectView::Shell(t@),
        }
    }
}

pub open spec fn opt_scope_view(o: Option<Scope>) -> Option<Bindings> {
    match o {
        Some(s) => Some(s@),
        None => None,
    }
}

/// Where the cursor stands after moving on `k` times over `n` slots.
pub open spec fn advance(pos: int, k: int, n: int) -> int {
    if n == 0 {
        pos
    } else {
        (pos + k) % n
    }
}

/// One slot per range guard, each empty (outside the range) or holding the
/// scope captured when the range was entered; and a cursor.
pub struct RangeScopeTracker {
    pub states: Vec<Option<Scope>>,
    pub pos: usize,
    pub steps: Ghost<int>,
}

impl RangeScopeTracker {
    /// The slots, over plain values.
    pub open spec fn slots(&self) -> Seq<Option<Bindings>> {
        self.states@.map_values(|o: Option<Scope>| opt_scope_view(o))
    }

    /// The cursor is within the slots and has moved on `steps` times.
    pub open spec fn wf(&self) -> bool {
        &&& self.steps@ >= 0
        &&& self.states@.len() > 0 ==> self.pos < self.states@.len()
        &&& if self.states@.len() == 0 {
            self.pos == 0
        } else {
            self.pos == self.steps@ % (self.states@.len() as int)
        }
    }

    /// A tracker with `cap` empty slots, its cursor on the first.
    pub fn new(cap: usize) -> (r: RangeScopeTracker)
        ensures
            r.wf(),
            r.states@.len() == cap,
            r.pos == 0,
            r.steps@ == 0,
            forall|i: int| 0 <= i < cap ==> r.slots()[i] is None,
    {
        let mut states: Vec<Option<Scope>> = Vec::new();
        let mut i: usize = 0;
        while i < cap
            invariant
                i <= cap,
                states@.len() == i,
                forall|j: int| 0 <= j < i ==> states@[j] is None,
            decreases cap - i,
        {
            states.push(None);
            i += 1;
        }
        RangeScopeTracker { states, pos: 0, steps: Ghost(0) }
    }

    /// Whether the slot under the cursor is inside its range.
    pub fn in_range(&self) -> (r: bool)
        requires
            self.pos < self.states@.len(),
        ensures
            r == self.slots()[self.pos as int] is Some,
    {
        self.states[self.pos].is_some()
    }

    /// A copy of the scope held in a slot.
    pub fn get(&self, slot: usize) -> (r: Option<Scope>)
        requires
            slot < self.states@.len(),
        ensures
            opt_scope_view(r) == self.slots()[slot as int],
    {
        match &self.states[slot] {
            Some(s) => Some(copy_scope(s)),
            None => None,
        }
    }

    /// Marks the slot under the cursor inside its range, with this scope.
    pub fn set(&mut self, scope: Scope)
        requires
            old(self).pos < old(self).states@.len(),
        ensures
            final(self).slots() == old(self).slots().update(old(self).pos as int, Some(scope@)),
            final(self).states@.len() == old(self).states@.len(),
            final(self).pos == old(self).pos,
            final(self).steps == old(self).steps,
    {
        let ghost scope_view = scope@;
        let pos = self.pos;
        self.states.set(pos, Some(scope));
        assert(self.slots() =~= old(self).slots().update(old(self).pos as int, Some(scope_view)));
    }

    /// Marks the slot under the cursor outside its range.
    pub fn clear(&mut self)
        requires
            old(self).pos < old(self).states@.len(),
        ensures
            final(self).slots() == old(self).slots().update(old(self).pos as int, None),
            final(self).states@.len() == old(self).states@.len(),
            final(self).pos == old(self).pos,
            final(self).steps == old(self).steps,
    {
        let pos = self.pos;
        self.states.set(pos, None);
        assert(self.slots() =~= old(self).slots().update(old(self).pos as int, None));
    }

    /// Moves the cursor on `amount` slots, wrapping around.
    pub fn skip(&mut self, amount: usize)
        requires
            old(self).wf(),
        ensures
            final(self).wf(),
            final(self).slots() == old(self).slots(),
            final(self).states@.len() == old(self).states@.len(),
            final(self).pos == advance(old(self).pos as int, amount as int, old(self).states@.len() as int),
            final(self).steps@ == old(self).steps@ + amount,
    {
        let n = self.states.len();
        if n != 0 {
            let p = self.pos;
            let step = amount % n;
            proof {
                lemma_advance_mod(p as int, amount as int, n as int, self.steps@);
            }
            if p >= n - step {
                self.pos = p - (n - step);
            } else {
                self.pos = p + step;
            }
        }
        self.steps = Ghost(self.steps@ + amount);
    }

    /// Moves the cursor on one slot, wrapping around.
    pub fn next(&mut self)
        requires
            old(self).wf(),
        ensures
            final(self).wf(),
            final(self).slots() == old(self).slots(),
            final(self).states@.len() == old(self).states@.len(),
            final(self).pos == advance(old(self).pos as int, 1, old(self).states@.len() as int),
            final(self).steps@ == old(self).steps@ + 1,
    {
        self.skip(1)
    }
}

proof fn lemma_advance_mod(p: int, a: int, n: int, steps: int)
    requires
        n > 0,
        0 <= p < n,
        a >= 0,
        steps >= 0,
        p == steps % n,
    ensures
        (p + a) % n == (steps + a) % n,
        (p + a) % n == (if p >= n - a % n { p - (n - a % n) } else { p + a % n }),
{
    vstd::arithmetic::div_mod::lemma_add_mod_noop(steps, a, n);
    vstd::arithmetic::div_mod::lemma_add_mod_noop(p, a, n);
    vstd::arithmetic::div_mod::lemma_mod_twice(steps, n);
    vstd::arithmetic::div_mod::lemma_small_mod(p as nat, n as nat);
    let b = a % n;
    vstd::arithmetic::div_mod::lemma_mod_bound(a, n);
    if p >= n - b {
        vstd::arithmetic::div_mod::lemma_small_mod((p + b - n) as nat, n as nat);
        vstd::arithmetic::div_mod::lemma_mod_sub_multiples_vanish(p + b, n);
    } else {
        vstd::arithmetic::div_mod::lemma_small_mod((p + b) as nat, n as nat);
    }
}

/// The text of the current line; empty outside a line event.
pub open spec fn line_of(ev: EventView) -> Seq<char> {
    match ev {
        EventView::Line(t) => t,
        _ => seq![],
    }
}

/// The innermost binding of `k` in a stack of scopes.
pub open spec fn stack_lookup(stack: Seq<Bindings>, k: Seq<char>) -> Option<Seq<char>>
    decreases stack.len(),
{
    if stack.len() == 0 {
        None
    } else if stack.last().contains_key(k) {
        Some(stack.last()[k])
    } else {
        stack_lookup(stack.drop_last(), k)
    }
}

/// What a name stands for: `_` is the current line (empty outside a line
/// event), any other name its innermost binding.
pub open spec fn lookup_in(v: EnvView, k: Seq<char>) -> Option<Seq<char>> {
    if k == seq!['_'] {
        Some(line_of(v.event))
    } else {
        stack_lookup(v.stack, k)
    }
}

/// What a name stands for, the empty text where it is unbound.
pub open spec fn value_of_name(v: EnvView, k: Seq<char>) -> Seq<char> {
    match lookup_in(v, k) {
        Some(t) => t,
        None => seq![],
    }
}

/// A stack with its innermost scope removed; an empty stack stays empty.
pub open spec fn pop_stack(s: Seq<Bindings>) -> Seq<Bindings> {
    if s.len() == 0 {
        s
    } else {
        s.drop_last()
    }
}

/// The state of a run.
pub struct Environment<'a> {
    /// The number of line events so far.
    pub lineno: i64,
    /// The event being handled.
    pub event: Event,
    pub tracker: RangeScopeTracker,
    pub scope_stack: Vec<Scope>,
    /// The separator that splits a line into fields.
    pub sep: &'a Rx,
    /// The effects asked for so far.
    pub out: Vec<Effect>,
    /// Set once a quit statement ran; never cleared.
    pub quit: bool,
}

impl<'a> View for Environment<'a> {
    type V = EnvView;

    open spec fn view(&self) -> EnvView {
        EnvView {
            lineno: self.lineno as int,
            event: self.event@,
            stack: self.scope_stack@.map_values(|s: Scope| s@),
            states: self.tracker.slots(),
            pos: self.tracker.pos as int,
            steps: self.tracker.steps@,
            sep: self.sep@,
            out: self.out@.map_values(|e: Effect| e@),
            quit: self.quit,
        }
    }
}

impl<'a> Environment<'a> {
    /// The tracker has `n` slots and its cursor stands within them.
    pub open spec fn wf(&self, n: nat) -> bool {
        &&& self.tracker.wf()
        &&& self.tracker.states@.len() == n
    }

    /// A fresh state for a run of a program with `num_ranges` range guards,
    /// splitting fields on `sep`: at the start of the stream, line zero, no
    /// scopes, every range closed, nothing asked for.
    pub fn new(sep: &'a Rx, num_ranges: usize) -> (r: Environment<'a>)
        ensures
            r.wf(num_ranges as nat),
            r@.lineno == 0,
            r@.event == EventView::Begin,
            r@.stack == Seq::<Bindings>::empty(),
            r@.states == Seq::new(num_ranges as nat, |i: int| None::<Bindings>),
            r@.pos == 0,
            r@.steps == 0,
            r@.sep == sep@,
            r@.out == Seq::<EffectView>::empty(),
            !r@.quit,
    {
        let tracker = RangeScopeTracker::new(num_ranges);
        let r = Environment {
            lineno: 0,
            event: Event::Begin,
            tracker,
            scope_stack: Vec::new(),
            sep,
            out: Vec::new(),
            quit: false,
        };
        assert(r@.states =~= Seq::new(num_ranges as nat, |i: int| None::<Bindings>));
        assert(r@.stack =~= Seq::<Bindings>::empty());
        assert(r@.out =~= Seq::<EffectView>::empty());
        r
    }

    /// What a name stands for: `_` is the current line (empty outside a
    /// line event), any other name its innermost binding in the stack.
    pub fn lookup(&self, key: &str) -> (r: Option<String>)
        ensures
            crate::rx::opt_view(r) == lookup_in(self@, key@),
    {
        let k = key.to_owned();
        if crate::scope::is_underscore(&k) {
            return match &self.event {
                Event::Line(t) => Some(t.clone()),
                _ => {
                    let e = String::new();
                    Some(e)
                },
            };
        }
        let ghost stack = self@.stack;
        let mut i = self.scope_stack.len();
        assert(stack.subrange(0, i as int) =~= stack);
        while i > 0
            invariant
                i <= self.scope_stack@.len(),
                stack == self@.stack,
                key@ != seq!['_'],
                stack_lookup(stack.subrange(0, i as int), key@) == stack_lookup(stack, key@),
            decreases i,
        {
            assert(stack.subrange(0, i as int).drop_last() =~= stack.subrange(0, i - 1));
            assert(stack.subrange(0, i as int).last() == self.scope_stack@[i - 1]@);
            match self.scope_stack[i - 1].get(key) {
                Some(v) => {
                    assert(key@ != seq!['_']);
                    return Some(v.clone());
                },
                None => {},
            }
            i -= 1;
        }
        None
    }

    /// Pushes a scope onto the stack.
    pub fn push(&mut self, scope: Scope)
        ensures
            final(self)@ == (EnvView { stack: old(self)@.stack.push(scope@), ..old(self)@ }),
            final(self).tracker == old(self).tracker,
    {
        let ghost sv = scope@;
        self.scope_stack.push(scope);
        assert(self@.stack =~= old(self)@.stack.push(sv));
    }

    /// Pops the innermost scope off the stack.
    pub fn pop(&mut self)
        ensures
            final(self)@ == (EnvView { stack: pop_stack(old(self)@.stack), ..old(self)@ }),
            final(self).tracker == old(self).tracker,
    {
        if self.scope_stack.len() > 0 {
            let _ = self.scope_stack.pop();
            assert(self@.stack =~= pop_stack(old(self)@.stack));
        }
    }

    /// Whether a quit statement has run.
    pub fn finished(&self) -> (r: bool)
        ensures
            r == self@.quit,
    {
        self.quit
    }

    /// Asks for an effect.
    pub fn emit(&mut self, e: Effect)
        ensures
            final(self)@ == (EnvView { out: old(self)@.out.push(e@), ..old(self)@ }),
            final(self).tracker == old(self).tracker,
    {
        let ghost ev = e@;
        self.out.push(e);
        assert(self@.out =~= old(self)@.out.push(ev));
    }
}

} // verus!
