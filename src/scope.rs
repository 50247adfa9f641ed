//! Scopes: one frame of name to text bindings.

use vstd::prelude::*;
use crate::rx::{Rx, regex_group_names, regex_matches, opts_view, strings_view};

verus! {

/// The map that a list of bindings stands for: a later binding of a name
/// hides an earlier one.
pub open spec fn bindings_map(s: Seq<(String, String)>) -> Map<Seq<char>, Seq<char>>
    decreases s.len(),
{
    if s.len() == 0 {
        Map::empty()
    } else {
        bindings_map(s.drop_last()).insert(s.last().0@, s.last().1@)
    }
}

/// Binds each named group that took part in a match, but a group named `_`.
/// A later group of the same name hides an earlier one.
pub open spec fn groups_map(
    names: Seq<Option<Seq<char>>>,
    vals: Seq<Option<Seq<char>>>,
) -> Map<Seq<char>, Seq<char>>
    decreases names.len(),
{
    if names.len() == 0 {
        Map::empty()
    } else {
        let rest = groups_map(names.drop_last(), vals);
        let i = names.len() - 1;
        if i < vals.len() && names[i] is Some && vals[i] is Some && names[i]->0 != seq!['_'] {
            rest.insert(names[i]->0, vals[i]->0)
        } else {
            rest
        }
    }
}

/// The scope that the first match of a pattern in a text binds (empty where
/// it does not match).
pub open spec fn regex_scope(p: Seq<char>, t: Seq<char>) -> Map<Seq<char>, Seq<char>> {
    let ms = regex_matches(p, t);
    if ms.len() == 0 {
        Map::empty()
    } else {
        groups_map(regex_group_names(p), ms[0])
    }
}

/// A flat map from names to text.
#[derive(Debug)]
pub struct Scope {
    local: Vec<(String, String)>,
}

impl View for Scope {
    type V = Map<Seq<char>, Seq<char>>;

    closed spec fn view(&self) -> Map<Seq<char>, Seq<char>> {
        bindings_map(self.local@)
    }
}

proof fn lemma_bindings_append(a: Seq<(String, String)>, b: Seq<(String, String)>)
    ensures
        bindings_map(a + b) == bindings_map(a).union_prefer_right(bindings_map(b)),
    decreases b.len(),
{
    if b.len() == 0 {
        assert(a + b =~= a);
        assert(bindings_map(a).union_prefer_right(bindings_map(b)) =~= bindings_map(a));
    } else {
        lemma_bindings_append(a, b.drop_last());
        assert((a + b).drop_last() =~= a + b.drop_last());
        assert(bindings_map(a + b) =~= bindings_map(a).union_prefer_right(bindings_map(b)));
    }
}

/// Writing the same scope over a scope a second time changes nothing.
pub proof fn lemma_overlay_idempotent(a: Scope, b: Scope)
    ensures
        a@.union_prefer_right(b@).union_prefer_right(b@) == a@.union_prefer_right(b@),
{
    assert(a@.union_prefer_right(b@).union_prefer_right(b@) =~= a@.union_prefer_right(b@));
}

impl Scope {
    /// An empty scope.
    pub fn new() -> (r: Scope)
        ensures
            r@ == Map::<Seq<char>, Seq<char>>::empty(),
    {
        Scope { local: Vec::new() }
    }

    /// Binds `name` to `value`, replacing an earlier binding of `name`.
    pub fn set(&mut self, name: String, value: String)
        ensures
            final(self)@ == old(self)@.insert(name@, value@),
    {
        let ghost before = self.local@;
        self.local.push((name, value));
        assert(self.local@.drop_last() =~= before);
    }

    /// The text bound to `name`, if any.
    pub fn get(&self, name: &str) -> (r: Option<&String>)
        ensures
            match r {
                Some(v) => self@.contains_key(name@) && self@[name@] == v@,
                None => !self@.contains_key(name@),
            },
    {
        let key = name.to_owned();
        let mut i = self.local.len();
        assert(self.local@.subrange(0, i as int) =~= self.local@);
        while i > 0
            invariant
                i <= self.local@.len(),
                key@ == name@,
                bindings_map(self.local@.subrange(0, i as int)).contains_key(name@)
                    == self@.contains_key(name@),
                self@.contains_key(name@) ==> bindings_map(self.local@.subrange(0, i as int))[name@]
                    == self@[name@],
            decreases i,
        {
            let ghost pre = self.local@.subrange(0, i as int);
            assert(pre.drop_last() =~= self.local@.subrange(0, i - 1));
            if self.local[i - 1].0 == key {
                return Some(&self.local[i - 1].1);
            }
            i -= 1;
        }
        None
    }

    /// The bindings of `other` written over those of `self`: where both
    /// bind a name, `other` wins.
    pub fn overlay(&self, other: &Scope) -> (r: Scope)
        ensures
            r@ == self@.union_prefer_right(other@),
    {
        let mut local: Vec<(String, String)> = Vec::new();
        push_all(&mut local, &self.local);
        push_all(&mut local, &other.local);
        assert(local@ =~= self.local@ + other.local@);
        proof {
            lemma_bindings_append(self.local@, other.local@);
        }
        Scope { local }
    }

    /// The bindings of this scope whose names are among `keys`.
    pub fn pick(&self, keys: &Vec<String>) -> (r: Scope)
        ensures
            r@ == self@.restrict(strings_view(keys@).to_set()),
    {
        let mut scope = Scope::new();
        let mut i: usize = 0;
        while i < keys.len()
            invariant
                i <= keys@.len(),
                scope@ == self@.restrict(keys@.subrange(0, i as int).map_values(|k: String| k@).to_set()),
            decreases keys.len() - i,
        {
            let ghost done = keys@.subrange(0, i as int).map_values(|k: String| k@).to_set();
            let ghost next = keys@.subrange(0, i + 1).map_values(|k: String| k@).to_set();
            assert(next =~= done.insert(keys@[i as int]@)) by {
                let a = keys@.subrange(0, i as int).map_values(|k: String| k@);
                assert(keys@.subrange(0, i + 1).map_values(|k: String| k@) =~= a.push(keys@[i as int]@));
                a.lemma_push_to_set_commute(keys@[i as int]@);
            }
            match self.get(keys[i].as_str()) {
                Some(v) => {
                    scope.set(keys[i].clone(), v.clone());
                },
                None => {},
            }
            assert(scope@ =~= self@.restrict(next));
            i += 1;
        }
        assert(keys@.subrange(0, i as int) =~= keys@);
        assert(keys@.map_values(|k: String| k@) =~= strings_view(keys@));
        scope
    }

    /// Binds each named group that takes part in the first match of `regex`
    /// in `line`, but a group named `_`.
    pub fn from_regex(regex: &Rx, line: &str) -> (r: Scope)
        ensures
            r@ == regex_scope(regex@, line@),
    {
        let matches = regex.all_captures(line);
        if matches.len() == 0 {
            return Scope::new();
        }
        let names = regex.group_names();
        proof {
            assert(opts_view(matches@[0]@) == regex_matches(regex@, line@)[0]);
        }
        Scope::from_groups(&names, &matches[0])
    }

    /// Binds each named group of a match that took part in it, but a group
    /// named `_`.
    pub fn from_groups(names: &Vec<Option<String>>, vals: &Vec<Option<String>>) -> (r: Scope)
        ensures
            r@ == groups_map(opts_view(names@), opts_view(vals@)),
    {
        let mut scope = Scope::new();
        let mut i: usize = 0;
        while i < names.len()
            invariant
                i <= names@.len(),
                scope@ == groups_map(opts_view(names@.subrange(0, i as int)), opts_view(vals@)),
            decreases names.len() - i,
        {
            assert(opts_view(names@.subrange(0, i + 1)).drop_last() =~= opts_view(names@.subrange(0, i as int)));
            if i < vals.len() {
                match (&names[i], &vals[i]) {
                    (Some(n), Some(v)) => {
                        if !is_underscore(n) {
                            scope.set(n.clone(), v.clone());
                        }
                    },
                    _ => {},
                }
            }
            i += 1;
        }
        assert(names@.subrange(0, i as int) =~= names@);
        scope
    }
}

fn push_all(dst: &mut Vec<(String, String)>, src: &Vec<(String, String)>)
    ensures
        final(dst)@ == old(dst)@ + src@,
{
    let mut i: usize = 0;
    while i < src.len()
        invariant
            i <= src@.len(),
            dst@ == old(dst)@ + src@.subrange(0, i as int),
        decreases src.len() - i,
    {
        dst.push((src[i].0.clone(), src[i].1.clone()));
        assert(dst@ =~= old(dst)@ + src@.subrange(0, i + 1));
        i += 1;
    }
    assert(src@.subrange(0, i as int) =~= src@);
}

/// A copy of a scope.
pub fn copy_scope(s: &Scope) -> (r: Scope)
    ensures
        r@ == s@,
{
    let mut local: Vec<(String, String)> = Vec::new();
    push_all(&mut local, &s.local);
    assert(local@ =~= s.local@);
    Scope { local }
}

/// Whether a name is the placeholder `_`.
pub fn is_underscore(s: &String) -> (r: bool)
    ensures
        r == (s@ == seq!['_']),
{
    let cs = crate::text::chars_of(s.as_str());
    if cs.len() == 1 && cs[0] == '_' {
        assert(cs@ =~= seq!['_']);
        true
    } else {
        false
    }
}

} // verus!
