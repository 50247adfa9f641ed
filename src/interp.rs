//! Interpolation: `${name}` in a text is replaced by what the name stands
//! for; `\$` stands for a plain `$`.

use vstd::prelude::*;
use crate::env::{EnvView, Environment, value_of_name};
use crate::rx::strings_view;
use crate::text::{chars_of, string_of};

verus! {

/// Whether a character may stand in a name.
pub open spec fn is_name_char(c: char) -> bool {
    ('a' <= c && c <= 'z') || ('A' <= c && c <= 'Z') || ('0' <= c && c <= '9') || c == '_'
}

/// Where the run of name characters that starts at `j` ends.
pub open spec fn name_end(s: Seq<char>, j: int) -> int
    decreases s.len() - j,
{
    if 0 <= j < s.len() && is_name_char(s[j]) {
        name_end(s, j + 1)
    } else {
        j
    }
}

/// Whether a reference `${name}` starts at `i`.
pub open spec fn ref_at(s: Seq<char>, i: int) -> bool {
    &&& 0 <= i
    &&& i + 1 < s.len()
    &&& s[i] == '$'
    &&& s[i + 1] == '{'
    &&& name_end(s, i + 2) > i + 2
    &&& name_end(s, i + 2) < s.len()
    &&& s[name_end(s, i + 2)] == '}'
}

/// Whether an escaped dollar `\$` starts at `i`.
pub open spec fn escape_at(s: Seq<char>, i: int) -> bool {
    0 <= i && i + 1 < s.len() && s[i] == '\\' && s[i + 1] == '$'
}

/// The interpolation of `s` from position `i` on, left to right.
pub open spec fn interp_from(s: Seq<char>, i: int, v: EnvView) -> Seq<char>
    decreases s.len() - i,
{
    if i < 0 || i >= s.len() {
        seq![]
    } else if escape_at(s, i) {
        seq!['$'] + interp_from(s, i + 2, v)
    } else if ref_at(s, i) {
        value_of_name(v, s.subrange(i + 2, name_end(s, i + 2)))
            + interp_from(s, name_end(s, i + 2) + 1, v)
    } else {
        seq![s[i]] + interp_from(s, i + 1, v)
    }
}

/// The interpolation of `s` against the state `v`: each `${name}` becomes
/// what the name stands for (the empty text where it is unbound), each
/// `\$` a plain `$`.
pub open spec fn interp(s: Seq<char>, v: EnvView) -> Seq<char> {
    interp_from(s, 0, v)
}

/// The names referenced in `s` from position `i` on, in order.
pub open spec fn names_from(s: Seq<char>, i: int) -> Seq<Seq<char>>
    decreases s.len() - i,
{
    if i < 0 || i >= s.len() {
        seq![]
    } else if escape_at(s, i) {
        names_from(s, i + 2)
    } else if ref_at(s, i) {
        seq![s.subrange(i + 2, name_end(s, i + 2))] + names_from(s, name_end(s, i + 2) + 1)
    } else {
        names_from(s, i + 1)
    }
}

fn is_name_char_exec(c: char) -> (r: bool)
    ensures
        r == is_name_char(c),
{
    ('a' <= c && c <= 'z') || ('A' <= c && c <= 'Z') || ('0' <= c && c <= '9') || c == '_'
}

/// Scans the run of name characters from `j`: its end, and its characters.
fn scan_name(cs: &Vec<char>, j: usize) -> (r: (usize, Vec<char>))
    requires
        j <= cs@.len(),
    ensures
        r.0 as int == name_end(cs@, j as int),
        j <= r.0 <= cs@.len(),
        r.1@ == cs@.subrange(j as int, r.0 as int),
{
    let mut k = j;
    let mut name: Vec<char> = Vec::new();
    while k < cs.len() && is_name_char_exec(cs[k])
        invariant
            j <= k <= cs@.len(),
            name_end(cs@, j as int) == name_end(cs@, k as int),
            name@ == cs@.subrange(j as int, k as int),
        decreases cs.len() - k,
    {
        name.push(cs[k]);
        k += 1;
        assert(name@ =~= cs@.subrange(j as int, k as int));
    }
    (k, name)
}

fn push_chars(dst: &mut Vec<char>, src: &Vec<char>)
    ensures
        final(dst)@ == old(dst)@ + src@,
{
    let mut i: usize = 0;
    while i < src.len()
        invariant
            i <= src@.len(),
            dst@ == old(dst)@ + src@.subrange(0, i as int),
        decreases src.len() - i,
    {
        dst.push(src[i]);
        i += 1;
        assert(dst@ =~= old(dst)@ + src@.subrange(0, i as int));
    }
    assert(src@.subrange(0, i as int) =~= src@);
}

/// Replaces each `${name}` in `content` by what the name stands for in
/// `env` (the empty text where it is unbound), and each `\$` by `$`.
pub fn interpolate(content: &str, env: &Environment) -> (r: String)
    ensures
        r@ == interp(content@, env@),
{
    let cs = chars_of(content);
    let ghost s = cs@;
    let mut out: Vec<char> = Vec::new();
    let mut i: usize = 0;
    while i < cs.len()
        invariant
            s == cs@,
            s == content@,
            i <= cs@.len(),
            out@ + interp_from(s, i as int, env@) == interp(s, env@),
        decreases cs.len() - i,
    {
        let ghost before = out@;
        if i + 1 < cs.len() && cs[i] == '\\' && cs[i + 1] == '$' {
            out.push('$');
            assert(out@ + interp_from(s, i + 2, env@) =~= before + interp_from(s, i as int, env@));
            i = i + 2;
        } else if i + 1 < cs.len() && cs[i] == '$' && cs[i + 1] == '{' {
            let (end, name) = scan_name(&cs, i + 2);
            if end > i + 2 && end < cs.len() && cs[end] == '}' {
                let key = string_of(&name);
                let value = match env.lookup(key.as_str()) {
                    Some(t) => t,
                    None => String::new(),
                };
                let vs = chars_of(value.as_str());
                push_chars(&mut out, &vs);
                assert(out@ + interp_from(s, end + 1, env@) =~= before + interp_from(s, i as int, env@));
                i = end + 1;
            } else {
                out.push(cs[i]);
                assert(out@ + interp_from(s, i + 1, env@) =~= before + interp_from(s, i as int, env@));
                i = i + 1;
            }
        } else {
            out.push(cs[i]);
            assert(out@ + interp_from(s, i + 1, env@) =~= before + interp_from(s, i as int, env@));
            i = i + 1;
        }
    }
    assert(out@ =~= out@ + interp_from(s, i as int, env@));
    string_of(&out)
}

/// The names that `${name}` references in `s` name, in order (escaped
/// references `\${name}` are not among them).
pub fn interpolated_variables(s: &str) -> (r: Vec<String>)
    ensures
        strings_view(r@) == names_from(s@, 0),
{
    let cs = chars_of(s);
    let ghost t = cs@;
    let mut out: Vec<String> = Vec::new();
    let mut i: usize = 0;
    while i < cs.len()
        invariant
            t == cs@,
            t == s@,
            i <= cs@.len(),
            strings_view(out@) + names_from(t, i as int) == names_from(t, 0),
        decreases cs.len() - i,
    {
        let ghost before = strings_view(out@);
        if i + 1 < cs.len() && cs[i] == '\\' && cs[i + 1] == '$' {
            i = i + 2;
        } else if i + 1 < cs.len() && cs[i] == '$' && cs[i + 1] == '{' {
            let (end, name) = scan_name(&cs, i + 2);
            if end > i + 2 && end < cs.len() && cs[end] == '}' {
                out.push(string_of(&name));
                assert(strings_view(out@) =~= before.push(name@));
                assert(strings_view(out@) + names_from(t, end + 1) =~= before + names_from(t, i as int));
                i = end + 1;
            } else {
                i = i + 1;
            }
        } else {
            i = i + 1;
        }
    }
    assert(strings_view(out@) =~= strings_view(out@) + names_from(t, i as int));
    out
}

} // verus!
