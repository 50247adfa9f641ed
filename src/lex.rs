//! The lexer: program text to tokens.

use vstd::prelude::*;
use crate::text::{chars_of, string_of, concat};

verus! {

/// A token of the program text.
#[derive(Debug, PartialEq)]
pub enum Token {
    /// One of `( { [ ] } )`.
    Paren(char),
    /// One of `^ $ ! & |`.
    Symbol(char),
    /// A decimal number.
    Number(i64),
    /// `/pattern/flags`: the pattern (escapes of its own kept) and the flags
    /// (`i` case-insensitive, `U` swapped greediness).
    Regex(String, String),
    /// The text after `#` up to the end of the line.
    Comment(String),
    /// A name: a letter or `_`, then letters, digits and `_`.
    Identifier(String),
    /// `'text'` (not interpolated) or `"text"` (interpolated, `\$` kept).
    String(String, bool),
    /// One or more of newline, carriage return and `;`.
    Newline,
    /// `,`.
    Comma,
}

/// A class of characters that the lexer gathers runs of.
#[derive(Debug, Clone, Copy, PartialEq, Eq)]
pub enum CharClass {
    /// `0` to `9`.
    Digit,
    /// Newline, carriage return and `;`.
    LineBreak,
    /// Letters, digits and `_`.
    Ident,
    /// The regex flags `i` and `U`.
    RegexFlag,
}

/// Whether a character belongs to a class.
pub open spec fn in_class(c: char, k: CharClass) -> bool {
    match k {
        CharClass::Digit => '0' <= c && c <= '9',
        CharClass::LineBreak => c == '\n' || c == '\r' || c == ';',
        CharClass::Ident => ('a' <= c && c <= 'z') || ('A' <= c && c <= 'Z') || ('0' <= c && c <= '9')
            || c == '_',
        CharClass::RegexFlag => c == 'i' || c == 'U',
    }
}

impl CharClass {
    /// Whether a character belongs to this class.
    pub fn accept(&self, c: char) -> (r: bool)
        ensures
            r == in_class(c, *self),
    {
        match self {
            CharClass::Digit => '0' <= c && c <= '9',
            CharClass::LineBreak => c == '\n' || c == '\r' || c == ';',
            CharClass::Ident => ('a' <= c && c <= 'z') || ('A' <= c && c <= 'Z') || ('0' <= c
                && c <= '9') || c == '_',
            CharClass::RegexFlag => c == 'i' || c == 'U',
        }
    }
}

/// The length of the run of characters of class `k` that starts at `j`.
pub open spec fn run_len(cs: Seq<char>, j: int, k: CharClass) -> nat
    decreases cs.len() - j,
{
    if 0 <= j < cs.len() && in_class(cs[j], k) {
        1 + run_len(cs, j + 1, k)
    } else {
        0
    }
}

/// The length of the run of characters not of class `k` that starts at `j`.
pub open spec fn break_len(cs: Seq<char>, j: int, k: CharClass) -> nat
    decreases cs.len() - j,
{
    if 0 <= j < cs.len() && !in_class(cs[j], k) {
        1 + break_len(cs, j + 1, k)
    } else {
        0
    }
}

/// The end of the run of characters of class `k` that starts at `start`.
pub fn chomp(cs: &Vec<char>, start: usize, k: CharClass) -> (end: usize)
    requires
        start <= cs@.len(),
    ensures
        end == start + run_len(cs@, start as int, k),
        end <= cs@.len(),
{
    let mut j = start;
    while j < cs.len() && k.accept(cs[j])
        invariant
            start <= j <= cs@.len(),
            run_len(cs@, start as int, k) == (j - start) + run_len(cs@, j as int, k),
        decreases cs.len() - j,
    {
        j += 1;
    }
    j
}

/// The end of the run of characters not of class `k` that starts at
/// `start`.
pub fn chomp_until(cs: &Vec<char>, start: usize, k: CharClass) -> (end: usize)
    requires
        start <= cs@.len(),
    ensures
        end == start + break_len(cs@, start as int, k),
        end <= cs@.len(),
{
    let mut j = start;
    while j < cs.len() && !k.accept(cs[j])
        invariant
            start <= j <= cs@.len(),
            break_len(cs@, start as int, k) == (j - start) + break_len(cs@, j as int, k),
        decreases cs.len() - j,
    {
        j += 1;
    }
    j
}

/// The characters between `start` and `end`.
pub fn slice_chars(cs: &Vec<char>, start: usize, end: usize) -> (r: Vec<char>)
    requires
        start <= end <= cs@.len(),
    ensures
        r@ == cs@.subrange(start as int, end as int),
{
    let mut out: Vec<char> = Vec::new();
    let mut j = start;
    while j < end
        invariant
            start <= j <= end,
            end <= cs@.len(),
            out@ == cs@.subrange(start as int, j as int),
        decreases end - j,
    {
        out.push(cs[j]);
        j += 1;
        assert(out@ =~= cs@.subrange(start as int, j as int));
    }
    out
}

/// The run of characters of class `k` that starts at `start`, as a string,
/// and its end.
pub fn chomp_str(cs: &Vec<char>, start: usize, k: CharClass) -> (r: (String, usize))
    requires
        start <= cs@.len(),
    ensures
        r.1 == start + run_len(cs@, start as int, k),
        r.1 <= cs@.len(),
        r.0@ == cs@.subrange(start as int, r.1 as int),
{
    let end = chomp(cs, start, k);
    let v = slice_chars(cs, start, end);
    (string_of(&v), end)
}

/// The value of a sequence of decimal digits.
pub open spec fn digits_value(ds: Seq<char>) -> int
    decreases ds.len(),
{
    if ds.len() == 0 {
        0
    } else {
        digits_value(ds.drop_last()) * 10 + (ds.last() as int - '0' as int)
    }
}

/// The value of a sequence of decimal digits; `None` where it does not fit
/// in an `i64`.
pub fn get_number(ds: &Vec<char>) -> (r: Option<i64>)
    requires
        forall|j: int| 0 <= j < ds@.len() ==> in_class(#[trigger] ds@[j], CharClass::Digit),
    ensures
        match r {
            Some(v) => v as int == digits_value(ds@),
            None => digits_value(ds@) > i64::MAX,
        },
{
    let mut value: i64 = 0;
    let mut j: usize = 0;
    while j < ds.len()
        invariant
            j <= ds@.len(),
            forall|x: int| 0 <= x < ds@.len() ==> in_class(#[trigger] ds@[x], CharClass::Digit),
            value as int == digits_value(ds@.subrange(0, j as int)),
            value >= 0,
        decreases ds.len() - j,
    {
        assert(ds@.subrange(0, j + 1).drop_last() =~= ds@.subrange(0, j as int));
        let digit = (ds[j] as u32 - '0' as u32) as i64;
        assert(in_class(ds@[j as int], CharClass::Digit));
        if value > (i64::MAX - digit) / 10 {
            proof {
                lemma_digits_grow(ds@, j as int + 1);
            }
            return None;
        }
        value = value * 10 + digit;
        j += 1;
    }
    assert(ds@.subrange(0, j as int) =~= ds@);
    Some(value)
}

proof fn lemma_digits_grow(ds: Seq<char>, k: int)
    requires
        0 <= k <= ds.len(),
        forall|x: int| 0 <= x < ds.len() ==> in_class(#[trigger] ds[x], CharClass::Digit),
        digits_value(ds.subrange(0, k)) > i64::MAX,
    ensures
        digits_value(ds) > i64::MAX,
    decreases ds.len() - k,
{
    if k < ds.len() {
        let a = ds.subrange(0, k + 1);
        assert(a.drop_last() =~= ds.subrange(0, k));
        assert(in_class(ds[k], CharClass::Digit));
        lemma_digits_grow(ds, k + 1);
    } else {
        assert(ds.subrange(0, k) =~= ds);
    }
}

/// The characters before which a backslash keeps itself.
#[derive(Debug, Clone, Copy, PartialEq, Eq)]
pub enum Escapes {
    /// In a regex: the characters a regex escapes itself.
    Regex,
    /// In an interpolated string: `$`.
    Dollar,
    /// In a plain string: none.
    Nothing,
}

/// Whether a backslash keeps itself before `c`.
pub open spec fn keeps_escape(set: Escapes, c: char) -> bool {
    match set {
        Escapes::Regex => c == '{' || c == '}' || c == '[' || c == ']' || c == '.' || c == '^' || c
            == '$' || c == '*' || c == '+' || c == '?' || c == '|' || c == '(' || c == ')' || c
            == 'd' || c == 'D' || c == 's' || c == 'S' || c == 'w' || c == 'W' || c == 'p' || c
            == 'P' || c == 'b' || c == 'B' || c == 'A' || c == 'z' || c == 'a' || c == 'f' || c
            == 't' || c == 'n' || c == 'r' || c == 'v' || c == 'x' || c == 'u' || c == 'U' || c
            == '\\',
        Escapes::Dollar => c == '$',
        Escapes::Nothing => false,
    }
}

impl Escapes {
    /// Whether a backslash keeps itself before `c`.
    pub fn keeps(&self, c: char) -> (r: bool)
        ensures
            r == keeps_escape(*self, c),
    {
        match self {
            Escapes::Regex => matches!(
                c,
                '{' | '}' | '[' | ']' | '.' | '^' | '$' | '*' | '+' | '?' | '|' | '(' | ')' | 'd'
                    | 'D' | 's' | 'S' | 'w' | 'W' | 'p' | 'P' | 'b' | 'B' | 'A' | 'z' | 'a' | 'f'
                    | 't' | 'n' | 'r' | 'v' | 'x' | 'u' | 'U' | '\\'
            ),
            Escapes::Dollar => c == '$',
            Escapes::Nothing => false,
        }
    }
}

/// What an escape `\e` stands for, where it is allowed.
pub open spec fn escape_piece(e: char, terminator: char, set: Escapes) -> Option<Seq<char>> {
    if e == terminator {
        Some(seq![e])
    } else if keeps_escape(set, e) {
        Some(seq!['\\', e])
    } else if e == 'n' {
        Some(seq!['\n'])
    } else if e == 't' {
        Some(seq!['\t'])
    } else if e == 'r' {
        Some(seq!['\r'])
    } else if e == '\\' {
        Some(seq!['\\'])
    } else {
        None
    }
}

/// The text from `j` up to the terminator (or the end of the text), with
/// its escapes resolved, and how many characters it spans; `None` where an
/// escape is not allowed or the text ends in a backslash.
pub open spec fn unescape(cs: Seq<char>, j: int, terminator: char, set: Escapes) -> Option<(Seq<char>, nat)>
    decreases cs.len() - j,
{
    if j < 0 || j >= cs.len() || cs[j] == terminator {
        Some((seq![], 0))
    } else if cs[j] == '\\' {
        if j + 1 >= cs.len() {
            None
        } else {
            match escape_piece(cs[j + 1], terminator, set) {
                None => None,
                Some(p) => match unescape(cs, j + 2, terminator, set) {
                    None => None,
                    Some((rest, n)) => Some((p + rest, n + 2)),
                },
            }
        }
    } else {
        match unescape(cs, j + 1, terminator, set) {
            None => None,
            Some((rest, n)) => Some((seq![cs[j]] + rest, n + 1)),
        }
    }
}

/// A message naming a character.
fn message_with(msg: &str, c: char) -> (r: String)
    ensures
        r@ == msg@.push(c),
{
    let mut s = msg.to_owned();
    s.push(c);
    s
}

/// Gathers the text from `start` up to the terminator (or the end of the
/// text). A backslash escapes the terminator, keeps itself before one of
/// `set`, and stands for a newline, tab, carriage return or backslash
/// before `n`, `t`, `r`, `\`; any other escape, or one at the end of the
/// text, is an error. Returns the text and where the terminator stands.
pub fn chomp_until_escaped(cs: &Vec<char>, start: usize, terminator: char, set: Escapes)
    -> (r: Result<(Vec<char>, usize), String>)
    requires
        start <= cs@.len(),
    ensures
        match r {
            Ok((text, end)) => unescape(cs@, start as int, terminator, set) == Some(
                (text@, (end - start) as nat),
            ) && start <= end <= cs@.len(),
            Err(m) => unescape(cs@, start as int, terminator, set) is None && (m@
                == "found EOF when searching for "@.push(terminator) || exists|e: char|
                m@ == #[trigger] "cannot escape "@.push(e)),
        },
{
    let ghost s = cs@;
    let mut out: Vec<char> = Vec::new();
    let mut j = start;
    while j < cs.len() && cs[j] != terminator
        invariant
            start <= j <= cs@.len(),
            s == cs@,
            match unescape(s, j as int, terminator, set) {
                Some((rest, n)) => unescape(s, start as int, terminator, set) == Some(
                    (out@ + rest, (j - start + n) as nat),
                ),
                None => unescape(s, start as int, terminator, set) is None,
            },
        decreases cs.len() - j,
    {
        let ghost before = out@;
        if cs[j] == '\\' {
            if j + 1 >= cs.len() {
                return Err(message_with("found EOF when searching for ", terminator));
            }
            let e = cs[j + 1];
            if e == terminator {
                out.push(e);
            } else if set.keeps(e) {
                out.push('\\');
                out.push(e);
            } else if e == 'n' {
                out.push('\n');
            } else if e == 't' {
                out.push('\t');
            } else if e == 'r' {
                out.push('\r');
            } else if e == '\\' {
                out.push('\\');
            } else {
                return Err(message_with("cannot escape ", e));
            }
            proof {
                let p = escape_piece(e, terminator, set)->0;
                assert(out@ =~= before + p);
                match unescape(s, j + 2, terminator, set) {
                    Some((rest, n)) => {
                        assert(before + (p + rest) =~= out@ + rest);
                    },
                    None => {},
                }
            }
            j += 2;
        } else {
            out.push(cs[j]);
            proof {
                match unescape(s, j + 1, terminator, set) {
                    Some((rest, n)) => {
                        assert(before + (seq![s[j as int]] + rest) =~= out@ + rest);
                    },
                    None => {},
                }
            }
            j += 1;
        }
    }
    assert(out@ + Seq::<char>::empty() =~= out@);
    Ok((out, j))
}

/// What a token is, over plain values.
pub enum TokenView {
    Paren(char),
    Symbol(char),
    Number(int),
    Regex(Seq<char>, Seq<char>),
    Comment(Seq<char>),
    Identifier(Seq<char>),
    String(Seq<char>, bool),
    Newline,
    Comma,
}

impl View for Token {
    type V = TokenView;

    open spec fn view(&self) -> TokenView {
        match self {
            Token::Paren(c) => TokenView::Paren(*c),
            Token::Symbol(c) => TokenView::Symbol(*c),
            Token::Number(n) => TokenView::Number(*n as int),
            Token::Regex(p, f) => TokenView::Regex(p@, f@),
            Token::Comment(t) => TokenView::Comment(t@),
            Token::Identifier(n) => TokenView::Identifier(n@),
            Token::String(t, i) => TokenView::String(t@, *i),
            Token::Newline => TokenView::Newline,
            Token::Comma => TokenView::Comma,
        }
    }
}

pub open spec fn tokens_view(ts: Seq<Token>) -> Seq<TokenView> {
    ts.map_values(|t: Token| t@)
}

/// A token in front of the tokens that follow it, unless those failed.
pub open spec fn prepend(t: TokenView, rest: Option<Seq<TokenView>>) -> Option<Seq<TokenView>> {
    match rest {
        Some(r) => Some(seq![t] + r),
        None => None,
    }
}

/// Where a quoted text that ends at `end` (its terminator, or the end of
/// the text) is followed.
pub open spec fn after_quote(cs: Seq<char>, end: int) -> int {
    if end < cs.len() {
        end + 1
    } else {
        end
    }
}

/// The tokens of the text from position `i` on; `None` where it does not
/// lex. Blanks separate tokens; `#` starts a comment up to the line break.
pub open spec fn lex_from(cs: Seq<char>, i: int) -> Option<Seq<TokenView>>
    decreases cs.len() - i via lex_from_decreases
{
    if i < 0 || i >= cs.len() {
        Some(seq![])
    } else {
        let c = cs[i];
        if in_class(c, CharClass::Digit) {
            let end = i + 1 + run_len(cs, i + 1, CharClass::Digit);
            let v = digits_value(cs.subrange(i, end));
            if v > i64::MAX {
                None
            } else {
                prepend(TokenView::Number(v), lex_from(cs, end))
            }
        } else if c == '{' || c == '[' || c == '(' || c == '}' || c == ']' || c == ')' {
            prepend(TokenView::Paren(c), lex_from(cs, i + 1))
        } else if c == ' ' || c == '\t' {
            lex_from(cs, i + 1)
        } else if in_class(c, CharClass::LineBreak) {
            prepend(TokenView::Newline, lex_from(cs, i + 1 + run_len(cs, i + 1, CharClass::LineBreak)))
        } else if c == '#' {
            let end = i + 1 + break_len(cs, i + 1, CharClass::LineBreak);
            prepend(TokenView::Comment(cs.subrange(i + 1, end)), lex_from(cs, end))
        } else if c == ',' {
            prepend(TokenView::Comma, lex_from(cs, i + 1))
        } else if c == '/' {
            match unescape(cs, i + 1, '/', Escapes::Regex) {
                None => None,
                Some((pat, n)) => {
                    let end = i + 1 + n;
                    if end >= cs.len() {
                        None
                    } else {
                        let fe = end + 1 + run_len(cs, end + 1, CharClass::RegexFlag);
                        prepend(TokenView::Regex(pat, cs.subrange(end + 1, fe)), lex_from(cs, fe))
                    }
                },
            }
        } else if c == '"' {
            match unescape(cs, i + 1, '"', Escapes::Dollar) {
                None => None,
                Some((t, n)) => prepend(TokenView::String(t, true), lex_from(cs, after_quote(cs, i + 1 + n))),
            }
        } else if c == '\'' {
            match unescape(cs, i + 1, '\'', Escapes::Nothing) {
                None => None,
                Some((t, n)) => prepend(TokenView::String(t, false), lex_from(cs, after_quote(cs, i + 1 + n))),
            }
        } else if c == '_' || ('a' <= c && c <= 'z') || ('A' <= c && c <= 'Z') {
            let end = i + 1 + run_len(cs, i + 1, CharClass::Ident);
            prepend(TokenView::Identifier(cs.subrange(i, end)), lex_from(cs, end))
        } else if c == '^' || c == '$' || c == '!' || c == '&' || c == '|' {
            prepend(TokenView::Symbol(c), lex_from(cs, i + 1))
        } else {
            None
        }
    }
}

proof fn lemma_break_bound(cs: Seq<char>, j: int, k: CharClass)
    requires
        0 <= j,
    ensures
        j + break_len(cs, j, k) <= cs.len() || break_len(cs, j, k) == 0,
    decreases cs.len() - j,
{
    if 0 <= j < cs.len() && !in_class(cs[j], k) {
        lemma_break_bound(cs, j + 1, k);
    }
}

proof fn lemma_unescape_bound(cs: Seq<char>, j: int, terminator: char, set: Escapes)
    requires
        0 <= j <= cs.len(),
    ensures
        unescape(cs, j, terminator, set) matches Some((_, n)) ==> j + n <= cs.len(),
    decreases cs.len() - j,
{
    if j < cs.len() && cs[j] != terminator {
        if cs[j] == '\\' {
            if j + 1 < cs.len() {
                lemma_unescape_bound(cs, j + 2, terminator, set);
            }
        } else {
            lemma_unescape_bound(cs, j + 1, terminator, set);
        }
    }
}

#[via_fn]
proof fn lex_from_decreases(cs: Seq<char>, i: int) {
    if 0 <= i < cs.len() {
        lemma_run_in_class(cs, i + 1, CharClass::Digit);
        lemma_run_in_class(cs, i + 1, CharClass::LineBreak);
        lemma_run_in_class(cs, i + 1, CharClass::Ident);
        lemma_break_bound(cs, i + 1, CharClass::LineBreak);
        lemma_unescape_bound(cs, i + 1, '/', Escapes::Regex);
        lemma_unescape_bound(cs, i + 1, '"', Escapes::Dollar);
        lemma_unescape_bound(cs, i + 1, '\'', Escapes::Nothing);
        match unescape(cs, i + 1, '/', Escapes::Regex) {
            Some((_, n)) => {
                if i + 1 + n < cs.len() {
                    lemma_run_in_class(cs, i + 2 + n, CharClass::RegexFlag);
                }
            },
            None => {},
        }
    }
}

/// Whether a token matters to the parser: comments and line breaks do not.
pub open spec fn significant(t: TokenView) -> bool {
    !(t is Comment || t is Newline)
}

/// The tokens that matter to the parser, in order.
pub open spec fn significant_tokens(ts: Seq<TokenView>) -> Seq<TokenView>
    decreases ts.len(),
{
    if ts.len() == 0 {
        seq![]
    } else if significant(ts.last()) {
        significant_tokens(ts.drop_last()).push(ts.last())
    } else {
        significant_tokens(ts.drop_last())
    }
}

proof fn lemma_run_in_class(cs: Seq<char>, j: int, k: CharClass)
    requires
        0 <= j,
    ensures
        forall|x: int| j <= x < j + run_len(cs, j, k) ==> in_class(#[trigger] cs[x], k),
        j + run_len(cs, j, k) <= cs.len() || run_len(cs, j, k) == 0,
    decreases cs.len() - j,
{
    if 0 <= j < cs.len() && in_class(cs[j], k) {
        lemma_run_in_class(cs, j + 1, k);
    }
}

/// All the tokens of a program text, comments and line breaks included;
/// an error where the text does not lex.
pub fn full_lex(buf: &str) -> (r: Result<Vec<Token>, String>)
    ensures
        match r {
            Ok(ts) => lex_from(buf@, 0) == Some(tokens_view(ts@)),
            Err(_) => lex_from(buf@, 0) is None,
        },
{
    let cs = chars_of(buf);
    let ghost s = cs@;
    let mut tokens: Vec<Token> = Vec::new();
    let mut i: usize = 0;
    assert(tokens_view(tokens@) + lex_from(s, 0)->0 =~= lex_from(s, 0)->0);
    while i < cs.len()
        invariant
            i <= cs@.len(),
            s == cs@,
            s == buf@,
            match lex_from(s, i as int) {
                Some(rest) => lex_from(s, 0) == Some(tokens_view(tokens@) + rest),
                None => lex_from(s, 0) is None,
            },
        decreases cs.len() - i,
    {
        let (found, next) = lex_one(&cs, i)?;
        let ghost before = tokens_view(tokens@);
        match found {
            Some(t) => {
                let ghost tv = t@;
                tokens.push(t);
                proof {
                    match lex_from(s, next as int) {
                        Some(rest) => {
                            assert(tokens_view(tokens@) =~= before.push(tv));
                            assert(before + (seq![tv] + rest) =~= tokens_view(tokens@) + rest);
                        },
                        None => {},
                    }
                }
            },
            None => {},
        }
        i = next;
    }
    assert(tokens_view(tokens@) + Seq::<TokenView>::empty() =~= tokens_view(tokens@));
    Ok(tokens)
}

/// The token that starts at `i` (none for a blank) and where the text
/// goes on after it; an error where the text does not lex there.
#[verifier::rlimit(60)]
fn lex_one(cs: &Vec<char>, i: usize) -> (r: Result<(Option<Token>, usize), String>)
    requires
        i < cs@.len(),
    ensures
        match r {
            Ok((Some(t), next)) => i < next <= cs@.len() && lex_from(cs@, i as int) == prepend(
                t@,
                lex_from(cs@, next as int),
            ),
            Ok((None, next)) => i < next <= cs@.len() && lex_from(cs@, i as int) == lex_from(cs@, next as int),
            Err(_) => lex_from(cs@, i as int) is None,
        },
{
    let ghost s = cs@;
    let len = cs.len();
    let c = cs[i];
    if '0' <= c && c <= '9' {
        let end = chomp(cs, i + 1, CharClass::Digit);
        let ds = slice_chars(cs, i, end);
        proof {
            lemma_run_in_class(s, i + 1, CharClass::Digit);
            assert forall|j: int| 0 <= j < ds@.len() implies in_class(#[trigger] ds@[j], CharClass::Digit) by {
                if j > 0 {
                    assert(ds@[j] == s[i + j]);
                }
            }
        }
        match get_number(&ds) {
            Some(n) => Ok((Some(Token::Number(n)), end)),
            None => Err(concat("number too large: ", string_of(&ds).as_str())),
        }
    } else if c == '{' || c == '[' || c == '(' || c == '}' || c == ']' || c == ')' {
        Ok((Some(Token::Paren(c)), i + 1))
    } else if c == ' ' || c == '\t' {
        Ok((None, i + 1))
    } else if c == '\n' || c == '\r' || c == ';' {
        let end = chomp(cs, i + 1, CharClass::LineBreak);
        Ok((Some(Token::Newline), end))
    } else if c == '#' {
        let end = chomp_until(cs, i + 1, CharClass::LineBreak);
        let text = slice_chars(cs, i + 1, end);
        Ok((Some(Token::Comment(string_of(&text))), end))
    } else if c == ',' {
        Ok((Some(Token::Comma), i + 1))
    } else if c == '/' {
        let (pattern, end) = chomp_until_escaped(cs, i + 1, '/', Escapes::Regex)?;
        if end >= len {
            return Err("expected character: '/'".to_owned());
        }
        let (flags, after) = chomp_str(cs, end + 1, CharClass::RegexFlag);
        Ok((Some(Token::Regex(string_of(&pattern), flags)), after))
    } else if c == '"' {
        let (content, end) = chomp_until_escaped(cs, i + 1, '"', Escapes::Dollar)?;
        let next = if end < len { end + 1 } else { end };
        Ok((Some(Token::String(string_of(&content), true)), next))
    } else if c == '\'' {
        let (content, end) = chomp_until_escaped(cs, i + 1, '\'', Escapes::Nothing)?;
        let next = if end < len { end + 1 } else { end };
        Ok((Some(Token::String(string_of(&content), false)), next))
    } else if c == '_' || ('a' <= c && c <= 'z') || ('A' <= c && c <= 'Z') {
        let end = chomp(cs, i + 1, CharClass::Ident);
        let name = slice_chars(cs, i, end);
        Ok((Some(Token::Identifier(string_of(&name))), end))
    } else if c == '^' || c == '$' || c == '!' || c == '&' || c == '|' {
        Ok((Some(Token::Symbol(c)), i + 1))
    } else {
        Err(message_with("unknown character: ", c))
    }
}

/// The tokens of a program text that matter to the parser: comments and
/// line breaks are left out. An error where the text does not lex.
pub fn lex(buf: &str) -> (r: Result<Vec<Token>, String>)
    ensures
        match r {
            Ok(ts) => lex_from(buf@, 0) matches Some(all) && tokens_view(ts@) == significant_tokens(all),
            Err(_) => lex_from(buf@, 0) is None,
        },
{
    let mut rest = full_lex(buf)?;
    let ghost all = tokens_view(rest@);
    let mut kept: Vec<Token> = Vec::new();
    let n = rest.len();
    let mut i: usize = 0;
    while i < n
        invariant
            i <= n,
            n == all.len(),
            tokens_view(rest@) == all.subrange(i as int, n as int),
            tokens_view(kept@) == significant_tokens(all.subrange(0, i as int)),
        decreases n - i,
    {
        assert(all.subrange(0, i + 1).drop_last() =~= all.subrange(0, i as int));
        let ghost before = tokens_view(kept@);
        assert(rest@.len() == tokens_view(rest@).len());
        assert(tokens_view(rest@)[0] == all[i as int]);
        let ghost prior = rest@;
        let t = rest.remove(0);
        assert(t@ == all[i as int]);
        assert(rest@ =~= prior.subrange(1, prior.len() as int));
        assert(tokens_view(prior).len() == prior.len());
        assert forall|k: int| 0 <= k < rest@.len() implies #[trigger] tokens_view(rest@)[k] == all[i + 1 + k] by {
            assert(tokens_view(prior)[k + 1] == all.subrange(i as int, n as int)[k + 1]);
        }
        assert(tokens_view(rest@) =~= all.subrange(i + 1, n as int));
        match t {
            Token::Comment(_) | Token::Newline => {},
            _ => {
                let ghost tv = t@;
                kept.push(t);
                assert(tokens_view(kept@) =~= before.push(tv));
            },
        }
        i += 1;
    }
    assert(all.subrange(0, i as int) =~= all);
    Ok(kept)
}

} // verus!
