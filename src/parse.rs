//! The parser: tokens to a program tree, by recursive descent.

use vstd::prelude::*;
use crate::ast::{Block, Body, ExprView, Expression, Match, MatchView, Pattern, PatternMatch,
    PatternView, Range, SelView, Selector, Statement, StmtView, patterns_view, sel_view};
use crate::lex::{Token, TokenView, tokens_view};
use crate::rx::{Rx, regex_compiles};
use crate::text::concat;

verus! {

/// The source text of a regex literal with flags: `(?flags)` before the
/// pattern where there are flags.
pub open spec fn regex_source(pat: Seq<char>, flags: Seq<char>) -> Seq<char> {
    if flags.len() == 0 {
        pat
    } else {
        seq!['(', '?'] + flags + seq![')'] + pat
    }
}

/// Compiles a regex literal `/pat/flags`.
pub fn to_regex(pat: String, flags: String) -> (r: Result<Rx, String>)
    ensures
        r is Ok <==> regex_compiles(regex_source(pat@, flags@)),
        r matches Ok(rx) ==> rx@ == regex_source(pat@, flags@),
        r matches Err(m) ==> m@ == "Can not create from /"@ + pat@ + "/"@ + flags@,
{
    let source = if flags.as_str().is_empty() {
        pat.clone()
    } else {
        proof {
            reveal_strlit("(?");
            reveal_strlit(")");
        }
        let a = concat("(?", flags.as_str());
        let b = concat(a.as_str(), ")");
        let c = concat(b.as_str(), pat.as_str());
        assert(c@ =~= regex_source(pat@, flags@));
        c
    };
    match Rx::new(source.as_str()) {
        Ok(rx) => Ok(rx),
        Err(_) => {
            let a = concat("Can not create from /", pat.as_str());
            let b = concat(a.as_str(), "/");
            Err(concat(b.as_str(), flags.as_str()))
        },
    }
}

fn is_paren(tokens: &Vec<Token>, pos: usize, c: char) -> (r: bool)
    ensures
        r == (pos < tokens@.len() && tokens@[pos as int] == Token::Paren(c)),
{
    if pos < tokens.len() {
        match &tokens[pos] {
            Token::Paren(p) => *p == c,
            _ => false,
        }
    } else {
        false
    }
}

fn is_symbol(tokens: &Vec<Token>, pos: usize, c: char) -> (r: bool)
    ensures
        r == (pos < tokens@.len() && tokens@[pos as int] == Token::Symbol(c)),
{
    if pos < tokens.len() {
        match &tokens[pos] {
            Token::Symbol(p) => *p == c,
            _ => false,
        }
    } else {
        false
    }
}

fn is_comma(tokens: &Vec<Token>, pos: usize) -> (r: bool)
    ensures
        r == (pos < tokens@.len() && tokens@[pos as int] == Token::Comma),
{
    pos < tokens.len() && matches!(tokens[pos], Token::Comma)
}

fn word_is(s: &String, w: &str) -> (r: bool)
    ensures
        r == (s@ == w@),
{
    *s == w.to_owned()
}

fn unexpected(what: &str) -> String {
    concat("unexpected token: expected ", what)
}

/// The match at `p` and where it ends: a number, a regex that compiles,
/// `^` or `$`.
pub open spec fn match_at(ts: Seq<TokenView>, p: int) -> Option<(MatchView, int)> {
    if 0 <= p < ts.len() {
        match ts[p] {
            TokenView::Number(n) => Some((MatchView::Index(n), p + 1)),
            TokenView::Regex(pat, flags) => if regex_compiles(regex_source(pat, flags)) {
                Some((MatchView::Regex(regex_source(pat, flags)), p + 1))
            } else {
                None
            },
            TokenView::Symbol(c) => if c == '^' {
                Some((MatchView::Begin, p + 1))
            } else if c == '$' {
                Some((MatchView::End, p + 1))
            } else {
                None
            },
            _ => None,
        }
    } else {
        None
    }
}

/// The position of a pattern match at `p`: a regex that compiles, a
/// string or a name.
pub open spec fn pattern_at(ts: Seq<TokenView>, p: int) -> Option<PatternView> {
    if 0 <= p < ts.len() {
        match ts[p] {
            TokenView::Regex(pat, flags) => if regex_compiles(regex_source(pat, flags)) {
                Some(PatternView::Regex(regex_source(pat, flags)))
            } else {
                None
            },
            TokenView::String(t, i) => Some(PatternView::String(t, i)),
            TokenView::Identifier(n) => Some(PatternView::Identifier(n)),
            _ => None,
        }
    } else {
        None
    }
}

/// The positions `p1, p2, ...]` of a pattern match from `cur` on, and
/// where the closing bracket ends.
pub open spec fn pattern_list_at(ts: Seq<TokenView>, cur: int) -> Option<(Seq<PatternView>, int)>
    decreases ts.len() - cur,
{
    if cur < 0 || cur >= ts.len() {
        None
    } else {
        match pattern_at(ts, cur) {
            None => None,
            Some(pv) => if cur + 1 < ts.len() && ts[cur + 1] == TokenView::Paren(']') {
                Some((seq![pv], cur + 2))
            } else if cur + 1 < ts.len() && ts[cur + 1] == TokenView::Comma {
                match pattern_list_at(ts, cur + 2) {
                    Some((rest, end)) => Some((seq![pv] + rest, end)),
                    None => None,
                }
            } else {
                None
            },
        }
    }
}

/// The pattern match `[...]` at `p` and where it ends.
pub open spec fn pattern_match_at(ts: Seq<TokenView>, p: int) -> Option<(Seq<PatternView>, int)> {
    if 0 <= p < ts.len() && ts[p] == TokenView::Paren('[') {
        if p + 1 < ts.len() && ts[p + 1] == TokenView::Paren(']') {
            Some((seq![], p + 2))
        } else {
            pattern_list_at(ts, p + 1)
        }
    } else {
        None
    }
}

/// Whether the token at `p` is the symbol `c`.
pub open spec fn symbol_at(ts: Seq<TokenView>, p: int, c: char) -> bool {
    0 <= p < ts.len() && ts[p] == TokenView::Symbol(c)
}

/// Whether the token at `p` is the bracket `c`.
pub open spec fn paren_at(ts: Seq<TokenView>, p: int, c: char) -> bool {
    0 <= p < ts.len() && ts[p] == TokenView::Paren(c)
}

/// The selector at `p` and where it ends: conjunctions joined by `|`,
/// grouping to the right.
pub open spec fn sel_or_at(ts: Seq<TokenView>, p: int) -> Option<(SelView, int)>
    decreases ts.len() - p, 5int,
{
    match sel_and_at(ts, p) {
        None => None,
        Some((l, next)) => if symbol_at(ts, next, '|') && next >= p {
            match sel_or_at(ts, next + 1) {
                Some((r, end)) => Some((SelView::Disjunction(Box::new(l), Box::new(r)), end)),
                None => None,
            }
        } else {
            Some((l, next))
        },
    }
}

/// Negations joined by `&`, grouping to the right.
pub open spec fn sel_and_at(ts: Seq<TokenView>, p: int) -> Option<(SelView, int)>
    decreases ts.len() - p, 4int,
{
    match sel_not_at(ts, p) {
        None => None,
        Some((l, next)) => if symbol_at(ts, next, '&') && next >= p {
            match sel_and_at(ts, next + 1) {
                Some((r, end)) => Some((SelView::Conjunction(Box::new(l), Box::new(r)), end)),
                None => None,
            }
        } else {
            Some((l, next))
        },
    }
}

/// A single selector, with `!` before it or not.
pub open spec fn sel_not_at(ts: Seq<TokenView>, p: int) -> Option<(SelView, int)>
    decreases ts.len() - p, 3int,
{
    if symbol_at(ts, p, '!') {
        match sel_single_at(ts, p + 1) {
            Some((s, next)) => Some((SelView::Negate(Box::new(s)), next)),
            None => None,
        }
    } else {
        sel_single_at(ts, p)
    }
}

/// A pattern match, a selector in parentheses, a match, or a range
/// `start, end`.
pub open spec fn sel_single_at(ts: Seq<TokenView>, p: int) -> Option<(SelView, int)>
    decreases ts.len() - p, 2int,
{
    if paren_at(ts, p, '[') {
        match pattern_match_at(ts, p) {
            Some((pats, next)) => Some((SelView::Pattern(pats), next)),
            None => None,
        }
    } else if paren_at(ts, p, '(') {
        match sel_or_at(ts, p + 1) {
            Some((s, next)) => if paren_at(ts, next, ')') {
                Some((s, next + 1))
            } else {
                None
            },
            None => None,
        }
    } else {
        match match_at(ts, p) {
            None => None,
            Some((s, next)) => if 0 <= next < ts.len() && ts[next] == TokenView::Comma {
                match match_at(ts, next + 1) {
                    Some((e, end)) => Some((SelView::Range(s, e), end)),
                    None => None,
                }
            } else {
                Some((SelView::Match(s), next))
            },
        }
    }
}

/// A match: a number, a regex, `^` or `$`.
fn parse_match(tokens: &Vec<Token>, pos: usize) -> (r: Result<(Match, usize), String>)
    ensures
        match r {
            Ok((m, next)) => match_at(tokens_view(tokens@), pos as int) == Some((m@, next as int)),
            Err(_) => match_at(tokens_view(tokens@), pos as int) is None,
        },
        r matches Ok((_, next)) ==> pos < next <= tokens@.len(),
{
    if pos >= tokens.len() {
        return Err("Unexpected EOF".to_owned());
    }
    match &tokens[pos] {
        Token::Number(n) => Ok((Match::Index(*n), pos + 1)),
        Token::Regex(pat, flags) => {
            let rx = to_regex(pat.clone(), flags.clone())?;
            Ok((Match::Regex(rx), pos + 1))
        },
        Token::Symbol(c) => if *c == '^' {
            Ok((Match::Begin, pos + 1))
        } else if *c == '$' {
            Ok((Match::End, pos + 1))
        } else {
            Err(unexpected("a regex or a number"))
        },
        _ => Err(unexpected("a regex or a number")),
    }
}

/// One position of a pattern match: a regex, a string or a name.
fn parse_pattern(tokens: &Vec<Token>, pos: usize) -> (r: Result<(Pattern, usize), String>)
    ensures
        match r {
            Ok((pt, next)) => pattern_at(tokens_view(tokens@), pos as int) == Some(pt@) && next == pos + 1,
            Err(_) => pattern_at(tokens_view(tokens@), pos as int) is None,
        },
        r matches Ok((_, next)) ==> pos < next <= tokens@.len(),
{
    if pos >= tokens.len() {
        return Err("unexpected EOF".to_owned());
    }
    match &tokens[pos] {
        Token::Regex(pat, flags) => {
            let rx = to_regex(pat.clone(), flags.clone())?;
            Ok((Pattern::Regex(rx), pos + 1))
        },
        Token::String(content, interpolated) => Ok(
            (Pattern::String(content.clone(), *interpolated), pos + 1),
        ),
        Token::Identifier(name) => Ok((Pattern::Identifier(name.clone()), pos + 1)),
        _ => Err(unexpected("a literal or an identifier")),
    }
}

/// A pattern match `[p1, p2, ...]`.
fn parse_pattern_match(tokens: &Vec<Token>, pos: usize) -> (r: Result<(PatternMatch, usize), String>)
    ensures
        match r {
            Ok((pm, next)) => pattern_match_at(tokens_view(tokens@), pos as int) == Some(
                (patterns_view(pm.patterns@), next as int),
            ),
            Err(_) => pattern_match_at(tokens_view(tokens@), pos as int) is None,
        },
        r matches Ok((_, next)) ==> pos < next <= tokens@.len(),
{
    let ntok = tokens.len();
    if !is_paren(tokens, pos, '[') {
        return Err(unexpected("the start of a pattern match"));
    }
    if is_paren(tokens, pos + 1, ']') {
        return Ok((PatternMatch { patterns: Vec::new() }, pos + 2));
    }
    let ghost tv = tokens_view(tokens@);
    let mut patterns: Vec<Pattern> = Vec::new();
    let mut cur = pos + 1;
    assert(patterns_view(patterns@) =~= Seq::<PatternView>::empty());
    loop
        invariant
            pos < cur <= tokens@.len(),
            ntok == tokens@.len(),
            tv == tokens_view(tokens@),
            pattern_match_at(tv, pos as int) == match pattern_list_at(tv, cur as int) {
                Some((rest, end)) => Some((patterns_view(patterns@) + rest, end)),
                None => None,
            },
        decreases tokens@.len() - cur,
    {
        let ghost before = patterns_view(patterns@);
        let (p, next) = parse_pattern(tokens, cur)?;
        let ghost pv = p@;
        patterns.push(p);
        assert(patterns_view(patterns@) =~= before.push(pv));
        if is_paren(tokens, next, ']') {
            assert(before + seq![pv] =~= patterns_view(patterns@));
            return Ok((PatternMatch { patterns }, next + 1));
        }
        if !is_comma(tokens, next) {
            return Err(unexpected("a comma"));
        }
        proof {
            match pattern_list_at(tv, next + 1) {
                Some((rest, end)) => {
                    assert(before + (seq![pv] + rest) =~= patterns_view(patterns@) + rest);
                },
                None => {},
            }
        }
        cur = next + 1;
    }
}

/// The expression that the token at `p` stands for, if any.
pub open spec fn expr_at(ts: Seq<TokenView>, p: int) -> Option<ExprView> {
    if 0 <= p < ts.len() {
        match ts[p] {
            TokenView::String(t, i) => Some(ExprView::String(t, i)),
            TokenView::Identifier(n) => Some(ExprView::Identifier(n)),
            _ => None,
        }
    } else {
        None
    }
}

/// The arguments `regex, expr` of a substitution at `p`: the regex's
/// source, the expression, and where they end; `None` where they are
/// malformed or the regex does not compile.
pub open spec fn subst_args_at(ts: Seq<TokenView>, p: int) -> Option<(Seq<char>, ExprView, int)> {
    if 0 <= p < ts.len() {
        match ts[p] {
            TokenView::Regex(pat, flags) => if regex_compiles(regex_source(pat, flags)) && p + 1 < ts.len()
                && ts[p + 1] == TokenView::Comma && expr_at(ts, p + 2) is Some {
                Some((regex_source(pat, flags), expr_at(ts, p + 2)->0, p + 3))
            } else {
                None
            },
            _ => None,
        }
    } else {
        None
    }
}

/// A statement keyword with its argument at `param`: the statement and
/// where it ends.
pub open spec fn stmt_body_at(ts: Seq<TokenView>, id: Seq<char>, param: int) -> Option<(StmtView, int)> {
    let e = expr_at(ts, param);
    if id == "print"@ {
        match e {
            Some(x) => Some((StmtView::Print(x), param + 1)),
            None => Some((StmtView::Print(ExprView::Identifier("_"@)), param)),
        }
    } else if id == "quit"@ {
        Some((StmtView::Quit, param))
    } else if id == "subst"@ {
        match subst_args_at(ts, param) {
            Some((src, x, end)) => Some((StmtView::Subst(src, x), end)),
            None => None,
        }
    } else if id == "gsubst"@ {
        match subst_args_at(ts, param) {
            Some((src, x, end)) => Some((StmtView::Gsubst(src, x), end)),
            None => None,
        }
    } else if e is None {
        None
    } else if id == "read"@ {
        Some((StmtView::Read(e->0), param + 1))
    } else if id == "write"@ {
        Some((StmtView::Write(e->0), param + 1))
    } else if id == "exec"@ {
        Some((StmtView::Exec(e->0), param + 1))
    } else if id == "append"@ {
        Some((StmtView::Append(e->0), param + 1))
    } else if id == "set"@ {
        Some((StmtView::Assign(e->0), param + 1))
    } else {
        None
    }
}

/// The statement at `pos` and where it ends: a keyword, then its argument
/// either bare or in parentheses; `None` where there is none.
pub open spec fn stmt_at(ts: Seq<TokenView>, pos: int) -> Option<(StmtView, int)> {
    if 0 <= pos < ts.len() {
        match ts[pos] {
            TokenView::Identifier(id) => {
                let parens = pos + 1 < ts.len() && ts[pos + 1] == TokenView::Paren('(');
                let param = if parens { pos + 2 } else { pos + 1 };
                match stmt_body_at(ts, id, param) {
                    Some((st, end)) => if !parens {
                        Some((st, end))
                    } else if 0 <= end < ts.len() && ts[end] == TokenView::Paren(')') {
                        Some((st, end + 1))
                    } else {
                        None
                    },
                    None => None,
                }
            },
            _ => None,
        }
    } else {
        None
    }
}

/// An expression: a string or a name.
fn parse_expression(tokens: &Vec<Token>, pos: usize) -> (r: Result<(Expression, usize), String>)
    ensures
        r matches Ok((_, next)) ==> pos < next <= tokens@.len(),
        match r {
            Ok((e, next)) => expr_at(tokens_view(tokens@), pos as int) == Some(e@) && next == pos + 1,
            Err(_) => expr_at(tokens_view(tokens@), pos as int) is None,
        },
{
    if pos >= tokens.len() {
        return Err("Unexpected EOF".to_owned());
    }
    match &tokens[pos] {
        Token::String(content, interpolated) => Ok(
            (Expression::String(content.clone(), *interpolated), pos + 1),
        ),
        Token::Identifier(name) => Ok((Expression::Identifier(name.clone()), pos + 1)),
        _ => Err(unexpected("a literal or an identifier")),
    }
}

/// The regex and expression of a substitution: `regex, expr`.
fn parse_subst_args(tokens: &Vec<Token>, pos: usize) -> (r: Result<(Rx, Expression, usize), String>)
    ensures
        r matches Ok((_, _, next)) ==> pos < next <= tokens@.len(),
        match r {
            Ok((rx, e, next)) => subst_args_at(tokens_view(tokens@), pos as int) == Some((rx@, e@, next as int)),
            Err(_) => subst_args_at(tokens_view(tokens@), pos as int) is None,
        },
{
    let ntok = tokens.len();
    let rx = if pos < tokens.len() {
        match &tokens[pos] {
            Token::Regex(pat, flags) => to_regex(pat.clone(), flags.clone())?,
            _ => {
                return Err(unexpected("a regex for subst"));
            },
        }
    } else {
        return Err(unexpected("a regex for subst"));
    };
    if !is_comma(tokens, pos + 1) {
        return Err(unexpected("a comma"));
    }
    let (e, next) = parse_expression(tokens, pos + 2)?;
    Ok((rx, e, next))
}

/// A statement: a keyword and its arguments, in parentheses or not. The
/// expression of `print` may be left out: it then prints the line.
pub fn parse_statement(tokens: &Vec<Token>, pos: usize) -> (r: Result<(Statement, usize), String>)
    ensures
        r matches Ok((_, next)) ==> pos < next <= tokens@.len(),
        match r {
            Ok((st, next)) => stmt_at(tokens_view(tokens@), pos as int) == Some((st@, next as int)),
            Err(_) => stmt_at(tokens_view(tokens@), pos as int) is None,
        },
{
    let ntok = tokens.len();
    if pos >= tokens.len() {
        return Err("Unexpected EOF".to_owned());
    }
    let id = match &tokens[pos] {
        Token::Identifier(id) => id,
        _ => {
            return Err(unexpected("an identifier"));
        },
    };
    let parens = is_paren(tokens, pos + 1, '(');
    let param = if parens { pos + 2 } else { pos + 1 };
    let (statement, end) = if word_is(id, "print") {
        if param < tokens.len() && (matches!(tokens[param], Token::String(_, _)) || matches!(tokens[param], Token::Identifier(_))) {
            let (e, p) = parse_expression(tokens, param)?;
            (Statement::Print(e), p)
        } else {
            (Statement::Print(Expression::Identifier("_".to_owned())), param)
        }
    } else if word_is(id, "quit") {
        (Statement::Quit, param)
    } else if word_is(id, "subst") {
        let (rx, e, p) = parse_subst_args(tokens, param)?;
        (Statement::Subst(rx, e), p)
    } else if word_is(id, "gsubst") {
        let (rx, e, p) = parse_subst_args(tokens, param)?;
        (Statement::Gsubst(rx, e), p)
    } else if word_is(id, "read") {
        let (e, p) = parse_expression(tokens, param)?;
        (Statement::Read(e), p)
    } else if word_is(id, "write") {
        let (e, p) = parse_expression(tokens, param)?;
        (Statement::Write(e), p)
    } else if word_is(id, "exec") {
        let (e, p) = parse_expression(tokens, param)?;
        (Statement::Exec(e), p)
    } else if word_is(id, "append") {
        let (e, p) = parse_expression(tokens, param)?;
        (Statement::Append(e), p)
    } else if word_is(id, "set") {
        let (e, p) = parse_expression(tokens, param)?;
        (Statement::Assign(e), p)
    } else {
        return Err(concat("expected a valid statement but received invalid one ", id.as_str()));
    };
    if parens {
        if !is_paren(tokens, end, ')') {
            return Err("unterminated statement".to_owned());
        }
        Ok((statement, end + 1))
    } else {
        Ok((statement, end))
    }
}

/// A disjunction of conjunctions: `a | b`, right-associative.
fn parse_or(tokens: &Vec<Token>, pos: usize) -> (r: Result<(Selector, usize), String>)
    requires
        pos <= tokens@.len(),
    ensures
        match r {
            Ok((sel, next)) => sel_or_at(tokens_view(tokens@), pos as int) == Some((sel_view(sel), next as int)),
            Err(_) => sel_or_at(tokens_view(tokens@), pos as int) is None,
        },
        r matches Ok((_, next)) ==> pos < next <= tokens@.len(),
    decreases tokens@.len() - pos, 5int,
{
    let ntok = tokens.len();
    let (lh, next) = parse_and(tokens, pos)?;
    if is_symbol(tokens, next, '|') {
        let (rh, end) = parse_or(tokens, next + 1)?;
        Ok((Selector::Disjunction(Box::new(lh), Box::new(rh)), end))
    } else {
        Ok((lh, next))
    }
}

/// A conjunction of negations: `a & b`, right-associative.
fn parse_and(tokens: &Vec<Token>, pos: usize) -> (r: Result<(Selector, usize), String>)
    requires
        pos <= tokens@.len(),
    ensures
        match r {
            Ok((sel, next)) => sel_and_at(tokens_view(tokens@), pos as int) == Some((sel_view(sel), next as int)),
            Err(_) => sel_and_at(tokens_view(tokens@), pos as int) is None,
        },
        r matches Ok((_, next)) ==> pos < next <= tokens@.len(),
    decreases tokens@.len() - pos, 4int,
{
    let ntok = tokens.len();
    let (lh, next) = parse_not(tokens, pos)?;
    if is_symbol(tokens, next, '&') {
        let (rh, end) = parse_and(tokens, next + 1)?;
        Ok((Selector::Conjunction(Box::new(lh), Box::new(rh)), end))
    } else {
        Ok((lh, next))
    }
}

/// An optional `!` before a single selector.
fn parse_not(tokens: &Vec<Token>, pos: usize) -> (r: Result<(Selector, usize), String>)
    requires
        pos <= tokens@.len(),
    ensures
        match r {
            Ok((sel, next)) => sel_not_at(tokens_view(tokens@), pos as int) == Some((sel_view(sel), next as int)),
            Err(_) => sel_not_at(tokens_view(tokens@), pos as int) is None,
        },
        r matches Ok((_, next)) ==> pos < next <= tokens@.len(),
    decreases tokens@.len() - pos, 3int,
{
    let ntok = tokens.len();
    if is_symbol(tokens, pos, '!') {
        let (sub, next) = parse_single(tokens, pos + 1)?;
        Ok((Selector::Negate(Box::new(sub)), next))
    } else {
        parse_single(tokens, pos)
    }
}

/// A pattern match, a selector in parentheses, a match, or a range
/// `start, end`.
fn parse_single(tokens: &Vec<Token>, pos: usize) -> (r: Result<(Selector, usize), String>)
    requires
        pos <= tokens@.len(),
    ensures
        match r {
            Ok((sel, next)) => sel_single_at(tokens_view(tokens@), pos as int) == Some((sel_view(sel), next as int)),
            Err(_) => sel_single_at(tokens_view(tokens@), pos as int) is None,
        },
        r matches Ok((_, next)) ==> pos < next <= tokens@.len(),
    decreases tokens@.len() - pos, 2int,
{
    let ntok = tokens.len();
    if is_paren(tokens, pos, '[') {
        let (pm, next) = parse_pattern_match(tokens, pos)?;
        Ok((Selector::Pattern(pm), next))
    } else if is_paren(tokens, pos, '(') {
        let (sel, next) = parse_or(tokens, pos + 1)?;
        if !is_paren(tokens, next, ')') {
            return Err(unexpected("the end of an expression"));
        }
        Ok((sel, next + 1))
    } else {
        let (s, next) = parse_match(tokens, pos)?;
        if !is_comma(tokens, next) {
            return Ok((Selector::Match(s), next));
        }
        let (e, end) = parse_match(tokens, next + 1)?;
        Ok((Selector::Range(Range(s, e)), end))
    }
}

/// Where the body that starts at `pos` ends: a bare statement where no
/// selector starts there; otherwise the selector and either a statement or,
/// after `{`, bodies up to the closing `}`. `None` where there is none.
pub open spec fn body_end(ts: Seq<TokenView>, pos: int) -> Option<int>
    decreases ts.len() - pos, 10int,
{
    match sel_or_at(ts, pos) {
        None => match stmt_at(ts, pos) {
            Some((_, next)) => Some(next),
            None => None,
        },
        Some((_, p)) => if !paren_at(ts, p, '{') {
            match stmt_at(ts, p) {
                Some((_, next)) => Some(next),
                None => None,
            }
        } else if p >= pos {
            close_end(ts, p + 1)
        } else {
            None
        },
    }
}

/// Where the bodies from `cur` up to and including the closing `}` end.
pub open spec fn close_end(ts: Seq<TokenView>, cur: int) -> Option<int>
    decreases ts.len() - cur, 11int,
{
    if paren_at(ts, cur, '}') {
        Some(cur + 1)
    } else if cur < 0 || cur >= ts.len() {
        None
    } else {
        match body_end(ts, cur) {
            Some(n) => if cur < n <= ts.len() {
                close_end(ts, n)
            } else {
                None
            },
            None => None,
        }
    }
}

/// Whether the tokens from `cur` on are a sequence of bodies.
pub open spec fn parses_from(ts: Seq<TokenView>, cur: int) -> bool
    decreases ts.len() - cur,
{
    if cur < 0 || cur >= ts.len() {
        cur == ts.len()
    } else {
        match body_end(ts, cur) {
            Some(n) => cur < n <= ts.len() && parses_from(ts, n),
            None => false,
        }
    }
}

/// Whether `b` is the body that the tokens at `pos` begin with.
pub open spec fn body_is(ts: Seq<TokenView>, pos: int, b: Body) -> bool
    decreases b, 0int, 0int,
{
    match b {
        Body::Bare(st) => sel_or_at(ts, pos) is None && match stmt_at(ts, pos) {
            Some((sv, _)) => sv == st@,
            None => false,
        },
        Body::Single(sel, st) => match sel_or_at(ts, pos) {
            Some((sv, p)) => sv == sel_view(sel) && !paren_at(ts, p, '{') && match stmt_at(ts, p) {
                Some((tv, _)) => tv == st@,
                None => false,
            },
            None => false,
        },
        Body::Guard(sel, blk) => match sel_or_at(ts, pos) {
            Some((sv, p)) => sv == sel_view(sel) && paren_at(ts, p, '{') && !blk.toplevel && match nodes_match(
                ts,
                blk,
                blk.subnodes@.len() as int,
                p + 1,
            ) {
                Some(q) => paren_at(ts, q, '}'),
                None => false,
            },
            None => false,
        },
    }
}

/// Where the first `i` bodies of `blk` end, each the body that the tokens
/// at its start begin with, the first starting at `start`; `None` where one
/// is not.
pub open spec fn nodes_match(ts: Seq<TokenView>, blk: Block, i: int, start: int) -> Option<int>
    decreases blk, 1int, i,
{
    if i == 0 {
        Some(start)
    } else if i < 0 || i > blk.subnodes@.len() {
        None
    } else {
        match nodes_match(ts, blk, i - 1, start) {
            Some(c) => if body_is(ts, c, blk.subnodes@[i - 1]) {
                body_end(ts, c)
            } else {
                None
            },
            None => None,
        }
    }
}

/// Whether `b` is the program that the tokens stand for: a top-level block
/// whose bodies take up all the tokens.
pub open spec fn program_is(ts: Seq<TokenView>, b: Block) -> bool {
    b.toplevel && nodes_match(ts, b, b.subnodes@.len() as int, 0) == Some(ts.len() as int)
}

proof fn lemma_nodes_match_prefix(ts: Seq<TokenView>, a: Block, b: Block, i: int, start: int)
    requires
        0 <= i <= a.subnodes@.len(),
        i <= b.subnodes@.len(),
        forall|j: int| 0 <= j < i ==> a.subnodes@[j] == b.subnodes@[j],
    ensures
        nodes_match(ts, a, i, start) == nodes_match(ts, b, i, start),
    decreases i,
{
    if i > 0 {
        lemma_nodes_match_prefix(ts, a, b, i - 1, start);
    }
}

/// A body: a selector and a statement or a `{ ... }` block, or a bare
/// statement.
fn parse_body(tokens: &Vec<Token>, pos: usize) -> (r: Result<(Body, usize), String>)
    requires
        pos <= tokens@.len(),
    ensures
        match r {
            Ok((b, next)) => body_end(tokens_view(tokens@), pos as int) == Some(next as int) && body_is(
                tokens_view(tokens@),
                pos as int,
                b,
            ) && pos < next <= tokens@.len(),
            Err(_) => body_end(tokens_view(tokens@), pos as int) is None,
        },
    decreases tokens@.len() - pos, 10int,
{
    let ntok = tokens.len();
    match parse_or(tokens, pos) {
        Err(_) => {
            let (st, next) = parse_statement(tokens, pos)?;
            Ok((Body::Bare(st), next))
        },
        Ok((sel, p)) => {
            if !is_paren(tokens, p, '{') {
                let (st, next) = parse_statement(tokens, p)?;
                Ok((Body::Single(sel, st), next))
            } else {
                let (nodes, next) = parse_until_close(tokens, p + 1)?;
                Ok((Body::Guard(sel, Block { subnodes: nodes, toplevel: false }), next))
            }
        },
    }
}

/// Bodies up to and including the closing `}`.
fn parse_until_close(tokens: &Vec<Token>, pos: usize) -> (r: Result<(Vec<Body>, usize), String>)
    requires
        pos <= tokens@.len(),
    ensures
        match r {
            Ok((nodes, next)) => close_end(tokens_view(tokens@), pos as int) == Some(next as int)
                && pos < next <= tokens@.len() && nodes_match(
                tokens_view(tokens@),
                Block { subnodes: nodes, toplevel: false },
                nodes@.len() as int,
                pos as int,
            ) == Some(next - 1) && paren_at(tokens_view(tokens@), next - 1, '}'),
            Err(_) => close_end(tokens_view(tokens@), pos as int) is None,
        },
    decreases tokens@.len() - pos, 11int,
{
    let ntok = tokens.len();
    let ghost tv = tokens_view(tokens@);
    let mut nodes: Vec<Body> = Vec::new();
    let mut cur = pos;
    while !is_paren(tokens, cur, '}')
        invariant
            pos <= cur <= tokens@.len(),
            ntok == tokens@.len(),
            tv == tokens_view(tokens@),
            close_end(tv, pos as int) == close_end(tv, cur as int),
            nodes_match(tv, Block { subnodes: nodes, toplevel: false }, nodes@.len() as int, pos as int)
                == Some(cur as int),
        decreases tokens@.len() - cur,
    {
        if cur >= tokens.len() {
            return Err("unexpected EOF".to_owned());
        }
        let (b, next) = parse_body(tokens, cur)?;
        let ghost prev = Block { subnodes: nodes, toplevel: false };
        nodes.push(b);
        proof {
            let now = Block { subnodes: nodes, toplevel: false };
            lemma_nodes_match_prefix(tv, prev, now, prev.subnodes@.len() as int, pos as int);
            assert(now.subnodes@[prev.subnodes@.len() as int] == b);
        }
        cur = next;
    }
    assert(tv[cur as int] == tokens@[cur as int]@);
    Ok((nodes, cur + 1))
}

/// Parses a token stream into a program: it succeeds exactly where the
/// tokens are a sequence of bodies, and the program it gives is the one
/// they stand for.
pub fn parse(tokens: Vec<Token>) -> (r: Result<Block, String>)
    ensures
        r is Ok <==> parses_from(tokens_view(tokens@), 0),
        r matches Ok(b) ==> program_is(tokens_view(tokens@), b),
{
    let ntok = tokens.len();
    let ghost tv = tokens_view(tokens@);
    let mut nodes: Vec<Body> = Vec::new();
    let mut cur: usize = 0;
    while cur < tokens.len()
        invariant
            cur <= tokens@.len(),
            ntok == tokens@.len(),
            tv == tokens_view(tokens@),
            parses_from(tv, 0) == parses_from(tv, cur as int),
            nodes_match(tv, Block { subnodes: nodes, toplevel: true }, nodes@.len() as int, 0) == Some(cur as int),
        decreases tokens@.len() - cur,
    {
        let (b, next) = parse_body(&tokens, cur)?;
        let ghost prev = Block { subnodes: nodes, toplevel: true };
        nodes.push(b);
        proof {
            let now = Block { subnodes: nodes, toplevel: true };
            lemma_nodes_match_prefix(tv, prev, now, prev.subnodes@.len() as int, 0);
            assert(now.subnodes@[prev.subnodes@.len() as int] == b);
        }
        cur = next;
    }
    Ok(Block { subnodes: nodes, toplevel: true })
}

} // verus!
