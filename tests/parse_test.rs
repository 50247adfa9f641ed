use romulus::{lex, parse, Block, Body, Expression, Match, Pattern, PatternMatch, Range, Rx, Selector, Statement};

fn tl(subnodes: Vec<Body>) -> Block {
    Block { subnodes, toplevel: true }
}

fn blk(subnodes: Vec<Body>) -> Block {
    Block { subnodes, toplevel: false }
}

fn rx(p: &str) -> Rx {
    Rx::new(p).unwrap()
}

fn rmatch(p: &str) -> Match {
    Match::Regex(rx(p))
}

fn quote_s(s: &str) -> Expression {
    Expression::String(s.to_string(), false)
}

fn quote(s: &str) -> Expression {
    Expression::String(s.to_string(), true)
}

fn id(s: &str) -> Expression {
    Expression::Identifier(s.to_string())
}

fn parsed(program: &str) -> Result<Block, String> {
    parse(lex(program).unwrap())
}

fn check_basic_parse() {
    assert_eq!(
        parsed("/needle/ { print('found it') }"),
        Ok(tl(vec![Body::Guard(
            Selector::Match(rmatch("needle")),
            blk(vec![Body::Bare(Statement::Print(quote_s("found it")))])
        )]))
    );
}

fn check_basic_statement() {
    assert_eq!(parsed("print('found it')"), Ok(tl(vec![Body::Bare(Statement::Print(quote_s("found it")))])));
}

fn check_parse_range() {
    assert_eq!(
        parsed("/a/,/b/ { print _ }"),
        Ok(tl(vec![Body::Guard(
            Selector::Range(Range(rmatch("a"), rmatch("b"))),
            blk(vec![Body::Bare(Statement::Print(id("_")))])
        )]))
    );
}

fn check_parse_identifiers() {
    assert_eq!(
        parsed("/Type: (?P<type>.*)/ { print(type) }"),
        Ok(tl(vec![Body::Guard(
            Selector::Match(rmatch("Type: (?P<type>.*)")),
            blk(vec![Body::Bare(Statement::Print(id("type")))])
        )]))
    );
}

fn check_parse_pattern_match() {
    assert_eq!(
        parsed("['<none>', _, id] { print(id) }"),
        Ok(tl(vec![Body::Guard(
            Selector::Pattern(PatternMatch {
                patterns: vec![
                    Pattern::String("<none>".to_string(), false),
                    Pattern::Identifier("_".to_string()),
                    Pattern::Identifier("id".to_string()),
                ]
            }),
            blk(vec![Body::Bare(Statement::Print(id("id")))])
        )]))
    );
}

fn check_parse_statement_patterns() {
    assert_eq!(
        parsed("['DONE'] { quit }\n/thing/{print _}"),
        Ok(tl(vec![
            Body::Guard(
                Selector::Pattern(PatternMatch { patterns: vec![Pattern::String("DONE".to_string(), false)] }),
                blk(vec![Body::Bare(Statement::Quit)])
            ),
            Body::Guard(Selector::Match(rmatch("thing")), blk(vec![Body::Bare(Statement::Print(id("_")))])),
        ]))
    );
}

fn check_guarded(program: &str, guard: &str, statement: Statement) {
    assert_eq!(
        parsed(program),
        Ok(tl(vec![Body::Guard(Selector::Match(rmatch(guard)), blk(vec![Body::Bare(statement)]))]))
    );
}

fn check_parse_statement_subst() {
    check_guarded("/thing/ { subst /that/, 'other' }", "thing", Statement::Subst(rx("that"), quote_s("other")));
}

fn check_parse_statement_gsubst() {
    check_guarded("/thing/ { gsubst /that/, 'other' }", "thing", Statement::Gsubst(rx("that"), quote_s("other")));
}

fn check_parse_statement_read() {
    check_guarded("/thing/ { read 'somefile.txt' }", "thing", Statement::Read(quote_s("somefile.txt")));
}

fn check_parse_statement_write() {
    check_guarded("/thing/ { write 'somefile.txt' }", "thing", Statement::Write(quote_s("somefile.txt")));
}

fn check_parse_statement_execute() {
    check_guarded("/thing/ { exec \"echo ${_}\" }", "thing", Statement::Exec(quote("echo ${_}")));
}

fn check_parse_single() {
    assert_eq!(
        parsed("/thing/ exec \"echo ${_}\""),
        Ok(tl(vec![Body::Single(Selector::Match(rmatch("thing")), Statement::Exec(quote("echo ${_}")))]))
    );
}

#[test]
fn parse_basic_parse() {
    check_basic_parse();
}

#[test]
fn tests_basic_parse() {
    check_basic_parse();
}

#[test]
fn parse_basic_statement() {
    check_basic_statement();
}

#[test]
fn tests_basic_statement() {
    check_basic_statement();
}

#[test]
fn parse_parse_range() {
    check_parse_range();
}

#[test]
fn tests_parse_range() {
    check_parse_range();
}

#[test]
fn parse_parse_identifiers() {
    check_parse_identifiers();
}

#[test]
fn tests_parse_identifiers() {
    check_parse_identifiers();
}

#[test]
fn parse_parse_pattern_match() {
    check_parse_pattern_match();
}

#[test]
fn tests_parse_pattern_match() {
    check_parse_pattern_match();
}

#[test]
fn parse_parse_statement_patterns() {
    check_parse_statement_patterns();
}

#[test]
fn tests_parse_statement_patterns() {
    check_parse_statement_patterns();
}

#[test]
fn parse_parse_statement_subst() {
    check_parse_statement_subst();
}

#[test]
fn tests_parse_statement_subst() {
    check_parse_statement_subst();
}

#[test]
fn parse_parse_statement_gsubst() {
    check_parse_statement_gsubst();
}

#[test]
fn tests_parse_statement_gsubst() {
    check_parse_statement_gsubst();
}

#[test]
fn parse_parse_statement_read() {
    check_parse_statement_read();
}

#[test]
fn tests_parse_statement_read() {
    check_parse_statement_read();
}

#[test]
fn parse_parse_statement_write() {
    check_parse_statement_write();
}

#[test]
fn tests_parse_statement_write() {
    check_parse_statement_write();
}

#[test]
fn parse_parse_statement_execute() {
    check_parse_statement_execute();
}

#[test]
fn tests_parse_statement_execute() {
    check_parse_statement_execute();
}

#[test]
fn parse_statement_append() {
    check_guarded("/backup/ { append '.bak' }", "backup", Statement::Append(quote_s(".bak")));
}

#[test]
fn parse_statement_set() {
    check_guarded("/backup/ { set '.bak' }", "backup", Statement::Assign(quote_s(".bak")));
}

#[test]
fn parse_parse_single() {
    check_parse_single();
}

#[test]
fn tests_parse_single() {
    check_parse_single();
}

#[test]
fn parse_negation() {
    assert_eq!(
        parsed("!/thing/ exec \"echo ${_}\""),
        Ok(tl(vec![Body::Single(
            Selector::Negate(Box::new(Selector::Match(rmatch("thing")))),
            Statement::Exec(quote("echo ${_}"))
        )]))
    );
}

#[test]
fn parse_conjunction() {
    assert_eq!(
        parsed("/thing/ & /other/ print _"),
        Ok(tl(vec![Body::Single(
            Selector::Conjunction(
                Box::new(Selector::Match(rmatch("thing"))),
                Box::new(Selector::Match(rmatch("other")))
            ),
            Statement::Print(id("_"))
        )]))
    );
}

#[test]
fn nodes_basic_parse() {
    check_basic_parse();
}

#[test]
fn nodes_basic_func() {
    check_basic_statement();
}

#[test]
fn parse_basic_func() {
    check_basic_statement();
}

fn check_print_line_range() {
    assert_eq!(
        parsed("/a/,/b/ { print() }"),
        Ok(tl(vec![Body::Guard(
            Selector::Range(Range(rmatch("a"), rmatch("b"))),
            blk(vec![Body::Bare(Statement::Print(id("_")))])
        )]))
    );
}

#[test]
fn nodes_parse_range() {
    check_print_line_range();
}

#[test]
fn nodes_parse_identifiers() {
    check_parse_identifiers();
}
