use romulus::{features, lint, lex, parse, to_regex, Effect, Interpreter, Rx, Scope};

fn outputs(prog: &str, lines: &[&str]) -> String {
    let interpreter = Interpreter::new(prog).unwrap();
    let lines: Vec<String> = lines.iter().map(|l| l.to_string()).collect();
    let mut out = String::new();
    for e in interpreter.process(&lines) {
        match e {
            Effect::Output(t) => out.push_str(&t),
            other => panic!("unexpected effect {:?}", other),
        }
    }
    out
}

#[test]
fn overlay_written_twice_changes_nothing() {
    let mut a = Scope::new();
    a.set("x".to_string(), "1".to_string());
    a.set("y".to_string(), "2".to_string());
    let mut b = Scope::new();
    b.set("y".to_string(), "3".to_string());
    b.set("z".to_string(), "4".to_string());
    let once = a.overlay(&b);
    let twice = once.overlay(&b);
    for k in ["x", "y", "z", "w"] {
        assert_eq!(once.get(k), twice.get(k));
    }
    assert_eq!(once.get("x").map(|s| s.as_str()), Some("1"));
    assert_eq!(once.get("y").map(|s| s.as_str()), Some("3"));
    assert_eq!(once.get("z").map(|s| s.as_str()), Some("4"));
    assert_eq!(once.get("w"), None);
}

#[test]
fn scope_set_replaces_and_pick_projects() {
    let mut a = Scope::new();
    a.set("x".to_string(), "1".to_string());
    a.set("x".to_string(), "2".to_string());
    a.set("y".to_string(), "3".to_string());
    assert_eq!(a.get("x").map(|s| s.as_str()), Some("2"));
    let p = a.pick(&vec!["x".to_string(), "q".to_string()]);
    assert_eq!(p.get("x").map(|s| s.as_str()), Some("2"));
    assert_eq!(p.get("y"), None);
    assert_eq!(p.get("q"), None);
}

#[test]
fn cursor_comes_back_after_each_event() {
    let interpreter = Interpreter::new("/a/,/b/ { /c/,/d/ print _ } /x/ & 2,3 print _ /never/ { 1,2 print 'n' }").unwrap();
    let mut env = interpreter.begin();
    assert_eq!(env.tracker.states.len(), 4);
    assert_eq!(env.tracker.pos, 0);
    for line in ["a", "c", "q", "d", "b", "x"] {
        interpreter.line(&mut env, line.to_string());
        assert_eq!(env.tracker.pos, 0);
    }
    interpreter.end(&mut env);
    assert_eq!(env.tracker.pos, 0);
}

#[test]
fn nested_range_in_unfired_guard_keeps_slots_in_step() {
    // The second range must see its own slot even though the first guard's
    // block (holding a range) is not entered.
    assert_eq!(
        outputs("/never/ { /a/,/b/ print 'inner' } /s/,/e/ print _", &["s", "m", "e", "z"]),
        "s\nm\n"
    );
}

#[test]
fn gsubst_without_match_keeps_line() {
    assert_eq!(outputs("gsubst /zzz/, 'q' print _", &["a b  c ", ""]), "a b  c \n\n");
}

#[test]
fn gsubst_with_empty_matches() {
    assert_eq!(outputs("gsubst /x*/, '-' print _", &["ab"]), "-a-b-\n");
}

#[test]
fn quit_stops_implicit_print() {
    assert_eq!(outputs("/quit/ { quit }", &["a", "b", "c", "quit", "e"]), "a\nb\nc\n");
}

#[test]
fn quit_skips_end_event() {
    assert_eq!(outputs("/q/ quit /./ print _ $ print 'end'", &["a", "q", "b"]), "a\n");
    assert_eq!(outputs("/q/ quit /./ print _ $ print 'end'", &["a"]), "a\nend\n");
}

#[test]
fn range_end_line_closes_and_restarts() {
    assert_eq!(outputs("/s/,/s/ print _", &["s1", "x", "s2", "y"]), "s1\nx\ns2\ny\n");
}

#[test]
fn range_scope_comes_from_start_line() {
    assert_eq!(
        outputs("/begin (?P<v>.*)/,/end/ { /item (?P<i>.*)/ print \"${v}:${i}\" }", &["begin A", "item 1", "end", "item 2"]),
        "A:1\n"
    );
}

#[test]
fn disjunction_binds_only_common_names() {
    assert_eq!(outputs("/(?P<a>x)/ | /(?P<b>y)/ print \"[${a}${b}]\"", &["x", "y"]), "[]\n[]\n");
    assert_eq!(outputs("/(?P<a>x)/ | /(?P<a>y)/ print \"[${a}]\"", &["x", "y"]), "[x]\n[y]\n");
}

#[test]
fn negation_binds_nothing() {
    assert_eq!(outputs("!/(?P<a>x)/ print \"[${a}]\"", &["y"]), "[]\n");
}

#[test]
fn interpolation_escapes_and_unbound_names() {
    assert_eq!(outputs("print \"\\${x} ${nope} ${_}\"", &["L"]), "${x}  L\n");
    assert_eq!(outputs("print \"${ notaname} $\"", &["L"]), "${ notaname} $\n");
}

#[test]
fn pattern_fields_and_bindings() {
    assert_eq!(outputs("[/^a/, _, v] print v", &["ab  x   y", "b x y", "ab x"]), "y\n");
    assert_eq!(outputs("['k', v] print \"${v}!\"", &["k 7", "j 8"]), "7!\n");
}

#[test]
fn interpolated_string_pattern() {
    assert_eq!(outputs("/(?P<n>[0-9]+)/ { [\"${n}\", w] print w }", &["5 five", "6x six"]), "five\n");
}

#[test]
fn line_index_match() {
    assert_eq!(outputs("2 print _", &["a", "b", "c"]), "b\n");
}

#[test]
fn append_and_set_outside_lines_do_nothing() {
    assert_eq!(outputs("^ append 'x' ^ set 'y' print _", &["l"]), "l\n");
}

#[test]
fn read_write_exec_effects() {
    let interpreter = Interpreter::new("read 'in.txt' write \"out-${_}\" exec 'ls'").unwrap();
    let effects = interpreter.process(&vec!["ab".to_string()]);
    assert_eq!(
        effects,
        vec![
            Effect::ReadFile("in.txt".to_string()),
            Effect::AppendToFile("out-ab".to_string(), "ab\n".to_string()),
            Effect::Shell("ls".to_string()),
        ]
    );
}

#[test]
fn builder_errors() {
    assert!(Interpreter::builder().build().is_err());
    assert!(Interpreter::builder()
        .expression("print _".to_string())
        .filename("p.rom".to_string())
        .contents("print _".to_string())
        .build()
        .is_err());
    assert!(Interpreter::builder().filename("p.rom".to_string()).build().is_err());
    assert!(Interpreter::builder()
        .filename("p.rom".to_string())
        .contents("print 'x'".to_string())
        .build()
        .is_ok());
    assert!(Interpreter::new("/a/ {").is_err());
    assert!(Interpreter::new("frobnicate").is_err());
    assert!(Interpreter::new("/(/ print _").is_err());
}

#[test]
fn regex_compile_errors() {
    assert!(Rx::new("(").is_err());
    assert_eq!(Rx::new("a+").unwrap().as_str(), "a+");
    assert_eq!(to_regex("a".to_string(), "i".to_string()).unwrap().as_str(), "(?i)a");
    assert!(to_regex("(".to_string(), "".to_string()).is_err());
}

#[test]
fn case_insensitive_flag() {
    assert_eq!(outputs("/hello/i print 'hi'", &["HeLLo"]), "hi\n");
}

#[test]
fn lint_reports_unbound_names() {
    let node = parse(lex("/(?P<a>x)/ { print a print b } print \"${c}${_}\" subst /(?P<d>.)/, \"${d}\"").unwrap()).unwrap();
    let msgs: Vec<String> = lint(&node).iter().map(|m| m.to_string()).collect();
    assert_eq!(msgs, vec!["Undefined variable b".to_string(), "Undefined variable c".to_string()]);
    let interpreter = Interpreter::new("print x print x print y").unwrap();
    let msgs: Vec<String> = interpreter.lint().iter().map(|m| m.to_string()).collect();
    assert_eq!(msgs, vec!["Undefined variable x".to_string(), "Undefined variable y".to_string()]);
}

#[test]
fn features_are_listed() {
    assert_eq!(
        features(),
        vec![(false, "color".to_string()), (false, "envvar".to_string()), (false, "stdin-tty".to_string())]
    );
}

#[test]
fn begin_and_end_only_at_root() {
    assert_eq!(outputs("/x/ { ^ print 'b' } ^ print 'B'", &["x"]), "B\n");
}

#[test]
fn quit_leaves_the_cursor_where_it_stands() {
    let interpreter = Interpreter::new("/a/,/b/ print _ /q/ { quit } /c/,/d/ print _").unwrap();
    let mut env = interpreter.begin();
    interpreter.line(&mut env, "a".to_string());
    assert_eq!(env.tracker.pos, 0);
    interpreter.line(&mut env, "q".to_string());
    assert!(env.finished());
    assert_eq!(env.tracker.pos, 1);
    interpreter.end(&mut env);
    assert_eq!(env.tracker.pos, 1);
}

#[test]
fn regex_error_text() {
    assert_eq!(to_regex("(".to_string(), "i".to_string()).err(), Some("Can not create from /(/i".to_string()));
}
