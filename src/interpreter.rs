//! The interpreter: a compiled program, run over a stream of lines.

use vstd::prelude::*;
use crate::ast::{Block, block_ranges, block_significant};
use crate::env::{EffectView, EnvView, Environment, Event, EventView, Bindings, advance, line_of, Effect};
use crate::exec::{nl, perform_block, lemma_block_moves_cursor, cursor_ok};
use crate::lex::{TokenView, lex, lex_from, significant_tokens, tokens_view};
use crate::lint::{LintMessage, dedup, initial_scopes, lint_nodes, undefined_message};
use crate::parse::{parse, parses_from, program_is};
use crate::rx::{Rx, regex_compiles, strings_view};
use crate::text::concat;

verus! {

/// The state at the start of a run: the start of the stream, line zero, no
/// scopes, `n` closed ranges, nothing asked for.
pub open spec fn initial_view(sep: Seq<char>, n: nat) -> EnvView {
    EnvView {
        lineno: 0,
        event: EventView::Begin,
        stack: Seq::<Bindings>::empty(),
        states: Seq::new(n, |i: int| None::<Bindings>),
        pos: 0,
        steps: 0,
        sep,
        out: Seq::<EffectView>::empty(),
        quit: false,
    }
}

/// One line event: the line counter goes up, the program runs on the line,
/// and, unless it quit, the (possibly rewritten) line is printed where
/// `implicit`.
pub open spec fn line_view(blk: Block, implicit: bool, v: EnvView, t: Seq<char>) -> EnvView {
    let w = perform_block(blk, EnvView { lineno: v.lineno + 1, event: EventView::Line(t), ..v });
    if !w.quit && implicit {
        EnvView { out: w.out.push(EffectView::Output(line_of(w.event) + nl())), ..w }
    } else {
        w
    }
}

/// The line events, in order, up to a quit.
pub open spec fn lines_view(blk: Block, implicit: bool, v: EnvView, lines: Seq<Seq<char>>) -> EnvView
    decreases lines.len(),
{
    if lines.len() == 0 {
        v
    } else {
        let w = lines_view(blk, implicit, v, lines.drop_last());
        if w.quit {
            w
        } else {
            line_view(blk, implicit, w, lines.last())
        }
    }
}

/// The end event, unless the program quit.
pub open spec fn end_view(blk: Block, v: EnvView) -> EnvView {
    if v.quit {
        v
    } else {
        perform_block(blk, EnvView { event: EventView::End, ..v })
    }
}

/// A whole run: the start event, each line, and the end event.
pub open spec fn run_view(blk: Block, sep: Seq<char>, implicit: bool, lines: Seq<Seq<char>>) -> EnvView {
    let b = perform_block(blk, initial_view(sep, block_ranges(blk)));
    end_view(blk, lines_view(blk, implicit, b, lines))
}

/// A compiled program, with the separator that splits lines into fields
/// and whether lines are printed where the program prints nothing itself.
pub struct Interpreter {
    node: Block,
    sep: Rx,
    implicit_print: bool,
    prints_lines: bool,
    num_ranges: usize,
}

impl Interpreter {
    #[verifier::type_invariant]
    spec fn inv(&self) -> bool {
        &&& block_ranges(self.node) == self.num_ranges
        &&& self.node.toplevel
        &&& self.prints_lines == (self.implicit_print && !block_significant(self.node))
    }

    /// The program.
    pub closed spec fn program(&self) -> Block {
        self.node
    }

    /// The separator's source text.
    pub closed spec fn separator(&self) -> Seq<char> {
        self.sep@
    }

    /// Whether each line is printed after the program ran on it: where the
    /// program holds no print, read, write or exec, and this was not
    /// switched off.
    pub closed spec fn prints_lines(&self) -> bool {
        self.implicit_print && !block_significant(self.node)
    }

    /// The number of range guards of the program.
    pub closed spec fn slots(&self) -> nat {
        block_ranges(self.node)
    }

    /// Finds the names that the program's statements use where no enclosing
    /// guard can bind them.
    pub fn lint(&self) -> (r: Vec<LintMessage>)
        ensures
            r@.len() == dedup(lint_nodes(self.program(), self.program().subnodes@.len() as int, initial_scopes())).len(),
            forall|i: int| 0 <= i < r@.len() ==> (#[trigger] r@[i]).0@ == undefined_message(
                dedup(lint_nodes(self.program(), self.program().subnodes@.len() as int, initial_scopes()))[i]),
    {
        crate::lint::lint(&self.node)
    }

    /// An interpreter for a program given as text, splitting fields on runs
    /// of spaces and printing lines implicitly.
    pub fn new(program: &str) -> (r: Result<Interpreter, String>)
        ensures
            r is Ok ==> text_parses(program@) && regex_compiles(" +"@),
            text_parses(program@) && regex_compiles(" +"@) && r is Err ==> exists|b: Block|
                program_is(text_tokens(program@), b) && #[trigger] block_ranges(b) > usize::MAX,
            r matches Ok(i) ==> program_is(text_tokens(program@), i.program()),
            r matches Ok(i) ==> i.prints_lines() == !block_significant(i.program()),
            r matches Ok(i) ==> i.separator() == " +"@,
    {
        Interpreter::builder().expression(program.to_owned()).build()
    }

    /// A builder with nothing set.
    pub fn builder() -> (r: Builder)
        ensures
            r.filename is None,
            r.expression is None,
            r.contents is None,
            r.sep is None,
            r.print is None,
    {
        Builder { filename: None, expression: None, contents: None, sep: None, print: None }
    }

    /// Starts a run: a fresh state on which the start event was performed.
    pub fn begin(&self) -> (r: Environment<'_>)
        ensures
            r.wf(self.slots()),
            r@ == perform_block(self.program(), initial_view(self.separator(), self.slots())),
            cursor_ok(r@),
            r@.lineno == 0,
            r.lineno == 0,
    {
        proof {
            use_type_invariant(self);
        }
        let mut env = Environment::new(&self.sep, self.num_ranges);
        assert(env@ =~= initial_view(self.sep@, self.slots()));
        self.node.perform(&mut env);
        proof {
            lemma_block_moves_cursor(self.node, initial_view(self.sep@, self.slots()));
        }
        env
    }

    /// Performs one line event on a run that has not quit.
    pub fn line(&self, env: &mut Environment, text: String)
        requires
            old(env).wf(self.slots()),
            !old(env)@.quit,
            old(env).lineno < i64::MAX,
        ensures
            final(env).wf(self.slots()),
            final(env)@ == line_view(self.program(), self.prints_lines(), old(env)@, text@),
            final(env).lineno == old(env).lineno + 1,
            !final(env)@.quit ==> final(env).tracker.steps@ == old(env).tracker.steps@ + self.slots(),
            !final(env)@.quit ==> final(env).tracker.pos == advance(old(env).tracker.pos as int, self.slots() as int, self.slots() as int),
    {
        proof {
            use_type_invariant(self);
        }
        let ghost t = text@;
        env.lineno = env.lineno + 1;
        env.event = Event::Line(text);
        let ghost pre = env@;
        self.node.perform(env);
        proof {
            lemma_block_moves_cursor(self.node, pre);
        }
        if !env.finished() && self.prints_lines {
            proof {
                reveal_strlit("\n");
            }
            let out = match &env.event {
                Event::Line(l) => concat(l.as_str(), "\n"),
                _ => "\n".to_owned(),
            };
            assert(out@ =~= line_of(env@.event) + nl());
            env.emit(Effect::Output(out));
        }
    }

    /// Performs the end event, unless the run quit.
    pub fn end(&self, env: &mut Environment)
        requires
            old(env).wf(self.slots()),
        ensures
            final(env).wf(self.slots()),
            final(env)@ == end_view(self.program(), old(env)@),
    {
        proof {
            use_type_invariant(self);
        }
        if env.finished() {
            return;
        }
        env.event = Event::End;
        self.node.perform(env);
    }

    /// Runs the program over the lines of a stream, in order: the start
    /// event, each line until a quit, then the end event unless it quit.
    /// Returns the effects asked for, in order.
    pub fn process(&self, lines: &Vec<String>) -> (r: Vec<Effect>)
        requires
            lines@.len() < i64::MAX,
        ensures
            r@.map_values(|e: Effect| e@) == run_view(
                self.program(),
                self.separator(),
                self.prints_lines(),
                strings_view(lines@),
            ).out,
    {
        let mut env = self.begin();
        let ghost start = env@;
        let ghost ls = strings_view(lines@);
        let mut i: usize = 0;
        while i < lines.len()
            invariant
                i <= lines@.len(),
                lines@.len() < i64::MAX,
                ls == strings_view(lines@),
                env.wf(self.slots()),
                env@ == lines_view(self.program(), self.prints_lines(), start, ls.subrange(0, i as int)),
                !env@.quit ==> env.lineno == i,
            decreases lines.len() - i,
        {
            assert(ls.subrange(0, i + 1).drop_last() =~= ls.subrange(0, i as int));
            if env.finished() {
                assert(env@ == lines_view(self.program(), self.prints_lines(), start, ls.subrange(0, i + 1)));
            } else {
                self.line(&mut env, lines[i].clone());
            }
            i += 1;
        }
        assert(ls.subrange(0, i as int) =~= ls);
        self.end(&mut env);
        env.out
    }
}

/// Builds an interpreter from a program (given as text, or as a file name
/// and the file's contents), a separator and the implicit-print switch.
pub struct Builder {
    pub filename: Option<String>,
    pub expression: Option<String>,
    pub contents: Option<String>,
    pub sep: Option<Rx>,
    pub print: Option<bool>,
}

/// The significant tokens of a program text that lexes.
pub open spec fn text_tokens(t: Seq<char>) -> Seq<TokenView> {
    significant_tokens(lex_from(t, 0)->0)
}

/// Whether a program text lexes and parses.
pub open spec fn text_parses(t: Seq<char>) -> bool {
    lex_from(t, 0) is Some && parses_from(text_tokens(t), 0)
}

impl Builder {
    /// The program text: the expression, or the contents of the file, where
    /// exactly one of the two was given (and the file's contents were).
    pub open spec fn program_text(&self) -> Option<Seq<char>> {
        match (self.filename, self.expression) {
            (None, Some(e)) => Some(e@),
            (Some(_), None) => match self.contents {
                Some(c) => Some(c@),
                None => None,
            },
            _ => None,
        }
    }

    /// The significant tokens of the program text.
    pub open spec fn program_tokens(&self) -> Seq<TokenView> {
        text_tokens(self.program_text()->0)
    }

    /// Whether the settings build: a program text that lexes and parses,
    /// and a separator (the default compiles).
    pub open spec fn accepted(&self) -> bool {
        &&& self.program_text() is Some
        &&& text_parses(self.program_text()->0)
        &&& self.sep is None ==> regex_compiles(" +"@)
    }

    /// Sets the name of the file that holds the program.
    pub fn filename(self, filename: String) -> (r: Builder)
        ensures
            r == (Builder { filename: Some(filename), ..self }),
    {
        Builder { filename: Some(filename), ..self }
    }

    /// Sets the contents of the program file, once read.
    pub fn contents(self, contents: String) -> (r: Builder)
        ensures
            r == (Builder { contents: Some(contents), ..self }),
    {
        Builder { contents: Some(contents), ..self }
    }

    /// Sets the program text.
    pub fn expression(self, expression: String) -> (r: Builder)
        ensures
            r == (Builder { expression: Some(expression), ..self }),
    {
        Builder { expression: Some(expression), ..self }
    }

    /// Sets the separator that splits lines into fields.
    pub fn sep(self, sep: Rx) -> (r: Builder)
        ensures
            r == (Builder { sep: Some(sep), ..self }),
    {
        Builder { sep: Some(sep), ..self }
    }

    /// Switches the implicit printing of lines on or off.
    pub fn print(self, print: bool) -> (r: Builder)
        ensures
            r == (Builder { print: Some(print), ..self }),
    {
        Builder { print: Some(print), ..self }
    }

    /// Builds the interpreter: fails where neither or both of a program
    /// text and a program file were given, where the file's contents are
    /// missing, or where the program does not lex or parse. The separator
    /// defaults to runs of spaces, implicit printing to on.
    pub fn build(self) -> (r: Result<Interpreter, String>)
        ensures
            r is Ok ==> self.accepted(),
            self.accepted() && r is Err ==> exists|b: Block|
                program_is(self.program_tokens(), b) && #[trigger] block_ranges(b) > usize::MAX,
            r matches Ok(i) ==> program_is(self.program_tokens(), i.program()),
            r matches Ok(i) ==> i.prints_lines() == (
                (self.print is None || self.print == Some(true)) && !block_significant(i.program())),
            r matches Ok(i) ==> (self.sep matches Some(s) ==> i.separator() == s@),
            r matches Ok(i) ==> (self.sep is None ==> i.separator() == " +"@),
    {
        let ghost me = self;
        let text = match (self.filename, self.expression) {
            (None, None) => {
                return Err("Neither an expression or a file was given".to_owned());
            },
            (Some(_), Some(_)) => {
                return Err("Both expression and file should not be given at the same time".to_owned());
            },
            (Some(name), None) => match self.contents {
                Some(c) => c,
                None => {
                    let a = concat("unable to open file romulus file '", name.as_str());
                    return Err(concat(a.as_str(), "'"));
                },
            },
            (None, Some(expr)) => expr,
        };
        assert(me.program_text() == Some(text@));
        let tokens = lex(text.as_str())?;
        let ghost tv = tokens_view(tokens@);
        assert(tv == me.program_tokens());
        let node = parse(tokens)?;
        let sep = match self.sep {
            Some(s) => s,
            None => Rx::new(" +")?,
        };
        let implicit_print = match self.print {
            Some(p) => p,
            None => true,
        };
        let num_ranges = match node.count_ranges() {
            Some(n) => n,
            None => {
                assert(program_is(tv, node) && block_ranges(node) > usize::MAX);
                return Err("too many ranges".to_owned());
            },
        };
        let prints_lines = implicit_print && !node.significant();
        Ok(Interpreter { node, sep, implicit_print, prints_lines, num_ranges })
    }
}

} // verus!
