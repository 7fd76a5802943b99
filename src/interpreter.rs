//! The whole pipeline: source text to the text of its result.
use vstd::prelude::*;

use crate::env::Environment;
use crate::evaluator::{evaluate, program_outcome, EvalError};
use crate::text::{trim_end, trim_end_text};
use crate::lexer::{lex_from, tokenize, LexError};
use crate::object::{display_text, Object, ObjectView};
use crate::output::{get_output, OutputBuffer};
use crate::parser::{parse_spec, ParseError, ParseErrorView, Parser};
use crate::semantics::EvalErrorView;
use crate::token::{Token, TokenView};

verus! {

/// Why a program produced no result, by the stage that failed.
#[derive(Debug)]
pub enum InterpreterError {
    Lex(LexError),
    Parse(ParseError),
    Eval(EvalError),
    /// The source holds more characters than can be indexed.
    SourceTooLong,
}

/// Why a run failed, as a view.
pub enum RunErrorView {
    Lex(LexError),
    Parse(ParseErrorView),
    Eval(EvalErrorView),
    SourceTooLong,
}

impl InterpreterError {
    pub open spec fn view(&self) -> RunErrorView {
        match self {
            InterpreterError::Lex(e) => RunErrorView::Lex(*e),
            InterpreterError::Parse(e) => RunErrorView::Parse(e@),
            InterpreterError::Eval(e) => RunErrorView::Eval(e@),
            InterpreterError::SourceTooLong => RunErrorView::SourceTooLong,
        }
    }
}

pub open spec fn run_view(r: Result<String, InterpreterError>) -> Result<Seq<char>, RunErrorView> {
    match r {
        Ok(s) => Ok(s@),
        Err(e) => Err(e@),
    }
}

/// What running a source text gives: its tokens, parsed, evaluated in an
/// environment that holds only the native functions, and shown as text.
pub open spec fn run_spec(s: Seq<char>) -> Result<Seq<char>, RunErrorView> {
    if s.len() >= usize::MAX {
        Err(RunErrorView::SourceTooLong)
    } else {
        match lex_from(s, 0) {
            Err(e) => Err(RunErrorView::Lex(e)),
            Ok(ts) => match parse_spec(ts.map_values(|p: (TokenView, int)| p.0)) {
                Err(e) => Err(RunErrorView::Parse(e)),
                Ok(ast) => {
                    let (r, _, o) = program_outcome(ast, Map::empty());
                    match r {
                        Err(x) => Err(RunErrorView::Eval(x)),
                        Ok(v) => Ok(shown_text(v, o)),
                    }
                },
            },
        }
    }
}

/// The text a run shows: the printed output without trailing whitespace
/// where there is any, else the result, `null` and the empty string shown
/// as nothing.
pub open spec fn shown_text(value: ObjectView, output: Seq<char>) -> Seq<char> {
    if output.len() > 0 {
        trim_end_text(output)
    } else {
        match value {
            ObjectView::Null => seq![],
            _ => display_text(value),
        }
    }
}

/// The text a run shows, from its result and what it printed.
pub fn result_text(value: &Object, output: &String) -> (r: String)
    ensures
        r@ == shown_text(value@, output@),
{
    if output.as_str().unicode_len() > 0 {
        trim_end(output)
    } else {
        match value {
            Object::Null => String::new(),
            other => other.to_display_string(),
        }
    }
}

/// Tokenizes, parses and evaluates `source` in a fresh environment.
pub fn run_program(source: &str) -> (r: Result<String, InterpreterError>)
    ensures
        run_view(r) == run_spec(source@),
{
    if source.unicode_len() == usize::MAX {
        return Err(InterpreterError::SourceTooLong);
    }
    let tokens = match tokenize(source) {
        Ok(t) => t,
        Err(e) => {
            return Err(InterpreterError::Lex(e));
        },
    };
    proof {
        let ts = lex_from(source@, 0)->Ok_0;
        assert(tokens@.map_values(|t: Token| t@) =~= ts.map_values(|p: (TokenView, int)| p.0));
    }
    let mut parser = Parser::new(tokens);
    let ast = match parser.parse_program() {
        Ok(a) => a,
        Err(e) => {
            return Err(InterpreterError::Parse(e));
        },
    };
    let mut env = Environment::new();
    assert(env.view() =~= Map::empty());
    let mut out = OutputBuffer::new();
    let value = match evaluate(&ast, &mut env, &mut out) {
        Ok(v) => v,
        Err(e) => {
            return Err(InterpreterError::Eval(e));
        },
    };
    let output = get_output(&out);
    Ok(result_text(&value, &output))
}

} // verus!
