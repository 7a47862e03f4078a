pub mod codegen;
pub mod error;
pub mod filters;
pub mod lexer;
pub mod parser;

use crate::cbtml::codegen::{gen, generate};
use crate::cbtml::error::{CbtmlError, ErrorSpec};
use crate::cbtml::lexer::{lex_source, tokenize, try_tokenize};
use crate::cbtml::parser::{parse, parse_spec};
use crate::text::byte_len;
use vstd::prelude::*;

verus! {

/// The result of compiling cbtml source: lexing, parsing and code
/// generation (`None`: the lexer would panic on this source).
pub open spec fn compile_spec(src: Seq<char>, file: Seq<char>) -> Option<Result<Seq<char>, ErrorSpec>> {
    match lex_source(src, file) {
        None => None,
        Some(Err(e)) => Some(Err(e)),
        Some(Ok(ts)) => Some(
            match parse_spec(ts, file) {
                Ok(n) => Ok(gen(n)),
                Err(e) => Err(e),
            },
        ),
    }
}

/// Compiles cbtml source into a MiniJinja template.
pub fn compile(source: &str, file_name: &str) -> (r: Result<String, CbtmlError>)
    requires
        byte_len(source@) <= isize::MAX,
        lex_source(source@, file_name@) is Some,
    ensures
        compile_spec(source@, file_name@) == Some(
            match r {
                Ok(s) => Ok::<Seq<char>, ErrorSpec>(s@),
                Err(e) => Err(e@),
            },
        ),
{
    let tokens = match tokenize(source, file_name) {
        Ok(t) => t,
        Err(e) => {
            return Err(e);
        },
    };
    let ast = match parse(tokens, file_name) {
        Ok(a) => a,
        Err(e) => {
            return Err(e);
        },
    };
    match generate(&ast) {
        Ok(s) => Ok(s),
        Err(e) => Err(e),
    }
}

/// Compiles cbtml source into a MiniJinja template; `None` for source that
/// the lexer cannot slice (a line opening a comment as `{#}`).
pub fn try_compile(source: &str, file_name: &str) -> (r: Option<Result<String, CbtmlError>>)
    requires
        byte_len(source@) <= isize::MAX,
    ensures
        compile_spec(source@, file_name@) == match r {
            Some(x) => Some(
                match x {
                    Ok(s) => Ok::<Seq<char>, ErrorSpec>(s@),
                    Err(e) => Err(e@),
                },
            ),
            None => None,
        },
{
    let tokens = match try_tokenize(source, file_name) {
        None => return None,
        Some(Err(e)) => return Some(Err(e)),
        Some(Ok(t)) => t,
    };
    let ast = match parse(tokens, file_name) {
        Ok(a) => a,
        Err(e) => {
            return Some(Err(e));
        },
    };
    match generate(&ast) {
        Ok(s) => Some(Ok(s)),
        Err(e) => Some(Err(e)),
    }
}

} // verus!
