//! Compile and syntax errors of the cbtml template compiler.
use crate::text::{
    chars_of, dec, line_bounds, lines, pad_left, push_all, push_spaces, ranges_view,
    string_of_range, string_push_str, usize_to_string,
};
use vstd::prelude::*;

verus! {

/// A cbtml error, located at a line and column of a template file.
#[derive(Debug)]
pub enum CbtmlError {
    CompileError {
        file: String,
        line: usize,
        col: usize,
        message: String,
        context: String,
        hint: Option<String>,
    },
    SyntaxError {
        file: String,
        line: usize,
        col: usize,
        message: String,
        context: String,
        hint: Option<String>,
    },
}

/// The mathematical content of a [`CbtmlError`].
pub struct ErrorSpec {
    pub is_compile: bool,
    pub file: Seq<char>,
    pub line: nat,
    pub col: nat,
    pub message: Seq<char>,
    pub context: Seq<char>,
    pub hint: Option<Seq<char>>,
}

impl View for CbtmlError {
    type V = ErrorSpec;

    open spec fn view(&self) -> ErrorSpec {
        match self {
            CbtmlError::CompileError { file, line, col, message, context, hint } => ErrorSpec {
                is_compile: true,
                file: file@,
                line: *line as nat,
                col: *col as nat,
                message: message@,
                context: context@,
                hint: hint.deep_view(),
            },
            CbtmlError::SyntaxError { file, line, col, message, context, hint } => ErrorSpec {
                is_compile: false,
                file: file@,
                line: *line as nat,
                col: *col as nat,
                message: message@,
                context: context@,
                hint: hint.deep_view(),
            },
        }
    }
}

/// One line of an error context: a marker, the right-aligned line number and
/// the source line.
pub open spec fn context_line(ls: Seq<Seq<char>>, i: int, line: nat, width: nat) -> Seq<char> {
    "  "@ + (if i + 1 == line {
        ">"@
    } else {
        " "@
    }) + " "@ + pad_left(dec((i + 1) as nat), width) + " | "@ + ls[i] + "\n"@
}

/// Context lines `i..end`.
pub open spec fn context_lines(ls: Seq<Seq<char>>, i: int, end: int, line: nat, width: nat) -> Seq<
    char,
>
    decreases end - i,
{
    if i >= end {
        Seq::empty()
    } else {
        context_line(ls, i, line, width) + context_lines(ls, i + 1, end, line, width)
    }
}

/// The source lines around `line` (up to two before and two after), each with
/// its number, the error line marked by `>`.
pub open spec fn error_context(source: Seq<char>, line: nat) -> Seq<char> {
    let ls = lines(source);
    let start: int = if line >= 3 {
        line - 3
    } else {
        0
    };
    let end: int = if line + 2 <= ls.len() {
        (line + 2) as int
    } else {
        ls.len() as int
    };
    context_lines(ls, start, end, line, dec(end as nat).len())
}

/// The text shown for an error.
pub open spec fn format_error_spec(
    kind: Seq<char>,
    file: Seq<char>,
    line: nat,
    col: nat,
    context: Seq<char>,
    message: Seq<char>,
    hint: Option<Seq<char>>,
) -> Seq<char> {
    "cbtml "@ + kind + "\n  → "@ + file + ":"@ + dec(line) + ":"@ + dec(col) + "\n\n"@ + context
        + "  错误："@ + message + match hint {
        Some(h) => "\n  提示："@ + h,
        None => Seq::empty(),
    }
}

/// Number of decimal digits of `n`.
fn dec_len(n: usize) -> (r: usize)
    ensures
        r == dec(n as nat).len(),
        1 <= r <= n + 1,
    decreases n,
{
    if n < 10 {
        1
    } else {
        let k = dec_len(n / 10);
        k + 1
    }
}

/// Appends the context lines `i..end` to `out`.
#[verifier::spinoff_prover]
#[verifier::rlimit(40)]
fn push_context_lines(
    out: &mut String,
    v: &Vec<char>,
    b: &Vec<(usize, usize)>,
    start: usize,
    end: usize,
    line: usize,
    width: usize,
)
    requires
        start <= end <= b.len(),
        forall|k: int| 0 <= k < b.len() ==> (#[trigger] b@[k]).0 <= b@[k].1 <= v.len(),
    ensures
        final(out)@ == old(out)@ + context_lines(
            ranges_view(v@, b@),
            start as int,
            end as int,
            line as nat,
            width as nat,
        ),
{
    let ghost ls = ranges_view(v@, b@);
    let mut i = start;
    while i < end
        invariant
            start <= i <= end <= b.len(),
            forall|k: int| 0 <= k < b.len() ==> (#[trigger] b@[k]).0 <= b@[k].1 <= v.len(),
            ls == ranges_view(v@, b@),
            old(out)@ + context_lines(ls, start as int, end as int, line as nat, width as nat)
                == out@ + context_lines(ls, i as int, end as int, line as nat, width as nat),
        decreases end - i,
    {
        let ghost before = out@;
        string_push_str(out, "  ");
        if i + 1 == line {
            string_push_str(out, ">");
        } else {
            string_push_str(out, " ");
        }
        string_push_str(out, " ");
        let num = usize_to_string(i + 1);
        let nl = dec_len(i + 1);
        if nl < width {
            push_spaces(out, width - nl);
        }
        push_all(out, &num);
        string_push_str(out, " | ");
        let (x, y) = b[i];
        let l = string_of_range(v, x, y);
        push_all(out, &l);
        string_push_str(out, "\n");
        proof {
            assert(ls[i as int] == v@.subrange(x as int, y as int));
            let cl = context_line(ls, i as int, line as nat, width as nat);
            assert(out@ == before + cl);
            assert(context_lines(ls, i as int, end as int, line as nat, width as nat) == cl
                + context_lines(ls, i + 1, end as int, line as nat, width as nat));
        }
        i += 1;
    }
}

/// The error context for `line` of `source`.
pub fn build_error_context(source: &str, error_line: usize) -> (r: String)
    requires
        error_line <= usize::MAX - 2,
    ensures
        r@ == error_context(source@, error_line as nat),
{
    let v = chars_of(source);
    let b = line_bounds(&v);
    let start = if error_line >= 3 {
        error_line - 3
    } else {
        0
    };
    let end = if error_line + 2 <= b.len() {
        error_line + 2
    } else {
        b.len()
    };
    let width = dec_len(end);
    let mut ctx = String::new();
    if start <= end {
        push_context_lines(&mut ctx, &v, &b, start, end, error_line, width);
    }
    proof {
        if start > end {
            assert(ctx@ == Seq::<char>::empty());
        }
    }
    ctx
}

/// The text shown for an error: kind, location, context, message and hint.
pub fn format_error(
    kind: &str,
    file: &str,
    line: usize,
    col: usize,
    context: &str,
    message: &str,
    hint: &Option<String>,
) -> (r: String)
    ensures
        r@ == format_error_spec(
            kind@,
            file@,
            line as nat,
            col as nat,
            context@,
            message@,
            hint.deep_view(),
        ),
{
    let mut out = String::new();
    string_push_str(&mut out, "cbtml ");
    string_push_str(&mut out, kind);
    string_push_str(&mut out, "\n  → ");
    string_push_str(&mut out, file);
    string_push_str(&mut out, ":");
    let l = usize_to_string(line);
    push_all(&mut out, &l);
    string_push_str(&mut out, ":");
    let c = usize_to_string(col);
    push_all(&mut out, &c);
    string_push_str(&mut out, "\n\n");
    string_push_str(&mut out, context);
    string_push_str(&mut out, "  错误：");
    string_push_str(&mut out, message);
    match hint {
        Some(h) => {
            string_push_str(&mut out, "\n  提示：");
            push_all(&mut out, h);
        },
        None => {},
    }
    out
}

impl CbtmlError {
    /// A compile error with the source lines around `line` as context.
    pub fn compile(file: &str, line: usize, col: usize, message: String, source: &str) -> (r: Self)
        requires
            line <= usize::MAX - 2,
        ensures
            r@ == (ErrorSpec {
                is_compile: true,
                file: file@,
                line: line as nat,
                col: col as nat,
                message: message@,
                context: error_context(source@, line as nat),
                hint: None,
            }),
    {
        let context = build_error_context(source, line);
        CbtmlError::CompileError {
            file: file.to_owned(),
            line,
            col,
            message,
            context,
            hint: None,
        }
    }

    /// A compile error with context and a hint.
    pub fn compile_with_hint(
        file: &str,
        line: usize,
        col: usize,
        message: String,
        hint: String,
        source: &str,
    ) -> (r: Self)
        requires
            line <= usize::MAX - 2,
        ensures
            r@ == (ErrorSpec {
                is_compile: true,
                file: file@,
                line: line as nat,
                col: col as nat,
                message: message@,
                context: error_context(source@, line as nat),
                hint: Some(hint@),
            }),
    {
        let context = build_error_context(source, line);
        CbtmlError::CompileError {
            file: file.to_owned(),
            line,
            col,
            message,
            context,
            hint: Some(hint),
        }
    }

    /// A syntax error that shows the source lines around `line`.
    pub fn syntax_with_source(
        file: &str,
        line: usize,
        col: usize,
        message: String,
        source: &str,
    ) -> (r: Self)
        requires
            line <= usize::MAX - 2,
        ensures
            r@ == (ErrorSpec {
                is_compile: false,
                file: file@,
                line: line as nat,
                col: col as nat,
                message: message@,
                context: error_context(source@, line as nat),
                hint: None,
            }),
    {
        let context = build_error_context(source, line);
        CbtmlError::SyntaxError {
            file: file.to_owned(),
            line,
            col,
            message,
            context,
            hint: None,
        }
    }

    /// A syntax error located by line and column only (empty context).
    pub fn syntax(file: &str, line: usize, col: usize, message: String) -> (r: Self)
        ensures
            r@ == (ErrorSpec {
                is_compile: false,
                file: file@,
                line: line as nat,
                col: col as nat,
                message: message@,
                context: Seq::empty(),
                hint: None,
            }),
    {
        CbtmlError::SyntaxError {
            file: file.to_owned(),
            line,
            col,
            message,
            context: String::new(),
            hint: None,
        }
    }

    /// The text shown for this error (its `Display` text).
    pub fn to_display_string(&self) -> (r: String)
        ensures
            r@ == format_error_spec(
                if self@.is_compile {
                    "编译错误"@
                } else {
                    "语法错误"@
                },
                self@.file,
                self@.line,
                self@.col,
                self@.context,
                self@.message,
                self@.hint,
            ),
    {
        match self {
            CbtmlError::CompileError { file, line, col, message, context, hint } => format_error(
                "编译错误",
                file.as_str(),
                *line,
                *col,
                context.as_str(),
                message.as_str(),
                hint,
            ),
            CbtmlError::SyntaxError { file, line, col, message, context, hint } => format_error(
                "语法错误",
                file.as_str(),
                *line,
                *col,
                context.as_str(),
                message.as_str(),
                hint,
            ),
        }
    }
}

} // verus!
