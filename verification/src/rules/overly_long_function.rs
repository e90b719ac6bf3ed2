//! `perfectionist::overly_long_function` — flag a function body with
//! more lines of code than the configured maximum.
//!
//! The braces that open and close the body are not counted. A function
//! produced by a macro is not measured, and a nested function's lines
//! count towards the function that contains it.
use crate::code_lines::{count_code_lines, source_line_count};
use crate::rule_index::DefaultState;
use crate::rules::{Diagnostic, MeasuredFn};
use crate::text::{chars_of, decimal, extend_str, push_decimal, string_of};
use vstd::prelude::*;
use vstd::string::StrSliceExecFns;

verus! {

/// The rule's table in `dylint.toml`.
pub const CONFIG_KEY: &'static str = "perfectionist::overly_long_function";

broadcast use vstd::string::group_string_axioms;

/// A body that fits on one screen.
pub const DEFAULT_MAX_LINES: usize = 50;

/// What a body that is too long is told to do.
pub const SPLIT_HELP: &'static str = "split the body into smaller functions, each doing one thing";

/// The rule's configuration.
pub struct Config {
    /// The most lines of code a body may have without being flagged.
    pub max_lines: usize,
    /// Whether test code is left alone.
    pub exempt_tests: bool,
}

impl Config {
    /// `max_lines = 50`, and test code is measured.
    pub fn default() -> (config: Config)
        ensures
            config.max_lines == DEFAULT_MAX_LINES,
            !config.exempt_tests,
    {
        Config { max_lines: DEFAULT_MAX_LINES, exempt_tests: false }
    }
}

/// The `overly_long_function` pass.
pub struct OverlyLongFunction {
    pub config: Config,
}

/// The source between a body's outer braces, or the source unchanged
/// when it is not brace-delimited.
pub open spec fn interior(source: Seq<char>) -> Seq<char> {
    if source.len() >= 2 && source[0] == '{' && source.last() == '}' {
        source.subrange(1, source.len() - 1)
    } else {
        source
    }
}

/// The body's line count.
pub open spec fn body_count(source: Seq<char>) -> nat {
    source_line_count(interior(source))
}

/// The noun for `count` lines.
pub open spec fn lines_noun(count: nat) -> Seq<char> {
    if count == 1 {
        "line"@
    } else {
        "lines"@
    }
}

/// The message for a body of `count` lines against a limit of `max`.
pub open spec fn function_message(kind: Seq<char>, name: Seq<char>, count: nat, max: nat) -> Seq<
    char,
> {
    kind + " `"@ + name + "` has "@ + decimal(count) + " "@ + lines_noun(count)
        + " of code, above the limit of "@ + decimal(max)
}

/// The source between a body's outer braces, or the source unchanged
/// when it is not brace-delimited.
pub fn body_interior(source: &str) -> (inside: &str)
    ensures
        inside@ == interior(source@),
{
    let n = source.unicode_len();
    if n >= 2 && source.get_char(0) == '{' && source.get_char(n - 1) == '}' {
        source.substring_char(1, n - 1)
    } else {
        source
    }
}

impl OverlyLongFunction {
    /// A pass with the given configuration.
    pub fn new(config: Config) -> (pass: OverlyLongFunction)
        ensures
            pass.config == config,
    {
        OverlyLongFunction { config }
    }

    /// Active by default.
    pub fn default_state() -> (state: DefaultState)
        ensures
            state == DefaultState::Active,
    {
        DefaultState::Active
    }

    /// The diagnostic for one function: when it is measured at all, its
    /// body's source is at hand, and the body holds more lines of code
    /// than the limit.
    pub fn check_fn(&self, function: Option<MeasuredFn>, body: Option<String>) -> (report: Option<
        Diagnostic,
    >)
        ensures
            report is Some <==> (function is Some && body is Some && body_count(body->0@)
                > self.config.max_lines),
            report matches Some(d) ==> {
                &&& d.span == function->0.span
                &&& d.message@ == function_message(
                    function->0.kind_label@,
                    function->0.name@,
                    body_count(body->0@),
                    self.config.max_lines as nat,
                )
                &&& d.note is None
                &&& d.helps@.len() == 1 && d.helps@[0]@ == SPLIT_HELP@
            },
    {
        let function = match function {
            Some(function) => function,
            None => {
                return None;
            },
        };
        let source = match &body {
            Some(source) => source,
            None => {
                return None;
            },
        };
        let inside = body_interior(source.as_str());
        let count = count_code_lines(inside);
        if count <= self.config.max_lines {
            return None;
        }
        let max = self.config.max_lines;
        let mut message = chars_of(function.kind_label.as_str());
        extend_str(&mut message, " `");
        extend_str(&mut message, function.name.as_str());
        extend_str(&mut message, "` has ");
        push_decimal(&mut message, count);
        extend_str(&mut message, " ");
        if count == 1 {
            extend_str(&mut message, "line");
        } else {
            extend_str(&mut message, "lines");
        }
        extend_str(&mut message, " of code, above the limit of ");
        push_decimal(&mut message, max);
        let mut helps: Vec<&'static str> = Vec::new();
        helps.push(SPLIT_HELP);
        Some(
            Diagnostic {
                span: function.span,
                message: string_of(message.as_slice()),
                note: None,
                helps,
            },
        )
    }
}

} // verus!
