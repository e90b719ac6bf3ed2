//! `perfectionist::overly_long_file` — flag a source file with more
//! lines of code than the configured maximum.
//!
//! Each source file of the crate is measured: the crate root and every
//! `mod name;` that lives in a file of its own. An inline
//! `mod name { ... }` is part of the file that holds it.
use crate::code_lines::{count_code_lines, source_line_count};
use crate::rule_index::DefaultState;
use crate::rules::Diagnostic;
use crate::source::Span;
use crate::text::{chars_of, decimal, extend_str, push_decimal, string_of};
use vstd::prelude::*;

verus! {

/// The rule's table in `dylint.toml`.
pub const CONFIG_KEY: &'static str = "perfectionist::overly_long_file";

broadcast use vstd::string::group_string_axioms;

/// A file a reader can still hold as one thing.
pub const DEFAULT_MAX_LINES: usize = 500;

/// What a file that is too long is told to do.
pub const SPLIT_HELP: &'static str = "split the file into modules: name each for what it holds, not where the file was cut; if each needs most of the other's items, the lines moved rather than the concerns separated";

/// The rule's configuration.
pub struct Config {
    /// The most lines of code a file may have without being flagged.
    pub max_lines: usize,
    /// Whether files of test code are left alone.
    pub exempt_tests: bool,
}

impl Config {
    /// `max_lines = 500`, and test files are measured.
    pub fn default() -> (config: Config)
        ensures
            config.max_lines == DEFAULT_MAX_LINES,
            !config.exempt_tests,
    {
        Config { max_lines: DEFAULT_MAX_LINES, exempt_tests: false }
    }
}

/// What the pass knows of one module.
pub struct Module {
    /// Whether the module is the crate root.
    pub is_crate_root: bool,
    /// The span of the module's contents.
    pub inner_span: Span,
    /// Whether the module's contents sit in the same file as its
    /// declaration, as an inline module's do.
    pub inline: bool,
    /// Whether the module is test code.
    pub in_test_code: bool,
    /// The source of the file holding the module's contents, where the
    /// source map has it.
    pub source: Option<String>,
    /// The file's name, as diagnostics show it.
    pub file_name: String,
}

/// The `overly_long_file` pass.
pub struct OverlyLongFile {
    pub config: Config,
}

/// Whether the module is the whole of a file: the crate root, or a
/// module whose contents live in a file other than its declaration's.
pub open spec fn spec_own_file(module: Module) -> bool {
    module.is_crate_root || !module.inline
}

/// The file's line count, when the module is measured at all.
pub open spec fn file_count(module: Module) -> nat {
    source_line_count(module.source.unwrap()@)
}

/// Whether the module's file is reported.
pub open spec fn is_reported(config: Config, module: Module) -> bool {
    &&& spec_own_file(module)
    &&& !(config.exempt_tests && module.in_test_code)
    &&& module.source is Some
    &&& file_count(module) > config.max_lines
}

/// The message for a file of `count` lines against a limit of `max`.
pub open spec fn file_message(name: Seq<char>, count: nat, max: nat) -> Seq<char> {
    "file `"@ + name + "` has "@ + decimal(count) + " lines of code, above the limit of "@
        + decimal(max)
}

/// The file `module` is the whole of: the crate root's file, or the
/// file an out-of-line `mod name;` names. An inline module's contents
/// belong to the file that declares it.
pub fn own_file(module: &Module) -> (own: bool)
    ensures
        own == spec_own_file(*module),
{
    module.is_crate_root || !module.inline
}

/// The point a file's diagnostic is anchored at: the empty span at the
/// start of the module's inner span, the first thing its file holds.
pub fn inner(module: &Module) -> (anchor: Span)
    ensures
        anchor.lo == module.inner_span.lo,
        anchor.hi == module.inner_span.lo,
{
    Span { lo: module.inner_span.lo, hi: module.inner_span.lo }
}

impl OverlyLongFile {
    /// A pass with the given configuration.
    pub fn new(config: Config) -> (pass: OverlyLongFile)
        ensures
            pass.config == config,
    {
        OverlyLongFile { config }
    }

    /// Active by default.
    pub fn default_state() -> (state: DefaultState)
        ensures
            state == DefaultState::Active,
    {
        DefaultState::Active
    }

    /// The diagnostic for `module`'s file: when the module is the whole
    /// of a file, is not exempt test code, and the file holds more lines
    /// of code than the limit.
    pub fn check_mod(&self, module: &Module) -> (report: Option<Diagnostic>)
        ensures
            report is Some <==> is_reported(self.config, *module),
            report matches Some(d) ==> {
                &&& d.span.lo == module.inner_span.lo && d.span.hi == module.inner_span.lo
                &&& d.message@ == file_message(
                    module.file_name@,
                    file_count(*module),
                    self.config.max_lines as nat,
                )
                &&& d.note is None
                &&& d.helps@.len() == 1 && d.helps@[0]@ == SPLIT_HELP@
            },
    {
        if !own_file(module) {
            return None;
        }
        if self.config.exempt_tests && module.in_test_code {
            return None;
        }
        let source = match &module.source {
            Some(source) => source,
            None => {
                return None;
            },
        };
        let count = count_code_lines(source.as_str());
        if count <= self.config.max_lines {
            return None;
        }
        let max = self.config.max_lines;
        let mut message = chars_of("file `");
        extend_str(&mut message, module.file_name.as_str());
        extend_str(&mut message, "` has ");
        push_decimal(&mut message, count);
        extend_str(&mut message, " lines of code, above the limit of ");
        push_decimal(&mut message, max);
        let mut helps: Vec<&'static str> = Vec::new();
        helps.push(SPLIT_HELP);
        Some(
            Diagnostic {
                span: inner(module),
                message: string_of(message.as_slice()),
                note: None,
                helps,
            },
        )
    }
}

} // verus!
