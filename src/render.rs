//! The text of rendered lint messages, apart from terminal styling.
use vstd::prelude::*;
use crate::aggregate::LintResults;
use crate::lint_message::LintMessage;
use crate::diff::{pad_left, padded_left};
use crate::text::{decimal, decimal_text};

verus! {

/// Whether anything was reported.
#[derive(Debug, Clone, Copy, PartialEq, Eq, Structural)]
pub enum PrintedLintErrors {
    Yes,
    No,
}

/// How lint messages are shown.
#[derive(Debug, Clone, Copy, PartialEq, Eq, Structural)]
pub enum RenderOpt {
    /// Grouped by file, with descriptions, diffs and source context.
    Default,
    /// One JSON object per message.
    Json,
    /// One line per message.
    Oneline,
}

/// The lines of source shown around a lint.
pub open spec fn context_lines() -> nat {
    3
}

/// Whether the aggregate reports anything.
pub fn printed_for(results: &LintResults) -> (r: PrintedLintErrors)
    requires
        results.wf(),
    ensures
        r == if results@.dom() =~= Set::<Option<Seq<char>>>::empty() {
            PrintedLintErrors::No
        } else {
            PrintedLintErrors::Yes
        },
{
    if results.is_empty() {
        PrintedLintErrors::No
    } else {
        PrintedLintErrors::Yes
    }
}

/// The process exit code: 1 where anything was reported, else 0.
pub fn exit_code(printed: PrintedLintErrors) -> (r: i32)
    ensures
        r == match printed {
            PrintedLintErrors::Yes => 1i32,
            PrintedLintErrors::No => 0i32,
        },
{
    match printed {
        PrintedLintErrors::Yes => 1,
        PrintedLintErrors::No => 0,
    }
}

/// The summary line of a message: `  Error (CODE) name`.
pub open spec fn summary_text(m: LintMessage) -> Seq<char> {
    "  "@ + m.severity.label_text() + " ("@ + m.code@ + ") "@ + m.name@
}

/// The summary line of a message, unstyled.
pub fn summary_line(m: &LintMessage) -> (r: String)
    ensures
        r@ == summary_text(*m),
{
    let mut s = String::from_str("  ");
    s.append(m.severity.label());
    s.append(" (");
    s.append(m.code.as_str());
    s.append(") ");
    s.append(m.name.as_str());
    s
}

/// An optional number in decimal; nothing where it is absent.
pub open spec fn opt_decimal(n: Option<usize>) -> Seq<char> {
    match n {
        Some(v) => decimal(v as nat),
        None => Seq::<char>::empty(),
    }
}

/// The one-line form of a message: `path:line:column code name`.
pub open spec fn oneline_text(display_path: Seq<char>, m: LintMessage) -> Seq<char> {
    display_path + ":"@ + opt_decimal(m.line) + ":"@ + opt_decimal(m.char) + " "@ + m.code@
        + " "@ + m.name@
}

fn append_opt_decimal(s: &mut String, n: Option<usize>)
    ensures
        final(s)@ == old(s)@ + opt_decimal(n),
{
    match n {
        Some(v) => {
            let d = decimal_text(v);
            s.append(d.as_str());
        },
        None => {
            assert(old(s)@ + Seq::<char>::empty() =~= old(s)@);
        },
    }
}

/// The one-line form of a message, for a file shown as `display_path`.
pub fn oneline(m: &LintMessage, display_path: &str) -> (r: String)
    ensures
        r@ == oneline_text(display_path@, *m),
{
    let mut s = String::from_str(display_path);
    s.append(":");
    append_opt_decimal(&mut s, m.line);
    s.append(":");
    append_opt_decimal(&mut s, m.char);
    s.append(" ");
    s.append(m.code.as_str());
    s.append(" ");
    s.append(m.name.as_str());
    s
}

/// The first and last index (both included) of the source lines shown
/// around the one-based line `highlight_line` of a file of `n_lines` lines.
pub open spec fn context_window(highlight_line: nat, n_lines: nat) -> (nat, nat) {
    let highlight = if highlight_line == 0 {
        0
    } else {
        (highlight_line - 1) as nat
    };
    let max_idx = if n_lines == 0 {
        0
    } else {
        (n_lines - 1) as nat
    };
    let start = if highlight >= context_lines() {
        (highlight - context_lines()) as nat
    } else {
        0
    };
    let end = if max_idx < highlight + context_lines() {
        max_idx
    } else {
        highlight + context_lines()
    };
    (start, end)
}

/// The first and last index (both included) of the source lines to show
/// around a lint's line.
pub fn context_range(highlight_line: usize, n_lines: usize) -> (r: (usize, usize))
    ensures
        (r.0 as nat, r.1 as nat) == context_window(highlight_line as nat, n_lines as nat),
{
    let highlight: usize = if highlight_line == 0 {
        0
    } else {
        highlight_line - 1
    };
    let max_idx: usize = if n_lines == 0 {
        0
    } else {
        n_lines - 1
    };
    let start: usize = if highlight >= 3 {
        highlight - 3
    } else {
        0
    };
    let end: usize = if highlight >= max_idx || max_idx - highlight < 3 {
        max_idx
    } else {
        highlight + 3
    };
    (start, end)
}

/// The width of the widest line number of a file of `n_lines` lines.
pub fn line_number_width(n_lines: usize) -> (r: usize)
    ensures
        r as nat == decimal((if n_lines == 0 {
            1
        } else {
            n_lines
        }) as nat).len(),
{
    let largest: usize = if n_lines == 0 {
        1
    } else {
        n_lines
    };
    let d = decimal_text(largest);
    d.unicode_len()
}

/// What is shown below a message's description.
#[derive(Debug, Clone, Copy, PartialEq, Eq, Structural)]
pub enum MessageDetail {
    /// The diff of the suggested fix.
    Diff,
    /// The source lines around the given one-based line.
    Context(usize),
    /// Nothing more.
    Nothing,
}

/// A message with a fix shows its diff; else one about a line of a file shows
/// the source around that line.
pub fn detail_of(m: &LintMessage) -> (r: MessageDetail)
    ensures
        r == if m.original is Some && m.replacement is Some {
            MessageDetail::Diff
        } else if m.line is Some && m.path is Some {
            MessageDetail::Context(m.line.unwrap())
        } else {
            MessageDetail::Nothing
        },
{
    if m.original.is_some() && m.replacement.is_some() {
        MessageDetail::Diff
    } else {
        match (m.line, &m.path) {
            (Some(line), Some(_)) => MessageDetail::Context(line),
            _ => MessageDetail::Nothing,
        }
    }
}

/// The gutter of a source line shown as context: a marker on the lint's own
/// line, then the one-based line number right-aligned to `width`.
pub open spec fn context_gutter_text(index: usize, highlighted: bool, width: nat) -> Seq<char> {
    (if highlighted {
        "    >>> "@
    } else {
        "        "@
    }) + padded_left(decimal(index as nat + 1), width) + "  |"@
}

/// The gutter of the source line at `index`.
pub fn context_gutter(index: usize, highlighted: bool, width: usize) -> (r: String)
    requires
        index < usize::MAX,
    ensures
        r@ == context_gutter_text(index, highlighted, width as nat),
{
    let mut s = if highlighted {
        String::from_str("    >>> ")
    } else {
        String::from_str("        ")
    };
    let number = decimal_text(index + 1);
    let padded = pad_left(number.as_str(), width);
    s.append(padded.as_str());
    s.append("  |");
    s
}

} // verus!
