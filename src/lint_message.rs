//! The lint message: one finding reported by a linter.
use vstd::prelude::*;
use crate::path::AbsPath;
use crate::text::text_equals;

verus! {

/// How serious a lint message is.
#[derive(Debug, Clone, Copy, PartialEq, Eq, Structural)]
pub enum LintSeverity {
    Error,
    Warning,
    Advice,
    Disabled,
}

impl LintSeverity {
    /// The label shown to people.
    pub open spec fn label_text(self) -> Seq<char> {
        match self {
            LintSeverity::Error => "Error"@,
            LintSeverity::Warning => "Warning"@,
            LintSeverity::Advice => "Advice"@,
            LintSeverity::Disabled => "Disabled"@,
        }
    }

    /// The name used on the wire between linters and the runner.
    pub open spec fn wire_text(self) -> Seq<char> {
        match self {
            LintSeverity::Error => "error"@,
            LintSeverity::Warning => "warning"@,
            LintSeverity::Advice => "advice"@,
            LintSeverity::Disabled => "disabled"@,
        }
    }

    /// The severity whose wire name is `s`.
    pub open spec fn from_wire_text(s: Seq<char>) -> Option<LintSeverity> {
        if s == "error"@ {
            Some(LintSeverity::Error)
        } else if s == "warning"@ {
            Some(LintSeverity::Warning)
        } else if s == "advice"@ {
            Some(LintSeverity::Advice)
        } else if s == "disabled"@ {
            Some(LintSeverity::Disabled)
        } else {
            None
        }
    }

    /// The label shown to people.
    pub fn label(self) -> (r: &'static str)
        ensures
            r@ == self.label_text(),
    {
        match self {
            LintSeverity::Error => "Error",
            LintSeverity::Warning => "Warning",
            LintSeverity::Advice => "Advice",
            LintSeverity::Disabled => "Disabled",
        }
    }

    /// The name used on the wire.
    pub fn wire_name(self) -> (r: &'static str)
        ensures
            r@ == self.wire_text(),
    {
        match self {
            LintSeverity::Error => "error",
            LintSeverity::Warning => "warning",
            LintSeverity::Advice => "advice",
            LintSeverity::Disabled => "disabled",
        }
    }

    /// Reads a severity from its wire name.
    pub fn from_wire(s: &str) -> (r: Option<LintSeverity>)
        ensures
            r == LintSeverity::from_wire_text(s@),
    {
        if text_equals(s, "error") {
            Some(LintSeverity::Error)
        } else if text_equals(s, "warning") {
            Some(LintSeverity::Warning)
        } else if text_equals(s, "advice") {
            Some(LintSeverity::Advice)
        } else if text_equals(s, "disabled") {
            Some(LintSeverity::Disabled)
        } else {
            None
        }
    }
}

/// Reading a severity back from its wire name gives the same severity.
pub proof fn lemma_wire_round_trip(s: LintSeverity)
    ensures
        LintSeverity::from_wire_text(s.wire_text()) == Some(s),
{
    reveal_strlit("error");
    reveal_strlit("warning");
    reveal_strlit("advice");
    reveal_strlit("disabled");
    assert("error"@.len() == 5);
    assert("warning"@.len() == 7);
    assert("advice"@.len() == 6);
    assert("disabled"@.len() == 8);
}

/// A copy of an optional text.
pub fn copy_text(t: &Option<String>) -> (r: Option<String>)
    ensures
        r == *t,
{
    match t {
        Some(s) => Some(s.clone()),
        None => None,
    }
}

/// One finding of a linter, or, without a path, a failure of the linter itself.
#[derive(Debug)]
pub struct LintMessage {
    /// The file the message is about, as the linter reported it.
    pub path: Option<String>,
    pub line: Option<usize>,
    pub char: Option<usize>,
    /// The code of the linter that reported it.
    pub code: String,
    pub severity: LintSeverity,
    /// The kind of finding, e.g. "syntax error".
    pub name: String,
    pub description: Option<String>,
    /// The whole text of the file before the suggested fix.
    pub original: Option<String>,
    /// The whole text of the file after the suggested fix.
    pub replacement: Option<String>,
}

impl Clone for LintMessage {
    fn clone(&self) -> (r: Self)
        ensures
            r == *self,
    {
        LintMessage {
            path: copy_text(&self.path),
            line: self.line,
            char: self.char,
            code: self.code.clone(),
            severity: self.severity,
            name: self.name.clone(),
            description: copy_text(&self.description),
            original: copy_text(&self.original),
            replacement: copy_text(&self.replacement),
        }
    }
}

/// A lint message as a linter writes it, before it is checked: the severity
/// is still its wire name.
#[derive(Debug)]
pub struct RawLintMessage {
    pub path: Option<String>,
    pub line: Option<usize>,
    pub char: Option<usize>,
    pub code: String,
    pub severity: String,
    pub name: String,
    pub description: Option<String>,
    pub original: Option<String>,
    pub replacement: Option<String>,
}

/// Why a raw lint message was refused.
#[derive(Debug, Clone, Copy, PartialEq, Eq, Structural)]
pub enum MessageError {
    /// The severity is none of the four wire names.
    UnknownSeverity,
    /// Only one of the original and the replacement text is present.
    UnpairedPatch,
}

impl MessageError {
    /// A description of the error.
    pub fn message(self) -> (r: &'static str)
        ensures
            r@.len() > 0,
    {
        proof {
            reveal_strlit("unknown lint severity");
            reveal_strlit("a patch needs both the original and the replacement text");
        }
        match self {
            MessageError::UnknownSeverity => "unknown lint severity",
            MessageError::UnpairedPatch => "a patch needs both the original and the replacement text",
        }
    }
}

impl LintMessage {
    /// Carries a patch: the original and the replacement text.
    pub open spec fn has_patch(&self) -> bool {
        self.original is Some && self.replacement is Some
    }

    /// The original and the replacement text are both present or both absent.
    pub open spec fn wf(&self) -> bool {
        self.original is Some == self.replacement is Some
    }

    /// A raw message is accepted: its severity is known and a patch has both
    /// of its texts.
    pub open spec fn accepts(raw: RawLintMessage) -> bool {
        LintSeverity::from_wire_text(raw.severity@) is Some && (raw.original is Some
            == raw.replacement is Some)
    }

    /// The message that a raw message stands for, with the given severity.
    pub open spec fn from_raw_spec(raw: RawLintMessage, severity: LintSeverity) -> LintMessage {
        LintMessage {
            path: raw.path,
            line: raw.line,
            char: raw.char,
            code: raw.code,
            severity,
            name: raw.name,
            description: raw.description,
            original: raw.original,
            replacement: raw.replacement,
        }
    }

    /// Checks a raw message: its severity must be known and a patch must have
    /// both of its texts.
    pub fn from_raw(raw: &RawLintMessage) -> (r: Result<LintMessage, MessageError>)
        ensures
            LintSeverity::from_wire_text(raw.severity@) is None ==> r == Err::<
                LintMessage,
                MessageError,
            >(MessageError::UnknownSeverity),
            LintSeverity::from_wire_text(raw.severity@) is Some && (raw.original is Some
                != raw.replacement is Some) ==> r == Err::<LintMessage, MessageError>(
                MessageError::UnpairedPatch,
            ),
            LintSeverity::from_wire_text(raw.severity@) is Some && (raw.original is Some
                == raw.replacement is Some) ==> r == Ok::<LintMessage, MessageError>(
                LintMessage::from_raw_spec(*raw, LintSeverity::from_wire_text(raw.severity@).unwrap()),
            ),
            r matches Ok(m) ==> m.wf(),
    {
        let severity = match LintSeverity::from_wire(raw.severity.as_str()) {
            Some(s) => s,
            None => {
                return Err(MessageError::UnknownSeverity);
            },
        };
        if raw.original.is_some() != raw.replacement.is_some() {
            return Err(MessageError::UnpairedPatch);
        }
        Ok(
            LintMessage {
                path: copy_text(&raw.path),
                line: raw.line,
                char: raw.char,
                code: raw.code.clone(),
                severity,
                name: raw.name.clone(),
                description: copy_text(&raw.description),
                original: copy_text(&raw.original),
                replacement: copy_text(&raw.replacement),
            },
        )
    }

    /// The text that introduces the context of a linter failure.
    pub open spec fn failure_preamble() -> Seq<char> {
        "Linter failed. This a bug, please file an issue against the linter maintainer.\n\nCONTEXT:\n"@
    }

    /// The message that stands for a failure of the linter `code` itself.
    pub open spec fn failure_spec(code: Seq<char>, context: Seq<char>, m: LintMessage) -> bool {
        &&& m.path is None
        &&& m.line is None
        &&& m.char is None
        &&& m.code@ == code
        &&& m.severity == LintSeverity::Error
        &&& m.name@ == "Linter failed"@
        &&& m.description matches Some(d) && d@ == LintMessage::failure_preamble() + context
        &&& m.original is None
        &&& m.replacement is None
    }

    /// A general message that reports the failure of the linter `code`, with
    /// `context` saying what went wrong.
    pub fn linter_failure(code: &str, context: &str) -> (r: LintMessage)
        ensures
            LintMessage::failure_spec(code@, context@, r),
            r.wf(),
    {
        let mut description = String::from_str(
            "Linter failed. This a bug, please file an issue against the linter maintainer.\n\nCONTEXT:\n",
        );
        description.append(context);
        LintMessage {
            path: None,
            line: None,
            char: None,
            code: String::from_str(code),
            severity: LintSeverity::Error,
            name: String::from_str("Linter failed"),
            description: Some(description),
            original: None,
            replacement: None,
        }
    }
}

/// The message keyed by the file as resolved on disk: where the linter named
/// a file and it was found (`resolved`), the path becomes its canonical form;
/// otherwise the message is kept as it was, so that it is still reported.
pub fn with_resolved_path(m: LintMessage, resolved: Option<AbsPath>) -> (r: LintMessage)
    ensures
        match (m.path, resolved) {
            (Some(_), Some(p)) => r.path matches Some(q) && q@ == p@,
            _ => r.path == m.path,
        },
        r.line == m.line,
        r.char == m.char,
        r.code == m.code,
        r.severity == m.severity,
        r.name == m.name,
        r.description == m.description,
        r.original == m.original,
        r.replacement == m.replacement,
{
    let path = match (&m.path, &resolved) {
        (Some(_), Some(p)) => Some(String::from_str(p.as_pathbuf())),
        _ => copy_text(&m.path),
    };
    LintMessage {
        path,
        line: m.line,
        char: m.char,
        code: m.code,
        severity: m.severity,
        name: m.name,
        description: m.description,
        original: m.original,
        replacement: m.replacement,
    }
}

} // verus!
