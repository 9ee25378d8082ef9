//! Errors, warnings and notes reported to the user, each pointing at spans of the
//! source.

use vstd::prelude::*;

use crate::span::Span;
use crate::text::string_of;

verus! {

#[derive(Debug, Clone, Copy, PartialEq, Eq, Structural)]
pub enum Severity {
    Error,
    Warning,
    Note,
}

impl Severity {
    /// The name under which the severity is shown.
    pub fn as_str(&self) -> (r: &'static str)
        ensures
            r@ == match *self {
                Severity::Error => "error"@,
                Severity::Warning => "warning"@,
                Severity::Note => "note"@,
            },
    {
        match self {
            Severity::Error => "error",
            Severity::Warning => "warning",
            Severity::Note => "note",
        }
    }
}

/// What a label says: its text, where it points, and whether it is the primary one.
pub struct LabelView {
    pub label: Seq<char>,
    pub span: Span,
    pub is_primary: bool,
}

#[derive(Debug, Clone)]
pub struct Label {
    label: String,
    span: Span,
    is_primary: bool,
}

impl View for Label {
    type V = LabelView;

    closed spec fn view(&self) -> LabelView {
        LabelView { label: self.label@, span: self.span, is_primary: self.is_primary }
    }
}

impl Label {
    pub fn label(&self) -> (r: &String)
        ensures
            r@ == self@.label,
    {
        &self.label
    }

    pub fn span(&self) -> (r: Span)
        ensures
            r == self@.span,
    {
        self.span
    }

    pub fn is_primary(&self) -> (r: bool)
        ensures
            r == self@.is_primary,
    {
        self.is_primary
    }
}

/// What a diagnostic says.
pub struct DiagnosticView {
    pub severity: Severity,
    pub message: Seq<char>,
    pub help: Option<Seq<char>>,
    pub code: Option<Seq<char>>,
    pub labels: Seq<LabelView>,
}

pub open spec fn opt_string_view(o: Option<String>) -> Option<Seq<char>> {
    match o {
        Some(s) => Some(s@),
        None => None,
    }
}

#[derive(Debug, Clone)]
pub struct Diagnostic {
    severity: Severity,
    message: String,
    help: Option<String>,
    code: Option<String>,
    labels: Vec<Label>,
}

impl View for Diagnostic {
    type V = DiagnosticView;

    closed spec fn view(&self) -> DiagnosticView {
        DiagnosticView {
            severity: self.severity,
            message: self.message@,
            help: opt_string_view(self.help),
            code: opt_string_view(self.code),
            labels: self.labels@.map_values(|l: Label| l@),
        }
    }
}

/// The view of a diagnostic as built by [`Diagnostic::new`].
pub open spec fn new_diagnostic_view(
    severity: Severity,
    message: Seq<char>,
    span: Span,
    label: Seq<char>,
) -> DiagnosticView {
    DiagnosticView {
        severity,
        message,
        help: None,
        code: None,
        labels: seq![LabelView { label, span, is_primary: true }],
    }
}

impl Diagnostic {
    /// A diagnostic with one primary label `label` at `span`.
    pub fn new(severity: Severity, message: String, span: Span, label: String) -> (r: Self)
        ensures
            r@ == new_diagnostic_view(severity, message@, span, label@),
    {
        let labels = vec![Label { label, span, is_primary: true }];
        let r = Self { severity, message, code: None, help: None, labels };
        assert(r@.labels =~= seq![LabelView { label: label@, span, is_primary: true }]);
        r
    }

    pub fn with_help(self, help: String) -> (r: Self)
        ensures
            r@ == (DiagnosticView { help: Some(help@), ..self@ }),
    {
        let mut s = self;
        s.help = Some(help);
        s
    }

    pub fn with_code(self, code: String) -> (r: Self)
        ensures
            r@ == (DiagnosticView { code: Some(code@), ..self@ }),
    {
        let mut s = self;
        s.code = Some(code);
        s
    }

    /// Adds a secondary label.
    pub fn with_label(self, label: String, span: Span) -> (r: Self)
        ensures
            r@ == (DiagnosticView {
                labels: self@.labels.push(LabelView { label: label@, span, is_primary: false }),
                ..self@
            }),
    {
        let mut s = self;
        let ghost before = s.labels@;
        s.labels.push(Label { label, span, is_primary: false });
        assert(s.labels@.map_values(|l: Label| l@) =~= before.map_values(|l: Label| l@).push(
            LabelView { label: label@, span, is_primary: false },
        ));
        s
    }

    pub fn severity(&self) -> (r: Severity)
        ensures
            r == self@.severity,
    {
        self.severity
    }

    pub fn message(&self) -> (r: &String)
        ensures
            r@ == self@.message,
    {
        &self.message
    }

    pub fn help(&self) -> (r: Option<&String>)
        ensures
            match r {
                Some(h) => self@.help == Some(h@),
                None => self@.help is None,
            },
    {
        match &self.help {
            Some(h) => Some(h),
            None => None,
        }
    }

    pub fn code(&self) -> (r: Option<&String>)
        ensures
            match r {
                Some(c) => self@.code == Some(c@),
                None => self@.code is None,
            },
    {
        match &self.code {
            Some(c) => Some(c),
            None => None,
        }
    }

    pub fn labels(&self) -> (r: &Vec<Label>)
        ensures
            r@.map_values(|l: Label| l@) == self@.labels,
    {
        &self.labels
    }
}

/// An error diagnostic whose message and label are given as literals.
pub fn error_at(message: &str, span: Span, label: String) -> (r: Diagnostic)
    ensures
        r@ == new_diagnostic_view(Severity::Error, message@, span, label@),
{
    Diagnostic::new(Severity::Error, string_of(message), span, label)
}

} // verus!
