//! Diagnostics: what is reported to the user of an error, as a message,
//! labels on spans of source files, and notes.

use vstd::prelude::*;
use codespan::FileId;

verus! {

/// How severe a diagnostic is.
#[derive(Clone, Copy, Debug, PartialEq, Eq, Structural)]
pub enum Severity {
    Bug,
    Error,
    Warning,
    Note,
    Help,
}

/// Whether a label marks the cause of a diagnostic or gives context.
#[derive(Clone, Copy, Debug, PartialEq, Eq, Structural)]
pub enum LabelStyle {
    Primary,
    Secondary,
}

/// An underlined region of a source file, with a message.
#[derive(Clone, Debug, PartialEq, Eq)]
pub struct Label {
    pub style: LabelStyle,
    pub file_id: FileId,
    pub start: usize,
    pub end: usize,
    pub message: String,
}

/// What a label holds.
pub struct LabelView {
    pub style: LabelStyle,
    pub file_id: FileId,
    pub start: usize,
    pub end: usize,
    pub message: Seq<char>,
}

impl View for Label {
    type V = LabelView;

    open spec fn view(&self) -> LabelView {
        LabelView {
            style: self.style,
            file_id: self.file_id,
            start: self.start,
            end: self.end,
            message: self.message@,
        }
    }
}

impl DeepView for Label {
    type V = LabelView;

    open spec fn deep_view(&self) -> LabelView {
        self@
    }
}

impl Label {
    /// A label without a message.
    pub fn new(style: LabelStyle, file_id: FileId, start: usize, end: usize) -> (l: Label)
        ensures
            l@ == (LabelView { style, file_id, start, end, message: Seq::<char>::empty() }),
    {
        Label { style, file_id, start, end, message: String::new() }
    }

    /// A primary label without a message.
    pub fn primary(file_id: FileId, start: usize, end: usize) -> (l: Label)
        ensures
            l@ == (LabelView {
                style: LabelStyle::Primary,
                file_id,
                start,
                end,
                message: Seq::<char>::empty(),
            }),
    {
        Label::new(LabelStyle::Primary, file_id, start, end)
    }

    /// A secondary label without a message.
    pub fn secondary(file_id: FileId, start: usize, end: usize) -> (l: Label)
        ensures
            l@ == (LabelView {
                style: LabelStyle::Secondary,
                file_id,
                start,
                end,
                message: Seq::<char>::empty(),
            }),
    {
        Label::new(LabelStyle::Secondary, file_id, start, end)
    }

    /// The label with `message` as its message.
    pub fn with_message(self, message: String) -> (l: Label)
        ensures
            l@ == (LabelView { message: message@, ..self@ }),
    {
        Label { message, ..self }
    }
}

/// A diagnostic: a severity, a message, labels and notes.
#[derive(Clone, Debug, PartialEq, Eq)]
pub struct Diagnostic {
    pub severity: Severity,
    pub code: Option<String>,
    pub message: String,
    pub labels: Vec<Label>,
    pub notes: Vec<String>,
}

/// What a diagnostic holds.
pub struct DiagnosticView {
    pub severity: Severity,
    pub code: Option<Seq<char>>,
    pub message: Seq<char>,
    pub labels: Seq<LabelView>,
    pub notes: Seq<Seq<char>>,
}

impl View for Diagnostic {
    type V = DiagnosticView;

    open spec fn view(&self) -> DiagnosticView {
        DiagnosticView {
            severity: self.severity,
            code: match self.code {
                Some(c) => Some(c@),
                None => None,
            },
            message: self.message@,
            labels: self.labels.deep_view(),
            notes: self.notes.deep_view(),
        }
    }
}

impl DeepView for Diagnostic {
    type V = DiagnosticView;

    open spec fn deep_view(&self) -> DiagnosticView {
        self@
    }
}

/// The diagnostic of severity `severity` without message, labels or notes.
pub open spec fn spec_blank(severity: Severity) -> DiagnosticView {
    DiagnosticView {
        severity,
        code: None,
        message: Seq::<char>::empty(),
        labels: Seq::<LabelView>::empty(),
        notes: Seq::<Seq<char>>::empty(),
    }
}

impl Diagnostic {
    /// A diagnostic of severity `severity` without message, labels or notes.
    pub fn new(severity: Severity) -> (d: Diagnostic)
        ensures
            d@ == spec_blank(severity),
    {
        let d = Diagnostic {
            severity,
            code: None,
            message: String::new(),
            labels: Vec::new(),
            notes: Vec::new(),
        };
        assert(d.labels.deep_view() =~= Seq::<LabelView>::empty());
        assert(d.notes.deep_view() =~= Seq::<Seq<char>>::empty());
        d
    }

    /// An error without message, labels or notes.
    pub fn error() -> (d: Diagnostic)
        ensures
            d@ == spec_blank(Severity::Error),
    {
        Diagnostic::new(Severity::Error)
    }

    /// A note without message, labels or notes.
    pub fn note() -> (d: Diagnostic)
        ensures
            d@ == spec_blank(Severity::Note),
    {
        Diagnostic::new(Severity::Note)
    }

    /// The diagnostic with `message` as its message.
    pub fn with_message(self, message: String) -> (d: Diagnostic)
        ensures
            d@ == (DiagnosticView { message: message@, ..self@ }),
    {
        Diagnostic { message, ..self }
    }

    /// The diagnostic with `labels` behind its labels.
    pub fn with_labels(self, labels: Vec<Label>) -> (d: Diagnostic)
        ensures
            d@ == (DiagnosticView { labels: self@.labels + labels.deep_view(), ..self@ }),
    {
        let mut labels = labels;
        let mut d = self;
        let ghost left = d.labels.deep_view();
        let ghost right = labels.deep_view();
        let ghost l0 = d.labels@;
        let ghost r0 = labels@;
        d.labels.append(&mut labels);
        proof {
            assert(d.labels@ == l0 + r0);
            assert(d.labels.deep_view() =~= left + right) by {
                assert(d.labels.deep_view().len() == (left + right).len());
                assert forall|i: int| 0 <= i < d.labels@.len() implies d.labels.deep_view()[i] == (
                left + right)[i] by {
                    if i < l0.len() {
                        assert(left[i] == l0[i]@);
                    } else {
                        assert(right[i - l0.len()] == r0[i - l0.len()]@);
                    }
                }
            }
        }
        d
    }

    /// The diagnostic with `notes` behind its notes.
    pub fn with_notes(self, notes: Vec<String>) -> (d: Diagnostic)
        ensures
            d@ == (DiagnosticView { notes: self@.notes + notes.deep_view(), ..self@ }),
    {
        let mut notes = notes;
        let mut d = self;
        let ghost left = d.notes.deep_view();
        let ghost right = notes.deep_view();
        let ghost l0 = d.notes@;
        let ghost r0 = notes@;
        d.notes.append(&mut notes);
        proof {
            assert(d.notes@ == l0 + r0);
            assert(d.notes.deep_view() =~= left + right) by {
                assert(d.notes.deep_view().len() == (left + right).len());
                assert forall|i: int| 0 <= i < d.notes@.len() implies d.notes.deep_view()[i] == (
                left + right)[i] by {
                    if i < l0.len() {
                        assert(left[i] == l0[i]@);
                    } else {
                        assert(right[i - l0.len()] == r0[i - l0.len()]@);
                    }
                }
            }
        }
        d
    }
}

} // verus!
