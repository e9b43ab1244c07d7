//! Errors of evaluation and the diagnostics that report them.

use vstd::prelude::*;
use vstd::string::StringExecFns;
use vstd::utf8::encode_utf8;
use codespan::{FileId, Files};
use crate::callstack::{CallDescr, CallStack, spec_last_field};
use crate::diagnostic::{Diagnostic, DiagnosticView, LabelStyle, LabelView, Label as Mark, Severity};
use crate::error::{
    error_with, Ident, kind_name, label_alt, labelled, no_notes, one_label, one_note, pos_labels,
    primary_alt, primary_term, push_diagnostic, push_label, RichTerm, secondary_alt, secondary_term,
    SerializationError, single, spec_error, spec_files_alt, spec_kind_name, spec_label_alt,
    spec_label_msg, spec_pos_labels, spec_snippet_name, styled,
};
use crate::escape::{ascii_chars, escape, spec_escape};
use crate::files::{
    file_known, file_short, files_room_for, files_sources, files_with, RawSpan, same_file, TermPos,
};
use crate::label::{
    blame_label_note, has_no_arrow, is_only_codom, Label, report_ty_path, spec_blame_label_note,
    spec_has_no_arrow, spec_is_only_codom, spec_path_label, spec_path_notes,
};
use crate::text::{decimal, join2, join3, spec_decimal};

verus! {

/// What is said of an error that should not happen.
pub open spec fn spec_internal_error_msg() -> Seq<char> {
    "This error should not happen. This is likely a bug in the Nickel interpreter. Please considerreporting it at https://github.com/tweag/nickel/issues with the above error message."@
}

/// What is said of an error that should not happen.
pub fn internal_error_msg() -> (r: String)
    ensures
        r@ == spec_internal_error_msg(),
{
    "This error should not happen. This is likely a bug in the Nickel interpreter. Please considerreporting it at https://github.com/tweag/nickel/issues with the above error message.".to_owned()
}

/// An error occurring during evaluation.
#[derive(Clone, Debug, PartialEq, Eq)]
pub enum EvalError {
    /// A blame occurred: a contract has been broken somewhere.
    BlameError(Label, CallStack),
    /// A field required by a record contract is missing a definition.
    MissingFieldDef(Option<Label>, CallStack),
    /// Mismatch between the expected type and the actual type of an
    /// expression: the expected type, the operation, the position of the
    /// unevaluated expression, and the evaluated expression.
    TypeError(String, String, TermPos, RichTerm),
    /// A term which is not a function has been applied to an argument: the
    /// term, the argument, and the position of the application.
    NotAFunc(RichTerm, RichTerm, TermPos),
    /// A record operation requiring a field has been performed on a record
    /// missing that field: the field, the operator, the record, the
    /// position of the operation.
    FieldMissing(String, String, RichTerm, TermPos),
    /// Too few arguments were provided to a builtin function: the count
    /// that it requires, the function, and the position.
    NotEnoughArgs(usize, String, TermPos),
    /// Attempted to merge incompatible values: the two operands and the
    /// position of the merge.
    MergeIncompatibleArgs(RichTerm, RichTerm, TermPos),
    /// An unbound identifier was referenced.
    UnboundIdentifier(Ident, TermPos),
    /// A thunk was entered during its own update.
    InfiniteRecursion(CallStack, TermPos),
    /// A serialization error occurred during a call to the builtin
    /// `serialize`.
    SerializationError(SerializationError),
    /// A parse error occurred during a call to the builtin `deserialize`:
    /// the format, the message, and the position of the call.
    DeserializationError(String, String, TermPos),
    /// An unexpected internal error.
    InternalError(String, TermPos),
    /// Errors occurring rarely enough to not deserve a dedicated variant.
    Other(String, TermPos),
}

/// What reporting an error yields: the diagnostics, and the files as they
/// are afterwards.
pub struct Report {
    pub diagnostics: Seq<DiagnosticView>,
    pub files: Files<String>,
}

/// The label `v` with the message `m`.
pub open spec fn said(v: LabelView, m: Seq<char>) -> LabelView {
    LabelView { message: m, ..v }
}

/// The escaped form of a text.
pub open spec fn spec_escaped(s: Seq<char>) -> Seq<char> {
    ascii_chars(spec_escape(encode_utf8(s)))
}

/// The name of a function that was called, or `<func>` if it has none.
pub open spec fn spec_call_name(head: Option<Ident>) -> Seq<char> {
    match head {
        Some(ident) => ident.label@,
        None => "<func>"@,
    }
}

/// The name of a function that was called, or `<func>` if it has none.
pub fn call_name(head: &Option<Ident>) -> (r: String)
    ensures
        r@ == spec_call_name(*head),
{
    match head {
        Some(ident) => ident.label.clone(),
        None => "<func>".to_owned(),
    }
}

/// A note with the one label `label`.
pub open spec fn spec_note(label: LabelView) -> DiagnosticView {
    DiagnosticView {
        severity: Severity::Note,
        code: None,
        message: Seq::<char>::empty(),
        labels: seq![label],
        notes: Seq::<Seq<char>>::empty(),
    }
}

/// A note with the one label `label`.
pub fn note_with(label: Mark) -> (d: Diagnostic)
    ensures
        d@ == spec_note(label@),
{
    let d = Diagnostic::note().with_labels(one_label(label));
    assert(d@.labels =~= seq![label@]);
    d
}

/// The notes on the calls that returned: the `n` first of `calls`, each
/// numbered from one.
pub open spec fn spec_call_notes(calls: Seq<CallDescr>, n: int) -> Seq<DiagnosticView>
    decreases n,
{
    if n <= 0 {
        Seq::<DiagnosticView>::empty()
    } else {
        spec_call_notes(calls, n - 1).push(
            spec_note(
                spec_label_msg(
                    LabelStyle::Secondary,
                    calls[n - 1].span,
                    "("@ + spec_decimal(n as nat) + ") calling "@ + spec_call_name(
                        calls[n - 1].head,
                    ),
                ),
            ),
        )
    }
}

/// The notes on the calls of a stack: on the call that was running, if
/// there is one, and on the calls that returned.
pub open spec fn spec_stack_notes(stack: &CallStack) -> Seq<DiagnosticView> {
    spec_current_note(stack) + spec_call_notes(stack.calls@, stack.calls@.len() as int)
}

/// The note on the call that was running, if there is one.
pub open spec fn spec_current_note(stack: &CallStack) -> Seq<DiagnosticView> {
    match stack.curr_call {
        Some(call) => seq![
            spec_note(
                spec_label_msg(
                    LabelStyle::Primary,
                    call.span,
                    "While calling to "@ + spec_call_name(call.head),
                ),
            ),
        ],
        None => Seq::<DiagnosticView>::empty(),
    }
}

/// Adds the notes on the calls of a stack behind `diagnostics`.
pub fn push_stack_notes(diagnostics: &mut Vec<Diagnostic>, stack: &CallStack)
    ensures
        final(diagnostics).deep_view() == old(diagnostics).deep_view() + spec_stack_notes(stack),
{
    let ghost start = diagnostics.deep_view();
    let ghost first: Seq<DiagnosticView> = spec_current_note(stack);
    match &stack.curr_call {
        Some(call) => {
            let name = call_name(&call.head);
            let text = join2("While calling to ", name.as_str());
            push_diagnostic(
                diagnostics,
                note_with(styled(LabelStyle::Primary, &call.span).with_message(text)),
            );
        },
        None => {},
    }
    proof {
        assert(diagnostics.deep_view() =~= start + first);
    }
    let mut i: usize = 0;
    while i < stack.calls.len()
        invariant
            i <= stack.calls@.len(),
            diagnostics.deep_view() == start + first + spec_call_notes(stack.calls@, i as int),
        decreases stack.calls@.len() - i,
    {
        let call = &stack.calls[i];
        let name = call_name(&call.head);
        let number = decimal(i + 1);
        let mut text = join3("(", number.as_str(), ") calling ");
        text.append(name.as_str());
        push_diagnostic(
            diagnostics,
            note_with(styled(LabelStyle::Secondary, &call.span).with_message(text)),
        );
        i = i + 1;
        proof {
            assert(diagnostics.deep_view() =~= start + first + spec_call_notes(
                stack.calls@,
                i as int,
            ));
        }
    }
    proof {
        assert(start + first + spec_call_notes(stack.calls@, stack.calls@.len() as int) =~= start
            + spec_stack_notes(stack));
    }
}

/// Which labels show the value that a contract checked, once it is
/// evaluated: a label on the expression that it comes from, if there is a
/// span for one, and whether a label on the value itself.
pub open spec fn spec_value_case(
    val_pos: TermPos,
    arg_pos: Option<RawSpan>,
    contract_id: Option<FileId>,
) -> (Option<RawSpan>, bool) {
    match val_pos {
        TermPos::Original(span) => if contract_id is Some && span.src_id == contract_id->0 {
            (None, true)
        } else if arg_pos == Some(span) {
            (None, false)
        } else {
            (Some(span), false)
        },
        TermPos::Inherited(span) => if arg_pos == Some(span) {
            (None, true)
        } else {
            (Some(span), true)
        },
        TermPos::Absent => (None, true),
    }
}

/// Whether `a` is the span `b`.
fn is_span(a: &Option<RawSpan>, b: &RawSpan) -> (r: bool)
    ensures
        r == (*a == Some(*b)),
{
    match a {
        Some(span) => span.same(b),
        None => false,
    }
}

/// Which labels show the value that a contract checked.
pub fn value_case(val_pos: &TermPos, arg_pos: &Option<RawSpan>, contract_id: &Option<FileId>) -> (r:
    (Option<RawSpan>, bool))
    ensures
        r == spec_value_case(*val_pos, *arg_pos, *contract_id),
{
    match val_pos {
        TermPos::Original(span) => {
            let builtin: bool = match contract_id {
                Some(id) => same_file(span.src_id, *id),
                None => false,
            };
            if builtin {
                (None, true)
            } else if is_span(arg_pos, span) {
                (None, false)
            } else {
                (Some(*span), false)
            }
        },
        TermPos::Inherited(span) => {
            if is_span(arg_pos, span) {
                (None, true)
            } else {
                (Some(*span), true)
            }
        },
        TermPos::Absent => (None, true),
    }
}

impl EvalError {
    /// The message of a blame error.
    pub open spec fn spec_blame_message(l: &Label) -> Seq<char> {
        (if spec_has_no_arrow(l.path@) {
            "contract broken by a value"@
        } else if l.polarity {
            "contract broken by a function"@
        } else {
            "contract broken by the caller"@
        }) + (if encode_utf8(l.tag@).len() as usize != 0 {
            ": "@ + spec_escaped(l.tag@)
        } else {
            Seq::<char>::empty()
        })
    }

    /// The label on the expression that a contract was applied to, unless
    /// that expression stands in the file of the builtin contracts.
    pub open spec fn spec_applied(l: &Label, contract_id: Option<FileId>) -> Seq<LabelView> {
        match l.arg_pos.spec_into_opt() {
            Some(span) => if contract_id is None || span.src_id != contract_id->0 {
                seq![spec_label_msg(LabelStyle::Primary, span, "applied to this expression"@)]
            } else {
                Seq::<LabelView>::empty()
            },
            None => Seq::<LabelView>::empty(),
        }
    }

    /// The labels that show the value that a contract checked, when the
    /// files are `files`.
    pub open spec fn spec_evaluated(
        l: &Label,
        contract_id: Option<FileId>,
        files: Files<String>,
    ) -> Seq<LabelView> {
        match l.arg_thunk {
            Some(val) => {
                let case = spec_value_case(val.pos, l.arg_pos.spec_into_opt(), contract_id);
                (match case.0 {
                    Some(span) => seq![
                        spec_label_msg(
                            LabelStyle::Secondary,
                            span,
                            "evaluated to this expression"@,
                        ),
                    ],
                    None => Seq::<LabelView>::empty(),
                }) + (if case.1 {
                    seq![
                        said(
                            spec_label_alt(None, val.repr@, LabelStyle::Secondary, files),
                            "evaluated to this value"@,
                        ),
                    ]
                } else {
                    Seq::<LabelView>::empty()
                })
            },
            None => Seq::<LabelView>::empty(),
        }
    }

    /// Whether reporting a blame adds the value that was checked to the
    /// files.
    pub open spec fn shows_value(l: &Label, contract_id: Option<FileId>) -> bool {
        l.arg_thunk is Some && spec_value_case(
            l.arg_thunk->0.pos,
            l.arg_pos.spec_into_opt(),
            contract_id,
        ).1
    }

    /// What reporting a blame error yields.
    pub open spec fn spec_blame(
        l: &Label,
        stack: &CallStack,
        files: Files<String>,
        contract_id: Option<FileId>,
    ) -> Report {
        let typed = files_with(files, ""@, l.types@);
        Report {
            diagnostics: seq![
                spec_error(
                    EvalError::spec_blame_message(l),
                    seq![spec_path_label(l, files)] + EvalError::spec_applied(l, contract_id)
                        + EvalError::spec_evaluated(l, contract_id, typed),
                    spec_path_notes(l.path@, l.polarity),
                ),
                spec_blame_label_note(l),
            ] + (if !spec_is_only_codom(l.path@) && contract_id is Some {
                crate::eval_error::spec_stack_notes(stack)
            } else {
                Seq::<DiagnosticView>::empty()
            }),
            files: if EvalError::shows_value(l, contract_id) {
                files_with(typed, spec_snippet_name(), l.arg_thunk->0.repr@)
            } else {
                typed
            },
        }
    }

    /// Reports a blame error.
    pub fn blame(l: &Label, stack: &CallStack, files: &mut Files<String>, contract_id: Option<FileId>) -> (r:
        Vec<Diagnostic>)
        requires
            files_room_for(*old(files), 2),
            spec_has_no_arrow(l.path@) ==> l.polarity,
        ensures
            r.deep_view() == EvalError::spec_blame(l, stack, *old(files), contract_id).diagnostics,
            *final(files) == EvalError::spec_blame(l, stack, *old(files), contract_id).files,
            files_sources(*final(files)).len() <= files_sources(*old(files)).len() + 2,
            forall|other: FileId| #[trigger]
                file_known(*old(files), other) ==> file_known(*final(files), other),
            forall|other: FileId| #[trigger]
                file_short(*old(files), other) ==> file_short(*final(files), other),
    {
        let ghost f0 = *files;
        let mut msg: String = if has_no_arrow(&l.path) {
            "contract broken by a value".to_owned()
        } else if l.polarity {
            "contract broken by a function".to_owned()
        } else {
            "contract broken by the caller".to_owned()
        };
        if l.tag.as_str().len() != 0 {
            msg.append(": ");
            let escaped = escape(l.tag.as_str());
            msg.append(escaped.as_str());
        }
        proof {
            assert(msg@ =~= EvalError::spec_blame_message(l));
        }
        let (path_label, notes) = report_ty_path(l, files);
        let ghost f1 = *files;
        let mut labels = one_label(path_label);
        let arg_pos = l.arg_pos.into_opt();
        match &arg_pos {
            Some(span) => {
                let builtin: bool = match contract_id {
                    Some(id) => same_file(span.src_id, id),
                    None => false,
                };
                if !builtin {
                    push_label(
                        &mut labels,
                        labelled(LabelStyle::Primary, span, "applied to this expression"),
                    );
                }
            },
            None => {},
        }
        proof {
            assert(labels.deep_view() =~= seq![spec_path_label(l, f0)] + EvalError::spec_applied(
                l,
                contract_id,
            ));
        }
        match &l.arg_thunk {
            Some(val) => {
                let case = value_case(&val.pos, &arg_pos, &contract_id);
                match &case.0 {
                    Some(span) => {
                        push_label(
                            &mut labels,
                            labelled(LabelStyle::Secondary, span, "evaluated to this expression"),
                        );
                    },
                    None => {},
                }
                if case.1 {
                    let shown = label_alt(None, val.repr.clone(), LabelStyle::Secondary, files);
                    push_label(
                        &mut labels,
                        shown.with_message("evaluated to this value".to_owned()),
                    );
                }
            },
            None => {},
        }
        proof {
            assert(labels.deep_view() =~= seq![spec_path_label(l, f0)] + EvalError::spec_applied(
                l,
                contract_id,
            ) + EvalError::spec_evaluated(l, contract_id, f1));
        }
        let mut diagnostics = single(error_with(msg, labels, notes));
        push_diagnostic(&mut diagnostics, blame_label_note(l));
        if !is_only_codom(&l.path) {
            match contract_id {
                Some(_) => {
                    push_stack_notes(&mut diagnostics, stack);
                },
                None => {},
            }
        }
        proof {
            assert(diagnostics.deep_view() =~= EvalError::spec_blame(
                l,
                stack,
                f0,
                contract_id,
            ).diagnostics);
        }
        diagnostics
    }

    /// What reporting a missing field definition yields.
    pub open spec fn spec_missing_field_def(label: &Option<Label>, stack: &CallStack) -> Seq<
        DiagnosticView,
    > {
        let found = spec_last_field(stack.elems@, stack.elems@.len() as int, None, None);
        seq![
            spec_error(
                "missing definition for `"@ + (match found.field {
                    Some(f) => f,
                    None => "?"@,
                }) + "`"@,
                spec_pos_labels(
                    LabelStyle::Primary,
                    found.pos_record.spec_into_opt(),
                    "in this record"@,
                ) + spec_pos_labels(
                    LabelStyle::Secondary,
                    match found.pos_access {
                        Some(pos) => pos.spec_into_opt(),
                        None => None,
                    },
                    "accessed here"@,
                ),
                Seq::<Seq<char>>::empty(),
            ),
        ] + (match *label {
            Some(l) => seq![spec_blame_label_note(&l)],
            None => Seq::<DiagnosticView>::empty(),
        })
    }

    /// Reports a missing field definition. The field is the one that the
    /// youngest elements of the call stack name.
    pub fn missing_field_def(label: &Option<Label>, stack: &CallStack) -> (r: Vec<Diagnostic>)
        ensures
            r.deep_view() == EvalError::spec_missing_field_def(label, stack),
    {
        let (field, pos_record, pos_access) = stack.last_field();
        let ghost found = spec_last_field(stack.elems@, stack.elems@.len() as int, None, None);
        let mut labels = pos_labels(LabelStyle::Primary, pos_record.into_opt(), "in this record");
        let access: Option<RawSpan> = match pos_access {
            Some(pos) => pos.into_opt(),
            None => None,
        };
        match access {
            Some(span) => {
                push_label(&mut labels, labelled(LabelStyle::Secondary, &span, "accessed here"));
            },
            None => {},
        }
        proof {
            assert(labels.deep_view() =~= spec_pos_labels(
                LabelStyle::Primary,
                found.pos_record.spec_into_opt(),
                "in this record"@,
            ) + spec_pos_labels(LabelStyle::Secondary, access, "accessed here"@));
        }
        let name: String = match field {
            Some(f) => f,
            None => "?".to_owned(),
        };
        let message = join3("missing definition for `", name.as_str(), "`");
        let mut diagnostics = single(error_with(message, labels, no_notes()));
        match label {
            Some(l) => {
                push_diagnostic(&mut diagnostics, blame_label_note(l));
            },
            None => {},
        }
        proof {
            assert(diagnostics.deep_view() =~= EvalError::spec_missing_field_def(label, stack));
        }
        diagnostics
    }

    /// What the label on an expression of the wrong type says.
    pub open spec fn spec_type_error_label(expd: Seq<char>, t: &RichTerm) -> Seq<char> {
        "this expression has type "@ + spec_kind_name(t) + ", but "@ + expd + " was expected"@
    }

    /// What reporting a type error yields.
    pub open spec fn spec_type_error(
        expd: Seq<char>,
        msg: Seq<char>,
        orig_pos: TermPos,
        t: &RichTerm,
        files: Files<String>,
    ) -> Report {
        let label = EvalError::spec_type_error_label(expd, t);
        Report {
            diagnostics: seq![
                spec_error(
                    "type error"@,
                    match orig_pos.spec_into_opt() {
                        Some(pos) => if orig_pos != t.pos {
                            seq![
                                spec_label_msg(LabelStyle::Primary, pos, label),
                                said(
                                    spec_label_alt(
                                        t.pos.spec_into_opt(),
                                        t.repr@,
                                        LabelStyle::Secondary,
                                        files,
                                    ),
                                    "evaluated to this"@,
                                ),
                            ]
                        } else {
                            seq![
                                said(
                                    spec_label_alt(
                                        t.pos.spec_into_opt(),
                                        t.repr@,
                                        LabelStyle::Primary,
                                        files,
                                    ),
                                    label,
                                ),
                            ]
                        },
                        None => seq![
                            said(
                                spec_label_alt(
                                    t.pos.spec_into_opt(),
                                    t.repr@,
                                    LabelStyle::Primary,
                                    files,
                                ),
                                label,
                            ),
                        ],
                    },
                    seq![msg],
                ),
            ],
            files: spec_files_alt(t.pos.spec_into_opt(), t.repr@, files),
        }
    }

    /// Reports a type error.
    pub fn type_error(expd: &String, msg: &String, orig_pos: &TermPos, t: &RichTerm, files: &mut Files<String>) -> (r:
        Vec<Diagnostic>)
        requires
            files_room_for(*old(files), 1),
        ensures
            r.deep_view() == EvalError::spec_type_error(expd@, msg@, *orig_pos, t, *old(
                files,
            )).diagnostics,
            *final(files) == EvalError::spec_type_error(expd@, msg@, *orig_pos, t, *old(files)).files,
            files_sources(*final(files)).len() <= files_sources(*old(files)).len() + 1,
            forall|other: FileId| #[trigger]
                file_known(*old(files), other) ==> file_known(*final(files), other),
            forall|other: FileId| #[trigger]
                file_short(*old(files), other) ==> file_short(*final(files), other),
    {
        let kind = kind_name(t);
        let mut label = join3("this expression has type ", kind.as_str(), ", but ");
        label.append(expd.as_str());
        label.append(" was expected");
        proof {
            assert(label@ =~= EvalError::spec_type_error_label(expd@, t));
        }
        let apart: Option<RawSpan> = match orig_pos.into_opt() {
            Some(pos) => if !orig_pos.same(&t.pos) {
                Some(pos)
            } else {
                None
            },
            None => None,
        };
        let labels = match apart {
            Some(pos) => {
                let mut labels = one_label(styled(LabelStyle::Primary, &pos).with_message(label));
                push_label(
                    &mut labels,
                    secondary_term(t, files).with_message("evaluated to this".to_owned()),
                );
                labels
            },
            None => one_label(primary_term(t, files).with_message(label)),
        };
        let d = error_with("type error".to_owned(), labels, one_note(msg.clone()));
        proof {
            assert(d@.labels =~= EvalError::spec_type_error(
                expd@,
                msg@,
                *orig_pos,
                t,
                *old(files),
            ).diagnostics[0].labels);
        }
        single(d)
    }

    /// What the snippet that stands for an application holds.
    pub open spec fn spec_application(t: &RichTerm, arg: &RichTerm) -> Seq<char> {
        "("@ + t.repr@ + ") ("@ + arg.repr@ + ")"@
    }

    /// What reporting the application of a term that is no function yields.
    pub open spec fn spec_not_a_func(
        t: &RichTerm,
        arg: &RichTerm,
        pos: TermPos,
        files: Files<String>,
    ) -> Report {
        let mid = spec_files_alt(t.pos.spec_into_opt(), t.repr@, files);
        Report {
            diagnostics: seq![
                spec_error(
                    "not a function"@,
                    seq![
                        said(
                            spec_label_alt(
                                t.pos.spec_into_opt(),
                                t.repr@,
                                LabelStyle::Primary,
                                files,
                            ),
                            "this term is applied, but it is not a function"@,
                        ),
                        said(
                            spec_label_alt(
                                pos.spec_into_opt(),
                                EvalError::spec_application(t, arg),
                                LabelStyle::Secondary,
                                mid,
                            ),
                            "applied here"@,
                        ),
                    ],
                    Seq::<Seq<char>>::empty(),
                ),
            ],
            files: spec_files_alt(pos.spec_into_opt(), EvalError::spec_application(t, arg), mid),
        }
    }

    /// Reports the application of a term that is no function.
    pub fn not_a_func(t: &RichTerm, arg: &RichTerm, pos: &TermPos, files: &mut Files<String>) -> (r:
        Vec<Diagnostic>)
        requires
            files_room_for(*old(files), 2),
        ensures
            r.deep_view() == EvalError::spec_not_a_func(t, arg, *pos, *old(files)).diagnostics,
            *final(files) == EvalError::spec_not_a_func(t, arg, *pos, *old(files)).files,
            files_sources(*final(files)).len() <= files_sources(*old(files)).len() + 2,
            forall|other: FileId| #[trigger]
                file_known(*old(files), other) ==> file_known(*final(files), other),
            forall|other: FileId| #[trigger]
                file_short(*old(files), other) ==> file_short(*final(files), other),
    {
        let first = primary_term(t, files).with_message(
            "this term is applied, but it is not a function".to_owned(),
        );
        let mut shown = join3("(", t.repr.as_str(), ") (");
        shown.append(arg.repr.as_str());
        shown.append(")");
        proof {
            assert(shown@ =~= EvalError::spec_application(t, arg));
        }
        let second = secondary_alt(*pos, shown, files).with_message("applied here".to_owned());
        let mut labels = one_label(first);
        push_label(&mut labels, second);
        let d = error_with("not a function".to_owned(), labels, no_notes());
        proof {
            assert(d@.labels =~= EvalError::spec_not_a_func(t, arg, *pos, *old(
                files,
            )).diagnostics[0].labels);
        }
        single(d)
    }

    /// What reporting a missing field yields. The field is named in escaped
    /// form.
    pub open spec fn spec_field_missing(field: Seq<char>, t: &RichTerm, pos: TermPos) -> Seq<
        DiagnosticView,
    > {
        seq![
            spec_error(
                "missing field"@,
                spec_pos_labels(
                    LabelStyle::Primary,
                    pos.spec_into_opt(),
                    "this requires field "@ + spec_escaped(field) + " to exist"@,
                ) + spec_pos_labels(
                    LabelStyle::Secondary,
                    t.pos.spec_into_opt(),
                    "field "@ + spec_escaped(field) + " is missing here"@,
                ),
                Seq::<Seq<char>>::empty(),
            ),
        ]
    }

    /// Reports a missing field.
    pub fn field_missing(field: &String, t: &RichTerm, pos: &TermPos) -> (r: Vec<Diagnostic>)
        ensures
            r.deep_view() == EvalError::spec_field_missing(field@, t, *pos),
    {
        let escaped = escape(field.as_str());
        let requires_text = join3("this requires field ", escaped.as_str(), " to exist");
        let missing_text = join3("field ", escaped.as_str(), " is missing here");
        let mut labels = pos_labels(LabelStyle::Primary, pos.into_opt(), requires_text.as_str());
        match t.pos.into_opt() {
            Some(span) => {
                push_label(
                    &mut labels,
                    labelled(LabelStyle::Secondary, &span, missing_text.as_str()),
                );
            },
            None => {},
        }
        let d = error_with("missing field".to_owned(), labels, no_notes());
        proof {
            assert(d@.labels =~= EvalError::spec_field_missing(field@, t, *pos)[0].labels);
        }
        single(d)
    }

    /// What is said when a builtin function gets too few arguments.
    pub open spec fn spec_not_enough_text(count: usize, op: Seq<char>) -> Seq<char> {
        op + " expects "@ + spec_decimal(count as nat)
            + " arguments, but not enough were provided"@
    }

    /// What reporting too few arguments yields: the text is the message of
    /// a label if there is a position, else a note.
    pub open spec fn spec_not_enough_args(count: usize, op: Seq<char>, pos: TermPos) -> Seq<
        DiagnosticView,
    > {
        seq![
            spec_error(
                "not enough arguments"@,
                spec_pos_labels(
                    LabelStyle::Primary,
                    pos.spec_into_opt(),
                    EvalError::spec_not_enough_text(count, op),
                ),
                match pos.spec_into_opt() {
                    Some(_) => Seq::<Seq<char>>::empty(),
                    None => seq![EvalError::spec_not_enough_text(count, op)],
                },
            ),
        ]
    }

    /// Reports too few arguments.
    pub fn not_enough_args(count: usize, op: &String, pos: &TermPos) -> (r: Vec<Diagnostic>)
        ensures
            r.deep_view() == EvalError::spec_not_enough_args(count, op@, *pos),
    {
        let number = decimal(count);
        let mut text = join3(op.as_str(), " expects ", number.as_str());
        text.append(" arguments, but not enough were provided");
        proof {
            assert(text@ =~= EvalError::spec_not_enough_text(count, op@));
        }
        let labels = pos_labels(LabelStyle::Primary, pos.into_opt(), text.as_str());
        let notes = match pos.into_opt() {
            Some(_) => no_notes(),
            None => one_note(text),
        };
        single(error_with("not enough arguments".to_owned(), labels, notes))
    }

    /// What reporting a merge of incompatible values yields.
    pub open spec fn spec_merge(t1: &RichTerm, t2: &RichTerm, pos: TermPos, files: Files<String>) -> Report {
        let mid = spec_files_alt(t1.pos.spec_into_opt(), t1.repr@, files);
        Report {
            diagnostics: seq![
                spec_error(
                    "non mergeable terms"@,
                    seq![
                        said(
                            spec_label_alt(
                                t1.pos.spec_into_opt(),
                                t1.repr@,
                                LabelStyle::Primary,
                                files,
                            ),
                            "cannot merge this expression"@,
                        ),
                        said(
                            spec_label_alt(
                                t2.pos.spec_into_opt(),
                                t2.repr@,
                                LabelStyle::Primary,
                                mid,
                            ),
                            "with this expression"@,
                        ),
                    ] + spec_pos_labels(LabelStyle::Secondary, pos.spec_into_opt(), "merged here"@),
                    Seq::<Seq<char>>::empty(),
                ),
            ],
            files: spec_files_alt(t2.pos.spec_into_opt(), t2.repr@, mid),
        }
    }

    /// Reports a merge of incompatible values.
    pub fn merge(t1: &RichTerm, t2: &RichTerm, pos: &TermPos, files: &mut Files<String>) -> (r: Vec<
        Diagnostic,
    >)
        requires
            files_room_for(*old(files), 2),
        ensures
            r.deep_view() == EvalError::spec_merge(t1, t2, *pos, *old(files)).diagnostics,
            *final(files) == EvalError::spec_merge(t1, t2, *pos, *old(files)).files,
            files_sources(*final(files)).len() <= files_sources(*old(files)).len() + 2,
            forall|other: FileId| #[trigger]
                file_known(*old(files), other) ==> file_known(*final(files), other),
            forall|other: FileId| #[trigger]
                file_short(*old(files), other) ==> file_short(*final(files), other),
    {
        let first = primary_term(t1, files).with_message("cannot merge this expression".to_owned());
        let second = primary_term(t2, files).with_message("with this expression".to_owned());
        let mut labels = one_label(first);
        push_label(&mut labels, second);
        match pos.into_opt() {
            Some(span) => {
                push_label(&mut labels, labelled(LabelStyle::Secondary, &span, "merged here"));
            },
            None => {},
        }
        let d = error_with("non mergeable terms".to_owned(), labels, no_notes());
        proof {
            assert(d@.labels =~= EvalError::spec_merge(t1, t2, *pos, *old(
                files,
            )).diagnostics[0].labels);
        }
        single(d)
    }

    /// What reporting an unbound identifier yields.
    pub open spec fn spec_unbound(ident: &Ident, pos: TermPos, files: Files<String>) -> Report {
        Report {
            diagnostics: seq![
                spec_error(
                    "unbound identifier"@,
                    seq![
                        said(
                            spec_label_alt(
                                pos.spec_into_opt(),
                                ident.label@,
                                LabelStyle::Primary,
                                files,
                            ),
                            "this identifier is unbound"@,
                        ),
                    ],
                    Seq::<Seq<char>>::empty(),
                ),
            ],
            files: spec_files_alt(pos.spec_into_opt(), ident.label@, files),
        }
    }

    /// Reports an unbound identifier.
    pub fn unbound(ident: &Ident, pos: &TermPos, files: &mut Files<String>) -> (r: Vec<Diagnostic>)
        requires
            files_room_for(*old(files), 1),
        ensures
            r.deep_view() == EvalError::spec_unbound(ident, *pos, *old(files)).diagnostics,
            *final(files) == EvalError::spec_unbound(ident, *pos, *old(files)).files,
            files_sources(*final(files)).len() <= files_sources(*old(files)).len() + 1,
            forall|other: FileId| #[trigger]
                file_known(*old(files), other) ==> file_known(*final(files), other),
            forall|other: FileId| #[trigger]
                file_short(*old(files), other) ==> file_short(*final(files), other),
    {
        let label = primary_alt(pos.into_opt(), ident.label.clone(), files).with_message(
            "this identifier is unbound".to_owned(),
        );
        single(error_with("unbound identifier".to_owned(), one_label(label), no_notes()))
    }

    /// The error with message `message`, marked at `pos` if it has a span
    /// with a label that says `mark`, and with the notes `notes`.
    pub fn marked(message: String, pos: &TermPos, mark: &str, notes: Vec<String>) -> (r: Vec<
        Diagnostic,
    >)
        ensures
            r.deep_view() == seq![
                spec_error(
                    message@,
                    spec_pos_labels(LabelStyle::Primary, pos.spec_into_opt(), mark@),
                    notes.deep_view(),
                ),
            ],
    {
        single(error_with(message, pos_labels(LabelStyle::Primary, pos.into_opt(), mark), notes))
    }

    /// How many snippets reporting the error may add to the files.
    pub open spec fn added(&self) -> nat {
        match *self {
            EvalError::BlameError(_, _) => 2,
            EvalError::TypeError(_, _, _, _) => 1,
            EvalError::NotAFunc(_, _, _) => 2,
            EvalError::MergeIncompatibleArgs(_, _, _) => 2,
            EvalError::UnboundIdentifier(_, _) => 1,
            EvalError::SerializationError(err) => err.added(),
            _ => 0,
        }
    }

    /// Whether the error can be reported: a contract whose path does not
    /// step into a function type blames the value.
    pub open spec fn reportable(&self) -> bool {
        *self matches EvalError::BlameError(l, _) ==> (spec_has_no_arrow(l.path@) ==> l.polarity)
    }

    /// How many snippets reporting the error may add to the files.
    pub fn snippets(&self) -> (n: usize)
        ensures
            n == self.added(),
    {
        match self {
            EvalError::BlameError(_, _) => 2,
            EvalError::TypeError(_, _, _, _) => 1,
            EvalError::NotAFunc(_, _, _) => 2,
            EvalError::MergeIncompatibleArgs(_, _, _) => 2,
            EvalError::UnboundIdentifier(_, _) => 1,
            EvalError::SerializationError(err) => err.snippets(),
            _ => 0,
        }
    }

    /// Tests `reportable`.
    pub fn well_formed(&self) -> (r: bool)
        ensures
            r == self.reportable(),
    {
        match self {
            EvalError::BlameError(l, _) => !has_no_arrow(&l.path) || l.polarity,
            _ => true,
        }
    }

    /// What reporting the error yields, when the files are `files` and the
    /// builtin contracts stand in the file `contract_id`.
    pub open spec fn spec_report(&self, files: Files<String>, contract_id: Option<FileId>) -> Report {
        match *self {
            EvalError::BlameError(l, stack) => EvalError::spec_blame(&l, &stack, files, contract_id),
            EvalError::MissingFieldDef(label, stack) => Report {
                diagnostics: EvalError::spec_missing_field_def(&label, &stack),
                files,
            },
            EvalError::TypeError(expd, msg, pos, t) => EvalError::spec_type_error(
                expd@,
                msg@,
                pos,
                &t,
                files,
            ),
            EvalError::NotAFunc(t, arg, pos) => EvalError::spec_not_a_func(&t, &arg, pos, files),
            EvalError::FieldMissing(field, _, t, pos) => Report {
                diagnostics: EvalError::spec_field_missing(field@, &t, pos),
                files,
            },
            EvalError::NotEnoughArgs(count, op, pos) => Report {
                diagnostics: EvalError::spec_not_enough_args(count, op@, pos),
                files,
            },
            EvalError::MergeIncompatibleArgs(t1, t2, pos) => EvalError::spec_merge(
                &t1,
                &t2,
                pos,
                files,
            ),
            EvalError::UnboundIdentifier(ident, pos) => EvalError::spec_unbound(&ident, pos, files),
            EvalError::InfiniteRecursion(_, pos) => Report {
                diagnostics: seq![
                    spec_error(
                        "infinite recursion"@,
                        spec_pos_labels(
                            LabelStyle::Primary,
                            pos.spec_into_opt(),
                            "recursive reference"@,
                        ),
                        Seq::<Seq<char>>::empty(),
                    ),
                ],
                files,
            },
            EvalError::Other(msg, pos) => Report {
                diagnostics: seq![
                    spec_error(
                        msg@,
                        spec_pos_labels(LabelStyle::Primary, pos.spec_into_opt(), "here"@),
                        Seq::<Seq<char>>::empty(),
                    ),
                ],
                files,
            },
            EvalError::InternalError(msg, pos) => Report {
                diagnostics: seq![
                    spec_error(
                        "internal error: "@ + msg@,
                        spec_pos_labels(LabelStyle::Primary, pos.spec_into_opt(), "here"@),
                        seq![spec_internal_error_msg()],
                    ),
                ],
                files,
            },
            EvalError::SerializationError(err) => Report {
                diagnostics: seq![err.spec_diagnostic(files)],
                files: err.spec_files(files),
            },
            EvalError::DeserializationError(format, msg, pos) => Report {
                diagnostics: seq![
                    spec_error(
                        format@ + " parse error: "@ + msg@,
                        spec_pos_labels(LabelStyle::Primary, pos.spec_into_opt(), "here"@),
                        seq![spec_internal_error_msg()],
                    ),
                ],
                files,
            },
        }
    }

    /// The diagnostics that report the error. Most errors give one; a blame
    /// gives one for each element of the call stack as well.
    pub fn to_diagnostic(&self, files: &mut Files<String>, contract_id: Option<FileId>) -> (r: Vec<
        Diagnostic,
    >)
        requires
            self.reportable(),
            files_room_for(*old(files), self.added()),
        ensures
            r.deep_view() == self.spec_report(*old(files), contract_id).diagnostics,
            *final(files) == self.spec_report(*old(files), contract_id).files,
            files_sources(*final(files)).len() <= files_sources(*old(files)).len() + self.added(),
            forall|other: FileId| #[trigger]
                file_known(*old(files), other) ==> file_known(*final(files), other),
            forall|other: FileId| #[trigger]
                file_short(*old(files), other) ==> file_short(*final(files), other),
    {
        match self {
            EvalError::BlameError(l, stack) => EvalError::blame(l, stack, files, contract_id),
            EvalError::MissingFieldDef(label, stack) => EvalError::missing_field_def(label, stack),
            EvalError::TypeError(expd, msg, pos, t) => EvalError::type_error(
                expd,
                msg,
                pos,
                t,
                files,
            ),
            EvalError::NotAFunc(t, arg, pos) => EvalError::not_a_func(t, arg, pos, files),
            EvalError::FieldMissing(field, _op, t, pos) => EvalError::field_missing(field, t, pos),
            EvalError::NotEnoughArgs(count, op, pos) => EvalError::not_enough_args(*count, op, pos),
            EvalError::MergeIncompatibleArgs(t1, t2, pos) => EvalError::merge(t1, t2, pos, files),
            EvalError::UnboundIdentifier(ident, pos) => EvalError::unbound(ident, pos, files),
            EvalError::InfiniteRecursion(_stack, pos) => EvalError::marked(
                "infinite recursion".to_owned(),
                pos,
                "recursive reference",
                no_notes(),
            ),
            EvalError::Other(msg, pos) => EvalError::marked(msg.clone(), pos, "here", no_notes()),
            EvalError::InternalError(msg, pos) => EvalError::marked(
                join2("internal error: ", msg.as_str()),
                pos,
                "here",
                one_note(internal_error_msg()),
            ),
            EvalError::SerializationError(err) => err.to_diagnostic(files, contract_id),
            EvalError::DeserializationError(format, msg, pos) => EvalError::marked(
                join3(format.as_str(), " parse error: ", msg.as_str()),
                pos,
                "here",
                one_note(internal_error_msg()),
            ),
        }
    }

    /// The evaluation error that a serialization error stands for.
    pub fn from(error: SerializationError) -> (r: EvalError)
        ensures
            r == EvalError::SerializationError(error),
    {
        EvalError::SerializationError(error)
    }
}

} // verus!
