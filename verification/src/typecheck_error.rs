//! Errors of the static typechecking phase and the diagnostics that report
//! them.

use vstd::prelude::*;
use vstd::string::StringExecFns;
use vstd::utf8::encode_utf8;
use codespan::{FileId, Files};
use crate::diagnostic::{Diagnostic, DiagnosticView, LabelStyle, LabelView, Label as Mark};
use crate::error::{
    error_with, Ident, no_notes, one_label, one_note, pos_labels, primary_alt, push_label,
    push_note, single, spec_error, spec_files_alt, spec_label_alt, spec_pos_labels,
};
use crate::eval_error::{EvalError, Report, said};
use crate::files::{
    file_known, file_short, files_add, files_next, files_room_for, files_sources, files_with, TermPos,
};
use crate::label::Elem;
use crate::text::{join, join2, join3, spec_join};

verus! {

/// A row of a type: the path of fields that leads to it, and its type as it
/// is written.
#[derive(Clone, Debug, PartialEq, Eq)]
pub struct RowType {
    pub path: Vec<Ident>,
    pub ty: String,
}

/// A type as errors show it: as it is written, with the rows that it
/// declares.
#[derive(Clone, Debug, PartialEq, Eq)]
pub struct Types {
    pub text: String,
    pub rows: Vec<RowType>,
}

/// A path into two function types that do not match, with the span of the
/// part that it leads to in each of them as it is written.
#[derive(Clone, Debug, PartialEq, Eq)]
pub struct TypePath {
    pub elems: Vec<Elem>,
    pub expd_start: usize,
    pub expd_end: usize,
    pub actual_start: usize,
    pub actual_end: usize,
}

/// An error occurring during the static typechecking phase.
#[derive(Debug)]
pub enum TypecheckError {
    /// An unbound identifier was referenced.
    UnboundIdentifier(Ident, TermPos),
    /// An ill-formed type, such as a non-row type appearing in a row.
    IllformedType(Types),
    /// A specific row was expected to be in the type of an expression, but
    /// was not: the row, the expected type, the inferred type.
    MissingRow(Ident, Types, Types, TermPos),
    /// A dynamic tail was expected to be in the type of an expression, but
    /// was not.
    MissingDynTail(Types, Types, TermPos),
    /// A specific row was not expected to be in the type of an expression.
    ExtraRow(Ident, Types, Types, TermPos),
    /// A additional dynamic tail was not expected to be in the type of an
    /// expression.
    ExtraDynTail(Types, Types, TermPos),
    /// An unbound type variable was referenced.
    UnboundTypeVariable(Ident, TermPos),
    /// The actual type of an expression is incompatible with its expected
    /// type.
    TypeMismatch(Types, Types, TermPos),
    /// Two incompatible kinds (enum vs record) have been deduced for the
    /// same identifier of a row type.
    RowKindMismatch(Ident, Option<Types>, Option<Types>, TermPos),
    /// Two incompatible types have been deduced for the same identifier in
    /// a row type: the identifier, the expected and the actual row type,
    /// and the error at the row.
    RowMismatch(Ident, Types, Types, Box<TypecheckError>, TermPos),
    /// Two incompatible types have been deduced for the same identifier of
    /// a row type: the identifier, the second type assignment, the
    /// expected and the actual type of the subexpression.
    RowConflict(Ident, Option<Types>, Types, Types, TermPos),
    /// Type mismatch on a subtype of an arrow type: the expected and the
    /// actual arrow type, the path to the incompatible subtypes, and the
    /// error on them.
    ArrowTypeMismatch(Types, Types, TypePath, Box<TypecheckError>, TermPos),
}

/// The labels of the identifiers of a path.
pub open spec fn spec_labels(path: Seq<Ident>) -> Seq<Seq<char>> {
    Seq::new(path.len(), |i: int| path[i].label@)
}

/// The labels of the identifiers of a path.
pub fn labels_of(path: &Vec<Ident>) -> (r: Vec<String>)
    ensures
        r.deep_view() == spec_labels(path@),
{
    let mut r: Vec<String> = Vec::new();
    let mut i: usize = 0;
    while i < path.len()
        invariant
            i <= path@.len(),
            r@.len() == i,
            forall|j: int| 0 <= j < i ==> (#[trigger] r@[j])@ == path@[j].label@,
        decreases path@.len() - i,
    {
        r.push(path[i].label.clone());
        i = i + 1;
    }
    proof {
        assert(r.deep_view() =~= spec_labels(path@));
    }
    r
}

/// Whether two paths name the same fields.
pub fn same_path(a: &Vec<Ident>, b: &Vec<Ident>) -> (r: bool)
    ensures
        r == (spec_labels(a@) == spec_labels(b@)),
{
    if a.len() != b.len() {
        proof {
            assert(spec_labels(a@).len() != spec_labels(b@).len());
        }
        return false;
    }
    let mut i: usize = 0;
    while i < a.len()
        invariant
            i <= a@.len(),
            a@.len() == b@.len(),
            forall|j: int| 0 <= j < i ==> (#[trigger] a@[j]).label@ == b@[j].label@,
        decreases a@.len() - i,
    {
        if a[i].label != b[i].label {
            proof {
                assert(spec_labels(a@)[i as int] != spec_labels(b@)[i as int]);
            }
            return false;
        }
        i = i + 1;
    }
    proof {
        assert(spec_labels(a@) =~= spec_labels(b@));
    }
    true
}

impl Types {
    /// The type of the first of the first `n` rows that `path` leads to, as
    /// it is written.
    pub open spec fn spec_find_upto(&self, path: Seq<Seq<char>>, n: int) -> Option<Seq<char>>
        decreases n,
    {
        if n <= 0 {
            None
        } else {
            match self.spec_find_upto(path, n - 1) {
                Some(ty) => Some(ty),
                None => if spec_labels(self.rows@[n - 1].path@) == path {
                    Some(self.rows@[n - 1].ty@)
                } else {
                    None
                },
            }
        }
    }

    /// The type of the row that `path` leads to, as it is written.
    pub open spec fn spec_row_find_path(&self, path: Seq<Seq<char>>) -> Option<Seq<char>> {
        self.spec_find_upto(path, self.rows@.len() as int)
    }

    /// The type of the row that `path` leads to, as it is written.
    pub fn row_find_path(&self, path: &Vec<Ident>) -> (r: Option<String>)
        ensures
            crate::callstack::opt_text(r) == self.spec_row_find_path(spec_labels(path@)),
    {
        let mut i: usize = 0;
        while i < self.rows.len()
            invariant
                i <= self.rows@.len(),
                self.spec_find_upto(spec_labels(path@), i as int) is None,
            decreases self.rows@.len() - i,
        {
            if same_path(&self.rows[i].path, path) {
                proof {
                    self.lemma_found(spec_labels(path@), i + 1, self.rows@.len() as int);
                }
                return Some(self.rows[i].ty.clone());
            }
            i = i + 1;
        }
        None
    }

    /// A row that was found among the first rows is found among more.
    proof fn lemma_found(&self, path: Seq<Seq<char>>, n: int, m: int)
        requires
            0 <= n <= m,
            self.spec_find_upto(path, n) is Some,
        ensures
            self.spec_find_upto(path, m) == self.spec_find_upto(path, n),
        decreases m,
    {
        if m > n {
            self.lemma_found(path, n, m - 1);
        }
    }
}

/// The label on an expression, if it has a position.
pub open spec fn spec_expr_label(pos: TermPos) -> Seq<LabelView> {
    spec_pos_labels(LabelStyle::Primary, pos.spec_into_opt(), "this expression"@)
}

/// The label on an expression, if it has a position.
pub fn mk_expr_label(pos: &TermPos) -> (r: Vec<Mark>)
    ensures
        r.deep_view() == spec_expr_label(*pos),
{
    pos_labels(LabelStyle::Primary, pos.into_opt(), "this expression")
}

/// A list of the two notes `a` and `b`.
pub fn two_notes(a: String, b: String) -> (r: Vec<String>)
    ensures
        r.deep_view() == seq![a@, b@],
{
    let mut notes = one_note(a);
    push_note(&mut notes, b);
    proof {
        assert(notes.deep_view() =~= seq![a@, b@]);
    }
    notes
}

/// A list of the three notes `a`, `b` and `c`.
pub fn three_notes(a: String, b: String, c: String) -> (r: Vec<String>)
    ensures
        r.deep_view() == seq![a@, b@, c@],
{
    let mut notes = two_notes(a, b);
    push_note(&mut notes, c);
    proof {
        assert(notes.deep_view() =~= seq![a@, b@, c@]);
    }
    notes
}

/// `a`, `b`, `c`, `d` and `e`, one after the other.
pub fn join5(a: &str, b: &str, c: &str, d: &str, e: &str) -> (r: String)
    ensures
        r@ == a@ + b@ + c@ + d@ + e@,
{
    let mut out = join3(a, b, c);
    out.append(d);
    out.append(e);
    out
}

/// The diagnostics `diagnostics`, each with `prefix` before its message.
pub open spec fn spec_prefixed(diagnostics: Seq<DiagnosticView>, prefix: Seq<char>) -> Seq<
    DiagnosticView,
> {
    Seq::new(
        diagnostics.len(),
        |i: int| DiagnosticView { message: prefix + diagnostics[i].message, ..diagnostics[i] },
    )
}

/// Puts `prefix` before the message of each diagnostic.
pub fn prefixed(diagnostics: Vec<Diagnostic>, prefix: &str) -> (r: Vec<Diagnostic>)
    ensures
        r.deep_view() == spec_prefixed(diagnostics.deep_view(), prefix@),
{
    let mut rest = diagnostics;
    let ghost all = rest.deep_view();
    let ghost raw = rest@;
    let mut back: Vec<Diagnostic> = Vec::new();
    while rest.len() > 0
        invariant
            rest@.len() + back@.len() == raw.len(),
            rest@ == raw.subrange(0, rest@.len() as int),
            forall|j: int|
                0 <= j < back@.len() ==> (#[trigger] back@[j])@ == (DiagnosticView {
                    message: prefix@ + raw[raw.len() - 1 - j]@.message,
                    ..raw[raw.len() - 1 - j]@
                }),
        decreases rest@.len(),
    {
        let d = rest.pop().unwrap();
        let message = join2(prefix, d.message.as_str());
        back.push(Diagnostic { message, ..d });
    }
    let mut out: Vec<Diagnostic> = Vec::new();
    while back.len() > 0
        invariant
            out@.len() + back@.len() == raw.len(),
            forall|j: int|
                0 <= j < back@.len() ==> (#[trigger] back@[j])@ == (DiagnosticView {
                    message: prefix@ + raw[raw.len() - 1 - j]@.message,
                    ..raw[raw.len() - 1 - j]@
                }),
            forall|j: int|
                0 <= j < out@.len() ==> (#[trigger] out@[j])@ == (DiagnosticView {
                    message: prefix@ + raw[j]@.message,
                    ..raw[j]@
                }),
        decreases back@.len(),
    {
        let d = back.pop().unwrap();
        out.push(d);
    }
    proof {
        assert(out.deep_view() =~= spec_prefixed(all, prefix@)) by {
            assert forall|j: int| 0 <= j < out@.len() implies out.deep_view()[j] == spec_prefixed(
                all,
                prefix@,
            )[j] by {
                assert(all[j] == raw[j]@);
            }
        }
    }
    out
}

impl TypecheckError {
    /// The names of the fields of the row mismatches that `err` begins
    /// with.
    pub open spec fn spec_nested(err: TypecheckError) -> Seq<Seq<char>>
        decreases err,
    {
        match err {
            TypecheckError::RowMismatch(next, _, _, inner, _) => seq![next.label@]
                + TypecheckError::spec_nested(*inner),
            _ => Seq::<Seq<char>>::empty(),
        }
    }

    /// The path of the fields of nested row mismatches: `ident` and the
    /// identifiers of the row mismatches that `err` begins with.
    pub open spec fn spec_row_path(ident: Ident, err: TypecheckError) -> Seq<Seq<char>> {
        seq![ident.label@] + TypecheckError::spec_nested(err)
    }

    /// Adds the identifiers of the row mismatches that `err` begins with
    /// behind `path`.
    pub fn row_path(err: &TypecheckError, path: &mut Vec<Ident>)
        ensures
            spec_labels(final(path)@) == spec_labels(old(path)@) + TypecheckError::spec_nested(*err),
        decreases err,
    {
        match err {
            TypecheckError::RowMismatch(next, _, _, inner, _) => {
                let ghost before = path@;
                path.push(next.clone_ident());
                let ghost mid = path@;
                proof {
                    assert(spec_labels(mid) =~= spec_labels(before) + seq![next.label@]);
                }
                TypecheckError::row_path(&**inner, path);
                proof {
                    assert(spec_labels(path@) =~= spec_labels(before)
                        + TypecheckError::spec_nested(*err));
                }
            },
            _ => {
                proof {
                    assert(spec_labels(path@) =~= spec_labels(path@)
                        + TypecheckError::spec_nested(*err));
                }
            },
        }
    }

    /// How many snippets reporting the error may add to the files.
    pub open spec fn added(&self) -> nat
        decreases self,
    {
        match *self {
            TypecheckError::UnboundIdentifier(_, _) => 1,
            TypecheckError::IllformedType(_) => 1,
            TypecheckError::UnboundTypeVariable(_, _) => 1,
            TypecheckError::RowMismatch(_, _, _, err, _) => err.added(),
            TypecheckError::ArrowTypeMismatch(_, _, _, err, _) => 2 + err.added(),
            _ => 0,
        }
    }

    /// Whether the error can be reported: a mismatch of row kinds says
    /// which of the two kinds was expected, a row conflict says which type
    /// conflicts, and so for the errors that the error holds.
    pub open spec fn reportable(&self) -> bool
        decreases self,
    {
        match *self {
            TypecheckError::RowKindMismatch(_, expd, actual, _) => (expd is Some && actual is None)
                || (expd is None && actual is Some),
            TypecheckError::RowConflict(_, conflict, _, _, _) => conflict is Some,
            TypecheckError::RowMismatch(_, _, _, err, _) => err.reportable(),
            TypecheckError::ArrowTypeMismatch(_, _, _, err, _) => err.reportable(),
            _ => true,
        }
    }

    /// How many snippets reporting the error may add to the files, as far as
    /// a machine word counts.
    pub fn snippets(&self) -> (n: usize)
        ensures
            n == if self.added() <= usize::MAX {
                self.added()
            } else {
                usize::MAX as nat
            },
        decreases self,
    {
        match self {
            TypecheckError::UnboundIdentifier(_, _) => 1,
            TypecheckError::IllformedType(_) => 1,
            TypecheckError::UnboundTypeVariable(_, _) => 1,
            TypecheckError::RowMismatch(_, _, _, err, _) => (&**err).snippets(),
            TypecheckError::ArrowTypeMismatch(_, _, _, err, _) => {
                let n: usize = (&**err).snippets();
                if n > usize::MAX - 2 {
                    usize::MAX
                } else {
                    n + 2
                }
            },
            _ => 0,
        }
    }

    /// Tests `reportable`.
    pub fn well_formed(&self) -> (r: bool)
        ensures
            r == self.reportable(),
        decreases self,
    {
        match self {
            TypecheckError::RowKindMismatch(_, expd, actual, _) => (expd.is_some()
                && actual.is_none()) || (expd.is_none() && actual.is_some()),
            TypecheckError::RowConflict(_, conflict, _, _, _) => conflict.is_some(),
            TypecheckError::RowMismatch(_, _, _, err, _) => (&**err).well_formed(),
            TypecheckError::ArrowTypeMismatch(_, _, _, err, _) => (&**err).well_formed(),
            _ => true,
        }
    }

    /// What is told of the row that `path` leads to in the type `ty`: its
    /// type if the type declares the row, else the whole type.
    pub open spec fn spec_row_note(verb: Seq<char>, ty: &Types, path: Seq<Seq<char>>) -> Seq<char> {
        match ty.spec_row_find_path(path) {
            Some(row) => "The type of the expression was "@ + verb + " to have the row `"@
                + spec_join(path, "."@) + ": "@ + row + "`"@,
            None => "The type of the expression was "@ + verb + " to be `"@ + ty.text@ + "`"@,
        }
    }

    /// What is told of the row that `path` leads to in the type `ty`.
    pub fn row_note(verb: &str, ty: &Types, path: &Vec<Ident>, field: &String) -> (r: String)
        requires
            field@ == spec_join(spec_labels(path@), "."@),
        ensures
            r@ == TypecheckError::spec_row_note(verb@, ty, spec_labels(path@)),
    {
        match ty.row_find_path(path) {
            Some(row) => {
                let mut out = join5(
                    "The type of the expression was ",
                    verb,
                    " to have the row `",
                    field.as_str(),
                    ": ",
                );
                out.append(row.as_str());
                out.append("`");
                out
            },
            None => join5("The type of the expression was ", verb, " to be `", ty.text.as_str(), "`"),
        }
    }

    /// What reporting the error yields, when the files are `files`.
    pub open spec fn spec_report(&self, files: Files<String>, contract_id: Option<FileId>) -> Report
        decreases self, 0nat,
    {
        match *self {
            TypecheckError::UnboundIdentifier(ident, pos) => EvalError::spec_unbound(
                &ident,
                pos,
                files,
            ),
            TypecheckError::IllformedType(ty) => Report {
                diagnostics: seq![
                    spec_error(
                        "ill-formed type"@,
                        seq![
                            LabelView {
                                style: LabelStyle::Secondary,
                                file_id: files_next(files),
                                start: 0,
                                end: encode_utf8(ty.text@).len() as usize,
                                message: "ill-formed type"@,
                            },
                        ],
                        Seq::<Seq<char>>::empty(),
                    ),
                ],
                files: files_with(files, ""@, ty.text@),
            },
            TypecheckError::MissingRow(ident, expd, actual, pos) => Report {
                diagnostics: seq![
                    spec_error(
                        "type error: missing row `"@ + ident.label@ + "`"@,
                        spec_expr_label(pos),
                        seq![
                            "The type of the expression was expected to be `"@ + expd.text@
                                + "` which contains the field `"@ + ident.label@ + "`"@,
                            "The type of the expression was inferred to be `"@ + actual.text@
                                + "`, which does not contain the field `"@ + ident.label@ + "`"@,
                        ],
                    ),
                ],
                files,
            },
            TypecheckError::MissingDynTail(expd, actual, pos) => Report {
                diagnostics: seq![
                    spec_error(
                        "type error: missing dynamic tail `| Dyn`"@,
                        spec_expr_label(pos),
                        seq![
                            "The type of the expression was expected to be `"@ + expd.text@
                                + "` which contains the tail `| Dyn`"@,
                            "The type of the expression was inferred to be `"@ + actual.text@
                                + "`, which does not contain the tail `| Dyn`"@,
                        ],
                    ),
                ],
                files,
            },
            TypecheckError::ExtraRow(ident, expd, actual, pos) => Report {
                diagnostics: seq![
                    spec_error(
                        "type error: extra row `"@ + ident.label@ + "`"@,
                        spec_expr_label(pos),
                        seq![
                            "The type of the expression was expected to be `"@ + expd.text@
                                + "`, which does not contain the field `"@ + ident.label@ + "`"@,
                            "The type of the expression was inferred to be `"@ + actual.text@
                                + "`, which contains the extra field `"@ + ident.label@ + "`"@,
                        ],
                    ),
                ],
                files,
            },
            TypecheckError::ExtraDynTail(expd, actual, pos) => Report {
                diagnostics: seq![
                    spec_error(
                        "type error: extra dynamic tail `| Dyn`"@,
                        spec_expr_label(pos),
                        seq![
                            "The type of the expression was expected to be `"@ + expd.text@
                                + "`, which does not contain the tail `| Dyn`"@,
                            "The type of the expression was inferred to be `"@ + actual.text@
                                + "`, which contains the extra tail `| Dyn`"@,
                        ],
                    ),
                ],
                files,
            },
            TypecheckError::UnboundTypeVariable(ident, pos) => Report {
                diagnostics: seq![
                    spec_error(
                        "unbound type variable"@,
                        seq![
                            said(
                                spec_label_alt(
                                    pos.spec_into_opt(),
                                    ident.label@,
                                    LabelStyle::Primary,
                                    files,
                                ),
                                "this type variable is unbound"@,
                            ),
                        ],
                        seq![
                            "Maybe you forgot to put a `forall "@ + ident.label@
                                + ".` somewhere in the enclosing type ?"@,
                        ],
                    ),
                ],
                files: spec_files_alt(pos.spec_into_opt(), ident.label@, files),
            },
            TypecheckError::TypeMismatch(expd, actual, pos) => Report {
                diagnostics: seq![
                    spec_error(
                        "incompatible types"@,
                        spec_expr_label(pos),
                        seq![
                            "The type of the expression was expected to be `"@ + expd.text@ + "`"@,
                            "The type of the expression was inferred to be `"@ + actual.text@
                                + "`"@,
                            "These types are not compatible"@,
                        ],
                    ),
                ],
                files,
            },
            TypecheckError::RowKindMismatch(ident, expd, actual, pos) => Report {
                diagnostics: seq![
                    spec_error(
                        "incompatible row kinds"@,
                        spec_expr_label(pos),
                        seq![
                            "The row type of `"@ + ident.label@ + "` was expected to be `"@ + (
                            if expd is Some {
                                "an enum type"@
                            } else {
                                "a record type"@
                            }) + "`, but was inferred to be `"@ + (if expd is Some {
                                "a record type"@
                            } else {
                                "an enum type"@
                            }) + "`"@,
                            "Enum row types and record row types are not compatible"@,
                        ],
                    ),
                ],
                files,
            },
            TypecheckError::RowMismatch(ident, expd, actual, err, pos) => {
                let path = TypecheckError::spec_row_path(ident, *err);
                let field = spec_join(path, "."@);
                let inner = TypecheckError::spec_end_report(*err, files, contract_id);
                Report {
                    diagnostics: seq![
                        spec_error(
                            "incompatible rows declaration"@,
                            spec_expr_label(pos),
                            seq![
                                TypecheckError::spec_row_note("expected"@, &expd, path),
                                TypecheckError::spec_row_note("inferred"@, &actual, path),
                                "Could not match the two declaration of `"@ + field + "`"@,
                            ],
                        ),
                    ] + spec_prefixed(
                        inner.diagnostics,
                        "While typing field `"@ + field + "`: "@,
                    ),
                    files: inner.files,
                }
            },
            TypecheckError::RowConflict(ident, conflict, _, _, pos) => Report {
                diagnostics: seq![
                    spec_error(
                        "multiple rows declaration"@,
                        spec_expr_label(pos),
                        seq![
                            "The type of the expression was inferred to have the row `"@
                                + ident.label@ + ": "@ + conflict->0.text@ + "`"@,
                            "But this type appears inside another row type, which already has a declaration for the field `"@
                                + ident.label@ + "`"@,
                            "A type cannot have two conflicting declaration for the same row"@,
                        ],
                    ),
                ],
                files,
            },
            TypecheckError::ArrowTypeMismatch(expd, actual, path, err, pos) => {
                let one = files_with(files, ""@, expd.text@);
                let two = files_with(one, ""@, actual.text@);
                let inner = if *err is TypeMismatch {
                    Report { diagnostics: Seq::<DiagnosticView>::empty(), files: two }
                } else {
                    err.spec_report(two, contract_id)
                };
                Report {
                    diagnostics: seq![
                        spec_error(
                            "function types mismatch"@,
                            seq![
                                LabelView {
                                    style: LabelStyle::Secondary,
                                    file_id: files_next(files),
                                    start: path.expd_start,
                                    end: path.expd_end,
                                    message: "this part of the expected type"@,
                                },
                                LabelView {
                                    style: LabelStyle::Secondary,
                                    file_id: files_next(one),
                                    start: path.actual_start,
                                    end: path.actual_end,
                                    message: "does not match this part of the inferred type"@,
                                },
                            ] + spec_expr_label(pos),
                            seq![
                                "The type of the expression was expected to be `"@ + expd.text@
                                    + "`"@,
                                "The type of the expression was inferred to be `"@ + actual.text@
                                    + "`"@,
                                "Could not match the two function types"@,
                            ],
                        ),
                    ] + spec_prefixed(inner.diagnostics, "While matching function types: "@),
                    files: inner.files,
                }
            },
        }
    }

    /// What reporting the error that a chain of nested row mismatches ends
    /// with yields.
    pub open spec fn spec_end_report(
        err: TypecheckError,
        files: Files<String>,
        contract_id: Option<FileId>,
    ) -> Report
        decreases err, 1nat,
    {
        match err {
            TypecheckError::RowMismatch(_, _, _, inner, _) => TypecheckError::spec_end_report(
                *inner,
                files,
                contract_id,
            ),
            _ => err.spec_report(files, contract_id),
        }
    }

    /// Reports the error that a chain of nested row mismatches ends with.
    pub fn end_report(err: &TypecheckError, files: &mut Files<String>, contract_id: Option<FileId>) -> (r:
        Vec<Diagnostic>)
        requires
            err.reportable(),
            files_room_for(*old(files), err.added()),
        ensures
            r.deep_view() == TypecheckError::spec_end_report(*err, *old(files), contract_id).diagnostics,
            *final(files) == TypecheckError::spec_end_report(*err, *old(files), contract_id).files,
            files_sources(*final(files)).len() <= files_sources(*old(files)).len() + err.added(),
            forall|other: FileId| #[trigger]
                file_known(*old(files), other) ==> file_known(*final(files), other),
            forall|other: FileId| #[trigger]
                file_short(*old(files), other) ==> file_short(*final(files), other),
        decreases err, 1nat,
    {
        match err {
            TypecheckError::RowMismatch(_, _, _, inner, _) => TypecheckError::end_report(
                &**inner,
                files,
                contract_id,
            ),
            _ => err.to_diagnostic(files, contract_id),
        }
    }

    /// The error with message `message`, marked at the expression at `pos`
    /// if it has a span, and with the notes `notes`.
    fn on_expr(message: String, pos: &TermPos, notes: Vec<String>) -> (r: Vec<Diagnostic>)
        ensures
            r.deep_view() == seq![spec_error(message@, spec_expr_label(*pos), notes.deep_view())],
    {
        single(error_with(message, mk_expr_label(pos), notes))
    }

    /// The diagnostics that report the error: one, and those that report
    /// the error that it holds, if it holds one.
    pub fn to_diagnostic(&self, files: &mut Files<String>, contract_id: Option<FileId>) -> (r: Vec<
        Diagnostic,
    >)
        requires
            self.reportable(),
            files_room_for(*old(files), self.added()),
        ensures
            r.deep_view() == self.spec_report(*old(files), contract_id).diagnostics,
            *final(files) == self.spec_report(*old(files), contract_id).files,
            files_sources(*final(files)).len() <= files_sources(*old(files)).len() + self.added(),
            forall|other: FileId| #[trigger]
                file_known(*old(files), other) ==> file_known(*final(files), other),
            forall|other: FileId| #[trigger]
                file_short(*old(files), other) ==> file_short(*final(files), other),
        decreases self, 0nat,
    {
        match self {
            TypecheckError::UnboundIdentifier(ident, pos) => EvalError::unbound(ident, pos, files),
            TypecheckError::IllformedType(ty) => {
                let len: usize = ty.text.as_str().len();
                let file_id = files_add(files, "", ty.text.clone());
                let label = Mark::new(LabelStyle::Secondary, file_id, 0, len).with_message(
                    "ill-formed type".to_owned(),
                );
                single(error_with("ill-formed type".to_owned(), one_label(label), no_notes()))
            },
            TypecheckError::MissingRow(ident, expd, actual, pos) => TypecheckError::on_expr(
                join3("type error: missing row `", ident.label.as_str(), "`"),
                pos,
                two_notes(
                    join5(
                        "The type of the expression was expected to be `",
                        expd.text.as_str(),
                        "` which contains the field `",
                        ident.label.as_str(),
                        "`",
                    ),
                    join5(
                        "The type of the expression was inferred to be `",
                        actual.text.as_str(),
                        "`, which does not contain the field `",
                        ident.label.as_str(),
                        "`",
                    ),
                ),
            ),
            TypecheckError::MissingDynTail(expd, actual, pos) => TypecheckError::on_expr(
                "type error: missing dynamic tail `| Dyn`".to_owned(),
                pos,
                two_notes(
                    join3(
                        "The type of the expression was expected to be `",
                        expd.text.as_str(),
                        "` which contains the tail `| Dyn`",
                    ),
                    join3(
                        "The type of the expression was inferred to be `",
                        actual.text.as_str(),
                        "`, which does not contain the tail `| Dyn`",
                    ),
                ),
            ),
            TypecheckError::ExtraRow(ident, expd, actual, pos) => TypecheckError::on_expr(
                join3("type error: extra row `", ident.label.as_str(), "`"),
                pos,
                two_notes(
                    join5(
                        "The type of the expression was expected to be `",
                        expd.text.as_str(),
                        "`, which does not contain the field `",
                        ident.label.as_str(),
                        "`",
                    ),
                    join5(
                        "The type of the expression was inferred to be `",
                        actual.text.as_str(),
                        "`, which contains the extra field `",
                        ident.label.as_str(),
                        "`",
                    ),
                ),
            ),
            TypecheckError::ExtraDynTail(expd, actual, pos) => TypecheckError::on_expr(
                "type error: extra dynamic tail `| Dyn`".to_owned(),
                pos,
                two_notes(
                    join3(
                        "The type of the expression was expected to be `",
                        expd.text.as_str(),
                        "`, which does not contain the tail `| Dyn`",
                    ),
                    join3(
                        "The type of the expression was inferred to be `",
                        actual.text.as_str(),
                        "`, which contains the extra tail `| Dyn`",
                    ),
                ),
            ),
            TypecheckError::UnboundTypeVariable(ident, pos) => {
                let label = primary_alt(pos.into_opt(), ident.label.clone(), files).with_message(
                    "this type variable is unbound".to_owned(),
                );
                single(
                    error_with(
                        "unbound type variable".to_owned(),
                        one_label(label),
                        one_note(
                            join3(
                                "Maybe you forgot to put a `forall ",
                                ident.label.as_str(),
                                ".` somewhere in the enclosing type ?",
                            ),
                        ),
                    ),
                )
            },
            TypecheckError::TypeMismatch(expd, actual, pos) => TypecheckError::on_expr(
                "incompatible types".to_owned(),
                pos,
                three_notes(
                    join3("The type of the expression was expected to be `", expd.text.as_str(), "`"),
                    join3(
                        "The type of the expression was inferred to be `",
                        actual.text.as_str(),
                        "`",
                    ),
                    "These types are not compatible".to_owned(),
                ),
            ),
            TypecheckError::RowKindMismatch(ident, expd, _actual, pos) => {
                let enum_expected: bool = expd.is_some();
                let expd_str: &str = if enum_expected {
                    "an enum type"
                } else {
                    "a record type"
                };
                let actual_str: &str = if enum_expected {
                    "a record type"
                } else {
                    "an enum type"
                };
                let mut note = join5(
                    "The row type of `",
                    ident.label.as_str(),
                    "` was expected to be `",
                    expd_str,
                    "`, but was inferred to be `",
                );
                note.append(actual_str);
                note.append("`");
                TypecheckError::on_expr(
                    "incompatible row kinds".to_owned(),
                    pos,
                    two_notes(
                        note,
                        "Enum row types and record row types are not compatible".to_owned(),
                    ),
                )
            },
            TypecheckError::RowMismatch(ident, expd, actual, err, pos) => {
                let mut path: Vec<Ident> = Vec::new();
                path.push(ident.clone_ident());
                proof {
                    assert(spec_labels(path@) =~= seq![ident.label@]);
                }
                TypecheckError::row_path(&**err, &mut path);
                proof {
                    assert(spec_labels(path@) == TypecheckError::spec_row_path(*ident, **err));
                }
                let field = join(&labels_of(&path), ".");
                let note1 = TypecheckError::row_note("expected", expd, &path, &field);
                let note2 = TypecheckError::row_note("inferred", actual, &path, &field);
                let note3 = join3("Could not match the two declaration of `", field.as_str(), "`");
                let mut diagnostics = TypecheckError::on_expr(
                    "incompatible rows declaration".to_owned(),
                    pos,
                    three_notes(note1, note2, note3),
                );
                let inner = TypecheckError::end_report(&**err, files, contract_id);
                let prefix = join3("While typing field `", field.as_str(), "`: ");
                let mut tail = prefixed(inner, prefix.as_str());
                append_diagnostics(&mut diagnostics, &mut tail);
                diagnostics
            },
            TypecheckError::RowConflict(ident, conflict, _expd, _actual, pos) => {
                let conflict_text: &str = match conflict {
                    Some(ty) => ty.text.as_str(),
                    None => "",
                };
                TypecheckError::on_expr(
                    "multiple rows declaration".to_owned(),
                    pos,
                    three_notes(
                        join5(
                            "The type of the expression was inferred to have the row `",
                            ident.label.as_str(),
                            ": ",
                            conflict_text,
                            "`",
                        ),
                        join3(
                            "But this type appears inside another row type, which already has a declaration for the field `",
                            ident.label.as_str(),
                            "`",
                        ),
                        "A type cannot have two conflicting declaration for the same row".to_owned(),
                    ),
                )
            },
            TypecheckError::ArrowTypeMismatch(expd, actual, path, err, pos) => {
                let ghost f0 = *files;
                let first = files_add(files, "", expd.text.clone());
                let ghost f1 = *files;
                let second = files_add(files, "", actual.text.clone());
                let mut labels = one_label(
                    Mark::new(
                        LabelStyle::Secondary,
                        first,
                        path.expd_start,
                        path.expd_end,
                    ).with_message("this part of the expected type".to_owned()),
                );
                push_label(
                    &mut labels,
                    Mark::new(
                        LabelStyle::Secondary,
                        second,
                        path.actual_start,
                        path.actual_end,
                    ).with_message("does not match this part of the inferred type".to_owned()),
                );
                let mut more = mk_expr_label(pos);
                proof {
                    assert(labels.deep_view() =~= seq![
                        LabelView {
                            style: LabelStyle::Secondary,
                            file_id: files_next(f0),
                            start: path.expd_start,
                            end: path.expd_end,
                            message: "this part of the expected type"@,
                        },
                        LabelView {
                            style: LabelStyle::Secondary,
                            file_id: files_next(f1),
                            start: path.actual_start,
                            end: path.actual_end,
                            message: "does not match this part of the inferred type"@,
                        },
                    ]);
                }
                append_labels(&mut labels, &mut more);
                let mut diagnostics = single(
                    error_with(
                        "function types mismatch".to_owned(),
                        labels,
                        three_notes(
                            join3(
                                "The type of the expression was expected to be `",
                                expd.text.as_str(),
                                "`",
                            ),
                            join3(
                                "The type of the expression was inferred to be `",
                                actual.text.as_str(),
                                "`",
                            ),
                            "Could not match the two function types".to_owned(),
                        ),
                    ),
                );
                let ghost head = diagnostics.deep_view();
                match &**err {
                    TypecheckError::TypeMismatch(_, _, _) => {
                        proof {
                            assert(head + spec_prefixed(
                                Seq::<DiagnosticView>::empty(),
                                "While matching function types: "@,
                            ) =~= head);
                        }
                    },
                    other => {
                        let inner = other.to_diagnostic(files, contract_id);
                        let mut tail = prefixed(inner, "While matching function types: ");
                        append_diagnostics(&mut diagnostics, &mut tail);
                    },
                }
                diagnostics
            },
        }
    }
}

impl Ident {
    /// A copy of the identifier.
    pub fn clone_ident(&self) -> (r: Ident)
        ensures
            r.label@ == self.label@,
            r.generated == self.generated,
    {
        Ident { label: self.label.clone(), generated: self.generated }
    }
}

/// Moves the diagnostics of `more` behind those of `diagnostics`.
pub fn append_diagnostics(diagnostics: &mut Vec<Diagnostic>, more: &mut Vec<Diagnostic>)
    ensures
        final(diagnostics).deep_view() == old(diagnostics).deep_view() + old(more).deep_view(),
{
    let ghost left = diagnostics.deep_view();
    let ghost right = more.deep_view();
    let ghost l0 = diagnostics@;
    let ghost r0 = more@;
    diagnostics.append(more);
    proof {
        assert(diagnostics.deep_view() =~= left + right) by {
            assert forall|i: int| 0 <= i < diagnostics@.len() implies diagnostics.deep_view()[i] == (
            left + right)[i] by {
                if i < l0.len() {
                    assert(left[i] == l0[i]@);
                } else {
                    assert(right[i - l0.len()] == r0[i - l0.len()]@);
                }
            }
        }
    }
}

/// Moves the labels of `more` behind those of `labels`.
pub fn append_labels(labels: &mut Vec<Mark>, more: &mut Vec<Mark>)
    ensures
        final(labels).deep_view() == old(labels).deep_view() + old(more).deep_view(),
{
    let ghost left = labels.deep_view();
    let ghost right = more.deep_view();
    let ghost l0 = labels@;
    let ghost r0 = more@;
    labels.append(more);
    proof {
        assert(labels.deep_view() =~= left + right) by {
            assert forall|i: int| 0 <= i < labels@.len() implies labels.deep_view()[i] == (left
                + right)[i] by {
                if i < l0.len() {
                    assert(left[i] == l0[i]@);
                } else {
                    assert(right[i - l0.len()] == r0[i - l0.len()]@);
                }
            }
        }
    }
}

} // verus!
