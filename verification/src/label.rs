//! Contract labels: what a contract carries to say, when it is broken, what
//! was expected of which value.

use vstd::prelude::*;
use codespan::{FileId, Files};
use crate::diagnostic::{Diagnostic, DiagnosticView, LabelStyle, LabelView, Label as Mark, Severity};
use crate::error::{Ident, labelled, no_notes, one_label, push_note, RichTerm, spec_label_msg};
use crate::files::{
    file_known, file_short, files_add, files_next, files_room_for, files_sources, files_with, RawSpan, TermPos,
};

verus! {

/// An element of a path into a type: a step into the domain or the codomain
/// of a function type, into a field of a record type, or into the elements
/// of an array type.
#[derive(Clone, Debug, PartialEq, Eq)]
pub enum Elem {
    Domain,
    Codomain,
    Field(Ident),
    Array,
}

/// A contract label.
#[derive(Clone, Debug, PartialEq, Eq)]
pub struct Label {
    /// The type that the contract checks, as it is written.
    pub types: String,
    /// A tag that the user gave.
    pub tag: String,
    /// Where the contract was bound.
    pub span: RawSpan,
    /// The value that was checked, evaluated, if it is known.
    pub arg_thunk: Option<RichTerm>,
    /// Where the value that was checked stands.
    pub arg_pos: TermPos,
    /// Whether the contract blames the value (or else its context).
    pub polarity: bool,
    /// The path to the part of the type that was checked.
    pub path: Vec<Elem>,
    /// Where that part starts in the type as it is written.
    pub path_start: usize,
    /// Where that part ends in the type as it is written.
    pub path_end: usize,
}

/// Whether an element steps into a function type.
pub open spec fn is_arrow(elem: Elem) -> bool {
    elem is Domain || elem is Codomain
}

/// Whether no element of the path steps into a function type.
pub open spec fn spec_has_no_arrow(path: Seq<Elem>) -> bool {
    forall|i: int| 0 <= i < path.len() ==> !is_arrow(#[trigger] path[i])
}

/// Whether the path is made of steps into codomains only.
pub open spec fn spec_is_only_codom(path: Seq<Elem>) -> bool {
    forall|i: int| 0 <= i < path.len() ==> (#[trigger] path[i]) is Codomain
}

/// Whether no element of the path steps into a function type.
pub fn has_no_arrow(path: &Vec<Elem>) -> (r: bool)
    ensures
        r == spec_has_no_arrow(path@),
{
    let mut i: usize = 0;
    while i < path.len()
        invariant
            i <= path@.len(),
            forall|j: int| 0 <= j < i ==> !is_arrow(#[trigger] path@[j]),
        decreases path@.len() - i,
    {
        match &path[i] {
            Elem::Domain => { return false; },
            Elem::Codomain => { return false; },
            _ => {},
        }
        i = i + 1;
    }
    true
}

/// Whether the path is made of steps into codomains only.
pub fn is_only_codom(path: &Vec<Elem>) -> (r: bool)
    ensures
        r == spec_is_only_codom(path@),
{
    let mut i: usize = 0;
    while i < path.len()
        invariant
            i <= path@.len(),
            forall|j: int| 0 <= j < i ==> (#[trigger] path@[j]) is Codomain,
        decreases path@.len() - i,
    {
        match &path[i] {
            Elem::Codomain => {},
            _ => { return false; },
        }
        i = i + 1;
    }
    true
}

/// Whether the last step of the path into a function type, which the path
/// has, goes into a domain.
pub open spec fn spec_last_arrow_is_domain(path: Seq<Elem>) -> bool
    decreases path.len(),
{
    if path.len() == 0 {
        false
    } else if is_arrow(path.last()) {
        path.last() is Domain
    } else {
        spec_last_arrow_is_domain(path.drop_last())
    }
}

/// Whether the last step of the path into a function type goes into a
/// domain.
pub fn last_arrow_is_domain(path: &Vec<Elem>) -> (r: bool)
    ensures
        r == spec_last_arrow_is_domain(path@),
{
    let mut n: usize = path.len();
    proof {
        assert(path@.subrange(0, n as int) =~= path@);
    }
    while n > 0
        invariant
            n <= path@.len(),
            spec_last_arrow_is_domain(path@) == spec_last_arrow_is_domain(
                path@.subrange(0, n as int),
            ),
        decreases n,
    {
        let ghost front = path@.subrange(0, n as int);
        proof {
            assert(front.last() == path@[n - 1]);
            assert(front.drop_last() =~= path@.subrange(0, n - 1));
        }
        n = n - 1;
        match &path[n] {
            Elem::Domain => { return true; },
            Elem::Codomain => { return false; },
            _ => {},
        }
    }
    proof {
        assert(path@.subrange(0, 0).len() == 0);
    }
    false
}

/// The note that every hint at a higher-order situation ends with.
pub open spec fn spec_end_note() -> Seq<char> {
    "Note: this is an illustrative example. The actual error may involve deeper nested functions calls."@
}

/// What the label on the type says of the part that the path leads to.
pub open spec fn spec_path_message(path: Seq<Elem>, polarity: bool) -> Seq<char> {
    if path.len() == 0 {
        "expected type"@
    } else if spec_has_no_arrow(path) {
        if path.last() is Array {
            "expected array element type"@
        } else {
            "expected field type"@
        }
    } else if spec_is_only_codom(path) {
        "expected return type"@
    } else if spec_last_arrow_is_domain(path) {
        if polarity {
            "expected type of an argument of an inner call"@
        } else {
            "expected type of the argument provided by the caller"@
        }
    } else {
        if polarity {
            "expected return type of a sub-function passed as an argument of an inner call"@
        } else {
            "expected return type of a function provided by the caller"@
        }
    }
}

/// The notes that hint at the situation that may have broken the contract.
pub open spec fn spec_path_notes(path: Seq<Elem>, polarity: bool) -> Seq<Seq<char>> {
    if path.len() == 0 || spec_has_no_arrow(path) {
        Seq::<Seq<char>>::empty()
    } else if spec_is_only_codom(path) {
        seq![
            "This error may happen in the following situation:
1. A function `f` is bound by a contract: e.g. `Bool -> Num`.
2. `f` returns a value of the wrong type: e.g. `f = fun c => \"string\"` while `Num` is expected."@,
            "Either change the contract accordingly, or change the return value of `f`"@,
        ]
    } else if spec_last_arrow_is_domain(path) {
        if polarity {
            seq![
                "This error may happen in the following situation:
1. A function `f` is bound by a contract: e.g. `(Str -> Str) -> Str)`.
2. `f` takes another function `g` as an argument: e.g. `f = fun g => g 0`.
3. `f` calls `g` with an argument that does not respect the contract: e.g. `g 0` while `Str -> Str` is expected."@,
                "Either change the contract accordingly, or call `g` with a `Str` argument."@,
                spec_end_note(),
            ]
        } else {
            seq![
                "This error may happen in the following situation:
1. A function `f` is bound by a contract: e.g. `Num -> Num`.
2. `f` is called with an argument of the wrong type: e.g. `f false`."@,
                "Either change the contract accordingly, or call `f` with an argument of the right type."@,
                spec_end_note(),
            ]
        }
    } else {
        if polarity {
            seq![
                "This error may happen in the following situation:
1. A function `f` is bound by a contract: e.g. `((Num -> Num) -> Num) -> Num)`.
2. `f` take another function `g` as an argument: e.g. `f = fun g => g (fun x => true)`.
3. `g` itself takes a function as an argument.
4. `f` passes a function that does not respect the contract to `g`: e.g. `g (fun x => true)` (expected to be of type `Num -> Num`)."@,
                "Either change the contract accordingly, or call `g` with a function that returns a value of type `Num`."@,
                spec_end_note(),
            ]
        } else {
            seq![
                "This error may happen in the following situation:
1. A function `f` is bound by a contract: e.g. `(Num -> Num) -> Num`.
2. `f` takes another function `g` as an argument: e.g. `f = fun g => g 0`.
3. `f` is called by with an argument `g` that does not respect the contract: e.g. `f (fun x => false)`."@,
                "Either change the contract accordingly, or call `f` with a function that returns a value of the right type."@,
                spec_end_note(),
            ]
        }
    }
}

/// A list of the three notes `a`, `b` and the closing note.
fn hint(a: &str, b: &str) -> (r: Vec<String>)
    ensures
        r.deep_view() == seq![a@, b@, spec_end_note()],
{
    let mut notes = no_notes();
    push_note(&mut notes, a.to_owned());
    push_note(&mut notes, b.to_owned());
    push_note(
        &mut notes,
        "Note: this is an illustrative example. The actual error may involve deeper nested functions calls.".to_owned(),
    );
    proof {
        assert(notes.deep_view() =~= seq![a@, b@, spec_end_note()]);
    }
    notes
}

/// The message of the label on the type and the notes that go with it.
pub fn path_report(path: &Vec<Elem>, polarity: bool) -> (r: (String, Vec<String>))
    ensures
        r.0@ == spec_path_message(path@, polarity),
        r.1.deep_view() == spec_path_notes(path@, polarity),
{
    if path.len() == 0 {
        ("expected type".to_owned(), no_notes())
    } else if has_no_arrow(path) {
        match &path[path.len() - 1] {
            Elem::Array => ("expected array element type".to_owned(), no_notes()),
            Elem::Field(_) => ("expected field type".to_owned(), no_notes()),
            _ => {
                proof {
                    assert(is_arrow(path@[path@.len() - 1]));
                }
                ("expected field type".to_owned(), no_notes())
            },
        }
    } else if is_only_codom(path) {
        let mut notes = no_notes();
        push_note(
            &mut notes,
            "This error may happen in the following situation:
1. A function `f` is bound by a contract: e.g. `Bool -> Num`.
2. `f` returns a value of the wrong type: e.g. `f = fun c => \"string\"` while `Num` is expected.".to_owned(),
        );
        push_note(
            &mut notes,
            "Either change the contract accordingly, or change the return value of `f`".to_owned(),
        );
        proof {
            assert(notes.deep_view() =~= spec_path_notes(path@, polarity));
        }
        ("expected return type".to_owned(), notes)
    } else if last_arrow_is_domain(path) {
        if polarity {
            (
                "expected type of an argument of an inner call".to_owned(),
                hint(
                    "This error may happen in the following situation:
1. A function `f` is bound by a contract: e.g. `(Str -> Str) -> Str)`.
2. `f` takes another function `g` as an argument: e.g. `f = fun g => g 0`.
3. `f` calls `g` with an argument that does not respect the contract: e.g. `g 0` while `Str -> Str` is expected.",
                    "Either change the contract accordingly, or call `g` with a `Str` argument.",
                ),
            )
        } else {
            (
                "expected type of the argument provided by the caller".to_owned(),
                hint(
                    "This error may happen in the following situation:
1. A function `f` is bound by a contract: e.g. `Num -> Num`.
2. `f` is called with an argument of the wrong type: e.g. `f false`.",
                    "Either change the contract accordingly, or call `f` with an argument of the right type.",
                ),
            )
        }
    } else {
        if polarity {
            (
                "expected return type of a sub-function passed as an argument of an inner call".to_owned(),
                hint(
                    "This error may happen in the following situation:
1. A function `f` is bound by a contract: e.g. `((Num -> Num) -> Num) -> Num)`.
2. `f` take another function `g` as an argument: e.g. `f = fun g => g (fun x => true)`.
3. `g` itself takes a function as an argument.
4. `f` passes a function that does not respect the contract to `g`: e.g. `g (fun x => true)` (expected to be of type `Num -> Num`).",
                    "Either change the contract accordingly, or call `g` with a function that returns a value of type `Num`.",
                ),
            )
        } else {
            (
                "expected return type of a function provided by the caller".to_owned(),
                hint(
                    "This error may happen in the following situation:
1. A function `f` is bound by a contract: e.g. `(Num -> Num) -> Num`.
2. `f` takes another function `g` as an argument: e.g. `f = fun g => g 0`.
3. `f` is called by with an argument `g` that does not respect the contract: e.g. `f (fun x => false)`.",
                    "Either change the contract accordingly, or call `f` with a function that returns a value of the right type.",
                ),
            )
        }
    }
}

/// The label that `report_ty_path` puts on the type of the contract.
pub open spec fn spec_path_label(l: &Label, files: Files<String>) -> LabelView {
    LabelView {
        style: LabelStyle::Secondary,
        file_id: files_next(files),
        start: l.path_start,
        end: l.path_end,
        message: spec_path_message(l.path@, l.polarity),
    }
}

/// Generate a label that marks, in the type of the contract, the part that
/// the path of the contract label leads to, and notes to hint at the
/// situation that may have caused the error. The type is added to the files
/// as a snippet without a name.
pub fn report_ty_path(l: &Label, files: &mut Files<String>) -> (r: (Mark, Vec<String>))
    requires
        files_room_for(*old(files), 1),
    ensures
        r.0@ == spec_path_label(l, *old(files)),
        r.1.deep_view() == spec_path_notes(l.path@, l.polarity),
        *final(files) == files_with(*old(files), ""@, l.types@),
        files_sources(*final(files)).len() == files_sources(*old(files)).len() + 1,
        forall|other: FileId| #[trigger]
            file_known(*old(files), other) ==> file_known(*final(files), other),
        forall|other: FileId| #[trigger]
            file_short(*old(files), other) ==> file_short(*final(files), other),
{
    let (msg, notes) = path_report(&l.path, l.polarity);
    let file_id = files_add(files, "", l.types.clone());
    let label = Mark::new(LabelStyle::Secondary, file_id, l.path_start, l.path_end).with_message(
        msg,
    );
    (label, notes)
}

/// The note that shows where the contract was bound.
pub open spec fn spec_blame_label_note(l: &Label) -> DiagnosticView {
    DiagnosticView {
        severity: Severity::Note,
        code: None,
        message: Seq::<char>::empty(),
        labels: seq![spec_label_msg(LabelStyle::Primary, l.span, "bound here"@)],
        notes: Seq::<Seq<char>>::empty(),
    }
}

/// Return a note diagnostic showing where a contract was bound.
pub fn blame_label_note(l: &Label) -> (d: Diagnostic)
    ensures
        d@ == spec_blame_label_note(l),
{
    let d = Diagnostic::note().with_labels(
        one_label(labelled(LabelStyle::Primary, &l.span, "bound here")),
    );
    assert(d@.labels =~= seq![spec_label_msg(LabelStyle::Primary, l.span, "bound here"@)]);
    d
}

} // verus!
