use codespan::{FileId, Files};
use nickel::callstack::{CallDescr, CallStack, StackElem};
use nickel::diagnostic::{Diagnostic, Label as Mark, LabelStyle, Severity};
use nickel::error::{Ident, RichTerm, SerializationError};
use nickel::eval_error::{internal_error_msg, value_case, EvalError};
use nickel::files::{RawSpan, TermPos};
use nickel::label::{
    blame_label_note, has_no_arrow, is_only_codom, last_arrow_is_domain, path_report, report_ty_path,
    Elem, Label,
};
use nickel::report::{Error, ToDiagnostic};
use nickel::typecheck_error::{RowType, TypePath, TypecheckError, Types};

const END_NOTE: &str =
    "Note: this is an illustrative example. The actual error may involve deeper nested functions calls.";

fn setup(source: &str) -> (Files<String>, FileId) {
    let mut files = Files::new();
    let id = files.add("main.ncl", source.to_string());
    (files, id)
}

fn at(id: FileId, start: u32, end: u32) -> RawSpan {
    RawSpan { src_id: id, start, end }
}

fn diag(severity: Severity, message: &str, labels: Vec<Mark>, notes: Vec<&str>) -> Diagnostic {
    Diagnostic {
        severity,
        code: None,
        message: message.to_string(),
        labels,
        notes: notes.into_iter().map(|n| n.to_string()).collect(),
    }
}

fn failure(message: &str, labels: Vec<Mark>, notes: Vec<&str>) -> Diagnostic {
    diag(Severity::Error, message, labels, notes)
}

fn on(style: LabelStyle, id: FileId, start: usize, end: usize, message: &str) -> Mark {
    Mark { style, file_id: id, start, end, message: message.to_string() }
}

fn name(label: &str) -> Ident {
    Ident { label: label.to_string(), generated: false }
}

fn term(pos: TermPos, repr: &str, type_of: Option<&str>) -> RichTerm {
    RichTerm { pos, repr: repr.to_string(), type_of: type_of.map(|t| t.to_string()) }
}

fn ty(text: &str) -> Types {
    Types { text: text.to_string(), rows: vec![] }
}

fn no_stack() -> CallStack {
    CallStack { elems: vec![], calls: vec![], curr_call: None }
}

fn contract(id: FileId, path: Vec<Elem>, polarity: bool) -> Label {
    Label {
        types: "Num -> Num".to_string(),
        tag: String::new(),
        span: at(id, 0, 3),
        arg_thunk: None,
        arg_pos: TermPos::Absent,
        polarity,
        path,
        path_start: 0,
        path_end: 3,
    }
}

#[test]
fn paths_into_types() {
    let field = || Elem::Field(name("f"));
    assert!(has_no_arrow(&vec![]));
    assert!(has_no_arrow(&vec![field(), Elem::Array]));
    assert!(!has_no_arrow(&vec![field(), Elem::Domain]));
    assert!(!has_no_arrow(&vec![Elem::Codomain]));
    assert!(is_only_codom(&vec![]));
    assert!(is_only_codom(&vec![Elem::Codomain, Elem::Codomain]));
    assert!(!is_only_codom(&vec![Elem::Codomain, Elem::Array]));
    assert!(last_arrow_is_domain(&vec![Elem::Codomain, Elem::Domain, Elem::Array]));
    assert!(!last_arrow_is_domain(&vec![Elem::Domain, Elem::Codomain, field()]));
    assert!(!last_arrow_is_domain(&vec![field()]));
}

#[test]
fn what_a_path_says() {
    let field = || Elem::Field(name("f"));
    let says = |path: Vec<Elem>, polarity: bool| path_report(&path, polarity);
    assert_eq!(says(vec![], true), ("expected type".to_string(), vec![]));
    assert_eq!(says(vec![field(), Elem::Array], true), ("expected array element type".to_string(), vec![]));
    assert_eq!(says(vec![Elem::Array, field()], true), ("expected field type".to_string(), vec![]));
    let (message, notes) = says(vec![Elem::Codomain], true);
    assert_eq!(message, "expected return type");
    assert_eq!(
        notes,
        vec![
            "This error may happen in the following situation:\n1. A function `f` is bound by a contract: e.g. `Bool -> Num`.\n2. `f` returns a value of the wrong type: e.g. `f = fun c => \"string\"` while `Num` is expected.",
            "Either change the contract accordingly, or change the return value of `f`",
        ]
    );
    let (message, notes) = says(vec![Elem::Domain, field()], true);
    assert_eq!(message, "expected type of an argument of an inner call");
    assert_eq!(notes.len(), 3);
    assert_eq!(notes[1], "Either change the contract accordingly, or call `g` with a `Str` argument.");
    assert_eq!(notes[2], END_NOTE);
    let (message, notes) = says(vec![Elem::Domain], false);
    assert_eq!(message, "expected type of the argument provided by the caller");
    assert_eq!(
        notes[0],
        "This error may happen in the following situation:\n1. A function `f` is bound by a contract: e.g. `Num -> Num`.\n2. `f` is called with an argument of the wrong type: e.g. `f false`."
    );
    let (message, notes) = says(vec![Elem::Domain, Elem::Codomain], true);
    assert_eq!(
        message,
        "expected return type of a sub-function passed as an argument of an inner call"
    );
    assert_eq!(
        notes[1],
        "Either change the contract accordingly, or call `g` with a function that returns a value of type `Num`."
    );
    let (message, notes) = says(vec![Elem::Domain, Elem::Codomain], false);
    assert_eq!(message, "expected return type of a function provided by the caller");
    assert_eq!(
        notes[1],
        "Either change the contract accordingly, or call `f` with a function that returns a value of the right type."
    );
}

#[test]
fn the_label_on_the_type_of_a_contract() {
    let (mut files, id) = setup("f 1");
    let mut l = contract(id, vec![Elem::Domain], false);
    l.path_start = 0;
    l.path_end = 3;
    let (label, notes) = report_ty_path(&l, &mut files);
    assert_eq!(files.source(label.file_id), "Num -> Num");
    assert_eq!(files.name(label.file_id), "");
    assert_eq!(
        label,
        on(
            LabelStyle::Secondary,
            label.file_id,
            0,
            3,
            "expected type of the argument provided by the caller"
        )
    );
    assert_eq!(notes.len(), 3);
    assert_eq!(
        blame_label_note(&l),
        diag(Severity::Note, "", vec![on(LabelStyle::Primary, id, 0, 3, "bound here")], vec![])
    );
}

#[test]
fn which_labels_show_a_checked_value() {
    let mut files = Files::new();
    let a = files.add("a", "x".to_string());
    let b = files.add("b", "x".to_string());
    let span = at(a, 1, 2);
    let other = at(a, 3, 4);
    assert_eq!(value_case(&TermPos::Original(span), &None, &Some(a)), (None, true));
    assert_eq!(value_case(&TermPos::Original(span), &Some(span), &Some(b)), (None, false));
    assert_eq!(value_case(&TermPos::Original(span), &Some(other), &None), (Some(span), false));
    assert_eq!(value_case(&TermPos::Inherited(span), &Some(span), &Some(a)), (None, true));
    assert_eq!(value_case(&TermPos::Inherited(span), &None, &None), (Some(span), true));
    assert_eq!(value_case(&TermPos::Absent, &Some(span), &Some(a)), (None, true));
}

#[test]
fn a_blame_on_a_value() {
    let (mut files, id) = setup("1 | Str");
    let mut l = contract(id, vec![], true);
    l.types = "Str".to_string();
    l.tag = "must be\ttext".to_string();
    l.arg_pos = TermPos::Original(at(id, 0, 1));
    l.arg_thunk = Some(term(TermPos::Original(at(id, 0, 1)), "1", Some("Num")));
    let got = EvalError::BlameError(l, no_stack()).to_diagnostic(&mut files, None);
    let types = got[0].labels[0].file_id;
    assert_eq!(files.source(types), "Str");
    assert_eq!(
        got,
        vec![
            failure(
                "contract broken by a value: must be\\ttext",
                vec![
                    on(LabelStyle::Secondary, types, 0, 3, "expected type"),
                    on(LabelStyle::Primary, id, 0, 1, "applied to this expression"),
                ],
                vec![]
            ),
            diag(Severity::Note, "", vec![on(LabelStyle::Primary, id, 0, 3, "bound here")], vec![]),
        ]
    );
}

#[test]
fn a_blame_on_a_caller_with_its_calls() {
    let mut files = Files::new();
    let contracts = files.add("<stdlib>", "contracts".to_string());
    let id = files.add("main.ncl", "f false".to_string());
    let mut l = contract(id, vec![Elem::Domain], false);
    l.arg_pos = TermPos::Original(at(contracts, 0, 4));
    l.arg_thunk = Some(term(TermPos::Inherited(at(id, 2, 7)), "false", Some("Bool")));
    let stack = CallStack {
        elems: vec![],
        calls: vec![
            CallDescr { head: Some(name("f")), span: at(id, 0, 7) },
            CallDescr { head: None, span: at(id, 0, 1) },
        ],
        curr_call: Some(CallDescr { head: Some(name("g")), span: at(id, 2, 3) }),
    };
    let error = EvalError::BlameError(l, stack);
    let got = error.to_diagnostic(&mut files, Some(contracts));
    let types = got[0].labels[0].file_id;
    let value = got[0].labels[2].file_id;
    assert_eq!(files.source(types), "Num -> Num");
    assert_eq!(files.source(value), "false");
    assert_eq!(files.name(value), "<unknown> (generated by evaluation)");
    assert_eq!(got.len(), 5);
    assert_eq!(
        got[0],
        failure(
            "contract broken by the caller",
            vec![
                on(
                    LabelStyle::Secondary,
                    types,
                    0,
                    3,
                    "expected type of the argument provided by the caller"
                ),
                on(LabelStyle::Secondary, id, 2, 7, "evaluated to this expression"),
                on(LabelStyle::Secondary, value, 0, 5, "evaluated to this value"),
            ],
            vec![
                "This error may happen in the following situation:\n1. A function `f` is bound by a contract: e.g. `Num -> Num`.\n2. `f` is called with an argument of the wrong type: e.g. `f false`.",
                "Either change the contract accordingly, or call `f` with an argument of the right type.",
                END_NOTE,
            ]
        )
    );
    assert_eq!(
        got[2],
        diag(Severity::Note, "", vec![on(LabelStyle::Primary, id, 2, 3, "While calling to g")], vec![])
    );
    assert_eq!(
        got[3],
        diag(Severity::Note, "", vec![on(LabelStyle::Secondary, id, 0, 7, "(1) calling f")], vec![])
    );
    assert_eq!(
        got[4],
        diag(Severity::Note, "", vec![on(LabelStyle::Secondary, id, 0, 1, "(2) calling <func>")], vec![])
    );
    let without = error.to_diagnostic(&mut files, None);
    assert_eq!(without.len(), 2);
    assert_eq!(without[0].labels.len(), 4);
    assert_eq!(without[0].labels[1], on(LabelStyle::Primary, contracts, 0, 4, "applied to this expression"));
}

#[test]
fn a_blame_on_a_function() {
    let (mut files, id) = setup("f");
    let l = contract(id, vec![Elem::Codomain], true);
    let stack = CallStack {
        elems: vec![],
        calls: vec![CallDescr { head: None, span: at(id, 0, 1) }],
        curr_call: None,
    };
    let got = EvalError::BlameError(l, stack).to_diagnostic(&mut files, Some(id));
    assert_eq!(got.len(), 2);
    assert_eq!(got[0].message, "contract broken by a function");
    assert_eq!(got[0].labels[0].message, "expected return type");
}

#[test]
fn the_field_that_was_last_entered() {
    let (_, id) = setup("{ foo, bar = 1 + foo }.bar");
    let generated = Ident { label: "%1".to_string(), generated: true };
    let stack = CallStack {
        elems: vec![
            StackElem::Field {
                id: name("old"),
                pos_record: TermPos::Absent,
                pos_field: TermPos::Absent,
                pos_access: TermPos::Absent,
            },
            StackElem::Field {
                id: name("bar"),
                pos_record: TermPos::Original(at(id, 0, 22)),
                pos_field: TermPos::Absent,
                pos_access: TermPos::Original(at(id, 22, 26)),
            },
            StackElem::App { pos: TermPos::Absent },
            StackElem::Var { id: name("foo"), pos: TermPos::Original(at(id, 17, 20)) },
            StackElem::Var { id: name("later"), pos: TermPos::Absent },
            StackElem::Var { id: generated, pos: TermPos::Absent },
        ],
        calls: vec![],
        curr_call: None,
    };
    assert_eq!(
        stack.last_field(),
        (Some("later".to_string()), TermPos::Original(at(id, 0, 22)), Some(TermPos::Absent))
    );
    assert_eq!(no_stack().last_field(), (None, TermPos::Absent, None));
    let only_field = CallStack {
        elems: vec![StackElem::Field {
            id: name("bar"),
            pos_record: TermPos::Original(at(id, 0, 22)),
            pos_field: TermPos::Absent,
            pos_access: TermPos::Original(at(id, 22, 26)),
        }],
        calls: vec![],
        curr_call: None,
    };
    assert_eq!(
        only_field.last_field(),
        (
            Some("bar".to_string()),
            TermPos::Original(at(id, 0, 22)),
            Some(TermPos::Original(at(id, 22, 26)))
        )
    );
}

#[test]
fn a_missing_field_definition() {
    let (mut files, id) = setup("{ foo, bar = 1 + foo }.bar");
    let stack = CallStack {
        elems: vec![
            StackElem::Field {
                id: name("bar"),
                pos_record: TermPos::Original(at(id, 0, 22)),
                pos_field: TermPos::Absent,
                pos_access: TermPos::Original(at(id, 22, 26)),
            },
            StackElem::Var { id: name("foo"), pos: TermPos::Original(at(id, 17, 20)) },
        ],
        calls: vec![],
        curr_call: None,
    };
    let bound = contract(id, vec![], true);
    assert_eq!(
        EvalError::MissingFieldDef(Some(bound), stack).to_diagnostic(&mut files, None),
        vec![
            failure(
                "missing definition for `foo`",
                vec![
                    on(LabelStyle::Primary, id, 0, 22, "in this record"),
                    on(LabelStyle::Secondary, id, 17, 20, "accessed here"),
                ],
                vec![]
            ),
            diag(Severity::Note, "", vec![on(LabelStyle::Primary, id, 0, 3, "bound here")], vec![]),
        ]
    );
    assert_eq!(
        EvalError::MissingFieldDef(None, no_stack()).to_diagnostic(&mut files, None),
        vec![failure("missing definition for `?`", vec![], vec![])]
    );
}

#[test]
fn type_errors_of_evaluation() {
    let (mut files, id) = setup("1 + \"a\"");
    let t = term(TermPos::Original(at(id, 4, 7)), "\"a\"", Some("Str"));
    let label = "this expression has type Str, but Num was expected";
    assert_eq!(
        EvalError::TypeError("Num".to_string(), "+, 2nd argument".to_string(), TermPos::Original(at(id, 0, 7)), t.clone())
            .to_diagnostic(&mut files, None),
        vec![failure(
            "type error",
            vec![
                on(LabelStyle::Primary, id, 0, 7, label),
                on(LabelStyle::Secondary, id, 4, 7, "evaluated to this"),
            ],
            vec!["+, 2nd argument"]
        )]
    );
    assert_eq!(
        EvalError::TypeError("Num".to_string(), "op".to_string(), TermPos::Original(at(id, 4, 7)), t.clone())
            .to_diagnostic(&mut files, None),
        vec![failure("type error", vec![on(LabelStyle::Primary, id, 4, 7, label)], vec!["op"])]
    );
    let computed = term(TermPos::Absent, "<rec>", None);
    let got = EvalError::TypeError("Num".to_string(), "op".to_string(), TermPos::Absent, computed)
        .to_diagnostic(&mut files, None);
    let snippet = got[0].labels[0].file_id;
    assert_eq!(files.source(snippet), "<rec>");
    assert_eq!(
        got,
        vec![failure(
            "type error",
            vec![on(
                LabelStyle::Primary,
                snippet,
                0,
                5,
                "this expression has type <unevaluated>, but Num was expected"
            )],
            vec!["op"]
        )]
    );
}

#[test]
fn applying_what_is_no_function() {
    let (mut files, id) = setup("1 2");
    let f = term(TermPos::Original(at(id, 0, 1)), "1", Some("Num"));
    let arg = term(TermPos::Original(at(id, 2, 3)), "2", Some("Num"));
    assert_eq!(
        EvalError::NotAFunc(f.clone(), arg.clone(), TermPos::Original(at(id, 0, 3)))
            .to_diagnostic(&mut files, None),
        vec![failure(
            "not a function",
            vec![
                on(LabelStyle::Primary, id, 0, 1, "this term is applied, but it is not a function"),
                on(LabelStyle::Secondary, id, 0, 3, "applied here"),
            ],
            vec![]
        )]
    );
    let got = EvalError::NotAFunc(f, arg, TermPos::Absent).to_diagnostic(&mut files, None);
    let snippet = got[0].labels[1].file_id;
    assert_eq!(files.source(snippet), "(1) (2)");
    assert_eq!(got[0].labels[1], on(LabelStyle::Secondary, snippet, 0, 7, "applied here"));
}

#[test]
fn missing_fields_and_arguments() {
    let (mut files, id) = setup("{}.\"a\\b\"");
    let record = term(TermPos::Original(at(id, 0, 2)), "{}", Some("Record"));
    assert_eq!(
        EvalError::FieldMissing("a\nb".to_string(), ".".to_string(), record.clone(), TermPos::Original(at(id, 0, 8)))
            .to_diagnostic(&mut files, None),
        vec![failure(
            "missing field",
            vec![
                on(LabelStyle::Primary, id, 0, 8, "this requires field a\\nb to exist"),
                on(LabelStyle::Secondary, id, 0, 2, "field a\\nb is missing here"),
            ],
            vec![]
        )]
    );
    assert_eq!(
        EvalError::FieldMissing("f".to_string(), ".".to_string(), term(TermPos::Absent, "{}", None), TermPos::Absent)
            .to_diagnostic(&mut files, None),
        vec![failure("missing field", vec![], vec![])]
    );
    assert_eq!(
        EvalError::NotEnoughArgs(12, "f".to_string(), TermPos::Original(at(id, 0, 1)))
            .to_diagnostic(&mut files, None),
        vec![failure(
            "not enough arguments",
            vec![on(
                LabelStyle::Primary,
                id,
                0,
                1,
                "f expects 12 arguments, but not enough were provided"
            )],
            vec![]
        )]
    );
    assert_eq!(
        EvalError::NotEnoughArgs(0, "f".to_string(), TermPos::Absent).to_diagnostic(&mut files, None),
        vec![failure(
            "not enough arguments",
            vec![],
            vec!["f expects 0 arguments, but not enough were provided"]
        )]
    );
}

#[test]
fn merging_and_unbound_identifiers() {
    let (mut files, id) = setup("{a = 1} & {a = 2}");
    let left = term(TermPos::Original(at(id, 5, 6)), "1", Some("Num"));
    let right = term(TermPos::Inherited(at(id, 15, 16)), "2", Some("Num"));
    assert_eq!(
        EvalError::MergeIncompatibleArgs(left, right, TermPos::Original(at(id, 0, 17)))
            .to_diagnostic(&mut files, None),
        vec![failure(
            "non mergeable terms",
            vec![
                on(LabelStyle::Primary, id, 5, 6, "cannot merge this expression"),
                on(LabelStyle::Primary, id, 15, 16, "with this expression"),
                on(LabelStyle::Secondary, id, 0, 17, "merged here"),
            ],
            vec![]
        )]
    );
    let one = term(TermPos::Absent, "1", None);
    let two = term(TermPos::Absent, "22", None);
    let got = EvalError::MergeIncompatibleArgs(one, two, TermPos::Absent).to_diagnostic(&mut files, None);
    assert_eq!(got[0].labels.len(), 2);
    assert_ne!(got[0].labels[0].file_id, got[0].labels[1].file_id);
    assert_eq!(files.source(got[0].labels[0].file_id), "1");
    assert_eq!(files.source(got[0].labels[1].file_id), "22");
    assert_eq!(got[0].labels[1].end, 2);
    assert_eq!(
        EvalError::UnboundIdentifier(name("x"), TermPos::Original(at(id, 1, 2)))
            .to_diagnostic(&mut files, None),
        vec![failure(
            "unbound identifier",
            vec![on(LabelStyle::Primary, id, 1, 2, "this identifier is unbound")],
            vec![]
        )]
    );
    let got = TypecheckError::UnboundIdentifier(name("yy"), TermPos::Absent).to_diagnostic(&mut files, None);
    assert_eq!(files.source(got[0].labels[0].file_id), "yy");
    assert_eq!(got[0].message, "unbound identifier");
}

#[test]
fn the_other_errors_of_evaluation() {
    let (mut files, id) = setup("x");
    let here = TermPos::Original(at(id, 0, 1));
    let internal = internal_error_msg();
    assert_eq!(
        internal,
        "This error should not happen. This is likely a bug in the Nickel interpreter. Please considerreporting it at https://github.com/tweag/nickel/issues with the above error message."
    );
    assert_eq!(
        EvalError::InfiniteRecursion(no_stack(), here).to_diagnostic(&mut files, None),
        vec![failure(
            "infinite recursion",
            vec![on(LabelStyle::Primary, id, 0, 1, "recursive reference")],
            vec![]
        )]
    );
    assert_eq!(
        EvalError::InfiniteRecursion(no_stack(), TermPos::Absent).to_diagnostic(&mut files, None),
        vec![failure("infinite recursion", vec![], vec![])]
    );
    assert_eq!(
        EvalError::Other("odd".to_string(), here).to_diagnostic(&mut files, None),
        vec![failure("odd", vec![on(LabelStyle::Primary, id, 0, 1, "here")], vec![])]
    );
    assert_eq!(
        EvalError::InternalError("oops".to_string(), here).to_diagnostic(&mut files, None),
        vec![failure(
            "internal error: oops",
            vec![on(LabelStyle::Primary, id, 0, 1, "here")],
            vec![internal.as_str()]
        )]
    );
    assert_eq!(
        EvalError::DeserializationError("json".to_string(), "eof".to_string(), TermPos::Absent)
            .to_diagnostic(&mut files, None),
        vec![failure("json parse error: eof", vec![], vec![internal.as_str()])]
    );
    let inner = SerializationError::Other("x".to_string());
    assert_eq!(
        Error::from(EvalError::from(inner)).to_diagnostic(&mut files, None),
        vec![failure("error during serialization", vec![], vec!["x"])]
    );
    assert_eq!(
        ToDiagnostic::to_diagnostic(&EvalError::Other("odd".to_string(), TermPos::Absent), &mut files, None),
        vec![failure("odd", vec![], vec![])]
    );
}

#[test]
fn rows_are_found_by_their_path() {
    let record = Types {
        text: "{a: {b: Num}}".to_string(),
        rows: vec![
            RowType { path: vec![name("a")], ty: "{b: Num}".to_string() },
            RowType { path: vec![name("a"), name("b")], ty: "Num".to_string() },
            RowType { path: vec![name("a"), name("b")], ty: "Str".to_string() },
        ],
    };
    assert_eq!(record.row_find_path(&vec![name("a"), name("b")]), Some("Num".to_string()));
    assert_eq!(record.row_find_path(&vec![name("a")]), Some("{b: Num}".to_string()));
    assert_eq!(record.row_find_path(&vec![name("b")]), None);
    assert_eq!(record.row_find_path(&vec![]), None);
}

#[test]
fn typecheck_errors_on_an_expression() {
    let (mut files, id) = setup("x");
    let here = TermPos::Original(at(id, 0, 1));
    let expr = || vec![on(LabelStyle::Primary, id, 0, 1, "this expression")];
    let cases = vec![
        (
            TypecheckError::MissingRow(name("f"), ty("{f: Num}"), ty("{}"), here),
            failure(
                "type error: missing row `f`",
                expr(),
                vec![
                    "The type of the expression was expected to be `{f: Num}` which contains the field `f`",
                    "The type of the expression was inferred to be `{}`, which does not contain the field `f`",
                ],
            ),
        ),
        (
            TypecheckError::MissingDynTail(ty("{| Dyn}"), ty("{}"), here),
            failure(
                "type error: missing dynamic tail `| Dyn`",
                expr(),
                vec![
                    "The type of the expression was expected to be `{| Dyn}` which contains the tail `| Dyn`",
                    "The type of the expression was inferred to be `{}`, which does not contain the tail `| Dyn`",
                ],
            ),
        ),
        (
            TypecheckError::ExtraRow(name("f"), ty("{}"), ty("{f: Num}"), here),
            failure(
                "type error: extra row `f`",
                expr(),
                vec![
                    "The type of the expression was expected to be `{}`, which does not contain the field `f`",
                    "The type of the expression was inferred to be `{f: Num}`, which contains the extra field `f`",
                ],
            ),
        ),
        (
            TypecheckError::ExtraDynTail(ty("{}"), ty("{| Dyn}"), here),
            failure(
                "type error: extra dynamic tail `| Dyn`",
                expr(),
                vec![
                    "The type of the expression was expected to be `{}`, which does not contain the tail `| Dyn`",
                    "The type of the expression was inferred to be `{| Dyn}`, which contains the extra tail `| Dyn`",
                ],
            ),
        ),
        (
            TypecheckError::TypeMismatch(ty("Num"), ty("Str"), TermPos::Absent),
            failure(
                "incompatible types",
                vec![],
                vec![
                    "The type of the expression was expected to be `Num`",
                    "The type of the expression was inferred to be `Str`",
                    "These types are not compatible",
                ],
            ),
        ),
        (
            TypecheckError::RowKindMismatch(name("f"), Some(ty("a")), None, here),
            failure(
                "incompatible row kinds",
                expr(),
                vec![
                    "The row type of `f` was expected to be `an enum type`, but was inferred to be `a record type`",
                    "Enum row types and record row types are not compatible",
                ],
            ),
        ),
        (
            TypecheckError::RowKindMismatch(name("f"), None, Some(ty("a")), here),
            failure(
                "incompatible row kinds",
                expr(),
                vec![
                    "The row type of `f` was expected to be `a record type`, but was inferred to be `an enum type`",
                    "Enum row types and record row types are not compatible",
                ],
            ),
        ),
        (
            TypecheckError::RowConflict(name("f"), Some(ty("Str")), ty("a"), ty("b"), here),
            failure(
                "multiple rows declaration",
                expr(),
                vec![
                    "The type of the expression was inferred to have the row `f: Str`",
                    "But this type appears inside another row type, which already has a declaration for the field `f`",
                    "A type cannot have two conflicting declaration for the same row",
                ],
            ),
        ),
    ];
    for (err, expected) in cases {
        assert_eq!(err.to_diagnostic(&mut files, None), vec![expected]);
    }
}

#[test]
fn typecheck_errors_that_show_a_type() {
    let (mut files, id) = setup("x");
    let got = TypecheckError::IllformedType(ty("{a | b}")).to_diagnostic(&mut files, None);
    let shown = got[0].labels[0].file_id;
    assert_eq!(files.source(shown), "{a | b}");
    assert_eq!(
        got,
        vec![failure(
            "ill-formed type",
            vec![on(LabelStyle::Secondary, shown, 0, 7, "ill-formed type")],
            vec![]
        )]
    );
    assert_eq!(
        TypecheckError::UnboundTypeVariable(name("a"), TermPos::Original(at(id, 0, 1)))
            .to_diagnostic(&mut files, None),
        vec![failure(
            "unbound type variable",
            vec![on(LabelStyle::Primary, id, 0, 1, "this type variable is unbound")],
            vec!["Maybe you forgot to put a `forall a.` somewhere in the enclosing type ?"]
        )]
    );
}

#[test]
fn nested_row_mismatches_are_told_once() {
    let (mut files, id) = setup("x");
    let here = TermPos::Original(at(id, 0, 1));
    let expected = Types {
        text: "{pkg: {url: Str}}".to_string(),
        rows: vec![RowType { path: vec![name("pkg"), name("url")], ty: "Str".to_string() }],
    };
    let inferred = ty("{pkg: {url: Num}}");
    let innermost = TypecheckError::TypeMismatch(ty("Str"), ty("Num"), TermPos::Absent);
    let inner = TypecheckError::RowMismatch(name("url"), ty("a"), ty("b"), Box::new(innermost), TermPos::Absent);
    let outer = TypecheckError::RowMismatch(name("pkg"), expected, inferred, Box::new(inner), here);
    assert_eq!(
        Error::from(outer).to_diagnostic(&mut files, None),
        vec![
            failure(
                "incompatible rows declaration",
                vec![on(LabelStyle::Primary, id, 0, 1, "this expression")],
                vec![
                    "The type of the expression was expected to have the row `pkg.url: Str`",
                    "The type of the expression was inferred to be `{pkg: {url: Num}}`",
                    "Could not match the two declaration of `pkg.url`",
                ]
            ),
            failure(
                "While typing field `pkg.url`: incompatible types",
                vec![],
                vec![
                    "The type of the expression was expected to be `Str`",
                    "The type of the expression was inferred to be `Num`",
                    "These types are not compatible",
                ]
            ),
        ]
    );
}

#[test]
fn function_types_that_do_not_match() {
    let (mut files, id) = setup("x");
    let here = TermPos::Original(at(id, 0, 1));
    let path = TypePath {
        elems: vec![Elem::Domain],
        expd_start: 0,
        expd_end: 3,
        actual_start: 0,
        actual_end: 4,
    };
    let mismatch = |inner: TypecheckError| {
        TypecheckError::ArrowTypeMismatch(
            ty("Num -> Num"),
            ty("Bool -> Num"),
            TypePath { elems: path.elems.clone(), ..path },
            Box::new(inner),
            here,
        )
    };
    let first = mismatch(TypecheckError::TypeMismatch(ty("Num"), ty("Bool"), TermPos::Absent))
        .to_diagnostic(&mut files, None);
    let expd = first[0].labels[0].file_id;
    let actual = first[0].labels[1].file_id;
    assert_eq!(files.source(expd), "Num -> Num");
    assert_eq!(files.source(actual), "Bool -> Num");
    assert_eq!(
        first,
        vec![failure(
            "function types mismatch",
            vec![
                on(LabelStyle::Secondary, expd, 0, 3, "this part of the expected type"),
                on(LabelStyle::Secondary, actual, 0, 4, "does not match this part of the inferred type"),
                on(LabelStyle::Primary, id, 0, 1, "this expression"),
            ],
            vec![
                "The type of the expression was expected to be `Num -> Num`",
                "The type of the expression was inferred to be `Bool -> Num`",
                "Could not match the two function types",
            ]
        )]
    );
    let second = mismatch(TypecheckError::ExtraRow(name("f"), ty("{}"), ty("{f: Num}"), TermPos::Absent))
        .to_diagnostic(&mut files, None);
    assert_eq!(second.len(), 2);
    assert_eq!(second[1].message, "While matching function types: type error: extra row `f`");
    assert_eq!(second[1].notes.len(), 2);
}

#[test]
fn how_many_snippets_an_error_may_add() {
    let (_, id) = setup("x");
    let here = TermPos::Original(at(id, 0, 1));
    let placed = term(here, "x", None);
    let computed = term(TermPos::Absent, "1 + 1", None);
    assert_eq!(SerializationError::NotAString(placed.clone()).snippets(), 0);
    assert_eq!(SerializationError::NotAString(computed.clone()).snippets(), 1);
    assert_eq!(SerializationError::Other("cycle".to_string()).snippets(), 0);
    assert_eq!(
        EvalError::MergeIncompatibleArgs(placed.clone(), computed.clone(), here).snippets(),
        2
    );
    assert_eq!(EvalError::UnboundIdentifier(name("y"), here).snippets(), 1);
    assert_eq!(EvalError::Other("stuck".to_string(), here).snippets(), 0);
    assert_eq!(
        EvalError::SerializationError(SerializationError::NotAString(computed.clone())).snippets(),
        1
    );
    let path = TypePath { elems: vec![Elem::Domain], expd_start: 0, expd_end: 3, actual_start: 0, actual_end: 4 };
    let inner = TypecheckError::UnboundIdentifier(name("y"), here);
    assert_eq!(inner.snippets(), 1);
    let outer = TypecheckError::ArrowTypeMismatch(
        ty("Num -> Num"),
        ty("Bool -> Num"),
        path,
        Box::new(inner),
        here,
    );
    assert_eq!(outer.snippets(), 3);
    assert_eq!(Error::TypecheckError(outer).snippets(), 3);
    assert_eq!(
        Error::TypecheckError(TypecheckError::TypeMismatch(ty("Num"), ty("Bool"), here)).snippets(),
        0
    );
    assert_eq!(Error::from(SerializationError::NotAString(computed)).snippets(), 1);
}

#[test]
fn counts_are_written_in_decimal() {
    let (mut files, _) = setup("x");
    for count in [7usize, 10, 99, 100, 4096, 1_000_000_007, usize::MAX] {
        let shown = EvalError::NotEnoughArgs(count, "f".to_string(), TermPos::Absent)
            .to_diagnostic(&mut files, None);
        assert_eq!(
            shown[0].notes,
            vec![format!("f expects {} arguments, but not enough were provided", count)]
        );
    }
}
