use codespan::{FileId, Files};
use nickel::diagnostic::{Diagnostic, Label, LabelStyle, Severity};
use nickel::error::{
    label_alt, primary, secondary, IOError, Ident, ImportError, InternalParseError, LexicalError,
    ParseError, ParseErrors, ParserFailure, ReplError, RichTerm, SerializationError,
};
use nickel::escape::escape;
use nickel::files::{
    add_file, add_short_file, index_add, index_add_less_one, is_short, low32, mk_span, new_files,
    RawSpan, TermPos,
};
use nickel::report::{Error, ToDiagnostic};
use nickel::text::{join, join2, join3};

fn files_with(source: &str) -> (Files<String>, FileId) {
    let mut files = Files::new();
    let id = files.add("main.ncl", source.to_string());
    (files, id)
}

fn span(id: FileId, start: u32, end: u32) -> RawSpan {
    RawSpan { src_id: id, start, end }
}

fn error(message: &str, labels: Vec<Label>, notes: Vec<&str>) -> Diagnostic {
    Diagnostic {
        severity: Severity::Error,
        code: None,
        message: message.to_string(),
        labels,
        notes: notes.into_iter().map(|n| n.to_string()).collect(),
    }
}

fn mark(style: LabelStyle, id: FileId, start: usize, end: usize, message: &str) -> Label {
    Label { style, file_id: id, start, end, message: message.to_string() }
}

fn ident(label: &str) -> Ident {
    Ident { label: label.to_string(), generated: false }
}

#[test]
fn escape_replaces_what_is_not_printable() {
    assert_eq!(escape("plain text"), "plain text");
    assert_eq!(escape("a\tb\r\nc"), "a\\tb\\r\\nc");
    assert_eq!(escape("'\"\\"), "\\'\\\"\\\\");
    assert_eq!(escape("\x1b[31m"), "\\x1b[31m");
    assert_eq!(escape("\x7f~ "), "\\x7f~ ");
    assert_eq!(escape("é"), "\\xc3\\xa9");
    assert_eq!(escape(""), "");
}

#[test]
fn escape_agrees_with_the_standard_escapes_on_every_byte() {
    for b in 0u8..128 {
        let text = (b as char).to_string();
        let expected: String = std::ascii::escape_default(b).map(|c| c as char).collect();
        assert_eq!(escape(&text), expected);
    }
}

#[test]
fn text_is_joined() {
    assert_eq!(join2("a", "b"), "ab");
    assert_eq!(join3("a", "", "c"), "ac");
    assert_eq!(join(&vec![], ","), "");
    assert_eq!(join(&vec!["x".to_string()], ","), "x");
    assert_eq!(join(&vec!["x".to_string(), "y".to_string(), "z".to_string()], ", "), "x, y, z");
}

#[test]
fn positions_are_cut_to_32_bits() {
    assert_eq!(low32(5), 5);
    assert_eq!(low32(0x1_0000_0007), 7);
    assert_eq!(index_add(u32::MAX, 1), 0);
    assert_eq!(index_add(10, 5), 15);
    assert_eq!(index_add_less_one(10, 5), 14);
    assert_eq!(index_add_less_one(0, 0), u32::MAX);
    let (_, id) = files_with("");
    assert_eq!(mk_span(id, 3, 0x2_0000_0004), span(id, 3, 4));
}

#[test]
fn positions_give_their_span() {
    let (_, id) = files_with("");
    let s = span(id, 1, 2);
    assert_eq!(TermPos::Original(s).into_opt(), Some(s));
    assert_eq!(TermPos::Inherited(s).into_opt(), Some(s));
    assert_eq!(TermPos::Absent.into_opt(), None);
    assert!(TermPos::Original(s).same(&TermPos::Original(s)));
    assert!(!TermPos::Original(s).same(&TermPos::Inherited(s)));
    assert!(!TermPos::Original(s).same(&TermPos::Original(span(id, 1, 3))));
    assert!(TermPos::Absent.same(&TermPos::Absent));
}

#[test]
fn spans_of_different_files_differ() {
    let mut files = Files::new();
    let a = files.add("a", "x".to_string());
    let b = files.add("b", "x".to_string());
    assert!(span(a, 0, 1).same(&span(a, 0, 1)));
    assert!(!span(a, 0, 1).same(&span(b, 0, 1)));
}

#[test]
fn parser_failures_become_parse_errors() {
    let (_, id) = files_with("");
    assert_eq!(
        ParseError::from_failure(ParserFailure::InvalidToken { location: 5 }, id),
        ParseError::UnexpectedToken(span(id, 5, 6), vec![])
    );
    assert_eq!(
        ParseError::from_failure(
            ParserFailure::UnrecognizedToken { start: 2, end: 9, expected: vec!["\"}\"".to_string()] },
            id
        ),
        ParseError::UnexpectedToken(span(id, 2, 9), vec!["\"}\"".to_string()])
    );
    assert_eq!(
        ParseError::from_failure(
            ParserFailure::UnrecognizedEOF { location: 4, expected: vec!["x".to_string()] },
            id
        ),
        ParseError::UnexpectedEOF(id, vec!["x".to_string()])
    );
    assert_eq!(
        ParseError::from_failure(ParserFailure::ExtraToken { start: 1, end: 3 }, id),
        ParseError::ExtraToken(span(id, 1, 3))
    );
    let user = |error| ParseError::from_failure(ParserFailure::User { error }, id);
    assert_eq!(
        user(InternalParseError::Lexical(LexicalError::Generic(1, 4))),
        ParseError::UnexpectedToken(span(id, 1, 4), vec![])
    );
    assert_eq!(
        user(InternalParseError::Lexical(LexicalError::UnmatchedCloseBrace(7))),
        ParseError::UnmatchedCloseBrace(span(id, 7, 8))
    );
    assert_eq!(
        user(InternalParseError::Lexical(LexicalError::InvalidEscapeSequence(7))),
        ParseError::InvalidEscapeSequence(span(id, 7, 8))
    );
    assert_eq!(
        user(InternalParseError::Lexical(LexicalError::InvalidAsciiEscapeCode(7))),
        ParseError::InvalidAsciiEscapeCode(span(id, 7, 9))
    );
    assert_eq!(
        user(InternalParseError::UnboundTypeVariables(vec![ident("a")], span(id, 0, 1))),
        ParseError::UnboundTypeVariables(vec![ident("a")], span(id, 0, 1))
    );
    assert_eq!(
        user(InternalParseError::InvalidUniRecord(span(id, 0, 1), span(id, 2, 3), span(id, 0, 9))),
        ParseError::InvalidUniRecord(span(id, 0, 1), span(id, 2, 3), span(id, 0, 9))
    );
}

#[test]
fn a_span_at_the_last_position_wraps() {
    let (_, id) = files_with("");
    assert_eq!(
        ParseError::from_failure(ParserFailure::InvalidToken { location: 0xffff_ffff }, id),
        ParseError::UnexpectedToken(span(id, u32::MAX, 0), vec![])
    );
}

#[test]
fn errors_of_the_generated_parser_become_parse_errors() {
    let (_, id) = files_with("");
    let token: lalrpop_util::ParseError<usize, &str, InternalParseError> =
        lalrpop_util::ParseError::UnrecognizedToken {
            token: (3, "tok", 6),
            expected: vec!["a".to_string(), "b".to_string()],
        };
    assert_eq!(
        ParseError::from_lalrpop(token, id),
        ParseError::UnexpectedToken(span(id, 3, 6), vec!["a".to_string(), "b".to_string()])
    );
    let invalid: lalrpop_util::ParseError<usize, u8, InternalParseError> =
        lalrpop_util::ParseError::InvalidToken { location: 9 };
    assert_eq!(ParseError::from_lalrpop(invalid, id), ParseError::UnexpectedToken(span(id, 9, 10), vec![]));
    let eof: lalrpop_util::ParseError<usize, u8, InternalParseError> =
        lalrpop_util::ParseError::UnrecognizedEOF { location: 9, expected: vec![] };
    assert_eq!(ParseError::from_lalrpop(eof, id), ParseError::UnexpectedEOF(id, vec![]));
    let extra: lalrpop_util::ParseError<usize, u8, InternalParseError> =
        lalrpop_util::ParseError::ExtraToken { token: (1, 0, 2) };
    assert_eq!(ParseError::from_lalrpop(extra, id), ParseError::ExtraToken(span(id, 1, 2)));
    let user: lalrpop_util::ParseError<usize, u8, InternalParseError> = lalrpop_util::ParseError::User {
        error: InternalParseError::Lexical(LexicalError::InvalidAsciiEscapeCode(4)),
    };
    assert_eq!(ParseError::from_lalrpop(user, id), ParseError::InvalidAsciiEscapeCode(span(id, 4, 6)));
}

#[test]
fn recovered_errors_keep_their_order() {
    let (_, id) = files_with("");
    let recoveries: Vec<lalrpop_util::ErrorRecovery<usize, u8, InternalParseError>> = vec![
        lalrpop_util::ErrorRecovery {
            error: lalrpop_util::ParseError::InvalidToken { location: 1 },
            dropped_tokens: vec![(1, 0, 2)],
        },
        lalrpop_util::ErrorRecovery {
            error: lalrpop_util::ParseError::ExtraToken { token: (5, 0, 6) },
            dropped_tokens: vec![],
        },
        lalrpop_util::ErrorRecovery {
            error: lalrpop_util::ParseError::InvalidToken { location: 8 },
            dropped_tokens: vec![],
        },
    ];
    let errors = ParseErrors::from_recoverable(recoveries, id);
    assert_eq!(
        errors.errors,
        vec![
            ParseError::UnexpectedToken(span(id, 1, 2), vec![]),
            ParseError::ExtraToken(span(id, 5, 6)),
            ParseError::UnexpectedToken(span(id, 8, 9), vec![]),
        ]
    );
    assert!(!errors.no_errors());
    let none: Vec<lalrpop_util::ErrorRecovery<usize, u8, InternalParseError>> = vec![];
    assert!(ParseErrors::from_recoverable(none, id).no_errors());
}

#[test]
fn parse_errors_as_a_list() {
    let (_, id) = files_with("");
    assert_eq!(ParseErrors::none().errors, vec![]);
    assert!(ParseErrors::none().no_errors());
    assert_eq!(ParseErrors::none().errors(), None);
    let one = ParseError::ExtraToken(span(id, 1, 2));
    assert_eq!(ParseErrors::from(one.clone()).errors, vec![one.clone()]);
    assert_eq!(ParseErrors::new(vec![one.clone()]).errors(), Some(vec![one.clone()]));
    assert_eq!(ParseErrors::new(vec![]).errors(), None);
}

#[test]
fn a_json_error_is_placed_by_line_and_column() {
    let source = "{\n  \"a\": ]\n}";
    let (files, id) = files_with(source);
    let error = serde_json::from_str::<serde_json::Value>(source).unwrap_err();
    assert_eq!((error.line(), error.column()), (2, 8));
    let message = error.to_string();
    assert_eq!(
        ParseError::from_serde_json(error, id, &files),
        ParseError::ExternalFormatError("json".to_string(), message, Some(span(id, 9, 10)))
    );
}

#[test]
fn a_json_error_without_a_line_has_no_position() {
    let (files, id) = files_with("{}");
    assert_eq!(ParseError::json_start(0, 5, id, &files), None);
    assert_eq!(ParseError::json_start(1, 1, id, &files), Some(0));
    assert_eq!(ParseError::json_start(1, 0, id, &files), Some(u32::MAX));
    assert_eq!(ParseError::json_start(7, 1, id, &files), None);
    let error = serde_json::from_value::<u8>(serde_json::Value::Null).unwrap_err();
    assert_eq!(error.line(), 0);
    let message = error.to_string();
    assert_eq!(
        ParseError::from_serde_json(error, id, &files),
        ParseError::ExternalFormatError("json".to_string(), message, None)
    );
}

#[test]
fn a_yaml_error_is_placed_by_its_index() {
    let (_, id) = files_with("");
    let error = serde_yaml::from_str::<serde_yaml::Value>("a: [1, 2").unwrap_err();
    let index = error.location().map(|l| l.index() as u32);
    assert!(index.is_some());
    let message = error.to_string();
    let start = index.unwrap();
    assert_eq!(
        ParseError::from_serde_yaml(error, id),
        ParseError::ExternalFormatError("yaml".to_string(), message, Some(span(id, start, start + 1)))
    );
    assert_eq!(ParseError::yaml_start(None), None);
    assert_eq!(ParseError::yaml_start(Some(0x1_0000_0002)), Some(2));
}

#[test]
fn a_toml_error_is_placed_by_line_and_column() {
    let source = "a = 1\nb = ?\n";
    let (files, id) = files_with(source);
    let error = toml::from_str::<toml::Value>(source).unwrap_err();
    assert_eq!(error.line_col(), Some((1, 4)));
    let message = error.to_string();
    assert_eq!(
        ParseError::from_toml(error, id, &files),
        ParseError::ExternalFormatError("toml".to_string(), message, Some(span(id, 10, 11)))
    );
    assert_eq!(ParseError::toml_start(None, id, &files), None);
    assert_eq!(ParseError::toml_start(Some((9, 0)), id, &files), None);
    assert_eq!(ParseError::toml_start(Some((0, 2)), id, &files), Some(2));
}

#[test]
fn an_external_error_without_a_start_has_no_span() {
    let (_, id) = files_with("");
    assert_eq!(
        ParseError::external("xml", "bad".to_string(), None, id),
        ParseError::ExternalFormatError("xml".to_string(), "bad".to_string(), None)
    );
    assert_eq!(
        ParseError::external("xml", "bad".to_string(), Some(u32::MAX), id),
        ParseError::ExternalFormatError("xml".to_string(), "bad".to_string(), Some(span(id, u32::MAX, 0)))
    );
}

#[test]
fn labels_on_spans() {
    let (_, id) = files_with("");
    assert_eq!(primary(&span(id, 2, 5)), mark(LabelStyle::Primary, id, 2, 5, ""));
    assert_eq!(secondary(&span(id, 2, 5)), mark(LabelStyle::Secondary, id, 2, 5, ""));
    assert_eq!(
        Label::primary(id, 1, 2).with_message("m".to_string()),
        mark(LabelStyle::Primary, id, 1, 2, "m")
    );
    assert_eq!(Label::secondary(id, 1, 2), mark(LabelStyle::Secondary, id, 1, 2, ""));
}

#[test]
fn a_label_without_a_span_adds_a_snippet() {
    let (mut files, id) = files_with("x");
    let on_span = label_alt(Some(span(id, 0, 1)), "{ ... }".to_string(), LabelStyle::Primary, &mut files);
    assert_eq!(on_span, mark(LabelStyle::Primary, id, 0, 1, ""));
    let on_snippet = label_alt(None, "{ … }".to_string(), LabelStyle::Secondary, &mut files);
    assert_ne!(on_snippet.file_id, id);
    assert_eq!(on_snippet, mark(LabelStyle::Secondary, on_snippet.file_id, 0, 7, ""));
    assert_eq!(files.name(on_snippet.file_id), "<unknown> (generated by evaluation)");
    assert_eq!(files.source(on_snippet.file_id), "{ … }");
}

#[test]
fn diagnostics_are_built_step_by_step() {
    let (_, id) = files_with("");
    let d = Diagnostic::error()
        .with_message("m".to_string())
        .with_labels(vec![Label::primary(id, 0, 1)])
        .with_labels(vec![Label::secondary(id, 1, 2)])
        .with_notes(vec!["a".to_string()])
        .with_notes(vec!["b".to_string()]);
    assert_eq!(
        d,
        error(
            "m",
            vec![mark(LabelStyle::Primary, id, 0, 1, ""), mark(LabelStyle::Secondary, id, 1, 2, "")],
            vec!["a", "b"]
        )
    );
    assert_eq!(Diagnostic::note().severity, Severity::Note);
    assert_eq!(Diagnostic::new(Severity::Bug).severity, Severity::Bug);
    assert_eq!(Diagnostic::new(Severity::Help).message, "");
}

#[test]
fn parse_error_diagnostics() {
    let (mut files, id) = files_with("let x = \n");
    let at = span(id, 4, 5);
    let on = |s: RawSpan| vec![mark(LabelStyle::Primary, id, s.start as usize, s.end as usize, "")];
    let cases = vec![
        (
            ParseError::UnexpectedEOF(id, vec![]),
            error("unexpected end of file when parsing main.ncl", on(span(id, 9, 9)), vec![]),
        ),
        (ParseError::UnexpectedToken(at, vec!["a".to_string()]), error("unexpected token", on(at), vec![])),
        (ParseError::ExtraToken(at), error("superfluous unexpected token", on(at), vec![])),
        (ParseError::UnmatchedCloseBrace(at), error("unmatched closing brace '}'", on(at), vec![])),
        (ParseError::InvalidEscapeSequence(at), error("invalid escape sequence", on(at), vec![])),
        (ParseError::InvalidAsciiEscapeCode(at), error("invalid ascii escape code", on(at), vec![])),
        (
            ParseError::ExternalFormatError("yaml".to_string(), "bad indent".to_string(), Some(at)),
            error("yaml parse error: bad indent", on(at), vec![]),
        ),
        (
            ParseError::ExternalFormatError("yaml".to_string(), "bad indent".to_string(), None),
            error("yaml parse error: bad indent", vec![], vec![]),
        ),
        (
            ParseError::UnboundTypeVariables(vec![ident("a"), ident("b")], at),
            error("unbound type variable(s): `a`,`b`", on(at), vec![]),
        ),
        (
            ParseError::InvalidUniRecord(span(id, 1, 2), span(id, 3, 4), span(id, 0, 8)),
            error(
                "invalid record literal",
                vec![
                    mark(LabelStyle::Primary, id, 0, 8, ""),
                    mark(LabelStyle::Secondary, id, 1, 2, "can't use this record construct"),
                    mark(LabelStyle::Secondary, id, 3, 4, "in presence of a tail"),
                ],
                vec![
                    "Using a polymorphic tail in a record `{ ..; a}` requires the rest of the record to be only composed of type annotations, of the form `<field>: <type>`.",
                    "Value assignements, such as `<field> = <expr>`, metadata, etc. are forbidden.",
                ],
            ),
        ),
    ];
    for (err, expected) in cases {
        assert_eq!(err.to_diagnostic(&mut files, None), vec![expected.clone()]);
        assert_eq!(err.diagnostic(&files), expected);
        assert_eq!(ToDiagnostic::to_diagnostic(&err, &mut files, Some(id)), vec![expected]);
    }
}

#[test]
fn parse_errors_give_one_diagnostic_each() {
    let (mut files, id) = files_with("abc");
    let errors = ParseErrors::new(vec![
        ParseError::ExtraToken(span(id, 0, 1)),
        ParseError::UnexpectedToken(span(id, 1, 2), vec![]),
    ]);
    let expected = vec![
        error("superfluous unexpected token", vec![mark(LabelStyle::Primary, id, 0, 1, "")], vec![]),
        error("unexpected token", vec![mark(LabelStyle::Primary, id, 1, 2, "")], vec![]),
    ];
    assert_eq!(errors.to_diagnostic(&mut files, None), expected);
    assert_eq!(Error::from(errors).to_diagnostic(&mut files, None), expected);
    assert_eq!(ParseErrors::none().to_diagnostic(&mut files, None), vec![]);
    let single = Error::from_parse_error(ParseError::ExtraToken(span(id, 0, 1)));
    assert_eq!(single.to_diagnostic(&mut files, None), expected[..1].to_vec());
}

#[test]
fn io_and_repl_error_diagnostics() {
    let mut files: Files<String> = Files::new();
    assert_eq!(
        IOError::from("no such file".to_string()).to_diagnostic(&mut files, None),
        vec![error("no such file", vec![], vec![])]
    );
    assert_eq!(
        ReplError::UnknownCommand("foo".to_string()).to_diagnostic(&mut files, None),
        vec![error(
            "unknown command `foo`",
            vec![],
            vec!["type `:?` or `:help` for a list of available commands."]
        )]
    );
    let missing = ReplError::MissingArg { cmd: "load".to_string(), msg_opt: Some("a file".to_string()) };
    assert_eq!(
        missing.to_diagnostic(&mut files, None),
        vec![error(
            "load: missing argument",
            vec![],
            vec!["a file", "type `:? load` or `:help load` for more information."]
        )]
    );
    let bare = ReplError::MissingArg { cmd: "load".to_string(), msg_opt: None };
    assert_eq!(
        Error::from(bare).to_diagnostic(&mut files, None),
        vec![error(
            "load: missing argument",
            vec![],
            vec!["type `:? load` or `:help load` for more information."]
        )]
    );
    assert_eq!(
        Error::from(IOError("x".to_string())).to_diagnostic(&mut files, None),
        vec![error("x", vec![], vec![])]
    );
}

#[test]
fn serialization_error_diagnostics() {
    let (mut files, id) = files_with("null");
    let placed = RichTerm {
        pos: TermPos::Original(span(id, 0, 4)),
        repr: "null".to_string(),
        type_of: Some("Null".to_string()),
    };
    let computed = RichTerm { pos: TermPos::Absent, repr: "<func>".to_string(), type_of: None };
    assert_eq!(
        SerializationError::UnsupportedNull("toml".to_string(), placed.clone())
            .to_diagnostic(&mut files, None),
        vec![error(
            "toml doesn't support null values",
            vec![mark(LabelStyle::Primary, id, 0, 4, "")],
            vec![]
        )]
    );
    assert_eq!(
        SerializationError::NotAString(placed.clone()).to_diagnostic(&mut files, None),
        vec![error(
            "raw export only supports `Str`, got Null",
            vec![mark(LabelStyle::Primary, id, 0, 4, "")],
            vec![]
        )]
    );
    let shown = SerializationError::NotAString(computed.clone()).to_diagnostic(&mut files, None);
    let snippet = shown[0].labels[0].file_id;
    assert_eq!(files.source(snippet), "<func>");
    assert_eq!(
        shown,
        vec![error(
            "raw export only supports `Str`, got <unevaluated>",
            vec![mark(LabelStyle::Primary, snippet, 0, 6, "")],
            vec![]
        )]
    );
    assert_eq!(
        SerializationError::NonSerializable(placed).to_diagnostic(&mut files, None),
        vec![error("non serializable term", vec![mark(LabelStyle::Primary, id, 0, 4, "")], vec![])]
    );
    assert_eq!(
        Error::from(SerializationError::Other("cycle".to_string())).to_diagnostic(&mut files, None),
        vec![error("error during serialization", vec![], vec!["cycle"])]
    );
}

#[test]
fn import_error_diagnostics() {
    let (mut files, id) = files_with("import \"a.ncl\"");
    let at = span(id, 0, 14);
    assert_eq!(
        ImportError::IOError("a.ncl".to_string(), "not found".to_string(), TermPos::Original(at))
            .to_diagnostic(&mut files, None),
        vec![error(
            "import of a.ncl failed: not found",
            vec![mark(LabelStyle::Secondary, id, 0, 14, "imported here")],
            vec![]
        )]
    );
    assert_eq!(
        ImportError::IOError("a.ncl".to_string(), "not found".to_string(), TermPos::Absent)
            .to_diagnostic(&mut files, None),
        vec![error("import of a.ncl failed: not found", vec![], vec![])]
    );
    let errors = ParseErrors::new(vec![
        ParseError::ExtraToken(span(id, 0, 1)),
        ParseError::ExtraToken(span(id, 2, 3)),
    ]);
    assert_eq!(
        Error::from(ImportError::ParseErrors(errors.clone(), TermPos::Inherited(at)))
            .to_diagnostic(&mut files, None),
        vec![
            error(
                "superfluous unexpected token",
                vec![
                    mark(LabelStyle::Primary, id, 0, 1, ""),
                    mark(LabelStyle::Secondary, id, 0, 14, "imported here"),
                ],
                vec![]
            ),
            error("superfluous unexpected token", vec![mark(LabelStyle::Primary, id, 2, 3, "")], vec![]),
        ]
    );
    assert_eq!(
        ImportError::ParseErrors(ParseErrors::none(), TermPos::Absent).to_diagnostic(&mut files, None),
        vec![]
    );
}

#[test]
fn files_are_added_one_behind_the_other() {
    let mut files = new_files();
    let a = add_file(&mut files, "a.ncl", "1 + 1".to_string());
    let b = add_file(&mut files, "b.ncl", "2".to_string());
    assert_ne!(a, b);
    assert_eq!(files.name(a), "a.ncl");
    assert_eq!(files.source(b), "2");
    assert_eq!(
        ParseError::UnexpectedEOF(b, vec![]).to_diagnostic(&mut files, None),
        vec![error(
            "unexpected end of file when parsing b.ncl",
            vec![mark(LabelStyle::Primary, b, 1, 1, "")],
            vec![]
        )]
    );
}

#[test]
fn a_short_source_is_added_with_its_positions() {
    let mut files = new_files();
    assert!(is_short("one\ntwo\n"));
    assert!(is_short(""));
    let id = add_short_file(&mut files, "short", "one\ntwo\n".to_string()).unwrap();
    assert_eq!(files.source(id), "one\ntwo\n");
    assert_eq!(ParseError::toml_start(Some((1, 2)), id, &files), Some(6));
    assert_eq!(ParseError::json_start(2, 1, id, &files), Some(4));
    let next = add_file(&mut files, "next", "x".to_string());
    assert_ne!(id, next);
    assert_eq!(ParseError::toml_start(Some((0, 0)), id, &files), Some(0));
}

#[test]
fn no_parse_error_by_default() {
    let none = ParseErrors::default();
    assert!(none.no_errors());
    assert_eq!(none, ParseErrors::new(vec![]));
}
