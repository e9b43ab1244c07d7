//! Error types and error reporting: the errors of the phases of execution,
//! and the diagnostics that report them.

use vstd::prelude::*;
use vstd::utf8::encode_utf8;
use codespan::{FileId, Files};
use lalrpop_util::ErrorRecovery;
use lalrpop_util::ParseError as GrammarError;
use serde_json::Error as JsonError;
use serde_yaml::Error as YamlError;
use toml::de::Error as TomlError;
use crate::diagnostic::{Diagnostic, DiagnosticView, Label, LabelStyle, LabelView, Severity};
use crate::files::{
    file_known, file_short, files_add, files_line_start, files_name, files_next, files_room_for,
    files_source_end, files_sources, files_with, index_add, index_add_less_one, low32, mk_span,
    RawSpan, spec_file_name, spec_index_add, spec_line_start, spec_low32, spec_source_end, TermPos,
};
use crate::text::{join, join2, join3, spec_join};

verus! {

/// `lalrpop_util::ParseError`: an error of the generated parser. It is taken
/// apart by `lalrpop_parts`.
#[verifier::external_type_specification]
#[verifier::external_body]
#[verifier::reject_recursive_types(L)]
#[verifier::reject_recursive_types(T)]
#[verifier::reject_recursive_types(E)]
pub struct ExGrammarError<L, T, E>(GrammarError<L, T, E>);

/// `lalrpop_util::ErrorRecovery`: an error that the generated parser
/// recovered from, with the tokens that it dropped.
#[verifier::external_type_specification]
#[verifier::external_body]
#[verifier::reject_recursive_types(L)]
#[verifier::reject_recursive_types(T)]
#[verifier::reject_recursive_types(E)]
pub struct ExErrorRecovery<L, T, E>(ErrorRecovery<L, T, E>);

/// `serde_json::Error`: an error of the JSON parser.
#[verifier::external_type_specification]
#[verifier::external_body]
pub struct ExJsonError(JsonError);

/// `serde_yaml::Error`: an error of the YAML parser.
#[verifier::external_type_specification]
#[verifier::external_body]
pub struct ExYamlError(YamlError);

/// `toml::de::Error`: an error of the TOML parser.
#[verifier::external_type_specification]
#[verifier::external_body]
pub struct ExTomlError(TomlError);

/// An identifier, with whether the interpreter generated it.
#[derive(Clone, Debug, PartialEq, Eq)]
pub struct Ident {
    pub label: String,
    pub generated: bool,
}

/// An error of the lexer, with the positions that it concerns.
#[derive(Clone, Copy, Debug, PartialEq, Eq)]
pub enum LexicalError {
    /// A generic error between two positions.
    Generic(usize, usize),
    /// A closing brace without an opening one.
    UnmatchedCloseBrace(usize),
    /// An invalid escape sequence in a string.
    InvalidEscapeSequence(usize),
    /// An invalid ASCII escape code in a string.
    InvalidAsciiEscapeCode(usize),
}

/// An error that the grammar's own actions raise.
#[derive(Clone, Debug, PartialEq, Eq)]
pub enum InternalParseError {
    Lexical(LexicalError),
    UnboundTypeVariables(Vec<Ident>, RawSpan),
    InvalidUniRecord(RawSpan, RawSpan, RawSpan),
}

/// What an error of the generated parser holds, without the tokens.
#[derive(Clone, Debug, PartialEq, Eq)]
pub enum ParserFailure {
    InvalidToken { location: usize },
    UnrecognizedEOF { location: usize, expected: Vec<String> },
    UnrecognizedToken { start: usize, end: usize, expected: Vec<String> },
    ExtraToken { start: usize, end: usize },
    User { error: InternalParseError },
}

/// An error occurring during parsing.
#[derive(Clone, Debug, PartialEq, Eq)]
pub enum ParseError {
    /// Unexpected end of file, with the tokens that the parser expected.
    UnexpectedEOF(FileId, Vec<String>),
    /// Unexpected token, with the tokens that the parser expected.
    UnexpectedToken(RawSpan, Vec<String>),
    /// Superfluous, unexpected token.
    ExtraToken(RawSpan),
    /// A closing brace '}' does not match an opening brace '{'.
    UnmatchedCloseBrace(RawSpan),
    /// Invalid escape sequence in a string literal.
    InvalidEscapeSequence(RawSpan),
    /// Invalid ASCII escape code in a string literal.
    InvalidAsciiEscapeCode(RawSpan),
    /// Error when parsing an external format such as JSON or YAML: the
    /// format, the message and the position.
    ExternalFormatError(String, String, Option<RawSpan>),
    /// Unbound type variables.
    UnboundTypeVariables(Vec<Ident>, RawSpan),
    /// Illegal record literal in the presence of a polymorphic tail: the
    /// position of the illegal construct, of the tail, and of the record.
    InvalidUniRecord(RawSpan, RawSpan, RawSpan),
}

/// The errors of one parse.
#[derive(Clone, Debug, PartialEq, Eq)]
pub struct ParseErrors {
    pub errors: Vec<ParseError>,
}

/// A general I/O error, occurring when reading a source file or writing an
/// export.
#[derive(Clone, Debug, PartialEq, Eq)]
pub struct IOError(pub String);

/// An error occurring during a REPL session.
#[derive(Clone, Debug, PartialEq, Eq)]
pub enum ReplError {
    UnknownCommand(String),
    /// A command lacks an argument: the command as it is written, and a
    /// message if there is one.
    MissingArg { cmd: String, msg_opt: Option<String> },
}

/// Takes an error of the generated parser apart: one arm for each variant of
/// `lalrpop_util::ParseError`, moving the fields and leaving the tokens.
#[verifier::external_body]
fn lalrpop_parts<T>(error: GrammarError<usize, T, InternalParseError>) -> ParserFailure {
    match error {
        GrammarError::InvalidToken { location } => ParserFailure::InvalidToken { location },
        GrammarError::UnrecognizedEOF { location, expected } => {
            ParserFailure::UnrecognizedEOF { location, expected }
        },
        GrammarError::UnrecognizedToken { token: (start, _, end), expected } => {
            ParserFailure::UnrecognizedToken { start, end, expected }
        },
        GrammarError::ExtraToken { token: (start, _, end) } => ParserFailure::ExtraToken { start, end },
        GrammarError::User { error } => ParserFailure::User { error },
    }
}

/// Takes the error out of an `ErrorRecovery` of the generated parser.
#[verifier::external_body]
fn recovery_error<T>(
    recovery: ErrorRecovery<usize, T, InternalParseError>,
) -> GrammarError<usize, T, InternalParseError> {
    recovery.error
}

/// The line that an error of the JSON parser was detected at, counted from
/// one; zero if the error has no place.
pub uninterp spec fn json_error_line(error: JsonError) -> usize;

/// The column that an error of the JSON parser was detected at, counted
/// from one.
pub uninterp spec fn json_error_column(error: JsonError) -> usize;

/// The byte index that an error of the YAML parser was detected at, if the
/// error has a place.
pub uninterp spec fn yaml_error_index(error: YamlError) -> Option<usize>;

/// The line and the column that an error of the TOML parser was detected
/// at, both counted from zero, if the error has a place.
pub uninterp spec fn toml_error_line_col(error: TomlError) -> Option<(usize, usize)>;

/// What an error of the TOML parser says.
pub uninterp spec fn toml_error_message(error: TomlError) -> Seq<char>;

/// Calls `serde_json::Error::line`, which reads the line that the error
/// holds.
#[verifier::external_body]
fn json_line(error: &JsonError) -> (line: usize)
    ensures
        line == json_error_line(*error),
{
    error.line()
}

/// Calls `serde_json::Error::column`, which reads the column that the error
/// holds.
#[verifier::external_body]
fn json_column(error: &JsonError) -> (column: usize)
    ensures
        column == json_error_column(*error),
{
    error.column()
}

/// Writes a `serde_json::Error` as text, as its `Display` does. Nothing is
/// claimed of the text: an error that holds an error of the operating
/// system says what the operating system says of it.
#[verifier::external_body]
fn json_message(error: &JsonError) -> String {
    error.to_string()
}

/// Calls `serde_yaml::Error::location` and gives the byte index of the
/// location, which the error holds.
#[verifier::external_body]
fn yaml_index(error: &YamlError) -> (index: Option<usize>)
    ensures
        index == yaml_error_index(*error),
{
    match error.location() {
        Some(location) => Some(location.index()),
        None => None,
    }
}

/// Writes a `serde_yaml::Error` as text, as its `Display` does. Nothing is
/// claimed of the text: an error that holds an error of the operating
/// system says what the operating system says of it.
#[verifier::external_body]
fn yaml_message(error: &YamlError) -> String {
    error.to_string()
}

/// Calls `toml::de::Error::line_col`, which reads the line and the column
/// that the error holds.
#[verifier::external_body]
fn toml_line_col(error: &TomlError) -> (line_col: Option<(usize, usize)>)
    ensures
        line_col == toml_error_line_col(*error),
{
    error.line_col()
}

/// Writes a `toml::de::Error` as text, as its `Display` does: the text is
/// made of what the error holds.
#[verifier::external_body]
fn toml_message(error: &TomlError) -> (message: String)
    ensures
        message@ == toml_error_message(*error),
{
    error.to_string()
}

impl Default for ParseErrors {
    /// No error.
    fn default() -> (r: ParseErrors)
        ensures
            r.errors@.len() == 0,
    {
        ParseErrors { errors: Vec::new() }
    }
}

impl ParseErrors {
    /// The errors `errors`.
    pub fn new(errors: Vec<ParseError>) -> (r: ParseErrors)
        ensures
            r.errors == errors,
    {
        ParseErrors { errors }
    }

    /// The errors, if there is one.
    pub fn errors(self) -> (r: Option<Vec<ParseError>>)
        ensures
            r == (if self.errors@.len() == 0 {
                None
            } else {
                Some(self.errors)
            }),
    {
        if self.errors.len() == 0 {
            None
        } else {
            Some(self.errors)
        }
    }

    /// Whether there is no error.
    pub fn no_errors(&self) -> (r: bool)
        ensures
            r == (self.errors@.len() == 0),
    {
        self.errors.len() == 0
    }

    /// No errors.
    pub fn none() -> (r: ParseErrors)
        ensures
            r.errors@.len() == 0,
    {
        ParseErrors { errors: Vec::new() }
    }

    /// The one error `e`.
    pub fn from(e: ParseError) -> (r: ParseErrors)
        ensures
            r.errors@ == seq![e],
    {
        let mut errors: Vec<ParseError> = Vec::new();
        errors.push(e);
        ParseErrors { errors }
    }

    /// The errors that the generated parser recovered from, in their order.
    pub fn from_recoverable<T>(
        errs: Vec<ErrorRecovery<usize, T, InternalParseError>>,
        file_id: FileId,
    ) -> (r: ParseErrors)
        ensures
            r.errors@.len() == errs@.len(),
            forall|i: int|
                0 <= i < r.errors@.len() ==> ParseError::converted(file_id, #[trigger] r.errors@[i]),
    {
        let mut rest = errs;
        let mut back: Vec<ParseError> = Vec::new();
        while rest.len() > 0
            invariant
                rest@.len() + back@.len() == errs@.len(),
                forall|i: int|
                    0 <= i < back@.len() ==> ParseError::converted(file_id, #[trigger] back@[i]),
            decreases rest@.len(),
        {
            let recovery = rest.pop().unwrap();
            let e = ParseError::from_lalrpop(recovery_error(recovery), file_id);
            back.push(e);
        }
        let mut errors: Vec<ParseError> = Vec::new();
        while back.len() > 0
            invariant
                errors@.len() + back@.len() == errs@.len(),
                forall|i: int|
                    0 <= i < back@.len() ==> ParseError::converted(file_id, #[trigger] back@[i]),
                forall|i: int|
                    0 <= i < errors@.len() ==> ParseError::converted(file_id, #[trigger] errors@[i]),
            decreases back@.len(),
        {
            let e = back.pop().unwrap();
            errors.push(e);
        }
        ParseErrors { errors }
    }
}

/// The span of `file_id` from `l` up to `r`, positions cut to 32 bits.
pub open spec fn spec_mk_span(file_id: FileId, l: int, r: int) -> RawSpan {
    RawSpan { src_id: file_id, start: spec_low32(l), end: spec_low32(r) }
}

/// The span of `file_id` that starts at `l` and is `len` bytes long,
/// positions cut to 32 bits.
fn span_at(file_id: FileId, l: usize, len: u32) -> (span: RawSpan)
    requires
        len <= 2,
    ensures
        span == spec_mk_span(file_id, l as int, l + len),
{
    let start: u32 = low32(l);
    let end: u32 = index_add(start, len);
    proof {
        let m = 0x1_0000_0000int;
        vstd::arithmetic::div_mod::lemma_add_mod_noop(l as int, len as int, m);
        vstd::arithmetic::div_mod::lemma_small_mod(len as nat, m as nat);
        assert(start as int == (l as int) % m);
        assert((len as int) % m == len);
        assert(end as int == ((start as int) + (len as int)) % m);
        assert(((l as int) % m + (len as int) % m) % m == (l + len) % m);
        assert(0 <= (l + len) % m < m);
        assert(end as int == (l + len) % m);
        assert(spec_low32(l + len) as int == (l + len) % m);
        assert(end == spec_low32(l + len));
        assert(start == spec_low32(l as int));
    }
    let span = RawSpan { src_id: file_id, start, end };
    assert(span == spec_mk_span(file_id, l as int, l + len));
    span
}

impl ParseError {
    /// Whether `r` is the parse error that a failure of the generated parser
    /// stands for.
    pub open spec fn spec_from_failure(failure: ParserFailure, file_id: FileId, r: ParseError) -> bool {
        match failure {
            ParserFailure::InvalidToken { location } => r matches ParseError::UnexpectedToken(
                span,
                expected,
            ) && span == spec_mk_span(file_id, location as int, location + 1) && expected@.len()
                == 0,
            ParserFailure::UnrecognizedToken { start, end, expected } => r
                == ParseError::UnexpectedToken(
                spec_mk_span(file_id, start as int, end as int),
                expected,
            ),
            ParserFailure::UnrecognizedEOF { location, expected } => r == ParseError::UnexpectedEOF(
                file_id,
                expected,
            ),
            ParserFailure::ExtraToken { start, end } => r == ParseError::ExtraToken(
                spec_mk_span(file_id, start as int, end as int),
            ),
            ParserFailure::User { error } => match error {
                InternalParseError::Lexical(LexicalError::Generic(start, end)) => r matches ParseError::UnexpectedToken(
                    span,
                    expected,
                ) && span == spec_mk_span(file_id, start as int, end as int) && expected@.len()
                    == 0,
                InternalParseError::Lexical(LexicalError::UnmatchedCloseBrace(location)) => r
                    == ParseError::UnmatchedCloseBrace(
                    spec_mk_span(file_id, location as int, location + 1),
                ),
                InternalParseError::Lexical(LexicalError::InvalidEscapeSequence(location)) => r
                    == ParseError::InvalidEscapeSequence(
                    spec_mk_span(file_id, location as int, location + 1),
                ),
                InternalParseError::Lexical(LexicalError::InvalidAsciiEscapeCode(location)) => r
                    == ParseError::InvalidAsciiEscapeCode(
                    spec_mk_span(file_id, location as int, location + 2),
                ),
                InternalParseError::UnboundTypeVariables(idents, span) => r
                    == ParseError::UnboundTypeVariables(idents, span),
                InternalParseError::InvalidUniRecord(illegal_pos, tail_pos, pos) => r
                    == ParseError::InvalidUniRecord(illegal_pos, tail_pos, pos),
            },
        }
    }

    /// The parse error that a failure of the generated parser stands for.
    pub fn from_failure(failure: ParserFailure, file_id: FileId) -> (r: ParseError)
        ensures
            ParseError::spec_from_failure(failure, file_id, r),
    {
        match failure {
            ParserFailure::InvalidToken { location } => ParseError::UnexpectedToken(
                span_at(file_id, location, 1),
                Vec::new(),
            ),
            ParserFailure::UnrecognizedToken { start, end, expected } => {
                ParseError::UnexpectedToken(mk_span(file_id, start, end), expected)
            },
            ParserFailure::UnrecognizedEOF { location, expected } => ParseError::UnexpectedEOF(
                file_id,
                expected,
            ),
            ParserFailure::ExtraToken { start, end } => ParseError::ExtraToken(
                mk_span(file_id, start, end),
            ),
            ParserFailure::User { error } => match error {
                InternalParseError::Lexical(LexicalError::Generic(start, end)) => {
                    ParseError::UnexpectedToken(mk_span(file_id, start, end), Vec::new())
                },
                InternalParseError::Lexical(LexicalError::UnmatchedCloseBrace(location)) => {
                    ParseError::UnmatchedCloseBrace(span_at(file_id, location, 1))
                },
                InternalParseError::Lexical(LexicalError::InvalidEscapeSequence(location)) => {
                    ParseError::InvalidEscapeSequence(span_at(file_id, location, 1))
                },
                InternalParseError::Lexical(LexicalError::InvalidAsciiEscapeCode(location)) => {
                    ParseError::InvalidAsciiEscapeCode(span_at(file_id, location, 2))
                },
                InternalParseError::UnboundTypeVariables(idents, span) => {
                    ParseError::UnboundTypeVariables(idents, span)
                },
                InternalParseError::InvalidUniRecord(illegal_pos, tail_pos, pos) => {
                    ParseError::InvalidUniRecord(illegal_pos, tail_pos, pos)
                },
            },
        }
    }

    /// The parse error that an error of the generated parser stands for.
    pub fn from_lalrpop<T>(
        error: GrammarError<usize, T, InternalParseError>,
        file_id: FileId,
    ) -> (r: ParseError)
        ensures
            ParseError::converted(file_id, r),
    {
        let failure = lalrpop_parts(error);
        let r = ParseError::from_failure(failure, file_id);
        assert(ParseError::spec_from_failure(failure, file_id, r));
        r
    }

    /// Whether `r` is the parse error that some failure of the generated
    /// parser in `file_id` stands for.
    pub open spec fn converted(file_id: FileId, r: ParseError) -> bool {
        exists|failure: ParserFailure| ParseError::spec_from_failure(failure, file_id, r)
    }

    /// The error of an external format, at the byte `start` of `file_id` if
    /// a position is known.
    pub open spec fn spec_external(
        format: Seq<char>,
        start: Option<u32>,
        file_id: FileId,
        r: ParseError,
    ) -> bool {
        &&& r matches ParseError::ExternalFormatError(f, m, span)
        &&& f@ == format
        &&& span == match start {
            Some(s) => Some(RawSpan { src_id: file_id, start: s, end: spec_index_add(s, 1) }),
            None => None,
        }
    }

    /// The error of an external format, at the byte `start` of `file_id` if
    /// a position is known.
    pub fn external(format: &str, message: String, start: Option<u32>, file_id: FileId) -> (r:
        ParseError)
        ensures
            ParseError::spec_external(format@, start, file_id, r),
            r matches ParseError::ExternalFormatError(_, m, _) && m@ == message@,
    {
        let span: Option<RawSpan> = match start {
            Some(s) => Some(RawSpan { src_id: file_id, start: s, end: index_add(s, 1) }),
            None => None,
        };
        ParseError::ExternalFormatError(format.to_owned(), message, span)
    }

    /// Where an error at line `line` and column `column`, both counted from
    /// one, lies in `file_id`: nowhere if the line is zero or the file has
    /// no such line.
    pub open spec fn spec_json_start(
        line: usize,
        column: usize,
        file_id: FileId,
        files: Files<String>,
    ) -> Option<u32> {
        if line == 0 {
            None
        } else {
            match spec_line_start(files, file_id, spec_low32(line - 1)) {
                Some(s) => Some(spec_index_add(s, spec_low32(column as int) - 1)),
                None => None,
            }
        }
    }

    /// Where an error at line `line` and column `column`, both counted from
    /// one, lies in `file_id`.
    pub fn json_start(line: usize, column: usize, file_id: FileId, files: &Files<String>) -> (r:
        Option<u32>)
        requires
            file_known(*files, file_id),
            file_short(*files, file_id),
        ensures
            r == ParseError::spec_json_start(line, column, file_id, *files),
    {
        if line == 0 {
            None
        } else {
            match files_line_start(files, file_id, low32(line - 1)) {
                Some(s) => Some(index_add_less_one(s, low32(column))),
                None => None,
            }
        }
    }

    /// The parse error that an error of the JSON parser stands for: an error
    /// of the format `json` with what the error says as its message, at the
    /// line and column that the error holds.
    pub fn from_serde_json(error: JsonError, file_id: FileId, files: &Files<String>) -> (r:
        ParseError)
        requires
            file_known(*files, file_id),
            file_short(*files, file_id),
        ensures
            ParseError::spec_external(
                "json"@,
                ParseError::spec_json_start(
                    json_error_line(error),
                    json_error_column(error),
                    file_id,
                    *files,
                ),
                file_id,
                r,
            ),
    {
        let line: usize = json_line(&error);
        let column: usize = json_column(&error);
        let message = json_message(&error);
        let start = ParseError::json_start(line, column, file_id, files);
        let r = ParseError::external("json", message, start, file_id);
        r
    }

    /// Where an error at byte `index` lies, if an index is known.
    pub open spec fn spec_yaml_start(index: Option<usize>) -> Option<u32> {
        match index {
            Some(i) => Some(spec_low32(i as int)),
            None => None,
        }
    }

    /// Where an error at byte `index` lies, if an index is known.
    pub fn yaml_start(index: Option<usize>) -> (r: Option<u32>)
        ensures
            r == ParseError::spec_yaml_start(index),
    {
        match index {
            Some(i) => Some(low32(i)),
            None => None,
        }
    }

    /// The parse error that an error of the YAML parser stands for: an error
    /// of the format `yaml` with what the error says as its message, at the
    /// byte index that the error holds.
    pub fn from_serde_yaml(error: YamlError, file_id: FileId) -> (r: ParseError)
        ensures
            ParseError::spec_external(
                "yaml"@,
                ParseError::spec_yaml_start(yaml_error_index(error)),
                file_id,
                r,
            ),
    {
        let index = yaml_index(&error);
        let message = yaml_message(&error);
        let start = ParseError::yaml_start(index);
        let r = ParseError::external("yaml", message, start, file_id);
        r
    }

    /// Where an error at a line and column, both counted from zero, lies in
    /// `file_id`: nowhere if the place is not known or the file has no such
    /// line.
    pub open spec fn spec_toml_start(
        line_col: Option<(usize, usize)>,
        file_id: FileId,
        files: Files<String>,
    ) -> Option<u32> {
        match line_col {
            Some((line, col)) => match spec_line_start(files, file_id, spec_low32(line as int)) {
                Some(s) => Some(spec_index_add(s, spec_low32(col as int) as int)),
                None => None,
            },
            None => None,
        }
    }

    /// Where an error at a line and column, both counted from zero, lies in
    /// `file_id`.
    pub fn toml_start(line_col: Option<(usize, usize)>, file_id: FileId, files: &Files<String>) -> (r:
        Option<u32>)
        requires
            file_known(*files, file_id),
            file_short(*files, file_id),
        ensures
            r == ParseError::spec_toml_start(line_col, file_id, *files),
    {
        match line_col {
            Some((line, col)) => match files_line_start(files, file_id, low32(line)) {
                Some(s) => Some(index_add(s, low32(col))),
                None => None,
            },
            None => None,
        }
    }

    /// The parse error that an error of the TOML parser stands for: an error
    /// of the format `toml` with what the error says as its message, at the
    /// line and column that the error holds.
    pub fn from_toml(error: TomlError, file_id: FileId, files: &Files<String>) -> (r:
        ParseError)
        requires
            file_known(*files, file_id),
            file_short(*files, file_id),
        ensures
            ParseError::spec_external(
                "toml"@,
                ParseError::spec_toml_start(toml_error_line_col(error), file_id, *files),
                file_id,
                r,
            ),
            r matches ParseError::ExternalFormatError(_, m, _) && m@ == toml_error_message(error),
    {
        let line_col = toml_line_col(&error);
        let message = toml_message(&error);
        let start = ParseError::toml_start(line_col, file_id, files);
        let r = ParseError::external("toml", message, start, file_id);
        r
    }
}

/// A term as far as an error shows it: its position, its shallow
/// representation, and the name of its type if it is evaluated.
#[derive(Clone, Debug, PartialEq, Eq)]
pub struct RichTerm {
    pub pos: TermPos,
    pub repr: String,
    pub type_of: Option<String>,
}

/// An error occurred during serialization.
#[derive(Clone, Debug, PartialEq, Eq)]
pub enum SerializationError {
    /// Encountered a null value for a format that doesn't support them: the
    /// format as it is written, and the term.
    UnsupportedNull(String, RichTerm),
    /// Tried exporting something else than a `Str` to raw format.
    NotAString(RichTerm),
    /// A term contains constructs that cannot be serialized.
    NonSerializable(RichTerm),
    Other(String),
}

/// An error occurring during the resolution of an import.
#[derive(Clone, Debug, PartialEq, Eq)]
pub enum ImportError {
    /// An IO error occurred during an import: the imported file, the
    /// message, and the position of the import.
    IOError(String, String, TermPos),
    /// A parse error occurred during an import.
    ParseErrors(ParseErrors, TermPos),
}

/// The label of style `style` on `span`, without a message.
pub open spec fn spec_label(style: LabelStyle, span: RawSpan) -> LabelView {
    LabelView {
        style,
        file_id: span.src_id,
        start: span.start as usize,
        end: span.end as usize,
        message: Seq::<char>::empty(),
    }
}

/// The label of style `style` on `span` with message `message`.
pub open spec fn spec_label_msg(style: LabelStyle, span: RawSpan, message: Seq<char>) -> LabelView {
    LabelView { message, ..spec_label(style, span) }
}

/// A label of style `style` on `span`.
pub fn styled(style: LabelStyle, span: &RawSpan) -> (l: Label)
    ensures
        l@ == spec_label(style, *span),
{
    Label::new(style, span.src_id, span.start as usize, span.end as usize)
}

/// A primary label on `span`.
pub fn primary(span: &RawSpan) -> (l: Label)
    ensures
        l@ == spec_label(LabelStyle::Primary, *span),
{
    styled(LabelStyle::Primary, span)
}

/// A secondary label on `span`.
pub fn secondary(span: &RawSpan) -> (l: Label)
    ensures
        l@ == spec_label(LabelStyle::Secondary, *span),
{
    styled(LabelStyle::Secondary, span)
}

/// A label of style `style` on `span` with the message `message`.
pub fn labelled(style: LabelStyle, span: &RawSpan, message: &str) -> (l: Label)
    ensures
        l@ == spec_label_msg(style, *span, message@),
{
    styled(style, span).with_message(message.to_owned())
}

/// The name under which a snippet that stands for a term without position
/// is added to the files.
pub open spec fn spec_snippet_name() -> Seq<char> {
    "<unknown> (generated by evaluation)"@
}

/// The label for a term that may have no position: on its span if it has
/// one, else on the whole of the snippet `alt_term`, which is added to the
/// files for it.
pub open spec fn spec_label_alt(
    span_opt: Option<RawSpan>,
    alt_term: Seq<char>,
    style: LabelStyle,
    files: Files<String>,
) -> LabelView {
    match span_opt {
        Some(span) => spec_label(style, span),
        None => LabelView {
            style,
            file_id: files_next(files),
            start: 0,
            end: encode_utf8(alt_term).len() as usize,
            message: Seq::<char>::empty(),
        },
    }
}

/// The files after `spec_label_alt`.
pub open spec fn spec_files_alt(
    span_opt: Option<RawSpan>,
    alt_term: Seq<char>,
    files: Files<String>,
) -> Files<String> {
    match span_opt {
        Some(_) => files,
        None => files_with(files, spec_snippet_name(), alt_term),
    }
}

/// How many snippets a label for a term at `span_opt` adds to the files.
pub open spec fn alt_count(span_opt: Option<RawSpan>) -> nat {
    match span_opt {
        Some(_) => 0,
        None => 1,
    }
}

/// Create a label from an optional span, or fall back to annotating the
/// alternative snippet `alt_term` if the span is `None`: the snippet is then
/// added to `files` under a special name and the label refers to it.
pub fn label_alt(
    span_opt: Option<RawSpan>,
    alt_term: String,
    style: LabelStyle,
    files: &mut Files<String>,
) -> (l: Label)
    requires
        files_room_for(*old(files), alt_count(span_opt)),
    ensures
        l@ == spec_label_alt(span_opt, alt_term@, style, *old(files)),
        *final(files) == spec_files_alt(span_opt, alt_term@, *old(files)),
        files_sources(*final(files)).len() == files_sources(*old(files)).len() + alt_count(
            span_opt,
        ),
        forall|other: FileId| #[trigger]
            file_known(*old(files), other) ==> file_known(*final(files), other),
        forall|other: FileId| #[trigger]
            file_short(*old(files), other) ==> file_short(*final(files), other),
{
    match span_opt {
        Some(span) => styled(style, &span),
        None => {
            let end: usize = alt_term.as_str().len();
            let file_id = files_add(files, "<unknown> (generated by evaluation)", alt_term);
            Label::new(style, file_id, 0, end)
        },
    }
}

/// A primary label from an optional span, or on the snippet `alt_term`.
pub fn primary_alt(span_opt: Option<RawSpan>, alt_term: String, files: &mut Files<String>) -> (l:
    Label)
    requires
        files_room_for(*old(files), alt_count(span_opt)),
    ensures
        l@ == spec_label_alt(span_opt, alt_term@, LabelStyle::Primary, *old(files)),
        *final(files) == spec_files_alt(span_opt, alt_term@, *old(files)),
        files_sources(*final(files)).len() == files_sources(*old(files)).len() + alt_count(
            span_opt,
        ),
        forall|other: FileId| #[trigger]
            file_known(*old(files), other) ==> file_known(*final(files), other),
        forall|other: FileId| #[trigger]
            file_short(*old(files), other) ==> file_short(*final(files), other),
{
    label_alt(span_opt, alt_term, LabelStyle::Primary, files)
}

/// A secondary label from a position, or on the snippet `alt_term`.
pub fn secondary_alt(span_opt: TermPos, alt_term: String, files: &mut Files<String>) -> (l: Label)
    requires
        files_room_for(*old(files), alt_count(span_opt.spec_into_opt())),
    ensures
        l@ == spec_label_alt(
            span_opt.spec_into_opt(),
            alt_term@,
            LabelStyle::Secondary,
            *old(files),
        ),
        *final(files) == spec_files_alt(span_opt.spec_into_opt(), alt_term@, *old(files)),
        files_sources(*final(files)).len() == files_sources(*old(files)).len() + alt_count(
            span_opt.spec_into_opt(),
        ),
        forall|other: FileId| #[trigger]
            file_known(*old(files), other) ==> file_known(*final(files), other),
        forall|other: FileId| #[trigger]
            file_short(*old(files), other) ==> file_short(*final(files), other),
{
    label_alt(span_opt.into_opt(), alt_term, LabelStyle::Secondary, files)
}

/// A primary label on a term, or on its shallow representation if it has no
/// position.
pub fn primary_term(term: &RichTerm, files: &mut Files<String>) -> (l: Label)
    requires
        files_room_for(*old(files), alt_count(term.pos.spec_into_opt())),
    ensures
        l@ == spec_label_alt(
            term.pos.spec_into_opt(),
            term.repr@,
            LabelStyle::Primary,
            *old(files),
        ),
        *final(files) == spec_files_alt(term.pos.spec_into_opt(), term.repr@, *old(files)),
        files_sources(*final(files)).len() == files_sources(*old(files)).len() + alt_count(
            term.pos.spec_into_opt(),
        ),
        forall|other: FileId| #[trigger]
            file_known(*old(files), other) ==> file_known(*final(files), other),
        forall|other: FileId| #[trigger]
            file_short(*old(files), other) ==> file_short(*final(files), other),
{
    primary_alt(term.pos.into_opt(), term.repr.clone(), files)
}

/// A secondary label on a term, or on its shallow representation if it has
/// no position.
pub fn secondary_term(term: &RichTerm, files: &mut Files<String>) -> (l: Label)
    requires
        files_room_for(*old(files), alt_count(term.pos.spec_into_opt())),
    ensures
        l@ == spec_label_alt(
            term.pos.spec_into_opt(),
            term.repr@,
            LabelStyle::Secondary,
            *old(files),
        ),
        *final(files) == spec_files_alt(term.pos.spec_into_opt(), term.repr@, *old(files)),
        files_sources(*final(files)).len() == files_sources(*old(files)).len() + alt_count(
            term.pos.spec_into_opt(),
        ),
        forall|other: FileId| #[trigger]
            file_known(*old(files), other) ==> file_known(*final(files), other),
        forall|other: FileId| #[trigger]
            file_short(*old(files), other) ==> file_short(*final(files), other),
{
    secondary_alt(term.pos, term.repr.clone(), files)
}

/// Adds `label` behind `labels`.
pub fn push_label(labels: &mut Vec<Label>, label: Label)
    ensures
        final(labels).deep_view() == old(labels).deep_view().push(label@),
{
    let ghost before = labels.deep_view();
    let ghost raw = labels@;
    labels.push(label);
    proof {
        assert(labels.deep_view() =~= before.push(label@)) by {
            assert forall|i: int| 0 <= i < labels@.len() implies labels.deep_view()[i]
                == before.push(label@)[i] by {
                if i < raw.len() {
                    assert(before[i] == raw[i]@);
                }
            }
        }
    }
}

/// Adds `note` behind `notes`.
pub fn push_note(notes: &mut Vec<String>, note: String)
    ensures
        final(notes).deep_view() == old(notes).deep_view().push(note@),
{
    let ghost before = notes.deep_view();
    let ghost raw = notes@;
    notes.push(note);
    proof {
        assert(notes.deep_view() =~= before.push(note@)) by {
            assert forall|i: int| 0 <= i < notes@.len() implies notes.deep_view()[i]
                == before.push(note@)[i] by {
                if i < raw.len() {
                    assert(before[i] == raw[i]@);
                }
            }
        }
    }
}

/// Adds `diagnostic` behind `diagnostics`.
pub fn push_diagnostic(diagnostics: &mut Vec<Diagnostic>, diagnostic: Diagnostic)
    ensures
        final(diagnostics).deep_view() == old(diagnostics).deep_view().push(diagnostic@),
{
    let ghost before = diagnostics.deep_view();
    let ghost raw = diagnostics@;
    diagnostics.push(diagnostic);
    proof {
        assert(diagnostics.deep_view() =~= before.push(diagnostic@)) by {
            assert forall|i: int| 0 <= i < diagnostics@.len() implies diagnostics.deep_view()[i]
                == before.push(diagnostic@)[i] by {
                if i < raw.len() {
                    assert(before[i] == raw[i]@);
                }
            }
        }
    }
}

/// The error diagnostic with the given message, labels and notes.
pub open spec fn spec_error(message: Seq<char>, labels: Seq<LabelView>, notes: Seq<Seq<char>>) -> DiagnosticView {
    DiagnosticView { severity: Severity::Error, code: None, message, labels, notes }
}

/// The error diagnostic with the given message, labels and notes.
pub fn error_with(message: String, labels: Vec<Label>, notes: Vec<String>) -> (d: Diagnostic)
    ensures
        d@ == spec_error(message@, labels.deep_view(), notes.deep_view()),
{
    let d = Diagnostic::error().with_message(message).with_labels(labels).with_notes(notes);
    assert(d@.labels =~= labels.deep_view());
    assert(d@.notes =~= notes.deep_view());
    d
}

/// The one diagnostic `d` as a list.
pub fn single(d: Diagnostic) -> (r: Vec<Diagnostic>)
    ensures
        r.deep_view() == seq![d@],
{
    let mut r: Vec<Diagnostic> = Vec::new();
    proof {
        assert(r.deep_view() =~= Seq::<DiagnosticView>::empty());
    }
    push_diagnostic(&mut r, d);
    proof {
        assert(r.deep_view() =~= seq![d@]);
    }
    r
}

/// No labels.
pub fn no_labels() -> (r: Vec<Label>)
    ensures
        r.deep_view() == Seq::<LabelView>::empty(),
{
    let r: Vec<Label> = Vec::new();
    assert(r.deep_view() =~= Seq::<LabelView>::empty());
    r
}

/// No notes.
pub fn no_notes() -> (r: Vec<String>)
    ensures
        r.deep_view() == Seq::<Seq<char>>::empty(),
{
    let r: Vec<String> = Vec::new();
    assert(r.deep_view() =~= Seq::<Seq<char>>::empty());
    r
}

/// The labels that mark a position that may be missing: one label of style
/// `style` with message `message` on the span, or none.
pub open spec fn spec_pos_labels(style: LabelStyle, pos: Option<RawSpan>, message: Seq<char>) -> Seq<
    LabelView,
> {
    match pos {
        Some(span) => seq![spec_label_msg(style, span, message)],
        None => Seq::<LabelView>::empty(),
    }
}

/// The labels that mark a position that may be missing.
pub fn pos_labels(style: LabelStyle, pos: Option<RawSpan>, message: &str) -> (r: Vec<Label>)
    ensures
        r.deep_view() == spec_pos_labels(style, pos, message@),
{
    let mut r = no_labels();
    match pos {
        Some(span) => {
            push_label(&mut r, labelled(style, &span, message));
            proof {
                assert(r.deep_view() =~= seq![spec_label_msg(style, span, message@)]);
            }
        },
        None => {},
    }
    r
}

/// The identifiers, each between backquotes.
pub open spec fn spec_quoted(idents: Seq<Ident>) -> Seq<Seq<char>> {
    Seq::new(idents.len(), |i: int| "`"@ + idents[i].label@ + "`"@)
}

/// The identifiers, each between backquotes.
pub fn quoted(idents: &Vec<Ident>) -> (r: Vec<String>)
    ensures
        r.deep_view() == spec_quoted(idents@),
{
    let mut r: Vec<String> = Vec::new();
    let mut i: usize = 0;
    while i < idents.len()
        invariant
            i <= idents@.len(),
            r@.len() == i,
            forall|j: int| 0 <= j < i ==> (#[trigger] r@[j])@ == "`"@ + idents@[j].label@ + "`"@,
        decreases idents@.len() - i,
    {
        r.push(join3("`", idents[i].label.as_str(), "`"));
        i = i + 1;
    }
    proof {
        assert(r.deep_view() =~= spec_quoted(idents@));
    }
    r
}

impl ParseError {
    /// Whether the files hold what the error refers to.
    pub open spec fn known(&self, files: Files<String>) -> bool {
        *self matches ParseError::UnexpectedEOF(file_id, _) ==> file_known(files, file_id)
    }

    /// The diagnostic that reports the error.
    pub open spec fn spec_diagnostic(&self, files: Files<String>) -> DiagnosticView {
        match *self {
            ParseError::UnexpectedEOF(file_id, _) => spec_error(
                "unexpected end of file when parsing "@ + spec_file_name(files, file_id),
                seq![
                    spec_label(
                        LabelStyle::Primary,
                        RawSpan {
                            src_id: file_id,
                            start: spec_source_end(files, file_id),
                            end: spec_source_end(files, file_id),
                        },
                    ),
                ],
                Seq::<Seq<char>>::empty(),
            ),
            ParseError::UnexpectedToken(span, _) => spec_error(
                "unexpected token"@,
                seq![spec_label(LabelStyle::Primary, span)],
                Seq::<Seq<char>>::empty(),
            ),
            ParseError::ExtraToken(span) => spec_error(
                "superfluous unexpected token"@,
                seq![spec_label(LabelStyle::Primary, span)],
                Seq::<Seq<char>>::empty(),
            ),
            ParseError::UnmatchedCloseBrace(span) => spec_error(
                "unmatched closing brace '}'"@,
                seq![spec_label(LabelStyle::Primary, span)],
                Seq::<Seq<char>>::empty(),
            ),
            ParseError::InvalidEscapeSequence(span) => spec_error(
                "invalid escape sequence"@,
                seq![spec_label(LabelStyle::Primary, span)],
                Seq::<Seq<char>>::empty(),
            ),
            ParseError::InvalidAsciiEscapeCode(span) => spec_error(
                "invalid ascii escape code"@,
                seq![spec_label(LabelStyle::Primary, span)],
                Seq::<Seq<char>>::empty(),
            ),
            ParseError::ExternalFormatError(format, msg, span_opt) => spec_error(
                format@ + " parse error: "@ + msg@,
                match span_opt {
                    Some(span) => seq![spec_label(LabelStyle::Primary, span)],
                    None => Seq::<LabelView>::empty(),
                },
                Seq::<Seq<char>>::empty(),
            ),
            ParseError::UnboundTypeVariables(idents, span) => spec_error(
                "unbound type variable(s): "@ + spec_join(spec_quoted(idents@), ","@),
                seq![spec_label(LabelStyle::Primary, span)],
                Seq::<Seq<char>>::empty(),
            ),
            ParseError::InvalidUniRecord(illegal_span, tail_span, span) => spec_error(
                "invalid record literal"@,
                seq![
                    spec_label(LabelStyle::Primary, span),
                    spec_label_msg(
                        LabelStyle::Secondary,
                        illegal_span,
                        "can't use this record construct"@,
                    ),
                    spec_label_msg(LabelStyle::Secondary, tail_span, "in presence of a tail"@),
                ],
                seq![
                    "Using a polymorphic tail in a record `{ ..; a}` requires the rest of the record to be only composed of type annotations, of the form `<field>: <type>`."@,
                    "Value assignements, such as `<field> = <expr>`, metadata, etc. are forbidden."@,
                ],
            ),
        }
    }

    /// The labels of a diagnostic that marks `span` as its cause.
    fn on_span(span: &RawSpan) -> (r: Vec<Label>)
        ensures
            r.deep_view() == seq![spec_label(LabelStyle::Primary, *span)],
    {
        let mut labels = no_labels();
        push_label(&mut labels, primary(span));
        proof {
            assert(labels.deep_view() =~= seq![spec_label(LabelStyle::Primary, *span)]);
        }
        labels
    }

    /// The diagnostic that reports the error.
    pub fn diagnostic(&self, files: &Files<String>) -> (d: Diagnostic)
        requires
            self.known(*files),
        ensures
            d@ == self.spec_diagnostic(*files),
    {
        match self {
            ParseError::UnexpectedEOF(file_id, _expected) => {
                let end: u32 = files_source_end(files, *file_id);
                let name = files_name(files, *file_id);
                let message = join2("unexpected end of file when parsing ", name.as_str());
                let span = RawSpan { src_id: *file_id, start: end, end };
                error_with(message, ParseError::on_span(&span), no_notes())
            },
            ParseError::UnexpectedToken(span, _expected) => error_with(
                "unexpected token".to_owned(),
                ParseError::on_span(span),
                no_notes(),
            ),
            ParseError::ExtraToken(span) => error_with(
                "superfluous unexpected token".to_owned(),
                ParseError::on_span(span),
                no_notes(),
            ),
            ParseError::UnmatchedCloseBrace(span) => error_with(
                "unmatched closing brace '}'".to_owned(),
                ParseError::on_span(span),
                no_notes(),
            ),
            ParseError::InvalidEscapeSequence(span) => error_with(
                "invalid escape sequence".to_owned(),
                ParseError::on_span(span),
                no_notes(),
            ),
            ParseError::InvalidAsciiEscapeCode(span) => error_with(
                "invalid ascii escape code".to_owned(),
                ParseError::on_span(span),
                no_notes(),
            ),
            ParseError::ExternalFormatError(format, msg, span_opt) => {
                let labels = match span_opt {
                    Some(span) => ParseError::on_span(span),
                    None => no_labels(),
                };
                error_with(join3(format.as_str(), " parse error: ", msg.as_str()), labels, no_notes())
            },
            ParseError::UnboundTypeVariables(idents, span) => {
                let list = join(&quoted(idents), ",");
                error_with(
                    join2("unbound type variable(s): ", list.as_str()),
                    ParseError::on_span(span),
                    no_notes(),
                )
            },
            ParseError::InvalidUniRecord(illegal_span, tail_span, span) => {
                let mut labels = no_labels();
                push_label(&mut labels, primary(span));
                push_label(
                    &mut labels,
                    labelled(LabelStyle::Secondary, illegal_span, "can't use this record construct"),
                );
                push_label(
                    &mut labels,
                    labelled(LabelStyle::Secondary, tail_span, "in presence of a tail"),
                );
                let mut notes = no_notes();
                push_note(
                    &mut notes,
                    "Using a polymorphic tail in a record `{ ..; a}` requires the rest of the record to be only composed of type annotations, of the form `<field>: <type>`.".to_owned(),
                );
                push_note(
                    &mut notes,
                    "Value assignements, such as `<field> = <expr>`, metadata, etc. are forbidden.".to_owned(),
                );
                proof {
                    assert(labels.deep_view() =~= seq![
                        spec_label(LabelStyle::Primary, *span),
                        spec_label_msg(
                            LabelStyle::Secondary,
                            *illegal_span,
                            "can't use this record construct"@,
                        ),
                        spec_label_msg(LabelStyle::Secondary, *tail_span, "in presence of a tail"@),
                    ]);
                    assert(notes.deep_view() =~= seq![
                        "Using a polymorphic tail in a record `{ ..; a}` requires the rest of the record to be only composed of type annotations, of the form `<field>: <type>`."@,
                        "Value assignements, such as `<field> = <expr>`, metadata, etc. are forbidden."@,
                    ]);
                }
                error_with("invalid record literal".to_owned(), labels, notes)
            },
        }
    }

    /// The diagnostics that report the error: one.
    pub fn to_diagnostic(&self, files: &mut Files<String>, _contract_id: Option<FileId>) -> (r: Vec<
        Diagnostic,
    >)
        requires
            self.known(*old(files)),
        ensures
            r.deep_view() == seq![self.spec_diagnostic(*old(files))],
            *final(files) == *old(files),
    {
        single(self.diagnostic(files))
    }
}

impl ParseErrors {
    /// Whether the files hold what the errors refer to.
    pub open spec fn known(&self, files: Files<String>) -> bool {
        forall|i: int| 0 <= i < self.errors@.len() ==> (#[trigger] self.errors@[i]).known(files)
    }

    /// The diagnostics that report the errors: one for each, in their order.
    pub open spec fn spec_diagnostics(&self, files: Files<String>) -> Seq<DiagnosticView> {
        Seq::new(self.errors@.len(), |i: int| self.errors@[i].spec_diagnostic(files))
    }

    /// The diagnostics that report the errors: one for each, in their order.
    pub fn to_diagnostic(&self, files: &mut Files<String>, _contract_id: Option<FileId>) -> (r: Vec<
        Diagnostic,
    >)
        requires
            self.known(*old(files)),
        ensures
            r.deep_view() == self.spec_diagnostics(*old(files)),
            *final(files) == *old(files),
    {
        let mut r: Vec<Diagnostic> = Vec::new();
        let mut i: usize = 0;
        while i < self.errors.len()
            invariant
                i <= self.errors@.len(),
                self.known(*files),
                r@.len() == i,
                forall|j: int| 0 <= j < i ==> (#[trigger] r@[j])@ == self.errors@[j].spec_diagnostic(
                    *files,
                ),
            decreases self.errors@.len() - i,
        {
            r.push(self.errors[i].diagnostic(files));
            i = i + 1;
        }
        proof {
            assert(r.deep_view() =~= self.spec_diagnostics(*files));
        }
        r
    }
}

impl IOError {
    /// The diagnostic that reports the error.
    pub open spec fn spec_diagnostic(&self) -> DiagnosticView {
        spec_error(self.0@, Seq::<LabelView>::empty(), Seq::<Seq<char>>::empty())
    }

    /// The diagnostics that report the error: one.
    pub fn to_diagnostic(&self, _files: &mut Files<String>, _contract_id: Option<FileId>) -> (r: Vec<
        Diagnostic,
    >)
        ensures
            r.deep_view() == seq![self.spec_diagnostic()],
            *final(_files) == *old(_files),
    {
        single(error_with(self.0.clone(), no_labels(), no_notes()))
    }

    /// The error that stands for an error of the operating system with the
    /// given message.
    pub fn from(message: String) -> (r: IOError)
        ensures
            r.0 == message,
    {
        IOError(message)
    }
}

impl ReplError {
    /// The diagnostic that reports the error.
    pub open spec fn spec_diagnostic(&self) -> DiagnosticView {
        match *self {
            ReplError::UnknownCommand(s) => spec_error(
                "unknown command `"@ + s@ + "`"@,
                Seq::<LabelView>::empty(),
                seq!["type `:?` or `:help` for a list of available commands."@],
            ),
            ReplError::MissingArg { cmd, msg_opt } => spec_error(
                cmd@ + ": missing argument"@,
                Seq::<LabelView>::empty(),
                match msg_opt {
                    Some(msg) => seq![msg@, spec_more_information(cmd@)],
                    None => seq![spec_more_information(cmd@)],
                },
            ),
        }
    }

    /// The diagnostics that report the error: one.
    pub fn to_diagnostic(&self, _files: &mut Files<String>, _contract_id: Option<FileId>) -> (r: Vec<
        Diagnostic,
    >)
        ensures
            r.deep_view() == seq![self.spec_diagnostic()],
            *final(_files) == *old(_files),
    {
        match self {
            ReplError::UnknownCommand(s) => {
                let mut notes = no_notes();
                push_note(
                    &mut notes,
                    "type `:?` or `:help` for a list of available commands.".to_owned(),
                );
                proof {
                    assert(notes.deep_view() =~= seq![
                        "type `:?` or `:help` for a list of available commands."@,
                    ]);
                }
                single(error_with(join3("unknown command `", s.as_str(), "`"), no_labels(), notes))
            },
            ReplError::MissingArg { cmd, msg_opt } => {
                let mut notes = no_notes();
                match msg_opt {
                    Some(msg) => {
                        push_note(&mut notes, msg.clone());
                    },
                    None => {},
                }
                let mut more = join3("type `:? ", cmd.as_str(), "` or `:help ");
                let tail = join2(cmd.as_str(), "` for more information.");
                vstd::string::StringExecFns::append(&mut more, tail.as_str());
                push_note(&mut notes, more);
                proof {
                    assert(more@ =~= spec_more_information(cmd@));
                    if msg_opt is Some {
                        assert(notes.deep_view() =~= seq![
                            msg_opt->0@,
                            spec_more_information(cmd@),
                        ]);
                    } else {
                        assert(notes.deep_view() =~= seq![spec_more_information(cmd@)]);
                    }
                }
                single(error_with(join2(cmd.as_str(), ": missing argument"), no_labels(), notes))
            },
        }
    }
}

/// The note that says where more is told about the command `cmd`.
pub open spec fn spec_more_information(cmd: Seq<char>) -> Seq<char> {
    "type `:? "@ + cmd + "` or `:help "@ + cmd + "` for more information."@
}

/// The name of the type of a term, or that the term is not evaluated.
pub open spec fn spec_kind_name(term: &RichTerm) -> Seq<char> {
    match term.type_of {
        Some(t) => t@,
        None => "<unevaluated>"@,
    }
}

/// The name of the type of a term, or that the term is not evaluated.
pub fn kind_name(term: &RichTerm) -> (r: String)
    ensures
        r@ == spec_kind_name(term),
{
    match &term.type_of {
        Some(t) => t.clone(),
        None => "<unevaluated>".to_owned(),
    }
}

/// A list that holds the one label `l`.
pub fn one_label(l: Label) -> (r: Vec<Label>)
    ensures
        r.deep_view() == seq![l@],
{
    let mut r = no_labels();
    push_label(&mut r, l);
    proof {
        assert(r.deep_view() =~= seq![l@]);
    }
    r
}

/// A list that holds the one note `n`.
pub fn one_note(n: String) -> (r: Vec<String>)
    ensures
        r.deep_view() == seq![n@],
{
    let mut r = no_notes();
    push_note(&mut r, n);
    proof {
        assert(r.deep_view() =~= seq![n@]);
    }
    r
}

impl SerializationError {
    /// The term that the error is about, if it is about one.
    pub open spec fn term(&self) -> Option<RichTerm> {
        match *self {
            SerializationError::UnsupportedNull(_, rt) => Some(rt),
            SerializationError::NotAString(rt) => Some(rt),
            SerializationError::NonSerializable(rt) => Some(rt),
            SerializationError::Other(_) => None,
        }
    }

    /// How many snippets reporting the error adds to the files.
    pub open spec fn added(&self) -> nat {
        match self.term() {
            Some(rt) => alt_count(rt.pos.spec_into_opt()),
            None => 0,
        }
    }

    /// How many snippets reporting the error adds to the files.
    pub fn snippets(&self) -> (n: usize)
        ensures
            n == self.added(),
    {
        match self {
            SerializationError::UnsupportedNull(_, rt) => match rt.pos.into_opt() {
                Some(_) => 0,
                None => 1,
            },
            SerializationError::NotAString(rt) => match rt.pos.into_opt() {
                Some(_) => 0,
                None => 1,
            },
            SerializationError::NonSerializable(rt) => match rt.pos.into_opt() {
                Some(_) => 0,
                None => 1,
            },
            SerializationError::Other(_) => 0,
        }
    }

    /// The message of the diagnostic that reports the error.
    pub open spec fn spec_message(&self) -> Seq<char> {
        match *self {
            SerializationError::NotAString(rt) => "raw export only supports `Str`, got "@
                + spec_kind_name(&rt),
            SerializationError::UnsupportedNull(format, rt) => format@
                + " doesn't support null values"@,
            SerializationError::NonSerializable(rt) => "non serializable term"@,
            SerializationError::Other(msg) => "error during serialization"@,
        }
    }

    /// The diagnostic that reports the error, when the files are `files`.
    pub open spec fn spec_diagnostic(&self, files: Files<String>) -> DiagnosticView {
        match self.term() {
            Some(rt) => spec_error(
                self.spec_message(),
                seq![
                    spec_label_alt(rt.pos.spec_into_opt(), rt.repr@, LabelStyle::Primary, files),
                ],
                Seq::<Seq<char>>::empty(),
            ),
            None => spec_error(
                self.spec_message(),
                Seq::<LabelView>::empty(),
                seq![self->Other_0@],
            ),
        }
    }

    /// The files after the error was reported.
    pub open spec fn spec_files(&self, files: Files<String>) -> Files<String> {
        match self.term() {
            Some(rt) => spec_files_alt(rt.pos.spec_into_opt(), rt.repr@, files),
            None => files,
        }
    }

    /// The diagnostics that report the error: one.
    pub fn to_diagnostic(&self, files: &mut Files<String>, _contract_id: Option<FileId>) -> (r: Vec<
        Diagnostic,
    >)
        requires
            files_room_for(*old(files), self.added()),
        ensures
            r.deep_view() == seq![self.spec_diagnostic(*old(files))],
            *final(files) == self.spec_files(*old(files)),
            files_sources(*final(files)).len() == files_sources(*old(files)).len() + self.added(),
            forall|other: FileId| #[trigger]
                file_known(*old(files), other) ==> file_known(*final(files), other),
            forall|other: FileId| #[trigger]
                file_short(*old(files), other) ==> file_short(*final(files), other),
    {
        match self {
            SerializationError::NotAString(rt) => {
                let kind = kind_name(rt);
                let message = join2("raw export only supports `Str`, got ", kind.as_str());
                let label = primary_term(rt, files);
                single(error_with(message, one_label(label), no_notes()))
            },
            SerializationError::UnsupportedNull(format, rt) => {
                let message = join2(format.as_str(), " doesn't support null values");
                let label = primary_term(rt, files);
                single(error_with(message, one_label(label), no_notes()))
            },
            SerializationError::NonSerializable(rt) => {
                let label = primary_term(rt, files);
                single(error_with("non serializable term".to_owned(), one_label(label), no_notes()))
            },
            SerializationError::Other(msg) => single(
                error_with(
                    "error during serialization".to_owned(),
                    no_labels(),
                    one_note(msg.clone()),
                ),
            ),
        }
    }
}

impl ImportError {
    /// Whether the error can be reported: the files hold what it refers to,
    /// and where the position of the import is to be shown, there is a
    /// diagnostic to show it on.
    pub open spec fn reportable(&self, files: Files<String>) -> bool {
        match *self {
            ImportError::IOError(_, _, _) => true,
            ImportError::ParseErrors(errors, pos) => errors.known(files) && (
            pos.spec_into_opt() is Some ==> errors.errors@.len() > 0),
        }
    }

    /// The diagnostics that report the error.
    pub open spec fn spec_diagnostics(&self, files: Files<String>) -> Seq<DiagnosticView> {
        match *self {
            ImportError::IOError(path, error, pos) => seq![
                spec_error(
                    "import of "@ + path@ + " failed: "@ + error@,
                    spec_pos_labels(LabelStyle::Secondary, pos.spec_into_opt(), "imported here"@),
                    Seq::<Seq<char>>::empty(),
                ),
            ],
            ImportError::ParseErrors(errors, pos) => {
                let all = errors.spec_diagnostics(files);
                match pos.spec_into_opt() {
                    Some(span) => all.update(
                        0,
                        DiagnosticView {
                            labels: all[0].labels.push(
                                spec_label_msg(LabelStyle::Secondary, span, "imported here"@),
                            ),
                            ..all[0]
                        },
                    ),
                    None => all,
                }
            },
        }
    }

    /// The diagnostics that report the error.
    pub fn to_diagnostic(&self, files: &mut Files<String>, contract_id: Option<FileId>) -> (r: Vec<
        Diagnostic,
    >)
        requires
            self.reportable(*old(files)),
        ensures
            r.deep_view() == self.spec_diagnostics(*old(files)),
            *final(files) == *old(files),
    {
        match self {
            ImportError::IOError(path, error, pos) => {
                let mut message = join3("import of ", path.as_str(), " failed: ");
                vstd::string::StringExecFns::append(&mut message, error.as_str());
                let labels = pos_labels(LabelStyle::Secondary, pos.into_opt(), "imported here");
                single(error_with(message, labels, no_notes()))
            },
            ImportError::ParseErrors(errors, pos) => {
                let mut all = errors.to_diagnostic(files, contract_id);
                match pos.into_opt() {
                    Some(span) => {
                        let ghost before = all.deep_view();
                        let ghost raw = all@;
                        proof {
                            assert(before.len() == errors.errors@.len());
                            assert(before.len() == raw.len());
                            assert(before[0] == raw[0]@);
                        }
                        let mut first = all.remove(0);
                        push_label(
                            &mut first.labels,
                            labelled(LabelStyle::Secondary, &span, "imported here"),
                        );
                        all.insert(0, first);
                        proof {
                            let want = before.update(
                                0,
                                DiagnosticView {
                                    labels: before[0].labels.push(
                                        spec_label_msg(
                                            LabelStyle::Secondary,
                                            span,
                                            "imported here"@,
                                        ),
                                    ),
                                    ..before[0]
                                },
                            );
                            assert(before[0] == raw[0]@);
                            assert(all.deep_view() =~= want) by {
                                assert forall|i: int| 0 <= i < all@.len() implies all.deep_view()[i]
                                    == want[i] by {
                                    if i > 0 {
                                        assert(all@[i] == raw[i]);
                                        assert(before[i] == raw[i]@);
                                    }
                                }
                            }
                        }
                    },
                    None => {},
                }
                all
            },
        }
    }
}

} // verus!
