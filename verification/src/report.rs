//! The general error, which is an error of any phase, and what every error
//! has in common: it can be reported as diagnostics.

use vstd::prelude::*;
use vstd::std_specs::convert::FromSpecImpl;
use codespan::{FileId, Files};
use crate::diagnostic::Diagnostic;
use crate::error::{ImportError, IOError, ParseError, ParseErrors, ReplError, SerializationError};
use crate::eval_error::{EvalError, Report};
use crate::files::{file_known, file_short, files_room_for, files_sources};
use crate::typecheck_error::TypecheckError;

verus! {

/// A general error occurring during either parsing or evaluation.
#[derive(Debug)]
pub enum Error {
    EvalError(EvalError),
    TypecheckError(TypecheckError),
    ParseErrors(ParseErrors),
    ImportError(ImportError),
    SerializationError(SerializationError),
    IOError(IOError),
    ReplError(ReplError),
}

impl From<EvalError> for Error {
    fn from(error: EvalError) -> (r: Error) {
        Error::EvalError(error)
    }
}

impl FromSpecImpl<EvalError> for Error {
    open spec fn obeys_from_spec() -> bool {
        true
    }

    open spec fn from_spec(error: EvalError) -> Error {
        Error::EvalError(error)
    }
}

impl From<TypecheckError> for Error {
    fn from(error: TypecheckError) -> (r: Error) {
        Error::TypecheckError(error)
    }
}

impl FromSpecImpl<TypecheckError> for Error {
    open spec fn obeys_from_spec() -> bool {
        true
    }

    open spec fn from_spec(error: TypecheckError) -> Error {
        Error::TypecheckError(error)
    }
}

impl From<ParseErrors> for Error {
    fn from(errors: ParseErrors) -> (r: Error) {
        Error::ParseErrors(errors)
    }
}

impl FromSpecImpl<ParseErrors> for Error {
    open spec fn obeys_from_spec() -> bool {
        true
    }

    open spec fn from_spec(errors: ParseErrors) -> Error {
        Error::ParseErrors(errors)
    }
}

impl From<ImportError> for Error {
    fn from(error: ImportError) -> (r: Error) {
        Error::ImportError(error)
    }
}

impl FromSpecImpl<ImportError> for Error {
    open spec fn obeys_from_spec() -> bool {
        true
    }

    open spec fn from_spec(error: ImportError) -> Error {
        Error::ImportError(error)
    }
}

impl From<SerializationError> for Error {
    fn from(error: SerializationError) -> (r: Error) {
        Error::SerializationError(error)
    }
}

impl FromSpecImpl<SerializationError> for Error {
    open spec fn obeys_from_spec() -> bool {
        true
    }

    open spec fn from_spec(error: SerializationError) -> Error {
        Error::SerializationError(error)
    }
}

impl From<IOError> for Error {
    fn from(error: IOError) -> (r: Error) {
        Error::IOError(error)
    }
}

impl FromSpecImpl<IOError> for Error {
    open spec fn obeys_from_spec() -> bool {
        true
    }

    open spec fn from_spec(error: IOError) -> Error {
        Error::IOError(error)
    }
}

impl From<ReplError> for Error {
    fn from(error: ReplError) -> (r: Error) {
        Error::ReplError(error)
    }
}

impl FromSpecImpl<ReplError> for Error {
    open spec fn obeys_from_spec() -> bool {
        true
    }

    open spec fn from_spec(error: ReplError) -> Error {
        Error::ReplError(error)
    }
}

impl Error {
    /// The general error that one parse error stands for: the errors of a
    /// parse with that one error.
    pub fn from_parse_error(error: ParseError) -> (r: Error)
        ensures
            r matches Error::ParseErrors(errors) && errors.errors@ == seq![error],
    {
        Error::ParseErrors(ParseErrors::from(error))
    }

    /// How many snippets reporting the error may add to the files.
    pub open spec fn added(&self) -> nat {
        match *self {
            Error::EvalError(err) => err.added(),
            Error::TypecheckError(err) => err.added(),
            Error::SerializationError(err) => err.added(),
            _ => 0,
        }
    }

    /// Whether the error can be reported.
    pub open spec fn reportable(&self, files: Files<String>) -> bool {
        match *self {
            Error::EvalError(err) => err.reportable(),
            Error::TypecheckError(err) => err.reportable(),
            Error::ParseErrors(errs) => errs.known(files),
            Error::ImportError(err) => err.reportable(files),
            _ => true,
        }
    }

    /// How many snippets reporting the error may add to the files, as far as
    /// a machine word counts.
    pub fn snippets(&self) -> (n: usize)
        ensures
            n == if self.added() <= usize::MAX {
                self.added()
            } else {
                usize::MAX as nat
            },
    {
        match self {
            Error::EvalError(err) => err.snippets(),
            Error::TypecheckError(err) => err.snippets(),
            Error::SerializationError(err) => err.snippets(),
            _ => 0,
        }
    }

    /// Tests what of `reportable` does not depend on the files.
    pub fn well_formed(&self) -> (r: bool)
        ensures
            r == match *self {
                Error::EvalError(err) => err.reportable(),
                Error::TypecheckError(err) => err.reportable(),
                Error::ImportError(ImportError::ParseErrors(errors, pos)) => pos.spec_into_opt() is Some
                    ==> errors.errors@.len() > 0,
                _ => true,
            },
    {
        match self {
            Error::EvalError(err) => err.well_formed(),
            Error::TypecheckError(err) => err.well_formed(),
            Error::ImportError(ImportError::ParseErrors(errors, pos)) => pos.into_opt().is_none()
                || !errors.no_errors(),
            _ => true,
        }
    }

    /// What reporting the error yields, when the files are `files` and the
    /// builtin contracts stand in the file `contract_id`.
    pub open spec fn spec_report(&self, files: Files<String>, contract_id: Option<FileId>) -> Report {
        match *self {
            Error::ParseErrors(errs) => Report { diagnostics: errs.spec_diagnostics(files), files },
            Error::TypecheckError(err) => err.spec_report(files, contract_id),
            Error::EvalError(err) => err.spec_report(files, contract_id),
            Error::ImportError(err) => Report { diagnostics: err.spec_diagnostics(files), files },
            Error::SerializationError(err) => Report {
                diagnostics: seq![err.spec_diagnostic(files)],
                files: err.spec_files(files),
            },
            Error::IOError(err) => Report { diagnostics: seq![err.spec_diagnostic()], files },
            Error::ReplError(err) => Report { diagnostics: seq![err.spec_diagnostic()], files },
        }
    }

    /// The diagnostics that report the error.
    pub fn to_diagnostic(&self, files: &mut Files<String>, contract_id: Option<FileId>) -> (r: Vec<
        Diagnostic,
    >)
        requires
            self.reportable(*old(files)),
            files_room_for(*old(files), self.added()),
        ensures
            r.deep_view() == self.spec_report(*old(files), contract_id).diagnostics,
            *final(files) == self.spec_report(*old(files), contract_id).files,
            files_sources(*final(files)).len() <= files_sources(*old(files)).len() + self.added(),
            forall|other: FileId| #[trigger]
                file_known(*old(files), other) ==> file_known(*final(files), other),
            forall|other: FileId| #[trigger]
                file_short(*old(files), other) ==> file_short(*final(files), other),
    {
        match self {
            Error::ParseErrors(errs) => errs.to_diagnostic(files, contract_id),
            Error::TypecheckError(err) => err.to_diagnostic(files, contract_id),
            Error::EvalError(err) => err.to_diagnostic(files, contract_id),
            Error::ImportError(err) => err.to_diagnostic(files, contract_id),
            Error::SerializationError(err) => err.to_diagnostic(files, contract_id),
            Error::IOError(err) => err.to_diagnostic(files, contract_id),
            Error::ReplError(err) => err.to_diagnostic(files, contract_id),
        }
    }
}

/// A trait for converting an error to a diagnostic.
pub trait ToDiagnostic {
    /// Whether the error can be reported when the files are `files`.
    spec fn can_report(&self, files: Files<String>) -> bool;

    /// What reporting the error yields.
    spec fn report_of(&self, files: Files<String>, contract_id: Option<FileId>) -> Report;

    /// Convert an error to a list of printable formatted diagnostics. Terms
    /// that have no position in a source are added to `files` as snippets,
    /// so that a label can refer to them. `contract_id` is the file of the
    /// builtin contracts, if they are loaded.
    fn to_diagnostic(&self, files: &mut Files<String>, contract_id: Option<FileId>) -> (r: Vec<
        Diagnostic,
    >)
        requires
            self.can_report(*old(files)),
        ensures
            r.deep_view() == self.report_of(*old(files), contract_id).diagnostics,
            *final(files) == self.report_of(*old(files), contract_id).files,
    ;
}

impl ToDiagnostic for Error {
    open spec fn can_report(&self, files: Files<String>) -> bool {
        self.reportable(files) && files_room_for(files, self.added())
    }

    open spec fn report_of(&self, files: Files<String>, contract_id: Option<FileId>) -> Report {
        self.spec_report(files, contract_id)
    }

    fn to_diagnostic(&self, files: &mut Files<String>, contract_id: Option<FileId>) -> (r: Vec<
        Diagnostic,
    >) {
        Error::to_diagnostic(self, files, contract_id)
    }
}

impl ToDiagnostic for EvalError {
    open spec fn can_report(&self, files: Files<String>) -> bool {
        self.reportable() && files_room_for(files, self.added())
    }

    open spec fn report_of(&self, files: Files<String>, contract_id: Option<FileId>) -> Report {
        self.spec_report(files, contract_id)
    }

    fn to_diagnostic(&self, files: &mut Files<String>, contract_id: Option<FileId>) -> (r: Vec<
        Diagnostic,
    >) {
        EvalError::to_diagnostic(self, files, contract_id)
    }
}

impl ToDiagnostic for TypecheckError {
    open spec fn can_report(&self, files: Files<String>) -> bool {
        self.reportable() && files_room_for(files, self.added())
    }

    open spec fn report_of(&self, files: Files<String>, contract_id: Option<FileId>) -> Report {
        self.spec_report(files, contract_id)
    }

    fn to_diagnostic(&self, files: &mut Files<String>, contract_id: Option<FileId>) -> (r: Vec<
        Diagnostic,
    >) {
        TypecheckError::to_diagnostic(self, files, contract_id)
    }
}

impl ToDiagnostic for ParseErrors {
    open spec fn can_report(&self, files: Files<String>) -> bool {
        self.known(files)
    }

    open spec fn report_of(&self, files: Files<String>, contract_id: Option<FileId>) -> Report {
        Report { diagnostics: self.spec_diagnostics(files), files }
    }

    fn to_diagnostic(&self, files: &mut Files<String>, contract_id: Option<FileId>) -> (r: Vec<
        Diagnostic,
    >) {
        ParseErrors::to_diagnostic(self, files, contract_id)
    }
}

impl ToDiagnostic for ParseError {
    open spec fn can_report(&self, files: Files<String>) -> bool {
        self.known(files)
    }

    open spec fn report_of(&self, files: Files<String>, contract_id: Option<FileId>) -> Report {
        Report { diagnostics: seq![self.spec_diagnostic(files)], files }
    }

    fn to_diagnostic(&self, files: &mut Files<String>, contract_id: Option<FileId>) -> (r: Vec<
        Diagnostic,
    >) {
        ParseError::to_diagnostic(self, files, contract_id)
    }
}

impl ToDiagnostic for ImportError {
    open spec fn can_report(&self, files: Files<String>) -> bool {
        self.reportable(files)
    }

    open spec fn report_of(&self, files: Files<String>, contract_id: Option<FileId>) -> Report {
        Report { diagnostics: self.spec_diagnostics(files), files }
    }

    fn to_diagnostic(&self, files: &mut Files<String>, contract_id: Option<FileId>) -> (r: Vec<
        Diagnostic,
    >) {
        ImportError::to_diagnostic(self, files, contract_id)
    }
}

impl ToDiagnostic for SerializationError {
    open spec fn can_report(&self, files: Files<String>) -> bool {
        files_room_for(files, self.added())
    }

    open spec fn report_of(&self, files: Files<String>, contract_id: Option<FileId>) -> Report {
        Report { diagnostics: seq![self.spec_diagnostic(files)], files: self.spec_files(files) }
    }

    fn to_diagnostic(&self, files: &mut Files<String>, contract_id: Option<FileId>) -> (r: Vec<
        Diagnostic,
    >) {
        SerializationError::to_diagnostic(self, files, contract_id)
    }
}

impl ToDiagnostic for IOError {
    open spec fn can_report(&self, files: Files<String>) -> bool {
        true
    }

    open spec fn report_of(&self, files: Files<String>, contract_id: Option<FileId>) -> Report {
        Report { diagnostics: seq![self.spec_diagnostic()], files }
    }

    fn to_diagnostic(&self, files: &mut Files<String>, contract_id: Option<FileId>) -> (r: Vec<
        Diagnostic,
    >) {
        IOError::to_diagnostic(self, files, contract_id)
    }
}

impl ToDiagnostic for ReplError {
    open spec fn can_report(&self, files: Files<String>) -> bool {
        true
    }

    open spec fn report_of(&self, files: Files<String>, contract_id: Option<FileId>) -> Report {
        Report { diagnostics: seq![self.spec_diagnostic()], files }
    }

    fn to_diagnostic(&self, files: &mut Files<String>, contract_id: Option<FileId>) -> (r: Vec<
        Diagnostic,
    >) {
        ReplError::to_diagnostic(self, files, contract_id)
    }
}

} // verus!
