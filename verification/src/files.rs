//! Source files and positions in them: the database of sources that spans
//! and diagnostics refer to, spans, and the positions of terms.

use vstd::prelude::*;
use codespan::{FileId, Files};
use vstd::string::StringSliceAdditionalSpecFns;
use vstd::utf8::encode_utf8;

verus! {

/// `codespan::FileId`: a handle to a file of a database. It is carried
/// through; what it names is known to the database only.
#[verifier::external_type_specification]
#[verifier::external_body]
pub struct ExFileId(FileId);

/// `codespan::Files`: a database of source files.
#[verifier::external_type_specification]
#[verifier::external_body]
#[verifier::reject_recursive_types(Source)]
pub struct ExFiles<Source>(Files<Source>);

/// `FileId::clone`, which `derive` wrote: a handle is a number that is
/// copied.
pub assume_specification[ <FileId as Clone>::clone ](file_id: &FileId) -> (r: FileId)
    ensures
        r == *file_id,
;

/// The sources of the files of a database, in the order in which they were
/// added.
pub uninterp spec fn files_sources(files: Files<String>) -> Seq<Seq<char>>;

/// The names of the files of a database, in the order in which they were
/// added.
pub uninterp spec fn files_names(files: Files<String>) -> Seq<Seq<char>>;

/// Whether a database holds the file that a handle names.
pub uninterp spec fn file_known(files: Files<String>, file_id: FileId) -> bool;

/// Whether a database holds the file that a handle names with a source of
/// at most `SOURCE_LIMIT` bytes.
pub uninterp spec fn file_short(files: Files<String>, file_id: FileId) -> bool;

/// The handle that a database gives to the next file that is added to it.
pub uninterp spec fn files_next(files: Files<String>) -> FileId;

/// The database after a file of the given name and source was added to it.
pub uninterp spec fn files_with(files: Files<String>, name: Seq<char>, source: Seq<char>) -> Files<
    String,
>;

/// The byte at which the line of index `line` of a file starts, if the file
/// has such a line.
pub uninterp spec fn spec_line_start(files: Files<String>, file_id: FileId, line: u32) -> Option<
    u32,
>;

/// The length of the source of a file in bytes.
pub uninterp spec fn spec_source_end(files: Files<String>, file_id: FileId) -> u32;

/// The name of a file as text.
pub uninterp spec fn spec_file_name(files: Files<String>, file_id: FileId) -> Seq<char>;

/// Whether a database can take `n` more files: a handle is a 32-bit number.
pub open spec fn files_room_for(files: Files<String>, n: nat) -> bool {
    files_sources(files).len() + n <= u32::MAX
}

/// Whether a database can take one more file: a handle is a 32-bit number.
pub open spec fn files_room(files: Files<String>) -> bool {
    files_sources(files).len() < u32::MAX
}

/// Calls `Files::new`: a database without files, which knows no handle.
#[verifier::external_body]
pub(crate) fn files_new() -> (files: Files<String>)
    ensures
        files_sources(files) == Seq::<Seq<char>>::empty(),
        files_names(files) == Seq::<Seq<char>>::empty(),
        forall|other: FileId| !#[trigger] file_known(files, other),
{
    Files::new()
}

/// Calls `Files::add`: the file is added behind the files that the database
/// holds, every handle that it knew stays known with the source that it
/// named, and the handle that is returned is known. It names a source of at
/// most `SOURCE_LIMIT` bytes if the source that was added is no longer.
#[verifier::external_body]
pub(crate) fn files_add(files: &mut Files<String>, name: &str, source: String) -> (file_id: FileId)
    requires
        files_room(*old(files)),
    ensures
        *final(files) == files_with(*old(files), name@, source@),
        file_id == files_next(*old(files)),
        files_sources(*final(files)) == files_sources(*old(files)).push(source@),
        files_names(*final(files)) == files_names(*old(files)).push(name@),
        file_known(*final(files), file_id),
        encode_utf8(source@).len() <= SOURCE_LIMIT ==> file_short(*final(files), file_id),
        forall|other: FileId| #[trigger]
            file_known(*old(files), other) ==> file_known(*final(files), other),
        forall|other: FileId| #[trigger]
            file_short(*old(files), other) ==> file_short(*final(files), other),
{
    files.add(name, source)
}

/// Calls `Files::line_span` and gives the start of the span: the byte at
/// which the line of index `line` starts, if the file has such a line. The
/// database keeps the starts of the lines and their count in 32 bits, and
/// the call fails on a line whose start, cut so, lies behind its end, and
/// on the line of index `u32::MAX` of a source of that many lines: a source
/// of at most `SOURCE_LIMIT` bytes has no such line.
#[verifier::external_body]
pub(crate) fn files_line_start(files: &Files<String>, file_id: FileId, line: u32) -> (start: Option<
    u32,
>)
    requires
        file_known(*files, file_id),
        file_short(*files, file_id),
    ensures
        start == spec_line_start(*files, file_id, line),
{
    match files.line_span(file_id, line) {
        Ok(span) => Some(span.start().0),
        Err(_) => None,
    }
}

/// Calls `Files::source_span` and gives the end of the span: the length of
/// the source in bytes.
#[verifier::external_body]
pub(crate) fn files_source_end(files: &Files<String>, file_id: FileId) -> (end: u32)
    requires
        file_known(*files, file_id),
    ensures
        end == spec_source_end(*files, file_id),
{
    files.source_span(file_id).end().0
}

/// Calls `Files::name` and gives the name as text, with a replacement
/// character for what is not Unicode in it.
#[verifier::external_body]
pub(crate) fn files_name(files: &Files<String>, file_id: FileId) -> (name: String)
    requires
        file_known(*files, file_id),
    ensures
        name@ == spec_file_name(*files, file_id),
{
    files.name(file_id).to_string_lossy().into_owned()
}

/// Compares two handles with `==`: handles are equal when they name the
/// same file.
#[verifier::external_body]
pub(crate) fn same_file(a: FileId, b: FileId) -> (same: bool)
    ensures
        same == (a == b),
{
    a == b
}

/// A database without files.
pub fn new_files() -> (files: Files<String>)
    ensures
        files_sources(files) == Seq::<Seq<char>>::empty(),
        files_names(files) == Seq::<Seq<char>>::empty(),
        forall|other: FileId| !#[trigger] file_known(files, other),
{
    files_new()
}

/// The most bytes of a source in which positions can be asked for: every
/// position in such a source fits in 32 bits, and it has fewer than
/// `u32::MAX` lines.
pub const SOURCE_LIMIT: usize = 0xffff_fffd;

/// Whether a source has at most `SOURCE_LIMIT` bytes.
pub open spec fn spec_is_short(source: Seq<char>) -> bool {
    encode_utf8(source).len() <= SOURCE_LIMIT
}

/// Tests whether a source has at most `SOURCE_LIMIT` bytes.
pub fn is_short(source: &str) -> (short: bool)
    ensures
        short == spec_is_short(source@),
{
    source.as_bytes().len() <= SOURCE_LIMIT
}

/// Adds a file to a database if its source has at most `SOURCE_LIMIT` bytes,
/// and returns the handle that names it from now on; a longer source is
/// not added. The handles that the database knew stay known.
pub fn add_short_file(files: &mut Files<String>, name: &str, source: String) -> (r: Option<FileId>)
    requires
        files_room(*old(files)),
    ensures
        r is Some <==> spec_is_short(source@),
        r is None ==> *final(files) == *old(files),
        r matches Some(file_id) ==> {
            &&& *final(files) == files_with(*old(files), name@, source@)
            &&& file_id == files_next(*old(files))
            &&& files_sources(*final(files)) == files_sources(*old(files)).push(source@)
            &&& files_names(*final(files)) == files_names(*old(files)).push(name@)
            &&& file_known(*final(files), file_id)
            &&& file_short(*final(files), file_id)
        },
        forall|other: FileId| #[trigger]
            file_known(*old(files), other) ==> file_known(*final(files), other),
        forall|other: FileId| #[trigger]
            file_short(*old(files), other) ==> file_short(*final(files), other),
{
    if is_short(source.as_str()) {
        Some(files_add(files, name, source))
    } else {
        None
    }
}

/// Adds a file to a database and returns the handle that names it from now
/// on. The handles that the database knew stay known. A source of more than
/// `SOURCE_LIMIT` bytes is added too, but no position in it can be asked
/// for.
pub fn add_file(files: &mut Files<String>, name: &str, source: String) -> (file_id: FileId)
    requires
        files_room(*old(files)),
    ensures
        *final(files) == files_with(*old(files), name@, source@),
        file_id == files_next(*old(files)),
        files_sources(*final(files)) == files_sources(*old(files)).push(source@),
        files_names(*final(files)) == files_names(*old(files)).push(name@),
        file_known(*final(files), file_id),
        spec_is_short(source@) ==> file_short(*final(files), file_id),
        forall|other: FileId| #[trigger]
            file_known(*old(files), other) ==> file_known(*final(files), other),
        forall|other: FileId| #[trigger]
            file_short(*old(files), other) ==> file_short(*final(files), other),
{
    files_add(files, name, source)
}

/// A span of a source file: the bytes from `start` up to `end`.
#[derive(Clone, Copy, Debug, PartialEq, Eq)]
pub struct RawSpan {
    pub src_id: FileId,
    pub start: u32,
    pub end: u32,
}

impl RawSpan {
    /// Whether two spans are the same span of the same file.
    pub fn same(&self, other: &RawSpan) -> (same: bool)
        ensures
            same == (*self == *other),
    {
        same_file(self.src_id, other.src_id) && self.start == other.start && self.end
            == other.end
    }
}

/// The span of `src_id` from byte `l` up to byte `r`. Positions are kept in
/// 32 bits: larger ones are cut to their low 32 bits.
pub fn mk_span(src_id: FileId, l: usize, r: usize) -> (span: RawSpan)
    ensures
        span == (RawSpan { src_id, start: spec_low32(l as int), end: spec_low32(r as int) }),
{
    RawSpan { src_id, start: low32(l), end: low32(r) }
}

/// The low 32 bits of `x`.
pub open spec fn spec_low32(x: int) -> u32 {
    (x % 0x1_0000_0000) as u32
}

/// The low 32 bits of `x`.
pub fn low32(x: usize) -> (r: u32)
    ensures
        r == spec_low32(x as int),
{
    ((x as u64) % 0x1_0000_0000u64) as u32
}

/// The byte position `offset` behind `index`, cut to 32 bits.
pub open spec fn spec_index_add(index: u32, offset: int) -> u32 {
    ((index + offset) % 0x1_0000_0000) as u32
}

/// The byte position `offset` behind `index`, cut to 32 bits.
pub fn index_add(index: u32, offset: u32) -> (r: u32)
    ensures
        r == spec_index_add(index, offset as int),
{
    (((index as u64) + (offset as u64)) % 0x1_0000_0000u64) as u32
}

/// The byte position one before the position `offset` behind `index`, cut
/// to 32 bits.
pub fn index_add_less_one(index: u32, offset: u32) -> (r: u32)
    ensures
        r == spec_index_add(index, offset as int - 1),
{
    (((index as u64) + (offset as u64) + 0xffff_ffffu64) % 0x1_0000_0000u64) as u32
}

/// The position of a term: in the source, inherited from the term that it
/// was computed from, or none.
#[derive(Clone, Copy, Debug, PartialEq, Eq)]
pub enum TermPos {
    Original(RawSpan),
    Inherited(RawSpan),
    Absent,
}

impl TermPos {
    /// The span of the position, if it has one.
    pub open spec fn spec_into_opt(self) -> Option<RawSpan> {
        match self {
            TermPos::Original(span) => Some(span),
            TermPos::Inherited(span) => Some(span),
            TermPos::Absent => None,
        }
    }

    /// The span of the position, if it has one.
    pub fn into_opt(self) -> (r: Option<RawSpan>)
        ensures
            r == self.spec_into_opt(),
    {
        match self {
            TermPos::Original(span) => Some(span),
            TermPos::Inherited(span) => Some(span),
            TermPos::Absent => None,
        }
    }

    /// Whether two positions are the same.
    pub fn same(&self, other: &TermPos) -> (same: bool)
        ensures
            same == (*self == *other),
    {
        match (self, other) {
            (TermPos::Original(a), TermPos::Original(b)) => a.same(b),
            (TermPos::Inherited(a), TermPos::Inherited(b)) => a.same(b),
            (TermPos::Absent, TermPos::Absent) => true,
            _ => false,
        }
    }
}

} // verus!

