//! Reading the version that a program or a release reports, and taking one
//! file out of a downloaded archive.

use crate::path::{bytes_of, ends_with, file_name, file_name_of, has_suffix, same_bytes};
use crate::text::chars_of;
use crate::version::{
    find_triple, first_triple, has_triple_at, is_triple, is_triple_with_dots,
    law_first_triple_is_leftmost, law_triple_found_iff_present, lemma_dots_are_fixed,
    triple_version, version_in, Version,
};
use std::io::Read;
use vstd::prelude::*;
use vstd::string::StrSliceExecFns;

verus! {

/// The error that `semver` reports for a text that is no version.
#[verifier::external_type_specification]
#[verifier::external_body]
pub struct ExSemverError(semver::Error);

/// Why no version could be read.
#[derive(Clone, Debug, PartialEq, Eq)]
pub enum VersionError {
    /// The program that was asked for its version could not be run, or
    /// reported a failure.
    CommandExecutionFailed,
    /// The text, given here, holds no numeric triple.
    NoVersionFound(String),
    /// The first numeric triple of the text, given here, is no version: one
    /// of its numbers has a zero in front or does not fit in 64 bits.
    VersionParseError(String),
}

/// Calls `semver::Version::parse` on a text that is one numeric triple from
/// end to end. For such a text `semver` reads the three numbers in base ten;
/// it refuses the text exactly if one of them has a zero in front of other
/// digits or exceeds `u64::MAX`, and otherwise returns a version with these
/// three numbers and neither pre-release nor build metadata.
#[verifier::external_body]
fn parse_triple(text: &str) -> (r: Result<Version, semver::Error>)
    requires
        is_triple(text@),
    ensures
        forall|a: int, b: int| #[trigger]
            is_triple_with_dots(text@, a, b) ==> match r {
                Ok(v) => triple_version(text@, a, b) == Some(v),
                Err(_) => triple_version(text@, a, b) is None,
            },
{
    match semver::Version::parse(text) {
        Ok(v) => Ok(Version { major: v.major, minor: v.minor, patch: v.patch }),
        Err(e) => Err(e),
    }
}

/// `r` is what reading a version out of `text` gives: the version of the
/// first numeric triple; or that the text holds no triple; or, where one of
/// the three numbers is none that a version can hold, the triple as it
/// stands in the text.
pub open spec fn is_reading_of(r: Result<Version, VersionError>, text: Seq<char>) -> bool {
    match r {
        Ok(v) => version_in(text) == Some(v),
        Err(VersionError::NoVersionFound(t)) => first_triple(text) is None && t@ == text,
        Err(VersionError::VersionParseError(t)) => {
            &&& first_triple(text) matches Some(m)
            &&& m.version(text) is None
            &&& t@ == m.text(text)
        },
        Err(VersionError::CommandExecutionFailed) => false,
    }
}

/// A text of which a stretch reads as a numeric triple yields a version:
/// the three numbers of the earliest such stretch, taken as long as it goes.
/// This holds where each of the three numbers is one that a version can
/// hold; a text whose first triple is, say, `01.2.3` yields an error.
pub proof fn law_first_triple_is_the_version(
    r: Result<Version, VersionError>,
    s: Seq<char>,
    i: int,
    j: int,
    a: int,
    b: int,
)
    requires
        is_reading_of(r, s),
        0 <= i <= j <= s.len(),
        is_triple_with_dots(s.subrange(i, j), a, b),
        forall|i2: int, j2: int| #[trigger]
            has_triple_at(s, i2, j2) ==> i <= i2 && (i2 == i ==> j2 <= j),
        triple_version(s.subrange(i, j), a, b) is Some,
    ensures
        r == Ok::<Version, VersionError>(triple_version(s.subrange(i, j), a, b)->0),
{
    assert(has_triple_at(s, i, j));
    law_triple_found_iff_present(s);
    law_first_triple_is_leftmost(s);
    let m = first_triple(s)->0;
    assert(has_triple_at(s, m.start, m.end));
    assert(m.start == i && m.end == j);
    lemma_dots_are_fixed(s.subrange(i, j), a, b, m.dot1 - i, m.dot2 - i);
}

/// A text of which no stretch reads as a numeric triple yields no version:
/// reading it fails, and the failure holds the text.
pub proof fn law_no_triple_no_version(r: Result<Version, VersionError>, s: Seq<char>)
    requires
        is_reading_of(r, s),
        forall|i: int, j: int| !has_triple_at(s, i, j),
    ensures
        r matches Err(VersionError::NoVersionFound(t)) && t@ == s,
{
    law_triple_found_iff_present(s);
}

/// Reads the version that a text reports: its first numeric triple, that is
/// the earliest stretch of digits, a dot, digits, a dot and digits. The
/// digits are the ASCII digits `0` to `9`. What follows the third number is
/// not looked at.
pub fn extract_version(s: &str) -> (r: Result<Version, VersionError>)
    ensures
        is_reading_of(r, s@),
{
    let chars = chars_of(s);
    match find_triple(&chars) {
        None => Err(VersionError::NoVersionFound(s.to_owned())),
        Some(span) => {
            proof {
                law_first_triple_is_leftmost(s@);
            }
            let matched: &str = s.substring_char(span.start, span.end);
            assert(is_triple_with_dots(matched@, span.dot1 - span.start, span.dot2 - span.start));
            match parse_triple(matched) {
                Ok(v) => Ok(v),
                Err(_) => Err(VersionError::VersionParseError(matched.to_owned())),
            }
        },
    }
}

/// Reads the version out of what a program printed when it was asked for it.
/// `succeeded` says whether the program ran and reported success; where it
/// did not, its output is not looked at.
pub fn version_from_output(succeeded: bool, output: &str) -> (r: Result<Version, VersionError>)
    ensures
        succeeded ==> is_reading_of(r, output@),
        !succeeded ==> r == Err::<Version, VersionError>(VersionError::CommandExecutionFailed),
{
    if !succeeded {
        return Err(VersionError::CommandExecutionFailed);
    }
    extract_version(output)
}

/// The error that reading from a stream of bytes ends in.
#[verifier::external_type_specification]
#[verifier::external_body]
pub struct ExIoError(std::io::Error);

/// The kinds of archive that a file can be taken out of.
#[derive(Clone, Copy, Debug, PartialEq, Eq, Structural)]
pub enum SupportedExtension {
    /// `.gz`: one file, compressed.
    Gz,
    /// `.tar.gz`: an archive of files, compressed.
    TarGz,
}

/// Why no file came out of an archive.
#[derive(Clone, Debug, PartialEq, Eq)]
pub enum ExtractError {
    /// The name of the archive, given here, ends neither in `.tar.gz` nor
    /// in `.gz`.
    UnsupportedExtension(String),
    /// No entry of the archive at `path` is a file of the name `fname`.
    FileNotFoundInArchive { fname: String, path: String },
    /// The archive at the path given here could not be read to where the
    /// file ends.
    ReadFailed(String),
}

/// The bytes of `.gz`.
pub open spec fn gz_suffix() -> Seq<u8> {
    seq![46u8, 103u8, 122u8]
}

/// The bytes of `.tar.gz`.
pub open spec fn tar_gz_suffix() -> Seq<u8> {
    seq![46u8, 116u8, 97u8, 114u8, 46u8, 103u8, 122u8]
}

/// The kind of the archive at `path`, a path given by its bytes: it goes by
/// what the name of the file ends in, `.tar.gz` before `.gz`.
pub open spec fn extension_of(path: Seq<u8>) -> Option<SupportedExtension> {
    match file_name(path) {
        Some(name) => if ends_with(name, tar_gz_suffix()) {
            Some(SupportedExtension::TarGz)
        } else if ends_with(name, gz_suffix()) {
            Some(SupportedExtension::Gz)
        } else {
            None
        },
        None => None,
    }
}

impl SupportedExtension {
    /// Tells the kind of the archive at `path` by its name. A name that ends
    /// in neither suffix is refused: no kind is ever assumed.
    pub fn from_path(path: &str) -> (r: Result<SupportedExtension, ExtractError>)
        ensures
            match r {
                Ok(kind) => extension_of(bytes_of(path@)) == Some(kind),
                Err(ExtractError::UnsupportedExtension(p)) => extension_of(bytes_of(path@))
                    is None && p@ == path@,
                Err(_) => false,
            },
    {
        let tar_gz: Vec<u8> = vec![46u8, 116u8, 97u8, 114u8, 46u8, 103u8, 122u8];
        let gz: Vec<u8> = vec![46u8, 103u8, 122u8];
        assert(tar_gz@ =~= tar_gz_suffix());
        assert(gz@ =~= gz_suffix());
        match file_name_of(path.as_bytes()) {
            Some(name) => {
                if has_suffix(name, tar_gz.as_slice()) {
                    Ok(SupportedExtension::TarGz)
                } else if has_suffix(name, gz.as_slice()) {
                    Ok(SupportedExtension::Gz)
                } else {
                    Err(ExtractError::UnsupportedExtension(path.to_owned()))
                }
            },
            None => Err(ExtractError::UnsupportedExtension(path.to_owned())),
        }
    }
}

/// One entry of an archive, as it was read. An entry that is no regular
/// file, such as a directory or a link, is an entry like any other: it has
/// the bytes that the archive holds for it, which mostly are none.
#[derive(Clone, Debug, PartialEq, Eq)]
pub struct TarEntry {
    /// The path of the entry within the archive.
    pub path: Vec<u8>,
    /// The number of bytes that the archive says the entry holds.
    pub size: u64,
    /// The bytes that could be read of it.
    pub content: Vec<u8>,
}

/// What an entry holds, in mathematical terms.
pub struct EntryView {
    pub path: Seq<u8>,
    pub size: int,
    pub content: Seq<u8>,
}

impl View for TarEntry {
    type V = EntryView;

    open spec fn view(&self) -> EntryView {
        EntryView { path: self.path@, size: self.size as int, content: self.content@ }
    }
}

/// The views of the entries of a listing.
pub open spec fn listing_of(entries: Seq<TarEntry>) -> Seq<EntryView> {
    entries.map_values(|e: TarEntry| e@)
}

/// What `flate2` decodes of gzip data: the bytes it yields before the
/// stream ends or fails, and whether it ended without a failure.
pub uninterp spec fn gzip_decoded(data: Seq<u8>) -> (Seq<u8>, bool);

/// What `tar` lists of gzip data that it reads through `flate2`: the entries
/// that it yields, in the order of the stream, before the stream ends or
/// fails, and whether it ended without a failure.
pub uninterp spec fn tar_gz_listing(data: Seq<u8>) -> (Seq<EntryView>, bool);

/// Decodes gzip data with `flate2::read::GzDecoder`, read to its end with
/// `Read::read_to_end`. Returns the bytes that were decoded and the error, if
/// any, at which decoding stopped. Both depend on the data alone.
#[verifier::external_body]
fn gunzip(data: &[u8]) -> (r: (Vec<u8>, Option<std::io::Error>))
    ensures
        r.0@ == gzip_decoded(data@).0,
        r.1 is None <==> gzip_decoded(data@).1,
{
    let mut bytes = Vec::new();
    let failure = flate2::read::GzDecoder::new(data).read_to_end(&mut bytes).err();
    (bytes, failure)
}

/// Walks the entries of a `tar::Archive` that reads gzip data through
/// `flate2::read::GzDecoder`. Of each entry that `Archive::entries` yields it
/// takes the path (`Entry::path_bytes`), the size (`Entry::size`) and what
/// `Read::read_to_end` reads of it. Returns the entries read and the error,
/// if any, at which the walk stopped. Both depend on the data alone.
#[verifier::external_body]
fn list_tar_gz(data: &[u8]) -> (r: (Vec<TarEntry>, Option<std::io::Error>))
    ensures
        listing_of(r.0@) == tar_gz_listing(data@).0,
        r.1 is None <==> tar_gz_listing(data@).1,
{
    let mut entries = Vec::new();
    let mut archive = tar::Archive::new(flate2::read::GzDecoder::new(data));
    let failure = (|| -> std::io::Result<()> {
        for entry in archive.entries()? {
            let mut entry = entry?;
            let mut content = Vec::new();
            entry.read_to_end(&mut content)?;
            let path = entry.path_bytes().into_owned();
            entries.push(TarEntry { path, size: entry.size(), content });
        }
        Ok(())
    })().err();
    (entries, failure)
}

/// The entry at `i` is the first of the listing whose path ends in a file of
/// the name `name`.
pub open spec fn is_first_named(entries: Seq<EntryView>, name: Seq<u8>, i: int) -> bool {
    &&& 0 <= i < entries.len()
    &&& file_name(entries[i].path) == Some(name)
    &&& forall|j: int| 0 <= j < i ==> file_name(#[trigger] entries[j].path) != Some(name)
}

/// `r` is what looking for the file `fname` in a listing gives. The first
/// entry of that name decides: its content, where all of it was read. Where
/// it was cut short, or where no entry has the name and the listing is not
/// `complete`, the archive at `path` could not be read. In a complete
/// listing without such an entry the file is not found.
pub open spec fn is_selection_of(
    r: Result<Vec<u8>, ExtractError>,
    entries: Seq<EntryView>,
    complete: bool,
    fname: Seq<char>,
    path: Seq<char>,
) -> bool {
    let name = bytes_of(fname);
    match r {
        Ok(content) => exists|i: int|
            is_first_named(entries, name, i) && entries[i].content.len() == entries[i].size
                && content@ == entries[i].content,
        Err(ExtractError::ReadFailed(p)) => {
            &&& p@ == path
            &&& (exists|i: int|
                is_first_named(entries, name, i) && entries[i].content.len() != entries[i].size)
                || (!complete && forall|i: int| !is_first_named(entries, name, i))
        },
        Err(ExtractError::FileNotFoundInArchive { fname: f, path: p }) => {
            &&& f@ == fname
            &&& p@ == path
            &&& complete
            &&& forall|i: int| !is_first_named(entries, name, i)
        },
        Err(ExtractError::UnsupportedExtension(_)) => false,
    }
}

/// Looks for the file `fname` among the entries that were read of the
/// archive at `path`. The first entry whose path ends in that very name is
/// taken and the rest are not looked at. `complete` says whether the archive
/// was read to its end without a failure.
pub fn select_entry(listed: Vec<TarEntry>, complete: bool, fname: &str, path: &str) -> (r: Result<
    Vec<u8>,
    ExtractError,
>)
    ensures
        is_selection_of(r, listing_of(listed@), complete, fname@, path@),
{
    let ghost listing = listing_of(listed@);
    let mut entries = listed;
    let name = fname.as_bytes();
    let mut i: usize = 0;
    while i < entries.len()
        invariant
            i <= entries.len(),
            listing == listing_of(listed@),
            listing == listing_of(entries@),
            name@ == bytes_of(fname@),
            forall|j: int| 0 <= j < i ==> file_name(#[trigger] listing[j].path) != Some(name@),
        decreases entries.len() - i,
    {
        let found = match file_name_of(entries[i].path.as_slice()) {
            Some(base) => same_bytes(base, name),
            None => false,
        };
        if found {
            assert(is_first_named(listing, name@, i as int));
            let entry = entries.swap_remove(i);
            assert(entry@ == listing[i as int]);
            if entry.content.len() as u64 != entry.size {
                return Err(ExtractError::ReadFailed(path.to_owned()));
            }
            return Ok(entry.content);
        }
        i = i + 1;
    }
    assert forall|k: int| !is_first_named(listing, name@, k) by {
        if 0 <= k < listing.len() {
            assert(file_name(listing[k].path) != Some(name@));
        }
    }
    if complete {
        Err(ExtractError::FileNotFoundInArchive { fname: fname.to_owned(), path: path.to_owned() })
    } else {
        Err(ExtractError::ReadFailed(path.to_owned()))
    }
}

/// `r` is what taking the file `fname` out of the archive `data`, found at
/// `path`, gives. The name of the archive decides how it is read. A `.gz`
/// archive is the file itself, compressed: all of what it decodes to. A
/// `.tar.gz` archive yields the first of its entries that has the name.
pub open spec fn is_extraction_of(
    r: Result<Vec<u8>, ExtractError>,
    path: Seq<char>,
    data: Seq<u8>,
    fname: Seq<char>,
) -> bool {
    match extension_of(bytes_of(path)) {
        None => r matches Err(ExtractError::UnsupportedExtension(p)) && p@ == path,
        Some(SupportedExtension::Gz) => if gzip_decoded(data).1 {
            r matches Ok(content) && content@ == gzip_decoded(data).0
        } else {
            r matches Err(ExtractError::ReadFailed(p)) && p@ == path
        },
        Some(SupportedExtension::TarGz) => is_selection_of(
            r,
            tar_gz_listing(data).0,
            tar_gz_listing(data).1,
            fname,
            path,
        ),
    }
}

/// Takes the file `fname` out of an archive: `data` is what the archive
/// holds and `path` is where it was found, which tells its kind. Returns the
/// bytes of the file.
pub fn extract_file(path: &str, data: &[u8], fname: &str) -> (r: Result<Vec<u8>, ExtractError>)
    ensures
        is_extraction_of(r, path@, data@, fname@),
{
    let extension = match SupportedExtension::from_path(path) {
        Ok(extension) => extension,
        Err(e) => {
            return Err(e);
        },
    };
    match extension {
        SupportedExtension::Gz => {
            let (content, failure) = gunzip(data);
            match failure {
                None => Ok(content),
                Some(_) => Err(ExtractError::ReadFailed(path.to_owned())),
            }
        },
        SupportedExtension::TarGz => {
            let (entries, failure) = list_tar_gz(data);
            select_entry(entries, failure.is_none(), fname, path)
        },
    }
}

/// The permission bits by which the owner, the group and all others may run
/// a file.
pub const EXECUTE_BITS: u32 = 0o111;

/// The permission bits of a file that was installed: those it had, and with
/// them the three that let it be run.
pub fn with_execute_permission(mode: u32) -> (r: u32)
    ensures
        r == mode | EXECUTE_BITS,
{
    mode | EXECUTE_BITS
}

/// Setting the execute bits takes no permission away, grants the three bits,
/// and changes no other bit. Doing it twice is doing it once.
pub proof fn law_execute_bits_are_added(mode: u32)
    ensures
        (mode | EXECUTE_BITS) & mode == mode,
        (mode | EXECUTE_BITS) & EXECUTE_BITS == EXECUTE_BITS,
        (mode | EXECUTE_BITS) & !(mode | EXECUTE_BITS) == 0,
        (mode | EXECUTE_BITS) | EXECUTE_BITS == mode | EXECUTE_BITS,
{
    assert((mode | 0o111u32) & mode == mode) by (bit_vector);
    assert((mode | 0o111u32) & 0o111u32 == 0o111u32) by (bit_vector);
    assert((mode | 0o111u32) & !(mode | 0o111u32) == 0) by (bit_vector);
    assert((mode | 0o111u32) | 0o111u32 == mode | 0o111u32) by (bit_vector);
}

} // verus!
