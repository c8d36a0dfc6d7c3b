//! Reading a resource pack's zip archive, held in memory as bytes,
//! through the `zip` crate: the names of its entries and the contents
//! of one entry.

use std::io::{Cursor, Read};

use vstd::prelude::*;
use vstd::utf8::{decode_utf8, valid_utf8};
use zip::result::ZipError;
use zip::ZipArchive;

use crate::texturepacks::coverage::views;

verus! {

/// The bytes parse as a zip archive (its central directory reads).
pub uninterp spec fn zip_opens(archive: Seq<u8>) -> bool;

/// The names of the archive's entries.
pub uninterp spec fn zip_entry_names(archive: Seq<u8>) -> Set<Seq<char>>;

/// The entry `name` can be opened for reading (it exists and its
/// compression is supported).
pub uninterp spec fn zip_entry_opens(archive: Seq<u8>, name: Seq<char>) -> bool;

/// The entry `name` reads to its end without an error.
pub uninterp spec fn zip_entry_reads(archive: Seq<u8>, name: Seq<char>) -> bool;

/// The uncompressed contents of entry `name`.
pub uninterp spec fn zip_entry_contents(archive: Seq<u8>, name: Seq<char>) -> Seq<u8>;

/// What reading one entry of an archive gave.
pub enum EntryRead {
    /// The bytes are not a readable zip archive.
    Unopened(ZipError),
    /// The entry could not be opened.
    Missing(ZipError),
    /// Reading the entry failed part way.
    ReadFailed(std::io::Error),
    /// The entry's contents.
    Contents(Vec<u8>),
}

/// What reading one entry of an archive as text gave.
pub enum EntryText {
    Unopened(ZipError),
    Missing(ZipError),
    /// Reading failed part way, or the contents are not UTF-8.
    ReadFailed(std::io::Error),
    Text(String),
}

/// `ZipArchive::new` and `file_names`: the names of the archive's
/// entries. The contract claims success exactly when the archive opens,
/// and that the names are those of the archive (named
/// `zip_entry_names`) without repeats, since the crate keeps them as the
/// keys of a map. Their order is that of a hash map walk and is not
/// stated.
#[verifier::external_body]
pub(crate) fn zip_names(archive: &[u8]) -> (r: Result<Vec<String>, ZipError>)
    ensures
        r is Ok == zip_opens(archive@),
        r matches Ok(names) ==> views(names@).to_set() == zip_entry_names(archive@),
        r matches Ok(names) ==> forall|i: int, j: int|
            0 <= i < j < names@.len() ==> names@[i]@ != names@[j]@,
{
    let zip = ZipArchive::new(Cursor::new(archive))?;
    Ok(zip.file_names().map(|name| name.to_string()).collect())
}

/// `ZipArchive::new`, `by_name` and `Read::read_to_end`: the contents
/// of one entry. The contract claims which step failed, each by a
/// name of its arguments, and names the contents.
#[verifier::external_body]
pub(crate) fn zip_entry(archive: &[u8], name: &str) -> (r: EntryRead)
    ensures
        r is Unopened == !zip_opens(archive@),
        zip_opens(archive@) ==> (r is Missing == !zip_entry_opens(archive@, name@)),
        zip_opens(archive@) && zip_entry_opens(archive@, name@) ==> (r is ReadFailed == !zip_entry_reads(
            archive@,
            name@,
        )),
        r matches EntryRead::Contents(bytes) ==> bytes@ == zip_entry_contents(archive@, name@),
{
    let mut zip = match ZipArchive::new(Cursor::new(archive)) {
        Ok(zip) => zip,
        Err(e) => return EntryRead::Unopened(e),
    };
    let mut entry = match zip.by_name(name) {
        Ok(entry) => entry,
        Err(e) => return EntryRead::Missing(e),
    };
    let mut bytes = Vec::new();
    match entry.read_to_end(&mut bytes) {
        Ok(_) => EntryRead::Contents(bytes),
        Err(e) => EntryRead::ReadFailed(e),
    }
}

/// `ZipArchive::new`, `by_name` and `Read::read_to_string`: one entry
/// as text. As `zip_entry`, except that reading also fails when the
/// contents are not UTF-8 (as `read_to_string` documents), and the text
/// is the contents decoded.
#[verifier::external_body]
pub(crate) fn zip_entry_text(archive: &[u8], name: &str) -> (r: EntryText)
    ensures
        r is Unopened == !zip_opens(archive@),
        zip_opens(archive@) ==> (r is Missing == !zip_entry_opens(archive@, name@)),
        zip_opens(archive@) && zip_entry_opens(archive@, name@) ==> (r is ReadFailed == !(
        zip_entry_reads(archive@, name@) && valid_utf8(zip_entry_contents(archive@, name@)))),
        r matches EntryText::Text(s) ==> s@ == decode_utf8(zip_entry_contents(archive@, name@)),
{
    let mut zip = match ZipArchive::new(Cursor::new(archive)) {
        Ok(zip) => zip,
        Err(e) => return EntryText::Unopened(e),
    };
    let mut entry = match zip.by_name(name) {
        Ok(entry) => entry,
        Err(e) => return EntryText::Missing(e),
    };
    let mut text = String::new();
    match entry.read_to_string(&mut text) {
        Ok(_) => EntryText::Text(text),
        Err(e) => EntryText::ReadFailed(e),
    }
}

} // verus!
