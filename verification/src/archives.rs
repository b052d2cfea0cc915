//! What the format readers take from archives.

use std::io::Read;

use vstd::prelude::*;

verus! {

/// What `zip::ZipArchive::new` makes of bytes: how many entries `ZipArchive::len` then counts, or
/// the text of the error.
pub uninterp spec fn zip_entry_count(bytes: Seq<u8>) -> Result<usize, Seq<char>>;

/// `zip::ZipArchive::new` on bytes in memory, and `ZipArchive::len`. The result depends on the
/// bytes alone and is called [`zip_entry_count`]; nothing more is said of it.
#[verifier::external_body]
pub(crate) fn archive_len(bytes: &[u8]) -> (r: Result<usize, String>)
    ensures
        match r {
            Ok(count) => zip_entry_count(bytes@) == Ok::<usize, Seq<char>>(count),
            Err(message) => zip_entry_count(bytes@) == Err::<usize, Seq<char>>(message@),
        },
{
    zip::ZipArchive::new(std::io::Cursor::new(bytes))
        .map(|archive| archive.len())
        .map_err(|error| error.to_string())
}

/// What `zip::ZipArchive::by_index` says of the entry at `index`: its name and its uncompressed
/// size, or the text of the error.
pub uninterp spec fn zip_entry(bytes: Seq<u8>, index: usize) -> Result<(Seq<char>, u64), Seq<char>>;

/// `zip::ZipArchive::by_index` on an archive in memory, with `ZipFile::name` and `ZipFile::size`
/// of what it returns. The result depends on the bytes and the index alone and is called
/// [`zip_entry`]; nothing more is said of it.
#[verifier::external_body]
pub(crate) fn archive_entry(bytes: &[u8], index: usize) -> (r: Result<(String, u64), String>)
    ensures
        match r {
            Ok(entry) => zip_entry(bytes@, index) == Ok::<(Seq<char>, u64), Seq<char>>(
                (entry.0@, entry.1),
            ),
            Err(message) => zip_entry(bytes@, index) == Err::<(Seq<char>, u64), Seq<char>>(
                message@,
            ),
        },
{
    let mut archive = zip::ZipArchive::new(std::io::Cursor::new(bytes))
        .map_err(|error| error.to_string())?;
    let file = archive.by_index(index).map_err(|error| error.to_string())?;
    Ok((file.name().to_owned(), file.size()))
}

/// The uncompressed size of the entry that `zip::ZipArchive::by_name` finds.
pub uninterp spec fn zip_part_size(bytes: Seq<u8>, name: Seq<char>) -> Option<u64>;

/// `zip::ZipArchive::by_name` on an archive in memory, with `ZipFile::size` of what it returns.
/// The result depends on the bytes and the name alone and is called [`zip_part_size`]; nothing
/// more is said of it.
#[verifier::external_body]
pub(crate) fn archive_part_size(bytes: &[u8], name: &str) -> (r: Option<u64>)
    ensures
        r == zip_part_size(bytes@, name@),
{
    let mut archive = zip::ZipArchive::new(std::io::Cursor::new(bytes)).ok()?;
    let size = archive.by_name(name).ok()?.size();
    Some(size)
}

/// What reading at most `limit` bytes of the entry that `zip::ZipArchive::by_name` finds gives, or
/// the text of the error.
pub uninterp spec fn zip_part_bytes(bytes: Seq<u8>, name: Seq<char>, limit: u64) -> Result<
    Seq<u8>,
    Seq<char>,
>;

/// `Read::read_to_end`, through `Read::take`, on the entry that `zip::ZipArchive::by_name` finds.
/// The result depends on the bytes, the name and the limit alone and is called
/// [`zip_part_bytes`]; nothing more is said of it.
#[verifier::external_body]
pub(crate) fn archive_part_bytes(bytes: &[u8], name: &str, limit: u64) -> (r: Result<
    Vec<u8>,
    String,
>)
    ensures
        match r {
            Ok(content) => zip_part_bytes(bytes@, name@, limit) == Ok::<Seq<u8>, Seq<char>>(
                content@,
            ),
            Err(message) => zip_part_bytes(bytes@, name@, limit) == Err::<Seq<u8>, Seq<char>>(
                message@,
            ),
        },
{
    let mut archive = zip::ZipArchive::new(std::io::Cursor::new(bytes))
        .map_err(|error| error.to_string())?;
    let mut file = archive.by_name(name).map_err(|error| error.to_string())?.take(limit);
    let mut content = Vec::new();
    file.read_to_end(&mut content).map_err(|error| error.to_string())?;
    Ok(content)
}

/// Whether `zip::ZipArchive::index_for_name` finds an entry.
pub uninterp spec fn zip_holds(bytes: Seq<u8>, name: Seq<char>) -> bool;

/// `zip::ZipArchive::index_for_name` on an archive in memory. Whether it finds an entry depends on
/// the bytes and the name alone and is called [`zip_holds`]; nothing more is said of it.
#[verifier::external_body]
pub(crate) fn archive_holds(bytes: &[u8], name: &str) -> (r: bool)
    ensures
        r == zip_holds(bytes@, name@),
{
    match zip::ZipArchive::new(std::io::Cursor::new(bytes)) {
        Ok(archive) => archive.index_for_name(name).is_some(),
        Err(_) => false,
    }
}

} // verus!
