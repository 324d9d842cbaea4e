//! The zip archive format, through the `zip` crate, on archives held in memory.

use std::io::Cursor;

use vstd::prelude::*;

verus! {

#[verifier::external_type_specification]
#[verifier::external_body]
#[verifier::reject_recursive_types(T)]
pub struct ExCursor<T>(std::io::Cursor<T>);

#[verifier::external_type_specification]
#[verifier::external_body]
pub struct ExIoError(std::io::Error);

/// An archive being written into memory: the entries so far and the entry that
/// takes data, over a growing byte buffer.
#[verifier::external_body]
pub struct ArchiveWriter {
    inner: zip::ZipWriter<Cursor<Vec<u8>>>,
}

#[verifier::external_type_specification]
#[verifier::external_body]
#[verifier::reject_recursive_types(R)]
pub struct ExZipArchive<R>(zip::ZipArchive<R>);

#[verifier::external_type_specification]
#[verifier::external_body]
pub struct ExZipError(zip::result::ZipError);

/// The entries handed to an archive writer so far, in order: name, content, and
/// the unix mode the entry records (type and permission bits), if any.
pub uninterp spec fn zip_written(w: ArchiveWriter) -> Seq<(Seq<char>, Seq<u8>, Option<u32>)>;

/// How an entry's content is stored.
#[derive(Clone, Copy, Debug, PartialEq, Eq, Structural)]
pub enum ZipMethod {
    /// As it is.
    Stored,
    /// DEFLATE compressed.
    Deflated,
}

/// The longest entry name, in characters, that the writer takes: its UTF-8 form,
/// with a separator added, stays within the format's 65535 bytes.
pub const MAX_NAME_CHARS: usize = 16000;

/// The largest entry content, in bytes, that is written without the large-file
/// extension: even uncompressible content deflates within `u32::MAX` bytes.
pub const MAX_ENTRY_BYTES: u64 = 0xF000_0000;

/// The compression each entry handed to the writer is written with: its method,
/// and the level asked for, if any.
pub uninterp spec fn zip_compression(w: ArchiveWriter) -> Seq<(ZipMethod, Option<i64>)>;

/// Whether every entry written so far holds at most `MAX_ENTRY_BYTES` bytes.
pub open spec fn entries_fit(items: Seq<(Seq<char>, Seq<u8>, Option<u32>)>) -> bool {
    forall|k: int| 0 <= k < items.len() ==> (#[trigger] items[k]).1.len() <= MAX_ENTRY_BYTES
}

/// Whether the writer takes this method and level: a level only with DEFLATE,
/// and then within `1..=9`.
pub open spec fn compression_accepted(method: ZipMethod, level: Option<i64>) -> bool {
    match level {
        None => true,
        Some(l) => method == ZipMethod::Deflated && 1 <= l <= 9,
    }
}

/// The comment an archive writer will record.
pub uninterp spec fn zip_comment(w: ArchiveWriter) -> Seq<char>;

/// The comment an archive records.
pub uninterp spec fn zip_archive_comment(a: zip::ZipArchive<Cursor<Vec<u8>>>) -> Seq<char>;

/// Whether the writer's last entry is a file that still takes data.
pub uninterp spec fn zip_accepting(w: ArchiveWriter) -> bool;

/// The entries of an archive, in the archive's order.
pub uninterp spec fn zip_stored(a: zip::ZipArchive<Cursor<Vec<u8>>>) -> Seq<(Seq<char>, Seq<u8>, Option<u32>)>;

/// The modification time entry `i` of an archive records, as year, month, day,
/// hour, minute and second of local time.
pub uninterp spec fn zip_entry_modified(a: zip::ZipArchive<Cursor<Vec<u8>>>, i: int) -> Option<(int, int, int, int, int, int)>;

/// A recorded time as its fields.
pub open spec fn time_fields(t: Option<ZipDateTime>) -> Option<(int, int, int, int, int, int)> {
    match t {
        Some(d) => Some((d.year as int, d.month as int, d.day as int, d.hour as int, d.minute as int, d.second as int)),
        None => None,
    }
}

/// Whether entry `i` of an archive reads back in full, its checksum intact.
pub uninterp spec fn zip_entry_readable(a: zip::ZipArchive<Cursor<Vec<u8>>>, i: int) -> bool;

/// The entries of the archive whose bytes these are, where the bytes open as an
/// archive whose every entry reads back in full.
pub uninterp spec fn zip_parsed(bytes: Seq<u8>) -> Option<Seq<(Seq<char>, Seq<u8>, Option<u32>)>>;

/// Whether every entry of an archive reads back.
pub open spec fn zip_all_readable(a: zip::ZipArchive<Cursor<Vec<u8>>>) -> bool {
    forall|i: int| 0 <= i < zip_stored(a).len() ==> #[trigger] zip_entry_readable(a, i)
}

/// Whether some entry already carries this name.
pub open spec fn name_taken(items: Seq<(Seq<char>, Seq<u8>, Option<u32>)>, name: Seq<char>) -> bool {
    exists|k: int| 0 <= k < items.len() && (#[trigger] items[k]).0 == name
}

/// The mode a file entry records: the permission bits given (`0o644` if none), as
/// a regular file.
pub open spec fn stored_file_mode(mode: Option<u32>) -> u32 {
    (match mode {
        Some(m) => m & 0o777u32,
        None => 0o644u32,
    }) | 0o100000u32
}

/// The mode a directory entry records: the permission bits given (`0o755` if
/// none), as a directory.
pub open spec fn stored_dir_mode(mode: Option<u32>) -> u32 {
    (match mode {
        Some(m) => m & 0o777u32,
        None => 0o755u32,
    }) | 0o40000u32
}

/// Relies on `ZipWriter::new`: a writer with no entries, over an empty buffer.
#[verifier::external_body]
pub(crate) fn new_writer() -> (w: ArchiveWriter)
    ensures
        zip_written(w) == Seq::<(Seq<char>, Seq<u8>, Option<u32>)>::empty(),
        zip_compression(w) == Seq::<(ZipMethod, Option<i64>)>::empty(),
        zip_comment(w) == Seq::<char>::empty(),
{
    ArchiveWriter { inner: zip::ZipWriter::new(Cursor::new(Vec::new())) }
}

/// The name under which a directory entry is stored: with a trailing separator.
pub open spec fn dir_entry_name(name: Seq<char>) -> Seq<char> {
    if name.len() > 0 && (name.last() == '/' || name.last() == '\\') {
        name
    } else {
        name.push('/')
    }
}

/// A modification time as a zip entry records it, in local time.
#[derive(Clone, Copy, Debug, PartialEq, Eq, Structural)]
pub struct ZipDateTime {
    pub year: u16,
    pub month: u8,
    pub day: u8,
    pub hour: u8,
    pub minute: u8,
    pub second: u8,
}

/// One entry read back from an archive.
#[derive(Clone, Debug)]
pub struct ZipEntry {
    /// The name as stored, unchecked.
    pub name: String,
    pub data: Vec<u8>,
    /// Unix mode bits, where the archive records them.
    pub unix_mode: Option<u32>,
    pub modified: Option<ZipDateTime>,
}

/// Relies on `ZipWriter::set_comment`, which sets the archive comment and leaves
/// the entries alone.
#[verifier::external_body]
pub(crate) fn set_comment(w: &mut ArchiveWriter, comment: &str)
    ensures
        zip_written(*final(w)) == zip_written(*old(w)),
        zip_accepting(*final(w)) == zip_accepting(*old(w)),
        zip_compression(*final(w)) == zip_compression(*old(w)),
        zip_comment(*final(w)) == comment@,
{
    w.inner.set_comment(comment)
}

/// Relies on `ZipWriter::start_file`: a new, empty file entry called `name`
/// follows the earlier ones, stored with `method` at `level`, recording the
/// permission bits of `mode` (`0o644` if none) as a regular file. It fails only on
/// a name already taken, a method and level the writer does not take, or an earlier
/// entry too large to close without the large-file extension.
#[verifier::external_body]
pub(crate) fn start_file(
    w: &mut ArchiveWriter,
    name: &str,
    method: ZipMethod,
    level: Option<i64>,
    mode: Option<u32>,
) -> (r: Result<(), zip::result::ZipError>)
    requires
        name@.len() <= MAX_NAME_CHARS,
    ensures
        r is Ok ==> zip_written(*final(w)) == zip_written(*old(w)).push((name@, Seq::<u8>::empty(), Some(stored_file_mode(mode))))
            && zip_compression(*final(w)) == zip_compression(*old(w)).push((method, level))
            && zip_accepting(*final(w)),
        zip_comment(*final(w)) == zip_comment(*old(w)),
        !name_taken(zip_written(*old(w)), name@) && compression_accepted(method, level)
            && entries_fit(zip_written(*old(w))) ==> r is Ok,
{
    let m = match method {
        ZipMethod::Stored => zip::CompressionMethod::Stored,
        ZipMethod::Deflated => zip::CompressionMethod::Deflated,
    };
    let o = zip::write::SimpleFileOptions::default().compression_method(m).compression_level(level);
    let o = match mode {
        Some(p) => o.unix_permissions(p),
        None => o,
    };
    w.inner.start_file(name, o)
}

/// Relies on `Write::write_all` of `ZipWriter`: the bytes extend the file entry
/// started last. Empty data changes nothing; other data fails only when no file
/// entry takes data, or when the entry would grow past `u32::MAX` bytes.
#[verifier::external_body]
pub(crate) fn write_data(w: &mut ArchiveWriter, data: &[u8]) -> (r: Result<(), std::io::Error>)
    ensures
        r is Ok && zip_written(*old(w)).len() > 0 ==> zip_written(*final(w)) == zip_written(*old(w)).update(
            zip_written(*old(w)).len() - 1,
            (zip_written(*old(w)).last().0, zip_written(*old(w)).last().1 + data@, zip_written(*old(w)).last().2),
        ),
        r is Ok ==> zip_accepting(*final(w)) == zip_accepting(*old(w))
            && zip_compression(*final(w)) == zip_compression(*old(w)),
        r is Ok && data@.len() > 0 ==> zip_accepting(*old(w)),
        zip_comment(*final(w)) == zip_comment(*old(w)),
        zip_accepting(*old(w)) && zip_written(*old(w)).len() > 0
            && zip_written(*old(w)).last().1.len() + data@.len() <= u32::MAX ==> r is Ok,
{
    std::io::Write::write_all(&mut w.inner, data)
}

/// Relies on `ZipWriter::add_directory`: a directory entry follows the earlier
/// ones, stored as it is, its name given a trailing `/` unless it ends with a
/// separator, recording the permission bits of `mode` (`0o755` if none) as a
/// directory. It fails only on a name already taken, or an earlier entry too large
/// to close without the large-file extension.
#[verifier::external_body]
pub(crate) fn add_directory(w: &mut ArchiveWriter, name: &str, mode: Option<u32>) -> (r: Result<(), zip::result::ZipError>)
    requires
        name@.len() <= MAX_NAME_CHARS,
    ensures
        r is Ok ==> zip_written(*final(w)) == zip_written(*old(w)).push(
            (dir_entry_name(name@), Seq::<u8>::empty(), Some(stored_dir_mode(mode))),
        ) && zip_compression(*final(w)) == zip_compression(*old(w)).push((ZipMethod::Stored, None)),
        zip_comment(*final(w)) == zip_comment(*old(w)),
        !name_taken(zip_written(*old(w)), dir_entry_name(name@)) && entries_fit(zip_written(*old(w))) ==> r is Ok,
{
    let o = zip::write::SimpleFileOptions::default();
    let o = match mode {
        Some(m) => o.unix_permissions(m),
        None => o,
    };
    w.inner.add_directory(name, o)
}

/// Relies on `ZipWriter::finish_into_readable`, which writes the archive directory
/// into the buffer and hands the entries the writer recorded to the archive it
/// returns, each reading back as written. It fails only on a comment over 65535
/// bytes or an entry too large to close without the large-file extension.
#[verifier::external_body]
pub(crate) fn finish_into_readable(w: ArchiveWriter) -> (r: Result<zip::ZipArchive<Cursor<Vec<u8>>>, zip::result::ZipError>)
    ensures
        zip_comment(w).len() <= 16383 && entries_fit(zip_written(w)) ==> r is Ok,
        r matches Ok(a) ==> zip_stored(a) == zip_written(w) && zip_all_readable(a) && zip_archive_comment(a) == zip_comment(w),
{
    w.inner.finish_into_readable()
}

/// Relies on `ZipArchive::len`: the number of entries.
#[verifier::external_body]
pub(crate) fn archive_len(a: &zip::ZipArchive<Cursor<Vec<u8>>>) -> (r: usize)
    ensures
        r == zip_stored(*a).len(),
{
    a.len()
}

/// Relies on `ZipArchive::by_index` and the accessors of the entry it gives: the
/// stored name, the content in full, the unix mode and the modification time.
#[verifier::external_body]
pub(crate) fn read_entry(a: &mut zip::ZipArchive<Cursor<Vec<u8>>>, i: usize) -> (r: Result<ZipEntry, zip::result::ZipError>)
    requires
        i < zip_stored(*old(a)).len(),
    ensures
        zip_stored(*final(a)) == zip_stored(*old(a)),
        forall|k: int| #[trigger] zip_entry_readable(*final(a), k) == zip_entry_readable(*old(a), k),
        forall|k: int| #[trigger] zip_entry_modified(*final(a), k) == zip_entry_modified(*old(a), k),
        r is Ok <==> zip_entry_readable(*old(a), i as int),
        r matches Ok(e) ==> e.name@ == zip_stored(*old(a))[i as int].0 && e.data@ == zip_stored(*old(a))[i as int].1
            && e.unix_mode == zip_stored(*old(a))[i as int].2 && time_fields(e.modified) == zip_entry_modified(*old(a), i as int),
{
    let mut f = a.by_index(i)?;
    let mut data = Vec::new();
    std::io::Read::read_to_end(&mut f, &mut data)?;
    let modified = f.last_modified().map(|d| ZipDateTime {
        year: d.year(), month: d.month(), day: d.day(), hour: d.hour(), minute: d.minute(), second: d.second(),
    });
    Ok(ZipEntry { name: f.name().to_owned(), data, unix_mode: f.unix_mode(), modified })
}

/// Relies on `ZipArchive::new`: reads the archive directory of `bytes`.
#[verifier::external_body]
pub(crate) fn open_archive(bytes: Vec<u8>) -> (r: Result<zip::ZipArchive<Cursor<Vec<u8>>>, zip::result::ZipError>)
    ensures
        zip_parsed(bytes@) is Some ==> r is Ok,
        r matches Ok(a) ==> (zip_all_readable(a) <==> zip_parsed(bytes@) is Some)
            && (zip_all_readable(a) ==> zip_parsed(bytes@) == Some(zip_stored(a))),
{
    zip::ZipArchive::new(Cursor::new(bytes))
}

/// Relies on `ZipArchive::into_inner`: the bytes of the archive, which open again
/// as the same entries.
#[verifier::external_body]
pub(crate) fn archive_bytes(a: zip::ZipArchive<Cursor<Vec<u8>>>) -> (r: Vec<u8>)
    ensures
        zip_all_readable(a) ==> zip_parsed(r@) == Some(zip_stored(a)),
{
    a.into_inner().into_inner()
}

} // verus!
