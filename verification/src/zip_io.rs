use vstd::prelude::*;
use std::io::{Cursor, Read, Write};
use zip::{ZipArchive, ZipWriter};

verus! {

#[verifier::external_type_specification]
#[verifier::external_body]
#[verifier::reject_recursive_types(T)]
pub struct ExCursor<T>(Cursor<T>);

#[verifier::external_type_specification]
#[verifier::external_body]
#[verifier::reject_recursive_types(R)]
pub struct ExZipArchive<R>(ZipArchive<R>);

/// A ZIP writer over an in-memory buffer. The bounds of `zip::ZipWriter` name
/// `std::io::Write` and `Seek`, which cannot be declared as outside types here,
/// so the writer is held in a private field; its entries are named by
/// [`writer_entries`].
#[verifier::external_body]
pub struct PackageWriter {
    inner: ZipWriter<Cursor<Vec<u8>>>,
}

/// What reading entry `name` from the ZIP bytes `archive` gives: `None` when
/// the bytes are no readable archive or the entry cannot be read,
/// `Some(None)` when the archive has no such entry, `Some(Some(c))` its content.
pub uninterp spec fn zip_entry_of(archive: Seq<u8>, name: Seq<char>) -> Option<Option<Seq<u8>>>;

/// The entry names of an opened archive, in index order.
pub uninterp spec fn archive_names(a: ZipArchive<Cursor<Vec<u8>>>) -> Seq<Seq<char>>;

/// The bytes an opened archive was read from.
pub uninterp spec fn archive_source(a: ZipArchive<Cursor<Vec<u8>>>) -> Seq<u8>;

/// The entries written so far: name, and what reading it back gives.
pub uninterp spec fn writer_entries(w: PackageWriter) -> Seq<(Seq<char>, Option<Option<Seq<u8>>>)>;

/// Names of a sequence of entries are pairwise distinct.
pub open spec fn distinct_names(s: Seq<Seq<char>>) -> bool {
    forall|i: int, j: int| 0 <= i < j < s.len() ==> s[i] != s[j]
}

pub open spec fn entry_names(e: Seq<(Seq<char>, Option<Option<Seq<u8>>>)>) -> Seq<Seq<char>> {
    e.map_values(|x: (Seq<char>, Option<Option<Seq<u8>>>)| x.0)
}

/// Longest entry name, in characters, that is always written: at most four
/// bytes each, within the 16-bit name length of a ZIP header.
pub const MAX_ENTRY_NAME_CHARS: u64 = 16383;

/// Largest content written with 32-bit sizes: compressed, it stays within
/// the limit above which an entry needs the large-file option.
pub const MAX_ENTRY_BYTES: u64 = 0x8000_0000;

/// Every entry written so far that reads holds at most [`MAX_ENTRY_BYTES`].
pub open spec fn entries_small(e: Seq<(Seq<char>, Option<Option<Seq<u8>>>)>) -> bool {
    forall|k: int| 0 <= k < e.len() ==> ((#[trigger] e[k]).1 matches Some(Some(c)) ==> c.len() <= MAX_ENTRY_BYTES)
}

/// Reads entry `name` of an opened archive (`ZipArchive::by_name`, then
/// `read_to_end`). Claims that the outcome is [`zip_entry_of`] of the bytes
/// the archive reads from: `Ok(None)` for a missing entry
/// (`ZipError::FileNotFound`), `Err` with a message when the entry cannot be
/// read; the archive keeps its bytes and names.
#[verifier::external_body]
pub(crate) fn zip_by_name(a: &mut ZipArchive<Cursor<Vec<u8>>>, name: &str) -> (r: Result<Option<Vec<u8>>, Vec<u8>>)
    ensures
        archive_names(*final(a)) == archive_names(*old(a)),
        archive_source(*final(a)) == archive_source(*old(a)),
        match r {
            Ok(Some(v)) => zip_entry_of(archive_source(*old(a)), name@) == Some(Some(v@)),
            Ok(None) => zip_entry_of(archive_source(*old(a)), name@) == Some(None::<Seq<u8>>),
            Err(_) => zip_entry_of(archive_source(*old(a)), name@) is None,
        },
{
    let mut entry = match a.by_name(name) {
        Ok(e) => e,
        Err(zip::result::ZipError::FileNotFound) => return Ok(None),
        Err(e) => return Err(format!("docx 内读取 {name} 失败: {e}").into_bytes()),
    };
    let mut buf = Vec::new();
    entry.read_to_end(&mut buf).map_err(|e| format!("docx 内读取 {name} 失败: {e}").into_bytes())?;
    Ok(Some(buf))
}

/// Opens ZIP bytes (`ZipArchive::new` over a cursor). Claims: the archive
/// reads from these bytes, its names are distinct (the crate keys entries by
/// name), a name it does not list is a missing entry and a name it lists is
/// not; bytes that do not open give no entry at all.
#[verifier::external_body]
pub(crate) fn zip_open(bytes: Vec<u8>) -> (r: Result<ZipArchive<Cursor<Vec<u8>>>, Vec<u8>>)
    ensures
        r is Err ==> forall|n: Seq<char>| #[trigger] zip_entry_of(bytes@, n) is None,
        r matches Ok(a) ==> {
            &&& archive_source(a) == bytes@
            &&& distinct_names(archive_names(a))
            &&& forall|n: Seq<char>| !archive_names(a).contains(n) ==> zip_entry_of(bytes@, n) == Some(
                None::<Seq<u8>>,
            )
            &&& forall|n: Seq<char>| archive_names(a).contains(n) ==> zip_entry_of(bytes@, n) != Some(
                None::<Seq<u8>>,
            )
        },
{
    ZipArchive::new(Cursor::new(bytes)).map_err(|e| format!("docx 不是合法 ZIP 容器: {e}").into_bytes())
}

/// Number of entries (`ZipArchive::len`).
#[verifier::external_body]
pub(crate) fn zip_len(a: &ZipArchive<Cursor<Vec<u8>>>) -> (r: usize)
    ensures
        r == archive_names(*a).len(),
{
    a.len()
}

/// Whether entry `i` is named `name`.
pub(crate) fn zip_name_is(a: &ZipArchive<Cursor<Vec<u8>>>, i: usize, name: &str) -> (r: bool)
    requires
        i < archive_names(*a).len(),
    ensures
        r == (archive_names(*a)[i as int] == name@),
{
    let n = zip_name_at(a, i);
    let ns = n.as_str();
    let r = crate::bytes_util::bytes_eq(ns.as_bytes(), name.as_bytes());
    proof {
        vstd::utf8::encode_utf8_decode_utf8(ns@);
        vstd::utf8::encode_utf8_decode_utf8(name@);
    }
    r
}

/// The name of entry `i` (`ZipArchive::name_for_index`).
#[verifier::external_body]
pub(crate) fn zip_name_at(a: &ZipArchive<Cursor<Vec<u8>>>, i: usize) -> (r: String)
    requires
        i < archive_names(*a).len(),
    ensures
        r@ == archive_names(*a)[i as int],
{
    a.name_for_index(i).unwrap_or("").to_string()
}

/// A writer over an empty buffer (`ZipWriter::new`); it holds no entry.
#[verifier::external_body]
pub(crate) fn zip_writer_new() -> (w: PackageWriter)
    ensures
        writer_entries(w) == Seq::<(Seq<char>, Option<Option<Seq<u8>>>)>::empty(),
{
    PackageWriter { inner: ZipWriter::new(Cursor::new(Vec::new())) }
}

/// Copies entry `i` of `a` into `w` without recompressing it
/// (`by_index_raw` then `raw_copy_file`). Claims: on success the writer holds
/// one more entry, with the same name; where the source entry reads, the copy
/// reads back as the same content. Nothing is claimed of an entry that does
/// not read from the source (an encrypted one is written without encryption).
/// The copy succeeds for an entry that reads, under a name the writer does
/// not hold yet and short enough for a header, when the files before it are
/// small: the writer then refuses nothing (a duplicate name is its only
/// refusal, the large-file option follows the entry's own sizes, and writing
/// to memory does not fail).
#[verifier::external_body]
pub(crate) fn zip_copy_raw(
    w: &mut PackageWriter,
    a: &mut ZipArchive<Cursor<Vec<u8>>>,
    i: usize,
) -> (r: Result<(), Vec<u8>>)
    requires
        i < archive_names(*old(a)).len(),
    ensures
        archive_names(*final(a)) == archive_names(*old(a)),
        archive_source(*final(a)) == archive_source(*old(a)),
        r is Ok ==> writer_entries(*final(w)).len() == writer_entries(*old(w)).len() + 1,
        r is Ok ==> writer_entries(*final(w)).subrange(0, writer_entries(*old(w)).len() as int) == writer_entries(*old(w)),
        r is Ok ==> writer_entries(*final(w)).last().0 == archive_names(*old(a))[i as int],
        r is Ok ==> (zip_entry_of(archive_source(*old(a)), archive_names(*old(a))[i as int]) matches Some(Some(c))
            ==> writer_entries(*final(w)).last().1 == Some(Some(c))),
        zip_entry_of(archive_source(*old(a)), archive_names(*old(a))[i as int]) matches Some(Some(_))
            && !entry_names(writer_entries(*old(w))).contains(archive_names(*old(a))[i as int])
            && archive_names(*old(a))[i as int].len() <= MAX_ENTRY_NAME_CHARS && entries_small(writer_entries(*old(w)))
            ==> r is Ok,
{
    let entry = a.by_index_raw(i).map_err(|e| format!("docx 内读取 entry 失败: {e}").into_bytes())?;
    let name = entry.name().to_string();
    w.inner.raw_copy_file(entry).map_err(|e| format!("重打包 entry {name} 失败: {e}").into_bytes())
}

/// Copies entry `i` of `a` into `w` unchanged, after checking that it reads
/// from the source: an entry that does not read (an encrypted one, a damaged
/// one) is refused. On success the writer holds one more entry, with the same
/// name and the content reading the source gives.
pub(crate) fn copy_entry(
    w: &mut PackageWriter,
    a: &mut ZipArchive<Cursor<Vec<u8>>>,
    i: usize,
) -> (r: Result<(), Vec<u8>>)
    requires
        i < archive_names(*old(a)).len(),
    ensures
        archive_names(*final(a)) == archive_names(*old(a)),
        archive_source(*final(a)) == archive_source(*old(a)),
        r is Ok ==> writer_entries(*final(w)) == writer_entries(*old(w)).push(
            (
                archive_names(*old(a))[i as int],
                zip_entry_of(archive_source(*old(a)), archive_names(*old(a))[i as int]),
            ),
        ),
        !(zip_entry_of(archive_source(*old(a)), archive_names(*old(a))[i as int]) matches Some(Some(_))) ==> r is Err,
        zip_entry_of(archive_source(*old(a)), archive_names(*old(a))[i as int]) matches Some(Some(_))
            && !entry_names(writer_entries(*old(w))).contains(archive_names(*old(a))[i as int])
            && archive_names(*old(a))[i as int].len() <= MAX_ENTRY_NAME_CHARS && entries_small(writer_entries(*old(w)))
            ==> r is Ok,
{
    let name = zip_name_at(a, i);
    match zip_by_name(a, name.as_str()) {
        Ok(Some(_)) => {},
        Ok(None) => {
            let mut m = crate::bytes_util::str_bytes("docx 内 entry 无法读取: ");
            crate::bytes_util::push_str(&mut m, name.as_str());
            return Err(m);
        },
        Err(m) => {
            return Err(m);
        },
    }
    let ghost before = writer_entries(*w);
    match zip_copy_raw(w, a, i) {
        Ok(()) => {},
        Err(m) => {
            return Err(m);
        },
    }
    assert(writer_entries(*w) =~= before.push(writer_entries(*w).last()));
    Ok(())
}

/// Writes a new entry (`start_file` with default options, then `write_all`).
/// Claims: on success the writer holds one more entry that reads back as
/// `content`. It succeeds under a name the writer does not hold yet
/// (`start_file` refuses a duplicate), short enough for a header, with
/// content and earlier files small enough for 32-bit sizes; writing to memory
/// does not fail otherwise.
#[verifier::external_body]
pub(crate) fn zip_write_file(w: &mut PackageWriter, name: &str, content: &[u8]) -> (r: Result<
    (),
    Vec<u8>,
>)
    ensures
        r is Ok ==> writer_entries(*final(w)) == writer_entries(*old(w)).push(
            (name@, Some(Some(content@))),
        ),
        !entry_names(writer_entries(*old(w))).contains(name@) && name@.len() <= MAX_ENTRY_NAME_CHARS
            && content@.len() <= MAX_ENTRY_BYTES && entries_small(writer_entries(*old(w))) ==> r is Ok,
{
    w.inner.start_file(name, zip::write::SimpleFileOptions::default()).map_err(
        |e| format!("重打包 {name} 失败: {e}").into_bytes(),
    )?;
    w.inner.write_all(content).map_err(|e| format!("重打包 {name} 失败: {e}").into_bytes())
}

/// Finishes the archive (`ZipWriter::finish`) and hands out its bytes.
/// Claims: with distinct names, reading an entry back gives what was written,
/// and a name never written is missing. Finishing succeeds when the files are
/// small enough for 32-bit sizes (the central directory itself switches to
/// its 64-bit form as needed).
#[verifier::external_body]
pub(crate) fn zip_finish(w: PackageWriter) -> (r: Result<Vec<u8>, Vec<u8>>)
    ensures
        r matches Ok(out) ==> distinct_names(entry_names(writer_entries(w))) ==> {
            &&& forall|k: int|
                0 <= k < writer_entries(w).len() ==> zip_entry_of(out@, #[trigger] writer_entries(w)[k].0)
                    == writer_entries(w)[k].1
            &&& forall|n: Seq<char>|
                !entry_names(writer_entries(w)).contains(n) ==> zip_entry_of(out@, n) == Some(
                    None::<Seq<u8>>,
                )
        },
        entries_small(writer_entries(w)) ==> r is Ok,
{
    w.inner.finish().map(|c| c.into_inner()).map_err(|e| format!("docx 重打包收尾失败: {e}").into_bytes())
}

} // verus!
