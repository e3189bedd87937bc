//! The archive engine: packing a folder's entries into a single archive
//! and extracting an archive's entries, with every stored path checked
//! against escaping the extraction directory. The archive encoding and
//! decoding are done by the zip crate through the trusted items below;
//! which entries go in, which come out, and which stored paths are safe
//! is this module's verified logic.

use std::io::Cursor;
use std::io::Read;
use std::io::Write;

use vstd::prelude::*;

use crate::error::AppErrorKind;
use crate::strutil::contains_char;
use crate::strutil::split_chars;
use crate::strutil::split_on;
use crate::strutil::str_eq;

verus! {

/// The unix permissions every packed entry carries.
pub const ARCHIVE_ENTRY_MODE: u32 = 0o755;

/// One entry to pack: its path relative to the packed folder, with `/`
/// between components.
#[derive(Debug)]
pub struct PackEntry {
    pub name: String,
    pub is_dir: bool,
    pub data: Vec<u8>,
}

/// One extracted entry: a stored path that passed the safety check, the
/// entry's bytes, and its stored unix permissions when the archive has
/// them.
#[derive(Debug)]
pub struct UnpackedEntry {
    pub name: String,
    pub is_dir: bool,
    pub data: Vec<u8>,
    pub unix_mode: Option<u32>,
}

/// The in-memory archive writer. Verus cannot see inside the zip
/// crate's writer, so it is held opaquely; `zip_writer_contents` names
/// what it has recorded.
#[verifier::external_body]
pub struct ArchiveWriter {
    inner: zip::ZipWriter<Cursor<Vec<u8>>>,
}

#[verifier::external_type_specification]
#[verifier::external_body]
#[verifier::reject_recursive_types(R)]
pub struct ExZipArchive<R>(zip::ZipArchive<R>);

#[verifier::external_type_specification]
#[verifier::external_body]
#[verifier::reject_recursive_types(T)]
pub struct ExCursor<T>(Cursor<T>);

#[verifier::external_type_specification]
#[verifier::external_body]
pub struct ExZipError(zip::result::ZipError);

/// The entries a writer has recorded so far: stored name, whether the
/// entry is a directory, and the entry's bytes.
pub uninterp spec fn zip_writer_contents(w: ArchiveWriter) -> Seq<
    (Seq<char>, bool, Seq<u8>),
>;

/// The entries of an opened archive: stored name, whether the entry is a
/// directory, the entry's bytes, and its stored unix permissions.
pub uninterp spec fn archive_contents(a: zip::ZipArchive<Cursor<Vec<u8>>>) -> Seq<
    (Seq<char>, bool, Seq<u8>, Option<u32>),
>;

/// What parsing archive bytes yields: the central directory's entry
/// list, or nothing when the bytes are not an archive. Parsing is a
/// function of the bytes alone.
pub uninterp spec fn archive_parse(bytes: Seq<u8>) -> Option<
    Seq<(Seq<char>, bool, Seq<u8>, Option<u32>)>,
>;

/// Whether every entry of the archive bytes can be fully read back: each
/// entry's method is supported and its data is complete with a matching
/// checksum. A function of the bytes alone.
pub uninterp spec fn archive_readable(bytes: Seq<u8>) -> bool;

/// Whether every entry of this opened archive can be fully read back;
/// `zip_open` ties it to `archive_readable` of the source bytes.
pub uninterp spec fn contents_readable(a: zip::ZipArchive<Cursor<Vec<u8>>>) -> bool;

/// The stored names of recorded entries.
pub open spec fn stored_names(c: Seq<(Seq<char>, bool, Seq<u8>)>) -> Seq<Seq<char>> {
    c.map_values(|e: (Seq<char>, bool, Seq<u8>)| e.0)
}

/// Whether a stored name ends in a path separator; parsing derives an
/// entry's directory kind from exactly this.
pub open spec fn slash_terminated(n: Seq<char>) -> bool {
    n.len() > 0 && (n.last() == '/' || n.last() == '\\')
}

/// The name a directory entry is recorded under: the stored form always
/// ends with a path separator.
pub open spec fn with_trailing_slash(n: Seq<char>) -> Seq<char> {
    if slash_terminated(n) {
        n
    } else {
        n.push('/')
    }
}

/// Relies on zip's `ZipWriter::new` over an in-memory buffer: a fresh
/// writer has recorded no entries.
#[verifier::external_body]
fn zip_writer_new() -> (w: ArchiveWriter)
    ensures
        zip_writer_contents(w) == Seq::<(Seq<char>, bool, Seq<u8>)>::empty(),
{
    ArchiveWriter { inner: zip::ZipWriter::new(Cursor::new(Vec::new())) }
}

/// Relies on zip's `ZipWriter::start_file` and its `Write::write_all`:
/// on success one file entry with exactly these bytes is appended,
/// deflate-compressed, under the given unix permissions. Over an
/// in-memory buffer the crate refuses only a name already recorded, a
/// name whose UTF-8 form exceeds the format's 65535-byte field (16000
/// characters are safe at up to four bytes each), or a file at or above
/// 2^32 bytes without the large-file option; the success clause keeps
/// 16 MiB below that so the deflated size also fits its classic field.
#[verifier::external_body]
fn zip_add_file(
    w: &mut ArchiveWriter,
    name: &str,
    data: &Vec<u8>,
    mode: u32,
) -> (r: Result<(), zip::result::ZipError>)
    ensures
        r is Ok ==> zip_writer_contents(*final(w)) == zip_writer_contents(*old(w)).push(
            (name@, false, data@),
        ),
        !stored_names(zip_writer_contents(*old(w))).contains(name@) && name@.len() <= 16000
            && data@.len() <= 0xFF00_0000 ==> r is Ok,
{
    let options = zip::write::SimpleFileOptions::default().compression_method(
        zip::CompressionMethod::Deflated,
    ).unix_permissions(mode);
    w.inner.start_file(name, options)?;
    w.inner.write_all(data.as_slice()).map_err(zip::result::ZipError::Io)?;
    Ok(())
}

/// Relies on zip's `ZipWriter::add_directory`: on success one directory
/// entry is appended, stored under the name with a trailing separator.
/// Over an in-memory buffer the crate refuses only a stored name already
/// recorded or one whose UTF-8 form exceeds the format's 65535-byte
/// field, so a fresh name of at most 16000 characters always succeeds.
#[verifier::external_body]
fn zip_add_directory(w: &mut ArchiveWriter, name: &str, mode: u32) -> (r: Result<
    (),
    zip::result::ZipError,
>)
    ensures
        r is Ok ==> zip_writer_contents(*final(w)) == zip_writer_contents(*old(w)).push(
            (with_trailing_slash(name@), true, Seq::<u8>::empty()),
        ),
        !stored_names(zip_writer_contents(*old(w))).contains(with_trailing_slash(name@))
            && name@.len() <= 16000 ==> r is Ok,
{
    let options = zip::write::SimpleFileOptions::default().unix_permissions(mode);
    w.inner.add_directory(name, options)
}

/// Relies on zip's `ZipWriter::finish`: the archive bytes. Over an
/// in-memory buffer nothing can fail, and the crate reads back the
/// archives it writes — provided every recorded entry leaves the
/// classic format's 2^32-byte field 16 MiB of deflate headroom, so the
/// compressed size also fits: parsing the bytes then yields the
/// recorded entries, same stored names and data, every entry fully
/// readable, and the parsed kind derived from the stored name's
/// trailing separator. The byte encoding itself stays unpromised.
#[verifier::external_body]
fn zip_finish(w: ArchiveWriter) -> (r: Result<Vec<u8>, zip::result::ZipError>)
    ensures
        r is Ok,
        (forall|i: int|
            0 <= i < zip_writer_contents(w).len() ==> (#[trigger] zip_writer_contents(w)[
                i]).2.len() <= 0xFF00_0000) ==> (r matches Ok(bytes) ==> archive_parse(bytes@)
            matches Some(c) && c.len() == zip_writer_contents(w).len() && (forall|i: int|
            0 <= i < c.len() ==> (#[trigger] c[i]).0 == zip_writer_contents(w)[i].0 && c[i].1
                == slash_terminated(c[i].0) && c[i].2 == zip_writer_contents(w)[i].2)
            && archive_readable(bytes@)),
{
    w.inner.finish().map(|cursor| cursor.into_inner())
}

/// Relies on zip's `ZipArchive::new`: parses the central directory of
/// the bytes, succeeding exactly when they parse; the opened archive
/// holds exactly what the bytes parse to, and is fully readable exactly
/// when the bytes are.
#[verifier::external_body]
fn zip_open(bytes: Vec<u8>) -> (r: Result<
    zip::ZipArchive<Cursor<Vec<u8>>>,
    zip::result::ZipError,
>)
    ensures
        r is Ok <==> archive_parse(bytes@) is Some,
        r matches Ok(a) ==> archive_parse(bytes@) matches Some(c) && archive_contents(a) == c
            && contents_readable(a) == archive_readable(bytes@),
{
    zip::ZipArchive::new(Cursor::new(bytes))
}

/// Relies on zip's `ZipArchive::len`: the number of entries.
#[verifier::external_body]
fn zip_len(a: &zip::ZipArchive<Cursor<Vec<u8>>>) -> (r: usize)
    ensures
        r == archive_contents(*a).len(),
{
    a.len()
}

/// Relies on zip's `ZipArchive::by_index` and the entry's `name`,
/// `is_dir`, `unix_mode` and `Read::read_to_end`: on success the fields
/// of entry `i`; reading moves no entry, and in a fully readable archive
/// every entry read succeeds.
#[verifier::external_body]
fn zip_read_entry(a: &mut zip::ZipArchive<Cursor<Vec<u8>>>, i: usize) -> (r: Result<
    UnpackedEntry,
    zip::result::ZipError,
>)
    requires
        i < archive_contents(*old(a)).len(),
    ensures
        archive_contents(*final(a)) == archive_contents(*old(a)),
        contents_readable(*final(a)) == contents_readable(*old(a)),
        r matches Ok(e) ==> archive_contents(*old(a))[i as int] == (e.name@, e.is_dir, e.data@, e.unix_mode),
        contents_readable(*old(a)) ==> r is Ok,
{
    let mut file = a.by_index(i)?;
    let name = file.name().to_string();
    let is_dir = file.is_dir();
    let unix_mode = file.unix_mode();
    let mut data = Vec::new();
    file.read_to_end(&mut data).map_err(zip::result::ZipError::Io)?;
    Ok(UnpackedEntry { name, is_dir, data, unix_mode })
}

/// Relies on `ZipError`'s display form: the error's text, kept for
/// logs.
#[verifier::external_body]
fn zip_error_text(e: &zip::result::ZipError) -> String {
    e.to_string()
}

/// The archive file a folder packs into: the folder's name with the
/// archive extension.
pub fn archive_file_name(folder_name: &str) -> (r: String)
    ensures
        r@ == folder_name@ + ".zip"@,
{
    let mut r = folder_name.to_owned();
    r.append(".zip");
    r
}

/// What `fill_zip_writer` records for a list of entries: every file as
/// it stands, every named directory with a trailing separator, and the
/// unnamed root entry skipped.
pub open spec fn planned_entries(entries: Seq<PackEntry>) -> Seq<(Seq<char>, bool, Seq<u8>)>
    decreases entries.len(),
{
    if entries.len() == 0 {
        Seq::<(Seq<char>, bool, Seq<u8>)>::empty()
    } else {
        let rest = planned_entries(entries.drop_last());
        let e = entries.last();
        if !e.is_dir {
            rest.push((e.name@, false, e.data@))
        } else if e.name@.len() > 0 {
            rest.push((with_trailing_slash(e.name@), true, Seq::<u8>::empty()))
        } else {
            rest
        }
    }
}

/// The stored names a pack would record are pairwise distinct; with
/// distinct names the archive crate has nothing left to refuse.
pub open spec fn planned_names_distinct(entries: Seq<PackEntry>) -> bool {
    stored_names(planned_entries(entries)).no_duplicates()
}

/// Every file's bytes fit a classic archive entry, with 16 MiB of
/// headroom so the deflated size fits as well.
pub open spec fn pack_sizes_ok(entries: Seq<PackEntry>) -> bool {
    forall|i: int|
        0 <= i < entries.len() ==> (!(#[trigger] entries[i]).is_dir ==> entries[i].data@.len()
            <= 0xFF00_0000)
}

/// Every entry's name fits the format's 65535-byte stored-name field:
/// at most 16000 characters, each at most four UTF-8 bytes.
pub open spec fn pack_names_ok(entries: Seq<PackEntry>) -> bool {
    forall|i: int| 0 <= i < entries.len() ==> (#[trigger] entries[i]).name@.len() <= 16000
}

/// What a pack records keeps every entry's data within the bounded size.
proof fn lemma_planned_sizes(entries: Seq<PackEntry>)
    requires
        pack_sizes_ok(entries),
    ensures
        forall|i: int|
            0 <= i < planned_entries(entries).len() ==> (#[trigger] planned_entries(entries)[
                i]).2.len() <= 0xFF00_0000,
    decreases entries.len(),
{
    if entries.len() > 0 {
        assert forall|i: int|
            0 <= i < entries.drop_last().len() implies (!(#[trigger] entries.drop_last()[
            i]).is_dir ==> entries.drop_last()[i].data@.len() <= 0xFF00_0000) by {
            assert(entries.drop_last()[i] == entries[i]);
        }
        lemma_planned_sizes(entries.drop_last());
        let rest = planned_entries(entries.drop_last());
        assert forall|i: int|
            0 <= i < planned_entries(entries).len() implies (#[trigger] planned_entries(entries)[
            i]).2.len() <= 0xFF00_0000 by {
            if i < rest.len() {
                assert(planned_entries(entries)[i] == rest[i]);
            }
        }
    }
}

/// What a prefix of the entries records is a prefix of what all of them
/// record.
proof fn lemma_planned_take_prefix(entries: Seq<PackEntry>, i: int)
    requires
        0 <= i <= entries.len(),
    ensures
        planned_entries(entries.take(i)).is_prefix_of(planned_entries(entries)),
    decreases entries.len() - i,
{
    if i == entries.len() {
        assert(entries.take(i) =~= entries);
    } else {
        lemma_planned_take_prefix(entries, i + 1);
        assert(entries.take(i + 1).drop_last() =~= entries.take(i));
        assert(entries.take(i + 1).last() == entries[i]);
        let a = planned_entries(entries.take(i));
        let b = planned_entries(entries.take(i + 1));
        let c = planned_entries(entries);
        assert(a.is_prefix_of(b));
        assert(a =~= b.subrange(0, a.len() as int));
        assert(a =~= c.subrange(0, a.len() as int)) by {
            assert(b =~= c.subrange(0, b.len() as int));
            assert forall|k: int| 0 <= k < a.len() implies a[k] == c[k] by {
                assert(a[k] == b[k]);
                assert(b[k] == c[k]);
            }
        }
    }
}

/// Records the entries in order: files with their bytes, directories
/// explicitly so extraction tools relying on directory records work,
/// and the empty root name skipped.
fn fill_zip_writer(w: &mut ArchiveWriter, entries: &Vec<PackEntry>) -> (r:
    Result<(), AppErrorKind>)
    ensures
        r is Ok ==> zip_writer_contents(*final(w)) == zip_writer_contents(*old(w))
            + planned_entries(entries@),
        zip_writer_contents(*old(w)) == Seq::<(Seq<char>, bool, Seq<u8>)>::empty()
            && planned_names_distinct(entries@) && pack_sizes_ok(entries@) && pack_names_ok(
            entries@,
        ) ==> r is Ok,
{
    let ghost base = zip_writer_contents(*w);
    let mut i: usize = 0;
    proof {
        assert(entries@.take(0) =~= Seq::<PackEntry>::empty());
        assert(base + planned_entries(entries@.take(0)) =~= base);
    }
    while i < entries.len()
        invariant
            i <= entries@.len(),
            base == zip_writer_contents(*old(w)),
            zip_writer_contents(*w) == base + planned_entries(entries@.take(i as int)),
        decreases entries@.len() - i,
    {
        let entry = &entries[i];
        proof {
            assert(entries@.take(i + 1).drop_last() =~= entries@.take(i as int));
            assert(entries@.take(i + 1).last() == entries@[i as int]);
        }
        if !entry.is_dir {
            match zip_add_file(w, entry.name.as_str(), &entry.data, ARCHIVE_ENTRY_MODE) {
                Ok(()) => {
                    proof {
                        assert((base + planned_entries(entries@.take(i as int))).push(
                            (entry.name@, false, entry.data@),
                        ) =~= base + planned_entries(entries@.take(i + 1)));
                    }
                },
                Err(e) => {
                    proof {
                        lemma_fill_step_fresh(entries@, i as int, base);
                    }
                    return Err(AppErrorKind::Io(zip_error_text(&e)));
                },
            }
        } else if entry.name.as_str().unicode_len() > 0 {
            match zip_add_directory(w, entry.name.as_str(), ARCHIVE_ENTRY_MODE) {
                Ok(()) => {
                    proof {
                        assert((base + planned_entries(entries@.take(i as int))).push(
                            (with_trailing_slash(entry.name@), true, Seq::<u8>::empty()),
                        ) =~= base + planned_entries(entries@.take(i + 1)));
                    }
                },
                Err(e) => {
                    proof {
                        lemma_fill_step_fresh(entries@, i as int, base);
                    }
                    return Err(AppErrorKind::Io(zip_error_text(&e)));
                },
            }
        }
        i += 1;
    }
    proof {
        assert(entries@.take(entries@.len() as int) =~= entries@);
    }
    Ok(())
}

/// When the planned names are pairwise distinct, the name the next step
/// records is not among those already recorded.
proof fn lemma_fill_step_fresh(entries: Seq<PackEntry>, i: int, base: Seq<
    (Seq<char>, bool, Seq<u8>),
>)
    requires
        0 <= i < entries.len(),
        base == Seq::<(Seq<char>, bool, Seq<u8>)>::empty() ==> true,
    ensures
        (base == Seq::<(Seq<char>, bool, Seq<u8>)>::empty() && planned_names_distinct(entries))
            ==> ({
            let done = planned_entries(entries.take(i));
            let next = planned_entries(entries.take(i + 1));
            next.len() == done.len() ==> true
        }),
        (base == Seq::<(Seq<char>, bool, Seq<u8>)>::empty() && planned_names_distinct(entries)
            && planned_entries(entries.take(i + 1)).len() > planned_entries(
            entries.take(i),
        ).len()) ==> !stored_names(base + planned_entries(entries.take(i))).contains(
            planned_entries(entries.take(i + 1)).last().0,
        ),
{
    if planned_names_distinct(entries) && base == Seq::<(Seq<char>, bool, Seq<u8>)>::empty() {
        let done = planned_entries(entries.take(i));
        let next = planned_entries(entries.take(i + 1));
        if next.len() > done.len() {
            lemma_planned_take_prefix(entries, i);
            lemma_planned_take_prefix(entries, i + 1);
            assert(entries.take(i + 1).drop_last() =~= entries.take(i));
            let full = planned_entries(entries);
            let names = stored_names(full);
            assert(next.len() == done.len() + 1);
            assert(next.last() == full[done.len() as int]) by {
                assert(next =~= full.subrange(0, next.len() as int));
            }
            assert(base + done =~= done);
            if stored_names(done).contains(next.last().0) {
                let j = choose|j: int|
                    0 <= j < done.len() && stored_names(done)[j] == next.last().0;
                assert(done[j].0 == next.last().0);
                assert(done[j] == full[j]) by {
                    assert(done =~= full.subrange(0, done.len() as int));
                }
                assert(names[j] == full[j].0);
                assert(names[done.len() as int] == full[done.len() as int].0);
                assert(names[j] == names[done.len() as int]);
            }
            assert(!stored_names(base + done).contains(next.last().0)) by {
                assert(stored_names(base + done) =~= stored_names(done));
            }
        }
    }
}

/// Packs a folder's entries into a single archive named after the
/// folder. The archive records exactly the planned entries, in order,
/// and — for entries within the size bound — parsing the produced bytes
/// yields them back: same stored names and data, kinds from the trailing
/// separator, all readable; only the byte encoding itself is the zip
/// crate's. With pairwise-distinct planned names that fit the format's
/// name field, and files under the bounded size, packing always
/// succeeds.
pub fn write_zip_from_folder(folder_name: &str, entries: &Vec<PackEntry>) -> (r: Result<
    (String, Vec<u8>),
    AppErrorKind,
>)
    ensures
        r matches Ok(p) ==> p.0@ == folder_name@ + ".zip"@,
        pack_sizes_ok(entries@) ==> (r matches Ok(p) ==> archive_parse(p.1@) matches Some(c)
            && c.len() == planned_entries(entries@).len() && (forall|i: int|
            0 <= i < c.len() ==> (#[trigger] c[i]).0 == planned_entries(entries@)[i].0 && c[i].1
                == slash_terminated(c[i].0) && c[i].2 == planned_entries(entries@)[i].2)
            && archive_readable(p.1@)),
        planned_names_distinct(entries@) && pack_sizes_ok(entries@) && pack_names_ok(entries@)
            ==> r is Ok,
{
    let mut w = zip_writer_new();
    fill_zip_writer(&mut w, entries)?;
    proof {
        assert(zip_writer_contents(w) =~= planned_entries(entries@));
        if pack_sizes_ok(entries@) {
            lemma_planned_sizes(entries@);
        }
    }
    match zip_finish(w) {
        Ok(bytes) => Ok((archive_file_name(folder_name), bytes)),
        Err(e) => Err(AppErrorKind::Io(zip_error_text(&e))),
    }
}

/// Whether `s` ends with `suffix`.
pub open spec fn ends_with(s: Seq<char>, suffix: Seq<char>) -> bool {
    suffix.len() <= s.len() && s.skip(s.len() - suffix.len()) == suffix
}

fn ends_with_exec(s: &str, suffix: &str) -> (r: bool)
    ensures
        r == ends_with(s@, suffix@),
{
    let n = s.unicode_len();
    let m = suffix.unicode_len();
    if m > n {
        return false;
    }
    let tail = s.substring_char(n - m, n);
    proof {
        assert(s@.subrange(n - m, n as int) =~= s@.skip(n - m));
    }
    str_eq(tail, suffix)
}

/// The directory an archive extracts into, derived from the archive's
/// file name by stripping the known archive extension.
pub fn extracted_dir_name(file_name: &str) -> (r: String)
    ensures
        ends_with(file_name@, ".zip"@) ==> r@ == file_name@.take(file_name@.len() - 4),
        !ends_with(file_name@, ".zip"@) && ends_with(file_name@, ".tar.bz2"@) ==> r@
            == file_name@.take(file_name@.len() - 8),
        !ends_with(file_name@, ".zip"@) && !ends_with(file_name@, ".tar.bz2"@) ==> r@
            == file_name@,
{
    proof {
        reveal_strlit(".zip");
        reveal_strlit(".tar.bz2");
    }
    let n = file_name.unicode_len();
    if ends_with_exec(file_name, ".zip") {
        let r = file_name.substring_char(0, n - 4).to_owned();
        proof {
            assert(file_name@.subrange(0, n - 4) =~= file_name@.take(n - 4));
        }
        r
    } else if ends_with_exec(file_name, ".tar.bz2") {
        let r = file_name.substring_char(0, n - 8).to_owned();
        proof {
            assert(file_name@.subrange(0, n - 8) =~= file_name@.take(n - 8));
        }
        r
    } else {
        file_name.to_owned()
    }
}

/// A stored entry path that is safe to extract: non-empty, relative,
/// free of null bytes and backslashes, and with no `..` component, so
/// the entry cannot resolve outside the extraction directory.
pub open spec fn is_safe_entry_path(name: Seq<char>) -> bool {
    &&& name.len() > 0
    &&& name[0] != '/'
    &&& !name.contains('\\')
    &&& !name.contains('\u{0}')
    &&& forall|i: int|
        0 <= i < split_chars(name, '/').len() ==> split_chars(name, '/')[i] != ".."@
}

/// Checks a stored entry path before extraction.
pub fn check_entry_path(name: &str) -> (r: bool)
    ensures
        r == is_safe_entry_path(name@),
{
    proof {
        reveal_strlit("/");
    }
    let n = name.unicode_len();
    if n == 0 {
        return false;
    }
    if name.get_char(0) == '/' {
        return false;
    }
    if contains_char(name, '\\') {
        return false;
    }
    if contains_char(name, '\u{0}') {
        return false;
    }
    let pieces = split_on(name, "/");
    let mut i: usize = 0;
    while i < pieces.len()
        invariant
            crate::strutil::views_of(pieces@) == split_chars(name@, '/'),
            i <= pieces@.len(),
            forall|j: int| 0 <= j < i ==> crate::strutil::views_of(pieces@)[j] != ".."@,
        decreases pieces@.len() - i,
    {
        proof {
            assert(crate::strutil::views_of(pieces@)[i as int] == pieces@[i as int]@);
        }
        if str_eq(pieces[i].as_str(), "..") {
            return false;
        }
        i += 1;
    }
    true
}

/// The views of extracted entries.
pub open spec fn entry_views(s: Seq<UnpackedEntry>) -> Seq<(Seq<char>, bool, Seq<u8>, Option<u32>)> {
    s.map_values(|e: UnpackedEntry| (e.name@, e.is_dir, e.data@, e.unix_mode))
}

/// The entries of an archive whose stored paths are safe, in archive
/// order; everything else is rejected, not extracted.
pub open spec fn safe_entries(contents: Seq<(Seq<char>, bool, Seq<u8>, Option<u32>)>) -> Seq<
    (Seq<char>, bool, Seq<u8>, Option<u32>),
>
    decreases contents.len(),
{
    if contents.len() == 0 {
        Seq::<(Seq<char>, bool, Seq<u8>, Option<u32>)>::empty()
    } else {
        let rest = safe_entries(contents.drop_last());
        if is_safe_entry_path(contents.last().0) {
            rest.push(contents.last())
        } else {
            rest
        }
    }
}

/// An archive whose stored paths are all safe extracts in full: the
/// safety filter keeps every entry.
pub proof fn lemma_safe_archive_extracts_all(contents: Seq<(Seq<char>, bool, Seq<u8>, Option<u32>)>)
    requires
        forall|i: int| 0 <= i < contents.len() ==> is_safe_entry_path((#[trigger] contents[i]).0),
    ensures
        safe_entries(contents) == contents,
    decreases contents.len(),
{
    if contents.len() > 0 {
        assert forall|i: int|
            0 <= i < contents.drop_last().len() implies is_safe_entry_path(
            (#[trigger] contents.drop_last()[i]).0,
        ) by {
            assert(contents.drop_last()[i] == contents[i]);
        }
        lemma_safe_archive_extracts_all(contents.drop_last());
        assert(is_safe_entry_path(contents.last().0));
        assert(safe_entries(contents) =~= contents);
    }
}

/// Everything `safe_entries` keeps has a safe stored path.
pub proof fn lemma_safe_entries_safe(contents: Seq<(Seq<char>, bool, Seq<u8>, Option<u32>)>)
    ensures
        forall|i: int|
            0 <= i < safe_entries(contents).len() ==> is_safe_entry_path(
                #[trigger] safe_entries(contents)[i].0,
            ),
    decreases contents.len(),
{
    if contents.len() > 0 {
        lemma_safe_entries_safe(contents.drop_last());
        let rest = safe_entries(contents.drop_last());
        assert forall|i: int| 0 <= i < safe_entries(contents).len() implies is_safe_entry_path(
            #[trigger] safe_entries(contents)[i].0,
        ) by {
            if is_safe_entry_path(contents.last().0) {
                if i < rest.len() {
                    assert(safe_entries(contents)[i] == rest[i]);
                } else {
                    assert(safe_entries(contents)[i] == contents.last());
                }
            } else {
                assert(safe_entries(contents)[i] == rest[i]);
            }
        }
    }
}

/// Each recorded entry's kind matches its stored name's trailing
/// separator, provided no file entry was handed a slash-terminated name:
/// directories are recorded slash-terminated, files as given.
pub proof fn lemma_planned_kinds(entries: Seq<PackEntry>)
    requires
        forall|i: int|
            0 <= i < entries.len() ==> (!(#[trigger] entries[i]).is_dir ==> !slash_terminated(
                entries[i].name@,
            )),
    ensures
        forall|i: int|
            0 <= i < planned_entries(entries).len() ==> (#[trigger] planned_entries(entries)[
                i]).1 == slash_terminated(planned_entries(entries)[i].0),
    decreases entries.len(),
{
    if entries.len() > 0 {
        assert forall|i: int|
            0 <= i < entries.drop_last().len() implies (!(#[trigger] entries.drop_last()[
            i]).is_dir ==> !slash_terminated(entries.drop_last()[i].name@)) by {
            assert(entries.drop_last()[i] == entries[i]);
        }
        lemma_planned_kinds(entries.drop_last());
        let rest = planned_entries(entries.drop_last());
        let e = entries.last();
        assert forall|i: int|
            0 <= i < planned_entries(entries).len() implies (#[trigger] planned_entries(entries)[
            i]).1 == slash_terminated(planned_entries(entries)[i].0) by {
            if i < rest.len() {
                assert(planned_entries(entries)[i] == rest[i]);
            } else {
                if e.is_dir {
                    assert(slash_terminated(with_trailing_slash(e.name@))) by {
                        if !slash_terminated(e.name@) {
                            assert(with_trailing_slash(e.name@).last() == '/');
                        }
                    }
                }
            }
        }
    }
}

/// Packing then parsing reproduces the tree: when the parsed entries
/// agree with the planned ones in stored name and data, each parsed
/// kind follows its name's trailing separator as parsing defines it,
/// the planned kinds do too, and every planned path is safe, then the
/// safety filter keeps all of them, so what extraction returns is
/// exactly what was packed.
pub proof fn lemma_pack_parse_round_trip(
    c: Seq<(Seq<char>, bool, Seq<u8>, Option<u32>)>,
    entries: Seq<PackEntry>,
)
    requires
        c.len() == planned_entries(entries).len(),
        forall|i: int|
            0 <= i < c.len() ==> (#[trigger] c[i]).0 == planned_entries(entries)[i].0 && c[i].1
                == slash_terminated(c[i].0) && c[i].2 == planned_entries(entries)[i].2,
        forall|i: int|
            0 <= i < planned_entries(entries).len() ==> (#[trigger] planned_entries(entries)[
                i]).1 == slash_terminated(planned_entries(entries)[i].0),
        forall|i: int|
            0 <= i < planned_entries(entries).len() ==> is_safe_entry_path(
                (#[trigger] planned_entries(entries)[i]).0,
            ),
    ensures
        safe_entries(c) == c,
        safe_entries(c).len() == planned_entries(entries).len(),
        forall|i: int|
            0 <= i < safe_entries(c).len() ==> (#[trigger] safe_entries(c)[i]).0
                == planned_entries(entries)[i].0 && safe_entries(c)[i].1 == planned_entries(
                entries,
            )[i].1 && safe_entries(c)[i].2 == planned_entries(entries)[i].2,
{
    assert forall|i: int| 0 <= i < c.len() implies is_safe_entry_path(
        (#[trigger] c[i]).0,
    ) by {
        assert(c[i].0 == planned_entries(entries)[i].0);
    }
    lemma_safe_archive_extracts_all(c);
}

/// Extracts every safely named entry of the archive, in order, and
/// rejects any entry whose stored path could resolve outside the
/// extraction directory. Bytes that do not parse as an archive are
/// refused as a whole; bytes that parse and read back in full always
/// extract.
pub fn extract_zip_entries(bytes: Vec<u8>) -> (r: Result<Vec<UnpackedEntry>, AppErrorKind>)
    ensures
        r matches Ok(v) ==> archive_parse(bytes@) matches Some(c) && entry_views(v@)
            == safe_entries(c),
        r matches Ok(v) ==> forall|i: int|
            0 <= i < v@.len() ==> is_safe_entry_path(#[trigger] v@[i].name@),
        r matches Err(e) ==> e == AppErrorKind::FailedToUnzipFile,
        archive_parse(bytes@) is Some && archive_readable(bytes@) ==> r is Ok,
{
    let ghost parsed = archive_parse(bytes@);
    let mut archive = match zip_open(bytes) {
        Ok(a) => a,
        Err(_) => {
            return Err(AppErrorKind::FailedToUnzipFile);
        },
    };
    let ghost contents = archive_contents(archive);
    let total = zip_len(&archive);
    let mut out: Vec<UnpackedEntry> = Vec::new();
    let mut i: usize = 0;
    proof {
        assert(contents.take(0) =~= Seq::<(Seq<char>, bool, Seq<u8>, Option<u32>)>::empty());
        assert(entry_views(out@) =~= safe_entries(contents.take(0)));
    }
    while i < total
        invariant
            parsed matches Some(c) && c == contents,
            archive_contents(archive) == contents,
            contents_readable(archive) == archive_readable(bytes@),
            total == contents.len(),
            i <= total,
            entry_views(out@) == safe_entries(contents.take(i as int)),
        decreases total - i,
    {
        let entry = match zip_read_entry(&mut archive, i) {
            Ok(e) => e,
            Err(_) => {
                return Err(AppErrorKind::FailedToUnzipFile);
            },
        };
        proof {
            assert(contents.take(i + 1).drop_last() =~= contents.take(i as int));
            assert(contents.take(i + 1).last() == contents[i as int]);
        }
        if check_entry_path(entry.name.as_str()) {
            proof {
                assert(entry_views(out@.push(entry)) =~= entry_views(out@).push(
                    (entry.name@, entry.is_dir, entry.data@, entry.unix_mode),
                ));
            }
            out.push(entry);
        }
        i += 1;
    }
    proof {
        assert(contents.take(contents.len() as int) =~= contents);
        lemma_safe_entries_safe(contents);
        assert forall|k: int| 0 <= k < out@.len() implies is_safe_entry_path(
            #[trigger] out@[k].name@,
        ) by {
            assert(entry_views(out@)[k] == (out@[k].name@, out@[k].is_dir, out@[k].data@, out@[k].unix_mode));
            assert(safe_entries(contents)[k].0 == out@[k].name@);
        }
    }
    Ok(out)
}

} // verus!
