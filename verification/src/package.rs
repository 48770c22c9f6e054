//! The `.docx` container: a zip archive of the package parts, built in memory.
use std::io::Cursor;
use vstd::prelude::*;
use vstd::utf8::encode_utf8;
use zip::result::ZipError;
use zip::ZipWriter;

verus! {

/// A zip archive being written into memory. Verus cannot take a declaration
/// of `ZipWriter` (its `Write + Seek` bound), so the writer is held here,
/// out of Verus's sight, and described by `package_files` and `file_open`.
#[verifier::external_body]
pub struct Package {
    writer: ZipWriter<Cursor<Vec<u8>>>,
}

#[verifier::external_type_specification]
#[verifier::external_body]
pub struct ExZipError(ZipError);

#[verifier::external_type_specification]
#[verifier::external_body]
pub struct ExIoError(std::io::Error);

/// Some file in `files` is named `name`.
pub open spec fn holds_name(files: Seq<(Seq<char>, Seq<u8>)>, name: Seq<char>) -> bool {
    exists|i: int| 0 <= i < files.len() && #[trigger] files[i].0 == name
}

/// Two of `parts` share a name.
pub open spec fn has_duplicate_names(parts: Seq<(String, String)>) -> bool {
    exists|i: int, j: int| 0 <= i < j < parts.len() && #[trigger] parts[i].0@ == #[trigger] parts[j].0@
}

/// The files an in-memory zip writer holds so far, in the order they were
/// started: each file's name and the bytes written to it.
pub uninterp spec fn package_files(p: Package) -> Seq<(Seq<char>, Seq<u8>)>;

/// Whether the writer has a file open for writing: one was started and not
/// yet finished.
pub uninterp spec fn file_open(p: Package) -> bool;

/// The most that the bytes of one file may reach and still be finished: the
/// zip source refuses a file whose data or compressed data reaches 4 GiB
/// without the large-file option, and DEFLATE grows incompressible data only
/// by a few bytes per block, so 2 GiB of data stays well below that.
pub open spec fn file_limit() -> nat {
    0x8000_0000
}

/// The last file, which is the one that may still be open, is small enough to
/// finish.
pub open spec fn last_file_fits(files: Seq<(Seq<char>, Seq<u8>)>) -> bool {
    files.len() > 0 ==> files.last().1.len() <= file_limit()
}

/// How an entry's data is stored in the archive.
#[derive(Clone, Copy, PartialEq, Eq, Debug, Structural)]
pub enum Compression {
    Stored,
    Deflated,
}

/// An entry's modification time, in the calendar fields a zip entry records.
#[derive(Clone, Copy, PartialEq, Eq, Debug, Structural)]
pub struct Stamp {
    pub year: u16,
    pub month: u8,
    pub day: u8,
    pub hour: u8,
    pub minute: u8,
    pub second: u8,
}

/// A time `zip::DateTime::from_date_and_time` accepts: a year of the DOS
/// calendar (1980 to 2107), a month, a day that every month has, and a time
/// of day.
pub open spec fn stamp_in_range(t: Stamp) -> bool {
    &&& 1980 <= t.year <= 2107
    &&& 1 <= t.month <= 12
    &&& 1 <= t.day <= 28
    &&& t.hour <= 23
    &&& t.minute <= 59
    &&& t.second <= 60
}

/// `ZipWriter::new` over an empty in-memory `Cursor`. Trusted: the new writer
/// holds no files and has none open.
#[verifier::external_body]
pub(crate) fn zip_new() -> (p: Package)
    ensures
        package_files(p) == Seq::<(Seq<char>, Seq<u8>)>::empty(),
        !file_open(p),
{
    Package { writer: ZipWriter::new(Cursor::new(Vec::new())) }
}

} // verus!
verus! {

/// `ZipWriter::start_file` with `SimpleFileOptions::default()`, the given
/// compression method and the modification time made by
/// `zip::DateTime::from_date_and_time` from `stamp` (a time out of its range
/// is the outside error, turned into a `ZipError` by its `From`). Trusted:
/// - when it succeeds, the writer holds one more file, named `name`, with
///   nothing written to it yet and open for writing, and the files it held
///   before are unchanged (the zip source finishes the open file and appends
///   the new entry);
/// - a name the writer already holds is refused (`insert_file_data`);
/// - it succeeds when the name is new, the time is in range, the name is short
///   enough for the local header (at most 16000 characters, so at most 64000
///   bytes, below the 65505 that `start_entry` allows) and the last file is
///   small enough to finish. On an in-memory cursor nothing else in
///   `start_entry` can fail: finishing the open file, switching the DEFLATE
///   writer and writing the local header only write to the cursor.
/// Nothing else is stated on failure.
#[verifier::external_body]
pub(crate) fn zip_start_file(
    p: &mut Package,
    name: &str,
    method: Compression,
    stamp: Stamp,
) -> (r: Result<(), ZipError>)
    ensures
        r is Ok ==> package_files(*final(p)) == package_files(*old(p)).push((name@, Seq::empty())),
        r is Ok ==> file_open(*final(p)),
        holds_name(package_files(*old(p)), name@) ==> r is Err,
        !holds_name(package_files(*old(p)), name@) && name@.len() <= 16000 && stamp_in_range(stamp)
            && last_file_fits(package_files(*old(p))) ==> r is Ok,
{
    let method = match method {
        Compression::Stored => zip::CompressionMethod::Stored,
        Compression::Deflated => zip::CompressionMethod::Deflated,
    };
    let (y, mo, d) = (stamp.year, stamp.month, stamp.day);
    let time = zip::DateTime::from_date_and_time(y, mo, d, stamp.hour, stamp.minute, stamp.second)?;
    let options = zip::write::SimpleFileOptions::default()
        .compression_method(method)
        .last_modified_time(time);
    p.writer.start_file(name, options)
}

/// `std::io::Write::write_all` on the zip writer, which relies on the writer's
/// own `write` (`ZipWriter` does not override `write_all`). Trusted:
/// - empty `data` is written by doing nothing: the call succeeds and the writer
///   is unchanged;
/// - when it succeeds on non-empty `data`, a file is open and `data` is
///   appended to the bytes of the last file, the others unchanged;
/// - it succeeds when a file is open and the open file's bytes with `data`
///   stay below 4 GiB (`write` refuses a file that reaches
///   `ZIP64_BYTES_THR` without the large-file option and, with a file open,
///   only writes into the DEFLATE writer over the cursor otherwise).
/// Nothing else is stated on failure.
#[verifier::external_body]
pub(crate) fn zip_write_all(p: &mut Package, data: &[u8]) -> (r: Result<(), std::io::Error>)
    ensures
        data@.len() == 0 ==> r is Ok && package_files(*final(p)) == package_files(*old(p))
            && file_open(*final(p)) == file_open(*old(p)),
        r is Ok && data@.len() > 0 ==> {
            let before = package_files(*old(p));
            &&& before.len() > 0
            &&& file_open(*old(p))
            &&& file_open(*final(p))
            &&& package_files(*final(p)) == before.update(
                before.len() - 1,
                (before.last().0, before.last().1 + data@),
            )
        },
        file_open(*old(p)) && package_files(*old(p)).len() > 0 && package_files(*old(p)).last().1.len()
            + data@.len() < 0xFFFF_FFFF ==> r is Ok,
{
    std::io::Write::write_all(&mut p.writer, data)
}

/// The signature a zip archive's first local file header starts with,
/// `PK\x03\x04`.
pub open spec fn zip_signature() -> Seq<u8> {
    seq![0x50u8, 0x4bu8, 0x03u8, 0x04u8]
}

/// `bytes` begin with the local file header signature.
pub open spec fn starts_with_zip_signature(bytes: Seq<u8>) -> bool {
    bytes.len() >= 4 && bytes.take(4) == zip_signature()
}

/// `ZipWriter::finish`, then `Cursor::into_inner`: the archive's bytes.
/// Trusted:
/// - when the writer holds a file, the bytes begin with the local file header
///   signature (the writer started on an empty cursor, so the first entry's
///   local header, which `write_local_header` opens with that magic, sits at
///   offset 0; later writes only patch its size fields and append);
/// - it succeeds when the last file is small enough to finish: `finalize`
///   finishes the open file, then writes the central directory and the end
///   records (ZIP64 ones where the counts or offsets need them) into the
///   cursor, which cannot refuse a write.
/// Nothing more is stated of the bytes: the zip source records the host
/// system (Unix or DOS) in each entry, so they are not a function of the files
/// alone.
#[verifier::external_body]
pub(crate) fn zip_finish(p: Package) -> (r: Result<Vec<u8>, ZipError>)
    ensures
        r matches Ok(bytes) ==> (package_files(p).len() > 0 ==> starts_with_zip_signature(bytes@)),
        last_file_fits(package_files(p)) ==> r is Ok,
{
    match p.writer.finish() {
        Ok(cursor) => Ok(cursor.into_inner()),
        Err(e) => Err(e),
    }
}

/// Why a package could not be written.
pub enum PackageError {
    /// The zip writer refused an entry or could not finish the archive.
    Zip(ZipError),
    /// Writing a part's bytes failed.
    Io(std::io::Error),
}

/// What the library makes of a zip writer's result: its value on success,
/// the zip error as a [`PackageError::Zip`] otherwise.
pub fn zip_outcome<T>(r: Result<T, ZipError>) -> (o: Result<T, PackageError>)
    ensures
        match r {
            Ok(v) => o == Ok::<T, PackageError>(v),
            Err(e) => o == Err::<T, PackageError>(PackageError::Zip(e)),
        },
{
    match r {
        Ok(v) => Ok(v),
        Err(e) => Err(PackageError::Zip(e)),
    }
}

/// What the library makes of a write's result: its value on success, the I/O
/// error as a [`PackageError::Io`] otherwise.
pub fn io_outcome<T>(r: Result<T, std::io::Error>) -> (o: Result<T, PackageError>)
    ensures
        match r {
            Ok(v) => o == Ok::<T, PackageError>(v),
            Err(e) => o == Err::<T, PackageError>(PackageError::Io(e)),
        },
{
    match r {
        Ok(v) => Ok(v),
        Err(e) => Err(PackageError::Io(e)),
    }
}

/// The parts as the archive holds them: each name with its text as UTF-8.
pub open spec fn part_files(parts: Seq<(String, String)>) -> Seq<(Seq<char>, Seq<u8>)> {
    parts.map_values(|p: (String, String)| (p.0@, encode_utf8(p.1@)))
}

/// The entries' modification time: the start of the DOS calendar,
/// 1980-01-01 00:00:00, the same for every archive, so the archive does not
/// carry the time it was made.
pub fn fixed_stamp() -> (t: Stamp)
    ensures
        t == (Stamp { year: 1980, month: 1, day: 1, hour: 0, minute: 0, second: 0 }),
{
    Stamp { year: 1980, month: 1, day: 1, hour: 0, minute: 0, second: 0 }
}

/// Every part has a name of at most 16000 characters, and text of at most
/// `file_limit()` bytes as UTF-8.
pub open spec fn parts_fit(parts: Seq<(String, String)>) -> bool {
    forall|i: int|
        #![trigger parts[i]]
        0 <= i < parts.len() ==> parts[i].0@.len() <= 16000 && encode_utf8(parts[i].1@).len() <= file_limit()
}

/// A package holding `parts`, in order, each written whole, DEFLATE-compressed
/// and stamped with [`fixed_stamp`]. It is made whenever the parts have
/// distinct names and fit; a repeated name is refused; any other refusal of
/// the writer is returned (see [`zip_outcome`] and [`io_outcome`]).
pub fn fill_package(parts: &Vec<(String, String)>) -> (r: Result<Package, PackageError>)
    ensures
        r matches Ok(p) ==> package_files(p) == part_files(parts@),
        parts_fit(parts@) && !has_duplicate_names(parts@) ==> r is Ok,
        has_duplicate_names(parts@) ==> r is Err,
{
    let mut package = zip_new();
    let stamp = fixed_stamp();
    let n = parts.len();
    let mut i: usize = 0;
    while i < n
        invariant
            n == parts.len(),
            i <= n,
            stamp_in_range(stamp),
            package_files(package) == part_files(parts@).take(i as int),
            i > 0 ==> file_open(package),
            forall|a: int, b: int| 0 <= a < b < i ==> #[trigger] parts@[a].0@ != #[trigger] parts@[b].0@,
        decreases n - i,
    {
        let (name, contents) = &parts[i];
        let ghost held = package_files(package);
        proof {
            if parts_fit(parts@) && !has_duplicate_names(parts@) {
                assert(parts@[i as int].0@.len() <= 16000);
                assert forall|a: int| 0 <= a < held.len() implies #[trigger] held[a].0 != name@ by {
                    assert(held[a].0 == parts@[a].0@);
                    assert(parts@[a].0@ != parts@[i as int].0@);
                }
                if i > 0 {
                    assert(held.last() == part_files(parts@)[i - 1]);
                    assert(encode_utf8(parts@[i - 1].1@).len() <= file_limit());
                }
            }
        }
        match zip_outcome(zip_start_file(&mut package, name.as_str(), Compression::Deflated, stamp)) {
            Ok(()) => {},
            Err(e) => {
                return Err(e);
            },
        }
        assert forall|a: int| 0 <= a < i implies #[trigger] parts@[a].0@ != name@ by {
            if parts@[a].0@ == name@ {
                assert(held[a].0 == parts@[a].0@);
                assert(holds_name(held, name@));
            }
        }
        let bytes = contents.as_str().as_bytes();
        proof {
            if parts_fit(parts@) {
                assert(encode_utf8(parts@[i as int].1@).len() <= file_limit());
            }
        }
        match io_outcome(zip_write_all(&mut package, bytes)) {
            Ok(()) => {},
            Err(e) => {
                return Err(e);
            },
        }
        assert(part_files(parts@).take(i + 1) =~= package_files(package));
        i += 1;
    }
    assert(part_files(parts@).take(n as int) =~= part_files(parts@));
    assert(!has_duplicate_names(parts@));
    Ok(package)
}

/// The bytes of a zip archive holding `parts`, made from exactly `parts` (see
/// [`fill_package`]); beyond the leading signature the bytes depend on the
/// host. It is written whenever the parts have distinct names and fit, and
/// refused when two share a name.
pub fn write_package(parts: &Vec<(String, String)>) -> (r: Result<Vec<u8>, PackageError>)
    ensures
        r matches Ok(bytes) ==> (parts@.len() > 0 ==> starts_with_zip_signature(bytes@)),
        parts_fit(parts@) && !has_duplicate_names(parts@) ==> r is Ok,
        has_duplicate_names(parts@) ==> r is Err,
{
    let package = match fill_package(parts) {
        Ok(p) => p,
        Err(e) => {
            return Err(e);
        },
    };
    proof {
        if parts_fit(parts@) && parts@.len() > 0 {
            let k = parts@.len() - 1;
            assert(part_files(parts@).last() == part_files(parts@)[k]);
            assert(encode_utf8(parts@[k].1@).len() <= file_limit());
        }
    }
    zip_outcome(zip_finish(package))
}

} // verus!
