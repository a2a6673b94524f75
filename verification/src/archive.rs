//! In-memory archive packing and unpacking, through the zip crate.
//!
//! Packing stores each entry under the base name of its path, in the
//! order given; any entry failure aborts the whole pack, so a partial
//! archive is never handed out.  Unpacking recovers every entry's stored
//! name and content in index order; a corrupt archive is a hard error.

use vstd::prelude::*;

use crate::classify::{base_name, base_name_of, is_supported_name, supported_entry_name};
use std::io::Read;
use std::io::Write;

verus! {

/// One archive entry: a stored name and its byte content.
#[derive(Debug)]
pub struct ArchiveEntry {
    pub name: String,
    pub data: Vec<u8>,
}

/// An entry list as (name, content) pairs.
pub open spec fn entries_view(s: Seq<ArchiveEntry>) -> Seq<(Seq<char>, Seq<u8>)> {
    s.map_values(|e: ArchiveEntry| (e.name@, e.data@))
}

/// The entries kept for conversion: those named like workbooks.
pub open spec fn workbook_entries(s: Seq<(Seq<char>, Seq<u8>)>) -> Seq<(Seq<char>, Seq<u8>)> {
    s.filter(|p: (Seq<char>, Seq<u8>)| is_supported_name(p.0))
}

/// The entry list as it is stored when packed: each name reduced to its
/// base name, contents unchanged.
pub open spec fn packaged(s: Seq<(Seq<char>, Seq<u8>)>) -> Seq<(Seq<char>, Seq<u8>)> {
    s.map_values(|p: (Seq<char>, Seq<u8>)| (base_name_of(p.0), p.1))
}

#[verifier::external_type_specification]
#[verifier::external_body]
#[verifier::reject_recursive_types(T)]
pub struct ExCursor<T>(std::io::Cursor<T>);

/// Holds the zip crate's in-memory archive writer.  `ZipWriter`'s own
/// type parameter carries trait bounds that cannot be declared to the
/// verifier, so the writer lives in this opaque struct instead; its
/// contents are tracked through `writer_entries`.
#[verifier::external_body]
pub struct PackWriter {
    inner: zip::ZipWriter<std::io::Cursor<Vec<u8>>>,
}

#[verifier::external_type_specification]
#[verifier::external_body]
#[verifier::reject_recursive_types(R)]
pub struct ExZipArchive<R>(zip::ZipArchive<R>);

/// Whether some entry in `s` is stored under the name `n`.
pub open spec fn has_entry_named(s: Seq<(Seq<char>, Seq<u8>)>, n: Seq<char>) -> bool {
    exists|i: int| 0 <= i < s.len() && (#[trigger] s[i]).0 == n
}

/// Whether the entries of `s` are stored under pairwise distinct names.
pub open spec fn distinct_entry_names(s: Seq<(Seq<char>, Seq<u8>)>) -> bool {
    forall|i: int, j: int| 0 <= i < j < s.len() ==> (#[trigger] s[i]).0 != (#[trigger] s[j]).0
}

/// An entry list the archive writer accepts: stored names pairwise
/// distinct, each short enough for the format's name-length field (which
/// holds at most 65535 bytes; 16383 characters keeps any UTF-8 encoding
/// within it).
pub open spec fn packable_entries(s: Seq<(Seq<char>, Seq<u8>)>) -> bool {
    distinct_entry_names(s) && forall|i: int|
        0 <= i < s.len() ==> (#[trigger] s[i]).0.len() <= 16383
}

/// What a writer holds so far: (stored name, content) pairs, one per
/// entry started, in that order.
pub uninterp spec fn writer_entries(w: PackWriter) -> Seq<(Seq<char>, Seq<u8>)>;

/// Whether the writer has an entry open for writing (one was started and
/// the writer has not been closed since).
pub uninterp spec fn writer_open(w: PackWriter) -> bool;

/// What an opened archive holds: (stored name, content) pairs in index
/// order.
pub uninterp spec fn archive_entries(a: zip::ZipArchive<std::io::Cursor<Vec<u8>>>) -> Seq<
    (Seq<char>, Seq<u8>),
>;

/// The entries an archive byte stream parses to, or nothing when the
/// stream is not a readable archive.  Parsing bytes is a function of the
/// bytes alone.
pub uninterp spec fn parsed_archive(bytes: Seq<u8>) -> Option<Seq<(Seq<char>, Seq<u8>)>>;

/// Whether entry `i` of an opened archive decodes when read — a function
/// of the archive, hence of the bytes it was opened from.
pub uninterp spec fn entry_decodes(a: zip::ZipArchive<std::io::Cursor<Vec<u8>>>, i: int) -> bool;

/// Whether every entry of the parsed archive byte stream decodes when
/// read.  A function of the bytes alone.
pub uninterp spec fn archive_readable(bytes: Seq<u8>) -> bool;

/// Relies on zip's `ZipWriter::new`: a fresh writer over an empty
/// in-memory buffer holds no entries.
#[verifier::external_body]
fn writer_new() -> (w: PackWriter)
    ensures
        writer_entries(w) == Seq::<(Seq<char>, Seq<u8>)>::empty(),
{
    PackWriter { inner: zip::ZipWriter::new(std::io::Cursor::new(Vec::new())) }
}

/// Relies on zip's `ZipWriter::start_file`: on success a new empty entry
/// with the given name is appended and opened for writing, in large-file
/// mode so that writes of any length are accepted later.  The format's
/// name-length field holds at most 65535 bytes; the required bound keeps
/// any UTF-8 encoding of the name within it.  Under that bound, over an
/// in-memory buffer, the underlying writes cannot fail and a duplicate
/// stored name — checked before anything changes — is the one remaining
/// error source, so success comes exactly when the name is new.
#[verifier::external_body]
fn writer_start_file(w: &mut PackWriter, name: &String) -> (r: Result<(), String>)
    requires
        name@.len() <= 16383,
    ensures
        r is Ok ==> writer_entries(*final(w)) == writer_entries(*old(w)).push(
            (name@, Seq::<u8>::empty()),
        ) && writer_open(*final(w)),
        r is Ok <==> !has_entry_named(writer_entries(*old(w)), name@),
{
    w.inner.start_file(
        name.as_str(),
        zip::write::SimpleFileOptions::default().large_file(true),
    ).map_err(|e| format!("{}", e))
}

/// Relies on `Write::write_all` for `ZipWriter`: with an entry open the
/// bytes are appended to the entry started last.  Every entry is started
/// in large-file mode, so the size threshold that would otherwise refuse
/// further bytes does not apply, and over the in-memory buffer the write
/// cannot fail.
#[verifier::external_body]
fn writer_write_all(w: &mut PackWriter, data: &Vec<u8>) -> (r: Result<(), String>)
    requires
        writer_open(*old(w)),
        writer_entries(*old(w)).len() > 0,
    ensures
        r is Ok,
        writer_entries(*final(w)) == writer_entries(*old(w)).update(
            writer_entries(*old(w)).len() - 1,
            (writer_entries(*old(w)).last().0, writer_entries(*old(w)).last().1 + data@),
        ),
        writer_open(*final(w)),
{
    w.inner.write_all(data.as_slice()).map_err(|e| format!("{}", e))
}

/// Relies on zip's `ZipWriter::finish`: writes the archive's closing
/// structures into the in-memory buffer — where that write cannot fail —
/// and hands the buffer back.  The bytes are a zip archive that parses
/// back to exactly the entries written, each readable: entries are
/// recoverable byte-for-byte, the point of the format and of the crate's
/// write-then-read pairing.
#[verifier::external_body]
fn writer_finish(w: PackWriter) -> (r: Result<Vec<u8>, String>)
    ensures
        r is Ok,
        r matches Ok(b) ==> parsed_archive(b@) == Some(writer_entries(w)) && archive_readable(b@),
{
    w.inner.finish().map(|c| c.into_inner()).map_err(|e| format!("{}", e))
}

/// Relies on zip's `ZipArchive::new`: parses the archive structure;
/// success, the entry list and what decodes are all functions of the
/// bytes.
#[verifier::external_body]
fn archive_open(bytes: Vec<u8>) -> (r: Result<zip::ZipArchive<std::io::Cursor<Vec<u8>>>, String>)
    ensures
        match r {
            Ok(a) => parsed_archive(bytes@) == Some(archive_entries(a)) && (archive_readable(
                bytes@,
            ) <==> (forall|i: int|
                0 <= i < archive_entries(a).len() ==> #[trigger] entry_decodes(a, i))),
            Err(_) => parsed_archive(bytes@) is None,
        },
{
    zip::ZipArchive::new(std::io::Cursor::new(bytes)).map_err(|e| format!("{}", e))
}

/// Relies on zip's `ZipArchive::len`: the number of entries.
#[verifier::external_body]
fn archive_len(a: &zip::ZipArchive<std::io::Cursor<Vec<u8>>>) -> (n: usize)
    ensures
        n == archive_entries(*a).len(),
{
    a.len()
}

/// Relies on zip's `ZipArchive::by_index` and `Read::read_to_end`: they
/// recover entry `i`'s stored name and full content, succeeding exactly
/// when the entry decodes; reading changes neither the entry list nor
/// what decodes.
#[verifier::external_body]
fn archive_read_entry(a: &mut zip::ZipArchive<std::io::Cursor<Vec<u8>>>, i: usize) -> (r: Result<
    (String, Vec<u8>),
    String,
>)
    requires
        i < archive_entries(*old(a)).len(),
    ensures
        archive_entries(*final(a)) == archive_entries(*old(a)),
        forall|j: int| #[trigger] entry_decodes(*final(a), j) == entry_decodes(*old(a), j),
        r is Ok <==> entry_decodes(*old(a), i as int),
        r matches Ok(p) ==> (p.0@, p.1@) == archive_entries(*old(a))[i as int],
{
    match a.by_index(i) {
        Ok(mut f) => {
            let name = f.name().to_owned();
            let mut buf = Vec::new();
            match f.read_to_end(&mut buf) {
                Ok(_) => Ok((name, buf)),
                Err(e) => Err(format!("{}", e)),
            }
        },
        Err(e) => Err(format!("{}", e)),
    }
}

/// Packs the entries into one in-memory archive, each stored under the
/// base name of its path, in the order given: on success the produced
/// bytes parse back to exactly those named entries, each readable.  The
/// failures are a repeated stored base name and one too long for the
/// format's name field; either aborts the whole pack, so a partial
/// archive is never handed out.
pub fn pack_entries(entries: &Vec<ArchiveEntry>) -> (r: Result<Vec<u8>, String>)
    ensures
        r matches Ok(b) ==> parsed_archive(b@) == Some(packaged(entries_view(entries@)))
            && archive_readable(b@),
        packable_entries(packaged(entries_view(entries@))) ==> r is Ok,
        r is Err ==> !packable_entries(packaged(entries_view(entries@))),
{
    let mut w = writer_new();
    let ghost ev = entries_view(entries@);
    proof {
        assert(packaged(ev.take(0)) =~= Seq::<(Seq<char>, Seq<u8>)>::empty());
    }
    let mut i: usize = 0;
    while i < entries.len()
        invariant
            i <= entries@.len(),
            ev == entries_view(entries@),
            writer_entries(w) == packaged(ev.take(i as int)),
        decreases entries@.len() - i,
    {
        let stored = base_name(entries[i].name.as_str());
        proof {
            assert(ev[i as int] == (entries@[i as int].name@, entries@[i as int].data@));
            assert(packaged(ev)[i as int] == (base_name_of(ev[i as int].0), ev[i as int].1));
            assert(stored@ == packaged(ev)[i as int].0);
        }
        if stored.as_str().unicode_len() > 16383 {
            proof {
                assert(packaged(ev)[i as int].0.len() > 16383);
                assert(!packable_entries(packaged(ev)));
            }
            return Err("entry name too long for the archive format".to_owned());
        }
        match writer_start_file(&mut w, &stored) {
            Ok(()) => {},
            Err(e) => {
                proof {
                    let pv = packaged(ev);
                    assert(packaged(ev.take(i as int)) =~= pv.take(i as int));
                    assert(has_entry_named(pv.take(i as int), pv[i as int].0));
                    let j = choose|j: int|
                        0 <= j < pv.take(i as int).len() && (#[trigger] pv.take(i as int)[j]).0
                            == pv[i as int].0;
                    assert(pv[j].0 == pv[i as int].0);
                    assert(!distinct_entry_names(pv));
                    assert(!packable_entries(pv));
                }
                return Err(e);
            },
        }
        match writer_write_all(&mut w, &entries[i].data) {
            Ok(()) => {},
            Err(e) => {
                return Err(e);
            },
        }
        proof {
            assert(Seq::<u8>::empty() + entries@[i as int].data@ =~= entries@[i as int].data@);
            assert(writer_entries(w) =~= packaged(ev.take(i as int + 1)));
        }
        i += 1;
    }
    proof {
        assert(ev.take(ev.len() as int) =~= ev);
    }
    writer_finish(w)
}

/// Unpacks archive bytes into their entries, stored names and contents
/// recovered in index order.  Bytes that do not parse as an archive are
/// an error, as is any entry that does not decode; exactly when the
/// bytes parse and every entry decodes, all entries are returned.
pub fn unpack_entries(bytes: Vec<u8>) -> (r: Result<Vec<ArchiveEntry>, String>)
    ensures
        r matches Ok(v) ==> parsed_archive(bytes@) == Some(entries_view(v@)),
        parsed_archive(bytes@) is None ==> r is Err,
        (parsed_archive(bytes@) is Some && archive_readable(bytes@)) ==> r is Ok,
{
    let ghost bv = bytes@;
    match archive_open(bytes) {
        Err(e) => Err(e),
        Ok(mut a) => {
            let ghost ents = archive_entries(a);
            let n = archive_len(&a);
            let mut out: Vec<ArchiveEntry> = Vec::new();
            proof {
                assert(entries_view(out@) =~= ents.take(0));
            }
            let mut i: usize = 0;
            while i < n
                invariant
                    bv == bytes@,
                    i <= n,
                    n == ents.len(),
                    archive_entries(a) == ents,
                    parsed_archive(bv) == Some(ents),
                    archive_readable(bv) <==> (forall|k: int|
                        0 <= k < ents.len() ==> #[trigger] entry_decodes(a, k)),
                    entries_view(out@) == ents.take(i as int),
                decreases n - i,
            {
                let ghost a_pre = a;
                match archive_read_entry(&mut a, i) {
                    Err(e) => {
                        proof {
                            assert(!entry_decodes(a_pre, i as int));
                            assert(!archive_readable(bv));
                        }
                        return Err(e);
                    },
                    Ok(p) => {
                        proof {
                            assert((p.0@, p.1@) == ents[i as int]);
                        }
                        let ghost out_before = out@;
                        let (name, data) = p;
                        let ghost nv = name@;
                        let ghost dv = data@;
                        out.push(ArchiveEntry { name, data });
                        proof {
                            assert((nv, dv) == ents[i as int]);
                            assert(entries_view(out@) =~= entries_view(out_before).push((nv, dv)));
                            assert(entries_view(out@) =~= ents.take(i as int + 1));
                        }
                    },
                }
                proof {
                    assert(archive_readable(bv) <==> (forall|k: int|
                        0 <= k < ents.len() ==> #[trigger] entry_decodes(a, k))) by {
                        if archive_readable(bv) {
                            assert forall|k: int|
                                0 <= k < ents.len() implies #[trigger] entry_decodes(a, k) by {
                                assert(entry_decodes(a_pre, k));
                            }
                        } else {
                            let k = choose|k: int|
                                0 <= k < ents.len() && !(#[trigger] entry_decodes(a_pre, k));
                            assert(entry_decodes(a, k) == entry_decodes(a_pre, k));
                        }
                    }
                }
                i += 1;
            }
            proof {
                assert(ents.take(n as int) =~= ents);
            }
            Ok(out)
        },
    }
}

/// Keeps exactly the entries named like workbooks (`.xlsx` or `.xls`),
/// in their original order; every other entry is skipped.
pub fn filter_workbook_entries(entries: Vec<ArchiveEntry>) -> (out: Vec<ArchiveEntry>)
    ensures
        entries_view(out@) == workbook_entries(entries_view(entries@)),
{
    let ghost all = entries@;
    let mut rem = entries;
    let total = rem.len();
    let mut out: Vec<ArchiveEntry> = Vec::new();
    proof {
        assert(entries_view(out@) =~= workbook_entries(entries_view(all.take(0))));
        assert(all.subrange(0, all.len() as int) =~= all);
    }
    let mut i: usize = 0;
    while rem.len() > 0
        invariant
            all.len() == total,
            i + rem@.len() == all.len(),
            rem@ == all.subrange(i as int, all.len() as int),
            entries_view(out@) == workbook_entries(entries_view(all.take(i as int))),
        decreases rem@.len(),
    {
        let e = rem.remove(0);
        proof {
            assert(rem@ =~= all.subrange(i as int + 1, all.len() as int));
            assert(e == all[i as int]);
        }
        let keep = supported_entry_name(e.name.as_str());
        let ghost out_before = out@;
        if keep {
            out.push(e);
        }
        proof {
            reveal_with_fuel(Seq::<_>::filter, 2);
            let evp = entries_view(all.take(i as int));
            let evl = entries_view(all.take(i as int + 1));
            assert(evl.drop_last() =~= evp);
            assert(evl.last() == (all[i as int].name@, all[i as int].data@));
            assert(workbook_entries(evl) == if is_supported_name(evl.last().0) {
                workbook_entries(evl.drop_last()).push(evl.last())
            } else {
                workbook_entries(evl.drop_last())
            });
            if keep {
                assert(entries_view(out@) =~= entries_view(out_before).push(
                    (all[i as int].name@, all[i as int].data@),
                ));
            }
            assert(entries_view(out@) =~= workbook_entries(evl));
        }
        i += 1;
    }
    proof {
        assert(all.take(all.len() as int) =~= all);
    }
    out
}

} // verus!
