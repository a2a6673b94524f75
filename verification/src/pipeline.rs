//! Request-level orchestration: routing an upload to the entries to
//! convert, and the strict scan across registered files.

use vstd::prelude::*;

use crate::archive::{
    archive_readable, entries_view, filter_workbook_entries, parsed_archive, unpack_entries,
    workbook_entries, ArchiveEntry,
};
use crate::classify::{classify, extension_of_spec, is_workbook_ext, is_zip_ext, Route};
use crate::search::{hits_view, search_sheets, sheets_hits, sheets_view, SearchHit};
use crate::sheetio::{load_all_sheets, loaded_sheets};

verus! {

/// What an upload becomes once routed.
#[derive(Debug)]
pub enum UploadPlan {
    /// The workbook entries to convert, one output workbook each.
    Convert(Vec<ArchiveEntry>),
    /// The upload is rejected; carries the message to report.
    Reject(String),
}

/// Routes an upload and expands it into the workbook entries to convert:
/// a single workbook becomes one entry under its declared name; an
/// archive is unpacked, and only entries named like workbooks are kept —
/// every other entry is skipped, not an error.  An unsupported name is
/// rejected with the observed extension echoed; a corrupt archive is a
/// hard error.
pub fn plan_upload(name: &str, bytes: Vec<u8>) -> (r: Result<UploadPlan, String>)
    ensures
        is_workbook_ext(name@) ==> (r matches Ok(p) && p matches UploadPlan::Convert(es)
            && entries_view(es@) == seq![(name@, bytes@)]),
        is_zip_ext(name@) ==> (r matches Ok(p) ==> (p matches UploadPlan::Convert(es)
            && parsed_archive(bytes@) matches Some(all) && entries_view(es@) == workbook_entries(
            all,
        ))),
        (!is_zip_ext(name@) && !is_workbook_ext(name@)) ==> (r matches Ok(p) && p matches
            UploadPlan::Reject(m) && m@ == "Unsupported file type: "@ + extension_of_spec(name@)),
        (is_zip_ext(name@) && parsed_archive(bytes@) is None) ==> r is Err,
        (is_zip_ext(name@) && parsed_archive(bytes@) is Some && archive_readable(bytes@)) ==> r
            is Ok,
        r is Err ==> is_zip_ext(name@),
{
    proof {
        reveal_strlit("zip");
        reveal_strlit("xlsx");
        reveal_strlit("xls");
        assert("zip"@.len() == 3 && "xlsx"@.len() == 4);
        assert("zip"@[0] == 'z' && "xls"@[0] == 'x');
    }
    match classify(name) {
        Route::SingleWorkbook => {
            let mut es: Vec<ArchiveEntry> = Vec::new();
            es.push(ArchiveEntry { name: name.to_owned(), data: bytes });
            proof {
                assert(entries_view(es@) =~= seq![(name@, bytes@)]);
            }
            Ok(UploadPlan::Convert(es))
        },
        Route::ArchiveUpload => match unpack_entries(bytes) {
            Ok(all) => Ok(UploadPlan::Convert(filter_workbook_entries(all))),
            Err(e) => Err(e),
        },
        Route::Unsupported(ext) => {
            let mut m = "Unsupported file type: ".to_owned();
            m.append(ext.as_str());
            Ok(UploadPlan::Reject(m))
        },
    }
}

/// What a strict scan over (name, bytes) files yields: per file, in
/// order, the hits of all its loaded sheets — or nothing when any file's
/// bytes fail to load as a workbook.
pub open spec fn scan_files(files: Seq<(Seq<char>, Seq<u8>)>, q: Seq<char>) -> Option<
    Seq<(Seq<char>, nat, nat, Seq<char>, Seq<char>)>,
>
    decreases files.len(),
{
    if files.len() == 0 {
        Option::Some(Seq::empty())
    } else {
        match loaded_sheets(files[0].1) {
            Option::None => Option::None,
            Option::Some(sheets) => match scan_files(files.drop_first(), q) {
                Option::None => Option::None,
                Option::Some(t) => Option::Some(sheets_hits(files[0].0, sheets, q) + t),
            },
        }
    }
}

/// Scans the given files for the query, in the order given (the
/// registry's listing order): exactly the concatenation, file by file,
/// of every sheet's hits.  Strict: any unreadable file fails the whole
/// search with its message — no partial result is returned.
pub fn search_files(files: &Vec<ArchiveEntry>, query: &str) -> (r: Result<Vec<SearchHit>, String>)
    ensures
        match r {
            Ok(hits) => scan_files(entries_view(files@), query@) == Some(hits_view(hits@)),
            Err(_) => scan_files(entries_view(files@), query@) is None,
        },
{
    let ghost fv = entries_view(files@);
    let mut out: Vec<SearchHit> = Vec::new();
    proof {
        assert(fv.subrange(0, fv.len() as int) =~= fv);
    }
    let mut i: usize = 0;
    while i < files.len()
        invariant
            i <= files@.len(),
            fv == entries_view(files@),
            scan_files(fv, query@) == (match scan_files(
                fv.subrange(i as int, fv.len() as int),
                query@,
            ) {
                Option::None => Option::None,
                Option::Some(t) => Option::Some(hits_view(out@) + t),
            }),
        decreases files@.len() - i,
    {
        let ghost rest = fv.subrange(i as int, fv.len() as int);
        proof {
            assert(rest.len() > 0);
            assert(rest[0] == (files@[i as int].name@, files@[i as int].data@));
            assert(rest.drop_first() =~= fv.subrange(i as int + 1, fv.len() as int));
        }
        let f = &files[i];
        let sheets = match load_all_sheets(&f.data) {
            Ok(s) => s,
            Err(m) => {
                proof {
                    assert(scan_files(rest, query@) is None);
                }
                return Err(m);
            },
        };
        let mut hits = search_sheets(&f.name, &sheets, query);
        let ghost part = hits_view(hits@);
        let ghost out_before = out@;
        out.append(&mut hits);
        proof {
            assert(loaded_sheets(rest[0].1) == Some(sheets_view(sheets@)));
            assert(part == sheets_hits(rest[0].0, sheets_view(sheets@), query@));
            assert(hits_view(out@) =~= hits_view(out_before) + part);
            match scan_files(rest.drop_first(), query@) {
                Option::None => {
                    assert(scan_files(rest, query@) is None);
                },
                Option::Some(t) => {
                    assert(scan_files(rest, query@) == Some(part + t));
                    assert(hits_view(out_before) + (part + t) =~= (hits_view(out_before) + part)
                        + t);
                },
            }
        }
        i += 1;
    }
    proof {
        assert(fv.subrange(fv.len() as int, fv.len() as int) =~= Seq::<
            (Seq<char>, Seq<u8>),
        >::empty());
        assert(hits_view(out@) + Seq::<(Seq<char>, nat, nat, Seq<char>, Seq<char>)>::empty()
            =~= hits_view(out@));
    }
    Ok(out)
}

} // verus!
