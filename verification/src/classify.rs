//! Ingestion classification: an uploaded payload is routed by its declared
//! file name's extension alone — `zip` to the archive path, `xlsx` or
//! `xls` to the single-workbook path, and anything else is rejected with
//! the observed extension.  The payload's bytes are never inspected here;
//! a misleading extension surfaces later as an unreadable workbook.

use vstd::prelude::*;

verus! {

/// The index just after the last occurrence of `ch` in `s` (zero when `ch`
/// does not occur).
pub open spec fn start_after_last(s: Seq<char>, ch: char) -> int
    decreases s.len(),
{
    if s.len() == 0 {
        0
    } else if s.last() == ch {
        s.len() as int
    } else {
        start_after_last(s.drop_last(), ch)
    }
}

/// The final path component of a name: everything after the last `/`.
pub open spec fn base_name_of(s: Seq<char>) -> Seq<char> {
    s.subrange(start_after_last(s, '/'), s.len() as int)
}

/// The declared extension of a name: the part of its final path component
/// after the last `.`, empty when the component holds no `.` or only a
/// leading one.
pub open spec fn extension_of_spec(s: Seq<char>) -> Seq<char> {
    let b = base_name_of(s);
    let d = start_after_last(b, '.');
    if d >= 2 {
        b.subrange(d, b.len() as int)
    } else {
        seq![]
    }
}

/// `s` ends with the suffix `t`.
pub open spec fn ends_with(s: Seq<char>, t: Seq<char>) -> bool {
    s.len() >= t.len() && s.subrange(s.len() - t.len(), s.len() as int) == t
}

/// An archive entry name the pipeline keeps: one ending in `.xlsx` or
/// `.xls`.
pub open spec fn is_supported_name(s: Seq<char>) -> bool {
    ends_with(s, ".xlsx"@) || ends_with(s, ".xls"@)
}

/// A name routed to the archive path.
pub open spec fn is_zip_ext(s: Seq<char>) -> bool {
    extension_of_spec(s) == "zip"@
}

/// A name routed to the single-workbook path.
pub open spec fn is_workbook_ext(s: Seq<char>) -> bool {
    extension_of_spec(s) == "xlsx"@ || extension_of_spec(s) == "xls"@
}

/// Where an uploaded payload is sent, decided by its declared name.
#[derive(Debug)]
pub enum Route {
    /// An archive of workbooks: unpack it and convert each kept entry.
    ArchiveUpload,
    /// One workbook.
    SingleWorkbook,
    /// Anything else; carries the observed extension.
    Unsupported(String),
}

proof fn lemma_start_after_last_bounds(s: Seq<char>, ch: char)
    ensures
        0 <= start_after_last(s, ch) <= s.len(),
    decreases s.len(),
{
    if s.len() > 0 && s.last() != ch {
        lemma_start_after_last_bounds(s.drop_last(), ch);
    }
}

proof fn lemma_start_after_last_prefix(s: Seq<char>, ch: char, k: int)
    requires
        0 <= k < s.len(),
    ensures
        start_after_last(s.take(k + 1), ch) == if s[k] == ch {
            k + 1
        } else {
            start_after_last(s.take(k), ch)
        },
{
    let longer = s.take(k + 1);
    assert(longer.last() == s[k]);
    assert(longer.drop_last() =~= s.take(k));
}

/// Scans for the index just after the last occurrence of `ch`.
fn scan_after_last(s: &str, ch: char) -> (r: usize)
    ensures
        r == start_after_last(s@, ch),
{
    let n = s.unicode_len();
    let mut start: usize = 0;
    let mut k: usize = 0;
    proof {
        assert(s@.take(0) =~= Seq::<char>::empty());
    }
    while k < n
        invariant
            n == s@.len(),
            k <= n,
            start == start_after_last(s@.take(k as int), ch),
        decreases n - k,
    {
        if s.get_char(k) == ch {
            start = k + 1;
        }
        proof {
            lemma_start_after_last_prefix(s@, ch, k as int);
        }
        k += 1;
    }
    proof {
        assert(s@.take(n as int) =~= s@);
    }
    start
}

/// The declared extension of a file name, per `extension_of_spec`.
pub fn extension_of(name: &str) -> (r: String)
    ensures
        r@ == extension_of_spec(name@),
{
    let n = name.unicode_len();
    let start = scan_after_last(name, '/');
    proof {
        lemma_start_after_last_bounds(name@, '/');
    }
    let base = name.substring_char(start, n);
    let bn = base.unicode_len();
    let d = scan_after_last(base, '.');
    proof {
        lemma_start_after_last_bounds(base@, '.');
    }
    if d >= 2 {
        base.substring_char(d, bn).to_owned()
    } else {
        proof {
            assert(extension_of_spec(name@) =~= Seq::<char>::empty());
        }
        String::new()
    }
}

/// The final path component of a name, per `base_name_of` (directory
/// components stripped).
pub fn base_name(name: &str) -> (r: String)
    ensures
        r@ == base_name_of(name@),
{
    let n = name.unicode_len();
    let start = scan_after_last(name, '/');
    proof {
        lemma_start_after_last_bounds(name@, '/');
    }
    name.substring_char(start, n).to_owned()
}

/// Whether `s` ends with `t`.
pub fn str_ends_with(s: &str, t: &str) -> (b: bool)
    ensures
        b == ends_with(s@, t@),
{
    let sn = s.unicode_len();
    let tn = t.unicode_len();
    if sn < tn {
        return false;
    }
    let off = sn - tn;
    let mut j: usize = 0;
    while j < tn
        invariant
            sn == s@.len(),
            tn == t@.len(),
            tn <= sn,
            off == sn - tn,
            j <= tn,
            forall|jj: int| 0 <= jj < j ==> s@[off + jj] == t@[jj],
        decreases tn - j,
    {
        if s.get_char(off + j) != t.get_char(j) {
            proof {
                assert(s@.subrange(off as int, sn as int)[j as int] != t@[j as int]);
            }
            return false;
        }
        j += 1;
    }
    proof {
        assert(s@.subrange(off as int, sn as int) =~= t@);
    }
    true
}

/// Whether an archive entry name is kept for conversion.
pub fn supported_entry_name(name: &str) -> (b: bool)
    ensures
        b == is_supported_name(name@),
{
    str_ends_with(name, ".xlsx") || str_ends_with(name, ".xls")
}

/// Routes an uploaded payload by its declared file name; the extension is
/// echoed back when the name is unsupported.
pub fn classify(name: &str) -> (r: Route)
    ensures
        match r {
            Route::ArchiveUpload => is_zip_ext(name@),
            Route::SingleWorkbook => is_workbook_ext(name@),
            Route::Unsupported(e) => e@ == extension_of_spec(name@) && !is_zip_ext(name@)
                && !is_workbook_ext(name@),
        },
{
    let ext = extension_of(name);
    let zip_lit = "zip".to_owned();
    let xlsx_lit = "xlsx".to_owned();
    let xls_lit = "xls".to_owned();
    if ext == zip_lit {
        Route::ArchiveUpload
    } else if ext == xlsx_lit || ext == xls_lit {
        Route::SingleWorkbook
    } else {
        Route::Unsupported(ext)
    }
}

/// Routing never reads the payload: it is a function of the declared name
/// alone, so the same name is always routed the same way, whatever bytes
/// come with it — and a name whose extension is `xlsx` or `xls` always
/// takes the single-workbook route, never the archive route.
pub proof fn lemma_routing_by_name_only(name: Seq<char>)
    requires
        is_workbook_ext(name),
    ensures
        !is_zip_ext(name),
{
    reveal_strlit("zip");
    reveal_strlit("xlsx");
    reveal_strlit("xls");
    assert("zip"@.len() == 3);
    assert("xlsx"@.len() == 4);
    assert("zip"@[0] == 'z' && "xls"@[0] == 'x');
}

} // verus!
