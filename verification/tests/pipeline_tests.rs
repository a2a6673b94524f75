use sheetpipe::archive::ArchiveEntry;
use sheetpipe::cell::Stamp;
use sheetpipe::pipeline::{plan_upload, search_files, UploadPlan};
use sheetpipe::registry::Registry;
use sheetpipe::sheetio::{load_all_sheets, load_first_sheet, WorkbookError};
use sheetpipe::transform::{fresh_output_path, output_path, prepare_workbook};
use std::io::Write;

const XML_HEAD: &str = "<?xml version=\"1.0\" encoding=\"UTF-8\" standalone=\"yes\"?>";

fn content_types() -> String {
    let mut s = String::from(XML_HEAD);
    s.push_str("<Types xmlns=\"http://schemas.openxmlformats.org/package/2006/content-types\">");
    s.push_str("<Default Extension=\"rels\" ContentType=\"application/vnd.openxmlformats-package.relationships+xml\"/>");
    s.push_str("<Default Extension=\"xml\" ContentType=\"application/xml\"/>");
    s.push_str("<Override PartName=\"/xl/workbook.xml\" ContentType=\"application/vnd.openxmlformats-officedocument.spreadsheetml.sheet.main+xml\"/>");
    s.push_str("<Override PartName=\"/xl/worksheets/sheet1.xml\" ContentType=\"application/vnd.openxmlformats-officedocument.spreadsheetml.worksheet+xml\"/>");
    s.push_str("</Types>");
    s
}

fn root_rels() -> String {
    let mut s = String::from(XML_HEAD);
    s.push_str(
        "<Relationships xmlns=\"http://schemas.openxmlformats.org/package/2006/relationships\">",
    );
    s.push_str("<Relationship Id=\"rId1\" Type=\"http://schemas.openxmlformats.org/officeDocument/2006/relationships/officeDocument\" Target=\"xl/workbook.xml\"/>");
    s.push_str("</Relationships>");
    s
}

fn workbook_xml() -> String {
    let mut s = String::from(XML_HEAD);
    s.push_str("<workbook xmlns=\"http://schemas.openxmlformats.org/spreadsheetml/2006/main\" ");
    s.push_str("xmlns:r=\"http://schemas.openxmlformats.org/officeDocument/2006/relationships\">");
    s.push_str("<sheets><sheet name=\"Sheet1\" sheetId=\"1\" r:id=\"rId1\"/></sheets></workbook>");
    s
}

fn workbook_rels() -> String {
    let mut s = String::from(XML_HEAD);
    s.push_str(
        "<Relationships xmlns=\"http://schemas.openxmlformats.org/package/2006/relationships\">",
    );
    s.push_str("<Relationship Id=\"rId1\" Type=\"http://schemas.openxmlformats.org/officeDocument/2006/relationships/worksheet\" Target=\"worksheets/sheet1.xml\"/>");
    s.push_str("</Relationships>");
    s
}

/// Builds a minimal single-sheet xlsx in memory whose sheet data is the
/// given `<row>...` runs.
fn build_xlsx(sheet_rows: &str) -> Vec<u8> {
    let mut sheet = String::from(XML_HEAD);
    sheet.push_str(
        "<worksheet xmlns=\"http://schemas.openxmlformats.org/spreadsheetml/2006/main\"><sheetData>",
    );
    sheet.push_str(sheet_rows);
    sheet.push_str("</sheetData></worksheet>");

    let mut w = zip::ZipWriter::new(std::io::Cursor::new(Vec::new()));
    let opts = zip::write::SimpleFileOptions::default();
    for (name, content) in [
        ("[Content_Types].xml", content_types()),
        ("_rels/.rels", root_rels()),
        ("xl/workbook.xml", workbook_xml()),
        ("xl/_rels/workbook.xml.rels", workbook_rels()),
        ("xl/worksheets/sheet1.xml", sheet),
    ] {
        w.start_file(name, opts).unwrap();
        w.write_all(content.as_bytes()).unwrap();
    }
    w.finish().unwrap().into_inner()
}

fn text_cell(cell_ref: &str, value: &str) -> String {
    format!("<c r=\"{}\" t=\"inlineStr\"><is><t>{}</t></is></c>", cell_ref, value)
}

#[test]
fn prepare_normalizes_name_age_sheet() {
    let rows = format!(
        "<row r=\"1\">{}{}</row><row r=\"2\">{}<c r=\"B2\"><v>30</v></c></row>",
        text_cell("A1", "Name"),
        text_cell("B1", "Age"),
        text_cell("A2", "Bob"),
    );
    let bytes = build_xlsx(&rows);
    let prepared = prepare_workbook(&bytes).unwrap();
    let triples: Vec<(usize, usize, &str)> =
        prepared.cells.iter().map(|c| (c.row, c.col, c.text.as_str())).collect();
    assert_eq!(
        triples,
        vec![(0, 0, "Name"), (0, 1, "Age"), (1, 0, "Bob"), (1, 1, "30")]
    );
}

#[test]
fn prepare_keeps_a_single_hello_cell_and_nothing_else() {
    let bytes = build_xlsx(&format!("<row r=\"1\">{}</row>", text_cell("A1", "hello")));
    let prepared = prepare_workbook(&bytes).unwrap();
    assert_eq!(prepared.cells.len(), 1);
    assert_eq!(prepared.cells[0].row, 0);
    assert_eq!(prepared.cells[0].col, 0);
    assert_eq!(prepared.cells[0].text, "hello");
}

#[test]
fn unreadable_bytes_are_a_hard_error() {
    let junk = vec![0u8, 1, 2, 3, 4, 5];
    match prepare_workbook(&junk) {
        Err(WorkbookError::Unreadable(_)) => {},
        other => panic!("junk bytes must be unreadable, got {:?}", other.is_ok()),
    }
    assert!(load_first_sheet(&junk).is_err());
    let msg = WorkbookError::Unreadable("bad".to_string()).message();
    assert_eq!(msg, "unreadable workbook: bad");
    assert_eq!(WorkbookError::NoSheets.message(), "no sheets present");
    assert_eq!(WorkbookError::EmptyRange.message(), "empty sheet range");
}

#[test]
fn an_empty_used_range_is_an_error() {
    let bytes = build_xlsx("");
    match prepare_workbook(&bytes) {
        Err(WorkbookError::EmptyRange) => {},
        Err(other) => panic!("expected the empty-range error, got {}", other.message()),
        Ok(_) => panic!("an empty first sheet must not convert"),
    }
    // Loading alone still succeeds: the empty range is the transformer's
    // failure, not the reader's.
    assert_eq!(load_first_sheet(&bytes).unwrap().len(), 0);
}

#[test]
fn single_workbook_upload_becomes_one_entry() {
    let bytes = vec![1u8, 2, 3];
    match plan_upload("book.xlsx", bytes.clone()).unwrap() {
        UploadPlan::Convert(es) => {
            assert_eq!(es.len(), 1);
            assert_eq!(es[0].name, "book.xlsx");
            assert_eq!(es[0].data, bytes);
        },
        UploadPlan::Reject(m) => panic!("unexpected rejection: {}", m),
    }
}

#[test]
fn archive_upload_is_unpacked_and_filtered() {
    let mut w = zip::ZipWriter::new(std::io::Cursor::new(Vec::new()));
    let opts = zip::write::SimpleFileOptions::default();
    for (name, data) in
        [("a.xlsx", &b"AAAA"[..]), ("skip.txt", &b"TTTT"[..]), ("b.xls", &b"BBBB"[..])]
    {
        w.start_file(name, opts).unwrap();
        w.write_all(data).unwrap();
    }
    let zip_bytes = w.finish().unwrap().into_inner();
    match plan_upload("bundle.zip", zip_bytes).unwrap() {
        UploadPlan::Convert(es) => {
            let names: Vec<&str> = es.iter().map(|e| e.name.as_str()).collect();
            assert_eq!(names, vec!["a.xlsx", "b.xls"]);
            assert_eq!(es[0].data, b"AAAA");
            assert_eq!(es[1].data, b"BBBB");
        },
        UploadPlan::Reject(m) => panic!("unexpected rejection: {}", m),
    }
}

#[test]
fn corrupt_archive_upload_is_an_error() {
    assert!(plan_upload("bundle.zip", vec![0u8, 1, 2]).is_err());
}

#[test]
fn unsupported_upload_echoes_the_extension() {
    match plan_upload("image.png", vec![1u8]).unwrap() {
        UploadPlan::Reject(m) => assert_eq!(m, "Unsupported file type: png"),
        UploadPlan::Convert(_) => panic!("png must be rejected"),
    }
}

#[test]
fn search_finds_the_one_file_holding_the_query() {
    let with_hit = build_xlsx(&format!(
        "<row r=\"1\">{}</row><row r=\"2\">{}</row>",
        text_cell("A1", "foo"),
        text_cell("B2", "ProjectX"),
    ));
    let without = build_xlsx(&format!("<row r=\"1\">{}</row>", text_cell("A1", "nothing here")));
    let files = vec![
        ArchiveEntry { name: "out/with.xlsx".to_string(), data: with_hit },
        ArchiveEntry { name: "out/without.xlsx".to_string(), data: without },
    ];
    let hits = search_files(&files, "ProjectX").unwrap();
    assert_eq!(hits.len(), 1);
    assert_eq!(hits[0].file, "out/with.xlsx");
    assert_eq!(hits[0].sheet_name, "Sheet1");
    assert_eq!(hits[0].row, 1);
    assert_eq!(hits[0].col, 1);
    assert_eq!(hits[0].value, "ProjectX");
}

#[test]
fn search_matches_substrings_of_rendered_values() {
    let book = build_xlsx(&format!(
        "<row r=\"1\">{}<c r=\"B1\"><v>30</v></c></row>",
        text_cell("A1", "Bob"),
    ));
    let files = vec![ArchiveEntry { name: "out/a.xlsx".to_string(), data: book }];
    let hits = search_files(&files, "o").unwrap();
    assert_eq!(hits.len(), 1);
    assert_eq!(hits[0].value, "Bob");
    let hits30 = search_files(&files, "30").unwrap();
    assert_eq!(hits30.len(), 1);
    assert_eq!(hits30[0].value, "30");
    let none = search_files(&files, "absent").unwrap();
    assert_eq!(none.len(), 0);
}

#[test]
fn strict_search_aborts_on_an_unreadable_file() {
    let good = build_xlsx(&format!("<row r=\"1\">{}</row>", text_cell("A1", "x")));
    let files = vec![
        ArchiveEntry { name: "out/bad.xlsx".to_string(), data: vec![0u8, 1] },
        ArchiveEntry { name: "out/good.xlsx".to_string(), data: good },
    ];
    assert!(search_files(&files, "x").is_err());
}

#[test]
fn all_sheets_are_loaded_in_order() {
    let bytes = build_xlsx(&format!("<row r=\"1\">{}</row>", text_cell("A1", "only")));
    let sheets = load_all_sheets(&bytes).unwrap();
    assert_eq!(sheets.len(), 1);
    assert_eq!(sheets[0].name, "Sheet1");
    assert_eq!(sheets[0].rows.len(), 1);
}

#[test]
fn deleted_files_are_neither_listed_nor_scanned() {
    let searched = build_xlsx(&format!("<row r=\"1\">{}</row>", text_cell("A1", "ProjectX")));
    let mut registry = Registry::new();
    let keep = registry.insert("out/keep.xlsx".to_string());
    let doomed = registry.insert("out/doomed.xlsx".to_string());
    assert_ne!(keep, doomed);
    assert_eq!(registry.remove(doomed), Some("out/doomed.xlsx".to_string()));

    // The listing no longer holds the deleted path ...
    let names = registry.names();
    assert_eq!(names, vec!["out/keep.xlsx".to_string()]);

    // ... so a search driven by the listing never touches its bytes:
    // only the surviving file is opened, and the scan succeeds even
    // though the deleted one's content would be unreadable.
    let store = |name: &str| -> Vec<u8> {
        match name {
            "out/keep.xlsx" => searched.clone(),
            _ => panic!("the deleted file must not be read"),
        }
    };
    let files: Vec<ArchiveEntry> =
        names.into_iter().map(|n| ArchiveEntry { data: store(&n), name: n }).collect();
    let hits = search_files(&files, "ProjectX").unwrap();
    assert_eq!(hits.len(), 1);
    assert_eq!(hits[0].file, "out/keep.xlsx");
}

#[test]
fn output_naming_follows_the_stamp() {
    let s = Stamp::checked(2024, 1, 5, 13, 45, 7).unwrap();
    assert_eq!(output_path("output_files", &s), "output_files/firstsheet010524134507.xlsx");
    let fresh = fresh_output_path("output_files");
    assert!(fresh.starts_with("output_files/firstsheet"));
    assert!(fresh.ends_with(".xlsx"));
    assert_eq!(fresh.len(), "output_files/firstsheet".len() + 12 + ".xlsx".len());
}
