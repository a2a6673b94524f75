use sheetpipe::classify::{base_name, classify, extension_of, str_ends_with, supported_entry_name, Route};

#[test]
fn extension_extraction() {
    assert_eq!(extension_of("report.xlsx"), "xlsx");
    assert_eq!(extension_of("report.xls"), "xls");
    assert_eq!(extension_of("bundle.zip"), "zip");
    assert_eq!(extension_of("archive.tar.gz"), "gz");
    assert_eq!(extension_of("noext"), "");
    assert_eq!(extension_of(".hidden"), "");
    assert_eq!(extension_of("dir.d/noext"), "");
    assert_eq!(extension_of("dir/file.xlsx"), "xlsx");
    assert_eq!(extension_of("trailingdot."), "");
}

#[test]
fn base_name_strips_directories() {
    assert_eq!(base_name("a/b/c.xlsx"), "c.xlsx");
    assert_eq!(base_name("c.xlsx"), "c.xlsx");
    assert_eq!(base_name("out/firstsheet010101000000.xlsx"), "firstsheet010101000000.xlsx");
}

#[test]
fn suffix_matching() {
    assert!(str_ends_with("book.xlsx", ".xlsx"));
    assert!(!str_ends_with("book.xlsx", ".xls"));
    assert!(str_ends_with("book.xls", ".xls"));
    assert!(str_ends_with("", ""));
    assert!(!str_ends_with("x", "xy"));
    assert!(supported_entry_name("dir/one.xlsx"));
    assert!(supported_entry_name("two.xls"));
    assert!(!supported_entry_name("notes.txt"));
}

#[test]
fn routing_by_extension() {
    assert!(matches!(classify("book.xlsx"), Route::SingleWorkbook));
    assert!(matches!(classify("book.xls"), Route::SingleWorkbook));
    assert!(matches!(classify("bundle.zip"), Route::ArchiveUpload));
    match classify("image.png") {
        Route::Unsupported(ext) => assert_eq!(ext, "png"),
        _ => panic!("png must be rejected"),
    }
    match classify("noext") {
        Route::Unsupported(ext) => assert_eq!(ext, ""),
        _ => panic!("a name without an extension must be rejected"),
    }
}

#[test]
fn routing_ignores_payload() {
    // The same declared name always routes the same way: classification
    // never reads bytes, so any two calls with one name agree.
    for _ in 0..3 {
        assert!(matches!(classify("data.xlsx"), Route::SingleWorkbook));
    }
    assert!(matches!(classify("data.xlsx"), Route::SingleWorkbook));
}
