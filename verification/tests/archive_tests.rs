use sheetpipe::archive::{filter_workbook_entries, pack_entries, unpack_entries, ArchiveEntry};

#[test]
fn archive_round_trip_keeps_entries_byte_for_byte() {
    let entries = vec![
        ArchiveEntry { name: "a.xlsx".to_string(), data: vec![1u8, 2, 3, 4] },
        ArchiveEntry { name: "b.xlsx".to_string(), data: vec![9u8, 8, 7] },
    ];
    let bytes = pack_entries(&entries).unwrap();
    let back = unpack_entries(bytes).unwrap();
    assert_eq!(back.len(), 2);
    assert_eq!(back[0].name, "a.xlsx");
    assert_eq!(back[0].data, vec![1u8, 2, 3, 4]);
    assert_eq!(back[1].name, "b.xlsx");
    assert_eq!(back[1].data, vec![9u8, 8, 7]);
}

#[test]
fn packing_strips_directory_components() {
    let entries = vec![ArchiveEntry {
        name: "output_files/firstsheet010101000000.xlsx".to_string(),
        data: vec![42u8],
    }];
    let bytes = pack_entries(&entries).unwrap();
    let back = unpack_entries(bytes).unwrap();
    assert_eq!(back.len(), 1);
    assert_eq!(back[0].name, "firstsheet010101000000.xlsx");
    assert_eq!(back[0].data, vec![42u8]);
}

#[test]
fn unpacking_garbage_is_an_error() {
    assert!(unpack_entries(vec![0u8, 1, 2, 3]).is_err());
    assert!(unpack_entries(Vec::new()).is_err());
}

#[test]
fn filtering_keeps_only_workbook_names() {
    let entries = vec![
        ArchiveEntry { name: "one.xlsx".to_string(), data: vec![1u8] },
        ArchiveEntry { name: "readme.txt".to_string(), data: vec![2u8] },
        ArchiveEntry { name: "dir/two.xls".to_string(), data: vec![3u8] },
        ArchiveEntry { name: "image.png".to_string(), data: vec![4u8] },
    ];
    let kept = filter_workbook_entries(entries);
    let names: Vec<&str> = kept.iter().map(|e| e.name.as_str()).collect();
    assert_eq!(names, vec!["one.xlsx", "dir/two.xls"]);
    assert_eq!(kept[0].data, vec![1u8]);
    assert_eq!(kept[1].data, vec![3u8]);
}

#[test]
fn repeated_stored_names_abort_the_whole_pack() {
    // Two distinct paths with the same base name collide in the archive.
    let entries = vec![
        ArchiveEntry { name: "one/a.xlsx".to_string(), data: vec![1u8] },
        ArchiveEntry { name: "two/a.xlsx".to_string(), data: vec![2u8] },
    ];
    assert!(pack_entries(&entries).is_err());
}

#[test]
fn an_overlong_stored_name_aborts_the_whole_pack() {
    let entries = vec![ArchiveEntry { name: "n".repeat(16384), data: vec![1u8] }];
    assert!(pack_entries(&entries).is_err());
    // At the bound itself the pack goes through.
    let fits = vec![ArchiveEntry { name: "n".repeat(16383), data: vec![1u8] }];
    assert!(pack_entries(&fits).is_ok());
}

#[test]
fn empty_pack_yields_an_archive_with_no_entries() {
    let bytes = pack_entries(&Vec::new()).unwrap();
    let back = unpack_entries(bytes).unwrap();
    assert_eq!(back.len(), 0);
}
