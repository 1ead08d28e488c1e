use git_objects::error::StoreError;
use git_objects::listing::{format_entry, tree_lines, tree_names};
use git_objects::object::{store_blob, store_object, ObjectKind};
use git_objects::tree::{parse_entry, parse_tree, parse_tree_entries, TreeEntry};

const TREE_ID: &str = "17007c065993819185c4b29a7fe1cf0acb704019";

fn hash_a() -> Vec<u8> {
    (0..20u8).collect()
}

fn hash_b() -> Vec<u8> {
    (100..120u8).collect()
}

fn packed(mode: &[u8], name: &[u8], hash: &[u8]) -> Vec<u8> {
    [mode, b" ", name, b"\0", hash].concat()
}

fn entry(mode: &str, sha: &str, name: &str) -> TreeEntry {
    TreeEntry { mode: mode.to_string(), sha: sha.to_string(), name: name.to_string() }
}

fn two_entries() -> Vec<u8> {
    [packed(b"40000", b"src", &hash_a()), packed(b"100644", b"file.txt", &hash_b())].concat()
}

#[test]
fn one_entry_is_read_with_mode_name_and_hex_identifier() {
    let buffer = [b"100644 file.txt\0".as_slice(), &hash_a()].concat();
    assert_eq!(
        parse_tree_entries(&buffer),
        Ok(vec![entry("100644", "000102030405060708090a0b0c0d0e0f10111213", "file.txt")])
    );
}

#[test]
fn an_empty_buffer_holds_no_entries() {
    assert_eq!(parse_tree_entries(b""), Ok(Vec::new()));
}

#[test]
fn entries_come_in_the_order_of_the_buffer() {
    let entries = parse_tree_entries(&two_entries()).unwrap();
    assert_eq!(
        entries,
        vec![
            entry("40000", "000102030405060708090a0b0c0d0e0f10111213", "src"),
            entry("100644", "6465666768696a6b6c6d6e6f7071727374757677", "file.txt"),
        ]
    );
    let swapped =
        [packed(b"100644", b"file.txt", &hash_b()), packed(b"40000", b"src", &hash_a())].concat();
    let entries = parse_tree_entries(&swapped).unwrap();
    assert_eq!(tree_names(&entries), vec!["file.txt".to_string(), "src".to_string()]);
}

#[test]
fn hash_bytes_are_raw_and_may_hold_delimiters() {
    let hash = [0x20, 0x00, 0x20, 0x00, 0xff, 0, 0, 0, 0, 0, 0, 0, 0, 0, 0, 0, 0, 0, 0, 0x20];
    let buffer = [packed(b"100644", b"a", &hash), packed(b"100755", b"b", &hash_a())].concat();
    let entries = parse_tree_entries(&buffer).unwrap();
    assert_eq!(entries.len(), 2);
    assert_eq!(entries[0].sha, "20002000ff000000000000000000000000000020");
    assert_eq!(entries[1], entry("100755", "000102030405060708090a0b0c0d0e0f10111213", "b"));
}

#[test]
fn a_name_may_hold_spaces_and_other_utf8() {
    let name = "my file \u{e9}\u{4e16}.txt";
    let buffer = packed(b"100644", name.as_bytes(), &hash_a());
    let entries = parse_tree_entries(&buffer).unwrap();
    assert_eq!(entries[0].name, name);
    assert_eq!(entries[0].mode, "100644");
}

#[test]
fn mode_and_name_may_be_empty() {
    let buffer = packed(b"", b"", &hash_a());
    assert_eq!(
        parse_tree_entries(&buffer),
        Ok(vec![entry("", "000102030405060708090a0b0c0d0e0f10111213", "")])
    );
}

#[test]
fn a_buffer_cut_within_the_hash_is_truncated() {
    let whole = packed(b"100644", b"file.txt", &hash_a());
    for cut in 0..20 {
        let buffer = &whole[..whole.len() - 20 + cut];
        assert_eq!(parse_tree_entries(buffer), Err(StoreError::TruncatedEntry));
    }
    assert!(parse_tree_entries(&whole).is_ok());
}

#[test]
fn a_second_entry_cut_within_the_hash_is_truncated() {
    let buffer = two_entries();
    assert_eq!(parse_tree_entries(&buffer[..buffer.len() - 1]), Err(StoreError::TruncatedEntry));
    assert_eq!(parse_tree_entries(&buffer[..buffer.len() - 20]), Err(StoreError::TruncatedEntry));
}

#[test]
fn an_entry_without_a_space_is_malformed() {
    assert_eq!(parse_tree_entries(b"100644"), Err(StoreError::MalformedEntry));
    assert_eq!(parse_tree_entries(b"100644file.txt\0"), Err(StoreError::MalformedEntry));
}

#[test]
fn an_entry_without_a_nul_is_malformed() {
    assert_eq!(parse_tree_entries(b"100644 file.txt"), Err(StoreError::MalformedEntry));
    assert_eq!(parse_tree_entries(b"100644 "), Err(StoreError::MalformedEntry));
}

#[test]
fn bytes_left_over_after_an_entry_are_read_as_the_next() {
    let buffer = [packed(b"100644", b"a", &hash_a()), b"x".to_vec()].concat();
    assert_eq!(parse_tree_entries(&buffer), Err(StoreError::MalformedEntry));
    let buffer = [packed(b"100644", b"a", &hash_a()), b"x y".to_vec()].concat();
    assert_eq!(parse_tree_entries(&buffer), Err(StoreError::MalformedEntry));
    let buffer = [packed(b"100644", b"a", &hash_a()), b"x y\0".to_vec()].concat();
    assert_eq!(parse_tree_entries(&buffer), Err(StoreError::TruncatedEntry));
}

#[test]
fn a_mode_or_name_that_is_not_utf8_is_malformed() {
    assert_eq!(
        parse_tree_entries(&packed(&[0xff, b'1'], b"name", &hash_a())),
        Err(StoreError::MalformedEntry)
    );
    assert_eq!(
        parse_tree_entries(&packed(b"100644", &[b'n', 0xc3], &hash_a())),
        Err(StoreError::MalformedEntry)
    );
    assert_eq!(
        parse_tree_entries(&packed(b"100644", &[0xc3, 0x28], &hash_a()[..5])),
        Err(StoreError::MalformedEntry)
    );
}

#[test]
fn parse_entry_says_where_the_next_entry_starts() {
    let buffer = two_entries();
    let (first, next) = parse_entry(&buffer, 0).unwrap();
    assert_eq!(first, entry("40000", "000102030405060708090a0b0c0d0e0f10111213", "src"));
    assert_eq!(next, 30);
    let (second, end) = parse_entry(&buffer, next).unwrap();
    assert_eq!(second, entry("100644", "6465666768696a6b6c6d6e6f7071727374757677", "file.txt"));
    assert_eq!(end, buffer.len());
    assert_eq!(parse_entry(&buffer, end), Err(StoreError::MalformedEntry));
}

#[test]
fn a_subtree_is_labelled_tree_with_a_padded_mode() {
    assert_eq!(
        format_entry(&entry("40000", "000102030405060708090a0b0c0d0e0f10111213", "src")),
        "040000 tree 000102030405060708090a0b0c0d0e0f10111213 src"
    );
}

#[test]
fn a_regular_file_is_labelled_blob() {
    assert_eq!(
        format_entry(&entry("100644", "6465666768696a6b6c6d6e6f7071727374757677", "file.txt")),
        "100644 blob 6465666768696a6b6c6d6e6f7071727374757677 file.txt"
    );
}

#[test]
fn any_other_mode_is_passed_through() {
    assert_eq!(format_entry(&entry("100755", "ab", "run.sh")), "100755 ab run.sh");
    assert_eq!(format_entry(&entry("040000", "ab", "dir")), "040000 ab dir");
    assert_eq!(format_entry(&entry("", "", "")), "  ");
    assert_eq!(format_entry(&entry("120000", "cd", "a link")), "120000 cd a link");
}

#[test]
fn lines_and_names_keep_the_order_of_the_entries() {
    let entries = vec![
        entry("100644", "aa", "z.txt"),
        entry("40000", "bb", "a"),
        entry("100755", "cc", "m"),
    ];
    assert_eq!(
        tree_lines(&entries),
        vec![
            "100644 blob aa z.txt".to_string(),
            "040000 tree bb a".to_string(),
            "100755 cc m".to_string(),
        ]
    );
    assert_eq!(tree_names(&entries), vec!["z.txt".to_string(), "a".to_string(), "m".to_string()]);
    assert_eq!(tree_lines(&[]), Vec::<String>::new());
    assert_eq!(tree_names(&[]), Vec::<String>::new());
}

#[test]
fn a_stored_tree_is_listed_in_encounter_order() {
    let object = store_object(ObjectKind::Tree, &two_entries()).unwrap();
    assert_eq!(object.id, TREE_ID);
    let entries = parse_tree(&object.id, Some(&object.bytes)).unwrap();
    assert_eq!(
        tree_lines(&entries),
        vec![
            "040000 tree 000102030405060708090a0b0c0d0e0f10111213 src".to_string(),
            "100644 blob 6465666768696a6b6c6d6e6f7071727374757677 file.txt".to_string(),
        ]
    );
    assert_eq!(tree_names(&entries), vec!["src".to_string(), "file.txt".to_string()]);
}

#[test]
fn parse_tree_reports_what_loading_reports() {
    let object = store_object(ObjectKind::Tree, &two_entries()).unwrap();
    assert_eq!(parse_tree(&TREE_ID[..39], Some(&object.bytes)), Err(StoreError::InvalidIdentifier));
    assert_eq!(parse_tree(TREE_ID, None), Err(StoreError::ObjectNotFound));
    assert_eq!(parse_tree(TREE_ID, Some(b"not zlib")), Err(StoreError::CorruptObject));
    assert_eq!(
        parse_tree(TREE_ID, Some(&object.bytes[..object.bytes.len() - 6])),
        Err(StoreError::CorruptObject)
    );
}

#[test]
fn parse_tree_skips_the_header_whatever_its_label() {
    let blob = store_blob(Some(&two_entries())).unwrap();
    assert_eq!(parse_tree(&blob.id, Some(&blob.bytes)).unwrap().len(), 2);
    let empty = store_object(ObjectKind::Tree, b"").unwrap();
    assert_eq!(parse_tree(&empty.id, Some(&empty.bytes)), Ok(Vec::new()));
}

#[test]
fn parse_tree_reports_a_tree_cut_within_a_hash() {
    let content = two_entries();
    let object = store_object(ObjectKind::Tree, &content[..content.len() - 3]).unwrap();
    assert_eq!(parse_tree(&object.id, Some(&object.bytes)), Err(StoreError::TruncatedEntry));
}
