use regfs::dirinfo::{DirEntry, DirInfo};
use regfs::is_virtualization_root;
use regfs::name::{name_le, name_matches};
use regfs::regfs::{EntryBuffer, NotifyKind, RegFs, Status};
use regfs::store::{RegEntires, RegEntry, RegOps};

fn entry_names(entries: &[DirEntry]) -> Vec<Vec<u8>> {
    entries.iter().map(|e| e.filename.clone()).collect()
}

const ROOTS_SORTED: [&[u8]; 5] = [
    b"HKEY_CLASSES_ROOT",
    b"HKEY_CURRENT_CONFIG",
    b"HKEY_CURRENT_USER",
    b"HKEY_LOCAL_MACHINE",
    b"HKEY_USERS",
];

#[test]
fn root_path_detection() {
    assert!(is_virtualization_root(&b"".to_vec()));
    assert!(is_virtualization_root(&b"\\".to_vec()));
    assert!(is_virtualization_root(&b"\\HKEY_USERS".to_vec()));
    assert!(!is_virtualization_root(&b"HKEY_USERS".to_vec()));
    assert!(!is_virtualization_root(&b"HKEY_USERS\\A".to_vec()));
}

#[test]
fn collation_is_case_insensitive_ordinal() {
    assert!(name_le(&b"abc".to_vec(), &b"ABD".to_vec()));
    assert!(!name_le(&b"abd".to_vec(), &b"ABC".to_vec()));
    assert!(name_le(&b"ABC".to_vec(), &b"abc".to_vec()));
    assert!(name_le(&b"abc".to_vec(), &b"ABC".to_vec()));
    // a proper prefix sorts before its extension
    assert!(name_le(&b"ab".to_vec(), &b"abc".to_vec()));
    assert!(!name_le(&b"abc".to_vec(), &b"ab".to_vec()));
    assert!(name_le(&b"".to_vec(), &b"a".to_vec()));
}

#[test]
fn wildcard_semantics() {
    // empty expression matches everything
    assert!(name_matches(&b"".to_vec(), &b"anything".to_vec()));
    assert!(name_matches(&b"".to_vec(), &b"".to_vec()));
    // `*` spans runs, `?` exactly one byte, letters fold case
    assert!(name_matches(&b"a*c".to_vec(), &b"ABC".to_vec()));
    assert!(name_matches(&b"a*c".to_vec(), &b"ac".to_vec()));
    assert!(name_matches(&b"*".to_vec(), &b"".to_vec()));
    assert!(name_matches(&b"hkey_u????".to_vec(), &b"HKEY_USERS".to_vec()));
    assert!(!name_matches(&b"hkey_u???".to_vec(), &b"HKEY_USERS".to_vec()));
    assert!(!name_matches(&b"HKEY_C*".to_vec(), &b"HKEY_USERS".to_vec()));
    assert!(name_matches(&b"HKEY_C*".to_vec(), &b"HKEY_CLASSES_ROOT".to_vec()));
    assert!(!name_matches(&b"abc".to_vec(), &b"abcd".to_vec()));
}

#[test]
fn sort_orders_entries_and_marks_filled() {
    let mut info = DirInfo::new(b"".to_vec());
    info.fill_dir_entry(b"zeta".to_vec());
    info.fill_file_entry(b"Alpha".to_vec(), 4);
    info.fill_dir_entry(b"beta".to_vec());
    assert!(!info.filled());
    info.sort_entries_and_mark_filled();
    assert!(info.filled());
    assert_eq!(
        entry_names(&info.entries),
        vec![b"Alpha".to_vec(), b"beta".to_vec(), b"zeta".to_vec()]
    );
    // duplicates survive the sort, and the sort is stable: entries of equal
    // collation keep their fill order
    let mut dup = DirInfo::new(b"".to_vec());
    dup.fill_dir_entry(b"same".to_vec());
    dup.fill_file_entry(b"SAME".to_vec(), 1);
    dup.sort_entries_and_mark_filled();
    assert_eq!(dup.entries.len(), 2);
    assert!(dup.entries[0].is_directory);
    assert_eq!(dup.entries[0].filename, b"same".to_vec());
    assert!(!dup.entries[1].is_directory);
    assert_eq!(dup.entries[1].filename, b"SAME".to_vec());
}

#[test]
fn sorting_an_empty_cache_is_valid() {
    let mut info = DirInfo::new(b"whatever".to_vec());
    info.sort_entries_and_mark_filled();
    assert!(info.filled());
    assert!(info.entries.is_empty());
    assert!(!info.current_is_valid());
}

#[test]
fn reset_restores_the_empty_state() {
    let mut info = DirInfo::new(b"p".to_vec());
    info.fill_dir_entry(b"a".to_vec());
    info.fill_file_entry(b"b".to_vec(), 9);
    info.sort_entries_and_mark_filled();
    assert!(info.current_is_valid());
    info.move_next();
    info.reset();
    assert!(!info.filled());
    assert_eq!(info.index, 0);
    assert!(info.entries.is_empty());
    assert!(!info.current_is_valid());
}

#[test]
fn root_listing_is_the_fixed_container_set() {
    let ops = RegOps::new();
    let listing = ops.enumerate_key(&b"".to_vec(), None).unwrap();
    assert_eq!(listing.subkeys.len(), 5);
    assert!(listing.values.is_empty());
    let mut names: Vec<Vec<u8>> = listing.subkeys.iter().map(|e| e.name.clone()).collect();
    names.sort();
    let mut expected: Vec<Vec<u8>> = ROOTS_SORTED.iter().map(|n| n.to_vec()).collect();
    expected.sort();
    assert_eq!(names, expected);
    for e in &listing.subkeys {
        assert_eq!(e.size, 0);
    }
}

#[test]
fn a_missing_path_is_absent_consistently() {
    let ops = RegOps::new();
    let path = b"NO_SUCH_ROOT\\Sub\\Value".to_vec();
    let raw = RegEntires {
        subkeys: vec![RegEntry { name: b"x".to_vec(), size: 0 }],
        values: vec![],
    };
    assert!(ops.enumerate_key(&path, Some(raw)).is_none());
    assert!(!ops.does_key_exist(&path, true));
    assert_eq!(ops.read_value(&path, Some(vec![1, 2, 3])), None);
    assert_eq!(ops.does_value_exist(&path, Some(vec![1, 2, 3])), None);
}

#[test]
fn value_lookup_requires_a_parent_and_a_leaf() {
    let ops = RegOps::new();
    // depth 1 addresses a container, never a value
    assert_eq!(ops.read_value(&b"HKEY_LOCAL_MACHINE".to_vec(), Some(vec![1])), None);
    assert_eq!(ops.read_value(&b"".to_vec(), Some(vec![1])), None);
    // depth 2 reads whatever the backing store answered
    assert_eq!(
        ops.read_value(&b"HKEY_LOCAL_MACHINE\\Version".to_vec(), Some(vec![10, 0, 0, 0])),
        Some(vec![10, 0, 0, 0])
    );
    assert_eq!(ops.read_value(&b"HKEY_LOCAL_MACHINE\\Version".to_vec(), None), None);
}

#[test]
fn key_resolution_splits_root_and_remainder() {
    let ops = RegOps::new();
    let loc = ops.open_key_by_path(&b"HKEY_USERS\\A\\B".to_vec()).unwrap();
    assert_eq!(loc.subpath, vec![b"A".to_vec(), b"B".to_vec()]);
    let root_only = ops.open_key_by_path(&b"HKEY_USERS".to_vec()).unwrap();
    assert!(root_only.subpath.is_empty());
    // the short form of a root's name is no exact match
    assert!(ops.open_key_by_path(&b"HKLM\\SOFTWARE".to_vec()).is_none());
    assert!(ops.open_key_by_path(&b"".to_vec()).is_none());

    let val = ops.resolve_value_path(&b"HKEY_USERS\\A\\B\\V".to_vec()).unwrap();
    assert_eq!(val.parent, vec![b"A".to_vec(), b"B".to_vec()]);
    assert_eq!(val.leaf, b"V".to_vec());
    assert!(ops.resolve_value_path(&b"HKEY_USERS".to_vec()).is_none());
}

#[test]
fn placeholder_decision() {
    let fs = RegFs::new();
    // an existing container: directory placeholder, size 0
    let (st, info) = fs.get_placeholder_info(&b"HKEY_USERS\\Sub".to_vec(), true, None);
    assert_eq!(st, Status::Success);
    let info = info.unwrap();
    assert!(info.is_directory);
    assert_eq!(info.file_size, 0);
    // no container, but a value: file placeholder sized by the data
    let (st, info) =
        fs.get_placeholder_info(&b"HKEY_USERS\\Sub\\V".to_vec(), false, Some(vec![7; 12]));
    assert_eq!(st, Status::Success);
    let info = info.unwrap();
    assert!(!info.is_directory);
    assert_eq!(info.file_size, 12);
    // neither: not found
    let (st, info) = fs.get_placeholder_info(&b"HKEY_USERS\\Sub\\V".to_vec(), false, None);
    assert_eq!(st, Status::NotFound);
    assert!(info.is_none());
}

#[test]
fn file_data_fills_the_buffer_or_reports_why_not() {
    let fs = RegFs::new();
    let path = b"HKEY_LOCAL_MACHINE\\Key\\Value".to_vec();
    // a 4-byte value, length 4: exactly those bytes, handed off
    let (st, data) = fs.get_file_data(&path, true, Some(vec![10, 0, 0, 0]), 4);
    assert_eq!(st, Status::Success);
    assert_eq!(data, Some(vec![10, 0, 0, 0]));
    // a non-existent value: not found, nothing handed off
    let (st, data) = fs.get_file_data(&path, true, None, 4);
    assert_eq!(st, Status::NotFound);
    assert!(data.is_none());
    // allocation failure is reported, not retried
    let (st, data) = fs.get_file_data(&path, false, None, 4);
    assert_eq!(st, Status::OutOfMemory);
    assert!(data.is_none());
}

#[test]
fn read_only_policy_vetoes_mutating_pre_operations() {
    let fs = RegFs::new();
    assert_eq!(fs.notify(NotifyKind::PreRename), Status::AccessDenied);
    assert_eq!(fs.notify(NotifyKind::PreDelete), Status::AccessDenied);
    assert_eq!(fs.notify(NotifyKind::FileOpened), Status::Success);
    assert_eq!(fs.notify(NotifyKind::FileHandleClosedFileModified), Status::Success);
    assert_eq!(fs.notify(NotifyKind::FileOverwritten), Status::Success);
    assert_eq!(fs.notify(NotifyKind::NewFileCreated), Status::Success);
    assert_eq!(fs.notify(NotifyKind::FileRenamed), Status::Success);
    assert_eq!(fs.notify(NotifyKind::FileHandleClosedFileDeleted), Status::Success);
    assert_eq!(fs.notify(NotifyKind::FilePreConvertToFull), Status::Success);
    // unrecognized kinds fail open
    assert_eq!(fs.notify(NotifyKind::Unknown), Status::Success);
    assert_eq!(fs.query_file_name(&b"any".to_vec()), Status::Success);
    assert_eq!(fs.cancel_command(&b"any".to_vec()), Status::Success);
}

#[test]
fn enumeration_session_lifecycle() {
    let mut fs = RegFs::new();
    let session: u128 = 42;
    assert_eq!(fs.start_dir_enum(session, b"".to_vec()), Status::Success);
    let mut buffer = EntryBuffer::new(None);
    let st = fs.get_dir_enum(session, &b"".to_vec(), &b"*".to_vec(), true, None, &mut buffer);
    assert_eq!(st, Status::Success);
    let names = entry_names(&buffer.written);
    let expected: Vec<Vec<u8>> = ROOTS_SORTED.iter().map(|n| n.to_vec()).collect();
    assert_eq!(names, expected);
    for e in &buffer.written {
        assert!(e.is_directory);
        assert_eq!(e.size, 0);
    }
    assert_eq!(fs.end_dir_enum(session), Status::Success);
    // the session is gone: a further call reports an invalid session
    let mut buffer2 = EntryBuffer::new(None);
    let st = fs.get_dir_enum(session, &b"".to_vec(), &b"*".to_vec(), false, None, &mut buffer2);
    assert_eq!(st, Status::InvalidSession);
    assert!(buffer2.written.is_empty());
    // ending twice is a benign no-op
    assert_eq!(fs.end_dir_enum(session), Status::Success);
}

#[test]
fn draining_one_entry_per_call() {
    let mut fs = RegFs::new();
    let session: u128 = 7;
    fs.start_dir_enum(session, b"".to_vec());
    let mut collected: Vec<Vec<u8>> = Vec::new();
    // first call restarts and fills; each call accepts exactly one entry
    for i in 0..5 {
        let mut buffer = EntryBuffer::new(Some(1));
        let st = fs.get_dir_enum(session, &b"".to_vec(), &b"*".to_vec(), i == 0, None, &mut buffer);
        assert_eq!(st, Status::Success);
        assert_eq!(buffer.written.len(), 1);
        collected.push(buffer.written[0].filename.clone());
    }
    let expected: Vec<Vec<u8>> = ROOTS_SORTED.iter().map(|n| n.to_vec()).collect();
    assert_eq!(collected, expected);
    // the listing is exhausted: one more call writes nothing, successfully
    let mut buffer = EntryBuffer::new(Some(1));
    let st = fs.get_dir_enum(session, &b"".to_vec(), &b"*".to_vec(), false, None, &mut buffer);
    assert_eq!(st, Status::Success);
    assert!(buffer.written.is_empty());
    fs.end_dir_enum(session);
}

#[test]
fn enumeration_filters_by_search_expression() {
    let mut fs = RegFs::new();
    let session: u128 = 9;
    fs.start_dir_enum(session, b"".to_vec());
    let mut buffer = EntryBuffer::new(None);
    let st = fs.get_dir_enum(
        session,
        &b"".to_vec(),
        &b"hkey_c*".to_vec(),
        true,
        None,
        &mut buffer,
    );
    assert_eq!(st, Status::Success);
    assert_eq!(
        entry_names(&buffer.written),
        vec![
            b"HKEY_CLASSES_ROOT".to_vec(),
            b"HKEY_CURRENT_CONFIG".to_vec(),
            b"HKEY_CURRENT_USER".to_vec(),
        ]
    );
    fs.end_dir_enum(session);
}

#[test]
fn enumeration_below_the_root_uses_the_backing_answer() {
    let mut fs = RegFs::new();
    let session: u128 = 11;
    let path = b"HKEY_LOCAL_MACHINE\\SOFTWARE".to_vec();
    fs.start_dir_enum(session, path.clone());
    let raw = RegEntires {
        subkeys: vec![
            RegEntry { name: b"zulu".to_vec(), size: 0 },
            RegEntry { name: b"Alpha".to_vec(), size: 0 },
        ],
        values: vec![
            RegEntry { name: b"version".to_vec(), size: 4 },
            RegEntry { name: b"skip_me".to_vec(), size: 2 },
        ],
    };
    let mut buffer = EntryBuffer::new(None);
    let st = fs.get_dir_enum(session, &path, &b"*".to_vec(), true, Some(raw), &mut buffer);
    assert_eq!(st, Status::Success);
    assert_eq!(
        entry_names(&buffer.written),
        vec![
            b"Alpha".to_vec(),
            b"skip_me".to_vec(),
            b"version".to_vec(),
            b"zulu".to_vec(),
        ]
    );
    assert!(buffer.written[0].is_directory);
    assert!(!buffer.written[2].is_directory);
    assert_eq!(buffer.written[2].size, 4);
    fs.end_dir_enum(session);
}

#[test]
fn enumeration_of_a_missing_key_reports_not_found() {
    let mut fs = RegFs::new();
    let session: u128 = 13;
    let path = b"HKEY_LOCAL_MACHINE\\Missing".to_vec();
    fs.start_dir_enum(session, path.clone());
    let mut buffer = EntryBuffer::new(None);
    // the backing store has no such key: its answer is absent
    let st = fs.get_dir_enum(session, &path, &b"*".to_vec(), true, None, &mut buffer);
    assert_eq!(st, Status::NotFound);
    assert!(buffer.written.is_empty());
    fs.end_dir_enum(session);
}

#[test]
fn buffer_refuses_entries_beyond_its_capacity() {
    let mut buffer = EntryBuffer::new(Some(1));
    let taken = buffer.try_fill(DirEntry {
        filename: b"a".to_vec(),
        is_directory: true,
        size: 0,
    });
    assert!(taken);
    let taken = buffer.try_fill(DirEntry {
        filename: b"b".to_vec(),
        is_directory: false,
        size: 1,
    });
    assert!(!taken);
    assert_eq!(buffer.written.len(), 1);

    let mut zero = EntryBuffer::new(Some(0));
    let taken = zero.try_fill(DirEntry {
        filename: b"c".to_vec(),
        is_directory: true,
        size: 0,
    });
    assert!(!taken);
    assert!(zero.written.is_empty());
}
