use kvc::{
    candidate_roots, generate_hash, get_file_path_relative_to_root, get_kvc_root_folder,
    normalize_path, parent_dir, read_file, segment_hash, strip_root_prefix, AddCommand, ExecutableCommand,
    FileStatus, KvcError, ObjectStore, Probe, StagingArea, StatusCommand, StatusReport,
};
use std::collections::HashMap;

const HELLO_DIGEST: &str = "2cf24dba5fb0a30e26e83b2ac5b9e29e1b161e5c1fa7425e73043362938b9824";

#[test]
fn digest_of_hello_is_sha256_hex() {
    assert_eq!(generate_hash(b"hello"), HELLO_DIGEST);
}

#[test]
fn digest_of_empty_content() {
    assert_eq!(
        generate_hash(b""),
        "e3b0c44298fc1c149afbf4c8996fb92427ae41e4649b934ca495991b7852b855"
    );
}

#[test]
fn digest_is_deterministic_and_distinguishes_sizes() {
    let one_byte = vec![b'a'];
    let large: Vec<u8> = (0..1000u32).map(|i| (i % 251) as u8).collect();
    assert_eq!(generate_hash(&one_byte), generate_hash(&one_byte));
    assert_eq!(generate_hash(&large), generate_hash(&large));
    assert_ne!(generate_hash(&one_byte), generate_hash(&large));
    let h = generate_hash(&large);
    assert_eq!(h.len(), 64);
    assert!(h.chars().all(|c| c.is_ascii_digit() || ('a'..='f').contains(&c)));
}

#[test]
fn chunked_read_matches_whole_read() {
    let whole: Vec<u8> = (0..2500u32).map(|i| (i % 256) as u8).collect();
    let chunks: Vec<Vec<u8>> = whole.chunks(1024).map(|c| c.to_vec()).collect();
    let assembled = read_file(&chunks);
    assert_eq!(assembled, whole);
    assert_eq!(generate_hash(&assembled), generate_hash(&whole));
    assert_eq!(read_file(&vec![whole.clone()]), whole);
    assert_eq!(read_file(&Vec::new()), Vec::<u8>::new());
}

#[test]
fn chunked_read_keeps_split_multibyte_characters() {
    let text = "héllo wörld".as_bytes().to_vec();
    let chunks = vec![text[..2].to_vec(), text[2..].to_vec()];
    assert_eq!(read_file(&chunks), text);
}

#[test]
fn segment_hash_splits_after_two_characters() {
    let (prefix, suffix) = segment_hash(HELLO_DIGEST);
    assert_eq!(prefix, "2c");
    assert_eq!(suffix, &HELLO_DIGEST[2..]);
    assert_eq!(suffix.len(), 62);
}

#[test]
fn object_locations_are_sharded() {
    let store = ObjectStore::new("/r");
    assert_eq!(store.objects_root(), "/r/.kvc/objects");
    assert_eq!(store.prefix_dir(HELLO_DIGEST), "/r/.kvc/objects/2c");
    assert_eq!(
        store.object_path(HELLO_DIGEST),
        format!("/r/.kvc/objects/2c/{}", &HELLO_DIGEST[2..])
    );
}

#[test]
fn put_twice_keeps_one_object() {
    let store = ObjectStore::new("/r");
    let content = b"hello".to_vec();
    let digest = generate_hash(&content);
    let mut files: HashMap<String, Vec<u8>> = HashMap::new();
    for _ in 0..3 {
        let plan = store.put(&digest, files.contains_key(&store.object_path(&digest)));
        assert_eq!(plan.prefix_dir, "/r/.kvc/objects/2c");
        if plan.write {
            files.insert(plan.object_path.clone(), content.clone());
        }
    }
    assert_eq!(files.len(), 1);
    assert_eq!(files.get(&store.object_path(&digest)), Some(&content));
}

#[test]
fn put_writes_only_missing_objects() {
    let store = ObjectStore::new("/r");
    assert!(store.put(HELLO_DIGEST, false).write);
    assert!(!store.put(HELLO_DIGEST, true).write);
}

#[test]
fn empty_ledger_opens_empty() {
    let area = StagingArea::open("/r".to_string(), "").ok().unwrap();
    assert_eq!(area.get("a.txt"), None);
    assert_eq!(area.save(), "");
    assert_eq!(area.root_path(), "/r");
}

#[test]
fn staging_round_trip() {
    let mut area = StagingArea::open("/r".to_string(), "").ok().unwrap();
    let ledger = area.add("a/b.txt".to_string(), HELLO_DIGEST.to_string()).unwrap();
    assert_eq!(ledger, format!("a/b.txt||{}", HELLO_DIGEST));
    let reopened = StagingArea::open("/r".to_string(), &ledger).ok().unwrap();
    assert_eq!(reopened.get("a/b.txt"), Some(HELLO_DIGEST.to_string()));

    let mut area = reopened;
    let ledger = area.remove("a/b.txt");
    assert_eq!(ledger, "");
    let reopened = StagingArea::open("/r".to_string(), &ledger).ok().unwrap();
    assert_eq!(reopened.get("a/b.txt"), None);
}

#[test]
fn add_overwrites_and_keeps_order() {
    let mut area = StagingArea::open("/r".to_string(), "").ok().unwrap();
    area.add("x".to_string(), "1".to_string()).unwrap();
    area.add("y".to_string(), "2".to_string()).unwrap();
    let ledger = area.add("x".to_string(), "3".to_string()).unwrap();
    assert_eq!(ledger, "x||3\ny||2");
    assert_eq!(area.get("x"), Some("3".to_string()));
}

#[test]
fn remove_of_absent_path_is_no_error() {
    let mut area = StagingArea::open("/r".to_string(), "x||1").ok().unwrap();
    assert_eq!(area.remove("nope"), "x||1");
    assert_eq!(area.get("x"), Some("1".to_string()));
}

#[test]
fn ledger_with_repeated_path_keeps_last() {
    let area = StagingArea::open("/r".to_string(), "a||1\nb||2\na||3").ok().unwrap();
    assert_eq!(area.get("a"), Some("3".to_string()));
    assert_eq!(area.get("b"), Some("2".to_string()));
}

#[test]
fn ledger_line_splits_at_last_delimiter() {
    let area = StagingArea::open("/r".to_string(), "a|b||c\nx||y||z").ok().unwrap();
    assert_eq!(area.get("a|b"), Some("c".to_string()));
    assert_eq!(area.get("x||y"), Some("z".to_string()));
}

#[test]
fn paths_with_bars_round_trip() {
    let mut area = StagingArea::open("/r".to_string(), "").ok().unwrap();
    area.add("a|".to_string(), "1".to_string()).unwrap();
    let ledger = area.add("b||c".to_string(), "2".to_string()).unwrap();
    let reopened = StagingArea::open("/r".to_string(), &ledger).ok().unwrap();
    assert_eq!(reopened.get("a|"), Some("1".to_string()));
    assert_eq!(reopened.get("b||c"), Some("2".to_string()));
}

#[test]
fn corrupt_ledger_is_refused() {
    assert_eq!(
        StagingArea::open("/r".to_string(), "a||1\nbroken").err(),
        Some(KvcError::CorruptIndex)
    );
    assert_eq!(
        StagingArea::open("/r".to_string(), "a||1\n").err(),
        Some(KvcError::CorruptIndex)
    );
}

#[test]
fn read_merges_and_fails_without_change() {
    let mut area = StagingArea::open("/r".to_string(), "a||1").ok().unwrap();
    assert!(area.read("b||2\na||9").is_ok());
    assert_eq!(area.get("a"), Some("9".to_string()));
    assert_eq!(area.get("b"), Some("2".to_string()));
    assert_eq!(area.read("c||3\nbad"), Err(KvcError::CorruptIndex));
    assert_eq!(area.get("c"), None);
}

#[test]
fn unstorable_paths_are_refused() {
    let mut area = StagingArea::open("/r".to_string(), "").ok().unwrap();
    assert_eq!(area.add("a\nb".to_string(), "1".to_string()), Err(KvcError::InvalidPath));
    assert_eq!(area.add("a".to_string(), "1\n".to_string()), Err(KvcError::InvalidPath));
    assert_eq!(area.add("a".to_string(), "1||2".to_string()), Err(KvcError::InvalidPath));
    assert_eq!(area.add("a".to_string(), "|1".to_string()), Err(KvcError::InvalidPath));
    assert!(StagingArea::is_storable("a||b|", "1|"));
    assert_eq!(area.save(), "");
}

#[test]
fn parent_dirs() {
    assert_eq!(parent_dir("/a/b/c"), Some("/a/b".to_string()));
    assert_eq!(parent_dir("/a"), Some("/".to_string()));
    assert_eq!(parent_dir("/"), None);
    assert_eq!(parent_dir("name"), None);
}

#[test]
fn candidates_run_up_to_the_filesystem_root() {
    assert_eq!(candidate_roots("/r/a/b"), vec!["/r/a/b", "/r/a", "/r", "/"]);
    assert_eq!(candidate_roots("/"), vec!["/"]);
}

#[test]
fn locate_from_three_levels_below() {
    let start = "/r/a/b/c";
    let candidates = candidate_roots(start);
    assert_eq!(candidates.len(), 5);
    let probes: Vec<Probe> = candidates
        .iter()
        .map(|c| if c == "/r" { Probe::Found } else { Probe::Absent })
        .collect();
    assert_eq!(get_kvc_root_folder(start, &probes), (true, "/r".to_string()));
}

#[test]
fn locate_without_repository() {
    let start = "/x/y";
    let probes = vec![Probe::Absent; candidate_roots(start).len()];
    assert_eq!(get_kvc_root_folder(start, &probes), (false, String::new()));
}

#[test]
fn locate_stops_at_unreadable_directory() {
    let probes = vec![Probe::Absent, Probe::Unreadable, Probe::Found];
    assert_eq!(get_kvc_root_folder("/a/b", &probes), (false, String::new()));
}

#[test]
fn locate_finds_nearest_repository() {
    let probes = vec![Probe::Found, Probe::Found, Probe::Found];
    assert_eq!(get_kvc_root_folder("/a/b", &probes), (true, "/a/b".to_string()));
}

#[test]
fn paths_relative_to_root() {
    assert_eq!(strip_root_prefix("/r", "/r/a/b.txt"), Some("a/b.txt".to_string()));
    assert_eq!(strip_root_prefix("/r", "/r"), Some(String::new()));
    assert_eq!(strip_root_prefix("/r", "/rx/a"), None);
    assert_eq!(strip_root_prefix("/", "/a"), Some("a".to_string()));
    assert_eq!(get_file_path_relative_to_root("/r", "/r/a", "b.txt"), Ok("a/b.txt".to_string()));
    assert_eq!(get_file_path_relative_to_root("/r", "/r", "b.txt"), Ok("b.txt".to_string()));
    assert_eq!(get_file_path_relative_to_root("/r", "/elsewhere", "b.txt"), Err(KvcError::InvalidPath));
}

#[test]
fn relative_paths_resolve_dot_and_dotdot() {
    assert_eq!(get_file_path_relative_to_root("/r", "/r", "./a.txt"), Ok("a.txt".to_string()));
    assert_eq!(get_file_path_relative_to_root("/r", "/r", "sub/../a.txt"), Ok("a.txt".to_string()));
    assert_eq!(get_file_path_relative_to_root("/r", "/r/sub", "../a.txt"), Ok("a.txt".to_string()));
    assert_eq!(get_file_path_relative_to_root("/r", "/q", "/r/a/b"), Ok("a/b".to_string()));
    assert_eq!(get_file_path_relative_to_root("/r", "/r", "../x"), Err(KvcError::InvalidPath));
    assert_eq!(get_file_path_relative_to_root("/r/", "/r//a/", "b.txt"), Ok("a/b.txt".to_string()));
}

#[test]
fn normalised_paths() {
    assert_eq!(normalize_path("/r/../x"), "/x");
    assert_eq!(normalize_path("/a/./b//c/"), "/a/b/c");
    assert_eq!(normalize_path("/.."), "/");
    assert_eq!(normalize_path("/"), "/");
    assert_eq!(normalize_path("a/b/../c"), "a/c");
    assert_eq!(normalize_path(""), "");
}

#[test]
fn repeated_add_leaves_ledger_and_store_unchanged() {
    let add = AddCommand::new(vec!["b.txt".to_string()], "/r".to_string()).ok().unwrap();
    let mut index = StagingArea::open("/r".to_string(), "x||1").ok().unwrap();
    let store = ObjectStore::new("/r");
    let mut files: HashMap<String, Vec<u8>> = HashMap::new();
    let mut ledgers = Vec::new();
    for _ in 0..3 {
        let added = add.process_file(&mut index, "/r", "b.txt", b"hello").ok().unwrap();
        let plan = store.put(&added.digest, files.contains_key(&plan_path(&store, &added.digest)));
        if plan.write {
            files.insert(plan.object_path.clone(), b"hello".to_vec());
        }
        ledgers.push(added.ledger);
    }
    assert_eq!(ledgers[1], ledgers[0]);
    assert_eq!(ledgers[2], ledgers[0]);
    assert_eq!(files.len(), 1);
}

fn plan_path(store: &ObjectStore, digest: &str) -> String {
    store.object_path(digest)
}

fn status_of(index: &StagingArea, path: &str, content: &[u8]) -> StatusReport {
    let status = StatusCommand::new(Vec::new(), "/r".to_string()).ok().unwrap();
    let mut report = StatusReport::new();
    status.process_file(path, content, index, &mut report).unwrap();
    report
}

#[test]
fn status_classification() {
    let mut index = StagingArea::open("/r".to_string(), "").ok().unwrap();
    index.add("a.txt".to_string(), generate_hash(b"X")).unwrap();

    let report = status_of(&index, "/r/a.txt", b"X");
    assert_eq!(report.staged, vec!["a.txt"]);
    assert!(report.modified.is_empty() && report.untracked.is_empty());

    let report = status_of(&index, "/r/a.txt", b"Y");
    assert_eq!(report.modified, vec!["a.txt"]);
    assert!(report.staged.is_empty() && report.untracked.is_empty());

    let report = status_of(&index, "/r/new.txt", b"X");
    assert_eq!(report.untracked, vec!["new.txt"]);
    assert!(report.staged.is_empty() && report.modified.is_empty());
    assert!(!report.is_empty());
    assert!(StatusReport::new().is_empty());
}

#[test]
fn status_of_file_outside_root_is_refused() {
    let index = StagingArea::open("/r".to_string(), "").ok().unwrap();
    let status = StatusCommand::new(Vec::new(), "/r".to_string()).ok().unwrap();
    let mut report = StatusReport::new();
    assert_eq!(status.process_file("/other/a.txt", b"X", &index, &mut report), Err(KvcError::InvalidPath));
    assert!(report.is_empty());
}

#[test]
fn file_status_values() {
    let index = StagingArea::open("/r".to_string(), "a||h1").ok().unwrap();
    assert_eq!(kvc::file_status(&index, "a", "h1"), FileStatus::Staged);
    assert_eq!(kvc::file_status(&index, "a", "h2"), FileStatus::Modified);
    assert_eq!(kvc::file_status(&index, "b", "h1"), FileStatus::Untracked);
}

#[test]
fn status_walk_skips_metadata_folder() {
    assert!(StatusCommand::skips(".kvc"));
    assert!(StatusCommand::skips(".kvc/index"));
    assert!(!StatusCommand::skips(".kvcx"));
    assert!(!StatusCommand::skips("src/.kvc"));
}

#[test]
fn add_hello_then_status_is_staged() {
    let root = "/r";
    let add = AddCommand::new(vec!["b.txt".to_string()], root.to_string()).ok().unwrap();
    let mut index = StagingArea::open(root.to_string(), "").ok().unwrap();
    let added = add.process_file(&mut index, "/r/a", "b.txt", b"hello").ok().unwrap();
    assert_eq!(added.digest, HELLO_DIGEST);

    let store = ObjectStore::new(root);
    let plan = store.put(&added.digest, false);
    assert_eq!(plan.prefix_dir, "/r/.kvc/objects/2c");
    assert!(plan.object_path.starts_with("/r/.kvc/objects/2c/f24"));
    assert_eq!(plan.object_path, format!("/r/.kvc/objects/2c/{}", &HELLO_DIGEST[2..]));
    assert_eq!(added.ledger, format!("a/b.txt||{}", HELLO_DIGEST));

    let reopened = StagingArea::open(root.to_string(), &added.ledger).ok().unwrap();
    let report = status_of(&reopened, "/r/a/b.txt", b"hello");
    assert_eq!(report.staged, vec!["a/b.txt"]);
    assert!(report.modified.is_empty() && report.untracked.is_empty());
}
