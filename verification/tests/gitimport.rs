use mononoke::gitimport::changes::{
    change_step, do_upload, find_file_changes, step_outcome, BonsaiDiffFileChange, ChangeOutcome,
    ChangeStep, ContentMetadata, UPLOAD_CONCURRENCY,
};
use mononoke::gitimport::import::{
    check_tree, distinct_parent_trees, GitCommit, GitImport, ImportError, ParentCommit, Timestamp,
};
use mononoke::gitimport::manifest::{
    load_git_tree, Entry, FileType, GitLeaf, GitTree, LoadTreeError, ObjectKind, TreeEntry,
};
use mononoke::gitimport::oid::Oid;
use mononoke::gitimport::path::{MPath, MPathElement};
use std::collections::hash_map::DefaultHasher;
use std::hash::{Hash, Hasher};

fn oid(n: u8) -> Oid {
    Oid { raw: [n; 20] }
}

fn element(name: &str) -> MPathElement {
    MPathElement { bytes: name.as_bytes().to_vec() }
}

fn path(name: &str) -> MPath {
    MPath { elements: name.split('/').map(element).collect() }
}

#[test]
fn an_id_has_twenty_bytes() {
    let mut raw = [0u8; 20];
    for i in 0..20 {
        raw[i] = i as u8;
    }
    assert_eq!(Oid::from_bytes(&raw), Some(Oid { raw }));
    assert_eq!(Oid::from_bytes(&raw[1..]), None);
    assert_eq!(Oid::from_bytes(&[]), None);
    assert_eq!(Oid::from_bytes(&[1u8; 21]), None);
}

#[test]
fn an_id_is_written_in_hexadecimal_digits() {
    let mut raw = [0u8; 20];
    raw[0] = 0xde;
    raw[1] = 0xcb;
    raw[2] = 0x0f;
    raw[19] = 0xa7;
    assert_eq!(Oid { raw }.to_hex(), "decb0f00000000000000000000000000000000a7");
    assert_ne!(oid(1).to_hex(), oid(16).to_hex());
    assert!(oid(1) == oid(1));
    assert!(oid(1) != oid(2));
}

fn entry(name: &str, kind: Option<ObjectKind>, filemode: i32, n: u8) -> TreeEntry {
    TreeEntry { oid: oid(n), filemode, name: Ok(element(name)), kind }
}

#[test]
fn a_tree_becomes_a_manifest() {
    let manifest = load_git_tree(vec![
        entry("plain", Some(ObjectKind::Blob), 0o100644, 1),
        entry("program", Some(ObjectKind::Blob), 0o100755, 2),
        entry("link", Some(ObjectKind::Blob), 0o120000, 3),
        entry("dir", Some(ObjectKind::Tree), 0o040000, 4),
    ])
    .unwrap_or_else(|e| panic!("{:?}", e));
    let is_leaf = |name: &str, file_type: FileType, n: u8| match manifest.lookup(&element(name)) {
        Some(Entry::Leaf(ft, GitLeaf(id))) => ft == file_type && id == oid(n),
        _ => false,
    };
    assert!(is_leaf("plain", FileType::Regular, 1));
    assert!(is_leaf("program", FileType::Executable, 2));
    assert!(is_leaf("link", FileType::Symlink, 3));
    match manifest.lookup(&element("dir")) {
        Some(Entry::Tree(GitTree(id))) => assert!(id == oid(4)),
        other => panic!("{:?}", other),
    }
    assert!(manifest.lookup(&element("other")).is_none());
    let names: Vec<Vec<u8>> = manifest.list().into_iter().map(|(name, _)| name.bytes).collect();
    assert_eq!(
        names,
        vec![b"plain".to_vec(), b"program".to_vec(), b"link".to_vec(), b"dir".to_vec()]
    );
}

fn load_error(entries: Vec<TreeEntry>) -> LoadTreeError {
    match load_git_tree(entries) {
        Ok(_) => panic!("the tree was loaded"),
        Err(e) => e,
    }
}

#[test]
fn entries_that_cannot_be_read_stop_the_load() {
    let bad_mode = entry("a", Some(ObjectKind::Blob), 0o100600, 1);
    assert!(matches!(load_error(vec![bad_mode]), LoadTreeError::InvalidFilemode(0o100600)));
    let submodule = entry("a", Some(ObjectKind::Commit), 0o160000, 1);
    assert!(matches!(
        load_error(vec![submodule]),
        LoadTreeError::InvalidKind(Some(ObjectKind::Commit))
    ));
    let unknown = entry("a", None, 0o100644, 1);
    assert!(matches!(load_error(vec![unknown]), LoadTreeError::InvalidKind(None)));
    let mut bad_name = entry("a", None, 0, 1);
    bad_name.name = Err("empty".to_string());
    match load_error(vec![bad_name]) {
        LoadTreeError::InvalidName(message) => assert_eq!(message, "empty"),
        other => panic!("{:?}", other),
    }
}

#[test]
fn the_first_bad_entry_decides() {
    let good = entry("good", Some(ObjectKind::Tree), 0o040000, 1);
    let first = entry("first", Some(ObjectKind::Blob), 7, 2);
    let second = entry("second", Some(ObjectKind::Tag), 0, 3);
    assert!(matches!(
        load_error(vec![good, first, second]),
        LoadTreeError::InvalidFilemode(7)
    ));
}

#[test]
fn an_empty_tree_is_an_empty_manifest() {
    assert!(load_git_tree(vec![]).unwrap_or_else(|e| panic!("{:?}", e)).list().is_empty());
}

#[test]
fn an_upload_says_what_is_uploaded() {
    let request = do_upload(oid(5), b"hello");
    assert_eq!(&request.content[..], b"hello");
    assert_eq!(request.size, 5);
    assert_eq!(&request.git_sha1.sha1[..], &[5u8; 20][..]);
    assert_eq!(request.git_sha1.ty, "blob");
    assert_eq!(request.git_sha1.size, 5);
    assert_eq!(do_upload(oid(5), b"").size, 0);
    assert_eq!(UPLOAD_CONCURRENCY, 100);
}

#[test]
fn changed_files_are_uploaded_and_deleted_ones_are_not() {
    let leaf = GitLeaf(oid(1));
    match change_step(BonsaiDiffFileChange::Changed(path("a/b"), FileType::Regular, leaf)) {
        ChangeStep::Upload(p, FileType::Regular, id) => {
            assert_eq!(p.elements[1].bytes, b"b");
            assert!(id == oid(1));
        }
        other => panic!("{:?}", other),
    }
    match change_step(BonsaiDiffFileChange::ChangedReusedId(path("c"), FileType::Symlink, leaf)) {
        ChangeStep::Upload(_, FileType::Symlink, id) => assert!(id == oid(1)),
        other => panic!("{:?}", other),
    }
    match change_step(BonsaiDiffFileChange::Deleted(path("d"))) {
        ChangeStep::Delete(p) => assert_eq!(p.elements[0].bytes, b"d"),
        other => panic!("{:?}", other),
    }
}

fn stored(name: &str, id: u32, size: u64) -> ChangeOutcome<u32> {
    let meta = ContentMetadata { content_id: id, total_size: size };
    ChangeOutcome::Stored(path(name), FileType::Executable, meta)
}

#[test]
fn outcomes_become_file_changes() {
    let changes =
        find_file_changes(vec![stored("a/b", 7, 70), ChangeOutcome::Deleted(path("gone"))]);
    assert_eq!(changes.len(), 2);
    match changes.get(&path("a/b")) {
        Some(Some(change)) => {
            assert_eq!(change.content_id, 7);
            assert_eq!(change.file_type, FileType::Executable);
            assert_eq!(change.size, 70);
            assert!(change.copy_from.is_none());
        }
        other => panic!("{:?}", other),
    }
    assert!(matches!(changes.get(&path("gone")), Some(None)));
    assert!(changes.get(&path("a")).is_none());
    assert!(changes.get(&path("a/b/c")).is_none());
    assert_eq!(changes.entries().len(), 2);
}

#[test]
fn the_order_of_outcomes_is_irrelevant() {
    let one = find_file_changes(vec![stored("a", 1, 10), stored("b", 2, 20)]);
    let two = find_file_changes(vec![stored("b", 2, 20), stored("a", 1, 10)]);
    for name in vec!["a", "b", "c"] {
        assert_eq!(
            format!("{:?}", one.get(&path(name))),
            format!("{:?}", two.get(&path(name)))
        );
    }
}

fn commit(n: u8, parents: Vec<u8>) -> GitCommit {
    GitCommit {
        id: oid(n),
        tree: oid(100 + n),
        parents: parents
            .into_iter()
            .map(|p| ParentCommit { id: oid(p), tree: oid(100 + p) })
            .collect(),
        author: Some("author".to_string()),
        message: Some("message".to_string()),
        seconds: 1000 + n as i64,
        offset_minutes: -90,
    }
}

fn import_commit(import: GitImport<u32, String>, commit: GitCommit, id: u32) -> GitImport<u32, String> {
    let started = match import.start_commit(commit) {
        Ok(started) => started,
        Err(e) => panic!("{:?}", e),
    };
    let (finished, changeset) = started.finish_commit(find_file_changes::<u32>(vec![]));
    finished.record(format!("{:?}", changeset.parents), id)
}

fn import_error(import: GitImport<u32, String>, commit: GitCommit) -> ImportError {
    match import.start_commit(commit) {
        Ok(_) => panic!("the commit was started"),
        Err(e) => e,
    }
}

#[test]
fn commits_become_changesets_in_order() {
    let import = GitImport::new(true, false);
    let import = import_commit(import, commit(1, vec![]), 11);
    let import = import_commit(import, commit(2, vec![1]), 12);
    let import = import_commit(import, commit(3, vec![1]), 13);
    let import = import_commit(import, commit(4, vec![3, 2]), 14);
    let (changesets, imported) = import.finish();
    assert_eq!(changesets, vec!["[]", "[11]", "[11]", "[13, 12]"]);
    assert_eq!(imported.reference(&oid(3)), Some(13));
    assert_eq!(imported.reference(&oid(4)), Some(14));
    assert_eq!(imported.reference(&oid(5)), None);
    let to_check: Vec<u32> = imported.trees_to_check().into_iter().map(|(_, id)| id).collect();
    assert_eq!(to_check, vec![11, 12, 13, 14]);
    assert_eq!(imported.valid_trees(), Some(4));
}

#[test]
fn trees_are_checked_only_if_asked_for() {
    let import = import_commit(GitImport::new(false, false), commit(1, vec![]), 11);
    let (_, imported) = import.finish();
    assert!(imported.trees_to_check().is_empty());
    assert_eq!(imported.valid_trees(), None);
    assert_eq!(imported.reference(&oid(1)), Some(11));
}

#[test]
fn a_commit_needs_an_author_and_its_parents() {
    let mut nobody = commit(1, vec![9]);
    nobody.author = None;
    match import_error(GitImport::new(false, false), nobody) {
        ImportError::NoAuthor(id) => assert!(id == oid(1)),
        other => panic!("{:?}", other),
    }
    let import = import_commit(GitImport::new(false, false), commit(1, vec![]), 11);
    match import_error(import, commit(2, vec![1, 8, 9])) {
        ImportError::NotImported(id) => assert!(id == oid(8)),
        other => panic!("{:?}", other),
    }
}

#[test]
fn a_changeset_says_what_the_commit_says() {
    let import: GitImport<u32, String> = GitImport::new(false, true);
    let started = import.start_commit(commit(7, vec![])).unwrap_or_else(|e| panic!("{:?}", e));
    let changes = find_file_changes(vec![stored("a", 1, 10)]);
    let (_, changeset) = started.finish_commit(changes);
    assert_eq!(changeset.author, "author");
    assert_eq!(changeset.message, "message");
    assert_eq!(changeset.author_date, Timestamp { seconds: 1007, offset_seconds: -5400 });
    assert!(changeset.committer.is_none());
    assert!(changeset.committer_date.is_none());
    assert_eq!(
        changeset.extra,
        vec![(
            "convert_revision".to_string(),
            b"0707070707070707070707070707070707070707".to_vec()
        )]
    );
    assert_eq!(changeset.file_changes.len(), 1);
}

#[test]
fn a_commit_may_have_no_message_and_no_extras() {
    let import: GitImport<u32, String> = GitImport::new(false, false);
    let mut silent = commit(1, vec![]);
    silent.message = None;
    let started = import.start_commit(silent).unwrap_or_else(|e| panic!("{:?}", e));
    let (_, changeset) = started.finish_commit(find_file_changes::<u32>(vec![]));
    assert_eq!(changeset.message, "");
    assert!(changeset.extra.is_empty());
}

#[test]
fn parents_with_one_tree_are_compared_once() {
    let parents = vec![
        ParentCommit { id: oid(1), tree: oid(50) },
        ParentCommit { id: oid(2), tree: oid(51) },
        ParentCommit { id: oid(3), tree: oid(50) },
    ];
    let trees: Vec<String> =
        distinct_parent_trees(&parents).into_iter().map(|tree| tree.0.to_hex()).collect();
    assert_eq!(trees, vec![oid(50).to_hex(), oid(51).to_hex()]);
    let import: GitImport<u32, String> = GitImport::new(false, false);
    let started = import.start_commit(commit(3, vec![])).unwrap_or_else(|e| panic!("{:?}", e));
    assert!(started.diff().root.0 == oid(103));
    assert!(started.diff().parents.is_empty());
}

#[test]
fn derived_trees_are_held_against_git() {
    assert!(check_tree(oid(1), oid(2), &[2u8; 20]).is_ok());
    match check_tree(oid(1), oid(2), &[3u8; 20]) {
        Err(ImportError::InvalidTree { commit, derived, expected }) => {
            assert!(commit == oid(1));
            assert!(derived == oid(3));
            assert!(expected == oid(2));
        }
        other => panic!("{:?}", other),
    }
    match check_tree(oid(1), oid(2), &[2u8; 19]) {
        Err(ImportError::InvalidTreeId(commit)) => assert!(commit == oid(1)),
        other => panic!("{:?}", other),
    }
}

#[test]
fn errors_of_a_tree_say_what_is_wrong() {
    let message = |kind, filemode| load_error(vec![entry("x", kind, filemode, 1)]).message();
    assert_eq!(message(Some(ObjectKind::Blob), 0o100664), "Invalid filemode: 33204");
    assert_eq!(message(Some(ObjectKind::Blob), -1), "Invalid filemode: -1");
    assert_eq!(message(Some(ObjectKind::Commit), 0o160000), "Invalid kind: Some(Commit)");
    assert_eq!(message(Some(ObjectKind::Tag), 0), "Invalid kind: Some(Tag)");
    assert_eq!(message(Some(ObjectKind::Any), 0), "Invalid kind: Some(Any)");
    assert_eq!(message(None, 0), "Invalid kind: None");
    assert_eq!(LoadTreeError::InvalidName("bad name".to_string()).message(), "bad name");
    assert_eq!(ObjectKind::Tree.name(), "Tree");
    assert_eq!(ObjectKind::Blob.name(), "Blob");
}

#[test]
fn errors_of_an_import_say_what_is_wrong() {
    let mut nameless = commit(7, vec![]);
    nameless.author = None;
    let ones = "01".repeat(20);
    let twos = "02".repeat(20);
    let sevens = "07".repeat(20);
    assert_eq!(
        import_error(GitImport::new(false, false), nameless).message(),
        format!("Commit has no author: {}", sevens),
    );
    assert_eq!(
        import_error(GitImport::new(false, false), commit(7, vec![2, 1])).message(),
        format!("Commit was not imported: {}", twos),
    );
    assert_eq!(
        check_tree(oid(7), oid(1), &[2; 20]).unwrap_err().message(),
        format!("Invalid tree was derived for {}: {} (expected {})", sevens, twos, ones),
    );
    let short = check_tree(oid(7), oid(1), &[2; 19]).unwrap_err().message();
    assert_eq!(short, git2::Oid::from_bytes(&[2; 19]).unwrap_err().message());
}

#[test]
fn a_walk_needs_parents_before_children() {
    let import = import_commit(GitImport::new(false, false), commit(1, vec![]), 10);
    let import = import_commit(import, commit(2, vec![1]), 20);
    let import = import_commit(import, commit(3, vec![2, 1]), 30);
    let (changesets, imported) = import.finish();
    assert_eq!(changesets.len(), 3);
    assert_eq!(imported.reference(&oid(1)), Some(10));
    assert_eq!(imported.reference(&oid(2)), Some(20));
    assert_eq!(imported.reference(&oid(3)), Some(30));
    assert_eq!(imported.reference(&oid(4)), None);

    let import = import_commit(GitImport::new(false, false), commit(1, vec![]), 10);
    match import_error(import, commit(3, vec![1, 2])) {
        ImportError::NotImported(id) => assert!(id == oid(2)),
        e => panic!("{:?}", e),
    }
}

/// Imports `commits`, each under an id that stands for all that its changeset says.
fn import_all(derive_trees: bool, hggit: bool, commits: Vec<GitCommit>) -> GitImport<u64, String> {
    let mut import: GitImport<u64, String> = GitImport::new(derive_trees, hggit);
    for commit in commits {
        let started = import.start_commit(commit).unwrap_or_else(|e| panic!("{:?}", e));
        let root = started.diff().root.0.raw[0];
        let changes = find_file_changes(vec![stored("file", root as u32, 1)]);
        let (finished, changeset) = started.finish_commit(changes);
        let text = format!(
            "{:?} {:?} {:?} {:?} {:?} {:?}",
            changeset.parents,
            changeset.author,
            changeset.author_date,
            changeset.message,
            changeset.extra,
            changeset.file_changes.entries(),
        );
        let mut hasher = DefaultHasher::new();
        text.hash(&mut hasher);
        import = finished.record(text, hasher.finish());
    }
    import
}

#[test]
fn two_imports_give_a_shared_commit_one_id() {
    let first = vec![
        commit(1, vec![]),
        commit(2, vec![1]),
        commit(4, vec![1]),
        commit(3, vec![2, 4]),
    ];
    let second = vec![
        commit(9, vec![]),
        commit(1, vec![]),
        commit(4, vec![1]),
        commit(8, vec![9, 4]),
        commit(2, vec![1]),
        commit(3, vec![2, 4]),
    ];
    let (_, a) = import_all(false, true, first).finish();
    let (_, b) = import_all(true, true, second).finish();
    for n in 1..5 {
        assert!(a.reference(&oid(n)).is_some());
        assert_eq!(a.reference(&oid(n)), b.reference(&oid(n)));
    }
    assert_ne!(a.reference(&oid(1)), a.reference(&oid(2)));
    let (_, c) = import_all(false, false, vec![commit(1, vec![])]).finish();
    assert_ne!(a.reference(&oid(1)), c.reference(&oid(1)));
}

#[test]
fn checking_trees_does_not_change_what_is_saved() {
    let commits = || vec![commit(1, vec![]), commit(2, vec![1]), commit(3, vec![1, 2])];
    let (saved, unchecked) = import_all(false, false, commits()).finish();
    let (also_saved, checked) = import_all(true, false, commits()).finish();
    assert_eq!(saved, also_saved);
    assert_eq!(unchecked.reference(&oid(3)), checked.reference(&oid(3)));
    assert_eq!(unchecked.trees_to_check().len(), 0);
    assert_eq!(checked.trees_to_check().len(), 3);
}

#[test]
fn an_upload_is_recorded_for_the_step_that_asked_for_it() {
    let changed = BonsaiDiffFileChange::ChangedReusedId(
        path("a/b"),
        FileType::Symlink,
        GitLeaf(oid(5)),
    );
    let step = change_step(changed);
    assert!(step.upload() == Some(oid(5)));
    match step_outcome(step, Some(ContentMetadata { content_id: 8u32, total_size: 21 })) {
        ChangeOutcome::Stored(p, ty, meta) => {
            assert_eq!(p.elements.len(), 2);
            assert_eq!(p.elements[1].bytes, b"b");
            assert_eq!(ty, FileType::Symlink);
            assert_eq!((meta.content_id, meta.total_size), (8, 21));
        }
        outcome => panic!("{:?}", outcome),
    }
    let step = change_step(BonsaiDiffFileChange::Deleted(path("gone")));
    assert!(step.upload().is_none());
    match step_outcome::<u32>(step, None) {
        ChangeOutcome::Deleted(p) => assert_eq!(p.elements[0].bytes, b"gone"),
        outcome => panic!("{:?}", outcome),
    }
}
