use paperfold::store::Database;
use paperfold::store::FileMetadata;
use paperfold::store::Folder;

#[test]
fn create_folder_and_list_contents() {
    let mut db = Database::new();
    let docs = db.create_folder(&"Docs".to_string(), None, 100).unwrap();
    let sub = db.create_folder(&"Sub".to_string(), Some(docs.clone()), 110).unwrap();
    let row = db
        .add_file(Some(docs.clone()), &"a.txt".to_string(), 42, &"text/plain".to_string(), 7, 120)
        .unwrap();
    assert_eq!(row.size, 42);
    assert_eq!(row.folder_id, Some(docs.clone()));

    let (root_folders, root_files) = db.list_contents(None);
    assert_eq!(root_folders.len(), 1);
    assert_eq!(root_folders[0].name, "Docs");
    assert_eq!(root_folders[0].id, docs);
    assert_eq!(root_files.len(), 0);

    let (in_docs_folders, in_docs_files) = db.list_contents(Some(docs.clone()));
    assert_eq!(in_docs_folders.len(), 1);
    assert_eq!(in_docs_folders[0].id, sub);
    assert_eq!(in_docs_files.len(), 1);
    assert_eq!(in_docs_files[0].name, "a.txt");
}

#[test]
fn generated_ids_are_unique_and_hyphenated() {
    let mut db = Database::new();
    let mut ids: Vec<String> = Vec::new();
    for k in 0..10 {
        let id = db.create_folder(&format!("f{}", k), None, 100).unwrap();
        assert_eq!(id.chars().count(), 36);
        assert!(!ids.contains(&id));
        ids.push(id);
    }
}

#[test]
fn trash_then_restore_is_identity() {
    let mut db = Database::new();
    let docs = db.create_folder(&"Docs".to_string(), None, 100).unwrap();
    let row = db
        .add_file(Some(docs.clone()), &"a.txt".to_string(), 42, &"text/plain".to_string(), 7, 120)
        .unwrap();
    db.toggle_star(&row.id, false);

    db.trash_item(&row.id, false, 200);
    let (_, docs_files) = db.list_contents(Some(docs.clone()));
    assert_eq!(docs_files.len(), 0);
    let (_, trash_files) = db.list_trash();
    assert_eq!(trash_files.len(), 1);
    assert_eq!(trash_files[0].id, row.id);
    assert!(trash_files[0].trashed);
    assert_eq!(trash_files[0].trashed_at, Some(200));
    assert!(trash_files[0].is_starred);

    db.restore_item(&row.id, false);
    let (_, docs_files_again) = db.list_contents(Some(docs.clone()));
    assert_eq!(docs_files_again.len(), 1);
    let restored = &docs_files_again[0];
    assert_eq!(restored.id, row.id);
    assert!(!restored.trashed);
    assert_eq!(restored.trashed_at, None);
    assert!(restored.is_starred);
    assert_eq!(restored.name, "a.txt");
    assert_eq!(restored.size, 42);
}

#[test]
fn trash_folder_does_not_mark_children() {
    let mut db = Database::new();
    let a = db.create_folder(&"A".to_string(), None, 100).unwrap();
    let f = db
        .add_file(Some(a.clone()), &"f.bin".to_string(), 10, &"application/octet-stream".to_string(), 1, 110)
        .unwrap();
    db.trash_item(&a, true, 200);
    let child = db.get_file(&f.id).unwrap();
    assert!(!child.trashed);
    let (trash_folders, trash_files) = db.list_trash();
    assert_eq!(trash_folders.len(), 1);
    assert_eq!(trash_files.len(), 0);
    let (root_folders, _) = db.list_contents(None);
    assert_eq!(root_folders.len(), 0);
}

#[test]
fn toggle_star_twice_restores_state() {
    let mut db = Database::new();
    let a = db.create_folder(&"A".to_string(), None, 100).unwrap();
    assert!(db.toggle_star(&a, true));
    let (starred_folders, _) = db.get_starred();
    assert_eq!(starred_folders.len(), 1);
    assert!(db.toggle_star(&a, true));
    let (starred_again, _) = db.get_starred();
    assert_eq!(starred_again.len(), 0);
}

#[test]
fn toggle_star_unknown_id_reports_not_found() {
    let mut db = Database::new();
    assert!(!db.toggle_star(&"nope".to_string(), true));
    assert!(!db.toggle_star(&"nope".to_string(), false));
}

#[test]
fn rename_reports_found_or_not() {
    let mut db = Database::new();
    let a = db.create_folder(&"A".to_string(), None, 100).unwrap();
    let f = db
        .add_file(None, &"f.txt".to_string(), 1, &"text/plain".to_string(), 1, 110)
        .unwrap();
    assert!(db.rename_folder(&a, &"B".to_string()));
    assert!(db.rename_file(&f.id, &"g.txt".to_string()));
    assert!(!db.rename_folder(&"missing".to_string(), &"X".to_string()));
    assert!(!db.rename_file(&"missing".to_string(), &"X".to_string()));
    let (folders, files) = db.list_contents(None);
    assert_eq!(folders[0].name, "B");
    assert_eq!(files[0].name, "g.txt");
}

#[test]
fn delete_file_reports_existence() {
    let mut db = Database::new();
    let f = db
        .add_file(None, &"f.txt".to_string(), 1, &"text/plain".to_string(), 1, 110)
        .unwrap();
    assert!(db.delete_file(&f.id));
    assert!(!db.delete_file(&f.id));
    assert!(db.get_file(&f.id).is_none());
}

#[test]
fn delete_folder_cascades_one_level_only() {
    let mut db = Database::new();
    let a = db.create_folder(&"A".to_string(), None, 100).unwrap();
    let b = db.create_folder(&"B".to_string(), Some(a.clone()), 110).unwrap();
    let f = db
        .add_file(Some(a.clone()), &"F".to_string(), 5, &"text/plain".to_string(), 9, 120)
        .unwrap();

    let removed = db.delete_folder(&a);
    assert_eq!(removed.len(), 1);
    assert_eq!(removed[0].id, f.id);

    // A and F are gone; B survives with its parent reference dangling.
    let (root_folders, _) = db.list_contents(None);
    assert_eq!(root_folders.len(), 0);
    assert!(db.get_file(&f.id).is_none());
    let (under_a, _) = db.list_contents(Some(a.clone()));
    assert_eq!(under_a.len(), 1);
    assert_eq!(under_a[0].id, b);
    assert_eq!(under_a[0].parent_id, Some(a.clone()));
}

#[test]
fn cleanup_trash_removes_exactly_the_expired() {
    let mut db = Database::new();
    let old_folder = db.create_folder(&"OldFolder".to_string(), None, 10).unwrap();
    let keep_folder = db.create_folder(&"KeepFolder".to_string(), None, 10).unwrap();
    let child = db
        .add_file(Some(old_folder.clone()), &"child".to_string(), 1, &"x".to_string(), 1, 10)
        .unwrap();
    let expired = db
        .add_file(None, &"expired".to_string(), 2, &"x".to_string(), 2, 10)
        .unwrap();
    let recent = db
        .add_file(None, &"recent".to_string(), 3, &"x".to_string(), 3, 10)
        .unwrap();

    db.trash_item(&old_folder, true, 100);
    db.trash_item(&expired.id, false, 100);
    db.trash_item(&recent.id, false, 1000);

    // Cutoff is now - days * 86400 = 500: strictly earlier timestamps go.
    let removed = db.cleanup_trash(0, 500);
    let removed_ids: Vec<String> = removed.iter().map(|f| f.id.clone()).collect();
    assert_eq!(removed.len(), 2);
    assert!(removed_ids.contains(&expired.id));
    assert!(removed_ids.contains(&child.id));

    assert!(db.get_file(&recent.id).is_some());
    assert!(db.get_file(&child.id).is_none());
    assert!(db.get_file(&expired.id).is_none());
    let (trash_folders, trash_files) = db.list_trash();
    assert_eq!(trash_folders.len(), 0);
    assert_eq!(trash_files.len(), 1);
    assert_eq!(trash_files[0].id, recent.id);
    let (root_folders, _) = db.list_contents(None);
    assert_eq!(root_folders.len(), 1);
    assert_eq!(root_folders[0].id, keep_folder);
}

#[test]
fn usage_counts_only_untrashed_files() {
    let mut db = Database::new();
    let a = db
        .add_file(None, &"a".to_string(), 100, &"x".to_string(), 1, 10)
        .unwrap();
    let _b = db
        .add_file(None, &"b".to_string(), 50, &"x".to_string(), 2, 10)
        .unwrap();
    assert_eq!(db.get_total_usage(), 150);
    assert_eq!(db.total_bytes(), 150);

    db.trash_item(&a.id, false, 20);
    assert_eq!(db.get_total_usage(), 50);
    assert_eq!(db.total_bytes(), 150);

    db.restore_item(&a.id, false);
    assert_eq!(db.get_total_usage(), 150);
}

#[test]
fn search_matches_substrings_case_sensitively() {
    let mut db = Database::new();
    let _alpha = db.create_folder(&"Alpha".to_string(), None, 10).unwrap();
    let _beta = db.create_folder(&"beta".to_string(), None, 10).unwrap();
    let hit = db
        .add_file(None, &"alphabet.txt".to_string(), 1, &"x".to_string(), 1, 10)
        .unwrap();
    let hidden = db
        .add_file(None, &"alpha-old.txt".to_string(), 1, &"x".to_string(), 2, 10)
        .unwrap();
    db.trash_item(&hidden.id, false, 20);

    let (folders, files) = db.search_items(&"lpha".to_string());
    assert_eq!(folders.len(), 1);
    assert_eq!(folders[0].name, "Alpha");
    assert_eq!(files.len(), 1);
    assert_eq!(files[0].id, hit.id);

    let (upper_folders, upper_files) = db.search_items(&"LPHA".to_string());
    assert_eq!(upper_folders.len(), 0);
    assert_eq!(upper_files.len(), 0);

    let (all_folders, all_files) = db.search_items(&"".to_string());
    assert_eq!(all_folders.len(), 2);
    assert_eq!(all_files.len(), 1);
}

#[test]
fn load_accepts_consistent_rows() {
    let folder = Folder {
        id: "folder-1".to_string(),
        parent_id: None,
        name: "A".to_string(),
        created_at: 1,
        trashed: false,
        trashed_at: None,
        is_starred: false,
    };
    let file = FileMetadata {
        id: "file-1".to_string(),
        folder_id: Some("folder-1".to_string()),
        name: "f".to_string(),
        size: 9,
        mime_type: "x".to_string(),
        message_id: 4,
        created_at: 2,
        trashed: true,
        trashed_at: Some(5),
        is_starred: false,
    };
    let db = Database::load(vec![folder], vec![file]).unwrap();
    assert_eq!(db.get_total_usage(), 0);
    let (_, trash_files) = db.list_trash();
    assert_eq!(trash_files.len(), 1);
}

#[test]
fn load_refuses_duplicate_ids() {
    let mk = |id: &str| Folder {
        id: id.to_string(),
        parent_id: None,
        name: "A".to_string(),
        created_at: 1,
        trashed: false,
        trashed_at: None,
        is_starred: false,
    };
    assert!(Database::load(vec![mk("dup"), mk("dup")], vec![]).is_none());
}

#[test]
fn load_refuses_inconsistent_trash_stamp() {
    let folder = Folder {
        id: "folder-1".to_string(),
        parent_id: None,
        name: "A".to_string(),
        created_at: 1,
        trashed: true,
        trashed_at: None,
        is_starred: false,
    };
    assert!(Database::load(vec![folder], vec![]).is_none());
}

#[test]
fn load_refuses_overflowing_totals() {
    let mk = |id: &str, msg: i32| FileMetadata {
        id: id.to_string(),
        folder_id: None,
        name: "f".to_string(),
        size: u64::MAX,
        mime_type: "x".to_string(),
        message_id: msg,
        created_at: 2,
        trashed: false,
        trashed_at: None,
        is_starred: false,
    };
    assert!(Database::load(vec![], vec![mk("a", 1), mk("b", 2)]).is_none());
    assert!(Database::load(vec![], vec![mk("a", 1)]).is_some());
}

#[test]
fn get_file_finds_by_id() {
    let mut db = Database::new();
    let f = db
        .add_file(None, &"f".to_string(), 3, &"x".to_string(), 1, 10)
        .unwrap();
    let got = db.get_file(&f.id).unwrap();
    assert_eq!(got.name, "f");
    assert_eq!(got.size, 3);
    assert!(db.get_file(&"missing".to_string()).is_none());
}

#[test]
fn create_folder_with_id_refuses_taken_ids() {
    let mut db = Database::new();
    assert!(db.create_folder_with_id("fixed".to_string(), &"A".to_string(), None, 10));
    assert!(!db.create_folder_with_id("fixed".to_string(), &"B".to_string(), None, 20));
    let (folders, _) = db.list_contents(None);
    assert_eq!(folders.len(), 1);
    assert_eq!(folders[0].name, "A");
}

#[test]
fn add_file_with_id_refuses_overflow() {
    let mut db = Database::new();
    assert!(db.add_file_with_id(
        "one".to_string(),
        None,
        &"f".to_string(),
        u64::MAX,
        &"x".to_string(),
        1,
        10,
    ));
    assert!(!db.add_file_with_id(
        "two".to_string(),
        None,
        &"g".to_string(),
        1,
        &"x".to_string(),
        2,
        10,
    ));
    assert!(db.get_file(&"two".to_string()).is_none());
}

#[test]
fn snapshot_hands_back_every_row() {
    let mut db = Database::new();
    let a = db.create_folder(&"A".to_string(), None, 10).unwrap();
    let f = db
        .add_file(None, &"f".to_string(), 4, &"x".to_string(), 1, 10)
        .unwrap();
    db.trash_item(&f.id, false, 20);

    let (folders, files) = db.snapshot();
    assert_eq!(folders.len(), 1);
    assert_eq!(folders[0].id, a);
    assert_eq!(files.len(), 1);
    assert!(files[0].trashed);

    let reloaded = Database::load(folders, files).unwrap();
    assert_eq!(reloaded.get_total_usage(), 0);
    let (_, trash_files) = reloaded.list_trash();
    assert_eq!(trash_files.len(), 1);
    assert_eq!(trash_files[0].id, f.id);
}
