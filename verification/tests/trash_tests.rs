use paperfold::commands::rename_item;
use paperfold::errors::ErrorKind;
use paperfold::commands::usage_figure;
use paperfold::commands::SizeUnit;
use paperfold::store::Database;
use paperfold::text::contains_substring;
use paperfold::trash::empty_trash;
use paperfold::trash::purge_item;
use paperfold::trash::sweep_trash;
use paperfold::trash::TRASH_RETENTION_DAYS;

#[test]
fn purge_file_returns_its_row() {
    let mut db = Database::new();
    let f = db
        .add_file(None, &"f".to_string(), 3, &"x".to_string(), 21, 10)
        .unwrap();
    let removed = purge_item(&mut db, &f.id, false);
    assert_eq!(removed.len(), 1);
    assert_eq!(removed[0].message_id, 21);
    assert!(db.get_file(&f.id).is_none());
    assert_eq!(purge_item(&mut db, &f.id, false).len(), 0);
}

#[test]
fn purge_folder_returns_direct_children() {
    let mut db = Database::new();
    let a = db.create_folder(&"A".to_string(), None, 10).unwrap();
    let f1 = db
        .add_file(Some(a.clone()), &"f1".to_string(), 1, &"x".to_string(), 1, 10)
        .unwrap();
    let f2 = db
        .add_file(Some(a.clone()), &"f2".to_string(), 2, &"x".to_string(), 2, 10)
        .unwrap();
    let outside = db
        .add_file(None, &"f3".to_string(), 3, &"x".to_string(), 3, 10)
        .unwrap();
    let removed = purge_item(&mut db, &a, true);
    assert_eq!(removed.len(), 2);
    assert_eq!(removed[0].id, f1.id);
    assert_eq!(removed[1].id, f2.id);
    assert!(db.get_file(&outside.id).is_some());
}

#[test]
fn empty_trash_spares_entities_trashed_at_the_same_second() {
    let mut db = Database::new();
    let early = db
        .add_file(None, &"early".to_string(), 1, &"x".to_string(), 1, 10)
        .unwrap();
    let at_now = db
        .add_file(None, &"at-now".to_string(), 2, &"x".to_string(), 2, 10)
        .unwrap();
    db.trash_item(&early.id, false, 100);
    db.trash_item(&at_now.id, false, 200);

    let removed = empty_trash(&mut db, 200);
    assert_eq!(removed.len(), 1);
    assert_eq!(removed[0].id, early.id);
    assert!(db.get_file(&at_now.id).is_some());
}

#[test]
fn sweep_without_authorization_moves_nothing() {
    let mut db = Database::new();
    let f = db
        .add_file(None, &"f".to_string(), 1, &"x".to_string(), 1, 10)
        .unwrap();
    db.trash_item(&f.id, false, 100);
    let removed = sweep_trash(&mut db, false, 100 + 40 * 86_400);
    assert_eq!(removed.len(), 0);
    assert!(db.get_file(&f.id).is_some());
}

#[test]
fn sweep_purges_entities_older_than_the_retention_window() {
    let mut db = Database::new();
    let stale = db
        .add_file(None, &"stale".to_string(), 1, &"x".to_string(), 1, 10)
        .unwrap();
    let fresh = db
        .add_file(None, &"fresh".to_string(), 2, &"x".to_string(), 2, 10)
        .unwrap();
    db.trash_item(&stale.id, false, 100);
    let now = 100 + (TRASH_RETENTION_DAYS + 1) * 86_400;
    db.trash_item(&fresh.id, false, now - 86_400);

    let removed = sweep_trash(&mut db, true, now);
    assert_eq!(removed.len(), 1);
    assert_eq!(removed[0].id, stale.id);
    assert!(db.get_file(&fresh.id).is_some());
}

#[test]
fn rename_item_dispatches_on_kind() {
    let mut db = Database::new();
    let a = db.create_folder(&"A".to_string(), None, 10).unwrap();
    let f = db
        .add_file(None, &"f".to_string(), 1, &"x".to_string(), 1, 10)
        .unwrap();
    assert!(rename_item(&mut db, &a, true, &"A2".to_string()));
    assert!(rename_item(&mut db, &f.id, false, &"f2".to_string()));
    assert!(!rename_item(&mut db, &"missing".to_string(), true, &"X".to_string()));
    let (folders, files) = db.list_contents(None);
    assert_eq!(folders[0].name, "A2");
    assert_eq!(files[0].name, "f2");
}

#[test]
fn usage_figure_picks_unit_and_two_decimals() {
    let half_k = usage_figure(512);
    assert_eq!(half_k.unit, SizeUnit::Kilobytes);
    assert_eq!(half_k.whole, 0);
    assert_eq!(half_k.hundredths, 50);

    let mb = usage_figure(1_572_864);
    assert_eq!(mb.unit, SizeUnit::Megabytes);
    assert_eq!(mb.whole, 1);
    assert_eq!(mb.hundredths, 50);

    let gb = usage_figure(5 * 1024 * 1024 * 1024);
    assert_eq!(gb.unit, SizeUnit::Gigabytes);
    assert_eq!(gb.whole, 5);
    assert_eq!(gb.hundredths, 0);

    // 100 * 1029 / 1024 is about 100.49: rounding half up lands on 100.
    let rounded = usage_figure(1029);
    assert_eq!(rounded.unit, SizeUnit::Kilobytes);
    assert_eq!(rounded.whole, 1);
    assert_eq!(rounded.hundredths, 0);
}

#[test]
fn substring_search_handles_edges() {
    assert!(contains_substring("hello world", "lo wo"));
    assert!(contains_substring("hello", ""));
    assert!(!contains_substring("hi", "hello"));
    assert!(!contains_substring("hello", "Hello"));
    assert!(contains_substring("na\u{ef}ve caf\u{e9}", "\u{ef}ve"));
}

#[test]
fn error_kinds_carry_their_names() {
    assert_eq!(ErrorKind::NotFound.message(), "not found");
    assert_eq!(ErrorKind::Unready.message(), "remote gateway not ready");
    assert_eq!(ErrorKind::PartTransferFailure.message(), "part transfer failed");
    assert_eq!(ErrorKind::PersistenceFailure.message(), "persistence failed");
    assert_eq!(ErrorKind::RemoteDeletionFailure.message(), "remote deletion failed");
    assert_ne!(ErrorKind::NotFound, ErrorKind::Unready);
}
