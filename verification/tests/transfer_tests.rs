use paperfold::store::Database;
use paperfold::transfer::ProgressCounter;
use paperfold::transfer::UploadPlan;
use paperfold::transfer::register_upload;
use paperfold::transfer::BIG_SOURCE_THRESHOLD;
use paperfold::transfer::DEFAULT_PART_SIZE;

#[test]
fn plan_refuses_empty_parts() {
    assert!(UploadPlan::new(100, 0).is_none());
    assert!(UploadPlan::new(0, 1).is_some());
}

#[test]
fn plan_issues_ceiling_many_parts() {
    let plan = UploadPlan::new(1000, 300).unwrap();
    assert_eq!(plan.total_parts(), 4);
    assert_eq!(plan.part_len(0), 300);
    assert_eq!(plan.part_len(1), 300);
    assert_eq!(plan.part_len(2), 300);
    assert_eq!(plan.part_len(3), 100);

    let exact = UploadPlan::new(900, 300).unwrap();
    assert_eq!(exact.total_parts(), 3);
    assert_eq!(exact.part_len(2), 300);

    let empty = UploadPlan::new(0, 300).unwrap();
    assert_eq!(empty.total_parts(), 0);
}

#[test]
fn plan_part_lengths_cover_the_source() {
    let plan = UploadPlan::new(1_572_864, DEFAULT_PART_SIZE).unwrap();
    assert_eq!(plan.total_parts(), 3);
    let mut covered: u64 = 0;
    for i in 0..plan.total_parts() {
        let len = plan.part_len(i);
        assert!(len > 0 && len <= DEFAULT_PART_SIZE);
        covered += len;
    }
    assert_eq!(covered, 1_572_864);
}

#[test]
fn big_classification_uses_the_threshold() {
    assert!(!UploadPlan::new(BIG_SOURCE_THRESHOLD, DEFAULT_PART_SIZE).unwrap().is_big());
    assert!(UploadPlan::new(BIG_SOURCE_THRESHOLD + 1, DEFAULT_PART_SIZE).unwrap().is_big());
}

#[test]
fn progress_counts_up_to_one_hundred() {
    let mut counter = ProgressCounter::new(1_572_864);
    assert_eq!(counter.percent(), 0);
    let after_one = counter.record(524_288);
    assert_eq!(after_one, 33);
    let after_two = counter.record(524_288);
    assert_eq!(after_two, 66);
    let after_three = counter.record(524_288);
    assert_eq!(after_three, 100);
}

#[test]
fn progress_is_monotone_and_saturates() {
    let mut counter = ProgressCounter::new(1000);
    let mut last = 0;
    for _ in 0..7 {
        let now = counter.record(300);
        assert!(now >= last);
        last = now;
    }
    assert_eq!(last, 100);
    assert_eq!(counter.percent(), 100);
}

#[test]
fn progress_stays_short_of_one_hundred_before_the_end() {
    let mut counter = ProgressCounter::new(1000);
    let p = counter.record(999);
    assert_eq!(p, 99);
}

#[test]
fn upload_scenario_registers_the_planned_size() {
    let mut db = Database::new();
    let docs = db.create_folder(&"Docs".to_string(), None, 100).unwrap();
    let plan = UploadPlan::new(1_572_864, DEFAULT_PART_SIZE).unwrap();
    assert_eq!(plan.total_parts(), 3);

    let mut counter = ProgressCounter::new(1_572_864);
    let mut acked_parts = 0;
    for i in 0..plan.total_parts() {
        counter.record(plan.part_len(i));
        acked_parts += 1;
    }
    assert_eq!(acked_parts, 3);
    assert_eq!(counter.percent(), 100);

    let row = register_upload(
        &mut db,
        &plan,
        Some(docs.clone()),
        &"big.bin".to_string(),
        &"application/octet-stream".to_string(),
        41,
        200,
    )
    .unwrap();
    assert_eq!(row.size, 1_572_864);
    assert_eq!(row.folder_id, Some(docs.clone()));

    let (_, files) = db.list_contents(Some(docs.clone()));
    assert_eq!(files.len(), 1);
    assert_eq!(files[0].size, 1_572_864);

    // Trash it, step time 31 days past the trash stamp, and sweep.
    db.trash_item(&row.id, false, 1_000);
    let (_, after_trash) = db.list_contents(Some(docs.clone()));
    assert_eq!(after_trash.len(), 0);
    let (_, trash_files) = db.list_trash();
    assert_eq!(trash_files.len(), 1);

    let removed = db.cleanup_trash(30, 1_000 + 31 * 86_400);
    assert_eq!(removed.len(), 1);
    assert_eq!(removed[0].id, row.id);
    let (_, trash_after) = db.list_trash();
    assert_eq!(trash_after.len(), 0);
}
