use squoosh::codecs::Format;
use squoosh::jobs::{plan_export, ExportPlan};
use squoosh::settings::{Overrides, SettingsError};
use squoosh::jobs::{name_attempt, output_name, Collector, NameStep, MAX_IMPORT, MAX_SUFFIX};

#[test]
fn output_names_count_up() {
    assert_eq!(output_name("photo", 0, "webp"), "photo.webp");
    assert_eq!(output_name("photo", 1, "webp"), "photo_1.webp");
    assert_eq!(output_name("same", 101, "png"), "same_101.png");
    assert_eq!(output_name("", 0, "jpg"), ".jpg");
    match name_attempt("a", 99_999, "png") {
        NameStep::Try(name) => assert_eq!(name, "a_99999.png"),
        NameStep::Exhausted => panic!("gave up too early"),
    }
    assert!(matches!(name_attempt("a", MAX_SUFFIX, "png"), NameStep::Exhausted));
}

#[test]
fn imports_collect_each_file_once() {
    let mut c = Collector::new(vec!["dir".into(), "a.png".into()]);
    assert_eq!(c.next(), Some(("a.png".to_string(), true)));
    c.add_file("a.png", true, "/abs/a.png".into());
    assert_eq!(c.next(), Some(("dir".to_string(), true)));
    assert!(c.enter_directory("/abs/dir".into()));
    c.push_entry("dir/b.txt".into(), false, false, false);
    c.push_entry("dir/child".into(), true, false, false);
    c.push_entry("dir/link".into(), false, true, false);
    c.push_entry("dir/a.png".into(), false, false, false);
    assert!(c.within_limit());
    assert_eq!(c.next(), Some(("dir/a.png".to_string(), false)));
    c.add_file("dir/a.png", false, "/abs/a.png".into());
    assert_eq!(c.next(), Some(("dir/b.txt".to_string(), false)));
    c.add_file("dir/b.txt", false, "/abs/dir/b.txt".into());
    assert_eq!(c.next(), None);
    assert!(!c.enter_directory("/abs/dir".into()));
    c.add_file("notes.txt", true, "/abs/notes.txt".into());
    assert_eq!(c.into_found(), vec!["/abs/a.png".to_string(), "/abs/notes.txt".to_string()]);
}

#[test]
fn recursive_imports_queue_subdirectories() {
    let mut c = Collector::new(vec!["root".into()]);
    c.next();
    assert!(c.enter_directory("/root".into()));
    c.push_entry("root/child".into(), true, false, true);
    assert_eq!(c.next(), Some(("root/child".to_string(), false)));
    assert!(c.enter_directory("/root/child".into()));
    c.push_entry("root/child/loop".into(), true, false, true);
    assert_eq!(c.next(), Some(("root/child/loop".to_string(), false)));
    assert!(!c.enter_directory("/root".into()));
    assert_eq!(c.next(), None);
}

#[test]
fn imports_stop_at_the_limit() {
    let paths: Vec<String> = (0..MAX_IMPORT).map(|i| format!("{i}.png")).collect();
    let mut c = Collector::new(paths);
    assert!(c.within_limit());
    c.push_entry("one-more.png".into(), false, false, false);
    assert!(!c.within_limit());
}

use squoosh::jobs::{on_outcome, worker_step, BatchState, BatchTask, CommandView, OutcomeView, WorkerAction, WorkerState};
use squoosh::settings::Settings;

fn tasks(n: u64) -> Vec<BatchTask> {
    (0..n)
        .map(|id| {
            let mut settings = Settings::default();
            settings.rotation = (id % 4 * 90) as u16;
            BatchTask { id: 10 + id, settings }
        })
        .collect()
}

#[test]
fn old_preview_requests_are_skipped() {
    let state = WorkerState { latest_preview: 5 };
    assert!(matches!(worker_step(&state, CommandView::Preview(4)).1, WorkerAction::Skip));
    assert!(matches!(worker_step(&state, CommandView::Preview(5)).1, WorkerAction::Preview(5)));
    assert!(matches!(worker_step(&state, CommandView::Inspect(3)).1, WorkerAction::Inspect(3)));
    assert!(matches!(worker_step(&state, CommandView::Stop).1, WorkerAction::Stop));
}

#[test]
fn a_batch_starts_with_its_first_item_and_frozen_settings() {
    let state = WorkerState { latest_preview: 0 };
    match worker_step(&state, CommandView::Batch { tasks: tasks(3), cancelled: false }).1 {
        WorkerAction::Convert { index, id, settings } => {
            assert_eq!((index, id, settings.rotation), (0, 10, 0));
        }
        other => panic!("unexpected {other:?}"),
    }
    assert!(matches!(
        worker_step(&state, CommandView::Batch { tasks: tasks(3), cancelled: true }).1,
        WorkerAction::BatchDone { cancelled: true }
    ));
    assert!(matches!(
        worker_step(&state, CommandView::Batch { tasks: Vec::new(), cancelled: false }).1,
        WorkerAction::BatchDone { cancelled: false }
    ));
}

#[test]
fn a_failed_item_does_not_stop_the_batch() {
    let batch = BatchState::new(tasks(3));
    let (batch, next) = on_outcome(&batch, 0, OutcomeView { result: Ok(100), cancelled: false });
    assert!(matches!(next, WorkerAction::Convert { index: 1, id: 11, .. }));
    let (batch, next) = on_outcome(&batch, 1, OutcomeView { result: Err("broken".into()), cancelled: false });
    match next {
        WorkerAction::Convert { index, id, settings } => assert_eq!((index, id, settings.rotation), (2, 12, 180)),
        other => panic!("unexpected {other:?}"),
    }
    let (batch, next) = on_outcome(&batch, 2, OutcomeView { result: Ok(7), cancelled: false });
    assert!(matches!(next, WorkerAction::BatchDone { cancelled: false }));
    assert_eq!(
        batch.outcomes(),
        vec![(10, Ok(100)), (11, Err("broken".to_string())), (12, Ok(7))]
    );
}

#[test]
fn a_cancelled_batch_starts_nothing_more() {
    let batch = BatchState::new(tasks(3));
    let (batch, next) = on_outcome(&batch, 0, OutcomeView { result: Ok(1), cancelled: true });
    assert!(matches!(next, WorkerAction::BatchDone { cancelled: true }));
    assert_eq!(batch.outcomes(), vec![(10, Ok(1))]);
}

#[test]
fn stale_previews_and_cancelled_batch() {
    let state = WorkerState { latest_preview: 2 };
    assert!(matches!(worker_step(&state, CommandView::Preview(1)).1, WorkerAction::Skip));
    assert!(matches!(
        worker_step(&state, CommandView::Batch { tasks: vec![], cancelled: true }).1,
        WorkerAction::BatchDone { cancelled: true }
    ));
}

#[test]
fn batch_100_images_isolates_error_and_freezes_settings() {
    let mut s = Settings::default();
    s.sides[1].format = Some(Format::Png);
    s.sides[1].options.set_option("png", "level".into(), 0);
    let tasks: Vec<BatchTask> = (0..100).map(|id| BatchTask { id, settings: s.clone() }).collect();
    let state = WorkerState { latest_preview: 0 };
    let mut action = worker_step(&state, CommandView::Batch { tasks: tasks.clone(), cancelled: false }).1;
    // Later edits do not reach the running batch.
    s.sides[1].format = Some(Format::Jpeg);
    let mut batch = BatchState::new(tasks);
    let (mut successes, mut errors) = (0, 0);
    loop {
        match action {
            WorkerAction::Convert { index, id, settings } => {
                assert_eq!(settings.sides[1].format, Some(Format::Png));
                let result = if id == 50 { Err("broken".to_string()) } else { Ok(10) };
                if result.is_ok() {
                    successes += 1;
                } else {
                    errors += 1;
                }
                let (next, a) = on_outcome(&batch, index, OutcomeView { result, cancelled: false });
                batch = next;
                action = a;
            }
            WorkerAction::BatchDone { cancelled } => {
                assert!(!cancelled);
                break;
            }
            other => panic!("unexpected {other:?}"),
        }
    }
    assert_eq!((successes, errors), (99, 1));
    assert_eq!(batch.outcomes().len(), 100);
}

#[test]
fn an_export_is_planned_in_order_and_refused_as_a_whole() {
    let mut common = Settings::default();
    common.sides[1].format = Some(Format::Png);
    common.export_side = 1;
    let mut rotated = Overrides::default();
    let mut edited = common.clone();
    edited.rotation = 90;
    rotated.record(&common, &edited);
    let images = vec![(7, Overrides::default()), (8, rotated.clone()), (9, Overrides::default())];
    match plan_export(&common, &images, Some(1), false) {
        ExportPlan::Start(t) => {
            assert_eq!(t.len(), 1);
            assert_eq!((t[0].id, t[0].settings.rotation), (8, 90));
        }
        other => panic!("unexpected {other:?}"),
    }
    match plan_export(&common, &images, None, true) {
        ExportPlan::Start(t) => assert_eq!(t.iter().map(|x| x.id).collect::<Vec<_>>(), vec![7, 8, 9]),
        other => panic!("unexpected {other:?}"),
    }
    assert!(matches!(plan_export(&common, &images, None, false), ExportPlan::Empty));
    assert!(matches!(plan_export(&common, &Vec::new(), None, true), ExportPlan::Empty));
    // An image whose exceptions no longer resolve stops the whole export.
    let mut bad = Overrides::default();
    let mut broken = common.clone();
    broken.rotation = 45;
    bad.record(&common, &broken);
    let images = vec![(7, Overrides::default()), (8, bad)];
    assert!(matches!(plan_export(&common, &images, None, true), ExportPlan::Refused(SettingsError::Rotation)));
    // The original side cannot be exported.
    let mut original = common.clone();
    original.sides[1].format = None;
    let images = vec![(7, Overrides::default())];
    assert!(matches!(plan_export(&original, &images, None, true), ExportPlan::NoFormat));
}
