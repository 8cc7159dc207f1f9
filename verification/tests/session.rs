use squoosh::session::{on_event, Effect, EventView, Session, MAX_THUMBNAILS};

fn import(s: &mut Session, paths: &[&str]) -> Vec<Effect> {
    on_event(s, EventView::Imported(paths.iter().map(|p| p.to_string()).collect()))
}

#[test]
fn an_import_adds_only_new_paths() {
    let mut s = Session::new();
    let first = import(&mut s, &["a.png", "b.png", "a.png"]);
    assert_eq!(first.len(), 2);
    assert!(matches!(&first[0], Effect::Inspect { id: 0, path } if path == "a.png"));
    assert!(matches!(&first[1], Effect::Inspect { id: 1, path } if path == "b.png"));
    let second = import(&mut s, &["b.png", "c.png"]);
    assert_eq!(second.len(), 1);
    assert!(matches!(&second[0], Effect::Inspect { id: 2, path } if path == "c.png"));
    assert!(import(&mut s, &["a.png", "c.png"]).is_empty());
}

#[test]
fn stale_previews_are_ignored() {
    let mut s = Session::new();
    let g1 = s.next_generation();
    let g2 = s.next_generation();
    assert_eq!((g1, g2), (1, 2));
    assert!(on_event(&mut s, EventView::Preview(g1)).is_empty());
    assert!(on_event(&mut s, EventView::PreviewError(g1)).is_empty());
    assert!(matches!(on_event(&mut s, EventView::Preview(g2)).as_slice(), [Effect::ShowPreview]));
    assert!(matches!(on_event(&mut s, EventView::PreviewError(g2)).as_slice(), [Effect::ShowPreviewError]));
    assert_eq!(s.generation(), 2);
}

#[test]
fn thumbnails_are_limited_least_recent_first() {
    let mut s = Session::new();
    let paths: Vec<String> = (0..130).map(|i| format!("img{i}.png")).collect();
    on_event(&mut s, EventView::Imported(paths));
    let mut dropped = Vec::new();
    for id in 0..130u64 {
        for e in on_event(&mut s, EventView::Inspected(id)) {
            if let Effect::DropThumbnail(d) = e {
                dropped.push(d);
            }
        }
    }
    assert_eq!(MAX_THUMBNAILS, 128);
    assert_eq!(dropped, vec![0, 1]);
    // Showing image 2 again makes it the most recent: image 3 leaves next.
    on_event(&mut s, EventView::Inspected(2));
    let mut more = Vec::new();
    on_event(&mut s, EventView::Imported(vec!["new.png".into()]));
    for e in on_event(&mut s, EventView::Inspected(130)) {
        if let Effect::DropThumbnail(d) = e {
            more.push(d);
        }
    }
    assert_eq!(more, vec![3]);
}

#[test]
fn an_unknown_image_keeps_no_thumbnail() {
    let mut s = Session::new();
    assert!(on_event(&mut s, EventView::Inspected(7)).is_empty());
}

#[test]
fn batch_counts_follow_each_outcome() {
    let mut s = Session::new();
    import(&mut s, &["a.png", "b.png", "c.png"]);
    s.start_batch(vec![0, 1, 2]);
    assert!(matches!(on_event(&mut s, EventView::Finished { id: 0, ok: true }).as_slice(), [Effect::Record(0)]));
    assert!(matches!(on_event(&mut s, EventView::Finished { id: 1, ok: false }).as_slice(), [Effect::Record(1)]));
    assert_eq!(s.counts(), (2, 1));
    let end = on_event(&mut s, EventView::BatchDone { cancelled: true });
    assert_eq!(end.len(), 2);
    assert!(matches!(end[0], Effect::Cancelled(2)));
    assert!(matches!(end[1], Effect::BatchEnded { cancelled: true, done: 2, failed: 1 }));
}

#[test]
fn removing_selects_the_next_image() {
    let mut s = Session::new();
    import(&mut s, &["a.png", "b.png", "c.png"]);
    // An import into an empty list selects its first image.
    assert_eq!(s.selected(), Some(0));
    assert!(s.select(2));
    assert!(!s.select(3));
    assert!(s.remove(1));
    assert_eq!(s.selected(), Some(1));
    assert!(s.remove(1));
    assert_eq!(s.selected(), Some(0));
    assert!(!s.remove(1));
    assert!(s.remove(0));
    assert_eq!(s.selected(), None);
    // A removed path can come back, with a new id.
    let again = import(&mut s, &["b.png"]);
    assert!(matches!(&again[0], Effect::Inspect { id: 3, path } if path == "b.png"));
    assert!(s.clear());
    assert_eq!(s.selected(), None);
    assert_eq!(import(&mut s, &["b.png"]).len(), 1);
}

#[test]
fn nothing_is_removed_while_a_batch_runs() {
    let mut s = Session::new();
    import(&mut s, &["a.png", "b.png"]);
    s.start_batch(vec![0, 1]);
    assert!(s.running());
    assert!(!s.remove(0));
    assert!(!s.clear());
    assert_eq!(s.selected(), Some(0));
    on_event(&mut s, EventView::BatchDone { cancelled: false });
    assert!(!s.running());
    assert!(s.remove(0));
}
