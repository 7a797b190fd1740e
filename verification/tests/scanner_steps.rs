use heft::scanner::{
    assemble_scan, classify_child, is_hidden_name, Child, ChildMeta, DirScan, DirWalk, Failure,
    ScanTally, WalkEvent, WalkStep, MAX_FILES_PER_SUBTREE,
};

fn meta(is_dir: bool, is_file: bool, is_symlink: bool, len: u64, dev: u64) -> ChildMeta {
    ChildMeta { is_dir, is_file, is_symlink, len, dev }
}

#[test]
fn hidden_names_start_with_a_dot() {
    assert!(is_hidden_name(".git"));
    assert!(!is_hidden_name("git."));
    assert!(!is_hidden_name(""));
}

#[test]
fn classify_children() {
    let mut t = ScanTally::new();
    let c = classify_child(&mut t, "src".to_string(), Ok(meta(true, false, false, 4096, 1)), Some(1)).unwrap();
    assert!(c.is_dir && c.needs_scan && c.size == 0 && !c.is_hidden);
    let c = classify_child(&mut t, "mnt".to_string(), Ok(meta(true, false, false, 4096, 2)), Some(1)).unwrap();
    assert!(c.is_dir && !c.needs_scan && c.size == 0);
    assert_eq!(t.skipped_mounts, 1);
    let c = classify_child(&mut t, ".link".to_string(), Ok(meta(false, false, true, 12, 1)), Some(1)).unwrap();
    assert!(c.is_symlink && c.is_hidden && c.size == 12 && !c.needs_scan);
    assert!(classify_child(&mut t, "fifo".to_string(), Ok(meta(false, false, false, 0, 1)), None).is_none());
    assert!(classify_child(&mut t, "x".to_string(), Err(Failure::PermissionDenied), None).is_none());
    assert!(classify_child(&mut t, "y".to_string(), Err(Failure::Other), None).is_none());
    assert_eq!((t.error_count, t.skipped_mounts, t.restricted_count), (1, 1, 1));
}

fn file(dev: u64, ino: u64, nlink: u64, len: u64) -> WalkEvent {
    WalkEvent::File { dev, ino, nlink, len }
}

#[test]
fn walk_counts_hard_links_once() {
    let mut w = DirWalk::new();
    assert_eq!(w.step(file(1, 7, 2, 100), Some(1)), WalkStep::Continue);
    assert_eq!(w.step(file(1, 7, 2, 100), Some(1)), WalkStep::Continue);
    assert_eq!(w.step(file(1, 8, 1, 5), Some(1)), WalkStep::Continue);
    assert_eq!(w.step(file(1, 8, 1, 5), Some(1)), WalkStep::Continue);
    assert_eq!((w.size, w.file_count), (110, 3));
}

#[test]
fn walk_stays_on_one_device_and_tallies_failures() {
    let mut w = DirWalk::new();
    w.step(file(2, 1, 1, 1000), Some(1));
    assert_eq!(w.step(WalkEvent::Directory { dev: 1 }, Some(1)), WalkStep::Continue);
    assert_eq!(w.step(WalkEvent::Directory { dev: 3 }, Some(1)), WalkStep::SkipDirectory);
    assert_eq!(w.step(WalkEvent::Directory { dev: 3 }, None), WalkStep::Continue);
    w.step(WalkEvent::Failed(Failure::PermissionDenied), Some(1));
    w.step(WalkEvent::Failed(Failure::Other), Some(1));
    w.step(file(2, 1, 1, 1000), None);
    assert_eq!((w.size, w.file_count, w.skipped_mounts, w.restricted, w.errors), (1000, 1, 2, 1, 1));
}

#[test]
fn walk_room_is_asked_only_of_the_counter_that_grows() {
    let mut w = DirWalk::new();
    w.size = u64::MAX - 10;
    assert!(w.has_room(file(1, 1, 1, 10), Some(1)));
    assert!(!w.has_room(file(1, 1, 1, 11), Some(1)));
    assert!(w.has_room(file(2, 1, 1, 11), Some(1)));
    w.step(file(1, 5, 2, 10), Some(1));
    assert!(w.has_room(file(1, 5, 2, 10), Some(1)));
    w.skipped_mounts = u32::MAX;
    assert!(!w.has_room(WalkEvent::Directory { dev: 2 }, Some(1)));
    assert!(w.has_room(WalkEvent::Directory { dev: 1 }, Some(1)));
}

#[test]
fn walk_stops_at_the_file_limit() {
    let mut w = DirWalk::new();
    let mut steps: u64 = 0;
    loop {
        steps += 1;
        if w.step(file(1, steps, 1, 1), Some(1)) == WalkStep::Estimate {
            break;
        }
    }
    assert_eq!(steps, MAX_FILES_PER_SUBTREE);
    assert_eq!(w.size, MAX_FILES_PER_SUBTREE);
}

fn child(name: &str, is_dir: bool, size: u64, needs_scan: bool) -> Child {
    Child { name: name.to_string(), is_dir, is_hidden: name.starts_with('.'), size, needs_scan, is_symlink: false }
}

#[test]
fn assemble_splits_hidden_and_sums() {
    let children = vec![child("a", true, 0, true), child(".b", false, 5, false), child("c", false, 7, false), child(".d", true, 0, true)];
    let outs = vec![
        DirScan { index: 3, size: 100, errors: 1, skipped: 0, restricted: 2, is_estimate: true },
        DirScan { index: 0, size: 40, errors: 0, skipped: 3, restricted: 0, is_estimate: false },
    ];
    let mut t = ScanTally::new();
    t.note_failure(Failure::Other);
    let r = assemble_scan(children, &outs, t);
    let names: Vec<&str> = r.entries.iter().map(|e| e.name.as_str()).collect();
    assert_eq!(names, vec!["a", "c"]);
    let hidden: Vec<(&str, u64, bool)> = r.hidden_entries.iter().map(|e| (e.name.as_str(), e.size, e.is_estimate)).collect();
    assert_eq!(hidden, vec![(".b", 5, false), (".d", 100, true)]);
    assert_eq!(r.entries[0].size, 40);
    assert_eq!(r.total_size, 152);
    assert_eq!((r.error_count, r.skipped_mounts, r.restricted_count, r.estimated_count), (2, 3, 2, 1));
    assert_eq!(r.total_size, r.visible_total_size() + r.hidden_total_size());
}

#[test]
fn assemble_of_an_unreadable_directory_is_empty() {
    let mut t = ScanTally::new();
    t.note_failure(Failure::PermissionDenied);
    let r = assemble_scan(Vec::new(), &Vec::new(), t);
    assert!(r.entries.is_empty() && r.hidden_entries.is_empty());
    assert_eq!((r.total_size, r.restricted_count, r.error_count), (0, 1, 0));
}

#[test]
fn assemble_does_not_depend_on_scan_order() {
    let children = || vec![child("a", true, 0, true), child(".b", false, 5, false), child("c", true, 0, true)];
    let first = DirScan { index: 0, size: 40, errors: 1, skipped: 2, restricted: 0, is_estimate: true };
    let second = DirScan { index: 2, size: 9, errors: 0, skipped: 1, restricted: 3, is_estimate: false };
    let r1 = assemble_scan(children(), &vec![first, second], ScanTally::new());
    let r2 = assemble_scan(children(), &vec![second, first], ScanTally::new());
    let view = |r: &heft::types::ScanResult| {
        let e: Vec<(String, u64, bool)> = r.entries.iter().map(|e| (e.name.clone(), e.size, e.is_estimate)).collect();
        (e, r.total_size, r.error_count, r.skipped_mounts, r.restricted_count, r.estimated_count)
    };
    assert_eq!(view(&r1), view(&r2));
    assert_eq!(view(&r1).0, vec![("a".to_string(), 40, true), ("c".to_string(), 9, false)]);
    assert_eq!(r1.estimated_count, 1);
}
