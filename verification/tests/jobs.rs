use commander::fsworker::{checked_count_items, checked_total_size, count_items, io, target_path, total_size, FsTree, Op};
use commander::paths::file_name;
use commander::progress::{new_shared, Progress};

#[test]
fn percent_of_progress() {
    let mut p = Progress::with_verb("복사");
    assert_eq!(p.percent(), 0);
    p.finished = true;
    assert_eq!(p.percent(), 100);
    p.total = 200;
    p.add_done(50);
    assert_eq!(p.percent(), 25);
    p.add_done(500);
    assert_eq!(p.percent(), 100);
    p.total = 3;
    p.done = 1;
    assert_eq!(p.percent(), 33);
}

#[test]
fn progress_status_line() {
    let mut p = Progress::with_verb("삭제");
    p.total = 4;
    p.done = 1;
    p.set_current("/tmp/some/file.txt");
    assert_eq!(p.current, "file.txt");
    assert_eq!(p.status_text(), "삭제 25% · file.txt");
    let d = Progress::default();
    assert_eq!(d.verb, "");
    assert!(!d.finished && !d.cancel && d.error.is_none());
    let shared = new_shared("이동");
    let g = shared.lock().unwrap();
    assert_eq!(g.verb, "이동");
    assert_eq!(g.total, 0);
}

#[test]
fn job_totals() {
    let tree = vec![
        FsTree::File(10),
        FsTree::Dir(vec![FsTree::File(5), FsTree::Dir(vec![]), FsTree::Unreadable, FsTree::File(7)]),
        FsTree::Unreadable,
    ];
    assert_eq!(total_size(&tree), 22);
    assert_eq!(count_items(&tree), 7);
    assert_eq!(checked_total_size(&vec![FsTree::File(u64::MAX), FsTree::File(1)]), None);
    assert_eq!(checked_total_size(&vec![]), Some(0));
    assert_eq!(checked_count_items(&tree), Some(7));
}

#[test]
fn job_texts_and_targets() {
    assert_eq!(Op::Copy.verb(), "복사");
    assert_eq!(Op::Move.verb(), "이동");
    assert_eq!(Op::Delete.verb(), "삭제");
    assert_eq!(io("/a/b", "denied"), "/a/b\ndenied");
    let t = target_path("/src/dir/file.txt", "/dest").unwrap();
    assert_eq!(std::path::Path::new(&t), std::path::Path::new("/dest/file.txt"));
    assert_eq!(target_path("/", "/dest"), Err("잘못된 경로".to_string()));
    assert_eq!(file_name("/x/y.bin"), "y.bin");
    assert_eq!(file_name("/x/.."), "");
}
