use commander::fsops::{new_folder_path, plan_job, JobPlan};
use commander::fsworker::{source_step, Op, SourceStep};
use commander::listing_order::sort_entries;
use commander::model::Entry;
use commander::progress::Progress;
use commander::state::{Sort, SortKey, SortOrder};
use commander::vfs::Location;
use std::path::Path;
use commander::model::{local_rows, DirItem, ItemMeta};
use commander::remote::{transfer_error, transfer_report};
use commander::config::prefs_text;
use commander::model::{minute_stamp_at, nanos_from_epoch, time_shows};
use commander::vfs::start_dir_from;

fn file(name: &str) -> Entry {
    Entry { name: name.into(), is_dir: false, is_parent: false, size: 3, modified: None }
}

fn dir(name: &str) -> Entry {
    Entry { name: name.into(), is_dir: true, is_parent: false, size: 0, modified: None }
}

fn local(p: &str) -> Location {
    Location::Local(p.to_string())
}

fn remote(path: &str) -> Location {
    Location::Remote { session: 7, host: "ftp.example.org".to_string(), path: path.to_string() }
}

fn archive(inner: &str) -> Location {
    Location::Archive { archive: "/data/a.zip".to_string(), inner: inner.to_string() }
}

fn joined(a: &str, b: &str) -> String {
    Path::new(a).join(b).to_string_lossy().into_owned()
}

#[test]
fn plan_busy_first() {
    let picked = vec![file("a.txt")];
    assert!(matches!(plan_job(Op::Copy, true, &local("/x"), &local("/y"), &picked), JobPlan::Busy));
    assert!(matches!(plan_job(Op::Delete, true, &remote("/"), &local("/y"), &picked), JobPlan::Busy));
}

#[test]
fn plan_copy_between_local_folders() {
    let picked = vec![file("a.txt"), dir("sub")];
    match plan_job(Op::Copy, false, &local("/x"), &local("/y"), &picked) {
        JobPlan::Start { op, sources, dest_dir } => {
            assert_eq!(op, Op::Copy);
            assert_eq!(sources, vec![joined("/x", "a.txt"), joined("/x", "sub")]);
            assert_eq!(dest_dir, "/y");
        }
        _ => panic!("expected a start"),
    }
    assert!(matches!(plan_job(Op::Move, false, &local("/x"), &local("/x"), &picked), JobPlan::SameFolder));
    assert!(matches!(plan_job(Op::Copy, false, &local("/x/"), &local("/x"), &picked), JobPlan::SameFolder));
    assert!(matches!(plan_job(Op::Move, false, &local("/x"), &local("/y"), &vec![]), JobPlan::Nothing));
    assert!(matches!(plan_job(Op::Copy, false, &local("/x"), &archive(""), &picked), JobPlan::Nothing));
}

#[test]
fn plan_delete_only_locally() {
    let picked = vec![file("a.txt")];
    match plan_job(Op::Delete, false, &local("/x"), &remote("/"), &picked) {
        JobPlan::Start { op, sources, dest_dir } => {
            assert_eq!(op, Op::Delete);
            assert_eq!(sources, vec![joined("/x", "a.txt")]);
            assert_eq!(dest_dir, "/x");
        }
        _ => panic!("expected a start"),
    }
    assert!(matches!(plan_job(Op::Delete, false, &archive("d"), &local("/y"), &picked), JobPlan::DeleteNotHere));
    assert!(matches!(plan_job(Op::Delete, false, &remote("/"), &local("/y"), &picked), JobPlan::DeleteNotHere));
    assert!(matches!(plan_job(Op::Delete, false, &local("/x"), &local("/y"), &vec![]), JobPlan::Nothing));
}

#[test]
fn plan_remote_transfers() {
    let picked = vec![dir("sub"), file("a.txt"), file("b.txt")];
    match plan_job(Op::Copy, false, &remote("/pub"), &local("/y"), &picked) {
        JobPlan::Download { session, remote_dir, dest_dir, files } => {
            assert_eq!(session, 7);
            assert_eq!(remote_dir, "/pub");
            assert_eq!(dest_dir, "/y");
            assert_eq!(files, vec!["a.txt".to_string(), "b.txt".to_string()]);
        }
        _ => panic!("expected a download"),
    }
    match plan_job(Op::Move, false, &local("/x"), &remote("/in"), &picked) {
        JobPlan::Upload { session, remote_dir, src_dir, files } => {
            assert_eq!((session, remote_dir.as_str(), src_dir.as_str()), (7, "/in", "/x"));
            assert_eq!(files.len(), 2);
        }
        _ => panic!("expected an upload"),
    }
    let only_dirs = vec![dir("sub")];
    assert!(matches!(plan_job(Op::Copy, false, &remote("/"), &local("/y"), &only_dirs), JobPlan::NoFilesToDownload));
    assert!(matches!(plan_job(Op::Copy, false, &local("/x"), &remote("/"), &only_dirs), JobPlan::NoFilesToUpload));
    assert!(matches!(plan_job(Op::Copy, false, &remote("/"), &archive(""), &picked), JobPlan::DownloadNeedsLocal));
    assert!(matches!(plan_job(Op::Copy, false, &archive(""), &remote("/"), &picked), JobPlan::Nothing));
}

#[test]
fn plan_extract_from_archive() {
    let picked = vec![dir("docs"), file("a.txt")];
    match plan_job(Op::Move, false, &archive("dir"), &local("/y"), &picked) {
        JobPlan::Extract { archive, inner, dest_dir, names } => {
            assert_eq!(archive, "/data/a.zip");
            assert_eq!(inner, "dir");
            assert_eq!(dest_dir, "/y");
            assert_eq!(names, vec!["docs".to_string(), "a.txt".to_string()]);
        }
        _ => panic!("expected an extract"),
    }
    assert!(matches!(plan_job(Op::Copy, false, &archive(""), &archive("x"), &picked), JobPlan::ExtractNeedsLocal));
    assert!(matches!(plan_job(Op::Copy, false, &archive(""), &local("/y"), &vec![]), JobPlan::Nothing));
}

#[test]
fn new_folder_name_is_trimmed() {
    assert_eq!(new_folder_path("/x", "  새 폴더 \t"), joined("/x", "새 폴더"));
}

#[test]
fn steps_of_a_job() {
    assert!(matches!(source_step(Op::Copy, true, "/x/a", "/y"), SourceStep::Stop));
    match source_step(Op::Copy, false, "/x/a.txt", "/y") {
        SourceStep::Copy { src, dst } => {
            assert_eq!(src, "/x/a.txt");
            assert_eq!(dst, joined("/y", "a.txt"));
        }
        _ => panic!("expected a copy"),
    }
    match source_step(Op::Move, false, "/x/sub", "/y") {
        SourceStep::Move { src, dst } => assert_eq!((src.as_str(), dst), ("/x/sub", joined("/y", "sub"))),
        _ => panic!("expected a move"),
    }
    assert!(matches!(source_step(Op::Delete, false, "/x/sub", "/x"), SourceStep::Delete { .. }));
    match source_step(Op::Delete, false, "/x/..", "/x") {
        SourceStep::Fail(m) => assert_eq!(m, "잘못된 경로"),
        _ => panic!("expected a failure"),
    }
}

#[test]
fn sorting_twice_changes_nothing() {
    let mut v = vec![file("b.TXT"), dir("z"), file("a.rs"), Entry::parent(), dir("A"), file("B.txt")];
    let sort = Sort { key: SortKey::Ext, order: SortOrder::Desc };
    sort_entries(&mut v, sort);
    let once: Vec<String> = v.iter().map(|e| e.name.clone()).collect();
    sort_entries(&mut v, sort);
    let twice: Vec<String> = v.iter().map(|e| e.name.clone()).collect();
    assert_eq!(once, twice);
    assert_eq!(once[0], "..");
}

#[test]
fn percent_never_falls() {
    let mut p = Progress::with_verb("복사");
    p.total = 7;
    let mut last = 0;
    for _ in 0..10 {
        p.add_done(1);
        let now = p.percent();
        assert!(now >= last);
        last = now;
    }
    assert_eq!(last, 100);
}

#[test]
fn ftp_error_message() {
    assert_eq!(commander::vfs_ftp::ftp_io("550 No such file"), "FTP: 550 No such file");
}

#[test]
fn local_folder_rows() {
    let items = vec![
        DirItem { name: "a.txt".into(), meta: Some(ItemMeta { is_dir: false, len: 12, modified: Some(5) }) },
        DirItem { name: "locked".into(), meta: None },
        DirItem { name: "sub".into(), meta: Some(ItemMeta { is_dir: true, len: 0, modified: None }) },
    ];
    let rows = local_rows("/home/user", &items);
    assert_eq!(rows.len(), 4);
    assert!(rows[0].is_parent && rows[0].name == "..");
    assert_eq!((rows[1].name.as_str(), rows[1].is_dir, rows[1].size, rows[1].modified), ("a.txt", false, 12, Some(5)));
    assert_eq!((rows[2].name.as_str(), rows[2].is_dir, rows[2].size, rows[2].modified), ("locked", false, 0, None));
    assert!(rows[3].is_dir && !rows[3].is_parent);
    let top = local_rows("/", &items);
    assert_eq!(top.len(), 3);
    assert_eq!(top[0].name, "a.txt");
}

#[test]
fn transfer_outcomes() {
    assert_eq!(transfer_error("a.txt", "550 denied"), "a.txt: 550 denied");
    assert_eq!(transfer_report("다운로드", &vec![]), Ok("다운로드 완료".to_string()));
    let errs = vec!["a: x".to_string(), "b: y".to_string()];
    assert_eq!(transfer_report("업로드", &errs), Err("a: x\nb: y".to_string()));
}

#[test]
fn settings_summary() {
    assert_eq!(
        prefs_text(Some("C:\\cfg\\config.toml"), 2),
        "설정 파일:\nC:\\cfg\\config.toml\n\n북마크 2개\n패널 폴더는 종료 시 자동 저장됩니다."
    );
    assert_eq!(prefs_text(None, 0), "설정 파일:\n(알 수 없음)\n\n북마크 0개\n패널 폴더는 종료 시 자동 저장됩니다.");
}

#[test]
fn guards_for_callers() {
    assert!(time_shows(0));
    assert!(time_shows(-8_334_601_000_000_000_000_000));
    assert!(!time_shows(8_210_266_000_000_000_000_001));
    let mut p = Progress::with_verb("복사");
    p.total = u64::MAX;
    p.done = u64::MAX / 100;
    assert!(p.percent_computable());
    p.done += 1;
    assert!(!p.percent_computable());
    assert_eq!(commander::viewer::text_area(0x9000_0000, 100), (0, 52));
}

#[test]
fn start_folder_falls_back_to_drive_c() {
    assert_eq!(start_dir_from(Some("/home/me".to_string())), "/home/me");
    assert_eq!(start_dir_from(None), "C:\\");
}

#[test]
fn times_around_the_epoch() {
    assert_eq!(nanos_from_epoch(true, 1, 5), 1_000_000_005);
    assert_eq!(nanos_from_epoch(false, 2, 0), -2_000_000_000);
    assert_eq!(nanos_from_epoch(true, u64::MAX, 999_999_999), u64::MAX as i128 * 1_000_000_000 + 999_999_999);
}

#[test]
fn stamps_at_an_offset() {
    assert_eq!(minute_stamp_at(0, 0), "1970-01-01 00:00");
    assert_eq!(minute_stamp_at(0, 3600), "1970-01-01 01:00");
    assert_eq!(minute_stamp_at(-1, 0), "1969-12-31 23:59");
    assert_eq!(minute_stamp_at(1_572_912_059, -60), "2019-11-04 23:59");
    assert_eq!(minute_stamp_at(253_402_300_800, 0), "+10000-01-01 00:00");
}

#[test]
fn shared_progress_starts_empty() {
    let s = commander::progress::new_shared("추출");
    let p = s.lock().unwrap();
    assert_eq!((p.verb.as_str(), p.total, p.done, p.current.as_str()), ("추출", 0, 0, ""));
    assert!(!p.finished && !p.cancel && p.error.is_none());
}
