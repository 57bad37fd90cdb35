use commander::model::Entry;
use commander::vfs::{is_zip, join_inner, join_remote, parent_inner, parent_remote, Location};
use commander::vfs_zip::{extract_target, list_archive, list_folder, zip_items, Extraction, MemberStep, ZipItem};
use std::io::Write;

fn file(name: &str) -> Entry {
    Entry { name: name.into(), is_dir: false, is_parent: false, size: 3, modified: None }
}

fn dir(name: &str) -> Entry {
    Entry { name: name.into(), is_dir: true, is_parent: false, size: 0, modified: None }
}

/// Builds a test archive in memory with a.txt, dir/b.txt, dir/sub/c.txt.
fn make_zip() -> Vec<u8> {
    let mut zw = zip::ZipWriter::new(std::io::Cursor::new(Vec::new()));
    let opt = zip::write::FileOptions::default();
    for (name, body) in [("a.txt", "AAA"), ("dir/b.txt", "BBB"), ("dir/sub/c.txt", "CCC")] {
        zw.start_file(name, opt).unwrap();
        zw.write_all(body.as_bytes()).unwrap();
    }
    zw.finish().unwrap().into_inner()
}

#[test]
fn lists_root_and_subdir() {
    let zip = make_zip();
    let root = list_archive(&zip, "").unwrap();
    let names: Vec<&str> = root.iter().map(|e| e.name.as_str()).collect();
    assert!(names.contains(&".."));
    assert!(names.contains(&"a.txt"));
    assert!(names.contains(&"dir"));
    assert!(root.iter().any(|e| e.name == "dir" && e.is_dir));

    let sub = list_archive(&zip, "dir").unwrap();
    let names: Vec<&str> = sub.iter().map(|e| e.name.as_str()).collect();
    assert!(names.contains(&"b.txt"));
    assert!(names.contains(&"sub"));
    assert!(!names.contains(&"a.txt"));
}

#[test]
fn archive_members_and_errors() {
    let zip = make_zip();
    let items = zip_items(&zip).unwrap();
    let got: Vec<(&str, u64)> = items.iter().map(|i| (i.name.as_str(), i.size)).collect();
    assert_eq!(got, vec![("a.txt", 3), ("dir/b.txt", 3), ("dir/sub/c.txt", 3)]);
    let bad = list_archive(b"not a zip", "").unwrap_err();
    assert!(bad.starts_with("zip: "));
    assert!(Extraction::open(b"nope".to_vec(), String::new(), vec![]).is_err());
}

#[test]
fn extracting_selected_members() {
    let zip = make_zip();
    let job = Extraction::open(zip, "dir".to_string(), vec!["sub".to_string()]).ok().unwrap();
    assert_eq!(job.len(), 3);
    assert!(matches!(job.step(0, false), MemberStep::Skip));
    assert!(matches!(job.step(1, false), MemberStep::Skip));
    match job.step(2, false) {
        MemberStep::Write { rel, is_dir, data } => {
            assert_eq!((rel.as_str(), is_dir, data.as_slice()), ("sub/c.txt", false, &b"CCC"[..]));
        }
        _ => panic!("expected a write"),
    }
    assert!(matches!(job.step(2, true), MemberStep::Stop));
}

fn item(name: &str, size: u64) -> ZipItem {
    ZipItem { name: name.into(), size }
}

#[test]
fn listing_orders_names_and_keeps_first_kind() {
    let items = vec![
        item("z.txt", 1),
        item("x", 7),
        item("x/inner.txt", 2),
        item("m\\deep\\f.txt", 4),
        item("z.txt", 9),
        item("dir/", 0),
    ];
    let rows = list_folder(&items, "");
    let got: Vec<(&str, bool, u64)> = rows.iter().skip(1).map(|e| (e.name.as_str(), e.is_dir, e.size)).collect();
    assert_eq!(got, vec![("dir", true, 0), ("m", true, 0), ("x", false, 7), ("z.txt", false, 9)]);
    assert!(rows[0].is_parent);
    let inside = list_folder(&items, "m/deep");
    assert_eq!(inside.len(), 2);
    assert_eq!(inside[1].name, "f.txt");
    assert_eq!(inside[1].size, 4);
    let empty = list_folder(&items, "nothing");
    assert_eq!(empty.len(), 1);
}

#[test]
fn extraction_targets() {
    let names = vec!["dir".to_string(), "a.txt".to_string()];
    assert_eq!(extract_target("a.txt", "", &names), Some(("a.txt".to_string(), false)));
    assert_eq!(extract_target("dir/", "", &names), Some(("dir/".to_string(), true)));
    assert_eq!(extract_target("dir\\b.txt", "", &names), Some(("dir/b.txt".to_string(), false)));
    assert_eq!(extract_target("dirx/b.txt", "", &names), None);
    let inner = vec!["b.txt".to_string()];
    assert_eq!(extract_target("dir/b.txt", "dir", &inner), Some(("b.txt".to_string(), false)));
    assert_eq!(extract_target("dir/sub/c.txt", "dir", &inner), None);
    assert_eq!(extract_target("a.txt", "dir", &inner), None);
}

#[test]
fn remote_paths() {
    assert_eq!(join_remote("/", "pub"), "/pub");
    assert_eq!(join_remote("/pub", "x"), "/pub/x");
    assert_eq!(parent_remote("/pub/x"), "/pub");
    assert_eq!(parent_remote("/pub/"), "/");
    assert_eq!(parent_remote("/pub"), "/");
    assert_eq!(parent_remote("pub"), "/");
    assert_eq!(parent_remote("a/b//"), "a");
    assert_eq!(parent_remote(join_remote("/a/b", "c").as_str()), "/a/b");
}

#[test]
fn archive_paths() {
    assert_eq!(join_inner("", "dir"), "dir");
    assert_eq!(join_inner("dir", "sub"), "dir/sub");
    assert_eq!(parent_inner("dir/sub"), "dir");
    assert_eq!(parent_inner("dir"), "");
    assert_eq!(parent_inner(join_inner("a/b", "c").as_str()), "a/b");
}

#[test]
fn zip_names() {
    assert!(is_zip("a.zip"));
    assert!(is_zip("Archive.ZIP"));
    assert!(!is_zip("zip"));
    assert!(!is_zip("a.zip.txt"));
}

#[test]
fn labels() {
    assert_eq!(Location::Local("/home/u".into()).display(), "/home/u");
    assert_eq!(Location::Archive { archive: "/t/a.zip".into(), inner: "".into() }.display(), "[zip] /t/a.zip");
    assert_eq!(Location::Archive { archive: "/t/a.zip".into(), inner: "d/e".into() }.display(), "[zip] /t/a.zip\\d/e");
    assert_eq!(Location::Remote { session: 1, host: "h".into(), path: "/p".into() }.display(), "ftp://h/p");
}

#[test]
fn entering_and_leaving() {
    let local = Location::Local("/home/u".into());
    let down = local.enter(&dir("docs")).unwrap();
    assert_eq!(down.as_local().map(|s| s.as_str()), Some("/home/u/docs"));
    assert_eq!(down.parent().unwrap().as_local().map(|s| s.as_str()), Some("/home/u"));
    assert!(local.enter(&file("notes.txt")).is_none());
    let arch = local.enter(&file("Pack.Zip")).unwrap();
    assert_eq!(arch.as_archive(), Some((&"/home/u/Pack.Zip".to_string(), "")));
    let inside = arch.enter(&dir("d")).unwrap();
    assert_eq!(inside.as_archive().map(|(_, i)| i), Some("d"));
    let back = inside.enter(&Entry::parent()).unwrap();
    assert_eq!(back.as_archive().map(|(_, i)| i), Some(""));
    let out = back.parent_from("/home/me".into()).unwrap();
    assert_eq!(out.as_local().map(|s| s.as_str()), Some("/home/me"));
    assert!(back.parent().unwrap().as_local().is_some());
    let up = back.enter_from(&Entry::parent(), "/home/me".into()).unwrap();
    assert_eq!(up.as_local().map(|s| s.as_str()), Some("/home/me"));
    assert!(inside.enter(&file("x.txt")).is_none());

    let remote = Location::Remote { session: 4, host: "h".into(), path: "/".into() };
    let r2 = remote.enter(&dir("pub")).unwrap();
    assert_eq!(r2.as_remote(), Some((4, "/pub")));
    assert_eq!(r2.parent().unwrap().as_remote(), Some((4, "/")));
    assert!(remote.parent().unwrap().as_local().is_some());
    let home = remote.parent_from("C:\\Users\\me".into()).unwrap();
    assert_eq!(home.as_local().map(|s| s.as_str()), Some("C:\\Users\\me"));
    assert_eq!(r2.enter_from(&Entry::parent(), "x".into()).unwrap().as_remote(), Some((4, "/")));
    assert!(remote.enter(&file("f")).is_none());
    assert!(Location::Local("/".into()).parent().is_none());
}
