use commander::model::Entry;
use commander::remote::{file_names, join_lines, parse_port, split_host_port};
use commander::vfs_ftp::{list_entries, listing_entries, RemoteFile};

#[test]
fn host_and_port() {
    assert_eq!(split_host_port("ftp.example.com"), ("ftp.example.com".to_string(), 21));
    assert_eq!(split_host_port("host:2121"), ("host".to_string(), 2121));
    assert_eq!(split_host_port("host:abc"), ("host".to_string(), 21));
    assert_eq!(split_host_port("host:99999"), ("host".to_string(), 21));
    assert_eq!(split_host_port("host:+80"), ("host".to_string(), 80));
    assert_eq!(split_host_port("host:"), ("host".to_string(), 21));
    assert_eq!(split_host_port("a:b:22"), ("a:b".to_string(), 22));
}

#[test]
fn port_parsing_agrees_with_std() {
    for t in ["", "+", "-1", "0", "65535", "65536", "007", "+0021", "1a", " 1", "999999999999999999999"] {
        let cs: Vec<char> = t.chars().collect();
        assert_eq!(parse_port(&cs), t.parse::<u16>().ok(), "text {:?}", t);
    }
}

#[test]
fn transfers_take_files_only() {
    let entries = vec![
        Entry { name: "a".into(), is_dir: false, is_parent: false, size: 1, modified: None },
        Entry { name: "d".into(), is_dir: true, is_parent: false, size: 0, modified: None },
        Entry { name: "b".into(), is_dir: false, is_parent: false, size: 2, modified: None },
    ];
    assert_eq!(file_names(&entries), vec!["a".to_string(), "b".to_string()]);
    assert_eq!(join_lines(&vec!["x: e1".to_string(), "y: e2".to_string()]), "x: e1\ny: e2");
    assert_eq!(join_lines(&vec![]), "");
}

#[test]
fn listing_rows() {
    let parsed = vec![
        Some(RemoteFile { name: ".".into(), is_dir: true, size: 0, modified: 0 }),
        None,
        Some(RemoteFile { name: "pub".into(), is_dir: true, size: 0, modified: 5 }),
        Some(RemoteFile { name: "..".into(), is_dir: true, size: 0, modified: 0 }),
        Some(RemoteFile { name: "f.txt".into(), is_dir: false, size: 42, modified: 7 }),
    ];
    let rows = listing_entries(parsed);
    assert_eq!(rows.len(), 3);
    assert!(rows[0].is_parent);
    assert_eq!(rows[1].name, "pub");
    assert!(rows[1].is_dir);
    assert_eq!(rows[2].size, 42);
    assert_eq!(rows[2].modified, Some(7));
}

#[test]
fn listing_lines_parse() {
    let lines = vec![
        "drwxr-xr-x 1 0 0 4096 Nov 5 2019 pub".to_string(),
        "-rw-r--r-- 1 0 0 8192 Nov 5 2019 readme.txt".to_string(),
        "drwxr-xr-x 1 0 0 4096 Nov 5 2019 .".to_string(),
        "total 3".to_string(),
        "04-08-14  03:09PM       403 dos.txt".to_string(),
    ];
    let rows = list_entries(&lines);
    let got: Vec<(&str, bool, u64)> = rows.iter().skip(1).map(|e| (e.name.as_str(), e.is_dir, e.size)).collect();
    assert_eq!(got, vec![("pub", true, 4096), ("readme.txt", false, 8192), ("dos.txt", false, 403)]);
    assert_eq!(rows[2].modified, Some(1_572_912_000 * 1_000_000_000));
}
