use commander::model::{cmp_name, format_size, sort_entries, Entry};
use std::cmp::Ordering;
use commander::state::{Sort, SortKey, SortOrder};

fn file(name: &str, size: u64) -> Entry {
    Entry { name: name.into(), is_dir: false, is_parent: false, size, modified: None }
}

fn dir(name: &str) -> Entry {
    Entry { name: name.into(), is_dir: true, is_parent: false, size: 0, modified: None }
}

#[test]
fn size_formatting() {
    assert_eq!(format_size(512), "512 B");
    assert_eq!(format_size(1024), "1.0 K");
    assert_eq!(format_size(1536), "1.5 K");
    assert_eq!(format_size(1048576), "1.0 M");
}

#[test]
fn dirs_sort_before_files_and_parent_first() {
    let mut v = vec![
        Entry { name: "b.txt".into(), is_dir: false, is_parent: false, size: 1, modified: None },
        Entry { name: "adir".into(), is_dir: true, is_parent: false, size: 0, modified: None },
        Entry::parent(),
        Entry { name: "a.txt".into(), is_dir: false, is_parent: false, size: 1, modified: None },
    ];
    sort_entries(&mut v, Sort::default());
    assert!(v[0].is_parent);
    assert_eq!(v[1].name, "adir");
    assert_eq!(v[2].name, "a.txt");
    assert_eq!(v[3].name, "b.txt");
}

#[test]
fn ext_extraction() {
    let e = Entry { name: "Photo.JPG".into(), is_dir: false, is_parent: false, size: 0, modified: None };
    assert_eq!(e.ext(), "jpg");
}

/// The size text as the float formula computes it.
fn float_size(bytes: u64) -> String {
    const UNITS: [&str; 4] = ["B", "K", "M", "G"];
    let mut value = bytes as f64;
    let mut unit = 0;
    while value >= 1024.0 && unit < UNITS.len() - 1 {
        value /= 1024.0;
        unit += 1;
    }
    if unit == 0 {
        format!("{} B", bytes)
    } else {
        format!("{:.1} {}", value, UNITS[unit])
    }
}

#[test]
fn size_text_agrees_with_float_formula() {
    let mut samples: Vec<u64> = vec![0, 1, 1023, 1024, 1025, 1126, 1280, 1331, 10239, 10240, 1048575, 1048576];
    samples.extend_from_slice(&[
        1073741823, 1073741824, 1073741824 * 5 / 4, 1099511627776, 1125899906842624 * 3,
        (1u64 << 53) - 1, 1u64 << 53, (1u64 << 53) + 1, (1u64 << 54) + 3, u64::MAX - 1, u64::MAX,
    ]);
    let mut x: u64 = 0x9E37_79B9_7F4A_7C15;
    for _ in 0..20000 {
        x ^= x << 13;
        x ^= x >> 7;
        x ^= x << 17;
        samples.push(x >> (x % 64));
        samples.push((x % 100000) * 1024 / 4);
    }
    for b in samples {
        assert_eq!(format_size(b), float_size(b), "bytes {}", b);
    }
}

#[test]
fn size_rounds_half_to_even() {
    assert_eq!(format_size(1280), "1.2 K");
    assert_eq!(format_size(1024 + 3 * 128), "1.4 K");
    assert_eq!(format_size(1023 * 1024 + 1000), "1024.0 K");
    assert_eq!(format_size(u64::MAX), "17179869184.0 G");
}

#[test]
fn size_and_time_columns() {
    assert_eq!(Entry::parent().size_text(), "  [..]");
    assert_eq!(dir("x").size_text(), " <DIR>");
    assert_eq!(file("x", 2048).size_text(), "2.0 K");
    assert_eq!(file("x", 0).time_text(), "");
    let mut e = file("x", 0);
    e.modified = Some(1_431_648_000_000_000_000);
    let t = e.time_text();
    assert_eq!(t.len(), 16);
    assert!(t.starts_with("2015-05-1"));
}

#[test]
fn ext_cases() {
    assert_eq!(file(".bashrc", 0).ext(), "");
    assert_eq!(file("noext", 0).ext(), "");
    assert_eq!(file("a.tar.GZ", 0).ext(), "gz");
    assert_eq!(file("trailing.", 0).ext(), "");
    assert_eq!(dir("folder.d").ext(), "");
    assert_eq!(file("사진.PNG", 0).ext(), "png");
}

#[test]
fn parent_row() {
    let p = Entry::parent();
    assert_eq!(p.name, "..");
    assert!(p.is_dir && p.is_parent);
    assert_eq!(p.size, 0);
    assert!(p.modified.is_none());
}

#[test]
fn sort_by_name_ignores_case_and_is_stable() {
    let mut v = vec![file("b", 1), file("A", 2), file("a", 3), file("B", 4)];
    sort_entries(&mut v, Sort::default());
    let got: Vec<(String, u64)> = v.iter().map(|e| (e.name.clone(), e.size)).collect();
    assert_eq!(
        got,
        vec![("A".to_string(), 2), ("a".to_string(), 3), ("b".to_string(), 1), ("B".to_string(), 4)]
    );
}

#[test]
fn sort_descending_keeps_parent_and_folders_first() {
    let mut v = vec![file("a", 5), dir("z"), file("c", 1), Entry::parent(), dir("b"), file("b", 3)];
    sort_entries(&mut v, Sort { key: SortKey::Size, order: SortOrder::Desc });
    let names: Vec<&str> = v.iter().map(|e| e.name.as_str()).collect();
    assert_eq!(names, vec!["..", "z", "b", "a", "b", "c"]);
}

#[test]
fn sort_by_extension_then_name() {
    let mut v = vec![file("b.txt", 0), file("a.zip", 0), file("c.TXT", 0), file("noext", 0), file("a.txt", 0)];
    sort_entries(&mut v, Sort { key: SortKey::Ext, order: SortOrder::Asc });
    let names: Vec<&str> = v.iter().map(|e| e.name.as_str()).collect();
    assert_eq!(names, vec!["noext", "a.txt", "b.txt", "c.TXT", "a.zip"]);
}

#[test]
fn sort_by_time_unknown_first() {
    let mut a = file("a", 0);
    a.modified = Some(20);
    let mut b = file("b", 0);
    b.modified = Some(-5);
    let c = file("c", 0);
    let mut v = vec![a, b, c];
    sort_entries(&mut v, Sort { key: SortKey::Modified, order: SortOrder::Asc });
    let names: Vec<&str> = v.iter().map(|e| e.name.as_str()).collect();
    assert_eq!(names, vec!["c", "b", "a"]);
}

#[test]
fn sort_empty_and_single() {
    let mut v: Vec<Entry> = vec![];
    sort_entries(&mut v, Sort::default());
    assert!(v.is_empty());
    let mut w = vec![file("only", 1)];
    sort_entries(&mut w, Sort::default());
    assert_eq!(w[0].name, "only");
}

#[test]
fn cmp_name_ignores_case() {
    assert_eq!(cmp_name(&file("ABC", 0), &file("abc", 0)), Ordering::Equal);
    assert_eq!(cmp_name(&file("abc", 0), &file("ABD", 0)), Ordering::Less);
    assert_eq!(cmp_name(&file("b", 0), &file("A", 0)), Ordering::Greater);
}

#[test]
fn time_stamps_keep_their_form() {
    let mut e = file("x", 0);
    for t in [0i128, -86_400_000_000_000, 4_102_444_800_000_000_000, -62_000_000_000_000_000_000] {
        e.modified = Some(t);
        let s: Vec<char> = e.time_text().chars().collect();
        let n = s.len();
        assert!(n >= 16);
        assert_eq!((s[n - 12], s[n - 9], s[n - 6], s[n - 3]), ('-', '-', ' ', ':'));
        let two = |i: usize| s[i].to_digit(10).unwrap() * 10 + s[i + 1].to_digit(10).unwrap();
        assert!((1..=12).contains(&two(n - 11)) && (1..=31).contains(&two(n - 8)));
        assert!(two(n - 5) <= 23 && two(n - 2) <= 59);
    }
}
