use commander::viewer::{can_edit, hex_dump, looks_text, normalize_newlines, text_area};

#[test]
fn hex_dump_lines() {
    assert_eq!(hex_dump(&[]), "");
    let line = hex_dump(b"AB\x00 ~\x7f");
    let expected = format!("{:08X}  {:<48} {}\r\n", 0, "41 42 00 20 7E 7F ", "AB. ~.");
    assert_eq!(line, expected);
    let data: Vec<u8> = (0u8..40).collect();
    let dump = hex_dump(&data);
    let lines: Vec<&str> = dump.split("\r\n").collect();
    assert_eq!(lines.len(), 4);
    assert!(lines[1].starts_with("00000010  10 11 12"));
    assert!(lines[2].starts_with("00000020  20 21 22 23 24 25 26 27 "));
    assert!(lines[2].ends_with(" !\"#$%&'"));
    assert_eq!(lines[0].len(), 8 + 2 + 48 + 1 + 16);
}

#[test]
fn text_or_binary() {
    assert!(looks_text(b"hello\nworld"));
    assert!(!looks_text(b"he\x00llo"));
    let mut late = vec![b'a'; 9000];
    late[8500] = 0;
    assert!(looks_text(&late));
    late[7999] = 0;
    assert!(!looks_text(&late));
    assert!(looks_text(&[]));
}

#[test]
fn editor_saving() {
    assert_eq!(normalize_newlines("a\r\nb\r\n"), "a\nb\n");
    assert_eq!(normalize_newlines("a\r\r\nb\rc\n"), "a\r\nb\rc\n");
    assert_eq!(normalize_newlines(""), "");
    assert!(can_edit(8 * 1024 * 1024));
    assert!(!can_edit(8 * 1024 * 1024 + 1));
    assert_eq!(text_area(760, 560), (744, 512));
    assert_eq!(text_area(10, 30), (0, 0));
}

#[test]
fn window_titles() {
    assert_eq!(commander::viewer::window_title("보기", "/tmp/a/notes.txt", false), "보기 - notes.txt");
    assert_eq!(commander::viewer::window_title("편집", "/tmp/a/notes.txt", true), "편집 - notes.txt (저장됨)");
    assert_eq!(commander::viewer::window_title("보기", "/", false), "보기 - ");
}
