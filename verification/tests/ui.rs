use commander::config::Config;
use commander::dialogs::{prompt_answer, trim_text};
use commander::events::{func_button, key_command, KeyCommand};
use commander::layout::layout;
use commander::model::Entry;
use commander::panel::{row_label, status_line, PanelState};
use commander::state::{FuncAction, Side, SortKey, SortOrder};

fn file(name: &str, size: u64) -> Entry {
    Entry { name: name.into(), is_dir: false, is_parent: false, size, modified: None }
}

#[test]
fn bookmarks_are_unique() {
    let mut c = Config::default();
    assert!(c.add_bookmark("C:\\a".to_string()));
    assert!(!c.add_bookmark("C:\\a".to_string()));
    assert!(c.add_bookmark("C:\\b".to_string()));
    assert_eq!(c.bookmarks, vec!["C:\\a".to_string(), "C:\\b".to_string()]);
    c.record_dirs(Some("L".to_string()), None);
    assert_eq!(c.left_dir.as_deref(), Some("L"));
    assert!(c.right_dir.is_none());
}

#[test]
fn panel_state() {
    let mut p = PanelState::new("/w".to_string());
    p.load("/w".to_string(), vec![file("b", 2), Entry::parent(), file("a", 9)]);
    let names: Vec<&str> = p.entries.iter().map(|e| e.name.as_str()).collect();
    assert_eq!(names, vec!["..", "a", "b"]);
    p.select_sort(SortKey::Size);
    assert_eq!(p.sort.order, SortOrder::Asc);
    let names: Vec<&str> = p.entries.iter().map(|e| e.name.as_str()).collect();
    assert_eq!(names, vec!["..", "b", "a"]);
    p.select_sort(SortKey::Size);
    assert_eq!(p.sort.order, SortOrder::Desc);
    let names: Vec<&str> = p.entries.iter().map(|e| e.name.as_str()).collect();
    assert_eq!(names, vec!["..", "a", "b"]);
    assert_eq!(p.focused_entry(Some(1)).map(|e| e.name), Some("a".to_string()));
    assert!(p.focused_entry(Some(7)).is_none());
    assert_eq!(p.focused_path(Some(2)).map(std::path::PathBuf::from), Some(std::path::PathBuf::from("/w/b")));
    let picked: Vec<String> = p.action_entries(&vec![0, 2, 9], Some(1)).into_iter().map(|e| e.name).collect();
    assert_eq!(picked, vec!["b".to_string()]);
    let fallback: Vec<String> = p.action_entries(&vec![0], Some(1)).into_iter().map(|e| e.name).collect();
    assert_eq!(fallback, vec!["a".to_string()]);
    assert!(p.action_entries(&vec![], Some(0)).is_empty());
    assert_eq!(p.info_text(2), "3개 항목 · 2개 선택");
}

#[test]
fn labels_and_status() {
    let d = Entry { name: "src".into(), is_dir: true, is_parent: false, size: 0, modified: None };
    assert_eq!(row_label(&d), "src\\");
    assert_eq!(row_label(&Entry::parent()), "..");
    assert_eq!(row_label(&file("a", 0)), "a");
    assert_eq!(status_line(Side::Left, "C:\\", Some("a.txt")), "[왼쪽] C:\\  ▶  a.txt");
    assert_eq!(status_line(Side::Right, "D:\\x", None), "[오른쪽] D:\\x  ▶  -");
}

#[test]
fn keys_and_buttons() {
    assert_eq!(key_command(0x08), Some(KeyCommand::GoUp));
    assert_eq!(key_command(0x74), Some(KeyCommand::Func(FuncAction::Copy)));
    assert_eq!(key_command(0x79), Some(KeyCommand::Func(FuncAction::Quit)));
    assert_eq!(key_command(0x71), None);
    assert_eq!(func_button(0), Some(("F1 도움말", FuncAction::Help)));
    assert_eq!(func_button(7), Some(("F9 메뉴", FuncAction::Menu)));
    assert_eq!(func_button(9), None);
}

#[test]
fn prompt_answers() {
    assert_eq!(trim_text("  새 폴더 \t\n"), "새 폴더");
    assert_eq!(trim_text("\u{3000}x\u{a0}"), "x");
    assert_eq!(prompt_answer(" name ".to_string()), Some(" name ".to_string()));
    assert_eq!(prompt_answer(" \t ".to_string()), Some(" \t ".to_string()));
    for s in ["", " a ", "\u{2003}b\u{85}", "\u{200b}c"] {
        assert_eq!(trim_text(s), s.trim());
    }
}

#[test]
fn window_layout() {
    let l = layout(960, 640);
    assert_eq!((l.status.x, l.status.y, l.status.w, l.status.h), (0, 618, 960, 22));
    assert_eq!(l.buttons.len(), 9);
    assert_eq!((l.buttons[0].x, l.buttons[0].y, l.buttons[0].w, l.buttons[0].h), (6, 588, 103, 28));
    assert_eq!(l.buttons[1].x, 111);
    assert_eq!((l.left.path.x, l.left.path.y, l.left.path.w), (6, 6, 471));
    assert_eq!((l.right.path.x, l.left.list.y, l.left.list.h), (483, 26, 538));
    assert_eq!(l.left.info.y, 564);
    let tiny = layout(0, 0);
    assert_eq!(tiny.buttons[0].w, 1);
    assert_eq!(tiny.left.list.h, 0);
}

#[test]
fn layout_of_a_collapsed_window() {
    let l = layout(-100, -100);
    assert_eq!((l.status.y, l.status.w, l.status.h), (-122, 0, 22));
    assert_eq!((l.buttons[0].w, l.buttons[8].x), (1, 6 + 3 * 8));
    assert_eq!((l.left.path.w, l.left.list.h, l.right.path.x), (0, 0, 12));
}

#[test]
fn layout_never_overlaps() {
    for (w, h) in [(960, 640), (300, 200), (0, 0), (1920, 1080)] {
        let l = layout(w, h);
        for i in 0..8 {
            assert!(l.buttons[i].x + (l.buttons[i].w as i32) < l.buttons[i + 1].x);
        }
        assert!(l.left.path.x + (l.left.path.w as i32) < l.right.path.x);
    }
}
