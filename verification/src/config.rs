//! Saved settings: the panels' last folders and the bookmarks.
use vstd::prelude::*;
use crate::text::{decimal, push_decimal, push_str, string_of};

verus! {

/// The settings kept on disk.
#[derive(Clone, Debug)]
pub struct Config {
    pub left_dir: Option<String>,
    pub right_dir: Option<String>,
    pub bookmarks: Vec<String>,
}

/// The bookmarks as texts.
pub open spec fn bookmark_texts(b: Seq<String>) -> Seq<Seq<char>> {
    b.map_values(|s: String| s@)
}

/// The bookmark list after adding `dir`: unchanged when it is there, else
/// with `dir` at the end.
pub open spec fn with_bookmark(b: Seq<Seq<char>>, dir: Seq<char>) -> Seq<Seq<char>> {
    if b.contains(dir) { b } else { b.push(dir) }
}

impl Default for Config {
    /// No folders remembered, no bookmarks.
    fn default() -> (r: Config)
        ensures
            r.left_dir is None,
            r.right_dir is None,
            r.bookmarks@.len() == 0,
    {
        Config { left_dir: None, right_dir: None, bookmarks: Vec::new() }
    }
}

impl Config {
    /// Adds `dir` to the bookmarks unless it is there already; says whether
    /// it was added.
    pub fn add_bookmark(&mut self, dir: String) -> (added: bool)
        ensures
            added == !bookmark_texts(old(self).bookmarks@).contains(dir@),
            bookmark_texts(final(self).bookmarks@) == with_bookmark(bookmark_texts(old(self).bookmarks@), dir@),
            added ==> bookmark_texts(final(self).bookmarks@) == bookmark_texts(old(self).bookmarks@).push(dir@),
            !added ==> final(self).bookmarks@ == old(self).bookmarks@,
            final(self).left_dir == old(self).left_dir,
            final(self).right_dir == old(self).right_dir,
    {
        let ghost bv = bookmark_texts(self.bookmarks@);
        let mut i: usize = 0;
        while i < self.bookmarks.len()
            invariant
                i <= self.bookmarks@.len(),
                bv == bookmark_texts(self.bookmarks@),
                forall|j: int| 0 <= j < i ==> bv[j] != dir@,
            decreases self.bookmarks@.len() - i,
        {
            if self.bookmarks[i].eq(&dir) {
                proof {
                    assert(bv[i as int] == dir@);
                }
                return false;
            }
            i = i + 1;
        }
        let ghost before = self.bookmarks@;
        self.bookmarks.push(dir);
        proof {
            assert(bookmark_texts(self.bookmarks@) =~= bookmark_texts(before).push(dir@));
        }
        true
    }

    /// Remembers the panels' folders at exit; a panel that shows no local
    /// folder leaves its entry as it was.
    pub fn record_dirs(&mut self, left: Option<String>, right: Option<String>)
        ensures
            final(self).left_dir == (if left is Some { left } else { old(self).left_dir }),
            final(self).right_dir == (if right is Some { right } else { old(self).right_dir }),
            final(self).bookmarks == old(self).bookmarks,
    {
        if left.is_some() {
            self.left_dir = left;
        }
        if right.is_some() {
            self.right_dir = right;
        }
    }
}

/// The settings summary: where the settings file is (or "(알 수 없음)"
/// when that is unknown), how many bookmarks there are, and a note that the
/// panels' folders are saved at exit.
pub fn prefs_text(path: Option<&str>, bookmarks: usize) -> (r: String)
    ensures
        r@ == "설정 파일:\n"@ + (match path {
            Some(p) => p@,
            None => "(알 수 없음)"@,
        }) + "\n\n북마크 "@ + decimal(bookmarks as nat) + "개\n패널 폴더는 종료 시 자동 저장됩니다."@,
{
    let mut out: Vec<char> = Vec::new();
    push_str(&mut out, "설정 파일:\n");
    match path {
        Some(p) => push_str(&mut out, p),
        None => push_str(&mut out, "(알 수 없음)"),
    }
    push_str(&mut out, "\n\n북마크 ");
    push_decimal(&mut out, bookmarks as u128);
    push_str(&mut out, "개\n패널 폴더는 종료 시 자동 저장됩니다.");
    string_of(out.as_slice())
}

/// Adding a bookmark twice leaves the list as after the first time.
pub proof fn law_bookmark_once(before: Seq<Seq<char>>, dir: Seq<char>)
    ensures
        with_bookmark(with_bookmark(before, dir), dir) == with_bookmark(before, dir),
{
    if !before.contains(dir) {
        assert(before.push(dir)[before.len() as int] == dir);
    }
}

/// Bookmarks added one by one never repeat: a list without repeats keeps
/// none after an addition.
pub proof fn law_bookmarks_stay_distinct(before: Seq<Seq<char>>, dir: Seq<char>)
    requires
        before.no_duplicates(),
    ensures
        with_bookmark(before, dir).no_duplicates(),
{
    if !before.contains(dir) {
        let after = before.push(dir);
        assert forall|i: int, j: int| 0 <= i < after.len() && 0 <= j < after.len() && i != j implies after[i] != after[j] by {
            if i < before.len() && j < before.len() {
            } else if i == before.len() {
                assert(after[j] == before[j]);
            } else {
                assert(after[i] == before[i]);
            }
        }
    }
}

} // verus!
