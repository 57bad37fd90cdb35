//! Bookkeeping of copy, move and delete jobs: their totals, targets and
//! error messages. The file system walk itself belongs to the caller.
use vstd::prelude::*;
use crate::paths::{file_name_of, joined, path_file_name, path_join};
use crate::text::{push_str, string_of};

verus! {

/// A file job.
#[derive(Copy, Clone, PartialEq, Eq, Structural, Debug)]
pub enum Op {
    Copy,
    Move,
    Delete,
}

impl Op {
    /// The verb the status line uses.
    pub fn verb(self) -> (r: &'static str)
        ensures
            self == Op::Copy ==> r@ == "복사"@,
            self == Op::Move ==> r@ == "이동"@,
            self == Op::Delete ==> r@ == "삭제"@,
    {
        match self {
            Op::Copy => "복사",
            Op::Move => "이동",
            Op::Delete => "삭제",
        }
    }
}

/// What a walk of the file system found under a path: a file (or link) of
/// some length, a folder with what its listing yielded (nothing when it
/// could not be listed), or nothing readable.
pub enum FsTree {
    File(u64),
    Dir(Vec<FsTree>),
    Unreadable,
}

/// Bytes under a tree: file lengths summed; unreadable paths count 0.
pub open spec fn tree_bytes(t: FsTree) -> nat
    decreases t,
{
    match t {
        FsTree::File(n) => n as nat,
        FsTree::Dir(children) => forest_bytes(children@),
        FsTree::Unreadable => 0,
    }
}

/// Bytes under each tree of a list, summed.
pub open spec fn forest_bytes(s: Seq<FsTree>) -> nat
    decreases s,
{
    if s.len() == 0 {
        0
    } else {
        forest_bytes(s.subrange(0, s.len() - 1)) + tree_bytes(s[s.len() - 1])
    }
}

/// Items under a tree: every folder and every other path counts one.
pub open spec fn tree_items(t: FsTree) -> nat
    decreases t,
{
    match t {
        FsTree::Dir(children) => 1 + forest_items(children@),
        _ => 1,
    }
}

/// Items under each tree of a list, summed.
pub open spec fn forest_items(s: Seq<FsTree>) -> nat
    decreases s,
{
    if s.len() == 0 {
        0
    } else {
        forest_items(s.subrange(0, s.len() - 1)) + tree_items(s[s.len() - 1])
    }
}

fn checked_bytes(t: &FsTree) -> (r: Option<u64>)
    ensures
        r is Some <==> tree_bytes(*t) <= u64::MAX,
        r matches Some(n) ==> n == tree_bytes(*t),
    decreases *t,
{
    match t {
        FsTree::File(n) => Some(*n),
        FsTree::Dir(children) => checked_forest_bytes(children),
        FsTree::Unreadable => Some(0),
    }
}

fn checked_forest_bytes(s: &Vec<FsTree>) -> (r: Option<u64>)
    ensures
        r is Some <==> forest_bytes(s@) <= u64::MAX,
        r matches Some(n) ==> n == forest_bytes(s@),
    decreases s,
{
    let mut total: u64 = 0;
    let mut i: usize = 0;
    while i < s.len()
        invariant
            i <= s@.len(),
            total == forest_bytes(s@.subrange(0, i as int)),
        decreases s@.len() - i,
    {
        proof {
            assert(s@.subrange(0, i + 1).subrange(0, i as int) == s@.subrange(0, i as int));
            assert(s@.subrange(0, i + 1)[i as int] == s@[i as int]);
        }
        let part = checked_bytes(&s[i]);
        match part {
            Some(n) => {
                if n > u64::MAX - total {
                    proof {
                        lemma_forest_bytes_prefix(s@, i + 1);
                    }
                    return None;
                }
                total = total + n;
            },
            None => {
                proof {
                    lemma_forest_bytes_prefix(s@, i + 1);
                }
                return None;
            },
        }
        i = i + 1;
    }
    proof {
        assert(s@.subrange(0, s@.len() as int) == s@);
    }
    Some(total)
}

/// A list's bytes are at least those of any prefix.
proof fn lemma_forest_bytes_prefix(s: Seq<FsTree>, k: int)
    requires
        0 <= k <= s.len(),
    ensures
        forest_bytes(s.subrange(0, k)) <= forest_bytes(s),
    decreases s.len() - k,
{
    if k < s.len() {
        lemma_forest_bytes_prefix(s, k + 1);
        assert(s.subrange(0, k + 1).subrange(0, k) == s.subrange(0, k));
    } else {
        assert(s.subrange(0, k) == s);
    }
}

fn checked_items(t: &FsTree) -> (r: Option<u64>)
    ensures
        r is Some <==> tree_items(*t) <= u64::MAX,
        r matches Some(n) ==> n == tree_items(*t),
    decreases *t,
{
    match t {
        FsTree::Dir(children) => match checked_forest_items(children) {
            Some(n) => if n < u64::MAX { Some(n + 1) } else { None },
            None => None,
        },
        _ => Some(1),
    }
}

fn checked_forest_items(s: &Vec<FsTree>) -> (r: Option<u64>)
    ensures
        r is Some <==> forest_items(s@) <= u64::MAX,
        r matches Some(n) ==> n == forest_items(s@),
    decreases s,
{
    let mut total: u64 = 0;
    let mut i: usize = 0;
    while i < s.len()
        invariant
            i <= s@.len(),
            total == forest_items(s@.subrange(0, i as int)),
        decreases s@.len() - i,
    {
        proof {
            assert(s@.subrange(0, i + 1).subrange(0, i as int) == s@.subrange(0, i as int));
            assert(s@.subrange(0, i + 1)[i as int] == s@[i as int]);
        }
        let part = checked_items(&s[i]);
        match part {
            Some(n) => {
                if n > u64::MAX - total {
                    proof {
                        lemma_forest_items_prefix(s@, i + 1);
                    }
                    return None;
                }
                total = total + n;
            },
            None => {
                proof {
                    lemma_forest_items_prefix(s@, i + 1);
                }
                return None;
            },
        }
        i = i + 1;
    }
    proof {
        assert(s@.subrange(0, s@.len() as int) == s@);
    }
    Some(total)
}

/// A list's items are at least those of any prefix.
proof fn lemma_forest_items_prefix(s: Seq<FsTree>, k: int)
    requires
        0 <= k <= s.len(),
    ensures
        forest_items(s.subrange(0, k)) <= forest_items(s),
    decreases s.len() - k,
{
    if k < s.len() {
        lemma_forest_items_prefix(s, k + 1);
        assert(s.subrange(0, k + 1).subrange(0, k) == s.subrange(0, k));
    } else {
        assert(s.subrange(0, k) == s);
    }
}

/// The total bytes under the sources (the measure of a copy or move), or
/// nothing when it exceeds 64 bits.
pub fn checked_total_size(srcs: &Vec<FsTree>) -> (r: Option<u64>)
    ensures
        r is Some <==> forest_bytes(srcs@) <= u64::MAX,
        r matches Some(n) ==> n == forest_bytes(srcs@),
{
    checked_forest_bytes(srcs)
}

/// The total bytes under the sources (the measure of a copy or move).
pub fn total_size(srcs: &Vec<FsTree>) -> (r: u64)
    requires
        forest_bytes(srcs@) <= u64::MAX,
    ensures
        r == forest_bytes(srcs@),
{
    match checked_forest_bytes(srcs) {
        Some(n) => n,
        None => 0,
    }
}

/// The number of items under the sources (the measure of a delete), or
/// nothing when it exceeds 64 bits.
pub fn checked_count_items(srcs: &Vec<FsTree>) -> (r: Option<u64>)
    ensures
        r is Some <==> forest_items(srcs@) <= u64::MAX,
        r matches Some(n) ==> n == forest_items(srcs@),
{
    checked_forest_items(srcs)
}

/// The number of items under the sources (the measure of a delete).
pub fn count_items(srcs: &Vec<FsTree>) -> (r: u64)
    requires
        forest_items(srcs@) <= u64::MAX,
    ensures
        r == forest_items(srcs@),
{
    match checked_forest_items(srcs) {
        Some(n) => n,
        None => 0,
    }
}

/// The message for a failed path: the path, a line break, the error.
pub fn io(path: &str, err: &str) -> (r: String)
    ensures
        r@ == path@ + seq!['\n'] + err@,
{
    let mut out: Vec<char> = Vec::new();
    push_str(&mut out, path);
    out.push('\n');
    push_str(&mut out, err);
    string_of(out.as_slice())
}

/// Where a copy or move puts `src` inside `dest_dir`: the folder joined with
/// the source's last component; an error when the source has none.
pub fn target_path(src: &str, dest_dir: &str) -> (r: Result<String, String>)
    ensures
        match (r, file_name_of(src@)) {
            (Ok(t), Some(n)) => t@ == joined(dest_dir@, n),
            (Err(e), None) => e@ == "잘못된 경로"@,
            _ => false,
        },
{
    match path_file_name(src) {
        Some(n) => Ok(path_join(dest_dir, n.as_str())),
        None => Err(String::from_str("잘못된 경로")),
    }
}

/// What a job does with one of its sources.
pub enum SourceStep {
    /// The job was cancelled: stop before this source.
    Stop,
    /// The job fails with this message.
    Fail(String),
    /// Copy the tree at `src` to `dst`.
    Copy { src: String, dst: String },
    /// Move `src` to `dst`: rename it, or copy it and then delete it.
    Move { src: String, dst: String },
    /// Delete the tree at `src`.
    Delete { src: String },
}

/// The step for the source `src` of a job running `op` into `dest_dir`:
/// nothing more once cancelled; a failure when the path has no last
/// component; else the operation, a copy or move going to that component
/// inside `dest_dir`.
pub fn source_step(op: Op, cancelled: bool, src: &str, dest_dir: &str) -> (r: SourceStep)
    ensures
        cancelled ==> r is Stop,
        !cancelled ==> match file_name_of(src@) {
            None => r matches SourceStep::Fail(m) && m@ == "잘못된 경로"@,
            Some(n) => match op {
                Op::Copy => r matches SourceStep::Copy { src: s, dst: d } && s@ == src@ && d@ == joined(dest_dir@, n),
                Op::Move => r matches SourceStep::Move { src: s, dst: d } && s@ == src@ && d@ == joined(dest_dir@, n),
                Op::Delete => r matches SourceStep::Delete { src: s } && s@ == src@,
            },
        },
{
    if cancelled {
        return SourceStep::Stop;
    }
    match target_path(src, dest_dir) {
        Err(e) => SourceStep::Fail(e),
        Ok(dst) => match op {
            Op::Copy => SourceStep::Copy { src: String::from_str(src), dst },
            Op::Move => SourceStep::Move { src: String::from_str(src), dst },
            Op::Delete => SourceStep::Delete { src: String::from_str(src) },
        },
    }
}

} // verus!
