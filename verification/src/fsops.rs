//! What a copy, move, delete or new-folder request comes to, from where the
//! two panels stand and which rows are picked, before anything is asked of
//! the user or done on disk.
use vstd::prelude::*;
use crate::dialogs::{trim_spec, trim_text};
use crate::fsworker::Op;
use crate::model::Entry;
use crate::paths::{joined, path_join, paths_equal, same_path};
use crate::remote::{file_names, file_names_spec};
use crate::vfs::{LocView, Location};

verus! {

/// The outcome of a file request.
pub enum JobPlan {
    /// Another job is running: the user is asked to wait.
    Busy,
    /// Deleting outside a local folder is refused.
    DeleteNotHere,
    /// Extracting needs a local folder on the other side.
    ExtractNeedsLocal,
    /// Downloading needs a local folder on the other side.
    DownloadNeedsLocal,
    /// No plain file is picked to download.
    NoFilesToDownload,
    /// No plain file is picked to upload.
    NoFilesToUpload,
    /// The source folder is the target folder.
    SameFolder,
    /// Nothing to do, and nothing to say.
    Nothing,
    /// Fetch `files` from the remote folder into the local `dest_dir`.
    Download { session: u64, remote_dir: String, dest_dir: String, files: Vec<String> },
    /// Send `files` of the local `src_dir` into the remote folder.
    Upload { session: u64, remote_dir: String, src_dir: String, files: Vec<String> },
    /// Unpack the rows `names` of the archive folder into `dest_dir`.
    Extract { archive: String, inner: String, dest_dir: String, names: Vec<String> },
    /// Run `op` on the `sources` paths with `dest_dir` as target.
    Start { op: Op, sources: Vec<String>, dest_dir: String },
}

/// A plan as texts.
pub enum PlanView {
    Busy,
    DeleteNotHere,
    ExtractNeedsLocal,
    DownloadNeedsLocal,
    NoFilesToDownload,
    NoFilesToUpload,
    SameFolder,
    Nothing,
    Download { session: u64, remote_dir: Seq<char>, dest_dir: Seq<char>, files: Seq<Seq<char>> },
    Upload { session: u64, remote_dir: Seq<char>, src_dir: Seq<char>, files: Seq<Seq<char>> },
    Extract { archive: Seq<char>, inner: Seq<char>, dest_dir: Seq<char>, names: Seq<Seq<char>> },
    Start { op: Op, sources: Seq<Seq<char>>, dest_dir: Seq<char> },
}

/// Strings as texts.
pub open spec fn texts(v: Seq<String>) -> Seq<Seq<char>> {
    v.map_values(|s: String| s@)
}

impl View for JobPlan {
    type V = PlanView;

    open spec fn view(&self) -> PlanView {
        match self {
            JobPlan::Busy => PlanView::Busy,
            JobPlan::DeleteNotHere => PlanView::DeleteNotHere,
            JobPlan::ExtractNeedsLocal => PlanView::ExtractNeedsLocal,
            JobPlan::DownloadNeedsLocal => PlanView::DownloadNeedsLocal,
            JobPlan::NoFilesToDownload => PlanView::NoFilesToDownload,
            JobPlan::NoFilesToUpload => PlanView::NoFilesToUpload,
            JobPlan::SameFolder => PlanView::SameFolder,
            JobPlan::Nothing => PlanView::Nothing,
            JobPlan::Download { session, remote_dir, dest_dir, files } =>
                PlanView::Download { session: *session, remote_dir: remote_dir@, dest_dir: dest_dir@, files: texts(files@) },
            JobPlan::Upload { session, remote_dir, src_dir, files } =>
                PlanView::Upload { session: *session, remote_dir: remote_dir@, src_dir: src_dir@, files: texts(files@) },
            JobPlan::Extract { archive, inner, dest_dir, names } =>
                PlanView::Extract { archive: archive@, inner: inner@, dest_dir: dest_dir@, names: texts(names@) },
            JobPlan::Start { op, sources, dest_dir } =>
                PlanView::Start { op: *op, sources: texts(sources@), dest_dir: dest_dir@ },
        }
    }
}

/// The names of rows, in order.
pub open spec fn entry_names_spec(entries: Seq<Entry>) -> Seq<Seq<char>> {
    entries.map_values(|e: Entry| e.name@)
}

/// The paths of rows of the folder `dir`, in order.
pub open spec fn sources_spec(dir: Seq<char>, entries: Seq<Entry>) -> Seq<Seq<char>> {
    entries.map_values(|e: Entry| joined(dir, e.name@))
}

/// What a request to run `op` on the rows `picked` of the active panel
/// comes to. A copy or move with a remote panel transfers plain files (the
/// active side first); from inside an archive it extracts; between two
/// different local folders it copies or moves. A delete works in a local
/// folder only.
pub open spec fn plan_spec(op: Op, busy: bool, active: LocView, other: LocView, picked: Seq<Entry>) -> PlanView {
    if busy {
        PlanView::Busy
    } else if op == Op::Delete {
        match active {
            LocView::Local(dir) => if picked.len() == 0 {
                PlanView::Nothing
            } else {
                PlanView::Start { op, sources: sources_spec(dir, picked), dest_dir: dir }
            },
            _ => PlanView::DeleteNotHere,
        }
    } else {
        match (active, other) {
            (LocView::Remote { session, path, .. }, LocView::Local(dest)) => {
                let files = file_names_spec(picked);
                if files.len() == 0 {
                    PlanView::NoFilesToDownload
                } else {
                    PlanView::Download { session, remote_dir: path, dest_dir: dest, files }
                }
            },
            (LocView::Remote { .. }, _) => PlanView::DownloadNeedsLocal,
            (LocView::Local(src), LocView::Remote { session, path, .. }) => {
                let files = file_names_spec(picked);
                if files.len() == 0 {
                    PlanView::NoFilesToUpload
                } else {
                    PlanView::Upload { session, remote_dir: path, src_dir: src, files }
                }
            },
            (_, LocView::Remote { .. }) => PlanView::Nothing,
            (LocView::Archive { archive, inner }, LocView::Local(dest)) => if picked.len() == 0 {
                PlanView::Nothing
            } else {
                PlanView::Extract { archive, inner, dest_dir: dest, names: entry_names_spec(picked) }
            },
            (LocView::Archive { .. }, _) => PlanView::ExtractNeedsLocal,
            (LocView::Local(src), LocView::Local(dest)) => if picked.len() == 0 {
                PlanView::Nothing
            } else if same_path(src, dest) {
                PlanView::SameFolder
            } else {
                PlanView::Start { op, sources: sources_spec(src, picked), dest_dir: dest }
            },
            (LocView::Local(_), LocView::Archive { .. }) => PlanView::Nothing,
        }
    }
}

/// A job that starts runs the operation that was asked for; between two
/// different local folders with rows picked, a copy or move always starts,
/// on the paths of the picked rows inside the active folder, into the other
/// folder; a delete with rows picked in a local folder deletes their paths.
pub proof fn law_plan_runs_requested_op(op: Op, busy: bool, active: LocView, other: LocView, picked: Seq<Entry>)
    ensures
        plan_spec(op, busy, active, other, picked) matches PlanView::Start { op: o, .. } ==> o == op,
        !busy && op != Op::Delete && picked.len() > 0 ==> (active matches LocView::Local(src)
            ==> (other matches LocView::Local(dest) ==> (!same_path(src, dest) ==> (
                plan_spec(op, busy, active, other, picked) matches PlanView::Start { op: o, sources, dest_dir }
                && o == op && dest_dir == dest && sources.len() == picked.len()
                && forall|k: int| 0 <= k < picked.len() ==> #[trigger] sources[k] == joined(src, picked[k].name@))))),
        !busy && op == Op::Delete && picked.len() > 0 ==> (active matches LocView::Local(dir) ==> (
            plan_spec(op, busy, active, other, picked) matches PlanView::Start { op: o, sources, dest_dir }
            && o == Op::Delete && dest_dir == dir && sources.len() == picked.len()
            && forall|k: int| 0 <= k < picked.len() ==> #[trigger] sources[k] == joined(dir, picked[k].name@))),
{
}

fn entry_names(entries: &Vec<Entry>) -> (r: Vec<String>)
    ensures
        texts(r@) == entry_names_spec(entries@),
{
    let mut out: Vec<String> = Vec::new();
    let mut i: usize = 0;
    while i < entries.len()
        invariant
            i <= entries@.len(),
            texts(out@) == entry_names_spec(entries@.take(i as int)),
        decreases entries@.len() - i,
    {
        let ghost before = out@;
        out.push(entries[i].name.clone());
        proof {
            assert(texts(out@) == texts(before).push(entries@[i as int].name@));
            assert(entry_names_spec(entries@.take(i + 1)) == entry_names_spec(entries@.take(i as int)).push(entries@[i as int].name@));
        }
        i = i + 1;
    }
    proof {
        assert(entries@.take(entries@.len() as int) == entries@);
    }
    out
}

fn source_paths(dir: &str, entries: &Vec<Entry>) -> (r: Vec<String>)
    ensures
        texts(r@) == sources_spec(dir@, entries@),
{
    let mut out: Vec<String> = Vec::new();
    let mut i: usize = 0;
    while i < entries.len()
        invariant
            i <= entries@.len(),
            texts(out@) == sources_spec(dir@, entries@.take(i as int)),
        decreases entries@.len() - i,
    {
        let ghost before = out@;
        out.push(path_join(dir, entries[i].name.as_str()));
        proof {
            assert(texts(out@) == texts(before).push(joined(dir@, entries@[i as int].name@)));
            assert(sources_spec(dir@, entries@.take(i + 1)) == sources_spec(dir@, entries@.take(i as int)).push(joined(dir@, entries@[i as int].name@)));
        }
        i = i + 1;
    }
    proof {
        assert(entries@.take(entries@.len() as int) == entries@);
    }
    out
}

/// Decides a request to run `op` on the rows `picked` of the active panel,
/// `busy` when a job is running.
pub fn plan_job(op: Op, busy: bool, active: &Location, other: &Location, picked: &Vec<Entry>) -> (r: JobPlan)
    ensures
        r@ == plan_spec(op, busy, active@, other@, picked@),
{
    if busy {
        return JobPlan::Busy;
    }
    if op == Op::Delete {
        return match active {
            Location::Local(dir) => if picked.len() == 0 {
                JobPlan::Nothing
            } else {
                JobPlan::Start { op, sources: source_paths(dir.as_str(), picked), dest_dir: dir.clone() }
            },
            _ => JobPlan::DeleteNotHere,
        };
    }
    match (active, other) {
        (Location::Remote { session, path, .. }, Location::Local(dest)) => {
            let files = file_names(picked);
            proof {
                assert(texts(files@) == files@.map_values(|s: String| s@));
            }
            if files.len() == 0 {
                JobPlan::NoFilesToDownload
            } else {
                JobPlan::Download { session: *session, remote_dir: path.clone(), dest_dir: dest.clone(), files }
            }
        },
        (Location::Remote { .. }, _) => JobPlan::DownloadNeedsLocal,
        (Location::Local(src), Location::Remote { session, path, .. }) => {
            let files = file_names(picked);
            proof {
                assert(texts(files@) == files@.map_values(|s: String| s@));
            }
            if files.len() == 0 {
                JobPlan::NoFilesToUpload
            } else {
                JobPlan::Upload { session: *session, remote_dir: path.clone(), src_dir: src.clone(), files }
            }
        },
        (_, Location::Remote { .. }) => JobPlan::Nothing,
        (Location::Archive { archive, inner }, Location::Local(dest)) => if picked.len() == 0 {
            JobPlan::Nothing
        } else {
            JobPlan::Extract { archive: archive.clone(), inner: inner.clone(), dest_dir: dest.clone(), names: entry_names(picked) }
        },
        (Location::Archive { .. }, _) => JobPlan::ExtractNeedsLocal,
        (Location::Local(src), Location::Local(dest)) => if picked.len() == 0 {
            JobPlan::Nothing
        } else if paths_equal(src.as_str(), dest.as_str()) {
            JobPlan::SameFolder
        } else {
            JobPlan::Start { op, sources: source_paths(src.as_str(), picked), dest_dir: dest.clone() }
        },
        (Location::Local(_), Location::Archive { .. }) => JobPlan::Nothing,
    }
}

/// The path of a new folder named by the typed `answer` (trimmed) inside
/// the local folder `dir`.
pub fn new_folder_path(dir: &str, answer: &str) -> (r: String)
    ensures
        r@ == joined(dir@, trim_spec(answer@)),
{
    let name = trim_text(answer);
    path_join(dir, name.as_str())
}

} // verus!
