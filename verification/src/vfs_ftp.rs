//! Rows of an FTP folder from the server's LIST output.
use vstd::prelude::*;
use crate::model::{nanos_from_epoch, Entry};
use crate::text::{push_str, string_of};

verus! {

/// One parsed line of a LIST reply.
pub struct RemoteFile {
    pub name: String,
    pub is_dir: bool,
    pub size: u64,
    /// Modification time, in nanoseconds since the UNIX epoch.
    pub modified: i128,
}

/// A parsed line as plain values.
pub open spec fn remote_view(f: RemoteFile) -> (Seq<char>, bool, u64, i128) {
    (f.name@, f.is_dir, f.size, f.modified)
}

/// The declaration of std's `SystemTime`, which suppaftp gives a line's
/// time in.
#[verifier::external_type_specification]
#[verifier::external_body]
pub struct ExSystemTime(std::time::SystemTime);

/// One line of a LIST reply as suppaftp parses it.
pub struct ListedLine {
    pub name: String,
    pub is_dir: bool,
    pub size: u64,
    pub modified: std::time::SystemTime,
}

/// How suppaftp reads a LIST line, as a function of the line alone: first,
/// whether the line parses whatever the current year is (a DOS line or a
/// POSIX line with a year never reads the clock; a POSIX line without a year
/// takes the current one); then the name, folder flag and size of the line
/// when it parses (a line is POSIX `ls -l` or DOS, never both, and these
/// fields come from its text).
pub uninterp spec fn list_line(line: Seq<char>) -> (bool, Seq<char>, bool, u64);

/// The line parses whatever the current year is.
pub open spec fn parses_any_year(line: Seq<char>) -> bool {
    list_line(line).0
}

/// The name, folder flag and size suppaftp reads from a line that parses.
pub open spec fn list_line_fields(line: Seq<char>) -> (Seq<char>, bool, u64) {
    (list_line(line).1, list_line(line).2, list_line(line).3)
}

/// Calls suppaftp's LIST-line parser (`suppaftp::list::File`'s `FromStr`),
/// which reads POSIX `ls -l` and DOS listings (see `list_line`). A line that
/// parses whatever the year gives a result; of a result, the name, folder
/// flag and size are named. Left unsaid: whether a POSIX line without a year
/// that parses only in some years (one dated February 29) parses now, and
/// the time of such a line, which both rest on the clock.
#[verifier::external_body]
fn parse_list_line(line: &str) -> (r: Option<ListedLine>)
    ensures
        list_line(line@).0 ==> r is Some,
        r matches Some(l) ==> (l.name@, l.is_dir, l.size) == (list_line(line@).1, list_line(line@).2, list_line(line@).3),
{
    match line.parse::<suppaftp::list::File>() {
        Ok(f) => Some(ListedLine {
            name: f.name().to_string(),
            is_dir: f.is_directory(),
            size: f.size() as u64,
            modified: f.modified(),
        }),
        Err(_) => None,
    }
}

/// Calls `SystemTime::duration_since(UNIX_EPOCH)`: whether the time is at
/// or after the epoch, and its distance from it in whole seconds and the
/// nanoseconds past them (below 1e9, as `Duration` keeps them).
#[verifier::external_body]
fn epoch_offset(t: &std::time::SystemTime) -> (r: (bool, u64, u32))
    ensures
        r.2 < 1_000_000_000,
{
    match t.duration_since(std::time::UNIX_EPOCH) {
        Ok(d) => (true, d.as_secs(), d.subsec_nanos()),
        Err(e) => (false, e.duration().as_secs(), e.duration().subsec_nanos()),
    }
}

/// The names "." and "..", which a listing may hold and a panel skips.
pub open spec fn is_dot_name(name: Seq<char>) -> bool {
    name == seq!['.'] || name == seq!['.', '.']
}

/// The parsed lines a panel shows, in order: those that parsed and are not
/// "." or "..".
pub open spec fn shown_files(parsed: Seq<Option<(Seq<char>, bool, u64, i128)>>) -> Seq<(Seq<char>, bool, u64, i128)>
    decreases parsed.len(),
{
    if parsed.len() == 0 {
        Seq::empty()
    } else {
        let rest = shown_files(parsed.drop_last());
        match parsed.last() {
            Some(f) => if is_dot_name(f.0) { rest } else { rest.push(f) },
            None => rest,
        }
    }
}

/// The view of parsed lines.
pub open spec fn parsed_view(parsed: Seq<Option<RemoteFile>>) -> Seq<Option<(Seq<char>, bool, u64, i128)>> {
    parsed.map_values(|o: Option<RemoteFile>| match o {
        Some(f) => Some(remote_view(f)),
        None => None,
    })
}

/// `rows` shows the files `files`: ".." first, then one row per file.
pub open spec fn shows_files(rows: Seq<Entry>, files: Seq<(Seq<char>, bool, u64, i128)>) -> bool {
    &&& rows.len() == files.len() + 1
    &&& rows[0].is_parent && rows[0].is_dir && rows[0].name@ == ".."@
    &&& forall|j: int| 0 <= j < files.len() ==> {
        let e = #[trigger] rows[j + 1];
        &&& !e.is_parent
        &&& e.name@ == files[j].0
        &&& e.is_dir == files[j].1
        &&& e.size == files[j].2
        &&& e.modified == Some(files[j].3)
    }
}

fn is_dot(name: &str) -> (r: bool)
    ensures
        r == is_dot_name(name@),
{
    let cs = crate::text::chars_of(name);
    let r = (cs.len() == 1 && cs[0] == '.') || (cs.len() == 2 && cs[0] == '.' && cs[1] == '.');
    proof {
        if cs@.len() == 1 && cs@[0] == '.' {
            assert(cs@ =~= seq!['.']);
        }
        if cs@.len() == 2 && cs@[0] == '.' && cs@[1] == '.' {
            assert(cs@ =~= seq!['.', '.']);
        }
    }
    r
}

/// The rows of a remote folder from its parsed LIST lines: ".." first,
/// then every parsed line except "." and "..", in listing order.
pub fn listing_entries(parsed: Vec<Option<RemoteFile>>) -> (r: Vec<Entry>)
    ensures
        shows_files(r@, shown_files(parsed_view(parsed@))),
{
    let ghost pv = parsed_view(parsed@);
    let mut out: Vec<Entry> = Vec::new();
    out.push(Entry::parent());
    let mut i: usize = 0;
    while i < parsed.len()
        invariant
            i <= parsed@.len(),
            pv == parsed_view(parsed@),
            shows_files(out@, shown_files(pv.take(i as int))),
        decreases parsed@.len() - i,
    {
        proof {
            assert(pv.take(i + 1).drop_last() == pv.take(i as int));
        }
        match &parsed[i] {
            Some(f) => {
                if !is_dot(f.name.as_str()) {
                    out.push(Entry {
                        name: f.name.clone(),
                        is_dir: f.is_dir,
                        is_parent: false,
                        size: f.size,
                        modified: Some(f.modified),
                    });
                }
            },
            None => {},
        }
        i = i + 1;
    }
    proof {
        assert(pv.take(parsed@.len() as int) == pv);
    }
    out
}

/// `parsed` holds, line by line, what each of `lines` parsed to: the name,
/// folder flag and size that suppaftp reads from that very line (with some
/// time), present whenever the line parses whatever the year.
pub open spec fn parses_of(lines: Seq<String>, parsed: Seq<Option<(Seq<char>, bool, u64, i128)>>) -> bool {
    &&& parsed.len() == lines.len()
    &&& forall|i: int| 0 <= i < parsed.len() ==> {
        &&& (#[trigger] parsed[i] matches Some(f) ==> (f.0, f.1, f.2) == list_line_fields(lines[i]@))
        &&& (parses_any_year(lines[i]@) ==> parsed[i] is Some)
    }
}

/// The rows of a remote folder from the lines of its LIST reply: ".."
/// first, then one row per line that parses, except "." and "..", in the
/// order of the lines, with the name, kind and size read from that line;
/// every line that parses whatever the year gives a row (unless it is "."
/// or ".."). A POSIX line without a year may parse only in some years, and
/// times rest on the clock (see `parse_list_line`); `listing_entries` gives
/// the rows for any parse.
pub fn list_entries(lines: &Vec<String>) -> (r: Vec<Entry>)
    ensures
        exists|parsed: Seq<Option<(Seq<char>, bool, u64, i128)>>|
            parses_of(lines@, parsed) && #[trigger] shows_files(r@, shown_files(parsed)),
        r@.len() >= 1,
        r@[0].is_parent,
        r@.len() <= lines@.len() + 1,
        forall|j: int| 1 <= j < r@.len() ==> !(#[trigger] r@[j]).is_parent && !is_dot_name(r@[j].name@),
{
    let mut parsed: Vec<Option<RemoteFile>> = Vec::new();
    let mut i: usize = 0;
    while i < lines.len()
        invariant
            i <= lines@.len(),
            parses_of(lines@.take(i as int), parsed_view(parsed@)),
        decreases lines@.len() - i,
    {
        let file = match parse_list_line(lines[i].as_str()) {
            Some(l) => {
                let (after, secs, nanos) = epoch_offset(&l.modified);
                Some(RemoteFile { name: l.name, is_dir: l.is_dir, size: l.size, modified: nanos_from_epoch(after, secs, nanos) })
            },
            None => None,
        };
        let ghost before = parsed@;
        parsed.push(file);
        proof {
            assert(parsed_view(parsed@) == parsed_view(before).push(parsed_view(parsed@)[i as int]));
            assert(lines@.take(i + 1)[i as int] == lines@[i as int]);
            assert forall|k: int| 0 <= k < i + 1 implies {
                &&& (#[trigger] parsed_view(parsed@)[k] matches Some(f)
                    ==> (f.0, f.1, f.2) == list_line_fields(lines@.take(i + 1)[k]@))
                &&& (parses_any_year(lines@.take(i + 1)[k]@) ==> parsed_view(parsed@)[k] is Some)
            } by {
                if k < i {
                    assert(parsed_view(parsed@)[k] == parsed_view(before)[k]);
                    assert(lines@.take(i + 1)[k] == lines@.take(i as int)[k]);
                }
            }
        }
        i = i + 1;
    }
    proof {
        assert(lines@.take(lines@.len() as int) == lines@);
    }
    let ghost pv = parsed_view(parsed@);
    proof {
        lemma_shown_files_bounded(pv);
    }
    let r = listing_entries(parsed);
    proof {
        assert(parses_of(lines@, pv));
        assert(shows_files(r@, shown_files(pv)));
        let files = shown_files(pv);
        assert forall|j: int| 1 <= j < r@.len() implies !(#[trigger] r@[j]).is_parent && !is_dot_name(r@[j].name@) by {
            assert(r@[(j - 1) + 1].name@ == files[j - 1].0);
        }
    }
    r
}

/// A listing skips exactly the names "." and "..": every other line that
/// parsed gives a row with its name, kind, size and time, and no row but
/// the first is named "." or "..".
pub proof fn law_listing_skips_only_dots(
    parsed: Seq<Option<(Seq<char>, bool, u64, i128)>>,
    rows: Seq<Entry>,
    j: int,
    f: (Seq<char>, bool, u64, i128),
)
    requires
        shows_files(rows, shown_files(parsed)),
    ensures
        0 <= j < parsed.len() && parsed[j] == Some(f) && f.0 != seq!['.'] && f.0 != seq!['.', '.'] ==> exists|k: int|
            1 <= k < rows.len() && (#[trigger] rows[k]).name@ == f.0 && rows[k].is_dir == f.1
                && rows[k].size == f.2 && rows[k].modified == Some(f.3) && !rows[k].is_parent,
        forall|k: int| 1 <= k < rows.len() ==> (#[trigger] rows[k]).name@ != seq!['.'] && rows[k].name@ != seq!['.', '.'],
{
    lemma_shown_files_bounded(parsed);
    let files = shown_files(parsed);
    assert forall|k: int| 1 <= k < rows.len() implies (#[trigger] rows[k]).name@ != seq!['.'] && rows[k].name@ != seq!['.', '.'] by {
        assert(rows[(k - 1) + 1].name@ == files[k - 1].0);
    }
    if 0 <= j < parsed.len() && parsed[j] == Some(f) && f.0 != seq!['.'] && f.0 != seq!['.', '.'] {
        let idx = lemma_shown_holds(parsed, j, f);
        assert(rows[idx + 1].name@ == files[idx].0);
    }
}

/// A parsed line other than "." or ".." is among the files shown.
proof fn lemma_shown_holds(parsed: Seq<Option<(Seq<char>, bool, u64, i128)>>, j: int, f: (Seq<char>, bool, u64, i128)) -> (idx: int)
    requires
        0 <= j < parsed.len(),
        parsed[j] == Some(f),
        f.0 != seq!['.'],
        f.0 != seq!['.', '.'],
    ensures
        0 <= idx < shown_files(parsed).len(),
        shown_files(parsed)[idx] == f,
    decreases parsed.len(),
{
    let rest = shown_files(parsed.drop_last());
    if j == parsed.len() - 1 {
        assert(!is_dot_name(f.0));
        rest.len() as int
    } else {
        assert(parsed.drop_last()[j] == parsed[j]);
        let i = lemma_shown_holds(parsed.drop_last(), j, f);
        i
    }
}

/// What is shown is no more than what was parsed, and holds no "." or "..".
proof fn lemma_shown_files_bounded(parsed: Seq<Option<(Seq<char>, bool, u64, i128)>>)
    ensures
        shown_files(parsed).len() <= parsed.len(),
        forall|j: int| 0 <= j < shown_files(parsed).len() ==> !is_dot_name(#[trigger] shown_files(parsed)[j].0),
    decreases parsed.len(),
{
    if parsed.len() > 0 {
        lemma_shown_files_bounded(parsed.drop_last());
    }
}

/// The message of a failed FTP command: "FTP: " and the error's text.
pub fn ftp_io(err: &str) -> (r: String)
    ensures
        r@ == "FTP: "@ + err@,
{
    let mut out: Vec<char> = Vec::new();
    push_str(&mut out, "FTP: ");
    push_str(&mut out, err);
    string_of(out.as_slice())
}

} // verus!
