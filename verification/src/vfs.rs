//! Where a panel is: a local folder, a folder inside a zip archive, or a
//! folder on an FTP server; and how entering and leaving move between them.
use vstd::prelude::*;
use crate::model::{Entry, last_index, last_index_of, lemma_last_index};
use crate::paths::{joined, parent_of, path_join, path_parent};
use crate::text::{chars_between, chars_of, lower, push_str, string_of, to_lower};

verus! {

/// The place a panel shows.
pub enum Location {
    /// A folder on this machine.
    Local(String),
    /// A folder inside a zip archive; `inner` is "" for the archive's root,
    /// else a '/'-separated path without a trailing '/'.
    Archive { archive: String, inner: String },
    /// A folder on an FTP server; `session` identifies the open connection.
    Remote { session: u64, host: String, path: String },
}

/// A location as texts.
pub enum LocView {
    Local(Seq<char>),
    Archive { archive: Seq<char>, inner: Seq<char> },
    Remote { session: u64, host: Seq<char>, path: Seq<char> },
}

impl View for Location {
    type V = LocView;

    open spec fn view(&self) -> LocView {
        match self {
            Location::Local(p) => LocView::Local(p@),
            Location::Archive { archive, inner } => LocView::Archive { archive: archive@, inner: inner@ },
            Location::Remote { session, host, path } => LocView::Remote { session: *session, host: host@, path: path@ },
        }
    }
}

/// The view of an optional location.
pub open spec fn opt_view(l: Option<Location>) -> Option<LocView> {
    match l {
        Some(x) => Some(x@),
        None => None,
    }
}

/// `s` ends with `c`.
pub open spec fn ends_with_char(s: Seq<char>, c: char) -> bool {
    s.len() > 0 && s.last() == c
}

/// `s` holds no `c`.
pub open spec fn free_of(s: Seq<char>, c: char) -> bool {
    forall|i: int| 0 <= i < s.len() ==> s[i] != c
}

/// `name` inside the remote folder `path`: joined with '/' unless `path`
/// already ends with one.
pub open spec fn join_remote_spec(path: Seq<char>, name: Seq<char>) -> Seq<char> {
    if ends_with_char(path, '/') { path + name } else { path + seq!['/'] + name }
}

/// `s` without its trailing '/' characters.
pub open spec fn trim_slashes(s: Seq<char>) -> Seq<char>
    decreases s.len(),
{
    if ends_with_char(s, '/') { trim_slashes(s.drop_last()) } else { s }
}

/// The remote folder above `path`: what precedes the last '/' once trailing
/// slashes are dropped, or "/" when that is the root.
pub open spec fn parent_remote_spec(path: Seq<char>) -> Seq<char> {
    let t = trim_slashes(path);
    match last_index(t, '/') {
        Some(i) => if i > 0 { t.subrange(0, i) } else { seq!['/'] },
        None => seq!['/'],
    }
}

/// A name ends in ".zip", in any case.
pub open spec fn is_zip_spec(name: Seq<char>) -> bool {
    let l = lower(name);
    l.len() >= 4 && l.subrange(l.len() - 4, l.len() as int) == seq!['.', 'z', 'i', 'p']
}

/// `name` inside the archive folder `inner`.
pub open spec fn join_inner_spec(inner: Seq<char>, name: Seq<char>) -> Seq<char> {
    if inner.len() == 0 { name } else { inner + seq!['/'] + name }
}

/// The archive folder above `inner`: what precedes its last '/', or the root.
pub open spec fn parent_inner_spec(inner: Seq<char>) -> Seq<char> {
    match last_index(inner, '/') {
        Some(i) => inner.subrange(0, i),
        None => Seq::empty(),
    }
}

/// `v` is the top of an archive or of an FTP site, which a panel leaves for
/// the local home folder.
pub open spec fn at_top(v: LocView) -> bool {
    ||| v matches LocView::Archive { inner, .. } && inner.len() == 0
    ||| v matches LocView::Remote { path, .. } && (path == seq!['/'] || path.len() == 0)
}

/// The location above `v`, where `home` is the local home folder: the
/// folder above a local one (none at a root); the top of an archive or of an
/// FTP site leads home; else the folder above inside the archive or on the
/// site.
pub open spec fn parent_view(v: LocView, home: Seq<char>) -> Option<LocView> {
    if at_top(v) {
        Some(LocView::Local(home))
    } else {
        match v {
            LocView::Local(p) => match parent_of(p) {
                Some(q) => Some(LocView::Local(q)),
                None => None,
            },
            LocView::Archive { archive, inner } => Some(LocView::Archive { archive, inner: parent_inner_spec(inner) }),
            LocView::Remote { session, host, path } => Some(LocView::Remote { session, host, path: parent_remote_spec(path) }),
        }
    }
}

/// Where opening the row `e` at `v` leads: the ".." row goes up (see
/// `parent_view`), other rows as `enter_view` says.
pub open spec fn open_view(v: LocView, e: Entry, home: Seq<char>) -> Option<LocView> {
    if e.is_parent { parent_view(v, home) } else { enter_view(v, e) }
}

/// Where entering the non-".." entry `e` from `v` leads: into a folder, or
/// into a zip archive from a local folder; nowhere for other files.
pub open spec fn enter_view(v: LocView, e: Entry) -> Option<LocView> {
    match v {
        LocView::Local(p) => if e.is_dir {
            Some(LocView::Local(joined(p, e.name@)))
        } else if is_zip_spec(e.name@) {
            Some(LocView::Archive { archive: joined(p, e.name@), inner: Seq::empty() })
        } else {
            None
        },
        LocView::Archive { archive, inner } => if e.is_dir {
            Some(LocView::Archive { archive, inner: join_inner_spec(inner, e.name@) })
        } else {
            None
        },
        LocView::Remote { session, host, path } => if e.is_dir {
            Some(LocView::Remote { session, host, path: join_remote_spec(path, e.name@) })
        } else {
            None
        },
    }
}

/// The label over a panel: the folder path, "[zip] <archive>" or
/// "[zip] <archive>\<inner>", or "ftp://<host><path>".
pub open spec fn display_view(v: LocView) -> Seq<char> {
    match v {
        LocView::Local(p) => p,
        LocView::Archive { archive, inner } => if inner.len() == 0 {
            "[zip] "@ + archive
        } else {
            "[zip] "@ + archive + "\\"@ + inner
        },
        LocView::Remote { host, path, .. } => "ftp://"@ + host + path,
    }
}

/// A text free of `c` has no last `c`.
pub proof fn lemma_last_index_absent(s: Seq<char>, c: char)
    requires
        free_of(s, c),
    ensures
        last_index(s, c) is None,
    decreases s.len(),
{
    if s.len() > 0 {
        lemma_last_index_absent(s.drop_last(), c);
    }
}

/// The last `c` of `x + [c] + y`, where `y` holds none, is the one added.
pub proof fn lemma_last_index_after(x: Seq<char>, y: Seq<char>, c: char)
    requires
        free_of(y, c),
    ensures
        last_index(x + seq![c] + y, c) == Some(x.len() as int),
    decreases y.len(),
{
    if y.len() == 0 {
        assert(x + seq![c] + y == x.push(c));
    } else {
        assert((x + seq![c] + y).drop_last() == x + seq![c] + y.drop_last());
        lemma_last_index_after(x, y.drop_last(), c);
    }
}

/// Going into an archive folder and back up returns to where one was.
pub proof fn law_inner_round_trip(inner: Seq<char>, name: Seq<char>)
    requires
        free_of(name, '/'),
    ensures
        parent_inner_spec(join_inner_spec(inner, name)) == inner,
{
    if inner.len() == 0 {
        lemma_last_index_absent(name, '/');
    } else {
        lemma_last_index_after(inner, name, '/');
        assert((inner + seq!['/'] + name).subrange(0, inner.len() as int) == inner);
    }
}

/// A remote folder path as the panel keeps it: the root "/", or a path that
/// does not end in '/'.
pub open spec fn tidy_remote(path: Seq<char>) -> bool {
    path == seq!['/'] || (path.len() > 0 && !ends_with_char(path, '/'))
}

/// Going into a remote folder and back up returns to where one was.
pub proof fn law_remote_round_trip(path: Seq<char>, name: Seq<char>)
    requires
        tidy_remote(path),
        name.len() > 0,
        free_of(name, '/'),
    ensures
        parent_remote_spec(join_remote_spec(path, name)) == path,
{
    let j = join_remote_spec(path, name);
    assert(!ends_with_char(j, '/')) by {
        assert(j.last() == name.last());
    }
    assert(trim_slashes(j) == j);
    if path == seq!['/'] {
        assert(j == Seq::<char>::empty() + seq!['/'] + name);
        lemma_last_index_after(Seq::empty(), name, '/');
    } else {
        lemma_last_index_after(path, name, '/');
        assert(j.subrange(0, path.len() as int) == path);
    }
}

/// Entering a folder inside an archive and then going up returns to the
/// same place.
pub proof fn law_archive_enter_then_up(archive: Seq<char>, inner: Seq<char>, e: Entry, home: Seq<char>)
    requires
        e.is_dir,
        e.name@.len() > 0,
        free_of(e.name@, '/'),
    ensures
        enter_view(LocView::Archive { archive, inner }, e) matches Some(v)
            && parent_view(v, home) == Some(LocView::Archive { archive, inner }),
{
    law_inner_round_trip(inner, e.name@);
    assert(join_inner_spec(inner, e.name@).len() > 0);
}

/// The top of an archive or of an FTP site leads to the local home folder.
pub proof fn law_tops_lead_home(v: LocView, home: Seq<char>)
    requires
        at_top(v),
    ensures
        parent_view(v, home) == Some(LocView::Local(home)),
{
}

/// Opening the ".." row goes where going up goes.
pub proof fn law_parent_row_goes_up(v: LocView, e: Entry, home: Seq<char>)
    requires
        e.is_parent,
    ensures
        open_view(v, e, home) == parent_view(v, home),
{
}

/// Entering a folder on an FTP server and then going up returns to the same
/// place.
pub proof fn law_remote_enter_then_up(session: u64, host: Seq<char>, path: Seq<char>, e: Entry, home: Seq<char>)
    requires
        e.is_dir,
        tidy_remote(path),
        e.name@.len() > 0,
        free_of(e.name@, '/'),
    ensures
        enter_view(LocView::Remote { session, host, path }, e) matches Some(v)
            && parent_view(v, home) == Some(LocView::Remote { session, host, path }),
{
    law_remote_round_trip(path, e.name@);
    let j = join_remote_spec(path, e.name@);
    assert(j.len() > 1) by {
        if path == seq!['/'] {
            assert(j.len() == 1 + e.name@.len());
        }
    }
}

/// Calls the `directories` crate for the user's home folder; it depends on
/// the environment, so nothing is stated of it.
#[verifier::external_body]
fn home_dir() -> Option<String> {
    directories::UserDirs::new().map(|d| d.home_dir().to_string_lossy().into_owned())
}

/// Where panels start, given the home folder that was found: that folder,
/// else "C:\".
pub fn start_dir_from(home: Option<String>) -> (r: String)
    ensures
        match home {
            Some(h) => r == h,
            None => r@ == "C:\\"@,
        },
{
    match home {
        Some(h) => h,
        None => String::from_str("C:\\"),
    }
}

/// Where panels start: the user's home folder, else "C:\".
pub fn default_start_dir() -> String {
    start_dir_from(home_dir())
}

/// `name` inside the remote folder `path`.
pub fn join_remote(path: &str, name: &str) -> (r: String)
    ensures
        r@ == join_remote_spec(path@, name@),
{
    let p = chars_of(path);
    let mut out = p.clone();
    if !(p.len() > 0 && p[p.len() - 1] == '/') {
        out.push('/');
    }
    push_str(&mut out, name);
    string_of(out.as_slice())
}

/// `s` without trailing '/' characters.
fn trim_trailing_slashes(s: &Vec<char>) -> (r: Vec<char>)
    ensures
        r@ == trim_slashes(s@),
{
    let mut k: usize = s.len();
    proof {
        assert(s@.subrange(0, s@.len() as int) == s@);
    }
    while k > 0 && s[k - 1] == '/'
        invariant
            k <= s@.len(),
            trim_slashes(s@) == trim_slashes(s@.subrange(0, k as int)),
        decreases k,
    {
        proof {
            assert(s@.subrange(0, k as int).drop_last() == s@.subrange(0, k - 1));
        }
        k = k - 1;
    }
    let mut out: Vec<char> = Vec::new();
    let mut i: usize = 0;
    while i < k
        invariant
            k <= s@.len(),
            i <= k,
            out@ == s@.subrange(0, i as int),
        decreases k - i,
    {
        out.push(s[i]);
        proof {
            assert(s@.subrange(0, i + 1) == s@.subrange(0, i as int).push(s@[i as int]));
        }
        i = i + 1;
    }
    proof {
        assert(!ends_with_char(s@.subrange(0, k as int), '/'));
    }
    out
}

/// The text "/".
fn root_text() -> (r: String)
    ensures
        r@ == seq!['/'],
{
    let r = String::from_str("/");
    proof {
        reveal_strlit("/");
    }
    r
}

/// The remote folder above `path`.
pub fn parent_remote(path: &str) -> (r: String)
    ensures
        r@ == parent_remote_spec(path@),
{
    let t = trim_trailing_slashes(&chars_of(path));
    match last_index_of(&t, '/') {
        Some(i) => {
            if i > 0 {
                string_of(chars_between(&t, 0, i).as_slice())
            } else {
                root_text()
            }
        },
        None => root_text(),
    }
}

/// The name ends in ".zip", in any case.
pub fn is_zip(name: &str) -> (r: bool)
    ensures
        r == is_zip_spec(name@),
{
    let l = chars_of(to_lower(name).as_str());
    let n = l.len();
    if n < 4 {
        return false;
    }
    let r = l[n - 4] == '.' && l[n - 3] == 'z' && l[n - 2] == 'i' && l[n - 1] == 'p';
    proof {
        let tail = l@.subrange(n - 4, n as int);
        if r {
            assert(tail =~= seq!['.', 'z', 'i', 'p']);
        } else {
            assert(tail[0] != '.' || tail[1] != 'z' || tail[2] != 'i' || tail[3] != 'p');
        }
    }
    r
}

/// `name` inside the archive folder `inner`.
pub fn join_inner(inner: &str, name: &str) -> (r: String)
    ensures
        r@ == join_inner_spec(inner@, name@),
{
    if inner.is_empty() {
        String::from_str(name)
    } else {
        let mut out = chars_of(inner);
        out.push('/');
        push_str(&mut out, name);
        string_of(out.as_slice())
    }
}

/// The archive folder above `inner`.
pub fn parent_inner(inner: &str) -> (r: String)
    ensures
        r@ == parent_inner_spec(inner@),
{
    let cs = chars_of(inner);
    match last_index_of(&cs, '/') {
        Some(i) => string_of(chars_between(&cs, 0, i).as_slice()),
        None => String::new(),
    }
}

impl Location {
    /// A copy, field by field.
    pub fn duplicate(&self) -> (r: Location)
        ensures
            r@ == self@,
    {
        match self {
            Location::Local(p) => Location::Local(p.clone()),
            Location::Archive { archive, inner } => Location::Archive { archive: archive.clone(), inner: inner.clone() },
            Location::Remote { session, host, path } => Location::Remote { session: *session, host: host.clone(), path: path.clone() },
        }
    }

    /// The path label.
    pub fn display(&self) -> (r: String)
        ensures
            r@ == display_view(self@),
    {
        match self {
            Location::Local(p) => p.clone(),
            Location::Archive { archive, inner } => {
                let mut out: Vec<char> = Vec::new();
                push_str(&mut out, "[zip] ");
                push_str(&mut out, archive.as_str());
                if !inner.as_str().is_empty() {
                    push_str(&mut out, "\\");
                    push_str(&mut out, inner.as_str());
                }
                string_of(out.as_slice())
            },
            Location::Remote { host, path, .. } => {
                let mut out: Vec<char> = Vec::new();
                push_str(&mut out, "ftp://");
                push_str(&mut out, host.as_str());
                push_str(&mut out, path.as_str());
                string_of(out.as_slice())
            },
        }
    }

    /// The location above this one, `home` being the local home folder: a
    /// local folder's parent (none at a root), home from the top of an
    /// archive or an FTP site, else the folder above inside them.
    pub fn parent_from(&self, home: String) -> (r: Option<Location>)
        ensures
            opt_view(r) == parent_view(self@, home@),
    {
        match self {
            Location::Local(p) => match path_parent(p.as_str()) {
                Some(q) => Some(Location::Local(q)),
                None => None,
            },
            Location::Archive { archive, inner } => {
                if inner.as_str().is_empty() {
                    Some(Location::Local(home))
                } else {
                    Some(Location::Archive { archive: archive.clone(), inner: parent_inner(inner.as_str()) })
                }
            },
            Location::Remote { session, host, path } => {
                let root = root_text();
                let at_root = path.as_str().is_empty() || path.eq(&root);
                if at_root {
                    Some(Location::Local(home))
                } else {
                    Some(Location::Remote { session: *session, host: host.clone(), path: parent_remote(path.as_str()) })
                }
            },
        }
    }

    /// The location above this one, with the user's home folder (see
    /// `default_start_dir`) as home. Which folder that is rests on the
    /// environment; away from the top of an archive or site it plays no part.
    pub fn parent(&self) -> (r: Option<Location>)
        ensures
            exists|home: Seq<char>| opt_view(r) == #[trigger] parent_view(self@, home),
            at_top(self@) ==> (r matches Some(l) && l@ is Local),
            !at_top(self@) ==> opt_view(r) == parent_view(self@, Seq::empty()),
    {
        let home = default_start_dir();
        let ghost h = home@;
        let r = self.parent_from(home);
        assert(opt_view(r) == parent_view(self@, h));
        r
    }

    /// The location reached by opening `entry` here, `home` being the local
    /// home folder: the ".." row goes up (see `parent_from`), a folder goes
    /// in, a zip archive in a local folder is opened; other files lead
    /// nowhere.
    pub fn enter_from(&self, entry: &Entry, home: String) -> (r: Option<Location>)
        ensures
            opt_view(r) == open_view(self@, *entry, home@),
    {
        if entry.is_parent {
            return self.parent_from(home);
        }
        match self {
            Location::Local(p) => {
                if entry.is_dir {
                    Some(Location::Local(path_join(p.as_str(), entry.name.as_str())))
                } else if is_zip(entry.name.as_str()) {
                    Some(Location::Archive { archive: path_join(p.as_str(), entry.name.as_str()), inner: String::new() })
                } else {
                    None
                }
            },
            Location::Archive { archive, inner } => {
                if entry.is_dir {
                    Some(Location::Archive { archive: archive.clone(), inner: join_inner(inner.as_str(), entry.name.as_str()) })
                } else {
                    None
                }
            },
            Location::Remote { session, host, path } => {
                if entry.is_dir {
                    Some(Location::Remote { session: *session, host: host.clone(), path: join_remote(path.as_str(), entry.name.as_str()) })
                } else {
                    None
                }
            },
        }
    }

    /// The location reached by opening `entry` here, with the user's home
    /// folder as home (see `parent`).
    pub fn enter(&self, entry: &Entry) -> (r: Option<Location>)
        ensures
            exists|home: Seq<char>| opt_view(r) == #[trigger] open_view(self@, *entry, home),
            !entry.is_parent ==> opt_view(r) == enter_view(self@, *entry),
            entry.is_parent && at_top(self@) ==> (r matches Some(l) && l@ is Local),
            entry.is_parent && !at_top(self@) ==> opt_view(r) == parent_view(self@, Seq::empty()),
    {
        if entry.is_parent {
            let r = self.parent();
            proof {
                let h = choose|home: Seq<char>| opt_view(r) == #[trigger] parent_view(self@, home);
                assert(open_view(self@, *entry, h) == parent_view(self@, h));
            }
            return r;
        }
        let r = self.enter_from(entry, String::new());
        assert(opt_view(r) == open_view(self@, *entry, Seq::empty()));
        r
    }

    /// The local folder, when this is one.
    pub fn as_local(&self) -> (r: Option<&String>)
        ensures
            self@ matches LocView::Local(p) ==> (r matches Some(q) && q@ == p),
            !(self@ is Local) ==> r is None,
    {
        match self {
            Location::Local(p) => Some(p),
            _ => None,
        }
    }

    /// The archive and the folder inside it, when this is one.
    pub fn as_archive(&self) -> (r: Option<(&String, &str)>)
        ensures
            self@ matches LocView::Archive { archive, inner } ==> (r matches Some((a, i)) && a@ == archive && i@ == inner),
            !(self@ is Archive) ==> r is None,
    {
        match self {
            Location::Archive { archive, inner } => Some((archive, inner.as_str())),
            _ => None,
        }
    }

    /// The connection and the remote folder, when this is one.
    pub fn as_remote(&self) -> (r: Option<(u64, &str)>)
        ensures
            self@ matches LocView::Remote { session, path, .. } ==> (r matches Some((s, p)) && s == session && p@ == path),
            !(self@ is Remote) ==> r is None,
    {
        match self {
            Location::Remote { session, path, .. } => Some((*session, path.as_str())),
            _ => None,
        }
    }
}

} // verus!
