//! Browsing inside a zip archive: the rows of one archive folder, and which
//! archive members an extraction writes where.
use vstd::prelude::*;
use crate::model::Entry;
use crate::listing_order::{text_order, text_order_of, lemma_text_order_antisym, lemma_text_order_trans, lemma_text_order_zero};
use crate::text::{chars_between, chars_of, push_str, string_of};
use crate::vfs::{ends_with_char, free_of};

verus! {

/// One member of an archive as the archive lists it.
pub struct ZipItem {
    pub name: String,
    pub size: u64,
}

/// A member's name with '\' turned into '/'.
pub open spec fn normalized(name: Seq<char>) -> Seq<char> {
    name.map_values(|c: char| if c == '\\' { '/' } else { c })
}

/// The position of the first `c` in `s`, if any.
pub open spec fn first_index(s: Seq<char>, c: char) -> Option<int>
    decreases s.len(),
{
    if s.len() == 0 {
        None
    } else if s[0] == c {
        Some(0)
    } else {
        match first_index(s.drop_first(), c) {
            Some(i) => Some(i + 1),
            None => None,
        }
    }
}

/// The folder `inner` as a name prefix: "" for the root, else "<inner>/".
pub open spec fn folder_prefix(inner: Seq<char>) -> Seq<char> {
    if inner.len() == 0 { Seq::empty() } else { inner.push('/') }
}

/// The rows of a folder, by name: whether each is a folder, and its size.
pub type Children = Map<Seq<char>, (bool, u64)>;

/// What one member adds to the rows of the folder with name prefix `prefix`:
/// a member directly inside names a file (the last such member wins); a
/// member deeper down names the sub-folder it lies in, unless that name is
/// already there.
pub open spec fn add_member(m: Children, prefix: Seq<char>, raw: Seq<char>, size: u64) -> Children {
    let name = normalized(raw);
    if !prefix.is_prefix_of(name) {
        m
    } else {
        let rest = name.skip(prefix.len() as int);
        if rest.len() == 0 {
            m
        } else {
            match first_index(rest, '/') {
                Some(p) => {
                    let k = rest.take(p);
                    if m.contains_key(k) { m } else { m.insert(k, (true, 0u64)) }
                },
                None => if ends_with_char(name, '/') { m } else { m.insert(rest, (false, size)) },
            }
        }
    }
}

/// The rows contributed by the first `n` members, in archive order.
pub open spec fn children_of(items: Seq<(Seq<char>, u64)>, prefix: Seq<char>, n: int) -> Children
    decreases n,
{
    if n <= 0 {
        Map::empty()
    } else {
        add_member(children_of(items, prefix, n - 1), prefix, items[n - 1].0, items[n - 1].1)
    }
}

/// The members as (name, size) pairs.
pub open spec fn items_view(items: Seq<ZipItem>) -> Seq<(Seq<char>, u64)> {
    items.map_values(|it: ZipItem| (it.name@, it.size))
}

/// `rows` lists the folder `m`: ".." first, then one row per name of `m`,
/// in ascending name order, each with its kind and size.
pub open spec fn lists_children(rows: Seq<Entry>, m: Children) -> bool {
    &&& rows.len() >= 1
    &&& rows[0].is_parent && rows[0].is_dir && rows[0].name@ == ".."@
    &&& forall|j: int| 1 <= j < rows.len() ==> {
        let e = #[trigger] rows[j];
        &&& !e.is_parent
        &&& e.modified is None
        &&& m.contains_key(e.name@)
        &&& m[e.name@] == (e.is_dir, e.size)
    }
    &&& forall|k: Seq<char>| #[trigger] m.contains_key(k) ==> exists|j: int| 1 <= j < rows.len() && rows[j].name@ == k
    &&& forall|i: int, j: int| 1 <= i < j < rows.len() ==> text_order(#[trigger] rows[i].name@, #[trigger] rows[j].name@) < 0
}

/// Rows kept as a list sorted by name.
struct Row {
    name: Vec<char>,
    is_dir: bool,
    size: u64,
}

spec fn rows_sorted(rows: Seq<Row>) -> bool {
    forall|i: int, j: int| 0 <= i < j < rows.len() ==> text_order(#[trigger] rows[i].name@, #[trigger] rows[j].name@) < 0
}

spec fn rows_are(rows: Seq<Row>, m: Children) -> bool {
    &&& forall|i: int| 0 <= i < rows.len() ==> {
        &&& m.contains_key(#[trigger] rows[i].name@)
        &&& m[rows[i].name@] == (rows[i].is_dir, rows[i].size)
    }
    &&& forall|k: Seq<char>| #[trigger] m.contains_key(k) ==> exists|i: int| 0 <= i < rows.len() && rows[i].name@ == k
}

/// `name` with every '\' turned into '/'.
fn normalize(name: &str) -> (r: Vec<char>)
    ensures
        r@ == normalized(name@),
{
    let cs = chars_of(name);
    let mut out: Vec<char> = Vec::new();
    let mut i: usize = 0;
    while i < cs.len()
        invariant
            i <= cs@.len(),
            cs@ == name@,
            out@ == normalized(cs@.take(i as int)),
        decreases cs@.len() - i,
    {
        let c = cs[i];
        out.push(if c == '\\' { '/' } else { c });
        proof {
            assert(cs@.take(i + 1) == cs@.take(i as int).push(c));
            assert(normalized(cs@.take(i + 1)) =~= normalized(cs@.take(i as int)).push(if c == '\\' { '/' } else { c }));
        }
        i = i + 1;
    }
    proof {
        assert(cs@.take(cs@.len() as int) == cs@);
    }
    out
}

/// The position of the first `c` in `s`.
fn first_index_of(s: &Vec<char>, c: char) -> (r: Option<usize>)
    ensures
        r is Some <==> first_index(s@, c) is Some,
        r matches Some(i) ==> first_index(s@, c) == Some(i as int) && i < s@.len(),
{
    let mut i: usize = 0;
    proof {
        assert(s@.skip(0) == s@);
    }
    while i < s.len()
        invariant
            i <= s@.len(),
            forall|j: int| 0 <= j < i ==> s@[j] != c,
            first_index(s@, c) == match first_index(s@.skip(i as int), c) {
                Some(j) => Some(j + i),
                None => None,
            },
        decreases s@.len() - i,
    {
        if s[i] == c {
            return Some(i);
        }
        proof {
            assert(s@.skip(i as int).drop_first() == s@.skip(i + 1));
        }
        i = i + 1;
    }
    None
}

/// Whether `p` is a prefix of `s`.
fn has_prefix(s: &Vec<char>, p: &Vec<char>) -> (r: bool)
    ensures
        r == p@.is_prefix_of(s@),
{
    if p.len() > s.len() {
        return false;
    }
    let mut i: usize = 0;
    while i < p.len()
        invariant
            p@.len() <= s@.len(),
            i <= p@.len(),
            forall|j: int| 0 <= j < i ==> p@[j] == s@[j],
        decreases p@.len() - i,
    {
        if p[i] != s[i] {
            return false;
        }
        i = i + 1;
    }
    proof {
        assert(s@.take(p@.len() as int) =~= p@);
    }
    true
}

/// The name prefix of the archive folder `inner`.
fn prefix_for(inner: &str) -> (r: Vec<char>)
    ensures
        r@ == folder_prefix(inner@),
{
    let mut p = chars_of(inner);
    if p.len() > 0 {
        p.push('/');
    }
    p
}

/// Where `key` belongs among the sorted rows, and whether it is there.
fn locate(rows: &Vec<Row>, key: &Vec<char>) -> (r: (usize, bool))
    requires
        rows_sorted(rows@),
    ensures
        r.0 <= rows@.len(),
        forall|i: int| 0 <= i < r.0 ==> text_order(#[trigger] rows@[i].name@, key@) < 0,
        r.1 == (r.0 < rows@.len() && rows@[r.0 as int].name@ == key@),
        !r.1 ==> forall|i: int| 0 <= i < rows@.len() ==> #[trigger] rows@[i].name@ != key@,
        !r.1 ==> forall|i: int| r.0 <= i < rows@.len() ==> text_order(key@, #[trigger] rows@[i].name@) < 0,
{
    let mut lo: usize = 0;
    let mut hi: usize = rows.len();
    while lo < hi
        invariant
            rows_sorted(rows@),
            lo <= hi <= rows@.len(),
            forall|i: int| 0 <= i < lo ==> text_order(#[trigger] rows@[i].name@, key@) < 0,
            forall|i: int| hi <= i < rows@.len() ==> text_order(key@, #[trigger] rows@[i].name@) <= 0,
        decreases hi - lo,
    {
        let mid = lo + (hi - lo) / 2;
        let c = text_order_of(&rows[mid].name, key);
        if c < 0 {
            proof {
                assert forall|i: int| 0 <= i < mid + 1 implies text_order(#[trigger] rows@[i].name@, key@) < 0 by {
                    if lo <= i < mid {
                        lemma_text_order_trans(rows@[i].name@, rows@[mid as int].name@, key@);
                    }
                }
            }
            lo = mid + 1;
        } else {
            proof {
                lemma_text_order_antisym(rows@[mid as int].name@, key@);
                assert forall|i: int| mid <= i < rows@.len() implies text_order(key@, #[trigger] rows@[i].name@) <= 0 by {
                    if mid < i < hi {
                        lemma_text_order_trans(key@, rows@[mid as int].name@, rows@[i].name@);
                    }
                }
            }
            hi = mid;
        }
    }
    let found = if lo < rows.len() {
        let c = text_order_of(&rows[lo].name, key);
        proof {
            lemma_text_order_antisym(rows@[lo as int].name@, key@);
            if rows@[lo as int].name@ == key@ {
                lemma_text_order_zero(key@);
            }
        }
        c == 0
    } else {
        false
    };
    proof {
        if !found {
            assert forall|i: int| lo <= i < rows@.len() implies text_order(key@, #[trigger] rows@[i].name@) < 0 by {
                lemma_text_order_antisym(key@, rows@[lo as int].name@);
                lemma_text_order_antisym(key@, rows@[i].name@);
                if i > lo {
                    lemma_text_order_trans(key@, rows@[lo as int].name@, rows@[i].name@);
                }
            }
            assert forall|i: int| 0 <= i < rows@.len() implies #[trigger] rows@[i].name@ != key@ by {
                lemma_text_order_zero(key@);
            }
        }
    }
    (lo, found)
}

/// Records a row: a file replaces whatever had its name; a folder is added
/// only when the name is new.
fn place(rows: &mut Vec<Row>, key: Vec<char>, is_dir: bool, size: u64, Ghost(m): Ghost<Children>)
    requires
        rows_sorted(old(rows)@),
        rows_are(old(rows)@, m),
    ensures
        rows_sorted(final(rows)@),
        !is_dir ==> rows_are(final(rows)@, m.insert(key@, (false, size))),
        is_dir ==> rows_are(
            final(rows)@,
            if m.contains_key(key@) { m } else { m.insert(key@, (true, size)) },
        ),
{
    let (pos, found) = locate(rows, &key);
    let ghost old_rows = rows@;
    let ghost k = key@;
    if found {
        if !is_dir {
            let row = Row { name: key, is_dir: false, size };
            rows.remove(pos);
            rows.insert(pos, row);
            proof {
                assert(rows@ == old_rows.update(pos as int, row));
                let m2 = m.insert(k, (false, size));
                assert forall|i: int| 0 <= i < rows@.len() implies {
                    &&& m2.contains_key(#[trigger] rows@[i].name@)
                    &&& m2[rows@[i].name@] == (rows@[i].is_dir, rows@[i].size)
                } by {
                    if i != pos {
                        assert(rows@[i] == old_rows[i]);
                        assert(old_rows[i].name@ != k) by {
                            if i < pos {
                                lemma_text_order_zero(k);
                            } else {
                                assert(text_order(old_rows[pos as int].name@, old_rows[i].name@) < 0);
                                lemma_text_order_zero(k);
                            }
                        }
                    }
                }
                assert forall|x: Seq<char>| #[trigger] m2.contains_key(x) implies exists|i: int| 0 <= i < rows@.len() && rows@[i].name@ == x by {
                    if x == k {
                        assert(rows@[pos as int].name@ == x);
                    } else {
                        let i = choose|i: int| 0 <= i < old_rows.len() && old_rows[i].name@ == x;
                        assert(i != pos);
                        assert(rows@[i].name@ == x);
                    }
                }
                assert forall|i: int, j: int| 0 <= i < j < rows@.len() implies text_order(#[trigger] rows@[i].name@, #[trigger] rows@[j].name@) < 0 by {
                    assert(old_rows[i].name@ == rows@[i].name@ || i == pos);
                    assert(old_rows[j].name@ == rows@[j].name@ || j == pos);
                    assert(old_rows[pos as int].name@ == rows@[pos as int].name@);
                }
            }
        } else {
            proof {
                assert(m.contains_key(k));
            }
        }
    } else {
        let row = Row { name: key, is_dir, size };
        rows.insert(pos, row);
        proof {
            assert(!m.contains_key(k)) by {
                if m.contains_key(k) {
                    let i = choose|i: int| 0 <= i < old_rows.len() && old_rows[i].name@ == k;
                }
            }
            let m2 = m.insert(k, (is_dir, size));
            assert forall|i: int| 0 <= i < rows@.len() implies {
                &&& m2.contains_key(#[trigger] rows@[i].name@)
                &&& m2[rows@[i].name@] == (rows@[i].is_dir, rows@[i].size)
            } by {
                if i < pos {
                    assert(rows@[i] == old_rows[i]);
                } else if i > pos {
                    assert(rows@[i] == old_rows[i - 1]);
                }
            }
            assert forall|x: Seq<char>| #[trigger] m2.contains_key(x) implies exists|i: int| 0 <= i < rows@.len() && rows@[i].name@ == x by {
                if x == k {
                    assert(rows@[pos as int].name@ == x);
                } else {
                    let i = choose|i: int| 0 <= i < old_rows.len() && old_rows[i].name@ == x;
                    if i < pos {
                        assert(rows@[i].name@ == x);
                    } else {
                        assert(rows@[i + 1].name@ == x);
                    }
                }
            }
            assert forall|i: int, j: int| 0 <= i < j < rows@.len() implies text_order(#[trigger] rows@[i].name@, #[trigger] rows@[j].name@) < 0 by {
                if j < pos {
                    assert(rows@[i] == old_rows[i] && rows@[j] == old_rows[j]);
                } else if j == pos {
                    assert(rows@[i] == old_rows[i]);
                } else if i == pos {
                    assert(rows@[j] == old_rows[j - 1]);
                } else if i < pos {
                    assert(rows@[i] == old_rows[i] && rows@[j] == old_rows[j - 1]);
                } else {
                    assert(rows@[i] == old_rows[i - 1] && rows@[j] == old_rows[j - 1]);
                }
            }
        }
    }
}

/// The rows of the archive folder `inner` (a '/'-separated path without a
/// trailing '/', "" for the root), given the archive's members in archive
/// order: ".." first, then each file directly inside and each sub-folder,
/// in ascending name order.
pub fn list_folder(items: &Vec<ZipItem>, inner: &str) -> (r: Vec<Entry>)
    ensures
        lists_children(r@, children_of(items_view(items@), folder_prefix(inner@), items@.len() as int)),
{
    let prefix = prefix_for(inner);
    let ghost iv = items_view(items@);
    let ghost pre = folder_prefix(inner@);
    let mut rows: Vec<Row> = Vec::new();
    let mut i: usize = 0;
    while i < items.len()
        invariant
            i <= items@.len(),
            prefix@ == pre,
            iv == items_view(items@),
            rows_sorted(rows@),
            rows_are(rows@, children_of(iv, pre, i as int)),
        decreases items@.len() - i,
    {
        let ghost m = children_of(iv, pre, i as int);
        proof {
            assert(iv[i as int] == (items@[i as int].name@, items@[i as int].size));
            assert(children_of(iv, pre, i + 1) == add_member(m, pre, items@[i as int].name@, items@[i as int].size));
        }
        let name = normalize(items[i].name.as_str());
        if has_prefix(&name, &prefix) {
            let rest = chars_between(&name, prefix.len(), name.len());
            proof {
                assert(rest@ == name@.skip(pre.len() as int));
            }
            if rest.len() > 0 {
                match first_index_of(&rest, '/') {
                    Some(p) => {
                        let k = chars_between(&rest, 0, p);
                        proof {
                            assert(k@ == rest@.take(p as int));
                        }
                        place(&mut rows, k, true, 0, Ghost(m));
                    },
                    None => {
                        let n = name.len();
                        if !(n > 0 && name[n - 1] == '/') {
                            place(&mut rows, rest, false, items[i].size, Ghost(m));
                        }
                    },
                }
            }
        }
        i = i + 1;
    }
    let mut out: Vec<Entry> = Vec::new();
    out.push(Entry::parent());
    let mut j: usize = 0;
    let ghost m = children_of(iv, pre, items@.len() as int);
    while j < rows.len()
        invariant
            j <= rows@.len(),
            rows_sorted(rows@),
            rows_are(rows@, m),
            out@.len() == j + 1,
            out@[0].is_parent && out@[0].is_dir && out@[0].name@ == ".."@,
            forall|t: int| 1 <= t <= j ==> {
                let e = #[trigger] out@[t];
                &&& !e.is_parent
                &&& e.modified is None
                &&& e.name@ == rows@[t - 1].name@
                &&& e.is_dir == rows@[t - 1].is_dir
                &&& e.size == rows@[t - 1].size
            },
        decreases rows@.len() - j,
    {
        let row = &rows[j];
        out.push(Entry {
            name: string_of(row.name.as_slice()),
            is_dir: row.is_dir,
            is_parent: false,
            size: row.size,
            modified: None,
        });
        j = j + 1;
    }
    proof {
        assert forall|k: Seq<char>| #[trigger] m.contains_key(k) implies exists|t: int| 1 <= t < out@.len() && out@[t].name@ == k by {
            let i = choose|i: int| 0 <= i < rows@.len() && rows@[i].name@ == k;
            assert(out@[i + 1].name@ == k);
        }
        assert forall|a: int, b: int| 1 <= a < b < out@.len() implies text_order(#[trigger] out@[a].name@, #[trigger] out@[b].name@) < 0 by {
            assert(out@[a].name@ == rows@[a - 1].name@);
            assert(out@[b].name@ == rows@[b - 1].name@);
        }
    }
    out
}

/// What `first_index` finds is the first `c`; when it finds none, there is
/// none.
pub proof fn lemma_first_index(s: Seq<char>, c: char)
    ensures
        first_index(s, c) is None ==> free_of(s, c),
        first_index(s, c) matches Some(p) ==> 0 <= p < s.len() && s[p] == c && free_of(s.take(p), c),
    decreases s.len(),
{
    if s.len() > 0 && s[0] != c {
        lemma_first_index(s.drop_first(), c);
        assert forall|i: int| 0 < i < s.len() implies s[i] == s.drop_first()[i - 1] by {}
        if let Some(p) = first_index(s.drop_first(), c) {
            assert forall|i: int| 0 <= i < p + 1 implies #[trigger] s.take(p + 1)[i] != c by {
                if i > 0 {
                    assert(s.take(p + 1)[i] == s.drop_first().take(p)[i - 1]);
                }
            }
        }
    }
}

/// Every row of an archive folder is a single name component: it holds no
/// '/'.
pub proof fn law_rows_are_components(items: Seq<(Seq<char>, u64)>, prefix: Seq<char>, n: int)
    ensures
        forall|k: Seq<char>| #[trigger] children_of(items, prefix, n).contains_key(k) ==> free_of(k, '/'),
    decreases n,
{
    if n > 0 {
        law_rows_are_components(items, prefix, n - 1);
        let m = children_of(items, prefix, n - 1);
        let name = normalized(items[n - 1].0);
        if prefix.is_prefix_of(name) {
            let rest = name.skip(prefix.len() as int);
            lemma_first_index(rest, '/');
            if let Some(p) = first_index(rest, '/') {
                assert(free_of(rest.take(p), '/'));
            }
        }
    }
}

/// The selected names as texts.
pub open spec fn names_view(names: Seq<String>) -> Seq<Seq<char>> {
    names.map_values(|s: String| s@)
}

/// The member `name` is one of the selected rows of the folder with prefix
/// `prefix`, or lies inside one of them.
pub open spec fn selected_under(name: Seq<char>, prefix: Seq<char>, names: Seq<Seq<char>>) -> bool {
    exists|i: int|
        0 <= i < names.len() && (name == prefix + #[trigger] names[i] || (prefix + names[i]).push('/').is_prefix_of(name))
}

/// What extraction does with the member `raw`: nothing, unless it is
/// selected or lies inside a selected folder; then it is written at its path
/// relative to the folder being viewed, as a folder when its name ends in '/'.
pub open spec fn extract_target_spec(raw: Seq<char>, inner: Seq<char>, names: Seq<Seq<char>>) -> Option<(Seq<char>, bool)> {
    let name = normalized(raw);
    let prefix = folder_prefix(inner);
    if selected_under(name, prefix, names) {
        Some((name.skip(prefix.len() as int), ends_with_char(name, '/')))
    } else {
        None
    }
}

/// Where extracting the selected rows `names` of the archive folder `inner`
/// puts the member named `raw`: its relative path and whether it is a
/// folder, or nothing when it is not part of the selection.
pub fn extract_target(raw: &str, inner: &str, names: &Vec<String>) -> (r: Option<(String, bool)>)
    ensures
        match (r, extract_target_spec(raw@, inner@, names_view(names@))) {
            (Some((rel, dir)), Some((srel, sdir))) => rel@ == srel && dir == sdir,
            (None, None) => true,
            _ => false,
        },
{
    let name = normalize(raw);
    let prefix = prefix_for(inner);
    let ghost nv = names_view(names@);
    let mut found = false;
    let mut k: usize = 0;
    while k < names.len()
        invariant
            k <= names@.len(),
            nv == names_view(names@),
            prefix@ == folder_prefix(inner@),
            name@ == normalized(raw@),
            found ==> selected_under(name@, prefix@, nv),
            !found ==> forall|i: int| 0 <= i < k ==> !(name@ == prefix@ + #[trigger] nv[i] || (prefix@ + nv[i]).push('/').is_prefix_of(name@)),
        decreases names@.len() - k,
    {
        let mut sel = prefix.clone();
        push_str(&mut sel, names[k].as_str());
        let exact = text_order_of(&sel, &name) == 0;
        proof {
            lemma_text_order_antisym(sel@, name@);
            if sel@ == name@ {
                lemma_text_order_zero(name@);
            }
        }
        sel.push('/');
        let inside = has_prefix(&name, &sel);
        if exact || inside {
            proof {
                assert(nv[k as int] == names@[k as int]@);
            }
            found = true;
        }
        k = k + 1;
    }
    if !found {
        return None;
    }
    let n = name.len();
    let rel = chars_between(&name, prefix.len(), n);
    let is_dir = n > 0 && name[n - 1] == '/';
    proof {
        let i = choose|i: int|
            0 <= i < nv.len() && (name@ == prefix@ + #[trigger] nv[i] || (prefix@ + nv[i]).push('/').is_prefix_of(name@));
        assert(prefix@.len() <= name@.len());
        assert(rel@ == name@.skip(prefix@.len() as int));
    }
    Some((string_of(rel.as_slice()), is_dir))
}

/// Extracting a row takes the row itself and everything inside it, at any
/// depth: a member named as a selected row of the viewed folder, or lying
/// below one, is written at its path relative to the viewed folder; any
/// other member is left out.
pub proof fn law_extract_takes_descendants(raw: Seq<char>, inner: Seq<char>, names: Seq<Seq<char>>, i: int)
    ensures
        0 <= i < names.len() && (normalized(raw) == folder_prefix(inner) + names[i]
            || (folder_prefix(inner) + names[i]).push('/').is_prefix_of(normalized(raw)))
            ==> extract_target_spec(raw, inner, names) == Some((
                normalized(raw).skip(folder_prefix(inner).len() as int),
                normalized(raw).len() > 0 && normalized(raw).last() == '/',
            )),
        (forall|k: int| 0 <= k < names.len() ==> normalized(raw) != folder_prefix(inner) + #[trigger] names[k]
            && !(folder_prefix(inner) + names[k]).push('/').is_prefix_of(normalized(raw)))
            ==> extract_target_spec(raw, inner, names) is None,
{
    let name = normalized(raw);
    let prefix = folder_prefix(inner);
    if 0 <= i < names.len() && (name == prefix + names[i] || (prefix + names[i]).push('/').is_prefix_of(name)) {
        assert(selected_under(name, prefix, names));
    }
}

/// Every member directly inside the viewed folder that names a file is
/// listed as a file of its size, whatever that size (zero included): the
/// last such member under that name gives the row.
pub proof fn law_file_members_listed(items: Seq<(Seq<char>, u64)>, inner: Seq<char>, j: int, rest: Seq<char>, rows: Seq<Entry>)
    requires
        0 <= j < items.len(),
        normalized(items[j].0) == folder_prefix(inner) + rest,
        rest.len() > 0,
        free_of(rest, '/'),
        forall|k: int| j < k < items.len() ==> normalized(#[trigger] items[k].0) != folder_prefix(inner) + rest,
        lists_children(rows, children_of(items, folder_prefix(inner), items.len() as int)),
    ensures
        exists|r: int| 1 <= r < rows.len() && (#[trigger] rows[r]).name@ == rest && !rows[r].is_dir && rows[r].size == items[j].1,
{
    let prefix = folder_prefix(inner);
    lemma_file_member_kept(items, prefix, j, rest, items.len() as int);
    let m = children_of(items, prefix, items.len() as int);
    assert(m.contains_key(rest));
    let r = choose|r: int| 1 <= r < rows.len() && rows[r].name@ == rest;
    assert(m[rows[r].name@] == (rows[r].is_dir, rows[r].size));
}

/// Once the file member `j` directly inside the folder is counted, its row
/// stays that file until another member of the very same name comes.
proof fn lemma_file_member_kept(items: Seq<(Seq<char>, u64)>, prefix: Seq<char>, j: int, rest: Seq<char>, n: int)
    requires
        0 <= j < n <= items.len(),
        normalized(items[j].0) == prefix + rest,
        rest.len() > 0,
        free_of(rest, '/'),
        forall|k: int| j < k < items.len() ==> normalized(#[trigger] items[k].0) != prefix + rest,
    ensures
        children_of(items, prefix, n).contains_key(rest),
        children_of(items, prefix, n)[rest] == (false, items[j].1),
    decreases n,
{
    if n == j + 1 {
        let name = normalized(items[j].0);
        assert(prefix.is_prefix_of(name)) by {
            assert forall|x: int| 0 <= x < prefix.len() implies prefix[x] == name[x] by {
                assert(name[x] == (prefix + rest)[x]);
            }
        }
        assert(name.skip(prefix.len() as int) =~= rest);
        lemma_first_index(rest, '/');
        if first_index(rest, '/') is Some {
            assert(false);
        }
        assert(name.last() == rest.last());
    } else {
        lemma_file_member_kept(items, prefix, j, rest, n - 1);
        let k = n - 1;
        let name = normalized(items[k].0);
        if prefix.is_prefix_of(name) {
            let rk = name.skip(prefix.len() as int);
            assert(name =~= prefix + rk);
            if rk.len() > 0 {
                match first_index(rk, '/') {
                    Some(p) => {},
                    None => {
                        assert(rk != rest);
                    },
                }
            }
        }
    }
}

/// An extracted member lands at its own path relative to the folder being
/// viewed: that folder's prefix followed by the target is the member's name.
pub proof fn law_extract_relative(raw: Seq<char>, inner: Seq<char>, names: Seq<Seq<char>>)
    ensures
        extract_target_spec(raw, inner, names) matches Some((rel, _))
            ==> folder_prefix(inner) + rel == normalized(raw),
{
    let name = normalized(raw);
    let prefix = folder_prefix(inner);
    if selected_under(name, prefix, names) {
        let i = choose|i: int|
            0 <= i < names.len() && (name == prefix + #[trigger] names[i] || (prefix + names[i]).push('/').is_prefix_of(name));
        if name == prefix + names[i] {
            assert(prefix.is_prefix_of(name));
        } else {
            let sel = (prefix + names[i]).push('/');
            assert forall|k: int| 0 <= k < prefix.len() implies prefix[k] == name[k] by {
                assert(sel[k] == prefix[k]);
            }
        }
        assert(prefix + name.skip(prefix.len() as int) =~= name);
    }
}

/// What the zip crate reads from the archive held in `archive`: the
/// members' names and sizes in archive order, or the text of the first
/// error it met (opening the archive, or reading a member's header).
pub uninterp spec fn zip_members(archive: Seq<u8>) -> Result<Seq<(Seq<char>, u64)>, Seq<char>>;

/// Calls zip: `ZipArchive::new` over the bytes, then `by_index`, `name` and
/// `size` for each member. The result is named.
#[verifier::external_body]
fn read_zip_members(bytes: &[u8]) -> (r: Result<Vec<ZipItem>, String>)
    ensures
        match (r, zip_members(bytes@)) {
            (Ok(v), Ok(m)) => items_view(v@) == m,
            (Err(e), Err(t)) => e@ == t,
            _ => false,
        },
{
    let mut zip = zip::ZipArchive::new(std::io::Cursor::new(bytes)).map_err(|e| e.to_string())?;
    let mut items = Vec::with_capacity(zip.len());
    for i in 0..zip.len() {
        let e = zip.by_index(i).map_err(|e| e.to_string())?;
        items.push(ZipItem { name: e.name().to_string(), size: e.size() });
    }
    Ok(items)
}

/// What the zip crate reads as the data of the member at `index` of the
/// archive held in `archive`: the uncompressed bytes, or an error, marked
/// `true` when it is the zip crate's own (opening the archive or finding the
/// member) and `false` when reading the data failed, with its text.
pub uninterp spec fn zip_member_data(archive: Seq<u8>, index: int) -> Result<Seq<u8>, (bool, Seq<char>)>;

/// Calls zip: `ZipArchive::new` over the bytes, `by_index(index)`, then
/// reads the member to its end. The result is named.
#[verifier::external_body]
fn read_zip_member(bytes: &[u8], index: usize) -> (r: Result<Vec<u8>, (bool, String)>)
    ensures
        match (r, zip_member_data(bytes@, index as int)) {
            (Ok(d), Ok(t)) => d@ == t,
            (Err((z, e)), Err((y, t))) => z == y && e@ == t,
            _ => false,
        },
{
    let mut zip = zip::ZipArchive::new(std::io::Cursor::new(bytes)).map_err(|e| (true, e.to_string()))?;
    let mut member = zip.by_index(index).map_err(|e| (true, e.to_string()))?;
    let mut data = Vec::new();
    std::io::Read::read_to_end(&mut member, &mut data).map_err(|e| (false, e.to_string()))?;
    Ok(data)
}

/// The text of a zip error as the panel reports it: "zip: " and the error.
pub open spec fn zip_error_text(t: Seq<char>) -> Seq<char> {
    "zip: "@ + t
}

fn zip_error(t: String) -> (r: String)
    ensures
        r@ == zip_error_text(t@),
{
    let mut out: Vec<char> = Vec::new();
    push_str(&mut out, "zip: ");
    push_str(&mut out, t.as_str());
    string_of(out.as_slice())
}

/// The members of the archive held in `bytes`, in archive order, or the
/// zip error that stopped the reading.
pub fn zip_items(bytes: &[u8]) -> (r: Result<Vec<ZipItem>, String>)
    ensures
        match zip_members(bytes@) {
            Ok(m) => r matches Ok(v) && items_view(v@) == m,
            Err(t) => r matches Err(e) && e@ == zip_error_text(t),
        },
{
    match read_zip_members(bytes) {
        Ok(v) => Ok(v),
        Err(t) => Err(zip_error(t)),
    }
}

/// The rows of the folder `inner` of the zip archive held in `bytes`: ".."
/// first, then its members and sub-folders by name; or the zip error.
pub fn list_archive(bytes: &[u8], inner: &str) -> (r: Result<Vec<Entry>, String>)
    ensures
        match zip_members(bytes@) {
            Ok(m) => r matches Ok(rows) && lists_children(rows@, children_of(m, folder_prefix(inner@), m.len() as int)),
            Err(t) => r matches Err(e) && e@ == zip_error_text(t),
        },
{
    match zip_items(bytes) {
        Ok(items) => Ok(list_folder(&items, inner)),
        Err(e) => Err(e),
    }
}

/// What extracting one member does.
pub enum MemberStep {
    /// The job was cancelled: stop before this member.
    Stop,
    /// The member is not part of the selection: count it as done.
    Skip,
    /// Write the member at `rel` under the target folder: a folder when
    /// `is_dir` (with no data), else a file holding `data`; show `rel` as
    /// the current name, then count the member as done.
    Write { rel: String, is_dir: bool, data: Vec<u8> },
    /// Reading the member failed: the job ends with this message.
    Fail(String),
}

/// What extraction does with the member at `i` of the archive held in
/// `archive`, when not cancelled: skips it unless it is part of the
/// selection; makes a selected folder; writes a selected file with the
/// member's data, or fails with the read error (a zip error as "zip: ...").
pub open spec fn member_outcome(archive: Seq<u8>, folder: Seq<char>, selection: Seq<Seq<char>>, i: int, r: MemberStep) -> bool {
    match zip_members(archive) {
        Ok(m) => match extract_target_spec(m[i].0, folder, selection) {
            None => r is Skip,
            Some((rel, true)) => r matches MemberStep::Write { rel: x, is_dir: true, data }
                && x@ == rel && data@.len() == 0,
            Some((rel, false)) => match zip_member_data(archive, i) {
                Ok(d) => r matches MemberStep::Write { rel: x, is_dir: false, data }
                    && x@ == rel && data@ == d,
                Err((z, t)) => r matches MemberStep::Fail(e)
                    && e@ == (if z { zip_error_text(t) } else { t }),
            },
        },
        Err(_) => false,
    }
}

/// An extraction in progress: the archive's bytes, its members, the archive
/// folder being viewed and the selected rows of it.
pub struct Extraction {
    bytes: Vec<u8>,
    items: Vec<ZipItem>,
    inner: String,
    names: Vec<String>,
}

impl Extraction {
    /// The members are what the zip crate reads from the bytes.
    #[verifier::type_invariant]
    spec fn members_read(self) -> bool {
        zip_members(self.bytes@) == Ok::<Seq<(Seq<char>, u64)>, Seq<char>>(items_view(self.items@))
    }

    /// The archive's bytes.
    pub closed spec fn archive(self) -> Seq<u8> {
        self.bytes@
    }

    /// The archive folder being viewed.
    pub closed spec fn folder(self) -> Seq<char> {
        self.inner@
    }

    /// The selected rows.
    pub closed spec fn selection(self) -> Seq<Seq<char>> {
        names_view(self.names@)
    }

    /// The number of members.
    pub closed spec fn count(self) -> nat {
        self.items@.len()
    }

    /// Starts extracting the rows `names` of the folder `inner` of the
    /// archive held in `bytes`; the zip error when its members cannot be read.
    pub fn open(bytes: Vec<u8>, inner: String, names: Vec<String>) -> (r: Result<Extraction, String>)
        ensures
            match zip_members(bytes@) {
                Ok(m) => r matches Ok(x) && x.archive() == bytes@ && x.folder() == inner@
                    && x.selection() == names_view(names@) && x.count() == m.len(),
                Err(t) => r matches Err(e) && e@ == zip_error_text(t),
            },
    {
        match zip_items(bytes.as_slice()) {
            Ok(items) => Ok(Extraction { bytes, items, inner, names }),
            Err(e) => Err(e),
        }
    }

    /// The number of members, each of which the job takes one step on.
    pub fn len(&self) -> (r: usize)
        ensures
            r == self.count(),
            zip_members(self.archive()) matches Ok(m) && m.len() == r,
    {
        proof {
            use_type_invariant(self);
        }
        self.items.len()
    }

    /// The step on the member at `i`: nothing more once cancelled; a member
    /// outside the selection is skipped; a selected folder is made; a
    /// selected file is written with its data, or the job fails when its data
    /// cannot be read (a zip error as "zip: ...", a read error as it is).
    pub fn step(&self, i: usize, cancelled: bool) -> (r: MemberStep)
        requires
            i < self.count(),
        ensures
            cancelled ==> r is Stop,
            !cancelled ==> member_outcome(self.archive(), self.folder(), self.selection(), i as int, r),
    {
        proof {
            use_type_invariant(self);
        }
        if cancelled {
            return MemberStep::Stop;
        }
        match extract_target(self.items[i].name.as_str(), self.inner.as_str(), &self.names) {
            None => MemberStep::Skip,
            Some((rel, is_dir)) => {
                if is_dir {
                    MemberStep::Write { rel, is_dir, data: Vec::new() }
                } else {
                    match read_zip_member(self.bytes.as_slice(), i) {
                        Ok(data) => MemberStep::Write { rel, is_dir, data },
                        Err((z, t)) => if z { MemberStep::Fail(zip_error(t)) } else { MemberStep::Fail(t) },
                    }
                }
            },
        }
    }
}

} // verus!
