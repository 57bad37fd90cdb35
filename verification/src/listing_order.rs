//! The order in which a panel lists its entries, and its algebra.
use vstd::prelude::*;
use crate::model::{Entry, entry_ext};
use crate::text::{chars_of, to_lower};
use vstd::seq_lib::lemma_multiset_commutative;
use crate::state::{Sort, SortKey, SortOrder};
use crate::text::lower;

verus! {

/// Three-way comparison of texts, character by character by code point
/// (the byte order of their UTF-8 form, which is how `str` compares):
/// -1 when `a` comes first, 0 when equal, 1 when `b` comes first.
pub open spec fn text_order(a: Seq<char>, b: Seq<char>) -> int
    decreases a.len(),
{
    if a.len() == 0 {
        if b.len() == 0 { 0 } else { -1 }
    } else if b.len() == 0 {
        1
    } else if (a[0] as int) < (b[0] as int) {
        -1
    } else if (a[0] as int) > (b[0] as int) {
        1
    } else {
        text_order(a.drop_first(), b.drop_first())
    }
}

/// Three-way comparison of numbers.
pub open spec fn int_order(x: int, y: int) -> int {
    if x < y { -1 } else if x > y { 1 } else { 0 }
}

/// Three-way comparison of optional times: an unknown time comes first.
pub open spec fn time_order(x: Option<i128>, y: Option<i128>) -> int {
    match (x, y) {
        (None, None) => 0,
        (None, Some(_)) => -1,
        (Some(_), None) => 1,
        (Some(a), Some(b)) => int_order(a as int, b as int),
    }
}

/// Names compared without regard to case: their lower-case forms compared.
pub open spec fn name_order(a: Entry, b: Entry) -> int {
    text_order(lower(a.name@), lower(b.name@))
}

/// The comparison a sort key asks for; by extension, equal extensions fall
/// back to the names.
pub open spec fn key_order(key: SortKey, a: Entry, b: Entry) -> int {
    match key {
        SortKey::Name => name_order(a, b),
        SortKey::Size => int_order(a.size as int, b.size as int),
        SortKey::Modified => time_order(a.modified, b.modified),
        SortKey::Ext => {
            let c = text_order(entry_ext(a), entry_ext(b));
            if c != 0 { c } else { name_order(a, b) }
        },
    }
}

/// The panel order: the ".." row first, then folders, then files; within
/// each group the sort key, reversed for a descending sort.
pub open spec fn entry_order(sort: Sort, a: Entry, b: Entry) -> int {
    if a.is_parent != b.is_parent {
        if a.is_parent { -1 } else { 1 }
    } else if a.is_dir != b.is_dir {
        if a.is_dir { -1 } else { 1 }
    } else if sort.order == SortOrder::Asc {
        key_order(sort.key, a, b)
    } else {
        -key_order(sort.key, a, b)
    }
}

/// A three-way comparison's laws at `a`, `b`, `c`: swapping flips the sign,
/// and "not after" chains, strictly when one link is strict.
pub open spec fn order_laws(ab: int, ba: int, bc: int, ac: int) -> bool {
    &&& ab == -ba
    &&& -1 <= ab <= 1
    &&& (ab <= 0 && bc <= 0) ==> ac <= 0
    &&& (ab <= 0 && bc <= 0 && (ab < 0 || bc < 0)) ==> ac < 0
}

/// Text comparison flips with its arguments, is zero only on equal texts,
/// and lies in -1..=1.
pub proof fn lemma_text_order_antisym(a: Seq<char>, b: Seq<char>)
    ensures
        text_order(a, b) == -text_order(b, a),
        -1 <= text_order(a, b) <= 1,
        text_order(a, b) == 0 ==> a == b,
    decreases a.len(),
{
    if a.len() > 0 && b.len() > 0 && (a[0] as int) == (b[0] as int) {
        lemma_text_order_antisym(a.drop_first(), b.drop_first());
        if text_order(a, b) == 0 {
            assert(a[0] == b[0]);
            assert(a =~= seq![a[0]] + a.drop_first());
            assert(b =~= seq![b[0]] + b.drop_first());
        }
    }
}

/// Text comparison is transitive, strictly when one step is strict.
pub proof fn lemma_text_order_trans(a: Seq<char>, b: Seq<char>, c: Seq<char>)
    ensures
        (text_order(a, b) <= 0 && text_order(b, c) <= 0) ==> text_order(a, c) <= 0,
        (text_order(a, b) <= 0 && text_order(b, c) <= 0 && (text_order(a, b) < 0 || text_order(
            b,
            c,
        ) < 0)) ==> text_order(a, c) < 0,
    decreases a.len(),
{
    lemma_text_order_antisym(a, b);
    lemma_text_order_antisym(b, c);
    lemma_text_order_antisym(a, c);
    if a.len() > 0 && b.len() > 0 && c.len() > 0 {
        lemma_text_order_trans(a.drop_first(), b.drop_first(), c.drop_first());
    }
}

proof fn lemma_name_order_laws(a: Entry, b: Entry, c: Entry)
    ensures
        order_laws(name_order(a, b), name_order(b, a), name_order(b, c), name_order(a, c)),
        name_order(a, b) == 0 <==> lower(a.name@) == lower(b.name@),
{
    lemma_text_order_antisym(lower(a.name@), lower(b.name@));
    lemma_text_order_antisym(lower(b.name@), lower(c.name@));
    lemma_text_order_trans(lower(a.name@), lower(b.name@), lower(c.name@));
    if lower(a.name@) == lower(b.name@) {
        lemma_text_order_zero(lower(a.name@));
    }
}

/// A text compares equal to itself.
pub proof fn lemma_text_order_zero(a: Seq<char>)
    ensures
        text_order(a, a) == 0,
    decreases a.len(),
{
    if a.len() > 0 {
        lemma_text_order_zero(a.drop_first());
    }
}

proof fn lemma_key_order_laws(key: SortKey, a: Entry, b: Entry, c: Entry)
    ensures
        order_laws(key_order(key, a, b), key_order(key, b, a), key_order(key, b, c), key_order(key, a, c)),
{
    lemma_name_order_laws(a, b, c);
    match key {
        SortKey::Ext => {
            let (ea, eb, ec) = (entry_ext(a), entry_ext(b), entry_ext(c));
            lemma_text_order_antisym(ea, eb);
            lemma_text_order_antisym(eb, ec);
            lemma_text_order_antisym(ea, ec);
            lemma_text_order_trans(ea, eb, ec);
            lemma_text_order_trans(eb, ec, ea);
            lemma_text_order_trans(ec, ea, eb);
            lemma_text_order_trans(eb, ea, ec);
            lemma_text_order_trans(ea, ec, eb);
            lemma_name_order_laws(b, c, a);
            lemma_name_order_laws(a, c, b);
        },
        _ => {},
    }
}

/// The panel order obeys the laws of a three-way comparison.
pub proof fn lemma_entry_order_laws(sort: Sort, a: Entry, b: Entry, c: Entry)
    ensures
        order_laws(entry_order(sort, a, b), entry_order(sort, b, a), entry_order(sort, b, c), entry_order(sort, a, c)),
{
    lemma_key_order_laws(sort.key, a, b, c);
    lemma_key_order_laws(sort.key, c, b, a);
    lemma_key_order_laws(sort.key, b, a, c);
    lemma_key_order_laws(sort.key, a, c, b);
}

// ---------------------------------------------------------------------------
// Stable sorting

/// `after` is `before` sorted stably by the panel order, through the
/// permutation `p`: `after[k]` is `before[p[k]]`, and entries come in panel
/// order, equal ones in the order they had before.
pub open spec fn stable_sort_of(sort: Sort, before: Seq<Entry>, after: Seq<Entry>, p: Seq<int>) -> bool {
    &&& p.len() == before.len()
    &&& after.len() == before.len()
    &&& forall|k: int| 0 <= k < p.len() ==> 0 <= #[trigger] p[k] < before.len()
    &&& p.no_duplicates()
    &&& forall|k: int| 0 <= k < p.len() ==> #[trigger] after[k] == before[p[k]]
    &&& forall|k: int, l: int|
        0 <= k < l < p.len() ==> {
            let c = entry_order(sort, #[trigger] after[k], #[trigger] after[l]);
            c < 0 || (c == 0 && p[k] < p[l])
        }
}

/// After sorting, the ".." row precedes every other row.
pub proof fn law_parent_first(sort: Sort, before: Seq<Entry>, after: Seq<Entry>, p: Seq<int>, k: int, l: int)
    requires
        stable_sort_of(sort, before, after, p),
        0 <= k < l < after.len(),
        after[l].is_parent,
    ensures
        after[k].is_parent,
{
    let c = entry_order(sort, after[k], after[l]);
    assert(c < 0 || (c == 0 && p[k] < p[l]));
}

/// After sorting, no file precedes a folder.
pub proof fn law_folders_before_files(sort: Sort, before: Seq<Entry>, after: Seq<Entry>, p: Seq<int>, k: int, l: int)
    requires
        stable_sort_of(sort, before, after, p),
        0 <= k < l < after.len(),
        after[l].is_dir,
    ensures
        after[k].is_dir || after[k].is_parent,
{
    let c = entry_order(sort, after[k], after[l]);
    assert(c < 0 || (c == 0 && p[k] < p[l]));
}

/// After sorting, rows of the same kind (both folders or both files) come
/// in key order: ascending, or descending for a descending sort.
pub proof fn law_key_order(sort: Sort, before: Seq<Entry>, after: Seq<Entry>, p: Seq<int>, k: int, l: int)
    requires
        stable_sort_of(sort, before, after, p),
        0 <= k < l < after.len(),
        after[k].is_parent == after[l].is_parent,
        after[k].is_dir == after[l].is_dir,
    ensures
        sort.order == SortOrder::Asc ==> key_order(sort.key, after[k], after[l]) <= 0,
        sort.order == SortOrder::Desc ==> key_order(sort.key, after[k], after[l]) >= 0,
{
    let c = entry_order(sort, after[k], after[l]);
    assert(c < 0 || (c == 0 && p[k] < p[l]));
}

/// Sorting keeps the entries: every entry given is somewhere in the
/// result, and the result has nothing else.
pub proof fn law_sort_keeps_entries(sort: Sort, before: Seq<Entry>, after: Seq<Entry>, p: Seq<int>)
    requires
        stable_sort_of(sort, before, after, p),
    ensures
        forall|k: int| 0 <= k < after.len() ==> before.contains(#[trigger] after[k]),
        forall|i: int| 0 <= i < before.len() ==> after.contains(#[trigger] before[i]),
{
    assert forall|k: int| 0 <= k < after.len() implies before.contains(#[trigger] after[k]) by {
        assert(before[p[k]] == after[k]);
    }
    assert forall|i: int| 0 <= i < before.len() implies after.contains(#[trigger] before[i]) by {
        lemma_permutation_covers(p, before.len() as int);
        assert(p.contains(i));
        let k = choose|k: int| 0 <= k < p.len() && p[k] == i;
        assert(after[k] == before[i]);
    }
}

/// Sorting has one outcome: any two stable sorts of the same rows by the
/// same sort go through the same permutation and give the same list.
pub proof fn law_sort_unique(sort: Sort, before: Seq<Entry>, a1: Seq<Entry>, p1: Seq<int>, a2: Seq<Entry>, p2: Seq<int>)
    requires
        stable_sort_of(sort, before, a1, p1),
        stable_sort_of(sort, before, a2, p2),
    ensures
        p1 == p2,
        a1 == a2,
{
    lemma_same_prefix(sort, before, a1, p1, a2, p2, p1.len() as int);
    assert(p1 =~= p2);
    assert forall|k: int| 0 <= k < a1.len() implies a1[k] == a2[k] by {
        assert(a1[k] == before[p1[k]]);
        assert(a2[k] == before[p2[k]]);
    }
    assert(a1 =~= a2);
}

/// Sorting rows that are already sorted changes nothing.
pub proof fn law_sort_idempotent(sort: Sort, rows: Seq<Entry>, sorted: Seq<Entry>, p: Seq<int>, again: Seq<Entry>, q: Seq<int>)
    requires
        stable_sort_of(sort, rows, sorted, p),
        stable_sort_of(sort, sorted, again, q),
    ensures
        again == sorted,
{
    let id = Seq::new(sorted.len(), |i: int| i);
    assert forall|k: int, l: int| 0 <= k < l < id.len() implies {
        let c = entry_order(sort, #[trigger] sorted[k], #[trigger] sorted[l]);
        c < 0 || (c == 0 && id[k] < id[l])
    } by {
        let c = entry_order(sort, sorted[k], sorted[l]);
        assert(c < 0 || (c == 0 && p[k] < p[l]));
    }
    assert forall|k: int| 0 <= k < id.len() implies #[trigger] sorted[k] == sorted[id[k]] by {}
    assert(id.no_duplicates());
    assert(stable_sort_of(sort, sorted, sorted, id));
    law_sort_unique(sort, sorted, again, q, sorted, id);
}

/// Two stable sorts of the same rows agree on their first `k` positions.
proof fn lemma_same_prefix(sort: Sort, before: Seq<Entry>, a1: Seq<Entry>, p1: Seq<int>, a2: Seq<Entry>, p2: Seq<int>, k: int)
    requires
        stable_sort_of(sort, before, a1, p1),
        stable_sort_of(sort, before, a2, p2),
        0 <= k <= p1.len(),
    ensures
        forall|t: int| 0 <= t < k ==> p1[t] == p2[t],
    decreases k,
{
    if k > 0 {
        lemma_same_prefix(sort, before, a1, p1, a2, p2, k - 1);
        let t = k - 1;
        let i = p1[t];
        let j = p2[t];
        if i != j {
            lemma_permutation_covers(p1, before.len() as int);
            lemma_permutation_covers(p2, before.len() as int);
            assert(0 <= i < before.len());
            assert(0 <= j < before.len());
            assert(p2.contains(i));
            assert(p1.contains(j));
            let m = choose|m: int| 0 <= m < p2.len() && p2[m] == i;
            let m2 = choose|m2: int| 0 <= m2 < p1.len() && p1[m2] == j;
            if m < t {
                assert(p1[m] == p2[m]);
                assert(p1[m] == p1[t]);
            }
            if m2 < t {
                assert(p2[m2] == p1[m2]);
                assert(p2[m2] == p2[t]);
            }
            assert(m > t);
            assert(m2 > t);
            let c1 = entry_order(sort, a2[t], a2[m]);
            let c2 = entry_order(sort, a1[t], a1[m2]);
            assert(a2[t] == before[j]);
            assert(a2[m] == before[i]);
            assert(a1[t] == before[i]);
            assert(a1[m2] == before[j]);
            assert(c1 < 0 || (c1 == 0 && p2[t] < p2[m]));
            assert(c2 < 0 || (c2 == 0 && p1[t] < p1[m2]));
            lemma_entry_order_laws(sort, before[i], before[j], before[i]);
            assert(false);
        }
    }
}

/// A list of `n` distinct positions below `n` names each position.
pub proof fn lemma_permutation_covers(p: Seq<int>, n: int)
    requires
        p.len() == n,
        p.no_duplicates(),
        forall|k: int| 0 <= k < p.len() ==> 0 <= #[trigger] p[k] < n,
    ensures
        forall|i: int| 0 <= i < n ==> #[trigger] p.contains(i),
{
    let full = vstd::set_lib::set_int_range(0, n);
    vstd::set_lib::lemma_int_range(0, n);
    p.unique_seq_to_set();
    assert(p.to_set().subset_of(full)) by {
        assert forall|x: int| p.to_set().contains(x) implies full.contains(x) by {
            let k = choose|k: int| 0 <= k < p.len() && p[k] == x;
        }
    }
    vstd::set_lib::lemma_len_subset(p.to_set(), full);
    vstd::set_lib::lemma_subset_equality(p.to_set(), full);
    assert forall|i: int| 0 <= i < n implies #[trigger] p.contains(i) by {
        assert(full.contains(i));
        assert(p.to_set().contains(i));
    }
}

/// Position `x` of `es` goes no later than position `y`.
pub open spec fn placed_before(es: Seq<Entry>, sort: Sort, x: int, y: int) -> bool {
    let c = entry_order(sort, es[x], es[y]);
    c < 0 || (c == 0 && x <= y)
}

/// The positions `s` of `es` are listed in panel order.
pub open spec fn sorted_positions(es: Seq<Entry>, sort: Sort, s: Seq<usize>) -> bool {
    forall|i: int, j: int|
        0 <= i < j < s.len() ==> placed_before(es, sort, #[trigger] s[i] as int, #[trigger] s[j] as int)
}

/// All positions of `s` lie inside `es`.
pub open spec fn positions_in(es: Seq<Entry>, s: Seq<usize>) -> bool {
    forall|k: int| 0 <= k < s.len() ==> #[trigger] s[k] < es.len()
}

/// "Goes no later" is transitive and total.
proof fn lemma_placed(es: Seq<Entry>, sort: Sort, x: int, y: int, z: int)
    ensures
        placed_before(es, sort, x, y) && placed_before(es, sort, y, z) ==> placed_before(es, sort, x, z),
        placed_before(es, sort, x, y) || placed_before(es, sort, y, x),
{
    lemma_entry_order_laws(sort, es[x], es[y], es[z]);
}

/// Moving an element of the third part to the end of the first keeps the
/// multiset of the whole.
proof fn lemma_multiset_move(x: Seq<usize>, y: Seq<usize>, z: Seq<usize>, e: usize)
    ensures
        (x.push(e) + y + z).to_multiset() == (x + y + (seq![e] + z)).to_multiset(),
{
    assert(x.push(e) == x + seq![e]);
    lemma_multiset_commutative(x + seq![e], y);
    lemma_multiset_commutative(x, seq![e]);
    lemma_multiset_commutative(x + seq![e] + y, z);
    lemma_multiset_commutative(x, y);
    lemma_multiset_commutative(x + y, seq![e] + z);
    lemma_multiset_commutative(seq![e], z);
    assert((x.push(e) + y + z).to_multiset() =~= (x + y + (seq![e] + z)).to_multiset());
}

/// What the sort reads of an entry, computed once.
struct EntryKey {
    parent: bool,
    dir: bool,
    name: Vec<char>,
    ext: Vec<char>,
    size: u64,
    modified: Option<i128>,
}

spec fn describes(k: EntryKey, e: Entry) -> bool {
    &&& k.parent == e.is_parent
    &&& k.dir == e.is_dir
    &&& k.name@ == lower(e.name@)
    &&& k.ext@ == entry_ext(e)
    &&& k.size == e.size
    &&& k.modified == e.modified
}

fn key_of(e: &Entry) -> (k: EntryKey)
    ensures
        describes(k, *e),
{
    let lowered = to_lower(e.name.as_str());
    let ext = e.ext();
    EntryKey {
        parent: e.is_parent,
        dir: e.is_dir,
        name: chars_of(lowered.as_str()),
        ext: chars_of(ext.as_str()),
        size: e.size,
        modified: e.modified,
    }
}

/// Three-way comparison of two texts given as characters.
pub fn text_order_of(a: &Vec<char>, b: &Vec<char>) -> (r: i8)
    ensures
        r == text_order(a@, b@),
{
    let mut i: usize = 0;
    proof {
        assert(a@.skip(0) == a@);
        assert(b@.skip(0) == b@);
    }
    loop
        invariant
            i <= a@.len(),
            i <= b@.len(),
            text_order(a@, b@) == text_order(a@.skip(i as int), b@.skip(i as int)),
        decreases a@.len() - i,
    {
        if i == a.len() {
            return if i == b.len() { 0 } else { -1 };
        }
        if i == b.len() {
            return 1;
        }
        let (x, y) = (a[i], b[i]);
        if x < y {
            return -1;
        }
        if x > y {
            return 1;
        }
        proof {
            assert(a@.skip(i as int).drop_first() == a@.skip(i + 1));
            assert(b@.skip(i as int).drop_first() == b@.skip(i + 1));
        }
        i = i + 1;
    }
}

fn int_order_of(x: u64, y: u64) -> (r: i8)
    ensures
        r == int_order(x as int, y as int),
{
    if x < y { -1 } else if x > y { 1 } else { 0 }
}

fn time_order_of(x: Option<i128>, y: Option<i128>) -> (r: i8)
    ensures
        r == time_order(x, y),
{
    match (x, y) {
        (None, None) => 0,
        (None, Some(_)) => -1,
        (Some(_), None) => 1,
        (Some(a), Some(b)) => if a < b { -1 } else if a > b { 1 } else { 0 },
    }
}

fn order_of(sort: Sort, a: &EntryKey, b: &EntryKey, Ghost(ea): Ghost<Entry>, Ghost(eb): Ghost<Entry>) -> (r: i8)
    requires
        describes(*a, ea),
        describes(*b, eb),
    ensures
        r == entry_order(sort, ea, eb),
{
    if a.parent != b.parent {
        return if a.parent { -1 } else { 1 };
    }
    if a.dir != b.dir {
        return if a.dir { -1 } else { 1 };
    }
    let c: i8 = match sort.key {
        SortKey::Name => text_order_of(&a.name, &b.name),
        SortKey::Size => int_order_of(a.size, b.size),
        SortKey::Modified => time_order_of(a.modified, b.modified),
        SortKey::Ext => {
            let e = text_order_of(&a.ext, &b.ext);
            if e != 0 { e } else { text_order_of(&a.name, &b.name) }
        },
    };
    proof {
        lemma_text_order_antisym(a.name@, b.name@);
        lemma_text_order_antisym(a.ext@, b.ext@);
    }
    assert(-1 <= c <= 1);
    match sort.order {
        SortOrder::Asc => c,
        SortOrder::Desc => -c,
    }
}

/// Merges two position lists that are each in panel order.
fn merge(
    keys: &Vec<EntryKey>,
    sort: Sort,
    Ghost(es): Ghost<Seq<Entry>>,
    a: Vec<usize>,
    b: Vec<usize>,
) -> (r: Vec<usize>)
    requires
        keys@.len() == es.len(),
        forall|i: int| 0 <= i < keys@.len() ==> describes(#[trigger] keys@[i], es[i]),
        positions_in(es, a@),
        positions_in(es, b@),
        sorted_positions(es, sort, a@),
        sorted_positions(es, sort, b@),
    ensures
        r@.to_multiset() == (a@ + b@).to_multiset(),
        sorted_positions(es, sort, r@),
        positions_in(es, r@),
{
    let mut out: Vec<usize> = Vec::new();
    let mut i: usize = 0;
    let mut j: usize = 0;
    proof {
        assert(a@.skip(0) == a@);
        assert(b@.skip(0) == b@);
        assert(out@ + a@.skip(0) + b@.skip(0) == a@ + b@);
    }
    while i < a.len() || j < b.len()
        invariant
            keys@.len() == es.len(),
            forall|i: int| 0 <= i < keys@.len() ==> describes(#[trigger] keys@[i], es[i]),
            positions_in(es, a@),
            positions_in(es, b@),
            sorted_positions(es, sort, a@),
            sorted_positions(es, sort, b@),
            i <= a@.len(),
            j <= b@.len(),
            (out@ + a@.skip(i as int) + b@.skip(j as int)).to_multiset() == (a@ + b@).to_multiset(),
            sorted_positions(es, sort, out@),
            positions_in(es, out@),
            forall|k: int, m: int|
                0 <= k < out@.len() && i <= m < a@.len() ==> placed_before(
                    es,
                    sort,
                    #[trigger] out@[k] as int,
                    #[trigger] a@[m] as int,
                ),
            forall|k: int, m: int|
                0 <= k < out@.len() && j <= m < b@.len() ==> placed_before(
                    es,
                    sort,
                    #[trigger] out@[k] as int,
                    #[trigger] b@[m] as int,
                ),
        decreases a@.len() + b@.len() - i - j,
    {
        let take_a = if i == a.len() {
            false
        } else if j == b.len() {
            true
        } else {
            let (x, y) = (a[i], b[j]);
            let c = order_of(sort, &keys[x], &keys[y], Ghost(es[x as int]), Ghost(es[y as int]));
            c < 0 || (c == 0 && x <= y)
        };
        let ghost old_out = out@;
        if take_a {
            let e = a[i];
            proof {
                assert forall|m: int| i < m < a@.len() implies placed_before(es, sort, e as int, #[trigger] a@[m] as int) by {
                }
                assert forall|m: int| j <= m < b@.len() implies placed_before(es, sort, e as int, #[trigger] b@[m] as int) by {
                    lemma_placed(es, sort, e as int, b@[j as int] as int, b@[m] as int);
                }
                assert(old_out.push(e) + a@.skip(i + 1) == old_out + a@.skip(i as int));
            }
            out.push(e);
            i = i + 1;
        } else {
            let e = b[j];
            proof {
                if i < a@.len() {
                    lemma_placed(es, sort, a@[i as int] as int, e as int, e as int);
                }
                assert forall|m: int| i <= m < a@.len() implies placed_before(es, sort, e as int, #[trigger] a@[m] as int) by {
                    lemma_placed(es, sort, e as int, a@[i as int] as int, a@[m] as int);
                }
                assert forall|m: int| j < m < b@.len() implies placed_before(es, sort, e as int, #[trigger] b@[m] as int) by {
                }
                lemma_multiset_move(old_out, a@.skip(i as int), b@.skip(j + 1), e);
                assert(seq![e] + b@.skip(j + 1) == b@.skip(j as int));
            }
            out.push(e);
            j = j + 1;
        }
        proof {
            assert forall|k: int, l: int| 0 <= k < l < out@.len() implies placed_before(
                es,
                sort,
                #[trigger] out@[k] as int,
                #[trigger] out@[l] as int,
            ) by {
                if l < old_out.len() {
                    assert(out@[k] == old_out[k] && out@[l] == old_out[l]);
                }
            }
        }
    }
    proof {
        assert(a@.skip(i as int) == Seq::<usize>::empty());
        assert(b@.skip(j as int) == Seq::<usize>::empty());
        assert(out@ + a@.skip(i as int) + b@.skip(j as int) == out@);
    }
    out
}

/// Sorts positions of `es` into panel order (merge sort).
fn sort_positions(
    keys: &Vec<EntryKey>,
    sort: Sort,
    Ghost(es): Ghost<Seq<Entry>>,
    v: Vec<usize>,
) -> (r: Vec<usize>)
    requires
        keys@.len() == es.len(),
        forall|i: int| 0 <= i < keys@.len() ==> describes(#[trigger] keys@[i], es[i]),
        positions_in(es, v@),
    ensures
        r@.to_multiset() == v@.to_multiset(),
        sorted_positions(es, sort, r@),
        positions_in(es, r@),
    decreases v@.len(),
{
    let n = v.len();
    if n <= 1 {
        return v;
    }
    let mid = n / 2;
    let mut left: Vec<usize> = Vec::new();
    let mut right: Vec<usize> = Vec::new();
    let mut k: usize = 0;
    while k < n
        invariant
            n == v@.len(),
            mid <= n,
            k <= n,
            k <= mid ==> left@ == v@.subrange(0, k as int) && right@.len() == 0,
            k > mid ==> left@ == v@.subrange(0, mid as int) && right@ == v@.subrange(mid as int, k as int),
        decreases n - k,
    {
        if k < mid {
            left.push(v[k]);
            proof {
                assert(v@.subrange(0, k + 1) == v@.subrange(0, k as int).push(v@[k as int]));
            }
        } else {
            right.push(v[k]);
            proof {
                assert(v@.subrange(mid as int, k + 1) == v@.subrange(mid as int, k as int).push(v@[k as int]));
            }
        }
        k = k + 1;
    }
    proof {
        assert(v@ == left@ + right@);
        lemma_multiset_commutative(left@, right@);
    }
    let ls = sort_positions(keys, sort, Ghost(es), left);
    let rs = sort_positions(keys, sort, Ghost(es), right);
    let merged = merge(keys, sort, Ghost(es), ls, rs);
    proof {
        lemma_multiset_commutative(ls@, rs@);
    }
    merged
}

/// Sorts the entries into panel order: ".." first, folders before files,
/// and within those by the sort key (case-insensitive names, sizes,
/// modification times, or extensions then names), reversed for descending;
/// entries that compare equal keep their relative order.
pub fn sort_entries(entries: &mut Vec<Entry>, sort: Sort)
    ensures
        exists|p: Seq<int>| stable_sort_of(sort, old(entries)@, final(entries)@, p),
{
    let n = entries.len();
    let ghost es = entries@;
    let mut keys: Vec<EntryKey> = Vec::new();
    let mut positions: Vec<usize> = Vec::new();
    let mut i: usize = 0;
    while i < n
        invariant
            n == es.len(),
            entries@ == es,
            i <= n,
            keys@.len() == i,
            forall|k: int| 0 <= k < i ==> describes(#[trigger] keys@[k], es[k]),
            positions@ == Seq::new(i as nat, |k: int| k as usize),
        decreases n - i,
    {
        keys.push(key_of(&entries[i]));
        positions.push(i);
        proof {
            assert(positions@ == Seq::new((i + 1) as nat, |k: int| k as usize));
        }
        i = i + 1;
    }
    let ghost start = positions@;
    proof {
        assert forall|a: int, b: int| 0 <= a < start.len() && 0 <= b < start.len() && a != b implies start[a]
            != start[b] by {}
        assert(start.no_duplicates());
        start.lemma_multiset_has_no_duplicates();
    }
    let order = sort_positions(&keys, sort, Ghost(es), positions);
    proof {
        broadcast use vstd::seq_lib::group_to_multiset_ensures;
        assert(order@.to_multiset().len() == start.to_multiset().len());
        assert(order@.len() == n);
        assert forall|x: usize| order@.to_multiset().contains(x) implies order@.to_multiset().count(x) == 1 by {
            assert(start.to_multiset().contains(x));
        }
        order@.lemma_multiset_has_no_duplicates_conv();
    }
    let mut out: Vec<Entry> = Vec::new();
    let mut k: usize = 0;
    while k < n
        invariant
            n == es.len(),
            entries@ == es,
            order@.len() == n,
            positions_in(es, order@),
            k <= n,
            out@.len() == k,
            forall|m: int| 0 <= m < k ==> #[trigger] out@[m] == es[order@[m] as int],
        decreases n - k,
    {
        let e = entries[order[k]].duplicate();
        out.push(e);
        k = k + 1;
    }
    *entries = out;
    proof {
        let p = order@.map_values(|x: usize| x as int);
        assert forall|a: int, b: int| 0 <= a < p.len() && 0 <= b < p.len() && a != b implies p[a] != p[b] by {
            assert(order@[a] != order@[b]);
        }
        assert forall|a: int, b: int| 0 <= a < b < p.len() implies {
            let c = entry_order(sort, #[trigger] entries@[a], #[trigger] entries@[b]);
            c < 0 || (c == 0 && p[a] < p[b])
        } by {
            assert(placed_before(es, sort, order@[a] as int, order@[b] as int));
            assert(order@[a] != order@[b]);
        }
        assert(stable_sort_of(sort, es, entries@, p));
    }
}

} // verus!
