//! The entry a panel shows, its display columns, and the size format.
use vstd::prelude::*;
use vstd::arithmetic::power2::pow2;
use crate::text::{chars_between, chars_of, decimal, lower, push_decimal, string_of, to_lower};
use crate::listing_order::{name_order, text_order_of};
use crate::paths::{parent_of, path_parent};
use crate::remote::{all_digits, digits_value};

pub use crate::listing_order::sort_entries;

verus! {

/// One row of a panel: a file, a folder, or the ".." row that leads up.
#[derive(Clone, Debug)]
pub struct Entry {
    pub name: String,
    pub is_dir: bool,
    /// The ".." row.
    pub is_parent: bool,
    pub size: u64,
    /// Last modification, in nanoseconds since the UNIX epoch (negative
    /// before it); `None` where it is unknown.
    pub modified: Option<i128>,
}

impl Entry {
    /// A copy of the entry, field by field.
    pub fn duplicate(&self) -> (r: Entry)
        ensures
            r == *self,
    {
        Entry {
            name: self.name.clone(),
            is_dir: self.is_dir,
            is_parent: self.is_parent,
            size: self.size,
            modified: self.modified,
        }
    }

    /// The ".." row that leads to the enclosing folder.
    pub fn parent() -> (r: Entry)
        ensures
            r.name@ == ".."@,
            r.is_dir,
            r.is_parent,
            r.size == 0,
            r.modified is None,
    {
        Entry {
            name: String::from_str(".."),
            is_dir: true,
            is_parent: true,
            size: 0,
            modified: None,
        }
    }

    /// The lower-case extension: what follows the last '.', unless that dot
    /// opens the name; empty for folders and for names without one.
    pub fn ext(&self) -> (r: String)
        ensures
            r@ == entry_ext(*self),
    {
        if self.is_dir {
            return String::new();
        }
        let cs = chars_of(self.name.as_str());
        let found = last_index_of(&cs, '.');
        match found {
            Some(i) => {
                if i > 0 {
                    let tail = string_of(chars_between(&cs, i + 1, cs.len()).as_slice());
                    to_lower(tail.as_str())
                } else {
                    String::new()
                }
            },
            None => String::new(),
        }
    }

    /// The size column: "  [..]" for the ".." row, " <DIR>" for a folder,
    /// the formatted size for a file.
    pub fn size_text(&self) -> (r: String)
        ensures
            r@ == size_column(*self),
    {
        if self.is_dir {
            if self.is_parent {
                String::from_str("  [..]")
            } else {
                String::from_str(" <DIR>")
            }
        } else {
            format_size(self.size)
        }
    }

    /// The modification column: the local time as "YYYY-MM-DD HH:MM", empty
    /// when the time is unknown.
    pub fn time_text(&self) -> (r: String)
        requires
            self.modified matches Some(t) ==> time_in_range(t as int),
        ensures
            self.modified is None ==> r@ == Seq::<char>::empty(),
            self.modified matches Some(t) ==> is_local_stamp(t as int, r@) && is_minute_stamp(r@),
    {
        match self.modified {
            Some(t) => format_time(t),
            None => String::new(),
        }
    }
}

/// Nanoseconds per second.
pub const NANOS_PER_SEC: u128 = 1_000_000_000;

/// A modification time that the calendar can show: inside chrono's years
/// (-262143 to 262142), less a margin of a few days at either end for the
/// shift to local time.
pub open spec fn time_in_range(t: int) -> bool {
    -8_334_601_000_000_000_000_000 <= t <= 8_210_266_000_000_000_000_000
}

/// Whether a modification time can be shown (see `time_in_range`).
pub fn time_shows(t: i128) -> (r: bool)
    ensures
        r == time_in_range(t as int),
{
    -8_334_601_000_000_000_000_000 <= t && t <= 8_210_266_000_000_000_000_000
}

/// A time in nanoseconds since the UNIX epoch from its distance to the
/// epoch (`secs` whole seconds and `nanos` more), `after` it or before it.
pub fn nanos_from_epoch(after: bool, secs: u64, nanos: u32) -> (r: i128)
    requires
        nanos < 1_000_000_000,
    ensures
        after ==> r == secs * 1_000_000_000 + nanos,
        !after ==> r == -(secs * 1_000_000_000 + nanos),
{
    let n: i128 = secs as i128 * 1_000_000_000 + nanos as i128;
    if after { n } else { -n }
}

/// Whole seconds of a time in nanoseconds, rounded down.
pub open spec fn secs_of(t: int) -> int {
    t / 1_000_000_000
}

/// The nanoseconds past the whole second.
pub open spec fn subsec_of(t: int) -> int {
    t % 1_000_000_000
}

/// Splits nanoseconds since the epoch into whole seconds (rounded down) and
/// the nanoseconds past them.
pub fn split_time(t: i128) -> (r: (i64, u32))
    requires
        time_in_range(t as int),
    ensures
        r.0 == secs_of(t as int),
        r.1 == subsec_of(t as int),
        -8_334_601_000_000 <= r.0 <= 8_210_266_000_000,
        r.1 < 1_000_000_000,
{
    if t >= 0 {
        let u = t as u128;
        let q = u / NANOS_PER_SEC;
        let m = u % NANOS_PER_SEC;
        assert(q <= 8_210_266_000_000) by (nonlinear_arith)
            requires
                q == u / 1_000_000_000,
                u <= 8_210_266_000_000_000_000_000,
        ;
        (q as i64, m as u32)
    } else {
        let u = (-(t + 1)) as u128;
        let q = u / NANOS_PER_SEC;
        let m = u % NANOS_PER_SEC;
        assert(q < 8_334_601_000_000) by (nonlinear_arith)
            requires
                q == u / 1_000_000_000,
                u < 8_334_601_000_000_000_000_000,
        ;
        proof {
            assert(t as int == -(u as int) - 1);
            assert((t as int) / 1_000_000_000 == -(q as int) - 1
                && (t as int) % 1_000_000_000 == 999_999_999 - m) by (nonlinear_arith)
                requires
                    t as int == -(u as int) - 1,
                    q == u / 1_000_000_000,
                    m == u % 1_000_000_000,
            {
                assert(u as int == q * 1_000_000_000 + m);
                assert(t as int == (-(q as int) - 1) * 1_000_000_000 + (999_999_999 - m));
                vstd::arithmetic::div_mod::lemma_fundamental_div_mod_converse(
                    t as int, 1_000_000_000, -(q as int) - 1, 999_999_999 - m);
            }
        }
        let secs = -(q as i64) - 1;
        (secs, (999_999_999 - m) as u32)
    }
}

/// `s` is two decimal digits whose value lies in `lo..=hi`.
pub open spec fn two_digits_in(s: Seq<char>, lo: nat, hi: nat) -> bool {
    &&& s.len() == 2
    &&& all_digits(s)
    &&& lo <= digits_value(s) <= hi
}

/// A year as chrono's `%Y` writes it: four digits for the years 0 to 9999,
/// else a sign and at least four digits.
pub open spec fn year_text(y: Seq<char>) -> bool {
    ||| y.len() == 4 && all_digits(y)
    ||| y.len() >= 5 && (y[0] == '+' || y[0] == '-') && all_digits(y.drop_first())
}

/// `s` reads "YYYY-MM-DD HH:MM": a year, a month 01 to 12, a day 01 to 31,
/// an hour 00 to 23 and a minute 00 to 59.
pub open spec fn is_minute_stamp(s: Seq<char>) -> bool {
    let n = s.len() as int;
    &&& n >= 16
    &&& year_text(s.take(n - 12))
    &&& s[n - 12] == '-'
    &&& two_digits_in(s.subrange(n - 11, n - 9), 1, 12)
    &&& s[n - 9] == '-'
    &&& two_digits_in(s.subrange(n - 8, n - 6), 1, 31)
    &&& s[n - 6] == ' '
    &&& two_digits_in(s.subrange(n - 5, n - 3), 0, 23)
    &&& s[n - 3] == ':'
    &&& two_digits_in(s.subrange(n - 2, n), 0, 59)
}

/// The UNIX seconds from the start of year 0 to the end of year 9999: the
/// times whose year chrono writes with four digits and no sign.
pub open spec fn in_four_digit_years(secs: int) -> bool {
    -62_167_219_200 <= secs < 253_402_300_800
}

/// What chrono writes for the UNIX second `secs` in UTC with the format
/// "%Y-%m-%d %H:%M": a function of the second alone.
pub uninterp spec fn utc_stamp(secs: int) -> Seq<char>;

/// Calls chrono: the UTC date and time of the UNIX second `secs`, formatted
/// "%Y-%m-%d %H:%M". The result is named; chrono writes it zero-padded, with
/// four digits of year and 16 characters in all for the years 0 to 9999 and
/// a signed year otherwise.
#[verifier::external_body]
fn utc_minute_stamp(secs: i64) -> (r: String)
    requires
        -8_334_601_100_000 <= secs <= 8_210_266_100_000,
    ensures
        r@ == utc_stamp(secs as int),
        is_minute_stamp(r@),
        in_four_digit_years(secs as int) ==> r@.len() == 16,
{
    chrono::DateTime::from_timestamp(secs, 0).unwrap().format("%Y-%m-%d %H:%M").to_string()
}

/// Calls chrono for the offset of the machine's local time from UTC at the
/// given instant, in seconds to add to UTC. It depends on the time zone, so
/// only chrono's bound on any offset (under a day either way) is stated.
#[verifier::external_body]
fn local_offset(secs: i64, nanos: u32) -> (r: i32)
    requires
        -8_334_601_000_000 <= secs <= 8_210_266_000_000,
        nanos < 1_000_000_000,
    ensures
        -86_400 < r < 86_400,
{
    chrono::DateTime::from_timestamp(secs, nanos).unwrap().with_timezone(&chrono::Local).offset().local_minus_utc()
}

/// The minute stamp of the UNIX second `secs` in a time zone `offset`
/// seconds ahead of UTC: chrono's UTC stamp of the shifted second, which is
/// how chrono formats a local time.
pub fn minute_stamp_at(secs: i64, offset: i32) -> (r: String)
    requires
        -8_334_601_000_000 <= secs <= 8_210_266_000_000,
        -86_400 < offset < 86_400,
    ensures
        r@ == utc_stamp(secs + offset),
        is_minute_stamp(r@),
        in_four_digit_years(secs + offset) ==> r@.len() == 16,
{
    utc_minute_stamp(secs + offset as i64)
}

/// `s` is the local minute stamp of the time `t` (nanoseconds since the
/// epoch) in some time zone less than a day from UTC.
pub open spec fn is_local_stamp(t: int, s: Seq<char>) -> bool {
    exists|off: int|
        -86_400 < off < 86_400 && s == #[trigger] utc_stamp(secs_of(t) + off)
            && (in_four_digit_years(secs_of(t) + off) ==> s.len() == 16)
}

/// Compares names without regard to case (their lower-case forms).
pub fn cmp_name(a: &Entry, b: &Entry) -> (r: std::cmp::Ordering)
    ensures
        (r == std::cmp::Ordering::Less) == (name_order(*a, *b) < 0),
        (r == std::cmp::Ordering::Equal) == (name_order(*a, *b) == 0),
        (r == std::cmp::Ordering::Greater) == (name_order(*a, *b) > 0),
{
    let la = chars_of(to_lower(a.name.as_str()).as_str());
    let lb = chars_of(to_lower(b.name.as_str()).as_str());
    let c = text_order_of(&la, &lb);
    if c < 0 {
        std::cmp::Ordering::Less
    } else if c > 0 {
        std::cmp::Ordering::Greater
    } else {
        std::cmp::Ordering::Equal
    }
}

/// The position of the last `c` in `s`, if any.
pub open spec fn last_index(s: Seq<char>, c: char) -> Option<int>
    decreases s.len(),
{
    if s.len() == 0 {
        None
    } else if s.last() == c {
        Some(s.len() - 1)
    } else {
        last_index(s.drop_last(), c)
    }
}

/// The extension of a name: the lower-cased text after its last '.', when
/// that dot is not the first character.
pub open spec fn name_ext(name: Seq<char>) -> Seq<char> {
    match last_index(name, '.') {
        Some(i) => if i > 0 { lower(name.subrange(i + 1, name.len() as int)) } else { Seq::empty() },
        None => Seq::empty(),
    }
}

/// An entry's extension: none for folders.
pub open spec fn entry_ext(e: Entry) -> Seq<char> {
    if e.is_dir { Seq::empty() } else { name_ext(e.name@) }
}

/// The size column of an entry.
pub open spec fn size_column(e: Entry) -> Seq<char> {
    if e.is_dir {
        if e.is_parent { "  [..]"@ } else { " <DIR>"@ }
    } else {
        size_text_of(e.size as nat)
    }
}

/// What `last_index` finds holds `c` and lies inside the text.
pub proof fn lemma_last_index(s: Seq<char>, c: char)
    ensures
        last_index(s, c) matches Some(i) ==> 0 <= i < s.len() && s[i] == c,
    decreases s.len(),
{
    if s.len() > 0 && s.last() != c {
        lemma_last_index(s.drop_last(), c);
    }
}

/// The position of the last `c` in `cs`.
pub fn last_index_of(cs: &Vec<char>, c: char) -> (r: Option<usize>)
    ensures
        r is Some <==> last_index(cs@, c) is Some,
        r matches Some(i) ==> last_index(cs@, c) == Some(i as int),
        r matches Some(i) ==> i < cs@.len() && cs@[i as int] == c,
{
    proof {
        lemma_last_index(cs@, c);
    }
    let mut k: usize = cs.len();
    proof {
        assert(cs@.subrange(0, cs@.len() as int) == cs@);
    }
    while k > 0
        invariant
            k <= cs@.len(),
            last_index(cs@, c) == last_index(cs@.subrange(0, k as int), c),
        decreases k,
    {
        let ghost pre = cs@.subrange(0, k as int);
        if cs[k - 1] == c {
            assert(pre.last() == c);
            return Some(k - 1);
        }
        proof {
            assert(pre.drop_last() == cs@.subrange(0, k - 1));
        }
        k = k - 1;
    }
    proof {
        assert(cs@.subrange(0, 0) == Seq::<char>::empty());
    }
    None
}

// ---------------------------------------------------------------------------
// Size formatting

/// The number of binary digits of `n` (zero for zero).
pub open spec fn bit_len(n: nat) -> nat
    decreases n,
{
    if n == 0 { 0 } else { 1 + bit_len(n / 2) }
}

/// `n / d` rounded to the nearest integer, ties to the even one.
pub open spec fn div_round_even(n: nat, d: nat) -> nat {
    let q = n / d;
    let r = n % d;
    if 2 * r > d || (2 * r == d && q % 2 == 1) { q + 1 } else { q }
}

/// The value of the double nearest to `b` (ties to even), which is what
/// `b as f64` holds: numbers of more than 53 binary digits are rounded.
pub open spec fn nearest_double(b: nat) -> nat {
    if bit_len(b) <= 53 {
        b
    } else {
        let p = pow2((bit_len(b) - 53) as nat);
        div_round_even(b, p) * p
    }
}

/// The unit a size is shown in: 0 bytes, 1 K, 2 M, 3 G.
pub open spec fn size_unit(f: nat) -> nat {
    if f < 1024 { 0 }
    else if f < 1024 * 1024 { 1 }
    else if f < 1024 * 1024 * 1024 { 2 }
    else { 3 }
}

/// 1024 to the power `k`.
pub open spec fn kibi_pow(k: nat) -> nat
    decreases k,
{
    if k == 0 { 1 } else { 1024 * kibi_pow((k - 1) as nat) }
}

/// The letter of a unit above bytes.
pub open spec fn unit_letter(k: nat) -> char {
    if k == 1 { 'K' } else if k == 2 { 'M' } else { 'G' }
}

/// The human-readable size: "<n> B" under 1024 bytes; above, the size in
/// K, M or G (the largest unit not above it, G at most) with one decimal,
/// computed as the double nearest the byte count divided by powers of 1024
/// and rounded half to even.
pub open spec fn size_text_of(b: nat) -> Seq<char> {
    let f = nearest_double(b);
    let k = size_unit(f);
    if k == 0 {
        decimal(b) + " B"@
    } else {
        let tenths = div_round_even(10 * f, kibi_pow(k));
        decimal(tenths / 10) + seq!['.', crate::text::digit_char(tenths % 10), ' ', unit_letter(k)]
    }
}

/// Numbers below `2^k` have at most `k` binary digits.
proof fn lemma_bit_len_bound(n: nat, k: nat)
    requires
        n < pow2(k),
    ensures
        bit_len(n) <= k,
    decreases k,
{
    vstd::arithmetic::power2::lemma_pow2_pos(k);
    if n > 0 {
        if k == 0 {
            assert(pow2(0) == 1) by { vstd::arithmetic::power2::lemma2_to64(); }
        } else {
            vstd::arithmetic::power2::lemma_pow2_unfold(k);
            assert(n / 2 < pow2((k - 1) as nat));
            lemma_bit_len_bound(n / 2, (k - 1) as nat);
        }
    }
}

/// The double nearest to `b`, as an integer.
fn nearest_double_of(b: u64) -> (f: u128)
    ensures
        f == nearest_double(b as nat),
        f <= b + 2048,
{
    let mut t: u64 = b;
    let mut l: u64 = 0;
    proof {
        vstd::arithmetic::power2::lemma2_to64();
        lemma_bit_len_bound(b as nat, 64);
    }
    while t > 0
        invariant
            bit_len(b as nat) == l + bit_len(t as nat),
            bit_len(b as nat) <= 64,
        decreases t,
    {
        t = t / 2;
        l = l + 1;
    }
    if l <= 53 {
        return b as u128;
    }
    let e = l - 53;
    let mut p: u64 = 1;
    let mut i: u64 = 0;
    proof {
        vstd::arithmetic::power2::lemma2_to64();
    }
    while i < e
        invariant
            i <= e <= 11,
            p == pow2(i as nat),
            p <= 2048,
        decreases e - i,
    {
        proof {
            vstd::arithmetic::power2::lemma_pow2_unfold((i + 1) as nat);
            if i + 1 < 11 {
                vstd::arithmetic::power2::lemma_pow2_strictly_increases((i + 1) as nat, 11);
            }
            vstd::arithmetic::power2::lemma2_to64();
        }
        p = p * 2;
        i = i + 1;
    }
    proof {
        vstd::arithmetic::power2::lemma_pow2_pos(e as nat);
        vstd::arithmetic::power2::lemma2_to64();
        if e > 1 {
            vstd::arithmetic::power2::lemma_pow2_strictly_increases(1, e as nat);
        }
    }
    assert(p >= 2);
    let q = b / p;
    assert(q < 0xffff_ffff_ffff_ffff) by (nonlinear_arith)
        requires
            q == b / p,
            p >= 2,
    ;
    let r = b % p;
    let q2 = if 2 * r > p || (2 * r == p && q % 2 == 1) { q + 1 } else { q };
    assert(q2 as u128 * p as u128 <= b + 2048) by (nonlinear_arith)
        requires
            q == b / p,
            r == b % p,
            q2 <= q + 1,
            p <= 2048,
            p > 0,
    {
        assert(q * p + r == b);
    }
    (q2 as u128) * (p as u128)
}

/// `n / d` rounded half to even.
fn div_round_even_of(n: u128, d: u128) -> (r: u128)
    requires
        0 < d <= 0x1_0000_0000_0000_0000,
        n < 0x10_0000_0000_0000_0000_0000,
    ensures
        r == div_round_even(n as nat, d as nat),
{
    let q = n / d;
    let m = n % d;
    assert(q <= n) by (nonlinear_arith)
        requires
            q == n / d,
            d > 0,
    ;
    if 2 * m > d || (2 * m == d && q % 2 == 1) {
        q + 1
    } else {
        q
    }
}

/// A time in local "YYYY-MM-DD HH:MM" form: chrono's stamp of the second
/// it falls in, shifted by the machine's offset from UTC.
pub fn format_time(t: i128) -> (r: String)
    requires
        time_in_range(t as int),
    ensures
        is_local_stamp(t as int, r@),
        is_minute_stamp(r@),
        -62_167_132_800 <= secs_of(t as int) < 253_402_214_400 ==> r@.len() == 16,
{
    let (secs, nanos) = split_time(t);
    let offset = local_offset(secs, nanos);
    let r = minute_stamp_at(secs, offset);
    assert(r@ == utc_stamp(secs_of(t as int) + offset));
    r
}

/// A size in human-readable form: "512 B", "1.5 K", "1.0 M".
pub fn format_size(bytes: u64) -> (r: String)
    ensures
        r@ == size_text_of(bytes as nat),
{
    let f = nearest_double_of(bytes);
    let mut out: Vec<char> = Vec::new();
    if f < 1024 {
        push_decimal(&mut out, bytes as u128);
        out.push(' ');
        out.push('B');
        proof {
            assert(size_unit(f as nat) == 0);
            assert(out@ == decimal(bytes as nat) + " B"@) by {
                reveal_strlit(" B");
            }
        }
    } else {
        let (k, d, letter): (u64, u128, char) = if f < 1024 * 1024 {
            (1, 1024, 'K')
        } else if f < 1024 * 1024 * 1024 {
            (2, 1024 * 1024, 'M')
        } else {
            (3, 1024 * 1024 * 1024, 'G')
        };
        proof {
            assert(kibi_pow(1) == 1024) by { reveal_with_fuel(kibi_pow, 2); }
            assert(kibi_pow(2) == 1024 * 1024) by { reveal_with_fuel(kibi_pow, 3); }
            assert(kibi_pow(3) == 1024 * 1024 * 1024) by { reveal_with_fuel(kibi_pow, 4); }
            assert(size_unit(f as nat) == k);
            assert(d == kibi_pow(k as nat));
            assert(letter == unit_letter(k as nat));
        }
        let tenths = div_round_even_of(10 * f, d);
        push_decimal(&mut out, tenths / 10);
        out.push('.');
        let last = tenths % 10;
        out.push(crate::text::digit(last as u64));
        out.push(' ');
        out.push(letter);
    }
    string_of(out.as_slice())
}

/// What reading a folder gave for one of its items: the name, and the
/// metadata when it could be read.
pub struct DirItem {
    pub name: String,
    pub meta: Option<ItemMeta>,
}

/// An item's metadata.
pub struct ItemMeta {
    pub is_dir: bool,
    pub len: u64,
    /// Last modification in nanoseconds since the UNIX epoch, when known.
    pub modified: Option<i128>,
}

/// `e` is the row of the item `it`: its name, and its kind, length and time
/// from the metadata (a file of length 0 at no known time without it).
pub open spec fn is_item_row(e: Entry, it: DirItem) -> bool {
    &&& e.name@ == it.name@
    &&& !e.is_parent
    &&& match it.meta {
        Some(m) => e.is_dir == m.is_dir && e.size == m.len && e.modified == m.modified,
        None => !e.is_dir && e.size == 0 && e.modified is None,
    }
}

/// `rows` lists `items` in order after the first `head` rows.
pub open spec fn lists_items(rows: Seq<Entry>, items: Seq<DirItem>, head: int) -> bool {
    &&& rows.len() == items.len() + head
    &&& forall|j: int| 0 <= j < items.len() ==> is_item_row(#[trigger] rows[j + head], items[j])
}

/// The rows of the local folder `path` from what reading it gave: ".."
/// first unless the folder is a root, then one row per item in reading
/// order.
pub fn local_rows(path: &str, items: &Vec<DirItem>) -> (r: Vec<Entry>)
    ensures
        parent_of(path@) is Some ==> {
            &&& r@.len() > 0
            &&& r@[0].is_parent && r@[0].is_dir && r@[0].name@ == ".."@
            &&& r@[0].size == 0 && r@[0].modified is None
            &&& lists_items(r@, items@, 1)
        },
        parent_of(path@) is None ==> lists_items(r@, items@, 0),
{
    let mut out: Vec<Entry> = Vec::new();
    let head: usize = if path_parent(path).is_some() {
        out.push(Entry::parent());
        1
    } else {
        0
    };
    let mut i: usize = 0;
    while i < items.len()
        invariant
            i <= items@.len(),
            head == 0 || head == 1,
            out@.len() == i + head,
            head == 1 <==> parent_of(path@) is Some,
            head == 1 ==> out@[0].is_parent && out@[0].is_dir && out@[0].name@ == ".."@
                && out@[0].size == 0 && out@[0].modified is None,
            forall|j: int| 0 <= j < i ==> is_item_row(#[trigger] out@[j + head], items@[j]),
        decreases items@.len() - i,
    {
        let it = &items[i];
        let e = match &it.meta {
            Some(m) => Entry { name: it.name.clone(), is_dir: m.is_dir, is_parent: false, size: m.len, modified: m.modified },
            None => Entry { name: it.name.clone(), is_dir: false, is_parent: false, size: 0, modified: None },
        };
        out.push(e);
        i = i + 1;
    }
    out
}

} // verus!
