//! What the viewer and the editor show: the hex dump, the text/hex choice,
//! line-break normalisation, and the text area's size.
use vstd::prelude::*;
use crate::paths::{file_name, file_name_of};
use crate::text::{digit_char, hex_upper, numeral, push_hex, push_str, string_of};

verus! {

/// Bytes the viewer reads from a file at most (4 MiB).
pub const MAX_VIEW: usize = 4194304;

/// Bytes of a file the editor accepts at most (8 MiB).
pub const MAX_EDIT: u64 = 8388608;

/// Bytes examined to tell text from binary.
pub const TEXT_SAMPLE: usize = 8000;

/// Data looks like text: no NUL byte among its first 8000 bytes.
pub open spec fn looks_text_spec(data: Seq<u8>) -> bool {
    forall|i: int| 0 <= i < data.len() && i < 8000 ==> data[i] != 0
}

/// Whether the data looks like text (no NUL in its first 8000 bytes); the
/// viewer opens in hex mode when it does not.
pub fn looks_text(data: &[u8]) -> (r: bool)
    ensures
        r == looks_text_spec(data@),
{
    let n = if data.len() < TEXT_SAMPLE { data.len() } else { TEXT_SAMPLE };
    let mut i: usize = 0;
    while i < n
        invariant
            n <= data@.len(),
            n == data@.len() || n == 8000,
            n <= 8000,
            i <= n,
            forall|j: int| 0 <= j < i ==> data@[j] != 0,
        decreases n - i,
    {
        if data[i] == 0 {
            proof {
                assert(0 <= i < data@.len() && i < 8000 && data@[i as int] == 0);
            }
            return false;
        }
        i = i + 1;
    }
    true
}

/// The character the dump shows for a byte: printable ASCII (space to '~')
/// as itself, anything else as '.'.
pub open spec fn shown_char(b: u8) -> char {
    if 0x20 <= b <= 0x7e { b as char } else { '.' }
}

/// The hex column of a chunk: each byte as two upper-case digits and a space.
pub open spec fn hex_column(chunk: Seq<u8>) -> Seq<char>
    decreases chunk.len(),
{
    if chunk.len() == 0 {
        Seq::empty()
    } else {
        hex_column(chunk.drop_last()) + hex_upper(chunk.last() as nat, 2) + seq![' ']
    }
}

/// The text column of a chunk.
pub open spec fn text_column(chunk: Seq<u8>) -> Seq<char> {
    chunk.map_values(|b: u8| shown_char(b))
}

/// `s` padded with spaces on the right to `width` characters.
pub open spec fn pad_right(s: Seq<char>, width: nat) -> Seq<char> {
    if s.len() >= width { s } else { s + Seq::new((width - s.len()) as nat, |i: int| ' ') }
}

/// Line `k` of the dump: the offset in eight hex digits, two spaces, the hex
/// column padded to 48, a space, the text column, CR LF.
pub open spec fn dump_line(data: Seq<u8>, k: nat) -> Seq<char> {
    let start = 16 * k;
    let end = if start + 16 <= data.len() { start + 16 } else { data.len() as nat };
    let chunk = data.subrange(start as int, end as int);
    hex_upper(start, 8) + seq![' ', ' '] + pad_right(hex_column(chunk), 48) + seq![' '] + text_column(chunk)
        + seq!['\r', '\n']
}

/// The first `k` lines of the dump.
pub open spec fn dump_lines(data: Seq<u8>, k: nat) -> Seq<char>
    decreases k,
{
    if k == 0 { Seq::empty() } else { dump_lines(data, (k - 1) as nat) + dump_line(data, (k - 1) as nat) }
}

/// The whole dump: one line per 16 bytes (the last may be shorter).
pub open spec fn hex_dump_spec(data: Seq<u8>) -> Seq<char> {
    dump_lines(data, ((data.len() + 15) / 16) as nat)
}

/// Every character of `s` is printable ASCII (space to '~').
pub open spec fn printable(s: Seq<char>) -> bool {
    forall|x: int| 0 <= x < s.len() ==> 0x20 <= #[trigger] (s[x] as u32) <= 0x7e
}

proof fn lemma_printable_concat(a: Seq<char>, b: Seq<char>)
    requires
        printable(a),
        printable(b),
    ensures
        printable(a + b),
{
    assert forall|x: int| 0 <= x < (a + b).len() implies 0x20 <= #[trigger] ((a + b)[x] as u32) <= 0x7e by {
        if x < a.len() {
            assert((a + b)[x] == a[x]);
        } else {
            assert((a + b)[x] == b[x - a.len()]);
        }
    }
}

proof fn lemma_digit_printable(d: nat)
    ensures
        0x30 <= (digit_char(d) as u32) <= 0x46,
{
}

proof fn lemma_numeral_printable(n: nat, b: nat)
    ensures
        printable(numeral(n, b)),
    decreases n,
{
    lemma_digit_printable(n);
    if !(b < 2 || n < b) {
        assert(n / b < n) by (nonlinear_arith)
            requires
                b >= 2,
                n >= b,
        ;
        lemma_numeral_printable(n / b, b);
        lemma_digit_printable(n % b);
        lemma_printable_concat(numeral(n / b, b), seq![digit_char(n % b)]);
        assert(numeral(n, b) == numeral(n / b, b) + seq![digit_char(n % b)]);
    } else {
        assert(numeral(n, b) == seq![digit_char(n)]);
    }
}

proof fn lemma_hex_upper_printable(n: nat, width: nat)
    ensures
        printable(hex_upper(n, width)),
{
    lemma_numeral_printable(n, 16);
    let s = numeral(n, 16);
    if s.len() < width {
        let pad = Seq::new((width - s.len()) as nat, |i: int| '0');
        assert(printable(pad));
        lemma_printable_concat(pad, s);
    }
}

proof fn lemma_hex_column_printable(chunk: Seq<u8>)
    ensures
        printable(hex_column(chunk)),
    decreases chunk.len(),
{
    if chunk.len() > 0 {
        lemma_hex_column_printable(chunk.drop_last());
        lemma_hex_upper_printable(chunk.last() as nat, 2);
        lemma_printable_concat(hex_column(chunk.drop_last()), hex_upper(chunk.last() as nat, 2));
        lemma_printable_concat(hex_column(chunk.drop_last()) + hex_upper(chunk.last() as nat, 2), seq![' ']);
    }
}

/// The dump's text column shows each byte at the end of its line, before
/// the CR LF: a printable ASCII byte (space to '~') as itself, any other
/// byte as '.'. Each line ends in CR LF and holds no other control
/// character: everything before the CR LF is printable ASCII.
pub proof fn law_dump_lines(data: Seq<u8>, k: nat, i: int)
    requires
        16 * k < data.len(),
    ensures
        ({
            let line = dump_line(data, k);
            let start = 16 * k;
            let n: int = if start + 16 <= data.len() { 16 } else { data.len() - start };
            &&& line.len() >= n + 2
            &&& line[line.len() - 2] == '\r'
            &&& line[line.len() - 1] == '\n'
            &&& printable(line.take(line.len() - 2))
            &&& (0 <= i < n ==> line[line.len() - 2 - n + i]
                == (if 0x20 <= data[start + i] <= 0x7e { data[start + i] as char } else { '.' }))
        }),
{
    let start = 16 * k;
    let end = if start + 16 <= data.len() { start + 16 } else { data.len() as nat };
    let chunk = data.subrange(start as int, end as int);
    let head = hex_upper(start, 8) + seq![' ', ' '] + pad_right(hex_column(chunk), 48) + seq![' '];
    let text = text_column(chunk);
    let line = dump_line(data, k);
    assert(line == head + text + seq!['\r', '\n']);
    lemma_hex_upper_printable(start, 8);
    lemma_hex_column_printable(chunk);
    let hc = hex_column(chunk);
    if hc.len() < 48 {
        let pad = Seq::new((48 - hc.len()) as nat, |x: int| ' ');
        assert(printable(pad));
        lemma_printable_concat(hc, pad);
    }
    assert(printable(seq![' ', ' ']));
    assert(printable(seq![' ']));
    lemma_printable_concat(hex_upper(start, 8), seq![' ', ' ']);
    lemma_printable_concat(hex_upper(start, 8) + seq![' ', ' '], pad_right(hc, 48));
    lemma_printable_concat(hex_upper(start, 8) + seq![' ', ' '] + pad_right(hc, 48), seq![' ']);
    assert forall|x: int| 0 <= x < text.len() implies 0x20 <= #[trigger] (text[x] as u32) <= 0x7e by {
        let b = chunk[x];
        if 0x20 <= b <= 0x7e {
            assert(text[x] == b as char);
        } else {
            assert(text[x] == '.');
        }
    }
    lemma_printable_concat(head, text);
    assert(line.take(line.len() - 2) =~= head + text);
    if 0 <= i < text.len() {
        assert(line[line.len() - 2 - text.len() + i] == text[i]);
        assert(chunk[i] == data[start + i]);
    }
}

fn shown(b: u8) -> (c: char)
    ensures
        c == shown_char(b),
{
    if 0x20 <= b && b <= 0x7e { b as char } else { '.' }
}

/// Appends the hex column of `data[start..end]`.
fn push_hex_column(out: &mut Vec<char>, data: &[u8], start: usize, end: usize)
    requires
        start <= end <= data@.len(),
    ensures
        final(out)@ == old(out)@ + hex_column(data@.subrange(start as int, end as int)),
        hex_column(data@.subrange(start as int, end as int)).len() == 3 * (end - start),
{
    let ghost base = out@;
    let mut j: usize = start;
    proof {
        assert(data@.subrange(start as int, start as int) == Seq::<u8>::empty());
        assert(base + Seq::<char>::empty() == base);
    }
    while j < end
        invariant
            start <= j <= end <= data@.len(),
            out@ == base + hex_column(data@.subrange(start as int, j as int)),
            hex_column(data@.subrange(start as int, j as int)).len() == 3 * (j - start),
        decreases end - j,
    {
        push_hex(out, data[j] as u64, 2);
        out.push(' ');
        proof {
            assert(data@.subrange(start as int, j + 1).drop_last() == data@.subrange(start as int, j as int));
            assert(data@.subrange(start as int, j + 1).last() == data@[j as int]);
            crate::text::lemma_hex_width_two(data@[j as int]);
        }
        j = j + 1;
    }
}

/// Appends spaces after the last `have` characters until they are `width`.
fn pad_to(out: &mut Vec<char>, have: usize, width: usize, Ghost(col): Ghost<Seq<char>>)
    requires
        col.len() == have,
        old(out)@.len() >= have,
        old(out)@.subrange(old(out)@.len() - have, old(out)@.len() as int) == col,
    ensures
        final(out)@ == old(out)@.subrange(0, old(out)@.len() - have) + pad_right(col, width as nat),
{
    let ghost head = out@.subrange(0, out@.len() - have);
    proof {
        assert(out@ == head + col);
    }
    let mut k: usize = have;
    while k < width
        invariant
            have <= k <= width || k == have,
            out@ == head + col + Seq::new((k - have) as nat, |i: int| ' '),
        decreases width - k,
    {
        out.push(' ');
        proof {
            assert(Seq::new((k + 1 - have) as nat, |i: int| ' ') == Seq::new((k - have) as nat, |i: int| ' ').push(' '));
        }
        k = k + 1;
    }
    proof {
        if have >= width {
            assert(Seq::new(0nat, |i: int| ' ') == Seq::<char>::empty());
            assert(col + Seq::<char>::empty() == col);
        }
    }
}

/// Appends the text column of `data[start..end]`.
fn push_text_column(out: &mut Vec<char>, data: &[u8], start: usize, end: usize)
    requires
        start <= end <= data@.len(),
    ensures
        final(out)@ == old(out)@ + text_column(data@.subrange(start as int, end as int)),
{
    let ghost head = out@;
    let mut t: usize = start;
    proof {
        assert(text_column(data@.subrange(start as int, start as int)) == Seq::<char>::empty());
    }
    while t < end
        invariant
            start <= t <= end <= data@.len(),
            out@ == head + text_column(data@.subrange(start as int, t as int)),
        decreases end - t,
    {
        out.push(shown(data[t]));
        proof {
            assert(data@.subrange(start as int, t + 1) == data@.subrange(start as int, t as int).push(data@[t as int]));
            assert(text_column(data@.subrange(start as int, t + 1))
                == text_column(data@.subrange(start as int, t as int)).push(shown_char(data@[t as int])));
        }
        t = t + 1;
    }
}

/// Appends line `k` of the dump.
fn push_dump_line(out: &mut Vec<char>, data: &[u8], k: usize)
    requires
        16 * k < data@.len(),
    ensures
        final(out)@ == old(out)@ + dump_line(data@, k as nat),
{
    let n = data.len();
    let start = 16 * k;
    let end = if n - start >= 16 { start + 16 } else { n };
    let ghost chunk = data@.subrange(start as int, end as int);
    let ghost before = out@;
    push_hex(out, start as u64, 8);
    out.push(' ');
    out.push(' ');
    let ghost mid = out@;
    push_hex_column(out, data, start, end);
    proof {
        assert(out@.subrange(out@.len() - 3 * (end - start), out@.len() as int) == hex_column(chunk));
        assert(out@.subrange(0, out@.len() - 3 * (end - start)) == mid);
    }
    pad_to(out, 3 * (end - start), 48, Ghost(hex_column(chunk)));
    out.push(' ');
    push_text_column(out, data, start, end);
    out.push('\r');
    out.push('\n');
    proof {
        assert(out@ == before + dump_line(data@, k as nat));
    }
}

/// The hex dump of the data, sixteen bytes a line.
pub fn hex_dump(data: &[u8]) -> (r: String)
    ensures
        r@ == hex_dump_spec(data@),
{
    let n = data.len();
    let lines = n / 16 + if n % 16 == 0 { 0 } else { 1 };
    assert(lines == (n + 15) / 16) by (nonlinear_arith)
        requires
            lines == n / 16 + if n % 16 == 0 { 0int } else { 1int },
    ;
    let mut out: Vec<char> = Vec::new();
    let mut k: usize = 0;
    while k < lines
        invariant
            n == data@.len(),
            lines == (n + 15) / 16,
            k <= lines,
            out@ == dump_lines(data@, k as nat),
        decreases lines - k,
    {
        assert(16 * k < n) by (nonlinear_arith)
            requires
                k < lines,
                lines == (n + 15) / 16,
        ;
        push_dump_line(&mut out, data, k);
        k = k + 1;
    }
    string_of(out.as_slice())
}

/// A text with every CR LF pair turned into LF, left to right.
pub open spec fn crlf_to_lf(s: Seq<char>) -> Seq<char>
    decreases s.len(),
{
    if s.len() == 0 {
        s
    } else if s.len() >= 2 && s[0] == '\r' && s[1] == '\n' {
        seq!['\n'] + crlf_to_lf(s.skip(2))
    } else {
        seq![s[0]] + crlf_to_lf(s.drop_first())
    }
}

/// The editor's text as saved: the edit control's CR LF line breaks become LF.
pub fn normalize_newlines(content: &str) -> (r: String)
    ensures
        r@ == crlf_to_lf(content@),
{
    let cs = crate::text::chars_of(content);
    let n = cs.len();
    let mut out: Vec<char> = Vec::new();
    let mut i: usize = 0;
    proof {
        assert(cs@.skip(0) == cs@);
    }
    while i < n
        invariant
            n == cs@.len(),
            i <= n,
            out@ + crlf_to_lf(cs@.skip(i as int)) == crlf_to_lf(cs@),
        decreases n - i,
    {
        let ghost rest = cs@.skip(i as int);
        if i + 1 < n && cs[i] == '\r' && cs[i + 1] == '\n' {
            proof {
                assert(rest.skip(2) == cs@.skip(i + 2));
                assert(out@.push('\n') + crlf_to_lf(cs@.skip(i + 2)) == out@ + (seq!['\n'] + crlf_to_lf(rest.skip(2))));
            }
            out.push('\n');
            i = i + 2;
        } else {
            proof {
                assert(rest.drop_first() == cs@.skip(i + 1));
                assert(out@.push(cs@[i as int]) + crlf_to_lf(cs@.skip(i + 1)) == out@ + (seq![rest[0]] + crlf_to_lf(rest.drop_first())));
            }
            out.push(cs[i]);
            i = i + 1;
        }
    }
    proof {
        assert(cs@.skip(n as int) == Seq::<char>::empty());
        assert(out@ + Seq::<char>::empty() == out@);
    }
    string_of(out.as_slice())
}

/// A file of `len` bytes is small enough to edit.
pub fn can_edit(len: u64) -> (r: bool)
    ensures
        r == (len <= MAX_EDIT),
{
    len <= MAX_EDIT
}

/// The text box's size in a viewer or editor window of `w` by `h`: the
/// window less 8 pixels on each side and the 40-pixel button bar at the top,
/// never negative. Sizes past `i32::MAX` read as negative and give 0; the
/// few just past it, where the subtraction would overflow, are excluded.
pub fn text_area(w: u32, h: u32) -> (r: (u32, u32))
    requires
        w < 0x8000_0000 || w >= 0x8000_0010,
        h < 0x8000_0000 || h >= 0x8000_0030,
    ensures
        r.0 == if 16 <= w < 0x8000_0000 { w - 16 } else { 0 },
        r.1 == if 48 <= h < 0x8000_0000 { h - 48 } else { 0 },
{
    let tw = if w >= 16 && w < 0x8000_0000 { w - 16 } else { 0 };
    let th = if h >= 48 && h < 0x8000_0000 { h - 48 } else { 0 };
    (tw, th)
}

/// The last component of a path, or nothing.
pub open spec fn shown_name(path: Seq<char>) -> Seq<char> {
    match file_name_of(path) {
        Some(n) => n,
        None => Seq::empty(),
    }
}

/// The title of a viewer ("보기") or editor ("편집") window: "<what> - " and
/// the file's name, then " (저장됨)" once the editor has saved.
pub fn window_title(what: &str, path: &str, saved: bool) -> (r: String)
    ensures
        r@ == what@ + " - "@ + shown_name(path@) + (if saved { " (저장됨)"@ } else { Seq::empty() }),
{
    let mut out: Vec<char> = Vec::new();
    push_str(&mut out, what);
    push_str(&mut out, " - ");
    push_str(&mut out, file_name(path).as_str());
    if saved {
        push_str(&mut out, " (저장됨)");
    }
    string_of(out.as_slice())
}

} // verus!
