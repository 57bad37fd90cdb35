//! Answers typed into the input dialog.
use vstd::prelude::*;
use crate::text::{chars_of, string_of};

verus! {

/// Unicode White_Space, which `char::is_whitespace` tests and `str::trim`
/// strips.
pub open spec fn is_white(c: char) -> bool {
    let n = c as u32;
    (0x09 <= n && n <= 0x0d) || n == 0x20 || n == 0x85 || n == 0xa0 || n == 0x1680
        || (0x2000 <= n && n <= 0x200a) || n == 0x2028 || n == 0x2029 || n == 0x202f
        || n == 0x205f || n == 0x3000
}

/// `s` without leading white space.
pub open spec fn trim_start_spec(s: Seq<char>) -> Seq<char>
    decreases s.len(),
{
    if s.len() > 0 && is_white(s[0]) { trim_start_spec(s.drop_first()) } else { s }
}

/// `s` without trailing white space.
pub open spec fn trim_end_spec(s: Seq<char>) -> Seq<char>
    decreases s.len(),
{
    if s.len() > 0 && is_white(s.last()) { trim_end_spec(s.drop_last()) } else { s }
}

/// `s` without white space at either end, as `str::trim` gives it.
pub open spec fn trim_spec(s: Seq<char>) -> Seq<char> {
    trim_end_spec(trim_start_spec(s))
}

fn white(c: char) -> (r: bool)
    ensures
        r == is_white(c),
{
    let n = c as u32;
    (0x09 <= n && n <= 0x0d) || n == 0x20 || n == 0x85 || n == 0xa0 || n == 0x1680
        || (0x2000 <= n && n <= 0x200a) || n == 0x2028 || n == 0x2029 || n == 0x202f
        || n == 0x205f || n == 0x3000
}

/// The text without white space at either end.
pub fn trim_text(s: &str) -> (r: String)
    ensures
        r@ == trim_spec(s@),
{
    let cs = chars_of(s);
    let n = cs.len();
    let mut a: usize = 0;
    proof {
        assert(cs@.skip(0) == cs@);
    }
    while a < n && white(cs[a])
        invariant
            n == cs@.len(),
            a <= n,
            trim_start_spec(cs@) == trim_start_spec(cs@.skip(a as int)),
        decreases n - a,
    {
        proof {
            assert(cs@.skip(a as int).drop_first() == cs@.skip(a + 1));
        }
        a = a + 1;
    }
    let mut b: usize = n;
    let ghost start = cs@.skip(a as int);
    proof {
        assert(trim_start_spec(cs@) == start);
        assert(start.subrange(0, (b - a) as int) == start);
    }
    while b > a && white(cs[b - 1])
        invariant
            n == cs@.len(),
            a <= b <= n,
            start == cs@.skip(a as int),
            trim_end_spec(start) == trim_end_spec(cs@.subrange(a as int, b as int)),
        decreases b - a,
    {
        proof {
            assert(cs@.subrange(a as int, b as int).drop_last() == cs@.subrange(a as int, b - 1));
        }
        b = b - 1;
    }
    let mut out: Vec<char> = Vec::new();
    let mut i: usize = a;
    while i < b
        invariant
            a <= i <= b <= n,
            n == cs@.len(),
            out@ == cs@.subrange(a as int, i as int),
        decreases b - i,
    {
        out.push(cs[i]);
        proof {
            assert(cs@.subrange(a as int, i + 1) == cs@.subrange(a as int, i as int).push(cs@[i as int]));
        }
        i = i + 1;
    }
    proof {
        assert(start == cs@.subrange(a as int, n as int));
    }
    string_of(out.as_slice())
}

/// What the input dialog returns when confirmed: the typed text as it is,
/// blank or not (a cancelled dialog returns nothing).
pub fn prompt_answer(text: String) -> (r: Option<String>)
    ensures
        r == Some(text),
{
    Some(text)
}

} // verus!
