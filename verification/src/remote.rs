//! FTP connection input and transfer bookkeeping.
use vstd::prelude::*;
use crate::model::{Entry, last_index, last_index_of};
use crate::text::{chars_between, chars_of, push_str, string_of};

verus! {

/// The port FTP uses when none is given.
pub const DEFAULT_FTP_PORT: u16 = 21;

/// The character is an ASCII decimal digit.
pub open spec fn is_digit(c: char) -> bool {
    '0' <= c && c <= '9'
}

/// The value of a run of decimal digits.
pub open spec fn digits_value(t: Seq<char>) -> nat
    decreases t.len(),
{
    if t.len() == 0 {
        0
    } else {
        digits_value(t.drop_last()) * 10 + ((t.last() as nat) - ('0' as nat)) as nat
    }
}

/// Every character is a digit.
pub open spec fn all_digits(d: Seq<char>) -> bool {
    forall|i: int| 0 <= i < d.len() ==> is_digit(#[trigger] d[i])
}

/// What `str::parse::<u16>` accepts: an optional '+', then one or more ASCII
/// digits whose value fits in 16 bits.
pub open spec fn parse_u16_spec(t: Seq<char>) -> Option<u16> {
    let d = if t.len() > 0 && t[0] == '+' { t.drop_first() } else { t };
    if d.len() > 0 && all_digits(d) && digits_value(d) <= 65535 {
        Some(digits_value(d) as u16)
    } else {
        None
    }
}

/// Host and port from "host" or "host:port": the text after the last ':'
/// is the port, 21 when it is not a valid port number; without ':' the
/// whole text is the host and the port is 21.
pub open spec fn host_port_spec(s: Seq<char>) -> (Seq<char>, u16) {
    match last_index(s, ':') {
        Some(i) => (
            s.subrange(0, i),
            match parse_u16_spec(s.subrange(i + 1, s.len() as int)) {
                Some(p) => p,
                None => 21u16,
            },
        ),
        None => (s, 21u16),
    }
}

/// Digit values never shrink as digits are added.
proof fn lemma_digits_value_grows(t: Seq<char>, i: int)
    requires
        0 <= i <= t.len(),
        forall|j: int| 0 <= j < t.len() ==> is_digit(#[trigger] t[j]),
    ensures
        digits_value(t.take(i)) <= digits_value(t),
    decreases t.len() - i,
{
    if i < t.len() {
        lemma_digits_value_grows(t, i + 1);
        assert(t.take(i + 1).drop_last() == t.take(i));
        assert(t.take(i + 1).last() == t[i]);
        assert(is_digit(t[i]));
    } else {
        assert(t.take(i) == t);
    }
}

/// Parses a port number as `str::parse::<u16>` does.
pub fn parse_port(t: &Vec<char>) -> (r: Option<u16>)
    ensures
        r == parse_u16_spec(t@),
{
    let start: usize = if t.len() > 0 && t[0] == '+' { 1 } else { 0 };
    let ghost d = if t@.len() > 0 && t@[0] == '+' { t@.drop_first() } else { t@ };
    if start == t.len() {
        return None;
    }
    let mut value: u32 = 0;
    let mut i: usize = start;
    proof {
        assert(d == t@.subrange(start as int, t@.len() as int));
    }
    while i < t.len()
        invariant
            start <= i <= t@.len(),
            d == t@.subrange(start as int, t@.len() as int),
            d == (if t@.len() > 0 && t@[0] == '+' { t@.drop_first() } else { t@ }),
            d.len() > 0,
            forall|j: int| 0 <= j < i - start ==> is_digit(#[trigger] d[j]),
            value == digits_value(d.take(i - start)),
            value <= 65535,
        decreases t@.len() - i,
    {
        let c = t[i];
        if !('0' <= c && c <= '9') {
            proof {
                assert(d[i - start] == c);
                assert(!is_digit(d[i - start]));
                assert(!all_digits(d));
            }
            return None;
        }
        let digit = (c as u32) - ('0' as u32);
        proof {
            assert(d.take(i - start + 1).drop_last() == d.take(i - start));
            assert(d[i - start] == c);
        }
        let next = value * 10 + digit;
        if next > 65535 {
            proof {
                assert(digits_value(d.take(i - start + 1)) == next);
                if all_digits(d) {
                    lemma_digits_value_grows(d, i - start + 1);
                }
            }
            return None;
        }
        value = next;
        i = i + 1;
    }
    proof {
        assert(d.take(d.len() as int) == d);
    }
    Some(value as u16)
}

/// Splits "host" or "host:port" into host and port (21 by default or when
/// the port does not parse).
pub fn split_host_port(s: &str) -> (r: (String, u16))
    ensures
        r.0@ == host_port_spec(s@).0,
        r.1 == host_port_spec(s@).1,
{
    let cs = chars_of(s);
    match last_index_of(&cs, ':') {
        Some(i) => {
            let mut host: Vec<char> = Vec::new();
            let mut k: usize = 0;
            while k < i
                invariant
                    i < cs@.len(),
                    k <= i,
                    host@ == cs@.subrange(0, k as int),
                decreases i - k,
            {
                host.push(cs[k]);
                proof {
                    assert(cs@.subrange(0, k + 1) == cs@.subrange(0, k as int).push(cs@[k as int]));
                }
                k = k + 1;
            }
            assert(i < cs.len());
            let port_text = chars_between(&cs, i + 1, cs.len());
            let port = match parse_port(&port_text) {
                Some(p) => p,
                None => DEFAULT_FTP_PORT,
            };
            (string_of(host.as_slice()), port)
        },
        None => (String::from_str(s), DEFAULT_FTP_PORT),
    }
}

/// The names of the files (not folders) among `entries`, in order.
pub open spec fn file_names_spec(entries: Seq<Entry>) -> Seq<Seq<char>>
    decreases entries.len(),
{
    if entries.len() == 0 {
        Seq::empty()
    } else {
        let rest = file_names_spec(entries.drop_last());
        if entries.last().is_dir { rest } else { rest.push(entries.last().name@) }
    }
}

/// The names of the selected files to transfer; folders are skipped.
pub fn file_names(entries: &Vec<Entry>) -> (r: Vec<String>)
    ensures
        r@.map_values(|s: String| s@) == file_names_spec(entries@),
{
    let mut out: Vec<String> = Vec::new();
    let mut i: usize = 0;
    while i < entries.len()
        invariant
            i <= entries@.len(),
            out@.map_values(|s: String| s@) == file_names_spec(entries@.take(i as int)),
        decreases entries@.len() - i,
    {
        proof {
            assert(entries@.take(i + 1).drop_last() == entries@.take(i as int));
        }
        if !entries[i].is_dir {
            let ghost before = out@;
            out.push(entries[i].name.clone());
            proof {
                assert(out@.map_values(|s: String| s@) == before.map_values(|s: String| s@).push(entries@[i as int].name@));
            }
        }
        i = i + 1;
    }
    proof {
        assert(entries@.take(entries@.len() as int) == entries@);
    }
    out
}

/// Texts joined with line breaks between them.
pub open spec fn lines_spec(parts: Seq<Seq<char>>) -> Seq<char>
    decreases parts.len(),
{
    if parts.len() == 0 {
        Seq::empty()
    } else if parts.len() == 1 {
        parts[0]
    } else {
        lines_spec(parts.drop_last()) + seq!['\n'] + parts.last()
    }
}

/// The error report after a transfer: the messages, one per line.
pub fn join_lines(parts: &Vec<String>) -> (r: String)
    ensures
        r@ == lines_spec(parts@.map_values(|s: String| s@)),
{
    let ghost pv = parts@.map_values(|s: String| s@);
    let mut out: Vec<char> = Vec::new();
    let mut i: usize = 0;
    while i < parts.len()
        invariant
            i <= parts@.len(),
            pv == parts@.map_values(|s: String| s@),
            out@ == lines_spec(pv.take(i as int)),
        decreases parts@.len() - i,
    {
        proof {
            assert(pv.take(i + 1).drop_last() == pv.take(i as int));
            assert(pv[i as int] == parts@[i as int]@);
        }
        if i > 0 {
            out.push('\n');
        } else {
            proof {
                assert(out@ == Seq::<char>::empty());
            }
        }
        push_str(&mut out, parts[i].as_str());
        i = i + 1;
    }
    proof {
        assert(pv.take(parts@.len() as int) == pv);
    }
    string_of(out.as_slice())
}

/// The report line of a file that failed to transfer: "<name>: <error>".
pub fn transfer_error(name: &str, err: &str) -> (r: String)
    ensures
        r@ == name@ + ": "@ + err@,
{
    let mut out: Vec<char> = Vec::new();
    push_str(&mut out, name);
    push_str(&mut out, ": ");
    push_str(&mut out, err);
    string_of(out.as_slice())
}

/// How a transfer ends: when nothing failed, the status "<verb> 완료";
/// else the failures, one per line, for an error box.
pub fn transfer_report(verb: &str, errors: &Vec<String>) -> (r: Result<String, String>)
    ensures
        errors@.len() == 0 ==> (r matches Ok(s) && s@ == verb@ + " 완료"@),
        errors@.len() > 0 ==> (r matches Err(s) && s@ == lines_spec(errors@.map_values(|e: String| e@))),
{
    if errors.len() == 0 {
        let mut out: Vec<char> = Vec::new();
        push_str(&mut out, verb);
        push_str(&mut out, " 완료");
        Ok(string_of(out.as_slice()))
    } else {
        Err(join_lines(errors))
    }
}

} // verus!
