//! Progress of a background file operation, shared with the window.
use vstd::prelude::*;
use std::sync::{Arc, Mutex};
use crate::paths::{file_name, file_name_of};
use crate::text::{decimal, push_decimal, push_str, string_of};

verus! {

/// How far an operation has come.
#[derive(Debug)]
pub struct Progress {
    /// What is being done ("복사", "이동", "삭제", "추출").
    pub verb: String,
    /// Bytes (or items) to process in all.
    pub total: u64,
    /// Bytes (or items) processed so far.
    pub done: u64,
    /// The name being processed now.
    pub current: String,
    pub finished: bool,
    /// Set by the window to ask the worker to stop.
    pub cancel: bool,
    pub error: Option<String>,
}

/// The declaration of std's `Mutex`, which holds the progress between threads.
#[verifier::external_type_specification]
#[verifier::external_body]
#[verifier::reject_recursive_types(T)]
pub struct ExMutex<T: ?Sized>(Mutex<T>);

/// The handle that the worker thread and the window share.
pub type SharedProgress = Arc<Mutex<Progress>>;

/// The progress a mutex was made holding. What it holds later, after
/// changes made under its lock, is not named.
pub uninterp spec fn made_holding(m: Mutex<Progress>) -> Progress;

/// Calls `Mutex::new`, which makes a lock holding `p`.
#[verifier::external_body]
fn new_mutex(p: Progress) -> (r: Mutex<Progress>)
    ensures
        made_holding(r) == p,
{
    Mutex::new(p)
}

impl Default for Progress {
    /// Nothing done, nothing to do, no verb.
    fn default() -> (r: Progress)
        ensures
            r.verb@ == Seq::<char>::empty(),
            r.total == 0,
            r.done == 0,
            r.current@ == Seq::<char>::empty(),
            !r.finished,
            !r.cancel,
            r.error is None,
    {
        Progress {
            verb: String::new(),
            total: 0,
            done: 0,
            current: String::new(),
            finished: false,
            cancel: false,
            error: None,
        }
    }
}

/// The percentage shown: 100 for a finished operation with nothing to do,
/// else the share of `total` done (capped at all of it), rounded down.
pub open spec fn percent_of(total: nat, done: nat, finished: bool) -> nat {
    if total == 0 {
        if finished { 100 } else { 0 }
    } else {
        (if done < total { done } else { total }) * 100 / total
    }
}

/// The share can be computed in 64 bits: the capped amount times 100 fits.
pub open spec fn percent_fits(total: nat, done: nat) -> bool {
    (if done < total { done } else { total }) * 100 <= u64::MAX
}

/// The percentage never falls as more gets done, and reads 100 once all of
/// a non-empty total is done.
pub proof fn law_percent_monotone(total: nat, d1: nat, d2: nat, finished: bool)
    requires
        d1 <= d2,
    ensures
        percent_of(total, d1, finished) <= percent_of(total, d2, finished),
        total > 0 && d2 >= total ==> percent_of(total, d2, finished) == 100,
{
    if total > 0 {
        let c1: int = if d1 < total { d1 as int } else { total as int };
        let c2: int = if d2 < total { d2 as int } else { total as int };
        assert(c1 <= c2);
        vstd::arithmetic::div_mod::lemma_div_is_ordered(c1 * 100, c2 * 100, total as int);
        if d2 >= total {
            vstd::arithmetic::div_mod::lemma_div_multiples_vanish(100, total as int);
            assert(c2 * 100 == total * 100);
        }
    }
}

impl Progress {
    /// A fresh progress for `verb`, nothing done yet.
    pub fn with_verb(verb: &str) -> (r: Progress)
        ensures
            r.verb@ == verb@,
            r.total == 0,
            r.done == 0,
            r.current@ == Seq::<char>::empty(),
            !r.finished,
            !r.cancel,
            r.error is None,
    {
        Progress {
            verb: String::from_str(verb),
            total: 0,
            done: 0,
            current: String::new(),
            finished: false,
            cancel: false,
            error: None,
        }
    }

    /// Whether the percentage can be computed (see `percent_fits`).
    pub fn percent_computable(&self) -> (r: bool)
        ensures
            r == percent_fits(self.total as nat, self.done as nat),
    {
        let capped = if self.done < self.total { self.done } else { self.total };
        capped <= u64::MAX / 100
    }

    /// The completed percentage, 0 to 100.
    pub fn percent(&self) -> (r: u64)
        requires
            percent_fits(self.total as nat, self.done as nat),
        ensures
            r == percent_of(self.total as nat, self.done as nat, self.finished),
            r <= 100,
    {
        if self.total == 0 {
            if self.finished { 100 } else { 0 }
        } else {
            let capped = if self.done < self.total { self.done } else { self.total };
            assert((capped * 100) as int / (self.total as int) <= 100) by (nonlinear_arith)
                requires
                    capped <= self.total,
                    self.total > 0,
            ;
            capped * 100 / self.total
        }
    }

    /// Records the name of the path being processed (its last component).
    pub fn set_current(&mut self, path: &str)
        ensures
            final(self).current@ == match file_name_of(path@) {
                Some(n) => n,
                None => Seq::empty(),
            },
            final(self).verb == old(self).verb,
            final(self).total == old(self).total,
            final(self).done == old(self).done,
            final(self).finished == old(self).finished,
            final(self).cancel == old(self).cancel,
            final(self).error == old(self).error,
    {
        self.current = file_name(path);
    }

    /// Counts `amount` more as done.
    pub fn add_done(&mut self, amount: u64)
        requires
            old(self).done + amount <= u64::MAX,
        ensures
            final(self).done == old(self).done + amount,
            final(self).verb == old(self).verb,
            final(self).total == old(self).total,
            final(self).current == old(self).current,
            final(self).finished == old(self).finished,
            final(self).cancel == old(self).cancel,
            final(self).error == old(self).error,
    {
        self.done = self.done + amount;
    }

    /// The status line while the operation runs: "<verb> <percent>% · <current>".
    pub fn status_text(&self) -> (r: String)
        requires
            percent_fits(self.total as nat, self.done as nat),
        ensures
            r@ == self.verb@ + " "@ + decimal(percent_of(self.total as nat, self.done as nat, self.finished))
                + "% · "@ + self.current@,
    {
        let mut out: Vec<char> = Vec::new();
        push_str(&mut out, self.verb.as_str());
        push_str(&mut out, " ");
        push_decimal(&mut out, self.percent() as u128);
        push_str(&mut out, "% · ");
        push_str(&mut out, self.current.as_str());
        string_of(out.as_slice())
    }
}

/// A shared progress for `verb`, nothing done yet: a new handle to a lock
/// made holding `Progress::with_verb(verb)`.
pub fn new_shared(verb: &str) -> (r: SharedProgress)
    ensures
        made_holding(*r).verb@ == verb@,
        made_holding(*r).total == 0,
        made_holding(*r).done == 0,
        made_holding(*r).current@ == Seq::<char>::empty(),
        !made_holding(*r).finished,
        !made_holding(*r).cancel,
        made_holding(*r).error is None,
{
    Arc::new(new_mutex(Progress::with_verb(verb)))
}

} // verus!
