//! One round of the parallel search: workers race over shared stop/counter
//! state, and exactly one winning result is surfaced.
use vstd::prelude::*;
use core::sync::atomic::{AtomicBool, AtomicU64, Ordering};
use crate::hexcode::{hex_encoding, is_hex_digit};
use crate::keygen::{
    generate_batch, key_to_hex, spec_address_of, valid_secret_scalar, ADDRESS_LEN, SECRET_LEN,
};
use crate::pattern::{spec_suffix_match, suffix_match};

verus! {

/// A key pair whose address satisfied the suffix predicate, together with the
/// matched digit and run length.
pub struct MatchResult {
    /// The raw secret scalar, 32 bytes.
    pub secret: Vec<u8>,
    /// The derived address, 40 lowercase hexadecimal digits.
    pub address: Vec<u8>,
    /// The repeated hexadecimal digit at the end of the address.
    pub digit: u8,
    /// Length of the trailing run of that digit.
    pub run_len: usize,
}

impl MatchResult {
    /// The key material is consistent: valid scalar, derived address.
    pub open spec fn wf(self) -> bool {
        &&& self.secret@.len() == SECRET_LEN
        &&& valid_secret_scalar(self.secret@)
        &&& self.address@ == spec_address_of(self.secret@)
        &&& self.address@.len() == ADDRESS_LEN
        &&& forall|i: int| 0 <= i < self.address@.len() ==> is_hex_digit(#[trigger] self.address@[i])
    }

    /// The recorded digit and run length are exactly what the matcher decides
    /// for this address at threshold `min_run`.
    pub open spec fn matches_at(self, min_run: int) -> bool {
        spec_suffix_match(self.address@, min_run) == Some((self.digit, self.run_len as int))
    }

    /// The secret key, rendered as 64 lowercase hexadecimal digits.
    pub fn private_key_hex(&self) -> (r: Vec<u8>)
        ensures
            r@ == hex_encoding(self.secret@),
    {
        key_to_hex(&self.secret)
    }
}

/// Shared coordination state for one round, owned by no single worker. The
/// stop flag moves only from unset to set; the attempt counter only grows.
/// Both are touched through relaxed atomic operations alone: eventual
/// visibility is all the protocol needs, and nothing is ever concluded from
/// the values observed.
pub struct SearchState {
    /// Set once a match is found; workers poll it and then stand down.
    pub stop: AtomicBool,
    /// Candidates examined so far, kept for throughput reporting only.
    pub attempts: AtomicU64,
}

impl SearchState {
    /// Fresh state for one round: stop flag unset, counter at zero.
    pub fn new() -> SearchState {
        SearchState { stop: AtomicBool::new(false), attempts: AtomicU64::new(0) }
    }

    /// Non-blocking read of the stop flag.
    pub fn stop_requested(&self) -> bool {
        self.stop.load(Ordering::Relaxed)
    }

    /// Ask every worker of the round to stand down.
    pub fn request_stop(&self) {
        self.stop.store(true, Ordering::Relaxed);
    }

    /// Add a batch's size to the shared attempt counter.
    pub fn add_attempts(&self, n: u64) {
        self.attempts.fetch_add(n, Ordering::Relaxed);
    }

    /// Snapshot of the attempt counter.
    pub fn attempts_so_far(&self) -> u64 {
        self.attempts.load(Ordering::Relaxed)
    }
}

/// One worker's share of a round: pull batches, add their size to the shared
/// attempt counter, and scan each candidate, until a match is found here, the
/// shared stop flag is observed set, or the step bound runs out.
///
/// On its own match the worker sets the stop flag and returns the result; a
/// worker that stops without one returns nothing. The step bound only gives
/// the loop a termination measure; at one batch per step it is never reached
/// in practice, so the worker effectively runs until the round ends.
pub fn run_worker(state: &SearchState, min_run: usize, batch_size: usize) -> (r: Option<
    MatchResult,
>)
    requires
        min_run >= 1,
    ensures
        r matches Some(m) ==> (m.wf() && m.matches_at(min_run as int) && m.run_len >= min_run),
{
    let mut steps_left: u64 = u64::MAX;
    while steps_left > 0
        invariant
            min_run >= 1,
        decreases steps_left,
    {
        if state.stop_requested() {
            return None;
        }
        let batch = generate_batch(batch_size);
        let n: u64 = batch.len() as u64;
        state.add_attempts(n);
        let mut rest = batch;
        while rest.len() > 0
            invariant
                min_run >= 1,
                forall|j: int| 0 <= j < rest@.len() ==> (#[trigger] rest@[j]).wf(),
            decreases rest@.len(),
        {
            let kp = rest.pop().unwrap();
            if let Some((digit, run_len)) = suffix_match(&kp.address, min_run) {
                state.request_stop();
                return Some(
                    MatchResult { secret: kp.secret, address: kp.address, digit, run_len },
                );
            }
        }
        steps_left = steps_left - 1;
    }
    None
}

/// Fan-in for one round: of the slots the workers filled, surface one match
/// and drop the rest. A result comes back exactly when some worker found one.
pub fn select_winner(results: Vec<Option<MatchResult>>, min_run: usize) -> (r: Option<MatchResult>)
    requires
        forall|i: int| 0 <= i < results@.len() ==> ((#[trigger] results@[i]) matches Some(m) ==> (
        m.wf() && m.matches_at(min_run as int))),
    ensures
        r is Some <==> (exists|i: int| 0 <= i < results@.len() && (#[trigger] results@[i]) is Some),
        r matches Some(m) ==> (m.wf() && m.matches_at(min_run as int)),
        r matches Some(m) ==> (exists|i: int|
            0 <= i < results@.len() && ((#[trigger] results@[i]) matches Some(w) && w.secret@
                == m.secret@ && w.address@ == m.address@ && w.digit == m.digit && w.run_len
                == m.run_len)),
{
    let mut rest = results;
    while rest.len() > 0
        invariant
            rest@.len() <= results@.len(),
            rest@ == results@.take(rest@.len() as int),
            forall|i: int| 0 <= i < results@.len() ==> ((#[trigger] results@[i]) matches Some(m)
                ==> (m.wf() && m.matches_at(min_run as int))),
            forall|j: int| rest@.len() <= j < results@.len() ==> (#[trigger] results@[j]) is None,
        decreases rest@.len(),
    {
        let ghost k = rest@.len() as int;
        let slot = rest.pop().unwrap();
        proof {
            assert(rest@ =~= results@.take(k - 1));
            assert(slot == results@[k - 1]);
        }
        if let Some(m) = slot {
            proof {
                assert(results@[k - 1] is Some);
            }
            return Some(m);
        }
    }
    proof {
        assert forall|i: int| 0 <= i < results@.len() implies !((#[trigger] results@[i])
            is Some) by {}
    }
    None
}

/// Cross-round aggregate: how many matches the session has produced so far.
pub struct SessionTotals {
    /// Matches found since the session began; never decreases.
    pub found: u64,
}

impl SessionTotals {
    /// A fresh session has found nothing yet.
    pub fn new() -> (r: SessionTotals)
        ensures
            r.found == 0,
    {
        SessionTotals { found: 0 }
    }

    /// Record one more successful round.
    pub fn record_match(&mut self)
        requires
            old(self).found < u64::MAX,
        ensures
            final(self).found == old(self).found + 1,
    {
        self.found = self.found + 1;
    }

    /// Does the session still owe matches? A zero target means the search is
    /// unbounded and never finishes on its own.
    pub fn keep_searching(&self, target: u64) -> (r: bool)
        ensures
            r == (target == 0 || self.found < target),
    {
        target == 0 || self.found < target
    }
}

} // verus!
