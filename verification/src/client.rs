//! The client runtime's decisions.
//!
//! The process around this crate talks to the central service: it
//! authenticates, fetches rules and jobs, and submits results. Every decision
//! in that traffic is made here, on plain values: when a token must be
//! refreshed and by whom, how long to back off after a failed
//! authentication, whether a 401 response earns one retry, and when the rule
//! store is stale.

use vstd::prelude::*;
use crate::strutil::str_eq;

verus! {

/// Powers of two.
pub open spec fn pow2(n: nat) -> nat
    decreases n,
{
    if n == 0 {
        1
    } else {
        2 * pow2((n - 1) as nat)
    }
}

pub proof fn lemma_pow2_le(a: nat, b: nat)
    requires
        a <= b,
    ensures
        pow2(a) <= pow2(b),
    decreases b,
{
    if a < b {
        lemma_pow2_le(a, (b - 1) as nat);
    }
}

/// How long to sleep before authentication try number `tries + 1`, in
/// seconds: exponential from one second, capped at ten minutes.
pub fn backoff_seconds(tries: u32) -> (r: u64)
    ensures
        r as int == if pow2(tries as nat) < 600 {
            pow2(tries as nat) as int
        } else {
            600
        },
{
    if tries >= 10 {
        proof {
            reveal_with_fuel(pow2, 11);
            assert(pow2(10) == 1024);
            lemma_pow2_le(10, tries as nat);
        }
        600
    } else {
        let mut r: u64 = 1;
        let mut k: u32 = 0;
        while k < tries
            invariant
                0 <= k <= tries,
                tries < 10,
                r as int == pow2(k as nat),
                r <= 512,
            decreases tries - k,
        {
            proof {
                reveal_with_fuel(pow2, 11);
                lemma_pow2_le((k + 1) as nat, 9);
                assert(pow2(9) == 512);
            }
            r = r * 2;
            k = k + 1;
        }
        r
    }
}

/// The token cell: the bearer token in use, and a generation count that
/// advances each time a refreshed token is installed.
pub struct TokenState {
    pub access_token: String,
    pub generation: u64,
}

impl TokenState {
    /// A caller that observed generation `observed` before its request must
    /// perform the refresh itself only when nobody has refreshed since.
    pub open spec fn spec_needs_refresh(&self, observed: u64) -> bool {
        self.generation == observed
    }

    pub fn new(access_token: String) -> (r: TokenState)
        ensures
            r.access_token@ == access_token@,
            r.generation == 0,
    {
        TokenState { access_token, generation: 0 }
    }

    /// Decide, under the writer lock, whether this caller performs the
    /// refresh or reuses what a winner installed meanwhile.
    pub fn needs_refresh(&self, observed: u64) -> (b: bool)
        ensures
            b == self.spec_needs_refresh(observed),
    {
        self.generation == observed
    }

    /// Install a freshly obtained token, advancing the generation.
    pub fn install(&mut self, token: String)
        requires
            old(self).generation < u64::MAX,
        ensures
            final(self).access_token@ == token@,
            final(self).generation == old(self).generation + 1,
    {
        self.access_token = token;
        self.generation = self.generation + 1;
    }
}

/// Concurrent refresh triggers coalesce: of all the callers that observed
/// the same generation, the first to take the writer lock still needs the
/// refresh and performs it; after its install, every other one of them sees
/// that no refresh is needed and reuses the installed token. One refresh
/// network call per window.
pub proof fn lemma_refresh_coalesces(pre: TokenState, post: TokenState, observed: u64)
    requires
        pre.generation == observed,
        pre.generation < u64::MAX,
        post.generation == pre.generation + 1,
    ensures
        pre.spec_needs_refresh(observed),
        !post.spec_needs_refresh(observed),
{
}

/// One reactive retry: a 401 response earns a refresh and a single retry of
/// the original request; a second 401, or any other failure, is surfaced.
pub fn reactive_retry_decision(got_unauthorized: bool, already_retried: bool) -> (retry: bool)
    ensures
        retry == (got_unauthorized && !already_retried),
{
    got_unauthorized && !already_retried
}

/// A job built against a different ruleset hash triggers a rule refresh
/// before the scan.
pub fn rules_need_update(job_hash: &str, store_hash: &str) -> (b: bool)
    ensures
        b == (job_hash@ != store_hash@),
{
    !str_eq(job_hash, store_hash)
}

/// A token is expired once the current instant has passed its expiry.
pub fn token_expired(now_epoch: i64, expires_epoch: i64) -> (b: bool)
    ensures
        b == (now_epoch > expires_epoch),
{
    now_epoch > expires_epoch
}

} // verus!
