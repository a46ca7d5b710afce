//! Persisted port-forward rules and their supervisor policy: rules start on
//! launch when enabled, and a broken tunnel reconnects forever with capped
//! exponential backoff plus jitter.

use vstd::prelude::*;
use vstd::arithmetic::power2::{pow2, lemma2_to64};
use std::time::Duration;
use crate::ssh::SshConfig;
use crate::records::Keyed;
use crate::text::same_text;

verus! {

/// A persisted port-forward.
pub struct TunnelRule {
    pub id: String,
    pub name: String,
    pub ssh: SshConfig,
    pub local_host: String,
    pub local_port: u16,
    pub remote_host: String,
    pub remote_port: u16,
    pub enabled: bool,
    /// "local" | "remote" | "dynamic"
    pub mode: String,
}

impl Keyed for TunnelRule {
    open spec fn key_of(&self) -> Seq<char> {
        self.id@
    }

    fn key(&self) -> (k: &String) {
        &self.id
    }
}

/// Local bind address when a saved rule gives none.
pub fn local_host_default() -> (s: String)
    ensures
        s@ == "127.0.0.1"@,
{
    "127.0.0.1".to_owned()
}

/// Rules are enabled unless saved otherwise.
pub fn enabled_default() -> (b: bool)
    ensures
        b,
{
    true
}

/// Forward mode when a saved rule gives none.
pub fn mode_default() -> (s: String)
    ensures
        s@ == "local"@,
{
    "local".to_owned()
}

/// The kinds of forward.
#[derive(PartialEq, Eq, Structural)]
pub enum ForwardMode {
    /// -L: a local listener, each connection forwarded to the remote target.
    Local,
    /// -R: the server listens and forwards back to the local target.
    Remote,
    /// -D: a local SOCKS5 proxy.
    Dynamic,
}

/// The forward a rule's mode text selects; anything unrecognised is a local
/// forward.
pub fn forward_mode(mode: &str) -> (m: ForwardMode)
    ensures
        m == (if mode@ == "remote"@ {
            ForwardMode::Remote
        } else if mode@ == "dynamic"@ {
            ForwardMode::Dynamic
        } else {
            ForwardMode::Local
        }),
{
    if same_text(mode, "remote") {
        ForwardMode::Remote
    } else if same_text(mode, "dynamic") {
        ForwardMode::Dynamic
    } else {
        ForwardMode::Local
    }
}

/// The base reconnect delay, in seconds, after `attempt` consecutive
/// failures: 1, 2, 4, 8, 16, then 30 for ever.
pub open spec fn backoff_secs(attempt: u32) -> u64 {
    let e: nat = if attempt < 5 {
        attempt as nat
    } else {
        5
    };
    if pow2(e) < 30 {
        pow2(e) as u64
    } else {
        30
    }
}

/// The most jitter added to the base delay, in milliseconds: a quarter of
/// the base, at least one.
pub open spec fn jitter_cap(attempt: u32) -> u64 {
    let q = backoff_secs(attempt) * 1000 / 4;
    if q < 1 {
        1
    } else {
        q as u64
    }
}

/// The delay for `attempt` with `jitter` milliseconds added.
pub open spec fn jittered_delay(attempt: u32, jitter: u64) -> Duration {
    duration_from_millis((backoff_secs(attempt) * 1000 + jitter) as u64)
}

/// `Duration::from_secs(secs)`.
pub uninterp spec fn duration_from_secs(secs: u64) -> Duration;

/// `Duration::from_millis(millis)`.
pub uninterp spec fn duration_from_millis(millis: u64) -> Duration;

/// std's `Duration::from_secs`: the result is named by `duration_from_secs`.
#[verifier::external_body]
fn secs_to_duration(secs: u64) -> (d: Duration)
    ensures
        d == duration_from_secs(secs),
{
    Duration::from_secs(secs)
}

/// std's `Duration::from_millis`: the result is named by `duration_from_millis`.
#[verifier::external_body]
fn millis_to_duration(millis: u64) -> (d: Duration)
    ensures
        d == duration_from_millis(millis),
{
    Duration::from_millis(millis)
}

/// fastrand's `u64(0..=max)`: some number from 0 to `max`, drawn from the
/// thread-local generator. Which one is left open.
#[verifier::external_body]
fn random_up_to(max: u64) -> (r: u64)
    ensures
        r <= max,
{
    fastrand::u64(0..=max)
}

/// The base reconnect delay in seconds (see [`backoff_secs`]).
pub fn backoff_delay_secs(attempt: u32) -> (s: u64)
    ensures
        s == backoff_secs(attempt),
{
    let e: u64 = if attempt < 5 {
        attempt as u64
    } else {
        5
    };
    let p: u64 = 1u64 << e;
    proof {
        lemma2_to64();
        if e == 0 {
            assert(1u64 << 0u64 == 1) by (bit_vector);
        } else if e == 1 {
            assert(1u64 << 1u64 == 2) by (bit_vector);
        } else if e == 2 {
            assert(1u64 << 2u64 == 4) by (bit_vector);
        } else if e == 3 {
            assert(1u64 << 3u64 == 8) by (bit_vector);
        } else if e == 4 {
            assert(1u64 << 4u64 == 16) by (bit_vector);
        } else {
            assert(1u64 << 5u64 == 32) by (bit_vector);
        }
    }
    if p < 30 {
        p
    } else {
        30
    }
}

/// Exponential backoff capped at 30 s; never gives up.
pub fn backoff_delay(attempt: u32) -> (d: Duration)
    ensures
        d == duration_from_secs(backoff_secs(attempt)),
{
    secs_to_duration(backoff_delay_secs(attempt))
}

/// The jittered delay in milliseconds for a drawn `jitter`: the base delay
/// plus the jitter.
pub fn jittered_delay_millis(attempt: u32, jitter: u64) -> (ms: u64)
    requires
        jitter <= jitter_cap(attempt),
    ensures
        ms == backoff_secs(attempt) * 1000 + jitter,
{
    proof {
        lemma_backoff_capped(attempt);
    }
    backoff_delay_secs(attempt) * 1000 + jitter
}

/// The most jitter for `attempt`, in milliseconds (see [`jitter_cap`]).
pub fn jitter_cap_millis(attempt: u32) -> (c: u64)
    ensures
        c == jitter_cap(attempt),
{
    proof {
        lemma_backoff_capped(attempt);
    }
    let q = backoff_delay_secs(attempt) * 1000 / 4;
    if q < 1 {
        1
    } else {
        q
    }
}

/// Backoff with +0..25% jitter, so that many tunnels do not reconnect in
/// step.
pub fn backoff_delay_jittered(attempt: u32) -> (d: Duration)
    ensures
        exists|j: u64| j <= jitter_cap(attempt) && d == #[trigger] jittered_delay(attempt, j),
{
    let cap = jitter_cap_millis(attempt);
    let j = random_up_to(cap);
    let ms = jittered_delay_millis(attempt, j);
    let d = millis_to_duration(ms);
    assert(d == jittered_delay(attempt, j));
    d
}

/// The failure count after one run of a tunnel: a clean disconnect resets
/// it (reconnect promptly), a failure adds one (saturating).
pub fn next_attempt(attempt: u32, clean: bool) -> (n: u32)
    ensures
        clean ==> n == 0,
        !clean ==> n == (if attempt == u32::MAX {
            u32::MAX
        } else {
            (attempt + 1) as u32
        }),
{
    if clean {
        0
    } else {
        attempt.saturating_add(1)
    }
}

/// Selects the enabled rules.
pub open spec fn enabled_rule() -> spec_fn(TunnelRule) -> bool {
    |t: TunnelRule| t.enabled
}

/// How often a serving tunnel probes its SSH connection, in seconds.
pub fn health_interval_secs() -> (s: u64)
    ensures
        s == 15,
{
    15
}

/// Whether a tunnel keeps serving after a health probe: it does while the
/// connection can still open a channel; otherwise the run ends cleanly and
/// the supervisor reconnects promptly.
pub fn keep_serving(probe_opened_channel: bool) -> (keep: bool)
    ensures
        keep == probe_opened_channel,
{
    probe_opened_channel
}

/// The rules to start on launch: the enabled ones, in order.
pub fn rules_to_autostart(rules: Vec<TunnelRule>) -> (r: Vec<TunnelRule>)
    ensures
        r@ == rules@.filter(enabled_rule()),
{
    let ghost l = rules@;
    let ghost f = enabled_rule();
    let mut rest = rules;
    let mut taken: Vec<TunnelRule> = Vec::new();
    while rest.len() > 0
        invariant
            rest@ + taken@.reverse() == l,
        decreases rest.len(),
    {
        let x = rest.pop().unwrap();
        let ghost before = taken@;
        taken.push(x);
        assert(taken@.reverse() =~= seq![x] + before.reverse());
    }
    assert(rest@ =~= Seq::<TunnelRule>::empty());
    assert(taken@.reverse() =~= l);
    assert forall|j: int| 0 <= j < taken@.len() implies #[trigger] taken@[j] == l[l.len() - 1 - j] by {
        assert(taken@.reverse()[l.len() - 1 - j] == taken@[j]);
    }
    let mut out: Vec<TunnelRule> = Vec::new();
    assert(l.take(0).filter(f) =~= Seq::<TunnelRule>::empty()) by {
        reveal(Seq::filter);
    }
    while taken.len() > 0
        invariant
            taken@.len() <= l.len(),
            forall|j: int| 0 <= j < taken@.len() ==> #[trigger] taken@[j] == l[l.len() - 1 - j],
            f == enabled_rule(),
            out@ == l.take(l.len() - taken@.len()).filter(f),
        decreases taken.len(),
    {
        let ghost m = taken@.len();
        let ghost pos = l.len() - m;
        assert(taken@[m - 1] == l[pos]);
        let x = taken.pop().unwrap();
        proof {
            assert(l.take(pos + 1) =~= l.take(pos).push(x));
            l.take(pos).lemma_filter_push(x, f);
        }
        if x.enabled {
            out.push(x);
        }
    }
    assert(l.take(l.len() as int) =~= l);
    out
}

/// The base delay never exceeds 30 seconds and is at least one second.
pub proof fn lemma_backoff_capped(attempt: u32)
    ensures
        1 <= backoff_secs(attempt) <= 30,
{
    lemma2_to64();
}

/// The base delay never shrinks as failures accumulate.
pub proof fn lemma_backoff_monotone(a: u32, b: u32)
    requires
        a <= b,
    ensures
        backoff_secs(a) <= backoff_secs(b),
{
    lemma2_to64();
}

/// A failure never shortens the next delay, and the delay stays within the
/// cap: a supervised tunnel retries for ever at most 30 s (plus jitter) apart.
pub proof fn lemma_retry_delay_after_failure(attempt: u32)
    ensures
        backoff_secs(attempt) <= backoff_secs(
            if attempt == u32::MAX {
                u32::MAX
            } else {
                (attempt + 1) as u32
            },
        ) <= 30,
{
    lemma2_to64();
}

} // verus!
