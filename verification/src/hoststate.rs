//! Per-host adaptive state: latency windows for adaptive timeouts, the
//! rate-limit counter with its throttle factor, and the warm-up registry.
//! Times are plain milliseconds supplied by the caller's clock.
use vstd::prelude::*;
use crate::text::push_unique;
use crate::text::str_eq_str;
use crate::urlinfo::{parse_url_parts, url_parts};

verus! {

/// The rolling latency window of one host.
pub struct HostLatency {
    /// The host the samples belong to.
    pub host: String,
    /// The most recent latencies, oldest first, at most ten.
    pub samples: Vec<u64>,
}

/// Latency windows for every host seen so far.
pub struct LatencyTracker {
    /// One window per host.
    pub hosts: Vec<HostLatency>,
}

/// One latency window as plain values.
pub open spec fn lat_view(hosts: Seq<HostLatency>) -> Seq<(Seq<char>, Seq<u64>)> {
    hosts.map_values(|e: HostLatency| (e.host@, e.samples@))
}

/// Every window holds at most ten samples.
pub open spec fn lat_wf(t: LatencyTracker) -> bool {
    forall|k: int|
        0 <= k < t.hosts@.len() ==> (#[trigger] t.hosts@[k]).samples@.len() <= 10
}

/// The window of `host`, when one exists.
pub open spec fn lat_lookup(lv: Seq<(Seq<char>, Seq<u64>)>, host: Seq<char>) -> Option<Seq<u64>>
    decreases lv.len(),
{
    if lv.len() == 0 {
        None
    } else if lv[0].0 == host {
        Some(lv[0].1)
    } else {
        lat_lookup(lv.drop_first(), host)
    }
}

/// A window after one more sample: the sample is appended and the oldest
/// falls out once more than ten are held.
pub open spec fn window_push(w: Seq<u64>, ms: u64) -> Seq<u64> {
    if w.push(ms).len() > 10 {
        w.push(ms).drop_first()
    } else {
        w.push(ms)
    }
}

/// The windows after recording `ms` for `host`: its window gains the
/// sample, or a fresh window appears.
pub open spec fn record_spec(
    lv: Seq<(Seq<char>, Seq<u64>)>,
    host: Seq<char>,
    ms: u64,
) -> Seq<(Seq<char>, Seq<u64>)>
    decreases lv.len(),
{
    if lv.len() == 0 {
        seq![(host, seq![ms])]
    } else if lv[0].0 == host {
        seq![(host, window_push(lv[0].1, ms))] + lv.drop_first()
    } else {
        seq![lv[0]] + record_spec(lv.drop_first(), host, ms)
    }
}

/// The sum of a window.
pub open spec fn sum_of(w: Seq<u64>) -> int
    decreases w.len(),
{
    if w.len() == 0 {
        0
    } else {
        w[0] + sum_of(w.drop_first())
    }
}

/// The adaptive timeout over one window, in milliseconds: three times the
/// average latency plus two seconds, but never under five seconds and
/// never over the configured timeout. An empty or missing window yields
/// the configured timeout.
pub open spec fn adaptive_spec(w: Option<Seq<u64>>, timeout_secs: u64) -> int {
    let default = timeout_secs * 1000;
    match w {
        Some(s) => if s.len() > 0 {
            let avg = sum_of(s) / (s.len() as int);
            let a = avg * 3 + 2000;
            if a < 5000 {
                5000
            } else if a > default {
                default
            } else {
                a
            }
        } else {
            default
        },
        None => default,
    }
}

proof fn lemma_lat_lookup_found(lv: Seq<(Seq<char>, Seq<u64>)>, host: Seq<char>, i: int)
    requires
        0 <= i < lv.len(),
        forall|k: int| 0 <= k < i ==> lv[k].0 != host,
        lv[i].0 == host,
    ensures
        lat_lookup(lv, host) == Some(lv[i].1),
    decreases i,
{
    if i > 0 {
        assert(lv.drop_first()[i - 1] == lv[i]);
        assert(forall|k: int| 0 <= k < i - 1 ==> lv.drop_first()[k] == lv[k + 1]);
        lemma_lat_lookup_found(lv.drop_first(), host, i - 1);
    }
}

proof fn lemma_lat_lookup_absent(lv: Seq<(Seq<char>, Seq<u64>)>, host: Seq<char>)
    requires
        forall|k: int| 0 <= k < lv.len() ==> lv[k].0 != host,
    ensures
        lat_lookup(lv, host) is None,
    decreases lv.len(),
{
    if lv.len() > 0 {
        assert(forall|k: int| 0 <= k < lv.drop_first().len() ==> lv.drop_first()[k] == lv[k + 1]);
        lemma_lat_lookup_absent(lv.drop_first(), host);
    }
}

proof fn lemma_record_found(lv: Seq<(Seq<char>, Seq<u64>)>, host: Seq<char>, i: int, ms: u64)
    requires
        0 <= i < lv.len(),
        forall|k: int| 0 <= k < i ==> lv[k].0 != host,
        lv[i].0 == host,
    ensures
        record_spec(lv, host, ms) == lv.update(i, (host, window_push(lv[i].1, ms))),
    decreases i,
{
    if i == 0 {
        assert(record_spec(lv, host, ms) =~= lv.update(0, (host, window_push(lv[0].1, ms))));
    } else {
        assert(lv.drop_first()[i - 1] == lv[i]);
        assert(forall|k: int| 0 <= k < i - 1 ==> lv.drop_first()[k] == lv[k + 1]);
        lemma_record_found(lv.drop_first(), host, i - 1, ms);
        assert(record_spec(lv, host, ms) =~= lv.update(i, (host, window_push(lv[i].1, ms))));
    }
}

proof fn lemma_record_absent(lv: Seq<(Seq<char>, Seq<u64>)>, host: Seq<char>, ms: u64)
    requires
        forall|k: int| 0 <= k < lv.len() ==> lv[k].0 != host,
    ensures
        record_spec(lv, host, ms) == lv.push((host, seq![ms])),
    decreases lv.len(),
{
    if lv.len() == 0 {
        assert(record_spec(lv, host, ms) =~= lv.push((host, seq![ms])));
    } else {
        assert(forall|k: int| 0 <= k < lv.drop_first().len() ==> lv.drop_first()[k] == lv[k + 1]);
        lemma_record_absent(lv.drop_first(), host, ms);
        assert(record_spec(lv, host, ms) =~= lv.push((host, seq![ms])));
    }
}

impl LatencyTracker {
    /// A tracker with no windows.
    pub fn new() -> (t: Self)
        ensures
            lat_view(t.hosts@) =~= Seq::<(Seq<char>, Seq<u64>)>::empty(),
            lat_wf(t),
    {
        LatencyTracker { hosts: Vec::new() }
    }

    /// Records one observed latency for the host of `url`; a URL that does
    /// not parse to a host records nothing.
    pub fn record_response_time(&mut self, url: &str, elapsed_ms: u64)
        requires
            lat_wf(*old(self)),
        ensures
            lat_wf(*final(self)),
            (match url_parts(url@) {
                Some((_s, Some(h), _p)) => lat_view(final(self).hosts@) == record_spec(
                    lat_view(old(self).hosts@),
                    h,
                    elapsed_ms,
                ),
                _ => final(self).hosts@ == old(self).hosts@,
            }),
    {
        let parsed = parse_url_parts(url);
        let host: String = match parsed {
            Some((_s, Some(h), _p)) => h,
            _ => {
                return ;
            },
        };
        let ghost hostv = host@;
        let ghost lv = lat_view(self.hosts@);
        let n = self.hosts.len();
        let mut i: usize = 0;
        while i < n
            invariant
                n == self.hosts@.len(),
                lv == lat_view(self.hosts@),
                lv == lat_view(old(self).hosts@),
                self.hosts@ == old(self).hosts@,
                lat_wf(*self),
                hostv == host@,
                (match url_parts(url@) {
                    Some((_s, hopt, _p)) => hopt == Some(hostv),
                    None => false,
                }),
                i <= n,
                forall|k: int| 0 <= k < i ==> #[trigger] lv[k].0 != hostv,
            decreases n - i,
        {
            assert(lv[i as int] == (self.hosts@[i as int].host@, self.hosts@[i as int].samples@));
            if str_eq_str(self.hosts[i].host.as_str(), host.as_str()) {
                proof {
                    lemma_record_found(lv, hostv, i as int, elapsed_ms);
                }
                let mut new_samples = self.hosts[i].samples.clone();
                proof {
                    assert(forall|k: int|
                        0 <= k < self.hosts@[i as int].samples@.len() ==> new_samples@[k]
                            == #[trigger] self.hosts@[i as int].samples@[k]);
                    assert(new_samples@ =~= self.hosts@[i as int].samples@);
                }
                new_samples.push(elapsed_ms);
                if new_samples.len() > 10 {
                    new_samples.remove(0);
                }
                assert(new_samples@ =~= window_push(lv[i as int].1, elapsed_ms));
                self.hosts.set(i, HostLatency { host, samples: new_samples });
                proof {
                    assert(lat_view(self.hosts@) =~= lv.update(
                        i as int,
                        (hostv, window_push(lv[i as int].1, elapsed_ms)),
                    ));
                    assert(lat_wf(*self));
                }
                return ;
            }
            i = i + 1;
        }
        proof {
            lemma_record_absent(lv, hostv, elapsed_ms);
        }
        let mut samples: Vec<u64> = Vec::new();
        samples.push(elapsed_ms);
        assert(samples@ =~= seq![elapsed_ms]);
        self.hosts.push(HostLatency { host, samples });
        proof {
            assert(lat_view(self.hosts@) =~= lv.push((hostv, seq![elapsed_ms])));
            assert(lat_wf(*self));
        }
    }

    /// The adaptive timeout for the host of `url`, in milliseconds; see
    /// [`adaptive_spec`].
    pub fn get_adaptive_timeout(&self, url: &str, timeout_secs: u64) -> (r: u64)
        requires
            lat_wf(*self),
            timeout_secs <= 0xffff_ffff_ffff_ffffu64 / 1000,
        ensures
            r == (match url_parts(url@) {
                Some((_s, Some(h), _p)) => adaptive_spec(
                    lat_lookup(lat_view(self.hosts@), h),
                    timeout_secs,
                ),
                _ => timeout_secs * 1000,
            }),
    {
        let default: u64 = timeout_secs * 1000;
        let parsed = parse_url_parts(url);
        let host: String = match parsed {
            Some((_s, Some(h), _p)) => h,
            _ => {
                return default;
            },
        };
        let ghost lv = lat_view(self.hosts@);
        let n = self.hosts.len();
        let mut i: usize = 0;
        while i < n
            invariant
                n == self.hosts@.len(),
                lv == lat_view(self.hosts@),
                lat_wf(*self),
                default == timeout_secs * 1000,
                (match url_parts(url@) {
                    Some((_s, hopt, _p)) => hopt == Some(host@),
                    None => false,
                }),
                i <= n,
                forall|k: int| 0 <= k < i ==> #[trigger] lv[k].0 != host@,
            decreases n - i,
        {
            assert(lv[i as int] == (self.hosts@[i as int].host@, self.hosts@[i as int].samples@));
            if str_eq_str(self.hosts[i].host.as_str(), host.as_str()) {
                proof {
                    lemma_lat_lookup_found(lv, host@, i as int);
                }
                let samples = &self.hosts[i].samples;
                if samples.len() == 0 {
                    return default;
                }
                let m = samples.len();
                let mut sum: u128 = 0;
                let mut j: usize = 0;
                proof {
                    assert(samples@.skip(0) =~= samples@);
                }
                while j < m
                    invariant
                        m == samples@.len(),
                        m <= 10,
                        j <= m,
                        sum <= j * 0xffff_ffff_ffff_ffffu128,
                        sum + sum_of(samples@.skip(j as int)) == sum_of(samples@),
                    decreases m - j,
                {
                    proof {
                        assert(samples@.skip(j as int)[0] == samples@[j as int]);
                        assert(samples@.skip(j as int).drop_first() =~= samples@.skip(j + 1));
                    }
                    sum = sum + (samples[j] as u128);
                    j = j + 1;
                }
                assert(samples@.skip(m as int) =~= Seq::<u64>::empty());
                let avg: u128 = sum / (m as u128);
                proof {
                    assert(sum / (m as u128) <= 0xffff_ffff_ffff_ffffu128) by (nonlinear_arith)
                        requires
                            m > 0,
                            sum <= (m as u128) * 0xffff_ffff_ffff_ffffu128,
                    ;
                    assert(sum <= (m as u128) * 0xffff_ffff_ffff_ffffu128) by (nonlinear_arith)
                        requires
                            sum <= (m as int) * 0xffff_ffff_ffff_ffffu128,
                    ;
                }
                let a: u128 = avg * 3 + 2000;
                if a < 5000 {
                    return 5000;
                } else if a > (default as u128) {
                    return default;
                } else {
                    return a as u64;
                }
            }
            i = i + 1;
        }
        proof {
            lemma_lat_lookup_absent(lv, host@);
        }
        default
    }
}


/// Rate-limit hits for one host.
pub struct HostHits {
    /// The host the counter belongs to.
    pub host: String,
    /// How many limiting responses the host has sent.
    pub hits: u64,
    /// When the last one arrived, in caller-clock milliseconds.
    pub last_ms: u64,
}

/// The rate-limit state: per-host hit counters and the throttle factor,
/// held in thousandths so that 1000 stands for no throttling.
pub struct RateLimiter {
    /// One counter per limiting host.
    pub hosts: Vec<HostHits>,
    /// The throttle factor in thousandths, between 1000 and 5000.
    pub throttle_milli: u64,
}

/// The hit counters as plain values: host, hits, last hit time.
pub open spec fn hits_view(hosts: Seq<HostHits>) -> Seq<(Seq<char>, u64, u64)> {
    hosts.map_values(|e: HostHits| (e.host@, e.hits, e.last_ms))
}

/// The throttle factor stays between 1.0 and 5.0.
pub open spec fn rl_wf(r: RateLimiter) -> bool {
    1000 <= r.throttle_milli <= 5000
}

/// The counter of `host`, when there is one.
pub open spec fn hits_lookup(hv: Seq<(Seq<char>, u64, u64)>, host: Seq<char>) -> Option<(u64, u64)>
    decreases hv.len(),
{
    if hv.len() == 0 {
        None
    } else if hv[0].0 == host {
        Some((hv[0].1, hv[0].2))
    } else {
        hits_lookup(hv.drop_first(), host)
    }
}

/// The counters after one limiting response from `host` at `now_ms`.
pub open spec fn bump_hits(
    hv: Seq<(Seq<char>, u64, u64)>,
    host: Seq<char>,
    now_ms: u64,
) -> Seq<(Seq<char>, u64, u64)>
    decreases hv.len(),
{
    if hv.len() == 0 {
        seq![(host, 1u64, now_ms)]
    } else if hv[0].0 == host {
        seq![(host, sat_inc_u64(hv[0].1), now_ms)] + hv.drop_first()
    } else {
        seq![hv[0]] + bump_hits(hv.drop_first(), host, now_ms)
    }
}

/// The hit count `host` reaches with one more limiting response.
pub open spec fn bumped_hit_count(hv: Seq<(Seq<char>, u64, u64)>, host: Seq<char>) -> u64 {
    match hits_lookup(hv, host) {
        Some((h, _)) => sat_inc_u64(h),
        None => 1,
    }
}

/// `n + 1`, capped at the largest representable value.
pub open spec fn sat_inc_u64(n: u64) -> u64 {
    if n < 0xffff_ffff_ffff_ffff {
        (n + 1) as u64
    } else {
        n
    }
}

/// No host has been limited within the trailing five minutes.
pub open spec fn decay_ok(hv: Seq<(Seq<char>, u64, u64)>, now_ms: u64) -> bool {
    forall|k: int| 0 <= k < hv.len() ==> (#[trigger] hv[k]).2 + 300_000 <= now_ms
}

/// The throttle factor after the decay check: it shrinks by a tenth,
/// not below 1.0, only when no host was limited recently.
pub open spec fn decayed(t: u64, ok: bool) -> u64 {
    if ok && t > 1000 {
        if t * 9 / 10 > 1000 {
            (t * 9 / 10) as u64
        } else {
            1000
        }
    } else {
        t
    }
}

/// The throttle factor after an escalation: half again as much, at most 5.0.
pub open spec fn escalated(t: u64) -> u64 {
    if t * 3 / 2 < 5000 {
        (t * 3 / 2) as u64
    } else {
        5000
    }
}

proof fn lemma_hits_lookup_found(hv: Seq<(Seq<char>, u64, u64)>, host: Seq<char>, i: int)
    requires
        0 <= i < hv.len(),
        forall|k: int| 0 <= k < i ==> hv[k].0 != host,
        hv[i].0 == host,
    ensures
        hits_lookup(hv, host) == Some((hv[i].1, hv[i].2)),
    decreases i,
{
    if i > 0 {
        assert(hv.drop_first()[i - 1] == hv[i]);
        assert(forall|k: int| 0 <= k < i - 1 ==> hv.drop_first()[k] == hv[k + 1]);
        lemma_hits_lookup_found(hv.drop_first(), host, i - 1);
    }
}

proof fn lemma_hits_lookup_absent(hv: Seq<(Seq<char>, u64, u64)>, host: Seq<char>)
    requires
        forall|k: int| 0 <= k < hv.len() ==> hv[k].0 != host,
    ensures
        hits_lookup(hv, host) is None,
    decreases hv.len(),
{
    if hv.len() > 0 {
        assert(forall|k: int| 0 <= k < hv.drop_first().len() ==> hv.drop_first()[k] == hv[k + 1]);
        lemma_hits_lookup_absent(hv.drop_first(), host);
    }
}

proof fn lemma_bump_hits_found(hv: Seq<(Seq<char>, u64, u64)>, host: Seq<char>, i: int, now: u64)
    requires
        0 <= i < hv.len(),
        forall|k: int| 0 <= k < i ==> hv[k].0 != host,
        hv[i].0 == host,
    ensures
        bump_hits(hv, host, now) == hv.update(i, (host, sat_inc_u64(hv[i].1), now)),
    decreases i,
{
    if i == 0 {
        assert(bump_hits(hv, host, now) =~= hv.update(0, (host, sat_inc_u64(hv[0].1), now)));
    } else {
        assert(hv.drop_first()[i - 1] == hv[i]);
        assert(forall|k: int| 0 <= k < i - 1 ==> hv.drop_first()[k] == hv[k + 1]);
        lemma_bump_hits_found(hv.drop_first(), host, i - 1, now);
        assert(bump_hits(hv, host, now) =~= hv.update(i, (host, sat_inc_u64(hv[i].1), now)));
    }
}

proof fn lemma_bump_hits_absent(hv: Seq<(Seq<char>, u64, u64)>, host: Seq<char>, now: u64)
    requires
        forall|k: int| 0 <= k < hv.len() ==> hv[k].0 != host,
    ensures
        bump_hits(hv, host, now) == hv.push((host, 1u64, now)),
    decreases hv.len(),
{
    if hv.len() == 0 {
        assert(bump_hits(hv, host, now) =~= hv.push((host, 1u64, now)));
    } else {
        assert(forall|k: int| 0 <= k < hv.drop_first().len() ==> hv.drop_first()[k] == hv[k + 1]);
        lemma_bump_hits_absent(hv.drop_first(), host, now);
        assert(bump_hits(hv, host, now) =~= hv.push((host, 1u64, now)));
    }
}

impl RateLimiter {
    /// A limiter with no hits and no throttling.
    pub fn new() -> (r: Self)
        ensures
            hits_view(r.hosts@) =~= Seq::<(Seq<char>, u64, u64)>::empty(),
            r.throttle_milli == 1000,
            rl_wf(r),
    {
        RateLimiter { hosts: Vec::new(), throttle_milli: 1000 }
    }

    /// Digests one response status from `url` at `now_ms`. A limiting
    /// status (429 or 503) bumps the host's counter; from the third hit on
    /// the throttle factor escalates and the call reports true. Otherwise
    /// the factor decays one step, but only when no host was limited in
    /// the trailing five minutes. The factor never leaves [1.0, 5.0] and
    /// never drops while any host is recently limited.
    pub fn observe(&mut self, url: &str, status: u16, now_ms: u64) -> (limited: bool)
        requires
            rl_wf(*old(self)),
        ensures
            rl_wf(*final(self)),
            ({
                let hv = hits_view(old(self).hosts@);
                let rate = status == 429 || status == 503;
                match url_parts(url@) {
                    Some((_s, Some(h), _p)) => {
                        if rate {
                            &&& hits_view(final(self).hosts@) == bump_hits(hv, h, now_ms)
                            &&& (if bumped_hit_count(hv, h) >= 3 {
                                limited && final(self).throttle_milli == escalated(
                                    old(self).throttle_milli,
                                )
                            } else {
                                !limited && final(self).throttle_milli == decayed(
                                    old(self).throttle_milli,
                                    decay_ok(bump_hits(hv, h, now_ms), now_ms),
                                )
                            })
                        } else {
                            &&& final(self).hosts@ == old(self).hosts@
                            &&& !limited
                            &&& final(self).throttle_milli == decayed(
                                old(self).throttle_milli,
                                decay_ok(hv, now_ms),
                            )
                        }
                    },
                    _ => {
                        &&& final(self).hosts@ == old(self).hosts@
                        &&& !limited
                        &&& final(self).throttle_milli == decayed(
                            old(self).throttle_milli,
                            decay_ok(hits_view(old(self).hosts@), now_ms),
                        )
                    },
                }
            }),
    {
        let rate = status == 429 || status == 503;
        if rate {
            if let Some((_s, Some(host), _p)) = parse_url_parts(url) {
                let ghost hostv = host@;
                let ghost hv = hits_view(self.hosts@);
                let n = self.hosts.len();
                let mut i: usize = 0;
                let mut found: bool = false;
                let mut new_hits: u64 = 1;
                while i < n && !found
                    invariant
                        n == self.hosts@.len(),
                        hv == hits_view(self.hosts@),
                        hv == hits_view(old(self).hosts@),
                        self.hosts@ == old(self).hosts@,
                        self.throttle_milli == old(self).throttle_milli,
                        rl_wf(*self),
                        hostv == host@,
                        i <= n,
                        forall|k: int| 0 <= k < i ==> #[trigger] hv[k].0 != hostv,
                        found ==> i < n && hv[i as int].0 == hostv,
                    decreases n - i - (if found { 1int } else { 0int }),
                {
                    assert(hv[i as int] == (self.hosts@[i as int].host@,
                    self.hosts@[i as int].hits, self.hosts@[i as int].last_ms));
                    if str_eq_str(self.hosts[i].host.as_str(), host.as_str()) {
                        found = true;
                    } else {
                        i = i + 1;
                    }
                }
                if found {
                    proof {
                        lemma_bump_hits_found(hv, hostv, i as int, now_ms);
                    }
                    let prev = self.hosts[i].hits;
                    new_hits = if prev < 0xffff_ffff_ffff_ffff {
                        prev + 1
                    } else {
                        prev
                    };
                    self.hosts.set(i, HostHits { host, hits: new_hits, last_ms: now_ms });
                    proof {
                        lemma_hits_lookup_found(hv, hostv, i as int);
                        assert(hits_view(self.hosts@) =~= hv.update(
                            i as int,
                            (hostv, sat_inc_u64(hv[i as int].1), now_ms),
                        ));
                        assert(new_hits == bumped_hit_count(hv, hostv));
                    }
                } else {
                    proof {
                        lemma_bump_hits_absent(hv, hostv, now_ms);
                        lemma_hits_lookup_absent(hv, hostv);
                    }
                    self.hosts.push(HostHits { host, hits: 1, last_ms: now_ms });
                    proof {
                        assert(hits_view(self.hosts@) =~= hv.push((hostv, 1u64, now_ms)));
                        assert(new_hits == bumped_hit_count(hv, hostv));
                    }
                }
                if new_hits >= 3 {
                    let next = self.throttle_milli * 3 / 2;
                    self.throttle_milli = if next < 5000 {
                        next
                    } else {
                        5000
                    };
                    return true;
                }
                let ok = self.recently_quiet(now_ms);
                self.apply_decay(ok);
                return false;
            }
        }
        let ok = self.recently_quiet(now_ms);
        self.apply_decay(ok);
        false
    }

    /// Whether no host has been limited in the trailing five minutes.
    fn recently_quiet(&self, now_ms: u64) -> (ok: bool)
        ensures
            ok == decay_ok(hits_view(self.hosts@), now_ms),
    {
        let ghost hv = hits_view(self.hosts@);
        let n = self.hosts.len();
        let mut i: usize = 0;
        while i < n
            invariant
                n == self.hosts@.len(),
                hv == hits_view(self.hosts@),
                i <= n,
                forall|k: int| 0 <= k < i ==> (#[trigger] hv[k]).2 + 300_000 <= now_ms,
            decreases n - i,
        {
            assert(hv[i as int] == (self.hosts@[i as int].host@, self.hosts@[i as int].hits,
            self.hosts@[i as int].last_ms));
            let last = self.hosts[i].last_ms;
            if last > now_ms || now_ms - last < 300_000 {
                return false;
            }
            i = i + 1;
        }
        true
    }

    /// One decay step of the throttle factor.
    fn apply_decay(&mut self, ok: bool)
        requires
            rl_wf(*old(self)),
        ensures
            rl_wf(*final(self)),
            final(self).throttle_milli == decayed(old(self).throttle_milli, ok),
            final(self).hosts@ == old(self).hosts@,
    {
        if ok && self.throttle_milli > 1000 {
            let next = self.throttle_milli * 9 / 10;
            self.throttle_milli = if next > 1000 {
                next
            } else {
                1000
            };
        }
    }

    /// The inter-request delay the current throttle factor asks for, in
    /// milliseconds: thirty milliseconds scaled by the factor.
    pub fn get_throttle_delay(&self) -> (d: u64)
        requires
            rl_wf(*self),
        ensures
            d == 30 * self.throttle_milli / 1000,
    {
        30 * self.throttle_milli / 1000
    }
}

/// The hosts already warmed up, so that each is warmed at most once.
pub struct WarmupRegistry {
    /// The warmed hosts.
    pub hosts: Vec<String>,
}

impl WarmupRegistry {
    /// An empty registry.
    pub fn new() -> (r: Self)
        ensures
            r.hosts.deep_view() =~= Seq::<Seq<char>>::empty(),
    {
        WarmupRegistry { hosts: Vec::new() }
    }

    /// The host of `base_url` when it still needs warming: a URL that does
    /// not parse to a host, or whose host is already warmed, needs none.
    pub fn warmup_target(&self, base_url: &str) -> (r: Option<String>)
        ensures
            (match url_parts(base_url@) {
                Some((_s, Some(h), _p)) => {
                    if self.hosts.deep_view().contains(h) {
                        r is None
                    } else {
                        r matches Some(host) && host@ == h
                    }
                },
                _ => r is None,
            }),
    {
        match parse_url_parts(base_url) {
            Some((_s, Some(host), _p)) => {
                if crate::text::vec_contains_string(&self.hosts, &host) {
                    None
                } else {
                    Some(host)
                }
            },
            _ => None,
        }
    }

    /// Marks `host` warmed.
    pub fn mark_warmed(&mut self, host: String)
        ensures
            final(self).hosts.deep_view() == old(self).hosts.deep_view() + (if old(
                self,
            ).hosts.deep_view().contains(host@) {
                Seq::<Seq<char>>::empty()
            } else {
                seq![host@]
            }),
    {
        push_unique(&mut self.hosts, host);
    }
}

} // verus!
