//! Orchestration decisions: the concurrency clamp, the nested timeout
//! bounds, the dynamic thread adjustment, host grouping, and the scanner
//! state that ties configuration and statistics together.
use vstd::prelude::*;
use crate::ScanConfig;
use crate::stats::{bump, entries_view, sort_desc, PatternStats};
use crate::text::{after_last_slash, after_last_slash_exec, chars_of, match_at_exact};

verus! {

/// The hard ceiling on concurrently in-flight probes, whatever the
/// configuration asks for.
pub const MAX_EFFECTIVE_THREADS: usize = 5;

/// The number of probes allowed in flight at once: the configured thread
/// count, but never more than the hard ceiling of five.
pub fn effective_concurrency(threads: usize) -> (r: usize)
    ensures
        r == (if threads < MAX_EFFECTIVE_THREADS {
            threads as int
        } else {
            MAX_EFFECTIVE_THREADS as int
        }),
        r <= MAX_EFFECTIVE_THREADS,
{
    if threads < MAX_EFFECTIVE_THREADS {
        threads
    } else {
        MAX_EFFECTIVE_THREADS
    }
}

/// The outer bound on one existence check, in seconds: the configured
/// timeout capped at five seconds.
pub fn existence_check_timeout(timeout_secs: u64) -> (r: u64)
    ensures
        r == (if timeout_secs < 5 {
            timeout_secs as int
        } else {
            5
        }),
{
    if timeout_secs < 5 {
        timeout_secs
    } else {
        5
    }
}

/// The bound on one dispatched probe task, in seconds: the configured
/// timeout capped at ten seconds.
pub fn probe_task_timeout(timeout_secs: u64) -> (r: u64)
    ensures
        r == (if timeout_secs < 10 {
            timeout_secs as int
        } else {
            10
        }),
{
    if timeout_secs < 10 {
        timeout_secs
    } else {
        10
    }
}

/// The bound on one whole phase, in milliseconds: three seconds per
/// candidate, but never more than two minutes.
pub fn batch_timeout_ms(url_count: usize) -> (r: u64)
    ensures
        r == (if url_count * 3000 < 120_000 {
            url_count * 3000
        } else {
            120_000int
        }),
{
    if url_count >= 40 {
        120_000
    } else {
        (url_count as u64) * 3000
    }
}

/// The wall-clock bound on the whole scan, in seconds: five times the
/// per-request timeout, at least one minute; an overlarge configuration
/// saturates instead of wrapping.
pub fn global_timeout_secs(timeout_secs: u64) -> (r: u64)
    ensures
        timeout_secs * 5 <= u64::MAX ==> r == (if timeout_secs * 5 > 60 {
            timeout_secs * 5
        } else {
            60int
        }),
        timeout_secs * 5 > u64::MAX ==> r == u64::MAX,
{
    if timeout_secs > 0xffff_ffff_ffff_ffffu64 / 5 {
        return u64::MAX;
    }
    let five = timeout_secs * 5;
    if five > 60 {
        five
    } else {
        60
    }
}

/// The characters of `s` before the first `c`, or all of `s`.
pub open spec fn before_char(s: Seq<char>, c: char) -> Seq<char>
    decreases s.len(),
{
    if s.len() == 0 {
        s
    } else if s[0] == c {
        Seq::empty()
    } else {
        seq![s[0]] + before_char(s.drop_first(), c)
    }
}

/// The index of the first occurrence of `pat` in `s`, or -1.
pub open spec fn find_sub(s: Seq<char>, pat: Seq<char>) -> int
    decreases s.len(),
{
    if s.len() < pat.len() {
        -1
    } else if s.subrange(0, pat.len() as int) == pat {
        0
    } else if s.len() == 0 {
        -1
    } else {
        let r = find_sub(s.drop_first(), pat);
        if r < 0 {
            -1
        } else {
            r + 1
        }
    }
}

/// `s` up to the first occurrence of `pat`, or all of `s`.
pub open spec fn before_sub(s: Seq<char>, pat: Seq<char>) -> Seq<char> {
    if find_sub(s, pat) >= 0 {
        s.take(find_sub(s, pat))
    } else {
        s
    }
}

/// The key targets are grouped under: the host-ish part between the first
/// "://" and the next path separator, or the whole target when it names no
/// scheme.
pub open spec fn group_key_spec(t: Seq<char>) -> Seq<char> {
    let f = find_sub(t, "://"@);
    if f >= 0 {
        before_char(before_sub(t.skip(f + 3), "://"@), '/')
    } else {
        t
    }
}

proof fn lemma_find_sub_at(s: Seq<char>, pat: Seq<char>, i: int)
    requires
        pat.len() > 0,
        0 <= i,
        i + pat.len() <= s.len(),
        forall|k: int|
            0 <= k < i ==> #[trigger] s.subrange(k, k + pat.len()) != pat,
        s.subrange(i, i + pat.len()) == pat,
    ensures
        find_sub(s, pat) == i,
    decreases i,
{
    if i == 0 {
        assert(s.subrange(0, 0 + pat.len() as int) == pat);
        assert(s.subrange(0, pat.len() as int) =~= s.subrange(0, 0 + pat.len() as int));
    } else {
        assert(s.subrange(0, 0 + pat.len() as int) != pat);
        assert(s.subrange(0, pat.len() as int) =~= s.subrange(0, 0 + pat.len() as int));
        assert(forall|k: int|
            0 <= k < i - 1 ==> #[trigger] s.drop_first().subrange(k, k + pat.len()) =~= s.subrange(
                k + 1,
                k + 1 + pat.len(),
            ));
        assert(s.drop_first().subrange(i - 1, i - 1 + pat.len()) =~= s.subrange(i, i + pat.len()));
        lemma_find_sub_at(s.drop_first(), pat, i - 1);
    }
}

proof fn lemma_find_sub_none(s: Seq<char>, pat: Seq<char>)
    requires
        pat.len() > 0,
        forall|k: int|
            0 <= k && k + pat.len() <= s.len() ==> #[trigger] s.subrange(k, k + pat.len()) != pat,
    ensures
        find_sub(s, pat) == -1,
    decreases s.len(),
{
    if s.len() >= pat.len() {
        assert(s.subrange(0, 0 + pat.len() as int) != pat);
        assert(s.subrange(0, pat.len() as int) =~= s.subrange(0, 0 + pat.len() as int));
        assert(forall|k: int|
            0 <= k && k + pat.len() <= s.drop_first().len() ==> #[trigger] s.drop_first().subrange(
                k,
                k + pat.len(),
            ) =~= s.subrange(k + 1, k + 1 + pat.len()));
        lemma_find_sub_none(s.drop_first(), pat);
    }
}

proof fn lemma_before_char_at(s: Seq<char>, c: char, j: int)
    requires
        0 <= j <= s.len(),
        forall|k: int| 0 <= k < j ==> s[k] != c,
        j == s.len() || s[j] == c,
    ensures
        before_char(s, c) == s.take(j),
    decreases j,
{
    if s.len() == 0 {
        assert(s.take(0) =~= s);
    } else if j == 0 {
        assert(s.take(0) =~= Seq::<char>::empty());
    } else {
        assert(s[0] != c);
        assert(forall|k: int| 0 <= k < j - 1 ==> s.drop_first()[k] == s[k + 1]);
        lemma_before_char_at(s.drop_first(), c, j - 1);
        assert(seq![s[0]] + s.drop_first().take(j - 1) =~= s.take(j));
    }
}

/// The grouping key of one target; see [`group_key_spec`].
pub fn group_key(target: &str) -> (r: String)
    ensures
        r@ == group_key_spec(target@),
{
    let tv = chars_of(target);
    let pv = chars_of("://");
    proof {
        reveal_strlit("://");
    }
    let n = tv.len();
    if n < 3 {
        proof {
            lemma_find_sub_none(target@, "://"@);
        }
        return String::from_str(target);
    }
    let limit = n - 3;
    let mut f: usize = 0;
    let mut found: bool = false;
    while f <= limit && !found
        invariant
            n == target@.len(),
            tv@ == target@,
            pv@ == "://"@,
            "://"@.len() == 3,
            n >= 3,
            limit == n - 3,
            f <= limit + 1,
            forall|k: int|
                0 <= k < f ==> #[trigger] target@.subrange(k, k + "://"@.len()) != "://"@,
            found ==> f <= limit && target@.subrange(f as int, f + "://"@.len()) == "://"@,
        decreases limit + 1 - f - (if found { 1int } else { 0int }),
    {
        if match_at_exact(&tv, &pv, f) {
            found = true;
        } else {
            f = f + 1;
        }
    }
    if !found {
        proof {
            lemma_find_sub_none(target@, "://"@);
        }
        return String::from_str(target);
    }
    proof {
        lemma_find_sub_at(target@, "://"@, f as int);
    }
    let rest_start = f + 3;
    let mut g: usize = rest_start;
    let mut gfound: bool = false;
    while n - g >= 3 && !gfound
        invariant
            n == target@.len(),
            tv@ == target@,
            pv@ == "://"@,
            "://"@.len() == 3,
            rest_start <= g <= n,
            forall|k: int|
                rest_start <= k < g ==> #[trigger] target@.subrange(k, k + "://"@.len()) != "://"@,
            gfound ==> g + 3 <= n && target@.subrange(g as int, g + "://"@.len()) == "://"@,
        decreases n - g + 1 - (if gfound { 1int } else { 0int }),
    {
        if match_at_exact(&tv, &pv, g) {
            gfound = true;
        } else {
            g = g + 1;
        }
    }
    let rest_end = if gfound {
        g
    } else {
        n
    };
    let ghost rest = target@.skip(rest_start as int);
    proof {
        assert(forall|k: int|
            0 <= k && k + 3 <= rest.len() ==> #[trigger] rest.subrange(k, k + "://"@.len())
                =~= target@.subrange(rest_start + k, rest_start + k + 3));
        if gfound {
            assert(forall|k: int|
                0 <= k < g - rest_start ==> #[trigger] rest.subrange(k, k + "://"@.len())
                    != "://"@);
            assert(rest.subrange(
                g - rest_start,
                g - rest_start + "://"@.len(),
            ) == "://"@);
            lemma_find_sub_at(rest, "://"@, g - rest_start);
            assert(before_sub(rest, "://"@) =~= target@.subrange(
                rest_start as int,
                rest_end as int,
            ));
        } else {
            lemma_find_sub_none(rest, "://"@);
            assert(before_sub(rest, "://"@) =~= target@.subrange(
                rest_start as int,
                rest_end as int,
            ));
        }
    }
    let mut e: usize = rest_start;
    while e < rest_end && tv[e] != '/'
        invariant
            n == target@.len(),
            tv@ == target@,
            rest_start <= e <= rest_end <= n,
            forall|k: int| rest_start <= k < e ==> target@[k] != '/',
        decreases rest_end - e,
    {
        e = e + 1;
    }
    proof {
        let seg = target@.subrange(rest_start as int, rest_end as int);
        assert(forall|k: int| 0 <= k < e - rest_start ==> seg[k] == target@[rest_start + k]);
        if e < rest_end {
            assert(seg[e - rest_start] == target@[e as int]);
        }
        lemma_before_char_at(seg, '/', e - rest_start);
        assert(seg.take(e - rest_start) =~= target@.subrange(rest_start as int, e as int));
    }
    let r = target.substring_char(rest_start, e);
    assert(r@ =~= target@.subrange(rest_start as int, e as int));
    String::from_str(r)
}

/// The scanner's decision state: configuration, learned statistics, and
/// the dynamic thread count. Transport lives outside and feeds responses
/// in as plain values.
pub struct Scanner {
    /// The run's configuration.
    pub config: ScanConfig,
    /// Per-pattern success statistics, reset each run.
    pub stats: PatternStats,
    /// The current dynamic thread count.
    pub current_threads: usize,
    /// Whether browser-like headers are spoofed per request.
    pub random_headers: bool,
    /// Whether an X-Forwarded-For address is forged per request.
    pub random_ip: bool,
    /// Debug logging toggle.
    pub debug: bool,
}

impl Scanner {
    /// A scanner over `config` with fresh statistics, header and address
    /// spoofing on, and the configured thread count.
    pub fn new(config: ScanConfig) -> (s: Self)
        ensures
            s.config == config,
            entries_view(s.stats.entries@) == Seq::<(Seq<char>, u64, u64)>::empty(),
            s.current_threads == config.threads,
            s.random_headers,
            s.random_ip,
            !s.debug,
    {
        let threads = config.threads;
        Scanner {
            config,
            stats: PatternStats::new(),
            current_threads: threads,
            random_headers: true,
            random_ip: true,
            debug: false,
        }
    }

    /// Turns per-request header spoofing on or off.
    pub fn set_random_headers(&mut self, enable: bool)
        ensures
            *final(self) == (Scanner { random_headers: enable, ..*old(self) }),
    {
        self.random_headers = enable;
    }

    /// Turns forged X-Forwarded-For addresses on or off.
    pub fn set_random_ip(&mut self, enable: bool)
        ensures
            *final(self) == (Scanner { random_ip: enable, ..*old(self) }),
    {
        self.random_ip = enable;
    }

    /// Turns debug logging on or off.
    pub fn set_debug(&mut self, enable: bool)
        ensures
            *final(self) == (Scanner { debug: enable, ..*old(self) }),
    {
        self.debug = enable;
    }

    /// The pattern key of one candidate URL: its trailing path segment.
    pub fn extract_pattern_from_url(&self, url: &str) -> (r: String)
        ensures
            r@ == after_last_slash(url@),
    {
        after_last_slash_exec(url)
    }

    /// Records one probe outcome in the statistics.
    pub fn update_pattern_success_rate(&mut self, url: &str, success: bool)
        ensures
            entries_view(final(self).stats.entries@) == bump(
                entries_view(old(self).stats.entries@),
                after_last_slash(url@),
                success,
            ),
            final(self).config == old(self).config,
            final(self).current_threads == old(self).current_threads,
            final(self).random_headers == old(self).random_headers,
            final(self).random_ip == old(self).random_ip,
            final(self).debug == old(self).debug,
    {
        self.stats.update(url, success);
    }

    /// Reorders candidates by learned score; see
    /// [`PatternStats::sort_urls_by_success_rate`].
    pub fn sort_urls_by_success_rate(&self, urls: Vec<String>) -> (r: Vec<String>)
        ensures
            entries_view(self.stats.entries@).len() == 0 ==> r.deep_view() == urls.deep_view(),
            entries_view(self.stats.entries@).len() > 0 ==> r.deep_view() == sort_desc(
                urls.deep_view(),
                entries_view(self.stats.entries@),
            ),
    {
        self.stats.sort_urls_by_success_rate(urls)
    }

    /// Adapts the dynamic thread count to one response: a limiting status
    /// sheds a quarter, keeping at least one; a healthy status below 400
    /// grows it by a quarter, never past the configured count.
    pub fn adjust_concurrency(&mut self, status_code: u16)
        ensures
            final(self).config == old(self).config,
            final(self).stats == old(self).stats,
            final(self).random_headers == old(self).random_headers,
            final(self).random_ip == old(self).random_ip,
            final(self).debug == old(self).debug,
            (if status_code == 429 || status_code == 503 {
                final(self).current_threads == (if old(self).current_threads * 3 / 4 > 1 {
                    old(self).current_threads * 3 / 4
                } else {
                    1int
                })
            } else if old(self).current_threads < old(self).config.threads && status_code < 400 {
                final(self).current_threads == (if old(self).current_threads * 5 / 4 < old(
                    self,
                ).config.threads {
                    old(self).current_threads * 5 / 4
                } else {
                    old(self).config.threads as int
                })
            } else {
                final(self).current_threads == old(self).current_threads
            }),
    {
        if status_code == 429 || status_code == 503 {
            let shrunk = ((self.current_threads as u128) * 3 / 4) as usize;
            self.current_threads = if shrunk > 1 {
                shrunk
            } else {
                1
            };
        } else if self.current_threads < self.config.threads && status_code < 400 {
            let grown_wide = (self.current_threads as u128) * 5 / 4;
            let grown = if grown_wide < (self.config.threads as u128) {
                grown_wide as usize
            } else {
                self.config.threads
            };
            self.current_threads = grown;
        }
    }

    /// The current dynamic thread count.
    pub fn get_current_threads(&self) -> (r: usize)
        ensures
            r == self.current_threads,
    {
        self.current_threads
    }
}

} // verus!
