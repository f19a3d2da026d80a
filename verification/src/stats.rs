//! Success-rate statistics: one counter pair per pattern key, an empirical
//! score for each key, and the stable descending sort that dispatch order
//! follows.
use vstd::prelude::*;
use crate::text::{after_last_slash, after_last_slash_exec, str_eq_str};

verus! {

/// Success and attempt counts for one pattern key.
pub struct PatternEntry {
    /// The trailing path segment the counters belong to.
    pub key: String,
    /// Probes of this key that confirmed a discovery.
    pub successes: u64,
    /// All probes of this key.
    pub attempts: u64,
}

/// The per-run pattern statistics.
pub struct PatternStats {
    /// One entry per key, in order of first sighting.
    pub entries: Vec<PatternEntry>,
}

/// One entry as plain values: key, successes, attempts.
pub open spec fn entries_view(entries: Seq<PatternEntry>) -> Seq<(Seq<char>, u64, u64)> {
    entries.map_values(|e: PatternEntry| (e.key@, e.successes, e.attempts))
}

/// The first entry for `key`, when there is one.
pub open spec fn lookup(ev: Seq<(Seq<char>, u64, u64)>, key: Seq<char>) -> Option<(u64, u64)>
    decreases ev.len(),
{
    if ev.len() == 0 {
        None
    } else if ev[0].0 == key {
        Some((ev[0].1, ev[0].2))
    } else {
        lookup(ev.drop_first(), key)
    }
}

/// The score of `key` as a fraction with positive denominator: its
/// empirical success rate when it has been attempted, zero when an entry
/// exists without attempts, and the exploration score 1/10 when it has
/// never been seen.
pub open spec fn score_of(ev: Seq<(Seq<char>, u64, u64)>, key: Seq<char>) -> (int, int) {
    match lookup(ev, key) {
        Some((s, a)) => if a > 0 {
            (s as int, a as int)
        } else {
            (0, 1)
        },
        None => (1, 10),
    }
}

/// Fraction comparison; both denominators are positive.
pub open spec fn frac_lt(a: (int, int), b: (int, int)) -> bool {
    a.0 * b.1 < b.0 * a.1
}

/// `ev` with the counters of `key` bumped: a new entry appears with one
/// attempt, an existing one gains one attempt, and a success adds one
/// success; the counters saturate rather than wrap.
pub open spec fn bump(
    ev: Seq<(Seq<char>, u64, u64)>,
    key: Seq<char>,
    success: bool,
) -> Seq<(Seq<char>, u64, u64)>
    decreases ev.len(),
{
    if ev.len() == 0 {
        seq![(key, if success { 1u64 } else { 0u64 }, 1u64)]
    } else if ev[0].0 == key {
        seq![(key, if success { sat_inc(ev[0].1) } else { ev[0].1 }, sat_inc(ev[0].2))]
            + ev.drop_first()
    } else {
        seq![ev[0]] + bump(ev.drop_first(), key, success)
    }
}

/// `n + 1`, capped at the largest representable value.
pub open spec fn sat_inc(n: u64) -> u64 {
    if n < 0xffff_ffff_ffff_ffff {
        (n + 1) as u64
    } else {
        n
    }
}

proof fn lemma_lookup_found(ev: Seq<(Seq<char>, u64, u64)>, key: Seq<char>, i: int)
    requires
        0 <= i < ev.len(),
        forall|k: int| 0 <= k < i ==> ev[k].0 != key,
        ev[i].0 == key,
    ensures
        lookup(ev, key) == Some((ev[i].1, ev[i].2)),
    decreases i,
{
    if i > 0 {
        assert(ev.drop_first()[i - 1] == ev[i]);
        assert(forall|k: int| 0 <= k < i - 1 ==> ev.drop_first()[k] == ev[k + 1]);
        lemma_lookup_found(ev.drop_first(), key, i - 1);
    }
}

proof fn lemma_lookup_absent(ev: Seq<(Seq<char>, u64, u64)>, key: Seq<char>)
    requires
        forall|k: int| 0 <= k < ev.len() ==> ev[k].0 != key,
    ensures
        lookup(ev, key) is None,
    decreases ev.len(),
{
    if ev.len() > 0 {
        assert(forall|k: int| 0 <= k < ev.drop_first().len() ==> ev.drop_first()[k] == ev[k + 1]);
        lemma_lookup_absent(ev.drop_first(), key);
    }
}

proof fn lemma_bump_found(ev: Seq<(Seq<char>, u64, u64)>, key: Seq<char>, i: int, success: bool)
    requires
        0 <= i < ev.len(),
        forall|k: int| 0 <= k < i ==> ev[k].0 != key,
        ev[i].0 == key,
    ensures
        bump(ev, key, success) == ev.update(
            i,
            (key, if success {
                sat_inc(ev[i].1)
            } else {
                ev[i].1
            }, sat_inc(ev[i].2)),
        ),
    decreases i,
{
    let e = (key, if success {
        sat_inc(ev[i].1)
    } else {
        ev[i].1
    }, sat_inc(ev[i].2));
    if i == 0 {
        assert(bump(ev, key, success) =~= ev.update(0, e));
    } else {
        assert(ev.drop_first()[i - 1] == ev[i]);
        assert(forall|k: int| 0 <= k < i - 1 ==> ev.drop_first()[k] == ev[k + 1]);
        lemma_bump_found(ev.drop_first(), key, i - 1, success);
        assert(bump(ev, key, success) =~= ev.update(i, e));
    }
}

proof fn lemma_bump_absent(ev: Seq<(Seq<char>, u64, u64)>, key: Seq<char>, success: bool)
    requires
        forall|k: int| 0 <= k < ev.len() ==> ev[k].0 != key,
    ensures
        bump(ev, key, success) == ev.push(
            (key, if success {
                1u64
            } else {
                0u64
            }, 1u64),
        ),
    decreases ev.len(),
{
    if ev.len() == 0 {
        assert(bump(ev, key, success) =~= ev.push(
            (key, if success {
                1u64
            } else {
                0u64
            }, 1u64),
        ));
    } else {
        assert(forall|k: int| 0 <= k < ev.drop_first().len() ==> ev.drop_first()[k] == ev[k + 1]);
        lemma_bump_absent(ev.drop_first(), key, success);
        assert(bump(ev, key, success) =~= ev.push(
            (key, if success {
                1u64
            } else {
                0u64
            }, 1u64),
        ));
    }
}

impl PatternStats {
    /// Fresh statistics with no history.
    pub fn new() -> (s: Self)
        ensures
            entries_view(s.entries@) =~= Seq::<(Seq<char>, u64, u64)>::empty(),
    {
        let s = PatternStats { entries: Vec::new() };
        s
    }

    /// Records one probe outcome for the pattern key of `url`.
    pub fn update(&mut self, url: &str, success: bool)
        ensures
            entries_view(final(self).entries@) == bump(
                entries_view(old(self).entries@),
                after_last_slash(url@),
                success,
            ),
    {
        let key = after_last_slash_exec(url);
        let ghost ev = entries_view(self.entries@);
        let n = self.entries.len();
        let mut i: usize = 0;
        while i < n
            invariant
                n == self.entries@.len(),
                ev == entries_view(self.entries@),
                ev == entries_view(old(self).entries@),
                i <= n,
                key@ == after_last_slash(url@),
                forall|k: int| 0 <= k < i ==> #[trigger] ev[k].0 != key@,
            decreases n - i,
        {
            assert(ev[i as int] == (self.entries@[i as int].key@, self.entries@[i as int].successes,
            self.entries@[i as int].attempts));
            if str_eq_str(self.entries[i].key.as_str(), key.as_str()) {
                proof {
                    lemma_bump_found(ev, key@, i as int, success);
                }
                let old_s = self.entries[i].successes;
                let old_a = self.entries[i].attempts;
                let new_s = if success {
                    if old_s < 0xffff_ffff_ffff_ffff {
                        old_s + 1
                    } else {
                        old_s
                    }
                } else {
                    old_s
                };
                let new_a = if old_a < 0xffff_ffff_ffff_ffff {
                    old_a + 1
                } else {
                    old_a
                };
                self.entries.set(i, PatternEntry { key, successes: new_s, attempts: new_a });
                proof {
                    assert(entries_view(self.entries@) =~= ev.update(
                        i as int,
                        (after_last_slash(url@), new_s, new_a),
                    ));
                }
                return ;
            }
            i = i + 1;
        }
        proof {
            lemma_bump_absent(ev, key@, success);
        }
        let new_s: u64 = if success {
            1
        } else {
            0
        };
        self.entries.push(PatternEntry { key, successes: new_s, attempts: 1 });
        proof {
            assert(entries_view(self.entries@) =~= ev.push(
                (after_last_slash(url@), new_s, 1u64),
            ));
        }
    }

    /// The counters for `key`, when it has been seen.
    pub fn get(&self, key: &str) -> (r: Option<(u64, u64)>)
        ensures
            r == lookup(entries_view(self.entries@), key@),
    {
        let ghost ev = entries_view(self.entries@);
        let n = self.entries.len();
        let mut i: usize = 0;
        while i < n
            invariant
                n == self.entries@.len(),
                ev == entries_view(self.entries@),
                i <= n,
                forall|k: int| 0 <= k < i ==> #[trigger] ev[k].0 != key@,
            decreases n - i,
        {
            assert(ev[i as int] == (self.entries@[i as int].key@, self.entries@[i as int].successes,
            self.entries@[i as int].attempts));
            if str_eq_str(self.entries[i].key.as_str(), key) {
                proof {
                    lemma_lookup_found(ev, key@, i as int);
                }
                return Some((self.entries[i].successes, self.entries[i].attempts));
            }
            i = i + 1;
        }
        proof {
            lemma_lookup_absent(ev, key@);
        }
        None
    }

    /// Whether any outcome has been recorded yet.
    pub fn is_empty(&self) -> (b: bool)
        ensures
            b == (entries_view(self.entries@).len() == 0),
    {
        self.entries.len() == 0
    }
}

/// Whether the key of `a` scores strictly below the key of `b`.
fn score_lt_exec(stats: &PatternStats, a: &String, b: &String) -> (r: bool)
    ensures
        r == frac_lt(
            score_of(entries_view(stats.entries@), after_last_slash(a@)),
            score_of(entries_view(stats.entries@), after_last_slash(b@)),
        ),
{
    let ka = after_last_slash_exec(a.as_str());
    let kb = after_last_slash_exec(b.as_str());
    let sa = stats.get(ka.as_str());
    let sb = stats.get(kb.as_str());
    let (na, da): (u64, u64) = match sa {
        Some((s, at)) => if at > 0 {
            (s, at)
        } else {
            (0, 1)
        },
        None => (1, 10),
    };
    let (nb, db): (u64, u64) = match sb {
        Some((s, at)) => if at > 0 {
            (s, at)
        } else {
            (0, 1)
        },
        None => (1, 10),
    };
    proof {
        assert((na as int) * (db as int) < 0x1_0000_0000_0000_0000_0000_0000_0000_0000int)
            by (nonlinear_arith)
            requires
                na <= 0xffff_ffff_ffff_ffffu64,
                db <= 0xffff_ffff_ffff_ffffu64,
        ;
        assert((nb as int) * (da as int) < 0x1_0000_0000_0000_0000_0000_0000_0000_0000int)
            by (nonlinear_arith)
            requires
                nb <= 0xffff_ffff_ffff_ffffu64,
                da <= 0xffff_ffff_ffff_ffffu64,
        ;
    }
    (na as u128) * (db as u128) < (nb as u128) * (da as u128)
}

/// Inserts `x` into the sorted run `t` from the right: it passes every
/// element that scores strictly below it and lands after any that ties, so
/// insertion keeps equal scores in arrival order.
pub open spec fn insert_desc(
    t: Seq<Seq<char>>,
    ev: Seq<(Seq<char>, u64, u64)>,
    x: Seq<char>,
) -> Seq<Seq<char>>
    decreases t.len(),
{
    if t.len() > 0 && frac_lt(
        score_of(ev, after_last_slash(t.last())),
        score_of(ev, after_last_slash(x)),
    ) {
        insert_desc(t.drop_last(), ev, x).push(t.last())
    } else {
        t.push(x)
    }
}

/// Stable insertion sort by score, highest first.
pub open spec fn sort_desc(s: Seq<Seq<char>>, ev: Seq<(Seq<char>, u64, u64)>) -> Seq<Seq<char>>
    decreases s.len(),
{
    if s.len() == 0 {
        s
    } else {
        insert_desc(sort_desc(s.drop_last(), ev), ev, s.last())
    }
}

proof fn lemma_insert_desc_at(
    t: Seq<Seq<char>>,
    ev: Seq<(Seq<char>, u64, u64)>,
    x: Seq<char>,
    j: int,
)
    requires
        0 <= j <= t.len(),
        forall|m: int|
            j <= m < t.len() ==> frac_lt(
                score_of(ev, after_last_slash(#[trigger] t[m])),
                score_of(ev, after_last_slash(x)),
            ),
        j > 0 ==> !frac_lt(
            score_of(ev, after_last_slash(t[j - 1])),
            score_of(ev, after_last_slash(x)),
        ),
    ensures
        insert_desc(t, ev, x) == t.take(j) + seq![x] + t.skip(j),
    decreases t.len(),
{
    if j == t.len() {
        if t.len() > 0 {
            assert(!frac_lt(
                score_of(ev, after_last_slash(t.last())),
                score_of(ev, after_last_slash(x)),
            ));
        }
        assert(t.take(j) =~= t);
        assert(t.skip(j) =~= Seq::<Seq<char>>::empty());
        assert(insert_desc(t, ev, x) =~= t.take(j) + seq![x] + t.skip(j));
    } else {
        assert(frac_lt(
            score_of(ev, after_last_slash(t[t.len() - 1])),
            score_of(ev, after_last_slash(x)),
        ));
        assert(forall|m: int|
            j <= m < t.drop_last().len() ==> t.drop_last()[m] == t[m]);
        lemma_insert_desc_at(t.drop_last(), ev, x, j);
        assert(insert_desc(t, ev, x) =~= t.take(j) + seq![x] + t.skip(j));
    }
}


impl PatternStats {
    /// Reorders candidates by learned score, highest first, keeping the
    /// original order among equal scores; with no history at all the input
    /// order is returned unchanged.
    pub fn sort_urls_by_success_rate(&self, urls: Vec<String>) -> (r: Vec<String>)
        ensures
            entries_view(self.entries@).len() == 0 ==> r.deep_view() == urls.deep_view(),
            entries_view(self.entries@).len() > 0 ==> r.deep_view() == sort_desc(
                urls.deep_view(),
                entries_view(self.entries@),
            ),
    {
        if self.is_empty() {
            return urls;
        }
        let ghost ev = entries_view(self.entries@);
        let ghost uv = urls.deep_view();
        let mut result: Vec<String> = Vec::new();
        let n = urls.len();
        let mut i: usize = 0;
        proof {
            assert(uv.take(0) =~= Seq::<Seq<char>>::empty());
            assert(result.deep_view() =~= sort_desc(uv.take(0), ev));
        }
        while i < n
            invariant
                n == urls@.len(),
                uv == urls.deep_view(),
                ev == entries_view(self.entries@),
                i <= n,
                result.deep_view() == sort_desc(uv.take(i as int), ev),
            decreases n - i,
        {
            let x = urls[i].clone();
            assert(x@ == uv[i as int]);
            let rlen = result.len();
            let mut j: usize = rlen;
            while j > 0 && score_lt_exec(self, &result[j - 1], &x)
                invariant
                    ev == entries_view(self.entries@),
                    rlen == result@.len(),
                    j <= rlen,
                    x@ == uv[i as int],
                    result.deep_view() == sort_desc(uv.take(i as int), ev),
                    forall|m: int|
                        j <= m < rlen ==> frac_lt(
                            score_of(ev, after_last_slash(#[trigger] result.deep_view()[m])),
                            score_of(ev, after_last_slash(x@)),
                        ),
                ensures
                    j <= rlen,
                    forall|m: int|
                        j <= m < rlen ==> frac_lt(
                            score_of(ev, after_last_slash(#[trigger] result.deep_view()[m])),
                            score_of(ev, after_last_slash(x@)),
                        ),
                    j > 0 ==> !frac_lt(
                        score_of(ev, after_last_slash(result.deep_view()[j - 1])),
                        score_of(ev, after_last_slash(x@)),
                    ),
                decreases j,
            {
                assert(result.deep_view()[j - 1] == result@[j - 1]@);
                j = j - 1;
            }
            proof {
                lemma_insert_desc_at(result.deep_view(), ev, x@, j as int);
                assert(uv.take(i + 1).drop_last() =~= uv.take(i as int));
                assert(uv.take(i + 1).last() == uv[i as int]);
            }
            let ghost olddeep = result.deep_view();
            result.insert(j, x);
            proof {
                assert(result.deep_view() =~= olddeep.insert(j as int, uv[i as int]));
                assert(olddeep.insert(j as int, uv[i as int]) =~= olddeep.take(j as int) + seq![
                    uv[i as int],
                ] + olddeep.skip(j as int));
                assert(result.deep_view() =~= sort_desc(uv.take(i + 1), ev));
            }
            i = i + 1;
        }
        proof {
            assert(uv.take(n as int) =~= uv);
        }
        result
    }
}


/// A pattern key that has only failed (no successes over one or more
/// attempts) scores strictly below the exploration score of a key that has
/// never been tried.
pub proof fn lemma_failed_score_below_exploration(
    ev: Seq<(Seq<char>, u64, u64)>,
    tried: Seq<char>,
    fresh: Seq<char>,
)
    requires
        lookup(ev, tried) matches Some(p) && p.0 == 0 && p.1 > 0,
        lookup(ev, fresh) is None,
    ensures
        frac_lt(score_of(ev, tried), score_of(ev, fresh)),
{
}

/// When every candidate's score ties with every other, the stable sort
/// returns the input order unchanged.
pub proof fn lemma_sort_desc_all_tied(s: Seq<Seq<char>>, ev: Seq<(Seq<char>, u64, u64)>)
    requires
        forall|i: int, j: int|
            0 <= i < s.len() && 0 <= j < s.len() ==> !frac_lt(
                score_of(ev, after_last_slash(#[trigger] s[i])),
                score_of(ev, after_last_slash(#[trigger] s[j])),
            ),
    ensures
        sort_desc(s, ev) == s,
    decreases s.len(),
{
    if s.len() > 0 {
        assert(forall|i: int, j: int|
            0 <= i < s.drop_last().len() && 0 <= j < s.drop_last().len() ==> (#[trigger] s.drop_last()[i]
                == s[i] && #[trigger] s.drop_last()[j] == s[j]));
        lemma_sort_desc_all_tied(s.drop_last(), ev);
        if s.len() > 1 {
            assert(s.drop_last().last() == s[s.len() - 2]);
            assert(!frac_lt(
                score_of(ev, after_last_slash(s[s.len() - 2])),
                score_of(ev, after_last_slash(s[s.len() - 1])),
            ));
        }
        assert(insert_desc(s.drop_last(), ev, s.last()) == s.drop_last().push(s.last()));
        assert(s.drop_last().push(s.last()) =~= s);
    }
}


/// The dispatch score of one candidate URL: the score of its pattern key.
pub open spec fn url_score(ev: Seq<(Seq<char>, u64, u64)>, u: Seq<char>) -> (int, int) {
    score_of(ev, after_last_slash(u))
}

/// The candidates stand in non-increasing score order.
pub open spec fn sorted_by_score_desc(s: Seq<Seq<char>>, ev: Seq<(Seq<char>, u64, u64)>) -> bool {
    forall|i: int, j: int|
        0 <= i < j < s.len() ==> !frac_lt(url_score(ev, #[trigger] s[i]), url_score(ev, #[trigger] s[j]))
}

/// Every score is a fraction with a positive denominator.
pub proof fn lemma_score_den_pos(ev: Seq<(Seq<char>, u64, u64)>, key: Seq<char>)
    ensures
        score_of(ev, key).1 > 0,
{
}

proof fn lemma_frac_ge_trans(a: (int, int), b: (int, int), c: (int, int))
    requires
        a.1 > 0,
        b.1 > 0,
        c.1 > 0,
        !frac_lt(a, b),
        !frac_lt(b, c),
    ensures
        !frac_lt(a, c),
{
    assert(a.0 * c.1 >= c.0 * a.1) by (nonlinear_arith)
        requires
            a.1 > 0,
            b.1 > 0,
            c.1 > 0,
            a.0 * b.1 >= b.0 * a.1,
            b.0 * c.1 >= c.0 * b.1,
    ;
}

proof fn lemma_insert_desc_membership(t: Seq<Seq<char>>, ev: Seq<(Seq<char>, u64, u64)>, x: Seq<char>)
    ensures
        insert_desc(t, ev, x).len() == t.len() + 1,
        forall|k: int|
            0 <= k < insert_desc(t, ev, x).len() ==> (#[trigger] insert_desc(t, ev, x)[k] == x
                || t.contains(insert_desc(t, ev, x)[k])),
    decreases t.len(),
{
    let out = insert_desc(t, ev, x);
    if t.len() > 0 && frac_lt(
        score_of(ev, after_last_slash(t.last())),
        score_of(ev, after_last_slash(x)),
    ) {
        lemma_insert_desc_membership(t.drop_last(), ev, x);
        let inner = insert_desc(t.drop_last(), ev, x);
        assert forall|k: int| 0 <= k < out.len() implies (#[trigger] out[k] == x || t.contains(
            out[k],
        )) by {
            if k < inner.len() {
                assert(out[k] == inner[k]);
                if inner[k] != x {
                    let m = choose|m: int|
                        0 <= m < t.drop_last().len() && t.drop_last()[m] == inner[k];
                    assert(t[m] == inner[k]);
                }
            } else {
                assert(out[k] == t.last());
                assert(t[t.len() - 1] == t.last());
            }
        }
    } else {
        assert forall|k: int| 0 <= k < out.len() implies (#[trigger] out[k] == x || t.contains(
            out[k],
        )) by {
            if k < t.len() {
                assert(out[k] == t[k]);
            }
        }
    }
}

proof fn lemma_insert_desc_sorted(t: Seq<Seq<char>>, ev: Seq<(Seq<char>, u64, u64)>, x: Seq<char>)
    requires
        sorted_by_score_desc(t, ev),
    ensures
        sorted_by_score_desc(insert_desc(t, ev, x), ev),
    decreases t.len(),
{
    let out = insert_desc(t, ev, x);
    if t.len() > 0 && frac_lt(
        score_of(ev, after_last_slash(t.last())),
        score_of(ev, after_last_slash(x)),
    ) {
        assert(sorted_by_score_desc(t.drop_last(), ev)) by {
            assert(forall|i: int|
                0 <= i < t.drop_last().len() ==> #[trigger] t.drop_last()[i] == t[i]);
        }
        lemma_insert_desc_sorted(t.drop_last(), ev, x);
        lemma_insert_desc_membership(t.drop_last(), ev, x);
        let inner = insert_desc(t.drop_last(), ev, x);
        assert forall|k: int|
            0 <= k < inner.len() implies !frac_lt(
            url_score(ev, #[trigger] inner[k]),
            url_score(ev, t.last()),
        ) by {
            if inner[k] == x {
            } else {
                let m = choose|m: int| 0 <= m < t.drop_last().len() && t.drop_last()[m] == inner[k];
                assert(t[m] == inner[k]);
                assert(!frac_lt(url_score(ev, t[m]), url_score(ev, t[t.len() - 1])));
            }
        }
        assert forall|i: int, j: int|
            0 <= i < j < out.len() implies !frac_lt(
            url_score(ev, #[trigger] out[i]),
            url_score(ev, #[trigger] out[j]),
        ) by {
            if j < inner.len() {
                assert(out[i] == inner[i]);
                assert(out[j] == inner[j]);
            } else {
                assert(out[j] == t.last());
                assert(out[i] == inner[i]);
            }
        }
    } else {
        assert forall|i: int, j: int|
            0 <= i < j < out.len() implies !frac_lt(
            url_score(ev, #[trigger] out[i]),
            url_score(ev, #[trigger] out[j]),
        ) by {
            if j < t.len() {
                assert(out[i] == t[i]);
                assert(out[j] == t[j]);
            } else {
                assert(out[j] == x);
                assert(out[i] == t[i]);
                if t.len() > 0 {
                    if i < t.len() - 1 {
                        assert(!frac_lt(url_score(ev, t[i]), url_score(ev, t[t.len() - 1])));
                    }
                    lemma_score_den_pos(ev, after_last_slash(t[i]));
                    lemma_score_den_pos(ev, after_last_slash(t.last()));
                    lemma_score_den_pos(ev, after_last_slash(x));
                    lemma_frac_ge_trans(
                        url_score(ev, t[i]),
                        url_score(ev, t.last()),
                        url_score(ev, x),
                    );
                }
            }
        }
    }
}

/// The reordered candidates are in non-increasing score order.
pub proof fn lemma_sort_desc_sorted(s: Seq<Seq<char>>, ev: Seq<(Seq<char>, u64, u64)>)
    ensures
        sorted_by_score_desc(sort_desc(s, ev), ev),
    decreases s.len(),
{
    if s.len() > 0 {
        lemma_sort_desc_sorted(s.drop_last(), ev);
        lemma_insert_desc_sorted(sort_desc(s.drop_last(), ev), ev, s.last());
    }
}

/// In the sorted order, every candidate whose pattern key has never been
/// seen comes before every candidate whose key has only failed (zero
/// successes over one or more attempts): the fresh key scores 1/10 and the
/// failed key 0, so the sort cannot place the failed key first.
pub proof fn lemma_fresh_before_failed(
    s: Seq<Seq<char>>,
    ev: Seq<(Seq<char>, u64, u64)>,
    i: int,
    j: int,
)
    requires
        0 <= i < sort_desc(s, ev).len(),
        0 <= j < sort_desc(s, ev).len(),
        lookup(ev, after_last_slash(sort_desc(s, ev)[i])) is None,
        lookup(ev, after_last_slash(sort_desc(s, ev)[j])) matches Some(p) && p.0 == 0 && p.1 > 0,
    ensures
        i < j,
{
    lemma_sort_desc_sorted(s, ev);
    let out = sort_desc(s, ev);
    lemma_failed_score_below_exploration(
        ev,
        after_last_slash(out[j]),
        after_last_slash(out[i]),
    );
    if j < i {
        assert(!frac_lt(url_score(ev, out[j]), url_score(ev, out[i])));
        assert(false);
    }
}

} // verus!
