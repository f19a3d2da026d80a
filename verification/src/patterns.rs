//! The candidate generator: domain extraction, domain variants, and the
//! combinatorial construction of root-tier and directory-tier backup URLs.
use vstd::prelude::*;
use crate::BackerError;
use crate::text::{
    chars_of, contains_char, push_unique, replace_exec, replace_seq, str_eq_str,
    strip_prefix_repeated, strip_prefix_repeated_exec, trim_exec, trim_spec,
};
use crate::urlinfo::{parse_url_parts, url_parts};

verus! {

/// Splits `s` on `sep`; adjacent separators and separators at either end
/// yield empty parts, as `str::split` does.
pub open spec fn split_char(s: Seq<char>, sep: char) -> Seq<Seq<char>>
    decreases s.len(),
{
    if s.len() == 0 {
        seq![Seq::<char>::empty()]
    } else if s[0] == sep {
        seq![Seq::<char>::empty()] + split_char(s.drop_first(), sep)
    } else {
        let rest = split_char(s.drop_first(), sep);
        seq![seq![s[0]] + rest[0]] + rest.drop_first()
    }
}

pub proof fn lemma_split_char_len(s: Seq<char>, sep: char)
    ensures
        split_char(s, sep).len() >= 1,
    decreases s.len(),
{
    if s.len() > 0 {
        lemma_split_char_len(s.drop_first(), sep);
    }
}

/// Between two separator boundaries, `split_char` yields exactly the run of
/// characters in between.
proof fn lemma_split_char_segment(s: Seq<char>, sep: char, a: int, b: int)
    requires
        0 <= a <= b <= s.len(),
        forall|k: int| a <= k < b ==> s[k] != sep,
        b == s.len() || s[b] == sep,
    ensures
        b == s.len() ==> split_char(s.skip(a), sep) == seq![s.subrange(a, b)],
        b < s.len() ==> split_char(s.skip(a), sep) == seq![s.subrange(a, b)] + split_char(
            s.skip(b + 1),
            sep,
        ),
    decreases b - a,
{
    lemma_split_char_len(s.skip(a), sep);
    if a == b {
        if b == s.len() {
            assert(s.skip(a) =~= Seq::<char>::empty());
            assert(seq![s.subrange(a, b)] =~= seq![Seq::<char>::empty()]);
        } else {
            assert(s.skip(a).len() == s.len() - a);
            assert(s.skip(a)[0] == s[a + 0]);
            assert(s.skip(a).drop_first() =~= s.skip(b + 1));
            assert(s.subrange(a, b) =~= Seq::<char>::empty());
            assert(seq![Seq::<char>::empty()] + split_char(s.skip(b + 1), sep) =~= seq![
                s.subrange(a, b),
            ] + split_char(s.skip(b + 1), sep));
        }
    } else {
        assert(s.skip(a)[0] == s[a]);
        assert(s.skip(a).drop_first() =~= s.skip(a + 1));
        lemma_split_char_segment(s, sep, a + 1, b);
        let rest = split_char(s.skip(a + 1), sep);
        assert(rest[0] == s.subrange(a + 1, b));
        assert(seq![s[a]] + s.subrange(a + 1, b) =~= s.subrange(a, b));
        if b == s.len() {
            assert(rest.drop_first() =~= Seq::<Seq<char>>::empty());
            assert(split_char(s.skip(a), sep) =~= seq![s.subrange(a, b)]);
        } else {
            assert(rest.drop_first() =~= split_char(s.skip(b + 1), sep));
            assert(split_char(s.skip(a), sep) =~= seq![s.subrange(a, b)] + split_char(
                s.skip(b + 1),
                sep,
            ));
        }
    }
}

/// The host's labels, split on '.'.
pub fn split_dots(s: &str) -> (parts: Vec<String>)
    ensures
        parts.deep_view() == split_char(s@, '.'),
{
    let sv = chars_of(s);
    let n = sv.len();
    let mut parts: Vec<String> = Vec::new();
    let mut start: usize = 0;
    let mut i: usize = 0;
    assert(s@.skip(0) =~= s@);
    assert(parts.deep_view() + split_char(s@, '.') =~= split_char(s@, '.'));
    while i < n
        invariant
            n == s@.len(),
            sv@ == s@,
            start <= i <= n,
            forall|k: int| start <= k < i ==> s@[k] != '.',
            split_char(s@, '.') == parts.deep_view() + split_char(s@.skip(start as int), '.'),
        decreases n - i,
    {
        if sv[i] == '.' {
            let piece = s.substring_char(start, i);
            assert(piece@ =~= s@.subrange(start as int, i as int));
            proof {
                lemma_split_char_segment(s@, '.', start as int, i as int);
            }
            let ghost olddeep = parts.deep_view();
            parts.push(String::from_str(piece));
            proof {
                assert(parts.deep_view() =~= olddeep.push(s@.subrange(start as int, i as int)));
                assert(olddeep.push(s@.subrange(start as int, i as int)) =~= olddeep + seq![
                    s@.subrange(start as int, i as int),
                ]);
                assert(olddeep + (seq![s@.subrange(start as int, i as int)] + split_char(
                    s@.skip(i + 1),
                    '.',
                )) =~= (olddeep + seq![s@.subrange(start as int, i as int)]) + split_char(
                    s@.skip(i + 1),
                    '.',
                ));
            }
            start = i + 1;
        }
        i = i + 1;
    }
    let piece = s.substring_char(start, n);
    assert(piece@ =~= s@.subrange(start as int, n as int));
    proof {
        lemma_split_char_segment(s@, '.', start as int, n as int);
    }
    let ghost olddeep = parts.deep_view();
    parts.push(String::from_str(piece));
    proof {
        assert(parts.deep_view() =~= olddeep.push(s@.subrange(start as int, n as int)));
        assert(olddeep.push(s@.subrange(start as int, n as int)) =~= olddeep + seq![
            s@.subrange(start as int, n as int),
        ]);
    }
    parts
}

/// Every character is a decimal digit or a dot: the shape of a literal IPv4
/// address.
pub open spec fn ip_like(h: Seq<char>) -> bool {
    forall|i: int| 0 <= i < h.len() ==> ('0' <= #[trigger] h[i] <= '9' || h[i] == '.')
}

/// The domain token of a host name. A literal IP is its own token. A host
/// of at least four '.'-separated labels whose second-to-last label has at
/// most three characters (a compound TLD such as "co.uk") yields the
/// third-from-last label; any other host of at least two labels yields the
/// second-to-last; a single label is its own token.
pub open spec fn extract_domain_spec(h: Seq<char>) -> Seq<char> {
    if ip_like(h) {
        h
    } else {
        let parts = split_char(h, '.');
        if parts.len() >= 2 {
            if parts.len() >= 4 && parts[parts.len() - 2].len() <= 3 {
                parts[parts.len() - 3]
            } else {
                parts[parts.len() - 2]
            }
        } else {
            h
        }
    }
}

/// The domain token of `host`; see [`extract_domain_spec`].
pub fn extract_domain(host: &str) -> (d: String)
    ensures
        d@ == extract_domain_spec(host@),
{
    let hv = chars_of(host);
    let n = hv.len();
    let mut i: usize = 0;
    let mut all_ip: bool = true;
    while i < n
        invariant
            n == host@.len(),
            hv@ == host@,
            i <= n,
            all_ip == forall|k: int|
                0 <= k < i ==> ('0' <= #[trigger] host@[k] <= '9' || host@[k] == '.'),
        decreases n - i,
    {
        let c = hv[i];
        if !(('0' <= c && c <= '9') || c == '.') {
            all_ip = false;
        }
        i = i + 1;
    }
    if all_ip {
        return String::from_str(host);
    }
    let parts = split_dots(host);
    let len = parts.len();
    assert(parts.deep_view().len() == len);
    if len >= 2 {
        assert(parts.deep_view()[len - 2] == parts@[len - 2]@);
        if len >= 4 && parts[len - 2].as_str().unicode_len() <= 3 {
            assert(parts.deep_view()[len - 3] == parts@[len - 3]@);
            parts[len - 3].clone()
        } else {
            parts[len - 2].clone()
        }
    } else {
        String::from_str(host)
    }
}


/// Appends each of `items` to `acc`, skipping those already present, so
/// order of first appearance is kept and no duplicate is introduced.
pub open spec fn append_unique(acc: Seq<Seq<char>>, items: Seq<Seq<char>>) -> Seq<Seq<char>>
    decreases items.len(),
{
    if items.len() == 0 {
        acc
    } else {
        append_unique(
            if acc.contains(items[0]) {
                acc
            } else {
                acc.push(items[0])
            },
            items.drop_first(),
        )
    }
}

pub proof fn lemma_append_unique_snoc(acc: Seq<Seq<char>>, items: Seq<Seq<char>>, x: Seq<char>)
    ensures
        append_unique(acc, items.push(x)) == (if append_unique(acc, items).contains(x) {
            append_unique(acc, items)
        } else {
            append_unique(acc, items).push(x)
        }),
    decreases items.len(),
{
    if items.len() == 0 {
        assert(items.push(x)[0] == x);
        assert(items.push(x).drop_first() =~= items);
        let step = if acc.contains(x) {
            acc
        } else {
            acc.push(x)
        };
        assert(append_unique(acc, items.push(x)) == append_unique(step, items.push(x).drop_first()));
        assert(append_unique(step, items) == step);
        assert(append_unique(acc, items) == acc);
    } else {
        assert(items.push(x)[0] == items[0]);
        assert(items.push(x).drop_first() =~= items.drop_first().push(x));
        let step = if acc.contains(items[0]) {
            acc
        } else {
            acc.push(items[0])
        };
        assert(append_unique(acc, items.push(x)) == append_unique(step, items.drop_first().push(x)));
        lemma_append_unique_snoc(step, items.drop_first(), x);
        assert(append_unique(acc, items) == append_unique(step, items.drop_first()));
    }
}

pub proof fn lemma_append_unique_props(acc: Seq<Seq<char>>, items: Seq<Seq<char>>)
    ensures
        forall|x: Seq<char>|
            #[trigger] append_unique(acc, items).contains(x) <==> acc.contains(x)
                || items.contains(x),
        acc.no_duplicates() ==> append_unique(acc, items).no_duplicates(),
        append_unique(acc, items).take(acc.len() as int) == acc,
        acc.len() <= append_unique(acc, items).len(),
    decreases items.len(),
{
    if items.len() == 0 {
        assert(append_unique(acc, items).take(acc.len() as int) =~= acc);
        assert(forall|x: Seq<char>| !items.contains(x));
    } else {
        let h = items[0];
        let step = if acc.contains(h) {
            acc
        } else {
            acc.push(h)
        };
        lemma_append_unique_props(step, items.drop_first());
        let out = append_unique(acc, items);
        assert forall|x: Seq<char>| #[trigger]
            out.contains(x) <==> acc.contains(x) || items.contains(x) by {
            assert(step.contains(x) <==> acc.contains(x) || x == h) by {
                if acc.contains(h) {
                } else {
                    if step.contains(x) {
                        let i = choose|i: int| 0 <= i < step.len() && step[i] == x;
                        if i < acc.len() {
                            assert(acc[i] == x);
                        }
                    }
                    if acc.contains(x) {
                        let i = choose|i: int| 0 <= i < acc.len() && acc[i] == x;
                        assert(step[i] == x);
                    }
                    if x == h {
                        assert(step[acc.len() as int] == x);
                    }
                }
            }
            assert(items.contains(x) <==> x == h || items.drop_first().contains(x)) by {
                if items.contains(x) {
                    let i = choose|i: int| 0 <= i < items.len() && items[i] == x;
                    if i > 0 {
                        assert(items.drop_first()[i - 1] == x);
                    }
                }
                if items.drop_first().contains(x) {
                    let i = choose|i: int|
                        0 <= i < items.drop_first().len() && items.drop_first()[i] == x;
                    assert(items[i + 1] == x);
                }
                if x == h {
                    assert(items[0] == x);
                }
            }
        }
        if acc.no_duplicates() {
            if !acc.contains(h) {
                assert forall|p: int, q: int|
                    0 <= p < q < step.len() implies step[p] != step[q] by {
                    if q < acc.len() {
                    } else {
                        assert(step[q] == h);
                        assert(step[p] == acc[p]);
                        assert(!acc.contains(h));
                    }
                }
            }
            assert(step.no_duplicates());
        }
        assert(append_unique(step, items.drop_first()).take(step.len() as int) == step);
        assert(out.take(acc.len() as int) =~= out.take(step.len() as int).take(acc.len() as int));
        assert(step.take(acc.len() as int) =~= acc);
    }
}


/// Every element after the accumulator's prefix came from `items`: it is
/// in the combined list but, the list holding no duplicate, cannot be one
/// of the accumulator's own entries. Applied to a generated candidate
/// list, every URL after the tier boundary is a directory-tier candidate.
pub proof fn lemma_append_unique_tail_from_items(
    acc: Seq<Seq<char>>,
    items: Seq<Seq<char>>,
    i: int,
)
    requires
        acc.no_duplicates(),
        acc.len() <= i < append_unique(acc, items).len(),
    ensures
        items.contains(append_unique(acc, items)[i]),
{
    lemma_append_unique_props(acc, items);
    let out = append_unique(acc, items);
    let x = out[i];
    assert(out.contains(x));
    if acc.contains(x) {
        let m = choose|m: int| 0 <= m < acc.len() && acc[m] == x;
        assert(out.take(acc.len() as int)[m] == out[m]);
        assert(out[m] == out[i]);
        assert(false);
    }
}

/// `base` + '/' + each name.
pub open spec fn with_base(base: Seq<char>, names: Seq<Seq<char>>) -> Seq<Seq<char>> {
    names.map_values(|t: Seq<char>| base + "/"@ + t)
}

/// `base` + '/' + dir + '/' + each name, for each dir in order.
pub open spec fn dir_candidates(
    dirs: Seq<Seq<char>>,
    base: Seq<char>,
    names: Seq<Seq<char>>,
) -> Seq<Seq<char>>
    decreases dirs.len(),
{
    if dirs.len() == 0 {
        Seq::empty()
    } else {
        names.map_values(|t: Seq<char>| base + "/"@ + dirs[0] + "/"@ + t) + dir_candidates(
            dirs.drop_first(),
            base,
            names,
        )
    }
}

proof fn lemma_concat_each_snoc(vs: Seq<Seq<char>>, ss: Seq<Seq<char>>, x: Seq<char>)
    ensures
        concat_each(vs.push(x), ss) =~= concat_each(vs, ss) + ss.map_values(
            |s: Seq<char>| x + s,
        ),
    decreases vs.len(),
{
    if vs.len() == 0 {
        assert(vs.push(x)[0] == x);
        assert(vs.push(x).drop_first() =~= vs);
        assert(ss.map_values(|s: Seq<char>| vs.push(x)[0] + s) =~= ss.map_values(
            |s: Seq<char>| x + s,
        ));
    } else {
        assert(vs.push(x)[0] == vs[0]);
        assert(vs.push(x).drop_first() =~= vs.drop_first().push(x));
        lemma_concat_each_snoc(vs.drop_first(), ss, x);
    }
}

proof fn lemma_prefix_names_snoc(ps: Seq<Seq<char>>, ss: Seq<Seq<char>>, x: Seq<char>)
    ensures
        prefix_names(ps.push(x), ss) =~= prefix_names(ps, ss) + prefix_expansion(x, ss),
    decreases ps.len(),
{
    if ps.len() == 0 {
        assert(ps.push(x)[0] == x);
        assert(ps.push(x).drop_first() =~= ps);
    } else {
        assert(ps.push(x)[0] == ps[0]);
        assert(ps.push(x).drop_first() =~= ps.drop_first().push(x));
        lemma_prefix_names_snoc(ps.drop_first(), ss, x);
    }
}

proof fn lemma_dotted_all_snoc(fps: Seq<Seq<char>>, x: Seq<char>)
    ensures
        dotted_all(fps.push(x)) =~= dotted_all(fps) + dotted_forms(x),
    decreases fps.len(),
{
    if fps.len() == 0 {
        assert(fps.push(x)[0] == x);
        assert(fps.push(x).drop_first() =~= fps);
    } else {
        assert(fps.push(x)[0] == fps[0]);
        assert(fps.push(x).drop_first() =~= fps.drop_first().push(x));
        lemma_dotted_all_snoc(fps.drop_first(), x);
    }
}

proof fn lemma_dir_candidates_snoc(
    dirs: Seq<Seq<char>>,
    base: Seq<char>,
    names: Seq<Seq<char>>,
    x: Seq<char>,
)
    ensures
        dir_candidates(dirs.push(x), base, names) =~= dir_candidates(dirs, base, names)
            + names.map_values(|t: Seq<char>| base + "/"@ + x + "/"@ + t),
    decreases dirs.len(),
{
    if dirs.len() == 0 {
        assert(dirs.push(x)[0] == x);
        assert(dirs.push(x).drop_first() =~= dirs);
        assert(names.map_values(|t: Seq<char>| base + "/"@ + dirs.push(x)[0] + "/"@ + t) =~= names.map_values(
            |t: Seq<char>| base + "/"@ + x + "/"@ + t,
        ));
    } else {
        assert(dirs.push(x)[0] == dirs[0]);
        assert(dirs.push(x).drop_first() =~= dirs.drop_first().push(x));
        lemma_dir_candidates_snoc(dirs.drop_first(), base, names, x);
    }
}

/// `a` followed by `b`.
fn concat_strings(a: &String, b: &String) -> (r: String)
    ensures
        r@ == a@ + b@,
{
    let mut r = a.clone();
    r.append(b.as_str());
    r
}

/// `base` + '/' + `name`.
fn join_root(base: &str, name: &String) -> (r: String)
    ensures
        r@ == base@ + "/"@ + name@,
{
    let mut r = String::from_str(base);
    r.append("/");
    r.append(name.as_str());
    r
}

/// `base` + '/' + `dir` + '/' + `name`.
fn join_dir(base: &str, dir: &String, name: &String) -> (r: String)
    ensures
        r@ == base@ + "/"@ + dir@ + "/"@ + name@,
{
    let mut r = String::from_str(base);
    r.append("/");
    r.append(dir.as_str());
    r.append("/");
    r.append(name.as_str());
    r
}


/// A line is kept after trimming when it is non-empty and not a comment.
pub open spec fn line_kept(t: Seq<char>) -> bool {
    t.len() > 0 && t[0] != '#'
}

/// A kept pattern line counts as a full path when it starts with '.' or
/// contains '/'.
pub open spec fn line_is_full_path(t: Seq<char>) -> bool {
    t[0] == '.' || t.contains('/')
}

/// The trimmed kept lines that are full paths, in order.
pub open spec fn full_path_lines(lines: Seq<Seq<char>>) -> Seq<Seq<char>>
    decreases lines.len(),
{
    if lines.len() == 0 {
        Seq::empty()
    } else {
        let t = trim_spec(lines[0]);
        (if line_kept(t) && line_is_full_path(t) {
            seq![t]
        } else {
            Seq::<Seq<char>>::empty()
        }) + full_path_lines(lines.drop_first())
    }
}

/// The trimmed kept lines that are combinable prefixes, in order.
pub open spec fn prefix_lines(lines: Seq<Seq<char>>) -> Seq<Seq<char>>
    decreases lines.len(),
{
    if lines.len() == 0 {
        Seq::empty()
    } else {
        let t = trim_spec(lines[0]);
        (if line_kept(t) && !line_is_full_path(t) {
            seq![t]
        } else {
            Seq::<Seq<char>>::empty()
        }) + prefix_lines(lines.drop_first())
    }
}

/// The trimmed kept lines, in order.
pub open spec fn kept_lines(lines: Seq<Seq<char>>) -> Seq<Seq<char>>
    decreases lines.len(),
{
    if lines.len() == 0 {
        Seq::empty()
    } else {
        let t = trim_spec(lines[0]);
        (if line_kept(t) {
            seq![t]
        } else {
            Seq::<Seq<char>>::empty()
        }) + kept_lines(lines.drop_first())
    }
}

proof fn lemma_full_path_lines_snoc(lines: Seq<Seq<char>>, x: Seq<char>)
    ensures
        full_path_lines(lines.push(x)) =~= full_path_lines(lines) + (if line_kept(trim_spec(x))
            && line_is_full_path(trim_spec(x)) {
            seq![trim_spec(x)]
        } else {
            Seq::<Seq<char>>::empty()
        }),
    decreases lines.len(),
{
    if lines.len() == 0 {
        assert(lines.push(x)[0] == x);
        assert(lines.push(x).drop_first() =~= lines);
    } else {
        assert(lines.push(x)[0] == lines[0]);
        assert(lines.push(x).drop_first() =~= lines.drop_first().push(x));
        lemma_full_path_lines_snoc(lines.drop_first(), x);
    }
}

proof fn lemma_prefix_lines_snoc(lines: Seq<Seq<char>>, x: Seq<char>)
    ensures
        prefix_lines(lines.push(x)) =~= prefix_lines(lines) + (if line_kept(trim_spec(x))
            && !line_is_full_path(trim_spec(x)) {
            seq![trim_spec(x)]
        } else {
            Seq::<Seq<char>>::empty()
        }),
    decreases lines.len(),
{
    if lines.len() == 0 {
        assert(lines.push(x)[0] == x);
        assert(lines.push(x).drop_first() =~= lines);
    } else {
        assert(lines.push(x)[0] == lines[0]);
        assert(lines.push(x).drop_first() =~= lines.drop_first().push(x));
        lemma_prefix_lines_snoc(lines.drop_first(), x);
    }
}

proof fn lemma_kept_lines_snoc(lines: Seq<Seq<char>>, x: Seq<char>)
    ensures
        kept_lines(lines.push(x)) =~= kept_lines(lines) + (if line_kept(trim_spec(x)) {
            seq![trim_spec(x)]
        } else {
            Seq::<Seq<char>>::empty()
        }),
    decreases lines.len(),
{
    if lines.len() == 0 {
        assert(lines.push(x)[0] == x);
        assert(lines.push(x).drop_first() =~= lines);
    } else {
        assert(lines.push(x)[0] == lines[0]);
        assert(lines.push(x).drop_first() =~= lines.drop_first().push(x));
        lemma_kept_lines_snoc(lines.drop_first(), x);
    }
}

/// The patterns that are full paths, used as they stand: those that start
/// with '.' or contain '/'.
pub open spec fn full_path_patterns(pats: Seq<Seq<char>>) -> Seq<Seq<char>>
    decreases pats.len(),
{
    if pats.len() == 0 {
        Seq::empty()
    } else {
        (if pats[0].len() > 0 && line_is_full_path(pats[0]) {
            seq![pats[0]]
        } else {
            Seq::<Seq<char>>::empty()
        }) + full_path_patterns(pats.drop_first())
    }
}

/// The patterns that are combinable prefixes: all the others.
pub open spec fn prefix_patterns(pats: Seq<Seq<char>>) -> Seq<Seq<char>>
    decreases pats.len(),
{
    if pats.len() == 0 {
        Seq::empty()
    } else {
        (if pats[0].len() > 0 && line_is_full_path(pats[0]) {
            Seq::<Seq<char>>::empty()
        } else {
            seq![pats[0]]
        }) + prefix_patterns(pats.drop_first())
    }
}

proof fn lemma_pattern_routing_snoc(pats: Seq<Seq<char>>, x: Seq<char>)
    ensures
        full_path_patterns(pats.push(x)) =~= full_path_patterns(pats) + (if x.len() > 0
            && line_is_full_path(x) {
            seq![x]
        } else {
            Seq::<Seq<char>>::empty()
        }),
        prefix_patterns(pats.push(x)) =~= prefix_patterns(pats) + (if x.len() > 0
            && line_is_full_path(x) {
            Seq::<Seq<char>>::empty()
        } else {
            seq![x]
        }),
    decreases pats.len(),
{
    if pats.len() == 0 {
        assert(pats.push(x)[0] == x);
        assert(pats.push(x).drop_first() =~= pats);
    } else {
        assert(pats.push(x)[0] == pats[0]);
        assert(pats.push(x).drop_first() =~= pats.drop_first().push(x));
        lemma_pattern_routing_snoc(pats.drop_first(), x);
    }
}

/// The generator's whole candidate list for one target: the root tier,
/// deduplicated, followed by the directory-tier candidates not already in
/// the root tier.
pub open spec fn candidate_set(m: GenSpec, scheme: Seq<char>, host: Seq<char>) -> Seq<Seq<char>> {
    append_unique(
        root_tier(m, scheme, host),
        dir_candidates(m.dirs, scheme + "://"@ + host, dir_names(m, extract_domain_spec(host))),
    )
}

/// The deduplicated root tier.
pub open spec fn root_tier(m: GenSpec, scheme: Seq<char>, host: Seq<char>) -> Seq<Seq<char>> {
    append_unique(
        Seq::empty(),
        with_base(scheme + "://"@ + host, root_names(m, extract_domain_spec(host))),
    )
}

/// The fall-back candidate list: each pattern under the root and under a
/// fixed list of likely directories, without deduplication.
pub open spec fn simple_candidates(base: Seq<char>, pats: Seq<Seq<char>>) -> Seq<Seq<char>> {
    with_base(base, pats) + dir_candidates(simple_dirs(), base, pats)
}

/// The directories the fall-back generator looks into.
pub open spec fn simple_dirs() -> Seq<Seq<char>> {
    seq!["backup"@, "bak"@, "old"@, "archive"@, "db"@, "data"@]
}

/// Whether a character counts as alphanumeric; see [`char_is_alphanumeric`].
pub uninterp spec fn is_alnum_char(c: char) -> bool;

/// Relies on char::is_alphanumeric: a pure predicate of the character, which
/// on ASCII holds exactly for the letters and the decimal digits.
#[verifier::external_body]
pub fn char_is_alphanumeric(c: char) -> (b: bool)
    ensures
        b == is_alnum_char(c),
        (c as u32) < 128 ==> b == (('a' <= c && c <= 'z') || ('A' <= c && c <= 'Z') || ('0' <= c
            && c <= '9')),
{
    c.is_alphanumeric()
}

/// `d` restricted to its alphanumeric characters.
pub open spec fn alnum_filter(d: Seq<char>) -> Seq<char> {
    d.filter(|c: char| is_alnum_char(c))
}

/// The alphanumeric characters of `s`, in order.
pub fn retain_alnum(s: &str) -> (r: String)
    ensures
        r@ == alnum_filter(s@),
{
    let sv = chars_of(s);
    let n = sv.len();
    let mut r = String::new();
    let mut i: usize = 0;
    proof {
        reveal(Seq::filter);
        assert(s@.take(0) =~= Seq::<char>::empty());
    }
    while i < n
        invariant
            n == s@.len(),
            sv@ == s@,
            i <= n,
            r@ == alnum_filter(s@.take(i as int)),
        decreases n - i,
    {
        proof {
            reveal(Seq::filter);
            assert(s@.take(i + 1).drop_last() =~= s@.take(i as int));
            assert(s@.take(i + 1).last() == s@[i as int]);
        }
        if char_is_alphanumeric(sv[i]) {
            let piece = s.substring_char(i, i + 1);
            assert(piece@ =~= s@.subrange(i as int, i + 1));
            r.append(piece);
            assert(r@ =~= alnum_filter(s@.take(i as int)).push(s@[i as int]));
        }
        i = i + 1;
    }
    assert(s@.take(n as int) =~= s@);
    r
}

/// The spec-level shape of a generator: the views of its five pattern lists.
pub ghost struct GenSpec {
    pub prefixes: Seq<Seq<char>>,
    pub full_paths: Seq<Seq<char>>,
    pub suffixes: Seq<Seq<char>>,
    pub placeholders: Seq<Seq<char>>,
    pub dirs: Seq<Seq<char>>,
}

/// The archive suffixes every prefix is combined with.
pub open spec fn default_suffixes() -> Seq<Seq<char>> {
    seq![".rar"@, ".zip"@, ".tar.gz"@, ".tar"@, ".7z"@, ".bak"@]
}

/// The domain-placeholder templates applied to the domain token.
pub open spec fn default_placeholders() -> Seq<Seq<char>> {
    seq![
        "{domain}"@,
        "backup-{domain}"@,
        "{domain}-backup"@,
        "bak-{domain}"@,
        "{domain}-bak"@,
        "www-{domain}"@,
        "{domain}-old"@,
        "old-{domain}"@,
        "{domain}-archive"@,
        "archive-{domain}"@,
        "{domain}_backup"@,
        "backup_{domain}"@,
        "{domain}_bak"@,
        "bak_{domain}"@,
        "{domain}_old"@,
        "old_{domain}"@,
        "{domain}_archive"@,
        "archive_{domain}"@,
    ]
}

/// The directory names probed in the directory tier.
pub open spec fn default_backup_dirs() -> Seq<Seq<char>> {
    seq!["backup"@, "backups"@]
}

/// The generic basenames probed inside each backup directory.
pub open spec fn generic_basenames() -> Seq<Seq<char>> {
    seq!["backup"@, "site"@, "www"@, "web"@, "database"@, "db"@]
}

/// The domain token's variants: the token itself, each placeholder template
/// with "{domain}" replaced by the token, and the token stripped to its
/// alphanumeric characters when that differs.
pub open spec fn variants_seq(placeholders: Seq<Seq<char>>, d: Seq<char>) -> Seq<Seq<char>> {
    seq![d] + placeholders.map_values(|p: Seq<char>| replace_seq(p, "{domain}"@, d)) + (if
        alnum_filter(d) != d {
        seq![alnum_filter(d)]
    } else {
        Seq::<Seq<char>>::empty()
    })
}

/// Each of `vs` followed by each of `ss`.
pub open spec fn concat_each(vs: Seq<Seq<char>>, ss: Seq<Seq<char>>) -> Seq<Seq<char>>
    decreases vs.len(),
{
    if vs.len() == 0 {
        Seq::empty()
    } else {
        ss.map_values(|s: Seq<char>| vs[0] + s) + concat_each(vs.drop_first(), ss)
    }
}

/// A prefix that already carries a '.' stands alone; any other prefix is
/// combined with every suffix.
pub open spec fn prefix_expansion(p: Seq<char>, ss: Seq<Seq<char>>) -> Seq<Seq<char>> {
    if p.contains('.') {
        seq![p]
    } else {
        ss.map_values(|s: Seq<char>| p + s)
    }
}

/// All prefixes expanded; see [`prefix_expansion`].
pub open spec fn prefix_names(ps: Seq<Seq<char>>, ss: Seq<Seq<char>>) -> Seq<Seq<char>>
    decreases ps.len(),
{
    if ps.len() == 0 {
        Seq::empty()
    } else {
        prefix_expansion(ps[0], ss) + prefix_names(ps.drop_first(), ss)
    }
}

/// A full path, preceded by its dot-less form when it starts with '.' and
/// something remains after the dots.
pub open spec fn dotted_forms(p: Seq<char>) -> Seq<Seq<char>> {
    if p.len() > 0 && p[0] == '.' && strip_prefix_repeated(p, "."@).len() > 0 {
        seq![strip_prefix_repeated(p, "."@), p]
    } else {
        seq![p]
    }
}

/// The root-tier names: full paths, expanded prefixes, the domain token with
/// every suffix, and every domain variant with every suffix.
pub open spec fn root_names(m: GenSpec, d: Seq<char>) -> Seq<Seq<char>> {
    m.full_paths + prefix_names(m.prefixes, m.suffixes) + m.suffixes.map_values(
        |s: Seq<char>| d + s,
    ) + concat_each(variants_seq(m.placeholders, d), m.suffixes)
}

/// The names probed inside one backup directory: the domain token with every
/// suffix, the generic basenames with every suffix, expanded prefixes, full
/// paths with and without their leading dots, and every domain variant with
/// every suffix.
pub open spec fn dir_names(m: GenSpec, d: Seq<char>) -> Seq<Seq<char>> {
    m.suffixes.map_values(|s: Seq<char>| d + s) + concat_each(generic_basenames(), m.suffixes)
        + prefix_names(m.prefixes, m.suffixes) + dotted_all(m.full_paths) + concat_each(
        variants_seq(m.placeholders, d),
        m.suffixes,
    )
}

/// The dotted forms of every full path, in order.
pub open spec fn dotted_all(fps: Seq<Seq<char>>) -> Seq<Seq<char>>
    decreases fps.len(),
{
    if fps.len() == 0 {
        Seq::empty()
    } else {
        dotted_forms(fps[0]) + dotted_all(fps.drop_first())
    }
}

/// Generates candidate backup-file URLs for one target.
pub struct PatternGenerator {
    /// Prefixes combined with the suffix catalog.
    pub prefixes: Vec<String>,
    /// Full paths used as they stand.
    pub full_paths: Vec<String>,
    /// The suffix catalog.
    pub hard_coded_suffixes: Vec<String>,
    /// Domain-placeholder templates.
    pub domain_placeholders: Vec<String>,
    /// Backup directory names for the directory tier.
    pub backup_dirs: Vec<String>,
}

/// The spec-level shape of `g`.
pub open spec fn gen_model(g: PatternGenerator) -> GenSpec {
    GenSpec {
        prefixes: g.prefixes.deep_view(),
        full_paths: g.full_paths.deep_view(),
        suffixes: g.hard_coded_suffixes.deep_view(),
        placeholders: g.domain_placeholders.deep_view(),
        dirs: g.backup_dirs.deep_view(),
    }
}

impl PatternGenerator {
    /// A generator with no custom patterns and the default suffix catalog,
    /// placeholder templates and backup directories.
    pub fn new() -> (g: Self)
        ensures
            gen_model(g) == (GenSpec {
                prefixes: Seq::<Seq<char>>::empty(),
                full_paths: Seq::<Seq<char>>::empty(),
                suffixes: default_suffixes(),
                placeholders: default_placeholders(),
                dirs: default_backup_dirs(),
            }),
    {
        let hard_coded_suffixes: Vec<String> = vec![
            String::from_str(".rar"),
            String::from_str(".zip"),
            String::from_str(".tar.gz"),
            String::from_str(".tar"),
            String::from_str(".7z"),
            String::from_str(".bak"),
        ];
        let domain_placeholders: Vec<String> = vec![
            String::from_str("{domain}"),
            String::from_str("backup-{domain}"),
            String::from_str("{domain}-backup"),
            String::from_str("bak-{domain}"),
            String::from_str("{domain}-bak"),
            String::from_str("www-{domain}"),
            String::from_str("{domain}-old"),
            String::from_str("old-{domain}"),
            String::from_str("{domain}-archive"),
            String::from_str("archive-{domain}"),
            String::from_str("{domain}_backup"),
            String::from_str("backup_{domain}"),
            String::from_str("{domain}_bak"),
            String::from_str("bak_{domain}"),
            String::from_str("{domain}_old"),
            String::from_str("old_{domain}"),
            String::from_str("{domain}_archive"),
            String::from_str("archive_{domain}"),
        ];
        let backup_dirs: Vec<String> = vec![String::from_str("backup"), String::from_str("backups")];
        let g = PatternGenerator {
            prefixes: Vec::new(),
            full_paths: Vec::new(),
            hard_coded_suffixes,
            domain_placeholders,
            backup_dirs,
        };
        proof {
            assert(g.prefixes.deep_view() =~= Seq::<Seq<char>>::empty());
            assert(g.full_paths.deep_view() =~= Seq::<Seq<char>>::empty());
            assert(g.hard_coded_suffixes.deep_view() =~= default_suffixes());
            assert(g.domain_placeholders.deep_view() =~= default_placeholders());
            assert(g.backup_dirs.deep_view() =~= default_backup_dirs());
        }
        g
    }

    /// The short list of names worth a first look at a new host.
    pub fn get_common_backup_names(&self) -> (v: Vec<String>)
        ensures
            v.deep_view() =~= seq!["backup"@, "back"@, "bak"@],
    {
        let v: Vec<String> = vec![
            String::from_str("backup"),
            String::from_str("back"),
            String::from_str("bak"),
        ];
        assert(v.deep_view() =~= seq!["backup"@, "back"@, "bak"@]);
        v
    }


    /// The root-tier names in construction order; see [`root_names`].
    fn build_root_names(&self, domain: &str) -> (names: Vec<String>)
        ensures
            names.deep_view() == root_names(gen_model(*self), domain@),
    {
        let ghost m = gen_model(*self);
        let ghost d = domain@;
        let mut names: Vec<String> = Vec::new();
        let n1 = self.full_paths.len();
        let mut i: usize = 0;
        assert(names.deep_view() =~= m.full_paths.take(0));
        while i < n1
            invariant
                n1 == self.full_paths@.len(),
                m == gen_model(*self),
                i <= n1,
                names.deep_view() == m.full_paths.take(i as int),
            decreases n1 - i,
        {
            assert(m.full_paths[i as int] == self.full_paths@[i as int]@);
            let ghost olddeep = names.deep_view();
            names.push(self.full_paths[i].clone());
            proof {
                assert(names.deep_view() =~= olddeep.push(m.full_paths[i as int]));
                assert(olddeep.push(m.full_paths[i as int]) =~= m.full_paths.take(i + 1));
            }
            i = i + 1;
        }
        assert(m.full_paths.take(n1 as int) =~= m.full_paths);
        let ghost a1 = m.full_paths;

        let n2 = self.prefixes.len();
        let mut i: usize = 0;
        proof {
            assert(m.prefixes.take(0) =~= Seq::<Seq<char>>::empty());
            assert(names.deep_view() + prefix_names(m.prefixes.take(0), m.suffixes) =~= names.deep_view());
        }
        while i < n2
            invariant
                n2 == self.prefixes@.len(),
                m == gen_model(*self),
                i <= n2,
                names.deep_view() == a1 + prefix_names(m.prefixes.take(i as int), m.suffixes),
            decreases n2 - i,
        {
            let ghost p = m.prefixes[i as int];
            assert(p == self.prefixes@[i as int]@);
            let pv = chars_of(self.prefixes[i].as_str());
            proof {
                assert(m.prefixes.take(i + 1) =~= m.prefixes.take(i as int).push(p));
                lemma_prefix_names_snoc(m.prefixes.take(i as int), m.suffixes, p);
            }
            if contains_char(&pv, '.') {
                let ghost olddeep = names.deep_view();
                names.push(self.prefixes[i].clone());
                proof {
                    assert(prefix_expansion(p, m.suffixes) =~= seq![p]);
                    assert(names.deep_view() =~= olddeep.push(p));
                    assert(olddeep.push(p) =~= a1 + (prefix_names(m.prefixes.take(i as int), m.suffixes)
                        + prefix_expansion(p, m.suffixes)));
                    assert(names.deep_view() =~= a1 + prefix_names(m.prefixes.take(i + 1), m.suffixes));
                }
            } else {
                let n3 = self.hard_coded_suffixes.len();
                let mut j: usize = 0;
                proof {
                    assert(m.suffixes.take(0).map_values(|s: Seq<char>| p + s) =~= Seq::<Seq<char>>::empty());
                    assert(names.deep_view() + m.suffixes.take(0).map_values(|s: Seq<char>| p + s)
                        =~= names.deep_view());
                }
                while j < n3
                    invariant
                        n3 == self.hard_coded_suffixes@.len(),
                        m == gen_model(*self),
                        p == self.prefixes@[i as int]@,
                        i < n2 == self.prefixes@.len(),
                        j <= n3,
                        names.deep_view() == a1 + prefix_names(m.prefixes.take(i as int), m.suffixes)
                            + m.suffixes.take(j as int).map_values(|s: Seq<char>| p + s),
                    decreases n3 - j,
                {
                    assert(m.suffixes[j as int] == self.hard_coded_suffixes@[j as int]@);
                    let name = concat_strings(&self.prefixes[i], &self.hard_coded_suffixes[j]);
                    let ghost olddeep = names.deep_view();
                    names.push(name);
                    proof {
                        assert(names.deep_view() =~= olddeep.push(p + m.suffixes[j as int]));
                        assert(m.suffixes.take(j + 1).map_values(|s: Seq<char>| p + s) =~= m.suffixes.take(
                            j as int,
                        ).map_values(|s: Seq<char>| p + s).push(p + m.suffixes[j as int]));
                        assert(names.deep_view() =~= a1 + prefix_names(m.prefixes.take(i as int), m.suffixes)
                            + m.suffixes.take(j + 1).map_values(|s: Seq<char>| p + s));
                    }
                    j = j + 1;
                }
                proof {
                    assert(m.suffixes.take(n3 as int) =~= m.suffixes);
                    assert(!p.contains('.'));
                    assert(m.suffixes.map_values(|s: Seq<char>| p + s) =~= prefix_expansion(p, m.suffixes));
                    assert(names.deep_view() =~= a1 + (prefix_names(m.prefixes.take(i as int), m.suffixes)
                        + prefix_expansion(p, m.suffixes)));
                    assert(names.deep_view() =~= a1 + prefix_names(m.prefixes.take(i + 1), m.suffixes));
                }
            }
            i = i + 1;
        }
        assert(m.prefixes.take(n2 as int) =~= m.prefixes);
        let ghost a2 = a1 + prefix_names(m.prefixes, m.suffixes);
        assert(names.deep_view() =~= a2);

        let ds = String::from_str(domain);
        let n4 = self.hard_coded_suffixes.len();
        let mut j: usize = 0;
        proof {
            assert(m.suffixes.take(0).map_values(|s: Seq<char>| d + s) =~= Seq::<Seq<char>>::empty());
            assert(names.deep_view() + m.suffixes.take(0).map_values(|s: Seq<char>| d + s) =~= names.deep_view());
        }
        while j < n4
            invariant
                n4 == self.hard_coded_suffixes@.len(),
                m == gen_model(*self),
                d == ds@,
                j <= n4,
                names.deep_view() == a2 + m.suffixes.take(j as int).map_values(|s: Seq<char>| d + s),
            decreases n4 - j,
        {
            assert(m.suffixes[j as int] == self.hard_coded_suffixes@[j as int]@);
            let name = concat_strings(&ds, &self.hard_coded_suffixes[j]);
            let ghost olddeep = names.deep_view();
            names.push(name);
            proof {
                assert(names.deep_view() =~= olddeep.push(d + m.suffixes[j as int]));
                assert(m.suffixes.take(j + 1).map_values(|s: Seq<char>| d + s) =~= m.suffixes.take(
                    j as int,
                ).map_values(|s: Seq<char>| d + s).push(d + m.suffixes[j as int]));
                assert(names.deep_view() =~= a2 + m.suffixes.take(j + 1).map_values(|s: Seq<char>| d + s));
            }
            j = j + 1;
        }
        assert(m.suffixes.take(n4 as int) =~= m.suffixes);
        let ghost a3 = a2 + m.suffixes.map_values(|s: Seq<char>| d + s);
        assert(names.deep_view() =~= a3);

        let variants = self.generate_domain_variants(domain);
        let ghost vv = variants.deep_view();
        let n5 = variants.len();
        let mut i: usize = 0;
        proof {
            assert(vv.take(0) =~= Seq::<Seq<char>>::empty());
            assert(names.deep_view() + concat_each(vv.take(0), m.suffixes) =~= names.deep_view());
        }
        while i < n5
            invariant
                n5 == variants@.len(),
                m == gen_model(*self),
                vv == variants.deep_view(),
                i <= n5,
                names.deep_view() == a3 + concat_each(vv.take(i as int), m.suffixes),
            decreases n5 - i,
        {
            let ghost v = vv[i as int];
            assert(v == variants@[i as int]@);
            proof {
                assert(vv.take(i + 1) =~= vv.take(i as int).push(v));
                lemma_concat_each_snoc(vv.take(i as int), m.suffixes, v);
            }
            let n6 = self.hard_coded_suffixes.len();
            let mut j: usize = 0;
            proof {
                assert(m.suffixes.take(0).map_values(|s: Seq<char>| v + s) =~= Seq::<Seq<char>>::empty());
                assert(names.deep_view() + m.suffixes.take(0).map_values(|s: Seq<char>| v + s)
                    =~= names.deep_view());
            }
            while j < n6
                invariant
                    n6 == self.hard_coded_suffixes@.len(),
                    m == gen_model(*self),
                    vv == variants.deep_view(),
                    i < n5 == variants@.len(),
                    v == variants@[i as int]@,
                    j <= n6,
                    names.deep_view() == a3 + concat_each(vv.take(i as int), m.suffixes)
                        + m.suffixes.take(j as int).map_values(|s: Seq<char>| v + s),
                decreases n6 - j,
            {
                assert(m.suffixes[j as int] == self.hard_coded_suffixes@[j as int]@);
                let name = concat_strings(&variants[i], &self.hard_coded_suffixes[j]);
                let ghost olddeep = names.deep_view();
                names.push(name);
                proof {
                    assert(names.deep_view() =~= olddeep.push(v + m.suffixes[j as int]));
                    assert(m.suffixes.take(j + 1).map_values(|s: Seq<char>| v + s) =~= m.suffixes.take(
                        j as int,
                    ).map_values(|s: Seq<char>| v + s).push(v + m.suffixes[j as int]));
                    assert(names.deep_view() =~= a3 + concat_each(vv.take(i as int), m.suffixes)
                        + m.suffixes.take(j + 1).map_values(|s: Seq<char>| v + s));
                }
                j = j + 1;
            }
            proof {
                assert(m.suffixes.take(n6 as int) =~= m.suffixes);
                assert(names.deep_view() =~= a3 + (concat_each(vv.take(i as int), m.suffixes)
                    + m.suffixes.map_values(|s: Seq<char>| v + s)));
                assert(names.deep_view() =~= a3 + concat_each(vv.take(i + 1), m.suffixes));
            }
            i = i + 1;
        }
        proof {
            assert(vv.take(n5 as int) =~= vv);
            assert(names.deep_view() =~= root_names(m, d));
        }
        names
    }


    /// The directory-tier names in construction order; see [`dir_names`].
    fn build_dir_names(&self, domain: &str) -> (names: Vec<String>)
        ensures
            names.deep_view() == dir_names(gen_model(*self), domain@),
    {
        let ghost m = gen_model(*self);
        let ghost d = domain@;
        let mut names: Vec<String> = Vec::new();

        let ds = String::from_str(domain);
        let n1 = self.hard_coded_suffixes.len();
        let mut j: usize = 0;
        proof {
            assert(m.suffixes.take(0).map_values(|s: Seq<char>| d + s) =~= Seq::<Seq<char>>::empty());
            assert(names.deep_view() =~= m.suffixes.take(0).map_values(|s: Seq<char>| d + s));
        }
        while j < n1
            invariant
                n1 == self.hard_coded_suffixes@.len(),
                m == gen_model(*self),
                d == ds@,
                j <= n1,
                names.deep_view() == m.suffixes.take(j as int).map_values(|s: Seq<char>| d + s),
            decreases n1 - j,
        {
            assert(m.suffixes[j as int] == self.hard_coded_suffixes@[j as int]@);
            let name = concat_strings(&ds, &self.hard_coded_suffixes[j]);
            let ghost olddeep = names.deep_view();
            names.push(name);
            proof {
                assert(names.deep_view() =~= olddeep.push(d + m.suffixes[j as int]));
                assert(m.suffixes.take(j + 1).map_values(|s: Seq<char>| d + s) =~= m.suffixes.take(
                    j as int,
                ).map_values(|s: Seq<char>| d + s).push(d + m.suffixes[j as int]));
            }
            j = j + 1;
        }
        assert(m.suffixes.take(n1 as int) =~= m.suffixes);
        let ghost a1 = m.suffixes.map_values(|s: Seq<char>| d + s);
        assert(names.deep_view() =~= a1);

        let generic = self.get_common_generic_names();
        let ghost gv = generic.deep_view();
        assert(gv =~= generic_basenames());
        let n2 = generic.len();
        let mut i: usize = 0;
        proof {
            assert(gv.take(0) =~= Seq::<Seq<char>>::empty());
            assert(names.deep_view() + concat_each(gv.take(0), m.suffixes) =~= names.deep_view());
        }
        while i < n2
            invariant
                n2 == generic@.len(),
                m == gen_model(*self),
                gv == generic.deep_view(),
                i <= n2,
                names.deep_view() == a1 + concat_each(gv.take(i as int), m.suffixes),
            decreases n2 - i,
        {
            let ghost v = gv[i as int];
            assert(v == generic@[i as int]@);
            proof {
                assert(gv.take(i + 1) =~= gv.take(i as int).push(v));
                lemma_concat_each_snoc(gv.take(i as int), m.suffixes, v);
            }
            let n3 = self.hard_coded_suffixes.len();
            let mut j: usize = 0;
            proof {
                assert(m.suffixes.take(0).map_values(|s: Seq<char>| v + s) =~= Seq::<Seq<char>>::empty());
                assert(names.deep_view() + m.suffixes.take(0).map_values(|s: Seq<char>| v + s)
                    =~= names.deep_view());
            }
            while j < n3
                invariant
                    n3 == self.hard_coded_suffixes@.len(),
                    m == gen_model(*self),
                    gv == generic.deep_view(),
                    i < n2 == generic@.len(),
                    v == generic@[i as int]@,
                    j <= n3,
                    names.deep_view() == a1 + concat_each(gv.take(i as int), m.suffixes)
                        + m.suffixes.take(j as int).map_values(|s: Seq<char>| v + s),
                decreases n3 - j,
            {
                assert(m.suffixes[j as int] == self.hard_coded_suffixes@[j as int]@);
                let name = concat_strings(&generic[i], &self.hard_coded_suffixes[j]);
                let ghost olddeep = names.deep_view();
                names.push(name);
                proof {
                    assert(names.deep_view() =~= olddeep.push(v + m.suffixes[j as int]));
                    assert(m.suffixes.take(j + 1).map_values(|s: Seq<char>| v + s) =~= m.suffixes.take(
                        j as int,
                    ).map_values(|s: Seq<char>| v + s).push(v + m.suffixes[j as int]));
                    assert(names.deep_view() =~= a1 + concat_each(gv.take(i as int), m.suffixes)
                        + m.suffixes.take(j + 1).map_values(|s: Seq<char>| v + s));
                }
                j = j + 1;
            }
            proof {
                assert(m.suffixes.take(n3 as int) =~= m.suffixes);
                assert(names.deep_view() =~= a1 + (concat_each(gv.take(i as int), m.suffixes)
                    + m.suffixes.map_values(|s: Seq<char>| v + s)));
                assert(names.deep_view() =~= a1 + concat_each(gv.take(i + 1), m.suffixes));
            }
            i = i + 1;
        }
        proof {
            assert(gv.take(n2 as int) =~= gv);
        }
        let ghost a2 = a1 + concat_each(generic_basenames(), m.suffixes);
        assert(names.deep_view() =~= a2);

        let n4 = self.prefixes.len();
        let mut i: usize = 0;
        proof {
            assert(m.prefixes.take(0) =~= Seq::<Seq<char>>::empty());
            assert(names.deep_view() + prefix_names(m.prefixes.take(0), m.suffixes) =~= names.deep_view());
        }
        while i < n4
            invariant
                n4 == self.prefixes@.len(),
                m == gen_model(*self),
                i <= n4,
                names.deep_view() == a2 + prefix_names(m.prefixes.take(i as int), m.suffixes),
            decreases n4 - i,
        {
            let ghost p = m.prefixes[i as int];
            assert(p == self.prefixes@[i as int]@);
            let pv = chars_of(self.prefixes[i].as_str());
            proof {
                assert(m.prefixes.take(i + 1) =~= m.prefixes.take(i as int).push(p));
                lemma_prefix_names_snoc(m.prefixes.take(i as int), m.suffixes, p);
            }
            if contains_char(&pv, '.') {
                let ghost olddeep = names.deep_view();
                names.push(self.prefixes[i].clone());
                proof {
                    assert(prefix_expansion(p, m.suffixes) =~= seq![p]);
                    assert(names.deep_view() =~= olddeep.push(p));
                    assert(olddeep.push(p) =~= a2 + (prefix_names(m.prefixes.take(i as int), m.suffixes)
                        + prefix_expansion(p, m.suffixes)));
                    assert(names.deep_view() =~= a2 + prefix_names(m.prefixes.take(i + 1), m.suffixes));
                }
            } else {
                let n5 = self.hard_coded_suffixes.len();
                let mut j: usize = 0;
                proof {
                    assert(m.suffixes.take(0).map_values(|s: Seq<char>| p + s) =~= Seq::<Seq<char>>::empty());
                    assert(names.deep_view() + m.suffixes.take(0).map_values(|s: Seq<char>| p + s)
                        =~= names.deep_view());
                }
                while j < n5
                    invariant
                        n5 == self.hard_coded_suffixes@.len(),
                        m == gen_model(*self),
                        p == self.prefixes@[i as int]@,
                        i < n4 == self.prefixes@.len(),
                        j <= n5,
                        names.deep_view() == a2 + prefix_names(m.prefixes.take(i as int), m.suffixes)
                            + m.suffixes.take(j as int).map_values(|s: Seq<char>| p + s),
                    decreases n5 - j,
                {
                    assert(m.suffixes[j as int] == self.hard_coded_suffixes@[j as int]@);
                    let name = concat_strings(&self.prefixes[i], &self.hard_coded_suffixes[j]);
                    let ghost olddeep = names.deep_view();
                    names.push(name);
                    proof {
                        assert(names.deep_view() =~= olddeep.push(p + m.suffixes[j as int]));
                        assert(m.suffixes.take(j + 1).map_values(|s: Seq<char>| p + s) =~= m.suffixes.take(
                            j as int,
                        ).map_values(|s: Seq<char>| p + s).push(p + m.suffixes[j as int]));
                        assert(names.deep_view() =~= a2 + prefix_names(m.prefixes.take(i as int), m.suffixes)
                            + m.suffixes.take(j + 1).map_values(|s: Seq<char>| p + s));
                    }
                    j = j + 1;
                }
                proof {
                    assert(m.suffixes.take(n5 as int) =~= m.suffixes);
                    assert(m.suffixes.map_values(|s: Seq<char>| p + s) =~= prefix_expansion(p, m.suffixes));
                    assert(names.deep_view() =~= a2 + (prefix_names(m.prefixes.take(i as int), m.suffixes)
                        + prefix_expansion(p, m.suffixes)));
                    assert(names.deep_view() =~= a2 + prefix_names(m.prefixes.take(i + 1), m.suffixes));
                }
            }
            i = i + 1;
        }
        assert(m.prefixes.take(n4 as int) =~= m.prefixes);
        let ghost a3 = a2 + prefix_names(m.prefixes, m.suffixes);
        assert(names.deep_view() =~= a3);

        let n6 = self.full_paths.len();
        let mut i: usize = 0;
        proof {
            assert(m.full_paths.take(0) =~= Seq::<Seq<char>>::empty());
            assert(names.deep_view() + dotted_all(m.full_paths.take(0)) =~= names.deep_view());
            reveal_strlit(".");
        }
        while i < n6
            invariant
                n6 == self.full_paths@.len(),
                m == gen_model(*self),
                i <= n6,
                "."@.len() == 1 && "."@[0] == '.',
                names.deep_view() == a3 + dotted_all(m.full_paths.take(i as int)),
            decreases n6 - i,
        {
            let ghost p = m.full_paths[i as int];
            assert(p == self.full_paths@[i as int]@);
            proof {
                assert(m.full_paths.take(i + 1) =~= m.full_paths.take(i as int).push(p));
                lemma_dotted_all_snoc(m.full_paths.take(i as int), p);
            }
            let pv = chars_of(self.full_paths[i].as_str());
            if pv.len() > 0 && pv[0] == '.' {
                let stripped = strip_prefix_repeated_exec(self.full_paths[i].as_str(), ".");
                if stripped.as_str().unicode_len() > 0 {
                    let ghost olddeep = names.deep_view();
                    names.push(stripped);
                    proof {
                        assert(names.deep_view() =~= olddeep.push(strip_prefix_repeated(p, "."@)));
                    }
                }
            }
            let ghost olddeep = names.deep_view();
            names.push(self.full_paths[i].clone());
            proof {
                assert(names.deep_view() =~= olddeep.push(p));
                if p.len() > 0 && p[0] == '.' && strip_prefix_repeated(p, "."@).len() > 0 {
                    assert(dotted_forms(p) =~= seq![strip_prefix_repeated(p, "."@), p]);
                    assert(names.deep_view() =~= a3 + (dotted_all(m.full_paths.take(i as int))
                        + dotted_forms(p)));
                } else {
                    assert(dotted_forms(p) =~= seq![p]);
                    assert(names.deep_view() =~= a3 + (dotted_all(m.full_paths.take(i as int))
                        + dotted_forms(p)));
                }
                assert(names.deep_view() =~= a3 + dotted_all(m.full_paths.take(i + 1)));
            }
            i = i + 1;
        }
        assert(m.full_paths.take(n6 as int) =~= m.full_paths);
        let ghost a4 = a3 + dotted_all(m.full_paths);
        assert(names.deep_view() =~= a4);

        let variants = self.generate_domain_variants(domain);
        let ghost vv = variants.deep_view();
        let n7 = variants.len();
        let mut i: usize = 0;
        proof {
            assert(vv.take(0) =~= Seq::<Seq<char>>::empty());
            assert(names.deep_view() + concat_each(vv.take(0), m.suffixes) =~= names.deep_view());
        }
        while i < n7
            invariant
                n7 == variants@.len(),
                m == gen_model(*self),
                vv == variants.deep_view(),
                i <= n7,
                names.deep_view() == a4 + concat_each(vv.take(i as int), m.suffixes),
            decreases n7 - i,
        {
            let ghost v = vv[i as int];
            assert(v == variants@[i as int]@);
            proof {
                assert(vv.take(i + 1) =~= vv.take(i as int).push(v));
                lemma_concat_each_snoc(vv.take(i as int), m.suffixes, v);
            }
            let n8 = self.hard_coded_suffixes.len();
            let mut j: usize = 0;
            proof {
                assert(m.suffixes.take(0).map_values(|s: Seq<char>| v + s) =~= Seq::<Seq<char>>::empty());
                assert(names.deep_view() + m.suffixes.take(0).map_values(|s: Seq<char>| v + s)
                    =~= names.deep_view());
            }
            while j < n8
                invariant
                    n8 == self.hard_coded_suffixes@.len(),
                    m == gen_model(*self),
                    vv == variants.deep_view(),
                    i < n7 == variants@.len(),
                    v == variants@[i as int]@,
                    j <= n8,
                    names.deep_view() == a4 + concat_each(vv.take(i as int), m.suffixes)
                        + m.suffixes.take(j as int).map_values(|s: Seq<char>| v + s),
                decreases n8 - j,
            {
                assert(m.suffixes[j as int] == self.hard_coded_suffixes@[j as int]@);
                let name = concat_strings(&variants[i], &self.hard_coded_suffixes[j]);
                let ghost olddeep = names.deep_view();
                names.push(name);
                proof {
                    assert(names.deep_view() =~= olddeep.push(v + m.suffixes[j as int]));
                    assert(m.suffixes.take(j + 1).map_values(|s: Seq<char>| v + s) =~= m.suffixes.take(
                        j as int,
                    ).map_values(|s: Seq<char>| v + s).push(v + m.suffixes[j as int]));
                    assert(names.deep_view() =~= a4 + concat_each(vv.take(i as int), m.suffixes)
                        + m.suffixes.take(j + 1).map_values(|s: Seq<char>| v + s));
                }
                j = j + 1;
            }
            proof {
                assert(m.suffixes.take(n8 as int) =~= m.suffixes);
                assert(names.deep_view() =~= a4 + (concat_each(vv.take(i as int), m.suffixes)
                    + m.suffixes.map_values(|s: Seq<char>| v + s)));
                assert(names.deep_view() =~= a4 + concat_each(vv.take(i + 1), m.suffixes));
            }
            i = i + 1;
        }
        proof {
            assert(vv.take(n7 as int) =~= vv);
            assert(names.deep_view() =~= dir_names(m, d));
        }
        names
    }

    /// The generic basenames probed inside each backup directory.
    fn get_common_generic_names(&self) -> (v: Vec<String>)
        ensures
            v.deep_view() =~= generic_basenames(),
    {
        let v: Vec<String> = vec![
            String::from_str("backup"),
            String::from_str("site"),
            String::from_str("www"),
            String::from_str("web"),
            String::from_str("database"),
            String::from_str("db"),
        ];
        assert(v.deep_view() =~= generic_basenames());
        v
    }


    /// Adds the root-tier candidate URLs for `base_url` to `result`, each
    /// `base_url/name` for the root-tier names, skipping URLs already
    /// present.
    pub fn generate_root_urls(&self, result: &mut Vec<String>, base_url: &str, domain: &str)
        ensures
            final(result).deep_view() == append_unique(
                old(result).deep_view(),
                with_base(base_url@, root_names(gen_model(*self), domain@)),
            ),
    {
        let ghost acc0 = result.deep_view();
        let names = self.build_root_names(domain);
        let ghost nv = names.deep_view();
        let ghost items = with_base(base_url@, nv);
        let n = names.len();
        let mut i: usize = 0;
        proof {
            assert(with_base(base_url@, nv.take(0)) =~= Seq::<Seq<char>>::empty());
            assert(append_unique(acc0, with_base(base_url@, nv.take(0))) == acc0);
        }
        while i < n
            invariant
                n == names@.len(),
                nv == names.deep_view(),
                i <= n,
                result.deep_view() == append_unique(acc0, with_base(base_url@, nv.take(i as int))),
            decreases n - i,
        {
            assert(nv[i as int] == names@[i as int]@);
            let url = join_root(base_url, &names[i]);
            proof {
                lemma_append_unique_snoc(acc0, with_base(base_url@, nv.take(i as int)), url@);
                assert(with_base(base_url@, nv.take(i + 1)) =~= with_base(
                    base_url@,
                    nv.take(i as int),
                ).push(url@));
            }
            let ghost cur = result.deep_view();
            push_unique(result, url);
            proof {
                if cur.contains(base_url@ + "/"@ + nv[i as int]) {
                    assert(result.deep_view() =~= cur);
                } else {
                    assert(result.deep_view() =~= cur.push(base_url@ + "/"@ + nv[i as int]));
                }
            }
            i = i + 1;
        }
        proof {
            assert(nv.take(n as int) =~= nv);
        }
    }

    /// Adds the directory-tier candidate URLs for `base_url` to `result`:
    /// `base_url/dir/name` for each backup directory and each directory-tier
    /// name, skipping URLs already present.
    pub fn generate_backup_dir_urls(&self, result: &mut Vec<String>, base_url: &str, domain: &str)
        ensures
            final(result).deep_view() == append_unique(
                old(result).deep_view(),
                dir_candidates(
                    gen_model(*self).dirs,
                    base_url@,
                    dir_names(gen_model(*self), domain@),
                ),
            ),
    {
        let ghost m = gen_model(*self);
        let ghost acc0 = result.deep_view();
        let names = self.build_dir_names(domain);
        let ghost nv = names.deep_view();
        let nd = self.backup_dirs.len();
        let mut k: usize = 0;
        proof {
            assert(m.dirs.take(0) =~= Seq::<Seq<char>>::empty());
            assert(dir_candidates(m.dirs.take(0), base_url@, nv) =~= Seq::<Seq<char>>::empty());
            assert(append_unique(acc0, dir_candidates(m.dirs.take(0), base_url@, nv)) == acc0);
        }
        while k < nd
            invariant
                nd == self.backup_dirs@.len(),
                m == gen_model(*self),
                nv == names.deep_view(),
                nv == dir_names(m, domain@),
                k <= nd,
                result.deep_view() == append_unique(
                    acc0,
                    dir_candidates(m.dirs.take(k as int), base_url@, nv),
                ),
            decreases nd - k,
        {
            let ghost dir = m.dirs[k as int];
            assert(dir == self.backup_dirs@[k as int]@);
            proof {
                assert(m.dirs.take(k + 1) =~= m.dirs.take(k as int).push(dir));
                lemma_dir_candidates_snoc(m.dirs.take(k as int), base_url@, nv, dir);
            }
            let ghost before = dir_candidates(m.dirs.take(k as int), base_url@, nv);
            let ghost mapped = nv.map_values(|t: Seq<char>| base_url@ + "/"@ + dir + "/"@ + t);
            let n = names.len();
            let mut i: usize = 0;
            proof {
                assert(mapped.take(0) =~= Seq::<Seq<char>>::empty());
                assert(before + mapped.take(0) =~= before);
            }
            while i < n
                invariant
                    n == names@.len(),
                    m == gen_model(*self),
                    nv == names.deep_view(),
                    k < nd == self.backup_dirs@.len(),
                    dir == self.backup_dirs@[k as int]@,
                    mapped == nv.map_values(|t: Seq<char>| base_url@ + "/"@ + dir + "/"@ + t),
                    i <= n,
                    result.deep_view() == append_unique(acc0, before + mapped.take(i as int)),
                decreases n - i,
            {
                assert(nv[i as int] == names@[i as int]@);
                let url = join_dir(base_url, &self.backup_dirs[k], &names[i]);
                proof {
                    lemma_append_unique_snoc(acc0, before + mapped.take(i as int), url@);
                    assert(mapped[i as int] == url@);
                    assert((before + mapped.take(i + 1)) =~= (before + mapped.take(i as int)).push(
                        url@,
                    ));
                }
                let ghost cur = result.deep_view();
                push_unique(result, url);
                proof {
                    if cur.contains(base_url@ + "/"@ + dir + "/"@ + nv[i as int]) {
                        assert(result.deep_view() =~= cur);
                    } else {
                        assert(result.deep_view() =~= cur.push(
                            base_url@ + "/"@ + dir + "/"@ + nv[i as int],
                        ));
                    }
                }
                i = i + 1;
            }
            proof {
                assert(mapped.take(n as int) =~= mapped);
                assert(before + mapped =~= dir_candidates(m.dirs.take(k + 1), base_url@, nv));
            }
            k = k + 1;
        }
        proof {
            assert(m.dirs.take(nd as int) =~= m.dirs);
        }
    }


    /// All candidate URLs for one target, root tier first, with the index
    /// where the directory tier begins. Fails exactly when the target does
    /// not parse as a URL with a host.
    pub fn generate_urls_tiered(&self, target_url: &str) -> (r: Result<
        (Vec<String>, usize),
        BackerError,
    >)
        ensures
            (match url_parts(target_url@) {
                Some((scheme, Some(host), _port)) => r matches Ok(p) && p.0.deep_view()
                    == candidate_set(gen_model(*self), scheme, host) && p.1 == root_tier(
                    gen_model(*self),
                    scheme,
                    host,
                ).len() && p.0.deep_view().take(p.1 as int) == root_tier(
                    gen_model(*self),
                    scheme,
                    host,
                ) && p.0.deep_view().no_duplicates(),
                _ => r matches Err(e) && e matches BackerError::Config(_),
            }),
    {
        let ghost m = gen_model(*self);
        match parse_url_parts(target_url) {
            None => Err(BackerError::Config(String::from_str("invalid target URL"))),
            Some((scheme, host_opt, _port)) => match host_opt {
                None => Err(BackerError::Config(String::from_str("target URL has no host"))),
                Some(host) => {
                    let domain = extract_domain(host.as_str());
                    let mut base = scheme;
                    base.append("://");
                    base.append(host.as_str());
                    let mut result: Vec<String> = Vec::new();
                    assert(result.deep_view() =~= Seq::<Seq<char>>::empty());
                    self.generate_root_urls(&mut result, base.as_str(), domain.as_str());
                    let root_count = result.len();
                    assert(result.deep_view().len() == root_count);
                    let ghost roots = result.deep_view();
                    self.generate_backup_dir_urls(&mut result, base.as_str(), domain.as_str());
                    proof {
                        lemma_append_unique_props(
                            Seq::empty(),
                            with_base(base@, root_names(m, domain@)),
                        );
                        assert(Seq::<Seq<char>>::empty().no_duplicates());
                        lemma_append_unique_props(
                            roots,
                            dir_candidates(m.dirs, base@, dir_names(m, domain@)),
                        );
                    }
                    Ok((result, root_count))
                },
            },
        }
    }

    /// All candidate URLs for one target, root tier first. Fails exactly
    /// when the target does not parse as a URL with a host.
    pub fn generate_urls(&self, target_url: &str) -> (r: Result<Vec<String>, BackerError>)
        ensures
            (match url_parts(target_url@) {
                Some((scheme, Some(host), _port)) => r matches Ok(urls) && urls.deep_view()
                    == candidate_set(gen_model(*self), scheme, host)
                    && urls.deep_view().no_duplicates(),
                _ => r matches Err(e) && e matches BackerError::Config(_),
            }),
    {
        match self.generate_urls_tiered(target_url) {
            Ok((urls, _root_count)) => Ok(urls),
            Err(e) => Err(e),
        }
    }

    /// Sorts custom pattern lines into the prefix and full-path lists:
    /// trimmed, skipping blank and '#' lines, a line that starts with '.'
    /// or contains '/' joining the full paths and any other the prefixes.
    /// When nothing is configured afterwards, two stock prefixes stand in.
    pub fn add_pattern_lines(&mut self, lines: &Vec<String>)
        ensures
            ({
                let np = old(self).prefixes.deep_view() + prefix_lines(lines.deep_view());
                let nf = old(self).full_paths.deep_view() + full_path_lines(lines.deep_view());
                &&& final(self).full_paths.deep_view() == nf
                &&& (if np.len() == 0 && nf.len() == 0 {
                    final(self).prefixes.deep_view() =~= seq!["backup"@, "bak"@]
                } else {
                    final(self).prefixes.deep_view() == np
                })
                &&& final(self).hard_coded_suffixes == old(self).hard_coded_suffixes
                &&& final(self).domain_placeholders == old(self).domain_placeholders
                &&& final(self).backup_dirs == old(self).backup_dirs
            }),
    {
        let ghost lv = lines.deep_view();
        let ghost p0 = self.prefixes.deep_view();
        let ghost f0 = self.full_paths.deep_view();
        let n = lines.len();
        let mut i: usize = 0;
        proof {
            assert(lv.take(0) =~= Seq::<Seq<char>>::empty());
            assert(p0 + prefix_lines(lv.take(0)) =~= p0);
            assert(f0 + full_path_lines(lv.take(0)) =~= f0);
        }
        while i < n
            invariant
                n == lines@.len(),
                lv == lines.deep_view(),
                i <= n,
                self.prefixes.deep_view() == p0 + prefix_lines(lv.take(i as int)),
                self.full_paths.deep_view() == f0 + full_path_lines(lv.take(i as int)),
                self.hard_coded_suffixes == old(self).hard_coded_suffixes,
                self.domain_placeholders == old(self).domain_placeholders,
                self.backup_dirs == old(self).backup_dirs,
            decreases n - i,
        {
            assert(lv[i as int] == lines@[i as int]@);
            proof {
                assert(lv.take(i + 1) =~= lv.take(i as int).push(lv[i as int]));
                lemma_prefix_lines_snoc(lv.take(i as int), lv[i as int]);
                lemma_full_path_lines_snoc(lv.take(i as int), lv[i as int]);
            }
            let t = trim_exec(lines[i].as_str());
            let tv = chars_of(t.as_str());
            if tv.len() > 0 && tv[0] != '#' {
                if tv[0] == '.' || contains_char(&tv, '/') {
                    let ghost oldf = self.full_paths.deep_view();
                    self.full_paths.push(t);
                    proof {
                        assert(self.full_paths.deep_view() =~= oldf.push(trim_spec(lv[i as int])));
                        assert(self.full_paths.deep_view() =~= f0 + full_path_lines(lv.take(i + 1)));
                        assert(self.prefixes.deep_view() =~= p0 + prefix_lines(lv.take(i + 1)));
                    }
                } else {
                    let ghost oldp = self.prefixes.deep_view();
                    self.prefixes.push(t);
                    proof {
                        assert(self.prefixes.deep_view() =~= oldp.push(trim_spec(lv[i as int])));
                        assert(self.prefixes.deep_view() =~= p0 + prefix_lines(lv.take(i + 1)));
                        assert(self.full_paths.deep_view() =~= f0 + full_path_lines(lv.take(i + 1)));
                    }
                }
            } else {
                proof {
                    assert(self.prefixes.deep_view() =~= p0 + prefix_lines(lv.take(i + 1)));
                    assert(self.full_paths.deep_view() =~= f0 + full_path_lines(lv.take(i + 1)));
                }
            }
            i = i + 1;
        }
        assert(lv.take(n as int) =~= lv);
        if self.prefixes.len() == 0 && self.full_paths.len() == 0 {
            assert((p0 + prefix_lines(lv)).len() == 0);
            assert((f0 + full_path_lines(lv)).len() == 0);
            let mut stock: Vec<String> = Vec::new();
            stock.push(String::from_str("backup"));
            stock.push(String::from_str("bak"));
            self.prefixes = stock;
            assert(self.prefixes.deep_view() =~= seq!["backup"@, "bak"@]);
        }
    }

    /// Appends each trimmed, kept line to the placeholder templates.
    pub fn add_domain_placeholder_lines(&mut self, lines: &Vec<String>)
        ensures
            final(self).domain_placeholders.deep_view() == old(self).domain_placeholders.deep_view()
                + kept_lines(lines.deep_view()),
            final(self).prefixes == old(self).prefixes,
            final(self).full_paths == old(self).full_paths,
            final(self).hard_coded_suffixes == old(self).hard_coded_suffixes,
            final(self).backup_dirs == old(self).backup_dirs,
    {
        let ghost lv = lines.deep_view();
        let ghost d0 = self.domain_placeholders.deep_view();
        let n = lines.len();
        let mut i: usize = 0;
        proof {
            assert(lv.take(0) =~= Seq::<Seq<char>>::empty());
            assert(d0 + kept_lines(lv.take(0)) =~= d0);
        }
        while i < n
            invariant
                n == lines@.len(),
                lv == lines.deep_view(),
                i <= n,
                self.domain_placeholders.deep_view() == d0 + kept_lines(lv.take(i as int)),
                self.prefixes == old(self).prefixes,
                self.full_paths == old(self).full_paths,
                self.hard_coded_suffixes == old(self).hard_coded_suffixes,
                self.backup_dirs == old(self).backup_dirs,
            decreases n - i,
        {
            assert(lv[i as int] == lines@[i as int]@);
            proof {
                assert(lv.take(i + 1) =~= lv.take(i as int).push(lv[i as int]));
                lemma_kept_lines_snoc(lv.take(i as int), lv[i as int]);
            }
            let t = trim_exec(lines[i].as_str());
            let tv = chars_of(t.as_str());
            if tv.len() > 0 && tv[0] != '#' {
                let ghost oldd = self.domain_placeholders.deep_view();
                self.domain_placeholders.push(t);
                proof {
                    assert(self.domain_placeholders.deep_view() =~= oldd.push(
                        trim_spec(lv[i as int]),
                    ));
                    assert(self.domain_placeholders.deep_view() =~= d0 + kept_lines(
                        lv.take(i + 1),
                    ));
                }
            } else {
                assert(self.domain_placeholders.deep_view() =~= d0 + kept_lines(lv.take(i + 1)));
            }
            i = i + 1;
        }
        assert(lv.take(n as int) =~= lv);
    }

    /// All variants of the domain token; see [`variants_seq`].
    pub fn generate_domain_variants(&self, domain: &str) -> (v: Vec<String>)
        ensures
            v.deep_view() == variants_seq(self.domain_placeholders.deep_view(), domain@),
    {
        let ghost f = |p: Seq<char>| replace_seq(p, "{domain}"@, domain@);
        let ghost phs = self.domain_placeholders.deep_view();
        let mut v: Vec<String> = Vec::new();
        v.push(String::from_str(domain));
        assert(v.deep_view() =~= seq![domain@] + phs.take(0).map_values(f));
        let n = self.domain_placeholders.len();
        let mut i: usize = 0;
        proof {
            reveal_strlit("{domain}");
        }
        while i < n
            invariant
                n == self.domain_placeholders@.len(),
                phs == self.domain_placeholders.deep_view(),
                f == (|p: Seq<char>| replace_seq(p, "{domain}"@, domain@)),
                "{domain}"@.len() > 0,
                i <= n,
                v.deep_view() == seq![domain@] + phs.take(i as int).map_values(f),
            decreases n - i,
        {
            assert(phs[i as int] == self.domain_placeholders@[i as int]@);
            let rep = replace_exec(self.domain_placeholders[i].as_str(), "{domain}", domain);
            let ghost olddeep = v.deep_view();
            v.push(rep);
            proof {
                assert(v.deep_view() =~= olddeep.push(f(phs[i as int])));
                assert(phs.take(i + 1).map_values(f) =~= phs.take(i as int).map_values(f).push(
                    f(phs[i as int]),
                ));
                assert(olddeep.push(f(phs[i as int])) =~= seq![domain@] + phs.take(i + 1).map_values(
                    f,
                ));
            }
            i = i + 1;
        }
        assert(phs.take(n as int) =~= phs);
        let clean = retain_alnum(domain);
        if !str_eq_str(clean.as_str(), domain) {
            let ghost olddeep = v.deep_view();
            v.push(clean);
            assert(v.deep_view() =~= olddeep + seq![alnum_filter(domain@)]);
        } else {
            assert(v.deep_view() + Seq::<Seq<char>>::empty() =~= v.deep_view());
        }
        v
    }
}



/// The patterns of a pattern file's lines: each trimmed kept line, or the
/// stock list when no line survives.
pub fn patterns_from_lines(lines: &Vec<String>) -> (pats: Vec<String>)
    ensures
        kept_lines(lines.deep_view()).len() > 0 ==> pats.deep_view() == kept_lines(
            lines.deep_view(),
        ),
        kept_lines(lines.deep_view()).len() == 0 ==> pats.deep_view() == default_patterns(),
{
    let ghost lv = lines.deep_view();
    let mut pats: Vec<String> = Vec::new();
    let n = lines.len();
    let mut i: usize = 0;
    proof {
        assert(lv.take(0) =~= Seq::<Seq<char>>::empty());
        assert(pats.deep_view() =~= kept_lines(lv.take(0)));
    }
    while i < n
        invariant
            n == lines@.len(),
            lv == lines.deep_view(),
            i <= n,
            pats.deep_view() == kept_lines(lv.take(i as int)),
        decreases n - i,
    {
        assert(lv[i as int] == lines@[i as int]@);
        proof {
            assert(lv.take(i + 1) =~= lv.take(i as int).push(lv[i as int]));
            lemma_kept_lines_snoc(lv.take(i as int), lv[i as int]);
        }
        let t = trim_exec(lines[i].as_str());
        let tv = chars_of(t.as_str());
        if tv.len() > 0 && tv[0] != '#' {
            let ghost olddeep = pats.deep_view();
            pats.push(t);
            proof {
                assert(pats.deep_view() =~= olddeep.push(trim_spec(lv[i as int])));
                assert(pats.deep_view() =~= kept_lines(lv.take(i + 1)));
            }
        } else {
            assert(pats.deep_view() =~= kept_lines(lv.take(i + 1)));
        }
        i = i + 1;
    }
    assert(lv.take(n as int) =~= lv);
    if pats.len() == 0 {
        get_default_patterns()
    } else {
        pats
    }
}


/// The registrable root of a host: its last two labels, when it has two.
pub open spec fn root_domain_of(host: Seq<char>) -> Option<Seq<char>> {
    let parts = split_char(host, '.');
    if parts.len() >= 2 {
        Some(parts[parts.len() - 2] + "."@ + parts[parts.len() - 1])
    } else {
        None
    }
}

/// The root domains of every URL that parses to a host of two or more
/// labels, in order, one entry per URL.
pub open spec fn root_domain_list(urls: Seq<Seq<char>>) -> Seq<Seq<char>>
    decreases urls.len(),
{
    if urls.len() == 0 {
        Seq::empty()
    } else {
        (match url_parts(urls[0]) {
            Some((_s, Some(h), _p)) => match root_domain_of(h) {
                Some(d) => seq![d],
                None => Seq::<Seq<char>>::empty(),
            },
            _ => Seq::<Seq<char>>::empty(),
        }) + root_domain_list(urls.drop_first())
    }
}

/// How often `x` occurs in `s`.
pub open spec fn count_of(s: Seq<Seq<char>>, x: Seq<char>) -> nat
    decreases s.len(),
{
    if s.len() == 0 {
        0
    } else {
        (if s[0] == x {
            1nat
        } else {
            0nat
        }) + count_of(s.drop_first(), x)
    }
}

proof fn lemma_root_domain_list_snoc(urls: Seq<Seq<char>>, x: Seq<char>)
    ensures
        root_domain_list(urls.push(x)) =~= root_domain_list(urls) + (match url_parts(x) {
            Some((_s, Some(h), _p)) => match root_domain_of(h) {
                Some(d) => seq![d],
                None => Seq::<Seq<char>>::empty(),
            },
            _ => Seq::<Seq<char>>::empty(),
        }),
    decreases urls.len(),
{
    if urls.len() == 0 {
        assert(urls.push(x)[0] == x);
        assert(urls.push(x).drop_first() =~= urls);
    } else {
        assert(urls.push(x)[0] == urls[0]);
        assert(urls.push(x).drop_first() =~= urls.drop_first().push(x));
        lemma_root_domain_list_snoc(urls.drop_first(), x);
    }
}

proof fn lemma_count_of_index(s: Seq<Seq<char>>, i: int)
    requires
        0 <= i < s.len(),
    ensures
        count_of(s, s[i]) >= 1,
    decreases i,
{
    if i > 0 {
        assert(forall|k: int| 0 <= k < s.drop_first().len() ==> s.drop_first()[k] == s[k + 1]);
        lemma_count_of_index(s.drop_first(), i - 1);
    }
}

/// How often `x` occurs in the strings of `v`.
fn count_occurrences(v: &Vec<String>, x: &String) -> (c: usize)
    ensures
        c == count_of(v.deep_view(), x@),
{
    let ghost dv = v.deep_view();
    let n = v.len();
    let mut c: usize = 0;
    let mut i: usize = 0;
    proof {
        assert(dv.skip(0) =~= dv);
    }
    while i < n
        invariant
            n == v@.len(),
            dv == v.deep_view(),
            i <= n,
            c <= i,
            c + count_of(dv.skip(i as int), x@) == count_of(dv, x@),
        decreases n - i,
    {
        proof {
            assert(dv.skip(i as int)[0] == dv[i as int]);
            assert(dv.skip(i as int).drop_first() =~= dv.skip(i + 1));
            assert(dv[i as int] == v@[i as int]@);
        }
        if str_eq_str(v[i].as_str(), x.as_str()) {
            c = c + 1;
        }
        i = i + 1;
    }
    assert(dv.skip(n as int) =~= Seq::<Seq<char>>::empty());
    c
}

/// The most frequent registrable root domain among `urls`: a domain of the
/// list whose count no other member exceeds, or nothing when no URL parses
/// to a host of at least two labels.
pub fn extract_common_root_domain(urls: &Vec<String>) -> (r: Option<String>)
    ensures
        root_domain_list(urls.deep_view()).len() == 0 ==> r is None,
        root_domain_list(urls.deep_view()).len() > 0 ==> (r matches Some(d) && root_domain_list(
            urls.deep_view(),
        ).contains(d@) && (forall|x: Seq<char>|
            root_domain_list(urls.deep_view()).contains(x) ==> count_of(
                root_domain_list(urls.deep_view()),
                x,
            ) <= count_of(root_domain_list(urls.deep_view()), d@))),
{
    let ghost uv = urls.deep_view();
    let mut domains: Vec<String> = Vec::new();
    let n = urls.len();
    let mut i: usize = 0;
    proof {
        assert(uv.take(0) =~= Seq::<Seq<char>>::empty());
        assert(domains.deep_view() =~= root_domain_list(uv.take(0)));
    }
    while i < n
        invariant
            n == urls@.len(),
            uv == urls.deep_view(),
            i <= n,
            domains.deep_view() == root_domain_list(uv.take(i as int)),
        decreases n - i,
    {
        assert(uv[i as int] == urls@[i as int]@);
        proof {
            assert(uv.take(i + 1) =~= uv.take(i as int).push(uv[i as int]));
            lemma_root_domain_list_snoc(uv.take(i as int), uv[i as int]);
        }
        match parse_url_parts(urls[i].as_str()) {
            Some((_s, Some(host), _p)) => {
                let parts = split_dots(host.as_str());
                let len = parts.len();
                assert(parts.deep_view().len() == len);
                if len >= 2 {
                    assert(parts.deep_view()[len - 2] == parts@[len - 2]@);
                    assert(parts.deep_view()[len - 1] == parts@[len - 1]@);
                    let mut d = parts[len - 2].clone();
                    d.append(".");
                    d.append(parts[len - 1].as_str());
                    let ghost olddeep = domains.deep_view();
                    domains.push(d);
                    proof {
                        assert(domains.deep_view() =~= olddeep.push(
                            parts.deep_view()[len - 2] + "."@ + parts.deep_view()[len - 1],
                        ));
                        assert(domains.deep_view() =~= root_domain_list(uv.take(i + 1)));
                    }
                } else {
                    assert(domains.deep_view() =~= root_domain_list(uv.take(i + 1)));
                }
            },
            _ => {
                assert(domains.deep_view() =~= root_domain_list(uv.take(i + 1)));
            },
        }
        i = i + 1;
    }
    assert(uv.take(n as int) =~= uv);
    let ghost dl = domains.deep_view();
    let m = domains.len();
    if m == 0 {
        return None;
    }
    let mut best: usize = 0;
    let mut best_count = count_occurrences(&domains, &domains[0]);
    let mut j: usize = 1;
    proof {
        assert(dl[0] == domains@[0]@);
    }
    while j < m
        invariant
            m == domains@.len(),
            dl == domains.deep_view(),
            m > 0,
            best < m,
            j <= m,
            best_count == count_of(dl, dl[best as int]),
            forall|k: int| 0 <= k < j ==> count_of(dl, #[trigger] dl[k]) <= best_count,
        decreases m - j,
    {
        assert(dl[j as int] == domains@[j as int]@);
        let c = count_occurrences(&domains, &domains[j]);
        if c > best_count {
            best = j;
            best_count = c;
        }
        j = j + 1;
    }
    assert(dl[best as int] == domains@[best as int]@);
    let d = domains[best].clone();
    proof {
        lemma_count_of_index(dl, best as int);
        assert forall|x: Seq<char>| dl.contains(x) implies count_of(dl, x) <= count_of(
            dl,
            d@,
        ) by {
            let k = choose|k: int| 0 <= k < dl.len() && dl[k] == x;
            assert(count_of(dl, dl[k]) <= best_count);
        }
        assert(dl.contains(d@));
    }
    Some(d)
}

/// The stock pattern list used when no custom pattern file is given.
pub open spec fn default_patterns() -> Seq<Seq<char>> {
    seq![
        "backup.zip"@,
        "backup.tar.gz"@,
        "backup.sql"@,
        "backup.bak"@,
        "www.zip"@,
        "www.tar.gz"@,
        "site.zip"@,
        "site.tar.gz"@,
        "website.zip"@,
        "db.sql"@,
        "database.sql"@,
        "data.sql"@,
        "dump.sql"@,
        "backup.old"@,
        "backup.rar"@,
        "db.zip"@,
        "db.tar.gz"@,
    ]
}

/// The stock pattern list; see [`default_patterns`].
pub fn get_default_patterns() -> (v: Vec<String>)
    ensures
        v.deep_view() == default_patterns(),
{
    let v: Vec<String> = vec![
        String::from_str("backup.zip"),
        String::from_str("backup.tar.gz"),
        String::from_str("backup.sql"),
        String::from_str("backup.bak"),
        String::from_str("www.zip"),
        String::from_str("www.tar.gz"),
        String::from_str("site.zip"),
        String::from_str("site.tar.gz"),
        String::from_str("website.zip"),
        String::from_str("db.sql"),
        String::from_str("database.sql"),
        String::from_str("data.sql"),
        String::from_str("dump.sql"),
        String::from_str("backup.old"),
        String::from_str("backup.rar"),
        String::from_str("db.zip"),
        String::from_str("db.tar.gz"),
    ];
    assert(v.deep_view() =~= default_patterns());
    v
}

/// The shape of the generator that `generate_backup_urls` builds: the stock
/// catalog with `patterns` sorted in by shape, a pattern that starts with
/// '.' or contains '/' standing as a full path and any other as a prefix.
pub open spec fn patterns_model(pats: Seq<Seq<char>>) -> GenSpec {
    GenSpec {
        prefixes: prefix_patterns(pats),
        full_paths: full_path_patterns(pats),
        suffixes: default_suffixes(),
        placeholders: default_placeholders(),
        dirs: default_backup_dirs(),
    }
}

/// A generator holding the stock catalog with `patterns` sorted in by
/// shape; see [`patterns_model`].
pub fn patterns_generator(patterns: &Vec<String>) -> (g: PatternGenerator)
    ensures
        gen_model(g) == patterns_model(patterns.deep_view()),
{
    let ghost pv = patterns.deep_view();
    let mut generator = PatternGenerator::new();
    let n = patterns.len();
    let mut i: usize = 0;
    proof {
        assert(pv.take(0) =~= Seq::<Seq<char>>::empty());
        assert(generator.prefixes.deep_view() =~= prefix_patterns(pv.take(0)));
        assert(generator.full_paths.deep_view() =~= full_path_patterns(pv.take(0)));
    }
    while i < n
        invariant
            n == patterns@.len(),
            pv == patterns.deep_view(),
            i <= n,
            generator.prefixes.deep_view() == prefix_patterns(pv.take(i as int)),
            generator.full_paths.deep_view() == full_path_patterns(pv.take(i as int)),
            generator.hard_coded_suffixes.deep_view() == default_suffixes(),
            generator.domain_placeholders.deep_view() == default_placeholders(),
            generator.backup_dirs.deep_view() == default_backup_dirs(),
        decreases n - i,
    {
        assert(pv[i as int] == patterns@[i as int]@);
        proof {
            assert(pv.take(i + 1) =~= pv.take(i as int).push(pv[i as int]));
            lemma_pattern_routing_snoc(pv.take(i as int), pv[i as int]);
        }
        let tv = chars_of(patterns[i].as_str());
        if tv.len() > 0 && (tv[0] == '.' || contains_char(&tv, '/')) {
            let ghost oldf = generator.full_paths.deep_view();
            generator.full_paths.push(patterns[i].clone());
            proof {
                assert(generator.full_paths.deep_view() =~= oldf.push(pv[i as int]));
                assert(generator.full_paths.deep_view() =~= full_path_patterns(pv.take(i + 1)));
                assert(generator.prefixes.deep_view() =~= prefix_patterns(pv.take(i + 1)));
            }
        } else {
            let ghost oldp = generator.prefixes.deep_view();
            generator.prefixes.push(patterns[i].clone());
            proof {
                assert(generator.prefixes.deep_view() =~= oldp.push(pv[i as int]));
                assert(generator.prefixes.deep_view() =~= prefix_patterns(pv.take(i + 1)));
                assert(generator.full_paths.deep_view() =~= full_path_patterns(pv.take(i + 1)));
            }
        }
        i = i + 1;
    }
    proof {
        assert(pv.take(n as int) =~= pv);
        assert(gen_model(generator) == patterns_model(pv));
    }
    generator
}

/// The candidate list for `target` under `patterns`: the full generator's
/// list when the target parses with a host, the fall-back list when it
/// parses without one, and nothing when it does not parse.
pub fn generate_backup_urls(target: &str, patterns: &Vec<String>) -> (urls: Vec<String>)
    ensures
        (match url_parts(target@) {
            Some((scheme, Some(host), _port)) => urls.deep_view() == candidate_set(
                patterns_model(patterns.deep_view()),
                scheme,
                host,
            ),
            Some((scheme, None, _port)) => urls.deep_view() == simple_candidates(
                scheme + "://"@,
                patterns.deep_view(),
            ),
            None => urls.deep_view() == Seq::<Seq<char>>::empty(),
        }),
{
    let generator = patterns_generator(patterns);
    match generator.generate_urls(target) {
        Ok(urls) => urls,
        Err(_) => generate_simple_backup_urls(target, patterns),
    }
}

/// The fall-back candidate list: each pattern directly under the root and
/// under a fixed handful of likely directories. Yields nothing when the
/// target does not parse.
pub fn generate_simple_backup_urls(target: &str, patterns: &Vec<String>) -> (urls: Vec<String>)
    ensures
        (match url_parts(target@) {
            Some((scheme, host_opt, _port)) => urls.deep_view() == simple_candidates(
                scheme + "://"@ + (match host_opt {
                    Some(h) => h,
                    None => Seq::<char>::empty(),
                }),
                patterns.deep_view(),
            ),
            None => urls.deep_view() == Seq::<Seq<char>>::empty(),
        }),
{
    let ghost pv = patterns.deep_view();
    let mut urls: Vec<String> = Vec::new();
    match parse_url_parts(target) {
        None => {
            assert(urls.deep_view() =~= Seq::<Seq<char>>::empty());
            urls
        },
        Some((scheme, host_opt, _port)) => {
            let mut base = scheme;
            base.append("://");
            match &host_opt {
                Some(h) => base.append(h.as_str()),
                None => (),
            }
            let n = patterns.len();
            let mut i: usize = 0;
            proof {
                assert(urls.deep_view() =~= with_base(base@, pv.take(0)));
            }
            while i < n
                invariant
                    n == patterns@.len(),
                    pv == patterns.deep_view(),
                    i <= n,
                    urls.deep_view() == with_base(base@, pv.take(i as int)),
                decreases n - i,
            {
                assert(pv[i as int] == patterns@[i as int]@);
                let url = join_root(base.as_str(), &patterns[i]);
                let ghost olddeep = urls.deep_view();
                urls.push(url);
                proof {
                    assert(urls.deep_view() =~= olddeep.push(base@ + "/"@ + pv[i as int]));
                    assert(urls.deep_view() =~= with_base(base@, pv.take(i + 1)));
                }
                i = i + 1;
            }
            proof {
                assert(pv.take(n as int) =~= pv);
            }
            let ghost a1 = with_base(base@, pv);
            let dirs: Vec<String> = vec![
                String::from_str("backup"),
                String::from_str("bak"),
                String::from_str("old"),
                String::from_str("archive"),
                String::from_str("db"),
                String::from_str("data"),
            ];
            let ghost dv = dirs.deep_view();
            assert(dv =~= simple_dirs());
            let nd = dirs.len();
            let mut k: usize = 0;
            proof {
                assert(dv.take(0) =~= Seq::<Seq<char>>::empty());
                assert(dir_candidates(dv.take(0), base@, pv) =~= Seq::<Seq<char>>::empty());
                assert(urls.deep_view() + dir_candidates(dv.take(0), base@, pv) =~= urls.deep_view());
            }
            while k < nd
                invariant
                    nd == dirs@.len(),
                    pv == patterns.deep_view(),
                    dv == dirs.deep_view(),
                    k <= nd,
                    urls.deep_view() == a1 + dir_candidates(dv.take(k as int), base@, pv),
                decreases nd - k,
            {
                let ghost dir = dv[k as int];
                assert(dir == dirs@[k as int]@);
                proof {
                    assert(dv.take(k + 1) =~= dv.take(k as int).push(dir));
                    lemma_dir_candidates_snoc(dv.take(k as int), base@, pv, dir);
                }
                let ghost mapped = pv.map_values(|t: Seq<char>| base@ + "/"@ + dir + "/"@ + t);
                let n2 = patterns.len();
                let mut i: usize = 0;
                proof {
                    assert(mapped.take(0) =~= Seq::<Seq<char>>::empty());
                    assert(urls.deep_view() + mapped.take(0) =~= urls.deep_view());
                }
                while i < n2
                    invariant
                        n2 == patterns@.len(),
                        pv == patterns.deep_view(),
                        dv == dirs.deep_view(),
                        k < nd == dirs@.len(),
                        dir == dirs@[k as int]@,
                        mapped == pv.map_values(|t: Seq<char>| base@ + "/"@ + dir + "/"@ + t),
                        i <= n2,
                        urls.deep_view() == a1 + dir_candidates(dv.take(k as int), base@, pv)
                            + mapped.take(i as int),
                    decreases n2 - i,
                {
                    assert(pv[i as int] == patterns@[i as int]@);
                    let url = join_dir(base.as_str(), &dirs[k], &patterns[i]);
                    let ghost olddeep = urls.deep_view();
                    urls.push(url);
                    proof {
                        assert(urls.deep_view() =~= olddeep.push(
                            base@ + "/"@ + dir + "/"@ + pv[i as int],
                        ));
                        assert(mapped.take(i + 1) =~= mapped.take(i as int).push(mapped[i as int]));
                        assert(urls.deep_view() =~= a1 + dir_candidates(dv.take(k as int), base@, pv)
                            + mapped.take(i + 1));
                    }
                    i = i + 1;
                }
                proof {
                    assert(mapped.take(n2 as int) =~= mapped);
                    assert(urls.deep_view() =~= a1 + (dir_candidates(dv.take(k as int), base@, pv)
                        + mapped));
                    assert(urls.deep_view() =~= a1 + dir_candidates(dv.take(k + 1), base@, pv));
                }
                k = k + 1;
            }
            proof {
                assert(dv.take(nd as int) =~= dv);
            }
            urls
        },
    }
}


/// How many path separators a URL holds.
pub open spec fn slash_count(s: Seq<char>) -> nat
    decreases s.len(),
{
    if s.len() == 0 {
        0
    } else {
        (if s[0] == '/' {
            1nat
        } else {
            0nat
        }) + slash_count(s.drop_first())
    }
}

pub proof fn lemma_slash_count_concat(a: Seq<char>, b: Seq<char>)
    ensures
        slash_count(a + b) == slash_count(a) + slash_count(b),
    decreases a.len(),
{
    if a.len() == 0 {
        assert(a + b =~= b);
    } else {
        assert((a + b)[0] == a[0]);
        assert((a + b).drop_first() =~= a.drop_first() + b);
        lemma_slash_count_concat(a.drop_first(), b);
    }
}

pub proof fn lemma_no_slash_count_zero(s: Seq<char>)
    requires
        !s.contains('/'),
    ensures
        slash_count(s) == 0,
    decreases s.len(),
{
    if s.len() > 0 {
        assert(s[0] != '/');
        assert(forall|k: int| 0 <= k < s.drop_first().len() ==> s.drop_first()[k] == s[k + 1]);
        lemma_no_slash_count_zero(s.drop_first());
    }
}

/// A directory-tier URL carries exactly one path segment more than the
/// root-tier URL built from the same base and name: the backup directory,
/// which itself holds no separator, adds exactly one.
pub proof fn lemma_dir_url_one_more_segment(base: Seq<char>, dir: Seq<char>, name: Seq<char>)
    requires
        !dir.contains('/'),
    ensures
        slash_count(base + "/"@ + dir + "/"@ + name) == slash_count(base + "/"@ + name) + 1,
{
    reveal_strlit("/");
    assert("/"@ =~= seq!['/']);
    let s = seq!['/'];
    assert(s.drop_first() =~= Seq::<char>::empty());
    assert(s[0] == '/');
    assert(slash_count(s.drop_first()) == 0);
    assert(slash_count(s) == 1);
    assert(slash_count("/"@) == 1);
    lemma_no_slash_count_zero(dir);
    lemma_slash_count_concat(base, "/"@);
    lemma_slash_count_concat(base + "/"@, dir);
    lemma_slash_count_concat(base + "/"@ + dir, "/"@);
    lemma_slash_count_concat(base + "/"@ + dir + "/"@, name);
    lemma_slash_count_concat(base + "/"@, name);
}


/// Every directory-tier candidate is `base`/dir/name for one configured
/// backup directory and one directory-tier name; since no configured
/// directory name carries a path separator, the candidate holds exactly
/// one more path segment than `base`/name, the root-tier URL built from
/// the same name.
pub proof fn lemma_dir_candidate_form(
    dirs: Seq<Seq<char>>,
    base: Seq<char>,
    names: Seq<Seq<char>>,
    i: int,
)
    requires
        0 <= i < dir_candidates(dirs, base, names).len(),
        forall|k: int| 0 <= k < dirs.len() ==> !(#[trigger] dirs[k]).contains('/'),
    ensures
        exists|k: int, j: int|
            #![trigger dirs[k], names[j]]
            {
                &&& 0 <= k < dirs.len()
                &&& 0 <= j < names.len()
                &&& dir_candidates(dirs, base, names)[i] == base + "/"@ + dirs[k] + "/"@
                    + names[j]
                &&& slash_count(dir_candidates(dirs, base, names)[i]) == slash_count(
                    base + "/"@ + names[j],
                ) + 1
            },
    decreases dirs.len(),
{
    let out = dir_candidates(dirs, base, names);
    let head = names.map_values(|t: Seq<char>| base + "/"@ + dirs[0] + "/"@ + t);
    if i < head.len() {
        assert(out[i] == head[i]);
        assert(head[i] == base + "/"@ + dirs[0] + "/"@ + names[i]);
        lemma_dir_url_one_more_segment(base, dirs[0], names[i]);
        assert(0 <= 0 < dirs.len() && 0 <= i < names.len() && out[i] == base + "/"@ + dirs[0]
            + "/"@ + names[i] && slash_count(out[i]) == slash_count(base + "/"@ + names[i]) + 1);
    } else {
        let rest = dirs.drop_first();
        assert(forall|k: int| 0 <= k < rest.len() ==> #[trigger] rest[k] == dirs[k + 1]);
        lemma_dir_candidate_form(rest, base, names, i - names.len());
        let (k, j) = choose|k: int, j: int|
            #![trigger rest[k], names[j]]
            {
                &&& 0 <= k < rest.len()
                &&& 0 <= j < names.len()
                &&& dir_candidates(rest, base, names)[i - names.len()] == base + "/"@ + rest[k]
                    + "/"@ + names[j]
                &&& slash_count(dir_candidates(rest, base, names)[i - names.len()])
                    == slash_count(base + "/"@ + names[j]) + 1
            };
        assert(out[i] == dir_candidates(rest, base, names)[i - names.len()]);
        assert(dirs[k + 1] == rest[k]);
        assert(0 <= k + 1 < dirs.len() && 0 <= j < names.len() && out[i] == base + "/"@ + dirs[k
            + 1] + "/"@ + names[j] && slash_count(out[i]) == slash_count(base + "/"@ + names[j])
            + 1);
    }
}

/// The root tier and the directory tier of one generated candidate list
/// never share a URL: the list holds no duplicate, so the part before the
/// tier boundary is disjoint from the part after it.
pub proof fn lemma_tiers_disjoint(urls: Seq<Seq<char>>, root_count: int)
    requires
        urls.no_duplicates(),
        0 <= root_count <= urls.len(),
    ensures
        forall|i: int, j: int|
            0 <= i < root_count && root_count <= j < urls.len() ==> urls[i] != urls[j],
{
}

} // verus!
