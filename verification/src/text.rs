//! Verified text helpers: character access, case-insensitive matching,
//! searching, splitting and decimal formatting over `Seq<char>` views.
use vstd::prelude::*;

verus! {

/// ASCII lowercase of one character; everything outside 'A'..='Z' is unchanged.
pub open spec fn lower_char(c: char) -> char {
    if 'A' <= c && c <= 'Z' {
        ((c as u8) + 32) as char
    } else {
        c
    }
}

/// ASCII lowercase of a character sequence.
pub open spec fn lower(s: Seq<char>) -> Seq<char> {
    s.map_values(|c: char| lower_char(c))
}

/// `suffix` ends `s`.
pub open spec fn ends_with(s: Seq<char>, suffix: Seq<char>) -> bool {
    suffix.len() <= s.len() && s.subrange(s.len() - suffix.len(), s.len() as int) == suffix
}

/// `prefix` starts `s`.
pub open spec fn starts_with(s: Seq<char>, prefix: Seq<char>) -> bool {
    prefix.len() <= s.len() && s.subrange(0, prefix.len() as int) == prefix
}

/// `needle` occurs somewhere in `s`.
pub open spec fn contains_seq(s: Seq<char>, needle: Seq<char>) -> bool {
    exists|i: int|
        0 <= i && i + needle.len() <= s.len() && #[trigger] s.subrange(i, i + needle.len())
            == needle
}

/// The characters of `s`, one by one.
pub fn chars_of(s: &str) -> (v: Vec<char>)
    ensures
        v@ == s@,
{
    let n = s.unicode_len();
    let mut v: Vec<char> = Vec::new();
    let mut i: usize = 0;
    while i < n
        invariant
            n == s@.len(),
            i <= n,
            v@ == s@.take(i as int),
        decreases n - i,
    {
        v.push(s.get_char(i));
        assert(s@.take(i + 1 as int) =~= s@.take(i as int).push(s@[i as int]));
        i = i + 1;
    }
    assert(s@.take(n as int) =~= s@);
    v
}

/// Lowercase form of one character, executable.
pub fn lower_char_exec(c: char) -> (r: char)
    ensures
        r == lower_char(c),
{
    if 'A' <= c && c <= 'Z' {
        ((c as u8) + 32) as char
    } else {
        c
    }
}

/// Whether the characters of `s` at offset `at` match `needle` after ASCII
/// lowercasing of `s`.
fn match_at_ci(s: &Vec<char>, needle: &Vec<char>, at: usize) -> (b: bool)
    requires
        at + needle@.len() <= s@.len(),
    ensures
        b == (lower(s@).subrange(at as int, at + needle@.len()) == needle@),
{
    let n = needle.len();
    let slen = s.len();
    let mut j: usize = 0;
    while j < n
        invariant
            n == needle@.len(),
            slen == s@.len(),
            at + n <= slen,
            j <= n,
            forall|k: int| 0 <= k < j ==> lower_char(s@[at + k]) == needle@[k],
        decreases n - j,
    {
        if lower_char_exec(s[at + j]) != needle[j] {
            assert(lower(s@).subrange(at as int, at + needle@.len())[j as int] == lower_char(
                s@[at + j],
            ));
            return false;
        }
        j = j + 1;
    }
    assert(lower(s@).subrange(at as int, at + needle@.len()) =~= needle@);
    true
}

/// `s` ends with `suffix`, comparing case-insensitively on `s`.
pub fn ends_with_ci(s: &Vec<char>, suffix: &Vec<char>) -> (b: bool)
    ensures
        b == ends_with(lower(s@), suffix@),
{
    if suffix.len() > s.len() {
        return false;
    }
    let at = s.len() - suffix.len();
    let b = match_at_ci(s, suffix, at);
    assert(lower(s@).subrange(at as int, at + suffix@.len()) == lower(s@).subrange(
        lower(s@).len() - suffix@.len(),
        lower(s@).len() as int,
    ));
    b
}

/// `s` ends with `suffix`, exact comparison.
pub fn ends_with_exec(s: &Vec<char>, suffix: &Vec<char>) -> (b: bool)
    ensures
        b == ends_with(s@, suffix@),
{
    if suffix.len() > s.len() {
        return false;
    }
    let at = s.len() - suffix.len();
    let b = match_at_exact(s, suffix, at);
    assert(s@.subrange(at as int, at + suffix@.len()) == s@.subrange(
        s@.len() - suffix@.len(),
        s@.len() as int,
    ));
    b
}

/// `needle` occurs in `s`, comparing case-insensitively on `s`.
pub fn contains_ci(s: &Vec<char>, needle: &Vec<char>) -> (b: bool)
    ensures
        b == contains_seq(lower(s@), needle@),
{
    if needle.len() == 0 {
        proof {
            assert(lower(s@).subrange(0, 0 + needle@.len() as int) =~= needle@);
            assert(contains_seq(lower(s@), needle@));
        }
        return true;
    }
    if needle.len() > s.len() {
        return false;
    }
    let count = s.len() - needle.len() + 1;
    let mut i: usize = 0;
    while i < count
        invariant
            1 <= needle@.len() <= s@.len(),
            count == s@.len() - needle@.len() + 1,
            i <= count,
            forall|k: int|
                0 <= k < i ==> #[trigger] lower(s@).subrange(k, k + needle@.len()) != needle@,
        decreases count - i,
    {
        if match_at_ci(s, needle, i) {
            return true;
        }
        i = i + 1;
    }
    false
}

/// `needle` occurs in `s`, exact comparison.
pub fn contains_exact(s: &Vec<char>, needle: &Vec<char>) -> (b: bool)
    ensures
        b == contains_seq(s@, needle@),
{
    if needle.len() == 0 {
        proof {
            assert(s@.subrange(0, 0 + needle@.len() as int) =~= needle@);
            assert(contains_seq(s@, needle@));
        }
        return true;
    }
    if needle.len() > s.len() {
        return false;
    }
    let count = s.len() - needle.len() + 1;
    let mut i: usize = 0;
    while i < count
        invariant
            1 <= needle@.len() <= s@.len(),
            count == s@.len() - needle@.len() + 1,
            i <= count,
            forall|k: int| 0 <= k < i ==> #[trigger] s@.subrange(k, k + needle@.len()) != needle@,
        decreases count - i,
    {
        if match_at_exact(s, needle, i) {
            return true;
        }
        i = i + 1;
    }
    false
}

/// The two strings read the same.
pub fn str_eq_str(a: &str, b: &str) -> (r: bool)
    ensures
        r == (a@ == b@),
{
    let av = chars_of(a);
    let bv = chars_of(b);
    if av.len() != bv.len() {
        return false;
    }
    let m = match_at_exact(&av, &bv, 0);
    assert(a@.subrange(0, 0 + b@.len() as int) =~= a@);
    m
}

/// `s` contains the character `c`.
pub fn contains_char(s: &Vec<char>, c: char) -> (b: bool)
    ensures
        b == s@.contains(c),
{
    let n = s.len();
    let mut i: usize = 0;
    while i < n
        invariant
            n == s@.len(),
            i <= n,
            forall|k: int| 0 <= k < i ==> s@[k] != c,
        decreases n - i,
    {
        if s[i] == c {
            return true;
        }
        i = i + 1;
    }
    false
}

/// The characters of `s` after its last '/', or all of `s` when it has none.
pub open spec fn after_last_slash(s: Seq<char>) -> Seq<char>
    decreases s.len(),
{
    if s.len() == 0 {
        s
    } else if s.last() == '/' {
        Seq::empty()
    } else {
        after_last_slash(s.drop_last()).push(s.last())
    }
}

/// `s` with every leading repetition of `pat` removed.
pub open spec fn strip_prefix_repeated(s: Seq<char>, pat: Seq<char>) -> Seq<char>
    decreases s.len(),
{
    if pat.len() > 0 && starts_with(s, pat) {
        strip_prefix_repeated(s.skip(pat.len() as int), pat)
    } else {
        s
    }
}

/// `s` with every trailing `c` removed.
pub open spec fn strip_suffix_char(s: Seq<char>, c: char) -> Seq<char>
    decreases s.len(),
{
    if s.len() > 0 && s.last() == c {
        strip_suffix_char(s.drop_last(), c)
    } else {
        s
    }
}

/// ASCII whitespace.
pub open spec fn is_ascii_ws(c: char) -> bool {
    c == ' ' || c == '\t' || c == '\r' || c == '\n'
}

/// `s` without leading ASCII whitespace.
pub open spec fn trim_start_spec(s: Seq<char>) -> Seq<char>
    decreases s.len(),
{
    if s.len() > 0 && is_ascii_ws(s[0]) {
        trim_start_spec(s.drop_first())
    } else {
        s
    }
}

/// `s` without trailing ASCII whitespace.
pub open spec fn trim_end_spec(s: Seq<char>) -> Seq<char>
    decreases s.len(),
{
    if s.len() > 0 && is_ascii_ws(s.last()) {
        trim_end_spec(s.drop_last())
    } else {
        s
    }
}

/// `s` without leading and trailing ASCII whitespace.
pub open spec fn trim_spec(s: Seq<char>) -> Seq<char> {
    trim_end_spec(trim_start_spec(s))
}

/// Leftmost, non-overlapping replacement of `pat` by `repl` throughout `s`.
pub open spec fn replace_seq(s: Seq<char>, pat: Seq<char>, repl: Seq<char>) -> Seq<char>
    decreases s.len(),
{
    if pat.len() == 0 || s.len() < pat.len() {
        s
    } else if s.subrange(0, pat.len() as int) == pat {
        repl + replace_seq(s.skip(pat.len() as int), pat, repl)
    } else {
        s.take(1) + replace_seq(s.skip(1), pat, repl)
    }
}

/// Decimal digit character for `d` < 10.
pub open spec fn digit_char(d: int) -> char {
    (('0' as u8) + d) as char
}

/// Decimal representation of `n`, most significant digit first.
pub open spec fn dec_rep(n: nat) -> Seq<char>
    decreases n,
{
    if n < 10 {
        seq![digit_char(n as int)]
    } else {
        dec_rep(n / 10).push(digit_char((n % 10) as int))
    }
}

/// `prefix` starts `s`, exact comparison.
pub fn starts_with_exec(s: &Vec<char>, prefix: &Vec<char>) -> (b: bool)
    ensures
        b == starts_with(s@, prefix@),
{
    let n = prefix.len();
    if n > s.len() {
        return false;
    }
    let mut j: usize = 0;
    while j < n
        invariant
            n == prefix@.len(),
            n <= s@.len(),
            j <= n,
            forall|k: int| 0 <= k < j ==> s@[k] == prefix@[k],
        decreases n - j,
    {
        if s[j] != prefix[j] {
            assert(s@.subrange(0, n as int)[j as int] == s@[j as int]);
            return false;
        }
        j = j + 1;
    }
    assert(s@.subrange(0, n as int) =~= prefix@);
    true
}

/// Whether the characters of `s` at offset `at` match `needle` exactly.
pub(crate) fn match_at_exact(s: &Vec<char>, needle: &Vec<char>, at: usize) -> (b: bool)
    requires
        at + needle@.len() <= s@.len(),
    ensures
        b == (s@.subrange(at as int, at + needle@.len()) == needle@),
{
    let n = needle.len();
    let slen = s.len();
    let mut j: usize = 0;
    while j < n
        invariant
            n == needle@.len(),
            slen == s@.len(),
            at + n <= slen,
            j <= n,
            forall|k: int| 0 <= k < j ==> s@[at + k] == needle@[k],
        decreases n - j,
    {
        if s[at + j] != needle[j] {
            assert(s@.subrange(at as int, at + needle@.len())[j as int] == s@[at + j]);
            return false;
        }
        j = j + 1;
    }
    assert(s@.subrange(at as int, at + needle@.len()) =~= needle@);
    true
}

proof fn lemma_after_last_slash_skip(s: Seq<char>, j: int)
    requires
        0 <= j <= s.len(),
        forall|k: int| j <= k < s.len() ==> s[k] != '/',
        j > 0 ==> s[j - 1] == '/',
    ensures
        after_last_slash(s) == s.skip(j),
    decreases s.len(),
{
    if s.len() == 0 {
        assert(s.skip(0) =~= s);
    } else if s.last() == '/' {
        assert(j == s.len());
        assert(s.skip(j) =~= Seq::<char>::empty());
    } else {
        assert(j < s.len());
        lemma_after_last_slash_skip(s.drop_last(), j);
        assert(s.drop_last().skip(j).push(s.last()) =~= s.skip(j));
    }
}

/// The trailing path segment of `s`: everything after the last '/'.
pub fn after_last_slash_exec(s: &str) -> (r: String)
    ensures
        r@ == after_last_slash(s@),
{
    let sv = chars_of(s);
    let n = sv.len();
    let mut j: usize = n;
    while j > 0
        invariant
            n == s@.len(),
            sv@ == s@,
            j <= n,
            forall|k: int| j <= k < n ==> s@[k] != '/',
        ensures
            j <= n,
            forall|k: int| j <= k < n ==> s@[k] != '/',
            j > 0 ==> s@[j - 1] == '/',
        decreases j,
    {
        if sv[j - 1] == '/' {
            break;
        }
        j = j - 1;
    }
    proof {
        lemma_after_last_slash_skip(s@, j as int);
    }
    let r = s.substring_char(j, n);
    assert(r@ =~= s@.skip(j as int));
    String::from_str(r)
}

/// `s` with every leading repetition of `pat` removed.
pub fn strip_prefix_repeated_exec(s: &str, pat: &str) -> (r: String)
    requires
        pat@.len() > 0,
    ensures
        r@ == strip_prefix_repeated(s@, pat@),
{
    let sv = chars_of(s);
    let pv = chars_of(pat);
    let n = sv.len();
    let p = pv.len();
    let mut i: usize = 0;
    assert(s@.skip(0) =~= s@);
    while n - i >= p && match_at_exact(&sv, &pv, i)
        invariant
            n == s@.len(),
            p == pat@.len(),
            p > 0,
            sv@ == s@,
            pv@ == pat@,
            i <= n,
            strip_prefix_repeated(s@, pat@) == strip_prefix_repeated(s@.skip(i as int), pat@),
        decreases n - i,
    {
        proof {
            let rest = s@.skip(i as int);
            assert(rest.subrange(0, pat@.len() as int) =~= s@.subrange(i as int, i + pat@.len()));
            assert(starts_with(rest, pat@));
            assert(rest.skip(pat@.len() as int) =~= s@.skip(i + pat@.len()));
        }
        i = i + p;
    }
    proof {
        let rest = s@.skip(i as int);
        if i + p <= n {
            assert(rest.subrange(0, pat@.len() as int) =~= s@.subrange(i as int, i + pat@.len()));
        }
        assert(!starts_with(rest, pat@));
    }

    let r = s.substring_char(i, n);
    assert(r@ =~= s@.skip(i as int));
    String::from_str(r)
}

/// `s` with every trailing `c` removed.
pub fn strip_suffix_char_exec(s: &str, c: char) -> (r: String)
    ensures
        r@ == strip_suffix_char(s@, c),
{
    let sv = chars_of(s);
    let n = sv.len();
    let mut j: usize = n;
    assert(s@.take(n as int) =~= s@);
    while j > 0 && sv[j - 1] == c
        invariant
            n == s@.len(),
            sv@ == s@,
            j <= n,
            strip_suffix_char(s@, c) == strip_suffix_char(s@.take(j as int), c),
        decreases j,
    {
        proof {
            let t = s@.take(j as int);
            assert(t.drop_last() =~= s@.take(j - 1));
        }
        j = j - 1;
    }
    let r = s.substring_char(0, j);
    assert(r@ =~= s@.take(j as int));
    String::from_str(r)
}

/// `s` without leading and trailing ASCII whitespace.
pub fn trim_exec(s: &str) -> (r: String)
    ensures
        r@ == trim_spec(s@),
{
    let sv = chars_of(s);
    let n = sv.len();
    let mut i: usize = 0;
    assert(s@.skip(0) =~= s@);
    while i < n && (sv[i] == ' ' || sv[i] == '\t' || sv[i] == '\r' || sv[i] == '\n')
        invariant
            n == s@.len(),
            sv@ == s@,
            i <= n,
            trim_start_spec(s@) == trim_start_spec(s@.skip(i as int)),
        decreases n - i,
    {
        proof {
            let rest = s@.skip(i as int);
            assert(rest.drop_first() =~= s@.skip(i + 1));
        }
        i = i + 1;
    }
    proof {
        let rest = s@.skip(i as int);
        if i < n {
            assert(rest[0] == s@[i as int]);
        }
        assert(trim_start_spec(s@) == s@.skip(i as int));
    }
    let mut j: usize = n;
    assert(s@.subrange(i as int, n as int) =~= s@.skip(i as int));
    while j > i && (sv[j - 1] == ' ' || sv[j - 1] == '\t' || sv[j - 1] == '\r' || sv[j - 1]
        == '\n')
        invariant
            n == s@.len(),
            sv@ == s@,
            i <= j <= n,
            trim_start_spec(s@) == s@.skip(i as int),
            trim_end_spec(s@.skip(i as int)) == trim_end_spec(s@.subrange(i as int, j as int)),
        decreases j,
    {
        proof {
            let t = s@.subrange(i as int, j as int);
            assert(t.drop_last() =~= s@.subrange(i as int, j - 1));
        }
        j = j - 1;
    }
    proof {
        let t = s@.subrange(i as int, j as int);
        if j > i {
            assert(t.last() == s@[j - 1]);
        }
        assert(trim_end_spec(s@.subrange(i as int, j as int)) == s@.subrange(i as int, j as int));
    }
    let r = s.substring_char(i, j);
    assert(r@ =~= s@.subrange(i as int, j as int));
    String::from_str(r)
}

/// Leftmost, non-overlapping replacement of `pat` by `repl` throughout `s`.
pub fn replace_exec(s: &str, pat: &str, repl: &str) -> (r: String)
    requires
        pat@.len() > 0,
    ensures
        r@ == replace_seq(s@, pat@, repl@),
{
    let sv = chars_of(s);
    let pv = chars_of(pat);
    let n = sv.len();
    let p = pv.len();
    let mut r = String::new();
    let mut i: usize = 0;
    assert(s@.skip(0) =~= s@);
    while i < n
        invariant
            n == s@.len(),
            p == pat@.len(),
            p > 0,
            sv@ == s@,
            pv@ == pat@,
            i <= n,
            r@ + replace_seq(s@.skip(i as int), pat@, repl@) == replace_seq(s@, pat@, repl@),
        decreases n - i,
    {
        let ghost rest = s@.skip(i as int);
        if n - i >= p && match_at_exact(&sv, &pv, i) {
            proof {
                assert(rest.subrange(0, pat@.len() as int) =~= s@.subrange(
                    i as int,
                    i + pat@.len(),
                ));
                assert(rest.skip(pat@.len() as int) =~= s@.skip(i + pat@.len()));
                assert(r@ + repl@ + replace_seq(s@.skip(i + pat@.len()), pat@, repl@) =~= r@ + (
                repl@ + replace_seq(s@.skip(i + pat@.len()), pat@, repl@)));
            }
            r.append(repl);
            i = i + p;
        } else {
            proof {
                if i + p <= n {
                    assert(rest.subrange(0, pat@.len() as int) =~= s@.subrange(
                        i as int,
                        i + pat@.len(),
                    ));
                }
                assert(rest.take(1) =~= s@.subrange(i as int, i + 1));
                assert(rest.skip(1) =~= s@.skip(i + 1));
                assert(r@ + s@.subrange(i as int, i + 1) + replace_seq(
                    s@.skip(i + 1),
                    pat@,
                    repl@,
                ) =~= r@ + (s@.subrange(i as int, i + 1) + replace_seq(s@.skip(i + 1), pat@, repl@)));
            }
            let piece = s.substring_char(i, i + 1);
            r.append(piece);
            i = i + 1;
        }
    }
    proof {
        assert(s@.skip(n as int) =~= Seq::<char>::empty());
        assert(r@ + Seq::<char>::empty() =~= r@);
    }
    r
}

/// The decimal digit `d` as a one-character string.
fn digit_str(d: u64) -> (r: &'static str)
    requires
        d < 10,
    ensures
        r@ == seq![digit_char(d as int)],
{
    let r: &'static str = match d {
        0 => "0",
        1 => "1",
        2 => "2",
        3 => "3",
        4 => "4",
        5 => "5",
        6 => "6",
        7 => "7",
        8 => "8",
        _ => "9",
    };
    proof {
        reveal_strlit("0");
        reveal_strlit("1");
        reveal_strlit("2");
        reveal_strlit("3");
        reveal_strlit("4");
        reveal_strlit("5");
        reveal_strlit("6");
        reveal_strlit("7");
        reveal_strlit("8");
        reveal_strlit("9");
        assert(r@ =~= seq![digit_char(d as int)]);
    }
    r
}

/// `n` written in decimal.
pub fn u64_to_dec(n: u64) -> (r: String)
    ensures
        r@ == dec_rep(n as nat),
    decreases n,
{
    if n < 10 {
        String::from_str(digit_str(n))
    } else {
        let mut r = u64_to_dec(n / 10);
        r.append(digit_str(n % 10));
        assert(r@ =~= dec_rep((n / 10) as nat).push(digit_char((n % 10) as int)));
        r
    }
}

/// Whether some element of `v` reads the same as `s`.
pub fn vec_contains_string(v: &Vec<String>, s: &String) -> (b: bool)
    ensures
        b == v.deep_view().contains(s@),
{
    let n = v.len();
    let mut i: usize = 0;
    while i < n
        invariant
            n == v@.len(),
            i <= n,
            forall|k: int| 0 <= k < i ==> v.deep_view()[k] != s@,
        decreases n - i,
    {
        assert(v.deep_view()[i as int] == v@[i as int]@);
        if v[i].eq(s) {
            assert(v.deep_view().contains(s@));
            return true;
        }
        i = i + 1;
    }
    false
}

/// Appends `s` unless an equal string is already present, so that a vector
/// built only through this function never holds a duplicate.
pub fn push_unique(v: &mut Vec<String>, s: String)
    ensures
        final(v).deep_view() == old(v).deep_view() + (if old(v).deep_view().contains(s@) {
            Seq::<Seq<char>>::empty()
        } else {
            seq![s@]
        }),
        old(v).deep_view().no_duplicates() ==> final(v).deep_view().no_duplicates(),
{
    let present = vec_contains_string(v, &s);
    if present {
        assert(v.deep_view() + Seq::<Seq<char>>::empty() =~= v.deep_view());
    } else {
        let ghost oldv = v.deep_view();
        v.push(s);
        assert(v.deep_view() =~= oldv + seq![s@]);
        proof {
            if oldv.no_duplicates() {
                assert forall|p: int, q: int|
                    0 <= p < q < v.deep_view().len() implies v.deep_view()[p]
                    != v.deep_view()[q] by {
                    if q < oldv.len() {
                    } else {
                        assert(v.deep_view()[q] == s@);
                        assert(!oldv.contains(s@));
                        assert(oldv[p] == v.deep_view()[p]);
                    }
                }
            }
        }
    }
}

} // verus!
