//! Per-request header synthesis: the User-Agent choice, the optional
//! browser-like headers each taken with 80% probability, and the forged
//! X-Forwarded-For address.
use vstd::prelude::*;
use crate::text::{dec_rep, u64_to_dec};

verus! {

/// Relies on rand::random_range: a draw from a non-empty range lies below
/// its upper bound. Nothing else is assumed of the outcome.
#[verifier::external_body]
fn rand_below(n: u32) -> (r: u32)
    requires
        n > 0,
    ensures
        r < n,
{
    rand::random_range(0..n)
}

/// The stock User-Agent pool drawn from when no usable one is configured.
pub open spec fn fallback_user_agents() -> Seq<Seq<char>> {
    seq![
        "Mozilla/5.0 (Windows NT 10.0; Win64; x64) AppleWebKit/537.36 (KHTML, like Gecko) Chrome/91.0.4472.124 Safari/537.36"@,
        "Mozilla/5.0 (Windows NT 10.0; Win64; x64) AppleWebKit/537.36 (KHTML, like Gecko) Chrome/92.0.4515.159 Safari/537.36"@,
        "Mozilla/5.0 (Macintosh; Intel Mac OS X 10_15_7) AppleWebKit/605.1.15 (KHTML, like Gecko) Version/15.0 Safari/605.1.15"@,
        "Mozilla/5.0 (Windows NT 10.0; Win64; x64; rv:90.0) Gecko/20100101 Firefox/90.0"@,
        "Mozilla/5.0 (Macintosh; Intel Mac OS X 10_15_7) AppleWebKit/537.36 (KHTML, like Gecko) Chrome/91.0.4472.114 Safari/537.36"@,
        "Mozilla/5.0 (X11; Linux x86_64) AppleWebKit/537.36 (KHTML, like Gecko) Chrome/91.0.4472.101 Safari/537.36"@,
        "Mozilla/5.0 (Windows NT 10.0; Win64; x64) AppleWebKit/537.36 (KHTML, like Gecko) Chrome/91.0.4472.124 Safari/537.36 Edg/91.0.864.59"@,
        "Mozilla/5.0 (iPhone; CPU iPhone OS 14_6 like Mac OS X) AppleWebKit/605.1.15 (KHTML, like Gecko) Version/14.0 Mobile/15E148 Safari/604.1"@,
        "Mozilla/5.0 (iPad; CPU OS 14_6 like Mac OS X) AppleWebKit/605.1.15 (KHTML, like Gecko) Version/14.0 Mobile/15E148 Safari/604.1"@,
        "Mozilla/5.0 (Windows NT 10.0; Win64; x64) AppleWebKit/537.36 (KHTML, like Gecko) Chrome/92.0.4515.107 Safari/537.36 OPR/78.0.4093.112"@,
    ]
}

/// The default pool a client starts with when header spoofing is on.
pub open spec fn default_user_agent_pool() -> Seq<Seq<char>> {
    seq![
        "Mozilla/5.0 (Windows NT 10.0; Win64; x64) AppleWebKit/537.36 (KHTML, like Gecko) Chrome/116.0.0.0 Safari/537.36"@,
        "Mozilla/5.0 (Windows NT 10.0; Win64; x64; rv:109.0) Gecko/20100101 Firefox/117.0"@,
        "Mozilla/5.0 (Macintosh; Intel Mac OS X 10_15_7) AppleWebKit/605.1.15 (KHTML, like Gecko) Version/16.5 Safari/605.1.15"@,
        "Mozilla/5.0 (Windows NT 10.0; Win64; x64) AppleWebKit/537.36 (KHTML, like Gecko) Chrome/116.0.0.0 Safari/537.36 Edg/116.0.1938.69"@,
        "Mozilla/5.0 (X11; Linux x86_64) AppleWebKit/537.36 (KHTML, like Gecko) Chrome/115.0.0.0 Safari/537.36"@,
        "Mozilla/5.0 (iPhone; CPU iPhone OS 16_6 like Mac OS X) AppleWebKit/605.1.15 (KHTML, like Gecko) Version/16.0 Mobile/15E148 Safari/604.1"@,
        "Mozilla/5.0 (iPad; CPU OS 16_6 like Mac OS X) AppleWebKit/605.1.15 (KHTML, like Gecko) Version/16.0 Mobile/15E148 Safari/604.1"@,
        "Mozilla/5.0 (Linux; Android 13; SM-S901B) AppleWebKit/537.36 (KHTML, like Gecko) Chrome/116.0.0.0 Mobile Safari/537.36"@,
        "Mozilla/5.0 (Windows NT 10.0; WOW64; Trident/7.0; rv:11.0) like Gecko"@,
        "Mozilla/5.0 (Macintosh; Intel Mac OS X 10_15_7) AppleWebKit/537.36 (KHTML, like Gecko) Chrome/116.0.0.0 Safari/537.36 OPR/102.0.0.0"@,
    ]
}

/// The default pool as strings; see [`default_user_agent_pool`].
pub fn default_user_agents() -> (v: Vec<String>)
    ensures
        v.deep_view() == default_user_agent_pool(),
{
    let v: Vec<String> = vec![
        String::from_str(
            "Mozilla/5.0 (Windows NT 10.0; Win64; x64) AppleWebKit/537.36 (KHTML, like Gecko) Chrome/116.0.0.0 Safari/537.36",
        ),
        String::from_str(
            "Mozilla/5.0 (Windows NT 10.0; Win64; x64; rv:109.0) Gecko/20100101 Firefox/117.0",
        ),
        String::from_str(
            "Mozilla/5.0 (Macintosh; Intel Mac OS X 10_15_7) AppleWebKit/605.1.15 (KHTML, like Gecko) Version/16.5 Safari/605.1.15",
        ),
        String::from_str(
            "Mozilla/5.0 (Windows NT 10.0; Win64; x64) AppleWebKit/537.36 (KHTML, like Gecko) Chrome/116.0.0.0 Safari/537.36 Edg/116.0.1938.69",
        ),
        String::from_str(
            "Mozilla/5.0 (X11; Linux x86_64) AppleWebKit/537.36 (KHTML, like Gecko) Chrome/115.0.0.0 Safari/537.36",
        ),
        String::from_str(
            "Mozilla/5.0 (iPhone; CPU iPhone OS 16_6 like Mac OS X) AppleWebKit/605.1.15 (KHTML, like Gecko) Version/16.0 Mobile/15E148 Safari/604.1",
        ),
        String::from_str(
            "Mozilla/5.0 (iPad; CPU OS 16_6 like Mac OS X) AppleWebKit/605.1.15 (KHTML, like Gecko) Version/16.0 Mobile/15E148 Safari/604.1",
        ),
        String::from_str(
            "Mozilla/5.0 (Linux; Android 13; SM-S901B) AppleWebKit/537.36 (KHTML, like Gecko) Chrome/116.0.0.0 Mobile Safari/537.36",
        ),
        String::from_str("Mozilla/5.0 (Windows NT 10.0; WOW64; Trident/7.0; rv:11.0) like Gecko"),
        String::from_str(
            "Mozilla/5.0 (Macintosh; Intel Mac OS X 10_15_7) AppleWebKit/537.36 (KHTML, like Gecko) Chrome/116.0.0.0 Safari/537.36 OPR/102.0.0.0",
        ),
    ];
    assert(v.deep_view() =~= default_user_agent_pool());
    v
}

/// One User-Agent drawn from the stock pool.
pub fn get_random_user_agent() -> (r: String)
    ensures
        fallback_user_agents().contains(r@),
{
    let pool: Vec<String> = vec![
        String::from_str(
            "Mozilla/5.0 (Windows NT 10.0; Win64; x64) AppleWebKit/537.36 (KHTML, like Gecko) Chrome/91.0.4472.124 Safari/537.36",
        ),
        String::from_str(
            "Mozilla/5.0 (Windows NT 10.0; Win64; x64) AppleWebKit/537.36 (KHTML, like Gecko) Chrome/92.0.4515.159 Safari/537.36",
        ),
        String::from_str(
            "Mozilla/5.0 (Macintosh; Intel Mac OS X 10_15_7) AppleWebKit/605.1.15 (KHTML, like Gecko) Version/15.0 Safari/605.1.15",
        ),
        String::from_str(
            "Mozilla/5.0 (Windows NT 10.0; Win64; x64; rv:90.0) Gecko/20100101 Firefox/90.0",
        ),
        String::from_str(
            "Mozilla/5.0 (Macintosh; Intel Mac OS X 10_15_7) AppleWebKit/537.36 (KHTML, like Gecko) Chrome/91.0.4472.114 Safari/537.36",
        ),
        String::from_str(
            "Mozilla/5.0 (X11; Linux x86_64) AppleWebKit/537.36 (KHTML, like Gecko) Chrome/91.0.4472.101 Safari/537.36",
        ),
        String::from_str(
            "Mozilla/5.0 (Windows NT 10.0; Win64; x64) AppleWebKit/537.36 (KHTML, like Gecko) Chrome/91.0.4472.124 Safari/537.36 Edg/91.0.864.59",
        ),
        String::from_str(
            "Mozilla/5.0 (iPhone; CPU iPhone OS 14_6 like Mac OS X) AppleWebKit/605.1.15 (KHTML, like Gecko) Version/14.0 Mobile/15E148 Safari/604.1",
        ),
        String::from_str(
            "Mozilla/5.0 (iPad; CPU OS 14_6 like Mac OS X) AppleWebKit/605.1.15 (KHTML, like Gecko) Version/14.0 Mobile/15E148 Safari/604.1",
        ),
        String::from_str(
            "Mozilla/5.0 (Windows NT 10.0; Win64; x64) AppleWebKit/537.36 (KHTML, like Gecko) Chrome/92.0.4515.107 Safari/537.36 OPR/78.0.4093.112",
        ),
    ];
    assert(pool.deep_view() =~= fallback_user_agents());
    let idx = rand_below(10) as usize;
    let r = pool[idx].clone();
    assert(pool.deep_view()[idx as int] == r@);
    r
}

/// The optional browser-like headers, each sent with 80% probability when
/// header spoofing is on.
pub open spec fn optional_headers() -> Seq<(Seq<char>, Seq<char>)> {
    seq![
        ("accept"@, "text/html,application/xhtml+xml,application/xml;q=0.9,image/webp,*/*;q=0.8"@),
        ("accept-language"@, "en-US,en;q=0.9,zh-CN;q=0.8,zh;q=0.7"@),
        ("accept-encoding"@, "gzip, deflate, br"@),
        ("connection"@, "keep-alive"@),
        ("upgrade-insecure-requests"@, "1"@),
        ("pragma"@, "no-cache"@),
        ("cache-control"@, "no-cache"@),
    ]
}

/// The dotted-decimal form of four octets.
pub open spec fn ip_format(a: u64, b: u64, c: u64, d: u64) -> Seq<char> {
    dec_rep(a as nat) + "."@ + dec_rep(b as nat) + "."@ + dec_rep(c as nat) + "."@ + dec_rep(
        d as nat,
    )
}

/// A forged client address: four octets drawn from [1, 254].
pub fn random_ip_string() -> (r: String)
    ensures
        exists|a: u64, b: u64, c: u64, d: u64|
            1 <= a <= 254 && 1 <= b <= 254 && 1 <= c <= 254 && 1 <= d <= 254 && r@ == #[trigger] ip_format(
                a,
                b,
                c,
                d,
            ),
{
    let a = (rand_below(254) + 1) as u64;
    let b = (rand_below(254) + 1) as u64;
    let c = (rand_below(254) + 1) as u64;
    let d = (rand_below(254) + 1) as u64;
    let mut r = u64_to_dec(a);
    r.append(".");
    let sb = u64_to_dec(b);
    r.append(sb.as_str());
    r.append(".");
    let sc = u64_to_dec(c);
    r.append(sc.as_str());
    r.append(".");
    let sd = u64_to_dec(d);
    r.append(sd.as_str());
    proof {
        assert(r@ == ip_format(a, b, c, d));
    }
    r
}

/// The elements of `pairs` selected by `m`, in order.
pub open spec fn mask_filter(
    pairs: Seq<(Seq<char>, Seq<char>)>,
    m: Seq<bool>,
) -> Seq<(Seq<char>, Seq<char>)>
    decreases pairs.len(),
{
    if pairs.len() == 0 || m.len() == 0 {
        Seq::empty()
    } else {
        (if m[0] {
            seq![pairs[0]]
        } else {
            Seq::<(Seq<char>, Seq<char>)>::empty()
        }) + mask_filter(pairs.drop_first(), m.drop_first())
    }
}

proof fn lemma_mask_filter_snoc(
    pairs: Seq<(Seq<char>, Seq<char>)>,
    m: Seq<bool>,
    p: (Seq<char>, Seq<char>),
    b: bool,
)
    requires
        pairs.len() == m.len(),
    ensures
        mask_filter(pairs.push(p), m.push(b)) =~= mask_filter(pairs, m) + (if b {
            seq![p]
        } else {
            Seq::<(Seq<char>, Seq<char>)>::empty()
        }),
    decreases pairs.len(),
{
    if pairs.len() == 0 {
        assert(pairs.push(p)[0] == p);
        assert(m.push(b)[0] == b);
        assert(pairs.push(p).drop_first() =~= pairs);
        assert(m.push(b).drop_first() =~= m);
    } else {
        assert(pairs.push(p)[0] == pairs[0]);
        assert(m.push(b)[0] == m[0]);
        assert(pairs.push(p).drop_first() =~= pairs.drop_first().push(p));
        assert(m.push(b).drop_first() =~= m.drop_first().push(b));
        lemma_mask_filter_snoc(pairs.drop_first(), m.drop_first(), p, b);
    }
}

/// The headers for one request. The first pair is always the User-Agent:
/// the configured one when spoofing is off, a draw from the custom pool
/// when it is on and the pool holds anything (the stock pool stands in
/// only for an empty pool), and a stock draw when no User-Agent is
/// configured at all. With spoofing on, some subset of the optional
/// headers follows, in catalog order; with address forging on, an
/// X-Forwarded-For pair of four octets in [1, 254] comes last.
pub fn build_header_plan(
    user_agent: &String,
    random_headers: bool,
    random_ip: bool,
    custom_user_agents: &Vec<String>,
) -> (r: Vec<(String, String)>)
    ensures
        r@.len() >= 1,
        r.deep_view()[0].0 == "user-agent"@,
        user_agent@.len() == 0 ==> fallback_user_agents().contains(r.deep_view()[0].1),
        user_agent@.len() > 0 && random_headers && custom_user_agents.deep_view().len() > 0
            ==> custom_user_agents.deep_view().contains(r.deep_view()[0].1),
        user_agent@.len() > 0 && random_headers && custom_user_agents.deep_view().len() == 0
            ==> fallback_user_agents().contains(r.deep_view()[0].1),
        user_agent@.len() > 0 && !random_headers ==> r.deep_view()[0].1 == user_agent@,
        exists|m: Seq<bool>, tail: Seq<(Seq<char>, Seq<char>)>|
            {
                &&& m.len() == optional_headers().len()
                &&& r.deep_view().drop_first() == #[trigger] (mask_filter(optional_headers(), m)
                    + tail)
                &&& (if random_ip {
                    exists|a: u64, b: u64, c: u64, d: u64|
                        1 <= a <= 254 && 1 <= b <= 254 && 1 <= c <= 254 && 1 <= d <= 254 && tail
                            =~= seq![("x-forwarded-for"@, #[trigger] ip_format(a, b, c, d))]
                } else {
                    tail =~= Seq::<(Seq<char>, Seq<char>)>::empty()
                })
                &&& (!random_headers ==> mask_filter(optional_headers(), m) =~= Seq::<
                    (Seq<char>, Seq<char>),
                >::empty())
            },
{
    let ua: String = if user_agent.as_str().unicode_len() == 0 {
        get_random_user_agent()
    } else if random_headers {
        if custom_user_agents.len() > 0 {
            let m = custom_user_agents.len();
            let bound: u32 = if m > 0xffff_ffff {
                0xffff_ffff
            } else {
                m as u32
            };
            let idx = rand_below(bound) as usize;
            let picked = custom_user_agents[idx].clone();
            assert(custom_user_agents.deep_view()[idx as int] == picked@);
            picked
        } else {
            get_random_user_agent()
        }
    } else {
        user_agent.clone()
    };
    let mut r: Vec<(String, String)> = Vec::new();
    r.push((String::from_str("user-agent"), ua));
    let ghost ua_part = r.deep_view();
    assert(ua_part.len() == 1);
    let catalog: Vec<(String, String)> = vec![
        (
            String::from_str("accept"),
            String::from_str(
                "text/html,application/xhtml+xml,application/xml;q=0.9,image/webp,*/*;q=0.8",
            ),
        ),
        (String::from_str("accept-language"), String::from_str("en-US,en;q=0.9,zh-CN;q=0.8,zh;q=0.7")),
        (String::from_str("accept-encoding"), String::from_str("gzip, deflate, br")),
        (String::from_str("connection"), String::from_str("keep-alive")),
        (String::from_str("upgrade-insecure-requests"), String::from_str("1")),
        (String::from_str("pragma"), String::from_str("no-cache")),
        (String::from_str("cache-control"), String::from_str("no-cache")),
    ];
    assert(catalog.deep_view() =~= optional_headers());
    let ghost mut mask: Seq<bool> = Seq::empty();
    let n = catalog.len();
    let mut i: usize = 0;
    proof {
        assert(optional_headers().take(0) =~= Seq::<(Seq<char>, Seq<char>)>::empty());
        assert(mask_filter(optional_headers().take(0), mask) =~= Seq::<
            (Seq<char>, Seq<char>),
        >::empty());
        assert(r.deep_view() =~= ua_part + mask_filter(optional_headers().take(0), mask));
    }
    while i < n
        invariant
            n == catalog@.len(),
            catalog.deep_view() == optional_headers(),
            n == optional_headers().len(),
            i <= n,
            mask.len() == i,
            ua_part.len() == 1,
            r.deep_view() == ua_part + mask_filter(optional_headers().take(i as int), mask),
            !random_headers ==> mask_filter(optional_headers().take(i as int), mask) =~= Seq::<
                (Seq<char>, Seq<char>),
            >::empty(),
        decreases n - i,
    {
        let ghost pair = optional_headers()[i as int];
        assert(pair == (catalog@[i as int].0@, catalog@[i as int].1@));
        let keep: bool = if random_headers {
            rand_below(10) < 8
        } else {
            false
        };
        proof {
            assert(optional_headers().take(i + 1) =~= optional_headers().take(i as int).push(pair));
            lemma_mask_filter_snoc(optional_headers().take(i as int), mask, pair, keep);
        }
        if keep {
            let ghost olddeep = r.deep_view();
            let name = catalog[i].0.clone();
            let value = catalog[i].1.clone();
            r.push((name, value));
            proof {
                assert(r.deep_view() =~= olddeep.push(pair));
                assert(r.deep_view() =~= ua_part + mask_filter(
                    optional_headers().take(i + 1),
                    mask.push(keep),
                ));
            }
        } else {
            proof {
                assert(r.deep_view() =~= ua_part + mask_filter(
                    optional_headers().take(i + 1),
                    mask.push(keep),
                ));
            }
        }
        proof {
            mask = mask.push(keep);
        }
        i = i + 1;
    }
    proof {
        assert(optional_headers().take(n as int) =~= optional_headers());
    }
    let ghost chosen = mask_filter(optional_headers(), mask);
    assert(r.deep_view() == ua_part + chosen);
    if random_ip {
        let ip = random_ip_string();
        let ghost olddeep = r.deep_view();
        r.push((String::from_str("x-forwarded-for"), ip));
        proof {
            let ghost tail = seq![("x-forwarded-for"@, ip@)];
            assert(r.deep_view() =~= olddeep.push(("x-forwarded-for"@, ip@)));
            assert(r.deep_view().drop_first() =~= chosen + tail);
            let (a, b, c, d) = choose|a: u64, b: u64, c: u64, d: u64|
                1 <= a <= 254 && 1 <= b <= 254 && 1 <= c <= 254 && 1 <= d <= 254 && ip@
                    == #[trigger] ip_format(a, b, c, d);
            assert(tail =~= seq![("x-forwarded-for"@, ip_format(a, b, c, d))]);
            assert(r.deep_view()[0] == ua_part[0]);
        }
        r
    } else {
        proof {
            let ghost tail = Seq::<(Seq<char>, Seq<char>)>::empty();
            assert(r.deep_view().drop_first() =~= chosen + tail);
            assert(r.deep_view()[0] == ua_part[0]);
        }
        r
    }
}

} // verus!
