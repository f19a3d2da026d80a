//! URL inspection: the one trusted view into the `url` parser, and the
//! verified normalization and protocol-detection decisions built on it.
use vstd::prelude::*;
use crate::BackerError;
use crate::text::{
    chars_of, dec_rep, starts_with, starts_with_exec, str_eq_str, strip_prefix_repeated,
    strip_prefix_repeated_exec, strip_suffix_char, strip_suffix_char_exec, trim_exec, trim_spec,
    u64_to_dec,
};

verus! {

/// What parsing a URL yields: its scheme, its host when it has one, and its
/// explicit non-default port when it has one. `None` when the string is not
/// an absolute URL.
pub uninterp spec fn url_parts(s: Seq<char>) -> Option<(Seq<char>, Option<Seq<char>>, Option<u16>)>;

/// The view of an optional string.
pub open spec fn opt_view(o: Option<String>) -> Option<Seq<char>> {
    match o {
        Some(s) => Some(s@),
        None => None,
    }
}

/// Relies on url::Url::parse, Url::scheme, Url::host_str and Url::port:
/// parsing is a pure function of the input string, and on success the URL's
/// scheme, host (absent for host-less URLs) and explicit port are returned.
#[verifier::external_body]
pub fn parse_url_parts(target: &str) -> (r: Option<(String, Option<String>, Option<u16>)>)
    ensures
        match r {
            Some(p) => url_parts(target@) == Some((p.0@, opt_view(p.1), p.2)),
            None => url_parts(target@) is None,
        },
{
    match url::Url::parse(target) {
        Ok(u) => Some((u.scheme().to_string(), u.host_str().map(|h| h.to_string()), u.port())),
        Err(_) => None,
    }
}

/// `u` with "http://" prepended unless it already names a scheme.
pub open spec fn with_default_scheme(u: Seq<char>) -> Seq<char> {
    if starts_with(u, "http://"@) || starts_with(u, "https://"@) {
        u
    } else {
        "http://"@ + u
    }
}

/// The canonical form: scheme, host, and the explicit port when it is not
/// the scheme's default.
pub open spec fn normalized_base(
    scheme: Seq<char>,
    host: Option<Seq<char>>,
    port: Option<u16>,
) -> Seq<char> {
    let h = match host {
        Some(h) => h,
        None => Seq::<char>::empty(),
    };
    let base = scheme + "://"@ + h;
    match port {
        Some(p) => {
            if (scheme == "http"@ && p != 80) || (scheme == "https"@ && p != 443) {
                base + ":"@ + dec_rep(p as nat)
            } else {
                base
            }
        },
        None => base,
    }
}

/// Normalizes a target to `scheme://host[:port]`, dropping any path or
/// query. A target without a scheme is taken as plain HTTP. Fails exactly
/// when the completed string is not a parseable URL.
pub fn normalize_url(url: &str) -> (r: Result<String, BackerError>)
    ensures
        match r {
            Ok(n) => url_parts(with_default_scheme(url@)) matches Some(p) && n@ == normalized_base(
                p.0,
                p.1,
                p.2,
            ),
            Err(e) => url_parts(with_default_scheme(url@)) is None && e matches
                BackerError::Config(_),
        },
{
    let uv = chars_of(url);
    let url_str: String = if !starts_with_exec(&uv, &chars_of("http://")) && !starts_with_exec(
        &uv,
        &chars_of("https://"),
    ) {
        let mut s = String::from_str("http://");
        s.append(url);
        s
    } else {
        String::from_str(url)
    };
    match parse_url_parts(url_str.as_str()) {
        None => Err(BackerError::Config(String::from_str("invalid target URL"))),
        Some((scheme, host, port)) => {
            let mut n = scheme.clone();
            n.append("://");
            match &host {
                Some(h) => n.append(h.as_str()),
                None => (),
            }
            let is_http = str_eq_str(scheme.as_str(), "http");
            let is_https = str_eq_str(scheme.as_str(), "https");
            if let Some(p) = port {
                if (is_http && p != 80) || (is_https && p != 443) {
                    n.append(":");
                    let d = u64_to_dec(p as u64);
                    n.append(d.as_str());
                }
            }
            Ok(n)
        },
    }
}

/// How a bare target line is turned into a probe-ready URL.
pub enum ProtocolPlan {
    /// The line already carries a scheme: use it as it stands.
    Keep(String),
    /// The line is a bare host: probe the HTTPS form first, then the HTTP
    /// form, preferring HTTPS when it answers.
    Probe { https_url: String, http_url: String },
}

/// The host part of a bare target line: trimmed, with any leading "www."
/// repetitions and trailing slashes removed.
pub open spec fn bare_domain(u: Seq<char>) -> Seq<char> {
    strip_suffix_char(strip_prefix_repeated(trim_spec(u), "www."@), '/')
}

/// Decides how to settle a target line's protocol. A line that already
/// starts with a scheme is kept; anything else yields the two candidate
/// URLs to probe, built from the bare domain.
pub fn protocol_probe_plan(input: &str) -> (plan: ProtocolPlan)
    ensures
        starts_with(input@, "http://"@) || starts_with(input@, "https://"@) ==> (plan matches
            ProtocolPlan::Keep(u) && u@ == input@),
        !(starts_with(input@, "http://"@) || starts_with(input@, "https://"@)) ==> (plan matches
            ProtocolPlan::Probe { https_url, http_url } && https_url@ == "https://"@ + bare_domain(
            input@,
        ) && http_url@ == "http://"@ + bare_domain(input@)),
{
    let uv = chars_of(input);
    if starts_with_exec(&uv, &chars_of("http://")) || starts_with_exec(&uv, &chars_of("https://")) {
        return ProtocolPlan::Keep(String::from_str(input));
    }
    let trimmed = trim_exec(input);
    proof {
        reveal_strlit("www.");
    }
    let unwww = strip_prefix_repeated_exec(trimmed.as_str(), "www.");
    let domain = strip_suffix_char_exec(unwww.as_str(), '/');
    let mut https_url = String::from_str("https://");
    https_url.append(domain.as_str());
    let mut http_url = String::from_str("http://");
    http_url.append(domain.as_str());
    ProtocolPlan::Probe { https_url, http_url }
}

/// Settles the protocol from the two probe outcomes: HTTPS wins when its
/// probe connected at all; otherwise the HTTP form is used, also when both
/// probes failed.
pub fn choose_protocol(https_url: String, http_url: String, https_ok: bool) -> (r: String)
    ensures
        https_ok ==> r == https_url,
        !https_ok ==> r == http_url,
{
    if https_ok {
        https_url
    } else {
        http_url
    }
}

} // verus!
