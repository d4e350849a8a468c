//! The server's URL: what the user types for it, and the host it names.
use crate::text::{chars_of, lower_seq, push_all, string_of, trim, trimmed};
use vstd::prelude::*;

verus! {

/// What the logic reads of a parsed URL: its scheme, and its host when it has one.
#[derive(Debug, Clone, PartialEq, Eq)]
pub struct UrlParts {
    pub scheme: String,
    pub host: Option<String>,
}

/// The parts of a URL as values.
pub open spec fn parts_view(p: Option<UrlParts>) -> Option<(Seq<char>, Option<Seq<char>>)> {
    match p {
        None => None,
        Some(u) => Some(
            (
                u.scheme@,
                match u.host {
                    Some(h) => Some(h@),
                    None => None,
                },
            ),
        ),
    }
}

/// The scheme and host `url::Url::parse` reads from `text`, or `None` when it cannot
/// parse an absolute URL from it.
pub uninterp spec fn parsed_url(text: Seq<char>) -> Option<(Seq<char>, Option<Seq<char>>)>;

/// `url::Url::parse`, read for its `scheme` and `host_str`.
///
/// What comes back depends on the text alone; the contract names it and does not restate
/// the WHATWG URL standard.
#[verifier::external_body]
pub fn url_parts(text: &str) -> (r: Option<UrlParts>)
    ensures
        parts_view(r) == parsed_url(text@),
{
    url::Url::parse(text).ok().map(
        |u| UrlParts { scheme: u.scheme().to_string(), host: u.host_str().map(|h| h.to_string()) },
    )
}

/// `s` without the characters `c` at its end.
pub open spec fn strip_end(s: Seq<char>, c: char) -> Seq<char>
    decreases s.len(),
{
    if s.len() > 0 && s.last() == c {
        strip_end(s.drop_last(), c)
    } else {
        s
    }
}

/// `s` without the characters `c` at its end.
pub fn strip_end_chars(s: &[char], c: char) -> (out: Vec<char>)
    ensures
        out@ == strip_end(s@, c),
{
    let mut n = s.len();
    proof {
        assert(s@.take(n as int) =~= s@);
    }
    while n > 0 && s[n - 1] == c
        invariant
            n <= s@.len(),
            strip_end(s@.take(n as int), c) == strip_end(s@, c),
        decreases n,
    {
        proof {
            assert(s@.take(n as int).drop_last() =~= s@.take(n - 1));
        }
        n -= 1;
    }
    crate::text::slice_to_vec(s, 0, n)
}

/// A host as the rest of the program compares it: lowercased, and without the trailing
/// dot that only says "fully qualified".
pub open spec fn host_in(parts: Option<(Seq<char>, Option<Seq<char>>)>) -> Option<Seq<char>> {
    match parts {
        Some((_, Some(h))) => Some(strip_end(lower_seq(h), '.')),
        _ => None,
    }
}

fn lower_chars(s: &[char]) -> (out: Vec<char>)
    ensures
        out@ == lower_seq(s@),
{
    let mut out: Vec<char> = Vec::new();
    let mut i: usize = 0;
    while i < s.len()
        invariant
            i <= s@.len(),
            out@ == lower_seq(s@.take(i as int)),
        decreases s.len() - i,
    {
        proof {
            assert(lower_seq(s@.take(i + 1)) =~= lower_seq(s@.take(i as int)).push(
                crate::text::lower(s@[i as int]),
            ));
        }
        out.push(crate::text::lower_char(s[i]));
        i += 1;
    }
    assert(s@.take(i as int) =~= s@);
    out
}

/// The host of a parsed URL, lowercased and without its trailing dots.
pub fn host_from(parts: Option<UrlParts>) -> (host: Option<String>)
    ensures
        match host {
            Some(h) => host_in(parts_view(parts)) == Some(h@),
            None => host_in(parts_view(parts)) is None,
        },
{
    match parts {
        Some(p) => match p.host {
            Some(h) => {
                let chars = chars_of(h.as_str());
                let lowered = lower_chars(chars.as_slice());
                let stripped = strip_end_chars(lowered.as_slice(), '.');
                Some(string_of(stripped.as_slice()))
            },
            None => None,
        },
        None => None,
    }
}

/// The host of a URL, lowercased, without its port, path or trailing dot.
pub fn host_of(url: &str) -> (host: Option<String>)
    ensures
        match host {
            Some(h) => host_in(parsed_url(url@)) == Some(h@),
            None => host_in(parsed_url(url@)) is None,
        },
{
    host_from(url_parts(url))
}

/// Why a server URL cannot be used.
#[derive(Debug, Clone, PartialEq, Eq)]
pub enum UrlError {
    /// Nothing was given.
    Missing,
    /// This text is not a URL at all.
    NotAUrl(String),
    /// A URL of this scheme, which is not http or https.
    Scheme(String),
    /// This URL names no host.
    NoHost(String),
}

impl UrlError {
    /// What to tell the user.
    pub fn message(&self) -> (s: String)
        ensures
            s@ == match self {
                UrlError::Missing => "a server URL is needed."@,
                UrlError::NotAUrl(raw) => raw@ + " is not a URL tui-do can use"@,
                UrlError::Scheme(s) => s@ + " is not a scheme tui-do can use; give an http or https URL."@,
                UrlError::NoHost(raw) => raw@ + " names no host."@,
            },
    {
        match self {
            UrlError::Missing => String::from_str("a server URL is needed."),
            UrlError::NotAUrl(raw) => {
                let mut out = chars_of(raw.as_str());
                push_all(&mut out, chars_of(" is not a URL tui-do can use").as_slice());
                string_of(out.as_slice())
            },
            UrlError::Scheme(s) => {
                let mut out = chars_of(s.as_str());
                push_all(
                    &mut out,
                    chars_of(" is not a scheme tui-do can use; give an http or https URL.").as_slice(),
                );
                string_of(out.as_slice())
            },
            UrlError::NoHost(raw) => {
                let mut out = chars_of(raw.as_str());
                push_all(&mut out, chars_of(" names no host.").as_slice());
                string_of(out.as_slice())
            },
        }
    }
}

/// Whether `s` holds `needle` anywhere.
pub open spec fn holds(s: Seq<char>, needle: Seq<char>) -> bool {
    exists|at: int| crate::text::occurs_at(s, needle, at)
}

/// Whether `needle` occurs anywhere in `s`.
pub fn holds_text(s: &[char], needle: &[char]) -> (r: bool)
    ensures
        r == holds(s@, needle@),
{
    let mut at: usize = 0;
    while at < s.len()
        invariant
            at <= s@.len(),
            forall|a: int| 0 <= a < at ==> !crate::text::occurs_at(s@, needle@, a),
        decreases s.len() - at,
    {
        if crate::text::matches_at(s, needle, at) {
            return true;
        }
        at += 1;
    }
    if crate::text::matches_at(s, needle, at) {
        return true;
    }
    proof {
        assert forall|a: int| !crate::text::occurs_at(s@, needle@, a) by {
            if a > s@.len() {
                assert(a + needle@.len() > s@.len());
            }
        }
    }
    false
}

/// The server URL a user's input names: trimmed, without trailing slashes, and with
/// `https://` put in front when no scheme was given.
pub open spec fn with_scheme(raw: Seq<char>) -> Seq<char> {
    let t = strip_end(trimmed(raw), '/');
    if holds(t, "://"@) {
        t
    } else {
        "https://"@ + t
    }
}

/// Why a server URL cannot be used, as a value.
pub enum UrlErrorView {
    Missing,
    NotAUrl(Seq<char>),
    Scheme(Seq<char>),
    NoHost(Seq<char>),
}

impl View for UrlError {
    type V = UrlErrorView;

    open spec fn view(&self) -> UrlErrorView {
        match self {
            UrlError::Missing => UrlErrorView::Missing,
            UrlError::NotAUrl(raw) => UrlErrorView::NotAUrl(raw@),
            UrlError::Scheme(s) => UrlErrorView::Scheme(s@),
            UrlError::NoHost(raw) => UrlErrorView::NoHost(raw@),
        }
    }
}

/// What becomes of a server URL the user typed: refused when nothing was given, when it
/// does not parse, when its scheme is neither http nor https, or when it names no host;
/// otherwise kept, with `https://` assumed and trailing slashes taken off.
pub open spec fn normalised(raw: Seq<char>) -> Result<Seq<char>, UrlErrorView> {
    let t = strip_end(trimmed(raw), '/');
    let w = with_scheme(raw);
    if t.len() == 0 {
        Err(UrlErrorView::Missing)
    } else {
        match parsed_url(w) {
            None => Err(UrlErrorView::NotAUrl(raw)),
            Some((scheme, host)) => if scheme != "http"@ && scheme != "https"@ {
                Err(UrlErrorView::Scheme(scheme))
            } else if host is None {
                Err(UrlErrorView::NoHost(raw))
            } else {
                Ok(strip_end(w, '/'))
            },
        }
    }
}

/// Whether `a` and `b` hold the same characters.
pub fn same_chars(a: &[char], b: &[char]) -> (r: bool)
    ensures
        r == (a@ == b@),
{
    if a.len() != b.len() {
        return false;
    }
    let mut i: usize = 0;
    while i < a.len()
        invariant
            i <= a@.len(),
            a@.len() == b@.len(),
            forall|k: int| 0 <= k < i ==> a@[k] == b@[k],
        decreases a.len() - i,
    {
        if a[i] != b[i] {
            return false;
        }
        i += 1;
    }
    assert(a@ =~= b@);
    true
}

fn same_text(a: &[char], lit: &str) -> (r: bool)
    ensures
        r == (a@ == lit@),
{
    let b = chars_of(lit);
    if a.len() != b.len() {
        return false;
    }
    let mut i: usize = 0;
    while i < a.len()
        invariant
            i <= a@.len(),
            a@.len() == b@.len(),
            b@ == lit@,
            forall|k: int| 0 <= k < i ==> a@[k] == b@[k],
        decreases a.len() - i,
    {
        if a[i] != b[i] {
            return false;
        }
        i += 1;
    }
    assert(a@ =~= b@);
    true
}

/// Check and tidy a server URL the user typed.
pub fn normalise_url(raw: &str) -> (r: Result<String, UrlError>)
    ensures
        match r {
            Ok(s) => normalised(raw@) == Ok::<Seq<char>, UrlErrorView>(s@),
            Err(e) => normalised(raw@) == Err::<Seq<char>, UrlErrorView>(e@),
        },
{
    let chars = chars_of(raw);
    let t0 = trim(chars.as_slice());
    let t = strip_end_chars(t0.as_slice(), '/');
    if t.len() == 0 {
        return Err(UrlError::Missing);
    }
    let sep = chars_of("://");
    let w = if holds_text(t.as_slice(), sep.as_slice()) {
        t
    } else {
        let mut out = chars_of("https://");
        push_all(&mut out, t.as_slice());
        out
    };
    let text = string_of(w.as_slice());
    match url_parts(text.as_str()) {
        None => Err(UrlError::NotAUrl(string_of(chars.as_slice()))),
        Some(parts) => {
            let scheme = chars_of(parts.scheme.as_str());
            if !same_text(scheme.as_slice(), "http") && !same_text(scheme.as_slice(), "https") {
                return Err(UrlError::Scheme(parts.scheme));
            }
            match parts.host {
                None => Err(UrlError::NoHost(string_of(chars.as_slice()))),
                Some(_) => {
                    let kept = strip_end_chars(w.as_slice(), '/');
                    Ok(string_of(kept.as_slice()))
                },
            }
        },
    }
}

} // verus!
