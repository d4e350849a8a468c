//! Refusing to start against the production server unless asked to.
//!
//! Production is named by digests of its host name and addresses rather than by the
//! names themselves, which keeps the names out of the source; that is obfuscation, not
//! secrecy.
use crate::server::{host_in, host_of, parsed_url};
use crate::text::{chars_of, is_ascii_alnum, lower_seq, push_all, string_of};
use vstd::prelude::*;
use vstd::utf8::encode_utf8;

verus! {

/// The production instance's host names, as digests.
pub const PROD_HOST_DIGESTS: [u64; 1] = [0xd46d_34ba_49c7_e934];

/// The same machine, by address.
pub const PROD_ADDR_DIGESTS: [u64; 2] = [0xf44a_8a55_290f_bec7, 0xe71f_ea92_f3dc_2f65];

/// FNV-1a, 64-bit, over some bytes.
pub open spec fn fnv(bytes: Seq<u8>) -> u64
    decreases bytes.len(),
{
    if bytes.len() == 0 {
        0xcbf2_9ce4_8422_2325
    } else {
        (fnv(bytes.drop_last()) ^ (bytes.last() as u64)).wrapping_mul(0x0000_0100_0000_01b3)
    }
}

/// The digest of a text: FNV-1a over its UTF-8 bytes.
pub open spec fn digest_of(text: Seq<char>) -> u64 {
    fnv(encode_utf8(text))
}

/// FNV-1a, 64-bit, of `value`'s UTF-8 bytes.
pub fn digest(value: &str) -> (h: u64)
    ensures
        h == digest_of(value@),
{
    let bytes = value.as_bytes();
    let mut hash: u64 = 0xcbf2_9ce4_8422_2325;
    let mut i: usize = 0;
    while i < bytes.len()
        invariant
            i <= bytes@.len(),
            hash == fnv(bytes@.take(i as int)),
        decreases bytes.len() - i,
    {
        proof {
            assert(bytes@.take(i + 1).drop_last() =~= bytes@.take(i as int));
        }
        hash = (hash ^ (bytes[i] as u64)).wrapping_mul(0x0000_0100_0000_01b3);
        i += 1;
    }
    proof {
        assert(bytes@.take(i as int) =~= bytes@);
    }
    hash
}

fn contains_u64(values: &[u64], x: u64) -> (r: bool)
    ensures
        r == values@.contains(x),
{
    let mut i: usize = 0;
    while i < values.len()
        invariant
            i <= values@.len(),
            forall|k: int| 0 <= k < i ==> values@[k] != x,
        decreases values.len() - i,
    {
        if values[i] == x {
            return true;
        }
        i += 1;
    }
    false
}

/// The part of a host name before its first dot.
pub open spec fn first_label(host: Seq<char>) -> Seq<char> {
    crate::rows::split_on(host, '.')[0]
}

/// Whether a host name, or its first label, digests to one of `hosts`. Never for an
/// empty name.
pub open spec fn label_match(host: Seq<char>, hosts: Seq<u64>) -> bool {
    host.len() > 0 && (hosts.contains(digest_of(host)) || hosts.contains(
        digest_of(first_label(host)),
    ))
}

/// Whether a hostname, or its first label, digests to one of `hosts`.
pub fn label_matches(host: &str, hosts: &[u64]) -> (r: bool)
    ensures
        r == label_match(host@, hosts@),
{
    let chars = chars_of(host);
    if chars.len() == 0 {
        return false;
    }
    let pieces = crate::rows::split_chars(chars.as_slice(), '.');
    proof {
        let (done, cur) = crate::rows::split_scan(chars@, '.');
        assert(crate::rows::split_on(chars@, '.') == done.push(cur));
        assert(crate::rows::char_rows(pieces@).len() >= 1);
        assert(crate::rows::char_rows(pieces@)[0] == pieces@[0]@);
    }
    let first = string_of(pieces[0].as_slice());
    contains_u64(hosts, digest(host)) || contains_u64(hosts, digest(first.as_str()))
}

/// Whether a character can be part of a host name written in running text.
pub open spec fn host_char(c: char) -> bool {
    is_ascii_alnum(c) || c == '-' || c == '.'
}

/// The runs between characters that cannot be part of a host name found so far, and the
/// one being read.
pub open spec fn token_scan(s: Seq<char>) -> (Seq<Seq<char>>, Seq<char>)
    decreases s.len(),
{
    if s.len() == 0 {
        (Seq::empty(), Seq::empty())
    } else {
        let (done, cur) = token_scan(s.drop_last());
        if host_char(s.last()) {
            (done, cur.push(s.last()))
        } else {
            (done.push(cur), Seq::empty())
        }
    }
}

/// The runs of `s` between characters that cannot be part of a host name, empty ones
/// included.
pub open spec fn host_tokens(s: Seq<char>) -> Seq<Seq<char>> {
    let (done, cur) = token_scan(s);
    done.push(cur)
}

/// Whether `url` names a host in `hosts` or an address in `addrs`, comparing digests.
///
/// A parsed URL is judged by its host alone: an address matches by its digest, a name
/// when it or its first label matches. A URL that does not parse is judged by every run
/// of host-name characters in it, lowercased.
pub open spec fn names_any(url: Seq<char>, hosts: Seq<u64>, addrs: Seq<u64>) -> bool {
    match host_in(parsed_url(url)) {
        None => exists|k: int|
            0 <= k < host_tokens(lower_seq(url)).len() && label_match(
                #[trigger] host_tokens(lower_seq(url))[k],
                hosts,
            ),
        Some(host) => addrs.contains(digest_of(host)) || label_match(host, hosts),
    }
}

fn tokens_of(s: &[char]) -> (out: Vec<Vec<char>>)
    ensures
        crate::rows::char_rows(out@) == host_tokens(s@),
{
    let mut out: Vec<Vec<char>> = Vec::new();
    let mut cur: Vec<char> = Vec::new();
    let mut i: usize = 0;
    while i < s.len()
        invariant
            i <= s@.len(),
            (crate::rows::char_rows(out@), cur@) == token_scan(s@.take(i as int)),
        decreases s.len() - i,
    {
        proof {
            assert(s@.take(i + 1).drop_last() =~= s@.take(i as int));
        }
        let c = s[i];
        if crate::text::is_ascii_alnum_char(c) || c == '-' || c == '.' {
            cur.push(c);
        } else {
            let ghost before = out@;
            let ghost last = cur@;
            out.push(cur);
            cur = Vec::new();
            proof {
                assert(crate::rows::char_rows(out@) =~= crate::rows::char_rows(before).push(last));
            }
        }
        i += 1;
    }
    proof {
        assert(s@.take(i as int) =~= s@);
    }
    let ghost before = out@;
    let ghost last = cur@;
    out.push(cur);
    proof {
        assert(crate::rows::char_rows(out@) =~= crate::rows::char_rows(before).push(last));
    }
    out
}

fn lower_chars(s: &[char]) -> (out: Vec<char>)
    ensures
        out@ == lower_seq(s@),
{
    let mut out: Vec<char> = Vec::new();
    let mut i: usize = 0;
    while i < s.len()
        invariant
            i <= s@.len(),
            out@ == lower_seq(s@.take(i as int)),
        decreases s.len() - i,
    {
        proof {
            assert(lower_seq(s@.take(i + 1)) =~= lower_seq(s@.take(i as int)).push(
                crate::text::lower(s@[i as int]),
            ));
        }
        out.push(crate::text::lower_char(s[i]));
        i += 1;
    }
    assert(s@.take(i as int) =~= s@);
    out
}

/// Whether `url` names a host in `hosts` or an address in `addrs`, comparing digests.
pub fn matches_any(url: &str, hosts: &[u64], addrs: &[u64]) -> (r: bool)
    ensures
        r == names_any(url@, hosts@, addrs@),
{
    match host_of(url) {
        Some(host) => contains_u64(addrs, digest(host.as_str())) || label_matches(
            host.as_str(),
            hosts,
        ),
        None => {
            let chars = chars_of(url);
            let lowered = lower_chars(chars.as_slice());
            let tokens = tokens_of(lowered.as_slice());
            let ghost tv = crate::rows::char_rows(tokens@);
            let mut k: usize = 0;
            while k < tokens.len()
                invariant
                    k <= tokens@.len(),
                    tv == crate::rows::char_rows(tokens@),
                    tv == host_tokens(lower_seq(url@)),
                    host_in(parsed_url(url@)) is None,
                    forall|j: int| 0 <= j < k ==> !label_match(#[trigger] tv[j], hosts@),
                decreases tokens.len() - k,
            {
                let token = string_of(tokens[k].as_slice());
                if label_matches(token.as_str(), hosts) {
                    assert(tv[k as int] == token@);
                    assert(label_match(tv[k as int], hosts@));
                    return true;
                }
                k += 1;
            }
            false
        },
    }
}

/// Whether this URL reaches the production instance, by its name or by an address.
pub fn names_production(url: &str) -> (r: bool)
    ensures
        r == names_any(url@, PROD_HOST_DIGESTS@, PROD_ADDR_DIGESTS@),
{
    matches_any(url, &PROD_HOST_DIGESTS, &PROD_ADDR_DIGESTS)
}

/// A start against production that was not asked for.
#[derive(Debug, Clone, PartialEq, Eq)]
pub struct ProductionRefused {
    /// The URL that names production.
    pub url: String,
}

impl ProductionRefused {
    /// What to tell the user.
    pub fn message(&self) -> (s: String)
        ensures
            s@ == self.url@ + " is the production server, holding real task data.\nPass --i-know-this-is-prod if you mean it, or point server.url at the dev instance.\nNothing automated may write here: tests, seeding and resets all refuse this host."@,
    {
        let mut out = chars_of(self.url.as_str());
        let rest = chars_of(
            " is the production server, holding real task data.\nPass --i-know-this-is-prod if you mean it, or point server.url at the dev instance.\nNothing automated may write here: tests, seeding and resets all refuse this host.",
        );
        push_all(&mut out, rest.as_slice());
        string_of(out.as_slice())
    }
}

/// Refuse to start against production unless it was asked for explicitly: a start goes
/// ahead when it was acknowledged or when `url` does not name production.
pub fn guard_production(url: &str, acknowledged: bool) -> (r: Result<(), ProductionRefused>)
    ensures
        r is Ok == (acknowledged || !names_any(url@, PROD_HOST_DIGESTS@, PROD_ADDR_DIGESTS@)),
        r matches Err(e) ==> e.url@ == url@,
{
    if acknowledged || !names_production(url) {
        return Ok(());
    }
    let chars = chars_of(url);
    Err(ProductionRefused { url: string_of(chars.as_slice()) })
}

} // verus!
