//! Links found in a task.
//!
//! A URL reaches a task in three shapes: bare in a title or plain-text description, as a
//! Markdown `[text](url)`, or inside the `href="…"` of stored HTML. Rather than parse
//! three grammars, this scans for the scheme and reads to the first character that cannot
//! be in a URL, which happens to terminate all three.
//!
//! Nothing here opens anything; this module is pure string work.
use crate::models::Task;
use crate::text::{
    chars_of, is_control, is_control_char, is_space, is_space_char, matches_at, occurs_at,
    slice_to_vec, string_of, trim, trimmed,
};
use vstd::prelude::*;

verus! {

/// Where a link came from, for the picker's dimmed right-hand column.
#[derive(Debug, Clone, Copy, PartialEq, Eq, Structural)]
pub enum Source {
    /// The task's title.
    Title,
    /// The task's description.
    Description,
}

/// What the picker shows for a source.
pub open spec fn hint_text(source: Source) -> Seq<char> {
    match source {
        Source::Title => "title"@,
        Source::Description => "description"@,
    }
}

impl Source {
    /// What the picker shows.
    pub fn hint(self) -> (s: &'static str)
        ensures
            s@ == hint_text(self),
    {
        match self {
            Source::Title => "title",
            Source::Description => "description",
        }
    }
}

/// One link found in a task.
#[derive(Debug, Clone, PartialEq, Eq)]
pub struct Link {
    /// The URL itself, entity-decoded and stripped of trailing prose punctuation.
    pub url: String,
    /// The Markdown link text, when there was one and it says more than the URL does.
    pub label: Option<String>,
    /// Which field it was found in.
    pub source: Source,
}

/// A link as a value.
pub struct LinkView {
    pub url: Seq<char>,
    pub label: Option<Seq<char>>,
    pub source: Source,
}

impl View for Link {
    type V = LinkView;

    open spec fn view(&self) -> LinkView {
        LinkView {
            url: self.url@,
            label: match self.label {
                Some(l) => Some(l@),
                None => None,
            },
            source: self.source,
        }
    }
}

/// The schemes worth opening, in the order they are tried.
pub open spec fn https() -> Seq<char> {
    seq!['h', 't', 't', 'p', 's', ':', '/', '/']
}

/// The other scheme worth opening.
pub open spec fn http() -> Seq<char> {
    seq!['h', 't', 't', 'p', ':', '/', '/']
}

/// Whether a link scheme starts at `at`.
pub open spec fn scheme_at(text: Seq<char>, at: int) -> bool {
    occurs_at(text, https(), at) || occurs_at(text, http(), at)
}

/// Characters that cannot appear in a URL and therefore end one. `)` is deliberately
/// absent: it occurs inside real addresses, and [`balance`] decides which ones were the
/// prose's.
pub open spec fn is_terminator(c: char) -> bool {
    c == '"' || c == '\'' || c == '<' || c == '>' || c == ']' || c == '}' || c == '`' || c
        == '\\' || c == '|'
}

/// Whether a URL stops before `c`.
pub open spec fn stops(c: char) -> bool {
    is_space(c) || is_control(c) || is_terminator(c)
}

/// Punctuation that ends a sentence rather than a URL.
pub open spec fn is_trailing(c: char) -> bool {
    c == '.' || c == ',' || c == ';' || c == ':' || c == '!' || c == '?'
}

/// Where a URL starting at `at` ends: the first stopping character, or the end.
pub open spec fn scan_end(text: Seq<char>, at: int) -> int
    decreases text.len() - at,
{
    if at < 0 || at >= text.len() || stops(text[at]) {
        at
    } else {
        scan_end(text, at + 1)
    }
}

/// `text` without its trailing sentence punctuation.
pub open spec fn trim_trailing(text: Seq<char>) -> Seq<char>
    decreases text.len(),
{
    if text.len() > 0 && is_trailing(text.last()) {
        trim_trailing(text.drop_last())
    } else {
        text
    }
}

/// How many times `c` occurs in `text`.
pub open spec fn count(text: Seq<char>, c: char) -> nat
    decreases text.len(),
{
    if text.len() == 0 {
        0
    } else {
        count(text.drop_last(), c) + if text.last() == c {
            1nat
        } else {
            0nat
        }
    }
}

/// `url` with every trailing `)` that no `(` inside it opened taken off.
pub open spec fn balanced(url: Seq<char>) -> Seq<char>
    decreases url.len(),
{
    if url.len() == 0 || url.last() != ')' || count(url, '(') >= count(url, ')') {
        url
    } else {
        balanced(url.drop_last())
    }
}

/// `&amp;` read as `&`, left to right, as `str::replace` does.
pub open spec fn decoded(text: Seq<char>) -> Seq<char>
    decreases text.len(),
{
    if text.len() == 0 {
        text
    } else if occurs_at(text, amp(), 0) {
        seq!['&'] + decoded(text.subrange(5, text.len() as int))
    } else {
        seq![text[0]] + decoded(text.drop_first())
    }
}

/// The entity that is decoded.
pub open spec fn amp() -> Seq<char> {
    seq!['&', 'a', 'm', 'p', ';']
}

/// The length of the scheme `url` starts with.
pub open spec fn scheme_len(url: Seq<char>) -> int {
    if occurs_at(url, https(), 0) {
        8
    } else if occurs_at(url, http(), 0) {
        7
    } else {
        usize::MAX as int
    }
}

/// The text of a candidate starting at `at`: trimmed of prose punctuation, balanced, and
/// trimmed again, since a `)` taken off can uncover a `.` before it.
pub open spec fn candidate(text: Seq<char>, at: int) -> Seq<char> {
    trim_trailing(balanced(trim_trailing(text.subrange(at, scan_end(text, at)))))
}

/// The URLs a field holds, in the order they appear, before duplicates are dropped.
pub open spec fn urls_from(text: Seq<char>, at: int) -> Seq<Seq<char>>
    decreases text.len() - at,
{
    if at < 0 || at >= text.len() {
        Seq::empty()
    } else if scheme_at(text, at) {
        let cand = candidate(text, at);
        let next = if at < scan_end(text, at) <= text.len() {
            scan_end(text, at)
        } else {
            at + 1
        };
        (if cand.len() > scheme_len(cand) {
            seq![decoded(cand)]
        } else {
            Seq::empty()
        }) + urls_from(text, next)
    } else {
        urls_from(text, at + 1)
    }
}

/// The first index from `at` on holding `c`.
pub open spec fn find_from(text: Seq<char>, c: char, at: int) -> Option<int>
    decreases text.len() - at,
{
    if at < 0 || at >= text.len() {
        None
    } else if text[at] == c {
        Some(at)
    } else {
        find_from(text, c, at + 1)
    }
}

/// The `[text](url)` pair whose `[` is at `open`, when there is one with a linkable target.
pub open spec fn pair_at(text: Seq<char>, open: int) -> Seq<(Seq<char>, Seq<char>)> {
    match find_from(text, ']', open + 1) {
        None => Seq::empty(),
        Some(close) => if close + 1 < text.len() && text[close + 1] == '(' {
            match find_from(text, ')', close + 1) {
                None => Seq::empty(),
                Some(end) => {
                    let target = text.subrange(close + 2, end);
                    if occurs_at(target, https(), 0) || occurs_at(target, http(), 0) {
                        seq![(decoded(target), trimmed(text.subrange(open + 1, close)))]
                    } else {
                        Seq::empty()
                    }
                },
            }
        } else {
            Seq::empty()
        },
    }
}

/// Every `[text](url)` pair from `at` on, as (target, text).
pub open spec fn pairs_from(text: Seq<char>, at: int) -> Seq<(Seq<char>, Seq<char>)>
    decreases text.len() - at,
{
    if at < 0 || at >= text.len() {
        Seq::empty()
    } else if text[at] == '[' {
        pair_at(text, at) + pairs_from(text, at + 1)
    } else {
        pairs_from(text, at + 1)
    }
}

/// The text of the first pair naming `url`, if it says something the URL does not.
pub open spec fn label_for(pairs: Seq<(Seq<char>, Seq<char>)>, url: Seq<char>) -> Option<Seq<char>>
    decreases pairs.len(),
{
    if pairs.len() == 0 {
        None
    } else if pairs[0].0 == url {
        if pairs[0].1 != url {
            Some(pairs[0].1)
        } else {
            None
        }
    } else {
        label_for(pairs.drop_first(), url)
    }
}

/// Whether `found` already holds a link to `url`.
pub open spec fn has_url(found: Seq<LinkView>, url: Seq<char>) -> bool {
    exists|i: int| 0 <= i < found.len() && (#[trigger] found[i]).url == url
}

/// `found` with every URL of `urls` appended in order, skipping those already present.
pub open spec fn absorb(
    found: Seq<LinkView>,
    urls: Seq<Seq<char>>,
    pairs: Seq<(Seq<char>, Seq<char>)>,
    source: Source,
) -> Seq<LinkView>
    decreases urls.len(),
{
    if urls.len() == 0 {
        found
    } else {
        let rest = absorb(found, urls.drop_last(), pairs, source);
        if has_url(rest, urls.last()) {
            rest
        } else {
            rest.push(LinkView { url: urls.last(), label: label_for(pairs, urls.last()), source })
        }
    }
}

/// Every link in a task, title first, in the order they appear, without duplicates.
pub open spec fn extracted(title: Seq<char>, description: Seq<char>) -> Seq<LinkView> {
    let from_title = absorb(Seq::empty(), urls_from(title, 0), pairs_from(title, 0), Source::Title);
    absorb(from_title, urls_from(description, 0), pairs_from(description, 0), Source::Description)
}

/// Every link in a task, title first, in the order they appear, without duplicates.
///
/// Deduplicated by URL because the common HTML shape names the same address twice, in the
/// attribute and again as the anchor text.
pub fn extract(task: &Task) -> (found: Vec<Link>)
    ensures
        found@.map_values(|l: Link| l@) == extracted(task.title@, task.description@),
{
    let mut found: Vec<Link> = Vec::new();
    assert(found@.map_values(|l: Link| l@) =~= Seq::<LinkView>::empty());
    let title = chars_of(task.title.as_str());
    let description = chars_of(task.description.as_str());
    scan(title.as_slice(), Source::Title, &mut found);
    scan(description.as_slice(), Source::Description, &mut found);
    found
}

fn is_terminator_char(c: char) -> (r: bool)
    ensures
        r == is_terminator(c),
{
    c == '"' || c == '\'' || c == '<' || c == '>' || c == ']' || c == '}' || c == '`' || c
        == '\\' || c == '|'
}

fn https_chars() -> (v: Vec<char>)
    ensures
        v@ == https(),
{
    let v = vec!['h', 't', 't', 'p', 's', ':', '/', '/'];
    assert(v@ =~= https());
    v
}

fn http_chars() -> (v: Vec<char>)
    ensures
        v@ == http(),
{
    let v = vec!['h', 't', 't', 'p', ':', '/', '/'];
    assert(v@ =~= http());
    v
}

fn url_end(text: &[char], start: usize) -> (end: usize)
    requires
        start <= text.len(),
    ensures
        end == scan_end(text@, start as int),
        start <= end <= text.len(),
{
    let mut end = start;
    while end < text.len() && !(is_space_char(text[end]) || is_control_char(text[end])
        || is_terminator_char(text[end]))
        invariant
            start <= end <= text.len(),
            scan_end(text@, start as int) == scan_end(text@, end as int),
        decreases text.len() - end,
    {
        end += 1;
    }
    end
}

proof fn lemma_trim_trailing_prefix(text: Seq<char>)
    ensures
        trim_trailing(text).len() <= text.len(),
        trim_trailing(text) == text.subrange(0, trim_trailing(text).len() as int),
    decreases text.len(),
{
    if text.len() > 0 && is_trailing(text.last()) {
        lemma_trim_trailing_prefix(text.drop_last());
        assert(trim_trailing(text) =~= text.subrange(0, trim_trailing(text).len() as int));
    } else {
        assert(text =~= text.subrange(0, text.len() as int));
    }
}

fn trailing_trimmed_len(text: &[char], start: usize, end: usize) -> (n: usize)
    requires
        start <= end <= text.len(),
    ensures
        start <= n <= end,
        text@.subrange(start as int, n as int) == trim_trailing(
            text@.subrange(start as int, end as int),
        ),
{
    let mut n = end;
    while n > start && (text[n - 1] == '.' || text[n - 1] == ',' || text[n - 1] == ';' || text[n
        - 1] == ':' || text[n - 1] == '!' || text[n - 1] == '?')
        invariant
            start <= n <= end <= text.len(),
            trim_trailing(text@.subrange(start as int, end as int)) == trim_trailing(
                text@.subrange(start as int, n as int),
            ),
        decreases n - start,
    {
        proof {
            assert(text@.subrange(start as int, n as int).drop_last() =~= text@.subrange(
                start as int,
                n - 1,
            ));
        }
        n -= 1;
    }
    n
}

proof fn lemma_count_push(text: Seq<char>, c: char, d: char)
    ensures
        count(text.push(d), c) == count(text, c) + if d == c {
            1nat
        } else {
            0nat
        },
{
    assert(text.push(d).drop_last() =~= text);
}

fn count_in(text: &[char], start: usize, end: usize, c: char) -> (n: usize)
    requires
        start <= end <= text.len(),
    ensures
        n == count(text@.subrange(start as int, end as int), c),
{
    let mut n: usize = 0;
    let mut i = start;
    while i < end
        invariant
            start <= i <= end <= text.len(),
            n == count(text@.subrange(start as int, i as int), c),
            n <= i - start,
        decreases end - i,
    {
        proof {
            lemma_count_push(text@.subrange(start as int, i as int), c, text@[i as int]);
            assert(text@.subrange(start as int, i as int).push(text@[i as int]) =~= text@.subrange(
                start as int,
                i + 1,
            ));
        }
        if text[i] == c {
            n += 1;
        }
        i += 1;
    }
    n
}

/// The end of `text[start..end]` once trailing `)` that nothing opened are dropped.
fn balance(text: &[char], start: usize, end: usize) -> (n: usize)
    requires
        start <= end <= text.len(),
    ensures
        start <= n <= end,
        text@.subrange(start as int, n as int) == balanced(text@.subrange(start as int, end as int)),
{
    let mut n = end;
    loop
        invariant
            start <= n <= end <= text.len(),
            balanced(text@.subrange(start as int, end as int)) == balanced(
                text@.subrange(start as int, n as int),
            ),
        decreases n - start,
    {
        let ghost cand = text@.subrange(start as int, n as int);
        if n == start || text[n - 1] != ')' {
            return n;
        }
        let opens = count_in(text, start, n, '(');
        let closes = count_in(text, start, n, ')');
        if opens >= closes {
            return n;
        }
        proof {
            assert(cand.drop_last() =~= text@.subrange(start as int, n - 1));
        }
        n -= 1;
    }
}

proof fn lemma_decoded_len(text: Seq<char>)
    ensures
        decoded(text).len() <= text.len(),
    decreases text.len(),
{
    if text.len() > 0 {
        if occurs_at(text, amp(), 0) {
            lemma_decoded_len(text.subrange(5, text.len() as int));
        } else {
            lemma_decoded_len(text.drop_first());
        }
    }
}

/// `text[start..end]` with `&amp;` read as `&`.
fn decode_entities(text: &[char], start: usize, end: usize) -> (out: Vec<char>)
    requires
        start <= end <= text.len(),
    ensures
        out@ == decoded(text@.subrange(start as int, end as int)),
{
    let amp_chars = vec!['&', 'a', 'm', 'p', ';'];
    assert(amp_chars@ =~= amp());
    let mut out: Vec<char> = Vec::new();
    let mut i = start;
    while i < end
        invariant
            start <= i <= end <= text.len(),
            amp_chars@ == amp(),
            out@ + decoded(text@.subrange(i as int, end as int)) == decoded(
                text@.subrange(start as int, end as int),
            ),
        decreases end - i,
    {
        let ghost rest = text@.subrange(i as int, end as int);
        let ghost before = out@;
        let here = end - i >= 5 && matches_at(text, amp_chars.as_slice(), i);
        proof {
            if end - i >= 5 {
                assert(rest.subrange(0, 5) =~= text@.subrange(i as int, i + 5));
            }
            assert(here == occurs_at(rest, amp(), 0));
        }
        if here {
            out.push('&');
            proof {
                assert(rest.subrange(5, rest.len() as int) =~= text@.subrange(i + 5, end as int));
                assert(out@ + decoded(text@.subrange(i + 5, end as int)) =~= before + decoded(rest));
            }
            i += 5;
        } else {
            out.push(text[i]);
            proof {
                assert(rest.drop_first() =~= text@.subrange(i + 1, end as int));
                assert(out@ + decoded(text@.subrange(i + 1, end as int)) =~= before + decoded(rest));
            }
            i += 1;
        }
    }
    proof {
        assert(text@.subrange(end as int, end as int) =~= Seq::<char>::empty());
        assert(out@ + Seq::<char>::empty() =~= out@);
    }
    out
}

proof fn lemma_find_from(text: Seq<char>, c: char, from: int)
    ensures
        find_from(text, c, from) matches Some(i) ==> 0 <= from <= i < text.len() && text[i] == c,
    decreases text.len() - from,
{
    if 0 <= from < text.len() && text[from] != c {
        lemma_find_from(text, c, from + 1);
    }
}

fn find_char(text: &[char], c: char, from: usize) -> (r: Option<usize>)
    ensures
        r matches Some(i) ==> Some(i as int) == find_from(text@, c, from as int) && i < text.len(),
        r is None ==> find_from(text@, c, from as int) is None,
{
    if from >= text.len() {
        return None;
    }
    let mut i = from;
    while i < text.len()
        invariant
            from <= i <= text.len(),
            find_from(text@, c, from as int) == find_from(text@, c, i as int),
        decreases text.len() - i,
    {
        if text[i] == c {
            return Some(i);
        }
        i += 1;
    }
    None
}

/// Whether a scheme starts at `at`.
fn scheme_here(text: &[char], at: usize, https_v: &Vec<char>, http_v: &Vec<char>) -> (r: bool)
    requires
        https_v@ == https(),
        http_v@ == http(),
    ensures
        r == scheme_at(text@, at as int),
{
    matches_at(text, https_v.as_slice(), at) || matches_at(text, http_v.as_slice(), at)
}

/// The `[text](url)` pair whose `[` is at `open`.
fn pair_here(text: &[char], open: usize, https_v: &Vec<char>, http_v: &Vec<char>) -> (r: Option<
    (Vec<char>, Vec<char>),
>)
    requires
        open < text.len(),
        https_v@ == https(),
        http_v@ == http(),
    ensures
        r matches Some(p) ==> pair_at(text@, open as int) == seq![(p.0@, p.1@)],
        r is None ==> pair_at(text@, open as int) == Seq::<(Seq<char>, Seq<char>)>::empty(),
{
    let close = match find_char(text, ']', open + 1) {
        Some(c) => c,
        None => return None,
    };
    if !(close + 1 < text.len() && text[close + 1] == '(') {
        return None;
    }
    let end = match find_char(text, ')', close + 1) {
        Some(e) => e,
        None => return None,
    };
    proof {
        lemma_find_from(text@, ']', open + 1);
        lemma_find_from(text@, ')', close + 1);
    }
    let target = slice_to_vec(text, close + 2, end);
    if matches_at(target.as_slice(), https_v.as_slice(), 0) || matches_at(
        target.as_slice(),
        http_v.as_slice(),
        0,
    ) {
        let url = decode_entities(text, close + 2, end);
        let raw_label = slice_to_vec(text, open + 1, close);
        let label = trim(raw_label.as_slice());
        Some((url, label))
    } else {
        None
    }
}

/// The `[text](url)` pairs in this field, as (target, text).
fn markdown_labels(text: &[char]) -> (pairs: Vec<(Vec<char>, Vec<char>)>)
    ensures
        pairs@.map_values(|p: (Vec<char>, Vec<char>)| (p.0@, p.1@)) == pairs_from(text@, 0),
{
    let https_v = https_chars();
    let http_v = http_chars();
    let mut pairs: Vec<(Vec<char>, Vec<char>)> = Vec::new();
    let mut i: usize = 0;
    while i < text.len()
        invariant
            i <= text.len(),
            https_v@ == https(),
            http_v@ == http(),
            pairs@.map_values(|p: (Vec<char>, Vec<char>)| (p.0@, p.1@)) + pairs_from(text@, i as int)
                == pairs_from(text@, 0),
        decreases text.len() - i,
    {
        let ghost before = pairs@.map_values(|p: (Vec<char>, Vec<char>)| (p.0@, p.1@));
        if text[i] == '[' {
            match pair_here(text, i, &https_v, &http_v) {
                Some(p) => {
                    pairs.push(p);
                    proof {
                        let after = pairs@.map_values(|p: (Vec<char>, Vec<char>)| (p.0@, p.1@));
                        assert(after =~= before + pair_at(text@, i as int));
                        assert(after + pairs_from(text@, i + 1) =~= before + pairs_from(
                            text@,
                            i as int,
                        ));
                    }
                },
                None => {
                    proof {
                        assert(pairs_from(text@, i as int) =~= pairs_from(text@, i + 1));
                    }
                },
            }
        }
        i += 1;
    }
    proof {
        let after = pairs@.map_values(|p: (Vec<char>, Vec<char>)| (p.0@, p.1@));
        assert(after + Seq::<(Seq<char>, Seq<char>)>::empty() =~= after);
    }
    pairs
}

fn same_chars(a: &Vec<char>, b: &Vec<char>) -> (r: bool)
    ensures
        r == (a@ == b@),
{
    if a.len() != b.len() {
        return false;
    }
    let mut i: usize = 0;
    while i < a.len()
        invariant
            a.len() == b.len(),
            i <= a.len(),
            forall|k: int| 0 <= k < i ==> a@[k] == b@[k],
        decreases a.len() - i,
    {
        if a[i] != b[i] {
            return false;
        }
        i += 1;
    }
    assert(a@ =~= b@);
    true
}

fn copy_chars(text: &Vec<char>) -> (copy: Vec<char>)
    ensures
        copy@ == text@,
{
    let mut copy: Vec<char> = Vec::new();
    let mut k: usize = 0;
    while k < text.len()
        invariant
            k <= text.len(),
            copy@ == text@.subrange(0, k as int),
        decreases text.len() - k,
    {
        copy.push(text[k]);
        k += 1;
    }
    assert(copy@ =~= text@);
    copy
}

fn label_lookup(pairs: &Vec<(Vec<char>, Vec<char>)>, url: &Vec<char>) -> (r: Option<Vec<char>>)
    ensures
        (match r {
            Some(l) => Some(l@),
            None => None,
        }) == label_for(pairs@.map_values(|p: (Vec<char>, Vec<char>)| (p.0@, p.1@)), url@),
{
    let ghost all = pairs@.map_values(|p: (Vec<char>, Vec<char>)| (p.0@, p.1@));
    assert(all.subrange(0, all.len() as int) =~= all);
    let mut i: usize = 0;
    while i < pairs.len()
        invariant
            i <= pairs.len(),
            all == pairs@.map_values(|p: (Vec<char>, Vec<char>)| (p.0@, p.1@)),
            label_for(all, url@) == label_for(all.subrange(i as int, all.len() as int), url@),
        decreases pairs.len() - i,
    {
        let ghost rest = all.subrange(i as int, all.len() as int);
        assert(rest[0] == (pairs@[i as int].0@, pairs@[i as int].1@));
        if same_chars(&pairs[i].0, url) {
            if same_chars(&pairs[i].1, url) {
                return None;
            } else {
                return Some(copy_chars(&pairs[i].1));
            }
        }
        proof {
            assert(rest.drop_first() =~= all.subrange(i + 1, all.len() as int));
        }
        i += 1;
    }
    None
}

proof fn lemma_absorb_concat(
    found: Seq<LinkView>,
    a: Seq<Seq<char>>,
    b: Seq<Seq<char>>,
    pairs: Seq<(Seq<char>, Seq<char>)>,
    source: Source,
)
    ensures
        absorb(found, a + b, pairs, source) == absorb(absorb(found, a, pairs, source), b, pairs, source),
    decreases b.len(),
{
    if b.len() == 0 {
        assert(a + b =~= a);
    } else {
        assert((a + b).drop_last() =~= a + b.drop_last());
        lemma_absorb_concat(found, a, b.drop_last(), pairs, source);
    }
}

fn contains_url(found: &Vec<Link>, url: &Vec<char>) -> (r: bool)
    ensures
        r == has_url(found@.map_values(|l: Link| l@), url@),
{
    let ghost view = found@.map_values(|l: Link| l@);
    let mut i: usize = 0;
    while i < found.len()
        invariant
            i <= found.len(),
            view == found@.map_values(|l: Link| l@),
            forall|k: int| 0 <= k < i ==> view[k].url != url@,
        decreases found.len() - i,
    {
        let u = chars_of(found[i].url.as_str());
        if same_chars(&u, url) {
            assert(view[i as int].url == url@);
            return true;
        }
        i += 1;
    }
    false
}

/// Find every link in one field and append the ones not already seen.
fn scan(text: &[char], source: Source, found: &mut Vec<Link>)
    ensures
        final(found)@.map_values(|l: Link| l@) == absorb(
            old(found)@.map_values(|l: Link| l@),
            urls_from(text@, 0),
            pairs_from(text@, 0),
            source,
        ),
{
    let labels = markdown_labels(text);
    let ghost pairs = pairs_from(text@, 0);
    let ghost start = old(found)@.map_values(|l: Link| l@);
    let https_v = https_chars();
    let http_v = http_chars();
    let mut at: usize = 0;
    while at < text.len()
        invariant
            at <= text.len(),
            https_v@ == https(),
            http_v@ == http(),
            pairs == labels@.map_values(|p: (Vec<char>, Vec<char>)| (p.0@, p.1@)),
            absorb(start, urls_from(text@, 0), pairs, source) == absorb(
                found@.map_values(|l: Link| l@),
                urls_from(text@, at as int),
                pairs,
                source,
            ),
        decreases text.len() - at,
    {
        let ghost view = found@.map_values(|l: Link| l@);
        if scheme_here(text, at, &https_v, &http_v) {
            let end = url_end(text, at);
            let n1 = trailing_trimmed_len(text, at, end);
            let n0 = balance(text, at, n1);
            let n2 = trailing_trimmed_len(text, at, n0);
            let ghost cand = text@.subrange(at as int, n2 as int);
            assert(cand == candidate(text@, at as int));
            let starts_https = n2 - at >= 8 && matches_at(text, https_v.as_slice(), at);
            let starts_http = n2 - at >= 7 && matches_at(text, http_v.as_slice(), at);
            proof {
                if n2 - at >= 8 {
                    assert(cand.subrange(0, 8) =~= text@.subrange(at as int, at + 8));
                }
                if n2 - at >= 7 {
                    assert(cand.subrange(0, 7) =~= text@.subrange(at as int, at + 7));
                }
                assert(starts_https == occurs_at(cand, https(), 0));
                assert(starts_http == occurs_at(cand, http(), 0));
            }
            let keep = if starts_https {
                n2 - at > 8
            } else if starts_http {
                n2 - at > 7
            } else {
                false
            };
            assert(keep == (cand.len() > scheme_len(cand)));
            let next = if end > at {
                end
            } else {
                at + 1
            };
            let ghost here = if keep {
                seq![decoded(cand)]
            } else {
                Seq::<Seq<char>>::empty()
            };
            proof {
                assert(urls_from(text@, at as int) == here + urls_from(text@, next as int));
                lemma_absorb_concat(view, here, urls_from(text@, next as int), pairs, source);
            }
            if keep {
                let url = decode_entities(text, at, n2);
                proof {
                    assert(here =~= seq![url@]);
                    assert(seq![url@].drop_last() =~= Seq::<Seq<char>>::empty());
                    assert(absorb(view, Seq::<Seq<char>>::empty(), pairs, source) == view);
                    assert(absorb(view, seq![url@], pairs, source) == (if has_url(view, url@) {
                        view
                    } else {
                        view.push(LinkView { url: url@, label: label_for(pairs, url@), source })
                    }));
                }
                if !contains_url(found, &url) {
                    let label = label_lookup(&labels, &url);
                    let link = Link {
                        url: string_of(url.as_slice()),
                        label: match label {
                            Some(l) => Some(string_of(l.as_slice())),
                            None => None,
                        },
                        source,
                    };
                    found.push(link);
                    proof {
                        assert(found@.map_values(|l: Link| l@) =~= view.push(link@));
                    }
                }
            } else {
                proof {
                    assert(here =~= Seq::<Seq<char>>::empty());
                }
            }
            at = next;
        } else {
            at += 1;
        }
    }
    proof {
        assert(urls_from(text@, at as int) =~= Seq::<Seq<char>>::empty());
    }
}

/// Whether no two links in `links` share a URL.
pub open spec fn distinct_urls(links: Seq<LinkView>) -> bool {
    forall|i: int, j: int| 0 <= i < j < links.len() ==> (#[trigger] links[i]).url != (#[trigger] links[j]).url
}

/// Absorbing keeps what was found, in front, adds only links from `source`, and never a
/// URL twice.
proof fn lemma_absorb(
    found: Seq<LinkView>,
    urls: Seq<Seq<char>>,
    pairs: Seq<(Seq<char>, Seq<char>)>,
    source: Source,
)
    ensures
        found.len() <= absorb(found, urls, pairs, source).len(),
        absorb(found, urls, pairs, source).subrange(0, found.len() as int) == found,
        forall|i: int|
            found.len() <= i < absorb(found, urls, pairs, source).len() ==> (#[trigger] absorb(
                found,
                urls,
                pairs,
                source,
            )[i]).source == source,
        distinct_urls(found) ==> distinct_urls(absorb(found, urls, pairs, source)),
    decreases urls.len(),
{
    if urls.len() > 0 {
        lemma_absorb(found, urls.drop_last(), pairs, source);
        let rest = absorb(found, urls.drop_last(), pairs, source);
        let out = absorb(found, urls, pairs, source);
        if !has_url(rest, urls.last()) {
            assert(out == rest.push(LinkView { url: urls.last(), label: label_for(pairs, urls.last()), source }));
            assert(out.subrange(0, found.len() as int) =~= rest.subrange(0, found.len() as int));
            assert forall|i: int| found.len() <= i < out.len() implies (#[trigger] out[i]).source == source by {
                if i < rest.len() {
                    assert(out[i] == rest[i]);
                }
            }
            if distinct_urls(found) {
                assert forall|i: int, j: int| 0 <= i < j < out.len() implies (#[trigger] out[i]).url
                    != (#[trigger] out[j]).url by {
                    if j < rest.len() {
                        assert(out[i] == rest[i] && out[j] == rest[j]);
                    } else {
                        assert(out[i] == rest[i]);
                        if rest[i].url == urls.last() {
                            assert(has_url(rest, urls.last()));
                        }
                    }
                }
            }
        }
    } else {
        assert(found.subrange(0, found.len() as int) =~= found);
    }
}

/// The links of a task name each URL once, and every link found in the title comes before
/// every link found in the description.
pub proof fn law_links_are_distinct_and_title_first(title: Seq<char>, description: Seq<char>)
    ensures
        distinct_urls(extracted(title, description)),
        forall|i: int, j: int|
            0 <= i < extracted(title, description).len() && 0 <= j < extracted(title, description).len()
                && (#[trigger] extracted(title, description)[i]).source == Source::Title
                && (#[trigger] extracted(title, description)[j]).source == Source::Description
                ==> i < j,
{
    let from_title = absorb(Seq::empty(), urls_from(title, 0), pairs_from(title, 0), Source::Title);
    let all = extracted(title, description);
    lemma_absorb(Seq::empty(), urls_from(title, 0), pairs_from(title, 0), Source::Title);
    lemma_absorb(from_title, urls_from(description, 0), pairs_from(description, 0), Source::Description);
    assert forall|i: int, j: int|
        0 <= i < all.len() && 0 <= j < all.len() && (#[trigger] all[i]).source == Source::Title
            && (#[trigger] all[j]).source == Source::Description implies i < j by {
        if j < from_title.len() {
            assert(all[j] == from_title[j]);
        }
        if i >= from_title.len() {
            assert(all[i].source == Source::Description);
        }
    }
}

/// Whether a URL starts with a scheme worth opening and has more after it.
pub open spec fn linkable(url: Seq<char>) -> bool {
    ||| occurs_at(url, https(), 0) && url.len() > https().len()
    ||| occurs_at(url, http(), 0) && url.len() > http().len()
}

/// Taking trailing punctuation off never lengthens a text.
proof fn lemma_trim_trailing_shrinks(text: Seq<char>)
    ensures
        trim_trailing(text).len() <= text.len(),
    decreases text.len(),
{
    if text.len() > 0 && is_trailing(text.last()) {
        lemma_trim_trailing_shrinks(text.drop_last());
    }
}

/// Taking unmatched brackets off never lengthens a text.
proof fn lemma_balanced_shrinks(url: Seq<char>)
    ensures
        balanced(url).len() <= url.len(),
    decreases url.len(),
{
    if !(url.len() == 0 || url.last() != ')' || count(url, '(') >= count(url, ')')) {
        lemma_balanced_shrinks(url.drop_last());
    }
}

/// Decoding leaves a start free of `&` as it was, and keeps something after it when there
/// was something.
proof fn lemma_decoded_keeps_start(text: Seq<char>, n: int)
    requires
        0 <= n <= text.len(),
        forall|k: int| 0 <= k < n ==> text[k] != '&',
    ensures
        decoded(text).len() >= n,
        decoded(text).subrange(0, n) == text.subrange(0, n),
        text.len() > n ==> decoded(text).len() > n,
    decreases n,
{
    if n > 0 {
        assert(!occurs_at(text, amp(), 0)) by {
            if occurs_at(text, amp(), 0) {
                assert(text.subrange(0, 5)[0] == text[0]);
            }
        }
        let rest = text.drop_first();
        assert forall|k: int| 0 <= k < n - 1 implies rest[k] != '&' by {
            assert(rest[k] == text[k + 1]);
        }
        lemma_decoded_keeps_start(rest, n - 1);
        assert(decoded(text) == seq![text[0]] + decoded(rest));
        assert(decoded(text).subrange(0, n) =~= text.subrange(0, n)) by {
            assert forall|k: int| 0 <= k < n implies decoded(text).subrange(0, n)[k] == text.subrange(0, n)[k] by {
                if k > 0 {
                    assert(decoded(rest).subrange(0, n - 1)[k - 1] == rest.subrange(0, n - 1)[k - 1]);
                }
            }
        }
    }
}

/// A candidate long enough to hold more than its scheme decodes to a linkable URL.
proof fn lemma_candidate_linkable(cand: Seq<char>)
    requires
        cand.len() < usize::MAX,
        cand.len() > scheme_len(cand),
    ensures
        linkable(decoded(cand)),
{
    if occurs_at(cand, https(), 0) {
        assert forall|k: int| 0 <= k < 8 implies cand[k] != '&' by {
            assert(cand.subrange(0, 8)[k] == https()[k]);
        }
        lemma_decoded_keeps_start(cand, 8);
        assert(decoded(cand).subrange(0, 8) =~= https()) by {
            assert(cand.subrange(0, 8) =~= https());
        }
    } else {
        assert(occurs_at(cand, http(), 0));
        assert forall|k: int| 0 <= k < 7 implies cand[k] != '&' by {
            assert(cand.subrange(0, 7)[k] == http()[k]);
        }
        lemma_decoded_keeps_start(cand, 7);
        assert(decoded(cand).subrange(0, 7) =~= http()) by {
            assert(cand.subrange(0, 7) =~= http());
        }
    }
}

/// Every URL a field holds starts with a scheme worth opening and has more after it.
#[verifier::spinoff_prover]
proof fn lemma_urls_linkable(text: Seq<char>, at: int)
    requires
        text.len() < usize::MAX,
    ensures
        forall|i: int| 0 <= i < urls_from(text, at).len() ==> linkable(#[trigger] urls_from(text, at)[i]),
    decreases text.len() - at,
{
    if at < 0 || at >= text.len() {
    } else if scheme_at(text, at) {
        let cand = candidate(text, at);
        let next = if at < scan_end(text, at) <= text.len() {
            scan_end(text, at)
        } else {
            at + 1
        };
        lemma_urls_linkable(text, next);
        let head = if cand.len() > scheme_len(cand) {
            seq![decoded(cand)]
        } else {
            Seq::<Seq<char>>::empty()
        };
        lemma_scan_end_bounded(text, at);
        if cand.len() > scheme_len(cand) {
            let raw = text.subrange(at, scan_end(text, at));
            lemma_trim_trailing_shrinks(raw);
            lemma_balanced_shrinks(trim_trailing(raw));
            lemma_trim_trailing_shrinks(balanced(trim_trailing(raw)));
            assert(cand == trim_trailing(balanced(trim_trailing(raw))));
            lemma_candidate_linkable(cand);
            assert(linkable(head[0]));
        }
        let all = urls_from(text, at);
        assert(all == head + urls_from(text, next));
        assert forall|i: int| 0 <= i < all.len() implies linkable(#[trigger] all[i]) by {
            if i >= head.len() {
                assert(all[i] == urls_from(text, next)[i - head.len()]);
            }
        }
    } else {
        lemma_urls_linkable(text, at + 1);
        assert(urls_from(text, at) == urls_from(text, at + 1));
    }
}

/// Where a URL ends stays within the text.
proof fn lemma_scan_end_bounded(text: Seq<char>, at: int)
    requires
        0 <= at <= text.len(),
    ensures
        at <= scan_end(text, at) <= text.len(),
    decreases text.len() - at,
{
    if !(at < 0 || at >= text.len() || stops(text[at])) {
        lemma_scan_end_bounded(text, at + 1);
    }
}

/// Every link found starts with `https://` or `http://` and has more after the scheme.
pub proof fn law_links_have_a_scheme(title: Seq<char>, description: Seq<char>)
    requires
        title.len() < usize::MAX,
        description.len() < usize::MAX,
    ensures
        forall|i: int|
            0 <= i < extracted(title, description).len() ==> linkable(
                (#[trigger] extracted(title, description)[i]).url,
            ),
{
    lemma_urls_linkable(title, 0);
    lemma_urls_linkable(description, 0);
    lemma_absorb_from(Seq::empty(), urls_from(title, 0), pairs_from(title, 0), Source::Title);
    let from_title = absorb(Seq::empty(), urls_from(title, 0), pairs_from(title, 0), Source::Title);
    lemma_absorb_from(from_title, urls_from(description, 0), pairs_from(description, 0), Source::Description);
}

/// Every link absorbing adds carries one of the URLs it was given.
proof fn lemma_absorb_from(
    found: Seq<LinkView>,
    urls: Seq<Seq<char>>,
    pairs: Seq<(Seq<char>, Seq<char>)>,
    source: Source,
)
    requires
        forall|i: int| 0 <= i < found.len() ==> linkable((#[trigger] found[i]).url),
        forall|i: int| 0 <= i < urls.len() ==> linkable(#[trigger] urls[i]),
    ensures
        forall|i: int|
            0 <= i < absorb(found, urls, pairs, source).len() ==> linkable(
                (#[trigger] absorb(found, urls, pairs, source)[i]).url,
            ),
    decreases urls.len(),
{
    if urls.len() > 0 {
        assert forall|i: int| 0 <= i < urls.drop_last().len() implies linkable(
            #[trigger] urls.drop_last()[i],
        ) by {
            assert(urls.drop_last()[i] == urls[i]);
        }
        lemma_absorb_from(found, urls.drop_last(), pairs, source);
        let rest = absorb(found, urls.drop_last(), pairs, source);
        let out = absorb(found, urls, pairs, source);
        assert(linkable(urls[urls.len() - 1]));
        assert forall|i: int| 0 <= i < out.len() implies linkable((#[trigger] out[i]).url) by {
            if i < rest.len() {
                assert(out[i] == rest[i]);
            }
        }
    }
}

/// Whether a text holds no whitespace.
pub open spec fn spaceless(text: Seq<char>) -> bool {
    forall|k: int| 0 <= k < text.len() ==> !is_space(#[trigger] text[k])
}

/// Taking unmatched brackets off leaves a start of the text.
proof fn lemma_balanced_start(url: Seq<char>)
    ensures
        balanced(url).len() <= url.len(),
        balanced(url) == url.subrange(0, balanced(url).len() as int),
    decreases url.len(),
{
    if !(url.len() == 0 || url.last() != ')' || count(url, '(') >= count(url, ')')) {
        lemma_balanced_start(url.drop_last());
        assert(balanced(url) =~= url.subrange(0, balanced(url).len() as int));
    } else {
        assert(url =~= url.subrange(0, url.len() as int));
    }
}

/// A URL runs until the first character that stops it.
proof fn lemma_scan_end_clean(text: Seq<char>, at: int)
    requires
        0 <= at <= text.len(),
    ensures
        forall|k: int| at <= k < scan_end(text, at) ==> !stops(#[trigger] text[k]),
    decreases text.len() - at,
{
    if !(at < 0 || at >= text.len() || stops(text[at])) {
        lemma_scan_end_clean(text, at + 1);
    }
}

/// Decoding brings in no whitespace.
proof fn lemma_decoded_spaceless(text: Seq<char>)
    requires
        spaceless(text),
    ensures
        spaceless(decoded(text)),
    decreases text.len(),
{
    if text.len() > 0 {
        if occurs_at(text, amp(), 0) {
            let rest = text.subrange(5, text.len() as int);
            assert forall|k: int| 0 <= k < rest.len() implies !is_space(#[trigger] rest[k]) by {
                assert(rest[k] == text[k + 5]);
            }
            lemma_decoded_spaceless(rest);
            let d = decoded(text);
            assert(d == seq!['&'] + decoded(rest));
            assert forall|k: int| 0 <= k < d.len() implies !is_space(#[trigger] d[k]) by {
                if k > 0 {
                    assert(d[k] == decoded(rest)[k - 1]);
                } else {
                    assert(!is_space('&'));
                }
            }
        } else {
            let rest = text.drop_first();
            assert forall|k: int| 0 <= k < rest.len() implies !is_space(#[trigger] rest[k]) by {
                assert(rest[k] == text[k + 1]);
            }
            lemma_decoded_spaceless(rest);
            let d = decoded(text);
            assert(d == seq![text[0]] + decoded(rest));
            assert forall|k: int| 0 <= k < d.len() implies !is_space(#[trigger] d[k]) by {
                if k > 0 {
                    assert(d[k] == decoded(rest)[k - 1]);
                } else {
                    assert(d[0] == text[0]);
                }
            }
        }
    }
}

/// Every URL a field holds has no whitespace in it.
#[verifier::spinoff_prover]
proof fn lemma_urls_spaceless(text: Seq<char>, at: int)
    ensures
        forall|i: int| 0 <= i < urls_from(text, at).len() ==> spaceless(#[trigger] urls_from(text, at)[i]),
    decreases text.len() - at,
{
    if at < 0 || at >= text.len() {
    } else if scheme_at(text, at) {
        let cand = candidate(text, at);
        let next = if at < scan_end(text, at) <= text.len() {
            scan_end(text, at)
        } else {
            at + 1
        };
        lemma_urls_spaceless(text, next);
        let head = if cand.len() > scheme_len(cand) {
            seq![decoded(cand)]
        } else {
            Seq::<Seq<char>>::empty()
        };
        lemma_scan_end_bounded(text, at);
        lemma_scan_end_clean(text, at);
        let raw = text.subrange(at, scan_end(text, at));
        assert forall|k: int| 0 <= k < raw.len() implies !is_space(#[trigger] raw[k]) by {
            assert(raw[k] == text[at + k]);
            assert(!stops(text[at + k]));
        }
        let t1 = trim_trailing(raw);
        lemma_trim_trailing_prefix(raw);
        assert forall|k: int| 0 <= k < t1.len() implies !is_space(#[trigger] t1[k]) by {
            assert(t1[k] == raw.subrange(0, t1.len() as int)[k]);
        }
        let t2 = balanced(t1);
        lemma_balanced_start(t1);
        assert forall|k: int| 0 <= k < t2.len() implies !is_space(#[trigger] t2[k]) by {
            assert(t2[k] == t1.subrange(0, t2.len() as int)[k]);
        }
        lemma_trim_trailing_prefix(t2);
        assert(cand == trim_trailing(t2));
        assert forall|k: int| 0 <= k < cand.len() implies !is_space(#[trigger] cand[k]) by {
            assert(cand[k] == t2.subrange(0, cand.len() as int)[k]);
        }
        lemma_decoded_spaceless(cand);
        let all = urls_from(text, at);
        assert(all == head + urls_from(text, next));
        assert forall|i: int| 0 <= i < all.len() implies spaceless(#[trigger] all[i]) by {
            if i >= head.len() {
                assert(all[i] == urls_from(text, next)[i - head.len()]);
            }
        }
    } else {
        lemma_urls_spaceless(text, at + 1);
        assert(urls_from(text, at) == urls_from(text, at + 1));
    }
}

/// Every link absorbing adds carries one of the URLs it was given, so holds no whitespace
/// when none of them does.
proof fn lemma_absorb_spaceless(
    found: Seq<LinkView>,
    urls: Seq<Seq<char>>,
    pairs: Seq<(Seq<char>, Seq<char>)>,
    source: Source,
)
    requires
        forall|i: int| 0 <= i < found.len() ==> spaceless((#[trigger] found[i]).url),
        forall|i: int| 0 <= i < urls.len() ==> spaceless(#[trigger] urls[i]),
    ensures
        forall|i: int|
            0 <= i < absorb(found, urls, pairs, source).len() ==> spaceless(
                (#[trigger] absorb(found, urls, pairs, source)[i]).url,
            ),
    decreases urls.len(),
{
    if urls.len() > 0 {
        assert forall|i: int| 0 <= i < urls.drop_last().len() implies spaceless(#[trigger] urls.drop_last()[i]) by {
            assert(urls.drop_last()[i] == urls[i]);
        }
        lemma_absorb_spaceless(found, urls.drop_last(), pairs, source);
        let rest = absorb(found, urls.drop_last(), pairs, source);
        let out = absorb(found, urls, pairs, source);
        assert(spaceless(urls[urls.len() - 1]));
        assert forall|i: int| 0 <= i < out.len() implies spaceless((#[trigger] out[i]).url) by {
            if i < rest.len() {
                assert(out[i] == rest[i]);
            }
        }
    }
}

/// No link found holds whitespace in its URL.
pub proof fn law_links_hold_no_whitespace(title: Seq<char>, description: Seq<char>)
    ensures
        forall|i: int|
            0 <= i < extracted(title, description).len() ==> spaceless(
                (#[trigger] extracted(title, description)[i]).url,
            ),
{
    lemma_urls_spaceless(title, 0);
    lemma_urls_spaceless(description, 0);
    lemma_absorb_spaceless(Seq::empty(), urls_from(title, 0), pairs_from(title, 0), Source::Title);
    let from_title = absorb(Seq::empty(), urls_from(title, 0), pairs_from(title, 0), Source::Title);
    lemma_absorb_spaceless(from_title, urls_from(description, 0), pairs_from(description, 0), Source::Description);
}

/// Whether a URL ends in something other than the punctuation that ends a sentence:
/// `.`, `,`, `;`, `:`, `!` or `?`.
pub open spec fn ends_clean(url: Seq<char>) -> bool {
    url.len() > 0 && !(url.last() == '.' || url.last() == ',' || url.last() == ';' || url.last()
        == ':' || url.last() == '!' || url.last() == '?')
}

/// Trimming leaves no sentence punctuation at the end.
proof fn lemma_trim_trailing_ends(text: Seq<char>)
    ensures
        trim_trailing(text).len() > 0 ==> !is_trailing(trim_trailing(text).last()),
    decreases text.len(),
{
    if text.len() > 0 && is_trailing(text.last()) {
        lemma_trim_trailing_ends(text.drop_last());
    }
}

/// Decoding keeps a text's last character, or ends in the `&` an entity stood for.
proof fn lemma_decoded_last(text: Seq<char>)
    requires
        text.len() > 0,
    ensures
        decoded(text).len() > 0,
        decoded(text).last() == text.last() || decoded(text).last() == '&',
    decreases text.len(),
{
    if occurs_at(text, amp(), 0) {
        let rest = text.subrange(5, text.len() as int);
        assert(decoded(text) == seq!['&'] + decoded(rest));
        if rest.len() > 0 {
            lemma_decoded_last(rest);
            assert(rest.last() == text.last());
            assert((seq!['&'] + decoded(rest)).last() == decoded(rest).last());
        } else {
            assert(decoded(rest) == rest);
            assert((seq!['&'] + decoded(rest)) =~= seq!['&']);
        }
    } else {
        let rest = text.drop_first();
        assert(decoded(text) == seq![text[0]] + decoded(rest));
        if rest.len() > 0 {
            lemma_decoded_last(rest);
            assert(rest.last() == text.last());
            assert((seq![text[0]] + decoded(rest)).last() == decoded(rest).last());
        } else {
            assert(decoded(rest) == rest);
            assert((seq![text[0]] + decoded(rest)) =~= seq![text[0]]);
        }
    }
}

/// Every URL a field holds ends clean.
#[verifier::spinoff_prover]
proof fn lemma_urls_end_clean(text: Seq<char>, at: int)
    ensures
        forall|i: int| 0 <= i < urls_from(text, at).len() ==> ends_clean(#[trigger] urls_from(text, at)[i]),
    decreases text.len() - at,
{
    if at < 0 || at >= text.len() {
    } else if scheme_at(text, at) {
        let cand = candidate(text, at);
        let next = if at < scan_end(text, at) <= text.len() {
            scan_end(text, at)
        } else {
            at + 1
        };
        lemma_urls_end_clean(text, next);
        let head = if cand.len() > scheme_len(cand) {
            seq![decoded(cand)]
        } else {
            Seq::<Seq<char>>::empty()
        };
        if cand.len() > scheme_len(cand) {
            let t2 = balanced(trim_trailing(text.subrange(at, scan_end(text, at))));
            assert(cand == trim_trailing(t2));
            lemma_trim_trailing_ends(t2);
            lemma_decoded_last(cand);
            assert(ends_clean(head[0]));
        }
        let all = urls_from(text, at);
        assert(all == head + urls_from(text, next));
        assert forall|i: int| 0 <= i < all.len() implies ends_clean(#[trigger] all[i]) by {
            if i >= head.len() {
                assert(all[i] == urls_from(text, next)[i - head.len()]);
            }
        }
    } else {
        lemma_urls_end_clean(text, at + 1);
        assert(urls_from(text, at) == urls_from(text, at + 1));
    }
}

/// Every link absorbing adds carries one of the URLs it was given, so ends clean when
/// all of them do.
proof fn lemma_absorb_end_clean(
    found: Seq<LinkView>,
    urls: Seq<Seq<char>>,
    pairs: Seq<(Seq<char>, Seq<char>)>,
    source: Source,
)
    requires
        forall|i: int| 0 <= i < found.len() ==> ends_clean((#[trigger] found[i]).url),
        forall|i: int| 0 <= i < urls.len() ==> ends_clean(#[trigger] urls[i]),
    ensures
        forall|i: int|
            0 <= i < absorb(found, urls, pairs, source).len() ==> ends_clean(
                (#[trigger] absorb(found, urls, pairs, source)[i]).url,
            ),
    decreases urls.len(),
{
    if urls.len() > 0 {
        assert forall|i: int| 0 <= i < urls.drop_last().len() implies ends_clean(#[trigger] urls.drop_last()[i]) by {
            assert(urls.drop_last()[i] == urls[i]);
        }
        lemma_absorb_end_clean(found, urls.drop_last(), pairs, source);
        let rest = absorb(found, urls.drop_last(), pairs, source);
        let out = absorb(found, urls, pairs, source);
        assert(ends_clean(urls[urls.len() - 1]));
        assert forall|i: int| 0 <= i < out.len() implies ends_clean((#[trigger] out[i]).url) by {
            if i < rest.len() {
                assert(out[i] == rest[i]);
            }
        }
    }
}

/// No link found ends in sentence punctuation: a `.`, `,`, `;`, `:`, `!` or `?` after a
/// URL in prose belongs to the sentence, not to the address.
pub proof fn law_links_end_before_sentence_punctuation(title: Seq<char>, description: Seq<char>)
    ensures
        forall|i: int|
            0 <= i < extracted(title, description).len() ==> ends_clean(
                (#[trigger] extracted(title, description)[i]).url,
            ),
{
    lemma_urls_end_clean(title, 0);
    lemma_urls_end_clean(description, 0);
    lemma_absorb_end_clean(Seq::empty(), urls_from(title, 0), pairs_from(title, 0), Source::Title);
    let from_title = absorb(Seq::empty(), urls_from(title, 0), pairs_from(title, 0), Source::Title);
    lemma_absorb_end_clean(from_title, urls_from(description, 0), pairs_from(description, 0), Source::Description);
}

} // verus!
