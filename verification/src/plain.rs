//! Turning the HTML Vikunja's editor stores into readable text.
//!
//! Only an allowlist of element names is read as markup, because a description is far
//! more often prose than markup, and prose holds angle brackets: `<http://…>` and
//! `Vec<String>` stay text. Block elements become line breaks, list items a bullet,
//! table cells a space; scripts, styles and comments are dropped; entities decode once,
//! the numeric forms included; whitespace collapses the way HTML says it does.
use crate::rows::split_scan;
use crate::text::{
    chars_of, is_ascii_alnum, is_space, lemma_trimmed_is_trimmed, lower, lower_seq, string_of, trail_start,
    trimmed,
};
use vstd::prelude::*;

verus! {

/// The elements a description is allowed to contain.
pub open spec fn element_names() -> Seq<Seq<char>> {
    seq![
        "a"@, "abbr"@, "audio"@, "b"@, "blockquote"@, "br"@, "caption"@, "code"@, "col"@,
        "colgroup"@, "dd"@, "del"@, "div"@, "dl"@, "dt"@, "em"@, "figcaption"@, "figure"@,
        "h1"@, "h2"@, "h3"@, "h4"@, "h5"@, "h6"@, "hr"@, "i"@, "iframe"@, "img"@, "input"@,
        "ins"@, "kbd"@, "label"@, "li"@, "mark"@, "ol"@, "p"@, "pre"@, "q"@, "s"@, "script"@,
        "small"@, "source"@, "span"@, "strong"@, "style"@, "sub"@, "sup"@, "table"@,
        "tbody"@, "td"@, "tfoot"@, "th"@, "thead"@, "tr"@, "u"@, "ul"@, "video"@,
    ]
}

/// Elements after which a line break belongs.
pub open spec fn block_names() -> Seq<Seq<char>> {
    seq![
        "p"@, "div"@, "br"@, "li"@, "tr"@, "h1"@, "h2"@, "h3"@, "h4"@, "h5"@, "h6"@,
        "blockquote"@, "pre"@, "ul"@, "ol"@, "table"@, "dl"@, "dt"@, "dd"@, "figure"@, "hr"@,
    ]
}

/// Elements whose contents are not prose and are dropped whole.
pub open spec fn opaque_names() -> Seq<Seq<char>> {
    seq!["script"@, "style"@]
}

fn element_list() -> (v: Vec<&'static str>)
    ensures
        v@.map_values(|s: &str| s@) == element_names(),
{
    let v = vec![
        "a", "abbr", "audio", "b", "blockquote", "br", "caption", "code", "col", "colgroup",
        "dd", "del", "div", "dl", "dt", "em", "figcaption", "figure", "h1", "h2", "h3", "h4",
        "h5", "h6", "hr", "i", "iframe", "img", "input", "ins", "kbd", "label", "li", "mark",
        "ol", "p", "pre", "q", "s", "script", "small", "source", "span", "strong", "style",
        "sub", "sup", "table", "tbody", "td", "tfoot", "th", "thead", "tr", "u", "ul", "video",
    ];
    assert(v@.map_values(|s: &str| s@) =~= element_names());
    v
}

fn block_list() -> (v: Vec<&'static str>)
    ensures
        v@.map_values(|s: &str| s@) == block_names(),
{
    let v = vec![
        "p", "div", "br", "li", "tr", "h1", "h2", "h3", "h4", "h5", "h6", "blockquote", "pre",
        "ul", "ol", "table", "dl", "dt", "dd", "figure", "hr",
    ];
    assert(v@.map_values(|s: &str| s@) =~= block_names());
    v
}

fn opaque_list() -> (v: Vec<&'static str>)
    ensures
        v@.map_values(|s: &str| s@) == opaque_names(),
{
    let v = vec!["script", "style"];
    assert(v@.map_values(|s: &str| s@) =~= opaque_names());
    v
}

/// Whether `a` holds the same characters as `b`.
fn same_chars(a: &[char], b: &[char]) -> (r: bool)
    ensures
        r == (a@ == b@),
{
    if a.len() != b.len() {
        return false;
    }
    let mut i: usize = 0;
    while i < a.len()
        invariant
            i <= a@.len(),
            a@.len() == b@.len(),
            forall|k: int| 0 <= k < i ==> a@[k] == b@[k],
        decreases a.len() - i,
    {
        if a[i] != b[i] {
            return false;
        }
        i += 1;
    }
    assert(a@ =~= b@);
    true
}

/// Whether `name` is one of `names`.
fn listed(name: &[char], names: &Vec<&'static str>) -> (r: bool)
    ensures
        r == names@.map_values(|s: &str| s@).contains(name@),
{
    let ghost ns = names@.map_values(|s: &str| s@);
    let mut i: usize = 0;
    while i < names.len()
        invariant
            i <= names@.len(),
            ns == names@.map_values(|s: &str| s@),
            forall|k: int| 0 <= k < i ==> ns[k] != name@,
        decreases names.len() - i,
    {
        let candidate = chars_of(names[i]);
        if same_chars(candidate.as_slice(), name) {
            assert(ns[i as int] == name@);
            return true;
        }
        i += 1;
    }
    proof {
        if ns.contains(name@) {
            let k = choose|k: int| 0 <= k < ns.len() && ns[k] == name@;
            assert(ns[k] != name@);
        }
    }
    false
}

/// Whether `s` is exactly the text `lit`.
fn is_text(s: &[char], lit: &str) -> (r: bool)
    ensures
        r == (s@ == lit@),
{
    let l = chars_of(lit);
    same_chars(s, l.as_slice())
}

/// One tag read from the text: its lowercased name, whether it closes, and the index
/// just past its `>`.
pub struct TagView {
    pub name: Seq<char>,
    pub closing: bool,
    pub end: int,
}

/// The end of the run of ASCII letters and digits that starts at `i`.
pub open spec fn name_end(chars: Seq<char>, i: int) -> int
    decreases chars.len() - i,
{
    if 0 <= i < chars.len() && is_ascii_alnum(chars[i]) {
        name_end(chars, i + 1)
    } else {
        i
    }
}

/// The first `>` at or after `i` outside quotes, reading from inside the quote `quote`
/// when there is one; `None` when the text ends first.
pub open spec fn close_at(chars: Seq<char>, i: int, quote: Option<char>) -> Option<int>
    decreases chars.len() - i,
{
    if i < 0 || i >= chars.len() {
        None
    } else {
        let c = chars[i];
        match quote {
            Some(open) => if c == open {
                close_at(chars, i + 1, None)
            } else {
                close_at(chars, i + 1, quote)
            },
            None => if c == '"' || c == '\'' {
                close_at(chars, i + 1, Some(c))
            } else if c == '>' {
                Some(i)
            } else {
                close_at(chars, i + 1, None)
            },
        }
    }
}

/// The tag that starts at `at`, when there is a recognised one: `<`, an optional `/`, a
/// name on the allowlist ending as a tag name ends (in space, `>` or `/`), and a closing
/// `>` outside quotes. Anything else is text.
pub open spec fn tag_at(chars: Seq<char>, at: int) -> Option<TagView> {
    let closing = 0 <= at + 1 < chars.len() && chars[at + 1] == '/';
    let start = if closing {
        at + 2
    } else {
        at + 1
    };
    let i = name_end(chars, start);
    let name = lower_seq(chars.subrange(start, i));
    if i == start || !element_names().contains(name) {
        None
    } else if !(i < chars.len() && (is_space(chars[i]) || chars[i] == '>' || chars[i] == '/')) {
        None
    } else {
        match close_at(chars, i, None) {
            Some(e) => Some(TagView { name, closing, end: e + 1 }),
            None => None,
        }
    }
}

proof fn lemma_name_end(chars: Seq<char>, i: int)
    requires
        0 <= i <= chars.len(),
    ensures
        i <= name_end(chars, i) <= chars.len(),
        forall|k: int| i <= k < name_end(chars, i) ==> is_ascii_alnum(#[trigger] chars[k]),
    decreases chars.len() - i,
{
    if i < chars.len() && is_ascii_alnum(chars[i]) {
        lemma_name_end(chars, i + 1);
    }
}

proof fn lemma_close_at(chars: Seq<char>, i: int, quote: Option<char>)
    ensures
        close_at(chars, i, quote) matches Some(e) ==> i <= e < chars.len(),
    decreases chars.len() - i,
{
    if 0 <= i < chars.len() {
        let c = chars[i];
        match quote {
            Some(open) => if c == open {
                lemma_close_at(chars, i + 1, None);
            } else {
                lemma_close_at(chars, i + 1, quote);
            },
            None => if c == '"' || c == '\'' {
                lemma_close_at(chars, i + 1, Some(c));
            } else if c != '>' {
                lemma_close_at(chars, i + 1, None);
            },
        }
    }
}

/// A tag found at `at` ends after it, within the text.
pub proof fn lemma_tag_at(chars: Seq<char>, at: int)
    requires
        0 <= at < chars.len(),
    ensures
        tag_at(chars, at) matches Some(t) ==> at + 2 <= t.end <= chars.len(),
{
    let closing = 0 <= at + 1 < chars.len() && chars[at + 1] == '/';
    let start = if closing {
        at + 2
    } else {
        at + 1
    };
    if start <= chars.len() {
        lemma_name_end(chars, start);
        lemma_close_at(chars, name_end(chars, start), None);
    }
}

/// The end of the run of ASCII letters and digits that starts at `i`.
fn name_end_at(chars: &[char], i: usize) -> (r: usize)
    requires
        i <= chars@.len(),
    ensures
        r == name_end(chars@, i as int),
{
    let mut k = i;
    while k < chars.len() && crate::text::is_ascii_alnum_char(chars[k])
        invariant
            i <= k <= chars@.len(),
            name_end(chars@, k as int) == name_end(chars@, i as int),
        decreases chars.len() - k,
    {
        k += 1;
    }
    k
}

/// The first `>` at or after `i` outside quotes.
fn close_from(chars: &[char], i: usize) -> (r: Option<usize>)
    ensures
        match r {
            Some(e) => close_at(chars@, i as int, None) == Some(e as int),
            None => close_at(chars@, i as int, None) is None,
        },
{
    let mut k = i;
    let mut quote: Option<char> = None;
    while k < chars.len()
        invariant
            i <= k,
            close_at(chars@, k as int, quote) == close_at(chars@, i as int, None),
        decreases chars.len() - k,
    {
        let c = chars[k];
        match quote {
            Some(open) => {
                if c == open {
                    quote = None;
                }
            },
            None => {
                if c == '"' || c == '\'' {
                    quote = Some(c);
                } else if c == '>' {
                    return Some(k);
                }
            },
        }
        k += 1;
    }
    None
}

/// The lowercase form of some ASCII characters.
fn lowered(s: &[char]) -> (out: Vec<char>)
    ensures
        out@ == lower_seq(s@),
{
    let mut out: Vec<char> = Vec::new();
    let mut i: usize = 0;
    while i < s.len()
        invariant
            i <= s@.len(),
            out@ == lower_seq(s@.take(i as int)),
        decreases s.len() - i,
    {
        proof {
            assert(lower_seq(s@.take(i + 1)) =~= lower_seq(s@.take(i as int)).push(lower(s@[i as int])));
        }
        out.push(crate::text::lower_char(s[i]));
        i += 1;
    }
    assert(s@.take(i as int) =~= s@);
    out
}

/// A tag as it was read: its lowercased name, whether it closes, and the index past it.
pub struct Tag {
    pub name: Vec<char>,
    pub closing: bool,
    pub end: usize,
}

/// The tag at `at`, if there is a recognised one.
fn read_tag(chars: &[char], at: usize, elements: &Vec<&'static str>) -> (r: Option<Tag>)
    requires
        at < chars@.len(),
        elements@.map_values(|s: &str| s@) == element_names(),
    ensures
        match r {
            Some(t) => tag_at(chars@, at as int) == Some(
                TagView { name: t.name@, closing: t.closing, end: t.end as int },
            ),
            None => tag_at(chars@, at as int) is None,
        },
{
    let closing = at < chars.len() - 1 && chars[at + 1] == '/';
    let start = if closing { at + 2 } else { at + 1 };
    let i = name_end_at(chars, start);
    proof {
        lemma_name_end(chars@, start as int);
    }
    if i == start {
        return None;
    }
    let raw = crate::text::slice_to_vec(chars, start, i);
    let name = lowered(raw.as_slice());
    if !listed(name.as_slice(), elements) {
        return None;
    }
    if !(i < chars.len() && (crate::text::is_space_char(chars[i]) || chars[i] == '>' || chars[i] == '/')) {
        return None;
    }
    match close_from(chars, i) {
        Some(e) => {
            proof {
                lemma_close_at(chars@, i as int, None);
            }
            Some(Tag { name, closing, end: e + 1 })
        },
        None => None,
    }
}

/// Where `-->` first ends at or after `i`, or the text's end.
pub open spec fn dashes_end(chars: Seq<char>, i: int) -> int
    decreases chars.len() - i,
{
    if i < 0 || i + 2 >= chars.len() {
        chars.len() as int
    } else if chars[i] == '-' && chars[i + 1] == '-' && chars[i + 2] == '>' {
        i + 3
    } else {
        dashes_end(chars, i + 1)
    }
}

/// The index past the comment that starts at `at`, if one does: past its `-->`, or the
/// text's end when it never closes.
pub open spec fn comment_close(chars: Seq<char>, at: int) -> Option<int> {
    if 0 <= at && at + 4 <= chars.len() && chars.subrange(at, at + 4) == seq!['<', '!', '-', '-'] {
        Some(dashes_end(chars, at + 4))
    } else {
        None
    }
}

/// A comment ends where it was found or later, and within the text.
pub proof fn lemma_dashes_end(chars: Seq<char>, i: int)
    requires
        0 <= i,
    ensures
        i <= dashes_end(chars, i) <= chars.len() || (i > chars.len() && dashes_end(chars, i) == chars.len()),
    decreases chars.len() - i,
{
    if i + 2 < chars.len() && !(chars[i] == '-' && chars[i + 1] == '-' && chars[i + 2] == '>') {
        lemma_dashes_end(chars, i + 1);
    }
}

/// The index past the comment that starts at `at`, if one does.
fn comment_end(chars: &[char], at: usize) -> (r: Option<usize>)
    requires
        at < chars@.len(),
    ensures
        match r {
            Some(e) => comment_close(chars@, at as int) == Some(e as int),
            None => comment_close(chars@, at as int) is None,
        },
{
    if chars.len() - at < 4 {
        return None;
    }
    if !(chars[at] == '<' && chars[at + 1] == '!' && chars[at + 2] == '-' && chars[at + 3] == '-') {
        proof {
            if chars@.subrange(at as int, at + 4) == seq!['<', '!', '-', '-'] {
                assert(chars@.subrange(at as int, at + 4)[1] == '!');
                assert(chars@.subrange(at as int, at + 4)[2] == '-');
                assert(chars@.subrange(at as int, at + 4)[3] == '-');
                assert(chars@.subrange(at as int, at + 4)[0] == '<');
            }
        }
        return None;
    }
    assert(chars@.subrange(at as int, at + 4) =~= seq!['<', '!', '-', '-']);
    let mut i = at + 4;
    while i < chars.len() && chars.len() - i > 2
        invariant
            at + 4 <= i <= chars@.len(),
            chars@.subrange(at as int, at + 4) == seq!['<', '!', '-', '-'],
            dashes_end(chars@, i as int) == dashes_end(chars@, at + 4),
        decreases chars.len() - i,
    {
        if chars[i] == '-' && chars[i + 1] == '-' && chars[i + 2] == '>' {
            assert(dashes_end(chars@, i as int) == i + 3);
            return Some(i + 3);
        }
        i += 1;
    }
    Some(chars.len())
}

/// The index past the first `</name>` at or after `i`, or the text's end.
pub open spec fn skip_to_close(chars: Seq<char>, i: int, name: Seq<char>) -> int
    decreases chars.len() - i,
{
    if i < 0 || i >= chars.len() {
        chars.len() as int
    } else if chars[i] == '<' && (tag_at(chars, i) matches Some(t) && t.closing && t.name == name) {
        tag_at(chars, i)->Some_0.end
    } else {
        skip_to_close(chars, i + 1, name)
    }
}

/// Skipping an element ends where it started or later, and within the text.
pub proof fn lemma_skip_to_close(chars: Seq<char>, i: int, name: Seq<char>)
    requires
        0 <= i <= chars.len(),
    ensures
        i <= skip_to_close(chars, i, name) <= chars.len(),
    decreases chars.len() - i,
{
    if i < chars.len() {
        lemma_tag_at(chars, i);
        lemma_skip_to_close(chars, i + 1, name);
    }
}

/// The index past `</name>`, for an element whose contents are dropped.
fn skip_element(chars: &[char], from: usize, name: &Vec<char>, elements: &Vec<&'static str>) -> (r: usize)
    requires
        from <= chars@.len(),
        elements@.map_values(|s: &str| s@) == element_names(),
    ensures
        r == skip_to_close(chars@, from as int, name@),
{
    let mut i = from;
    while i < chars.len()
        invariant
            from <= i <= chars@.len(),
            elements@.map_values(|s: &str| s@) == element_names(),
            skip_to_close(chars@, i as int, name@) == skip_to_close(chars@, from as int, name@),
        decreases chars.len() - i,
    {
        if chars[i] == '<' {
            if let Some(tag) = read_tag(chars, i, elements) {
                if tag.closing && same_chars(tag.name.as_slice(), name.as_slice()) {
                    return tag.end;
                }
            }
        }
        i += 1;
    }
    chars.len()
}

/// The value of a digit in base `radix`, or `None` when it is not one.
pub open spec fn digit_of(c: char, radix: int) -> Option<int> {
    if '0' <= c <= '9' && (c as int) - ('0' as int) < radix {
        Some((c as int) - ('0' as int))
    } else if radix == 16 && 'a' <= c <= 'f' {
        Some((c as int) - ('a' as int) + 10)
    } else if radix == 16 && 'A' <= c <= 'F' {
        Some((c as int) - ('A' as int) + 10)
    } else {
        None
    }
}

/// Whether every character of `s` is a digit in base `radix`.
pub open spec fn all_digits(s: Seq<char>, radix: int) -> bool {
    forall|k: int| 0 <= k < s.len() ==> #[trigger] digit_of(s[k], radix) is Some
}

/// The number the digits of `s` spell in base `radix`.
pub open spec fn digits_value(s: Seq<char>, radix: int) -> int
    decreases s.len(),
{
    if s.len() == 0 {
        0
    } else {
        digits_value(s.drop_last(), radix) * radix + digit_of(s.last(), radix)->Some_0
    }
}

/// A `u32` read from `s` in base `radix`, as `u32::from_str_radix` reads it: an optional
/// `+`, then at least one digit and nothing else, with a value that fits.
pub open spec fn parsed_u32(s: Seq<char>, radix: int) -> Option<u32> {
    let ds = if s.len() > 0 && s[0] == '+' {
        s.skip(1)
    } else {
        s
    };
    if ds.len() == 0 || !all_digits(ds, radix) || digits_value(ds, radix) > u32::MAX {
        None
    } else {
        Some(digits_value(ds, radix) as u32)
    }
}

proof fn lemma_digits_value_nonneg(s: Seq<char>, radix: int)
    requires
        radix >= 2,
        all_digits(s, radix),
    ensures
        digits_value(s, radix) >= 0,
    decreases s.len(),
{
    if s.len() > 0 {
        assert(all_digits(s.drop_last(), radix)) by {
            assert forall|k: int| 0 <= k < s.drop_last().len() implies #[trigger] digit_of(
                s.drop_last()[k],
                radix,
            ) is Some by {
                assert(s.drop_last()[k] == s[k]);
            }
        }
        lemma_digits_value_nonneg(s.drop_last(), radix);
        assert(digit_of(s[s.len() - 1], radix) is Some);
        assert(digits_value(s.drop_last(), radix) * radix >= 0) by (nonlinear_arith)
            requires
                digits_value(s.drop_last(), radix) >= 0,
                radix >= 2,
        ;
    }
}

fn digit_value(c: char, radix: u32) -> (r: Option<u32>)
    requires
        radix == 10 || radix == 16,
    ensures
        match r {
            Some(d) => digit_of(c, radix as int) == Some(d as int),
            None => digit_of(c, radix as int) is None,
        },
{
    if '0' <= c && c <= '9' && (c as u32) - ('0' as u32) < radix {
        Some((c as u32) - ('0' as u32))
    } else if radix == 16 && 'a' <= c && c <= 'f' {
        Some((c as u32) - ('a' as u32) + 10)
    } else if radix == 16 && 'A' <= c && c <= 'F' {
        Some((c as u32) - ('A' as u32) + 10)
    } else {
        None
    }
}

/// Read a `u32` from `s` in base `radix`, as `u32::from_str_radix` does.
fn parse_u32(s: &[char], radix: u32) -> (r: Option<u32>)
    requires
        radix == 10 || radix == 16,
    ensures
        r == parsed_u32(s@, radix as int),
{
    let start: usize = if s.len() > 0 && s[0] == '+' { 1 } else { 0 };
    let ghost ds = if s@.len() > 0 && s@[0] == '+' { s@.skip(1) } else { s@ };
    assert(ds =~= s@.subrange(start as int, s@.len() as int));
    if s.len() - start == 0 {
        return None;
    }
    let mut value: u64 = 0;
    let mut i = start;
    while i < s.len()
        invariant
            start <= i <= s@.len(),
            ds == s@.subrange(start as int, s@.len() as int),
            ds == (if s@.len() > 0 && s@[0] == '+' { s@.skip(1) } else { s@ }),
            radix == 10 || radix == 16,
            all_digits(s@.subrange(start as int, i as int), radix as int),
            value == digits_value(s@.subrange(start as int, i as int), radix as int),
            value <= u32::MAX,
        decreases s.len() - i,
    {
        let ghost prefix = s@.subrange(start as int, i + 1);
        proof {
            assert(prefix.drop_last() =~= s@.subrange(start as int, i as int));
        }
        match digit_value(s[i], radix) {
            Some(d) => {
                assert(value * (radix as u64) <= u32::MAX * 16) by (nonlinear_arith)
                    requires
                        value <= u32::MAX,
                        radix <= 16,
                ;
                let next = value * (radix as u64) + d as u64;
                proof {
                    assert forall|k: int| 0 <= k < prefix.len() implies #[trigger] digit_of(
                        prefix[k],
                        radix as int,
                    ) is Some by {
                        if k < prefix.len() - 1 {
                            assert(prefix[k] == s@.subrange(start as int, i as int)[k]);
                        }
                    }
                }
                if next > u32::MAX as u64 {
                    proof {
                        assert(ds.take(i + 1 - start) =~= prefix);
                        assert(prefix.last() == s@[i as int]);
                        assert(digits_value(prefix, radix as int) == value * radix + d);
                        // Every later digit only makes the number larger.
                        lemma_value_grows(
                            s@.subrange(start as int, s@.len() as int),
                            (i + 1 - start) as int,
                            radix as int,
                            u32::MAX as int,
                        );
                    }
                    return None;
                }
                value = next;
            },
            None => {
                proof {
                    assert(ds[i - start] == s@[i as int]);
                }
                return None;
            },
        }
        i += 1;
    }
    assert(s@.subrange(start as int, i as int) =~= ds);
    Some(value as u32)
}

/// Once the digits read so far spell more than `bound`, the whole number does too.
pub proof fn lemma_value_grows(ds: Seq<char>, n: int, radix: int, bound: int)
    requires
        0 <= n <= ds.len(),
        radix >= 2,
        bound >= 0,
        all_digits(ds.take(n), radix),
        digits_value(ds.take(n), radix) > bound,
    ensures
        all_digits(ds, radix) ==> digits_value(ds, radix) > bound,
    decreases ds.len() - n,
{
    if n < ds.len() && all_digits(ds, radix) {
        let next = ds.take(n + 1);
        assert(next.drop_last() =~= ds.take(n));
        assert(digit_of(ds[n], radix) is Some);
        let d = digit_of(ds[n], radix)->Some_0;
        assert(d >= 0);
        assert(digits_value(ds.take(n), radix) * radix >= digits_value(ds.take(n), radix)) by (nonlinear_arith)
            requires
                digits_value(ds.take(n), radix) > 0,
                radix >= 2,
        ;
        assert(all_digits(next, radix)) by {
            assert forall|k: int| 0 <= k < next.len() implies #[trigger] digit_of(next[k], radix) is Some by {
                assert(next[k] == ds[k]);
            }
        }
        lemma_value_grows(ds, n + 1, radix, bound);
    } else if n == ds.len() {
        assert(ds.take(n) =~= ds);
    }
}

/// Where the first `;` in `i..lim` stands, or `lim`.
pub open spec fn semicolon_from(chars: Seq<char>, i: int, lim: int) -> int
    decreases lim - i,
{
    if i >= lim {
        lim
    } else if chars[i] == ';' {
        i
    } else {
        semicolon_from(chars, i + 1, lim)
    }
}

/// The character a named entity stands for, among those a description uses.
pub open spec fn named_entity(body: Seq<char>) -> Option<char> {
    if body == "amp"@ {
        Some('&')
    } else if body == "lt"@ {
        Some('<')
    } else if body == "gt"@ {
        Some('>')
    } else if body == "quot"@ {
        Some('"')
    } else if body == "apos"@ {
        Some('\'')
    } else if body == "nbsp"@ {
        Some(' ')
    } else if body == "ndash"@ {
        Some('\u{2013}')
    } else if body == "mdash"@ {
        Some('\u{2014}')
    } else if body == "hellip"@ {
        Some('\u{2026}')
    } else if body == "lsquo"@ {
        Some('\u{2018}')
    } else if body == "rsquo"@ {
        Some('\u{2019}')
    } else if body == "ldquo"@ {
        Some('\u{201c}')
    } else if body == "rdquo"@ {
        Some('\u{201d}')
    } else {
        None
    }
}

/// The character with code `n`, when `n` is a Unicode scalar value.
pub open spec fn scalar(n: u32) -> Option<char> {
    if n < 0xD800 || (0xE000 <= n && n <= 0x10FFFF) {
        Some(n as char)
    } else {
        None
    }
}

/// What an entity's body between `&` and `;` stands for: `#x` or `#X` and hex digits,
/// `#` and decimal digits, or a known name.
pub open spec fn decoded(body: Seq<char>) -> Option<char> {
    if body.len() >= 2 && body[0] == '#' && (body[1] == 'x' || body[1] == 'X') {
        match parsed_u32(body.skip(2), 16) {
            Some(n) => scalar(n),
            None => None,
        }
    } else if body.len() >= 1 && body[0] == '#' {
        match parsed_u32(body.skip(1), 10) {
            Some(n) => scalar(n),
            None => None,
        }
    } else {
        named_entity(body)
    }
}

/// The entity at `at`, when there is one: what it stands for, and the index past its `;`,
/// which must come within ten characters of the `&`.
pub open spec fn entity_at(chars: Seq<char>, at: int) -> Option<(char, int)> {
    let lim = if at + 10 < chars.len() {
        at + 10
    } else {
        chars.len() as int
    };
    let semi = semicolon_from(chars, at + 1, lim);
    if semi >= lim {
        None
    } else {
        match decoded(chars.subrange(at + 1, semi)) {
            Some(c) => Some((c, semi + 1)),
            None => None,
        }
    }
}

/// The `;` searched for lies within the range searched.
pub proof fn lemma_semicolon_from(chars: Seq<char>, i: int, lim: int)
    requires
        i <= lim,
    ensures
        i <= semicolon_from(chars, i, lim) <= lim,
    decreases lim - i,
{
    if i < lim && chars[i] != ';' {
        lemma_semicolon_from(chars, i + 1, lim);
    }
}

/// The character with code `n`, when `n` is a Unicode scalar value.
///
/// Wraps `char::from_u32`, which std documents as returning `None` exactly for surrogates
/// and for codes past `0x10FFFF`.
#[verifier::external_body]
fn char_from_code(n: u32) -> (r: Option<char>)
    ensures
        r == scalar(n),
{
    char::from_u32(n)
}

fn named_char(body: &[char]) -> (r: Option<char>)
    ensures
        r == named_entity(body@),
{
    if is_text(body, "amp") {
        Some('&')
    } else if is_text(body, "lt") {
        Some('<')
    } else if is_text(body, "gt") {
        Some('>')
    } else if is_text(body, "quot") {
        Some('"')
    } else if is_text(body, "apos") {
        Some('\'')
    } else if is_text(body, "nbsp") {
        Some(' ')
    } else if is_text(body, "ndash") {
        Some('\u{2013}')
    } else if is_text(body, "mdash") {
        Some('\u{2014}')
    } else if is_text(body, "hellip") {
        Some('\u{2026}')
    } else if is_text(body, "lsquo") {
        Some('\u{2018}')
    } else if is_text(body, "rsquo") {
        Some('\u{2019}')
    } else if is_text(body, "ldquo") {
        Some('\u{201c}')
    } else if is_text(body, "rdquo") {
        Some('\u{201d}')
    } else {
        None
    }
}

fn decode_body(body: &[char]) -> (r: Option<char>)
    ensures
        r == decoded(body@),
{
    if body.len() >= 2 && body[0] == '#' && (body[1] == 'x' || body[1] == 'X') {
        let digits = crate::text::slice_to_vec(body, 2, body.len());
        assert(digits@ =~= body@.skip(2));
        match parse_u32(digits.as_slice(), 16) {
            Some(n) => char_from_code(n),
            None => None,
        }
    } else if body.len() >= 1 && body[0] == '#' {
        let digits = crate::text::slice_to_vec(body, 1, body.len());
        assert(digits@ =~= body@.skip(1));
        match parse_u32(digits.as_slice(), 10) {
            Some(n) => char_from_code(n),
            None => None,
        }
    } else {
        named_char(body)
    }
}

/// Read an HTML entity at `at`: what it means and where it ends.
fn read_entity(chars: &[char], at: usize) -> (r: Option<(char, usize)>)
    requires
        at < chars@.len(),
    ensures
        match r {
            Some((c, e)) => entity_at(chars@, at as int) == Some((c, e as int)),
            None => entity_at(chars@, at as int) is None,
        },
{
    let lim: usize = if chars.len() - at > 10 { at + 10 } else { chars.len() };
    let mut i = at + 1;
    while i < lim && chars[i] != ';'
        invariant
            at + 1 <= i,
            lim <= chars@.len(),
            i <= lim || i == at + 1,
            lim == (if at + 10 < chars@.len() { at + 10 } else { chars@.len() as int }),
            semicolon_from(chars@, i as int, lim as int) == semicolon_from(chars@, at + 1, lim as int),
        decreases lim - i,
    {
        i += 1;
    }
    if i >= lim {
        return None;
    }
    let body = crate::text::slice_to_vec(chars, at + 1, i);
    match decode_body(body.as_slice()) {
        Some(c) => Some((c, i + 1)),
        None => None,
    }
}

/// The search for a `;` stops at the first one.
proof fn lemma_semicolon_at(chars: Seq<char>, i: int, lim: int, target: int)
    requires
        i <= target < lim,
        target < chars.len(),
        chars[target] == ';',
        forall|j: int| i <= j < target ==> chars[j] != ';',
    ensures
        semicolon_from(chars, i, lim) == target,
    decreases target - i,
{
    if i < target {
        lemma_semicolon_at(chars, i + 1, lim, target);
    }
}

/// An entity in the text, `&`, its body and `;`, reads as the character the body stands
/// for, and reading goes on after the `;`.
proof fn lemma_named_entity_read(chars: Seq<char>, at: int, out: Seq<char>, name: Seq<char>, c: char)
    requires
        0 <= at,
        1 <= name.len() <= 8,
        at + name.len() + 2 <= chars.len(),
        chars.subrange(at, at + name.len() + 2) == seq!['&'] + name + seq![';'],
        forall|k: int| 0 <= k < name.len() ==> name[k] != ';',
        decoded(name) == Some(c),
        !is_space(c),
    ensures
        strip_from(chars, at, out) == strip_from(chars, at + name.len() + 2, out.push(c)),
{
    let n = name.len() as int;
    let w = chars.subrange(at, at + n + 2);
    assert(chars[at] == w[0]);
    assert(chars[at + n + 1] == w[n + 1]);
    assert forall|j: int| at + 1 <= j < at + n + 1 implies chars[j] != ';' by {
        assert(chars[j] == w[j - at]);
        assert(w[j - at] == name[j - at - 1]);
    }
    let lim = if at + 10 < chars.len() {
        at + 10
    } else {
        chars.len() as int
    };
    lemma_semicolon_at(chars, at + 1, lim, at + n + 1);
    assert(chars.subrange(at + 1, at + n + 1) =~= name) by {
        assert forall|k: int| 0 <= k < n implies chars.subrange(at + 1, at + n + 1)[k] == name[k] by {
            assert(chars[at + 1 + k] == w[k + 1]);
        }
    }
    assert(entity_at(chars, at) == Some((c, at + n + 2)));
}

/// The entities for the characters markup reserves, and those for typographic quotes and
/// dashes, read as the characters they name, wherever they stand: `&lt;` as `<`, `&gt;`
/// as `>`, `&amp;` as `&`, `&quot;` as `"`, `&apos;` as `'`, `&ndash;` as `–`, `&mdash;`
/// as `—`, `&hellip;` as `…`, `&lsquo;` `&rsquo;` `&ldquo;` `&rdquo;` as `‘` `’` `“` `”`.
#[verifier::spinoff_prover]
pub proof fn law_entities_read_as_what_they_name(chars: Seq<char>, at: int, out: Seq<char>)
    requires
        0 <= at,
    ensures
        at + 4 <= chars.len() && chars.subrange(at, at + 4) == "&lt;"@ ==> strip_from(chars, at, out)
            == strip_from(chars, at + 4, out.push('<')),
        at + 4 <= chars.len() && chars.subrange(at, at + 4) == "&gt;"@ ==> strip_from(chars, at, out)
            == strip_from(chars, at + 4, out.push('>')),
        at + 5 <= chars.len() && chars.subrange(at, at + 5) == "&amp;"@ ==> strip_from(chars, at, out)
            == strip_from(chars, at + 5, out.push('&')),
        at + 6 <= chars.len() && chars.subrange(at, at + 6) == "&quot;"@ ==> strip_from(chars, at, out)
            == strip_from(chars, at + 6, out.push('"')),
        at + 6 <= chars.len() && chars.subrange(at, at + 6) == "&apos;"@ ==> strip_from(chars, at, out)
            == strip_from(chars, at + 6, out.push('\'')),
        at + 7 <= chars.len() && chars.subrange(at, at + 7) == "&ndash;"@ ==> strip_from(chars, at, out)
            == strip_from(chars, at + 7, out.push('\u{2013}')),
        at + 7 <= chars.len() && chars.subrange(at, at + 7) == "&mdash;"@ ==> strip_from(chars, at, out)
            == strip_from(chars, at + 7, out.push('\u{2014}')),
        at + 8 <= chars.len() && chars.subrange(at, at + 8) == "&hellip;"@ ==> strip_from(chars, at, out)
            == strip_from(chars, at + 8, out.push('\u{2026}')),
        at + 7 <= chars.len() && chars.subrange(at, at + 7) == "&lsquo;"@ ==> strip_from(chars, at, out)
            == strip_from(chars, at + 7, out.push('\u{2018}')),
        at + 7 <= chars.len() && chars.subrange(at, at + 7) == "&rsquo;"@ ==> strip_from(chars, at, out)
            == strip_from(chars, at + 7, out.push('\u{2019}')),
        at + 7 <= chars.len() && chars.subrange(at, at + 7) == "&ldquo;"@ ==> strip_from(chars, at, out)
            == strip_from(chars, at + 7, out.push('\u{201c}')),
        at + 7 <= chars.len() && chars.subrange(at, at + 7) == "&rdquo;"@ ==> strip_from(chars, at, out)
            == strip_from(chars, at + 7, out.push('\u{201d}')),
{
    assert(named_entity("lt"@) == Some('<')) by {
        reveal_strlit("amp");
        reveal_strlit("lt");
        reveal_strlit("gt");
        reveal_strlit("quot");
        reveal_strlit("apos");
        reveal_strlit("nbsp");
        reveal_strlit("ndash");
        reveal_strlit("mdash");
        reveal_strlit("hellip");
        reveal_strlit("lsquo");
        reveal_strlit("rsquo");
        reveal_strlit("ldquo");
        reveal_strlit("rdquo");
    }
    assert("&lt;"@ =~= seq!['&'] + "lt"@ + seq![';']) by {
        reveal_strlit("&lt;");
        reveal_strlit("lt");
    }
    assert("lt"@.len() == 2 && "lt"@[0] != '#' && forall|k: int| 0 <= k < 2 ==> "lt"@[k] != ';') by {
        reveal_strlit("lt");
    }
    lemma_entity_case(chars, at, out, "lt"@, '<');
    assert(named_entity("gt"@) == Some('>')) by {
        reveal_strlit("amp");
        reveal_strlit("lt");
        reveal_strlit("gt");
        reveal_strlit("quot");
        reveal_strlit("apos");
        reveal_strlit("nbsp");
        reveal_strlit("ndash");
        reveal_strlit("mdash");
        reveal_strlit("hellip");
        reveal_strlit("lsquo");
        reveal_strlit("rsquo");
        reveal_strlit("ldquo");
        reveal_strlit("rdquo");
        assert("gt"@[0] != "lt"@[0]);
    }
    assert("&gt;"@ =~= seq!['&'] + "gt"@ + seq![';']) by {
        reveal_strlit("&gt;");
        reveal_strlit("gt");
    }
    assert("gt"@.len() == 2 && "gt"@[0] != '#' && forall|k: int| 0 <= k < 2 ==> "gt"@[k] != ';') by {
        reveal_strlit("gt");
    }
    lemma_entity_case(chars, at, out, "gt"@, '>');
    assert(named_entity("amp"@) == Some('&')) by {
        reveal_strlit("amp");
        reveal_strlit("lt");
        reveal_strlit("gt");
        reveal_strlit("quot");
        reveal_strlit("apos");
        reveal_strlit("nbsp");
        reveal_strlit("ndash");
        reveal_strlit("mdash");
        reveal_strlit("hellip");
        reveal_strlit("lsquo");
        reveal_strlit("rsquo");
        reveal_strlit("ldquo");
        reveal_strlit("rdquo");
    }
    assert("&amp;"@ =~= seq!['&'] + "amp"@ + seq![';']) by {
        reveal_strlit("&amp;");
        reveal_strlit("amp");
    }
    assert("amp"@.len() == 3 && "amp"@[0] != '#' && forall|k: int| 0 <= k < 3 ==> "amp"@[k] != ';') by {
        reveal_strlit("amp");
    }
    lemma_entity_case(chars, at, out, "amp"@, '&');
    assert(named_entity("quot"@) == Some('"')) by {
        reveal_strlit("amp");
        reveal_strlit("lt");
        reveal_strlit("gt");
        reveal_strlit("quot");
        reveal_strlit("apos");
        reveal_strlit("nbsp");
        reveal_strlit("ndash");
        reveal_strlit("mdash");
        reveal_strlit("hellip");
        reveal_strlit("lsquo");
        reveal_strlit("rsquo");
        reveal_strlit("ldquo");
        reveal_strlit("rdquo");
    }
    assert("&quot;"@ =~= seq!['&'] + "quot"@ + seq![';']) by {
        reveal_strlit("&quot;");
        reveal_strlit("quot");
    }
    assert("quot"@.len() == 4 && "quot"@[0] != '#' && forall|k: int| 0 <= k < 4 ==> "quot"@[k] != ';') by {
        reveal_strlit("quot");
    }
    lemma_entity_case(chars, at, out, "quot"@, '"');
    assert(named_entity("apos"@) == Some('\'')) by {
        reveal_strlit("amp");
        reveal_strlit("lt");
        reveal_strlit("gt");
        reveal_strlit("quot");
        reveal_strlit("apos");
        reveal_strlit("nbsp");
        reveal_strlit("ndash");
        reveal_strlit("mdash");
        reveal_strlit("hellip");
        reveal_strlit("lsquo");
        reveal_strlit("rsquo");
        reveal_strlit("ldquo");
        reveal_strlit("rdquo");
        assert("apos"@[0] != "quot"@[0]);
    }
    assert("&apos;"@ =~= seq!['&'] + "apos"@ + seq![';']) by {
        reveal_strlit("&apos;");
        reveal_strlit("apos");
    }
    assert("apos"@.len() == 4 && "apos"@[0] != '#' && forall|k: int| 0 <= k < 4 ==> "apos"@[k] != ';') by {
        reveal_strlit("apos");
    }
    lemma_entity_case(chars, at, out, "apos"@, '\'');
    assert(named_entity("ndash"@) == Some('\u{2013}')) by {
        reveal_strlit("amp");
        reveal_strlit("lt");
        reveal_strlit("gt");
        reveal_strlit("quot");
        reveal_strlit("apos");
        reveal_strlit("nbsp");
        reveal_strlit("ndash");
        reveal_strlit("mdash");
        reveal_strlit("hellip");
        reveal_strlit("lsquo");
        reveal_strlit("rsquo");
        reveal_strlit("ldquo");
        reveal_strlit("rdquo");
    }
    assert("&ndash;"@ =~= seq!['&'] + "ndash"@ + seq![';']) by {
        reveal_strlit("&ndash;");
        reveal_strlit("ndash");
    }
    assert("ndash"@.len() == 5 && "ndash"@[0] != '#' && forall|k: int| 0 <= k < 5 ==> "ndash"@[k] != ';') by {
        reveal_strlit("ndash");
    }
    lemma_entity_case(chars, at, out, "ndash"@, '\u{2013}');
    assert(named_entity("mdash"@) == Some('\u{2014}')) by {
        reveal_strlit("amp");
        reveal_strlit("lt");
        reveal_strlit("gt");
        reveal_strlit("quot");
        reveal_strlit("apos");
        reveal_strlit("nbsp");
        reveal_strlit("ndash");
        reveal_strlit("mdash");
        reveal_strlit("hellip");
        reveal_strlit("lsquo");
        reveal_strlit("rsquo");
        reveal_strlit("ldquo");
        reveal_strlit("rdquo");
        assert("mdash"@[0] != "ndash"@[0]);
    }
    assert("&mdash;"@ =~= seq!['&'] + "mdash"@ + seq![';']) by {
        reveal_strlit("&mdash;");
        reveal_strlit("mdash");
    }
    assert("mdash"@.len() == 5 && "mdash"@[0] != '#' && forall|k: int| 0 <= k < 5 ==> "mdash"@[k] != ';') by {
        reveal_strlit("mdash");
    }
    lemma_entity_case(chars, at, out, "mdash"@, '\u{2014}');
    assert(named_entity("hellip"@) == Some('\u{2026}')) by {
        reveal_strlit("amp");
        reveal_strlit("lt");
        reveal_strlit("gt");
        reveal_strlit("quot");
        reveal_strlit("apos");
        reveal_strlit("nbsp");
        reveal_strlit("ndash");
        reveal_strlit("mdash");
        reveal_strlit("hellip");
        reveal_strlit("lsquo");
        reveal_strlit("rsquo");
        reveal_strlit("ldquo");
        reveal_strlit("rdquo");
    }
    assert("&hellip;"@ =~= seq!['&'] + "hellip"@ + seq![';']) by {
        reveal_strlit("&hellip;");
        reveal_strlit("hellip");
    }
    assert("hellip"@.len() == 6 && "hellip"@[0] != '#' && forall|k: int| 0 <= k < 6 ==> "hellip"@[k] != ';') by {
        reveal_strlit("hellip");
    }
    lemma_entity_case(chars, at, out, "hellip"@, '\u{2026}');
    assert(named_entity("lsquo"@) == Some('\u{2018}')) by {
        reveal_strlit("amp");
        reveal_strlit("lt");
        reveal_strlit("gt");
        reveal_strlit("quot");
        reveal_strlit("apos");
        reveal_strlit("nbsp");
        reveal_strlit("ndash");
        reveal_strlit("mdash");
        reveal_strlit("hellip");
        reveal_strlit("lsquo");
        reveal_strlit("rsquo");
        reveal_strlit("ldquo");
        reveal_strlit("rdquo");
        assert("lsquo"@[0] != "ndash"@[0]);
        assert("lsquo"@[0] != "mdash"@[0]);
    }
    assert("&lsquo;"@ =~= seq!['&'] + "lsquo"@ + seq![';']) by {
        reveal_strlit("&lsquo;");
        reveal_strlit("lsquo");
    }
    assert("lsquo"@.len() == 5 && "lsquo"@[0] != '#' && forall|k: int| 0 <= k < 5 ==> "lsquo"@[k] != ';') by {
        reveal_strlit("lsquo");
    }
    lemma_entity_case(chars, at, out, "lsquo"@, '\u{2018}');
    assert(named_entity("rsquo"@) == Some('\u{2019}')) by {
        reveal_strlit("amp");
        reveal_strlit("lt");
        reveal_strlit("gt");
        reveal_strlit("quot");
        reveal_strlit("apos");
        reveal_strlit("nbsp");
        reveal_strlit("ndash");
        reveal_strlit("mdash");
        reveal_strlit("hellip");
        reveal_strlit("lsquo");
        reveal_strlit("rsquo");
        reveal_strlit("ldquo");
        reveal_strlit("rdquo");
        assert("rsquo"@[0] != "ndash"@[0]);
        assert("rsquo"@[0] != "mdash"@[0]);
        assert("rsquo"@[0] != "lsquo"@[0]);
    }
    assert("&rsquo;"@ =~= seq!['&'] + "rsquo"@ + seq![';']) by {
        reveal_strlit("&rsquo;");
        reveal_strlit("rsquo");
    }
    assert("rsquo"@.len() == 5 && "rsquo"@[0] != '#' && forall|k: int| 0 <= k < 5 ==> "rsquo"@[k] != ';') by {
        reveal_strlit("rsquo");
    }
    lemma_entity_case(chars, at, out, "rsquo"@, '\u{2019}');
    assert(named_entity("ldquo"@) == Some('\u{201c}')) by {
        reveal_strlit("amp");
        reveal_strlit("lt");
        reveal_strlit("gt");
        reveal_strlit("quot");
        reveal_strlit("apos");
        reveal_strlit("nbsp");
        reveal_strlit("ndash");
        reveal_strlit("mdash");
        reveal_strlit("hellip");
        reveal_strlit("lsquo");
        reveal_strlit("rsquo");
        reveal_strlit("ldquo");
        reveal_strlit("rdquo");
        assert("ldquo"@[0] != "ndash"@[0]);
        assert("ldquo"@[0] != "mdash"@[0]);
        assert("ldquo"@[1] != "lsquo"@[1]);
        assert("ldquo"@[0] != "rsquo"@[0]);
    }
    assert("&ldquo;"@ =~= seq!['&'] + "ldquo"@ + seq![';']) by {
        reveal_strlit("&ldquo;");
        reveal_strlit("ldquo");
    }
    assert("ldquo"@.len() == 5 && "ldquo"@[0] != '#' && forall|k: int| 0 <= k < 5 ==> "ldquo"@[k] != ';') by {
        reveal_strlit("ldquo");
    }
    lemma_entity_case(chars, at, out, "ldquo"@, '\u{201c}');
    assert(named_entity("rdquo"@) == Some('\u{201d}')) by {
        reveal_strlit("amp");
        reveal_strlit("lt");
        reveal_strlit("gt");
        reveal_strlit("quot");
        reveal_strlit("apos");
        reveal_strlit("nbsp");
        reveal_strlit("ndash");
        reveal_strlit("mdash");
        reveal_strlit("hellip");
        reveal_strlit("lsquo");
        reveal_strlit("rsquo");
        reveal_strlit("ldquo");
        reveal_strlit("rdquo");
        assert("rdquo"@[0] != "ndash"@[0]);
        assert("rdquo"@[0] != "mdash"@[0]);
        assert("rdquo"@[0] != "lsquo"@[0]);
        assert("rdquo"@[1] != "rsquo"@[1]);
        assert("rdquo"@[0] != "ldquo"@[0]);
    }
    assert("&rdquo;"@ =~= seq!['&'] + "rdquo"@ + seq![';']) by {
        reveal_strlit("&rdquo;");
        reveal_strlit("rdquo");
    }
    assert("rdquo"@.len() == 5 && "rdquo"@[0] != '#' && forall|k: int| 0 <= k < 5 ==> "rdquo"@[k] != ';') by {
        reveal_strlit("rdquo");
    }
    lemma_entity_case(chars, at, out, "rdquo"@, '\u{201d}');
}

/// The value of a hexadecimal digit, written out.
pub open spec fn hex_value(c: char) -> int {
    if '0' <= c <= '9' {
        c as int - 48
    } else if 'a' <= c <= 'f' {
        c as int - 87
    } else {
        c as int - 55
    }
}

/// Whether `c` is a hexadecimal digit.
pub open spec fn is_hex(c: char) -> bool {
    '0' <= c <= '9' || 'a' <= c <= 'f' || 'A' <= c <= 'F'
}

/// A character reference by number reads as the character with that code: `&#` and two
/// decimal digits, or `&#x` and two hexadecimal digits, then `;`, wherever it stands.
pub proof fn law_numbered_entities_read_as_their_codes(chars: Seq<char>, at: int, out: Seq<char>)
    requires
        0 <= at,
    ensures
        at + 5 <= chars.len() && chars[at] == '&' && chars[at + 1] == '#' && '0' <= chars[at + 2] <= '9'
            && '0' <= chars[at + 3] <= '9' && chars[at + 4] == ';' && !is_space(
            ((chars[at + 2] as int - 48) * 10 + (chars[at + 3] as int - 48)) as char,
        ) ==> strip_from(chars, at, out) == strip_from(
            chars,
            at + 5,
            out.push(((chars[at + 2] as int - 48) * 10 + (chars[at + 3] as int - 48)) as char),
        ),
        at + 6 <= chars.len() && chars[at] == '&' && chars[at + 1] == '#' && (chars[at + 2] == 'x'
            || chars[at + 2] == 'X') && is_hex(chars[at + 3]) && is_hex(chars[at + 4]) && chars[at + 5]
            == ';' && !is_space((hex_value(chars[at + 3]) * 16 + hex_value(chars[at + 4])) as char)
            ==> strip_from(chars, at, out) == strip_from(
            chars,
            at + 6,
            out.push((hex_value(chars[at + 3]) * 16 + hex_value(chars[at + 4])) as char),
        ),
{
    if at + 5 <= chars.len() && chars[at] == '&' && chars[at + 1] == '#' && '0' <= chars[at + 2] <= '9'
        && '0' <= chars[at + 3] <= '9' && chars[at + 4] == ';' {
        let body = chars.subrange(at + 1, at + 4);
        let n = (chars[at + 2] as int - 48) * 10 + (chars[at + 3] as int - 48);
        let ds = body.skip(1);
        assert(ds =~= seq![chars[at + 2], chars[at + 3]]);
        assert(all_digits(ds, 10));
        let d1 = ds.drop_last();
        assert(d1 =~= seq![ds[0]]);
        assert(d1.drop_last() =~= Seq::<char>::empty());
        assert(digits_value(d1.drop_last(), 10) == 0);
        assert(digits_value(d1, 10) == digit_of(ds[0], 10)->Some_0);
        assert(digits_value(ds, 10) == digits_value(d1, 10) * 10 + digit_of(ds[1], 10)->Some_0);
        assert(digits_value(ds, 10) == n);
        assert(decoded(body) == Some(n as char));
        assert(chars.subrange(at, at + 5) =~= seq!['&'] + body + seq![';']);
        if !is_space(n as char) {
            lemma_named_entity_read(chars, at, out, body, n as char);
        }
    }
    if at + 6 <= chars.len() && chars[at] == '&' && chars[at + 1] == '#' && (chars[at + 2] == 'x'
        || chars[at + 2] == 'X') && is_hex(chars[at + 3]) && is_hex(chars[at + 4]) && chars[at + 5]
        == ';' {
        let body = chars.subrange(at + 1, at + 5);
        let n = hex_value(chars[at + 3]) * 16 + hex_value(chars[at + 4]);
        let ds = body.skip(2);
        assert(ds =~= seq![chars[at + 3], chars[at + 4]]);
        assert(digit_of(ds[0], 16) == Some(hex_value(ds[0])));
        assert(digit_of(ds[1], 16) == Some(hex_value(ds[1])));
        assert(all_digits(ds, 16));
        let d1 = ds.drop_last();
        assert(d1 =~= seq![ds[0]]);
        assert(d1.drop_last() =~= Seq::<char>::empty());
        assert(digits_value(d1.drop_last(), 16) == 0);
        assert(digits_value(d1, 16) == digit_of(ds[0], 16)->Some_0);
        assert(digits_value(ds, 16) == digits_value(d1, 16) * 16 + digit_of(ds[1], 16)->Some_0);
        assert(digits_value(ds, 16) == n);
        assert(decoded(body) == Some(n as char));
        assert(chars.subrange(at, at + 6) =~= seq!['&'] + body + seq![';']);
        if !is_space(n as char) {
            lemma_named_entity_read(chars, at, out, body, n as char);
        }
    }
}

/// One entity of the law above: when the text holds it at `at`, it reads as `c`.
proof fn lemma_entity_case(chars: Seq<char>, at: int, out: Seq<char>, name: Seq<char>, c: char)
    requires
        0 <= at,
        1 <= name.len() <= 8,
        name[0] != '#',
        forall|k: int| 0 <= k < name.len() ==> name[k] != ';',
        named_entity(name) == Some(c),
        !is_space(c),
    ensures
        at + name.len() + 2 <= chars.len() && chars.subrange(at, at + name.len() + 2) == seq!['&'] + name
            + seq![';'] ==> strip_from(chars, at, out) == strip_from(chars, at + name.len() + 2, out.push(c)),
{
    if at + name.len() + 2 <= chars.len() && chars.subrange(at, at + name.len() + 2) == seq!['&'] + name
        + seq![';'] {
        lemma_named_entity_read(chars, at, out, name, c);
    }
}

/// A character of text appended, with whitespace collapsed the way HTML does: a run of
/// it becomes one space, and none starts the text or follows a line break.
pub open spec fn pushed_text(out: Seq<char>, c: char) -> Seq<char> {
    if is_space(c) {
        if out.len() > 0 && out.last() != ' ' && out.last() != '\n' {
            out.push(' ')
        } else {
            out
        }
    } else {
        out.push(c)
    }
}

/// What a tag does to the text so far. A block element, opening or closing, ends the
/// line: trailing whitespace goes, then a line break unless nothing was written yet, and
/// an opening list item adds a bullet. An opening table cell adds a space after text.
pub open spec fn tag_applied(out: Seq<char>, t: TagView) -> Seq<char> {
    if block_names().contains(t.name) {
        let kept = out.subrange(0, trail_start(out));
        let broken = if kept.len() > 0 {
            kept.push('\n')
        } else {
            kept
        };
        if t.name == "li"@ && !t.closing {
            broken + seq!['\u{2022}', ' ']
        } else {
            broken
        }
    } else if (t.name == "td"@ || t.name == "th"@) && !t.closing && out.len() > 0 {
        pushed_text(out, ' ')
    } else {
        out
    }
}

/// The text read from position `at` on, appended to `out`. At a `<`, a comment is
/// skipped, and a recognised tag is applied, or skipped with its whole contents when it
/// opens a script or a style. At a `&`, an entity is decoded. Anything else is text.
pub open spec fn strip_from(chars: Seq<char>, at: int, out: Seq<char>) -> Seq<char>
    decreases chars.len() - at,
{
    if at < 0 || at >= chars.len() {
        out
    } else if chars[at] == '<' && comment_close(chars, at) is Some {
        proof {
            lemma_dashes_end(chars, at + 4);
        }
        strip_from(chars, comment_close(chars, at)->Some_0, out)
    } else if chars[at] == '<' && tag_at(chars, at) is Some {
        let t = tag_at(chars, at)->Some_0;
        proof {
            lemma_tag_at(chars, at);
            lemma_skip_to_close(chars, t.end, t.name);
        }
        if opaque_names().contains(t.name) && !t.closing {
            strip_from(chars, skip_to_close(chars, t.end, t.name), out)
        } else {
            strip_from(chars, t.end, tag_applied(out, t))
        }
    } else if chars[at] == '&' && entity_at(chars, at) is Some {
        proof {
            let lim = if at + 10 < chars.len() {
                at + 10
            } else {
                chars.len() as int
            };
            lemma_semicolon_from(chars, at + 1, lim);
        }
        strip_from(chars, entity_at(chars, at)->Some_0.1, pushed_text(out, entity_at(chars, at)->Some_0.0))
    } else {
        strip_from(chars, at + 1, pushed_text(out, chars[at]))
    }
}

/// The lines that hold something, each trimmed.
pub open spec fn nonblank(lines: Seq<Seq<char>>) -> Seq<Seq<char>>
    decreases lines.len(),
{
    if lines.len() == 0 {
        Seq::empty()
    } else if trimmed(lines.last()).len() > 0 {
        nonblank(lines.drop_last()).push(trimmed(lines.last()))
    } else {
        nonblank(lines.drop_last())
    }
}

/// A description's HTML as readable text: the markup read as [`strip_from`] says, then
/// every line trimmed and blank lines dropped.
pub open spec fn plain_of(html: Seq<char>) -> Seq<char> {
    crate::modal::joined(
        nonblank(crate::rows::split_on(strip_from(html, 0, Seq::empty()), '\n')),
        seq!['\n'],
    )
}

/// Append a character of text, collapsing whitespace the way HTML does.
fn push_text(out: &mut Vec<char>, c: char)
    ensures
        final(out)@ == pushed_text(old(out)@, c),
{
    if crate::text::is_space_char(c) {
        if out.len() > 0 && out[out.len() - 1] != ' ' && out[out.len() - 1] != '\n' {
            out.push(' ');
        }
        return;
    }
    out.push(c);
}

/// What a tag does to the text built so far.
fn apply_tag(out: &mut Vec<char>, tag: &Tag, blocks: &Vec<&'static str>)
    requires
        blocks@.map_values(|s: &str| s@) == block_names(),
    ensures
        final(out)@ == tag_applied(
            old(out)@,
            TagView { name: tag.name@, closing: tag.closing, end: tag.end as int },
        ),
{
    if listed(tag.name.as_slice(), blocks) {
        let keep = crate::text::trailing_start(out.as_slice());
        proof {
            crate::text::lemma_trim_bounds(out@);
        }
        let mut kept = crate::text::slice_to_vec(out.as_slice(), 0, keep);
        proof {
            lemma_trail_start_in(out@);
        }
        if kept.len() > 0 {
            kept.push('\n');
        }
        if is_text(tag.name.as_slice(), "li") && !tag.closing {
            kept.push('\u{2022}');
            kept.push(' ');
            assert(kept@ =~= (if out@.subrange(0, trail_start(out@)).len() > 0 {
                out@.subrange(0, trail_start(out@)).push('\n')
            } else {
                out@.subrange(0, trail_start(out@))
            }) + seq!['\u{2022}', ' ']);
        }
        *out = kept;
        return;
    }
    if (is_text(tag.name.as_slice(), "td") || is_text(tag.name.as_slice(), "th")) && !tag.closing
        && out.len() > 0 {
        push_text(out, ' ');
    }
}

proof fn lemma_trail_start_in(s: Seq<char>)
    ensures
        0 <= trail_start(s) <= s.len(),
    decreases s.len(),
{
    if s.len() > 0 && is_space(s.last()) {
        lemma_trail_start_in(s.drop_last());
    }
}

/// The text read from the whole of `chars`.
fn strip(chars: &[char]) -> (out: Vec<char>)
    ensures
        out@ == strip_from(chars@, 0, Seq::empty()),
{
    let elements = element_list();
    let blocks = block_list();
    let opaque = opaque_list();
    let mut out: Vec<char> = Vec::new();
    let mut at: usize = 0;
    while at < chars.len()
        invariant
            at <= chars@.len(),
            elements@.map_values(|s: &str| s@) == element_names(),
            blocks@.map_values(|s: &str| s@) == block_names(),
            opaque@.map_values(|s: &str| s@) == opaque_names(),
            strip_from(chars@, at as int, out@) == strip_from(chars@, 0, Seq::empty()),
        decreases chars.len() - at,
    {
        if chars[at] == '<' {
            match comment_end(chars, at) {
                Some(end) => {
                    proof {
                        lemma_dashes_end(chars@, at + 4);
                    }
                    at = end;
                    continue;
                },
                None => {},
            }
            match read_tag(chars, at, &elements) {
                Some(tag) => {
                    proof {
                        lemma_tag_at(chars@, at as int);
                    }
                    if listed(tag.name.as_slice(), &opaque) && !tag.closing {
                        let next = skip_element(chars, tag.end, &tag.name, &elements);
                        proof {
                            lemma_skip_to_close(chars@, tag.end as int, tag.name@);
                        }
                        at = next;
                        continue;
                    }
                    apply_tag(&mut out, &tag, &blocks);
                    at = tag.end;
                    continue;
                },
                None => {},
            }
        }
        if chars[at] == '&' {
            match read_entity(chars, at) {
                Some((c, end)) => {
                    proof {
                        let lim = if at + 10 < chars@.len() {
                            at + 10
                        } else {
                            chars@.len() as int
                        };
                        lemma_semicolon_from(chars@, at + 1, lim);
                    }
                    push_text(&mut out, c);
                    at = end;
                    continue;
                },
                None => {},
            }
        }
        push_text(&mut out, chars[at]);
        at += 1;
    }
    out
}

/// Turn the HTML Vikunja's editor stores into something readable.
///
/// Block-level elements become line breaks and list items get a bullet, so the shape of
/// a description survives even though its formatting does not. Runs of whitespace
/// collapse to one space; every line is trimmed, and blank lines are dropped.
pub fn plain_text(html: &str) -> (s: String)
    ensures
        s@ == plain_of(html@),
{
    let chars = chars_of(html);
    let out = strip(chars.as_slice());
    let lines = crate::rows::split_chars(out.as_slice(), '\n');
    let ghost lv = crate::rows::char_rows(lines@);
    let mut kept: Vec<Vec<char>> = Vec::new();
    let mut i: usize = 0;
    while i < lines.len()
        invariant
            i <= lines@.len(),
            lv == crate::rows::char_rows(lines@),
            crate::rows::char_rows(kept@) == nonblank(lv.take(i as int)),
        decreases lines.len() - i,
    {
        proof {
            assert(lv.take(i + 1).drop_last() =~= lv.take(i as int));
        }
        let t = crate::text::trim(lines[i].as_slice());
        if t.len() > 0 {
            let ghost before = kept@;
            kept.push(t);
            proof {
                assert(crate::rows::char_rows(kept@) =~= crate::rows::char_rows(before).push(t@));
            }
        }
        i += 1;
    }
    proof {
        assert(lv.take(i as int) =~= lv);
    }
    let ghost kv = crate::rows::char_rows(kept@);
    let mut joined: Vec<char> = Vec::new();
    let mut j: usize = 0;
    while j < kept.len()
        invariant
            j <= kept@.len(),
            kv == crate::rows::char_rows(kept@),
            joined@ == crate::modal::joined(kv.take(j as int), seq!['\n']),
        decreases kept.len() - j,
    {
        proof {
            assert(kv.take(j + 1).drop_last() =~= kv.take(j as int));
            assert(kv.take(j + 1).last() == kept@[j as int]@);
            if j == 0 {
                assert(kv.take(1) =~= seq![kept@[0]@]);
            }
        }
        if j > 0 {
            joined.push('\n');
        }
        crate::text::push_all(&mut joined, kept[j].as_slice());
        proof {
            if j == 0 {
                assert(joined@ =~= kept@[0]@);
            }
        }
        j += 1;
    }
    proof {
        assert(kv.take(j as int) =~= kv);
    }
    string_of(joined.as_slice())
}

/// Whether a line of plain text has something on it, starts and ends with it, and holds
/// no line break.
pub open spec fn tidy_line(line: Seq<char>) -> bool {
    &&& line.len() > 0
    &&& trimmed(line) == line
    &&& !line.contains('\n')
    &&& collapsed(line)
}

/// Whether text has its whitespace collapsed: no whitespace but spaces and line breaks,
/// and never two spaces in a row.
pub open spec fn collapsed(text: Seq<char>) -> bool {
    &&& forall|k: int| 0 <= k < text.len() && is_space(#[trigger] text[k]) ==> text[k] == ' ' || text[k] == '\n'
    &&& forall|k: int| 0 <= k < text.len() - 1 && #[trigger] text[k] == ' ' ==> text[k + 1] != ' '
}

/// Part of collapsed text is collapsed.
proof fn lemma_collapsed_part(text: Seq<char>, from: int, to: int)
    requires
        collapsed(text),
        0 <= from <= to <= text.len(),
    ensures
        collapsed(text.subrange(from, to)),
{
    let t = text.subrange(from, to);
    assert forall|k: int| 0 <= k < t.len() && is_space(#[trigger] t[k]) implies t[k] == ' ' || t[k] == '\n' by {
        assert(t[k] == text[from + k]);
    }
    assert forall|k: int| 0 <= k < t.len() - 1 && #[trigger] t[k] == ' ' implies t[k + 1] != ' ' by {
        assert(t[k] == text[from + k]);
        assert(t[k + 1] == text[from + k + 1]);
    }
}

/// Appending a character the way HTML does keeps text collapsed.
proof fn lemma_pushed_collapsed(out: Seq<char>, c: char)
    requires
        collapsed(out),
    ensures
        collapsed(pushed_text(out, c)),
{
    let r = pushed_text(out, c);
    if is_space(c) {
        if out.len() > 0 && out.last() != ' ' && out.last() != '\n' {
            assert forall|k: int| 0 <= k < r.len() && is_space(#[trigger] r[k]) implies r[k] == ' ' || r[k] == '\n' by {
                if k < out.len() {
                    assert(r[k] == out[k]);
                }
            }
            assert forall|k: int| 0 <= k < r.len() - 1 && #[trigger] r[k] == ' ' implies r[k + 1] != ' ' by {
                assert(r[k] == out[k]);
                if k + 1 < out.len() {
                    assert(r[k + 1] == out[k + 1]);
                }
            }
        }
    } else {
        assert forall|k: int| 0 <= k < r.len() && is_space(#[trigger] r[k]) implies r[k] == ' ' || r[k] == '\n' by {
            if k < out.len() {
                assert(r[k] == out[k]);
            }
        }
        assert forall|k: int| 0 <= k < r.len() - 1 && #[trigger] r[k] == ' ' implies r[k + 1] != ' ' by {
            assert(r[k] == out[k]);
            if k + 1 < out.len() {
                assert(r[k + 1] == out[k + 1]);
            }
        }
    }
}

/// Applying a tag keeps text collapsed.
proof fn lemma_tag_collapsed(out: Seq<char>, t: TagView)
    requires
        collapsed(out),
    ensures
        collapsed(tag_applied(out, t)),
{
    if block_names().contains(t.name) {
        crate::text::lemma_trim_bounds(out);
        lemma_trail_start_bound(out);
        let kept = out.subrange(0, trail_start(out));
        lemma_collapsed_part(out, 0, trail_start(out));
        let broken = if kept.len() > 0 {
            kept.push('\n')
        } else {
            kept
        };
        assert(collapsed(broken)) by {
            if kept.len() > 0 {
                assert forall|k: int| 0 <= k < broken.len() && is_space(#[trigger] broken[k]) implies broken[k] == ' '
                    || broken[k] == '\n' by {
                    if k < kept.len() {
                        assert(broken[k] == kept[k]);
                    }
                }
                assert forall|k: int| 0 <= k < broken.len() - 1 && #[trigger] broken[k] == ' ' implies broken[k + 1]
                    != ' ' by {
                    assert(broken[k] == kept[k]);
                    if k + 1 < kept.len() {
                        assert(broken[k + 1] == kept[k + 1]);
                    }
                }
            }
        }
        if t.name == "li"@ && !t.closing {
            let r = broken + seq!['\u{2022}', ' '];
            assert(!is_space('\u{2022}'));
            assert forall|k: int| 0 <= k < r.len() && is_space(#[trigger] r[k]) implies r[k] == ' ' || r[k] == '\n' by {
                if k < broken.len() {
                    assert(r[k] == broken[k]);
                }
            }
            assert forall|k: int| 0 <= k < r.len() - 1 && #[trigger] r[k] == ' ' implies r[k + 1] != ' ' by {
                if k + 1 < broken.len() {
                    assert(r[k] == broken[k]);
                    assert(r[k + 1] == broken[k + 1]);
                } else if k + 1 == broken.len() {
                    assert(r[k + 1] == '\u{2022}');
                }
            }
        }
    } else if (t.name == "td"@ || t.name == "th"@) && !t.closing && out.len() > 0 {
        lemma_pushed_collapsed(out, ' ');
    }
}

/// Where trailing whitespace starts lies within the text.
proof fn lemma_trail_start_bound(s: Seq<char>)
    ensures
        0 <= trail_start(s) <= s.len(),
    decreases s.len(),
{
    if s.len() > 0 && is_space(s.last()) {
        lemma_trail_start_bound(s.drop_last());
    }
}

/// Reading markup keeps collapsed text collapsed.
proof fn lemma_strip_collapsed(chars: Seq<char>, at: int, out: Seq<char>)
    requires
        collapsed(out),
    ensures
        collapsed(strip_from(chars, at, out)),
    decreases chars.len() - at,
{
    if at < 0 || at >= chars.len() {
    } else if chars[at] == '<' && comment_close(chars, at) is Some {
        lemma_dashes_end(chars, at + 4);
        lemma_strip_collapsed(chars, comment_close(chars, at)->Some_0, out);
    } else if chars[at] == '<' && tag_at(chars, at) is Some {
        let t = tag_at(chars, at)->Some_0;
        lemma_tag_at(chars, at);
        lemma_skip_to_close(chars, t.end, t.name);
        if opaque_names().contains(t.name) && !t.closing {
            lemma_strip_collapsed(chars, skip_to_close(chars, t.end, t.name), out);
        } else {
            lemma_tag_collapsed(out, t);
            lemma_strip_collapsed(chars, t.end, tag_applied(out, t));
        }
    } else if chars[at] == '&' && entity_at(chars, at) is Some {
        let lim = if at + 10 < chars.len() {
            at + 10
        } else {
            chars.len() as int
        };
        lemma_semicolon_from(chars, at + 1, lim);
        let e = entity_at(chars, at)->Some_0;
        lemma_pushed_collapsed(out, e.0);
        lemma_strip_collapsed(chars, e.1, pushed_text(out, e.0));
    } else {
        lemma_pushed_collapsed(out, chars[at]);
        lemma_strip_collapsed(chars, at + 1, pushed_text(out, chars[at]));
    }
}

/// Splitting collapsed text at line breaks leaves collapsed pieces, the last of them the
/// end of the text.
proof fn lemma_split_collapsed(s: Seq<char>)
    requires
        collapsed(s),
    ensures
        forall|i: int| 0 <= i < split_scan(s, '\n').0.len() ==> collapsed(#[trigger] split_scan(s, '\n').0[i]),
        collapsed(split_scan(s, '\n').1),
        split_scan(s, '\n').1.len() <= s.len(),
        split_scan(s, '\n').1 == s.subrange(s.len() - split_scan(s, '\n').1.len(), s.len() as int),
    decreases s.len(),
{
    if s.len() > 0 {
        let p = s.drop_last();
        lemma_collapsed_part(s, 0, s.len() - 1);
        assert(p == s.subrange(0, s.len() - 1));
        lemma_split_collapsed(p);
        let (done, cur) = split_scan(p, '\n');
        if s.last() == '\n' {
            assert forall|i: int| 0 <= i < done.push(cur).len() implies collapsed(#[trigger] done.push(cur)[i]) by {
                if i < done.len() {
                    assert(done.push(cur)[i] == done[i]);
                }
            }
            assert(Seq::<char>::empty() =~= s.subrange(s.len() as int, s.len() as int));
        } else {
            let c2 = cur.push(s.last());
            assert(c2 =~= s.subrange(s.len() - c2.len(), s.len() as int)) by {
                assert forall|k: int| 0 <= k < c2.len() implies c2[k] == s.subrange(s.len() - c2.len(), s.len() as int)[k] by {
                    if k < cur.len() {
                        assert(cur[k] == p.subrange(p.len() - cur.len(), p.len() as int)[k]);
                    }
                }
            }
            lemma_collapsed_part(s, s.len() - c2.len(), s.len() as int);
        }
    }
}


/// The pieces of a split hold no separator.
proof fn lemma_split_scan_clean(s: Seq<char>, sep: char)
    ensures
        forall|i: int| 0 <= i < split_scan(s, sep).0.len() ==> !(#[trigger] split_scan(s, sep).0[i]).contains(sep),
        !split_scan(s, sep).1.contains(sep),
    decreases s.len(),
{
    if s.len() > 0 {
        lemma_split_scan_clean(s.drop_last(), sep);
        let (done, cur) = split_scan(s.drop_last(), sep);
        if s.last() == sep {
            assert forall|i: int| 0 <= i < done.push(cur).len() implies !(#[trigger] done.push(cur)[i]).contains(sep) by {
                if i < done.len() {
                    assert(done.push(cur)[i] == done[i]);
                }
            }
            assert(!Seq::<char>::empty().contains(sep));
        } else {
            assert(!cur.push(s.last()).contains(sep)) by {
                if cur.push(s.last()).contains(sep) {
                    let k = choose|k: int| 0 <= k < cur.push(s.last()).len() && cur.push(s.last())[k] == sep;
                    if k < cur.len() {
                        assert(cur.contains(sep));
                    }
                }
            }
        }
    }
}

/// Keeping the lines with something on them, trimmed, leaves only tidy lines when the
/// lines held no break to begin with.
proof fn lemma_nonblank_tidy(lines: Seq<Seq<char>>)
    requires
        forall|i: int| 0 <= i < lines.len() ==> !(#[trigger] lines[i]).contains('\n') && collapsed(lines[i]),
    ensures
        forall|i: int| 0 <= i < nonblank(lines).len() ==> tidy_line(#[trigger] nonblank(lines)[i]),
    decreases lines.len(),
{
    if lines.len() > 0 {
        assert forall|i: int| 0 <= i < lines.drop_last().len() implies !(#[trigger] lines.drop_last()[i]).contains('\n')
            && collapsed(lines.drop_last()[i]) by {
            assert(lines.drop_last()[i] == lines[i]);
        }
        lemma_nonblank_tidy(lines.drop_last());
        let last = lines.last();
        let t = trimmed(last);
        lemma_trimmed_is_trimmed(last);
        crate::text::lemma_trimmed_part(last);
        if t.len() > 0 {
            lemma_collapsed_part(last, crate::text::lead_end(last), trail_start(last));
        }
        if t.len() > 0 {
            assert(!t.contains('\n')) by {
                if t.contains('\n') {
                    let k = choose|k: int| 0 <= k < t.len() && t[k] == '\n';
                    assert(last.contains(t[k]));
                }
            }
            let rest = nonblank(lines.drop_last());
            assert forall|i: int| 0 <= i < rest.push(t).len() implies tidy_line(#[trigger] rest.push(t)[i]) by {
                if i < rest.len() {
                    assert(rest.push(t)[i] == rest[i]);
                }
            }
        }
    }
}

/// Plain text is lines joined by line breaks, and every line has something on it, starts
/// and ends with it, holds no break of its own, and has its whitespace collapsed: no blank
/// lines, no leading or trailing space, no whitespace but single spaces.
pub proof fn law_plain_text_lines_are_tidy(html: Seq<char>)
    ensures
        exists|lines: Seq<Seq<char>>|
            plain_of(html) == crate::modal::joined(lines, seq!['\n']) && forall|i: int|
                0 <= i < lines.len() ==> tidy_line(#[trigger] lines[i]),
{
    let stripped = strip_from(html, 0, Seq::empty());
    let pieces = crate::rows::split_on(stripped, '\n');
    lemma_split_scan_clean(stripped, '\n');
    lemma_strip_collapsed(html, 0, Seq::empty());
    lemma_split_collapsed(stripped);
    let (done, cur) = split_scan(stripped, '\n');
    assert forall|i: int| 0 <= i < pieces.len() implies !(#[trigger] pieces[i]).contains('\n') && collapsed(
        pieces[i],
    ) by {
        if i < done.len() {
            assert(pieces[i] == done[i]);
        }
    }
    lemma_nonblank_tidy(pieces);
    let lines = nonblank(pieces);
    assert(plain_of(html) == crate::modal::joined(lines, seq!['\n']));
}

} // verus!
