//! Characters and strings, as the rest of the crate sees them.
//!
//! Text is handled as sequences of `char` throughout: every width, cursor and offset in
//! this crate counts characters, never bytes, so slicing a multi-byte character in half
//! is not something any function here can do.
use unicode_width::UnicodeWidthStr;
use vstd::prelude::*;

verus! {

/// The characters of `s`, in order.
pub fn chars_of(s: &str) -> (out: Vec<char>)
    ensures
        out@ == s@,
{
    let mut out: Vec<char> = Vec::new();
    for c in it: s.chars()
        invariant
            out@ == it.seq().take(it.index() as int),
    {
        out.push(c);
    }
    out
}

/// A string holding exactly these characters.
///
/// Wraps `FromIterator<char> for String`, which std documents as concatenating the
/// characters in order.
#[verifier::external_body]
pub fn string_of(chars: &[char]) -> (s: String)
    ensures
        s@ == chars@,
{
    chars.iter().collect()
}

/// Unicode's `White_Space` property, which is what `char::is_whitespace` tests.
pub open spec fn is_space(c: char) -> bool {
    let n = c as u32;
    ||| 0x09 <= n <= 0x0d
    ||| n == 0x20
    ||| n == 0x85
    ||| n == 0xa0
    ||| n == 0x1680
    ||| 0x2000 <= n <= 0x200a
    ||| n == 0x2028
    ||| n == 0x2029
    ||| n == 0x202f
    ||| n == 0x205f
    ||| n == 0x3000
}

/// Whether `c` is whitespace, by Unicode's definition.
pub fn is_space_char(c: char) -> (r: bool)
    ensures
        r == is_space(c),
{
    let n = c as u32;
    (0x09 <= n && n <= 0x0d) || n == 0x20 || n == 0x85 || n == 0xa0 || n == 0x1680 || (0x2000
        <= n && n <= 0x200a) || n == 0x2028 || n == 0x2029 || n == 0x202f || n == 0x205f || n
        == 0x3000
}

/// The `Cc` general category, which is what `char::is_control` tests.
pub open spec fn is_control(c: char) -> bool {
    let n = c as u32;
    n <= 0x1f || (0x7f <= n && n <= 0x9f)
}

/// Whether `c` is a control character.
pub fn is_control_char(c: char) -> (r: bool)
    ensures
        r == is_control(c),
{
    let n = c as u32;
    n <= 0x1f || (0x7f <= n && n <= 0x9f)
}

/// An ASCII digit.
pub open spec fn is_digit(c: char) -> bool {
    '0' <= c <= '9'
}

/// An ASCII letter.
pub open spec fn is_ascii_letter(c: char) -> bool {
    ('a' <= c <= 'z') || ('A' <= c <= 'Z')
}

/// An ASCII letter or digit.
pub open spec fn is_ascii_alnum(c: char) -> bool {
    is_digit(c) || is_ascii_letter(c)
}

/// An ASCII hexadecimal digit, either case.
pub open spec fn is_hex_digit(c: char) -> bool {
    is_digit(c) || ('a' <= c <= 'f') || ('A' <= c <= 'F')
}

/// Whether `c` is an ASCII digit.
pub fn is_digit_char(c: char) -> (r: bool)
    ensures
        r == is_digit(c),
{
    '0' <= c && c <= '9'
}

/// Whether `c` is an ASCII letter or digit.
pub fn is_ascii_alnum_char(c: char) -> (r: bool)
    ensures
        r == is_ascii_alnum(c),
{
    ('0' <= c && c <= '9') || ('a' <= c && c <= 'z') || ('A' <= c && c <= 'Z')
}

/// Whether `c` is an ASCII hexadecimal digit.
pub fn is_hex_digit_char(c: char) -> (r: bool)
    ensures
        r == is_hex_digit(c),
{
    ('0' <= c && c <= '9') || ('a' <= c && c <= 'f') || ('A' <= c && c <= 'F')
}

/// ASCII lowercasing of one character; everything else is left alone.
pub open spec fn lower(c: char) -> char {
    if 'A' <= c <= 'Z' {
        ((c as u32) + 32) as char
    } else {
        c
    }
}

/// ASCII lowercasing of a whole sequence.
pub open spec fn lower_seq(s: Seq<char>) -> Seq<char> {
    s.map_values(|c: char| lower(c))
}

/// The ASCII-lowercase form of `c`.
pub fn lower_char(c: char) -> (r: char)
    ensures
        r == lower(c),
{
    if 'A' <= c && c <= 'Z' {
        let n = (c as u32) + 32;
        assert(0x61 <= n <= 0x7a);
        char_from_ascii(n)
    } else {
        c
    }
}

/// The character with ASCII code `n`.
pub fn char_from_ascii(n: u32) -> (c: char)
    requires
        n < 128,
    ensures
        c as u32 == n,
        c == n as char,
{
    let b = n as u8;
    b as char
}

/// Whether two sequences are equal ignoring ASCII case, as `eq_ignore_ascii_case` says.
pub open spec fn eq_fold(a: Seq<char>, b: Seq<char>) -> bool {
    lower_seq(a) == lower_seq(b)
}

/// Whether `a` and `b` are equal ignoring ASCII case.
pub fn eq_ignore_case(a: &[char], b: &[char]) -> (r: bool)
    ensures
        r == eq_fold(a@, b@),
{
    if a.len() != b.len() {
        assert(lower_seq(a@).len() != lower_seq(b@).len());
        return false;
    }
    let mut i: usize = 0;
    while i < a.len()
        invariant
            a.len() == b.len(),
            i <= a.len(),
            forall|k: int| 0 <= k < i ==> lower(#[trigger] a@[k]) == lower(b@[k]),
        decreases a.len() - i,
    {
        if lower_char(a[i]) != lower_char(b[i]) {
            assert(lower_seq(a@)[i as int] != lower_seq(b@)[i as int]);
            return false;
        }
        i += 1;
    }
    assert(lower_seq(a@) =~= lower_seq(b@));
    true
}

/// Whether `s` holds `c` anywhere.
pub fn contains_char(s: &[char], c: char) -> (r: bool)
    ensures
        r == s@.contains(c),
{
    let mut i: usize = 0;
    while i < s.len()
        invariant
            i <= s.len(),
            forall|k: int| 0 <= k < i ==> s@[k] != c,
        decreases s.len() - i,
    {
        if s[i] == c {
            assert(s@[i as int] == c);
            return true;
        }
        i += 1;
    }
    false
}

/// Whether `needle` occurs in `s` starting at `at`.
pub open spec fn occurs_at(s: Seq<char>, needle: Seq<char>, at: int) -> bool {
    0 <= at && at + needle.len() <= s.len() && s.subrange(at, at + needle.len()) == needle
}

/// Whether `needle` occurs in `s` starting at `at`.
pub fn matches_at(s: &[char], needle: &[char], at: usize) -> (r: bool)
    ensures
        r == occurs_at(s@, needle@, at as int),
{
    if at > s.len() || needle.len() > s.len() - at {
        return false;
    }
    let mut i: usize = 0;
    while i < needle.len()
        invariant
            at + needle.len() <= s.len(),
            i <= needle.len(),
            forall|k: int| 0 <= k < i ==> s@[at + k] == needle@[k],
        decreases needle.len() - i,
    {
        if s[at + i] != needle[i] {
            assert(s@.subrange(at as int, at + needle.len())[i as int] != needle@[i as int]);
            return false;
        }
        i += 1;
    }
    assert(s@.subrange(at as int, at + needle@.len()) =~= needle@);
    true
}

/// Whether `s` begins with `prefix`.
pub fn starts_with(s: &[char], prefix: &[char]) -> (r: bool)
    ensures
        r == occurs_at(s@, prefix@, 0),
        r == (prefix@.len() <= s@.len() && s@.subrange(0, prefix@.len() as int) == prefix@),
{
    matches_at(s, prefix, 0)
}

/// `s` with leading and trailing whitespace removed.
pub open spec fn trimmed(s: Seq<char>) -> Seq<char> {
    if lead_end(s) <= trail_start(s) {
        s.subrange(lead_end(s), trail_start(s))
    } else {
        Seq::empty()
    }
}

/// Index of the first non-whitespace character, or the length.
pub open spec fn lead_end(s: Seq<char>) -> int
    decreases s.len(),
{
    if s.len() == 0 || !is_space(s[0]) {
        0
    } else {
        1 + lead_end(s.drop_first())
    }
}

/// Index just past the last non-whitespace character, or the start of the trailing run.
pub open spec fn trail_start(s: Seq<char>) -> int
    decreases s.len(),
{
    if s.len() == 0 {
        0
    } else if !is_space(s.last()) {
        s.len() as int
    } else {
        trail_start(s.drop_last())
    }
}

proof fn lemma_lead_end(s: Seq<char>)
    ensures
        0 <= lead_end(s) <= s.len(),
        forall|k: int| 0 <= k < lead_end(s) ==> is_space(#[trigger] s[k]),
        lead_end(s) < s.len() ==> !is_space(s[lead_end(s)]),
    decreases s.len(),
{
    if s.len() > 0 && is_space(s[0]) {
        lemma_lead_end(s.drop_first());
        assert forall|k: int| 0 <= k < lead_end(s) implies is_space(#[trigger] s[k]) by {
            if k > 0 {
                assert(s[k] == s.drop_first()[k - 1]);
            }
        }
    }
}

proof fn lemma_trail_start(s: Seq<char>)
    ensures
        0 <= trail_start(s) <= s.len(),
        forall|k: int| trail_start(s) <= k < s.len() ==> is_space(#[trigger] s[k]),
        trail_start(s) > 0 ==> !is_space(s[trail_start(s) - 1]),
    decreases s.len(),
{
    if s.len() > 0 && is_space(s.last()) {
        lemma_trail_start(s.drop_last());
        assert forall|k: int| trail_start(s) <= k < s.len() implies is_space(#[trigger] s[k]) by {
            if k < s.len() - 1 {
                assert(s[k] == s.drop_last()[k]);
            }
        }
    }
}

/// Where the leading whitespace of `s` ends.
pub fn leading_end(s: &[char]) -> (r: usize)
    ensures
        r == lead_end(s@),
{
    proof {
        lemma_lead_end(s@);
    }
    let mut i: usize = 0;
    while i < s.len() && is_space_char(s[i])
        invariant
            i <= s.len(),
            forall|k: int| 0 <= k < i ==> is_space(#[trigger] s@[k]),
            lead_end(s@) <= s.len(),
            forall|k: int| 0 <= k < lead_end(s@) ==> is_space(#[trigger] s@[k]),
            lead_end(s@) < s.len() ==> !is_space(s@[lead_end(s@)]),
        decreases s.len() - i,
    {
        i += 1;
    }
    i
}

/// Where the trailing whitespace of `s` starts.
pub fn trailing_start(s: &[char]) -> (r: usize)
    ensures
        r == trail_start(s@),
{
    proof {
        lemma_trail_start(s@);
    }
    let mut i: usize = s.len();
    while i > 0 && is_space_char(s[i - 1])
        invariant
            i <= s.len(),
            forall|k: int| i <= k < s.len() ==> is_space(#[trigger] s@[k]),
            0 <= trail_start(s@) <= s.len(),
            forall|k: int| trail_start(s@) <= k < s.len() ==> is_space(#[trigger] s@[k]),
            trail_start(s@) > 0 ==> !is_space(s@[trail_start(s@) - 1]),
        decreases i,
    {
        i -= 1;
    }
    i
}

/// `s` without its leading and trailing whitespace, as `str::trim` gives it.
pub fn trim(s: &[char]) -> (out: Vec<char>)
    ensures
        out@ == trimmed(s@),
{
    let start = leading_end(s);
    let end = trailing_start(s);
    proof {
        lemma_lead_end(s@);
        lemma_trail_start(s@);
        lemma_trim_bounds(s@);
    }
    slice_to_vec(s, start, end)
}

/// Trimming what is already trimmed changes nothing.
pub proof fn lemma_trimmed_is_trimmed(s: Seq<char>)
    ensures
        trimmed(trimmed(s)) == trimmed(s),
        trimmed(s).len() <= s.len(),
        forall|k: int| 0 <= k < trimmed(s).len() ==> s.contains(#[trigger] trimmed(s)[k]),
{
    lemma_lead_end(s);
    lemma_trail_start(s);
    lemma_trim_bounds(s);
    let t = trimmed(s);
    if t.len() > 0 {
        let a = lead_end(s);
        let b = trail_start(s);
        assert(t[0] == s[a]);
        assert(t[t.len() - 1] == s[b - 1]);
        assert(lead_end(t) == 0);
        assert(trail_start(t) == t.len());
        assert(trimmed(t) =~= t);
        assert forall|k: int| 0 <= k < t.len() implies s.contains(#[trigger] t[k]) by {
            assert(t[k] == s[a + k]);
        }
    } else {
        assert(trimmed(t) =~= t);
    }
}

/// What is left after trimming is the stretch between the leading and the trailing runs.
pub proof fn lemma_trimmed_part(s: Seq<char>)
    ensures
        trimmed(s).len() > 0 ==> 0 <= lead_end(s) <= trail_start(s) <= s.len() && trimmed(s) == s.subrange(
            lead_end(s),
            trail_start(s),
        ),
{
    lemma_lead_end(s);
    lemma_trail_start(s);
}

/// The leading run ends no later than the trailing run starts, unless it is all space.
pub proof fn lemma_trim_bounds(s: Seq<char>)
    ensures
        lead_end(s) <= trail_start(s) || (lead_end(s) == s.len() && trail_start(s) == 0),
        lead_end(s) == s.len() ==> trail_start(s) == 0,
{
    lemma_lead_end(s);
    lemma_trail_start(s);
    if lead_end(s) < s.len() {
        // the first non-space character is before or at the last one
        if trail_start(s) < lead_end(s) + 1 {
            assert(is_space(s[lead_end(s)]));
        }
    } else if trail_start(s) > 0 {
        assert(!is_space(s[trail_start(s) - 1]));
        assert(is_space(s[trail_start(s) - 1]));
    }
}

/// The characters of `s` from `start` up to `end`, copied.
pub fn slice_to_vec(s: &[char], start: usize, end: usize) -> (out: Vec<char>)
    ensures
        start <= end <= s.len() ==> out@ == s@.subrange(start as int, end as int),
        !(start <= end <= s.len()) ==> out@.len() == 0,
{
    let mut out: Vec<char> = Vec::new();
    if !(start <= end && end <= s.len()) {
        return out;
    }
    let mut i = start;
    while i < end
        invariant
            start <= i <= end <= s.len(),
            out@ == s@.subrange(start as int, i as int),
        decreases end - i,
    {
        out.push(s[i]);
        i += 1;
    }
    out
}

/// Append every character of `more` to `out`.
pub fn push_all(out: &mut Vec<char>, more: &[char])
    ensures
        final(out)@ == old(out)@ + more@,
{
    let mut i: usize = 0;
    while i < more.len()
        invariant
            i <= more.len(),
            out@ == old(out)@ + more@.subrange(0, i as int),
        decreases more.len() - i,
    {
        out.push(more[i]);
        i += 1;
    }
    assert(more@.subrange(0, more@.len() as int) =~= more@);
}

/// What `{:?}` writes for a string: the text in double quotes, with quotes, backslashes,
/// control characters and unprintable characters escaped as `char::escape_debug` escapes
/// them.
pub uninterp spec fn debug_quoted(text: Seq<char>) -> Seq<char>;

/// std's `Debug` for `str`, as `format!("{:?}")` writes it.
///
/// The result depends on the text alone. The contract names it: which characters count as
/// printable comes from Unicode tables inside std, which are not restated here.
#[verifier::external_body]
pub(crate) fn debug_text(text: &str) -> (s: String)
    ensures
        s@ == debug_quoted(text@),
{
    format!("{text:?}")
}

/// How many terminal cells `text` occupies, by Unicode Standard Annex #11 as
/// `unicode-width` computes it.
pub uninterp spec fn cells(text: Seq<char>) -> nat;

/// `cells`, saturated at the largest `u16`.
pub open spec fn width_of(text: Seq<char>) -> u16 {
    if cells(text) > u16::MAX {
        u16::MAX
    } else {
        cells(text) as u16
    }
}

/// `UnicodeWidthStr::width` from `unicode-width`: how many terminal cells `text` occupies.
///
/// The count depends on the text alone. The contract says only that, through the name
/// `cells`: the rules of UAX #11 and the ligatures the crate recognises are not restated.
#[verifier::external_body]
fn unicode_width(text: &str) -> (n: usize)
    ensures
        n as nat == cells(text@),
{
    UnicodeWidthStr::width(text)
}

/// How many terminal cells a string occupies, saturated at the largest `u16`.
pub fn display_width(text: &str) -> (w: u16)
    ensures
        w == width_of(text@),
{
    let n = unicode_width(text);
    if n > u16::MAX as usize {
        u16::MAX
    } else {
        n as u16
    }
}

/// How many cells a run of characters occupies.
pub fn width_of_chars(text: &[char]) -> (w: u16)
    ensures
        w == width_of(text@),
{
    let s = string_of(text);
    display_width(s.as_str())
}

/// How many cells one character occupies, measured on its own.
pub fn char_width(c: char) -> (w: u16)
    ensures
        w == width_of(seq![c]),
{
    let one = [c];
    let s = string_of(&one);
    assert(one@ =~= seq![c]);
    display_width(s.as_str())
}

/// The decimal digits of `n`, most significant first, as `{}` formats it.
pub open spec fn decimal(n: nat) -> Seq<char>
    decreases n,
{
    if n < 10 {
        seq![digit_char(n)]
    } else {
        decimal(n / 10).push(digit_char(n % 10))
    }
}

/// The ASCII digit for `d`, which is below ten.
pub open spec fn digit_char(d: nat) -> char {
    ((d + 48) as u32) as char
}

/// `n` written in decimal.
pub fn decimal_of(n: u64) -> (out: Vec<char>)
    ensures
        out@ == decimal(n as nat),
    decreases n,
{
    if n < 10 {
        let c = char_from_ascii((n + 48) as u32);
        let mut out = Vec::new();
        out.push(c);
        proof {
            assert(out@ =~= seq![digit_char(n as nat)]);
        }
        out
    } else {
        let mut out = decimal_of(n / 10);
        let c = char_from_ascii((n % 10 + 48) as u32);
        out.push(c);
        out
    }
}

/// `n` written in decimal with a leading `-` when negative, as `{}` formats an `i64`.
pub open spec fn signed_decimal(n: int) -> Seq<char> {
    if n < 0 {
        seq!['-'] + decimal((-n) as nat)
    } else {
        decimal(n as nat)
    }
}

/// `n` written in decimal.
pub fn signed_decimal_of(n: i64) -> (out: Vec<char>)
    ensures
        out@ == signed_decimal(n as int),
{
    if n < 0 {
        let magnitude: u64 = ((-(n + 1)) as u64) + 1;
        let digits = decimal_of(magnitude);
        let mut out = Vec::new();
        out.push('-');
        push_all(&mut out, digits.as_slice());
        proof {
            assert(out@ =~= seq!['-'] + decimal((-n) as nat));
        }
        out
    } else {
        decimal_of(n as u64)
    }
}

/// What `str::to_lowercase` gives for a text: its Unicode lowercase mapping.
pub uninterp spec fn lowercase(text: Seq<char>) -> Seq<char>;

/// `str::to_lowercase`.
///
/// The result depends on the text alone; the contract names it rather than restating the
/// Unicode case tables.
#[verifier::external_body]
pub fn to_lowercase(text: &str) -> (s: String)
    ensures
        s@ == lowercase(text@),
{
    text.to_lowercase()
}

/// Whether `a` sorts before `b` as `str`'s ordering has it: character by character by
/// code point, a proper prefix first.
pub open spec fn lex_before(a: Seq<char>, b: Seq<char>) -> bool
    decreases a.len(),
{
    if a.len() == 0 {
        b.len() > 0
    } else if b.len() == 0 {
        false
    } else if a[0] != b[0] {
        (a[0] as u32) < (b[0] as u32)
    } else {
        lex_before(a.drop_first(), b.drop_first())
    }
}

/// Whether `a[i..]` sorts before `b[i..]`.
fn lex_before_from(a: &[char], b: &[char], i: usize) -> (r: bool)
    requires
        i <= a@.len(),
        i <= b@.len(),
    ensures
        r == lex_before(a@.skip(i as int), b@.skip(i as int)),
    decreases a.len() - i,
{
    let ghost sa = a@.skip(i as int);
    let ghost sb = b@.skip(i as int);
    if i == a.len() {
        return i < b.len();
    }
    if i == b.len() {
        return false;
    }
    if a[i] != b[i] {
        return (a[i] as u32) < (b[i] as u32);
    }
    proof {
        assert(sa.drop_first() =~= a@.skip(i + 1));
        assert(sb.drop_first() =~= b@.skip(i + 1));
    }
    lex_before_from(a, b, i + 1)
}

/// Whether `a` sorts before `b` as `str`'s ordering has it.
pub fn text_before(a: &[char], b: &[char]) -> (r: bool)
    ensures
        r == lex_before(a@, b@),
{
    proof {
        assert(a@.skip(0) =~= a@);
        assert(b@.skip(0) =~= b@);
    }
    lex_before_from(a, b, 0)
}

} // verus!
