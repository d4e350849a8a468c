//! Task descriptions, prepared for rendering.
//!
//! A description is Markdown, plain text, or the HTML Vikunja's web editor stores, and
//! which of the three is not knowable from the API. This module decides which one a
//! description is, and says how each construct is painted: the prefixes of list items,
//! quotes and headings, the styles of emphasis, links and code, and the stylesheet that
//! colours headings.
use crate::text::{chars_of, is_space, lower_seq, matches_at, occurs_at, push_all, string_of};
use crate::theme::{
    accent_color, muted_color, plain_style, with_modifier, Color, Modifier, Style, Theme,
};
use vstd::prelude::*;

verus! {

/// Elements that only appear in generated HTML, never in prose: each block tag's opening.
pub open spec fn block_openers() -> Seq<Seq<char>> {
    seq![
        "<p>"@, "<p "@, "<h1"@, "<h2"@, "<h3"@, "<h4"@, "<h5"@, "<h6"@, "<ul"@, "<ol"@,
        "<li"@, "<pre"@, "<table"@, "<div"@, "<blockquote"@, "<br"@,
    ]
}

fn opener_list() -> (v: Vec<&'static str>)
    ensures
        v@.map_values(|s: &str| s@) == block_openers(),
{
    let v = vec![
        "<p>", "<p ", "<h1", "<h2", "<h3", "<h4", "<h5", "<h6", "<ul", "<ol", "<li", "<pre",
        "<table", "<div", "<blockquote", "<br",
    ];
    assert(v@.map_values(|s: &str| s@) =~= block_openers());
    v
}

/// Whether `tag` opens a real tag at `at` of `lower`: it occurs there, and either ends in
/// `>` itself or is followed by `>`, `/`, whitespace or the end of the text. So
/// `<pre-release plan>` is prose, though it starts with `<pre`.
pub open spec fn opens_block(lower: Seq<char>, tag: Seq<char>, at: int) -> bool {
    let after = at + tag.len();
    &&& tag.len() > 0
    &&& occurs_at(lower, tag, at)
    &&& (tag.last() == '>' || after >= lower.len() || lower[after] == '>' || lower[after] == '/'
        || is_space(lower[after]))
}

/// Whether a description came out of the web editor rather than a keyboard: lowercased,
/// it opens one of the block tags the editor always wraps its content in.
pub open spec fn html_like(description: Seq<char>) -> bool {
    exists|i: int, at: int|
        0 <= i < block_openers().len() && opens_block(lower_seq(description), block_openers()[i], at)
}

/// Whether this description came out of the web editor rather than a keyboard.
///
/// The test is deliberately block tags, not "contains a `<`": `Use Vec<String> here` is
/// prose, and sending it down the HTML branch would delete the bracketed word.
pub fn looks_like_html(description: &str) -> (r: bool)
    ensures
        r == html_like(description@),
{
    let chars = chars_of(description);
    let lower = lower_chars(chars.as_slice());
    let openers = opener_list();
    let ghost ts = openers@.map_values(|s: &str| s@);
    let mut i: usize = 0;
    while i < openers.len()
        invariant
            i <= openers@.len(),
            ts == openers@.map_values(|s: &str| s@),
            ts == block_openers(),
            lower@ == lower_seq(description@),
            forall|j: int, at: int| 0 <= j < i ==> !#[trigger] opens_block(lower@, ts[j], at),
        decreases openers.len() - i,
    {
        let tag = chars_of(openers[i]);
        assert(tag@ == ts[i as int]);
        let mut at: usize = 0;
        while at < lower.len()
            invariant
                at <= lower@.len(),
                forall|a: int| 0 <= a < at ==> !opens_block(lower@, tag@, a),
                i < ts.len(),
                tag@ == ts[i as int],
                ts == block_openers(),
                lower@ == lower_seq(description@),
            decreases lower.len() - at,
        {
            if tag.len() > 0 && matches_at(lower.as_slice(), tag.as_slice(), at) {
                let after = at + tag.len();
                let ends = tag[tag.len() - 1] == '>';
                if ends || after >= lower.len() || lower[after] == '>' || lower[after] == '/'
                    || crate::text::is_space_char(lower[after]) {
                    assert(opens_block(lower@, ts[i as int], at as int));
                    return true;
                }
            }
            at += 1;
        }
        proof {
            assert forall|a: int| !opens_block(lower@, tag@, a) by {
                if a >= at && tag@.len() > 0 {
                    assert(!occurs_at(lower@, tag@, a));
                }
            }
        }
        i += 1;
    }
    false
}

/// The ASCII-lowercase form of some characters.
fn lower_chars(s: &[char]) -> (out: Vec<char>)
    ensures
        out@ == lower_seq(s@),
{
    let mut out: Vec<char> = Vec::new();
    let mut i: usize = 0;
    while i < s.len()
        invariant
            i <= s@.len(),
            out@ == lower_seq(s@.take(i as int)),
        decreases s.len() - i,
    {
        proof {
            assert(lower_seq(s@.take(i + 1)) =~= lower_seq(s@.take(i as int)).push(
                crate::text::lower(s@[i as int]),
            ));
        }
        out.push(crate::text::lower_char(s[i]));
        i += 1;
    }
    assert(s@.take(i as int) =~= s@);
    out
}

/// How each construct of a rendered description is painted, in one theme.
#[derive(Debug, Clone, Copy, PartialEq, Eq)]
pub struct Deco {
    /// The theme every style comes from.
    pub theme: Theme,
}

/// `n` copies of `c`.
pub open spec fn repeated(c: char, n: nat) -> Seq<char> {
    Seq::new(n, |i: int| c)
}

impl Deco {
    /// A decorator painting in `theme`.
    pub fn new(theme: Theme) -> (d: Self)
        ensures
            d.theme == theme,
    {
        Deco { theme }
    }

    /// A link: the accent, underlined.
    pub fn link_style(&self) -> (s: Style)
        ensures
            s == with_modifier(
                Style { fg: Some(accent_color(self.theme.depth())), ..plain_style() },
                Modifier::Underlined,
            ),
    {
        self.theme.accent().add_modifier(Modifier::Underlined)
    }

    /// Emphasis: ordinary text in italics.
    pub fn em_style(&self) -> (s: Style)
        ensures
            s == with_modifier(plain_style(), Modifier::Italic),
    {
        self.theme.text().add_modifier(Modifier::Italic)
    }

    /// Strong text: ordinary text in bold.
    pub fn strong_style(&self) -> (s: Style)
        ensures
            s == with_modifier(plain_style(), Modifier::Bold),
    {
        self.theme.text().add_modifier(Modifier::Bold)
    }

    /// Struck-out text.
    pub fn strikeout_style(&self) -> (s: Style)
        ensures
            s == with_modifier(plain_style(), Modifier::CrossedOut),
    {
        self.theme.text().add_modifier(Modifier::CrossedOut)
    }

    /// Inline code: the accent, foreground only.
    pub fn code_style(&self) -> (s: Style)
        ensures
            s == (Style { fg: Some(accent_color(self.theme.depth())), ..plain_style() }),
    {
        self.theme.accent()
    }

    /// Preformatted text: muted.
    pub fn preformat_style(&self) -> (s: Style)
        ensures
            s == (Style { fg: Some(muted_color(self.theme.depth())), ..plain_style() }),
    {
        self.theme.muted()
    }

    /// An image, shown as its title in brackets, muted.
    pub fn image(&self, title: &str) -> (r: (String, Style))
        ensures
            r.0@ == seq!['['] + title@ + seq![']'],
            r.1 == (Style { fg: Some(muted_color(self.theme.depth())), ..plain_style() }),
    {
        let mut out: Vec<char> = Vec::new();
        out.push('[');
        let t = chars_of(title);
        push_all(&mut out, t.as_slice());
        out.push(']');
        assert(out@ =~= seq!['['] + title@ + seq![']']);
        (string_of(out.as_slice()), self.theme.muted())
    }

    /// A colour the markup asks for: ordinary text in that colour.
    pub fn colour(&self, r: u8, g: u8, b: u8) -> (s: Style)
        ensures
            s == (Style { fg: Some(Color::Rgb(r, g, b)), ..plain_style() }),
    {
        self.theme.text().fg(Color::Rgb(r, g, b))
    }

    /// A heading's prefix: a `#` per level, then a space.
    pub fn header_prefix(&self, level: usize) -> (s: String)
        requires
            level < usize::MAX,
        ensures
            s@ == repeated('#', level as nat).push(' '),
    {
        let mut out: Vec<char> = Vec::new();
        let mut i: usize = 0;
        while i < level
            invariant
                i <= level,
                out@ == repeated('#', i as nat),
            decreases level - i,
        {
            out.push('#');
            i += 1;
            assert(out@ =~= repeated('#', i as nat));
        }
        out.push(' ');
        string_of(out.as_slice())
    }

    /// A quote's prefix: a bar and a space.
    pub fn quote_prefix(&self) -> (s: String)
        ensures
            s@ == seq!['\u{2502}', ' '],
    {
        let mut out: Vec<char> = Vec::new();
        out.push('\u{2502}');
        out.push(' ');
        assert(out@ =~= seq!['\u{2502}', ' ']);
        string_of(out.as_slice())
    }

    /// An unordered list item's prefix: the bullet the preview pane has always used.
    pub fn unordered_item_prefix(&self) -> (s: String)
        ensures
            s@ == seq!['\u{2022}', ' '],
    {
        let mut out: Vec<char> = Vec::new();
        out.push('\u{2022}');
        out.push(' ');
        assert(out@ =~= seq!['\u{2022}', ' ']);
        string_of(out.as_slice())
    }

    /// An ordered list item's prefix: its number, a full stop and a space.
    pub fn ordered_item_prefix(&self, i: i64) -> (s: String)
        ensures
            s@ == crate::text::signed_decimal(i as int) + seq!['.', ' '],
    {
        let mut out = crate::text::signed_decimal_of(i);
        let ghost digits = out@;
        out.push('.');
        out.push(' ');
        assert(out@ =~= digits + seq!['.', ' ']);
        string_of(out.as_slice())
    }
}

/// A lowercase hex digit.
pub open spec fn hex_char(d: int) -> char {
    if d < 10 {
        ((d + 48) as u32) as char
    } else {
        ((d - 10 + 97) as u32) as char
    }
}

/// A byte as two lowercase hex digits, as `{:02x}` writes it.
pub open spec fn hex_pair(b: u8) -> Seq<char> {
    seq![hex_char((b / 16) as int), hex_char((b % 16) as int)]
}

/// A colour as CSS writes it: `#` and three hex pairs.
pub open spec fn css_colour(rgb: (u8, u8, u8)) -> Seq<char> {
    seq!['#'] + hex_pair(rgb.0) + hex_pair(rgb.1) + hex_pair(rgb.2)
}

/// The red, green and blue of a style's foreground, when it is a 24-bit colour.
pub open spec fn rgb_of(s: Style) -> Option<(u8, u8, u8)> {
    match s.fg {
        Some(Color::Rgb(r, g, b)) => Some((r, g, b)),
        _ => None,
    }
}

/// The stylesheet that colours headings with the theme's accent and quotes with its
/// muted colour, when the theme has 24-bit colours to name; each declaration ends in
/// `;`. Nothing, when it has none.
pub open spec fn heading_css(theme: Theme) -> Seq<char> {
    let accent = rgb_of(Style { fg: Some(accent_color(theme.depth())), ..plain_style() });
    let muted = rgb_of(Style { fg: Some(muted_color(theme.depth())), ..plain_style() });
    match accent {
        None => Seq::empty(),
        Some(rgb) => "h1,h2,h3,h4,h5,h6 { color: "@ + css_colour(rgb) + "; }\nblockquote { color: "@
            + css_colour(
            match muted {
                Some(m) => m,
                None => rgb,
            },
        ) + "; }\n"@,
    }
}

fn hex_digit_char(d: u8) -> (c: char)
    requires
        d < 16,
    ensures
        c == hex_char(d as int),
{
    if d < 10 {
        crate::text::char_from_ascii((d + 48) as u32)
    } else {
        crate::text::char_from_ascii((d - 10 + 97) as u32)
    }
}

fn push_css_colour(out: &mut Vec<char>, rgb: (u8, u8, u8))
    ensures
        final(out)@ == old(out)@ + css_colour(rgb),
{
    let ghost start = out@;
    out.push('#');
    out.push(hex_digit_char(rgb.0 / 16));
    out.push(hex_digit_char(rgb.0 % 16));
    out.push(hex_digit_char(rgb.1 / 16));
    out.push(hex_digit_char(rgb.1 % 16));
    out.push(hex_digit_char(rgb.2 / 16));
    out.push(hex_digit_char(rgb.2 % 16));
    assert(out@ =~= start + css_colour(rgb));
}

fn rgb_in(s: Style) -> (r: Option<(u8, u8, u8)>)
    ensures
        r == rgb_of(s),
{
    match s.fg {
        Some(Color::Rgb(r, g, b)) => Some((r, g, b)),
        _ => None,
    }
}

/// The theme, as the few CSS rules the HTML renderer can act on.
pub fn agent_css(theme: Theme) -> (css: String)
    ensures
        css@ == heading_css(theme),
{
    let rgb = match rgb_in(theme.accent()) {
        None => {
            return String::new();
        },
        Some(rgb) => rgb,
    };
    let muted = match rgb_in(theme.muted()) {
        Some(m) => m,
        None => rgb,
    };
    let mut out = chars_of("h1,h2,h3,h4,h5,h6 { color: ");
    push_css_colour(&mut out, rgb);
    let middle = chars_of("; }\nblockquote { color: ");
    push_all(&mut out, middle.as_slice());
    push_css_colour(&mut out, muted);
    let tail = chars_of("; }\n");
    push_all(&mut out, tail.as_slice());
    string_of(out.as_slice())
}

/// The `comrak` options a rendering sets; the rest keep `comrak`'s defaults.
#[derive(Debug, Clone, Copy, PartialEq, Eq, Structural)]
pub struct RenderOptions {
    /// Single newlines as line breaks.
    pub hardbreaks: bool,
    /// Text that looks like a tag escaped.
    pub escape: bool,
    /// GitHub tables.
    pub table: bool,
    /// `~~struck~~` text.
    pub strikethrough: bool,
    /// Bare addresses as links.
    pub autolink: bool,
}

/// How a description is rendered: single newlines as line breaks, text that looks like a
/// tag escaped, and tables, strikethrough and autolinks on.
pub open spec fn description_options() -> RenderOptions {
    RenderOptions { hardbreaks: true, escape: true, table: true, strikethrough: true, autolink: true }
}

/// The HTML `comrak` makes of some Markdown with these options.
pub uninterp spec fn comrak_html(markdown: Seq<char>, options: RenderOptions) -> Seq<char>;

/// `comrak::markdown_to_html` with `options` set on `comrak`'s defaults.
///
/// The HTML depends on the text and the options alone; the contract names it and does
/// not restate CommonMark.
#[verifier::external_body]
fn markdown_html(markdown: &str, options: RenderOptions) -> (html: String)
    ensures
        html@ == comrak_html(markdown@, options),
{
    let mut set = comrak::Options::default();
    set.render.hardbreaks = options.hardbreaks;
    set.render.escape = options.escape;
    set.extension.table = options.table;
    set.extension.strikethrough = options.strikethrough;
    set.extension.autolink = options.autolink;
    comrak::markdown_to_html(markdown, &set)
}

/// The HTML a description is rendered from: nothing for a blank description, the
/// description itself when it came out of the web editor, and otherwise what `comrak`
/// makes of it as Markdown.
pub fn description_html(description: &str) -> (html: Option<String>)
    ensures
        match html {
            None => crate::text::trimmed(description@).len() == 0,
            Some(h) => crate::text::trimmed(description@).len() > 0 && h@ == if html_like(
                description@,
            ) {
                description@
            } else {
                comrak_html(description@, description_options())
            },
        },
{
    let chars = chars_of(description);
    let t = crate::text::trim(chars.as_slice());
    if t.len() == 0 {
        return None;
    }
    if looks_like_html(description) {
        Some(string_of(chars.as_slice()))
    } else {
        Some(
            markdown_html(
                description,
                RenderOptions {
                    hardbreaks: true,
                    escape: true,
                    table: true,
                    strikethrough: true,
                    autolink: true,
                },
            ),
        )
    }
}

/// Whether a rendered line holds nothing but whitespace.
pub open spec fn blank(line: Seq<char>) -> bool {
    crate::text::trimmed(line).len() == 0
}

/// How many of the rendered `lines` to keep: all but the blank ones at the end, which a
/// renderer can hand back for what was, in substance, an empty document.
pub fn kept_lines(lines: &Vec<String>) -> (n: usize)
    ensures
        n <= lines@.len(),
        n == 0 || !blank(lines@[n - 1]@),
        forall|k: int| n <= k < lines@.len() ==> blank(#[trigger] lines@[k]@),
{
    let mut n = lines.len();
    while n > 0
        invariant
            n <= lines@.len(),
            forall|k: int| n <= k < lines@.len() ==> blank(#[trigger] lines@[k]@),
        decreases n,
    {
        let chars = chars_of(lines[n - 1].as_str());
        let t = crate::text::trim(chars.as_slice());
        if t.len() > 0 {
            return n;
        }
        n -= 1;
    }
    n
}

} // verus!
