//! Colour, as semantic slots rather than literal values.
//!
//! Nothing outside this module names a colour. A row asks for `theme.error()`, not for
//! red. Terminal capability arrives from outside rather than being sniffed here: the
//! caller says how deep the terminal's colour is.
use crate::text::{chars_of, is_hex_digit};
use vstd::prelude::*;

verus! {

/// How much colour the terminal can show.
#[derive(Debug, Clone, Copy, PartialEq, Eq, Structural)]
pub enum ColorDepth {
    /// `NO_COLOR`, or a terminal that says it cannot.
    NoColor,
    /// The sixteen ANSI colours.
    Ansi16,
    /// The 256-colour cube.
    Ansi256,
    /// 24-bit colour.
    TrueColor,
}

impl Default for ColorDepth {
    /// Truecolor, unless the terminal says otherwise.
    fn default() -> (d: Self)
        ensures
            d == ColorDepth::TrueColor,
    {
        ColorDepth::TrueColor
    }
}

/// A terminal colour.
#[derive(Debug, Clone, Copy, PartialEq, Eq, Structural)]
pub enum Color {
    /// The terminal's own colour.
    Reset,
    Black,
    White,
    Red,
    Yellow,
    Green,
    Blue,
    DarkGray,
    /// An entry of the 256-colour palette.
    Indexed(u8),
    /// A 24-bit colour.
    Rgb(u8, u8, u8),
}

/// The text attributes a style can turn on.
#[derive(Debug, Clone, Copy, PartialEq, Eq, Structural)]
pub struct Modifiers {
    pub bold: bool,
    pub italic: bool,
    pub crossed_out: bool,
    pub underlined: bool,
}

/// A single attribute.
#[derive(Debug, Clone, Copy, PartialEq, Eq, Structural)]
pub enum Modifier {
    Bold,
    Italic,
    CrossedOut,
    Underlined,
}

/// How a run of text is drawn: its colours, where it sets them, and its attributes.
#[derive(Debug, Clone, Copy, PartialEq, Eq, Structural)]
pub struct Style {
    pub fg: Option<Color>,
    pub bg: Option<Color>,
    pub modifiers: Modifiers,
}

/// The style that sets nothing.
pub open spec fn plain_style() -> Style {
    Style {
        fg: None,
        bg: None,
        modifiers: Modifiers { bold: false, italic: false, crossed_out: false, underlined: false },
    }
}

/// `s` with `m` turned on as well.
pub open spec fn with_modifier(s: Style, m: Modifier) -> Style {
    Style {
        modifiers: match m {
            Modifier::Bold => Modifiers { bold: true, ..s.modifiers },
            Modifier::Italic => Modifiers { italic: true, ..s.modifiers },
            Modifier::CrossedOut => Modifiers { crossed_out: true, ..s.modifiers },
            Modifier::Underlined => Modifiers { underlined: true, ..s.modifiers },
        },
        ..s
    }
}

impl Style {
    /// The style that sets nothing.
    pub fn new() -> (s: Self)
        ensures
            s == plain_style(),
    {
        Style {
            fg: None,
            bg: None,
            modifiers: Modifiers { bold: false, italic: false, crossed_out: false, underlined: false },
        }
    }

    /// This style with its foreground set.
    pub fn fg(self, c: Color) -> (s: Self)
        ensures
            s == (Style { fg: Some(c), ..self }),
    {
        Style { fg: Some(c), ..self }
    }

    /// This style with its background set.
    pub fn bg(self, c: Color) -> (s: Self)
        ensures
            s == (Style { bg: Some(c), ..self }),
    {
        Style { bg: Some(c), ..self }
    }

    /// This style with `m` turned on as well.
    pub fn add_modifier(self, m: Modifier) -> (s: Self)
        ensures
            s == with_modifier(self, m),
    {
        let mut modifiers = self.modifiers;
        match m {
            Modifier::Bold => modifiers.bold = true,
            Modifier::Italic => modifiers.italic = true,
            Modifier::CrossedOut => modifiers.crossed_out = true,
            Modifier::Underlined => modifiers.underlined = true,
        }
        Style { modifiers, ..self }
    }
}

/// The larger of two bytes.
pub open spec fn max8(a: u8, b: u8) -> u8 {
    if a >= b {
        a
    } else {
        b
    }
}

/// The smaller of two bytes.
pub open spec fn min8(a: u8, b: u8) -> u8 {
    if a <= b {
        a
    } else {
        b
    }
}

/// Where a channel falls on one axis of the 6×6×6 cube.
pub open spec fn cube_axis(v: u8) -> int {
    ((if v >= 35 {
        v - 35
    } else {
        0
    }) + 20) / 40
}

/// The nearest entry of the 256-colour palette.
///
/// A colour whose channels differ by less than 24 reads as grey, and goes to the
/// greyscale ramp (232 to 255), or to the cube's black or white at its ends; rounding a
/// near-grey through the cube lands on a visibly tinted colour. Any other goes to the
/// nearest corner of the 6×6×6 cube (16 to 231).
pub open spec fn palette_index(r: u8, g: u8, b: u8) -> u8 {
    let spread = max8(max8(r, g), b) - min8(min8(r, g), b);
    if spread < 24 {
        let level = (r + g + b) / 3;
        if level < 8 {
            16
        } else if level > 248 {
            231
        } else {
            let step = (level - 8) * 24 / 240;
            (232 + if step < 23 {
                step
            } else {
                23
            }) as u8
        }
    } else {
        let cube = 16 + 36 * cube_axis(r) + 6 * cube_axis(g) + cube_axis(b);
        (if cube < 231 {
            cube
        } else {
            231
        }) as u8
    }
}

fn axis(v: u8) -> (a: u32)
    ensures
        a == cube_axis(v),
        a <= 6,
{
    let shifted: u32 = if v >= 35 { (v - 35) as u32 } else { 0 };
    (shifted + 20) / 40
}

/// The nearest colour in the 256-colour cube.
pub fn index_for(rgb: (u8, u8, u8)) -> (i: u8)
    ensures
        i == palette_index(rgb.0, rgb.1, rgb.2),
{
    let (r, g, b) = rgb;
    let hi = if r >= g { r } else { g };
    let hi = if hi >= b { hi } else { b };
    let lo = if r <= g { r } else { g };
    let lo = if lo <= b { lo } else { b };
    let spread: u32 = (hi - lo) as u32;
    if spread < 24 {
        let level: u32 = (r as u32 + g as u32 + b as u32) / 3;
        if level < 8 {
            return 16;
        }
        if level > 248 {
            return 231;
        }
        let step: u32 = (level - 8) * 24 / 240;
        return (232 + if step < 23 { step } else { 23 }) as u8;
    }
    let cube: u32 = 16 + 36 * axis(r) + 6 * axis(g) + axis(b);
    (if cube < 231 { cube } else { 231 }) as u8
}

/// A colour whose channels are close reads as grey and lands on the greyscale ramp,
/// unless it is nearly black or nearly white; any other lands in the colour cube.
pub proof fn law_a_near_grey_stays_grey(r: u8, g: u8, b: u8)
    ensures
        ({
            let spread = max8(max8(r, g), b) - min8(min8(r, g), b);
            let level = (r + g + b) / 3;
            &&& spread < 24 && 8 <= level <= 248 ==> 232 <= palette_index(r, g, b)
            &&& spread >= 24 ==> 16 <= palette_index(r, g, b) <= 231
        }),
{
    let level = (r + g + b) / 3;
    if 8 <= level <= 248 {
        assert((level - 8) * 24 / 240 >= 0) by (nonlinear_arith)
            requires
                level >= 8,
        ;
    }
}

/// A shade as a terminal of `depth` shows it: nothing of its own without colour, its
/// ANSI name in sixteen, the nearest palette entry in 256, and itself in truecolor.
pub open spec fn shade_at(rgb: (u8, u8, u8), ansi: Color, depth: ColorDepth) -> Color {
    match depth {
        ColorDepth::NoColor => Color::Reset,
        ColorDepth::Ansi16 => ansi,
        ColorDepth::Ansi256 => Color::Indexed(palette_index(rgb.0, rgb.1, rgb.2)),
        ColorDepth::TrueColor => Color::Rgb(rgb.0, rgb.1, rgb.2),
    }
}

fn at(rgb: (u8, u8, u8), ansi: Color, depth: ColorDepth) -> (c: Color)
    ensures
        c == shade_at(rgb, ansi, depth),
{
    match depth {
        ColorDepth::NoColor => Color::Reset,
        ColorDepth::Ansi16 => ansi,
        ColorDepth::Ansi256 => Color::Indexed(index_for(rgb)),
        ColorDepth::TrueColor => Color::Rgb(rgb.0, rgb.1, rgb.2),
    }
}

/// Vikunja's blue, which is the one colour the product is recognisable by.
pub open spec fn accent_color(depth: ColorDepth) -> Color {
    shade_at((25, 115, 255), Color::Blue, depth)
}

/// Secondary text.
pub open spec fn muted_color(depth: ColorDepth) -> Color {
    shade_at((122, 128, 140), Color::DarkGray, depth)
}

/// Borders and rules.
pub open spec fn border_color(depth: ColorDepth) -> Color {
    shade_at((68, 74, 88), Color::DarkGray, depth)
}

/// The selected row in the pane being driven.
pub open spec fn focus_color(depth: ColorDepth) -> Color {
    shade_at((46, 82, 148), Color::Blue, depth)
}

/// The selected row in a pane that is not being driven.
pub open spec fn idle_color(depth: ColorDepth) -> Color {
    shade_at((38, 46, 64), Color::DarkGray, depth)
}

/// Overdue, and errors.
pub open spec fn overdue_color(depth: ColorDepth) -> Color {
    shade_at((224, 84, 84), Color::Red, depth)
}

/// Due soon, and warnings.
pub open spec fn soon_color(depth: ColorDepth) -> Color {
    shade_at((230, 170, 60), Color::Yellow, depth)
}

/// Things that worked.
pub open spec fn ok_color(depth: ColorDepth) -> Color {
    shade_at((90, 190, 120), Color::Green, depth)
}

/// How a completed task reads: muted and struck through.
pub open spec fn done_style(depth: ColorDepth) -> Style {
    with_modifier(
        Style { fg: Some(muted_color(depth)), ..plain_style() },
        Modifier::CrossedOut,
    )
}

/// How a priority reads: only 3 and up draw attention, 5 the most.
pub open spec fn priority_style(depth: ColorDepth, priority: i64) -> Style {
    if priority == 5 {
        with_modifier(
            Style { fg: Some(overdue_color(depth)), ..plain_style() },
            Modifier::Bold,
        )
    } else if priority == 4 {
        Style { fg: Some(overdue_color(depth)), ..plain_style() }
    } else if priority == 3 {
        Style { fg: Some(soon_color(depth)), ..plain_style() }
    } else {
        Style { fg: Some(muted_color(depth)), ..plain_style() }
    }
}

/// How a due date reads at `now`: muted with no date or once done, an error once past, a
/// warning within 48 hours, and ordinary text further out.
pub open spec fn due_style(depth: ColorDepth, due: Option<i64>, done: bool, now: i64) -> Style {
    match due {
        None => Style { fg: Some(muted_color(depth)), ..plain_style() },
        Some(d) => if done {
            Style { fg: Some(muted_color(depth)), ..plain_style() }
        } else if d < now {
            Style { fg: Some(overdue_color(depth)), ..plain_style() }
        } else if (d - now) / 3600 < 48 {
            Style { fg: Some(soon_color(depth)), ..plain_style() }
        } else {
            plain_style()
        },
    }
}

/// How a label chip reads: the accent when its colour cannot be read, plain text without
/// colour, and otherwise the colour as a background under black text when it is pale and
/// white text when it is not.
pub open spec fn label_style(depth: ColorDepth, hex: Seq<char>) -> Style {
    match hex_rgb(hex) {
        None => Style { fg: Some(accent_color(depth)), ..plain_style() },
        Some(rgb) => if depth == ColorDepth::NoColor {
            plain_style()
        } else {
            Style {
                bg: Some(shade_at(rgb, Color::Blue, depth)),
                fg: Some(
                    if pale(rgb.0, rgb.1, rgb.2) {
                        Color::Black
                    } else {
                        Color::White
                    },
                ),
                ..plain_style()
            }
        },
    }
}

/// Vikunja's palette, resolved for one terminal.
///
/// The background is deliberately absent: the theme paints foregrounds and selections
/// only, and leaves the terminal's own background alone.
#[derive(Debug, Clone, Copy, PartialEq, Eq, Structural)]
pub struct Theme {
    depth: ColorDepth,
}

impl Default for Theme {
    /// The truecolor theme.
    fn default() -> (t: Self)
        ensures
            t.depth() == ColorDepth::TrueColor,
    {
        Theme { depth: ColorDepth::TrueColor }
    }
}

impl Theme {
    /// The colour depth the theme resolves for.
    pub closed spec fn depth(self) -> ColorDepth {
        self.depth
    }

    /// The theme for a terminal of this depth.
    pub fn new(depth: ColorDepth) -> (t: Self)
        ensures
            t.depth() == depth,
    {
        Theme { depth }
    }

    /// Ordinary text: whatever the terminal's foreground is.
    pub fn text(self) -> (s: Style)
        ensures
            s == plain_style(),
    {
        Style::new()
    }

    /// Secondary text: counts, hints, empty values.
    pub fn muted(self) -> (s: Style)
        ensures
            s == (Style { fg: Some(muted_color(self.depth())), ..plain_style() }),
    {
        Style::new().fg(at((122, 128, 140), Color::DarkGray, self.depth))
    }

    /// Vikunja blue, for the things the eye should land on.
    pub fn accent(self) -> (s: Style)
        ensures
            s == (Style { fg: Some(accent_color(self.depth())), ..plain_style() }),
    {
        Style::new().fg(at((25, 115, 255), Color::Blue, self.depth))
    }

    /// Pane borders and rules.
    pub fn border(self) -> (s: Style)
        ensures
            s == (Style { fg: Some(border_color(self.depth())), ..plain_style() }),
    {
        Style::new().fg(at((68, 74, 88), Color::DarkGray, self.depth))
    }

    /// A column heading or a section title: muted, in bold.
    pub fn heading(self) -> (s: Style)
        ensures
            s == with_modifier(
                Style { fg: Some(muted_color(self.depth())), ..plain_style() },
                Modifier::Bold,
            ),
    {
        self.muted().add_modifier(Modifier::Bold)
    }

    /// The selected row: a bright background in bold in the pane that has focus, a quiet
    /// one elsewhere. Both are backgrounds, so a row's own colours never take over.
    pub fn selected(self, focused: bool) -> (s: Style)
        ensures
            s == if focused {
                with_modifier(Style { bg: Some(focus_color(self.depth())), ..plain_style() }, Modifier::Bold)
            } else {
                Style { bg: Some(idle_color(self.depth())), ..plain_style() }
            },
    {
        if focused {
            Style::new().bg(at((46, 82, 148), Color::Blue, self.depth)).add_modifier(Modifier::Bold)
        } else {
            Style::new().bg(at((38, 46, 64), Color::DarkGray, self.depth))
        }
    }

    /// A pane's border or headings: accented while it has focus.
    pub fn pane(self, focused: bool) -> (s: Style)
        ensures
            s == if focused {
                Style { fg: Some(accent_color(self.depth())), ..plain_style() }
            } else {
                Style { fg: Some(border_color(self.depth())), ..plain_style() }
            },
    {
        if focused {
            Style::new().fg(at((25, 115, 255), Color::Blue, self.depth))
        } else {
            self.border()
        }
    }

    /// A completed task: muted and struck through.
    pub fn done(self) -> (s: Style)
        ensures
            s == done_style(self.depth()),
    {
        self.muted().add_modifier(Modifier::CrossedOut)
    }

    /// Something went wrong.
    pub fn error(self) -> (s: Style)
        ensures
            s == (Style { fg: Some(overdue_color(self.depth())), ..plain_style() }),
    {
        Style::new().fg(at((224, 84, 84), Color::Red, self.depth))
    }

    /// Something the user should notice.
    pub fn warning(self) -> (s: Style)
        ensures
            s == (Style { fg: Some(soon_color(self.depth())), ..plain_style() }),
    {
        Style::new().fg(at((230, 170, 60), Color::Yellow, self.depth))
    }

    /// Something worked.
    pub fn ok(self) -> (s: Style)
        ensures
            s == (Style { fg: Some(ok_color(self.depth())), ..plain_style() }),
    {
        Style::new().fg(at((90, 190, 120), Color::Green, self.depth))
    }

    /// How a priority reads: only 3 and up draw attention, 5 the most.
    pub fn priority(self, priority: i64) -> (s: Style)
        ensures
            s == priority_style(self.depth(), priority),
    {
        if priority == 5 {
            self.error().add_modifier(Modifier::Bold)
        } else if priority == 4 {
            self.error()
        } else if priority == 3 {
            self.warning()
        } else {
            self.muted()
        }
    }

    /// How a due date reads at `now`, both instants in seconds since the epoch: muted
    /// with no date or once done, an error once past, a warning within 48 hours, and
    /// ordinary text further out.
    pub fn due(self, due: Option<i64>, done: bool, now: i64) -> (s: Style)
        ensures
            s == due_style(self.depth(), due, done, now),
    {
        let d = match due {
            None => {
                return self.muted();
            },
            Some(d) => d,
        };
        if done {
            return self.muted();
        }
        if d < now {
            return self.error();
        }
        let ahead: i128 = d as i128 - now as i128;
        if ahead / 3600 < 48 {
            return self.warning();
        }
        self.text()
    }

    /// A label chip, coloured the way the server says: the accent when the colour cannot
    /// be read, plain text without colour, and otherwise the colour as a background
    /// under black text when it is pale and white text when it is not.
    pub fn label(self, hex: &str) -> (s: Style)
        ensures
            s == label_style(self.depth(), hex@),
    {
        let rgb = match parse_hex(hex) {
            None => {
                return self.accent();
            },
            Some(rgb) => rgb,
        };
        if self.depth == ColorDepth::NoColor {
            return self.text();
        }
        let background = at(rgb, Color::Blue, self.depth);
        let foreground = if is_pale(rgb.0, rgb.1, rgb.2) {
            Color::Black
        } else {
            Color::White
        };
        Style::new().bg(background).fg(foreground)
    }
}

/// Whether a colour reads as pale: its perceived brightness, weighting the channels by
/// the sRGB coefficients 0.2126, 0.7152 and 0.0722, is above 0.55 of full.
pub open spec fn pale(r: u8, g: u8, b: u8) -> bool {
    2126 * r + 7152 * g + 722 * b > 1402500
}

fn is_pale(r: u8, g: u8, b: u8) -> (p: bool)
    ensures
        p == pale(r, g, b),
{
    2126 * (r as u32) + 7152 * (g as u32) + 722 * (b as u32) > 1402500
}

/// The value of a hex digit.
pub open spec fn hex_value(c: char) -> int {
    if '0' <= c <= '9' {
        (c as int) - ('0' as int)
    } else if 'a' <= c <= 'f' {
        (c as int) - ('a' as int) + 10
    } else {
        (c as int) - ('A' as int) + 10
    }
}

/// A colour written as six hex digits, with or without leading `#`s and surrounding
/// whitespace: its red, green and blue, or `None` when it is anything else.
pub open spec fn hex_rgb(hex: Seq<char>) -> Option<(u8, u8, u8)> {
    let c = crate::label_forms::colour_of(hex);
    if c.len() == 6 && forall|k: int| 0 <= k < 6 ==> is_hex_digit(#[trigger] c[k]) {
        Some(
            (
                (hex_value(c[0]) * 16 + hex_value(c[1])) as u8,
                (hex_value(c[2]) * 16 + hex_value(c[3])) as u8,
                (hex_value(c[4]) * 16 + hex_value(c[5])) as u8,
            ),
        )
    } else {
        None
    }
}

fn hex_digit(c: char) -> (v: u8)
    requires
        is_hex_digit(c),
    ensures
        v as int == hex_value(c),
        v < 16,
{
    if '0' <= c && c <= '9' {
        (c as u32 - '0' as u32) as u8
    } else if 'a' <= c && c <= 'f' {
        (c as u32 - 'a' as u32 + 10) as u8
    } else {
        (c as u32 - 'A' as u32 + 10) as u8
    }
}

/// Six hex digits, with or without the leading `#`. Vikunja omits it.
pub fn parse_hex(hex: &str) -> (r: Option<(u8, u8, u8)>)
    ensures
        r == hex_rgb(hex@),
{
    let chars = chars_of(hex);
    let c = crate::label_forms::colour_chars(&chars);
    if c.len() != 6 {
        return None;
    }
    let mut i: usize = 0;
    while i < 6
        invariant
            i <= 6,
            c@.len() == 6,
            c@ == crate::label_forms::colour_of(hex@),
            forall|k: int| 0 <= k < i ==> is_hex_digit(#[trigger] c@[k]),
        decreases 6 - i,
    {
        if !crate::text::is_hex_digit_char(c[i]) {
            return None;
        }
        i += 1;
    }
    let r = hex_digit(c[0]) * 16 + hex_digit(c[1]);
    let g = hex_digit(c[2]) * 16 + hex_digit(c[3]);
    let b = hex_digit(c[4]) * 16 + hex_digit(c[5]);
    Some((r, g, b))
}

} // verus!
