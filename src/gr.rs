//! Select Graphic Rendition: the attribute list of a CSI sequence with the
//! final byte `m`, and its colors.
use vstd::prelude::*;

use crate::csi::{lemma_token_progress, token, CSIPart, CSIParser};

verus! {

#[derive(Clone, Copy, PartialEq, Eq, Debug, Structural)]
pub struct RGB {
    pub r: u8,
    pub g: u8,
    pub b: u8,
}

impl RGB {
    /// The color with components `r`, `g`, `b`.
    pub fn new(r: u8, g: u8, b: u8) -> (c: Self)
        ensures
            c == (RGB { r, g, b }),
    {
        RGB { r, g, b }
    }

    /// The gray with all three components `w`.
    pub fn shade(w: u8) -> (c: Self)
        ensures
            c == (RGB { r: w, g: w, b: w }),
    {
        Self::new(w, w, w)
    }
}

/// An index into the 256-color palette.
#[derive(Clone, Copy, PartialEq, Eq, Debug, Structural)]
pub struct VGA(pub u8);

/// One of the six levels of each component in the 6x6x6 color cube.
pub open spec fn cube_level(i: int) -> u8 {
    if i == 0 {
        0x00
    } else if i == 1 {
        0x5f
    } else if i == 2 {
        0x87
    } else if i == 3 {
        0xaf
    } else if i == 4 {
        0xd7
    } else {
        0xff
    }
}

/// The sixteen system colors of the palette, as RGB.
pub open spec fn system_rgb(i: u8) -> RGB {
    let (r, g, b) = if i == 0 {
        (0u8, 0u8, 0u8)
    } else if i == 1 {
        (170, 0, 0)
    } else if i == 2 {
        (0, 170, 0)
    } else if i == 3 {
        (170, 80, 0)
    } else if i == 4 {
        (0, 0, 170)
    } else if i == 5 {
        (170, 0, 170)
    } else if i == 6 {
        (0, 170, 170)
    } else if i == 7 {
        (192, 192, 192)
    } else if i == 8 {
        (170, 170, 170)
    } else if i == 9 {
        (255, 0, 0)
    } else if i == 10 {
        (0, 255, 0)
    } else if i == 11 {
        (255, 255, 0)
    } else if i == 12 {
        (0, 0, 255)
    } else if i == 13 {
        (255, 0, 170)
    } else if i == 14 {
        (0, 255, 255)
    } else {
        (255, 255, 255)
    };
    RGB { r, g, b }
}

/// The RGB value of palette entry `i`: a system color below 16, a point of
/// the color cube up to 231, a step of the gray ramp above.
pub open spec fn palette_rgb(i: u8) -> RGB {
    if i < 16 {
        system_rgb(i)
    } else if i <= 231 {
        let v = i - 16;
        RGB { r: cube_level((v / 36) % 6), g: cube_level((v / 6) % 6), b: cube_level(v % 6) }
    } else {
        let w = ((i - 232) * 10 + 8) as u8;
        RGB { r: w, g: w, b: w }
    }
}

/// The named color at offset `i` (below 8) of the regular or the bright set.
pub open spec fn named_color(i: int, bright: bool) -> Color {
    if !bright {
        if i == 0 {
            Color::Black
        } else if i == 1 {
            Color::Red
        } else if i == 2 {
            Color::Green
        } else if i == 3 {
            Color::Yellow
        } else if i == 4 {
            Color::Blue
        } else if i == 5 {
            Color::Magenta
        } else if i == 6 {
            Color::Cyan
        } else {
            Color::White
        }
    } else {
        if i == 0 {
            Color::BrightBlack
        } else if i == 1 {
            Color::BrightRed
        } else if i == 2 {
            Color::BrightGreen
        } else if i == 3 {
            Color::BrightYellow
        } else if i == 4 {
            Color::BrightBlue
        } else if i == 5 {
            Color::BrightMagenta
        } else if i == 6 {
            Color::BrightCyan
        } else {
            Color::BrightWhite
        }
    }
}

/// Palette entry `i` as a color: named below 16, RGB above.
pub open spec fn palette_color(i: u8) -> Color {
    if i < 16 {
        named_color((i % 8) as int, i >= 8)
    } else {
        Color::RGB(palette_rgb(i))
    }
}

fn named(i: u16, bright: bool) -> (c: Color)
    requires
        i < 8,
    ensures
        c == named_color(i as int, bright),
{
    if !bright {
        match i {
            0 => Color::Black,
            1 => Color::Red,
            2 => Color::Green,
            3 => Color::Yellow,
            4 => Color::Blue,
            5 => Color::Magenta,
            6 => Color::Cyan,
            _ => Color::White,
        }
    } else {
        match i {
            0 => Color::BrightBlack,
            1 => Color::BrightRed,
            2 => Color::BrightGreen,
            3 => Color::BrightYellow,
            4 => Color::BrightBlue,
            5 => Color::BrightMagenta,
            6 => Color::BrightCyan,
            _ => Color::BrightWhite,
        }
    }
}

impl VGA {
    /// The palette entry as RGB.
    pub fn as_rgb(self) -> (c: RGB)
        ensures
            c == palette_rgb(self.0),
    {
        match self.0 {
            0 => RGB::new(0, 0, 0),
            1 => RGB::new(170, 0, 0),
            2 => RGB::new(0, 170, 0),
            3 => RGB::new(170, 80, 0),
            4 => RGB::new(0, 0, 170),
            5 => RGB::new(170, 0, 170),
            6 => RGB::new(0, 170, 170),
            7 => RGB::new(192, 192, 192),
            8 => RGB::new(170, 170, 170),
            9 => RGB::new(255, 0, 0),
            10 => RGB::new(0, 255, 0),
            11 => RGB::new(255, 255, 0),
            12 => RGB::new(0, 0, 255),
            13 => RGB::new(255, 0, 170),
            14 => RGB::new(0, 255, 255),
            15 => RGB::new(255, 255, 255),
            v @ 16..=231 => {
                let v = (v - 16) as usize;
                let lookup: [u8; 6] = [0x0, 0x5f, 0x87, 0xaf, 0xd7, 0xff];
                proof {
                    assert(forall|i: int| 0 <= i < 6 ==> lookup@[i] == cube_level(i));
                }
                RGB::new(lookup[(v / 36) % 6], lookup[(v / 6) % 6], lookup[v % 6])
            },
            v => RGB::shade((v - 232) * 10 + 8),
        }
    }

    /// The palette entry as a named color where it has a name, else as RGB.
    pub fn as_color(self) -> (c: Color)
        ensures
            c == palette_color(self.0),
    {
        if self.0 < 16 {
            named((self.0 % 8) as u16, self.0 >= 8)
        } else {
            Color::RGB(self.as_rgb())
        }
    }
}

#[derive(Clone, Copy, PartialEq, Eq, Debug, Structural)]
pub enum Color {
    Default,
    Black,
    Red,
    Green,
    Yellow,
    Blue,
    Magenta,
    Cyan,
    White,
    BrightBlack,
    BrightRed,
    BrightGreen,
    BrightYellow,
    BrightBlue,
    BrightMagenta,
    BrightCyan,
    BrightWhite,
    VGA(VGA),
    RGB(RGB),
    NotPresent,
    /// A code that names no color.
    Invalid(u16),
    /// An extended color code with nothing after it.
    LongNotPresent,
    /// An extended color code followed by a form other than `2` or `5`.
    InvalidLong(u16),
    MalformedVGA,
    MalformedRGB,
}

#[derive(Clone, Copy, PartialEq, Eq, Debug, Structural)]
pub enum SelectGraphic {
    Reset,
    Bold,
    Faint,
    Italic,
    Underline,
    SlowBlink,
    RapidBlink,
    InvertFgBg,
    Conceal,
    CrossedOut,
    PrimaryFont,
    AlternativeFont(u8),
    Fraktur,
    DoublyUnderlined,
    NormalIntensity,
    NeitherItalicNorBackletter,
    NotUnderlined,
    NotBlinking,
    ProportionalSpacing,
    NotInvertedFgBg,
    Reveal,
    NotCrossedOut,
    Fg(Color),
    Bg(Color),
    DisableProportionalSpacing,
    Framed,
    Encircled,
    Overlined,
    NeitherFramedNorEncircled,
    NotOverlined,
    UnderlineColor(Color),
    IdeogramUnderline,
    IdeogramDoubleUnderline,
    IdeogramOverline,
    IdeogramStressMarking,
    IdeogramAttributes,
    Superscript,
    Subscript,
    NeitherSuperscriptNorSubScript,
    /// A token that names no attribute.
    Unknown(CSIPart),
}

/// The attribute list of an SGR sequence, read one attribute at a time.
#[derive(Clone, Copy, PartialEq, Eq, Debug)]
pub struct GraphicsRendition<'a>(pub CSIParser<'a>);

/// The value of a byte-sized component, if it fits a byte.
pub open spec fn byte_of(v: u16) -> Option<u8> {
    if v < 256 {
        Some(v as u8)
    } else {
        None
    }
}

/// The color that an extended color code reads after it: `p` stands after
/// the code. Form `2` takes three components; in the colon form a fourth
/// sub-parameter makes the first of the four the color space, which is
/// skipped. Form `5` takes a palette index.
pub open spec fn long_color(p: CSIParser) -> (Color, CSIParser) {
    let (t, p1) = p.step();
    match t {
        None => (Color::LongNotPresent, p1),
        Some(CSIPart::SubParam(Some(2))) | Some(CSIPart::Param(Some(2))) => {
            let sub = t matches Some(CSIPart::SubParam(_));
            let (vals, p2) = p1.fixed_params(seq![0u16, 0, 0], sub);
            match vals {
                None => (Color::MalformedRGB, p2),
                Some(v) => {
                    let (t3, p3) = p2.step();
                    let (rgb, p4) = match t3 {
                        Some(CSIPart::SubParam(w)) if sub => (seq![v[1], v[2], w.unwrap_or(0)], p3),
                        _ => (v, p2),
                    };
                    match (byte_of(rgb[0]), byte_of(rgb[1]), byte_of(rgb[2])) {
                        (Some(r), Some(g), Some(b)) => (Color::RGB(RGB { r, g, b }), p4),
                        _ => (Color::MalformedVGA, p4),
                    }
                },
            }
        },
        Some(CSIPart::SubParam(Some(5))) | Some(CSIPart::Param(Some(5))) => {
            let (vals, p2) = p1.fixed_params(seq![0u16], t matches Some(CSIPart::SubParam(_)));
            match vals {
                None => (Color::MalformedVGA, p2),
                Some(v) => match byte_of(v[0]) {
                    Some(i) => (Color::VGA(VGA(i)), p2),
                    None => (Color::MalformedVGA, p2),
                },
            }
        },
        Some(CSIPart::SubParam(Some(other))) | Some(CSIPart::Param(Some(other))) => (Color::InvalidLong(other), p1),
        _ => (Color::InvalidLong(0), p1),
    }
}

/// `val - start` in `u16` wrapping arithmetic.
pub open spec fn offset(val: u16, start: u16) -> int {
    (val - start + 0x10000) % 0x10000
}

/// The color that code `val` selects, given the code of the default color,
/// the first codes of the regular and the bright named colors, and the
/// code of the extended form; `p` stands after `val`.
pub open spec fn color_of(
    p: CSIParser,
    val: u16,
    default: Option<u16>,
    reg_start: Option<u16>,
    bright_start: Option<u16>,
    long: Option<u16>,
) -> (Color, CSIParser) {
    if default == Some(val) {
        (Color::Default, p)
    } else if long == Some(val) {
        long_color(p)
    } else if reg_start is Some && offset(val, reg_start->0) < 8 {
        (named_color(offset(val, reg_start->0), false), p)
    } else if bright_start is Some && offset(val, bright_start->0) < 8 {
        (named_color(offset(val, bright_start->0), true), p)
    } else {
        (Color::Invalid(val), p)
    }
}

/// The attribute that a parameter code names when it takes nothing after
/// it.
pub open spec fn plain_attribute(c: u16) -> Option<SelectGraphic> {
    if c == 0 {
        Some(SelectGraphic::Reset)
    } else if c == 1 {
        Some(SelectGraphic::Bold)
    } else if c == 2 {
        Some(SelectGraphic::Faint)
    } else if c == 3 {
        Some(SelectGraphic::Italic)
    } else if c == 4 {
        Some(SelectGraphic::Underline)
    } else if c == 5 {
        Some(SelectGraphic::SlowBlink)
    } else if c == 6 {
        Some(SelectGraphic::RapidBlink)
    } else if c == 7 {
        Some(SelectGraphic::InvertFgBg)
    } else if c == 8 {
        Some(SelectGraphic::Conceal)
    } else if c == 9 {
        Some(SelectGraphic::CrossedOut)
    } else if c == 10 {
        Some(SelectGraphic::PrimaryFont)
    } else if 11 <= c <= 19 {
        Some(SelectGraphic::AlternativeFont((c - 11) as u8))
    } else if c == 20 {
        Some(SelectGraphic::Fraktur)
    } else if c == 21 {
        Some(SelectGraphic::DoublyUnderlined)
    } else if c == 22 {
        Some(SelectGraphic::NormalIntensity)
    } else if c == 23 {
        Some(SelectGraphic::NeitherItalicNorBackletter)
    } else if c == 24 {
        Some(SelectGraphic::NotUnderlined)
    } else if c == 25 {
        Some(SelectGraphic::NotBlinking)
    } else if c == 26 {
        Some(SelectGraphic::ProportionalSpacing)
    } else if c == 27 {
        Some(SelectGraphic::NotInvertedFgBg)
    } else if c == 28 {
        Some(SelectGraphic::Reveal)
    } else if c == 29 {
        Some(SelectGraphic::NotCrossedOut)
    } else if c == 50 {
        Some(SelectGraphic::DisableProportionalSpacing)
    } else if c == 51 {
        Some(SelectGraphic::Framed)
    } else if c == 52 {
        Some(SelectGraphic::Encircled)
    } else if c == 53 {
        Some(SelectGraphic::Overlined)
    } else if c == 54 {
        Some(SelectGraphic::NeitherFramedNorEncircled)
    } else if c == 55 {
        Some(SelectGraphic::NotOverlined)
    } else if c == 60 {
        Some(SelectGraphic::IdeogramUnderline)
    } else if c == 61 || c == 63 {
        Some(SelectGraphic::IdeogramDoubleUnderline)
    } else if c == 62 {
        Some(SelectGraphic::IdeogramOverline)
    } else if c == 64 {
        Some(SelectGraphic::IdeogramStressMarking)
    } else if c == 65 {
        Some(SelectGraphic::IdeogramAttributes)
    } else if c == 73 {
        Some(SelectGraphic::Superscript)
    } else if c == 74 {
        Some(SelectGraphic::Subscript)
    } else if c == 75 {
        Some(SelectGraphic::NeitherSuperscriptNorSubScript)
    } else {
        None
    }
}

/// The next attribute of the list that `p` reads, and the reader after it.
pub open spec fn attribute(p: CSIParser) -> (Option<SelectGraphic>, CSIParser) {
    let (t, p1) = p.step();
    match t {
        None => (None, p1),
        Some(CSIPart::Param(None)) => (Some(SelectGraphic::Reset), p1),
        Some(CSIPart::Param(Some(c))) => if (30 <= c <= 39 || 90 <= c <= 97) {
            let (col, p2) = color_of(p1, c, Some(39), Some(30), Some(90), Some(38));
            (Some(SelectGraphic::Fg(col)), p2)
        } else if (40 <= c <= 49 || 100 <= c <= 107) {
            let (col, p2) = color_of(p1, c, Some(49), Some(40), Some(100), Some(48));
            (Some(SelectGraphic::Bg(col)), p2)
        } else if (58 <= c <= 59) {
            let (col, p2) = color_of(p1, c, Some(59), None, None, Some(58));
            (Some(SelectGraphic::UnderlineColor(col)), p2)
        } else {
            match plain_attribute(c) {
                Some(a) => (Some(a), p1),
                None => (Some(SelectGraphic::Unknown(CSIPart::Param(Some(c)))), p1),
            }
        },
        Some(other) => (Some(SelectGraphic::Unknown(other)), p1),
    }
}

fn plain(c: u16) -> (r: Option<SelectGraphic>)
    ensures
        r == plain_attribute(c),
{
    match c {
        0 => Some(SelectGraphic::Reset),
        1 => Some(SelectGraphic::Bold),
        2 => Some(SelectGraphic::Faint),
        3 => Some(SelectGraphic::Italic),
        4 => Some(SelectGraphic::Underline),
        5 => Some(SelectGraphic::SlowBlink),
        6 => Some(SelectGraphic::RapidBlink),
        7 => Some(SelectGraphic::InvertFgBg),
        8 => Some(SelectGraphic::Conceal),
        9 => Some(SelectGraphic::CrossedOut),
        10 => Some(SelectGraphic::PrimaryFont),
        11..=19 => Some(SelectGraphic::AlternativeFont((c - 11) as u8)),
        20 => Some(SelectGraphic::Fraktur),
        21 => Some(SelectGraphic::DoublyUnderlined),
        22 => Some(SelectGraphic::NormalIntensity),
        23 => Some(SelectGraphic::NeitherItalicNorBackletter),
        24 => Some(SelectGraphic::NotUnderlined),
        25 => Some(SelectGraphic::NotBlinking),
        26 => Some(SelectGraphic::ProportionalSpacing),
        27 => Some(SelectGraphic::NotInvertedFgBg),
        28 => Some(SelectGraphic::Reveal),
        29 => Some(SelectGraphic::NotCrossedOut),
        50 => Some(SelectGraphic::DisableProportionalSpacing),
        51 => Some(SelectGraphic::Framed),
        52 => Some(SelectGraphic::Encircled),
        53 => Some(SelectGraphic::Overlined),
        54 => Some(SelectGraphic::NeitherFramedNorEncircled),
        55 => Some(SelectGraphic::NotOverlined),
        60 => Some(SelectGraphic::IdeogramUnderline),
        61 | 63 => Some(SelectGraphic::IdeogramDoubleUnderline),
        62 => Some(SelectGraphic::IdeogramOverline),
        64 => Some(SelectGraphic::IdeogramStressMarking),
        65 => Some(SelectGraphic::IdeogramAttributes),
        73 => Some(SelectGraphic::Superscript),
        74 => Some(SelectGraphic::Subscript),
        75 => Some(SelectGraphic::NeitherSuperscriptNorSubScript),
        _ => None,
    }
}

fn to_byte(v: u16) -> (r: Option<u8>)
    ensures
        r == byte_of(v),
{
    if v < 256 {
        Some(v as u8)
    } else {
        None
    }
}

impl<'a> GraphicsRendition<'a> {
    /// Whether the reader's window lies within its bytes.
    pub open spec fn wf(self) -> bool {
        self.0.wf()
    }

    fn long_color(&mut self) -> (c: Color)
        requires
            old(self).wf(),
        ensures
            final(self).wf(),
            (c, final(self).0) == long_color(old(self).0),
    {
        let t = self.0.next();
        match t {
            None => Color::LongNotPresent,
            Some(CSIPart::SubParam(Some(2))) | Some(CSIPart::Param(Some(2))) => {
                let sub = matches!(t, Some(CSIPart::SubParam(_)));
                let vals = if sub {
                    self.0.parse_sub_params([0u16, 0, 0])
                } else {
                    self.0.parse_params([0u16, 0, 0])
                };
                proof {
                    assert([0u16, 0, 0]@ =~= seq![0u16, 0, 0]);
                }
                match vals {
                    None => Color::MalformedRGB,
                    Some(v) => {
                        let mut rgb = v;
                        if sub {
                            proof {
                                lemma_token_progress(self.0.rest(), self.0.at_start());
                                let (t, n, st) = token(self.0.rest(), self.0.at_start());
                                self.0.lemma_skip_front(n, st);
                            }
                            if let Some(CSIPart::SubParam(w)) = self.0.peek() {
                                self.0.next();
                                rgb = [v[1], v[2], match w { Some(x) => x, None => 0 }];
                                proof {
                                    assert(rgb@ =~= seq![v[1], v[2], rgb[2]]);
                                }
                            }
                        }
                        match (to_byte(rgb[0]), to_byte(rgb[1]), to_byte(rgb[2])) {
                            (Some(r), Some(g), Some(b)) => Color::RGB(RGB { r, g, b }),
                            _ => Color::MalformedVGA,
                        }
                    },
                }
            },
            Some(CSIPart::SubParam(Some(5))) | Some(CSIPart::Param(Some(5))) => {
                let sub = matches!(t, Some(CSIPart::SubParam(_)));
                let vals = if sub {
                    self.0.parse_sub_params([0u16])
                } else {
                    self.0.parse_params([0u16])
                };
                proof {
                    assert([0u16]@ =~= seq![0u16]);
                }
                match vals {
                    None => Color::MalformedVGA,
                    Some(v) => match to_byte(v[0]) {
                        Some(i) => Color::VGA(VGA(i)),
                        None => Color::MalformedVGA,
                    },
                }
            },
            Some(CSIPart::SubParam(Some(other))) | Some(CSIPart::Param(Some(other))) => Color::InvalidLong(other),
            _ => Color::InvalidLong(0),
        }
    }

    /// The color that code `val` selects: `default` is the code of the
    /// default color, `reg_start` and `bright_start` the first codes of the
    /// regular and the bright named colors, `long` the code of the extended
    /// form, which reads its arguments from the list.
    fn parse_color(
        &mut self,
        val: u16,
        default: Option<u16>,
        reg_start: Option<u16>,
        bright_start: Option<u16>,
        long: Option<u16>,
    ) -> (c: Color)
        requires
            old(self).wf(),
        ensures
            final(self).wf(),
            (c, final(self).0) == color_of(old(self).0, val, default, reg_start, bright_start, long),
    {
        if default == Some(val) {
            return Color::Default;
        }
        if long == Some(val) {
            return self.long_color();
        }
        if let Some(start) = reg_start {
            let d = val.wrapping_sub(start);
            proof {
                assert(d == offset(val, start));
            }
            if d < 8 {
                return named(d, false);
            }
        }
        if let Some(start) = bright_start {
            let d = val.wrapping_sub(start);
            proof {
                assert(d == offset(val, start));
            }
            if d < 8 {
                return named(d, true);
            }
        }
        Color::Invalid(val)
    }

    /// The next attribute of the list.
    pub fn next(&mut self) -> (r: Option<SelectGraphic>)
        requires
            old(self).wf(),
        ensures
            final(self).wf(),
            (r, final(self).0) == attribute(old(self).0),
    {
        match self.0.next() {
            None => None,
            Some(CSIPart::Param(None)) => Some(SelectGraphic::Reset),
            Some(CSIPart::Param(Some(c))) => {
                if (30 <= c && c <= 39) || (90 <= c && c <= 97) {
                    Some(SelectGraphic::Fg(self.parse_color(c, Some(39), Some(30), Some(90), Some(38))))
                } else if (40 <= c && c <= 49) || (100 <= c && c <= 107) {
                    Some(SelectGraphic::Bg(self.parse_color(c, Some(49), Some(40), Some(100), Some(48))))
                } else if 58 <= c && c <= 59 {
                    Some(SelectGraphic::UnderlineColor(self.parse_color(c, Some(59), None, None, Some(58))))
                } else {
                    match plain(c) {
                        Some(a) => Some(a),
                        None => Some(SelectGraphic::Unknown(CSIPart::Param(Some(c)))),
                    }
                }
            },
            Some(other) => Some(SelectGraphic::Unknown(other)),
        }
    }
}

} // verus!
