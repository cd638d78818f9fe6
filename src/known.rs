//! The commands that a CSI sequence can name, and the interpreter that
//! recognizes them.
use vstd::prelude::*;

use crate::csi::CSIParser;
use crate::gr::GraphicsRendition;

verus! {

/// A CSI sequence, interpreted.
#[derive(Clone, Copy, PartialEq, Eq, Debug)]
pub enum KnownCSI<'a> {
    CursorUp(u16),
    CursorDown(u16),
    CursorLeft(u16),
    CursorRight(u16),
    CursorNextLine(u16),
    CursorPreviousLine(u16),
    CursorHorizontalAbsolute(u16),
    CursorTo { row: u16, col: u16 },
    HorizontalVerticalPosition { row: u16, col: u16 },
    CursorPosition,
    EraseDisplay,
    EraseFromCursor,
    EraseToCursor,
    EraseScreen,
    EraseSavedLines,
    EraseFromCursorToEndOfLine,
    EraseStartOfLineToCursor,
    EraseLine,
    ScrollUp(u16),
    ScrollDown(u16),
    AuxPortOn,
    AuxPortOff,
    DeviceStatusReport,
    SelectGraphicRendition(GraphicsRendition<'a>),
    SaveCurrentCursorPosition,
    RestoreCurrentCursorPosition,
    ShowCursor,
    HideCursor,
    EnableFocusReporting,
    DisableFocusReporting,
    EnableBracketPastingMode,
    DisableBracketPastingMode,
    RestoreScreen,
    SaveScreen,
    EnableAlternativeBuffer,
    DisableAlternativeBuffer,
    ScreenMode(ScreenMode),
    ResetScreenMode(ScreenMode),
    SetScrollingRegion { top: u16, bottom: u16 },
    DeleteLines(u16),
    InsertLines(u16),
    CursorLineAbsolute(u16),
    /// A sequence that names no known command, with its tokenizer as it was
    /// handed to the interpreter.
    Unknown(CSIParser<'a>),
    ReportedCursorPosition { row: u16, col: u16 },
    ReportCursorPosition,
}

#[derive(Clone, Copy, PartialEq, Eq, Debug, Structural)]
pub enum ScreenMode {
    Monochrome40x25,
    Color40x25,
    Monochrome80x25,
    Color80x25,
    Graphics4Color320x200,
    GraphicsMonochrome320x200,
    GraphicsMonochrome640x200,
    EnableLineWrapping,
    StopBlinkingCursor,
    GraphicsColor320x200,
    Graphics16Color640x200,
    GraphicsMonochrome630x350,
    Graphics16Color640x350,
    GraphicsMonochrome640x480,
    Graphics16Color640x480,
    Graphics256Color320x200,
}

/// The screen mode with parameter `v`.
pub open spec fn screen_mode_of(v: u16) -> Option<ScreenMode> {
    if v == 0 {
        Some(ScreenMode::Monochrome40x25)
    } else if v == 1 {
        Some(ScreenMode::Color40x25)
    } else if v == 2 {
        Some(ScreenMode::Monochrome80x25)
    } else if v == 3 {
        Some(ScreenMode::Color80x25)
    } else if v == 4 {
        Some(ScreenMode::Graphics4Color320x200)
    } else if v == 5 {
        Some(ScreenMode::GraphicsMonochrome320x200)
    } else if v == 6 {
        Some(ScreenMode::GraphicsMonochrome640x200)
    } else if v == 7 {
        Some(ScreenMode::EnableLineWrapping)
    } else if v == 12 {
        Some(ScreenMode::StopBlinkingCursor)
    } else if v == 13 {
        Some(ScreenMode::GraphicsColor320x200)
    } else if v == 14 {
        Some(ScreenMode::Graphics16Color640x200)
    } else if v == 15 {
        Some(ScreenMode::GraphicsMonochrome630x350)
    } else if v == 16 {
        Some(ScreenMode::Graphics16Color640x350)
    } else if v == 17 {
        Some(ScreenMode::GraphicsMonochrome640x480)
    } else if v == 18 {
        Some(ScreenMode::Graphics16Color640x480)
    } else if v == 19 {
        Some(ScreenMode::Graphics256Color320x200)
    } else {
        None
    }
}

impl ScreenMode {
    /// The mode's parameter.
    pub fn code(self) -> (c: u16)
        ensures
            screen_mode_of(c) == Some(self),
    {
        match self {
            ScreenMode::Monochrome40x25 => 0,
            ScreenMode::Color40x25 => 1,
            ScreenMode::Monochrome80x25 => 2,
            ScreenMode::Color80x25 => 3,
            ScreenMode::Graphics4Color320x200 => 4,
            ScreenMode::GraphicsMonochrome320x200 => 5,
            ScreenMode::GraphicsMonochrome640x200 => 6,
            ScreenMode::EnableLineWrapping => 7,
            ScreenMode::StopBlinkingCursor => 12,
            ScreenMode::GraphicsColor320x200 => 13,
            ScreenMode::Graphics16Color640x200 => 14,
            ScreenMode::GraphicsMonochrome630x350 => 15,
            ScreenMode::Graphics16Color640x350 => 16,
            ScreenMode::GraphicsMonochrome640x480 => 17,
            ScreenMode::Graphics16Color640x480 => 18,
            ScreenMode::Graphics256Color320x200 => 19,
        }
    }
}

fn screen_mode(v: u16) -> (r: Option<ScreenMode>)
    ensures
        r == screen_mode_of(v),
{
    match v {
        0 => Some(ScreenMode::Monochrome40x25),
        1 => Some(ScreenMode::Color40x25),
        2 => Some(ScreenMode::Monochrome80x25),
        3 => Some(ScreenMode::Color80x25),
        4 => Some(ScreenMode::Graphics4Color320x200),
        5 => Some(ScreenMode::GraphicsMonochrome320x200),
        6 => Some(ScreenMode::GraphicsMonochrome640x200),
        7 => Some(ScreenMode::EnableLineWrapping),
        12 => Some(ScreenMode::StopBlinkingCursor),
        13 => Some(ScreenMode::GraphicsColor320x200),
        14 => Some(ScreenMode::Graphics16Color640x200),
        15 => Some(ScreenMode::GraphicsMonochrome630x350),
        16 => Some(ScreenMode::Graphics16Color640x350),
        17 => Some(ScreenMode::GraphicsMonochrome640x480),
        18 => Some(ScreenMode::Graphics16Color640x480),
        19 => Some(ScreenMode::Graphics256Color320x200),
        _ => None,
    }
}

/// One parameter with default `d`, and the parser after it.
pub open spec fn param1<'a>(p: CSIParser<'a>, d: u16) -> Option<(u16, CSIParser<'a>)> {
    match p.fixed_params(seq![d], false) {
        (Some(v), q) => Some((v[0], q)),
        (None, _) => None,
    }
}

/// Two parameters with default 1 each, and the parser after them.
pub open spec fn param2<'a>(p: CSIParser<'a>) -> Option<(u16, u16, CSIParser<'a>)> {
    match p.fixed_params(seq![1u16, 1], false) {
        (Some(v), q) => Some((v[0], v[1], q)),
        (None, _) => None,
    }
}

/// The command named by a parameter `v` under final byte `h` (`set`) or
/// `l` with the private marker `?`.
pub open spec fn private_mode<'a>(v: u16, set: bool) -> Option<KnownCSI<'a>> {
    match screen_mode_of(v) {
        Some(m) => Some(if set { KnownCSI::ScreenMode(m) } else { KnownCSI::ResetScreenMode(m) }),
        None => if v == 25 {
            Some(if set { KnownCSI::ShowCursor } else { KnownCSI::HideCursor })
        } else if v == 1004 {
            Some(if set { KnownCSI::EnableFocusReporting } else { KnownCSI::DisableFocusReporting })
        } else if v == 1049 {
            Some(if set { KnownCSI::EnableAlternativeBuffer } else { KnownCSI::DisableAlternativeBuffer })
        } else if v == 2004 {
            Some(if set { KnownCSI::EnableBracketPastingMode } else { KnownCSI::DisableBracketPastingMode })
        } else {
            None
        },
    }
}

/// A command that takes one parameter with default 1, by its final byte.
pub open spec fn counted<'a>(f: u8, v: u16) -> Option<KnownCSI<'a>> {
    if f == 0x41 {
        Some(KnownCSI::CursorUp(v))
    } else if f == 0x42 {
        Some(KnownCSI::CursorDown(v))
    } else if f == 0x43 {
        Some(KnownCSI::CursorRight(v))
    } else if f == 0x44 {
        Some(KnownCSI::CursorLeft(v))
    } else if f == 0x45 {
        Some(KnownCSI::CursorNextLine(v))
    } else if f == 0x46 {
        Some(KnownCSI::CursorPreviousLine(v))
    } else if f == 0x47 {
        Some(KnownCSI::CursorHorizontalAbsolute(v))
    } else if f == 0x4C {
        Some(KnownCSI::InsertLines(v))
    } else if f == 0x4D {
        Some(KnownCSI::DeleteLines(v))
    } else if f == 0x53 {
        Some(KnownCSI::ScrollUp(v))
    } else if f == 0x54 {
        Some(KnownCSI::ScrollDown(v))
    } else {
        None
    }
}

/// The command that parameter `v` selects under final byte `f` (`J`, `K`,
/// `i` or `n`).
pub open spec fn selected<'a>(f: u8, v: u16) -> Option<KnownCSI<'a>> {
    if f == 0x4A {
        if v == 0xFFFF {
            Some(KnownCSI::EraseDisplay)
        } else if v == 0 {
            Some(KnownCSI::EraseFromCursor)
        } else if v == 1 {
            Some(KnownCSI::EraseToCursor)
        } else if v == 2 {
            Some(KnownCSI::EraseScreen)
        } else if v == 3 {
            Some(KnownCSI::EraseSavedLines)
        } else {
            None
        }
    } else if f == 0x4B {
        if v == 0 {
            Some(KnownCSI::EraseFromCursorToEndOfLine)
        } else if v == 1 {
            Some(KnownCSI::EraseStartOfLineToCursor)
        } else if v == 2 {
            Some(KnownCSI::EraseLine)
        } else {
            None
        }
    } else if f == 0x69 {
        if v == 4 {
            Some(KnownCSI::AuxPortOff)
        } else if v == 5 {
            Some(KnownCSI::AuxPortOn)
        } else {
            None
        }
    } else if f == 0x6E {
        if v == 5 {
            Some(KnownCSI::DeviceStatusReport)
        } else if v == 6 {
            Some(KnownCSI::ReportCursorPosition)
        } else {
            None
        }
    } else {
        None
    }
}

/// The default of the one parameter of the selecting commands.
pub open spec fn selector_default(f: u8) -> u16 {
    if f == 0x4A {
        0xFFFF
    } else {
        0
    }
}

/// The command that private marker `m` and final byte `f` name, read from
/// `p` (the body without them), and the parser after its parameters.
pub open spec fn command<'a>(m: Option<u8>, f: Option<u8>, p: CSIParser<'a>) -> Option<(KnownCSI<'a>, CSIParser<'a>)> {
    match (m, f) {
        (None, Some(f)) => if counted(f, 0) is Some {
            match param1(p, 1) {
                Some((v, q)) => Some((counted(f, v)->0, q)),
                None => None,
            }
        } else if f == 0x48 || f == 0x66 || f == 0x72 {
            match param2(p) {
                Some((a, b, q)) => Some((
                    if f == 0x48 {
                        KnownCSI::CursorTo { row: a, col: b }
                    } else if f == 0x66 {
                        KnownCSI::HorizontalVerticalPosition { row: a, col: b }
                    } else {
                        KnownCSI::SetScrollingRegion { top: a, bottom: b }
                    },
                    q,
                )),
                None => None,
            }
        } else if f == 0x4A || f == 0x4B || f == 0x69 || f == 0x6E {
            match param1(p, selector_default(f)) {
                Some((v, q)) => match selected(f, v) {
                    Some(c) => Some((c, q)),
                    None => None,
                },
                None => None,
            }
        } else if f == 0x6D {
            Some((KnownCSI::SelectGraphicRendition(GraphicsRendition(p)), p))
        } else if f == 0x73 {
            Some((KnownCSI::SaveCurrentCursorPosition, p))
        } else if f == 0x75 {
            Some((KnownCSI::RestoreCurrentCursorPosition, p))
        } else {
            None
        },
        (Some(0x3F), Some(f)) => if f == 0x68 || f == 0x6C {
            match param1(p, 0) {
                Some((v, q)) => match private_mode(v, f == 0x68) {
                    Some(c) => Some((c, q)),
                    None => None,
                },
                None => None,
            }
        } else {
            None
        },
        _ => None,
    }
}

/// What `p.parse()` returns: the command that the marker and the final
/// byte name, provided its parameters read well and nothing is left after
/// them (an SGR sequence reads its own list); else `Unknown(p)`.
pub open spec fn interpret<'a>(p: CSIParser<'a>) -> KnownCSI<'a> {
    let (m, p1) = p.spec_special_first();
    let (f, p2) = p1.spec_final_identifier();
    match command(m, f, p2) {
        Some((c, q)) => if c is SelectGraphicRendition || q.spec_empty() {
            c
        } else {
            KnownCSI::Unknown(p)
        },
        None => KnownCSI::Unknown(p),
    }
}

impl<'a> CSIParser<'a> {
    fn one_param(&mut self, d: u16) -> (r: Option<u16>)
        requires
            old(self).wf(),
        ensures
            final(self).wf(),
            r is Some == param1(*old(self), d) is Some,
            r matches Some(v) ==> (v, *final(self)) == param1(*old(self), d)->0,
    {
        proof {
            assert([d]@ =~= seq![d]);
        }
        match self.parse_params([d]) {
            Some(a) => Some(a[0]),
            None => None,
        }
    }

    fn two_params(&mut self) -> (r: Option<(u16, u16)>)
        requires
            old(self).wf(),
        ensures
            final(self).wf(),
            r is Some == param2(*old(self)) is Some,
            r matches Some((a, b)) ==> (a, b, *final(self)) == param2(*old(self))->0,
    {
        proof {
            assert([1u16, 1]@ =~= seq![1u16, 1]);
        }
        match self.parse_params([1u16, 1]) {
            Some(a) => Some((a[0], a[1])),
            None => None,
        }
    }

    fn command(&mut self, m: Option<u8>, f: Option<u8>) -> (r: Option<KnownCSI<'a>>)
        requires
            old(self).wf(),
        ensures
            final(self).wf(),
            r is Some == command(m, f, *old(self)) is Some,
            r matches Some(c) ==> (c, *final(self)) == command(m, f, *old(self))->0,
    {
        match (m, f) {
            (None, Some(f)) => {
                let r = self.plain_command(f);
                r
            },
            (Some(0x3F), Some(0x68)) => {
                let r = self.private_command(true);
                r
            },
            (Some(0x3F), Some(0x6C)) => {
                let r = self.private_command(false);
                r
            },
            _ => None,
        }
    }

    fn plain_command(&mut self, f: u8) -> (r: Option<KnownCSI<'a>>)
        requires
            old(self).wf(),
        ensures
            final(self).wf(),
            r is Some == command(None, Some(f), *old(self)) is Some,
            r matches Some(c) ==> (c, *final(self)) == command(None, Some(f), *old(self))->0,
    {
        if matches!(f, 0x41..=0x47 | 0x4C | 0x4D | 0x53 | 0x54) {
            let v = match self.one_param(1) {
                Some(v) => v,
                None => return None,
            };
            return Some(match f {
                0x41 => KnownCSI::CursorUp(v),
                0x42 => KnownCSI::CursorDown(v),
                0x43 => KnownCSI::CursorRight(v),
                0x44 => KnownCSI::CursorLeft(v),
                0x45 => KnownCSI::CursorNextLine(v),
                0x46 => KnownCSI::CursorPreviousLine(v),
                0x47 => KnownCSI::CursorHorizontalAbsolute(v),
                0x4C => KnownCSI::InsertLines(v),
                0x4D => KnownCSI::DeleteLines(v),
                0x53 => KnownCSI::ScrollUp(v),
                _ => KnownCSI::ScrollDown(v),
            });
        }
        match f {
            0x48 | 0x66 | 0x72 => {
                let (a, b) = match self.two_params() {
                    Some(ab) => ab,
                    None => return None,
                };
                Some(
                    if f == 0x48 {
                        KnownCSI::CursorTo { row: a, col: b }
                    } else if f == 0x66 {
                        KnownCSI::HorizontalVerticalPosition { row: a, col: b }
                    } else {
                        KnownCSI::SetScrollingRegion { top: a, bottom: b }
                    },
                )
            },
            0x4A => match self.one_param(0xFFFF) {
                Some(0xFFFF) => Some(KnownCSI::EraseDisplay),
                Some(0) => Some(KnownCSI::EraseFromCursor),
                Some(1) => Some(KnownCSI::EraseToCursor),
                Some(2) => Some(KnownCSI::EraseScreen),
                Some(3) => Some(KnownCSI::EraseSavedLines),
                _ => None,
            },
            0x4B => match self.one_param(0) {
                Some(0) => Some(KnownCSI::EraseFromCursorToEndOfLine),
                Some(1) => Some(KnownCSI::EraseStartOfLineToCursor),
                Some(2) => Some(KnownCSI::EraseLine),
                _ => None,
            },
            0x69 => match self.one_param(0) {
                Some(4) => Some(KnownCSI::AuxPortOff),
                Some(5) => Some(KnownCSI::AuxPortOn),
                _ => None,
            },
            0x6E => match self.one_param(0) {
                Some(5) => Some(KnownCSI::DeviceStatusReport),
                Some(6) => Some(KnownCSI::ReportCursorPosition),
                _ => None,
            },
            0x6D => Some(KnownCSI::SelectGraphicRendition(GraphicsRendition(*self))),
            0x73 => Some(KnownCSI::SaveCurrentCursorPosition),
            0x75 => Some(KnownCSI::RestoreCurrentCursorPosition),
            _ => None,
        }
    }

    fn private_command(&mut self, set: bool) -> (r: Option<KnownCSI<'a>>)
        requires
            old(self).wf(),
        ensures
            final(self).wf(),
            r is Some == command(Some(0x3F), Some(if set { 0x68u8 } else { 0x6Cu8 }), *old(self)) is Some,
            r matches Some(c) ==> (c, *final(self)) == command(
                Some(0x3F),
                Some(if set { 0x68u8 } else { 0x6Cu8 }),
                *old(self),
            )->0,
    {
        let v = match self.one_param(0) {
            Some(v) => v,
            None => return None,
        };
        match screen_mode(v) {
            Some(sm) => Some(if set { KnownCSI::ScreenMode(sm) } else { KnownCSI::ResetScreenMode(sm) }),
            None => match v {
                25 => Some(if set { KnownCSI::ShowCursor } else { KnownCSI::HideCursor }),
                1004 => Some(if set { KnownCSI::EnableFocusReporting } else { KnownCSI::DisableFocusReporting }),
                1049 => Some(
                    if set { KnownCSI::EnableAlternativeBuffer } else { KnownCSI::DisableAlternativeBuffer },
                ),
                2004 => Some(
                    if set { KnownCSI::EnableBracketPastingMode } else { KnownCSI::DisableBracketPastingMode },
                ),
                _ => None,
            },
        }
    }

    /// Interprets the body as a known command; a body that names none, or
    /// that has tokens left over after the command's parameters, is
    /// `Unknown` with the tokenizer as it was. The tokenizer itself is left
    /// as it is.
    pub fn parse(&mut self) -> (r: KnownCSI<'a>)
        requires
            old(self).wf(),
        ensures
            *final(self) == *old(self),
            r == interpret(*old(self)),
    {
        let copy = *self;
        let mut p = *self;
        let m = p.special_first();
        let f = p.final_identifier();
        match p.command(m, f) {
            Some(c) => {
                if matches!(c, KnownCSI::SelectGraphicRendition(_)) || p.empty() {
                    c
                } else {
                    KnownCSI::Unknown(copy)
                }
            },
            None => KnownCSI::Unknown(copy),
        }
    }
}

} // verus!
