//! The named codes that the stream parser reports: C0 controls and the
//! two-byte escape sequences of the Fp, Fe and Fs classes.
use vstd::prelude::*;

verus! {

/// A C0 control code (`0x00..=0x1F`; `ESC` starts a sequence instead).
#[derive(Clone, Copy, PartialEq, Eq, Debug, Structural)]
pub enum C0 {
    /// Null
    NUL,
    /// Start of Heading
    SOH,
    /// Start of Text
    STX,
    /// End of Text
    ETX,
    /// End of Transmission
    EOT,
    /// Enquiry
    ENQ,
    /// Acknowledge
    ACK,
    /// Bell
    BEL,
    /// Backspace
    BS,
    /// Horizontal Tabulation
    HT,
    /// Line Feed
    LF,
    /// Vertical Tabulation
    VT,
    /// Form Feed
    FF,
    /// Carriage Return
    CR,
    /// Shift Out
    SO,
    /// Shift In
    SI,
    /// Data Link Escape
    DLE,
    /// Device Control One
    DC1,
    /// Device Control Two
    DC2,
    /// Device Control Three
    DC3,
    /// Device Control Four
    DC4,
    /// Negative Acknowledge
    NAK,
    /// Synchronous Idle
    SYN,
    /// End of Transmission Block
    ETB,
    /// Cancel
    CAN,
    /// End of Medium
    EM,
    /// Substitute
    SUB,
    /// File Separator
    FS,
    /// Group Separator
    GS,
    /// Record Separator
    RS,
    /// Unit Separator
    US,
}

/// The C0 code of byte `b`: every byte below `0x20` but `ESC` (`0x1B`) has one.
pub open spec fn c0_of(b: u8) -> Option<C0> {
    if b == 0x00 {
        Some(C0::NUL)
    } else if b == 0x01 {
        Some(C0::SOH)
    } else if b == 0x02 {
        Some(C0::STX)
    } else if b == 0x03 {
        Some(C0::ETX)
    } else if b == 0x04 {
        Some(C0::EOT)
    } else if b == 0x05 {
        Some(C0::ENQ)
    } else if b == 0x06 {
        Some(C0::ACK)
    } else if b == 0x07 {
        Some(C0::BEL)
    } else if b == 0x08 {
        Some(C0::BS)
    } else if b == 0x09 {
        Some(C0::HT)
    } else if b == 0x0A {
        Some(C0::LF)
    } else if b == 0x0B {
        Some(C0::VT)
    } else if b == 0x0C {
        Some(C0::FF)
    } else if b == 0x0D {
        Some(C0::CR)
    } else if b == 0x0E {
        Some(C0::SO)
    } else if b == 0x0F {
        Some(C0::SI)
    } else if b == 0x10 {
        Some(C0::DLE)
    } else if b == 0x11 {
        Some(C0::DC1)
    } else if b == 0x12 {
        Some(C0::DC2)
    } else if b == 0x13 {
        Some(C0::DC3)
    } else if b == 0x14 {
        Some(C0::DC4)
    } else if b == 0x15 {
        Some(C0::NAK)
    } else if b == 0x16 {
        Some(C0::SYN)
    } else if b == 0x17 {
        Some(C0::ETB)
    } else if b == 0x18 {
        Some(C0::CAN)
    } else if b == 0x19 {
        Some(C0::EM)
    } else if b == 0x1A {
        Some(C0::SUB)
    } else if b == 0x1C {
        Some(C0::FS)
    } else if b == 0x1D {
        Some(C0::GS)
    } else if b == 0x1E {
        Some(C0::RS)
    } else if b == 0x1F {
        Some(C0::US)
    } else {
        None
    }
}

impl C0 {
    /// The code for byte `b`, if it names one.
    pub fn from_byte(b: u8) -> (r: Option<C0>)
        ensures
            r == c0_of(b),
    {
        match b {
            0x00 => Some(C0::NUL),
            0x01 => Some(C0::SOH),
            0x02 => Some(C0::STX),
            0x03 => Some(C0::ETX),
            0x04 => Some(C0::EOT),
            0x05 => Some(C0::ENQ),
            0x06 => Some(C0::ACK),
            0x07 => Some(C0::BEL),
            0x08 => Some(C0::BS),
            0x09 => Some(C0::HT),
            0x0A => Some(C0::LF),
            0x0B => Some(C0::VT),
            0x0C => Some(C0::FF),
            0x0D => Some(C0::CR),
            0x0E => Some(C0::SO),
            0x0F => Some(C0::SI),
            0x10 => Some(C0::DLE),
            0x11 => Some(C0::DC1),
            0x12 => Some(C0::DC2),
            0x13 => Some(C0::DC3),
            0x14 => Some(C0::DC4),
            0x15 => Some(C0::NAK),
            0x16 => Some(C0::SYN),
            0x17 => Some(C0::ETB),
            0x18 => Some(C0::CAN),
            0x19 => Some(C0::EM),
            0x1A => Some(C0::SUB),
            0x1C => Some(C0::FS),
            0x1D => Some(C0::GS),
            0x1E => Some(C0::RS),
            0x1F => Some(C0::US),
            _ => None,
        }
    }
}

/// The private escape sequence `ESC` followed by a byte in `0x30..=0x3F`.
#[derive(Clone, Copy, PartialEq, Eq, Debug, Structural)]
pub enum Fp {
    UnknownX30,
    UnknownX31,
    UnknownX32,
    UnknownX33,
    UnknownX34,
    UnknownX35,
    /// Back Index
    DECFI,
    /// Save Cursor
    DECSC,
    /// Restore Cursor
    DECRC,
    UnknownX39,
    UnknownX3A,
    UnknownX3B,
    UnknownX3C,
    /// Application Keypad
    DECKPAM,
    /// Normal Keypad
    DECKPNM,
    UnknownX3F,
}

/// The Fp code of byte `b` in `0x30..=0x3F`.
pub open spec fn fp_of(b: u8) -> Fp {
    if b == 0x30 {
        Fp::UnknownX30
    } else if b == 0x31 {
        Fp::UnknownX31
    } else if b == 0x32 {
        Fp::UnknownX32
    } else if b == 0x33 {
        Fp::UnknownX33
    } else if b == 0x34 {
        Fp::UnknownX34
    } else if b == 0x35 {
        Fp::UnknownX35
    } else if b == 0x36 {
        Fp::DECFI
    } else if b == 0x37 {
        Fp::DECSC
    } else if b == 0x38 {
        Fp::DECRC
    } else if b == 0x39 {
        Fp::UnknownX39
    } else if b == 0x3A {
        Fp::UnknownX3A
    } else if b == 0x3B {
        Fp::UnknownX3B
    } else if b == 0x3C {
        Fp::UnknownX3C
    } else if b == 0x3D {
        Fp::DECKPAM
    } else if b == 0x3E {
        Fp::DECKPNM
    } else {
        Fp::UnknownX3F
    }
}

impl Fp {
    /// The code for byte `b`.
    pub fn from_byte(b: u8) -> (r: Fp)
        requires
            0x30 <= b <= 0x3F,
        ensures
            r == fp_of(b),
    {
        match b {
            0x30 => Fp::UnknownX30,
            0x31 => Fp::UnknownX31,
            0x32 => Fp::UnknownX32,
            0x33 => Fp::UnknownX33,
            0x34 => Fp::UnknownX34,
            0x35 => Fp::UnknownX35,
            0x36 => Fp::DECFI,
            0x37 => Fp::DECSC,
            0x38 => Fp::DECRC,
            0x39 => Fp::UnknownX39,
            0x3A => Fp::UnknownX3A,
            0x3B => Fp::UnknownX3B,
            0x3C => Fp::UnknownX3C,
            0x3D => Fp::DECKPAM,
            0x3E => Fp::DECKPNM,
            _ => Fp::UnknownX3F,
        }
    }
}

/// A C1 control: `ESC` followed by a byte in `0x40..=0x5F` (the Fe class), but `[`, which starts a CSI sequence.
#[derive(Clone, Copy, PartialEq, Eq, Debug, Structural)]
pub enum C1 {
    /// Padding Character
    PAD,
    /// High Octet Preset
    HOP,
    /// Break Permitted Here
    BPH,
    /// No Break Here
    NBH,
    /// Index
    IND,
    /// Next Line
    NEL,
    /// Start of Selected Area
    SSA,
    /// End of Selected Area
    ESA,
    /// Horizontal Tabulation Set
    HTS,
    /// Horizontal Tabulation With Justification
    HTJ,
    /// Vertical Tabulation Set
    VTS,
    /// Partial Line Forward
    PLD,
    /// Partial Line Backward
    PLU,
    /// Reverse Index
    RI,
    /// Single-Shift 2
    SS2,
    /// Single-Shift 3
    SS3,
    /// Device Control String
    DCS,
    /// Private Use 1
    PU1,
    /// Private Use 2
    PU2,
    /// Set Transmit State
    STS,
    /// Cancel Character
    CCH,
    /// Message Waiting
    MW,
    /// Start of Protected Area
    SPA,
    /// End of Protected Area
    EPA,
    /// Start of String
    SOS,
    /// Single Graphic Character Introducer
    SGCI,
    /// Single Character Introducer
    SCI,
    /// String Terminator
    ST,
    /// Operating System Command
    OSC,
    /// Privacy Message
    PM,
    /// Application Program Command
    APC,
}

/// The C1 code of byte `b` in `0x40..=0x5F`, `[` (`0x5B`) excepted.
pub open spec fn c1_of(b: u8) -> C1 {
    if b == 0x40 {
        C1::PAD
    } else if b == 0x41 {
        C1::HOP
    } else if b == 0x42 {
        C1::BPH
    } else if b == 0x43 {
        C1::NBH
    } else if b == 0x44 {
        C1::IND
    } else if b == 0x45 {
        C1::NEL
    } else if b == 0x46 {
        C1::SSA
    } else if b == 0x47 {
        C1::ESA
    } else if b == 0x48 {
        C1::HTS
    } else if b == 0x49 {
        C1::HTJ
    } else if b == 0x4A {
        C1::VTS
    } else if b == 0x4B {
        C1::PLD
    } else if b == 0x4C {
        C1::PLU
    } else if b == 0x4D {
        C1::RI
    } else if b == 0x4E {
        C1::SS2
    } else if b == 0x4F {
        C1::SS3
    } else if b == 0x50 {
        C1::DCS
    } else if b == 0x51 {
        C1::PU1
    } else if b == 0x52 {
        C1::PU2
    } else if b == 0x53 {
        C1::STS
    } else if b == 0x54 {
        C1::CCH
    } else if b == 0x55 {
        C1::MW
    } else if b == 0x56 {
        C1::SPA
    } else if b == 0x57 {
        C1::EPA
    } else if b == 0x58 {
        C1::SOS
    } else if b == 0x59 {
        C1::SGCI
    } else if b == 0x5A {
        C1::SCI
    } else if b == 0x5C {
        C1::ST
    } else if b == 0x5D {
        C1::OSC
    } else if b == 0x5E {
        C1::PM
    } else {
        C1::APC
    }
}

impl C1 {
    /// The code for byte `b`.
    pub fn from_byte(b: u8) -> (r: C1)
        requires
            0x40 <= b <= 0x5F,
            b != 0x5B,
        ensures
            r == c1_of(b),
    {
        match b {
            0x40 => C1::PAD,
            0x41 => C1::HOP,
            0x42 => C1::BPH,
            0x43 => C1::NBH,
            0x44 => C1::IND,
            0x45 => C1::NEL,
            0x46 => C1::SSA,
            0x47 => C1::ESA,
            0x48 => C1::HTS,
            0x49 => C1::HTJ,
            0x4A => C1::VTS,
            0x4B => C1::PLD,
            0x4C => C1::PLU,
            0x4D => C1::RI,
            0x4E => C1::SS2,
            0x4F => C1::SS3,
            0x50 => C1::DCS,
            0x51 => C1::PU1,
            0x52 => C1::PU2,
            0x53 => C1::STS,
            0x54 => C1::CCH,
            0x55 => C1::MW,
            0x56 => C1::SPA,
            0x57 => C1::EPA,
            0x58 => C1::SOS,
            0x59 => C1::SGCI,
            0x5A => C1::SCI,
            0x5C => C1::ST,
            0x5D => C1::OSC,
            0x5E => C1::PM,
            _ => C1::APC,
        }
    }
}

/// The standardized single function `ESC` followed by a byte in `0x60..=0x7E`.
#[derive(Clone, Copy, PartialEq, Eq, Debug, Structural)]
pub enum Fs {
    /// Disable Manual Input
    DMI,
    /// Interrupt
    INT,
    /// Enable Manual Input
    EMI,
    /// Reset to Initial State
    RIS,
    /// Coding Method Delimiter
    CMD,
    UnknownX65,
    UnknownX66,
    UnknownX67,
    UnknownX68,
    UnknownX69,
    UnknownX6A,
    UnknownX6B,
    /// Memory Lock
    LCKMEM,
    /// Memory Unlock
    ULKMEM,
    /// Locking Shift Two
    LS2,
    /// Locking Shift Three
    LS3,
    UnknownX70,
    UnknownX71,
    UnknownX72,
    UnknownX73,
    UnknownX74,
    UnknownX75,
    UnknownX76,
    UnknownX77,
    UnknownX78,
    UnknownX79,
    UnknownX7A,
    UnknownX7B,
    /// Locking Shift Three Right
    LS3R,
    /// Locking Shift Two Right
    LS2R,
    /// Locking Shift One Right
    LS1R,
}

/// The Fs code of byte `b` in `0x60..=0x7E`.
pub open spec fn fs_of(b: u8) -> Fs {
    if b == 0x60 {
        Fs::DMI
    } else if b == 0x61 {
        Fs::INT
    } else if b == 0x62 {
        Fs::EMI
    } else if b == 0x63 {
        Fs::RIS
    } else if b == 0x64 {
        Fs::CMD
    } else if b == 0x65 {
        Fs::UnknownX65
    } else if b == 0x66 {
        Fs::UnknownX66
    } else if b == 0x67 {
        Fs::UnknownX67
    } else if b == 0x68 {
        Fs::UnknownX68
    } else if b == 0x69 {
        Fs::UnknownX69
    } else if b == 0x6A {
        Fs::UnknownX6A
    } else if b == 0x6B {
        Fs::UnknownX6B
    } else if b == 0x6C {
        Fs::LCKMEM
    } else if b == 0x6D {
        Fs::ULKMEM
    } else if b == 0x6E {
        Fs::LS2
    } else if b == 0x6F {
        Fs::LS3
    } else if b == 0x70 {
        Fs::UnknownX70
    } else if b == 0x71 {
        Fs::UnknownX71
    } else if b == 0x72 {
        Fs::UnknownX72
    } else if b == 0x73 {
        Fs::UnknownX73
    } else if b == 0x74 {
        Fs::UnknownX74
    } else if b == 0x75 {
        Fs::UnknownX75
    } else if b == 0x76 {
        Fs::UnknownX76
    } else if b == 0x77 {
        Fs::UnknownX77
    } else if b == 0x78 {
        Fs::UnknownX78
    } else if b == 0x79 {
        Fs::UnknownX79
    } else if b == 0x7A {
        Fs::UnknownX7A
    } else if b == 0x7B {
        Fs::UnknownX7B
    } else if b == 0x7C {
        Fs::LS3R
    } else if b == 0x7D {
        Fs::LS2R
    } else {
        Fs::LS1R
    }
}

impl Fs {
    /// The code for byte `b`.
    pub fn from_byte(b: u8) -> (r: Fs)
        requires
            0x60 <= b <= 0x7E,
        ensures
            r == fs_of(b),
    {
        match b {
            0x60 => Fs::DMI,
            0x61 => Fs::INT,
            0x62 => Fs::EMI,
            0x63 => Fs::RIS,
            0x64 => Fs::CMD,
            0x65 => Fs::UnknownX65,
            0x66 => Fs::UnknownX66,
            0x67 => Fs::UnknownX67,
            0x68 => Fs::UnknownX68,
            0x69 => Fs::UnknownX69,
            0x6A => Fs::UnknownX6A,
            0x6B => Fs::UnknownX6B,
            0x6C => Fs::LCKMEM,
            0x6D => Fs::ULKMEM,
            0x6E => Fs::LS2,
            0x6F => Fs::LS3,
            0x70 => Fs::UnknownX70,
            0x71 => Fs::UnknownX71,
            0x72 => Fs::UnknownX72,
            0x73 => Fs::UnknownX73,
            0x74 => Fs::UnknownX74,
            0x75 => Fs::UnknownX75,
            0x76 => Fs::UnknownX76,
            0x77 => Fs::UnknownX77,
            0x78 => Fs::UnknownX78,
            0x79 => Fs::UnknownX79,
            0x7A => Fs::UnknownX7A,
            0x7B => Fs::UnknownX7B,
            0x7C => Fs::LS3R,
            0x7D => Fs::LS2R,
            _ => Fs::LS1R,
        }
    }
}

} // verus!
