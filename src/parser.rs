//! The byte-at-a-time state machine that splits a terminal byte stream into
//! control codes, escape sequences, CSI sequences, string payloads and text.
use vstd::prelude::*;

use crate::codes::{c0_of, c1_of, fp_of, fs_of, Fp, Fs, C0, C1};
use crate::csi::CSIParser;

verus! {

/// The body of a CSI sequence: the bytes after `ESC [`, the final byte
/// included.
#[derive(Clone, Copy, PartialEq, Eq, Debug)]
pub struct CSI<'a>(pub &'a [u8]);

impl<'a> CSI<'a> {
    /// A tokenizer over the body.
    pub fn parser(&self) -> (p: CSIParser<'a>)
        ensures
            p.wf(),
            p.rest() == self.0@,
            p.at_start(),
    {
        CSIParser::new(self.0)
    }
}

/// What one input byte produces.
#[allow(non_camel_case_types)]
#[derive(Clone, Copy, PartialEq, Eq, Debug)]
pub enum Out<'a> {
    C0(C0),
    /// Space, when it is reported apart from text.
    SP,
    /// Delete, when it is reported apart from text.
    DEL,
    /// A character of plain text.
    Data(char),
    Fp(Fp),
    C1(C1),
    Fs(Fs),
    /// `ESC` followed by a byte that starts no escape sequence.
    InvalidEscapeByte(u8),
    /// An nF escape sequence: its intermediate bytes as collected.
    nF(&'a [u8]),
    nFSequenceTooLarge,
    nFInvalidSequence,
    /// A complete CSI sequence.
    CSI(CSI<'a>),
    CSISequenceTooLarge,
    CSIIntermediateOverflow,
    /// A character of a device control string.
    DCSData(char),
    /// A character of a start-of-string string.
    SData(char),
    /// A character of a privacy message.
    PMData(char),
    /// A character of an application program command.
    APCData(char),
    /// A character of an operating system command.
    OSData(char),
    InvalidUtf8Sequence,
    /// A UTF-8 sequence whose value is no Unicode scalar value.
    InvalidCodepoint(u32),
    /// No event: the byte was taken into a sequence.
    Nothing,
}

/// The private marker of a CSI sequence.
#[derive(Clone, Copy, PartialEq, Eq, Debug, Structural)]
pub enum CsiMod {
    Standard,
    Equal,
    Question,
    Unknown(u8),
    Lt,
    Gt,
}

#[derive(Clone, Copy, PartialEq, Eq, Debug, Structural)]
pub enum StringKind {
    DeviceControl,
    Regular,
    Privacy,
    ApplicationProgramCommand,
    Os,
}

/// Why the rest of a CSI sequence is being skipped.
#[derive(Clone, Copy, PartialEq, Eq, Debug, Structural)]
pub enum IgnoreKind {
    Regular,
    SequenceOverflow,
    ImmediateOverflow,
    Invalid,
}

#[derive(Clone, Copy, PartialEq, Eq, Debug, Structural)]
pub enum State {
    Ground,
    Escape,
    /// Collecting the private marker and parameter bytes of a CSI body.
    CsiP,
    /// Collecting the intermediate bytes of a CSI body.
    CsiI,
    CsiIgnore(IgnoreKind),
    StringMode(StringKind),
    /// Collecting an nF sequence; whether a byte did not fit.
    Nf(bool),
}

/// The options of a parser. They may be changed between any two bytes.
#[derive(Clone, Copy, PartialEq, Eq, Debug, Structural)]
pub struct Config {
    /// Whether bytes `0x80..=0x9F` stand for `ESC` and a byte `0x40` lower.
    pub bit8_enabled: bool,
    /// Whether `0x7F` is reported as `DEL` rather than as text.
    pub del_special: bool,
    /// Whether `0x20` is reported as `SP` rather than as text.
    pub space_special: bool,
    /// Whether a CSI sequence too long for the buffer is compacted rather
    /// than reported. A buffer of no bytes has nothing to compact: there the
    /// sequence is always reported.
    pub csi_silent_sequence_overflow: bool,
    /// Whether intermediates over the maximum are dropped rather than
    /// reported.
    pub csi_silent_intermediate_overflow: bool,
    /// Not consulted: a C0 code inside a CSI sequence makes the parser skip
    /// the rest of the sequence.
    pub csi_pass_through_c0: bool,
    /// Whether an nF sequence too long for the buffer is handed out
    /// truncated rather than reported.
    pub nf_silent_sequence_overflow: bool,
    /// Whether plain text is decoded as UTF-8.
    pub utf8: bool,
    /// Whether C0 codes inside a string are reported rather than dropped.
    pub string_pass_through_c0: bool,
    /// Whether string payloads are decoded as UTF-8.
    pub utf8_strings: bool,
    /// The most intermediate bytes that a CSI sequence keeps.
    pub max_immediate_count: usize,
}

impl Config {
    /// The default options.
    pub open spec fn spec_default() -> Config {
        Config {
            bit8_enabled: false,
            del_special: true,
            space_special: true,
            csi_silent_sequence_overflow: true,
            csi_silent_intermediate_overflow: true,
            csi_pass_through_c0: true,
            nf_silent_sequence_overflow: true,
            utf8: true,
            string_pass_through_c0: true,
            utf8_strings: true,
            max_immediate_count: 4,
        }
    }

    /// The default options: 8-bit controls off, space and delete reported
    /// apart, overflows silent, UTF-8 decoded everywhere, at most four
    /// intermediates.
    pub fn new() -> (c: Self)
        ensures
            c == Config::spec_default(),
    {
        Config {
            bit8_enabled: false,
            del_special: true,
            space_special: true,
            csi_silent_sequence_overflow: true,
            csi_silent_intermediate_overflow: true,
            csi_pass_through_c0: true,
            nf_silent_sequence_overflow: true,
            utf8: true,
            string_pass_through_c0: true,
            utf8_strings: true,
            max_immediate_count: 4,
        }
    }
}

impl Default for Config {
    fn default() -> (c: Self)
        ensures
            c == Config::spec_default(),
    {
        Config::new()
    }
}

/// The mutable state of a parser, apart from its buffer.
#[derive(Clone, Copy, PartialEq, Eq, Debug, Structural)]
pub struct ParserState {
    immediate_count: usize,
    state: State,
    utf8_state: u8,
    codepoint: u32,
    buffer_count: usize,
}

impl ParserState {
    /// The state of a fresh parser: at rest, with an empty buffer.
    pub closed spec fn spec_new() -> ParserState {
        ParserState { immediate_count: 0, state: State::Ground, utf8_state: 0, codepoint: 0, buffer_count: 0 }
    }

    /// The state of a fresh parser.
    pub fn new() -> (s: Self)
        ensures
            s == ParserState::spec_new(),
    {
        ParserState { immediate_count: 0, state: State::Ground, utf8_state: 0, codepoint: 0, buffer_count: 0 }
    }

    /// The machine's state.
    pub closed spec fn mode(self) -> State {
        self.state
    }

    /// How many bytes of the buffer hold the sequence being collected.
    pub closed spec fn count(self) -> usize {
        self.buffer_count
    }

    /// How many UTF-8 continuation bytes are still awaited.
    pub closed spec fn pending(self) -> u8 {
        self.utf8_state
    }

    /// At rest: in `Ground`, with no UTF-8 sequence begun.
    pub closed spec fn is_ground(self) -> bool {
        self.state == State::Ground && self.utf8_state == 0
    }
}

impl Default for ParserState {
    fn default() -> (s: Self)
        ensures
            s == ParserState::spec_new(),
    {
        ParserState::new()
    }
}

/// A Unicode scalar value: up to `0x10FFFF`, surrogates excepted.
pub open spec fn is_scalar_value(v: u32) -> bool {
    v <= 0x10FFFF && !(0xD800 <= v <= 0xDFFF)
}

/// Relies on `char::from_u32`: a character exactly for the Unicode scalar
/// values, with that value.
#[verifier::external_body]
fn char_from_u32(v: u32) -> (r: Option<char>)
    ensures
        r is Some <==> is_scalar_value(v),
        r matches Some(c) ==> c as u32 == v,
{
    char::from_u32(v)
}

/// What one byte produces, before a collected sequence is handed out.
#[derive(Clone, Copy, PartialEq, Eq, Debug)]
pub enum Emit<'a> {
    Event(Out<'a>),
    /// The CSI sequence now in the buffer.
    Csi,
    /// The nF sequence now in the buffer.
    Nf,
}

/// Text character `c`, tagged with the string it belongs to, if any.
pub open spec fn text_event<'a>(state: State, c: char) -> Out<'a> {
    match state {
        State::StringMode(StringKind::DeviceControl) => Out::DCSData(c),
        State::StringMode(StringKind::Regular) => Out::SData(c),
        State::StringMode(StringKind::Privacy) => Out::PMData(c),
        State::StringMode(StringKind::ApplicationProgramCommand) => Out::APCData(c),
        State::StringMode(StringKind::Os) => Out::OSData(c),
        _ => Out::Data(c),
    }
}

/// Whether UTF-8 decoding looks at the byte first.
pub open spec fn decodes_utf8(cfg: Config, state: State) -> bool {
    (state is Ground && cfg.utf8) || (state is StringMode && cfg.utf8_strings)
}

/// A byte that begins a multi-byte UTF-8 sequence: the continuation bytes
/// it announces and the value bits it carries.
pub open spec fn utf8_lead(b: u8) -> Option<(u8, u32)> {
    if 0xC0 <= b <= 0xDF {
        Some((1u8, (b - 0xC0) as u32))
    } else if 0xE0 <= b <= 0xEF {
        Some((2u8, (b - 0xE0) as u32))
    } else if 0xF0 <= b <= 0xF7 {
        Some((3u8, (b - 0xF0) as u32))
    } else if 0xF8 <= b <= 0xFB {
        Some((4u8, (b - 0xF8) as u32))
    } else if 0xFC <= b <= 0xFD {
        Some((5u8, (b - 0xFC) as u32))
    } else {
        None
    }
}

/// How many continuation bytes a leading byte announces; none for others.
pub open spec fn utf8_lead_count(b: u8) -> u8 {
    match utf8_lead(b) {
        Some((n, _)) => n,
        None => 0,
    }
}

/// A UTF-8 continuation byte: `0b10xx_xxxx`.
pub open spec fn is_continuation(b: u8) -> bool {
    0x80 <= b <= 0xBF
}

/// `v` shifted left by six bits (in `u32`) with the value bits of
/// continuation byte `b` below.
pub open spec fn utf8_accumulate(v: u32, b: u8) -> u32 {
    ((v % 0x400_0000) * 64 + (b - 0x80)) as u32
}

/// The UTF-8 step: the new state and the event, or `None` where the byte
/// goes on to the state machine.
pub closed spec fn utf8_step<'a>(st: ParserState, b: u8) -> Option<(ParserState, Out<'a>)> {
    if st.utf8_state != 0 {
        if is_continuation(b) {
            let cp = utf8_accumulate(st.codepoint, b);
            let st2 = ParserState { codepoint: cp, utf8_state: (st.utf8_state - 1) as u8, ..st };
            if st2.utf8_state != 0 {
                Some((st2, Out::Nothing))
            } else if is_scalar_value(cp) {
                Some((st2, text_event(st.state, cp as char)))
            } else {
                Some((st2, Out::InvalidCodepoint(cp)))
            }
        } else {
            Some((ParserState { utf8_state: 0, ..st }, Out::InvalidUtf8Sequence))
        }
    } else {
        match utf8_lead(b) {
            Some((n, v)) => Some((ParserState { codepoint: v, utf8_state: n, ..st }, Out::Nothing)),
            None => None,
        }
    }
}

/// Appends `b` to the sequence in `buf` if there is room.
pub closed spec fn insert(st: ParserState, buf: Seq<u8>, b: u8) -> (bool, ParserState, Seq<u8>) {
    if st.buffer_count < buf.len() {
        (true, ParserState { buffer_count: (st.buffer_count + 1) as usize, ..st }, buf.update(st.buffer_count as int, b))
    } else {
        (false, st, buf)
    }
}

/// Where the compaction of a full buffer with `imm` intermediates frees a
/// byte: before the intermediates, past a leading private marker.
pub open spec fn shift_position(buf: Seq<u8>, imm: usize) -> int {
    let p = if buf.len() > imm + 1 { buf.len() - imm - 1 } else { 0 };
    if p == 0 && buf.len() > 0 && 0x3C <= buf[0] <= 0x3F {
        1
    } else {
        p
    }
}

/// A full buffer after compaction to take `b` as its last byte: the byte at
/// the shift position goes, unless it is an intermediate, in which case the
/// last byte is overwritten.
pub open spec fn shifted(buf: Seq<u8>, imm: usize, b: u8) -> Seq<u8> {
    let p = shift_position(buf, imm);
    if buf.len() == 0 {
        buf
    } else if p < buf.len() && !(0x20 <= buf[p] <= 0x2F) {
        buf.remove(p).push(b)
    } else {
        buf.update(buf.len() - 1, b)
    }
}

/// A parameter byte in a CSI body.
pub closed spec fn push_p(cfg: Config, st: ParserState, buf: Seq<u8>, b: u8) -> (ParserState, Seq<u8>) {
    let (ok, st2, buf2) = insert(st, buf, b);
    if !ok && !cfg.csi_silent_sequence_overflow {
        (ParserState { state: State::CsiIgnore(IgnoreKind::SequenceOverflow), ..st2 }, buf2)
    } else {
        (st2, buf2)
    }
}

/// An intermediate byte in a CSI body.
pub closed spec fn push_i(cfg: Config, st: ParserState, buf: Seq<u8>, b: u8) -> (ParserState, Seq<u8>) {
    if st.immediate_count == cfg.max_immediate_count {
        if !cfg.csi_silent_intermediate_overflow {
            (ParserState { state: State::CsiIgnore(IgnoreKind::ImmediateOverflow), ..st }, buf)
        } else {
            (st, buf)
        }
    } else {
        let (ok, st2, buf2) = insert(st, buf, b);
        let bumped = if st.immediate_count == usize::MAX { 0 } else { (st.immediate_count + 1) as usize };
        if ok {
            (ParserState { immediate_count: bumped, ..st2 }, buf2)
        } else if !cfg.csi_silent_sequence_overflow {
            (ParserState { state: State::CsiIgnore(IgnoreKind::SequenceOverflow), ..st2 }, buf2)
        } else {
            (ParserState { immediate_count: bumped, ..st2 }, shifted(buf, st.immediate_count, b))
        }
    }
}

/// The final byte of a CSI body. A buffer that cannot hold even the final
/// byte reports the sequence as too large, silent or not: no CSI sequence
/// is handed out without its final byte.
pub closed spec fn push_f<'a>(cfg: Config, st: ParserState, buf: Seq<u8>, b: u8) -> (ParserState, Seq<u8>, Emit<'a>) {
    let (ok, st2, buf2) = insert(st, buf, b);
    if ok {
        (st2, buf2, Emit::Csi)
    } else if !cfg.csi_silent_sequence_overflow || buf.len() == 0 {
        (st2, buf2, Emit::Event(Out::CSISequenceTooLarge))
    } else {
        (st2, shifted(buf, st.immediate_count, b), Emit::Csi)
    }
}

/// The byte after `ESC`.
pub closed spec fn escape_step<'a>(st: ParserState, buf: Seq<u8>, b: u8) -> (ParserState, Seq<u8>, Emit<'a>) {
    let ground = ParserState { state: State::Ground, ..st };
    if 0x20 <= b <= 0x2F {
        let (ok, st2, buf2) = insert(ParserState { buffer_count: 0, ..st }, buf, b);
        (ParserState { state: State::Nf(!ok), ..st2 }, buf2, Emit::Event(Out::Nothing))
    } else if 0x30 <= b <= 0x3F {
        (ground, buf, Emit::Event(Out::Fp(fp_of(b))))
    } else if b == 0x5B {
        (ParserState { state: State::CsiP, buffer_count: 0, ..st }, buf, Emit::Event(Out::Nothing))
    } else if 0x40 <= b <= 0x5F {
        let next = if b == 0x50 {
            State::StringMode(StringKind::DeviceControl)
        } else if b == 0x58 {
            State::StringMode(StringKind::Regular)
        } else if b == 0x5D {
            State::StringMode(StringKind::Os)
        } else if b == 0x5E {
            State::StringMode(StringKind::Privacy)
        } else if b == 0x5F {
            State::StringMode(StringKind::ApplicationProgramCommand)
        } else {
            State::Ground
        };
        (ParserState { state: next, ..st }, buf, Emit::Event(Out::C1(c1_of(b))))
    } else if 0x60 <= b <= 0x7E {
        (ground, buf, Emit::Event(Out::Fs(fs_of(b))))
    } else {
        (ground, buf, Emit::Event(Out::InvalidEscapeByte(b)))
    }
}

/// The state machine proper, on a byte that UTF-8 decoding passed on.
pub closed spec fn machine_step<'a>(cfg: Config, st0: ParserState, buf: Seq<u8>, input: u8) -> (ParserState, Seq<u8>, Emit<'a>) {
    let st = if input == 0x18 || input == 0x1A || input == 0x1B {
        ParserState { state: State::Ground, ..st0 }
    } else if 0x80 <= input <= 0x9F && cfg.bit8_enabled {
        ParserState { state: State::Escape, ..st0 }
    } else {
        st0
    };
    let b = if 0x80 <= input <= 0x9F && cfg.bit8_enabled { (input - 0x40) as u8 } else { input };
    let ground = ParserState { state: State::Ground, ..st };
    match st.state {
        State::Ground => if b == 0x1B {
            (ParserState { state: State::Escape, ..st }, buf, Emit::Event(Out::Nothing))
        } else if c0_of(b) is Some {
            (st, buf, Emit::Event(Out::C0(c0_of(b)->0)))
        } else if b == 0x20 && cfg.space_special {
            (st, buf, Emit::Event(Out::SP))
        } else if b == 0x7F && cfg.del_special {
            (st, buf, Emit::Event(Out::DEL))
        } else {
            (st, buf, Emit::Event(Out::Data(b as char)))
        },
        State::Escape => escape_step(st, buf, b),
        State::Nf(err) => if 0x20 <= b <= 0x2F {
            let (ok, st2, buf2) = insert(st, buf, b);
            (ParserState { state: State::Nf(!ok), ..st2 }, buf2, Emit::Event(Out::Nothing))
        } else if 0x30 <= b <= 0x7E {
            if err {
                let (ok, st2, buf2) = insert(ground, buf, b);
                if !ok && !cfg.nf_silent_sequence_overflow {
                    (st2, buf2, Emit::Event(Out::nFSequenceTooLarge))
                } else {
                    (st2, buf2, Emit::Nf)
                }
            } else {
                (ground, buf, Emit::Nf)
            }
        } else {
            (ground, buf, Emit::Event(Out::nFInvalidSequence))
        },
        State::CsiP => if 0x30 <= b <= 0x3F {
            let (st2, buf2) = push_p(cfg, st, buf, b);
            (st2, buf2, Emit::Event(Out::Nothing))
        } else if 0x20 <= b <= 0x2F {
            let (st2, buf2) = push_i(cfg, ParserState { immediate_count: 0, state: State::CsiI, ..st }, buf, b);
            (st2, buf2, Emit::Event(Out::Nothing))
        } else if 0x40 <= b <= 0x7E {
            push_f(cfg, ground, buf, b)
        } else {
            (ParserState { state: State::CsiIgnore(IgnoreKind::Regular), ..st }, buf, Emit::Event(Out::Nothing))
        },
        State::CsiI => if 0x30 <= b <= 0x3F {
            (ParserState { state: State::CsiIgnore(IgnoreKind::Invalid), ..st }, buf, Emit::Event(Out::Nothing))
        } else if 0x20 <= b <= 0x2F {
            let (st2, buf2) = push_i(cfg, st, buf, b);
            (st2, buf2, Emit::Event(Out::Nothing))
        } else if 0x40 <= b <= 0x7E {
            push_f(cfg, ground, buf, b)
        } else {
            (ParserState { state: State::CsiIgnore(IgnoreKind::Regular), ..st }, buf, Emit::Event(Out::Nothing))
        },
        State::CsiIgnore(kind) => if 0x40 <= b <= 0x7E {
            (ground, buf, Emit::Event(match kind {
                IgnoreKind::SequenceOverflow => Out::CSISequenceTooLarge,
                IgnoreKind::ImmediateOverflow => Out::CSIIntermediateOverflow,
                _ => Out::Nothing,
            }))
        } else {
            (st, buf, Emit::Event(Out::Nothing))
        },
        State::StringMode(_) => if b <= 0x1F && c0_of(b) is Some {
            (st, buf, Emit::Event(if cfg.string_pass_through_c0 { Out::C0(c0_of(b)->0) } else { Out::Nothing }))
        } else {
            (st, buf, Emit::Event(text_event(st.state, b as char)))
        },
    }
}

/// One byte: the parser's new state and buffer, and what the byte produces.
pub closed spec fn step<'a>(cfg: Config, st: ParserState, buf: Seq<u8>, input: u8) -> (ParserState, Seq<u8>, Emit<'a>) {
    if decodes_utf8(cfg, st.state) && utf8_step(st, input) is Some {
        let (st2, out) = utf8_step(st, input)->0;
        (st2, buf, Emit::Event(out))
    } else {
        machine_step(cfg, st, buf, input)
    }
}

fn insert_byte(st: &mut ParserState, buf: &mut [u8], b: u8) -> (ok: bool)
    ensures
        (ok, *final(st), final(buf)@) == insert(*old(st), old(buf)@, b),
{
    if st.buffer_count < buf.len() {
        buf[st.buffer_count] = b;
        st.buffer_count = st.buffer_count + 1;
        true
    } else {
        false
    }
}

fn shift_csi(buf: &mut [u8], imm: usize, b: u8)
    ensures
        final(buf)@ == shifted(old(buf)@, imm, b),
{
    let len = buf.len();
    if len == 0 {
        return;
    }
    let mut position: usize = if len > imm && len - imm > 1 { len - imm - 1 } else { 0 };
    if position == 0 && 0x3C <= buf[0] && buf[0] <= 0x3F {
        position = 1;
    }
    let ghost p0 = position as int;
    let ghost o = buf@;
    if position < len && !(0x20 <= buf[position] && buf[position] <= 0x2F) {
        while position + 1 < len
            invariant
                buf@.len() == len == o.len(),
                0 <= p0 <= position < len,
                forall|k: int| 0 <= k < p0 ==> buf@[k] == o[k],
                forall|k: int| p0 <= k < position ==> buf@[k] == o[k + 1],
                forall|k: int| position <= k < len ==> buf@[k] == o[k],
            decreases len - position,
        {
            let v = buf[position + 1];
            let ghost before = buf@;
            buf[position] = v;
            proof {
                assert forall|k: int| p0 <= k < position + 1 implies buf@[k] == o[k + 1] by {
                    if k < position {
                        assert(before.update(position as int, v)[k] == before[k]);
                    }
                }
            }
            position = position + 1;
        }
        buf[len - 1] = b;
        proof {
            assert(buf@ =~= o.remove(p0).push(b));
        }
    } else {
        buf[len - 1] = b;
    }
}

fn push_p_byte(cfg: &Config, st: &mut ParserState, buf: &mut [u8], b: u8)
    ensures
        (*final(st), final(buf)@) == push_p(*cfg, *old(st), old(buf)@, b),
{
    if !insert_byte(st, buf, b) && !cfg.csi_silent_sequence_overflow {
        st.state = State::CsiIgnore(IgnoreKind::SequenceOverflow);
    }
}

fn push_i_byte(cfg: &Config, st: &mut ParserState, buf: &mut [u8], b: u8)
    ensures
        (*final(st), final(buf)@) == push_i(*cfg, *old(st), old(buf)@, b),
{
    if st.immediate_count == cfg.max_immediate_count {
        if !cfg.csi_silent_intermediate_overflow {
            st.state = State::CsiIgnore(IgnoreKind::ImmediateOverflow);
        }
        return;
    }
    if !insert_byte(st, buf, b) {
        if !cfg.csi_silent_sequence_overflow {
            st.state = State::CsiIgnore(IgnoreKind::SequenceOverflow);
            return;
        }
        shift_csi(buf, st.immediate_count, b);
    }
    st.immediate_count = st.immediate_count.wrapping_add(1);
}

fn push_f_byte<'a>(cfg: &Config, st: &mut ParserState, buf: &mut [u8], b: u8) -> (e: Emit<'a>)
    ensures
        (*final(st), final(buf)@, e) == push_f(*cfg, *old(st), old(buf)@, b),
{
    if !insert_byte(st, buf, b) {
        if !cfg.csi_silent_sequence_overflow || buf.len() == 0 {
            return Emit::Event(Out::CSISequenceTooLarge);
        }
        shift_csi(buf, st.immediate_count, b);
    }
    Emit::Csi
}

fn text<'a>(state: State, c: char) -> (o: Out<'a>)
    ensures
        o == text_event(state, c),
{
    match state {
        State::StringMode(StringKind::DeviceControl) => Out::DCSData(c),
        State::StringMode(StringKind::Regular) => Out::SData(c),
        State::StringMode(StringKind::Privacy) => Out::PMData(c),
        State::StringMode(StringKind::ApplicationProgramCommand) => Out::APCData(c),
        State::StringMode(StringKind::Os) => Out::OSData(c),
        _ => Out::Data(c),
    }
}

fn next_utf8<'a>(st: &mut ParserState, b: u8) -> (r: Option<Out<'a>>)
    ensures
        r is Some == utf8_step::<'a>(*old(st), b) is Some,
        r matches Some(o) ==> (*final(st), o) == utf8_step::<'a>(*old(st), b)->0,
        r is None ==> *final(st) == *old(st),
{
    if st.utf8_state != 0 {
        if 0x80 <= b && b <= 0xBF {
            st.codepoint = (st.codepoint % 0x400_0000) * 64 + (b - 0x80) as u32;
            st.utf8_state = st.utf8_state - 1;
            if st.utf8_state != 0 {
                Some(Out::Nothing)
            } else {
                match char_from_u32(st.codepoint) {
                    Some(c) => {
                        proof {
                            vstd::utf8::char_u32_cast(c, st.codepoint);
                        }
                        Some(text(st.state, c))
                    },
                    None => Some(Out::InvalidCodepoint(st.codepoint)),
                }
            }
        } else {
            st.utf8_state = 0;
            Some(Out::InvalidUtf8Sequence)
        }
    } else {
        let lead: Option<(u8, u8)> = if 0xC0 <= b && b <= 0xDF {
            Some((1, b - 0xC0))
        } else if 0xE0 <= b && b <= 0xEF {
            Some((2, b - 0xE0))
        } else if 0xF0 <= b && b <= 0xF7 {
            Some((3, b - 0xF0))
        } else if 0xF8 <= b && b <= 0xFB {
            Some((4, b - 0xF8))
        } else if 0xFC <= b && b <= 0xFD {
            Some((5, b - 0xFC))
        } else {
            None
        };
        match lead {
            Some((n, v)) => {
                st.codepoint = v as u32;
                st.utf8_state = n;
                Some(Out::Nothing)
            },
            None => None,
        }
    }
}

fn escape_byte<'a>(st: &mut ParserState, buf: &mut [u8], b: u8) -> (e: Emit<'a>)
    ensures
        (*final(st), final(buf)@, e) == escape_step(*old(st), old(buf)@, b),
{
    if 0x20 <= b && b <= 0x2F {
        st.buffer_count = 0;
        let ok = insert_byte(st, buf, b);
        st.state = State::Nf(!ok);
        Emit::Event(Out::Nothing)
    } else if 0x30 <= b && b <= 0x3F {
        st.state = State::Ground;
        Emit::Event(Out::Fp(Fp::from_byte(b)))
    } else if b == 0x5B {
        st.state = State::CsiP;
        st.buffer_count = 0;
        Emit::Event(Out::Nothing)
    } else if 0x40 <= b && b <= 0x5F {
        st.state = match b {
            0x50 => State::StringMode(StringKind::DeviceControl),
            0x58 => State::StringMode(StringKind::Regular),
            0x5D => State::StringMode(StringKind::Os),
            0x5E => State::StringMode(StringKind::Privacy),
            0x5F => State::StringMode(StringKind::ApplicationProgramCommand),
            _ => State::Ground,
        };
        Emit::Event(Out::C1(C1::from_byte(b)))
    } else if 0x60 <= b && b <= 0x7E {
        st.state = State::Ground;
        Emit::Event(Out::Fs(Fs::from_byte(b)))
    } else {
        st.state = State::Ground;
        Emit::Event(Out::InvalidEscapeByte(b))
    }
}

fn machine_byte<'a>(cfg: &Config, st: &mut ParserState, buf: &mut [u8], input: u8) -> (e: Emit<'a>)
    ensures
        (*final(st), final(buf)@, e) == machine_step(*cfg, *old(st), old(buf)@, input),
{
    let mut b = input;
    if input == 0x18 || input == 0x1A || input == 0x1B {
        st.state = State::Ground;
    } else if 0x80 <= input && input <= 0x9F && cfg.bit8_enabled {
        st.state = State::Escape;
        b = input - 0x40;
    }
    match st.state {
        State::Ground => {
            if b == 0x1B {
                st.state = State::Escape;
                return Emit::Event(Out::Nothing);
            }
            match C0::from_byte(b) {
                Some(c) => Emit::Event(Out::C0(c)),
                None => if b == 0x20 && cfg.space_special {
                    Emit::Event(Out::SP)
                } else if b == 0x7F && cfg.del_special {
                    Emit::Event(Out::DEL)
                } else {
                    Emit::Event(Out::Data(b as char))
                },
            }
        },
        State::Escape => escape_byte(st, buf, b),
        State::Nf(err) => {
            if 0x20 <= b && b <= 0x2F {
                let ok = insert_byte(st, buf, b);
                st.state = State::Nf(!ok);
                Emit::Event(Out::Nothing)
            } else if 0x30 <= b && b <= 0x7E {
                st.state = State::Ground;
                if err && !insert_byte(st, buf, b) && !cfg.nf_silent_sequence_overflow {
                    Emit::Event(Out::nFSequenceTooLarge)
                } else {
                    Emit::Nf
                }
            } else {
                st.state = State::Ground;
                Emit::Event(Out::nFInvalidSequence)
            }
        },
        State::CsiP => {
            if 0x30 <= b && b <= 0x3F {
                push_p_byte(cfg, st, buf, b);
                Emit::Event(Out::Nothing)
            } else if 0x20 <= b && b <= 0x2F {
                st.immediate_count = 0;
                st.state = State::CsiI;
                push_i_byte(cfg, st, buf, b);
                Emit::Event(Out::Nothing)
            } else if 0x40 <= b && b <= 0x7E {
                st.state = State::Ground;
                push_f_byte(cfg, st, buf, b)
            } else {
                st.state = State::CsiIgnore(IgnoreKind::Regular);
                Emit::Event(Out::Nothing)
            }
        },
        State::CsiI => {
            if 0x30 <= b && b <= 0x3F {
                st.state = State::CsiIgnore(IgnoreKind::Invalid);
                Emit::Event(Out::Nothing)
            } else if 0x20 <= b && b <= 0x2F {
                push_i_byte(cfg, st, buf, b);
                Emit::Event(Out::Nothing)
            } else if 0x40 <= b && b <= 0x7E {
                st.state = State::Ground;
                push_f_byte(cfg, st, buf, b)
            } else {
                st.state = State::CsiIgnore(IgnoreKind::Regular);
                Emit::Event(Out::Nothing)
            }
        },
        State::CsiIgnore(kind) => {
            if 0x40 <= b && b <= 0x7E {
                st.state = State::Ground;
                Emit::Event(match kind {
                    IgnoreKind::SequenceOverflow => Out::CSISequenceTooLarge,
                    IgnoreKind::ImmediateOverflow => Out::CSIIntermediateOverflow,
                    _ => Out::Nothing,
                })
            } else {
                Emit::Event(Out::Nothing)
            }
        },
        State::StringMode(_) => {
            if b <= 0x1F && b != 0x18 && b != 0x1A && b != 0x1B {
                match C0::from_byte(b) {
                    Some(c) => Emit::Event(if cfg.string_pass_through_c0 { Out::C0(c) } else { Out::Nothing }),
                    None => Emit::Event(Out::Nothing),
                }
            } else {
                Emit::Event(text(st.state, b as char))
            }
        },
    }
}

/// One byte through UTF-8 decoding and the state machine.
fn advance<'a>(cfg: &Config, st: &mut ParserState, buf: &mut [u8], input: u8) -> (e: Emit<'a>)
    ensures
        (*final(st), final(buf)@, e) == step(*cfg, *old(st), old(buf)@, input),
{
    let active = match st.state {
        State::Ground => cfg.utf8,
        State::StringMode(_) => cfg.utf8_strings,
        _ => false,
    };
    if active {
        if let Some(o) = next_utf8(st, input) {
            return Emit::Event(o);
        }
    }
    machine_byte(cfg, st, buf, input)
}

/// The sequence that the buffer holds: its first `count` bytes, or all of
/// it should the count run past its end.
pub open spec fn held(buf: Seq<u8>, count: usize) -> Seq<u8> {
    if count <= buf.len() {
        buf.take(count as int)
    } else {
        buf
    }
}

/// Whether `r` is what `e` produces when the buffer holds `seq`.
pub open spec fn delivers(r: Out, e: Emit, seq: Seq<u8>) -> bool {
    match e {
        Emit::Event(o) => r == o,
        Emit::Csi => r matches Out::CSI(c) && c.0@ == seq,
        Emit::Nf => r matches Out::nF(s) && s@ == seq,
    }
}

fn deliver<'s>(e: Emit<'s>, buf: &'s [u8], count: usize) -> (r: Out<'s>)
    ensures
        delivers(r, e, held(buf@, count)),
{
    let held = if count <= buf.len() { &buf[0..count] } else { buf };
    match e {
        Emit::Event(o) => o,
        Emit::Csi => Out::CSI(CSI(held)),
        Emit::Nf => Out::nF(held),
    }
}

/// A parser and the buffer in which it collects sequences: an array of its
/// own, or a region that the caller lends it.
#[derive(Debug)]
pub struct AnsiParser<B> {
    pub cfg: Config,
    state: ParserState,
    buffer: B,
}

/// A parser with a buffer of `N` bytes of its own.
pub type SizedAnsiParser<const N: usize> = AnsiParser<[u8; N]>;

/// A parser that collects sequences in a borrowed region.
pub type UnsizedAnsiParser<'b> = AnsiParser<&'b mut [u8]>;

impl<B> AnsiParser<B> {
    /// The parser's state, its buffer aside.
    pub closed spec fn parser_state(&self) -> ParserState {
        self.state
    }

    /// The parser's options.
    pub closed spec fn config(&self) -> Config {
        self.cfg
    }
}

impl<const N: usize> SizedAnsiParser<N> {
    /// The bytes of the buffer.
    pub closed spec fn buffer(&self) -> Seq<u8> {
        self.buffer@
    }

    /// Replaces the options; the state and the buffer stay as they are.
    pub fn set_config(&mut self, cfg: Config)
        ensures
            final(self).config() == cfg,
            final(self).parser_state() == old(self).parser_state(),
            final(self).buffer() == old(self).buffer(),
    {
        self.cfg = cfg;
    }

    /// A parser at rest, with the default options and a zeroed buffer.
    pub fn new() -> (p: Self)
        ensures
            p.config() == Config::spec_default(),
            p.parser_state() == ParserState::spec_new(),
            p.buffer() == Seq::new(N as nat, |i: int| 0u8),
    {
        let p = AnsiParser { cfg: Config::new(), state: ParserState::new(), buffer: [0u8; N] };
        proof {
            assert(p.buffer@ =~= Seq::new(N as nat, |i: int| 0u8));
        }
        p
    }

    /// Drops any sequence in progress, UTF-8 included: the parser is at rest
    /// again, as when it was made.
    pub fn reset(&mut self)
        ensures
            final(self).config() == old(self).config(),
            final(self).parser_state() == ParserState::spec_new(),
            final(self).buffer() == old(self).buffer(),
    {
        self.state = ParserState::new();
    }

    /// Feeds one byte. A sequence in the result borrows the parser's buffer
    /// until the next call.
    pub fn next(&mut self, input: u8) -> (r: Out<'_>)
        ensures
            final(self).config() == old(self).config(),
            ({
                let (st, buf, e) = step(old(self).config(), old(self).parser_state(), old(self).buffer(), input);
                &&& final(self).parser_state() == st
                &&& final(self).buffer() == buf
                &&& delivers(r, e, held(buf, st.count()))
            }),
    {
        let e = advance(&self.cfg, &mut self.state, &mut self.buffer, input);
        deliver(e, &self.buffer, self.state.buffer_count)
    }
}

impl<'b> UnsizedAnsiParser<'b> {
    /// The bytes of the buffer.
    pub closed spec fn buffer(&self) -> Seq<u8> {
        (*self.buffer)@
    }

    /// Replaces the options; the state and the buffer stay as they are.
    pub fn set_config(&mut self, cfg: Config)
        ensures
            final(self).config() == cfg,
            final(self).parser_state() == old(self).parser_state(),
            final(self).buffer() == old(self).buffer(),
    {
        self.cfg = cfg;
    }

    /// A parser at rest, with the default options, that collects sequences
    /// in `buffer`.
    pub fn new(buffer: &'b mut [u8]) -> (p: Self)
        ensures
            p.config() == Config::spec_default(),
            p.parser_state() == ParserState::spec_new(),
            p.buffer() == old(buffer)@,
    {
        AnsiParser { cfg: Config::new(), state: ParserState::new(), buffer }
    }

    /// Drops any sequence in progress, UTF-8 included: the parser is at rest
    /// again, as when it was made.
    pub fn reset(&mut self)
        ensures
            final(self).config() == old(self).config(),
            final(self).parser_state() == ParserState::spec_new(),
            final(self).buffer() == old(self).buffer(),
    {
        self.state = ParserState::new();
    }

    /// Feeds one byte. A sequence in the result borrows the parser's buffer
    /// until the next call.
    pub fn next(&mut self, input: u8) -> (r: Out<'_>)
        ensures
            final(self).config() == old(self).config(),
            ({
                let (st, buf, e) = step(old(self).config(), old(self).parser_state(), old(self).buffer(), input);
                &&& final(self).parser_state() == st
                &&& final(self).buffer() == buf
                &&& delivers(r, e, held(buf, st.count()))
            }),
    {
        let e = advance(&self.cfg, &mut self.state, self.buffer, input);
        deliver(e, self.buffer, self.state.buffer_count)
    }
}

/// In `Ground` at rest, every byte below `0x20` but `CAN`, `SUB` and `ESC`
/// is reported as its C0 code, and `0x7F` as `DEL` or as text by the
/// option; the parser stays at rest.
pub proof fn lemma_ground_controls(cfg: Config, st: ParserState, buf: Seq<u8>, b: u8)
    requires
        st.is_ground(),
        b <= 0x1F && b != 0x18 && b != 0x1A && b != 0x1B || b == 0x7F,
    ensures
        step::<'static>(cfg, st, buf, b).0 == st,
        step::<'static>(cfg, st, buf, b).1 == buf,
        b <= 0x1F ==> c0_of(b) is Some && step::<'static>(cfg, st, buf, b).2 == Emit::Event(Out::C0(c0_of(b)->0)),
        b == 0x7F && cfg.del_special ==> step::<'static>(cfg, st, buf, b).2 == Emit::Event(Out::DEL),
        b == 0x7F && !cfg.del_special ==> step::<'static>(cfg, st, buf, b).2 == Emit::Event(Out::Data(0x7Fu8 as char)),
{
}

/// Feeds `bytes` one by one: the final state and buffer, what each byte
/// produced, and the sequence that the buffer held after each.
pub closed spec fn run<'a>(cfg: Config, st: ParserState, buf: Seq<u8>, bytes: Seq<u8>) -> (ParserState, Seq<u8>, Seq<Emit<'a>>, Seq<Seq<u8>>)
    decreases bytes.len(),
{
    if bytes.len() == 0 {
        (st, buf, Seq::empty(), Seq::empty())
    } else {
        let (s1, b1, es, hs) = run(cfg, st, buf, bytes.drop_last());
        let (s2, b2, e) = step(cfg, s1, b1, bytes.last());
        (s2, b2, es.push(e), hs.push(held(b2, s2.count())))
    }
}

/// Two parsers that agree but for buffer bytes past the sequence.
pub closed spec fn alike(s1: ParserState, b1: Seq<u8>, s2: ParserState, b2: Seq<u8>) -> bool {
    &&& s1 == s2
    &&& b1.len() == b2.len() <= usize::MAX
    &&& s1.buffer_count <= b1.len()
    &&& b1.take(s1.buffer_count as int) == b2.take(s2.buffer_count as int)
}

proof fn lemma_insert_alike(s: ParserState, b1: Seq<u8>, b2: Seq<u8>, x: u8)
    requires
        alike(s, b1, s, b2),
    ensures
        insert(s, b1, x).0 == insert(s, b2, x).0,
        alike(insert(s, b1, x).1, insert(s, b1, x).2, insert(s, b2, x).1, insert(s, b2, x).2),
{
    if s.buffer_count < b1.len() {
        let n = s.buffer_count as int;
        let s2 = ParserState { buffer_count: (s.buffer_count + 1) as usize, ..s };
        assert(b1.update(n, x).take(n + 1) =~= b1.take(n).push(x));
        assert(b2.update(n, x).take(n + 1) =~= b2.take(n).push(x));
        assert(insert(s, b1, x) == (true, s2, b1.update(n, x)));
        assert(insert(s, b2, x) == (true, s2, b2.update(n, x)));
    }
}

proof fn lemma_full_alike(s: ParserState, b1: Seq<u8>, b2: Seq<u8>)
    requires
        alike(s, b1, s, b2),
        s.buffer_count >= b1.len(),
    ensures
        b1 == b2,
{
    assert(b1.take(b1.len() as int) =~= b1);
    assert(b2.take(b2.len() as int) =~= b2);
}

proof fn lemma_push_alike(cfg: Config, s: ParserState, b1: Seq<u8>, b2: Seq<u8>, x: u8)
    requires
        alike(s, b1, s, b2),
    ensures
        push_p(cfg, s, b1, x).0 == push_p(cfg, s, b2, x).0,
        alike(push_p(cfg, s, b1, x).0, push_p(cfg, s, b1, x).1, push_p(cfg, s, b2, x).0, push_p(cfg, s, b2, x).1),
        push_i(cfg, s, b1, x).0 == push_i(cfg, s, b2, x).0,
        alike(push_i(cfg, s, b1, x).0, push_i(cfg, s, b1, x).1, push_i(cfg, s, b2, x).0, push_i(cfg, s, b2, x).1),
        push_f::<'static>(cfg, s, b1, x).0 == push_f::<'static>(cfg, s, b2, x).0,
        push_f::<'static>(cfg, s, b1, x).2 == push_f::<'static>(cfg, s, b2, x).2,
        alike(push_f::<'static>(cfg, s, b1, x).0, push_f::<'static>(cfg, s, b1, x).1, push_f::<'static>(cfg, s, b2, x).0, push_f::<'static>(cfg, s, b2, x).1),
{
    lemma_insert_alike(s, b1, b2, x);
    if s.buffer_count >= b1.len() {
        lemma_full_alike(s, b1, b2);
    }
}

proof fn lemma_escape_alike(s: ParserState, b1: Seq<u8>, b2: Seq<u8>, x: u8)
    requires
        alike(s, b1, s, b2),
    ensures
        escape_step::<'static>(s, b1, x).0 == escape_step::<'static>(s, b2, x).0,
        escape_step::<'static>(s, b1, x).2 == escape_step::<'static>(s, b2, x).2,
        alike(escape_step::<'static>(s, b1, x).0, escape_step::<'static>(s, b1, x).1, escape_step::<'static>(s, b2, x).0, escape_step::<'static>(s, b2, x).1),
{
    let s0 = ParserState { buffer_count: 0, ..s };
    assert(b1.take(0) =~= b2.take(0));
    lemma_insert_alike(s0, b1, b2, x);
}

/// A step depends on the buffer only through the sequence it holds.
pub proof fn lemma_step_alike(cfg: Config, s: ParserState, b1: Seq<u8>, b2: Seq<u8>, x: u8)
    requires
        alike(s, b1, s, b2),
    ensures
        step::<'static>(cfg, s, b1, x).0 == step::<'static>(cfg, s, b2, x).0,
        step::<'static>(cfg, s, b1, x).2 == step::<'static>(cfg, s, b2, x).2,
        alike(step::<'static>(cfg, s, b1, x).0, step::<'static>(cfg, s, b1, x).1, step::<'static>(cfg, s, b2, x).0, step::<'static>(cfg, s, b2, x).1),
{
    let st = if x == 0x18 || x == 0x1A || x == 0x1B {
        ParserState { state: State::Ground, ..s }
    } else if 0x80 <= x <= 0x9F && cfg.bit8_enabled {
        ParserState { state: State::Escape, ..s }
    } else {
        s
    };
    let b = if 0x80 <= x <= 0x9F && cfg.bit8_enabled { (x - 0x40) as u8 } else { x };
    match st.state {
        State::Escape => lemma_escape_alike(st, b1, b2, b),
        State::Nf(_) => {
            lemma_insert_alike(st, b1, b2, b);
            lemma_insert_alike(ParserState { state: State::Ground, ..st }, b1, b2, b);
        },
        State::CsiP => {
            lemma_push_alike(cfg, st, b1, b2, b);
            lemma_push_alike(cfg, ParserState { immediate_count: 0, state: State::CsiI, ..st }, b1, b2, b);
            lemma_push_alike(cfg, ParserState { state: State::Ground, ..st }, b1, b2, b);
        },
        State::CsiI => {
            lemma_push_alike(cfg, st, b1, b2, b);
            lemma_push_alike(cfg, ParserState { state: State::Ground, ..st }, b1, b2, b);
        },
        _ => {},
    }
}

/// Runs from parsers that agree but for buffer bytes past the sequence
/// produce the same events and hand out the same sequences.
pub proof fn lemma_run_alike(cfg: Config, s: ParserState, b1: Seq<u8>, b2: Seq<u8>, bytes: Seq<u8>)
    requires
        alike(s, b1, s, b2),
    ensures
        ({
            let (s1, c1, e1, h1) = run::<'static>(cfg, s, b1, bytes);
            let (s2, c2, e2, h2) = run::<'static>(cfg, s, b2, bytes);
            &&& alike(s1, c1, s2, c2)
            &&& e1 == e2
            &&& h1 == h2
        }),
    decreases bytes.len(),
{
    if bytes.len() > 0 {
        lemma_run_alike(cfg, s, b1, b2, bytes.drop_last());
        let (s1, c1, _, _) = run::<'static>(cfg, s, b1, bytes.drop_last());
        let (s2, c2, _, _) = run::<'static>(cfg, s, b2, bytes.drop_last());
        lemma_step_alike(cfg, s1, c1, c2, bytes.last());
    }
}

/// After `reset`, a parser behaves as a fresh one with a buffer of the same
/// size: on any input it produces the same events and hands out the same
/// sequences, whatever its buffer held before.
pub proof fn lemma_reset_like_new(cfg: Config, old_buf: Seq<u8>, bytes: Seq<u8>)
    requires
        old_buf.len() <= usize::MAX,
    ensures
        ({
            let fresh = Seq::new(old_buf.len(), |i: int| 0u8);
            let (_, _, e1, h1) = run::<'static>(cfg, ParserState::spec_new(), old_buf, bytes);
            let (_, _, e2, h2) = run::<'static>(cfg, ParserState::spec_new(), fresh, bytes);
            &&& e1 == e2
            &&& h1 == h2
        }),
{
    let fresh = Seq::new(old_buf.len(), |i: int| 0u8);
    assert(old_buf.take(0) =~= fresh.take(0));
    lemma_run_alike(cfg, ParserState::spec_new(), old_buf, fresh, bytes);
}

/// The UTF-8 encoding of scalar value `c`, for `c` from `0x80` on: a
/// leading byte, then six value bits per continuation byte.
pub open spec fn utf8_encoding(c: u32) -> Seq<u8> {
    let q1 = c / 64;
    let q2 = q1 / 64;
    let q3 = q2 / 64;
    if c < 0x800 {
        seq![(0xC0 + q1) as u8, (0x80 + c % 64) as u8]
    } else if c < 0x10000 {
        seq![(0xE0 + q2) as u8, (0x80 + q1 % 64) as u8, (0x80 + c % 64) as u8]
    } else {
        seq![(0xF0 + q3) as u8, (0x80 + q2 % 64) as u8, (0x80 + q1 % 64) as u8, (0x80 + c % 64) as u8]
    }
}

/// Feeding `bytes` and then `x` is feeding `bytes`, then one step on `x`.
pub proof fn lemma_run_one(cfg: Config, st: ParserState, buf: Seq<u8>, bytes: Seq<u8>, x: u8)
    ensures
        ({
            let (s1, b1, es, hs) = run::<'static>(cfg, st, buf, bytes);
            let (s2, b2, e) = step::<'static>(cfg, s1, b1, x);
            run::<'static>(cfg, st, buf, bytes.push(x)) == (s2, b2, es.push(e), hs.push(held(b2, s2.count())))
        }),
{
    assert(bytes.push(x).drop_last() =~= bytes);
}

/// The value that the first `k` bytes of `utf8_encoding(c)` carry.
pub open spec fn utf8_prefix_value(c: u32, len: int, k: int) -> u32 {
    let left = len - k;
    if left == 0 {
        c
    } else if left == 1 {
        c / 64
    } else if left == 2 {
        c / 64 / 64
    } else {
        c / 64 / 64 / 64
    }
}

#[verifier::spinoff_prover]
#[verifier::rlimit(40)]
proof fn lemma_utf8_prefix(cfg: Config, st: ParserState, buf: Seq<u8>, c: u32, k: int)
    requires
        st.pending() == 0,
        decodes_utf8(cfg, st.mode()),
        0x80 <= c,
        is_scalar_value(c),
        1 <= k <= utf8_encoding(c).len(),
    ensures
        ({
            let bytes = utf8_encoding(c);
            let (s, _, es, _) = run::<'static>(cfg, st, buf, bytes.take(k));
            &&& es.len() == k
            &&& forall|i: int| 0 <= i < k - 1 ==> es[i] == Emit::<'static>::Event(Out::Nothing)
            &&& es[k - 1] == (if k == bytes.len() {
                Emit::<'static>::Event(text_event(st.state, c as char))
            } else {
                Emit::<'static>::Event(Out::Nothing)
            })
            &&& s.state == st.state
            &&& s.utf8_state == bytes.len() - k
            &&& s.codepoint == utf8_prefix_value(c, bytes.len() as int, k)
        }),
    decreases k,
{
    let bytes = utf8_encoding(c);
    let q1 = c / 64;
    let q2 = q1 / 64;
    let q3 = q2 / 64;
    assert(q1 * 64 + c % 64 == c);
    assert(q2 * 64 + q1 % 64 == q1);
    assert(q3 * 64 + q2 % 64 == q2);
    if k == 1 {
        let e: Seq<u8> = Seq::empty();
        lemma_run_one(cfg, st, buf, e, bytes[0]);
        assert(e.push(bytes[0]) =~= bytes.take(1));
    } else {
        lemma_utf8_prefix(cfg, st, buf, c, k - 1);
        lemma_run_one(cfg, st, buf, bytes.take(k - 1), bytes[k - 1]);
        assert(bytes.take(k - 1).push(bytes[k - 1]) =~= bytes.take(k));
        let (s, _, es, _) = run::<'static>(cfg, st, buf, bytes.take(k - 1));
        assert(s.codepoint % 0x400_0000 == s.codepoint);
        if k == bytes.len() {
            vstd::utf8::char_u32_cast(c as char, c);
        }
    }
}

/// Fed one byte at a time where UTF-8 is decoded (in `Ground`, or in a
/// string when string payloads are decoded) with no sequence begun, the
/// UTF-8 encoding of a scalar value from `0x80` on produces nothing until
/// its last byte, which produces the character: as text in `Ground`, as
/// the string's payload in a string. The state is as before.
pub proof fn lemma_utf8_decodes(cfg: Config, st: ParserState, buf: Seq<u8>, c: u32)
    requires
        st.pending() == 0,
        decodes_utf8(cfg, st.mode()),
        0x80 <= c,
        is_scalar_value(c),
    ensures
        ({
            let bytes = utf8_encoding(c);
            let (s2, _, es, _) = run::<'static>(cfg, st, buf, bytes);
            &&& es.len() == bytes.len()
            &&& forall|i: int| 0 <= i < es.len() - 1 ==> es[i] == Emit::<'static>::Event(Out::Nothing)
            &&& es.last() == Emit::<'static>::Event(text_event(st.mode(), c as char))
            &&& s2.mode() == st.mode()
            &&& s2.pending() == 0
        }),
{
    let bytes = utf8_encoding(c);
    lemma_utf8_prefix(cfg, st, buf, c, bytes.len() as int);
    assert(bytes.take(bytes.len() as int) =~= bytes);
}

proof fn lemma_utf8_pending(cfg: Config, st: ParserState, buf: Seq<u8>, lead: u8, conts: Seq<u8>, j: int)
    requires
        st.pending() == 0,
        decodes_utf8(cfg, st.mode()),
        utf8_lead(lead) is Some,
        conts.len() < utf8_lead_count(lead),
        forall|i: int| 0 <= i < conts.len() ==> is_continuation(#[trigger] conts[i]),
        0 <= j <= conts.len(),
    ensures
        ({
            let (s, _, es, _) = run::<'static>(cfg, st, buf, seq![lead] + conts.take(j));
            &&& es.len() == j + 1
            &&& forall|i: int| 0 <= i < j + 1 ==> es[i] == Emit::<'static>::Event(Out::Nothing)
            &&& s.state == st.state
            &&& s.utf8_state == utf8_lead_count(lead) - j
        }),
    decreases j,
{
    if j == 0 {
        let e: Seq<u8> = Seq::empty();
        lemma_run_one(cfg, st, buf, e, lead);
        assert(e.push(lead) =~= seq![lead] + conts.take(0));
    } else {
        lemma_utf8_pending(cfg, st, buf, lead, conts, j - 1);
        lemma_run_one(cfg, st, buf, seq![lead] + conts.take(j - 1), conts[j - 1]);
        assert((seq![lead] + conts.take(j - 1)).push(conts[j - 1]) =~= seq![lead] + conts.take(j));
    }
}

/// Fed where UTF-8 is decoded with no sequence begun, a leading byte
/// followed by fewer continuation bytes than it announces and then a byte
/// that is no continuation byte produces nothing until that byte, which
/// produces an invalid sequence and nothing else: the pending value is
/// dropped and the state is as before.
pub proof fn lemma_utf8_truncated(cfg: Config, st: ParserState, buf: Seq<u8>, lead: u8, conts: Seq<u8>, x: u8)
    requires
        st.pending() == 0,
        decodes_utf8(cfg, st.mode()),
        utf8_lead(lead) is Some,
        conts.len() < utf8_lead_count(lead),
        forall|i: int| 0 <= i < conts.len() ==> is_continuation(#[trigger] conts[i]),
        !is_continuation(x),
    ensures
        ({
            let bytes = seq![lead] + conts + seq![x];
            let (s2, _, es, _) = run::<'static>(cfg, st, buf, bytes);
            &&& es.len() == bytes.len()
            &&& forall|i: int| 0 <= i < es.len() - 1 ==> es[i] == Emit::<'static>::Event(Out::Nothing)
            &&& es.last() == Emit::<'static>::Event(Out::InvalidUtf8Sequence)
            &&& s2.mode() == st.mode()
            &&& s2.pending() == 0
        }),
{
    lemma_utf8_pending(cfg, st, buf, lead, conts, conts.len() as int);
    assert(conts.take(conts.len() as int) =~= conts);
    lemma_run_one(cfg, st, buf, seq![lead] + conts, x);
    assert((seq![lead] + conts).push(x) =~= seq![lead] + conts + seq![x]);
}

/// `ESC [`, the parameter bytes, the intermediate bytes and the final byte.
pub open spec fn csi_input(params: Seq<u8>, ints: Seq<u8>, f: u8) -> Seq<u8> {
    seq![0x1Bu8, 0x5Bu8] + params + ints + seq![f]
}

/// The smaller of `a` and `b`.
pub open spec fn min(a: int, b: int) -> int {
    if a <= b {
        a
    } else {
        b
    }
}

#[verifier::spinoff_prover]
proof fn lemma_csi_params(cfg: Config, st: ParserState, buf: Seq<u8>, params: Seq<u8>, j: int)
    requires
        st.is_ground(),
        buf.len() <= usize::MAX,
        params.len() <= buf.len(),
        forall|i: int| 0 <= i < params.len() ==> 0x30 <= #[trigger] params[i] <= 0x3F,
        0 <= j <= params.len(),
    ensures
        ({
            let (s, b, es, _) = run::<'static>(cfg, st, buf, seq![0x1Bu8, 0x5Bu8] + params.take(j));
            &&& es.len() == j + 2
            &&& forall|i: int| 0 <= i < j + 2 ==> es[i] == Emit::<'static>::Event(Out::Nothing)
            &&& s.state == State::CsiP
            &&& s.utf8_state == 0
            &&& s.buffer_count == j
            &&& b.len() == buf.len()
            &&& b.take(j) == params.take(j)
        }),
    decreases j,
{
    if j == 0 {
        let e: Seq<u8> = Seq::empty();
        lemma_run_one(cfg, st, buf, e, 0x1B);
        lemma_run_one(cfg, st, buf, seq![0x1Bu8], 0x5B);
        assert(e.push(0x1B) =~= seq![0x1Bu8]);
        assert(seq![0x1Bu8].push(0x5B) =~= seq![0x1Bu8, 0x5Bu8] + params.take(0));
        let (s, b, _, _) = run::<'static>(cfg, st, buf, seq![0x1Bu8, 0x5Bu8] + params.take(0));
        assert(b.take(0) =~= params.take(0));
    } else {
        lemma_csi_params(cfg, st, buf, params, j - 1);
        let pre = seq![0x1Bu8, 0x5Bu8] + params.take(j - 1);
        lemma_run_one(cfg, st, buf, pre, params[j - 1]);
        assert(pre.push(params[j - 1]) =~= seq![0x1Bu8, 0x5Bu8] + params.take(j));
        let (s, b, _, _) = run::<'static>(cfg, st, buf, pre);
        assert(b.update(j - 1, params[j - 1]).take(j) =~= params.take(j)) by {
            assert(b.take(j - 1) == params.take(j - 1));
            assert forall|i: int| 0 <= i < j - 1 implies b[i] == params[i] by {
                assert(b.take(j - 1)[i] == params.take(j - 1)[i]);
            }
        }
    }
}

#[verifier::spinoff_prover]
#[verifier::rlimit(40)]
proof fn lemma_csi_ints(cfg: Config, st: ParserState, buf: Seq<u8>, params: Seq<u8>, ints: Seq<u8>, j: int)
    requires
        st.is_ground(),
        buf.len() <= usize::MAX,
        params.len() + min(ints.len() as int, cfg.max_immediate_count as int) <= buf.len(),
        forall|i: int| 0 <= i < params.len() ==> 0x30 <= #[trigger] params[i] <= 0x3F,
        forall|i: int| 0 <= i < ints.len() ==> 0x20 <= #[trigger] ints[i] <= 0x2F,
        1 <= j <= ints.len(),
    ensures
        ({
            let (s, b, es, _) = run::<'static>(cfg, st, buf, seq![0x1Bu8, 0x5Bu8] + params + ints.take(j));
            let kept = min(j, cfg.max_immediate_count as int);
            &&& es.len() == params.len() + j + 2
            &&& forall|i: int| 0 <= i < es.len() ==> es[i] == Emit::<'static>::Event(Out::Nothing)
            &&& s.utf8_state == 0
            &&& b.len() == buf.len()
            &&& (j <= cfg.max_immediate_count || cfg.csi_silent_intermediate_overflow) ==> {
                &&& s.state == State::CsiI
                &&& s.immediate_count == kept
                &&& s.buffer_count == params.len() + kept
                &&& b.take(params.len() + kept) == params + ints.take(kept)
            }
            &&& (j > cfg.max_immediate_count && !cfg.csi_silent_intermediate_overflow) ==> s.state == State::CsiIgnore(IgnoreKind::ImmediateOverflow)
        }),
    decreases j,
{
    let n = params.len() as int;
    let max = cfg.max_immediate_count as int;
    let pre = seq![0x1Bu8, 0x5Bu8] + params + ints.take(j - 1);
    if j == 1 {
        lemma_csi_params(cfg, st, buf, params, n);
        assert(params.take(n) =~= params);
        assert(pre =~= seq![0x1Bu8, 0x5Bu8] + params.take(n));
    } else {
        lemma_csi_ints(cfg, st, buf, params, ints, j - 1);
    }
    lemma_run_one(cfg, st, buf, pre, ints[j - 1]);
    assert(pre.push(ints[j - 1]) =~= seq![0x1Bu8, 0x5Bu8] + params + ints.take(j));
    let (s, b, es, _) = run::<'static>(cfg, st, buf, pre);
    if j <= max {
        let k = n + j - 1;
        assert(b.update(k, ints[j - 1]).take(k + 1) =~= params + ints.take(j)) by {
            if j == 1 {
                assert(b.take(n) == params.take(n));
                assert forall|i: int| 0 <= i < n implies b[i] == params[i] by {
                    assert(b.take(n)[i] == params.take(n)[i]);
                }
            } else {
                assert(b.take(k) == params + ints.take(j - 1));
                assert forall|i: int| 0 <= i < k implies b[i] == (params + ints.take(j - 1))[i] by {
                    assert(b.take(k)[i] == (params + ints.take(j - 1))[i]);
                }
            }
        }
    } else {
        assert(min(j - 1, max) == max);
        assert(ints.take(max) == ints.take(j).take(max)) by {
            assert(ints.take(max) =~= ints.take(j).take(max));
        }
    }
}

/// Fed from `Ground` at rest, `ESC [`, parameter bytes (a private marker
/// among them, or none), intermediate bytes and a final byte produce nothing
/// until the final byte. Within the intermediate maximum, the final byte
/// hands out exactly the bytes between `[` and itself. Past it, the sequence
/// is reported as an intermediate overflow, or, where that is silent, handed
/// out with the intermediates past the maximum left out. The parser is back
/// in `Ground`.
#[verifier::spinoff_prover]
#[verifier::rlimit(40)]
pub proof fn lemma_csi_sequence(cfg: Config, st: ParserState, buf: Seq<u8>, params: Seq<u8>, ints: Seq<u8>, f: u8)
    requires
        st.is_ground(),
        buf.len() <= usize::MAX,
        params.len() + min(ints.len() as int, cfg.max_immediate_count as int) + 1 <= buf.len(),
        forall|i: int| 0 <= i < params.len() ==> 0x30 <= #[trigger] params[i] <= 0x3F,
        forall|i: int| 0 <= i < ints.len() ==> 0x20 <= #[trigger] ints[i] <= 0x2F,
        0x40 <= f <= 0x7E,
    ensures
        ({
            let bytes = csi_input(params, ints, f);
            let (s, _, es, hs) = run::<'static>(cfg, st, buf, bytes);
            let max = cfg.max_immediate_count as int;
            &&& es.len() == bytes.len()
            &&& forall|i: int| 0 <= i < es.len() - 1 ==> es[i] == Emit::<'static>::Event(Out::Nothing)
            &&& s.is_ground()
            &&& ints.len() <= max ==> es.last() == Emit::<'static>::Csi && hs.last() == params + ints + seq![f]
            &&& (ints.len() > max && cfg.csi_silent_intermediate_overflow) ==> es.last() == Emit::<'static>::Csi
                && hs.last() == params + ints.take(max) + seq![f]
            &&& (ints.len() > max && !cfg.csi_silent_intermediate_overflow) ==> es.last()
                == Emit::<'static>::Event(Out::CSIIntermediateOverflow)
        }),
{
    let n = params.len() as int;
    let max = cfg.max_immediate_count as int;
    let j = ints.len() as int;
    let pre = seq![0x1Bu8, 0x5Bu8] + params + ints;
    if j == 0 {
        lemma_csi_params(cfg, st, buf, params, n);
        assert(params.take(n) =~= params);
        assert(pre =~= seq![0x1Bu8, 0x5Bu8] + params.take(n));
    } else {
        lemma_csi_ints(cfg, st, buf, params, ints, j);
        assert(ints.take(j) =~= ints);
    }
    lemma_run_one(cfg, st, buf, pre, f);
    assert(pre.push(f) =~= csi_input(params, ints, f));
    let (s, b, es, _) = run::<'static>(cfg, st, buf, pre);
    let kept = min(j, max);
    if j <= max || cfg.csi_silent_intermediate_overflow {
        let k = n + kept;
        let body = params + ints.take(kept);
        assert(b.take(k) == body);
        assert(b.update(k, f).take(k + 1) =~= body + seq![f]) by {
            assert forall|i: int| 0 <= i < k implies b[i] == body[i] by {
                assert(b.take(k)[i] == body[i]);
            }
        }
        if j <= max {
            assert(ints.take(kept) =~= ints);
        }
    }
}

/// Feeding nothing changes nothing and produces nothing.
pub proof fn lemma_run_empty(cfg: Config, st: ParserState, buf: Seq<u8>)
    ensures
        run::<'static>(cfg, st, buf, Seq::empty()) == (st, buf, Seq::<Emit<'static>>::empty(), Seq::<Seq<u8>>::empty()),
{
}

/// A fresh parser is at rest with an empty sequence, and its state is
/// `ParserState::spec_new()`.
pub proof fn lemma_fresh_at_rest()
    ensures
        ParserState::spec_new().is_ground(),
        ParserState::spec_new().count() == 0,
        ParserState::spec_new().pending() == 0,
        ParserState::spec_new().mode() == State::Ground,
{
}

/// A step keeps the buffer's length and the sequence within it.
pub proof fn lemma_step_keeps_count(cfg: Config, st: ParserState, buf: Seq<u8>, x: u8)
    requires
        st.count() <= buf.len(),
    ensures
        step::<'static>(cfg, st, buf, x).1.len() == buf.len(),
        step::<'static>(cfg, st, buf, x).0.count() <= buf.len(),
{
}

proof fn lemma_push_f_ends_final(cfg: Config, st: ParserState, buf: Seq<u8>, b: u8)
    requires
        buf.len() <= usize::MAX,
        st.count() <= buf.len(),
        0x40 <= b <= 0x7E,
    ensures
        push_f::<'static>(cfg, st, buf, b).2 == Emit::<'static>::Csi ==> {
            let (s2, b2, _) = push_f::<'static>(cfg, st, buf, b);
            let h = held(b2, s2.count());
            &&& 1 <= h.len() <= buf.len()
            &&& h.last() == b
        },
{
    let (ok, st2, buf2) = insert(st, buf, b);
    if ok {
        let n = st.buffer_count as int;
        assert(st2.count() == n + 1 && n + 1 <= buf.len());
        assert(held(buf2, st2.count()) == buf2.take(n + 1));
        assert(buf2.take(n + 1).last() == b);
    } else if cfg.csi_silent_sequence_overflow && buf.len() > 0 {
        let sh = shifted(buf, st.immediate_count, b);
        let p = shift_position(buf, st.immediate_count);
        assert(0 <= p);
        if p < buf.len() && !(0x20 <= buf[p] <= 0x2F) {
            assert(buf.remove(p).len() == buf.len() - 1);
            assert(sh.len() == buf.len());
            assert(sh.last() == b);
        } else {
            assert(sh.len() == buf.len());
            assert(sh.last() == b);
        }
        assert(st.count() == buf.len());
        assert(sh.take(sh.len() as int) =~= sh);
        assert(held(sh, st.count()) == sh);
    }
}

/// Every CSI sequence that the parser hands out fits its buffer and ends
/// with its final byte, a byte in `0x40..=0x7E`.
pub proof fn lemma_csi_ends_with_final(cfg: Config, st: ParserState, buf: Seq<u8>, x: u8)
    requires
        buf.len() <= usize::MAX,
        st.count() <= buf.len(),
    ensures
        step::<'static>(cfg, st, buf, x).2 == Emit::<'static>::Csi ==> {
            let (s2, b2, _) = step::<'static>(cfg, st, buf, x);
            let h = held(b2, s2.count());
            &&& 1 <= h.len() <= buf.len()
            &&& 0x40 <= h.last() <= 0x7E
        },
{
    let b = if 0x80 <= x <= 0x9F && cfg.bit8_enabled { (x - 0x40) as u8 } else { x };
    if 0x40 <= b <= 0x7E {
        lemma_push_f_ends_final(cfg, ParserState { state: State::Ground, ..st }, buf, b);
    }
}

} // verus!
