use ansi::{Out, SizedAnsiParser, C0, C1, CSI};

fn csi_cases(parser: &mut SizedAnsiParser<12>) {
    parser.cfg.max_immediate_count = 4;

    for p in 0x30..=0x3Fu8 {
        for i in 0x20..=0x2Fu8 {
            for f in 0x40..=0x7Eu8 {
                parser.cfg.csi_silent_intermediate_overflow = false;
                parser.cfg.csi_silent_sequence_overflow = false;

                assert_eq!(parser.next(0x1b), Out::Nothing);
                assert_eq!(parser.next(b'['), Out::Nothing);
                assert_eq!(parser.next(p), Out::Nothing);
                assert_eq!(parser.next(i), Out::Nothing);
                assert_eq!(parser.next(f), Out::CSI(CSI(&[p, i, f])));

                assert_eq!(parser.next(0x1b), Out::Nothing);
                assert_eq!(parser.next(b'['), Out::Nothing);
                assert_eq!(parser.next(p), Out::Nothing);
                assert_eq!(parser.next(f), Out::CSI(CSI(&[p, f])));

                assert_eq!(parser.next(0x1b), Out::Nothing);
                assert_eq!(parser.next(b'['), Out::Nothing);
                assert_eq!(parser.next(i), Out::Nothing);
                assert_eq!(parser.next(f), Out::CSI(CSI(&[i, f])));

                assert_eq!(parser.next(0x1b), Out::Nothing);
                assert_eq!(parser.next(b'['), Out::Nothing);
                assert_eq!(parser.next(f), Out::CSI(CSI(&[f])));

                assert_eq!(parser.next(0x1b), Out::Nothing);
                assert_eq!(parser.next(b'['), Out::Nothing);
                assert_eq!(parser.next(p), Out::Nothing);
                assert_eq!(parser.next(i), Out::Nothing);
                assert_eq!(parser.next(p), Out::Nothing);
                assert_eq!(parser.next(f), Out::Nothing);

                assert_eq!(parser.next(0x1b), Out::Nothing);
                assert_eq!(parser.next(b'['), Out::Nothing);
                assert_eq!(parser.next(i), Out::Nothing);
                assert_eq!(parser.next(p), Out::Nothing);
                assert_eq!(parser.next(f), Out::Nothing);

                assert_eq!(parser.next(0x1b), Out::Nothing);
                assert_eq!(parser.next(b'['), Out::Nothing);
                for _ in 0..4 {
                    assert_eq!(parser.next(i), Out::Nothing);
                }
                assert_eq!(parser.next(f), Out::CSI(CSI(&[i, i, i, i, f])));

                assert_eq!(parser.next(0x1b), Out::Nothing);
                assert_eq!(parser.next(b'['), Out::Nothing);
                for _ in 0..5 {
                    assert_eq!(parser.next(i), Out::Nothing);
                }
                assert_eq!(parser.next(f), Out::CSIIntermediateOverflow);

                assert_eq!(parser.next(0x1b), Out::Nothing);
                assert_eq!(parser.next(b'['), Out::Nothing);
                for _ in 0..12 {
                    assert_eq!(parser.next(i), Out::Nothing);
                }
                assert_eq!(parser.next(f), Out::CSIIntermediateOverflow);

                assert_eq!(parser.next(0x1b), Out::Nothing);
                assert_eq!(parser.next(b'['), Out::Nothing);
                for _ in 0..11 {
                    assert_eq!(parser.next(p), Out::Nothing);
                }
                assert_eq!(parser.next(i), Out::Nothing);
                assert_eq!(parser.next(f), Out::CSISequenceTooLarge);
            }
        }
    }

    parser.cfg.csi_silent_intermediate_overflow = true;
    parser.cfg.csi_silent_sequence_overflow = true;

    assert_eq!(parser.next(0x1b), Out::Nothing);
    assert_eq!(parser.next(b'['), Out::Nothing);
    for i in 0x20..=0x25u8 {
        assert_eq!(parser.next(i), Out::Nothing);
    }
    assert_eq!(parser.next(0x40), Out::CSI(CSI(&[0x20, 0x21, 0x22, 0x23, 0x40])));

    assert_eq!(parser.next(0x1b), Out::Nothing);
    assert_eq!(parser.next(b'['), Out::Nothing);
    for p in 0x30..0x3Fu8 {
        assert_eq!(parser.next(p), Out::Nothing);
    }
    for i in 0x20..=0x25u8 {
        assert_eq!(parser.next(i), Out::Nothing);
    }
    assert_eq!(
        parser.next(0x40),
        Out::CSI(CSI(&[0x30, 0x31, 0x32, 0x33, 0x34, 0x35, 0x36, 0x20, 0x21, 0x22, 0x23, 0x40]))
    );

    parser.cfg.max_immediate_count = 12;
    assert_eq!(parser.next(0x1b), Out::Nothing);
    assert_eq!(parser.next(b'['), Out::Nothing);
    for p in 0x30..0x3Fu8 {
        assert_eq!(parser.next(p), Out::Nothing);
    }
    for i in 0x20..0x2Fu8 {
        assert_eq!(parser.next(i), Out::Nothing);
    }
    assert_eq!(
        parser.next(0x40),
        Out::CSI(CSI(&[0x20, 0x21, 0x22, 0x23, 0x24, 0x25, 0x26, 0x27, 0x28, 0x29, 0x2A, 0x40]))
    );

    assert_eq!(parser.next(0x1b), Out::Nothing);
    assert_eq!(parser.next(b'['), Out::Nothing);
    for p in (0x30..0x3Fu8).rev() {
        assert_eq!(parser.next(p), Out::Nothing);
    }
    for i in 0x20..0x2Fu8 {
        assert_eq!(parser.next(i), Out::Nothing);
    }
    assert_eq!(
        parser.next(0x40),
        Out::CSI(CSI(&[0x3E, 0x20, 0x21, 0x22, 0x23, 0x24, 0x25, 0x26, 0x27, 0x28, 0x29, 0x40]))
    );
}

#[test]
fn test_csi() {
    let mut parser = SizedAnsiParser::<12>::new();
    csi_cases(&mut parser);
    assert_eq!(parser.next(b'a'), Out::Data('a'));
}

#[test]
fn csi() {
    let mut parser = SizedAnsiParser::<12>::new();
    parser.cfg.max_immediate_count = 4;
    csi_cases(&mut parser);
    assert_eq!(parser.next(0x1b), Out::Nothing);
    assert_eq!(parser.next(b'['), Out::Nothing);
    assert_eq!(parser.next(b'm'), Out::CSI(CSI(b"m")));
}

fn encode(c: u32, vec: &mut Vec<u8>) {
    let start = vec.len();
    if c < 0x80 {
        return vec.insert(start, c as u8);
    }

    vec.insert(start, (((c >> (6 * 0)) as u8) & 0b111111) | 0b10000000);
    if c < 0x800 {
        return vec.insert(start, ((c >> (6 * 1)) as u8 & 0b11111) | 0b11000000);
    }
    vec.insert(start, (((c >> (6 * 1)) as u8) & 0b111111) | 0b10000000);
    if c < 10000 {
        return vec.insert(start, ((c >> (6 * 2)) as u8 & 0b1111) | 0b11100000);
    }
    vec.insert(start, (((c >> (6 * 2)) as u8) & 0b111111) | 0b10000000);
    if c < 200000 {
        return vec.insert(start, ((c >> (6 * 3)) as u8 & 0b111) | 0b11110000);
    }
    vec.insert(start, (((c >> (6 * 3)) as u8) & 0b111111) | 0b10000000);
    if c < 4000000 {
        return vec.insert(start, ((c >> (6 * 4)) as u8 & 0b11) | 0b11111000);
    }
    vec.insert(start, (((c >> (6 * 4)) as u8) & 0b111111) | 0b10000000);
    vec.insert(start, ((c >> (6 * 5)) as u8 & 0b1) | 0b11111100)
}

fn check_encoded(ansi: &mut SizedAnsiParser<256>, c: u32, vec: &mut Vec<u8>) {
    vec.clear();
    encode(c, vec);

    ansi.cfg.bit8_enabled = true;
    assert_eq!(ansi.next(0x00), Out::C0(C0::NUL));
    assert_eq!(ansi.next(0x1F), Out::C0(C0::US));
    for (i, b) in vec.iter().copied().enumerate() {
        if i == vec.len() - 1 {
            if let Some(ch) = char::from_u32(c) {
                assert_eq!(ansi.next(b), Out::Data(ch));
            } else {
                assert_eq!(ansi.next(b), Out::InvalidCodepoint(c));
            }
        } else {
            assert_eq!(ansi.next(b), Out::Nothing);
        }
    }
    assert_eq!(ansi.next(0x80), Out::C1(C1::PAD));
    assert_eq!(ansi.next(0x9F), Out::C1(C1::APC));
    assert_eq!(ansi.next(0x9C), Out::C1(C1::ST));

    ansi.cfg.bit8_enabled = false;
    assert_eq!(ansi.next(0x00), Out::C0(C0::NUL));
    assert_eq!(ansi.next(0x1F), Out::C0(C0::US));
    for (i, b) in vec.iter().copied().enumerate() {
        if i == vec.len() - 1 {
            if let Some(ch) = char::from_u32(c) {
                assert_eq!(ansi.next(b), Out::Data(ch));
            } else {
                assert_eq!(ansi.next(b), Out::InvalidCodepoint(c));
            }
        } else {
            assert_eq!(ansi.next(b), Out::Nothing);
        }
    }
    assert_eq!(ansi.next(0x80), Out::Data('\u{80}'));
    assert_eq!(ansi.next(0x9E), Out::Data('\u{9E}'));
}

fn encoded_range(ansi: &mut SizedAnsiParser<256>) {
    ansi.cfg.utf8 = true;
    ansi.cfg.del_special = false;
    ansi.cfg.space_special = false;

    // Every value up to the end of the Unicode range, then a spread of the
    // values that five- and six-byte sequences carry.
    let mut vec = Vec::new();
    for c in 0x32..=0x10FFFFu32 {
        check_encoded(ansi, c, &mut vec);
    }
    let mut c: u32 = 0x110000;
    while c <= u32::MAX >> 1 {
        check_encoded(ansi, c, &mut vec);
        c += 4093;
    }
    check_encoded(ansi, u32::MAX >> 1, &mut vec);
}

#[test]
fn test_utf8() {
    let mut ansi = SizedAnsiParser::<256>::new();
    encoded_range(&mut ansi);
    assert_eq!(ansi.next(b'a'), Out::Data('a'));
}

#[test]
fn utf8() {
    let mut ansi = SizedAnsiParser::<256>::new();
    encoded_range(&mut ansi);
    assert_eq!(ansi.next(0xC3), Out::Nothing);
    assert_eq!(ansi.next(0xA9), Out::Data('é'));

    let mut ansi = SizedAnsiParser::<256>::new();
    ansi.cfg.bit8_enabled = true;
    let bytes = [0xC3, 0x80, 0x80, 0xC3, 0x00];
    let expected = [Out::Nothing, Out::Data('À'), Out::C1(C1::PAD), Out::Nothing, Out::InvalidUtf8Sequence];
    for (i, (b, exp)) in bytes.into_iter().zip(expected.into_iter()).enumerate() {
        assert_eq!(ansi.next(b), exp, "index {i} does not match with expected output");
    }
}

fn invalid_sequence(data: &[u8]) {
    let mut ansi = SizedAnsiParser::<0>::new();
    ansi.cfg.utf8 = true;
    for (i, b) in data.iter().copied().enumerate() {
        if i == data.len() - 1 {
            assert_eq!(ansi.next(b), Out::InvalidUtf8Sequence);
        } else {
            assert_eq!(ansi.next(b), Out::Nothing);
        }
    }
}

fn invalid_cases() {
    invalid_sequence(&[0b11000000, 0]);

    invalid_sequence(&[0b11100000, 0b10000000, 0]);
    invalid_sequence(&[0b11100000, 0]);

    invalid_sequence(&[0b11110000, 0b10000000, 0b10000000, 0]);
    invalid_sequence(&[0b11110000, 0b10000000, 0]);
    invalid_sequence(&[0b11110000, 0]);

    invalid_sequence(&[0b11111000, 0b10000000, 0b10000000, 0b10000000, 0]);
    invalid_sequence(&[0b11111000, 0b10000000, 0b10000000, 0]);
    invalid_sequence(&[0b11111000, 0b10000000, 0]);
    invalid_sequence(&[0b11111000, 0]);

    invalid_sequence(&[0b11111100, 0b10000000, 0b10000000, 0b10000000, 0b10000000, 0]);
    invalid_sequence(&[0b11111100, 0b10000000, 0b10000000, 0b10000000, 0]);
    invalid_sequence(&[0b11111100, 0b10000000, 0b10000000, 0]);
    invalid_sequence(&[0b11111100, 0b10000000, 0]);
    invalid_sequence(&[0b11111100, 0]);
}

#[test]
fn test_invalid_utf8() {
    invalid_cases();
    invalid_sequence(&[0b11000000, 0]);
}

#[test]
fn invalid_utf8() {
    invalid_cases();
    invalid_sequence(&[0b11100000, 0b10000000, 0]);
}
