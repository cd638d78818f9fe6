use ansi::{
    CSIParser, Color, Config, Fp, Fs, GraphicsRendition, KnownCSI, Out, SelectGraphic, SizedAnsiParser,
    UnsizedAnsiParser, C0, C1, CSI, CSIPart, RGB, VGA,
};

fn feed<'p, const N: usize>(parser: &'p mut SizedAnsiParser<N>, bytes: &[u8]) -> Vec<String> {
    let mut out = Vec::new();
    for &b in bytes {
        out.push(format!("{:?}", parser.next(b)));
    }
    out
}

fn attributes(body: &[u8]) -> Vec<SelectGraphic> {
    match CSIParser::new(body).parse() {
        KnownCSI::SelectGraphicRendition(mut g) => {
            let mut out = Vec::new();
            while let Some(a) = g.next() {
                out.push(a);
            }
            out
        },
        other => panic!("not SGR: {other:?}"),
    }
}

#[test]
fn ground_controls_are_named() {
    let names = [
        C0::NUL, C0::SOH, C0::STX, C0::ETX, C0::EOT, C0::ENQ, C0::ACK, C0::BEL, C0::BS, C0::HT, C0::LF,
        C0::VT, C0::FF, C0::CR, C0::SO, C0::SI, C0::DLE, C0::DC1, C0::DC2, C0::DC3, C0::DC4, C0::NAK,
        C0::SYN, C0::ETB,
    ];
    let mut parser = SizedAnsiParser::<8>::new();
    for (b, name) in names.iter().enumerate() {
        assert_eq!(parser.next(b as u8), Out::C0(*name));
    }
    assert_eq!(parser.next(0x19), Out::C0(C0::EM));
    assert_eq!(parser.next(0x1C), Out::C0(C0::FS));
    assert_eq!(parser.next(0x1D), Out::C0(C0::GS));
    assert_eq!(parser.next(0x1E), Out::C0(C0::RS));
    assert_eq!(parser.next(0x1F), Out::C0(C0::US));
    assert_eq!(parser.next(0x18), Out::C0(C0::CAN));
    assert_eq!(parser.next(0x1A), Out::C0(C0::SUB));
    assert_eq!(C0::from_byte(0x1B), None);
}

#[test]
fn space_and_delete_options() {
    let mut parser = SizedAnsiParser::<8>::new();
    assert_eq!(parser.next(0x7F), Out::DEL);
    assert_eq!(parser.next(0x20), Out::SP);
    parser.cfg.del_special = false;
    parser.cfg.space_special = false;
    assert_eq!(parser.next(0x7F), Out::Data('\u{7F}'));
    assert_eq!(parser.next(0x20), Out::Data(' '));
    assert_eq!(parser.next(b'a'), Out::Data('a'));
}

#[test]
fn default_config() {
    let c = Config::new();
    assert!(!c.bit8_enabled);
    assert!(c.del_special && c.space_special);
    assert!(c.csi_silent_sequence_overflow && c.csi_silent_intermediate_overflow);
    assert!(c.nf_silent_sequence_overflow);
    assert!(c.utf8 && c.utf8_strings);
    assert_eq!(c.max_immediate_count, 4);
}

#[test]
fn csi_with_marker_and_intermediates() {
    let mut parser = SizedAnsiParser::<16>::new();
    for f in [0x40u8, b'm', 0x7E] {
        for b in [0x1B, b'[', b'?', b' ', b'!', b'"', b'#'] {
            assert_eq!(parser.next(b), Out::Nothing);
        }
        assert_eq!(parser.next(f), Out::CSI(CSI(&[b'?', b' ', b'!', b'"', b'#', f])));
        for b in [0x1B, b'[', b'1', b';', b'2'] {
            assert_eq!(parser.next(b), Out::Nothing);
        }
        assert_eq!(parser.next(f), Out::CSI(CSI(&[b'1', b';', b'2', f])));
    }
}

#[test]
fn intermediate_overflow() {
    let mut parser = SizedAnsiParser::<16>::new();
    parser.cfg.csi_silent_intermediate_overflow = false;
    for b in [0x1B, b'[', b'?', 0x20, 0x21, 0x22, 0x23, 0x24] {
        assert_eq!(parser.next(b), Out::Nothing);
    }
    assert_eq!(parser.next(b'm'), Out::CSIIntermediateOverflow);
    parser.cfg.csi_silent_intermediate_overflow = true;
    for b in [0x1B, b'[', b'?', 0x20, 0x21, 0x22, 0x23, 0x24, 0x25] {
        assert_eq!(parser.next(b), Out::Nothing);
    }
    assert_eq!(parser.next(b'm'), Out::CSI(CSI(&[b'?', 0x20, 0x21, 0x22, 0x23, b'm'])));
}

#[test]
fn sequence_too_large() {
    let mut parser = SizedAnsiParser::<3>::new();
    parser.cfg.csi_silent_sequence_overflow = false;
    for b in [0x1B, b'[', b'1', b'2', b'3', b'4'] {
        assert_eq!(parser.next(b), Out::Nothing);
    }
    assert_eq!(parser.next(b'm'), Out::CSISequenceTooLarge);
    for b in [0x1B, b'[', b'1', b'2', b'3'] {
        assert_eq!(parser.next(b), Out::Nothing);
    }
    assert_eq!(parser.next(b'm'), Out::CSISequenceTooLarge);
    parser.cfg.csi_silent_sequence_overflow = true;
    for b in [0x1B, b'[', b'1', b'2', b'3'] {
        assert_eq!(parser.next(b), Out::Nothing);
    }
    assert_eq!(parser.next(b'm'), Out::CSI(CSI(b"12m")));
}

#[test]
fn csi_in_zero_sized_buffer() {
    let mut parser = SizedAnsiParser::<0>::new();
    for b in [0x1B, b'[', b'1'] {
        assert_eq!(parser.next(b), Out::Nothing);
    }
    assert_eq!(parser.next(b'm'), Out::CSISequenceTooLarge);
    assert_eq!(parser.next(b'a'), Out::Data('a'));
}

#[test]
fn malformed_csi_is_ignored() {
    let mut parser = SizedAnsiParser::<16>::new();
    for b in [0x1B, b'[', b'1', 0x0A, b'2'] {
        assert_eq!(parser.next(b), Out::Nothing);
    }
    assert_eq!(parser.next(b'm'), Out::Nothing);
    assert_eq!(parser.next(b'a'), Out::Data('a'));
}

#[test]
fn cancel_aborts_sequences() {
    let mut parser = SizedAnsiParser::<16>::new();
    assert_eq!(parser.next(0x1B), Out::Nothing);
    assert_eq!(parser.next(b'['), Out::Nothing);
    assert_eq!(parser.next(b'1'), Out::Nothing);
    assert_eq!(parser.next(0x18), Out::C0(C0::CAN));
    assert_eq!(parser.next(b'm'), Out::Data('m'));
    assert_eq!(parser.next(0x1B), Out::Nothing);
    assert_eq!(parser.next(b']'), Out::C1(C1::OSC));
    assert_eq!(parser.next(0x1A), Out::C0(C0::SUB));
    assert_eq!(parser.next(b'x'), Out::Data('x'));
}

#[test]
fn escape_classes() {
    let mut parser = SizedAnsiParser::<16>::new();
    assert_eq!(feed(&mut parser, &[0x1B, b'7']), vec!["Nothing".to_string(), format!("{:?}", Out::Fp(Fp::DECSC))]);
    assert_eq!(parser.next(0x1B), Out::Nothing);
    assert_eq!(parser.next(b'D'), Out::C1(C1::IND));
    assert_eq!(parser.next(0x1B), Out::Nothing);
    assert_eq!(parser.next(b'c'), Out::Fs(Fs::RIS));
    assert_eq!(parser.next(0x1B), Out::Nothing);
    assert_eq!(parser.next(b'~'), Out::Fs(Fs::LS1R));
    assert_eq!(parser.next(0x1B), Out::Nothing);
    assert_eq!(parser.next(0x7F), Out::InvalidEscapeByte(0x7F));
    assert_eq!(parser.next(0x1B), Out::Nothing);
    assert_eq!(parser.next(0x05), Out::InvalidEscapeByte(0x05));
}

#[test]
fn eight_bit_csi() {
    let mut parser = SizedAnsiParser::<16>::new();
    parser.cfg.bit8_enabled = true;
    assert_eq!(parser.next(0x9B), Out::Nothing);
    assert_eq!(parser.next(b'2'), Out::Nothing);
    assert_eq!(parser.next(b'J'), Out::CSI(CSI(b"2J")));
}

#[test]
fn nf_sequences() {
    let mut parser = SizedAnsiParser::<2>::new();
    assert_eq!(parser.next(0x1B), Out::Nothing);
    assert_eq!(parser.next(b' '), Out::Nothing);
    assert_eq!(parser.next(b'F'), Out::nF(b" "));
    assert_eq!(parser.next(0x1B), Out::Nothing);
    assert_eq!(parser.next(b'('), Out::Nothing);
    assert_eq!(parser.next(0x07), Out::nFInvalidSequence);
    parser.cfg.nf_silent_sequence_overflow = false;
    for b in [0x1B, b'!', b'"', b'#'] {
        assert_eq!(parser.next(b), Out::Nothing);
    }
    assert_eq!(parser.next(b'0'), Out::nFSequenceTooLarge);
    parser.cfg.nf_silent_sequence_overflow = true;
    for b in [0x1B, b'!', b'"', b'#'] {
        assert_eq!(parser.next(b), Out::Nothing);
    }
    assert_eq!(parser.next(b'0'), Out::nF(b"!\""));
}

#[test]
fn string_modes() {
    let mut parser = SizedAnsiParser::<16>::new();
    assert_eq!(parser.next(0x1B), Out::Nothing);
    assert_eq!(parser.next(b']'), Out::C1(C1::OSC));
    assert_eq!(parser.next(b'0'), Out::OSData('0'));
    assert_eq!(parser.next(0x07), Out::C0(C0::BEL));
    assert_eq!(parser.next(0xC3), Out::Nothing);
    assert_eq!(parser.next(0xA9), Out::OSData('é'));
    parser.cfg.string_pass_through_c0 = false;
    assert_eq!(parser.next(0x07), Out::Nothing);
    assert_eq!(parser.next(0x1B), Out::Nothing);
    assert_eq!(parser.next(b'\\'), Out::C1(C1::ST));

    for (intro, kind) in [(b'P', C1::DCS), (b'X', C1::SOS), (b'^', C1::PM), (b'_', C1::APC)] {
        assert_eq!(parser.next(0x1B), Out::Nothing);
        assert_eq!(parser.next(intro), Out::C1(kind));
        let data = parser.next(b'q');
        let expected = match intro {
            b'P' => Out::DCSData('q'),
            b'X' => Out::SData('q'),
            b'^' => Out::PMData('q'),
            _ => Out::APCData('q'),
        };
        assert_eq!(data, expected);
    }
}

#[test]
fn utf8_scalars_decode() {
    let mut parser = SizedAnsiParser::<8>::new();
    for ch in ['é', 'ß', '€', '中', '😀', '\u{10FFFF}'] {
        let mut buf = [0u8; 4];
        let bytes = ch.encode_utf8(&mut buf).as_bytes().to_vec();
        for (i, b) in bytes.iter().enumerate() {
            let out = parser.next(*b);
            if i + 1 == bytes.len() {
                assert_eq!(out, Out::Data(ch));
            } else {
                assert_eq!(out, Out::Nothing);
            }
        }
    }
    assert_eq!(parser.next(0xED), Out::Nothing);
    assert_eq!(parser.next(0xA0), Out::Nothing);
    assert_eq!(parser.next(0x80), Out::InvalidCodepoint(0xD800));
    assert_eq!(parser.next(0xE2), Out::Nothing);
    assert_eq!(parser.next(0x82), Out::Nothing);
    assert_eq!(parser.next(b'a'), Out::InvalidUtf8Sequence);
    assert_eq!(parser.next(b'a'), Out::Data('a'));
}

#[test]
fn reset_matches_fresh_parser() {
    let input: &[u8] = &[b'A', 0x1B, b'[', b'1', b';', b'2', b'H', 0x41];
    let mut fresh = SizedAnsiParser::<8>::new();
    let expected = feed(&mut fresh, input);

    for partial in [&[0xE2u8, 0x82][..], &[0x1B, b'[', b'?', b'1'][..], &[0x1B, b']', b'x'][..], &[0x1B, b' '][..]] {
        let mut parser = SizedAnsiParser::<8>::new();
        for &b in partial {
            parser.next(b);
        }
        parser.reset();
        assert_eq!(feed(&mut parser, input), expected);
    }
}

#[test]
fn unsized_parser_borrows_its_buffer() {
    let mut region = [0u8; 6];
    let mut parser = UnsizedAnsiParser::new(&mut region);
    assert_eq!(parser.next(0x1B), Out::Nothing);
    assert_eq!(parser.next(b'['), Out::Nothing);
    assert_eq!(parser.next(b'?'), Out::Nothing);
    assert_eq!(parser.next(b'2'), Out::Nothing);
    assert_eq!(parser.next(b'5'), Out::Nothing);
    assert_eq!(parser.next(b'h'), Out::CSI(CSI(b"?25h")));
    parser.next(0x1B);
    parser.reset();
    assert_eq!(parser.next(b'z'), Out::Data('z'));
}

#[test]
fn show_and_hide_cursor_from_stream() {
    let mut parser = SizedAnsiParser::<16>::new();
    for (last, expected) in [(b'h', KnownCSI::ShowCursor), (b'l', KnownCSI::HideCursor)] {
        for b in [0x1B, b'[', b'?', b'2', b'5'] {
            assert_eq!(parser.next(b), Out::Nothing);
        }
        match parser.next(last) {
            Out::CSI(csi) => {
                assert_eq!(csi.0, &[b'?', b'2', b'5', last]);
                assert_eq!(csi.parser().parse(), expected);
            },
            other => panic!("{other:?}"),
        }
    }
}

#[test]
fn sgr_bold_then_faint() {
    assert_eq!(attributes(b"1;2m"), vec![SelectGraphic::Bold, SelectGraphic::Faint]);
}

#[test]
fn sgr_colon_truecolor() {
    assert_eq!(attributes(b"38:2::255:0:0m"), vec![SelectGraphic::Fg(Color::RGB(RGB::new(255, 0, 0)))]);
    assert_eq!(attributes(b"38:2:255:0:0m"), vec![SelectGraphic::Fg(Color::RGB(RGB::new(255, 0, 0)))]);
}

#[test]
fn sgr_colors() {
    assert_eq!(attributes(b"m"), vec![SelectGraphic::Reset]);
    assert_eq!(attributes(b"0m"), vec![SelectGraphic::Reset]);
    assert_eq!(
        attributes(b"31;42;95;107;39;49m"),
        vec![
            SelectGraphic::Fg(Color::Red),
            SelectGraphic::Bg(Color::Green),
            SelectGraphic::Fg(Color::BrightMagenta),
            SelectGraphic::Bg(Color::BrightWhite),
            SelectGraphic::Fg(Color::Default),
            SelectGraphic::Bg(Color::Default),
        ]
    );
    assert_eq!(attributes(b"38;5;196m"), vec![SelectGraphic::Fg(Color::VGA(VGA(196)))]);
    assert_eq!(attributes(b"48;2;1;2;3m"), vec![SelectGraphic::Bg(Color::RGB(RGB { r: 1, g: 2, b: 3 }))]);
    assert_eq!(attributes(b"58:5:7m"), vec![SelectGraphic::UnderlineColor(Color::VGA(VGA(7)))]);
    assert_eq!(attributes(b"59m"), vec![SelectGraphic::UnderlineColor(Color::Default)]);
    assert_eq!(attributes(b"38m"), vec![SelectGraphic::Fg(Color::LongNotPresent)]);
    assert_eq!(attributes(b"38;7m"), vec![SelectGraphic::Fg(Color::InvalidLong(7))]);
    assert_eq!(attributes(b"38;5;256m"), vec![SelectGraphic::Fg(Color::MalformedVGA)]);
    assert_eq!(attributes(b"38;2;1;256;3m"), vec![SelectGraphic::Fg(Color::MalformedVGA)]);
    assert_eq!(attributes(b"38;2;1:2m"), vec![SelectGraphic::Fg(Color::MalformedRGB)]);
    assert_eq!(
        attributes(b"12;63;99m"),
        vec![
            SelectGraphic::AlternativeFont(1),
            SelectGraphic::IdeogramDoubleUnderline,
            SelectGraphic::Unknown(CSIPart::Param(Some(99))),
        ]
    );
}

#[test]
fn palette() {
    assert_eq!(VGA(1).as_rgb(), RGB::new(170, 0, 0));
    assert_eq!(VGA(16).as_rgb(), RGB::new(0, 0, 0));
    assert_eq!(VGA(196).as_rgb(), RGB::new(0xff, 0, 0));
    assert_eq!(VGA(231).as_rgb(), RGB::new(0xff, 0xff, 0xff));
    assert_eq!(VGA(110).as_rgb(), RGB::new(0x87, 0xaf, 0xd7));
    assert_eq!(VGA(232).as_rgb(), RGB::shade(8));
    assert_eq!(VGA(255).as_rgb(), RGB::shade(238));
    assert_eq!(VGA(9).as_color(), Color::BrightRed);
    assert_eq!(VGA(3).as_color(), Color::Yellow);
    assert_eq!(VGA(100).as_color(), Color::RGB(VGA(100).as_rgb()));
}

#[test]
fn parameters_wrap() {
    assert_eq!(CSIParser::new(b"65537A").parse(), KnownCSI::CursorUp(1));
    assert_eq!(CSIParser::new(b"65535A").parse(), KnownCSI::CursorUp(65535));
}

#[test]
fn unknown_keeps_tokens() {
    let body = b"1;2A";
    match CSIParser::new(body).parse() {
        KnownCSI::Unknown(p) => {
            assert_eq!(p.parts(), [CSIPart::Param(Some(1)), CSIPart::Param(Some(2)), CSIPart::Final(b'A')]);
        },
        other => panic!("{other:?}"),
    }
    assert!(matches!(CSIParser::new(b"1:2A").parse(), KnownCSI::Unknown(_)));
    assert!(matches!(CSIParser::new(b"9K").parse(), KnownCSI::Unknown(_)));
    assert!(matches!(CSIParser::new(b"?99h").parse(), KnownCSI::Unknown(_)));
    assert!(matches!(CSIParser::new(b"=1A").parse(), KnownCSI::Unknown(_)));
}

#[test]
fn fixed_params_and_peeks() {
    let mut p = CSIParser::new(b"?5;;7m");
    assert_eq!(p.special_first(), Some(b'?'));
    assert_eq!(p.special_first(), None);
    assert_eq!(p.final_identifier(), Some(b'm'));
    assert_eq!(p.peek(), Some(CSIPart::Param(Some(5))));
    assert_eq!(p.parse_params([1, 2, 3, 4]), Some([5, 2, 7, 4]));
    assert!(p.empty());

    let mut q = CSIParser::new(b":1:2;3");
    assert_eq!(q.parse_sub_params([9, 9, 9]), Some([9, 9, 9]));
    let mut q = CSIParser::new(b"1?2");
    assert_eq!(q.parse_params([9, 9]), None);
    let mut q = CSIParser::new(b"4:5:6");
    assert_eq!(q.next(), Some(CSIPart::Param(Some(4))));
    assert_eq!(q.parse_sub_params([9, 9, 9]), Some([5, 6, 9]));
    let mut r = CSIParser::new(b"1:2");
    assert_eq!(r.parse_params([0, 0]), None);
    let g = GraphicsRendition(CSIParser::new(b"1"));
    assert_eq!(g.0.peek(), Some(CSIPart::Param(Some(1))));
}

#[test]
fn tokenizers_compare_by_remaining_bytes() {
    assert_eq!(CSIParser::new(b"1;2m"), CSIParser::new(b"1;2m"));
    assert_ne!(CSIParser::new(b"1;2m"), CSIParser::new(b"1;3m"));
    assert_eq!(
        CSIParser::new(b"1;2m").parse(),
        KnownCSI::SelectGraphicRendition(GraphicsRendition(CSIParser::new(b"1;2")))
    );
    let mut p = CSIParser::new(b"?7");
    let q = CSIParser::new(b"7");
    assert_eq!(p.special_first(), Some(b'?'));
    assert_eq!(p.parts(), q.parts());
    let mut r = CSIParser::new(b"x7");
    r.next();
    assert_ne!(r, p);
}

#[test]
fn set_config_replaces_options() {
    let mut parser = SizedAnsiParser::<4>::new();
    let mut cfg = Config::new();
    cfg.del_special = false;
    parser.set_config(cfg);
    assert_eq!(parser.next(0x7F), Out::Data('\u{7F}'));
    let mut region = [0u8; 2];
    let mut lent = UnsizedAnsiParser::new(&mut region);
    cfg.space_special = false;
    lent.set_config(cfg);
    assert_eq!(lent.next(b' '), Out::Data(' '));
}
