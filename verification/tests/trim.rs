use pi_telemetry::trim::{
    space_at_end, space_at_start, space_byte, space_pair, space_triple, trim, trim_end,
    trim_start,
};

const UNICODE_SPACES: [char; 25] = [
    '\u{9}', '\u{a}', '\u{b}', '\u{c}', '\u{d}', ' ', '\u{85}', '\u{a0}', '\u{1680}',
    '\u{2000}', '\u{2001}', '\u{2002}', '\u{2003}', '\u{2004}', '\u{2005}', '\u{2006}',
    '\u{2007}', '\u{2008}', '\u{2009}', '\u{200a}', '\u{2028}', '\u{2029}', '\u{202f}',
    '\u{205f}', '\u{3000}',
];

#[test]
fn trim_end_takes_white_space_off_the_end() {
    assert_eq!(trim_end(b"45678\n"), b"45678");
    assert_eq!(trim_end(b"45678 \t\r\n"), b"45678");
    assert_eq!(trim_end(b" 45678"), b" 45678");
    assert_eq!(trim_end(b"4 5\n"), b"4 5");
    assert_eq!(trim_end(b" \n"), b"");
    assert_eq!(trim_end(b""), b"");
}

#[test]
fn trim_start_takes_white_space_off_the_start() {
    assert_eq!(trim_start(b"  5\n"), b"5\n");
    assert_eq!(trim_start(b"\t\n5"), b"5");
    assert_eq!(trim_start(b"5 6"), b"5 6");
    assert_eq!(trim_start(b"  "), b"");
    assert_eq!(trim_start(b""), b"");
}

#[test]
fn trim_takes_white_space_off_both_ends() {
    assert_eq!(trim(b"  5 \n"), b"5");
    assert_eq!(trim(b" a b "), b"a b");
    assert_eq!(trim(b"\n"), b"");
}

#[test]
fn trim_takes_a_no_break_space_off() {
    assert_eq!(trim("5\u{a0}\n".as_bytes()), b"5");
    assert_eq!(trim("\u{a0}5".as_bytes()), b"5");
    assert_eq!(trim_end("45678\u{a0}\n".as_bytes()), b"45678");
    assert_eq!(trim("5\u{3000}\n".as_bytes()), b"5");
    assert_eq!(trim("\u{2003}\u{85} 5 \u{1680}\u{205f}".as_bytes()), b"5");
}

#[test]
fn trim_takes_every_white_space_character_off() {
    for c in UNICODE_SPACES {
        assert!(c.is_whitespace());
        let text = format!("{}\n{}7 8{} {}", c, c, c, c);
        assert_eq!(trim(text.as_bytes()), b"7 8", "{:?}", c);
        assert_eq!(trim_end(text.as_bytes()), text.trim_end().as_bytes(), "{:?}", c);
        assert_eq!(trim_start(text.as_bytes()), text.trim_start().as_bytes(), "{:?}", c);
    }
}

#[test]
fn trim_agrees_with_the_standard_trim_for_every_character() {
    let mut code: u32 = 0;
    while code <= 0x10ffff {
        if let Some(c) = char::from_u32(code) {
            let text = format!("{}5{}", c, c);
            assert_eq!(trim(text.as_bytes()), text.trim().as_bytes(), "{:x}", code);
            if code % 97 == 0 || c.is_whitespace() {
                let text = format!(" {}a{}b{}\n", c, c, c);
                assert_eq!(trim(text.as_bytes()), text.trim().as_bytes(), "{:x}", code);
                assert_eq!(trim_end(text.as_bytes()), text.trim_end().as_bytes(), "{:x}", code);
                assert_eq!(
                    trim_start(text.as_bytes()),
                    text.trim_start().as_bytes(),
                    "{:x}",
                    code
                );
            }
        }
        code += 1;
    }
}

#[test]
fn trim_leaves_characters_that_only_look_like_space() {
    for text in ["\u{200b}5\u{200b}", "\u{feff}5", "5\u{180e}", "\u{1f}5\u{1f}", "\u{2060}5"] {
        assert_eq!(trim(text.as_bytes()), text.as_bytes());
    }
}

#[test]
fn trim_leaves_broken_encodings_alone() {
    assert_eq!(trim_end(&[b'5', 0xa0]), &[b'5', 0xa0]);
    assert_eq!(trim_end(&[b'5', 0x80, 0x80]), &[b'5', 0x80, 0x80]);
    assert_eq!(trim_start(&[0xc2, b'5']), &[0xc2, b'5']);
    assert_eq!(trim_start(&[0xe2, 0x80]), &[0xe2, 0x80]);
}

#[test]
fn space_patterns_are_the_encodings_of_white_space() {
    let mut count = 0;
    let mut code: u32 = 0;
    while code <= 0x10ffff {
        if let Some(c) = char::from_u32(code) {
            let mut buffer = [0u8; 4];
            let bytes = c.encode_utf8(&mut buffer).as_bytes();
            let found = match bytes.len() {
                1 => space_byte(bytes[0]),
                2 => space_pair(bytes[0], bytes[1]),
                3 => space_triple(bytes[0], bytes[1], bytes[2]),
                _ => false,
            };
            assert_eq!(found, c.is_whitespace(), "{:x}", code);
            if found {
                count += 1;
            }
        }
        code += 1;
    }
    assert_eq!(count, 25);
}

#[test]
fn space_at_the_ends_is_measured_in_bytes() {
    let text = "\u{3000}\u{a0} 5\n\u{85}\u{2028}".as_bytes();
    assert_eq!(space_at_start(text, 0), 3);
    assert_eq!(space_at_start(text, 3), 2);
    assert_eq!(space_at_start(text, 5), 1);
    assert_eq!(space_at_start(text, 6), 0);
    assert_eq!(space_at_start(text, text.len()), 0);
    assert_eq!(space_at_end(text, text.len()), 3);
    assert_eq!(space_at_end(text, text.len() - 3), 2);
    assert_eq!(space_at_end(text, text.len() - 5), 1);
    assert_eq!(space_at_end(text, text.len() - 6), 0);
    assert_eq!(space_at_end(text, 0), 0);
}
