use tar_light::tar::text::{
    chars_of, decode_payload_text, decode_text, is_whitespace_char, same_text, trim_bounds,
    trim_end_nul_len,
};

fn std_field_text(bytes: &[u8]) -> String {
    String::from_utf8_lossy(bytes).trim_end_matches('\0').trim().to_string()
}

#[test]
fn white_space_is_what_the_standard_library_takes_for_it() {
    for u in 0..=0x10FFFFu32 {
        if let Some(c) = char::from_u32(u) {
            assert_eq!(is_whitespace_char(c), c.is_whitespace(), "U+{:04X}", u);
        }
    }
}

#[test]
fn white_space_examples() {
    assert!(is_whitespace_char(' '));
    assert!(is_whitespace_char('\t'));
    assert!(is_whitespace_char('\n'));
    assert!(is_whitespace_char('\u{a0}'));
    assert!(is_whitespace_char('\u{3000}'));
    assert!(!is_whitespace_char('\0'));
    assert!(!is_whitespace_char('a'));
    assert!(!is_whitespace_char('\u{200b}'));
}

#[test]
fn chars_of_gives_every_character() {
    assert_eq!(chars_of(""), Vec::<char>::new());
    assert_eq!(chars_of("abc"), vec!['a', 'b', 'c']);
    assert_eq!(chars_of("é\0あ"), vec!['é', '\0', 'あ']);
}

#[test]
fn trim_end_nul_len_counts_what_is_left() {
    let text: Vec<char> = "ab\0\0".chars().collect();
    assert_eq!(trim_end_nul_len(&text, 4), 2);
    assert_eq!(trim_end_nul_len(&text, 3), 2);
    assert_eq!(trim_end_nul_len(&text, 2), 2);
    assert_eq!(trim_end_nul_len(&text, 0), 0);
    let inner: Vec<char> = "a\0b".chars().collect();
    assert_eq!(trim_end_nul_len(&inner, 3), 3);
    let all: Vec<char> = "\0\0\0".chars().collect();
    assert_eq!(trim_end_nul_len(&all, 3), 0);
}

#[test]
fn trim_bounds_finds_the_trimmed_part() {
    let text: Vec<char> = "  ab c \t".chars().collect();
    assert_eq!(trim_bounds(&text, 0, text.len()), (2, 6));
    assert_eq!(trim_bounds(&text, 3, 5), (3, 4));
    let blank: Vec<char> = " \n ".chars().collect();
    let (a, b) = trim_bounds(&blank, 0, 3);
    assert_eq!(a, b);
    assert_eq!(trim_bounds(&text, 4, 4), (4, 4));
}

#[test]
fn decode_text_drops_the_padding() {
    let mut field = [0u8; 100];
    field[..9].copy_from_slice(b"hello.txt");
    assert_eq!(decode_text(&field), "hello.txt");
    assert_eq!(decode_text(&[0u8; 32]), "");
    assert_eq!(decode_text(b""), "");
}

#[test]
fn decode_text_trims_nul_first_and_white_space_second() {
    assert_eq!(decode_text(b"  name \0\0"), "name");
    assert_eq!(decode_text(b"name\0 "), "name\0");
    assert_eq!(decode_text(b"\0name"), "\0name");
    assert_eq!(decode_text(b"a\0b\0"), "a\0b");
    assert_eq!(decode_text(b" \t\n"), "");
    assert_eq!(decode_text("\u{3000}x\u{a0}".as_bytes()), "x");
}

#[test]
fn decode_text_replaces_what_is_no_utf8() {
    assert_eq!(decode_text(&[b'a', 0xff, b'b', 0, 0]), "a\u{fffd}b");
    assert_eq!(decode_text(&[0xe3, 0x81]), "\u{fffd}");
    assert_eq!(decode_text(&[0xc0, 0x80]), "\u{fffd}\u{fffd}");
    assert_eq!(decode_text(&[0xe3, 0x81, 0x82, 0xe3]), "あ\u{fffd}");
}

#[test]
fn decode_text_agrees_with_the_standard_library() {
    let mut state: u64 = 0x2545F4914F6CDD1D;
    for round in 0..4000 {
        let len = (round % 40) as usize;
        let mut bytes = Vec::with_capacity(len);
        for _ in 0..len {
            state ^= state << 13;
            state ^= state >> 7;
            state ^= state << 17;
            let pick = (state >> 32) as u8;
            let byte = match pick % 8 {
                0 => 0,
                1 => b' ',
                2 => b'\n',
                3 => 0xc2,
                4 => 0xa0,
                5 => 0xe3,
                6 => 0x80,
                _ => (state >> 40) as u8,
            };
            bytes.push(byte);
        }
        assert_eq!(decode_text(&bytes), std_field_text(&bytes), "{:?}", bytes);
        assert_eq!(
            decode_payload_text(&bytes),
            String::from_utf8_lossy(&bytes).trim_end_matches('\0').to_string(),
            "{:?}",
            bytes
        );
    }
}

#[test]
fn decode_payload_text_keeps_white_space() {
    assert_eq!(decode_payload_text(b" a b \0\0"), " a b ");
    assert_eq!(decode_payload_text(b"line\n"), "line\n");
    assert_eq!(decode_payload_text(b"\0\0"), "");
    assert_eq!(decode_payload_text(&[0xff, 0]), "\u{fffd}");
}

#[test]
fn same_text_compares_characters() {
    assert!(same_text("", ""));
    assert!(same_text("foo.txt", "foo.txt"));
    assert!(!same_text("foo.txt", "foo.txT"));
    assert!(!same_text("foo", "foo.txt"));
    assert!(!same_text("foo.txt", "foo"));
    assert!(same_text("日本語", "日本語"));
    assert!(!same_text("e\u{301}", "\u{e9}"));
}
