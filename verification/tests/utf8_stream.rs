use llm_stream::utf8_stream::{Utf8Error, Utf8Stream};

#[test]
fn whole_characters_are_decoded() {
    let mut decoder = Utf8Stream::new();
    assert_eq!(decoder.decode("h\u{e9}llo \u{20ac} \u{1f600}".as_bytes()), Ok("h\u{e9}llo \u{20ac} \u{1f600}".to_string()));
    assert_eq!(decoder.pending_len(), 0);
    assert_eq!(decoder.finish(), Ok(()));
}

#[test]
fn an_unfinished_character_is_kept_for_the_next_chunk() {
    let bytes = "a\u{20ac}b".as_bytes();
    let mut decoder = Utf8Stream::new();
    assert_eq!(decoder.decode(&bytes[..2]), Ok("a".to_string()));
    assert_eq!(decoder.pending_len(), 1);
    assert_eq!(decoder.decode(&bytes[2..3]), Ok(String::new()));
    assert_eq!(decoder.pending_len(), 2);
    assert_eq!(decoder.decode(&bytes[3..]), Ok("\u{20ac}b".to_string()));
    assert_eq!(decoder.pending_len(), 0);
}

#[test]
fn every_split_point_gives_the_same_text() {
    let text = "\u{feff}z\u{e9}\u{20ac}\u{10348}\u{7ff}\u{800}\u{ffff}\u{10000}\u{10ffff}!";
    let bytes = text.as_bytes();
    for first in 0..=bytes.len() {
        for second in first..=bytes.len() {
            let mut decoder = Utf8Stream::new();
            let mut out = String::new();
            out.push_str(&decoder.decode(&bytes[..first]).unwrap());
            out.push_str(&decoder.decode(&bytes[first..second]).unwrap());
            out.push_str(&decoder.decode(&bytes[second..]).unwrap());
            assert_eq!(out, text);
            assert_eq!(decoder.finish(), Ok(()));
        }
    }
}

#[test]
fn the_text_before_a_malformed_byte_is_handed_out_first() {
    let mut decoder = Utf8Stream::new();
    assert_eq!(decoder.decode(&[b'a', b'b', 0xff, b'c']), Ok("ab".to_string()));
    assert_eq!(decoder.pending_len(), 2);
    assert_eq!(decoder.decode(b"d"), Err(Utf8Error::Malformed));
    assert_eq!(decoder.pending_len(), 3);
    assert_eq!(decoder.decode(b""), Err(Utf8Error::Malformed));
    assert_eq!(decoder.finish(), Err(Utf8Error::Malformed));
}

#[test]
fn malformed_sequences_are_refused() {
    let cases: [&[u8]; 9] = [
        &[0x80],
        &[0xc0, 0x80],
        &[0xc1, 0xbf],
        &[0xe0, 0x80, 0x80],
        &[0xed, 0xa0, 0x80],
        &[0xf0, 0x80, 0x80, 0x80],
        &[0xf4, 0x90, 0x80, 0x80],
        &[0xf5, 0x80, 0x80, 0x80],
        &[0xe2, 0x28, 0xa1],
    ];
    for bytes in cases {
        let mut decoder = Utf8Stream::new();
        assert_eq!(decoder.decode(bytes), Err(Utf8Error::Malformed), "{:x?}", bytes);
        assert_eq!(std::str::from_utf8(bytes).is_err(), true);
    }
}

#[test]
fn the_end_inside_a_character_is_reported() {
    let mut decoder = Utf8Stream::new();
    assert_eq!(decoder.decode(&[0xf0, 0x9f, 0x98]), Ok(String::new()));
    assert_eq!(decoder.finish(), Err(Utf8Error::Truncated));
}

#[test]
fn the_decoder_agrees_with_the_standard_library() {
    let mut seed: u32 = 12345;
    for _ in 0..2000 {
        let mut bytes = Vec::new();
        for _ in 0..6 {
            seed = seed.wrapping_mul(1664525).wrapping_add(1013904223);
            let pick = (seed >> 24) as u8;
            bytes.push(match pick % 8 {
                0 => 0x41,
                1 => 0x80 | (pick >> 3),
                2 => 0xc0 | (pick >> 3),
                3 => 0xe0 | ((pick >> 3) & 0x0f),
                4 => 0xf0 | ((pick >> 3) & 0x07),
                5 => 0xa0,
                6 => 0xed,
                _ => pick,
            });
        }
        let mut decoder = Utf8Stream::new();
        let mine = decoder.decode(&bytes);
        match std::str::from_utf8(&bytes) {
            Ok(text) => {
                assert_eq!(mine, Ok(text.to_string()));
                assert_eq!(decoder.pending_len(), 0);
            }
            Err(e) => {
                let valid = e.valid_up_to();
                if valid == 0 && e.error_len().is_some() {
                    assert_eq!(mine, Err(Utf8Error::Malformed), "{:x?}", bytes);
                } else {
                    assert_eq!(mine, Ok(std::str::from_utf8(&bytes[..valid]).unwrap().to_string()), "{:x?}", bytes);
                    assert_eq!(decoder.pending_len(), bytes.len() - valid);
                    let expected = if e.error_len().is_some() { Utf8Error::Malformed } else { Utf8Error::Truncated };
                    assert_eq!(decoder.finish(), Err(expected), "{:x?}", bytes);
                }
            }
        }
    }
}
