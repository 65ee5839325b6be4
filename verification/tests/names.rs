use xbst::names::{
    chars_of, encode_name, is_whitespace, low_byte, pack_name, to_ascii, trim, trim_bounds,
};
use xbst::records::{Codec, Header, Song, Soundtrack};

fn low_bytes(slots: &[[u8; 2]]) -> Vec<u8> {
    slots.iter().map(|s| s[0]).collect()
}

#[test]
fn long_ascii_name_is_cut_to_its_first_32_characters() {
    let name = "0123456789abcdefghijklmnopqrstuvwxyzABCD";
    assert_eq!(name.len(), 40);
    let slots = encode_name(name, 32);
    assert_eq!(slots.len(), 32);
    for (k, slot) in slots.iter().enumerate() {
        assert_eq!(*slot, [name.as_bytes()[k], 0]);
    }
}

#[test]
fn short_name_is_padded_with_empty_slots() {
    let slots = encode_name("Boss Theme", 32);
    assert_eq!(slots.len(), 32);
    assert_eq!(&low_bytes(&slots)[..10], b"Boss Theme");
    for slot in &slots[10..] {
        assert_eq!(*slot, [0, 0]);
    }
    for slot in &slots {
        assert_eq!(slot[1], 0);
    }
}

#[test]
fn name_of_exactly_32_characters_fills_every_slot() {
    let name = "abcdefghijklmnopqrstuvwxyz012345";
    let slots = encode_name(name, 32);
    assert_eq!(low_bytes(&slots), name.as_bytes());
}

#[test]
fn empty_name_gives_empty_slots() {
    let slots = encode_name("", 4);
    assert_eq!(slots, vec![[0u8, 0u8]; 4]);
}

#[test]
fn zero_slots_give_nothing() {
    assert!(encode_name("abc", 0).is_empty());
}

#[test]
fn diacritics_are_folded_to_ascii() {
    let slots = encode_name("étude", 8);
    assert_eq!(low_bytes(&slots), b"etude\0\0\0");
    let slots = encode_name("Æneid", 8);
    assert_eq!(low_bytes(&slots), b"AEneid\0\0");
}

#[test]
fn transliterated_name_is_trimmed() {
    let slots = encode_name("  北亰", 16);
    assert_eq!(low_bytes(&slots), b"Bei Jing\0\0\0\0\0\0\0\0");
}

#[test]
fn plain_ascii_text_is_not_changed() {
    let all: String = (0x20u8..0x7f).map(|b| b as char).collect();
    assert_eq!(to_ascii(&all), all);
    assert_eq!(to_ascii("Boss Theme"), "Boss Theme");
    assert_eq!(to_ascii(""), "");
    assert_eq!(to_ascii("\u{141}\u{f3}d\u{17a}"), "Lodz");
}

#[test]
fn white_space_at_both_ends_is_dropped() {
    let slots = encode_name(" \t a b \n", 6);
    assert_eq!(low_bytes(&slots), b"a b\0\0\0");
}

#[test]
fn character_without_transliteration_is_stored_as_zero() {
    // U+FFFF has no entry in the table and is replaced by U+FFFD.
    let slots = encode_name("a\u{FFFF}b", 4);
    assert_eq!(slots, vec![[b'a', 0], [0, 0], [b'b', 0], [0, 0]]);
}

#[test]
fn pack_name_keeps_the_text_it_is_given() {
    let slots = pack_name("  caf\u{e9} ", 6);
    assert_eq!(slots, vec![[b'c', 0], [b'a', 0], [b'f', 0], [0, 0], [0, 0], [0, 0]]);
}

#[test]
fn trim_drops_unicode_white_space() {
    assert_eq!(trim("\u{3000}\u{a0}x y\u{2003}\u{85}"), "x y");
    assert_eq!(trim("   "), "");
    assert_eq!(trim(""), "");
    assert_eq!(trim("xyz"), "xyz");
}

#[test]
fn trim_agrees_with_the_standard_library() {
    for code in 0u32..0x3100 {
        if let Some(c) = char::from_u32(code) {
            assert_eq!(is_whitespace(c), c.is_whitespace(), "U+{:04X}", code);
            let text = format!("{}a{}", c, c);
            assert_eq!(trim(&text), text.trim());
        }
    }
}

#[test]
fn trim_bounds_frame_the_trimmed_text() {
    let chars = chars_of(" ab  ");
    assert_eq!(chars, vec![' ', 'a', 'b', ' ', ' ']);
    assert_eq!(trim_bounds(&chars), (1, 3));
    assert_eq!(trim_bounds(&chars_of("  ")), (2, 2));
}

#[test]
fn low_byte_is_the_character_where_it_is_ascii() {
    assert_eq!(low_byte('A'), 65);
    assert_eq!(low_byte('\u{7f}'), 127);
    assert_eq!(low_byte('\u{80}'), 0);
    assert_eq!(low_byte('\u{fffd}'), 0);
}

#[test]
fn codec_names() {
    assert_eq!(Codec::Wmav1.to_string(), "wmav1");
    assert_eq!(Codec::Wmav2.to_string(), "wmav2");
}

#[test]
fn default_records_are_zeroed() {
    let h = Header::default();
    assert_eq!(h.magic, 0);
    assert_eq!(h.num_soundtracks, 0);
    assert_eq!(h.next_soundtrack_id, 0);
    assert_eq!(h.soundtrack_ids, [0; 100]);
    assert_eq!(h.next_song_id, 0);
    assert_eq!(h.padding, ['\0'; 24]);
    let s = Soundtrack::default();
    assert_eq!(s.magic, 0);
    assert_eq!(s.id, 0);
    assert_eq!(s.num_songs, 0);
    assert_eq!(s.song_groups_ids, [0; 84]);
    assert_eq!(s.total_time_miliseconds, 0);
    assert_eq!(s.name, [[0; 2]; 32]);
    assert_eq!(s.padding, ['\0'; 24]);
    let g = Song::default();
    assert_eq!(g.magic, 0);
    assert_eq!(g.soundtrack_id, 0);
    assert_eq!(g.id, 0);
    assert_eq!(g.ipadding, 0);
    assert_eq!(g.song_id, [0; 6]);
    assert_eq!(g.song_time_miliseconds, [0; 6]);
    assert_eq!(g.song_name, [[0; 2]; 192]);
    assert_eq!(g.cpadding, ['\0'; 16]);
}
