use xbst::layout::{
    put_char, put_header, put_i32, put_i32s, put_slots, put_song, put_soundtrack, put_u32,
    serialize,
};
use xbst::reader::{deserialize, get_char, get_header, get_i32, get_song, get_soundtrack, get_u32};
use xbst::records::{Header, Song, Soundtrack};

fn sample_header(count: i32) -> Header {
    let mut h = Header::default();
    h.magic = 1;
    h.num_soundtracks = count;
    h.next_soundtrack_id = count + 1;
    for i in 0..count {
        h.soundtrack_ids[i as usize] = i;
    }
    h.next_song_id = 7;
    h
}

fn sample_soundtrack(id: i32) -> Soundtrack {
    let mut s = Soundtrack::default();
    s.magic = 136049;
    s.id = id;
    s.num_songs = 7;
    s.song_groups_ids[0] = 0;
    s.song_groups_ids[1] = 1;
    s.total_time_miliseconds = 28000 + id;
    s.name[0] = [b'B', 0];
    s.name[1] = [b'o', 0];
    s.name[31] = [b'!', 0];
    s
}

fn sample_song(soundtrack_id: i32, id: i32) -> Song {
    let mut g = Song::default();
    g.magic = 200819;
    g.soundtrack_id = soundtrack_id;
    g.id = id;
    g.song_id = [0, 1, 2, 3, 4, 5];
    g.song_time_miliseconds = [1000, 2000, 3000, -4000, i32::MAX, i32::MIN];
    g.song_name[0] = [b'a', 0];
    g.song_name[32] = [b'b', 0];
    g.song_name[191] = [b'z', 1];
    g
}

#[test]
fn numbers_are_written_least_significant_byte_first() {
    let mut out = Vec::new();
    put_i32(&mut out, 136049);
    put_i32(&mut out, -2);
    put_u32(&mut out, 0xdead_beef);
    put_char(&mut out, '\u{1F600}');
    put_i32(&mut out, i32::MIN);
    assert_eq!(
        out,
        vec![
            0x71, 0x13, 0x02, 0x00, 0xfe, 0xff, 0xff, 0xff, 0xef, 0xbe, 0xad, 0xde, 0x00, 0xf6,
            0x01, 0x00, 0x00, 0x00, 0x00, 0x80
        ]
    );
}

#[test]
fn arrays_are_written_element_by_element() {
    let mut out = vec![9u8];
    put_i32s(&mut out, &[1, 256]);
    put_slots(&mut out, &[[b'a', 0], [b'b', 7]]);
    assert_eq!(out, vec![9, 1, 0, 0, 0, 0, 1, 0, 0, b'a', 0, b'b', 7]);
}

#[test]
fn every_record_is_512_bytes_long() {
    let mut out = Vec::new();
    put_header(&mut out, &sample_header(3));
    assert_eq!(out.len(), 512);
    put_soundtrack(&mut out, &sample_soundtrack(0));
    assert_eq!(out.len(), 1024);
    put_song(&mut out, &sample_song(0, 0));
    assert_eq!(out.len(), 1536);
}

#[test]
fn header_fields_lie_at_their_offsets() {
    let mut out = Vec::new();
    put_header(&mut out, &sample_header(3));
    assert_eq!(&out[0..4], &[1, 0, 0, 0]);
    assert_eq!(&out[4..8], &[3, 0, 0, 0]);
    assert_eq!(&out[8..12], &[4, 0, 0, 0]);
    assert_eq!(&out[12..24], &[0, 0, 0, 0, 1, 0, 0, 0, 2, 0, 0, 0]);
    assert!(out[24..412].iter().all(|b| *b == 0));
    assert_eq!(&out[412..416], &[7, 0, 0, 0]);
    assert!(out[416..512].iter().all(|b| *b == 0));
}

#[test]
fn soundtrack_fields_lie_at_their_offsets() {
    let mut out = Vec::new();
    put_soundtrack(&mut out, &sample_soundtrack(5));
    assert_eq!(&out[0..4], &[0x71, 0x13, 0x02, 0x00]);
    assert_eq!(&out[4..8], &[5, 0, 0, 0]);
    assert_eq!(&out[8..12], &[7, 0, 0, 0]);
    assert_eq!(&out[12..20], &[0, 0, 0, 0, 1, 0, 0, 0]);
    assert_eq!(&out[348..352], &28005i32.to_le_bytes());
    assert_eq!(&out[352..356], &[b'B', 0, b'o', 0]);
    assert_eq!(&out[414..416], &[b'!', 0]);
    assert!(out[416..512].iter().all(|b| *b == 0));
}

#[test]
fn song_fields_lie_at_their_offsets() {
    let mut out = Vec::new();
    put_song(&mut out, &sample_song(2, 9));
    assert_eq!(&out[0..4], &200819i32.to_le_bytes());
    assert_eq!(&out[4..8], &[9, 0, 0, 0]);
    assert_eq!(&out[8..12], &[2, 0, 0, 0]);
    assert_eq!(&out[12..16], &[0, 0, 0, 0]);
    assert_eq!(&out[20..24], &[1, 0, 0, 0]);
    assert_eq!(&out[36..40], &[5, 0, 0, 0]);
    assert_eq!(&out[40..44], &1000i32.to_le_bytes());
    assert_eq!(&out[52..56], &(-4000i32).to_le_bytes());
    assert_eq!(&out[60..64], &i32::MIN.to_le_bytes());
    assert_eq!(&out[64..66], &[b'a', 0]);
    assert_eq!(&out[128..130], &[b'b', 0]);
    assert_eq!(&out[446..448], &[b'z', 1]);
    assert!(out[448..512].iter().all(|b| *b == 0));
}

#[test]
fn group_id_is_written_before_the_soundtrack_id() {
    let mut song = Song::default();
    song.magic = 200819;
    song.id = 1;
    song.soundtrack_id = 2;
    let out = serialize(&Header::default(), &Vec::new(), &vec![song.clone()]);
    assert_eq!(&out[51712..51716], &200819i32.to_le_bytes());
    assert_eq!(&out[51716..51720], &[1, 0, 0, 0]);
    assert_eq!(&out[51720..51724], &[2, 0, 0, 0]);
    assert_eq!(&out[51724..51728], &[0, 0, 0, 0]);
    let (_, _, songs) = deserialize(&out).unwrap();
    assert_eq!(songs, vec![song]);
    let mut bytes = vec![0u8; 512];
    bytes[4] = 7;
    bytes[8] = 3;
    let read = get_song(&bytes, 0).unwrap();
    assert_eq!(read.id, 7);
    assert_eq!(read.soundtrack_id, 3);
}

#[test]
fn soundtrack_table_takes_a_hundred_slots_without_soundtracks() {
    let songs = vec![sample_song(0, 0)];
    let out = serialize(&sample_header(0), &Vec::new(), &songs);
    assert_eq!(out.len(), 512 + 100 * 512 + 512);
    assert!(out[512..51712].iter().all(|b| *b == 0));
    assert_eq!(&out[51712..51716], &200819i32.to_le_bytes());
}

#[test]
fn soundtrack_table_takes_a_hundred_slots_with_one_soundtrack() {
    let songs = vec![sample_song(0, 0), sample_song(0, 1)];
    let out = serialize(&sample_header(1), &vec![sample_soundtrack(0)], &songs);
    assert_eq!(out.len(), 512 + 100 * 512 + 2 * 512);
    assert_eq!(&out[512..516], &136049i32.to_le_bytes());
    assert!(out[1024..51712].iter().all(|b| *b == 0));
    assert_eq!(&out[51712..51716], &200819i32.to_le_bytes());
    assert_eq!(&out[52224 + 4..52224 + 8], &[1, 0, 0, 0]);
    assert_eq!(&out[52224 + 8..52224 + 12], &[0, 0, 0, 0]);
}

#[test]
fn soundtrack_table_takes_a_hundred_slots_with_a_hundred_soundtracks() {
    let soundtracks: Vec<Soundtrack> = (0..100).map(sample_soundtrack).collect();
    let out = serialize(&sample_header(100), &soundtracks, &Vec::new());
    assert_eq!(out.len(), 512 + 100 * 512);
    for i in 0..100usize {
        assert_eq!(&out[512 + 512 * i + 4..512 + 512 * i + 8], &(i as i32).to_le_bytes());
    }
}

#[test]
fn database_without_songs_has_no_song_table() {
    let out = serialize(&sample_header(0), &Vec::new(), &Vec::new());
    assert_eq!(out.len(), 51712);
}

#[test]
fn reading_back_gives_the_records_that_were_written() {
    let header = sample_header(3);
    let soundtracks: Vec<Soundtrack> = (0..3).map(sample_soundtrack).collect();
    let songs = vec![sample_song(0, 0), sample_song(1, 0), sample_song(2, 0), sample_song(2, 1)];
    let bytes = serialize(&header, &soundtracks, &songs);
    let (h2, st2, songs2) = deserialize(&bytes).unwrap();
    assert_eq!(h2, header);
    assert_eq!(st2, soundtracks);
    assert_eq!(songs2, songs);
}

#[test]
fn reading_back_keeps_padding_characters() {
    let mut header = sample_header(1);
    header.padding[3] = 'x';
    header.padding[23] = '\u{10FFFF}';
    let mut st = sample_soundtrack(0);
    st.padding[0] = '\u{E000}';
    let mut song = sample_song(0, 0);
    song.cpadding[15] = '\u{D7FF}';
    let bytes = serialize(&header, &vec![st.clone()], &vec![song.clone()]);
    let (h2, st2, songs2) = deserialize(&bytes).unwrap();
    assert_eq!(h2, header);
    assert_eq!(st2, vec![st]);
    assert_eq!(songs2, vec![song]);
}

#[test]
fn reading_back_an_empty_database() {
    let bytes = serialize(&sample_header(0), &Vec::new(), &Vec::new());
    let (h2, st2, songs2) = deserialize(&bytes).unwrap();
    assert_eq!(h2, sample_header(0));
    assert!(st2.is_empty());
    assert!(songs2.is_empty());
}

#[test]
fn bytes_that_are_no_database_are_refused() {
    let good = serialize(&sample_header(1), &vec![sample_soundtrack(0)], &vec![sample_song(0, 0)]);
    assert!(deserialize(&good).is_some());
    // too short
    assert!(deserialize(&good[..51711]).is_none());
    assert!(deserialize(&[]).is_none());
    // no whole number of records
    assert!(deserialize(&good[..good.len() - 1]).is_none());
    // more soundtracks than slots
    let mut bad = good.clone();
    bad[4] = 101;
    assert!(deserialize(&bad).is_none());
    // a negative number of soundtracks
    let mut bad = good.clone();
    bad[4..8].copy_from_slice(&(-1i32).to_le_bytes());
    assert!(deserialize(&bad).is_none());
    // a surrogate in the header's padding
    let mut bad = good.clone();
    bad[416..420].copy_from_slice(&0xD800u32.to_le_bytes());
    assert!(deserialize(&bad).is_none());
    // a number beyond the characters in a soundtrack's padding
    let mut bad = good.clone();
    bad[512 + 508..512 + 512].copy_from_slice(&0x110000u32.to_le_bytes());
    assert!(deserialize(&bad).is_none());
    // and in a song group's padding
    let mut bad = good.clone();
    bad[51712 + 448..51712 + 452].copy_from_slice(&0xDFFFu32.to_le_bytes());
    assert!(deserialize(&bad).is_none());
    // padding of a soundtrack slot that the header does not count is not read
    let mut fine = good.clone();
    fine[1024 + 416..1024 + 420].copy_from_slice(&0xD800u32.to_le_bytes());
    assert!(deserialize(&fine).is_some());
}

#[test]
fn single_fields_are_read_from_their_offsets() {
    let mut bytes = vec![0u8; 600];
    bytes[5..9].copy_from_slice(&(-123456i32).to_le_bytes());
    bytes[9..13].copy_from_slice(&0xfedc_ba98u32.to_le_bytes());
    bytes[13..17].copy_from_slice(&('\u{263A}' as u32).to_le_bytes());
    bytes[17..21].copy_from_slice(&0xD800u32.to_le_bytes());
    assert_eq!(get_i32(&bytes, 5), -123456);
    assert_eq!(get_u32(&bytes, 9), 0xfedc_ba98);
    assert_eq!(get_char(&bytes, 13), Some('\u{263A}'));
    assert_eq!(get_char(&bytes, 17), None);
    assert_eq!(get_i32(&bytes, 596), 0);
}

#[test]
fn single_records_are_read_from_their_offsets() {
    let mut bytes = vec![0xAAu8; 3];
    put_song(&mut bytes, &sample_song(4, 2));
    put_soundtrack(&mut bytes, &sample_soundtrack(8));
    assert_eq!(get_song(&bytes, 3), Some(sample_song(4, 2)));
    assert_eq!(get_soundtrack(&bytes, 515), Some(sample_soundtrack(8)));
    let mut bytes = Vec::new();
    put_header(&mut bytes, &sample_header(42));
    assert_eq!(get_header(&bytes), Some(sample_header(42)));
}
