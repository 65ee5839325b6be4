//! The byte layout of the database: one header record, a table of a hundred
//! soundtrack slots, and the song-group records, each record 512 bytes long.
use crate::bytes::{char_bytes, i32_bytes, i32_to_le, u32_bytes, u32_to_le};
use crate::records::{Header, Song, Soundtrack};
use vstd::prelude::*;

verus! {

/// The parts one after the other.
pub open spec fn concat_all(parts: Seq<Seq<u8>>) -> Seq<u8>
    decreases parts.len(),
{
    if parts.len() == 0 {
        Seq::empty()
    } else {
        concat_all(parts.drop_last()) + parts.last()
    }
}

/// `n` zero bytes.
pub open spec fn zeros(n: nat) -> Seq<u8> {
    Seq::new(n, |i: int| 0u8)
}

/// The bytes of an array of signed numbers.
pub open spec fn i32s_bytes(v: Seq<i32>) -> Seq<u8> {
    concat_all(Seq::new(v.len(), |i: int| i32_bytes(v[i])))
}

/// The bytes of an array of characters.
pub open spec fn chars_bytes(v: Seq<char>) -> Seq<u8> {
    concat_all(Seq::new(v.len(), |i: int| char_bytes(v[i])))
}

/// The bytes of an array of name slots.
pub open spec fn slots_bytes(v: Seq<[u8; 2]>) -> Seq<u8> {
    concat_all(Seq::new(v.len(), |i: int| v[i]@))
}

/// The bytes of a header record, field by field.
pub open spec fn header_bytes(h: Header) -> Seq<u8> {
    i32_bytes(h.magic) + i32_bytes(h.num_soundtracks) + i32_bytes(h.next_soundtrack_id)
        + i32s_bytes(h.soundtrack_ids@) + i32_bytes(h.next_song_id) + chars_bytes(h.padding@)
}

/// The bytes of a soundtrack record, field by field.
pub open spec fn soundtrack_bytes(s: Soundtrack) -> Seq<u8> {
    i32_bytes(s.magic) + i32_bytes(s.id) + u32_bytes(s.num_songs) + i32s_bytes(s.song_groups_ids@)
        + i32_bytes(s.total_time_miliseconds) + slots_bytes(s.name@) + chars_bytes(s.padding@)
}

/// The bytes of a song-group record, field by field: the group's own id
/// comes before the id of its soundtrack.
pub open spec fn song_bytes(s: Song) -> Seq<u8> {
    i32_bytes(s.magic) + i32_bytes(s.id) + i32_bytes(s.soundtrack_id) + i32_bytes(s.ipadding)
        + i32s_bytes(s.song_id@) + i32s_bytes(s.song_time_miliseconds@) + slots_bytes(s.song_name@)
        + chars_bytes(s.cpadding@)
}

/// Where slot `i` of the soundtrack table starts.
pub open spec fn soundtrack_offset(i: int) -> int {
    512 + 512 * i
}

/// Where song-group record `j` starts.
pub open spec fn song_offset(j: int) -> int {
    51712 + 512 * j
}

/// The soundtrack records one after the other.
pub open spec fn soundtracks_bytes(soundtracks: Seq<Soundtrack>) -> Seq<u8> {
    concat_all(Seq::new(soundtracks.len(), |i: int| soundtrack_bytes(soundtracks[i])))
}

/// The soundtrack table: the records, then zero bytes for the slots that are
/// left of the hundred.
pub open spec fn soundtrack_table(soundtracks: Seq<Soundtrack>) -> Seq<u8> {
    soundtracks_bytes(soundtracks) + zeros((512 * (100 - soundtracks.len())) as nat)
}

/// The song-group records one after the other.
pub open spec fn song_table(songs: Seq<Song>) -> Seq<u8> {
    concat_all(Seq::new(songs.len(), |i: int| song_bytes(songs[i])))
}

/// The whole database: header, soundtrack table, song table.
pub open spec fn database_bytes(
    header: Header,
    soundtracks: Seq<Soundtrack>,
    songs: Seq<Song>,
) -> Seq<u8> {
    header_bytes(header) + soundtrack_table(soundtracks) + song_table(songs)
}

/// With parts of one width `w`, part `i` starts at byte `w * i`.
pub proof fn lemma_concat_fixed(parts: Seq<Seq<u8>>, w: nat)
    requires
        forall|i: int| 0 <= i < parts.len() ==> (#[trigger] parts[i]).len() == w,
    ensures
        concat_all(parts).len() == w * parts.len(),
        forall|i: int|
            0 <= i < parts.len() ==> #[trigger] concat_all(parts).subrange(w * i, w * i + w)
                == parts[i],
    decreases parts.len(),
{
    if parts.len() > 0 {
        let front = parts.drop_last();
        lemma_concat_fixed(front, w);
        let n = front.len() as int;
        assert(w * parts.len() == w * n + w) by (nonlinear_arith)
            requires
                parts.len() == n + 1,
        ;
        assert forall|i: int| 0 <= i < parts.len() implies #[trigger] concat_all(parts).subrange(
            w * i,
            w * i + w,
        ) == parts[i] by {
            if i < n {
                assert(w * i + w <= w * n) by (nonlinear_arith)
                    requires
                        0 <= i < n,
                ;
                assert(w * i >= 0) by (nonlinear_arith)
                    requires
                        0 <= i,
                ;
                assert(concat_all(parts).subrange(w * i, w * i + w) =~= concat_all(front).subrange(
                    w * i,
                    w * i + w,
                ));
                assert(front[i] == parts[i]);
            } else {
                assert(concat_all(parts).subrange(w * i, w * i + w) =~= parts.last());
            }
        }
    }
}

/// Appending a part appends its bytes.
pub proof fn lemma_concat_push(parts: Seq<Seq<u8>>, part: Seq<u8>)
    ensures
        concat_all(parts.push(part)) == concat_all(parts) + part,
{
    assert(parts.push(part).drop_last() =~= parts);
}

/// An array of `n` signed numbers takes `4 * n` bytes.
pub proof fn lemma_i32s_len(v: Seq<i32>)
    ensures
        i32s_bytes(v).len() == 4 * v.len(),
{
    lemma_concat_fixed(Seq::new(v.len(), |i: int| i32_bytes(v[i])), 4);
}

/// An array of `n` characters takes `4 * n` bytes.
pub proof fn lemma_chars_len(v: Seq<char>)
    ensures
        chars_bytes(v).len() == 4 * v.len(),
{
    lemma_concat_fixed(Seq::new(v.len(), |i: int| char_bytes(v[i])), 4);
}

/// An array of `n` name slots takes `2 * n` bytes.
pub proof fn lemma_slots_len(v: Seq<[u8; 2]>)
    ensures
        slots_bytes(v).len() == 2 * v.len(),
{
    lemma_concat_fixed(Seq::new(v.len(), |i: int| v[i]@), 2);
}

/// A header record is 512 bytes long.
pub proof fn lemma_header_len(h: Header)
    ensures
        header_bytes(h).len() == 512,
{
    lemma_i32s_len(h.soundtrack_ids@);
    lemma_chars_len(h.padding@);
}

/// A soundtrack record is 512 bytes long.
pub proof fn lemma_soundtrack_len(s: Soundtrack)
    ensures
        soundtrack_bytes(s).len() == 512,
{
    lemma_i32s_len(s.song_groups_ids@);
    lemma_slots_len(s.name@);
    lemma_chars_len(s.padding@);
}

/// A song-group record is 512 bytes long.
pub proof fn lemma_song_len(s: Song)
    ensures
        song_bytes(s).len() == 512,
{
    lemma_i32s_len(s.song_id@);
    lemma_i32s_len(s.song_time_miliseconds@);
    lemma_slots_len(s.song_name@);
    lemma_chars_len(s.cpadding@);
}

/// The soundtrack table takes a hundred slots of 512 bytes, however many
/// soundtracks there are; the records fill the first slots, and the other
/// slots hold zeros.
pub proof fn lemma_soundtrack_table(soundtracks: Seq<Soundtrack>)
    requires
        soundtracks.len() <= 100,
    ensures
        soundtrack_table(soundtracks).len() == 100 * 512,
        forall|i: int|
            0 <= i < soundtracks.len() ==> #[trigger] soundtrack_table(soundtracks).subrange(
                512 * i,
                512 * i + 512,
            ) == soundtrack_bytes(soundtracks[i]),
        forall|k: int|
            512 * soundtracks.len() <= k < 100 * 512 ==> #[trigger] soundtrack_table(
                soundtracks,
            )[k] == 0,
{
    let parts = Seq::new(soundtracks.len(), |i: int| soundtrack_bytes(soundtracks[i]));
    assert forall|i: int| 0 <= i < parts.len() implies (#[trigger] parts[i]).len() == 512 by {
        lemma_soundtrack_len(soundtracks[i]);
    }
    lemma_concat_fixed(parts, 512);
    let table = soundtrack_table(soundtracks);
    assert forall|i: int| 0 <= i < soundtracks.len() implies #[trigger] table.subrange(
        512 * i,
        512 * i + 512,
    ) == soundtrack_bytes(soundtracks[i]) by {
        assert(concat_all(parts).subrange(512 * i, 512 * i + 512) == parts[i]);
        assert(table.subrange(512 * i, 512 * i + 512) =~= concat_all(parts).subrange(
            512 * i,
            512 * i + 512,
        ));
    }
}

/// The song table holds one record of 512 bytes for each song group.
pub proof fn lemma_song_table(songs: Seq<Song>)
    ensures
        song_table(songs).len() == 512 * songs.len(),
        forall|j: int|
            0 <= j < songs.len() ==> #[trigger] song_table(songs).subrange(512 * j, 512 * j + 512)
                == song_bytes(songs[j]),
{
    let parts = Seq::new(songs.len(), |i: int| song_bytes(songs[i]));
    assert forall|i: int| 0 <= i < parts.len() implies (#[trigger] parts[i]).len() == 512 by {
        lemma_song_len(songs[i]);
    }
    lemma_concat_fixed(parts, 512);
    assert forall|j: int| 0 <= j < songs.len() implies #[trigger] song_table(songs).subrange(
        512 * j,
        512 * j + 512,
    ) == song_bytes(songs[j]) by {
        assert(concat_all(parts).subrange(512 * j, 512 * j + 512) == parts[j]);
    }
}

/// Where everything lies in the database: the header in the first 512 bytes,
/// soundtrack `i` in the 512 bytes from `512 + 512 * i` on, and song group `j`
/// in the 512 bytes from `51712 + 512 * j` on. The song table starts at byte
/// 51712 whatever the number of soundtracks is.
pub proof fn lemma_database_layout(header: Header, soundtracks: Seq<Soundtrack>, songs: Seq<Song>)
    requires
        soundtracks.len() <= 100,
    ensures
        database_bytes(header, soundtracks, songs).len() == 512 * (101 + songs.len()),
        database_bytes(header, soundtracks, songs).subrange(0, 512) == header_bytes(header),
        database_bytes(header, soundtracks, songs).subrange(512, 51712) == soundtrack_table(
            soundtracks,
        ),
        database_bytes(header, soundtracks, songs).subrange(
            51712,
            (51712 + 512 * songs.len()) as int,
        ) == song_table(songs),
        forall|i: int|
            0 <= i < soundtracks.len() ==> database_bytes(header, soundtracks, songs).subrange(
                soundtrack_offset(i),
                soundtrack_offset(i) + 512,
            ) == soundtrack_bytes(#[trigger] soundtracks[i]),
        forall|j: int|
            0 <= j < songs.len() ==> database_bytes(header, soundtracks, songs).subrange(
                song_offset(j),
                song_offset(j) + 512,
            ) == song_bytes(#[trigger] songs[j]),
{
    lemma_header_len(header);
    lemma_soundtrack_table(soundtracks);
    lemma_song_table(songs);
    let d = database_bytes(header, soundtracks, songs);
    let table = soundtrack_table(soundtracks);
    let tail = song_table(songs);
    assert(d.subrange(0, 512) =~= header_bytes(header));
    assert(d.subrange(512, 51712) =~= table);
    assert(d.subrange(51712, (51712 + 512 * songs.len()) as int) =~= tail);
    assert forall|i: int| 0 <= i < soundtracks.len() implies d.subrange(
        soundtrack_offset(i),
        soundtrack_offset(i) + 512,
    ) == soundtrack_bytes(#[trigger] soundtracks[i]) by {
        assert(table.subrange(512 * i, 512 * i + 512) == soundtrack_bytes(soundtracks[i]));
        assert(d.subrange(512 + 512 * i, 1024 + 512 * i) =~= table.subrange(
            512 * i,
            512 * i + 512,
        ));
    }
    assert forall|j: int| 0 <= j < songs.len() implies d.subrange(
        song_offset(j),
        song_offset(j) + 512,
    ) == song_bytes(#[trigger] songs[j]) by {
        assert(tail.subrange(512 * j, 512 * j + 512) == song_bytes(songs[j]));
        assert(d.subrange(51712 + 512 * j, 52224 + 512 * j) =~= tail.subrange(
            512 * j,
            512 * j + 512,
        ));
    }
}

/// Appends the four bytes of `b`.
fn put_word(out: &mut Vec<u8>, b: [u8; 4])
    ensures
        final(out)@ == old(out)@ + b@,
{
    out.push(b[0]);
    out.push(b[1]);
    out.push(b[2]);
    out.push(b[3]);
    assert(out@ =~= old(out)@ + b@);
}

/// Appends the bytes of a signed number.
pub fn put_i32(out: &mut Vec<u8>, n: i32)
    ensures
        final(out)@ == old(out)@ + i32_bytes(n),
{
    put_word(out, i32_to_le(n));
}

/// Appends the bytes of an unsigned number.
pub fn put_u32(out: &mut Vec<u8>, n: u32)
    ensures
        final(out)@ == old(out)@ + u32_bytes(n),
{
    put_word(out, u32_to_le(n));
}

/// Appends the bytes of a character.
pub fn put_char(out: &mut Vec<u8>, c: char)
    ensures
        final(out)@ == old(out)@ + char_bytes(c),
{
    put_word(out, u32_to_le(c as u32));
}

/// Appends the bytes of an array of signed numbers.
pub fn put_i32s(out: &mut Vec<u8>, v: &[i32])
    ensures
        final(out)@ == old(out)@ + i32s_bytes(v@),
{
    let ghost parts = Seq::new(v@.len(), |i: int| i32_bytes(v@[i]));
    let mut i: usize = 0;
    while i < v.len()
        invariant
            i <= v@.len(),
            parts == Seq::new(v@.len(), |i: int| i32_bytes(v@[i])),
            out@ == old(out)@ + concat_all(parts.take(i as int)),
        decreases v@.len() - i,
    {
        put_i32(out, v[i]);
        proof {
            lemma_concat_push(parts.take(i as int), parts[i as int]);
            assert(parts.take(i as int).push(parts[i as int]) =~= parts.take(i + 1));
            assert(out@ =~= old(out)@ + concat_all(parts.take(i + 1)));
        }
        i = i + 1;
    }
    assert(parts.take(i as int) =~= parts);
}

/// Appends the bytes of an array of characters.
pub fn put_chars(out: &mut Vec<u8>, v: &[char])
    ensures
        final(out)@ == old(out)@ + chars_bytes(v@),
{
    let ghost parts = Seq::new(v@.len(), |i: int| char_bytes(v@[i]));
    let mut i: usize = 0;
    while i < v.len()
        invariant
            i <= v@.len(),
            parts == Seq::new(v@.len(), |i: int| char_bytes(v@[i])),
            out@ == old(out)@ + concat_all(parts.take(i as int)),
        decreases v@.len() - i,
    {
        put_char(out, v[i]);
        proof {
            lemma_concat_push(parts.take(i as int), parts[i as int]);
            assert(parts.take(i as int).push(parts[i as int]) =~= parts.take(i + 1));
            assert(out@ =~= old(out)@ + concat_all(parts.take(i + 1)));
        }
        i = i + 1;
    }
    assert(parts.take(i as int) =~= parts);
}

/// Appends the bytes of an array of name slots.
pub fn put_slots(out: &mut Vec<u8>, v: &[[u8; 2]])
    ensures
        final(out)@ == old(out)@ + slots_bytes(v@),
{
    let ghost parts = Seq::new(v@.len(), |i: int| v@[i]@);
    let mut i: usize = 0;
    while i < v.len()
        invariant
            i <= v@.len(),
            parts == Seq::new(v@.len(), |i: int| v@[i]@),
            out@ == old(out)@ + concat_all(parts.take(i as int)),
        decreases v@.len() - i,
    {
        let slot: [u8; 2] = v[i];
        out.push(slot[0]);
        out.push(slot[1]);
        proof {
            lemma_concat_push(parts.take(i as int), parts[i as int]);
            assert(parts.take(i as int).push(parts[i as int]) =~= parts.take(i + 1));
            assert(out@ =~= old(out)@ + concat_all(parts.take(i + 1)));
        }
        i = i + 1;
    }
    assert(parts.take(i as int) =~= parts);
}

/// Appends a header record.
pub fn put_header(out: &mut Vec<u8>, h: &Header)
    ensures
        final(out)@ == old(out)@ + header_bytes(*h),
{
    put_i32(out, h.magic);
    put_i32(out, h.num_soundtracks);
    put_i32(out, h.next_soundtrack_id);
    put_i32s(out, &h.soundtrack_ids);
    put_i32(out, h.next_song_id);
    put_chars(out, &h.padding);
    assert(out@ =~= old(out)@ + header_bytes(*h));
}

/// Appends a soundtrack record.
pub fn put_soundtrack(out: &mut Vec<u8>, s: &Soundtrack)
    ensures
        final(out)@ == old(out)@ + soundtrack_bytes(*s),
{
    put_i32(out, s.magic);
    put_i32(out, s.id);
    put_u32(out, s.num_songs);
    put_i32s(out, &s.song_groups_ids);
    put_i32(out, s.total_time_miliseconds);
    put_slots(out, &s.name);
    put_chars(out, &s.padding);
    assert(out@ =~= old(out)@ + soundtrack_bytes(*s));
}

/// Appends a song-group record.
pub fn put_song(out: &mut Vec<u8>, s: &Song)
    ensures
        final(out)@ == old(out)@ + song_bytes(*s),
{
    put_i32(out, s.magic);
    put_i32(out, s.id);
    put_i32(out, s.soundtrack_id);
    put_i32(out, s.ipadding);
    put_i32s(out, &s.song_id);
    put_i32s(out, &s.song_time_miliseconds);
    put_slots(out, &s.song_name);
    put_chars(out, &s.cpadding);
    assert(out@ =~= old(out)@ + song_bytes(*s));
}

/// Lays the database out as one byte stream: the header, the soundtrack
/// records followed by zero-filled slots up to a hundred, and the song-group
/// records.
pub fn serialize(header: &Header, soundtracks: &Vec<Soundtrack>, songs: &Vec<Song>) -> (r: Vec<u8>)
    requires
        soundtracks@.len() <= 100,
    ensures
        r@ == database_bytes(*header, soundtracks@, songs@),
        r@.len() == 512 * (101 + songs@.len()),
{
    proof {
        lemma_database_layout(*header, soundtracks@, songs@);
    }
    let mut out: Vec<u8> = Vec::new();
    put_header(&mut out, header);
    assert(out@ =~= header_bytes(*header));
    let ghost st_parts = Seq::new(soundtracks@.len(), |i: int| soundtrack_bytes(soundtracks@[i]));
    let mut i: usize = 0;
    while i < soundtracks.len()
        invariant
            i <= soundtracks@.len(),
            st_parts == Seq::new(soundtracks@.len(), |i: int| soundtrack_bytes(soundtracks@[i])),
            out@ == header_bytes(*header) + concat_all(st_parts.take(i as int)),
        decreases soundtracks@.len() - i,
    {
        put_soundtrack(&mut out, &soundtracks[i]);
        proof {
            lemma_concat_push(st_parts.take(i as int), st_parts[i as int]);
            assert(st_parts.take(i as int).push(st_parts[i as int]) =~= st_parts.take(i + 1));
            assert(out@ =~= header_bytes(*header) + concat_all(st_parts.take(i + 1)));
        }
        i = i + 1;
    }
    assert(st_parts.take(i as int) =~= st_parts);
    let blank: usize = (100 - soundtracks.len()) * 512;
    let mut k: usize = 0;
    while k < blank
        invariant
            k <= blank,
            out@ == header_bytes(*header) + soundtracks_bytes(soundtracks@) + zeros(k as nat),
        decreases blank - k,
    {
        out.push(0);
        assert(out@ =~= header_bytes(*header) + soundtracks_bytes(soundtracks@) + zeros(
            (k + 1) as nat,
        ));
        k = k + 1;
    }
    assert(out@ =~= header_bytes(*header) + soundtrack_table(soundtracks@));
    let ghost song_parts = Seq::new(songs@.len(), |i: int| song_bytes(songs@[i]));
    let mut j: usize = 0;
    while j < songs.len()
        invariant
            j <= songs@.len(),
            song_parts == Seq::new(songs@.len(), |i: int| song_bytes(songs@[i])),
            out@ == header_bytes(*header) + soundtrack_table(soundtracks@) + concat_all(
                song_parts.take(j as int),
            ),
        decreases songs@.len() - j,
    {
        put_song(&mut out, &songs[j]);
        proof {
            lemma_concat_push(song_parts.take(j as int), song_parts[j as int]);
            assert(song_parts.take(j as int).push(song_parts[j as int]) =~= song_parts.take(j + 1));
            assert(out@ =~= header_bytes(*header) + soundtrack_table(soundtracks@) + concat_all(
                song_parts.take(j + 1),
            ));
        }
        j = j + 1;
    }
    assert(song_parts.take(j as int) =~= song_parts);
    out
}

} // verus!
