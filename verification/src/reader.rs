//! Reading the database back from its bytes.
use crate::bytes::{
    char_bytes, char_of, i32_bytes, i32_from_le, is_scalar_value, le_value,
    lemma_le_value_of_bytes, lemma_signed_round_trip, to_signed, to_unsigned, u32_bytes,
    u32_from_le,
};
use crate::layout::{
    chars_bytes, concat_all, database_bytes, header_bytes, i32s_bytes, lemma_chars_len,
    lemma_concat_fixed, lemma_database_layout, lemma_i32s_len, lemma_slots_len, slots_bytes,
    song_bytes, song_offset, soundtrack_bytes, soundtrack_offset,
};
use crate::records::{Header, Song, Soundtrack};
use vstd::prelude::*;

verus! {

/// The number stored in the four bytes from `at` on.
pub open spec fn word_at(b: Seq<u8>, at: int) -> nat {
    le_value(b.subrange(at, at + 4))
}

/// The signed number stored in the four bytes from `at` on.
pub open spec fn i32_at(b: Seq<u8>, at: int) -> i32 {
    to_signed(word_at(b, at))
}

/// The `n` words from `at` on are scalar values of characters.
pub open spec fn chars_readable(b: Seq<u8>, at: int, n: int) -> bool {
    forall|k: int| 0 <= k < n ==> is_scalar_value(#[trigger] word_at(b, at + 4 * k))
}

/// The numbers `v` are stored from `at` on.
pub open spec fn reads_i32s(b: Seq<u8>, at: int, v: Seq<i32>) -> bool {
    forall|i: int| 0 <= i < v.len() ==> #[trigger] v[i] == i32_at(b, at + 4 * i)
}

/// The characters `v` are stored from `at` on.
pub open spec fn reads_chars(b: Seq<u8>, at: int, v: Seq<char>) -> bool {
    forall|i: int| 0 <= i < v.len() ==> (#[trigger] v[i]) as u32 == word_at(b, at + 4 * i)
}

/// The name slots `v` are stored from `at` on.
pub open spec fn reads_slots(b: Seq<u8>, at: int, v: Seq<[u8; 2]>) -> bool {
    forall|i: int|
        0 <= i < v.len() ==> (#[trigger] v[i])[0] == b[at + 2 * i] && v[i][1] == b[at + 2 * i + 1]
}

/// The four bytes from `at` on.
fn get_word(bytes: &[u8], at: usize) -> (r: [u8; 4])
    requires
        at + 4 <= bytes@.len(),
    ensures
        r@ == bytes@.subrange(at as int, at + 4),
{
    let r: [u8; 4] = [bytes[at], bytes[at + 1], bytes[at + 2], bytes[at + 3]];
    assert(r@ =~= bytes@.subrange(at as int, at + 4));
    r
}

/// Reads a signed number.
pub fn get_i32(bytes: &[u8], at: usize) -> (r: i32)
    requires
        at + 4 <= bytes@.len(),
    ensures
        r == i32_at(bytes@, at as int),
{
    i32_from_le(get_word(bytes, at))
}

/// Reads an unsigned number.
pub fn get_u32(bytes: &[u8], at: usize) -> (r: u32)
    requires
        at + 4 <= bytes@.len(),
    ensures
        r as nat == word_at(bytes@, at as int),
{
    u32_from_le(get_word(bytes, at))
}

/// Reads a character, if the number stored is the scalar value of one.
pub fn get_char(bytes: &[u8], at: usize) -> (r: Option<char>)
    requires
        at + 4 <= bytes@.len(),
    ensures
        r is Some <==> is_scalar_value(word_at(bytes@, at as int)),
        r matches Some(c) ==> c as u32 == word_at(bytes@, at as int),
{
    char_of(u32_from_le(get_word(bytes, at)))
}

/// Reads an array of signed numbers.
pub fn get_i32s<const N: usize>(bytes: &[u8], at: usize) -> (r: [i32; N])
    requires
        at + 4 * N <= bytes@.len(),
    ensures
        reads_i32s(bytes@, at as int, r@),
{
    let len: usize = bytes.len();
    let mut r: [i32; N] = [0; N];
    let mut i: usize = 0;
    while i < N
        invariant
            i <= N,
            len == bytes@.len(),
            at + 4 * N <= bytes@.len(),
            forall|j: int| 0 <= j < i ==> #[trigger] r@[j] == i32_at(bytes@, at + 4 * j),
        decreases N - i,
    {
        r[i] = get_i32(bytes, at + 4 * i);
        i = i + 1;
    }
    r
}

/// Reads an array of characters, if each number stored is the scalar value of
/// one.
pub fn get_chars<const N: usize>(bytes: &[u8], at: usize) -> (r: Option<[char; N]>)
    requires
        at + 4 * N <= bytes@.len(),
    ensures
        r is Some <==> chars_readable(bytes@, at as int, N as int),
        r matches Some(v) ==> reads_chars(bytes@, at as int, v@),
{
    let len: usize = bytes.len();
    let mut r: [char; N] = ['\0'; N];
    let mut i: usize = 0;
    while i < N
        invariant
            i <= N,
            len == bytes@.len(),
            at + 4 * N <= bytes@.len(),
            chars_readable(bytes@, at as int, i as int),
            forall|j: int| 0 <= j < i ==> (#[trigger] r@[j]) as u32 == word_at(bytes@, at + 4 * j),
        decreases N - i,
    {
        match get_char(bytes, at + 4 * i) {
            Some(c) => {
                r[i] = c;
            },
            None => {
                return None;
            },
        }
        i = i + 1;
    }
    Some(r)
}

/// Reads an array of name slots.
pub fn get_slots<const N: usize>(bytes: &[u8], at: usize) -> (r: [[u8; 2]; N])
    requires
        at + 2 * N <= bytes@.len(),
    ensures
        reads_slots(bytes@, at as int, r@),
{
    let len: usize = bytes.len();
    let mut r: [[u8; 2]; N] = [[0; 2]; N];
    let mut i: usize = 0;
    while i < N
        invariant
            i <= N,
            len == bytes@.len(),
            at + 2 * N <= bytes@.len(),
            forall|j: int|
                0 <= j < i ==> (#[trigger] r@[j])[0] == bytes@[at + 2 * j] && r@[j][1] == bytes@[at
                    + 2 * j + 1],
        decreases N - i,
    {
        r[i] = [bytes[at + 2 * i], bytes[at + 2 * i + 1]];
        i = i + 1;
    }
    r
}

/// The fields of `h` are what the first 512 bytes of `b` store.
pub open spec fn reads_header(b: Seq<u8>, h: Header) -> bool {
    &&& h.magic == i32_at(b, 0)
    &&& h.num_soundtracks == i32_at(b, 4)
    &&& h.next_soundtrack_id == i32_at(b, 8)
    &&& reads_i32s(b, 12, h.soundtrack_ids@)
    &&& h.next_song_id == i32_at(b, 412)
    &&& reads_chars(b, 416, h.padding@)
}

/// The fields of `s` are what the 512 bytes of `b` from `at` on store.
pub open spec fn reads_soundtrack(b: Seq<u8>, at: int, s: Soundtrack) -> bool {
    &&& s.magic == i32_at(b, at)
    &&& s.id == i32_at(b, at + 4)
    &&& s.num_songs as nat == word_at(b, at + 8)
    &&& reads_i32s(b, at + 12, s.song_groups_ids@)
    &&& s.total_time_miliseconds == i32_at(b, at + 348)
    &&& reads_slots(b, at + 352, s.name@)
    &&& reads_chars(b, at + 416, s.padding@)
}

/// The fields of `s` are what the 512 bytes of `b` from `at` on store.
pub open spec fn reads_song(b: Seq<u8>, at: int, s: Song) -> bool {
    &&& s.magic == i32_at(b, at)
    &&& s.id == i32_at(b, at + 4)
    &&& s.soundtrack_id == i32_at(b, at + 8)
    &&& s.ipadding == i32_at(b, at + 12)
    &&& reads_i32s(b, at + 16, s.song_id@)
    &&& reads_i32s(b, at + 40, s.song_time_miliseconds@)
    &&& reads_slots(b, at + 64, s.song_name@)
    &&& reads_chars(b, at + 448, s.cpadding@)
}

/// Number of song-group records in a database of `len` bytes.
pub open spec fn song_count(len: int) -> int {
    (len - 51712) / 512
}

/// `b` can be read as a database: it holds the header, the soundtrack table
/// and whole song-group records, the header counts at most a hundred
/// soundtracks, and the padding of the header, of each soundtrack counted and
/// of each song group holds characters.
pub open spec fn is_database(b: Seq<u8>) -> bool {
    &&& b.len() >= 51712
    &&& b.len() % 512 == 0
    &&& 0 <= i32_at(b, 4) <= 100
    &&& chars_readable(b, 416, 24)
    &&& forall|i: int|
        0 <= i < i32_at(b, 4) ==> chars_readable(b, #[trigger] soundtrack_offset(i) + 416, 24)
    &&& forall|j: int|
        0 <= j < song_count(b.len() as int) ==> chars_readable(
            b,
            #[trigger] song_offset(j) + 448,
            16,
        )
}

/// The records are what `b` stores: the header, as many soundtracks as the
/// header counts, and the song groups that follow the soundtrack table.
pub open spec fn reads_database(
    b: Seq<u8>,
    header: Header,
    soundtracks: Seq<Soundtrack>,
    songs: Seq<Song>,
) -> bool {
    &&& reads_header(b, header)
    &&& soundtracks.len() == header.num_soundtracks
    &&& forall|i: int|
        0 <= i < soundtracks.len() ==> reads_soundtrack(
            b,
            soundtrack_offset(i),
            #[trigger] soundtracks[i],
        )
    &&& songs.len() == song_count(b.len() as int)
    &&& forall|j: int| 0 <= j < songs.len() ==> reads_song(b, song_offset(j), #[trigger] songs[j])
}

/// Reads the header record at the start of `bytes`, if its padding holds
/// characters.
pub fn get_header(bytes: &[u8]) -> (r: Option<Header>)
    requires
        bytes@.len() >= 512,
    ensures
        r is Some <==> chars_readable(bytes@, 416, 24),
        r matches Some(h) ==> reads_header(bytes@, h),
{
    let len: usize = bytes.len();
    match get_chars::<24>(bytes, 416) {
        Some(padding) => Some(
            Header {
                magic: get_i32(bytes, 0),
                num_soundtracks: get_i32(bytes, 4),
                next_soundtrack_id: get_i32(bytes, 8),
                soundtrack_ids: get_i32s::<100>(bytes, 12),
                next_song_id: get_i32(bytes, 412),
                padding,
            },
        ),
        None => None,
    }
}

/// Reads the soundtrack record that starts at `at`, if its padding holds
/// characters.
pub fn get_soundtrack(bytes: &[u8], at: usize) -> (r: Option<Soundtrack>)
    requires
        at + 512 <= bytes@.len(),
    ensures
        r is Some <==> chars_readable(bytes@, at + 416, 24),
        r matches Some(s) ==> reads_soundtrack(bytes@, at as int, s),
{
    let len: usize = bytes.len();
    match get_chars::<24>(bytes, at + 416) {
        Some(padding) => Some(
            Soundtrack {
                magic: get_i32(bytes, at),
                id: get_i32(bytes, at + 4),
                num_songs: get_u32(bytes, at + 8),
                song_groups_ids: get_i32s::<84>(bytes, at + 12),
                total_time_miliseconds: get_i32(bytes, at + 348),
                name: get_slots::<32>(bytes, at + 352),
                padding,
            },
        ),
        None => None,
    }
}

/// Reads the song-group record that starts at `at`, if its padding holds
/// characters.
pub fn get_song(bytes: &[u8], at: usize) -> (r: Option<Song>)
    requires
        at + 512 <= bytes@.len(),
    ensures
        r is Some <==> chars_readable(bytes@, at + 448, 16),
        r matches Some(s) ==> reads_song(bytes@, at as int, s),
{
    let len: usize = bytes.len();
    match get_chars::<16>(bytes, at + 448) {
        Some(cpadding) => Some(
            Song {
                magic: get_i32(bytes, at),
                id: get_i32(bytes, at + 4),
                soundtrack_id: get_i32(bytes, at + 8),
                ipadding: get_i32(bytes, at + 12),
                song_id: get_i32s::<6>(bytes, at + 16),
                song_time_miliseconds: get_i32s::<6>(bytes, at + 40),
                song_name: get_slots::<192>(bytes, at + 64),
                cpadding,
            },
        ),
        None => None,
    }
}

/// Reads a database back: the header, the soundtracks that the header counts,
/// and all song groups. What lies in the unused slots of the soundtrack table
/// is not looked at.
pub fn deserialize(bytes: &[u8]) -> (r: Option<(Header, Vec<Soundtrack>, Vec<Song>)>)
    ensures
        r is Some <==> is_database(bytes@),
        r matches Some(d) ==> reads_database(bytes@, d.0, d.1@, d.2@),
{
    let len: usize = bytes.len();
    if len < 51712 || len % 512 != 0 {
        return None;
    }
    let header = match get_header(bytes) {
        Some(h) => h,
        None => {
            return None;
        },
    };
    if header.num_soundtracks < 0 || header.num_soundtracks > 100 {
        return None;
    }
    let n: usize = header.num_soundtracks as usize;
    let mut soundtracks: Vec<Soundtrack> = Vec::new();
    let mut i: usize = 0;
    while i < n
        invariant
            i <= n <= 100,
            n == i32_at(bytes@, 4),
            len == bytes@.len(),
            len >= 51712,
            soundtracks@.len() == i,
            forall|k: int|
                0 <= k < i ==> chars_readable(bytes@, #[trigger] soundtrack_offset(k) + 416, 24),
            forall|k: int|
                0 <= k < i ==> reads_soundtrack(
                    bytes@,
                    soundtrack_offset(k),
                    #[trigger] soundtracks@[k],
                ),
        decreases n - i,
    {
        match get_soundtrack(bytes, 512 * i + 512) {
            Some(s) => {
                soundtracks.push(s);
            },
            None => {
                assert(!chars_readable(bytes@, soundtrack_offset(i as int) + 416, 24));
                return None;
            },
        }
        i = i + 1;
    }
    let m: usize = (len - 51712) / 512;
    let mut songs: Vec<Song> = Vec::new();
    let mut j: usize = 0;
    while j < m
        invariant
            j <= m,
            m == song_count(len as int),
            len == bytes@.len(),
            len >= 51712,
            songs@.len() == j,
            forall|k: int|
                0 <= k < j ==> chars_readable(bytes@, #[trigger] song_offset(k) + 448, 16),
            forall|k: int| 0 <= k < j ==> reads_song(bytes@, song_offset(k), #[trigger] songs@[k]),
        decreases m - j,
    {
        match get_song(bytes, 512 * j + 51712) {
            Some(s) => {
                songs.push(s);
            },
            None => {
                assert(!chars_readable(bytes@, song_offset(j as int) + 448, 16));
                return None;
            },
        }
        j = j + 1;
    }
    Some((header, soundtracks, songs))
}

/// A signed number is read from where its bytes lie.
pub proof fn lemma_i32_field(b: Seq<u8>, at: int, x: i32)
    requires
        0 <= at,
        at + 4 <= b.len(),
        b.subrange(at, at + 4) == i32_bytes(x),
    ensures
        i32_at(b, at) == x,
{
    lemma_le_value_of_bytes(to_unsigned(x));
    lemma_signed_round_trip(x);
}

/// An unsigned number is read from where its bytes lie.
pub proof fn lemma_u32_field(b: Seq<u8>, at: int, x: u32)
    requires
        0 <= at,
        at + 4 <= b.len(),
        b.subrange(at, at + 4) == u32_bytes(x),
    ensures
        word_at(b, at) == x as nat,
{
    lemma_le_value_of_bytes(x as nat);
}

/// An array of signed numbers is read from where its bytes lie.
pub proof fn lemma_i32s_field(b: Seq<u8>, at: int, v: Seq<i32>)
    requires
        0 <= at,
        at + 4 * v.len() <= b.len(),
        b.subrange(at, at + 4 * v.len()) == i32s_bytes(v),
    ensures
        reads_i32s(b, at, v),
{
    let parts = Seq::new(v.len(), |i: int| i32_bytes(v[i]));
    lemma_concat_fixed(parts, 4);
    assert forall|i: int| 0 <= i < v.len() implies #[trigger] v[i] == i32_at(b, at + 4 * i) by {
        assert(concat_all(parts).subrange(4 * i, 4 * i + 4) == parts[i]);
        assert(b.subrange(at + 4 * i, at + 4 * i + 4) =~= b.subrange(
            at,
            at + 4 * v.len(),
        ).subrange(4 * i, 4 * i + 4));
        lemma_i32_field(b, at + 4 * i, v[i]);
    }
}

/// A character is read from where its bytes lie.
pub proof fn lemma_char_field(b: Seq<u8>, at: int, c: char)
    requires
        0 <= at,
        at + 4 <= b.len(),
        b.subrange(at, at + 4) == char_bytes(c),
    ensures
        word_at(b, at) == c as u32,
        is_scalar_value(word_at(b, at)),
{
    lemma_le_value_of_bytes(c as u32 as nat);
}

/// An array of characters is read from where its bytes lie.
pub proof fn lemma_chars_field(b: Seq<u8>, at: int, v: Seq<char>)
    requires
        0 <= at,
        at + 4 * v.len() <= b.len(),
        b.subrange(at, at + 4 * v.len()) == chars_bytes(v),
    ensures
        reads_chars(b, at, v),
        chars_readable(b, at, v.len() as int),
{
    let parts = Seq::new(v.len(), |i: int| char_bytes(v[i]));
    lemma_concat_fixed(parts, 4);
    assert forall|i: int| 0 <= i < v.len() implies (#[trigger] v[i]) as u32 == word_at(
        b,
        at + 4 * i,
    ) && is_scalar_value(word_at(b, at + 4 * i)) by {
        assert(concat_all(parts).subrange(4 * i, 4 * i + 4) == parts[i]);
        assert(b.subrange(at + 4 * i, at + 4 * i + 4) =~= b.subrange(
            at,
            at + 4 * v.len(),
        ).subrange(4 * i, 4 * i + 4));
        lemma_char_field(b, at + 4 * i, v[i]);
    }
    assert forall|k: int| 0 <= k < v.len() implies is_scalar_value(
        #[trigger] word_at(b, at + 4 * k),
    ) by {
        assert(v[k] as u32 == word_at(b, at + 4 * k));
    }
}

/// Two arrays of characters read from the same bytes are equal.
pub proof fn lemma_chars_unique(b: Seq<u8>, at: int, v1: Seq<char>, v2: Seq<char>)
    requires
        v1.len() == v2.len(),
        reads_chars(b, at, v1),
        reads_chars(b, at, v2),
    ensures
        v1 == v2,
{
    assert forall|i: int| 0 <= i < v1.len() implies v1[i] == v2[i] by {
        let u = v1[i] as u32;
        assert(v2[i] as u32 == u);
        vstd::utf8::char_u32_cast(v1[i], u);
        vstd::utf8::char_u32_cast(v2[i], u);
    }
    assert(v1 =~= v2);
}

/// An array of name slots is read from where its bytes lie.
pub proof fn lemma_slots_field(b: Seq<u8>, at: int, v: Seq<[u8; 2]>)
    requires
        0 <= at,
        at + 2 * v.len() <= b.len(),
        b.subrange(at, at + 2 * v.len()) == slots_bytes(v),
    ensures
        reads_slots(b, at, v),
{
    let parts = Seq::new(v.len(), |i: int| v[i]@);
    lemma_concat_fixed(parts, 2);
    assert forall|i: int| 0 <= i < v.len() implies (#[trigger] v[i])[0] == b[at + 2 * i]
        && v[i][1] == b[at + 2 * i + 1] by {
        assert(concat_all(parts).subrange(2 * i, 2 * i + 2) == parts[i]);
        let inner = b.subrange(at, at + 2 * v.len());
        assert(inner.subrange(2 * i, 2 * i + 2)[0] == b[at + 2 * i]);
        assert(inner.subrange(2 * i, 2 * i + 2)[1] == b[at + 2 * i + 1]);
    }
}

/// A header record is read back from its own bytes.
pub proof fn lemma_reads_header(b: Seq<u8>, h: Header)
    requires
        512 <= b.len(),
        b.subrange(0, 512) == header_bytes(h),
    ensures
        reads_header(b, h),
        chars_readable(b, 416, 24),
{
    let r = header_bytes(h);
    lemma_i32s_len(h.soundtrack_ids@);
    lemma_chars_len(h.padding@);
    assert(b.subrange(0, 4) =~= i32_bytes(h.magic)) by {
        assert(r.subrange(0, 4) =~= i32_bytes(h.magic));
        assert(b.subrange(0, 4) =~= r.subrange(0, 4));
    }
    assert(b.subrange(4, 8) =~= i32_bytes(h.num_soundtracks)) by {
        assert(r.subrange(4, 8) =~= i32_bytes(h.num_soundtracks));
        assert(b.subrange(4, 8) =~= r.subrange(4, 8));
    }
    assert(b.subrange(8, 12) =~= i32_bytes(h.next_soundtrack_id)) by {
        assert(r.subrange(8, 12) =~= i32_bytes(h.next_soundtrack_id));
        assert(b.subrange(8, 12) =~= r.subrange(8, 12));
    }
    assert(b.subrange(12, 412) =~= i32s_bytes(h.soundtrack_ids@)) by {
        assert(r.subrange(12, 412) =~= i32s_bytes(h.soundtrack_ids@));
        assert(b.subrange(12, 412) =~= r.subrange(12, 412));
    }
    assert(b.subrange(412, 416) =~= i32_bytes(h.next_song_id)) by {
        assert(r.subrange(412, 416) =~= i32_bytes(h.next_song_id));
        assert(b.subrange(412, 416) =~= r.subrange(412, 416));
    }
    assert(b.subrange(416, 512) =~= chars_bytes(h.padding@)) by {
        assert(r.subrange(416, 512) =~= chars_bytes(h.padding@));
        assert(b.subrange(416, 512) =~= r.subrange(416, 512));
    }
    lemma_i32_field(b, 0, h.magic);
    lemma_i32_field(b, 4, h.num_soundtracks);
    lemma_i32_field(b, 8, h.next_soundtrack_id);
    lemma_i32s_field(b, 12, h.soundtrack_ids@);
    lemma_i32_field(b, 412, h.next_song_id);
    lemma_chars_field(b, 416, h.padding@);
}

/// A soundtrack record is read back from its own bytes.
pub proof fn lemma_reads_soundtrack(b: Seq<u8>, at: int, s: Soundtrack)
    requires
        0 <= at,
        at + 512 <= b.len(),
        b.subrange(at, at + 512) == soundtrack_bytes(s),
    ensures
        reads_soundtrack(b, at, s),
        chars_readable(b, at + 416, 24),
{
    let r = soundtrack_bytes(s);
    lemma_i32s_len(s.song_groups_ids@);
    lemma_slots_len(s.name@);
    lemma_chars_len(s.padding@);
    assert(b.subrange(at, at + 4) =~= i32_bytes(s.magic)) by {
        assert(r.subrange(0, 4) =~= i32_bytes(s.magic));
        assert(b.subrange(at, at + 4) =~= r.subrange(0, 4));
    }
    assert(b.subrange(at + 4, at + 8) =~= i32_bytes(s.id)) by {
        assert(r.subrange(4, 8) =~= i32_bytes(s.id));
        assert(b.subrange(at + 4, at + 8) =~= r.subrange(4, 8));
    }
    assert(b.subrange(at + 8, at + 12) =~= u32_bytes(s.num_songs)) by {
        assert(r.subrange(8, 12) =~= u32_bytes(s.num_songs));
        assert(b.subrange(at + 8, at + 12) =~= r.subrange(8, 12));
    }
    assert(b.subrange(at + 12, at + 348) =~= i32s_bytes(s.song_groups_ids@)) by {
        assert(r.subrange(12, 348) =~= i32s_bytes(s.song_groups_ids@));
        assert(b.subrange(at + 12, at + 348) =~= r.subrange(12, 348));
    }
    assert(b.subrange(at + 348, at + 352) =~= i32_bytes(s.total_time_miliseconds)) by {
        assert(r.subrange(348, 352) =~= i32_bytes(s.total_time_miliseconds));
        assert(b.subrange(at + 348, at + 352) =~= r.subrange(348, 352));
    }
    assert(b.subrange(at + 352, at + 416) =~= slots_bytes(s.name@)) by {
        assert(r.subrange(352, 416) =~= slots_bytes(s.name@));
        assert(b.subrange(at + 352, at + 416) =~= r.subrange(352, 416));
    }
    assert(b.subrange(at + 416, at + 512) =~= chars_bytes(s.padding@)) by {
        assert(r.subrange(416, 512) =~= chars_bytes(s.padding@));
        assert(b.subrange(at + 416, at + 512) =~= r.subrange(416, 512));
    }
    lemma_i32_field(b, at, s.magic);
    lemma_i32_field(b, at + 4, s.id);
    lemma_u32_field(b, at + 8, s.num_songs);
    lemma_i32s_field(b, at + 12, s.song_groups_ids@);
    lemma_i32_field(b, at + 348, s.total_time_miliseconds);
    lemma_slots_field(b, at + 352, s.name@);
    lemma_chars_field(b, at + 416, s.padding@);
}

/// A song-group record is read back from its own bytes.
pub proof fn lemma_reads_song(b: Seq<u8>, at: int, s: Song)
    requires
        0 <= at,
        at + 512 <= b.len(),
        b.subrange(at, at + 512) == song_bytes(s),
    ensures
        reads_song(b, at, s),
        chars_readable(b, at + 448, 16),
{
    let r = song_bytes(s);
    lemma_i32s_len(s.song_id@);
    lemma_i32s_len(s.song_time_miliseconds@);
    lemma_slots_len(s.song_name@);
    lemma_chars_len(s.cpadding@);
    assert(b.subrange(at, at + 4) =~= i32_bytes(s.magic)) by {
        assert(r.subrange(0, 4) =~= i32_bytes(s.magic));
        assert(b.subrange(at, at + 4) =~= r.subrange(0, 4));
    }
    assert(b.subrange(at + 4, at + 8) =~= i32_bytes(s.id)) by {
        assert(r.subrange(4, 8) =~= i32_bytes(s.id));
        assert(b.subrange(at + 4, at + 8) =~= r.subrange(4, 8));
    }
    assert(b.subrange(at + 8, at + 12) =~= i32_bytes(s.soundtrack_id)) by {
        assert(r.subrange(8, 12) =~= i32_bytes(s.soundtrack_id));
        assert(b.subrange(at + 8, at + 12) =~= r.subrange(8, 12));
    }
    assert(b.subrange(at + 12, at + 16) =~= i32_bytes(s.ipadding)) by {
        assert(r.subrange(12, 16) =~= i32_bytes(s.ipadding));
        assert(b.subrange(at + 12, at + 16) =~= r.subrange(12, 16));
    }
    assert(b.subrange(at + 16, at + 40) =~= i32s_bytes(s.song_id@)) by {
        assert(r.subrange(16, 40) =~= i32s_bytes(s.song_id@));
        assert(b.subrange(at + 16, at + 40) =~= r.subrange(16, 40));
    }
    assert(b.subrange(at + 40, at + 64) =~= i32s_bytes(s.song_time_miliseconds@)) by {
        assert(r.subrange(40, 64) =~= i32s_bytes(s.song_time_miliseconds@));
        assert(b.subrange(at + 40, at + 64) =~= r.subrange(40, 64));
    }
    assert(b.subrange(at + 64, at + 448) =~= slots_bytes(s.song_name@)) by {
        assert(r.subrange(64, 448) =~= slots_bytes(s.song_name@));
        assert(b.subrange(at + 64, at + 448) =~= r.subrange(64, 448));
    }
    assert(b.subrange(at + 448, at + 512) =~= chars_bytes(s.cpadding@)) by {
        assert(r.subrange(448, 512) =~= chars_bytes(s.cpadding@));
        assert(b.subrange(at + 448, at + 512) =~= r.subrange(448, 512));
    }
    lemma_i32_field(b, at, s.magic);
    lemma_i32_field(b, at + 4, s.id);
    lemma_i32_field(b, at + 8, s.soundtrack_id);
    lemma_i32_field(b, at + 12, s.ipadding);
    lemma_i32s_field(b, at + 16, s.song_id@);
    lemma_i32s_field(b, at + 40, s.song_time_miliseconds@);
    lemma_slots_field(b, at + 64, s.song_name@);
    lemma_chars_field(b, at + 448, s.cpadding@);
}

/// Two header records read from the same bytes are equal.
pub proof fn lemma_header_unique(b: Seq<u8>, h1: Header, h2: Header)
    requires
        reads_header(b, h1),
        reads_header(b, h2),
    ensures
        h1 == h2,
{
    assert(h1.soundtrack_ids =~= h2.soundtrack_ids);
    lemma_chars_unique(b, 416, h1.padding@, h2.padding@);
    assert(h1.padding =~= h2.padding);
}

/// Two soundtrack records read from the same bytes are equal.
pub proof fn lemma_soundtrack_unique(b: Seq<u8>, at: int, s1: Soundtrack, s2: Soundtrack)
    requires
        reads_soundtrack(b, at, s1),
        reads_soundtrack(b, at, s2),
    ensures
        s1 == s2,
{
    assert(s1.song_groups_ids =~= s2.song_groups_ids);
    assert forall|i: int| 0 <= i < 32 implies s1.name[i] == s2.name[i] by {
        assert(s1.name@[i][0] == s2.name@[i][0]);
        assert(s1.name[i] =~= s2.name[i]);
    }
    assert(s1.name =~= s2.name);
    lemma_chars_unique(b, at + 416, s1.padding@, s2.padding@);
    assert(s1.padding =~= s2.padding);
}

/// Two song-group records read from the same bytes are equal.
pub proof fn lemma_song_unique(b: Seq<u8>, at: int, s1: Song, s2: Song)
    requires
        reads_song(b, at, s1),
        reads_song(b, at, s2),
    ensures
        s1 == s2,
{
    assert(s1.song_id =~= s2.song_id);
    assert(s1.song_time_miliseconds =~= s2.song_time_miliseconds);
    assert forall|i: int| 0 <= i < 192 implies s1.song_name[i] == s2.song_name[i] by {
        assert(s1.song_name@[i][0] == s2.song_name@[i][0]);
        assert(s1.song_name[i] =~= s2.song_name[i]);
    }
    assert(s1.song_name =~= s2.song_name);
    lemma_chars_unique(b, at + 448, s1.cpadding@, s2.cpadding@);
    assert(s1.cpadding =~= s2.cpadding);
}

/// The records of a database are read back from the bytes that `serialize`
/// writes for them.
pub proof fn lemma_reads_serialized(header: Header, soundtracks: Seq<Soundtrack>, songs: Seq<Song>)
    requires
        soundtracks.len() <= 100,
        header.num_soundtracks == soundtracks.len(),
    ensures
        reads_database(database_bytes(header, soundtracks, songs), header, soundtracks, songs),
        chars_readable(database_bytes(header, soundtracks, songs), 416, 24),
        forall|i: int|
            0 <= i < soundtracks.len() ==> chars_readable(
                database_bytes(header, soundtracks, songs),
                #[trigger] soundtrack_offset(i) + 416,
                24,
            ),
        forall|j: int|
            0 <= j < songs.len() ==> chars_readable(
                database_bytes(header, soundtracks, songs),
                #[trigger] song_offset(j) + 448,
                16,
            ),
{
    let b = database_bytes(header, soundtracks, songs);
    lemma_database_layout(header, soundtracks, songs);
    lemma_reads_header(b, header);
    assert forall|i: int| 0 <= i < soundtracks.len() implies reads_soundtrack(
        b,
        soundtrack_offset(i),
        #[trigger] soundtracks[i],
    ) by {
        lemma_reads_soundtrack(b, soundtrack_offset(i), soundtracks[i]);
    }
    assert forall|i: int| 0 <= i < soundtracks.len() implies chars_readable(
        b,
        #[trigger] soundtrack_offset(i) + 416,
        24,
    ) by {
        assert(b.subrange(soundtrack_offset(i), soundtrack_offset(i) + 512) == soundtrack_bytes(
            soundtracks[i],
        ));
        lemma_reads_soundtrack(b, soundtrack_offset(i), soundtracks[i]);
    }
    assert forall|j: int| 0 <= j < songs.len() implies reads_song(
        b,
        song_offset(j),
        #[trigger] songs[j],
    ) by {
        lemma_reads_song(b, song_offset(j), songs[j]);
    }
    assert forall|j: int| 0 <= j < songs.len() implies chars_readable(
        b,
        #[trigger] song_offset(j) + 448,
        16,
    ) by {
        assert(b.subrange(song_offset(j), song_offset(j) + 512) == song_bytes(songs[j]));
        lemma_reads_song(b, song_offset(j), songs[j]);
    }
}

/// What `serialize` writes for a header that counts its soundtracks can be
/// read as a database.
pub proof fn lemma_serialized_is_database(
    header: Header,
    soundtracks: Seq<Soundtrack>,
    songs: Seq<Song>,
)
    requires
        soundtracks.len() <= 100,
        header.num_soundtracks == soundtracks.len(),
    ensures
        is_database(database_bytes(header, soundtracks, songs)),
{
    let b = database_bytes(header, soundtracks, songs);
    let n = songs.len() as int;
    lemma_database_layout(header, soundtracks, songs);
    lemma_reads_serialized(header, soundtracks, songs);
    lemma_is_database(b, header, soundtracks.len() as int, n);
}

/// A stream of whole records with readable padding and a header that counts
/// at most a hundred soundtracks can be read as a database.
proof fn lemma_is_database(b: Seq<u8>, header: Header, m: int, n: int)
    requires
        0 <= m <= 100,
        0 <= n,
        header.num_soundtracks == m,
        b.len() == 512 * (101 + n),
        reads_header(b, header),
        chars_readable(b, 416, 24),
        forall|i: int| 0 <= i < m ==> chars_readable(b, #[trigger] soundtrack_offset(i) + 416, 24),
        forall|j: int| 0 <= j < n ==> chars_readable(b, #[trigger] song_offset(j) + 448, 16),
    ensures
        is_database(b),
{
    assert(song_count(b.len() as int) == n);
}

/// Reading back what `serialize` wrote gives the records that were written:
/// whatever is read from the bytes of a database whose header counts its
/// soundtracks is equal to the header, the soundtracks and the song groups
/// that the bytes were made of.
pub proof fn lemma_round_trip(
    header: Header,
    soundtracks: Seq<Soundtrack>,
    songs: Seq<Song>,
    header2: Header,
    soundtracks2: Seq<Soundtrack>,
    songs2: Seq<Song>,
)
    requires
        soundtracks.len() <= 100,
        header.num_soundtracks == soundtracks.len(),
        reads_database(
            database_bytes(header, soundtracks, songs),
            header2,
            soundtracks2,
            songs2,
        ),
    ensures
        header2 == header,
        soundtracks2 == soundtracks,
        songs2 == songs,
{
    let b = database_bytes(header, soundtracks, songs);
    lemma_database_layout(header, soundtracks, songs);
    lemma_reads_serialized(header, soundtracks, songs);
    lemma_header_unique(b, header, header2);
    assert forall|i: int| 0 <= i < soundtracks.len() implies soundtracks2[i] == soundtracks[i] by {
        lemma_soundtrack_unique(b, soundtrack_offset(i), soundtracks[i], soundtracks2[i]);
    }
    assert(soundtracks2 =~= soundtracks);
    assert forall|j: int| 0 <= j < songs.len() implies songs2[j] == songs[j] by {
        lemma_song_unique(b, song_offset(j), songs[j], songs2[j]);
    }
    assert(songs2 =~= songs);
}

} // verus!
