//! Building the records: the song groups and work items of one soundtrack,
//! the soundtrack record, and the header.
//!
//! The entries of a soundtrack are cut into groups of six, in the order of
//! the listing, and each group is one song-group record. Every regular file
//! gets the next global song id. An entry that is no regular file keeps its
//! slot in the group, with id 0 and duration 0, but takes no name segment.
use crate::layout::zeros;
use crate::listing::{
    count_files, count_tracks, entries_of, folder_name, folder_text, group_count, groups_for,
    lemma_count_tracks_bound, lemma_count_tracks_grows, lemma_count_tracks_split, millis,
    recorded_millis, sum_millis, total_millis, track_name, track_text, FolderEntry, TrackEntry,
};
use crate::names::{ascii_form, encode_name, holds_name, name_bytes};
use crate::records::{
    all_nul, Header, MusicFile, Song, Soundtrack, HEADER_MAGIC, SONG_MAGIC, SOUNDTRACK_MAGIC,
};
use vstd::prelude::*;

verus! {

/// The names of the regular files among the entries, 32 slots each, one
/// after the other.
pub open spec fn names_of(es: Seq<TrackEntry>) -> Seq<u8>
    decreases es.len(),
{
    if es.len() == 0 {
        Seq::empty()
    } else if es.last().is_file {
        names_of(es.drop_last()) + name_bytes(ascii_form(track_name(es.last())), 32)
    } else {
        names_of(es.drop_last())
    }
}

/// The low bytes of the 192 name slots of a song group: the names of its
/// regular files, then zeros.
pub open spec fn group_names(chunk: Seq<TrackEntry>) -> Seq<u8> {
    names_of(chunk) + zeros((192 - names_of(chunk).len()) as nat)
}

/// The song id in slot `k` of a group: regular files count on from
/// `first_id`; any other slot holds 0.
pub open spec fn slot_song_id(chunk: Seq<TrackEntry>, first_id: int, k: int) -> int {
    if 0 <= k < chunk.len() && chunk[k].is_file {
        first_id + count_tracks(chunk.take(k))
    } else {
        0
    }
}

/// The duration in slot `k` of a group.
pub open spec fn slot_millis(chunk: Seq<TrackEntry>, k: int) -> int {
    if 0 <= k < chunk.len() {
        millis(chunk[k])
    } else {
        0
    }
}

/// `song` is the record of the group `chunk`, which is group `group_id` of
/// soundtrack `soundtrack_id` and whose first regular file has the global id
/// `first_id`.
pub open spec fn is_song_of(
    song: Song,
    chunk: Seq<TrackEntry>,
    soundtrack_id: int,
    group_id: int,
    first_id: int,
) -> bool {
    &&& song.magic == SONG_MAGIC
    &&& song.soundtrack_id == soundtrack_id
    &&& song.id == group_id
    &&& song.ipadding == 0
    &&& forall|k: int| 0 <= k < 6 ==> #[trigger] song.song_id[k] == slot_song_id(chunk, first_id, k)
    &&& forall|k: int|
        0 <= k < 6 ==> #[trigger] song.song_time_miliseconds[k] == slot_millis(chunk, k)
    &&& holds_name(song.song_name@, group_names(chunk))
    &&& all_nul(song.cpadding@)
}

/// Where group `g` of the entries ends.
pub open spec fn group_end(es: Seq<TrackEntry>, g: int) -> int {
    if 6 * g + 6 <= es.len() {
        6 * g + 6
    } else {
        es.len() as int
    }
}

/// Group `g` of the entries: entries `6 * g` to `6 * g + 5`, as far as there
/// are any.
pub open spec fn chunk_of(es: Seq<TrackEntry>, g: int) -> Seq<TrackEntry> {
    es.subrange(6 * g, group_end(es, g))
}

/// From `at` on, `songs` holds the song groups of the soundtrack with the
/// entries `es`, whose first regular file has the global id `first_id`.
pub open spec fn holds_songs(
    songs: Seq<Song>,
    at: int,
    es: Seq<TrackEntry>,
    soundtrack_id: int,
    first_id: int,
) -> bool {
    forall|g: int|
        0 <= g < group_count(es.len()) ==> is_song_of(
            songs[at + g],
            #[trigger] chunk_of(es, g),
            soundtrack_id,
            g,
            first_id + count_tracks(es.take(6 * g)),
        )
}

/// `m` is the work item of entry `e`.
pub open spec fn is_file_of(
    m: MusicFile,
    e: TrackEntry,
    soundtrack_index: int,
    soundtrack_name: Seq<char>,
    id: int,
) -> bool {
    &&& m.path == e.path
    &&& m.soundtrack_index == soundtrack_index
    &&& m.soundtrack_name@ == soundtrack_name
    &&& m.index == id
}

/// From `at` on, `files` holds one work item for each regular file among the
/// entries `es`, in their order; the position of an item is its global id.
pub open spec fn holds_files(
    files: Seq<MusicFile>,
    at: int,
    es: Seq<TrackEntry>,
    soundtrack_index: int,
    soundtrack_name: Seq<char>,
) -> bool {
    forall|e: int|
        0 <= e < es.len() && (#[trigger] es[e]).is_file ==> is_file_of(
            files[at + count_tracks(es.take(e))],
            es[e],
            soundtrack_index,
            soundtrack_name,
            at + count_tracks(es.take(e)),
        )
}

/// The group id in slot `j` of a soundtrack with `groups` song groups.
pub open spec fn slot_group_id(groups: nat, j: int) -> int {
    if j < groups {
        j
    } else {
        0
    }
}

/// `s` is the record of the folder `f`, which is soundtrack `id`.
pub open spec fn is_soundtrack_of(s: Soundtrack, f: FolderEntry, id: int) -> bool {
    &&& s.magic == SOUNDTRACK_MAGIC
    &&& s.id == id
    &&& s.num_songs == count_tracks(entries_of(f))
    &&& forall|j: int|
        0 <= j < 84 ==> #[trigger] s.song_groups_ids[j] == slot_group_id(
            group_count(entries_of(f).len()),
            j,
        )
    &&& s.total_time_miliseconds == total_millis(entries_of(f))
    &&& holds_name(s.name@, name_bytes(ascii_form(folder_name(f)), 32))
    &&& all_nul(s.padding@)
}

/// `h` is the header of a database with `count` soundtracks, the last of
/// which has `last_songs` songs.
pub open spec fn is_header_for(h: Header, count: int, last_songs: int) -> bool {
    &&& h.magic == HEADER_MAGIC
    &&& h.num_soundtracks == count
    &&& h.next_soundtrack_id == count + 1
    &&& forall|j: int|
        0 <= j < 100 ==> #[trigger] h.soundtrack_ids[j] == (if j < count {
            j
        } else {
            0
        })
    &&& h.next_song_id == last_songs
    &&& all_nul(h.padding@)
}

/// The names of `k` regular files take `32 * k` slots.
pub proof fn lemma_names_len(es: Seq<TrackEntry>)
    ensures
        names_of(es).len() == 32 * count_tracks(es),
    decreases es.len(),
{
    if es.len() > 0 {
        lemma_names_len(es.drop_last());
    }
}

/// Builds the record of one song group. Slot `k` is for entry `k` of the
/// group: a regular file gets the next id from `first_id` on, its measured
/// duration, and the next free segment of 32 name slots; any other entry and
/// any slot beyond the group keeps id 0 and duration 0.
pub fn build_song(chunk: &[TrackEntry], soundtrack_id: i32, group_id: i32, first_id: i32) -> (song:
    Song)
    requires
        chunk@.len() <= 6,
        0 <= first_id,
        first_id + count_tracks(chunk@) <= i32::MAX,
    ensures
        is_song_of(song, chunk@, soundtrack_id as int, group_id as int, first_id as int),
{
    let mut song_id: [i32; 6] = [0; 6];
    let mut song_time_miliseconds: [i32; 6] = [0; 6];
    let mut song_name: [[u8; 2]; 192] = [[0; 2]; 192];
    let n: usize = chunk.len();
    let mut seen: usize = 0;
    let mut k: usize = 0;
    proof {
        lemma_count_tracks_bound(chunk@);
    }
    while k < n
        invariant
            k <= n == chunk@.len() <= 6,
            0 <= first_id,
            first_id + count_tracks(chunk@) <= i32::MAX,
            seen == count_tracks(chunk@.take(k as int)),
            seen <= k,
            names_of(chunk@.take(k as int)).len() == 32 * seen,
            forall|j: int| 0 <= j < k ==> #[trigger] song_id[j] == slot_song_id(chunk@, first_id as int, j),
            forall|j: int| k <= j < 6 ==> #[trigger] song_id[j] == 0,
            forall|j: int| 0 <= j < k ==> #[trigger] song_time_miliseconds[j] == slot_millis(chunk@, j),
            forall|j: int| k <= j < 6 ==> #[trigger] song_time_miliseconds[j] == 0,
            forall|t: int|
                0 <= t < 32 * seen ==> (#[trigger] song_name[t])[0] == names_of(
                    chunk@.take(k as int),
                )[t] && song_name[t][1] == 0,
            forall|t: int|
                32 * seen <= t < 192 ==> (#[trigger] song_name[t])[0] == 0 && song_name[t][1] == 0,
        decreases n - k,
    {
        proof {
            assert(chunk@.take(k + 1).drop_last() =~= chunk@.take(k as int));
            lemma_count_tracks_grows(chunk@, k + 1, n as int);
            assert(chunk@.take(n as int) =~= chunk@);
        }
        let entry = &chunk[k];
        if entry.is_file {
            song_id[k] = first_id + seen as i32;
            song_time_miliseconds[k] = recorded_millis(entry);
            let name = encode_name(track_text(entry), 32);
            let ghost before = song_name;
            let ghost low = name_bytes(ascii_form(track_name(*entry)), 32);
            let mut t: usize = 0;
            while t < 32
                invariant
                    t <= 32,
                    seen < 6,
                    holds_name(name@, low),
                    low.len() == 32,
                    forall|u: int|
                        0 <= u < 32 * seen ==> (#[trigger] song_name[u]) == before[u],
                    forall|u: int|
                        32 * seen <= u < 32 * seen + t ==> (#[trigger] song_name[u])[0] == low[u
                            - 32 * seen] && song_name[u][1] == 0,
                    forall|u: int|
                        32 * seen + t <= u < 192 ==> (#[trigger] song_name[u])[0] == 0
                            && song_name[u][1] == 0,
                decreases 32 - t,
            {
                song_name[32 * seen + t] = name[t];
                t = t + 1;
            }
            seen = seen + 1;
        } else {
            assert(song_time_miliseconds[k as int] == 0);
        }
        k = k + 1;
    }
    proof {
        assert(chunk@.take(k as int) =~= chunk@);
        lemma_names_len(chunk@);
    }
    Song {
        magic: SONG_MAGIC,
        soundtrack_id,
        id: group_id,
        ipadding: 0,
        song_id,
        song_time_miliseconds,
        song_name,
        cpadding: ['\0'; 16],
    }
}

/// Appends the song-group records of one soundtrack: one record for each
/// group of six entries, in order, the last group with what is left.
pub fn push_songs(songs: &mut Vec<Song>, es: &Vec<TrackEntry>, soundtrack_id: i32, first_id: i32)
    requires
        0 <= first_id,
        first_id + count_tracks(es@) <= i32::MAX,
        group_count(es@.len()) <= i32::MAX,
    ensures
        final(songs)@.len() == old(songs)@.len() + group_count(es@.len()),
        final(songs)@.take(old(songs)@.len() as int) == old(songs)@,
        holds_songs(
            final(songs)@,
            old(songs)@.len() as int,
            es@,
            soundtrack_id as int,
            first_id as int,
        ),
{
    let n: usize = es.len();
    let groups: usize = groups_for(n);
    let ghost start_len = songs@.len() as int;
    let mut next_id: i32 = first_id;
    let mut g: usize = 0;
    proof {
        assert(es@.take(0) =~= Seq::<TrackEntry>::empty());
    }
    while g < groups
        invariant
            g <= groups == group_count(n as nat) <= i32::MAX,
            n == es@.len(),
            0 <= first_id,
            first_id + count_tracks(es@) <= i32::MAX,
            start_len == old(songs)@.len(),
            songs@.len() == start_len + g,
            songs@.take(start_len) == old(songs)@,
            g < groups ==> next_id == first_id + count_tracks(es@.take(6 * g)),
            forall|h: int|
                0 <= h < g ==> is_song_of(
                    songs@[start_len + h],
                    #[trigger] chunk_of(es@, h),
                    soundtrack_id as int,
                    h,
                    first_id + count_tracks(es@.take(6 * h)),
                ),
        decreases groups - g,
    {
        let start: usize = 6 * g;
        let end: usize = if n - start >= 6 {
            start + 6
        } else {
            n
        };
        let chunk = vstd::slice::slice_subrange(es.as_slice(), start, end);
        assert(chunk@ == chunk_of(es@, g as int));
        let found: usize = count_files(chunk);
        proof {
            lemma_count_tracks_split(es@, start as int, end as int);
            lemma_count_tracks_grows(es@, end as int, n as int);
            assert(es@.take(n as int) =~= es@);
            lemma_count_tracks_bound(chunk@);
        }
        let song = build_song(chunk, soundtrack_id, g as i32, next_id);
        let ghost before = songs@;
        songs.push(song);
        proof {
            assert(songs@.take(start_len) =~= before.take(start_len));
            assert forall|h: int| 0 <= h < g + 1 implies is_song_of(
                songs@[start_len + h],
                #[trigger] chunk_of(es@, h),
                soundtrack_id as int,
                h,
                first_id + count_tracks(es@.take(6 * h)),
            ) by {
                if h < g {
                    assert(songs@[start_len + h] == before[start_len + h]);
                }
            }
        }
        next_id = next_id + found as i32;
        g = g + 1;
    }
}

/// Appends one work item for each regular file among the entries, in their
/// order. The global id of an item is its position among all items.
pub fn push_files(
    files: &mut Vec<MusicFile>,
    es: &Vec<TrackEntry>,
    soundtrack_index: u32,
    soundtrack_name: &String,
)
    requires
        old(files)@.len() + count_tracks(es@) <= u32::MAX,
    ensures
        final(files)@.len() == old(files)@.len() + count_tracks(es@),
        final(files)@.take(old(files)@.len() as int) == old(files)@,
        holds_files(
            final(files)@,
            old(files)@.len() as int,
            es@,
            soundtrack_index as int,
            soundtrack_name@,
        ),
{
    let n: usize = es.len();
    let ghost start_len = files@.len() as int;
    let mut k: usize = 0;
    proof {
        assert(es@.take(0) =~= Seq::<TrackEntry>::empty());
    }
    while k < n
        invariant
            k <= n == es@.len(),
            start_len == old(files)@.len(),
            start_len + count_tracks(es@) <= u32::MAX,
            files@.len() == start_len + count_tracks(es@.take(k as int)),
            files@.take(start_len) == old(files)@,
            forall|e: int|
                0 <= e < k && (#[trigger] es@[e]).is_file ==> is_file_of(
                    files@[start_len + count_tracks(es@.take(e))],
                    es@[e],
                    soundtrack_index as int,
                    soundtrack_name@,
                    start_len + count_tracks(es@.take(e)),
                ),
        decreases n - k,
    {
        proof {
            assert(es@.take(k + 1).drop_last() =~= es@.take(k as int));
            lemma_count_tracks_grows(es@, k + 1, n as int);
            assert(es@.take(n as int) =~= es@);
        }
        let entry = &es[k];
        if entry.is_file {
            let ghost before = files@;
            let id: usize = files.len();
            files.push(
                MusicFile {
                    path: entry.path.clone(),
                    soundtrack_index,
                    soundtrack_name: soundtrack_name.clone(),
                    index: id as u32,
                },
            );
            proof {
                assert(files@.take(start_len) =~= before.take(start_len));
                assert forall|e: int| 0 <= e < k + 1 && (#[trigger] es@[e]).is_file implies is_file_of(
                    files@[start_len + count_tracks(es@.take(e))],
                    es@[e],
                    soundtrack_index as int,
                    soundtrack_name@,
                    start_len + count_tracks(es@.take(e)),
                ) by {
                    if e < k {
                        lemma_count_tracks_grows(es@, e, k as int);
                        assert(files@[start_len + count_tracks(es@.take(e))] == before[start_len
                            + count_tracks(es@.take(e))]);
                    }
                }
            }
        }
        k = k + 1;
    }
    assert(es@.take(k as int) =~= es@);
}

/// Builds the record of a soundtrack from its folder: the number of its
/// songs, the ids of its first 84 song groups, its total time and its name.
pub fn build_soundtrack(folder: &FolderEntry, id: i32) -> (s: Soundtrack)
    requires
        folder.entries is Some,
        count_tracks(entries_of(*folder)) <= u32::MAX,
        i32::MIN <= total_millis(entries_of(*folder)) <= i32::MAX,
    ensures
        is_soundtrack_of(s, *folder, id as int),
{
    let es: &Vec<TrackEntry> = match &folder.entries {
        Some(v) => v,
        None => {
            return Soundtrack::default();
        },
    };
    let groups: usize = groups_for(es.len());
    let mut song_groups_ids: [i32; 84] = [0; 84];
    let mut j: usize = 0;
    while j < 84 && j < groups
        invariant
            j <= 84,
            j <= groups,
            forall|t: int| 0 <= t < j ==> #[trigger] song_groups_ids[t] == t,
            forall|t: int| j <= t < 84 ==> #[trigger] song_groups_ids[t] == 0,
        decreases 84 - j,
    {
        song_groups_ids[j] = j as i32;
        j = j + 1;
    }
    let packed = encode_name(folder_text(folder), 32);
    let mut name: [[u8; 2]; 32] = [[0; 2]; 32];
    let mut t: usize = 0;
    while t < 32
        invariant
            t <= 32,
            packed@.len() == 32,
            forall|u: int| 0 <= u < t ==> #[trigger] name[u] == packed@[u],
        decreases 32 - t,
    {
        name[t] = packed[t];
        t = t + 1;
    }
    Soundtrack {
        magic: SOUNDTRACK_MAGIC,
        id,
        num_songs: count_files(es.as_slice()) as u32,
        song_groups_ids,
        total_time_miliseconds: sum_millis(es) as i32,
        name,
        padding: ['\0'; 24],
    }
}

/// Builds the header of a database with `count` soundtracks: their ids are 0
/// to `count - 1`, in the first slots, and the other slots hold 0.
pub fn build_header(count: i32, last_songs: i32) -> (h: Header)
    requires
        0 <= count <= 100,
    ensures
        is_header_for(h, count as int, last_songs as int),
{
    let mut soundtrack_ids: [i32; 100] = [0; 100];
    let mut i: i32 = 0;
    while i < count
        invariant
            0 <= i <= count <= 100,
            forall|j: int| 0 <= j < i ==> #[trigger] soundtrack_ids[j] == j,
            forall|j: int| i <= j < 100 ==> #[trigger] soundtrack_ids[j] == 0,
        decreases count - i,
    {
        soundtrack_ids[i as usize] = i;
        i = i + 1;
    }
    Header {
        magic: HEADER_MAGIC,
        num_soundtracks: count,
        next_soundtrack_id: count + 1,
        soundtrack_ids,
        next_song_id: last_songs,
        padding: ['\0'; 24],
    }
}

/// Song groups that were in place stay in place when records are appended.
pub proof fn lemma_songs_stay(
    before: Seq<Song>,
    after: Seq<Song>,
    at: int,
    es: Seq<TrackEntry>,
    soundtrack_id: int,
    first_id: int,
)
    requires
        0 <= at,
        at + group_count(es.len()) <= before.len() <= after.len(),
        after.take(before.len() as int) == before,
        holds_songs(before, at, es, soundtrack_id, first_id),
    ensures
        holds_songs(after, at, es, soundtrack_id, first_id),
{
    assert forall|g: int| 0 <= g < group_count(es.len()) implies is_song_of(
        after[at + g],
        #[trigger] chunk_of(es, g),
        soundtrack_id,
        g,
        first_id + count_tracks(es.take(6 * g)),
    ) by {
        assert(after.take(before.len() as int)[at + g] == after[at + g]);
    }
}

/// Work items that were in place stay in place when items are appended.
pub proof fn lemma_files_stay(
    before: Seq<MusicFile>,
    after: Seq<MusicFile>,
    at: int,
    es: Seq<TrackEntry>,
    soundtrack_index: int,
    soundtrack_name: Seq<char>,
)
    requires
        0 <= at,
        at + count_tracks(es) <= before.len() <= after.len(),
        after.take(before.len() as int) == before,
        holds_files(before, at, es, soundtrack_index, soundtrack_name),
    ensures
        holds_files(after, at, es, soundtrack_index, soundtrack_name),
{
    assert forall|e: int| 0 <= e < es.len() && (#[trigger] es[e]).is_file implies is_file_of(
        after[at + count_tracks(es.take(e))],
        es[e],
        soundtrack_index,
        soundtrack_name,
        at + count_tracks(es.take(e)),
    ) by {
        lemma_count_tracks_grows(es, e, es.len() as int);
        assert(es.take(es.len() as int) =~= es);
        assert(after.take(before.len() as int)[at + count_tracks(es.take(e))] == after[at
            + count_tracks(es.take(e))]);
    }
}

} // verus!
