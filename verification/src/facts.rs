//! What holds of every scan: how many song groups a soundtrack has, how the
//! global song ids run, and what the total time of a soundtrack adds up.
use crate::assemble::{
    chunk_of, holds_files, holds_songs, is_song_of, is_soundtrack_of, slot_group_id, slot_millis,
    slot_song_id,
};
use crate::layout::database_bytes;
use crate::listing::{
    count_tracks, entries_of, group_count, groups_before, lemma_count_tracks_grows,
    lemma_count_tracks_split, lemma_groups_before_grows, lemma_tracks_before_grows, total_millis,
    tracks_before, FolderEntry, TrackEntry,
};
use crate::reader::{
    is_database, lemma_reads_serialized, lemma_serialized_is_database, reads_database,
};
use crate::records::{counts_to, Song};
use crate::scan::{display_name, is_scan_of, Scan};
use vstd::prelude::*;

verus! {

/// The song-group records of soundtrack `id`, in their order.
pub open spec fn songs_of(songs: Seq<Song>, id: int) -> Seq<Song>
    decreases songs.len(),
{
    if songs.len() == 0 {
        Seq::empty()
    } else if songs.last().soundtrack_id == id {
        songs_of(songs.drop_last(), id).push(songs.last())
    } else {
        songs_of(songs.drop_last(), id)
    }
}

/// Sum of the six durations of a song group.
pub open spec fn song_millis(song: Song) -> int {
    song.song_time_miliseconds[0] + song.song_time_miliseconds[1] + song.song_time_miliseconds[2]
        + song.song_time_miliseconds[3] + song.song_time_miliseconds[4]
        + song.song_time_miliseconds[5]
}

/// Sum of all durations of the song groups.
pub open spec fn total_of(songs: Seq<Song>) -> int
    decreases songs.len(),
{
    if songs.len() == 0 {
        0
    } else {
        total_of(songs.drop_last()) + song_millis(songs.last())
    }
}

/// The global id of the regular file that is entry `e` of soundtrack `i`: the
/// number of regular files that the listing has before it.
pub open spec fn song_id_at(dirs: Seq<FolderEntry>, i: int, e: int) -> int {
    tracks_before(dirs, i) as int + count_tracks(entries_of(dirs[i]).take(e))
}

/// Where the song groups of a scan's soundtrack `i` lie among all its song
/// groups.
pub open spec fn block_of(s: Scan, dirs: Seq<FolderEntry>, i: int) -> Seq<Song> {
    s.songs@.subrange(groups_before(dirs, i) as int, groups_before(dirs, i + 1) as int)
}

/// Over a run of song groups of one soundtrack, the groups of that
/// soundtrack grow by the run, and those of any other soundtrack stay.
proof fn lemma_run(songs: Seq<Song>, a: int, b: int, id: int)
    requires
        0 <= a <= b <= songs.len(),
    ensures
        (forall|t: int| a <= t < b ==> (#[trigger] songs[t]).soundtrack_id == id) ==> songs_of(
            songs.take(b),
            id,
        ) == songs_of(songs.take(a), id) + songs.subrange(a, b),
        (forall|t: int| a <= t < b ==> (#[trigger] songs[t]).soundtrack_id != id) ==> songs_of(
            songs.take(b),
            id,
        ) == songs_of(songs.take(a), id),
    decreases b - a,
{
    if a < b {
        lemma_run(songs, a, b - 1, id);
        assert(songs.take(b).drop_last() =~= songs.take(b - 1));
        assert(songs.take(b).last() == songs[b - 1]);
        if forall|t: int| a <= t < b ==> (#[trigger] songs[t]).soundtrack_id == id {
            assert(songs.subrange(a, b) =~= songs.subrange(a, b - 1).push(songs[b - 1]));
            assert(songs_of(songs.take(b), id) =~= songs_of(songs.take(a), id) + songs.subrange(
                a,
                b,
            ));
        }
    } else {
        assert(songs_of(songs.take(a), id) + songs.subrange(a, b) =~= songs_of(songs.take(a), id));
    }
}

/// The song groups that a scan holds for soundtrack `j` name soundtrack `j`.
proof fn lemma_block_ids(s: Scan, dirs: Seq<FolderEntry>, j: int)
    requires
        is_scan_of(s, dirs),
        0 <= j < dirs.len(),
    ensures
        groups_before(dirs, j + 1) <= s.songs@.len(),
        forall|t: int|
            groups_before(dirs, j) <= t < groups_before(dirs, j + 1) ==> (
            #[trigger] s.songs@[t]).soundtrack_id == j,
{
    lemma_groups_before_grows(dirs, j + 1, dirs.len() as int);
    let es = entries_of(dirs[j]);
    let at = groups_before(dirs, j) as int;
    assert forall|t: int| at <= t < groups_before(dirs, j + 1) implies (
    #[trigger] s.songs@[t]).soundtrack_id == j by {
        let g = t - at;
        assert(is_song_of(
            s.songs@[at + g],
            chunk_of(es, g),
            j,
            g,
            tracks_before(dirs, j) as int + count_tracks(es.take(6 * g)),
        ));
    }
}

/// Among the song groups of the first `m` soundtracks, those of soundtrack
/// `i` are its own run, or none while `m` has not reached it.
proof fn lemma_songs_of_prefix(s: Scan, dirs: Seq<FolderEntry>, i: int, m: int)
    requires
        is_scan_of(s, dirs),
        0 <= i < dirs.len(),
        0 <= m <= dirs.len(),
    ensures
        groups_before(dirs, m) <= s.songs@.len(),
        songs_of(s.songs@.take(groups_before(dirs, m) as int), i) == (if i < m {
            block_of(s, dirs, i)
        } else {
            Seq::empty()
        }),
    decreases m,
{
    lemma_groups_before_grows(dirs, m, dirs.len() as int);
    if m > 0 {
        lemma_songs_of_prefix(s, dirs, i, m - 1);
        lemma_block_ids(s, dirs, m - 1);
        lemma_run(s.songs@, groups_before(dirs, m - 1) as int, groups_before(dirs, m) as int, i);
        if i == m - 1 {
            assert(Seq::<Song>::empty() + block_of(s, dirs, i) =~= block_of(s, dirs, i));
        }
    }
}

/// The song groups of soundtrack `i` are one run among the song groups of a
/// scan: they follow those of the soundtracks before it.
pub proof fn lemma_songs_of_soundtrack(s: Scan, dirs: Seq<FolderEntry>, i: int)
    requires
        is_scan_of(s, dirs),
        0 <= i < dirs.len(),
    ensures
        groups_before(dirs, i + 1) <= s.songs@.len(),
        songs_of(s.songs@, i) == block_of(s, dirs, i),
        songs_of(s.songs@, i).len() == group_count(entries_of(dirs[i]).len()),
{
    lemma_songs_of_prefix(s, dirs, i, dirs.len() as int);
    lemma_groups_before_grows(dirs, i + 1, dirs.len() as int);
    assert(s.songs@.take(s.songs@.len() as int) =~= s.songs@);
}

/// A soundtrack folder with `k` entries gives the smallest number of song
/// groups of six that hold `k` entries, and in the last of them the slots
/// that no entry is left for hold id 0 and duration 0.
pub proof fn lemma_group_count(s: Scan, dirs: Seq<FolderEntry>, i: int)
    requires
        is_scan_of(s, dirs),
        0 <= i < dirs.len(),
    ensures
        ({
            let k = entries_of(dirs[i]).len() as int;
            let groups = songs_of(s.songs@, i);
            &&& groups.len() == (k + 5) / 6
            &&& k >= 1 ==> 6 * (groups.len() - 1) < k <= 6 * groups.len()
            &&& k >= 1 ==> forall|t: int|
                k - 6 * (groups.len() - 1) <= t < 6 ==> (#[trigger] groups.last().song_id[t]) == 0
                    && groups.last().song_time_miliseconds[t] == 0
        }),
{
    lemma_songs_of_soundtrack(s, dirs, i);
    let es = entries_of(dirs[i]);
    let k = es.len() as int;
    let groups = songs_of(s.songs@, i);
    if k >= 1 {
        let g = groups.len() - 1;
        let at = groups_before(dirs, i) as int;
        assert(groups.last() == s.songs@[at + g]);
        assert(is_song_of(
            s.songs@[at + g],
            chunk_of(es, g),
            i,
            g,
            tracks_before(dirs, i) as int + count_tracks(es.take(6 * g)),
        ));
        assert(chunk_of(es, g).len() == k - 6 * g);
        assert forall|t: int| k - 6 * g <= t < 6 implies (#[trigger] groups.last().song_id[t]) == 0
            && groups.last().song_time_miliseconds[t] == 0 by {
            assert(slot_song_id(chunk_of(es, g), tracks_before(dirs, i) as int + count_tracks(es.take(6 * g)), t) == 0);
            assert(slot_millis(chunk_of(es, g), t) == 0);
        }
    }
}

/// The regular file with `c` regular files before it.
proof fn lemma_track_at(es: Seq<TrackEntry>, c: int) -> (e: int)
    requires
        0 <= c < count_tracks(es),
    ensures
        0 <= e < es.len(),
        es[e].is_file,
        count_tracks(es.take(e)) == c,
    decreases es.len(),
{
    let front = es.drop_last();
    if c < count_tracks(front) {
        let e = lemma_track_at(front, c);
        assert(front.take(e) =~= es.take(e));
        e
    } else {
        assert(es.take(es.len() - 1) =~= front);
        es.len() - 1
    }
}

/// The soundtrack that the global id `n` falls into.
proof fn lemma_soundtrack_at(dirs: Seq<FolderEntry>, m: int, n: int) -> (i: int)
    requires
        0 <= m,
        0 <= n < tracks_before(dirs, m),
    ensures
        0 <= i < m,
        tracks_before(dirs, i) <= n < tracks_before(dirs, i + 1),
    decreases m,
{
    if n < tracks_before(dirs, m - 1) {
        lemma_soundtrack_at(dirs, m - 1, n)
    } else {
        m - 1
    }
}

/// The global song ids of a scan are 0, 1, 2 and so on without a gap: the
/// work item at position `n` has the id `n`.
pub proof fn lemma_song_ids_contiguous(s: Scan, dirs: Seq<FolderEntry>, n: int)
    requires
        is_scan_of(s, dirs),
        0 <= n < s.files@.len(),
    ensures
        s.files@[n].index == n,
{
    let i = lemma_soundtrack_at(dirs, dirs.len() as int, n);
    let es = entries_of(dirs[i]);
    let e = lemma_track_at(es, n - tracks_before(dirs, i));
    assert(holds_files(
        s.files@,
        tracks_before(dirs, i) as int,
        entries_of(dirs[i]),
        i,
        display_name(dirs[i]),
    ));
    assert(es[e].is_file);
}

/// The global song ids follow the order of the listing: a regular file has
/// a smaller id than any entry after it, be that in a later soundtrack or
/// later in the same soundtrack, and every id is below the number of all
/// regular files.
pub proof fn lemma_song_ids_in_order(dirs: Seq<FolderEntry>, i1: int, e1: int, i2: int, e2: int)
    requires
        0 <= i1 <= i2 < dirs.len(),
        0 <= e1 < entries_of(dirs[i1]).len(),
        0 <= e2 < entries_of(dirs[i2]).len(),
        entries_of(dirs[i1])[e1].is_file,
        i1 < i2 || e1 < e2,
    ensures
        0 <= song_id_at(dirs, i1, e1) < song_id_at(dirs, i2, e2) <= tracks_before(
            dirs,
            dirs.len() as int,
        ),
        entries_of(dirs[i2])[e2].is_file ==> song_id_at(dirs, i2, e2) < tracks_before(
            dirs,
            dirs.len() as int,
        ),
{
    let es1 = entries_of(dirs[i1]);
    let es2 = entries_of(dirs[i2]);
    lemma_count_tracks_grows(es2, e2, es2.len() as int);
    assert(es2.take(es2.len() as int) =~= es2);
    lemma_tracks_before_grows(dirs, i2 + 1, dirs.len() as int);
    if i1 < i2 {
        lemma_count_tracks_grows(es1, e1, es1.len() as int);
        assert(es1.take(es1.len() as int) =~= es1);
        lemma_tracks_before_grows(dirs, i1 + 1, i2);
    } else {
        lemma_count_tracks_grows(es1, e1, e2);
    }
}

/// The id of a regular file stands in its slot: entry `e` of soundtrack `i`
/// has slot `e % 6` of the soundtrack's song group `e / 6`, and that slot and
/// the file's work item hold the same id and the entry's path.
pub proof fn lemma_song_id_in_slot(s: Scan, dirs: Seq<FolderEntry>, i: int, e: int)
    requires
        is_scan_of(s, dirs),
        0 <= i < dirs.len(),
        0 <= e < entries_of(dirs[i]).len(),
        entries_of(dirs[i])[e].is_file,
    ensures
        e / 6 < songs_of(s.songs@, i).len(),
        songs_of(s.songs@, i)[e / 6].song_id[e % 6] == song_id_at(dirs, i, e),
        0 <= song_id_at(dirs, i, e) < s.files@.len(),
        s.files@[song_id_at(dirs, i, e)].index == song_id_at(dirs, i, e),
        s.files@[song_id_at(dirs, i, e)].path == entries_of(dirs[i])[e].path,
        s.files@[song_id_at(dirs, i, e)].soundtrack_index == i,
{
    let es = entries_of(dirs[i]);
    let g = e / 6;
    let k = e % 6;
    let at = groups_before(dirs, i) as int;
    let first = tracks_before(dirs, i) as int;
    let chunk = chunk_of(es, g);
    assert(e == 6 * g + k && 0 <= k < 6 && 0 <= g < group_count(es.len()));
    lemma_songs_of_soundtrack(s, dirs, i);
    let song = s.songs@[at + g];
    assert(songs_of(s.songs@, i)[g] == song);
    assert(is_song_of(song, chunk, i, g, first + count_tracks(es.take(6 * g)))) by {
        assert(holds_songs(s.songs@, at, es, i, first));
    }
    assert(chunk.len() > k && chunk[k] == es[e] && chunk.take(k) =~= es.subrange(6 * g, e));
    assert(song.song_id[k] == slot_song_id(chunk, first + count_tracks(es.take(6 * g)), k));
    assert(count_tracks(es.take(e)) == count_tracks(es.take(6 * g)) + count_tracks(chunk.take(k)))
        by {
        lemma_count_tracks_split(es, 6 * g, e);
    }
    assert(song.song_id[k] == song_id_at(dirs, i, e));
    assert(song_id_at(dirs, i, e) < s.files@.len()) by {
        lemma_count_tracks_grows(es, e, es.len() as int);
        assert(es.take(es.len() as int) =~= es);
        lemma_tracks_before_grows(dirs, i + 1, dirs.len() as int);
    }
    assert(holds_files(s.files@, first, es, i, display_name(dirs[i])));
    assert(es[e].is_file);
}

/// The durations before entry `b` are those before entry `a` and those from
/// `a` to `b`.
proof fn lemma_total_millis_split(es: Seq<TrackEntry>, a: int, b: int)
    requires
        0 <= a <= b <= es.len(),
    ensures
        total_millis(es.take(b)) == total_millis(es.take(a)) + total_millis(es.subrange(a, b)),
    decreases b - a,
{
    if a < b {
        assert(es.take(b).drop_last() =~= es.take(b - 1));
        assert(es.subrange(a, b).drop_last() =~= es.subrange(a, b - 1));
        lemma_total_millis_split(es, a, b - 1);
    } else {
        assert(es.subrange(a, b) =~= Seq::<TrackEntry>::empty());
    }
}

/// Sum of the durations in the first `t` slots of a group.
spec fn slots_sum(chunk: Seq<TrackEntry>, t: int) -> int
    decreases t,
{
    if t <= 0 {
        0
    } else {
        slots_sum(chunk, t - 1) + slot_millis(chunk, t - 1)
    }
}

/// The first `t` slots of a group add up the durations of its first `t`
/// entries.
proof fn lemma_slots_sum(chunk: Seq<TrackEntry>, t: int)
    requires
        0 <= t,
    ensures
        slots_sum(chunk, t) == total_millis(
            chunk.take(if t <= chunk.len() {
                t
            } else {
                chunk.len() as int
            }),
        ),
    decreases t,
{
    if t > 0 {
        lemma_slots_sum(chunk, t - 1);
        if t <= chunk.len() {
            assert(chunk.take(t).drop_last() =~= chunk.take(t - 1));
        }
    } else {
        assert(chunk.take(0) =~= Seq::<TrackEntry>::empty());
    }
}

/// The six slots of a song group add up the durations of its entries.
proof fn lemma_song_sum(song: Song, chunk: Seq<TrackEntry>, soundtrack_id: int, g: int, first_id: int)
    requires
        is_song_of(song, chunk, soundtrack_id, g, first_id),
        chunk.len() <= 6,
    ensures
        song_millis(song) == total_millis(chunk),
{
    lemma_slots_sum(chunk, 6);
    assert(chunk.take(chunk.len() as int) =~= chunk);
    reveal_with_fuel(slots_sum, 7);
    assert(song.song_time_miliseconds[0] == slot_millis(chunk, 0));
    assert(song.song_time_miliseconds[1] == slot_millis(chunk, 1));
    assert(song.song_time_miliseconds[2] == slot_millis(chunk, 2));
    assert(song.song_time_miliseconds[3] == slot_millis(chunk, 3));
    assert(song.song_time_miliseconds[4] == slot_millis(chunk, 4));
    assert(song.song_time_miliseconds[5] == slot_millis(chunk, 5));
}

/// The first `g` song groups of a soundtrack add up the durations of the
/// entries that they hold.
proof fn lemma_block_total(
    songs: Seq<Song>,
    at: int,
    es: Seq<TrackEntry>,
    soundtrack_id: int,
    first_id: int,
    g: int,
)
    requires
        0 <= at,
        0 <= g <= group_count(es.len()),
        at + group_count(es.len()) <= songs.len(),
        holds_songs(songs, at, es, soundtrack_id, first_id),
    ensures
        total_of(songs.subrange(at, at + g)) == total_millis(
            es.take(if 6 * g <= es.len() {
                6 * g
            } else {
                es.len() as int
            }),
        ),
    decreases g,
{
    if g > 0 {
        lemma_block_total(songs, at, es, soundtrack_id, first_id, g - 1);
        let h = g - 1;
        let chunk = chunk_of(es, h);
        assert(is_song_of(
            songs[at + h],
            chunk,
            soundtrack_id,
            h,
            first_id + count_tracks(es.take(6 * h)),
        ));
        lemma_song_sum(songs[at + h], chunk, soundtrack_id, h, first_id + count_tracks(es.take(6 * h)));
        let end = if 6 * g <= es.len() {
            6 * g
        } else {
            es.len() as int
        };
        lemma_total_millis_split(es, 6 * h, end);
        assert(songs.subrange(at, at + g).drop_last() =~= songs.subrange(at, at + h));
        assert(songs.subrange(at, at + g).last() == songs[at + h]);
    } else {
        assert(songs.subrange(at, at + g) =~= Seq::<Song>::empty());
        assert(es.take(0) =~= Seq::<TrackEntry>::empty());
    }
}

/// The total time of a soundtrack is the sum of the durations in all slots of
/// its song groups.
pub proof fn lemma_total_time(s: Scan, dirs: Seq<FolderEntry>, i: int)
    requires
        is_scan_of(s, dirs),
        0 <= i < dirs.len(),
    ensures
        s.soundtracks@[i].total_time_miliseconds == total_of(songs_of(s.songs@, i)),
        s.soundtracks@[i].total_time_miliseconds == total_millis(entries_of(dirs[i])),
{
    lemma_songs_of_soundtrack(s, dirs, i);
    let es = entries_of(dirs[i]);
    lemma_block_total(
        s.songs@,
        groups_before(dirs, i) as int,
        es,
        i,
        tracks_before(dirs, i) as int,
        group_count(es.len()) as int,
    );
    assert(es.take(es.len() as int) =~= es);
    assert(is_soundtrack_of(s.soundtracks@[i], dirs[i], i));
}

/// The soundtrack that song group `t` of a scan belongs to.
proof fn lemma_block_at(dirs: Seq<FolderEntry>, m: int, t: int) -> (i: int)
    requires
        0 <= m,
        0 <= t < groups_before(dirs, m),
    ensures
        0 <= i < m,
        groups_before(dirs, i) <= t < groups_before(dirs, i + 1),
    decreases m,
{
    if t < groups_before(dirs, m - 1) {
        lemma_block_at(dirs, m - 1, t)
    } else {
        m - 1
    }
}

/// The records of a scan of at most a hundred soundtracks are well formed,
/// and its header counts its soundtrack records.
pub proof fn lemma_scan_is_well_formed(s: Scan, dirs: Seq<FolderEntry>)
    requires
        is_scan_of(s, dirs),
        dirs.len() <= 100,
    ensures
        s.header.is_well_formed(),
        s.header.num_soundtracks == s.soundtracks@.len(),
        s.soundtracks@.len() <= 100,
        forall|i: int| 0 <= i < s.soundtracks@.len() ==> (#[trigger] s.soundtracks@[i]).is_well_formed(),
        forall|t: int| 0 <= t < s.songs@.len() ==> (#[trigger] s.songs@[t]).is_well_formed(),
{
    assert(counts_to(s.header.soundtrack_ids@, s.header.num_soundtracks as int)) by {
        assert forall|j: int| 0 <= j < 100 implies #[trigger] s.header.soundtrack_ids@[j] == (if j
            < s.header.num_soundtracks {
            j
        } else {
            0
        }) by {
            assert(s.header.soundtrack_ids[j] == s.header.soundtrack_ids@[j]);
        }
    }
    assert forall|i: int| 0 <= i < s.soundtracks@.len() implies (
    #[trigger] s.soundtracks@[i]).is_well_formed() by {
        let st = s.soundtracks@[i];
        assert(is_soundtrack_of(st, dirs[i], i));
        let groups = group_count(entries_of(dirs[i]).len());
        let n = if groups < 84 {
            groups as int
        } else {
            84
        };
        assert forall|j: int| 0 <= j < 84 implies #[trigger] st.song_groups_ids@[j] == (if j < n {
            j
        } else {
            0
        }) by {
            assert(st.song_groups_ids[j] == slot_group_id(groups, j));
        }
        assert(counts_to(st.song_groups_ids@, n));
    }
    assert forall|t: int| 0 <= t < s.songs@.len() implies (#[trigger] s.songs@[t]).is_well_formed() by {
        let i = lemma_block_at(dirs, dirs.len() as int, t);
        let es = entries_of(dirs[i]);
        let g = t - groups_before(dirs, i);
        assert(is_song_of(
            s.songs@[groups_before(dirs, i) + g],
            chunk_of(es, g),
            i,
            g,
            tracks_before(dirs, i) as int + count_tracks(es.take(6 * g)),
        ));
        let song = s.songs@[t];
        assert forall|k: int| 0 <= k < 6 implies #[trigger] song.song_id[k] >= 0 by {
            assert(song.song_id[k] == slot_song_id(
                chunk_of(es, g),
                tracks_before(dirs, i) as int + count_tracks(es.take(6 * g)),
                k,
            ));
        }
    }
}

/// What a scan of at most a hundred soundtracks gives can be written and
/// read back: the bytes of its records can be read as a database, and the
/// records are what is read from them.
pub proof fn lemma_scan_can_be_written(s: Scan, dirs: Seq<FolderEntry>)
    requires
        is_scan_of(s, dirs),
        dirs.len() <= 100,
    ensures
        s.soundtracks@.len() <= 100,
        is_database(database_bytes(s.header, s.soundtracks@, s.songs@)),
        reads_database(
            database_bytes(s.header, s.soundtracks@, s.songs@),
            s.header,
            s.soundtracks@,
            s.songs@,
        ),
{
    lemma_serialized_is_database(s.header, s.soundtracks@, s.songs@);
    lemma_reads_serialized(s.header, s.soundtracks@, s.songs@);
}

} // verus!
