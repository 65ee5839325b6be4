//! The listing of a root folder that a scan starts from, and what is counted
//! in it: regular files, song groups and durations.
use std::path::PathBuf;
use vstd::prelude::*;

verus! {

/// One entry of a soundtrack folder.
#[derive(Debug, Clone)]
pub struct TrackEntry {
    /// Where the entry lies.
    pub path: PathBuf,
    /// The file name without its extension, if the path has one.
    pub stem: Option<String>,
    /// Whether the entry is a regular file.
    pub is_file: bool,
    /// The duration in milliseconds that was measured for a regular file, if
    /// the measurement succeeded.
    pub duration: Option<i32>,
}

/// One entry of the root folder.
#[derive(Debug, Clone)]
pub struct FolderEntry {
    /// The last component of the entry's path, if it has one.
    pub name: Option<String>,
    /// Whether the entry is a folder.
    pub is_dir: bool,
    /// The entries of the folder in the order of the listing, if the folder
    /// could be listed.
    pub entries: Option<Vec<TrackEntry>>,
}

/// The folders among the entries of the root, in the order of the listing.
pub open spec fn soundtrack_dirs(root: Seq<FolderEntry>) -> Seq<FolderEntry>
    decreases root.len(),
{
    if root.len() == 0 {
        Seq::empty()
    } else if root.last().is_dir {
        soundtrack_dirs(root.drop_last()).push(root.last())
    } else {
        soundtrack_dirs(root.drop_last())
    }
}

/// The positions in the root listing of its folders, in order.
pub open spec fn dir_positions(root: Seq<FolderEntry>) -> Seq<int>
    decreases root.len(),
{
    if root.len() == 0 {
        Seq::empty()
    } else if root.last().is_dir {
        dir_positions(root.drop_last()).push(root.len() - 1)
    } else {
        dir_positions(root.drop_last())
    }
}

/// The entries of a folder; none where it could not be listed.
pub open spec fn entries_of(f: FolderEntry) -> Seq<TrackEntry> {
    match f.entries {
        Some(v) => v@,
        None => Seq::empty(),
    }
}

/// The name of a soundtrack folder before it is transliterated.
pub open spec fn folder_name(f: FolderEntry) -> Seq<char> {
    match f.name {
        Some(n) => n@,
        None => "Unknown soundtrack"@,
    }
}

/// The name of a song before it is transliterated.
pub open spec fn track_name(e: TrackEntry) -> Seq<char> {
    match e.stem {
        Some(n) => n@,
        None => "Unknown track"@,
    }
}

/// The duration that is recorded for an entry: what was measured for a
/// regular file, and 0 for a failed measurement or another entry.
pub open spec fn millis(e: TrackEntry) -> int {
    if e.is_file {
        match e.duration {
            Some(d) => d as int,
            None => 0,
        }
    } else {
        0
    }
}

/// Number of regular files among the entries.
pub open spec fn count_tracks(es: Seq<TrackEntry>) -> nat
    decreases es.len(),
{
    if es.len() == 0 {
        0
    } else {
        count_tracks(es.drop_last()) + if es.last().is_file {
            1nat
        } else {
            0nat
        }
    }
}

/// Sum of the recorded durations of the entries.
pub open spec fn total_millis(es: Seq<TrackEntry>) -> int
    decreases es.len(),
{
    if es.len() == 0 {
        0
    } else {
        total_millis(es.drop_last()) + millis(es.last())
    }
}

/// Number of groups of six that `k` entries are cut into.
pub open spec fn group_count(k: nat) -> nat {
    (k + 5) / 6
}

/// Number of regular files in the soundtracks before soundtrack `i`: the
/// global id of the first song of soundtrack `i`.
pub open spec fn tracks_before(dirs: Seq<FolderEntry>, i: int) -> nat
    decreases i,
{
    if i <= 0 {
        0
    } else {
        tracks_before(dirs, i - 1) + count_tracks(entries_of(dirs[i - 1]))
    }
}

/// Number of song groups of the soundtracks before soundtrack `i`: where the
/// song groups of soundtrack `i` start among all song groups.
pub open spec fn groups_before(dirs: Seq<FolderEntry>, i: int) -> nat
    decreases i,
{
    if i <= 0 {
        0
    } else {
        groups_before(dirs, i - 1) + group_count(entries_of(dirs[i - 1]).len())
    }
}

/// The numbers of regular files only grow from soundtrack to soundtrack.
pub proof fn lemma_tracks_before_grows(dirs: Seq<FolderEntry>, i: int, j: int)
    requires
        0 <= i <= j,
    ensures
        tracks_before(dirs, i) <= tracks_before(dirs, j),
    decreases j - i,
{
    if i < j {
        lemma_tracks_before_grows(dirs, i, j - 1);
    }
}

/// The numbers of song groups only grow from soundtrack to soundtrack.
pub proof fn lemma_groups_before_grows(dirs: Seq<FolderEntry>, i: int, j: int)
    requires
        0 <= i <= j,
    ensures
        groups_before(dirs, i) <= groups_before(dirs, j),
    decreases j - i,
{
    if i < j {
        lemma_groups_before_grows(dirs, i, j - 1);
    }
}

/// There are no more regular files than entries.
pub proof fn lemma_count_tracks_bound(es: Seq<TrackEntry>)
    ensures
        count_tracks(es) <= es.len(),
    decreases es.len(),
{
    if es.len() > 0 {
        lemma_count_tracks_bound(es.drop_last());
    }
}

/// The regular files before entry `a` are among those before entry `b`.
pub proof fn lemma_count_tracks_grows(es: Seq<TrackEntry>, a: int, b: int)
    requires
        0 <= a <= b <= es.len(),
    ensures
        count_tracks(es.take(a)) <= count_tracks(es.take(b)),
        a < b && es[a].is_file ==> count_tracks(es.take(a)) < count_tracks(es.take(b)),
    decreases b - a,
{
    if a < b {
        assert(es.take(b).drop_last() =~= es.take(b - 1));
        lemma_count_tracks_grows(es, a, b - 1);
    }
}

/// The regular files before entry `b` are those before entry `a` and those
/// from `a` to `b`.
pub proof fn lemma_count_tracks_split(es: Seq<TrackEntry>, a: int, b: int)
    requires
        0 <= a <= b <= es.len(),
    ensures
        count_tracks(es.take(b)) == count_tracks(es.take(a)) + count_tracks(es.subrange(a, b)),
    decreases b - a,
{
    if a < b {
        assert(es.take(b).drop_last() =~= es.take(b - 1));
        assert(es.subrange(a, b).drop_last() =~= es.subrange(a, b - 1));
        lemma_count_tracks_split(es, a, b - 1);
    } else {
        assert(es.subrange(a, b) =~= Seq::<TrackEntry>::empty());
    }
}

/// The folders of a listing stand at the positions of its folders.
pub proof fn lemma_dir_positions(root: Seq<FolderEntry>)
    ensures
        dir_positions(root).len() == soundtrack_dirs(root).len(),
        forall|j: int|
            0 <= j < dir_positions(root).len() ==> 0 <= (#[trigger] dir_positions(root)[j])
                < root.len() && root[dir_positions(root)[j]] == soundtrack_dirs(root)[j],
    decreases root.len(),
{
    if root.len() > 0 {
        lemma_dir_positions(root.drop_last());
    }
}

/// The positions in the root listing of its folders, in order.
pub fn soundtrack_folders(root: &Vec<FolderEntry>) -> (idx: Vec<usize>)
    ensures
        idx@.len() == dir_positions(root@).len(),
        forall|j: int| 0 <= j < idx@.len() ==> (#[trigger] idx@[j]) == dir_positions(root@)[j],
        idx@.len() == soundtrack_dirs(root@).len(),
        forall|j: int|
            0 <= j < idx@.len() ==> (#[trigger] idx@[j]) < root@.len() && root@[idx@[j] as int]
                == soundtrack_dirs(root@)[j],
{
    let mut idx: Vec<usize> = Vec::new();
    let mut k: usize = 0;
    while k < root.len()
        invariant
            k <= root@.len(),
            idx@.len() == dir_positions(root@.take(k as int)).len(),
            forall|j: int|
                0 <= j < idx@.len() ==> (#[trigger] idx@[j]) == dir_positions(
                    root@.take(k as int),
                )[j],
        decreases root@.len() - k,
    {
        proof {
            assert(root@.take(k + 1).drop_last() =~= root@.take(k as int));
        }
        if root[k].is_dir {
            idx.push(k);
        }
        k = k + 1;
    }
    proof {
        assert(root@.take(k as int) =~= root@);
        lemma_dir_positions(root@);
    }
    idx
}

/// Counts the regular files among the entries.
pub fn count_files(es: &[TrackEntry]) -> (n: usize)
    ensures
        n == count_tracks(es@),
{
    let mut n: usize = 0;
    let mut k: usize = 0;
    while k < es.len()
        invariant
            k <= es@.len(),
            n == count_tracks(es@.take(k as int)),
            n <= k,
        decreases es@.len() - k,
    {
        proof {
            assert(es@.take(k + 1).drop_last() =~= es@.take(k as int));
        }
        if es[k].is_file {
            n = n + 1;
        }
        k = k + 1;
    }
    assert(es@.take(k as int) =~= es@);
    n
}

/// The duration that is recorded for an entry.
pub fn recorded_millis(e: &TrackEntry) -> (d: i32)
    ensures
        d == millis(*e),
{
    if e.is_file {
        match e.duration {
            Some(d) => d,
            None => 0,
        }
    } else {
        0
    }
}

/// Adds up the recorded durations of the entries.
pub fn sum_millis(es: &Vec<TrackEntry>) -> (total: i128)
    ensures
        total == total_millis(es@),
{
    let mut total: i128 = 0;
    let mut k: usize = 0;
    while k < es.len()
        invariant
            k <= es@.len(),
            total == total_millis(es@.take(k as int)),
            -0x8000_0000 * k <= total <= 0x8000_0000 * k,
        decreases es@.len() - k,
    {
        proof {
            assert(es@.take(k + 1).drop_last() =~= es@.take(k as int));
        }
        total = total + recorded_millis(&es[k]) as i128;
        k = k + 1;
    }
    assert(es@.take(k as int) =~= es@);
    total
}

/// Number of groups of six that `k` entries are cut into.
pub fn groups_for(k: usize) -> (g: usize)
    ensures
        g == group_count(k as nat),
{
    if k % 6 == 0 {
        k / 6
    } else {
        k / 6 + 1
    }
}

/// The name of a song before it is transliterated.
pub fn track_text(e: &TrackEntry) -> (r: &str)
    ensures
        r@ == track_name(*e),
{
    match &e.stem {
        Some(s) => s.as_str(),
        None => "Unknown track",
    }
}

/// The name of a soundtrack folder before it is transliterated.
pub fn folder_text(f: &FolderEntry) -> (r: &str)
    ensures
        r@ == folder_name(*f),
{
    match &f.name {
        Some(s) => s.as_str(),
        None => "Unknown soundtrack",
    }
}

} // verus!
