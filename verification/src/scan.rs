//! From the listing of a root folder to the records of the database and the
//! list of files to transcode.
use crate::assemble::{
    build_header, build_soundtrack, holds_files, holds_songs, is_header_for, is_soundtrack_of,
    lemma_files_stay, lemma_songs_stay, push_files, push_songs,
};
use crate::listing::{
    count_files, count_tracks, entries_of, folder_name, folder_text, group_count, groups_before,
    groups_for, lemma_count_tracks_bound, lemma_groups_before_grows, lemma_tracks_before_grows,
    soundtrack_dirs, soundtrack_folders, sum_millis, total_millis, tracks_before, FolderEntry,
    TrackEntry,
};
use crate::names::{ascii_form, to_ascii, trim, trimmed};
use crate::records::{Header, MusicFile, Song, Soundtrack};
use vstd::prelude::*;

verus! {

/// Why a scan gave no database.
#[derive(Debug, Clone, Copy, PartialEq, Eq, Structural)]
pub enum ScanError {
    /// The root folder could not be listed.
    UnreadableRoot,
    /// A soundtrack folder could not be listed.
    UnreadableSoundtrackDir,
    /// There is no regular file in any soundtrack folder.
    NoFilesFound,
    /// A count, an id or a total does not fit the field that would hold it.
    SlotOverflow,
}

/// What a scan gives: the records of the database and the files to transcode.
#[derive(Debug, Clone)]
pub struct Scan {
    pub header: Header,
    pub soundtracks: Vec<Soundtrack>,
    pub songs: Vec<Song>,
    pub files: Vec<MusicFile>,
}

/// The name of a soundtrack as it is shown: the folder's name without the
/// white space at its ends, transliterated.
pub open spec fn display_name(f: FolderEntry) -> Seq<char> {
    ascii_form(trimmed(folder_name(f)))
}

/// Number of songs of the last soundtrack; 0 where there is none.
pub open spec fn last_songs(dirs: Seq<FolderEntry>) -> nat {
    if dirs.len() == 0 {
        0
    } else {
        count_tracks(entries_of(dirs.last()))
    }
}

/// Every soundtrack folder could be listed.
pub open spec fn all_listed(dirs: Seq<FolderEntry>) -> bool {
    forall|i: int| 0 <= i < dirs.len() ==> (#[trigger] dirs[i]).entries is Some
}

/// Every count, id and total fits its field: there are at most a hundred
/// soundtracks, the song ids and the group ids of each soundtrack fit a
/// signed 32-bit number, and so does the total time of each soundtrack.
pub open spec fn fits(dirs: Seq<FolderEntry>) -> bool {
    &&& dirs.len() <= 100
    &&& tracks_before(dirs, dirs.len() as int) <= i32::MAX
    &&& forall|i: int|
        0 <= i < dirs.len() ==> group_count(entries_of(#[trigger] dirs[i]).len()) <= i32::MAX
    &&& forall|i: int|
        0 <= i < dirs.len() ==> i32::MIN <= total_millis(entries_of(#[trigger] dirs[i]))
            <= i32::MAX
}

/// The error that a listing is answered with, if any.
pub open spec fn scan_error(root: Option<Vec<FolderEntry>>) -> Option<ScanError> {
    match root {
        None => Some(ScanError::UnreadableRoot),
        Some(v) => {
            let dirs = soundtrack_dirs(v@);
            if !all_listed(dirs) {
                Some(ScanError::UnreadableSoundtrackDir)
            } else if !fits(dirs) {
                Some(ScanError::SlotOverflow)
            } else if tracks_before(dirs, dirs.len() as int) == 0 {
                Some(ScanError::NoFilesFound)
            } else {
                None
            }
        },
    }
}

/// `s` is what the soundtrack folders `dirs` give: the header, one soundtrack
/// record for each folder, the song groups of the soundtracks one soundtrack
/// after the other, and the work items of all regular files by global id.
pub open spec fn is_scan_of(s: Scan, dirs: Seq<FolderEntry>) -> bool {
    &&& is_header_for(s.header, dirs.len() as int, last_songs(dirs) as int)
    &&& s.soundtracks@.len() == dirs.len()
    &&& forall|i: int|
        0 <= i < dirs.len() ==> is_soundtrack_of(s.soundtracks@[i], #[trigger] dirs[i], i)
    &&& s.songs@.len() == groups_before(dirs, dirs.len() as int)
    &&& forall|i: int|
        0 <= i < dirs.len() ==> holds_songs(
            s.songs@,
            groups_before(dirs, i) as int,
            entries_of(#[trigger] dirs[i]),
            i,
            tracks_before(dirs, i) as int,
        )
    &&& s.files@.len() == tracks_before(dirs, dirs.len() as int)
    &&& forall|i: int|
        0 <= i < dirs.len() ==> holds_files(
            s.files@,
            tracks_before(dirs, i) as int,
            entries_of(#[trigger] dirs[i]),
            i,
            display_name(dirs[i]),
        )
}

/// `idx` holds the positions in `root` of the folders `dirs`.
pub open spec fn points_to(idx: Seq<usize>, root: Seq<FolderEntry>, dirs: Seq<FolderEntry>) -> bool {
    &&& idx.len() == dirs.len()
    &&& forall|j: int|
        0 <= j < idx.len() ==> (#[trigger] idx[j]) < root.len() && root[idx[j] as int] == dirs[j]
}

/// Tells whether every folder that `idx` points to could be listed.
fn all_readable(root: &Vec<FolderEntry>, idx: &Vec<usize>, Ghost(dirs): Ghost<Seq<FolderEntry>>) -> (r:
    bool)
    requires
        points_to(idx@, root@, dirs),
    ensures
        r == all_listed(dirs),
{
    let mut i: usize = 0;
    while i < idx.len()
        invariant
            i <= idx@.len(),
            points_to(idx@, root@, dirs),
            forall|j: int| 0 <= j < i ==> (#[trigger] dirs[j]).entries is Some,
        decreases idx@.len() - i,
    {
        if root[idx[i]].entries.is_none() {
            assert(dirs[i as int].entries is None);
            return false;
        }
        i = i + 1;
    }
    true
}

/// Tells whether every count, id and total of the folders that `idx` points
/// to fits its field.
fn all_fit(root: &Vec<FolderEntry>, idx: &Vec<usize>, Ghost(dirs): Ghost<Seq<FolderEntry>>) -> (r:
    bool)
    requires
        points_to(idx@, root@, dirs),
        all_listed(dirs),
    ensures
        r == fits(dirs),
{
    if idx.len() > 100 {
        return false;
    }
    let mut total: usize = 0;
    let mut i: usize = 0;
    while i < idx.len()
        invariant
            i <= idx@.len() <= 100,
            points_to(idx@, root@, dirs),
            all_listed(dirs),
            total == tracks_before(dirs, i as int),
            total <= i32::MAX,
            forall|j: int|
                0 <= j < i ==> group_count(entries_of(#[trigger] dirs[j]).len()) <= i32::MAX,
            forall|j: int|
                0 <= j < i ==> i32::MIN <= total_millis(entries_of(#[trigger] dirs[j]))
                    <= i32::MAX,
        decreases idx@.len() - i,
    {
        let folder = &root[idx[i]];
        assert(*folder == dirs[i as int]);
        let es: &Vec<TrackEntry> = match &folder.entries {
            Some(v) => v,
            None => {
                return false;
            },
        };
        let found: usize = count_files(es.as_slice());
        if found > 0x7fff_ffff - total {
            proof {
                lemma_tracks_before_grows(dirs, i + 1, dirs.len() as int);
            }
            return false;
        }
        if groups_for(es.len()) > 0x7fff_ffff {
            return false;
        }
        let time: i128 = sum_millis(es);
        if time < -0x8000_0000 || time > 0x7fff_ffff {
            return false;
        }
        total = total + found;
        i = i + 1;
    }
    true
}

/// Turns the listing of a root folder into the records of the database and
/// the list of files to transcode.
///
/// Entries of the root that are no folders are passed over. The folders are
/// the soundtracks, numbered from 0 in the order of the listing. A listing
/// that is missing, of the root or of a folder, ends the scan, and so does a
/// listing without any regular file.
pub fn scan(root: &Option<Vec<FolderEntry>>) -> (r: Result<Scan, ScanError>)
    ensures
        match scan_error(*root) {
            Some(e) => r == Err::<Scan, ScanError>(e),
            None => r is Ok && is_scan_of(r->Ok_0, soundtrack_dirs(root->Some_0@)),
        },
{
    let entries: &Vec<FolderEntry> = match root {
        Some(v) => v,
        None => {
            return Err(ScanError::UnreadableRoot);
        },
    };
    let idx = soundtrack_folders(entries);
    let ghost dirs = soundtrack_dirs(entries@);
    if !all_readable(entries, &idx, Ghost(dirs)) {
        return Err(ScanError::UnreadableSoundtrackDir);
    }
    if !all_fit(entries, &idx, Ghost(dirs)) {
        return Err(ScanError::SlotOverflow);
    }
    let count: usize = idx.len();
    let mut soundtracks: Vec<Soundtrack> = Vec::new();
    let mut songs: Vec<Song> = Vec::new();
    let mut files: Vec<MusicFile> = Vec::new();
    let mut last: usize = 0;
    let mut i: usize = 0;
    while i < count
        invariant
            i <= count == dirs.len() <= 100,
            points_to(idx@, entries@, dirs),
            all_listed(dirs),
            fits(dirs),
            soundtracks@.len() == i,
            songs@.len() == groups_before(dirs, i as int),
            files@.len() == tracks_before(dirs, i as int),
            last == last_songs(dirs.take(i as int)),
            forall|j: int| 0 <= j < i ==> is_soundtrack_of(soundtracks@[j], #[trigger] dirs[j], j),
            forall|j: int|
                0 <= j < i ==> holds_songs(
                    songs@,
                    groups_before(dirs, j) as int,
                    entries_of(#[trigger] dirs[j]),
                    j,
                    tracks_before(dirs, j) as int,
                ),
            forall|j: int|
                0 <= j < i ==> holds_files(
                    files@,
                    tracks_before(dirs, j) as int,
                    entries_of(#[trigger] dirs[j]),
                    j,
                    display_name(dirs[j]),
                ),
        decreases count - i,
    {
        let folder = &entries[idx[i]];
        assert(*folder == dirs[i as int]);
        let es: &Vec<TrackEntry> = match &folder.entries {
            Some(v) => v,
            None => {
                return Err(ScanError::UnreadableSoundtrackDir);
            },
        };
        proof {
            lemma_tracks_before_grows(dirs, i + 1, dirs.len() as int);
            lemma_count_tracks_bound(es@);
        }
        let plain = trim(folder_text(folder));
        let display = to_ascii(plain.as_str());
        let ghost songs_before = songs@;
        let ghost files_before = files@;
        let first_id: usize = files.len();
        push_songs(&mut songs, es, i as i32, first_id as i32);
        push_files(&mut files, es, i as u32, &display);
        soundtracks.push(build_soundtrack(folder, i as i32));
        last = files.len() - first_id;
        proof {
            assert forall|j: int| 0 <= j < i + 1 implies holds_songs(
                songs@,
                groups_before(dirs, j) as int,
                entries_of(#[trigger] dirs[j]),
                j,
                tracks_before(dirs, j) as int,
            ) by {
                if j < i {
                    lemma_groups_before_grows(dirs, j + 1, i as int);
                    lemma_songs_stay(
                        songs_before,
                        songs@,
                        groups_before(dirs, j) as int,
                        entries_of(dirs[j]),
                        j,
                        tracks_before(dirs, j) as int,
                    );
                }
            }
            assert forall|j: int| 0 <= j < i + 1 implies holds_files(
                files@,
                tracks_before(dirs, j) as int,
                entries_of(#[trigger] dirs[j]),
                j,
                display_name(dirs[j]),
            ) by {
                if j < i {
                    lemma_tracks_before_grows(dirs, j + 1, i as int);
                    lemma_files_stay(
                        files_before,
                        files@,
                        tracks_before(dirs, j) as int,
                        entries_of(dirs[j]),
                        j,
                        display_name(dirs[j]),
                    );
                }
            }
            assert(dirs.take(i + 1).last() == dirs[i as int]);
        }
        i = i + 1;
    }
    proof {
        assert(dirs.take(count as int) =~= dirs);
    }
    if files.len() == 0 {
        return Err(ScanError::NoFilesFound);
    }
    let header = build_header(count as i32, last as i32);
    Ok(Scan { header, soundtracks, songs, files })
}

} // verus!
