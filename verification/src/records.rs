//! The record types of the database and the work item handed to the transcoder.
use std::path::PathBuf;
use vstd::prelude::*;

verus! {

/// Magic number of the header record.
pub const HEADER_MAGIC: i32 = 1;

/// Magic number of a soundtrack record.
pub const SOUNDTRACK_MAGIC: i32 = 136049;

/// Magic number of a song-group record.
pub const SONG_MAGIC: i32 = 200819;

/// `std::path::PathBuf`, a path that is carried along and never looked into.
#[verifier::external_type_specification]
#[verifier::external_body]
pub struct ExPathBuf(PathBuf);

/// `PathBuf::clone`: the copy is the same path.
pub assume_specification[ <PathBuf as Clone>::clone ](path: &PathBuf) -> (r: PathBuf)
    ensures
        r == *path,
;

/// One audio file that is to be transcoded.
#[derive(Debug, Clone)]
pub struct MusicFile {
    /// Where the file lies.
    pub path: PathBuf,
    /// Index of the soundtrack the file belongs to.
    pub soundtrack_index: u32,
    /// Display name of that soundtrack.
    pub soundtrack_name: String,
    /// Global song id of the file.
    pub index: u32,
}

/// Audio codec of the transcoded files.
#[derive(Debug, Clone, Copy, PartialEq, Eq, Structural)]
pub enum Codec {
    Wmav1,
    Wmav2,
}

impl Codec {
    /// The codec's name as the transcoder spells it.
    pub open spec fn name(self) -> Seq<char> {
        match self {
            Codec::Wmav1 => "wmav1"@,
            Codec::Wmav2 => "wmav2"@,
        }
    }

    pub fn to_string(&self) -> (r: String)
        ensures
            r@ == self.name(),
    {
        match self {
            Codec::Wmav1 => "wmav1".to_owned(),
            Codec::Wmav2 => "wmav2".to_owned(),
        }
    }
}

/// The record at the start of the database.
#[derive(Debug, Clone, PartialEq, Eq)]
pub struct Header {
    pub magic: i32,
    pub num_soundtracks: i32,
    pub next_soundtrack_id: i32,
    /// Ids of the soundtracks present; unused slots are 0.
    pub soundtrack_ids: [i32; 100],
    pub next_song_id: i32,
    pub padding: [char; 24],
}

/// One soundtrack: a folder of songs.
#[derive(Debug, Clone, PartialEq, Eq)]
pub struct Soundtrack {
    pub magic: i32,
    pub id: i32,
    pub num_songs: u32,
    /// Ids of the soundtrack's song groups; unused slots are 0.
    pub song_groups_ids: [i32; 84],
    pub total_time_miliseconds: i32,
    /// The name, one character per slot, low byte first.
    pub name: [[u8; 2]; 32],
    pub padding: [char; 24],
}

/// One song group: up to six songs of one soundtrack.
#[derive(Debug, Clone, PartialEq, Eq)]
pub struct Song {
    pub magic: i32,
    /// Id of the group among the groups of its soundtrack.
    pub id: i32,
    /// Id of the soundtrack that the group belongs to.
    pub soundtrack_id: i32,
    pub ipadding: i32,
    /// Global ids of the songs; unused slots are 0.
    pub song_id: [i32; 6],
    /// Durations of the songs; unused slots are 0.
    pub song_time_miliseconds: [i32; 6],
    /// The names of the songs, 32 slots each, one after the other.
    pub song_name: [[u8; 2]; 192],
    pub cpadding: [char; 16],
}

/// All numbers of `ids` are 0.
pub open spec fn all_zero(ids: Seq<i32>) -> bool {
    forall|i: int| 0 <= i < ids.len() ==> ids[i] == 0
}

/// All characters of `pad` are the NUL character.
pub open spec fn all_nul(pad: Seq<char>) -> bool {
    forall|i: int| 0 <= i < pad.len() ==> pad[i] == '\0'
}

/// All slots of `name` are empty.
pub open spec fn all_blank(name: Seq<[u8; 2]>) -> bool {
    forall|i: int| 0 <= i < name.len() ==> name[i][0] == 0 && name[i][1] == 0
}

/// Every slot of `name` has a high byte of 0.
pub open spec fn all_narrow(name: Seq<[u8; 2]>) -> bool {
    forall|i: int| 0 <= i < name.len() ==> (#[trigger] name[i])[1] == 0
}

/// The first `n` slots hold the ids 0 to `n - 1`, and the other slots hold 0.
pub open spec fn counts_to(ids: Seq<i32>, n: int) -> bool {
    forall|i: int|
        0 <= i < ids.len() ==> #[trigger] ids[i] == (if i < n {
            i
        } else {
            0
        })
}

/// The slots hold the ids 0, 1, 2 and so on, and zeros from some slot on.
pub open spec fn counts_up(ids: Seq<i32>) -> bool {
    exists|n: int| 0 <= n <= ids.len() && #[trigger] counts_to(ids, n)
}

impl Header {
    /// The header is one that a database can start with: it has its magic
    /// number, counts at most a hundred soundtracks, and holds their ids 0,
    /// 1, 2 and so on in its first slots and zeros in the others.
    pub open spec fn is_well_formed(self) -> bool {
        &&& self.magic == HEADER_MAGIC
        &&& 0 <= self.num_soundtracks <= 100
        &&& self.next_soundtrack_id == self.num_soundtracks + 1
        &&& counts_to(self.soundtrack_ids@, self.num_soundtracks as int)
        &&& all_nul(self.padding@)
    }

    /// Every field is zero.
    pub open spec fn is_zeroed(self) -> bool {
        &&& self.magic == 0
        &&& self.num_soundtracks == 0
        &&& self.next_soundtrack_id == 0
        &&& all_zero(self.soundtrack_ids@)
        &&& self.next_song_id == 0
        &&& all_nul(self.padding@)
    }
}

impl Soundtrack {
    /// The record is one that a database can hold: it has its magic number
    /// and one of the hundred ids, its group ids count up from 0 and are
    /// followed by zeros, and its name has one byte to the character.
    pub open spec fn is_well_formed(self) -> bool {
        &&& self.magic == SOUNDTRACK_MAGIC
        &&& 0 <= self.id < 100
        &&& counts_up(self.song_groups_ids@)
        &&& all_narrow(self.name@)
        &&& all_nul(self.padding@)
    }

    /// Every field is zero.
    pub open spec fn is_zeroed(self) -> bool {
        &&& self.magic == 0
        &&& self.id == 0
        &&& self.num_songs == 0
        &&& all_zero(self.song_groups_ids@)
        &&& self.total_time_miliseconds == 0
        &&& all_blank(self.name@)
        &&& all_nul(self.padding@)
    }
}

impl Song {
    /// The record is one that a database can hold: it has its magic number,
    /// belongs to one of the hundred soundtracks, has no negative id, and
    /// its names have one byte to the character.
    pub open spec fn is_well_formed(self) -> bool {
        &&& self.magic == SONG_MAGIC
        &&& 0 <= self.soundtrack_id < 100
        &&& 0 <= self.id
        &&& self.ipadding == 0
        &&& forall|k: int| 0 <= k < 6 ==> #[trigger] self.song_id[k] >= 0
        &&& all_narrow(self.song_name@)
        &&& all_nul(self.cpadding@)
    }

    /// Every field is zero.
    pub open spec fn is_zeroed(self) -> bool {
        &&& self.magic == 0
        &&& self.soundtrack_id == 0
        &&& self.id == 0
        &&& self.ipadding == 0
        &&& all_zero(self.song_id@)
        &&& all_zero(self.song_time_miliseconds@)
        &&& all_blank(self.song_name@)
        &&& all_nul(self.cpadding@)
    }
}

impl Default for Header {
    fn default() -> (r: Header)
        ensures
            r.is_zeroed(),
    {
        Header {
            magic: 0,
            num_soundtracks: 0,
            next_soundtrack_id: 0,
            soundtrack_ids: [0; 100],
            next_song_id: 0,
            padding: ['\0'; 24],
        }
    }
}

impl Default for Soundtrack {
    fn default() -> (r: Soundtrack)
        ensures
            r.is_zeroed(),
    {
        Soundtrack {
            magic: 0,
            id: 0,
            num_songs: 0,
            song_groups_ids: [0; 84],
            total_time_miliseconds: 0,
            name: [[0; 2]; 32],
            padding: ['\0'; 24],
        }
    }
}

impl Default for Song {
    fn default() -> (r: Song)
        ensures
            r.is_zeroed(),
    {
        Song {
            magic: 0,
            soundtrack_id: 0,
            id: 0,
            ipadding: 0,
            song_id: [0; 6],
            song_time_miliseconds: [0; 6],
            song_name: [[0; 2]; 192],
            cpadding: ['\0'; 16],
        }
    }
}

} // verus!
