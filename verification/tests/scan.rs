use std::path::PathBuf;
use xbst::layout::serialize;
use xbst::reader::deserialize;
use xbst::assemble::{build_header, build_song, build_soundtrack, push_files, push_songs};
use xbst::listing::{
    count_files, groups_for, recorded_millis, soundtrack_folders, sum_millis, FolderEntry,
    TrackEntry,
};
use xbst::scan::{scan, Scan, ScanError};

fn file(dir: &str, stem: &str, millis: i32) -> TrackEntry {
    TrackEntry {
        path: PathBuf::from(format!("/music/{}/{}.mp3", dir, stem)),
        stem: Some(stem.to_string()),
        is_file: true,
        duration: Some(millis),
    }
}

fn subfolder(dir: &str, name: &str) -> TrackEntry {
    TrackEntry {
        path: PathBuf::from(format!("/music/{}/{}", dir, name)),
        stem: Some(name.to_string()),
        is_file: false,
        duration: None,
    }
}

fn folder(name: &str, entries: Vec<TrackEntry>) -> FolderEntry {
    FolderEntry { name: Some(name.to_string()), is_dir: true, entries: Some(entries) }
}

fn stray_file(name: &str) -> FolderEntry {
    FolderEntry { name: Some(name.to_string()), is_dir: false, entries: None }
}

fn files_of(name: &str, durations: &[i32]) -> Vec<TrackEntry> {
    durations.iter().enumerate().map(|(k, d)| file(name, &format!("track{}", k), *d)).collect()
}

fn name_of(slots: &[[u8; 2]]) -> String {
    slots.iter().take_while(|s| s[0] != 0).map(|s| s[0] as char).collect()
}

fn scan_of(root: Vec<FolderEntry>) -> Scan {
    scan(&Some(root)).unwrap()
}

#[test]
fn boss_theme_with_seven_files() {
    let durations = [1000, 2000, 3000, 4000, 5000, 6000, 7000];
    let s = scan_of(vec![folder("Boss Theme", files_of("Boss Theme", &durations))]);
    assert_eq!(s.songs.len(), 2);
    assert_eq!(s.soundtracks.len(), 1);
    let st = &s.soundtracks[0];
    assert_eq!(st.magic, 136049);
    assert_eq!(st.id, 0);
    assert_eq!(st.num_songs, 7);
    assert_eq!(st.total_time_miliseconds, 28000);
    let mut groups = [0i32; 84];
    groups[1] = 1;
    assert_eq!(st.song_groups_ids, groups);
    assert_eq!(name_of(&st.name), "Boss Theme");
    assert_eq!(st.padding, ['\0'; 24]);

    let first = &s.songs[0];
    assert_eq!(first.magic, 200819);
    assert_eq!(first.soundtrack_id, 0);
    assert_eq!(first.id, 0);
    assert_eq!(first.ipadding, 0);
    assert_eq!(first.song_id, [0, 1, 2, 3, 4, 5]);
    assert_eq!(first.song_time_miliseconds, [1000, 2000, 3000, 4000, 5000, 6000]);
    for k in 0..6 {
        assert_eq!(name_of(&first.song_name[32 * k..32 * k + 32]), format!("track{}", k));
    }
    let second = &s.songs[1];
    assert_eq!(second.soundtrack_id, 0);
    assert_eq!(second.id, 1);
    assert_eq!(second.song_id, [6, 0, 0, 0, 0, 0]);
    assert_eq!(second.song_time_miliseconds, [7000, 0, 0, 0, 0, 0]);
    assert_eq!(name_of(&second.song_name[0..32]), "track6");
    assert!(second.song_name[32..].iter().all(|s| *s == [0, 0]));
    assert_eq!(second.cpadding, ['\0'; 16]);

    assert_eq!(s.header.magic, 1);
    assert_eq!(s.header.num_soundtracks, 1);
    assert_eq!(s.header.next_soundtrack_id, 2);
    assert_eq!(s.header.soundtrack_ids, [0; 100]);
    assert_eq!(s.header.next_song_id, 7);

    assert_eq!(s.files.len(), 7);
    for (k, f) in s.files.iter().enumerate() {
        assert_eq!(f.index, k as u32);
        assert_eq!(f.soundtrack_index, 0);
        assert_eq!(f.soundtrack_name, "Boss Theme");
        assert_eq!(f.path, PathBuf::from(format!("/music/Boss Theme/track{}.mp3", k)));
    }
}

#[test]
fn empty_root_has_nothing_to_convert() {
    assert_eq!(scan(&Some(Vec::new())).unwrap_err(), ScanError::NoFilesFound);
}

#[test]
fn root_with_empty_folders_has_nothing_to_convert() {
    let root = vec![folder("a", Vec::new()), folder("b", vec![subfolder("b", "inner")])];
    assert_eq!(scan(&Some(root)).unwrap_err(), ScanError::NoFilesFound);
}

#[test]
fn root_with_stray_files_only_has_nothing_to_convert() {
    let root = vec![stray_file("readme.txt")];
    assert_eq!(scan(&Some(root)).unwrap_err(), ScanError::NoFilesFound);
}

#[test]
fn missing_root_listing_is_reported() {
    assert_eq!(scan(&None).unwrap_err(), ScanError::UnreadableRoot);
}

#[test]
fn missing_folder_listing_is_fatal() {
    let root = vec![
        folder("a", files_of("a", &[1000])),
        FolderEntry { name: Some("locked".to_string()), is_dir: true, entries: None },
    ];
    assert_eq!(scan(&Some(root)).unwrap_err(), ScanError::UnreadableSoundtrackDir);
}

#[test]
fn missing_folder_listing_comes_before_other_errors() {
    let mut root: Vec<FolderEntry> = (0..101).map(|i| folder(&format!("s{}", i), Vec::new())).collect();
    root.push(FolderEntry { name: None, is_dir: true, entries: None });
    assert_eq!(scan(&Some(root)).unwrap_err(), ScanError::UnreadableSoundtrackDir);
}

#[test]
fn more_than_a_hundred_soundtracks_do_not_fit() {
    let root: Vec<FolderEntry> =
        (0..101).map(|i| folder(&format!("s{}", i), files_of("s", &[1]))).collect();
    assert_eq!(scan(&Some(root)).unwrap_err(), ScanError::SlotOverflow);
}

#[test]
fn total_time_beyond_the_field_does_not_fit() {
    let root = vec![folder("long", files_of("long", &[i32::MAX, 1]))];
    assert_eq!(scan(&Some(root)).unwrap_err(), ScanError::SlotOverflow);
    let root = vec![folder("long", files_of("long", &[i32::MIN, -1]))];
    assert_eq!(scan(&Some(root)).unwrap_err(), ScanError::SlotOverflow);
    let s = scan_of(vec![folder("long", files_of("long", &[i32::MAX, 1, -1]))]);
    assert_eq!(s.soundtracks[0].total_time_miliseconds, i32::MAX);
}

#[test]
fn a_hundred_soundtracks_fill_every_header_slot() {
    let root: Vec<FolderEntry> =
        (0..100).map(|i| folder(&format!("s{}", i), files_of("s", &[10, 20]))).collect();
    let s = scan_of(root);
    assert_eq!(s.header.num_soundtracks, 100);
    assert_eq!(s.header.next_soundtrack_id, 101);
    for i in 0..100 {
        assert_eq!(s.header.soundtrack_ids[i], i as i32);
        assert_eq!(s.soundtracks[i].id, i as i32);
    }
    assert_eq!(s.header.next_song_id, 2);
    assert_eq!(s.files.len(), 200);
}

#[test]
fn header_ids_are_followed_by_zeros() {
    let root: Vec<FolderEntry> =
        (0..5).map(|i| folder(&format!("s{}", i), files_of("s", &[10]))).collect();
    let s = scan_of(root);
    let mut expected = [0i32; 100];
    for i in 0..5 {
        expected[i] = i as i32;
    }
    assert_eq!(s.header.soundtrack_ids, expected);
    assert_eq!(s.header.padding, ['\0'; 24]);
}

#[test]
fn entries_that_are_no_folders_are_not_counted() {
    let root = vec![
        stray_file("cover.png"),
        folder("a", files_of("a", &[100])),
        stray_file("notes.txt"),
        folder("b", files_of("b", &[200, 300])),
    ];
    let s = scan_of(root);
    assert_eq!(s.header.num_soundtracks, 2);
    assert_eq!(s.soundtracks[0].id, 0);
    assert_eq!(s.soundtracks[1].id, 1);
    assert_eq!(s.songs[1].soundtrack_id, 1);
    assert_eq!(s.files[1].soundtrack_index, 1);
    assert_eq!(s.header.next_song_id, 2);
}

#[test]
fn number_of_song_groups_is_the_number_of_entries_over_six_rounded_up() {
    for k in 1..40usize {
        let durations: Vec<i32> = (0..k as i32).collect();
        let s = scan_of(vec![folder("a", files_of("a", &durations))]);
        assert_eq!(s.songs.len(), (k + 5) / 6);
        let last = s.songs.last().unwrap();
        let used = k - 6 * (s.songs.len() - 1);
        for t in used..6 {
            assert_eq!(last.song_id[t], 0);
            assert_eq!(last.song_time_miliseconds[t], 0);
        }
        for (g, song) in s.songs.iter().enumerate() {
            assert_eq!(song.id, g as i32);
        }
    }
}

#[test]
fn song_ids_run_on_across_soundtracks() {
    let root = vec![
        folder("a", files_of("a", &[1, 2, 3, 4, 5, 6, 7, 8])),
        folder("b", Vec::new()),
        folder("c", files_of("c", &[9, 10, 11])),
    ];
    let s = scan_of(root);
    assert_eq!(s.songs.len(), 3);
    assert_eq!(s.songs[0].song_id, [0, 1, 2, 3, 4, 5]);
    assert_eq!(s.songs[1].song_id, [6, 7, 0, 0, 0, 0]);
    assert_eq!(s.songs[2].song_id, [8, 9, 10, 0, 0, 0]);
    assert_eq!(s.songs[2].soundtrack_id, 2);
    assert_eq!(s.songs[2].id, 0);
    let ids: Vec<u32> = s.files.iter().map(|f| f.index).collect();
    assert_eq!(ids, (0..11).collect::<Vec<u32>>());
    let tracks: Vec<u32> = s.files.iter().map(|f| f.soundtrack_index).collect();
    assert_eq!(tracks, vec![0, 0, 0, 0, 0, 0, 0, 0, 2, 2, 2]);
    assert_eq!(s.soundtracks[1].num_songs, 0);
    assert_eq!(s.soundtracks[1].song_groups_ids, [0; 84]);
    assert_eq!(s.header.next_song_id, 3);
}

#[test]
fn group_ids_start_again_in_each_soundtrack() {
    let root = vec![
        folder("a", files_of("a", &[1; 13])),
        folder("b", files_of("b", &[1; 7])),
    ];
    let s = scan_of(root);
    assert_eq!(&s.soundtracks[0].song_groups_ids[..4], &[0, 1, 2, 0]);
    assert_eq!(&s.soundtracks[1].song_groups_ids[..4], &[0, 1, 0, 0]);
    let ids: Vec<(i32, i32)> = s.songs.iter().map(|g| (g.soundtrack_id, g.id)).collect();
    assert_eq!(ids, vec![(0, 0), (0, 1), (0, 2), (1, 0), (1, 1)]);
}

#[test]
fn total_time_is_the_sum_of_all_slots() {
    let root = vec![
        folder("a", files_of("a", &[1000, 2000, 3000, 4000, 5000, 6000, 7000, 8000])),
        folder("b", files_of("b", &[5, -3, 40])),
    ];
    let s = scan_of(root);
    for st in &s.soundtracks {
        let total: i64 = s
            .songs
            .iter()
            .filter(|g| g.soundtrack_id == st.id)
            .map(|g| g.song_time_miliseconds.iter().map(|d| *d as i64).sum::<i64>())
            .sum();
        assert_eq!(st.total_time_miliseconds as i64, total);
    }
    assert_eq!(s.soundtracks[0].total_time_miliseconds, 36000);
    assert_eq!(s.soundtracks[1].total_time_miliseconds, 42);
}

#[test]
fn entry_that_is_no_file_leaves_a_hole_in_its_group() {
    let entries = vec![
        file("a", "one", 100),
        subfolder("a", "extras"),
        file("a", "two", 200),
    ];
    let s = scan_of(vec![folder("a", entries)]);
    assert_eq!(s.songs.len(), 1);
    let song = &s.songs[0];
    assert_eq!(song.song_id, [0, 0, 1, 0, 0, 0]);
    assert_eq!(song.song_time_miliseconds, [100, 0, 200, 0, 0, 0]);
    assert_eq!(name_of(&song.song_name[0..32]), "one");
    assert_eq!(name_of(&song.song_name[32..64]), "two");
    assert!(song.song_name[64..].iter().all(|s| *s == [0, 0]));
    assert_eq!(s.soundtracks[0].num_songs, 2);
    assert_eq!(s.soundtracks[0].total_time_miliseconds, 300);
    assert_eq!(s.files.len(), 2);
    assert_eq!(s.files[1].path, PathBuf::from("/music/a/two.mp3"));
}

#[test]
fn entries_that_are_no_files_still_fill_groups() {
    let mut entries: Vec<TrackEntry> = (0..6).map(|k| subfolder("a", &format!("d{}", k))).collect();
    entries.push(file("a", "late", 50));
    let s = scan_of(vec![folder("a", entries)]);
    assert_eq!(s.songs.len(), 2);
    assert_eq!(s.songs[0].song_id, [0; 6]);
    assert!(s.songs[0].song_name.iter().all(|s| *s == [0, 0]));
    assert_eq!(s.songs[1].song_id, [0; 6]);
    assert_eq!(s.songs[1].song_time_miliseconds, [50, 0, 0, 0, 0, 0]);
    assert_eq!(name_of(&s.songs[1].song_name[0..32]), "late");
    assert_eq!(s.soundtracks[0].num_songs, 1);
    assert_eq!(&s.soundtracks[0].song_groups_ids[..3], &[0, 1, 0]);
}

#[test]
fn failed_measurement_counts_as_zero() {
    let mut entries = files_of("a", &[100, 200]);
    entries[0].duration = None;
    let s = scan_of(vec![folder("a", entries)]);
    assert_eq!(s.songs[0].song_time_miliseconds, [0, 200, 0, 0, 0, 0]);
    assert_eq!(s.songs[0].song_id, [0, 1, 0, 0, 0, 0]);
    assert_eq!(s.soundtracks[0].total_time_miliseconds, 200);
    assert_eq!(s.files.len(), 2);
}

#[test]
fn duration_of_an_entry_that_is_no_file_is_not_recorded() {
    let mut e = subfolder("a", "d");
    e.duration = Some(999);
    assert_eq!(recorded_millis(&e), 0);
    assert_eq!(recorded_millis(&file("a", "x", 999)), 999);
}

#[test]
fn missing_names_get_a_stand_in() {
    let mut entries = files_of("a", &[1]);
    entries[0].stem = None;
    let root = vec![FolderEntry { name: None, is_dir: true, entries: Some(entries) }];
    let s = scan_of(root);
    assert_eq!(name_of(&s.soundtracks[0].name), "Unknown soundtrack");
    assert_eq!(name_of(&s.songs[0].song_name[..32]), "Unknown track");
    assert_eq!(s.files[0].soundtrack_name, "Unknown soundtrack");
}

#[test]
fn names_are_transliterated_and_trimmed() {
    let root = vec![folder("  Pokémon Édition  ", vec![file("p", " Thème d'ouverture ", 1)])];
    let s = scan_of(root);
    assert_eq!(name_of(&s.soundtracks[0].name), "Pokemon Edition");
    assert_eq!(s.files[0].soundtrack_name, "Pokemon Edition");
    assert_eq!(name_of(&s.songs[0].song_name[..32]), "Theme d'ouverture");
}

#[test]
fn long_names_are_cut_to_32_characters() {
    let long = "The Quick Brown Fox Jumps Over The Lazy Dog";
    let root = vec![folder(long, vec![file("x", long, 1), file("x", "short", 2)])];
    let s = scan_of(root);
    assert_eq!(name_of(&s.soundtracks[0].name), &long[..32]);
    assert_eq!(name_of(&s.songs[0].song_name[..32]), &long[..32]);
    assert_eq!(name_of(&s.songs[0].song_name[32..64]), "short");
    assert_eq!(s.files[0].soundtrack_name, long);
}

#[test]
fn group_slots_beyond_84_are_dropped() {
    let durations = vec![1i32; 6 * 85 + 1];
    let s = scan_of(vec![folder("big", files_of("big", &durations))]);
    assert_eq!(s.songs.len(), 86);
    for j in 0..84 {
        assert_eq!(s.soundtracks[0].song_groups_ids[j], j as i32);
    }
    assert_eq!(s.songs[85].id, 85);
    assert_eq!(s.songs[85].song_id[0], 510);
    assert_eq!(s.soundtracks[0].num_songs, 511);
    assert_eq!(s.soundtracks[0].total_time_miliseconds, 511);
}

#[test]
fn scanned_database_survives_writing_and_reading() {
    let root = vec![
        folder("Boss Theme", files_of("Boss Theme", &[1000, 2000, 3000, 4000, 5000, 6000, 7000])),
        folder("Menu", vec![file("Menu", "intro", 123), subfolder("Menu", "old"), file("Menu", "loop", 456)]),
    ];
    let s = scan_of(root);
    let bytes = serialize(&s.header, &s.soundtracks, &s.songs);
    assert_eq!(bytes.len(), 512 + 51200 + 3 * 512);
    let (h, st, songs) = deserialize(&bytes).unwrap();
    assert_eq!(h, s.header);
    assert_eq!(st, s.soundtracks);
    assert_eq!(songs, s.songs);
}

#[test]
fn helpers_count_and_add() {
    let entries = vec![file("a", "x", 5), subfolder("a", "d"), file("a", "y", -7)];
    assert_eq!(count_files(&entries), 2);
    assert_eq!(sum_millis(&entries), -2);
    assert_eq!(count_files(&[]), 0);
    assert_eq!(sum_millis(&Vec::new()), 0);
    assert_eq!(groups_for(0), 0);
    assert_eq!(groups_for(1), 1);
    assert_eq!(groups_for(6), 1);
    assert_eq!(groups_for(7), 2);
    assert_eq!(groups_for(usize::MAX), usize::MAX / 6 + 1);
    let root = vec![stray_file("x"), folder("a", Vec::new()), stray_file("y"), folder("b", Vec::new())];
    assert_eq!(soundtrack_folders(&root), vec![1, 3]);
}

#[test]
fn song_group_is_built_from_its_entries() {
    let entries = vec![subfolder("a", "d"), file("a", "x", 5), file("a", "y", 6)];
    let song = build_song(&entries, 3, 4, 100);
    assert_eq!(song.magic, 200819);
    assert_eq!(song.soundtrack_id, 3);
    assert_eq!(song.id, 4);
    assert_eq!(song.song_id, [0, 100, 101, 0, 0, 0]);
    assert_eq!(song.song_time_miliseconds, [0, 5, 6, 0, 0, 0]);
    assert_eq!(name_of(&song.song_name[..32]), "x");
    assert_eq!(name_of(&song.song_name[32..64]), "y");
    let empty = build_song(&[], 0, 0, 0);
    assert_eq!(empty.song_id, [0; 6]);
    assert!(empty.song_name.iter().all(|s| *s == [0, 0]));
}

#[test]
fn records_are_appended_to_what_is_there() {
    let entries = files_of("a", &[1, 2, 3, 4, 5, 6, 7]);
    let mut songs = vec![build_song(&[], 9, 9, 0)];
    push_songs(&mut songs, &entries, 1, 50);
    assert_eq!(songs.len(), 3);
    assert_eq!(songs[0].soundtrack_id, 9);
    assert_eq!(songs[1].song_id, [50, 51, 52, 53, 54, 55]);
    assert_eq!(songs[2].song_id, [56, 0, 0, 0, 0, 0]);
    assert_eq!(songs[2].id, 1);
    let mut files = Vec::new();
    push_files(&mut files, &entries[..2].to_vec(), 0, &"first".to_string());
    push_files(&mut files, &entries, 1, &"second".to_string());
    assert_eq!(files.len(), 9);
    assert_eq!(files[1].index, 1);
    assert_eq!(files[1].soundtrack_name, "first");
    assert_eq!(files[2].index, 2);
    assert_eq!(files[2].soundtrack_index, 1);
    assert_eq!(files[8].path, entries[6].path);
}

#[test]
fn soundtrack_and_header_are_built_from_counts() {
    let st = build_soundtrack(&folder("Demo", files_of("Demo", &[10, 20, 30])), 7);
    assert_eq!(st.id, 7);
    assert_eq!(st.num_songs, 3);
    assert_eq!(st.total_time_miliseconds, 60);
    assert_eq!(&st.song_groups_ids[..2], &[0, 0]);
    assert_eq!(name_of(&st.name), "Demo");
    let h = build_header(0, 0);
    assert_eq!(h.magic, 1);
    assert_eq!(h.num_soundtracks, 0);
    assert_eq!(h.next_soundtrack_id, 1);
    assert_eq!(h.soundtrack_ids, [0; 100]);
    let h = build_header(100, 5);
    assert_eq!(h.soundtrack_ids[99], 99);
    assert_eq!(h.next_soundtrack_id, 101);
    assert_eq!(h.next_song_id, 5);
}
