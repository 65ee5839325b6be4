use xbst::transcode::{
    append_digits, append_padded, bitrate_arg, database_file, digit_str, probe_options,
    soundtrack_dir, track_file, transcode_args,
};

#[test]
fn digits_are_written_most_significant_first() {
    for n in [0usize, 1, 9, 10, 11, 99, 100, 255, 256, 4095, 65535, 1234567890, usize::MAX] {
        let mut dec = String::from(">");
        assert_eq!(append_digits(&mut dec, n, false), format!("{}", n).len());
        assert_eq!(dec, format!(">{}", n));
        let mut hex = String::new();
        assert_eq!(append_digits(&mut hex, n, true), format!("{:x}", n).len());
        assert_eq!(hex, format!("{:x}", n));
    }
}

#[test]
fn numbers_are_padded_with_zeros_to_their_width() {
    for n in [0usize, 7, 42, 999, 9999, 10000, 123456] {
        let mut out = String::new();
        append_padded(&mut out, n, false, 4);
        assert_eq!(out, format!("{:0>4}", n));
    }
    for n in [0usize, 0xa, 0xbeef, 0xffff_ffff, 0x1_0000_0000, usize::MAX] {
        let mut out = String::from("x");
        append_padded(&mut out, n, true, 8);
        assert_eq!(out, format!("x{:0>8x}", n));
    }
    let mut out = String::new();
    append_padded(&mut out, 5, false, 0);
    assert_eq!(out, "5");
}

#[test]
fn every_digit_has_its_character() {
    let all: String = (0..16).map(digit_str).collect();
    assert_eq!(all, "0123456789abcdef");
}

#[test]
fn soundtrack_folders_have_four_decimal_digits() {
    assert_eq!(soundtrack_dir("./output", 0), "./output/0000");
    assert_eq!(soundtrack_dir("./output", 12), "./output/0012");
    assert_eq!(soundtrack_dir("out", 99), "out/0099");
    assert_eq!(soundtrack_dir("", 12345), "/12345");
}

#[test]
fn transcoded_files_have_eight_hexadecimal_digits() {
    assert_eq!(track_file("./output", 0, 0), "./output/0000/00000000.wma");
    assert_eq!(track_file("./output", 3, 255), "./output/0003/000000ff.wma");
    assert_eq!(track_file("o", 99, 0x1234_abcd), "o/0099/1234abcd.wma");
    for (s, g) in [(0usize, 10usize), (7, 4096), (100, 0xdead_beef)] {
        assert_eq!(track_file("dir", s, g), format!("{}/{:0>4}/{:0>8x}.wma", "dir", s, g));
    }
}

#[test]
fn database_lies_below_the_output_folder() {
    assert_eq!(database_file("./output"), "./output/ST.DB");
    assert_eq!(database_file(""), "/ST.DB");
}

#[test]
fn bit_rate_is_given_in_thousands() {
    assert_eq!(bitrate_arg(128), "128k");
    assert_eq!(bitrate_arg(0), "0k");
    assert_eq!(bitrate_arg(-5), "-5k");
    assert_eq!(bitrate_arg(i16::MAX), "32767k");
    assert_eq!(bitrate_arg(i16::MIN), "-32768k");
    for b in [-1000i16, -1, 1, 64, 320] {
        assert_eq!(bitrate_arg(b), format!("{}k", b));
    }
}

#[test]
fn transcoder_arguments_are_complete() {
    let args = transcode_args("/music/a/one.mp3", "./output", 128, 2, 26);
    assert_eq!(
        args,
        vec![
            "-i",
            "/music/a/one.mp3",
            "-acodec",
            "wmav1",
            "-ac",
            "2",
            "-ar",
            "44100",
            "-b:a",
            "128k",
            "-map_metadata",
            "-1",
            "-map",
            "0:a",
            "-y",
            "./output/0002/0000001a.wma",
        ]
    );
}

#[test]
fn measuring_arguments_are_complete() {
    assert_eq!(
        probe_options(),
        vec![
            "-v",
            "error",
            "-show_entries",
            "format=duration",
            "-of",
            "default=noprint_wrappers=1:nokey=1",
        ]
    );
}
