//! Where the database and the transcoded files go, and the arguments that the
//! measuring and the transcoding program are started with.
use vstd::prelude::*;
use vstd::string::StringExecFns;

verus! {

/// The character of the digit `d`, in lower case beyond 9.
pub open spec fn digit_char(d: nat) -> char {
    if d == 0 {
        '0'
    } else if d == 1 {
        '1'
    } else if d == 2 {
        '2'
    } else if d == 3 {
        '3'
    } else if d == 4 {
        '4'
    } else if d == 5 {
        '5'
    } else if d == 6 {
        '6'
    } else if d == 7 {
        '7'
    } else if d == 8 {
        '8'
    } else if d == 9 {
        '9'
    } else if d == 10 {
        'a'
    } else if d == 11 {
        'b'
    } else if d == 12 {
        'c'
    } else if d == 13 {
        'd'
    } else if d == 14 {
        'e'
    } else {
        'f'
    }
}

/// The digits of `n`, the most significant first, without leading zeros:
/// hexadecimal digits where `hex` is set, decimal digits where it is not.
pub open spec fn digits(n: nat, hex: bool) -> Seq<char>
    decreases n,
{
    if hex {
        if n < 16 {
            seq![digit_char(n)]
        } else {
            digits(n / 16, hex).push(digit_char(n % 16))
        }
    } else {
        if n < 10 {
            seq![digit_char(n)]
        } else {
            digits(n / 10, hex).push(digit_char(n % 10))
        }
    }
}

/// `count` times the character `0`.
pub open spec fn zero_chars(count: nat) -> Seq<char> {
    Seq::new(count, |i: int| '0')
}

/// The digits of `n`, with zeros before them where they are fewer than
/// `width`.
pub open spec fn padded(n: nat, hex: bool, width: nat) -> Seq<char> {
    let d = digits(n, hex);
    if d.len() < width {
        zero_chars((width - d.len()) as nat) + d
    } else {
        d
    }
}

/// The folder of a soundtrack's transcoded files: the soundtrack's index in
/// four decimal digits, below the output folder.
pub open spec fn soundtrack_dir_name(output: Seq<char>, soundtrack_index: nat) -> Seq<char> {
    output + "/"@ + padded(soundtrack_index, false, 4)
}

/// The transcoded file of a song: the song's global id in eight hexadecimal
/// digits, in the folder of its soundtrack.
pub open spec fn track_file_name(
    output: Seq<char>,
    soundtrack_index: nat,
    song_index: nat,
) -> Seq<char> {
    soundtrack_dir_name(output, soundtrack_index) + "/"@ + padded(song_index, true, 8) + ".wma"@
}

/// The database file below the output folder.
pub open spec fn database_file_name(output: Seq<char>) -> Seq<char> {
    output + "/ST.DB"@
}

/// The bit rate as the transcoder takes it: in thousands of bits per second.
pub open spec fn bitrate_text(bitrate: i16) -> Seq<char> {
    if bitrate < 0 {
        "-"@ + digits((-bitrate) as nat, false) + "k"@
    } else {
        digits(bitrate as nat, false) + "k"@
    }
}

/// The arguments of the transcoder for one song.
pub open spec fn transcode_arg_list(
    input: Seq<char>,
    output: Seq<char>,
    bitrate: i16,
    soundtrack_index: nat,
    song_index: nat,
) -> Seq<Seq<char>> {
    seq![
        "-i"@,
        input,
        "-acodec"@,
        "wmav1"@,
        "-ac"@,
        "2"@,
        "-ar"@,
        "44100"@,
        "-b:a"@,
        bitrate_text(bitrate),
        "-map_metadata"@,
        "-1"@,
        "-map"@,
        "0:a"@,
        "-y"@,
        track_file_name(output, soundtrack_index, song_index),
    ]
}

/// The arguments of the program that measures the duration of a file; the
/// file follows them.
pub open spec fn probe_option_list() -> Seq<Seq<char>> {
    seq![
        "-v"@,
        "error"@,
        "-show_entries"@,
        "format=duration"@,
        "-of"@,
        "default=noprint_wrappers=1:nokey=1"@,
    ]
}

/// The texts of the strings.
pub open spec fn texts(v: Seq<String>) -> Seq<Seq<char>> {
    Seq::new(v.len(), |i: int| v[i]@)
}

/// The digit `d` as a text.
pub fn digit_str(d: usize) -> (r: &'static str)
    requires
        d < 16,
    ensures
        r@ == seq![digit_char(d as nat)],
{
    proof {
        reveal_strlit("0");
        reveal_strlit("1");
        reveal_strlit("2");
        reveal_strlit("3");
        reveal_strlit("4");
        reveal_strlit("5");
        reveal_strlit("6");
        reveal_strlit("7");
        reveal_strlit("8");
        reveal_strlit("9");
        reveal_strlit("a");
        reveal_strlit("b");
        reveal_strlit("c");
        reveal_strlit("d");
        reveal_strlit("e");
        reveal_strlit("f");
    }
    let r = if d == 0 {
        "0"
    } else if d == 1 {
        "1"
    } else if d == 2 {
        "2"
    } else if d == 3 {
        "3"
    } else if d == 4 {
        "4"
    } else if d == 5 {
        "5"
    } else if d == 6 {
        "6"
    } else if d == 7 {
        "7"
    } else if d == 8 {
        "8"
    } else if d == 9 {
        "9"
    } else if d == 10 {
        "a"
    } else if d == 11 {
        "b"
    } else if d == 12 {
        "c"
    } else if d == 13 {
        "d"
    } else if d == 14 {
        "e"
    } else {
        "f"
    };
    assert(r@ =~= seq![digit_char(d as nat)]);
    r
}

/// Appends the digits of `n`, and tells how many they are.
pub fn append_digits(out: &mut String, n: usize, hex: bool) -> (count: usize)
    ensures
        final(out)@ == old(out)@ + digits(n as nat, hex),
        count == digits(n as nat, hex).len(),
        1 <= count,
        count <= n || count == 1,
    decreases n,
{
    let mut count: usize = 1;
    if hex {
        if n >= 16 {
            count = append_digits(out, n / 16, hex) + 1;
        }
        out.append(digit_str(n % 16));
    } else {
        if n >= 10 {
            count = append_digits(out, n / 10, hex) + 1;
        }
        out.append(digit_str(n % 10));
    }
    assert(out@ =~= old(out)@ + digits(n as nat, hex));
    count
}

/// Appends the digits of `n`, with zeros before them where they are fewer
/// than `width`.
pub fn append_padded(out: &mut String, n: usize, hex: bool, width: usize)
    ensures
        final(out)@ == old(out)@ + padded(n as nat, hex, width as nat),
{
    let mut text = String::new();
    let count = append_digits(&mut text, n, hex);
    assert(text@ =~= digits(n as nat, hex));
    let mut k: usize = count;
    assert(out@ =~= old(out)@ + zero_chars(0));
    while k < width
        invariant
            count <= k,
            k == count || k <= width,
            out@ == old(out)@ + zero_chars((k - count) as nat),
        decreases width - k,
    {
        out.append("0");
        proof {
            reveal_strlit("0");
        }
        assert(out@ =~= old(out)@ + zero_chars((k + 1 - count) as nat));
        k = k + 1;
    }
    out.append(text.as_str());
    assert(out@ =~= old(out)@ + padded(n as nat, hex, width as nat));
}

/// The folder of a soundtrack's transcoded files.
pub fn soundtrack_dir(output: &str, soundtrack_index: usize) -> (r: String)
    ensures
        r@ == soundtrack_dir_name(output@, soundtrack_index as nat),
{
    let mut r = String::new();
    r.append(output);
    r.append("/");
    append_padded(&mut r, soundtrack_index, false, 4);
    assert(r@ =~= soundtrack_dir_name(output@, soundtrack_index as nat));
    r
}

/// The transcoded file of a song.
pub fn track_file(output: &str, soundtrack_index: usize, song_index: usize) -> (r: String)
    ensures
        r@ == track_file_name(output@, soundtrack_index as nat, song_index as nat),
{
    let mut r = soundtrack_dir(output, soundtrack_index);
    r.append("/");
    append_padded(&mut r, song_index, true, 8);
    r.append(".wma");
    assert(r@ =~= track_file_name(output@, soundtrack_index as nat, song_index as nat));
    r
}

/// The database file below the output folder.
pub fn database_file(output: &str) -> (r: String)
    ensures
        r@ == database_file_name(output@),
{
    let mut r = String::new();
    r.append(output);
    r.append("/ST.DB");
    assert(r@ =~= database_file_name(output@));
    r
}

/// The bit rate as the transcoder takes it.
pub fn bitrate_arg(bitrate: i16) -> (r: String)
    ensures
        r@ == bitrate_text(bitrate),
{
    let mut r = String::new();
    if bitrate < 0 {
        r.append("-");
        let size: i32 = -(bitrate as i32);
        append_digits(&mut r, size as usize, false);
    } else {
        append_digits(&mut r, bitrate as usize, false);
    }
    r.append("k");
    assert(r@ =~= bitrate_text(bitrate));
    r
}

/// The arguments that the transcoder is started with for one song: the input
/// file, the codec, two channels at 44100 Hz, the bit rate, no metadata, the
/// audio stream only, and the output file, which may be overwritten.
pub fn transcode_args(
    input: &str,
    output: &str,
    bitrate: i16,
    soundtrack_index: usize,
    song_index: usize,
) -> (r: Vec<String>)
    ensures
        texts(r@) == transcode_arg_list(
            input@,
            output@,
            bitrate,
            soundtrack_index as nat,
            song_index as nat,
        ),
{
    let mut r: Vec<String> = Vec::new();
    r.push("-i".to_owned());
    r.push(input.to_owned());
    r.push("-acodec".to_owned());
    r.push("wmav1".to_owned());
    r.push("-ac".to_owned());
    r.push("2".to_owned());
    r.push("-ar".to_owned());
    r.push("44100".to_owned());
    r.push("-b:a".to_owned());
    r.push(bitrate_arg(bitrate));
    r.push("-map_metadata".to_owned());
    r.push("-1".to_owned());
    r.push("-map".to_owned());
    r.push("0:a".to_owned());
    r.push("-y".to_owned());
    r.push(track_file(output, soundtrack_index, song_index));
    assert(texts(r@) =~= transcode_arg_list(
        input@,
        output@,
        bitrate,
        soundtrack_index as nat,
        song_index as nat,
    ));
    r
}

/// The arguments that the measuring program is started with before the
/// file: it is to print the duration in seconds and nothing else.
pub fn probe_options() -> (r: Vec<String>)
    ensures
        texts(r@) == probe_option_list(),
{
    let mut r: Vec<String> = Vec::new();
    r.push("-v".to_owned());
    r.push("error".to_owned());
    r.push("-show_entries".to_owned());
    r.push("format=duration".to_owned());
    r.push("-of".to_owned());
    r.push("default=noprint_wrappers=1:nokey=1".to_owned());
    assert(texts(r@) =~= probe_option_list());
    r
}

} // verus!
