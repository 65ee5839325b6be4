//! Names in the database: transliterated to ASCII, trimmed, cut or padded to a
//! fixed number of two-byte slots.
use vstd::prelude::*;
use vstd::string::StrSliceExecFns;

verus! {

/// The transliteration of `text` that the `deunicode` crate's table gives.
pub uninterp spec fn ascii_fold(text: Seq<char>) -> Seq<char>;

/// Every character of `text` is a printable ASCII character or a space.
pub open spec fn is_plain_ascii(text: Seq<char>) -> bool {
    forall|i: int| 0 <= i < text.len() ==> 0x20 <= (#[trigger] text[i]) as u32 <= 0x7E
}

/// `deunicode::AsciiChars::ascii_chars` on a `str`, written out with
/// `to_string`: each character is replaced by what the crate's table holds for
/// it, and by U+FFFD where the table holds nothing. The result depends on the
/// text alone. The table maps each character from U+0020 to U+007E to itself,
/// so a text of such characters comes back unchanged.
#[verifier::external_body]
pub(crate) fn transliterate(text: &str) -> (r: String)
    ensures
        r@ == ascii_fold(text@),
        is_plain_ascii(text@) ==> r@ == text@,
{
    deunicode::AsciiChars::ascii_chars(text).to_string()
}

/// The ASCII form of a text: the text itself where all of it is plain ASCII,
/// and what the transliteration gives for it where it is not.
pub open spec fn ascii_form(text: Seq<char>) -> Seq<char> {
    if is_plain_ascii(text) {
        text
    } else {
        ascii_fold(text)
    }
}

/// Transliterates a text to ASCII. A text of plain ASCII comes back as it
/// is.
pub fn to_ascii(text: &str) -> (r: String)
    ensures
        r@ == ascii_form(text@),
        r@ == ascii_fold(text@),
{
    transliterate(text)
}

/// `c` is a white space character of Unicode.
pub open spec fn is_space(c: char) -> bool {
    let n = c as u32;
    ||| 0x09 <= n <= 0x0D
    ||| n == 0x20
    ||| n == 0x85
    ||| n == 0xA0
    ||| n == 0x1680
    ||| 0x2000 <= n <= 0x200A
    ||| n == 0x2028
    ||| n == 0x2029
    ||| n == 0x202F
    ||| n == 0x205F
    ||| n == 0x3000
}

/// Number of white space characters at the start of `s`.
pub open spec fn leading_spaces(s: Seq<char>) -> nat
    decreases s.len(),
{
    if s.len() > 0 && is_space(s[0]) {
        1 + leading_spaces(s.drop_first())
    } else {
        0
    }
}

/// Number of white space characters at the end of `s`.
pub open spec fn trailing_spaces(s: Seq<char>) -> nat
    decreases s.len(),
{
    if s.len() > 0 && is_space(s.last()) {
        1 + trailing_spaces(s.drop_last())
    } else {
        0
    }
}

/// `s` without the white space at its start and at its end.
pub open spec fn trimmed(s: Seq<char>) -> Seq<char> {
    let rest = s.skip(leading_spaces(s) as int);
    rest.take(rest.len() - trailing_spaces(rest))
}

/// The byte stored for a character: the character itself where it is ASCII,
/// and 0 where it is not.
pub open spec fn slot_byte(c: char) -> u8 {
    if (c as u32) < 128 {
        c as u8
    } else {
        0
    }
}

/// The low bytes of the `max_chars` slots of a name: the characters of the
/// trimmed text as far as they fit, then zeros.
pub open spec fn name_bytes(text: Seq<char>, max_chars: nat) -> Seq<u8> {
    let t = trimmed(text);
    Seq::new(
        max_chars,
        |k: int|
            if k < t.len() {
                slot_byte(t[k])
            } else {
                0u8
            },
    )
}

/// The slots hold the low bytes `bytes`, each with a high byte of 0.
pub open spec fn holds_name(slots: Seq<[u8; 2]>, bytes: Seq<u8>) -> bool {
    &&& slots.len() == bytes.len()
    &&& forall|k: int| 0 <= k < slots.len() ==> (#[trigger] slots[k])[0] == bytes[k] && slots[k][1] == 0
}

pub proof fn lemma_leading_spaces(s: Seq<char>, a: int)
    requires
        0 <= a <= s.len(),
        forall|j: int| 0 <= j < a ==> is_space(s[j]),
        a < s.len() ==> !is_space(s[a]),
    ensures
        leading_spaces(s) == a,
    decreases a,
{
    if a > 0 {
        lemma_leading_spaces(s.drop_first(), a - 1);
    }
}

pub proof fn lemma_trailing_spaces(s: Seq<char>, b: int)
    requires
        0 <= b <= s.len(),
        forall|j: int| b <= j < s.len() ==> is_space(s[j]),
        b > 0 ==> !is_space(s[b - 1]),
    ensures
        trailing_spaces(s) == s.len() - b,
    decreases s.len() - b,
{
    if b < s.len() {
        lemma_trailing_spaces(s.drop_last(), b);
    }
}

/// Tells whether `c` is a white space character.
pub fn is_whitespace(c: char) -> (r: bool)
    ensures
        r == is_space(c),
{
    let n: u32 = c as u32;
    (0x09 <= n && n <= 0x0D) || n == 0x20 || n == 0x85 || n == 0xA0 || n == 0x1680 || (0x2000 <= n
        && n <= 0x200A) || n == 0x2028 || n == 0x2029 || n == 0x202F || n == 0x205F || n == 0x3000
}

/// The characters of `text`, one by one.
pub fn chars_of(text: &str) -> (v: Vec<char>)
    ensures
        v@ == text@,
{
    let mut v: Vec<char> = Vec::new();
    for c in it: text.chars()
        invariant
            v@ == it.seq().take(it.index() as int),
            it.seq() == text@,
    {
        v.push(c);
    }
    v
}

/// Where the trimmed text starts and ends in `chars`.
pub fn trim_bounds(chars: &Vec<char>) -> (r: (usize, usize))
    ensures
        r.0 <= r.1 <= chars@.len(),
        r.0 == leading_spaces(chars@),
        r.1 == chars@.len() - trailing_spaces(chars@.skip(r.0 as int)),
        chars@.subrange(r.0 as int, r.1 as int) == trimmed(chars@),
{
    let n: usize = chars.len();
    let mut a: usize = 0;
    while a < n && is_whitespace(chars[a])
        invariant
            a <= n == chars@.len(),
            forall|j: int| 0 <= j < a ==> is_space(chars@[j]),
        decreases n - a,
    {
        a = a + 1;
    }
    let mut b: usize = n;
    while b > a && is_whitespace(chars[b - 1])
        invariant
            a <= b <= n == chars@.len(),
            forall|j: int| b <= j < n ==> is_space(chars@[j]),
        decreases b,
    {
        b = b - 1;
    }
    proof {
        let rest = chars@.skip(a as int);
        lemma_leading_spaces(chars@, a as int);
        lemma_trailing_spaces(rest, b - a);
        assert(rest.take(rest.len() - trailing_spaces(rest)) =~= chars@.subrange(
            a as int,
            b as int,
        ));
    }
    (a, b)
}

/// The text without the white space at its start and at its end.
pub fn trim(text: &str) -> (r: String)
    ensures
        r@ == trimmed(text@),
{
    let chars = chars_of(text);
    let (a, b) = trim_bounds(&chars);
    text.substring_char(a, b).to_owned()
}

/// The byte that a slot stores for `c`.
pub fn low_byte(c: char) -> (b: u8)
    ensures
        b == slot_byte(c),
{
    let n: u32 = c as u32;
    if n < 128 {
        n as u8
    } else {
        0
    }
}

/// Packs a text that has been transliterated into `max_chars` slots: white
/// space at both ends is dropped, each of the first `max_chars` characters
/// takes one slot, and empty slots follow up to `max_chars`.
pub fn pack_name(text: &str, max_chars: usize) -> (r: Vec<[u8; 2]>)
    ensures
        holds_name(r@, name_bytes(text@, max_chars as nat)),
{
    let chars = chars_of(text);
    let (a, b) = trim_bounds(&chars);
    let mut out: Vec<[u8; 2]> = Vec::new();
    let mut k: usize = 0;
    while k < max_chars
        invariant
            k <= max_chars,
            a <= b <= chars@.len(),
            chars@ == text@,
            chars@.subrange(a as int, b as int) == trimmed(text@),
            out@.len() == k,
            forall|j: int|
                0 <= j < k ==> (#[trigger] out@[j])[0] == name_bytes(text@, max_chars as nat)[j]
                    && out@[j][1] == 0,
        decreases max_chars - k,
    {
        let byte: u8 = if k < b - a {
            low_byte(chars[a + k])
        } else {
            0
        };
        out.push([byte, 0]);
        k = k + 1;
    }
    out
}

/// Encodes a name for the database: the text is transliterated to ASCII and
/// then packed into `max_chars` slots. A name of plain ASCII is packed as it
/// is.
pub fn encode_name(text: &str, max_chars: usize) -> (r: Vec<[u8; 2]>)
    ensures
        holds_name(r@, name_bytes(ascii_form(text@), max_chars as nat)),
        holds_name(r@, name_bytes(ascii_fold(text@), max_chars as nat)),
{
    let folded = to_ascii(text);
    pack_name(folded.as_str(), max_chars)
}

/// A name of plain ASCII characters that neither starts with white space nor
/// has fewer than `max_chars` characters before the white space at its end is
/// cut to its first `max_chars` characters: slot `k` holds character `k`, and
/// there are no other slots.
pub proof fn lemma_long_name_is_cut(text: Seq<char>, max_chars: nat)
    requires
        is_plain_ascii(text),
        leading_spaces(text) == 0,
        text.len() - trailing_spaces(text) >= max_chars,
    ensures
        name_bytes(ascii_form(text), max_chars).len() == max_chars,
        forall|k: int|
            0 <= k < max_chars ==> #[trigger] name_bytes(ascii_form(text), max_chars)[k]
                == text[k] as u8,
{
    assert(text.skip(0) =~= text);
}

/// A name of fewer than `max_chars` characters is followed by empty slots.
pub proof fn lemma_short_name_is_padded(text: Seq<char>, max_chars: nat)
    ensures
        name_bytes(text, max_chars).len() == max_chars,
        forall|k: int|
            trimmed(text).len() <= k < max_chars ==> #[trigger] name_bytes(text, max_chars)[k]
                == 0,
{
}

} // verus!
