//! Base64 in the URL-safe alphabet without padding, encoded by the `base64` crate.

use vstd::prelude::*;

verus! {

/// The character for the six-bit value `i` in the URL-safe alphabet: `A` to `Z`, `a` to
/// `z`, `0` to `9`, `-` and `_`.
pub open spec fn base64url_char(i: int) -> char {
    if i < 26 {
        (65 + i) as char
    } else if i < 52 {
        (97 + i - 26) as char
    } else if i < 62 {
        (48 + i - 52) as char
    } else if i == 62 {
        '-'
    } else {
        '_'
    }
}

/// The base64 text of `bytes` in the URL-safe alphabet, without padding: four characters
/// for every three bytes, and two or three characters for the one or two bytes left.
pub open spec fn base64url(bytes: Seq<u8>) -> Seq<char>
    decreases bytes.len(),
{
    if bytes.len() == 0 {
        Seq::empty()
    } else if bytes.len() == 1 {
        let a = bytes[0] as int;
        seq![base64url_char(a / 4), base64url_char((a % 4) * 16)]
    } else if bytes.len() == 2 {
        let a = bytes[0] as int;
        let b = bytes[1] as int;
        seq![
            base64url_char(a / 4),
            base64url_char((a % 4) * 16 + b / 16),
            base64url_char((b % 16) * 4),
        ]
    } else {
        let a = bytes[0] as int;
        let b = bytes[1] as int;
        let c = bytes[2] as int;
        seq![
            base64url_char(a / 4),
            base64url_char((a % 4) * 16 + b / 16),
            base64url_char((b % 16) * 4 + c / 64),
            base64url_char(c % 64),
        ] + base64url(bytes.skip(3))
    }
}

/// Encodes `bytes` with the `URL_SAFE_NO_PAD` engine of the `base64` crate.
///
/// Trusted: the result is the base64 text of the bytes in the URL-safe alphabet, without
/// padding. The bytes must be few enough for the length of the text to be a `usize`.
#[verifier::external_body]
pub(crate) fn encode(bytes: &[u8]) -> (s: String)
    requires
        bytes@.len() / 3 * 4 + 4 <= usize::MAX,
    ensures
        s@ == base64url(bytes@),
{
    base64::Engine::encode(&base64::engine::general_purpose::URL_SAFE_NO_PAD, bytes)
}

/// The six-bit value that a character of the URL-safe alphabet stands for; -1 for any other
/// character.
pub open spec fn base64url_index(c: char) -> int {
    let n = c as int;
    if 65 <= n <= 90 {
        n - 65
    } else if 97 <= n <= 122 {
        n - 97 + 26
    } else if 48 <= n <= 57 {
        n - 48 + 52
    } else if c == '-' {
        62
    } else if c == '_' {
        63
    } else {
        -1
    }
}

/// Every six-bit value has a character of its own.
pub proof fn lemma_base64url_index(i: int)
    requires
        0 <= i < 64,
    ensures
        base64url_index(base64url_char(i)) == i,
{
}

/// Three bytes are told by their four characters.
proof fn lemma_group_of_three(a: int, b: int, c: int, x: int, y: int, z: int)
    requires
        0 <= a < 256 && 0 <= b < 256 && 0 <= c < 256,
        0 <= x < 256 && 0 <= y < 256 && 0 <= z < 256,
        base64url_char(a / 4) == base64url_char(x / 4),
        base64url_char((a % 4) * 16 + b / 16) == base64url_char((x % 4) * 16 + y / 16),
        base64url_char((b % 16) * 4 + c / 64) == base64url_char((y % 16) * 4 + z / 64),
        base64url_char(c % 64) == base64url_char(z % 64),
    ensures
        a == x && b == y && c == z,
{
    lemma_base64url_index(a / 4);
    lemma_base64url_index(x / 4);
    lemma_base64url_index((a % 4) * 16 + b / 16);
    lemma_base64url_index((x % 4) * 16 + y / 16);
    lemma_base64url_index((b % 16) * 4 + c / 64);
    lemma_base64url_index((y % 16) * 4 + z / 64);
    lemma_base64url_index(c % 64);
    lemma_base64url_index(z % 64);
}

/// Two bytes at the end are told by their three characters.
proof fn lemma_group_of_two(a: int, b: int, x: int, y: int)
    requires
        0 <= a < 256 && 0 <= b < 256,
        0 <= x < 256 && 0 <= y < 256,
        base64url_char(a / 4) == base64url_char(x / 4),
        base64url_char((a % 4) * 16 + b / 16) == base64url_char((x % 4) * 16 + y / 16),
        base64url_char((b % 16) * 4) == base64url_char((y % 16) * 4),
    ensures
        a == x && b == y,
{
    lemma_base64url_index(a / 4);
    lemma_base64url_index(x / 4);
    lemma_base64url_index((a % 4) * 16 + b / 16);
    lemma_base64url_index((x % 4) * 16 + y / 16);
    lemma_base64url_index((b % 16) * 4);
    lemma_base64url_index((y % 16) * 4);
}

/// The base64 text of eight bytes: eleven characters.
pub open spec fn base64url_of_eight(b: Seq<u8>) -> Seq<char> {
    seq![
        base64url_char(b[0] as int / 4),
        base64url_char((b[0] as int % 4) * 16 + b[1] as int / 16),
        base64url_char((b[1] as int % 16) * 4 + b[2] as int / 64),
        base64url_char(b[2] as int % 64),
        base64url_char(b[3] as int / 4),
        base64url_char((b[3] as int % 4) * 16 + b[4] as int / 16),
        base64url_char((b[4] as int % 16) * 4 + b[5] as int / 64),
        base64url_char(b[5] as int % 64),
        base64url_char(b[6] as int / 4),
        base64url_char((b[6] as int % 4) * 16 + b[7] as int / 16),
        base64url_char((b[7] as int % 16) * 4),
    ]
}

/// The base64 text of eight bytes, written out.
pub proof fn lemma_base64url_eight(b: Seq<u8>)
    requires
        b.len() == 8,
    ensures
        base64url(b) == base64url_of_eight(b),
{
    let b3 = b.skip(3);
    let b6 = b3.skip(3);
    assert(b3.len() == 5 && b6.len() == 2);
    assert(b3[0] == b[3] && b3[1] == b[4] && b3[2] == b[5]);
    assert(b6[0] == b[6] && b6[1] == b[7]);
    assert(base64url(b6) =~= seq![
        base64url_char(b[6] as int / 4),
        base64url_char((b[6] as int % 4) * 16 + b[7] as int / 16),
        base64url_char((b[7] as int % 16) * 4),
    ]);
    assert(base64url(b3) =~= seq![
        base64url_char(b[3] as int / 4),
        base64url_char((b[3] as int % 4) * 16 + b[4] as int / 16),
        base64url_char((b[4] as int % 16) * 4 + b[5] as int / 64),
        base64url_char(b[5] as int % 64),
    ] + base64url(b6));
    assert(base64url(b) =~= base64url_of_eight(b));
}

/// Eight bytes are told by their base64 text: different bytes give different texts.
pub proof fn lemma_base64url_tells_apart(a: Seq<u8>, b: Seq<u8>)
    requires
        a.len() == 8,
        b.len() == 8,
        base64url(a) == base64url(b),
    ensures
        a == b,
{
    lemma_base64url_eight(a);
    lemma_base64url_eight(b);
    let s = base64url_of_eight(a);
    let t = base64url_of_eight(b);
    assert(s[0] == t[0] && s[1] == t[1] && s[2] == t[2] && s[3] == t[3] && s[4] == t[4] && s[5]
        == t[5] && s[6] == t[6] && s[7] == t[7] && s[8] == t[8] && s[9] == t[9] && s[10] == t[10]);
    lemma_group_of_three(
        a[0] as int,
        a[1] as int,
        a[2] as int,
        b[0] as int,
        b[1] as int,
        b[2] as int,
    );
    lemma_group_of_three(
        a[3] as int,
        a[4] as int,
        a[5] as int,
        b[3] as int,
        b[4] as int,
        b[5] as int,
    );
    lemma_group_of_two(a[6] as int, a[7] as int, b[6] as int, b[7] as int);
    assert(a =~= b);
}

} // verus!
