//! Text that the parser produces: hexadecimal numbers in messages, and
//! NUL-terminated names decoded from the file's bytes.
use vstd::prelude::*;
use vstd::slice::slice_subrange;
use vstd::utf8::{decode_utf8, pop_first_scalar, valid_first_scalar, valid_utf8};

verus! {

/// The lowercase hexadecimal digit of `d`, for `0 <= d < 16`.
pub open spec fn hex_digit(d: nat) -> char {
    seq!['0', '1', '2', '3', '4', '5', '6', '7', '8', '9', 'a', 'b', 'c', 'd', 'e', 'f'][d as int]
}

/// `n` written in lowercase hexadecimal without leading zeros (`"0"` for zero).
pub open spec fn hex(n: nat) -> Seq<char>
    decreases n,
{
    if n < 16 {
        seq![hex_digit(n)]
    } else {
        hex(n / 16).push(hex_digit(n % 16))
    }
}

/// The one-character string of a hexadecimal digit.
fn hex_digit_str(d: u64) -> (r: &'static str)
    requires
        d < 16,
    ensures
        r@ == seq![hex_digit(d as nat)],
{
    match d {
        0 => { proof { reveal_strlit("0"); } "0" },
        1 => { proof { reveal_strlit("1"); } "1" },
        2 => { proof { reveal_strlit("2"); } "2" },
        3 => { proof { reveal_strlit("3"); } "3" },
        4 => { proof { reveal_strlit("4"); } "4" },
        5 => { proof { reveal_strlit("5"); } "5" },
        6 => { proof { reveal_strlit("6"); } "6" },
        7 => { proof { reveal_strlit("7"); } "7" },
        8 => { proof { reveal_strlit("8"); } "8" },
        9 => { proof { reveal_strlit("9"); } "9" },
        10 => { proof { reveal_strlit("a"); } "a" },
        11 => { proof { reveal_strlit("b"); } "b" },
        12 => { proof { reveal_strlit("c"); } "c" },
        13 => { proof { reveal_strlit("d"); } "d" },
        14 => { proof { reveal_strlit("e"); } "e" },
        _ => { proof { reveal_strlit("f"); } "f" },
    }
}

/// Appends `n` in lowercase hexadecimal to `s`.
pub fn push_hex(s: &mut String, n: u64)
    ensures
        final(s)@ == old(s)@ + hex(n as nat),
    decreases n,
{
    if n >= 16 {
        push_hex(s, n / 16);
    }
    s.append(hex_digit_str(n % 16));
    proof {
        assert(hex(n as nat) == if n < 16 { seq![hex_digit(n as nat)] } else { hex((n / 16) as nat).push(hex_digit((n % 16) as nat)) });
    }
}

/// `prefix` followed by `n` in hexadecimal and `suffix`.
pub open spec fn with_hex(prefix: Seq<char>, n: nat, suffix: Seq<char>) -> Seq<char> {
    prefix + hex(n) + suffix
}

/// Builds the text `prefix`, then `n` in hexadecimal, then `suffix`.
pub fn format_with_hex(prefix: &str, n: u64, suffix: &str) -> (s: String)
    ensures
        s@ == with_hex(prefix@, n as nat, suffix@),
{
    let mut s = String::from_str(prefix);
    push_hex(&mut s, n);
    s.append(suffix);
    s
}

/// What `String::from_utf8_lossy` makes of a byte sequence: the bytes decoded as
/// UTF-8, each invalid sequence replaced by U+FFFD.
pub uninterp spec fn utf8_lossy(bytes: Seq<u8>) -> Seq<char>;

/// Decodes `bytes` with `String::from_utf8_lossy` (std), which decodes the valid UTF-8
/// runs of `bytes` and puts U+FFFD in place of each invalid sequence. The contract claims
/// that the result is a function of the bytes alone; that valid UTF-8 is decoded
/// unchanged; and that a NUL character comes only from a zero byte (neither a decoded
/// run without zero bytes nor U+FFFD holds one). What replaces an invalid sequence
/// is otherwise left unsaid.
#[verifier::external_body]
fn decode_lossy(bytes: &[u8]) -> (s: String)
    ensures
        s@ == utf8_lossy(bytes@),
        valid_utf8(bytes@) ==> s@ == decode_utf8(bytes@),
        !bytes@.contains(0) ==> !s@.contains('\0'),
{
    String::from_utf8_lossy(bytes).into_owned()
}

/// The text that lossy UTF-8 decoding makes of `b`: its decoding when `b` is valid
/// UTF-8, else what `String::from_utf8_lossy` makes of it.
pub open spec fn decoded_text(b: Seq<u8>) -> Seq<char> {
    if valid_utf8(b) {
        decode_utf8(b)
    } else {
        utf8_lossy(b)
    }
}

/// The characters of ASCII bytes, one per byte.
pub open spec fn ascii_chars(b: Seq<u8>) -> Seq<char> {
    b.map_values(|x: u8| (x as u32) as char)
}

/// ASCII bytes are valid UTF-8 and decode to themselves, one character per byte.
pub proof fn lemma_ascii_text(b: Seq<u8>)
    requires
        forall|i: int| 0 <= i < b.len() ==> b[i] < 0x80,
    ensures
        valid_utf8(b),
        decoded_text(b) == ascii_chars(b),
    decreases b.len(),
{
    if b.len() > 0 {
        let x = b[0];
        assert(x < 0x80 ==> x & 0x7f == x) by (bit_vector);
        assert(valid_first_scalar(b));
        let rest = pop_first_scalar(b);
        assert(rest =~= b.drop_first());
        lemma_ascii_text(rest);
        assert(decode_utf8(b) == seq![(x as u32) as char] + decode_utf8(rest));
        assert(ascii_chars(b) =~= seq![(x as u32) as char] + ascii_chars(rest));
    } else {
        assert(ascii_chars(b) =~= Seq::<char>::empty());
    }
}

/// `n` is where the text at the start of `s` ends: at its first NUL byte, or at its end.
pub open spec fn ends_text(s: Seq<u8>, n: int) -> bool {
    &&& 0 <= n <= s.len()
    &&& forall|j: int| 0 <= j < n ==> s[j] != 0
    &&& (n == s.len() || s[n] == 0)
}

/// The length of the text at the start of `s`: the bytes before its first NUL byte.
pub open spec fn text_len(s: Seq<u8>) -> int {
    choose|n: int| ends_text(s, n)
}

/// The place where the text ends is unique, so `text_len` is that place.
pub proof fn lemma_text_len(s: Seq<u8>, n: int)
    requires
        ends_text(s, n),
    ensures
        text_len(s) == n,
{
    let m = text_len(s);
    assert(ends_text(s, m));
    if m < n {
        assert(s[m] != 0);
    } else if n < m {
        assert(s[n] != 0);
    }
}

/// The NUL-terminated text at the start of `s`, decoded as lossy UTF-8.
pub open spec fn c_string(s: Seq<u8>) -> Seq<char> {
    decoded_text(s.take(text_len(s)))
}

/// An ASCII text that ends at `n` comes back as its own characters.
pub proof fn lemma_ascii_c_string(s: Seq<u8>, n: int)
    requires
        ends_text(s, n),
        forall|j: int| 0 <= j < n ==> s[j] < 0x80,
    ensures
        c_string(s) == ascii_chars(s.take(n)),
{
    lemma_text_len(s, n);
    lemma_ascii_text(s.take(n));
}

/// Decodes the NUL-terminated text at the start of `s`, which runs to the end of `s`
/// when `s` holds no NUL byte.
pub fn decode_c_string(s: &[u8]) -> (r: String)
    ensures
        r@ == c_string(s@),
        !r@.contains('\0'),
{
    let mut i: usize = 0;
    while i < s.len() && s[i] != 0
        invariant
            i <= s.len(),
            forall|j: int| 0 <= j < i ==> s@[j] != 0,
        decreases s.len() - i,
    {
        i = i + 1;
    }
    proof {
        lemma_text_len(s@, i as int);
    }
    let text = slice_subrange(s, 0, i);
    proof {
        assert(text@ =~= s@.take(i as int));
        assert(!text@.contains(0)) by {
            if text@.contains(0) {
                let j = choose|j: int| 0 <= j < text@.len() && text@[j] == 0;
                assert(s@[j] != 0);
            }
        }
    }
    decode_lossy(text)
}

/// Reads the NUL-terminated text that starts at `off` in `b` (to the end of `b` when
/// no NUL byte follows).
pub fn read_cstring(b: &[u8], off: u64) -> (r: String)
    requires
        off <= b@.len(),
    ensures
        r@ == c_string(b@.skip(off as int)),
        !r@.contains('\0'),
{
    let tail = slice_subrange(b, off as usize, b.len());
    proof {
        assert(tail@ =~= b@.skip(off as int));
    }
    decode_c_string(tail)
}

} // verus!
