//! Text helpers: decimal rendering, the RESP reply shapes, and the std
//! string conversions that the parsers and stores rely on.

use vstd::prelude::*;

use vstd::utf8::encode_utf8;

use crate::protocol::views;

verus! {

/// The ASCII digit for `d` (`d < 10`).
pub open spec fn digit_char(d: nat) -> char {
    ((48 + d) as u32) as char
}

/// The decimal rendering of `n`, most significant digit first, no leading zeros.
pub open spec fn decimal(n: nat) -> Seq<char>
    decreases n,
{
    if n < 10 {
        seq![digit_char(n)]
    } else {
        decimal(n / 10).push(digit_char(n % 10))
    }
}

fn digit_str(d: usize) -> (s: &'static str)
    requires
        d < 10,
    ensures
        s@ == seq![digit_char(d as nat)],
{
    if d == 0 {
        proof { reveal_strlit("0"); }
        "0"
    } else if d == 1 {
        proof { reveal_strlit("1"); }
        "1"
    } else if d == 2 {
        proof { reveal_strlit("2"); }
        "2"
    } else if d == 3 {
        proof { reveal_strlit("3"); }
        "3"
    } else if d == 4 {
        proof { reveal_strlit("4"); }
        "4"
    } else if d == 5 {
        proof { reveal_strlit("5"); }
        "5"
    } else if d == 6 {
        proof { reveal_strlit("6"); }
        "6"
    } else if d == 7 {
        proof { reveal_strlit("7"); }
        "7"
    } else if d == 8 {
        proof { reveal_strlit("8"); }
        "8"
    } else {
        proof { reveal_strlit("9"); }
        "9"
    }
}

/// Renders `n` in decimal.
pub fn decimal_string(n: usize) -> (s: String)
    ensures
        s@ == decimal(n as nat),
    decreases n,
{
    if n < 10 {
        digit_str(n).to_owned()
    } else {
        let mut s = decimal_string(n / 10);
        s.append(digit_str(n % 10));
        s
    }
}


/// Whether every character is ASCII.
pub open spec fn is_ascii_chars(s: Seq<char>) -> bool {
    forall|i: int| 0 <= i < s.len() ==> (#[trigger] s[i] as u32) < 128
}

/// The upper-case form of an ASCII character (others are kept).
pub open spec fn ascii_upper_char(c: char) -> char {
    if 97 <= (c as u32) <= 122 {
        ((c as u32) - 32) as char
    } else {
        c
    }
}

/// The upper-case form of an ASCII string.
pub open spec fn ascii_upper(s: Seq<char>) -> Seq<char> {
    s.map_values(|c: char| ascii_upper_char(c))
}

/// What `str::to_uppercase` returns for a string: the Unicode upper-case
/// mapping, character by character.
pub uninterp spec fn uppercase(s: Seq<char>) -> Seq<char>;

/// Calls `str::to_uppercase`. The contract names the result by `uppercase`
/// and states the documented ASCII case: letters `a`..`z` become `A`..`Z`
/// and every other ASCII character is kept. The mapping of non-ASCII
/// characters is left unsaid.
#[verifier::external_body]
pub(crate) fn to_uppercase(s: &str) -> (r: String)
    ensures
        r@ == uppercase(s@),
        is_ascii_chars(s@) ==> r@ == ascii_upper(s@),
{
    s.to_uppercase()
}

/// Whether `c` is an ASCII decimal digit.
pub open spec fn is_digit(c: char) -> bool {
    48 <= (c as u32) <= 57
}

/// The value of a string of decimal digits.
pub open spec fn digits_value(s: Seq<char>) -> nat
    decreases s.len(),
{
    if s.len() == 0 {
        0
    } else {
        digits_value(s.drop_last()) * 10 + ((s.last() as u32) - 48) as nat
    }
}

/// The digits of a number as `usize::from_str` reads them: an optional
/// leading `+` is dropped.
pub open spec fn unsigned_digits(s: Seq<char>) -> Seq<char> {
    if s.len() > 0 && s[0] == '+' {
        s.drop_first()
    } else {
        s
    }
}

/// What `usize::from_str` gives: the value of an optional `+` followed by one
/// or more ASCII digits, when it fits in a `usize`; nothing otherwise.
pub open spec fn parsed_usize(s: Seq<char>) -> Option<usize> {
    let d = unsigned_digits(s);
    if d.len() > 0 && (forall|i: int| 0 <= i < d.len() ==> is_digit(#[trigger] d[i]))
        && digits_value(d) <= usize::MAX {
        Some(digits_value(d) as usize)
    } else {
        None
    }
}

/// Calls `str::parse::<usize>` and keeps whether it succeeded. As the
/// documentation of `usize::from_str_radix` states, it accepts exactly an
/// optional `+` sign followed by one or more digits whose value fits.
#[verifier::external_body]
pub(crate) fn parse_usize(s: &str) -> (r: Option<usize>)
    ensures
        r == parsed_usize(s@),
{
    s.parse::<usize>().ok()
}

/// What `String::from_utf8_lossy` gives for a byte sequence: its UTF-8
/// decoding with each invalid sequence replaced by U+FFFD.
pub uninterp spec fn utf8_lossy(bytes: Seq<u8>) -> Seq<char>;

/// Bytes below 128 read as ASCII characters.
pub open spec fn ascii_chars(bytes: Seq<u8>) -> Seq<char> {
    bytes.map_values(|b: u8| b as char)
}

/// Whether every byte is below 128.
pub open spec fn is_ascii_bytes(bytes: Seq<u8>) -> bool {
    forall|i: int| 0 <= i < bytes.len() ==> #[trigger] bytes[i] < 128
}

/// Calls `String::from_utf8_lossy` and takes the result as an owned string.
/// The result is named by `utf8_lossy`; of it the contract states only the
/// documented case that ASCII bytes, which are valid UTF-8, decode to the
/// same characters. The decoding of other bytes is left unsaid.
#[verifier::external_body]
fn from_utf8_lossy(bytes: &[u8]) -> (r: String)
    ensures
        r@ == utf8_lossy(bytes@),
        is_ascii_bytes(bytes@) ==> r@ == ascii_chars(bytes@),
{
    String::from_utf8_lossy(bytes).to_string()
}

/// What `String::from_utf8_lossy` gives, as far as it is stated: ASCII bytes
/// read as the same characters, other bytes as `utf8_lossy` names them.
pub open spec fn decoded(bytes: Seq<u8>) -> Seq<char> {
    if is_ascii_bytes(bytes) {
        ascii_chars(bytes)
    } else {
        utf8_lossy(bytes)
    }
}

/// Decodes bytes as UTF-8, replacing invalid sequences.
pub(crate) fn decode_bytes(bytes: &[u8]) -> (r: String)
    ensures
        r@ == decoded(bytes@),
{
    from_utf8_lossy(bytes)
}

/// Whether `a` holds exactly the characters of `b`.
pub fn same_text(a: &String, b: &str) -> (r: bool)
    ensures
        r == (a@ == b@),
{
    *a == b.to_owned()
}

/// A copy of the strings of `v` from position `from` on.
pub fn copy_from(v: &Vec<String>, from: usize) -> (r: Vec<String>)
    requires
        from <= v.len(),
    ensures
        views(r@) == views(v@).subrange(from as int, v@.len() as int),
{
    let mut r: Vec<String> = Vec::new();
    let mut i = from;
    while i < v.len()
        invariant
            from <= i <= v.len(),
            r@.len() == i - from,
            views(r@) == views(v@).subrange(from as int, i as int),
        decreases v.len() - i,
    {
        let s = v[i].clone();
        let ghost before = r@;
        r.push(s);
        proof {
            assert(s@ == v@[i as int]@);
            assert(r@ == before.push(s));
            assert forall|k: int| 0 <= k < r@.len() implies #[trigger] views(r@)[k] == views(v@).subrange(from as int, i + 1)[k] by {
                assert(views(r@)[k] == r@[k]@);
                assert(views(v@)[from + k] == v@[from + k]@);
                if k < before.len() {
                    assert(views(before)[k] == views(v@).subrange(from as int, i as int)[k]);
                    assert(views(before)[k] == before[k]@);
                }
            }
            assert(views(before).len() == before.len());
            assert(views(r@).len() == r@.len());
            assert(views(r@) =~= views(v@).subrange(from as int, i + 1));
        }
        i = i + 1;
    }
    r
}


/// The simple-string reply `+OK`.
pub open spec fn ok_reply() -> Seq<char> {
    "+OK\r\n"@
}

/// The null bulk-string reply, for a missing value.
pub open spec fn nil_reply() -> Seq<char> {
    "$-1\r\n"@
}

/// The integer reply for `n`.
pub open spec fn int_reply(n: nat) -> Seq<char> {
    ":"@ + decimal(n) + "\r\n"@
}

/// The length of `v` in UTF-8 bytes, as `str::len` reports it.
pub open spec fn byte_len(v: Seq<char>) -> nat {
    (encode_utf8(v).len() as usize) as nat
}

/// The bulk-string reply carrying `v`: its length in UTF-8 bytes, then `v`.
pub open spec fn bulk_reply(v: Seq<char>) -> Seq<char> {
    "$"@ + decimal(byte_len(v)) + "\r\n"@ + v + "\r\n"@
}

/// Builds the integer reply for `n`.
pub fn int_reply_string(n: usize) -> (r: String)
    ensures
        r@ == int_reply(n as nat),
{
    let mut r = ":".to_owned();
    let d = decimal_string(n);
    r.append(d.as_str());
    r.append("\r\n");
    r
}

/// Builds the bulk-string reply carrying `v`.
pub fn bulk_reply_string(v: &String) -> (r: String)
    ensures
        r@ == bulk_reply(v@),
{
    let mut r = "$".to_owned();
    let n = v.as_str().len();
    let d = decimal_string(n);
    r.append(d.as_str());
    r.append("\r\n");
    r.append(v.as_str());
    r.append("\r\n");
    r
}

/// The decimal rendering is digits whose value is the number.
pub proof fn lemma_decimal_digits(n: nat)
    ensures
        decimal(n).len() > 0,
        forall|i: int| 0 <= i < decimal(n).len() ==> is_digit(#[trigger] decimal(n)[i]),
        digits_value(decimal(n)) == n,
    decreases n,
{
    if n < 10 {
        let d = decimal(n);
        assert(d.drop_last() =~= Seq::<char>::empty());
        assert((digit_char(n) as u32) == 48 + n);
        assert(d.last() == digit_char(n));
        assert(digits_value(d.drop_last()) == 0);
        assert(digits_value(d) == n);
    } else {
        lemma_decimal_digits(n / 10);
        let d = decimal(n);
        assert(d.drop_last() =~= decimal(n / 10));
        assert((digit_char(n % 10) as u32) == 48 + n % 10);
        vstd::arithmetic::div_mod::lemma_fundamental_div_mod(n as int, 10);
        assert(d.last() == digit_char(n % 10));
        assert(digits_value(d) == digits_value(decimal(n / 10)) * 10 + (n % 10));
        assert forall|i: int| 0 <= i < d.len() implies is_digit(#[trigger] d[i]) by {
            if i < d.len() - 1 {
                assert(d[i] == decimal(n / 10)[i]);
            }
        }
    }
}

/// `usize::from_str` reads the decimal rendering of a number back.
pub proof fn lemma_decimal_parses(n: nat)
    requires
        n <= usize::MAX,
    ensures
        parsed_usize(decimal(n)) == Some(n as usize),
{
    lemma_decimal_digits(n);
    assert(is_digit(decimal(n)[0]));
    assert(decimal(n)[0] != '+');
    assert(unsigned_digits(decimal(n)) == decimal(n));
}

} // verus!
