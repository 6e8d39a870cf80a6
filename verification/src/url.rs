//! Percent-decoding of file URLs.

use vstd::prelude::*;
use vstd::utf8::{decode_utf8, encode_utf8, valid_utf8};

verus! {

/// What `String::from_utf8_lossy` makes of bytes: replacement characters stand for what is no
/// UTF-8.
pub uninterp spec fn lossy_utf8(bytes: Seq<u8>) -> Seq<char>;

/// `String::from_utf8_lossy`: the text of the bytes, malformed sequences replaced. Bytes that are
/// valid UTF-8 give exactly the text that they encode; an ASCII byte at the beginning is valid by
/// itself, so it stays.
#[verifier::external_body]
pub(crate) fn lossy_text(bytes: &Vec<u8>) -> (s: String)
    ensures
        s@ == lossy_utf8(bytes@),
        valid_utf8(bytes@) ==> s@ == decode_utf8(bytes@),
        bytes@.len() > 0 && bytes@[0] < 0x80 ==> s@.len() > 0 && s@[0] == bytes@[0] as char,
{
    String::from_utf8_lossy(bytes).into_owned()
}

/// `String::from_utf8`: the text that the bytes encode, if and only if they are valid UTF-8.
#[verifier::external_body]
pub(crate) fn utf8_text(bytes: Vec<u8>) -> (r: Option<String>)
    ensures
        match r {
            Some(s) => valid_utf8(bytes@) && s@ == decode_utf8(bytes@),
            None => !valid_utf8(bytes@),
        },
{
    String::from_utf8(bytes).ok()
}

/// The value of a hexadecimal digit.
pub open spec fn hex_of(b: u8) -> Option<int> {
    if 48 <= b <= 57 {
        Some(b - 48)
    } else if 65 <= b <= 70 {
        Some(b - 55)
    } else if 97 <= b <= 102 {
        Some(b - 87)
    } else {
        None
    }
}

/// The byte that two characters behind a percent sign stand for, where they are hexadecimal digits.
pub open spec fn escape(a: u8, b: u8) -> Option<u8> {
    match (hex_of(a), hex_of(b)) {
        (Some(x), Some(y)) => Some((16 * x + y) as u8),
        _ => None,
    }
}

/// `b` starts with an escape.
pub open spec fn starts_escape(b: Seq<u8>) -> bool {
    b.len() > 2 && b[0] == 37 && escape(b[1], b[2]) is Some
}

/// The bytes with every escape replaced by the byte it stands for; anything else stays.
pub open spec fn unescaped(b: Seq<u8>) -> Seq<u8>
    decreases b.len(),
{
    if b.len() == 0 {
        Seq::empty()
    } else if starts_escape(b) {
        seq![escape(b[1], b[2])->0] + unescaped(b.skip(3))
    } else {
        seq![b[0]] + unescaped(b.skip(1))
    }
}

/// Bytes without a percent sign are left as they are.
pub proof fn lemma_unescaped_plain(b: Seq<u8>)
    requires
        !b.contains(37),
    ensures
        unescaped(b) == b,
    decreases b.len(),
{
    if b.len() > 0 {
        assert(b[0] != 37);
        assert forall|i: int| 0 <= i < b.skip(1).len() implies b.skip(1)[i] != 37 by {
            assert(b.skip(1)[i] == b[i + 1]);
        }
        lemma_unescaped_plain(b.skip(1));
        assert(seq![b[0]] + b.skip(1) =~= b);
    } else {
        assert(b =~= Seq::<u8>::empty());
    }
}

/// A percent sign with two hexadecimal digits behind it, of either case, stands for the byte of that
/// number; decoding goes on behind them. `hi` and `lo` are the digits, `high` and `low` their values.
pub proof fn lemma_escape_is_replaced(
    before: Seq<u8>,
    hi: u8,
    lo: u8,
    high: int,
    low: int,
    rest: Seq<u8>,
)
    requires
        !before.contains(37),
        0 <= high < 16 && 0 <= low < 16,
        hi == high + 48 && high < 10 || hi == high - 10 + 65 && high >= 10 || hi == high - 10 + 97 && high
            >= 10,
        lo == low + 48 && low < 10 || lo == low - 10 + 65 && low >= 10 || lo == low - 10 + 97 && low
            >= 10,
    ensures
        unescaped(before + seq![37, hi, lo] + rest) == before + seq![(high * 16 + low) as u8]
            + unescaped(rest),
{
    let b = seq![37u8, hi, lo] + rest;
    assert(b.skip(3) =~= rest);
    assert(before + seq![37u8, hi, lo] + rest =~= before + b);
    lemma_unescaped_behind(before, b);
    assert(before + seq![(high * 16 + low) as u8] + unescaped(rest) =~= before + unescaped(b));
}

/// A percent sign without two hexadecimal digits behind it stays; decoding goes on right behind it.
pub proof fn lemma_other_percent_stays(before: Seq<u8>, rest: Seq<u8>)
    requires
        !before.contains(37),
        rest.len() < 2 || exists|i: int|
            0 <= i < 2 && !(48 <= #[trigger] rest[i] <= 57 || 65 <= rest[i] <= 70 || 97 <= rest[i]
                <= 102),
    ensures
        unescaped(before + seq![37] + rest) == before + seq![37] + unescaped(rest),
{
    let b = seq![37u8] + rest;
    assert(b.skip(1) =~= rest);
    if rest.len() >= 2 {
        assert(b[1] == rest[0] && b[2] == rest[1]);
    }
    assert(before + seq![37u8] + rest =~= before + b);
    lemma_unescaped_behind(before, b);
    assert(before + seq![37u8] + unescaped(rest) =~= before + unescaped(b));
}

proof fn lemma_unescaped_behind(before: Seq<u8>, b: Seq<u8>)
    requires
        !before.contains(37),
    ensures
        unescaped(before + b) == before + unescaped(b),
    decreases before.len(),
{
    if before.len() > 0 {
        let rest = before.skip(1);
        assert(before[0] != 37);
        assert forall|i: int| 0 <= i < rest.len() implies rest[i] != 37 by {
            assert(rest[i] == before[i + 1]);
        }
        lemma_unescaped_behind(rest, b);
        assert((before + b).skip(1) =~= rest + b);
        assert(before + unescaped(b) =~= seq![before[0]] + (rest + unescaped(b)));
    } else {
        assert(before + b =~= b);
        assert(before + unescaped(b) =~= unescaped(b));
    }
}

/// Text without a percent sign is read as it stands.
pub proof fn lemma_plain_text(s: Seq<char>)
    requires
        !s.contains('%'),
    ensures
        strict_text(s) == Some(s),
{
    lemma_no_percent(s);
    lemma_unescaped_plain(encode_utf8(s));
    vstd::utf8::encode_utf8_valid_utf8(s);
    vstd::utf8::encode_utf8_decode_utf8(s);
}

/// Text without a percent sign has none among its bytes either.
pub proof fn lemma_no_percent(s: Seq<char>)
    requires
        !s.contains('%'),
    ensures
        !encode_utf8(s).contains(37),
    decreases s.len(),
{
    if s.len() > 0 {
        let rest = s.drop_first();
        assert forall|i: int| 0 <= i < rest.len() implies rest[i] != '%' by {
            assert(rest[i] == s[i + 1]);
        }
        lemma_no_percent(rest);
        assert(s[0] != '%');
        lemma_scalar_no_percent(s[0]);
        let head = vstd::utf8::encode_scalar(s[0] as u32);
        assert(encode_utf8(s) == head + encode_utf8(rest));
        assert forall|i: int| 0 <= i < encode_utf8(s).len() implies encode_utf8(s)[i] != 37 by {
            if i < head.len() {
                assert(head.contains(head[i]));
            } else {
                assert(encode_utf8(rest).contains(encode_utf8(rest)[i - head.len()]));
            }
        }
    }
}

proof fn lemma_scalar_no_percent(c: char)
    requires
        c != '%',
    ensures
        !vstd::utf8::encode_scalar(c as u32).contains(37),
{
    let u = c as u32;
    assert((u <= 0x7f ==> (u & 0x7f) as u8 == u) && (0xc0 | ((u >> 6) & 0x1f) as u8) >= 0x80 && (0xe0
        | ((u >> 12) & 0x0f) as u8) >= 0x80 && (0xf0 | ((u >> 18) & 0x7) as u8) >= 0x80 && (0x80
        | (u & 0x3f) as u8) >= 0x80 && (0x80 | ((u >> 6) & 0x3f) as u8) >= 0x80 && (0x80 | ((u
        >> 12) & 0x3f) as u8) >= 0x80) by (bit_vector);
}

fn hex_digit_value(b: u8) -> (r: Option<u8>)
    ensures
        match r {
            Some(d) => hex_of(b) == Some(d as int) && d < 16,
            None => hex_of(b) is None,
        },
{
    if 48 <= b && b <= 57 {
        Some(b - 48)
    } else if 65 <= b && b <= 70 {
        Some(b - 55)
    } else if 97 <= b && b <= 102 {
        Some(b - 87)
    } else {
        None
    }
}

fn escaped_byte(a: u8, b: u8) -> (r: Option<u8>)
    ensures
        r == escape(a, b),
{
    match (hex_digit_value(a), hex_digit_value(b)) {
        (Some(x), Some(y)) => Some(16 * x + y),
        _ => None,
    }
}

/// The bytes of `s` with its escapes replaced; malformed escapes stay.
fn unescaped_bytes(s: &str) -> (out: Vec<u8>)
    ensures
        out@ == unescaped(encode_utf8(s@)),
{
    let b: &[u8] = s.as_bytes();
    let n: usize = b.len();
    let mut out: Vec<u8> = Vec::new();
    let mut i: usize = 0;
    assert(b@.skip(0) =~= b@);
    assert(out@ + unescaped(b@) =~= unescaped(b@));
    while i < n
        invariant
            i <= n == b@.len(),
            out@ + unescaped(b@.skip(i as int)) == unescaped(b@),
        decreases n - i,
    {
        let ghost rest = b@.skip(i as int);
        let ghost before = out@;
        if b[i] == 37 && n - i > 2 {
            if let Some(v) = escaped_byte(b[i + 1], b[i + 2]) {
                out.push(v);
                i += 3;
                assert(rest.skip(3) =~= b@.skip(i as int));
                assert(out@ + unescaped(b@.skip(i as int)) =~= before + unescaped(rest));
                continue;
            }
        }
        out.push(b[i]);
        i += 1;
        assert(rest.skip(1) =~= b@.skip(i as int));
        assert(out@ + unescaped(b@.skip(i as int)) =~= before + unescaped(rest));
    }
    assert(b@.skip(n as int) =~= Seq::<u8>::empty());
    assert(out@ =~= unescaped(b@));
    out
}

/// `s` with its escapes replaced; malformed escapes stay, and bytes that are no UTF-8 become
/// replacement characters. What begins with an ASCII character other than a percent sign still
/// does.
pub fn percent_decode(s: &str) -> (out: String)
    ensures
        out@ == lossy_utf8(unescaped(encode_utf8(s@))),
        strict_text(s@) matches Some(t) ==> out@ == t,
        s@.len() > 0 && (s@[0] as u32) < 0x80 && s@[0] != '%' ==> out@.len() > 0 && out@[0] == s@[0],
{
    let out: Vec<u8> = unescaped_bytes(s);
    proof {
        if s@.len() > 0 && (s@[0] as u32) < 0x80 && s@[0] != '%' {
            lemma_first_byte(s@);
        }
    }
    lossy_text(&out)
}

/// The text of `s` with its escapes replaced, if that is text.
pub open spec fn strict_text(s: Seq<char>) -> Option<Seq<char>> {
    let b = unescaped(encode_utf8(s));
    if valid_utf8(b) {
        Some(decode_utf8(b))
    } else {
        None
    }
}

/// `s` with its escapes replaced, or `None` where that is no text. Malformed escapes stay.
pub fn percent_decode_strict(s: &str) -> (out: Option<String>)
    ensures
        match out {
            Some(t) => strict_text(s@) == Some(t@),
            None => strict_text(s@) is None,
        },
{
    utf8_text(unescaped_bytes(s))
}

proof fn lemma_ascii(c: char)
    requires
        (c as u32) < 0x80,
        c != '%',
    ensures
        c as u32 != 37,
        c as u32 as u8 as char == c,
        vstd::utf8::encode_scalar(c as u32) == seq![c as u32 as u8],
{
    let u = c as u32;
    assert(u <= 0x7f ==> (u & 0x7f) as u8 == u) by (bit_vector);
    assert(vstd::utf8::encode_scalar(u) =~= seq![u as u8]);
}

/// An ASCII character at the beginning is the first byte, and stays it.
proof fn lemma_first_byte(s: Seq<char>)
    requires
        s.len() > 0,
        (s[0] as u32) < 0x80,
        s[0] != '%',
    ensures
        unescaped(encode_utf8(s)).len() > 0,
        unescaped(encode_utf8(s))[0] < 0x80,
        unescaped(encode_utf8(s))[0] as char == s[0],
{
    lemma_ascii(s[0]);
    let b = encode_utf8(s);
    assert(b == vstd::utf8::encode_scalar(s[0] as u32) + encode_utf8(s.drop_first()));
    assert(b[0] == s[0] as u32 as u8);
    assert(unescaped(b) == seq![b[0]] + unescaped(b.skip(1)));
}

} // verus!
