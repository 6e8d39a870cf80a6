//! Strings as sequences of characters: the few text operations that the rest of the crate is
//! written with, each stated over the `Seq<char>` that a string views as.

use vstd::prelude::*;

verus! {

/// `String::push` adds the character at the end of the string and leaves the rest as it was.
pub assume_specification[ String::push ](s: &mut String, c: char)
    ensures
        final(s)@ == old(s)@.push(c),
;

/// The Unicode `White_Space` characters.
pub open spec fn is_white(c: char) -> bool {
    let u = c as u32;
    ||| 0x9 <= u <= 0xd
    ||| u == 0x20 || u == 0x85 || u == 0xa0 || u == 0x1680
    ||| 0x2000 <= u <= 0x200a
    ||| u == 0x2028 || u == 0x2029 || u == 0x202f || u == 0x205f || u == 0x3000
}

/// `s` without the white space at its start.
pub open spec fn trim_start(s: Seq<char>) -> Seq<char>
    decreases s.len(),
{
    if s.len() > 0 && is_white(s[0]) {
        trim_start(s.drop_first())
    } else {
        s
    }
}

/// `s` without the white space at its end.
pub open spec fn trim_end(s: Seq<char>) -> Seq<char>
    decreases s.len(),
{
    if s.len() > 0 && is_white(s.last()) {
        trim_end(s.drop_last())
    } else {
        s
    }
}

/// `s` without the white space at either end.
pub open spec fn trim(s: Seq<char>) -> Seq<char> {
    trim_end(trim_start(s))
}

/// `pat` stands in `s` at position `i`.
pub open spec fn occurs_at(s: Seq<char>, pat: Seq<char>, i: int) -> bool {
    0 <= i && i + pat.len() <= s.len() && s.subrange(i, i + pat.len()) == pat
}

/// The first position, from `from` on, at which `pat` stands in `s`.
pub open spec fn find_from(s: Seq<char>, pat: Seq<char>, from: int) -> Option<int>
    decreases s.len() - from + 1,
{
    if from < 0 || from + pat.len() > s.len() {
        None
    } else if occurs_at(s, pat, from) {
        Some(from)
    } else {
        find_from(s, pat, from + 1)
    }
}

/// The first position of `pat` in `s`.
pub open spec fn find(s: Seq<char>, pat: Seq<char>) -> Option<int> {
    find_from(s, pat, 0)
}

/// `s` holds `pat`.
pub open spec fn holds(s: Seq<char>, pat: Seq<char>) -> bool {
    find(s, pat) is Some
}

/// The last position of `c` in `s`.
pub open spec fn rfind_char(s: Seq<char>, c: char) -> Option<int>
    decreases s.len(),
{
    if s.len() == 0 {
        None
    } else if s.last() == c {
        Some(s.len() - 1)
    } else {
        rfind_char(s.drop_last(), c)
    }
}

/// `s` begins with `p`.
pub open spec fn begins(s: Seq<char>, p: Seq<char>) -> bool {
    p.len() <= s.len() && s.take(p.len() as int) == p
}

/// `s` ends with `p`.
pub open spec fn ends(s: Seq<char>, p: Seq<char>) -> bool {
    p.len() <= s.len() && s.skip(s.len() - p.len()) == p
}

/// The digit `d`, for `d` below ten.
pub open spec fn digit(d: nat) -> char {
    (48 + d) as char
}

/// `n` in decimal.
pub open spec fn decimal(n: nat) -> Seq<char>
    decreases n,
{
    if n < 10 {
        seq![digit(n)]
    } else {
        decimal(n / 10).push(digit(n % 10))
    }
}

/// `n` in decimal, with a sign where it is negative.
pub open spec fn integer(n: int) -> Seq<char> {
    if n < 0 {
        "-"@ + decimal((0 - n) as nat)
    } else {
        decimal(n as nat)
    }
}

/// The lower-case hexadecimal digit `d`, for `d` below sixteen.
pub open spec fn hex_digit(d: nat) -> char {
    if d < 10 {
        (48 + d) as char
    } else {
        (87 + d) as char
    }
}

/// A byte as two hexadecimal digits.
pub open spec fn hex_byte(b: u8) -> Seq<char> {
    seq![hex_digit((b / 16) as nat), hex_digit((b % 16) as nat)]
}

/// A colour as `#rrggbb`.
pub open spec fn hex_color(c: (u8, u8, u8)) -> Seq<char> {
    seq!['#'] + hex_byte(c.0) + hex_byte(c.1) + hex_byte(c.2)
}

/// The value of a hexadecimal digit of either case.
pub open spec fn hex_value(c: char) -> Option<nat> {
    let u = c as u32;
    if 48 <= u <= 57 {
        Some((u - 48) as nat)
    } else if 65 <= u <= 70 {
        Some((u - 55) as nat)
    } else if 97 <= u <= 102 {
        Some((u - 87) as nat)
    } else {
        None
    }
}

/// ASCII letters and digits.
pub open spec fn is_ascii_alnum(c: char) -> bool {
    let u = c as u32;
    48 <= u <= 57 || 65 <= u <= 90 || 97 <= u <= 122
}

/// ASCII digits.
pub open spec fn is_ascii_digit(c: char) -> bool {
    48 <= c as u32 <= 57
}

/// A string's text, where there is one.
pub open spec fn opt_text(s: Option<&str>) -> Option<Seq<char>> {
    match s {
        Some(t) => Some(t@),
        None => None,
    }
}

/// A string's text, where there is one.
pub open spec fn opt_string(s: Option<String>) -> Option<Seq<char>> {
    match s {
        Some(t) => Some(t@),
        None => None,
    }
}

/// The texts of pairs of strings.
pub open spec fn pair_texts(v: Seq<(String, String)>) -> Seq<(Seq<char>, Seq<char>)> {
    v.map_values(|p: (String, String)| (p.0@, p.1@))
}

/// The texts of a sequence of strings.
pub open spec fn texts(v: Seq<String>) -> Seq<Seq<char>> {
    v.map_values(|s: String| s@)
}

/// Trimming leaves no white space at either end.
pub proof fn lemma_trim_ends(s: Seq<char>)
    ensures
        trim(s).len() > 0 ==> !is_white(trim(s)[0]) && !is_white(trim(s).last()),
        trim(s).len() <= s.len(),
{
    lemma_trim_start_head(s);
    lemma_trim_end_tail(trim_start(s));
}

/// Trimming twice is trimming once.
pub proof fn lemma_trim_idempotent(s: Seq<char>)
    ensures
        trim(trim(s)) == trim(s),
{
    lemma_trim_ends(s);
}

proof fn lemma_trim_start_head(s: Seq<char>)
    ensures
        trim_start(s).len() > 0 ==> !is_white(trim_start(s)[0]),
        trim_start(s).len() <= s.len(),
    decreases s.len(),
{
    if s.len() > 0 && is_white(s[0]) {
        lemma_trim_start_head(s.drop_first());
    }
}

proof fn lemma_trim_end_tail(s: Seq<char>)
    ensures
        trim_end(s).len() > 0 ==> !is_white(trim_end(s).last()),
        trim_end(s).len() > 0 ==> trim_end(s)[0] == s[0],
        trim_end(s).len() <= s.len(),
    decreases s.len(),
{
    if s.len() > 0 && is_white(s.last()) {
        lemma_trim_end_tail(s.drop_last());
    }
}

/// A position found is the first one at which the pattern stands; none found means that it
/// stands nowhere.
pub proof fn lemma_find_from(s: Seq<char>, pat: Seq<char>, from: int)
    requires
        0 <= from,
    ensures
        match find_from(s, pat, from) {
            Some(i) => from <= i && occurs_at(s, pat, i) && forall|j: int|
                from <= j < i ==> !#[trigger] occurs_at(s, pat, j),
            None => forall|j: int| from <= j ==> !#[trigger] occurs_at(s, pat, j),
        },
    decreases s.len() - from + 1,
{
    if from + pat.len() <= s.len() && !occurs_at(s, pat, from) {
        lemma_find_from(s, pat, from + 1);
    }
}

/// The last position of a character: it stands there and nowhere behind.
pub proof fn lemma_rfind_char(s: Seq<char>, c: char)
    ensures
        match rfind_char(s, c) {
            Some(i) => 0 <= i < s.len() && s[i] == c && forall|j: int|
                i < j < s.len() ==> #[trigger] s[j] != c,
            None => !s.contains(c),
        },
    decreases s.len(),
{
    if s.len() > 0 && s.last() != c {
        lemma_rfind_char(s.drop_last(), c);
        assert forall|j: int| 0 <= j < s.len() - 1 implies s[j] == s.drop_last()[j] by {}
        if rfind_char(s.drop_last(), c) is None {
            assert forall|j: int| 0 <= j < s.len() implies s[j] != c by {
                if j < s.len() - 1 {
                    assert(s.drop_last()[j] == s[j]);
                    assert(s.drop_last().contains(s.drop_last()[j]));
                }
            }
        }
    }
}

/// The characters of `s`, in order.
pub fn chars_of(s: &str) -> (out: Vec<char>)
    ensures
        out@ == s@,
{
    let mut out: Vec<char> = Vec::new();
    for c in it: s.chars()
        invariant
            out@ == it.seq().take(it.index() as int),
            it.seq() == s@,
    {
        out.push(c);
    }
    out
}

/// The string of the characters of `v` from `lo` up to `hi`.
pub fn string_of(v: &Vec<char>, lo: usize, hi: usize) -> (out: String)
    requires
        lo <= hi <= v@.len(),
    ensures
        out@ == v@.subrange(lo as int, hi as int),
{
    let mut out: String = String::new();
    let mut i: usize = lo;
    while i < hi
        invariant
            lo <= i <= hi <= v@.len(),
            out@ == v@.subrange(lo as int, i as int),
        decreases hi - i,
    {
        out.push(v[i]);
        i += 1;
        assert(v@.subrange(lo as int, i as int) =~= v@.subrange(lo as int, i - 1).push(v@[i - 1]));
    }
    out
}

/// Whether two strings hold the same characters.
pub fn same_text(a: &str, b: &str) -> (r: bool)
    ensures
        r == (a@ == b@),
{
    a.to_owned() == b.to_owned()
}

/// Whether `c` is white space.
pub fn white(c: char) -> (r: bool)
    ensures
        r == is_white(c),
{
    let u: u32 = c as u32;
    (0x9 <= u && u <= 0xd) || u == 0x20 || u == 0x85 || u == 0xa0 || u == 0x1680 || (0x2000 <= u
        && u <= 0x200a) || u == 0x2028 || u == 0x2029 || u == 0x202f || u == 0x205f || u == 0x3000
}

/// The bounds of `v` between the white space at its two ends.
pub fn trim_bounds(v: &Vec<char>) -> (b: (usize, usize))
    ensures
        b.0 <= b.1 <= v@.len(),
        v@.subrange(b.0 as int, b.1 as int) == trim(v@),
{
    let n: usize = v.len();
    let mut lo: usize = 0;
    assert(v@.subrange(0, n as int) =~= v@);
    while lo < n && white(v[lo])
        invariant
            lo <= n == v@.len(),
            trim_start(v@) == trim_start(v@.subrange(lo as int, n as int)),
        decreases n - lo,
    {
        assert(v@.subrange(lo as int, n as int).drop_first() =~= v@.subrange(lo + 1, n as int));
        lo += 1;
    }
    let mut hi: usize = n;
    while hi > lo && white(v[hi - 1])
        invariant
            lo <= hi <= n == v@.len(),
            trim_end(v@.subrange(lo as int, n as int)) == trim_end(
                v@.subrange(lo as int, hi as int),
            ),
        decreases hi,
    {
        assert(v@.subrange(lo as int, hi as int).drop_last() =~= v@.subrange(lo as int, hi - 1));
        hi -= 1;
    }
    (lo, hi)
}

/// `s` without the white space at either end.
pub fn trimmed(s: &str) -> (out: String)
    ensures
        out@ == trim(s@),
{
    let v: Vec<char> = chars_of(s);
    let b: (usize, usize) = trim_bounds(&v);
    string_of(&v, b.0, b.1)
}

/// Whether `pat` stands in `s` at position `i`.
pub fn stands_at(s: &Vec<char>, pat: &Vec<char>, i: usize) -> (r: bool)
    ensures
        r == occurs_at(s@, pat@, i as int),
{
    let n: usize = s.len();
    if i > n || pat.len() > n - i {
        return false;
    }
    let mut k: usize = 0;
    while k < pat.len()
        invariant
            i + pat@.len() <= n == s@.len(),
            k <= pat@.len(),
            forall|j: int| 0 <= j < k ==> s@[i + j] == pat@[j],
        decreases pat@.len() - k,
    {
        if s[i + k] != pat[k] {
            assert(s@.subrange(i as int, i + pat@.len())[k as int] != pat@[k as int]);
            return false;
        }
        k += 1;
    }
    assert(s@.subrange(i as int, i + pat@.len()) =~= pat@);
    true
}

/// The first position of `pat` in `s`.
pub fn position(s: &Vec<char>, pat: &Vec<char>) -> (r: Option<usize>)
    ensures
        match r {
            Some(i) => find(s@, pat@) == Some(i as int),
            None => find(s@, pat@) is None,
        },
{
    if pat.len() > s.len() {
        return None;
    }
    let last: usize = s.len() - pat.len();
    let mut i: usize = 0;
    while i <= last
        invariant_except_break
            i <= last + 1,
            find(s@, pat@) == find_from(s@, pat@, i as int),
        invariant
            last == s@.len() - pat@.len(),
        ensures
            find(s@, pat@) is None,
        decreases last + 1 - i,
    {
        if stands_at(s, pat, i) {
            return Some(i);
        }
        if i == last {
            assert(find_from(s@, pat@, i + 1) is None);
            break;
        }
        i += 1;
    }
    None
}

/// The last position of `c` in `s`.
pub fn last_position(s: &Vec<char>, c: char) -> (r: Option<usize>)
    ensures
        match r {
            Some(i) => rfind_char(s@, c) == Some(i as int),
            None => rfind_char(s@, c) is None,
        },
{
    let mut i: usize = s.len();
    assert(s@.take(i as int) =~= s@);
    while i > 0
        invariant
            i <= s@.len(),
            rfind_char(s@, c) == rfind_char(s@.take(i as int), c),
        decreases i,
    {
        assert(s@.take(i as int).drop_last() =~= s@.take(i - 1));
        if s[i - 1] == c {
            return Some(i - 1);
        }
        i -= 1;
    }
    None
}

/// Whether `s` begins with `p`.
pub fn starts(s: &Vec<char>, p: &Vec<char>) -> (r: bool)
    ensures
        r == begins(s@, p@),
{
    let r: bool = stands_at(s, p, 0);
    proof {
        if p@.len() <= s@.len() {
            assert(s@.subrange(0, p@.len() as int) =~= s@.take(p@.len() as int));
        }
    }
    r
}

/// Whether the string `s` begins with `p`.
pub fn has_prefix(s: &str, p: &str) -> (r: bool)
    ensures
        r == begins(s@, p@),
{
    starts(&chars_of(s), &chars_of(p))
}

/// Whether `p` stands somewhere in the string `s`.
pub fn contains_text(s: &str, p: &str) -> (r: bool)
    ensures
        r == holds(s@, p@),
{
    position(&chars_of(s), &chars_of(p)).is_some()
}

/// `s` without the white space at its end.
pub fn trimmed_end(s: &str) -> (out: String)
    ensures
        out@ == trim_end(s@),
{
    let v: Vec<char> = chars_of(s);
    let mut hi: usize = v.len();
    assert(v@.take(hi as int) =~= v@);
    while hi > 0 && white(v[hi - 1])
        invariant
            hi <= v@.len(),
            trim_end(v@) == trim_end(v@.take(hi as int)),
        decreases hi,
    {
        assert(v@.take(hi as int).drop_last() =~= v@.take(hi - 1));
        hi -= 1;
    }
    let out: String = string_of(&v, 0, hi);
    assert(out@ =~= v@.take(hi as int));
    out
}

/// The texts one behind the other, with `sep` between them.
pub open spec fn joined(parts: Seq<Seq<char>>, sep: Seq<char>) -> Seq<char>
    decreases parts.len(),
{
    if parts.len() == 0 {
        Seq::empty()
    } else if parts.len() == 1 {
        parts[0]
    } else {
        joined(parts.drop_last(), sep) + sep + parts.last()
    }
}

/// The strings one behind the other, with `sep` between them.
pub fn join(parts: &Vec<String>, sep: &str) -> (out: String)
    ensures
        out@ == joined(texts(parts@), sep@),
{
    let ghost all = texts(parts@);
    let mut out: String = String::new();
    let mut i: usize = 0;
    assert(all.take(0) =~= Seq::<Seq<char>>::empty());
    while i < parts.len()
        invariant
            i <= parts@.len(),
            all == texts(parts@),
            out@ == joined(all.take(i as int), sep@),
        decreases parts@.len() - i,
    {
        assert(all.take(i + 1).drop_last() =~= all.take(i as int));
        assert(all.take(i + 1).last() == parts@[i as int]@);
        if i > 0 {
            out = out.concat(sep);
        }
        out = out.concat(parts[i].as_str());
        assert(out@ =~= joined(all.take(i + 1), sep@));
        i += 1;
    }
    assert(all.take(i as int) =~= all);
    out
}

/// Whether `s` holds the character `c`.
pub fn has_char(s: &Vec<char>, c: char) -> (r: bool)
    ensures
        r == s@.contains(c),
{
    let mut i: usize = 0;
    while i < s.len()
        invariant
            i <= s@.len(),
            forall|j: int| 0 <= j < i ==> s@[j] != c,
        decreases s@.len() - i,
    {
        if s[i] == c {
            return true;
        }
        i += 1;
    }
    false
}

/// The digit `d`.
pub fn digit_char(d: u8) -> (c: char)
    requires
        d < 10,
    ensures
        c == digit(d as nat),
{
    (48 + d) as char
}

/// `n` in decimal.
pub fn decimal_of(n: u64) -> (out: String)
    ensures
        out@ == decimal(n as nat),
    decreases n,
{
    if n < 10 {
        let mut out: String = String::new();
        out.push(digit_char(n as u8));
        assert(out@ =~= seq![digit(n as nat)]);
        out
    } else {
        let mut out: String = decimal_of(n / 10);
        out.push(digit_char((n % 10) as u8));
        out
    }
}

/// `n` in decimal, with a sign where it is negative.
pub fn integer_of(n: i32) -> (out: String)
    ensures
        out@ == integer(n as int),
{
    if n < 0 {
        "-".to_owned().concat(decimal_of((0 - n as i64) as u64).as_str())
    } else {
        decimal_of(n as u64)
    }
}

/// The lower-case hexadecimal digit `d`.
pub fn hex_char(d: u8) -> (c: char)
    requires
        d < 16,
    ensures
        c == hex_digit(d as nat),
{
    if d < 10 {
        (48 + d) as char
    } else {
        (87 + d) as char
    }
}

/// Adds a byte to `out` as two hexadecimal digits.
pub fn push_hex_byte(out: &mut String, b: u8)
    ensures
        final(out)@ == old(out)@ + hex_byte(b),
{
    out.push(hex_char(b / 16));
    out.push(hex_char(b % 16));
    assert(out@ =~= old(out)@ + hex_byte(b));
}

/// A colour as `#rrggbb`.
pub fn hex(c: (u8, u8, u8)) -> (out: String)
    ensures
        out@ == hex_color(c),
{
    let mut out: String = String::new();
    out.push('#');
    push_hex_byte(&mut out, c.0);
    push_hex_byte(&mut out, c.1);
    push_hex_byte(&mut out, c.2);
    assert(out@ =~= hex_color(c));
    out
}

/// The value of a hexadecimal digit of either case.
pub fn hex_value_of(c: char) -> (r: Option<u8>)
    ensures
        match r {
            Some(d) => hex_value(c) == Some(d as nat) && d < 16,
            None => hex_value(c) is None,
        },
{
    let u: u32 = c as u32;
    if 48 <= u && u <= 57 {
        Some((u - 48) as u8)
    } else if 65 <= u && u <= 70 {
        Some((u - 55) as u8)
    } else if 97 <= u && u <= 102 {
        Some((u - 87) as u8)
    } else {
        None
    }
}

/// Whether `c` is an ASCII letter or digit.
pub fn ascii_alnum(c: char) -> (r: bool)
    ensures
        r == is_ascii_alnum(c),
{
    let u: u32 = c as u32;
    (48 <= u && u <= 57) || (65 <= u && u <= 90) || (97 <= u && u <= 122)
}

/// Whether `c` is an ASCII digit.
pub fn ascii_digit(c: char) -> (r: bool)
    ensures
        r == is_ascii_digit(c),
{
    let u: u32 = c as u32;
    48 <= u && u <= 57
}

/// Whether the list holds the text.
pub fn has_text(list: &Vec<String>, s: &str) -> (r: bool)
    ensures
        r == texts(list@).contains(s@),
{
    let mut i: usize = 0;
    while i < list.len()
        invariant
            i <= list@.len(),
            forall|j: int| 0 <= j < i ==> texts(list@)[j] != s@,
        decreases list@.len() - i,
    {
        if same_text(list[i].as_str(), s) {
            assert(texts(list@)[i as int] == s@);
            return true;
        }
        i += 1;
    }
    assert(texts(list@).len() == list@.len());
    false
}

/// The value of a sequence of decimal digits.
pub open spec fn digits_value(s: Seq<char>) -> nat
    decreases s.len(),
{
    if s.len() == 0 {
        0
    } else {
        digits_value(s.drop_last()) * 10 + (s.last() as u32 - 48) as nat
    }
}

/// All characters are decimal digits.
pub open spec fn all_digits(s: Seq<char>) -> bool {
    forall|i: int| 0 <= i < s.len() ==> is_ascii_digit(#[trigger] s[i])
}

/// The number that `s` writes: an optional `+` and at least one decimal digit, up to `max`.
pub open spec fn number(s: Seq<char>, max: nat) -> Option<nat> {
    let d = if s.len() > 0 && s[0] == '+' {
        s.skip(1)
    } else {
        s
    };
    if d.len() > 0 && all_digits(d) && digits_value(d) <= max {
        Some(digits_value(d))
    } else {
        None
    }
}

/// A number that was written out is read back: its digits are decimal digits, they begin with no
/// sign, and their value is the number.
pub proof fn lemma_decimal(n: nat)
    ensures
        decimal(n).len() > 0,
        all_digits(decimal(n)),
        digits_value(decimal(n)) == n,
        decimal(n)[0] != '+',
    decreases n,
{
    if n < 10 {
        assert(decimal(n) =~= seq![digit(n)]);
        assert(decimal(n).drop_last() =~= Seq::<char>::empty());
        reveal_with_fuel(digits_value, 2);
    } else {
        lemma_decimal(n / 10);
        assert(decimal(n).drop_last() =~= decimal(n / 10));
        assert(decimal(n).last() == digit(n % 10));
        assert(decimal(n)[0] == decimal(n / 10)[0]);
    }
}

proof fn lemma_digits_value_grows(s: Seq<char>, n: int)
    requires
        0 <= n <= s.len(),
        all_digits(s),
    ensures
        digits_value(s.take(n)) <= digits_value(s),
    decreases s.len() - n,
{
    if n < s.len() {
        lemma_digits_value_grows(s, n + 1);
        assert(s.take(n + 1).drop_last() =~= s.take(n));
        assert(is_ascii_digit(s[n]));
    } else {
        assert(s.take(n) =~= s);
    }
}

/// The number that `s` writes, up to `max`.
pub fn parse_number(s: &str, max: u32) -> (r: Option<u32>)
    ensures
        match r {
            Some(n) => number(s@, max as nat) == Some(n as nat),
            None => number(s@, max as nat) is None,
        },
{
    let v: Vec<char> = chars_of(s);
    let from: usize = if v.len() > 0 && v[0] == '+' {
        1
    } else {
        0
    };
    let ghost d = v@.skip(from as int);
    proof {
        if from == 0 {
            assert(d =~= s@);
        }
    }
    if from == v.len() {
        return None;
    }
    let n: usize = v.len();
    let mut value: u64 = 0;
    let mut i: usize = from;
    assert(d.take(0) =~= Seq::<char>::empty());
    while i < n
        invariant
            from <= i <= n == v@.len(),
            from < n,
            d == v@.skip(from as int),
            number(s@, max as nat) == if all_digits(d) && digits_value(d) <= max {
                Some(digits_value(d))
            } else {
                None
            },
            value == digits_value(d.take(i - from)),
            value <= max,
            forall|j: int| 0 <= j < i - from ==> is_ascii_digit(#[trigger] d[j]),
        decreases n - i,
    {
        let c: char = v[i];
        assert(c == d[i - from]);
        if !ascii_digit(c) {
            assert(!is_ascii_digit(d[i - from]));
            return None;
        }
        value = value * 10 + (c as u32 - 48) as u64;
        i += 1;
        assert(d.take(i - from).drop_last() =~= d.take(i - 1 - from));
        if value > max as u64 {
            proof {
                if all_digits(d) {
                    lemma_digits_value_grows(d, i - from);
                }
            }
            return None;
        }
    }
    assert(d.take(n - from) =~= d);
    Some(value as u32)
}

/// The characters that count as white space: the line and the page ends, the tabs, and the spaces of
/// every width.
pub proof fn lemma_white_characters(c: char)
    ensures
        is_white(c) <==> white_numbers().contains(c as u32),
{
    let w = white_numbers();
    let u = c as u32;
    assert(w[0] == 9 && w[1] == 10 && w[2] == 11 && w[3] == 12 && w[4] == 13 && w[5] == 32 && w[6]
        == 133 && w[7] == 160 && w[8] == 5760 && w[9] == 8192 && w[10] == 8193 && w[11] == 8194
        && w[12] == 8195 && w[13] == 8196 && w[14] == 8197 && w[15] == 8198 && w[16] == 8199 && w[17]
        == 8200 && w[18] == 8201 && w[19] == 8202 && w[20] == 8232 && w[21] == 8233 && w[22] == 8239
        && w[23] == 8287 && w[24] == 12288);
    assert(w.len() == 25);
}

/// The numbers of the characters that count as white space.
pub open spec fn white_numbers() -> Seq<u32> {
    seq![
        9u32,
        10u32,
        11u32,
        12u32,
        13u32,
        32u32,
        133u32,
        160u32,
        5760u32,
        8192u32,
        8193u32,
        8194u32,
        8195u32,
        8196u32,
        8197u32,
        8198u32,
        8199u32,
        8200u32,
        8201u32,
        8202u32,
        8232u32,
        8233u32,
        8239u32,
        8287u32,
        12288u32,
    ]
}

/// There is nothing but white space in the text.
pub open spec fn is_blank(s: Seq<char>) -> bool {
    forall|i: int| 0 <= i < s.len() ==> is_white(#[trigger] s[i])
}

/// Trimming takes the white space off, all of it at the end where it trims, and nothing else.
pub proof fn lemma_trim_exact(a: Seq<char>, core: Seq<char>, b: Seq<char>)
    requires
        is_blank(a),
        is_blank(b),
        core.len() > 0 ==> !is_white(core[0]) && !is_white(core[core.len() - 1]),
    ensures
        trim(a + core + b) == core,
        core.len() > 0 ==> trim_start(a + core + b) == core + b,
        core.len() > 0 ==> trim_end(a + core + b) == a + core,
{
    if core.len() > 0 {
        assert(a + core + b =~= a + (core + b));
        lemma_trim_start_exact(a, core + b);
        lemma_trim_end_exact(core, b);
        lemma_trim_end_exact(a + core, b);
    } else {
        let s = a + core + b;
        assert forall|i: int| 0 <= i < s.len() implies is_white(#[trigger] s[i]) by {
            if i < a.len() {
                assert(s[i] == a[i]);
            } else {
                assert(s[i] == b[i - a.len()]);
            }
        }
        let none = Seq::<char>::empty();
        lemma_trim_start_exact(s, none);
        assert(s + none =~= s);
        assert(core =~= none);
    }
}

/// Trimming at the start takes off the white space there.
pub proof fn lemma_trim_start_exact(a: Seq<char>, rest: Seq<char>)
    requires
        is_blank(a),
        rest.len() > 0 ==> !is_white(rest[0]),
    ensures
        trim_start(a + rest) == rest,
    decreases a.len(),
{
    if a.len() > 0 {
        let b = a.drop_first();
        assert(is_white(a[0]));
        assert((a + rest).drop_first() =~= b + rest);
        assert forall|i: int| 0 <= i < b.len() implies is_white(#[trigger] b[i]) by {
            assert(b[i] == a[i + 1]);
        }
        lemma_trim_start_exact(b, rest);
    } else {
        assert(a + rest =~= rest);
    }
}

proof fn lemma_trim_end_exact(core: Seq<char>, b: Seq<char>)
    requires
        is_blank(b),
        core.len() > 0 ==> !is_white(core[core.len() - 1]),
    ensures
        trim_end(core + b) == core,
    decreases b.len(),
{
    if b.len() > 0 {
        assert(is_white(b[b.len() - 1]));
        assert((core + b).drop_last() =~= core + b.drop_last());
        lemma_trim_end_exact(core, b.drop_last());
    } else {
        assert(core + b =~= core);
    }
}

/// What is cut off at the start by trimming is white space, and what is left does not begin with any.
pub proof fn lemma_trim_start_cuts(s: Seq<char>) -> (k: int)
    ensures
        0 <= k <= s.len(),
        is_blank(s.take(k)),
        trim_start(s) == s.skip(k),
        k < s.len() ==> !is_white(s[k]),
    decreases s.len(),
{
    if s.len() > 0 && is_white(s[0]) {
        let k = lemma_trim_start_cuts(s.drop_first());
        assert(s.skip(k + 1) =~= s.drop_first().skip(k));
        let t = s.take(k + 1);
        assert forall|i: int| 0 <= i < t.len() implies is_white(#[trigger] t[i]) by {
            if i > 0 {
                assert(s.drop_first().take(k)[i - 1] == t[i]);
            }
        }
        if k + 1 < s.len() {
            assert(s.drop_first()[k] == s[k + 1]);
        }
        k + 1
    } else {
        assert(s.skip(0) =~= s);
        0
    }
}

/// Texts that are joined stand one behind the other with one separator between each two.
pub proof fn lemma_joined_parts(a: Seq<Seq<char>>, b: Seq<Seq<char>>, part: Seq<char>, sep: Seq<char>)
    ensures
        joined(Seq::empty(), sep) == Seq::<char>::empty(),
        joined(seq![part], sep) == part,
        a.len() > 0 && b.len() > 0 ==> joined(a + b, sep) == joined(a, sep) + sep + joined(b, sep),
    decreases b.len(),
{
    if a.len() > 0 && b.len() > 1 {
        lemma_joined_parts(a, b.drop_last(), part, sep);
        assert((a + b).drop_last() =~= a + b.drop_last());
        assert(joined(a + b, sep) =~= joined(a, sep) + sep + joined(b, sep));
    } else if a.len() > 0 && b.len() == 1 {
        assert((a + b).drop_last() =~= a);
        assert((a + b).last() == b[0]);
    }
}

/// A number is written with its own digits, the highest first, and without a zero before them.
pub proof fn lemma_decimal_digits(n: nat, d: nat)
    requires
        d < 10,
    ensures
        decimal(d) == seq![(48 + d) as char],
        n > 0 ==> decimal(10 * n + d) == decimal(n) + seq![(48 + d) as char],
        decimal(n)[0] == '0' ==> n == 0,
        decimal(n).len() > 0,
        integer(-1 - n) == seq!['-'] + decimal(n + 1),
        integer(n as int) == decimal(n),
    decreases n,
{
    reveal_strlit("-");
    assert("-"@ =~= seq!['-']);
    if n > 0 {
        assert((10 * n + d) / 10 == n && (10 * n + d) % 10 == d);
        assert(decimal(10 * n + d) =~= decimal(n) + seq![(48 + d) as char]);
    }
    if n >= 10 {
        lemma_decimal_digits(n / 10, d);
        assert(decimal(n)[0] == decimal(n / 10)[0]);
    }
}

/// A hexadecimal digit of either case has its value, and nothing else has one; a byte is written with
/// small letters, the higher digit first.
pub proof fn lemma_hex_digits(d: nat, c: char, b: u8)
    requires
        d < 16,
    ensures
        hex_value(c) == Some(d) <==> (d < 10 && c as u32 == 48 + d || d >= 10 && (c as u32 == 87 + d
            || c as u32 == 55 + d)),
        hex_byte(b).len() == 2,
        hex_byte(b)[0] as u32 == if b / 16 < 10 {
            48 + b / 16
        } else {
            87 + b / 16
        },
        hex_byte(b)[1] as u32 == if b % 16 < 10 {
            48 + b % 16
        } else {
            87 + b % 16
        },
{
}

/// A number is read from decimal digits, with or without a plus before them and zeros in front, up to the
/// greatest that is allowed; a text with any other character in it is none.
pub proof fn lemma_numbers_are_read(n: nat, max: nat, s: Seq<char>, i: int)
    ensures
        number(decimal(n), max) == if n <= max {
            Some(n)
        } else {
            None
        },
        number(seq!['+'] + decimal(n), max) == number(decimal(n), max),
        s.len() > 0 && all_digits(s) ==> number(seq!['0'] + s, max) == number(s, max),
        0 < i < s.len() && !('0' <= s[i] <= '9') ==> number(s, max) is None,
        s.len() > 0 && s[0] != '+' && !('0' <= s[0] <= '9') ==> number(s, max) is None,
        number(Seq::empty(), max) is None,
        number(seq!['+'], max) is None,
{
    lemma_decimal(n);
    assert((seq!['+'] + decimal(n)).skip(1) =~= decimal(n));
    assert(seq!['+'].skip(1) =~= Seq::<char>::empty());
    if s.len() > 0 && all_digits(s) {
        let t = seq!['0'] + s;
        assert(is_ascii_digit(s[0]));
        assert(all_digits(t)) by {
            assert forall|k: int| 0 <= k < t.len() implies is_ascii_digit(#[trigger] t[k]) by {
                if k > 0 {
                    assert(is_ascii_digit(s[k - 1]));
                }
            }
        }
        lemma_zero_in_front(s);
    }
    if 0 < i < s.len() && !('0' <= s[i] <= '9') {
        lemma_digit_characters(s[i]);
        if s[0] == '+' {
            assert(!is_ascii_digit(s.skip(1)[i - 1]));
        } else {
            assert(!is_ascii_digit(s[i]));
        }
    }
    if s.len() > 0 && s[0] != '+' && !('0' <= s[0] <= '9') {
        lemma_digit_characters(s[0]);
    }
}

proof fn lemma_digit_characters(c: char)
    ensures
        is_ascii_digit(c) <==> '0' <= c <= '9',
{
}

proof fn lemma_zero_in_front(s: Seq<char>)
    ensures
        digits_value(seq!['0'] + s) == digits_value(s),
    decreases s.len(),
{
    let t = seq!['0'] + s;
    reveal_with_fuel(digits_value, 2);
    if s.len() > 0 {
        lemma_zero_in_front(s.drop_last());
        assert(t.drop_last() =~= seq!['0'] + s.drop_last());
        assert(t.last() == s.last());
    } else {
        assert(t.drop_last() =~= Seq::<char>::empty());
    }
}

/// A text begins with another just where it is that and something behind it, and ends with it just where
/// it is something and that.
pub proof fn lemma_begins_and_ends(a: Seq<char>, p: Seq<char>, b: Seq<char>, s: Seq<char>)
    ensures
        begins(p + b, p),
        ends(a + p, p),
        begins(s, p) ==> s == p + s.skip(p.len() as int),
        ends(s, p) ==> s == s.take(s.len() - p.len()) + p,
{
    assert((p + b).take(p.len() as int) =~= p);
    assert((a + p).skip(a.len() as int) =~= p);
    if begins(s, p) {
        assert(s =~= s.take(p.len() as int) + s.skip(p.len() as int));
    }
    if ends(s, p) {
        assert(s =~= s.take(s.len() - p.len()) + s.skip(s.len() - p.len()));
    }
}

/// A text holds another that stands between two others in it.
pub proof fn lemma_holds_what_is_inside(a: Seq<char>, p: Seq<char>, b: Seq<char>)
    ensures
        holds(a + p + b, p),
{
    let t = a + p + b;
    let n = a.len() as int;
    lemma_find_from(t, p, 0);
    assert(t.subrange(n, n + p.len()) =~= p);
    assert(occurs_at(t, p, n));
}

/// What a text holds stands between two others in it; the result is where.
pub proof fn lemma_inside_what_holds(s: Seq<char>, p: Seq<char>) -> (i: int)
    requires
        holds(s, p),
    ensures
        0 <= i,
        i + p.len() <= s.len(),
        s == s.take(i) + p + s.skip(i + p.len()),
{
    lemma_find_from(s, p, 0);
    let i = find(s, p)->0;
    assert(s.subrange(i, i + p.len()) == p);
    assert(s =~= s.take(i) + s.subrange(i, i + p.len()) + s.skip(i + p.len()));
    i
}

} // verus!
