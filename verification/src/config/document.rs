//! TOML documents, by the functions of the `toml` crate.

use vstd::prelude::*;
use vstd::string::*;

verus! {

/// A TOML value.
#[verifier::external_type_specification]
#[verifier::external_body]
pub struct ExTomlValue(toml::Value);

/// A date, a time, or both; then also how far the time is from universal time.
#[derive(Clone, Copy, Debug, PartialEq, Eq)]
pub struct Moment {
    /// The year, the month and the day.
    pub date: Option<(u16, u8, u8)>,
    /// The hour, the minute, the second and the nanosecond.
    pub time: Option<(u8, u8, u8, u32)>,
    /// The minutes from universal time, `None` within it where it is universal time itself.
    pub offset: Option<Option<i16>>,
}

/// What a TOML value holds.
pub enum Doc {
    Str(Seq<char>),
    Int(i64),
    /// A number with a fraction, as the bits of a floating-point number.
    Fraction(u64),
    Truth(bool),
    Date(Moment),
    List(Seq<toml::Value>),
    Table(Seq<(Seq<char>, toml::Value)>),
}

/// What kind of value a TOML value is, and what it holds unless that is a date.
pub enum Shape {
    Text(String),
    Integer(i64),
    Fraction(u64),
    Truth(bool),
    Date,
    List(Vec<toml::Value>),
    Table(Vec<(String, toml::Value)>),
}

/// The value holds what its shape says.
pub open spec fn is_shape_of(s: Shape, d: Doc) -> bool {
    match s {
        Shape::Text(t) => d == Doc::Str(t@),
        Shape::Integer(n) => d == Doc::Int(n),
        Shape::Fraction(bits) => d == Doc::Fraction(bits),
        Shape::Truth(b) => d == Doc::Truth(b),
        Shape::Date => d is Date,
        Shape::List(items) => d == Doc::List(items@),
        Shape::Table(es) => d == Doc::Table(entry_views(es@)) && distinct_keys(entry_views(es@)),
    }
}

/// What a TOML value holds; the entries of a table stand in the order in which the table is walked.
pub uninterp spec fn contents(v: toml::Value) -> Doc;

/// The value that `toml::from_str` makes of a text, `None` where it is no TOML.
pub uninterp spec fn toml_document(text: Seq<char>) -> Option<toml::Value>;

/// The text that `toml::to_string` makes of a value, `None` where it cannot be written.
pub uninterp spec fn toml_text(v: toml::Value) -> Option<Seq<char>>;

/// What a list of keys and values stands for.
pub open spec fn entry_views(es: Seq<(String, toml::Value)>) -> Seq<(Seq<char>, toml::Value)> {
    es.map_values(|e: (String, toml::Value)| (e.0@, e.1))
}

/// No key stands in the list twice.
pub open spec fn distinct_keys(es: Seq<(Seq<char>, toml::Value)>) -> bool {
    forall|i: int, j: int|
        0 <= i < j < es.len() ==> (#[trigger] es[i]).0 != (#[trigger] es[j]).0
}

/// The value under a key.
pub open spec fn lookup(es: Seq<(Seq<char>, toml::Value)>, key: Seq<char>) -> Option<toml::Value>
    decreases es.len(),
{
    if es.len() == 0 {
        None
    } else if es.last().0 == key {
        Some(es.last().1)
    } else {
        lookup(es.drop_last(), key)
    }
}

/// `v` is a table that holds the same value under every key as the list does.
pub open spec fn is_table_of(v: toml::Value, es: Seq<(Seq<char>, toml::Value)>) -> bool {
    contents(v) matches Doc::Table(t) && distinct_keys(t) && forall|k: Seq<char>| #[trigger]
        lookup(t, k) == lookup(es, k)
}

/// The key under which `toml` hides a date where it stands in a table.
pub const DATE_KEY: &'static str = "$__toml_private_datetime";

/// How many parts a key may have that the crate reads; a table that stands by itself is named by all
/// the keys that lead to it.
pub const PARTS: usize = 79;

/// How deep lists and tables may stand in each other behind a key that the crate reads.
pub const NESTED: usize = 79;

/// The quotes in a row that the crate cannot count.
pub const QUOTES: usize = 256;

/// `n` times `c` stand in the text from `i` on.
pub open spec fn run_at(s: Seq<char>, c: char, i: int, n: int) -> bool {
    0 <= i && i + n <= s.len() && forall|j: int| i <= j < i + n ==> #[trigger] s[j] == c
}

/// Too many quotes of one kind stand in a row somewhere in the text.
pub open spec fn has_long_quotes(s: Seq<char>) -> bool {
    ||| exists|i: int| #[trigger] run_at(s, '\'', i, QUOTES as int)
    ||| exists|i: int| #[trigger] run_at(s, '"', i, QUOTES as int)
}

/// How many days a month has.
pub open spec fn days_in(year: u16, month: u8) -> int {
    if month == 2 {
        if year % 4 == 0 && (year % 100 != 0 || year % 400 == 0) {
            29
        } else {
            28
        }
    } else if month == 4 || month == 6 || month == 9 || month == 11 {
        30
    } else {
        31
    }
}

/// There is such a date, time or both, and TOML can say it: a distance from universal time takes a
/// date and a time.
pub open spec fn is_in_form(m: Moment) -> bool {
    &&& m.date is Some || m.time is Some
    &&& m.offset is Some ==> m.date is Some && m.time is Some
    &&& m.date matches Some((year, month, day)) ==> year <= 9999 && 1 <= month <= 12 && 1 <= day
        <= days_in(year, month)
    &&& m.time matches Some((hour, minute, second, nanosecond)) ==> hour <= 23 && minute <= 59
        && second <= 60 && nanosecond <= 999_999_999
    &&& m.offset matches Some(Some(minutes)) ==> -1440 < minutes < 1440
}

/// `v` is one that can be written: without too many quotes in a row, and with dates that TOML can say.
/// It is nested at most `n` deep.
pub open spec fn tame(v: toml::Value, n: nat) -> bool
    decreases n,
{
    match contents(v) {
        Doc::Str(s) => !has_long_quotes(s),
        Doc::Date(m) => is_in_form(m),
        Doc::List(items) => n > 0 && forall|i: int|
            0 <= i < items.len() ==> tame(#[trigger] items[i], (n - 1) as nat),
        Doc::Table(es) => n > 0 && forall|i: int|
            0 <= i < es.len() ==> tame((#[trigger] es[i]).1, (n - 1) as nat),
        _ => true,
    }
}

/// `v` stands behind a key and is read back: it is nested at most `n` deep, and no table in it has the
/// key that stands for a date.
pub open spec fn inline_to(v: toml::Value, n: nat) -> bool
    decreases n,
{
    match contents(v) {
        Doc::List(items) => n > 0 && forall|i: int|
            0 <= i < items.len() ==> inline_to(#[trigger] items[i], (n - 1) as nat),
        Doc::Table(es) => n > 0 && distinct_keys(es) && forall|i: int|
            0 <= i < es.len() ==> (#[trigger] es[i]).0 != DATE_KEY@ && inline_to(
                es[i].1,
                (n - 1) as nat,
            ),
        _ => true,
    }
}

/// The list holds tables alone, and at least one: the crate writes each of them by itself.
pub open spec fn are_tables(items: Seq<toml::Value>) -> bool {
    items.len() > 0 && forall|i: int| 0 <= i < items.len() ==> contents(#[trigger] items[i]) is Table
}

/// `v` is a table that stands by itself and is read back, with at most `n` more parts to the keys of
/// the tables below it; it has not the key that stands for a date.
pub open spec fn plain_to(v: toml::Value, n: nat) -> bool
    decreases n, 1nat,
{
    contents(v) matches Doc::Table(es) && distinct_keys(es) && forall|i: int|
        0 <= i < es.len() ==> (#[trigger] es[i]).0 != DATE_KEY@ && below_to(es[i].1, n)
}

/// `v` is read back under a key of a table that stands by itself, with at most `n` more parts to the
/// keys: tables and lists of tables stand by themselves again, and anything else behind the key.
pub open spec fn below_to(v: toml::Value, n: nat) -> bool
    decreases n, 0nat,
{
    match contents(v) {
        Doc::Table(_) => n > 0 && plain_to(v, (n - 1) as nat),
        Doc::List(items) if are_tables(items) => n > 0 && forall|i: int|
            0 <= i < items.len() ==> plain_to(#[trigger] items[i], (n - 1) as nat),
        _ => inline_to(v, NESTED as nat),
    }
}

/// The bits are those of no number.
pub open spec fn is_no_number(bits: u64) -> bool {
    bits as int % 0x8000_0000_0000_0000 > 0x7ff0_0000_0000_0000
}

/// `w` and `v` hold the same down to a depth of `n`: the same strings, numbers, truth values and
/// dates, lists of the same things, and tables of the same things under the same keys. What is no
/// number is not told apart.
pub open spec fn same_to(w: toml::Value, v: toml::Value, n: nat) -> bool
    decreases n, 1nat,
{
    n == 0 || match (contents(w), contents(v)) {
        (Doc::Str(a), Doc::Str(b)) => a == b,
        (Doc::Int(a), Doc::Int(b)) => a == b,
        (Doc::List(a), Doc::List(b)) => a.len() == b.len() && forall|i: int|
            0 <= i < a.len() ==> same_to(#[trigger] a[i], b[i], (n - 1) as nat),
        (Doc::Table(a), Doc::Table(b)) => distinct_keys(a) && forall|k: Seq<char>|
            same_found(#[trigger] lookup(a, k), lookup(b, k), (n - 1) as nat),
        (Doc::Fraction(a), Doc::Fraction(b)) => a == b || is_no_number(a) && is_no_number(b),
        (Doc::Truth(a), Doc::Truth(b)) => a == b,
        (Doc::Date(a), Doc::Date(b)) => a == b,
        _ => false,
    }
}

/// What was found under a key is the same, down to a depth of `n`.
pub open spec fn same_found(w: Option<toml::Value>, v: Option<toml::Value>, n: nat) -> bool
    decreases n, 2nat,
{
    match (w, v) {
        (Some(a), Some(b)) => same_to(a, b, n),
        (None, None) => true,
        _ => false,
    }
}

/// What was found under a key is the same, however deep one looks.
pub open spec fn same(w: Option<toml::Value>, v: Option<toml::Value>) -> bool {
    forall|n: nat| #[trigger] same_found(w, v, n)
}

/// The text is TOML, and what it describes holds the same as `v`.
pub open spec fn reads_back(text: Option<String>, v: toml::Value) -> bool {
    match text {
        Some(s) => match toml_document(s@) {
            Some(w) => same(Some(w), Some(v)),
            None => false,
        },
        None => false,
    }
}

/// `toml::from_str` for a `toml::Value`: the value that the text describes, `None` where it is no
/// TOML. The result depends on the text alone.
#[verifier::external_body]
pub(crate) fn parse_toml(text: &str) -> (r: Option<toml::Value>)
    ensures
        r == toml_document(text@),
{
    toml::from_str::<toml::Value>(text).ok()
}

/// `toml::to_string` of a `toml::Value`: its text, `None` where it cannot be written. The result
/// depends on the value alone. A table can always be written. Reading the text of a table gives back
/// what it holds, unless a key in it has too many parts, lists and tables stand in each other too deep
/// behind a key, or it has the crate's own key for dates in it; of a number that is none it is said
/// only that it is read back as one of these. Left out are strings with so many quotes in a row that
/// the crate's count of them overflows, and dates that TOML cannot say.
#[verifier::external_body]
pub(crate) fn write_toml(v: &toml::Value) -> (r: Option<String>)
    requires
        tame(*v, usize::MAX as nat),
    ensures
        match r {
            Some(s) => toml_text(*v) == Some(s@),
            None => toml_text(*v) is None,
        },
        contents(*v) is Table ==> r is Some,
        plain_to(*v, PARTS as nat) ==> reads_back(r, *v),
{
    toml::to_string(v).ok()
}

/// The variants of `toml::Value`: what the value holds. The entries of a table come in the order in
/// which the table is walked, and a table has no key twice. A number with a fraction comes as its
/// bits. What a date holds is left to `as_date`.
#[verifier::external_body]
pub(crate) fn shape(v: &toml::Value) -> (s: Shape)
    ensures
        is_shape_of(s, contents(*v)),
{
    match v {
        toml::Value::String(s) => Shape::Text(s.clone()),
        toml::Value::Integer(n) => Shape::Integer(*n),
        toml::Value::Float(x) => Shape::Fraction(x.to_bits()),
        toml::Value::Boolean(b) => Shape::Truth(*b),
        toml::Value::Datetime(_) => Shape::Date,
        toml::Value::Array(a) => Shape::List(a.clone()),
        toml::Value::Table(t) => {
            Shape::Table(t.iter().map(|(k, v)| (k.clone(), v.clone())).collect())
        },
    }
}

/// `toml::Value::as_datetime`: the fields of a date, and `None` for any other value.
#[verifier::external_body]
pub(crate) fn as_date(v: &toml::Value) -> (r: Option<Moment>)
    ensures
        match r {
            Some(m) => contents(*v) == Doc::Date(m),
            None => !(contents(*v) is Date),
        },
{
    v.as_datetime().map(|d| Moment {
        date: d.date.map(|x| (x.year, x.month, x.day)),
        time: d.time.map(|x| (x.hour, x.minute, x.second, x.nanosecond)),
        offset: d.offset.map(|x| match x {
            toml::value::Offset::Z => None,
            toml::value::Offset::Custom { minutes } => Some(minutes),
        }),
    })
}

/// The entries of a table, in the order in which the table is walked; `None` for any other value.
pub(crate) fn as_table(v: &toml::Value) -> (r: Option<Vec<(String, toml::Value)>>)
    ensures
        match r {
            Some(es) => contents(*v) == Doc::Table(entry_views(es@)) && distinct_keys(
                entry_views(es@),
            ),
            None => !(contents(*v) is Table),
        },
{
    match shape(v) {
        Shape::Table(es) => Some(es),
        _ => None,
    }
}

/// The items of an array, in order; `None` for any other value.
pub(crate) fn as_array(v: &toml::Value) -> (r: Option<Vec<toml::Value>>)
    ensures
        match r {
            Some(items) => contents(*v) == Doc::List(items@),
            None => !(contents(*v) is List),
        },
{
    match shape(v) {
        Shape::List(items) => Some(items),
        _ => None,
    }
}

/// The text of a string; `None` for any other value.
pub(crate) fn as_text(v: &toml::Value) -> (r: Option<String>)
    ensures
        match r {
            Some(s) => contents(*v) == Doc::Str(s@),
            None => !(contents(*v) is Str),
        },
{
    match shape(v) {
        Shape::Text(s) => Some(s),
        _ => None,
    }
}

/// The number of an integer; `None` for any other value.
pub(crate) fn as_integer(v: &toml::Value) -> (r: Option<i64>)
    ensures
        match r {
            Some(n) => contents(*v) == Doc::Int(n),
            None => !(contents(*v) is Int),
        },
{
    match shape(v) {
        Shape::Integer(n) => Some(n),
        _ => None,
    }
}

/// Whether `QUOTES` of the character stand in a row somewhere in the text.
fn has_run(s: &str, c: char) -> (r: bool)
    ensures
        r == exists|i: int| #[trigger] run_at(s@, c, i, QUOTES as int),
{
    let n: usize = s.unicode_len();
    let mut run: usize = 0;
    let mut k: usize = 0;
    while k < n
        invariant
            n == s@.len(),
            run <= k <= n,
            run < QUOTES,
            forall|j: int| k - run <= j < k ==> s@[j] == c,
            run == k || s@[k - run - 1] != c,
            forall|i: int| i + QUOTES <= k ==> !#[trigger] run_at(s@, c, i, QUOTES as int),
        decreases n - k,
    {
        if s.get_char(k) == c {
            run += 1;
            if run == QUOTES {
                assert(run_at(s@, c, k + 1 - run, QUOTES as int));
                return true;
            }
            assert(run == k + 1 || s@[k - run] != c);
        } else {
            run = 0;
        }
        assert forall|i: int| i + QUOTES <= k + 1 implies !#[trigger] run_at(
            s@,
            c,
            i,
            QUOTES as int,
        ) by {
            if i + QUOTES == k + 1 && 0 <= i {
                assert(s@[k - run] != c);
            }
        }
        k += 1;
    }
    false
}

/// Whether there is such a date, time or both, and TOML can say it.
fn in_form(m: Moment) -> (r: bool)
    ensures
        r == is_in_form(m),
{
    let date_fits: bool = match m.date {
        Some((year, month, day)) => {
            let days: u8 = if month == 2 {
                if year % 4 == 0 && (year % 100 != 0 || year % 400 == 0) {
                    29
                } else {
                    28
                }
            } else if month == 4 || month == 6 || month == 9 || month == 11 {
                30
            } else {
                31
            };
            year <= 9999 && 1 <= month && month <= 12 && 1 <= day && day <= days
        },
        None => true,
    };
    let time_fits: bool = match m.time {
        Some((hour, minute, second, nanosecond)) => hour <= 23 && minute <= 59 && second <= 60
            && nanosecond <= 999_999_999,
        None => true,
    };
    let offset_fits: bool = match m.offset {
        Some(Some(minutes)) => -1440 < minutes && minutes < 1440,
        _ => true,
    };
    (m.date.is_some() || m.time.is_some()) && (m.offset.is_none() || m.date.is_some()
        && m.time.is_some()) && date_fits && time_fits && offset_fits
}

proof fn lemma_wild_item(v: toml::Value, n: nat, i: int)
    requires
        n > 0,
        contents(v) matches Doc::List(items) && 0 <= i < items.len() && !tame(
            items[i],
            (n - 1) as nat,
        ),
    ensures
        !tame(v, n),
{
}

proof fn lemma_wild_entry(v: toml::Value, n: nat, i: int)
    requires
        n > 0,
        contents(v) matches Doc::Table(es) && 0 <= i < es.len() && !tame(es[i].1, (n - 1) as nat),
    ensures
        !tame(v, n),
{
}

/// Whether the value is one that can be written, nested at most `n` deep.
pub(crate) fn is_tame(v: &toml::Value, n: usize) -> (r: bool)
    ensures
        r == tame(*v, n as nat),
    decreases n,
{
    match shape(v) {
        Shape::Text(s) => !has_run(s.as_str(), '\'') && !has_run(s.as_str(), '"'),
        Shape::Date => match as_date(v) {
            Some(m) => in_form(m),
            None => true,
        },
        Shape::List(items) => {
            if n == 0 {
                return false;
            }
            let mut i: usize = 0;
            while i < items.len()
                invariant
                    i <= items@.len(),
                    n > 0,
                    contents(*v) == Doc::List(items@),
                    forall|j: int| 0 <= j < i ==> tame(#[trigger] items@[j], (n - 1) as nat),
                decreases items@.len() - i,
            {
                if !is_tame(&items[i], n - 1) {
                    proof {
                        lemma_wild_item(*v, n as nat, i as int);
                    }
                    return false;
                }
                i += 1;
            }
            true
        },
        Shape::Table(es) => {
            if n == 0 {
                return false;
            }
            let ghost all = entry_views(es@);
            let mut i: usize = 0;
            while i < es.len()
                invariant
                    i <= es@.len(),
                    n > 0,
                    all == entry_views(es@),
                    contents(*v) == Doc::Table(all),
                    forall|j: int| 0 <= j < i ==> tame((#[trigger] all[j]).1, (n - 1) as nat),
                decreases es@.len() - i,
            {
                assert(all[i as int].1 == es@[i as int].1);
                if !is_tame(&es[i].1, n - 1) {
                    proof {
                        lemma_wild_entry(*v, n as nat, i as int);
                    }
                    return false;
                }
                i += 1;
            }
            true
        },
        _ => true,
    }
}

/// `toml::Value::String`: the string value with this text.
#[verifier::external_body]
pub(crate) fn string_value(s: String) -> (v: toml::Value)
    ensures
        contents(v) == Doc::Str(s@),
{
    toml::Value::String(s)
}

/// `toml::Value::Array`: the array of these items.
#[verifier::external_body]
pub(crate) fn array_value(items: Vec<toml::Value>) -> (v: toml::Value)
    ensures
        contents(v) == Doc::List(items@),
{
    toml::Value::Array(items)
}

/// `toml::Value::Table`: the table of these entries. It holds the same value under every key; the
/// order in which it is walked is its own.
#[verifier::external_body]
pub(crate) fn table_value(es: Vec<(String, toml::Value)>) -> (v: toml::Value)
    requires
        distinct_keys(entry_views(es@)),
    ensures
        is_table_of(v, entry_views(es@)),
{
    toml::Value::Table(es.into_iter().collect())
}

/// A year has 365 days, and one more where it is a leap year: February has then 29. Every fourth year is
/// one, but of the full centuries only every fourth.
pub proof fn lemma_days_of_a_year(year: u16, month: u8)
    ensures
        days_in(year, 2) == 29 <==> (year % 4 == 0 && year % 100 != 0) || year % 400 == 0,
        days_in(year, 2) == 29 || days_in(year, 2) == 28,
        days_in(year, 1) + days_in(year, 2) + days_in(year, 3) + days_in(year, 4) + days_in(year, 5)
            + days_in(year, 6) + days_in(year, 7) + days_in(year, 8) + days_in(year, 9) + days_in(year, 10)
            + days_in(year, 11) + days_in(year, 12) == 337 + days_in(year, 2),
        month == 1 || month == 3 || month == 5 || month == 7 || month == 8 || month == 10 || month == 12
            ==> days_in(year, month) == 31,
{
}

/// A date by itself is one that the calendar has, a time by itself one that a day has, up to a leap
/// second; only both together can have a distance from universal time, of less than a day.
pub proof fn lemma_moments_in_form(
    date: (u16, u8, u8),
    time: (u8, u8, u8, u32),
    offset: Option<i16>,
)
    ensures
        ({
            let d = date.0 < 10000 && 1 <= date.1 <= 12 && 1 <= date.2 <= days_in(date.0, date.1);
            let t = time.0 < 24 && time.1 < 60 && time.2 < 61 && time.3 < 1_000_000_000;
            let o = offset is None || -1440 < offset->0 < 1440;
            &&& is_in_form(Moment { date: Some(date), time: None, offset: None }) <==> d
            &&& is_in_form(Moment { date: None, time: Some(time), offset: None }) <==> t
            &&& is_in_form(Moment { date: Some(date), time: Some(time), offset: None }) <==> d && t
            &&& is_in_form(Moment { date: Some(date), time: Some(time), offset: Some(offset) }) <==> d && t
                && o
            &&& !is_in_form(Moment { date: None, time: Some(time), offset: Some(offset) })
            &&& !is_in_form(Moment { date: Some(date), time: None, offset: Some(offset) })
            &&& !is_in_form(Moment { date: None, time: None, offset: None })
        }),
{
}

/// A text has too many quotes where 256 of one kind stand in a row in it, and not where it is shorter
/// than that or has no quotes.
pub proof fn lemma_too_many_quotes(a: Seq<char>, c: char, b: Seq<char>, s: Seq<char>)
    ensures
        c == '"' || c == '\'' ==> has_long_quotes(a + Seq::new(256, |i: int| c) + b),
        s.len() < 256 ==> !has_long_quotes(s),
        !s.contains('"') && !s.contains('\'') ==> !has_long_quotes(s),
{
    let t = a + Seq::new(256, |i: int| c) + b;
    let n = a.len() as int;
    assert(run_at(t, c, n, 256));
    if has_long_quotes(s) && !s.contains('"') && !s.contains('\'') {
        if exists|i: int| #[trigger] run_at(s, '\'', i, QUOTES as int) {
            let i = choose|i: int| #[trigger] run_at(s, '\'', i, QUOTES as int);
            assert(s[i] == '\'');
        } else {
            let i = choose|i: int| #[trigger] run_at(s, '"', i, QUOTES as int);
            assert(s[i] == '"');
        }
    }
}

/// A table says under a key what its entry under that key says; where no two entries have the same key,
/// each counts.
pub proof fn lemma_entries_are_found(es: Seq<(Seq<char>, toml::Value)>, k: Seq<char>)
    ensures
        lookup(es, k) is Some <==> exists|i: int| 0 <= i < es.len() && (#[trigger] es[i]).0 == k,
        lookup(es, k) matches Some(v) ==> es.contains((k, v)),
        distinct_keys(es) ==> forall|i: int|
            0 <= i < es.len() && (#[trigger] es[i]).0 == k ==> lookup(es, k) == Some(es[i].1),
    decreases es.len(),
{
    if es.len() > 0 {
        let init = es.drop_last();
        let n = es.len() - 1;
        lemma_entries_are_found(init, k);
        assert(es[n] == es.last());
        if es.last().0 == k {
            assert(es[n] == (k, es.last().1));
        } else {
            if let Some(v) = lookup(init, k) {
                assert(es[init.index_of((k, v))] == (k, v));
            }
            if exists|i: int| 0 <= i < es.len() && (#[trigger] es[i]).0 == k {
                let i = choose|i: int| 0 <= i < es.len() && (#[trigger] es[i]).0 == k;
                assert(init[i].0 == k);
            }
        }
        if distinct_keys(es) {
            assert(distinct_keys(init)) by {
                assert forall|i: int, j: int| 0 <= i < j < init.len() implies (#[trigger] init[i]).0 != (
                #[trigger] init[j]).0 by {
                    assert(es[i].0 != es[j].0);
                }
            }
            assert forall|i: int| 0 <= i < es.len() && (#[trigger] es[i]).0 == k implies lookup(es, k)
                == Some(es[i].1) by {
                if i < n {
                    assert(init[i] == es[i]);
                    assert(es[i].0 != es[n].0);
                }
            }
        }
    }
}

/// What can be written: any number and any truth value, a text without too many quotes, a date in form,
/// and a list or a table of what can be, nested as deep as is allowed and no deeper.
pub proof fn lemma_what_can_be_written(v: toml::Value, n: nat, i: int)
    ensures
        contents(v) matches Doc::Str(s) ==> (tame(v, n) <==> !has_long_quotes(s)),
        contents(v) matches Doc::Date(m) ==> (tame(v, n) <==> is_in_form(m)),
        contents(v) is Int || contents(v) is Truth || contents(v) is Fraction ==> tame(v, n),
        contents(v) is List || contents(v) is Table ==> !tame(v, 0),
        contents(v) matches Doc::List(s) ==> tame(v, n + 1) ==> 0 <= i < s.len() ==> tame(s[i], n),
        contents(v) matches Doc::List(s) ==> (forall|k: int| 0 <= k < s.len() ==> tame(#[trigger] s[k], n))
            ==> tame(v, n + 1),
        contents(v) matches Doc::Table(s) ==> tame(v, n + 1) ==> 0 <= i < s.len() ==> tame(s[i].1, n),
        contents(v) matches Doc::Table(s) ==> (forall|k: int|
            0 <= k < s.len() ==> tame((#[trigger] s[k]).1, n)) ==> tame(v, n + 1),
{
    let m = n + 1;
    assert((m - 1) as nat == n);
}

/// The bits of no number have all bits of the exponent set and some of the fraction; the sign does not
/// matter.
pub proof fn lemma_bits_of_no_number(bits: u64)
    ensures
        is_no_number(bits) <==> bits & 0x7ff0_0000_0000_0000 == 0x7ff0_0000_0000_0000 && bits
            & 0x000f_ffff_ffff_ffff != 0,
{
    assert((bits % 0x8000_0000_0000_0000 > 0x7ff0_0000_0000_0000) == (bits & 0x7ff0_0000_0000_0000
        == 0x7ff0_0000_0000_0000 && bits & 0x000f_ffff_ffff_ffff != 0)) by (bit_vector);
}

} // verus!
