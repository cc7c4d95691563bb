//! Fresh identifiers: a compact time stamp and a few random digits.
use vstd::prelude::*;
use crate::datetime;
use crate::text;

verus! {

/// A character of a compact time stamp.
pub open spec fn stamp_char(c: char) -> bool {
    text::is_digit(c) || c == 'T' || c == '+' || c == '-'
}

/// A lower-case hexadecimal digit.
pub open spec fn hex_char(c: char) -> bool {
    text::is_digit(c) || 'a' <= c <= 'f'
}

/// A time, such as `20260522T081530123`: a day, a `T`, and the time of day down to
/// the millisecond.
pub open spec fn stamp_of(
    year: int,
    month: int,
    day: int,
    hour: int,
    minute: int,
    second: int,
    millis: int,
) -> Seq<char> {
    datetime::year_digits(year) + datetime::two_digits(month) + datetime::two_digits(day) + seq![
        'T',
    ] + datetime::two_digits(hour) + datetime::two_digits(minute) + datetime::two_digits(second)
        + datetime::three_digits(millis)
}

/// The text is the stamp of a time since 1970.
pub open spec fn is_stamp(s: Seq<char>) -> bool {
    exists|y: int, mo: int, d: int, h: int, mi: int, sec: int, ms: int|
        {
            &&& s == #[trigger] stamp_of(y, mo, d, h, mi, sec, ms)
            &&& y >= 1970 && 1 <= mo <= 12 && 1 <= d <= datetime::days_in_month(y, mo)
            &&& 0 <= h < 24 && 0 <= mi < 60 && 0 <= sec < 60 && 0 <= ms < 1000
        }
}

/// `chrono::Utc::now` in the form `%Y%m%dT%H%M%S%3f`. Which time it is nobody can
/// say; it is one since 1970.
#[verifier::external_body]
fn utc_stamp() -> (r: String)
    ensures
        is_stamp(r@),
{
    chrono::Utc::now().format("%Y%m%dT%H%M%S%3f").to_string()
}

/// `uuid::Uuid::new_v4` in simple form: 32 lower-case hexadecimal digits,
/// which ones is chance.
#[verifier::external_body]
fn random_hex() -> (r: String)
    ensures
        r@.len() == 32,
        forall|i: int| 0 <= i < r@.len() ==> hex_char(#[trigger] r@[i]),
{
    uuid::Uuid::new_v4().simple().to_string()
}

/// A character of a uuid.
pub open spec fn uuid_char(c: char) -> bool {
    hex_char(c) || c == '-'
}

/// `uuid::Uuid::new_v4` in its usual form: 36 characters, lower-case hexadecimal
/// digits with hyphens between them, which digits is chance.
#[verifier::external_body]
pub(crate) fn random_uuid() -> (r: String)
    ensures
        r@.len() == 36,
        forall|i: int| 0 <= i < r@.len() ==> uuid_char(#[trigger] r@[i]),
{
    uuid::Uuid::new_v4().to_string()
}

/// The id made of a prefix, a stamp and the first six random digits.
pub open spec fn id_text(prefix: Seq<char>, stamp: Seq<char>, random: Seq<char>) -> Seq<char> {
    prefix + stamp + seq!['_'] + random.take(6)
}

/// The id made of a prefix, a stamp and the first six random digits.
pub fn make_id(prefix: &str, stamp: &str, random: &str) -> (r: String)
    requires
        random@.len() >= 6,
    ensures
        r@ == id_text(prefix@, stamp@, random@),
{
    let mut s = prefix.to_owned();
    s.append(stamp);
    s.push('_');
    s.append(text::take_chars(random, 6));
    assert(text::first_chars(random@, 6) =~= random@.take(6));
    s
}

/// The text is an id with that prefix: a stamp follows it, a `_` and six random
/// digits.
pub open spec fn is_id(s: Seq<char>, prefix: Seq<char>) -> bool {
    exists|stamp: Seq<char>, random: Seq<char>|
        {
            &&& s == #[trigger] id_text(prefix, stamp, random)
            &&& is_stamp(stamp)
            &&& random.len() == 32
            &&& forall|i: int| 0 <= i < random.len() ==> hex_char(#[trigger] random[i])
        }
}

/// A fresh id with that prefix.
pub fn fresh_id(prefix: &str) -> (r: String)
    ensures
        is_id(r@, prefix@),
{
    let stamp = utc_stamp();
    let random = random_hex();
    make_id(prefix, stamp.as_str(), random.as_str())
}

/// All characters are of the kind that stamps are made of.
spec fn stamp_chars(s: Seq<char>) -> bool {
    forall|i: int| 0 <= i < s.len() ==> stamp_char(#[trigger] s[i])
}

proof fn lemma_stamp_add(a: Seq<char>, b: Seq<char>)
    requires
        stamp_chars(a),
        stamp_chars(b),
    ensures
        stamp_chars(a + b),
{
    assert forall|i: int| 0 <= i < (a + b).len() implies stamp_char(#[trigger] (a + b)[i]) by {
        if i < a.len() {
            assert((a + b)[i] == a[i]);
        } else {
            assert((a + b)[i] == b[i - a.len()]);
        }
    }
}

proof fn lemma_digits(n: int)
    ensures
        stamp_chars(datetime::two_digits(n)),
        stamp_chars(datetime::three_digits(n)),
        stamp_chars(datetime::four_digits(n)),
{
    assert forall|d: int| 0 <= d < 10 implies text::is_digit(#[trigger] datetime::digit(d)) by {}
    assert(0 <= n % 10 < 10 && 0 <= n / 10 % 10 < 10 && 0 <= n / 100 % 10 < 10 && 0 <= n / 1000
        % 10 < 10);
}

proof fn lemma_decimal(n: nat)
    ensures
        stamp_chars(text::decimal_text(n)),
    decreases n,
{
    assert forall|d: int| 0 <= d < 10 implies text::is_digit(#[trigger] text::digit_char(d)) by {}
    let last = seq![text::digit_char((n % 10) as int)];
    assert(0 <= n % 10 < 10);
    assert(stamp_chars(last));
    if n >= 10 {
        lemma_decimal(n / 10);
        lemma_stamp_add(text::decimal_text(n / 10), last);
        assert(text::decimal_text(n) =~= text::decimal_text(n / 10) + last);
    } else {
        assert(text::decimal_text(n) =~= last);
    }
}

/// A year since 1970 is written in digits, with a sign where it has more than four.
proof fn lemma_year(y: int)
    requires
        y >= 0,
    ensures
        stamp_chars(datetime::year_digits(y)),
        datetime::year_digits(y).len() >= 4,
{
    if y > 9999 {
        lemma_decimal(y as nat);
        assert(stamp_chars(seq!['+']));
        lemma_stamp_add(seq!['+'], text::decimal_text(y as nat));
        reveal_with_fuel(text::decimal_text, 4);
    } else {
        lemma_digits(y);
    }
}

/// A stamp is made of digits, a `T` and, for a year of more than four digits, a
/// sign.
proof fn lemma_stamp_chars(s: Seq<char>)
    requires
        is_stamp(s),
    ensures
        stamp_chars(s),
        s.len() >= 18,
{
    let (y, mo, d, h, mi, sec, ms) = choose|
        y: int,
        mo: int,
        d: int,
        h: int,
        mi: int,
        sec: int,
        ms: int,
    |
        {
            &&& s == #[trigger] stamp_of(y, mo, d, h, mi, sec, ms)
            &&& y >= 1970 && 1 <= mo <= 12 && 1 <= d <= datetime::days_in_month(y, mo)
            &&& 0 <= h < 24 && 0 <= mi < 60 && 0 <= sec < 60 && 0 <= ms < 1000
        };
    lemma_year(y);
    lemma_digits(mo);
    lemma_digits(d);
    lemma_digits(h);
    lemma_digits(mi);
    lemma_digits(sec);
    lemma_digits(ms);
    lemma_all_stamp_chars(
        datetime::year_digits(y),
        datetime::two_digits(mo),
        datetime::two_digits(d),
        datetime::two_digits(h),
        datetime::two_digits(mi),
        datetime::two_digits(sec),
        datetime::three_digits(ms),
    );
}

proof fn lemma_all_stamp_chars(
    year: Seq<char>,
    month: Seq<char>,
    day: Seq<char>,
    hour: Seq<char>,
    minute: Seq<char>,
    second: Seq<char>,
    millis: Seq<char>,
)
    requires
        stamp_chars(year),
        stamp_chars(month),
        stamp_chars(day),
        stamp_chars(hour),
        stamp_chars(minute),
        stamp_chars(second),
        stamp_chars(millis),
    ensures
        stamp_chars(year + month + day + seq!['T'] + hour + minute + second + millis),
{
    let a = year + month;
    let b = a + day;
    let c = b + seq!['T'];
    let e = c + hour;
    let f = e + minute;
    let g = f + second;
    lemma_stamp_add(year, month);
    lemma_stamp_add(a, day);
    assert(stamp_chars(seq!['T']));
    lemma_stamp_add(b, seq!['T']);
    lemma_stamp_add(c, hour);
    lemma_stamp_add(e, minute);
    lemma_stamp_add(f, second);
    lemma_stamp_add(g, millis);
}

/// An id is a safe file name as far as its prefix is: the rest holds neither a
/// separator nor a colon.
pub proof fn law_ids_are_file_names(s: Seq<char>, prefix: Seq<char>)
    requires
        is_id(s, prefix),
        forall|i: int| 0 <= i < prefix.len() ==> prefix[i] != '/' && prefix[i] != '\\' && prefix[i] != ':',
    ensures
        forall|i: int| 0 <= i < s.len() ==> s[i] != '/' && s[i] != '\\' && s[i] != ':',
{
    let (stamp, random) = choose|stamp: Seq<char>, random: Seq<char>|
        {
            &&& s == #[trigger] id_text(prefix, stamp, random)
            &&& is_stamp(stamp)
            &&& random.len() == 32
            &&& forall|i: int| 0 <= i < random.len() ==> hex_char(#[trigger] random[i])
        };
    lemma_stamp_chars(stamp);
    assert forall|i: int| 0 <= i < s.len() implies s[i] != '/' && s[i] != '\\' && s[i] != ':' by {
        if i < prefix.len() {
            assert(s[i] == prefix[i]);
        } else if i < prefix.len() + stamp.len() {
            assert(s[i] == stamp[i - prefix.len()]);
        } else if i == prefix.len() + stamp.len() {
            assert(s[i] == '_');
        } else {
            assert(s[i] == random[i - prefix.len() - stamp.len() - 1]);
        }
    }
}

/// An id begins with its prefix and the stamp, and ends in six digits behind a `_`.
pub proof fn law_ids_are_put_together_in_order(
    prefix: Seq<char>,
    stamp: Seq<char>,
    random: Seq<char>,
)
    requires
        random.len() >= 6,
    ensures
        ({
            let s = id_text(prefix, stamp, random);
            &&& s.len() == prefix.len() + stamp.len() + 7
            &&& text::begins(s, prefix + stamp)
            &&& s[s.len() - 7] == '_'
            &&& forall|i: int| 0 <= i < 6 ==> s[s.len() - 6 + i] == #[trigger] random[i]
        }),
{
    let s = id_text(prefix, stamp, random);
    assert(s.take((prefix + stamp).len() as int) =~= prefix + stamp);
}

/// A stamp tells the day and the time down to the millisecond, each part in its place.
pub proof fn law_stamps_tell_the_time(
    y: int,
    mo: int,
    d: int,
    h: int,
    mi: int,
    s: int,
    ms: int,
)
    requires
        0 <= y <= 9999,
    ensures
        ({
            let t = stamp_of(y, mo, d, h, mi, s, ms);
            &&& t.len() == 18
            &&& t.subrange(0, 4) == datetime::four_digits(y)
            &&& t.subrange(4, 6) == datetime::two_digits(mo)
            &&& t.subrange(6, 8) == datetime::two_digits(d)
            &&& t[8] == 'T'
            &&& t.subrange(9, 11) == datetime::two_digits(h)
            &&& t.subrange(11, 13) == datetime::two_digits(mi)
            &&& t.subrange(13, 15) == datetime::two_digits(s)
            &&& t.subrange(15, 18) == datetime::three_digits(ms)
        }),
{
    let (a, b, c) = (
        datetime::four_digits(y),
        datetime::two_digits(mo),
        datetime::two_digits(d),
    );
    let (e, f, g, k) = (
        datetime::two_digits(h),
        datetime::two_digits(mi),
        datetime::two_digits(s),
        datetime::three_digits(ms),
    );
    lemma_in_place(a, b, c, e, f, g, k);
}

proof fn lemma_in_place(
    a: Seq<char>,
    b: Seq<char>,
    c: Seq<char>,
    e: Seq<char>,
    f: Seq<char>,
    g: Seq<char>,
    k: Seq<char>,
)
    requires
        a.len() == 4,
        b.len() == 2 && c.len() == 2 && e.len() == 2 && f.len() == 2 && g.len() == 2,
        k.len() == 3,
    ensures
        ({
            let t = a + b + c + seq!['T'] + e + f + g + k;
            &&& t.len() == 18
            &&& t.subrange(0, 4) == a
            &&& t.subrange(4, 6) == b
            &&& t.subrange(6, 8) == c
            &&& t[8] == 'T'
            &&& t.subrange(9, 11) == e
            &&& t.subrange(11, 13) == f
            &&& t.subrange(13, 15) == g
            &&& t.subrange(15, 18) == k
        }),
{
}

} // verus!
