//! Text as sequences of characters: the string operations the rest of the
//! library is written with, each with an exact contract over `Seq<char>`.
use vstd::prelude::*;

verus! {

broadcast use vstd::string::group_string_axioms;

// ---------------------------------------------------------------------------
// Trusted: what the standard library's strings do
// ---------------------------------------------------------------------------

/// `String::push` appends one character.
pub assume_specification[ String::push ](s: &mut String, c: char)
    ensures
        final(s)@ == old(s)@.push(c),
;

/// The text that `str::to_lowercase` makes of a text.
pub uninterp spec fn unicode_lowercase(s: Seq<char>) -> Seq<char>;

/// `str::to_lowercase`. The result is a function of the text; on ASCII text
/// it turns `A`..`Z` into `a`..`z` and keeps every other character.
#[verifier::external_body]
fn std_to_lowercase(s: &str) -> (r: String)
    ensures
        r@ == unicode_lowercase(s@),
        vstd::utf8::is_ascii_chars(s@) ==> r@ == ascii_lower(s@),
{
    s.to_lowercase()
}

/// The text that `char::to_uppercase` makes of a character.
pub uninterp spec fn unicode_uppercase(c: char) -> Seq<char>;

/// `char::to_uppercase`, its characters collected. The result is a function of
/// the character; an ASCII character gives one character, `A`..`Z` for
/// `a`..`z` and itself otherwise. Unicode's mapping of any other gives no line
/// feed.
#[verifier::external_body]
fn std_to_uppercase(c: char) -> (r: String)
    ensures
        r@ == unicode_uppercase(c),
        (c as u32) < 128 ==> r@ == seq![upper_char(c)],
        (c as u32) >= 128 ==> free_of(r@, '\n'),
{
    c.to_uppercase().collect()
}

/// Whether `char::is_alphanumeric` holds of a character.
pub uninterp spec fn unicode_alphanumeric(c: char) -> bool;

/// `char::is_alphanumeric`. The result is a function of the character; of the
/// ASCII characters it holds of the letters and the digits.
#[verifier::external_body]
fn std_is_alphanumeric(c: char) -> (r: bool)
    ensures
        r == unicode_alphanumeric(c),
        (c as u32) < 128 ==> r == (is_digit(c) || is_ascii_letter(c)),
{
    c.is_alphanumeric()
}

// ---------------------------------------------------------------------------
// Characters
// ---------------------------------------------------------------------------

/// A text as `{:?}` writes it: in quotes, with what is special escaped.
pub uninterp spec fn debug_text(s: Seq<char>) -> Seq<char>;

/// `Debug` of a text. It is a function of the text.
#[verifier::external_body]
pub(crate) fn std_debug(s: &str) -> (r: String)
    ensures
        r@ == debug_text(s@),
{
    format!("{:?}", s)
}

/// The Unicode `White_Space` property.
pub open spec fn is_space(c: char) -> bool {
    ||| 0x09 <= c as u32 <= 0x0D
    ||| c as u32 == 0x20
    ||| c as u32 == 0x85
    ||| c as u32 == 0xA0
    ||| c as u32 == 0x1680
    ||| 0x2000 <= c as u32 <= 0x200A
    ||| c as u32 == 0x2028
    ||| c as u32 == 0x2029
    ||| c as u32 == 0x202F
    ||| c as u32 == 0x205F
    ||| c as u32 == 0x3000
}

/// Whether `c` is white space.
pub fn is_whitespace(c: char) -> (r: bool)
    ensures
        r == is_space(c),
{
    let u: u32 = c as u32;
    (0x09 <= u && u <= 0x0D) || u == 0x20 || u == 0x85 || u == 0xA0 || u == 0x1680 || (0x2000 <= u
        && u <= 0x200A) || u == 0x2028 || u == 0x2029 || u == 0x202F || u == 0x205F || u == 0x3000
}

/// `0`..`9`.
pub open spec fn is_digit(c: char) -> bool {
    '0' <= c <= '9'
}

/// `a`..`z` and `A`..`Z`.
pub open spec fn is_ascii_letter(c: char) -> bool {
    ||| 'a' <= c <= 'z'
    ||| 'A' <= c <= 'Z'
}

/// `A`..`Z` in lower case, any other character unchanged.
pub open spec fn lower_char(c: char) -> char {
    if 'A' <= c <= 'Z' {
        (c as u32 + 32) as char
    } else {
        c
    }
}

/// `a`..`z` in upper case, any other character unchanged.
pub open spec fn upper_char(c: char) -> char {
    if 'a' <= c <= 'z' {
        (c as u32 - 32) as char
    } else {
        c
    }
}

/// Every character by [`lower_char`].
pub open spec fn ascii_lower(s: Seq<char>) -> Seq<char> {
    s.map_values(|c: char| lower_char(c))
}

/// The lower-case form of an ASCII letter; other characters as they are.
pub fn to_lower_char(c: char) -> (r: char)
    ensures
        r == lower_char(c),
{
    if 'A' <= c && c <= 'Z' {
        let n: u8 = c as u8;
        (n + 32) as char
    } else {
        c
    }
}

/// `s` in lower case: by the ASCII rule where it is ASCII text, by Unicode's
/// otherwise.
pub open spec fn lowercase(s: Seq<char>) -> Seq<char> {
    if vstd::utf8::is_ascii_chars(s) {
        ascii_lower(s)
    } else {
        unicode_lowercase(s)
    }
}

/// `s` in lower case.
pub fn to_lowercase(s: &str) -> (r: String)
    ensures
        r@ == lowercase(s@),
{
    std_to_lowercase(s)
}

/// `s` without its line feeds.
pub open spec fn without_feeds(s: Seq<char>) -> Seq<char>
    decreases s.len(),
{
    if s.len() == 0 {
        Seq::empty()
    } else if s.last() == '\n' {
        without_feeds(s.drop_last())
    } else {
        without_feeds(s.drop_last()).push(s.last())
    }
}

/// No line feed is left, and where there was none nothing is gone.
pub proof fn lemma_without_feeds(s: Seq<char>)
    ensures
        free_of(without_feeds(s), '\n'),
        free_of(s, '\n') ==> without_feeds(s) == s,
    decreases s.len(),
{
    if s.len() > 0 {
        let front = s.drop_last();
        lemma_without_feeds(front);
        if free_of(s, '\n') {
            assert(free_of(front, '\n')) by {
                assert forall|i: int| 0 <= i < front.len() implies front[i] != '\n' by {
                    assert(front[i] == s[i]);
                }
            }
            assert(s.last() != '\n');
            assert(without_feeds(s) =~= s);
        }
    }
}

/// `c` in upper case: by the ASCII rule for an ASCII character, by Unicode's
/// otherwise, which makes no line feed.
pub open spec fn uppercase_of(c: char) -> Seq<char> {
    if (c as u32) < 128 {
        seq![upper_char(c)]
    } else {
        without_feeds(unicode_uppercase(c))
    }
}

/// `c` in upper case, which may take several characters.
pub fn to_uppercase_char(c: char) -> (r: String)
    ensures
        r@ == uppercase_of(c),
{
    proof {
        lemma_without_feeds(unicode_uppercase(c));
    }
    std_to_uppercase(c)
}

/// `c` is a letter or a digit; of the ASCII characters just those.
pub open spec fn alphanumeric(c: char) -> bool {
    if (c as u32) < 128 {
        is_digit(c) || is_ascii_letter(c)
    } else {
        unicode_alphanumeric(c)
    }
}

/// Whether `c` is a letter or a digit.
pub fn is_alphanumeric(c: char) -> (r: bool)
    ensures
        r == alphanumeric(c),
{
    std_is_alphanumeric(c)
}

// ---------------------------------------------------------------------------
// Conversions
// ---------------------------------------------------------------------------

/// The views of a list of strings.
pub open spec fn texts(v: Seq<String>) -> Seq<Seq<char>> {
    v.map_values(|s: String| s@)
}

/// One string more in the list is one text more.
pub proof fn lemma_texts_push(v: Seq<String>, s: String)
    ensures
        texts(v.push(s)) == texts(v).push(s@),
{
    assert(texts(v.push(s)) =~= texts(v).push(s@));
}

/// The view of an optional string.
pub open spec fn opt_text(o: Option<String>) -> Option<Seq<char>> {
    match o {
        Some(s) => Some(s@),
        None => None,
    }
}

/// The view of an optional borrowed string.
pub open spec fn opt_str(o: Option<&str>) -> Option<Seq<char>> {
    match o {
        Some(s) => Some(s@),
        None => None,
    }
}

/// The characters of a string, in order.
pub fn chars_of(s: &str) -> (r: Vec<char>)
    ensures
        r@ == s@,
{
    let mut out: Vec<char> = Vec::new();
    for c in it: s.chars()
        invariant
            out@ == it.seq().take(it.index() as int),
            it.seq() == s@,
    {
        out.push(c);
    }
    out
}

/// The string with the given characters.
pub fn string_of(cs: &[char]) -> (r: String)
    ensures
        r@ == cs@,
{
    let mut out: String = String::new();
    let n: usize = cs.len();
    let mut i: usize = 0;
    while i < n
        invariant
            n == cs@.len(),
            i <= n,
            out@ == cs@.take(i as int),
        decreases n - i,
    {
        out.push(cs[i]);
        i += 1;
        assert(cs@.take(i as int) =~= cs@.take(i - 1).push(cs@[i - 1]));
    }
    assert(cs@.take(n as int) =~= cs@);
    out
}

/// `s` in lower case, as far as ASCII letters go.
pub fn to_ascii_lower(s: &str) -> (r: String)
    ensures
        r@ == ascii_lower(s@),
{
    let cs = chars_of(s);
    let mut out: String = String::new();
    let mut i: usize = 0;
    while i < cs.len()
        invariant
            cs@ == s@,
            i <= cs.len(),
            out@ == ascii_lower(s@).take(i as int),
        decreases cs.len() - i,
    {
        out.push(to_lower_char(cs[i]));
        i += 1;
        assert(ascii_lower(s@).take(i as int) =~= ascii_lower(s@).take(i - 1).push(
            lower_char(s@[i - 1]),
        ));
    }
    assert(ascii_lower(s@).take(i as int) =~= ascii_lower(s@));
    out
}

/// Whether two strings are the same text.
pub fn same(a: &str, b: &str) -> (r: bool)
    ensures
        r == (a@ == b@),
{
    let x = chars_of(a);
    let y = chars_of(b);
    if x.len() != y.len() {
        return false;
    }
    let mut i: usize = 0;
    while i < x.len()
        invariant
            x@ == a@,
            y@ == b@,
            x.len() == y.len(),
            i <= x.len(),
            forall|k: int| 0 <= k < i ==> x@[k] == y@[k],
        decreases x.len() - i,
    {
        if x[i] != y[i] {
            return false;
        }
        i += 1;
    }
    assert(a@ =~= b@);
    true
}

/// Whether two strings are the same text but for the case of ASCII letters:
/// `str::eq_ignore_ascii_case`.
pub fn same_ignoring_case(a: &str, b: &str) -> (r: bool)
    ensures
        r == (ascii_lower(a@) == ascii_lower(b@)),
{
    let x = to_ascii_lower(a);
    let y = to_ascii_lower(b);
    same(x.as_str(), y.as_str())
}

/// A copy of a list of texts.
pub fn copy_list(list: &Vec<String>) -> (r: Vec<String>)
    ensures
        texts(r@) == texts(list@),
        r@ == list@,
{
    let r = list.clone();
    assert(r@ =~= list@);
    r
}

/// Whether `s` is one of `list`.
pub fn list_has(list: &Vec<String>, s: &str) -> (r: bool)
    ensures
        r == texts(list@).contains(s@),
{
    let mut i: usize = 0;
    while i < list.len()
        invariant
            i <= list.len(),
            forall|k: int| 0 <= k < i ==> list@[k]@ != s@,
        decreases list.len() - i,
    {
        if same(list[i].as_str(), s) {
            assert(texts(list@)[i as int] == s@);
            return true;
        }
        i += 1;
    }
    assert forall|k: int| 0 <= k < texts(list@).len() implies texts(list@)[k] != s@ by {
        assert(texts(list@)[k] == list@[k]@);
    }
    false
}

/// `a` comes before `b`: in the order of code points, which is the order of
/// their UTF-8 bytes.
pub open spec fn before(a: Seq<char>, b: Seq<char>) -> bool
    decreases a.len(),
{
    if b.len() == 0 {
        false
    } else if a.len() == 0 {
        true
    } else if a[0] != b[0] {
        a[0] < b[0]
    } else {
        before(a.drop_first(), b.drop_first())
    }
}

/// The order is one of all texts: of two, one is before the other or they are
/// the same, and what is not after what is not after is not after.
pub proof fn lemma_before_order(a: Seq<char>, b: Seq<char>, c: Seq<char>)
    ensures
        !before(a, b) && !before(b, a) ==> a == b,
        !before(b, a) && !before(c, b) ==> !before(c, a),
    decreases a.len() + b.len() + c.len(),
{
    if a.len() > 0 && b.len() > 0 && c.len() > 0 {
        lemma_before_order(a.drop_first(), b.drop_first(), c.drop_first());
        if a[0] == b[0] && a.drop_first() == b.drop_first() {
            assert(a =~= seq![a[0]] + a.drop_first());
            assert(b =~= seq![b[0]] + b.drop_first());
        }
    } else if a.len() > 0 && b.len() > 0 {
        lemma_before_order(a.drop_first(), b.drop_first(), c);
        if a[0] == b[0] && a.drop_first() == b.drop_first() {
            assert(a =~= seq![a[0]] + a.drop_first());
            assert(b =~= seq![b[0]] + b.drop_first());
        }
    } else if a.len() == 0 && b.len() == 0 {
        assert(a =~= b);
    }
}

/// Whether `a` comes before `b`: `str` order.
pub fn comes_before(a: &str, b: &str) -> (r: bool)
    ensures
        r == before(a@, b@),
{
    let x = chars_of(a);
    let y = chars_of(b);
    let mut i: usize = 0;
    assert(a@.skip(0) =~= a@);
    assert(b@.skip(0) =~= b@);
    while i < x.len() && i < y.len()
        invariant
            x@ == a@,
            y@ == b@,
            i <= x.len(),
            i <= y.len(),
            before(a@, b@) == before(a@.skip(i as int), b@.skip(i as int)),
        decreases x.len() - i,
    {
        assert(a@.skip(i as int)[0] == x@[i as int]);
        assert(b@.skip(i as int)[0] == y@[i as int]);
        if x[i] != y[i] {
            return x[i] < y[i];
        }
        assert(a@.skip(i as int).drop_first() =~= a@.skip(i + 1));
        assert(b@.skip(i as int).drop_first() =~= b@.skip(i + 1));
        i += 1;
    }
    i < y.len()
}

// ---------------------------------------------------------------------------
// Trimming
// ---------------------------------------------------------------------------

/// `s` without the white space it begins with.
pub open spec fn trimmed_start(s: Seq<char>) -> Seq<char>
    decreases s.len(),
{
    if s.len() > 0 && is_space(s[0]) {
        trimmed_start(s.drop_first())
    } else {
        s
    }
}

/// `s` without the white space it ends with.
pub open spec fn trimmed_end(s: Seq<char>) -> Seq<char>
    decreases s.len(),
{
    if s.len() > 0 && is_space(s.last()) {
        trimmed_end(s.drop_last())
    } else {
        s
    }
}

/// `s` without the white space around it.
pub open spec fn trimmed(s: Seq<char>) -> Seq<char> {
    trimmed_end(trimmed_start(s))
}

/// `str::trim_start`.
pub fn trim_start<'a>(s: &'a str) -> (r: &'a str)
    ensures
        r@ == trimmed_start(s@),
{
    let cs = chars_of(s);
    let mut i: usize = 0;
    assert(s@.skip(0) =~= s@);
    while i < cs.len() && is_whitespace(cs[i])
        invariant
            cs@ == s@,
            i <= cs.len(),
            trimmed_start(s@) == trimmed_start(s@.skip(i as int)),
        decreases cs.len() - i,
    {
        assert(s@.skip(i as int).drop_first() =~= s@.skip(i + 1));
        i += 1;
    }
    assert(s@.subrange(i as int, s@.len() as int) =~= s@.skip(i as int));
    s.substring_char(i, cs.len())
}

/// `str::trim_end`.
pub fn trim_end<'a>(s: &'a str) -> (r: &'a str)
    ensures
        r@ == trimmed_end(s@),
{
    let cs = chars_of(s);
    let mut i: usize = cs.len();
    assert(s@.take(s@.len() as int) =~= s@);
    while i > 0 && is_whitespace(cs[i - 1])
        invariant
            cs@ == s@,
            i <= cs.len(),
            trimmed_end(s@) == trimmed_end(s@.take(i as int)),
        decreases i,
    {
        assert(s@.take(i as int).drop_last() =~= s@.take(i - 1));
        i -= 1;
    }
    assert(s@.subrange(0, i as int) =~= s@.take(i as int));
    s.substring_char(0, i)
}

/// `str::trim`.
pub fn trim<'a>(s: &'a str) -> (r: &'a str)
    ensures
        r@ == trimmed(s@),
{
    trim_end(trim_start(s))
}

/// Trimming twice is trimming once.
pub proof fn lemma_trimmed_twice(s: Seq<char>)
    ensures
        trimmed(trimmed(s)) == trimmed(s),
{
    let a = trimmed_start(s);
    lemma_trimmed_start_first(s);
    let t = trimmed_end(a);
    lemma_trimmed_end_last(a);
    assert(t.len() > 0 ==> t[0] == a[0]);
}

proof fn lemma_trimmed_start_first(s: Seq<char>)
    ensures
        trimmed_start(s).len() > 0 ==> !is_space(trimmed_start(s)[0]),
    decreases s.len(),
{
    if s.len() > 0 && is_space(s[0]) {
        lemma_trimmed_start_first(s.drop_first());
    }
}

proof fn lemma_trimmed_end_last(s: Seq<char>)
    ensures
        trimmed_end(s).len() <= s.len(),
        trimmed_end(s).len() > 0 ==> !is_space(trimmed_end(s).last()) && trimmed_end(s)[0] == s[0],
    decreases s.len(),
{
    if s.len() > 0 && is_space(s.last()) {
        lemma_trimmed_end_last(s.drop_last());
    }
}

/// `s` without the copies of `c` it ends with.
pub open spec fn trimmed_end_of(s: Seq<char>, c: char) -> Seq<char>
    decreases s.len(),
{
    if s.len() > 0 && s.last() == c {
        trimmed_end_of(s.drop_last(), c)
    } else {
        s
    }
}

/// `str::trim_end_matches` with one character.
pub fn trim_end_char<'a>(s: &'a str, c: char) -> (r: &'a str)
    ensures
        r@ == trimmed_end_of(s@, c),
{
    let cs = chars_of(s);
    let mut i: usize = cs.len();
    assert(s@.take(s@.len() as int) =~= s@);
    while i > 0 && cs[i - 1] == c
        invariant
            cs@ == s@,
            i <= cs.len(),
            trimmed_end_of(s@, c) == trimmed_end_of(s@.take(i as int), c),
        decreases i,
    {
        assert(s@.take(i as int).drop_last() =~= s@.take(i - 1));
        i -= 1;
    }
    assert(s@.subrange(0, i as int) =~= s@.take(i as int));
    s.substring_char(0, i)
}

/// `s` without those characters of `set` that it begins with.
pub open spec fn trimmed_start_any(s: Seq<char>, set: Seq<char>) -> Seq<char>
    decreases s.len(),
{
    if s.len() > 0 && set.contains(s[0]) {
        trimmed_start_any(s.drop_first(), set)
    } else {
        s
    }
}

/// `s` without those characters of `set` that it ends with.
pub open spec fn trimmed_end_any(s: Seq<char>, set: Seq<char>) -> Seq<char>
    decreases s.len(),
{
    if s.len() > 0 && set.contains(s.last()) {
        trimmed_end_any(s.drop_last(), set)
    } else {
        s
    }
}

/// Whether a character is in a set.
pub fn among(c: char, set: &[char]) -> (r: bool)
    ensures
        r == set@.contains(c),
{
    let mut i: usize = 0;
    while i < set.len()
        invariant
            i <= set.len(),
            forall|j: int| 0 <= j < i ==> set@[j] != c,
        decreases set.len() - i,
    {
        if set[i] == c {
            assert(set@[i as int] == c);
            return true;
        }
        i += 1;
    }
    false
}

/// `str::trim_start_matches` with a set of characters.
pub fn trim_start_any<'a>(s: &'a str, set: &[char]) -> (r: &'a str)
    ensures
        r@ == trimmed_start_any(s@, set@),
{
    let cs = chars_of(s);
    let mut i: usize = 0;
    assert(s@.skip(0) =~= s@);
    while i < cs.len() && among(cs[i], set)
        invariant
            cs@ == s@,
            i <= cs.len(),
            trimmed_start_any(s@, set@) == trimmed_start_any(s@.skip(i as int), set@),
        decreases cs.len() - i,
    {
        assert(s@.skip(i as int).drop_first() =~= s@.skip(i + 1));
        i += 1;
    }
    assert(s@.subrange(i as int, s@.len() as int) =~= s@.skip(i as int));
    s.substring_char(i, cs.len())
}

/// `str::trim_end_matches` with a set of characters.
pub fn trim_end_any<'a>(s: &'a str, set: &[char]) -> (r: &'a str)
    ensures
        r@ == trimmed_end_any(s@, set@),
{
    let cs = chars_of(s);
    let mut i: usize = cs.len();
    assert(s@.take(s@.len() as int) =~= s@);
    while i > 0 && among(cs[i - 1], set)
        invariant
            cs@ == s@,
            i <= cs.len(),
            trimmed_end_any(s@, set@) == trimmed_end_any(s@.take(i as int), set@),
        decreases i,
    {
        assert(s@.take(i as int).drop_last() =~= s@.take(i - 1));
        i -= 1;
    }
    assert(s@.subrange(0, i as int) =~= s@.take(i as int));
    s.substring_char(0, i)
}

/// How many characters `s` begins with that are no white space.
pub open spec fn word_len(s: Seq<char>) -> nat
    decreases s.len(),
{
    if s.len() == 0 || is_space(s[0]) {
        0
    } else {
        1 + word_len(s.drop_first())
    }
}

proof fn lemma_word_len(s: Seq<char>)
    ensures
        word_len(s) <= s.len(),
        s.len() > 0 && !is_space(s[0]) ==> word_len(s) > 0,
    decreases s.len(),
{
    if s.len() > 0 && !is_space(s[0]) {
        lemma_word_len(s.drop_first());
    }
}

proof fn lemma_trimmed_start_len(s: Seq<char>)
    ensures
        trimmed_start(s).len() <= s.len(),
    decreases s.len(),
{
    if s.len() > 0 && is_space(s[0]) {
        lemma_trimmed_start_len(s.drop_first());
    }
}

/// The words of a text: what stands between its white space.
pub open spec fn words_of(s: Seq<char>) -> Seq<Seq<char>>
    decreases s.len(),
    via words_of_decreases
{
    let t = trimmed_start(s);
    if t.len() == 0 {
        Seq::empty()
    } else {
        let n = word_len(t) as int;
        seq![t.take(n)] + words_of(t.skip(n))
    }
}

#[via_fn]
proof fn words_of_decreases(s: Seq<char>) {
    let t = trimmed_start(s);
    lemma_trimmed_start_len(s);
    lemma_trimmed_start_first(s);
    lemma_word_len(t);
}

/// A word is not empty.
pub proof fn lemma_words(s: Seq<char>)
    requires
        words_of(s).len() > 0,
    ensures
        words_of(s)[0].len() > 0,
{
    let t = trimmed_start(s);
    lemma_trimmed_start_first(s);
    lemma_word_len(t);
}

/// `str::split_whitespace`.
pub fn words(s: &str) -> (r: Vec<String>)
    ensures
        texts(r@) == words_of(s@),
{
    let mut out: Vec<String> = Vec::new();
    let mut rest = trim_start(s);
    proof {
        lemma_trimmed_start_twice(s@);
    }
    assert(texts(out@) + words_of(rest@) =~= words_of(s@));
    while !rest.is_empty()
        invariant
            texts(out@) + words_of(rest@) == words_of(s@),
            trimmed_start(rest@) == rest@,
        decreases rest@.len(),
    {
        let cs = chars_of(rest);
        let mut n: usize = 0;
        assert(rest@.skip(0) =~= rest@);
        while n < cs.len() && !is_whitespace(cs[n])
            invariant
                cs@ == rest@,
                n <= cs.len(),
                word_len(rest@) == n + word_len(rest@.skip(n as int)),
            decreases cs.len() - n,
        {
            assert(rest@.skip(n as int).drop_first() =~= rest@.skip(n + 1));
            n += 1;
        }
        proof {
            lemma_trimmed_start_first(rest@);
            lemma_word_len(rest@);
            assert(rest@.subrange(0, n as int) =~= rest@.take(n as int));
            assert(rest@.subrange(n as int, rest@.len() as int) =~= rest@.skip(n as int));
        }
        let word = rest.substring_char(0, n).to_owned();
        let tail = rest.substring_char(n, cs.len());
        let ghost so_far = texts(out@);
        let next = trim_start(tail);
        proof {
            lemma_texts_push(out@, word);
            lemma_trimmed_start_twice(tail@);
            lemma_trimmed_start_len(tail@);
            assert(words_of(rest@) == seq![word@] + words_of(tail@));
            assert(words_of(next@) == words_of(tail@));
            assert(so_far + (seq![word@] + words_of(tail@)) =~= so_far.push(word@) + words_of(
                tail@,
            ));
        }
        out.push(word);
        rest = next;
    }
    proof {
        assert(rest@.len() == 0);
        assert(texts(out@) + words_of(rest@) =~= texts(out@));
    }
    out
}

proof fn lemma_trimmed_start_twice(s: Seq<char>)
    ensures
        trimmed_start(trimmed_start(s)) == trimmed_start(s),
    decreases s.len(),
{
    lemma_trimmed_start_first(s);
}

/// The number of bytes of a text in UTF-8.
pub open spec fn bytes_of(s: Seq<char>) -> nat {
    vstd::utf8::encode_utf8(s).len()
}

/// The number of bytes of a character in UTF-8.
pub open spec fn char_bytes(c: char) -> nat {
    let u = c as u32;
    if u < 0x80 {
        1
    } else if u < 0x800 {
        2
    } else if u < 0x10000 {
        3
    } else {
        4
    }
}

/// One character more at the front is its bytes more.
pub proof fn lemma_bytes_first(s: Seq<char>)
    requires
        s.len() > 0,
    ensures
        bytes_of(s) == char_bytes(s[0]) + bytes_of(s.drop_first()),
{
    lemma_char_bytes(s[0]);
}

proof fn lemma_char_bytes(c: char)
    ensures
        vstd::utf8::encode_scalar(c as u32).len() == char_bytes(c),
{
    vstd::utf8::char_is_scalar(c);
}

/// The bytes of two texts together are the bytes of both.
pub proof fn lemma_bytes_concat(a: Seq<char>, b: Seq<char>)
    ensures
        bytes_of(a + b) == bytes_of(a) + bytes_of(b),
    decreases a.len(),
{
    if a.len() == 0 {
        assert(a + b =~= b);
    } else {
        lemma_bytes_first(a);
        lemma_bytes_first(a + b);
        assert((a + b).drop_first() =~= a.drop_first() + b);
        lemma_bytes_concat(a.drop_first(), b);
    }
}

/// A text has at least as many bytes as characters, and at most four times as many.
pub proof fn lemma_bytes_bounds(s: Seq<char>)
    ensures
        s.len() <= bytes_of(s) <= 4 * s.len(),
    decreases s.len(),
{
    if s.len() > 0 {
        lemma_bytes_first(s);
        lemma_bytes_bounds(s.drop_first());
    }
}

/// `str::len`: the number of bytes.
pub fn byte_len(s: &str) -> (r: usize)
    ensures
        r == bytes_of(s@),
{
    s.as_bytes().len()
}

/// How many characters of `s`, from the front, fit in `n` bytes.
pub open spec fn fitting(s: Seq<char>, n: int) -> nat
    decreases s.len(),
{
    if s.len() == 0 || char_bytes(s[0]) > n {
        0
    } else {
        1 + fitting(s.drop_first(), n - char_bytes(s[0]))
    }
}

/// What fits does fit, and one character more would not.
pub proof fn lemma_fitting(s: Seq<char>, n: int)
    ensures
        fitting(s, n) <= s.len(),
        0 <= n ==> bytes_of(s.take(fitting(s, n) as int)) <= n,
        0 <= n && fitting(s, n) < s.len() ==> bytes_of(s.take(fitting(s, n) as int + 1)) > n,
    decreases s.len(),
{
    if s.len() == 0 || char_bytes(s[0]) > n {
        assert(s.take(0) =~= Seq::<char>::empty());
        if s.len() > 0 && 0 <= n {
            lemma_bytes_first(s.take(1));
        }
    } else {
        let t = s.drop_first();
        let m = n - char_bytes(s[0]);
        lemma_fitting(t, m);
        let k = fitting(t, m) as int;
        lemma_bytes_first(s.take(k + 1));
        assert(s.take(k + 1).drop_first() =~= t.take(k));
        if k < t.len() {
            lemma_bytes_first(s.take(k + 2));
            assert(s.take(k + 2).drop_first() =~= t.take(k + 1));
        }
    }
}

/// The number of bytes of a character.
pub fn char_len(c: char) -> (r: usize)
    ensures
        r == char_bytes(c),
{
    let u: u32 = c as u32;
    if u < 0x80 {
        1
    } else if u < 0x800 {
        2
    } else if u < 0x10000 {
        3
    } else {
        4
    }
}

/// How many characters, from `start` on, fit in `n` bytes.
pub fn fit(cs: &[char], start: usize, n: usize) -> (r: usize)
    requires
        start <= cs@.len(),
    ensures
        r == fitting(cs@.skip(start as int), n as int),
        start + r <= cs@.len(),
{
    let mut i: usize = start;
    let mut room: usize = n;
    while i < cs.len() && char_len(cs[i]) <= room
        invariant
            start <= i <= cs.len(),
            fitting(cs@.skip(start as int), n as int) == (i - start) + fitting(
                cs@.skip(i as int),
                room as int,
            ),
        decreases cs.len() - i,
    {
        assert(cs@.skip(i as int).drop_first() =~= cs@.skip(i + 1));
        room -= char_len(cs[i]);
        i += 1;
    }
    i - start
}

/// The first `n` characters, or all of them.
pub open spec fn first_chars(s: Seq<char>, n: int) -> Seq<char> {
    if s.len() <= n {
        s
    } else {
        s.take(n)
    }
}

/// `str::chars` and `take`: the first `n` characters.
pub fn take_chars<'a>(s: &'a str, n: usize) -> (r: &'a str)
    ensures
        r@ == first_chars(s@, n as int),
{
    let len = s.unicode_len();
    if len <= n {
        s
    } else {
        assert(s@.subrange(0, n as int) =~= s@.take(n as int));
        s.substring_char(0, n)
    }
}

/// A decimal digit.
pub open spec fn digit_char(n: int) -> char {
    (48 + n) as char
}

/// A number in decimal digits.
pub open spec fn decimal_text(n: nat) -> Seq<char>
    decreases n,
{
    if n < 10 {
        seq![digit_char(n as int)]
    } else {
        decimal_text(n / 10).push(digit_char((n % 10) as int))
    }
}

/// A number in decimal digits.
pub fn decimal(n: u64) -> (r: String)
    ensures
        r@ == decimal_text(n as nat),
    decreases n,
{
    let d: u8 = (n % 10) as u8;
    let c: char = (48 + d) as char;
    if n < 10 {
        let mut s = String::new();
        s.push(c);
        assert(s@ =~= seq![digit_char(n as int)]);
        s
    } else {
        let mut s = decimal(n / 10);
        s.push(c);
        s
    }
}

/// Different numbers have different digits.
pub proof fn lemma_decimal_injective(a: nat, b: nat)
    requires
        decimal_text(a) == decimal_text(b),
    ensures
        a == b,
    decreases a,
{
    lemma_decimal_len(a);
    lemma_decimal_len(b);
    if a < 10 && b < 10 {
        assert(decimal_text(a)[0] == digit_char(a as int));
        assert(decimal_text(b)[0] == digit_char(b as int));
        lemma_digit_char(a as int, b as int);
    } else if a >= 10 && b >= 10 {
        assert(decimal_text(a).drop_last() =~= decimal_text(a / 10));
        assert(decimal_text(b).drop_last() =~= decimal_text(b / 10));
        assert(decimal_text(a).last() == digit_char((a % 10) as int));
        assert(decimal_text(b).last() == digit_char((b % 10) as int));
        lemma_digit_char((a % 10) as int, (b % 10) as int);
        lemma_decimal_injective(a / 10, b / 10);
    } else {
        assert(a < 10 ==> decimal_text(a).len() == 1);
        assert(b < 10 ==> decimal_text(b).len() == 1);
    }
}

proof fn lemma_digit_char(a: int, b: int)
    requires
        0 <= a < 10,
        0 <= b < 10,
        digit_char(a) == digit_char(b),
    ensures
        a == b,
{
}

proof fn lemma_decimal_len(n: nat)
    ensures
        decimal_text(n).len() >= 1,
        n >= 10 ==> decimal_text(n).len() >= 2,
    decreases n,
{
    if n >= 10 {
        lemma_decimal_len(n / 10);
    }
}

// ---------------------------------------------------------------------------
// Replacing
// ---------------------------------------------------------------------------

/// `s` with `to` in place of every `from`.
pub open spec fn with_char_replaced(s: Seq<char>, from: char, to: char) -> Seq<char> {
    s.map_values(
        |c: char|
            if c == from {
                to
            } else {
                c
            },
    )
}

/// `str::replace` of one character by one character.
pub fn replace_char(s: &str, from: char, to: char) -> (r: String)
    ensures
        r@ == with_char_replaced(s@, from, to),
{
    let cs = chars_of(s);
    let mut out: String = String::new();
    let mut i: usize = 0;
    while i < cs.len()
        invariant
            cs@ == s@,
            i <= cs.len(),
            out@ =~= with_char_replaced(s@, from, to).take(i as int),
        decreases cs.len() - i,
    {
        let c: char = cs[i];
        out.push(
            if c == from {
                to
            } else {
                c
            },
        );
        i += 1;
    }
    assert(out@ =~= with_char_replaced(s@, from, to));
    out
}

// ---------------------------------------------------------------------------
// Searching
// ---------------------------------------------------------------------------

/// `needle` stands in `hay` at position `i`.
pub open spec fn occurs_at(hay: Seq<char>, needle: Seq<char>, i: int) -> bool {
    &&& 0 <= i
    &&& i + needle.len() <= hay.len()
    &&& hay.subrange(i, i + needle.len()) == needle
}

/// The first position at or after `i` where `needle` stands in `hay`.
pub open spec fn found_from(hay: Seq<char>, needle: Seq<char>, i: int) -> Option<int>
    decreases hay.len() - i + 1,
{
    if i + needle.len() > hay.len() {
        None
    } else if occurs_at(hay, needle, i) {
        Some(i)
    } else {
        found_from(hay, needle, i + 1)
    }
}

/// The first position where `needle` stands in `hay`.
pub open spec fn found(hay: Seq<char>, needle: Seq<char>) -> Option<int> {
    found_from(hay, needle, 0)
}

/// `needle` stands somewhere in `hay`.
pub open spec fn has_text(hay: Seq<char>, needle: Seq<char>) -> bool {
    found(hay, needle) is Some
}

/// `found_from` answers with the least position, and misses none.
pub proof fn lemma_found_from(hay: Seq<char>, needle: Seq<char>, i: int)
    requires
        0 <= i,
    ensures
        match found_from(hay, needle, i) {
            Some(p) => i <= p && occurs_at(hay, needle, p) && (forall|q: int|
                i <= q < p ==> !#[trigger] occurs_at(hay, needle, q)),
            None => forall|q: int| i <= q ==> !#[trigger] occurs_at(hay, needle, q),
        },
    decreases hay.len() - i + 1,
{
    if i + needle.len() > hay.len() {
    } else if occurs_at(hay, needle, i) {
    } else {
        lemma_found_from(hay, needle, i + 1);
        assert forall|q: int|
            i <= q && (match found_from(hay, needle, i + 1) {
                Some(p) => q < p,
                None => true,
            }) implies !#[trigger] occurs_at(hay, needle, q) by {
            if q > i {
            }
        }
    }
}

/// A position is the first one exactly if `needle` stands there and nowhere before.
pub proof fn lemma_found_is(hay: Seq<char>, needle: Seq<char>, p: int)
    requires
        occurs_at(hay, needle, p),
        forall|q: int| 0 <= q < p ==> !#[trigger] occurs_at(hay, needle, q),
    ensures
        found(hay, needle) == Some(p),
{
    lemma_found_from(hay, needle, 0);
    match found(hay, needle) {
        Some(f) => {
            if f < p {
                assert(!occurs_at(hay, needle, f));
            }
        },
        None => {
            assert(!occurs_at(hay, needle, p));
        },
    }
}

/// Whether `needle` stands in `hay` at `i`.
pub fn slice_occurs_at(hay: &[char], needle: &[char], i: usize) -> (r: bool)
    ensures
        r == occurs_at(hay@, needle@, i as int),
{
    if needle.len() > hay.len() || i > hay.len() - needle.len() {
        return false;
    }
    let mut k: usize = 0;
    while k < needle.len()
        invariant
            i + needle.len() <= hay.len(),
            k <= needle.len(),
            forall|j: int| 0 <= j < k ==> hay@[i + j] == needle@[j],
        decreases needle.len() - k,
    {
        if hay[i + k] != needle[k] {
            assert(hay@.subrange(i as int, i + needle@.len())[k as int] != needle@[k as int]);
            return false;
        }
        k += 1;
    }
    assert(hay@.subrange(i as int, i + needle@.len()) =~= needle@);
    true
}

/// The first place of `needle` in `hay`, at or after `start`.
pub fn slice_find_from(hay: &[char], needle: &[char], start: usize) -> (r: Option<usize>)
    requires
        start <= hay@.len(),
    ensures
        match r {
            Some(p) => found_from(hay@, needle@, start as int) == Some(p as int),
            None => found_from(hay@, needle@, start as int) is None,
        },
{
    let mut i: usize = start;
    while needle.len() <= hay.len() && i <= hay.len() - needle.len()
        invariant
            start <= i <= hay@.len() + 1,
            found_from(hay@, needle@, start as int) == found_from(hay@, needle@, i as int),
        decreases hay@.len() + 1 - i,
    {
        if slice_occurs_at(hay, needle, i) {
            return Some(i);
        }
        assert(needle@.len() > 0) by {
            if needle@.len() == 0 {
                assert(hay@.subrange(i as int, i as int) =~= needle@);
            }
        }
        i += 1;
    }
    None
}

/// `str::find`, counted in characters.
pub fn find(hay: &str, needle: &str) -> (r: Option<usize>)
    ensures
        match r {
            Some(p) => found(hay@, needle@) == Some(p as int) && p + needle@.len() <= hay@.len(),
            None => found(hay@, needle@) is None,
        },
{
    let h = chars_of(hay);
    let n = chars_of(needle);
    proof {
        lemma_found_from(hay@, needle@, 0);
    }
    slice_find_from(h.as_slice(), n.as_slice(), 0)
}

/// `str::contains`.
pub fn contains(hay: &str, needle: &str) -> (r: bool)
    ensures
        r == has_text(hay@, needle@),
{
    find(hay, needle).is_some()
}

/// The position of the first `c` in `s`, if any.
pub open spec fn index_of(s: Seq<char>, c: char) -> Option<int>
    decreases s.len(),
{
    if s.len() == 0 {
        None
    } else if s[0] == c {
        Some(0)
    } else {
        match index_of(s.drop_first(), c) {
            Some(i) => Some(i + 1),
            None => None,
        }
    }
}

/// `index_of` answers with the least position, and misses none.
pub proof fn lemma_index_of(s: Seq<char>, c: char)
    ensures
        match index_of(s, c) {
            Some(p) => 0 <= p < s.len() && s[p] == c && (forall|q: int| 0 <= q < p ==> s[q] != c),
            None => forall|q: int| 0 <= q < s.len() ==> s[q] != c,
        },
    decreases s.len(),
{
    if s.len() > 0 && s[0] != c {
        let t = s.drop_first();
        lemma_index_of(t, c);
        assert forall|q: int| 1 <= q < s.len() implies s[q] == t[q - 1] by {}
    }
}

/// A position with `c`, before which there is no `c`, is what `index_of` answers with.
pub proof fn lemma_index_of_is(s: Seq<char>, c: char, p: int)
    requires
        0 <= p < s.len(),
        s[p] == c,
        forall|q: int| 0 <= q < p ==> s[q] != c,
    ensures
        index_of(s, c) == Some(p),
{
    lemma_index_of(s, c);
}

/// The position of the first `c` in `s`, counted in characters.
pub fn find_char(s: &[char], c: char) -> (r: Option<usize>)
    ensures
        match r {
            Some(p) => index_of(s@, c) == Some(p as int) && p < s@.len(),
            None => index_of(s@, c) is None,
        },
{
    let mut i: usize = 0;
    while i < s.len()
        invariant
            i <= s@.len(),
            forall|q: int| 0 <= q < i ==> s@[q] != c,
        decreases s@.len() - i,
    {
        if s[i] == c {
            proof {
                lemma_index_of_is(s@, c, i as int);
            }
            return Some(i);
        }
        i += 1;
    }
    proof {
        lemma_index_of(s@, c);
    }
    None
}

/// Where `c` stands last in `s`.
pub open spec fn last_index_of(s: Seq<char>, c: char) -> Option<int>
    decreases s.len(),
{
    if s.len() == 0 {
        None
    } else if s.last() == c {
        Some(s.len() - 1)
    } else {
        last_index_of(s.drop_last(), c)
    }
}

/// Where `c` stands last in `s`.
pub fn find_last_char(s: &[char], c: char) -> (r: Option<usize>)
    ensures
        match r {
            Some(i) => last_index_of(s@, c) == Some(i as int) && i < s@.len() && s@[i as int] == c,
            None => last_index_of(s@, c) is None,
        },
{
    let mut i: usize = s.len();
    assert(s@.take(i as int) =~= s@);
    while i > 0
        invariant
            i <= s.len(),
            last_index_of(s@, c) == last_index_of(s@.take(i as int), c),
        decreases i,
    {
        assert(s@.take(i as int).last() == s@[i - 1]);
        assert(s@.take(i as int).drop_last() =~= s@.take(i - 1));
        if s[i - 1] == c {
            return Some(i - 1);
        }
        i -= 1;
    }
    None
}

/// `s` begins with `p`.
pub open spec fn begins(s: Seq<char>, p: Seq<char>) -> bool {
    p.len() <= s.len() && s.take(p.len() as int) == p
}

/// `s` ends with `p`.
pub open spec fn ends(s: Seq<char>, p: Seq<char>) -> bool {
    p.len() <= s.len() && s.skip(s.len() - p.len()) == p
}

/// `str::starts_with`.
pub fn starts_with(s: &str, p: &str) -> (r: bool)
    ensures
        r == begins(s@, p@),
{
    let h = chars_of(s);
    let n = chars_of(p);
    assert(p@.len() <= s@.len() ==> s@.subrange(0, p@.len() as int) =~= s@.take(p@.len() as int));
    slice_occurs_at(h.as_slice(), n.as_slice(), 0)
}

/// `str::ends_with`.
pub fn ends_with(s: &str, p: &str) -> (r: bool)
    ensures
        r == ends(s@, p@),
{
    let h = chars_of(s);
    let n = chars_of(p);
    if n.len() > h.len() {
        return false;
    }
    assert(s@.subrange(s@.len() - p@.len(), s@.len() as int) =~= s@.skip(s@.len() - p@.len()));
    slice_occurs_at(h.as_slice(), n.as_slice(), h.len() - n.len())
}

/// `s` begins with `p`, but for the case of ASCII letters.
pub open spec fn begins_ignoring_case(s: Seq<char>, p: Seq<char>) -> bool {
    s.len() >= p.len() && ascii_lower(s.take(p.len() as int)) == ascii_lower(p)
}

/// Whether `s` begins with `p`, but for the case of ASCII letters.
pub fn starts_with_ignoring_case(s: &str, p: &str) -> (r: bool)
    ensures
        r == begins_ignoring_case(s@, p@),
{
    let n = p.unicode_len();
    if s.unicode_len() < n {
        false
    } else {
        assert(s@.subrange(0, n as int) =~= s@.take(n as int));
        same_ignoring_case(s.substring_char(0, n), p)
    }
}

/// What follows `p` in `s`, if `s` begins with `p`.
pub open spec fn without_prefix(s: Seq<char>, p: Seq<char>) -> Option<Seq<char>> {
    if begins(s, p) {
        Some(s.skip(p.len() as int))
    } else {
        None
    }
}

/// What precedes `p` in `s`, if `s` ends with `p`.
pub open spec fn without_suffix(s: Seq<char>, p: Seq<char>) -> Option<Seq<char>> {
    if ends(s, p) {
        Some(s.take(s.len() - p.len()))
    } else {
        None
    }
}

/// `str::strip_prefix`.
pub fn strip_prefix<'a>(s: &'a str, p: &str) -> (r: Option<&'a str>)
    ensures
        opt_str(r) == without_prefix(s@, p@),
{
    if starts_with(s, p) {
        let n = p.unicode_len();
        let m = s.unicode_len();
        assert(s@.subrange(n as int, m as int) =~= s@.skip(n as int));
        Some(s.substring_char(n, m))
    } else {
        None
    }
}

/// `str::strip_suffix`.
pub fn strip_suffix<'a>(s: &'a str, p: &str) -> (r: Option<&'a str>)
    ensures
        opt_str(r) == without_suffix(s@, p@),
{
    if ends_with(s, p) {
        let n = p.unicode_len();
        let m = s.unicode_len();
        assert(s@.subrange(0, m - n) =~= s@.take(m - n));
        Some(s.substring_char(0, m - n))
    } else {
        None
    }
}

// ---------------------------------------------------------------------------
// Lines
// ---------------------------------------------------------------------------

/// `s` without one carriage return at its end.
pub open spec fn without_cr(s: Seq<char>) -> Seq<char> {
    if s.len() > 0 && s.last() == '\r' {
        s.drop_last()
    } else {
        s
    }
}

/// The lines of `s`: the pieces that a line feed ends, without it and without
/// one carriage return before it, and what follows the last line feed, if
/// anything does.
pub open spec fn lines_of(s: Seq<char>) -> Seq<Seq<char>>
    decreases s.len(),
    via lines_of_decreases
{
    if s.len() == 0 {
        Seq::empty()
    } else {
        match index_of(s, '\n') {
            None => seq![s],
            Some(i) => seq![without_cr(s.take(i))] + lines_of(s.skip(i + 1)),
        }
    }
}

#[via_fn]
proof fn lines_of_decreases(s: Seq<char>) {
    lemma_index_of(s, '\n');
}

/// `str::lines`.
pub fn lines(s: &str) -> (r: Vec<String>)
    ensures
        texts(r@) == lines_of(s@),
{
    let cs = chars_of(s);
    let mut out: Vec<String> = Vec::new();
    let mut start: usize = 0;
    assert(s@.skip(0) =~= s@);
    assert(texts(out@) + lines_of(s@) =~= lines_of(s@));
    while start < cs.len()
        invariant
            cs@ == s@,
            start <= cs.len(),
            texts(out@) + lines_of(s@.skip(start as int)) == lines_of(s@),
        decreases cs.len() - start,
    {
        let rest = vstd::slice::slice_subrange(cs.as_slice(), start, cs.len());
        assert(rest@ =~= s@.skip(start as int));
        let ghost before = texts(out@);
        match find_char(rest, '\n') {
            None => {
                let last = string_of(rest);
                out.push(last);
                assert(texts(out@) =~= before.push(rest@));
                assert(before.push(rest@) =~= before + seq![rest@]);
                return out;
            },
            Some(i) => {
                let end: usize = if i > 0 && rest[i - 1] == '\r' {
                    i - 1
                } else {
                    i
                };
                let line = string_of(vstd::slice::slice_subrange(rest, 0, end));
                assert(line@ =~= without_cr(rest@.take(i as int)));
                out.push(line);
                assert(rest@.skip(i + 1) =~= s@.skip(start + i + 1));
                assert(texts(out@) =~= before.push(line@));
                assert(texts(out@) + lines_of(s@.skip(start + i + 1)) =~= before + (seq![line@]
                    + lines_of(s@.skip(start + i + 1))));
                start = start + i + 1;
            },
        }
    }
    assert(s@.skip(start as int) =~= Seq::<char>::empty());
    assert(texts(out@) + Seq::<Seq<char>>::empty() =~= texts(out@));
    out
}

/// What stands between the copies of `sep`, taken from the left.
pub open spec fn pieces_of(s: Seq<char>, sep: Seq<char>) -> Seq<Seq<char>>
    decreases s.len(),
    via pieces_of_decreases
{
    match found(s, sep) {
        Some(i) => if sep.len() == 0 {
            seq![s]
        } else {
            seq![s.take(i)] + pieces_of(s.skip(i + sep.len()), sep)
        },
        None => seq![s],
    }
}

#[via_fn]
proof fn pieces_of_decreases(s: Seq<char>, sep: Seq<char>) {
    lemma_found_from(s, sep, 0);
}

/// `str::split` with a text that is not empty.
pub fn split(s: &str, sep: &str) -> (r: Vec<String>)
    requires
        sep@.len() > 0,
    ensures
        texts(r@) == pieces_of(s@, sep@),
{
    let mut out: Vec<String> = Vec::new();
    let mut rest = s;
    assert(texts(out@) + pieces_of(rest@, sep@) =~= pieces_of(s@, sep@));
    loop
        invariant
            sep@.len() > 0,
            texts(out@) + pieces_of(rest@, sep@) == pieces_of(s@, sep@),
        decreases rest@.len(),
    {
        proof {
            lemma_found_from(rest@, sep@, 0);
        }
        let len = rest.unicode_len();
        let width = sep.unicode_len();
        match find(rest, sep) {
            Some(i) => {
                let piece = rest.substring_char(0, i).to_owned();
                let tail = rest.substring_char(i + width, len);
                proof {
                    assert(rest@.subrange(0, i as int) =~= rest@.take(i as int));
                    assert(rest@.subrange(i + width, len as int) =~= rest@.skip(i + width));
                    lemma_texts_push(out@, piece);
                    assert(texts(out@) + (seq![piece@] + pieces_of(tail@, sep@)) =~= texts(
                        out@,
                    ).push(piece@) + pieces_of(tail@, sep@));
                }
                out.push(piece);
                rest = tail;
            },
            None => {
                let piece = rest.to_owned();
                proof {
                    lemma_texts_push(out@, piece);
                    assert(texts(out@) + seq![piece@] =~= texts(out@).push(piece@));
                }
                out.push(piece);
                return out;
            },
        }
    }
}

/// The parts with `sep` between each two.
pub open spec fn joined(parts: Seq<Seq<char>>, sep: Seq<char>) -> Seq<char>
    decreases parts.len(),
{
    if parts.len() == 0 {
        Seq::empty()
    } else if parts.len() == 1 {
        parts[0]
    } else {
        joined(parts.drop_last(), sep) + sep + parts.last()
    }
}

/// `[String]::join`.
pub fn join(parts: &Vec<String>, sep: &str) -> (r: String)
    ensures
        r@ == joined(texts(parts@), sep@),
{
    let mut out: String = String::new();
    let mut i: usize = 0;
    while i < parts.len()
        invariant
            i <= parts.len(),
            out@ == joined(texts(parts@).take(i as int), sep@),
        decreases parts.len() - i,
    {
        let ghost t = texts(parts@);
        if i > 0 {
            out.append(sep);
        }
        out.append(parts[i].as_str());
        i += 1;
        assert(t.take(i as int).drop_last() =~= t.take(i - 1));
        assert(t.take(i as int).last() == parts@[i - 1]@);
    }
    assert(texts(parts@).take(i as int) =~= texts(parts@));
    out
}

// ---------------------------------------------------------------------------
// How lines behave
// ---------------------------------------------------------------------------

/// `s` holds no `c`.
pub open spec fn free_of(s: Seq<char>, c: char) -> bool {
    forall|i: int| 0 <= i < s.len() ==> s[i] != c
}

/// The lines of a text that ends in a line feed, followed by another text, are
/// the lines of the one and then those of the other.
pub proof fn lemma_lines_concat(a: Seq<char>, b: Seq<char>)
    requires
        a.len() > 0,
        a.last() == '\n',
    ensures
        lines_of(a + b) == lines_of(a) + lines_of(b),
    decreases a.len(),
{
    lemma_index_of(a, '\n');
    lemma_index_of(a + b, '\n');
    assert(index_of(a, '\n') is Some) by {
        if index_of(a, '\n') is None {
            assert(a[a.len() - 1] != '\n');
        }
    }
    let i = index_of(a, '\n')->0;
    assert((a + b)[i] == '\n');
    lemma_index_of_is(a + b, '\n', i);
    assert((a + b).take(i) =~= a.take(i));
    let rest = a.skip(i + 1);
    assert((a + b).skip(i + 1) =~= rest + b);
    if rest.len() > 0 {
        assert(rest.last() == '\n');
        lemma_lines_concat(rest, b);
        assert(seq![without_cr(a.take(i))] + (lines_of(rest) + lines_of(b)) =~= seq![
            without_cr(a.take(i)),
        ] + lines_of(rest) + lines_of(b));
    } else {
        assert(rest + b =~= b);
        assert(lines_of(rest) =~= Seq::<Seq<char>>::empty());
        assert(seq![without_cr(a.take(i))] + lines_of(rest) =~= seq![without_cr(a.take(i))]);
    }
}

/// A line and its line feed make that one line.
pub proof fn lemma_lines_single(l: Seq<char>)
    requires
        free_of(l, '\n'),
    ensures
        lines_of(l.push('\n')) == seq![without_cr(l)],
{
    let s = l.push('\n');
    lemma_index_of_is(s, '\n', l.len() as int);
    assert(s.take(l.len() as int) =~= l);
    assert(s.skip(l.len() as int + 1) =~= Seq::<char>::empty());
    assert(lines_of(s.skip(l.len() as int + 1)) =~= Seq::<Seq<char>>::empty());
    assert(seq![without_cr(l)] + Seq::<Seq<char>>::empty() =~= seq![without_cr(l)]);
}

/// No line holds a line feed.
pub proof fn lemma_lines_free(s: Seq<char>)
    ensures
        forall|k: int| 0 <= k < lines_of(s).len() ==> free_of(#[trigger] lines_of(s)[k], '\n'),
    decreases s.len(),
{
    if s.len() > 0 {
        lemma_index_of(s, '\n');
        match index_of(s, '\n') {
            None => {},
            Some(i) => {
                let rest = s.skip(i + 1);
                lemma_lines_free(rest);
                assert forall|k: int| 0 <= k < lines_of(s).len() implies free_of(
                    #[trigger] lines_of(s)[k],
                    '\n',
                ) by {
                    if k > 0 {
                        assert(lines_of(s)[k] == lines_of(rest)[k - 1]);
                    } else {
                        let l = without_cr(s.take(i));
                        assert(lines_of(s)[0] == l);
                        assert forall|q: int| 0 <= q < l.len() implies l[q] != '\n' by {
                            assert(l[q] == s[q]);
                        }
                    }
                }
            },
        }
    }
}

/// Lines joined by line feeds and ended by one split into those lines again,
/// each without one carriage return at its end.
pub proof fn lemma_lines_of_joined(parts: Seq<Seq<char>>)
    requires
        parts.len() > 0,
        forall|k: int| 0 <= k < parts.len() ==> free_of(#[trigger] parts[k], '\n'),
    ensures
        lines_of(joined(parts, seq!['\n']).push('\n')) == parts.map_values(
            |l: Seq<char>| without_cr(l),
        ),
    decreases parts.len(),
{
    let j = joined(parts, seq!['\n']);
    let f = |l: Seq<char>| without_cr(l);
    if parts.len() == 1 {
        lemma_lines_single(parts[0]);
        assert(parts.map_values(f) =~= seq![without_cr(parts[0])]);
    } else {
        let front = parts.drop_last();
        assert forall|k: int| 0 <= k < front.len() implies free_of(#[trigger] front[k], '\n') by {
            assert(front[k] == parts[k]);
        }
        lemma_lines_of_joined(front);
        let a = joined(front, seq!['\n']).push('\n');
        let b = parts.last().push('\n');
        assert(j.push('\n') =~= a + b);
        lemma_lines_concat(a, b);
        lemma_lines_single(parts.last());
        assert(parts.map_values(f) =~= front.map_values(f) + seq![without_cr(parts.last())]);
    }
}

/// A carriage return at the end is white space at the end.
pub proof fn lemma_trimmed_end_cr(l: Seq<char>)
    ensures
        trimmed_end(without_cr(l)) == trimmed_end(l),
{
}

/// Lines joined by line feeds, with none at the end, split into those lines
/// again: each but the last without one carriage return at its end, the last
/// one as it is, or not at all if it is empty.
pub proof fn lemma_lines_of_joined_open(parts: Seq<Seq<char>>)
    requires
        parts.len() > 0,
        forall|k: int| 0 <= k < parts.len() ==> free_of(#[trigger] parts[k], '\n'),
    ensures
        lines_of(joined(parts, seq!['\n'])) == parts.drop_last().map_values(
            |l: Seq<char>| without_cr(l),
        ) + (if parts.last().len() == 0 {
            Seq::empty()
        } else {
            seq![parts.last()]
        }),
{
    let f = |l: Seq<char>| without_cr(l);
    let front = parts.drop_last();
    let last = parts.last();
    let j = joined(parts, seq!['\n']);
    assert(free_of(last, '\n')) by {
        assert(free_of(parts[parts.len() - 1], '\n'));
    }
    let last_lines = if last.len() == 0 {
        Seq::empty()
    } else {
        seq![last]
    };
    lemma_index_of(last, '\n');
    assert(lines_of(last) =~= last_lines);
    if front.len() == 0 {
        assert(front.map_values(f) + last_lines =~= last_lines);
    } else {
        assert forall|k: int| 0 <= k < front.len() implies free_of(#[trigger] front[k], '\n') by {
            assert(front[k] == parts[k]);
        }
        lemma_lines_of_joined(front);
        let a = joined(front, seq!['\n']).push('\n');
        assert(j =~= a + last);
        lemma_lines_concat(a, last);
    }
}

/// Joining two lists is joining each.
pub proof fn lemma_joined_add(a: Seq<Seq<char>>, b: Seq<Seq<char>>, sep: Seq<char>)
    requires
        a.len() > 0,
        b.len() > 0,
    ensures
        joined(a + b, sep) == joined(a, sep) + sep + joined(b, sep),
    decreases b.len(),
{
    let all = a + b;
    if b.len() == 1 {
        assert(all.drop_last() =~= a);
        assert(joined(all, sep) =~= joined(a, sep) + sep + joined(b, sep));
    } else {
        assert(all.drop_last() =~= a + b.drop_last());
        lemma_joined_add(a, b.drop_last(), sep);
        assert(joined(all, sep) =~= joined(a, sep) + sep + joined(b, sep));
    }
}

// ---------------------------------------------------------------------------
// Rows
// ---------------------------------------------------------------------------

/// The rows of `s`: its lines with what ends them, so that nothing is lost. The
/// last one may have no line feed.
pub open spec fn rows_of(s: Seq<char>) -> Seq<Seq<char>>
    decreases s.len(),
    via rows_of_decreases
{
    if s.len() == 0 {
        Seq::empty()
    } else {
        match index_of(s, '\n') {
            None => seq![s],
            Some(i) => seq![s.take(i + 1)] + rows_of(s.skip(i + 1)),
        }
    }
}

#[via_fn]
proof fn rows_of_decreases(s: Seq<char>) {
    lemma_index_of(s, '\n');
}

/// `str::split_inclusive` at line feeds.
pub fn rows(s: &str) -> (r: Vec<String>)
    ensures
        texts(r@) == rows_of(s@),
{
    let cs = chars_of(s);
    let mut out: Vec<String> = Vec::new();
    let mut start: usize = 0;
    assert(s@.skip(0) =~= s@);
    assert(texts(out@) + rows_of(s@) =~= rows_of(s@));
    while start < cs.len()
        invariant
            cs@ == s@,
            start <= cs.len(),
            texts(out@) + rows_of(s@.skip(start as int)) == rows_of(s@),
        decreases cs.len() - start,
    {
        let rest = vstd::slice::slice_subrange(cs.as_slice(), start, cs.len());
        assert(rest@ =~= s@.skip(start as int));
        let ghost before = texts(out@);
        match find_char(rest, '\n') {
            None => {
                let last = string_of(rest);
                out.push(last);
                assert(texts(out@) =~= before.push(rest@));
                assert(before.push(rest@) =~= before + seq![rest@]);
                return out;
            },
            Some(i) => {
                let row = string_of(vstd::slice::slice_subrange(rest, 0, i + 1));
                assert(row@ =~= rest@.take(i + 1));
                out.push(row);
                assert(rest@.skip(i + 1) =~= s@.skip(start + i + 1));
                assert(texts(out@) =~= before.push(row@));
                assert(texts(out@) + rows_of(s@.skip(start + i + 1)) =~= before + (seq![row@]
                    + rows_of(s@.skip(start + i + 1))));
                start = start + i + 1;
            },
        }
    }
    assert(s@.skip(start as int) =~= Seq::<char>::empty());
    assert(texts(out@) + Seq::<Seq<char>>::empty() =~= texts(out@));
    out
}

/// The parts one behind the other.
pub open spec fn glued(parts: Seq<Seq<char>>) -> Seq<char>
    decreases parts.len(),
{
    if parts.len() == 0 {
        Seq::empty()
    } else {
        glued(parts.drop_last()) + parts.last()
    }
}

/// `[String]::concat` of the parts from `a` up to `b`.
pub fn glue(parts: &Vec<String>, a: usize, b: usize) -> (r: String)
    requires
        a <= b <= parts@.len(),
    ensures
        r@ == glued(texts(parts@).subrange(a as int, b as int)),
{
    let mut out: String = String::new();
    let mut i: usize = a;
    while i < b
        invariant
            a <= i <= b <= parts@.len(),
            out@ == glued(texts(parts@).subrange(a as int, i as int)),
        decreases b - i,
    {
        let ghost t = texts(parts@);
        out.append(parts[i].as_str());
        i += 1;
        assert(t.subrange(a as int, i as int).drop_last() =~= t.subrange(a as int, i - 1));
        assert(t.subrange(a as int, i as int).last() == parts@[i - 1]@);
    }
    out
}

/// A row that a line feed ends.
pub open spec fn is_row(r: Seq<char>) -> bool {
    r.len() > 0 && r.last() == '\n' && free_of(r.drop_last(), '\n')
}

/// Every one of these is a row that a line feed ends.
pub open spec fn all_rows(v: Seq<Seq<char>>) -> bool {
    forall|k: int| 0 <= k < v.len() ==> is_row(#[trigger] v[k])
}

/// Gluing one list behind another is gluing each.
pub proof fn lemma_glued_add(a: Seq<Seq<char>>, b: Seq<Seq<char>>)
    ensures
        glued(a + b) == glued(a) + glued(b),
    decreases b.len(),
{
    if b.len() == 0 {
        assert(a + b =~= a);
        assert(glued(a) + glued(b) =~= glued(a));
    } else {
        assert((a + b).drop_last() =~= a + b.drop_last());
        lemma_glued_add(a, b.drop_last());
        assert(glued(a + b) =~= glued(a) + glued(b));
    }
}

/// One part is itself.
pub proof fn lemma_glued_one(p: Seq<char>)
    ensures
        glued(seq![p]) == p,
{
    assert(seq![p].drop_last() =~= Seq::<Seq<char>>::empty());
    assert(glued(seq![p].drop_last()) =~= Seq::<char>::empty());
    assert(glued(seq![p]) =~= p);
}

/// The rows of a text, glued, are the text; every one is ended by a line feed
/// but the last, which is where the text is.
pub proof fn lemma_rows(s: Seq<char>)
    ensures
        glued(rows_of(s)) == s,
        forall|k: int| 0 <= k < rows_of(s).len() - 1 ==> is_row(#[trigger] rows_of(s)[k]),
        s.len() > 0 ==> rows_of(s).len() > 0,
        s.len() > 0 && s.last() == '\n' ==> all_rows(rows_of(s)),
        s.len() > 0 && s.last() != '\n' ==> free_of(rows_of(s).last(), '\n') && rows_of(
            s,
        ).last().len() > 0,
    decreases s.len(),
{
    if s.len() > 0 {
        lemma_index_of(s, '\n');
        match index_of(s, '\n') {
            None => {
                lemma_glued_one(s);
            },
            Some(i) => {
                let row = s.take(i + 1);
                let rest = s.skip(i + 1);
                lemma_rows(rest);
                lemma_glued_one(row);
                lemma_glued_add(seq![row], rows_of(rest));
                assert(s =~= row + rest);
                assert(row.drop_last() =~= s.take(i));
                assert(is_row(row));
                if rest.len() > 0 {
                    assert(rest.last() == s.last());
                    assert(rows_of(s).last() == rows_of(rest).last());
                } else {
                    assert(rows_of(rest) =~= Seq::<Seq<char>>::empty());
                }
                assert forall|k: int| 0 < k < rows_of(s).len() implies #[trigger] rows_of(s)[k]
                    == rows_of(rest)[k - 1] by {}
            },
        }
    }
}

/// A row and what follows it.
pub proof fn lemma_rows_first(row: Seq<char>, rest: Seq<char>)
    requires
        is_row(row),
    ensures
        rows_of(row + rest) == seq![row] + rows_of(rest),
{
    let s = row + rest;
    let i = row.len() - 1;
    assert forall|k: int| 0 <= k < i implies s[k] != '\n' by {
        assert(s[k] == row.drop_last()[k]);
    }
    lemma_index_of_is(s, '\n', i);
    assert(s.take(i + 1) =~= row);
    assert(s.skip(i + 1) =~= rest);
}

/// Rows and what follows them: taken apart again they are what they were.
pub proof fn lemma_rows_glued(v: Seq<Seq<char>>, rest: Seq<char>)
    requires
        all_rows(v),
    ensures
        rows_of(glued(v) + rest) == v + rows_of(rest),
    decreases v.len(),
{
    if v.len() == 0 {
        assert(glued(v) + rest =~= rest);
        assert(v + rows_of(rest) =~= rows_of(rest));
    } else {
        let front = v.drop_last();
        assert(all_rows(front)) by {
            assert forall|k: int| 0 <= k < front.len() implies is_row(#[trigger] front[k]) by {
                assert(front[k] == v[k]);
            }
        }
        assert(is_row(v[v.len() - 1]));
        lemma_rows_glued(front, v.last() + rest);
        lemma_rows_first(v.last(), rest);
        assert(glued(v) + rest =~= glued(front) + (v.last() + rest));
        assert(v + rows_of(rest) =~= front + (seq![v.last()] + rows_of(rest)));
    }
}

/// The rows of a text that ends in a line feed, or of none, and then those of
/// what follows it.
pub proof fn lemma_rows_concat(a: Seq<char>, b: Seq<char>)
    requires
        a.len() == 0 || a.last() == '\n',
    ensures
        rows_of(a + b) == rows_of(a) + rows_of(b),
{
    lemma_rows(a);
    if a.len() == 0 {
        assert(a + b =~= b);
        assert(rows_of(a) + rows_of(b) =~= rows_of(b));
    } else {
        lemma_rows_glued(rows_of(a), b);
    }
}

/// Rows, taken apart again, are what they were.
pub proof fn lemma_rows_of_glued(v: Seq<Seq<char>>)
    requires
        all_rows(v),
    ensures
        rows_of(glued(v)) == v,
{
    lemma_rows_glued(v, Seq::empty());
    assert(glued(v) + Seq::<char>::empty() =~= glued(v));
    assert(v + rows_of(Seq::<char>::empty()) =~= v);
}

/// What glued rows end in.
pub proof fn lemma_glued_ends(v: Seq<Seq<char>>)
    requires
        all_rows(v),
    ensures
        v.len() > 0 ==> glued(v).len() > 0 && glued(v).last() == '\n',
        v.len() == 0 ==> glued(v).len() == 0,
{
    if v.len() > 0 {
        assert(is_row(v[v.len() - 1]));
        assert(glued(v).last() == v.last().last());
    }
}

// ---------------------------------------------------------------------------
// Laws
// ---------------------------------------------------------------------------

/// All of `s` is white space.
pub open spec fn blank(s: Seq<char>) -> bool {
    forall|i: int| 0 <= i < s.len() ==> is_space(#[trigger] s[i])
}

/// Trimming takes away the white space around a text and nothing else: whatever stands
/// around a text that neither begins nor ends in white space, that text is left.
pub proof fn law_trimming_takes_the_space_around(before: Seq<char>, s: Seq<char>, after: Seq<char>)
    requires
        blank(before),
        blank(after),
        s.len() > 0,
        !is_space(s[0]),
        !is_space(s.last()),
    ensures
        trimmed(before + s + after) == s,
        trimmed_start(before + s) == s,
        trimmed_end(s + after) == s,
{
    lemma_start_padded(before, s + after);
    lemma_start_padded(before, s);
    lemma_end_padded(s, after);
    assert(before + s + after =~= before + (s + after));
    assert((s + after)[0] == s[0]);
}

/// Of a blank text nothing is left.
pub proof fn law_blank_texts_are_trimmed_away(s: Seq<char>)
    ensures
        trimmed(s).len() == 0 <==> blank(s),
{
    lemma_start_blank(s);
    let t = trimmed_start(s);
    lemma_trimmed_start_first(s);
    if t.len() > 0 {
        lemma_end_keeps_first(t);
    }
}

proof fn lemma_start_padded(before: Seq<char>, s: Seq<char>)
    requires
        blank(before),
        s.len() > 0,
        !is_space(s[0]),
    ensures
        trimmed_start(before + s) == s,
    decreases before.len(),
{
    if before.len() == 0 {
        assert(before + s =~= s);
    } else {
        assert(is_space((before + s)[0])) by {
            assert(is_space(before[0]));
        }
        assert(blank(before.drop_first())) by {
            assert forall|i: int| 0 <= i < before.drop_first().len() implies is_space(
                #[trigger] before.drop_first()[i],
            ) by {
                assert(is_space(before[i + 1]));
            }
        }
        assert((before + s).drop_first() =~= before.drop_first() + s);
        lemma_start_padded(before.drop_first(), s);
    }
}

proof fn lemma_end_padded(s: Seq<char>, after: Seq<char>)
    requires
        blank(after),
        s.len() > 0,
        !is_space(s.last()),
    ensures
        trimmed_end(s + after) == s,
    decreases after.len(),
{
    if after.len() == 0 {
        assert(s + after =~= s);
    } else {
        assert((s + after).last() == after[after.len() - 1]);
        assert(is_space(after[after.len() - 1]));
        assert(blank(after.drop_last())) by {
            assert forall|i: int| 0 <= i < after.drop_last().len() implies is_space(
                #[trigger] after.drop_last()[i],
            ) by {
                assert(is_space(after[i]));
            }
        }
        assert((s + after).drop_last() =~= s + after.drop_last());
        lemma_end_padded(s, after.drop_last());
    }
}

proof fn lemma_start_blank(s: Seq<char>)
    ensures
        trimmed_start(s).len() == 0 <==> blank(s),
    decreases s.len(),
{
    if s.len() > 0 {
        if is_space(s[0]) {
            let t = s.drop_first();
            lemma_start_blank(t);
            if blank(s) {
                assert forall|i: int| 0 <= i < t.len() implies is_space(#[trigger] t[i]) by {
                    assert(is_space(s[i + 1]));
                }
            }
            if blank(t) {
                assert forall|i: int| 0 <= i < s.len() implies is_space(#[trigger] s[i]) by {
                    if i > 0 {
                        assert(is_space(t[i - 1]));
                    }
                }
            }
        }
    }
}

proof fn lemma_end_keeps_first(s: Seq<char>)
    requires
        s.len() > 0,
        !is_space(s[0]),
    ensures
        trimmed_end(s).len() > 0,
    decreases s.len(),
{
    if is_space(s.last()) {
        assert(s.len() > 1);
        lemma_end_keeps_first(s.drop_last());
    }
}

/// Marks from a set are taken off at the front of a text, and nothing behind the first
/// character that is none.
pub proof fn law_marks_are_taken_off(marks: Seq<char>, s: Seq<char>, set: Seq<char>)
    requires
        forall|i: int| 0 <= i < marks.len() ==> set.contains(#[trigger] marks[i]),
    ensures
        s.len() > 0 && !set.contains(s[0]) ==> trimmed_start_any(marks + s, set) == s,
        s.len() > 0 && !set.contains(s.last()) ==> trimmed_end_any(s + marks, set) == s,
    decreases marks.len(),
{
    if marks.len() == 0 {
        assert(marks + s =~= s);
        assert(s + marks =~= s);
    } else {
        assert(set.contains(marks[0]));
        assert(set.contains(marks[marks.len() - 1]));
        let tail = marks.drop_first();
        let front = marks.drop_last();
        assert forall|i: int| 0 <= i < tail.len() implies set.contains(#[trigger] tail[i]) by {
            assert(set.contains(marks[i + 1]));
        }
        assert forall|i: int| 0 <= i < front.len() implies set.contains(#[trigger] front[i]) by {
            assert(set.contains(marks[i]));
        }
        law_marks_are_taken_off(tail, s, set);
        law_marks_are_taken_off(front, s, set);
        assert((marks + s).drop_first() =~= tail + s);
        assert((s + marks).drop_last() =~= s + front);
        assert((marks + s)[0] == marks[0]);
        assert((s + marks).last() == marks[marks.len() - 1]);
    }
}

/// The pieces of a text, with the separator between each two, are the text.
pub proof fn law_pieces_join_to_the_text(s: Seq<char>, sep: Seq<char>)
    requires
        sep.len() > 0,
    ensures
        joined(pieces_of(s, sep), sep) == s,
        pieces_of(s, sep).len() > 0,
    decreases s.len(),
{
    lemma_found_from(s, sep, 0);
    match found(s, sep) {
        Some(i) => {
            let rest = s.skip(i + sep.len());
            law_pieces_join_to_the_text(rest, sep);
            let first = seq![s.take(i)];
            lemma_joined_add(first, pieces_of(rest, sep), sep);
            assert(joined(first, sep) == s.take(i));
            assert(s.subrange(i, i + sep.len()) =~= sep);
            assert(s =~= s.take(i) + sep + rest);
        },
        None => {},
    }
}

/// A number is written with its last digit last: ten times a number and a digit is the
/// number followed by the digit.
pub proof fn law_digits_are_written_in_order(n: nat, d: int)
    requires
        0 <= d < 10,
    ensures
        n > 0 ==> decimal_text((10 * n + d) as nat) == decimal_text(n).push(digit_char(d)),
        decimal_text(d as nat) == seq![digit_char(d)],
{
    if n > 0 {
        let m = (10 * n + d) as nat;
        assert(m / 10 == n && m % 10 == d) by (nonlinear_arith)
            requires
                m == 10 * n + d,
                0 <= d < 10,
        ;
    }
}

/// A letter's case goes both ways, and nothing but ASCII letters has one.
pub proof fn law_case_goes_both_ways(c: char)
    ensures
        'A' <= c <= 'Z' ==> 'a' <= lower_char(c) <= 'z' && upper_char(lower_char(c)) == c,
        'a' <= c <= 'z' ==> 'A' <= upper_char(c) <= 'Z' && lower_char(upper_char(c)) == c,
        !is_ascii_letter(c) ==> lower_char(c) == c && upper_char(c) == c,
{
}

/// A text comes before every longer one that it begins, and two that differ are ordered
/// by the first character in which they do.
pub proof fn law_texts_are_ordered(p: Seq<char>, a: Seq<char>, b: Seq<char>)
    ensures
        a.len() > 0 ==> before(p, p + a),
        a.len() > 0 && b.len() > 0 && a[0] < b[0] ==> before(p + a, p + b) && !before(p + b, p + a),
    decreases p.len(),
{
    if p.len() == 0 {
        assert(p + a =~= a);
        assert(p + b =~= b);
    } else {
        law_texts_are_ordered(p.drop_first(), a, b);
        assert((p + a).drop_first() =~= p.drop_first() + a);
        assert((p + b).drop_first() =~= p.drop_first() + b);
    }
}

/// The text is a word: there is something in it, and no white space.
pub open spec fn is_word(s: Seq<char>) -> bool {
    s.len() > 0 && forall|i: int| 0 <= i < s.len() ==> !is_space(#[trigger] s[i])
}

/// Words stand between white space: a word, white space and more text is that word
/// before the words of the rest, and white space in front makes no word.
pub proof fn law_words_stand_between_spaces(w: Seq<char>, c: char, rest: Seq<char>)
    requires
        is_word(w),
        is_space(c),
    ensures
        words_of(w) == seq![w],
        words_of(seq![c] + rest) == words_of(rest),
        words_of(w + seq![c] + rest) == seq![w] + words_of(rest),
{
    let gap = seq![c] + rest;
    assert(gap[0] == c);
    assert(gap.drop_first() =~= rest);
    assert(trimmed_start(gap) == trimmed_start(rest));
    assert(words_of(gap) == words_of(rest));
    let s = w + seq![c] + rest;
    assert(s =~= w + gap);
    assert(!is_space(w[0]));
    assert(trimmed_start(s) == s);
    lemma_word_len_is(w, gap);
    assert(s.take(w.len() as int) =~= w);
    assert(s.skip(w.len() as int) =~= gap);
    lemma_word_len_is(w, Seq::empty());
    assert(w + Seq::<char>::empty() =~= w);
    assert(trimmed_start(w) == w);
    assert(w.take(w.len() as int) =~= w);
    assert(w.skip(w.len() as int) =~= Seq::empty());
    assert(words_of(Seq::<char>::empty()) =~= Seq::empty());
    assert(words_of(w) =~= seq![w]);
}

proof fn lemma_word_len_is(w: Seq<char>, rest: Seq<char>)
    requires
        forall|i: int| 0 <= i < w.len() ==> !is_space(#[trigger] w[i]),
        rest.len() > 0 ==> is_space(rest[0]),
    ensures
        word_len(w + rest) == w.len(),
    decreases w.len(),
{
    let s = w + rest;
    if w.len() == 0 {
        assert(s =~= rest);
    } else {
        let next = w.drop_first();
        assert(s[0] == w[0]);
        assert(!is_space(w[0]));
        assert forall|i: int| 0 <= i < next.len() implies !is_space(#[trigger] next[i]) by {
            assert(!is_space(w[i + 1]));
        }
        assert(s.drop_first() =~= next + rest);
        lemma_word_len_is(next, rest);
    }
}

/// The words of a text are words.
pub proof fn law_words_are_words(s: Seq<char>)
    ensures
        forall|i: int| 0 <= i < words_of(s).len() ==> is_word(#[trigger] words_of(s)[i]),
    decreases s.len(),
{
    let t = trimmed_start(s);
    lemma_trimmed_start_len(s);
    lemma_trimmed_start_first(s);
    if t.len() > 0 {
        let n = word_len(t) as int;
        lemma_word_len(t);
        lemma_word_chars(t);
        law_words_are_words(t.skip(n));
        let rest = words_of(t.skip(n));
        assert forall|i: int| 0 <= i < words_of(s).len() implies is_word(
            #[trigger] words_of(s)[i],
        ) by {
            if i == 0 {
                assert(words_of(s)[0] == t.take(n));
            } else {
                assert(words_of(s)[i] == rest[i - 1]);
            }
        }
    }
}

proof fn lemma_word_chars(s: Seq<char>)
    ensures
        word_len(s) <= s.len(),
        forall|i: int| 0 <= i < word_len(s) ==> !is_space(#[trigger] s[i]),
    decreases s.len(),
{
    if s.len() > 0 && !is_space(s[0]) {
        let rest = s.drop_first();
        lemma_word_chars(rest);
        assert forall|i: int| 0 <= i < word_len(s) implies !is_space(#[trigger] s[i]) by {
            if i > 0 {
                assert(s[i] == rest[i - 1]);
            }
        }
    }
}

/// Words with single spaces between them are those words again.
pub proof fn law_joined_words_are_the_words(words: Seq<Seq<char>>)
    requires
        forall|i: int| 0 <= i < words.len() ==> is_word(#[trigger] words[i]),
    ensures
        words_of(joined(words, seq![' '])) == words,
    decreases words.len(),
{
    if words.len() == 0 {
        assert(words_of(joined(words, seq![' '])) =~= words);
    } else {
        let w = words[0];
        let rest = words.drop_first();
        assert(is_word(w));
        assert(words =~= seq![w] + rest);
        if rest.len() == 0 {
            law_words_stand_between_spaces(w, ' ', Seq::empty());
            assert(words =~= seq![w]);
        } else {
            assert forall|i: int| 0 <= i < rest.len() implies is_word(#[trigger] rest[i]) by {
                assert(is_word(words[i + 1]));
            }
            law_joined_words_are_the_words(rest);
            lemma_joined_add(seq![w], rest, seq![' ']);
            law_words_stand_between_spaces(w, ' ', joined(rest, seq![' ']));
        }
    }
}

/// What joins parts stands between each two of them, and nowhere else.
pub proof fn law_parts_are_joined_in_order(parts: Seq<Seq<char>>, p: Seq<char>, sep: Seq<char>)
    ensures
        joined(Seq::empty(), sep).len() == 0,
        joined(seq![p], sep) == p,
        parts.len() > 0 ==> joined(parts.push(p), sep) == joined(parts, sep) + sep + p,
        glued(parts.push(p)) == glued(parts) + p,
        glued(Seq::empty()).len() == 0,
{
    assert(parts.push(p).drop_last() =~= parts);
    lemma_glued_add(parts, seq![p]);
    lemma_glued_one(p);
    assert(parts.push(p) =~= parts + seq![p]);
}

/// A text that begins or ends with another is told by what is left of it, and putting
/// the two together gives it back.
pub proof fn law_what_is_taken_off_comes_back(p: Seq<char>, s: Seq<char>)
    ensures
        without_prefix(p + s, p) == Some(s),
        without_suffix(s + p, p) == Some(s),
        without_prefix(s, p) matches Some(rest) ==> p + rest == s,
        without_suffix(s, p) matches Some(rest) ==> rest + p == s,
        begins(p + s, p),
        ends(s + p, p),
{
    lemma_prefix_off(p, s);
    lemma_suffix_off(s, p);
    lemma_prefix_back(p, s);
    lemma_suffix_back(s, p);
}

proof fn lemma_prefix_off(p: Seq<char>, s: Seq<char>)
    ensures
        begins(p + s, p),
        without_prefix(p + s, p) == Some(s),
{
    assert((p + s).take(p.len() as int) =~= p);
    assert((p + s).skip(p.len() as int) =~= s);
}

proof fn lemma_suffix_off(s: Seq<char>, p: Seq<char>)
    ensures
        ends(s + p, p),
        without_suffix(s + p, p) == Some(s),
{
    assert((s + p).skip(s.len() as int) =~= p);
    assert((s + p).take(s.len() as int) =~= s);
}

proof fn lemma_prefix_back(p: Seq<char>, s: Seq<char>)
    ensures
        without_prefix(s, p) matches Some(rest) ==> p + rest == s,
{
    if begins(s, p) {
        let n = p.len() as int;
        assert(s.take(n) + s.skip(n) =~= s);
    }
}

proof fn lemma_suffix_back(s: Seq<char>, p: Seq<char>)
    ensures
        without_suffix(s, p) matches Some(rest) ==> rest + p == s,
{
    if ends(s, p) {
        let n = s.len() - p.len();
        assert(s.take(n) + s.skip(n) =~= s);
    }
}

/// Case does not matter where it is ignored: a text begins with another just where
/// each of its first characters is the other's, in one case or the other.
pub proof fn law_case_is_ignored(s: Seq<char>, p: Seq<char>)
    ensures
        begins_ignoring_case(s, p) <==> s.len() >= p.len() && forall|i: int|
            0 <= i < p.len() ==> lower_char(#[trigger] s[i]) == lower_char(p[i]),
        begins(s, p) ==> begins_ignoring_case(s, p),
        ascii_lower(s).len() == s.len(),
        forall|i: int| 0 <= i < s.len() ==> #[trigger] ascii_lower(s)[i] == lower_char(s[i]),
{
    if s.len() >= p.len() {
        let head = s.take(p.len() as int);
        if begins_ignoring_case(s, p) {
            assert forall|i: int| 0 <= i < p.len() implies lower_char(#[trigger] s[i])
                == lower_char(p[i]) by {
                assert(ascii_lower(head)[i] == ascii_lower(p)[i]);
            }
        }
        if forall|i: int| 0 <= i < p.len() ==> lower_char(#[trigger] s[i]) == lower_char(p[i]) {
            assert forall|i: int| 0 <= i < p.len() implies #[trigger] ascii_lower(head)[i]
                == ascii_lower(p)[i] by {
                assert(lower_char(s[i]) == lower_char(p[i]));
            }
            assert(ascii_lower(head) =~= ascii_lower(p));
        }
    }
}

/// Marks behind a text are taken off, however many there are, and nothing else is.
pub proof fn law_marks_behind_are_taken_off(s: Seq<char>, c: char)
    ensures
        trimmed_end_of(s.push(c), c) == trimmed_end_of(s, c),
        s.len() == 0 || s.last() != c ==> trimmed_end_of(s, c) == s,
        without_cr(s.push('\r')) == s,
        s.len() == 0 || s.last() != '\r' ==> without_cr(s) == s,
{
    assert(s.push(c).drop_last() =~= s);
    assert(s.push('\r').drop_last() =~= s);
}

/// The last place of a character is one where it stands, and behind it there is none.
pub proof fn law_last_place_is_the_last(a: Seq<char>, c: char, b: Seq<char>)
    requires
        free_of(b, c),
    ensures
        last_index_of(a + seq![c] + b, c) == Some(a.len() as int),
        last_index_of(b, c) is None,
    decreases b.len(),
{
    let s = a + seq![c] + b;
    if b.len() > 0 {
        let front = b.drop_last();
        assert(b[b.len() - 1] != c);
        assert forall|i: int| 0 <= i < front.len() implies front[i] != c by {
            assert(b[i] != c);
        }
        law_last_place_is_the_last(a, c, front);
        assert(s.drop_last() =~= a + seq![c] + front);
    }
}

/// The first characters of a text begin it: as many as are asked for, or all of them.
pub proof fn law_first_characters_begin_the_text(s: Seq<char>, n: int, from: char, to: char)
    requires
        n >= 0,
    ensures
        begins(s, first_chars(s, n)),
        s.len() <= n ==> first_chars(s, n).len() == s.len(),
        s.len() > n ==> first_chars(s, n).len() == n,
        with_char_replaced(s, from, to).len() == s.len(),
        forall|i: int|
            0 <= i < s.len() ==> #[trigger] with_char_replaced(s, from, to)[i] == (if s[i]
                == from {
                to
            } else {
                s[i]
            }),
{
    assert(s.take(s.len() as int) =~= s);
    if s.len() > n {
        assert(s.take(n).len() == n);
    }
}

/// A text that stands between two others occurs there, at the very beginning and the very
/// end too.
pub proof fn law_a_part_occurs_in_the_whole(a: Seq<char>, p: Seq<char>, b: Seq<char>)
    ensures
        occurs_at(a + p + b, p, a.len() as int),
        has_text(a + p + b, p),
        found(p + b, p) == Some(0int),
{
    let s = a + p + b;
    assert(s.subrange(a.len() as int, (a.len() + p.len()) as int) =~= p);
    lemma_found_from(s, p, 0);
    assert(occurs_at(s, p, a.len() as int));
    let t = p + b;
    assert(t.subrange(0, p.len() as int) =~= p);
    assert(occurs_at(t, p, 0));
}

/// A space, a tab and what ends a line are white space; letters, digits and the marks of
/// Markdown are not.
pub proof fn law_ordinary_characters_are_no_space(c: char)
    ensures
        is_space(' ') && is_space('\t') && is_space('\n') && is_space('\r'),
        is_ascii_letter(c) || is_digit(c) ==> !is_space(c),
        !is_space('#') && !is_space('-') && !is_space('*') && !is_space('/'),
        0x21 <= c as u32 <= 0x7E ==> !is_space(c),
{
}

} // verus!
