//! Names as the memory graph keys them.
use vstd::prelude::*;
use crate::text;

verus! {

/// The words of `s`, which are its runs of letters and digits, with one `_`
/// between each two.
pub open spec fn slug_words(s: Seq<char>) -> Seq<char>
    decreases s.len(),
{
    if s.len() == 0 {
        Seq::empty()
    } else {
        let head = slug_words(s.drop_last());
        if !text::alphanumeric(s.last()) {
            head
        } else if head.len() > 0 && !text::alphanumeric(s[s.len() - 2]) {
            head.push('_').push(s.last())
        } else {
            head.push(s.last())
        }
    }
}

/// A name's slug: its words in lower case, joined by `_`.
pub open spec fn slug(name: Seq<char>) -> Seq<char> {
    slug_words(text::lowercase(name))
}

/// The slug of a name, as in `entity:bill_gates` for `Bill Gates`.
pub fn slugify(name: &str) -> (r: String)
    ensures
        r@ == slug(name@),
{
    let lower = text::to_lowercase(name);
    let cs = text::chars_of(lower.as_str());
    let ghost s = cs@;
    let mut out: String = String::new();
    let mut empty: bool = true;
    let mut gap: bool = false;
    let mut i: usize = 0;
    assert(s.take(0) =~= Seq::<char>::empty());
    while i < cs.len()
        invariant
            cs@ == s,
            s == text::lowercase(name@),
            i <= cs.len(),
            out@ == slug_words(s.take(i as int)),
            empty == (out@.len() == 0),
            i > 0 ==> gap == !text::alphanumeric(s[i - 1]),
        decreases cs.len() - i,
    {
        let c: char = cs[i];
        assert(s.take(i + 1).drop_last() =~= s.take(i as int));
        assert(s.take(i + 1).last() == c);
        if text::is_alphanumeric(c) {
            if !empty && gap {
                out.push('_');
            }
            out.push(c);
            empty = false;
            gap = false;
        } else {
            gap = true;
        }
        i += 1;
    }
    assert(s.take(i as int) =~= s);
    out
}

/// The letters and digits of a text, in order.
pub open spec fn letters(s: Seq<char>) -> Seq<char>
    decreases s.len(),
{
    if s.len() == 0 {
        Seq::empty()
    } else if text::alphanumeric(s.last()) {
        letters(s.drop_last()).push(s.last())
    } else {
        letters(s.drop_last())
    }
}

proof fn lemma_slug_words(s: Seq<char>)
    ensures
        ({
            let w = slug_words(s);
            &&& letters(w) == letters(s)
            &&& w.len() > 0 ==> text::alphanumeric(w[0]) && text::alphanumeric(w.last())
            &&& forall|i: int|
                0 <= i < w.len() ==> text::alphanumeric(#[trigger] w[i]) || w[i] == '_'
            &&& forall|i: int|
                0 <= i < w.len() - 1 && #[trigger] w[i] == '_' ==> text::alphanumeric(w[i + 1])
        }),
    decreases s.len(),
{
    if s.len() > 0 {
        let head = slug_words(s.drop_last());
        lemma_slug_words(s.drop_last());
        let w = slug_words(s);
        assert(!text::alphanumeric('_'));
        if text::alphanumeric(s.last()) {
            assert(w.drop_last() =~= head || w.drop_last() =~= head.push('_'));
            assert(head.push('_').drop_last() =~= head);
            assert(letters(head.push('_')) == letters(head));
            assert(letters(w) == letters(w.drop_last()).push(s.last()));
            if head.len() > 0 {
                assert(w[0] == head[0]);
            }
            assert forall|i: int| 0 <= i < w.len() implies text::alphanumeric(#[trigger] w[i])
                || w[i] == '_' by {
                if i < head.len() {
                    assert(w[i] == head[i]);
                }
            }
            assert forall|i: int| 0 <= i < w.len() - 1 && #[trigger] w[i] == '_' implies
                text::alphanumeric(w[i + 1]) by {
                if i < head.len() {
                    assert(w[i] == head[i]);
                    if i + 1 < head.len() {
                        assert(w[i + 1] == head[i + 1]);
                    }
                }
            }
        }
    }
}

/// A slug keeps the letters and digits of the name, in lower case and in their order,
/// and nothing else but single `_` between them.
pub proof fn law_slugs_keep_the_letters(name: Seq<char>)
    ensures
        letters(slug(name)) == letters(text::lowercase(name)),
        slug(name).len() > 0 ==> text::alphanumeric(slug(name)[0]) && text::alphanumeric(
            slug(name).last(),
        ),
        forall|i: int|
            0 <= i < slug(name).len() ==> text::alphanumeric(#[trigger] slug(name)[i])
                || slug(name)[i] == '_',
        forall|i: int|
            0 <= i < slug(name).len() - 1 && #[trigger] slug(name)[i] == '_'
                ==> text::alphanumeric(slug(name)[i + 1]),
{
    lemma_slug_words(text::lowercase(name));
}

/// Where words meet a `_` stands, and nowhere else: letters that stand side by side stay
/// so, and letters that something stands between are told apart.
pub proof fn law_slugs_keep_the_words(s: Seq<char>, gap: char, c: char)
    requires
        s.len() > 0,
        text::alphanumeric(s.last()),
        text::alphanumeric(c),
        !text::alphanumeric(gap),
    ensures
        slug_words(s.push(c)) == slug_words(s).push(c),
        slug_words(s.push(gap)) == slug_words(s),
        slug_words(s.push(gap).push(c)) == slug_words(s).push('_').push(c),
{
    assert(s.push(c).drop_last() =~= s);
    assert(s.push(gap).drop_last() =~= s);
    assert(s.push(gap).push(c).drop_last() =~= s.push(gap));
    assert(slug_words(s).len() > 0);
    let t = s.push(gap).push(c);
    assert(t.last() == c);
    assert(t[t.len() - 2] == gap);
    assert(slug_words(s.push(gap)) == slug_words(s));
    assert(slug_words(t.drop_last()) == slug_words(s));
    assert(slug_words(t) == slug_words(s).push('_').push(c));
}

} // verus!
