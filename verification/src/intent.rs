//! Is a message a fact to file or a question to answer?
//!
//! A weighing of plain signals: instant, and the same every time.
use vstd::prelude::*;
use crate::text;

verus! {

broadcast use vstd::string::group_string_axioms;

/// What a message wants.
#[derive(Clone, Copy, Debug, PartialEq, Eq, Structural)]
pub enum Intent {
    /// File a fact.
    Write,
    /// Answer a question.
    Ask,
}

/// What a message wants, and how sure that is.
#[derive(Clone, Copy, Debug, PartialEq, Eq, Structural)]
pub struct IntentResult {
    pub mode: Intent,
    /// In hundredths, 0 to 100. Below 80 the guess is worth showing.
    pub confidence_pct: u32,
}

/// A word that opens a question.
pub open spec fn interrogative(w: Seq<char>) -> bool {
    ||| w == "what"@ || w == "who"@ || w == "whom"@ || w == "whose"@ || w == "when"@
    ||| w == "where"@ || w == "why"@ || w == "how"@ || w == "which"@ || w == "is"@
    ||| w == "are"@ || w == "was"@ || w == "were"@ || w == "do"@ || w == "does"@
    ||| w == "did"@ || w == "can"@ || w == "could"@ || w == "should"@ || w == "will"@
    ||| w == "would"@ || w == "has"@ || w == "have"@
}

/// A verb that asks for something to be looked up.
pub open spec fn query_verb(w: Seq<char>) -> bool {
    ||| w == "tell"@ || w == "show"@ || w == "find"@ || w == "list"@ || w == "summarize"@
    ||| w == "summarise"@ || w == "explain"@ || w == "describe"@ || w == "remind"@
    ||| w == "search"@ || w == "lookup"@
}

/// The letters and digits that `s` begins with.
pub open spec fn leading_word(s: Seq<char>) -> Seq<char>
    decreases s.len(),
{
    if s.len() > 0 && text::alphanumeric(s[0]) {
        seq![s[0]] + leading_word(s.drop_first())
    } else {
        Seq::empty()
    }
}

/// The first run of letters and digits in `s`; empty if there is none.
pub open spec fn first_word(s: Seq<char>) -> Seq<char>
    decreases s.len(),
{
    if s.len() == 0 {
        Seq::empty()
    } else if text::alphanumeric(s[0]) {
        leading_word(s)
    } else {
        first_word(s.drop_first())
    }
}

/// What a message wants.
pub open spec fn intent_of(message: Seq<char>) -> IntentResult {
    let t = text::trimmed(message);
    let w = first_word(text::lowercase(t));
    if t.len() == 0 {
        IntentResult { mode: Intent::Write, confidence_pct: 50 }
    } else if t.last() == '?' {
        IntentResult { mode: Intent::Ask, confidence_pct: 95 }
    } else if interrogative(w) {
        IntentResult { mode: Intent::Ask, confidence_pct: 85 }
    } else if query_verb(w) {
        IntentResult { mode: Intent::Ask, confidence_pct: 80 }
    } else {
        IntentResult { mode: Intent::Write, confidence_pct: 75 }
    }
}

/// Whether the word opens a question.
pub fn is_interrogative(w: &str) -> (r: bool)
    ensures
        r == interrogative(w@),
{
    text::same(w, "what") || text::same(w, "who") || text::same(w, "whom") || text::same(w, "whose")
        || text::same(w, "when") || text::same(w, "where") || text::same(w, "why") || text::same(
        w,
        "how",
    ) || text::same(w, "which") || text::same(w, "is") || text::same(w, "are") || text::same(
        w,
        "was",
    ) || text::same(w, "were") || text::same(w, "do") || text::same(w, "does") || text::same(
        w,
        "did",
    ) || text::same(w, "can") || text::same(w, "could") || text::same(w, "should") || text::same(
        w,
        "will",
    ) || text::same(w, "would") || text::same(w, "has") || text::same(w, "have")
}

/// Whether the word asks for something to be looked up.
pub fn is_query_verb(w: &str) -> (r: bool)
    ensures
        r == query_verb(w@),
{
    text::same(w, "tell") || text::same(w, "show") || text::same(w, "find") || text::same(w, "list")
        || text::same(w, "summarize") || text::same(w, "summarise") || text::same(w, "explain")
        || text::same(w, "describe") || text::same(w, "remind") || text::same(w, "search")
        || text::same(w, "lookup")
}

/// The first word of a text.
fn take_first_word(s: &str) -> (r: String)
    ensures
        r@ == first_word(s@),
{
    let cs = text::chars_of(s);
    let n: usize = cs.len();
    let mut i: usize = 0;
    assert(s@.skip(0) =~= s@);
    while i < n && !text::is_alphanumeric(cs[i])
        invariant
            cs@ == s@,
            n == cs.len(),
            i <= n,
            first_word(s@) == first_word(s@.skip(i as int)),
        decreases n - i,
    {
        assert(s@.skip(i as int).drop_first() =~= s@.skip(i + 1));
        i += 1;
    }
    if i == n {
        assert(s@.skip(i as int).len() == 0);
        return String::new();
    }
    let ghost word = leading_word(s@.skip(i as int));
    let mut out: String = String::new();
    assert(out@ + word =~= word);
    while i < n && text::is_alphanumeric(cs[i])
        invariant
            cs@ == s@,
            n == cs.len(),
            i <= n,
            word == out@ + leading_word(s@.skip(i as int)),
        decreases n - i,
    {
        let ghost before = out@;
        let ghost rest = s@.skip(i as int);
        out.push(cs[i]);
        assert(rest.drop_first() =~= s@.skip(i + 1));
        assert(before + (seq![rest[0]] + leading_word(s@.skip(i + 1))) =~= out@ + leading_word(
            s@.skip(i + 1),
        ));
        i += 1;
    }
    assert(leading_word(s@.skip(i as int)) =~= Seq::<char>::empty());
    assert(out@ + Seq::<char>::empty() =~= out@);
    out
}

/// Is the message a fact to file or a question? In order: nothing to go by, a
/// question mark at the end, a question word at the start, a lookup verb at
/// the start; anything else is a statement.
pub fn classify(message: &str) -> (r: IntentResult)
    ensures
        r == intent_of(message@),
{
    let trimmed = text::trim(message);
    if trimmed.is_empty() {
        return IntentResult { mode: Intent::Write, confidence_pct: 50 };
    }
    let lower = text::to_lowercase(trimmed);
    let word = take_first_word(lower.as_str());
    let cs = text::chars_of(trimmed);
    if cs[cs.len() - 1] == '?' {
        IntentResult { mode: Intent::Ask, confidence_pct: 95 }
    } else if is_interrogative(word.as_str()) {
        IntentResult { mode: Intent::Ask, confidence_pct: 85 }
    } else if is_query_verb(word.as_str()) {
        IntentResult { mode: Intent::Ask, confidence_pct: 80 }
    } else {
        IntentResult { mode: Intent::Write, confidence_pct: 75 }
    }
}

/// White space around a message does not change what it wants.
pub proof fn law_surrounding_space_is_ignored(message: Seq<char>)
    ensures
        intent_of(text::trimmed(message)) == intent_of(message),
{
    text::lemma_trimmed_twice(message);
}

/// A message that ends in a question mark asks, whatever it begins with; one that says
/// nothing is no question. Any other asks just where its first word is one that asks.
pub proof fn law_questions_ask(message: Seq<char>)
    ensures
        ({
            let t = text::trimmed(message);
            let r = intent_of(message);
            &&& t.len() == 0 ==> r.mode == Intent::Write && r.confidence_pct == 50
            &&& t.len() > 0 && t.last() == '?' ==> r.mode == Intent::Ask && r.confidence_pct == 95
            &&& t.len() > 0 && t.last() != '?' ==> (r.mode == Intent::Ask <==> interrogative(
                first_word(text::lowercase(t)),
            ) || query_verb(first_word(text::lowercase(t))))
            &&& r.mode == Intent::Write && t.len() > 0 ==> r.confidence_pct == 75
            &&& r.mode == Intent::Ask ==> r.confidence_pct >= 80
        }),
{
}

/// The first word of a text is its first run of letters and digits, whatever stands
/// before it and behind it.
pub proof fn law_first_words_stand_first(gap: Seq<char>, word: Seq<char>, rest: Seq<char>)
    requires
        forall|i: int| 0 <= i < gap.len() ==> !text::alphanumeric(#[trigger] gap[i]),
        forall|i: int| 0 <= i < word.len() ==> text::alphanumeric(#[trigger] word[i]),
        word.len() > 0,
        rest.len() == 0 || !text::alphanumeric(rest[0]),
    ensures
        first_word(gap + word + rest) == word,
    decreases gap.len(),
{
    let s = gap + word + rest;
    if gap.len() == 0 {
        assert(s =~= word + rest);
        assert(text::alphanumeric(word[0]));
        assert(s[0] == word[0]);
        lemma_leading_word(word, rest);
    } else {
        let tail = gap.drop_first();
        assert(!text::alphanumeric(gap[0]));
        assert(s[0] == gap[0]);
        assert forall|i: int| 0 <= i < tail.len() implies !text::alphanumeric(
            #[trigger] tail[i],
        ) by {
            assert(!text::alphanumeric(gap[i + 1]));
        }
        assert(s.drop_first() =~= tail + word + rest);
        law_first_words_stand_first(tail, word, rest);
    }
}

proof fn lemma_leading_word(word: Seq<char>, rest: Seq<char>)
    requires
        forall|i: int| 0 <= i < word.len() ==> text::alphanumeric(#[trigger] word[i]),
        rest.len() == 0 || !text::alphanumeric(rest[0]),
    ensures
        leading_word(word + rest) == word,
    decreases word.len(),
{
    let s = word + rest;
    if word.len() == 0 {
        assert(s =~= rest);
        assert(leading_word(s) =~= word);
    } else {
        let tail = word.drop_first();
        assert(text::alphanumeric(word[0]));
        assert forall|i: int| 0 <= i < tail.len() implies text::alphanumeric(#[trigger] tail[i]) by {
            assert(text::alphanumeric(word[i + 1]));
        }
        assert(s.drop_first() =~= tail + rest);
        lemma_leading_word(tail, rest);
        assert(seq![word[0]] + tail =~= word);
    }
}

/// The words that open a question.
pub open spec fn question_words() -> Seq<Seq<char>> {
    seq![
        "what"@,
        "who"@,
        "whom"@,
        "whose"@,
        "when"@,
        "where"@,
        "why"@,
        "how"@,
        "which"@,
        "is"@,
        "are"@,
        "was"@,
        "were"@,
        "do"@,
        "does"@,
        "did"@,
        "can"@,
        "could"@,
        "should"@,
        "will"@,
        "would"@,
        "has"@,
        "have"@,
    ]
}

/// The verbs that ask for something to be looked up.
pub open spec fn lookup_verbs() -> Seq<Seq<char>> {
    seq![
        "tell"@,
        "show"@,
        "find"@,
        "list"@,
        "summarize"@,
        "summarise"@,
        "explain"@,
        "describe"@,
        "remind"@,
        "search"@,
        "lookup"@,
    ]
}

/// A message without a question mark asks just where it begins, white space and marks
/// aside and in whatever case, with a word that opens a question or a verb that asks for
/// something to be looked up.
pub proof fn law_first_words_decide(message: Seq<char>)
    requires
        text::trimmed(message).len() > 0,
        text::trimmed(message).last() != '?',
    ensures
        ({
            let w = first_word(text::lowercase(text::trimmed(message)));
            &&& question_words().contains(w) || lookup_verbs().contains(w) <==> intent_of(
                message,
            ).mode == Intent::Ask
            &&& question_words().contains(w) ==> intent_of(message).confidence_pct == 85
            &&& lookup_verbs().contains(w) && !question_words().contains(w) ==> intent_of(
                message,
            ).confidence_pct == 80
        }),
{
    let w = first_word(text::lowercase(text::trimmed(message)));
    assert(question_words()[0] == "what"@);
    assert(question_words()[1] == "who"@);
    assert(question_words()[2] == "whom"@);
    assert(question_words()[3] == "whose"@);
    assert(question_words()[4] == "when"@);
    assert(question_words()[5] == "where"@);
    assert(question_words()[6] == "why"@);
    assert(question_words()[7] == "how"@);
    assert(question_words()[8] == "which"@);
    assert(question_words()[9] == "is"@);
    assert(question_words()[10] == "are"@);
    assert(question_words()[11] == "was"@);
    assert(question_words()[12] == "were"@);
    assert(question_words()[13] == "do"@);
    assert(question_words()[14] == "does"@);
    assert(question_words()[15] == "did"@);
    assert(question_words()[16] == "can"@);
    assert(question_words()[17] == "could"@);
    assert(question_words()[18] == "should"@);
    assert(question_words()[19] == "will"@);
    assert(question_words()[20] == "would"@);
    assert(question_words()[21] == "has"@);
    assert(question_words()[22] == "have"@);
    assert(lookup_verbs()[0] == "tell"@);
    assert(lookup_verbs()[1] == "show"@);
    assert(lookup_verbs()[2] == "find"@);
    assert(lookup_verbs()[3] == "list"@);
    assert(lookup_verbs()[4] == "summarize"@);
    assert(lookup_verbs()[5] == "summarise"@);
    assert(lookup_verbs()[6] == "explain"@);
    assert(lookup_verbs()[7] == "describe"@);
    assert(lookup_verbs()[8] == "remind"@);
    assert(lookup_verbs()[9] == "search"@);
    assert(lookup_verbs()[10] == "lookup"@);
    assert(question_words().contains(w) <==> interrogative(w));
    assert(lookup_verbs().contains(w) <==> query_verb(w));
}

} // verus!
