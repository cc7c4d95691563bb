//! How fast speech is transcribed: times, in whole nanoseconds.
use vstd::prelude::*;
use crate::capture;
use crate::error::AppError;
use crate::text;

verus! {

broadcast use vstd::string::group_string_axioms;

/// A measurement.
#[derive(Debug, PartialEq, Eq)]
pub struct Bench {
    start: Option<u64>,
    first_partial: Option<u64>,
    feed_latencies: Vec<u64>,
    compute: u64,
    samples_16k: u64,
}

/// What was measured.
#[verifier::ext_equal]
pub struct BenchView {
    /// When it began.
    pub start: Option<u64>,
    /// How long it took until there was any text.
    pub first_partial: Option<u64>,
    /// How long each step took.
    pub latencies: Seq<u64>,
    /// How long all steps took.
    pub compute: int,
    /// How many samples were fed.
    pub samples: int,
}

impl View for Bench {
    type V = BenchView;

    closed spec fn view(&self) -> BenchView {
        BenchView {
            start: self.start,
            first_partial: self.first_partial,
            latencies: self.feed_latencies@,
            compute: self.compute as int,
            samples: self.samples_16k as int,
        }
    }
}

impl Default for Bench {
    fn default() -> (r: Bench)
        ensures
            r@ == (BenchView {
                start: None,
                first_partial: None,
                latencies: Seq::empty(),
                compute: 0,
                samples: 0,
            }),
    {
        Bench {
            start: None,
            first_partial: None,
            feed_latencies: Vec::new(),
            compute: 0,
            samples_16k: 0,
        }
    }
}

/// How long it took until there was any text, once a step gave `text` at `now`.
pub open spec fn first_after(b: BenchView, text: Seq<char>, now: u64) -> Option<u64> {
    if b.first_partial is None && text::trimmed(text).len() > 0 && b.start is Some {
        Some((now - b.start->0) as u64)
    } else {
        b.first_partial
    }
}

/// The list in order, with one more.
pub open spec fn inserted(list: Seq<u64>, x: u64) -> Seq<u64>
    decreases list.len(),
{
    if list.len() == 0 || list.last() <= x {
        list.push(x)
    } else {
        inserted(list.drop_last(), x).push(list.last())
    }
}

/// The list, the smallest first.
pub open spec fn ascending(list: Seq<u64>) -> Seq<u64>
    decreases list.len(),
{
    if list.len() == 0 {
        Seq::empty()
    } else {
        inserted(ascending(list.drop_last()), list.last())
    }
}

/// The place of a percentile among `n` values: that part of the way from the
/// first to the last, to the nearest place.
pub open spec fn percentile_place(n: int, percent: int) -> int {
    ((n - 1) * percent * 2 + 100) / 200
}

fn insert_sorted(list: &mut Vec<u64>, x: u64)
    ensures
        final(list)@ == inserted(old(list)@, x),
{
    let ghost start = list@;
    let n: usize = list.len();
    let mut i: usize = n;
    assert(start.take(n as int) =~= start);
    assert(inserted(start, x) =~= inserted(start.take(i as int), x) + start.skip(i as int));
    while i > 0 && list[i - 1] > x
        invariant
            i <= n,
            n == list.len(),
            start == list@,
            inserted(start, x) == inserted(start.take(i as int), x) + start.skip(i as int),
        decreases i,
    {
        assert(start.take(i as int).last() == start[i - 1]);
        assert(start.take(i as int).drop_last() =~= start.take(i - 1));
        assert(inserted(start.take(i - 1), x).push(start[i - 1]) + start.skip(i as int)
            =~= inserted(start.take(i - 1), x) + start.skip(i - 1));
        i -= 1;
    }
    assert(i > 0 ==> start.take(i as int).last() == start[i - 1]);
    assert(inserted(start.take(i as int), x) =~= start.take(i as int).push(x));
    list.insert(i, x);
    assert(list@ =~= start.take(i as int).push(x) + start.skip(i as int));
}

fn sort(list: &Vec<u64>) -> (r: Vec<u64>)
    ensures
        r@ == ascending(list@),
{
    let mut out: Vec<u64> = Vec::new();
    let mut i: usize = 0;
    assert(list@.take(0) =~= Seq::<u64>::empty());
    while i < list.len()
        invariant
            i <= list.len(),
            out@ == ascending(list@.take(i as int)),
        decreases list.len() - i,
    {
        assert(list@.take(i + 1).drop_last() =~= list@.take(i as int));
        assert(list@.take(i + 1).last() == list@[i as int]);
        insert_sorted(&mut out, list[i]);
        i += 1;
    }
    assert(list@.take(i as int) =~= list@);
    out
}

proof fn lemma_place(n: int, percent: int)
    requires
        n > 0,
        0 <= percent <= 100,
    ensures
        0 <= percentile_place(n, percent) < n,
{
    let k = n - 1;
    assert(0 <= k * percent * 2 <= k * 200) by (nonlinear_arith)
        requires
            0 <= k,
            0 <= percent <= 100,
    ;
}

impl Bench {
    /// Begins at `now`.
    pub fn start(&mut self, now: u64)
        ensures
            final(self)@ == (BenchView { start: Some(now), ..old(self)@ }),
    {
        self.start = Some(now);
    }

    /// A step that took `dur` has fed `n_samples`, and gave `text` at `now`.
    pub fn record_feed(&mut self, dur: u64, n_samples: u64, text: &str, now: u64)
        requires
            old(self)@.compute + dur <= u64::MAX,
            old(self)@.samples + n_samples <= u64::MAX,
            old(self)@.start matches Some(s) ==> s <= now,
        ensures
            final(self)@ == (BenchView {
                start: old(self)@.start,
                first_partial: first_after(old(self)@, text@, now),
                latencies: old(self)@.latencies.push(dur),
                compute: old(self)@.compute + dur,
                samples: old(self)@.samples + n_samples,
            }),
    {
        self.compute = self.compute + dur;
        self.feed_latencies.push(dur);
        self.samples_16k = self.samples_16k + n_samples;
        if self.first_partial.is_none() && !text::trim(text).is_empty() {
            match self.start {
                Some(s) => {
                    self.first_partial = Some(now - s);
                },
                None => {},
            }
        }
    }

    /// How long it took until there was any text.
    pub fn first_partial(&self) -> (r: Option<u64>)
        ensures
            r == self@.first_partial,
    {
        self.first_partial
    }

    /// How long all steps took.
    pub fn compute(&self) -> (r: u64)
        ensures
            r == self@.compute,
    {
        self.compute
    }

    /// How many samples were fed.
    pub fn samples(&self) -> (r: u64)
        ensures
            r == self@.samples,
    {
        self.samples_16k
    }

    /// How many steps there were.
    pub fn steps(&self) -> (r: usize)
        ensures
            r == self@.latencies.len(),
    {
        self.feed_latencies.len()
    }

    /// The time that so many of a hundred steps took no longer than; none took
    /// any where there were none.
    pub fn percentile(&self, percent: u64) -> (r: u64)
        requires
            percent <= 100,
            self@.latencies.len() <= 0x0fff_ffff_ffff,
        ensures
            r == if self@.latencies.len() == 0 {
                0u64
            } else {
                ascending(self@.latencies)[percentile_place(
                    self@.latencies.len() as int,
                    percent as int,
                )]
            },
    {
        if self.feed_latencies.len() == 0 {
            return 0;
        }
        let v = sort(&self.feed_latencies);
        let n: u64 = v.len() as u64;
        proof {
            law_sorting_keeps_all(self.feed_latencies@);
            lemma_place(n as int, percent as int);
            assert((n - 1) * percent <= 0x0fff_ffff_ffff * 100) by (nonlinear_arith)
                requires
                    1 <= n <= 0x0fff_ffff_ffff,
                    percent <= 100,
            ;
        }
        let place: u64 = ((n - 1) * percent * 2 + 100) / 200;
        v[place as usize]
    }
}

proof fn lemma_inserted(list: Seq<u64>, x: u64)
    requires
        forall|i: int, j: int| 0 <= i < j < list.len() ==> list[i] <= list[j],
    ensures
        forall|i: int, j: int|
            0 <= i < j < inserted(list, x).len() ==> inserted(list, x)[i] <= inserted(list, x)[j],
        inserted(list, x).to_multiset() == list.to_multiset().insert(x),
        inserted(list, x).len() == list.len() + 1,
        forall|k: int|
            0 <= k < inserted(list, x).len() ==> (#[trigger] inserted(list, x)[k]) == x
                || list.contains(inserted(list, x)[k]),
    decreases list.len(),
{
    broadcast use vstd::seq_lib::group_to_multiset_ensures;

    if list.len() == 0 || list.last() <= x {
        let out = list.push(x);
        assert forall|k: int| 0 <= k < out.len() implies #[trigger] out[k] == x || list.contains(
            out[k],
        ) by {
            if k < list.len() {
                assert(list[k] == out[k]);
            }
        }
        assert forall|i: int, j: int| 0 <= i < j < out.len() implies out[i] <= out[j] by {
            if j == list.len() && i < list.len() - 1 {
                assert(list[i] <= list[list.len() - 1]);
            }
        }
    } else {
        let front = list.drop_last();
        let last = list.last();
        lemma_inserted(front, x);
        let mid = inserted(front, x);
        let out = mid.push(last);
        assert forall|k: int| 0 <= k < mid.len() implies #[trigger] mid[k] <= last by {
            if mid[k] != x {
                let q = choose|q: int| 0 <= q < front.len() && front[q] == mid[k];
                assert(list[q] <= list[list.len() - 1]);
            }
        }
        assert forall|i: int, j: int| 0 <= i < j < out.len() implies out[i] <= out[j] by {
            if j == mid.len() {
                assert(mid[i] <= last);
            }
        }
        assert forall|k: int| 0 <= k < out.len() implies #[trigger] out[k] == x || list.contains(
            out[k],
        ) by {
            if k < mid.len() {
                if mid[k] != x {
                    let q = choose|q: int| 0 <= q < front.len() && front[q] == mid[k];
                    assert(list[q] == out[k]);
                }
            } else {
                assert(list[list.len() - 1] == out[k]);
            }
        }
        assert(list =~= front.push(last));
        assert(front.to_multiset().insert(x).insert(last) =~= front.to_multiset().insert(
            last,
        ).insert(x));
    }
}

/// The times in order are the times that were measured, none lost and none added,
/// the shortest first.
pub proof fn law_sorting_keeps_all(list: Seq<u64>)
    ensures
        forall|i: int, j: int|
            0 <= i < j < ascending(list).len() ==> ascending(list)[i] <= ascending(list)[j],
        ascending(list).to_multiset() == list.to_multiset(),
        ascending(list).len() == list.len(),
    decreases list.len(),
{
    broadcast use vstd::seq_lib::group_to_multiset_ensures;

    if list.len() > 0 {
        law_sorting_keeps_all(list.drop_last());
        lemma_inserted(ascending(list.drop_last()), list.last());
        assert(list =~= list.drop_last().push(list.last()));
    } else {
        assert(ascending(list) =~= list);
    }
}

/// How many samples a step is fed: at least one.
pub fn chunk_samples(chunk_ms: u64) -> (r: u64)
    requires
        chunk_ms <= u64::MAX / 16_000,
    ensures
        r == if capture::TARGET_RATE as int * chunk_ms / 1000 == 0 {
            1
        } else {
            capture::TARGET_RATE as int * chunk_ms / 1000
        },
{
    assert(16_000 * chunk_ms <= u64::MAX);
    let n: u64 = capture::TARGET_RATE as u64 * chunk_ms / 1000;
    if n == 0 {
        1
    } else {
        n
    }
}

/// Where speech comes from.
#[derive(Debug, PartialEq, Eq)]
pub enum BenchInput {
    Wav(String),
    Mic,
}

/// Where speech comes from: a file or the microphone, and not both.
pub fn choose_input(wav: Option<String>, mic: bool) -> (r: Result<BenchInput, AppError>)
    ensures
        match (wav, mic) {
            (Some(path), false) => r == Ok::<BenchInput, AppError>(BenchInput::Wav(path)),
            (None, true) => r == Ok::<BenchInput, AppError>(BenchInput::Mic),
            _ => r matches Err(e) && e.text()
                == "choose exactly one input: --wav <path> OR --mic"@,
        },
{
    match (wav, mic) {
        (Some(path), false) => Ok(BenchInput::Wav(path)),
        (None, true) => Ok(BenchInput::Mic),
        _ => Err(AppError::other("choose exactly one input: --wav <path> OR --mic")),
    }
}

/// The first text is timed from the beginning, and later texts change nothing; white
/// space is no text.
pub proof fn law_first_text_is_timed(b: BenchView, text: Seq<char>, now: u64)
    requires
        b.start matches Some(s) ==> s <= now,
    ensures
        b.first_partial is Some ==> first_after(b, text, now) == b.first_partial,
        text::blank(text) || b.start is None ==> first_after(b, text, now) == b.first_partial,
        b.first_partial is None && !text::blank(text) ==> (b.start matches Some(s) ==> first_after(
            b,
            text,
            now,
        ) matches Some(d) && s + d == now),
{
    text::law_blank_texts_are_trimmed_away(text);
}

/// The least percentile is the shortest time and the greatest the longest; one in between
/// lies at the place that is nearest to its part of the way.
pub proof fn law_percentiles_go_from_first_to_last(n: int, percent: int)
    requires
        n > 0,
        0 <= percent <= 100,
    ensures
        percentile_place(n, 0) == 0,
        percentile_place(n, 100) == n - 1,
        -50 < 100 * percentile_place(n, percent) - (n - 1) * percent <= 50,
{
    let way = (n - 1) * percent;
    assert(way * 2 == (n - 1) * percent * 2);
    assert((n - 1) * 0 * 2 == 0) by (nonlinear_arith);
}

} // verus!
