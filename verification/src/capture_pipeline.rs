//! From sound to the lines of a transcript: what is said, by whom and when.
use vstd::prelude::*;
use crate::capture;
use crate::text;

verus! {

/// Something the transcriber heard.
#[derive(Debug, PartialEq, Eq)]
pub struct Utterance {
    pub text: String,
    /// Whether it will not change any more.
    pub is_final: bool,
}

/// A line of the transcript.
#[derive(Debug, PartialEq, Eq)]
pub struct Segment {
    /// Milliseconds since the meeting began.
    pub offset_ms: i64,
    pub speaker: String,
    pub text: String,
}

/// What a line says.
pub struct SegmentView {
    pub offset_ms: int,
    pub speaker: Seq<char>,
    pub text: Seq<char>,
}

impl View for Segment {
    type V = SegmentView;

    open spec fn view(&self) -> SegmentView {
        SegmentView {
            offset_ms: self.offset_ms as int,
            speaker: self.speaker@,
            text: self.text@,
        }
    }
}

/// The lines, in their order.
pub open spec fn segment_views(v: Seq<Segment>) -> Seq<SegmentView> {
    v.map_values(|s: Segment| s@)
}

/// The most samples that can be counted.
pub const MAX_SAMPLES: u64 = 9_223_372_036_854_775;

/// How long so many samples take, in whole milliseconds.
pub open spec fn millis_of(samples: int) -> int {
    samples * 1000 / capture::TARGET_RATE as int
}

/// How long so many samples take, in whole milliseconds.
pub fn offset_ms(samples: u64) -> (r: i64)
    requires
        samples <= MAX_SAMPLES,
    ensures
        r == millis_of(samples as int),
{
    (samples as i64 * 1000) / capture::TARGET_RATE as i64
}

/// The lines of some utterances heard at that time: the final ones, or all.
pub open spec fn lines_of_utterances(
    heard: Seq<Utterance>,
    all: bool,
    offset: int,
    speaker: Seq<char>,
) -> Seq<SegmentView>
    decreases heard.len(),
{
    if heard.len() == 0 {
        Seq::empty()
    } else {
        let front = lines_of_utterances(heard.drop_last(), all, offset, speaker);
        if all || heard.last().is_final {
            front.push(SegmentView { offset_ms: offset, speaker, text: heard.last().text@ })
        } else {
            front
        }
    }
}

fn collect(heard: &Vec<Utterance>, all: bool, offset: i64, speaker: &str) -> (r: Vec<Segment>)
    ensures
        segment_views(r@) == lines_of_utterances(heard@, all, offset as int, speaker@),
{
    let mut out: Vec<Segment> = Vec::new();
    let mut i: usize = 0;
    assert(heard@.take(0) =~= Seq::<Utterance>::empty());
    assert(segment_views(out@) =~= Seq::<SegmentView>::empty());
    while i < heard.len()
        invariant
            i <= heard.len(),
            segment_views(out@) == lines_of_utterances(
                heard@.take(i as int),
                all,
                offset as int,
                speaker@,
            ),
        decreases heard.len() - i,
    {
        assert(heard@.take(i + 1).drop_last() =~= heard@.take(i as int));
        assert(heard@.take(i + 1).last() == heard@[i as int]);
        if all || heard[i].is_final {
            let s = Segment {
                offset_ms: offset,
                speaker: speaker.to_owned(),
                text: heard[i].text.clone(),
            };
            let ghost before = out@;
            let ghost sv = s@;
            out.push(s);
            assert(segment_views(out@) =~= segment_views(before).push(sv));
        }
        i += 1;
    }
    assert(heard@.take(i as int) =~= heard@);
    out
}

/// A transcript in the making.
#[derive(Debug, PartialEq, Eq)]
pub struct Pipeline {
    speaker: String,
    total: u64,
}

/// What a [`Pipeline`] knows.
pub struct PipelineView {
    pub speaker: Seq<char>,
    /// How many samples have been heard.
    pub total: int,
}

impl View for Pipeline {
    type V = PipelineView;

    closed spec fn view(&self) -> PipelineView {
        PipelineView { speaker: self.speaker@, total: self.total as int }
    }
}

impl Pipeline {
    /// A transcript that nothing has been heard for; all that will be is put down
    /// to one speaker.
    pub fn new(speaker: &str) -> (r: Pipeline)
        ensures
            r@ == (PipelineView { speaker: speaker@, total: 0 }),
    {
        Pipeline { speaker: speaker.to_owned(), total: 0 }
    }

    /// Samples came in, and this was heard once they had: the lines of what is
    /// final.
    pub fn accept(&mut self, samples: usize, heard: &Vec<Utterance>) -> (r: Vec<Segment>)
        requires
            old(self)@.total + samples <= MAX_SAMPLES,
        ensures
            final(self)@ == (PipelineView { total: old(self)@.total + samples, ..old(self)@ }),
            segment_views(r@) == lines_of_utterances(
                heard@,
                false,
                millis_of(old(self)@.total + samples),
                old(self)@.speaker,
            ),
    {
        self.total = self.total + samples as u64;
        let at: i64 = offset_ms(self.total);
        collect(heard, false, at, self.speaker.as_str())
    }

    /// The sound has ended, and this was heard last: the lines of all of it.
    pub fn finish(&self, heard: &Vec<Utterance>) -> (r: Vec<Segment>)
        requires
            self@.total <= MAX_SAMPLES,
        ensures
            segment_views(r@) == lines_of_utterances(
                heard@,
                true,
                millis_of(self@.total),
                self@.speaker,
            ),
    {
        let at: i64 = offset_ms(self.total);
        collect(heard, true, at, self.speaker.as_str())
    }
}

/// The speaker of a line: the one that the voice was taken for, else the one that
/// stands for all.
pub fn speaker_of(resolved: Option<String>, placeholder: &str) -> (r: String)
    ensures
        r@ == match resolved {
            Some(s) => s@,
            None => placeholder@,
        },
{
    match resolved {
        Some(s) => s,
        None => placeholder.to_owned(),
    }
}

/// What is heard later stands later in the transcript, or at the same time.
pub proof fn law_time_goes_on(earlier: int, later: int)
    requires
        0 <= earlier <= later,
    ensures
        millis_of(earlier) <= millis_of(later),
{
    assert(earlier * 1000 / 16000 <= later * 1000 / 16000) by (nonlinear_arith)
        requires
            0 <= earlier <= later,
    ;
}

/// All lines of one moment have its time and its speaker.
pub proof fn law_lines_are_of_their_moment(
    heard: Seq<Utterance>,
    all: bool,
    offset: int,
    speaker: Seq<char>,
    i: int,
)
    requires
        0 <= i < lines_of_utterances(heard, all, offset, speaker).len(),
    ensures
        lines_of_utterances(heard, all, offset, speaker)[i].offset_ms == offset,
        lines_of_utterances(heard, all, offset, speaker)[i].speaker == speaker,
    decreases heard.len(),
{
    let front = lines_of_utterances(heard.drop_last(), all, offset, speaker);
    if i < front.len() {
        law_lines_are_of_their_moment(heard.drop_last(), all, offset, speaker, i);
    }
}

/// A line is written for each utterance that is final, and at the end for the others too:
/// in their order, with what was said, when and by whom.
pub proof fn law_final_words_are_written(
    heard: Seq<Utterance>,
    u: Utterance,
    all: bool,
    offset: int,
    speaker: Seq<char>,
)
    ensures
        ({
            let before = lines_of_utterances(heard, all, offset, speaker);
            let after = lines_of_utterances(heard.push(u), all, offset, speaker);
            if u.is_final || all {
                &&& after.len() == before.len() + 1
                &&& after.drop_last() == before
                &&& after.last().text == u.text@
                &&& after.last().offset_ms == offset
                &&& after.last().speaker == speaker
            } else {
                after == before
            }
        }),
{
    assert(heard.push(u).drop_last() =~= heard);
    let after = lines_of_utterances(heard.push(u), all, offset, speaker);
    if u.is_final || all {
        assert(after.drop_last() =~= lines_of_utterances(heard, all, offset, speaker));
    }
}

/// Sixteen samples take a millisecond, so a second holds sixteen thousand.
pub proof fn law_samples_take_their_time(millis: int, more: int)
    requires
        0 <= millis,
        0 <= more < 16,
    ensures
        millis_of(16 * millis + more) == millis,
{
    assert((16 * millis + more) * 1000 / 16_000 == millis) by (nonlinear_arith)
        requires
            0 <= millis,
            0 <= more < 16,
    ;
}

} // verus!
