//! Who is speaking: the voices of a meeting, by their likeness to one another.
//!
//! How like two voices are is a floating-point number that comes from outside;
//! what is decided from it is decided here.
use vstd::prelude::*;
use crate::extraction::Probability;
use crate::session;
use crate::text;

verus! {

broadcast use vstd::string::group_string_axioms;

/// The bits of 0.5: how like a voice must be to be taken for another.
pub const DIARIZE_THRESHOLD: u32 = 0x3F00_0000;

/// The bits of 0.06: how much liker another voice must be for the speaker to
/// change.
pub const STICKINESS_MARGIN: u32 = 0x3D75_C28F;

/// How many samples of speech it takes to know a voice: half a second.
pub const MIN_SAMPLES: usize = 8000;

/// A voice of the meeting.
#[derive(Debug, PartialEq, Eq)]
pub struct Voice {
    pub label: String,
    /// Whether it is a person's own: it is then not changed by what is heard.
    pub known: bool,
}

/// What is known of a voice.
pub open spec fn voice_view(v: Voice) -> (Seq<char>, bool) {
    (v.label@, v.known)
}

/// The voices, in their order.
pub open spec fn voice_views(v: Seq<Voice>) -> Seq<(Seq<char>, bool)> {
    v.map_values(|x: Voice| voice_view(x))
}

/// The voices of a meeting so far.
#[derive(Debug, PartialEq, Eq)]
pub struct Diarizer {
    clusters: Vec<Voice>,
    next_unknown: u64,
    last_label: Option<String>,
}

/// What a [`Diarizer`] knows.
#[verifier::ext_equal]
pub struct DiarizerView {
    pub voices: Seq<(Seq<char>, bool)>,
    pub next_unknown: int,
    pub last_label: Option<Seq<char>>,
}

impl View for Diarizer {
    type V = DiarizerView;

    closed spec fn view(&self) -> DiarizerView {
        DiarizerView {
            voices: voice_views(self.clusters@),
            next_unknown: self.next_unknown as int,
            last_label: text::opt_text(self.last_label),
        }
    }
}

/// The label of the `n`th voice that nobody has named.
pub open spec fn unknown_label(n: int) -> Seq<char> {
    session::UNKNOWN_SPEAKER@ + " "@ + text::decimal_text(n as nat)
}

/// A number is at least the threshold.
pub open spec fn is_like(score: Probability) -> bool {
    !score.is_nan() && score.rank() >= (Probability { bits: DIARIZE_THRESHOLD }).rank()
}

/// The likest of the first `n` voices, if any is like enough: the first of them
/// where several are equally like.
pub open spec fn likest(scores: Seq<Probability>, n: int) -> Option<int>
    decreases n,
{
    if n <= 0 {
        None
    } else {
        let s = scores[n - 1];
        match likest(scores, n - 1) {
            None => if is_like(s) {
                Some(n - 1)
            } else {
                None
            },
            Some(b) => if is_like(s) && scores[b].less(s) {
                Some(n - 1)
            } else {
                Some(b)
            },
        }
    }
}

/// The last of the first `n` voices with that label.
pub open spec fn last_with(voices: Seq<(Seq<char>, bool)>, label: Option<Seq<char>>, n: int) -> Option<
    int,
>
    decreases n,
{
    if n <= 0 {
        None
    } else if label == Some(voices[n - 1].0) {
        Some(n - 1)
    } else {
        last_with(voices, label, n - 1)
    }
}

/// The voices that a segment may be.
#[derive(Clone, Copy, Debug, PartialEq, Eq, Structural)]
pub struct Nearest {
    /// The likest voice, if any is like enough.
    pub best: Option<usize>,
    /// The voice that spoke last, where it is one of these.
    pub prev: Option<usize>,
}

/// The voice that a segment is taken for. The one that spoke last stays, where
/// it is like enough and the likest is not clearly liker.
pub open spec fn settled(near: Nearest, scores: Seq<Probability>, near_tie: bool) -> Option<usize> {
    match (near.best, near.prev) {
        (Some(b), Some(p)) => if b != p && is_like(scores[p as int]) && near_tie {
            Some(p)
        } else {
            Some(b)
        },
        (best, _) => best,
    }
}

/// What became of a segment.
#[derive(Debug, PartialEq, Eq)]
pub struct Assignment {
    pub label: String,
    /// The voice's place.
    pub cluster: usize,
    /// Whether the voice is a new one.
    pub fresh: bool,
    /// Whether what was heard goes into what is known of the voice.
    pub merges: bool,
}

/// The voices once some were renamed, one after the other.
pub open spec fn renamed(v: (Seq<char>, bool), from: Seq<char>, to: Seq<char>) -> (Seq<char>, bool) {
    if v.0 == from {
        (to, true)
    } else {
        v
    }
}

/// What is known once a voice was renamed.
pub open spec fn relabelled(d: DiarizerView, from: Seq<char>, to: Seq<char>) -> DiarizerView {
    DiarizerView {
        voices: d.voices.map_values(|v: (Seq<char>, bool)| renamed(v, from, to)),
        last_label: if d.last_label == Some(from) {
            Some(to)
        } else {
            d.last_label
        },
        ..d
    }
}

/// What is known once voices were renamed, one after the other.
pub open spec fn relabelled_all(d: DiarizerView, pending: Seq<(String, String)>) -> DiarizerView
    decreases pending.len(),
{
    if pending.len() == 0 {
        d
    } else {
        relabelled(
            relabelled_all(d, pending.drop_last()),
            pending.last().0@,
            pending.last().1@,
        )
    }
}

fn like_enough(score: Probability) -> (r: bool)
    ensures
        r == is_like(score),
{
    let t = Probability { bits: DIARIZE_THRESHOLD };
    let below = score.is_less(t);
    let nan = score.bits % 0x8000_0000 > 0x7F80_0000;
    assert(!t.is_nan());
    !nan && !below
}

impl Diarizer {
    /// A meeting in which nobody has spoken, with the people whose voices are
    /// known.
    pub fn new(known: &Vec<String>) -> (r: Diarizer)
        ensures
            r@.voices == text::texts(known@).map_values(|l: Seq<char>| (l, true)),
            r@.next_unknown == 1,
            r@.last_label is None,
    {
        let ghost all = text::texts(known@).map_values(|l: Seq<char>| (l, true));
        let mut clusters: Vec<Voice> = Vec::new();
        let mut i: usize = 0;
        assert(voice_views(clusters@) =~= all.take(0));
        while i < known.len()
            invariant
                i <= known.len(),
                all == text::texts(known@).map_values(|l: Seq<char>| (l, true)),
                voice_views(clusters@) == all.take(i as int),
            decreases known.len() - i,
        {
            let v = Voice { label: known[i].clone(), known: true };
            let ghost before = clusters@;
            let ghost vv = voice_view(v);
            clusters.push(v);
            assert(voice_views(clusters@) =~= voice_views(before).push(vv));
            assert(all[i as int] == vv);
            assert(all.take(i + 1) =~= all.take(i as int).push(vv));
            i += 1;
        }
        assert(all.take(i as int) =~= all);
        Diarizer { clusters, next_unknown: 1, last_label: None }
    }

    /// Takes up what voices were named while the meeting ran. A voice that was
    /// named is known from then on.
    pub fn apply_relabels(&mut self, pending: &Vec<(String, String)>)
        ensures
            final(self)@ == relabelled_all(old(self)@, pending@),
    {
        let ghost start = self@;
        let mut i: usize = 0;
        assert(pending@.take(0) =~= Seq::<(String, String)>::empty());
        while i < pending.len()
            invariant
                i <= pending.len(),
                self@ == relabelled_all(start, pending@.take(i as int)),
            decreases pending.len() - i,
        {
            assert(pending@.take(i + 1).drop_last() =~= pending@.take(i as int));
            assert(pending@.take(i + 1).last() == pending@[i as int]);
            self.relabel(pending[i].0.as_str(), pending[i].1.as_str());
            i += 1;
        }
        assert(pending@.take(i as int) =~= pending@);
    }

    fn relabel(&mut self, from: &str, to: &str)
        ensures
            final(self)@ == relabelled(old(self)@, from@, to@),
    {
        let ghost start = self@;
        let mut i: usize = 0;
        while i < self.clusters.len()
            invariant
                i <= self.clusters.len(),
                self.clusters@.len() == start.voices.len(),
                self.next_unknown == start.next_unknown,
                text::opt_text(self.last_label) == start.last_label,
                forall|k: int|
                    0 <= k < i ==> voice_view(#[trigger] self.clusters@[k]) == renamed(
                        start.voices[k],
                        from@,
                        to@,
                    ),
                forall|k: int|
                    i <= k < self.clusters@.len() ==> voice_view(#[trigger] self.clusters@[k])
                        == start.voices[k],
            decreases self.clusters.len() - i,
        {
            assert(voice_view(self.clusters@[i as int]) == start.voices[i as int]);
            if text::same(self.clusters[i].label.as_str(), from) {
                self.clusters.set(i, Voice { label: to.to_owned(), known: true });
            }
            i += 1;
        }
        let named = match &self.last_label {
            Some(l) => text::same(l.as_str(), from),
            None => false,
        };
        if named {
            self.last_label = Some(to.to_owned());
        }
        assert(voice_views(self.clusters@) =~= start.voices.map_values(
            |v: (Seq<char>, bool)| renamed(v, from@, to@),
        ));
        assert(self@ =~= relabelled(start, from@, to@));
    }

    /// The voices that a segment may be, given how like it is to each.
    pub fn nearest(&self, scores: &Vec<Probability>) -> (r: Nearest)
        requires
            scores@.len() == self@.voices.len(),
        ensures
            match r.best {
                Some(b) => likest(scores@, scores@.len() as int) == Some(b as int) && b
                    < scores@.len(),
                None => likest(scores@, scores@.len() as int) is None,
            },
            match r.prev {
                Some(p) => last_with(self@.voices, self@.last_label, scores@.len() as int) == Some(
                    p as int,
                ) && p < scores@.len(),
                None => last_with(self@.voices, self@.last_label, scores@.len() as int) is None,
            },
            match r.best {
                Some(b) => {
                    &&& !scores@[b as int].is_nan()
                    &&& !scores@[b as int].less(Probability { bits: DIARIZE_THRESHOLD })
                    &&& forall|j: int|
                        0 <= j < scores@.len() ==> !scores@[b as int].less(#[trigger] scores@[j])
                },
                None => forall|j: int|
                    0 <= j < scores@.len() && !(#[trigger] scores@[j]).is_nan() ==> scores@[j].less(
                        Probability { bits: DIARIZE_THRESHOLD },
                    ),
            },
    {
        proof {
            law_best_voice_is_a_maximum(scores@);
        }
        let mut best: Option<usize> = None;
        let mut prev: Option<usize> = None;
        let mut i: usize = 0;
        while i < scores.len()
            invariant
                scores@.len() == self@.voices.len(),
                i <= scores.len(),
                match best {
                    Some(b) => likest(scores@, i as int) == Some(b as int) && b < i,
                    None => likest(scores@, i as int) is None,
                },
                match prev {
                    Some(p) => last_with(self@.voices, self@.last_label, i as int) == Some(p as int)
                        && p < i,
                    None => last_with(self@.voices, self@.last_label, i as int) is None,
                },
            decreases scores.len() - i,
        {
            assert(self@.voices[i as int] == voice_view(self.clusters@[i as int]));
            let spoke = match &self.last_label {
                Some(l) => text::same(self.clusters[i].label.as_str(), l.as_str()),
                None => false,
            };
            if spoke {
                prev = Some(i);
            }
            let s = scores[i];
            if like_enough(s) {
                let liker = match best {
                    Some(b) => scores[b].is_less(s),
                    None => true,
                };
                if liker {
                    best = Some(i);
                }
            }
            i += 1;
        }
        Nearest { best, prev }
    }

    /// Takes a segment for one of the voices, or for a new one. `near_tie` says
    /// whether the likest voice is not clearly liker than the one that spoke
    /// last.
    pub fn assign_embedding(
        &mut self,
        near: Nearest,
        scores: &Vec<Probability>,
        near_tie: bool,
    ) -> (r: Assignment)
        requires
            near.best matches Some(b) ==> b < old(self)@.voices.len(),
            near.prev matches Some(p) ==> p < old(self)@.voices.len(),
            scores@.len() == old(self)@.voices.len(),
            old(self)@.next_unknown < u64::MAX,
        ensures
            match settled(near, scores@, near_tie) {
                Some(i) => {
                    let v = old(self)@.voices[i as int];
                    &&& r.label@ == v.0
                    &&& r.cluster == i
                    &&& !r.fresh
                    &&& r.merges == !v.1
                    &&& final(self)@ == (DiarizerView { last_label: Some(v.0), ..old(self)@ })
                },
                None => {
                    let label = unknown_label(old(self)@.next_unknown);
                    &&& r.label@ == label
                    &&& r.cluster == old(self)@.voices.len()
                    &&& r.fresh
                    &&& !r.merges
                    &&& final(self)@ == (DiarizerView {
                        voices: old(self)@.voices.push((label, false)),
                        next_unknown: old(self)@.next_unknown + 1,
                        last_label: Some(label),
                    })
                },
            },
    {
        let ghost start = self@;
        let chosen: Option<usize> = match (near.best, near.prev) {
            (Some(b), Some(p)) => if b != p && like_enough(scores[p]) && near_tie {
                Some(p)
            } else {
                Some(b)
            },
            (best, _) => best,
        };
        match chosen {
            Some(i) => {
                assert(start.voices[i as int] == voice_view(self.clusters@[i as int]));
                let label = self.clusters[i].label.clone();
                let merges = !self.clusters[i].known;
                self.last_label = Some(label.clone());
                assert(self@ =~= (DiarizerView { last_label: Some(label@), ..start }));
                Assignment { label, cluster: i, fresh: false, merges }
            },
            None => {
                let label = self.fresh_unknown_label();
                let cluster: usize = self.clusters.len();
                let ghost before = self.clusters@;
                let v = Voice { label: label.clone(), known: false };
                let ghost vv = voice_view(v);
                self.clusters.push(v);
                assert(voice_views(self.clusters@) =~= voice_views(before).push(vv));
                self.last_label = Some(label.clone());
                assert(self@ =~= (DiarizerView {
                    voices: start.voices.push((label@, false)),
                    next_unknown: start.next_unknown + 1,
                    last_label: Some(label@),
                }));
                Assignment { label, cluster, fresh: true, merges: false }
            },
        }
    }

    /// The first voice with a label: the one whose centroid stands for it.
    pub fn first_labelled(&self, label: &str) -> (r: Option<usize>)
        ensures
            match r {
                Some(i) => {
                    &&& i < self@.voices.len()
                    &&& self@.voices[i as int].0 == label@
                    &&& forall|j: int| 0 <= j < i ==> (#[trigger] self@.voices[j]).0 != label@
                },
                None => forall|j: int|
                    0 <= j < self@.voices.len() ==> (#[trigger] self@.voices[j]).0 != label@,
            },
    {
        let mut i: usize = 0;
        while i < self.clusters.len()
            invariant
                i <= self.clusters.len(),
                forall|j: int| 0 <= j < i ==> (#[trigger] self@.voices[j]).0 != label@,
            decreases self.clusters.len() - i,
        {
            assert(self@.voices[i as int] == voice_view(self.clusters@[i as int]));
            if text::same(self.clusters[i].label.as_str(), label) {
                return Some(i);
            }
            i += 1;
        }
        None
    }

    /// Takes a segment that is too short to know a voice by for the voice that
    /// spoke last; where none did, for one that nobody has named.
    pub fn assign_silent(&mut self) -> (r: String)
        requires
            old(self)@.next_unknown < u64::MAX,
        ensures
            match old(self)@.last_label {
                Some(l) => r@ == l && final(self)@ == old(self)@,
                None => r@ == unknown_label(old(self)@.next_unknown) && final(self)@ == (
                DiarizerView {
                    next_unknown: old(self)@.next_unknown + 1,
                    last_label: Some(r@),
                    ..old(self)@
                }),
            },
    {
        let last = match &self.last_label {
            Some(l) => Some(l.clone()),
            None => None,
        };
        match last {
            Some(l) => l,
            None => {
                let ghost start = self@;
                let label = self.fresh_unknown_label();
                self.last_label = Some(label.clone());
                assert(self@ =~= (DiarizerView {
                    next_unknown: start.next_unknown + 1,
                    last_label: Some(label@),
                    ..start
                }));
                label
            },
        }
    }

    fn fresh_unknown_label(&mut self) -> (r: String)
        requires
            old(self)@.next_unknown < u64::MAX,
        ensures
            r@ == unknown_label(old(self)@.next_unknown),
            final(self)@ == (DiarizerView {
                next_unknown: old(self)@.next_unknown + 1,
                ..old(self)@
            }),
    {
        let mut label = session::UNKNOWN_SPEAKER.to_owned();
        label.append(" ");
        label.append(text::decimal(self.next_unknown).as_str());
        self.next_unknown = self.next_unknown + 1;
        label
    }
}

/// Two voices that nobody has named never have the same label.
pub proof fn law_unknown_labels_differ(a: int, b: int)
    requires
        0 <= a,
        0 <= b,
        a != b,
    ensures
        unknown_label(a) != unknown_label(b),
{
    if unknown_label(a) == unknown_label(b) {
        let head = session::UNKNOWN_SPEAKER@ + " "@;
        let n = head.len() as int;
        assert(unknown_label(a).skip(n) =~= text::decimal_text(a as nat));
        assert(unknown_label(b).skip(n) =~= text::decimal_text(b as nat));
        text::lemma_decimal_injective(a as nat, b as nat);
    }
}

/// A voice that was named stays named: what it says later goes by the name that
/// it was given.
pub proof fn law_named_voices_stay_named(d: DiarizerView, from: Seq<char>, to: Seq<char>, i: int)
    requires
        0 <= i < d.voices.len(),
        d.voices[i].0 == from,
    ensures
        relabelled(d, from, to).voices[i] == (to, true),
{
}

/// A label of a voice that nobody has named is told as such.
pub proof fn law_unknown_labels_are_unknown(n: int)
    ensures
        text::begins(unknown_label(n), session::UNKNOWN_SPEAKER@),
{
    let head = session::UNKNOWN_SPEAKER@;
    assert(unknown_label(n).take(head.len() as int) =~= head);
}

/// The likest voice is a greatest one: it is at least the threshold, no number among
/// the scores is greater, and none before it is as great. Where there is none, no
/// score reaches the threshold.
pub proof fn law_best_voice_is_a_maximum(scores: Seq<Probability>)
    ensures
        ({
            let t = Probability { bits: DIARIZE_THRESHOLD };
            match likest(scores, scores.len() as int) {
                Some(b) => {
                    &&& 0 <= b < scores.len()
                    &&& !scores[b].is_nan() && scores[b].rank() >= t.rank()
                    &&& forall|j: int|
                        0 <= j < scores.len() && !(#[trigger] scores[j]).is_nan()
                            ==> scores[j].rank() <= scores[b].rank()
                    &&& forall|j: int|
                        0 <= j < b && !(#[trigger] scores[j]).is_nan() ==> scores[j].rank()
                            < scores[b].rank()
                },
                None => forall|j: int|
                    0 <= j < scores.len() && !(#[trigger] scores[j]).is_nan() ==> scores[j].rank()
                        < t.rank(),
            }
        }),
{
    lemma_likest(scores, scores.len() as int);
}

/// What the likest of the first voices is, by its score.
proof fn lemma_likest(scores: Seq<Probability>, n: int)
    requires
        0 <= n <= scores.len(),
    ensures
        ({
            let t = Probability { bits: DIARIZE_THRESHOLD };
            match likest(scores, n) {
                Some(b) => {
                    &&& 0 <= b < n
                    &&& !scores[b].is_nan() && scores[b].rank() >= t.rank()
                    &&& forall|j: int|
                        0 <= j < n && !(#[trigger] scores[j]).is_nan() ==> scores[j].rank()
                            <= scores[b].rank()
                    &&& forall|j: int|
                        0 <= j < b && !(#[trigger] scores[j]).is_nan() ==> scores[j].rank()
                            < scores[b].rank()
                },
                None => forall|j: int|
                    0 <= j < n && !(#[trigger] scores[j]).is_nan() ==> scores[j].rank() < t.rank(),
            }
        }),
    decreases n,
{
    if n > 0 {
        lemma_likest(scores, n - 1);
    }
}

/// The voice that spoke last, among several with its label, is the last of them; there
/// is none where no voice has the label, or where nobody spoke.
pub proof fn law_previous_voice_has_the_last_label(
    voices: Seq<(Seq<char>, bool)>,
    label: Option<Seq<char>>,
)
    ensures
        match last_with(voices, label, voices.len() as int) {
            Some(p) => {
                &&& 0 <= p < voices.len()
                &&& label == Some(voices[p].0)
                &&& forall|j: int|
                    p < j < voices.len() ==> label != Some((#[trigger] voices[j]).0)
            },
            None => forall|j: int|
                0 <= j < voices.len() ==> label != Some((#[trigger] voices[j]).0),
        },
{
    lemma_last_with(voices, label, voices.len() as int);
}

proof fn lemma_last_with(voices: Seq<(Seq<char>, bool)>, label: Option<Seq<char>>, n: int)
    requires
        0 <= n <= voices.len(),
    ensures
        match last_with(voices, label, n) {
            Some(p) => {
                &&& 0 <= p < n
                &&& label == Some(voices[p].0)
                &&& forall|j: int| p < j < n ==> label != Some((#[trigger] voices[j]).0)
            },
            None => forall|j: int| 0 <= j < n ==> label != Some((#[trigger] voices[j]).0),
        },
    decreases n,
{
    if n > 0 {
        lemma_last_with(voices, label, n - 1);
    }
}

/// A segment that is like enough to some voice is never a new voice, and one that is
/// like none always is. It is taken for the likest voice, or for the one that spoke
/// last: for that one just where it is like enough itself and the likest is not
/// clearly liker.
pub proof fn law_speaker_changes_only_when_clear(
    near: Nearest,
    scores: Seq<Probability>,
    near_tie: bool,
)
    requires
        near.best matches Some(b) ==> b < scores.len(),
        near.prev matches Some(p) ==> p < scores.len(),
    ensures
        near.best is None <==> settled(near, scores, near_tie) is None,
        near.best is Some ==> settled(near, scores, near_tie) == near.best || settled(
            near,
            scores,
            near_tie,
        ) == near.prev,
        !near_tie ==> settled(near, scores, near_tie) == near.best,
        near.prev is None ==> settled(near, scores, near_tie) == near.best,
        near.best is Some && near_tie ==> (near.prev matches Some(p) ==> {
            let t = Probability { bits: DIARIZE_THRESHOLD };
            let s = scores[p as int];
            if !s.is_nan() && s.rank() >= t.rank() {
                settled(near, scores, near_tie) == Some(p)
            } else {
                settled(near, scores, near_tie) == near.best
            }
        }),
{
}

/// Renaming a voice touches no voice with another label, and nobody's turn but that of
/// whoever is renamed.
pub proof fn law_renaming_leaves_the_others(
    d: DiarizerView,
    from: Seq<char>,
    to: Seq<char>,
    i: int,
)
    requires
        0 <= i < d.voices.len(),
    ensures
        relabelled(d, from, to).voices.len() == d.voices.len(),
        d.voices[i].0 != from ==> relabelled(d, from, to).voices[i] == d.voices[i],
        d.last_label == Some(from) ==> relabelled(d, from, to).last_label == Some(to),
        d.last_label != Some(from) ==> relabelled(d, from, to).last_label == d.last_label,
        relabelled(d, from, to).next_unknown == d.next_unknown,
{
}

/// Voices are renamed in the order in which they were named: a later name goes by what
/// the earlier ones left.
pub proof fn law_renamings_follow_one_another(
    d: DiarizerView,
    first: Seq<(String, String)>,
    then: Seq<(String, String)>,
)
    ensures
        relabelled_all(d, first + then) == relabelled_all(relabelled_all(d, first), then),
    decreases then.len(),
{
    if then.len() == 0 {
        assert(first + then =~= first);
    } else {
        law_renamings_follow_one_another(d, first, then.drop_last());
        assert((first + then).drop_last() =~= first + then.drop_last());
        assert((first + then).last() == then.last());
    }
}

/// One renaming gives its second name to every voice that has its first.
pub proof fn law_one_renaming(d: DiarizerView, p: (String, String), i: int)
    requires
        0 <= i < d.voices.len(),
    ensures
        ({
            let after = relabelled_all(d, seq![p]);
            &&& after.voices.len() == d.voices.len()
            &&& d.voices[i].0 == p.0@ ==> after.voices[i] == (p.1@, true)
            &&& d.voices[i].0 != p.0@ ==> after.voices[i] == d.voices[i]
            &&& d.last_label == Some(p.0@) ==> after.last_label == Some(p.1@)
        }),
{
    assert(seq![p].drop_last() =~= Seq::<(String, String)>::empty());
    assert(relabelled_all(d, seq![p].drop_last()) == d);
}

} // verus!
