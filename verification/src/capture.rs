//! Two streams of sound made one: the microphone's, and what the machine plays.
//!
//! A sample is a floating-point number, held by its bits; nothing is computed
//! with samples here.
use std::collections::VecDeque;
use vstd::prelude::*;

verus! {

/// What a stream of sound is made of.
#[derive(Clone, Copy, Debug, PartialEq, Eq, Structural)]
pub struct CaptureFormat {
    pub sample_rate: u32,
    pub channels: u16,
}

/// The samples a second that a transcriber takes.
pub const TARGET_RATE: u32 = 16_000;

/// How many samples of the second stream are kept: five seconds of them.
pub const B_CAP: usize = 80_000;

/// What is captured once two streams are made one.
pub fn mixed_format() -> (r: CaptureFormat)
    ensures
        r.sample_rate == TARGET_RATE,
        r.channels == 1,
{
    CaptureFormat { sample_rate: TARGET_RATE, channels: 1 }
}

/// Two streams that wait to be made one. The first sets the pace.
#[derive(Debug)]
pub struct Mixer {
    a: VecDeque<u32>,
    b: VecDeque<u32>,
}

/// The samples that wait.
#[verifier::ext_equal]
pub struct MixerView {
    pub a: Seq<u32>,
    pub b: Seq<u32>,
}

impl View for Mixer {
    type V = MixerView;

    closed spec fn view(&self) -> MixerView {
        MixerView { a: self.a@, b: self.b@ }
    }
}

/// The last `n` samples, or all of them.
pub open spec fn last_samples(s: Seq<u32>, n: int) -> Seq<u32> {
    if s.len() <= n {
        s
    } else {
        s.skip(s.len() - n)
    }
}

/// The sample, or silence where there is none.
pub open spec fn sample_at(s: Seq<u32>, i: int) -> u32 {
    if i < s.len() {
        s[i]
    } else {
        0
    }
}

impl Default for Mixer {
    fn default() -> (r: Mixer)
        ensures
            r@.a.len() == 0,
            r@.b.len() == 0,
    {
        Mixer { a: VecDeque::new(), b: VecDeque::new() }
    }
}

impl Mixer {
    /// Samples of the first stream.
    pub fn push_a(&mut self, samples: &[u32])
        ensures
            final(self)@ == (MixerView { a: old(self)@.a + samples@, ..old(self)@ }),
    {
        let ghost start = self.a@;
        let mut i: usize = 0;
        assert(start + samples@.take(0) =~= start);
        while i < samples.len()
            invariant
                i <= samples.len(),
                self.a@ == start + samples@.take(i as int),
                self.b@ == old(self)@.b,
            decreases samples.len() - i,
        {
            self.a.push_back(samples[i]);
            assert(self.a@ =~= start + samples@.take(i + 1));
            i += 1;
        }
        assert(samples@.take(i as int) =~= samples@);
    }

    /// Samples of the second stream. Where too many wait, the oldest are dropped.
    pub fn push_b(&mut self, samples: &[u32])
        ensures
            final(self)@ == (MixerView {
                b: last_samples(old(self)@.b + samples@, B_CAP as int),
                ..old(self)@
            }),
    {
        let ghost start = self.b@;
        let mut i: usize = 0;
        assert(start + samples@.take(0) =~= start);
        while i < samples.len()
            invariant
                i <= samples.len(),
                self.b@ == start + samples@.take(i as int),
                self.a@ == old(self)@.a,
            decreases samples.len() - i,
        {
            self.b.push_back(samples[i]);
            assert(self.b@ =~= start + samples@.take(i + 1));
            i += 1;
        }
        assert(samples@.take(i as int) =~= samples@);
        let ghost all = self.b@;
        let ghost mut dropped: int = 0;
        assert(all.skip(0) =~= all);
        while self.b.len() > B_CAP
            invariant
                0 <= dropped <= all.len(),
                self.b@ == all.skip(dropped),
                dropped > 0 ==> all.len() - dropped >= B_CAP,
                self.a@ == old(self)@.a,
            decreases self.b.len(),
        {
            let _ = self.b.pop_front();
            proof {
                assert(all.skip(dropped).drop_first() =~= all.skip(dropped + 1));
                dropped = dropped + 1;
            }
            assert(self.b@ =~= all.skip(dropped));
        }
        assert(self.b@ =~= last_samples(all, B_CAP as int));
    }

    /// Takes out what waits of the first stream, each sample with the one of the
    /// second that goes with it, or with silence.
    pub fn drain(&mut self) -> (r: Vec<(u32, u32)>)
        ensures
            r@.len() == old(self)@.a.len(),
            forall|i: int|
                0 <= i < r@.len() ==> #[trigger] r@[i] == (
                    old(self)@.a[i],
                    sample_at(old(self)@.b, i),
                ),
            final(self)@.a.len() == 0,
            final(self)@.b == if old(self)@.b.len() <= old(self)@.a.len() {
                Seq::<u32>::empty()
            } else {
                old(self)@.b.skip(old(self)@.a.len() as int)
            },
    {
        let ghost a = self.a@;
        let ghost b = self.b@;
        let n: usize = self.a.len();
        let mut out: Vec<(u32, u32)> = Vec::new();
        let mut i: usize = 0;
        assert(a.skip(0) =~= a);
        assert(b.skip(0) =~= b);
        while i < n
            invariant
                i <= n,
                n == a.len(),
                self.a@ == a.skip(i as int),
                self.b@ == if b.len() <= i {
                    Seq::<u32>::empty()
                } else {
                    b.skip(i as int)
                },
                out@.len() == i,
                forall|k: int| 0 <= k < i ==> #[trigger] out@[k] == (a[k], sample_at(b, k)),
            decreases n - i,
        {
            let x: u32 = match self.a.pop_front() {
                Some(v) => v,
                None => 0,
            };
            let y: u32 = match self.b.pop_front() {
                Some(v) => v,
                None => 0,
            };
            out.push((x, y));
            assert(a.skip(i as int).drop_first() =~= a.skip(i + 1));
            proof {
                if b.len() > i {
                    assert(b.skip(i as int).drop_first() =~= b.skip(i + 1));
                }
            }
            assert(self.a@ =~= a.skip(i + 1));
            i += 1;
        }
        assert(self.a@ =~= Seq::<u32>::empty());
        out
    }
}

/// Of too many samples the newest are kept, and all of what is not too much.
pub proof fn law_the_newest_samples_are_kept(s: Seq<u32>, n: int, i: int)
    requires
        0 <= n,
        0 <= i < last_samples(s, n).len(),
    ensures
        last_samples(s, n).len() == if s.len() <= n {
            s.len() as int
        } else {
            n
        },
        last_samples(s, n)[last_samples(s, n).len() - 1 - i] == s[s.len() - 1 - i],
{
}

/// A sample goes with the one of the other stream at its place, and with silence where
/// that stream has come to its end.
pub proof fn law_missing_samples_are_silence(s: Seq<u32>, i: int)
    requires
        0 <= i,
    ensures
        i < s.len() ==> sample_at(s, i) == s[i],
        i >= s.len() ==> sample_at(s, i) == 0,
{
}

} // verus!
