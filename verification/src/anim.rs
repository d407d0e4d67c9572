//! Animation definitions and the per-instance tick state machine.
//!
//! An [`Animation`] is an immutable definition (source sheet, frame sequence,
//! per-frame duration, completion policy) together with the mutable playback
//! state of one entity: the current position in the frame sequence, the time
//! accumulated toward the next frame, and the completion flag.  Durations are
//! measured in whole microseconds so that the timing arithmetic is exact.

use vstd::prelude::*;
use vstd::arithmetic::div_mod::{lemma_add_mod_noop_right, lemma_mod_bound, lemma_small_mod};
use crate::table::{assoc_get, lemma_assoc_get_absent, lemma_assoc_get_first_match,
    lemma_assoc_get_push, lemma_assoc_get_update};

verus! {

/// Completion policy of an animation.
///
/// * `Once`: plays once and stops on the last frame
/// * `Repeat`: loops indefinitely
/// * `Despawn`: the entity is despawned on completion
#[derive(Debug, Clone, Copy, PartialEq, Eq, Structural)]
pub enum AnimationType {
    Once,
    Repeat,
    Despawn,
}

/// Mathematical model of one animation instance.
pub struct AnimationView {
    pub position: int,
    pub sheet_name: Seq<char>,
    pub frames: Seq<usize>,
    pub frame_micros: int,
    pub elapsed_micros: int,
    pub animation_type: AnimationType,
    pub finished: bool,
}

impl AnimationView {
    /// Well-formedness: a non-empty frame sequence, a position inside it,
    /// a positive frame duration, and a non-negative accumulator.
    pub open spec fn wf(self) -> bool {
        &&& self.frames.len() > 0
        &&& 0 <= self.position < self.frames.len()
        &&& self.frame_micros > 0
        &&& self.elapsed_micros >= 0
    }

    /// The tile index currently displayed by this instance.
    pub open spec fn current_frame(self) -> usize
        recommends
            self.wf(),
    {
        self.frames[self.position]
    }
}

/// One advance of the frame position, applied when the accumulated time has
/// reached the frame duration.
pub open spec fn advance_spec(a: AnimationView) -> AnimationView {
    if a.animation_type == AnimationType::Repeat {
        AnimationView { position: (a.position + 1) % (a.frames.len() as int), elapsed_micros: 0, ..a }
    } else if a.position < a.frames.len() - 1 {
        AnimationView { position: a.position + 1, elapsed_micros: 0, ..a }
    } else {
        AnimationView { finished: true, ..a }
    }
}

/// One tick: accumulate the delta, then advance at most one frame if the
/// accumulated time has reached the frame duration.  The accumulator is reset
/// to zero on an advance (never decremented), and is left untouched once a
/// non-repeating animation has reached its final frame.
pub open spec fn tick_spec(a: AnimationView, delta: int) -> AnimationView {
    let b = AnimationView { elapsed_micros: a.elapsed_micros + delta, ..a };
    if b.elapsed_micros >= b.frame_micros {
        advance_spec(b)
    } else {
        b
    }
}

/// `n` successive ticks, each with the same delta.
pub open spec fn tick_n_spec(a: AnimationView, delta: int, n: nat) -> AnimationView
    decreases n,
{
    if n == 0 {
        a
    } else {
        tick_n_spec(tick_spec(a, delta), delta, (n - 1) as nat)
    }
}

/// A sequence of ticks with per-tick deltas, first delta first.
pub open spec fn tick_seq_spec(a: AnimationView, deltas: Seq<int>) -> AnimationView
    decreases deltas.len(),
{
    if deltas.len() == 0 {
        a
    } else {
        tick_seq_spec(tick_spec(a, deltas[0]), deltas.drop_first())
    }
}

/// Law: one tick with a non-negative delta keeps an instance well formed and
/// changes neither its definition (sheet, frames, duration, policy) nor, for a
/// `Repeat` instance, its completion flag.
pub proof fn lemma_tick_preserves_wf(a: AnimationView, delta: int)
    requires
        a.wf(),
        delta >= 0,
    ensures
        tick_spec(a, delta).wf(),
        tick_spec(a, delta).sheet_name == a.sheet_name,
        tick_spec(a, delta).frames == a.frames,
        tick_spec(a, delta).frame_micros == a.frame_micros,
        tick_spec(a, delta).animation_type == a.animation_type,
{
    let b = AnimationView { elapsed_micros: a.elapsed_micros + delta, ..a };
    if b.elapsed_micros >= b.frame_micros && a.animation_type == AnimationType::Repeat {
        lemma_mod_bound(a.position + 1, a.frames.len() as int);
    }
}

/// Law: a `Repeat` animation never completes, and its position always stays
/// inside `0 .. frames.len()`, over any sequence of non-negative deltas.
pub proof fn lemma_repeat_never_completes(a: AnimationView, deltas: Seq<int>)
    requires
        a.wf(),
        a.animation_type == AnimationType::Repeat,
        !a.finished,
        forall|i: int| 0 <= i < deltas.len() ==> deltas[i] >= 0,
    ensures
        !tick_seq_spec(a, deltas).finished,
        tick_seq_spec(a, deltas).wf(),
        0 <= tick_seq_spec(a, deltas).position < a.frames.len(),
    decreases deltas.len(),
{
    if deltas.len() > 0 {
        lemma_tick_preserves_wf(a, deltas[0]);
        lemma_repeat_never_completes(tick_spec(a, deltas[0]), deltas.drop_first());
    }
}

/// Law: under full-frame ticks a `Repeat` animation cycles: after `n` ticks of
/// exactly one frame duration each, the position has advanced by `n` modulo
/// the length of the frame sequence, and the accumulator is back at zero.
pub proof fn lemma_repeat_cycles(a: AnimationView, n: nat)
    requires
        a.wf(),
        a.animation_type == AnimationType::Repeat,
        !a.finished,
        a.elapsed_micros == 0,
    ensures
        tick_n_spec(a, a.frame_micros, n) == (AnimationView {
            position: (a.position + n) % (a.frames.len() as int),
            ..a
        }),
    decreases n,
{
    let len = a.frames.len() as int;
    if n == 0 {
        lemma_small_mod(a.position as nat, len as nat);
    } else {
        let a1 = tick_spec(a, a.frame_micros);
        lemma_mod_bound(a.position + 1, len);
        lemma_repeat_cycles(a1, (n - 1) as nat);
        lemma_add_mod_noop_right(n - 1, a.position + 1, len);
    }
}

/// Unrolling: the last of `n + 1` ticks applies to the result of the first `n`.
pub proof fn lemma_tick_n_unfold_last(a: AnimationView, delta: int, n: nat)
    ensures
        tick_n_spec(a, delta, n + 1) == tick_spec(tick_n_spec(a, delta, n), delta),
    decreases n,
{
    assert(tick_n_spec(a, delta, n + 1) == tick_n_spec(tick_spec(a, delta), delta, n));
    if n == 0 {
        assert(tick_n_spec(tick_spec(a, delta), delta, 0) == tick_spec(a, delta));
    } else {
        lemma_tick_n_unfold_last(tick_spec(a, delta), delta, (n - 1) as nat);
        assert(tick_n_spec(a, delta, n) == tick_n_spec(tick_spec(a, delta), delta, (n - 1) as nat));
    }
}

/// Law: a non-repeating animation short of its final frame moves forward one
/// position per full-frame tick, without completing.
pub proof fn lemma_once_advances(a: AnimationView, k: nat)
    requires
        a.wf(),
        a.animation_type != AnimationType::Repeat,
        !a.finished,
        a.elapsed_micros == 0,
        a.position + k < a.frames.len(),
    ensures
        tick_n_spec(a, a.frame_micros, k) == (AnimationView { position: a.position + k, ..a }),
    decreases k,
{
    if k > 0 {
        let a1 = tick_spec(a, a.frame_micros);
        lemma_once_advances(a1, (k - 1) as nat);
    }
}

/// Law (completion): for a non-repeating animation over `N` frames started at
/// the first one, `N - 1` full-frame ticks reach the final frame with the
/// completion flag still clear, and the next full-frame tick sets the flag
/// while leaving the position at the final frame.
pub proof fn lemma_once_completes(a: AnimationView)
    requires
        a.wf(),
        a.animation_type != AnimationType::Repeat,
        !a.finished,
        a.elapsed_micros == 0,
        a.position == 0,
    ensures
        ({
            let nframes = a.frames.len() as nat;
            let last = tick_n_spec(a, a.frame_micros, (nframes - 1) as nat);
            let done = tick_n_spec(a, a.frame_micros, nframes);
            &&& last.position == nframes - 1
            &&& !last.finished
            &&& done.position == nframes - 1
            &&& done.finished
        }),
{
    let nframes = a.frames.len() as nat;
    lemma_once_advances(a, (nframes - 1) as nat);
    lemma_tick_n_unfold_last(a, a.frame_micros, (nframes - 1) as nat);
}

/// Law (idempotence after completion): once a non-repeating animation has
/// completed on its final frame, any further ticks leave the position, the
/// frame sequence and the completion flag unchanged.
pub proof fn lemma_finished_stays(a: AnimationView, deltas: Seq<int>)
    requires
        a.animation_type != AnimationType::Repeat,
        a.finished,
        a.position == a.frames.len() - 1,
    ensures
        tick_seq_spec(a, deltas).position == a.position,
        tick_seq_spec(a, deltas).frames == a.frames,
        tick_seq_spec(a, deltas).finished,
    decreases deltas.len(),
{
    if deltas.len() > 0 {
        lemma_finished_stays(tick_spec(a, deltas[0]), deltas.drop_first());
    }
}

/// Per-entity animation playback state bound to one catalog entry.
#[derive(Debug)]
pub struct Animation {
    position: usize,
    sheet_name: String,
    frames: Vec<usize>,
    frame_micros: u64,
    elapsed_micros: u64,
    animation_type: AnimationType,
    finished: bool,
}

impl View for Animation {
    type V = AnimationView;

    closed spec fn view(&self) -> AnimationView {
        AnimationView {
            position: self.position as int,
            sheet_name: self.sheet_name@,
            frames: self.frames@,
            frame_micros: self.frame_micros as int,
            elapsed_micros: self.elapsed_micros as int,
            animation_type: self.animation_type,
            finished: self.finished,
        }
    }
}

impl Clone for Animation {
    fn clone(&self) -> (r: Self)
        ensures
            r@ == self@,
    {
        let mut frames: Vec<usize> = Vec::new();
        let mut i: usize = 0;
        while i < self.frames.len()
            invariant
                i <= self.frames.len(),
                frames@ == self.frames@.take(i as int),
            decreases self.frames.len() - i,
        {
            frames.push(self.frames[i]);
            assert(self.frames@.take(i + 1 as int) == self.frames@.take(i as int).push(self.frames@[i as int]));
            i = i + 1;
        }
        assert(frames@ == self.frames@);
        Animation {
            position: self.position,
            sheet_name: self.sheet_name.clone(),
            frames,
            frame_micros: self.frame_micros,
            elapsed_micros: self.elapsed_micros,
            animation_type: self.animation_type,
            finished: self.finished,
        }
    }
}

impl Animation {
    pub open spec fn wf(&self) -> bool {
        self@.wf()
    }

    /// A fresh instance: position at the start of the frame sequence, nothing
    /// accumulated, not completed.
    pub fn new(sheet_name: String, frames: Vec<usize>, frame_micros: u64, animation_type: AnimationType) -> (r: Self)
        requires
            frames@.len() > 0,
            frame_micros > 0,
        ensures
            r@ == (AnimationView {
                position: 0,
                sheet_name: sheet_name@,
                frames: frames@,
                frame_micros: frame_micros as int,
                elapsed_micros: 0,
                animation_type,
                finished: false,
            }),
            r.wf(),
    {
        Animation {
            position: 0,
            sheet_name,
            frames,
            frame_micros,
            elapsed_micros: 0,
            animation_type,
            finished: false,
        }
    }

    fn advance_frame(&mut self)
        requires
            old(self).wf(),
        ensures
            final(self)@ == advance_spec(old(self)@),
            final(self).wf(),
    {
        if self.animation_type == AnimationType::Repeat {
            let len = self.frames.len();
            assert(self.position < len);
            self.position = (self.position + 1) % len;
            self.elapsed_micros = 0;
            return;
        }

        // non-repeating animation
        if self.position < self.frames.len() - 1 {
            self.position = self.position + 1;
            self.elapsed_micros = 0;
        } else {
            self.finished = true;
        }
    }

    /// Advances the accumulator by `delta` microseconds, moves at most one
    /// frame when the frame duration has been reached, and returns the tile
    /// index of the current frame.
    pub fn tick(&mut self, delta: u64) -> (r: usize)
        requires
            old(self).wf(),
            old(self)@.elapsed_micros + delta <= u64::MAX,
        ensures
            final(self)@ == tick_spec(old(self)@, delta as int),
            final(self).wf(),
            r == final(self)@.current_frame(),
    {
        self.elapsed_micros = self.elapsed_micros + delta;
        if self.elapsed_micros >= self.frame_micros {
            self.advance_frame();
        }
        self.frames[self.position]
    }

    /// Whether a tick of `delta` microseconds is in range for this instance:
    /// it is well formed and its accumulator can take the delta.
    pub fn tick_ready(&self, delta: u64) -> (r: bool)
        ensures
            r == (self@.wf() && self@.elapsed_micros + delta <= u64::MAX),
    {
        self.frames.len() > 0 && self.position < self.frames.len() && self.frame_micros > 0
            && self.elapsed_micros <= u64::MAX - delta
    }

    pub fn get_type(&self) -> (r: AnimationType)
        ensures
            r == self@.animation_type,
    {
        self.animation_type
    }

    pub fn finished(&self) -> (r: bool)
        ensures
            r == self@.finished,
    {
        self.finished
    }
}

/// One animation's configuration record: its logical name, the closed
/// `[start, end]` range its frame sequence is derived from, the per-frame
/// duration in microseconds, and the completion policy.
pub struct AnimRecord {
    pub name: String,
    pub start: usize,
    pub end: usize,
    pub frame_micros: u64,
    pub animation_type: AnimationType,
}

/// Model of an animation record.
pub struct AnimRecordView {
    pub name: Seq<char>,
    pub start: usize,
    pub end: usize,
    pub frame_micros: u64,
    pub animation_type: AnimationType,
}

impl View for AnimRecord {
    type V = AnimRecordView;

    open spec fn view(&self) -> AnimRecordView {
        AnimRecordView {
            name: self.name@,
            start: self.start,
            end: self.end,
            frame_micros: self.frame_micros,
            animation_type: self.animation_type,
        }
    }
}

/// The fresh definition an animation record describes on a given sheet: the
/// frame sequence is the closed range `[start, end]`, both ends inclusive.
pub open spec fn anim_of_record(sheet_file: Seq<char>, a: AnimRecordView) -> AnimationView {
    AnimationView {
        position: 0,
        sheet_name: sheet_file,
        frames: Seq::new((a.end - a.start + 1) as nat, |i: int| (a.start + i) as usize),
        frame_micros: a.frame_micros as int,
        elapsed_micros: 0,
        animation_type: a.animation_type,
        finished: false,
    }
}

/// The animation catalog: a process-wide table from logical animation name to
/// its immutable definition, populated once at startup.  `get` hands out a
/// fresh instance of the stored definition.
#[derive(Debug)]
pub struct AnimationResource {
    entries: Vec<(String, Animation)>,
}

impl AnimationResource {
    /// The catalog as an association sequence of `(name, definition)` pairs.
    pub closed spec fn pairs(&self) -> Seq<(Seq<char>, AnimationView)> {
        self.entries@.map_values(|p: (String, Animation)| (p.0@, p.1@))
    }

    /// The definition registered under a name, if any.
    pub open spec fn spec_get(&self, k: Seq<char>) -> Option<AnimationView> {
        assoc_get(self.pairs(), k)
    }

    /// Every stored definition is well formed.
    pub open spec fn wf(&self) -> bool {
        forall|i: int| 0 <= i < self.pairs().len() ==> (#[trigger] self.pairs()[i]).1.wf()
    }

    /// An empty catalog: no name is mapped.
    pub fn new() -> (r: Self)
        ensures
            forall|k: Seq<char>| r.spec_get(k) is None,
            r.pairs().len() == 0,
            r.wf(),
    {
        let r = AnimationResource { entries: Vec::new() };
        proof {
            assert(r.pairs() =~= Seq::<(Seq<char>, AnimationView)>::empty());
        }
        r
    }

    /// Insert a new Animation: stores the definition, overwriting any earlier
    /// one registered under the same name.
    pub fn insert(&mut self, name: String, animation: Animation)
        requires
            old(self).wf(),
            animation.wf(),
        ensures
            forall|k: Seq<char>| final(self).spec_get(k) == if k == name@ {
                Some(animation@)
            } else {
                old(self).spec_get(k)
            },
            final(self).wf(),
    {
        let n = self.entries.len();
        let mut i: usize = 0;
        while i < n
            invariant
                i <= n,
                self == old(self),
                old(self).wf(),
                animation.wf(),
                n == self.entries.len(),
                forall|j: int| 0 <= j < i ==> self.pairs()[j].0 != name@,
            decreases n - i,
        {
            if self.entries[i].0 == name {
                assert(self.pairs()[i as int].0 == name@);
                let ghost v = animation@;
                self.entries[i] = (name, animation);
                proof {
                    assert(self.pairs() =~= old(self).pairs().update(
                        i as int,
                        (old(self).pairs()[i as int].0, v),
                    ));
                    assert forall|k: Seq<char>|
                        self.spec_get(k) == if k == old(self).pairs()[i as int].0 {
                            Some(v)
                        } else {
                            old(self).spec_get(k)
                        } by {
                        lemma_assoc_get_update(old(self).pairs(), i as int, v, k);
                    }
                    assert forall|j: int|
                        0 <= j < self.pairs().len() implies (#[trigger] self.pairs()[j]).1.wf() by {
                        if j == i as int {
                            assert(self.pairs()[j].1 == v);
                        } else {
                            assert(self.pairs()[j] == old(self).pairs()[j]);
                        }
                    }
                }
                return;
            }
            i = i + 1;
        }
        let ghost v = animation@;
        self.entries.push((name, animation));
        proof {
            assert(self.pairs() =~= old(self).pairs().push((name@, v)));
            assert forall|k: Seq<char>|
                self.spec_get(k) == if k == name@ {
                    Some(v)
                } else {
                    old(self).spec_get(k)
                } by {
                lemma_assoc_get_push(old(self).pairs(), (name@, v), k);
            }
        }
    }

    /// Get an Animation: a pure lookup that clones the stored definition and
    /// never panics on a miss.
    pub fn get(&self, name: &str) -> (r: Option<Animation>)
        ensures
            match r {
                Some(a) => self.spec_get(name@) == Some(a@),
                None => self.spec_get(name@) is None,
            },
    {
        let key: String = name.to_owned();
        let n = self.entries.len();
        let mut i: usize = 0;
        while i < n
            invariant
                i <= n,
                n == self.entries.len(),
                key@ == name@,
                forall|j: int| 0 <= j < i ==> self.pairs()[j].0 != name@,
            decreases n - i,
        {
            if self.entries[i].0 == key {
                assert(self.pairs()[i as int].0 == name@);
                proof {
                    lemma_assoc_get_first_match(self.pairs(), i as int);
                }
                return Some(self.entries[i].1.clone());
            }
            i = i + 1;
        }
        proof {
            lemma_assoc_get_absent(self.pairs(), name@);
        }
        None
    }
}

/// The frame sequence derived from a closed range: `[start, end]`, both ends
/// inclusive, in ascending order.
pub fn frames_from_range(start: usize, end: usize) -> (r: Vec<usize>)
    requires
        start <= end,
        end < usize::MAX,
    ensures
        r@.len() == end - start + 1,
        forall|i: int| 0 <= i < r@.len() ==> r@[i] == start + i,
{
    let mut r: Vec<usize> = Vec::new();
    let mut f: usize = start;
    while f <= end
        invariant
            start <= f <= end + 1,
            end < usize::MAX,
            r@.len() == f - start,
            forall|i: int| 0 <= i < r@.len() ==> r@[i] == start + i,
        decreases end + 1 - f,
    {
        r.push(f);
        f = f + 1;
    }
    r
}

} // verus!
