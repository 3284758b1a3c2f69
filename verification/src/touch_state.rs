//! The finger bookkeeping of touch gestures: which fingers are down, the
//! most that were down at once during the gesture, and whether the gesture is
//! a timeline scrub. The gesture's geometry and timing (positions, distances,
//! durations) are measured by the caller, which hands over what they decide.
use vstd::prelude::*;
use std::collections::HashSet;

verus! {

/// What a touch event reports.
#[derive(Debug, Clone, Copy, PartialEq, Eq, Structural)]
pub enum TouchPhaseKind {
    Started,
    Moved,
    Ended,
    Cancelled,
}

/// What a touch event means for the gesture.
#[derive(Debug, Clone, Copy, PartialEq, Eq, Structural)]
pub enum TouchStep {
    /// Nothing to act on.
    Nothing,
    /// The first finger went down: the gesture starts here (and scrubs when
    /// it went down in the scrub zone).
    FirstDown,
    /// A second finger went down: a two-finger gesture starts.
    SecondDown,
    /// The scrubbing finger moved.
    ScrubMove,
    /// The scrubbing finger was lifted.
    ScrubEnd,
    /// The last finger of a gesture of two or more fingers was lifted.
    MultiLifted,
    /// A finger of a one-finger gesture was lifted: a swipe or a tap may end here.
    SingleLifted,
}

/// The bookkeeping, mathematically: the fingers down, the most fingers down
/// at once during the gesture, and whether the gesture scrubs.
pub struct TouchModel {
    pub active: Set<u64>,
    pub max_touch_count: nat,
    pub scrubbing: bool,
}

/// A bookkeeping state with the given parts.
pub open spec fn touch_model(active: Set<u64>, max_touch_count: nat, scrubbing: bool) -> TouchModel {
    TouchModel { active, max_touch_count, scrubbing }
}

/// The states the bookkeeping is ever in: finitely many fingers down, never
/// more than the most counted, none counted once all are lifted, and a scrub
/// only with at most one finger down.
pub open spec fn touch_model_wf(m: TouchModel) -> bool {
    &&& m.active.finite()
    &&& m.active.len() <= m.max_touch_count
    &&& m.active.len() == 0 ==> m.max_touch_count == 0
    &&& m.scrubbing ==> m.active.len() <= 1
}

/// The effect of one touch event of finger `id`; `in_scrub_zone` says whether
/// a finger that goes down went down in the scrub zone at the bottom.
/// - Started: the finger is added; a second finger ends any scrub; the first
///   one scrubs when it is in the scrub zone.
/// - Moved: the scrubbing finger reports a scrub move.
/// - Ended: the finger is removed. A one-finger scrub ends; a gesture of two or
///   more fingers ends once the last is lifted, and waits for it before;
///   otherwise the count is what remains down.
/// - Cancelled: everything is forgotten.
pub open spec fn touch_step_spec(m: TouchModel, phase: TouchPhaseKind, id: u64, in_scrub_zone: bool) -> (
    TouchModel,
    TouchStep,
) {
    match phase {
        TouchPhaseKind::Started => {
            let active = m.active.insert(id);
            let c = active.len();
            let max = if c > m.max_touch_count {
                c
            } else {
                m.max_touch_count
            };
            if c == 2 {
                (touch_model(active, max, false), TouchStep::SecondDown)
            } else if c == 1 {
                (touch_model(active, max, in_scrub_zone), TouchStep::FirstDown)
            } else {
                (touch_model(active, max, m.scrubbing), TouchStep::Nothing)
            }
        },
        TouchPhaseKind::Moved => {
            if m.scrubbing && m.max_touch_count == 1 {
                (m, TouchStep::ScrubMove)
            } else {
                (m, TouchStep::Nothing)
            }
        },
        TouchPhaseKind::Ended => {
            let active = m.active.remove(id);
            let remaining = active.len();
            if m.scrubbing && m.max_touch_count == 1 {
                (touch_model(active, remaining, false), TouchStep::ScrubEnd)
            } else if m.max_touch_count >= 2 {
                if remaining == 0 {
                    (touch_model(active, 0, m.scrubbing), TouchStep::MultiLifted)
                } else {
                    (touch_model(active, m.max_touch_count, m.scrubbing), TouchStep::Nothing)
                }
            } else {
                (touch_model(active, remaining, m.scrubbing), TouchStep::SingleLifted)
            }
        },
        TouchPhaseKind::Cancelled => (touch_model(Set::empty(), 0, false), TouchStep::Nothing),
    }
}

/// The finger bookkeeping of a touch gesture.
pub struct TouchCounter {
    active: HashSet<u64>,
    max_touch_count: usize,
    is_scrubbing: bool,
}

impl TouchCounter {
    /// The bookkeeping, mathematically.
    pub closed spec fn model(&self) -> TouchModel {
        touch_model(self.active@, self.max_touch_count as nat, self.is_scrubbing)
    }

    /// The model is well formed.
    pub closed spec fn wf(&self) -> bool {
        touch_model_wf(self.model())
    }

    /// No finger down.
    pub fn new() -> (r: TouchCounter)
        ensures
            r.wf(),
            r.model() == touch_model(Set::empty(), 0, false),
    {
        TouchCounter { active: HashSet::new(), max_touch_count: 0, is_scrubbing: false }
    }

    /// The number of fingers down.
    pub fn touch_count(&self) -> (r: usize)
        requires
            self.wf(),
        ensures
            r == self.model().active.len(),
    {
        broadcast use vstd::std_specs::hash::group_hash_axioms;

        self.active.len()
    }

    /// The most fingers down at once during the gesture.
    pub fn max_touch_count(&self) -> (r: usize)
        ensures
            r == self.model().max_touch_count,
    {
        self.max_touch_count
    }

    /// Whether the gesture is a timeline scrub.
    pub fn is_scrubbing(&self) -> (r: bool)
        ensures
            r == self.model().scrubbing,
    {
        self.is_scrubbing
    }

    /// Takes one touch event of finger `id` (see `touch_step_spec`).
    pub fn touch(&mut self, phase: TouchPhaseKind, id: u64, in_scrub_zone: bool) -> (r: TouchStep)
        requires
            old(self).wf(),
        ensures
            final(self).wf(),
            (final(self).model(), r) == touch_step_spec(old(self).model(), phase, id, in_scrub_zone),
    {
        broadcast use vstd::std_specs::hash::group_hash_axioms;

        proof {
            law_touch_bookkeeping_stays_well_formed(self.model(), phase, id, in_scrub_zone);
        }
        match phase {
            TouchPhaseKind::Started => {
                self.active.insert(id);
                let c = self.active.len();
                if c > self.max_touch_count {
                    self.max_touch_count = c;
                }
                if c == 2 {
                    self.is_scrubbing = false;
                    TouchStep::SecondDown
                } else if c == 1 {
                    self.is_scrubbing = in_scrub_zone;
                    TouchStep::FirstDown
                } else {
                    TouchStep::Nothing
                }
            },
            TouchPhaseKind::Moved => {
                if self.is_scrubbing && self.max_touch_count == 1 {
                    TouchStep::ScrubMove
                } else {
                    TouchStep::Nothing
                }
            },
            TouchPhaseKind::Ended => {
                self.active.remove(&id);
                let remaining = self.active.len();
                if self.is_scrubbing && self.max_touch_count == 1 {
                    self.is_scrubbing = false;
                    self.max_touch_count = remaining;
                    TouchStep::ScrubEnd
                } else if self.max_touch_count >= 2 {
                    if remaining == 0 {
                        self.max_touch_count = 0;
                        TouchStep::MultiLifted
                    } else {
                        TouchStep::Nothing
                    }
                } else {
                    self.max_touch_count = remaining;
                    TouchStep::SingleLifted
                }
            },
            TouchPhaseKind::Cancelled => {
                self.active.clear();
                self.max_touch_count = 0;
                self.is_scrubbing = false;
                TouchStep::Nothing
            },
        }
    }
}

/// The bookkeeping stays well formed under every touch event: never more
/// fingers down than counted, no count once all fingers are lifted, and a
/// scrub only ever with at most one finger down.
pub proof fn law_touch_bookkeeping_stays_well_formed(
    m: TouchModel,
    phase: TouchPhaseKind,
    id: u64,
    in_scrub_zone: bool,
)
    requires
        touch_model_wf(m),
    ensures
        touch_model_wf(touch_step_spec(m, phase, id, in_scrub_zone).0),
{
    match phase {
        TouchPhaseKind::Started => {
            vstd::set::axiom_set_insert_len(m.active, id);
            vstd::set::axiom_set_insert_finite(m.active, id);
        },
        TouchPhaseKind::Ended => {
            vstd::set::axiom_set_remove_len(m.active, id);
            vstd::set::axiom_set_remove_finite(m.active, id);
        },
        _ => {},
    }
}

/// The bookkeeping after the touch events `evs` (each a phase, a finger and
/// whether it went down in the scrub zone), and the steps they reported.
pub open spec fn run_touches(m: TouchModel, evs: Seq<(TouchPhaseKind, u64, bool)>) -> (TouchModel, Seq<TouchStep>)
    decreases evs.len(),
{
    if evs.len() == 0 {
        (m, seq![])
    } else {
        let (m1, step) = touch_step_spec(m, evs[0].0, evs[0].1, evs[0].2);
        let (m2, steps) = run_touches(m1, evs.drop_first());
        (m2, seq![step] + steps)
    }
}

/// Moves reported while scrubbing with one finger down.
proof fn lemma_scrub_moves(m: TouchModel, moves: Seq<u64>, tail: Seq<(TouchPhaseKind, u64, bool)>)
    requires
        m.scrubbing,
        m.max_touch_count == 1,
    ensures
        run_touches(m, moves.map_values(|x: u64| (TouchPhaseKind::Moved, x, false)) + tail) == (
            run_touches(m, tail).0,
            Seq::new(moves.len(), |i: int| TouchStep::ScrubMove) + run_touches(m, tail).1,
        ),
    decreases moves.len(),
{
    let evs = moves.map_values(|x: u64| (TouchPhaseKind::Moved, x, false)) + tail;
    if moves.len() == 0 {
        assert(evs =~= tail);
        assert(Seq::new(0, |i: int| TouchStep::ScrubMove) + run_touches(m, tail).1 =~= run_touches(m, tail).1);
    } else {
        let rest = moves.drop_first();
        assert(evs.drop_first() =~= rest.map_values(|x: u64| (TouchPhaseKind::Moved, x, false)) + tail);
        assert(evs[0] == (TouchPhaseKind::Moved, moves[0], false));
        lemma_scrub_moves(m, rest, tail);
        assert(seq![TouchStep::ScrubMove] + (Seq::new(rest.len(), |i: int| TouchStep::ScrubMove) + run_touches(
            m,
            tail,
        ).1) =~= Seq::new(moves.len(), |i: int| TouchStep::ScrubMove) + run_touches(m, tail).1);
    }
}

/// A scrub follows its finger from start to lift: a first finger going down
/// in the scrub zone starts it, every move then reports a scrub move, and
/// lifting the finger ends it, with no finger left down and no scrub.
pub proof fn law_scrub_from_start_to_lift(m: TouchModel, id: u64, moves: Seq<u64>)
    requires
        touch_model_wf(m),
        m.active.len() == 0,
    ensures
        ({
            let evs = seq![(TouchPhaseKind::Started, id, true)] + moves.map_values(
                |x: u64| (TouchPhaseKind::Moved, x, false),
            ) + seq![(TouchPhaseKind::Ended, id, false)];
            let (after, steps) = run_touches(m, evs);
            &&& steps == seq![TouchStep::FirstDown] + Seq::new(moves.len(), |i: int| TouchStep::ScrubMove)
                + seq![TouchStep::ScrubEnd]
            &&& after.active.len() == 0
            &&& !after.scrubbing
        }),
{
    let mv = moves.map_values(|x: u64| (TouchPhaseKind::Moved, x, false));
    let last = seq![(TouchPhaseKind::Ended, id, false)];
    let evs = seq![(TouchPhaseKind::Started, id, true)] + mv + last;
    assert(m.active =~= Set::<u64>::empty()) by {
        vstd::set_lib::lemma_set_empty_equivalency_len(m.active);
    }
    assert(m.active.insert(id) =~= set![id]);
    let (m1, s1) = touch_step_spec(m, TouchPhaseKind::Started, id, true);
    assert(m1 == touch_model(set![id], 1, true));
    assert(s1 == TouchStep::FirstDown);
    assert(evs.drop_first() =~= mv + last);
    lemma_scrub_moves(m1, moves, last);
    assert(set![id].remove(id) =~= Set::<u64>::empty());
    let (m2, s2) = touch_step_spec(m1, TouchPhaseKind::Ended, id, false);
    assert(last.drop_first() =~= Seq::<(TouchPhaseKind, u64, bool)>::empty());
    assert(last[0] == (TouchPhaseKind::Ended, id, false));
    assert(run_touches(m2, last.drop_first()) == (m2, Seq::<TouchStep>::empty()));
    assert(seq![s2] + Seq::<TouchStep>::empty() =~= seq![s2]);
    assert(run_touches(m1, last) == (m2, seq![s2]));
    assert(seq![TouchStep::FirstDown] + (Seq::new(moves.len(), |i: int| TouchStep::ScrubMove) + seq![s2])
        =~= seq![TouchStep::FirstDown] + Seq::new(moves.len(), |i: int| TouchStep::ScrubMove) + seq![
        TouchStep::ScrubEnd,
    ]);
}

/// A gesture of two or more fingers ends, and is reported as ended, exactly
/// when its last finger is lifted; the next finger down starts a new gesture.
pub proof fn law_multi_finger_gesture_ends_with_last_finger(m: TouchModel, id: u64, in_scrub_zone: bool)
    requires
        touch_model_wf(m),
        m.max_touch_count >= 2,
    ensures
        ({
            let (after, step) = touch_step_spec(m, TouchPhaseKind::Ended, id, in_scrub_zone);
            (step == TouchStep::MultiLifted) == (after.active.len() == 0)
        }),
        ({
            let (after, step) = touch_step_spec(m, TouchPhaseKind::Ended, id, in_scrub_zone);
            step == TouchStep::MultiLifted ==> touch_step_spec(after, TouchPhaseKind::Started, id, in_scrub_zone).1
                == TouchStep::FirstDown
        }),
{
    let after = m.active.remove(id);
    if after.len() == 0 {
        assert(after.insert(id) =~= set![id]);
    }
}

} // verus!
