//! The action stack: a LIFO list of pending game actions and the per-tick
//! advance step that drives it.
//!
//! Every multi-step or blocking game operation is scheduled by pushing an
//! [`Action`].  The stack top is always the currently active unit of work;
//! nothing below the top is touched while a higher action is pending.  Most
//! actions block until an input collaborator resolves them; the per-tick
//! advance step treats any action it does not specially interpret as
//! instantly satisfied and pops it.  The one action the stack itself
//! interprets is the time-suspending camera motion, which carries its own
//! resumable progress.

use vstd::prelude::*;
use vstd::pervasive::VecAdditionalExecFns;

use crate::camera::Transform;

verus! {

/// A schedulable unit of game work, possibly blocking on player input or on
/// elapsed time.  Players are named by their index into the player registry;
/// cards and locations by their handles in the rule data.
#[derive(Debug, PartialEq)]
pub enum Action {
    /// A pending decision with an enumerated set of sub-actions; an input
    /// collaborator resolves it by replacing it with the chosen option.
    Choice { player: usize, options: Vec<Action> },
    /// A batch of actions that must all complete before this frame resolves.
    Simultaneous { actions: Vec<Action> },
    /// The named player must commit a prediction.
    MakePrediction { player: usize },
    /// The named player places `num` free troops on one of the listed
    /// locations.
    PlaceFreeTroops { player: usize, num: u64, locations: Vec<u64> },
    /// The named player places `num` troops from reserve.
    PlaceTroops { player: usize, num: u64, locations: Vec<u64> },
    /// Every player picks the traitor cards to keep.
    PickTraitors,
    /// Prompt to play the named treachery card.
    PlayPrompt { treachery_card: u64 },
    /// A plain confirmation press.
    ButtonPress,
    /// A time-suspending camera motion.  `src` is captured from the live
    /// camera on the motion's first frame; `remaining_time` and `total_time`
    /// are in milliseconds.
    CameraMotion { src: Option<Transform>, dest: Transform, remaining_time: u64, total_time: u64 },
}

/// LIFO scheduler of pending actions; the phase machine advances only once
/// it is empty.
#[derive(Debug)]
pub struct ActionStack {
    items: Vec<Action>,
}

impl View for ActionStack {
    type V = Seq<Action>;

    closed spec fn view(&self) -> Seq<Action> {
        self.items@
    }
}

impl ActionStack {
    /// An empty stack.
    pub fn new() -> (r: ActionStack)
        ensures
            r@ == Seq::<Action>::empty(),
    {
        ActionStack { items: Vec::new() }
    }

    /// Number of pending actions.
    pub fn len(&self) -> (r: usize)
        ensures
            r == self@.len(),
    {
        self.items.len()
    }

    /// Whether no action is pending; only then may the phase machine
    /// advance.
    pub fn is_empty(&self) -> (r: bool)
        ensures
            r == (self@.len() == 0),
    {
        self.items.len() == 0
    }

    /// Schedule `action` as the new top of the stack.
    pub fn push(&mut self, action: Action)
        ensures
            final(self)@ == old(self)@.push(action),
    {
        self.items.push(action);
    }

    /// Remove and return the top action.  On an empty stack this returns no
    /// action, which is not an error: it is the signal that the phase
    /// machine may advance.
    pub fn pop(&mut self) -> (r: Option<Action>)
        ensures
            old(self)@.len() == 0 ==> r is None && final(self)@ == old(self)@,
            old(self)@.len() > 0 ==> r == Some(old(self)@.last()) && final(self)@ == old(
                self,
            )@.drop_last(),
    {
        self.items.pop()
    }

    /// The currently active unit of work, if any.
    pub fn peek(&self) -> (r: Option<&Action>)
        ensures
            self@.len() == 0 ==> r is None,
            self@.len() > 0 ==> (r matches Some(a) && *a == self@.last()),
    {
        if self.items.len() == 0 {
            None
        } else {
            Some(&self.items[self.items.len() - 1])
        }
    }

    /// Replace the top action, the only element the LIFO discipline allows
    /// to be mutated.
    pub fn set_top(&mut self, action: Action)
        requires
            old(self)@.len() > 0,
        ensures
            final(self)@ == old(self)@.update(old(self)@.len() - 1, action),
    {
        let i = self.items.len() - 1;
        self.items.set(i, action);
    }

    /// Pop every pending action, top first, and return them in the order
    /// they came off.
    pub fn drain(&mut self) -> (r: Vec<Action>)
        ensures
            r@ == drain_order(old(self)@),
            final(self)@ == Seq::<Action>::empty(),
    {
        let mut out: Vec<Action> = Vec::new();
        loop
            invariant
                out@ + drain_order(self@) == drain_order(old(self)@),
            ensures
                self@.len() == 0,
                out@ + drain_order(self@) == drain_order(old(self)@),
            decreases self@.len(),
        {
            let ghost prev = self@;
            let ghost prev_out = out@;
            match self.pop() {
                Some(a) => {
                    out.push(a);
                    proof {
                        assert(out@ + drain_order(self@) =~= prev_out + drain_order(prev));
                    }
                },
                None => {
                    break ;
                },
            }
        }
        proof {
            assert(out@ =~= drain_order(old(self)@));
            assert(self@ =~= Seq::<Action>::empty());
        }
        out
    }
}

/// What one advance step does to the stack and the live camera transform.
///
/// If the stack is empty nothing happens (the phase machine may advance).
/// Otherwise the top action is evaluated once:
/// - a camera motion whose time is spent snaps the camera to its destination
///   and pops;
/// - a camera motion that has not yet captured its source pops immediately
///   when the destination already equals the live camera (degenerate
///   zero-distance motion), and otherwise captures the live camera as its
///   source without advancing time;
/// - a running camera motion counts `dt` off its remaining time;
/// - every other action is popped unconditionally: the surrounding input and
///   UI systems are expected to resolve a blocking action before the generic
///   pop reaches it.
pub open spec fn tick_step(s: Seq<Action>, cam: Transform, dt: u64) -> (Seq<Action>, Transform) {
    if s.len() == 0 {
        (s, cam)
    } else {
        match s.last() {
            Action::CameraMotion { src, dest, remaining_time, total_time } => {
                if remaining_time == 0 {
                    (s.drop_last(), dest)
                } else if src is None {
                    if dest == cam {
                        (s.drop_last(), cam)
                    } else {
                        (
                            s.update(
                                s.len() - 1,
                                Action::CameraMotion {
                                    src: Some(cam),
                                    dest,
                                    remaining_time,
                                    total_time,
                                },
                            ),
                            cam,
                        )
                    }
                } else {
                    let left: u64 = if dt >= remaining_time {
                        0u64
                    } else {
                        (remaining_time - dt) as u64
                    };
                    (
                        s.update(
                            s.len() - 1,
                            Action::CameraMotion { src, dest, remaining_time: left, total_time },
                        ),
                        cam,
                    )
                }
            },
            _ => (s.drop_last(), cam),
        }
    }
}

impl ActionStack {
    /// Perform one advance step on the stack top, as [`tick_step`]
    /// describes, updating the live camera transform in place.
    pub fn advance_top(&mut self, camera: &mut Transform, dt: u64)
        ensures
            final(self)@ == tick_step(old(self)@, *old(camera), dt).0,
            *final(camera) == tick_step(old(self)@, *old(camera), dt).1,
    {
        let ghost s0 = self@;
        match self.pop() {
            None => {},
            Some(Action::CameraMotion { src, dest, remaining_time, total_time }) => {
                if remaining_time == 0 {
                    *camera = dest;
                } else if src.is_none() {
                    if dest == *camera {
                        // Zero-distance motion: complete immediately.
                    } else {
                        self.push(
                            Action::CameraMotion {
                                src: Some(*camera),
                                dest,
                                remaining_time,
                                total_time,
                            },
                        );
                        proof {
                            assert(self@ =~= tick_step(s0, *old(camera), dt).0);
                        }
                    }
                } else {
                    let left: u64 = if dt >= remaining_time {
                        0
                    } else {
                        remaining_time - dt
                    };
                    self.push(
                        Action::CameraMotion { src, dest, remaining_time: left, total_time },
                    );
                    proof {
                        assert(self@ =~= tick_step(s0, *old(camera), dt).0);
                    }
                }
            },
            Some(_) => {
                // The generic handler treats any other action as instantly
                // satisfied.
            },
        }
    }

    /// The eased progress of the motion at the stack top, if the top is a
    /// camera motion that has captured its source and keeps its times within
    /// bounds.  The rendering collaborator reads this each tick to place the
    /// camera.
    pub fn top_motion_progress(&self) -> (r: Option<u64>)
        ensures
            r == spec_top_motion_progress(self@),
    {
        match self.peek() {
            Some(Action::CameraMotion { src: Some(_), dest: _, remaining_time, total_time }) => {
                if *total_time <= crate::camera::MAX_MOTION_TIME && *remaining_time
                    <= *total_time {
                    Some(crate::camera::ease_param(*total_time - *remaining_time, *total_time))
                } else {
                    None
                }
            },
            _ => None,
        }
    }
}

/// The eased progress of the stack-top motion, when one is running.
pub open spec fn spec_top_motion_progress(s: Seq<Action>) -> Option<u64> {
    if s.len() == 0 {
        None
    } else {
        match s.last() {
            Action::CameraMotion { src: Some(_), dest: _, remaining_time, total_time } => {
                if total_time <= crate::camera::MAX_MOTION_TIME && remaining_time
                    <= total_time {
                    Some(
                        crate::camera::spec_ease(
                            total_time - remaining_time,
                            total_time as int,
                        ) as u64,
                    )
                } else {
                    None
                }
            },
            _ => None,
        }
    }
}

/// The state after running one advance step per tick for each duration in
/// `dts`, in order.
pub open spec fn run_ticks(s: Seq<Action>, cam: Transform, dts: Seq<u64>) -> (
    Seq<Action>,
    Transform,
)
    decreases dts.len(),
{
    if dts.len() == 0 {
        (s, cam)
    } else {
        let stepped = tick_step(s, cam, dts[0]);
        run_ticks(stepped.0, stepped.1, dts.drop_first())
    }
}

/// Total time carried by a sequence of ticks.
pub open spec fn sum_ticks(dts: Seq<u64>) -> int
    decreases dts.len(),
{
    if dts.len() == 0 {
        0
    } else {
        dts[0] + sum_ticks(dts.drop_first())
    }
}

/// Ticks on an empty stack change nothing.
proof fn lemma_run_ticks_empty(cam: Transform, dts: Seq<u64>)
    ensures
        run_ticks(Seq::<Action>::empty(), cam, dts) == (Seq::<Action>::empty(), cam),
    decreases dts.len(),
{
    if dts.len() > 0 {
        lemma_run_ticks_empty(cam, dts.drop_first());
    }
}

/// A motion that has captured its source finishes once the ticks up to the
/// last one carry at least its remaining time: the last tick pops it and
/// snaps the camera to the destination.
proof fn lemma_captured_motion_converges(
    src: Transform,
    dest: Transform,
    remaining: u64,
    total: u64,
    cam: Transform,
    dts: Seq<u64>,
)
    requires
        dts.len() >= 1,
        sum_ticks(dts.take(dts.len() - 1)) >= remaining,
    ensures
        run_ticks(
            seq![
                Action::CameraMotion {
                    src: Some(src),
                    dest,
                    remaining_time: remaining,
                    total_time: total,
                },
            ],
            cam,
            dts,
        ) == (Seq::<Action>::empty(), dest),
    decreases dts.len(),
{
    let s = seq![
        Action::CameraMotion { src: Some(src), dest, remaining_time: remaining, total_time: total },
    ];
    let stepped = tick_step(s, cam, dts[0]);
    if remaining == 0 {
        assert(stepped.0 =~= Seq::<Action>::empty());
        lemma_run_ticks_empty(dest, dts.drop_first());
    } else {
        // `remaining > 0` forces at least one tick before the final one.
        assert(dts.len() >= 2) by {
            if dts.len() == 1 {
                assert(dts.take(0) =~= Seq::<u64>::empty());
            }
        }
        let left: u64 = if dts[0] >= remaining {
            0u64
        } else {
            (remaining - dts[0]) as u64
        };
        let s1 = seq![
            Action::CameraMotion { src: Some(src), dest, remaining_time: left, total_time: total },
        ];
        assert(stepped.0 =~= s1);
        let rest = dts.drop_first();
        assert(rest.take(rest.len() - 1) =~= dts.take(dts.len() - 1).drop_first());
        lemma_sum_ticks_drop_first(dts.take(dts.len() - 1));
        lemma_sum_ticks_nonneg(rest.take(rest.len() - 1));
        lemma_captured_motion_converges(src, dest, left, total, stepped.1, rest);
    }
}

/// A sum of tick durations is never negative.
proof fn lemma_sum_ticks_nonneg(dts: Seq<u64>)
    ensures
        sum_ticks(dts) >= 0,
    decreases dts.len(),
{
    if dts.len() > 0 {
        lemma_sum_ticks_nonneg(dts.drop_first());
    }
}

/// Splitting the head off a non-empty tick sequence splits its sum.
proof fn lemma_sum_ticks_drop_first(dts: Seq<u64>)
    requires
        dts.len() >= 1,
    ensures
        sum_ticks(dts) == dts[0] + sum_ticks(dts.drop_first()),
{
}

/// Camera-motion convergence: a freshly scheduled motion of total time
/// `total` finishes under any tick sequence that gives it one tick to
/// capture its source, ticks carrying at least `total` time to run down,
/// and one tick to complete — leaving the stack empty and the camera
/// exactly at the destination.
pub proof fn lemma_camera_motion_converges(
    dest: Transform,
    total: u64,
    cam0: Transform,
    dts: Seq<u64>,
)
    requires
        dts.len() >= 2,
        sum_ticks(dts.subrange(1, dts.len() - 1)) >= total,
    ensures
        run_ticks(
            seq![
                Action::CameraMotion {
                    src: None,
                    dest,
                    remaining_time: total,
                    total_time: total,
                },
            ],
            cam0,
            dts,
        ) == (Seq::<Action>::empty(), dest),
{
    let s = seq![
        Action::CameraMotion { src: None, dest, remaining_time: total, total_time: total },
    ];
    let stepped = tick_step(s, cam0, dts[0]);
    let rest = dts.drop_first();
    if total == 0 {
        assert(stepped.0 =~= Seq::<Action>::empty());
        lemma_run_ticks_empty(dest, rest);
    } else if dest == cam0 {
        assert(stepped.0 =~= Seq::<Action>::empty());
        lemma_run_ticks_empty(cam0, rest);
    } else {
        let s1 = seq![
            Action::CameraMotion {
                src: Some(cam0),
                dest,
                remaining_time: total,
                total_time: total,
            },
        ];
        assert(stepped.0 =~= s1);
        assert(rest.take(rest.len() - 1) =~= dts.subrange(1, dts.len() - 1));
        lemma_captured_motion_converges(cam0, dest, total, total, stepped.1, rest);
    }
}

/// The order in which a full drain pops the stack: top first.
pub open spec fn drain_order(s: Seq<Action>) -> Seq<Action>
    decreases s.len(),
{
    if s.len() == 0 {
        Seq::empty()
    } else {
        seq![s.last()] + drain_order(s.drop_last())
    }
}

/// The LIFO law: draining a stack pops the pushed actions in exactly the
/// reverse of the order in which they were pushed.
pub proof fn lemma_stack_lifo(s: Seq<Action>)
    ensures
        drain_order(s) == s.reverse(),
    decreases s.len(),
{
    if s.len() == 0 {
        assert(drain_order(s) =~= s.reverse());
    } else {
        lemma_stack_lifo(s.drop_last());
        assert(drain_order(s) =~= s.reverse());
    }
}

} // verus!
