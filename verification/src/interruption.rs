//! Recovery of the output stream after the operating system has taken it away.

use vstd::prelude::*;

use crate::event::Event;

verus! {

/// Where an interruption of the output stands.
#[derive(Debug, Clone, Copy, PartialEq, Eq, Structural)]
pub enum InterruptionState {
    /// The stream runs.
    Running,
    /// The operating system has stopped the stream.
    Interrupted,
    /// The stream has to be restarted.
    RecoveryPending,
    /// The stream has been restarted.
    Recovered,
    /// The stream could not be restarted.
    RecoveryFailed,
    /// The application is in the background.
    Backgrounded,
}

/// Why the output goes to another device now.
#[derive(Debug, Clone, Copy, PartialEq, Eq, Structural)]
pub enum RouteChangeReason {
    /// The old device is gone.
    OldDeviceUnavailable,
    /// A new device has appeared.
    NewDeviceAvailable,
    /// The category of the session has changed.
    CategoryChange,
    /// The route was overridden.
    Override,
    /// Anything else.
    Other,
}

impl RouteChangeReason {
    /// Whether the stream falls silent after a change for this reason.
    pub open spec fn breaks_stream(self) -> bool {
        self == RouteChangeReason::OldDeviceUnavailable || self
            == RouteChangeReason::NewDeviceAvailable
    }

    /// Whether the stream has to be restarted after a change for this reason.
    pub fn requires_recovery(self) -> (yes: bool)
        ensures
            yes == self.breaks_stream(),
    {
        matches!(
            self,
            RouteChangeReason::OldDeviceUnavailable | RouteChangeReason::NewDeviceAvailable
        )
    }
}

impl InterruptionState {
    /// The state after an interruption has ended.
    pub open spec fn after_end(self, should_resume: bool) -> InterruptionState {
        if should_resume {
            InterruptionState::RecoveryPending
        } else {
            InterruptionState::Running
        }
    }

    /// The state after the application has become active: whatever left the stream stopped calls
    /// for a restart.
    pub open spec fn after_activation(self) -> InterruptionState {
        match self {
            InterruptionState::Interrupted
            | InterruptionState::RecoveryFailed
            | InterruptionState::Backgrounded => InterruptionState::RecoveryPending,
            _ => self,
        }
    }

    /// The state after a change of route.
    pub open spec fn after_route_change(self, reason: RouteChangeReason) -> InterruptionState {
        if reason.breaks_stream() {
            InterruptionState::RecoveryPending
        } else {
            self
        }
    }

    /// The state after a restart has been tried.
    pub open spec fn after_attempt(self, success: bool) -> InterruptionState {
        if success {
            InterruptionState::Recovered
        } else {
            InterruptionState::RecoveryFailed
        }
    }

    /// The stream runs.
    pub fn new() -> (s: InterruptionState)
        ensures
            s == InterruptionState::Running,
    {
        InterruptionState::Running
    }

    /// An interruption has begun.
    pub fn on_interruption_began(self) -> (s: InterruptionState)
        ensures
            s == InterruptionState::Interrupted,
    {
        InterruptionState::Interrupted
    }

    /// An interruption has ended.
    pub fn on_interruption_ended(self, should_resume: bool) -> (s: InterruptionState)
        ensures
            s == self.after_end(should_resume),
    {
        if should_resume {
            InterruptionState::RecoveryPending
        } else {
            InterruptionState::Running
        }
    }

    /// The application has become active.
    pub fn on_app_became_active(self) -> (s: InterruptionState)
        ensures
            s == self.after_activation(),
    {
        match self {
            InterruptionState::Interrupted
            | InterruptionState::RecoveryFailed
            | InterruptionState::Backgrounded => InterruptionState::RecoveryPending,
            other => other,
        }
    }

    /// The application has gone to the background.
    pub fn on_app_entered_background(self) -> (s: InterruptionState)
        ensures
            s == InterruptionState::Backgrounded,
    {
        InterruptionState::Backgrounded
    }

    /// The output goes to another device now.
    pub fn on_route_changed(self, reason: RouteChangeReason) -> (s: InterruptionState)
        ensures
            s == self.after_route_change(reason),
    {
        if reason.requires_recovery() {
            InterruptionState::RecoveryPending
        } else {
            self
        }
    }

    /// A restart has been tried.
    pub fn on_recovery_attempted(self, success: bool) -> (s: InterruptionState)
        ensures
            s == self.after_attempt(success),
    {
        if success {
            InterruptionState::Recovered
        } else {
            InterruptionState::RecoveryFailed
        }
    }

    /// Whether a restart has to be tried.
    pub fn needs_recovery_attempt(self) -> (yes: bool)
        ensures
            yes == (self == InterruptionState::RecoveryPending),
    {
        matches!(self, InterruptionState::RecoveryPending)
    }
}

impl Default for InterruptionState {
    fn default() -> (s: InterruptionState)
        ensures
            s == InterruptionState::Running,
    {
        InterruptionState::new()
    }
}

/// What the operating system tells about the output.
#[derive(Debug, Clone, Copy, PartialEq, Eq, Structural)]
pub enum Notice {
    /// An interruption has begun.
    Began,
    /// An interruption has ended.
    Ended {
        /// Whether the output may go on.
        should_resume: bool,
    },
    /// The application has gone to the background.
    EnteredBackground,
    /// The application has become active.
    BecameActive,
    /// The output goes to another device now.
    RouteChanged {
        /// Why.
        reason: RouteChangeReason,
    },
}

/// The reason that the system calls by the number `raw`.
pub open spec fn reason_numbered(raw: usize) -> RouteChangeReason {
    if raw == 1 {
        RouteChangeReason::NewDeviceAvailable
    } else if raw == 2 {
        RouteChangeReason::OldDeviceUnavailable
    } else if raw == 3 {
        RouteChangeReason::CategoryChange
    } else if raw == 4 {
        RouteChangeReason::Override
    } else {
        RouteChangeReason::Other
    }
}

/// The reason that the system calls by the number `raw`.
pub fn classify_route_change_reason(raw: usize) -> (reason: RouteChangeReason)
    ensures
        reason == reason_numbered(raw),
{
    match raw {
        1 => RouteChangeReason::NewDeviceAvailable,
        2 => RouteChangeReason::OldDeviceUnavailable,
        3 => RouteChangeReason::CategoryChange,
        4 => RouteChangeReason::Override,
        _ => RouteChangeReason::Other,
    }
}

/// What an interruption with these numbers means: one for its beginning, zero for its end. The
/// output may go on after the end if the lowest bit of the options says so.
pub open spec fn notice_numbered(kind: Option<usize>, options: Option<usize>) -> Option<Notice> {
    match kind {
        Some(k) => if k == 1 {
            Some(Notice::Began)
        } else if k == 0 {
            Some(
                Notice::Ended { should_resume: options matches Some(o) && o % 2 == 1 },
            )
        } else {
            None
        },
        None => None,
    }
}

/// What the system tells with an interruption of this kind and these options, as far as it gives
/// them; nothing if the kind is unknown.
pub fn interruption_notice(kind: Option<usize>, options: Option<usize>) -> (notice: Option<Notice>)
    ensures
        notice == notice_numbered(kind, options),
{
    match kind {
        Some(1) => Some(Notice::Began),
        Some(0) => {
            let should_resume: bool = match options {
                Some(o) => o % 2 == 1,
                None => false,
            };
            Some(Notice::Ended { should_resume })
        },
        _ => None,
    }
}

/// What follows from a [`Notice`].
#[derive(Debug, Clone, Copy, PartialEq, Eq, Structural)]
pub struct Reaction {
    /// The new state.
    pub state: InterruptionState,
    /// What the game thread is told.
    pub event: Option<Event>,
    /// Whether the stream has to be restarted now.
    pub attempt_recovery: bool,
}

/// What follows from a notice in a given state.
pub open spec fn reaction_to(state: InterruptionState, notice: Notice) -> Reaction {
    match notice {
        Notice::Began => Reaction {
            state: InterruptionState::Interrupted,
            event: Some(Event::AudioInterruptionBegan),
            attempt_recovery: false,
        },
        Notice::Ended { should_resume } => Reaction {
            state: state.after_end(should_resume),
            event: if should_resume {
                None
            } else {
                Some(Event::AudioInterruptionEnded { recovered: false })
            },
            attempt_recovery: should_resume,
        },
        Notice::EnteredBackground => Reaction {
            state: InterruptionState::Backgrounded,
            event: None,
            attempt_recovery: false,
        },
        Notice::BecameActive => Reaction {
            state: state.after_activation(),
            event: None,
            attempt_recovery: state.after_activation() == InterruptionState::RecoveryPending,
        },
        Notice::RouteChanged { reason } => Reaction {
            state: state.after_route_change(reason),
            event: Some(Event::RouteChanged),
            attempt_recovery: state.after_route_change(reason)
                == InterruptionState::RecoveryPending,
        },
    }
}

/// Decides what follows from a notice.
pub fn react(state: InterruptionState, notice: Notice) -> (reaction: Reaction)
    ensures
        reaction == reaction_to(state, notice),
{
    match notice {
        Notice::Began => Reaction {
            state: state.on_interruption_began(),
            event: Some(Event::AudioInterruptionBegan),
            attempt_recovery: false,
        },
        Notice::Ended { should_resume } => {
            let next: InterruptionState = state.on_interruption_ended(should_resume);
            let attempt: bool = next.needs_recovery_attempt();
            Reaction {
                state: next,
                event: if attempt {
                    None
                } else {
                    Some(Event::AudioInterruptionEnded { recovered: false })
                },
                attempt_recovery: attempt,
            }
        },
        Notice::EnteredBackground => Reaction {
            state: state.on_app_entered_background(),
            event: None,
            attempt_recovery: false,
        },
        Notice::BecameActive => {
            let next: InterruptionState = state.on_app_became_active();
            Reaction {
                state: next,
                event: None,
                attempt_recovery: next.needs_recovery_attempt(),
            }
        },
        Notice::RouteChanged { reason } => {
            let next: InterruptionState = state.on_route_changed(reason);
            Reaction {
                state: next,
                event: Some(Event::RouteChanged),
                attempt_recovery: next.needs_recovery_attempt(),
            }
        },
    }
}

/// What follows once it is known whether a restart has worked.
pub open spec fn conclusion_of(state: InterruptionState, success: bool) -> Reaction {
    Reaction {
        state: state.after_attempt(success),
        event: Some(Event::AudioInterruptionEnded { recovered: success }),
        attempt_recovery: false,
    }
}

/// What follows once it is known whether a restart has worked.
pub fn conclude_recovery(state: InterruptionState, success: bool) -> (reaction: Reaction)
    ensures
        reaction == conclusion_of(state, success),
        reaction == (Reaction {
            state: state.after_attempt(success),
            event: Some(Event::AudioInterruptionEnded { recovered: success }),
            attempt_recovery: false,
        }),
{
    Reaction {
        state: state.on_recovery_attempted(success),
        event: Some(Event::AudioInterruptionEnded { recovered: success }),
        attempt_recovery: false,
    }
}

/// How long to wait before each look at whether the stream runs again, in milliseconds.
pub const RECOVERY_WAIT_SCHEDULE_MS: [u64; 4] = [20, 50, 100, 200];

/// How long the first `n` waits take together.
pub open spec fn waited_after(n: nat) -> nat {
    if n == 0 {
        0
    } else if n == 1 {
        20
    } else if n == 2 {
        70
    } else if n == 3 {
        170
    } else {
        370
    }
}

/// How long the wait number `n` takes, counted from zero.
pub open spec fn wait_before_look(n: nat) -> nat {
    (waited_after(n + 1) - waited_after(n)) as nat
}

/// The next step of a [`RecoveryCheck`].
#[derive(Debug, Clone, Copy, PartialEq, Eq, Structural)]
pub struct CheckStep {
    /// Whether the stream has to be restarted once more before waiting.
    pub retry: bool,
    /// How long to wait.
    pub wait_ms: u64,
}

/// A check whether the stream runs again after it has been restarted: whether its callback, which
/// counts its calls, is called.
#[derive(Debug)]
pub struct RecoveryCheck {
    /// The count before the restart.
    pub ticks_before: u64,
    /// How many looks have been taken.
    pub looks: usize,
    /// How long the waits took together, in milliseconds.
    pub waited_ms: u64,
}

impl RecoveryCheck {
    /// Whether the wait matches the number of looks.
    pub open spec fn wf(self) -> bool {
        self.looks <= 4 && self.waited_ms == waited_after(self.looks as nat)
    }

    /// A check of which nothing has been done.
    pub fn new(ticks_before: u64) -> (c: RecoveryCheck)
        ensures
            c.wf(),
            c.ticks_before == ticks_before,
            c.looks == 0,
    {
        RecoveryCheck { ticks_before, looks: 0, waited_ms: 0 }
    }

    /// What to do before the next look; none once the schedule is exhausted. The stream is
    /// restarted before every look but the first, since that has just been done.
    pub fn next_step(&self) -> (step: Option<CheckStep>)
        requires
            self.wf(),
        ensures
            step == if self.looks < 4 {
                Some(
                    CheckStep {
                        retry: self.looks > 0,
                        wait_ms: wait_before_look(self.looks as nat) as u64,
                    },
                )
            } else {
                None
            },
    {
        if self.looks < RECOVERY_WAIT_SCHEDULE_MS.len() {
            Some(
                CheckStep {
                    retry: self.looks > 0,
                    wait_ms: RECOVERY_WAIT_SCHEDULE_MS[self.looks],
                },
            )
        } else {
            None
        }
    }

    /// Takes a look: the count is `ticks_now`. If it has changed the stream runs again, and the
    /// number of looks and the time waited are returned.
    pub fn look(&mut self, ticks_now: u64) -> (confirmed: Option<(u32, u64)>)
        requires
            old(self).wf(),
            old(self).looks < 4,
        ensures
            final(self).wf(),
            final(self).ticks_before == old(self).ticks_before,
            final(self).looks == old(self).looks + 1,
            confirmed == if ticks_now != old(self).ticks_before {
                Some((final(self).looks as u32, final(self).waited_ms))
            } else {
                None
            },
    {
        self.waited_ms = self.waited_ms + RECOVERY_WAIT_SCHEDULE_MS[self.looks];
        self.looks = self.looks + 1;
        if ticks_now != self.ticks_before {
            Some((self.looks as u32, self.waited_ms))
        } else {
            None
        }
    }
}

/// One thing that was done in the course of a check.
pub enum RecoveryCall {
    /// The stream was restarted.
    Retry,
    /// So many milliseconds passed.
    Sleep(u64),
    /// The count was read.
    Read(u64),
}

/// What a check does: reading the count, restarting the stream and waiting. Keeps a record of what
/// was done.
pub struct RecoveryActions<R: FnMut() -> u64, T: FnMut(), W: FnMut(u64)> {
    read_ticks: R,
    retry: T,
    sleep_ms: W,
    record: Ghost<Seq<RecoveryCall>>,
}

impl<R: FnMut() -> u64, T: FnMut(), W: FnMut(u64)> RecoveryActions<R, T, W> {
    /// Whether each of the three can be done at any time.
    pub closed spec fn wf(self) -> bool {
        &&& self.read_ticks.requires(())
        &&& self.retry.requires(())
        &&& forall|ms: u64| self.sleep_ms.requires((ms,))
    }

    /// What was done so far.
    pub closed spec fn calls(self) -> Seq<RecoveryCall> {
        self.record@
    }

    /// Whether the count may be read as `ticks`.
    pub closed spec fn may_read(self, ticks: u64) -> bool {
        self.read_ticks.ensures((), ticks)
    }

    /// Three actions of which none has been done.
    pub fn new(read_ticks: R, retry: T, sleep_ms: W) -> (actions: RecoveryActions<R, T, W>)
        requires
            read_ticks.requires(()),
            retry.requires(()),
            forall|ms: u64| sleep_ms.requires((ms,)),
        ensures
            actions.wf(),
            actions.calls() == Seq::<RecoveryCall>::empty(),
            forall|ticks: u64| #[trigger]
                actions.may_read(ticks) == read_ticks.ensures((), ticks),
    {
        RecoveryActions { read_ticks, retry, sleep_ms, record: Ghost(Seq::empty()) }
    }

    /// Reads the count.
    pub fn read_ticks(&mut self) -> (ticks: u64)
        requires
            old(self).wf(),
        ensures
            final(self).wf(),
            final(self).calls() == old(self).calls().push(RecoveryCall::Read(ticks)),
            final(self).may_read(ticks),
            forall|t: u64| #[trigger] final(self).may_read(t) == old(self).may_read(t),
    {
        let ticks: u64 = (self.read_ticks)();
        self.record = Ghost(self.record@.push(RecoveryCall::Read(ticks)));
        ticks
    }

    /// Restarts the stream.
    pub fn retry(&mut self)
        requires
            old(self).wf(),
        ensures
            final(self).wf(),
            final(self).calls() == old(self).calls().push(RecoveryCall::Retry),
            forall|t: u64| #[trigger] final(self).may_read(t) == old(self).may_read(t),
    {
        (self.retry)();
        self.record = Ghost(self.record@.push(RecoveryCall::Retry));
    }

    /// Waits for `ms` milliseconds.
    pub fn sleep_ms(&mut self, ms: u64)
        requires
            old(self).wf(),
        ensures
            final(self).wf(),
            final(self).calls() == old(self).calls().push(RecoveryCall::Sleep(ms)),
            forall|t: u64| #[trigger] final(self).may_read(t) == old(self).may_read(t),
    {
        (self.sleep_ms)(ms);
        self.record = Ghost(self.record@.push(RecoveryCall::Sleep(ms)));
    }
}

/// What is done up to the last of as many looks as there are counts in `ticks`, which were read in
/// turn: before each look the wait that [`RECOVERY_WAIT_SCHEDULE_MS`] gives for it, and before each
/// wait but the first a restart.
pub open spec fn calls_of_check(ticks: Seq<u64>) -> Seq<RecoveryCall>
    decreases ticks.len(),
{
    if ticks.len() == 0 {
        Seq::empty()
    } else {
        let n = (ticks.len() - 1) as nat;
        let before = calls_of_check(ticks.drop_last());
        let restarted = if n > 0 {
            before.push(RecoveryCall::Retry)
        } else {
            before
        };
        restarted.push(RecoveryCall::Sleep(wait_before_look(n) as u64)).push(
            RecoveryCall::Read(ticks.last()),
        )
    }
}

/// What is concluded from the counts `ticks` that were read after the waits: that the stream runs
/// again if the last of them differs from `ticks_before`, which ends the check, and that it does
/// not if none of four does.
pub open spec fn concluded(ticks_before: u64, ticks: Seq<u64>, r: Option<(u32, u64)>) -> bool {
    &&& 1 <= ticks.len() <= 4
    &&& forall|i: int| 0 <= i < ticks.len() - 1 ==> #[trigger] ticks[i] == ticks_before
    &&& if ticks.last() != ticks_before {
        r == Some((ticks.len() as u32, waited_after(ticks.len()) as u64))
    } else {
        r is None && ticks.len() == 4
    }
}

/// Checks whether the stream runs again after it has been restarted. Waits as
/// [`RECOVERY_WAIT_SCHEDULE_MS`] says, restarting the stream before every wait but the first, until
/// the count differs from `ticks_before`. Returns the number of looks that took and the time
/// waited, or none if the count never changed.
pub fn confirm_recovery_progress<R: FnMut() -> u64, T: FnMut(), W: FnMut(u64)>(
    ticks_before: u64,
    actions: &mut RecoveryActions<R, T, W>,
) -> (r: Option<(u32, u64)>)
    requires
        old(actions).wf(),
    ensures
        final(actions).wf(),
        exists|ticks: Seq<u64>|
            {
                &&& final(actions).calls() == old(actions).calls() + #[trigger] calls_of_check(
                    ticks,
                )
                &&& concluded(ticks_before, ticks, r)
                &&& forall|i: int|
                    0 <= i < ticks.len() ==> old(actions).may_read(#[trigger] ticks[i])
            },
{
    let mut check: RecoveryCheck = RecoveryCheck::new(ticks_before);
    let ghost mut ticks: Seq<u64> = Seq::empty();
    let mut confirmed: Option<(u32, u64)> = None;
    let mut step: Option<CheckStep> = check.next_step();
    assert(actions.calls() =~= old(actions).calls() + calls_of_check(ticks));
    while step.is_some()
        invariant
            actions.wf(),
            forall|t: u64| #[trigger] actions.may_read(t) == old(actions).may_read(t),
            actions.calls() == old(actions).calls() + calls_of_check(ticks),
            forall|i: int| 0 <= i < ticks.len() ==> old(actions).may_read(#[trigger] ticks[i]),
            check.wf(),
            check.ticks_before == ticks_before,
            check.looks == ticks.len(),
            step is Some ==> step == Some(
                CheckStep {
                    retry: check.looks > 0,
                    wait_ms: wait_before_look(check.looks as nat) as u64,
                },
            ),
            step is Some ==> check.looks < 4 && forall|i: int|
                0 <= i < ticks.len() ==> #[trigger] ticks[i] == ticks_before,
            step is None ==> concluded(ticks_before, ticks, confirmed),
            step is Some ==> confirmed is None,
        decreases 4 - check.looks,
    {
        let due: CheckStep = step.unwrap();
        if due.retry {
            actions.retry();
        }
        actions.sleep_ms(due.wait_ms);
        let now: u64 = actions.read_ticks();
        proof {
            let seen = ticks;
            ticks = ticks.push(now);
            assert(ticks.drop_last() =~= seen);
            assert(actions.calls() =~= old(actions).calls() + calls_of_check(ticks));
        }
        confirmed = check.look(now);
        step =
        if confirmed.is_some() {
            None
        } else {
            check.next_step()
        };
    }
    confirmed
}

/// Which of four answers ends a check, counted from one: the first that differs from
/// `ticks_before`, or the last.
pub open spec fn deciding_look(ticks_before: u64, answers: Seq<u64>, from: nat) -> nat
    decreases 4 - from,
{
    if from >= 3 || answers[from as int] != ticks_before {
        from + 1
    } else {
        deciding_look(ticks_before, answers, from + 1)
    }
}

proof fn lemma_deciding_look(ticks_before: u64, answers: Seq<u64>, from: nat)
    requires
        from <= 3,
    ensures
        ({
            let k = deciding_look(ticks_before, answers, from);
            &&& from < k <= 4
            &&& forall|i: int| from <= i < k - 1 ==> #[trigger] answers[i] == ticks_before
            &&& answers[k - 1] != ticks_before || k == 4
        }),
    decreases 4 - from,
{
    if from < 3 && answers[from as int] == ticks_before {
        lemma_deciding_look(ticks_before, answers, from + 1);
    }
}

/// If the count is going to be read as `answers` in turn, a check takes as many looks as it takes
/// to see the count change, or four if it never does. The result says so, with the time waited.
pub proof fn law_a_check_ends_at_the_first_change(
    ticks_before: u64,
    answers: Seq<u64>,
    ticks: Seq<u64>,
    r: Option<(u32, u64)>,
)
    requires
        answers.len() == 4,
        ticks.is_prefix_of(answers),
        concluded(ticks_before, ticks, r),
    ensures
        ({
            let k = deciding_look(ticks_before, answers, 0);
            &&& ticks == answers.take(k as int)
            &&& r == if answers[k - 1] != ticks_before {
                Some((k as u32, waited_after(k) as u64))
            } else {
                None
            }
        }),
{
    lemma_deciding_look(ticks_before, answers, 0);
    let k = deciding_look(ticks_before, answers, 0);
    assert(ticks =~= answers.take(ticks.len() as int));
    assert(ticks.last() == answers[ticks.len() - 1]);
    if ticks.len() < k {
        assert(answers[ticks.len() - 1] == ticks_before);
    }
    if k < ticks.len() {
        assert(ticks[k - 1] == ticks_before);
    }
}

/// A check that reads the counts `ticks` waits and looks once for each, in this order, and restarts
/// the stream before each wait but the first. It does nothing else.
pub proof fn law_a_check_restarts_before_each_look_but_the_first(ticks: Seq<u64>, i: int)
    requires
        0 <= i < ticks.len(),
    ensures
        calls_of_check(ticks).len() == 3 * ticks.len() - 1,
        i > 0 ==> calls_of_check(ticks)[3 * i - 1] == RecoveryCall::Retry,
        calls_of_check(ticks)[3 * i] == RecoveryCall::Sleep(wait_before_look(i as nat) as u64),
        calls_of_check(ticks)[3 * i + 1] == RecoveryCall::Read(ticks[i]),
    decreases ticks.len(),
{
    reveal_with_fuel(calls_of_check, 2);
    let rest = ticks.drop_last();
    if rest.len() > 0 {
        law_a_check_restarts_before_each_look_but_the_first(
            rest,
            if i < rest.len() {
                i
            } else {
                0
            },
        );
    }
}

/// Whatever happened before, a new interruption leaves the state at interrupted, and going to the
/// background leaves it at backgrounded; from either, becoming active calls for a restart.
pub proof fn law_activation_recovers_what_was_stopped(state: InterruptionState)
    ensures
        reaction_to(
            reaction_to(state, Notice::Began).state,
            Notice::BecameActive,
        ).attempt_recovery,
        reaction_to(
            reaction_to(state, Notice::EnteredBackground).state,
            Notice::BecameActive,
        ).attempt_recovery,
{
}

/// A restart that failed is tried again when the application becomes active; one that worked is
/// not.
pub proof fn law_failed_recovery_is_retried(state: InterruptionState)
    ensures
        reaction_to(state.after_attempt(false), Notice::BecameActive).attempt_recovery,
        !reaction_to(state.after_attempt(true), Notice::BecameActive).attempt_recovery,
        reaction_to(state.after_attempt(true), Notice::BecameActive).state == state.after_attempt(
            true,
        ),
{
}

/// A restart is called for exactly when the state asks for one, and every change of route is told
/// to the game thread.
pub proof fn law_reactions_follow_the_state(state: InterruptionState, notice: Notice)
    ensures
        reaction_to(state, notice).attempt_recovery == (reaction_to(state, notice).state
            == InterruptionState::RecoveryPending),
        notice is RouteChanged ==> reaction_to(state, notice).event == Some(Event::RouteChanged),
{
}

/// The end of an interruption calls for a restart exactly if the output may go on; otherwise the
/// game thread is told that nothing was restarted, and the stream counts as running. A beginning is
/// always told; going to the background and becoming active are not.
pub proof fn law_interruptions_are_told(state: InterruptionState, should_resume: bool)
    ensures
        ({
            let ended = reaction_to(state, Notice::Ended { should_resume });
            &&& should_resume ==> ended.state == InterruptionState::RecoveryPending && ended.event
                is None && ended.attempt_recovery
            &&& !should_resume ==> ended.state == InterruptionState::Running && ended.event == Some(
                Event::AudioInterruptionEnded { recovered: false },
            ) && !ended.attempt_recovery
        }),
        reaction_to(state, Notice::Began).state == InterruptionState::Interrupted,
        reaction_to(state, Notice::Began).event == Some(Event::AudioInterruptionBegan),
        reaction_to(state, Notice::EnteredBackground).state == InterruptionState::Backgrounded,
        reaction_to(state, Notice::EnteredBackground).event is None,
        reaction_to(state, Notice::BecameActive).event is None,
{
}

/// Becoming active calls for a restart exactly where the stream was stopped: by an interruption, by
/// a restart that failed, or by the background; where it was called for already it still is. In any
/// other state nothing changes.
pub proof fn law_running_streams_are_left_alone(state: InterruptionState)
    ensures
        reaction_to(state, Notice::BecameActive).attempt_recovery <==> state
            != InterruptionState::Running && state != InterruptionState::Recovered,
        state == InterruptionState::Running || state == InterruptionState::Recovered
            ==> reaction_to(state, Notice::BecameActive).state == state,
        state.after_attempt(true) == InterruptionState::Recovered,
        state.after_attempt(false) == InterruptionState::RecoveryFailed,
{
}

/// A change of route calls for a restart exactly if a device has gone or come, whatever the state;
/// any other change leaves the state as it is.
pub proof fn law_new_devices_call_for_a_restart(
    state: InterruptionState,
    reason: RouteChangeReason,
)
    ensures
        reason == RouteChangeReason::OldDeviceUnavailable || reason
            == RouteChangeReason::NewDeviceAvailable ==> reaction_to(
            state,
            Notice::RouteChanged { reason },
        ).state == InterruptionState::RecoveryPending,
        reason != RouteChangeReason::OldDeviceUnavailable && reason
            != RouteChangeReason::NewDeviceAvailable ==> reaction_to(
            state,
            Notice::RouteChanged { reason },
        ).state == state,
{
}

/// The numbers of the system are understood one by one: `1` begins an interruption and `0` ends it,
/// and after its end the output may go on exactly if the options are given and odd; reasons have
/// the numbers `1` to `4`, and all others are not told apart.
pub proof fn law_system_numbers_are_understood(
    kind: Option<usize>,
    options: Option<usize>,
    raw: usize,
)
    ensures
        notice_numbered(kind, options) == Some(Notice::Began) <==> kind == Some(1usize),
        kind != Some(0usize) ==> notice_numbered(kind, options) is None || notice_numbered(
            kind,
            options,
        ) == Some(Notice::Began),
        notice_numbered(Some(0usize), options) == Some(
            Notice::Ended { should_resume: options is Some && options->0 % 2 == 1 },
        ),
        kind is None ==> notice_numbered(kind, options) is None,
        kind matches Some(k) ==> k > 1 ==> notice_numbered(kind, options) is None,
        reason_numbered(raw) == RouteChangeReason::NewDeviceAvailable <==> raw == 1,
        reason_numbered(raw) == RouteChangeReason::OldDeviceUnavailable <==> raw == 2,
        reason_numbered(raw) == RouteChangeReason::CategoryChange <==> raw == 3,
        reason_numbered(raw) == RouteChangeReason::Override <==> raw == 4,
        reason_numbered(raw) == RouteChangeReason::Other <==> raw == 0 || raw > 4,
{
}

/// Each look at whether the stream runs again comes after a longer wait than the one before, and
/// the waits of the schedule add up to the time that is told.
pub proof fn law_waits_grow_and_add_up(n: nat)
    requires
        n < 4,
    ensures
        waited_after(0) == 0,
        wait_before_look(n) == RECOVERY_WAIT_SCHEDULE_MS[n as int],
        waited_after(n + 1) == waited_after(n) + RECOVERY_WAIT_SCHEDULE_MS[n as int],
        n > 0 ==> wait_before_look((n - 1) as nat) < wait_before_look(n),
{
}

/// Whether a restart has worked is told to the game thread as it is, and is not followed by another
/// restart at once; one that failed is followed by one as soon as the application becomes active.
pub proof fn law_restarts_are_told_as_they_went(state: InterruptionState, success: bool)
    ensures
        conclusion_of(state, success).event == Some(
            Event::AudioInterruptionEnded { recovered: success },
        ),
        conclusion_of(state, success).state == if success {
            InterruptionState::Recovered
        } else {
            InterruptionState::RecoveryFailed
        },
        !conclusion_of(state, success).attempt_recovery,
        reaction_to(conclusion_of(state, success).state, Notice::BecameActive).attempt_recovery
            <==> !success,
{
}

} // verus!
