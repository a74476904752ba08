//! The conversation with the plotter during one run: ask for its
//! configuration, let the caller plan the drawing, optionally home the
//! machine, then send the planned commands one by one, each only after the
//! previous one was acknowledged.
//!
//! The session decides; the caller performs the requested action and hands
//! back what came of it.

use vstd::prelude::*;

use crate::Error;

verus! {

/// What the plotter answered, as far as the session cares.
#[derive(Debug, Clone, Copy, PartialEq, Eq, Structural)]
pub enum Reply {
    /// The request was carried out.
    Acked,
    /// The plotter refused the request with an error.
    Refused,
    /// The plotter sent its system configuration.
    Config,
    /// Any other answer.
    Other,
}

/// A request to send to the plotter.
#[derive(Debug, Clone, Copy, PartialEq, Eq, Structural)]
pub enum Request {
    /// Ask for the whole system configuration.
    ConfigGet,
    /// Home all three axes.
    Home,
    /// Send the planned command with this index.
    Command(usize),
}

/// What the caller has to do next.
#[derive(Debug)]
pub enum Action {
    /// Send a request and report the reply.
    Send(Request),
    /// Plan the drawing with the configuration just received and report the
    /// number of planned commands.
    Plan,
    /// Every command was acknowledged: the run succeeded.
    Done,
    /// The run failed with this error.
    Abort(Error),
}

/// What happened since the last action.
#[derive(Debug, Clone, Copy, PartialEq, Eq, Structural)]
pub enum Event {
    /// The plotter answered the last request.
    Reply(Reply),
    /// The drawing was planned into this many commands.
    Planned(usize),
}

/// Where a session stands.
#[derive(Debug, Clone, Copy, PartialEq, Eq, Structural)]
pub enum Stage {
    /// Waiting for the configuration.
    Configuring,
    /// Waiting for the plan.
    Planning,
    /// Waiting for the end of homing.
    Homing,
    /// Waiting for the acknowledgement of a command.
    Plotting,
    /// All commands were acknowledged.
    Finished,
    /// The run failed.
    Aborted,
}

/// The state of a session: whether it homes, its stage, how many commands were
/// planned and how many of them were acknowledged.
pub struct SessionState {
    pub homing: bool,
    pub stage: Stage,
    pub total: nat,
    pub acked: nat,
}

/// A new session, which first asks for the configuration.
pub open spec fn initial(homing: bool) -> SessionState {
    SessionState { homing, stage: Stage::Configuring, total: 0, acked: 0 }
}

/// Whether the session is waiting for `e`: a reply while a request is out, a
/// plan count while planning.
pub open spec fn accepts(s: SessionState, e: Event) -> bool {
    match e {
        Event::Reply(_) => s.stage == Stage::Configuring || s.stage == Stage::Homing || s.stage
            == Stage::Plotting,
        Event::Planned(_) => s.stage == Stage::Planning,
    }
}

/// Start sending the planned commands, or finish at once when there are none.
pub open spec fn begin_plotting(s: SessionState) -> (SessionState, Action) {
    if s.total == 0 {
        (SessionState { stage: Stage::Finished, acked: 0, ..s }, Action::Done)
    } else {
        (SessionState { stage: Stage::Plotting, acked: 0, ..s }, Action::Send(Request::Command(0)))
    }
}

/// The failure that a reply other than the awaited one causes: a refusal is a
/// device error, anything else an unexpected response.
pub open spec fn failure_of(r: Reply) -> Error {
    if r == Reply::Refused {
        Error::DeviceError
    } else {
        Error::UnexpectedResponse
    }
}

/// The next state and action after `e`.
pub open spec fn next(s: SessionState, e: Event) -> (SessionState, Action) {
    let aborted = SessionState { stage: Stage::Aborted, ..s };
    match e {
        Event::Planned(n) => {
            let planned = SessionState { total: n as nat, ..s };
            if s.homing {
                (SessionState { stage: Stage::Homing, ..planned }, Action::Send(Request::Home))
            } else {
                begin_plotting(planned)
            }
        },
        Event::Reply(r) => {
            if s.stage == Stage::Configuring {
                if r == Reply::Config {
                    (SessionState { stage: Stage::Planning, ..s }, Action::Plan)
                } else {
                    (aborted, Action::Abort(Error::UnexpectedResponse))
                }
            } else if s.stage == Stage::Homing {
                if r == Reply::Acked {
                    begin_plotting(s)
                } else {
                    (aborted, Action::Abort(failure_of(r)))
                }
            } else {
                if r == Reply::Acked {
                    let acked = s.acked + 1;
                    if acked == s.total {
                        (SessionState { stage: Stage::Finished, acked, ..s }, Action::Done)
                    } else {
                        (
                            SessionState { acked, ..s },
                            Action::Send(Request::Command(acked as usize)),
                        )
                    }
                } else {
                    (aborted, Action::Abort(failure_of(r)))
                }
            }
        },
    }
}

/// The session after the events `evs`, one after the other, and the actions
/// it asked for on the way.
pub open spec fn run(s: SessionState, evs: Seq<Event>) -> (SessionState, Seq<Action>)
    decreases evs.len(),
{
    if evs.len() == 0 {
        (s, Seq::empty())
    } else {
        let before = run(s, evs.drop_last());
        let after = next(before.0, evs.last());
        (after.0, before.1.push(after.1))
    }
}

/// Whether the session waits for each of the events `evs` when it comes.
pub open spec fn accepts_all(s: SessionState, evs: Seq<Event>) -> bool
    decreases evs.len(),
{
    if evs.len() == 0 {
        true
    } else {
        accepts_all(s, evs.drop_last()) && accepts(run(s, evs.drop_last()).0, evs.last())
    }
}

/// `k` acknowledgements.
pub open spec fn acks(k: nat) -> Seq<Event> {
    Seq::new(k, |i: int| Event::Reply(Reply::Acked))
}

/// What the plotter answers in a run where everything goes well, with the
/// plan count in its place: the configuration, `n` planned commands, the end
/// of homing when the run homes, and an acknowledgement for every command.
pub open spec fn smooth_events(homing: bool, n: usize) -> Seq<Event> {
    let start = seq![Event::Reply(Reply::Config), Event::Planned(n)];
    let homed = if homing { start.push(Event::Reply(Reply::Acked)) } else { start };
    homed + acks(n as nat)
}

/// The requests of such a run, after the first one for the configuration:
/// planning, homing when asked for, every command in order, and success.
pub open spec fn smooth_actions(homing: bool, n: usize) -> Seq<Action> {
    let start = seq![Action::Plan];
    let homed = if homing { start.push(Action::Send(Request::Home)) } else { start };
    homed + Seq::new(n as nat, |i: int| Action::Send(Request::Command(i as usize))) + seq![
        Action::Done,
    ]
}

/// Consistent counts: no more acknowledgements than commands, a command out
/// while plotting, and all of them acknowledged once finished.
pub open spec fn consistent(s: SessionState) -> bool {
    &&& s.total <= usize::MAX
    &&& s.acked <= s.total
    &&& s.stage == Stage::Plotting ==> s.acked < s.total
    &&& s.stage == Stage::Finished ==> s.acked == s.total
}

proof fn lemma_run_append(s: SessionState, a: Seq<Event>, b: Seq<Event>)
    ensures
        run(s, a + b) == (run(run(s, a).0, b).0, run(s, a).1 + run(run(s, a).0, b).1),
        accepts_all(s, a + b) == (accepts_all(s, a) && accepts_all(run(s, a).0, b)),
    decreases b.len(),
{
    if b.len() == 0 {
        assert(a + b =~= a);
        assert(run(s, a).1 + Seq::<Action>::empty() =~= run(s, a).1);
    } else {
        assert((a + b).drop_last() =~= a + b.drop_last());
        assert((a + b).last() == b.last());
        lemma_run_append(s, a, b.drop_last());
        let mid = run(s, a).0;
        assert(run(s, a).1 + run(mid, b).1 =~= (run(s, a).1 + run(mid, b.drop_last()).1).push(
            next(run(mid, b.drop_last()).0, b.last()).1,
        ));
    }
}

/// Requests for commands `1..=k`.
pub open spec fn later_commands(k: nat) -> Seq<Action> {
    Seq::new(k, |i: int| Action::Send(Request::Command((i + 1) as usize)))
}

/// From plotting with nothing acknowledged yet, `k` acknowledgements (fewer
/// than the commands) ask for the next `k` commands.
proof fn lemma_acks_progress(s: SessionState, k: nat)
    requires
        s.stage == Stage::Plotting,
        s.acked == 0,
        k < s.total,
    ensures
        accepts_all(s, acks(k)),
        run(s, acks(k)).0 == (SessionState { acked: k, ..s }),
        run(s, acks(k)).1 == later_commands(k),
    decreases k,
{
    if k == 0 {
        assert(acks(0) =~= Seq::<Event>::empty());
        assert(run(s, acks(0)).1 =~= later_commands(0));
    } else {
        assert(acks(k).drop_last() =~= acks((k - 1) as nat));
        lemma_acks_progress(s, (k - 1) as nat);
        assert(run(s, acks(k)).1 =~= later_commands(k));
    }
}

/// Law: a run in which the plotter answers every request as expected asks,
/// after the configuration, for planning, for homing when the run homes, for
/// every planned command exactly once and in order, and then finishes with
/// success; at every step the session is waiting for the answer it gets.
pub proof fn lemma_smooth_run_succeeds(homing: bool, n: usize)
    ensures
        accepts_all(initial(homing), smooth_events(homing, n)),
        run(initial(homing), smooth_events(homing, n)).0.stage == Stage::Finished,
        run(initial(homing), smooth_events(homing, n)).1 == smooth_actions(homing, n),
{
    let s0 = initial(homing);
    let e1 = seq![Event::Reply(Reply::Config)];
    let start = seq![Event::Reply(Reply::Config), Event::Planned(n)];
    let homed = if homing { start.push(Event::Reply(Reply::Acked)) } else { start };
    assert(e1.drop_last() =~= Seq::<Event>::empty());
    assert(run(s0, Seq::<Event>::empty()).0 == s0);
    assert(run(s0, Seq::<Event>::empty()).1 =~= Seq::<Action>::empty());
    assert(accepts_all(s0, Seq::<Event>::empty()));
    let planning = SessionState { homing, stage: Stage::Planning, total: 0, acked: 0 };
    assert(run(s0, e1).0 == planning);
    assert(run(s0, e1).1 =~= seq![Action::Plan]);
    assert(accepts_all(s0, e1));
    assert(start.drop_last() =~= e1);
    assert(accepts_all(s0, start));
    let p = SessionState {
        homing,
        stage: if n == 0 { Stage::Finished } else { Stage::Plotting },
        total: n as nat,
        acked: 0,
    };
    let first = if n == 0 { Action::Done } else { Action::Send(Request::Command(0)) };
    let head = if homing { seq![Action::Plan, Action::Send(Request::Home)] } else { seq![Action::Plan] };
    if homing {
        let h = SessionState { homing, stage: Stage::Homing, total: n as nat, acked: 0 };
        assert(run(s0, start).0 == h);
        assert(run(s0, start).1 =~= seq![Action::Plan, Action::Send(Request::Home)]);
        assert(homed.drop_last() =~= start);
        assert(run(s0, homed).0 == p);
        assert(run(s0, homed).1 =~= head.push(first));
    } else {
        assert(run(s0, start).0 == p);
        assert(run(s0, start).1 =~= head.push(first));
    }
    assert(accepts_all(s0, homed));
    lemma_run_append(s0, homed, acks(n as nat));
    if n == 0 {
        assert(acks(0) =~= Seq::<Event>::empty());
        assert(smooth_actions(homing, n) =~= head.push(Action::Done));
        assert(run(s0, homed).1 + run(p, acks(0)).1 =~= head.push(Action::Done));
    } else {
        lemma_acks_progress(p, (n - 1) as nat);
        assert(acks(n as nat).drop_last() =~= acks((n - 1) as nat));
        assert(run(p, acks(n as nat)).0.stage == Stage::Finished);
        assert(run(p, acks(n as nat)).1 =~= later_commands((n - 1) as nat).push(Action::Done));
        assert(smooth_actions(homing, n) =~= head.push(first) + later_commands((n - 1) as nat).push(
            Action::Done,
        ));
    }
}

/// Law: when the plotter refuses a request, or answers something other than
/// the configuration when asked for it, the run fails, with a device error
/// for a refusal after the configuration and an unexpected response
/// otherwise, and the session then waits for nothing more.
pub proof fn lemma_rejection_ends_run(s: SessionState, r: Reply)
    requires
        accepts(s, Event::Reply(r)),
        if s.stage == Stage::Configuring { r != Reply::Config } else { r != Reply::Acked },
    ensures
        next(s, Event::Reply(r)).0.stage == Stage::Aborted,
        next(s, Event::Reply(r)).1 == Action::Abort(
            if s.stage != Stage::Configuring && r == Reply::Refused {
                Error::DeviceError
            } else {
                Error::UnexpectedResponse
            },
        ),
        forall|e: Event| !accepts(#[trigger] next(s, Event::Reply(r)).0, e),
{
}

/// Law: every transition keeps the counts consistent, reports success only
/// when every planned command was acknowledged, and asks for command `i` only
/// when the first `i` are acknowledged.
pub proof fn lemma_next_consistent(s: SessionState, e: Event)
    requires
        consistent(s),
        accepts(s, e),
        s.stage == Stage::Configuring || s.stage == Stage::Planning ==> s.acked == 0,
    ensures
        consistent(next(s, e).0),
        next(s, e).1 == Action::Done ==> next(s, e).0.stage == Stage::Finished && next(s, e).0.acked
            == next(s, e).0.total,
        forall|i: usize|
            next(s, e).1 == Action::Send(Request::Command(i)) ==> i == next(s, e).0.acked && next(
                s,
                e,
            ).0.stage == Stage::Plotting,
{
}

/// The command/response conversation of one run.
pub struct Session {
    homing: bool,
    stage: Stage,
    total: usize,
    acked: usize,
}

impl View for Session {
    type V = SessionState;

    closed spec fn view(&self) -> SessionState {
        SessionState {
            homing: self.homing,
            stage: self.stage,
            total: self.total as nat,
            acked: self.acked as nat,
        }
    }
}

impl Session {
    #[verifier::type_invariant]
    spec fn counts_agree(self) -> bool {
        &&& self.acked <= self.total
        &&& self.stage == Stage::Plotting ==> self.acked < self.total
        &&& (self.stage == Stage::Configuring || self.stage == Stage::Planning) ==> self.acked == 0
    }

    /// A new session; it starts by asking for the configuration.
    pub fn new(homing: bool) -> (r: (Session, Action))
        ensures
            r.0@ == initial(homing),
            r.1 == Action::Send(Request::ConfigGet),
    {
        (
            Session { homing, stage: Stage::Configuring, total: 0, acked: 0 },
            Action::Send(Request::ConfigGet),
        )
    }

    /// Where the session stands.
    pub fn stage(&self) -> (r: Stage)
        ensures
            r == self@.stage,
    {
        self.stage
    }

    /// Whether the session is waiting for `e`.
    pub fn accepts(&self, e: Event) -> (r: bool)
        ensures
            r == accepts(self@, e),
    {
        match e {
            Event::Reply(_) => self.stage == Stage::Configuring || self.stage == Stage::Homing
                || self.stage == Stage::Plotting,
            Event::Planned(_) => self.stage == Stage::Planning,
        }
    }

    /// Takes in what happened and says what to do next.
    pub fn handle(&mut self, e: Event) -> (a: Action)
        requires
            accepts(old(self)@, e),
        ensures
            (final(self)@, a) == next(old(self)@, e),
    {
        proof {
            use_type_invariant(&*self);
        }
        let homing = self.homing;
        let total = self.total;
        let acked = self.acked;
        match e {
            Event::Planned(n) => {
                if homing {
                    *self = Session { homing, stage: Stage::Homing, total: n, acked: 0 };
                    Action::Send(Request::Home)
                } else {
                    self.begin_plotting(n)
                }
            },
            Event::Reply(r) => {
                if self.stage == Stage::Configuring {
                    if r == Reply::Config {
                        *self = Session { homing, stage: Stage::Planning, total, acked };
                        Action::Plan
                    } else {
                        *self = Session { homing, stage: Stage::Aborted, total, acked };
                        Action::Abort(Error::UnexpectedResponse)
                    }
                } else if self.stage == Stage::Homing {
                    if r == Reply::Acked {
                        self.begin_plotting(total)
                    } else {
                        *self = Session { homing, stage: Stage::Aborted, total, acked };
                        Action::Abort(Self::failure(r))
                    }
                } else {
                    if r == Reply::Acked {
                        let acked = acked + 1;
                        if acked == total {
                            *self = Session { homing, stage: Stage::Finished, total, acked };
                            Action::Done
                        } else {
                            *self = Session { homing, stage: Stage::Plotting, total, acked };
                            Action::Send(Request::Command(acked))
                        }
                    } else {
                        *self = Session { homing, stage: Stage::Aborted, total, acked };
                        Action::Abort(Self::failure(r))
                    }
                }
            },
        }
    }

    fn failure(r: Reply) -> (e: Error)
        ensures
            e == failure_of(r),
    {
        if r == Reply::Refused {
            Error::DeviceError
        } else {
            Error::UnexpectedResponse
        }
    }

    /// Starts sending `total` planned commands.
    fn begin_plotting(&mut self, total: usize) -> (a: Action)
        ensures
            (final(self)@, a) == begin_plotting(SessionState { total: total as nat, ..old(self)@ }),
    {
        let homing = self.homing;
        if total == 0 {
            *self = Session { homing, stage: Stage::Finished, total, acked: 0 };
            Action::Done
        } else {
            *self = Session { homing, stage: Stage::Plotting, total, acked: 0 };
            Action::Send(Request::Command(0))
        }
    }
}

} // verus!
