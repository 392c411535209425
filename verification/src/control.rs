//! The command stream and the control-loop state machine.

use crate::spy::ChannelSpy;
use crate::spy::Chatters;
use crate::spy::FetchError;
use crate::viewers::names_of;
use crate::viewers::ViewersDiff;
use vstd::prelude::*;

verus! {

/// One trigger consumed by the control loop: the one-shot startup trigger,
/// a timer tick, or the interrupt.
#[derive(Clone, Copy, PartialEq, Eq, Debug)]
pub enum Command {
    Init,
    Update,
    Exit,
}

/// Whether the loop still consumes commands. `Terminated` is absorbing.
#[derive(Clone, Copy, PartialEq, Eq, Debug)]
pub enum LoopState {
    Running,
    Terminated,
}

/// What the loop must do for one consumed command.
#[derive(Clone, Copy, PartialEq, Eq, Debug)]
pub enum Directive {
    /// Poll the channel and report the diff. On the first, baseline-filling
    /// cycle nothing can have left, so departures are not reported.
    Poll { report_departures: bool },
    /// Emit the termination notice and stop consuming commands.
    Stop,
}

/// The control loop's single step: from the loop's state and the consumed
/// command to the next state and the action owed for that command.
pub fn dispatch(state: LoopState, cmd: Command) -> (r: (LoopState, Directive))
    ensures
        state == LoopState::Terminated ==> r == (LoopState::Terminated, Directive::Stop),
        state == LoopState::Running && cmd == Command::Init ==> r == (
            LoopState::Running,
            (Directive::Poll { report_departures: false }),
        ),
        state == LoopState::Running && cmd == Command::Update ==> r == (
            LoopState::Running,
            (Directive::Poll { report_departures: true }),
        ),
        state == LoopState::Running && cmd == Command::Exit ==> r == (
            LoopState::Terminated,
            Directive::Stop,
        ),
{
    match state {
        LoopState::Terminated => (LoopState::Terminated, Directive::Stop),
        LoopState::Running => match cmd {
            Command::Init => (LoopState::Running, Directive::Poll { report_departures: false }),
            Command::Update => (LoopState::Running, Directive::Poll { report_departures: true }),
            Command::Exit => (LoopState::Terminated, Directive::Stop),
        },
    }
}

/// What kind of membership change one report line announces.
#[derive(Clone, Copy, PartialEq, Eq, Debug)]
pub enum EventKind {
    Arrived,
    Departed,
}

/// One line of the report for a processed poll.
pub struct ReportEvent {
    pub kind: EventKind,
    pub name: String,
}

/// The report owed for one processed poll: every arrival, in the diff's
/// stored order, then — except on the baseline-filling first cycle — every
/// departure.
pub fn events_for(report_departures: bool, diff: &ViewersDiff) -> (r: Vec<ReportEvent>)
    ensures
        r@.len() == diff.new_viewers.name_seq().len() + if report_departures {
            diff.left_viewers.name_seq().len()
        } else {
            0
        },
        forall|i: int|
            0 <= i < diff.new_viewers.name_seq().len() ==> (#[trigger] r@[i]).kind
                == EventKind::Arrived && r@[i].name@ == diff.new_viewers.name_seq()[i],
        forall|i: int|
            diff.new_viewers.name_seq().len() <= i < r@.len() ==> (#[trigger] r@[i]).kind
                == EventKind::Departed && r@[i].name@ == diff.left_viewers.name_seq()[i
                - diff.new_viewers.name_seq().len()],
{
    let mut r: Vec<ReportEvent> = Vec::new();
    let arrivals = diff.new_viewers.as_vec();
    let mut k: usize = 0;
    while k < arrivals.len()
        invariant
            0 <= k <= arrivals@.len(),
            names_of(arrivals@) == diff.new_viewers.name_seq(),
            r@.len() == k,
            forall|i: int|
                0 <= i < k ==> (#[trigger] r@[i]).kind == EventKind::Arrived && r@[i].name@
                    == diff.new_viewers.name_seq()[i],
        decreases arrivals@.len() - k,
    {
        r.push(ReportEvent { kind: EventKind::Arrived, name: arrivals[k].clone() });
        k += 1;
        proof {
            assert(names_of(arrivals@)[k - 1] == arrivals@[k - 1]@);
        }
    }
    if report_departures {
        let ghost base = r@.len();
        let departures = diff.left_viewers.as_vec();
        let mut k: usize = 0;
        while k < departures.len()
            invariant
                0 <= k <= departures@.len(),
                names_of(departures@) == diff.left_viewers.name_seq(),
                base == diff.new_viewers.name_seq().len(),
                r@.len() == base + k,
                forall|i: int|
                    0 <= i < base ==> (#[trigger] r@[i]).kind == EventKind::Arrived && r@[i].name@
                        == diff.new_viewers.name_seq()[i],
                forall|i: int|
                    base <= i < r@.len() ==> (#[trigger] r@[i]).kind == EventKind::Departed
                        && r@[i].name@ == diff.left_viewers.name_seq()[i - base],
            decreases departures@.len() - k,
        {
            r.push(ReportEvent { kind: EventKind::Departed, name: departures[k].clone() });
            k += 1;
            proof {
                assert(names_of(departures@)[k - 1] == departures@[k - 1]@);
            }
        }
    }
    r
}

/// How a session over a queue of commands ended.
#[derive(Clone, Copy, PartialEq, Eq, Debug)]
pub enum SessionEnd {
    /// An Exit command was consumed; the loop stopped cleanly.
    Exited,
    /// The queue ran out without an Exit; a live loop would block for more.
    Drained,
    /// A poll's fetch failed; the loop stopped with the error surfaced.
    Failed,
}

/// The mathematical outcome of consuming a command queue: how many commands
/// are consumed, the baseline left behind, and how the session ends.
pub struct SessionModel {
    pub processed: int,
    pub baseline: Set<Seq<char>>,
    pub end: SessionEnd,
}

/// What consuming the queue must amount to: commands are taken strictly in
/// order; an Exit stops the loop at once; a failed fetch stops it with the
/// error; a successful poll replaces the baseline and the session goes on.
/// The poll for the command at position `i` takes the fetch outcome at
/// position `i`.
pub open spec fn session_spec(
    prev: Set<Seq<char>>,
    cmds: Seq<Command>,
    fetches: Seq<Result<Chatters, FetchError>>,
) -> SessionModel
    decreases cmds.len(),
{
    if cmds.len() == 0 {
        SessionModel { processed: 0, baseline: prev, end: SessionEnd::Drained }
    } else if cmds[0] == Command::Exit {
        SessionModel { processed: 1, baseline: prev, end: SessionEnd::Exited }
    } else {
        match fetches[0] {
            Result::Err(_) => SessionModel {
                processed: 1,
                baseline: prev,
                end: SessionEnd::Failed,
            },
            Result::Ok(ch) => {
                let rest = session_spec(ch@, cmds.drop_first(), fetches.drop_first());
                SessionModel {
                    processed: 1 + rest.processed,
                    baseline: rest.baseline,
                    end: rest.end,
                }
            },
        }
    }
}

/// Commands queued behind the first Exit are never consumed: when every
/// earlier command polls successfully, the session consumes exactly the
/// commands up to and including that Exit and ends cleanly, whatever
/// commands follow.
pub proof fn lemma_exit_stops_consumption(
    prev: Set<Seq<char>>,
    cmds: Seq<Command>,
    fetches: Seq<Result<Chatters, FetchError>>,
    i: int,
)
    requires
        fetches.len() == cmds.len(),
        0 <= i < cmds.len(),
        cmds[i] == Command::Exit,
        forall|j: int| 0 <= j < i ==> cmds[j] != Command::Exit && fetches[j] is Ok,
    ensures
        session_spec(prev, cmds, fetches).processed == i + 1,
        session_spec(prev, cmds, fetches).end == SessionEnd::Exited,
    decreases i,
{
    if i == 0 {
    } else {
        assert(cmds[0] != Command::Exit && fetches[0] is Ok);
        match fetches[0] {
            Result::Ok(ch) => {
                assert forall|j: int| 0 <= j < i - 1 implies cmds.drop_first()[j]
                    != Command::Exit && fetches.drop_first()[j] is Ok by {
                    assert(cmds.drop_first()[j] == cmds[j + 1]);
                    assert(fetches.drop_first()[j] == fetches[j + 1]);
                    assert(cmds[j + 1] != Command::Exit && fetches[j + 1] is Ok);
                }
                assert(cmds.drop_first()[i - 1] == Command::Exit);
                lemma_exit_stops_consumption(ch@, cmds.drop_first(), fetches.drop_first(), i - 1);
            },
            Result::Err(_) => {
                assert(false);
            },
        }
    }
}

/// What one run of the loop over a materialized queue came to.
pub struct SessionOutcome {
    pub processed: usize,
    pub end: SessionEnd,
}

/// The control loop's serialized consumer: takes queued commands strictly
/// in order, one poll per Init or Update with the matching fetch outcome,
/// until an Exit is consumed, a fetch fails, or the queue is drained.
/// Commands behind the stopping point are never run and their fetch
/// outcomes are never consumed.
pub fn run_queue(
    spy: &mut ChannelSpy,
    cmds: &Vec<Command>,
    fetches: Vec<Result<Chatters, FetchError>>,
) -> (r: SessionOutcome)
    requires
        old(spy).wf(),
        fetches@.len() == cmds@.len(),
    ensures
        final(spy).wf(),
        final(spy).channel() == old(spy).channel(),
        ({
            let m = session_spec(old(spy).prev(), cmds@, fetches@);
            r.processed == m.processed && r.end == m.end && final(spy).prev() == m.baseline
        }),
{
    let ghost m = session_spec(old(spy).prev(), cmds@, fetches@);
    proof {
        assert(cmds@.skip(0) =~= cmds@);
        assert(fetches@.skip(0) =~= fetches@);
    }
    let mut rest = fetches;
    let mut i: usize = 0;
    while i < cmds.len()
        invariant
            spy.wf(),
            spy.channel() == old(spy).channel(),
            0 <= i <= cmds@.len(),
            cmds@.len() == fetches@.len(),
            rest@ == fetches@.skip(i as int),
            m == session_spec(old(spy).prev(), cmds@, fetches@),
            ({
                let mr = session_spec(spy.prev(), cmds@.skip(i as int), fetches@.skip(i as int));
                m.processed == i + mr.processed && m.baseline == mr.baseline && m.end == mr.end
            }),
        decreases cmds@.len() - i,
    {
        proof {
            assert(cmds@.skip(i as int)[0] == cmds@[i as int]);
            assert(fetches@.skip(i as int)[0] == fetches@[i as int]);
        }
        let cmd = cmds[i];
        let (_next, directive) = dispatch(LoopState::Running, cmd);
        match directive {
            Directive::Stop => {
                return SessionOutcome { processed: i + 1, end: SessionEnd::Exited };
            },
            Directive::Poll { report_departures: _ } => {
                let f = rest.remove(0);
                proof {
                    assert(f == fetches@[i as int]);
                    assert(rest@ =~= fetches@.skip(i as int + 1));
                }
                match spy.update_viewers(f) {
                    Result::Ok(_d) => {
                        proof {
                            assert(cmds@.skip(i as int).drop_first() =~= cmds@.skip(i as int + 1));
                            assert(fetches@.skip(i as int).drop_first() =~= fetches@.skip(
                                i as int + 1,
                            ));
                        }
                    },
                    Result::Err(_e) => {
                        return SessionOutcome { processed: i + 1, end: SessionEnd::Failed };
                    },
                }
            },
        }
        i += 1;
    }
    SessionOutcome { processed: cmds.len(), end: SessionEnd::Drained }
}

} // verus!
