//! What a whole request does to a fleet when every write succeeds.

use vstd::prelude::*;
use crate::display::{lemma_change_completes, DisplayView, Pending, Step};
use crate::error::Error;
use crate::luminance::{step_down, step_up};
use crate::protocol::{Command, SocketPayloadView};
use crate::router::{command_step, Action, FleetRun, Job, RouterView};
use crate::vcp::{RegisterWrite, VCP_INPUT};

verus! {

/// The writes that a command takes on a display, in their order.
pub open spec fn command_writes(display: DisplayView, cmd: Command) -> Seq<RegisterWrite> {
    match cmd {
        Command::BrightnessUp => display.writes_due(step_up(display.luminance as int), 0),
        Command::BrightnessDown => display.writes_due(step_down(display.luminance as int), 0),
        Command::InputSource { id } => seq![RegisterWrite { id: VCP_INPUT, value: id }],
    }
}

/// The display that a command leaves when all its writes have succeeded.
pub open spec fn command_done(display: DisplayView, cmd: Command) -> DisplayView {
    match cmd {
        Command::BrightnessUp => display.settled(step_up(display.luminance as int) as i8, 0),
        Command::BrightnessDown => display.settled(step_down(display.luminance as int) as i8, 0),
        Command::InputSource { .. } => DisplayView { pending: None, ..display },
    }
}

/// Writes, each with the place of the display that they are for.
pub open spec fn at_display(at: usize, writes: Seq<RegisterWrite>) -> Seq<(usize, RegisterWrite)> {
    writes.map_values(|write: RegisterWrite| (at, write))
}

/// The writes that a command takes on the displays from place `at` up to
/// `end`: those of the first display, then those of the next, and so on.
pub open spec fn fleet_writes(displays: Seq<DisplayView>, cmd: Command, at: int, end: int) -> Seq<
    (usize, RegisterWrite),
>
    decreases end - at,
{
    if 0 <= at < end {
        at_display(at as usize, command_writes(displays[at], cmd)) + fleet_writes(
            displays,
            cmd,
            at + 1,
            end,
        )
    } else {
        Seq::empty()
    }
}

/// The fleet with the displays from place `at` up to `end` as a command
/// leaves them.
pub open spec fn fleet_done(displays: Seq<DisplayView>, cmd: Command, at: int, end: int) -> Seq<
    DisplayView,
> {
    Seq::new(
        displays.len(),
        |i: int|
            if at <= i < end {
                command_done(displays[i], cmd)
            } else {
                displays[i]
            },
    )
}

/// All of the outcomes are successes.
pub open spec fn all_ok(outcomes: Seq<Result<(), Error>>) -> bool {
    forall|i: int| 0 <= i < outcomes.len() ==> (#[trigger] outcomes[i]) is Ok
}

/// A command whose writes all succeed runs to its end on a display, with
/// the writes that it takes and no others.
pub proof fn lemma_command_completes(
    display: DisplayView,
    cmd: Command,
    outcomes: Seq<Result<(), Error>>,
)
    requires
        display.wf(),
        outcomes.len() >= 4,
        all_ok(outcomes),
    ensures
        ({
            let (started, step) = command_step(display, cmd);
            let run = started.run(step, outcomes);
            &&& run.end == Step::Done
            &&& run.writes == command_writes(display, cmd)
            &&& run.display == command_done(display, cmd)
            &&& run.writes.len() <= 4
        }),
{
    let (started, step) = command_step(display, cmd);
    let run = started.run(step, outcomes);
    match cmd {
        Command::BrightnessUp => {
            lemma_change_completes(display, step_up(display.luminance as int) as i8, outcomes);
        },
        Command::BrightnessDown => {
            lemma_change_completes(display, step_down(display.luminance as int) as i8, outcomes);
        },
        Command::InputSource { id } => {
            assert(outcomes[0] is Ok);
            let (next, next_step) = started.written(outcomes[0]);
            assert(next_step == Step::Done);
            let rest = next.run(next_step, outcomes.drop_first());
            assert(rest.writes == Seq::<RegisterWrite>::empty());
            assert(run.writes =~= command_writes(display, cmd));
        },
    }
}

/// While a display is in the middle of an operation, the router hands out
/// the writes of that display one by one. Once the operation is complete
/// the request goes on with the next display.
proof fn lemma_router_follows_display(
    router: RouterView,
    job: Job,
    write: RegisterWrite,
    outcomes: Seq<Result<(), Error>>,
)
    requires
        router.job == Some(job),
        job.at < router.displays.len(),
        all_ok(outcomes),
        ({
            let run = router.displays[job.at as int].run(Step::Write(write), outcomes);
            run.end == Step::Done
        }),
    ensures
        ({
            let at = job.at as int;
            let run = router.displays[at].run(Step::Write(write), outcomes);
            let used = run.writes.len() as int;
            let behind = RouterView { displays: router.displays.update(at, run.display), ..router };
            let (next, action) = behind.start(job.cmd, at + 1, job.end as int);
            let rest = next.run(action, outcomes.skip(used));
            &&& used <= outcomes.len()
            &&& router.run(Action::Write { display: job.at, write }, outcomes) == (FleetRun {
                writes: at_display(job.at, run.writes) + rest.writes,
                ..rest
            })
        }),
    decreases outcomes.len(),
{
    let at = job.at as int;
    let display = router.displays[at];
    let run = display.run(Step::Write(write), outcomes);
    let used = run.writes.len() as int;
    let behind = RouterView { displays: router.displays.update(at, run.display), ..router };
    let (next, action) = behind.start(job.cmd, at + 1, job.end as int);
    let rest = next.run(action, outcomes.skip(used));
    let whole = router.run(Action::Write { display: job.at, write }, outcomes);
    // With no outcome left the display would still be waiting.
    assert(outcomes.len() > 0);
    let (stepped, step) = display.written(outcomes[0]);
    let tail = outcomes.drop_first();
    let display_tail = stepped.run(step, tail);
    assert(run.writes == seq![write] + display_tail.writes);
    assert(run.display == display_tail.display);
    assert(tail =~= outcomes.skip(1));
    let moved = RouterView { displays: router.displays.update(at, stepped), ..router };
    match step {
        Step::Write(next_write) => {
            assert(router.written(outcomes[0]) == (
                moved,
                Action::Write { display: job.at, write: next_write },
            ));
            assert(all_ok(tail)) by {
                assert forall|i: int| 0 <= i < tail.len() implies (#[trigger] tail[i]) is Ok by {
                    assert(tail[i] == outcomes[i + 1]);
                }
            }
            lemma_router_follows_display(moved, job, next_write, tail);
            let used_tail = display_tail.writes.len() as int;
            assert(moved.displays.update(at, display_tail.display) =~= router.displays.update(
                at,
                run.display,
            ));
            assert(tail.skip(used_tail) =~= outcomes.skip(used));
            assert(at_display(job.at, run.writes) =~= seq![(job.at, write)] + at_display(
                job.at,
                display_tail.writes,
            ));
            assert(whole.writes =~= at_display(job.at, run.writes) + rest.writes);
        },
        Step::Done => {
            assert(display_tail.writes == Seq::<RegisterWrite>::empty());
            assert(run.writes =~= seq![write]);
            assert(router.written(outcomes[0]) == moved.start(job.cmd, at + 1, job.end as int));
            assert(moved == behind);
            assert(at_display(job.at, run.writes) =~= seq![(job.at, write)]);
            assert(outcomes.skip(1) =~= outcomes.skip(used));
        },
        Step::Failed(e) => {
            assert(display_tail.end == Step::Failed(e));
        },
    }
}

/// A command that goes on at place `at` of the fleet and whose writes all
/// succeed.
proof fn lemma_request_completes_from(
    router: RouterView,
    cmd: Command,
    at: int,
    end: int,
    outcomes: Seq<Result<(), Error>>,
)
    requires
        router.fleet_wf(),
        0 <= at <= end <= router.displays.len(),
        outcomes.len() >= 4 * (end - at),
        all_ok(outcomes),
    ensures
        ({
            let (started, action) = router.start(cmd, at, end);
            let run = started.run(action, outcomes);
            &&& run.end == Action::Done
            &&& run.router.job is None
            &&& run.router.displays == fleet_done(router.displays, cmd, at, end)
            &&& run.writes == fleet_writes(router.displays, cmd, at, end)
        }),
    decreases end - at,
{
    let (started, action) = router.start(cmd, at, end);
    let run = started.run(action, outcomes);
    if at == end {
        assert(run.router.displays =~= fleet_done(router.displays, cmd, at, end));
    } else {
        let display = router.displays[at];
        let (begun, step) = command_step(display, cmd);
        lemma_command_completes(display, cmd, outcomes);
        let display_run = begun.run(step, outcomes);
        let used = display_run.writes.len() as int;
        let rest = outcomes.skip(used);
        assert(all_ok(rest)) by {
            assert forall|i: int| 0 <= i < rest.len() implies (#[trigger] rest[i]) is Ok by {
                assert(rest[i] == outcomes[i + used]);
            }
        }
        let behind = RouterView {
            displays: router.displays.update(at, command_done(display, cmd)),
            ..router
        };
        match step {
            Step::Write(write) => {
                let job = Job { cmd, at: at as usize, end: end as usize };
                let waiting = RouterView {
                    displays: router.displays.update(at, begun),
                    job: Some(job),
                };
                assert(started == waiting);
                assert(action == Action::Write { display: at as usize, write });
                lemma_router_follows_display(waiting, job, write, outcomes);
                let moved = RouterView {
                    displays: waiting.displays.update(at, display_run.display),
                    ..waiting
                };
                assert(moved.displays =~= behind.displays);
                lemma_start_ignores_job(moved, behind, cmd, at + 1, end);
            },
            Step::Done => {
                assert(display_run.writes == Seq::<RegisterWrite>::empty());
                assert(begun == command_done(display, cmd));
                assert(rest =~= outcomes);
            },
            Step::Failed(_) => {},
        }
        assert(behind.fleet_wf()) by {
            crate::display::lemma_operations_keep_wf(display, 0, 0, Ok(()));
            assert forall|i: int| 0 <= i < behind.displays.len() implies (
            #[trigger] behind.displays[i]).wf() by {
                if i == at {
                    lemma_command_done_wf(display, cmd);
                } else {
                    assert(behind.displays[i] == router.displays[i]);
                }
            }
        }
        lemma_request_completes_from(behind, cmd, at + 1, end, rest);
        let (restarted, next_action) = behind.start(cmd, at + 1, end);
        let tail = restarted.run(next_action, rest);
        assert(run.router == tail.router);
        assert(run.end == tail.end);
        assert(run.writes == at_display(at as usize, display_run.writes) + tail.writes);
        assert(fleet_done(behind.displays, cmd, at + 1, end) =~= fleet_done(
            router.displays,
            cmd,
            at,
            end,
        ));
        lemma_fleet_writes_frame(router.displays, behind.displays, cmd, at + 1, end);
    }
}

/// The request under way has no part in how a command starts.
proof fn lemma_start_ignores_job(
    one: RouterView,
    other: RouterView,
    cmd: Command,
    at: int,
    end: int,
)
    requires
        one.displays == other.displays,
    ensures
        one.start(cmd, at, end) == other.start(cmd, at, end),
    decreases end - at,
{
    if 0 <= at < end <= one.displays.len() {
        let (display, step) = command_step(one.displays[at], cmd);
        let displays = one.displays.update(at, display);
        match step {
            Step::Done => {
                lemma_start_ignores_job(
                    RouterView { displays, ..one },
                    RouterView { displays, ..other },
                    cmd,
                    at + 1,
                    end,
                );
            },
            _ => {},
        }
    }
}

/// The writes that a command takes from place `at` on depend on the
/// displays from that place on only.
proof fn lemma_fleet_writes_frame(
    one: Seq<DisplayView>,
    other: Seq<DisplayView>,
    cmd: Command,
    at: int,
    end: int,
)
    requires
        0 <= at,
        forall|i: int| at <= i < end ==> one[i] == other[i],
    ensures
        fleet_writes(one, cmd, at, end) == fleet_writes(other, cmd, at, end),
    decreases end - at,
{
    if at < end {
        lemma_fleet_writes_frame(one, other, cmd, at + 1, end);
    }
}

/// The display that a completed command leaves is well formed.
proof fn lemma_command_done_wf(display: DisplayView, cmd: Command)
    requires
        display.wf(),
    ensures
        command_done(display, cmd).wf(),
{
}

/// A request without a model name whose writes all succeed runs to its
/// end: every display of the fleet is left as the command leaves it, and
/// the writes that were handed out are those that the command takes on the
/// first display, then those on the second, and so on in the order of the
/// fleet.
pub proof fn lemma_broadcast_completes(
    router: RouterView,
    cmd: Command,
    outcomes: Seq<Result<(), Error>>,
)
    requires
        router.fleet_wf(),
        outcomes.len() >= 4 * router.displays.len(),
        all_ok(outcomes),
    ensures
        ({
            let n = router.displays.len() as int;
            let (started, action) = router.request(SocketPayloadView { model: None, cmd });
            let run = started.run(action, outcomes);
            &&& run.end == Action::Done
            &&& run.router.job is None
            &&& run.router.displays == fleet_done(router.displays, cmd, 0, n)
            &&& run.writes == fleet_writes(router.displays, cmd, 0, n)
        }),
{
    lemma_request_completes_from(router, cmd, 0, router.displays.len() as int, outcomes);
}

/// A request for a model whose writes all succeed runs to its end: the
/// first display of that model is left as the command leaves it, the writes
/// that were handed out are those that the command takes on it, and every
/// other display is as it was.
pub proof fn lemma_targeted_request_completes(
    router: RouterView,
    model: Seq<char>,
    cmd: Command,
    at: int,
    outcomes: Seq<Result<(), Error>>,
)
    requires
        router.fleet_wf(),
        crate::router::is_first_match(router.displays, model, at),
        outcomes.len() >= 4,
        all_ok(outcomes),
    ensures
        ({
            let (started, action) = router.request(SocketPayloadView { model: Some(model), cmd });
            let run = started.run(action, outcomes);
            &&& run.end == Action::Done
            &&& run.router.job is None
            &&& run.router.displays == router.displays.update(
                at,
                command_done(router.displays[at], cmd),
            )
            &&& run.writes == at_display(at as usize, command_writes(router.displays[at], cmd))
        }),
{
    crate::router::lemma_first_match_is(router.displays, model, at);
    lemma_request_completes_from(router, cmd, at, at + 1, outcomes);
    assert(fleet_done(router.displays, cmd, at, at + 1) =~= router.displays.update(
        at,
        command_done(router.displays[at], cmd),
    ));
    assert(fleet_writes(router.displays, cmd, at + 1, at + 1) == Seq::<
        (usize, RegisterWrite),
    >::empty());
    assert(fleet_writes(router.displays, cmd, at, at + 1) =~= at_display(
        at as usize,
        command_writes(router.displays[at], cmd),
    ));
}

} // verus!
