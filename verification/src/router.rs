use vstd::prelude::*;
use crate::display::{Display, DisplayView, Pending, Step};
use crate::error::Error;
use crate::protocol::{Command, SocketPayload, SocketPayloadView};
use crate::vcp::{RegisterWrite, VCP_INPUT};

verus! {

/// What the router asks of its caller next.
#[derive(Clone, Copy, Debug, PartialEq, Eq, Structural)]
pub enum Action {
    /// Perform this write on the display at this place in the fleet, then
    /// report how it ended.
    Write { display: usize, write: RegisterWrite },
    /// The request is complete: the next one can be taken.
    Done,
    /// The request failed: the connection that it came on is to be closed,
    /// with whatever else it holds.
    Abort(Error),
}

/// The request that the router is in the middle of: its command, the place
/// `at` of the display whose write has been handed out, and the place `end`
/// before which the request stops.
#[derive(Clone, Copy, Debug, PartialEq, Eq, Structural)]
pub struct Job {
    pub cmd: Command,
    pub at: usize,
    pub end: usize,
}

/// What a command starts on one display.
pub open spec fn command_step(display: DisplayView, cmd: Command) -> (DisplayView, Step) {
    match cmd {
        Command::BrightnessUp => display.increase_luminance(),
        Command::BrightnessDown => display.decrease_luminance(),
        Command::InputSource { id } => display.set_input(id),
    }
}

/// Whether `at` is the place of the first display with this model name.
pub open spec fn is_first_match(displays: Seq<DisplayView>, model: Seq<char>, at: int) -> bool {
    &&& 0 <= at < displays.len()
    &&& displays[at].model == model
    &&& forall|before: int| 0 <= before < at ==> (#[trigger] displays[before]).model != model
}

/// The place of the first display with this model name, if there is one.
pub open spec fn first_match(displays: Seq<DisplayView>, model: Seq<char>) -> Option<int> {
    if exists|at: int| is_first_match(displays, model, at) {
        Some(choose|at: int| is_first_match(displays, model, at))
    } else {
        None
    }
}

/// What a router stands for: the fleet, in the order of discovery, and the
/// request under way.
pub struct RouterView {
    pub displays: Seq<DisplayView>,
    pub job: Option<Job>,
}

/// How far a request got when its writes ended as a given list of outcomes
/// says.
pub struct FleetRun {
    /// The router afterwards.
    pub router: RouterView,
    /// The writes that were handed out, each with the place of its display,
    /// in their order.
    pub writes: Seq<(usize, RegisterWrite)>,
    /// The last answer of the router.
    pub end: Action,
}

impl RouterView {
    /// The fleet fits in a vector and every display is well formed.
    pub open spec fn fleet_wf(self) -> bool {
        &&& self.displays.len() <= usize::MAX
        &&& forall|i: int| 0 <= i < self.displays.len() ==> (#[trigger] self.displays[i]).wf()
    }

    /// A request under way is at a display of the fleet.
    pub open spec fn job_wf(self) -> bool {
        self.job matches Some(job) ==> job.at < job.end <= self.displays.len()
    }

    /// The fleet fits in a vector and every display is well formed. A
    /// request under way is at a display of the fleet, and that display has
    /// a write handed out.
    pub open spec fn wf(self) -> bool {
        &&& self.fleet_wf()
        &&& self.job_wf()
        &&& (self.job matches Some(job) ==> self.displays[job.at as int].pending is Some)
    }

    /// Applies a command to the displays from place `at` up to `end`, one
    /// after the other. It stops at the first display that asks for a
    /// write, and hands that write out.
    pub open spec fn start(self, cmd: Command, at: int, end: int) -> (RouterView, Action)
        decreases end - at,
    {
        if 0 <= at < end <= self.displays.len() {
            let (display, step) = command_step(self.displays[at], cmd);
            let displays = self.displays.update(at, display);
            match step {
                Step::Write(write) => (
                    RouterView {
                        displays,
                        job: Some(Job { cmd, at: at as usize, end: end as usize }),
                    },
                    Action::Write { display: at as usize, write },
                ),
                Step::Done => (RouterView { displays, ..self }).start(cmd, at + 1, end),
                Step::Failed(e) => (RouterView { displays, job: None }, Action::Abort(e)),
            }
        } else {
            (RouterView { job: None, ..self }, Action::Done)
        }
    }

    /// Takes a request in. One with a model name is for the first display
    /// of that model, and fails where there is none. One without is for
    /// every display, in the order of the fleet.
    pub open spec fn request(self, payload: SocketPayloadView) -> (RouterView, Action) {
        match payload.model {
            Some(model) => match first_match(self.displays, model) {
                Some(at) => self.start(payload.cmd, at, at + 1),
                None => (RouterView { job: None, ..self }, Action::Abort(Error::DisplayNotFound)),
            },
            None => self.start(payload.cmd, 0, self.displays.len() as int),
        }
    }

    /// Carries a request on from the answer `action`: each write that is
    /// handed out ends as the next of `outcomes` says, until the request
    /// ends or the outcomes run out.
    pub open spec fn run(self, action: Action, outcomes: Seq<Result<(), Error>>) -> FleetRun
        decreases outcomes.len(),
    {
        match action {
            Action::Write { display, write } => if outcomes.len() > 0 {
                let (next, next_action) = self.written(outcomes[0]);
                let rest = next.run(next_action, outcomes.drop_first());
                FleetRun { writes: seq![(display, write)] + rest.writes, ..rest }
            } else {
                FleetRun { router: self, writes: seq![(display, write)], end: action }
            },
            _ => FleetRun { router: self, writes: Seq::empty(), end: action },
        }
    }

    /// Takes in how the write that was handed out ended. The display that
    /// it was for goes on with its operation. When that is complete the
    /// request goes on with the next display. A failure ends the request.
    pub open spec fn written(self, outcome: Result<(), Error>) -> (RouterView, Action) {
        match self.job {
            Some(job) if job.at < self.displays.len() => {
                let (display, step) = self.displays[job.at as int].written(outcome);
                let displays = self.displays.update(job.at as int, display);
                match step {
                    Step::Write(write) => (
                        RouterView { displays, ..self },
                        Action::Write { display: job.at, write },
                    ),
                    Step::Done => (RouterView { displays, ..self }).start(
                        job.cmd,
                        job.at + 1,
                        job.end as int,
                    ),
                    Step::Failed(e) => (RouterView { displays, job: None }, Action::Abort(e)),
                }
            },
            _ => (self, Action::Done),
        }
    }
}

/// Starts what a command asks for on one display.
pub fn handle_client_cmd(display: &mut Display, cmd: &Command) -> (step: Step)
    ensures
        (final(display)@, step) == command_step(old(display)@, *cmd),
{
    match cmd {
        Command::BrightnessUp => display.increase_luminance(),
        Command::BrightnessDown => display.decrease_luminance(),
        Command::InputSource { id } => display.set_input(*id),
    }
}

/// What a vector of displays stands for.
pub open spec fn fleet_view(displays: Seq<Display>) -> Seq<DisplayView> {
    displays.map_values(|display: Display| display@)
}

/// The fleet of displays and the request that is being carried out on it.
///
/// The router performs no write itself. `request` and `written` each
/// answer with the next thing to do. The caller performs a write that is
/// handed out on the display that it names, and reports the outcome with
/// `written`, until the answer is `Done` or `Abort`.
#[derive(Debug)]
pub struct Router {
    displays: Vec<Display>,
    job: Option<Job>,
}

impl View for Router {
    type V = RouterView;

    closed spec fn view(&self) -> RouterView {
        RouterView { displays: fleet_view(self.displays@), job: self.job }
    }
}

impl Router {
    /// Holds of every router: a request under way is at a display of the
    /// fleet.
    #[verifier::type_invariant]
    pub open spec fn inv(&self) -> bool {
        self@.job_wf()
    }

    /// A router for a fleet, in the order in which the displays were
    /// discovered, with no request under way.
    pub fn new(displays: Vec<Display>) -> (router: Router)
        ensures
            router@ == (RouterView { displays: fleet_view(displays@), job: None }),
    {
        Router { displays, job: None }
    }

    /// How many displays the fleet has.
    pub fn len(&self) -> (n: usize)
        ensures
            n == self@.displays.len(),
    {
        self.displays.len()
    }

    /// The display at a place in the fleet.
    pub fn display(&self, at: usize) -> (r: Option<&Display>)
        ensures
            at < self@.displays.len() ==> r is Some && r->Some_0@ == self@.displays[at as int],
            at >= self@.displays.len() ==> r is None,
    {
        if at < self.displays.len() {
            Some(&self.displays[at])
        } else {
            None
        }
    }

    /// The request under way, if any.
    pub fn job(&self) -> (r: Option<Job>)
        ensures
            r == self@.job,
    {
        self.job
    }

    /// The place of the first display with this model name, if there is
    /// one.
    pub fn find(&self, model: &String) -> (r: Option<usize>)
        ensures
            match r {
                Some(at) => is_first_match(self@.displays, model@, at as int),
                None => forall|i: int|
                    0 <= i < self@.displays.len() ==> (#[trigger] self@.displays[i]).model
                        != model@,
            },
            match first_match(self@.displays, model@) {
                Some(at) => r == Some(at as usize),
                None => r is None,
            },
    {
        let mut at: usize = 0;
        while at < self.displays.len()
            invariant
                at <= self.displays.len(),
                forall|i: int|
                    0 <= i < at ==> (#[trigger] fleet_view(self.displays@)[i]).model != model@,
            decreases self.displays.len() - at,
        {
            if *self.displays[at].model() == *model {
                proof {
                    lemma_first_match_is(self@.displays, model@, at as int);
                }
                return Some(at);
            }
            at += 1;
        }
        proof {
            lemma_first_match_none(self@.displays, model@);
        }
        None
    }

    /// Applies a command to the displays from place `from` up to `end`.
    fn start(&mut self, cmd: Command, from: usize, end: usize) -> (action: Action)
        requires
            from <= end <= old(self)@.displays.len(),
        ensures
            (final(self)@, action) == old(self)@.start(cmd, from as int, end as int),
    {
        let mut at: usize = from;
        while at < end
            invariant
                from <= at <= end <= self@.displays.len(),
                self@.start(cmd, at as int, end as int) == old(self)@.start(
                    cmd,
                    from as int,
                    end as int,
                ),
            decreases end - at,
        {
            proof {
                use_type_invariant(&*self);
            }
            let ghost before = self@;
            let step: Step = handle_client_cmd(&mut self.displays[at], &cmd);
            proof {
                assert(self@.displays =~= before.displays.update(
                    at as int,
                    command_step(before.displays[at as int], cmd).0,
                ));
            }
            match step {
                Step::Write(write) => {
                    self.job = Some(Job { cmd, at, end });
                    return Action::Write { display: at, write };
                },
                Step::Failed(e) => {
                    self.job = None;
                    return Action::Abort(e);
                },
                Step::Done => {
                    at += 1;
                },
            }
        }
        self.job = None;
        Action::Done
    }

    /// Takes a request in and says what to do first.
    ///
    /// A request with a model name goes to the first display of that
    /// model. Where the fleet has none it is answered with
    /// `Abort(DisplayNotFound)`, and no display is touched. A request
    /// without a model name goes to every display, in the order of the
    /// fleet, each one only after the one before it is done.
    pub fn request(&mut self, payload: &SocketPayload) -> (action: Action)
        ensures
            (final(self)@, action) == old(self)@.request(payload@),
            payload@.model matches Some(model) && (forall|i: int|
                0 <= i < old(self)@.displays.len() ==> (#[trigger] old(self)@.displays[i]).model
                    != model) ==> {
                &&& action == Action::Abort(Error::DisplayNotFound)
                &&& final(self)@.displays == old(self)@.displays
            },
    {
        proof {
            if payload@.model is Some {
                let model = payload@.model->Some_0;
                if forall|i: int|
                    0 <= i < self@.displays.len() ==> (#[trigger] self@.displays[i]).model
                        != model {
                    lemma_unknown_model_touches_nothing(self@, model, payload.cmd);
                }
            }
        }
        match &payload.model {
            Some(model) => match self.find(model) {
                Some(at) => {
                    assert(at < self.displays.len());
                    self.start(payload.cmd, at, at + 1)
                },
                None => {
                    self.job = None;
                    Action::Abort(Error::DisplayNotFound)
                },
            },
            None => {
                let end: usize = self.displays.len();
                self.start(payload.cmd, 0, end)
            },
        }
    }

    /// Takes in how the write that was handed out ended, and says what to
    /// do next. With no request under way there is nothing to take in, and
    /// the answer is `Done`.
    pub fn written(&mut self, outcome: Result<(), Error>) -> (action: Action)
        ensures
            (final(self)@, action) == old(self)@.written(outcome),
    {
        proof {
            use_type_invariant(&*self);
        }
        match self.job {
            None => Action::Done,
            Some(job) => {
                let ghost before = self@;
                let step: Step = self.displays[job.at].written(outcome);
                proof {
                    assert(self@.displays =~= before.displays.update(
                        job.at as int,
                        before.displays[job.at as int].written(outcome).0,
                    ));
                }
                match step {
                    Step::Write(write) => Action::Write { display: job.at, write },
                    Step::Done => self.start(job.cmd, job.at + 1, job.end),
                    Step::Failed(e) => {
                        self.job = None;
                        Action::Abort(e)
                    },
                }
            },
        }
    }
}

/// A display of the model with none of that model before it is the first
/// match.
pub proof fn lemma_first_match_is(displays: Seq<DisplayView>, model: Seq<char>, at: int)
    requires
        is_first_match(displays, model, at),
    ensures
        first_match(displays, model) == Some(at),
{
    let chosen = choose|at: int| is_first_match(displays, model, at);
    assert(is_first_match(displays, model, chosen));
    if chosen < at {
        assert(displays[chosen].model != model);
    } else if at < chosen {
        assert(displays[at].model != model);
    }
}

/// A fleet without a display of the model has no first match.
pub proof fn lemma_first_match_none(displays: Seq<DisplayView>, model: Seq<char>)
    requires
        forall|i: int| 0 <= i < displays.len() ==> (#[trigger] displays[i]).model != model,
    ensures
        first_match(displays, model) is None,
{
}

/// A request for a model that no display of the fleet has fails with
/// `DisplayNotFound`. It hands out no write and leaves every display as
/// it is.
pub proof fn lemma_unknown_model_touches_nothing(
    router: RouterView,
    model: Seq<char>,
    cmd: Command,
)
    requires
        forall|i: int|
            0 <= i < router.displays.len() ==> (#[trigger] router.displays[i]).model != model,
    ensures
        router.request(SocketPayloadView { model: Some(model), cmd }) == (
            RouterView { job: None, ..router },
            Action::Abort(Error::DisplayNotFound),
        ),
{
    lemma_first_match_none(router.displays, model);
}

/// Applying a command from place `at` up to `end` keeps the size of the
/// fleet and touches no display outside those places. A write that it
/// hands out is for a display at one of those places, and the request
/// then under way is at that display. With a well-formed fleet the router
/// is well formed afterwards.
pub proof fn lemma_start_stays_in_range(router: RouterView, cmd: Command, at: int, end: int)
    requires
        router.displays.len() <= usize::MAX,
    ensures
        ({
            let (next, action) = router.start(cmd, at, end);
            &&& next.displays.len() == router.displays.len()
            &&& forall|i: int|
                0 <= i < router.displays.len() && !(at <= i < end) ==> #[trigger] next.displays[i]
                    == router.displays[i]
            &&& next.job_wf()
            &&& match action {
                Action::Write { display, .. } => {
                    &&& at <= display < end
                    &&& next.job == Some(Job { cmd, at: display, end: end as usize })
                },
                _ => next.job is None,
            }
            &&& router.fleet_wf() ==> next.wf()
        }),
    decreases end - at,
{
    if 0 <= at < end <= router.displays.len() {
        let (display, step) = command_step(router.displays[at], cmd);
        let displays = router.displays.update(at, display);
        if router.fleet_wf() {
            crate::display::lemma_operations_keep_wf(router.displays[at], 0, 0, Ok(()));
            match cmd {
                Command::InputSource { id } => {
                    crate::display::lemma_operations_keep_wf(router.displays[at], 0, id, Ok(()));
                },
                _ => {},
            }
        }
        match step {
            Step::Done => {
                lemma_start_stays_in_range(RouterView { displays, ..router }, cmd, at + 1, end);
            },
            _ => {},
        }
    }
}

/// Every request and every outcome leaves a well-formed router well
/// formed, with the fleet at its size.
pub proof fn lemma_router_keeps_wf(
    router: RouterView,
    payload: SocketPayloadView,
    outcome: Result<(), Error>,
)
    requires
        router.wf(),
    ensures
        router.request(payload).0.wf(),
        router.request(payload).0.displays.len() == router.displays.len(),
        router.written(outcome).0.wf(),
        router.written(outcome).0.displays.len() == router.displays.len(),
{
    match payload.model {
        Some(model) => match first_match(router.displays, model) {
            Some(at) => {
                lemma_start_stays_in_range(router, payload.cmd, at, at + 1);
            },
            None => {},
        },
        None => {
            lemma_start_stays_in_range(router, payload.cmd, 0, router.displays.len() as int);
        },
    }
    match router.job {
        Some(job) => {
            let (display, step) = router.displays[job.at as int].written(outcome);
            let displays = router.displays.update(job.at as int, display);
            crate::display::lemma_operations_keep_wf(router.displays[job.at as int], 0, 0, outcome);
            lemma_start_stays_in_range(
                RouterView { displays, ..router },
                job.cmd,
                job.at + 1,
                job.end as int,
            );
        },
        None => {},
    }
}

/// A request with a model name touches no display but the first of that
/// model, whatever comes of its writes.
pub proof fn lemma_targeted_request_touches_one(
    router: RouterView,
    model: Seq<char>,
    cmd: Command,
    at: int,
)
    requires
        router.displays.len() <= usize::MAX,
        is_first_match(router.displays, model, at),
    ensures
        ({
            let (next, action) = router.request(SocketPayloadView { model: Some(model), cmd });
            &&& next.displays.len() == router.displays.len()
            &&& next.displays[at] == command_step(router.displays[at], cmd).0
            &&& forall|i: int|
                0 <= i < router.displays.len() && i != at ==> #[trigger] next.displays[i]
                    == router.displays[i]
            &&& action matches Action::Write { display, .. } ==> display == at
            &&& action !is Abort
        }),
{
    lemma_first_match_is(router.displays, model, at);
    lemma_start_stays_in_range(router, cmd, at, at + 1);
    let (display, step) = command_step(router.displays[at], cmd);
    let displays = router.displays.update(at, display);
    lemma_command_starts_without_failure(router.displays[at], cmd);
    assert((RouterView { displays, ..router }).start(cmd, at + 1, at + 1).0.displays == displays);
}

/// No command fails before a write of it has failed.
pub proof fn lemma_command_starts_without_failure(display: DisplayView, cmd: Command)
    ensures
        command_step(display, cmd).1 !is Failed,
{
}

/// A write that fails ends the request at once: the answer is `Abort` with
/// the error of the write, nothing is under way any more, and no display is
/// touched but for the one that the write was for, which gives its
/// operation up.
pub proof fn lemma_failed_write_aborts_request(router: RouterView, e: Error)
    requires
        router.wf(),
        router.job is Some,
    ensures
        ({
            let at = router.job->Some_0.at as int;
            router.written(Err(e)) == (
                RouterView {
                    displays: router.displays.update(
                        at,
                        DisplayView { pending: None, ..router.displays[at] },
                    ),
                    job: None,
                },
                Action::Abort(e),
            )
        }),
{
    let at = router.job->Some_0.at as int;
    crate::display::lemma_failed_write_changes_nothing(router.displays[at], e);
}

/// A selection of input `id` that goes on at place `at` of a fleet of `n`
/// displays and whose writes all succeed.
proof fn lemma_broadcast_input_from(
    router: RouterView,
    id: u16,
    at: int,
    outcomes: Seq<Result<(), Error>>,
)
    requires
        router.displays.len() <= usize::MAX,
        0 <= at <= router.displays.len(),
        outcomes.len() >= router.displays.len() - at,
        forall|i: int| 0 <= i < outcomes.len() ==> (#[trigger] outcomes[i]) is Ok,
    ensures
        ({
            let n = router.displays.len() as int;
            let cmd = Command::InputSource { id };
            let (started, action) = router.start(cmd, at, n);
            let run = started.run(action, outcomes);
            &&& run.end == Action::Done
            &&& run.writes == Seq::new(
                (n - at) as nat,
                |i: int| ((at + i) as usize, RegisterWrite { id: VCP_INPUT, value: id }),
            )
            &&& run.router.job is None
            &&& run.router.displays.len() == n
            &&& forall|i: int|
                0 <= i < at ==> #[trigger] run.router.displays[i] == router.displays[i]
            &&& forall|i: int|
                at <= i < n ==> #[trigger] run.router.displays[i] == (DisplayView {
                    pending: None,
                    ..router.displays[i]
                })
        }),
    decreases router.displays.len() - at,
{
    let n = router.displays.len() as int;
    let cmd = Command::InputSource { id };
    let write = RegisterWrite { id: VCP_INPUT, value: id };
    let (started, action) = router.start(cmd, at, n);
    let run = started.run(action, outcomes);
    let expected = Seq::new((n - at) as nat, |i: int| ((at + i) as usize, write));
    if at == n {
        assert(run.writes =~= expected);
    } else {
        let selecting = DisplayView { pending: Some(Pending::Input), ..router.displays[at] };
        let selected = DisplayView { pending: None, ..router.displays[at] };
        assert(command_step(router.displays[at], cmd) == (selecting, Step::Write(write)));
        assert(started == RouterView {
            displays: router.displays.update(at, selecting),
            job: Some(Job { cmd, at: at as usize, end: n as usize }),
        });
        assert(action == Action::Write { display: at as usize, write });
        assert(outcomes[0] is Ok);
        assert(selecting.written(outcomes[0]) == (selected, Step::Done));
        let next = RouterView { displays: started.displays.update(at, selected), ..started };
        assert(started.written(outcomes[0]) == next.start(cmd, at + 1, n));
        let rest = outcomes.drop_first();
        assert forall|i: int| 0 <= i < rest.len() implies (#[trigger] rest[i]) is Ok by {
            assert(rest[i] == outcomes[i + 1]);
        }
        lemma_broadcast_input_from(next, id, at + 1, rest);
        let (restarted, next_action) = next.start(cmd, at + 1, n);
        let tail = restarted.run(next_action, rest);
        assert(run.writes == seq![(at as usize, write)] + tail.writes);
        assert(run.writes =~= expected);
        assert(run.router == tail.router);
        assert forall|i: int| 0 <= i < at implies #[trigger] run.router.displays[i]
            == router.displays[i] by {
            assert(tail.router.displays[i] == next.displays[i]);
        }
        assert forall|i: int| at <= i < n implies #[trigger] run.router.displays[i] == (
        DisplayView { pending: None, ..router.displays[i] }) by {
            if i == at {
                assert(tail.router.displays[i] == next.displays[i]);
            } else {
                assert(tail.router.displays[i] == DisplayView {
                    pending: None,
                    ..next.displays[i]
                });
            }
        }
    }
}

/// A selection of an input without a model name, all of whose writes
/// succeed, writes the input-select register of every display once, in
/// the order of the fleet, and changes nothing that a display is taken to
/// hold.
pub proof fn lemma_broadcast_input_reaches_all(
    router: RouterView,
    id: u16,
    outcomes: Seq<Result<(), Error>>,
)
    requires
        router.displays.len() <= usize::MAX,
        outcomes.len() >= router.displays.len(),
        forall|i: int| 0 <= i < outcomes.len() ==> (#[trigger] outcomes[i]) is Ok,
    ensures
        ({
            let n = router.displays.len();
            let payload = SocketPayloadView { model: None, cmd: Command::InputSource { id } };
            let (started, action) = router.request(payload);
            let run = started.run(action, outcomes);
            &&& run.end == Action::Done
            &&& run.writes == Seq::new(
                n,
                |i: int| (i as usize, RegisterWrite { id: VCP_INPUT, value: id }),
            )
            &&& run.router.job is None
            &&& run.router.displays.len() == n
            &&& forall|i: int|
                0 <= i < n ==> #[trigger] run.router.displays[i] == (DisplayView {
                    pending: None,
                    ..router.displays[i]
                })
        }),
{
    lemma_broadcast_input_from(router, id, 0, outcomes);
    let n = router.displays.len();
    let write = RegisterWrite { id: VCP_INPUT, value: id };
    assert(Seq::new((n - 0) as nat, |i: int| ((0 + i) as usize, write)) =~= Seq::new(
        n,
        |i: int| (i as usize, write),
    ));
}

} // verus!
