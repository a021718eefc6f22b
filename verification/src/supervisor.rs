//! The supervisor: one task for each port and one for the metrics, all of them
//! up or the whole process down.

use vstd::prelude::*;
use crate::config::{
    check_setup,
    lemma_first_repeat,
    ports_of,
    setup_of,
    text_view,
    valid_setup,
    Config,
    ConfigError,
};
use crate::port_text::port_of;
use crate::listener::{reaction, Action, Event, Phase};
use crate::registry::Registry;
use crate::task::{Failure, FailureKind, Task};

verus! {

/// The listeners of `ports`, one for each port, in the same order.
pub open spec fn listeners(ports: Seq<u16>) -> Seq<Task> {
    Seq::new(ports.len(), |i: int| Task::Listener(ports[i]))
}

/// The task that stands in the place of the metrics server: the server where a
/// port is configured for it, the idle stand-in where none is.
pub open spec fn metrics_task(metrics_port: Option<u16>) -> Task {
    match metrics_port {
        Some(port) => Task::Metrics(port),
        None => Task::Idle,
    }
}

/// The tasks that a setup runs: the listeners of its ports, then the task in
/// the place of the metrics server.
pub open spec fn plan(ports: Seq<u16>, metrics_port: Option<u16>) -> Seq<Task> {
    listeners(ports).push(metrics_task(metrics_port))
}

/// The tasks that a checked setup runs, or why it runs none.
pub open spec fn plan_of(setup: Result<(Seq<u16>, Option<u16>), ConfigError>) -> Result<
    Seq<Task>,
    ConfigError,
> {
    match setup {
        Ok(checked) => Ok(plan(checked.0, checked.1)),
        Err(fault) => Err(fault),
    }
}

/// How the whole process stands.
#[derive(Clone, Debug, PartialEq, Eq)]
pub enum SupervisionOutcome {
    /// All tasks run. Under normal operation this never changes.
    Running,
    /// The process is down because of this failure, the first that any task
    /// reported.
    Failed(Failure),
}

/// The outcome after a task has ended with `failure`: the first failure brings
/// the process down, and nothing changes that afterwards.
pub open spec fn outcome_after(outcome: SupervisionOutcome, failure: Failure) -> SupervisionOutcome {
    match outcome {
        SupervisionOutcome::Running => SupervisionOutcome::Failed(failure),
        SupervisionOutcome::Failed(first) => SupervisionOutcome::Failed(first),
    }
}

/// The tasks of `planned` that still run under `outcome`: all of them, or none.
pub open spec fn kept_running(planned: Seq<Task>, outcome: SupervisionOutcome) -> Seq<Task> {
    match outcome {
        SupervisionOutcome::Running => planned,
        SupervisionOutcome::Failed(_) => Seq::empty(),
    }
}

/// The supervisor of one process.
#[derive(Debug)]
pub struct Supervisor {
    tasks: Vec<Task>,
    outcome: SupervisionOutcome,
}

impl Supervisor {
    /// The tasks that were planned at startup.
    pub closed spec fn planned(&self) -> Seq<Task> {
        self.tasks@
    }

    /// How the process stands.
    pub closed spec fn verdict(&self) -> SupervisionOutcome {
        self.outcome
    }

    /// The tasks that still run.
    pub open spec fn running(&self) -> Seq<Task> {
        kept_running(self.planned(), self.verdict())
    }

    /// Plans the tasks of `config` and makes the registry that they share. No
    /// port has been seen, and no task has failed.
    pub fn new(config: &Config) -> (started: (Supervisor, Registry))
        ensures
            started.0.planned() == plan(config.listen_ports(), config.metrics()),
            started.0.verdict() == SupervisionOutcome::Running,
            started.1@ =~= Map::empty(),
    {
        let ports = config.ports();
        let n: usize = ports.len();
        let mut tasks: Vec<Task> = Vec::new();
        let mut i: usize = 0;
        while i < n
            invariant
                n == ports@.len(),
                i <= n,
                tasks@ == listeners(ports@.take(i as int)),
            decreases n - i,
        {
            tasks.push(Task::Listener(ports[i]));
            proof {
                assert(tasks@ =~= listeners(ports@.take(i + 1)));
            }
            i = i + 1;
        }
        proof {
            assert(ports@.take(n as int) =~= ports@);
        }
        match config.metrics_port() {
            Some(port) => tasks.push(Task::Metrics(port)),
            None => tasks.push(Task::Idle),
        }
        (Supervisor { tasks, outcome: SupervisionOutcome::Running }, Registry::new())
    }

    /// Reads the configuration from the two texts of the environment and plans
    /// its tasks. Where the configuration is refused there is no supervisor,
    /// and so no task that could open a socket.
    pub fn start(ports_text: Option<&str>, metrics_text: Option<&str>) -> (started: Result<
        (Supervisor, Registry),
        ConfigError,
    >)
        ensures
            started_plan(started) == plan_of(
                setup_of(text_view(ports_text), text_view(metrics_text)),
            ),
            started matches Ok(pair) ==> pair.0.verdict() == SupervisionOutcome::Running
                && pair.1@ =~= Map::empty(),
    {
        match Config::from_text(ports_text, metrics_text) {
            Ok(config) => Ok(Supervisor::new(&config)),
            Err(fault) => Err(fault),
        }
    }

    /// The tasks that were planned at startup.
    pub fn tasks(&self) -> (tasks: &Vec<Task>)
        ensures
            tasks@ == self.planned(),
    {
        &self.tasks
    }

    /// How the process stands.
    pub fn outcome(&self) -> (outcome: &SupervisionOutcome)
        ensures
            *outcome == self.verdict(),
    {
        &self.outcome
    }

    /// Whether all tasks still run.
    pub fn is_running(&self) -> (running: bool)
        ensures
            running == (self.verdict() == SupervisionOutcome::Running),
    {
        match self.outcome {
            SupervisionOutcome::Running => true,
            SupervisionOutcome::Failed(_) => false,
        }
    }

    /// Takes the end of a task. The first one brings the process down with its
    /// failure: all other tasks are abandoned as they are, and the answer is
    /// `true`, which tells the caller to leave with that failure. A later one
    /// changes nothing.
    pub fn task_ended(&mut self, failure: Failure) -> (stop: bool)
        ensures
            final(self).planned() == old(self).planned(),
            final(self).verdict() == outcome_after(old(self).verdict(), failure),
            stop == (old(self).verdict() == SupervisionOutcome::Running),
    {
        if self.is_running() {
            self.outcome = SupervisionOutcome::Failed(failure);
            true
        } else {
            false
        }
    }
}

/// The tasks that a startup has planned, or why it has planned none.
pub open spec fn started_plan(started: Result<(Supervisor, Registry), ConfigError>) -> Result<
    Seq<Task>,
    ConfigError,
> {
    match started {
        Ok(pair) => Ok(pair.0.planned()),
        Err(fault) => Err(fault),
    }
}

/// A valid setup gets every port its listener: the plan holds one listener for
/// each port, each begins by binding its own port, and no two tasks of the
/// plan want the same port.
pub proof fn lemma_every_port_gets_a_listener(ports: Seq<u16>, metrics_port: Option<u16>)
    requires
        valid_setup(ports, metrics_port),
    ensures
        plan(ports, metrics_port).len() == ports.len() + 1,
        forall|i: int|
            0 <= i < ports.len() ==> #[trigger] plan(ports, metrics_port)[i] == Task::Listener(
                ports[i],
            ) && reaction(ports[i], Phase::Unbound, Event::Started) == Action::Bind(ports[i]),
        forall|i: int, j: int|
            0 <= i < j < plan(ports, metrics_port).len() ==> (#[trigger] plan(
                ports,
                metrics_port,
            )[i]).spec_port() != (#[trigger] plan(ports, metrics_port)[j]).spec_port(),
{
    let tasks = plan(ports, metrics_port);
    assert forall|i: int, j: int| 0 <= i < j < tasks.len() implies (#[trigger] tasks[i]).spec_port()
        != (#[trigger] tasks[j]).spec_port() by {
        if j < ports.len() {
            assert(ports[i] != ports[j]);
        } else if metrics_port is Some {
            assert(ports.contains(ports[i]));
        }
    }
}

/// A metrics port that is also a port to listen on is refused at startup,
/// whether it comes as a number or as text: no task is planned, so nothing is
/// ever bound. Where no port is given twice, the fault reported is the
/// collision.
pub proof fn lemma_overlap_is_refused(
    ports: Seq<u16>,
    metrics_port: u16,
    ports_text: Seq<char>,
    metrics_text: Seq<char>,
)
    requires
        ports.contains(metrics_port),
    ensures
        plan_of(check_setup(ports, Some(metrics_port))) is Err,
        ports.no_duplicates() ==> check_setup(ports, Some(metrics_port)) == Err::<
            (Seq<u16>, Option<u16>),
            ConfigError,
        >(ConfigError::MetricsPortCollision(metrics_port)),
        ports_of(ports_text) == Some(ports) && port_of(metrics_text) == Some(metrics_port)
            ==> plan_of(setup_of(Some(ports_text), Some(metrics_text))) is Err,
{
    lemma_first_repeat(ports);
}

/// Without a metrics port nothing serves the metrics: the plan holds no
/// metrics server, only the idle stand-in. The listeners are the same as with
/// any metrics port.
pub proof fn lemma_no_metrics_port_no_server(ports: Seq<u16>, other: u16)
    ensures
        forall|i: int|
            0 <= i < plan(ports, None).len() ==> !(#[trigger] plan(ports, None)[i] is Metrics),
        plan(ports, None).last() == Task::Idle,
        plan(ports, None).drop_last() == listeners(ports),
        plan(ports, None).drop_last() == plan(ports, Some(other)).drop_last(),
{
    assert(plan(ports, None).drop_last() =~= listeners(ports));
    assert(plan(ports, Some(other)).drop_last() =~= listeners(ports));
}

/// A listener whose port cannot be bound brings the whole process down: it
/// ends with a failure that names its port, and whatever tasks were planned
/// and however many of them were up, none is kept running afterwards.
pub proof fn lemma_bind_failure_stops_all(port: u16, detail: String, planned: Seq<Task>)
    ensures
        reaction(port, Phase::Unbound, Event::BindFailed(detail)) == Action::Abort(
            Failure { task: Task::Listener(port), kind: FailureKind::Bind, detail },
        ),
        outcome_after(
            SupervisionOutcome::Running,
            Failure { task: Task::Listener(port), kind: FailureKind::Bind, detail },
        ) == SupervisionOutcome::Failed(
            Failure { task: Task::Listener(port), kind: FailureKind::Bind, detail },
        ),
        kept_running(
            planned,
            outcome_after(
                SupervisionOutcome::Running,
                Failure { task: Task::Listener(port), kind: FailureKind::Bind, detail },
            ),
        ) == Seq::<Task>::empty(),
{
}

} // verus!
