//! What the program does from its start to its end.
//!
//! A [`Run`] says which task is next; the caller performs it and reports what
//! happened.
use crate::config::{hosts_of, nonempty, port_of, server_options, Environment};
use crate::server::MemoryServerOptions;
use crate::text::{
    decimal, decimal_text, join, joined, joined_by, optional_text, texts, NumberFault,
};
use vstd::prelude::*;
use vstd::string::*;

verus! {

/// The argument that asks for the index to be rebuilt.
pub const REINDEX_ARGUMENT: &'static str = "--reindex";

/// Whether the index is to be rebuilt.
pub fn wants_reindex(arguments: &Vec<String>) -> (r: bool)
    ensures
        r == texts(arguments@).contains(REINDEX_ARGUMENT@),
{
    let wanted = REINDEX_ARGUMENT.to_string();
    let mut i: usize = 0;
    while i < arguments.len()
        invariant
            i <= arguments.len(),
            wanted@ == REINDEX_ARGUMENT@,
            forall|k: int| 0 <= k < i ==> #[trigger] texts(arguments@)[k] != REINDEX_ARGUMENT@,
        decreases arguments.len() - i,
    {
        assert(texts(arguments@)[i as int] == arguments@[i as int]@);
        if arguments[i] == wanted {
            return true;
        }
        i += 1;
    }
    false
}

/// Something to do.
#[derive(Debug)]
pub enum Task {
    Print { line: String },
    Warn { line: String },
    BuildService,
    Reindex,
    DetectDrift,
    StartServer { options: MemoryServerOptions },
    AwaitSignal,
    StopServer,
    CloseService,
    Finish,
    Fail { error: String },
}

/// What came of a task.
#[derive(Debug)]
pub enum Event {
    Done,
    Reindexed(usize),
    Drift(Vec<String>),
    Listening(u16),
    Failed(String),
}

/// Where a run is.
enum Stage {
    Announce,
    Build,
    Reindex,
    CloseReindexed { count: usize },
    Report { count: usize },
    BuildServer,
    Drift,
    Warn { drift: Vec<String> },
    Start,
    Listen { port: u16 },
    Await,
    Stop,
    Close,
    Finished,
    Failed { error: String },
}

/// The contents of a [`Task`].
pub enum TaskView {
    Print { line: Seq<char> },
    Warn { line: Seq<char> },
    BuildService,
    Reindex,
    DetectDrift,
    StartServer { port: u16, token: Option<Seq<char>>, allowed_hosts: Seq<Seq<char>> },
    AwaitSignal,
    StopServer,
    CloseService,
    Finish,
    Fail { error: Seq<char> },
}

/// The contents of an [`Event`].
pub enum EventView {
    Done,
    Reindexed(nat),
    Drift(Seq<Seq<char>>),
    Listening(u16),
    Failed(Seq<char>),
}

/// Where a run is.
pub enum StageView {
    Announce,
    Build,
    Reindex,
    CloseReindexed { count: nat },
    Report { count: nat },
    BuildServer,
    Drift,
    Warn { drift: Seq<Seq<char>> },
    Start,
    Listen { port: u16 },
    Await,
    Stop,
    Close,
    Finished,
    Failed { error: Seq<char> },
}

/// The part of the environment that a run looks at, and where it is.
pub struct RunView {
    pub port: Option<Seq<char>>,
    pub token: Option<Seq<char>>,
    pub hosts: Option<Seq<char>>,
    pub stage: StageView,
}

impl View for Task {
    type V = TaskView;

    open spec fn view(&self) -> TaskView {
        match *self {
            Task::Print { line } => TaskView::Print { line: line@ },
            Task::Warn { line } => TaskView::Warn { line: line@ },
            Task::BuildService => TaskView::BuildService,
            Task::Reindex => TaskView::Reindex,
            Task::DetectDrift => TaskView::DetectDrift,
            Task::StartServer { options } => TaskView::StartServer {
                port: options.port,
                token: optional_text(options.token),
                allowed_hosts: texts(options.allowed_hosts@),
            },
            Task::AwaitSignal => TaskView::AwaitSignal,
            Task::StopServer => TaskView::StopServer,
            Task::CloseService => TaskView::CloseService,
            Task::Finish => TaskView::Finish,
            Task::Fail { error } => TaskView::Fail { error: error@ },
        }
    }
}

impl View for Event {
    type V = EventView;

    open spec fn view(&self) -> EventView {
        match *self {
            Event::Done => EventView::Done,
            Event::Reindexed(n) => EventView::Reindexed(n as nat),
            Event::Drift(list) => EventView::Drift(texts(list@)),
            Event::Listening(port) => EventView::Listening(port),
            Event::Failed(e) => EventView::Failed(e@),
        }
    }
}

impl View for Stage {
    type V = StageView;

    closed spec fn view(&self) -> StageView {
        match *self {
            Stage::Announce => StageView::Announce,
            Stage::Build => StageView::Build,
            Stage::Reindex => StageView::Reindex,
            Stage::CloseReindexed { count } => StageView::CloseReindexed { count: count as nat },
            Stage::Report { count } => StageView::Report { count: count as nat },
            Stage::BuildServer => StageView::BuildServer,
            Stage::Drift => StageView::Drift,
            Stage::Warn { drift } => StageView::Warn { drift: texts(drift@) },
            Stage::Start => StageView::Start,
            Stage::Listen { port } => StageView::Listen { port },
            Stage::Await => StageView::Await,
            Stage::Stop => StageView::Stop,
            Stage::Close => StageView::Close,
            Stage::Finished => StageView::Finished,
            Stage::Failed { error } => StageView::Failed { error: error@ },
        }
    }
}

/// The warning that the index holds vectors of other models.
pub open spec fn drift_line(drift: Seq<Seq<char>>) -> Seq<char> {
    "WARNING: qdrant index contains vectors from other embedding models ("@ + joined_by(
        drift,
        ", "@,
    ) + "); current model is different. Run with --reindex to rebuild the index."@
}

/// The line that says how many memories were indexed.
pub open spec fn reindexed_line(count: nat) -> Seq<char> {
    "reindexed "@ + decimal(count) + " memories"@
}

/// The line that says where the server listens.
pub open spec fn listening_line(port: u16, token: Option<Seq<char>>) -> Seq<char> {
    "memory MCP server listening on :"@ + decimal(port as nat) + if nonempty(token) is Some {
        " (bearer auth ON)"@
    } else {
        " (no auth)"@
    }
}

impl RunView {
    /// The task at this stage.
    pub open spec fn task(self) -> TaskView {
        match self.stage {
            StageView::Announce => TaskView::Print { line: "reindexing qdrant from neo4j..."@ },
            StageView::Build => TaskView::BuildService,
            StageView::Reindex => TaskView::Reindex,
            StageView::CloseReindexed { .. } => TaskView::CloseService,
            StageView::Report { count } => TaskView::Print { line: reindexed_line(count) },
            StageView::BuildServer => TaskView::BuildService,
            StageView::Drift => TaskView::DetectDrift,
            StageView::Warn { drift } => TaskView::Warn { line: drift_line(drift) },
            StageView::Start => match port_of(self.port) {
                Ok(n) => TaskView::StartServer {
                    port: n as u16,
                    token: nonempty(self.token),
                    allowed_hosts: hosts_of(self.hosts),
                },
                Err(e) => TaskView::Fail { error: e.words() },
            },
            StageView::Listen { port } => TaskView::Print {
                line: listening_line(port, self.token),
            },
            StageView::Await => TaskView::AwaitSignal,
            StageView::Stop => TaskView::StopServer,
            StageView::Close => TaskView::CloseService,
            StageView::Finished => TaskView::Finish,
            StageView::Failed { error } => TaskView::Fail { error },
        }
    }

    /// Whether an event is one that the task can have.
    pub open spec fn expects(self, event: EventView) -> bool {
        match self.task() {
            TaskView::Finish => false,
            TaskView::Fail { .. } => false,
            TaskView::Reindex => event is Reindexed || event is Failed,
            TaskView::DetectDrift => event is Drift || event is Failed,
            TaskView::StartServer { .. } => event is Listening || event is Failed,
            _ => event is Done || event is Failed,
        }
    }

    /// The stage after an event. A failure ends the run, except that of looking
    /// for drift, which counts as none found.
    pub open spec fn stage_after(self, event: EventView) -> StageView {
        match self.stage {
            StageView::Finished => StageView::Finished,
            StageView::Failed { error } => StageView::Failed { error },
            StageView::Drift => match event {
                EventView::Drift(list) => if list.len() > 0 {
                    StageView::Warn { drift: list }
                } else {
                    StageView::Start
                },
                _ => StageView::Start,
            },
            stage => match event {
                EventView::Failed(error) => StageView::Failed { error },
                EventView::Reindexed(count) => StageView::CloseReindexed { count },
                EventView::Listening(port) => StageView::Listen { port },
                _ => match stage {
                    StageView::Announce => StageView::Build,
                    StageView::Build => StageView::Reindex,
                    StageView::CloseReindexed { count } => StageView::Report { count },
                    StageView::BuildServer => StageView::Drift,
                    StageView::Warn { .. } => StageView::Start,
                    StageView::Listen { .. } => StageView::Await,
                    StageView::Await => StageView::Stop,
                    StageView::Stop => StageView::Close,
                    _ => StageView::Finished,
                },
            },
        }
    }

    /// The run after an event.
    pub open spec fn after(self, event: EventView) -> RunView {
        RunView { stage: self.stage_after(event), ..self }
    }
}

/// A run of the program.
pub struct Run {
    env: Environment,
    stage: Stage,
}

impl View for Run {
    type V = RunView;

    closed spec fn view(&self) -> RunView {
        RunView {
            port: optional_text(self.env.port),
            token: optional_text(self.env.memory_token),
            hosts: optional_text(self.env.allowed_hosts),
            stage: self.stage@,
        }
    }
}

impl Run {
    /// A run with these arguments in this environment: it rebuilds the index
    /// if it is asked to, and serves otherwise.
    pub fn new(arguments: &Vec<String>, env: Environment) -> (r: Self)
        ensures
            r@ == (RunView {
                port: optional_text(env.port),
                token: optional_text(env.memory_token),
                hosts: optional_text(env.allowed_hosts),
                stage: if texts(arguments@).contains(REINDEX_ARGUMENT@) {
                    StageView::Announce
                } else {
                    StageView::BuildServer
                },
            }),
    {
        let stage = if wants_reindex(arguments) {
            Stage::Announce
        } else {
            Stage::BuildServer
        };
        Run { env, stage }
    }

    /// The task that is next.
    pub fn task(&self) -> (r: Task)
        ensures
            r@ == self@.task(),
    {
        match &self.stage {
            Stage::Announce => Task::Print {
                line: "reindexing qdrant from neo4j...".to_string(),
            },
            Stage::Build => Task::BuildService,
            Stage::Reindex => Task::Reindex,
            Stage::CloseReindexed { .. } => Task::CloseService,
            Stage::Report { count } => {
                let number = decimal_text(*count as u64);
                let mut line = joined("reindexed ", number.as_str());
                line.append(" memories");
                Task::Print { line }
            },
            Stage::BuildServer => Task::BuildService,
            Stage::Drift => Task::DetectDrift,
            Stage::Warn { drift } => {
                let names = join(drift, ", ");
                let mut line = joined(
                    "WARNING: qdrant index contains vectors from other embedding models (",
                    names.as_str(),
                );
                line.append(
                    "); current model is different. Run with --reindex to rebuild the index.",
                );
                Task::Warn { line }
            },
            Stage::Start => match server_options(&self.env) {
                Ok(options) => Task::StartServer { options },
                Err(e) => Task::Fail { error: e.message() },
            },
            Stage::Listen { port } => {
                let number = decimal_text(*port as u64);
                let mut line = joined("memory MCP server listening on :", number.as_str());
                let token = crate::config::env_nonempty(&self.env.memory_token);
                if token.is_some() {
                    line.append(" (bearer auth ON)");
                } else {
                    line.append(" (no auth)");
                }
                Task::Print { line }
            },
            Stage::Await => Task::AwaitSignal,
            Stage::Stop => Task::StopServer,
            Stage::Close => Task::CloseService,
            Stage::Finished => Task::Finish,
            Stage::Failed { error } => Task::Fail { error: error.clone() },
        }
    }

    /// Whether an event is one that the next task can have.
    pub fn expects(&self, event: &Event) -> (r: bool)
        ensures
            r == self@.expects(event@),
    {
        match (self.task(), event) {
            (Task::Finish, _) => false,
            (Task::Fail { .. }, _) => false,
            (_, Event::Failed(_)) => true,
            (Task::Reindex, Event::Reindexed(_)) => true,
            (Task::Reindex, _) => false,
            (Task::DetectDrift, Event::Drift(_)) => true,
            (Task::DetectDrift, _) => false,
            (Task::StartServer { .. }, Event::Listening(_)) => true,
            (Task::StartServer { .. }, _) => false,
            (_, Event::Done) => true,
            _ => false,
        }
    }

    /// The run after the event that the next task had.
    pub fn advance(self, event: Event) -> (r: Self)
        requires
            self@.expects(event@),
        ensures
            r@ == self@.after(event@),
    {
        let stage = match (self.stage, event) {
            (Stage::Drift, Event::Drift(list)) => if list.len() > 0 {
                Stage::Warn { drift: list }
            } else {
                Stage::Start
            },
            (Stage::Drift, _) => Stage::Start,
            (_, Event::Failed(error)) => Stage::Failed { error },
            (_, Event::Reindexed(count)) => Stage::CloseReindexed { count },
            (_, Event::Listening(port)) => Stage::Listen { port },
            (Stage::Announce, _) => Stage::Build,
            (Stage::Build, _) => Stage::Reindex,
            (Stage::CloseReindexed { count }, _) => Stage::Report { count },
            (Stage::BuildServer, _) => Stage::Drift,
            (Stage::Warn { .. }, _) => Stage::Start,
            (Stage::Listen { .. }, _) => Stage::Await,
            (Stage::Await, _) => Stage::Stop,
            (Stage::Stop, _) => Stage::Close,
            (_, _) => Stage::Finished,
        };
        Run { env: self.env, stage }
    }
}

// ---- laws ------------------------------------------------------------------

/// How many tasks a run has left at most.
pub open spec fn tasks_left(stage: StageView) -> nat {
    match stage {
        StageView::Announce => 5,
        StageView::Build => 4,
        StageView::Reindex => 3,
        StageView::CloseReindexed { .. } => 2,
        StageView::Report { .. } => 1,
        StageView::BuildServer => 8,
        StageView::Drift => 7,
        StageView::Warn { .. } => 6,
        StageView::Start => 5,
        StageView::Listen { .. } => 4,
        StageView::Await => 3,
        StageView::Stop => 2,
        StageView::Close => 1,
        StageView::Finished => 0,
        StageView::Failed { .. } => 0,
    }
}

/// Whether a stage belongs to rebuilding the index.
pub open spec fn rebuilds(stage: StageView) -> bool {
    stage is Announce || stage is Build || stage is Reindex || stage is CloseReindexed
        || stage is Report
}

/// Every event brings a run nearer to its end.
pub proof fn law_runs_end(run: RunView, event: EventView)
    requires
        run.expects(event),
    ensures
        tasks_left(run.after(event).stage) < tasks_left(run.stage),
{
}

/// A run that rebuilds the index does nothing else: it starts no server.
pub proof fn law_reindexing_does_not_serve(run: RunView, event: EventView)
    requires
        rebuilds(run.stage),
        run.expects(event),
    ensures
        !(run.task() is StartServer),
        rebuilds(run.after(event).stage) || run.after(event).task() is Finish || run.after(
            event,
        ).task() is Fail,
{
}

/// A run that serves does not touch the index.
pub proof fn law_serving_does_not_reindex(run: RunView, event: EventView)
    requires
        !rebuilds(run.stage),
        run.expects(event),
    ensures
        !(run.task() is Reindex),
        !rebuilds(run.after(event).stage),
{
}

/// A failure ends the run with its own words; looking for drift cannot fail it.
pub proof fn law_failure_ends_the_run(run: RunView, error: Seq<char>)
    requires
        run.expects(EventView::Failed(error)),
    ensures
        if run.task() is DetectDrift {
            run.after(EventView::Failed(error)) == run.after(EventView::Drift(Seq::empty()))
        } else {
            run.after(EventView::Failed(error)).task() == (TaskView::Fail { error })
        },
{
}

/// Rebuilding the index: it is announced, the service is built, the memories are
/// indexed, the service is closed, their number is told, and the run is over.
pub proof fn law_reindexing_step_by_step(run: RunView, count: nat)
    requires
        run.stage is Announce,
    ensures
        ({
            let build = run.after(EventView::Done);
            let reindex = build.after(EventView::Done);
            let close = reindex.after(EventView::Reindexed(count));
            let report = close.after(EventView::Done);
            let end = report.after(EventView::Done);
            &&& run.task() == (TaskView::Print { line: "reindexing qdrant from neo4j..."@ })
            &&& build.task() is BuildService
            &&& reindex.task() is Reindex
            &&& close.task() is CloseService
            &&& report.task() == (TaskView::Print {
                line: "reindexed "@ + decimal(count) + " memories"@,
            })
            &&& end.task() is Finish
        }),
{
}

/// Serving: the service is built and looked at for drift, which is warned of if
/// there is any; the server is started with the port, the token and the names
/// that are set, says where it listens, and after the signal it is stopped and
/// the service is closed.
pub proof fn law_serving_step_by_step(run: RunView, drift: Seq<Seq<char>>, port: u16, n: nat)
    requires
        run.stage is BuildServer,
        port_of(run.port) == Ok::<nat, NumberFault>(n),
        n <= u16::MAX,
    ensures
        ({
            let look = run.after(EventView::Done);
            let told = look.after(EventView::Drift(drift));
            let start = if drift.len() > 0 {
                told.after(EventView::Done)
            } else {
                told
            };
            let listen = start.after(EventView::Listening(port));
            let wait = listen.after(EventView::Done);
            let stop = wait.after(EventView::Done);
            let close = stop.after(EventView::Done);
            let end = close.after(EventView::Done);
            &&& run.task() is BuildService
            &&& look.task() is DetectDrift
            &&& drift.len() > 0 ==> told.task() == (TaskView::Warn {
                line: "WARNING: qdrant index contains vectors from other embedding models ("@
                    + joined_by(drift, ", "@)
                    + "); current model is different. Run with --reindex to rebuild the index."@,
            })
            &&& start.task() == (TaskView::StartServer {
                port: n as u16,
                token: nonempty(run.token),
                allowed_hosts: hosts_of(run.hosts),
            })
            &&& nonempty(run.token) is Some ==> listen.task() == (TaskView::Print {
                line: "memory MCP server listening on :"@ + decimal(port as nat)
                    + " (bearer auth ON)"@,
            })
            &&& nonempty(run.token) is None ==> listen.task() == (TaskView::Print {
                line: "memory MCP server listening on :"@ + decimal(port as nat) + " (no auth)"@,
            })
            &&& wait.task() is AwaitSignal
            &&& stop.task() is StopServer
            &&& close.task() is CloseService
            &&& end.task() is Finish
        }),
{
}

/// A port that is no number ends the run before the server is started, with words
/// that say why.
pub proof fn law_wrong_port_ends_the_run(run: RunView, fault: NumberFault)
    requires
        run.stage is Start,
        port_of(run.port) == Err::<nat, NumberFault>(fault),
    ensures
        run.task() == (TaskView::Fail { error: fault.words() }),
{
}

/// What can come of which task; after the last one nothing comes any more.
pub proof fn law_events_belong_to_tasks(run: RunView, event: EventView)
    ensures
        run.expects(event) <==> {
            &&& !(run.task() is Finish) && !(run.task() is Fail)
            &&& {
                ||| event is Failed
                ||| run.task() is Reindex && event is Reindexed
                ||| run.task() is DetectDrift && event is Drift
                ||| run.task() is StartServer && event is Listening
                ||| event is Done && !(run.task() is Reindex) && !(run.task() is DetectDrift)
                    && !(run.task() is StartServer)
            }
        },
{
}

/// No event changes what was set, and what failed stays failed.
pub proof fn law_settings_stay(run: RunView, event: EventView)
    ensures
        run.after(event).port == run.port,
        run.after(event).token == run.token,
        run.after(event).hosts == run.hosts,
        run.stage matches StageView::Failed { error } ==> run.task() == (TaskView::Fail { error })
            && run.after(event).stage == run.stage,
        run.stage is Finished ==> run.task() is Finish && run.after(event).stage is Finished,
{
}

/// The argument that asks for the index to be rebuilt.
pub proof fn law_reindex_argument()
    ensures
        REINDEX_ARGUMENT@ == "--reindex"@,
{
}

/// The contents of tasks and events show every part of them, in order.
pub proof fn law_tasks_show_their_parts(task: Task, event: Event)
    ensures
        task matches Task::Print { line } ==> task@ == (TaskView::Print { line: line@ }),
        task matches Task::Warn { line } ==> task@ == (TaskView::Warn { line: line@ }),
        task is BuildService ==> task@ is BuildService,
        task is Reindex ==> task@ is Reindex,
        task is DetectDrift ==> task@ is DetectDrift,
        task matches Task::StartServer { options } ==> (task@ matches TaskView::StartServer {
            port,
            token,
            allowed_hosts,
        } && port == options.port && (options.token is None ==> token is None) && (
        options.token matches Some(t) ==> token == Some(t@)) && allowed_hosts.len()
            == options.allowed_hosts@.len() && forall|i: int|
            0 <= i < allowed_hosts.len() ==> #[trigger] allowed_hosts[i]
                == options.allowed_hosts@[i]@),
        task is AwaitSignal ==> task@ is AwaitSignal,
        task is StopServer ==> task@ is StopServer,
        task is CloseService ==> task@ is CloseService,
        task is Finish ==> task@ is Finish,
        task matches Task::Fail { error } ==> task@ == (TaskView::Fail { error: error@ }),
        event is Done ==> event@ is Done,
        event matches Event::Reindexed(n) ==> event@ == EventView::Reindexed(n as nat),
        event matches Event::Drift(list) ==> (event@ matches EventView::Drift(v) && v.len()
            == list@.len() && forall|i: int|
            0 <= i < list@.len() ==> #[trigger] v[i] == list@[i]@),
        event matches Event::Listening(port) ==> event@ == EventView::Listening(port),
        event matches Event::Failed(e) ==> event@ == EventView::Failed(e@),
{
}

} // verus!
