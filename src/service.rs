//! The install worker's decisions, as a state machine.
//!
//! The worker owns no I/O: whoever drives it takes jobs off the install
//! queue, reads server records, runs the provisioner and reads its output,
//! and hands each outcome to `InstallService::step` as an event. The step
//! answers with the one action to perform next. At most one job is in
//! flight; a job's failure ends that job only.

use vstd::prelude::*;

use crate::install::{install_args, Client, InstallJob, InvokerError, Server, StorageError};
use crate::steam_apps;

verus! {

/// Where the worker stands.
#[derive(Clone, Copy, Debug, PartialEq, Eq, Structural)]
pub enum Phase {
    /// Waiting for the next job.
    Idle,
    /// A job was taken; the record of the server with this id is being read.
    Resolving(i32),
    /// The provisioner is running for the server with this id.
    Running(i32),
    /// The install queue has closed; no job will come.
    Stopped,
}

/// Why a job failed.
#[derive(Clone, Debug, PartialEq, Eq)]
pub enum JobError {
    /// No server has the job's id.
    NotFound,
    /// The server store failed, with its message.
    Storage(String),
    /// The provisioner could not be started.
    SpawnError,
    /// The provisioner's output could not be captured or read.
    StreamError,
}

/// How a job ended, with the id of its server; this is what gets logged.
#[derive(Clone, Debug, PartialEq, Eq)]
pub enum JobReport {
    Completed(i32),
    Failed(i32, JobError),
}

/// What the driver observed.
pub enum WorkerEvent {
    /// A job came off the install queue.
    JobReceived(InstallJob),
    /// The server store answered the lookup of the current job's server.
    ServerResolved(Result<Server, StorageError>),
    /// The provisioner wrote one line of output.
    OutputLine(String),
    /// The provisioner's run is over: its output is exhausted and the
    /// process has exited, or the run failed. An exit code is not a failure.
    InvokerReturned(Result<(), InvokerError>),
    /// The install queue is closed and empty.
    QueueClosed,
}

/// What the driver must do next.
pub enum WorkerAction {
    /// Read the record of the server with this id.
    FetchServer(i32),
    /// Start the provisioner with these arguments and read its output.
    Launch(Vec<String>),
    /// Hand this line to the broadcast channel before reading the next one.
    Publish(String),
    /// Log how the job ended; then take the next job.
    Report(JobReport),
    /// A job arrived while another was in flight, or after the worker
    /// stopped; it is handed back untouched.
    Refuse(InstallJob),
    /// The event does not concern the worker in its phase.
    Ignore,
    /// End the worker's loop.
    Stop,
}

/// The failure reported for a job whose server record could not be read.
pub open spec fn storage_failure(e: StorageError) -> JobError {
    match e {
        StorageError::NotFound => JobError::NotFound,
        StorageError::Backend(msg) => JobError::Storage(msg),
    }
}

/// The failure reported for a job whose provisioner run failed.
pub open spec fn invoker_failure(e: InvokerError) -> JobError {
    match e {
        InvokerError::SpawnError => JobError::SpawnError,
        InvokerError::StreamError => JobError::StreamError,
    }
}

/// The phase after `e` is handled in phase `p`.
pub open spec fn next_phase(p: Phase, e: WorkerEvent) -> Phase {
    match e {
        WorkerEvent::JobReceived(job) => if p is Idle {
            Phase::Resolving(job.server_id)
        } else {
            p
        },
        WorkerEvent::ServerResolved(res) => match p {
            Phase::Resolving(id) => if res is Ok {
                Phase::Running(id)
            } else {
                Phase::Idle
            },
            _ => p,
        },
        WorkerEvent::OutputLine(_) => p,
        WorkerEvent::InvokerReturned(_) => if p is Running {
            Phase::Idle
        } else {
            p
        },
        WorkerEvent::QueueClosed => if p is Idle {
            Phase::Stopped
        } else {
            p
        },
    }
}

/// `a` is the action owed for `e` in phase `p`, with `base` as the base
/// installation directory.
pub open spec fn action_for(base: Seq<char>, p: Phase, e: WorkerEvent, a: WorkerAction) -> bool {
    match e {
        WorkerEvent::JobReceived(job) => if p is Idle {
            a == WorkerAction::FetchServer(job.server_id)
        } else {
            a == WorkerAction::Refuse(job)
        },
        WorkerEvent::ServerResolved(res) => match p {
            Phase::Resolving(id) => match res {
                Ok(server) => a is Launch && a->Launch_0@.map_values(|s: String| s@) == install_args(
                    base,
                    server,
                ),
                Err(err) => a == WorkerAction::Report(JobReport::Failed(id, storage_failure(err))),
            },
            _ => a is Ignore,
        },
        WorkerEvent::OutputLine(line) => if p is Running {
            a is Publish && a->Publish_0@ == line@
        } else {
            a is Ignore
        },
        WorkerEvent::InvokerReturned(res) => match p {
            Phase::Running(id) => match res {
                Ok(_) => a == WorkerAction::Report(JobReport::Completed(id)),
                Err(err) => a == WorkerAction::Report(JobReport::Failed(id, invoker_failure(err))),
            },
            _ => a is Ignore,
        },
        WorkerEvent::QueueClosed => if p is Idle {
            a is Stop
        } else {
            a is Ignore
        },
    }
}

/// The install worker: the provisioner, the base installation directory,
/// and the phase it is in.
pub struct InstallService {
    client: Client,
    base_dir: String,
    phase: Phase,
}

impl InstallService {
    /// The provisioner's executable path.
    pub closed spec fn program(&self) -> Seq<char> {
        self.client.program()
    }

    /// The base installation directory.
    pub closed spec fn base(&self) -> Seq<char> {
        self.base_dir@
    }

    /// The phase the worker is in.
    pub closed spec fn current(&self) -> Phase {
        self.phase
    }

    /// A worker for the provisioner at `steam_cmd` that installs below
    /// `base_dir`; it starts idle.
    pub fn new(steam_cmd: &str, base_dir: &str) -> (r: InstallService)
        ensures
            r.program() == steam_cmd@,
            r.base() == base_dir@,
            r.current() == Phase::Idle,
    {
        let client = Client::new(steam_cmd);
        InstallService { client, base_dir: String::from_str(base_dir), phase: Phase::Idle }
    }

    pub fn client(&self) -> (r: &Client)
        ensures
            r.program() == self.program(),
    {
        &self.client
    }

    pub fn base_dir(&self) -> (r: &str)
        ensures
            r@ == self.base(),
    {
        self.base_dir.as_str()
    }

    pub fn phase(&self) -> (r: Phase)
        ensures
            r == self.current(),
    {
        self.phase
    }

    /// Handles one event and answers the action to perform next.
    pub fn step(&mut self, event: WorkerEvent) -> (a: WorkerAction)
        ensures
            final(self).current() == next_phase(old(self).current(), event),
            action_for(old(self).base(), old(self).current(), event, a),
            final(self).base() == old(self).base(),
            final(self).program() == old(self).program(),
    {
        match event {
            WorkerEvent::JobReceived(job) => {
                if self.phase == Phase::Idle {
                    self.phase = Phase::Resolving(job.server_id);
                    WorkerAction::FetchServer(job.server_id)
                } else {
                    WorkerAction::Refuse(job)
                }
            },
            WorkerEvent::ServerResolved(res) => match self.phase {
                Phase::Resolving(id) => match res {
                    Ok(server) => {
                        let args = self.client.install_args(self.base_dir.as_str(), &server);
                        self.phase = Phase::Running(id);
                        WorkerAction::Launch(args)
                    },
                    Err(err) => {
                        self.phase = Phase::Idle;
                        let failure = match err {
                            StorageError::NotFound => JobError::NotFound,
                            StorageError::Backend(msg) => JobError::Storage(msg),
                        };
                        WorkerAction::Report(JobReport::Failed(id, failure))
                    },
                },
                _ => WorkerAction::Ignore,
            },
            WorkerEvent::OutputLine(line) => match self.phase {
                Phase::Running(_) => WorkerAction::Publish(line),
                _ => WorkerAction::Ignore,
            },
            WorkerEvent::InvokerReturned(res) => match self.phase {
                Phase::Running(id) => {
                    self.phase = Phase::Idle;
                    match res {
                        Ok(()) => WorkerAction::Report(JobReport::Completed(id)),
                        Err(InvokerError::SpawnError) => WorkerAction::Report(
                            JobReport::Failed(id, JobError::SpawnError),
                        ),
                        Err(InvokerError::StreamError) => WorkerAction::Report(
                            JobReport::Failed(id, JobError::StreamError),
                        ),
                    }
                },
                _ => WorkerAction::Ignore,
            },
            WorkerEvent::QueueClosed => {
                if self.phase == Phase::Idle {
                    self.phase = Phase::Stopped;
                    WorkerAction::Stop
                } else {
                    WorkerAction::Ignore
                }
            },
        }
    }
}

/// The catalog feature's service: the client of the remote catalog.
pub struct SteamAppsService {
    client: steam_apps::Client,
}

impl SteamAppsService {
    pub closed spec fn catalog_url(&self) -> Seq<char> {
        self.client.base_url()
    }

    pub fn new(url: &str) -> (r: SteamAppsService)
        ensures
            r.catalog_url() == url@,
    {
        SteamAppsService { client: steam_apps::Client::new(url) }
    }

    pub fn client(&self) -> (r: &steam_apps::Client)
        ensures
            r.base_url() == self.catalog_url(),
    {
        &self.client
    }
}

/// A job boundary in a run of the worker.
pub enum Mark {
    /// The job for the server with this id was taken.
    Begin(i32),
    /// The job for the server with this id ended and was reported.
    End(i32),
}

pub open spec fn marks_of(a: WorkerAction) -> Seq<Mark> {
    match a {
        WorkerAction::FetchServer(id) => seq![Mark::Begin(id)],
        WorkerAction::Report(JobReport::Completed(id)) => seq![Mark::End(id)],
        WorkerAction::Report(JobReport::Failed(id, _)) => seq![Mark::End(id)],
        _ => Seq::empty(),
    }
}

/// The job boundaries of a run of actions, in order.
pub open spec fn marks(acts: Seq<WorkerAction>) -> Seq<Mark>
    decreases acts.len(),
{
    if acts.len() == 0 {
        Seq::empty()
    } else {
        marks(acts.drop_last()) + marks_of(acts.last())
    }
}

/// Mark `i` of `ms` is where alternation puts it: a beginning at an even
/// position, and at an odd one the end of the job begun just before.
pub open spec fn in_turn(ms: Seq<Mark>, i: int) -> bool {
    if i % 2 == 0 {
        ms[i] is Begin
    } else {
        ms[i] is End && ms[i]->End_0 == ms[i - 1]->Begin_0
    }
}

/// Each job begins, then ends, before the next begins, and each end names
/// the job that began just before it.
pub open spec fn alternating(ms: Seq<Mark>) -> bool {
    forall|i: int| 0 <= i < ms.len() ==> #[trigger] in_turn(ms, i)
}

/// The phase after the events `evs` are handled one by one from phase `p`.
pub open spec fn phase_after(p: Phase, evs: Seq<WorkerEvent>) -> Phase
    decreases evs.len(),
{
    if evs.len() == 0 {
        p
    } else {
        next_phase(phase_after(p, evs.drop_last()), evs.last())
    }
}

/// `acts` are the actions that a worker in phase `p`, installing below
/// `base`, answers to the events `evs`, one for each.
pub open spec fn is_run(base: Seq<char>, p: Phase, evs: Seq<WorkerEvent>, acts: Seq<WorkerAction>) -> bool {
    &&& acts.len() == evs.len()
    &&& forall|i: int|
        0 <= i < evs.len() ==> #[trigger] action_for(base, phase_after(p, evs.take(i)), evs[i], acts[i])
}

/// The ids of the jobs among the events, in the order they arrived.
pub open spec fn received(evs: Seq<WorkerEvent>) -> Seq<i32>
    decreases evs.len(),
{
    if evs.len() == 0 {
        Seq::empty()
    } else {
        received(evs.drop_last()) + match evs.last() {
            WorkerEvent::JobReceived(job) => seq![job.server_id],
            _ => Seq::empty(),
        }
    }
}

/// The ids of the jobs that the actions begin or hand back, in order.
pub open spec fn taken(acts: Seq<WorkerAction>) -> Seq<i32>
    decreases acts.len(),
{
    if acts.len() == 0 {
        Seq::empty()
    } else {
        taken(acts.drop_last()) + match acts.last() {
            WorkerAction::FetchServer(id) => seq![id],
            WorkerAction::Refuse(job) => seq![job.server_id],
            _ => Seq::empty(),
        }
    }
}

proof fn lemma_run_prefix(base: Seq<char>, p: Phase, evs: Seq<WorkerEvent>, acts: Seq<WorkerAction>, k: int)
    requires
        is_run(base, p, evs, acts),
        0 <= k <= evs.len(),
    ensures
        is_run(base, p, evs.take(k), acts.take(k)),
{
    assert forall|i: int| 0 <= i < k implies #[trigger] action_for(
        base,
        phase_after(p, evs.take(k).take(i)),
        evs.take(k)[i],
        acts.take(k)[i],
    ) by {
        assert(evs.take(k).take(i) =~= evs.take(i));
        assert(action_for(base, phase_after(p, evs.take(i)), evs[i], acts[i]));
    }
}

proof fn lemma_run_last(base: Seq<char>, p: Phase, evs: Seq<WorkerEvent>, acts: Seq<WorkerAction>)
    requires
        is_run(base, p, evs, acts),
        evs.len() > 0,
    ensures
        is_run(base, p, evs.drop_last(), acts.drop_last()),
        action_for(base, phase_after(p, evs.drop_last()), evs.last(), acts.last()),
{
    let n = evs.len() - 1;
    lemma_run_prefix(base, p, evs, acts, n);
    assert(evs.take(n) =~= evs.drop_last());
    assert(acts.take(n) =~= acts.drop_last());
    assert(action_for(base, phase_after(p, evs.take(n)), evs[n], acts[n]));
}

proof fn lemma_run_from_idle(base: Seq<char>, evs: Seq<WorkerEvent>, acts: Seq<WorkerAction>)
    requires
        is_run(base, Phase::Idle, evs, acts),
    ensures
        alternating(marks(acts)),
        match phase_after(Phase::Idle, evs) {
            Phase::Idle | Phase::Stopped => marks(acts).len() % 2 == 0,
            Phase::Resolving(k) | Phase::Running(k) => marks(acts).len() % 2 == 1 && marks(acts).last()
                == Mark::Begin(k),
        },
    decreases evs.len(),
{
    if evs.len() > 0 {
        lemma_run_last(base, Phase::Idle, evs, acts);
        lemma_run_from_idle(base, evs.drop_last(), acts.drop_last());
        let before = marks(acts.drop_last());
        let added = marks_of(acts.last());
        assert(marks(acts) == before + added);
        assert(added.len() <= 1);
        if added.len() == 1 {
            let ms = marks(acts);
            let n = before.len() as int;
            let p = phase_after(Phase::Idle, evs.drop_last());
            assert(ms[n] == added[0]);
            match evs.last() {
                WorkerEvent::JobReceived(job) => {
                    assert(p is Idle);
                    assert(added[0] == Mark::Begin(job.server_id));
                },
                WorkerEvent::ServerResolved(res) => {
                    assert(p is Resolving);
                    assert(added[0] == Mark::End(p->Resolving_0));
                },
                WorkerEvent::InvokerReturned(res) => {
                    assert(p is Running);
                    assert(added[0] == Mark::End(p->Running_0));
                },
                _ => {},
            }
            assert((added[0] is Begin && n % 2 == 0) || (added[0] is End && n % 2 == 1 && before[n - 1]
                == Mark::Begin(added[0]->End_0)));
            assert forall|i: int| 0 <= i < ms.len() implies #[trigger] in_turn(ms, i) by {
                if i < n {
                    assert(in_turn(before, i));
                    assert(ms[i] == before[i]);
                    if i % 2 == 1 {
                        assert(ms[i - 1] == before[i - 1]);
                    }
                } else {
                    if n > 0 {
                        assert(ms[n - 1] == before[n - 1]);
                    }
                }
            }
        } else {
            assert(marks(acts) =~= before);
        }
    }
}

/// Installs never overlap. In any run of the worker from idle, each job
/// begins and then ends before the next one begins, and each end names the
/// job that began just before it; every launch of the provisioner falls
/// inside a job that has begun and not yet ended.
pub proof fn lemma_jobs_never_overlap(base: Seq<char>, evs: Seq<WorkerEvent>, acts: Seq<WorkerAction>)
    requires
        is_run(base, Phase::Idle, evs, acts),
    ensures
        alternating(marks(acts)),
        forall|i: int| 0 <= i < acts.len() && #[trigger] acts[i] is Launch ==> marks(acts.take(i)).len() % 2 == 1,
{
    lemma_run_from_idle(base, evs, acts);
    assert forall|i: int| 0 <= i < acts.len() && #[trigger] acts[i] is Launch implies marks(acts.take(i)).len() % 2
        == 1 by {
        lemma_run_prefix(base, Phase::Idle, evs, acts, i);
        lemma_run_from_idle(base, evs.take(i), acts.take(i));
        assert(action_for(base, phase_after(Phase::Idle, evs.take(i)), evs[i], acts[i]));
    }
}

/// No job handed to the worker is lost, duplicated or reordered: each job
/// received is either begun at once or handed back, in the order received.
pub proof fn lemma_jobs_taken_in_order(base: Seq<char>, p: Phase, evs: Seq<WorkerEvent>, acts: Seq<WorkerAction>)
    requires
        is_run(base, p, evs, acts),
    ensures
        taken(acts) == received(evs),
    decreases evs.len(),
{
    if evs.len() > 0 {
        lemma_run_last(base, p, evs, acts);
        lemma_jobs_taken_in_order(base, p, evs.drop_last(), acts.drop_last());
    }
}

/// A failure to start the provisioner ends that job alone: the job is
/// reported failed with its server's id, no line is published for it, and
/// the next job is taken.
pub proof fn lemma_spawn_failure_does_not_stall(
    base: Seq<char>,
    job: InstallJob,
    server: Server,
    next: InstallJob,
    acts: Seq<WorkerAction>,
)
    requires
        is_run(
            base,
            Phase::Idle,
            seq![
                WorkerEvent::JobReceived(job),
                WorkerEvent::ServerResolved(Ok(server)),
                WorkerEvent::InvokerReturned(Err(InvokerError::SpawnError)),
                WorkerEvent::JobReceived(next),
            ],
            acts,
        ),
    ensures
        acts[0] == WorkerAction::FetchServer(job.server_id),
        acts[1] is Launch,
        acts[2] == WorkerAction::Report(JobReport::Failed(job.server_id, JobError::SpawnError)),
        acts[3] == WorkerAction::FetchServer(next.server_id),
        forall|i: int| 0 <= i < acts.len() ==> !(#[trigger] acts[i] is Publish),
{
    let evs = seq![
        WorkerEvent::JobReceived(job),
        WorkerEvent::ServerResolved(Ok(server)),
        WorkerEvent::InvokerReturned(Err(InvokerError::SpawnError)),
        WorkerEvent::JobReceived(next),
    ];
    assert(evs.take(0).len() == 0);
    assert(evs.take(1).drop_last() =~= evs.take(0));
    assert(evs.take(2).drop_last() =~= evs.take(1));
    assert(evs.take(3).drop_last() =~= evs.take(2));
    assert(phase_after(Phase::Idle, evs.take(1)) == Phase::Resolving(job.server_id));
    assert(phase_after(Phase::Idle, evs.take(2)) == Phase::Running(job.server_id));
    assert(phase_after(Phase::Idle, evs.take(3)) == Phase::Idle);
    assert(action_for(base, phase_after(Phase::Idle, evs.take(0)), evs[0], acts[0]));
    assert(action_for(base, phase_after(Phase::Idle, evs.take(1)), evs[1], acts[1]));
    assert(action_for(base, phase_after(Phase::Idle, evs.take(2)), evs[2], acts[2]));
    assert(action_for(base, phase_after(Phase::Idle, evs.take(3)), evs[3], acts[3]));
}

} // verus!
