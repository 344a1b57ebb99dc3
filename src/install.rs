//! Server records, install jobs, the provisioner's argument list and the
//! producing end of the install queue.

use vstd::prelude::*;

use crate::text::{decimal, decimal_string, join_path, join_path_string, join_words, join_words_string};

verus! {

/// A game-server record as the server store holds it.
#[derive(Clone, Debug, PartialEq, Eq)]
pub struct Server {
    pub id: i32,
    pub name: String,
    pub login: String,
    pub install_dir: String,
}

impl Server {
    pub fn new(id: i32, name: &str, login: &str, install_dir: &str) -> (r: Server)
        ensures
            r.id == id,
            r.name@ == name@,
            r.login@ == login@,
            r.install_dir@ == install_dir@,
    {
        Server {
            id,
            name: String::from_str(name),
            login: String::from_str(login),
            install_dir: String::from_str(install_dir),
        }
    }
}

/// One request to install or update a server. It carries only the server's
/// id: the record is read when the worker takes the job, so an update made
/// while the job waits is honoured and a deletion is reported as not found.
#[derive(Clone, Copy, Debug, PartialEq, Eq, Structural)]
pub struct InstallJob {
    pub server_id: i32,
}

impl InstallJob {
    pub fn new(server_id: i32) -> (r: InstallJob)
        ensures
            r.server_id == server_id,
    {
        InstallJob { server_id }
    }
}

/// Why the server store could not hand out a record.
#[derive(Clone, Debug, PartialEq, Eq)]
pub enum StorageError {
    /// No server has the requested id.
    NotFound,
    /// The store itself failed; the message says how.
    Backend(String),
}

/// Why a run of the provisioner ended early.
#[derive(Clone, Copy, Debug, PartialEq, Eq, Structural)]
pub enum InvokerError {
    /// The provisioner could not be started.
    SpawnError,
    /// Its output could not be captured, or reading it failed.
    StreamError,
}

/// Why a job was not accepted by the install queue.
#[derive(Clone, Copy, Debug, PartialEq, Eq, Structural)]
pub enum QueueError {
    /// The consuming end of the queue has shut down.
    QueueClosed,
}

/// A store of server records, reachable by numeric id.
pub trait ServerStorage {
    fn save(&self, server: &Server) -> Result<(), StorageError>;

    fn load(&self, server_id: i32) -> Result<Server, StorageError>;

    fn list(&self) -> Result<Vec<Server>, StorageError>;
}

/// One provisioner command: a keyword such as `+login` and its arguments.
pub struct SteamCommand<'a> {
    pub command: &'a str,
    pub args: &'a [&'a str],
}

/// The text of a command as handed to the provisioner: the keyword, one
/// space, then the arguments separated by single spaces.
pub open spec fn command_text(command: Seq<char>, args: Seq<Seq<char>>) -> Seq<char> {
    command + " "@ + join_words(args)
}

impl<'a> SteamCommand<'a> {
    pub fn new(command: &'a str, args: &'a [&'a str]) -> (r: SteamCommand<'a>)
        ensures
            r.command == command,
            r.args == args,
    {
        SteamCommand { command, args }
    }

    pub fn render(&self) -> (r: String)
        ensures
            r@ == command_text(self.command@, self.args@.map_values(|w: &str| w@)),
    {
        let mut out = String::from_str(self.command);
        out.append(" ");
        let rest = join_words_string(self.args);
        out.append(rest.as_str());
        out
    }
}

/// The argument list of one install run, in order: set the install
/// directory to `base` joined with the server's directory, log in with the
/// server's login, update and validate the application numbered by the
/// server's id, and exit.
pub open spec fn install_args(base: Seq<char>, server: Server) -> Seq<Seq<char>> {
    seq![
        command_text("+force_install_dir"@, seq![join_path(base, server.install_dir@)]),
        command_text("+login"@, seq![server.login@]),
        command_text("+app_update"@, seq![decimal(server.id as int), "validate"@]),
        command_text("+exit"@, Seq::empty()),
    ]
}

/// The provisioner: the path of its executable.
pub struct Client {
    steamd_cmd: String,
}

impl Client {
    /// The provisioner's executable path.
    pub closed spec fn program(&self) -> Seq<char> {
        self.steamd_cmd@
    }

    pub fn new(steamd_cmd: &str) -> (r: Client)
        ensures
            r.program() == steamd_cmd@,
    {
        Client { steamd_cmd: String::from_str(steamd_cmd) }
    }

    pub fn steamd_cmd(&self) -> (r: &str)
        ensures
            r@ == self.program(),
    {
        self.steamd_cmd.as_str()
    }

    /// The arguments that install `server` below `base_dir`, one string per
    /// command, in the order the provisioner must receive them.
    pub fn install_args(&self, base_dir: &str, server: &Server) -> (r: Vec<String>)
        ensures
            r@.map_values(|s: String| s@) == install_args(base_dir@, *server),
    {
        let path = join_path_string(base_dir, server.install_dir.as_str());
        let id_text = decimal_string(server.id);
        let install_dir = [path.as_str()];
        let login = [server.login.as_str()];
        let app_update = [id_text.as_str(), "validate"];
        let none: [&str; 0] = [];
        let commands = [
            SteamCommand::new("+force_install_dir", install_dir.as_slice()),
            SteamCommand::new("+login", login.as_slice()),
            SteamCommand::new("+app_update", app_update.as_slice()),
            SteamCommand::new("+exit", none.as_slice()),
        ];
        let mut out: Vec<String> = Vec::new();
        let mut i: usize = 0;
        while i < 4
            invariant
                i <= 4,
                commands@.len() == 4,
                out@.len() == i,
                forall|j: int|
                    0 <= j < i ==> out@[j]@ == command_text(
                        commands@[j].command@,
                        commands@[j].args@.map_values(|w: &str| w@),
                    ),
            decreases 4 - i,
        {
            out.push(commands[i].render());
            i = i + 1;
        }
        let ghost expected = install_args(base_dir@, *server);
        assert(install_dir@.map_values(|w: &str| w@) =~= seq![join_path(base_dir@, server.install_dir@)]);
        assert(login@.map_values(|w: &str| w@) =~= seq![server.login@]);
        assert(app_update@.map_values(|w: &str| w@) =~= seq![decimal(server.id as int), "validate"@]);
        assert(none@.map_values(|w: &str| w@) =~= Seq::<Seq<char>>::empty());
        assert(out@.map_values(|s: String| s@) =~= expected);
        out
    }
}

/// The producing end of the install queue. The record of accepted jobs and
/// the closed flag describe what this handle has seen.
pub struct InstallQueueTx {
    sender: flume::Sender<InstallJob>,
    closed: bool,
    accepted: Ghost<Seq<InstallJob>>,
}

/// The consuming end of the install queue, held by the worker.
pub struct InstallQueueRx(pub flume::Receiver<InstallJob>);

impl View for InstallQueueTx {
    /// Whether the queue is known to be closed, and the jobs accepted so far.
    type V = (bool, Seq<InstallJob>);

    closed spec fn view(&self) -> (bool, Seq<InstallJob>) {
        (self.closed, self.accepted@)
    }
}

/// One call of `enqueue` from `pre` to `post`: a handle that knows the queue
/// is closed refuses at once and changes nothing; otherwise the job is
/// either accepted and recorded, or refused because the consumer is gone,
/// after which the handle knows the queue is closed.
pub open spec fn enqueue_step(
    pre: (bool, Seq<InstallJob>),
    job: InstallJob,
    r: Result<(), QueueError>,
    post: (bool, Seq<InstallJob>),
) -> bool {
    if pre.0 {
        r == Err::<(), QueueError>(QueueError::QueueClosed) && post == pre
    } else {
        (r is Ok && post == (false, pre.1.push(job))) || (r == Err::<(), QueueError>(
            QueueError::QueueClosed,
        ) && post == (true, pre.1))
    }
}

/// Makes an empty, unbounded install queue and returns its two ends.
pub fn install_queue() -> (r: (InstallQueueTx, InstallQueueRx))
    ensures
        r.0@ == (false, Seq::<InstallJob>::empty()),
{
    let (sender, receiver) = flume::unbounded::<InstallJob>();
    (InstallQueueTx { sender, closed: false, accepted: Ghost(Seq::empty()) }, InstallQueueRx(receiver))
}

impl InstallQueueTx {
    /// Hands `job` to the worker without blocking; answers `QueueClosed` once
    /// the consuming end has shut down, and from then on.
    pub fn enqueue(&mut self, job: InstallJob) -> (r: Result<(), QueueError>)
        ensures
            enqueue_step(old(self)@, job, r, final(self)@),
    {
        if self.closed {
            return Err(QueueError::QueueClosed);
        }
        match self.sender.send(job) {
            Ok(()) => {
                self.accepted = Ghost(self.accepted@.push(job));
                Ok(())
            },
            Err(_) => {
                self.closed = true;
                Err(QueueError::QueueClosed)
            },
        }
    }

    pub fn is_closed(&self) -> (r: bool)
        ensures
            r == self@.0,
    {
        self.closed
    }
}

/// Once an enqueue has answered `QueueClosed`, every later enqueue on the
/// same handle answers `QueueClosed` as well, and no job is accepted after it.
pub proof fn lemma_closed_queue_stays_closed(
    states: Seq<(bool, Seq<InstallJob>)>,
    jobs: Seq<InstallJob>,
    results: Seq<Result<(), QueueError>>,
    k: int,
)
    requires
        states.len() == jobs.len() + 1,
        results.len() == jobs.len(),
        forall|i: int|
            0 <= i < jobs.len() ==> #[trigger] enqueue_step(states[i], jobs[i], results[i], states[i + 1]),
        0 <= k < jobs.len(),
        results[k] == Err::<(), QueueError>(QueueError::QueueClosed),
    ensures
        forall|i: int| k <= i < jobs.len() ==> results[i] == Err::<(), QueueError>(QueueError::QueueClosed),
        states.last() == states[k + 1],
        states.last().1 == states[k].1,
{
    assert(enqueue_step(states[k], jobs[k], results[k], states[k + 1]));
    assert forall|i: int| k + 1 <= i <= jobs.len() implies #[trigger] states[i] == states[k + 1] by {
        lemma_closed_state_persists(states, jobs, results, k + 1, i);
    }
    assert forall|i: int| k <= i < jobs.len() implies results[i] == Err::<(), QueueError>(
        QueueError::QueueClosed,
    ) by {
        if i > k {
            assert(states[i] == states[k + 1]);
            assert(enqueue_step(states[i], jobs[i], results[i], states[i + 1]));
        }
    }
}

proof fn lemma_closed_state_persists(
    states: Seq<(bool, Seq<InstallJob>)>,
    jobs: Seq<InstallJob>,
    results: Seq<Result<(), QueueError>>,
    from: int,
    to: int,
)
    requires
        states.len() == jobs.len() + 1,
        results.len() == jobs.len(),
        forall|i: int|
            0 <= i < jobs.len() ==> #[trigger] enqueue_step(states[i], jobs[i], results[i], states[i + 1]),
        0 <= from <= to <= jobs.len(),
        states[from].0,
    ensures
        states[to] == states[from],
    decreases to - from,
{
    if to > from {
        lemma_closed_state_persists(states, jobs, results, from, to - 1);
        let j = to - 1;
        assert(enqueue_step(states[j], jobs[j], results[j], states[j + 1]));
    }
}

} // verus!
