use steamd::broadcast::Tx;
use steamd::handlers::{SearchTerms, ServiceError};
use steamd::install::{install_queue, InstallJob, InvokerError, QueueError, Server, StorageError};
use steamd::service::{InstallService, JobError, JobReport, Phase, SteamAppsService, WorkerAction, WorkerEvent};
use steamd::steam_apps::{self, App};
use steamd::storage::FileStorage;

fn drain(rx: &flume::Receiver<String>) -> Vec<String> {
    let mut out = Vec::new();
    while let Ok(line) = rx.try_recv() {
        out.push(line);
    }
    out
}

#[test]
fn queue_hands_jobs_over_in_enqueue_order() {
    let (mut tx, rx) = install_queue();
    for id in [5, 1, 9, 1] {
        assert_eq!(tx.enqueue(InstallJob::new(id)), Ok(()));
    }
    let taken: Vec<i32> = (0..4).map(|_| rx.0.recv().unwrap().server_id).collect();
    assert_eq!(taken, vec![5, 1, 9, 1]);
    assert!(!tx.is_closed());
}

#[test]
fn enqueue_after_close_is_refused_every_time() {
    let (mut tx, rx) = install_queue();
    assert_eq!(tx.enqueue(InstallJob::new(1)), Ok(()));
    drop(rx);
    assert_eq!(tx.enqueue(InstallJob::new(2)), Err(QueueError::QueueClosed));
    assert!(tx.is_closed());
    for id in 3..10 {
        assert_eq!(tx.enqueue(InstallJob::new(id)), Err(QueueError::QueueClosed));
    }
}

#[test]
fn early_subscriber_receives_every_line_in_order() {
    let mut hub = Tx::new();
    let rx = hub.subscribe();
    for line in ["Update state (0x3) reconfiguring", "Success! App '896660' fully installed.", ""] {
        hub.publish(String::from(line));
    }
    assert_eq!(
        drain(rx.receiver()),
        vec!["Update state (0x3) reconfiguring", "Success! App '896660' fully installed.", ""]
    );
}

#[test]
fn late_subscriber_gets_no_replay() {
    let mut hub = Tx::new();
    let early = hub.subscribe();
    hub.publish(String::from("job one: line 1"));
    hub.publish(String::from("job one: line 2"));
    let late = hub.subscribe();
    assert!(drain(late.receiver()).is_empty());
    hub.publish(String::from("job two: line 1"));
    assert_eq!(drain(late.receiver()), vec!["job two: line 1"]);
    assert_eq!(drain(early.receiver()), vec!["job one: line 1", "job one: line 2", "job two: line 1"]);
}

#[test]
fn two_subscribers_get_identical_copies() {
    let mut hub = Tx::new();
    let a = hub.subscribe();
    let b = hub.subscribe();
    for i in 0..50 {
        hub.publish(format!("line {}", i));
    }
    let from_a = drain(a.receiver());
    assert_eq!(from_a.len(), 50);
    assert_eq!(from_a, drain(b.receiver()));
}

#[test]
fn lines_without_subscribers_are_discarded() {
    let mut hub = Tx::new();
    hub.publish(String::from("nobody listens"));
    assert_eq!(hub.subscriber_count(), 0);
    let rx = hub.subscribe();
    assert_eq!(hub.subscriber_count(), 1);
    assert!(drain(rx.receiver()).is_empty());
}

#[test]
fn dropped_subscriber_is_removed_and_others_continue() {
    let mut hub = Tx::new();
    let a = hub.subscribe();
    let b = hub.subscribe();
    let c = hub.subscribe();
    drop(b);
    hub.publish(String::from("x"));
    assert_eq!(hub.subscriber_count(), 2);
    hub.publish(String::from("y"));
    assert_eq!(drain(a.receiver()), vec!["x", "y"]);
    assert_eq!(drain(c.receiver()), vec!["x", "y"]);
}

fn valheim() -> Server {
    Server::new(7, "Valheim", "anonymous", "valheim")
}

#[test]
fn worker_runs_a_job_to_completion() {
    let mut worker = InstallService::new("./steamcmd.sh", "/srv/games");
    assert_eq!(worker.phase(), Phase::Idle);
    assert!(matches!(worker.step(WorkerEvent::JobReceived(InstallJob::new(7))), WorkerAction::FetchServer(7)));
    assert_eq!(worker.phase(), Phase::Resolving(7));
    match worker.step(WorkerEvent::ServerResolved(Ok(valheim()))) {
        WorkerAction::Launch(args) => assert_eq!(
            args,
            vec![
                "+force_install_dir /srv/games/valheim",
                "+login anonymous",
                "+app_update 7 validate",
                "+exit "
            ]
        ),
        _ => panic!("expected a launch"),
    }
    assert_eq!(worker.phase(), Phase::Running(7));
    match worker.step(WorkerEvent::OutputLine(String::from("Loading Steam API...OK"))) {
        WorkerAction::Publish(line) => assert_eq!(line, "Loading Steam API...OK"),
        _ => panic!("expected a publication"),
    }
    match worker.step(WorkerEvent::InvokerReturned(Ok(()))) {
        WorkerAction::Report(report) => assert_eq!(report, JobReport::Completed(7)),
        _ => panic!("expected a report"),
    }
    assert_eq!(worker.phase(), Phase::Idle);
}

#[test]
fn worker_reports_a_missing_server() {
    let mut worker = InstallService::new("steamcmd", "/srv");
    worker.step(WorkerEvent::JobReceived(InstallJob::new(42)));
    match worker.step(WorkerEvent::ServerResolved(Err(StorageError::NotFound))) {
        WorkerAction::Report(report) => assert_eq!(report, JobReport::Failed(42, JobError::NotFound)),
        _ => panic!("expected a report"),
    }
    assert_eq!(worker.phase(), Phase::Idle);
}

#[test]
fn worker_reports_a_store_failure_with_its_message() {
    let mut worker = InstallService::new("steamcmd", "/srv");
    worker.step(WorkerEvent::JobReceived(InstallJob::new(4)));
    match worker.step(WorkerEvent::ServerResolved(Err(StorageError::Backend(String::from("database is locked"))))) {
        WorkerAction::Report(report) => {
            assert_eq!(report, JobReport::Failed(4, JobError::Storage(String::from("database is locked"))))
        }
        _ => panic!("expected a report"),
    }
}

#[test]
fn spawn_failure_ends_the_job_and_the_next_one_runs() {
    let mut worker = InstallService::new("/missing/steamcmd", "/srv/games");
    let mut hub = Tx::new();
    let rx = hub.subscribe();
    worker.step(WorkerEvent::JobReceived(InstallJob::new(7)));
    assert!(matches!(worker.step(WorkerEvent::ServerResolved(Ok(valheim()))), WorkerAction::Launch(_)));
    match worker.step(WorkerEvent::InvokerReturned(Err(InvokerError::SpawnError))) {
        WorkerAction::Report(report) => assert_eq!(report, JobReport::Failed(7, JobError::SpawnError)),
        _ => panic!("expected a report"),
    }
    assert!(drain(rx.receiver()).is_empty());
    assert!(matches!(worker.step(WorkerEvent::JobReceived(InstallJob::new(8))), WorkerAction::FetchServer(8)));
    let next = Server::new(8, "Rust", "anonymous", "rust");
    assert!(matches!(worker.step(WorkerEvent::ServerResolved(Ok(next))), WorkerAction::Launch(_)));
    if let WorkerAction::Publish(line) = worker.step(WorkerEvent::OutputLine(String::from("job 8 output"))) {
        hub.publish(line);
    }
    assert_eq!(drain(rx.receiver()), vec!["job 8 output"]);
}

#[test]
fn stream_failure_is_reported() {
    let mut worker = InstallService::new("steamcmd", "/srv");
    worker.step(WorkerEvent::JobReceived(InstallJob::new(1)));
    worker.step(WorkerEvent::ServerResolved(Ok(Server::new(1, "a", "anonymous", "a"))));
    match worker.step(WorkerEvent::InvokerReturned(Err(InvokerError::StreamError))) {
        WorkerAction::Report(report) => assert_eq!(report, JobReport::Failed(1, JobError::StreamError)),
        _ => panic!("expected a report"),
    }
}

#[test]
fn busy_worker_hands_a_second_job_back() {
    let mut worker = InstallService::new("steamcmd", "/srv");
    worker.step(WorkerEvent::JobReceived(InstallJob::new(1)));
    match worker.step(WorkerEvent::JobReceived(InstallJob::new(2))) {
        WorkerAction::Refuse(job) => assert_eq!(job, InstallJob::new(2)),
        _ => panic!("expected a refusal"),
    }
    worker.step(WorkerEvent::ServerResolved(Ok(Server::new(1, "a", "anonymous", "a"))));
    assert!(matches!(worker.step(WorkerEvent::JobReceived(InstallJob::new(3))), WorkerAction::Refuse(_)));
    assert_eq!(worker.phase(), Phase::Running(1));
}

#[test]
fn burst_of_jobs_is_processed_one_at_a_time_in_order() {
    let (mut tx, rx) = install_queue();
    for id in 1..=20 {
        tx.enqueue(InstallJob::new(id)).unwrap();
    }
    drop(tx);
    let mut worker = InstallService::new("steamcmd", "/srv");
    let mut order = Vec::new();
    let mut active = 0;
    loop {
        let event = match rx.0.recv() {
            Ok(job) => WorkerEvent::JobReceived(job),
            Err(_) => WorkerEvent::QueueClosed,
        };
        match worker.step(event) {
            WorkerAction::FetchServer(id) => {
                active += 1;
                assert_eq!(active, 1);
                order.push(id);
                let server = Server::new(id, "s", "anonymous", "s");
                assert!(matches!(worker.step(WorkerEvent::ServerResolved(Ok(server))), WorkerAction::Launch(_)));
                let outcome = if id % 3 == 0 { Err(InvokerError::SpawnError) } else { Ok(()) };
                match worker.step(WorkerEvent::InvokerReturned(outcome)) {
                    WorkerAction::Report(_) => active -= 1,
                    _ => panic!("expected a report"),
                }
            }
            WorkerAction::Stop => break,
            _ => panic!("unexpected action"),
        }
    }
    assert_eq!(order, (1..=20).collect::<Vec<i32>>());
    assert_eq!(worker.phase(), Phase::Stopped);
}

#[test]
fn events_out_of_turn_are_ignored() {
    let mut worker = InstallService::new("steamcmd", "/srv");
    assert!(matches!(worker.step(WorkerEvent::OutputLine(String::from("stray"))), WorkerAction::Ignore));
    assert!(matches!(worker.step(WorkerEvent::InvokerReturned(Ok(()))), WorkerAction::Ignore));
    assert!(matches!(worker.step(WorkerEvent::ServerResolved(Ok(valheim()))), WorkerAction::Ignore));
    assert_eq!(worker.phase(), Phase::Idle);
}

#[test]
fn closed_queue_stops_an_idle_worker() {
    let mut worker = InstallService::new("steamcmd", "/srv");
    assert!(matches!(worker.step(WorkerEvent::QueueClosed), WorkerAction::Stop));
    assert_eq!(worker.phase(), Phase::Stopped);
    assert!(matches!(worker.step(WorkerEvent::JobReceived(InstallJob::new(1))), WorkerAction::Refuse(_)));
}

#[test]
fn service_keeps_its_configuration() {
    let worker = InstallService::new("./steamcmd.sh", "/srv/games");
    assert_eq!(worker.client().steamd_cmd(), "./steamcmd.sh");
    assert_eq!(worker.base_dir(), "/srv/games");
}

#[test]
fn service_errors_carry_messages() {
    assert_eq!(ServiceError::from_queue(QueueError::QueueClosed).message(), "sending on a closed channel");
    assert_eq!(ServiceError::from_storage(StorageError::NotFound).message(), "Record not found");
    assert_eq!(ServiceError::from_storage(StorageError::Backend(String::from("disk full"))).message(), "disk full");
    assert_eq!(ServiceError::new("boom").message(), "boom");
}

#[test]
fn catalog_client_builds_the_list_address() {
    let client = steam_apps::Client::new("https://api.steampowered.com");
    assert_eq!(client.applist_url(), "https://api.steampowered.com/ISteamApps/GetAppList/v2/");
    let service = SteamAppsService::new("http://localhost:1234");
    assert_eq!(service.client().url(), "http://localhost:1234");
}

#[test]
fn small_values_keep_their_fields() {
    let app = App::new(String::from("test-app"), 1);
    assert_eq!(app.name, "test-app");
    assert_eq!(app.id, 1);
    assert_eq!(FileStorage::new("./testdir").dir(), "./testdir");
    assert_eq!(SearchTerms::new("Arma 3").term(), "Arma 3");
    let server = valheim();
    assert_eq!((server.id, server.name.as_str(), server.login.as_str(), server.install_dir.as_str()), (7, "Valheim", "anonymous", "valheim"));
}
