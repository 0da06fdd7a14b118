use download_manager::downloader::entry::{EntryId, Response};
use download_manager::downloader::manager::{AppState, Command, Progress};
use download_manager::downloader::worker::WorkerId;

fn state_with_one(par: usize) -> (AppState, usize) {
    let mut s = AppState::new();
    let id = match s.enqueue("http://h/f".to_string(), "f".to_string(), par) {
        Some(Command::Enqueue { id, url, name }) => {
            assert_eq!(url, "http://h/f");
            assert_eq!(name, "f");
            id
        }
        None => panic!("enqueue refused"),
    };
    (s, id)
}

fn wid(e: usize, i: usize) -> WorkerId {
    WorkerId { entry_id: e, worker_index: i }
}

#[test]
fn ids_are_handed_out_in_order() {
    let mut s = AppState::new();
    assert_eq!(s.next_id(), Some(0));
    assert_eq!(s.next_id(), Some(1));
    s.last_id = usize::MAX;
    assert_eq!(s.next_id(), None);
}

#[test]
fn enqueue_adds_download() {
    let (s, id) = state_with_one(3);
    assert_eq!(id, 0);
    assert_eq!(s.downloads.len(), 1);
    assert_eq!(s.downloads[&0].progress.len(), 3);
    assert!(!s.downloads[&0].ready);
}

#[test]
fn reports_update_table() {
    let (mut s, id) = state_with_one(4);
    assert!(s.apply(Response::Sized { id: EntryId { entry_id: id }, segments: 2 }).is_none());
    assert_eq!(s.downloads[&0].progress.len(), 2);
    s.apply(Response::MadeProgress { id: wid(id, 0), received: 5, length: 10 });
    assert_eq!(s.downloads[&0].progress[0], Progress { received: 5, length: 10, failed: false });
    s.apply(Response::Succeed { id: wid(id, 0) });
    assert_eq!(s.downloads[&0].progress[0], Progress { received: 10, length: 10, failed: false });
    let note = s.apply(Response::Failed { id: wid(id, 1), reason: "timeout".to_string() });
    assert_eq!(note, Some("timeout".to_string()));
    assert!(s.downloads[&0].progress[1].failed);
    s.apply(Response::SucceedGlobal { id: EntryId { entry_id: id } });
    assert!(s.downloads[&0].ready);
}

#[test]
fn succeed_without_length_shows_full() {
    let (mut s, id) = state_with_one(1);
    s.apply(Response::Succeed { id: wid(id, 0) });
    assert_eq!(s.downloads[&0].progress[0], Progress { received: 1, length: 1, failed: false });
}

#[test]
fn global_failure_removes_download() {
    let (mut s, id) = state_with_one(2);
    let note = s.apply(Response::FailedGlobal { id: EntryId { entry_id: id }, reason: "No Content-Length header".to_string() });
    assert_eq!(note, Some("No Content-Length header".to_string()));
    assert!(s.downloads.is_empty());
}

#[test]
fn unknown_download_is_ignored() {
    let (mut s, _) = state_with_one(2);
    assert!(s.apply(Response::Failed { id: wid(42, 0), reason: "x".to_string() }).is_none());
    assert!(s.apply(Response::MadeProgress { id: wid(0, 7), received: 1, length: 2 }).is_none());
    assert_eq!(s.downloads[&0].progress, vec![Progress { received: 0, length: 0, failed: false }; 2]);
}

use download_manager::downloader::manager::{Action, Manager};
use download_manager::downloader::Command as UserCommand;
use download_manager::downloader::worker;

fn enqueue(m: &mut Manager, url: &str) -> Action {
    m.command(UserCommand::Enqueue { url: url.to_string(), name: "out.bin".to_string() }, 2)
}

#[test]
fn manager_enqueue_asks_for_probe() {
    let mut m = Manager::new();
    match enqueue(&mut m, "http://example.com/out.bin") {
        Action::Probe { id, url } => {
            assert_eq!(id, 0);
            assert_eq!(url, "http://example.com/out.bin");
        }
        _ => panic!("no probe"),
    }
    assert_eq!(m.entries.len(), 1);
    assert_eq!(m.state.downloads.len(), 1);
    assert!(matches!(enqueue(&mut m, "http://example.com/b"), Action::Probe { id: 1, .. }));
}

#[test]
fn manager_drops_entry_with_bad_url() {
    let mut m = Manager::new();
    assert!(matches!(enqueue(&mut m, "::nonsense::"), Action::Notify { .. }));
    assert!(m.entries.is_empty());
    assert!(m.state.downloads.is_empty());
}

#[test]
fn manager_ignores_unknown_ids() {
    let mut m = Manager::new();
    enqueue(&mut m, "http://example.com/a");
    assert!(matches!(m.command(UserCommand::Restart { id: 9 }, 2), Action::Nothing));
    assert!(matches!(m.command(UserCommand::Delete { id: 9 }, 2), Action::Nothing));
    assert_eq!(m.entries.len(), 1);
}

#[test]
fn manager_restart_and_delete_reach_entry() {
    let mut m = Manager::new();
    enqueue(&mut m, "http://example.com/a");
    let e = &mut m.entries[0];
    assert!(e.on_size(Some(100), 2).is_ok());
    e.on_worker(worker::Response::Failed {
        id: WorkerId { entry_id: 0, worker_index: 1 },
        reason: "reset".to_string(),
    });
    e.on_worker(worker::Response::Succeed {
        id: WorkerId { entry_id: 0, worker_index: 0 },
        filepath: "w0".to_string(),
    });
    match m.command(UserCommand::Restart { id: 0 }, 2) {
        Action::Spawn { tasks } => {
            assert_eq!(tasks.len(), 1);
            assert_eq!(tasks[0].id, WorkerId { entry_id: 0, worker_index: 1 });
            assert_eq!(tasks[0].range, (50, 99));
        }
        _ => panic!("no restart"),
    }
    match m.command(UserCommand::Delete { id: 0 }, 2) {
        Action::Cleanup { plan } => {
            assert_eq!(plan.cancel, vec![WorkerId { entry_id: 0, worker_index: 1 }]);
            assert_eq!(plan.remove, vec!["w0".to_string()]);
        }
        _ => panic!("no cleanup"),
    }
    assert!(m.entries.is_empty());
    assert!(m.state.downloads.is_empty());
}

#[test]
fn manager_routes_worker_reports() {
    let mut m = Manager::new();
    enqueue(&mut m, "http://example.com/a");
    enqueue(&mut m, "http://example.com/b");
    let r = m.entries[1].on_size(Some(10), 2);
    assert!(r.is_ok());
    m.state.apply(Response::Sized { id: EntryId { entry_id: 1 }, segments: 2 });
    let note = m.on_report(worker::Response::MadeProgress { id: wid(1, 0), received: 3, length: 5 });
    assert!(note.is_none());
    assert_eq!(m.state.downloads[&1].progress[0], Progress { received: 3, length: 5, failed: false });
    let note = m.on_report(worker::Response::Failed { id: wid(1, 1), reason: "gone".to_string() });
    assert_eq!(note, Some("gone".to_string()));
    assert!(m.state.downloads[&1].progress[1].failed);
    assert!(m.on_report(worker::Response::Failed { id: wid(7, 0), reason: "x".to_string() }).is_none());
    assert!(m.on_report(worker::Response::Succeed { id: wid(0, 0), filepath: "p".to_string() }).is_none());
    m.on_report(worker::Response::Succeed { id: wid(1, 0), filepath: "p0".to_string() });
    assert_eq!(m.state.downloads[&1].progress[0], Progress { received: 5, length: 5, failed: false });
}

#[test]
fn enqueue_advances_ids() {
    let mut s = AppState::new();
    for k in 0..3usize {
        match s.enqueue(format!("http://h/{k}"), format!("f{k}"), 2) {
            Some(Command::Enqueue { id, .. }) => assert_eq!(id, k),
            None => panic!("enqueue refused"),
        }
        assert_eq!(s.last_id, k + 1);
    }
    let mut ids: Vec<usize> = s.downloads.keys().copied().collect();
    ids.sort();
    assert_eq!(ids, vec![0, 1, 2]);
    assert!(s.downloads.iter().all(|(k, d)| *k == d.id));
    s.apply(Response::FailedGlobal { id: EntryId { entry_id: 1 }, reason: "x".to_string() });
    assert!(matches!(s.enqueue("u".to_string(), "n".to_string(), 1), Some(Command::Enqueue { id: 3, .. })));
}

#[test]
fn enqueue_refused_when_ids_run_out() {
    let mut s = AppState::new();
    s.last_id = usize::MAX;
    assert!(s.enqueue("u".to_string(), "n".to_string(), 1).is_none());
    assert!(s.downloads.is_empty());
    assert_eq!(s.last_id, usize::MAX);
}

#[test]
fn manager_enqueue_names_entry_and_row() {
    let mut m = Manager::new();
    assert_eq!(m.state.last_id, 0);
    enqueue(&mut m, "http://example.com/a");
    assert_eq!(m.state.last_id, 1);
    assert_eq!(m.entries[0].name, "out.bin");
    assert_eq!(m.state.downloads[&0].name, "out.bin");
    assert_eq!(m.state.downloads[&0].progress.len(), 2);
    enqueue(&mut m, "bad url");
    assert_eq!(m.state.last_id, 2);
    assert!(matches!(enqueue(&mut m, "http://example.com/c"), Action::Probe { id: 2, .. }));
}
