use download_manager::downloader::entry::{
    Entry, EntryId, EntryPhase, Response, SegmentState, SegmentTask,
};
use download_manager::downloader::worker::{self, WorkerId};

fn sized_entry(id: usize, total: u64, par: usize) -> (Entry, Vec<SegmentTask>) {
    let mut e = match Entry::start(id, "http://example.com/file.bin", "file.bin".to_string()) {
        Ok(e) => e,
        Err(_) => panic!("a valid URL is refused"),
    };
    let tasks = match e.on_size(Some(total), par) {
        Ok((tasks, report)) => {
            assert!(matches!(report, Response::Sized { id: EntryId { entry_id }, segments } if entry_id == id && segments == tasks.len()));
            tasks
        }
        Err(_) => panic!("sizing failed"),
    };
    (e, tasks)
}

fn succeed(e: &mut Entry, i: usize, path: &str) -> Option<Response> {
    e.on_worker(worker::Response::Succeed {
        id: WorkerId { entry_id: e.id, worker_index: i },
        filepath: path.to_string(),
    })
}

fn fail(e: &mut Entry, i: usize) -> Option<Response> {
    e.on_worker(worker::Response::Failed {
        id: WorkerId { entry_id: e.id, worker_index: i },
        reason: "connection reset".to_string(),
    })
}

#[test]
fn invalid_url_fails_entry() {
    match Entry::start(3, "not a url", "x".to_string()) {
        Err(Response::FailedGlobal { id, reason }) => {
            assert_eq!(id, EntryId { entry_id: 3 });
            assert!(!reason.is_empty());
        }
        _ => panic!("an invalid URL was accepted"),
    }
}

#[test]
fn missing_length_fails_entry() {
    let mut e = Entry::start(1, "https://example.com/a", "a".to_string()).ok().unwrap();
    assert!(matches!(e.on_size(None, 4), Err(Response::FailedGlobal { id: EntryId { entry_id: 1 }, .. })));
    assert_eq!(e.phase, EntryPhase::Failed);
    assert!(e.segments.is_empty());
}

#[test]
fn zero_length_fails_entry() {
    let mut e = Entry::start(2, "https://example.com/a", "a".to_string()).ok().unwrap();
    assert!(matches!(e.on_size(Some(0), 4), Err(Response::FailedGlobal { id: EntryId { entry_id: 2 }, .. })));
    assert_eq!(e.phase, EntryPhase::Failed);
    assert!(e.segments.is_empty());
    assert!(e.restart().is_empty());
    assert_eq!(e.phase, EntryPhase::Failed);
}

#[test]
fn sizing_hands_out_one_task_per_range() {
    let (e, tasks) = sized_entry(5, 1000, 4);
    assert_eq!(e.phase, EntryPhase::Active);
    assert_eq!(tasks.len(), 4);
    let ranges: Vec<(usize, usize)> = tasks.iter().map(|t| t.range).collect();
    assert_eq!(ranges, vec![(0, 249), (250, 499), (500, 749), (750, 999)]);
    for (i, t) in tasks.iter().enumerate() {
        assert_eq!(t.id, WorkerId { entry_id: 5, worker_index: i });
    }
}

#[test]
fn merge_order_follows_index_not_completion() {
    let (mut e, _) = sized_entry(7, 40, 4);
    for i in [3usize, 1, 0] {
        let r = succeed(&mut e, i, &format!("part-{i}"));
        assert!(matches!(r, Some(Response::Succeed { id }) if id.worker_index == i));
        assert_eq!(e.phase, EntryPhase::Active);
    }
    succeed(&mut e, 2, "part-2");
    assert_eq!(e.phase, EntryPhase::Merging);
    assert_eq!(e.merge_plan(), vec!["part-0", "part-1", "part-2", "part-3"]);
    assert!(matches!(e.on_merged(Ok(())), Response::SucceedGlobal { id: EntryId { entry_id: 7 } }));
    assert_eq!(e.phase, EntryPhase::Succeeded);
}

#[test]
fn merge_of_contents_in_index_order() {
    let contents = ["aa", "bb", "cc", "d"];
    let (mut e, _) = sized_entry(8, 7, 4);
    for i in [3usize, 2, 1, 0] {
        succeed(&mut e, i, contents[i]);
    }
    let joined: String = e.merge_plan().concat();
    assert_eq!(joined, "aabbccd");
}

#[test]
fn failed_merge_fails_entry() {
    let (mut e, _) = sized_entry(9, 2, 2);
    succeed(&mut e, 0, "p0");
    succeed(&mut e, 1, "p1");
    let r = e.on_merged(Err("disk full".to_string()));
    assert!(matches!(r, Response::FailedGlobal { id: EntryId { entry_id: 9 }, ref reason } if reason == "disk full"));
    assert_eq!(e.phase, EntryPhase::Failed);
}

#[test]
fn one_failure_leaves_siblings_running() {
    let (mut e, _) = sized_entry(4, 100, 4);
    let r = fail(&mut e, 1);
    assert!(matches!(r, Some(Response::Failed { id, ref reason }) if id.worker_index == 1 && reason == "connection reset"));
    assert_eq!(e.phase, EntryPhase::Active);
    assert!(matches!(e.segments[0], SegmentState::Running));
    assert!(matches!(e.segments[2], SegmentState::Running));
    for i in [0usize, 2, 3] {
        assert!(succeed(&mut e, i, "p").is_some());
    }
    assert_eq!(e.phase, EntryPhase::Active);
    assert!(matches!(e.segments[1], SegmentState::Failed));
}

#[test]
fn reports_for_other_entries_or_stopped_segments_are_ignored() {
    let (mut e, _) = sized_entry(4, 100, 4);
    let other = e.on_worker(worker::Response::Succeed {
        id: WorkerId { entry_id: 5, worker_index: 0 },
        filepath: "x".to_string(),
    });
    assert!(other.is_none());
    assert!(succeed(&mut e, 9, "x").is_none());
    fail(&mut e, 0);
    assert!(succeed(&mut e, 0, "late").is_none());
    assert!(matches!(e.segments[0], SegmentState::Failed));
}

#[test]
fn progress_is_passed_on() {
    let (mut e, _) = sized_entry(4, 100, 4);
    let r = e.on_worker(worker::Response::MadeProgress {
        id: WorkerId { entry_id: 4, worker_index: 2 },
        received: 10,
        length: 25,
    });
    assert!(matches!(r, Some(Response::MadeProgress { id, received: 10, length: 25 }) if id.worker_index == 2));
}

#[test]
fn delete_removes_unmerged_files_and_cancels_running() {
    let (mut e, _) = sized_entry(6, 30, 3);
    succeed(&mut e, 0, "seg-0");
    fail(&mut e, 2);
    let plan = e.delete();
    assert_eq!(e.phase, EntryPhase::Deleted);
    assert_eq!(plan.cancel, vec![WorkerId { entry_id: 6, worker_index: 1 }]);
    assert_eq!(plan.remove, vec!["seg-0".to_string()]);
}

#[test]
fn delete_after_merge_removes_nothing() {
    let (mut e, _) = sized_entry(6, 2, 2);
    succeed(&mut e, 0, "a");
    succeed(&mut e, 1, "b");
    e.on_merged(Ok(()));
    let plan = e.delete();
    assert!(plan.cancel.is_empty());
    assert!(plan.remove.is_empty());
}

#[test]
fn restart_runs_only_failed_segment() {
    let (mut e, tasks) = sized_entry(2, 1000, 4);
    for i in [0usize, 1, 3] {
        succeed(&mut e, i, &format!("keep-{i}"));
    }
    fail(&mut e, 2);
    let again = e.restart();
    assert_eq!(again.len(), 1);
    assert_eq!(again[0].id, WorkerId { entry_id: 2, worker_index: 2 });
    assert_eq!(again[0].range, tasks[2].range);
    assert!(matches!(e.segments[2], SegmentState::Running));
    for i in [0usize, 1, 3] {
        assert!(matches!(&e.segments[i], SegmentState::Succeeded { filepath } if *filepath == format!("keep-{i}")));
    }
    succeed(&mut e, 2, "new-2");
    assert_eq!(e.merge_plan(), vec!["keep-0", "keep-1", "new-2", "keep-3"]);
}

#[test]
fn new_entry_follows_url_check() {
    match Entry::new(11, "f".to_string(), Err("relative URL without a base".to_string())) {
        Err(Response::FailedGlobal { id, reason }) => {
            assert_eq!(id, EntryId { entry_id: 11 });
            assert_eq!(reason, "relative URL without a base");
        }
        _ => panic!("a failed URL check was ignored"),
    }
    match Entry::new(12, "g".to_string(), Ok(())) {
        Ok(e) => {
            assert_eq!(e.id, 12);
            assert_eq!(e.name, "g");
            assert_eq!(e.phase, EntryPhase::Sizing);
            assert!(e.segments.is_empty());
        }
        Err(_) => panic!("a passed URL check was refused"),
    }
}

#[test]
fn failed_probe_fails_entry() {
    let mut e = Entry::start(4, "http://example.com/a", "a".to_string()).ok().unwrap();
    let r = e.on_probe_failed("connection refused".to_string());
    assert!(matches!(r, Response::FailedGlobal { id: EntryId { entry_id: 4 }, ref reason } if reason == "connection refused"));
    assert_eq!(e.phase, EntryPhase::Failed);
}

#[test]
fn any_running_tracks_segments() {
    let (mut e, _) = sized_entry(3, 20, 2);
    assert!(e.any_running());
    succeed(&mut e, 0, "a");
    assert!(e.any_running());
    fail(&mut e, 1);
    assert!(!e.any_running());
}

#[test]
fn completion_order_gives_same_plan() {
    let (mut a, _) = sized_entry(1, 400, 4);
    let (mut b, _) = sized_entry(1, 400, 4);
    for i in [3usize, 0, 2, 1] {
        succeed(&mut a, i, &format!("f{i}"));
    }
    for i in [0usize, 1, 2, 3] {
        succeed(&mut b, i, &format!("f{i}"));
    }
    assert_eq!(a.merge_plan(), b.merge_plan());
}
