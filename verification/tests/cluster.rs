use aether::dispatch::DispatchResult;
use aether::master::{scheduler_interval, Diagnostic, MasterState, WebTaskRequest};
use aether::security::{CommandPolicy, CommandPolicyError};
use aether::tasks::{Task, TaskRequest};
use aether::workers::{is_greater, Heartbeat, Telemetry};

const SECOND: u128 = 1_000_000_000;

fn strings(list: &[&str]) -> Vec<String> {
    list.iter().map(|s| s.to_string()).collect()
}

fn heartbeat(id: &str, running: u32, max: u32, tags: &[&str]) -> Heartbeat {
    Heartbeat {
        worker_id: id.to_string(),
        telemetry: Telemetry {
            cpu_usage_bits: 10.0f32.to_bits(),
            ram_usage_bits: 20.0f32.to_bits(),
            temperature_bits: 30.0f32.to_bits(),
        },
        load_average_bits: 0,
        worker_port: 50060,
        operating_system: "linux".to_string(),
        running_tasks: running,
        max_concurrent_tasks: max,
        tags: strings(tags),
        shell: "sh".to_string(),
    }
}

fn closed_policy() -> CommandPolicy {
    CommandPolicy {
        allowed_prefixes: Vec::new(),
        ..CommandPolicy::default()
    }
}

fn task(id: &str, priority: i32, tags: &[&str]) -> Task {
    Task {
        id: id.to_string(),
        command: "hostname".to_string(),
        required_tags: strings(tags),
        timeout_seconds: 30,
        priority,
    }
}

fn bits(scores: &[f32]) -> Vec<u32> {
    scores.iter().map(|score| score.to_bits()).collect()
}

fn is_random_name(name: &str) -> bool {
    name.len() == 36
        && name.char_indices().all(|(i, c)| match i {
            8 | 13 | 18 | 23 => c == '-',
            14 => c == '4',
            19 => "89ab".contains(c),
            _ => c.is_ascii_digit() || ('a'..='f').contains(&c),
        })
}

fn status_of(master: &MasterState, id: &str) -> (String, Option<String>) {
    let view = master.tasks().into_iter().find(|view| view.id == id).unwrap();
    (view.status, view.worker)
}

#[test]
fn scores_are_compared_like_numbers() {
    let numbers = [
        0.0, -0.0, 1.0, -1.0, 30.0, 30.000002, 99.5, 100.0, f32::MIN_POSITIVE, 1.0e-45,
        f32::INFINITY, f32::NEG_INFINITY, f32::MAX, f32::MIN, f32::NAN, -f32::NAN,
    ];
    for a in numbers {
        for b in numbers {
            assert_eq!(is_greater(a.to_bits(), b.to_bits()), a > b);
        }
    }
}

#[test]
fn new_workers_introduce_themselves() {
    let mut master = MasterState::new(CommandPolicy::default());
    let id = match master.send_heartbeat(None, heartbeat("Lab 1", 0, 2, &[]), 0) {
        Diagnostic::Queued(id) => id,
        other => panic!("{:?}", other),
    };
    assert!(id.starts_with("sysinfo_lab-1_"));
    assert!(is_random_name(&id["sysinfo_lab-1_".len()..]));
    assert_eq!(status_of(&master, &id), ("QUEUED".to_string(), None));
    assert!(matches!(
        master.send_heartbeat(None, heartbeat("Lab 1", 1, 2, &[]), SECOND),
        Diagnostic::NotNeeded
    ));
    assert_eq!(master.workers().len(), 1);
    assert_eq!(master.workers()[0].snapshot.running_tasks, 1);
    assert_eq!(master.workers()[0].snapshot.last_heartbeat, SECOND);
    let queued = master.next_task().unwrap();
    assert_eq!(queued.required_tags, strings(&["worker:lab-1"]));
    assert_eq!(queued.command, "hostname && uname -a && uptime");
    assert!(master.next_task().is_none());
}

#[test]
fn refused_introductions_change_no_task() {
    let mut master = MasterState::new(closed_policy());
    match master.send_heartbeat(None, heartbeat("w", 0, 2, &[]), 0) {
        Diagnostic::Refused(CommandPolicyError::Denied(command)) => {
            assert_eq!(command, "hostname && uname -a && uptime");
        }
        other => panic!("{:?}", other),
    }
    let status = master.status();
    assert_eq!((status.workers_online, status.tasks_queued, status.tasks_tracked), (1, 0, 0));
}

#[test]
fn introductions_take_their_name_from_the_nonce() {
    let mut master = MasterState::new(CommandPolicy::default());
    match master.queue_diagnostic("W!", "powershell", "n") {
        Diagnostic::Queued(id) => assert_eq!(id, "sysinfo_w-_n"),
        other => panic!("{:?}", other),
    }
}

#[test]
fn reports_are_corrected() {
    let mut master = MasterState::new(closed_policy());
    let mut low = heartbeat("a", 5, 0, &["x"]);
    low.worker_port = 80;
    assert!(master.record_heartbeat(Some("::1".to_string()), low, 7));
    assert!(master.record_heartbeat(Some("10.0.0.9".to_string()), heartbeat("b", 0, 4, &[]), 7));
    assert!(master.record_heartbeat(None, heartbeat("c", 0, 4, &[]), 7));
    let a = &master.workers()[0].snapshot;
    assert_eq!((a.ip.as_str(), a.port, a.max_concurrent_tasks), ("127.0.0.1", 50052, 1));
    assert_eq!(a.free_slots(), 0);
    let b = &master.workers()[1].snapshot;
    assert_eq!((b.ip.as_str(), b.port, b.max_concurrent_tasks), ("10.0.0.9", 50060, 4));
    assert_eq!(b.free_slots(), 4);
    assert_eq!(master.workers()[2].snapshot.ip, "127.0.0.1");
    assert!(a.matches_tags(&strings(&["X"])) && !b.matches_tags(&strings(&["X"])));
}

#[test]
fn clients_queue_tasks() {
    let mut master = MasterState::new(CommandPolicy::default());
    let request = |id: &str, command: &str| TaskRequest {
        task_id: id.to_string(),
        command: command.to_string(),
        payload: Vec::new(),
        timeout_seconds: 1,
        required_tags: strings(&["B", "a", "b"]),
        priority: 9,
    };
    let answer = master.inject_task(request(" mine ", "date")).unwrap();
    assert_eq!(answer.task_id, "client_mine");
    assert_eq!(answer.exit_code, 0);
    assert_eq!(answer.stdout, "Tarefa enfileirada no Master.\n");
    assert_eq!(answer.stderr, "");
    let answer = master.inject_task(request("  ", "uptime")).unwrap();
    assert!(answer.task_id.starts_with("client_"));
    assert!(is_random_name(&answer.task_id["client_".len()..]));
    let answer = master.inject_named_task(request("", "uptime"), "n").unwrap();
    assert_eq!(answer.task_id, "client_n");
    assert_eq!(master.status().tasks_queued, 3);
    let before = format!("{:?}", master);
    match master.inject_task(request("x", "cat y")) {
        Err(CommandPolicyError::Denied(command)) => assert_eq!(command, "cat y"),
        other => panic!("{:?}", other),
    }
    assert!(matches!(master.inject_task(request("x", " ")), Err(CommandPolicyError::Empty)));
    assert_eq!(format!("{:?}", master), before);
    let first = master.next_task().unwrap();
    assert_eq!(first.id, "client_mine");
    assert_eq!((first.timeout_seconds, first.priority), (30, 9));
    assert_eq!(first.required_tags, strings(&["a", "b"]));
}

#[test]
fn the_console_queues_tasks() {
    let mut master = MasterState::new(CommandPolicy::default());
    let id = master
        .create_task(WebTaskRequest {
            command: "date".to_string(),
            required_tags: None,
            timeout_seconds: None,
            priority: None,
        })
        .unwrap();
    assert!(id.starts_with("web_") && is_random_name(&id[4..]));
    let id = master
        .create_named_task(
            WebTaskRequest {
                command: "date".to_string(),
                required_tags: Some(strings(&["GPU"])),
                timeout_seconds: Some(90),
                priority: Some(7),
            },
            "n",
        )
        .unwrap();
    assert_eq!(id, "web_n");
    let first = master.next_task().unwrap();
    assert_eq!((first.id.as_str(), first.timeout_seconds, first.priority), ("web_n", 90, 7));
    assert_eq!(first.required_tags, strings(&["gpu"]));
    let second = master.next_task().unwrap();
    assert_eq!((second.timeout_seconds, second.priority), (30, 5));
    assert!(second.required_tags.is_empty());
    let refused = master.create_task(WebTaskRequest {
        command: "wget x".to_string(),
        required_tags: None,
        timeout_seconds: None,
        priority: None,
    });
    assert!(matches!(refused, Err(CommandPolicyError::Denied(_))));
    assert_eq!(master.status().tasks_tracked, 2);
}

#[test]
fn tasks_wait_by_priority_and_arrival() {
    let mut master = MasterState::new(CommandPolicy::default());
    for (id, priority) in [("a", 1), ("b", 5), ("c", 5), ("d", -2), ("e", 9)] {
        master.enqueue_new_task(task(id, priority, &[]));
    }
    master.enqueue_by_priority(task("f", 1, &[]));
    master.defer_task(task("g", 100, &[]));
    let mut order = Vec::new();
    while let Some(task) = master.next_task() {
        order.push(task.id);
    }
    assert_eq!(order, strings(&["e", "b", "c", "a", "f", "d", "g"]));
}

#[test]
fn the_history_is_bounded() {
    let mut master = MasterState::new(CommandPolicy::default());
    for i in 0..500 {
        master.enqueue_new_task(task(&format!("t{}", i), 0, &[]));
    }
    assert_eq!(master.status().tasks_tracked, 500);
    master.enqueue_new_task(task("last", 0, &[]));
    let tasks = master.tasks();
    assert_eq!(tasks.len(), 401);
    assert_eq!(tasks[0].id, "t100");
    assert_eq!(tasks[400].id, "last");
    assert_eq!(master.status().tasks_queued, 501);
    master.trim_history();
    assert_eq!(master.status().tasks_tracked, 401);
}

#[test]
fn updates_change_the_first_record() {
    let mut master = MasterState::new(CommandPolicy::default());
    master.enqueue_new_task(task("x", 0, &[]));
    master.enqueue_new_task(task("x", 0, &[]));
    let long = "o".repeat(5000);
    master.update_task("x", "FAILED", Some("w".to_string()), &long, "e");
    master.update_task("x", "RETRYING", None, "out", "");
    master.update_task("y", "FAILED", None, "", "");
    let tasks = master.tasks();
    assert_eq!((tasks[0].status.as_str(), tasks[0].worker.as_deref()), ("RETRYING", Some("w")));
    assert_eq!((tasks[0].stdout_tail.as_str(), tasks[0].stderr_tail.as_str()), ("out", ""));
    assert_eq!((tasks[1].status.as_str(), tasks[1].worker.as_deref()), ("QUEUED", None));
    master.update_task("x", "FAILED", None, &long, "");
    assert_eq!(master.tasks()[0].stdout_tail.len(), 4096);
}

#[test]
fn the_best_worker_is_chosen() {
    let mut master = MasterState::new(closed_policy());
    master.record_heartbeat(Some("10.0.0.1".to_string()), heartbeat("full", 2, 2, &["gpu"]), 0);
    master.record_heartbeat(Some("10.0.0.2".to_string()), heartbeat("plain", 0, 2, &[]), 0);
    master.record_heartbeat(Some("10.0.0.3".to_string()), heartbeat("good", 0, 1, &["GPU"]), 0);
    master.record_heartbeat(Some("10.0.0.4".to_string()), heartbeat("same", 0, 2, &["gpu"]), 0);
    master.record_heartbeat(Some("10.0.0.5".to_string()), heartbeat("hot", 0, 2, &["gpu"]), 0);
    let scores = bits(&[99.0, 90.0, 70.0, 70.0, 30.0]);
    let gpu = strings(&["gpu"]);
    let lease = master.choose_worker(&gpu, &scores).unwrap();
    assert_eq!((lease.id.as_str(), lease.ip.as_str(), lease.port), ("good", "10.0.0.3", 50060));
    assert_eq!(master.workers()[2].snapshot.running_tasks, 1);
    assert_eq!(master.choose_worker(&gpu, &scores).unwrap().id, "same");
    assert_eq!(master.choose_worker(&gpu, &scores).unwrap().id, "same");
    assert!(master.choose_worker(&gpu, &scores).is_none());
    assert_eq!(master.choose_worker(&[], &scores).unwrap().id, "plain");
    master.release_worker_slot("good");
    assert_eq!(master.choose_worker(&gpu, &scores).unwrap().id, "good");
    master.release_worker_slot("unknown");
    master.release_worker_slot("hot");
    assert_eq!(master.workers()[4].snapshot.running_tasks, 0);
    assert!(master.choose_worker(&[], &bits(&[f32::NAN; 5])).is_none());
    assert!(master.choose_worker(&[], &[]).is_none());
}

#[test]
fn tasks_are_dispatched_and_finished() {
    let mut master = MasterState::new(closed_policy());
    assert!(master.schedule(&[]).is_none());
    master.enqueue_new_task(task("x", 0, &["gpu"]));
    master.enqueue_new_task(task("y", 0, &[]));
    let scores = bits(&[80.0]);
    master.record_heartbeat(None, heartbeat("w", 0, 1, &[]), 0);
    assert!(master.schedule(&scores).is_none());
    let (running, worker) = master.schedule(&scores).unwrap();
    assert_eq!((running.id.as_str(), worker.id.as_str()), ("y", "w"));
    assert_eq!(status_of(&master, "y"), ("DISPATCHED".to_string(), Some("w".to_string())));
    assert_eq!(master.workers()[0].snapshot.running_tasks, 1);
    master.finish_dispatch(
        running.clone(),
        worker.id.clone(),
        DispatchResult::Retryable { stderr: "busy".to_string() },
    );
    assert_eq!(status_of(&master, "y").0, "RETRYING");
    assert_eq!(master.workers()[0].snapshot.running_tasks, 0);
    assert_eq!(master.status().tasks_queued, 2);
    assert!(master.schedule(&scores).is_none());
    let (running, worker) = master.schedule(&scores).unwrap();
    master.finish_dispatch(
        running,
        worker.id,
        DispatchResult::Completed { exit_code: 0, stdout: "o".to_string(), stderr: String::new() },
    );
    assert_eq!(status_of(&master, "y"), ("SUCCEEDED".to_string(), Some("w".to_string())));
    assert_eq!(master.status().tasks_queued, 1);
    let x = master.next_task().unwrap();
    master.finish_dispatch(
        x,
        "gone".to_string(),
        DispatchResult::Completed { exit_code: 1, stdout: String::new(), stderr: "e".to_string() },
    );
    assert_eq!(status_of(&master, "x"), ("FAILED".to_string(), Some("gone".to_string())));
}

#[test]
fn waiting_tasks_take_turns() {
    let mut master = MasterState::new(closed_policy());
    for id in ["a", "b", "c"] {
        master.enqueue_new_task(task(id, 0, &["gpu"]));
    }
    for _ in 0..3 {
        assert!(master.schedule(&[]).is_none());
    }
    assert_eq!(master.next_task().unwrap().id, "a");
}

#[test]
fn silent_workers_are_dropped() {
    let mut master = MasterState::new(closed_policy());
    master.record_heartbeat(None, heartbeat("old", 0, 1, &[]), 0);
    master.record_heartbeat(None, heartbeat("new", 0, 1, &[]), 4 * SECOND);
    master.record_heartbeat(None, heartbeat("later", 0, 1, &[]), 60 * SECOND);
    assert!(master.reap(7 * SECOND - 1, 6).is_empty());
    assert_eq!(master.reap(7 * SECOND, 6), strings(&["old"]));
    assert_eq!(master.reap(11 * SECOND, 6), strings(&["new"]));
    assert_eq!(master.status().workers_online, 1);
    assert_eq!(master.workers()[0].id, "later");
}

#[test]
fn the_console_shows_workers() {
    let mut master = MasterState::new(closed_policy());
    master.record_heartbeat(None, heartbeat("w", 1, 3, &["a"]), 0);
    let views = master.worker_views(&bits(&[77.0]));
    assert_eq!(views.len(), 1);
    let view = &views[0];
    assert_eq!((view.id.as_str(), view.ip.as_str(), view.port), ("w", "127.0.0.1", 50060));
    assert_eq!((view.running, view.max), (1, 3));
    assert_eq!((view.os.as_str(), view.shell.as_str()), ("linux", "sh"));
    assert_eq!(view.tags, strings(&["a"]));
    assert_eq!(f32::from_bits(view.score_bits), 77.0);
    assert_eq!(f32::from_bits(view.telemetry.cpu_usage_bits), 10.0);
    assert!(master.worker_views(&[]).is_empty());
}

#[test]
fn the_scheduler_has_a_shortest_interval() {
    assert_eq!(scheduler_interval(0), 50);
    assert_eq!(scheduler_interval(50), 50);
    assert_eq!(scheduler_interval(250), 250);
}
