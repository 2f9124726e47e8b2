use aether::dispatch::{refused_by_worker, unreachable_worker, DispatchResult, Transcript};
use aether::network::{bind_address, endpoint, normalize_remote_ip, worker_port};
use aether::platform::{build_shell_command, resolve_worker_id, NameSources, ShellKind};
use aether::runtime::{may_start, Rejection, WorkerRuntime};
use aether::security::{CommandPolicy, CommandPolicyError};
use aether::tasks::{
    client_request, completion_response, diagnostic_task, initial_diagnostic_command,
    normalize_timeout, output_response, remote_request, tail, Task, TaskRequest, TaskResponse,
    WaitOutcome,
};
use aether::cli::{Args, Mode};
use aether::telemetry::{cpu_sensor, first_cpu_label, is_cpu_label};
use aether::workers::Telemetry;

fn strings(list: &[&str]) -> Vec<String> {
    list.iter().map(|s| s.to_string()).collect()
}

fn request(command: &str) -> TaskRequest {
    TaskRequest {
        task_id: "t".to_string(),
        command: command.to_string(),
        payload: Vec::new(),
        timeout_seconds: 5,
        required_tags: Vec::new(),
        priority: 0,
    }
}

#[test]
fn shells_differ_by_operating_system() {
    assert_eq!(ShellKind::current("windows").as_str(), "powershell");
    assert_eq!(ShellKind::current("linux").as_str(), "sh");
    let unix = build_shell_command(ShellKind::Sh, "a | b");
    assert_eq!((unix.program.as_str(), unix.arguments), ("sh", strings(&["-c", "a | b"])));
    let windows = build_shell_command(ShellKind::PowerShell, "a");
    assert_eq!(windows.program, "powershell.exe");
    assert_eq!(
        windows.arguments,
        strings(&["-NoProfile", "-ExecutionPolicy", "Bypass", "-Command", "a"])
    );
}

#[test]
fn worker_names_are_found_in_order() {
    let mut sources = NameSources {
        argument: Some(" given ".to_string()),
        worker_id_variable: Some("variable".to_string()),
        computer_name_variable: Some("computer".to_string()),
        host_name_variable: Some("host".to_string()),
        host_name_file: Some("file\n".to_string()),
    };
    assert_eq!(resolve_worker_id(&sources, 7), "given");
    sources.argument = None;
    assert_eq!(resolve_worker_id(&sources, 7), "variable");
    sources.worker_id_variable = None;
    assert_eq!(resolve_worker_id(&sources, 7), "computer");
    sources.computer_name_variable = None;
    assert_eq!(resolve_worker_id(&sources, 7), "host");
    sources.host_name_variable = None;
    assert_eq!(resolve_worker_id(&sources, 7), "file");
    sources.host_name_file = None;
    assert_eq!(resolve_worker_id(&sources, 407), "worker-407");
    sources.argument = Some("  ".to_string());
    sources.host_name_variable = Some("host".to_string());
    assert_eq!(resolve_worker_id(&sources, 7), "worker-7");
}

#[test]
fn addresses_are_written_out() {
    assert_eq!(bind_address("0.0.0.0", 50051), "0.0.0.0:50051");
    assert_eq!(endpoint("10.0.0.2", 50052), "http://10.0.0.2:50052");
    assert_eq!(normalize_remote_ip("::1".to_string()), "127.0.0.1");
    assert_eq!(normalize_remote_ip("10.0.0.2".to_string()), "10.0.0.2");
    assert_eq!(worker_port(Some(9), 65535), 9);
    assert_eq!(worker_port(None, 50051), 50052);
}

#[test]
fn root_needs_permission() {
    assert!(!may_start(true, false));
    assert!(may_start(true, true));
    assert!(may_start(false, false));
}

#[test]
fn slots_are_limited() {
    let mut worker = WorkerRuntime::new(CommandPolicy::default(), 2);
    assert!(worker.reserve_slot());
    assert!(worker.reserve_slot());
    assert!(!worker.reserve_slot());
    assert_eq!(worker.running_tasks(), 2);
    worker.release_slot();
    assert_eq!(worker.running_tasks(), 1);
    assert!(worker.reserve_slot());
    assert_eq!(WorkerRuntime::new(CommandPolicy::default(), 0).max_concurrent_tasks(), 1);
}

#[test]
fn tasks_are_accepted_within_policy_and_slots() {
    let mut worker = WorkerRuntime::new(CommandPolicy::default(), 1);
    match worker.accept(&request("cat x"), ShellKind::Sh) {
        Err(Rejection::Refused(CommandPolicyError::Denied(command))) => assert_eq!(command, "cat x"),
        other => panic!("{:?}", other),
    }
    assert!(matches!(
        worker.accept(&request(" "), ShellKind::Sh),
        Err(Rejection::Refused(CommandPolicyError::Empty))
    ));
    assert_eq!(worker.running_tasks(), 0);
    let task = worker.accept(&request(" hostname "), ShellKind::Sh).unwrap();
    assert_eq!(task.task_id, "t");
    assert_eq!(task.timeout_seconds, 30);
    assert_eq!(task.invocation.arguments, strings(&["-c", " hostname "]));
    assert_eq!(worker.running_tasks(), 1);
    let busy = worker.accept(&request("hostname"), ShellKind::Sh).unwrap_err();
    assert!(matches!(busy, Rejection::Busy));
    assert_eq!(busy.message(), "Worker sem slots livres");
    assert_eq!(Rejection::Refused(CommandPolicyError::Empty).message(), "comando vazio");
}

#[test]
fn heartbeats_report_the_worker() {
    let mut worker = WorkerRuntime::new(CommandPolicy::default(), 3);
    worker.reserve_slot();
    let telemetry = Telemetry { cpu_usage_bits: 1, ram_usage_bits: 2, temperature_bits: 3 };
    let tags = strings(&["a"]);
    let heartbeat = worker.heartbeat("w", telemetry, 50052, "linux", ShellKind::Sh, &tags);
    assert_eq!(heartbeat.worker_id, "w");
    assert_eq!(heartbeat.telemetry, telemetry);
    assert_eq!(heartbeat.load_average_bits, 1);
    assert_eq!(heartbeat.worker_port, 50052);
    assert_eq!(heartbeat.operating_system, "linux");
    assert_eq!((heartbeat.running_tasks, heartbeat.max_concurrent_tasks), (1, 3));
    assert_eq!(heartbeat.tags, tags);
    assert_eq!(heartbeat.shell, "sh");
}

#[test]
fn timeouts_have_a_minimum() {
    assert_eq!(normalize_timeout(0), 30);
    assert_eq!(normalize_timeout(30), 30);
    assert_eq!(normalize_timeout(31), 31);
}

#[test]
fn tails_keep_the_end() {
    assert_eq!(tail("abc"), "abc");
    let long = format!("x{}", "é".repeat(4096));
    assert_eq!(tail(&long), "é".repeat(4096));
    assert_eq!(tail(&tail(&long)), tail(&long));
}

#[test]
fn output_is_passed_on_line_by_line() {
    let out = output_response("t", "hi", false);
    assert_eq!((out.task_id.as_str(), out.exit_code), ("t", 0));
    assert_eq!((out.stdout.as_str(), out.stderr.as_str()), ("hi\n", ""));
    let err = output_response("t", "hi", true);
    assert_eq!((err.stdout.as_str(), err.stderr.as_str()), ("", "hi\n"));
}

#[test]
fn completion_tells_how_the_command_ended() {
    let parts = |r: TaskResponse| (r.exit_code, r.stdout, r.stderr);
    let done = "[WORKER] --- Micro-lote finalizado ---\n".to_string();
    assert_eq!(
        parts(completion_response("t", WaitOutcome::Exited(Some(3)))),
        (3, done.clone(), String::new())
    );
    assert_eq!(
        parts(completion_response("t", WaitOutcome::Exited(None))),
        (-1, done, String::new())
    );
    assert_eq!(
        parts(completion_response("t", WaitOutcome::Failed("no".to_string()))),
        (-1, String::new(), "no\n".to_string())
    );
    assert_eq!(
        parts(completion_response("t", WaitOutcome::TimedOut)),
        (-1, String::new(), "timeout\n".to_string())
    );
}

#[test]
fn transcripts_collect_the_answer() {
    let part = |stdout: &str, stderr: &str, exit_code: i32| TaskResponse {
        task_id: "t".to_string(),
        exit_code,
        stdout: stdout.to_string(),
        stderr: stderr.to_string(),
    };
    let mut transcript = Transcript::new();
    transcript.absorb(&part("a\n", "", 0));
    transcript.absorb(&part("", "b\n", 0));
    transcript.absorb(&part("end\n", "", 4));
    match transcript.finish() {
        DispatchResult::Completed { exit_code, stdout, stderr } => {
            assert_eq!((exit_code, stdout.as_str(), stderr.as_str()), (4, "a\nend\n", "b\n"));
        }
        other => panic!("{:?}", other),
    }
    let mut broken = Transcript::new();
    broken.absorb(&part("a\n", "", 0));
    broken.break_off("lost");
    match broken.finish() {
        DispatchResult::Completed { exit_code, stdout, stderr } => {
            assert_eq!(exit_code, -1);
            assert_eq!(stdout, "a\n");
            assert_eq!(stderr, "stream do Worker falhou: lost\n");
        }
        other => panic!("{:?}", other),
    }
    match Transcript::new().finish() {
        DispatchResult::Completed { exit_code, .. } => assert_eq!(exit_code, -1),
        other => panic!("{:?}", other),
    }
}

#[test]
fn failed_dispatches_can_be_tried_again() {
    match unreachable_worker() {
        DispatchResult::Retryable { stderr } => assert_eq!(stderr, "conexão com Worker falhou"),
        other => panic!("{:?}", other),
    }
    match refused_by_worker("busy".to_string()) {
        DispatchResult::Retryable { stderr } => assert_eq!(stderr, "busy"),
        other => panic!("{:?}", other),
    }
}

#[test]
fn requests_carry_the_task() {
    let task = Task {
        id: "x".to_string(),
        command: "date".to_string(),
        required_tags: strings(&["a"]),
        timeout_seconds: 40,
        priority: -3,
    };
    let sent = remote_request(&task);
    assert_eq!((sent.task_id.as_str(), sent.command.as_str()), ("x", "date"));
    assert_eq!((sent.timeout_seconds, sent.priority), (40, -3));
    assert_eq!(sent.required_tags, strings(&["a"]));
    assert!(sent.payload.is_empty());
}

#[test]
fn clients_need_a_command() {
    let mut args = Args {
        mode: Mode::Client,
        bind_addr: String::new(),
        port: 1,
        master_ip: String::new(),
        command: "  ".to_string(),
        worker_id: None,
        worker_port: None,
        max_concurrent_tasks: 1,
        web_port: 1,
        enable_web: false,
        scheduler_interval_ms: 1,
        heartbeat_timeout_seconds: 1,
        allow_unsafe_commands: false,
        allow_root: false,
        tags: strings(&["B", "a", ""]),
        allowed_command: Vec::new(),
        enable_process_thief: false,
    };
    assert!(client_request(&args).is_none());
    args.command = " date ".to_string();
    let sent = client_request(&args).unwrap();
    assert_eq!(sent.command, " date ");
    assert_eq!(sent.task_id, "");
    assert_eq!((sent.timeout_seconds, sent.priority), (30, 5));
    assert_eq!(sent.required_tags, strings(&["a", "b"]));
}

#[test]
fn diagnostics_name_the_worker() {
    let task = diagnostic_task("Lab 1", "PowerShell", "n");
    assert_eq!(task.id, "sysinfo_lab-1_n");
    assert_eq!(task.command, "hostname; whoami; Get-Date");
    assert_eq!(task.required_tags, strings(&["worker:lab-1"]));
    assert_eq!((task.timeout_seconds, task.priority), (30, 5));
    assert_eq!(initial_diagnostic_command("bash"), "hostname && uname -a && uptime");
}

#[test]
fn processor_sensors_are_known_by_label() {
    assert_eq!(cpu_sensor(&strings(&["nvme", "Package CPU", "Core 0"])), Some(1));
    assert_eq!(cpu_sensor(&strings(&["Tctl"])), Some(0));
    assert_eq!(cpu_sensor(&strings(&["acpi", "k10temp Tdie"])), Some(1));
    assert_eq!(cpu_sensor(&strings(&["gpu"])), None);
    assert_eq!(cpu_sensor(&[]), None);
    assert_eq!(first_cpu_label(&strings(&["CPU", "cpu"])), Some(1));
    assert!(is_cpu_label("coretemp"));
}
