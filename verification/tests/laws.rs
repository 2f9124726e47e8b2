use aether::cli::{apply_config, Args, CliOverrides, Mode};
use aether::config::{FileConfig, MasterConfig, SecurityConfig, WorkerConfig};
use aether::dispatch::{unreachable_worker, DispatchResult, StreamEvent, Transcript};
use aether::master::{Diagnostic, MasterState};
use aether::platform::ShellKind;
use aether::runtime::WorkerRuntime;
use aether::security::{command_segments, CommandPolicy};
use aether::tags::{build_worker_tags, has_all_tags, normalize_tags, worker_id_for_task};
use aether::tasks::{normalize_timeout, tail, TaskResponse, WaitOutcome};
use aether::text::{split, trim};
use aether::workers::{Heartbeat, Telemetry};

fn strings(words: &[&str]) -> Vec<String> {
    words.iter().map(|word| word.to_string()).collect()
}

fn heartbeat(id: &str) -> Heartbeat {
    Heartbeat {
        worker_id: id.to_string(),
        telemetry: Telemetry {
            cpu_usage_bits: 10.0f32.to_bits(),
            ram_usage_bits: 20.0f32.to_bits(),
            temperature_bits: 40.0f32.to_bits(),
        },
        load_average_bits: 10.0f32.to_bits(),
        worker_port: 50060,
        operating_system: "linux".to_string(),
        running_tasks: 0,
        max_concurrent_tasks: 2,
        tags: build_worker_tags(Vec::new(), id, "linux", ShellKind::Sh),
        shell: "sh".to_string(),
    }
}

#[test]
fn laxer_policies_admit_no_less() {
    let strict = CommandPolicy {
        allow_unsafe_commands: false,
        allowed_prefixes: strings(&["hostname"]),
        denied_fragments: strings(&["reboot", "curl"]),
    };
    let lax = CommandPolicy {
        allow_unsafe_commands: false,
        allowed_prefixes: strings(&["hostname", "cat"]),
        denied_fragments: strings(&["curl"]),
    };
    assert!(strict.validate("hostname -f").is_ok());
    assert!(lax.validate("hostname -f").is_ok());
    assert!(strict.validate("cat notes").is_err());
    assert!(lax.validate("cat notes").is_ok());
    assert!(strict.validate("hostname reboot").is_err());
    assert!(lax.validate("hostname reboot").is_ok());
}

#[test]
fn surrounding_space_does_not_matter() {
    let policy = CommandPolicy::default();
    for command in ["uptime", "cat notes", "reboot"] {
        let padded = format!(" \t{}\u{2003}\n", command);
        assert_eq!(policy.validate(&padded).is_ok(), policy.validate(command).is_ok());
    }
    assert_eq!(trim(trim("  a b ")), trim("  a b "));
}

#[test]
fn surrounding_space_keeps_the_denial() {
    let policy = CommandPolicy::default();
    let denied = policy.validate("\u{3000}\ncat notes \t").unwrap_err();
    assert_eq!(denied.message(), policy.validate("cat notes").unwrap_err().message());
    assert_eq!(policy.validate(" \n\t").unwrap_err().message(), "comando vazio");
}

#[test]
fn ascii_case_of_commands_does_not_matter() {
    let policy = CommandPolicy::default();
    for command in ["hostname && Uptime", "ReBoot", "cat notes", "echo a;WHOAMI"] {
        let upper = command.to_ascii_uppercase();
        assert_eq!(policy.validate(&upper).is_ok(), policy.validate(command).is_ok());
    }
    assert!(policy.validate("HOSTNAME && UPTIME").is_ok());
    assert!(policy.validate("REBOOT").is_err());
}

#[test]
fn compound_commands_pass_part_by_part() {
    let policy = CommandPolicy {
        denied_fragments: Vec::new(),
        ..CommandPolicy::default()
    };
    let parts = ["", " \n", "hostname", "cat x", "uptime\n", "echo & | é", "ls && date", "&"];
    for a in parts {
        for b in parts {
            let passes = |part: &str| part.trim().is_empty() || policy.validate(part).is_ok();
            let whole = format!("{};{}", a, b);
            assert_eq!(policy.validate(&whole).is_ok(), passes(a) && passes(b));
            let mut segments = command_segments(a);
            segments.extend(command_segments(b));
            assert_eq!(command_segments(&whole), segments);
        }
    }
    assert!(policy.validate(";").is_ok());
}

#[test]
fn streams_are_read_until_they_end() {
    let mut transcript = Transcript::new();
    let part = TaskResponse {
        task_id: "t".to_string(),
        exit_code: 0,
        stdout: "out\n".to_string(),
        stderr: String::new(),
    };
    assert!(transcript.step(StreamEvent::Part(part)));
    assert!(!transcript.step(StreamEvent::Ended));
    match transcript.finish() {
        DispatchResult::Completed { exit_code, stdout, stderr } => {
            assert_eq!(exit_code, 0);
            assert_eq!(stdout, "out\n");
            assert_eq!(stderr, "");
        }
        DispatchResult::Retryable { .. } => panic!("retryable"),
    }
    let mut broken = Transcript::new();
    assert!(!broken.step(StreamEvent::Broken("gone".to_string())));
    match broken.finish() {
        DispatchResult::Completed { exit_code, stdout, stderr } => {
            assert_eq!(exit_code, -1);
            assert_eq!(stdout, "");
            assert_eq!(stderr, "stream do Worker falhou: gone\n");
        }
        DispatchResult::Retryable { .. } => panic!("retryable"),
    }
}

#[test]
fn finished_tasks_give_their_slot_back() {
    let mut runtime = WorkerRuntime::new(CommandPolicy::default(), 2);
    assert!(runtime.reserve_slot());
    assert!(runtime.reserve_slot());
    let response = runtime.finish("t", WaitOutcome::TimedOut);
    assert_eq!(runtime.running_tasks(), 1);
    assert_eq!(response.task_id, "t");
    assert_eq!(response.exit_code, -1);
    assert_eq!(response.stderr, "timeout\n");
}

#[test]
fn tasks_that_cannot_start_give_their_slot_back() {
    let mut runtime = WorkerRuntime::new(CommandPolicy::default(), 1);
    assert!(runtime.reserve_slot());
    assert_eq!(runtime.start_failed("no shell".to_string()), "no shell");
    assert_eq!(runtime.running_tasks(), 0);
    assert!(runtime.reserve_slot());
}

#[test]
fn only_lower_case_matters() {
    let policy = CommandPolicy {
        allow_unsafe_commands: false,
        allowed_prefixes: strings(&["é", "echo"]),
        denied_fragments: strings(&["Ñ"]),
    };
    for (command, other) in [("É a; ECHO B", "é A; echo b"), ("echo ñ", "Echo Ñ"), ("ü", "Ü")] {
        assert_eq!(policy.validate(command).is_ok(), policy.validate(other).is_ok());
    }
    assert!(policy.validate("É a; ECHO B").is_ok());
    assert!(policy.validate("Echo Ñ").is_err());
}

#[test]
fn settled_tags_are_normalized_once() {
    let once = normalize_tags(strings(&[" Ñandú", "İ", "GPU", "ΣΑΣ"]));
    assert_eq!(normalize_tags(once.clone()), once);
}

#[test]
fn default_policy_lets_workers_introduce_themselves() {
    for shell in ["sh", "PowerShell", ""] {
        let mut master = MasterState::new(CommandPolicy::default());
        let outcome = master.queue_diagnostic("node", shell, "n");
        assert!(matches!(outcome, Diagnostic::Queued(id) if id == "sysinfo_node_n"));
    }
}

#[test]
fn segments_hold_no_separator() {
    for segment in command_segments("a&&&b;c|||d\ne") {
        for separator in ["\n", ";", "&&", "||"] {
            assert!(!segment.contains(separator));
        }
    }
}

#[test]
fn pieces_joined_are_the_text() {
    for text in ["", "a", "--", "a--b---c", "----"] {
        assert_eq!(split(text, "--").join("--"), text);
    }
}

#[test]
fn normal_forms_do_not_depend_on_order_or_repetition() {
    let once = normalize_tags(strings(&[" GPU", "linux", "gpu", ""]));
    assert_eq!(once, strings(&["gpu", "linux"]));
    assert_eq!(normalize_tags(strings(&["linux", "", " GPU", "gpu", "linux"])), once);
    assert_eq!(normalize_tags(once.clone()), once);
}

#[test]
fn safe_names_stay_safe() {
    let safe = worker_id_for_task("Nó 7_a");
    assert_eq!(safe, "n--7_a");
    assert_eq!(worker_id_for_task(&safe), safe);
}

#[test]
fn given_tags_and_fewer_are_met() {
    let given = strings(&["Ryzen", "fast"]);
    let carried = build_worker_tags(given.clone(), "node", "linux", ShellKind::Sh);
    let required = normalize_tags(given);
    assert!(has_all_tags(&carried, &required));
    assert!(has_all_tags(&carried, &required[1..]));
    assert!(has_all_tags(&carried, &[]));
}

#[test]
fn explicit_arguments_win_over_the_file() {
    let words = strings(&["aether", "--tags=a", "-p7", "--allow-root"]);
    let cli = CliOverrides::from_words(&words);
    let mut args = Args {
        mode: Mode::Worker,
        bind_addr: "0.0.0.0".to_string(),
        port: 7,
        master_ip: "127.0.0.1".to_string(),
        command: String::new(),
        worker_id: None,
        worker_port: None,
        max_concurrent_tasks: 2,
        web_port: 8080,
        enable_web: true,
        scheduler_interval_ms: 250,
        heartbeat_timeout_seconds: 6,
        allow_unsafe_commands: false,
        allow_root: true,
        tags: strings(&["a"]),
        allowed_command: strings(&["ls"]),
        enable_process_thief: true,
    };
    let config = FileConfig {
        master: Some(MasterConfig {
            bind_addr: Some("10.0.0.9".to_string()),
            grpc_port: Some(9),
            web_port: None,
            web_enabled: None,
            scheduler_interval_ms: None,
            heartbeat_timeout_seconds: None,
        }),
        worker: Some(WorkerConfig {
            worker_id: Some("w".to_string()),
            master_ip: Some("10.0.0.1".to_string()),
            master_port: Some(8),
            worker_port: Some(6),
            max_concurrent_tasks: Some(3),
            tags: Some(strings(&["b"])),
        }),
        security: Some(SecurityConfig {
            allow_unsafe_commands: Some(true),
            allowed_commands: None,
            allow_root: Some(false),
        }),
    };
    apply_config(&mut args, &config, &cli);
    assert_eq!(args.port, 7);
    assert_eq!(args.tags, strings(&["a"]));
    assert!(args.allow_root);
    assert_eq!(args.master_ip, "10.0.0.1");
    assert_eq!(args.worker_port, Some(6));
    assert!(args.allow_unsafe_commands);
    assert_eq!(args.bind_addr, "0.0.0.0");
    assert_eq!(args.mode, Mode::Worker);
    assert_eq!(args.allowed_command, strings(&["ls"]));
    assert!(args.enable_process_thief);
}

#[test]
fn tails_and_timeouts_are_stable() {
    let long = "x".repeat(5000);
    assert_eq!(tail(&tail(&long)), tail(&long));
    assert!(long.ends_with(&tail(&long)));
    assert_eq!(normalize_timeout(normalize_timeout(3)), normalize_timeout(3));
}

#[test]
fn released_slots_can_be_reserved_again() {
    let mut runtime = WorkerRuntime::new(CommandPolicy::default(), 1);
    assert!(runtime.reserve_slot());
    assert!(!runtime.reserve_slot());
    runtime.release_slot();
    assert_eq!(runtime.running_tasks(), 0);
    assert!(runtime.reserve_slot());
    assert_eq!(runtime.max_concurrent_tasks(), 1);
}

#[test]
fn workers_come_and_go_without_effect_on_tasks() {
    let mut master = MasterState::new(CommandPolicy::default());
    assert!(matches!(
        master.send_heartbeat(None, heartbeat("node"), 0),
        Diagnostic::Queued(_)
    ));
    let before = master.status();
    assert!(matches!(
        master.send_heartbeat(None, heartbeat("node"), 1),
        Diagnostic::NotNeeded
    ));
    assert_eq!(master.status(), before);
    assert_eq!(master.reap(60_000_000_000, 6), strings(&["node"]));
    let after = master.status();
    assert_eq!(after.workers_online, 0);
    assert_eq!(after.tasks_queued, before.tasks_queued);
    assert_eq!(after.tasks_tracked, before.tasks_tracked);
}

#[test]
fn slots_come_back_however_a_task_ends() {
    for completes in [true, false] {
        let mut master = MasterState::new(CommandPolicy::default());
        master.send_heartbeat(None, heartbeat("node"), 0);
        let (task, lease) = master.schedule(&[90.0f32.to_bits()]).unwrap();
        assert_eq!(master.workers()[0].snapshot.running_tasks, 1);
        let result = if completes {
            Transcript::new().finish()
        } else {
            unreachable_worker()
        };
        master.finish_dispatch(task, lease.id, result);
        assert_eq!(master.workers()[0].snapshot.running_tasks, 0);
        assert_eq!(master.status().tasks_queued, if completes { 0 } else { 1 });
        let status = &master.tasks()[0].status;
        assert_eq!(status, if completes { "FAILED" } else { "RETRYING" });
    }
}
