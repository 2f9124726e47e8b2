use aether::cli::{
    apply_client_config, apply_config, build_command_policy, has_arg, Args, CliOverrides, Mode,
};
use aether::config::{FileConfig, MasterConfig, SecurityConfig, WorkerConfig};
use aether::security::CommandPolicy;

fn strings(list: &[&str]) -> Vec<String> {
    list.iter().map(|s| s.to_string()).collect()
}

fn args(mode: Mode) -> Args {
    Args {
        mode,
        bind_addr: "0.0.0.0".to_string(),
        port: 50051,
        master_ip: "127.0.0.1".to_string(),
        command: String::new(),
        worker_id: None,
        worker_port: None,
        max_concurrent_tasks: 2,
        web_port: 8080,
        enable_web: true,
        scheduler_interval_ms: 250,
        heartbeat_timeout_seconds: 6,
        allow_unsafe_commands: false,
        allow_root: false,
        tags: vec![String::new()],
        allowed_command: Vec::new(),
        enable_process_thief: false,
    }
}

fn file() -> FileConfig {
    FileConfig {
        master: Some(MasterConfig {
            bind_addr: Some("10.0.0.1".to_string()),
            grpc_port: Some(6000),
            web_port: Some(9090),
            web_enabled: Some(false),
            scheduler_interval_ms: Some(100),
            heartbeat_timeout_seconds: Some(20),
        }),
        worker: Some(WorkerConfig {
            worker_id: Some("lab".to_string()),
            master_ip: Some("10.0.0.2".to_string()),
            master_port: Some(6001),
            worker_port: Some(6002),
            max_concurrent_tasks: Some(8),
            tags: Some(strings(&["gpu"])),
        }),
        security: Some(SecurityConfig {
            allow_unsafe_commands: Some(true),
            allowed_commands: Some(strings(&["LS", " cat "])),
            allow_root: Some(true),
        }),
    }
}

fn overrides(words: &[&str]) -> CliOverrides {
    CliOverrides::from_words(&strings(words))
}

#[test]
fn arguments_are_found_by_name() {
    let words = strings(&["aether", "--port=1", "-i10.0.0.1", "--tags", "a,b"]);
    assert!(has_arg(&words, "--port", Some("-p")));
    assert!(has_arg(&words, "--master-ip", Some("-i")));
    assert!(has_arg(&words, "--tags", None));
    assert!(!has_arg(&words, "--web-port", None));
    assert!(!has_arg(&strings(&["--port"]), "--port", Some("-p")));
    assert!(!has_arg(&strings(&["aether", "--ports"]), "--port", Some("-p")));
    assert!(!has_arg(&strings(&["aether", "--pp"]), "--port", Some("-p")));
    assert!(has_arg(&strings(&["aether", "-p"]), "--port", Some("-p")));
    assert!(!has_arg(&[], "--port", None));
}

#[test]
fn overrides_name_the_given_arguments() {
    let cli = overrides(&["aether", "--mode", "worker", "--worker-id", "x", "-p", "1"]);
    assert!(cli.worker_id && cli.port);
    assert!(!cli.worker_port && !cli.master_ip && !cli.tags && !cli.allowed_command);
    let all = overrides(&[
        "aether", "--bind-addr", "--port", "--master-ip", "--worker-id", "--worker-port",
        "--max-concurrent-tasks", "--web-port", "--enable-web", "--scheduler-interval-ms",
        "--heartbeat-timeout-seconds", "--allow-unsafe-commands", "--allow-root", "--tags",
        "--allowed-command",
    ]);
    assert_eq!(
        all,
        CliOverrides {
            bind_addr: true, port: true, master_ip: true, worker_id: true, worker_port: true,
            max_concurrent_tasks: true, web_port: true, enable_web: true,
            scheduler_interval_ms: true, heartbeat_timeout_seconds: true,
            allow_unsafe_commands: true, allow_root: true, tags: true, allowed_command: true,
        }
    );
}

#[test]
fn master_takes_its_section() {
    let mut args = args(Mode::Master);
    apply_config(&mut args, &file(), &overrides(&["aether", "--web-port", "1"]));
    assert_eq!(args.bind_addr, "10.0.0.1");
    assert_eq!(args.port, 6000);
    assert_eq!(args.web_port, 8080);
    assert!(!args.enable_web);
    assert_eq!(args.scheduler_interval_ms, 100);
    assert_eq!(args.heartbeat_timeout_seconds, 20);
    assert_eq!(args.worker_id, None);
    assert_eq!(args.master_ip, "127.0.0.1");
    assert!(args.allow_root && args.allow_unsafe_commands);
}

#[test]
fn worker_takes_its_section() {
    let mut args = args(Mode::Worker);
    args.worker_id = Some("explicit".to_string());
    apply_config(&mut args, &file(), &overrides(&["aether", "--worker-id", "explicit"]));
    assert_eq!(args.worker_id, Some("explicit".to_string()));
    assert_eq!(args.master_ip, "10.0.0.2");
    assert_eq!(args.port, 6001);
    assert_eq!(args.worker_port, Some(6002));
    assert_eq!(args.max_concurrent_tasks, 8);
    assert_eq!(args.tags, strings(&["gpu"]));
    assert_eq!(args.bind_addr, "0.0.0.0");
    assert_eq!(args.web_port, 8080);
}

#[test]
fn client_finds_the_master() {
    let none = overrides(&["aether"]);
    let mut found = args(Mode::Client);
    apply_config(&mut found, &file(), &none);
    assert_eq!((found.master_ip.as_str(), found.port), ("10.0.0.2", 6001));

    let mut config = file();
    config.worker = None;
    let mut found = args(Mode::Client);
    apply_client_config(&mut found, &config, &none);
    assert_eq!((found.master_ip.as_str(), found.port), ("127.0.0.1", 6000));

    let mut found = args(Mode::Client);
    apply_config(&mut found, &file(), &overrides(&["aether", "-p", "50051", "-i", "127.0.0.1"]));
    assert_eq!((found.master_ip.as_str(), found.port), ("127.0.0.1", 50051));
}

#[test]
fn empty_file_changes_nothing() {
    for mode in [Mode::Master, Mode::Worker, Mode::Client] {
        let mut found = args(mode);
        apply_config(&mut found, &FileConfig::default(), &overrides(&["aether"]));
        assert_eq!(format!("{:?}", found), format!("{:?}", args(mode)));
    }
}

#[test]
fn configuring_again_changes_nothing() {
    for mode in [Mode::Master, Mode::Worker, Mode::Client] {
        let cli = overrides(&["aether"]);
        let mut once = args(mode);
        apply_config(&mut once, &file(), &cli);
        let mut twice = once.clone();
        apply_config(&mut twice, &file(), &cli);
        assert_eq!(format!("{:?}", once), format!("{:?}", twice));
    }
}

#[test]
fn policy_comes_from_file_and_arguments() {
    let none = overrides(&["aether"]);
    let policy = build_command_policy(&args(Mode::Worker), &FileConfig::default(), &none);
    assert!(!policy.allow_unsafe_commands);
    assert_eq!(policy.allowed_prefixes, CommandPolicy::default().allowed_prefixes);
    assert_eq!(policy.denied_fragments, CommandPolicy::default().denied_fragments);

    let policy = build_command_policy(&args(Mode::Worker), &file(), &none);
    assert!(policy.allow_unsafe_commands);
    assert_eq!(policy.allowed_prefixes, strings(&["cat", "ls"]));

    let cli = overrides(&["aether", "--allowed-command", "Top,echo"]);
    let mut given = args(Mode::Worker);
    given.allowed_command = strings(&["Top", "echo"]);
    let policy = build_command_policy(&given, &file(), &cli);
    assert_eq!(policy.allowed_prefixes, strings(&["echo", "top"]));

    given.allowed_command = Vec::new();
    let policy = build_command_policy(&given, &file(), &cli);
    assert_eq!(policy.allowed_prefixes, CommandPolicy::default().allowed_prefixes);

    let mut unsafe_args = args(Mode::Worker);
    unsafe_args.allow_unsafe_commands = true;
    assert!(build_command_policy(&unsafe_args, &FileConfig::default(), &none).allow_unsafe_commands);
}
