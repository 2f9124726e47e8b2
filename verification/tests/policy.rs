use aether::security::{
    command_segments, contains_any, is_root, judge_lowered, lowered_segment_is_allowed,
    CommandPolicy, CommandPolicyError,
};
use aether::tasks::initial_diagnostic_command;

#[test]
fn accepts_safe_prefixes() {
    let policy = CommandPolicy::default();
    assert!(policy.validate("hostname && uptime").is_ok());
}

#[test]
fn accepts_safe_powershell_segments() {
    let policy = CommandPolicy::default();
    assert!(policy.validate("hostname; whoami; Get-Date").is_ok());
}

#[test]
fn denies_unknown_commands_by_default() {
    let policy = CommandPolicy::default();
    assert!(policy.validate("cat /etc/passwd").is_err());
}

#[test]
fn denies_dangerous_fragments_even_when_unsafe_mode_is_enabled() {
    let policy = CommandPolicy {
        allow_unsafe_commands: true,
        ..CommandPolicy::default()
    };
    assert!(policy.validate("rm -rf /tmp/aether-test").is_err());
}

#[test]
fn denies_unknown_commands_after_safe_segments() {
    let policy = CommandPolicy::default();
    assert!(policy.validate("hostname && cat /etc/passwd").is_err());
}

#[test]
fn denies_prefix_smuggling() {
    let policy = CommandPolicy::default();
    assert!(policy.validate("hostnameevil").is_err());
}

#[test]
fn empty_allowed_prefix_does_not_allow_everything() {
    let policy = CommandPolicy {
        allowed_prefixes: vec![String::new()],
        ..CommandPolicy::default()
    };
    assert!(policy.validate("hostname").is_err());
}

fn denied(outcome: Result<(), CommandPolicyError>) -> String {
    match outcome {
        Err(CommandPolicyError::Denied(command)) => command,
        other => panic!("expected a denial, got {:?}", other),
    }
}

#[test]
fn blank_command_lines_are_empty() {
    let policy = CommandPolicy::default();
    for command in ["", "   ", "\t\n", "\u{3000}\u{a0}"] {
        assert!(matches!(policy.validate(command), Err(CommandPolicyError::Empty)));
    }
}

#[test]
fn denials_carry_the_trimmed_command_line() {
    let policy = CommandPolicy::default();
    assert_eq!(denied(policy.validate("  cat /etc/hosts \n")), "cat /etc/hosts");
    assert_eq!(denied(policy.validate("\tRM -RF /\t")), "RM -RF /");
}

#[test]
fn case_does_not_matter() {
    let policy = CommandPolicy::default();
    assert!(policy.validate("HOSTNAME").is_ok());
    assert!(policy.validate("EcHo hi").is_ok());
    assert!(policy.validate("echo CURL").is_err());
}

#[test]
fn case_does_not_matter_in_the_policy_either() {
    let policy = CommandPolicy {
        allow_unsafe_commands: false,
        allowed_prefixes: vec!["  LS  ".to_string(), "É".to_string()],
        denied_fragments: vec!["SECRET".to_string()],
    };
    assert!(policy.validate("ls -l").is_ok());
    assert!(policy.validate("é x").is_ok());
    assert!(policy.validate("ls secret").is_err());
    assert!(policy.validate("hostname").is_err());
}

#[test]
fn every_segment_is_checked() {
    let policy = CommandPolicy::default();
    assert!(policy.validate("hostname\nuptime").is_ok());
    assert!(policy.validate("hostname || uptime; date").is_ok());
    assert!(policy.validate("hostname\ncat x").is_err());
    assert!(policy.validate("hostname || cat x").is_err());
    assert!(policy.validate("hostname; cat x").is_err());
    assert!(policy.validate("hostname ;; uptime &&").is_ok());
    assert!(policy.validate("hostname | cat x").is_ok());
}

#[test]
fn command_words_end_at_white_space() {
    let policy = CommandPolicy::default();
    assert!(policy.validate("ping\t10.0.0.1").is_ok());
    assert!(policy.validate("ip\u{2003}addr").is_ok());
    assert!(policy.validate("ip-addr").is_err());
    assert!(policy.segment_is_allowed("  uname -a "));
    assert!(policy.segment_is_allowed("   "));
    assert!(!policy.segment_is_allowed("unam"));
}

#[test]
fn unsafe_policy_admits_all_but_denied_commands() {
    let policy = CommandPolicy {
        allow_unsafe_commands: true,
        ..CommandPolicy::default()
    };
    assert!(policy.validate("cat /etc/hosts").is_ok());
    assert!(policy.validate("").is_err());
    for command in [
        "rm -rf /", "mkfs.ext4 x", "dd if=/dev/zero", "shutdown now", "reboot", "curl x", "wget x",
        "chmod 777 x", "chown x", "useradd x", "passwd", ":(){ :|:& };:",
    ] {
        assert_eq!(denied(policy.validate(command)), command);
    }
}

#[test]
fn segments_are_cut_in_order() {
    assert_eq!(command_segments("a;b&&c||d\ne"), vec!["a", "b", "c", "d", "e"]);
    assert_eq!(command_segments(""), vec![""]);
    assert_eq!(command_segments("|||"), vec!["", "|"]);
    assert_eq!(command_segments("a&&&b"), vec!["a", "&b"]);
    assert_eq!(command_segments(";"), vec!["", ""]);
}

#[test]
fn lowered_commands_are_judged_by_the_rule() {
    let strings = |list: &[&str]| list.iter().map(|s| s.to_string()).collect::<Vec<String>>();
    let fragments = strings(&["rm -rf"]);
    let words = strings(&["echo", ""]);
    assert!(judge_lowered("Echo a", "echo a", &fragments, false, &strings(&["echo a"]), &words).is_ok());
    assert!(judge_lowered("ls", "ls", &fragments, false, &strings(&["ls"]), &words).is_err());
    assert!(judge_lowered("ls", "ls", &fragments, true, &strings(&["ls"]), &words).is_ok());
    assert_eq!(
        denied(judge_lowered("RM -RF", "rm -rf", &fragments, true, &strings(&[]), &words)),
        "RM -RF"
    );
    assert!(lowered_segment_is_allowed("", &words));
    assert!(!lowered_segment_is_allowed("echoes", &words));
    assert!(contains_any("xrm -rfx", &fragments));
}

#[test]
fn messages_name_the_command() {
    assert_eq!(CommandPolicyError::Empty.message(), "comando vazio");
    assert_eq!(
        CommandPolicyError::Denied("ls".to_string()).message(),
        "comando bloqueado pela política de segurança: ls"
    );
}

#[test]
fn root_is_the_user_zero() {
    assert!(is_root(Some(0)));
    assert!(!is_root(Some(1000)));
    assert!(!is_root(None));
}

#[test]
fn diagnostic_commands_pass_the_default_policy() {
    let policy = CommandPolicy::default();
    for shell in ["sh", "PowerShell"] {
        assert!(policy.validate(initial_diagnostic_command(shell)).is_ok());
    }
}
