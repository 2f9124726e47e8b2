//! Command-line arguments, and how a configuration file completes them.

use vstd::prelude::*;

use crate::config::{text_in, texts_in, FileConfig, MasterConfig, WorkerConfig};
use crate::order::nonempty_in;
use crate::security::{default_fragments, default_prefixes, CommandPolicy};
use crate::tags::{is_normal_form, normalize_tags};
use crate::text::{
    has_prefix, lowercase, lowered_trimmed, same_text, starts_with, texts, trimmed,
};

verus! {

/// What a process is in the cluster.
#[derive(Debug, Clone, Copy, PartialEq, Eq, Structural)]
pub enum Mode {
    Master,
    Worker,
    Client,
}

/// The command-line arguments, with defaults for those that were not given.
#[derive(Debug, Clone)]
pub struct Args {
    pub mode: Mode,
    pub bind_addr: String,
    pub port: u16,
    pub master_ip: String,
    pub command: String,
    pub worker_id: Option<String>,
    pub worker_port: Option<u16>,
    pub max_concurrent_tasks: u32,
    pub web_port: u16,
    pub enable_web: bool,
    pub scheduler_interval_ms: u64,
    pub heartbeat_timeout_seconds: u64,
    pub allow_unsafe_commands: bool,
    pub allow_root: bool,
    pub tags: Vec<String>,
    pub allowed_command: Vec<String>,
    pub enable_process_thief: bool,
}

/// The values of the command-line arguments.
#[verifier::ext_equal]
pub struct Settings {
    pub mode: Mode,
    pub bind_addr: Seq<char>,
    pub port: u16,
    pub master_ip: Seq<char>,
    pub command: Seq<char>,
    pub worker_id: Option<Seq<char>>,
    pub worker_port: Option<u16>,
    pub max_concurrent_tasks: u32,
    pub web_port: u16,
    pub enable_web: bool,
    pub scheduler_interval_ms: u64,
    pub heartbeat_timeout_seconds: u64,
    pub allow_unsafe_commands: bool,
    pub allow_root: bool,
    pub tags: Seq<Seq<char>>,
    pub allowed_command: Seq<Seq<char>>,
    pub enable_process_thief: bool,
}

impl View for Args {
    type V = Settings;

    open spec fn view(&self) -> Settings {
        Settings {
            mode: self.mode,
            bind_addr: self.bind_addr@,
            port: self.port,
            master_ip: self.master_ip@,
            command: self.command@,
            worker_id: text_in(self.worker_id),
            worker_port: self.worker_port,
            max_concurrent_tasks: self.max_concurrent_tasks,
            web_port: self.web_port,
            enable_web: self.enable_web,
            scheduler_interval_ms: self.scheduler_interval_ms,
            heartbeat_timeout_seconds: self.heartbeat_timeout_seconds,
            allow_unsafe_commands: self.allow_unsafe_commands,
            allow_root: self.allow_root,
            tags: texts(self.tags@),
            allowed_command: texts(self.allowed_command@),
            enable_process_thief: self.enable_process_thief,
        }
    }
}

/// Which arguments were given explicitly.
#[derive(Debug, Clone, Copy, PartialEq, Eq, Structural)]
pub struct CliOverrides {
    pub bind_addr: bool,
    pub port: bool,
    pub master_ip: bool,
    pub worker_id: bool,
    pub worker_port: bool,
    pub max_concurrent_tasks: bool,
    pub web_port: bool,
    pub enable_web: bool,
    pub scheduler_interval_ms: bool,
    pub heartbeat_timeout_seconds: bool,
    pub allow_unsafe_commands: bool,
    pub allow_root: bool,
    pub tags: bool,
    pub allowed_command: bool,
}

/// Whether a word of the command line gives an argument: it is the long name,
/// alone or followed by `=` and a value, or it is the short name, alone or
/// followed by a value.
pub open spec fn gives(word: Seq<char>, long: Seq<char>, short: Option<Seq<char>>) -> bool {
    ||| word == long
    ||| has_prefix(word, long + "="@)
    ||| match short {
        Some(short) => word == short || (!has_prefix(word, "--"@) && has_prefix(word, short)),
        None => false,
    }
}

/// Whether one of the words after the first, which names the program, gives an
/// argument.
pub open spec fn is_given(
    words: Seq<Seq<char>>,
    long: Seq<char>,
    short: Option<Seq<char>>,
) -> bool {
    exists|i: int| 1 <= i < words.len() && gives(#[trigger] words[i], long, short)
}

/// Whether an argument was given on the command line.
pub fn has_arg(args: &[String], long: &str, short: Option<&str>) -> (found: bool)
    ensures
        found == is_given(
            texts(args@),
            long@,
            match short {
                Some(short) => Some(short@),
                None => None,
            },
        ),
{
    let assigned = long.to_owned().concat("=");
    let ghost wanted = match short {
        Some(short) => Some(short@),
        None => None,
    };
    let mut i: usize = 1;
    while i < args.len()
        invariant
            assigned@ == long@ + "="@,
            wanted == match short {
                Some(short) => Some(short@),
                None => None,
            },
            1 <= i,
            forall|j: int|
                1 <= j < i && j < args.len() ==> !gives(
                    #[trigger] texts(args@)[j],
                    long@,
                    wanted,
                ),
        decreases args.len() - i,
    {
        let word = args[i].as_str();
        assert(word@ == texts(args@)[i as int]);
        if same_text(word, long) || starts_with(word, assigned.as_str()) {
            assert(gives(texts(args@)[i as int], long@, wanted));
            return true;
        }
        if let Some(short) = short {
            if same_text(word, short) || (!starts_with(word, "--") && starts_with(word, short)) {
                assert(gives(texts(args@)[i as int], long@, wanted));
                return true;
            }
        }
        i = i + 1;
    }
    false
}

/// Which arguments the words of a command line give.
pub open spec fn overrides_in(words: Seq<Seq<char>>) -> CliOverrides {
    CliOverrides {
        bind_addr: is_given(words, "--bind-addr"@, None),
        port: is_given(words, "--port"@, Some("-p"@)),
        master_ip: is_given(words, "--master-ip"@, Some("-i"@)),
        worker_id: is_given(words, "--worker-id"@, None),
        worker_port: is_given(words, "--worker-port"@, None),
        max_concurrent_tasks: is_given(words, "--max-concurrent-tasks"@, None),
        web_port: is_given(words, "--web-port"@, None),
        enable_web: is_given(words, "--enable-web"@, None),
        scheduler_interval_ms: is_given(words, "--scheduler-interval-ms"@, None),
        heartbeat_timeout_seconds: is_given(words, "--heartbeat-timeout-seconds"@, None),
        allow_unsafe_commands: is_given(words, "--allow-unsafe-commands"@, None),
        allow_root: is_given(words, "--allow-root"@, None),
        tags: is_given(words, "--tags"@, None),
        allowed_command: is_given(words, "--allowed-command"@, None),
    }
}

impl CliOverrides {
    /// Finds out which arguments the words of a command line give.
    pub fn from_words(words: &[String]) -> (overrides: Self)
        ensures
            overrides == overrides_in(texts(words@)),
    {
        CliOverrides {
            bind_addr: has_arg(words, "--bind-addr", None),
            port: has_arg(words, "--port", Some("-p")),
            master_ip: has_arg(words, "--master-ip", Some("-i")),
            worker_id: has_arg(words, "--worker-id", None),
            worker_port: has_arg(words, "--worker-port", None),
            max_concurrent_tasks: has_arg(words, "--max-concurrent-tasks", None),
            web_port: has_arg(words, "--web-port", None),
            enable_web: has_arg(words, "--enable-web", None),
            scheduler_interval_ms: has_arg(words, "--scheduler-interval-ms", None),
            heartbeat_timeout_seconds: has_arg(words, "--heartbeat-timeout-seconds", None),
            allow_unsafe_commands: has_arg(words, "--allow-unsafe-commands", None),
            allow_root: has_arg(words, "--allow-root", None),
            tags: has_arg(words, "--tags", None),
            allowed_command: has_arg(words, "--allowed-command", None),
        }
    }
}

/// The value of an argument: the one in the configuration file, if there is
/// one and the argument was not given explicitly.
pub open spec fn pick<T>(given: bool, in_file: Option<T>, value: T) -> T {
    match in_file {
        Some(configured) if !given => configured,
        _ => value,
    }
}

/// The arguments of a master, completed by its section of the file.
pub open spec fn master_settings(
    args: Settings,
    config: Option<MasterConfig>,
    cli: CliOverrides,
) -> Settings {
    match config {
        Some(config) => Settings {
            bind_addr: pick(cli.bind_addr, text_in(config.bind_addr), args.bind_addr),
            port: pick(cli.port, config.grpc_port, args.port),
            web_port: pick(cli.web_port, config.web_port, args.web_port),
            enable_web: pick(cli.enable_web, config.web_enabled, args.enable_web),
            scheduler_interval_ms: pick(
                cli.scheduler_interval_ms,
                config.scheduler_interval_ms,
                args.scheduler_interval_ms,
            ),
            heartbeat_timeout_seconds: pick(
                cli.heartbeat_timeout_seconds,
                config.heartbeat_timeout_seconds,
                args.heartbeat_timeout_seconds,
            ),
            ..args
        },
        None => args,
    }
}

/// The arguments of a worker, completed by its section of the file. The two
/// that are optional themselves are taken from the section as they are there.
pub open spec fn worker_settings(
    args: Settings,
    config: Option<WorkerConfig>,
    cli: CliOverrides,
) -> Settings {
    match config {
        Some(config) => Settings {
            worker_id: if cli.worker_id {
                args.worker_id
            } else {
                text_in(config.worker_id)
            },
            worker_port: if cli.worker_port {
                args.worker_port
            } else {
                config.worker_port
            },
            master_ip: pick(cli.master_ip, text_in(config.master_ip), args.master_ip),
            port: pick(cli.port, config.master_port, args.port),
            max_concurrent_tasks: pick(
                cli.max_concurrent_tasks,
                config.max_concurrent_tasks,
                args.max_concurrent_tasks,
            ),
            tags: pick(cli.tags, texts_in(config.tags), args.tags),
            ..args
        },
        None => args,
    }
}

/// The arguments of a client, completed by the file.
pub open spec fn client_settings(
    args: Settings,
    config: FileConfig,
    cli: CliOverrides,
) -> Settings {
    Settings {
        master_ip: pick(cli.master_ip, config.master_ip(), args.master_ip),
        port: pick(cli.port, config.client_port(), args.port),
        ..args
    }
}

/// The arguments of a process, completed by the file.
pub open spec fn configured(args: Settings, config: FileConfig, cli: CliOverrides) -> Settings {
    let of_mode = match args.mode {
        Mode::Master => master_settings(args, config.master, cli),
        Mode::Worker => worker_settings(args, config.worker, cli),
        Mode::Client => client_settings(args, config, cli),
    };
    Settings {
        allow_root: pick(cli.allow_root, config.allow_root(), args.allow_root),
        allow_unsafe_commands: pick(
            cli.allow_unsafe_commands,
            config.allow_unsafe_commands(),
            args.allow_unsafe_commands,
        ),
        ..of_mode
    }
}

/// Completes the arguments of a process by the configuration file.
pub fn apply_config(args: &mut Args, config: &FileConfig, cli: &CliOverrides)
    ensures
        final(args)@ == configured(old(args)@, *config, *cli),
{
    match args.mode {
        Mode::Master => apply_master_config(args, config.master.as_ref(), cli),
        Mode::Worker => apply_worker_config(args, config.worker.as_ref(), cli),
        Mode::Client => apply_client_config(args, config, cli),
    }

    if let Some(security) = config.security.as_ref() {
        if !cli.allow_root {
            if let Some(allow_root) = security.allow_root {
                args.allow_root = allow_root;
            }
        }
        if !cli.allow_unsafe_commands {
            if let Some(allow_unsafe_commands) = security.allow_unsafe_commands {
                args.allow_unsafe_commands = allow_unsafe_commands;
            }
        }
    }
}

/// Completes the arguments of a master.
pub fn apply_master_config(args: &mut Args, config: Option<&MasterConfig>, cli: &CliOverrides)
    ensures
        final(args)@ == master_settings(
            old(args)@,
            match config {
                Some(config) => Some(*config),
                None => None,
            },
            *cli,
        ),
{
    let config = match config {
        Some(config) => config,
        None => {
            return;
        },
    };

    if !cli.bind_addr {
        if let Some(bind_addr) = config.bind_addr.as_ref() {
            args.bind_addr = bind_addr.clone();
        }
    }
    if !cli.port {
        if let Some(grpc_port) = config.grpc_port {
            args.port = grpc_port;
        }
    }
    if !cli.web_port {
        if let Some(web_port) = config.web_port {
            args.web_port = web_port;
        }
    }
    if !cli.enable_web {
        if let Some(web_enabled) = config.web_enabled {
            args.enable_web = web_enabled;
        }
    }
    if !cli.scheduler_interval_ms {
        if let Some(scheduler_interval_ms) = config.scheduler_interval_ms {
            args.scheduler_interval_ms = scheduler_interval_ms;
        }
    }
    if !cli.heartbeat_timeout_seconds {
        if let Some(heartbeat_timeout_seconds) = config.heartbeat_timeout_seconds {
            args.heartbeat_timeout_seconds = heartbeat_timeout_seconds;
        }
    }
}

/// Completes the arguments of a worker.
pub fn apply_worker_config(args: &mut Args, config: Option<&WorkerConfig>, cli: &CliOverrides)
    ensures
        final(args)@ == worker_settings(
            old(args)@,
            match config {
                Some(config) => Some(*config),
                None => None,
            },
            *cli,
        ),
{
    let config = match config {
        Some(config) => config,
        None => {
            return;
        },
    };

    if !cli.worker_id {
        args.worker_id = config.worker_id.clone();
    }
    if !cli.master_ip {
        if let Some(master_ip) = config.master_ip.as_ref() {
            args.master_ip = master_ip.clone();
        }
    }
    if !cli.port {
        if let Some(master_port) = config.master_port {
            args.port = master_port;
        }
    }
    if !cli.worker_port {
        args.worker_port = config.worker_port;
    }
    if !cli.max_concurrent_tasks {
        if let Some(max_concurrent_tasks) = config.max_concurrent_tasks {
            args.max_concurrent_tasks = max_concurrent_tasks;
        }
    }
    if !cli.tags {
        if let Some(tags) = config.tags.as_ref() {
            args.tags = tags.clone();
            assert(texts(args.tags@) =~= texts(tags@));
        }
    }
}

/// Completes the arguments of a client.
pub fn apply_client_config(args: &mut Args, config: &FileConfig, cli: &CliOverrides)
    ensures
        final(args)@ == client_settings(old(args)@, *config, *cli),
{
    if !cli.master_ip {
        if let Some(worker) = config.worker.as_ref() {
            if let Some(master_ip) = worker.master_ip.as_ref() {
                args.master_ip = master_ip.clone();
            }
        }
    }

    if !cli.port {
        let for_workers = match config.worker.as_ref() {
            Some(worker) => worker.master_port,
            None => None,
        };
        let port = match for_workers {
            Some(port) => Some(port),
            None => match config.master.as_ref() {
                Some(master) => master.grpc_port,
                None => None,
            },
        };
        if let Some(port) = port {
            args.port = port;
        }
    }
}

/// Whether `words` are the allowed command words that the arguments and the
/// file amount to: those on the command line, or else those in the file, unless
/// the command line has the argument for them, or else the default ones.
pub open spec fn are_allowed_words(
    words: Seq<Seq<char>>,
    args: Settings,
    config: FileConfig,
    cli: CliOverrides,
) -> bool {
    if args.allowed_command.len() > 0 {
        is_normal_form(words, args.allowed_command)
    } else {
        match config.allowed_commands() {
            Some(listed) if !cli.allowed_command => is_normal_form(words, listed),
            _ => words == default_prefixes(),
        }
    }
}

/// The command policy that the arguments and the file amount to.
pub fn build_command_policy(args: &Args, config: &FileConfig, cli: &CliOverrides) -> (policy:
    CommandPolicy)
    ensures
        policy.allow_unsafe_commands == (args.allow_unsafe_commands
            || config.allow_unsafe_commands() == Some(true)),
        are_allowed_words(texts(policy.allowed_prefixes@), args@, *config, *cli),
        texts(policy.denied_fragments@) == default_fragments(),
{
    let mut policy = CommandPolicy::default();

    if let Some(security) = config.security.as_ref() {
        if let Some(allow_unsafe_commands) = security.allow_unsafe_commands {
            policy.allow_unsafe_commands = allow_unsafe_commands;
        }
        if !cli.allowed_command {
            if let Some(allowed_commands) = security.allowed_commands.as_ref() {
                let listed = allowed_commands.clone();
                assert(texts(listed@) =~= texts(allowed_commands@));
                policy.allowed_prefixes = normalize_tags(listed);
            }
        }
    }

    if args.allow_unsafe_commands {
        policy.allow_unsafe_commands = true;
    }
    if !args.allowed_command.is_empty() {
        let listed = args.allowed_command.clone();
        assert(texts(listed@) =~= texts(args.allowed_command@));
        policy.allowed_prefixes = normalize_tags(listed);
    }

    policy
}

/// An argument that was given explicitly keeps its value, whatever the file
/// says.
pub proof fn law_explicit_arguments_win(args: Settings, config: FileConfig, cli: CliOverrides)
    ensures
        cli.bind_addr ==> configured(args, config, cli).bind_addr == args.bind_addr,
        cli.port ==> configured(args, config, cli).port == args.port,
        cli.master_ip ==> configured(args, config, cli).master_ip == args.master_ip,
        cli.worker_id ==> configured(args, config, cli).worker_id == args.worker_id,
        cli.worker_port ==> configured(args, config, cli).worker_port == args.worker_port,
        cli.max_concurrent_tasks ==> configured(args, config, cli).max_concurrent_tasks
            == args.max_concurrent_tasks,
        cli.web_port ==> configured(args, config, cli).web_port == args.web_port,
        cli.enable_web ==> configured(args, config, cli).enable_web == args.enable_web,
        cli.scheduler_interval_ms ==> configured(args, config, cli).scheduler_interval_ms
            == args.scheduler_interval_ms,
        cli.heartbeat_timeout_seconds ==> configured(args, config, cli).heartbeat_timeout_seconds
            == args.heartbeat_timeout_seconds,
        cli.allow_unsafe_commands ==> configured(args, config, cli).allow_unsafe_commands
            == args.allow_unsafe_commands,
        cli.allow_root ==> configured(args, config, cli).allow_root == args.allow_root,
        cli.tags ==> configured(args, config, cli).tags == args.tags,
{
}

/// A file without sections changes nothing.
pub proof fn law_empty_file_changes_nothing(args: Settings, config: FileConfig, cli: CliOverrides)
    requires
        config.master is None,
        config.worker is None,
        config.security is None,
    ensures
        configured(args, config, cli) == args,
{
}

/// The file says nothing of the mode, of the command, of the command words
/// given as arguments, nor of the disabled experiment.
pub proof fn law_file_leaves_the_rest_alone(args: Settings, config: FileConfig, cli: CliOverrides)
    ensures
        configured(args, config, cli).mode == args.mode,
        configured(args, config, cli).command == args.command,
        configured(args, config, cli).allowed_command == args.allowed_command,
        configured(args, config, cli).enable_process_thief == args.enable_process_thief,
{
}

/// Applying a file twice is applying it once.
pub proof fn law_configuring_again_changes_nothing(
    args: Settings,
    config: FileConfig,
    cli: CliOverrides,
)
    ensures
        configured(configured(args, config, cli), config, cli) == configured(args, config, cli),
{
}

proof fn lemma_prefix(s: Seq<char>, prefix: Seq<char>)
    ensures
        has_prefix(s, prefix) <==> prefix.is_prefix_of(s),
{
    if prefix.len() <= s.len() {
        assert(s.subrange(0, prefix.len() as int) =~= s.take(prefix.len() as int));
    }
}

proof fn lemma_given(words: Seq<Seq<char>>, long: Seq<char>)
    ensures
        is_given(words, long, None) <==> exists|i: int|
            1 <= i < words.len() && (#[trigger] words[i] == long || (long + seq![
                '=',
            ]).is_prefix_of(words[i])),
{
    reveal_strlit("=");
    assert("="@ =~= seq!['=']);
    assert forall|i: int| 1 <= i < words.len() implies gives(#[trigger] words[i], long, None) == (
    words[i] == long || (long + seq!['=']).is_prefix_of(words[i])) by {
        lemma_prefix(words[i], long + "="@);
    }
}

proof fn lemma_given_with_short(words: Seq<Seq<char>>, long: Seq<char>, short: Seq<char>)
    requires
        short.len() == 2,
        short[0] == '-',
        short[1] != '-',
    ensures
        is_given(words, long, Some(short)) <==> exists|i: int|
            1 <= i < words.len() && (#[trigger] words[i] == long || (long + seq![
                '=',
            ]).is_prefix_of(words[i]) || short.is_prefix_of(words[i])),
{
    reveal_strlit("=");
    reveal_strlit("--");
    assert("="@ =~= seq!['=']);
    assert forall|i: int| 1 <= i < words.len() implies gives(
        #[trigger] words[i],
        long,
        Some(short),
    ) == (words[i] == long || (long + seq!['=']).is_prefix_of(words[i]) || short.is_prefix_of(
        words[i],
    )) by {
        let word = words[i];
        lemma_prefix(word, long + "="@);
        lemma_prefix(word, short);
        lemma_prefix(word, "--"@);
        if short.is_prefix_of(word) && "--"@.is_prefix_of(word) {
            assert(word.take(2)[1] == short[1]);
            assert(word.take(2)[1] == "--"@[1]);
        }
        if word == short {
            assert(word.take(2) =~= word);
        }
    }
}

/// An argument is given just when a word after the first is its long name, or
/// begins with that and `=`, or begins with its short name, where it has one:
/// `-p` for the port and `-i` for the address of the master.
pub proof fn law_arguments_given(words: Seq<Seq<char>>)
    ensures
        overrides_in(words).bind_addr <==> exists|i: int|
            1 <= i < words.len() && (#[trigger] words[i] == "--bind-addr"@ || ("--bind-addr"@ + seq![
                '=',
            ]).is_prefix_of(words[i])),
        overrides_in(words).port <==> exists|i: int|
            1 <= i < words.len() && (#[trigger] words[i] == "--port"@ || ("--port"@ + seq![
                '=',
            ]).is_prefix_of(words[i]) || "-p"@.is_prefix_of(words[i])),
        overrides_in(words).master_ip <==> exists|i: int|
            1 <= i < words.len() && (#[trigger] words[i] == "--master-ip"@ || ("--master-ip"@ + seq![
                '=',
            ]).is_prefix_of(words[i]) || "-i"@.is_prefix_of(words[i])),
        overrides_in(words).worker_id <==> exists|i: int|
            1 <= i < words.len() && (#[trigger] words[i] == "--worker-id"@ || ("--worker-id"@ + seq![
                '=',
            ]).is_prefix_of(words[i])),
        overrides_in(words).worker_port <==> exists|i: int|
            1 <= i < words.len() && (#[trigger] words[i] == "--worker-port"@ || ("--worker-port"@ + seq![
                '=',
            ]).is_prefix_of(words[i])),
        overrides_in(words).max_concurrent_tasks <==> exists|i: int|
            1 <= i < words.len() && (#[trigger] words[i] == "--max-concurrent-tasks"@ || ("--max-concurrent-tasks"@ + seq![
                '=',
            ]).is_prefix_of(words[i])),
        overrides_in(words).web_port <==> exists|i: int|
            1 <= i < words.len() && (#[trigger] words[i] == "--web-port"@ || ("--web-port"@ + seq![
                '=',
            ]).is_prefix_of(words[i])),
        overrides_in(words).enable_web <==> exists|i: int|
            1 <= i < words.len() && (#[trigger] words[i] == "--enable-web"@ || ("--enable-web"@ + seq![
                '=',
            ]).is_prefix_of(words[i])),
        overrides_in(words).scheduler_interval_ms <==> exists|i: int|
            1 <= i < words.len() && (#[trigger] words[i] == "--scheduler-interval-ms"@ || ("--scheduler-interval-ms"@ + seq![
                '=',
            ]).is_prefix_of(words[i])),
        overrides_in(words).heartbeat_timeout_seconds <==> exists|i: int|
            1 <= i < words.len() && (#[trigger] words[i] == "--heartbeat-timeout-seconds"@ || ("--heartbeat-timeout-seconds"@ + seq![
                '=',
            ]).is_prefix_of(words[i])),
        overrides_in(words).allow_unsafe_commands <==> exists|i: int|
            1 <= i < words.len() && (#[trigger] words[i] == "--allow-unsafe-commands"@ || ("--allow-unsafe-commands"@ + seq![
                '=',
            ]).is_prefix_of(words[i])),
        overrides_in(words).allow_root <==> exists|i: int|
            1 <= i < words.len() && (#[trigger] words[i] == "--allow-root"@ || ("--allow-root"@ + seq![
                '=',
            ]).is_prefix_of(words[i])),
        overrides_in(words).tags <==> exists|i: int|
            1 <= i < words.len() && (#[trigger] words[i] == "--tags"@ || ("--tags"@ + seq![
                '=',
            ]).is_prefix_of(words[i])),
        overrides_in(words).allowed_command <==> exists|i: int|
            1 <= i < words.len() && (#[trigger] words[i] == "--allowed-command"@ || ("--allowed-command"@ + seq![
                '=',
            ]).is_prefix_of(words[i])),
{
    reveal_strlit("-p");
    reveal_strlit("-i");
    lemma_given(words, "--bind-addr"@);
    lemma_given_with_short(words, "--port"@, "-p"@);
    lemma_given_with_short(words, "--master-ip"@, "-i"@);
    lemma_given(words, "--worker-id"@);
    lemma_given(words, "--worker-port"@);
    lemma_given(words, "--max-concurrent-tasks"@);
    lemma_given(words, "--web-port"@);
    lemma_given(words, "--enable-web"@);
    lemma_given(words, "--scheduler-interval-ms"@);
    lemma_given(words, "--heartbeat-timeout-seconds"@);
    lemma_given(words, "--allow-unsafe-commands"@);
    lemma_given(words, "--allow-root"@);
    lemma_given(words, "--tags"@);
    lemma_given(words, "--allowed-command"@);
}

/// What a file sets for a master is in force, unless the argument was given or
/// the file is silent; what a file sets for others is not.
pub proof fn law_file_sets_a_master(args: Settings, config: FileConfig, cli: CliOverrides)
    requires
        args.mode is Master,
    ensures
        config.master matches Some(section) ==> {
            let after = configured(args, config, cli);
            &&& after.bind_addr == if !cli.bind_addr && section.bind_addr is Some {
                section.bind_addr->0@
            } else {
                args.bind_addr
            }
            &&& after.port == if !cli.port && section.grpc_port is Some {
                section.grpc_port->0
            } else {
                args.port
            }
            &&& after.web_port == if !cli.web_port && section.web_port is Some {
                section.web_port->0
            } else {
                args.web_port
            }
            &&& after.enable_web == if !cli.enable_web && section.web_enabled is Some {
                section.web_enabled->0
            } else {
                args.enable_web
            }
            &&& after.scheduler_interval_ms == if !cli.scheduler_interval_ms
                && section.scheduler_interval_ms is Some {
                section.scheduler_interval_ms->0
            } else {
                args.scheduler_interval_ms
            }
            &&& after.heartbeat_timeout_seconds == if !cli.heartbeat_timeout_seconds
                && section.heartbeat_timeout_seconds is Some {
                section.heartbeat_timeout_seconds->0
            } else {
                args.heartbeat_timeout_seconds
            }
        },
        configured(args, config, cli) == (Settings {
            bind_addr: configured(args, config, cli).bind_addr,
            port: configured(args, config, cli).port,
            web_port: configured(args, config, cli).web_port,
            enable_web: configured(args, config, cli).enable_web,
            scheduler_interval_ms: configured(args, config, cli).scheduler_interval_ms,
            heartbeat_timeout_seconds: configured(args, config, cli).heartbeat_timeout_seconds,
            allow_root: configured(args, config, cli).allow_root,
            allow_unsafe_commands: configured(args, config, cli).allow_unsafe_commands,
            ..args
        }),
        config.master is None ==> configured(args, config, cli) == (Settings {
            allow_root: configured(args, config, cli).allow_root,
            allow_unsafe_commands: configured(args, config, cli).allow_unsafe_commands,
            ..args
        }),
{
}

/// What a file sets for a worker is in force, unless the argument was given or
/// the file is silent. Name and port of the worker are as in the section, even
/// where it is silent.
pub proof fn law_file_sets_a_worker(args: Settings, config: FileConfig, cli: CliOverrides)
    requires
        args.mode is Worker,
    ensures
        config.worker matches Some(section) ==> {
            let after = configured(args, config, cli);
            &&& cli.worker_id ==> after.worker_id == args.worker_id
            &&& !cli.worker_id ==> (after.worker_id is Some <==> section.worker_id is Some)
            &&& !cli.worker_id && section.worker_id is Some ==> after.worker_id->0
                == section.worker_id->0@
            &&& after.worker_port == if cli.worker_port {
                args.worker_port
            } else {
                section.worker_port
            }
            &&& after.master_ip == if !cli.master_ip && section.master_ip is Some {
                section.master_ip->0@
            } else {
                args.master_ip
            }
            &&& after.port == if !cli.port && section.master_port is Some {
                section.master_port->0
            } else {
                args.port
            }
            &&& after.max_concurrent_tasks == if !cli.max_concurrent_tasks
                && section.max_concurrent_tasks is Some {
                section.max_concurrent_tasks->0
            } else {
                args.max_concurrent_tasks
            }
            &&& after.tags == if !cli.tags && section.tags is Some {
                texts(section.tags->0@)
            } else {
                args.tags
            }
        },
        configured(args, config, cli) == (Settings {
            worker_id: configured(args, config, cli).worker_id,
            worker_port: configured(args, config, cli).worker_port,
            master_ip: configured(args, config, cli).master_ip,
            port: configured(args, config, cli).port,
            max_concurrent_tasks: configured(args, config, cli).max_concurrent_tasks,
            tags: configured(args, config, cli).tags,
            allow_root: configured(args, config, cli).allow_root,
            allow_unsafe_commands: configured(args, config, cli).allow_unsafe_commands,
            ..args
        }),
        config.worker is None ==> configured(args, config, cli) == (Settings {
            allow_root: configured(args, config, cli).allow_root,
            allow_unsafe_commands: configured(args, config, cli).allow_unsafe_commands,
            ..args
        }),
{
}

/// A client finds the master where the file sends workers, and its port there
/// or, where nothing is said of it, where the file has the master serve, unless
/// the arguments were given.
pub proof fn law_file_sets_a_client(args: Settings, config: FileConfig, cli: CliOverrides)
    requires
        args.mode is Client,
    ensures
        ({
            let after = configured(args, config, cli);
            &&& after.master_ip == if !cli.master_ip && config.worker is Some
                && config.worker->0.master_ip is Some {
                config.worker->0.master_ip->0@
            } else {
                args.master_ip
            }
            &&& after.port == if cli.port {
                args.port
            } else if config.worker is Some && config.worker->0.master_port is Some {
                config.worker->0.master_port->0
            } else if config.master is Some && config.master->0.grpc_port is Some {
                config.master->0.grpc_port->0
            } else {
                args.port
            }
            &&& after == (Settings {
                master_ip: after.master_ip,
                port: after.port,
                allow_root: after.allow_root,
                allow_unsafe_commands: after.allow_unsafe_commands,
                ..args
            })
        }),
{
}

/// What a file says of security is in force for every process, unless the
/// argument was given.
pub proof fn law_file_sets_security(args: Settings, config: FileConfig, cli: CliOverrides)
    ensures
        configured(args, config, cli).allow_root == if !cli.allow_root && config.security is Some
            && config.security->0.allow_root is Some {
            config.security->0.allow_root->0
        } else {
            args.allow_root
        },
        configured(args, config, cli).allow_unsafe_commands == if !cli.allow_unsafe_commands
            && config.security is Some && config.security->0.allow_unsafe_commands is Some {
            config.security->0.allow_unsafe_commands->0
        } else {
            args.allow_unsafe_commands
        },
        config.allow_unsafe_commands() == Some(true) <==> config.security is Some
            && config.security->0.allow_unsafe_commands == Some(true),
{
}

/// Where the allowed command words come from: from the arguments when they hold
/// any, or else from the file when it lists any and the argument was not given,
/// both trimmed, in lower case, and without blank ones; or else they are the
/// default ones.
pub proof fn law_allowed_words(
    words: Seq<Seq<char>>,
    args: Settings,
    config: FileConfig,
    cli: CliOverrides,
    word: Seq<char>,
)
    requires
        are_allowed_words(words, args, config, cli),
    ensures
        args.allowed_command.len() > 0 ==> (words.contains(word) <==> word.len() > 0
            && exists|i: int|
            0 <= i < args.allowed_command.len() && lowercase(
                trimmed(#[trigger] args.allowed_command[i]),
            ) == word),
        args.allowed_command.len() == 0 && !cli.allowed_command && config.security is Some
            && config.security->0.allowed_commands is Some ==> (words.contains(word) <==> word.len()
            > 0 && exists|i: int|
            0 <= i < config.security->0.allowed_commands->0@.len() && lowercase(
                trimmed(#[trigger] config.security->0.allowed_commands->0@[i]@),
            ) == word),
        args.allowed_command.len() == 0 && (cli.allowed_command || config.security is None
            || config.security->0.allowed_commands is None) ==> words == default_prefixes(),
{
    if args.allowed_command.len() > 0 {
        lemma_normal_form_member(words, args.allowed_command, word);
    } else if !cli.allowed_command && config.security is Some
        && config.security->0.allowed_commands is Some {
        let listed = config.security->0.allowed_commands->0@;
        lemma_normal_form_member(words, texts(listed), word);
        assert forall|i: int| 0 <= i < listed.len() implies texts(listed)[i]
            == #[trigger] listed[i]@ by {}
        if exists|i: int|
            0 <= i < texts(listed).len() && lowercase(trimmed(#[trigger] texts(listed)[i]))
                == word {
            let i = choose|i: int|
                0 <= i < texts(listed).len() && lowercase(trimmed(#[trigger] texts(listed)[i]))
                    == word;
            assert(lowercase(trimmed(listed[i]@)) == word);
        }
        if exists|i: int|
            0 <= i < listed.len() && lowercase(trimmed(#[trigger] listed[i]@)) == word {
            let i = choose|i: int|
                0 <= i < listed.len() && lowercase(trimmed(#[trigger] listed[i]@)) == word;
            assert(lowercase(trimmed(texts(listed)[i])) == word);
        }
    }
}

proof fn lemma_normal_form_member(parts: Seq<Seq<char>>, tags: Seq<Seq<char>>, t: Seq<char>)
    requires
        is_normal_form(parts, tags),
    ensures
        parts.contains(t) <==> t.len() > 0 && exists|i: int|
            0 <= i < tags.len() && lowercase(trimmed(#[trigger] tags[i])) == t,
{
    let lower = lowered_trimmed(tags);
    assert(parts.contains(t) <==> nonempty_in(lower)(t));
    if lower.contains(t) {
        let i = choose|i: int| 0 <= i < lower.len() && lower[i] == t;
        assert(lowercase(trimmed(tags[i])) == t);
    }
    if exists|i: int| 0 <= i < tags.len() && lowercase(trimmed(#[trigger] tags[i])) == t {
        let i = choose|i: int| 0 <= i < tags.len() && lowercase(trimmed(#[trigger] tags[i])) == t;
        assert(lower[i] == t);
    }
}

/// The values of arguments are those of their fields.
pub proof fn law_argument_values(args: Args)
    ensures
        args@.mode == args.mode,
        args@.bind_addr == args.bind_addr@,
        args@.port == args.port,
        args@.master_ip == args.master_ip@,
        args@.command == args.command@,
        args@.worker_id is Some <==> args.worker_id is Some,
        args.worker_id is Some ==> args@.worker_id->0 == args.worker_id->0@,
        args@.worker_port == args.worker_port,
        args@.max_concurrent_tasks == args.max_concurrent_tasks,
        args@.web_port == args.web_port,
        args@.enable_web == args.enable_web,
        args@.scheduler_interval_ms == args.scheduler_interval_ms,
        args@.heartbeat_timeout_seconds == args.heartbeat_timeout_seconds,
        args@.allow_unsafe_commands == args.allow_unsafe_commands,
        args@.allow_root == args.allow_root,
        args@.tags == texts(args.tags@),
        args@.allowed_command == texts(args.allowed_command@),
        args@.enable_process_thief == args.enable_process_thief,
{
}

} // verus!
