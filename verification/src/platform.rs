//! What differs from one operating system to another: the shell that runs
//! commands, and how a worker finds its name.

use vstd::prelude::*;

use crate::text::{
    decimal, is_white_space, law_blank_texts_are_trimmed_away, law_decimal_reads_back, same_text,
    texts, to_decimal, trim, trimmed,
};

verus! {

/// The shell that a node runs commands with.
#[derive(Debug, Clone, Copy, PartialEq, Eq, Structural)]
pub enum ShellKind {
    Sh,
    PowerShell,
}

/// The name under which a shell is announced to the cluster.
pub open spec fn shell_name(kind: ShellKind) -> Seq<char> {
    match kind {
        ShellKind::Sh => "sh"@,
        ShellKind::PowerShell => "powershell"@,
    }
}

impl ShellKind {
    /// The shell of a node, given the name of its operating system.
    pub fn current(operating_system: &str) -> (kind: Self)
        ensures
            kind == if operating_system@ == "windows"@ {
                ShellKind::PowerShell
            } else {
                ShellKind::Sh
            },
    {
        if same_text(operating_system, "windows") {
            ShellKind::PowerShell
        } else {
            ShellKind::Sh
        }
    }

    /// The name under which the shell is announced to the cluster.
    pub fn as_str(self) -> (name: &'static str)
        ensures
            name@ == shell_name(self),
    {
        match self {
            ShellKind::Sh => "sh",
            ShellKind::PowerShell => "powershell",
        }
    }
}

/// A program and the arguments that it is started with.
#[derive(Debug, Clone)]
pub struct ShellInvocation {
    pub program: String,
    pub arguments: Vec<String>,
}

/// The program that a shell is started as.
pub open spec fn shell_program(kind: ShellKind) -> Seq<char> {
    match kind {
        ShellKind::Sh => "sh"@,
        ShellKind::PowerShell => "powershell.exe"@,
    }
}

/// The arguments that make a shell run `command`.
pub open spec fn shell_arguments(kind: ShellKind, command: Seq<char>) -> Seq<Seq<char>> {
    match kind {
        ShellKind::Sh => seq!["-c"@, command],
        ShellKind::PowerShell => seq![
            "-NoProfile"@,
            "-ExecutionPolicy"@,
            "Bypass"@,
            "-Command"@,
            command,
        ],
    }
}

/// How a shell is started to run `command`. The command goes to the shell as it
/// is, so that pipelines and compound commands work: it is to be held to the
/// command policy first.
pub fn build_shell_command(kind: ShellKind, command: &str) -> (invocation: ShellInvocation)
    ensures
        invocation.program@ == shell_program(kind),
        texts(invocation.arguments@) == shell_arguments(kind, command@),
{
    let invocation = match kind {
        ShellKind::Sh => ShellInvocation {
            program: "sh".to_owned(),
            arguments: vec!["-c".to_owned(), command.to_owned()],
        },
        ShellKind::PowerShell => ShellInvocation {
            program: "powershell.exe".to_owned(),
            arguments: vec![
                "-NoProfile".to_owned(),
                "-ExecutionPolicy".to_owned(),
                "Bypass".to_owned(),
                "-Command".to_owned(),
                command.to_owned(),
            ],
        },
    };
    assert(texts(invocation.arguments@) =~= shell_arguments(kind, command@));
    invocation
}

/// The places where a worker looks for its name, in this order.
#[derive(Debug, Clone)]
pub struct NameSources {
    /// The name given on the command line.
    pub argument: Option<String>,
    /// The environment variable `AETHER_WORKER_ID`.
    pub worker_id_variable: Option<String>,
    /// The environment variable `COMPUTERNAME`.
    pub computer_name_variable: Option<String>,
    /// The environment variable `HOSTNAME`.
    pub host_name_variable: Option<String>,
    /// The content of `/etc/hostname`.
    pub host_name_file: Option<String>,
}

impl NameSources {
    /// The name in the first place that holds one at all.
    pub open spec fn first(&self) -> Option<Seq<char>> {
        match (
            self.argument,
            self.worker_id_variable,
            self.computer_name_variable,
            self.host_name_variable,
            self.host_name_file,
        ) {
            (Some(name), _, _, _, _) => Some(name@),
            (None, Some(name), _, _, _) => Some(name@),
            (None, None, Some(name), _, _) => Some(name@),
            (None, None, None, Some(name), _) => Some(name@),
            (None, None, None, None, Some(name)) => Some(name@),
            (None, None, None, None, None) => None,
        }
    }
}

/// The name of a worker: the first name found, trimmed, or, when there is none
/// or it is blank, one made of the process id.
pub open spec fn worker_name(sources: NameSources, process_id: u32) -> Seq<char> {
    match sources.first() {
        Some(name) if trimmed(name).len() > 0 => trimmed(name),
        _ => "worker-"@ + decimal(process_id as nat),
    }
}

/// Finds the name of a worker.
pub fn resolve_worker_id(sources: &NameSources, process_id: u32) -> (name: String)
    ensures
        name@ == worker_name(*sources, process_id),
{
    let found = if sources.argument.is_some() {
        &sources.argument
    } else if sources.worker_id_variable.is_some() {
        &sources.worker_id_variable
    } else if sources.computer_name_variable.is_some() {
        &sources.computer_name_variable
    } else if sources.host_name_variable.is_some() {
        &sources.host_name_variable
    } else {
        &sources.host_name_file
    };
    if let Some(name) = found {
        let name = trim(name.as_str());
        if !name.is_empty() {
            return name.to_owned();
        }
    }
    "worker-".to_owned().concat(to_decimal(process_id as u64).as_str())
}

/// A shell is handed the command as it is, as its last argument, and is told by
/// the others to run it.
pub proof fn law_shells_get_the_command(command: Seq<char>)
    ensures
        shell_program(ShellKind::Sh) == "sh"@,
        shell_arguments(ShellKind::Sh, command) == seq!["-c"@].push(command),
        shell_program(ShellKind::PowerShell) == "powershell.exe"@,
        shell_arguments(ShellKind::PowerShell, command) == seq![
            "-NoProfile"@,
            "-ExecutionPolicy"@,
            "Bypass"@,
            "-Command"@,
        ].push(command),
        shell_name(ShellKind::Sh) == "sh"@,
        shell_name(ShellKind::PowerShell) == "powershell"@,
{
}

/// Where a worker's name comes from: from the first source that there is, and
/// without the white space around it. A name that is blank, and no source at
/// all, make way for one with the process id.
pub proof fn law_worker_names(sources: NameSources, process_id: u32, found: Option<String>)
    requires
        found == if sources.argument is Some {
            sources.argument
        } else if sources.worker_id_variable is Some {
            sources.worker_id_variable
        } else if sources.computer_name_variable is Some {
            sources.computer_name_variable
        } else if sources.host_name_variable is Some {
            sources.host_name_variable
        } else {
            sources.host_name_file
        },
    ensures
        found is None ==> worker_name(sources, process_id) == "worker-"@ + decimal(
            process_id as nat,
        ),
        found matches Some(name) ==> {
            let blank = forall|i: int| 0 <= i < name@.len() ==> is_white_space(#[trigger] name@[i]);
            &&& blank ==> worker_name(sources, process_id) == "worker-"@ + decimal(
                process_id as nat,
            )
            &&& !blank ==> worker_name(sources, process_id) == trimmed(name@)
        },
        worker_name(sources, process_id).len() > 0,
{
    if let Some(name) = found {
        law_blank_texts_are_trimmed_away(name@);
    }
    law_decimal_reads_back(process_id as nat);
}

} // verus!
