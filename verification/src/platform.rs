use vstd::prelude::*;

verus! {

/// The operating system the application was built for.
#[derive(Clone, Copy, Debug, PartialEq, Eq, Structural)]
pub enum TargetOs {
    Windows,
    Linux,
    /// Any other system.
    Other,
}

/// The shells the environment offers, each present only when the file
/// exists: on Windows the first `pwsh.exe` and `powershell.exe` on `PATH`
/// and `%COMSPEC%`; on Linux `$SHELL`.
#[derive(Clone, Debug)]
pub struct ShellProbe {
    pub pwsh: Option<String>,
    pub powershell: Option<String>,
    pub comspec: Option<String>,
    pub shell: Option<String>,
}

/// The first shell present among `candidates`, else `fallback`.
pub open spec fn first_present(candidates: Seq<Option<String>>, fallback: Seq<char>) -> Seq<char>
    decreases candidates.len(),
{
    if candidates.len() == 0 {
        fallback
    } else {
        match candidates[0] {
            Some(s) => s@,
            None => first_present(candidates.drop_first(), fallback),
        }
    }
}

/// The shell a new pane runs: on Windows PowerShell Core, then PowerShell 5,
/// then `%COMSPEC%`, then `cmd.exe`; on Linux `$SHELL`, then `/bin/bash`;
/// elsewhere `sh`.
pub open spec fn default_shell_spec(os: TargetOs, probe: ShellProbe) -> Seq<char> {
    match os {
        TargetOs::Windows => first_present(
            seq![probe.pwsh, probe.powershell, probe.comspec],
            "cmd.exe"@,
        ),
        TargetOs::Linux => first_present(seq![probe.shell], "/bin/bash"@),
        TargetOs::Other => "sh"@,
    }
}

fn pick(found: &Option<String>, otherwise: String) -> (s: String)
    ensures
        s@ == match *found {
            Some(f) => f@,
            None => otherwise@,
        },
{
    match found {
        Some(f) => f.clone(),
        None => otherwise,
    }
}

/// Choose the default shell from what the environment offers.
pub fn default_shell(os: TargetOs, probe: &ShellProbe) -> (shell: String)
    ensures
        shell@ == default_shell_spec(os, *probe),
{
    match os {
        TargetOs::Windows => {
            let fallback = pick(&probe.comspec, String::from_str("cmd.exe"));
            let fallback = pick(&probe.powershell, fallback);
            let shell = pick(&probe.pwsh, fallback);
            proof {
                let c = seq![probe.pwsh, probe.powershell, probe.comspec];
                assert(c.drop_first() =~= seq![probe.powershell, probe.comspec]);
                assert(c.drop_first().drop_first() =~= seq![probe.comspec]);
                assert(c.drop_first().drop_first().drop_first() =~= Seq::<Option<String>>::empty());
                reveal_with_fuel(first_present, 4);
            }
            shell
        },
        TargetOs::Linux => {
            let shell = pick(&probe.shell, String::from_str("/bin/bash"));
            proof {
                assert(seq![probe.shell].drop_first() =~= Seq::<Option<String>>::empty());
                reveal_with_fuel(first_present, 2);
            }
            shell
        },
        TargetOs::Other => String::from_str("sh"),
    }
}

/// The shell preference: on Windows PowerShell Core whenever it is found,
/// else PowerShell 5, else `%COMSPEC%`, else `cmd.exe`; on Linux `$SHELL`
/// whenever it exists, else `/bin/bash`; elsewhere always `sh`.
pub proof fn law_shell_preference(probe: ShellProbe)
    ensures
        probe.pwsh matches Some(p) ==> default_shell_spec(TargetOs::Windows, probe) == p@,
        probe.pwsh is None ==> (probe.powershell matches Some(p) ==> default_shell_spec(
            TargetOs::Windows,
            probe,
        ) == p@),
        probe.pwsh is None && probe.powershell is None ==> (probe.comspec matches Some(p)
            ==> default_shell_spec(TargetOs::Windows, probe) == p@),
        probe.pwsh is None && probe.powershell is None && probe.comspec is None
            ==> default_shell_spec(TargetOs::Windows, probe) == "cmd.exe"@,
        probe.shell matches Some(p) ==> default_shell_spec(TargetOs::Linux, probe) == p@,
        probe.shell is None ==> default_shell_spec(TargetOs::Linux, probe) == "/bin/bash"@,
        default_shell_spec(TargetOs::Other, probe) == "sh"@,
{
    let c = seq![probe.pwsh, probe.powershell, probe.comspec];
    assert(c.drop_first() =~= seq![probe.powershell, probe.comspec]);
    assert(c.drop_first().drop_first() =~= seq![probe.comspec]);
    assert(c.drop_first().drop_first().drop_first() =~= Seq::<Option<String>>::empty());
    assert(seq![probe.shell].drop_first() =~= Seq::<Option<String>>::empty());
    reveal_with_fuel(first_present, 4);
}

/// Where the control socket (or pipe) lives.
pub open spec fn ipc_path_spec(os: TargetOs) -> Seq<char> {
    match os {
        TargetOs::Windows => "\\\\.\\pipe\\alfred"@,
        _ => "/tmp/alfred.sock"@,
    }
}

/// The path of the IPC endpoint: a named pipe on Windows, a Unix socket
/// elsewhere.
pub fn ipc_path(os: TargetOs) -> (path: String)
    ensures
        path@ == ipc_path_spec(os),
{
    match os {
        TargetOs::Windows => String::from_str("\\\\.\\pipe\\alfred"),
        _ => String::from_str("/tmp/alfred.sock"),
    }
}

} // verus!
