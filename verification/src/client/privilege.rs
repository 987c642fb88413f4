//! Running one command with the rights of root.
//!
//! A client that is not root asks `pkexec` in a desktop session and falls back
//! to `sudo -E` when that is missing or fails; on a terminal it asks `sudo`.

use vstd::prelude::*;

use crate::failure;
use crate::failure::Failure;
use crate::process;
use crate::process::RunOutcome;
use crate::text;

verus! {

/// How a client that is not root gets the rights it needs.
#[derive(Debug, Clone, Copy, PartialEq, Eq, Structural)]
pub enum PrivilegeMode {
    /// In a desktop session: `pkexec`, which opens a dialog.
    GuiPkexec,
    /// On a terminal: `sudo`, which asks for the password there.
    ConsoleSudo,
}

/// One way to start a command.
#[derive(Debug, Clone, Copy, PartialEq, Eq, Structural)]
pub enum Launch {
    /// As it is: the client is root already.
    Direct,
    /// Through `pkexec`, with the variables of the desktop session.
    Pkexec,
    /// Through `sudo`.
    Sudo,
    /// Through `sudo -E`, which keeps the environment.
    SudoKeepEnv,
}

/// A command to run.
#[derive(Debug)]
pub struct CommandLine {
    pub program: String,
    pub args: Vec<String>,
    /// Whether the variables of the desktop session are handed on.
    pub session_env: bool,
}

// ---------------------------------------------------------------------------
// Which way, and which way next
// ---------------------------------------------------------------------------
/// The way to try first.
pub open spec fn first_launch(mode: PrivilegeMode, root: bool) -> Launch {
    if root {
        Launch::Direct
    } else {
        match mode {
            PrivilegeMode::GuiPkexec => Launch::Pkexec,
            PrivilegeMode::ConsoleSudo => Launch::Sudo,
        }
    }
}

/// The way to try when `l` did not succeed.
pub open spec fn fallback_of(l: Launch) -> Option<Launch> {
    match l {
        Launch::Pkexec => Some(Launch::SudoKeepEnv),
        _ => None,
    }
}

/// A command under way: how it is started now, and what came of the way that
/// was tried before.
#[derive(Debug)]
pub struct PrivilegedRun {
    pub launch: Launch,
    pub earlier: Option<RunOutcome>,
}

/// What to do after a run.
#[derive(Debug)]
pub enum RunStep {
    /// Start the command again in another way.
    Again(PrivilegedRun),
    /// This is what came of it.
    Done(RunOutcome),
}

impl PrivilegedRun {
    /// A run that has not been started yet.
    pub fn start(mode: PrivilegeMode, root: bool) -> (r: PrivilegedRun)
        ensures
            r.launch == first_launch(mode, root),
            r.earlier is None,
    {
        let launch = if root {
            Launch::Direct
        } else {
            match mode {
                PrivilegeMode::GuiPkexec => Launch::Pkexec,
                PrivilegeMode::ConsoleSudo => Launch::Sudo,
            }
        };
        PrivilegedRun { launch, earlier: None }
    }

    /// What follows when the current way had this outcome: success ends the
    /// run, a failure leads to the fallback, and a failure without one is
    /// answered with the failure of the preferred way.
    pub fn step(self, outcome: RunOutcome) -> (r: RunStep)
        ensures
            r == step_of(self, outcome),
    {
        if process::has_succeeded(&outcome) {
            return RunStep::Done(outcome);
        }
        match self.launch {
            Launch::Pkexec => RunStep::Again(
                PrivilegedRun { launch: Launch::SudoKeepEnv, earlier: Some(outcome) },
            ),
            _ => match self.earlier {
                Some(first) => RunStep::Done(first),
                None => RunStep::Done(outcome),
            },
        }
    }
}

/// What follows a run with the given outcome.
pub open spec fn step_of(run: PrivilegedRun, outcome: RunOutcome) -> RunStep {
    if process::succeeded(outcome) {
        RunStep::Done(outcome)
    } else {
        match fallback_of(run.launch) {
            Some(l) => RunStep::Again(PrivilegedRun { launch: l, earlier: Some(outcome) }),
            None => RunStep::Done(
                match run.earlier {
                    Some(first) => first,
                    None => outcome,
                },
            ),
        }
    }
}

/// A run ends after the second way at the latest.
pub proof fn at_most_two_ways(mode: PrivilegeMode, root: bool, first: RunOutcome, second: RunOutcome)
    ensures
        ({
            let run = PrivilegedRun { launch: first_launch(mode, root), earlier: None };
            match step_of(run, first) {
                RunStep::Again(next) => step_of(next, second) is Done,
                RunStep::Done(_) => true,
            }
        }),
{
}

/// In a desktop session `pkexec` comes first; when it does not succeed,
/// `sudo -E` follows, whose success counts, and whose failure is answered with
/// what `pkexec` reported.
pub proof fn desktop_falls_back_to_sudo(first: RunOutcome, second: RunOutcome)
    requires
        !process::succeeded(first),
    ensures
        ({
            let run = PrivilegedRun {
                launch: first_launch(PrivilegeMode::GuiPkexec, false),
                earlier: None,
            };
            let next = PrivilegedRun { launch: Launch::SudoKeepEnv, earlier: Some(first) };
            &&& run.launch == Launch::Pkexec
            &&& step_of(run, first) == RunStep::Again(next)
            &&& step_of(next, second) == RunStep::Done(
                if process::succeeded(second) {
                    second
                } else {
                    first
                },
            )
        }),
{
}

// ---------------------------------------------------------------------------
// The command lines
// ---------------------------------------------------------------------------
/// The first of `candidates` that is among `present`.
pub open spec fn first_present(candidates: Seq<Seq<char>>, present: Seq<Seq<char>>) -> Option<
    Seq<char>,
>
    decreases candidates.len(),
{
    if candidates.len() == 0 {
        None
    } else if present.contains(candidates[0]) {
        Some(candidates[0])
    } else {
        first_present(candidates.drop_first(), present)
    }
}

/// Whether `s` is one of the strings.
pub fn is_among(s: &str, all: &Vec<String>) -> (r: bool)
    ensures
        r == text::texts(all@).contains(s@),
{
    let mut i: usize = 0;
    while i < all.len()
        invariant
            i <= all@.len(),
            forall|j: int| 0 <= j < i ==> text::texts(all@)[j] != s@,
        decreases all.len() - i,
    {
        if text::same_text(all[i].as_str(), s) {
            assert(text::texts(all@)[i as int] == s@);
            return true;
        }
        i = i + 1;
    }
    false
}

/// The first of `candidates` that is among `present`.
pub fn pick_present(candidates: &Vec<String>, present: &Vec<String>) -> (r: Option<String>)
    ensures
        text::opt_text(r) == first_present(text::texts(candidates@), text::texts(present@)),
{
    let ghost all = text::texts(candidates@);
    let ghost have = text::texts(present@);
    let mut i: usize = 0;
    assert(all.skip(0) == all);
    while i < candidates.len()
        invariant
            i <= candidates@.len(),
            all == text::texts(candidates@),
            have == text::texts(present@),
            first_present(all, have) == first_present(all.skip(i as int), have),
        decreases candidates.len() - i,
    {
        assert(all.skip(i as int)[0] == candidates@[i as int]@);
        assert(all.skip(i as int).drop_first() == all.skip(i + 1));
        if is_among(candidates[i].as_str(), present) {
            return Some(candidates[i].clone());
        }
        i = i + 1;
    }
    None
}

/// Where `pkexec` is looked for, in this order.
pub open spec fn pkexec_places() -> Seq<Seq<char>> {
    seq!["/usr/bin/pkexec"@, "/bin/pkexec"@, "/usr/local/bin/pkexec"@]
}

/// Where `pkexec` is looked for, in this order.
pub fn pkexec_candidates() -> (r: Vec<String>)
    ensures
        text::texts(r@) == pkexec_places(),
{
    let r = vec![
        "/usr/bin/pkexec".to_string(),
        "/bin/pkexec".to_string(),
        "/usr/local/bin/pkexec".to_string(),
    ];
    assert(text::texts(r@) =~= pkexec_places());
    r
}

/// The `pkexec` to use, given the files that are present.
pub fn pick_pkexec_bin(present: &Vec<String>) -> (r: Option<String>)
    ensures
        text::opt_text(r) == first_present(pkexec_places(), text::texts(present@)),
{
    pick_present(&pkexec_candidates(), present)
}

/// The program that a way of starting runs.
pub open spec fn launch_program(l: Launch, pkexec: Option<Seq<char>>, program: Seq<char>) -> Seq<
    char,
> {
    match l {
        Launch::Direct => program,
        Launch::Pkexec => match pkexec {
            Some(p) => p,
            None => "pkexec"@,
        },
        Launch::Sudo => "sudo"@,
        Launch::SudoKeepEnv => "sudo"@,
    }
}

/// The arguments that a way of starting hands to it.
pub open spec fn launch_args(l: Launch, program: Seq<char>, args: Seq<Seq<char>>) -> Seq<Seq<char>> {
    match l {
        Launch::Direct => args,
        Launch::Pkexec => seq![program] + args,
        Launch::Sudo => seq![program] + args,
        Launch::SudoKeepEnv => seq!["-E"@, program] + args,
    }
}

/// The command that starts `program` with `args` in the given way.
pub fn launch_command(
    l: Launch,
    pkexec: Option<String>,
    program: &str,
    args: &Vec<String>,
) -> (r: CommandLine)
    ensures
        r.program@ == launch_program(l, text::opt_text(pkexec), program@),
        text::texts(r.args@) == launch_args(l, program@, text::texts(args@)),
        r.session_env == (l == Launch::Pkexec),
{
    let mut out: Vec<String> = Vec::new();
    match l {
        Launch::Direct => {},
        Launch::Pkexec | Launch::Sudo => {
            out.push(program.to_string());
            assert(text::texts(out@) =~= seq![program@]);
        },
        Launch::SudoKeepEnv => {
            out.push("-E".to_string());
            out.push(program.to_string());
            assert(text::texts(out@) =~= seq!["-E"@, program@]);
        },
    }
    proof {
        if l == Launch::Direct {
            assert(text::texts(out@) + text::texts(args@) =~= text::texts(args@));
        }
    }
    text::push_all(&mut out, args);
    let prog = match l {
        Launch::Direct => program.to_string(),
        Launch::Pkexec => match pkexec {
            Some(p) => p,
            None => "pkexec".to_string(),
        },
        Launch::Sudo | Launch::SudoKeepEnv => "sudo".to_string(),
    };
    CommandLine { program: prog, args: out, session_env: l == Launch::Pkexec }
}

/// A command line in one string.
pub fn command_text(program: &str, args: &Vec<String>) -> (r: String)
    ensures
        r@ == text::join_of(seq![program@] + text::texts(args@), " "@),
{
    let mut all: Vec<String> = Vec::new();
    all.push(program.to_string());
    assert(text::texts(all@) =~= seq![program@]);
    text::push_all(&mut all, args);
    text::join(&all, " ")
}

/// What is said of a command that cannot be started.
pub open spec fn not_started_text(l: Launch, cmdline: Seq<char>, pkexec_found: bool) -> Seq<char> {
    let head = match l {
        Launch::Direct => "执行失败: "@,
        Launch::Pkexec => "执行失败（pkexec）: "@,
        Launch::Sudo | Launch::SudoKeepEnv => "执行失败（sudo）: "@,
    };
    let hint = if l == Launch::Pkexec && !pkexec_found {
        "（提示：未找到 pkexec。请安装 polkit/pkexec，例如 Debian/Ubuntu: `sudo apt-get install -y policykit-1`）"@
    } else {
        Seq::<char>::empty()
    };
    head + cmdline + hint
}

/// The failure of a command that cannot be started, with what stopped it behind
/// it.
pub fn not_started(l: Launch, cmdline: &str, pkexec_found: bool, cause: &Failure) -> (r: Failure)
    ensures
        r@ == failure::wrapped_of(not_started_text(l, cmdline@, pkexec_found), cause@),
{
    let mut s = match l {
        Launch::Direct => "执行失败: ".to_string(),
        Launch::Pkexec => "执行失败（pkexec）: ".to_string(),
        Launch::Sudo | Launch::SudoKeepEnv => "执行失败（sudo）: ".to_string(),
    };
    s.append(cmdline);
    if l == Launch::Pkexec && !pkexec_found {
        s.append(
            "（提示：未找到 pkexec。请安装 polkit/pkexec，例如 Debian/Ubuntu: `sudo apt-get install -y policykit-1`）",
        );
    } else {
        assert(s@ + Seq::<char>::empty() =~= s@);
    }
    Failure::wrapped(s.as_str(), cause)
}

// ---------------------------------------------------------------------------
// The desktop session
// ---------------------------------------------------------------------------
/// The environment variables that a desktop session needs.
pub open spec fn is_session_key(k: Seq<char>) -> bool {
    ||| k == "DISPLAY"@
    ||| k == "WAYLAND_DISPLAY"@
    ||| k == "XDG_RUNTIME_DIR"@
    ||| k == "DBUS_SESSION_BUS_ADDRESS"@
    ||| k == "XAUTHORITY"@
    ||| k == "LANG"@
    ||| k == "LC_ALL"@
    ||| k == "LC_MESSAGES"@
}

/// Whether an environment variable is handed on to `pkexec`.
pub fn is_env_key_allowed(k: &str) -> (r: bool)
    ensures
        r == is_session_key(k@),
{
    text::same_text(k, "DISPLAY") || text::same_text(k, "WAYLAND_DISPLAY") || text::same_text(
        k,
        "XDG_RUNTIME_DIR",
    ) || text::same_text(k, "DBUS_SESSION_BUS_ADDRESS") || text::same_text(k, "XAUTHORITY")
        || text::same_text(k, "LANG") || text::same_text(k, "LC_ALL") || text::same_text(
        k,
        "LC_MESSAGES",
    )
}

/// An environment as mathematical values.
pub open spec fn env_view(vars: Seq<(String, String)>) -> Seq<(Seq<char>, Seq<char>)> {
    Seq::new(vars.len(), |i: int| (vars[i].0@, vars[i].1@))
}

/// The variables of `vars` that a desktop session needs, in their order.
pub open spec fn session_vars(vars: Seq<(Seq<char>, Seq<char>)>) -> Seq<(Seq<char>, Seq<char>)>
    decreases vars.len(),
{
    if vars.len() == 0 {
        Seq::empty()
    } else if is_session_key(vars.last().0) {
        session_vars(vars.drop_last()).push(vars.last())
    } else {
        session_vars(vars.drop_last())
    }
}

/// The variables that are handed on to `pkexec`.
pub fn apply_desktop_session_env(vars: &Vec<(String, String)>) -> (r: Vec<(String, String)>)
    ensures
        env_view(r@) == session_vars(env_view(vars@)),
{
    let mut out: Vec<(String, String)> = Vec::new();
    let ghost all = env_view(vars@);
    let mut i: usize = 0;
    assert(all.take(0) =~= Seq::<(Seq<char>, Seq<char>)>::empty());
    assert(env_view(out@) =~= Seq::<(Seq<char>, Seq<char>)>::empty());
    while i < vars.len()
        invariant
            i <= vars@.len(),
            all == env_view(vars@),
            env_view(out@) == session_vars(all.take(i as int)),
        decreases vars.len() - i,
    {
        proof {
            let t = all.take(i + 1);
            assert(t.drop_last() =~= all.take(i as int));
            assert(t.last() == all[i as int]);
        }
        let ghost before = out@;
        if is_env_key_allowed(vars[i].0.as_str()) {
            out.push((vars[i].0.clone(), vars[i].1.clone()));
            assert(env_view(out@) =~= env_view(before).push(all[i as int]));
        }
        i = i + 1;
    }
    assert(all.take(all.len() as int) =~= all);
    out
}

} // verus!
