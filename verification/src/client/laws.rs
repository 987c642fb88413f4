//! What the client is for, stated over what goes in and what comes out.

use vstd::prelude::*;

use crate::client::attach;
use crate::client::discovery;
use crate::client::discovery::{DiscoveredServer, IfAddr};
use crate::client::privilege;
use crate::client::privilege::{Launch, PrivilegeMode};
use crate::failure;
use crate::net::{IpAddr, SocketAddr};
use crate::process;
use crate::process::RunOutcome;
use crate::text;

verus! {

// ---------------------------------------------------------------------------
// Which programs are run
// ---------------------------------------------------------------------------
/// What is picked is present, is a candidate, and no candidate before it is
/// present; nothing is picked only where no candidate is present.
pub proof fn the_first_present_candidate_is_picked(
    candidates: Seq<Seq<char>>,
    present: Seq<Seq<char>>,
)
    ensures
        match privilege::first_present(candidates, present) {
            Some(p) => exists|k: int|
                #![trigger candidates[k]]
                {
                    &&& 0 <= k < candidates.len()
                    &&& candidates[k] == p
                    &&& present.contains(p)
                    &&& forall|j: int| 0 <= j < k ==> !present.contains(#[trigger] candidates[j])
                },
            None => forall|j: int|
                0 <= j < candidates.len() ==> !present.contains(#[trigger] candidates[j]),
        },
    decreases candidates.len(),
{
    if candidates.len() > 0 {
        if present.contains(candidates[0]) {
            assert(candidates[0] == candidates[0]);
        } else {
            let t = candidates.drop_first();
            the_first_present_candidate_is_picked(t, present);
            match privilege::first_present(t, present) {
                Some(p) => {
                    let k = choose|k: int|
                        #![trigger t[k]]
                        {
                            &&& 0 <= k < t.len()
                            &&& t[k] == p
                            &&& present.contains(p)
                            &&& forall|j: int| 0 <= j < k ==> !present.contains(#[trigger] t[j])
                        };
                    assert(candidates[k + 1] == p);
                    assert forall|j: int| 0 <= j < k + 1 implies !present.contains(
                        #[trigger] candidates[j],
                    ) by {
                        if j > 0 {
                            assert(t[j - 1] == candidates[j]);
                        }
                    }
                },
                None => {
                    assert forall|j: int| 0 <= j < candidates.len() implies !present.contains(
                        #[trigger] candidates[j],
                    ) by {
                        if j > 0 {
                            assert(t[j - 1] == candidates[j]);
                        }
                    }
                },
            }
        }
    }
}

proof fn lemma_first_of_three(
    a: Seq<char>,
    b: Seq<char>,
    c: Seq<char>,
    present: Seq<Seq<char>>,
)
    ensures
        privilege::first_present(seq![a, b, c], present) == (if present.contains(a) {
            Some(a)
        } else if present.contains(b) {
            Some(b)
        } else if present.contains(c) {
            Some(c)
        } else {
            None
        }),
{
    assert(seq![a, b, c].drop_first() =~= seq![b, c]);
    assert(seq![b, c].drop_first() =~= seq![c]);
    assert(seq![c].drop_first() =~= Seq::<Seq<char>>::empty());
    reveal_with_fuel(privilege::first_present, 4);
}

/// Where each program is looked for, and in which order.
pub proof fn programs_are_looked_for_in_order(present: Seq<Seq<char>>)
    ensures
        privilege::first_present(attach::usbip_places(), present) == (if present.contains(
            "/usr/sbin/usbip"@,
        ) {
            Some("/usr/sbin/usbip"@)
        } else if present.contains("/usr/bin/usbip"@) {
            Some("/usr/bin/usbip"@)
        } else if present.contains("/sbin/usbip"@) {
            Some("/sbin/usbip"@)
        } else {
            None
        }),
        privilege::first_present(attach::modprobe_places(), present) == (if present.contains(
            "/usr/sbin/modprobe"@,
        ) {
            Some("/usr/sbin/modprobe"@)
        } else if present.contains("/sbin/modprobe"@) {
            Some("/sbin/modprobe"@)
        } else if present.contains("/usr/bin/modprobe"@) {
            Some("/usr/bin/modprobe"@)
        } else {
            None
        }),
        privilege::first_present(privilege::pkexec_places(), present) == (if present.contains(
            "/usr/bin/pkexec"@,
        ) {
            Some("/usr/bin/pkexec"@)
        } else if present.contains("/bin/pkexec"@) {
            Some("/bin/pkexec"@)
        } else if present.contains("/usr/local/bin/pkexec"@) {
            Some("/usr/local/bin/pkexec"@)
        } else {
            None
        }),
        privilege::first_present(attach::vhci_places(), present) is Some <==> (present.contains(
            "/sys/module/vhci_hcd"@,
        ) || present.contains("/sys/module/vhci-hcd"@) || present.contains(
            "/sys/bus/platform/drivers/vhci_hcd"@,
        )),
{
    lemma_first_of_three(
        "/usr/sbin/usbip"@,
        "/usr/bin/usbip"@,
        "/sbin/usbip"@,
        present,
    );
    lemma_first_of_three(
        "/usr/sbin/modprobe"@,
        "/sbin/modprobe"@,
        "/usr/bin/modprobe"@,
        present,
    );
    lemma_first_of_three(
        "/usr/bin/pkexec"@,
        "/bin/pkexec"@,
        "/usr/local/bin/pkexec"@,
        present,
    );
    lemma_first_of_three(
        "/sys/module/vhci_hcd"@,
        "/sys/module/vhci-hcd"@,
        "/sys/bus/platform/drivers/vhci_hcd"@,
        present,
    );
}

/// A program that was found is run by its path, and by its bare name otherwise.
pub proof fn a_found_program_is_run_by_its_path(path: Seq<char>, name: Seq<char>)
    ensures
        attach::path_or(Some(path), name) == path,
        attach::path_or(None, name) == name,
{
}

// ---------------------------------------------------------------------------
// Rights
// ---------------------------------------------------------------------------
/// Root starts a command as it is; anyone else goes through `pkexec` in a
/// desktop session and through `sudo` on a terminal.
pub proof fn the_first_way_depends_on_who_and_where(mode: PrivilegeMode, root: bool)
    ensures
        privilege::first_launch(mode, root) == Launch::Direct <==> root,
        privilege::first_launch(mode, root) == Launch::Pkexec <==> !root && mode
            == PrivilegeMode::GuiPkexec,
        privilege::first_launch(mode, root) == Launch::Sudo <==> !root && mode
            == PrivilegeMode::ConsoleSudo,
{
}

/// A success ends a run and is what came of it; a failure of anything but
/// `pkexec` ends it too, with the first failure that there was.
pub proof fn a_run_ends_with_its_first_failure(
    run: privilege::PrivilegedRun,
    outcome: RunOutcome,
)
    ensures
        (outcome matches RunOutcome::Finished { success, .. } && success) ==> privilege::step_of(
            run,
            outcome,
        ) == privilege::RunStep::Done(outcome),
        !(outcome matches RunOutcome::Finished { success, .. } && success) ==> match run.launch {
            Launch::Pkexec => privilege::step_of(run, outcome) == privilege::RunStep::Again(
                privilege::PrivilegedRun {
                    launch: Launch::SudoKeepEnv,
                    earlier: Some(outcome),
                },
            ),
            _ => {
                &&& run.earlier is None ==> privilege::step_of(run, outcome)
                    == privilege::RunStep::Done(outcome)
                &&& run.earlier is Some ==> privilege::step_of(run, outcome)
                    == privilege::RunStep::Done(run.earlier->0)
            },
        },
{
}

/// However a command is started, the whole command line ends with the program
/// and its arguments as they are; in front stand `pkexec`, `sudo` or `sudo -E`.
pub proof fn a_command_line_ends_with_the_command(
    l: Launch,
    pkexec: Option<Seq<char>>,
    program: Seq<char>,
    args: Seq<Seq<char>>,
)
    ensures
        ({
            let line = seq![privilege::launch_program(l, pkexec, program)]
                + privilege::launch_args(l, program, args);
            let front = match l {
                Launch::Direct => Seq::<Seq<char>>::empty(),
                Launch::Pkexec => seq![
                    if pkexec is Some {
                        pkexec->0
                    } else {
                        "pkexec"@
                    },
                ],
                Launch::Sudo => seq!["sudo"@],
                Launch::SudoKeepEnv => seq!["sudo"@, "-E"@],
            };
            line == front + seq![program] + args
        }),
{
    let line = seq![privilege::launch_program(l, pkexec, program)] + privilege::launch_args(
        l,
        program,
        args,
    );
    let front = match l {
        Launch::Direct => Seq::<Seq<char>>::empty(),
        Launch::Pkexec => seq![
            if pkexec is Some {
                pkexec->0
            } else {
                "pkexec"@
            },
        ],
        Launch::Sudo => seq!["sudo"@],
        Launch::SudoKeepEnv => seq!["sudo"@, "-E"@],
    };
    assert(line =~= front + seq![program] + args);
}

/// What is said of a command that cannot be started names the way and the
/// command, and where `pkexec` was missing, how to get it.
pub proof fn a_command_that_cannot_start_is_named(cmdline: Seq<char>, found: bool)
    ensures
        privilege::not_started_text(Launch::Direct, cmdline, found) == "执行失败: "@ + cmdline,
        privilege::not_started_text(Launch::Pkexec, cmdline, true) == "执行失败（pkexec）: "@
            + cmdline,
        privilege::not_started_text(Launch::Pkexec, cmdline, false) == "执行失败（pkexec）: "@
            + cmdline
            + "（提示：未找到 pkexec。请安装 polkit/pkexec，例如 Debian/Ubuntu: `sudo apt-get install -y policykit-1`）"@,
        privilege::not_started_text(Launch::Sudo, cmdline, found) == "执行失败（sudo）: "@
            + cmdline,
        privilege::not_started_text(Launch::SudoKeepEnv, cmdline, found) == "执行失败（sudo）: "@
            + cmdline,
{
    assert("执行失败: "@ + cmdline + Seq::<char>::empty() =~= "执行失败: "@ + cmdline);
    assert("执行失败（pkexec）: "@ + cmdline + Seq::<char>::empty() =~= "执行失败（pkexec）: "@
        + cmdline);
    assert("执行失败（sudo）: "@ + cmdline + Seq::<char>::empty() =~= "执行失败（sudo）: "@
        + cmdline);
}

/// The variables of the session are handed on one by one in their order: one
/// more is handed on, as it is, exactly if it has one of eight names.
pub proof fn session_variables_are_handed_on_one_by_one(
    vars: Seq<(Seq<char>, Seq<char>)>,
    key: Seq<char>,
    value: Seq<char>,
)
    ensures
        privilege::session_vars(Seq::empty()) == Seq::<(Seq<char>, Seq<char>)>::empty(),
        privilege::session_vars(vars.push((key, value))) == (if key == "DISPLAY"@ || key
            == "WAYLAND_DISPLAY"@ || key == "XDG_RUNTIME_DIR"@ || key
            == "DBUS_SESSION_BUS_ADDRESS"@ || key == "XAUTHORITY"@ || key == "LANG"@ || key
            == "LC_ALL"@ || key == "LC_MESSAGES"@ {
            privilege::session_vars(vars).push((key, value))
        } else {
            privilege::session_vars(vars)
        }),
{
    assert(vars.push((key, value)).drop_last() =~= vars);
}

/// What a contract says of an environment, it says of its variables.
pub proof fn env_views_show_the_variables(vars: Seq<(String, String)>, i: int)
    requires
        0 <= i < vars.len(),
    ensures
        privilege::env_view(vars).len() == vars.len(),
        privilege::env_view(vars)[i] == (vars[i].0@, vars[i].1@),
{
}

// ---------------------------------------------------------------------------
// Attaching
// ---------------------------------------------------------------------------
/// The shell is handed the script, a name for it, both programs, the host and
/// then each bus identifier, in their order and as they are.
pub proof fn the_script_gets_what_it_names(
    modprobe: Seq<char>,
    usbip: Seq<char>,
    host: Seq<char>,
    busids: Seq<Seq<char>>,
    i: int,
)
    ensures
        attach::SHELL@ == "/bin/sh"@,
        ({
            let args = attach::script_args(modprobe, usbip, host, busids);
            &&& args.len() == busids.len() + 6
            &&& args[0] == "-c"@
            &&& args[1] == r#"modprobe="$1"
usbip="$2"
host="$3"
shift 3
if [ ! -d /sys/module/vhci_hcd ] && [ ! -d /sys/module/vhci-hcd ] && [ ! -d /sys/bus/platform/drivers/vhci_hcd ]; then
  "$modprobe" vhci-hcd 2>/dev/null || true
fi
for b in "$@"; do
  if "$usbip" attach -r "$host" -b "$b"; then
    echo "USBIP_BATCH_OK $b"
  else
    echo "USBIP_BATCH_FAIL $b"
  fi
done"#@
            &&& args[2] == "_"@
            &&& args[3] == modprobe
            &&& args[4] == usbip
            &&& args[5] == host
            &&& 0 <= i < busids.len() ==> args[6 + i] == busids[i]
        }),
{
}

/// A line is a status line exactly if it begins, once it is trimmed, with
/// `USBIP_BATCH_OK ` or `USBIP_BATCH_FAIL `; the device is what follows, trimmed,
/// and it was attached in the first case only.
pub proof fn status_lines_begin_with_a_mark(line: Seq<char>, rest: Seq<char>)
    ensures
        text::trim_of(line) == "USBIP_BATCH_OK "@ + rest ==> attach::status_of(line) == Some(
            (text::trim_of(rest), true),
        ),
        text::trim_of(line) == "USBIP_BATCH_FAIL "@ + rest ==> attach::status_of(line) == Some(
            (text::trim_of(rest), false),
        ),
        attach::status_of(line) is Some ==> text::has_prefix(
            text::trim_of(line),
            "USBIP_BATCH_OK "@,
        ) || text::has_prefix(text::trim_of(line), "USBIP_BATCH_FAIL "@),
{
    reveal_strlit("USBIP_BATCH_OK ");
    reveal_strlit("USBIP_BATCH_FAIL ");
    let t = text::trim_of(line);
    if t == "USBIP_BATCH_OK "@ + rest {
        assert(t.take("USBIP_BATCH_OK "@.len() as int) =~= "USBIP_BATCH_OK "@);
        assert(t.skip("USBIP_BATCH_OK "@.len() as int) =~= rest);
    }
    if t == "USBIP_BATCH_FAIL "@ + rest {
        assert(t[12] == 'F');
        if text::has_prefix(t, "USBIP_BATCH_OK "@) {
            assert(t.take("USBIP_BATCH_OK "@.len() as int)[12] == 'F');
            assert("USBIP_BATCH_OK "@[12] == 'O');
        }
        assert(t.take("USBIP_BATCH_FAIL "@.len() as int) =~= "USBIP_BATCH_FAIL "@);
        assert(t.skip("USBIP_BATCH_FAIL "@.len() as int) =~= rest);
    }
}

/// The verdict on a device is that of the last status line that names it,
/// character for character; without one there is none.
pub proof fn the_verdict_is_that_of_the_last_line(lines: Seq<Seq<char>>, busid: Seq<char>)
    ensures
        match attach::verdict_of(lines, busid) {
            Some(ok) => exists|k: int|
                #![trigger lines[k]]
                {
                    &&& 0 <= k < lines.len()
                    &&& attach::status_of(lines[k]) == Some((busid, ok))
                    &&& forall|j: int|
                        k < j < lines.len() ==> !(attach::status_of(
                            #[trigger] lines[j],
                        ) matches Some((b, _)) && b == busid)
                },
            None => forall|j: int|
                0 <= j < lines.len() ==> !(attach::status_of(#[trigger] lines[j]) matches Some(
                    (b, _),
                ) && b == busid),
        },
    decreases lines.len(),
{
    if lines.len() > 0 {
        let t = lines.drop_last();
        let last = lines.len() - 1;
        assert(lines[last] == lines.last());
        if !(attach::status_of(lines[last]) matches Some((b, _)) && b == busid) {
            the_verdict_is_that_of_the_last_line(t, busid);
            match attach::verdict_of(t, busid) {
                Some(ok) => {
                    let k = choose|k: int|
                        #![trigger t[k]]
                        {
                            &&& 0 <= k < t.len()
                            &&& attach::status_of(t[k]) == Some((busid, ok))
                            &&& forall|j: int|
                                k < j < t.len() ==> !(attach::status_of(
                                    #[trigger] t[j],
                                ) matches Some((b, _)) && b == busid)
                        };
                    assert(lines[k] == t[k]);
                    assert forall|j: int| k < j < lines.len() implies !(attach::status_of(
                        #[trigger] lines[j],
                    ) matches Some((b, _)) && b == busid) by {
                        if j < t.len() {
                            assert(t[j] == lines[j]);
                        }
                    }
                },
                None => {
                    assert forall|j: int| 0 <= j < lines.len() implies !(attach::status_of(
                        #[trigger] lines[j],
                    ) matches Some((b, _)) && b == busid) by {
                        if j < t.len() {
                            assert(t[j] == lines[j]);
                        }
                    }
                },
            }
        }
    }
}

/// Each device has its verdict, in their order.
pub proof fn verdicts_are_in_order(stdout: Seq<char>, busids: Seq<Seq<char>>, i: int)
    requires
        0 <= i < busids.len(),
    ensures
        attach::verdicts_of(stdout, busids).len() == busids.len(),
        attach::verdicts_of(stdout, busids)[i] == attach::verdict_of(
            text::lines_of(stdout),
            busids[i],
        ),
{
}

/// The line for a device says that it was attached exactly if that is its
/// verdict, and else what is known of why it was not.
pub proof fn the_line_of_a_device_tells_its_verdict(
    host: Seq<char>,
    busids: Seq<Seq<char>>,
    verdicts: Seq<Option<bool>>,
    complaint: Seq<char>,
    i: int,
)
    requires
        0 <= i < busids.len(),
        verdicts.len() == busids.len(),
    ensures
        ({
            let line = attach::attach_lines(host, busids, verdicts, complaint)[i];
            match verdicts[i] {
                Some(true) => line == "attach 成功: "@ + host + " "@ + busids[i],
                Some(false) => line == "attach 失败: "@ + host + " "@ + busids[i] + ": "@ + (
                "usbip attach 返回非零"@ + complaint),
                None => line == "attach 失败: "@ + host + " "@ + busids[i] + ": "@ + (
                "批处理未返回状态（stdout 中缺少 USBIP_BATCH_* 行）"@ + complaint),
            }
        }),
        attach::attach_lines(host, busids, verdicts, complaint).len() == busids.len(),
        attach::reason_of(Some(true), complaint) == Seq::<char>::empty(),
        attach::reason_of(Some(false), complaint) == "usbip attach 返回非零"@ + complaint,
        attach::reason_of(None, complaint)
            == "批处理未返回状态（stdout 中缺少 USBIP_BATCH_* 行）"@ + complaint,
{
}

/// A complaint stands in brackets, trimmed; a blank one is passed over.
pub proof fn a_complaint_stands_in_brackets(stderr: Seq<char>)
    ensures
        text::trim_of(stderr).len() == 0 ==> attach::complaint(stderr).len() == 0,
        text::trim_of(stderr).len() > 0 ==> attach::complaint(stderr) == " ("@ + text::trim_of(
            stderr,
        ) + ")"@,
{
}

/// A run is a failure exactly if it did not start or did not succeed. What is
/// said of one that did not succeed names the host and what was complained of;
/// a hint follows only in a desktop session.
pub proof fn a_run_fails_unless_it_succeeds(mode: PrivilegeMode, host: Seq<char>, o: RunOutcome)
    ensures
        attach::batch_failure(mode, host, o) is None <==> (o matches RunOutcome::Finished {
            success,
            ..
        } && success),
        o matches RunOutcome::NotStarted(why) ==> attach::batch_failure(mode, host, o) == Some(
            failure::wrapped_of("usbip attach (batch)"@, why@),
        ),
        o matches RunOutcome::Finished { success, stderr, .. } && !success ==> {
            let said = process::utf8_lossy(o->stderr@);
            attach::batch_failure(mode, host, o) == Some(
                failure::plain_of(
                    if mode == PrivilegeMode::GuiPkexec {
                        "usbip attach batch failed (GUI/pkexec) (host="@ + host + "): "@
                            + text::trim_of(said) + attach::hint_of(said)
                    } else {
                        "usbip attach batch failed (console/sudo) (host="@ + host + "): "@
                            + text::trim_of(said)
                    },
                ),
            )
        },
{
}

proof fn lemma_part_occurs(s: Seq<char>, whole: Seq<char>, a: Seq<char>, p: Seq<char>, b: Seq<char>)
    requires
        whole == a + p + b,
        text::occurs_in(s, whole),
    ensures
        text::occurs_in(s, p),
{
    let i = choose|i: int| #[trigger] text::occurs_at(s, whole, i);
    let k = i + a.len();
    assert(s.subrange(k, k + p.len()) =~= p) by {
        assert(s.subrange(i, i + whole.len()) == whole);
        assert forall|j: int| 0 <= j < p.len() implies s[k + j] == p[j] by {
            assert(s.subrange(i, i + whole.len())[a.len() + j] == whole[a.len() + j]);
        }
    }
    assert(text::occurs_at(s, p, k));
}

/// A hint is given exactly if what was complained of holds, in whatever case,
/// `agent`, `no session` or `display`; the first two lead to the one about the
/// agent, whatever else it holds.
pub proof fn a_hint_is_given_for_a_word(stderr: Seq<char>)
    ensures
        ({
            let low = text::ascii_lower_of(stderr);
            if text::occurs_in(low, "agent"@) || text::occurs_in(low, "no session"@) {
                attach::hint_of(stderr)
                    == "（提示：看起来缺少/未启动 polkit 认证代理。KDE 可安装并启动 polkit agent，例如包 `polkit-kde-agent-1`。）"@
            } else if text::occurs_in(low, "display"@) {
                attach::hint_of(stderr)
                    == "（提示：pkexec 无法连接到图形会话 DISPLAY/WAYLAND。请从桌面会话启动，或检查环境变量/桌面文件 Exec。）"@
            } else {
                attach::hint_of(stderr).len() == 0
            }
        }),
{
    let low = text::ascii_lower_of(stderr);
    if text::occurs_in(low, "no authentication agent found"@) {
        reveal_strlit("no authentication agent found");
        reveal_strlit("agent");
        reveal_strlit("no authentication ");
        reveal_strlit(" found");
        assert("no authentication agent found"@ =~= "no authentication "@ + "agent"@ + " found"@);
        lemma_part_occurs(
            low,
            "no authentication agent found"@,
            "no authentication "@,
            "agent"@,
            " found"@,
        );
    }
    if text::occurs_in(low, "cannot open display"@) {
        reveal_strlit("cannot open display");
        reveal_strlit("cannot open ");
        reveal_strlit("display");
        assert("cannot open display"@ =~= "cannot open "@ + "display"@ + Seq::<char>::empty());
        lemma_part_occurs(
            low,
            "cannot open display"@,
            "cannot open "@,
            "display"@,
            Seq::empty(),
        );
    }
}

// ---------------------------------------------------------------------------
// Finding servers
// ---------------------------------------------------------------------------
/// The interfaces are gone through in their order. An IPv4 interface is asked on
/// its broadcast address unless it lies in 127.0.0.0/8, its mask is empty, or
/// that address is 0.0.0.0; an IPv6 interface is not asked on.
pub proof fn interfaces_are_asked_on_one_by_one(
    ifs: Seq<IfAddr>,
    ip: u32,
    netmask: u32,
    port: u16,
    broadcast: u32,
)
    requires
        broadcast & netmask == ip & netmask,
        broadcast | netmask == 0xffff_ffffu32,
    ensures
        discovery::targets_of(Seq::empty(), port) == Seq::<SocketAddr>::empty(),
        discovery::targets_of(ifs.push(IfAddr::V6), port) == discovery::targets_of(ifs, port),
        discovery::targets_of(ifs.push(IfAddr::V4 { ip, netmask }), port) == (if netmask != 0
            && broadcast != 0 && (ip < 0x7f00_0000 || ip > 0x7fff_ffff) {
            discovery::targets_of(ifs, port).push(
                SocketAddr { ip: IpAddr::V4(broadcast), port },
            )
        } else {
            discovery::targets_of(ifs, port)
        }),
{
    assert(broadcast == ip | !netmask) by (bit_vector)
        requires
            broadcast & netmask == ip & netmask,
            broadcast | netmask == 0xffff_ffffu32,
    ;
    assert(ifs.push(IfAddr::V6).drop_last() =~= ifs);
    assert(ifs.push(IfAddr::V4 { ip, netmask }).drop_last() =~= ifs);
}

/// Targets are in the order of their texts.
pub proof fn targets_are_in_the_order_of_their_texts(v: Seq<SocketAddr>, i: int, j: int)
    requires
        discovery::in_text_order(v),
        0 <= i < j < v.len(),
    ensures
        text::text_less(crate::net::addr_text(v[i]), crate::net::addr_text(v[j])),
{
    assert(discovery::text_before(v[i], v[j]));
    reveal(discovery::text_before);
}

/// Servers in the order of their addresses tell of each address once, and what
/// they tell is what is known of it.
pub proof fn each_address_is_known_once(v: Seq<discovery::ServerView>, i: int, a: SocketAddr)
    requires
        discovery::in_addr_order(v),
        0 <= i < v.len(),
    ensures
        discovery::as_map(v).contains_key(v[i].addr),
        discovery::as_map(v)[v[i].addr] == v[i].info,
        discovery::as_map(v).contains_key(a) <==> exists|k: int|
            0 <= k < v.len() && (#[trigger] v[k]).addr == a,
        forall|j: int| 0 <= j < v.len() && j != i ==> (#[trigger] v[j]).addr != v[i].addr,
{
    let b = v[i].addr;
    assert forall|j: int| 0 <= j < v.len() && j != i implies (#[trigger] v[j]).addr != b by {
        if j < i {
            assert(crate::net::addr_less(v[j].addr, v[i].addr));
        } else {
            assert(crate::net::addr_less(v[i].addr, v[j].addr));
        }
    }
    assert(discovery::as_map(v).contains_key(b));
    let k = choose|k: int| 0 <= k < v.len() && (#[trigger] v[k]).addr == b;
    assert(0 <= k < v.len() && v[k].addr == b);
}

/// What a contract says of a server, it says of its fields.
pub proof fn server_views_show_the_fields(v: Seq<DiscoveredServer>, i: int)
    requires
        0 <= i < v.len(),
    ensures
        discovery::server_views(v).len() == v.len(),
        discovery::server_views(v)[i].addr == v[i].addr,
        discovery::server_views(v)[i].info.server_name == text::opt_text(v[i].info.server_name),
        discovery::server_views(v)[i].info.web_url == text::opt_text(v[i].info.web_url),
        discovery::server_views(v)[i].info.version == text::opt_text(v[i].info.version),
{
}

} // verus!
