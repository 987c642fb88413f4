use usbip_tools::client::attach;
use usbip_tools::client::attach::UsbIp;
use usbip_tools::client::privilege;
use usbip_tools::client::privilege::{Launch, PrivilegeMode, PrivilegedRun, RunStep};
use usbip_tools::client::session::Client;
use usbip_tools::client::usbip;
use usbip_tools::client::usbip::RemoteDevice;
use usbip_tools::failure::Failure;
use usbip_tools::process;
use usbip_tools::process::RunOutcome;

const LISTING: &str = "Exportable USB devices
======================
 - 127.0.0.1
      7-1.3: Areson Technology Corp : unknown product (25A7:FA70)
           : /sys/devices/pci0000:00/usb7/7-1/7-1.3
           : (Defined at Interface level) (00/00/00)

      2-1.6: unknown vendor : unknown product (3346:100c)
           : /sys/devices/pci0000:00/usb2/2-1/2-1.6
           : /proc/none
";

fn vec_of(v: &[&str]) -> Vec<String> {
    v.iter().map(|s| s.to_string()).collect()
}

fn fields(d: &RemoteDevice) -> (&str, &str, Option<&str>, Option<&str>) {
    (&d.busid, &d.desc, d.vidpid.as_deref(), d.sys_path.as_deref())
}

fn finished(success: bool, stdout: &str, stderr: &str) -> RunOutcome {
    RunOutcome::Finished {
        success,
        stdout: stdout.as_bytes().to_vec(),
        stderr: stderr.as_bytes().to_vec(),
    }
}

#[test]
fn header_lines() {
    let d = usbip::parse_device_header_line("2-1.6: unknown vendor : unknown product (3346:100c)").unwrap();
    assert_eq!(fields(&d), ("2-1.6", "unknown vendor : unknown product", Some("3346:100c"), None));
    let d = usbip::parse_device_header_line("- 1-1.2: keyboard").unwrap();
    assert_eq!(fields(&d), ("1-1.2", "keyboard", None, None));
    let d = usbip::parse_device_header_line("busid 1-1.2").unwrap();
    assert_eq!(fields(&d), ("1-1.2", "", None, None));
    let d = usbip::parse_device_header_line("busid 1-1.2 more").unwrap();
    assert_eq!(d.busid, "1-1.2");
    let d = usbip::parse_device_header_line("1-1: a (b) (12ab:34CD)").unwrap();
    assert_eq!(fields(&d), ("1-1", "a (b)", Some("12ab:34cd"), None));
    let d = usbip::parse_device_header_line("1-1: a (12ab:34CD) b").unwrap();
    assert_eq!(fields(&d), ("1-1", "a (12ab:34CD) b", None, None));
    let d = usbip::parse_device_header_line("1-1: a (12a:b34CD)").unwrap();
    assert_eq!(d.vidpid, None);
    let d = usbip::parse_device_header_line("1-1: (12g0:34CD)").unwrap();
    assert_eq!(d.desc, "(12g0:34CD)");
    let d = usbip::parse_device_header_line("1-1: (").unwrap();
    assert_eq!(d.desc, "(");
    let d = usbip::parse_device_header_line("1-1:").unwrap();
    assert_eq!(fields(&d), ("1-1", "", None, None));
    for l in ["", "busid ", "busid a/b", "no colon", ": /sys/x", "a b: c", "设备: x"] {
        assert!(usbip::parse_device_header_line(l).is_none(), "{l}");
    }
}

#[test]
fn bus_identifiers() {
    for s in ["1-1.2", "usb1", "-", "."] {
        assert!(usbip::looks_like_busid(s));
    }
    for s in ["", "1 1", "1:1", "1_1", "é"] {
        assert!(!usbip::looks_like_busid(s));
    }
}

#[test]
fn a_listing_is_read() {
    let v = usbip::parse_devices_from_usbip_list_remote(LISTING);
    let got: Vec<_> = v.iter().map(fields).collect();
    assert_eq!(
        got,
        vec![
            (
                "7-1.3",
                "Areson Technology Corp : unknown product",
                Some("25a7:fa70"),
                Some("/sys/devices/pci0000:00/usb7/7-1/7-1.3")
            ),
            (
                "2-1.6",
                "unknown vendor : unknown product",
                Some("3346:100c"),
                Some("/sys/devices/pci0000:00/usb2/2-1/2-1.6")
            ),
        ]
    );
    assert!(usbip::parse_devices_from_usbip_list_remote("").is_empty());
    assert!(usbip::parse_devices_from_usbip_list_remote(": /sys/a\n").is_empty());
}

#[test]
fn repetitions_are_left_out() {
    let v = usbip::parse_devices_from_usbip_list_remote("1-1: a\n2-1: b\n1-1: c\n: /sys/c\n");
    let got: Vec<_> = v.iter().map(fields).collect();
    assert_eq!(got, vec![("1-1", "a", None, None), ("2-1", "b", None, None)]);
    let v = usbip::parse_devices_from_usbip_list_remote("1-1: a\n: /sys/1\n: /sys/2\n");
    assert_eq!(v[0].sys_path.as_deref(), Some("/sys/2"));
}

#[test]
fn listing_devices_of_a_server() {
    let c = Client::new(PrivilegeMode::GuiPkexec, &vec_of(&["/usr/bin/usbip", "/sbin/usbip"]));
    assert_eq!(c.usb.usbip_bin, "/usr/bin/usbip");
    assert_eq!(c.usb.modprobe_bin, "modprobe");
    assert_eq!(c.usb.list_args("10.0.0.2"), vec_of(&["list", "-r", "10.0.0.2"]));
    let v = c.list_remote_devices(&finished(true, LISTING, "")).unwrap();
    assert_eq!(v.len(), 2);
    let e = c.list_remote_devices(&finished(false, LISTING, "no route")).unwrap_err();
    assert_eq!((e.message.as_str(), e.causes.len()), ("usbip list -r failed: no route", 0));
    let e = c.list_remote_devices(&RunOutcome::NotStarted(Failure::plain("gone"))).unwrap_err();
    assert_eq!((e.message.as_str(), &e.causes), ("usbip list -r", &vec_of(&["gone"])));
    assert_eq!(e.chain(), "usbip list -r: gone");
    let bad = RunOutcome::Finished { success: false, stdout: vec![], stderr: vec![b'a', 0xff, b'b'] };
    assert_eq!(c.list_remote_devices(&bad).unwrap_err().chain(), "usbip list -r failed: a\u{fffd}b");
}

#[test]
fn programs_are_picked_by_place() {
    let u = UsbIp::from_present(&vec_of(&["/sbin/modprobe", "/usr/sbin/usbip", "/usr/bin/usbip"]));
    assert_eq!(u.usbip_bin, "/usr/sbin/usbip");
    assert_eq!(u.modprobe_bin, "/sbin/modprobe");
    let u = UsbIp::from_present(&vec![]);
    assert_eq!(u.usbip_bin, "usbip");
    assert_eq!(attach::usbip_candidates(), vec_of(&["/usr/sbin/usbip", "/usr/bin/usbip", "/sbin/usbip"]));
    assert_eq!(
        attach::modprobe_candidates(),
        vec_of(&["/usr/sbin/modprobe", "/sbin/modprobe", "/usr/bin/modprobe"])
    );
    assert!(attach::is_vhci_loaded(&vec_of(&["/sys/module/vhci-hcd"])));
    assert!(!attach::is_vhci_loaded(&vec_of(&["/sys/module/usbcore"])));
    assert_eq!(attach::vhci_candidates().len(), 3);
}

#[test]
fn attaching_takes_one_run() {
    let u = UsbIp { usbip_bin: "/u".to_string(), modprobe_bin: "/m".to_string() };
    assert_eq!(u.attach_start("h", &vec![], true), None);
    let (_, args) = u.attach_start("h", &vec![], false).unwrap();
    assert_eq!(args.len(), 6);
    let (program, args) = u.attach_start("h", &vec_of(&["1-1", "2-1"]), true).unwrap();
    assert_eq!(program, "/bin/sh");
    assert_eq!(program, attach::SHELL);
    assert_eq!(args[0], "-c");
    assert_eq!(args[1], attach::BATCH_SCRIPT);
    assert_eq!(args[2..], vec_of(&["_", "/m", "/u", "h", "1-1", "2-1"])[..]);
    assert!(attach::BATCH_SCRIPT.starts_with("modprobe=\"$1\"\nusbip=\"$2\"\n"));
    assert!(attach::BATCH_SCRIPT.ends_with("\ndone"));
}

#[test]
fn verdicts_are_read() {
    let out = "noise\nUSBIP_BATCH_OK 1-1\r\n  USBIP_BATCH_FAIL  2-1 \nUSBIP_BATCH_OK\nUSBIP_BATCH_OK 3-1\nUSBIP_BATCH_FAIL 3-1\n";
    let v = attach::attach_verdicts(out, &vec_of(&["2-1", "1-1", "3-1", "4-1"]));
    assert_eq!(v, vec![Some(false), Some(true), Some(false), None]);
    assert_eq!(attach::attach_verdicts("", &vec![]), vec![]);
}

#[test]
fn a_run_is_reported_line_by_line() {
    let c = Client::new(PrivilegeMode::ConsoleSudo, &vec![]);
    let busids = vec_of(&["1-1", "2-1", "3-1"]);
    let out = "USBIP_BATCH_OK 1-1\nUSBIP_BATCH_FAIL 2-1\n";
    let lines = c.attach_many("h", &busids, &finished(true, out, " oops \n")).unwrap();
    assert_eq!(
        lines,
        vec_of(&[
            "attach 成功: h 1-1",
            "attach 失败: h 2-1: usbip attach 返回非零 (oops)",
            "attach 失败: h 3-1: 批处理未返回状态（stdout 中缺少 USBIP_BATCH_* 行） (oops)",
        ])
    );
    let lines = c.attach_many("h", &busids[1..2].to_vec(), &finished(true, out, "\n")).unwrap();
    assert_eq!(lines, vec_of(&["attach 失败: h 2-1: usbip attach 返回非零"]));
    let b = c.attach_batch("h", &busids, &finished(true, out, "x")).unwrap();
    assert_eq!(b.verdicts, vec![Some(true), Some(false), None]);
    assert_eq!(b.complaint, " (x)");
    assert_eq!(attach::batch_report("h", &busids, &b).len(), 3);
}

#[test]
fn a_failed_run_is_reported_as_a_whole() {
    let busids = vec_of(&["1-1"]);
    let con = Client::new(PrivilegeMode::ConsoleSudo, &vec![]);
    let gui = Client::new(PrivilegeMode::GuiPkexec, &vec![]);
    let e = con.attach_many("h", &busids, &finished(false, "", " No Session \n")).unwrap_err();
    assert_eq!(e.message, "usbip attach batch failed (console/sudo) (host=h): No Session");
    assert!(e.causes.is_empty());
    let e = gui.attach_many("h", &busids, &finished(false, "", " No Session \n")).unwrap_err();
    assert!(e
        .message
        .starts_with("usbip attach batch failed (GUI/pkexec) (host=h): No Session（提示：看起来缺少"));
    let e = gui.attach_many("h", &busids, &finished(false, "", "denied")).unwrap_err();
    assert_eq!(e.chain(), "usbip attach batch failed (GUI/pkexec) (host=h): denied");
    let why = privilege::not_started(Launch::Sudo, "/bin/sh -c x", false, &Failure::plain("gone"));
    let e = gui.attach_many("h", &busids, &RunOutcome::NotStarted(why)).unwrap_err();
    assert_eq!(e.message, "usbip attach (batch)");
    assert_eq!(e.causes, vec_of(&["执行失败（sudo）: /bin/sh -c x", "gone"]));
    assert_eq!(e.chain(), "usbip attach (batch): 执行失败（sudo）: /bin/sh -c x: gone");
    let r = attach::read_batch(PrivilegeMode::ConsoleSudo, "h", &busids, false, "", "bad");
    assert_eq!(r.unwrap_err().message, "usbip attach batch failed (console/sudo) (host=h): bad");
}

#[test]
fn hints_go_by_the_lower_case_of_std() {
    let words = [
        "no authentication agent found", "NO SESSION", "Agent", "cannot open DISPLAY", "dİsplay",
        "sessİon", "no sessİon", "AGENT\u{212a}", "displaÝ", "", "other", "agen\u{0307}t", "ΑGENT",
    ];
    for w in words {
        let low = w.to_lowercase();
        let agent = low.contains("no authentication agent found")
            || low.contains("no session")
            || low.contains("agent");
        let display = low.contains("cannot open display") || low.contains("display");
        let hint = attach::pkexec_stderr_hint(w);
        if agent {
            assert!(hint.contains("polkit-kde-agent-1"), "{w}");
        } else if display {
            assert!(hint.contains("DISPLAY/WAYLAND"), "{w}");
        } else {
            assert_eq!(hint, "", "{w}");
        }
    }
}

#[test]
fn reasons() {
    assert_eq!(attach::reason_text(Some(true), " (x)"), "");
    assert_eq!(attach::reason_text(Some(false), " (x)"), "usbip attach 返回非零 (x)");
    assert_eq!(
        attach::reason_text(None, ""),
        "批处理未返回状态（stdout 中缺少 USBIP_BATCH_* 行）"
    );
}

#[test]
fn root_runs_directly() {
    let c = Client::new(PrivilegeMode::GuiPkexec, &vec![]);
    let run = c.start_run(true);
    assert_eq!(run.launch, Launch::Direct);
    let cmd = privilege::launch_command(run.launch, None, "/bin/sh", &vec_of(&["-c", "x"]));
    assert_eq!((cmd.program.as_str(), cmd.session_env), ("/bin/sh", false));
    assert_eq!(cmd.args, vec_of(&["-c", "x"]));
    match run.step(finished(false, "", "e")) {
        RunStep::Done(o) => assert!(!process::has_succeeded(&o)),
        RunStep::Again(_) => panic!("no other way"),
    }
}

#[test]
fn a_desktop_falls_back_to_sudo() {
    let run = PrivilegedRun::start(PrivilegeMode::GuiPkexec, false);
    assert_eq!(run.launch, Launch::Pkexec);
    let cmd = privilege::launch_command(run.launch, Some("/usr/bin/pkexec".to_string()), "/bin/sh", &vec_of(&["-c"]));
    assert_eq!((cmd.program.as_str(), cmd.session_env), ("/usr/bin/pkexec", true));
    assert_eq!(cmd.args, vec_of(&["/bin/sh", "-c"]));
    let next = match run.step(finished(false, "", "first")) {
        RunStep::Again(next) => next,
        RunStep::Done(_) => panic!("a way is left"),
    };
    assert_eq!(next.launch, Launch::SudoKeepEnv);
    let cmd = privilege::launch_command(next.launch, None, "/bin/sh", &vec_of(&["-c"]));
    assert_eq!(cmd.program, "sudo");
    assert_eq!(cmd.args, vec_of(&["-E", "/bin/sh", "-c"]));
    match next.step(finished(false, "", "second")) {
        RunStep::Done(RunOutcome::Finished { stderr, .. }) => assert_eq!(stderr, b"first"),
        _ => panic!("the first failure counts"),
    }
    let run = PrivilegedRun::start(PrivilegeMode::GuiPkexec, false);
    let next = match run.step(RunOutcome::NotStarted(Failure::plain("missing"))) {
        RunStep::Again(next) => next,
        RunStep::Done(_) => panic!("a way is left"),
    };
    match next.step(finished(true, "ok", "")) {
        RunStep::Done(o) => assert!(process::has_succeeded(&o)),
        RunStep::Again(_) => panic!("it worked"),
    }
}

#[test]
fn a_terminal_asks_sudo() {
    let run = PrivilegedRun::start(PrivilegeMode::ConsoleSudo, false);
    assert_eq!(run.launch, Launch::Sudo);
    let cmd = privilege::launch_command(run.launch, None, "/bin/sh", &vec_of(&["-c"]));
    assert_eq!((cmd.program.as_str(), cmd.session_env), ("sudo", false));
    assert_eq!(cmd.args, vec_of(&["/bin/sh", "-c"]));
    match run.step(finished(true, "", "")) {
        RunStep::Done(o) => assert!(process::has_succeeded(&o)),
        RunStep::Again(_) => panic!("it worked"),
    }
    assert_eq!(privilege::launch_command(Launch::Pkexec, None, "x", &vec![]).program, "pkexec");
}

#[test]
fn what_cannot_be_started_is_said() {
    let line = privilege::command_text("/bin/sh", &vec_of(&["-c", "x"]));
    let gone = Failure::plain("gone");
    assert_eq!(line, "/bin/sh -c x");
    assert_eq!(
        privilege::not_started(Launch::Direct, &line, false, &gone).chain(),
        "执行失败: /bin/sh -c x: gone"
    );
    assert_eq!(
        privilege::not_started(Launch::Sudo, &line, false, &gone).chain(),
        "执行失败（sudo）: /bin/sh -c x: gone"
    );
    assert_eq!(
        privilege::not_started(Launch::Pkexec, &line, true, &gone).chain(),
        "执行失败（pkexec）: /bin/sh -c x: gone"
    );
    assert!(privilege::not_started(Launch::Pkexec, &line, false, &gone).chain()
        .starts_with("执行失败（pkexec）: /bin/sh -c x（提示：未找到 pkexec"));
    assert_eq!(privilege::pick_pkexec_bin(&vec_of(&["/bin/pkexec"])).as_deref(), Some("/bin/pkexec"));
    assert_eq!(privilege::pick_pkexec_bin(&vec![]), None);
    assert_eq!(privilege::pkexec_candidates()[0], "/usr/bin/pkexec");
}

#[test]
fn only_session_variables_are_handed_on() {
    let pair = |k: &str, v: &str| (k.to_string(), v.to_string());
    let vars = vec![pair("PATH", "/bin"), pair("DISPLAY", ":0"), pair("LANG", "C"), pair("LANGUAGE", "x")];
    assert_eq!(privilege::apply_desktop_session_env(&vars), vec![pair("DISPLAY", ":0"), pair("LANG", "C")]);
    for k in [
        "DISPLAY", "WAYLAND_DISPLAY", "XDG_RUNTIME_DIR", "DBUS_SESSION_BUS_ADDRESS", "XAUTHORITY",
        "LANG", "LC_ALL", "LC_MESSAGES",
    ] {
        assert!(privilege::is_env_key_allowed(k));
    }
    assert!(!privilege::is_env_key_allowed("display"));
    assert!(!privilege::is_env_key_allowed("LD_PRELOAD"));
}
