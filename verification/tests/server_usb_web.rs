use usbip_tools::failure::Failure;
use usbip_tools::process::RunOutcome;
use usbip_tools::server::rules::{DeviceFingerprint, MatchSpec, Rule, RuleAction, RulesFile};
use usbip_tools::server::usb;
use usbip_tools::server::usb::{DirEntry, DirListing, PortStatus, UsbIp};
use usbip_tools::server::web;
use usbip_tools::server::web::{ApiError, ManualProgress, ManualStep, UpdateEvent};

fn server() -> UsbIp {
    UsbIp::new("/u".to_string(), "/d".to_string())
}

fn entry(name: &str, is_symlink: bool) -> DirEntry {
    DirEntry { name: name.to_string(), is_symlink }
}

fn finished(success: bool, stdout: &[u8], stderr: &[u8]) -> RunOutcome {
    RunOutcome::Finished { success, stdout: stdout.to_vec(), stderr: stderr.to_vec() }
}

fn device(busid: &str, serial: Option<&str>, class: Option<u8>) -> DeviceFingerprint {
    DeviceFingerprint {
        busid: busid.to_string(),
        serial: serial.map(|s| s.to_string()),
        devpath: None,
        vid: Some(1),
        pid: None,
        manufacturer: None,
        product: None,
        device_class: class,
    }
}

fn rule(id: u128, serial: &str, enabled: bool) -> Rule {
    Rule {
        id,
        enabled,
        note: None,
        match_spec: MatchSpec { serial: Some(serial.to_string()), devpath: None, vid: Some(1), pid: None },
        action: RuleAction::Bind,
    }
}

fn ids(f: &RulesFile) -> Vec<(u128, bool)> {
    f.rules.iter().map(|r| (r.id, r.enabled)).collect()
}

fn parts(e: ApiError) -> (u16, String) {
    (e.status, e.msg)
}

#[test]
fn exportable_devices_are_read() {
    let s = "Exportable USB devices
======================
 - 127.0.0.1
      7-1.3: Areson Technology Corp : unknown product (25a7:fa70)
           : /sys/devices/...
           : (Defined at Interface level) (00/00/00)

      2-1.6: unknown vendor : unknown product (3346:100c)
           : /sys/devices/...
      7-1.3: again
 - host: x
      a-b :c
";
    let set = usb::parse_exportable_busids(s);
    assert_eq!(set.to_vec(), vec!["7-1.3", "2-1.6", "a-b"]);
    assert!(usb::parse_exportable_busids("").is_empty());
}

#[test]
fn exported_devices_are_links() {
    let u = server();
    let dir = DirListing::Entries(vec![
        entry("1-1", true),
        entry("bind", false),
        entry("2-1", false),
        entry("module", true),
        entry("3-1.2", true),
        entry("1-1", true),
    ]);
    assert_eq!(u.exported_busids(&dir).unwrap().to_vec(), vec!["1-1", "3-1.2"]);
    assert!(u.exported_busids(&DirListing::Missing).unwrap().is_empty());
    let e = u.exported_busids(&DirListing::Unreadable("denied".to_string())).unwrap_err();
    assert_eq!((e.message.as_str(), e.causes), ("read usbip-host sysfs", vec!["denied".to_string()]));
    let e = u.exported_busids(&DirListing::EntryFailed("gone".to_string())).unwrap_err();
    assert_eq!((e.message.as_str(), e.causes), ("gone", vec![]));
    assert_eq!(usb::USBIP_HOST_SYSFS, "/sys/bus/usb/drivers/usbip-host");
}

#[test]
fn a_port_is_in_use_unless_it_is_free() {
    let u = server();
    let dir = DirListing::Entries(vec![entry("1-1", true), entry("3-1", true)]);
    let exported = u.exported_busids(&dir).unwrap();
    assert_eq!(u.list_args(), vec!["list", "-r", "127.0.0.1"]);
    let free = u.list_exportable_busids(&finished(true, b" 3-1: x\n", b"")).unwrap();
    let ports = u.port_status(&exported, &free);
    let got: Vec<_> = ports.iter().map(|(b, p)| (b.as_str(), p.in_use, p.remote.is_none())).collect();
    assert_eq!(got, vec![("1-1", true, true), ("3-1", false, true)]);
    assert!(u.list_exportable_busids(&finished(false, b" 3-1: x\n", b"")).unwrap().is_empty());
    let e = u.list_exportable_busids(&RunOutcome::NotStarted(Failure::plain("gone"))).unwrap_err();
    assert_eq!((e.message.as_str(), e.causes), ("run usbip list -r 127.0.0.1", vec!["gone".to_string()]));
    assert!(!PortStatus::default().in_use);
}

#[test]
fn binding_and_unbinding() {
    let u = server();
    assert_eq!(u.bind_args("1-1"), vec!["bind", "-b", "1-1"]);
    assert_eq!(u.unbind_args("1-1"), vec!["unbind", "-b", "1-1"]);
    assert!(u.bind("1-1", &finished(true, b"", b"noise")).is_ok());
    assert!(u.unbind("1-1", &finished(true, b"", b"")).is_ok());
    let e = u.bind("1-1", &finished(false, b"", b"no \xff device\n")).unwrap_err();
    assert_eq!(e.message, "usbip bind failed (busid=1-1): no \u{fffd} device\n");
    let e = u.unbind("1-1", &finished(false, b"", b"x")).unwrap_err();
    assert_eq!(e.message, "usbip unbind failed (busid=1-1): x");
    let e = u.bind("1-1", &RunOutcome::NotStarted(Failure::plain("gone"))).unwrap_err();
    assert_eq!((e.message.as_str(), e.causes), ("run usbip bind", vec!["gone".to_string()]));
    let e = u.unbind("1-1", &RunOutcome::NotStarted(Failure::plain("gone"))).unwrap_err();
    assert_eq!(e.message, "run usbip unbind");
}

#[test]
fn the_daemon_is_started_once() {
    let mut u = server();
    let (program, args) = u.ensure_usbipd_running().unwrap();
    assert_eq!((program.as_str(), args), ("/d", vec!["-D".to_string()]));
    let e = u.usbipd_spawned(Err("gone".to_string())).unwrap_err();
    assert_eq!((e.message.as_str(), e.causes), ("spawn usbipd -D", vec!["gone".to_string()]));
    assert!(u.ensure_usbipd_running().is_some());
    assert!(u.usbipd_spawned(Ok(())).is_ok());
    assert!(u.ensure_usbipd_running().is_none());
    assert_eq!(u.clone().usbip_bin, "/u");
}

#[test]
fn what_is_out_of_use_says_nothing() {
    assert!(!usb::usbip_status_to_in_use("Port in Use"));
    assert!(usb::parse_busids_from_usbip_list(" - busid 1-1").is_empty());
    assert!(usb::parse_port_status("Port 00: <Port in Use>").is_empty());
}

#[test]
fn devices_of_the_pages() {
    let u = server();
    let devices = vec![
        device("usb1", None, Some(9)),
        device("1-1", Some("S"), None),
        device("1-2", None, Some(9)),
        device("1-3", None, Some(0)),
    ];
    let exported = u.exported_busids(&DirListing::Entries(vec![entry("1-1", true)])).unwrap();
    let free = u.list_exportable_busids(&finished(true, b"", b"")).unwrap();
    let ports = u.port_status(&exported, &free);
    let v = web::api_devices(Ok(devices), Ok(exported), Ok(ports)).unwrap();
    let got: Vec<_> = v.iter().map(|d| (d.busid.as_str(), d.exported, d.in_use, d.vid)).collect();
    assert_eq!(got, vec![("1-1", true, true, Some(1)), ("1-3", false, false, Some(1))]);
    assert_eq!(v[0].serial.as_deref(), Some("S"));
    let v = web::api_devices(
        Ok(vec![device("1-1", None, None)]),
        Err(Failure::plain("x")),
        Err(Failure::plain("y")),
    )
    .unwrap();
    assert!(!v[0].exported && !v[0].in_use && v[0].remote.is_none());
    let e = web::api_devices(Err(Failure::caused("enumerate usb devices", "z")), Err(Failure::plain("x")), Ok(vec![]))
        .unwrap_err();
    assert_eq!(parts(e), (500, "enumerate usb devices".to_string()));
    let p = vec![("1-1".to_string(), PortStatus { in_use: false, remote: Some("c".to_string()) })];
    let v = web::api_devices(Ok(vec![device("1-1", None, None)]), Err(Failure::plain("x")), Ok(p)).unwrap();
    assert_eq!(v[0].remote.as_deref(), Some("c"));
}

#[test]
fn a_rule_is_added_for_a_device() {
    let mut f = RulesFile::default();
    let devices = Ok(vec![device("1-1", Some("S"), None), device("2-1", None, None)]);
    web::add_rule_with_id(&mut f, 7, &devices, "1-1", Some("n".to_string())).unwrap();
    web::add_rule_with_id(&mut f, 8, &devices, "1-1", None).unwrap();
    assert_eq!(ids(&f), vec![(7, true), (8, true)]);
    assert_eq!(f.rules[0].match_spec.serial.as_deref(), Some("S"));
    assert_eq!(f.rules[0].note.as_deref(), Some("n"));
    web::api_add_rule_for_busid(&mut f, &devices, "1-1", None).unwrap();
    assert_eq!(uuid::Uuid::from_u128(f.rules[2].id).get_version_num(), 4);
    let e = web::api_add_rule_for_busid(&mut f, &devices, "9-1", None).unwrap_err();
    assert_eq!(parts(e), (400, "device not found".to_string()));
    let e = web::api_add_rule_for_busid(&mut f, &devices, "2-1", None).unwrap_err();
    assert_eq!(parts(e), (400, "device has no stable identifiers".to_string()));
    let e = web::api_add_rule_for_busid(&mut f, &Err(Failure::plain("z")), "1-1", None).unwrap_err();
    assert_eq!(parts(e), (500, "z".to_string()));
    assert_eq!(f.rules.len(), 3);
}

#[test]
fn manual_choices_are_kept() {
    let mut f = RulesFile { rules: vec![rule(1, "S", false), rule(2, "T", true), rule(3, "S", true)] };
    let devices = Ok(vec![device("1-1", Some("S"), None), device("4-1", Some("N"), None)]);
    web::persist_with_id(&mut f, 9, &devices, "1-1", true).unwrap();
    assert_eq!(ids(&f), vec![(1, true), (2, true), (3, true)]);
    assert_eq!(f.rules[0].note.as_deref(), Some("manual"));
    assert!(usb::first_match(&f, &device("8-8", Some("S"), None)).is_some());
    web::persist_with_id(&mut f, 9, &devices, "1-1", false).unwrap();
    assert_eq!(ids(&f), vec![(1, false), (2, true), (3, false)]);
    assert!(usb::first_match(&f, &device("8-8", Some("S"), None)).is_none());
    web::persist_manual_rule(&mut f, &devices, "4-1", false).unwrap();
    assert_eq!(f.rules.len(), 4);
    assert!(!f.rules[3].enabled);
    let e = web::persist_manual_rule(&mut f, &devices, "9-1", true).unwrap_err();
    assert_eq!(parts(e), (400, "device not found".to_string()));
}

#[test]
fn rules_are_switched_and_deleted() {
    let mut f = RulesFile { rules: vec![rule(1, "S", false), rule(2, "T", true), rule(1, "U", false)] };
    web::api_rules_toggle(&mut f, 1, true).unwrap();
    assert_eq!(ids(&f), vec![(1, true), (2, true), (1, false)]);
    let e = web::api_rules_toggle(&mut f, 5, true).unwrap_err();
    assert_eq!(parts(e), (400, "rule not found".to_string()));
    let e = web::api_rules_delete(&mut f, 5).unwrap_err();
    assert_eq!(parts(e), (400, "rule not found".to_string()));
    web::api_rules_delete(&mut f, 1).unwrap();
    assert_eq!(ids(&f), vec![(2, true)]);
}

#[test]
fn rules_are_replaced_once_they_are_stored() {
    let mut f = RulesFile { rules: vec![rule(1, "S", false)] };
    let new_rules = RulesFile { rules: vec![rule(2, "T", true)] };
    let e = web::api_put_rules(&mut f, new_rules.clone(), Err(Failure::caused("write tmp rules", "full"))).unwrap_err();
    assert_eq!(parts(e), (500, "write tmp rules".to_string()));
    assert_eq!(ids(&f), vec![(1, false)]);
    let shown = web::api_put_rules(&mut f, new_rules, Ok(())).unwrap();
    assert_eq!(ids(&shown), vec![(2, true)]);
    assert_eq!(ids(&f), vec![(2, true)]);
    assert_eq!(ids(&web::rules_reply(&f, Ok(())).unwrap()), vec![(2, true)]);
    let e = web::rules_reply(&f, Err(Failure::plain("x"))).unwrap_err();
    assert_eq!(parts(e), (500, "x".to_string()));
    assert!(web::or_internal(Ok(())).is_ok());
    assert_eq!(parts(web::or_internal(Err(Failure::plain("y"))).unwrap_err()), (500, "y".to_string()));
    assert_eq!(parts(ApiError::bad_request("b")), (400, "b".to_string()));
    let names: Vec<_> =
        [UpdateEvent::Udev, UpdateEvent::Rules, UpdateEvent::Bind, UpdateEvent::Unbind, UpdateEvent::Apply]
            .iter()
            .map(|e| e.name())
            .collect();
    assert_eq!(names, vec!["udev", "rules", "bind", "unbind", "apply"]);
}

#[test]
fn the_pages_are_told_of_what_worked() {
    assert_eq!(web::after_change(&Ok(RulesFile::default())), Some(UpdateEvent::Rules));
    assert_eq!(web::after_change(&Err(ApiError::bad_request("x"))), None);
    assert_eq!(web::after_apply(&Ok(())), Some(UpdateEvent::Apply));
    assert_eq!(web::after_apply(&Err(ApiError::internal("x"))), None);
}

#[test]
fn unknown_pages_get_the_index() {
    assert_eq!(web::ui_request("/"), "index.html");
    assert_eq!(web::ui_request(""), "index.html");
    assert_eq!(web::ui_request("//assets/a.js"), "assets/a.js");
    assert_eq!(web::ui_request("/a/"), "a/");
    assert_eq!(web::ui_fallback("a.js", true, false).unwrap(), "a.js");
    assert_eq!(web::ui_fallback("a", false, true).unwrap(), "index.html");
    let e = web::ui_fallback("a", false, false).unwrap_err();
    assert_eq!(parts(e), (500, "ui dist missing index.html".to_string()));
}

#[test]
fn files_bear_their_type_and_age() {
    let h = web::respond_file("index.html");
    assert_eq!((h.content_type.as_str(), h.cache_control.as_str()), ("text/html", "no-cache"));
    let h = web::respond_file("assets/a.css");
    assert_eq!(h.content_type, "text/css");
    assert_eq!(h.cache_control, "public, max-age=31536000, immutable");
    let h = web::respond_file("favicon");
    assert_eq!((h.content_type.as_str(), h.cache_control.as_str()), ("application/octet-stream", "public, max-age=300"));
    assert_eq!(web::respond_file("x/index.html").cache_control, "public, max-age=300");
    assert_eq!(web::file_headers("a", "text/x\n".to_string()).content_type, "application/octet-stream");
    assert_eq!(web::file_headers("a", "text/\u{7f}".to_string()).content_type, "application/octet-stream");
    assert_eq!(web::file_headers("a", "text/x\té".to_string()).content_type, "text/x\té");
}

#[test]
fn a_choice_is_kept_after_the_command() {
    let next = |bind, step| web::manual_next(bind, step, Ok(()));
    assert!(matches!(next(true, ManualStep::Command), ManualProgress::Next(ManualStep::Persist)));
    assert!(matches!(next(true, ManualStep::Persist), ManualProgress::Next(ManualStep::Store)));
    assert!(matches!(next(true, ManualStep::Store), ManualProgress::Done(UpdateEvent::Bind)));
    assert!(matches!(next(false, ManualStep::Store), ManualProgress::Done(UpdateEvent::Unbind)));
    for step in [ManualStep::Command, ManualStep::Persist, ManualStep::Store] {
        match web::manual_next(true, step, Err(ApiError::bad_request("no"))) {
            ManualProgress::Refused(e) => assert_eq!(parts(e), (400, "no".to_string())),
            other => panic!("{other:?}"),
        }
    }
}
