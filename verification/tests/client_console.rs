use usbip_tools::client::attach::BatchResult;
use usbip_tools::client::console;
use usbip_tools::client::console::{ConsoleAction, HostDevices, ReplAction, ReplState};
use usbip_tools::client::discovery::{DiscoverResp, DiscoveredServer};
use usbip_tools::client::indices;
use usbip_tools::client::usbip::RemoteDevice;
use usbip_tools::failure::Failure;
use usbip_tools::net::{IpAddr, SocketAddr};

fn words(v: &[&str]) -> Vec<String> {
    v.iter().map(|s| s.to_string()).collect()
}

fn device(busid: &str, desc: &str, vidpid: Option<&str>) -> RemoteDevice {
    RemoteDevice {
        busid: busid.to_string(),
        desc: desc.to_string(),
        vidpid: vidpid.map(|s| s.to_string()),
        sys_path: None,
    }
}

fn state() -> ReplState {
    let mut st = ReplState::new();
    let hosts = vec![
        HostDevices {
            host: "10.0.0.1".to_string(),
            devices: Ok(vec![device("1-1", "", None), device("1-2", "mouse", Some("12ab:34cd"))]),
        },
        HostDevices { host: "10.0.0.2".to_string(), devices: Err(Failure::caused("usbip list -r", "no route")) },
        HostDevices { host: "10.0.0.3".to_string(), devices: Ok(vec![device("2-1", "key", None)]) },
    ];
    let warnings = st.refresh_device_list(hosts);
    assert_eq!(warnings, words(&["warning: 10.0.0.2 list failed: usbip list -r: no route"]));
    st
}

fn printed(a: ReplAction) -> Vec<String> {
    match a {
        ReplAction::Print(v) => v,
        other => panic!("{other:?}"),
    }
}

#[test]
fn subcommands() {
    let ask = |v: &[&str]| console::run_console(words(v));
    assert!(matches!(ask(&[]), Ok(ConsoleAction::Repl)));
    assert!(matches!(ask(&["search"]), Ok(ConsoleAction::Search)));
    assert!(matches!(ask(&["s", "x"]), Ok(ConsoleAction::Search)));
    match ask(&["list", "h", "ignored"]) {
        Ok(ConsoleAction::List { host }) => assert_eq!(host, "h"),
        other => panic!("{other:?}"),
    }
    match ask(&["l", "h", "1-1", "1-2"]) {
        Ok(ConsoleAction::Link { host, busids }) => {
            assert_eq!(host, "h");
            assert_eq!(busids, words(&["1-1", "1-2"]));
        }
        other => panic!("{other:?}"),
    }
    assert!(matches!(ask(&["link", "h", "1-1"]), Ok(ConsoleAction::Link { .. })));
    for h in ["help", "-h", "--help"] {
        assert!(matches!(ask(&[h]), Ok(ConsoleAction::Help)));
    }
    assert!(matches!(ask(&["other"]), Ok(ConsoleAction::Repl)));
    assert_eq!(ask(&["list"]).unwrap_err(), "Usage: usbip-client list <host>");
    assert_eq!(ask(&["link"]).unwrap_err(), "Usage: usbip-client link <host> <busid...>");
    assert_eq!(ask(&["link", "h"]).unwrap_err(), "Usage: usbip-client link <host> <busid...>");
    let help = console::print_help();
    assert_eq!(help.len(), 8);
    assert_eq!(help[0], "usbip-client console mode");
    assert_eq!(help[5], "  usbip-client link|l <host> <busid...>");
}

#[test]
fn servers_are_shown() {
    assert_eq!(console::cmd_search(&vec![]), words(&["No usbip-server found"]));
    let server = |ip, name: Option<&str>, version: Option<&str>| DiscoveredServer {
        addr: SocketAddr { ip: IpAddr::V4(ip), port: 3240 },
        info: DiscoverResp {
            server_name: name.map(|s| s.to_string()),
            web_url: None,
            version: version.map(|s| s.to_string()),
        },
    };
    let v = vec![server(0x0a000001, Some("desk"), Some("0.1")), server(0x0a000002, None, None)];
    assert_eq!(
        console::cmd_search(&v),
        words(&["#0 10.0.0.1  name=desk  version=0.1", "#1 10.0.0.2  name=unknown  version=?"])
    );
}

#[test]
fn devices_are_shown() {
    assert_eq!(console::cmd_list(&vec![]), words(&["No devices"]));
    let v = vec![device("1-1", "", None), device("1-2", "mouse", Some("12ab:34cd"))];
    assert_eq!(
        console::cmd_list(&v),
        words(&["1-1  vidpid=-  desc=-", "1-2  vidpid=12ab:34cd  desc=mouse"])
    );
}

#[test]
fn links_are_shown() {
    let r = BatchResult {
        verdicts: vec![Some(true), Some(false), None],
        complaint: " (oops)".to_string(),
    };
    assert_eq!(
        console::cmd_link("h", &words(&["1-1", "1-2", "1-3"]), &r),
        words(&[
            "OK h 1-1",
            "FAIL h 1-2: usbip attach 返回非零 (oops)",
            "FAIL h 1-3: 批处理未返回状态（stdout 中缺少 USBIP_BATCH_* 行） (oops)",
        ])
    );
}

#[test]
fn a_listing_is_numbered() {
    let st = state();
    let got: Vec<_> = st
        .listed
        .iter()
        .map(|d| (d.idx, d.host.as_str(), d.busid.as_str(), d.desc.as_str(), d.vidpid.as_deref()))
        .collect();
    assert_eq!(
        got,
        vec![
            (1, "10.0.0.1", "1-1", "-", None),
            (2, "10.0.0.1", "1-2", "mouse", Some("12ab:34cd")),
            (3, "10.0.0.3", "2-1", "key", None),
        ]
    );
}

#[test]
fn the_table_is_laid_out_as_by_std() {
    assert_eq!(console::display_device_table(&ReplState::new()), words(&["No devices found."]));
    let st = state();
    let rows = console::display_device_table(&st);
    assert_eq!(rows[0], "");
    assert_eq!(rows[1], format!("{:<6} {:<18} {:<10} {:<12} {}", "INDEX", "HOST", "BUSID", "VID:PID", "DESC"));
    assert_eq!(rows[3], format!("{:<6} {:<18} {:<10} {:<12} {}", 2, "10.0.0.1", "1-2", "12ab:34cd", "mouse"));
    assert_eq!(rows.len(), 5);
}

#[test]
fn long_texts_are_shortened() {
    assert_eq!(console::truncate("abcdef", 6), "abcdef");
    assert_eq!(console::truncate("abcdefg", 6), "abcde…");
    assert_eq!(console::truncate("设备设备", 3), "设备…");
    assert_eq!(console::truncate("", 0), "");
    assert_eq!(console::truncate("ab", 1), "…");
}

#[test]
fn index_lists() {
    let ok = |s: &str| indices::parse_index_spec(s).unwrap();
    assert_eq!(ok("1,3-5"), vec![1, 3, 4, 5]);
    assert_eq!(ok("5-3, 4 ,1,,1"), vec![1, 3, 4, 5]);
    assert_eq!(ok(""), Vec::<usize>::new());
    assert_eq!(ok(" , "), Vec::<usize>::new());
    assert_eq!(ok("+2"), vec![2]);
    assert_eq!(ok(" 2 - 3 "), vec![2, 3]);
    let err = |s: &str| indices::parse_index_spec(s).unwrap_err();
    assert_eq!(err("x"), "invalid number: x");
    assert_eq!(err("1,0"), "indices start at 1: 0");
    assert_eq!(err("0-3"), "indices start at 1: 0-3");
    assert_eq!(err("1-"), "invalid range: 1-");
    assert_eq!(err("1-2-3"), "invalid range: 1-2-3");
    assert_eq!(err("1 2"), "invalid number: 1 2");
    assert_eq!(err("99999999999999999999999"), "invalid number: 99999999999999999999999");
}

#[test]
fn lines_of_the_loop() {
    let st = state();
    assert!(matches!(console::run_repl(&st, "  \n"), ReplAction::Nothing));
    for q in ["quit", "exit", "q\n"] {
        assert!(matches!(console::run_repl(&st, q), ReplAction::Quit));
    }
    for h in ["help", "h", "?"] {
        assert_eq!(printed(console::run_repl(&st, h))[0], "Commands:");
    }
    for l in ["list", " l "] {
        assert!(matches!(console::run_repl(&st, l), ReplAction::Refresh));
    }
    assert_eq!(printed(console::run_repl(&st, "foo bar")), words(&["Unknown command: foo"]));
    assert_eq!(
        printed(console::run_repl(&st, "connect")),
        words(&["Usage: connect <indices> (e.g., c 1,3-5)"])
    );
    assert_eq!(printed(console::run_repl(&st, "c x")), words(&["Invalid indices: invalid number: x"]));
    assert_eq!(printed(console::run_repl(&st, "c 9")), words(&["No matching devices."]));
    match console::run_repl(&st, "c 3, 1-2, 7") {
        ReplAction::Connect(v) => {
            let got: Vec<_> = v.iter().map(|d| d.idx).collect();
            assert_eq!(got, vec![1, 2, 3]);
            let batches = console::batches_by_host(&v);
            let got: Vec<_> = batches.iter().map(|b| (b.host.as_str(), b.busids.clone())).collect();
            assert_eq!(
                got,
                vec![("10.0.0.1", words(&["1-1", "1-2"])), ("10.0.0.3", words(&["2-1"]))]
            );
        }
        other => panic!("{other:?}"),
    }
}
