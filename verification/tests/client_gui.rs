use usbip_tools::client::discovery::{DiscoverResp, DiscoveredServer};
use usbip_tools::client::gui::{Effect, Msg, UsbIpClient};
use usbip_tools::client::usbip::RemoteDevice;
use usbip_tools::client::view;
use usbip_tools::net::{IpAddr, SocketAddr};

fn server(ip: u32, name: Option<&str>) -> DiscoveredServer {
    DiscoveredServer {
        addr: SocketAddr { ip: IpAddr::V4(ip), port: 3240 },
        info: DiscoverResp {
            server_name: name.map(|s| s.to_string()),
            web_url: None,
            version: None,
        },
    }
}

fn device(busid: &str, desc: &str, vidpid: Option<&str>) -> RemoteDevice {
    RemoteDevice {
        busid: busid.to_string(),
        desc: desc.to_string(),
        vidpid: vidpid.map(|s| s.to_string()),
        sys_path: None,
    }
}

fn with_server() -> UsbIpClient {
    let mut c = UsbIpClient::new();
    c.update(Msg::Discovered(Ok(vec![server(0x0a000001, Some("desk")), server(0x0a000002, None)])));
    c.update(Msg::SelectServer(0));
    c.update(Msg::RemoteDevices(Ok(vec![
        device("1-1", "", None),
        device("1-2", "mouse", None),
        device("1-3", "key", Some("12ab:34cd")),
    ])));
    c
}

fn last(c: &UsbIpClient) -> &str {
    c.log.last().unwrap()
}

#[test]
fn it_starts_by_looking_for_servers() {
    let mut c = UsbIpClient::new();
    assert_eq!(c.status, "启动中…");
    assert_eq!(c.title(), "usbip-client");
    assert!(matches!(c.update(Msg::Start), Effect::Discover));
    assert_eq!(c.status, "扫描局域网 usbip-server…");
    assert_eq!(c.log, vec!["开始 UDP 广播扫描 (USBIP_DISCOVER)"]);
    assert!(matches!(c.update(Msg::Refresh), Effect::Discover));
    assert_eq!(c.status, "重新扫描中…");
    assert_eq!(last(&c), "重新扫描");
}

#[test]
fn found_servers_are_logged_and_the_first_is_selected() {
    let mut c = UsbIpClient::new();
    let e = c.update(Msg::Discovered(Ok(vec![server(0x0a000001, Some("desk")), server(0x0a000002, None)])));
    assert!(matches!(e, Effect::SelectServer(0)));
    assert_eq!(c.status, "发现 2 个服务端");
    assert_eq!(
        c.log,
        vec!["发现: 10.0.0.1 (desk)", "发现: 10.0.0.2 (unknown)", "自动选择第一个服务端并拉取设备列表"]
    );
    match c.update(Msg::SelectServer(0)) {
        Effect::ListDevices(h) => assert_eq!(h, "10.0.0.1"),
        other => panic!("{other:?}"),
    }
    assert_eq!(c.status, "拉取设备列表：10.0.0.1");
    assert_eq!(last(&c), "拉取远端设备列表：server=10.0.0.1");
    assert!(matches!(c.update(Msg::Discovered(Ok(vec![]))), Effect::Nothing));
    assert_eq!(c.status, "发现 0 个服务端");
    assert!(matches!(c.update(Msg::SelectServer(0)), Effect::Nothing));
}

#[test]
fn failures_pop_up() {
    let mut c = UsbIpClient::new();
    c.update(Msg::Discovered(Err(" bad \n".to_string())));
    assert_eq!(c.status, "扫描失败");
    assert_eq!(last(&c), "扫描失败:  bad \n");
    assert_eq!(c.popup.as_deref(), Some("扫描失败\n\nbad"));
    c.update(Msg::DismissPopup);
    assert_eq!(c.popup, None);
    assert!(matches!(c.update(Msg::CopyPopup), Effect::Nothing));
    c.update(Msg::RemoteDevices(Err("  ".to_string())));
    assert_eq!(c.status, "拉取设备失败");
    assert_eq!(c.popup, None);
    c.update(Msg::Attached(Err("x".to_string())));
    assert_eq!(c.status, "attach 失败");
    match c.update(Msg::CopyPopup) {
        Effect::Copy(s) => assert_eq!(s, "attach 失败\n\nx"),
        other => panic!("{other:?}"),
    }
    match c.update(Msg::CopyLog) {
        Effect::Copy(s) => assert_eq!(s, "扫描失败:  bad \n\n拉取设备失败:   \nattach 失败: x"),
        other => panic!("{other:?}"),
    }
}

#[test]
fn servers_are_added_by_hand() {
    let mut c = UsbIpClient::new();
    let ip = IpAddr::V4(0x0a000005);
    let add = |c: &mut UsbIpClient, s: Option<SocketAddr>, i: Option<IpAddr>| {
        c.update(Msg::ManualServerAdd { as_socket: s, as_ip: i })
    };
    assert!(matches!(add(&mut c, None, Some(ip)), Effect::Nothing));
    assert_eq!(last(&c), "手动添加失败：地址为空或无法解析");
    c.update(Msg::ManualServerChanged("  x ".to_string()));
    assert_eq!(c.manual_text(), "x");
    add(&mut c, None, None);
    assert_eq!(last(&c), "手动添加失败：地址为空或无法解析");
    c.update(Msg::ManualServerChanged(" 10.0.0.5 ".to_string()));
    assert_eq!(c.parse_manual_server(None, Some(ip)), Some(SocketAddr { ip, port: 3240 }));
    let with_port = SocketAddr { ip, port: 7 };
    assert_eq!(c.parse_manual_server(Some(with_port), None), Some(with_port));
    assert!(matches!(add(&mut c, None, Some(ip)), Effect::SelectServer(0)));
    assert_eq!(c.status, "服务端列表：1");
    assert_eq!(last(&c), "手动添加服务端：10.0.0.5");
    assert_eq!(c.servers[0].addr.port, 3240);
    assert_eq!(c.servers[0].info.server_name.as_deref(), Some("manual"));
    assert!(matches!(add(&mut c, Some(with_port), None), Effect::Nothing));
    assert_eq!(last(&c), "手动添加：已存在 10.0.0.5");
    assert_eq!(c.servers.len(), 1);
    c.update(Msg::SelectServer(0));
    let other = IpAddr::V4(0x0a000006);
    assert!(matches!(add(&mut c, None, Some(other)), Effect::Nothing));
    assert_eq!(c.servers.len(), 2);
}

#[test]
fn attaching_needs_a_server_and_devices() {
    let mut c = UsbIpClient::new();
    assert!(matches!(c.update(Msg::AttachSelected), Effect::Nothing));
    assert_eq!(last(&c), "未选择服务端");
    let mut c = with_server();
    assert!(matches!(c.update(Msg::AttachSelected), Effect::Nothing));
    assert_eq!(last(&c), "未选择任何设备");
    c.update(Msg::ToggleDevice("1-3".to_string(), true));
    c.update(Msg::ToggleDevice("1-1".to_string(), true));
    c.update(Msg::ToggleDevice("1-1".to_string(), true));
    match c.update(Msg::AttachSelected) {
        Effect::Attach { host, busids } => {
            assert_eq!(host, "10.0.0.1");
            assert_eq!(busids, vec!["1-3", "1-1"]);
        }
        other => panic!("{other:?}"),
    }
    assert_eq!(c.status, "连接所选设备：10.0.0.1");
    assert_eq!(last(&c), "开始 attach：server=10.0.0.1, count=2");
    c.update(Msg::ToggleDevice("1-1".to_string(), false));
    c.update(Msg::ToggleDevice("9-9".to_string(), false));
    assert_eq!(c.selected_busids.to_vec(), vec!["1-3"]);
    c.update(Msg::Discovered(Ok(vec![])));
    assert!(matches!(c.update(Msg::AttachSelected), Effect::Nothing));
    assert_eq!(last(&c), "未选择服务端");
}

#[test]
fn listed_devices_are_counted() {
    let mut c = with_server();
    assert_eq!(c.status, "远端设备：3 个");
    assert_eq!(last(&c), "远端可 attach 设备数量：3");
    c.update(Msg::ToggleDevice("1-1".to_string(), true));
    c.update(Msg::RemoteDevices(Ok(vec![])));
    assert_eq!(c.status, "远端设备：0 个");
    assert_eq!(last(&c), "远端无可 attach 的设备");
    assert_eq!(c.selected_busids.len(), 1);
    c.update(Msg::SelectServer(1));
    assert_eq!(c.selected_busids.len(), 0);
    assert_eq!(c.selected_server, Some(1));
}

#[test]
fn the_newest_failure_of_a_report_pops_up() {
    let mut c = with_server();
    c.update(Msg::Attached(Ok(vec![
        "attach 失败: h 1-1: a".to_string(),
        "attach 失败: h 1-2: b ".to_string(),
        "attach 成功: h 1-3".to_string(),
    ])));
    assert_eq!(c.status, "完成");
    assert_eq!(c.popup.as_deref(), Some("attach 失败\n\nattach 失败: h 1-2: b"));
    c.update(Msg::DismissPopup);
    let ok: Vec<String> = (0..79).map(|i| format!("attach 成功: h {i}")).collect();
    c.update(Msg::Attached(Ok(ok)));
    assert_eq!(c.popup, None);
    let mut c = UsbIpClient::new();
    c.push_log("attach 失败: old".to_string());
    let ok: Vec<String> = (0..79).map(|i| format!("attach 成功: h {i}")).collect();
    c.update(Msg::Attached(Ok(ok)));
    assert_eq!(c.popup.as_deref(), Some("attach 失败\n\nattach 失败: old"));
}

#[test]
fn the_log_stays_short() {
    let mut c = UsbIpClient::new();
    for i in 0..500 {
        c.push_log(format!("{i}"));
    }
    assert_eq!(c.log.len(), 500);
    c.push_log("500".to_string());
    assert_eq!(c.log.len(), 401);
    assert_eq!(c.log[0], "100");
    assert_eq!(last(&c), "500");
    let shown = view::log_panel(&c);
    assert_eq!(shown.len(), 200);
    assert_eq!(shown[0], "500");
    assert_eq!(shown[199], "301");
}

#[test]
fn popups_without_text_are_not_shown() {
    let mut c = UsbIpClient::new();
    c.show_popup("t", " \n");
    assert_eq!(c.popup, None);
    c.show_popup("t", " b ");
    assert_eq!(c.popup.as_deref(), Some("t\n\nb"));
    c.show_popup("u", "");
    assert_eq!(c.popup.as_deref(), Some("t\n\nb"));
    assert_eq!(c.log_text_for_copy(), "");
}

#[test]
fn the_lists_are_shown() {
    let c = UsbIpClient::new();
    let s = view::server_panel(&c);
    assert_eq!(s.count, "0");
    assert_eq!(s.hint.as_deref(), Some("未发现服务端。可点“重新扫描”，或手动添加一个地址。"));
    let d = view::device_panel(&c);
    assert_eq!(d.count, "0 个");
    assert_eq!(d.hint.as_deref(), Some("先从上面选择一个服务端，然后这里会显示远端可连接的设备。"));
    assert_eq!(d.footer, None);
    let mut c = with_server();
    c.update(Msg::ToggleDevice("1-2".to_string(), true));
    let s = view::server_panel(&c);
    assert_eq!((s.count.as_str(), s.hint), ("2", None));
    let rows: Vec<_> = s.rows.iter().map(|r| (r.title.as_str(), r.caption.as_str(), r.action.as_str())).collect();
    assert_eq!(rows, vec![("10.0.0.1", "desk · v?", "已选择"), ("10.0.0.2", "unknown · v?", "选择")]);
    let d = view::device_panel(&c);
    assert_eq!(d.count, "3 个 · 已选 1");
    let rows: Vec<_> = d.rows.iter().map(|r| (r.busid.as_str(), r.label.as_str(), r.checked)).collect();
    assert_eq!(
        rows,
        vec![("1-1", "1-1", false), ("1-2", "1-2  mouse", true), ("1-3", "1-3  key  (12ab:34cd)", false)]
    );
    assert!(d.footer.is_some());
    c.update(Msg::RemoteDevices(Ok(vec![])));
    let d = view::device_panel(&c);
    assert_eq!(d.hint.as_deref(), Some("没有可连接的远端设备。"));
}

#[test]
fn messages_can_be_copied() {
    let m = Msg::Discovered(Ok(vec![server(1, Some("a"))]));
    match m.clone() {
        Msg::Discovered(Ok(v)) => assert_eq!(v[0].info.server_name.as_deref(), Some("a")),
        other => panic!("{other:?}"),
    }
    match Msg::RemoteDevices(Ok(vec![device("1-1", "d", None)])).clone() {
        Msg::RemoteDevices(Ok(v)) => assert_eq!(v[0].desc, "d"),
        other => panic!("{other:?}"),
    }
    match Msg::Attached(Ok(vec!["x".to_string()])).clone() {
        Msg::Attached(Ok(v)) => assert_eq!(v, vec!["x"]),
        other => panic!("{other:?}"),
    }
}
