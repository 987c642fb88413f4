//! What the window of the graphical client shows.

use vstd::prelude::*;

use crate::client::console;
use crate::client::discovery;
use crate::client::gui;
use crate::client::gui::UsbIpClient;
use crate::client::usbip;
use crate::client::usbip::RemoteDevice;
use crate::net;
use crate::number;
use crate::text;

verus! {

/// How many log lines are shown.
pub const SHOWN_LOG_LINES: usize = 200;

/// A server in the list of servers.
#[derive(Debug)]
pub struct ServerRow {
    pub title: String,
    pub caption: String,
    pub action: String,
}

/// The list of servers.
#[derive(Debug)]
pub struct ServerPanel {
    pub count: String,
    /// What is shown in place of rows.
    pub hint: Option<String>,
    pub rows: Vec<ServerRow>,
}

/// A device in the list of devices.
#[derive(Debug)]
pub struct DeviceRow {
    pub busid: String,
    pub label: String,
    pub checked: bool,
}

/// The list of devices.
#[derive(Debug)]
pub struct DevicePanel {
    pub count: String,
    /// What is shown in place of rows.
    pub hint: Option<String>,
    pub rows: Vec<DeviceRow>,
    /// What is shown beside the button that attaches the selected devices;
    /// without it there is no button.
    pub footer: Option<String>,
}

/// A `ServerRow` as mathematical values.
#[verifier::ext_equal]
pub struct ServerRowView {
    pub title: Seq<char>,
    pub caption: Seq<char>,
    pub action: Seq<char>,
}

/// A `ServerPanel` as mathematical values.
#[verifier::ext_equal]
pub struct ServerPanelView {
    pub count: Seq<char>,
    pub hint: Option<Seq<char>>,
    pub rows: Seq<ServerRowView>,
}

/// A `DeviceRow` as mathematical values.
#[verifier::ext_equal]
pub struct DeviceRowView {
    pub busid: Seq<char>,
    pub label: Seq<char>,
    pub checked: bool,
}

/// A `DevicePanel` as mathematical values.
#[verifier::ext_equal]
pub struct DevicePanelView {
    pub count: Seq<char>,
    pub hint: Option<Seq<char>>,
    pub rows: Seq<DeviceRowView>,
    pub footer: Option<Seq<char>>,
}

impl View for ServerRow {
    type V = ServerRowView;

    open spec fn view(&self) -> ServerRowView {
        ServerRowView { title: self.title@, caption: self.caption@, action: self.action@ }
    }
}

impl View for ServerPanel {
    type V = ServerPanelView;

    open spec fn view(&self) -> ServerPanelView {
        ServerPanelView {
            count: self.count@,
            hint: text::opt_text(self.hint),
            rows: Seq::new(self.rows@.len(), |i: int| self.rows@[i]@),
        }
    }
}

impl View for DeviceRow {
    type V = DeviceRowView;

    open spec fn view(&self) -> DeviceRowView {
        DeviceRowView { busid: self.busid@, label: self.label@, checked: self.checked }
    }
}

impl View for DevicePanel {
    type V = DevicePanelView;

    open spec fn view(&self) -> DevicePanelView {
        DevicePanelView {
            count: self.count@,
            hint: text::opt_text(self.hint),
            rows: Seq::new(self.rows@.len(), |i: int| self.rows@[i]@),
            footer: text::opt_text(self.footer),
        }
    }
}

// ---------------------------------------------------------------------------
// Servers
// ---------------------------------------------------------------------------
/// The row of a server: its address, its name and version, and whether it is
/// the selected one.
pub open spec fn server_row(s: discovery::ServerView, selected: bool) -> ServerRowView {
    ServerRowView {
        title: net::ip_text(s.addr.ip),
        caption: console::text_or(s.info.server_name, "unknown"@) + " · v"@ + console::text_or(
            s.info.version,
            "?"@,
        ),
        action: if selected {
            "已选择"@
        } else {
            "选择"@
        },
    }
}

/// The list of servers: their number and a row for each, or a hint that there
/// are none.
pub open spec fn server_panel_of(c: gui::ClientView) -> ServerPanelView {
    ServerPanelView {
        count: number::decimal(c.servers.len() as int),
        hint: if c.servers.len() == 0 {
            Some("未发现服务端。可点“重新扫描”，或手动添加一个地址。"@)
        } else {
            None
        },
        rows: Seq::new(
            c.servers.len(),
            |i: int| server_row(c.servers[i], c.selected_server == Some(i)),
        ),
    }
}

/// The list of servers.
pub fn server_panel(app: &UsbIpClient) -> (r: ServerPanel)
    ensures
        r@ == server_panel_of(app@),
{
    let ghost sv = app@.servers;
    let n = app.servers.len();
    let mut rows: Vec<ServerRow> = Vec::new();
    let mut i: usize = 0;
    while i < n
        invariant
            n == app.servers@.len(),
            i <= n,
            sv == app@.servers,
            rows@.len() == i,
            forall|j: int|
                0 <= j < i ==> (#[trigger] rows@[j])@ == server_row(
                    sv[j],
                    app@.selected_server == Some(j),
                ),
        decreases n - i,
    {
        let s = &app.servers[i];
        assert(sv[i as int] == s@);
        let mut caption = console::string_or(&s.info.server_name, "unknown");
        caption.append(" · v");
        caption.append(console::string_or(&s.info.version, "?").as_str());
        let selected = match app.selected_server {
            Some(k) => k == i,
            None => false,
        };
        let action = if selected {
            "已选择".to_string()
        } else {
            "选择".to_string()
        };
        rows.push(ServerRow { title: net::ip_string(&s.addr.ip), caption, action });
        i = i + 1;
    }
    let hint = if n == 0 {
        Some("未发现服务端。可点“重新扫描”，或手动添加一个地址。".to_string())
    } else {
        None
    };
    let r = ServerPanel { count: number::decimal_text(n as u64), hint, rows };
    assert(r@ =~= server_panel_of(app@));
    r
}

// ---------------------------------------------------------------------------
// Devices
// ---------------------------------------------------------------------------
/// The label of a device: its bus identifier, what it is, and its vendor and
/// product identifiers, as far as they are known.
pub open spec fn device_label(d: usbip::RemoteDeviceView) -> Seq<char> {
    match d.vidpid {
        Some(vp) => d.busid + "  "@ + d.desc + "  ("@ + vp + ")"@,
        None => if d.desc.len() == 0 {
            d.busid
        } else {
            d.busid + "  "@ + d.desc
        },
    }
}

fn label_text(d: &RemoteDevice) -> (r: String)
    ensures
        r@ == device_label(d@),
{
    let mut s = d.busid.clone();
    match &d.vidpid {
        Some(vp) => {
            s.append("  ");
            s.append(d.desc.as_str());
            s.append("  (");
            s.append(vp.as_str());
            s.append(")");
        },
        None => {
            if !d.desc.as_str().is_empty() {
                s.append("  ");
                s.append(d.desc.as_str());
            }
        },
    }
    s
}

/// How many devices there are, and how many of them are selected.
pub open spec fn device_count(total: int, selected: int) -> Seq<char> {
    if selected == 0 {
        number::decimal(total) + " 个"@
    } else {
        number::decimal(total) + " 个 · 已选 "@ + number::decimal(selected)
    }
}

/// The list of devices: a row for each once a server is selected, or a hint
/// why there are none.
pub open spec fn device_panel_of(c: gui::ClientView) -> DevicePanelView {
    DevicePanelView {
        count: device_count(c.remote.len() as int, c.selected_busids.len() as int),
        hint: if c.selected_server is None {
            Some("先从上面选择一个服务端，然后这里会显示远端可连接的设备。"@)
        } else if c.remote.len() == 0 {
            Some("没有可连接的远端设备。"@)
        } else {
            None
        },
        rows: if c.selected_server is None {
            Seq::empty()
        } else {
            Seq::new(
                c.remote.len(),
                |i: int|
                    DeviceRowView {
                        busid: c.remote[i].busid,
                        label: device_label(c.remote[i]),
                        checked: c.selected_busids.contains(c.remote[i].busid),
                    },
            )
        },
        footer: if c.selected_server is None {
            None
        } else {
            Some("选择设备后点击连接；需要时会弹出 polkit 提权窗口。"@)
        },
    }
}

/// The list of devices.
pub fn device_panel(app: &UsbIpClient) -> (r: DevicePanel)
    ensures
        r@ == device_panel_of(app@),
{
    let ghost want = device_panel_of(app@);
    let n = app.remote.len();
    let chosen = app.selected_busids.len();
    let mut count = number::decimal_text(n as u64);
    if chosen == 0 {
        count.append(" 个");
    } else {
        count.append(" 个 · 已选 ");
        count.append(number::decimal_text(chosen as u64).as_str());
    }
    let mut rows: Vec<DeviceRow> = Vec::new();
    if app.selected_server.is_none() {
        let r = DevicePanel {
            count,
            hint: Some("先从上面选择一个服务端，然后这里会显示远端可连接的设备。".to_string()),
            rows,
            footer: None,
        };
        assert(r@ =~= want);
        return r;
    }
    let mut i: usize = 0;
    while i < n
        invariant
            n == app.remote@.len(),
            i <= n,
            app.selected_server is Some,
            want == device_panel_of(app@),
            rows@.len() == i,
            forall|j: int| 0 <= j < i ==> (#[trigger] rows@[j])@ == want.rows[j],
        decreases n - i,
    {
        let d = &app.remote[i];
        assert(app@.remote[i as int] == d@);
        let row = DeviceRow {
            busid: d.busid.clone(),
            label: label_text(d),
            checked: app.selected_busids.contains(d.busid.as_str()),
        };
        assert(row@ =~= want.rows[i as int]);
        rows.push(row);
        i = i + 1;
    }
    let hint = if n == 0 {
        Some("没有可连接的远端设备。".to_string())
    } else {
        None
    };
    let r = DevicePanel {
        count,
        hint,
        rows,
        footer: Some("选择设备后点击连接；需要时会弹出 polkit 提权窗口。".to_string()),
    };
    assert(r@ =~= want);
    r
}

// ---------------------------------------------------------------------------
// Log
// ---------------------------------------------------------------------------
/// The newest log lines, newest first.
pub open spec fn shown_log(log: Seq<Seq<char>>) -> Seq<Seq<char>> {
    Seq::new(
        if log.len() <= SHOWN_LOG_LINES {
            log.len()
        } else {
            SHOWN_LOG_LINES as nat
        },
        |i: int| log[log.len() - 1 - i],
    )
}

/// The newest log lines, newest first.
pub fn log_panel(app: &UsbIpClient) -> (r: Vec<String>)
    ensures
        text::texts(r@) == shown_log(app@.log),
{
    let n = app.log.len();
    let mut out: Vec<String> = Vec::new();
    let mut i: usize = 0;
    while i < n && i < SHOWN_LOG_LINES
        invariant
            n == app.log@.len(),
            i <= n,
            i <= SHOWN_LOG_LINES,
            out@.len() == i,
            forall|j: int| 0 <= j < i ==> (#[trigger] out@[j])@ == app@.log[n - 1 - j],
        decreases n - i,
    {
        out.push(app.log[n - 1 - i].clone());
        i = i + 1;
    }
    assert(text::texts(out@) =~= shown_log(app@.log));
    out
}

// ---------------------------------------------------------------------------
// What holds of everything that is shown
// ---------------------------------------------------------------------------
/// Every server has a row, in their order, with its address, its name and its
/// version; only the row of the selected server says that it is selected. Where
/// there is no server, a hint says so.
pub proof fn every_server_has_a_row(c: gui::ClientView, i: int)
    ensures
        server_panel_of(c).count == number::decimal(c.servers.len() as int),
        server_panel_of(c).rows.len() == c.servers.len(),
        c.servers.len() > 0 ==> server_panel_of(c).hint is None,
        c.servers.len() == 0 ==> server_panel_of(c).hint == Some(
            "未发现服务端。可点“重新扫描”，或手动添加一个地址。"@,
        ),
        0 <= i < c.servers.len() ==> {
            let row = server_panel_of(c).rows[i];
            let s = c.servers[i];
            &&& row.title == net::ip_text(s.addr.ip)
            &&& row.caption == (if s.info.server_name is Some {
                s.info.server_name->0
            } else {
                "unknown"@
            }) + " · v"@ + (if s.info.version is Some {
                s.info.version->0
            } else {
                "?"@
            })
            &&& c.selected_server == Some(i) ==> row.action == "已选择"@
            &&& c.selected_server != Some(i) ==> row.action == "选择"@
        },
{
}

/// Once a server is selected, every device has a row, in their order, that is
/// checked exactly if the device is among the chosen ones. Before that there is no
/// row and no button, and a hint says why.
pub proof fn every_device_has_a_row(c: gui::ClientView, i: int)
    ensures
        c.selected_server is None ==> {
            let p = device_panel_of(c);
            &&& p.rows.len() == 0
            &&& p.footer is None
            &&& p.hint == Some("先从上面选择一个服务端，然后这里会显示远端可连接的设备。"@)
        },
        c.selected_server is Some ==> {
            let p = device_panel_of(c);
            &&& p.rows.len() == c.remote.len()
            &&& p.footer == Some("选择设备后点击连接；需要时会弹出 polkit 提权窗口。"@)
            &&& c.remote.len() == 0 ==> p.hint == Some("没有可连接的远端设备。"@)
            &&& c.remote.len() > 0 ==> p.hint is None
        },
        c.selected_server is Some && 0 <= i < c.remote.len() ==> {
            let row = device_panel_of(c).rows[i];
            let d = c.remote[i];
            &&& row.busid == d.busid
            &&& row.checked <==> exists|k: int|
                0 <= k < c.selected_busids.len() && #[trigger] c.selected_busids[k] == d.busid
            &&& d.vidpid is Some ==> row.label == d.busid + "  "@ + d.desc + "  ("@ + d.vidpid->0
                + ")"@
            &&& d.vidpid is None && d.desc.len() > 0 ==> row.label == d.busid + "  "@ + d.desc
            &&& d.vidpid is None && d.desc.len() == 0 ==> row.label == d.busid
        },
{
    let chosen = c.selected_busids;
    if c.selected_server is Some && 0 <= i < c.remote.len() {
        let b = c.remote[i].busid;
        if chosen.contains(b) {
            let k = choose|k: int| 0 <= k < chosen.len() && chosen[k] == b;
            assert(chosen[k] == b);
        }
    }
}

/// The count tells how many devices there are, and how many are chosen where
/// any is.
pub proof fn the_count_tells_the_chosen(c: gui::ClientView)
    ensures
        c.selected_busids.len() == 0 ==> device_panel_of(c).count == number::decimal(
            c.remote.len() as int,
        ) + " 个"@,
        c.selected_busids.len() > 0 ==> device_panel_of(c).count == number::decimal(
            c.remote.len() as int,
        ) + " 个 · 已选 "@ + number::decimal(c.selected_busids.len() as int),
{
}

/// The log is shown from the newest line back, up to 200 lines.
pub proof fn the_log_is_shown_newest_first(log: Seq<Seq<char>>, line: Seq<char>, i: int)
    ensures
        shown_log(Seq::empty()) == Seq::<Seq<char>>::empty(),
        shown_log(log).len() <= 200,
        log.len() <= 200 ==> shown_log(log).len() == log.len(),
        log.len() >= 200 ==> shown_log(log).len() == 200,
        shown_log(log.push(line))[0] == line,
        1 <= i < shown_log(log.push(line)).len() ==> shown_log(log.push(line))[i] == shown_log(
            log,
        )[i - 1],
{
}

} // verus!
