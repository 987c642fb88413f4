//! The state of the graphical client and how it answers to messages.

use vstd::prelude::*;

use crate::client::console;
use crate::client::discovery;
use crate::client::discovery::{DiscoverResp, DiscoveredServer};
use crate::client::usbip;
use crate::client::usbip::RemoteDevice;
use crate::net;
use crate::net::{IpAddr, SocketAddr};
use crate::number;
use crate::text;
use crate::text_set;
use crate::text_set::TextSet;

verus! {

/// How many log lines are kept at most.
pub const LOG_LIMIT: usize = 500;

/// How many of the oldest log lines go when there are too many.
pub const LOG_DROP: usize = 100;

/// How many of the newest log lines are searched for a failure.
pub const FAILURE_WINDOW: usize = 80;

/// The port of a server whose address was entered without one.
pub const DEFAULT_PORT: u16 = 3240;

/// What happens in the client.
#[derive(Debug)]
pub enum Msg {
    Start,
    Refresh,
    Discovered(Result<Vec<DiscoveredServer>, String>),
    ManualServerChanged(String),
    /// The entered address is to be added; how it reads as an address with a
    /// port, and how it reads as one without.
    ManualServerAdd { as_socket: Option<SocketAddr>, as_ip: Option<IpAddr> },
    SelectServer(usize),
    RemoteDevices(Result<Vec<RemoteDevice>, String>),
    ToggleDevice(String, bool),
    AttachSelected,
    Attached(Result<Vec<String>, String>),
    CopyLog,
    DismissPopup,
    CopyPopup,
}

/// What is to be done in answer to a message.
#[derive(Debug)]
pub enum Effect {
    Nothing,
    /// Look for servers; `Discovered` tells the result.
    Discover,
    /// Handle `SelectServer` next.
    SelectServer(usize),
    /// List the devices of a server; `RemoteDevices` tells the result.
    ListDevices(String),
    /// Attach devices of a server; `Attached` tells the result.
    Attach { host: String, busids: Vec<String> },
    /// Put a text into the clipboard.
    Copy(String),
}

/// The state of the client.
#[derive(Debug)]
pub struct UsbIpClient {
    pub status: String,
    pub servers: Vec<DiscoveredServer>,
    pub selected_server: Option<usize>,
    pub remote: Vec<RemoteDevice>,
    pub selected_busids: TextSet,
    pub log: Vec<String>,
    pub manual_server: String,
    pub popup: Option<String>,
}

// ---------------------------------------------------------------------------
// The model
// ---------------------------------------------------------------------------
/// A `Msg` as mathematical values.
pub enum MsgView {
    Start,
    Refresh,
    Discovered(Result<Seq<discovery::ServerView>, Seq<char>>),
    ManualServerChanged(Seq<char>),
    ManualServerAdd { as_socket: Option<SocketAddr>, as_ip: Option<IpAddr> },
    SelectServer(int),
    RemoteDevices(Result<Seq<usbip::RemoteDeviceView>, Seq<char>>),
    ToggleDevice(Seq<char>, bool),
    AttachSelected,
    Attached(Result<Seq<Seq<char>>, Seq<char>>),
    CopyLog,
    DismissPopup,
    CopyPopup,
}

/// An `Effect` as mathematical values.
pub enum EffectView {
    Nothing,
    Discover,
    SelectServer(int),
    ListDevices(Seq<char>),
    Attach { host: Seq<char>, busids: Seq<Seq<char>> },
    Copy(Seq<char>),
}

/// A `UsbIpClient` as mathematical values.
#[verifier::ext_equal]
pub struct ClientView {
    pub status: Seq<char>,
    pub servers: Seq<discovery::ServerView>,
    pub selected_server: Option<int>,
    pub remote: Seq<usbip::RemoteDeviceView>,
    pub selected_busids: Seq<Seq<char>>,
    pub log: Seq<Seq<char>>,
    pub manual_server: Seq<char>,
    pub popup: Option<Seq<char>>,
}

impl View for Msg {
    type V = MsgView;

    open spec fn view(&self) -> MsgView {
        match *self {
            Msg::Start => MsgView::Start,
            Msg::Refresh => MsgView::Refresh,
            Msg::Discovered(r) => MsgView::Discovered(
                match r {
                    Ok(v) => Ok(discovery::server_views(v@)),
                    Err(e) => Err(e@),
                },
            ),
            Msg::ManualServerChanged(s) => MsgView::ManualServerChanged(s@),
            Msg::ManualServerAdd { as_socket, as_ip } => MsgView::ManualServerAdd {
                as_socket,
                as_ip,
            },
            Msg::SelectServer(i) => MsgView::SelectServer(i as int),
            Msg::RemoteDevices(r) => MsgView::RemoteDevices(
                match r {
                    Ok(v) => Ok(usbip::device_views(v@)),
                    Err(e) => Err(e@),
                },
            ),
            Msg::ToggleDevice(b, on) => MsgView::ToggleDevice(b@, on),
            Msg::AttachSelected => MsgView::AttachSelected,
            Msg::Attached(r) => MsgView::Attached(
                match r {
                    Ok(v) => Ok(text::texts(v@)),
                    Err(e) => Err(e@),
                },
            ),
            Msg::CopyLog => MsgView::CopyLog,
            Msg::DismissPopup => MsgView::DismissPopup,
            Msg::CopyPopup => MsgView::CopyPopup,
        }
    }
}

impl Clone for Msg {
    fn clone(&self) -> (r: Msg)
        ensures
            r@ == self@,
    {
        match self {
            Msg::Start => Msg::Start,
            Msg::Refresh => Msg::Refresh,
            Msg::Discovered(Ok(v)) => Msg::Discovered(Ok(discovery::clone_servers(v))),
            Msg::Discovered(Err(e)) => Msg::Discovered(Err(e.clone())),
            Msg::ManualServerChanged(s) => Msg::ManualServerChanged(s.clone()),
            Msg::ManualServerAdd { as_socket, as_ip } => Msg::ManualServerAdd {
                as_socket: *as_socket,
                as_ip: *as_ip,
            },
            Msg::SelectServer(i) => Msg::SelectServer(*i),
            Msg::RemoteDevices(Ok(v)) => Msg::RemoteDevices(Ok(usbip::clone_devices(v))),
            Msg::RemoteDevices(Err(e)) => Msg::RemoteDevices(Err(e.clone())),
            Msg::ToggleDevice(b, on) => Msg::ToggleDevice(b.clone(), *on),
            Msg::AttachSelected => Msg::AttachSelected,
            Msg::Attached(Ok(v)) => Msg::Attached(Ok(text::clone_texts(v))),
            Msg::Attached(Err(e)) => Msg::Attached(Err(e.clone())),
            Msg::CopyLog => Msg::CopyLog,
            Msg::DismissPopup => Msg::DismissPopup,
            Msg::CopyPopup => Msg::CopyPopup,
        }
    }
}

impl View for Effect {
    type V = EffectView;

    open spec fn view(&self) -> EffectView {
        match *self {
            Effect::Nothing => EffectView::Nothing,
            Effect::Discover => EffectView::Discover,
            Effect::SelectServer(i) => EffectView::SelectServer(i as int),
            Effect::ListDevices(h) => EffectView::ListDevices(h@),
            Effect::Attach { host, busids } => EffectView::Attach {
                host: host@,
                busids: text::texts(busids@),
            },
            Effect::Copy(s) => EffectView::Copy(s@),
        }
    }
}

impl View for UsbIpClient {
    type V = ClientView;

    open spec fn view(&self) -> ClientView {
        ClientView {
            status: self.status@,
            servers: discovery::server_views(self.servers@),
            selected_server: match self.selected_server {
                Some(i) => Some(i as int),
                None => None,
            },
            remote: usbip::device_views(self.remote@),
            selected_busids: self.selected_busids.order(),
            log: text::texts(self.log@),
            manual_server: self.manual_server@,
            popup: text::opt_text(self.popup),
        }
    }
}

// ---------------------------------------------------------------------------
// What each message means
// ---------------------------------------------------------------------------
/// The log with one more line; the oldest lines go when it grows too long.
pub open spec fn logged(log: Seq<Seq<char>>, line: Seq<char>) -> Seq<Seq<char>> {
    let l = log.push(line);
    if l.len() > LOG_LIMIT {
        l.skip(LOG_DROP as int)
    } else {
        l
    }
}

/// The log with more lines.
pub open spec fn logged_all(log: Seq<Seq<char>>, lines: Seq<Seq<char>>) -> Seq<Seq<char>>
    decreases lines.len(),
{
    if lines.len() == 0 {
        log
    } else {
        logged(logged_all(log, lines.drop_last()), lines.last())
    }
}

/// The popup after something was to be shown: its title and its trimmed text,
/// unless there is no text.
pub open spec fn popped_up(popup: Option<Seq<char>>, title: Seq<char>, body: Seq<char>) -> Option<
    Seq<char>,
> {
    let b = text::trim_of(body);
    if b.len() == 0 {
        popup
    } else {
        Some(title + "\n\n"@ + b)
    }
}

/// The newest of the last `n` log lines that tells of a failure.
pub open spec fn recent_failure(log: Seq<Seq<char>>, n: int) -> Option<Seq<char>>
    decreases n,
{
    if n <= 0 || log.len() == 0 {
        None
    } else if text::occurs_in(log.last(), "attach 失败"@) {
        Some(log.last())
    } else {
        recent_failure(log.drop_last(), n - 1)
    }
}

/// The log lines for found servers.
pub open spec fn found_lines(servers: Seq<discovery::ServerView>) -> Seq<Seq<char>> {
    Seq::new(
        servers.len(),
        |i: int|
            "发现: "@ + net::ip_text(servers[i].addr.ip) + " ("@ + console::text_or(
                servers[i].info.server_name,
                "unknown"@,
            ) + ")"@,
    )
}

/// The address that was entered: with its port, or with the usual one; none
/// where nothing was entered.
pub open spec fn manual_addr(
    entered: Seq<char>,
    as_socket: Option<SocketAddr>,
    as_ip: Option<IpAddr>,
) -> Option<SocketAddr> {
    if text::trim_of(entered).len() == 0 {
        None
    } else {
        match as_socket {
            Some(a) => Some(a),
            None => match as_ip {
                Some(ip) => Some(SocketAddr { ip, port: DEFAULT_PORT }),
                None => None,
            },
        }
    }
}

/// Some server has this IP address.
pub open spec fn knows_ip(servers: Seq<discovery::ServerView>, ip: IpAddr) -> bool {
    exists|i: int| 0 <= i < servers.len() && (#[trigger] servers[i]).addr.ip == ip
}

/// A server that was entered by hand.
pub open spec fn manual_server(addr: SocketAddr) -> discovery::ServerView {
    discovery::ServerView {
        addr,
        info: discovery::DiscoverRespView {
            server_name: Some("manual"@),
            web_url: None,
            version: None,
        },
    }
}

/// The state with one more log line.
pub open spec fn noted(s: ClientView, line: Seq<char>) -> ClientView {
    ClientView { log: logged(s.log, line), ..s }
}

/// The state after a failure: a status, a log line and a popup.
pub open spec fn failed(s: ClientView, title: Seq<char>, err: Seq<char>) -> ClientView {
    ClientView {
        status: title,
        log: logged(s.log, title + ": "@ + err),
        popup: popped_up(s.popup, title, err),
        ..s
    }
}

/// The state when servers were found, and what follows.
pub open spec fn after_discovered(s: ClientView, servers: Seq<discovery::ServerView>) -> (
    ClientView,
    EffectView,
) {
    let t = ClientView {
        servers,
        status: "发现 "@ + number::decimal(servers.len() as int) + " 个服务端"@,
        log: logged_all(s.log, found_lines(servers)),
        ..s
    };
    if s.selected_server is None && servers.len() > 0 {
        (noted(t, "自动选择第一个服务端并拉取设备列表"@), EffectView::SelectServer(0))
    } else {
        (t, EffectView::Nothing)
    }
}

/// The state when an address was entered by hand, and what follows.
pub open spec fn after_manual_add(s: ClientView, addr: Option<SocketAddr>) -> (
    ClientView,
    EffectView,
) {
    match addr {
        None => (noted(s, "手动添加失败：地址为空或无法解析"@), EffectView::Nothing),
        Some(a) => if knows_ip(s.servers, a.ip) {
            (noted(s, "手动添加：已存在 "@ + net::ip_text(a.ip)), EffectView::Nothing)
        } else {
            let servers = s.servers.push(manual_server(a));
            (
                ClientView {
                    servers,
                    status: "服务端列表："@ + number::decimal(servers.len() as int),
                    log: logged(s.log, "手动添加服务端："@ + net::ip_text(a.ip)),
                    ..s
                },
                if s.selected_server is None {
                    EffectView::SelectServer(0)
                } else {
                    EffectView::Nothing
                },
            )
        },
    }
}

/// The state when a server was selected, and what follows.
pub open spec fn after_select(s: ClientView, idx: int) -> (ClientView, EffectView) {
    if idx < s.servers.len() {
        let host = net::ip_text(s.servers[idx].addr.ip);
        (
            ClientView {
                selected_server: Some(idx),
                remote: Seq::empty(),
                selected_busids: Seq::empty(),
                status: "拉取设备列表："@ + host,
                log: logged(s.log, "拉取远端设备列表：server="@ + host),
                ..s
            },
            EffectView::ListDevices(host),
        )
    } else {
        (s, EffectView::Nothing)
    }
}

/// The state when the devices of the server are known.
pub open spec fn after_devices(s: ClientView, devs: Seq<usbip::RemoteDeviceView>) -> ClientView {
    ClientView {
        remote: devs,
        status: "远端设备："@ + number::decimal(devs.len() as int) + " 个"@,
        log: logged(
            s.log,
            if devs.len() == 0 {
                "远端无可 attach 的设备"@
            } else {
                "远端可 attach 设备数量："@ + number::decimal(devs.len() as int)
            },
        ),
        ..s
    }
}

/// The state when the selected devices are to be attached, and what follows.
pub open spec fn after_attach_request(s: ClientView) -> (ClientView, EffectView) {
    match s.selected_server {
        Some(idx) if idx < s.servers.len() => if s.selected_busids.len() == 0 {
            (noted(s, "未选择任何设备"@), EffectView::Nothing)
        } else {
            let host = net::ip_text(s.servers[idx].addr.ip);
            (
                ClientView {
                    status: "连接所选设备："@ + host,
                    log: logged(
                        s.log,
                        "开始 attach：server="@ + host + ", count="@ + number::decimal(
                            s.selected_busids.len() as int,
                        ),
                    ),
                    ..s
                },
                EffectView::Attach { host, busids: s.selected_busids },
            )
        },
        _ => (noted(s, "未选择服务端"@), EffectView::Nothing),
    }
}

/// The state when attaching ended with a report: a failure among the newest
/// log lines is shown.
pub open spec fn after_attached(s: ClientView, lines: Seq<Seq<char>>) -> ClientView {
    let log = logged_all(s.log, lines);
    ClientView {
        status: "完成"@,
        log,
        popup: match recent_failure(log, FAILURE_WINDOW as int) {
            Some(l) => popped_up(s.popup, "attach 失败"@, l),
            None => s.popup,
        },
        ..s
    }
}

/// The state after a message, and what is to be done.
pub open spec fn updated(s: ClientView, m: MsgView) -> (ClientView, EffectView) {
    match m {
        MsgView::Start => (
            noted(
                ClientView { status: "扫描局域网 usbip-server…"@, ..s },
                "开始 UDP 广播扫描 (USBIP_DISCOVER)"@,
            ),
            EffectView::Discover,
        ),
        MsgView::Refresh => (
            noted(ClientView { status: "重新扫描中…"@, ..s }, "重新扫描"@),
            EffectView::Discover,
        ),
        MsgView::Discovered(Ok(servers)) => after_discovered(s, servers),
        MsgView::Discovered(Err(e)) => (failed(s, "扫描失败"@, e), EffectView::Nothing),
        MsgView::ManualServerChanged(v) => (
            ClientView { manual_server: v, ..s },
            EffectView::Nothing,
        ),
        MsgView::ManualServerAdd { as_socket, as_ip } => after_manual_add(
            s,
            manual_addr(s.manual_server, as_socket, as_ip),
        ),
        MsgView::SelectServer(idx) => after_select(s, idx),
        MsgView::RemoteDevices(Ok(devs)) => (after_devices(s, devs), EffectView::Nothing),
        MsgView::RemoteDevices(Err(e)) => (failed(s, "拉取设备失败"@, e), EffectView::Nothing),
        MsgView::ToggleDevice(b, on) => (
            ClientView {
                selected_busids: if on {
                    text_set::appended(s.selected_busids, b)
                } else {
                    text_set::without(s.selected_busids, b)
                },
                ..s
            },
            EffectView::Nothing,
        ),
        MsgView::AttachSelected => after_attach_request(s),
        MsgView::Attached(Ok(lines)) => (after_attached(s, lines), EffectView::Nothing),
        MsgView::Attached(Err(e)) => (failed(s, "attach 失败"@, e), EffectView::Nothing),
        MsgView::CopyLog => (s, EffectView::Copy(text::join_of(s.log, "\n"@))),
        MsgView::DismissPopup => (ClientView { popup: None, ..s }, EffectView::Nothing),
        MsgView::CopyPopup => (
            s,
            match s.popup {
                Some(p) => EffectView::Copy(p),
                None => EffectView::Nothing,
            },
        ),
    }
}

// ---------------------------------------------------------------------------
// The client
// ---------------------------------------------------------------------------
/// A text with a number behind it.
fn with_number(head: &str, n: usize, tail: &str) -> (r: String)
    ensures
        r@ == head@ + number::decimal(n as int) + tail@,
{
    let mut s = head.to_string();
    s.append(number::decimal_text(n as u64).as_str());
    s.append(tail);
    s
}

impl UsbIpClient {
    /// The selection holds nothing twice and the log is not too long.
    pub open spec fn wf(&self) -> bool {
        self.selected_busids.wf() && self.log@.len() <= LOG_LIMIT
    }

    /// The state at the start; `Start` is to be handled next.
    pub fn new() -> (r: UsbIpClient)
        ensures
            r.wf(),
            r@ == (ClientView {
                status: "启动中…"@,
                servers: Seq::empty(),
                selected_server: None,
                remote: Seq::empty(),
                selected_busids: Seq::empty(),
                log: Seq::empty(),
                manual_server: Seq::empty(),
                popup: None,
            }),
    {
        let r = UsbIpClient {
            status: "启动中…".to_string(),
            servers: Vec::new(),
            selected_server: None,
            remote: Vec::new(),
            selected_busids: TextSet::new(),
            log: Vec::new(),
            manual_server: String::new(),
            popup: None,
        };
        assert(r@ =~= ClientView {
            status: "启动中…"@,
            servers: Seq::empty(),
            selected_server: None,
            remote: Seq::empty(),
            selected_busids: Seq::empty(),
            log: Seq::empty(),
            manual_server: Seq::empty(),
            popup: None,
        });
        r
    }

    /// The title of the window.
    pub fn title(&self) -> (r: String)
        ensures
            r@ == "usbip-client"@,
    {
        "usbip-client".to_string()
    }

    /// Adds a line to the log.
    pub fn push_log(&mut self, s: String)
        requires
            old(self).wf(),
        ensures
            final(self).wf(),
            final(self)@ == noted(old(self)@, s@),
    {
        let ghost before = self@;
        let ghost line = s@;
        self.log.push(s);
        let ghost all = self.log@;
        assert(text::texts(all) =~= before.log.push(line));
        if self.log.len() > LOG_LIMIT {
            let kept = self.log.split_off(LOG_DROP);
            assert(text::texts(kept@) =~= text::texts(all).skip(LOG_DROP as int));
            self.log = kept;
        }
        assert(self@ =~= noted(before, line));
    }

    fn push_lines(&mut self, lines: &Vec<String>)
        requires
            old(self).wf(),
        ensures
            final(self).wf(),
            final(self)@ == (ClientView {
                log: logged_all(old(self)@.log, text::texts(lines@)),
                ..old(self)@
            }),
    {
        let ghost all = text::texts(lines@);
        let ghost start = self@;
        let mut i: usize = 0;
        assert(all.take(0) =~= Seq::<Seq<char>>::empty());
        while i < lines.len()
            invariant
                i <= lines@.len(),
                all == text::texts(lines@),
                self.wf(),
                self@ == (ClientView {
                    log: logged_all(start.log, all.take(i as int)),
                    ..start
                }),
            decreases lines.len() - i,
        {
            proof {
                let t = all.take(i + 1);
                assert(t.drop_last() =~= all.take(i as int));
                assert(t.last() == lines@[i as int]@);
            }
            self.push_log(lines[i].clone());
            i = i + 1;
        }
        assert(all.take(all.len() as int) =~= all);
    }

    /// The log, oldest line first.
    pub fn log_text_for_copy(&self) -> (r: String)
        ensures
            r@ == text::join_of(self@.log, "\n"@),
    {
        text::join(&self.log, "\n")
    }

    /// Shows a popup, unless there is nothing to show.
    pub fn show_popup(&mut self, title: &str, body: &str)
        ensures
            final(self)@ == (ClientView {
                popup: popped_up(old(self)@.popup, title@, body@),
                ..old(self)@
            }),
            old(self).wf() ==> final(self).wf(),
    {
        let cs = text::chars_of(body);
        let b = text::trim(&cs);
        if b.len() == 0 {
            return ;
        }
        let mut s = title.to_string();
        s.append("\n\n");
        s.append(text::string_of(b).as_str());
        self.popup = Some(s);
    }

    /// The entered address without surrounding white space.
    pub fn manual_text(&self) -> (r: String)
        ensures
            r@ == text::trim_of(self@.manual_server),
    {
        let cs = text::chars_of(self.manual_server.as_str());
        text::string_of(text::trim(&cs))
    }

    /// The server that was entered, given how the text reads.
    pub fn parse_manual_server(
        &self,
        as_socket: Option<SocketAddr>,
        as_ip: Option<IpAddr>,
    ) -> (r: Option<SocketAddr>)
        ensures
            r == manual_addr(self@.manual_server, as_socket, as_ip),
    {
        let cs = text::chars_of(self.manual_server.as_str());
        if text::trim(&cs).len() == 0 {
            return None;
        }
        match as_socket {
            Some(a) => Some(a),
            None => match as_ip {
                Some(ip) => Some(SocketAddr { ip, port: DEFAULT_PORT }),
                None => None,
            },
        }
    }

    fn failure(&mut self, title: &str, err: String)
        requires
            old(self).wf(),
        ensures
            final(self).wf(),
            final(self)@ == failed(old(self)@, title@, err@),
    {
        self.status = title.to_string();
        let mut line = title.to_string();
        line.append(": ");
        line.append(err.as_str());
        self.push_log(line);
        self.show_popup(title, err.as_str());
    }

    fn discovered(&mut self, servers: Vec<DiscoveredServer>) -> (r: Effect)
        requires
            old(self).wf(),
        ensures
            final(self).wf(),
            (final(self)@, r@) == after_discovered(
                old(self)@,
                discovery::server_views(servers@),
            ),
    {
        let ghost sv = discovery::server_views(servers@);
        let ghost want = found_lines(sv);
        let mut lines: Vec<String> = Vec::new();
        let mut i: usize = 0;
        while i < servers.len()
            invariant
                i <= servers@.len(),
                sv == discovery::server_views(servers@),
                want == found_lines(sv),
                lines@.len() == i,
                forall|j: int| 0 <= j < i ==> (#[trigger] lines@[j])@ == want[j],
            decreases servers.len() - i,
        {
            assert(sv[i as int] == servers@[i as int]@);
            let mut s = "发现: ".to_string();
            s.append(net::ip_string(&servers[i].addr.ip).as_str());
            s.append(" (");
            s.append(console::string_or(&servers[i].info.server_name, "unknown").as_str());
            s.append(")");
            assert(s@ == want[i as int]);
            lines.push(s);
            i = i + 1;
        }
        assert(text::texts(lines@) =~= want);
        let n = servers.len();
        self.servers = servers;
        self.status = with_number("发现 ", n, " 个服务端");
        self.push_lines(&lines);
        assert(sv.len() == n);
        if self.selected_server.is_none() && n > 0 {
            self.push_log("自动选择第一个服务端并拉取设备列表".to_string());
            return Effect::SelectServer(0);
        }
        Effect::Nothing
    }

    fn manual_add(&mut self, addr: Option<SocketAddr>) -> (r: Effect)
        requires
            old(self).wf(),
        ensures
            final(self).wf(),
            (final(self)@, r@) == after_manual_add(old(self)@, addr),
    {
        let a = match addr {
            Some(a) => a,
            None => {
                self.push_log("手动添加失败：地址为空或无法解析".to_string());
                return Effect::Nothing;
            },
        };
        let ghost sv = self@.servers;
        let ip = net::ip_string(&a.ip);
        let mut i: usize = 0;
        while i < self.servers.len()
            invariant
                *self == *old(self),
                self.wf(),
                sv == self@.servers,
                ip@ == net::ip_text(a.ip),
                addr == Some(a),
                i <= self.servers@.len(),
                forall|j: int| 0 <= j < i ==> (#[trigger] sv[j]).addr.ip != a.ip,
            decreases self.servers.len() - i,
        {
            if self.servers[i].addr.ip == a.ip {
                assert(sv[i as int].addr.ip == a.ip);
                self.push_log(text::cat("手动添加：已存在 ", ip.as_str()));
                return Effect::Nothing;
            }
            i = i + 1;
        }
        self.push_log(text::cat("手动添加服务端：", ip.as_str()));
        let s = DiscoveredServer {
            addr: a,
            info: DiscoverResp {
                server_name: Some("manual".to_string()),
                web_url: None,
                version: None,
            },
        };
        let ghost one = s@;
        self.servers.push(s);
        assert(discovery::server_views(self.servers@) =~= sv.push(one));
        assert(one =~= manual_server(a));
        let n = self.servers.len();
        self.status = text::cat("服务端列表：", number::decimal_text(n as u64).as_str());
        if self.selected_server.is_none() {
            return Effect::SelectServer(0);
        }
        Effect::Nothing
    }

    fn select(&mut self, idx: usize) -> (r: Effect)
        requires
            old(self).wf(),
        ensures
            final(self).wf(),
            (final(self)@, r@) == after_select(old(self)@, idx as int),
    {
        if idx >= self.servers.len() {
            return Effect::Nothing;
        }
        assert(self@.servers[idx as int] == self.servers@[idx as int]@);
        let host = net::ip_string(&self.servers[idx].addr.ip);
        self.selected_server = Some(idx);
        self.remote = Vec::new();
        assert(usbip::device_views(self.remote@) =~= Seq::<usbip::RemoteDeviceView>::empty());
        self.selected_busids.clear();
        self.status = text::cat("拉取设备列表：", host.as_str());
        self.push_log(text::cat("拉取远端设备列表：server=", host.as_str()));
        Effect::ListDevices(host)
    }

    fn devices(&mut self, devs: Vec<RemoteDevice>)
        requires
            old(self).wf(),
        ensures
            final(self).wf(),
            final(self)@ == after_devices(old(self)@, usbip::device_views(devs@)),
    {
        let n = devs.len();
        self.remote = devs;
        self.status = with_number("远端设备：", n, " 个");
        if n == 0 {
            self.push_log("远端无可 attach 的设备".to_string());
        } else {
            self.push_log(
                text::cat("远端可 attach 设备数量：", number::decimal_text(n as u64).as_str()),
            );
        }
    }

    fn attach_request(&mut self) -> (r: Effect)
        requires
            old(self).wf(),
        ensures
            final(self).wf(),
            (final(self)@, r@) == after_attach_request(old(self)@),
            r matches Effect::Attach { host, busids } ==> {
                &&& old(self).selected_server is Some
                &&& old(self).selected_server->0 < old(self).servers@.len()
                &&& host@ == net::ip_text(
                    old(self).servers@[old(self).selected_server->0 as int].addr.ip,
                )
                &&& text::texts(busids@) == old(self).selected_busids.order()
            },
    {
        let idx = match self.selected_server {
            Some(i) => i,
            None => {
                self.push_log("未选择服务端".to_string());
                return Effect::Nothing;
            },
        };
        if idx >= self.servers.len() {
            self.push_log("未选择服务端".to_string());
            return Effect::Nothing;
        }
        if self.selected_busids.is_empty() {
            self.push_log("未选择任何设备".to_string());
            return Effect::Nothing;
        }
        assert(self@.servers[idx as int] == self.servers@[idx as int]@);
        let host = net::ip_string(&self.servers[idx].addr.ip);
        let busids = self.selected_busids.to_vec();
        assert(busids@.len() == text::texts(busids@).len());
        self.status = text::cat("连接所选设备：", host.as_str());
        let mut line = text::cat("开始 attach：server=", host.as_str());
        line.append(", count=");
        line.append(number::decimal_text(busids.len() as u64).as_str());
        self.push_log(line);
        Effect::Attach { host, busids }
    }

    /// The newest of the last log lines that tells of a failure.
    fn find_recent_failure(&self) -> (r: Option<String>)
        ensures
            text::opt_text(r) == recent_failure(self@.log, FAILURE_WINDOW as int),
    {
        let ghost all = self@.log;
        let mut i: usize = self.log.len();
        let mut n: usize = FAILURE_WINDOW;
        assert(all.take(all.len() as int) =~= all);
        while i > 0 && n > 0
            invariant
                i <= self.log@.len(),
                all == self@.log,
                recent_failure(all, FAILURE_WINDOW as int) == recent_failure(
                    all.take(i as int),
                    n as int,
                ),
            decreases i,
        {
            proof {
                let t = all.take(i as int);
                assert(t.last() == self.log@[i - 1]@);
                assert(t.drop_last() =~= all.take(i - 1));
            }
            let cs = text::chars_of(self.log[i - 1].as_str());
            if text::contains_text(&cs, "attach 失败") {
                return Some(self.log[i - 1].clone());
            }
            i = i - 1;
            n = n - 1;
        }
        None
    }

    fn attached(&mut self, lines: &Vec<String>)
        requires
            old(self).wf(),
        ensures
            final(self).wf(),
            final(self)@ == after_attached(old(self)@, text::texts(lines@)),
    {
        self.status = "完成".to_string();
        self.push_lines(lines);
        if let Some(first) = self.find_recent_failure() {
            self.show_popup("attach 失败", first.as_str());
        }
    }

    /// Handles a message; says what is to be done.
    pub fn update(&mut self, message: Msg) -> (r: Effect)
        requires
            old(self).wf(),
        ensures
            final(self).wf(),
            (final(self)@, r@) == updated(old(self)@, message@),
            r matches Effect::Attach { host, busids } ==> {
                &&& old(self).selected_server is Some
                &&& old(self).selected_server->0 < old(self).servers@.len()
                &&& host@ == net::ip_text(
                    old(self).servers@[old(self).selected_server->0 as int].addr.ip,
                )
                &&& text::texts(busids@) == old(self).selected_busids.order()
            },
    {
        match message {
            Msg::Start => {
                self.status = "扫描局域网 usbip-server…".to_string();
                self.push_log("开始 UDP 广播扫描 (USBIP_DISCOVER)".to_string());
                Effect::Discover
            },
            Msg::Refresh => {
                self.status = "重新扫描中…".to_string();
                self.push_log("重新扫描".to_string());
                Effect::Discover
            },
            Msg::Discovered(Ok(servers)) => self.discovered(servers),
            Msg::Discovered(Err(err)) => {
                self.failure("扫描失败", err);
                Effect::Nothing
            },
            Msg::ManualServerChanged(v) => {
                self.manual_server = v;
                Effect::Nothing
            },
            Msg::ManualServerAdd { as_socket, as_ip } => {
                let addr = self.parse_manual_server(as_socket, as_ip);
                self.manual_add(addr)
            },
            Msg::SelectServer(idx) => self.select(idx),
            Msg::RemoteDevices(Ok(devs)) => {
                self.devices(devs);
                Effect::Nothing
            },
            Msg::RemoteDevices(Err(err)) => {
                self.failure("拉取设备失败", err);
                Effect::Nothing
            },
            Msg::ToggleDevice(busid, on) => {
                if on {
                    let _added = self.selected_busids.insert(busid);
                } else {
                    self.selected_busids.remove(busid.as_str());
                }
                Effect::Nothing
            },
            Msg::AttachSelected => self.attach_request(),
            Msg::Attached(Ok(lines)) => {
                self.attached(&lines);
                Effect::Nothing
            },
            Msg::Attached(Err(err)) => {
                self.failure("attach 失败", err);
                Effect::Nothing
            },
            Msg::CopyLog => Effect::Copy(self.log_text_for_copy()),
            Msg::DismissPopup => {
                self.popup = None;
                Effect::Nothing
            },
            Msg::CopyPopup => match &self.popup {
                Some(s) => Effect::Copy(s.clone()),
                None => Effect::Nothing,
            },
        }
    }
}

// ---------------------------------------------------------------------------
// What holds of every message
// ---------------------------------------------------------------------------
/// A new log line comes last, the lines that stay are the newest ones in their
/// order, and a log that was not too long is not too long afterwards.
pub proof fn log_keeps_the_newest_lines(log: Seq<Seq<char>>, line: Seq<char>)
    requires
        log.len() <= LOG_LIMIT,
    ensures
        logged(log, line).len() <= LOG_LIMIT,
        logged(log, line).last() == line,
        exists|n: int|
            #![trigger log.push(line).skip(n)]
            0 <= n <= LOG_DROP && logged(log, line) == log.push(line).skip(n),
{
    let l = log.push(line);
    if l.len() > LOG_LIMIT {
        assert(logged(log, line) == l.skip(LOG_DROP as int));
    } else {
        assert(logged(log, line) =~= l.skip(0));
    }
}

/// Devices are attached only when that is asked for, never of itself: no other
/// message leads to it, and the devices are exactly the selected ones.
pub proof fn only_a_request_attaches(s: ClientView, m: MsgView)
    ensures
        updated(s, m).1 is Attach ==> {
            &&& m is AttachSelected
            &&& s.selected_busids.len() > 0
            &&& updated(s, m).1->busids == s.selected_busids
        },
{
}

/// Selecting a device and taking the selection back leaves everything as it
/// was.
pub proof fn deselecting_undoes_selecting(s: ClientView, busid: Seq<char>)
    requires
        !s.selected_busids.contains(busid),
    ensures
        updated(
            updated(s, MsgView::ToggleDevice(busid, true)).0,
            MsgView::ToggleDevice(busid, false),
        ).0 == s,
{
    let t = s.selected_busids;
    assert forall|i: int| 0 <= i < t.len() implies t[i] != busid by {
        assert(t.contains(t[i]));
    }
    text_set::lemma_without_absent(t, busid);
    assert(t.push(busid).drop_last() =~= t);
}

/// Servers with pairwise different IP addresses.
pub open spec fn distinct_ips(servers: Seq<discovery::ServerView>) -> bool {
    forall|i: int, j: int|
        0 <= i < j < servers.len() ==> (#[trigger] servers[i]).addr.ip != (
        #[trigger] servers[j]).addr.ip
}

/// Adding a server by hand never makes two servers share an IP address.
pub proof fn manual_servers_stay_distinct(
    s: ClientView,
    as_socket: Option<SocketAddr>,
    as_ip: Option<IpAddr>,
)
    requires
        distinct_ips(s.servers),
    ensures
        distinct_ips(updated(s, MsgView::ManualServerAdd { as_socket, as_ip }).0.servers),
{
}

/// A server that becomes selected is one of the list, and with it the devices
/// and the selection of the server before are forgotten.
pub proof fn selecting_starts_afresh(s: ClientView, idx: int)
    requires
        0 <= idx < s.servers.len(),
    ensures
        ({
            let t = updated(s, MsgView::SelectServer(idx)).0;
            &&& t.selected_server == Some(idx)
            &&& t.remote.len() == 0
            &&& t.selected_busids.len() == 0
            &&& t.servers == s.servers
        }),
{
}

/// Whenever a message leads to attaching, a server is selected that stands in
/// the list, and its address is where the devices are attached from. Asking for
/// it leads to attaching whenever such a server and any device are selected.
pub proof fn devices_are_attached_from_the_selected_server(s: ClientView, m: MsgView)
    requires
        s.selected_server matches Some(k) ==> 0 <= k,
    ensures
        updated(s, m).1 is Attach ==> exists|k: int|
            s.selected_server == Some(k) && 0 <= k < s.servers.len() && updated(s, m).1->host
                == net::ip_text((#[trigger] s.servers[k]).addr.ip),
        updated(s, m).1 is Attach <==> {
            &&& m is AttachSelected
            &&& s.selected_server is Some
            &&& s.selected_server->0 < s.servers.len()
            &&& s.selected_busids.len() > 0
        },
{
    if updated(s, m).1 is Attach {
        let k = s.selected_server->0;
        assert(updated(s, m).1->host == net::ip_text(s.servers[k].addr.ip));
    }
}

/// Devices are attached from where they were listed: when a server was selected
/// and devices were chosen, asking for them to be attached leads to the host
/// whose devices were asked for.
pub proof fn devices_are_attached_from_where_they_were_listed(
    s: ClientView,
    idx: int,
    later: ClientView,
)
    requires
        0 <= idx < s.servers.len(),
        later.servers == updated(s, MsgView::SelectServer(idx)).0.servers,
        later.selected_server == updated(s, MsgView::SelectServer(idx)).0.selected_server,
        later.selected_busids.len() > 0,
    ensures
        updated(s, MsgView::SelectServer(idx)).1 is ListDevices,
        updated(s, MsgView::SelectServer(idx)).1->ListDevices_0 == net::ip_text(
            s.servers[idx].addr.ip,
        ),
        updated(later, MsgView::AttachSelected).1 is Attach,
        updated(later, MsgView::AttachSelected).1->host == updated(
            s,
            MsgView::SelectServer(idx),
        ).1->ListDevices_0,
        updated(later, MsgView::AttachSelected).1->busids == later.selected_busids,
{
}

/// A server that is not in the list cannot be selected.
pub proof fn only_listed_servers_are_selected(s: ClientView, idx: int)
    requires
        idx >= s.servers.len(),
    ensures
        updated(s, MsgView::SelectServer(idx)) == (s, EffectView::Nothing),
{
}

/// Servers change only when they were found or one was entered; which is
/// selected, only by selecting; the devices, only by selecting or when they were
/// listed; the chosen devices, only by selecting a server or choosing; what was
/// entered, only by entering; the popup, only by a failure, a report or by
/// dismissing it. Choosing, entering, copying and dismissing leave the log and the
/// status alone.
pub proof fn messages_change_only_what_they_are_about(s: ClientView, m: MsgView)
    ensures
        ({
            let t = updated(s, m).0;
            &&& !(m is Discovered || m is ManualServerAdd) ==> t.servers == s.servers
            &&& !(m is SelectServer) ==> t.selected_server == s.selected_server
            &&& !(m is SelectServer || m is RemoteDevices) ==> t.remote == s.remote
            &&& !(m is SelectServer || m is ToggleDevice) ==> t.selected_busids
                == s.selected_busids
            &&& !(m is ManualServerChanged) ==> t.manual_server == s.manual_server
            &&& !(m is Discovered || m is RemoteDevices || m is Attached || m is DismissPopup)
                ==> t.popup == s.popup
            &&& m is ManualServerChanged || m is ToggleDevice || m is CopyLog || m is DismissPopup
                || m is CopyPopup ==> t.log == s.log && t.status == s.status
        }),
{
}

/// What was found, listed, entered or dismissed is exactly what is there
/// afterwards; where finding or listing failed, everything stays but the report.
pub proof fn results_are_taken_over(
    s: ClientView,
    servers: Seq<discovery::ServerView>,
    devs: Seq<usbip::RemoteDeviceView>,
    entered: Seq<char>,
    err: Seq<char>,
)
    ensures
        updated(s, MsgView::Discovered(Ok(servers))).0.servers == servers,
        updated(s, MsgView::Discovered(Err(err))).0.servers == s.servers,
        updated(s, MsgView::RemoteDevices(Ok(devs))).0.remote == devs,
        updated(s, MsgView::RemoteDevices(Err(err))).0.remote == s.remote,
        updated(s, MsgView::ManualServerChanged(entered)).0.manual_server == entered,
        updated(s, MsgView::DismissPopup).0.popup is None,
        updated(s, MsgView::Discovered(Ok(servers))).0.popup == s.popup,
        updated(s, MsgView::RemoteDevices(Ok(devs))).0.popup == s.popup,
{
}

/// Looking for servers follows the start and a refresh, and nothing else. The
/// first server is selected next exactly if none was selected and servers were
/// found, or one was added by hand.
pub proof fn what_follows_a_message(s: ClientView, m: MsgView)
    ensures
        updated(s, m).1 is Discover <==> m is Start || m is Refresh,
        updated(s, m).1 is ListDevices ==> m is SelectServer,
        updated(s, m).1 is SelectServer ==> updated(s, m).1->SelectServer_0 == 0,
        updated(s, m).1 is SelectServer <==> {
            &&& s.selected_server is None
            &&& (m is Discovered && m->Discovered_0 is Ok && m->Discovered_0->Ok_0.len() > 0) || (
            m is ManualServerAdd && updated(s, m).0.servers.len() > s.servers.len())
        },
        updated(s, m).1 is Copy ==> m is CopyLog || m is CopyPopup,
        updated(s, MsgView::CopyLog).1 == EffectView::Copy(text::join_of(s.log, "\n"@)),
        s.popup is Some ==> updated(s, MsgView::CopyPopup).1 == EffectView::Copy(s.popup->0),
        s.popup is None ==> updated(s, MsgView::CopyPopup).1 is Nothing,
{
}

/// Choosing a device adds it to the chosen ones and taking it back removes it;
/// every other device stays as it was.
pub proof fn choosing_changes_one_device(s: ClientView, b: Seq<char>, other: Seq<char>, on: bool)
    requires
        b != other,
    ensures
        updated(s, MsgView::ToggleDevice(b, on)).0.selected_busids.contains(b) <==> on,
        updated(s, MsgView::ToggleDevice(b, on)).0.selected_busids.contains(other)
            <==> s.selected_busids.contains(other),
{
    let t = s.selected_busids;
    if on {
        text_set::lemma_appended(t, b, b);
        text_set::lemma_appended(t, b, other);
    } else {
        text_set::lemma_without(t, b, b);
        text_set::lemma_without(t, b, other);
    }
}

/// A server that was entered is added at the end unless its IP address is known
/// already, under the name `manual`; its port is the one that was entered, and
/// 3240 where none was. Nothing is added where nothing was entered or what was
/// entered is no address.
pub proof fn an_entered_server_is_added_once(
    s: ClientView,
    as_socket: Option<SocketAddr>,
    as_ip: Option<IpAddr>,
    known: int,
)
    ensures
        ({
            let t = updated(s, MsgView::ManualServerAdd { as_socket, as_ip }).0;
            let ip = if as_socket is Some {
                as_socket->0.ip
            } else {
                as_ip->0
            };
            let port = if as_socket is Some {
                as_socket->0.port
            } else {
                3240u16
            };
            &&& text::trim_of(s.manual_server).len() == 0 || (as_socket is None && as_ip is None)
                ==> t.servers == s.servers
            &&& 0 <= known < s.servers.len() && s.servers[known].addr.ip == ip ==> t.servers
                == s.servers
            &&& {
                &&& text::trim_of(s.manual_server).len() > 0
                &&& as_socket is Some || as_ip is Some
                &&& forall|i: int|
                    0 <= i < s.servers.len() ==> (#[trigger] s.servers[i]).addr.ip != ip
            } ==> {
                &&& t.servers.len() == s.servers.len() + 1
                &&& forall|i: int|
                    0 <= i < s.servers.len() ==> #[trigger] t.servers[i] == s.servers[i]
                &&& t.servers.last().addr.ip == ip
                &&& t.servers.last().addr.port == port
                &&& t.servers.last().info.server_name == Some("manual"@)
                &&& t.servers.last().info.web_url is None
                &&& t.servers.last().info.version is None
            }
        }),
{
}

/// A failure is the status, is logged with its reason, and pops up with its
/// reason, unless that is blank.
pub proof fn failures_are_shown(s: ClientView, err: Seq<char>, which: int)
    requires
        s.log.len() <= 500,
    ensures
        ({
            let (m, title) = if which == 0 {
                (MsgView::Discovered(Err(err)), "扫描失败"@)
            } else if which == 1 {
                (MsgView::RemoteDevices(Err(err)), "拉取设备失败"@)
            } else {
                (MsgView::Attached(Err(err)), "attach 失败"@)
            };
            let t = updated(s, m).0;
            &&& updated(s, m).1 is Nothing
            &&& t.status == title
            &&& t.log.last() == title + ": "@ + err
            &&& text::trim_of(err).len() > 0 ==> t.popup == Some(
                title + "\n\n"@ + text::trim_of(err),
            )
            &&& text::trim_of(err).len() == 0 ==> t.popup == s.popup
        }),
{
}

/// The log grows by the line until it holds 500 lines; the 100 oldest of 501 go.
pub proof fn the_log_holds_five_hundred_lines(log: Seq<Seq<char>>, line: Seq<char>)
    ensures
        log.len() < 500 ==> logged(log, line) == log.push(line),
        log.len() == 500 ==> logged(log, line).len() == 401,
        log.len() == 500 ==> forall|i: int|
            0 <= i < 400 ==> #[trigger] logged(log, line)[i] == log[i + 100],
        log.len() == 500 ==> logged(log, line)[400] == line,
{
}

/// Lines are logged one after the other.
pub proof fn lines_are_logged_in_order(
    log: Seq<Seq<char>>,
    lines: Seq<Seq<char>>,
    line: Seq<char>,
)
    ensures
        logged_all(log, Seq::empty()) == log,
        logged_all(log, lines.push(line)) == logged(logged_all(log, lines), line),
{
    assert(lines.push(line).drop_last() =~= lines);
}

/// A short report is in the log as it is, behind what was there.
pub proof fn a_report_is_logged(log: Seq<Seq<char>>, lines: Seq<Seq<char>>)
    requires
        log.len() + lines.len() <= 500,
    ensures
        logged_all(log, lines) == log + lines,
    decreases lines.len(),
{
    if lines.len() > 0 {
        a_report_is_logged(log, lines.drop_last());
        assert(log + lines =~= (log + lines.drop_last()).push(lines.last()));
    } else {
        assert(log + lines =~= log);
    }
}

/// The failure that is shown is the newest among the last `n` lines that holds
/// `attach 失败`; none is shown only where none of these lines holds it.
pub proof fn the_newest_failure_is_found(log: Seq<Seq<char>>, n: int)
    requires
        0 <= n,
    ensures
        match recent_failure(log, n) {
            Some(l) => exists|k: int|
                #![trigger log[k]]
                {
                    &&& 0 <= k < log.len()
                    &&& log.len() - n <= k
                    &&& log[k] == l
                    &&& text::occurs_in(l, "attach 失败"@)
                    &&& forall|j: int|
                        k < j < log.len() ==> !text::occurs_in(#[trigger] log[j], "attach 失败"@)
                },
            None => forall|j: int|
                0 <= j < log.len() && log.len() - n <= j ==> !text::occurs_in(
                    #[trigger] log[j],
                    "attach 失败"@,
                ),
        },
    decreases n,
{
    if n > 0 && log.len() > 0 {
        assert(log.last() == log[log.len() - 1]);
        if !text::occurs_in(log.last(), "attach 失败"@) {
            let t = log.drop_last();
            the_newest_failure_is_found(t, n - 1);
            match recent_failure(t, n - 1) {
                Some(l) => {
                    let k = choose|k: int|
                        #![trigger t[k]]
                        {
                            &&& 0 <= k < t.len()
                            &&& t.len() - (n - 1) <= k
                            &&& t[k] == l
                            &&& text::occurs_in(l, "attach 失败"@)
                            &&& forall|j: int|
                                k < j < t.len() ==> !text::occurs_in(
                                    #[trigger] t[j],
                                    "attach 失败"@,
                                )
                        };
                    assert(log[k] == l);
                    assert forall|j: int| k < j < log.len() implies !text::occurs_in(
                        #[trigger] log[j],
                        "attach 失败"@,
                    ) by {
                        if j < t.len() {
                            assert(t[j] == log[j]);
                        }
                    }
                },
                None => {
                    assert forall|j: int|
                        0 <= j < log.len() && log.len() - n <= j implies !text::occurs_in(
                        #[trigger] log[j],
                        "attach 失败"@,
                    ) by {
                        if j < t.len() {
                            assert(t[j] == log[j]);
                        }
                    }
                },
            }
        }
    }
}

/// The report of attaching is logged, and a failure among the last 80 lines of
/// the log pops up, unless it is blank; without one the popup stays.
pub proof fn a_report_with_a_failure_pops_up(s: ClientView, lines: Seq<Seq<char>>)
    ensures
        ({
            let t = updated(s, MsgView::Attached(Ok(lines))).0;
            &&& t.log == logged_all(s.log, lines)
            &&& t.status == "完成"@
            &&& match recent_failure(logged_all(s.log, lines), 80) {
                Some(l) if text::trim_of(l).len() > 0 => t.popup == Some(
                    "attach 失败"@ + "\n\n"@ + text::trim_of(l),
                ),
                _ => t.popup == s.popup,
            }
        }),
{
}

/// What the status says after each message that sets it, and what is logged
/// last.
pub proof fn the_status_tells_what_happens(
    s: ClientView,
    servers: Seq<discovery::ServerView>,
    devs: Seq<usbip::RemoteDeviceView>,
    idx: int,
)
    requires
        s.log.len() <= 500,
        s.selected_server matches Some(k) ==> 0 <= k,
    ensures
        updated(s, MsgView::Start).0.status == "扫描局域网 usbip-server…"@,
        updated(s, MsgView::Start).0.log.last() == "开始 UDP 广播扫描 (USBIP_DISCOVER)"@,
        updated(s, MsgView::Refresh).0.status == "重新扫描中…"@,
        updated(s, MsgView::Refresh).0.log.last() == "重新扫描"@,
        updated(s, MsgView::Discovered(Ok(servers))).0.status == "发现 "@ + number::decimal(
            servers.len() as int,
        ) + " 个服务端"@,
        updated(s, MsgView::RemoteDevices(Ok(devs))).0.status == "远端设备："@ + number::decimal(
            devs.len() as int,
        ) + " 个"@,
        devs.len() == 0 ==> updated(s, MsgView::RemoteDevices(Ok(devs))).0.log.last()
            == "远端无可 attach 的设备"@,
        devs.len() > 0 ==> updated(s, MsgView::RemoteDevices(Ok(devs))).0.log.last()
            == "远端可 attach 设备数量："@ + number::decimal(devs.len() as int),
        0 <= idx < s.servers.len() ==> updated(s, MsgView::SelectServer(idx)).0.status
            == "拉取设备列表："@ + net::ip_text(s.servers[idx].addr.ip),
        0 <= idx < s.servers.len() ==> updated(s, MsgView::SelectServer(idx)).0.log.last()
            == "拉取远端设备列表：server="@ + net::ip_text(s.servers[idx].addr.ip),
        s.selected_server is None || s.selected_server->0 >= s.servers.len() ==> updated(
            s,
            MsgView::AttachSelected,
        ).0.log.last() == "未选择服务端"@,
        s.selected_server is Some && s.selected_server->0 < s.servers.len()
            && s.selected_busids.len() == 0 ==> updated(s, MsgView::AttachSelected).0.log.last()
            == "未选择任何设备"@,
        s.selected_server == Some(idx) && 0 <= idx < s.servers.len() && s.selected_busids.len() > 0
            ==> {
            let t = updated(s, MsgView::AttachSelected).0;
            let host = net::ip_text(s.servers[idx].addr.ip);
            &&& t.status == "连接所选设备："@ + host
            &&& t.log.last() == "开始 attach：server="@ + host + ", count="@ + number::decimal(
                s.selected_busids.len() as int,
            )
        },
{
}

/// Each found server has its line, with its address and its name.
pub proof fn found_servers_are_logged(
    servers: Seq<discovery::ServerView>,
    i: int,
    name: Seq<char>,
)
    requires
        0 <= i < servers.len(),
    ensures
        found_lines(servers).len() == servers.len(),
        servers[i].info.server_name is None ==> found_lines(servers)[i] == "发现: "@
            + net::ip_text(servers[i].addr.ip) + " ("@ + "unknown"@ + ")"@,
        servers[i].info.server_name == Some(name) ==> found_lines(servers)[i] == "发现: "@
            + net::ip_text(servers[i].addr.ip) + " ("@ + name + ")"@,
{
}

/// Found servers are logged one by one, and then that the first is selected
/// where none was.
pub proof fn finding_servers_is_logged(s: ClientView, servers: Seq<discovery::ServerView>)
    ensures
        s.selected_server is None && servers.len() > 0 ==> updated(
            s,
            MsgView::Discovered(Ok(servers)),
        ).0.log == logged(
            logged_all(s.log, found_lines(servers)),
            "自动选择第一个服务端并拉取设备列表"@,
        ),
        s.selected_server is Some || servers.len() == 0 ==> updated(
            s,
            MsgView::Discovered(Ok(servers)),
        ).0.log == logged_all(s.log, found_lines(servers)),
{
}

} // verus!
