//! The console: subcommands, the interactive loop, and what they print.

use vstd::prelude::*;

use crate::client::attach;
use crate::client::attach::BatchResult;
use crate::client::discovery;
use crate::client::discovery::DiscoveredServer;
use crate::client::indices;
use crate::client::usbip;
use crate::client::usbip::RemoteDevice;
use crate::failure;
use crate::failure::Failure;
use crate::net;
use crate::number;
use crate::text;

verus! {

// ---------------------------------------------------------------------------
// Subcommands
// ---------------------------------------------------------------------------
/// What the console is asked to do.
#[derive(Debug)]
pub enum ConsoleAction {
    /// Find servers and show them.
    Search,
    /// Show the devices of a server.
    List { host: String },
    /// Attach devices of a server.
    Link { host: String, busids: Vec<String> },
    /// Show how the console is used.
    Help,
    /// Enter the interactive loop.
    Repl,
}

/// A `ConsoleAction` as mathematical values.
pub enum ConsoleActionView {
    Search,
    List { host: Seq<char> },
    Link { host: Seq<char>, busids: Seq<Seq<char>> },
    Help,
    Repl,
}

impl View for ConsoleAction {
    type V = ConsoleActionView;

    open spec fn view(&self) -> ConsoleActionView {
        match *self {
            ConsoleAction::Search => ConsoleActionView::Search,
            ConsoleAction::List { host } => ConsoleActionView::List { host: host@ },
            ConsoleAction::Link { host, busids } => ConsoleActionView::Link {
                host: host@,
                busids: text::texts(busids@),
            },
            ConsoleAction::Help => ConsoleActionView::Help,
            ConsoleAction::Repl => ConsoleActionView::Repl,
        }
    }
}

/// What the arguments ask for, or how they should have been written.
pub open spec fn console_request(args: Seq<Seq<char>>) -> Result<ConsoleActionView, Seq<char>> {
    if args.len() == 0 {
        Ok(ConsoleActionView::Repl)
    } else if args[0] == "search"@ || args[0] == "s"@ {
        Ok(ConsoleActionView::Search)
    } else if args[0] == "list"@ {
        if args.len() >= 2 {
            Ok(ConsoleActionView::List { host: args[1] })
        } else {
            Err("Usage: usbip-client list <host>"@)
        }
    } else if args[0] == "link"@ || args[0] == "l"@ {
        if args.len() >= 3 {
            Ok(ConsoleActionView::Link { host: args[1], busids: args.skip(2) })
        } else {
            Err("Usage: usbip-client link <host> <busid...>"@)
        }
    } else if args[0] == "help"@ || args[0] == "-h"@ || args[0] == "--help"@ {
        Ok(ConsoleActionView::Help)
    } else {
        Ok(ConsoleActionView::Repl)
    }
}

/// What the arguments ask for, or how they should have been written.
pub fn run_console(args: Vec<String>) -> (r: Result<ConsoleAction, String>)
    ensures
        match r {
            Ok(a) => console_request(text::texts(args@)) == Ok::<ConsoleActionView, Seq<char>>(a@),
            Err(e) => console_request(text::texts(args@)) == Err::<ConsoleActionView, Seq<char>>(
                e@,
            ),
        },
{
    if args.len() == 0 {
        return Ok(ConsoleAction::Repl);
    }
    let ghost all = text::texts(args@);
    assert(all[0] == args@[0]@);
    let cmd = args[0].as_str();
    if text::same_text(cmd, "search") || text::same_text(cmd, "s") {
        return Ok(ConsoleAction::Search);
    }
    if text::same_text(cmd, "list") {
        if args.len() >= 2 {
            assert(all[1] == args@[1]@);
            return Ok(ConsoleAction::List { host: args[1].clone() });
        }
        return Err("Usage: usbip-client list <host>".to_string());
    }
    if text::same_text(cmd, "link") || text::same_text(cmd, "l") {
        if args.len() >= 3 {
            assert(all[1] == args@[1]@);
            let busids = strings_from(&args, 2);
            return Ok(ConsoleAction::Link { host: args[1].clone(), busids });
        }
        return Err("Usage: usbip-client link <host> <busid...>".to_string());
    }
    if text::same_text(cmd, "help") || text::same_text(cmd, "-h") || text::same_text(
        cmd,
        "--help",
    ) {
        return Ok(ConsoleAction::Help);
    }
    Ok(ConsoleAction::Repl)
}

/// Copies of the strings from index `start` on.
fn strings_from(v: &Vec<String>, start: usize) -> (r: Vec<String>)
    requires
        start <= v@.len(),
    ensures
        text::texts(r@) == text::texts(v@).skip(start as int),
{
    let mut out: Vec<String> = Vec::new();
    let mut i: usize = start;
    while i < v.len()
        invariant
            start <= i <= v@.len(),
            out@.len() == i - start,
            forall|j: int| 0 <= j < i - start ==> (#[trigger] out@[j])@ == v@[start + j]@,
        decreases v.len() - i,
    {
        out.push(v[i].clone());
        i = i + 1;
    }
    assert(text::texts(out@) =~= text::texts(v@).skip(start as int));
    out
}

/// How the console is used.
pub open spec fn help_text() -> Seq<Seq<char>> {
    seq![
        "usbip-client console mode"@,
        ""@,
        "Subcommands:"@,
        "  usbip-client search|s"@,
        "  usbip-client list <host>"@,
        "  usbip-client link|l <host> <busid...>"@,
        ""@,
        "Interactive (default): run `usbip-client` to enter REPL. Type `help` for commands."@,
    ]
}

/// How the console is used.
pub fn print_help() -> (r: Vec<String>)
    ensures
        text::texts(r@) == help_text(),
{
    let r = vec![
        "usbip-client console mode".to_string(),
        "".to_string(),
        "Subcommands:".to_string(),
        "  usbip-client search|s".to_string(),
        "  usbip-client list <host>".to_string(),
        "  usbip-client link|l <host> <busid...>".to_string(),
        "".to_string(),
        "Interactive (default): run `usbip-client` to enter REPL. Type `help` for commands.".to_string(),
    ];
    assert(text::texts(r@) =~= help_text());
    r
}

// ---------------------------------------------------------------------------
// Reports
// ---------------------------------------------------------------------------
/// A text, or another where it is absent.
pub open spec fn text_or(o: Option<Seq<char>>, default: Seq<char>) -> Seq<char> {
    match o {
        Some(s) => s,
        None => default,
    }
}

/// A text, or another where it is absent.
pub fn string_or(o: &Option<String>, default: &str) -> (r: String)
    ensures
        r@ == text_or(text::opt_text(*o), default@),
{
    match o {
        Some(s) => s.clone(),
        None => default.to_string(),
    }
}

/// A text, or `-` where it is empty.
pub open spec fn dash_if_empty(s: Seq<char>) -> Seq<char> {
    if s.len() == 0 {
        "-"@
    } else {
        s
    }
}

/// A text, or `-` where it is empty.
pub fn string_or_dash(s: &str) -> (r: String)
    ensures
        r@ == dash_if_empty(s@),
{
    if s.is_empty() {
        "-".to_string()
    } else {
        s.to_string()
    }
}

/// One found server.
pub open spec fn server_line(i: int, s: discovery::ServerView) -> Seq<char> {
    "#"@ + number::decimal(i) + " "@ + net::ip_text(s.addr.ip) + "  name="@ + text_or(
        s.info.server_name,
        "unknown"@,
    ) + "  version="@ + text_or(s.info.version, "?"@)
}

/// The found servers, or that there are none.
pub open spec fn search_text(servers: Seq<discovery::ServerView>) -> Seq<Seq<char>> {
    if servers.len() == 0 {
        seq!["No usbip-server found"@]
    } else {
        Seq::new(servers.len(), |i: int| server_line(i, servers[i]))
    }
}

/// What `search` prints.
pub fn cmd_search(servers: &Vec<DiscoveredServer>) -> (r: Vec<String>)
    ensures
        text::texts(r@) == search_text(discovery::server_views(servers@)),
{
    let ghost all = discovery::server_views(servers@);
    let mut out: Vec<String> = Vec::new();
    if servers.len() == 0 {
        out.push("No usbip-server found".to_string());
        assert(text::texts(out@) =~= search_text(all));
        return out;
    }
    let mut i: usize = 0;
    while i < servers.len()
        invariant
            i <= servers@.len(),
            all == discovery::server_views(servers@),
            out@.len() == i,
            forall|j: int| 0 <= j < i ==> (#[trigger] out@[j])@ == server_line(j, all[j]),
        decreases servers.len() - i,
    {
        assert(all[i as int] == servers@[i as int]@);
        let mut s = "#".to_string();
        s.append(number::decimal_text(i as u64).as_str());
        s.append(" ");
        s.append(net::ip_string(&servers[i].addr.ip).as_str());
        s.append("  name=");
        s.append(string_or(&servers[i].info.server_name, "unknown").as_str());
        s.append("  version=");
        s.append(string_or(&servers[i].info.version, "?").as_str());
        assert(s@ =~= server_line(i as int, all[i as int]));
        out.push(s);
        i = i + 1;
    }
    assert(text::texts(out@) =~= search_text(all));
    out
}

/// One device of a server.
pub open spec fn device_line(d: usbip::RemoteDeviceView) -> Seq<char> {
    d.busid + "  vidpid="@ + text_or(d.vidpid, "-"@) + "  desc="@ + dash_if_empty(d.desc)
}

/// The devices of a server, or that there are none.
pub open spec fn list_text(devs: Seq<usbip::RemoteDeviceView>) -> Seq<Seq<char>> {
    if devs.len() == 0 {
        seq!["No devices"@]
    } else {
        Seq::new(devs.len(), |i: int| device_line(devs[i]))
    }
}

/// What `list` prints.
pub fn cmd_list(devs: &Vec<RemoteDevice>) -> (r: Vec<String>)
    ensures
        text::texts(r@) == list_text(usbip::device_views(devs@)),
{
    let ghost all = usbip::device_views(devs@);
    let mut out: Vec<String> = Vec::new();
    if devs.len() == 0 {
        out.push("No devices".to_string());
        assert(text::texts(out@) =~= list_text(all));
        return out;
    }
    let mut i: usize = 0;
    while i < devs.len()
        invariant
            i <= devs@.len(),
            all == usbip::device_views(devs@),
            out@.len() == i,
            forall|j: int| 0 <= j < i ==> (#[trigger] out@[j])@ == device_line(all[j]),
        decreases devs.len() - i,
    {
        assert(all[i as int] == devs@[i as int]@);
        let mut s = devs[i].busid.clone();
        s.append("  vidpid=");
        s.append(string_or(&devs[i].vidpid, "-").as_str());
        s.append("  desc=");
        s.append(string_or_dash(devs[i].desc.as_str()).as_str());
        assert(s@ =~= device_line(all[i as int]));
        out.push(s);
        i = i + 1;
    }
    assert(text::texts(out@) =~= list_text(all));
    out
}

/// What came of attaching one device.
pub open spec fn link_line(
    host: Seq<char>,
    busid: Seq<char>,
    verdict: Option<bool>,
    complaint: Seq<char>,
) -> Seq<char> {
    if verdict == Some(true) {
        "OK "@ + host + " "@ + busid
    } else {
        "FAIL "@ + host + " "@ + busid + ": "@ + attach::reason_of(verdict, complaint)
    }
}

/// What came of attaching the devices, in their order.
pub open spec fn link_text(
    host: Seq<char>,
    busids: Seq<Seq<char>>,
    verdicts: Seq<Option<bool>>,
    complaint: Seq<char>,
) -> Seq<Seq<char>> {
    Seq::new(busids.len(), |i: int| link_line(host, busids[i], verdicts[i], complaint))
}

/// What `link` and `connect` print for the devices of one server.
pub fn cmd_link(host: &str, busids: &Vec<String>, result: &BatchResult) -> (r: Vec<String>)
    requires
        result.verdicts@.len() == busids@.len(),
    ensures
        text::texts(r@) == link_text(
            host@,
            text::texts(busids@),
            result.verdicts@,
            result.complaint@,
        ),
{
    let ghost want = link_text(host@, text::texts(busids@), result.verdicts@, result.complaint@);
    let mut out: Vec<String> = Vec::new();
    let mut i: usize = 0;
    while i < busids.len()
        invariant
            i <= busids@.len(),
            result.verdicts@.len() == busids@.len(),
            want == link_text(
                host@,
                text::texts(busids@),
                result.verdicts@,
                result.complaint@,
            ),
            out@.len() == i,
            forall|j: int| 0 <= j < i ==> (#[trigger] out@[j])@ == want[j],
        decreases busids.len() - i,
    {
        let verdict = result.verdicts[i];
        if let Some(true) = verdict {
            let mut s = "OK ".to_string();
            s.append(host);
            s.append(" ");
            s.append(busids[i].as_str());
            out.push(s);
        } else {
            let mut s = "FAIL ".to_string();
            s.append(host);
            s.append(" ");
            s.append(busids[i].as_str());
            s.append(": ");
            s.append(attach::reason_text(verdict, result.complaint.as_str()).as_str());
            out.push(s);
        }
        i = i + 1;
    }
    assert(text::texts(out@) =~= want);
    out
}

// ---------------------------------------------------------------------------
// The table of devices
// ---------------------------------------------------------------------------
/// A device that the interactive loop can refer to by a number.
#[derive(Debug)]
pub struct ListedDevice {
    pub idx: usize,
    pub host: String,
    pub busid: String,
    pub desc: String,
    pub vidpid: Option<String>,
}

/// A `ListedDevice` as mathematical values.
#[verifier::ext_equal]
pub struct ListedView {
    pub idx: int,
    pub host: Seq<char>,
    pub busid: Seq<char>,
    pub desc: Seq<char>,
    pub vidpid: Option<Seq<char>>,
}

impl View for ListedDevice {
    type V = ListedView;

    open spec fn view(&self) -> ListedView {
        ListedView {
            idx: self.idx as int,
            host: self.host@,
            busid: self.busid@,
            desc: self.desc@,
            vidpid: text::opt_text(self.vidpid),
        }
    }
}

impl Clone for ListedDevice {
    fn clone(&self) -> (r: ListedDevice)
        ensures
            r@ == self@,
    {
        ListedDevice {
            idx: self.idx,
            host: self.host.clone(),
            busid: self.busid.clone(),
            desc: self.desc.clone(),
            vidpid: text::clone_opt(&self.vidpid),
        }
    }
}

/// The devices behind a list.
pub open spec fn listed_views(v: Seq<ListedDevice>) -> Seq<ListedView> {
    Seq::new(v.len(), |i: int| v[i]@)
}

/// What the interactive loop remembers.
#[derive(Debug)]
pub struct ReplState {
    pub listed: Vec<ListedDevice>,
}

/// What asking one server for its devices gave.
#[derive(Debug)]
pub struct HostDevices {
    pub host: String,
    pub devices: Result<Vec<RemoteDevice>, Failure>,
}

/// A `HostDevices` as mathematical values.
pub struct HostDevicesView {
    pub host: Seq<char>,
    pub devices: Result<Seq<usbip::RemoteDeviceView>, failure::FailureView>,
}

impl View for HostDevices {
    type V = HostDevicesView;

    open spec fn view(&self) -> HostDevicesView {
        HostDevicesView {
            host: self.host@,
            devices: match self.devices {
                Ok(v) => Ok(usbip::device_views(v@)),
                Err(e) => Err(e@),
            },
        }
    }
}

/// The answers behind a list.
pub open spec fn host_views(v: Seq<HostDevices>) -> Seq<HostDevicesView> {
    Seq::new(v.len(), |i: int| v[i]@)
}

/// A device of `host` under the number `idx`.
pub open spec fn numbered(idx: int, host: Seq<char>, d: usbip::RemoteDeviceView) -> ListedView {
    ListedView {
        idx,
        host,
        busid: d.busid,
        desc: dash_if_empty(d.desc),
        vidpid: d.vidpid,
    }
}

/// The devices of one host, numbered from `first` on.
pub open spec fn numbered_from(
    first: int,
    host: Seq<char>,
    devs: Seq<usbip::RemoteDeviceView>,
) -> Seq<ListedView> {
    Seq::new(devs.len(), |i: int| numbered(first + i, host, devs[i]))
}

/// The devices of all servers that answered, in their order, numbered from one.
pub open spec fn all_listed(hosts: Seq<HostDevicesView>) -> Seq<ListedView>
    decreases hosts.len(),
{
    if hosts.len() == 0 {
        Seq::empty()
    } else {
        let before = all_listed(hosts.drop_last());
        match hosts.last().devices {
            Ok(devs) => before + numbered_from(before.len() as int + 1, hosts.last().host, devs),
            Err(_) => before,
        }
    }
}

/// A warning for each server that did not answer.
pub open spec fn warnings_of(hosts: Seq<HostDevicesView>) -> Seq<Seq<char>>
    decreases hosts.len(),
{
    if hosts.len() == 0 {
        Seq::empty()
    } else {
        let before = warnings_of(hosts.drop_last());
        match hosts.last().devices {
            Ok(_) => before,
            Err(e) => before.push(
                "warning: "@ + hosts.last().host + " list failed: "@ + failure::chain_of(e),
            ),
        }
    }
}

/// Every listed device bears its position, counted from one, as its number.
pub open spec fn well_numbered(v: Seq<ListedView>) -> bool {
    forall|i: int| 0 <= i < v.len() ==> (#[trigger] v[i]).idx == i + 1
}

/// The devices of all servers are numbered from one without gaps.
pub proof fn listing_is_well_numbered(hosts: Seq<HostDevicesView>)
    ensures
        well_numbered(all_listed(hosts)),
    decreases hosts.len(),
{
    if hosts.len() > 0 {
        listing_is_well_numbered(hosts.drop_last());
    }
}

proof fn lemma_listed_grows(hosts: Seq<HostDevicesView>, k: int)
    requires
        0 <= k <= hosts.len(),
    ensures
        all_listed(hosts.take(k)).len() <= all_listed(hosts).len(),
    decreases hosts.len() - k,
{
    if k < hosts.len() {
        let t = hosts.take(k + 1);
        assert(t.drop_last() =~= hosts.take(k));
        lemma_listed_grows(hosts, k + 1);
    } else {
        assert(hosts.take(k) =~= hosts);
    }
}

impl ReplState {
    /// No devices are known yet.
    pub fn new() -> (r: ReplState)
        ensures
            listed_views(r.listed@) == Seq::<ListedView>::empty(),
    {
        let r = ReplState { listed: Vec::new() };
        assert(listed_views(r.listed@) =~= Seq::<ListedView>::empty());
        r
    }

    /// Replaces the known devices by those that the servers answered with;
    /// returns a warning for each server that did not answer.
    pub fn refresh_device_list(&mut self, hosts: Vec<HostDevices>) -> (r: Vec<String>)
        requires
            all_listed(host_views(hosts@)).len() < usize::MAX,
        ensures
            listed_views(final(self).listed@) == all_listed(host_views(hosts@)),
            text::texts(r@) == warnings_of(host_views(hosts@)),
    {
        let ghost hv = host_views(hosts@);
        let mut listed: Vec<ListedDevice> = Vec::new();
        let mut warnings: Vec<String> = Vec::new();
        let mut i: usize = 0;
        proof {
            assert(hv.take(0) =~= Seq::<HostDevicesView>::empty());
            assert(listed_views(listed@) =~= Seq::<ListedView>::empty());
            assert(text::texts(warnings@) =~= Seq::<Seq<char>>::empty());
        }
        while i < hosts.len()
            invariant
                i <= hosts@.len(),
                hv == host_views(hosts@),
                all_listed(hv).len() < usize::MAX,
                listed_views(listed@) == all_listed(hv.take(i as int)),
                text::texts(warnings@) == warnings_of(hv.take(i as int)),
            decreases hosts.len() - i,
        {
            proof {
                let t = hv.take(i + 1);
                assert(t.drop_last() =~= hv.take(i as int));
                assert(t.last() == hosts@[i as int]@);
                lemma_listed_grows(hv, i + 1);
            }
            match &hosts[i].devices {
                Ok(devs) => {
                    let ghost before = listed_views(listed@);
                    let ghost dv = usbip::device_views(devs@);
                    let ghost more = numbered_from(before.len() as int + 1, hosts@[i as int].host@, dv);
                    let mut k: usize = 0;
                    assert(before + more.take(0) =~= before);
                    while k < devs.len()
                        invariant
                            k <= devs@.len(),
                            i < hosts@.len(),
                            dv == usbip::device_views(devs@),
                            more == numbered_from(
                                before.len() as int + 1,
                                hosts@[i as int].host@,
                                dv,
                            ),
                            before.len() + more.len() < usize::MAX,
                            listed_views(listed@) == before + more.take(k as int),
                        decreases devs.len() - k,
                    {
                        let ghost now = listed@;
                        assert(listed@.len() == listed_views(listed@).len());
                        let d = &devs[k];
                        let item = ListedDevice {
                            idx: listed.len() + 1,
                            host: hosts[i].host.clone(),
                            busid: d.busid.clone(),
                            desc: string_or_dash(d.desc.as_str()),
                            vidpid: text::clone_opt(&d.vidpid),
                        };
                        let ghost iv = item@;
                        listed.push(item);
                        proof {
                            assert(dv[k as int] == devs@[k as int]@);
                            assert(iv =~= more[k as int]);
                            assert(listed_views(listed@) =~= listed_views(now).push(iv));
                            assert(more.take(k + 1) =~= more.take(k as int).push(more[k as int]));
                            assert(before + more.take(k + 1) =~= (before + more.take(
                                k as int,
                            )).push(more[k as int]));
                        }
                        k = k + 1;
                    }
                    assert(more.take(more.len() as int) =~= more);
                },
                Err(e) => {
                    let mut w = "warning: ".to_string();
                    w.append(hosts[i].host.as_str());
                    w.append(" list failed: ");
                    w.append(e.chain().as_str());
                    let ghost before = warnings@;
                    let ghost wv = w@;
                    warnings.push(w);
                    assert(text::texts(warnings@) =~= text::texts(before).push(wv));
                },
            }
            i = i + 1;
        }
        assert(hv.take(hv.len() as int) =~= hv);
        self.listed = listed;
        warnings
    }
}

/// `s` if it has at most `max` characters, else its first `max - 1` and an
/// ellipsis.
pub open spec fn truncated(s: Seq<char>, max: int) -> Seq<char> {
    if s.len() > max {
        s.take(max - 1) + "…"@
    } else {
        s
    }
}

/// `s` shortened to `max_len` characters.
pub fn truncate(s: &str, max_len: usize) -> (r: String)
    requires
        max_len > 0 || s@.len() == 0,
    ensures
        r@ == truncated(s@, max_len as int),
{
    let cs = text::chars_of(s);
    if cs.len() > max_len {
        let head = &cs.as_slice()[0..max_len - 1];
        assert(head@ =~= s@.take(max_len - 1));
        text::cat(text::string_of(head).as_str(), "…")
    } else {
        s.to_string()
    }
}

/// A shortened text has at most the given number of characters.
pub proof fn truncated_fits(s: Seq<char>, max: int)
    requires
        1 <= max,
    ensures
        truncated(s, max).len() <= max,
{
    reveal_strlit("…");
}

/// `s` filled up with blanks to `width` characters.
pub open spec fn padded(s: Seq<char>, width: int) -> Seq<char>
    decreases width - s.len(),
{
    if s.len() >= width {
        s
    } else {
        padded(s.push(' '), width)
    }
}

fn push_padded(out: &mut String, s: &str, width: usize)
    ensures
        final(out)@ == old(out)@ + padded(s@, width as int),
{
    let cs = text::chars_of(s);
    let ghost start = out@;
    out.append(s);
    let mut n: usize = cs.len();
    let ghost mut now: Seq<char> = s@;
    while n < width
        invariant
            n == now.len(),
            out@ == start + now,
            padded(s@, width as int) == padded(now, width as int),
        decreases width - n,
    {
        out.push(' ');
        proof {
            assert(out@ =~= start + now.push(' '));
            now = now.push(' ');
        }
        n = n + 1;
    }
}

/// A row of the table: columns of fixed width with a blank between them.
pub open spec fn table_row(
    idx: Seq<char>,
    host: Seq<char>,
    busid: Seq<char>,
    vidpid: Seq<char>,
    desc: Seq<char>,
) -> Seq<char> {
    padded(idx, 6) + " "@ + padded(host, 18) + " "@ + padded(busid, 10) + " "@ + padded(vidpid, 12)
        + " "@ + desc
}

fn row_text(idx: &str, host: &str, busid: &str, vidpid: &str, desc: &str) -> (r: String)
    ensures
        r@ == table_row(idx@, host@, busid@, vidpid@, desc@),
{
    let mut s = String::new();
    push_padded(&mut s, idx, 6);
    assert(s@ =~= padded(idx@, 6));
    s.append(" ");
    push_padded(&mut s, host, 18);
    s.append(" ");
    push_padded(&mut s, busid, 10);
    s.append(" ");
    push_padded(&mut s, vidpid, 12);
    s.append(" ");
    s.append(desc);
    s
}

/// The row of one device.
pub open spec fn device_row(d: ListedView) -> Seq<char> {
    table_row(
        number::decimal(d.idx),
        truncated(d.host, 18),
        truncated(d.busid, 10),
        truncated(text_or(d.vidpid, "-"@), 12),
        truncated(d.desc, 40),
    )
}

/// The table of the known devices: an empty line, the heading and a row for
/// each, or that there are none.
pub open spec fn table_text(listed: Seq<ListedView>) -> Seq<Seq<char>> {
    if listed.len() == 0 {
        seq!["No devices found."@]
    } else {
        seq![""@, table_row("INDEX"@, "HOST"@, "BUSID"@, "VID:PID"@, "DESC"@)] + Seq::new(
            listed.len(),
            |i: int| device_row(listed[i]),
        )
    }
}

/// The table of the known devices.
pub fn display_device_table(st: &ReplState) -> (r: Vec<String>)
    ensures
        text::texts(r@) == table_text(listed_views(st.listed@)),
{
    let ghost all = listed_views(st.listed@);
    let ghost want = table_text(all);
    let mut out: Vec<String> = Vec::new();
    if st.listed.len() == 0 {
        out.push("No devices found.".to_string());
        assert(text::texts(out@) =~= want);
        return out;
    }
    out.push("".to_string());
    out.push(row_text("INDEX", "HOST", "BUSID", "VID:PID", "DESC"));
    let mut i: usize = 0;
    while i < st.listed.len()
        invariant
            i <= st.listed@.len(),
            st.listed@.len() > 0,
            all == listed_views(st.listed@),
            want == table_text(all),
            out@.len() == i + 2,
            forall|j: int| 0 <= j < i + 2 ==> (#[trigger] out@[j])@ == want[j],
        decreases st.listed.len() - i,
    {
        let d = &st.listed[i];
        assert(all[i as int] == d@);
        let vp = string_or(&d.vidpid, "-");
        let row = row_text(
            number::decimal_text(d.idx as u64).as_str(),
            truncate(d.host.as_str(), 18).as_str(),
            truncate(d.busid.as_str(), 10).as_str(),
            truncate(vp.as_str(), 12).as_str(),
            truncate(d.desc.as_str(), 40).as_str(),
        );
        assert(row@ == want[i + 2]);
        out.push(row);
        i = i + 1;
    }
    assert(text::texts(out@) =~= want);
    out
}

// ---------------------------------------------------------------------------
// The interactive loop
// ---------------------------------------------------------------------------
/// What one line of input asks for.
#[derive(Debug)]
pub enum ReplAction {
    /// Nothing.
    Nothing,
    /// Leave the loop.
    Quit,
    /// Print these lines.
    Print(Vec<String>),
    /// Ask the servers again and show the table.
    Refresh,
    /// Attach these devices.
    Connect(Vec<ListedDevice>),
}

/// A `ReplAction` as mathematical values.
pub enum ReplActionView {
    Nothing,
    Quit,
    Print(Seq<Seq<char>>),
    Refresh,
    Connect(Seq<ListedView>),
}

impl View for ReplAction {
    type V = ReplActionView;

    open spec fn view(&self) -> ReplActionView {
        match *self {
            ReplAction::Nothing => ReplActionView::Nothing,
            ReplAction::Quit => ReplActionView::Quit,
            ReplAction::Print(v) => ReplActionView::Print(text::texts(v@)),
            ReplAction::Refresh => ReplActionView::Refresh,
            ReplAction::Connect(v) => ReplActionView::Connect(listed_views(v@)),
        }
    }
}

/// The commands of the interactive loop.
pub open spec fn repl_help_text() -> Seq<Seq<char>> {
    seq![
        "Commands:"@,
        "  list, l          Refresh and show all devices"@,
        "  connect, c <#>   Connect devices (e.g., c 1,3-5)"@,
        "  help             Show this help"@,
        "  quit, q          Exit"@,
    ]
}

fn repl_help() -> (r: Vec<String>)
    ensures
        text::texts(r@) == repl_help_text(),
{
    let r = vec![
        "Commands:".to_string(),
        "  list, l          Refresh and show all devices".to_string(),
        "  connect, c <#>   Connect devices (e.g., c 1,3-5)".to_string(),
        "  help             Show this help".to_string(),
        "  quit, q          Exit".to_string(),
    ];
    assert(text::texts(r@) =~= repl_help_text());
    r
}

/// The first device with the number `n`, if there is one.
pub open spec fn find_listed(listed: Seq<ListedView>, n: int) -> Option<ListedView>
    decreases listed.len(),
{
    if listed.len() == 0 {
        None
    } else if listed[0].idx == n {
        Some(listed[0])
    } else {
        find_listed(listed.drop_first(), n)
    }
}

/// The devices with the given numbers, in the order of the numbers; numbers
/// without a device are passed over.
pub open spec fn chosen(listed: Seq<ListedView>, numbers: Seq<usize>) -> Seq<ListedView>
    decreases numbers.len(),
{
    if numbers.len() == 0 {
        Seq::empty()
    } else {
        match find_listed(listed, numbers.last() as int) {
            Some(d) => chosen(listed, numbers.drop_last()).push(d),
            None => chosen(listed, numbers.drop_last()),
        }
    }
}

/// What `connect` asks for with the given words behind it.
pub open spec fn connect_request(listed: Seq<ListedView>, words: Seq<Seq<char>>) -> ReplActionView {
    let parts = indices::spec_parts(text::join_of(words, " "@));
    if words.len() == 0 {
        ReplActionView::Print(seq!["Usage: connect <indices> (e.g., c 1,3-5)"@])
    } else {
        match indices::first_error(parts) {
            Some(e) => ReplActionView::Print(seq!["Invalid indices: "@ + e]),
            None => {
                let targets = chosen(listed, indices::numbers_of(parts));
                if targets.len() == 0 {
                    ReplActionView::Print(seq!["No matching devices."@])
                } else {
                    ReplActionView::Connect(targets)
                }
            },
        }
    }
}

/// What a line asks for.
pub open spec fn line_request(listed: Seq<ListedView>, line: Seq<char>) -> ReplActionView {
    let w = text::words_of(line);
    if w.len() == 0 {
        ReplActionView::Nothing
    } else if w[0] == "quit"@ || w[0] == "exit"@ || w[0] == "q"@ {
        ReplActionView::Quit
    } else if w[0] == "help"@ || w[0] == "h"@ || w[0] == "?"@ {
        ReplActionView::Print(repl_help_text())
    } else if w[0] == "list"@ || w[0] == "l"@ {
        ReplActionView::Refresh
    } else if w[0] == "connect"@ || w[0] == "c"@ {
        connect_request(listed, w.skip(1))
    } else {
        ReplActionView::Print(seq!["Unknown command: "@ + w[0]])
    }
}

fn find_by_number(listed: &Vec<ListedDevice>, n: usize) -> (r: Option<ListedDevice>)
    ensures
        match r {
            Some(d) => find_listed(listed_views(listed@), n as int) == Some(d@),
            None => find_listed(listed_views(listed@), n as int) is None,
        },
{
    let ghost all = listed_views(listed@);
    let mut i: usize = 0;
    assert(all.skip(0) =~= all);
    while i < listed.len()
        invariant
            i <= listed@.len(),
            all == listed_views(listed@),
            find_listed(all, n as int) == find_listed(all.skip(i as int), n as int),
        decreases listed.len() - i,
    {
        assert(all.skip(i as int)[0] == listed@[i as int]@);
        assert(all.skip(i as int).drop_first() =~= all.skip(i + 1));
        if listed[i].idx == n {
            return Some(listed[i].clone());
        }
        i = i + 1;
    }
    None
}

fn choose_devices(listed: &Vec<ListedDevice>, numbers: &Vec<usize>) -> (r: Vec<ListedDevice>)
    ensures
        listed_views(r@) == chosen(listed_views(listed@), numbers@),
{
    let ghost all = listed_views(listed@);
    let mut out: Vec<ListedDevice> = Vec::new();
    let mut i: usize = 0;
    assert(numbers@.take(0) =~= Seq::<usize>::empty());
    assert(listed_views(out@) =~= Seq::<ListedView>::empty());
    while i < numbers.len()
        invariant
            i <= numbers@.len(),
            all == listed_views(listed@),
            listed_views(out@) == chosen(all, numbers@.take(i as int)),
        decreases numbers.len() - i,
    {
        proof {
            let t = numbers@.take(i + 1);
            assert(t.drop_last() =~= numbers@.take(i as int));
            assert(t.last() == numbers@[i as int]);
        }
        if let Some(d) = find_by_number(listed, numbers[i]) {
            let ghost before = out@;
            let ghost dv = d@;
            out.push(d);
            assert(listed_views(out@) =~= listed_views(before).push(dv));
        }
        i = i + 1;
    }
    assert(numbers@.take(numbers@.len() as int) =~= numbers@);
    out
}

fn one_line(s: String) -> (r: ReplAction)
    ensures
        r@ == ReplActionView::Print(seq![s@]),
{
    let ghost sv = s@;
    let mut v: Vec<String> = Vec::new();
    v.push(s);
    assert(text::texts(v@) =~= seq![sv]);
    ReplAction::Print(v)
}

fn connect(st: &ReplState, words: &Vec<String>) -> (r: ReplAction)
    ensures
        r@ == connect_request(listed_views(st.listed@), text::texts(words@)),
{
    if words.len() == 0 {
        return one_line("Usage: connect <indices> (e.g., c 1,3-5)".to_string());
    }
    let spec_text = text::join(words, " ");
    match indices::parse_index_spec(spec_text.as_str()) {
        Err(e) => one_line(text::cat("Invalid indices: ", e.as_str())),
        Ok(numbers) => {
            let targets = choose_devices(&st.listed, &numbers);
            assert(targets@.len() == listed_views(targets@).len());
            if targets.len() == 0 {
                one_line("No matching devices.".to_string())
            } else {
                ReplAction::Connect(targets)
            }
        },
    }
}

/// Copies of the words after the first.
fn words_after_first(ws: &Vec<&[char]>) -> (r: Vec<String>)
    requires
        ws@.len() > 0,
    ensures
        text::texts(r@) == text::pieces(ws@).skip(1),
{
    let mut out: Vec<String> = Vec::new();
    let mut i: usize = 1;
    while i < ws.len()
        invariant
            1 <= i <= ws@.len(),
            out@.len() == i - 1,
            forall|j: int| 0 <= j < i - 1 ==> (#[trigger] out@[j])@ == ws@[j + 1]@,
        decreases ws.len() - i,
    {
        out.push(text::string_of(ws[i]));
        i = i + 1;
    }
    assert(text::texts(out@) =~= text::pieces(ws@).skip(1));
    out
}

/// What a line of input asks for: `quit`, `help`, `list` or `connect` under one
/// of their names, nothing for a blank line, and a complaint otherwise.
pub fn run_repl(st: &ReplState, line: &str) -> (r: ReplAction)
    ensures
        r@ == line_request(listed_views(st.listed@), line@),
{
    let cs = text::chars_of(line);
    let ws = text::words(&cs);
    let ghost w = text::words_of(line@);
    assert(text::pieces(ws@) == w);
    if ws.len() == 0 {
        return ReplAction::Nothing;
    }
    assert(w[0] == ws@[0]@);
    let cmd = ws[0];
    if text::chars_are(cmd, "quit") || text::chars_are(cmd, "exit") || text::chars_are(cmd, "q") {
        return ReplAction::Quit;
    }
    if text::chars_are(cmd, "help") || text::chars_are(cmd, "h") || text::chars_are(cmd, "?") {
        return ReplAction::Print(repl_help());
    }
    if text::chars_are(cmd, "list") || text::chars_are(cmd, "l") {
        return ReplAction::Refresh;
    }
    if text::chars_are(cmd, "connect") || text::chars_are(cmd, "c") {
        let words = words_after_first(&ws);
        return connect(st, &words);
    }
    one_line(text::cat("Unknown command: ", text::string_of(cmd).as_str()))
}

// ---------------------------------------------------------------------------
// One run for each server
// ---------------------------------------------------------------------------
/// Devices of one server that are attached in one run.
#[derive(Debug)]
pub struct HostBatch {
    pub host: String,
    pub busids: Vec<String>,
}

/// A `HostBatch` as mathematical values.
#[verifier::ext_equal]
pub struct HostBatchView {
    pub host: Seq<char>,
    pub busids: Seq<Seq<char>>,
}

impl View for HostBatch {
    type V = HostBatchView;

    open spec fn view(&self) -> HostBatchView {
        HostBatchView { host: self.host@, busids: text::texts(self.busids@) }
    }
}

/// The batches behind a list.
pub open spec fn batch_views(v: Seq<HostBatch>) -> Seq<HostBatchView> {
    Seq::new(v.len(), |i: int| v[i]@)
}

/// The devices grouped into runs: neighbours on the same server share one.
pub open spec fn batches_of(targets: Seq<ListedView>) -> Seq<HostBatchView>
    decreases targets.len(),
{
    if targets.len() == 0 {
        Seq::empty()
    } else {
        let before = batches_of(targets.drop_last());
        let t = targets.last();
        if before.len() > 0 && before.last().host == t.host {
            before.update(
                before.len() - 1,
                HostBatchView { host: t.host, busids: before.last().busids.push(t.busid) },
            )
        } else {
            before.push(HostBatchView { host: t.host, busids: seq![t.busid] })
        }
    }
}

/// The devices grouped into runs: neighbours on the same server share one.
pub fn batches_by_host(targets: &Vec<ListedDevice>) -> (r: Vec<HostBatch>)
    ensures
        batch_views(r@) == batches_of(listed_views(targets@)),
{
    let ghost all = listed_views(targets@);
    let mut out: Vec<HostBatch> = Vec::new();
    let mut i: usize = 0;
    assert(all.take(0) =~= Seq::<ListedView>::empty());
    assert(batch_views(out@) =~= Seq::<HostBatchView>::empty());
    while i < targets.len()
        invariant
            i <= targets@.len(),
            all == listed_views(targets@),
            batch_views(out@) == batches_of(all.take(i as int)),
        decreases targets.len() - i,
    {
        proof {
            let t = all.take(i + 1);
            assert(t.drop_last() =~= all.take(i as int));
            assert(t.last() == targets@[i as int]@);
        }
        let ghost before = batch_views(out@);
        let n = out.len();
        if n > 0 && text::same_text(out[n - 1].host.as_str(), targets[i].host.as_str()) {
            assert(before.last() == out@[n - 1]@);
            match out.pop() {
                Some(mut b) => {
                    let ghost busids = text::texts(b.busids@);
                    b.busids.push(targets[i].busid.clone());
                    assert(text::texts(b.busids@) =~= busids.push(targets@[i as int].busid@));
                    let ghost bv = b@;
                    out.push(b);
                    assert(batch_views(out@) =~= before.update(n - 1, bv));
                },
                None => {},
            }
        } else {
            proof {
                if n > 0 {
                    assert(before.last() == out@[n - 1]@);
                }
            }
            let mut busids: Vec<String> = Vec::new();
            busids.push(targets[i].busid.clone());
            assert(text::texts(busids@) =~= seq![targets@[i as int].busid@]);
            let b = HostBatch { host: targets[i].host.clone(), busids };
            let ghost bv = b@;
            out.push(b);
            assert(batch_views(out@) =~= before.push(bv));
        }
        i = i + 1;
    }
    assert(all.take(all.len() as int) =~= all);
    out
}

/// The host and bus identifier of each device in the batches, in order.
pub open spec fn batch_devices(batches: Seq<HostBatchView>) -> Seq<(Seq<char>, Seq<char>)>
    decreases batches.len(),
{
    if batches.len() == 0 {
        Seq::empty()
    } else {
        let b = batches.last();
        batch_devices(batches.drop_last()) + Seq::new(
            b.busids.len(),
            |i: int| (b.host, b.busids[i]),
        )
    }
}

/// Grouping loses no device, adds none and keeps their order; and two batches
/// in a row are of different servers, so that a selection on one server is
/// attached in a single run.
pub proof fn batches_hold_the_selection(targets: Seq<ListedView>)
    ensures
        batch_devices(batches_of(targets)) == Seq::new(
            targets.len(),
            |i: int| (targets[i].host, targets[i].busid),
        ),
        forall|i: int|
            0 <= i < batches_of(targets).len() - 1 ==> (#[trigger] batches_of(targets)[i]).host
                != batches_of(targets)[i + 1].host,
    decreases targets.len(),
{
    let want = Seq::new(targets.len(), |i: int| (targets[i].host, targets[i].busid));
    if targets.len() == 0 {
        assert(batch_devices(batches_of(targets)) =~= want);
    } else {
        let s = targets.drop_last();
        let t = targets.last();
        batches_hold_the_selection(s);
        let before = batches_of(s);
        let after = batches_of(targets);
        let have = Seq::new(s.len(), |i: int| (s[i].host, s[i].busid));
        assert(want =~= have.push((t.host, t.busid)));
        if before.len() > 0 && before.last().host == t.host {
            let b = before.last();
            let c = after.last();
            assert(after.drop_last() =~= before.drop_last());
            assert(c.busids == b.busids.push(t.busid));
            let old_tail = Seq::new(b.busids.len(), |i: int| (b.host, b.busids[i]));
            let new_tail = Seq::new(c.busids.len(), |i: int| (c.host, c.busids[i]));
            assert(new_tail =~= old_tail.push((t.host, t.busid)));
            assert(batch_devices(after) =~= batch_devices(before).push((t.host, t.busid)));
        } else {
            let c = after.last();
            assert(after.drop_last() =~= before);
            let new_tail = Seq::new(c.busids.len(), |i: int| (c.host, c.busids[i]));
            assert(new_tail =~= seq![(t.host, t.busid)]);
            assert(batch_devices(after) =~= batch_devices(before).push((t.host, t.busid)));
        }
    }
}

// ---------------------------------------------------------------------------
// What holds of everything that is asked for and printed
// ---------------------------------------------------------------------------
/// Each subcommand is known by its names, takes the words behind it as they
/// are, and is refused where too few stand there; anything else leads to the
/// interactive loop.
pub proof fn subcommands_take_the_words_behind_them(
    name: Seq<char>,
    host: Seq<char>,
    rest: Seq<Seq<char>>,
)
    ensures
        console_request(Seq::empty()) == Ok::<ConsoleActionView, Seq<char>>(
            ConsoleActionView::Repl,
        ),
        name == "search"@ || name == "s"@ ==> console_request(seq![name] + rest) == Ok::<
            ConsoleActionView,
            Seq<char>,
        >(ConsoleActionView::Search),
        console_request(seq!["list"@, host] + rest) == Ok::<ConsoleActionView, Seq<char>>(
            ConsoleActionView::List { host },
        ),
        console_request(seq!["list"@]) == Err::<ConsoleActionView, Seq<char>>(
            "Usage: usbip-client list <host>"@,
        ),
        (name == "link"@ || name == "l"@) && rest.len() > 0 ==> console_request(
            seq![name, host] + rest,
        ) == Ok::<ConsoleActionView, Seq<char>>(ConsoleActionView::Link { host, busids: rest }),
        (name == "link"@ || name == "l"@) ==> console_request(seq![name, host]) == Err::<
            ConsoleActionView,
            Seq<char>,
        >("Usage: usbip-client link <host> <busid...>"@),
        (name == "link"@ || name == "l"@) ==> console_request(seq![name]) == Err::<
            ConsoleActionView,
            Seq<char>,
        >("Usage: usbip-client link <host> <busid...>"@),
        name == "help"@ || name == "-h"@ || name == "--help"@ ==> console_request(
            seq![name] + rest,
        ) == Ok::<ConsoleActionView, Seq<char>>(ConsoleActionView::Help),
        name != "search"@ && name != "s"@ && name != "list"@ && name != "link"@ && name != "l"@
            && name != "help"@ && name != "-h"@ && name != "--help"@ ==> console_request(
            seq![name] + rest,
        ) == Ok::<ConsoleActionView, Seq<char>>(ConsoleActionView::Repl),
{
    reveal_strlit("search");
    reveal_strlit("s");
    reveal_strlit("list");
    reveal_strlit("link");
    reveal_strlit("l");
    reveal_strlit("help");
    reveal_strlit("-h");
    reveal_strlit("--help");
    assert("list"@.len() == 4 && "link"@.len() == 4 && "help"@.len() == 4);
    assert("list"@[2] == 's' && "link"@[2] == 'n' && "help"@[0] == 'h');
    assert("list"@[0] == 'l' && "link"@[0] == 'l');
    assert("s"@[0] == 's' && "l"@[0] == 'l' && "search"@[0] == 's');
    assert("-h"@[0] == '-' && "--help"@[0] == '-');
    assert((seq![name, host] + rest).skip(2) =~= rest);
    assert((seq![name] + rest)[0] == name);
    assert((seq![name, host] + rest)[0] == name);
    assert((seq!["list"@, host] + rest)[0] == "list"@);
}

/// Every found server has a line with its number, counted from zero, its
/// address, its name and its version; where none was found, a line says so.
pub proof fn every_found_server_has_a_line(servers: Seq<discovery::ServerView>, i: int)
    ensures
        servers.len() == 0 ==> search_text(servers) == seq!["No usbip-server found"@],
        servers.len() > 0 ==> search_text(servers).len() == servers.len(),
        0 <= i < servers.len() ==> search_text(servers)[i] == "#"@ + number::decimal(i) + " "@
            + net::ip_text(servers[i].addr.ip) + "  name="@ + (if servers[i].info.server_name is Some {
            servers[i].info.server_name->0
        } else {
            "unknown"@
        }) + "  version="@ + (if servers[i].info.version is Some {
            servers[i].info.version->0
        } else {
            "?"@
        }),
{
}

/// Every device of a server has a line with its bus identifier, its vendor and
/// product and what it is; a dash stands for what is not known, and where there
/// is no device, a line says so.
pub proof fn every_device_has_a_line(devs: Seq<usbip::RemoteDeviceView>, i: int)
    ensures
        devs.len() == 0 ==> list_text(devs) == seq!["No devices"@],
        devs.len() > 0 ==> list_text(devs).len() == devs.len(),
        0 <= i < devs.len() ==> list_text(devs)[i] == devs[i].busid + "  vidpid="@ + (
        if devs[i].vidpid is Some {
            devs[i].vidpid->0
        } else {
            "-"@
        }) + "  desc="@ + (if devs[i].desc.len() > 0 {
            devs[i].desc
        } else {
            "-"@
        }),
{
}

/// Every device that was to be attached has a line, in their order, which says
/// `OK` exactly if it was attached, and why not otherwise.
pub proof fn every_linked_device_has_a_line(
    host: Seq<char>,
    busids: Seq<Seq<char>>,
    verdicts: Seq<Option<bool>>,
    complaint: Seq<char>,
    i: int,
)
    requires
        verdicts.len() == busids.len(),
    ensures
        link_text(host, busids, verdicts, complaint).len() == busids.len(),
        0 <= i < busids.len() ==> match verdicts[i] {
            Some(true) => link_text(host, busids, verdicts, complaint)[i] == "OK "@ + host + " "@
                + busids[i],
            _ => link_text(host, busids, verdicts, complaint)[i] == "FAIL "@ + host + " "@
                + busids[i] + ": "@ + attach::reason_of(verdicts[i], complaint),
        },
{
}

/// The servers are gone through in their order: the devices of one more server
/// come behind those of the others, each as it is and with the next number; a
/// server that did not answer adds none, and a warning in their place.
pub proof fn servers_are_listed_one_by_one(
    hosts: Seq<HostDevicesView>,
    h: HostDevicesView,
    i: int,
)
    ensures
        all_listed(Seq::empty()) == Seq::<ListedView>::empty(),
        warnings_of(Seq::empty()) == Seq::<Seq<char>>::empty(),
        ({
            let before = all_listed(hosts);
            let after = all_listed(hosts.push(h));
            match h.devices {
                Ok(devs) => {
                    &&& after.len() == before.len() + devs.len()
                    &&& forall|k: int| 0 <= k < before.len() ==> #[trigger] after[k] == before[k]
                    &&& 0 <= i < devs.len() ==> {
                        let d = after[before.len() + i];
                        &&& d.idx == before.len() + i + 1
                        &&& d.host == h.host
                        &&& d.busid == devs[i].busid
                        &&& d.vidpid == devs[i].vidpid
                        &&& devs[i].desc.len() > 0 ==> d.desc == devs[i].desc
                        &&& devs[i].desc.len() == 0 ==> d.desc == "-"@
                    }
                    &&& warnings_of(hosts.push(h)) == warnings_of(hosts)
                },
                Err(e) => {
                    &&& after == before
                    &&& warnings_of(hosts.push(h)) == warnings_of(hosts).push(
                        "warning: "@ + h.host + " list failed: "@ + failure::chain_of(e),
                    )
                },
            }
        }),
{
    assert(hosts.push(h).drop_last() =~= hosts);
}

/// A text that is too long keeps all but the last of the characters that there
/// is room for, and an ellipsis takes that place; any other stays as it is.
pub proof fn long_texts_end_in_an_ellipsis(s: Seq<char>, max: int, i: int)
    requires
        1 <= max,
    ensures
        s.len() <= max ==> truncated(s, max) == s,
        s.len() > max ==> truncated(s, max).len() == max,
        s.len() > max ==> truncated(s, max)[max - 1] == '…',
        s.len() > max && 0 <= i < max - 1 ==> truncated(s, max)[i] == s[i],
{
    reveal_strlit("…");
}

/// Padding appends blanks up to the width and changes nothing else.
pub proof fn padding_appends_blanks(s: Seq<char>, width: int)
    ensures
        padded(s, width).len() == (if s.len() >= width {
            s.len() as int
        } else {
            width
        }),
        padded(s, width).take(s.len() as int) == s,
        forall|i: int| s.len() <= i < padded(s, width).len() ==> #[trigger] padded(s, width)[i] == ' ',
    decreases width - s.len(),
{
    if s.len() < width {
        let t = s.push(' ');
        padding_appends_blanks(t, width);
        let p = padded(s, width);
        assert(p == padded(t, width));
        assert(p.take(s.len() as int) =~= s) by {
            assert forall|j: int| 0 <= j < s.len() implies p[j] == s[j] by {
                assert(p.take(t.len() as int)[j] == t[j]);
            }
        }
        assert forall|i: int| s.len() <= i < p.len() implies #[trigger] p[i] == ' ' by {
            if i == s.len() {
                assert(p.take(t.len() as int)[i] == t[i]);
            }
        }
    } else {
        assert(padded(s, width).take(s.len() as int) =~= s);
    }
}

/// The columns of the table begin at fixed places, as long as nothing is wider
/// than its column.
pub proof fn columns_begin_at_fixed_places(
    idx: Seq<char>,
    host: Seq<char>,
    busid: Seq<char>,
    vidpid: Seq<char>,
    desc: Seq<char>,
)
    requires
        idx.len() <= 6,
        host.len() <= 18,
        busid.len() <= 10,
        vidpid.len() <= 12,
    ensures
        ({
            let row = table_row(idx, host, busid, vidpid, desc);
            &&& row.len() == 50 + desc.len()
            &&& row.subrange(0, idx.len() as int) == idx
            &&& row.subrange(7, 7 + host.len() as int) == host
            &&& row.subrange(26, 26 + busid.len() as int) == busid
            &&& row.subrange(37, 37 + vidpid.len() as int) == vidpid
            &&& row.skip(50) == desc
            &&& forall|i: int|
                idx.len() <= i < 7 || 7 + host.len() <= i < 26 || 26 + busid.len() <= i < 37 || 37
                    + vidpid.len() <= i < 50 ==> #[trigger] row[i] == ' '
        }),
{
    reveal_strlit(" ");
    padding_appends_blanks(idx, 6);
    padding_appends_blanks(host, 18);
    padding_appends_blanks(busid, 10);
    padding_appends_blanks(vidpid, 12);
    let a = padded(idx, 6);
    let b = padded(host, 18);
    let c = padded(busid, 10);
    let d = padded(vidpid, 12);
    let row = table_row(idx, host, busid, vidpid, desc);
    assert(row.subrange(0, 6) =~= a);
    assert(row.subrange(7, 25) =~= b);
    assert(row.subrange(26, 36) =~= c);
    assert(row.subrange(37, 49) =~= d);
    assert(row.skip(50) =~= desc);
    assert(row.subrange(0, idx.len() as int) =~= a.take(idx.len() as int));
    assert(row.subrange(7, 7 + host.len() as int) =~= b.take(host.len() as int));
    assert(row.subrange(26, 26 + busid.len() as int) =~= c.take(busid.len() as int));
    assert(row.subrange(37, 37 + vidpid.len() as int) =~= d.take(vidpid.len() as int));
    assert forall|i: int|
        idx.len() <= i < 7 || 7 + host.len() <= i < 26 || 26 + busid.len() <= i < 37 || 37
            + vidpid.len() <= i < 50 implies #[trigger] row[i] == ' ' by {
        if i < 6 {
            assert(row[i] == a[i]);
        } else if 7 <= i < 25 {
            assert(row[i] == b[i - 7]);
        } else if 26 <= i < 36 {
            assert(row[i] == c[i - 26]);
        } else if 37 <= i < 49 {
            assert(row[i] == d[i - 37]);
        }
    }
}

/// The table has a heading and a row for each device, in their order, with its
/// number and, as far as there is room, its server, its bus identifier, its
/// vendor and product, and what it is.
pub proof fn every_listed_device_has_a_row(listed: Seq<ListedView>, i: int)
    ensures
        listed.len() == 0 ==> table_text(listed) == seq!["No devices found."@],
        listed.len() > 0 ==> {
            &&& table_text(listed).len() == listed.len() + 2
            &&& table_text(listed)[0] == ""@
            &&& table_text(listed)[1] == table_row(
                "INDEX"@,
                "HOST"@,
                "BUSID"@,
                "VID:PID"@,
                "DESC"@,
            )
        },
        0 <= i < listed.len() ==> table_text(listed)[i + 2] == table_row(
            number::decimal(listed[i].idx),
            truncated(listed[i].host, 18),
            truncated(listed[i].busid, 10),
            truncated(
                if listed[i].vidpid is Some {
                    listed[i].vidpid->0
                } else {
                    "-"@
                },
                12,
            ),
            truncated(listed[i].desc, 40),
        ),
{
}

/// A device is found by its number: where devices bear their positions, number
/// `n` is the `n`th of them, and no other number is found.
pub proof fn a_device_is_found_by_its_number(listed: Seq<ListedView>, n: int)
    requires
        well_numbered(listed),
    ensures
        1 <= n <= listed.len() ==> find_listed(listed, n) == Some(listed[n - 1]),
        n < 1 || n > listed.len() ==> find_listed(listed, n) is None,
{
    lemma_found(listed, n, 0);
    assert(listed.skip(0) =~= listed);
}

proof fn lemma_found(listed: Seq<ListedView>, n: int, from: int)
    requires
        well_numbered(listed),
        0 <= from <= listed.len(),
    ensures
        from < n <= listed.len() ==> find_listed(listed.skip(from), n) == Some(listed[n - 1]),
        n <= from || n > listed.len() ==> find_listed(listed.skip(from), n) is None,
    decreases listed.len() - from,
{
    if from < listed.len() {
        let t = listed.skip(from);
        assert(t[0] == listed[from]);
        assert(listed[from].idx == from + 1);
        assert(t.drop_first() =~= listed.skip(from + 1));
        lemma_found(listed, n, from + 1);
    }
}

/// The numbers are gone through in their order: one more takes the device that
/// bears it, and a number that no device bears takes none.
pub proof fn devices_are_chosen_one_by_one(
    listed: Seq<ListedView>,
    numbers: Seq<usize>,
    n: usize,
)
    requires
        well_numbered(listed),
    ensures
        chosen(listed, Seq::empty()) == Seq::<ListedView>::empty(),
        1 <= n <= listed.len() ==> chosen(listed, numbers.push(n)) == chosen(
            listed,
            numbers,
        ).push(listed[n - 1]),
        n == 0 || n > listed.len() ==> chosen(listed, numbers.push(n)) == chosen(listed, numbers),
{
    a_device_is_found_by_its_number(listed, n as int);
    assert(numbers.push(n).drop_last() =~= numbers);
}

/// Exactly the devices with the given numbers are connected: device `k` is
/// chosen if and only if its number is given.
pub proof fn the_devices_with_these_numbers_are_chosen(
    listed: Seq<ListedView>,
    numbers: Seq<usize>,
    k: int,
)
    requires
        well_numbered(listed),
        0 <= k < listed.len(),
        listed.len() < usize::MAX,
    ensures
        chosen(listed, numbers).contains(listed[k]) <==> numbers.contains((k + 1) as usize),
    decreases numbers.len(),
{
    if numbers.len() > 0 {
        let t = numbers.drop_last();
        let n = numbers.last();
        the_devices_with_these_numbers_are_chosen(listed, t, k);
        devices_are_chosen_one_by_one(listed, t, n);
        assert(t.push(n) =~= numbers);
        let before = chosen(listed, t);
        let after = chosen(listed, numbers);
        if numbers.contains((k + 1) as usize) {
            let j = choose|j: int| 0 <= j < numbers.len() && numbers[j] == (k + 1) as usize;
            if j < t.len() {
                assert(t[j] == (k + 1) as usize);
                let m = choose|m: int| 0 <= m < before.len() && before[m] == listed[k];
                assert(after[m] == listed[k]);
            } else {
                assert(after[after.len() - 1] == listed[k]);
            }
        }
        if after.contains(listed[k]) {
            let m = choose|m: int| 0 <= m < after.len() && after[m] == listed[k];
            if m < before.len() {
                assert(before[m] == listed[k]);
                let j = choose|j: int| 0 <= j < t.len() && t[j] == (k + 1) as usize;
                assert(numbers[j] == (k + 1) as usize);
            } else {
                assert(listed[n - 1].idx == n);
                assert(listed[k].idx == k + 1);
                assert(numbers[numbers.len() - 1] == (k + 1) as usize);
            }
        }
    }
}

/// What `connect` does: without words, with numbers that are none and where no
/// device bears any of the numbers, it says so; else it connects the devices
/// that bear them.
pub proof fn connecting_needs_known_numbers(listed: Seq<ListedView>, words: Seq<Seq<char>>)
    ensures
        words.len() == 0 ==> connect_request(listed, words) == ReplActionView::Print(
            seq!["Usage: connect <indices> (e.g., c 1,3-5)"@],
        ),
        words.len() > 0 ==> {
            let parts = indices::spec_parts(text::join_of(words, " "@));
            match indices::first_error(parts) {
                Some(e) => connect_request(listed, words) == ReplActionView::Print(
                    seq!["Invalid indices: "@ + e],
                ),
                None => {
                    let found = chosen(listed, indices::numbers_of(parts));
                    &&& found.len() == 0 ==> connect_request(listed, words)
                        == ReplActionView::Print(seq!["No matching devices."@])
                    &&& found.len() > 0 ==> connect_request(listed, words)
                        == ReplActionView::Connect(found)
                },
            }
        },
{
}

/// A line is known by its first word, whatever white space stands before it; a
/// blank line asks for nothing, and a word that is no command is complained
/// about.
pub proof fn a_line_is_known_by_its_first_word(
    listed: Seq<ListedView>,
    blank: Seq<char>,
    word: Seq<char>,
    rest: Seq<char>,
)
    requires
        forall|i: int| 0 <= i < blank.len() ==> text::is_ws(#[trigger] blank[i]),
        forall|i: int| 0 <= i < word.len() ==> !text::is_ws(#[trigger] word[i]),
        word.len() > 0,
        rest.len() > 0 ==> text::is_ws(rest[0]),
    ensures
        line_request(listed, blank) is Nothing,
        word == "quit"@ || word == "exit"@ || word == "q"@ <==> line_request(
            listed,
            blank + word + rest,
        ) is Quit,
        word == "list"@ || word == "l"@ <==> line_request(
            listed,
            blank + word + rest,
        ) is Refresh,
        word == "help"@ || word == "h"@ || word == "?"@ ==> line_request(
            listed,
            blank + word + rest,
        ) == ReplActionView::Print(repl_help_text()),
        word == "connect"@ || word == "c"@ ==> line_request(listed, blank + word + rest)
            == connect_request(listed, text::words_of(rest)),
        !(word == "quit"@ || word == "exit"@ || word == "q"@ || word == "list"@ || word == "l"@
            || word == "help"@ || word == "h"@ || word == "?"@ || word == "connect"@ || word
            == "c"@) ==> line_request(listed, blank + word + rest) == ReplActionView::Print(
            seq!["Unknown command: "@ + word],
        ),
{
    text::words_are_split_at_white_space(blank, word, rest);
    let w = text::words_of(blank + word + rest);
    assert(w[0] == word);
    assert(w.skip(1) =~= text::words_of(rest));
    reveal_strlit("quit");
    reveal_strlit("exit");
    reveal_strlit("q");
    reveal_strlit("list");
    reveal_strlit("l");
    reveal_strlit("help");
    reveal_strlit("h");
    reveal_strlit("?");
    reveal_strlit("connect");
    reveal_strlit("c");
    assert("quit"@[0] == 'q' && "exit"@[0] == 'e' && "q"@[0] == 'q' && "list"@[0] == 'l'
        && "l"@[0] == 'l' && "help"@[0] == 'h' && "h"@[0] == 'h' && "?"@[0] == '?'
        && "connect"@[0] == 'c' && "c"@[0] == 'c');
}

/// How the console is used, word for word.
pub proof fn help_names_every_command()
    ensures
        help_text() == seq![
            "usbip-client console mode"@,
            ""@,
            "Subcommands:"@,
            "  usbip-client search|s"@,
            "  usbip-client list <host>"@,
            "  usbip-client link|l <host> <busid...>"@,
            ""@,
            "Interactive (default): run `usbip-client` to enter REPL. Type `help` for commands."@,
        ],
        repl_help_text() == seq![
            "Commands:"@,
            "  list, l          Refresh and show all devices"@,
            "  connect, c <#>   Connect devices (e.g., c 1,3-5)"@,
            "  help             Show this help"@,
            "  quit, q          Exit"@,
        ],
{
}

/// No run is without a device.
pub proof fn no_batch_is_empty(targets: Seq<ListedView>, i: int)
    requires
        0 <= i < batches_of(targets).len(),
    ensures
        batches_of(targets)[i].busids.len() > 0,
    decreases targets.len(),
{
    if targets.len() > 0 {
        let before = batches_of(targets.drop_last());
        if i < before.len() {
            no_batch_is_empty(targets.drop_last(), i);
        }
    }
}

/// What a contract says of a listed device, an answer or a batch, it says of its
/// fields.
pub proof fn listed_views_show_the_fields(
    v: Seq<ListedDevice>,
    h: Seq<HostDevices>,
    b: Seq<HostBatch>,
    i: int,
)
    ensures
        listed_views(v).len() == v.len(),
        0 <= i < v.len() ==> {
            let w = listed_views(v)[i];
            w.idx == v[i].idx && w.host == v[i].host@ && w.busid == v[i].busid@ && w.desc
                == v[i].desc@ && w.vidpid == text::opt_text(v[i].vidpid)
        },
        host_views(h).len() == h.len(),
        0 <= i < h.len() ==> host_views(h)[i].host == h[i].host@,
        0 <= i < h.len() ==> match h[i].devices {
            Ok(d) => host_views(h)[i].devices == Ok::<
                Seq<usbip::RemoteDeviceView>,
                failure::FailureView,
            >(usbip::device_views(d@)),
            Err(e) => host_views(h)[i].devices == Err::<
                Seq<usbip::RemoteDeviceView>,
                failure::FailureView,
            >(e@),
        },
        batch_views(b).len() == b.len(),
        0 <= i < b.len() ==> batch_views(b)[i].host == b[i].host@ && batch_views(b)[i].busids
            == text::texts(b[i].busids@),
{
}

} // verus!
