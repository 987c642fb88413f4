//! Attaching several devices of one server in one privileged run.

use vstd::prelude::*;

use crate::client::laws;
use crate::client::privilege;
use crate::client::privilege::PrivilegeMode;
use crate::client::usbip;
use crate::client::usbip::RemoteDevice;
use crate::failure;
use crate::failure::Failure;
use crate::process;
use crate::process::RunOutcome;
use crate::text;

verus! {

/// The programs that the client runs.
#[derive(Debug)]
pub struct UsbIp {
    pub usbip_bin: String,
    pub modprobe_bin: String,
}

impl Clone for UsbIp {
    fn clone(&self) -> (r: UsbIp)
        ensures
            r.usbip_bin@ == self.usbip_bin@,
            r.modprobe_bin@ == self.modprobe_bin@,
    {
        UsbIp { usbip_bin: self.usbip_bin.clone(), modprobe_bin: self.modprobe_bin.clone() }
    }
}

/// Where `usbip` is looked for, in this order.
pub open spec fn usbip_places() -> Seq<Seq<char>> {
    seq!["/usr/sbin/usbip"@, "/usr/bin/usbip"@, "/sbin/usbip"@]
}

/// Where `modprobe` is looked for, in this order.
pub open spec fn modprobe_places() -> Seq<Seq<char>> {
    seq!["/usr/sbin/modprobe"@, "/sbin/modprobe"@, "/usr/bin/modprobe"@]
}

/// The places that show that the `vhci-hcd` kernel module is loaded.
pub open spec fn vhci_places() -> Seq<Seq<char>> {
    seq![
        "/sys/module/vhci_hcd"@,
        "/sys/module/vhci-hcd"@,
        "/sys/bus/platform/drivers/vhci_hcd"@,
    ]
}

/// The program that runs the script.
pub const SHELL: &'static str = "/bin/sh";

/// The shell script that loads the kernel module where it is missing and then
/// attaches one bus identifier after the other, with a status line for each.
pub const BATCH_SCRIPT: &'static str = r#"modprobe="$1"
usbip="$2"
host="$3"
shift 3
if [ ! -d /sys/module/vhci_hcd ] && [ ! -d /sys/module/vhci-hcd ] && [ ! -d /sys/bus/platform/drivers/vhci_hcd ]; then
  "$modprobe" vhci-hcd 2>/dev/null || true
fi
for b in "$@"; do
  if "$usbip" attach -r "$host" -b "$b"; then
    echo "USBIP_BATCH_OK $b"
  else
    echo "USBIP_BATCH_FAIL $b"
  fi
done"#;

/// Where `usbip` is looked for, in this order.
pub fn usbip_candidates() -> (r: Vec<String>)
    ensures
        text::texts(r@) == usbip_places(),
{
    let r = vec![
        "/usr/sbin/usbip".to_string(),
        "/usr/bin/usbip".to_string(),
        "/sbin/usbip".to_string(),
    ];
    assert(text::texts(r@) =~= usbip_places());
    r
}

/// Where `modprobe` is looked for, in this order.
pub fn modprobe_candidates() -> (r: Vec<String>)
    ensures
        text::texts(r@) == modprobe_places(),
{
    let r = vec![
        "/usr/sbin/modprobe".to_string(),
        "/sbin/modprobe".to_string(),
        "/usr/bin/modprobe".to_string(),
    ];
    assert(text::texts(r@) =~= modprobe_places());
    r
}

/// The places that show that the kernel module is loaded.
pub fn vhci_candidates() -> (r: Vec<String>)
    ensures
        text::texts(r@) == vhci_places(),
{
    let r = vec![
        "/sys/module/vhci_hcd".to_string(),
        "/sys/module/vhci-hcd".to_string(),
        "/sys/bus/platform/drivers/vhci_hcd".to_string(),
    ];
    assert(text::texts(r@) =~= vhci_places());
    r
}

/// Whether the kernel module is loaded, given the files that are present.
pub fn is_vhci_loaded(present: &Vec<String>) -> (r: bool)
    ensures
        r == (privilege::first_present(vhci_places(), text::texts(present@)) is Some),
        r == (text::texts(present@).contains("/sys/module/vhci_hcd"@) || text::texts(
            present@,
        ).contains("/sys/module/vhci-hcd"@) || text::texts(present@).contains(
            "/sys/bus/platform/drivers/vhci_hcd"@,
        )),
{
    proof {
        laws::programs_are_looked_for_in_order(text::texts(present@));
    }
    privilege::pick_present(&vhci_candidates(), present).is_some()
}

/// A path if there is one, else a bare name.
pub open spec fn path_or(p: Option<Seq<char>>, name: Seq<char>) -> Seq<char> {
    match p {
        Some(s) => s,
        None => name,
    }
}

impl UsbIp {
    /// The programs to use, given the files that are present: the first of the
    /// usual places, else the bare name.
    pub fn from_present(present: &Vec<String>) -> (r: UsbIp)
        ensures
            r.usbip_bin@ == path_or(
                privilege::first_present(usbip_places(), text::texts(present@)),
                "usbip"@,
            ),
            r.modprobe_bin@ == path_or(
                privilege::first_present(modprobe_places(), text::texts(present@)),
                "modprobe"@,
            ),
    {
        let usbip_bin = match privilege::pick_present(&usbip_candidates(), present) {
            Some(p) => p,
            None => "usbip".to_string(),
        };
        let modprobe_bin = match privilege::pick_present(&modprobe_candidates(), present) {
            Some(p) => p,
            None => "modprobe".to_string(),
        };
        UsbIp { usbip_bin, modprobe_bin }
    }

    /// The arguments of `usbip` that list the devices of `host`.
    pub fn list_args(&self, host: &str) -> (r: Vec<String>)
        ensures
            text::texts(r@) == seq!["list"@, "-r"@, host@],
    {
        let r = vec!["list".to_string(), "-r".to_string(), host.to_string()];
        assert(text::texts(r@) =~= seq!["list"@, "-r"@, host@]);
        r
    }

    /// The devices that a run of `usbip list -r` offers: those of its output
    /// when it succeeded, else an error with what went wrong.
    pub fn list_remote_devices(&self, outcome: &RunOutcome) -> (r: Result<
        Vec<RemoteDevice>,
        Failure,
    >)
        ensures
            match (r, *outcome) {
                (Ok(devices), RunOutcome::Finished { success, stdout, .. }) => success
                    && usbip::device_views(devices@) == usbip::offered_devices(
                    process::utf8_lossy(stdout@),
                ),
                (Err(e), RunOutcome::Finished { success, stderr, .. }) => !success && e@
                    == failure::plain_of(
                    "usbip list -r failed: "@ + process::utf8_lossy(stderr@),
                ),
                (Err(e), RunOutcome::NotStarted(why)) => e@ == failure::wrapped_of(
                    "usbip list -r"@,
                    why@,
                ),
                (Ok(_), RunOutcome::NotStarted(_)) => false,
            },
    {
        match outcome {
            RunOutcome::NotStarted(why) => Err(Failure::wrapped("usbip list -r", why)),
            RunOutcome::Finished { success, stdout, stderr } => {
                if !*success {
                    let why = process::lossy_text(stderr);
                    let m = text::cat("usbip list -r failed: ", why.as_str());
                    return Err(Failure::plain(m.as_str()));
                }
                let s = process::lossy_text(stdout);
                Ok(usbip::parse_devices_from_usbip_list_remote(s.as_str()))
            },
        }
    }

    /// The arguments of `/bin/sh` that attach `busids` of `host`.
    fn attach_args(&self, host: &str, busids: &Vec<String>) -> (r: Vec<String>)
        ensures
            text::texts(r@) == script_args(
                self.modprobe_bin@,
                self.usbip_bin@,
                host@,
                text::texts(busids@),
            ),
    {
        let mut argv = vec![
            "-c".to_string(),
            BATCH_SCRIPT.to_string(),
            "_".to_string(),
            self.modprobe_bin.clone(),
            self.usbip_bin.clone(),
            host.to_string(),
        ];
        assert(text::texts(argv@) =~= seq![
            "-c"@,
            BATCH_SCRIPT@,
            "_"@,
            self.modprobe_bin@,
            self.usbip_bin@,
            host@,
        ]);
        text::push_all(&mut argv, busids);
        argv
    }

    /// The program and the arguments that attach `busids` of `host`. Nothing is
    /// to be run when no device is asked for and the kernel module is loaded.
    pub fn attach_start(&self, host: &str, busids: &Vec<String>, vhci_loaded: bool) -> (r: Option<
        (String, Vec<String>),
    >)
        ensures
            match r {
                None => busids@.len() == 0 && vhci_loaded,
                Some((program, args)) => {
                    &&& !(busids@.len() == 0 && vhci_loaded)
                    &&& program@ == SHELL@
                    &&& program@ == "/bin/sh"@
                    &&& text::texts(args@) == script_args(
                        self.modprobe_bin@,
                        self.usbip_bin@,
                        host@,
                        text::texts(busids@),
                    )
                },
            },
    {
        if busids.len() == 0 && vhci_loaded {
            return None;
        }
        Some((SHELL.to_string(), self.attach_args(host, busids)))
    }

    /// What a run of the script says of the devices, or why it failed.
    pub fn attach_batch(
        &self,
        mode: PrivilegeMode,
        host: &str,
        busids: &Vec<String>,
        outcome: &RunOutcome,
    ) -> (r: Result<BatchResult, Failure>)
        ensures
            match r {
                Ok(b) => batch_failure(mode, host@, *outcome) is None && b.verdicts@
                    == verdicts_of(process::printed(*outcome), text::texts(busids@)) && b.complaint@
                    == complaint(process::complained(*outcome)),
                Err(e) => batch_failure(mode, host@, *outcome) == Some(e@),
            },
    {
        match outcome {
            RunOutcome::NotStarted(why) => Err(Failure::wrapped("usbip attach (batch)", why)),
            RunOutcome::Finished { success, stdout, stderr } => {
                let out = process::lossy_text(stdout);
                let err = process::lossy_text(stderr);
                read_batch(mode, host, busids, *success, out.as_str(), err.as_str())
            },
        }
    }

    /// The log lines for the devices, one for each bus identifier and in the
    /// order in which they were asked for, or why the run failed.
    pub fn attach_many(
        &self,
        mode: PrivilegeMode,
        host: &str,
        busids: &Vec<String>,
        outcome: &RunOutcome,
    ) -> (r: Result<Vec<String>, Failure>)
        ensures
            match r {
                Ok(lines) => batch_failure(mode, host@, *outcome) is None && text::texts(lines@)
                    == attach_lines(
                    host@,
                    text::texts(busids@),
                    verdicts_of(process::printed(*outcome), text::texts(busids@)),
                    complaint(process::complained(*outcome)),
                ),
                Err(e) => batch_failure(mode, host@, *outcome) == Some(e@),
            },
    {
        match self.attach_batch(mode, host, busids, outcome) {
            Ok(b) => Ok(batch_report(host, busids, &b)),
            Err(e) => Err(e),
        }
    }
}

/// The arguments of `/bin/sh` that attach `busids` of `host`.
pub open spec fn script_args(
    modprobe: Seq<char>,
    usbip: Seq<char>,
    host: Seq<char>,
    busids: Seq<Seq<char>>,
) -> Seq<Seq<char>> {
    seq!["-c"@, BATCH_SCRIPT@, "_"@, modprobe, usbip, host] + busids
}

// ---------------------------------------------------------------------------
// Status lines
// ---------------------------------------------------------------------------
/// The bus identifier and the verdict that a status line reports.
pub open spec fn status_of(line: Seq<char>) -> Option<(Seq<char>, bool)> {
    let t = text::trim_of(line);
    if text::has_prefix(t, "USBIP_BATCH_OK "@) {
        Some((text::trim_of(t.skip("USBIP_BATCH_OK "@.len() as int)), true))
    } else if text::has_prefix(t, "USBIP_BATCH_FAIL "@) {
        Some((text::trim_of(t.skip("USBIP_BATCH_FAIL "@.len() as int)), false))
    } else {
        None
    }
}

/// The verdict on `busid` in the lines: that of the last status line for it.
pub open spec fn verdict_of(lines: Seq<Seq<char>>, busid: Seq<char>) -> Option<bool>
    decreases lines.len(),
{
    if lines.len() == 0 {
        None
    } else {
        match status_of(lines.last()) {
            Some((b, ok)) if b == busid => Some(ok),
            _ => verdict_of(lines.drop_last(), busid),
        }
    }
}

fn status_line(line: &[char]) -> (r: Option<(String, bool)>)
    ensures
        match r {
            Some((b, ok)) => status_of(line@) == Some((b@, ok)),
            None => status_of(line@) is None,
        },
{
    let t = text::trim(line);
    if let Some(rest) = text::strip_prefix(t, "USBIP_BATCH_OK ") {
        Some((text::string_of(text::trim(rest)), true))
    } else if let Some(rest) = text::strip_prefix(t, "USBIP_BATCH_FAIL ") {
        Some((text::string_of(text::trim(rest)), false))
    } else {
        None
    }
}

fn verdict(lines: &Vec<&[char]>, busid: &str) -> (r: Option<bool>)
    ensures
        r == verdict_of(text::pieces(lines@), busid@),
{
    let ghost all = text::pieces(lines@);
    let mut i: usize = lines.len();
    assert(all.take(all.len() as int) =~= all);
    while i > 0
        invariant
            i <= lines@.len(),
            all == text::pieces(lines@),
            verdict_of(all, busid@) == verdict_of(all.take(i as int), busid@),
        decreases i,
    {
        i = i - 1;
        proof {
            let t = all.take(i + 1);
            assert(t.drop_last() =~= all.take(i as int));
            assert(t.last() == lines@[i as int]@);
        }
        if let Some((b, ok)) = status_line(lines[i]) {
            if text::same_text(b.as_str(), busid) {
                return Some(ok);
            }
        }
    }
    assert(all.take(0) =~= Seq::<Seq<char>>::empty());
    None
}

/// The verdicts on the bus identifiers, in their order.
pub open spec fn verdicts_of(stdout: Seq<char>, busids: Seq<Seq<char>>) -> Seq<Option<bool>> {
    Seq::new(busids.len(), |i: int| verdict_of(text::lines_of(stdout), busids[i]))
}

/// What the output of the script says of each bus identifier: attached,
/// refused, or nothing.
pub fn attach_verdicts(stdout: &str, busids: &Vec<String>) -> (r: Vec<Option<bool>>)
    ensures
        r@ == verdicts_of(stdout@, text::texts(busids@)),
{
    let cs = text::chars_of(stdout);
    let lines = text::lines(&cs);
    let mut out: Vec<Option<bool>> = Vec::new();
    let mut i: usize = 0;
    while i < busids.len()
        invariant
            i <= busids@.len(),
            text::pieces(lines@) == text::lines_of(stdout@),
            out@ == verdicts_of(stdout@, text::texts(busids@)).take(i as int),
        decreases busids.len() - i,
    {
        let v = verdict(&lines, busids[i].as_str());
        out.push(v);
        assert(verdicts_of(stdout@, text::texts(busids@))[i as int] == v);
        i = i + 1;
    }
    assert(out@ =~= verdicts_of(stdout@, text::texts(busids@)));
    out
}

// ---------------------------------------------------------------------------
// Reports
// ---------------------------------------------------------------------------
/// A trimmed complaint in brackets, or nothing.
pub open spec fn complaint(stderr: Seq<char>) -> Seq<char> {
    let t = text::trim_of(stderr);
    if t.len() == 0 {
        Seq::empty()
    } else {
        " ("@ + t + ")"@
    }
}

/// Why a device was not attached, if it was not.
pub open spec fn reason_of(verdict: Option<bool>, complaint: Seq<char>) -> Seq<char> {
    match verdict {
        Some(true) => Seq::empty(),
        Some(false) => "usbip attach 返回非零"@ + complaint,
        None => "批处理未返回状态（stdout 中缺少 USBIP_BATCH_* 行）"@ + complaint,
    }
}

/// The log line for one device.
pub open spec fn attach_line(
    host: Seq<char>,
    busid: Seq<char>,
    verdict: Option<bool>,
    complaint: Seq<char>,
) -> Seq<char> {
    if verdict == Some(true) {
        "attach 成功: "@ + host + " "@ + busid
    } else {
        "attach 失败: "@ + host + " "@ + busid + ": "@ + reason_of(verdict, complaint)
    }
}

/// The log lines for the devices, in their order.
pub open spec fn attach_lines(
    host: Seq<char>,
    busids: Seq<Seq<char>>,
    verdicts: Seq<Option<bool>>,
    complaint: Seq<char>,
) -> Seq<Seq<char>> {
    Seq::new(busids.len(), |i: int| attach_line(host, busids[i], verdicts[i], complaint))
}

fn complaint_text(stderr: &str) -> (r: String)
    ensures
        r@ == complaint(stderr@),
{
    let cs = text::chars_of(stderr);
    let t = text::trim(&cs);
    if t.len() == 0 {
        String::new()
    } else {
        let mut s = " (".to_string();
        s.append(text::string_of(t).as_str());
        s.append(")");
        s
    }
}

/// Why a device was not attached.
pub fn reason_text(verdict: Option<bool>, complaint: &str) -> (r: String)
    ensures
        r@ == reason_of(verdict, complaint@),
{
    match verdict {
        Some(ok) => if ok {
            String::new()
        } else {
            text::cat("usbip attach 返回非零", complaint)
        },
        None => text::cat("批处理未返回状态（stdout 中缺少 USBIP_BATCH_* 行）", complaint),
    }
}

fn line_text(host: &str, busid: &str, verdict: Option<bool>, complaint: &str) -> (r: String)
    ensures
        r@ == attach_line(host@, busid@, verdict, complaint@),
{
    if let Some(true) = verdict {
        let mut s = "attach 成功: ".to_string();
        s.append(host);
        s.append(" ");
        s.append(busid);
        s
    } else {
        let mut s = "attach 失败: ".to_string();
        s.append(host);
        s.append(" ");
        s.append(busid);
        s.append(": ");
        s.append(reason_text(verdict, complaint).as_str());
        s
    }
}

/// What is added when `pkexec` complains about the desktop session.
pub open spec fn hint_of(stderr: Seq<char>) -> Seq<char> {
    let low = text::ascii_lower_of(stderr);
    if text::occurs_in(low, "no authentication agent found"@) || text::occurs_in(
        low,
        "no session"@,
    ) || text::occurs_in(low, "agent"@) {
        "（提示：看起来缺少/未启动 polkit 认证代理。KDE 可安装并启动 polkit agent，例如包 `polkit-kde-agent-1`。）"@
    } else if text::occurs_in(low, "cannot open display"@) || text::occurs_in(low, "display"@) {
        "（提示：pkexec 无法连接到图形会话 DISPLAY/WAYLAND。请从桌面会话启动，或检查环境变量/桌面文件 Exec。）"@
    } else {
        Seq::empty()
    }
}

/// What is added when `pkexec` complains about the desktop session.
///
/// The phrases are looked for regardless of case. They are ASCII without a `k`
/// and do not end in `i`, so the case of ASCII letters is all that matters: the
/// only other characters with an ASCII letter in their lower case are the
/// Kelvin sign and the dotted capital I, whose dot stays behind as a mark.
pub fn pkexec_stderr_hint(stderr: &str) -> (r: &'static str)
    ensures
        r@ == hint_of(stderr@),
{
    let cs = text::chars_of(stderr);
    let low = text::to_ascii_lower(&cs);
    if text::contains_text(&low, "no authentication agent found") || text::contains_text(
        &low,
        "no session",
    ) || text::contains_text(&low, "agent") {
        return "（提示：看起来缺少/未启动 polkit 认证代理。KDE 可安装并启动 polkit agent，例如包 `polkit-kde-agent-1`。）";
    }
    if text::contains_text(&low, "cannot open display") || text::contains_text(&low, "display") {
        return "（提示：pkexec 无法连接到图形会话 DISPLAY/WAYLAND。请从桌面会话启动，或检查环境变量/桌面文件 Exec。）";
    }
    proof {
        reveal_strlit("");
        assert(""@ =~= Seq::<char>::empty());
    }
    ""
}

/// What is said when the whole run failed.
pub open spec fn batch_error(mode: PrivilegeMode, host: Seq<char>, stderr: Seq<char>) -> Seq<char> {
    match mode {
        PrivilegeMode::GuiPkexec => "usbip attach batch failed (GUI/pkexec) (host="@ + host + "): "@
            + text::trim_of(stderr) + hint_of(stderr),
        PrivilegeMode::ConsoleSudo => "usbip attach batch failed (console/sudo) (host="@ + host
            + "): "@ + text::trim_of(stderr),
    }
}

fn batch_error_text(mode: PrivilegeMode, host: &str, stderr: &str) -> (r: String)
    ensures
        r@ == batch_error(mode, host@, stderr@),
{
    let cs = text::chars_of(stderr);
    let t = text::string_of(text::trim(&cs));
    match mode {
        PrivilegeMode::GuiPkexec => {
            let mut s = "usbip attach batch failed (GUI/pkexec) (host=".to_string();
            s.append(host);
            s.append("): ");
            s.append(t.as_str());
            s.append(pkexec_stderr_hint(stderr));
            s
        },
        PrivilegeMode::ConsoleSudo => {
            let mut s = "usbip attach batch failed (console/sudo) (host=".to_string();
            s.append(host);
            s.append("): ");
            s.append(t.as_str());
            s
        },
    }
}

/// What a run of the script says of the devices: the verdict on each and the
/// complaint that goes with it.
#[derive(Debug)]
pub struct BatchResult {
    pub verdicts: Vec<Option<bool>>,
    pub complaint: String,
}

/// Reads a finished run of the script.
pub fn read_batch(
    mode: PrivilegeMode,
    host: &str,
    busids: &Vec<String>,
    success: bool,
    stdout: &str,
    stderr: &str,
) -> (r: Result<BatchResult, Failure>)
    ensures
        match r {
            Ok(b) => success && b.verdicts@ == verdicts_of(stdout@, text::texts(busids@))
                && b.complaint@ == complaint(stderr@),
            Err(e) => !success && e@ == failure::plain_of(batch_error(mode, host@, stderr@)),
        },
{
    if !success {
        return Err(Failure::plain(batch_error_text(mode, host, stderr).as_str()));
    }
    Ok(
        BatchResult {
            verdicts: attach_verdicts(stdout, busids),
            complaint: complaint_text(stderr),
        },
    )
}

/// The log lines for the devices: one for each bus identifier, in the order in
/// which they were asked for.
pub fn batch_report(host: &str, busids: &Vec<String>, b: &BatchResult) -> (r: Vec<String>)
    requires
        b.verdicts@.len() == busids@.len(),
    ensures
        text::texts(r@) == attach_lines(
            host@,
            text::texts(busids@),
            b.verdicts@,
            b.complaint@,
        ),
{
    let ghost want = attach_lines(host@, text::texts(busids@), b.verdicts@, b.complaint@);
    let mut out: Vec<String> = Vec::new();
    let mut i: usize = 0;
    while i < busids.len()
        invariant
            i <= busids@.len(),
            b.verdicts@.len() == busids@.len(),
            want == attach_lines(host@, text::texts(busids@), b.verdicts@, b.complaint@),
            out@.len() == i,
            forall|j: int| 0 <= j < i ==> (#[trigger] out@[j])@ == want[j],
        decreases busids.len() - i,
    {
        out.push(line_text(host, busids[i].as_str(), b.verdicts[i], b.complaint.as_str()));
        i = i + 1;
    }
    assert(text::texts(out@) =~= want);
    out
}

/// Why a run of the script failed, if it did.
pub open spec fn batch_failure(mode: PrivilegeMode, host: Seq<char>, o: RunOutcome) -> Option<
    failure::FailureView,
> {
    match o {
        RunOutcome::NotStarted(why) => Some(failure::wrapped_of("usbip attach (batch)"@, why@)),
        RunOutcome::Finished { success, .. } => if success {
            None
        } else {
            Some(failure::plain_of(batch_error(mode, host, process::complained(o))))
        },
    }
}

// ---------------------------------------------------------------------------
// What the report satisfies
// ---------------------------------------------------------------------------
/// A successful run is reported with exactly one line for each device that was
/// asked for, in the same order.
pub proof fn one_line_for_each_device(
    host: Seq<char>,
    busids: Seq<Seq<char>>,
    stdout: Seq<char>,
    stderr: Seq<char>,
)
    ensures
        attach_lines(host, busids, verdicts_of(stdout, busids), complaint(stderr)).len()
            == busids.len(),
        forall|i: int|
            0 <= i < busids.len() ==> #[trigger] attach_lines(
                host,
                busids,
                verdicts_of(stdout, busids),
                complaint(stderr),
            )[i] == attach_line(
                host,
                busids[i],
                verdict_of(text::lines_of(stdout), busids[i]),
                complaint(stderr),
            ),
{
}

/// A later status line for a device overrides an earlier one, and a line that
/// is no status line for it changes nothing.
pub proof fn last_status_line_counts(lines: Seq<Seq<char>>, line: Seq<char>, busid: Seq<char>)
    ensures
        verdict_of(lines.push(line), busid) == (match status_of(line) {
            Some((b, ok)) if b == busid => Some(ok),
            _ => verdict_of(lines, busid),
        }),
{
    assert(lines.push(line).drop_last() =~= lines);
}

/// The status line that the script prints for a device.
pub open spec fn status_line_for(busid: Seq<char>, ok: bool) -> Seq<char> {
    if ok {
        "USBIP_BATCH_OK "@ + busid
    } else {
        "USBIP_BATCH_FAIL "@ + busid
    }
}

/// A status line reads back as the device and the verdict that it was printed
/// for.
pub proof fn status_line_reads_back(busid: Seq<char>, ok: bool)
    requires
        usbip::is_busid(busid),
    ensures
        status_of(status_line_for(busid, ok)) == Some((busid, ok)),
{
    reveal_strlit("USBIP_BATCH_OK ");
    reveal_strlit("USBIP_BATCH_FAIL ");
    let line = status_line_for(busid, ok);
    assert(usbip::is_alnum(busid[0]) || busid[0] == '-' || busid[0] == '.');
    assert(usbip::is_alnum(busid[busid.len() - 1]) || busid[busid.len() - 1] == '-'
        || busid[busid.len() - 1] == '.');
    assert(line.last() == busid.last());
    assert(line[0] == 'U');
    text::lemma_trim_of_trimmed(line);
    text::lemma_trim_of_trimmed(busid);
    if ok {
        assert(line.take("USBIP_BATCH_OK "@.len() as int) =~= "USBIP_BATCH_OK "@);
        assert(line.skip("USBIP_BATCH_OK "@.len() as int) =~= busid);
    } else {
        assert(line[12] == 'F');
        assert(line.take("USBIP_BATCH_OK "@.len() as int)[12] == 'F');
        assert("USBIP_BATCH_OK "@[12] == 'O');
        assert(line.take("USBIP_BATCH_FAIL "@.len() as int) =~= "USBIP_BATCH_FAIL "@);
        assert(line.skip("USBIP_BATCH_FAIL "@.len() as int) =~= busid);
    }
}

proof fn lemma_verdict(lines: Seq<Seq<char>>, busid: Seq<char>, ok: bool)
    requires
        exists|i: int| 0 <= i < lines.len() && status_of(#[trigger] lines[i]) == Some((busid, ok)),
        forall|i: int|
            0 <= i < lines.len() ==> (status_of(#[trigger] lines[i]) matches Some((b, x)) ==> b
                == busid ==> x == ok),
    ensures
        verdict_of(lines, busid) == Some(ok),
    decreases lines.len(),
{
    let t = lines.drop_last();
    let i = choose|i: int|
        0 <= i < lines.len() && status_of(#[trigger] lines[i]) == Some((busid, ok));
    match status_of(lines.last()) {
        Some((b, x)) if b == busid => {
            assert(lines[lines.len() - 1] == lines.last());
        },
        _ => {
            assert(i < t.len());
            assert(t[i] == lines[i]);
            assert forall|j: int| 0 <= j < t.len() implies (status_of(
                #[trigger] t[j],
            ) matches Some((b, x)) ==> b == busid ==> x == ok) by {
                assert(t[j] == lines[j]);
            }
            lemma_verdict(t, busid, ok);
        },
    }
}

/// Each device is reported with the verdict that the script printed for it,
/// whatever else was printed in between: the output has a status line for every
/// device, and no status line that says something else.
pub proof fn every_device_gets_its_verdict(
    lines: Seq<Seq<char>>,
    busids: Seq<Seq<char>>,
    oks: Seq<bool>,
)
    requires
        busids.len() == oks.len(),
        busids.no_duplicates(),
        forall|i: int| 0 <= i < busids.len() ==> usbip::is_busid(#[trigger] busids[i]),
        forall|k: int|
            0 <= k < lines.len() ==> !(#[trigger] lines[k]).contains('\n') && !(lines[k].len() > 0
                && lines[k].last() == '\r'),
        forall|i: int|
            0 <= i < busids.len() ==> lines.contains(
                status_line_for(#[trigger] busids[i], oks[i]),
            ),
        forall|k: int|
            0 <= k < lines.len() && status_of(#[trigger] lines[k]) is Some ==> exists|i: int|
                0 <= i < busids.len() && lines[k] == status_line_for(#[trigger] busids[i], oks[i]),
    ensures
        verdicts_of(text::unlines(lines), busids) == Seq::new(
            busids.len(),
            |i: int| Some(oks[i]),
        ),
{
    text::lines_read_back(lines);
    let want = Seq::new(busids.len(), |i: int| Some(oks[i]));
    assert forall|i: int| 0 <= i < busids.len() implies verdict_of(lines, #[trigger] busids[i])
        == Some(oks[i]) by {
        status_line_reads_back(busids[i], oks[i]);
        let k = choose|k: int|
            0 <= k < lines.len() && lines[k] == status_line_for(busids[i], oks[i]);
        assert(status_of(lines[k]) == Some((busids[i], oks[i])));
        assert forall|j: int| 0 <= j < lines.len() implies (status_of(
            #[trigger] lines[j],
        ) matches Some((b, x)) ==> b == busids[i] ==> x == oks[i]) by {
            if status_of(lines[j]) is Some {
                let h = choose|h: int|
                    0 <= h < busids.len() && lines[j] == status_line_for(
                        #[trigger] busids[h],
                        oks[h],
                    );
                status_line_reads_back(busids[h], oks[h]);
            }
        }
        lemma_verdict(lines, busids[i], oks[i]);
    }
    assert(verdicts_of(text::unlines(lines), busids) =~= want);
}

} // verus!
