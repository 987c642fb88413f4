//! The `usbip` command on the server: what is bound, what is free, and what
//! the rules ask to be bound.

use vstd::prelude::*;

use crate::failure;
use crate::failure::Failure;
use crate::process;
use crate::process::RunOutcome;
use crate::server::rules;
use crate::server::rules::{DeviceFingerprint, Rule, RuleAction, RulesFile};
use crate::text;
use crate::text_set;
use crate::text_set::TextSet;

verus! {

/// The directory whose links show what is exported.
pub const USBIP_HOST_SYSFS: &'static str = "/sys/bus/usb/drivers/usbip-host";

/// The state of an exported device.
#[derive(Debug)]
pub struct PortStatus {
    /// Whether a client is connected to it.
    pub in_use: bool,
    /// The address of that client, where it is known.
    pub remote: Option<String>,
}

/// A `PortStatus` as mathematical values.
#[verifier::ext_equal]
pub struct PortStatusView {
    pub in_use: bool,
    pub remote: Option<Seq<char>>,
}

impl View for PortStatus {
    type V = PortStatusView;

    open spec fn view(&self) -> PortStatusView {
        PortStatusView { in_use: self.in_use, remote: text::opt_text(self.remote) }
    }
}

impl Clone for PortStatus {
    fn clone(&self) -> (r: PortStatus)
        ensures
            r@ == self@,
    {
        PortStatus { in_use: self.in_use, remote: text::clone_opt(&self.remote) }
    }
}

impl Default for PortStatus {
    fn default() -> (r: PortStatus)
        ensures
            r@ == (PortStatusView { in_use: false, remote: None }),
    {
        PortStatus { in_use: false, remote: None }
    }
}

/// The states behind a list of bus identifiers and states.
pub open spec fn port_views(v: Seq<(String, PortStatus)>) -> Seq<(Seq<char>, PortStatusView)> {
    Seq::new(v.len(), |i: int| (v[i].0@, v[i].1@))
}

/// The programs of the server, and whether its daemon was started.
#[derive(Debug)]
pub struct UsbIp {
    pub usbip_bin: String,
    pub usbipd_bin: String,
    pub usbipd_running: bool,
}

impl Clone for UsbIp {
    fn clone(&self) -> (r: UsbIp)
        ensures
            r.usbip_bin@ == self.usbip_bin@,
            r.usbipd_bin@ == self.usbipd_bin@,
            r.usbipd_running == self.usbipd_running,
    {
        UsbIp {
            usbip_bin: self.usbip_bin.clone(),
            usbipd_bin: self.usbipd_bin.clone(),
            usbipd_running: self.usbipd_running,
        }
    }
}

/// An entry of a directory.
#[derive(Debug)]
pub struct DirEntry {
    pub name: String,
    pub is_symlink: bool,
}

/// What reading a directory gave.
#[derive(Debug)]
pub enum DirListing {
    /// There is no such directory.
    Missing,
    /// It could not be opened; the text says why.
    Unreadable(String),
    /// An entry could not be read; the text says why.
    EntryFailed(String),
    /// Its entries.
    Entries(Vec<DirEntry>),
}

// ---------------------------------------------------------------------------
// What is exported, and what is free
// ---------------------------------------------------------------------------
/// The names of the links that look like a bus identifier, each once.
pub open spec fn exported_of(entries: Seq<DirEntry>) -> Seq<Seq<char>>
    decreases entries.len(),
{
    if entries.len() == 0 {
        Seq::empty()
    } else {
        let before = exported_of(entries.drop_last());
        let e = entries.last();
        if e.is_symlink && e.name@.contains('-') {
            text_set::appended(before, e.name@)
        } else {
            before
        }
    }
}

fn exported_names(entries: &Vec<DirEntry>) -> (r: TextSet)
    ensures
        r.wf(),
        r.order() == exported_of(entries@),
{
    let mut set = TextSet::new();
    let mut i: usize = 0;
    assert(entries@.take(0) =~= Seq::<DirEntry>::empty());
    while i < entries.len()
        invariant
            i <= entries@.len(),
            set.wf(),
            set.order() == exported_of(entries@.take(i as int)),
        decreases entries.len() - i,
    {
        proof {
            let t = entries@.take(i + 1);
            assert(t.drop_last() =~= entries@.take(i as int));
            assert(t.last() == entries@[i as int]);
        }
        if entries[i].is_symlink {
            let cs = text::chars_of(entries[i].name.as_str());
            if text::contains_char(&cs, '-') {
                let _new = set.insert(entries[i].name.clone());
            }
        }
        i = i + 1;
    }
    assert(entries@.take(entries@.len() as int) =~= entries@);
    set
}

/// The bus identifier that a line of `usbip list -r` begins with: what stands
/// before the first colon, if it holds a dash and no blank.
pub open spec fn exportable_of_line(line: Seq<char>) -> Option<Seq<char>> {
    let t = text::trim_start_of(line);
    let k = text::position_of(t, ':');
    let candidate = text::trim_of(t.take(k));
    if k < t.len() && candidate.contains('-') && !candidate.contains(' ') {
        Some(candidate)
    } else {
        None
    }
}

/// The bus identifiers in the lines, each once.
pub open spec fn exportable_of(lines: Seq<Seq<char>>) -> Seq<Seq<char>>
    decreases lines.len(),
{
    if lines.len() == 0 {
        Seq::empty()
    } else {
        let before = exportable_of(lines.drop_last());
        match exportable_of_line(lines.last()) {
            Some(b) => text_set::appended(before, b),
            None => before,
        }
    }
}

fn exportable_in_line(line: &[char]) -> (r: Option<String>)
    ensures
        text::opt_text(r) == exportable_of_line(line@),
{
    let t = text::trim_start(line);
    let k = text::position(t, ':');
    if k < t.len() {
        let head = &t[0..k];
        assert(head@ =~= t@.take(k as int));
        let candidate = text::trim(head);
        if text::contains_char(candidate, '-') && !text::contains_char(candidate, ' ') {
            return Some(text::string_of(candidate));
        }
    }
    None
}

/// The bus identifiers that `usbip list -r` shows.
pub fn parse_exportable_busids(s: &str) -> (r: TextSet)
    ensures
        r.wf(),
        r.order() == exportable_of(text::lines_of(s@)),
{
    let cs = text::chars_of(s);
    let lines = text::lines(&cs);
    let ghost all = text::lines_of(s@);
    let mut set = TextSet::new();
    let mut i: usize = 0;
    assert(all.take(0) =~= Seq::<Seq<char>>::empty());
    while i < lines.len()
        invariant
            i <= lines@.len(),
            all == text::pieces(lines@),
            set.wf(),
            set.order() == exportable_of(all.take(i as int)),
        decreases lines.len() - i,
    {
        proof {
            let t = all.take(i + 1);
            assert(t.drop_last() =~= all.take(i as int));
            assert(t.last() == lines@[i as int]@);
        }
        if let Some(b) = exportable_in_line(lines[i]) {
            let _new = set.insert(b);
        }
        i = i + 1;
    }
    assert(all.take(all.len() as int) =~= all);
    set
}

/// The states of the exported devices: one that is not free is in use.
pub open spec fn ports_of(exported: Seq<Seq<char>>, free: Seq<Seq<char>>) -> Seq<
    (Seq<char>, PortStatusView),
> {
    Seq::new(
        exported.len(),
        |i: int|
            (
                exported[i],
                PortStatusView { in_use: !free.contains(exported[i]), remote: None },
            ),
    )
}

// ---------------------------------------------------------------------------
// What the rules ask for
// ---------------------------------------------------------------------------
/// The first enabled rule that fits the device.
pub open spec fn first_fit(all: Seq<rules::RuleView>, f: rules::FingerprintView) -> Option<
    rules::RuleView,
>
    decreases all.len(),
{
    if all.len() == 0 {
        None
    } else if all[0].enabled && rules::fits(all[0].match_spec, f) {
        Some(all[0])
    } else {
        first_fit(all.drop_first(), f)
    }
}

/// The first enabled rule that fits the device.
pub fn first_match<'a>(all: &'a RulesFile, f: &DeviceFingerprint) -> (r: Option<&'a Rule>)
    ensures
        match r {
            Some(rule) => first_fit(all@, f@) == Some(rule@),
            None => first_fit(all@, f@) is None,
        },
{
    let ghost rv = all@;
    let mut i: usize = 0;
    assert(rv.skip(0) =~= rv);
    while i < all.rules.len()
        invariant
            i <= all.rules@.len(),
            rv == all@,
            first_fit(rv, f@) == first_fit(rv.skip(i as int), f@),
        decreases all.rules.len() - i,
    {
        assert(rv.skip(i as int)[0] == all.rules@[i as int]@);
        assert(rv.skip(i as int).drop_first() =~= rv.skip(i + 1));
        if all.rules[i].enabled && all.rules[i].match_spec.matches(f) {
            return Some(&all.rules[i]);
        }
        i = i + 1;
    }
    None
}

/// The bus identifiers of the devices that an enabled rule fits, in the order
/// of the devices.
pub open spec fn wanted(
    all: Seq<rules::RuleView>,
    devices: Seq<rules::FingerprintView>,
) -> Seq<Seq<char>>
    decreases devices.len(),
{
    if devices.len() == 0 {
        Seq::empty()
    } else {
        let before = wanted(all, devices.drop_last());
        if first_fit(all, devices.last()) is Some {
            before.push(devices.last().busid)
        } else {
            before
        }
    }
}

// ---------------------------------------------------------------------------
// Commands
// ---------------------------------------------------------------------------
/// What came of `usbip bind` or `usbip unbind`: no failure, or which one.
pub open spec fn command_failure(verb: Seq<char>, busid: Seq<char>, o: RunOutcome) -> Option<
    failure::FailureView,
> {
    match o {
        RunOutcome::NotStarted(why) => Some(
            failure::wrapped_of("run usbip "@ + verb, why@),
        ),
        RunOutcome::Finished { success, .. } => if success {
            None
        } else {
            Some(
                failure::plain_of(
                    "usbip "@ + verb + " failed (busid="@ + busid + "): "@ + process::complained(o),
                ),
            )
        },
    }
}

fn command_result(verb: &str, busid: &str, outcome: &RunOutcome) -> (r: Result<(), Failure>)
    ensures
        match r {
            Ok(_) => command_failure(verb@, busid@, *outcome) is None,
            Err(e) => command_failure(verb@, busid@, *outcome) == Some(e@),
        },
{
    match outcome {
        RunOutcome::NotStarted(why) => {
            let m = text::cat("run usbip ", verb);
            Err(Failure::wrapped(m.as_str(), why))
        },
        RunOutcome::Finished { success, stderr, .. } => {
            if *success {
                return Ok(());
            }
            let mut m = text::cat("usbip ", verb);
            m.append(" failed (busid=");
            m.append(busid);
            m.append("): ");
            m.append(process::lossy_text(stderr).as_str());
            Err(Failure::plain(m.as_str()))
        },
    }
}

impl UsbIp {
    /// The given programs; the daemon has not been started.
    pub fn new(usbip_bin: String, usbipd_bin: String) -> (r: UsbIp)
        ensures
            r.usbip_bin == usbip_bin,
            r.usbipd_bin == usbipd_bin,
            !r.usbipd_running,
    {
        UsbIp { usbip_bin, usbipd_bin, usbipd_running: false }
    }

    /// The daemon and its arguments, if it is still to be started.
    pub fn ensure_usbipd_running(&self) -> (r: Option<(String, Vec<String>)>)
        ensures
            match r {
                None => self.usbipd_running,
                Some((program, args)) => {
                    &&& !self.usbipd_running
                    &&& program@ == self.usbipd_bin@
                    &&& text::texts(args@) == seq!["-D"@]
                },
            },
    {
        if self.usbipd_running {
            return None;
        }
        let args = vec!["-D".to_string()];
        assert(text::texts(args@) =~= seq!["-D"@]);
        Some((self.usbipd_bin.clone(), args))
    }

    /// Takes note of what came of starting the daemon.
    pub fn usbipd_spawned(&mut self, outcome: Result<(), String>) -> (r: Result<(), Failure>)
        ensures
            final(self).usbip_bin == old(self).usbip_bin,
            final(self).usbipd_bin == old(self).usbipd_bin,
            match outcome {
                Ok(_) => r is Ok && final(self).usbipd_running,
                Err(why) => {
                    &&& r matches Err(e)
                    &&& e@ == failure::caused_of("spawn usbipd -D"@, why@)
                    &&& final(self).usbipd_running == old(self).usbipd_running
                },
            },
    {
        match outcome {
            Ok(_) => {
                self.usbipd_running = true;
                Ok(())
            },
            Err(why) => Err(Failure::caused("spawn usbipd -D", why.as_str())),
        }
    }

    /// The arguments of `usbip` that bind a device.
    pub fn bind_args(&self, busid: &str) -> (r: Vec<String>)
        ensures
            text::texts(r@) == seq!["bind"@, "-b"@, busid@],
    {
        let r = vec!["bind".to_string(), "-b".to_string(), busid.to_string()];
        assert(text::texts(r@) =~= seq!["bind"@, "-b"@, busid@]);
        r
    }

    /// The arguments of `usbip` that unbind a device.
    pub fn unbind_args(&self, busid: &str) -> (r: Vec<String>)
        ensures
            text::texts(r@) == seq!["unbind"@, "-b"@, busid@],
    {
        let r = vec!["unbind".to_string(), "-b".to_string(), busid.to_string()];
        assert(text::texts(r@) =~= seq!["unbind"@, "-b"@, busid@]);
        r
    }

    /// What came of binding a device.
    pub fn bind(&self, busid: &str, outcome: &RunOutcome) -> (r: Result<(), Failure>)
        ensures
            match r {
                Ok(_) => command_failure("bind"@, busid@, *outcome) is None,
                Err(e) => command_failure("bind"@, busid@, *outcome) == Some(e@),
            },
    {
        command_result("bind", busid, outcome)
    }

    /// What came of unbinding a device.
    pub fn unbind(&self, busid: &str, outcome: &RunOutcome) -> (r: Result<(), Failure>)
        ensures
            match r {
                Ok(_) => command_failure("unbind"@, busid@, *outcome) is None,
                Err(e) => command_failure("unbind"@, busid@, *outcome) == Some(e@),
            },
    {
        command_result("unbind", busid, outcome)
    }

    /// The devices that are exported: the links in the driver's directory that
    /// look like a bus identifier; none where there is no such directory.
    pub fn exported_busids(&self, dir: &DirListing) -> (r: Result<TextSet, Failure>)
        ensures
            match (*dir, r) {
                (DirListing::Missing, Ok(set)) => set.wf() && set.order() == Seq::<
                    Seq<char>,
                >::empty(),
                (DirListing::Entries(entries), Ok(set)) => set.wf() && set.order() == exported_of(
                    entries@,
                ),
                (DirListing::Unreadable(why), Err(e)) => e@ == failure::caused_of(
                    "read usbip-host sysfs"@,
                    why@,
                ),
                (DirListing::EntryFailed(why), Err(e)) => e@ == failure::plain_of(why@),
                _ => false,
            },
    {
        match dir {
            DirListing::Missing => Ok(TextSet::new()),
            DirListing::Unreadable(why) => Err(
                Failure::caused("read usbip-host sysfs", why.as_str()),
            ),
            DirListing::EntryFailed(why) => Err(Failure::plain(why.as_str())),
            DirListing::Entries(entries) => Ok(exported_names(entries)),
        }
    }

    /// The arguments of `usbip` that list what can be connected to.
    pub fn list_args(&self) -> (r: Vec<String>)
        ensures
            text::texts(r@) == seq!["list"@, "-r"@, "127.0.0.1"@],
    {
        let r = vec!["list".to_string(), "-r".to_string(), "127.0.0.1".to_string()];
        assert(text::texts(r@) =~= seq!["list"@, "-r"@, "127.0.0.1"@]);
        r
    }

    /// The exported devices that no client is connected to; none where the
    /// command failed.
    pub fn list_exportable_busids(&self, outcome: &RunOutcome) -> (r: Result<TextSet, Failure>)
        ensures
            match (*outcome, r) {
                (RunOutcome::NotStarted(why), Err(e)) => e@ == failure::wrapped_of(
                    "run usbip list -r 127.0.0.1"@,
                    why@,
                ),
                (RunOutcome::Finished { success, stdout, .. }, Ok(set)) => set.wf() && set.order()
                    == (if success {
                    exportable_of(text::lines_of(process::utf8_lossy(stdout@)))
                } else {
                    Seq::empty()
                }),
                _ => false,
            },
    {
        match outcome {
            RunOutcome::NotStarted(why) => Err(
                Failure::wrapped("run usbip list -r 127.0.0.1", why),
            ),
            RunOutcome::Finished { success, stdout, .. } => {
                if !*success {
                    return Ok(TextSet::new());
                }
                let s = process::lossy_text(stdout);
                Ok(parse_exportable_busids(s.as_str()))
            },
        }
    }

    /// The states of the exported devices, each once: one that is not free is
    /// in use. Who uses it is not known.
    pub fn port_status(&self, exported: &TextSet, free: &TextSet) -> (r: Vec<(String, PortStatus)>)
        ensures
            port_views(r@) == ports_of(exported.order(), free.order()),
    {
        let names = exported.to_vec();
        let ghost want = ports_of(exported.order(), free.order());
        let mut out: Vec<(String, PortStatus)> = Vec::new();
        let mut i: usize = 0;
        assert(names@.len() == exported.order().len());
        while i < names.len()
            invariant
                i <= names@.len(),
                text::texts(names@) == exported.order(),
                names@.len() == exported.order().len(),
                want == ports_of(exported.order(), free.order()),
                out@.len() == i,
                forall|j: int| 0 <= j < i ==> port_views(out@)[j] == want[j],
            decreases names.len() - i,
        {
            let ghost before = port_views(out@);
            assert(exported.order()[i as int] == names@[i as int]@);
            let in_use = !free.contains(names[i].as_str());
            out.push((names[i].clone(), PortStatus { in_use, remote: None }));
            proof {
                let now = port_views(out@);
                assert(now =~= before.push(now[i as int]));
                assert(now[i as int].1 =~= want[i as int].1);
            }
            i = i + 1;
        }
        assert(port_views(out@) =~= want);
        out
    }

    /// The devices that the rules ask to be bound, in the order of the devices.
    pub fn apply_rules(&self, all: &RulesFile, devices: &Vec<DeviceFingerprint>) -> (r: Vec<String>)
        ensures
            text::texts(r@) == wanted(all@, rules::fingerprint_views(devices@)),
    {
        let ghost dv = rules::fingerprint_views(devices@);
        let mut out: Vec<String> = Vec::new();
        let mut i: usize = 0;
        assert(dv.take(0) =~= Seq::<rules::FingerprintView>::empty());
        assert(text::texts(out@) =~= Seq::<Seq<char>>::empty());
        while i < devices.len()
            invariant
                i <= devices@.len(),
                dv == rules::fingerprint_views(devices@),
                text::texts(out@) == wanted(all@, dv.take(i as int)),
            decreases devices.len() - i,
        {
            proof {
                let t = dv.take(i + 1);
                assert(t.drop_last() =~= dv.take(i as int));
                assert(t.last() == devices@[i as int]@);
            }
            if let Some(rule) = first_match(all, &devices[i]) {
                match rule.action {
                    RuleAction::Bind => {
                        let ghost before = out@;
                        out.push(devices[i].busid.clone());
                        assert(text::texts(out@) =~= text::texts(before).push(
                            devices@[i as int].busid@,
                        ));
                    },
                }
            }
            i = i + 1;
        }
        assert(dv.take(dv.len() as int) =~= dv);
        out
    }
}

// ---------------------------------------------------------------------------
// Out of use
// ---------------------------------------------------------------------------
/// Out of use: the status text of a port no longer tells whether it is in use,
/// and no text counts as saying so.
pub fn usbip_status_to_in_use(_status: &str) -> (r: bool)
    ensures
        !r,
{
    false
}

/// Out of use: no bus identifiers are read from a local listing any more.
pub fn parse_busids_from_usbip_list(_s: &str) -> (r: TextSet)
    ensures
        r.wf(),
        r.order() == Seq::<Seq<char>>::empty(),
{
    TextSet::new()
}

/// Out of use: no states are read from a listing of ports any more.
pub fn parse_port_status(_s: &str) -> (r: Vec<(String, PortStatus)>)
    ensures
        port_views(r@) == Seq::<(Seq<char>, PortStatusView)>::empty(),
{
    let r: Vec<(String, PortStatus)> = Vec::new();
    assert(port_views(r@) =~= Seq::<(Seq<char>, PortStatusView)>::empty());
    r
}

// ---------------------------------------------------------------------------
// What holds of them
// ---------------------------------------------------------------------------
/// A device is bound by the first rule that is enabled and fits it, and by none
/// only where no such rule exists.
pub proof fn the_first_enabled_rule_that_fits_counts(
    all: Seq<rules::RuleView>,
    f: rules::FingerprintView,
)
    ensures
        match first_fit(all, f) {
            Some(rule) => exists|k: int|
                #![trigger all[k]]
                {
                    &&& 0 <= k < all.len()
                    &&& all[k] == rule
                    &&& rule.enabled
                    &&& rules::fits(rule.match_spec, f)
                    &&& forall|j: int|
                        0 <= j < k ==> !((#[trigger] all[j]).enabled && rules::fits(
                            all[j].match_spec,
                            f,
                        ))
                },
            None => forall|j: int|
                0 <= j < all.len() ==> !((#[trigger] all[j]).enabled && rules::fits(
                    all[j].match_spec,
                    f,
                )),
        },
    decreases all.len(),
{
    if all.len() > 0 {
        let t = all.drop_first();
        the_first_enabled_rule_that_fits_counts(t, f);
        if !(all[0].enabled && rules::fits(all[0].match_spec, f)) {
            match first_fit(t, f) {
                Some(rule) => {
                    let k = choose|k: int|
                        #![trigger t[k]]
                        {
                            &&& 0 <= k < t.len()
                            &&& t[k] == rule
                            &&& rule.enabled
                            &&& rules::fits(rule.match_spec, f)
                            &&& forall|j: int|
                                0 <= j < k ==> !((#[trigger] t[j]).enabled && rules::fits(
                                    t[j].match_spec,
                                    f,
                                ))
                        };
                    assert(all[k + 1] == rule);
                    assert forall|j: int| 0 <= j < k + 1 implies !((#[trigger] all[j]).enabled
                        && rules::fits(all[j].match_spec, f)) by {
                        if j > 0 {
                            assert(t[j - 1] == all[j]);
                        }
                    }
                },
                None => {
                    assert forall|j: int| 0 <= j < all.len() implies !((#[trigger] all[j]).enabled
                        && rules::fits(all[j].match_spec, f)) by {
                        if j > 0 {
                            assert(t[j - 1] == all[j]);
                        }
                    }
                },
            }
        } else {
            assert(all[0] == first_fit(all, f)->0);
        }
    }
}

/// A device is exported exactly if the driver's directory has a link of its
/// name, and that name holds a dash; and none is counted twice.
pub proof fn exported_are_the_links(entries: Seq<DirEntry>, busid: Seq<char>)
    ensures
        exported_of(entries).no_duplicates(),
        exported_of(entries).contains(busid) <==> busid.contains('-') && exists|i: int|
            0 <= i < entries.len() && (#[trigger] entries[i]).is_symlink && entries[i].name@
                == busid,
    decreases entries.len(),
{
    if entries.len() > 0 {
        let t = entries.drop_last();
        let e = entries.last();
        let before = exported_of(t);
        exported_are_the_links(t, busid);
        if e.is_symlink && e.name@.contains('-') && !before.contains(e.name@) {
            lemma_pushed(before, e.name@, busid);
        }
        if exists|i: int|
            0 <= i < t.len() && (#[trigger] t[i]).is_symlink && t[i].name@ == busid {
            let i = choose|i: int|
                0 <= i < t.len() && (#[trigger] t[i]).is_symlink && t[i].name@ == busid;
            assert(entries[i] == t[i]);
        }
        if exists|i: int|
            0 <= i < entries.len() && (#[trigger] entries[i]).is_symlink && entries[i].name@
                == busid {
            let i = choose|i: int|
                0 <= i < entries.len() && (#[trigger] entries[i]).is_symlink && entries[i].name@
                    == busid;
            if i < t.len() {
                assert(t[i] == entries[i]);
            }
        }
        if e.is_symlink && e.name@ == busid {
            assert(entries[entries.len() - 1] == e);
        }
    }
}

proof fn lemma_pushed(s: Seq<Seq<char>>, x: Seq<char>, y: Seq<char>)
    ensures
        s.push(x).contains(y) <==> s.contains(y) || x == y,
{
    if s.contains(y) {
        let i = choose|i: int| 0 <= i < s.len() && s[i] == y;
        assert(s.push(x)[i] == y);
    }
    if x == y {
        assert(s.push(x)[s.len() as int] == y);
    }
    if s.push(x).contains(y) && x != y {
        let i = choose|i: int| 0 <= i < s.push(x).len() && s.push(x)[i] == y;
        assert(s[i] == y);
    }
}

/// A bus identifier is free exactly if some line of the listing begins with it.
pub proof fn free_are_the_listed(lines: Seq<Seq<char>>, busid: Seq<char>)
    ensures
        exportable_of(lines).no_duplicates(),
        exportable_of(lines).contains(busid) <==> exists|i: int|
            0 <= i < lines.len() && exportable_of_line(#[trigger] lines[i]) == Some(busid),
    decreases lines.len(),
{
    if lines.len() > 0 {
        let t = lines.drop_last();
        let before = exportable_of(t);
        free_are_the_listed(t, busid);
        match exportable_of_line(lines.last()) {
            Some(b) => {
                if !before.contains(b) {
                    lemma_pushed(before, b, busid);
                }
                if b == busid {
                    assert(lines[lines.len() - 1] == lines.last());
                }
            },
            None => {},
        }
        if exists|i: int|
            0 <= i < t.len() && exportable_of_line(#[trigger] t[i]) == Some(busid) {
            let i = choose|i: int|
                0 <= i < t.len() && exportable_of_line(#[trigger] t[i]) == Some(busid);
            assert(lines[i] == t[i]);
        }
        if exists|i: int|
            0 <= i < lines.len() && exportable_of_line(#[trigger] lines[i]) == Some(busid) {
            let i = choose|i: int|
                0 <= i < lines.len() && exportable_of_line(#[trigger] lines[i]) == Some(busid);
            if i < t.len() {
                assert(t[i] == lines[i]);
            }
        }
    }
}

/// What is bound when the rules are applied are exactly the devices that an
/// enabled rule fits.
pub proof fn applying_binds_what_the_rules_want(
    all: Seq<rules::RuleView>,
    devices: Seq<rules::FingerprintView>,
    busid: Seq<char>,
)
    ensures
        wanted(all, devices).contains(busid) <==> exists|i: int|
            0 <= i < devices.len() && (#[trigger] devices[i]).busid == busid && first_fit(
                all,
                devices[i],
            ) is Some,
    decreases devices.len(),
{
    if devices.len() > 0 {
        let t = devices.drop_last();
        let d = devices.last();
        applying_binds_what_the_rules_want(all, t, busid);
        if first_fit(all, d) is Some {
            lemma_pushed(wanted(all, t), d.busid, busid);
            if d.busid == busid {
                assert(devices[devices.len() - 1] == d);
            }
        }
        if exists|i: int|
            0 <= i < t.len() && (#[trigger] t[i]).busid == busid && first_fit(all, t[i]) is Some {
            let i = choose|i: int|
                0 <= i < t.len() && (#[trigger] t[i]).busid == busid && first_fit(
                    all,
                    t[i],
                ) is Some;
            assert(devices[i] == t[i]);
        }
        if exists|i: int|
            0 <= i < devices.len() && (#[trigger] devices[i]).busid == busid && first_fit(
                all,
                devices[i],
            ) is Some {
            let i = choose|i: int|
                0 <= i < devices.len() && (#[trigger] devices[i]).busid == busid && first_fit(
                    all,
                    devices[i],
                ) is Some;
            if i < t.len() {
                assert(t[i] == devices[i]);
            }
        }
    }
}

} // verus!
