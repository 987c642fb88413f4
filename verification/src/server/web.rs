//! The web interface: devices, rules and the files of its pages.

use vstd::prelude::*;

use crate::failure;
use crate::failure::Failure;
use crate::server::rules;
use crate::server::rules::{DeviceFingerprint, MatchSpec, RulesFile};
use crate::server::udev_watch;
use crate::server::usb;
use crate::server::usb::PortStatus;
use crate::text;
use crate::text_set::TextSet;

verus! {

// ---------------------------------------------------------------------------
// Errors and events
// ---------------------------------------------------------------------------
/// An answer that tells what went wrong.
#[derive(Debug)]
pub struct ApiError {
    /// The HTTP status.
    pub status: u16,
    pub msg: String,
}

/// An `ApiError` as mathematical values.
#[verifier::ext_equal]
pub struct ApiErrorView {
    pub status: u16,
    pub msg: Seq<char>,
}

impl View for ApiError {
    type V = ApiErrorView;

    open spec fn view(&self) -> ApiErrorView {
        ApiErrorView { status: self.status, msg: self.msg@ }
    }
}

/// The request cannot be met.
pub open spec fn bad_request_of(msg: Seq<char>) -> ApiErrorView {
    ApiErrorView { status: 400, msg }
}

/// The server failed.
pub open spec fn internal_of(msg: Seq<char>) -> ApiErrorView {
    ApiErrorView { status: 500, msg }
}

impl ApiError {
    /// The request cannot be met.
    pub fn bad_request(msg: &str) -> (r: ApiError)
        ensures
            r@ == bad_request_of(msg@),
    {
        ApiError { status: 400, msg: msg.to_string() }
    }

    /// The server failed.
    pub fn internal(msg: &str) -> (r: ApiError)
        ensures
            r@ == internal_of(msg@),
    {
        ApiError { status: 500, msg: msg.to_string() }
    }
}

/// A change that the pages are told of.
#[derive(Debug, Clone, Copy, PartialEq, Eq, Structural)]
pub enum UpdateEvent {
    Udev,
    Rules,
    Bind,
    Unbind,
    Apply,
}

impl UpdateEvent {
    /// What the pages are told.
    pub fn name(&self) -> (r: &'static str)
        ensures
            r@ == match *self {
                UpdateEvent::Udev => "udev"@,
                UpdateEvent::Rules => "rules"@,
                UpdateEvent::Bind => "bind"@,
                UpdateEvent::Unbind => "unbind"@,
                UpdateEvent::Apply => "apply"@,
            },
    {
        match self {
            UpdateEvent::Udev => "udev",
            UpdateEvent::Rules => "rules",
            UpdateEvent::Bind => "bind",
            UpdateEvent::Unbind => "unbind",
            UpdateEvent::Apply => "apply",
        }
    }
}

/// What is answered when something on the server worked or failed.
pub fn or_internal(outcome: Result<(), Failure>) -> (r: Result<(), ApiError>)
    ensures
        match (outcome, r) {
            (Ok(_), Ok(_)) => true,
            (Err(f), Err(e)) => e@ == internal_of(f@.message),
            _ => false,
        },
{
    match outcome {
        Ok(_) => Ok(()),
        Err(f) => Err(ApiError::internal(f.message.as_str())),
    }
}

// ---------------------------------------------------------------------------
// Devices
// ---------------------------------------------------------------------------
/// A device as the pages show it.
#[derive(Debug)]
pub struct DeviceView {
    pub busid: String,
    pub serial: Option<String>,
    pub devpath: Option<String>,
    pub vid: Option<u16>,
    pub pid: Option<u16>,
    pub manufacturer: Option<String>,
    pub product: Option<String>,
    pub exported: bool,
    pub in_use: bool,
    pub remote: Option<String>,
}

/// A `DeviceView` as mathematical values.
#[verifier::ext_equal]
pub struct ShownDevice {
    pub busid: Seq<char>,
    pub serial: Option<Seq<char>>,
    pub devpath: Option<Seq<char>>,
    pub vid: Option<u16>,
    pub pid: Option<u16>,
    pub manufacturer: Option<Seq<char>>,
    pub product: Option<Seq<char>>,
    pub exported: bool,
    pub in_use: bool,
    pub remote: Option<Seq<char>>,
}

impl View for DeviceView {
    type V = ShownDevice;

    open spec fn view(&self) -> ShownDevice {
        ShownDevice {
            busid: self.busid@,
            serial: text::opt_text(self.serial),
            devpath: text::opt_text(self.devpath),
            vid: self.vid,
            pid: self.pid,
            manufacturer: text::opt_text(self.manufacturer),
            product: text::opt_text(self.product),
            exported: self.exported,
            in_use: self.in_use,
            remote: text::opt_text(self.remote),
        }
    }
}

/// The devices behind a list.
pub open spec fn shown_views(v: Seq<DeviceView>) -> Seq<ShownDevice> {
    Seq::new(v.len(), |i: int| v[i]@)
}

/// The device is one to show: not a bus itself, and not a hub.
pub open spec fn is_shown(d: rules::FingerprintView) -> bool {
    d.busid.contains('-') && d.device_class != Some(9u8)
}

/// The state of the first port with the bus identifier.
pub open spec fn port_of(ports: Seq<(Seq<char>, usb::PortStatusView)>, busid: Seq<char>) -> Option<
    usb::PortStatusView,
>
    decreases ports.len(),
{
    if ports.len() == 0 {
        None
    } else if ports[0].0 == busid {
        Some(ports[0].1)
    } else {
        port_of(ports.drop_first(), busid)
    }
}

/// How a device is shown.
pub open spec fn shown(
    d: rules::FingerprintView,
    exported: Seq<Seq<char>>,
    ports: Seq<(Seq<char>, usb::PortStatusView)>,
) -> ShownDevice {
    let port = port_of(ports, d.busid);
    ShownDevice {
        busid: d.busid,
        serial: d.serial,
        devpath: d.devpath,
        vid: d.vid,
        pid: d.pid,
        manufacturer: d.manufacturer,
        product: d.product,
        exported: exported.contains(d.busid),
        in_use: port is Some && port->0.in_use,
        remote: match port {
            Some(p) => p.remote,
            None => None,
        },
    }
}

/// How the devices are shown, in their order and without those that are not.
pub open spec fn all_shown(
    devices: Seq<rules::FingerprintView>,
    exported: Seq<Seq<char>>,
    ports: Seq<(Seq<char>, usb::PortStatusView)>,
) -> Seq<ShownDevice>
    decreases devices.len(),
{
    if devices.len() == 0 {
        Seq::empty()
    } else {
        let before = all_shown(devices.drop_last(), exported, ports);
        if is_shown(devices.last()) {
            before.push(shown(devices.last(), exported, ports))
        } else {
            before
        }
    }
}

fn find_port(ports: &Vec<(String, PortStatus)>, busid: &str) -> (r: Option<PortStatus>)
    ensures
        match r {
            Some(p) => port_of(usb::port_views(ports@), busid@) == Some(p@),
            None => port_of(usb::port_views(ports@), busid@) is None,
        },
{
    let ghost all = usb::port_views(ports@);
    let mut i: usize = 0;
    assert(all.skip(0) =~= all);
    while i < ports.len()
        invariant
            i <= ports@.len(),
            all == usb::port_views(ports@),
            port_of(all, busid@) == port_of(all.skip(i as int), busid@),
        decreases ports.len() - i,
    {
        assert(all.skip(i as int)[0] == (ports@[i as int].0@, ports@[i as int].1@));
        assert(all.skip(i as int).drop_first() =~= all.skip(i + 1));
        if text::same_text(ports[i].0.as_str(), busid) {
            return Some(ports[i].1.clone());
        }
        i = i + 1;
    }
    None
}

fn show(
    d: &DeviceFingerprint,
    exported: &TextSet,
    ports: &Vec<(String, PortStatus)>,
) -> (r: DeviceView)
    ensures
        r@ == shown(d@, exported.order(), usb::port_views(ports@)),
{
    let (in_use, remote) = match find_port(ports, d.busid.as_str()) {
        Some(p) => (p.in_use, p.remote),
        None => (false, None),
    };
    DeviceView {
        exported: exported.contains(d.busid.as_str()),
        in_use,
        remote,
        busid: d.busid.clone(),
        serial: text::clone_opt(&d.serial),
        devpath: text::clone_opt(&d.devpath),
        vid: d.vid,
        pid: d.pid,
        manufacturer: text::clone_opt(&d.manufacturer),
        product: text::clone_opt(&d.product),
    }
}

/// What is exported, as far as it is known.
pub open spec fn known_exported(exported: Result<TextSet, Failure>) -> Seq<Seq<char>> {
    match exported {
        Ok(set) => set.order(),
        Err(_) => Seq::empty(),
    }
}

/// The states of the ports, as far as they are known.
pub open spec fn known_ports(ports: Result<Vec<(String, PortStatus)>, Failure>) -> Seq<
    (Seq<char>, usb::PortStatusView),
> {
    match ports {
        Ok(v) => usb::port_views(v@),
        Err(_) => Seq::empty(),
    }
}

/// How the devices are shown; an error where they could not be listed. What is
/// exported and what the ports do counts as far as it is known.
pub fn api_devices(
    devices: Result<Vec<DeviceFingerprint>, Failure>,
    exported: Result<TextSet, Failure>,
    ports: Result<Vec<(String, PortStatus)>, Failure>,
) -> (r: Result<Vec<DeviceView>, ApiError>)
    ensures
        match (devices, r) {
            (Ok(d), Ok(v)) => shown_views(v@) == all_shown(
                rules::fingerprint_views(d@),
                known_exported(exported),
                known_ports(ports),
            ),
            (Err(f), Err(e)) => e@ == internal_of(f@.message),
            _ => false,
        },
{
    let devs = match devices {
        Ok(d) => d,
        Err(f) => return Err(ApiError::internal(f.message.as_str())),
    };
    let ghost ev = known_exported(exported);
    let ghost pv = known_ports(ports);
    let exported_set = match exported {
        Ok(set) => set,
        Err(_) => TextSet::new(),
    };
    let port_list = match ports {
        Ok(v) => v,
        Err(_) => Vec::new(),
    };
    assert(usb::port_views(port_list@) =~= pv);
    let ghost dv = rules::fingerprint_views(devs@);
    let mut out: Vec<DeviceView> = Vec::new();
    let mut i: usize = 0;
    assert(dv.take(0) =~= Seq::<rules::FingerprintView>::empty());
    assert(shown_views(out@) =~= Seq::<ShownDevice>::empty());
    while i < devs.len()
        invariant
            i <= devs@.len(),
            dv == rules::fingerprint_views(devs@),
            ev == exported_set.order(),
            pv == usb::port_views(port_list@),
            shown_views(out@) == all_shown(dv.take(i as int), ev, pv),
        decreases devs.len() - i,
    {
        proof {
            let t = dv.take(i + 1);
            assert(t.drop_last() =~= dv.take(i as int));
            assert(t.last() == devs@[i as int]@);
        }
        let d = &devs[i];
        let cs = text::chars_of(d.busid.as_str());
        if text::contains_char(&cs, '-') && d.device_class != Some(9u8) {
            let ghost before = out@;
            let v = show(d, &exported_set, &port_list);
            let ghost vv = v@;
            out.push(v);
            assert(shown_views(out@) =~= shown_views(before).push(vv));
        }
        i = i + 1;
    }
    assert(dv.take(dv.len() as int) =~= dv);
    Ok(out)
}

// ---------------------------------------------------------------------------
// Rules
// ---------------------------------------------------------------------------
/// The description to remember the device with the bus identifier by; an error
/// where the devices could not be listed, there is no such device, or nothing
/// stable is known of it.
pub open spec fn spec_for(
    devices: Result<Seq<rules::FingerprintView>, failure::FailureView>,
    busid: Seq<char>,
) -> Result<rules::MatchSpecView, ApiErrorView> {
    match devices {
        Err(f) => Err(internal_of(f.message)),
        Ok(d) => match udev_watch::device_of(d, busid) {
            None => Err(bad_request_of("device not found"@)),
            Some(dev) => match rules::best_spec(dev) {
                None => Err(bad_request_of("device has no stable identifiers"@)),
                Some(m) => Ok(m),
            },
        },
    }
}

/// Listed devices, or why they could not be listed, as mathematical values.
pub open spec fn listing_view(devices: Result<Vec<DeviceFingerprint>, Failure>) -> Result<
    Seq<rules::FingerprintView>,
    failure::FailureView,
> {
    match devices {
        Ok(v) => Ok(rules::fingerprint_views(v@)),
        Err(f) => Err(f@),
    }
}

fn stable_spec(devices: &Result<Vec<DeviceFingerprint>, Failure>, busid: &str) -> (r: Result<
    MatchSpec,
    ApiError,
>)
    ensures
        match r {
            Ok(m) => spec_for(listing_view(*devices), busid@) == Ok::<
                rules::MatchSpecView,
                ApiErrorView,
            >(m@),
            Err(e) => spec_for(listing_view(*devices), busid@) == Err::<
                rules::MatchSpecView,
                ApiErrorView,
            >(e@),
        },
{
    match devices {
        Err(f) => Err(ApiError::internal(f.message.as_str())),
        Ok(d) => match udev_watch::find_device(d, busid) {
            None => Err(ApiError::bad_request("device not found")),
            Some(dev) => match rules::best_effort_rule_for_device(&dev) {
                None => Err(ApiError::bad_request("device has no stable identifiers")),
                Some(m) => Ok(m),
            },
        },
    }
}

/// The rules with an enabled rule for `m` appended.
pub open spec fn with_rule(
    all: Seq<rules::RuleView>,
    m: rules::MatchSpecView,
    note: Option<Seq<char>>,
    id: u128,
) -> Seq<rules::RuleView> {
    all.push(
        rules::RuleView {
            id,
            enabled: true,
            note,
            match_spec: m,
            action: rules::RuleAction::Bind,
        },
    )
}

/// Appends a rule with the given identifier for a device.
pub fn add_rule_with_id(
    all: &mut RulesFile,
    id: u128,
    devices: &Result<Vec<DeviceFingerprint>, Failure>,
    busid: &str,
    note: Option<String>,
) -> (r: Result<(), ApiError>)
    ensures
        match (spec_for(listing_view(*devices), busid@), r) {
            (Ok(m), Ok(_)) => final(all)@ == with_rule(old(all)@, m, text::opt_text(note), id),
            (Err(why), Err(e)) => e@ == why && final(all)@ == old(all)@,
            _ => false,
        },
{
    let m = match stable_spec(devices, busid) {
        Ok(m) => m,
        Err(e) => return Err(e),
    };
    let ghost before = all@;
    match rules::Rule::with_id(id, m, note) {
        Ok(rule) => {
            let ghost rv = rule@;
            all.rules.push(rule);
            assert(all@ =~= before.push(rv));
            Ok(())
        },
        Err(e) => Err(ApiError::bad_request(e.as_str())),
    }
}

/// Appends a rule with a new identifier for a device; an error where the
/// devices could not be listed, there is no such device, or nothing stable is
/// known of it.
pub fn api_add_rule_for_busid(
    all: &mut RulesFile,
    devices: &Result<Vec<DeviceFingerprint>, Failure>,
    busid: &str,
    note: Option<String>,
) -> (r: Result<(), ApiError>)
    ensures
        match (spec_for(listing_view(*devices), busid@), r) {
            (Ok(m), Ok(_)) => exists|id: u128|
                rules::is_random_uuid(id) && final(all)@ == #[trigger] with_rule(
                    old(all)@,
                    m,
                    text::opt_text(note),
                    id,
                ),
            (Err(why), Err(e)) => e@ == why && final(all)@ == old(all)@,
            _ => false,
        },
{
    add_rule_with_id(all, rules::fresh_id(), devices, busid, note)
}

/// The rules after the manual choice to bind or unbind what `m` describes: a
/// rule for it is entered, enabled or not, and the choice to unbind disables
/// every rule for it.
pub open spec fn persisted(
    all: Seq<rules::RuleView>,
    m: rules::MatchSpecView,
    enabled: bool,
    id: u128,
) -> Seq<rules::RuleView> {
    let entered = rules::upserted(all, m, enabled, Some("manual"@), id);
    if enabled {
        entered
    } else {
        rules::disabled(entered, m)
    }
}

/// Keeps a manual choice as a rule, under the given identifier if it is new.
pub fn persist_with_id(
    all: &mut RulesFile,
    id: u128,
    devices: &Result<Vec<DeviceFingerprint>, Failure>,
    busid: &str,
    enabled: bool,
) -> (r: Result<(), ApiError>)
    ensures
        match (spec_for(listing_view(*devices), busid@), r) {
            (Ok(m), Ok(_)) => final(all)@ == persisted(old(all)@, m, enabled, id),
            (Err(why), Err(e)) => e@ == why && final(all)@ == old(all)@,
            _ => false,
        },
{
    let m = match stable_spec(devices, busid) {
        Ok(m) => m,
        Err(e) => return Err(e),
    };
    match all.upsert_with_id(id, m.clone(), enabled, Some("manual".to_string())) {
        Ok(_) => {},
        Err(e) => return Err(ApiError::bad_request(e.as_str())),
    }
    if !enabled {
        let _changed = all.disable_rule(&m);
    }
    Ok(())
}

/// Keeps the manual choice to bind or unbind a device as a rule, so that it
/// counts again when the device is plugged in or the server is started.
pub fn persist_manual_rule(
    all: &mut RulesFile,
    devices: &Result<Vec<DeviceFingerprint>, Failure>,
    busid: &str,
    enabled: bool,
) -> (r: Result<(), ApiError>)
    ensures
        match (spec_for(listing_view(*devices), busid@), r) {
            (Ok(m), Ok(_)) => exists|id: u128|
                rules::is_random_uuid(id) && final(all)@ == #[trigger] persisted(
                    old(all)@,
                    m,
                    enabled,
                    id,
                ),
            (Err(why), Err(e)) => e@ == why && final(all)@ == old(all)@,
            _ => false,
        },
{
    persist_with_id(all, rules::fresh_id(), devices, busid, enabled)
}

/// The index of the first rule with the identifier; the number of rules when
/// there is none.
pub open spec fn id_index(all: Seq<rules::RuleView>, id: u128) -> int
    decreases all.len(),
{
    if all.len() == 0 || all[0].id == id {
        0
    } else {
        1 + id_index(all.drop_first(), id)
    }
}

/// Switches the first rule with the identifier; an error where there is none.
pub fn api_rules_toggle(all: &mut RulesFile, id: u128, enabled: bool) -> (r: Result<(), ApiError>)
    ensures
        ({
            let k = id_index(old(all)@, id);
            if k < old(all)@.len() {
                &&& r is Ok
                &&& 0 <= k
                &&& final(all)@ == old(all)@.update(
                    k,
                    rules::RuleView { enabled, ..old(all)@[k] },
                )
            } else {
                &&& r matches Err(e)
                &&& e@ == bad_request_of("rule not found"@)
                &&& final(all)@ == old(all)@
            }
        }),
{
    let ghost before = all@;
    let mut i: usize = 0;
    assert(before.skip(0) =~= before);
    while i < all.rules.len()
        invariant
            *all == *old(all),
            before == all@,
            i <= all.rules@.len(),
            id_index(before, id) == i + id_index(before.skip(i as int), id),
        decreases all.rules.len() - i,
    {
        assert(before.skip(i as int)[0] == all.rules@[i as int]@);
        assert(before.skip(i as int).drop_first() =~= before.skip(i + 1));
        if all.rules[i].id == id {
            all.rules[i].enabled = enabled;
            assert(all@ =~= before.update(
                i as int,
                rules::RuleView { enabled, ..before[i as int] },
            ));
            return Ok(());
        }
        i = i + 1;
    }
    Err(ApiError::bad_request("rule not found"))
}

/// The rules without those that have the identifier.
pub open spec fn without_id(all: Seq<rules::RuleView>, id: u128) -> Seq<rules::RuleView>
    decreases all.len(),
{
    if all.len() == 0 {
        all
    } else if all.last().id == id {
        without_id(all.drop_last(), id)
    } else {
        without_id(all.drop_last(), id).push(all.last())
    }
}

/// Some rule has the identifier.
pub open spec fn has_id(all: Seq<rules::RuleView>, id: u128) -> bool {
    exists|i: int| 0 <= i < all.len() && (#[trigger] all[i]).id == id
}

proof fn lemma_without_id(all: Seq<rules::RuleView>, id: u128)
    ensures
        without_id(all, id).len() <= all.len(),
        without_id(all, id).len() == all.len() <==> !has_id(all, id),
        !has_id(all, id) ==> without_id(all, id) == all,
    decreases all.len(),
{
    if all.len() > 0 {
        let t = all.drop_last();
        lemma_without_id(t, id);
        if has_id(t, id) {
            let i = choose|i: int| 0 <= i < t.len() && (#[trigger] t[i]).id == id;
            assert(all[i].id == id);
        }
        if all.last().id == id {
            assert(all[all.len() - 1].id == id);
        } else if has_id(all, id) {
            let i = choose|i: int| 0 <= i < all.len() && (#[trigger] all[i]).id == id;
            assert(t[i].id == id);
        }
        assert(t.push(all.last()) =~= all);
    }
}

/// Deletes the rules with the identifier; an error where there is none.
pub fn api_rules_delete(all: &mut RulesFile, id: u128) -> (r: Result<(), ApiError>)
    ensures
        final(all)@ == without_id(old(all)@, id),
        match r {
            Ok(_) => has_id(old(all)@, id),
            Err(e) => !has_id(old(all)@, id) && e@ == bad_request_of("rule not found"@),
        },
{
    let ghost before = all@;
    let n = all.rules.len();
    let mut kept: Vec<rules::Rule> = Vec::new();
    let mut i: usize = 0;
    assert(before.take(0) =~= Seq::<rules::RuleView>::empty());
    assert(rules::rule_views(kept@) =~= Seq::<rules::RuleView>::empty());
    while i < n
        invariant
            before == all@,
            n == all.rules@.len(),
            i <= n,
            rules::rule_views(kept@) == without_id(before.take(i as int), id),
        decreases n - i,
    {
        proof {
            let t = before.take(i + 1);
            assert(t.drop_last() =~= before.take(i as int));
            assert(t.last() == all.rules@[i as int]@);
        }
        if all.rules[i].id != id {
            let ghost so_far = kept@;
            let rule = all.rules[i].clone();
            let ghost rv = rule@;
            kept.push(rule);
            assert(rules::rule_views(kept@) =~= rules::rule_views(so_far).push(rv));
        }
        i = i + 1;
    }
    assert(before.take(n as int) =~= before);
    proof {
        lemma_without_id(before, id);
        assert(rules::rule_views(kept@).len() == kept@.len());
    }
    let found = kept.len() != n;
    all.rules = kept;
    if !found {
        return Err(ApiError::bad_request("rule not found"));
    }
    Ok(())
}

/// Replaces the rules once the new ones are stored; an error, and the old rules
/// as they were, where they could not be stored.
pub fn api_put_rules(
    all: &mut RulesFile,
    new_rules: RulesFile,
    stored: Result<(), Failure>,
) -> (r: Result<RulesFile, ApiError>)
    ensures
        match (stored, r) {
            (Ok(_), Ok(shown)) => shown@ == new_rules@ && final(all)@ == new_rules@,
            (Err(f), Err(e)) => e@ == internal_of(f@.message) && final(all)@ == old(all)@,
            _ => false,
        },
{
    match stored {
        Ok(_) => {
            *all = new_rules.clone();
            Ok(new_rules)
        },
        Err(f) => Err(ApiError::internal(f.message.as_str())),
    }
}

/// What is answered to a change of the rules once they are stored: the rules,
/// or an error where they could not be stored.
pub fn rules_reply(all: &RulesFile, stored: Result<(), Failure>) -> (r: Result<
    RulesFile,
    ApiError,
>)
    ensures
        match (stored, r) {
            (Ok(_), Ok(shown)) => shown@ == all@,
            (Err(f), Err(e)) => e@ == internal_of(f@.message),
            _ => false,
        },
{
    match stored {
        Ok(_) => Ok(all.clone()),
        Err(f) => Err(ApiError::internal(f.message.as_str())),
    }
}

/// What the pages are told when a change of the rules was answered: that the
/// rules changed, unless the answer is an error.
pub fn after_change(answer: &Result<RulesFile, ApiError>) -> (r: Option<UpdateEvent>)
    ensures
        r == (if *answer is Ok {
            Some(UpdateEvent::Rules)
        } else {
            None
        }),
{
    match answer {
        Ok(_) => Some(UpdateEvent::Rules),
        Err(_) => None,
    }
}

/// What the pages are told when the rules were applied on request: that they
/// were, unless the answer is an error.
pub fn after_apply(answer: &Result<(), ApiError>) -> (r: Option<UpdateEvent>)
    ensures
        r == (if *answer is Ok {
            Some(UpdateEvent::Apply)
        } else {
            None
        }),
{
    match answer {
        Ok(_) => Some(UpdateEvent::Apply),
        Err(_) => None,
    }
}

// ---------------------------------------------------------------------------
// Binding by hand
// ---------------------------------------------------------------------------
/// A step of binding or unbinding a device by hand.
#[derive(Debug, Clone, Copy, PartialEq, Eq, Structural)]
pub enum ManualStep {
    /// Run the command that binds or unbinds the device.
    Command,
    /// Keep the choice as a rule.
    Persist,
    /// Store the rules.
    Store,
}

/// What follows a step.
#[derive(Debug)]
pub enum ManualProgress {
    Next(ManualStep),
    /// Tell the pages of the change.
    Done(UpdateEvent),
    /// Answer with the error.
    Refused(ApiError),
}

/// A `ManualProgress` as mathematical values.
pub enum ManualProgressView {
    Next(ManualStep),
    Done(UpdateEvent),
    Refused(ApiErrorView),
}

impl View for ManualProgress {
    type V = ManualProgressView;

    open spec fn view(&self) -> ManualProgressView {
        match *self {
            ManualProgress::Next(s) => ManualProgressView::Next(s),
            ManualProgress::Done(e) => ManualProgressView::Done(e),
            ManualProgress::Refused(e) => ManualProgressView::Refused(e@),
        }
    }
}

/// What follows a step that worked or was refused.
pub open spec fn manual_progress_of(
    bind: bool,
    step: ManualStep,
    outcome: Result<(), ApiErrorView>,
) -> ManualProgressView {
    match outcome {
        Err(e) => ManualProgressView::Refused(e),
        Ok(_) => match step {
            ManualStep::Command => ManualProgressView::Next(ManualStep::Persist),
            ManualStep::Persist => ManualProgressView::Next(ManualStep::Store),
            ManualStep::Store => ManualProgressView::Done(
                if bind {
                    UpdateEvent::Bind
                } else {
                    UpdateEvent::Unbind
                },
            ),
        },
    }
}

/// What follows a step of binding or unbinding a device by hand, beginning with
/// the command.
pub fn manual_next(
    bind: bool,
    step: ManualStep,
    outcome: Result<(), ApiError>,
) -> (r: ManualProgress)
    ensures
        r@ == manual_progress_of(
            bind,
            step,
            match outcome {
                Ok(_) => Ok(()),
                Err(e) => Err(e@),
            },
        ),
{
    match outcome {
        Err(e) => ManualProgress::Refused(e),
        Ok(_) => match step {
            ManualStep::Command => ManualProgress::Next(ManualStep::Persist),
            ManualStep::Persist => ManualProgress::Next(ManualStep::Store),
            ManualStep::Store => ManualProgress::Done(
                if bind {
                    UpdateEvent::Bind
                } else {
                    UpdateEvent::Unbind
                },
            ),
        },
    }
}

/// A choice is kept only once the command has worked, and the pages are told
/// only once it is stored; whatever is refused ends there.
pub proof fn a_choice_is_kept_only_if_it_worked(
    bind: bool,
    step: ManualStep,
    outcome: Result<(), ApiErrorView>,
)
    ensures
        manual_progress_of(bind, step, outcome) == ManualProgressView::Next(ManualStep::Persist)
            <==> step == ManualStep::Command && outcome is Ok,
        manual_progress_of(bind, step, outcome) is Done <==> step == ManualStep::Store
            && outcome is Ok,
        outcome matches Err(e) ==> manual_progress_of(bind, step, outcome)
            == ManualProgressView::Refused(e),
{
}

// ---------------------------------------------------------------------------
// Files
// ---------------------------------------------------------------------------
/// `s` without its leading slashes.
pub open spec fn without_slashes(s: Seq<char>) -> Seq<char>
    decreases s.len(),
{
    if s.len() > 0 && s[0] == '/' {
        without_slashes(s.drop_first())
    } else {
        s
    }
}

/// The file that a path asks for: the path without its leading slashes, or
/// `index.html` where nothing is left.
pub open spec fn requested_file(path: Seq<char>) -> Seq<char> {
    let p = without_slashes(path);
    if p.len() == 0 {
        "index.html"@
    } else {
        p
    }
}

/// The file that a path asks for.
pub fn ui_request(path: &str) -> (r: String)
    ensures
        r@ == requested_file(path@),
{
    let cs = text::chars_of(path);
    let ghost all = path@;
    let mut i: usize = 0;
    assert(all.skip(0) =~= all);
    while i < cs.len() && cs[i] == '/'
        invariant
            cs@ == all,
            i <= all.len(),
            without_slashes(all) == without_slashes(all.skip(i as int)),
        decreases cs.len() - i,
    {
        assert(all.skip(i as int).drop_first() =~= all.skip(i + 1));
        i = i + 1;
    }
    if i == cs.len() {
        assert(all.skip(i as int) =~= Seq::<char>::empty());
        return "index.html".to_string();
    }
    let rest = &cs.as_slice()[i..cs.len()];
    assert(rest@ =~= all.skip(i as int));
    text::string_of(rest)
}

/// The file to serve: the requested one if there is one, else `index.html`; an
/// error where that is missing too.
pub fn ui_fallback(requested: &str, found: bool, index_found: bool) -> (r: Result<String, ApiError>)
    ensures
        match r {
            Ok(file) => {
                ||| found && file@ == requested@
                ||| !found && index_found && file@ == "index.html"@
            },
            Err(e) => !found && !index_found && e@ == internal_of("ui dist missing index.html"@),
        },
{
    if found {
        Ok(requested.to_string())
    } else if index_found {
        Ok("index.html".to_string())
    } else {
        Err(ApiError::internal("ui dist missing index.html"))
    }
}

/// What `mime_guess` takes a file with this path for.
pub uninterp spec fn mime_of(path: Seq<char>) -> Seq<char>;

/// `MimeGuess::from_path` with `first_or_octet_stream`: the type that belongs
/// to the extension of the path in a fixed table, and `application/octet-stream`
/// for a path without one. Which types are in the table is left unsaid.
#[verifier::external_body]
fn guess_mime(path: &str) -> (r: String)
    ensures
        r@ == mime_of(path@),
        !path@.contains('.') ==> r@ == "application/octet-stream"@,
{
    let mime = mime_guess::MimeGuess::from_path(path).first_or_octet_stream();
    mime.as_ref().to_string()
}

/// Every character can stand in the value of an HTTP header: none is a control
/// character, but for the tab.
pub open spec fn is_header_text(s: Seq<char>) -> bool {
    forall|i: int|
        0 <= i < s.len() ==> (#[trigger] s[i]) == '\t' || (s[i] >= ' ' && s[i] != '\u{7f}')
}

/// `HeaderValue::from_str` succeeds exactly on text without control characters
/// other than the tab: each byte has to be at least 32 and not 127, or be 9, and
/// the bytes of a character beyond ASCII are all at least 128.
#[verifier::external_body]
fn header_accepts(s: &str) -> (r: bool)
    ensures
        r == is_header_text(s@),
{
    axum::http::HeaderValue::from_str(s).is_ok()
}

/// The headers of a file.
#[derive(Debug)]
pub struct FileHeaders {
    pub content_type: String,
    pub cache_control: String,
}

/// The content type for a guessed type: that type where it can stand in a
/// header.
pub open spec fn content_type_of(mime: Seq<char>) -> Seq<char> {
    if is_header_text(mime) {
        mime
    } else {
        "application/octet-stream"@
    }
}

/// How long a file may be kept: `index.html` has to be asked for anew, what is
/// under `assets/` never changes, and the rest stays good for five minutes.
pub open spec fn cache_control_of(path: Seq<char>) -> Seq<char> {
    if path == "index.html"@ {
        "no-cache"@
    } else if text::has_prefix(path, "assets/"@) {
        "public, max-age=31536000, immutable"@
    } else {
        "public, max-age=300"@
    }
}

/// The headers of a file whose type was guessed.
pub fn file_headers(path: &str, mime: String) -> (r: FileHeaders)
    ensures
        r.content_type@ == content_type_of(mime@),
        r.cache_control@ == cache_control_of(path@),
{
    let cs = text::chars_of(path);
    let cache = if text::same_text(path, "index.html") {
        "no-cache"
    } else if text::starts_with(&cs, "assets/") {
        "public, max-age=31536000, immutable"
    } else {
        "public, max-age=300"
    };
    let content_type = if header_accepts(mime.as_str()) {
        mime
    } else {
        "application/octet-stream".to_string()
    };
    FileHeaders { content_type, cache_control: cache.to_string() }
}

/// The headers of a file.
pub fn respond_file(path: &str) -> (r: FileHeaders)
    ensures
        r.content_type@ == content_type_of(mime_of(path@)),
        !path@.contains('.') ==> r.content_type@ == "application/octet-stream"@,
        r.cache_control@ == cache_control_of(path@),
{
    let mime = guess_mime(path);
    file_headers(path, mime)
}

// ---------------------------------------------------------------------------
// What holds of the rules
// ---------------------------------------------------------------------------
/// A device that was bound by hand is bound again whenever something with its
/// stable identifiers is plugged in.
pub proof fn a_manual_bind_comes_back(
    all: Seq<rules::RuleView>,
    dev: rules::FingerprintView,
    m: rules::MatchSpecView,
    id: u128,
    later: rules::FingerprintView,
)
    requires
        rules::best_spec(dev) == Some(m),
        rules::fits(m, later),
    ensures
        usb::first_fit(persisted(all, m, true, id), dev) is Some,
        usb::first_fit(persisted(all, m, true, id), later) is Some,
        forall|exported: Seq<Seq<char>>|
            !exported.contains(later.busid) ==> #[trigger] udev_watch::decision_of(
                persisted(all, m, true, id),
                later,
                exported,
            ) == udev_watch::HotplugDecision::Bind,
{
    let after = persisted(all, m, true, id);
    rules::entering_a_rule_changes_only_that_rule(all, m, true, Some("manual"@), id);
    rules::best_spec_fits_its_device(dev);
    let k = rules::spec_index(all, m);
    assert(after[k].enabled && after[k].match_spec == m);
    usb::the_first_enabled_rule_that_fits_counts(after, later);
    usb::the_first_enabled_rule_that_fits_counts(after, dev);
}

/// A device that was unbound by hand is no longer bound by a rule for its
/// stable identifiers, and by no rule at all unless one with another
/// description fits it. The rule is kept, not deleted.
pub proof fn a_manual_unbind_stays(
    all: Seq<rules::RuleView>,
    m: rules::MatchSpecView,
    id: u128,
    later: rules::FingerprintView,
)
    ensures
        !rules::has_enabled(persisted(all, m, false, id), m),
        rules::spec_index(persisted(all, m, false, id), m) < persisted(all, m, false, id).len(),
        (forall|i: int|
            0 <= i < all.len() && (#[trigger] all[i]).match_spec != m ==> !(all[i].enabled
                && rules::fits(all[i].match_spec, later))) ==> usb::first_fit(
            persisted(all, m, false, id),
            later,
        ) is None,
{
    let entered = rules::upserted(all, m, false, Some("manual"@), id);
    let after = persisted(all, m, false, id);
    let k = rules::spec_index(all, m);
    rules::entering_a_rule_changes_only_that_rule(all, m, false, Some("manual"@), id);
    rules::disabling_leaves_no_enabled_rule(entered, m);
    rules::lemma_spec_index(after, m);
    assert(after[k].match_spec == m);
    usb::the_first_enabled_rule_that_fits_counts(after, later);
    if forall|i: int|
        0 <= i < all.len() && (#[trigger] all[i]).match_spec != m ==> !(all[i].enabled
            && rules::fits(all[i].match_spec, later)) {
        assert forall|j: int| 0 <= j < after.len() implies !((#[trigger] after[j]).enabled
            && rules::fits(after[j].match_spec, later)) by {
            assert(after[j] == rules::disabled(entered, m)[j]);
            if j < all.len() && j != k {
                assert(entered[j] == all[j]);
            }
        }
    }
}

/// Deleting takes out exactly the rules with the identifier: no rule with it is
/// left, and every other rule is.
pub proof fn deleting_takes_out_that_rule(
    all: Seq<rules::RuleView>,
    id: u128,
    rule: rules::RuleView,
)
    ensures
        !has_id(without_id(all, id), id),
        without_id(all, id).contains(rule) <==> all.contains(rule) && rule.id != id,
    decreases all.len(),
{
    if all.len() > 0 {
        let t = all.drop_last();
        let x = all.last();
        let before = without_id(t, id);
        let after = without_id(all, id);
        deleting_takes_out_that_rule(t, id, rule);
        if t.contains(rule) {
            let i = choose|i: int| 0 <= i < t.len() && t[i] == rule;
            assert(all[i] == rule);
        }
        if all.contains(rule) && rule != x {
            let i = choose|i: int| 0 <= i < all.len() && all[i] == rule;
            assert(t[i] == rule);
        }
        if rule == x {
            assert(all[all.len() - 1] == rule);
        }
        if x.id != id {
            if before.contains(rule) {
                let i = choose|i: int| 0 <= i < before.len() && before[i] == rule;
                assert(after[i] == rule);
            }
            if rule == x {
                assert(after[after.len() - 1] == rule);
            }
            if after.contains(rule) && rule != x {
                let i = choose|i: int| 0 <= i < after.len() && after[i] == rule;
                assert(before[i] == rule);
            }
            if has_id(after, id) {
                let i = choose|i: int| 0 <= i < after.len() && (#[trigger] after[i]).id == id;
                assert(before[i].id == id);
            }
        }
    }
}

proof fn lemma_port_of(exported: Seq<Seq<char>>, free: Seq<Seq<char>>, busid: Seq<char>)
    ensures
        port_of(usb::ports_of(exported, free), busid) == (if exported.contains(busid) {
            Some(usb::PortStatusView { in_use: !free.contains(busid), remote: None })
        } else {
            None
        }),
    decreases exported.len(),
{
    let ports = usb::ports_of(exported, free);
    if exported.len() > 0 {
        let t = exported.drop_first();
        assert(ports.drop_first() =~= usb::ports_of(t, free));
        lemma_port_of(t, free, busid);
        if exported[0] == busid {
            assert(exported.contains(busid));
        }
        if t.contains(busid) {
            let i = choose|i: int| 0 <= i < t.len() && t[i] == busid;
            assert(exported[i + 1] == busid);
        }
        if exported.contains(busid) && exported[0] != busid {
            let i = choose|i: int| 0 <= i < exported.len() && exported[i] == busid;
            assert(t[i - 1] == busid);
        }
    }
}

/// A device is shown as in use exactly if it is exported and not free, and
/// never with the address of a client.
pub proof fn in_use_is_exported_and_not_free(
    d: rules::FingerprintView,
    exported: Seq<Seq<char>>,
    free: Seq<Seq<char>>,
)
    ensures
        shown(d, exported, usb::ports_of(exported, free)).in_use == (exported.contains(d.busid)
            && !free.contains(d.busid)),
        shown(d, exported, usb::ports_of(exported, free)).remote is None,
{
    lemma_port_of(exported, free, d.busid);
}

} // verus!
