//! What the server is for, stated over what goes in and what comes out.

use vstd::prelude::*;

use crate::number;
use crate::process;
use crate::process::RunOutcome;
use crate::server::rules;
use crate::server::rules::{DeviceFingerprint, MatchSpec, Rule, RuleAction};
use crate::server::udev_watch;
use crate::server::udev_watch::{HotplugDecision, RawDevice};
use crate::server::usb;
use crate::server::web;
use crate::text;

verus! {

// ---------------------------------------------------------------------------
// Matching
// ---------------------------------------------------------------------------
/// A description does not fit a device that differs from it in any field that
/// the description has, whatever the others hold; it fits every device that
/// differs in none of them.
pub proof fn a_field_that_differs_is_enough(m: rules::MatchSpecView, f: rules::FingerprintView)
    ensures
        m.serial is Some && f.serial != m.serial ==> !rules::fits(m, f),
        m.devpath is Some && f.devpath != m.devpath ==> !rules::fits(m, f),
        m.vid is Some && f.vid != m.vid ==> !rules::fits(m, f),
        m.pid is Some && f.pid != m.pid ==> !rules::fits(m, f),
        (m.serial is None || f.serial == m.serial) && (m.devpath is None || f.devpath == m.devpath)
            && (m.vid is None || f.vid == m.vid) && (m.pid is None || f.pid == m.pid)
            ==> rules::fits(m, f),
{
}

/// Where a device is plugged in, what it is called and of which class it is
/// does not matter to a description.
pub proof fn only_the_described_fields_matter(
    m: rules::MatchSpecView,
    f: rules::FingerprintView,
    g: rules::FingerprintView,
)
    requires
        f.serial == g.serial,
        f.devpath == g.devpath,
        f.vid == g.vid,
        f.pid == g.pid,
    ensures
        rules::fits(m, f) == rules::fits(m, g),
{
}

/// A description asks for nothing exactly if it fits a device of which nothing
/// is known.
pub proof fn asking_nothing_is_fitting_the_unknown(
    m: rules::MatchSpecView,
    f: rules::FingerprintView,
)
    requires
        f.serial is None,
        f.devpath is None,
        f.vid is None,
        f.pid is None,
    ensures
        rules::asks_nothing(m) <==> rules::fits(m, f),
{
}

/// A device is remembered unless it has neither serial number nor port and lacks
/// vendor or product. What is remembered fits exactly the devices with the same
/// serial number, or with the same port where there is no serial number, and
/// with the same vendor and product as far as they are known.
pub proof fn a_device_is_known_again_by_what_is_stable(
    f: rules::FingerprintView,
    g: rules::FingerprintView,
)
    ensures
        rules::best_spec(f) is None <==> f.serial is None && f.devpath is None && (f.vid is None
            || f.pid is None),
        rules::best_spec(f) matches Some(m) ==> (rules::fits(m, g) <==> {
            &&& f.serial is Some ==> g.serial == f.serial
            &&& f.serial is None && f.devpath is Some ==> g.devpath == f.devpath
            &&& f.vid is Some ==> g.vid == f.vid
            &&& f.pid is Some ==> g.pid == f.pid
        }),
{
}

/// What a contract says of a value, it says of its fields.
pub proof fn views_show_the_fields(m: MatchSpec, r: Rule, f: DeviceFingerprint)
    ensures
        m@.serial == text::opt_text(m.serial),
        m@.devpath == text::opt_text(m.devpath),
        m@.vid == m.vid,
        m@.pid == m.pid,
        r@.id == r.id,
        r@.enabled == r.enabled,
        r@.note == text::opt_text(r.note),
        r@.match_spec == r.match_spec@,
        r@.action == r.action,
        f@.busid == f.busid@,
        f@.serial == text::opt_text(f.serial),
        f@.devpath == text::opt_text(f.devpath),
        f@.vid == f.vid,
        f@.pid == f.pid,
        f@.manufacturer == text::opt_text(f.manufacturer),
        f@.product == text::opt_text(f.product),
        f@.device_class == f.device_class,
{
}

// ---------------------------------------------------------------------------
// Rules
// ---------------------------------------------------------------------------
/// A rule for a description that no rule has is appended, as it was asked for.
pub proof fn an_unknown_description_is_appended(
    all: Seq<rules::RuleView>,
    m: rules::MatchSpecView,
    enabled: bool,
    note: Option<Seq<char>>,
    id: u128,
)
    requires
        forall|i: int| 0 <= i < all.len() ==> (#[trigger] all[i]).match_spec != m,
    ensures
        ({
            let after = rules::upserted(all, m, enabled, note, id);
            &&& after.len() == all.len() + 1
            &&& forall|i: int| 0 <= i < all.len() ==> #[trigger] after[i] == all[i]
            &&& after.last().id == id
            &&& after.last().enabled == enabled
            &&& after.last().note == note
            &&& after.last().match_spec == m
            &&& after.last().action == RuleAction::Bind
        }),
{
    rules::lemma_spec_index(all, m);
}

/// The first rule with a description is switched as asked, and takes the note
/// where there is one; it keeps its identifier, and its note where there is
/// none; no other rule changes.
pub proof fn a_known_description_is_switched(
    all: Seq<rules::RuleView>,
    k: int,
    m: rules::MatchSpecView,
    enabled: bool,
    note: Option<Seq<char>>,
    id: u128,
)
    requires
        0 <= k < all.len(),
        all[k].match_spec == m,
        forall|i: int| 0 <= i < k ==> (#[trigger] all[i]).match_spec != m,
    ensures
        ({
            let after = rules::upserted(all, m, enabled, note, id);
            &&& after.len() == all.len()
            &&& forall|i: int| 0 <= i < all.len() && i != k ==> #[trigger] after[i] == all[i]
            &&& after[k].id == all[k].id
            &&& after[k].match_spec == m
            &&& after[k].enabled == enabled
            &&& note is Some ==> after[k].note == note
            &&& note is None ==> after[k].note == all[k].note
        }),
{
    rules::lemma_spec_index(all, m);
    let s = rules::spec_index(all, m);
    if s < k {
        assert(all[s].match_spec == m);
    }
}

/// Disabling tells of a change exactly if it makes one.
pub proof fn disabling_tells_of_a_change(all: Seq<rules::RuleView>, m: rules::MatchSpecView)
    ensures
        rules::has_enabled(all, m) <==> rules::disabled(all, m) != all,
{
    let after = rules::disabled(all, m);
    if rules::has_enabled(all, m) {
        let i = choose|i: int|
            0 <= i < all.len() && (#[trigger] all[i]).match_spec == m && all[i].enabled;
        assert(after[i] != all[i]);
    } else {
        assert forall|i: int| 0 <= i < all.len() implies #[trigger] after[i] == all[i] by {
            if all[i].match_spec == m {
                assert(!all[i].enabled);
            }
        }
        assert(after =~= all);
    }
}

/// Storing goes through its steps in order, from the directory to the renaming.
pub proof fn storing_goes_step_by_step(outcome: Result<(), Seq<char>>)
    requires
        outcome is Ok,
    ensures
        rules::progress_of(rules::StoreStep::CreateParent, outcome)
            == rules::StoreProgressView::Next(rules::StoreStep::Serialize),
        rules::progress_of(rules::StoreStep::Serialize, outcome) == rules::StoreProgressView::Next(
            rules::StoreStep::WriteTemp,
        ),
        rules::progress_of(rules::StoreStep::WriteTemp, outcome) == rules::StoreProgressView::Next(
            rules::StoreStep::RenameTemp,
        ),
        rules::progress_of(rules::StoreStep::RenameTemp, outcome)
            == rules::StoreProgressView::Done(Ok(())),
{
}

// ---------------------------------------------------------------------------
// What is exported, free and wanted
// ---------------------------------------------------------------------------
/// A line of the listing that begins with a bus identifier and a colon, however
/// far it is indented and whatever follows, names that device.
pub proof fn a_listing_line_names_its_device(
    indent: Seq<char>,
    busid: Seq<char>,
    rest: Seq<char>,
)
    requires
        forall|i: int| 0 <= i < indent.len() ==> text::is_ws(#[trigger] indent[i]),
        busid.contains('-'),
        !busid.contains(':'),
        forall|i: int| 0 <= i < busid.len() ==> !text::is_ws(#[trigger] busid[i]),
    ensures
        usb::exportable_of_line(indent + busid + seq![':'] + rest) == Some(busid),
{
    let line = indent + busid + seq![':'] + rest;
    let n = indent.len() as int;
    let b = busid.len() as int;
    assert(b > 0);
    assert forall|j: int| 0 <= j < n implies text::is_ws(#[trigger] line[j]) by {
        assert(line[j] == indent[j]);
    }
    assert(line[n] == busid[0]);
    text::lemma_trim_start(line, n);
    let t = line.skip(n);
    assert(t =~= busid + seq![':'] + rest);
    assert forall|j: int| 0 <= j < b implies t[j] != ':' by {
        assert(t[j] == busid[j]);
        assert(busid.contains(busid[j]));
    }
    assert(t[b] == ':');
    text::lemma_position(t, ':', b);
    assert(t.take(b) =~= busid);
    assert(!text::is_ws(busid[b - 1]));
    text::lemma_trim_of_trimmed(busid);
    if busid.contains(' ') {
        let i = choose|i: int| 0 <= i < busid.len() && busid[i] == ' ';
        assert(text::is_ws(busid[i]));
    }
}

/// A line names nothing unless it has a colon, and what it names holds a dash
/// and no blank.
pub proof fn other_lines_name_nothing(line: Seq<char>)
    ensures
        !line.contains(':') ==> usb::exportable_of_line(line) is None,
        usb::exportable_of_line(line) matches Some(b) ==> b.contains('-') && !b.contains(' '),
{
    let t = text::trim_start_of(line);
    text::lemma_position_bounds(t, ':');
    lemma_trim_start_holds(line, ':');
}

proof fn lemma_trim_start_holds(s: Seq<char>, c: char)
    ensures
        text::trim_start_of(s).contains(c) ==> s.contains(c),
    decreases s.len(),
{
    if s.len() > 0 && text::is_ws(s[0]) {
        let t = s.drop_first();
        lemma_trim_start_holds(t, c);
        if t.contains(c) {
            let i = choose|i: int| 0 <= i < t.len() && t[i] == c;
            assert(s[i + 1] == c);
        }
    }
}

/// Every exported device has one state, in their order: in use exactly if it is
/// not free, and without the address of a client.
pub proof fn every_exported_device_has_a_state(
    exported: Seq<Seq<char>>,
    free: Seq<Seq<char>>,
    i: int,
)
    requires
        0 <= i < exported.len(),
    ensures
        usb::ports_of(exported, free).len() == exported.len(),
        usb::ports_of(exported, free)[i].0 == exported[i],
        free.contains(exported[i]) ==> !usb::ports_of(exported, free)[i].1.in_use,
        !free.contains(exported[i]) ==> usb::ports_of(exported, free)[i].1.in_use,
        usb::ports_of(exported, free)[i].1.remote is None,
{
}

/// The devices that the rules want are taken one by one in their order: one more
/// device is wanted exactly if some enabled rule fits it.
pub proof fn devices_are_wanted_one_by_one(
    all: Seq<rules::RuleView>,
    devices: Seq<rules::FingerprintView>,
    d: rules::FingerprintView,
)
    ensures
        usb::wanted(all, Seq::empty()) == Seq::<Seq<char>>::empty(),
        (exists|k: int|
            0 <= k < all.len() && (#[trigger] all[k]).enabled && rules::fits(all[k].match_spec, d))
            ==> usb::wanted(all, devices.push(d)) == usb::wanted(all, devices).push(d.busid),
        !(exists|k: int|
            0 <= k < all.len() && (#[trigger] all[k]).enabled && rules::fits(all[k].match_spec, d))
            ==> usb::wanted(all, devices.push(d)) == usb::wanted(all, devices),
{
    usb::the_first_enabled_rule_that_fits_counts(all, d);
    assert(devices.push(d).drop_last() =~= devices);
}

/// A command that ran well did not fail, whatever it printed; one that ran badly
/// or not at all did.
pub proof fn commands_fail_unless_they_succeed(verb: Seq<char>, busid: Seq<char>, o: RunOutcome)
    ensures
        usb::command_failure(verb, busid, o) is None <==> (o matches RunOutcome::Finished {
            success,
            ..
        } && success),
        process::succeeded(o) <==> usb::command_failure(verb, busid, o) is None,
{
}

// ---------------------------------------------------------------------------
// Devices that come and go
// ---------------------------------------------------------------------------
/// An event is acted on exactly if its bus identifier holds no colon, its action
/// is `add` or `change`, and the device has no event that was acted on less than
/// 600 milliseconds before; nothing else about it matters.
pub proof fn an_event_counts_by_name_action_and_time(
    last: Map<Seq<char>, u64>,
    e: udev_watch::HotplugEvent,
)
    ensures
        udev_watch::is_acted_on(last, e) <==> {
            &&& forall|i: int| 0 <= i < e.busid.len() ==> e.busid[i] != ':'
            &&& e.action == "add"@ || e.action == "change"@
            &&& !(last.contains_key(e.busid) && e.now < last[e.busid] + 600_000_000)
        },
{
    if e.busid.contains(':') {
        let i = choose|i: int| 0 <= i < e.busid.len() && e.busid[i] == ':';
        assert(e.busid[i] == ':');
    } else {
        assert forall|i: int| 0 <= i < e.busid.len() implies e.busid[i] != ':' by {
            assert(e.busid.contains(e.busid[i]));
        }
    }
}

/// An event that is acted on sets the time of its device and of no other; one
/// that is passed over sets none.
pub proof fn only_an_event_that_counts_sets_the_time(
    last: Map<Seq<char>, u64>,
    e: udev_watch::HotplugEvent,
)
    ensures
        udev_watch::is_acted_on(last, e) ==> udev_watch::times_after(last, e) == last.insert(
            e.busid,
            e.now,
        ),
        !udev_watch::is_acted_on(last, e) ==> udev_watch::times_after(last, e) == last,
{
}

/// The first event of a device that says that it appeared is always acted on.
pub proof fn a_new_device_is_always_acted_on(
    last: Map<Seq<char>, u64>,
    busid: Seq<char>,
    now: u64,
)
    requires
        !last.contains_key(busid),
        !busid.contains(':'),
    ensures
        udev_watch::is_acted_on(
            last,
            udev_watch::HotplugEvent { busid, action: "add"@, now },
        ),
        udev_watch::is_acted_on(
            last,
            udev_watch::HotplugEvent { busid, action: "change"@, now },
        ),
{
}

/// A device is found by its bus identifier, character for character, and the
/// first of several is; none is found only where no device has it.
pub proof fn a_device_is_found_by_its_name(
    devices: Seq<rules::FingerprintView>,
    busid: Seq<char>,
)
    ensures
        match udev_watch::device_of(devices, busid) {
            Some(d) => exists|k: int|
                #![trigger devices[k]]
                {
                    &&& 0 <= k < devices.len()
                    &&& devices[k] == d
                    &&& d.busid == busid
                    &&& forall|j: int| 0 <= j < k ==> (#[trigger] devices[j]).busid != busid
                },
            None => forall|j: int|
                0 <= j < devices.len() ==> (#[trigger] devices[j]).busid != busid,
        },
    decreases devices.len(),
{
    if devices.len() > 0 && devices[0].busid != busid {
        let t = devices.drop_first();
        a_device_is_found_by_its_name(t, busid);
        match udev_watch::device_of(t, busid) {
            Some(d) => {
                let k = choose|k: int|
                    #![trigger t[k]]
                    {
                        &&& 0 <= k < t.len()
                        &&& t[k] == d
                        &&& d.busid == busid
                        &&& forall|j: int| 0 <= j < k ==> (#[trigger] t[j]).busid != busid
                    };
                assert(devices[k + 1] == d);
                assert forall|j: int| 0 <= j < k + 1 implies (#[trigger] devices[j]).busid
                    != busid by {
                    if j > 0 {
                        assert(t[j - 1] == devices[j]);
                    }
                }
            },
            None => {
                assert forall|j: int| 0 <= j < devices.len() implies (#[trigger] devices[j]).busid
                    != busid by {
                    if j > 0 {
                        assert(t[j - 1] == devices[j]);
                    }
                }
            },
        }
    } else if devices.len() > 0 {
        assert(devices[0].busid == busid);
    }
}

/// A device is bound exactly if it is not exported yet and some enabled rule
/// fits it; it needs no further attempt if it is exported.
pub proof fn a_device_is_bound_if_a_rule_fits(
    all: Seq<rules::RuleView>,
    dev: rules::FingerprintView,
    exported: Seq<Seq<char>>,
)
    ensures
        udev_watch::decision_of(all, dev, exported) == HotplugDecision::Bind <==> {
            &&& !exported.contains(dev.busid)
            &&& exists|k: int|
                0 <= k < all.len() && (#[trigger] all[k]).enabled && rules::fits(
                    all[k].match_spec,
                    dev,
                )
        },
        udev_watch::decision_of(all, dev, exported) == HotplugDecision::Settled(true)
            <==> exported.contains(dev.busid),
{
    usb::the_first_enabled_rule_that_fits_counts(all, dev);
}

/// What udev tells of a device is what is known of it: the texts as they are,
/// and the numbers in base 16 as far as they are such.
pub proof fn udev_values_are_taken_over(d: RawDevice)
    ensures
        udev_watch::fingerprint_of(d).busid == d.sysname@,
        udev_watch::fingerprint_of(d).serial == text::opt_text(d.serial),
        udev_watch::fingerprint_of(d).devpath == text::opt_text(d.devpath),
        udev_watch::fingerprint_of(d).manufacturer == text::opt_text(d.manufacturer),
        udev_watch::fingerprint_of(d).product == text::opt_text(d.product),
        d.id_vendor is None ==> udev_watch::fingerprint_of(d).vid is None,
        d.id_product is None ==> udev_watch::fingerprint_of(d).pid is None,
        d.device_class is None ==> udev_watch::fingerprint_of(d).device_class is None,
        forall|n: u16|
            d.id_vendor is Some && d.id_vendor->0@ == #[trigger] number::numeral(n as int, 16)
                ==> udev_watch::fingerprint_of(d).vid == Some(n),
        forall|n: u16|
            d.id_product is Some && d.id_product->0@ == #[trigger] number::numeral(n as int, 16)
                ==> udev_watch::fingerprint_of(d).pid == Some(n),
        forall|n: u8|
            d.device_class is Some && d.device_class->0@ == #[trigger] number::numeral(
                n as int,
                16,
            ) ==> udev_watch::fingerprint_of(d).device_class == Some(n),
{
    assert forall|n: u16|
        d.id_vendor is Some && d.id_vendor->0@ == #[trigger] number::numeral(
            n as int,
            16,
        ) implies udev_watch::fingerprint_of(d).vid == Some(n) by {
        number::numeral_round_trip(n as int, 16, 0xffff);
    }
    assert forall|n: u16|
        d.id_product is Some && d.id_product->0@ == #[trigger] number::numeral(
            n as int,
            16,
        ) implies udev_watch::fingerprint_of(d).pid == Some(n) by {
        number::numeral_round_trip(n as int, 16, 0xffff);
    }
    assert forall|n: u8|
        d.device_class is Some && d.device_class->0@ == #[trigger] number::numeral(
            n as int,
            16,
        ) implies udev_watch::fingerprint_of(d).device_class == Some(n) by {
        number::numeral_round_trip(n as int, 16, 0xff);
    }
}

// ---------------------------------------------------------------------------
// The pages
// ---------------------------------------------------------------------------
/// The pages show the devices one by one in their order: one more device gets
/// one more entry exactly if its bus identifier holds a dash and its class is
/// not that of a hub, which is 9. The entry tells what is known of it.
pub proof fn devices_are_shown_one_by_one(
    devices: Seq<rules::FingerprintView>,
    d: rules::FingerprintView,
    exported: Seq<Seq<char>>,
    ports: Seq<(Seq<char>, usb::PortStatusView)>,
)
    ensures
        web::all_shown(Seq::empty(), exported, ports) == Seq::<web::ShownDevice>::empty(),
        ({
            let before = web::all_shown(devices, exported, ports);
            let after = web::all_shown(devices.push(d), exported, ports);
            if d.busid.contains('-') && d.device_class != Some(9u8) {
                &&& after.len() == before.len() + 1
                &&& forall|i: int| 0 <= i < before.len() ==> #[trigger] after[i] == before[i]
                &&& after.last().busid == d.busid
                &&& after.last().serial == d.serial
                &&& after.last().devpath == d.devpath
                &&& after.last().vid == d.vid
                &&& after.last().pid == d.pid
                &&& after.last().manufacturer == d.manufacturer
                &&& after.last().product == d.product
                &&& after.last().exported == exported.contains(d.busid)
            } else {
                after == before
            }
        }),
{
    assert(devices.push(d).drop_last() =~= devices);
}

/// Every device whose bus identifier holds a dash is shown, whatever its class,
/// unless that is 9; and nothing else is shown.
pub proof fn only_buses_and_hubs_are_hidden(
    devices: Seq<rules::FingerprintView>,
    exported: Seq<Seq<char>>,
    ports: Seq<(Seq<char>, usb::PortStatusView)>,
    busid: Seq<char>,
)
    ensures
        (exists|i: int|
            0 <= i < web::all_shown(devices, exported, ports).len() && (
            #[trigger] web::all_shown(devices, exported, ports)[i]).busid == busid) <==> (exists|
            k: int,
        |
            0 <= k < devices.len() && (#[trigger] devices[k]).busid == busid && busid.contains('-')
                && devices[k].device_class != Some(9u8)),
    decreases devices.len(),
{
    if devices.len() > 0 {
        let t = devices.drop_last();
        let d = devices.last();
        assert(t.push(d) =~= devices);
        devices_are_shown_one_by_one(t, d, exported, ports);
        only_buses_and_hubs_are_hidden(t, exported, ports, busid);
        let before = web::all_shown(t, exported, ports);
        let after = web::all_shown(devices, exported, ports);
        if exists|i: int| 0 <= i < before.len() && (#[trigger] before[i]).busid == busid {
            let i = choose|i: int| 0 <= i < before.len() && (#[trigger] before[i]).busid == busid;
            assert(after[i] == before[i]);
            let k = choose|k: int|
                0 <= k < t.len() && (#[trigger] t[k]).busid == busid && busid.contains('-')
                    && t[k].device_class != Some(9u8);
            assert(devices[k] == t[k]);
        }
        if exists|i: int| 0 <= i < after.len() && (#[trigger] after[i]).busid == busid {
            let i = choose|i: int| 0 <= i < after.len() && (#[trigger] after[i]).busid == busid;
            if i < before.len() {
                assert(before[i].busid == busid);
            } else {
                assert(devices[devices.len() - 1] == d);
            }
        }
        if exists|k: int|
            0 <= k < devices.len() && (#[trigger] devices[k]).busid == busid && busid.contains('-')
                && devices[k].device_class != Some(9u8) {
            let k = choose|k: int|
                0 <= k < devices.len() && (#[trigger] devices[k]).busid == busid
                    && busid.contains('-') && devices[k].device_class != Some(9u8);
            if k < t.len() {
                assert(t[k] == devices[k]);
            } else {
                assert(after[after.len() - 1].busid == busid);
            }
        }
    }
}

/// The state that is shown is that of the first port of the device, and none is
/// where no port is its.
pub proof fn a_port_is_found_by_its_name(
    ports: Seq<(Seq<char>, usb::PortStatusView)>,
    busid: Seq<char>,
)
    ensures
        match web::port_of(ports, busid) {
            Some(p) => exists|k: int|
                #![trigger ports[k]]
                {
                    &&& 0 <= k < ports.len()
                    &&& ports[k] == (busid, p)
                    &&& forall|j: int| 0 <= j < k ==> (#[trigger] ports[j]).0 != busid
                },
            None => forall|j: int| 0 <= j < ports.len() ==> (#[trigger] ports[j]).0 != busid,
        },
    decreases ports.len(),
{
    if ports.len() > 0 && ports[0].0 != busid {
        let t = ports.drop_first();
        a_port_is_found_by_its_name(t, busid);
        match web::port_of(t, busid) {
            Some(p) => {
                let k = choose|k: int|
                    #![trigger t[k]]
                    {
                        &&& 0 <= k < t.len()
                        &&& t[k] == (busid, p)
                        &&& forall|j: int| 0 <= j < k ==> (#[trigger] t[j]).0 != busid
                    };
                assert(ports[k + 1] == (busid, p));
                assert forall|j: int| 0 <= j < k + 1 implies (#[trigger] ports[j]).0 != busid by {
                    if j > 0 {
                        assert(t[j - 1] == ports[j]);
                    }
                }
            },
            None => {
                assert forall|j: int| 0 <= j < ports.len() implies (#[trigger] ports[j]).0
                    != busid by {
                    if j > 0 {
                        assert(t[j - 1] == ports[j]);
                    }
                }
            },
        }
    } else if ports.len() > 0 {
        assert(ports[0] == (busid, ports[0].1));
    }
}

/// A device is shown with what its port tells, and as free and without a client
/// where it has no port.
pub proof fn a_device_is_shown_with_its_port(
    d: rules::FingerprintView,
    exported: Seq<Seq<char>>,
    ports: Seq<(Seq<char>, usb::PortStatusView)>,
)
    ensures
        match web::port_of(ports, d.busid) {
            Some(p) => web::shown(d, exported, ports).in_use == p.in_use && web::shown(
                d,
                exported,
                ports,
            ).remote == p.remote,
            None => !web::shown(d, exported, ports).in_use && web::shown(
                d,
                exported,
                ports,
            ).remote is None,
        },
{
}

/// A rule for a device is refused exactly if the devices could not be listed, no
/// device has that bus identifier, or the first that has it offers nothing
/// stable; otherwise it is for what is stable of that device.
pub proof fn a_rule_is_refused_for_a_reason(
    devices: Seq<rules::FingerprintView>,
    busid: Seq<char>,
    message: crate::failure::FailureView,
    k: int,
)
    ensures
        web::spec_for(Err(message), busid) == Err::<rules::MatchSpecView, web::ApiErrorView>(
            web::ApiErrorView { status: 500, msg: message.message },
        ),
        (forall|j: int| 0 <= j < devices.len() ==> (#[trigger] devices[j]).busid != busid)
            ==> web::spec_for(Ok(devices), busid) == Err::<
            rules::MatchSpecView,
            web::ApiErrorView,
        >(web::ApiErrorView { status: 400, msg: "device not found"@ }),
        0 <= k < devices.len() && devices[k].busid == busid && (forall|j: int|
            0 <= j < k ==> (#[trigger] devices[j]).busid != busid) ==> (match rules::best_spec(
            devices[k],
        ) {
            Some(m) => web::spec_for(Ok(devices), busid) == Ok::<
                rules::MatchSpecView,
                web::ApiErrorView,
            >(m),
            None => web::spec_for(Ok(devices), busid) == Err::<
                rules::MatchSpecView,
                web::ApiErrorView,
            >(web::ApiErrorView { status: 400, msg: "device has no stable identifiers"@ }),
        }),
{
    a_device_is_found_by_its_name(devices, busid);
}

/// An added rule is enabled, is for what it was asked for, and comes after all
/// the others, which stay as they are.
pub proof fn an_added_rule_comes_last(
    all: Seq<rules::RuleView>,
    m: rules::MatchSpecView,
    note: Option<Seq<char>>,
    id: u128,
)
    ensures
        ({
            let after = web::with_rule(all, m, note, id);
            &&& after.len() == all.len() + 1
            &&& forall|i: int| 0 <= i < all.len() ==> #[trigger] after[i] == all[i]
            &&& after.last().id == id
            &&& after.last().enabled
            &&& after.last().note == note
            &&& after.last().match_spec == m
        }),
{
}

/// A manual choice touches no rule with another description, deletes none, and
/// leaves the first rule for the description switched as chosen and marked as
/// manual.
pub proof fn a_manual_choice_touches_only_its_rules(
    all: Seq<rules::RuleView>,
    m: rules::MatchSpecView,
    enabled: bool,
    id: u128,
    k: int,
)
    ensures
        ({
            let after = web::persisted(all, m, enabled, id);
            &&& after.len() >= all.len()
            &&& forall|i: int|
                0 <= i < all.len() ==> (#[trigger] after[i]).id == all[i].id && after[i].match_spec
                    == all[i].match_spec
            &&& forall|i: int|
                0 <= i < all.len() && all[i].match_spec != m ==> #[trigger] after[i] == all[i]
            &&& 0 <= k < after.len() && after[k].match_spec == m && (forall|j: int|
                0 <= j < k ==> (#[trigger] after[j]).match_spec != m) ==> after[k].enabled
                == enabled && after[k].note == Some("manual"@)
        }),
{
    let entered = rules::upserted(all, m, enabled, Some("manual"@), id);
    let after = web::persisted(all, m, enabled, id);
    let s = rules::spec_index(all, m);
    rules::lemma_spec_index(all, m);
    rules::entering_a_rule_changes_only_that_rule(all, m, enabled, Some("manual"@), id);
    rules::disabling_leaves_no_enabled_rule(entered, m);
    assert(after.len() == entered.len());
    assert(after[s].match_spec == m);
    assert forall|i: int| 0 <= i < all.len() && all[i].match_spec != m implies #[trigger] after[i]
        == all[i] by {
        assert(entered[i] == all[i]);
    }
    if 0 <= k < after.len() && after[k].match_spec == m && (forall|j: int|
        0 <= j < k ==> (#[trigger] after[j]).match_spec != m) {
        if s < k {
            assert(after[s].match_spec != m);
        }
        if k < s {
            assert(after[k].match_spec == all[k].match_spec);
        }
    }
}

/// A rule is found by its identifier, and the first of several is.
pub proof fn a_rule_is_found_by_its_identifier(all: Seq<rules::RuleView>, id: u128)
    ensures
        0 <= web::id_index(all, id) <= all.len(),
        forall|j: int| 0 <= j < web::id_index(all, id) ==> (#[trigger] all[j]).id != id,
        web::id_index(all, id) < all.len() ==> all[web::id_index(all, id)].id == id,
    decreases all.len(),
{
    if all.len() > 0 && all[0].id != id {
        let t = all.drop_first();
        a_rule_is_found_by_its_identifier(t, id);
        assert forall|j: int| 0 <= j < web::id_index(all, id) implies (#[trigger] all[j]).id
            != id by {
            if j > 0 {
                assert(t[j - 1] == all[j]);
            }
        }
    }
}

/// Deleting keeps the rules that stay in their order: rules that all bear other
/// identifiers stay as they are, one more that bears another comes behind, and
/// one that bears it leaves.
pub proof fn deleting_keeps_the_order(
    all: Seq<rules::RuleView>,
    rule: rules::RuleView,
    id: u128,
)
    ensures
        web::without_id(Seq::empty(), id) == Seq::<rules::RuleView>::empty(),
        rule.id == id ==> web::without_id(all.push(rule), id) == web::without_id(all, id),
        rule.id != id ==> web::without_id(all.push(rule), id) == web::without_id(all, id).push(
            rule,
        ),
{
    assert(all.push(rule).drop_last() =~= all);
}

/// The file that is asked for is the path without its leading slashes, however
/// many there are; a path of slashes alone asks for `index.html`.
pub proof fn leading_slashes_do_not_count(slashes: Seq<char>, path: Seq<char>)
    requires
        forall|i: int| 0 <= i < slashes.len() ==> #[trigger] slashes[i] == '/',
        path.len() > 0 ==> path[0] != '/',
    ensures
        path.len() > 0 ==> web::requested_file(slashes + path) == path,
        path.len() == 0 ==> web::requested_file(slashes + path) == "index.html"@,
{
    lemma_slashes(slashes, path);
}

proof fn lemma_slashes(slashes: Seq<char>, path: Seq<char>)
    requires
        forall|i: int| 0 <= i < slashes.len() ==> #[trigger] slashes[i] == '/',
        path.len() > 0 ==> path[0] != '/',
    ensures
        web::without_slashes(slashes + path) == path,
    decreases slashes.len(),
{
    let s = slashes + path;
    if slashes.len() == 0 {
        assert(s =~= path);
    } else {
        assert(s[0] == slashes[0]);
        assert(s.drop_first() =~= slashes.drop_first() + path);
        lemma_slashes(slashes.drop_first(), path);
    }
}

/// Everything under `assets/` may be kept for good, `index.html` never, and
/// anything else for five minutes.
pub proof fn assets_may_be_kept_for_good(path: Seq<char>, rest: Seq<char>)
    ensures
        web::cache_control_of("assets/"@ + rest) == "public, max-age=31536000, immutable"@,
        web::cache_control_of("index.html"@) == "no-cache"@,
        path != "index.html"@ && !(exists|r: Seq<char>| path == #[trigger] ("assets/"@ + r))
            ==> web::cache_control_of(path) == "public, max-age=300"@,
{
    reveal_strlit("assets/");
    reveal_strlit("index.html");
    let p = "assets/"@ + rest;
    assert(p[0] == 'a');
    assert("index.html"@[0] == 'i');
    assert(p.take("assets/"@.len() as int) =~= "assets/"@);
    if text::has_prefix(path, "assets/"@) {
        let r = path.skip("assets/"@.len() as int);
        assert(path =~= "assets/"@ + r);
    }
}

/// A guessed type is used exactly if none of its characters is a control
/// character other than the tab.
pub proof fn a_type_without_control_characters_is_used(mime: Seq<char>)
    ensures
        (forall|i: int|
            0 <= i < mime.len() ==> (#[trigger] mime[i]) == '\u{9}' || ('\u{20}' <= mime[i]
                && mime[i] != '\u{7f}')) ==> web::content_type_of(mime) == mime,
        !(forall|i: int|
            0 <= i < mime.len() ==> (#[trigger] mime[i]) == '\u{9}' || ('\u{20}' <= mime[i]
                && mime[i] != '\u{7f}')) ==> web::content_type_of(mime)
            == "application/octet-stream"@,
{
}

// ---------------------------------------------------------------------------
// What is said, and what follows
// ---------------------------------------------------------------------------
/// The entries of the driver's directory are gone through in their order: one
/// more counts, behind the others, exactly if it is a link whose name holds a dash
/// and was not there before.
pub proof fn links_are_exported_one_by_one(entries: Seq<usb::DirEntry>, e: usb::DirEntry)
    ensures
        usb::USBIP_HOST_SYSFS@ == "/sys/bus/usb/drivers/usbip-host"@,
        usb::exported_of(Seq::empty()) == Seq::<Seq<char>>::empty(),
        usb::exported_of(entries.push(e)) == (if e.is_symlink && e.name@.contains('-')
            && !usb::exported_of(entries).contains(e.name@) {
            usb::exported_of(entries).push(e.name@)
        } else {
            usb::exported_of(entries)
        }),
{
    assert(entries.push(e).drop_last() =~= entries);
}

/// The lines of the listing are gone through in their order: one more counts,
/// behind the others, exactly if it names a device that was not there before.
pub proof fn lines_are_free_one_by_one(lines: Seq<Seq<char>>, line: Seq<char>)
    ensures
        usb::exportable_of(Seq::empty()) == Seq::<Seq<char>>::empty(),
        usb::exportable_of_line(line) is None ==> usb::exportable_of(lines.push(line))
            == usb::exportable_of(lines),
        usb::exportable_of_line(line) matches Some(b) ==> usb::exportable_of(lines.push(line)) == (
        if usb::exportable_of(lines).contains(b) {
            usb::exportable_of(lines)
        } else {
            usb::exportable_of(lines).push(b)
        }),
{
    assert(lines.push(line).drop_last() =~= lines);
}

/// A command that failed is named with its device and what it complained of; one
/// that did not start is named with what stopped it.
pub proof fn a_failed_command_is_named(verb: Seq<char>, busid: Seq<char>, o: RunOutcome)
    ensures
        o matches RunOutcome::NotStarted(why) ==> usb::command_failure(verb, busid, o) == Some(
            crate::failure::wrapped_of("run usbip "@ + verb, why@),
        ),
        o matches RunOutcome::Finished { success, .. } && !success ==> usb::command_failure(
            verb,
            busid,
            o,
        ) == Some(
            crate::failure::plain_of(
                "usbip "@ + verb + " failed (busid="@ + busid + "): "@ + process::utf8_lossy(
                    o->stderr@,
                ),
            ),
        ),
        o matches RunOutcome::Finished { .. } ==> process::printed(o) == process::utf8_lossy(
            o->stdout@,
        ) && process::complained(o) == process::utf8_lossy(o->stderr@),
{
}

/// What is said when a step of storing the rules failed, and when a description
/// asks for nothing.
pub proof fn a_failed_step_is_named(e: Seq<char>)
    ensures
        rules::progress_of(rules::StoreStep::CreateParent, Err(e)) == rules::StoreProgressView::Done(
            Err(crate::failure::plain_of(e)),
        ),
        rules::progress_of(rules::StoreStep::Serialize, Err(e)) == rules::StoreProgressView::Done(
            Err(crate::failure::caused_of("serialize rules json"@, e)),
        ),
        rules::progress_of(rules::StoreStep::WriteTemp, Err(e)) == rules::StoreProgressView::Done(
            Err(crate::failure::caused_of("write tmp rules"@, e)),
        ),
        rules::progress_of(rules::StoreStep::RenameTemp, Err(e)) == rules::StoreProgressView::Done(
            Err(crate::failure::caused_of("rename tmp rules"@, e)),
        ),
        rules::TEMP_EXTENSION@ == "json.tmp"@,
        rules::empty_spec_message() == "match spec must not be empty"@,
{
}

/// Up to twenty attempts are made, each after 250 milliseconds and the first
/// after 200: a settled device ends them, the last one ends them with what came
/// of it, and every other is followed by the next.
pub proof fn attempts_go_on_up_to_twenty(
    attempt: int,
    outcome: Result<bool, crate::failure::FailureView>,
)
    requires
        0 <= attempt < 20,
    ensures
        udev_watch::SETTLE_MS == 200,
        udev_watch::RETRY_DELAY_MS == 250,
        udev_watch::MAX_ATTEMPTS == 20,
        (outcome matches Ok(b) && b) ==> udev_watch::retry_of(attempt, outcome)
            == udev_watch::RetryStepView::Done(Ok(())),
        !(outcome matches Ok(b) && b) && attempt < 19 ==> udev_watch::retry_of(attempt, outcome)
            == udev_watch::RetryStepView::Wait(attempt + 1),
        attempt == 19 && outcome is Ok ==> udev_watch::retry_of(attempt, outcome)
            == udev_watch::RetryStepView::Done(Ok(())),
        attempt == 19 && outcome is Err ==> udev_watch::retry_of(attempt, outcome)
            == udev_watch::RetryStepView::Done(Err(outcome->Err_0)),
{
}

/// A device that is not exported and that no enabled rule fits needs another
/// look.
pub proof fn a_device_without_a_rule_is_left_open(
    all: Seq<rules::RuleView>,
    dev: rules::FingerprintView,
    exported: Seq<Seq<char>>,
)
    requires
        !exported.contains(dev.busid),
        forall|k: int|
            0 <= k < all.len() ==> !((#[trigger] all[k]).enabled && rules::fits(
                all[k].match_spec,
                dev,
            )),
    ensures
        udev_watch::decision_of(all, dev, exported) == HotplugDecision::Settled(false),
{
    usb::the_first_enabled_rule_that_fits_counts(all, dev);
}

/// The pages are told of a device exactly if the attempts ended well.
pub proof fn the_pages_are_told_of_devices(result: Result<(), crate::failure::FailureView>)
    ensures
        result is Ok ==> udev_watch::told_of(result) == Some(web::UpdateEvent::Udev),
        result is Err ==> udev_watch::told_of(result) is None,
{
}

/// A manual choice goes from the command to the rule to the file, and then the
/// pages are told which choice it was.
pub proof fn a_choice_goes_step_by_step(bind: bool)
    ensures
        web::manual_progress_of(bind, web::ManualStep::Command, Ok(()))
            == web::ManualProgressView::Next(web::ManualStep::Persist),
        web::manual_progress_of(bind, web::ManualStep::Persist, Ok(()))
            == web::ManualProgressView::Next(web::ManualStep::Store),
        web::manual_progress_of(true, web::ManualStep::Store, Ok(()))
            == web::ManualProgressView::Done(web::UpdateEvent::Bind),
        web::manual_progress_of(false, web::ManualStep::Store, Ok(()))
            == web::ManualProgressView::Done(web::UpdateEvent::Unbind),
{
}

/// A request that cannot be met is answered with 400, a failure of the server
/// with 500, and both with the message.
pub proof fn errors_have_their_status(msg: Seq<char>)
    ensures
        web::bad_request_of(msg).status == 400,
        web::bad_request_of(msg).msg == msg,
        web::internal_of(msg).status == 500,
        web::internal_of(msg).msg == msg,
{
}

/// A rule bears an identifier exactly if it is found by it.
pub proof fn an_identifier_is_borne_if_it_is_found(all: Seq<rules::RuleView>, id: u128)
    ensures
        web::has_id(all, id) <==> web::id_index(all, id) < all.len(),
{
    a_rule_is_found_by_its_identifier(all, id);
    if web::has_id(all, id) {
        let i = choose|i: int| 0 <= i < all.len() && (#[trigger] all[i]).id == id;
        if i < web::id_index(all, id) {
            assert(all[i].id != id);
        }
    } else {
        let k = web::id_index(all, id);
        if k < all.len() {
            assert(all[k].id == id);
        }
    }
}

/// What a contract says of what is shown, listed or stored, it says of the
/// fields.
pub proof fn lists_show_their_members(
    v: Seq<web::DeviceView>,
    p: Seq<(String, usb::PortStatus)>,
    f: Seq<DeviceFingerprint>,
    r: Seq<Rule>,
    i: int,
)
    ensures
        web::shown_views(v).len() == v.len(),
        0 <= i < v.len() ==> {
            let s = web::shown_views(v)[i];
            &&& s.busid == v[i].busid@
            &&& s.serial == text::opt_text(v[i].serial)
            &&& s.devpath == text::opt_text(v[i].devpath)
            &&& s.vid == v[i].vid
            &&& s.pid == v[i].pid
            &&& s.manufacturer == text::opt_text(v[i].manufacturer)
            &&& s.product == text::opt_text(v[i].product)
            &&& s.exported == v[i].exported
            &&& s.in_use == v[i].in_use
            &&& s.remote == text::opt_text(v[i].remote)
        },
        usb::port_views(p).len() == p.len(),
        0 <= i < p.len() ==> {
            let s = usb::port_views(p)[i];
            &&& s.0 == p[i].0@
            &&& s.1.in_use == p[i].1.in_use
            &&& s.1.remote == text::opt_text(p[i].1.remote)
        },
        rules::fingerprint_views(f).len() == f.len(),
        0 <= i < f.len() ==> rules::fingerprint_views(f)[i] == f[i]@,
        rules::rule_views(r).len() == r.len(),
        0 <= i < r.len() ==> rules::rule_views(r)[i] == r[i]@,
{
}

/// What could not be learnt counts as nothing, and what was learnt counts as it
/// is.
pub proof fn what_is_not_known_counts_as_nothing(
    exported: Result<crate::text_set::TextSet, crate::failure::Failure>,
    ports: Result<Vec<(String, usb::PortStatus)>, crate::failure::Failure>,
    devices: Result<Vec<DeviceFingerprint>, crate::failure::Failure>,
)
    ensures
        exported matches Ok(set) ==> web::known_exported(exported) == set.order(),
        exported is Err ==> web::known_exported(exported).len() == 0,
        ports matches Ok(v) ==> web::known_ports(ports) == usb::port_views(v@),
        ports is Err ==> web::known_ports(ports).len() == 0,
        devices matches Ok(v) ==> web::listing_view(devices) == Ok::<
            Seq<rules::FingerprintView>,
            crate::failure::FailureView,
        >(rules::fingerprint_views(v@)),
        devices matches Err(f) ==> web::listing_view(devices) == Err::<
            Seq<rules::FingerprintView>,
            crate::failure::FailureView,
        >(f@),
{
}

} // verus!
