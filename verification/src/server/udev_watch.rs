//! Devices that come and go: what udev tells of them, which of its events
//! matter, and what is done about those.

use vstd::prelude::*;

use crate::failure;
use crate::failure::Failure;
use crate::number;
use crate::server::rules;
use crate::server::rules::{DeviceFingerprint, RuleAction, RulesFile};
use crate::server::usb;
use crate::server::web::UpdateEvent;
use crate::text;
use crate::text_set::TextSet;

verus! {

/// How long further events of a device are passed over, in nanoseconds.
pub const DEBOUNCE_NS: u64 = 600_000_000;

/// How long a device is left alone after an event, in milliseconds.
pub const SETTLE_MS: u64 = 200;

/// How often it is tried to apply the rules to a device.
pub const MAX_ATTEMPTS: u32 = 20;

/// How long is waited before the next attempt, in milliseconds.
pub const RETRY_DELAY_MS: u64 = 250;

// ---------------------------------------------------------------------------
// Devices
// ---------------------------------------------------------------------------
/// What udev tells of a device, as far as it is text.
#[derive(Debug)]
pub struct RawDevice {
    pub sysname: String,
    pub id_vendor: Option<String>,
    pub id_product: Option<String>,
    pub serial: Option<String>,
    pub product: Option<String>,
    pub manufacturer: Option<String>,
    pub device_class: Option<String>,
    pub devpath: Option<String>,
}

/// The number of at most 16 bits that is written in base 16.
pub open spec fn hex16(o: Option<String>) -> Option<u16> {
    match o {
        Some(s) => match number::number_of(s@, 16, 0xffff) {
            Some(n) => Some(n as u16),
            None => None,
        },
        None => None,
    }
}

/// The number of at most 8 bits that is written in base 16.
pub open spec fn hex8(o: Option<String>) -> Option<u8> {
    match o {
        Some(s) => match number::number_of(s@, 16, 0xff) {
            Some(n) => Some(n as u8),
            None => None,
        },
        None => None,
    }
}

/// What is known of a device, from what udev tells of it.
pub open spec fn fingerprint_of(d: RawDevice) -> rules::FingerprintView {
    rules::FingerprintView {
        busid: d.sysname@,
        serial: text::opt_text(d.serial),
        devpath: text::opt_text(d.devpath),
        vid: hex16(d.id_vendor),
        pid: hex16(d.id_product),
        manufacturer: text::opt_text(d.manufacturer),
        product: text::opt_text(d.product),
        device_class: hex8(d.device_class),
    }
}

fn parse_hex16(o: &Option<String>) -> (r: Option<u16>)
    ensures
        r == hex16(*o),
{
    match o {
        Some(s) => {
            let cs = text::chars_of(s.as_str());
            match number::parse_number(&cs, 16, 0xffff) {
                Some(n) => Some(n as u16),
                None => None,
            }
        },
        None => None,
    }
}

fn parse_hex8(o: &Option<String>) -> (r: Option<u8>)
    ensures
        r == hex8(*o),
{
    match o {
        Some(s) => {
            let cs = text::chars_of(s.as_str());
            match number::parse_number(&cs, 16, 0xff) {
                Some(n) => Some(n as u8),
                None => None,
            }
        },
        None => None,
    }
}

/// What is known of the devices, in their order.
pub fn enumerate_usb_devices(raw: &Vec<RawDevice>) -> (r: Vec<DeviceFingerprint>)
    ensures
        rules::fingerprint_views(r@) == Seq::new(raw@.len(), |i: int| fingerprint_of(raw@[i])),
{
    let mut out: Vec<DeviceFingerprint> = Vec::new();
    let mut i: usize = 0;
    while i < raw.len()
        invariant
            i <= raw@.len(),
            out@.len() == i,
            forall|j: int| 0 <= j < i ==> (#[trigger] out@[j])@ == fingerprint_of(raw@[j]),
        decreases raw.len() - i,
    {
        let d = &raw[i];
        let f = DeviceFingerprint {
            busid: d.sysname.clone(),
            serial: text::clone_opt(&d.serial),
            devpath: text::clone_opt(&d.devpath),
            vid: parse_hex16(&d.id_vendor),
            pid: parse_hex16(&d.id_product),
            manufacturer: text::clone_opt(&d.manufacturer),
            product: text::clone_opt(&d.product),
            device_class: parse_hex8(&d.device_class),
        };
        assert(f@ =~= fingerprint_of(raw@[i as int]));
        out.push(f);
        i = i + 1;
    }
    assert(rules::fingerprint_views(out@) =~= Seq::new(
        raw@.len(),
        |i: int| fingerprint_of(raw@[i]),
    ));
    out
}

// ---------------------------------------------------------------------------
// Events
// ---------------------------------------------------------------------------
/// Whether an event is looked at: its device is named like a bus identifier.
pub fn is_forwarded(sysname: &str) -> (r: bool)
    ensures
        r == sysname@.contains('-'),
{
    let cs = text::chars_of(sysname);
    text::contains_char(&cs, '-')
}

/// The event can make a rule apply: it is one of a device, not of one of its
/// interfaces, and says that the device appeared or changed.
pub open spec fn is_relevant(busid: Seq<char>, action: Seq<char>) -> bool {
    !busid.contains(':') && (action == "add"@ || action == "change"@)
}

/// When each device last had an event that was acted on.
#[derive(Debug)]
pub struct HotplugWatch {
    last: Vec<(String, u64)>,
}

/// The time of the first entry for `busid`.
pub open spec fn time_of(v: Seq<(String, u64)>, busid: Seq<char>) -> Option<u64>
    decreases v.len(),
{
    if v.len() == 0 {
        None
    } else if v[0].0@ == busid {
        Some(v[0].1)
    } else {
        time_of(v.drop_first(), busid)
    }
}

/// An event of udev: the device, what happened to it, and when it was handled.
#[verifier::ext_equal]
pub struct HotplugEvent {
    pub busid: Seq<char>,
    pub action: Seq<char>,
    pub now: u64,
}

/// An event at `now` follows one at `last` too closely.
pub open spec fn too_soon(last: u64, now: u64) -> bool {
    now - last < DEBOUNCE_NS
}

/// An event is acted on, given when each device last had one that was: it can
/// make a rule apply and does not follow that one too closely.
pub open spec fn is_acted_on(last: Map<Seq<char>, u64>, e: HotplugEvent) -> bool {
    &&& is_relevant(e.busid, e.action)
    &&& last.contains_key(e.busid) ==> !too_soon(last[e.busid], e.now)
}

/// When each device last had an event that was acted on, after one more event:
/// an event that is passed over changes nothing.
pub open spec fn times_after(last: Map<Seq<char>, u64>, e: HotplugEvent) -> Map<Seq<char>, u64> {
    if is_acted_on(last, e) {
        last.insert(e.busid, e.now)
    } else {
        last
    }
}

proof fn lemma_replaced(v: Seq<(String, u64)>, k: int, e: (String, u64), busid: Seq<char>)
    requires
        0 <= k < v.len(),
        v[k].0@ == e.0@,
        forall|j: int| 0 <= j < k ==> (#[trigger] v[j]).0@ != e.0@,
    ensures
        time_of(v.update(k, e), busid) == if busid == e.0@ {
            Some(e.1)
        } else {
            time_of(v, busid)
        },
    decreases v.len(),
{
    let w = v.update(k, e);
    if k == 0 {
        assert(w.drop_first() =~= v.drop_first());
    } else {
        assert(w[0] == v[0]);
        let t = v.drop_first();
        assert(w.drop_first() =~= t.update(k - 1, e));
        assert forall|j: int| 0 <= j < k - 1 implies (#[trigger] t[j]).0@ != e.0@ by {
            assert(t[j] == v[j + 1]);
        }
        lemma_replaced(t, k - 1, e, busid);
    }
}

proof fn lemma_appended(v: Seq<(String, u64)>, e: (String, u64), busid: Seq<char>)
    requires
        forall|j: int| 0 <= j < v.len() ==> (#[trigger] v[j]).0@ != e.0@,
    ensures
        time_of(v.push(e), busid) == if busid == e.0@ {
            Some(e.1)
        } else {
            time_of(v, busid)
        },
    decreases v.len(),
{
    let w = v.push(e);
    if v.len() == 0 {
        assert(w.drop_first() =~= v);
    } else {
        assert(w[0] == v[0]);
        let t = v.drop_first();
        assert(w.drop_first() =~= t.push(e));
        assert forall|j: int| 0 <= j < t.len() implies (#[trigger] t[j]).0@ != e.0@ by {
            assert(t[j] == v[j + 1]);
        }
        lemma_appended(t, e, busid);
    }
}

impl View for HotplugWatch {
    type V = Map<Seq<char>, u64>;

    closed spec fn view(&self) -> Map<Seq<char>, u64> {
        Map::new(
            |b: Seq<char>| time_of(self.last@, b) is Some,
            |b: Seq<char>| time_of(self.last@, b)->0,
        )
    }
}

impl HotplugWatch {
    /// No device had an event yet.
    pub fn new() -> (r: HotplugWatch)
        ensures
            r@ == Map::<Seq<char>, u64>::empty(),
    {
        let r = HotplugWatch { last: Vec::new() };
        assert(r@ =~= Map::<Seq<char>, u64>::empty());
        r
    }

    /// Looks up an entry; its index, or the number of entries.
    fn index_of(&self, busid: &str) -> (r: usize)
        ensures
            r <= self.last@.len(),
            forall|j: int| 0 <= j < r ==> (#[trigger] self.last@[j]).0@ != busid@,
            r < self.last@.len() ==> self.last@[r as int].0@ == busid@,
            time_of(self.last@, busid@) == if r < self.last@.len() {
                Some(self.last@[r as int].1)
            } else {
                None::<u64>
            },
    {
        let ghost all = self.last@;
        let mut i: usize = 0;
        assert(all.skip(0) =~= all);
        while i < self.last.len()
            invariant
                i <= self.last@.len(),
                all == self.last@,
                forall|j: int| 0 <= j < i ==> (#[trigger] self.last@[j]).0@ != busid@,
                time_of(all, busid@) == time_of(all.skip(i as int), busid@),
            decreases self.last.len() - i,
        {
            assert(all.skip(i as int)[0] == all[i as int]);
            assert(all.skip(i as int).drop_first() =~= all.skip(i + 1));
            if text::same_text(self.last[i].0.as_str(), busid) {
                return i;
            }
            i = i + 1;
        }
        i
    }

    /// Takes note of an event at the time `now`, in nanoseconds since some fixed
    /// moment; says whether to act on it. An event that cannot make a rule apply
    /// is passed over, and so is one that follows the last one of its device
    /// that was acted on too closely.
    pub fn on_event(&mut self, busid: &str, action: &str, now: u64) -> (r: bool)
        ensures
            r == is_acted_on(
                old(self)@,
                (HotplugEvent { busid: busid@, action: action@, now }),
            ),
            r <==> {
                &&& !busid@.contains(':')
                &&& action@ == "add"@ || action@ == "change"@
                &&& old(self)@.contains_key(busid@) ==> now - old(self)@[busid@] >= 600_000_000
            },
            final(self)@ == times_after(
                old(self)@,
                (HotplugEvent { busid: busid@, action: action@, now }),
            ),
    {
        let cs = text::chars_of(busid);
        if text::contains_char(&cs, ':') {
            return false;
        }
        if !text::same_text(action, "add") && !text::same_text(action, "change") {
            return false;
        }
        let k = self.index_of(busid);
        let ghost before = self.last@;
        if k < self.last.len() {
            let t = self.last[k].1;
            if now < t || now - t < DEBOUNCE_NS {
                return false;
            }
            let e = (busid.to_string(), now);
            self.last.set(k, e);
            proof {
                assert forall|b: Seq<char>| #[trigger] time_of(self.last@, b) == if b == busid@ {
                    Some(now)
                } else {
                    time_of(before, b)
                } by {
                    lemma_replaced(before, k as int, e, b);
                }
                assert(self@ =~= old(self)@.insert(busid@, now));
            }
        } else {
            let e = (busid.to_string(), now);
            self.last.push(e);
            proof {
                assert forall|b: Seq<char>| #[trigger] time_of(self.last@, b) == if b == busid@ {
                    Some(now)
                } else {
                    time_of(before, b)
                } by {
                    lemma_appended(before, e, b);
                }
                assert(self@ =~= old(self)@.insert(busid@, now));
            }
        }
        true
    }
}

/// When each device last had an event that was acted on, after all the events;
/// those of a device that is not named like a bus identifier are not looked at.
pub open spec fn times_of(events: Seq<HotplugEvent>) -> Map<Seq<char>, u64>
    decreases events.len(),
{
    if events.len() == 0 {
        Map::empty()
    } else {
        let before = times_of(events.drop_last());
        if events.last().busid.contains('-') {
            times_after(before, events.last())
        } else {
            before
        }
    }
}

/// The rules are applied for the event at index `k`.
pub open spec fn is_applied(events: Seq<HotplugEvent>, k: int) -> bool {
    events[k].busid.contains('-') && is_acted_on(times_of(events.take(k)), events[k])
}

/// The event at index `j` is the last one of the device before index `k` for
/// which the rules are applied.
pub open spec fn is_last_applied(
    events: Seq<HotplugEvent>,
    busid: Seq<char>,
    j: int,
    k: int,
) -> bool {
    &&& 0 <= j < k
    &&& events[j].busid == busid
    &&& is_applied(events, j)
    &&& forall|i: int|
        j < i < k && (#[trigger] events[i]).busid == busid ==> !is_applied(events, i)
}

proof fn lemma_times(events: Seq<HotplugEvent>, busid: Seq<char>, k: int)
    requires
        0 <= k <= events.len(),
    ensures
        times_of(events.take(k)).contains_key(busid) ==> exists|j: int| #[trigger]
            is_last_applied(events, busid, j, k) && times_of(events.take(k))[busid]
                == events[j].now,
        !times_of(events.take(k)).contains_key(busid) ==> forall|i: int|
            0 <= i < k && (#[trigger] events[i]).busid == busid ==> !is_applied(events, i),
    decreases k,
{
    if k > 0 {
        let t = events.take(k);
        lemma_times(events, busid, k - 1);
        assert(t.drop_last() =~= events.take(k - 1));
        assert(t.last() == events[k - 1]);
        let before = times_of(events.take(k - 1));
        if is_applied(events, k - 1) && events[k - 1].busid == busid {
            assert(is_last_applied(events, busid, k - 1, k));
        } else if before.contains_key(busid) {
            let j = choose|j: int| #[trigger]
                is_last_applied(events, busid, j, k - 1) && before[busid] == events[j].now;
            assert(is_last_applied(events, busid, j, k));
        }
    }
}

proof fn lemma_last_is_unique(
    events: Seq<HotplugEvent>,
    busid: Seq<char>,
    i: int,
    j: int,
    k: int,
)
    requires
        is_last_applied(events, busid, i, k),
        is_last_applied(events, busid, j, k),
    ensures
        i == j,
{
    if i < j {
        assert(events[j].busid == busid);
    } else if j < i {
        assert(events[i].busid == busid);
    }
}

/// Of any sequence of events, the rules are applied for exactly those whose
/// device is named like a bus identifier and not like an interface, that say
/// that the device appeared or changed, and that do not follow the last event of
/// the device for which the rules were applied too closely. Events that are
/// passed over do not put off later ones.
pub proof fn rules_are_applied_outside_the_window(events: Seq<HotplugEvent>, k: int)
    requires
        0 <= k < events.len(),
    ensures
        is_applied(events, k) <==> {
            &&& events[k].busid.contains('-')
            &&& !events[k].busid.contains(':')
            &&& events[k].action == "add"@ || events[k].action == "change"@
            &&& forall|j: int| #[trigger]
                is_last_applied(events, events[k].busid, j, k) ==> events[k].now - events[j].now
                    >= 600_000_000
        },
{
    let b = events[k].busid;
    let last = times_of(events.take(k));
    lemma_times(events, b, k);
    if last.contains_key(b) {
        let h = choose|h: int| #[trigger]
            is_last_applied(events, b, h, k) && last[b] == events[h].now;
        assert forall|j: int| #[trigger] is_last_applied(events, b, j, k) implies j == h by {
            lemma_last_is_unique(events, b, j, h, k);
        }
    } else {
        assert forall|j: int| !#[trigger] is_last_applied(events, b, j, k) by {
            if is_last_applied(events, b, j, k) {
                assert(events[j].busid == b);
            }
        }
    }
}

// ---------------------------------------------------------------------------
// Acting on an event
// ---------------------------------------------------------------------------
/// The first device with the bus identifier.
pub open spec fn device_of(devices: Seq<rules::FingerprintView>, busid: Seq<char>) -> Option<
    rules::FingerprintView,
>
    decreases devices.len(),
{
    if devices.len() == 0 {
        None
    } else if devices[0].busid == busid {
        Some(devices[0])
    } else {
        device_of(devices.drop_first(), busid)
    }
}

/// The first device with the bus identifier.
pub fn find_device(devices: &Vec<DeviceFingerprint>, busid: &str) -> (r: Option<DeviceFingerprint>)
    ensures
        match r {
            Some(d) => device_of(rules::fingerprint_views(devices@), busid@) == Some(d@),
            None => device_of(rules::fingerprint_views(devices@), busid@) is None,
        },
{
    let ghost all = rules::fingerprint_views(devices@);
    let mut i: usize = 0;
    assert(all.skip(0) =~= all);
    while i < devices.len()
        invariant
            i <= devices@.len(),
            all == rules::fingerprint_views(devices@),
            device_of(all, busid@) == device_of(all.skip(i as int), busid@),
        decreases devices.len() - i,
    {
        assert(all.skip(i as int)[0] == devices@[i as int]@);
        assert(all.skip(i as int).drop_first() =~= all.skip(i + 1));
        if text::same_text(devices[i].busid.as_str(), busid) {
            return Some(devices[i].clone());
        }
        i = i + 1;
    }
    None
}

/// The device that an event was about; an error while udev does not show it.
pub fn hotplugged_device(devices: &Vec<DeviceFingerprint>, busid: &str) -> (r: Result<
    DeviceFingerprint,
    Failure,
>)
    ensures
        match r {
            Ok(d) => device_of(rules::fingerprint_views(devices@), busid@) == Some(d@),
            Err(e) => device_of(rules::fingerprint_views(devices@), busid@) is None && e@
                == failure::plain_of("device not yet enumerated"@),
        },
{
    match find_device(devices, busid) {
        Some(d) => Ok(d),
        None => Err(Failure::plain("device not yet enumerated")),
    }
}

/// What is to be done about a device.
#[derive(Debug, Clone, Copy, PartialEq, Eq, Structural)]
pub enum HotplugDecision {
    /// Nothing; the flag says that the device needs no further attempt.
    Settled(bool),
    /// Bind it.
    Bind,
}

/// What is to be done about a device: nothing more if it is exported already,
/// else bind it if an enabled rule fits it.
pub open spec fn decision_of(
    all: Seq<rules::RuleView>,
    dev: rules::FingerprintView,
    exported: Seq<Seq<char>>,
) -> HotplugDecision {
    if exported.contains(dev.busid) {
        HotplugDecision::Settled(true)
    } else if usb::first_fit(all, dev) is Some {
        HotplugDecision::Bind
    } else {
        HotplugDecision::Settled(false)
    }
}

/// What is to be done about a device.
pub fn try_apply_for_one(
    all: &RulesFile,
    dev: &DeviceFingerprint,
    exported: &TextSet,
) -> (r: HotplugDecision)
    ensures
        r == decision_of(all@, dev@, exported.order()),
{
    if exported.contains(dev.busid.as_str()) {
        return HotplugDecision::Settled(true);
    }
    if let Some(rule) = usb::first_match(all, dev) {
        match rule.action {
            RuleAction::Bind => {
                return HotplugDecision::Bind;
            },
        }
    }
    HotplugDecision::Settled(false)
}

/// What comes of an attempt that bound the device, or failed to: a device that
/// is bound needs no further attempt.
pub fn after_bind(bound: Result<(), Failure>) -> (r: Result<bool, Failure>)
    ensures
        match (r, bound) {
            (Ok(done), Ok(_)) => done,
            (Err(e), Err(f)) => e == f,
            _ => false,
        },
{
    match bound {
        Ok(_) => Ok(true),
        Err(f) => Err(f),
    }
}

/// What follows an attempt.
#[derive(Debug)]
pub enum RetryStep {
    /// Wait, then make the attempt with this number.
    Wait(u32),
    /// This is what came of it.
    Done(Result<(), Failure>),
}

/// A `RetryStep` as mathematical values.
pub enum RetryStepView {
    Wait(int),
    Done(Result<(), failure::FailureView>),
}

impl View for RetryStep {
    type V = RetryStepView;

    open spec fn view(&self) -> RetryStepView {
        match *self {
            RetryStep::Wait(n) => RetryStepView::Wait(n as int),
            RetryStep::Done(r) => RetryStepView::Done(
                match r {
                    Ok(_) => Ok(()),
                    Err(e) => Err(e@),
                },
            ),
        }
    }
}

/// What follows the attempt with the given number, counted from zero: a settled
/// device ends the attempts; otherwise the last attempt ends them, with its
/// failure if it failed, and any other is followed by the next.
pub open spec fn retry_of(attempt: int, outcome: Result<bool, failure::FailureView>) -> RetryStepView {
    if outcome == Ok::<bool, failure::FailureView>(true) {
        RetryStepView::Done(Ok(()))
    } else if attempt == MAX_ATTEMPTS - 1 {
        match outcome {
            Ok(_) => RetryStepView::Done(Ok(())),
            Err(e) => RetryStepView::Done(Err(e)),
        }
    } else {
        RetryStepView::Wait(attempt + 1)
    }
}

/// What follows the attempt with the given number, counted from zero.
pub fn apply_for_one_with_retry(attempt: u32, outcome: Result<bool, Failure>) -> (r: RetryStep)
    requires
        attempt < MAX_ATTEMPTS,
    ensures
        r@ == retry_of(
            attempt as int,
            match outcome {
                Ok(b) => Ok(b),
                Err(e) => Err(e@),
            },
        ),
{
    match outcome {
        Ok(true) => RetryStep::Done(Ok(())),
        Ok(false) => {
            if attempt == MAX_ATTEMPTS - 1 {
                RetryStep::Done(Ok(()))
            } else {
                RetryStep::Wait(attempt + 1)
            }
        },
        Err(e) => {
            if attempt == MAX_ATTEMPTS - 1 {
                RetryStep::Done(Err(e))
            } else {
                RetryStep::Wait(attempt + 1)
            }
        },
    }
}

/// What comes of the attempts from number `attempt` on, if each has the given
/// outcome.
pub open spec fn result_of(
    outcomes: Seq<Result<bool, failure::FailureView>>,
    attempt: int,
) -> Option<Result<(), failure::FailureView>>
    decreases outcomes.len() - attempt,
{
    if attempt < 0 || attempt >= outcomes.len() {
        None
    } else {
        match retry_of(attempt, outcomes[attempt]) {
            RetryStepView::Done(r) => Some(r),
            RetryStepView::Wait(next) => if next > attempt {
                result_of(outcomes, next)
            } else {
                None
            },
        }
    }
}

proof fn lemma_result(outcomes: Seq<Result<bool, failure::FailureView>>, attempt: int)
    requires
        outcomes.len() == MAX_ATTEMPTS,
        0 <= attempt < MAX_ATTEMPTS,
    ensures
        result_of(outcomes, attempt) == Some(
            if exists|i: int|
                attempt <= i < outcomes.len() && #[trigger] outcomes[i] == Ok::<
                    bool,
                    failure::FailureView,
                >(true) {
                Ok(())
            } else {
                match outcomes.last() {
                    Ok(_) => Ok(()),
                    Err(e) => Err(e),
                }
            },
        ),
    decreases outcomes.len() - attempt,
{
    if outcomes[attempt] != Ok::<bool, failure::FailureView>(true) && attempt < MAX_ATTEMPTS - 1 {
        lemma_result(outcomes, attempt + 1);
    }
}

/// The attempts end, after the twentieth at the latest: with success if one of
/// them settled the device, else with what the last one gave.
pub proof fn attempts_end(outcomes: Seq<Result<bool, failure::FailureView>>)
    requires
        outcomes.len() == MAX_ATTEMPTS,
    ensures
        result_of(outcomes, 0) == Some(
            if exists|i: int|
                0 <= i < outcomes.len() && #[trigger] outcomes[i] == Ok::<
                    bool,
                    failure::FailureView,
                >(true) {
                Ok(())
            } else {
                match outcomes.last() {
                    Ok(_) => Ok(()),
                    Err(e) => Err(e),
                }
            },
        ),
{
    lemma_result(outcomes, 0);
}

/// What the pages are told when the attempts ended: that a device came or
/// changed, if they ended well.
pub open spec fn told_of(result: Result<(), failure::FailureView>) -> Option<UpdateEvent> {
    if result is Ok {
        Some(UpdateEvent::Udev)
    } else {
        None
    }
}

/// What the pages are told when the attempts ended.
pub fn after_hotplug(result: &Result<(), Failure>) -> (r: Option<UpdateEvent>)
    ensures
        r == told_of(
            match *result {
                Ok(_) => Ok(()),
                Err(f) => Err(f@),
            },
        ),
{
    match result {
        Ok(_) => Some(UpdateEvent::Udev),
        Err(_) => None,
    }
}

/// The pages are told of a device exactly if one of the attempts settled it or
/// the last one did not fail.
pub proof fn the_pages_are_told_of_a_success(outcomes: Seq<Result<bool, failure::FailureView>>)
    requires
        outcomes.len() == MAX_ATTEMPTS,
    ensures
        result_of(outcomes, 0) is Some,
        told_of(result_of(outcomes, 0)->0) == Some(UpdateEvent::Udev) <==> (outcomes.last() is Ok
            || exists|i: int|
            0 <= i < outcomes.len() && #[trigger] outcomes[i] == Ok::<bool, failure::FailureView>(
                true,
            )),
{
    attempts_end(outcomes);
}

} // verus!
