use std::path::PathBuf;

use usbip_tools::failure::Failure;
use usbip_tools::server::rules;
use usbip_tools::server::rules::{
    DeviceFingerprint, MatchSpec, Rule, RuleAction, RuleStore, RulesFile, StoreProgress, StoreStep, StoredRules,
};
use usbip_tools::server::udev_watch;
use usbip_tools::server::udev_watch::{HotplugDecision, HotplugWatch, RawDevice, RetryStep};
use usbip_tools::server::usb;
use usbip_tools::server::web::UpdateEvent;
use usbip_tools::text_set::TextSet;

fn opt(s: Option<&str>) -> Option<String> {
    s.map(|x| x.to_string())
}

fn device(busid: &str, serial: Option<&str>, devpath: Option<&str>, vid: Option<u16>, pid: Option<u16>) -> DeviceFingerprint {
    DeviceFingerprint {
        busid: busid.to_string(),
        serial: opt(serial),
        devpath: opt(devpath),
        vid,
        pid,
        manufacturer: None,
        product: None,
        device_class: None,
    }
}

fn spec(serial: Option<&str>, devpath: Option<&str>, vid: Option<u16>, pid: Option<u16>) -> MatchSpec {
    MatchSpec { serial: opt(serial), devpath: opt(devpath), vid, pid }
}

fn rule(id: u128, m: MatchSpec, enabled: bool) -> Rule {
    Rule { id, enabled, note: None, match_spec: m, action: RuleAction::Bind }
}

fn set(v: &[&str]) -> TextSet {
    let mut s = TextSet::new();
    for x in v {
        s.insert(x.to_string());
    }
    s
}

fn raw(sysname: &str, vendor: Option<&str>, class: Option<&str>) -> RawDevice {
    RawDevice {
        sysname: sysname.to_string(),
        id_vendor: opt(vendor),
        id_product: opt(Some("fa70")),
        serial: opt(Some("S1")),
        product: opt(Some("Mouse")),
        manufacturer: None,
        device_class: opt(class),
        devpath: opt(Some("/devices/x")),
    }
}

#[test]
fn every_present_field_has_to_be_equal() {
    let d = device("1-1", Some("S"), Some("/p"), Some(1), Some(2));
    assert!(spec(Some("S"), Some("/p"), Some(1), Some(2)).matches(&d));
    assert!(spec(None, None, None, None).matches(&d));
    assert!(spec(None, None, None, Some(2)).matches(&d));
    assert!(!spec(Some("T"), None, None, None).matches(&d));
    assert!(!spec(None, Some("/q"), None, None).matches(&d));
    assert!(!spec(None, None, Some(3), None).matches(&d));
    assert!(!spec(None, None, None, Some(3)).matches(&d));
    assert!(!spec(Some("S"), None, None, None).matches(&device("1-1", None, None, None, None)));
    assert!(spec(None, None, None, None).is_empty());
    assert!(MatchSpec::default().is_empty());
    assert!(!spec(None, None, Some(0), None).is_empty());
    assert!(spec(Some("S"), None, Some(1), None) == spec(Some("S"), None, Some(1), None));
    assert!(spec(Some("S"), None, Some(1), None) != spec(Some("S"), None, Some(1), Some(1)));
}

#[test]
fn a_device_is_remembered_by_what_is_stable() {
    let best = |d: &DeviceFingerprint| rules::best_effort_rule_for_device(d);
    let d = device("1-1", Some("S"), Some("/p"), Some(1), Some(2));
    assert!(best(&d).unwrap() == spec(Some("S"), None, Some(1), Some(2)));
    let d = device("1-1", None, Some("/p"), None, Some(2));
    assert!(best(&d).unwrap() == spec(None, Some("/p"), None, Some(2)));
    let d = device("1-1", None, None, Some(1), Some(2));
    assert!(best(&d).unwrap() == spec(None, None, Some(1), Some(2)));
    assert!(best(&device("1-1", None, None, Some(1), None)).is_none());
    assert!(best(&device("1-1", None, None, None, None)).is_none());
    for d in [device("1-1", Some("S"), None, None, None), device("1-1", None, Some("/p"), Some(1), None)] {
        let m = best(&d).unwrap();
        assert!(m.matches(&d) && !m.is_empty());
    }
}

#[test]
fn new_rules_bear_a_random_identifier() {
    let r = Rule::new(spec(Some("S"), None, None, None), opt(Some("n"))).unwrap();
    let u = uuid::Uuid::from_u128(r.id);
    assert_eq!(u.get_version_num(), 4);
    assert_eq!(u.get_variant(), uuid::Variant::RFC4122);
    assert!(r.enabled);
    assert_eq!(r.note.as_deref(), Some("n"));
    assert_eq!(r.action, RuleAction::Bind);
    let s = Rule::new(spec(Some("S"), None, None, None), None).unwrap();
    assert_ne!(r.id, s.id);
    assert_eq!(Rule::new(MatchSpec::default(), None).unwrap_err(), "match spec must not be empty");
    assert_eq!(Rule::with_id(7, spec(None, None, None, Some(1)), None).unwrap().id, 7);
}

#[test]
fn rules_are_entered_once() {
    let mut f = RulesFile::default();
    let m = spec(Some("S"), None, None, None);
    f.upsert_with_id(7, m.clone(), true, opt(Some("a"))).unwrap();
    f.upsert_with_id(8, m.clone(), false, None).unwrap();
    assert_eq!(f.rules.len(), 1);
    assert_eq!((f.rules[0].id, f.rules[0].enabled, f.rules[0].note.as_deref()), (7, false, Some("a")));
    f.upsert_bind_rule(m.clone(), true, opt(Some("b"))).unwrap();
    assert_eq!((f.rules[0].id, f.rules[0].enabled, f.rules[0].note.as_deref()), (7, true, Some("b")));
    f.upsert_bind_rule(spec(None, None, Some(1), None), false, None).unwrap();
    assert_eq!(f.rules.len(), 2);
    assert!(!f.rules[1].enabled);
    assert_eq!(uuid::Uuid::from_u128(f.rules[1].id).get_version_num(), 4);
    assert_eq!(
        f.upsert_bind_rule(MatchSpec::default(), true, None).unwrap_err(),
        "match spec must not be empty"
    );
    assert_eq!(f.rules.len(), 2);
    f.find_rule_mut(&m).unwrap().note = None;
    assert_eq!(f.rules[0].note, None);
    assert!(f.find_rule_mut(&spec(Some("T"), None, None, None)).is_none());
    assert_eq!(f.clone().rules.len(), 2);
}

#[test]
fn disabling_reaches_every_rule_for_a_description() {
    let m = spec(Some("S"), None, None, None);
    let other = spec(Some("T"), None, None, None);
    let mut f = RulesFile {
        rules: vec![rule(1, m.clone(), false), rule(2, other, true), rule(3, m.clone(), true)],
    };
    assert!(f.disable_rule(&m));
    let got: Vec<_> = f.rules.iter().map(|r| (r.id, r.enabled)).collect();
    assert_eq!(got, vec![(1, false), (2, true), (3, false)]);
    assert!(!f.disable_rule(&m));
    assert!(!f.disable_rule(&spec(Some("U"), None, None, None)));
}

#[test]
fn the_rules_file_is_read() {
    let store = RuleStore::new(PathBuf::from("/var/lib/x/rules.json"));
    assert_eq!(store.path(), &PathBuf::from("/var/lib/x/rules.json"));
    assert!(store.load_or_default(StoredRules::Missing).unwrap().rules.is_empty());
    let kept = RulesFile { rules: vec![rule(1, spec(None, None, Some(1), None), true)] };
    assert_eq!(store.load_or_default(StoredRules::Parsed(kept)).unwrap().rules[0].id, 1);
    let e = store.load_or_default(StoredRules::Unreadable("denied".to_string())).unwrap_err();
    assert_eq!((e.message.as_str(), e.causes), ("read rules file", vec!["denied".to_string()]));
    let e = store.load_or_default(StoredRules::Unparsable("eof".to_string())).unwrap_err();
    assert_eq!((e.message.as_str(), e.causes), ("parse rules json", vec!["eof".to_string()]));
}

#[test]
fn the_rules_file_is_replaced_as_a_whole() {
    let store = RuleStore::new(PathBuf::from("rules.json"));
    assert_eq!(store.store(true), StoreStep::CreateParent);
    assert_eq!(store.store(false), StoreStep::Serialize);
    assert_eq!(rules::TEMP_EXTENSION, "json.tmp");
    let mut step = store.store(true);
    let mut seen = vec![step];
    loop {
        match store.store_next(step, Ok(())) {
            StoreProgress::Next(s) => {
                step = s;
                seen.push(s);
            }
            StoreProgress::Done(r) => {
                assert!(r.is_ok());
                break;
            }
        }
    }
    assert_eq!(
        seen,
        vec![StoreStep::CreateParent, StoreStep::Serialize, StoreStep::WriteTemp, StoreStep::RenameTemp]
    );
    let fails = |s| match store.store_next(s, Err("why".to_string())) {
        StoreProgress::Done(Err(e)) => (e.message, e.causes),
        other => panic!("{other:?}"),
    };
    assert_eq!(fails(StoreStep::CreateParent), ("why".to_string(), vec![]));
    assert_eq!(fails(StoreStep::Serialize), ("serialize rules json".to_string(), vec!["why".to_string()]));
    assert_eq!(fails(StoreStep::WriteTemp), ("write tmp rules".to_string(), vec!["why".to_string()]));
    assert_eq!(fails(StoreStep::RenameTemp), ("rename tmp rules".to_string(), vec!["why".to_string()]));
}

#[test]
fn devices_are_read_from_udev() {
    let v = udev_watch::enumerate_usb_devices(&vec![raw("1-1", Some("25a7"), Some("09")), raw("2-1", Some("12345"), None)]);
    assert_eq!(v.len(), 2);
    assert_eq!((v[0].busid.as_str(), v[0].vid, v[0].pid, v[0].device_class), ("1-1", Some(0x25a7), Some(0xfa70), Some(9)));
    assert_eq!((v[0].serial.as_deref(), v[0].product.as_deref(), v[0].manufacturer.as_deref()), (Some("S1"), Some("Mouse"), None));
    assert_eq!(v[0].devpath.as_deref(), Some("/devices/x"));
    assert_eq!((v[1].vid, v[1].device_class), (None, None));
}

#[test]
fn events_are_filtered_and_debounced() {
    assert!(udev_watch::is_forwarded("1-1"));
    assert!(udev_watch::is_forwarded("1-1:1.0"));
    assert!(!udev_watch::is_forwarded("usb1"));
    let mut w = HotplugWatch::new();
    let ms = 1_000_000u64;
    assert!(!w.on_event("1-1:1.0", "add", 0));
    assert!(!w.on_event("1-1", "remove", 0));
    assert!(!w.on_event("1-1", "bind", 0));
    assert!(w.on_event("1-1", "add", 1000 * ms));
    assert!(!w.on_event("1-1", "change", 1599 * ms));
    assert!(w.on_event("2-1", "change", 1599 * ms));
    assert!(w.on_event("1-1", "change", 1600 * ms));
    assert!(!w.on_event("1-1", "change", 2199 * ms));
    assert!(!w.on_event("1-1", "change", 10 * ms));
    assert!(w.on_event("1-1", "add", 2200 * ms));
}

#[test]
fn a_plugged_in_device_is_bound_by_a_rule() {
    let d = device("1-1", Some("S"), None, Some(1), Some(2));
    let devices = vec![device("2-1", None, None, None, None), d.clone()];
    assert_eq!(udev_watch::hotplugged_device(&devices, "1-1").unwrap().serial.as_deref(), Some("S"));
    let e = udev_watch::hotplugged_device(&devices, "3-1").unwrap_err();
    assert_eq!(e.message, "device not yet enumerated");
    assert!(udev_watch::find_device(&devices, "3-1").is_none());
    let f = RulesFile { rules: vec![rule(1, spec(Some("S"), None, None, None), true)] };
    assert_eq!(udev_watch::try_apply_for_one(&f, &d, &set(&[])), HotplugDecision::Bind);
    assert_eq!(udev_watch::try_apply_for_one(&f, &d, &set(&["1-1"])), HotplugDecision::Settled(true));
    let off = RulesFile { rules: vec![rule(1, spec(Some("S"), None, None, None), false)] };
    assert_eq!(udev_watch::try_apply_for_one(&off, &d, &set(&[])), HotplugDecision::Settled(false));
}

#[test]
fn attempts_are_limited() {
    let fail = || Failure::plain("device not yet enumerated");
    let mut attempt = 0u32;
    let mut made = 1;
    let end = loop {
        match udev_watch::apply_for_one_with_retry(attempt, Err(fail())) {
            RetryStep::Wait(n) => {
                attempt = n;
                made += 1;
            }
            RetryStep::Done(r) => break r,
        }
    };
    assert_eq!(made, 20);
    assert_eq!(end.unwrap_err().message, "device not yet enumerated");
    assert!(matches!(udev_watch::apply_for_one_with_retry(3, Ok(true)), RetryStep::Done(Ok(()))));
    assert!(matches!(udev_watch::apply_for_one_with_retry(3, Ok(false)), RetryStep::Wait(4)));
    assert!(matches!(udev_watch::apply_for_one_with_retry(19, Ok(false)), RetryStep::Done(Ok(()))));
}

#[test]
fn a_bound_device_is_settled_and_the_pages_are_told() {
    assert!(udev_watch::after_bind(Ok(())).unwrap());
    let e = udev_watch::after_bind(Err(Failure::plain("busy"))).unwrap_err();
    assert_eq!(e.message, "busy");
    assert_eq!(udev_watch::after_hotplug(&Ok(())), Some(UpdateEvent::Udev));
    assert_eq!(udev_watch::after_hotplug(&Err(Failure::plain("x"))), None);
}

#[test]
fn the_first_enabled_rule_counts() {
    let d = device("1-1", Some("S"), None, Some(1), Some(2));
    let f = RulesFile {
        rules: vec![
            rule(1, spec(Some("S"), None, None, None), false),
            rule(2, spec(Some("T"), None, None, None), true),
            rule(3, spec(None, None, Some(1), None), true),
            rule(4, spec(Some("S"), None, None, None), true),
        ],
    };
    assert_eq!(usb::first_match(&f, &d).unwrap().id, 3);
    assert!(usb::first_match(&f, &device("2-1", None, None, None, None)).is_none());
    let u = usb::UsbIp::new("usbip".to_string(), "usbipd".to_string());
    let devices = vec![device("2-1", None, None, None, None), d, device("3-1", Some("T"), None, None, None)];
    assert_eq!(u.apply_rules(&f, &devices), vec!["1-1", "3-1"]);
    assert!(u.apply_rules(&RulesFile::default(), &devices).is_empty());
}
