//! Rules: which devices are exported on their own, described by what stays the
//! same when a device is plugged in again.

use std::path::PathBuf;
use std::sync::Arc;

use vstd::prelude::*;

use crate::failure;
use crate::failure::Failure;
use crate::text;

verus! {

// ---------------------------------------------------------------------------
// Data
// ---------------------------------------------------------------------------
/// What a rule does with a device.
#[derive(Debug, Clone, Copy, PartialEq, Eq, Structural)]
pub enum RuleAction {
    Bind,
}

/// A description of devices: every field that is present has to be equal.
///
/// A serial number is the most stable one, though not every device has one; a
/// device path stands for the port that a device is plugged into; vendor and
/// product stand for the model and can fit several devices.
#[derive(Debug)]
pub struct MatchSpec {
    pub serial: Option<String>,
    pub devpath: Option<String>,
    pub vid: Option<u16>,
    pub pid: Option<u16>,
}

/// A rule.
#[derive(Debug)]
pub struct Rule {
    /// The identifier, a UUID as a number.
    pub id: u128,
    pub enabled: bool,
    pub note: Option<String>,
    pub match_spec: MatchSpec,
    pub action: RuleAction,
}

/// The rules, of which the first that fits a device counts.
#[derive(Debug)]
pub struct RulesFile {
    pub rules: Vec<Rule>,
}

/// What is known of a device that is plugged in.
#[derive(Debug)]
pub struct DeviceFingerprint {
    pub busid: String,
    pub serial: Option<String>,
    pub devpath: Option<String>,
    pub vid: Option<u16>,
    pub pid: Option<u16>,
    pub manufacturer: Option<String>,
    pub product: Option<String>,
    /// The USB device class; 9 is a hub.
    pub device_class: Option<u8>,
}

/// A `MatchSpec` as mathematical values.
#[verifier::ext_equal]
pub struct MatchSpecView {
    pub serial: Option<Seq<char>>,
    pub devpath: Option<Seq<char>>,
    pub vid: Option<u16>,
    pub pid: Option<u16>,
}

/// A `Rule` as mathematical values.
#[verifier::ext_equal]
pub struct RuleView {
    pub id: u128,
    pub enabled: bool,
    pub note: Option<Seq<char>>,
    pub match_spec: MatchSpecView,
    pub action: RuleAction,
}

/// A `DeviceFingerprint` as mathematical values.
#[verifier::ext_equal]
pub struct FingerprintView {
    pub busid: Seq<char>,
    pub serial: Option<Seq<char>>,
    pub devpath: Option<Seq<char>>,
    pub vid: Option<u16>,
    pub pid: Option<u16>,
    pub manufacturer: Option<Seq<char>>,
    pub product: Option<Seq<char>>,
    pub device_class: Option<u8>,
}

impl View for MatchSpec {
    type V = MatchSpecView;

    open spec fn view(&self) -> MatchSpecView {
        MatchSpecView {
            serial: text::opt_text(self.serial),
            devpath: text::opt_text(self.devpath),
            vid: self.vid,
            pid: self.pid,
        }
    }
}

impl View for Rule {
    type V = RuleView;

    open spec fn view(&self) -> RuleView {
        RuleView {
            id: self.id,
            enabled: self.enabled,
            note: text::opt_text(self.note),
            match_spec: self.match_spec@,
            action: self.action,
        }
    }
}

impl View for RulesFile {
    type V = Seq<RuleView>;

    open spec fn view(&self) -> Seq<RuleView> {
        rule_views(self.rules@)
    }
}

impl View for DeviceFingerprint {
    type V = FingerprintView;

    open spec fn view(&self) -> FingerprintView {
        FingerprintView {
            busid: self.busid@,
            serial: text::opt_text(self.serial),
            devpath: text::opt_text(self.devpath),
            vid: self.vid,
            pid: self.pid,
            manufacturer: text::opt_text(self.manufacturer),
            product: text::opt_text(self.product),
            device_class: self.device_class,
        }
    }
}

/// The rules behind a list.
pub open spec fn rule_views(v: Seq<Rule>) -> Seq<RuleView> {
    Seq::new(v.len(), |i: int| v[i]@)
}

/// The devices behind a list.
pub open spec fn fingerprint_views(v: Seq<DeviceFingerprint>) -> Seq<FingerprintView> {
    Seq::new(v.len(), |i: int| v[i]@)
}

impl Clone for MatchSpec {
    fn clone(&self) -> (r: MatchSpec)
        ensures
            r@ == self@,
    {
        MatchSpec {
            serial: text::clone_opt(&self.serial),
            devpath: text::clone_opt(&self.devpath),
            vid: self.vid,
            pid: self.pid,
        }
    }
}

impl Clone for Rule {
    fn clone(&self) -> (r: Rule)
        ensures
            r@ == self@,
    {
        Rule {
            id: self.id,
            enabled: self.enabled,
            note: text::clone_opt(&self.note),
            match_spec: self.match_spec.clone(),
            action: self.action,
        }
    }
}

impl Clone for RulesFile {
    fn clone(&self) -> (r: RulesFile)
        ensures
            r@ == self@,
    {
        let mut out: Vec<Rule> = Vec::new();
        let mut i: usize = 0;
        while i < self.rules.len()
            invariant
                i <= self.rules@.len(),
                out@.len() == i,
                forall|j: int| 0 <= j < i ==> (#[trigger] out@[j])@ == self.rules@[j]@,
            decreases self.rules.len() - i,
        {
            out.push(self.rules[i].clone());
            i = i + 1;
        }
        let r = RulesFile { rules: out };
        assert(r@ =~= self@);
        r
    }
}

impl Clone for DeviceFingerprint {
    fn clone(&self) -> (r: DeviceFingerprint)
        ensures
            r@ == self@,
    {
        DeviceFingerprint {
            busid: self.busid.clone(),
            serial: text::clone_opt(&self.serial),
            devpath: text::clone_opt(&self.devpath),
            vid: self.vid,
            pid: self.pid,
            manufacturer: text::clone_opt(&self.manufacturer),
            product: text::clone_opt(&self.product),
            device_class: self.device_class,
        }
    }
}

impl Default for MatchSpec {
    fn default() -> (r: MatchSpec)
        ensures
            r@ == (MatchSpecView { serial: None, devpath: None, vid: None, pid: None }),
    {
        MatchSpec { serial: None, devpath: None, vid: None, pid: None }
    }
}

impl Default for RulesFile {
    fn default() -> (r: RulesFile)
        ensures
            r@ == Seq::<RuleView>::empty(),
    {
        let r = RulesFile { rules: Vec::new() };
        assert(r@ =~= Seq::<RuleView>::empty());
        r
    }
}

impl PartialEq for MatchSpec {
    fn eq(&self, other: &Self) -> (r: bool) {
        text::same_opt_text(&self.serial, &other.serial) && text::same_opt_text(
            &self.devpath,
            &other.devpath,
        ) && self.vid == other.vid && self.pid == other.pid
    }
}

impl vstd::std_specs::cmp::PartialEqSpecImpl for MatchSpec {
    open spec fn obeys_eq_spec() -> bool {
        true
    }

    open spec fn eq_spec(&self, other: &Self) -> bool {
        self@ == other@
    }
}

impl Eq for MatchSpec {

}

// ---------------------------------------------------------------------------
// Matching
// ---------------------------------------------------------------------------
/// The device has everything that the description asks for.
pub open spec fn fits(m: MatchSpecView, f: FingerprintView) -> bool {
    &&& m.serial is Some ==> f.serial == m.serial
    &&& m.devpath is Some ==> f.devpath == m.devpath
    &&& m.vid is Some ==> f.vid == m.vid
    &&& m.pid is Some ==> f.pid == m.pid
}

/// The description asks for nothing.
pub open spec fn asks_nothing(m: MatchSpecView) -> bool {
    m.serial is None && m.devpath is None && m.vid is None && m.pid is None
}

impl MatchSpec {
    /// Whether the device has everything that the description asks for.
    pub fn matches(&self, f: &DeviceFingerprint) -> (r: bool)
        ensures
            r == fits(self@, f@),
            r == {
                &&& self.serial is Some ==> text::opt_text(f.serial) == text::opt_text(self.serial)
                &&& self.devpath is Some ==> text::opt_text(f.devpath) == text::opt_text(
                    self.devpath,
                )
                &&& self.vid is Some ==> f.vid == self.vid
                &&& self.pid is Some ==> f.pid == self.pid
            },
    {
        if self.serial.is_some() && !text::same_opt_text(&self.serial, &f.serial) {
            return false;
        }
        if self.devpath.is_some() && !text::same_opt_text(&self.devpath, &f.devpath) {
            return false;
        }
        if self.vid.is_some() && f.vid != self.vid {
            return false;
        }
        if self.pid.is_some() && f.pid != self.pid {
            return false;
        }
        true
    }

    /// Whether the description asks for nothing.
    pub fn is_empty(&self) -> (r: bool)
        ensures
            r == asks_nothing(self@),
            r == (self.serial is None && self.devpath is None && self.vid is None
                && self.pid is None),
    {
        self.serial.is_none() && self.devpath.is_none() && self.vid.is_none() && self.pid.is_none()
    }
}

/// The description to remember a device by: its serial number, else the port,
/// each with vendor and product as far as they are known, else vendor and
/// product together; none where not even those are known.
pub open spec fn best_spec(f: FingerprintView) -> Option<MatchSpecView> {
    if f.serial is Some {
        Some(MatchSpecView { serial: f.serial, devpath: None, vid: f.vid, pid: f.pid })
    } else if f.devpath is Some {
        Some(MatchSpecView { serial: None, devpath: f.devpath, vid: f.vid, pid: f.pid })
    } else if f.vid is Some && f.pid is Some {
        Some(MatchSpecView { serial: None, devpath: None, vid: f.vid, pid: f.pid })
    } else {
        None
    }
}

/// The description to remember a device by.
pub fn best_effort_rule_for_device(f: &DeviceFingerprint) -> (r: Option<MatchSpec>)
    ensures
        match r {
            Some(m) => best_spec(f@) == Some(m@),
            None => best_spec(f@) is None,
        },
{
    if let Some(serial) = &f.serial {
        return Some(
            MatchSpec { serial: Some(serial.clone()), devpath: None, vid: f.vid, pid: f.pid },
        );
    }
    if let Some(devpath) = &f.devpath {
        return Some(
            MatchSpec { serial: None, devpath: Some(devpath.clone()), vid: f.vid, pid: f.pid },
        );
    }
    if f.vid.is_some() && f.pid.is_some() {
        return Some(MatchSpec { serial: None, devpath: None, vid: f.vid, pid: f.pid });
    }
    None
}

// ---------------------------------------------------------------------------
// Rules
// ---------------------------------------------------------------------------
/// The version and variant bits of a random UUID.
pub open spec fn is_random_uuid(id: u128) -> bool {
    &&& id / 0x1000_0000_0000_0000_0000 % 16 == 4
    &&& id / 0x4000_0000_0000_0000 % 4 == 2
}

/// `uuid::Uuid::new_v4`, read as a number with `Uuid::as_u128`: random but for
/// the bits that say that it is a random UUID. That two of them differ is likely
/// and is not claimed. It returns wherever the system has a source of
/// randomness.
#[verifier::external_body]
pub(crate) fn fresh_id() -> (r: u128)
    ensures
        is_random_uuid(r),
{
    uuid::Uuid::new_v4().as_u128()
}

/// What is said of a description that asks for nothing.
pub open spec fn empty_spec_message() -> Seq<char> {
    "match spec must not be empty"@
}

impl Rule {
    /// An enabled rule with the given identifier that binds what fits; an error
    /// if everything would fit.
    pub fn with_id(id: u128, match_spec: MatchSpec, note: Option<String>) -> (r: Result<
        Rule,
        String,
    >)
        ensures
            match r {
                Ok(rule) => !asks_nothing(match_spec@) && rule@ == (RuleView {
                    id,
                    enabled: true,
                    note: text::opt_text(note),
                    match_spec: match_spec@,
                    action: RuleAction::Bind,
                }),
                Err(e) => asks_nothing(match_spec@) && e@ == empty_spec_message(),
            },
    {
        if match_spec.is_empty() {
            return Err("match spec must not be empty".to_string());
        }
        Ok(Rule { id, enabled: true, note, match_spec, action: RuleAction::Bind })
    }

    /// An enabled rule with a new identifier that binds what fits; an error if
    /// everything would fit.
    pub fn new(match_spec: MatchSpec, note: Option<String>) -> (r: Result<Rule, String>)
        ensures
            match r {
                Ok(rule) => !asks_nothing(match_spec@) && is_random_uuid(rule.id) && rule@ == (
                RuleView {
                    id: rule.id,
                    enabled: true,
                    note: text::opt_text(note),
                    match_spec: match_spec@,
                    action: RuleAction::Bind,
                }),
                Err(e) => asks_nothing(match_spec@) && e@ == empty_spec_message(),
            },
    {
        Rule::with_id(fresh_id(), match_spec, note)
    }
}

/// The index of the first rule with the description `m`; the number of rules
/// when there is none.
pub open spec fn spec_index(rules: Seq<RuleView>, m: MatchSpecView) -> int
    decreases rules.len(),
{
    if rules.len() == 0 || rules[0].match_spec == m {
        0
    } else {
        1 + spec_index(rules.drop_first(), m)
    }
}

/// The first rule with an equal description, if any, and no other, is at its
/// index.
pub proof fn lemma_spec_index(rules: Seq<RuleView>, m: MatchSpecView)
    ensures
        0 <= spec_index(rules, m) <= rules.len(),
        forall|j: int| 0 <= j < spec_index(rules, m) ==> (#[trigger] rules[j]).match_spec != m,
        spec_index(rules, m) < rules.len() ==> rules[spec_index(rules, m)].match_spec == m,
    decreases rules.len(),
{
    if rules.len() > 0 && rules[0].match_spec != m {
        let t = rules.drop_first();
        lemma_spec_index(t, m);
        assert forall|j: int| 0 <= j < spec_index(rules, m) implies (
        #[trigger] rules[j]).match_spec != m by {
            if j > 0 {
                assert(t[j - 1] == rules[j]);
            }
        }
    }
}

/// The rules after a rule for `m` was entered: the first rule for it is set to
/// `enabled`, and to the note where there is one; where there is none, a rule
/// with the identifier `id` is appended.
pub open spec fn upserted(
    rules: Seq<RuleView>,
    m: MatchSpecView,
    enabled: bool,
    note: Option<Seq<char>>,
    id: u128,
) -> Seq<RuleView> {
    let k = spec_index(rules, m);
    if k < rules.len() {
        rules.update(
            k,
            RuleView {
                enabled,
                note: if note is Some {
                    note
                } else {
                    rules[k].note
                },
                action: RuleAction::Bind,
                ..rules[k]
            },
        )
    } else {
        rules.push(RuleView { id, enabled, note, match_spec: m, action: RuleAction::Bind })
    }
}

/// The rules with every rule for `m` disabled.
pub open spec fn disabled(rules: Seq<RuleView>, m: MatchSpecView) -> Seq<RuleView> {
    Seq::new(
        rules.len(),
        |i: int|
            if rules[i].match_spec == m {
                RuleView { enabled: false, ..rules[i] }
            } else {
                rules[i]
            },
    )
}

/// Some enabled rule is for `m`.
pub open spec fn has_enabled(rules: Seq<RuleView>, m: MatchSpecView) -> bool {
    exists|i: int|
        0 <= i < rules.len() && (#[trigger] rules[i]).match_spec == m && rules[i].enabled
}

impl RulesFile {
    fn index_of(&self, match_spec: &MatchSpec) -> (r: usize)
        ensures
            r == spec_index(self@, match_spec@),
            r <= self.rules@.len(),
    {
        let ghost all = self@;
        let ghost m = match_spec@;
        let mut i: usize = 0;
        assert(all.skip(0) =~= all);
        while i < self.rules.len()
            invariant
                i <= self.rules@.len(),
                all == self@,
                m == match_spec@,
                spec_index(all, m) == i + spec_index(all.skip(i as int), m),
            decreases self.rules.len() - i,
        {
            assert(all.skip(i as int)[0] == self.rules@[i as int]@);
            assert(all.skip(i as int).drop_first() =~= all.skip(i + 1));
            if self.rules[i].match_spec == *match_spec {
                return i;
            }
            i = i + 1;
        }
        i
    }

    /// The first rule with an equal description, enabled or not.
    pub fn find_rule_mut(&mut self, match_spec: &MatchSpec) -> (r: Option<&mut Rule>)
        ensures
            ({
                let k = spec_index(old(self)@, match_spec@);
                match r {
                    Some(rule) => {
                        &&& 0 <= k < old(self).rules@.len()
                        &&& *rule == old(self).rules@[k]
                        &&& final(self).rules@ == old(self).rules@.update(k, *final(rule))
                    },
                    None => k == old(self).rules@.len() && final(self).rules@ == old(self).rules@,
                }
            }),
    {
        let k = self.index_of(match_spec);
        if k < self.rules.len() {
            Some(&mut self.rules[k])
        } else {
            None
        }
    }

    /// Enters a rule for a description under the given identifier; an error if
    /// the description asks for nothing.
    pub fn upsert_with_id(
        &mut self,
        id: u128,
        match_spec: MatchSpec,
        enabled: bool,
        note: Option<String>,
    ) -> (r: Result<(), String>)
        ensures
            match r {
                Ok(_) => !asks_nothing(match_spec@) && final(self)@ == upserted(
                    old(self)@,
                    match_spec@,
                    enabled,
                    text::opt_text(note),
                    id,
                ),
                Err(e) => asks_nothing(match_spec@) && e@ == empty_spec_message() && final(self)@
                    == old(self)@,
            },
    {
        if match_spec.is_empty() {
            return Err("match spec must not be empty".to_string());
        }
        let ghost before = self@;
        let ghost m = match_spec@;
        let ghost n = text::opt_text(note);
        let ghost k = spec_index(before, m);
        proof {
            lemma_spec_index(before, m);
        }
        if let Some(r) = self.find_rule_mut(&match_spec) {
            r.enabled = enabled;
            if note.is_some() {
                r.note = note;
            }
            r.action = RuleAction::Bind;
            assert(self@ =~= upserted(before, m, enabled, n, id));
            return Ok(());
        }
        self.rules.push(Rule { id, enabled, note, match_spec, action: RuleAction::Bind });
        assert(self@ =~= upserted(before, m, enabled, n, id));
        Ok(())
    }

    /// Enters a rule for a description: the first rule for it is set to
    /// `enabled`, and to the note where there is one; where there is none, a
    /// rule with a new identifier is appended. An error if the description asks
    /// for nothing.
    pub fn upsert_bind_rule(
        &mut self,
        match_spec: MatchSpec,
        enabled: bool,
        note: Option<String>,
    ) -> (r: Result<(), String>)
        ensures
            match r {
                Ok(_) => !asks_nothing(match_spec@) && exists|id: u128|
                    is_random_uuid(id) && final(self)@ == #[trigger] upserted(
                        old(self)@,
                        match_spec@,
                        enabled,
                        text::opt_text(note),
                        id,
                    ),
                Err(e) => asks_nothing(match_spec@) && e@ == empty_spec_message() && final(self)@
                    == old(self)@,
            },
    {
        self.upsert_with_id(fresh_id(), match_spec, enabled, note)
    }

    /// Disables every rule for a description; says whether one was enabled.
    /// What is bound already stays bound.
    pub fn disable_rule(&mut self, match_spec: &MatchSpec) -> (r: bool)
        ensures
            final(self)@ == disabled(old(self)@, match_spec@),
            r == has_enabled(old(self)@, match_spec@),
    {
        let ghost before = self@;
        let ghost m = match_spec@;
        let mut changed = false;
        let mut i: usize = 0;
        while i < self.rules.len()
            invariant
                m == match_spec@,
                i <= self.rules@.len(),
                self.rules@.len() == before.len(),
                forall|j: int| 0 <= j < i ==> (#[trigger] self@[j]) == disabled(before, m)[j],
                forall|j: int| i <= j < before.len() ==> (#[trigger] self@[j]) == before[j],
                changed == exists|j: int|
                    0 <= j < i && (#[trigger] before[j]).match_spec == m && before[j].enabled,
            decreases self.rules.len() - i,
        {
            let ghost now = self@;
            assert(now[i as int] == self.rules@[i as int]@);
            assert(now[i as int] == before[i as int]);
            if self.rules[i].match_spec == *match_spec {
                if self.rules[i].enabled {
                    changed = true;
                }
                self.rules[i].enabled = false;
            }
            proof {
                assert forall|j: int| 0 <= j < self@.len() && j != i implies (#[trigger] self@[j])
                    == now[j] by {}
                assert(self@[i as int] =~= disabled(before, m)[i as int]);
            }
            i = i + 1;
        }
        assert(self@ =~= disabled(before, m));
        changed
    }
}

// ---------------------------------------------------------------------------
// What holds of the rules
// ---------------------------------------------------------------------------
/// The description to remember a device by asks for something and fits that
/// device.
pub proof fn best_spec_fits_its_device(f: FingerprintView)
    ensures
        match best_spec(f) {
            Some(m) => !asks_nothing(m) && fits(m, f),
            None => true,
        },
{
}

/// No two rules have the same description.
pub open spec fn distinct_specs(rules: Seq<RuleView>) -> bool {
    forall|i: int, j: int|
        0 <= i < j < rules.len() ==> (#[trigger] rules[i]).match_spec != (
        #[trigger] rules[j]).match_spec
}

/// After a rule was entered, the first rule for its description is set as
/// asked; every rule keeps its place, its identifier and its description; every
/// other rule is as it was; and at most one rule came to them.
pub proof fn entering_a_rule_changes_only_that_rule(
    rules: Seq<RuleView>,
    m: MatchSpecView,
    enabled: bool,
    note: Option<Seq<char>>,
    id: u128,
)
    ensures
        ({
            let after = upserted(rules, m, enabled, note, id);
            let k = spec_index(rules, m);
            &&& spec_index(after, m) == k
            &&& 0 <= k < after.len()
            &&& after[k].match_spec == m
            &&& after[k].enabled == enabled
            &&& note is Some ==> after[k].note == note
            &&& after.len() == (if k < rules.len() {
                rules.len()
            } else {
                rules.len() + 1
            })
            &&& forall|i: int|
                0 <= i < rules.len() ==> (#[trigger] after[i]).id == rules[i].id
                    && after[i].match_spec == rules[i].match_spec
            &&& forall|i: int| 0 <= i < rules.len() && i != k ==> #[trigger] after[i] == rules[i]
        }),
{
    let after = upserted(rules, m, enabled, note, id);
    let k = spec_index(rules, m);
    lemma_spec_index(rules, m);
    lemma_spec_index(after, m);
    if spec_index(after, m) < k {
        assert(after[spec_index(after, m)] == rules[spec_index(after, m)]);
    }
    if k < spec_index(after, m) {
        assert(after[k].match_spec == m);
    }
}

/// Entering rules never makes two rules have the same description.
pub proof fn entering_a_rule_keeps_specs_distinct(
    rules: Seq<RuleView>,
    m: MatchSpecView,
    enabled: bool,
    note: Option<Seq<char>>,
    id: u128,
)
    requires
        distinct_specs(rules),
    ensures
        distinct_specs(upserted(rules, m, enabled, note, id)),
{
    let after = upserted(rules, m, enabled, note, id);
    lemma_spec_index(rules, m);
    entering_a_rule_changes_only_that_rule(rules, m, enabled, note, id);
    assert forall|i: int, j: int| 0 <= i < j < after.len() implies (#[trigger] after[i]).match_spec
        != (#[trigger] after[j]).match_spec by {
        if j < rules.len() {
            assert(rules[i].match_spec != rules[j].match_spec);
        } else {
            assert(rules[i].match_spec != m);
        }
    }
}

/// Entering the same rule twice is the same as entering it once.
pub proof fn entering_a_rule_twice_is_entering_it_once(
    rules: Seq<RuleView>,
    m: MatchSpecView,
    enabled: bool,
    note: Option<Seq<char>>,
    id: u128,
    other_id: u128,
)
    ensures
        upserted(upserted(rules, m, enabled, note, id), m, enabled, note, other_id) == upserted(
            rules,
            m,
            enabled,
            note,
            id,
        ),
{
    let once = upserted(rules, m, enabled, note, id);
    lemma_spec_index(rules, m);
    entering_a_rule_changes_only_that_rule(rules, m, enabled, note, id);
    assert(upserted(once, m, enabled, note, other_id) =~= once);
}

/// After a description was disabled no enabled rule is left for it; rules for
/// other descriptions are as they were, and nothing but the switch changed on
/// any.
pub proof fn disabling_leaves_no_enabled_rule(rules: Seq<RuleView>, m: MatchSpecView)
    ensures
        !has_enabled(disabled(rules, m), m),
        disabled(rules, m).len() == rules.len(),
        forall|i: int|
            0 <= i < rules.len() ==> (#[trigger] disabled(rules, m)[i]) == (RuleView {
                enabled: rules[i].enabled && rules[i].match_spec != m,
                ..rules[i]
            }),
{
}

// ---------------------------------------------------------------------------
// The rules file
// ---------------------------------------------------------------------------
/// `std::path::PathBuf`, a path that is carried through.
#[verifier::external_type_specification]
#[verifier::external_body]
pub struct ExPathBuf(PathBuf);

/// Where the rules are kept.
#[derive(Debug)]
pub struct RuleStore {
    path: PathBuf,
}

impl View for RuleStore {
    type V = PathBuf;

    closed spec fn view(&self) -> PathBuf {
        self.path
    }
}

/// What reading the rules file gave.
#[derive(Debug)]
pub enum StoredRules {
    /// There is no such file.
    Missing,
    /// It could not be read; the text says why.
    Unreadable(String),
    /// It holds no rules; the text says why.
    Unparsable(String),
    /// It holds these rules.
    Parsed(RulesFile),
}

/// The extension of the file that the rules are written to before they replace
/// those in the rules file.
pub const TEMP_EXTENSION: &'static str = "json.tmp";

/// A step of storing the rules.
#[derive(Debug, PartialEq, Eq, Clone, Copy, Structural)]
pub enum StoreStep {
    /// Create the directory that the rules file is in.
    CreateParent,
    /// Put the rules into writing.
    Serialize,
    /// Write them to the file with the temporary extension.
    WriteTemp,
    /// Rename that file to the rules file.
    RenameTemp,
}

/// What follows a step.
#[derive(Debug)]
pub enum StoreProgress {
    Next(StoreStep),
    Done(Result<(), Failure>),
}

/// A `StoreProgress` as mathematical values.
pub enum StoreProgressView {
    Next(StoreStep),
    Done(Result<(), failure::FailureView>),
}

impl View for StoreProgress {
    type V = StoreProgressView;

    open spec fn view(&self) -> StoreProgressView {
        match *self {
            StoreProgress::Next(s) => StoreProgressView::Next(s),
            StoreProgress::Done(r) => StoreProgressView::Done(
                match r {
                    Ok(_) => Ok(()),
                    Err(e) => Err(e@),
                },
            ),
        }
    }
}

/// What follows a step that worked, or failed for the given reason.
pub open spec fn progress_of(step: StoreStep, outcome: Result<(), Seq<char>>) -> StoreProgressView {
    match outcome {
        Ok(_) => match step {
            StoreStep::CreateParent => StoreProgressView::Next(StoreStep::Serialize),
            StoreStep::Serialize => StoreProgressView::Next(StoreStep::WriteTemp),
            StoreStep::WriteTemp => StoreProgressView::Next(StoreStep::RenameTemp),
            StoreStep::RenameTemp => StoreProgressView::Done(Ok(())),
        },
        Err(e) => StoreProgressView::Done(
            Err(
                match step {
                    StoreStep::CreateParent => failure::plain_of(e),
                    StoreStep::Serialize => failure::caused_of("serialize rules json"@, e),
                    StoreStep::WriteTemp => failure::caused_of("write tmp rules"@, e),
                    StoreStep::RenameTemp => failure::caused_of("rename tmp rules"@, e),
                },
            ),
        ),
    }
}

impl RuleStore {
    /// Rules that are kept in the given file.
    pub fn new(path: PathBuf) -> (r: Arc<RuleStore>)
        ensures
            r@ == path,
    {
        Arc::new(RuleStore { path })
    }

    /// The rules file.
    pub fn path(&self) -> (r: &PathBuf)
        ensures
            *r == self@,
    {
        &self.path
    }

    /// The rules that are kept, given what reading the file gave: none if there
    /// is no file, and an error if it cannot be read or holds no rules.
    pub fn load_or_default(&self, stored: StoredRules) -> (r: Result<RulesFile, Failure>)
        ensures
            match (stored, r) {
                (StoredRules::Missing, Ok(rules)) => rules@ == Seq::<RuleView>::empty(),
                (StoredRules::Parsed(kept), Ok(rules)) => rules == kept,
                (StoredRules::Unreadable(why), Err(e)) => e@ == failure::caused_of(
                    "read rules file"@,
                    why@,
                ),
                (StoredRules::Unparsable(why), Err(e)) => e@ == failure::caused_of(
                    "parse rules json"@,
                    why@,
                ),
                _ => false,
            },
    {
        match stored {
            StoredRules::Missing => Ok(RulesFile::default()),
            StoredRules::Parsed(rules) => Ok(rules),
            StoredRules::Unreadable(why) => Err(Failure::caused("read rules file", why.as_str())),
            StoredRules::Unparsable(why) => Err(Failure::caused("parse rules json", why.as_str())),
        }
    }

    /// The first step of storing rules.
    pub fn store(&self, has_parent: bool) -> (r: StoreStep)
        ensures
            r == (if has_parent {
                StoreStep::CreateParent
            } else {
                StoreStep::Serialize
            }),
    {
        if has_parent {
            StoreStep::CreateParent
        } else {
            StoreStep::Serialize
        }
    }

    /// What follows a step of storing rules, given what came of it.
    pub fn store_next(&self, step: StoreStep, outcome: Result<(), String>) -> (r: StoreProgress)
        ensures
            r@ == progress_of(
                step,
                match outcome {
                    Ok(_) => Ok(()),
                    Err(e) => Err(e@),
                },
            ),
    {
        match outcome {
            Ok(_) => match step {
                StoreStep::CreateParent => StoreProgress::Next(StoreStep::Serialize),
                StoreStep::Serialize => StoreProgress::Next(StoreStep::WriteTemp),
                StoreStep::WriteTemp => StoreProgress::Next(StoreStep::RenameTemp),
                StoreStep::RenameTemp => StoreProgress::Done(Ok(())),
            },
            Err(e) => {
                let failed = match step {
                    StoreStep::CreateParent => Failure::plain(e.as_str()),
                    StoreStep::Serialize => Failure::caused("serialize rules json", e.as_str()),
                    StoreStep::WriteTemp => Failure::caused("write tmp rules", e.as_str()),
                    StoreStep::RenameTemp => Failure::caused("rename tmp rules", e.as_str()),
                };
                StoreProgress::Done(Err(failed))
            },
        }
    }
}

/// The rules file is replaced only by a file that was written to its end, and
/// storing succeeds only when it was replaced: renaming follows a successful
/// write and nothing else, success follows a successful renaming and nothing
/// else, and after a failure there is no further step.
pub proof fn storing_replaces_the_file_as_a_whole(
    step: StoreStep,
    outcome: Result<(), Seq<char>>,
)
    ensures
        progress_of(step, outcome) == StoreProgressView::Next(StoreStep::RenameTemp) <==> step
            == StoreStep::WriteTemp && outcome is Ok,
        progress_of(step, outcome) == StoreProgressView::Done(Ok(())) <==> step
            == StoreStep::RenameTemp && outcome is Ok,
        outcome is Err ==> progress_of(step, outcome) is Done,
{
}

} // verus!
