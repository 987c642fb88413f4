//! What the `usbip` command prints, and what that means.

use vstd::prelude::*;

use crate::text;

verus! {

/// A device that a server offers.
#[derive(Debug)]
pub struct RemoteDevice {
    pub busid: String,
    pub desc: String,
    pub vidpid: Option<String>,
    pub sys_path: Option<String>,
}

/// A `RemoteDevice` as mathematical values.
#[verifier::ext_equal]
pub struct RemoteDeviceView {
    pub busid: Seq<char>,
    pub desc: Seq<char>,
    pub vidpid: Option<Seq<char>>,
    pub sys_path: Option<Seq<char>>,
}

impl View for RemoteDevice {
    type V = RemoteDeviceView;

    open spec fn view(&self) -> RemoteDeviceView {
        RemoteDeviceView {
            busid: self.busid@,
            desc: self.desc@,
            vidpid: text::opt_text(self.vidpid),
            sys_path: text::opt_text(self.sys_path),
        }
    }
}

impl Clone for RemoteDevice {
    fn clone(&self) -> (r: RemoteDevice)
        ensures
            r@ == self@,
    {
        RemoteDevice {
            busid: self.busid.clone(),
            desc: self.desc.clone(),
            vidpid: text::clone_opt(&self.vidpid),
            sys_path: text::clone_opt(&self.sys_path),
        }
    }
}

/// The devices behind a list.
pub open spec fn device_views(v: Seq<RemoteDevice>) -> Seq<RemoteDeviceView> {
    Seq::new(v.len(), |i: int| v[i]@)
}

/// Copies of the devices.
pub fn clone_devices(v: &Vec<RemoteDevice>) -> (r: Vec<RemoteDevice>)
    ensures
        device_views(r@) == device_views(v@),
{
    let mut out: Vec<RemoteDevice> = Vec::new();
    let mut i: usize = 0;
    while i < v.len()
        invariant
            i <= v@.len(),
            out@.len() == i,
            forall|j: int| 0 <= j < i ==> (#[trigger] out@[j])@ == v@[j]@,
        decreases v.len() - i,
    {
        out.push(v[i].clone());
        i = i + 1;
    }
    assert(device_views(out@) =~= device_views(v@));
    out
}

// ---------------------------------------------------------------------------
// Bus identifiers
// ---------------------------------------------------------------------------
pub open spec fn is_alnum(c: char) -> bool {
    ('0' <= c <= '9') || ('a' <= c <= 'z') || ('A' <= c <= 'Z')
}

pub open spec fn is_hex(c: char) -> bool {
    ('0' <= c <= '9') || ('a' <= c <= 'f') || ('A' <= c <= 'F')
}

/// At least one character, and only ASCII letters, ASCII digits, `-` and `.`.
pub open spec fn is_busid(s: Seq<char>) -> bool {
    &&& s.len() > 0
    &&& forall|i: int| 0 <= i < s.len() ==> is_alnum(#[trigger] s[i]) || s[i] == '-' || s[i] == '.'
}

fn is_busid_chars(s: &[char]) -> (r: bool)
    ensures
        r == is_busid(s@),
{
    let mut i: usize = 0;
    while i < s.len()
        invariant
            i <= s@.len(),
            forall|j: int|
                0 <= j < i ==> is_alnum(#[trigger] s@[j]) || s@[j] == '-' || s@[j] == '.',
        decreases s.len() - i,
    {
        let c = s[i];
        let ok = ('0' <= c && c <= '9') || ('a' <= c && c <= 'z') || ('A' <= c && c <= 'Z') || c
            == '-' || c == '.';
        if !ok {
            assert(!(is_alnum(s@[i as int]) || s@[i as int] == '-' || s@[i as int] == '.'));
            return false;
        }
        i = i + 1;
    }
    s.len() > 0
}

/// Whether `s` has the shape of a bus identifier.
pub fn looks_like_busid(s: &str) -> (r: bool)
    ensures
        r == is_busid(s@),
{
    let cs = text::chars_of(s);
    is_busid_chars(&cs)
}

// ---------------------------------------------------------------------------
// One line of `usbip list -r`
// ---------------------------------------------------------------------------
/// Four hexadecimal digits, a colon, four hexadecimal digits.
pub open spec fn is_vidpid(s: Seq<char>) -> bool {
    &&& s.len() == 9
    &&& s[4] == ':'
    &&& forall|i: int| 0 <= i < 9 && i != 4 ==> is_hex(#[trigger] s[i])
}

/// Where the text between the last `(` and a final `)` begins, if that text is
/// a vendor and product number; minus one otherwise.
pub open spec fn vidpid_start(s: Seq<char>) -> int {
    let k = text::last_position_of(s, '(');
    if k >= 0 && k + 1 < s.len() && s.last() == ')' && is_vidpid(s.subrange(k + 1, s.len() - 1)) {
        k + 1
    } else {
        -1
    }
}

/// The device that what follows the colon of a header line describes.
pub open spec fn described(busid: Seq<char>, rest: Seq<char>) -> RemoteDeviceView {
    let k = vidpid_start(rest);
    if k >= 0 {
        RemoteDeviceView {
            busid,
            desc: text::trim_of(rest.take(k - 1)),
            vidpid: Some(text::ascii_lower_of(rest.subrange(k, rest.len() - 1))),
            sys_path: None,
        }
    } else {
        RemoteDeviceView { busid, desc: rest, vidpid: None, sys_path: None }
    }
}

/// A line without a leading `- `.
pub open spec fn without_dash(l: Seq<char>) -> Seq<char> {
    if text::has_prefix(l, "- "@) {
        l.skip("- "@.len() as int)
    } else {
        l
    }
}

/// The device that a line begins the description of: `busid B`, or `B: text`
/// with an optional `- ` in front.
pub open spec fn header_of(l: Seq<char>) -> Option<RemoteDeviceView> {
    if text::has_prefix(l, "busid "@) {
        let w = text::words_of(l.skip("busid "@.len() as int));
        if w.len() > 0 && is_busid(w[0]) {
            Some(
                RemoteDeviceView {
                    busid: w[0],
                    desc: Seq::empty(),
                    vidpid: None,
                    sys_path: None,
                },
            )
        } else {
            None
        }
    } else {
        let m = without_dash(l);
        let k = text::position_of(m, ':');
        let busid = text::trim_of(m.take(k));
        if k < m.len() && is_busid(busid) {
            Some(described(busid, text::trim_of(m.skip(k + 1))))
        } else {
            None
        }
    }
}

fn is_vidpid_chars(s: &[char]) -> (r: bool)
    ensures
        r == is_vidpid(s@),
{
    if s.len() != 9 || s[4] != ':' {
        return false;
    }
    let mut i: usize = 0;
    while i < 9
        invariant
            s@.len() == 9,
            s@[4] == ':',
            i <= 9,
            forall|j: int| 0 <= j < i && j != 4 ==> is_hex(#[trigger] s@[j]),
        decreases 9 - i,
    {
        let c = s[i];
        let hex = ('0' <= c && c <= '9') || ('a' <= c && c <= 'f') || ('A' <= c && c <= 'F');
        if i != 4 && !hex {
            assert(!is_hex(s@[i as int]));
            return false;
        }
        i = i + 1;
    }
    true
}

fn describe(busid: &[char], rest: &[char]) -> (r: RemoteDevice)
    ensures
        r@ == described(busid@, rest@),
{
    if let Some(open) = text::last_position(rest, '(') {
        if rest.len() - open > 1 && rest[rest.len() - 1] == ')' {
            let inside = &rest[open + 1..rest.len() - 1];
            if is_vidpid_chars(inside) {
                let lower = text::to_ascii_lower(inside);
                let head = &rest[0..open];
                proof {
                    assert(vidpid_start(rest@) == open + 1);
                    assert(rest@.subrange(0, open as int) == rest@.take(open as int));
                }
                return RemoteDevice {
                    busid: text::string_of(busid),
                    desc: text::string_of(text::trim(head)),
                    vidpid: Some(text::string_of(&lower)),
                    sys_path: None,
                };
            }
        }
    }
    RemoteDevice {
        busid: text::string_of(busid),
        desc: text::string_of(rest),
        vidpid: None,
        sys_path: None,
    }
}

fn header(l: &[char]) -> (r: Option<RemoteDevice>)
    ensures
        match r {
            Some(d) => header_of(l@) == Some(d@),
            None => header_of(l@) is None,
        },
{
    if let Some(rest) = text::strip_prefix(l, "busid ") {
        let w = text::words(rest);
        assert(text::pieces(w@) == text::words_of(rest@));
        if w.len() > 0 && is_busid_chars(w[0]) {
            assert(text::pieces(w@)[0] == w@[0]@);
            return Some(
                RemoteDevice {
                    busid: text::string_of(w[0]),
                    desc: String::new(),
                    vidpid: None,
                    sys_path: None,
                },
            );
        }
        proof {
            if w@.len() > 0 {
                assert(text::pieces(w@)[0] == w@[0]@);
            }
        }
        return None;
    }
    let m = match text::strip_prefix(l, "- ") {
        Some(rest) => rest,
        None => l,
    };
    assert(m@ == without_dash(l@));
    let k = text::position(m, ':');
    if k == m.len() {
        return None;
    }
    let before = &m[0..k];
    let after = &m[k + 1..m.len()];
    proof {
        assert(m@.subrange(0, k as int) == m@.take(k as int));
        assert(m@.subrange(k + 1, m@.len() as int) == m@.skip(k + 1));
    }
    let busid = text::trim(before);
    if !is_busid_chars(busid) {
        return None;
    }
    Some(describe(busid, text::trim(after)))
}

/// The device that a line begins the description of, if it does.
pub fn parse_device_header_line(l: &str) -> (r: Option<RemoteDevice>)
    ensures
        match r {
            Some(d) => header_of(l@) == Some(d@),
            None => header_of(l@) is None,
        },
{
    let cs = text::chars_of(l);
    header(&cs)
}

// ---------------------------------------------------------------------------
// The whole of `usbip list -r`
// ---------------------------------------------------------------------------
/// The path that a line `: /sys/...` gives.
pub open spec fn sys_path_of(l: Seq<char>) -> Option<Seq<char>> {
    let rest = l.skip(": "@.len() as int);
    if text::has_prefix(l, ": "@) && text::has_prefix(rest, "/sys/"@) {
        Some(rest)
    } else {
        None
    }
}

/// The devices that the lines describe, one for each header line, each with
/// the last path given before the next header line.
pub open spec fn listed_devices(lines: Seq<Seq<char>>) -> Seq<RemoteDeviceView>
    decreases lines.len(),
{
    if lines.len() == 0 {
        Seq::empty()
    } else {
        let before = listed_devices(lines.drop_last());
        let l = text::trim_of(lines.last());
        match header_of(l) {
            Some(d) => before.push(d),
            None => match sys_path_of(l) {
                Some(p) => if before.len() > 0 {
                    before.update(
                        before.len() - 1,
                        RemoteDeviceView { sys_path: Some(p), ..before.last() },
                    )
                } else {
                    before
                },
                None => before,
            },
        }
    }
}

/// Some device in `ds` has this bus identifier.
pub open spec fn has_busid(ds: Seq<RemoteDeviceView>, busid: Seq<char>) -> bool {
    exists|i: int| 0 <= i < ds.len() && (#[trigger] ds[i]).busid == busid
}

/// `ds` with only the first device of each bus identifier.
pub open spec fn first_of_each(ds: Seq<RemoteDeviceView>) -> Seq<RemoteDeviceView>
    decreases ds.len(),
{
    if ds.len() == 0 {
        Seq::empty()
    } else {
        let before = first_of_each(ds.drop_last());
        if has_busid(before, ds.last().busid) {
            before
        } else {
            before.push(ds.last())
        }
    }
}

/// The devices that the output of `usbip list -r` offers.
pub open spec fn offered_devices(s: Seq<char>) -> Seq<RemoteDeviceView> {
    first_of_each(listed_devices(text::lines_of(s)))
}

fn push_if_new(out: &mut Vec<RemoteDevice>, d: RemoteDevice)
    ensures
        device_views(final(out)@) == (if has_busid(device_views(old(out)@), d@.busid) {
            device_views(old(out)@)
        } else {
            device_views(old(out)@).push(d@)
        }),
{
    let ghost before = device_views(out@);
    let mut i: usize = 0;
    while i < out.len()
        invariant
            i <= out@.len(),
            before == device_views(out@),
            out@ == old(out)@,
            forall|j: int| 0 <= j < i ==> (#[trigger] before[j]).busid != d.busid@,
        decreases out.len() - i,
    {
        if text::same_text(out[i].busid.as_str(), d.busid.as_str()) {
            assert(before[i as int].busid == d@.busid);
            return ;
        }
        i = i + 1;
    }
    let ghost dv = d@;
    out.push(d);
    assert(device_views(out@) =~= before.push(dv));
}

proof fn lemma_listed_step(lines: Seq<Seq<char>>, i: int)
    requires
        0 <= i < lines.len(),
    ensures
        ({
            let before = listed_devices(lines.take(i));
            let l = text::trim_of(lines[i]);
            listed_devices(lines.take(i + 1)) == (match header_of(l) {
                Some(d) => before.push(d),
                None => match sys_path_of(l) {
                    Some(p) => if before.len() > 0 {
                        before.update(
                            before.len() - 1,
                            RemoteDeviceView { sys_path: Some(p), ..before.last() },
                        )
                    } else {
                        before
                    },
                    None => before,
                },
            })
        }),
{
    let t = lines.take(i + 1);
    assert(t.drop_last() == lines.take(i));
    assert(t.last() == lines[i]);
}

/// The devices that the output of `usbip list -r` offers, each bus identifier
/// once.
pub fn parse_devices_from_usbip_list_remote(s: &str) -> (r: Vec<RemoteDevice>)
    ensures
        device_views(r@) == offered_devices(s@),
{
    let cs = text::chars_of(s);
    let ls = text::lines(&cs);
    let ghost lines = text::lines_of(s@);
    let mut out: Vec<RemoteDevice> = Vec::new();
    let mut current: Option<RemoteDevice> = None;
    let mut i: usize = 0;
    proof {
        assert(lines.take(0) == Seq::<Seq<char>>::empty());
        assert(device_views(out@) =~= Seq::<RemoteDeviceView>::empty());
    }
    while i < ls.len()
        invariant
            i <= ls@.len(),
            text::pieces(ls@) == lines,
            match current {
                None => listed_devices(lines.take(i as int)).len() == 0 && device_views(out@).len()
                    == 0,
                Some(d) => {
                    let all = listed_devices(lines.take(i as int));
                    &&& all.len() > 0
                    &&& all.last() == d@
                    &&& device_views(out@) == first_of_each(all.drop_last())
                },
            },
        decreases ls.len() - i,
    {
        let l = text::trim(ls[i]);
        let ghost before = listed_devices(lines.take(i as int));
        proof {
            assert(text::pieces(ls@)[i as int] == ls@[i as int]@);
            lemma_listed_step(lines, i as int);
        }
        let ghost after = listed_devices(lines.take(i + 1));
        match header(l) {
            Some(d) => {
                let done = current.take();
                if let Some(prev) = done {
                    push_if_new(&mut out, prev);
                }
                proof {
                    assert(after.drop_last() =~= before);
                    if before.len() == 0 {
                        assert(before =~= Seq::<RemoteDeviceView>::empty());
                        assert(device_views(out@) =~= Seq::<RemoteDeviceView>::empty());
                    }
                }
                current = Some(d);
            },
            None => {
                let taken = current.take();
                if let Some(mut d) = taken {
                    if let Some(rest) = text::strip_prefix(l, ": ") {
                        if text::starts_with(rest, "/sys/") {
                            d.sys_path = Some(text::string_of(rest));
                        }
                    }
                    proof {
                        assert(after.drop_last() =~= before.drop_last());
                        assert(after.last() == d@);
                    }
                    current = Some(d);
                }
            },
        }
        i = i + 1;
    }
    assert(lines.take(lines.len() as int) == lines);
    let ghost all = listed_devices(lines);
    if let Some(prev) = current {
        push_if_new(&mut out, prev);
    } else {
        assert(all =~= Seq::<RemoteDeviceView>::empty());
        assert(device_views(out@) =~= Seq::<RemoteDeviceView>::empty());
    }
    out
}

// ---------------------------------------------------------------------------
// What every list of offered devices satisfies
// ---------------------------------------------------------------------------
proof fn lemma_first_of_each(ds: Seq<RemoteDeviceView>)
    ensures
        forall|i: int, j: int|
            0 <= i < j < first_of_each(ds).len() ==> (#[trigger] first_of_each(ds)[i]).busid != (
            #[trigger] first_of_each(ds)[j]).busid,
        forall|i: int| 0 <= i < first_of_each(ds).len() ==> ds.contains(#[trigger] first_of_each(ds)[i]),
        forall|i: int|
            0 <= i < ds.len() ==> has_busid(first_of_each(ds), (#[trigger] ds[i]).busid),
    decreases ds.len(),
{
    if ds.len() > 0 {
        let t = ds.drop_last();
        lemma_first_of_each(t);
        let before = first_of_each(t);
        let after = first_of_each(ds);
        assert forall|i: int| 0 <= i < after.len() implies ds.contains(#[trigger] after[i]) by {
            if i < before.len() {
                assert(t.contains(before[i]));
                let k = choose|k: int| 0 <= k < t.len() && t[k] == before[i];
                assert(ds[k] == after[i]);
            } else {
                assert(ds[ds.len() - 1] == after[i]);
            }
        }
        assert forall|i: int| 0 <= i < ds.len() implies has_busid(after, (#[trigger] ds[i]).busid) by {
            if i < t.len() {
                assert(t[i] == ds[i]);
                assert(has_busid(before, t[i].busid));
                let k = choose|k: int| 0 <= k < before.len() && before[k].busid == t[i].busid;
                assert(after[k] == before[k]);
            } else if !has_busid(before, ds.last().busid) {
                assert(after[before.len() as int] == ds.last());
            }
        }
    }
}

proof fn lemma_listed(lines: Seq<Seq<char>>)
    ensures
        forall|i: int|
            0 <= i < listed_devices(lines).len() ==> is_busid(
                (#[trigger] listed_devices(lines)[i]).busid,
            ) && (listed_devices(lines)[i].sys_path matches Some(p) ==> text::has_prefix(
                p,
                "/sys/"@,
            )),
    decreases lines.len(),
{
    if lines.len() > 0 {
        lemma_listed(lines.drop_last());
    }
}

/// No two devices of a list share a bus identifier.
pub proof fn offered_busids_are_distinct(s: Seq<char>, i: int, j: int)
    requires
        0 <= i < j < offered_devices(s).len(),
    ensures
        offered_devices(s)[i].busid != offered_devices(s)[j].busid,
{
    lemma_first_of_each(listed_devices(text::lines_of(s)));
}

/// Every offered device has a well-formed bus identifier, and its path, where
/// it has one, lies under `/sys/`.
pub proof fn offered_devices_are_well_formed(s: Seq<char>, i: int)
    requires
        0 <= i < offered_devices(s).len(),
    ensures
        is_busid(offered_devices(s)[i].busid),
        offered_devices(s)[i].sys_path matches Some(p) ==> text::has_prefix(p, "/sys/"@),
{
    let all = listed_devices(text::lines_of(s));
    lemma_listed(text::lines_of(s));
    lemma_first_of_each(all);
    assert(all.contains(offered_devices(s)[i]));
}

/// A bus identifier that is listed is offered under exactly that name: only
/// repetitions are left out.
pub proof fn every_listed_busid_is_offered(s: Seq<char>, i: int)
    requires
        0 <= i < listed_devices(text::lines_of(s)).len(),
    ensures
        exists|k: int|
            0 <= k < offered_devices(s).len() && (#[trigger] offered_devices(s)[k]).busid
                == listed_devices(text::lines_of(s))[i].busid,
{
    let all = listed_devices(text::lines_of(s));
    lemma_first_of_each(all);
    assert(has_busid(first_of_each(all), all[i].busid));
    let k = choose|k: int|
        0 <= k < first_of_each(all).len() && (#[trigger] first_of_each(all)[k]).busid
            == all[i].busid;
    assert(offered_devices(s)[k].busid == all[i].busid);
}

/// Line `n` begins the description of `d`.
pub open spec fn begins(lines: Seq<Seq<char>>, n: int, d: RemoteDeviceView) -> bool {
    0 <= n < lines.len() && header_of(text::trim_of(lines[n])) == Some(d)
}

/// The lines after line `n`, up to line `m`, begin no description.
pub open spec fn same_device(lines: Seq<Seq<char>>, n: int, m: int) -> bool {
    forall|j: int| n < j <= m ==> header_of(text::trim_of(#[trigger] lines[j])) is None
}

/// The last path that is given between line `n` and the next line that begins a
/// description, before line `end`.
pub open spec fn is_path(lines: Seq<Seq<char>>, n: int, end: int, p: Option<Seq<char>>) -> bool {
    match p {
        Some(path) => exists|m: int|
            #![trigger lines[m]]
            {
                &&& n < m < end
                &&& same_device(lines, n, m)
                &&& sys_path_of(text::trim_of(lines[m])) == Some(path)
                &&& forall|j: int|
                    m < j < end && same_device(lines, n, j) ==> sys_path_of(
                        text::trim_of(#[trigger] lines[j]),
                    ) is None
            },
        None => forall|j: int|
            n < j < end && same_device(lines, n, j) ==> sys_path_of(
                text::trim_of(#[trigger] lines[j]),
            ) is None,
    }
}

/// The lines that begin the descriptions of the first `end` lines.
spec fn starts(lines: Seq<Seq<char>>, end: int) -> Seq<int>
    decreases end,
{
    if end <= 0 {
        Seq::empty()
    } else if header_of(text::trim_of(lines[end - 1])) is Some {
        starts(lines, end - 1).push(end - 1)
    } else {
        starts(lines, end - 1)
    }
}

proof fn lemma_starts(lines: Seq<Seq<char>>, end: int)
    requires
        0 <= end <= lines.len(),
    ensures
        ({
            let at = starts(lines, end);
            let ds = listed_devices(lines.take(end));
            &&& at.len() == ds.len()
            &&& forall|i: int|
                0 <= i < at.len() ==> {
                    &&& 0 <= #[trigger] at[i] < end
                    &&& header_of(text::trim_of(lines[at[i]])) == Some(
                        RemoteDeviceView { sys_path: None, ..ds[i] },
                    )
                    &&& is_path(lines, at[i], end, ds[i].sys_path)
                }
            &&& forall|i: int, j: int| 0 <= i < j < at.len() ==> #[trigger] at[i] < #[trigger] at[j]
            &&& forall|n: int|
                0 <= n < end && header_of(text::trim_of(#[trigger] lines[n])) is Some
                    ==> at.contains(n)
            &&& at.len() > 0 ==> same_device(lines, at.last(), end - 1)
        }),
    decreases end,
{
    if end > 0 {
        let e = end - 1;
        lemma_starts(lines, e);
        lemma_listed_step(lines, e);
        let before = starts(lines, e);
        let at = starts(lines, end);
        let ds0 = listed_devices(lines.take(e));
        let ds = listed_devices(lines.take(end));
        let l = text::trim_of(lines[e]);
        assert forall|n: int|
            0 <= n < end && header_of(text::trim_of(#[trigger] lines[n])) is Some implies at.contains(
            n,
        ) by {
            if n < e {
                assert(before.contains(n));
                let k = choose|k: int| 0 <= k < before.len() && before[k] == n;
                assert(at[k] == n);
            } else {
                assert(at[at.len() - 1] == n);
            }
        }
        assert forall|i: int| 0 <= i < at.len() implies 0 <= #[trigger] at[i] < end && header_of(
            text::trim_of(lines[at[i]]),
        ) == Some(RemoteDeviceView { sys_path: None, ..ds[i] }) && is_path(
            lines,
            at[i],
            end,
            ds[i].sys_path,
        ) by {
            if i < before.len() {
                assert(at[i] == before[i]);
                lemma_header_without_path(text::trim_of(lines[at[i]]));
                if header_of(l) is None && i == before.len() - 1 && sys_path_of(l) is Some {
                    assert(same_device(lines, at[i], e));
                    assert(lines[e] == lines[e]);
                } else {
                    if i < before.len() - 1 {
                        assert(before[before.len() - 1] > before[i]);
                        let h = before[before.len() - 1];
                        assert(header_of(text::trim_of(lines[h])) is Some);
                        assert(!same_device(lines, at[i], e));
                    }
                    lemma_path_step(lines, at[i], e, ds[i].sys_path);
                }
            } else {
                assert(at[i] == e);
                lemma_header_without_path(l);
                assert(ds[i] == header_of(l)->0);
            }
        }
        if at.len() > 0 {
            assert forall|j: int| at.last() < j <= end - 1 implies header_of(
                text::trim_of(#[trigger] lines[j]),
            ) is None by {
                if header_of(l) is None {
                    assert(same_device(lines, before.last(), e - 1));
                }
            }
        }
    } else {
        assert(lines.take(end) =~= Seq::<Seq<char>>::empty());
    }
}

proof fn lemma_header_without_path(l: Seq<char>)
    ensures
        header_of(l) matches Some(d) ==> d.sys_path is None,
{
}

proof fn lemma_path_step(lines: Seq<Seq<char>>, n: int, e: int, p: Option<Seq<char>>)
    requires
        0 <= n < e < lines.len(),
        is_path(lines, n, e, p),
        same_device(lines, n, e) ==> sys_path_of(text::trim_of(lines[e])) is None,
    ensures
        is_path(lines, n, e + 1, p),
{
    if p is Some {
        let m = choose|m: int|
            #![trigger lines[m]]
            {
                &&& n < m < e
                &&& same_device(lines, n, m)
                &&& sys_path_of(text::trim_of(lines[m])) == p
                &&& forall|j: int|
                    m < j < e && same_device(lines, n, j) ==> sys_path_of(
                        text::trim_of(#[trigger] lines[j]),
                    ) is None
            };
        assert(lines[m] == lines[m]);
    }
}

/// Whatever a header line names is offered, under exactly the bus identifier
/// that the line has, character for character.
pub proof fn every_header_line_is_offered(s: Seq<char>, n: int, d: RemoteDeviceView)
    requires
        begins(text::lines_of(s), n, d),
    ensures
        exists|k: int|
            0 <= k < offered_devices(s).len() && (#[trigger] offered_devices(s)[k]).busid
                == d.busid,
{
    let lines = text::lines_of(s);
    let at = starts(lines, lines.len() as int);
    lemma_starts(lines, lines.len() as int);
    assert(lines.take(lines.len() as int) =~= lines);
    let all = listed_devices(lines);
    assert(at.contains(n));
    let i = choose|i: int| 0 <= i < at.len() && at[i] == n;
    assert(all[i].busid == d.busid);
    every_listed_busid_is_offered(s, i);
}

proof fn lemma_first_index(ds: Seq<RemoteDeviceView>, i: int) -> (m: int)
    requires
        0 <= i < first_of_each(ds).len(),
    ensures
        0 <= m < ds.len(),
        ds[m] == first_of_each(ds)[i],
        forall|j: int| 0 <= j < m ==> (#[trigger] ds[j]).busid != ds[m].busid,
    decreases ds.len(),
{
    let t = ds.drop_last();
    let before = first_of_each(t);
    if i < before.len() {
        let m = lemma_first_index(t, i);
        assert(ds[m] == t[m]);
        assert forall|j: int| 0 <= j < m implies (#[trigger] ds[j]).busid != ds[m].busid by {
            assert(t[j] == ds[j]);
        }
        m
    } else {
        lemma_first_of_each(t);
        assert forall|j: int| 0 <= j < t.len() implies (#[trigger] ds[j]).busid
            != ds.last().busid by {
            assert(t[j] == ds[j]);
            assert(has_busid(before, t[j].busid));
        }
        ds.len() - 1
    }
}

/// Every offered device is the one that the first header line with its bus
/// identifier describes, with the last path that is given before the next header
/// line.
pub proof fn every_offered_device_has_its_header_line(s: Seq<char>, i: int) -> (n: int)
    requires
        0 <= i < offered_devices(s).len(),
    ensures
        ({
            let lines = text::lines_of(s);
            let d = offered_devices(s)[i];
            &&& 0 <= n < lines.len()
            &&& header_of(text::trim_of(lines[n])) matches Some(h) && h.busid == d.busid && h.desc
                == d.desc && h.vidpid == d.vidpid
            &&& is_path(lines, n, lines.len() as int, d.sys_path)
            &&& forall|j: int, e: RemoteDeviceView| #[trigger]
                begins(lines, j, e) && j < n ==> e.busid != d.busid
        }),
{
    let lines = text::lines_of(s);
    let at = starts(lines, lines.len() as int);
    lemma_starts(lines, lines.len() as int);
    assert(lines.take(lines.len() as int) =~= lines);
    let all = listed_devices(lines);
    let m = lemma_first_index(all, i);
    let n = at[m];
    assert forall|j: int, e: RemoteDeviceView| #[trigger]
        begins(lines, j, e) && j < n implies e.busid != all[m].busid by {
        assert(at.contains(j));
        let k = choose|k: int| 0 <= k < at.len() && at[k] == j;
        assert(all[k].busid == e.busid);
        if m < k {
            assert(at[m] < at[k]);
        }
    }
    n
}

/// The devices are offered in the order of their header lines.
pub proof fn devices_are_offered_in_order(
    s: Seq<char>,
    i: int,
    j: int,
    n: int,
    m: int,
    d: RemoteDeviceView,
    e: RemoteDeviceView,
)
    requires
        0 <= i < j < offered_devices(s).len(),
        begins(text::lines_of(s), n, d),
        begins(text::lines_of(s), m, e),
        d.busid == offered_devices(s)[i].busid,
        e.busid == offered_devices(s)[j].busid,
        forall|k: int, f: RemoteDeviceView| #[trigger]
            begins(text::lines_of(s), k, f) && k < n ==> f.busid != d.busid,
    ensures
        n < m,
{
    let lines = text::lines_of(s);
    let at = starts(lines, lines.len() as int);
    lemma_starts(lines, lines.len() as int);
    assert(lines.take(lines.len() as int) =~= lines);
    let all = listed_devices(lines);
    let p = lemma_first_index(all, i);
    let q = lemma_first_index(all, j);
    lemma_first_indices_grow(all, i, j, p, q);
    assert(at.contains(n));
    assert(at.contains(m));
    let a = choose|a: int| 0 <= a < at.len() && at[a] == n;
    let b = choose|b: int| 0 <= b < at.len() && at[b] == m;
    assert(all[a].busid == d.busid);
    assert(all[b].busid == e.busid);
    assert(begins(lines, at[p], RemoteDeviceView { sys_path: None, ..all[p] }));
    if p < a {
        assert(at[p] < at[a]);
    }
    assert(a == p);
    assert(q <= b);
    assert(at[a] < at[b]);
}

proof fn lemma_first_indices_grow(ds: Seq<RemoteDeviceView>, i: int, j: int, p: int, q: int)
    requires
        0 <= i < j < first_of_each(ds).len(),
        0 <= p < ds.len(),
        0 <= q < ds.len(),
        ds[p].busid == first_of_each(ds)[i].busid,
        ds[q].busid == first_of_each(ds)[j].busid,
        forall|k: int| 0 <= k < p ==> (#[trigger] ds[k]).busid != ds[p].busid,
        forall|k: int| 0 <= k < q ==> (#[trigger] ds[k]).busid != ds[q].busid,
    ensures
        p < q,
    decreases ds.len(),
{
    lemma_first_of_each(ds);
    let t = ds.drop_last();
    let before = first_of_each(t);
    if j < before.len() {
        let p0 = lemma_first_index(t, i);
        let q0 = lemma_first_index(t, j);
        assert(ds[p0] == t[p0] && ds[q0] == t[q0]);
        assert(p <= p0 && q <= q0);
        assert(t[p] == ds[p] && t[q] == ds[q]);
        assert forall|k: int| 0 <= k < p implies (#[trigger] t[k]).busid != t[p].busid by {
            assert(t[k] == ds[k]);
        }
        assert forall|k: int| 0 <= k < q implies (#[trigger] t[k]).busid != t[q].busid by {
            assert(t[k] == ds[k]);
        }
        lemma_first_indices_grow(t, i, j, p, q);
    } else {
        let p0 = lemma_first_index(t, i);
        assert(ds[p0] == t[p0]);
        assert(p <= p0);
        if q < t.len() {
            lemma_first_of_each(t);
            assert(t[q] == ds[q]);
            assert(has_busid(before, t[q].busid));
        }
    }
}

/// A bus identifier is one or more ASCII letters, ASCII digits, dashes and
/// points, and any such text is one.
pub proof fn busids_are_letters_digits_dashes_and_points(s: Seq<char>)
    ensures
        is_busid(s) <==> s.len() > 0 && forall|i: int|
            0 <= i < s.len() ==> {
                ||| 'a' <= #[trigger] s[i] <= 'z'
                ||| 'A' <= s[i] <= 'Z'
                ||| '0' <= s[i] <= '9'
                ||| s[i] == '-'
                ||| s[i] == '.'
            },
{
    if forall|i: int|
        0 <= i < s.len() ==> {
            ||| 'a' <= #[trigger] s[i] <= 'z'
            ||| 'A' <= s[i] <= 'Z'
            ||| '0' <= s[i] <= '9'
            ||| s[i] == '-'
            ||| s[i] == '.'
        } {
        assert forall|i: int| 0 <= i < s.len() implies is_alnum(#[trigger] s[i]) || s[i] == '-'
            || s[i] == '.' by {
            assert(s[i] == s[i]);
        }
    }
}

/// A vendor and product is four hexadecimal digits of either case, a colon and
/// four such digits, and any such text is one.
pub proof fn vendor_and_product_are_four_digits_each(a: Seq<char>, b: Seq<char>)
    requires
        a.len() == 4,
        b.len() == 4,
    ensures
        is_vidpid(a + seq![':'] + b) <==> {
            &&& forall|i: int|
                0 <= i < 4 ==> '0' <= #[trigger] a[i] <= '9' || 'a' <= a[i] <= 'f' || 'A' <= a[i]
                    <= 'F'
            &&& forall|i: int|
                0 <= i < 4 ==> '0' <= #[trigger] b[i] <= '9' || 'a' <= b[i] <= 'f' || 'A' <= b[i]
                    <= 'F'
        },
{
    let s = a + seq![':'] + b;
    if is_vidpid(s) {
        assert forall|i: int| 0 <= i < 4 implies is_hex(#[trigger] a[i]) by {
            assert(s[i] == a[i]);
        }
        assert forall|i: int| 0 <= i < 4 implies is_hex(#[trigger] b[i]) by {
            assert(s[i + 5] == b[i]);
        }
    }
    if (forall|i: int|
        0 <= i < 4 ==> '0' <= #[trigger] a[i] <= '9' || 'a' <= a[i] <= 'f' || 'A' <= a[i] <= 'F')
        && (forall|i: int|
        0 <= i < 4 ==> '0' <= #[trigger] b[i] <= '9' || 'a' <= b[i] <= 'f' || 'A' <= b[i] <= 'F') {
        assert forall|i: int| 0 <= i < 9 && i != 4 implies is_hex(#[trigger] s[i]) by {
            if i < 4 {
                assert(s[i] == a[i]);
            } else {
                assert(s[i] == b[i - 5]);
            }
        }
    }
}

/// A line `busid B` names `B`, whatever follows it, and tells nothing else of
/// the device.
pub proof fn a_busid_line_is_a_header(busid: Seq<char>, rest: Seq<char>)
    requires
        busid.len() > 0,
        forall|i: int| 0 <= i < busid.len() ==> !text::is_ws(#[trigger] busid[i]),
        rest.len() > 0 ==> text::is_ws(rest[0]),
    ensures
        match header_of("busid "@ + busid + rest) {
            Some(d) => is_busid(busid) && d.busid == busid && d.desc.len() == 0 && d.vidpid is None
                && d.sys_path is None,
            None => !is_busid(busid),
        },
{
    let l = "busid "@ + busid + rest;
    let n = "busid "@.len() as int;
    assert(l.take(n) =~= "busid "@);
    assert(l.skip(n) =~= Seq::<char>::empty() + busid + rest);
    text::words_are_split_at_white_space(Seq::empty(), busid, rest);
}

/// A line `B: text`, with `- ` in front or without, names what stands before
/// the colon, if that is a bus identifier once it is trimmed, and nothing
/// otherwise. A vendor and product in brackets at the end of the text is told
/// apart from what the device is; any other text tells what the device is.
pub proof fn a_colon_line_is_a_header(
    dash: bool,
    before: Seq<char>,
    rest: Seq<char>,
    desc: Seq<char>,
    vidpid: Seq<char>,
)
    requires
        !before.contains(':'),
        !text::has_prefix(before + seq![':'] + rest, "busid "@),
        !text::has_prefix(before + seq![':'] + rest, "- "@),
    ensures
        ({
            let l = (if dash {
                "- "@
            } else {
                Seq::empty()
            }) + before + seq![':'] + rest;
            match header_of(l) {
                Some(d) => {
                    &&& is_busid(text::trim_of(before))
                    &&& d.busid == text::trim_of(before)
                    &&& d.sys_path is None
                    &&& is_vidpid(vidpid) && text::trim_of(rest) == desc + "("@ + vidpid + ")"@
                        ==> d.desc == text::trim_of(desc) && d.vidpid == Some(
                        text::ascii_lower_of(vidpid),
                    )
                    &&& d.vidpid is None ==> d.desc == text::trim_of(rest)
                    &&& d.vidpid is Some ==> exists|a: Seq<char>, b: Seq<char>|
                        is_vidpid(b) && text::trim_of(rest) == #[trigger] (a + "("@ + b + ")"@)
                },
                None => !is_busid(text::trim_of(before)),
            }
        }),
{
    reveal_strlit("- ");
    reveal_strlit("busid ");
    reveal_strlit("(");
    reveal_strlit(")");
    let m = before + seq![':'] + rest;
    let l = (if dash {
        "- "@
    } else {
        Seq::empty()
    }) + before + seq![':'] + rest;
    let b = before.len() as int;
    assert(without_dash(l) == m && !text::has_prefix(l, "busid "@)) by {
        if dash {
            assert(l.take(2) =~= "- "@);
            assert(l.skip(2) =~= m);
            assert(l[0] == '-');
            if text::has_prefix(l, "busid "@) {
                assert(l.take(6)[0] == 'b');
            }
        } else {
            assert(l =~= m);
        }
    }
    text::lemma_position_bounds(before, ':');
    assert forall|j: int| 0 <= j < b implies m[j] != ':' by {
        assert(m[j] == before[j]);
    }
    assert(m[b] == ':');
    text::lemma_position(m, ':', b);
    assert(m.take(b) =~= before);
    assert(m.skip(b + 1) =~= rest);
    let t = text::trim_of(rest);
    if is_vidpid(vidpid) && t == desc + "("@ + vidpid + ")"@ {
        let d = desc.len() as int;
        assert(t[d] == '(');
        assert(t.last() == ')');
        assert forall|j: int| d < j < t.len() implies t[j] != '(' by {
            if j < d + 10 {
                assert(t[j] == vidpid[j - d - 1]);
                if j - d - 1 != 4 {
                    assert(is_hex(vidpid[j - d - 1]));
                }
            }
        }
        text::lemma_last_position(t, '(', d);
        assert(t.subrange(d + 1, t.len() - 1) =~= vidpid);
        assert(t.take(d) =~= desc);
    }
    let k = vidpid_start(t);
    if k >= 0 {
        lemma_last_position_holds(t, '(');
        let v = t.subrange(k, t.len() - 1);
        assert(t =~= t.take(k - 1) + "("@ + v + ")"@);
    }
}

proof fn lemma_last_position_holds(s: Seq<char>, c: char)
    ensures
        -1 <= text::last_position_of(s, c) < s.len(),
        text::last_position_of(s, c) >= 0 ==> s[text::last_position_of(s, c)] == c,
    decreases s.len(),
{
    if s.len() > 0 && s.last() != c {
        lemma_last_position_holds(s.drop_last(), c);
    }
}

/// A line without a colon that does not begin with `busid ` is no header line.
pub proof fn other_lines_are_no_headers(l: Seq<char>)
    requires
        !l.contains(':'),
        !text::has_prefix(l, "busid "@),
    ensures
        header_of(l) is None,
{
    let m = without_dash(l);
    text::lemma_position_bounds(m, ':');
    if m.contains(':') {
        let i = choose|i: int| 0 <= i < m.len() && m[i] == ':';
        if text::has_prefix(l, "- "@) {
            assert(l[i + "- "@.len()] == ':');
        }
    }
}

/// A line gives a path exactly if it is a colon, a blank and a text that begins
/// with `/sys/`, and that text is the path.
pub proof fn a_path_line_gives_its_path(l: Seq<char>, rest: Seq<char>)
    ensures
        sys_path_of(": "@ + "/sys/"@ + rest) == Some("/sys/"@ + rest),
        sys_path_of(l) matches Some(p) ==> l == ": "@ + p && text::has_prefix(p, "/sys/"@),
{
    let k = ": "@ + "/sys/"@ + rest;
    let n = ": "@.len() as int;
    assert(k.take(n) =~= ": "@);
    assert(k.skip(n) =~= "/sys/"@ + rest);
    assert(("/sys/"@ + rest).take("/sys/"@.len() as int) =~= "/sys/"@);
    if sys_path_of(l) is Some {
        assert(l =~= ": "@ + l.skip(n));
    }
}

/// What a contract says of a device, it says of its fields.
pub proof fn device_views_show_the_fields(v: Seq<RemoteDevice>, i: int)
    requires
        0 <= i < v.len(),
    ensures
        device_views(v).len() == v.len(),
        device_views(v)[i].busid == v[i].busid@,
        device_views(v)[i].desc == v[i].desc@,
        device_views(v)[i].vidpid == text::opt_text(v[i].vidpid),
        device_views(v)[i].sys_path == text::opt_text(v[i].sys_path),
{
}

/// The line that `usbip list -r` prints for a device.
pub open spec fn header_line(busid: Seq<char>, desc: Seq<char>, vidpid: Seq<char>) -> Seq<char> {
    busid + ": "@ + desc + " ("@ + vidpid + ")"@
}

/// The line that is printed for a device reads back as that device: its bus
/// identifier, what it is, and its vendor and product in lower case.
pub proof fn header_line_reads_back(busid: Seq<char>, desc: Seq<char>, vidpid: Seq<char>)
    requires
        is_busid(busid),
        desc.len() > 0,
        !text::is_ws(desc[0]),
        !text::is_ws(desc.last()),
        is_vidpid(vidpid),
    ensures
        header_of(header_line(busid, desc, vidpid)) == Some(
            RemoteDeviceView {
                busid,
                desc,
                vidpid: Some(text::ascii_lower_of(vidpid)),
                sys_path: None,
            },
        ),
{
    reveal_strlit(": ");
    reveal_strlit(" (");
    reveal_strlit(")");
    reveal_strlit("- ");
    reveal_strlit("busid ");
    let l = header_line(busid, desc, vidpid);
    let b = busid.len() as int;
    let d = desc.len() as int;
    assert(l.len() == b + 2 + d + 2 + 9 + 1);
    assert(l[b] == ':');
    assert forall|i: int| 0 <= i < b implies is_alnum(#[trigger] l[i]) || l[i] == '-' || l[i]
        == '.' by {
        assert(l[i] == busid[i]);
    }
    assert(!text::has_prefix(l, "busid "@)) by {
        if text::has_prefix(l, "busid "@) {
            assert(l.take(6)[5] == ' ');
            assert(l[5] == ' ');
            assert(b <= 5);
            assert(l.take(6)[b] == ':');
        }
    }
    assert(!text::has_prefix(l, "- "@)) by {
        if text::has_prefix(l, "- "@) {
            assert(l.take(2)[1] == ' ');
            assert(l[1] == ' ');
            assert(b == 1);
        }
    }
    text::lemma_position(l, ':', b);
    assert(l.take(b) =~= busid);
    text::lemma_trim_of_trimmed(busid);
    let after = l.skip(b + 1);
    let rest = desc + " ("@ + vidpid + ")"@;
    assert(after =~= seq![' '] + rest);
    assert(text::is_ws(after[0]));
    assert(after.drop_first() =~= rest);
    assert(rest[0] == desc[0]);
    assert(rest.last() == ')');
    text::lemma_trim_of_trimmed(rest);
    assert(text::trim_start_of(after) == rest);
    assert(text::trim_of(after) == rest);
    assert(rest[d + 1] == '(');
    assert forall|j: int| d + 1 < j < rest.len() implies rest[j] != '(' by {
        if j < d + 11 {
            assert(rest[j] == vidpid[j - d - 2]);
            if j - d - 2 != 4 {
                assert(is_hex(vidpid[j - d - 2]));
            }
        }
    }
    text::lemma_last_position(rest, '(', d + 1);
    assert(rest.subrange(d + 2, rest.len() - 1) =~= vidpid);
    assert(rest.take(d + 1) =~= desc + seq![' ']);
    let head = rest.take(d + 1);
    assert(head.last() == ' ');
    assert(head.drop_last() =~= desc);
    assert(head[0] == desc[0]);
    assert(text::trim_start_of(head) == head);
    assert(text::trim_end_of(desc) == desc);
    assert(text::trim_of(head) == desc);
}

} // verus!
