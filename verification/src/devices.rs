//! Device listings: the JSON document that the device manager prints, and
//! the questions asked of it.
//!
//! A listing is an object whose member `devices` maps each runtime to an
//! array of device objects with the members `name`, `udid`, `state` and
//! `isAvailable`.

use vstd::prelude::*;
use crate::json::{
    flag_of, lemma_view_of_collections, member, parse_json, parsed_document, text_of, Json,
    JsonView,
};
use crate::search::{first_where, lemma_first_where_is};
use crate::order::{
    lemma_text_before_total, lemma_text_before_transitive, precedes, text_before,
};
use crate::text::{chars_of, remove_all, same_text, string_of, without};

verus! {

/// The devices of a runtime, each paired with the runtime's name: the items
/// of `list` in order, or nothing where `list` is no array.
pub open spec fn devices_of_runtime(runtime: Seq<char>, list: JsonView) -> Seq<
    (Seq<char>, JsonView),
> {
    match list {
        JsonView::Array(devices) => Seq::new(devices.len(), |i: int| (runtime, devices[i])),
        _ => Seq::empty(),
    }
}

/// The devices of all `runtimes`, in order.
pub open spec fn devices_of_runtimes(runtimes: Seq<(Seq<char>, JsonView)>) -> Seq<
    (Seq<char>, JsonView),
>
    decreases runtimes.len(),
{
    if runtimes.len() == 0 {
        Seq::empty()
    } else {
        devices_of_runtimes(runtimes.drop_last()) + devices_of_runtime(
            runtimes.last().0,
            runtimes.last().1,
        )
    }
}

/// Every device of the listing `doc` with the name of its runtime, in the
/// order of the document. A document without an object `devices` lists none.
pub open spec fn listed_devices(doc: JsonView) -> Seq<(Seq<char>, JsonView)> {
    match member(doc, "devices"@) {
        JsonView::Object(runtimes) => devices_of_runtimes(runtimes),
        _ => Seq::empty(),
    }
}

/// The views of a list of devices paired with runtime names.
pub open spec fn pair_views(v: Seq<(&str, &Json)>) -> Seq<(Seq<char>, JsonView)> {
    Seq::new(v.len(), |i: int| (v[i].0@, v[i].1@))
}

/// Lists every device of `doc` with the name of its runtime.
pub fn devices<'a>(doc: &'a Json) -> (out: Vec<(&'a str, &'a Json)>)
    ensures
        pair_views(out@) == listed_devices(doc@),
{
    let mut out: Vec<(&'a str, &'a Json)> = Vec::new();
    match doc.get("devices") {
        Some(Json::Object(runtimes)) => {
            let ghost all = member(doc@, "devices"@)->Object_0;
            proof {
                lemma_view_of_collections(Json::Object(*runtimes));
                assert(all.take(0) == Seq::<(Seq<char>, JsonView)>::empty());
            }
            let mut i: usize = 0;
            while i < runtimes.len()
                invariant
                    i <= runtimes.len(),
                    all.len() == runtimes.len(),
                    forall|k: int|
                        0 <= k < all.len() ==> #[trigger] all[k] == (runtimes[k].0@, runtimes[k].1@),
                    pair_views(out@) == devices_of_runtimes(all.take(i as int)),
                decreases runtimes.len() - i,
            {
                let runtime: &'a str = runtimes[i].0.as_str();
                let ghost before = pair_views(out@);
                let ghost these = devices_of_runtime(all[i as int].0, all[i as int].1);
                proof {
                    let t = all.take(i + 1);
                    assert(t.drop_last() == all.take(i as int));
                    assert(t.last() == all[i as int]);
                }
                match &runtimes[i].1 {
                    Json::Array(list) => {
                        proof {
                            lemma_view_of_collections(Json::Array(*list));
                            assert(before + these.take(0) == before);
                        }
                        let mut k: usize = 0;
                        while k < list.len()
                            invariant
                                k <= list.len(),
                                runtime@ == all[i as int].0,
                                these.len() == list.len(),
                                forall|n: int|
                                    0 <= n < these.len() ==> #[trigger] these[n] == (
                                        runtime@,
                                        list[n]@,
                                    ),
                                pair_views(out@) == before + these.take(k as int),
                            decreases list.len() - k,
                        {
                            let ghost so_far = pair_views(out@);
                            out.push((runtime, &list[k]));
                            proof {
                                assert(pair_views(out@) == so_far.push((runtime@, list[k as int]@)));
                                assert(these.take(k + 1) == these.take(k as int).push(
                                    these[k as int],
                                ));
                                assert(pair_views(out@) == before + these.take(k + 1));
                            }
                            k += 1;
                        }
                        proof {
                            assert(these.take(list.len() as int) == these);
                        }
                    },
                    _ => {
                        proof {
                            assert(before + these == before);
                        }
                    },
                }
                i += 1;
            }
            proof {
                assert(all.take(runtimes.len() as int) == all);
            }
        },
        _ => {},
    }
    out
}

/// A simulated device, as the device manager lists it.
#[derive(Clone, Debug)]
pub struct Simulator {
    pub name: String,
    pub udid: String,
    pub state: String,
    pub runtime: String,
}

/// The mathematical value of a `Simulator`.
pub struct SimulatorView {
    pub name: Seq<char>,
    pub udid: Seq<char>,
    pub state: Seq<char>,
    pub runtime: Seq<char>,
}

impl View for Simulator {
    type V = SimulatorView;

    open spec fn view(&self) -> SimulatorView {
        SimulatorView {
            name: self.name@,
            udid: self.udid@,
            state: self.state@,
            runtime: self.runtime@,
        }
    }
}

impl DeepView for Simulator {
    type V = SimulatorView;

    open spec fn deep_view(&self) -> SimulatorView {
        self@
    }
}

/// What every runtime name starts with; it is left out of what is shown.
pub open spec fn runtime_prefix() -> Seq<char> {
    "com.apple.CoreSimulator.SimRuntime."@
}

/// The text that `j` is, or `fallback` where `j` is no string.
pub open spec fn text_or(j: JsonView, fallback: Seq<char>) -> Seq<char> {
    match text_of(j) {
        Some(s) => s,
        None => fallback,
    }
}

/// The record of the device `d` of `runtime`. A name or state that is
/// missing reads as `unknown`, a missing identifier as the empty text.
pub open spec fn described(runtime: Seq<char>, d: JsonView, unknown: Seq<char>) -> SimulatorView {
    SimulatorView {
        name: text_or(member(d, "name"@), unknown),
        udid: text_or(member(d, "udid"@), Seq::empty()),
        state: text_or(member(d, "state"@), unknown),
        runtime: without(runtime, runtime_prefix()),
    }
}

/// The text of the member `key` of `d`, or `fallback`.
fn text_member_or(d: &Json, key: &str, fallback: &str) -> (s: String)
    ensures
        s@ == text_or(member(d@, key@), fallback@),
{
    match d.get(key) {
        Some(x) => match x.as_str() {
            Some(t) => t.to_owned(),
            None => fallback.to_owned(),
        },
        None => fallback.to_owned(),
    }
}

/// Describes the device `d` of `runtime`.
fn describe(runtime: &str, d: &Json, unknown: &str) -> (s: Simulator)
    ensures
        s@ == described(runtime@, d@, unknown@),
{
    let prefix: Vec<char> = chars_of("com.apple.CoreSimulator.SimRuntime.");
    let full: Vec<char> = chars_of(runtime);
    let short: Vec<char> = remove_all(full.as_slice(), prefix.as_slice());
    proof {
        reveal_strlit("");
        assert(""@ == Seq::<char>::empty());
    }
    Simulator {
        name: text_member_or(d, "name", unknown),
        udid: text_member_or(d, "udid", ""),
        state: text_member_or(d, "state", unknown),
        runtime: string_of(short.as_slice()),
    }
}

/// Whether the device `d` is called `name` and has an identifier.
pub open spec fn answers_to(d: JsonView, name: Seq<char>) -> bool {
    text_of(member(d, "name"@)) == Some(name) && text_of(member(d, "udid"@)) is Some
}

/// Index of the first of `devices` that answers to `name`, or their number
/// if none does.
pub open spec fn first_answering(devices: Seq<(Seq<char>, JsonView)>, name: Seq<char>) -> int {
    first_where(devices, |d: (Seq<char>, JsonView)| answers_to(d.1, name))
}

/// The identifier of the first device of the listing `doc` that is called
/// `name` and has an identifier.
pub open spec fn udid_of(doc: JsonView, name: Seq<char>) -> Option<Seq<char>> {
    let devices = listed_devices(doc);
    let i = first_answering(devices, name);
    if 0 <= i < devices.len() {
        text_of(member(devices[i].1, "udid"@))
    } else {
        None
    }
}

/// Looks up the identifier of the device called `name` in the listing `doc`.
pub fn find_udid(doc: &Json, name: &str) -> (r: Option<String>)
    ensures
        match r {
            Some(u) => udid_of(doc@, name@) == Some(u@),
            None => udid_of(doc@, name@) is None,
        },
{
    let all: Vec<(&str, &Json)> = devices(doc);
    let mut i: usize = 0;
    while i < all.len()
        invariant
            i <= all.len(),
            pair_views(all@) == listed_devices(doc@),
            forall|j: int| 0 <= j < i ==> !answers_to((#[trigger] pair_views(all@)[j]).1, name@),
        decreases all.len() - i,
    {
        let d: &Json = all[i].1;
        assert(pair_views(all@)[i as int].1 == d@);
        let named: bool = match d.get("name") {
            Some(n) => match n.as_str() {
                Some(t) => same_text(t, name),
                None => false,
            },
            None => false,
        };
        if named {
            match d.get("udid") {
                Some(u) => match u.as_str() {
                    Some(t) => {
                        proof {
                            lemma_first_where_is(
                                pair_views(all@),
                                |d: (Seq<char>, JsonView)| answers_to(d.1, name@),
                                i as int,
                            );
                        }
                        return Some(t.to_owned());
                    },
                    None => {},
                },
                None => {},
            }
        }
        i += 1;
    }
    proof {
        lemma_first_where_is(
            pair_views(all@),
            |d: (Seq<char>, JsonView)| answers_to(d.1, name@),
            all.len() as int,
        );
    }
    None
}

/// Failure to resolve a device selector.
#[derive(Debug)]
pub enum DeviceError {
    /// The listing is not a JSON document.
    InvalidListing,
    /// No device of the listing has the requested name and an identifier.
    DeviceNotFound(String),
}

/// The identifier by which the device manager addresses the device that is
/// running now.
pub open spec fn booted_selector() -> Seq<char> {
    "booted"@
}

/// Resolves a device selector to a device identifier. Without a name the
/// answer is `booted`, whatever `listing` holds. With a name it is the
/// identifier of the first device of that name in `listing`, the JSON
/// document that the device manager printed.
pub fn get_simulator_udid(simulator: Option<&str>, listing: &[u8]) -> (r: Result<
    String,
    DeviceError,
>)
    ensures
        match simulator {
            None => r matches Ok(u) && u@ == booted_selector(),
            Some(name) => match parsed_document(listing@) {
                None => r matches Err(DeviceError::InvalidListing),
                Some(doc) => match udid_of(doc, name@) {
                    Some(udid) => r matches Ok(u) && u@ == udid,
                    None => r matches Err(DeviceError::DeviceNotFound(n)) && n@ == name@,
                },
            },
        },
{
    match simulator {
        None => Ok("booted".to_owned()),
        Some(name) => match parse_json(listing) {
            Err(_) => Err(DeviceError::InvalidListing),
            Ok(doc) => match find_udid(&doc, name) {
                Some(u) => Ok(u),
                None => Err(DeviceError::DeviceNotFound(name.to_owned())),
            },
        },
    }
}

/// Whether the device `d` can be used.
pub open spec fn available(d: JsonView) -> bool {
    flag_of(member(d, "isAvailable"@)) == Some(true)
}

/// The records of the available devices among `devices`, in order.
pub open spec fn available_simulators(devices: Seq<(Seq<char>, JsonView)>) -> Seq<SimulatorView>
    decreases devices.len(),
{
    if devices.len() == 0 {
        Seq::empty()
    } else {
        let init = available_simulators(devices.drop_last());
        if available(devices.last().1) {
            init.push(described(devices.last().0, devices.last().1, "Unknown"@))
        } else {
            init
        }
    }
}

/// Whether the simulator is running.
pub open spec fn booted(s: SimulatorView) -> bool {
    s.state == "Booted"@
}

/// Whether `a` must stand before `b` in a list of simulators: a running
/// simulator before one that is not, and otherwise by name in dictionary
/// order.
pub open spec fn listed_before(a: SimulatorView, b: SimulatorView) -> bool {
    if booted(a) != booted(b) {
        booted(a)
    } else {
        text_before(a.name, b.name)
    }
}

/// `sorted` with `x` put behind the last element that need not stand behind
/// it.
pub open spec fn inserted(sorted: Seq<SimulatorView>, x: SimulatorView) -> Seq<SimulatorView>
    decreases sorted.len(),
{
    if sorted.len() > 0 && listed_before(x, sorted.last()) {
        inserted(sorted.drop_last(), x).push(sorted.last())
    } else {
        sorted.push(x)
    }
}

/// The simulators of `s` in listing order. Simulators of which neither must
/// stand before the other keep the order they have in `s`.
pub open spec fn in_listing_order(s: Seq<SimulatorView>) -> Seq<SimulatorView>
    decreases s.len(),
{
    if s.len() == 0 {
        Seq::empty()
    } else {
        inserted(in_listing_order(s.drop_last()), s.last())
    }
}

/// Whether no element of `s` stands behind one that it must stand before.
pub open spec fn ordered(s: Seq<SimulatorView>) -> bool {
    forall|i: int, j: int| 0 <= i < j < s.len() ==> !listed_before(s[j], s[i])
}

/// The list of simulators that the listing `doc` gives: its available
/// devices, in listing order.
pub open spec fn simulators_spec(doc: JsonView) -> Seq<SimulatorView> {
    in_listing_order(available_simulators(listed_devices(doc)))
}

/// Whether `a` must stand before `b`.
fn stands_before(a: &Simulator, b: &Simulator) -> (r: bool)
    ensures
        r == listed_before(a@, b@),
{
    let a_booted: bool = same_text(a.state.as_str(), "Booted");
    let b_booted: bool = same_text(b.state.as_str(), "Booted");
    if a_booted != b_booted {
        a_booted
    } else {
        let x: Vec<char> = chars_of(a.name.as_str());
        let y: Vec<char> = chars_of(b.name.as_str());
        precedes(x.as_slice(), y.as_slice())
    }
}

/// Puts `x` into the ordered list `sorted`.
fn insert_in_order(sorted: &mut Vec<Simulator>, x: Simulator)
    ensures
        final(sorted).deep_view() == inserted(old(sorted).deep_view(), x@),
{
    let ghost before = sorted.deep_view();
    let mut at: usize = sorted.len();
    proof {
        assert(before.take(at as int) == before);
        assert(before.skip(at as int) == Seq::<SimulatorView>::empty());
        assert(inserted(before, x@) + Seq::<SimulatorView>::empty() == inserted(before, x@));
    }
    while at > 0 && stands_before(&x, &sorted[at - 1])
        invariant
            at <= sorted.len(),
            before == sorted.deep_view(),
            inserted(before, x@) == inserted(before.take(at as int), x@) + before.skip(at as int),
        decreases at,
    {
        proof {
            let t = before.take(at as int);
            assert(t.last() == sorted[at - 1]@);
            assert(t.drop_last() == before.take(at - 1));
            assert(before.skip(at - 1) == seq![t.last()] + before.skip(at as int));
            assert(inserted(t.drop_last(), x@).push(t.last()) + before.skip(at as int) == inserted(
                t.drop_last(),
                x@,
            ) + before.skip(at - 1));
        }
        at -= 1;
    }
    proof {
        let t = before.take(at as int);
        if at > 0 {
            assert(t.last() == sorted[at - 1]@);
        }
        assert(inserted(t, x@) == t.push(x@));
    }
    sorted.insert(at, x);
    proof {
        assert(sorted.deep_view() == before.take(at as int).push(x@) + before.skip(at as int));
    }
}

/// The simulators that the listing `doc` gives: one record for each
/// available device, running simulators first and then by name.
pub fn simulators(doc: &Json) -> (out: Vec<Simulator>)
    ensures
        out.deep_view() == simulators_spec(doc@),
{
    let all: Vec<(&str, &Json)> = devices(doc);
    let mut out: Vec<Simulator> = Vec::new();
    let mut i: usize = 0;
    let ghost listed = pair_views(all@);
    proof {
        assert(listed.take(0) == Seq::<(Seq<char>, JsonView)>::empty());
    }
    while i < all.len()
        invariant
            i <= all.len(),
            listed == pair_views(all@),
            out.deep_view() == in_listing_order(available_simulators(listed.take(i as int))),
        decreases all.len() - i,
    {
        let d: &Json = all[i].1;
        proof {
            let t = listed.take(i + 1);
            assert(t.drop_last() == listed.take(i as int));
            assert(t.last() == (all[i as int].0@, d@));
        }
        let usable: bool = match d.get("isAvailable") {
            Some(flag) => match flag.as_bool() {
                Some(b) => b,
                None => false,
            },
            None => false,
        };
        if usable {
            let record: Simulator = describe(all[i].0, d, "Unknown");
            proof {
                let kept = available_simulators(listed.take(i as int));
                assert(kept.push(record@).drop_last() == kept);
            }
            insert_in_order(&mut out, record);
        }
        i += 1;
    }
    proof {
        assert(listed.take(all.len() as int) == listed);
    }
    out
}

/// Lists the simulators of `listing`, the JSON document that the device
/// manager printed.
pub fn list_devices(listing: &[u8]) -> (r: Result<Vec<Simulator>, DeviceError>)
    ensures
        match parsed_document(listing@) {
            Some(doc) => r matches Ok(v) && v.deep_view() == simulators_spec(doc),
            None => r matches Err(DeviceError::InvalidListing),
        },
{
    match parse_json(listing) {
        Ok(doc) => Ok(simulators(&doc)),
        Err(_) => Err(DeviceError::InvalidListing),
    }
}

/// Whether `udid` selects the device `d`: it is the identifier of `d`, or it
/// is `booted` and `d` is running.
pub open spec fn selected_by(d: JsonView, udid: Seq<char>) -> bool {
    ||| text_or(member(d, "udid"@), Seq::empty()) == udid
    ||| (udid == booted_selector() && text_of(member(d, "state"@)) == Some("Booted"@))
}

/// The record of the first device of the listing `doc` that `udid` selects.
/// Here a missing name or state reads as `unknown`.
pub open spec fn system_info_spec(doc: JsonView, udid: Seq<char>) -> Option<SimulatorView> {
    let devices = listed_devices(doc);
    let i = first_where(devices, |d: (Seq<char>, JsonView)| selected_by(d.1, udid));
    if 0 <= i < devices.len() {
        Some(described(devices[i].0, devices[i].1, "unknown"@))
    } else {
        None
    }
}

/// Describes the device of the listing `doc` that `udid` selects.
pub fn system_info(doc: &Json, udid: &str) -> (r: Option<Simulator>)
    ensures
        match r {
            Some(s) => system_info_spec(doc@, udid@) == Some(s@),
            None => system_info_spec(doc@, udid@) is None,
        },
{
    let all: Vec<(&str, &Json)> = devices(doc);
    let any_booted: bool = same_text(udid, "booted");
    let mut i: usize = 0;
    while i < all.len()
        invariant
            i <= all.len(),
            any_booted == (udid@ == booted_selector()),
            pair_views(all@) == listed_devices(doc@),
            forall|j: int| 0 <= j < i ==> !selected_by((#[trigger] pair_views(all@)[j]).1, udid@),
        decreases all.len() - i,
    {
        let d: &Json = all[i].1;
        assert(pair_views(all@)[i as int] == (all[i as int].0@, d@));
        let own: String = text_member_or(d, "udid", "");
        let running: bool = match d.get("state") {
            Some(x) => match x.as_str() {
                Some(t) => same_text(t, "Booted"),
                None => false,
            },
            None => false,
        };
        proof {
            reveal_strlit("");
            assert(""@ == Seq::<char>::empty());
        }
        if same_text(own.as_str(), udid) || (any_booted && running) {
            proof {
                lemma_first_where_is(
                    pair_views(all@),
                    |d: (Seq<char>, JsonView)| selected_by(d.1, udid@),
                    i as int,
                );
            }
            return Some(describe(all[i].0, d, "unknown"));
        }
        i += 1;
    }
    proof {
        lemma_first_where_is(
            pair_views(all@),
            |d: (Seq<char>, JsonView)| selected_by(d.1, udid@),
            all.len() as int,
        );
    }
    None
}

/// What `get_system_info` returns for a selector and a listing.
pub open spec fn get_system_info_spec(simulator: Option<Seq<char>>, listing: Seq<u8>) -> Result<
    Option<SimulatorView>,
    Option<Seq<char>>,
> {
    match parsed_document(listing) {
        None => Err(None),
        Some(doc) => match simulator {
            None => Ok(system_info_spec(doc, booted_selector())),
            Some(name) => match udid_of(doc, name) {
                Some(udid) => Ok(system_info_spec(doc, udid)),
                None => Err(Some(name)),
            },
        },
    }
}

/// Describes the device that a selector stands for: resolves the selector in
/// `listing` and looks the device up in it. The result is `Ok(None)` where
/// the selector resolves and the listing holds no such device.
pub fn get_system_info(simulator: Option<&str>, listing: &[u8]) -> (r: Result<
    Option<Simulator>,
    DeviceError,
>)
    ensures
        match get_system_info_spec(
            match simulator {
                Some(n) => Some(n@),
                None => None,
            },
            listing@,
        ) {
            Ok(Some(info)) => r matches Ok(Some(s)) && s@ == info,
            Ok(None) => r matches Ok(None),
            Err(None) => r matches Err(DeviceError::InvalidListing),
            Err(Some(name)) => r matches Err(DeviceError::DeviceNotFound(n)) && n@ == name,
        },
{
    let doc: Json = match parse_json(listing) {
        Ok(doc) => doc,
        Err(_) => {
            return Err(DeviceError::InvalidListing);
        },
    };
    match simulator {
        None => Ok(system_info(&doc, "booted")),
        Some(name) => match find_udid(&doc, name) {
            Some(udid) => Ok(system_info(&doc, udid.as_str())),
            None => Err(DeviceError::DeviceNotFound(name.to_owned())),
        },
    }
}

/// If `a` must stand before `b`, then `b` need not stand before `a`.
pub proof fn lemma_listed_before_asymmetric(a: SimulatorView, b: SimulatorView)
    requires
        listed_before(a, b),
    ensures
        !listed_before(b, a),
{
    lemma_text_before_total(a.name, b.name);
}

/// If `a` need not stand before `b`, nor `b` before `c`, then `a` need not
/// stand before `c`.
pub proof fn lemma_not_listed_before_transitive(a: SimulatorView, b: SimulatorView, c: SimulatorView)
    requires
        !listed_before(a, b),
        !listed_before(b, c),
    ensures
        !listed_before(a, c),
{
    lemma_text_before_total(a.name, b.name);
    lemma_text_before_total(b.name, c.name);
    if text_before(a.name, c.name) {
        if a.name == b.name {
        } else if b.name == c.name {
        } else if booted(a) == booted(b) && booted(b) == booted(c) {
            lemma_text_before_transitive(b.name, a.name, c.name);
        }
    }
}

/// Putting an element into an ordered list gives an ordered list that holds
/// the element and what the list held, each as often as before.
pub proof fn lemma_inserted(sorted: Seq<SimulatorView>, x: SimulatorView)
    requires
        ordered(sorted),
    ensures
        ordered(inserted(sorted, x)),
        inserted(sorted, x).len() == sorted.len() + 1,
        inserted(sorted, x).to_multiset() == sorted.to_multiset().insert(x),
        forall|i: int|
            0 <= i < inserted(sorted, x).len() ==> (#[trigger] inserted(sorted, x)[i]) == x
                || sorted.contains(inserted(sorted, x)[i]),
    decreases sorted.len(),
{
    broadcast use vstd::seq_lib::group_to_multiset_ensures;

    let r = inserted(sorted, x);
    if sorted.len() > 0 && listed_before(x, sorted.last()) {
        let init = sorted.drop_last();
        let last = sorted.last();
        assert(init.push(last) == sorted);
        assert forall|i: int, j: int| 0 <= i < j < init.len() implies !listed_before(
            init[j],
            init[i],
        ) by {
            assert(init[i] == sorted[i] && init[j] == sorted[j]);
        }
        lemma_inserted(init, x);
        let mid = inserted(init, x);
        assert forall|i: int| 0 <= i < r.len() implies (#[trigger] r[i]) == x || sorted.contains(
            r[i],
        ) by {
            if i < mid.len() {
                assert(r[i] == mid[i]);
                if mid[i] != x {
                    let k = choose|k: int| 0 <= k < init.len() && init[k] == mid[i];
                    assert(sorted[k] == mid[i]);
                }
            } else {
                assert(sorted[sorted.len() - 1] == last);
            }
        }
        assert forall|i: int, j: int| 0 <= i < j < r.len() implies !listed_before(r[j], r[i]) by {
            if j < mid.len() {
                assert(r[i] == mid[i] && r[j] == mid[j]);
            } else {
                assert(r[j] == last);
                assert(r[i] == mid[i]);
                if mid[i] == x {
                    lemma_listed_before_asymmetric(x, last);
                } else {
                    let k = choose|k: int| 0 <= k < init.len() && init[k] == mid[i];
                    assert(sorted[k] == mid[i]);
                }
            }
        }
        assert(r.to_multiset() == sorted.to_multiset().insert(x)) by {
            assert(r.to_multiset() == mid.to_multiset().insert(last));
            assert(sorted.to_multiset() == init.to_multiset().insert(last));
        }
    } else {
        assert forall|i: int| 0 <= i < r.len() implies (#[trigger] r[i]) == x || sorted.contains(
            r[i],
        ) by {
            if i < sorted.len() {
                assert(sorted[i] == r[i]);
            }
        }
        assert forall|i: int, j: int| 0 <= i < j < r.len() implies !listed_before(r[j], r[i]) by {
            if j < sorted.len() {
                assert(r[i] == sorted[i] && r[j] == sorted[j]);
            } else {
                assert(r[j] == x);
                assert(r[i] == sorted[i]);
                if i < sorted.len() - 1 {
                    lemma_not_listed_before_transitive(x, sorted.last(), sorted[i]);
                }
            }
        }
    }
}

/// The listing order of a list is ordered and holds what the list held, each
/// as often as before.
pub proof fn lemma_listing_order(s: Seq<SimulatorView>)
    ensures
        ordered(in_listing_order(s)),
        in_listing_order(s).len() == s.len(),
        in_listing_order(s).to_multiset() == s.to_multiset(),
    decreases s.len(),
{
    broadcast use vstd::seq_lib::group_to_multiset_ensures;

    if s.len() > 0 {
        lemma_listing_order(s.drop_last());
        lemma_inserted(in_listing_order(s.drop_last()), s.last());
        assert(s.drop_last().push(s.last()) == s);
    }
}

/// In a list of simulators in listing order no simulator that is not running
/// stands before one that is.
pub proof fn lemma_running_simulators_come_first(s: Seq<SimulatorView>, i: int, j: int)
    requires
        0 <= i < j < in_listing_order(s).len(),
        booted(in_listing_order(s)[j]),
    ensures
        booted(in_listing_order(s)[i]),
{
    lemma_listing_order(s);
    assert(!listed_before(in_listing_order(s)[j], in_listing_order(s)[i]));
}

} // verus!
