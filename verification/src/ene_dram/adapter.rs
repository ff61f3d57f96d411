//! The I²C adapters of a machine.
use crate::order::comes_before;
use crate::order::is_sorted_order;
use crate::order::listed;
use crate::order::sort_positions;
use crate::order::sorted_order;
use crate::order::sorted_order_exists;
use crate::order::sorted_order_is_an_ascending_permutation;
use crate::order::sorts_ahead;
use crate::text::contains;
use crate::text::contains_text;
use crate::text::texts;
use vstd::prelude::*;

verus! {

/// An I²C adapter: its entry in the device class and its name.
#[derive(Debug, Clone, PartialEq, Eq)]
pub struct Adapter {
    pub entry: String,
    pub name: String,
}

/// What an `Adapter` says.
pub struct AdapterInfo {
    pub entry: Seq<char>,
    pub name: Seq<char>,
}

impl View for Adapter {
    type V = AdapterInfo;

    open spec fn view(&self) -> AdapterInfo {
        AdapterInfo { entry: self.entry@, name: self.name@ }
    }
}

impl Adapter {
    fn copy(&self) -> (adapter: Adapter)
        ensures
            adapter@ == self@,
    {
        Adapter { entry: self.entry.clone(), name: self.name.clone() }
    }
}

/// What the adapters say.
pub open spec fn adapters_view(adapters: Seq<Adapter>) -> Seq<AdapterInfo> {
    adapters.map_values(|adapter: Adapter| adapter@)
}

/// The entries of the adapters.
pub open spec fn entries(adapters: Seq<AdapterInfo>) -> Seq<Seq<char>> {
    adapters.map_values(|adapter: AdapterInfo| adapter.entry)
}

/// The adapters in the order of their entries.
pub open spec fn by_entry(adapters: Seq<AdapterInfo>) -> Seq<AdapterInfo> {
    let order = sorted_order(entries(adapters));
    Seq::new(adapters.len(), |i: int| adapters[order[i] as int])
}

/// Sorts the adapters by their entries.
pub fn adapter_entries(adapters: &[Adapter]) -> (sorted: Vec<Adapter>)
    ensures
        adapters_view(sorted@) == by_entry(adapters_view(adapters@)),
        is_sorted_order(
            entries(adapters_view(adapters@)),
            sorted_order(entries(adapters_view(adapters@))),
        ),
{
    let mut keys: Vec<String> = Vec::new();
    let mut i: usize = 0;
    while i < adapters.len()
        invariant
            i <= adapters@.len(),
            keys@.len() == i,
            forall|k: int| 0 <= k < i ==> (#[trigger] keys@[k])@ == adapters@[k].entry@,
        decreases adapters@.len() - i,
    {
        keys.push(adapters[i].entry.clone());
        i = i + 1;
    }
    assert(texts(keys@) =~= entries(adapters_view(adapters@)));
    let order: Vec<usize> = sort_positions(&keys);
    let mut sorted: Vec<Adapter> = Vec::new();
    let mut at: usize = 0;
    while at < order.len()
        invariant
            at <= order@.len() == adapters@.len(),
            is_sorted_order(texts(keys@), order@),
            keys@.len() == adapters@.len(),
            sorted@.len() == at,
            forall|k: int| 0 <= k < at ==> (#[trigger] sorted@[k])@ == adapters@[order@[k] as int]@,
        decreases order@.len() - at,
    {
        sorted.push(adapters[order[at]].copy());
        at = at + 1;
    }
    assert(adapters_view(sorted@) =~= by_entry(adapters_view(adapters@)));
    sorted
}

/// Whether an adapter's name holds one of the patterns.
pub open spec fn is_configured(name: Seq<char>, patterns: Seq<&'static str>) -> bool {
    exists|i: int| 0 <= i < patterns.len() && contains_text(name, (#[trigger] patterns[i])@)
}

/// Whether the profile asks for an adapter with this name.
pub fn adapter_is_configured(name: &str, patterns: &[&'static str]) -> (configured: bool)
    ensures
        configured == is_configured(name@, patterns@),
{
    let mut i: usize = 0;
    while i < patterns.len()
        invariant
            i <= patterns@.len(),
            forall|k: int| 0 <= k < i ==> !contains_text(name@, (#[trigger] patterns@[k])@),
        decreases patterns@.len() - i,
    {
        if contains(name, patterns[i]) {
            return true;
        }
        i = i + 1;
    }
    false
}

/// The path of the bus behind an adapter.
pub open spec fn bus_path(entry: Seq<char>) -> Seq<char> {
    "/dev/"@ + entry
}

/// The path of the bus behind an adapter.
pub fn bus_of(entry: &str) -> (bus: String)
    ensures
        bus@ == bus_path(entry@),
{
    let mut bus: String = "/dev/".to_owned();
    bus.append(entry);
    bus
}

/// Sorting loses no adapter.
pub proof fn sorting_keeps_every_adapter(adapters: Seq<AdapterInfo>, i: int)
    requires
        adapters.len() <= usize::MAX,
        0 <= i < adapters.len(),
    ensures
        by_entry(adapters).len() == adapters.len(),
        by_entry(adapters).contains(adapters[i]),
{
    let order = sorted_order(entries(adapters));
    sorted_order_exists(entries(adapters));
    assert(listed(order, i));
    let at = choose|at: int| 0 <= at < order.len() && order[at] == i;
    assert(by_entry(adapters)[at] == adapters[i]);
}

/// The adapters are sorted by their entries.
pub proof fn adapters_are_sorted(adapters: Seq<AdapterInfo>, i: int, j: int)
    requires
        adapters.len() <= usize::MAX,
        0 <= i < j < adapters.len(),
    ensures
        ({
            let first = by_entry(adapters)[i].entry;
            let second = by_entry(adapters)[j].entry;
            comes_before(first, second) || first == second
        }),
{
    let order = sorted_order(entries(adapters));
    sorted_order_exists(entries(adapters));
    assert(sorts_ahead(entries(adapters), order[i] as int, order[j] as int));
}

/// Sorting names each adapter once: there is a different place in the list for
/// each place in the sorted one.
pub proof fn sorting_only_changes_places(adapters: Seq<AdapterInfo>) -> (places: Seq<int>)
    requires
        adapters.len() <= usize::MAX,
    ensures
        by_entry(adapters).len() == adapters.len(),
        places.len() == adapters.len(),
        forall|i: int|
            0 <= i < places.len() ==> 0 <= #[trigger] places[i] < adapters.len()
                && by_entry(adapters)[i] == adapters[places[i]],
        forall|i: int, j: int|
            0 <= i < j < places.len() ==> #[trigger] places[i] != #[trigger] places[j],
{
    let order = sorted_order(entries(adapters));
    sorted_order_exists(entries(adapters));
    let places = Seq::new(order.len(), |i: int| order[i] as int);
    assert forall|i: int| 0 <= i < places.len() implies 0 <= #[trigger] places[i] < adapters.len()
        && by_entry(adapters)[i] == adapters[places[i]] by {
        assert(order[i] < entries(adapters).len());
    }
    assert forall|i: int, j: int| 0 <= i < j < places.len() implies #[trigger] places[i]
        != #[trigger] places[j] by {
        sorted_order_is_an_ascending_permutation(entries(adapters), i, j);
    }
    places
}

/// An adapter is asked for exactly if its name contains one of the patterns, and
/// its bus lies below `/dev` under its entry.
pub proof fn adapters_are_asked_for_by_name(
    name: Seq<char>,
    entry: Seq<char>,
    patterns: Seq<&'static str>,
)
    ensures
        is_configured(name, patterns) <==> exists|i: int|
            0 <= i < patterns.len() && contains_text(name, (#[trigger] patterns[i])@),
        bus_path(entry) == "/dev/"@ + entry,
{
}

/// Adapters are taken for what they are, one for one.
pub proof fn adapters_say_what_they_hold(adapters: Seq<Adapter>, i: int)
    requires
        0 <= i < adapters.len(),
    ensures
        adapters_view(adapters).len() == adapters.len(),
        adapters_view(adapters)[i].entry == adapters[i].entry@,
        adapters_view(adapters)[i].name == adapters[i].name@,
{
}

} // verus!
