//! The table of multicast groups: a linear map of fixed capacity from address to state,
//! kept in order of arrival, and the list in which group addresses are gathered.
use heapless::LinearMap;
use vstd::prelude::*;

use crate::config::IFACE_MAX_MULTICAST_GROUP_COUNT;
use crate::wire::ip::{IpAddress, Ipv6Address};

verus! {

/// How far the membership of a group has come.
#[derive(Debug, Clone, Copy, PartialEq, Eq, Structural)]
pub enum GroupState {
    /// The group is being joined: the join packet is still to be sent.
    Joining,
    /// The join packet has been sent, there is nothing to do.
    Joined,
    /// The group is being left: the leave packet is still to be sent.
    Leaving,
}

/// One entry of the table.
pub type GroupEntry = (IpAddress, GroupState);

/// The table of groups of an interface.
pub type GroupTable = LinearMap<IpAddress, GroupState, IFACE_MAX_MULTICAST_GROUP_COUNT>;

/// A list of group addresses, no longer than the table.
pub type GroupList = heapless::Vec<Ipv6Address, IFACE_MAX_MULTICAST_GROUP_COUNT>;

#[verifier::external_type_specification]
#[verifier::external_body]
#[verifier::reject_recursive_types(K)]
#[verifier::reject_recursive_types(V)]
pub struct ExLinearMap<K, V, const N: usize>(heapless::LinearMap<K, V, N>);

#[verifier::external_type_specification]
#[verifier::external_body]
#[verifier::reject_recursive_types(T)]
pub struct ExVec<T, const N: usize>(heapless::Vec<T, N>);

/// The entries of a table, in the order in which `heapless::LinearMap::iter` yields them.
pub uninterp spec fn table_entries(table: GroupTable) -> Seq<GroupEntry>;

/// The addresses in a list, in order.
pub uninterp spec fn list_items(list: GroupList) -> Seq<Ipv6Address>;

/// Whether `index` is the first entry for `addr`.
pub open spec fn first_entry(entries: Seq<GroupEntry>, addr: IpAddress, index: int) -> bool {
    &&& 0 <= index < entries.len()
    &&& entries[index].0 == addr
    &&& forall|j: int| 0 <= j < index ==> (#[trigger] entries[j]).0 != addr
}

/// Whether there is an entry for `addr`.
pub open spec fn has_entry(entries: Seq<GroupEntry>, addr: IpAddress) -> bool {
    exists|i: int| 0 <= i < entries.len() && (#[trigger] entries[i]).0 == addr
}

/// The entries without the one at `index`, whose place the last one takes.
pub open spec fn swap_removed(entries: Seq<GroupEntry>, index: int) -> Seq<GroupEntry> {
    entries.update(index, entries.last()).drop_last()
}

/// An empty table, by `heapless::LinearMap::new`: it holds no entry.
#[verifier::external_body]
pub(crate) fn table_new() -> (table: GroupTable)
    ensures
        table_entries(table) == Seq::<GroupEntry>::empty(),
{
    LinearMap::new()
}

/// Looks an address up, by `heapless::LinearMap::get`: the state in the first entry for
/// the address, `None` where there is no such entry.
#[verifier::external_body]
pub(crate) fn table_get(table: &GroupTable, addr: &IpAddress) -> (state: Option<GroupState>)
    ensures
        match state {
            Some(s) => exists|i: int| #[trigger]
                first_entry(table_entries(*table), *addr, i) && table_entries(*table)[i].1 == s,
            None => !has_entry(table_entries(*table), *addr),
        },
{
    table.get(addr).copied()
}

/// Sets the state of an address, by `heapless::LinearMap::insert`: where there is an entry
/// for the address, the first one is overwritten in place; otherwise the entry is appended,
/// unless the table is full, when the table stays as it is. The result says whether the
/// state was set.
#[verifier::external_body]
pub(crate) fn table_insert(table: &mut GroupTable, addr: IpAddress, state: GroupState) -> (done:
    bool)
    ensures
        forall|i: int| #[trigger]
            first_entry(table_entries(*old(table)), addr, i) ==> done && table_entries(
                *final(table),
            ) == table_entries(*old(table)).update(i, (addr, state)),
        !has_entry(table_entries(*old(table)), addr) ==> done == (table_entries(*old(table)).len()
            < IFACE_MAX_MULTICAST_GROUP_COUNT),
        !has_entry(table_entries(*old(table)), addr) && done ==> table_entries(*final(table))
            == table_entries(*old(table)).push((addr, state)),
        !done ==> table_entries(*final(table)) == table_entries(*old(table)),
{
    table.insert(addr, state).is_ok()
}

/// Removes an address, by `heapless::LinearMap::remove`: the first entry for the address
/// goes, the last entry takes its place, and the state that it held is the result; where
/// there is no such entry, nothing changes and the result is `None`.
#[verifier::external_body]
pub(crate) fn table_remove(table: &mut GroupTable, addr: &IpAddress) -> (state: Option<GroupState>)
    ensures
        forall|i: int| #[trigger]
            first_entry(table_entries(*old(table)), *addr, i) ==> state == Some(
                table_entries(*old(table))[i].1,
            ) && table_entries(*final(table)) == swap_removed(table_entries(*old(table)), i),
        !has_entry(table_entries(*old(table)), *addr) ==> state is None && table_entries(
            *final(table),
        ) == table_entries(*old(table)),
{
    table.remove(addr)
}

/// How many entries the table holds, by `heapless::LinearMap::len`: no more than its
/// capacity.
#[verifier::external_body]
pub(crate) fn table_len(table: &GroupTable) -> (len: usize)
    ensures
        len == table_entries(*table).len(),
        len <= IFACE_MAX_MULTICAST_GROUP_COUNT,
{
    table.len()
}

/// The entry that `heapless::LinearMap::iter` yields after `index` others.
#[verifier::external_body]
pub(crate) fn table_at(table: &GroupTable, index: usize) -> (entry: GroupEntry)
    requires
        index < table_entries(*table).len(),
    ensures
        entry == table_entries(*table)[index as int],
{
    let (addr, state) = table.iter().nth(index).unwrap();
    (*addr, *state)
}

/// An empty list, by `heapless::Vec::new`.
#[verifier::external_body]
pub(crate) fn list_new() -> (list: GroupList)
    ensures
        list_items(list) == Seq::<Ipv6Address>::empty(),
{
    heapless::Vec::new()
}

/// Appends an address, by `heapless::Vec::push`: unless the list is full, when it stays as
/// it is. The result says whether the address was appended.
#[verifier::external_body]
pub(crate) fn list_push(list: &mut GroupList, addr: Ipv6Address) -> (done: bool)
    ensures
        done == (list_items(*old(list)).len() < IFACE_MAX_MULTICAST_GROUP_COUNT),
        done ==> list_items(*final(list)) == list_items(*old(list)).push(addr),
        !done ==> list_items(*final(list)) == list_items(*old(list)),
{
    list.push(addr).is_ok()
}

/// How many addresses the list holds, by `heapless::Vec::len`, which it has from slices.
#[verifier::external_body]
pub(crate) fn list_len(list: &GroupList) -> (len: usize)
    ensures
        len == list_items(*list).len(),
{
    list.len()
}

/// The address at `index`, by indexing a `heapless::Vec` as a slice.
#[verifier::external_body]
pub(crate) fn list_at(list: &GroupList, index: usize) -> (addr: Ipv6Address)
    requires
        index < list_items(*list).len(),
    ensures
        addr == list_items(*list)[index as int],
{
    list[index]
}

} // verus!
