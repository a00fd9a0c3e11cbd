//! Server side: the neighbor set a report asks for, its comparison with the
//! stored rows, and the rows that replace them.

use vstd::prelude::*;
use crate::types::{
    copy_strings, strings_equal, InterfaceLldp, InterfaceView, LldpSwitchData, MachineInterfaceLldp, StoredNeighborView, SwitchView,
};

verus! {

/// A neighbor keyed by the local MAC address of the interface it was seen on.
pub type NeighborEntry = (Seq<char>, SwitchView);

/// The map that a list of keyed neighbors describes: each MAC address maps to
/// the neighbor of its last entry in the list.
pub open spec fn entries_map(s: Seq<NeighborEntry>) -> Map<Seq<char>, SwitchView>
    decreases s.len(),
{
    if s.len() == 0 {
        Map::empty()
    } else {
        entries_map(s.drop_last()).insert(s.last().0, s.last().1)
    }
}

/// The keyed neighbors of stored rows, in row order; `updated` is left out.
pub open spec fn row_entries(rows: Seq<StoredNeighborView>) -> Seq<NeighborEntry> {
    rows.map_values(|r: StoredNeighborView| (r.local_mac_address, r.neighbor))
}

/// Whether the stored rows and the reported neighbors differ: in their number,
/// or as maps from local MAC address to neighbor (order and `updated` do not
/// count).
pub open spec fn neighbor_sets_differ(
    existing: Seq<StoredNeighborView>,
    desired: Seq<NeighborEntry>,
) -> bool {
    existing.len() != desired.len() || entries_map(row_entries(existing)) != entries_map(desired)
}

/// The neighbors that a snapshot reports: one entry per interface that has a
/// neighbor, in interface order.
pub open spec fn reported_neighbors(s: Seq<InterfaceView>) -> Seq<NeighborEntry>
    decreases s.len(),
{
    if s.len() == 0 {
        Seq::empty()
    } else {
        let prefix = reported_neighbors(s.drop_last());
        match s.last().lldp {
            Some(l) => prefix.push((s.last().mac_address, l)),
            None => prefix,
        }
    }
}

/// The view of the row that stores one reported neighbor of a machine.
pub open spec fn stored_row(machine_id: Seq<char>, entry: NeighborEntry, updated: i64) -> StoredNeighborView {
    StoredNeighborView {
        machine_id,
        local_mac_address: entry.0,
        neighbor: entry.1,
        updated,
    }
}

/// Whether some entry of `s` has the key `k`.
pub open spec fn has_key(s: Seq<NeighborEntry>, k: Seq<char>) -> bool {
    exists|i: int| 0 <= i < s.len() && (#[trigger] s[i]).0 == k
}

/// Whether `i` is the last position of `s` whose key is `s[i].0`.
pub open spec fn last_with_key(s: Seq<NeighborEntry>, i: int) -> bool {
    &&& 0 <= i < s.len()
    &&& forall|j: int| i < j < s.len() ==> (#[trigger] s[j]).0 != s[i].0
}

/// The keys of the map are exactly the keys of the list.
pub proof fn lemma_entries_map_keys(s: Seq<NeighborEntry>, k: Seq<char>)
    ensures
        entries_map(s).contains_key(k) == has_key(s, k),
    decreases s.len(),
{
    if s.len() > 0 {
        let p = s.drop_last();
        lemma_entries_map_keys(p, k);
        if has_key(p, k) {
            let i = choose|i: int| 0 <= i < p.len() && (#[trigger] p[i]).0 == k;
            assert(s[i].0 == k);
        }
        if has_key(s, k) && s.last().0 != k {
            let i = choose|i: int| 0 <= i < s.len() && (#[trigger] s[i]).0 == k;
            assert(i < p.len());
            assert(p[i].0 == k);
        }
        if s.last().0 == k {
            assert(s[s.len() - 1].0 == k);
        }
    }
}

/// The map holds, for a key, the neighbor of the last entry with that key.
pub proof fn lemma_entries_map_value(s: Seq<NeighborEntry>, i: int)
    requires
        last_with_key(s, i),
    ensures
        entries_map(s).contains_key(s[i].0),
        entries_map(s)[s[i].0] == s[i].1,
    decreases s.len(),
{
    let p = s.drop_last();
    if i < s.len() - 1 {
        assert(s[s.len() - 1].0 != s[i].0);
        assert forall|j: int| i < j < p.len() implies (#[trigger] p[j]).0 != p[i].0 by {
            assert(s[j].0 != s[i].0);
        }
        lemma_entries_map_value(p, i);
    }
}

/// Position of the last stored row whose local MAC address is `key`.
fn last_row_with_key(rows: &[MachineInterfaceLldp], key: &String) -> (r: Option<usize>)
    ensures
        match r {
            Some(i) => {
                &&& i < rows@.len()
                &&& last_with_key(row_entries(rows.deep_view()), i as int)
                &&& rows@[i as int].local_mac_address@ == key@
            },
            None => !has_key(row_entries(rows.deep_view()), key@),
        },
{
    let ghost s = row_entries(rows.deep_view());
    let mut i = rows.len();
    while i > 0
        invariant
            i <= rows@.len(),
            s == row_entries(rows.deep_view()),
            forall|j: int| i <= j < s.len() ==> (#[trigger] s[j]).0 != key@,
        decreases i,
    {
        i = i - 1;
        if rows[i].local_mac_address == *key {
            return Some(i);
        }
        assert(s[i as int].0 == rows@[i as int].local_mac_address@);
    }
    None
}

/// Position of the last reported neighbor whose local MAC address is `key`.
fn last_pair_with_key(pairs: &[(String, LldpSwitchData)], key: &String) -> (r: Option<usize>)
    ensures
        match r {
            Some(i) => {
                &&& i < pairs@.len()
                &&& last_with_key(pairs.deep_view(), i as int)
                &&& pairs@[i as int].0@ == key@
            },
            None => !has_key(pairs.deep_view(), key@),
        },
{
    let ghost s = pairs.deep_view();
    let mut i = pairs.len();
    while i > 0
        invariant
            i <= pairs@.len(),
            s == pairs.deep_view(),
            forall|j: int| i <= j < s.len() ==> (#[trigger] s[j]).0 != key@,
        decreases i,
    {
        i = i - 1;
        if pairs[i].0 == *key {
            return Some(i);
        }
    }
    None
}

/// Whether a stored row holds the same neighbor as a reported one.
fn row_matches(row: &MachineInterfaceLldp, l: &LldpSwitchData) -> (r: bool)
    ensures
        r == (row@.neighbor == l@),
{
    row.local_port == l.local_port && row.remote_port == l.remote_port && row.switch_name == l.name
        && row.switch_id == l.id && row.switch_description == l.description && strings_equal(
        &row.switch_mgmt_ips,
        &l.ip_address,
    )
}

/// Compares the stored neighbor set with the reported one, keyed by local MAC
/// and ignoring the `updated` timestamp. Order-independent.
pub fn neighbor_set_changed(
    existing: &[MachineInterfaceLldp],
    desired: &[(String, LldpSwitchData)],
) -> (changed: bool)
    ensures
        changed == neighbor_sets_differ(existing.deep_view(), desired.deep_view()),
{
    if existing.len() != desired.len() {
        return true;
    }
    let ghost es = row_entries(existing.deep_view());
    let ghost ds = desired.deep_view();
    let ghost m1 = entries_map(es);
    let ghost m2 = entries_map(ds);
    for i in 0..existing.len()
        invariant
            es == row_entries(existing.deep_view()),
            ds == desired.deep_view(),
            m1 == entries_map(es),
            m2 == entries_map(ds),
            es.len() == existing@.len(),
            forall|k: int|
                0 <= k < i ==> m1.contains_key((#[trigger] es[k]).0) && m2.contains_key(es[k].0)
                    && m2[es[k].0] == m1[es[k].0],
    {
        let key = &existing[i].local_mac_address;
        proof {
            assert(es[i as int].0 == key@);
            lemma_entries_map_keys(es, key@);
            lemma_entries_map_keys(ds, key@);
        }
        let li = match last_row_with_key(existing, key) {
            Some(li) => li,
            None => {
                return true;
            },
        };
        match last_pair_with_key(desired, key) {
            None => {
                return true;
            },
            Some(lj) => {
                proof {
                    lemma_entries_map_value(es, li as int);
                    lemma_entries_map_value(ds, lj as int);
                }
                if !row_matches(&existing[li], &desired[lj].1) {
                    return true;
                }
            },
        }
    }
    for j in 0..desired.len()
        invariant
            es == row_entries(existing.deep_view()),
            ds == desired.deep_view(),
            m1 == entries_map(es),
            m2 == entries_map(ds),
            es.len() == existing@.len(),
            ds.len() == desired@.len(),
            forall|k: int|
                0 <= k < es.len() ==> m1.contains_key((#[trigger] es[k]).0) && m2.contains_key(es[k].0)
                    && m2[es[k].0] == m1[es[k].0],
            forall|k: int| 0 <= k < j ==> m1.contains_key((#[trigger] ds[k]).0),
    {
        let key = &desired[j].0;
        proof {
            assert(ds[j as int].0 == key@);
            lemma_entries_map_keys(es, key@);
            lemma_entries_map_keys(ds, key@);
        }
        if last_row_with_key(existing, key).is_none() {
            return true;
        }
    }
    proof {
        assert forall|k: Seq<char>| #[trigger] m1.dom().contains(k) == m2.dom().contains(k) by {
            lemma_entries_map_keys(es, k);
            lemma_entries_map_keys(ds, k);
            if has_key(es, k) {
                let i = choose|i: int| 0 <= i < es.len() && (#[trigger] es[i]).0 == k;
            }
            if has_key(ds, k) {
                let i = choose|i: int| 0 <= i < ds.len() && (#[trigger] ds[i]).0 == k;
            }
        }
        assert forall|k: Seq<char>| #[trigger] m1.contains_key(k) implies m2[k] == m1[k] by {
            lemma_entries_map_keys(es, k);
            let i = choose|i: int| 0 <= i < es.len() && (#[trigger] es[i]).0 == k;
        }
        assert(m1.dom() =~= m2.dom());
        assert(m1 =~= m2);
    }
    false
}

/// The neighbors that a report asks to store: `(local MAC, neighbor)` for each
/// interface that has a neighbor, in interface order; interfaces without a
/// neighbor are left out.
pub fn desired_neighbors(interfaces: &[InterfaceLldp]) -> (desired: Vec<(String, LldpSwitchData)>)
    ensures
        desired.deep_view() == reported_neighbors(interfaces.deep_view()),
{
    let ghost v = interfaces.deep_view();
    let mut desired: Vec<(String, LldpSwitchData)> = Vec::new();
    for i in 0..interfaces.len()
        invariant
            v == interfaces.deep_view(),
            desired.deep_view() == reported_neighbors(v.take(i as int)),
    {
        proof {
            assert(v.take(i + 1).drop_last() =~= v.take(i as int));
            assert(v.take(i + 1).last() == v[i as int]);
        }
        match &interfaces[i].lldp {
            Some(l) => {
                let ghost before = desired.deep_view();
                desired.push((interfaces[i].mac_address.clone(), l.clone()));
                assert(desired.deep_view() =~= before.push((v[i as int].mac_address, l@)));
            },
            None => {},
        }
    }
    assert(v.take(v.len() as int) =~= v);
    desired
}

/// The rows that store `neighbors` for one machine, one per neighbor in the
/// given order, each stamped with `updated`.
pub fn neighbor_rows(
    machine_id: &String,
    neighbors: &[(String, LldpSwitchData)],
    updated: i64,
) -> (rows: Vec<MachineInterfaceLldp>)
    ensures
        rows.deep_view() == neighbors.deep_view().map_values(
            |e: NeighborEntry| stored_row(machine_id@, e, updated),
        ),
        rows@.len() == neighbors@.len(),
        forall|i: int|
            0 <= i < rows@.len() ==> {
                &&& (#[trigger] rows@[i]).machine_id@ == machine_id@
                &&& rows@[i].local_mac_address@ == neighbors@[i].0@
                &&& rows@[i]@.neighbor == neighbors@[i].1@
                &&& rows@[i].updated == updated
            },
{
    let mut rows: Vec<MachineInterfaceLldp> = Vec::new();
    for i in 0..neighbors.len()
        invariant
            rows@.len() == i,
            forall|j: int|
                0 <= j < i ==> (#[trigger] rows@[j])@ == stored_row(
                    machine_id@,
                    neighbors@[j].deep_view(),
                    updated,
                ),
    {
        let (mac, l) = &neighbors[i];
        rows.push(
            MachineInterfaceLldp {
                machine_id: machine_id.clone(),
                local_mac_address: mac.clone(),
                local_port: l.local_port.clone(),
                remote_port: l.remote_port.clone(),
                switch_name: l.name.clone(),
                switch_id: l.id.clone(),
                switch_description: l.description.clone(),
                switch_mgmt_ips: copy_strings(&l.ip_address),
                updated,
            },
        );
    }
    assert(rows.deep_view() =~= neighbors.deep_view().map_values(
        |e: NeighborEntry| stored_row(machine_id@, e, updated),
    ));
    rows
}

/// Decides what a neighbor report does to the stored rows of its machine:
/// `None` when the reported set equals the stored one (nothing is written),
/// else the neighbors that replace all stored rows.
pub fn lldp_write_plan(
    interfaces: &[InterfaceLldp],
    existing: &[MachineInterfaceLldp],
) -> (plan: Option<Vec<(String, LldpSwitchData)>>)
    ensures
        plan is None <==> !neighbor_sets_differ(
            existing.deep_view(),
            reported_neighbors(interfaces.deep_view()),
        ),
        plan matches Some(d) ==> d.deep_view() == reported_neighbors(interfaces.deep_view()),
{
    let desired = desired_neighbors(interfaces);
    if neighbor_set_changed(existing, desired.as_slice()) {
        Some(desired)
    } else {
        None
    }
}

/// Whether no two entries share a key.
pub open spec fn distinct_keys(s: Seq<NeighborEntry>) -> bool {
    forall|i: int, j: int| 0 <= i < j < s.len() ==> (#[trigger] s[i]).0 != (#[trigger] s[j]).0
}

/// Two lists with distinct keys and the same entries describe the same map.
pub proof fn lemma_entries_map_same_entries(s1: Seq<NeighborEntry>, s2: Seq<NeighborEntry>)
    requires
        distinct_keys(s1),
        distinct_keys(s2),
        forall|x: NeighborEntry| s1.contains(x) <==> s2.contains(x),
    ensures
        entries_map(s1) == entries_map(s2),
{
    let m1 = entries_map(s1);
    let m2 = entries_map(s2);
    assert forall|k: Seq<char>| #[trigger] m1.dom().contains(k) == m2.dom().contains(k) by {
        lemma_entries_map_keys(s1, k);
        lemma_entries_map_keys(s2, k);
        if has_key(s1, k) {
            let i = choose|i: int| 0 <= i < s1.len() && (#[trigger] s1[i]).0 == k;
            assert(s1.contains(s1[i]));
            let j = choose|j: int| 0 <= j < s2.len() && s2[j] == s1[i];
            assert(s2[j].0 == k);
        }
        if has_key(s2, k) {
            let i = choose|i: int| 0 <= i < s2.len() && (#[trigger] s2[i]).0 == k;
            assert(s2.contains(s2[i]));
            let j = choose|j: int| 0 <= j < s1.len() && s1[j] == s2[i];
            assert(s1[j].0 == k);
        }
    }
    assert forall|k: Seq<char>| #[trigger] m1.contains_key(k) implies m1[k] == m2[k] by {
        lemma_entries_map_keys(s1, k);
        let i = choose|i: int| 0 <= i < s1.len() && (#[trigger] s1[i]).0 == k;
        assert(s1.contains(s1[i]));
        let j = choose|j: int| 0 <= j < s2.len() && s2[j] == s1[i];
        assert(last_with_key(s1, i));
        assert(last_with_key(s2, j));
        lemma_entries_map_value(s1, i);
        lemma_entries_map_value(s2, j);
    }
    assert(m1.dom() =~= m2.dom());
    assert(m1 =~= m2);
}

/// Rows written for a report match that report: comparing the rows that store
/// `desired` (for any machine and any write time) with `desired` finds no
/// change, so an unchanged periodic report causes no write.
pub proof fn lemma_stored_rows_match_report(machine_id: Seq<char>, desired: Seq<NeighborEntry>, updated: i64)
    ensures
        !neighbor_sets_differ(
            desired.map_values(|e: NeighborEntry| stored_row(machine_id, e, updated)),
            desired,
        ),
{
    let rows = desired.map_values(|e: NeighborEntry| stored_row(machine_id, e, updated));
    assert(row_entries(rows) =~= desired);
}

/// The comparison ignores the `updated` timestamp (and the machine id) of the
/// stored rows: rows that differ only there compare alike.
pub proof fn lemma_changed_ignores_timestamps(
    e1: Seq<StoredNeighborView>,
    e2: Seq<StoredNeighborView>,
    desired: Seq<NeighborEntry>,
)
    requires
        e1.len() == e2.len(),
        forall|i: int|
            0 <= i < e1.len() ==> (#[trigger] e1[i]).local_mac_address == e2[i].local_mac_address
                && e1[i].neighbor == e2[i].neighbor,
    ensures
        neighbor_sets_differ(e1, desired) == neighbor_sets_differ(e2, desired),
{
    assert(row_entries(e1) =~= row_entries(e2));
}

/// The comparison does not depend on the order of the stored rows, nor on the
/// order of the reported neighbors, when no MAC address occurs twice.
pub proof fn lemma_changed_ignores_order(
    e1: Seq<StoredNeighborView>,
    e2: Seq<StoredNeighborView>,
    d1: Seq<NeighborEntry>,
    d2: Seq<NeighborEntry>,
)
    requires
        e1.to_multiset() == e2.to_multiset(),
        d1.to_multiset() == d2.to_multiset(),
        distinct_keys(row_entries(e1)),
        distinct_keys(row_entries(e2)),
        distinct_keys(d1),
        distinct_keys(d2),
    ensures
        neighbor_sets_differ(e1, d1) == neighbor_sets_differ(e2, d2),
{
    broadcast use vstd::seq_lib::group_to_multiset_ensures;

    assert(e1.len() == e1.to_multiset().len());
    assert(e2.len() == e2.to_multiset().len());
    assert(d1.len() == d1.to_multiset().len());
    assert(d2.len() == d2.to_multiset().len());
    let r1 = row_entries(e1);
    let r2 = row_entries(e2);
    assert forall|x: NeighborEntry| r1.contains(x) <==> r2.contains(x) by {
        if r1.contains(x) {
            let i = choose|i: int| 0 <= i < r1.len() && r1[i] == x;
            assert(e1.contains(e1[i]));
            assert(e1.to_multiset().count(e1[i]) > 0);
            assert(e2.contains(e1[i]));
            let j = choose|j: int| 0 <= j < e2.len() && e2[j] == e1[i];
            assert(r2[j] == x);
        }
        if r2.contains(x) {
            let i = choose|i: int| 0 <= i < r2.len() && r2[i] == x;
            assert(e2.contains(e2[i]));
            assert(e2.to_multiset().count(e2[i]) > 0);
            assert(e1.contains(e2[i]));
            let j = choose|j: int| 0 <= j < e1.len() && e1[j] == e2[i];
            assert(r1[j] == x);
        }
    }
    assert forall|x: NeighborEntry| d1.contains(x) <==> d2.contains(x) by {
        if d1.contains(x) {
            assert(d1.to_multiset().count(x) > 0);
        }
        if d2.contains(x) {
            assert(d2.to_multiset().count(x) > 0);
        }
    }
    lemma_entries_map_same_entries(r1, r2);
    lemma_entries_map_same_entries(d1, d2);
}

/// A stored neighbor whose interface the report no longer lists (in
/// particular, any stored neighbor when the report lists none) is a change,
/// so the rows are replaced and that neighbor is dropped.
pub proof fn lemma_vanished_neighbor_is_change(
    existing: Seq<StoredNeighborView>,
    desired: Seq<NeighborEntry>,
    i: int,
)
    requires
        0 <= i < existing.len(),
        forall|j: int| 0 <= j < desired.len() ==> (#[trigger] desired[j]).0 != existing[i].local_mac_address,
    ensures
        neighbor_sets_differ(existing, desired),
{
    let k = existing[i].local_mac_address;
    let es = row_entries(existing);
    assert(es[i].0 == k);
    lemma_entries_map_keys(es, k);
    lemma_entries_map_keys(desired, k);
}

/// A reported neighbor on an interface that no stored row has is a change.
pub proof fn lemma_new_neighbor_is_change(
    existing: Seq<StoredNeighborView>,
    desired: Seq<NeighborEntry>,
    j: int,
)
    requires
        0 <= j < desired.len(),
        forall|i: int| 0 <= i < existing.len() ==> (#[trigger] existing[i]).local_mac_address != desired[j].0,
    ensures
        neighbor_sets_differ(existing, desired),
{
    let k = desired[j].0;
    let es = row_entries(existing);
    assert(desired[j].0 == k);
    lemma_entries_map_keys(es, k);
    lemma_entries_map_keys(desired, k);
    if has_key(es, k) {
        let i = choose|i: int| 0 <= i < es.len() && (#[trigger] es[i]).0 == k;
        assert(existing[i].local_mac_address == k);
    }
}

/// A different number of stored rows and reported neighbors is a change.
pub proof fn lemma_count_change_is_change(existing: Seq<StoredNeighborView>, desired: Seq<NeighborEntry>)
    requires
        existing.len() != desired.len(),
    ensures
        neighbor_sets_differ(existing, desired),
{
}

/// A change of the neighbor of any single MAC address is a change, whatever
/// the other neighbors are: if the last stored row for a MAC and the last
/// reported neighbor for that MAC differ in any field, the sets differ.
pub proof fn lemma_one_neighbor_change_is_change(
    existing: Seq<StoredNeighborView>,
    desired: Seq<NeighborEntry>,
    i: int,
    j: int,
)
    requires
        0 <= i < existing.len(),
        0 <= j < desired.len(),
        forall|k: int|
            i < k < existing.len() ==> (#[trigger] existing[k]).local_mac_address
                != existing[i].local_mac_address,
        forall|k: int| j < k < desired.len() ==> (#[trigger] desired[k]).0 != desired[j].0,
        existing[i].local_mac_address == desired[j].0,
        existing[i].neighbor != desired[j].1,
    ensures
        neighbor_sets_differ(existing, desired),
{
    let es = row_entries(existing);
    assert forall|k: int| i < k < es.len() implies (#[trigger] es[k]).0 != es[i].0 by {
        assert(es[k].0 == existing[k].local_mac_address);
    }
    lemma_entries_map_value(es, i);
    lemma_entries_map_value(desired, j);
}

/// Stored rows that hold, position by position, the reported MAC addresses and
/// neighbors are no change, whatever their machine ids and timestamps.
pub proof fn lemma_same_neighbors_no_change(existing: Seq<StoredNeighborView>, desired: Seq<NeighborEntry>)
    requires
        existing.len() == desired.len(),
        forall|i: int|
            0 <= i < existing.len() ==> (#[trigger] existing[i]).local_mac_address == desired[i].0
                && existing[i].neighbor == desired[i].1,
    ensures
        !neighbor_sets_differ(existing, desired),
{
    assert(row_entries(existing) =~= desired);
}

/// How a report's interfaces give its neighbors, piece by piece: the neighbors
/// of two consecutive runs of interfaces are those of the first run followed
/// by those of the second.
pub proof fn lemma_reported_neighbors_concat(s1: Seq<InterfaceView>, s2: Seq<InterfaceView>)
    ensures
        reported_neighbors(s1 + s2) == reported_neighbors(s1) + reported_neighbors(s2),
    decreases s2.len(),
{
    if s2.len() == 0 {
        assert(s1 + s2 =~= s1);
        assert(reported_neighbors(s1) + reported_neighbors(s2) =~= reported_neighbors(s1));
    } else {
        let p = s2.drop_last();
        lemma_reported_neighbors_concat(s1, p);
        assert((s1 + s2).drop_last() =~= s1 + p);
        assert((s1 + s2).last() == s2.last());
        match s2.last().lldp {
            Some(l) => {
                assert(reported_neighbors(s1) + reported_neighbors(s2) =~= (reported_neighbors(s1)
                    + reported_neighbors(p)).push((s2.last().mac_address, l)));
            },
            None => {},
        }
    }
}

/// One interface contributes its `(MAC, neighbor)` if it has a neighbor, and
/// nothing otherwise.
pub proof fn lemma_reported_neighbors_single(x: InterfaceView)
    ensures
        reported_neighbors(seq![x]) == (match x.lldp {
            Some(l) => seq![(x.mac_address, l)],
            None => Seq::<NeighborEntry>::empty(),
        }),
{
    assert(seq![x].drop_last() =~= Seq::<InterfaceView>::empty());
    assert(reported_neighbors(Seq::<InterfaceView>::empty()) =~= Seq::<NeighborEntry>::empty());
    assert(seq![x].last() == x);
    match x.lldp {
        Some(l) => {
            assert(Seq::<NeighborEntry>::empty().push((x.mac_address, l)) =~= seq![(x.mac_address, l)]);
        },
        None => {},
    }
}

/// An interface without a neighbor changes nothing, wherever it stands in the
/// report; an interface with one adds exactly its `(MAC, neighbor)` at its place.
pub proof fn lemma_reported_neighbors_insert(
    s1: Seq<InterfaceView>,
    x: InterfaceView,
    s2: Seq<InterfaceView>,
)
    ensures
        x.lldp is None ==> reported_neighbors(s1 + seq![x] + s2) == reported_neighbors(s1 + s2),
        x.lldp matches Some(l) ==> reported_neighbors(s1 + seq![x] + s2) == reported_neighbors(s1)
            + seq![(x.mac_address, l)] + reported_neighbors(s2),
{
    lemma_reported_neighbors_concat(s1 + seq![x], s2);
    lemma_reported_neighbors_concat(s1, seq![x]);
    lemma_reported_neighbors_concat(s1, s2);
    lemma_reported_neighbors_single(x);
    if x.lldp is None {
        assert(reported_neighbors(s1) + Seq::<NeighborEntry>::empty() =~= reported_neighbors(s1));
    }
}

/// The row stored for a neighbor carries the machine id, the MAC address, the
/// neighbor and the write time unchanged.
pub proof fn lemma_stored_row_fields(machine_id: Seq<char>, entry: NeighborEntry, updated: i64)
    ensures
        stored_row(machine_id, entry, updated).machine_id == machine_id,
        stored_row(machine_id, entry, updated).local_mac_address == entry.0,
        stored_row(machine_id, entry, updated).neighbor == entry.1,
        stored_row(machine_id, entry, updated).updated == updated,
{
}

} // verus!
