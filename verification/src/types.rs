//! The data that LLDP neighbor reports carry, and their mathematical views.

use vstd::prelude::*;

verus! {

/// What is known of one LLDP neighbor (the switch port seen on a local
/// interface), as plain sequences of characters.
pub struct SwitchView {
    pub local_port: Seq<char>,
    pub remote_port: Seq<char>,
    pub name: Seq<char>,
    pub id: Seq<char>,
    pub description: Seq<char>,
    pub ip_address: Seq<Seq<char>>,
}

/// The LLDP neighbor (switch) seen on one local interface.
#[derive(Debug, PartialEq, Eq)]
pub struct LldpSwitchData {
    pub id: String,
    pub name: String,
    pub description: String,
    pub local_port: String,
    pub remote_port: String,
    /// Management addresses of the switch.
    pub ip_address: Vec<String>,
}

impl View for LldpSwitchData {
    type V = SwitchView;

    open spec fn view(&self) -> SwitchView {
        SwitchView {
            local_port: self.local_port@,
            remote_port: self.remote_port@,
            name: self.name@,
            id: self.id@,
            description: self.description@,
            ip_address: self.ip_address.deep_view(),
        }
    }
}

impl DeepView for LldpSwitchData {
    type V = SwitchView;

    open spec fn deep_view(&self) -> SwitchView {
        self@
    }
}

/// Copies a list of strings, element by element.
pub fn copy_strings(v: &Vec<String>) -> (r: Vec<String>)
    ensures
        r.deep_view() == v.deep_view(),
{
    let mut r: Vec<String> = Vec::new();
    for i in 0..v.len()
        invariant
            r@.len() == i,
            forall|j: int| 0 <= j < i ==> (#[trigger] r@[j])@ == v@[j]@,
    {
        r.push(v[i].clone());
    }
    assert(r.deep_view() =~= v.deep_view());
    r
}

/// Whether two lists of strings hold the same strings in the same order.
pub fn strings_equal(a: &Vec<String>, b: &Vec<String>) -> (r: bool)
    ensures
        r == (a.deep_view() == b.deep_view()),
{
    if a.len() != b.len() {
        assert(a.deep_view().len() != b.deep_view().len());
        return false;
    }
    for i in 0..a.len()
        invariant
            a@.len() == b@.len(),
            forall|j: int| 0 <= j < i ==> (#[trigger] a@[j])@ == b@[j]@,
    {
        if a[i] != b[i] {
            assert(a.deep_view()[i as int] != b.deep_view()[i as int]);
            return false;
        }
    }
    assert(a.deep_view() =~= b.deep_view());
    true
}

impl Clone for LldpSwitchData {
    fn clone(&self) -> (r: Self)
        ensures
            r@ == self@,
    {
        LldpSwitchData {
            id: self.id.clone(),
            name: self.name.clone(),
            description: self.description.clone(),
            local_port: self.local_port.clone(),
            remote_port: self.remote_port.clone(),
            ip_address: copy_strings(&self.ip_address),
        }
    }
}

impl Default for LldpSwitchData {
    fn default() -> (r: Self)
        ensures
            r@ == (SwitchView {
                local_port: Seq::empty(),
                remote_port: Seq::empty(),
                name: Seq::empty(),
                id: Seq::empty(),
                description: Seq::empty(),
                ip_address: Seq::empty(),
            }),
    {
        let r = LldpSwitchData {
            id: String::new(),
            name: String::new(),
            description: String::new(),
            local_port: String::new(),
            remote_port: String::new(),
            ip_address: Vec::new(),
        };
        assert(r.ip_address.deep_view() =~= Seq::<Seq<char>>::empty());
        r
    }
}

/// Whether two neighbors are the same in every field.
pub fn switch_data_equal(a: &LldpSwitchData, b: &LldpSwitchData) -> (r: bool)
    ensures
        r == (a@ == b@),
{
    a.id == b.id && a.name == b.name && a.description == b.description && a.local_port
        == b.local_port && a.remote_port == b.remote_port && strings_equal(
        &a.ip_address,
        &b.ip_address,
    )
}

/// The view of one entry of an interface snapshot.
pub struct InterfaceView {
    pub mac_address: Seq<char>,
    pub lldp: Option<SwitchView>,
}

/// One local interface, by its MAC address, with the neighbor seen on it if any.
#[derive(Debug, PartialEq, Eq)]
pub struct InterfaceLldp {
    pub mac_address: String,
    pub lldp: Option<LldpSwitchData>,
}

impl View for InterfaceLldp {
    type V = InterfaceView;

    open spec fn view(&self) -> InterfaceView {
        InterfaceView {
            mac_address: self.mac_address@,
            lldp: match self.lldp {
                Some(l) => Some(l@),
                None => None,
            },
        }
    }
}

impl DeepView for InterfaceLldp {
    type V = InterfaceView;

    open spec fn deep_view(&self) -> InterfaceView {
        self@
    }
}

impl Clone for InterfaceLldp {
    fn clone(&self) -> (r: Self)
        ensures
            r@ == self@,
    {
        let lldp = match &self.lldp {
            Some(l) => Some(l.clone()),
            None => None,
        };
        InterfaceLldp { mac_address: self.mac_address.clone(), lldp }
    }
}

/// Whether two interface entries agree on the MAC address and the neighbor.
pub fn interface_equal(a: &InterfaceLldp, b: &InterfaceLldp) -> (r: bool)
    ensures
        r == (a@ == b@),
{
    if a.mac_address != b.mac_address {
        return false;
    }
    match (&a.lldp, &b.lldp) {
        (Some(x), Some(y)) => switch_data_equal(x, y),
        (None, None) => true,
        _ => false,
    }
}

/// Copies a snapshot of interfaces.
pub fn copy_interfaces(v: &Vec<InterfaceLldp>) -> (r: Vec<InterfaceLldp>)
    ensures
        r.deep_view() == v.deep_view(),
{
    let mut r: Vec<InterfaceLldp> = Vec::new();
    for i in 0..v.len()
        invariant
            r@.len() == i,
            forall|j: int| 0 <= j < i ==> (#[trigger] r@[j])@ == v@[j]@,
    {
        r.push(v[i].clone());
    }
    assert(r.deep_view() =~= v.deep_view());
    r
}

/// Whether two snapshots hold the same interfaces, with the same neighbors,
/// in the same order.
pub fn interfaces_equal(a: &[InterfaceLldp], b: &[InterfaceLldp]) -> (r: bool)
    ensures
        r == (a.deep_view() == b.deep_view()),
{
    if a.len() != b.len() {
        assert(a.deep_view().len() != b.deep_view().len());
        return false;
    }
    for i in 0..a.len()
        invariant
            a@.len() == b@.len(),
            forall|j: int| 0 <= j < i ==> (#[trigger] a@[j])@ == b@[j]@,
    {
        if !interface_equal(&a[i], &b[i]) {
            assert(a.deep_view()[i as int] != b.deep_view()[i as int]);
            return false;
        }
    }
    assert(a.deep_view() =~= b.deep_view());
    true
}

/// A full snapshot of a machine's per-interface LLDP neighbors, as an agent
/// reports it.
#[derive(Debug, PartialEq, Eq)]
pub struct LldpNeighborReport {
    pub machine_id: Option<String>,
    pub interfaces: Vec<InterfaceLldp>,
}

/// The view of one stored neighbor row.
pub struct StoredNeighborView {
    pub machine_id: Seq<char>,
    pub local_mac_address: Seq<char>,
    pub neighbor: SwitchView,
    pub updated: i64,
}

/// A stored LLDP neighbor observed on one local interface of a machine.
/// `updated` is the time at which the row was written, in microseconds since
/// the Unix epoch (UTC).
#[derive(Debug, PartialEq, Eq)]
pub struct MachineInterfaceLldp {
    pub machine_id: String,
    pub local_mac_address: String,
    pub local_port: String,
    pub remote_port: String,
    pub switch_name: String,
    pub switch_id: String,
    pub switch_description: String,
    pub switch_mgmt_ips: Vec<String>,
    pub updated: i64,
}

impl View for MachineInterfaceLldp {
    type V = StoredNeighborView;

    open spec fn view(&self) -> StoredNeighborView {
        StoredNeighborView {
            machine_id: self.machine_id@,
            local_mac_address: self.local_mac_address@,
            neighbor: SwitchView {
                local_port: self.local_port@,
                remote_port: self.remote_port@,
                name: self.switch_name@,
                id: self.switch_id@,
                description: self.switch_description@,
                ip_address: self.switch_mgmt_ips.deep_view(),
            },
            updated: self.updated,
        }
    }
}

impl DeepView for MachineInterfaceLldp {
    type V = StoredNeighborView;

    open spec fn deep_view(&self) -> StoredNeighborView {
        self@
    }
}

/// Two neighbors have the same view exactly when all their fields agree:
/// the view leaves no field out.
pub proof fn lemma_switch_view_is_all_fields(a: LldpSwitchData, b: LldpSwitchData)
    ensures
        a@ == b@ <==> {
            &&& a.id@ == b.id@
            &&& a.name@ == b.name@
            &&& a.description@ == b.description@
            &&& a.local_port@ == b.local_port@
            &&& a.remote_port@ == b.remote_port@
            &&& a.ip_address@.len() == b.ip_address@.len()
            &&& forall|i: int| 0 <= i < a.ip_address@.len() ==> (#[trigger] a.ip_address@[i])@ == b.ip_address@[i]@
        },
{
    let da = a.ip_address.deep_view();
    let db = b.ip_address.deep_view();
    assert(da.len() == a.ip_address@.len());
    assert(db.len() == b.ip_address@.len());
    assert forall|i: int| 0 <= i < a.ip_address@.len() implies da[i] == (#[trigger] a.ip_address@[i])@ by {}
    assert forall|i: int| 0 <= i < b.ip_address@.len() implies db[i] == (#[trigger] b.ip_address@[i])@ by {}
    if a.ip_address@.len() == b.ip_address@.len() && forall|i: int|
        0 <= i < a.ip_address@.len() ==> (#[trigger] a.ip_address@[i])@ == b.ip_address@[i]@ {
        assert(da =~= db);
    }
    if da == db {
        assert forall|i: int| 0 <= i < a.ip_address@.len() implies (#[trigger] a.ip_address@[i])@
            == b.ip_address@[i]@ by {
            assert(da[i] == db[i]);
        }
    }
}

/// Two interface entries have the same view exactly when they have the same
/// MAC address and either no neighbor or neighbors with the same view.
pub proof fn lemma_interface_view_is_all_fields(a: InterfaceLldp, b: InterfaceLldp)
    ensures
        a@ == b@ <==> {
            &&& a.mac_address@ == b.mac_address@
            &&& (a.lldp is Some) == (b.lldp is Some)
            &&& (a.lldp is Some ==> a.lldp->0@ == b.lldp->0@)
        },
{
}

/// Two stored rows have the same view exactly when all their fields agree.
pub proof fn lemma_row_view_is_all_fields(a: MachineInterfaceLldp, b: MachineInterfaceLldp)
    ensures
        a@ == b@ <==> {
            &&& a.machine_id@ == b.machine_id@
            &&& a.local_mac_address@ == b.local_mac_address@
            &&& a.local_port@ == b.local_port@
            &&& a.remote_port@ == b.remote_port@
            &&& a.switch_name@ == b.switch_name@
            &&& a.switch_id@ == b.switch_id@
            &&& a.switch_description@ == b.switch_description@
            &&& a.switch_mgmt_ips.deep_view() == b.switch_mgmt_ips.deep_view()
            &&& a.updated == b.updated
        },
{
}

} // verus!
