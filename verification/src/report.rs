//! Agent side: the cache that decides whether a periodic LLDP snapshot is
//! reported. An empty snapshot is never sent; a snapshot equal to the last
//! one sent successfully is not sent again; the cache changes only after a
//! successful send, so a failed send is retried on the next poll.

use vstd::prelude::*;
use crate::neighbor_set::{reported_neighbors, NeighborEntry};
use crate::types::{
    copy_interfaces, interfaces_equal, InterfaceLldp, InterfaceView, LldpNeighborReport, LldpSwitchData,
};

verus! {

/// Why reporting failed.
#[derive(Debug, PartialEq, Eq)]
pub enum LldpReportError {
    /// Collecting the local LLDP neighbors failed.
    Collect(String),
    /// The API server could not be reached.
    Connect(String),
    /// The report call itself failed.
    Rpc(String),
}

impl LldpReportError {
    /// The message of the error.
    pub fn message(&self) -> (m: String)
        ensures
            m@ == (match self {
                LldpReportError::Collect(s) => s@,
                LldpReportError::Connect(s) => s@,
                LldpReportError::Rpc(s) => s@,
            }),
    {
        match self {
            LldpReportError::Collect(s) => s.clone(),
            LldpReportError::Connect(s) => s.clone(),
            LldpReportError::Rpc(s) => s.clone(),
        }
    }
}

/// Outcome of one reporting round.
#[derive(Debug, Clone, Copy, PartialEq, Eq, Structural)]
pub enum ReportOutcome {
    /// The snapshot differed from the last one sent, so it was reported.
    Sent,
    /// The snapshot matched the last one sent, so nothing was reported.
    UnchangedSkipped,
    /// The snapshot was empty (no neighbors on any interface), so nothing was
    /// reported. An empty report is never sent.
    EmptySkipped,
}

/// The view of the cache: the last snapshot sent successfully, if any.
pub open spec fn cache_view(c: Option<Vec<InterfaceLldp>>) -> Option<Seq<InterfaceView>> {
    match c {
        Some(v) => Some(v.deep_view()),
        None => None,
    }
}

/// What a round does with `snapshot` given the cache: skip it as empty, skip
/// it as unchanged, or send it (`Sent`).
pub open spec fn report_decision(
    cache: Option<Seq<InterfaceView>>,
    snapshot: Seq<InterfaceView>,
) -> ReportOutcome {
    if snapshot.len() == 0 {
        ReportOutcome::EmptySkipped
    } else if cache == Some(snapshot) {
        ReportOutcome::UnchangedSkipped
    } else {
        ReportOutcome::Sent
    }
}

/// The cache after a round on `snapshot`, where `send_ok` says whether the
/// send (if one was made) succeeded.
pub open spec fn cache_after(
    cache: Option<Seq<InterfaceView>>,
    snapshot: Seq<InterfaceView>,
    send_ok: bool,
) -> Option<Seq<InterfaceView>> {
    if report_decision(cache, snapshot) == ReportOutcome::Sent && send_ok {
        Some(snapshot)
    } else {
        cache
    }
}

/// The result of a round in which the send returned `sent`.
pub open spec fn sent_result(sent: Result<(), LldpReportError>) -> Result<ReportOutcome, LldpReportError> {
    match sent {
        Ok(_) => Ok(ReportOutcome::Sent),
        Err(e) => Err(e),
    }
}

/// Whether `report` is the report of `snapshot` for machine `machine_id`.
pub open spec fn is_report_of(report: LldpNeighborReport, machine_id: Seq<char>, snapshot: Seq<InterfaceView>) -> bool {
    &&& report.machine_id matches Some(m) && m@ == machine_id
    &&& report.interfaces.deep_view() == snapshot
}

/// Decides a round: `EmptySkipped`, `UnchangedSkipped`, or `Sent` when the
/// snapshot has to be sent.
pub fn decide_report(last_sent: &Option<Vec<InterfaceLldp>>, interfaces: &[InterfaceLldp]) -> (d: ReportOutcome)
    ensures
        d == report_decision(cache_view(*last_sent), interfaces.deep_view()),
        interfaces@.len() == 0 ==> d == ReportOutcome::EmptySkipped,
        interfaces@.len() > 0 && last_sent is Some && last_sent->0.deep_view()
            == interfaces.deep_view() ==> d == ReportOutcome::UnchangedSkipped,
        interfaces@.len() > 0 && (last_sent is None || last_sent->0.deep_view()
            != interfaces.deep_view()) ==> d == ReportOutcome::Sent,
{
    if interfaces.len() == 0 {
        return ReportOutcome::EmptySkipped;
    }
    match last_sent {
        Some(prev) => {
            if interfaces_equal(prev.as_slice(), interfaces) {
                ReportOutcome::UnchangedSkipped
            } else {
                ReportOutcome::Sent
            }
        },
        None => ReportOutcome::Sent,
    }
}

/// Builds the report of a snapshot for a machine.
pub fn build_report(machine_id: &String, interfaces: &Vec<InterfaceLldp>) -> (report: LldpNeighborReport)
    ensures
        is_report_of(report, machine_id@, interfaces.deep_view()),
        report.machine_id matches Some(m) && m@ == machine_id@,
        report.interfaces.deep_view() == interfaces.deep_view(),
        report.interfaces@.len() == interfaces@.len(),
        forall|i: int| 0 <= i < interfaces@.len() ==> (#[trigger] report.interfaces@[i])@ == interfaces@[i]@,
{
    let report = LldpNeighborReport {
        machine_id: Some(machine_id.clone()),
        interfaces: copy_interfaces(interfaces),
    };
    assert(report.interfaces.deep_view().len() == report.interfaces@.len());
    assert forall|i: int| 0 <= i < interfaces@.len() implies (#[trigger] report.interfaces@[i])@
        == interfaces@[i]@ by {
        assert(report.interfaces.deep_view()[i] == interfaces.deep_view()[i]);
    }
    report
}

/// Records how a send of `interfaces` ended: on success the snapshot becomes
/// the cache and the round is `Sent`; on failure the cache is kept and the
/// error is returned, so the same snapshot is sent again next time.
pub fn record_send(
    last_sent: &mut Option<Vec<InterfaceLldp>>,
    interfaces: Vec<InterfaceLldp>,
    sent: Result<(), LldpReportError>,
) -> (result: Result<ReportOutcome, LldpReportError>)
    requires
        report_decision(cache_view(*old(last_sent)), interfaces.deep_view()) == ReportOutcome::Sent,
    ensures
        result == sent_result(sent),
        cache_view(*final(last_sent)) == cache_after(
            cache_view(*old(last_sent)),
            interfaces.deep_view(),
            sent is Ok,
        ),
{
    match sent {
        Ok(()) => {
            *last_sent = Some(interfaces);
            Ok(ReportOutcome::Sent)
        },
        Err(e) => Err(e),
    }
}

/// The cache holds nothing, or a non-empty snapshot (one that was sent).
pub open spec fn cache_is_sent_snapshot(cache: Option<Seq<InterfaceView>>) -> bool {
    cache matches Some(snap) ==> snap.len() > 0
}

/// What a round asks of its caller.
#[derive(Debug)]
pub enum ReportPlan {
    /// Nothing is sent; the round ends with this outcome.
    Skip(ReportOutcome),
    /// This report is to be sent; the caller then records how the send ended.
    Send(LldpNeighborReport),
}

/// Holds the cache across the poll loop, so that it persists between
/// iterations. An empty snapshot is never sent.
pub struct LldpReporter {
    machine_id: String,
    api: String,
    last_sent: Option<Vec<InterfaceLldp>>,
}

impl LldpReporter {
    /// The machine the reports are about.
    pub closed spec fn spec_machine_id(&self) -> Seq<char> {
        self.machine_id@
    }

    /// The address of the API server.
    pub closed spec fn spec_api(&self) -> Seq<char> {
        self.api@
    }

    /// The last snapshot sent successfully, if any.
    pub closed spec fn cache(&self) -> Option<Seq<InterfaceView>> {
        cache_view(self.last_sent)
    }

    /// A reporter for `machine_id` that reports to `api`, with an empty cache.
    pub fn new(machine_id: String, api: String) -> (r: Self)
        ensures
            r.spec_machine_id() == machine_id@,
            r.spec_api() == api@,
            r.cache() is None,
            cache_is_sent_snapshot(r.cache()),
    {
        LldpReporter { machine_id, api, last_sent: None }
    }

    /// The machine the reports are about.
    pub fn machine_id(&self) -> (m: &String)
        ensures
            m@ == self.spec_machine_id(),
    {
        &self.machine_id
    }

    /// The address of the API server.
    pub fn api(&self) -> (a: &String)
        ensures
            a@ == self.spec_api(),
    {
        &self.api
    }

    /// Plans a round on the current snapshot: skip it (empty, or equal to the
    /// last snapshot sent successfully), or send its report.
    pub fn plan_report(&self, interfaces: &Vec<InterfaceLldp>) -> (plan: ReportPlan)
        ensures
            report_decision(self.cache(), interfaces.deep_view()) != ReportOutcome::Sent ==> plan
                == ReportPlan::Skip(report_decision(self.cache(), interfaces.deep_view())),
            report_decision(self.cache(), interfaces.deep_view()) == ReportOutcome::Sent ==> (
            plan matches ReportPlan::Send(r) && is_report_of(
                r,
                self.spec_machine_id(),
                interfaces.deep_view(),
            )),
    {
        match decide_report(&self.last_sent, interfaces.as_slice()) {
            ReportOutcome::Sent => ReportPlan::Send(build_report(&self.machine_id, interfaces)),
            other => ReportPlan::Skip(other),
        }
    }

    /// Ends a round whose plan was to send `interfaces`: the cache is updated
    /// only after a successful send.
    pub fn finish_report(
        &mut self,
        interfaces: Vec<InterfaceLldp>,
        sent: Result<(), LldpReportError>,
    ) -> (result: Result<ReportOutcome, LldpReportError>)
        requires
            report_decision(old(self).cache(), interfaces.deep_view()) == ReportOutcome::Sent,
        ensures
            result == sent_result(sent),
            final(self).cache() == cache_after(old(self).cache(), interfaces.deep_view(), sent is Ok),
            final(self).spec_machine_id() == old(self).spec_machine_id(),
            final(self).spec_api() == old(self).spec_api(),
            cache_is_sent_snapshot(old(self).cache()) ==> cache_is_sent_snapshot(final(self).cache()),
    {
        record_send(&mut self.last_sent, interfaces, sent)
    }

    /// Reports `interfaces` through `send` unless it is empty or equal to the
    /// last snapshot sent successfully. `send` is called at most once, and
    /// only in the first case; the cache is updated only after `send`
    /// succeeds, so a failed send is retried on the next call.
    pub fn report_snapshot<F>(
        last_sent: &mut Option<Vec<InterfaceLldp>>,
        machine_id: &String,
        interfaces: Vec<InterfaceLldp>,
        send: F,
    ) -> (result: Result<ReportOutcome, LldpReportError>) where
        F: FnOnce(LldpNeighborReport) -> Result<(), LldpReportError>,

        requires
            report_decision(cache_view(*old(last_sent)), interfaces.deep_view())
                == ReportOutcome::Sent ==> forall|r: LldpNeighborReport|
                is_report_of(r, machine_id@, interfaces.deep_view()) ==> #[trigger] send.requires(
                (r,),
            ),
        ensures
            report_decision(cache_view(*old(last_sent)), interfaces.deep_view())
                != ReportOutcome::Sent ==> {
                &&& result == Ok::<ReportOutcome, LldpReportError>(
                    report_decision(cache_view(*old(last_sent)), interfaces.deep_view()),
                )
                &&& cache_view(*final(last_sent)) == cache_view(*old(last_sent))
            },
            report_decision(cache_view(*old(last_sent)), interfaces.deep_view())
                == ReportOutcome::Sent ==> exists|
                report: LldpNeighborReport,
                sent: Result<(), LldpReportError>,
            |
                {
                    &&& is_report_of(report, machine_id@, interfaces.deep_view())
                    &&& send.ensures((report,), sent)
                    &&& result == sent_result(sent)
                    &&& cache_view(*final(last_sent)) == cache_after(
                        cache_view(*old(last_sent)),
                        interfaces.deep_view(),
                        sent is Ok,
                    )
                },
    {
        match decide_report(last_sent, interfaces.as_slice()) {
            ReportOutcome::Sent => {
                let report = build_report(machine_id, &interfaces);
                let ghost report_view = report;
                let sent = send(report);
                let ghost sent_view = sent;
                let result = record_send(last_sent, interfaces, sent);
                assert(send.ensures((report_view,), sent_view));
                result
            },
            other => Ok(other),
        }
    }
}

/// A snapshot that was sent successfully is not sent again: the next round on
/// the same snapshot is `UnchangedSkipped`.
pub proof fn lemma_sent_snapshot_not_resent(cache: Option<Seq<InterfaceView>>, snapshot: Seq<InterfaceView>)
    requires
        report_decision(cache, snapshot) == ReportOutcome::Sent,
    ensures
        report_decision(cache_after(cache, snapshot, true), snapshot) == ReportOutcome::UnchangedSkipped,
{
}

/// A failed send leaves the cache as it was, so the next round on the same
/// snapshot sends it again.
pub proof fn lemma_failed_send_retried(cache: Option<Seq<InterfaceView>>, snapshot: Seq<InterfaceView>)
    requires
        report_decision(cache, snapshot) == ReportOutcome::Sent,
    ensures
        cache_after(cache, snapshot, false) == cache,
        report_decision(cache_after(cache, snapshot, false), snapshot) == ReportOutcome::Sent,
{
}

/// An empty snapshot is never sent and leaves the cache as it was, whatever
/// the cache holds.
pub proof fn lemma_empty_snapshot_skipped(cache: Option<Seq<InterfaceView>>, send_ok: bool)
    ensures
        report_decision(cache, Seq::empty()) == ReportOutcome::EmptySkipped,
        cache_after(cache, Seq::empty(), send_ok) == cache,
{
}

/// Only a successful send changes the cache, and then to the snapshot sent;
/// skipped rounds and failed sends keep it.
pub proof fn lemma_cache_changes_only_on_success(
    cache: Option<Seq<InterfaceView>>,
    snapshot: Seq<InterfaceView>,
    send_ok: bool,
)
    ensures
        cache_after(cache, snapshot, send_ok) == cache || (send_ok && report_decision(cache, snapshot)
            == ReportOutcome::Sent && cache_after(cache, snapshot, send_ok) == Some(snapshot)),
{
}

/// The snapshot entry of an interface on which `entry` was seen.
pub open spec fn interface_of(entry: NeighborEntry) -> InterfaceView {
    InterfaceView { mac_address: entry.0, lldp: Some(entry.1) }
}

/// Turns the collected neighbors, `(local MAC, neighbor)` in collection order,
/// into a snapshot: one interface entry per neighbor, in the same order.
pub fn snapshot_from_neighbors(neighbors: &[(String, LldpSwitchData)]) -> (snapshot: Vec<InterfaceLldp>)
    ensures
        snapshot.deep_view() == neighbors.deep_view().map_values(|e: NeighborEntry| interface_of(e)),
{
    let ghost nv = neighbors.deep_view();
    let mut snapshot: Vec<InterfaceLldp> = Vec::new();
    for i in 0..neighbors.len()
        invariant
            nv == neighbors.deep_view(),
            snapshot@.len() == i,
            forall|j: int| 0 <= j < i ==> (#[trigger] snapshot@[j])@ == interface_of(nv[j]),
    {
        let (mac, switch) = &neighbors[i];
        snapshot.push(InterfaceLldp { mac_address: mac.clone(), lldp: Some(switch.clone()) });
    }
    assert(snapshot.deep_view() =~= nv.map_values(|e: NeighborEntry| interface_of(e)));
    snapshot
}

/// What the agent collects is what the server stores: the neighbors that a
/// collected snapshot reports are exactly the collected neighbors, in order.
pub proof fn lemma_snapshot_reports_collected_neighbors(neighbors: Seq<NeighborEntry>)
    ensures
        reported_neighbors(neighbors.map_values(|e: NeighborEntry| interface_of(e))) == neighbors,
    decreases neighbors.len(),
{
    if neighbors.len() > 0 {
        let p = neighbors.drop_last();
        lemma_snapshot_reports_collected_neighbors(p);
        assert(neighbors.map_values(|e: NeighborEntry| interface_of(e)).drop_last() =~= p.map_values(
            |e: NeighborEntry| interface_of(e),
        ));
        assert(neighbors =~= p.push(neighbors.last()));
    }
}

/// The cache after a sequence of rounds, each given by its snapshot and by
/// whether its send (if one was made) succeeded.
pub open spec fn cache_after_rounds(
    cache: Option<Seq<InterfaceView>>,
    rounds: Seq<(Seq<InterfaceView>, bool)>,
) -> Option<Seq<InterfaceView>>
    decreases rounds.len(),
{
    if rounds.len() == 0 {
        cache
    } else {
        let before = cache_after_rounds(cache, rounds.drop_last());
        cache_after(before, rounds.last().0, rounds.last().1)
    }
}

/// Over any sequence of rounds from an empty cache: no round sends an empty
/// snapshot, and the cache is either empty or holds the non-empty snapshot of
/// a round that was sent and whose send succeeded.
pub proof fn lemma_rounds_from_empty_cache(rounds: Seq<(Seq<InterfaceView>, bool)>)
    ensures
        forall|i: int|
            0 <= i < rounds.len() && report_decision(
                cache_after_rounds(None, rounds.take(i)),
                (#[trigger] rounds[i]).0,
            ) == ReportOutcome::Sent ==> rounds[i].0.len() > 0,
        cache_after_rounds(None, rounds) matches Some(snap) ==> {
            &&& snap.len() > 0
            &&& exists|i: int|
                0 <= i < rounds.len() && (#[trigger] rounds[i]).0 == snap && rounds[i].1
                    && report_decision(cache_after_rounds(None, rounds.take(i)), rounds[i].0)
                    == ReportOutcome::Sent
        },
    decreases rounds.len(),
{
    if rounds.len() > 0 {
        let p = rounds.drop_last();
        lemma_rounds_from_empty_cache(p);
        let n = rounds.len() - 1;
        assert(rounds.take(n) =~= p);
        assert forall|i: int| 0 <= i < p.len() implies rounds.take(i) =~= p.take(i) by {}
        assert forall|i: int| 0 <= i < p.len() implies #[trigger] rounds[i] == p[i] by {}
        let before = cache_after_rounds(None, p);
        if cache_after_rounds(None, rounds) != before {
            assert(rounds[n].0 == rounds.last().0);
        } else if let Some(snap) = before {
            let i = choose|i: int|
                0 <= i < p.len() && (#[trigger] p[i]).0 == snap && p[i].1 && report_decision(
                    cache_after_rounds(None, p.take(i)),
                    p[i].0,
                ) == ReportOutcome::Sent;
            assert(rounds[i] == p[i]);
            assert(rounds.take(i) =~= p.take(i));
        }
    }
}

/// A round decides by the snapshot alone when it is empty, and otherwise by
/// comparing it, in full, with the last snapshot sent: an empty snapshot is
/// skipped; a snapshot equal to the cache is skipped as unchanged; a
/// non-empty snapshot that differs from the cache in anything (or with no
/// cache) is sent.
pub proof fn lemma_decision_by_comparison(cache: Option<Seq<InterfaceView>>, snapshot: Seq<InterfaceView>)
    ensures
        snapshot.len() == 0 ==> report_decision(cache, snapshot) == ReportOutcome::EmptySkipped,
        snapshot.len() > 0 && cache == Some(snapshot) ==> report_decision(cache, snapshot)
            == ReportOutcome::UnchangedSkipped,
        snapshot.len() > 0 && cache != Some(snapshot) ==> report_decision(cache, snapshot)
            == ReportOutcome::Sent,
{
}

/// Two snapshots that differ in one field of one interface (any field of the
/// neighbor, or its presence, or the MAC address) are different snapshots, so
/// after sending one, the other is sent too.
pub proof fn lemma_changed_interface_is_sent(
    cache: Seq<InterfaceView>,
    snapshot: Seq<InterfaceView>,
    i: int,
)
    requires
        cache.len() == snapshot.len(),
        0 <= i < snapshot.len(),
        cache[i] != snapshot[i],
    ensures
        report_decision(Some(cache), snapshot) == ReportOutcome::Sent,
{
    assert(cache != snapshot);
}

/// The report of a snapshot carries the machine id and every interface of the
/// snapshot, with every field of its neighbor (management addresses
/// included), in order.
pub proof fn lemma_report_carries_snapshot(
    report: LldpNeighborReport,
    machine_id: Seq<char>,
    snapshot: Seq<InterfaceView>,
)
    requires
        is_report_of(report, machine_id, snapshot),
    ensures
        report.machine_id is Some,
        report.machine_id->0@ == machine_id,
        report.interfaces@.len() == snapshot.len(),
        forall|i: int| 0 <= i < snapshot.len() ==> (#[trigger] report.interfaces@[i])@ == snapshot[i],
{
    assert forall|i: int| 0 <= i < snapshot.len() implies (#[trigger] report.interfaces@[i])@ == snapshot[i] by {
        assert(report.interfaces.deep_view()[i] == report.interfaces@[i].deep_view());
    }
}

} // verus!
