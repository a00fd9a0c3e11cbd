use std::cell::RefCell;

use lldp_neighbors::report::{LldpReportError, LldpReporter, ReportOutcome, ReportPlan};
use lldp_neighbors::types::{InterfaceLldp, LldpNeighborReport, LldpSwitchData};

fn iface_lldp(mac: &str, port: &str) -> InterfaceLldp {
    InterfaceLldp {
        mac_address: mac.to_string(),
        lldp: Some(LldpSwitchData {
            local_port: port.to_string(),
            ..Default::default()
        }),
    }
}

/// In-memory stand-in for the report endpoint: records every report it
/// receives; `fail` makes a send fail.
#[derive(Default)]
struct MockGrpc {
    received: RefCell<Vec<LldpNeighborReport>>,
    fail: bool,
}

impl MockGrpc {
    fn sender(&self) -> impl FnOnce(LldpNeighborReport) -> Result<(), LldpReportError> + '_ {
        move |report| {
            self.received.borrow_mut().push(report);
            if self.fail {
                Err(LldpReportError::Rpc("mock failure".into()))
            } else {
                Ok(())
            }
        }
    }

    fn call_count(&self) -> usize {
        self.received.borrow().len()
    }
}

fn machine_id() -> String {
    "fm100dsasb5dsh6e6ogogslpovne4rj82rp9jlf00qd7mcvmaadv85phk3g".to_string()
}

#[test]
fn unchanged_snapshot_is_not_resent() {
    let mut last_sent = None;
    let grpc = MockGrpc::default();

    let snap = vec![iface_lldp("aa:bb:cc:dd:ee:ff", "p0")];

    let outcome =
        LldpReporter::report_snapshot(&mut last_sent, &machine_id(), snap.clone(), grpc.sender())
            .unwrap();
    assert_eq!(outcome, ReportOutcome::Sent);
    assert_eq!(grpc.call_count(), 1, "first snapshot should be sent");

    let outcome =
        LldpReporter::report_snapshot(&mut last_sent, &machine_id(), snap.clone(), grpc.sender())
            .unwrap();
    assert_eq!(outcome, ReportOutcome::UnchangedSkipped);
    assert_eq!(
        grpc.call_count(),
        1,
        "identical snapshot must not trigger another RPC"
    );

    let changed = vec![
        iface_lldp("aa:bb:cc:dd:ee:ff", "p0"),
        iface_lldp("aa:bb:cc:dd:ee:aa", "p1"),
    ];
    let outcome = LldpReporter::report_snapshot(
        &mut last_sent,
        &machine_id(),
        changed.clone(),
        grpc.sender(),
    )
    .unwrap();
    assert_eq!(outcome, ReportOutcome::Sent);
    assert_eq!(grpc.call_count(), 2, "changed snapshot should be sent");

    let received = grpc.received.borrow();
    assert_eq!(received[0].interfaces, snap);
    assert_eq!(received[1].interfaces, changed);
}

#[test]
fn empty_snapshot_is_skipped_and_preserves_cache() {
    let mut last_sent = None;
    let grpc = MockGrpc::default();
    let snap = vec![iface_lldp("aa:bb:cc:dd:ee:ff", "p0")];

    LldpReporter::report_snapshot(&mut last_sent, &machine_id(), snap.clone(), grpc.sender())
        .unwrap();
    assert_eq!(grpc.call_count(), 1);

    let outcome =
        LldpReporter::report_snapshot(&mut last_sent, &machine_id(), vec![], grpc.sender())
            .unwrap();
    assert_eq!(outcome, ReportOutcome::EmptySkipped);
    assert_eq!(grpc.call_count(), 1, "empty snapshot must not be sent");

    let outcome =
        LldpReporter::report_snapshot(&mut last_sent, &machine_id(), snap.clone(), grpc.sender())
            .unwrap();
    assert_eq!(outcome, ReportOutcome::UnchangedSkipped);
    assert_eq!(grpc.call_count(), 1);
}

#[test]
fn failed_send_is_retried_next_time() {
    let mut last_sent = None;
    let snap = vec![iface_lldp("aa:bb:cc:dd:ee:ff", "p0")];

    let failing = MockGrpc {
        fail: true,
        ..Default::default()
    };
    let err =
        LldpReporter::report_snapshot(&mut last_sent, &machine_id(), snap.clone(), failing.sender());
    assert!(err.is_err(), "send failure should propagate");
    assert_eq!(failing.call_count(), 1);

    let ok = MockGrpc::default();
    let outcome =
        LldpReporter::report_snapshot(&mut last_sent, &machine_id(), snap.clone(), ok.sender())
            .unwrap();
    assert_eq!(
        outcome,
        ReportOutcome::Sent,
        "unchanged after a failed send must retry"
    );
    assert_eq!(ok.call_count(), 1);
}

#[test]
fn sent_report_carries_machine_id_and_snapshot() {
    let mut last_sent = None;
    let grpc = MockGrpc::default();
    let snap = vec![iface_lldp("aa:bb:cc:dd:ee:ff", "p0")];
    LldpReporter::report_snapshot(&mut last_sent, &machine_id(), snap.clone(), grpc.sender())
        .unwrap();
    let received = grpc.received.borrow();
    assert_eq!(received[0].machine_id, Some(machine_id()));
    assert_eq!(received[0].interfaces, snap);
    assert_eq!(last_sent, Some(snap));
}

#[test]
fn failed_send_returns_the_send_error_and_keeps_cache() {
    let first = vec![iface_lldp("aa:bb:cc:dd:ee:ff", "p0")];
    let mut last_sent = Some(first.clone());
    let failing = MockGrpc {
        fail: true,
        ..Default::default()
    };
    let second = vec![iface_lldp("aa:bb:cc:dd:ee:ff", "p9")];
    let err = LldpReporter::report_snapshot(&mut last_sent, &machine_id(), second, failing.sender());
    assert_eq!(err, Err(LldpReportError::Rpc("mock failure".to_string())));
    assert_eq!(last_sent, Some(first));
}

#[test]
fn neighbor_change_on_same_interface_is_resent() {
    let mut last_sent = None;
    let grpc = MockGrpc::default();
    let a = vec![iface_lldp("aa:bb:cc:dd:ee:ff", "p0")];
    let mut b = a.clone();
    b[0].lldp.as_mut().unwrap().ip_address.push("10.0.0.1".to_string());
    LldpReporter::report_snapshot(&mut last_sent, &machine_id(), a, grpc.sender()).unwrap();
    let outcome =
        LldpReporter::report_snapshot(&mut last_sent, &machine_id(), b, grpc.sender()).unwrap();
    assert_eq!(outcome, ReportOutcome::Sent);
    assert_eq!(grpc.call_count(), 2);
}

#[test]
fn reordered_snapshot_is_resent() {
    let mut last_sent = None;
    let grpc = MockGrpc::default();
    let a = vec![iface_lldp("m1", "p0"), iface_lldp("m2", "p1")];
    let b = vec![iface_lldp("m2", "p1"), iface_lldp("m1", "p0")];
    LldpReporter::report_snapshot(&mut last_sent, &machine_id(), a, grpc.sender()).unwrap();
    let outcome =
        LldpReporter::report_snapshot(&mut last_sent, &machine_id(), b, grpc.sender()).unwrap();
    assert_eq!(outcome, ReportOutcome::Sent);
}

#[test]
fn reporter_plans_and_finishes_rounds() {
    let mut reporter = LldpReporter::new(machine_id(), "https://api:1079".to_string());
    assert_eq!(reporter.machine_id(), &machine_id());
    assert_eq!(reporter.api(), "https://api:1079");

    match reporter.plan_report(&vec![]) {
        ReportPlan::Skip(o) => assert_eq!(o, ReportOutcome::EmptySkipped),
        ReportPlan::Send(_) => panic!("empty snapshot must not be sent"),
    }

    let snap = vec![iface_lldp("aa:bb:cc:dd:ee:ff", "p0")];
    let report = match reporter.plan_report(&snap) {
        ReportPlan::Send(r) => r,
        ReportPlan::Skip(o) => panic!("expected a send, got {:?}", o),
    };
    assert_eq!(report.machine_id, Some(machine_id()));
    assert_eq!(report.interfaces, snap);

    let failed = reporter.finish_report(snap.clone(), Err(LldpReportError::Connect("down".into())));
    assert_eq!(failed, Err(LldpReportError::Connect("down".to_string())));
    assert!(matches!(reporter.plan_report(&snap), ReportPlan::Send(_)));

    let sent = reporter.finish_report(snap.clone(), Ok(()));
    assert_eq!(sent, Ok(ReportOutcome::Sent));
    match reporter.plan_report(&snap) {
        ReportPlan::Skip(o) => assert_eq!(o, ReportOutcome::UnchangedSkipped),
        ReportPlan::Send(_) => panic!("unchanged snapshot must not be resent"),
    }
}

#[test]
fn error_messages() {
    assert_eq!(LldpReportError::Collect("a".into()).message(), "a");
    assert_eq!(LldpReportError::Connect("b".into()).message(), "b");
    assert_eq!(LldpReportError::Rpc("c".into()).message(), "c");
}
