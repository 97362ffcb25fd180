use mogwai_server::decimal::Dec;
use mogwai_server::havoc::{
    ArmRecord, ArmedSpan, HavocWindow, Latency, LedgerArms, Surcharge, Transport, VenueArm,
    VenueArms,
};

struct SimClock {
    sim_epoch_ns: u64,
    wall_anchor_ns: u64,
    speed: f64,
}

impl SimClock {
    fn sim_ns(&self, wall_ns: u64) -> u64 {
        let past = wall_ns.saturating_sub(self.wall_anchor_ns);
        self.sim_epoch_ns + (past as f64 * self.speed) as u64
    }
}

fn sim(anchor: u64, speed: f64) -> SimClock {
    SimClock {
        sim_epoch_ns: 1_000,
        wall_anchor_ns: anchor,
        speed,
    }
}

fn open_at(window: &HavocWindow, clock: &SimClock, at: u64) -> bool {
    let armed = window
        .span
        .map_or(0, |span| clock.sim_ns(span.wall_armed_ns));
    window.open_at(armed, clock.sim_epoch_ns, at)
}

#[test]
fn arming_replaces_rather_than_extends() {
    let mut window = HavocWindow::new();
    window.arm(10, 100);
    window.arm(20, 5);
    assert!(open_at(&window, &sim(0, 1.0), 1_022));
    assert!(!open_at(&window, &sim(0, 1.0), 1_026));
}

#[test]
fn a_cleared_window_is_open_for_no_clock() {
    let mut window = HavocWindow::new();
    window.arm(10, 100);
    window.clear();
    assert!(!open_at(&window, &sim(0, 1.0), 1_010));
}

#[test]
fn the_same_window_spans_equal_sim_time_on_two_different_speeds() {
    let mut window = HavocWindow::new();
    window.arm(10, 100);
    let slow = sim(0, 1.0);
    let fast = sim(0, 10.0);
    let slow_open = slow.sim_ns(10);
    let fast_open = fast.sim_ns(10);
    assert!(open_at(&window, &slow, slow_open + 99));
    assert!(open_at(&window, &fast, fast_open + 99));
    assert!(!open_at(&window, &slow, slow_open + 100));
    assert!(!open_at(&window, &fast, fast_open + 100));
}

#[test]
fn a_reader_anchored_after_the_arm_opens_at_its_own_epoch() {
    let mut window = HavocWindow::new();
    window.arm(10, 100);
    let late = sim(20, 5.0);
    assert!(open_at(&window, &late, late.sim_epoch_ns));
    assert!(!open_at(&window, &late, late.sim_epoch_ns + 100));
}

#[test]
fn a_transport_takes_each_arm_and_is_calm_when_cleared() {
    let mut transport = Transport::new();
    transport.apply(VenueArm::DelayAcks { ms: 37 });
    transport.apply(VenueArm::GoDark {
        span: ArmedSpan {
            wall_armed_ns: 1,
            sim_span_ns: 2,
        },
    });
    transport.apply(VenueArm::StallData {
        span: ArmedSpan {
            wall_armed_ns: 3,
            sim_span_ns: 4,
        },
    });
    transport.apply(VenueArm::CommandLatency {
        latency: Latency {
            submit_act_ms: 1,
            modify_act_ms: 2,
            cancel_act_ms: 3,
            submit_ack_ms: 4,
            modify_ack_ms: 5,
            cancel_ack_ms: 6,
        },
    });
    assert_eq!(transport.delay_ms, 37);
    assert_eq!(transport.dark.span.unwrap().sim_span_ns, 2);
    assert_eq!(transport.stall.span.unwrap().wall_armed_ns, 3);
    assert_eq!(transport.latency.cancel_ack_ms, 6);
    transport.clear();
    assert_eq!(transport, Transport::new());
}

#[test]
fn a_full_ledger_sheds_its_oldest_divergence() {
    let mut ledger = LedgerArms::new();
    assert_eq!(ledger.arm(VenueArm::Engine { divergence: 1 }, 2), None);
    assert_eq!(ledger.arm(VenueArm::Engine { divergence: 2 }, 2), None);
    assert_eq!(ledger.arm(VenueArm::Engine { divergence: 3 }, 2), Some(1));
    assert_eq!(ledger.queue, [2, 3]);
}

#[test]
fn a_record_is_played_onto_what_opens_later() {
    let surcharge = Surcharge {
        mult: Dec::new(2, 0).unwrap(),
        armed_ns: 5,
        span_ns: 6,
    };
    let mut record = ArmRecord::new();
    record.record(VenueArm::DelayAcks { ms: 12 }, 8);
    record.record(VenueArm::FeeSurcharge { surcharge }, 8);
    record.record(VenueArm::Engine { divergence: 9 }, 8);
    let mut transport = Transport::new();
    record.open_transport(&mut transport);
    assert_eq!(transport.delay_ms, 12);
    let mut ledger = LedgerArms::new();
    record.open_engine(&mut ledger, 8);
    assert_eq!(ledger.surcharge, Some(surcharge));
    assert_eq!(ledger.queue, [9]);

    record.clear_transport_and_fee();
    let mut calm = Transport::new();
    record.open_transport(&mut calm);
    assert_eq!(calm, Transport::new());
    let mut later = LedgerArms::new();
    record.open_engine(&mut later, 8);
    assert_eq!(later.surcharge, None);
    assert_eq!(later.queue, [9], "a ledger's own queue is not lifted");
}

#[test]
fn what_waits_for_an_account_is_taken_once() {
    let mut arms = VenueArms::new();
    arms.record_pending("SUB-01", VenueArm::DelayAcks { ms: 5 }, 8);
    arms.record_pending("SUB-01", VenueArm::DelayAcks { ms: 7 }, 8);
    let waiting = arms.take_pending("SUB-01").expect("something waits");
    assert_eq!(waiting.delay_ms, Some(7));
    assert!(arms.take_pending("SUB-01").is_none());
}
