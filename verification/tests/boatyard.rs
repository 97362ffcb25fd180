use mogwai_server::boatyard::{
    quantize, AskedSpeed, BoardRefusal, Boarding, Boatyard, Leaving, Ticket,
};

fn asked(speed: f64) -> AskedSpeed {
    AskedSpeed {
        bits: speed.to_bits(),
        scaled: (speed * 1_000_000.0).to_bits(),
    }
}

fn first(yard: &mut Boatyard, river: &str, speed: f64) -> Ticket {
    match yard.board(river, asked(speed)) {
        Boarding::Place { .. } => yard.settle(river, true).expect("the boat was placed"),
        other => panic!("the first boarder places the boat, not {other:?}"),
    }
}

#[test]
fn two_requests_with_one_sharing_key_share_one_boat() {
    let mut yard = Boatyard::new();
    let one = first(&mut yard, "BTCUSDT", 1.0);
    match yard.board("BTCUSDT", asked(1.0000001)) {
        Boarding::Boarded { ticket } => assert_eq!(ticket.boat(), one.boat()),
        other => panic!("the second boarder shares the boat, not {other:?}"),
    }
}

#[test]
fn a_second_speed_on_a_boated_river_is_refused_naming_the_sitting_speed() {
    let mut yard = Boatyard::new();
    let _one = first(&mut yard, "BTCUSDT", 2.0);
    match yard.board("BTCUSDT", asked(3.0)) {
        Boarding::Refused {
            refusal: BoardRefusal::SpeedInUse { sitting_micros },
        } => assert_eq!(sitting_micros as f64 / 1_000_000.0, 2.0),
        _ => panic!("second speed was not refused"),
    }
}

#[test]
fn the_last_passenger_leaving_winds_the_boat_down_and_joins_its_worker() {
    let mut yard = Boatyard::new();
    let ticket = first(&mut yard, "BTCUSDT", 1.0);
    let boat = ticket.boat();
    assert_eq!(ticket.river(), "BTCUSDT");
    assert_eq!(yard.leave(ticket), Leaving::WindDown { boat });
    assert!(yard.seated_rivers().is_empty());
    assert_eq!(yard.boat_on("BTCUSDT"), None);
}

#[test]
fn a_failed_placement_leaves_no_placeholder_for_the_next_joiner() {
    let mut yard = Boatyard::new();
    for _ in 0..2 {
        match yard.board("BTCUSDT", asked(1.0)) {
            Boarding::Place { .. } => assert!(yard.settle("BTCUSDT", false).is_none()),
            other => panic!("a failed placement left a placeholder behind: {other:?}"),
        }
    }
    assert!(yard.seated_rivers().is_empty());
}

#[test]
fn concurrent_first_boarders_share_one_placement() {
    let mut yard = Boatyard::new();
    assert!(matches!(
        yard.board("BTCUSDT", asked(1.0)),
        Boarding::Place { .. }
    ));
    for _ in 0..7 {
        assert!(matches!(yard.board("BTCUSDT", asked(1.0)), Boarding::Wait));
    }
    let placed = yard.settle("BTCUSDT", true).expect("the boat was placed");
    for _ in 0..7 {
        match yard.board("BTCUSDT", asked(1.0)) {
            Boarding::Boarded { ticket } => assert_eq!(ticket.boat(), placed.boat()),
            other => panic!("a first boarder is never refused: {other:?}"),
        }
    }
    assert_eq!(yard.seated_rivers().len(), 1);
}

#[test]
fn a_joiner_racing_the_last_departure_never_boards_a_wound_down_boat() {
    let mut yard = Boatyard::new();
    let sitting = first(&mut yard, "BTCUSDT", 1.0);
    let gone = sitting.boat();
    assert_eq!(yard.leave(sitting), Leaving::WindDown { boat: gone });
    let joined = first(&mut yard, "BTCUSDT", 1.0);
    assert_ne!(joined.boat(), gone);
}

#[test]
fn leaving_a_shared_boat_keeps_it() {
    let mut yard = Boatyard::new();
    let one = first(&mut yard, "BTCUSDT", 1.0);
    let two = match yard.board("BTCUSDT", asked(1.0)) {
        Boarding::Boarded { ticket } => ticket,
        other => panic!("{other:?}"),
    };
    let boat = one.boat();
    assert_eq!(yard.leave(one), Leaving::Stays);
    assert_eq!(yard.boat_on("BTCUSDT"), Some(boat));
    assert_eq!(yard.leave(two), Leaving::WindDown { boat });
}

#[test]
fn rivers_keep_their_own_boats() {
    let mut yard = Boatyard::new();
    let one = first(&mut yard, "BTCUSDT", 1.0);
    let two = first(&mut yard, "ETHUSDT", 5.0);
    assert_ne!(one.boat(), two.boat());
    assert_eq!(yard.seated_rivers(), vec!["BTCUSDT", "ETHUSDT"]);
}

#[test]
fn a_speed_is_shared_to_the_nearest_millionth() {
    for (speed, micros) in [
        (0.0, 0),
        (1.0, 1_000_000),
        (1.0000004, 1_000_000),
        (1.0000005, 1_000_001),
        (0.25, 250_000),
        (60.0, 60_000_000),
        (1e6, 1_000_000_000_000),
    ] {
        let scaled: f64 = speed * 1_000_000.0;
        assert_eq!(quantize(scaled.to_bits()), micros, "{speed}");
        assert_eq!(scaled.round() as u64, micros, "{speed}");
    }
    assert_eq!(quantize((-0.0f64).to_bits()), 0);
}

#[test]
fn a_standstill_is_paced_at_nothing_and_told_by_a_clock_that_runs() {
    let mut yard = Boatyard::new();
    match yard.board("BTCUSDT", asked(0.0)) {
        Boarding::Place {
            speed_micros,
            clock_micros,
        } => {
            assert_eq!(speed_micros, 0);
            assert!(clock_micros > 0);
        }
        other => panic!("{other:?}"),
    }
}

#[test]
fn what_is_no_speed_is_refused() {
    let mut yard = Boatyard::new();
    for speed in [f64::NAN, f64::INFINITY, -1.0] {
        match yard.board("BTCUSDT", asked(speed)) {
            Boarding::Refused { refusal } => {
                assert_eq!(refusal, BoardRefusal::NotASpeed);
                assert_eq!(
                    refusal.message("-1"),
                    Some("speed must be finite and non-negative".to_string())
                );
            }
            other => panic!("{other:?}"),
        }
    }
}

#[test]
fn a_speed_past_the_range_is_refused() {
    let mut yard = Boatyard::new();
    match yard.board("BTCUSDT", asked(1e300)) {
        Boarding::Refused { refusal } => {
            assert_eq!(refusal, BoardRefusal::BeyondRange);
            assert_eq!(
                refusal.message("1e300"),
                Some(
                    "speed 1e300 is beyond the quantization range; the maximum is 1000000"
                        .to_string()
                )
            );
        }
        other => panic!("{other:?}"),
    }
}

#[test]
fn an_abandoned_river_takes_any_speed() {
    let mut yard = Boatyard::new();
    let ticket = first(&mut yard, "BTCUSDT", 2.0);
    assert!(matches!(
        yard.board("BTCUSDT", asked(3.0)),
        Boarding::Refused { .. }
    ));
    yard.leave(ticket);
    let other = first(&mut yard, "BTCUSDT", 3.0);
    assert_eq!(yard.boat_on("BTCUSDT"), Some(other.boat()));
    assert_eq!(yard.seated_rivers(), vec!["BTCUSDT".to_string()]);
}
