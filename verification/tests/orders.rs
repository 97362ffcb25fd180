use mogwai_server::control::{
    answer_cancel, answer_clear, answer_engine, answer_told, arm_divergence, Control, Divergence,
    Windows,
};
use mogwai_server::decimal::Dec;
use mogwai_server::desk::{process_order_cmd, OrderStep};
use mogwai_server::havoc::Latency;
use mogwai_server::orders::{
    act, admission_subject, boundary_error, boundary_refusal, conclude, mismatch_reason,
    stamp_market_price, ActDelays, AdmissionSubject, ClientMessage, MarketView,
    OrderOutcome, OrderType, QueryKind, ServerMessage, Side, Verdicts,
};

fn whole(n: i128) -> Dec {
    Dec::new(n, 0).expect("a whole amount")
}

fn submit(id: &str, symbol: &str, order_type: OrderType, price: Option<Dec>) -> ClientMessage<String> {
    ClientMessage::SubmitOrder {
        client_order_id: id.to_string(),
        symbol: symbol.to_string(),
        side: Side::Buy,
        order_type,
        price,
    }
}

fn modify(id: &str, price: Option<Dec>) -> ClientMessage<String> {
    ClientMessage::ModifyOrder {
        client_order_id: id.to_string(),
        price,
    }
}

fn cancel(id: &str) -> ClientMessage<String> {
    ClientMessage::CancelOrder {
        client_order_id: id.to_string(),
    }
}

fn query(request: &str, order: Option<&str>) -> ClientMessage<String> {
    ClientMessage::QueryOrders {
        request_id: request.to_string(),
        client_order_id: order.map(str::to_string),
    }
}

fn sound() -> Verdicts {
    Verdicts {
        order: None,
        client_order_id: None,
        numbers: None,
        request_id: None,
    }
}

const DELAYS: ActDelays = ActDelays {
    submit_ms: 1,
    modify_ms: 2,
    cancel_ms: 3,
};

const PROMPT: ActDelays = ActDelays {
    submit_ms: 0,
    modify_ms: 0,
    cancel_ms: 0,
};

const OPEN: MarketView = MarketView {
    listed: true,
    open: Some(true),
    reading_trades_through: None,
};

fn entered(cmd: ClientMessage<String>, verdicts: &Verdicts, delays: ActDelays) -> OrderStep {
    process_order_cmd(cmd, verdicts, 4, "MNQ", delays, 9)
}

#[test]
fn a_refusal_for_want_of_room_names_its_subject() {
    assert!(matches!(
        admission_subject(&submit("A", "MNQ", OrderType::Limit, None)),
        AdmissionSubject::Submit { client_order_id } if client_order_id == "A"
    ));
    assert!(matches!(
        admission_subject(&modify("A", None)),
        AdmissionSubject::Modify { client_order_id } if client_order_id == "A"
    ));
    assert!(matches!(
        admission_subject(&cancel("A")),
        AdmissionSubject::Cancel { client_order_id } if client_order_id == "A"
    ));
    assert!(matches!(
        admission_subject(&query("R", None)),
        AdmissionSubject::Query { request_id, query: QueryKind::Orders } if request_id == "R"
    ));
    let fills = ClientMessage::QueryFills {
        request_id: "R".to_string(),
        client_order_id: None,
    };
    assert!(matches!(
        admission_subject(&fills),
        AdmissionSubject::Query { query: QueryKind::Fills, .. }
    ));
}

#[test]
fn a_command_is_judged_by_the_parts_that_it_has() {
    let verdicts = Verdicts {
        order: Some("order".to_string()),
        client_order_id: Some("id".to_string()),
        numbers: Some("numbers".to_string()),
        request_id: Some("request".to_string()),
    };
    let said = |cmd: ClientMessage<String>, verdicts: &Verdicts| {
        boundary_error(&cmd, verdicts).cloned()
    };
    let limit = submit("A", "MNQ", OrderType::Limit, None);
    assert_eq!(said(limit, &verdicts).as_deref(), Some("order"));
    assert_eq!(said(modify("A", None), &verdicts).as_deref(), Some("id"));
    assert_eq!(said(cancel("A"), &verdicts).as_deref(), Some("id"));
    assert_eq!(
        said(query("R", Some("A")), &verdicts).as_deref(),
        Some("request")
    );
    let numbers = Verdicts {
        numbers: Some("numbers".to_string()),
        ..sound()
    };
    assert_eq!(
        said(modify("A", None), &numbers).as_deref(),
        Some("numbers")
    );
    assert_eq!(said(cancel("A"), &numbers), None);
    let id = Verdicts {
        client_order_id: Some("id".to_string()),
        ..sound()
    };
    assert_eq!(said(query("R", Some("A")), &id).as_deref(), Some("id"));
    assert_eq!(said(query("R", None), &id), None);
}

#[test]
fn a_malformed_command_is_refused_in_its_own_kind() {
    let refused = |cmd: ClientMessage<String>| boundary_refusal(&cmd, "CUT", "why", 4, 7);
    assert!(matches!(
        refused(submit("ABCD", "MNQ", OrderType::Limit, None)),
        ServerMessage::OrderRejected { client_order_id, reason, ts_event: 7 }
            if client_order_id == "CUT" && reason == "why"
    ));
    assert!(matches!(
        refused(modify("ABCDE", None)),
        ServerMessage::OrderModifyRejected { reason, .. }
            if reason == "why; the identifier was truncated for display and no order exists under either spelling"
    ));
    assert!(matches!(
        refused(cancel("ABCD")),
        ServerMessage::OrderCancelRejected { reason, .. } if reason == "why"
    ));
    assert!(matches!(
        refused(query("R", None)),
        ServerMessage::ProtocolError { reason, ts_event: 7 } if reason == "why"
    ));
}

#[test]
fn an_order_for_another_symbol_is_refused_on_entry() {
    let other = submit("A", "MES", OrderType::Limit, Some(whole(1)));
    let OrderStep::Cut { text, order } = entered(other, &sound(), DELAYS) else {
        panic!("it is refused at once");
    };
    assert_eq!(
        text,
        "order symbol MES does not match the symbol this connection is bound to (MNQ)"
    );
    assert_eq!(text, mismatch_reason("MES", "MNQ"));
    let OrderStep::Reserve {
        boundary: true,
        order,
    } = order.cut(text[..31].to_string())
    else {
        panic!("a refusal needs room");
    };
    match order.conclude(true).0 {
        OrderOutcome::Refused {
            event:
                ServerMessage::OrderRejected {
                    client_order_id,
                    reason,
                    ts_event,
                },
        } => {
            assert_eq!(client_order_id, "A");
            assert_eq!(reason, "order symbol MES does not match");
            assert_eq!(ts_event, 9);
        }
        other => panic!("{other:?}"),
    }
}

#[test]
fn a_malformed_command_is_refused_on_entry() {
    let malformed = Verdicts {
        client_order_id: Some("why".to_string()),
        ..sound()
    };
    let OrderStep::Cut { text, order } = entered(cancel("ABCDE"), &malformed, DELAYS) else {
        panic!("it is refused at once");
    };
    assert_eq!(text, "ABCDE");
    let OrderStep::Reserve {
        boundary: true,
        order,
    } = order.cut("CUT".to_string())
    else {
        panic!("a refusal needs room");
    };
    assert!(matches!(
        order.conclude(true).0,
        OrderOutcome::Refused { event: ServerMessage::OrderCancelRejected { client_order_id, .. } }
            if client_order_id == "CUT"
    ));
}

#[test]
fn a_malformed_query_has_nothing_to_cut() {
    let malformed = Verdicts {
        request_id: Some("why".to_string()),
        ..sound()
    };
    let OrderStep::Reserve {
        boundary: true,
        order,
    } = entered(query("R", None), &malformed, DELAYS)
    else {
        panic!("it is refused at once");
    };
    assert!(matches!(
        order.conclude(true).0,
        OrderOutcome::Diagnostic { event: ServerMessage::ProtocolError { reason, ts_event: 9 } }
            if reason == "why"
    ));
}

#[test]
fn an_order_is_registered_then_delayed_then_priced() {
    let market = submit("A", "MNQ", OrderType::Market, None);
    let OrderStep::Register { order } = entered(market, &sound(), PROMPT) else {
        panic!("an order is registered first");
    };
    let OrderStep::Sleep { ns, order } = order.registered(DELAYS) else {
        panic!("then the venue takes its time");
    };
    assert_eq!(ns, 1_000_000);
    let OrderStep::Read { symbol, order } = order.acted() else {
        panic!("then the tape is read");
    };
    assert_eq!(symbol.as_deref(), Some("MNQ"));
    let OrderStep::Reserve { boundary, order } = order.read(None, Some(whole(7)), OPEN, 11) else {
        panic!("then there has to be room");
    };
    assert!(!boundary, "for all that the engine could say");
    let (outcome, cmd) = order.conclude(true);
    assert!(matches!(outcome, OrderOutcome::Produced));
    assert!(matches!(
        cmd,
        ClientMessage::SubmitOrder { price: Some(price), .. } if price == whole(7)
    ));
}

#[test]
fn an_order_that_cannot_be_priced_is_refused_when_the_venue_acts() {
    let market = submit("A", "MNQ", OrderType::Market, None);
    let OrderStep::Register { order } = entered(market, &sound(), PROMPT) else {
        panic!("an order is registered first");
    };
    let OrderStep::Read { order, .. } = order.registered(PROMPT) else {
        panic!("a prompt venue reads at once");
    };
    let OrderStep::Reserve { boundary, order } = order.read(None, None, OPEN, 11) else {
        panic!("a refusal needs room too");
    };
    assert!(boundary);
    assert!(matches!(
        order.conclude(true).0,
        OrderOutcome::Refused { event: ServerMessage::OrderRejected { ts_event: 11, .. } }
    ));
}

#[test]
fn other_commands_are_not_registered() {
    match entered(modify("A", Some(whole(1))), &sound(), DELAYS) {
        OrderStep::Sleep { ns, order } => {
            assert_eq!(ns, 2_000_000);
            let OrderStep::Read { symbol, .. } = order.acted() else {
                panic!("a new price meets the tape");
            };
            assert_eq!(symbol.as_deref(), Some("MNQ"));
        }
        other => panic!("{other:?}"),
    }
    assert!(matches!(
        entered(modify("A", None), &sound(), PROMPT),
        OrderStep::Read { symbol: None, .. }
    ));
    assert!(matches!(
        entered(cancel("A"), &sound(), DELAYS),
        OrderStep::Sleep { ns: 3_000_000, .. }
    ));
    let OrderStep::Read {
        symbol: None,
        order,
    } = entered(query("R", None), &sound(), DELAYS)
    else {
        panic!("a query waits for nothing");
    };
    let OrderStep::Reserve {
        boundary: false,
        order,
    } = order.read(None, None, OPEN, 11)
    else {
        panic!("and is not refused");
    };
    assert!(matches!(
        order.conclude(false).0,
        OrderOutcome::NotAdmitted { .. }
    ));
}

#[test]
fn only_a_market_order_without_a_price_is_stamped() {
    let price = |cmd: ClientMessage<String>| match cmd {
        ClientMessage::SubmitOrder { price, .. } => price,
        ClientMessage::ModifyOrder { price, .. } => price,
        _ => None,
    };
    let market = || submit("A", "MNQ", OrderType::Market, None);
    assert_eq!(
        price(stamp_market_price(market(), Some(whole(5)), Some(whole(6)))),
        Some(whole(5))
    );
    assert_eq!(
        price(stamp_market_price(market(), None, Some(whole(6)))),
        Some(whole(6))
    );
    assert_eq!(price(stamp_market_price(market(), None, None)), None);
    let stated = submit("A", "MNQ", OrderType::Market, Some(whole(1)));
    assert_eq!(
        price(stamp_market_price(stated, Some(whole(5)), None)),
        Some(whole(1))
    );
    let limit = submit("A", "MNQ", OrderType::Limit, None);
    assert_eq!(price(stamp_market_price(limit, Some(whole(5)), None)), None);
}

#[test]
fn a_market_order_that_cannot_be_priced_is_refused() {
    let market = submit("A", "MNQ", OrderType::Market, None);
    let view = MarketView {
        listed: true,
        open: Some(true),
        reading_trades_through: None,
    };
    match act(&market, view, 4) {
        Some(ServerMessage::OrderRejected { reason, .. }) => {
            assert_eq!(reason, "venue could not synthesize a market price at sim-now");
        }
        other => panic!("{other:?}"),
    }
    let unlisted = MarketView {
        listed: false,
        ..view
    };
    assert!(act(&market, unlisted, 4).is_none());
    let priced = submit("A", "MNQ", OrderType::Market, Some(whole(3)));
    assert!(act(&priced, view, 4).is_none());
    let closed = MarketView {
        open: Some(false),
        ..view
    };
    assert!(matches!(
        act(&priced, closed, 4),
        Some(ServerMessage::OrderRejected { reason, .. }) if reason == "market closed"
    ));
    assert!(act(&cancel("A"), closed, 4).is_none());
}

#[test]
fn without_room_nothing_is_produced() {
    let cmd = cancel("A");
    match conclude(&cmd, None, false, 3) {
        OrderOutcome::NotAdmitted {
            event:
                ServerMessage::AdmissionRejected {
                    subject: AdmissionSubject::Cancel { client_order_id },
                    reason,
                    ts_event: 3,
                },
        } => {
            assert_eq!(client_order_id, "A");
            assert_eq!(reason, "execution output admission budget exhausted");
        }
        other => panic!("{other:?}"),
    }
    assert!(matches!(
        conclude(&cmd, None, true, 3),
        OrderOutcome::Produced
    ));
    let refusal = boundary_refusal(&cmd, "A", "why", 10, 3);
    assert!(matches!(
        conclude(&cmd, Some(refusal), true, 3),
        OrderOutcome::Refused { .. }
    ));
    let cmd = query("R", None);
    let refusal = boundary_refusal(&cmd, "", "why", 10, 3);
    assert!(matches!(
        conclude(&cmd, Some(refusal), true, 3),
        OrderOutcome::Diagnostic { .. }
    ));
}

fn windows() -> Windows {
    Windows {
        delay_ms: 0,
        latency: prompt(),
        dark_until_ns: 0,
        stall_until_ns: 0,
    }
}

fn prompt() -> Latency {
    Latency {
        submit_act_ms: 0,
        modify_act_ms: 0,
        cancel_act_ms: 0,
        submit_ack_ms: 0,
        modify_ack_ms: 0,
        cancel_ack_ms: 0,
    }
}

#[test]
fn a_window_is_set_and_not_added_to() {
    let mut held = windows();
    arm_divergence(&mut held, Divergence::GoDark { ms: 5 }, None, 10);
    assert_eq!(held.dark_until_ns, 5_000_010);
    arm_divergence(&mut held, Divergence::GoDark { ms: 1 }, None, 20);
    assert_eq!(held.dark_until_ns, 1_000_020);
    arm_divergence(&mut held, Divergence::StallData { ms: 2 }, None, 0);
    assert_eq!(held.stall_until_ns, 2_000_000);
    arm_divergence(&mut held, Divergence::DelayAcks { ms: 7 }, None, 0);
    assert_eq!(held.delay_ms, 7);
    let latency = Latency {
        submit_act_ms: 3,
        ..prompt()
    };
    let control = arm_divergence(&mut held, Divergence::CommandLatency { latency }, None, 0);
    assert_eq!(held.latency, latency);
    assert!(matches!(control, Control::Answered { reply } if reply.status.code() == 202));
}

#[test]
fn a_refused_request_changes_nothing() {
    let mut held = windows();
    let control = arm_divergence(
        &mut held,
        Divergence::GoDark { ms: 5 },
        Some("too long".to_string()),
        10,
    );
    assert_eq!(held, windows());
    assert!(matches!(
        control,
        Control::Answered { reply } if reply.status.code() == 400 && reply.body == "too long"
    ));
}

#[test]
fn what_the_tape_and_the_engine_do_is_handed_on() {
    let mut held = windows();
    assert!(matches!(
        arm_divergence(
            &mut held,
            Divergence::FlowSurge { rate_mult: 1, children_mult: 2, duration_ms: 3 },
            None,
            4
        ),
        Control::ArmSurge { start_ns: 4, duration_ms: 3, rate_mult: 1, children_mult: 2 }
    ));
    assert!(matches!(
        arm_divergence(
            &mut held,
            Divergence::FeeSurcharge { mult: whole(2), window_ms: 5 },
            None,
            6
        ),
        Control::ArmSurcharge { window_ms: 5, now_ns: 6, .. }
    ));
    assert!(matches!(
        arm_divergence(
            &mut held,
            Divergence::CancelOpenOrderSilently { client_order_id: "A".to_string() },
            None,
            6
        ),
        Control::CancelOrder { client_order_id, now_ns: 6 } if client_order_id == "A"
    ));
    assert!(matches!(
        arm_divergence(&mut held, Divergence::Engine { divergence: 8 }, None, 6),
        Control::ArmEngine { divergence: 8 }
    ));
    assert_eq!(held, windows());
}

#[test]
fn a_clear_waits_for_the_tape() {
    let latency = Latency {
        submit_act_ms: 3,
        ..prompt()
    };
    let armed = Windows {
        delay_ms: 1,
        latency,
        dark_until_ns: 2,
        stall_until_ns: 3,
    };
    let mut held = armed;
    assert!(matches!(
        arm_divergence(&mut held, Divergence::ClearDivergences, None, 6),
        Control::ClearSurge
    ));
    assert_eq!(
        held,
        Windows {
            latency,
            ..windows()
        }
    );
    let (reply, fees) = answer_clear(&mut held, false);
    assert_eq!((reply.status.code(), fees), (503, false));
    assert_eq!(held.latency, latency);
    let (reply, fees) = answer_clear(&mut held, true);
    assert_eq!((reply.status.code(), fees), (202, true));
    assert_eq!(held, windows());
}

#[test]
fn an_answer_says_what_came_of_it() {
    assert_eq!(answer_told(true).status.code(), 202);
    let untold = answer_told(false);
    assert_eq!(untold.status.code(), 503);
    assert_eq!(untold.body, "tape control unavailable");
    assert_eq!(answer_cancel(None).status.code(), 202);
    let missed = answer_cancel(Some("no such order".to_string()));
    assert_eq!(
        (missed.status.code(), missed.body.as_str()),
        (404, "no such order")
    );
    assert_eq!(answer_engine(None, 16).body, "");
    assert_eq!(
        answer_engine(Some("DuplicateNextFill"), 16).body,
        "armed; the engine queue was at its 16-entry cap, so the oldest armed divergence was discarded to make room: DuplicateNextFill"
    );
}
