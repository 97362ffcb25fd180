//! The control plane: what a request to diverge does to the run's own windows,
//! what it asks of the tape and of the engine, and how it is answered.

use vstd::prelude::*;

use crate::decimal::Dec;
use crate::duration::later;
use crate::duration::millis_ns;
use crate::duration::window_until_ns;
use crate::havoc::Latency;
use crate::history::Status;
use crate::text::decimal;
use crate::text::push_decimal;

verus! {

/// A request to diverge. The multipliers of a surge are doubles, as their bits;
/// a divergence of the engine's own is known by a number.
#[derive(Debug)]
pub enum Divergence {
    DelayAcks { ms: u64 },
    CommandLatency { latency: Latency },
    GoDark { ms: u64 },
    StallData { ms: u64 },
    FlowSurge { rate_mult: u64, children_mult: u64, duration_ms: u64 },
    FeeSurcharge { mult: Dec, window_ms: u64 },
    CancelOpenOrderSilently { client_order_id: String },
    ClearDivergences,
    Engine { divergence: u64 },
}

/// The windows that the run itself keeps. A time of zero is one that has
/// passed.
#[derive(Clone, Copy, Debug, PartialEq, Eq, Structural)]
pub struct Windows {
    pub delay_ms: u64,
    pub latency: Latency,
    pub dark_until_ns: u64,
    pub stall_until_ns: u64,
}

/// An answer to a control request.
#[derive(Debug)]
pub struct Reply {
    pub status: Status,
    pub body: String,
}

/// What follows a control request.
#[derive(Debug)]
pub enum Control {
    /// It is answered.
    Answered { reply: Reply },
    /// The tape is to surge.
    ArmSurge { start_ns: u64, duration_ms: u64, rate_mult: u64, children_mult: u64 },
    /// The engine is to raise its fees.
    ArmSurcharge { mult: Dec, window_ms: u64, now_ns: u64 },
    /// The engine is to cancel an order without a word.
    CancelOrder { client_order_id: String, now_ns: u64 },
    /// The tape is to stop surging, before anything else is cleared.
    ClearSurge,
    /// The engine is to be armed.
    ArmEngine { divergence: u64 },
}

/// Windows that are all closed, as far as a clear closes them at once.
pub open spec fn hushed(windows: Windows) -> Windows {
    Windows { delay_ms: 0, latency: windows.latency, dark_until_ns: 0, stall_until_ns: 0 }
}

/// No delay of any kind.
pub open spec fn prompt() -> Latency {
    Latency {
        submit_act_ms: 0,
        modify_act_ms: 0,
        cancel_act_ms: 0,
        submit_ack_ms: 0,
        modify_ack_ms: 0,
        cancel_ack_ms: 0,
    }
}

/// The windows after a request: what it names is set, and not added to.
pub open spec fn windows_after(windows: Windows, div: Divergence, now_ns: u64) -> Windows {
    match div {
        Divergence::DelayAcks { ms } => Windows { delay_ms: ms, ..windows },
        Divergence::CommandLatency { latency } => Windows { latency, ..windows },
        Divergence::GoDark { ms } => Windows {
            dark_until_ns: later(now_ns, millis_ns(ms)),
            ..windows
        },
        Divergence::StallData { ms } => Windows {
            stall_until_ns: later(now_ns, millis_ns(ms)),
            ..windows
        },
        Divergence::ClearDivergences => hushed(windows),
        _ => windows,
    }
}

fn accepted() -> (reply: Reply)
    ensures
        reply.status == Status::Accepted,
        reply.body@ == Seq::<char>::empty(),
{
    let body = String::new();
    assert(body@ =~= Seq::<char>::empty());
    Reply { status: Status::Accepted, body }
}

/// Takes a request to diverge. One that the control rules refuse, for the
/// reason given, changes nothing.
pub fn arm_divergence(
    windows: &mut Windows,
    div: Divergence,
    refused: Option<String>,
    now_ns: u64,
) -> (control: Control)
    ensures
        match refused {
            Some(reason) => {
                &&& *final(windows) == *old(windows)
                &&& control is Answered
                &&& control->reply.status == Status::BadRequest
                &&& control->reply.body@ == reason@
            },
            None => {
                &&& *final(windows) == windows_after(*old(windows), div, now_ns)
                &&& match div {
                    Divergence::FlowSurge { rate_mult, children_mult, duration_ms } => control == (
                    Control::ArmSurge { start_ns: now_ns, duration_ms, rate_mult, children_mult }),
                    Divergence::FeeSurcharge { mult, window_ms } => control == (
                    Control::ArmSurcharge { mult, window_ms, now_ns }),
                    Divergence::CancelOpenOrderSilently { client_order_id } => control == (
                    Control::CancelOrder { client_order_id, now_ns }),
                    Divergence::ClearDivergences => control == Control::ClearSurge,
                    Divergence::Engine { divergence } => control == (Control::ArmEngine {
                        divergence,
                    }),
                    _ => {
                        &&& control is Answered
                        &&& control->reply.status == Status::Accepted
                        &&& control->reply.body@ == Seq::<char>::empty()
                    },
                }
            },
        },
{
    if let Some(reason) = refused {
        return Control::Answered { reply: Reply { status: Status::BadRequest, body: reason } };
    }
    match div {
        Divergence::DelayAcks { ms } => {
            windows.delay_ms = ms;
        },
        Divergence::CommandLatency { latency } => {
            windows.latency = latency;
        },
        Divergence::GoDark { ms } => {
            windows.dark_until_ns = window_until_ns(now_ns, ms);
        },
        Divergence::StallData { ms } => {
            windows.stall_until_ns = window_until_ns(now_ns, ms);
        },
        Divergence::FlowSurge { rate_mult, children_mult, duration_ms } => {
            return Control::ArmSurge { start_ns: now_ns, duration_ms, rate_mult, children_mult };
        },
        Divergence::FeeSurcharge { mult, window_ms } => {
            return Control::ArmSurcharge { mult, window_ms, now_ns };
        },
        Divergence::CancelOpenOrderSilently { client_order_id } => {
            return Control::CancelOrder { client_order_id, now_ns };
        },
        Divergence::ClearDivergences => {
            windows.delay_ms = 0;
            windows.dark_until_ns = 0;
            windows.stall_until_ns = 0;
            return Control::ClearSurge;
        },
        Divergence::Engine { divergence } => {
            return Control::ArmEngine { divergence };
        },
    }
    Control::Answered { reply: accepted() }
}

/// The answer once the tape, or the engine, was told what was armed, or could
/// not be.
pub fn answer_told(told: bool) -> (reply: Reply)
    ensures
        told ==> reply.status == Status::Accepted && reply.body@ == Seq::<char>::empty(),
        !told ==> reply.status == Status::ServiceUnavailable && reply.body@
            == "tape control unavailable"@,
{
    if told {
        accepted()
    } else {
        Reply {
            status: Status::ServiceUnavailable,
            body: "tape control unavailable".to_owned(),
        }
    }
}

/// The answer once the engine was told to cancel an order without a word: a
/// miss is said, so that nobody counts on a fault that never was.
pub fn answer_cancel(missed: Option<String>) -> (reply: Reply)
    ensures
        match missed {
            Some(reason) => reply.status == Status::NotFound && reply.body == reason,
            None => reply.status == Status::Accepted && reply.body@ == Seq::<char>::empty(),
        },
{
    match missed {
        Some(reason) => Reply { status: Status::NotFound, body: reason },
        None => accepted(),
    }
}

/// The rest of a clear, once the tape was told to stop surging, or could not
/// be: only after the tape are the engine's fees and the delays cleared. Says
/// whether the engine's fees are to be.
pub fn answer_clear(windows: &mut Windows, told: bool) -> (answer: (Reply, bool))
    ensures
        answer.1 == told,
        told ==> {
            &&& *final(windows) == (Windows { latency: prompt(), ..*old(windows) })
            &&& answer.0.status == Status::Accepted
            &&& answer.0.body@ == Seq::<char>::empty()
        },
        !told ==> {
            &&& *final(windows) == *old(windows)
            &&& answer.0.status == Status::ServiceUnavailable
            &&& answer.0.body@ == "tape control unavailable"@
        },
{
    if told {
        windows.latency =
        Latency {
            submit_act_ms: 0,
            modify_act_ms: 0,
            cancel_act_ms: 0,
            submit_ack_ms: 0,
            modify_ack_ms: 0,
            cancel_ack_ms: 0,
        };
        (accepted(), true)
    } else {
        (answer_told(false), false)
    }
}

/// What is said of a divergence that was shed to make room.
pub open spec fn shed_text(shed: Seq<char>, cap: usize) -> Seq<char> {
    "armed; the engine queue was at its "@ + decimal(cap as nat)
        + "-entry cap, so the oldest armed divergence was discarded to make room: "@ + shed
}

/// The answer once the engine was armed: a divergence that it shed to make room
/// is named.
pub fn answer_engine(shed: Option<&str>, cap: usize) -> (reply: Reply)
    ensures
        reply.status == Status::Accepted,
        reply.body@ == match shed {
            Some(shed) => shed_text(shed@, cap),
            None => Seq::<char>::empty(),
        },
{
    match shed {
        Some(shed) => {
            let mut body = "armed; the engine queue was at its ".to_owned();
            push_decimal(&mut body, cap as u128);
            body.append("-entry cap, so the oldest armed divergence was discarded to make room: ");
            body.append(shed);
            Reply { status: Status::Accepted, body }
        },
        None => accepted(),
    }
}

/// Arming a window again sets it anew: what it was before leaves no trace.
pub proof fn rearming_sets_a_window(windows: Windows, first: u64, ms: u64, then: u64, now_ns: u64)
    ensures
        windows_after(
            windows_after(windows, Divergence::GoDark { ms: first }, then),
            Divergence::GoDark { ms },
            now_ns,
        ) == windows_after(windows, Divergence::GoDark { ms }, now_ns),
{
}

/// After a whole clear nothing is dark, stalled or delayed at any instant.
pub proof fn a_clear_closes_every_window(windows: Windows, now_ns: u64)
    ensures
        ({
            let after = Windows {
                latency: prompt(),
                ..windows_after(windows, Divergence::ClearDivergences, now_ns)
            };
            &&& after.delay_ms == 0
            &&& !(now_ns < after.dark_until_ns)
            &&& !(now_ns < after.stall_until_ns)
            &&& after.latency == prompt()
        }),
{
}

/// A request sets the window that it names, from now on and for as long as it
/// says, and no other; a request of another kind leaves every window as it is.
pub proof fn a_request_sets_what_it_names(windows: Windows, div: Divergence, now_ns: u64)
    ensures
        ({
            let after = windows_after(windows, div, now_ns);
            &&& match div {
                Divergence::DelayAcks { ms } => after.delay_ms == ms,
                Divergence::ClearDivergences => after.delay_ms == 0,
                _ => after.delay_ms == windows.delay_ms,
            }
            &&& match div {
                Divergence::CommandLatency { latency } => after.latency == latency,
                _ => after.latency == windows.latency,
            }
            &&& match div {
                Divergence::GoDark { ms } => now_ns + ms * 1_000_000 < u64::MAX
                    ==> after.dark_until_ns == now_ns + ms * 1_000_000,
                Divergence::ClearDivergences => after.dark_until_ns == 0,
                _ => after.dark_until_ns == windows.dark_until_ns,
            }
            &&& match div {
                Divergence::StallData { ms } => now_ns + ms * 1_000_000 < u64::MAX
                    ==> after.stall_until_ns == now_ns + ms * 1_000_000,
                Divergence::ClearDivergences => after.stall_until_ns == 0,
                _ => after.stall_until_ns == windows.stall_until_ns,
            }
        }),
{
}

} // verus!
