//! One run of the venue: who may start it, what it boots with, how long it
//! lasts and how it ends.

use vstd::prelude::*;

use crate::config::Config;
use crate::config::TAPE_ORIGIN_NS;
use crate::duration::later;
use crate::duration::span_since;
use crate::instrument::InstrumentDef;
use crate::source::served;
use crate::source::InstrumentProfiles;
use crate::text::decimal;
use crate::text::push_decimal;
use crate::text::push_signed;
use crate::text::signed_decimal;

verus! {

/// Where the venue listens: on the loopback, at a port that the kernel picks.
pub const BIND_ADDR: &'static str = "127.0.0.1:0";

/// How long a venue that is ending waits for its connections.
pub const SHUTDOWN_GRACE_MS: u64 = 5_000;

/// The least time between two looks for accounts that nobody reclaimed.
pub const MIN_REAPER_CADENCE_NS: u128 = 50_000_000;

/// How long a run lasts: what the command line says, where it says anything,
/// and otherwise what the configuration does. Zero in the configuration, and an
/// explicit `None` on the command line, mean that the launcher ends the run.
pub open spec fn run_duration(override_ns: Option<Option<u64>>, configured_ns: u64) -> Option<u64> {
    match override_ns {
        Some(stated) => stated,
        None => if configured_ns == 0 {
            None
        } else {
            Some(configured_ns)
        },
    }
}

/// How long a run lasts.
pub fn resolve_run_duration(override_ns: Option<Option<u64>>, configured_ns: u64) -> (ns: Option<
    u64,
>)
    ensures
        ns == run_duration(override_ns, configured_ns),
{
    match override_ns {
        Some(stated) => stated,
        None => if configured_ns != 0 {
            Some(configured_ns)
        } else {
            None
        },
    }
}

/// What a duration on the command line says: zero is a run without end, and
/// more nanoseconds than 64 bits hold are as many as they hold.
pub open spec fn duration_said(nanos: Option<u128>) -> Option<Option<u64>> {
    match nanos {
        None => None,
        Some(nanos) => if nanos == 0 {
            Some(None)
        } else if nanos > u64::MAX {
            Some(Some(u64::MAX))
        } else {
            Some(Some(nanos as u64))
        },
    }
}

/// What a duration on the command line says.
pub fn duration_override(nanos: Option<u128>) -> (said: Option<Option<u64>>)
    ensures
        said == duration_said(nanos),
{
    match nanos {
        None => None,
        Some(nanos) => if nanos == 0 {
            Some(None)
        } else if nanos > u64::MAX as u128 {
            Some(Some(u64::MAX))
        } else {
            Some(Some(nanos as u64))
        },
    }
}

/// What is said of an endpoint that nobody could discover.
pub open spec fn undiscoverable(port: u16, ready_fd: Option<i32>) -> bool {
    port == 0 && ready_fd is None
}

/// Refuses a port that the kernel picks and nobody is told of.
pub fn check_endpoint_is_discoverable(port: u16, ready_fd: Option<i32>) -> (checked: Result<
    (),
    String,
>)
    ensures
        checked is Err == undiscoverable(port, ready_fd),
        checked is Err ==> checked->Err_0@
            == "--addr with port 0 requires --ready-fd; otherwise the endpoint cannot be discovered"@,
{
    if port == 0 && ready_fd.is_none() {
        return Err(
            "--addr with port 0 requires --ready-fd; otherwise the endpoint cannot be discovered".to_owned(),
        );
    }
    Ok(())
}

/// What is said when the launcher is gone before the venue starts.
pub open spec fn gone_text(expected: i32, parent: i32) -> Seq<char> {
    "launcher "@ + signed_decimal(expected as int) + " is already gone (parent is "@
        + signed_decimal(parent as int) + "); refusing to serve a run nobody owns"@
}

/// Refuses to serve a launcher that is not the venue's parent.
pub fn check_launcher(expected: Option<i32>, parent: i32) -> (checked: Result<(), String>)
    ensures
        checked is Err == (expected is Some && expected->0 != parent),
        checked is Err ==> checked->Err_0@ == gone_text(expected->0, parent),
{
    if let Some(expected) = expected {
        if expected != parent {
            let mut words = "launcher ".to_owned();
            push_signed(&mut words, expected as i128);
            words.append(" is already gone (parent is ");
            push_signed(&mut words, parent as i128);
            words.append("); refusing to serve a run nobody owns");
            return Err(words);
        }
    }
    Ok(())
}

/// What is said when the launcher dies while the venue starts.
pub open spec fn reparented_text(before: i32, after: i32) -> Seq<char> {
    "launcher died during startup (reparented from "@ + signed_decimal(before as int) + " to "@
        + signed_decimal(after as int) + "); refusing to serve a run nobody owns"@
}

/// Refuses to serve once the venue's parent has changed while the signal for
/// its death was armed: no signal is coming then.
pub fn check_reparented(before: i32, after: i32) -> (checked: Result<(), String>)
    ensures
        checked is Err == (before != after),
        checked is Err ==> checked->Err_0@ == reparented_text(before, after),
{
    if before != after {
        let mut words = "launcher died during startup (reparented from ".to_owned();
        push_signed(&mut words, before as i128);
        words.append(" to ");
        push_signed(&mut words, after as i128);
        words.append("); refusing to serve a run nobody owns");
        return Err(words);
    }
    Ok(())
}

/// The instrument that a run boots on: the first that it serves.
pub fn boot_instrument(profiles: &InstrumentProfiles) -> (def: Result<&InstrumentDef, String>)
    ensures
        def is Ok == (served(profiles@).len() > 0),
        def is Ok ==> *def->Ok_0 == profiles@[served(profiles@)[0]].def,
        def is Err ==> def->Err_0@ == "no instrument configured"@,
{
    let defs = profiles.instrument_defs();
    if defs.len() == 0 {
        return Err("no instrument configured".to_owned());
    }
    Ok(defs[0])
}

/// How often accounts are looked for that nobody reclaimed, and how old they
/// get.
#[derive(Clone, Copy, Debug, PartialEq, Eq, Structural)]
pub struct Reaper {
    pub ttl_ns: u128,
    pub cadence_ns: u128,
}

/// What a run boots with.
#[derive(Clone, Copy, Debug, PartialEq, Eq, Structural)]
pub struct BootPlan {
    pub run_seed: u64,
    pub run_start_ns: u64,
    pub run_duration_ns: Option<u64>,
    pub deadline_ns: Option<u64>,
    pub reaper: Option<Reaper>,
}

/// The reaper of a run whose accounts live so long unattended: it looks ten
/// times as often, but not all the time. Accounts that live for ever have none.
pub open spec fn reaper_of(ttl_ms: u64) -> Option<Reaper> {
    if ttl_ms == 0 {
        None
    } else {
        Some(
            Reaper {
                ttl_ns: (ttl_ms * 1_000_000) as u128,
                cadence_ns: if ttl_ms * 100_000 > MIN_REAPER_CADENCE_NS {
                    (ttl_ms * 100_000) as u128
                } else {
                    MIN_REAPER_CADENCE_NS
                },
            },
        )
    }
}

/// What a run boots with: the seed that is configured, or half of the one drawn;
/// a start one warmup after the tape's origin; and a deadline one duration after
/// the start.
pub open spec fn booted(cfg: Config, override_ns: Option<Option<u64>>, drawn: u64) -> BootPlan {
    let start = later(TAPE_ORIGIN_NS, cfg.warmup_ns);
    let duration = run_duration(override_ns, cfg.run_duration_ns);
    BootPlan {
        run_seed: match cfg.seed {
            Some(seed) => seed,
            None => drawn / 2,
        },
        run_start_ns: start,
        run_duration_ns: duration,
        deadline_ns: match duration {
            Some(span) => Some(later(start, span)),
            None => None,
        },
        reaper: reaper_of(cfg.account_ttl_ms),
    }
}

/// What a run boots with. `drawn` is a number drawn for the run, for where no
/// seed is configured.
pub fn plan_boot(cfg: &Config, override_ns: Option<Option<u64>>, drawn: u64) -> (plan: BootPlan)
    ensures
        plan == booted(*cfg, override_ns, drawn),
{
    let run_seed: u64 = match cfg.seed {
        Some(seed) => seed,
        None => drawn / 2,
    };
    let run_start_ns: u64 = TAPE_ORIGIN_NS.saturating_add(cfg.warmup_ns);
    let run_duration_ns = resolve_run_duration(override_ns, cfg.run_duration_ns);
    let deadline_ns = match run_duration_ns {
        Some(span) => Some(run_start_ns.saturating_add(span)),
        None => None,
    };
    let reaper = if cfg.account_ttl_ms > 0 {
        let ttl_ns: u128 = cfg.account_ttl_ms as u128 * 1_000_000;
        let tenth: u128 = cfg.account_ttl_ms as u128 * 100_000;
        let cadence_ns: u128 = if tenth > MIN_REAPER_CADENCE_NS {
            tenth
        } else {
            MIN_REAPER_CADENCE_NS
        };
        Some(Reaper { ttl_ns, cadence_ns })
    } else {
        None
    };
    BootPlan { run_seed, run_start_ns, run_duration_ns, deadline_ns, reaper }
}

/// The deadline is one whole duration after the warmup, however long the warmup
/// is, as long as the clock can tell it.
pub proof fn a_run_has_its_whole_duration(
    cfg: Config,
    override_ns: Option<Option<u64>>,
    drawn: u64,
)
    requires
        run_duration(override_ns, cfg.run_duration_ns) is Some,
        cfg.warmup_ns + run_duration(override_ns, cfg.run_duration_ns)->0 <= u64::MAX,
    ensures
        booted(cfg, override_ns, drawn).deadline_ns->0 - booted(cfg, override_ns, drawn).run_start_ns
            == run_duration(override_ns, cfg.run_duration_ns)->0,
{
}

/// What a venue says of itself in the one line by which its launcher knows that
/// it is ready.
#[derive(Clone, Debug, PartialEq, Eq)]
pub struct ReadyRecord {
    /// The version of the record itself, for the launcher to look at first.
    pub version: u32,
    pub addr: String,
    pub pid: u32,
    pub run_seed: u64,
    pub data_origin_ns: u64,
    pub run_start_ns: u64,
    pub run_duration_ns: Option<u64>,
    pub warmup_ns: u64,
    pub reset_account_on_reconnect: bool,
    pub account_ttl_ms: u64,
    pub version_string: String,
}

/// What a venue says of itself once it listens: what the run was booted with,
/// what is configured of its accounts, and where it can be reached.
pub open spec fn readied(
    cfg: Config,
    plan: BootPlan,
    version: u32,
    addr: String,
    pid: u32,
    version_string: String,
) -> ReadyRecord {
    ReadyRecord {
        version,
        addr,
        pid,
        run_seed: plan.run_seed,
        data_origin_ns: TAPE_ORIGIN_NS,
        run_start_ns: plan.run_start_ns,
        run_duration_ns: plan.run_duration_ns,
        warmup_ns: cfg.warmup_ns,
        reset_account_on_reconnect: cfg.reset_account_on_reconnect,
        account_ttl_ms: cfg.account_ttl_ms,
        version_string,
    }
}

/// What a venue says of itself once it listens.
pub fn ready_record(
    cfg: &Config,
    plan: BootPlan,
    version: u32,
    addr: String,
    pid: u32,
    version_string: String,
) -> (record: ReadyRecord)
    ensures
        record == readied(*cfg, plan, version, addr, pid, version_string),
{
    ReadyRecord {
        version,
        addr,
        pid,
        run_seed: plan.run_seed,
        data_origin_ns: TAPE_ORIGIN_NS,
        run_start_ns: plan.run_start_ns,
        run_duration_ns: plan.run_duration_ns,
        warmup_ns: cfg.warmup_ns,
        reset_account_on_reconnect: cfg.reset_account_on_reconnect,
        account_ttl_ms: cfg.account_ttl_ms,
        version_string,
    }
}

/// A launcher can tell from the record alone when the run begins and ends: it
/// begins one warmup after the data does, and ends one duration later, as long
/// as the clock can tell it.
pub proof fn a_ready_record_tells_the_run(
    cfg: Config,
    override_ns: Option<Option<u64>>,
    drawn: u64,
    version: u32,
    addr: String,
    pid: u32,
    version_string: String,
)
    ensures
        ({
            let plan = booted(cfg, override_ns, drawn);
            let record = readied(cfg, plan, version, addr, pid, version_string);
            &&& record.run_start_ns == later(record.data_origin_ns, record.warmup_ns)
            &&& plan.deadline_ns == match record.run_duration_ns {
                Some(span) => Some(later(record.run_start_ns, span)),
                None => None,
            }
            &&& plan.reaper == reaper_of(record.account_ttl_ms)
        }),
{
}

/// How long to sleep before the deadline is looked at again: as long as the
/// wall has to go by the clock's own reckoning, and at least a moment. There is
/// no more waiting only once the simulated clock is there.
pub open spec fn wait_for(sim_now_ns: u64, deadline_ns: u64, wall_deadline_ns: u64, wall_now_ns: u64) -> Option<
    u64,
> {
    if sim_now_ns >= deadline_ns {
        None
    } else if span_since(wall_deadline_ns, wall_now_ns) == 0 {
        Some(1)
    } else {
        Some(span_since(wall_deadline_ns, wall_now_ns))
    }
}

/// How long to sleep before the deadline is looked at again. `sim_now_ns` is
/// the simulated instant at `wall_now_ns`, and `wall_deadline_ns` the wall's at
/// the deadline, both by the run's clock.
pub fn deadline_wait(
    sim_now_ns: u64,
    deadline_ns: u64,
    wall_deadline_ns: u64,
    wall_now_ns: u64,
) -> (wait: Option<u64>)
    ensures
        wait == wait_for(sim_now_ns, deadline_ns, wall_deadline_ns, wall_now_ns),
{
    if sim_now_ns >= deadline_ns {
        return None;
    }
    let remaining: u64 = wall_deadline_ns.saturating_sub(wall_now_ns);
    if remaining == 0 {
        Some(1)
    } else {
        Some(remaining)
    }
}

/// A deadline is reported past only once the simulated clock has passed it, and
/// until then there is always something to wait for.
pub proof fn a_deadline_is_never_early(
    sim_now_ns: u64,
    deadline_ns: u64,
    wall_deadline_ns: u64,
    wall_now_ns: u64,
)
    ensures
        wait_for(sim_now_ns, deadline_ns, wall_deadline_ns, wall_now_ns) is None <==> sim_now_ns
            >= deadline_ns,
        wait_for(sim_now_ns, deadline_ns, wall_deadline_ns, wall_now_ns) is Some ==> wait_for(
            sim_now_ns,
            deadline_ns,
            wall_deadline_ns,
            wall_now_ns,
        )->0 >= 1,
{
}

/// The simulated time that a run has served when it completes.
pub fn elapsed_ns(sim_now_ns: u64, started_ns: u64) -> (ns: u64)
    ensures
        ns == span_since(sim_now_ns, started_ns),
{
    sim_now_ns.saturating_sub(started_ns)
}

/// What ends a run.
#[derive(Debug)]
pub enum Ending {
    /// The launcher sent a signal.
    Signal,
    /// The declared duration is over.
    Completed,
    /// The tape's source failed, as it says.
    Fault { fault: String },
}

/// What is done with the connections of a run that ends.
#[derive(Clone, Copy, Debug, PartialEq, Eq, Structural)]
pub struct Farewell {
    /// Every connection is told that the run is complete.
    pub announced: bool,
    /// The venue waits for the connections to finish, within its grace.
    pub waits_for_sessions: bool,
}

/// How a run ends: only one that has served its declared duration says so, and
/// only then is anybody there to wait for.
pub fn farewell(ending: &Ending) -> (farewell: Farewell)
    ensures
        farewell.announced == (ending is Completed),
        farewell.waits_for_sessions == (ending is Completed),
{
    match ending {
        Ending::Completed => Farewell { announced: true, waits_for_sessions: true },
        _ => Farewell { announced: false, waits_for_sessions: false },
    }
}

/// What is said of a run that did not end well; `None` for one that did.
pub open spec fn failure(ending: Ending, drained: bool) -> Option<Seq<char>> {
    if !drained {
        Some(
            "connections did not drain within the "@ + decimal(SHUTDOWN_GRACE_MS as nat)
                + " ms shutdown grace"@,
        )
    } else {
        match ending {
            Ending::Fault { fault } => Some("tape source fault: "@ + fault@),
            _ => None,
        }
    }
}

/// What a run came to: `drained` says whether its connections were gone within
/// the grace.
pub fn exit(ending: &Ending, drained: bool) -> (ended: Result<(), String>)
    ensures
        ended is Err == failure(*ending, drained) is Some,
        ended is Err ==> ended->Err_0@ == failure(*ending, drained)->0,
{
    if !drained {
        let mut words = "connections did not drain within the ".to_owned();
        push_decimal(&mut words, SHUTDOWN_GRACE_MS as u128);
        words.append(" ms shutdown grace");
        return Err(words);
    }
    match ending {
        Ending::Fault { fault } => {
            let mut words = "tape source fault: ".to_owned();
            words.append(fault.as_str());
            Err(words)
        },
        _ => Ok(()),
    }
}

/// The version as it is shown: the build's own, and that of the tape.
pub fn long_version(build: &str, tape_protocol: u32) -> (version: String)
    ensures
        version@ == build@ + " tape "@ + decimal(tape_protocol as nat),
{
    let mut version = build.to_owned();
    version.append(" tape ");
    push_decimal(&mut version, tape_protocol as u128);
    version
}

/// How a tape's arrivals can fail.
#[derive(Clone, Copy, Debug, PartialEq, Eq, Structural)]
pub enum TickFault {
    NoOpenExposure { from_ns: u64 },
    IntensityCeiling { clock_ns: u64 },
    NonFiniteState { clock_ns: u64 },
}

/// The name under which a fault is published, and when it was.
pub fn health_fault(fault: TickFault) -> (published: (&'static str, u64))
    ensures
        match fault {
            TickFault::NoOpenExposure { from_ns } => published.0@ == "arrival.no_open_exposure"@
                && published.1 == from_ns,
            TickFault::IntensityCeiling { clock_ns } => published.0@ == "arrival.intensity_ceiling"@
                && published.1 == clock_ns,
            TickFault::NonFiniteState { clock_ns } => published.0@ == "arrival.non_finite_state"@
                && published.1 == clock_ns,
        },
{
    match fault {
        TickFault::NoOpenExposure { from_ns } => ("arrival.no_open_exposure", from_ns),
        TickFault::IntensityCeiling { clock_ns } => ("arrival.intensity_ceiling", clock_ns),
        TickFault::NonFiniteState { clock_ns } => ("arrival.non_finite_state", clock_ns),
    }
}

/// What the command line says of the duration stands over the configuration, and
/// zero means that the launcher ends the run, wherever it is said.
pub proof fn the_command_line_stands_over_the_configuration(
    nanos: Option<u128>,
    configured_ns: u64,
)
    ensures
        ({
            let lasts = run_duration(duration_said(nanos), configured_ns);
            &&& nanos is None ==> lasts == if configured_ns == 0 {
                None
            } else {
                Some(configured_ns)
            }
            &&& nanos == Some(0u128) ==> lasts is None
            &&& nanos is Some && 0 < nanos->0 <= u64::MAX ==> lasts is Some && lasts->0 == nanos->0
            &&& nanos is Some && nanos->0 > u64::MAX ==> lasts == Some(u64::MAX)
        }),
{
}

/// A run is seeded as it is configured, or with what was drawn for it, which fits
/// a signed number then.
pub proof fn a_configured_seed_is_used(cfg: Config, override_ns: Option<Option<u64>>, drawn: u64)
    ensures
        cfg.seed is Some ==> booted(cfg, override_ns, drawn).run_seed == cfg.seed->0,
        cfg.seed is None ==> booted(cfg, override_ns, drawn).run_seed <= i64::MAX,
        cfg.seed is None ==> 2 * booted(cfg, override_ns, drawn).run_seed <= drawn,
        cfg.seed is None ==> drawn <= 2 * booted(cfg, override_ns, drawn).run_seed + 1,
{
}

/// A run starts one warmup after the tape does, and without a duration it has no
/// deadline.
pub proof fn a_run_starts_after_its_warmup(
    cfg: Config,
    override_ns: Option<Option<u64>>,
    drawn: u64,
)
    ensures
        booted(cfg, override_ns, drawn).run_start_ns == cfg.warmup_ns,
        booted(cfg, override_ns, drawn).run_duration_ns == run_duration(
            override_ns,
            cfg.run_duration_ns,
        ),
        booted(cfg, override_ns, drawn).deadline_ns is Some == booted(
            cfg,
            override_ns,
            drawn,
        ).run_duration_ns is Some,
        booted(cfg, override_ns, drawn).reaper is Some == (cfg.account_ttl_ms > 0),
{
}

/// Accounts are looked for ten times in their life, but never more often than
/// twenty times a second, and they live as long as it is configured.
pub proof fn accounts_are_looked_for_in_time(ttl_ms: u64)
    requires
        ttl_ms > 0,
    ensures
        reaper_of(ttl_ms) is Some,
        reaper_of(ttl_ms)->0.ttl_ns == ttl_ms * 1_000_000,
        reaper_of(ttl_ms)->0.cadence_ns >= 50_000_000,
        10 * reaper_of(ttl_ms)->0.cadence_ns >= reaper_of(ttl_ms)->0.ttl_ns,
        reaper_of(ttl_ms)->0.cadence_ns > 50_000_000 ==> 10 * reaper_of(ttl_ms)->0.cadence_ns
            == reaper_of(ttl_ms)->0.ttl_ns,
{
}

/// A sleep towards the deadline never outlasts it, but for the least one.
pub proof fn a_wait_ends_at_the_deadline(
    sim_now_ns: u64,
    deadline_ns: u64,
    wall_deadline_ns: u64,
    wall_now_ns: u64,
)
    requires
        sim_now_ns < deadline_ns,
    ensures
        ({
            let wait = wait_for(sim_now_ns, deadline_ns, wall_deadline_ns, wall_now_ns)->0;
            &&& wall_now_ns < wall_deadline_ns ==> wall_now_ns + wait == wall_deadline_ns
            &&& wall_now_ns >= wall_deadline_ns ==> wait == 1
        }),
{
}

/// A run ends well just where its connections were gone in time and its tape did
/// not fail; what is said otherwise is of the connections first.
pub proof fn a_run_ends_well_or_says_why(ending: Ending, drained: bool)
    ensures
        failure(ending, drained) is None == (drained && !(ending is Fault)),
        drained && ending is Fault ==> failure(ending, drained) == Some(
            "tape source fault: "@ + ending->fault@,
        ),
        !drained ==> failure(ending, drained) == failure(Ending::Completed, false),
{
}

} // verus!
