use std::time::{Duration, Instant};

use lib::config::{Bind, PidfileSpec};
use lib::server::{
    backoff_for, describe, frame_chunk, on_repl_exit, pidfile_path, pidfile_text, resolve_bind,
    stage_of, status_fields, supervise, Channel, Clocks, Core, ExitAction, Phase, Pump, Stage,
    Tick,
};
use lib::utc::format_utc;

fn now() -> Instant {
    Instant::now()
}

#[test]
fn epoch_is_formatted() {
    assert_eq!(format_utc(0), "1970-01-01_00-00-00");
}

#[test]
fn known_timestamp() {
    assert_eq!(format_utc(1_779_031_421), "2026-05-17_15-23-41");
}

#[test]
fn backoff_grows_and_caps() {
    assert_eq!(Duration::from_millis(backoff_for(0)), Duration::ZERO);
    assert_eq!(Duration::from_millis(backoff_for(1)), Duration::from_millis(100));
    assert_eq!(Duration::from_millis(backoff_for(2)), Duration::from_millis(200));
    assert_eq!(Duration::from_millis(backoff_for(5)), Duration::from_millis(1600));
    assert_eq!(Duration::from_millis(backoff_for(50)), Duration::from_millis(2000));
}

// ---- state machine ------------------------------------------------------

#[test]
fn idle_accepts_then_rejects_second() {
    let mut c = Core::new(true, now());
    assert!(matches!(c.phase, Phase::Idle));
    assert_eq!(c.try_accept(false), Some(1));
    assert!(c.served);
    assert_eq!(c.requests, 1);
    // a sink is now present -> reject
    assert_eq!(c.try_accept(true), None);
}

#[test]
fn booting_accepts_but_stays_booting() {
    let mut c = Core::new(false, now());
    assert!(c.is_booting());
    assert!(c.try_accept(false).is_some());
    assert!(
        c.is_booting(),
        "accepting a client must not end the boot phase"
    );
}

#[test]
fn request_response_cycle() {
    let mut c = Core::new(true, now());
    c.request_start(true);
    assert!(matches!(c.phase, Phase::Busy));
    c.response_end();
    assert!(matches!(c.phase, Phase::Idle));
}

#[test]
fn raw_mode_never_busy() {
    let mut c = Core::new(true, now());
    c.request_start(false);
    assert!(matches!(c.phase, Phase::Idle));
}

#[test]
fn client_gone_while_busy_drains_and_blocks() {
    let mut c = Core::new(true, now());
    c.request_start(true);
    c.client_gone(Some(now()));
    assert!(matches!(c.phase, Phase::Draining { deadline: Some(_) }));
    // Draining rejects new clients even though no sink is attached.
    assert_eq!(c.try_accept(false), None);
    // the REPL finishing on its own returns to Idle.
    c.response_end();
    assert!(matches!(c.phase, Phase::Idle));
}

#[test]
fn client_gone_while_idle_keeps_idle() {
    let mut c = Core::new(true, now());
    c.client_gone(Some(now()));
    assert!(matches!(c.phase, Phase::Idle));
}

#[test]
fn ready_only_transitions_from_booting() {
    let mut c = Core::new(false, now());
    assert!(c.ready());
    assert!(matches!(c.phase, Phase::Idle));
    assert!(!c.ready(), "ready is a no-op once already ready");
}

#[test]
fn begin_booting_resets_served() {
    let mut c = Core::new(true, now());
    c.try_accept(false);
    assert!(c.served);
    c.begin_booting(false, now());
    assert!(!c.served);
    assert!(c.is_booting());
}

// ---- further cases -------------------------------------------------------------

#[test]
fn generations_are_never_reused() {
    let mut c = Core::new(true, now());
    assert_eq!(c.try_accept(false), Some(1));
    c.request_start(true);
    c.client_gone(None);
    c.response_end();
    assert_eq!(c.try_accept(false), Some(2));
    assert_eq!(c.requests, 2);
    assert_eq!(c.next_gen, 3);
}

#[test]
fn stopped_refuses_everything() {
    let mut c = Core::new(true, now());
    c.stop();
    assert_eq!(c.try_accept(false), None);
    c.request_start(true);
    c.response_end();
    assert!(!c.ready());
    assert!(matches!(c.phase, Phase::Stopped));
}

#[test]
fn crash_loop_breaker_gives_up_after_five() {
    let mut failures = 0;
    let mut pauses = Vec::new();
    loop {
        match on_repl_exit(true, false, false, false, true, failures) {
            ExitAction::Respawn { failures: f, backoff_ms } => {
                failures = f;
                pauses.push(backoff_ms);
            }
            ExitAction::GiveUp => break,
            ExitAction::Stop => panic!("restart was requested"),
        }
    }
    assert_eq!(pauses, vec![100, 200, 400, 800]);
    assert_eq!(failures, 4);
}

#[test]
fn exit_decisions() {
    // no -r and no forced restart: stop
    assert_eq!(on_repl_exit(false, false, true, false, true, 0), ExitAction::Stop);
    // a REPL that served a client and lived long resets the count
    assert_eq!(
        on_repl_exit(true, false, false, true, false, 3),
        ExitAction::Respawn { failures: 0, backoff_ms: 0 }
    );
    // a forced restart respawns even without -r
    assert_eq!(
        on_repl_exit(false, true, false, true, false, 0),
        ExitAction::Respawn { failures: 0, backoff_ms: 0 }
    );
    // a stuck REPL counts as a startup failure even if it served a client
    assert_eq!(
        on_repl_exit(true, false, true, true, false, 0),
        ExitAction::Respawn { failures: 1, backoff_ms: 100 }
    );
    assert_eq!(on_repl_exit(true, false, true, true, false, 4), ExitAction::GiveUp);
}

fn clocks(
    ready_wait: Option<bool>,
    ready_timeout: Option<bool>,
    warmup_wait: Option<bool>,
    warmup_timeout: Option<bool>,
    deadline_passed: bool,
) -> Clocks {
    Clocks { ready_wait, ready_timeout, warmup_wait, warmup_timeout, deadline_passed }
}

#[test]
fn supervision_ticks() {
    let booting = Phase::Booting { since: now() };
    let t = |p: &Phase, c: Clocks, stuck: bool, forced: bool| supervise(p, c, stuck, forced);
    assert_eq!(t(&booting, clocks(Some(true), None, None, None, false), false, false), Tick::SignalReady);
    assert_eq!(t(&booting, clocks(Some(false), Some(true), None, None, false), false, false), Tick::Nothing);
    assert_eq!(t(&booting, clocks(None, Some(true), None, None, false), false, false), Tick::TerminateStuck);
    assert_eq!(t(&booting, clocks(None, Some(true), None, None, false), true, false), Tick::Nothing);
    let draining = Phase::Draining { deadline: Some(now()) };
    assert_eq!(t(&draining, clocks(None, None, None, None, true), false, false), Tick::TerminateForced);
    assert_eq!(t(&draining, clocks(None, None, None, None, true), false, true), Tick::Nothing);
    assert_eq!(
        t(&Phase::Draining { deadline: None }, clocks(None, None, None, None, true), false, false),
        Tick::Nothing
    );
    assert_eq!(
        t(&Phase::Idle, clocks(Some(true), Some(true), Some(true), Some(true), true), false, false),
        Tick::Nothing
    );
    assert_eq!(t(&Phase::Warmup, clocks(None, None, Some(true), Some(true), false), false, false), Tick::WarmupDone);
    assert_eq!(t(&Phase::Warmup, clocks(None, None, Some(false), Some(true), false), false, false), Tick::TerminateStuck);
    assert_eq!(t(&Phase::Warmup, clocks(None, None, None, Some(false), false), false, false), Tick::Nothing);
}

#[test]
fn warmup_runs_between_ready_and_serving() {
    let mut c = Core::with_warmup(false, true, now());
    assert!(c.is_booting());
    assert_eq!(c.try_accept(false), Some(1));
    assert!(c.ready());
    assert!(matches!(c.phase, Phase::Warmup));
    assert!(c.is_pre_serving());
    c.request_start(true);
    assert!(matches!(c.phase, Phase::Warmup), "no request runs during the warmup");
    assert!(c.warmup_done());
    assert!(!c.warmup_done());
    assert!(matches!(c.phase, Phase::Idle));
    // with no readiness mechanism the REPL starts straight in the warmup
    let c = Core::with_warmup(true, true, now());
    assert!(matches!(c.phase, Phase::Warmup));
    assert_eq!(stage_of(&c.phase), Stage::Warmup);
}

#[test]
fn serving_follows_the_client() {
    let mut c = Core::new(true, now());
    c.try_accept(false);
    assert!(!c.serving);
    c.request_start(true);
    assert!(c.serving);
    c.response_end();
    assert!(c.serving, "the client is still served after its response ended");
    c.client_gone(None);
    assert!(!c.serving);
}

#[test]
fn binds_and_names() {
    let (b, created) = resolve_bind(Bind::Unix { path: None }, "python3", 42);
    assert_eq!(b, Bind::Unix { path: Some(b"./.replstoke_pid42_python3_socket".to_vec()) });
    assert_eq!(created, Some(b"./.replstoke_pid42_python3_socket".to_vec()));
    let (b, created) = resolve_bind(Bind::Tcp { addr: "0.0.0.0".into(), port: 9 }, "x", 1);
    assert_eq!(describe(&b), "0.0.0.0:9");
    assert_eq!(created, None);
    assert_eq!(describe(&Bind::Unix { path: Some(b"/tmp/s".to_vec()) }), "/tmp/s");
    assert_eq!(describe(&Bind::Unix { path: None }), "");
    assert_eq!(
        pidfile_path(&Some(PidfileSpec::Default), "python3", 7),
        Some(b"./.replstoke_pid7_python3_pidfile".to_vec())
    );
    assert_eq!(pidfile_path(&Some(PidfileSpec::Path(b"/p".to_vec())), "x", 7), Some(b"/p".to_vec()));
    assert_eq!(pidfile_path(&None, "x", 7), None);
    assert_eq!(pidfile_text(1234), b"1234\n");
}

#[test]
fn status_line_fields() {
    assert_eq!(
        status_fields(10, 11, 2, 30, "2026-05-17_15-23-41", "127.0.0.1:44556"),
        "server_pid=10 repl_pid=11 requests=2 uptime_s=30 started=2026-05-17_15-23-41 listening=127.0.0.1:44556"
    );
}

#[test]
fn frames_for_clients() {
    assert_eq!(frame_chunk(false, Channel::Stdout, b"raw"), b"raw");
    assert_eq!(frame_chunk(true, Channel::Stdout, b"hi"), b"# RePLstOKE/1.0 00029 out\nhi\n");
    assert_eq!(frame_chunk(true, Channel::Control, b""), b"# RePLstOKE/1.0 00027 ctl\n\n");
}

#[test]
fn pump_hides_boot_output_then_detects_responses() {
    let mut p = Pump::new(b"READY".to_vec(), b"WARM".to_vec(), true, b"\n\n".to_vec(), Vec::new(), true);
    let o = p.on_chunk(Stage::Boot, b"banner REA");
    assert!(!o.ready && o.bytes == b"banner REA");
    let o = p.on_chunk(Stage::Boot, b"DY\n");
    assert!(o.ready && !o.warmup_done);
    let o = p.on_chunk(Stage::Warmup, b"loading... WARM");
    assert!(o.warmup_done && o.bytes == b"loading... WARM");
    let o = p.on_chunk(Stage::Serve, b"answer\n\nmore");
    assert!(o.response_end);
    assert_eq!(o.bytes, b"answermore");
    assert_eq!(p.finish(), b"");
}

#[test]
fn raw_pump_forwards_everything() {
    let mut p = Pump::new(Vec::new(), Vec::new(), false, b"\n\n".to_vec(), Vec::new(), false);
    let o = p.on_chunk(Stage::Serve, b"a\n\nb");
    assert!(!o.response_end && !o.ready);
    assert_eq!(o.bytes, b"a\n\nb");
}

#[test]
fn warmup_input_is_due_once_and_its_output_stays_home() {
    let mut c = Core::with_warmup(true, true, now());
    assert_eq!(c.output_route(), (Stage::Warmup, false));
    assert!(c.take_warmup_turn());
    assert!(!c.take_warmup_turn());
    c.try_accept(false);
    assert!(c.warmup_done());
    assert_eq!(c.output_route(), (Stage::Serve, false));
    c.request_start(true);
    assert_eq!(c.output_route(), (Stage::Serve, true));
    c.begin_booting(true, now());
    assert!(c.take_warmup_turn(), "a respawned REPL warms up again");
}
