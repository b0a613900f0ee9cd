use nmea_player::datetime::DateTime;
use nmea_player::player::{Clock, Orchestrator};
use nmea_player::state::NavigationState;

fn clock(ms: i64) -> Clock {
    Clock {
        ms,
        dt: DateTime {
            year: 2021,
            month: 2,
            day: 22,
            hour: 0,
            minute: 0,
            second: 0,
        },
    }
}

const LOG: &[u8] = b"$GPZDA,000000.00,22,02,2021,08,00*6A\r\n$SDDPT,10.38,0,*6F\r\n$GPZDA,000002.00,22,02,2021,08,00*6A\r\n";

#[test]
fn replay_paces_to_recorded_gaps() {
    let mut orch = Orchestrator::new();
    assert!(orch.start(LOG, clock(1_000_000)));

    // first time sentence: the anchor is established here, no sleep yet
    let out = orch.step(clock(1_000_000)).unwrap();
    assert_eq!(out.delay_ms, 0);
    assert_eq!(&out.line[..], &b"$GPZDA,000000.00,22,02,2021,08,00*6A"[..]);

    // depth line 10 ms later: the recording has not advanced, no sleep
    let out = orch.step(clock(1_000_010)).unwrap();
    assert_eq!(out.delay_ms, 0);
    assert_eq!(&out.line[..], &b"$SDDPT,10.38,0,*6F"[..]);

    // the recording jumps 2.0 s but only 50 ms really passed: sleep the
    // difference, so that real elapsed time reaches the recorded gap
    let out = orch.step(clock(1_000_050)).unwrap();
    assert_eq!(out.delay_ms, 1950);
    assert!(50 + out.delay_ms as i64 >= 2000);

    // the file is exhausted: the run finishes and keeps the final state
    assert!(orch.step(clock(1_000_060)).is_none());
    let s = orch.snapshot();
    assert_eq!(s.depth_umeters, 10_380_000);
    assert_eq!(
        s.utc,
        DateTime {
            year: 2021,
            month: 2,
            day: 22,
            hour: 0,
            minute: 0,
            second: 2,
        }
    );
}

#[test]
fn replay_never_sleeps_when_behind() {
    let mut orch = Orchestrator::new();
    assert!(orch.start(LOG, clock(0)));
    assert_eq!(orch.step(clock(0)).unwrap().delay_ms, 0);
    assert_eq!(orch.step(clock(10)).unwrap().delay_ms, 0);
    // 3.5 s really passed but the recording advanced only 2.0 s: no sleep
    assert_eq!(orch.step(clock(3500)).unwrap().delay_ms, 0);
}

#[test]
fn rerunning_the_same_file_repeats_the_same_states() {
    let clocks = [5, 17, 1900, 2500];
    let mut first: Vec<NavigationState> = Vec::new();
    let mut second: Vec<NavigationState> = Vec::new();
    for trace in [&mut first, &mut second] {
        let mut orch = Orchestrator::new();
        assert!(orch.start(LOG, clock(clocks[0])));
        for &ms in &clocks {
            orch.step(clock(ms));
            trace.push(orch.snapshot());
        }
    }
    assert_eq!(first, second);
}

#[test]
fn malformed_line_changes_nothing_and_does_not_abort() {
    let mut orch = Orchestrator::new();
    assert!(orch.start(b"$XXFOO,garbage\r\n$SDDPT,1.5,0,*6F\r\n", clock(0)));
    let before = orch.snapshot();
    let out = orch.step(clock(0)).unwrap();
    // the unrecognized line is still transmitted, just not decoded
    assert_eq!(&out.line[..], &b"$XXFOO,garbage"[..]);
    assert_eq!(orch.snapshot(), before);
    // the replay goes on: the next line decodes normally
    orch.step(clock(1)).unwrap();
    assert_eq!(orch.snapshot().depth_umeters, 1_500_000);
}

#[test]
fn file_without_time_sentences_paces_by_line_length() {
    let mut orch = Orchestrator::new();
    assert!(orch.start(b"$SDDPT,10.38,0,*6F\r\n", clock(0)));
    let out = orch.step(clock(0)).unwrap();
    // 18 bytes * 8 bits / 38400 bits per second = 3.75 ms, truncated
    assert_eq!(out.delay_ms, 3);
}

#[test]
fn second_start_while_running_is_a_no_op() {
    let mut orch = Orchestrator::new();
    assert!(orch.start(LOG, clock(0)));
    assert!(!orch.start(b"$SDDPT,1.0,0,\r\n", clock(0)));
    // the first file is still the one playing
    let out = orch.step(clock(0)).unwrap();
    assert_eq!(&out.line[..], &b"$GPZDA,000000.00,22,02,2021,08,00*6A"[..]);
}

#[test]
fn idle_orchestrator_shows_sentinels_and_does_not_step() {
    let mut orch = Orchestrator::new();
    assert!(orch.step(clock(0)).is_none());
    let s = orch.snapshot();
    assert_eq!(s.lat_udeg, 49_123_400);
    assert_eq!(s.lon_udeg, -123_456_700);
    assert_eq!(s.cog_udeg, 90_000_000);
    assert_eq!(s.sog_uknots, 5_000_000);
    assert_eq!(s.awa_udeg, 45_000_000);
    assert_eq!(s.aws_uknots, 10_000_000);
    assert_eq!(s.depth_umeters, 10_000_000);
    assert_eq!(
        s.utc,
        DateTime {
            year: 0,
            month: 0,
            day: 0,
            hour: 0,
            minute: 0,
            second: 0,
        }
    );
}

#[test]
fn unterminated_trailing_line_is_not_replayed() {
    let mut orch = Orchestrator::new();
    assert!(orch.start(b"$SDDPT,2.0,0,\r\n$SDDPT,9.9,0,", clock(0)));
    assert!(orch.step(clock(0)).is_some());
    assert!(orch.step(clock(1)).is_none());
    // only the terminated line was decoded
    assert_eq!(orch.snapshot().depth_umeters, 2_000_000);
}

#[test]
fn bad_time_sentence_falls_back_to_wall_clock_date() {
    // February 31st: the update falls back to the clock reading's date-time
    let mut orch = Orchestrator::new();
    assert!(orch.start(b"$GPZDA,234626.99,31,02,2021,08,00\r\n", clock(7)));
    orch.step(clock(7)).unwrap();
    assert_eq!(
        orch.snapshot().utc,
        DateTime {
            year: 2021,
            month: 2,
            day: 22,
            hour: 0,
            minute: 0,
            second: 0,
        }
    );
}
