use auto_rappy::auto_rappy::{
    decrease_step, finish_decrease, finish_increase, finish_qte, increase_step, needs_recovery,
    next_phase, qte_poll_step, ready_wait_step, refresh_bet_flag, should_await_qte,
    should_decrease, should_increase, BetStep, BotState, DecreaseStep, Phase, QteStep, ReadyStep,
    MAX_BET_ADJUST, QTE_POLL_MS, READY_POLL_MS,
};
use auto_rappy::frame::Frame;
use auto_rappy::template::{detect_qte, downscale_half};

#[test]
fn phases_advance_in_order_while_running() {
    assert_eq!(next_phase(Phase::WaitingForReady, true), Phase::AdjustingBet);
    assert_eq!(next_phase(Phase::AdjustingBet, true), Phase::AwaitingQte);
    assert_eq!(next_phase(Phase::AwaitingQte, true), Phase::Acting);
    assert_eq!(next_phase(Phase::Acting, true), Phase::Recovering);
    assert_eq!(next_phase(Phase::Recovering, true), Phase::WaitingForReady);
    assert_eq!(next_phase(Phase::Stopped, true), Phase::Stopped);
}

#[test]
fn any_phase_stops_when_signal_clears() {
    for p in [
        Phase::WaitingForReady,
        Phase::AdjustingBet,
        Phase::AwaitingQte,
        Phase::Acting,
        Phase::Recovering,
        Phase::Stopped,
    ] {
        assert_eq!(next_phase(p, false), Phase::Stopped);
    }
}

/// Bet adjustment with a coin counter that reaches "bet = 5" after exactly
/// 5 increase presses: exactly 5 presses are issued and the coin flag
/// clears.
#[test]
fn increase_issues_exactly_five_presses() {
    let mut st = BotState::start(true);
    let energy_four_matched = true;
    assert!(should_increase(&st, energy_four_matched));

    let mut presses: u32 = 0;
    let exhausted = loop {
        // the mocked detector: the counter matches "bet = 5" once five
        // increase presses have registered
        let coin_five_matched = presses >= 5;
        match increase_step(presses, coin_five_matched) {
            BetStep::Press => presses += 1,
            BetStep::StopMatched => break false,
            BetStep::StopExhausted => break true,
        }
    };
    assert_eq!(presses, 5);
    assert!(!exhausted);
    finish_increase(&mut st, exhausted);
    assert!(!st.bet_coin_is_one);
    assert!(!st.burst_pending);
}

/// A counter that never reaches "bet = 5": all presses are spent and the
/// burst flag is raised.
#[test]
fn increase_exhaustion_raises_burst() {
    let mut st = BotState::start(true);
    let mut presses: u32 = 0;
    let exhausted = loop {
        match increase_step(presses, false) {
            BetStep::Press => presses += 1,
            BetStep::StopMatched => break false,
            BetStep::StopExhausted => break true,
        }
    };
    assert_eq!(presses, MAX_BET_ADJUST);
    assert!(exhausted);
    finish_increase(&mut st, exhausted);
    assert!(st.burst_pending);
    assert!(!st.bet_coin_is_one);
}

#[test]
fn decrease_presses_until_bet_is_one() {
    let mut st = BotState::start(false);
    assert!(should_decrease(&st, true));
    let mut presses: u32 = 0;
    let mut iteration: u32 = 0;
    loop {
        // the counter reads "bet = 1" after four decrease presses
        let coin_one_matched = presses >= 4;
        match decrease_step(iteration, coin_one_matched) {
            DecreaseStep::Press => presses += 1,
            DecreaseStep::Skip => {}
            DecreaseStep::Done => break,
        }
        iteration += 1;
    }
    assert_eq!(presses, 4);
    finish_decrease(&mut st);
    assert!(st.bet_coin_is_one);
}

/// Recovery scenario: the coin counter matches neither reference, the
/// window is re-resolved once, and capture and input are rebound to the
/// new handle exactly once.
#[test]
fn recovery_rebinds_exactly_once() {
    let coin_one_matched = false;
    let coin_five_matched = false;
    let mut capture_handle: u64 = 11;
    let mut keyboard_handle: u64 = 11;
    let mut rebinds: u32 = 0;
    // one loop iteration's recovery phase, with window lookup mocked to
    // return a fresh handle
    if needs_recovery(coin_one_matched, coin_five_matched) {
        let new_handle = Some(42u64);
        if let Some(h) = new_handle {
            capture_handle = h;
            keyboard_handle = h;
            rebinds += 1;
        }
    }
    assert_eq!(rebinds, 1);
    assert_eq!(capture_handle, 42);
    assert_eq!(keyboard_handle, 42);
    // consistent sensing never triggers recovery
    assert!(!needs_recovery(true, false));
    assert!(!needs_recovery(false, true));
}

/// Timeout scenario with an injectable clock: the ready indicator never
/// matches, and the wait ends with a timeout just past the 60 s bound
/// instead of blocking forever.
#[test]
fn ready_wait_times_out_after_sixty_seconds() {
    let mut now_ms: u64 = 0;
    let mut polls: u32 = 0;
    let outcome = loop {
        match ready_wait_step(now_ms, false, true) {
            ReadyStep::Proceed => break ReadyStep::Proceed,
            ReadyStep::TimedOut => break ReadyStep::TimedOut,
            ReadyStep::Sleep => {
                now_ms += READY_POLL_MS;
                polls += 1;
            }
        }
    };
    assert_eq!(outcome, ReadyStep::TimedOut);
    assert_eq!(now_ms, 62_000);
    assert_eq!(polls, 31);
}

#[test]
fn ready_wait_proceeds_on_match_or_stop() {
    assert_eq!(ready_wait_step(0, true, true), ReadyStep::Proceed);
    assert_eq!(ready_wait_step(59_000, true, true), ReadyStep::Proceed);
    assert_eq!(ready_wait_step(0, false, false), ReadyStep::Proceed);
    assert_eq!(ready_wait_step(0, false, true), ReadyStep::Sleep);
}

#[test]
fn refresh_bet_flag_records_poll() {
    let mut st = BotState::start(false);
    refresh_bet_flag(&mut st, true);
    assert!(st.bet_coin_is_one);
    refresh_bet_flag(&mut st, false);
    assert!(!st.bet_coin_is_one);
}

fn frame(w: usize, h: usize, data: Vec<u8>) -> Frame {
    Frame::from_data(w, h, 1, data).expect("well-formed frame")
}

fn block_pattern(w: usize, h: usize) -> Frame {
    let vals = [30u8, 220, 70, 180, 120, 240, 50];
    let mut data = Vec::new();
    for r in 0..h {
        for c in 0..w {
            data.push(vals[((r / 2) * (w / 2) + c / 2) % vals.len()]);
        }
    }
    frame(w, h, data)
}

/// Quick-time-event scenario: polling every 100 ms, the detector confirms
/// the icon at the third iteration; the captured sub-image is persisted
/// and the pending burst clears.
#[test]
fn qte_confirmed_at_third_poll_persists_and_clears_burst() {
    let mut st = BotState::start(true);
    st.burst_pending = true;
    assert!(should_await_qte(&st, false));

    let tpl = block_pattern(8, 8);
    let half_tpl = downscale_half(&tpl);
    let blank = frame(60, 40, vec![10u8; 60 * 40]);
    let mut with_icon_data = vec![10u8; 60 * 40];
    for r in 0..8 {
        for c in 0..8 {
            with_icon_data[(14 + r) * 60 + 20 + c] = tpl.data[r * 8 + c];
        }
    }
    let with_icon = frame(60, 40, with_icon_data);

    let mut saved_files: Vec<Vec<u8>> = Vec::new();
    let mut elapsed_ms: u64 = 0;
    let mut iteration: u32 = 0;
    let outcome = loop {
        // the detector sees the icon only at the third poll
        let shot = if iteration == 3 { &with_icon } else { &blank };
        let (half, found) = detect_qte(shot, &half_tpl);
        match qte_poll_step(elapsed_ms, found.is_some()) {
            QteStep::Found => {
                saved_files.push(half.data);
                break QteStep::Found;
            }
            QteStep::TimedOut => break QteStep::TimedOut,
            QteStep::Sleep => {
                elapsed_ms += QTE_POLL_MS;
                iteration += 1;
            }
        }
    };
    assert_eq!(outcome, QteStep::Found);
    assert_eq!(iteration, 3);
    assert_eq!(saved_files.len(), 1);
    assert_eq!(saved_files[0].len(), 30 * 20);
    finish_qte(&mut st);
    assert!(!st.burst_pending);
}

#[test]
fn qte_timeout_clears_burst() {
    let mut st = BotState::start(true);
    st.burst_pending = true;
    let mut elapsed_ms: u64 = 0;
    let outcome = loop {
        match qte_poll_step(elapsed_ms, false) {
            QteStep::Found => break QteStep::Found,
            QteStep::TimedOut => break QteStep::TimedOut,
            QteStep::Sleep => elapsed_ms += QTE_POLL_MS,
        }
    };
    assert_eq!(outcome, QteStep::TimedOut);
    finish_qte(&mut st);
    assert!(!st.burst_pending);
}
