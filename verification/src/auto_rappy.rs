//! The perception check and the bet/timing decision logic of the control
//! loop.
//!
//! Every function here is pure decision logic: detector results, elapsed
//! times and counters come in as plain values, the next action comes out.
//! The embedding program performs the actions (capture, key presses,
//! sleeps, window lookup) and hands the observed results back, one
//! iteration at a time.

use vstd::prelude::*;
use crate::binarize::bin_of;
use crate::binarize::lemma_binarize_idempotent;
use crate::binarize::get_threshold_mat;
use crate::binarize::IMG_THRESH;
use crate::frame::Frame;
use crate::frame::FrameView;
use crate::ssim::get_ssim;
use crate::ssim::ssim_of;

verus! {

/// Similarity threshold for the ready indicator (0.90 in fixed point).
pub const SIM_THRESHOLD_KEY_READY: i64 = 900_000;

/// Similarity threshold for coin-counter and energy checks (0.85).
pub const SIM_THRESHOLD_COIN: i64 = 850_000;

/// Similarity threshold for the target-appeared banner (0.70).
pub const SIM_THRESHOLD_TARGET: i64 = 700_000;

/// How long the ready indicator is polled before giving up.
pub const READY_TIMEOUT_MS: u64 = 60_000;

/// Pause between two ready-indicator polls.
pub const READY_POLL_MS: u64 = 2_000;

/// Settle delay before quick-time-event polling starts.
pub const QTE_SETTLE_MS: u64 = 3_000;

/// How long the quick-time-event icon is polled before giving up.
pub const QTE_TIMEOUT_MS: u64 = 30_000;

/// Pause between two quick-time-event polls.
pub const QTE_POLL_MS: u64 = 100;

/// Maximum number of bet-adjustment key presses in one cycle.
pub const MAX_BET_ADJUST: u32 = 20;

/// A frame after binarization: same geometry, one channel, the plane cut
/// at its Otsu threshold.
pub open spec fn binarized(f: FrameView) -> FrameView {
    FrameView { width: f.width, height: f.height, channels: 1, data: bin_of(f.gray_plane()) }
}

/// Binarization is idempotent on whole frames: binarizing a frame that
/// is already the result of binarization returns it unchanged.
pub proof fn lemma_binarized_idempotent(f: FrameView)
    requires
        1 <= f.width,
        1 <= f.height,
    ensures
        binarized(binarized(f)) == binarized(f),
{
    let b = binarized(f);
    assert(0 <= f.height * f.width) by (nonlinear_arith)
        requires
            1 <= f.width,
            1 <= f.height,
    ;
    assert(b.data.len() == f.height * f.width);
    crate::frame::lemma_gray_plane_identity(b);
    crate::binarize::lemma_binarize_idempotent(f.gray_plane());
}

/// Whether a captured region looks like its reference: both images are
/// binarized (when `threshed`), their structural similarity is computed
/// exactly, and the score is compared against the fixed-point threshold.
/// Images of mismatched geometry never match.
pub fn check_game_shot(
    game_shot: &Frame,
    template_img: &Frame,
    sim_threshold: i64,
    threshed: bool,
) -> (r: bool)
    requires
        game_shot.wf(),
        template_img.wf(),
        4 <= game_shot.width,
        4 <= game_shot.height,
        4 <= template_img.width,
        4 <= template_img.height,
    ensures
        threshed ==> r == (game_shot.width == template_img.width && game_shot.height
            == template_img.height && ssim_of(
            binarized(game_shot@),
            binarized(template_img@),
            true,
        ) > sim_threshold),
        !threshed ==> r == (game_shot.width == template_img.width && game_shot.height
            == template_img.height && game_shot.channels == template_img.channels && ssim_of(
            game_shot@,
            template_img@,
            game_shot.channels == 1,
        ) > sim_threshold),
{
    if threshed {
        let shot_bin = get_threshold_mat(game_shot, IMG_THRESH);
        let tpl_bin = get_threshold_mat(template_img, IMG_THRESH);
        proof {
            assert(shot_bin@ == binarized(game_shot@));
            assert(tpl_bin@ == binarized(template_img@));
        }
        match get_ssim(&shot_bin, &tpl_bin, true) {
            Ok(sim) => sim > sim_threshold,
            Err(_) => false,
        }
    } else {
        let single = game_shot.channels == 1;
        match get_ssim(game_shot, template_img, single) {
            Ok(sim) => sim > sim_threshold,
            Err(_) => false,
        }
    }
}

/// The control loop's phases, advanced in a fixed order once per
/// iteration while the external running flag stays set.
#[derive(Clone, Copy, Debug, PartialEq, Eq, Structural)]
pub enum Phase {
    /// Polling the ready indicator.
    WaitingForReady,
    /// Raising or lowering the bet to match the energy level.
    AdjustingBet,
    /// Waiting for the quick-time-event icon.
    AwaitingQte,
    /// Pressing confirm if the ready indicator still matches.
    Acting,
    /// Checking sensing consistency and rebinding the window if needed.
    Recovering,
    /// The external stop signal was observed; the loop exits.
    Stopped,
}

/// The loop's own mutable flags. The running flag mirrors the external
/// start/stop signal, sampled once per iteration.
#[derive(Clone, Copy, Debug, PartialEq, Eq, Structural)]
pub struct BotState {
    /// The coin counter last matched the "bet = 1" reference.
    pub bet_coin_is_one: bool,
    /// Bet adjustment exhausted its presses; the target is presumed stuck
    /// in an alternate sub-screen.
    pub burst_pending: bool,
    /// The external start/stop signal, as last sampled.
    pub running: bool,
}

impl BotState {
    /// The state at loop start: coin flag as first detected, no burst.
    pub fn start(bet_coin_is_one: bool) -> (s: BotState)
        ensures
            s.bet_coin_is_one == bet_coin_is_one,
            !s.burst_pending,
            s.running,
    {
        BotState { bet_coin_is_one, burst_pending: false, running: true }
    }
}

/// The phase following `p`: the fixed per-iteration order while running,
/// `Stopped` as soon as the stop signal is seen.
pub fn next_phase(p: Phase, running: bool) -> (q: Phase)
    ensures
        !running ==> q == Phase::Stopped,
        running ==> q == match p {
            Phase::WaitingForReady => Phase::AdjustingBet,
            Phase::AdjustingBet => Phase::AwaitingQte,
            Phase::AwaitingQte => Phase::Acting,
            Phase::Acting => Phase::Recovering,
            Phase::Recovering => Phase::WaitingForReady,
            Phase::Stopped => Phase::Stopped,
        },
{
    if !running {
        Phase::Stopped
    } else {
        match p {
            Phase::WaitingForReady => Phase::AdjustingBet,
            Phase::AdjustingBet => Phase::AwaitingQte,
            Phase::AwaitingQte => Phase::Acting,
            Phase::Acting => Phase::Recovering,
            Phase::Recovering => Phase::WaitingForReady,
            Phase::Stopped => Phase::Stopped,
        }
    }
}

/// Outcome of one ready-indicator poll decision.
#[derive(Clone, Copy, Debug, PartialEq, Eq, Structural)]
pub enum ReadyStep {
    /// The indicator matched or the loop is stopping: go on.
    Proceed,
    /// The timeout elapsed without a match: log it and fall through.
    TimedOut,
    /// Keep waiting; sleep `READY_POLL_MS` and poll again.
    Sleep,
}

/// One decision of the ready-indicator wait: proceed on a match or a
/// cleared running flag, report a timeout strictly after
/// `READY_TIMEOUT_MS`, otherwise sleep and poll again.
pub fn ready_wait_step(elapsed_ms: u64, ready_matched: bool, running: bool) -> (s: ReadyStep)
    ensures
        (ready_matched || !running) ==> s == ReadyStep::Proceed,
        (!ready_matched && running && elapsed_ms > READY_TIMEOUT_MS) ==> s == ReadyStep::TimedOut,
        (!ready_matched && running && elapsed_ms <= READY_TIMEOUT_MS) ==> s == ReadyStep::Sleep,
{
    if ready_matched || !running {
        ReadyStep::Proceed
    } else if elapsed_ms > READY_TIMEOUT_MS {
        ReadyStep::TimedOut
    } else {
        ReadyStep::Sleep
    }
}

/// Record the freshly polled coin-counter state; nothing else changes.
pub fn refresh_bet_flag(st: &mut BotState, coin_one_matched: bool)
    ensures
        final(st).bet_coin_is_one == coin_one_matched,
        final(st).burst_pending == old(st).burst_pending,
        final(st).running == old(st).running,
{
    st.bet_coin_is_one = coin_one_matched;
}

/// The increase path runs only with one coin bet and a full energy gauge.
pub fn should_increase(st: &BotState, energy_four_matched: bool) -> (r: bool)
    ensures
        r == (st.bet_coin_is_one && energy_four_matched),
{
    st.bet_coin_is_one && energy_four_matched
}

/// Outcome of one bet-increase attempt decision.
#[derive(Clone, Copy, Debug, PartialEq, Eq, Structural)]
pub enum BetStep {
    /// The counter has not reached the goal: press once more.
    Press,
    /// The counter matched the goal: stop early.
    StopMatched,
    /// All presses are spent without a match: stop, presume a stuck
    /// sub-screen.
    StopExhausted,
}

/// One decision of the bet-increase loop: stop early once "bet = 5"
/// matches, press while fewer than `MAX_BET_ADJUST` presses were issued,
/// and report exhaustion otherwise.
pub fn increase_step(presses_done: u32, coin_five_matched: bool) -> (s: BetStep)
    ensures
        coin_five_matched ==> s == BetStep::StopMatched,
        (!coin_five_matched && presses_done < MAX_BET_ADJUST) ==> s == BetStep::Press,
        (!coin_five_matched && presses_done >= MAX_BET_ADJUST) ==> s == BetStep::StopExhausted,
{
    if coin_five_matched {
        BetStep::StopMatched
    } else if presses_done < MAX_BET_ADJUST {
        BetStep::Press
    } else {
        BetStep::StopExhausted
    }
}

/// Close the increase path: the coin flag clears, and exhaustion flags a
/// pending burst (an already pending one stays).
pub fn finish_increase(st: &mut BotState, exhausted: bool)
    ensures
        !final(st).bet_coin_is_one,
        final(st).burst_pending == (old(st).burst_pending || exhausted),
        final(st).running == old(st).running,
{
    st.bet_coin_is_one = false;
    if exhausted {
        st.burst_pending = true;
    }
}

/// The decrease path runs only with more than one coin bet and an empty
/// energy gauge.
pub fn should_decrease(st: &BotState, energy_zero_matched: bool) -> (r: bool)
    ensures
        r == (!st.bet_coin_is_one && energy_zero_matched),
{
    !st.bet_coin_is_one && energy_zero_matched
}

/// Outcome of one bet-decrease iteration decision.
#[derive(Clone, Copy, Debug, PartialEq, Eq, Structural)]
pub enum DecreaseStep {
    /// The counter is not at "bet = 1" yet: press once.
    Press,
    /// The counter already matches: skip this iteration's press.
    Skip,
    /// All iterations are spent: stop.
    Done,
}

/// One decision of the bet-decrease loop: at most `MAX_BET_ADJUST`
/// iterations, pressing exactly when "bet = 1" does not match yet.
pub fn decrease_step(iteration: u32, coin_one_matched: bool) -> (s: DecreaseStep)
    ensures
        iteration >= MAX_BET_ADJUST ==> s == DecreaseStep::Done,
        (iteration < MAX_BET_ADJUST && !coin_one_matched) ==> s == DecreaseStep::Press,
        (iteration < MAX_BET_ADJUST && coin_one_matched) ==> s == DecreaseStep::Skip,
{
    if iteration >= MAX_BET_ADJUST {
        DecreaseStep::Done
    } else if !coin_one_matched {
        DecreaseStep::Press
    } else {
        DecreaseStep::Skip
    }
}

/// Close the decrease path: the bet is back at one coin.
pub fn finish_decrease(st: &mut BotState)
    ensures
        final(st).bet_coin_is_one,
        final(st).burst_pending == old(st).burst_pending,
        final(st).running == old(st).running,
{
    st.bet_coin_is_one = true;
}

/// Quick-time-event polling starts when the target banner matched or a
/// burst is pending.
pub fn should_await_qte(st: &BotState, target_matched: bool) -> (r: bool)
    ensures
        r == (target_matched || st.burst_pending),
{
    target_matched || st.burst_pending
}

/// Outcome of one quick-time-event poll decision.
#[derive(Clone, Copy, Debug, PartialEq, Eq, Structural)]
pub enum QteStep {
    /// The icon was confirmed; the caller persists the capture.
    Found,
    /// The timeout elapsed without a confirmation.
    TimedOut,
    /// Keep polling; sleep `QTE_POLL_MS` and look again.
    Sleep,
}

/// One decision of the quick-time-event poll: found on a confirmed match,
/// timed out strictly after `QTE_TIMEOUT_MS`, otherwise sleep and look
/// again.
pub fn qte_poll_step(elapsed_ms: u64, qte_found: bool) -> (s: QteStep)
    ensures
        qte_found ==> s == QteStep::Found,
        (!qte_found && elapsed_ms > QTE_TIMEOUT_MS) ==> s == QteStep::TimedOut,
        (!qte_found && elapsed_ms <= QTE_TIMEOUT_MS) ==> s == QteStep::Sleep,
{
    if qte_found {
        QteStep::Found
    } else if elapsed_ms > QTE_TIMEOUT_MS {
        QteStep::TimedOut
    } else {
        QteStep::Sleep
    }
}

/// Close the quick-time-event phase: found or timed out, a pending burst
/// is resolved either way.
pub fn finish_qte(st: &mut BotState)
    ensures
        !final(st).burst_pending,
        final(st).bet_coin_is_one == old(st).bet_coin_is_one,
        final(st).running == old(st).running,
{
    st.burst_pending = false;
}

/// Sensing is inconsistent when the coin counter matches neither "bet =
/// 1" nor "bet = 5": the window has likely moved or was resized, so the
/// loop re-resolves it and rebinds capture and input.
pub fn needs_recovery(coin_one_matched: bool, coin_five_matched: bool) -> (r: bool)
    ensures
        r == (!coin_one_matched && !coin_five_matched),
{
    !coin_one_matched && !coin_five_matched
}

} // verus!
