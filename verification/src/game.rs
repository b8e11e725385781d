//! A single match: its record, its per-match data map, and the countdown
//! stage machine that takes it from forming to active play.
//!
//! Stages: 0 forming, 1/2/3 the countdown ("3", "2", "1"), 4 active ("GO!"),
//! 5 ending (countdown display cleared). Each stage past the first is gated
//! on wall-clock seconds elapsed since the game was created.

use std::collections::HashMap;
use vstd::prelude::*;

verus! {

/// Stage of a freshly formed game.
pub const STAGE_FORMING: u8 = 0;

/// Stage at which gameplay is unlocked.
pub const STAGE_ACTIVE: u8 = 4;

/// Final stage: the game is winding down.
pub const STAGE_ENDING: u8 = 5;

/// The team score that wins a goal-based game.
pub const GOAL_TARGET: i32 = 5;

/// A value in a game's scoped data map, e.g. a running team score.
#[derive(PartialEq, Eq, Debug)]
pub enum DataValue {
    Int(i32),
    Text(String),
}

/// One active match: the arena map it plays on, its own entity layer, the
/// players taking part, when it was created, its lifecycle stage, and a
/// per-match data map for minigame rules to keep scores in.
#[derive(Debug)]
pub struct Game {
    pub map: usize,
    pub layer: u64,
    pub players: Vec<u64>,
    pub created_at: u64,
    pub stage: u8,
    pub data: HashMap<usize, DataValue>,
}

/// Fired once when a game record has been formed from the queue.
#[derive(Clone, Copy, PartialEq, Eq, Structural, Debug)]
pub struct StartGameEvent(pub u64);

/// Fired once when a game ends, naming the losing team.
#[derive(Clone, Copy, PartialEq, Eq, Structural, Debug)]
pub struct EndGameEvent {
    pub game_id: u64,
    pub loser: u8,
}

/// Fired each time a game's stage changes, carrying the new stage.
#[derive(Clone, Copy, PartialEq, Eq, Structural, Debug)]
pub struct GameStageEvent {
    pub game_id: u64,
    pub stage: u8,
}

/// The data map of a starting game: a zeroed score slot for each of the
/// first `n` teams, everything else kept.
pub open spec fn spec_with_zero_scores(data: Map<usize, DataValue>, n: int) -> Map<
    usize,
    DataValue,
>
    decreases n,
{
    if n <= 0 {
        data
    } else {
        spec_with_zero_scores(data, n - 1).insert((n - 1) as usize, DataValue::Int(0))
    }
}

/// The score a team reaches by scoring a goal: one more than the integer its
/// slot in the game's data map holds (capped at the type's ceiling), or zero
/// when the slot is missing or holds no integer.
pub open spec fn spec_next_score(data: Map<usize, DataValue>, key: usize) -> i32 {
    if data.contains_key(key) {
        match data[key] {
            DataValue::Int(s) => if s < i32::MAX {
                (s + 1) as i32
            } else {
                s
            },
            DataValue::Text(_) => 0,
        }
    } else {
        0
    }
}

/// Whole seconds a game has existed; zero if the clock ran backwards.
pub open spec fn spec_elapsed(now: u64, created_at: u64) -> int {
    if now >= created_at {
        now - created_at
    } else {
        0
    }
}

/// One stage-driver check: a forming game starts its countdown at once, and
/// any later stage below the last advances by one once the elapsed seconds
/// reach the stage number. Otherwise the stage is left alone.
pub open spec fn spec_stage_step(stage: u8, elapsed: int) -> u8 {
    if stage == 0 {
        1
    } else if stage < STAGE_ENDING && elapsed >= stage {
        (stage + 1) as u8
    } else {
        stage
    }
}

/// The stage never regresses under the driver, rises by at most one per
/// check, and never passes the final stage.
pub proof fn lemma_stage_step_monotonic(stage: u8, elapsed: int)
    requires
        stage <= STAGE_ENDING,
    ensures
        stage <= spec_stage_step(stage, elapsed) <= STAGE_ENDING,
        spec_stage_step(stage, elapsed) <= stage + 1,
{
}

/// Once the elapsed-time thresholds (1s, 2s, 3s) are met, four driver checks
/// take a freshly formed game from forming all the way to active play.
pub proof fn lemma_countdown_reaches_active(e0: int, e1: int, e2: int, e3: int)
    requires
        e1 >= 1,
        e2 >= 2,
        e3 >= 3,
    ensures
        spec_stage_step(spec_stage_step(spec_stage_step(spec_stage_step(0, e0), e1), e2), e3)
            == STAGE_ACTIVE,
{
}

impl Game {
    /// Seconds elapsed since this game was created, by the given clock.
    pub fn elapsed_secs(&self, now: u64) -> (e: u64)
        ensures
            e == spec_elapsed(now, self.created_at),
    {
        if now >= self.created_at {
            now - self.created_at
        } else {
            0
        }
    }

    /// Run one stage-driver check against the clock: advance the stage when
    /// it is due and report the new stage, or report nothing.
    pub fn advance_stage(&mut self, now: u64) -> (advanced: Option<u8>)
        requires
            old(self).stage <= STAGE_ENDING,
        ensures
            final(self).stage == spec_stage_step(
                old(self).stage,
                spec_elapsed(now, old(self).created_at),
            ),
            advanced is Some <==> final(self).stage != old(self).stage,
            advanced is Some ==> advanced->0 == final(self).stage,
            final(self).map == old(self).map,
            final(self).layer == old(self).layer,
            final(self).players == old(self).players,
            final(self).created_at == old(self).created_at,
            final(self).data == old(self).data,
    {
        let elapsed = self.elapsed_secs(now);
        if self.stage == 0 || (self.stage < STAGE_ENDING && elapsed >= self.stage as u64) {
            self.stage = self.stage + 1;
            Some(self.stage)
        } else {
            None
        }
    }
}

/// The countdown title shown to every participant when a game reaches the
/// given stage; nothing for the other stages (the final stage clears the
/// title instead: see `stage_clears_title`).
pub fn stage_title(stage: u8) -> (t: Option<&'static str>)
    ensures
        stage == 1 ==> t is Some && t->0@ == "3"@,
        stage == 2 ==> t is Some && t->0@ == "2"@,
        stage == 3 ==> t is Some && t->0@ == "1"@,
        stage == STAGE_ACTIVE ==> t is Some && t->0@ == "GO!"@,
        stage == 0 || stage > STAGE_ACTIVE ==> t is None,
{
    match stage {
        1 => Some("3"),
        2 => Some("2"),
        3 => Some("1"),
        4 => Some("GO!"),
        _ => None,
    }
}

/// Whether a stage change wipes the countdown title from the participants'
/// screens: exactly the final stage does; every other stage without a title
/// of its own leaves the screen alone.
pub fn stage_clears_title(stage: u8) -> (r: bool)
    ensures
        r <==> stage == STAGE_ENDING,
{
    stage == STAGE_ENDING
}

/// The pitch of the note-block pling played on a stage change: low for each
/// countdown step, high when the game goes active, none afterwards.
#[derive(Clone, Copy, PartialEq, Eq, Structural, Debug)]
pub enum StagePling {
    Low,
    High,
}

/// Which pling a stage change plays, if any.
pub fn stage_sound(stage: u8) -> (s: Option<StagePling>)
    ensures
        stage < STAGE_ACTIVE ==> s == Some(StagePling::Low),
        stage == STAGE_ACTIVE ==> s == Some(StagePling::High),
        stage > STAGE_ACTIVE ==> s is None,
{
    if stage < STAGE_ACTIVE {
        Some(StagePling::Low)
    } else if stage == STAGE_ACTIVE {
        Some(StagePling::High)
    } else {
        None
    }
}

} // verus!
