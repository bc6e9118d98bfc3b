//! Turn sequencing: the phase, the turn counter and whose turn it is, and what
//! ending a phase asks of the board.
use vstd::prelude::*;

use crate::numeral::{decimal, u32_decimal};
use crate::phase::{default_tool_of, opponent, phase_after, ActiveTool, GamePhase, Player};
use crate::text::{append_chars, chars_of, string_of};
use crate::timeline::{first_of, live_player, turns_ended, FirstPlayer, TimelineSnapshot};

verus! {

/// Tracks game phase sequencing.
#[derive(Debug, Clone, Copy, PartialEq, Eq, Structural)]
pub struct PhaseState {
    pub phase: GamePhase,
    /// 1-based turn counter; increments when Fight ends.
    pub turn_number: u32,
    /// Which player's turn is currently active (set on lock, toggled at end of Fight).
    pub active_player: Player,
}

impl Default for PhaseState {
    fn default() -> (r: Self)
        ensures
            r == (PhaseState { phase: GamePhase::Command, turn_number: 1, active_player: Player::Attacker }),
    {
        PhaseState { phase: GamePhase::Command, turn_number: 1, active_player: Player::Attacker }
    }
}

/// Which killed units leave the board when a phase ends.
#[derive(Debug, Clone, Copy, PartialEq, Eq, Structural)]
pub enum Despawn {
    Nothing,
    /// Units killed during the phase that ends.
    KilledThisPhase,
    /// Every killed unit.
    AllKilled,
}

/// What ending a phase asks of the board.
#[derive(Debug, Clone, PartialEq, Eq)]
pub struct PhaseChange {
    /// The label of the timeline snapshot to record, if one is recorded.
    pub snapshot_label: Option<String>,
    pub despawn: Despawn,
    /// Whether surviving units lose their per-turn flags.
    pub reset_turn_flags: bool,
    /// Whether the player's turn ends (its snapshot is marked so).
    pub ends_turn: bool,
    /// The tool to switch to.
    pub next_tool: ActiveTool,
}

/// The label of a player as text.
pub open spec fn player_label(p: Player) -> Seq<char> {
    match p {
        Player::Attacker => "Attacker"@,
        Player::Defender => "Defender"@,
    }
}

/// `Turn {turn} — {player} {what}`, the turn counted from 1.
pub open spec fn turn_label(turn: u32, p: Player, what: Seq<char>) -> Seq<char> {
    let shown: nat = if turn == 0 {
        1
    } else {
        turn as nat
    };
    "Turn "@ + decimal(shown) + " \u{2014} "@ + player_label(p) + " "@ + what
}

/// The phase state after the current phase ends.
pub open spec fn state_after(s: PhaseState) -> PhaseState {
    let next = match phase_after(s.phase) {
        Some(p) => p,
        None => GamePhase::Command,
    };
    if s.phase == GamePhase::Fight {
        PhaseState {
            phase: next,
            turn_number: (s.turn_number + 1) as u32,
            active_player: opponent(s.active_player),
        }
    } else {
        PhaseState { phase: next, ..s }
    }
}

/// What ending the current phase of `s` asks of the board: Movement records
/// a `Move` snapshot, Shooting removes the units killed in it, Fight removes
/// every killed unit, clears the survivors' flags and records a `Fight`
/// snapshot; then the next phase's default tool is chosen.
pub open spec fn change_after(s: PhaseState) -> (Option<Seq<char>>, Despawn, bool, ActiveTool) {
    let next_tool = default_tool_of(state_after(s).phase);
    match s.phase {
        GamePhase::Movement => (
            Some(turn_label(s.turn_number, s.active_player, "Move"@)),
            Despawn::Nothing,
            false,
            next_tool,
        ),
        GamePhase::Shooting => (None, Despawn::KilledThisPhase, false, next_tool),
        GamePhase::Fight => (
            Some(turn_label(s.turn_number, s.active_player, "Fight"@)),
            Despawn::AllKilled,
            true,
            next_tool,
        ),
        _ => (None, Despawn::Nothing, false, next_tool),
    }
}

/// The view of an optional label.
pub open spec fn opt_label(o: Option<String>) -> Option<Seq<char>> {
    match o {
        Some(s) => Some(s@),
        None => None,
    }
}

fn turn_label_of(turn: u32, p: Player, what: &str) -> (r: String)
    ensures
        r@ == turn_label(turn, p, what@),
{
    let shown: u32 = if turn == 0 { 1 } else { turn };
    let mut v = chars_of("Turn ");
    append_chars(&mut v, &u32_decimal(shown));
    append_chars(&mut v, &chars_of(" \u{2014} "));
    append_chars(&mut v, &chars_of(p.label()));
    append_chars(&mut v, &chars_of(" "));
    append_chars(&mut v, &chars_of(what));
    string_of(&v)
}

impl PhaseState {
    /// Ends the current phase: moves to the next phase (Command after Fight,
    /// when the turn counter goes up and the other player's turn begins) and
    /// says what the board has to do.
    pub fn advance(&mut self) -> (r: PhaseChange)
        requires
            old(self).phase == GamePhase::Fight ==> old(self).turn_number < u32::MAX,
        ensures
            *final(self) == state_after(*old(self)),
            (opt_label(r.snapshot_label), r.despawn, r.reset_turn_flags, r.next_tool) == change_after(
                *old(self),
            ),
            r.ends_turn == (old(self).phase == GamePhase::Fight),
    {
        let current = self.phase;
        let (label, despawn, reset) = match current {
            GamePhase::Movement => (
                Some(turn_label_of(self.turn_number, self.active_player, "Move")),
                Despawn::Nothing,
                false,
            ),
            GamePhase::Shooting => (None, Despawn::KilledThisPhase, false),
            GamePhase::Fight => {
                let l = turn_label_of(self.turn_number, self.active_player, "Fight");
                self.turn_number = self.turn_number + 1;
                self.active_player = self.active_player.other();
                (Some(l), Despawn::AllKilled, true)
            },
            _ => (None, Despawn::Nothing, false),
        };
        let new_phase = match current.next() {
            Some(p) => p,
            None => GamePhase::Command,
        };
        self.phase = new_phase;
        PhaseChange {
            snapshot_label: label,
            despawn,
            reset_turn_flags: reset,
            ends_turn: reset,
            next_tool: new_phase.default_tool(),
        }
    }
}


/// `n` phases ended one after the other.
pub open spec fn after_phases(s: PhaseState, n: nat) -> PhaseState
    decreases n,
{
    if n == 0 {
        s
    } else {
        after_phases(state_after(s), (n - 1) as nat)
    }
}

/// A full turn: ending five phases from Command returns to Command with the
/// turn counter one higher and the other player active; only the last of the
/// five (Fight) changes counter or player.
pub proof fn lemma_full_turn(s: PhaseState)
    requires
        s.phase == GamePhase::Command,
        s.turn_number < u32::MAX,
    ensures
        after_phases(s, 5) == (PhaseState {
            phase: GamePhase::Command,
            turn_number: (s.turn_number + 1) as u32,
            active_player: opponent(s.active_player),
        }),
        after_phases(s, 4) == (PhaseState { phase: GamePhase::Fight, ..s }),
{
    let s1 = state_after(s);
    let s2 = state_after(s1);
    let s3 = state_after(s2);
    let s4 = state_after(s3);
    let s5 = state_after(s4);
    assert(after_phases(s5, 0) == s5);
    assert(after_phases(s4, 1) == after_phases(s5, 0));
    assert(after_phases(s3, 2) == after_phases(s4, 1));
    assert(after_phases(s2, 3) == after_phases(s3, 2));
    assert(after_phases(s1, 4) == after_phases(s2, 3));
    assert(after_phases(s, 5) == after_phases(s1, 4));
    assert(after_phases(s4, 0) == s4);
    assert(after_phases(s3, 1) == after_phases(s4, 0));
    assert(after_phases(s2, 2) == after_phases(s3, 1));
    assert(after_phases(s1, 3) == after_phases(s2, 2));
    assert(after_phases(s, 4) == after_phases(s1, 3));
}

/// Two full turns give the turn back to the same player.
pub proof fn lemma_two_turns(s: PhaseState)
    requires
        s.phase == GamePhase::Command,
        s.turn_number < u32::MAX - 1,
    ensures
        after_phases(after_phases(s, 5), 5).active_player == s.active_player,
        after_phases(after_phases(s, 5), 5).turn_number == s.turn_number + 2,
{
    lemma_full_turn(s);
    lemma_full_turn(after_phases(s, 5));
}

/// Snapshots are recorded at the end of Movement and of Fight only, and the
/// board always switches to the next phase's default tool.
pub proof fn lemma_snapshots_recorded(s: PhaseState)
    ensures
        change_after(s).0 is Some <==> (s.phase == GamePhase::Movement || s.phase == GamePhase::Fight),
        change_after(s).3 == default_tool_of(state_after(s).phase),
        change_after(s).2 <==> s.phase == GamePhase::Fight,
{
}

/// The live view of the timeline shows the player whose turn the phase state
/// holds: when it does before a phase ends, it still does after it, once the
/// phase's snapshot (if it records one) is added, marked as ending the turn
/// exactly when the phase was Fight.
pub proof fn lemma_live_player_follows_turns<P>(
    first: FirstPlayer,
    snaps: Seq<TimelineSnapshot<P>>,
    s: PhaseState,
    next: TimelineSnapshot<P>,
)
    requires
        live_player(true, first, turns_ended(snaps)) == Some(s.active_player),
    ensures
        change_after(s).0 is None ==> live_player(true, first, turns_ended(snaps)) == Some(
            state_after(s).active_player,
        ),
        change_after(s).0 is Some && next.ends_turn == (s.phase == GamePhase::Fight) ==> live_player(
            true,
            first,
            turns_ended(snaps.push(next)),
        ) == Some(state_after(s).active_player),
{
    assert(snaps.push(next).drop_last() == snaps);
}

/// The snapshots after `n` phase ends from `s`: each phase end that records a
/// snapshot adds `next` of the state whose phase ends.
pub open spec fn recorded_after<P>(
    s: PhaseState,
    snaps: Seq<TimelineSnapshot<P>>,
    next: spec_fn(PhaseState) -> TimelineSnapshot<P>,
    n: nat,
) -> Seq<TimelineSnapshot<P>>
    decreases n,
{
    if n == 0 {
        snaps
    } else {
        let snaps1 = if change_after(s).0 is Some {
            snaps.push(next(s))
        } else {
            snaps
        };
        recorded_after(state_after(s), snaps1, next, (n - 1) as nat)
    }
}

proof fn lemma_live_player_run<P>(
    first: FirstPlayer,
    snaps: Seq<TimelineSnapshot<P>>,
    s: PhaseState,
    next: spec_fn(PhaseState) -> TimelineSnapshot<P>,
    n: nat,
)
    requires
        live_player(true, first, turns_ended(snaps)) == Some(s.active_player),
        forall|ps: PhaseState| #[trigger] next(ps).ends_turn == (ps.phase == GamePhase::Fight),
    ensures
        live_player(true, first, turns_ended(recorded_after(s, snaps, next, n))) == Some(
            after_phases(s, n).active_player,
        ),
    decreases n,
{
    if n > 0 {
        lemma_live_player_follows_turns(first, snaps, s, next(s));
        let snaps1 = if change_after(s).0 is Some {
            snaps.push(next(s))
        } else {
            snaps
        };
        lemma_live_player_run(first, snaps1, state_after(s), next, (n - 1) as nat);
    }
}

/// Over a whole game, the live view of the timeline shows the player whose
/// turn the phase state holds: deployment is locked (its snapshot ends no
/// turn, and the first player is active), then any number of phases end,
/// each recording its snapshot, if it records one, marked as ending the turn
/// exactly when the phase was Fight.
pub proof fn lemma_live_player_whole_game<P>(
    first: FirstPlayer,
    deployment: TimelineSnapshot<P>,
    s: PhaseState,
    next: spec_fn(PhaseState) -> TimelineSnapshot<P>,
    n: nat,
)
    requires
        !deployment.ends_turn,
        s.active_player == first_of(first),
        forall|ps: PhaseState| #[trigger] next(ps).ends_turn == (ps.phase == GamePhase::Fight),
    ensures
        live_player(true, first, turns_ended(recorded_after(s, seq![deployment], next, n)))
            == Some(after_phases(s, n).active_player),
{
    let one = seq![deployment];
    assert(one.drop_last() =~= Seq::<TimelineSnapshot<P>>::empty());
    assert(one.last() == deployment);
    assert(turns_ended(Seq::<TimelineSnapshot<P>>::empty()) == 0);
    assert(turns_ended(one) == 0);
    lemma_live_player_run(first, one, s, next, n);
}

/// Killed units leave the board only when Shooting ends (those killed in
/// it) and when Fight ends (every killed unit); ending Command, Movement or
/// Charge removes none.
pub proof fn lemma_despawn_phases(s: PhaseState)
    ensures
        change_after(s).1 == Despawn::KilledThisPhase <==> s.phase == GamePhase::Shooting,
        change_after(s).1 == Despawn::AllKilled <==> s.phase == GamePhase::Fight,
        change_after(s).1 == Despawn::Nothing <==> (s.phase == GamePhase::Command || s.phase
            == GamePhase::Movement || s.phase == GamePhase::Charge),
{
}

} // verus!
