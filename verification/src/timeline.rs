//! The game timeline: the snapshots recorded during the game, which one is
//! being viewed, and whose turn the live view shows.
use vstd::prelude::*;

use crate::phase::{opponent, Player};

verus! {

/// Which player takes the first turn.
#[derive(Debug, Clone, Copy, PartialEq, Eq, Structural)]
pub enum FirstPlayer {
    Attacker,
    Defender,
}

impl Default for FirstPlayer {
    fn default() -> (r: Self)
        ensures
            r == FirstPlayer::Attacker,
    {
        FirstPlayer::Attacker
    }
}

/// The player that `f` names.
pub open spec fn first_of(f: FirstPlayer) -> Player {
    match f {
        FirstPlayer::Attacker => Player::Attacker,
        FirstPlayer::Defender => Player::Defender,
    }
}

/// One recorded point of the game; `data` is what the board keeps of it.
pub struct TimelineSnapshot<P> {
    pub label: String,
    /// Which player's turn this snapshot belongs to (`None` for Deployment).
    pub player: Option<Player>,
    /// Whether that player's turn ended with this snapshot.
    pub ends_turn: bool,
    pub data: P,
}

/// The recorded snapshots and the one being viewed.
pub struct GameTimeline<P> {
    pub locked: bool,
    pub first_player: FirstPlayer,
    pub snapshots: Vec<TimelineSnapshot<P>>,
    /// `snapshots.len()` means "live view".
    pub current_index: usize,
}

/// How many of the snapshots end a player's turn.
pub open spec fn turns_ended<P>(s: Seq<TimelineSnapshot<P>>) -> nat
    decreases s.len(),
{
    if s.len() == 0 {
        0
    } else {
        turns_ended(s.drop_last()) + if s.last().ends_turn {
            1nat
        } else {
            0nat
        }
    }
}

/// Whose turn the live view shows once `ended` turns are over: none before
/// deployment is locked; then the first player after an even number of
/// turns, else the other.
pub open spec fn live_player(locked: bool, first: FirstPlayer, ended: nat) -> Option<Player> {
    if !locked {
        None
    } else if ended % 2 == 0 {
        Some(first_of(first))
    } else {
        Some(opponent(first_of(first)))
    }
}

/// The live player of a timeline.
pub open spec fn live_player_of<P>(t: GameTimeline<P>) -> Option<Player> {
    live_player(t.locked, t.first_player, turns_ended(t.snapshots@))
}

/// The label and player of each snapshot.
pub open spec fn snapshot_heads<P>(s: Seq<TimelineSnapshot<P>>) -> Seq<(Seq<char>, Option<Player>)> {
    s.map_values(|t: TimelineSnapshot<P>| (t.label@, t.player))
}

impl<P> GameTimeline<P> {
    /// An unlocked timeline with no snapshots.
    pub fn new() -> (r: Self)
        ensures
            !r.locked,
            r.first_player == FirstPlayer::Attacker,
            r.snapshots@.len() == 0,
            r.current_index == 0,
    {
        GameTimeline { locked: false, first_player: FirstPlayer::Attacker, snapshots: Vec::new(), current_index: 0 }
    }

    /// Returns which player's turn is active in the current live phase: the
    /// first player, or the other after an odd number of finished turns.
    /// Returns `None` if not yet locked.
    pub fn active_player_in_live_view(&self) -> (r: Option<Player>)
        ensures
            r == live_player_of(*self),
    {
        if !self.locked {
            return None;
        }
        let mut odd = false;
        let mut i: usize = 0;
        while i < self.snapshots.len()
            invariant
                i <= self.snapshots@.len(),
                odd == (turns_ended(self.snapshots@.take(i as int)) % 2 == 1),
            decreases self.snapshots@.len() - i,
        {
            proof {
                let t = self.snapshots@.take(i as int + 1);
                assert(t.drop_last() == self.snapshots@.take(i as int));
                assert(t.last() == self.snapshots@[i as int]);
            }
            if self.snapshots[i].ends_turn {
                odd = !odd;
            }
            i = i + 1;
        }
        proof {
            assert(self.snapshots@.take(i as int) == self.snapshots@);
        }
        let (first, second) = match self.first_player {
            FirstPlayer::Attacker => (Player::Attacker, Player::Defender),
            FirstPlayer::Defender => (Player::Defender, Player::Attacker),
        };
        Some(if odd { second } else { first })
    }

    /// Whether the live view (not a recorded snapshot) is shown.
    pub fn is_live_view(&self) -> (r: bool)
        ensures
            r == (self.current_index >= self.snapshots@.len()),
    {
        self.current_index >= self.snapshots.len()
    }

    /// Whether moves are recorded now: deployment is locked and the live view
    /// is shown.
    pub fn accepts_moves(&self) -> (r: bool)
        ensures
            r == (self.locked && self.current_index >= self.snapshots@.len()),
    {
        self.locked && self.current_index >= self.snapshots.len()
    }

    /// Locks in deployment: records the Deployment snapshot and shows the live
    /// view; gives the player who moves first. Does nothing when already locked.
    pub fn lock(&mut self, deployment: P) -> (r: Option<Player>)
        ensures
            old(self).locked ==> r is None && final(self).locked && final(self).current_index
                == old(self).current_index && final(self).snapshots@ == old(self).snapshots@
                && final(self).first_player == old(self).first_player,
            !old(self).locked ==> {
                &&& r == Some(first_of(old(self).first_player))
                &&& final(self).locked
                &&& final(self).first_player == old(self).first_player
                &&& final(self).snapshots@.len() == old(self).snapshots@.len() + 1
                &&& final(self).snapshots@.drop_last() == old(self).snapshots@
                &&& snapshot_heads(final(self).snapshots@).last() == ("Deployment"@, None::<Player>)
                &&& !final(self).snapshots@.last().ends_turn
                &&& final(self).snapshots@.last().data == deployment
                &&& final(self).current_index == final(self).snapshots@.len()
            },
    {
        if self.locked {
            return None;
        }
        self.locked = true;
        self.snapshots.push(
            TimelineSnapshot {
                label: String::from_str("Deployment"),
                player: None,
                ends_turn: false,
                data: deployment,
            },
        );
        self.current_index = self.snapshots.len();
        proof {
            assert(self.snapshots@.drop_last() == old(self).snapshots@);
        }
        match self.first_player {
            FirstPlayer::Attacker => Some(Player::Attacker),
            FirstPlayer::Defender => Some(Player::Defender),
        }
    }

    /// Records a snapshot of the turn being played, tagged with the player
    /// whose turn the live view showed and with whether that turn ends here,
    /// and returns to the live view. Does nothing before deployment is locked.
    pub fn record(&mut self, label: String, ends_turn: bool, data: P)
        ensures
            !old(self).locked ==> final(self).snapshots@ == old(self).snapshots@
                && final(self).current_index == old(self).current_index
                && final(self).locked == old(self).locked,
            old(self).locked ==> {
                &&& final(self).locked
                &&& final(self).first_player == old(self).first_player
                &&& final(self).snapshots@.drop_last() == old(self).snapshots@
                &&& final(self).snapshots@.len() == old(self).snapshots@.len() + 1
                &&& snapshot_heads(final(self).snapshots@).last() == (
                    label@,
                    live_player_of(*old(self)),
                )
                &&& final(self).snapshots@.last().ends_turn == ends_turn
                &&& final(self).snapshots@.last().data == data
                &&& final(self).current_index == final(self).snapshots@.len()
            },
            final(self).first_player == old(self).first_player,
    {
        if !self.locked {
            return;
        }
        let player = self.active_player_in_live_view();
        self.snapshots.push(TimelineSnapshot { label, player, ends_turn, data });
        self.current_index = self.snapshots.len();
        proof {
            assert(self.snapshots@.drop_last() == old(self).snapshots@);
        }
    }

    /// Shows snapshot `idx`, or the live view when `idx` is past the last
    /// snapshot; says whether the live view is shown.
    pub fn rewind(&mut self, idx: usize) -> (r: bool)
        ensures
            final(self).current_index == idx,
            final(self).locked == old(self).locked,
            final(self).first_player == old(self).first_player,
            final(self).snapshots@ == old(self).snapshots@,
            r == (idx >= old(self).snapshots@.len()),
    {
        self.current_index = idx;
        idx >= self.snapshots.len()
    }

    /// The player whose half-turn is shown: the snapshot's when one is
    /// viewed, else the live view's.
    pub fn viewed_player(&self) -> (r: Option<Player>)
        ensures
            r == if self.current_index < self.snapshots@.len() {
                self.snapshots@[self.current_index as int].player
            } else {
                live_player_of(*self)
            },
    {
        if self.current_index < self.snapshots.len() {
            self.snapshots[self.current_index].player
        } else {
            self.active_player_in_live_view()
        }
    }
}


/// The board overlays that a rewind shows or hides.
#[derive(Debug, Clone, Copy, PartialEq, Eq, Structural)]
pub enum Overlay {
    /// A unit's phase-start ghost.
    PhaseStartMarker,
    /// A unit's movement range ring.
    MovementRing,
    /// A movement arrow.
    Arrow,
}

/// Whether an overlay is visible after a rewind: a ghost in the live view
/// when its unit has moved this phase; a range ring never; an arrow when it
/// belongs to the view shown (the live phase's arrows or the snapshot's).
pub fn overlay_visible(kind: Overlay, in_live: bool, unit_moved: bool, arrow_shown: bool) -> (r: bool)
    ensures
        r == match kind {
            Overlay::PhaseStartMarker => in_live && unit_moved,
            Overlay::MovementRing => false,
            Overlay::Arrow => arrow_shown,
        },
{
    match kind {
        Overlay::PhaseStartMarker => in_live && unit_moved,
        Overlay::MovementRing => false,
        Overlay::Arrow => arrow_shown,
    }
}

/// Once deployment is locked, turns alternate: the Deployment snapshot
/// leaves the first player to move, a snapshot that ends a turn passes the
/// live view to the other player, and any other snapshot keeps it.
pub proof fn lemma_turns_alternate<P>(
    first: FirstPlayer,
    snaps: Seq<TimelineSnapshot<P>>,
    next: TimelineSnapshot<P>,
)
    requires
        live_player(true, first, turns_ended(snaps)) is Some,
    ensures
        !next.ends_turn ==> live_player(true, first, turns_ended(seq![next])) == Some(
            first_of(first),
        ),
        next.ends_turn ==> live_player(true, first, turns_ended(snaps.push(next))) == Some(
            opponent(live_player(true, first, turns_ended(snaps)).unwrap()),
        ),
        !next.ends_turn ==> live_player(true, first, turns_ended(snaps.push(next))) == live_player(
            true,
            first,
            turns_ended(snaps),
        ),
{
    assert(snaps.push(next).drop_last() == snaps);
    let one = seq![next];
    assert(one.len() == 1 && one.last() == next);
    assert(one.drop_last() == Seq::<TimelineSnapshot<P>>::empty());
    assert(turns_ended(Seq::<TimelineSnapshot<P>>::empty()) == 0);
    assert(turns_ended(one) == 0 || next.ends_turn);
}

} // verus!
