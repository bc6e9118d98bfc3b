//! The per-unit state that the turn rules read and change.
use vstd::prelude::*;

use crate::phase::{move_type_of, ActiveTool, MoveType, Player};

verus! {

/// Which side a unit is on and what has happened to it this phase or turn.
#[derive(Debug, Clone, Copy, PartialEq, Eq, Structural)]
pub struct UnitStatus {
    pub player: Player,
    /// True if the unit Advanced this Movement phase.
    pub has_advanced: bool,
    /// True if the unit fell back this Movement phase.
    pub has_fallen_back: bool,
    /// True if the unit used a Stratagem or declared a non-move action this phase.
    pub is_performing_action: bool,
    /// True if the unit is battleshocked (Command phase).
    pub is_battleshocked: bool,
    /// True if the unit has been killed (faded, pending despawn).
    pub is_killed: bool,
    /// True if the unit was killed during the current phase (shooting or fight).
    pub killed_this_phase: bool,
}

/// Whether a unit leaves the board when killed units are cleared; with
/// `only_this_phase`, only those killed during the phase that ends.
pub open spec fn despawns(u: UnitStatus, only_this_phase: bool) -> bool {
    if only_this_phase {
        u.is_killed && u.killed_this_phase
    } else {
        u.is_killed
    }
}

impl UnitStatus {
    /// A unit fresh on the board.
    pub fn new(player: Player) -> (r: Self)
        ensures
            r == (UnitStatus {
                player,
                has_advanced: false,
                has_fallen_back: false,
                is_performing_action: false,
                is_battleshocked: false,
                is_killed: false,
                killed_this_phase: false,
            }),
    {
        UnitStatus {
            player,
            has_advanced: false,
            has_fallen_back: false,
            is_performing_action: false,
            is_battleshocked: false,
            is_killed: false,
            killed_this_phase: false,
        }
    }

    /// Whether the unit is removed when killed units are cleared.
    pub fn should_despawn(&self, only_this_phase: bool) -> (r: bool)
        ensures
            r == despawns(*self, only_this_phase),
    {
        if only_this_phase {
            self.is_killed && self.killed_this_phase
        } else {
            self.is_killed
        }
    }

    /// Marks the unit killed, in the current phase.
    pub fn confirm_kill(&mut self)
        ensures
            *final(self) == (UnitStatus { is_killed: true, killed_this_phase: true, ..*old(self) }),
    {
        self.is_killed = true;
        self.killed_this_phase = true;
    }

    /// Marks the unit as performing an action.
    pub fn confirm_action(&mut self)
        ensures
            *final(self) == (UnitStatus { is_performing_action: true, ..*old(self) }),
    {
        self.is_performing_action = true;
    }

    /// At the end of a turn a surviving unit loses its per-turn flags.
    pub fn end_turn(&mut self)
        ensures
            *final(self) == if old(self).is_killed {
                *old(self)
            } else {
                UnitStatus {
                    has_advanced: false,
                    has_fallen_back: false,
                    is_performing_action: false,
                    is_battleshocked: false,
                    killed_this_phase: false,
                    ..*old(self)
                }
            },
    {
        if !self.is_killed {
            self.has_advanced = false;
            self.has_fallen_back = false;
            self.is_performing_action = false;
            self.is_battleshocked = false;
            self.killed_this_phase = false;
        }
    }

    /// At every phase boundary no unit counts as killed in the new phase.
    pub fn end_phase(&mut self)
        ensures
            *final(self) == (UnitStatus { killed_this_phase: false, ..*old(self) }),
    {
        self.killed_this_phase = false;
    }

    /// Records a completed drag with `tool`: Advance and Fall Back mark the
    /// unit; the arrow's move type follows the tool.
    pub fn record_move(&mut self, tool: ActiveTool) -> (r: MoveType)
        ensures
            r == move_type_of(tool),
            *final(self) == match tool {
                ActiveTool::Advance => UnitStatus { has_advanced: true, ..*old(self) },
                ActiveTool::FallBack => UnitStatus { has_fallen_back: true, ..*old(self) },
                _ => *old(self),
            },
    {
        match tool {
            ActiveTool::Move => MoveType::Normal,
            ActiveTool::Advance => {
                self.has_advanced = true;
                MoveType::Advance
            },
            ActiveTool::FallBack => {
                self.has_fallen_back = true;
                MoveType::FallBack
            },
            ActiveTool::Reactive => MoveType::Reactive,
            ActiveTool::PileIn => MoveType::PileIn,
            ActiveTool::Consolidate => MoveType::Consolidate,
            ActiveTool::Charge => MoveType::Charge,
            _ => MoveType::Normal,
        }
    }

    /// Whether the unit may be declared as a charger by `active`: friendly,
    /// alive, and it has neither advanced nor taken an action.
    pub fn can_charge(&self, active: Player) -> (r: bool)
        ensures
            r == (self.player == active && !self.is_killed && !self.has_advanced
                && !self.is_performing_action),
    {
        self.player == active && !self.is_killed && !self.has_advanced && !self.is_performing_action
    }

    /// Whether the unit is drawn in its own colour: always before deployment
    /// is locked, afterwards only on the active player's side.
    pub fn shows_own_colour(&self, locked: bool, active: Player) -> (r: bool)
        ensures
            r == (!locked || self.player == active),
    {
        !locked || self.player == active
    }
}

} // verus!
