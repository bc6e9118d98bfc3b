//! What a click on a unit does under each tool. Units are named by an id
//! (the board's entity bits).
use vstd::prelude::*;

use crate::phase::{ActiveTool, Player};
use crate::units::UnitStatus;

verus! {

/// Kill tool: the unit waiting for confirmation.
#[derive(Debug, Clone, Copy, PartialEq, Eq, Structural, Default)]
pub struct KillToolState {
    pub pending_target: Option<u64>,
}

/// Battleshock tool: the unit waiting for confirmation.
#[derive(Debug, Clone, Copy, PartialEq, Eq, Structural, Default)]
pub struct BattleshockToolState {
    pub pending_target: Option<u64>,
}

/// Deploy-reserves tool: the reserve unit chosen for placement.
#[derive(Debug, Clone, Copy, PartialEq, Eq, Structural, Default)]
pub struct DeployReservesToolState {
    pub selected_reserve: Option<u64>,
}

/// Enter-reserves tool: the unit waiting to go back to reserves.
#[derive(Debug, Clone, Copy, PartialEq, Eq, Structural, Default)]
pub struct EnterReservesToolState {
    pub pending: Option<u64>,
}

impl KillToolState {
    /// Click any non-killed unit to set it as the pending target.
    pub fn click(&mut self, unit: u64, status: &UnitStatus)
        ensures
            final(self).pending_target == if status.is_killed {
                old(self).pending_target
            } else {
                Some(unit)
            },
    {
        if !status.is_killed {
            self.pending_target = Some(unit);
        }
    }
}

impl BattleshockToolState {
    /// Click any non-killed unit to set it as the pending target.
    pub fn click(&mut self, unit: u64, status: &UnitStatus)
        ensures
            final(self).pending_target == if status.is_killed {
                old(self).pending_target
            } else {
                Some(unit)
            },
    {
        if !status.is_killed {
            self.pending_target = Some(unit);
        }
    }
}

/// Range-ring tool: the radius being typed and the unit it is for.
#[derive(Debug, Clone, PartialEq, Eq, Default)]
pub struct RangeRingToolState {
    pub radius_input: String,
    pub selected_unit: Option<u64>,
}

impl RangeRingToolState {
    /// Click a unit to select it for ring placement.
    pub fn click(&mut self, unit: u64)
        ensures
            final(self).selected_unit == Some(unit),
            final(self).radius_input == old(self).radius_input,
    {
        self.selected_unit = Some(unit);
    }

    /// Leaving the tool keeps the rings and the radius, and drops the selection.
    pub fn leave(&mut self)
        ensures
            final(self).selected_unit is None,
            final(self).radius_input == old(self).radius_input,
    {
        self.selected_unit = None;
    }
}

/// Shoot tool: shooter, weapon and pending target.
#[derive(Debug, Clone, Copy, PartialEq, Eq, Structural, Default)]
pub struct ShootToolState {
    pub selected_shooter: Option<u64>,
    pub selected_weapon_idx: Option<usize>,
    pub pending_target: Option<u64>,
}

/// What a shoot-tool click did.
#[derive(Debug, Clone, Copy, PartialEq, Eq, Structural)]
pub enum ShootClick {
    /// A new shooter was chosen; its old range ring goes.
    ShooterSelected,
    /// The target is pending confirmation.
    TargetSelected,
    Ignored,
}

impl ShootToolState {
    /// A friendly, living unit becomes the shooter (weapon and target are
    /// cleared); a living enemy becomes the pending target when a shooter and
    /// a weapon are chosen and `in_range` (the chosen weapon reaches it).
    pub fn click(&mut self, unit: u64, status: &UnitStatus, active: Player, in_range: bool) -> (r:
        ShootClick)
        ensures
            status.player == active && !status.is_killed ==> r == ShootClick::ShooterSelected
                && *final(self) == (ShootToolState {
                selected_shooter: Some(unit),
                selected_weapon_idx: None,
                pending_target: None,
            }),
            status.player != active && !status.is_killed && old(self).selected_shooter is Some
                && old(self).selected_weapon_idx is Some && in_range ==> r
                == ShootClick::TargetSelected && *final(self) == (ShootToolState {
                pending_target: Some(unit),
                ..*old(self)
            }),
            r == ShootClick::Ignored ==> *final(self) == *old(self),
            status.is_killed ==> r == ShootClick::Ignored,
            status.player != active && !(old(self).selected_shooter is Some
                && old(self).selected_weapon_idx is Some && in_range) ==> r == ShootClick::Ignored,
    {
        if status.is_killed {
            return ShootClick::Ignored;
        }
        if status.player == active {
            self.selected_shooter = Some(unit);
            self.selected_weapon_idx = None;
            self.pending_target = None;
            ShootClick::ShooterSelected
        } else if self.selected_shooter.is_some() && self.selected_weapon_idx.is_some() && in_range {
            self.pending_target = Some(unit);
            ShootClick::TargetSelected
        } else {
            ShootClick::Ignored
        }
    }
}

/// Charge tool: the declared charger, its targets, and the declared outcome.
#[derive(Debug, Clone, PartialEq, Eq, Default)]
pub struct ChargeToolState {
    pub declared_charger: Option<u64>,
    pub charge_targets: Vec<u64>,
    pub charge_declared: Option<bool>,
}

/// What a charge-tool click did.
#[derive(Debug, Clone, Copy, PartialEq, Eq, Structural)]
pub enum ChargeClick {
    /// A new charger was declared; its 12" ring replaces the old one.
    ChargerDeclared,
    /// An enemy was added to the targets.
    TargetAdded,
    Ignored,
}

/// No target is listed twice.
pub open spec fn no_repeats(v: Seq<u64>) -> bool {
    forall|i: int, j: int| 0 <= i < j < v.len() ==> v[i] != v[j]
}

impl ChargeToolState {
    /// The state's invariant: no repeated targets.
    pub open spec fn wf(&self) -> bool {
        no_repeats(self.charge_targets@)
    }

    /// A friendly unit that may charge becomes the charger (targets and
    /// outcome cleared); a living enemy joins the targets once a charger is
    /// declared, unless it is already one.
    pub fn click(&mut self, unit: u64, status: &UnitStatus, active: Player) -> (r: ChargeClick)
        ensures
            old(self).wf() ==> final(self).wf(),
            status.can_charge_spec(active) ==> r == ChargeClick::ChargerDeclared
                && final(self).declared_charger == Some(unit) && final(self).charge_targets@.len()
                == 0 && final(self).charge_declared is None,
            !status.can_charge_spec(active) && status.player != active && !status.is_killed
                && old(self).declared_charger is Some && !old(self).charge_targets@.contains(unit)
                ==> r == ChargeClick::TargetAdded && final(self).charge_targets@ == old(
                self,
            ).charge_targets@.push(unit) && final(self).declared_charger == old(self).declared_charger
                && final(self).charge_declared == old(self).charge_declared,
            r == ChargeClick::Ignored ==> *final(self) == *old(self),
            r != ChargeClick::ChargerDeclared && r != ChargeClick::TargetAdded ==> r
                == ChargeClick::Ignored,
            r == ChargeClick::TargetAdded ==> !status.can_charge_spec(active) && status.player
                != active && !status.is_killed && old(self).declared_charger is Some && !old(
                self,
            ).charge_targets@.contains(unit),
            r == ChargeClick::ChargerDeclared ==> status.can_charge_spec(active),
    {
        if status.can_charge(active) {
            self.declared_charger = Some(unit);
            self.charge_targets = Vec::new();
            self.charge_declared = None;
            return ChargeClick::ChargerDeclared;
        }
        if status.player != active && !status.is_killed && self.declared_charger.is_some() {
            if lists(&self.charge_targets, unit) {
                return ChargeClick::Ignored;
            }
            self.charge_targets.push(unit);
            return ChargeClick::TargetAdded;
        }
        ChargeClick::Ignored
    }

    /// Whether `unit` may be dragged while the charge tool is active: only the
    /// declared charger, once the charge was declared a success.
    pub fn may_move(&self, unit: u64) -> (r: bool)
        ensures
            r == (self.charge_declared == Some(true) && self.declared_charger == Some(unit)),
    {
        match (self.charge_declared, self.declared_charger) {
            (Some(true), Some(c)) => c == unit,
            _ => false,
        }
    }
}

fn lists(v: &Vec<u64>, x: u64) -> (r: bool)
    ensures
        r == v@.contains(x),
{
    let mut i: usize = 0;
    while i < v.len()
        invariant
            i <= v.len(),
            forall|j: int| 0 <= j < i ==> v@[j] != x,
        decreases v.len() - i,
    {
        if v[i] == x {
            proof {
                assert(v@[i as int] == x);
            }
            return true;
        }
        i = i + 1;
    }
    false
}

impl UnitStatus {
    /// `can_charge` as a spec function.
    pub open spec fn can_charge_spec(&self, active: Player) -> bool {
        self.player == active && !self.is_killed && !self.has_advanced && !self.is_performing_action
    }
}

/// Clicking a unit in unit-position analysis selects it, or clears the
/// selection when it was already selected.
pub fn toggle_selection(selected: Option<u64>, clicked: u64) -> (r: Option<u64>)
    ensures
        r == if selected == Some(clicked) {
            None
        } else {
            Some(clicked)
        },
{
    match selected {
        Some(e) if e == clicked => None,
        _ => Some(clicked),
    }
}

/// Whether a drag of a unit is accepted: the unit is not locked; after
/// deployment is locked only the active player's units move; under the charge
/// tool only the successful charger moves.
pub fn drag_allowed(
    unit_locked: bool,
    timeline_locked: bool,
    status: &UnitStatus,
    active: Player,
    tool: ActiveTool,
    charge: &ChargeToolState,
    unit: u64,
) -> (r: bool)
    ensures
        r == (!unit_locked && !(timeline_locked && status.player != active) && (tool
            == ActiveTool::Charge ==> charge.charge_declared == Some(true)
            && charge.declared_charger == Some(unit))),
{
    if unit_locked {
        return false;
    }
    if timeline_locked && status.player != active {
        return false;
    }
    if tool == ActiveTool::Charge {
        return charge.may_move(unit);
    }
    true
}

} // verus!
