use deployment_helper::phase::{ActiveTool, GamePhase, MoveType, Player};
use deployment_helper::timeline::{overlay_visible, FirstPlayer, GameTimeline, Overlay};
use deployment_helper::turn::{Despawn, PhaseState};
use deployment_helper::units::UnitStatus;

#[test]
fn phases_run_in_order_and_end_after_fight() {
    assert_eq!(GamePhase::Command.next(), Some(GamePhase::Movement));
    assert_eq!(GamePhase::Movement.next(), Some(GamePhase::Shooting));
    assert_eq!(GamePhase::Shooting.next(), Some(GamePhase::Charge));
    assert_eq!(GamePhase::Charge.next(), Some(GamePhase::Fight));
    assert_eq!(GamePhase::Fight.next(), None);
    assert_eq!(GamePhase::default(), GamePhase::Command);
}

#[test]
fn every_phase_offers_its_default_tool() {
    for p in [GamePhase::Command, GamePhase::Movement, GamePhase::Shooting, GamePhase::Charge, GamePhase::Fight] {
        let tools = p.available_tools();
        assert_eq!(tools[0], ActiveTool::Select);
        assert!(tools.contains(&p.default_tool()));
    }
    assert_eq!(GamePhase::Charge.available_tools(), vec![
        ActiveTool::Select, ActiveTool::Charge, ActiveTool::Reactive, ActiveTool::Kill
    ]);
    assert_eq!(GamePhase::Fight.default_tool(), ActiveTool::PileIn);
}

#[test]
fn labels() {
    assert_eq!(GamePhase::Shooting.label(), "Shooting");
    assert_eq!(ActiveTool::ShootAnnotate.label(), "Shoot");
    assert_eq!(ActiveTool::PerformAction.label(), "Action");
    assert_eq!(MoveType::Normal.label(), "Move");
    assert_eq!(Player::Defender.label(), "Defender");
    assert_eq!(Player::Attacker.other(), Player::Defender);
    assert_eq!(Player::Attacker.other().other(), Player::Attacker);
    assert!(MoveType::Charge.is_dashed());
    assert!(!MoveType::Advance.is_dashed());
    assert!(ActiveTool::Charge.is_movement_tool());
    assert!(!ActiveTool::Kill.is_movement_tool());
}

#[test]
fn a_full_turn_passes_to_the_other_player() {
    let mut s = PhaseState::default();
    assert_eq!(s.turn_number, 1);
    assert_eq!(s.advance().snapshot_label, None);
    let c = s.advance();
    assert_eq!(c.snapshot_label.as_deref(), Some("Turn 1 \u{2014} Attacker Move"));
    assert_eq!(c.next_tool, ActiveTool::ShootAnnotate);
    let c = s.advance();
    assert_eq!(c.despawn, Despawn::KilledThisPhase);
    assert_eq!(s.advance().next_tool, ActiveTool::PileIn);
    assert_eq!(s.phase, GamePhase::Fight);
    let c = s.advance();
    assert_eq!(c.snapshot_label.as_deref(), Some("Turn 1 \u{2014} Attacker Fight"));
    assert_eq!(c.despawn, Despawn::AllKilled);
    assert!(c.reset_turn_flags);
    assert_eq!(c.next_tool, ActiveTool::Select);
    assert_eq!(s, PhaseState { phase: GamePhase::Command, turn_number: 2, active_player: Player::Defender });
    s.advance();
    let c = s.advance();
    assert_eq!(c.snapshot_label.as_deref(), Some("Turn 2 \u{2014} Defender Move"));
    s.advance();
    s.advance();
    let c = s.advance();
    assert_eq!(c.snapshot_label.as_deref(), Some("Turn 2 \u{2014} Defender Fight"));
    assert_eq!(s.turn_number, 3);
    assert_eq!(s.active_player, Player::Attacker);
    s.advance();
    assert_eq!(s.advance().snapshot_label.as_deref(), Some("Turn 3 \u{2014} Attacker Move"));
}

#[test]
fn timeline_alternates_players() {
    let mut t: GameTimeline<u32> = GameTimeline::new();
    assert_eq!(t.active_player_in_live_view(), None);
    t.record("ignored".to_string(), false, 0);
    assert!(t.snapshots.is_empty());
    t.first_player = FirstPlayer::Defender;
    assert_eq!(t.lock(1), Some(Player::Defender));
    assert_eq!(t.lock(2), None);
    assert_eq!(t.snapshots.len(), 1);
    assert_eq!(t.snapshots[0].label, "Deployment");
    assert_eq!(t.snapshots[0].player, None);
    assert!(!t.snapshots[0].ends_turn);
    assert!(t.is_live_view());
    assert_eq!(t.active_player_in_live_view(), Some(Player::Defender));
    t.record("Turn 1 \u{2014} Defender Move".to_string(), false, 3);
    assert_eq!(t.snapshots[1].player, Some(Player::Defender));
    assert_eq!(t.active_player_in_live_view(), Some(Player::Defender));
    t.record("Turn 1 \u{2014} Defender Fight".to_string(), true, 4);
    assert_eq!(t.snapshots[2].player, Some(Player::Defender));
    assert_eq!(t.active_player_in_live_view(), Some(Player::Attacker));
    assert!(!t.rewind(1));
    assert!(!t.accepts_moves());
    assert_eq!(t.viewed_player(), Some(Player::Defender));
    assert!(t.rewind(3));
    assert!(t.accepts_moves());
    assert_eq!(t.viewed_player(), Some(Player::Attacker));
}

#[test]
fn live_view_follows_the_phase_state() {
    let mut t: GameTimeline<u32> = GameTimeline::new();
    let mut s = PhaseState::default();
    s.active_player = t.lock(0).unwrap();
    for _ in 0..12 {
        let c = s.advance();
        if let Some(label) = c.snapshot_label {
            t.record(label, c.ends_turn, 0);
        }
        assert_eq!(t.active_player_in_live_view(), Some(s.active_player));
    }
    assert_eq!(s.turn_number, 3);
    assert_eq!(s.active_player, Player::Attacker);
    assert_eq!(s.phase, GamePhase::Shooting);
}

#[test]
fn unit_flags() {
    let mut u = UnitStatus::new(Player::Attacker);
    assert_eq!(u.record_move(ActiveTool::Advance), MoveType::Advance);
    assert!(u.has_advanced);
    assert!(!u.can_charge(Player::Attacker));
    assert_eq!(u.record_move(ActiveTool::FallBack), MoveType::FallBack);
    assert!(u.has_fallen_back);
    assert_eq!(u.record_move(ActiveTool::Select), MoveType::Normal);
    u.end_turn();
    assert!(!u.has_advanced && !u.has_fallen_back);
    assert!(u.can_charge(Player::Attacker));
    assert!(!u.can_charge(Player::Defender));
    u.confirm_kill();
    assert!(u.should_despawn(true));
    u.end_phase();
    assert!(!u.should_despawn(true));
    assert!(u.should_despawn(false));
    u.end_turn();
    assert!(u.is_killed);
    assert!(u.shows_own_colour(false, Player::Defender));
    assert!(!u.shows_own_colour(true, Player::Defender));
}

#[test]
fn rewind_overlays() {
    assert!(overlay_visible(Overlay::PhaseStartMarker, true, true, false));
    assert!(!overlay_visible(Overlay::PhaseStartMarker, false, true, true));
    assert!(!overlay_visible(Overlay::PhaseStartMarker, true, false, true));
    assert!(!overlay_visible(Overlay::MovementRing, true, true, true));
    assert!(overlay_visible(Overlay::Arrow, false, false, true));
    assert!(!overlay_visible(Overlay::Arrow, true, true, false));
}
