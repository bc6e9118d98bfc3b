use deployment_helper::deployment::{hex_color_sliceable, parse_hex_rgb, ZonePlayer};
use deployment_helper::phase::{ActiveTool, Player};
use deployment_helper::tools::{
    drag_allowed, toggle_selection, ChargeClick, ChargeToolState, KillToolState, ShootClick,
    ShootToolState,
};
use deployment_helper::units::UnitStatus;

#[test]
fn charge_declaration_and_targets() {
    let mut c = ChargeToolState::default();
    let friend = UnitStatus::new(Player::Attacker);
    let enemy = UnitStatus::new(Player::Defender);
    assert_eq!(c.click(9, &enemy, Player::Attacker), ChargeClick::Ignored);
    assert_eq!(c.click(1, &friend, Player::Attacker), ChargeClick::ChargerDeclared);
    assert_eq!(c.click(9, &enemy, Player::Attacker), ChargeClick::TargetAdded);
    assert_eq!(c.click(9, &enemy, Player::Attacker), ChargeClick::Ignored);
    assert_eq!(c.click(8, &enemy, Player::Attacker), ChargeClick::TargetAdded);
    assert_eq!(c.charge_targets, vec![9, 8]);
    assert!(!c.may_move(1));
    c.charge_declared = Some(true);
    assert!(c.may_move(1));
    assert!(!c.may_move(9));
    let mut advanced = UnitStatus::new(Player::Attacker);
    advanced.has_advanced = true;
    assert_eq!(c.click(2, &advanced, Player::Attacker), ChargeClick::Ignored);
    assert_eq!(c.declared_charger, Some(1));
}

#[test]
fn shoot_and_kill_clicks() {
    let mut s = ShootToolState::default();
    let friend = UnitStatus::new(Player::Attacker);
    let mut enemy = UnitStatus::new(Player::Defender);
    assert_eq!(s.click(5, &enemy, Player::Attacker, true), ShootClick::Ignored);
    assert_eq!(s.click(1, &friend, Player::Attacker, false), ShootClick::ShooterSelected);
    assert_eq!(s.click(5, &enemy, Player::Attacker, true), ShootClick::Ignored);
    s.selected_weapon_idx = Some(0);
    assert_eq!(s.click(5, &enemy, Player::Attacker, false), ShootClick::Ignored);
    assert_eq!(s.click(5, &enemy, Player::Attacker, true), ShootClick::TargetSelected);
    assert_eq!(s.pending_target, Some(5));
    let mut k = KillToolState::default();
    enemy.confirm_kill();
    k.click(5, &enemy);
    assert_eq!(k.pending_target, None);
    k.click(1, &friend);
    assert_eq!(k.pending_target, Some(1));
}

#[test]
fn selection_toggles_and_drags() {
    assert_eq!(toggle_selection(None, 3), Some(3));
    assert_eq!(toggle_selection(Some(3), 3), None);
    assert_eq!(toggle_selection(Some(4), 3), Some(3));
    let c = ChargeToolState::default();
    let friend = UnitStatus::new(Player::Attacker);
    assert!(drag_allowed(false, false, &friend, Player::Defender, ActiveTool::Move, &c, 1));
    assert!(!drag_allowed(false, true, &friend, Player::Defender, ActiveTool::Move, &c, 1));
    assert!(!drag_allowed(true, false, &friend, Player::Attacker, ActiveTool::Move, &c, 1));
    assert!(!drag_allowed(false, true, &friend, Player::Attacker, ActiveTool::Charge, &c, 1));
}

#[test]
fn hex_colours() {
    assert_eq!(parse_hex_rgb("#ff8000"), Some((255, 128, 0)));
    assert_eq!(parse_hex_rgb("##0A0b0C"), Some((10, 11, 12)));
    assert_eq!(parse_hex_rgb("+f+f+f"), Some((15, 15, 15)));
    assert_eq!(parse_hex_rgb("#fff"), None);
    assert_eq!(parse_hex_rgb("#gg0000"), None);
    assert!(hex_color_sliceable("é0000"));
    assert_eq!(parse_hex_rgb("é0000"), None);
    assert!(!hex_color_sliceable("aébcd"));
    assert!(hex_color_sliceable("not a colour"));
}

#[test]
fn zones_belong_to_the_other_listed_side() {
    assert_eq!(ZonePlayer::Attacker.to_player(), Player::Defender);
    assert_eq!(ZonePlayer::Defender.to_player(), Player::Attacker);
}
