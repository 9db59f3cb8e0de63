use rog_fan_curve::Board;
use rog_fan_curve::Fan;

#[test]
fn board_by_name() {
    assert_eq!(Board::from_name("GA401IV"), Some(Board::Ga401));
}

#[test]
fn board_name_must_match_exactly() {
    assert_eq!(Board::from_name(""), None);
    assert_eq!(Board::from_name("GA401"), None);
    assert_eq!(Board::from_name("GA401IV "), None);
    assert_eq!(Board::from_name(" GA401IV"), None);
    assert_eq!(Board::from_name("GA401IV\n"), None);
    assert_eq!(Board::from_name("ga401iv"), None);
    assert_eq!(Board::from_name("GA401IU"), None);
    assert_eq!(Board::from_name("GA401IVC"), None);
    assert_eq!(Board::from_name("GA502IV"), None);
}

#[test]
fn every_fan_has_an_address() {
    assert_eq!(Fan::Cpu.address(), Some(0x40));
    assert_eq!(Fan::Gpu.address(), Some(0x44));
}

#[test]
fn fan_names() {
    assert_eq!(Fan::Cpu.name(), "Cpu");
    assert_eq!(Fan::Gpu.name(), "Gpu");
    assert_eq!(format!("{:?}", Fan::Cpu), Fan::Cpu.name());
    assert_eq!(format!("{:?}", Fan::Gpu), Fan::Gpu.name());
}
