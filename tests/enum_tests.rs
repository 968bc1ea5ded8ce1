use bet_architecture::cure_foundation::ProjectStatus;
use bet_architecture::signals::SignalType;
use bet_architecture::trading::OrderSide;

#[test]
fn project_status_advances_to_approval_and_stays() {
    let s = ProjectStatus::Planning;
    let s = s.advanced();
    assert!(matches!(s, ProjectStatus::Active));
    let s = s.advanced();
    assert!(matches!(s, ProjectStatus::Clinical));
    let s = s.advanced();
    assert!(matches!(s, ProjectStatus::Approved));
    let s = s.advanced();
    assert!(matches!(s, ProjectStatus::Approved));
}

#[test]
fn signal_types_compare_by_kind() {
    assert_eq!(SignalType::Buy, SignalType::Buy);
    assert_ne!(SignalType::Buy, SignalType::Sell);
    assert_eq!(format!("{:?}", SignalType::Hold), "Hold");
}

#[test]
fn order_sides_print_their_names() {
    assert_eq!(format!("{:?}", OrderSide::Buy), "Buy");
    assert_eq!(format!("{:?}", OrderSide::Sell.clone()), "Sell");
}
