use evacuation::model::{assign_ids, bim_layout, outside_init_rust, BuildError, ElementRef};
use evacuation::sign::BimElementSign;

fn el(uuid: u128, sign: BimElementSign) -> ElementRef {
    ElementRef { uuid, sign }
}

fn building() -> Vec<ElementRef> {
    vec![
        el(1, BimElementSign::Room),
        el(2, BimElementSign::DoorWay),
        el(3, BimElementSign::Staircase),
        el(4, BimElementSign::DoorWayOut),
        el(5, BimElementSign::Room),
        el(6, BimElementSign::DoorWayIn),
        el(7, BimElementSign::DoorWayOut),
    ]
}

#[test]
fn ids_count_zones_and_transits_apart() {
    assert_eq!(assign_ids(&building()), Ok(vec![0, 0, 1, 1, 2, 2, 3]));
}

#[test]
fn ids_refuse_unknown_elements() {
    let elements = vec![el(1, BimElementSign::Room), el(2, BimElementSign::Undefined)];
    assert_eq!(assign_ids(&elements), Err(BuildError::UnknownElement { element: 1 }));
}

#[test]
fn outside_collects_every_exit() {
    let o = outside_init_rust(&building()).ok().unwrap();
    assert_eq!(o.outputs, vec![4u128, 7]);
    assert_eq!(o.id, 3);
}

#[test]
fn building_without_exit_is_refused() {
    let elements = vec![el(1, BimElementSign::Room), el(2, BimElementSign::DoorWayIn)];
    assert!(matches!(outside_init_rust(&elements), Err(BuildError::NoExit)));
    assert!(matches!(bim_layout(&elements), Err(BuildError::NoExit)));
}

#[test]
fn layout_orders_zones_then_outside() {
    let l = bim_layout(&building()).ok().unwrap();
    assert_eq!(l.zones, vec![0usize, 2, 4]);
    assert_eq!(l.transits, vec![1usize, 3, 5, 6]);
    assert_eq!(l.outside.id, 3);
    assert_eq!(l.outside.outputs, vec![4u128, 7]);
}

#[test]
fn layout_reports_unknown_before_missing_exit() {
    let elements = vec![el(1, BimElementSign::Outside)];
    assert!(matches!(bim_layout(&elements), Err(BuildError::UnknownElement { element: 0 })));
}

#[test]
fn levels_hold_positions_in_the_flat_lists() {
    // elements 0..4 on levels 0, 1, 0, 1, 1; zones are elements 0, 2, 3
    let element_levels = vec![0usize, 1, 0, 1, 1];
    let zones = vec![0usize, 2, 3];
    let groups = evacuation::model::group_by_level(3, &element_levels, &zones);
    assert_eq!(groups, vec![vec![0usize, 1], vec![2usize], vec![]]);
}
