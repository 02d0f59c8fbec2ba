use evacuation::sign::BimElementSign;
use evacuation::width::{intersected_edge, split_edge_points, transit_width_rule, EdgePoints, GeometryError, WidthError, WidthRule};

#[test]
fn stair_to_stair_is_inter_floor() {
    let uuids = vec![1u128, 2, 0];
    let signs = vec![BimElementSign::Staircase, BimElementSign::Staircase, BimElementSign::Outside];
    assert_eq!(
        transit_width_rule(BimElementSign::DoorWay, &vec![2u128, 1], &uuids, &signs),
        Ok(WidthRule::InterFloor { first: 1, second: 0 })
    );
}

#[test]
fn exits_and_entrances_are_exterior() {
    let uuids = vec![1u128, 2, 0];
    let signs = vec![BimElementSign::Room, BimElementSign::Staircase, BimElementSign::Outside];
    assert_eq!(
        transit_width_rule(BimElementSign::DoorWayOut, &vec![2u128], &uuids, &signs),
        Ok(WidthRule::Exterior { zone: 1 })
    );
    assert_eq!(
        transit_width_rule(BimElementSign::DoorWayIn, &vec![1u128, 2], &uuids, &signs),
        Ok(WidthRule::Exterior { zone: 0 })
    );
}

#[test]
fn plain_openings_are_interior() {
    let uuids = vec![1u128, 2, 0];
    let signs = vec![BimElementSign::Room, BimElementSign::Staircase, BimElementSign::Outside];
    assert_eq!(
        transit_width_rule(BimElementSign::DoorWay, &vec![1u128, 2], &uuids, &signs),
        Ok(WidthRule::Interior { first: 0, second: 1 })
    );
    assert_eq!(
        transit_width_rule(BimElementSign::DoorWay, &vec![1u128], &uuids, &signs),
        Err(WidthError::OneSidedDoorWay)
    );
}

#[test]
fn width_rule_errors() {
    let uuids = vec![1u128, 0];
    let signs = vec![BimElementSign::Room, BimElementSign::Outside];
    assert_eq!(
        transit_width_rule(BimElementSign::DoorWay, &vec![], &uuids, &signs),
        Err(WidthError::OutputCount { count: 0 })
    );
    assert_eq!(
        transit_width_rule(BimElementSign::DoorWay, &vec![1u128, 1, 1], &uuids, &signs),
        Err(WidthError::OutputCount { count: 3 })
    );
    assert_eq!(
        transit_width_rule(BimElementSign::DoorWay, &vec![1u128, 5], &uuids, &signs),
        Err(WidthError::MissingZone { output: 1 })
    );
    assert_eq!(
        transit_width_rule(BimElementSign::Room, &vec![1u128], &uuids, &signs),
        Err(WidthError::NotATransit)
    );
}

#[test]
fn edge_points_are_the_first_two_of_each_side() {
    let inside = vec![true, false, true, false, true];
    assert_eq!(
        split_edge_points(&inside),
        Ok(EdgePoints { inside_first: 0, inside_second: 2, outside_first: 1, outside_second: 3 })
    );
}

#[test]
fn edge_points_need_two_on_each_side() {
    assert_eq!(split_edge_points(&vec![true, true, false, true]), Err(WidthError::EdgePoints));
    assert_eq!(split_edge_points(&vec![]), Err(WidthError::EdgePoints));
}

#[test]
fn exactly_one_edge_must_be_crossed() {
    assert_eq!(intersected_edge(&vec![false, true, false]), Ok(1));
    assert_eq!(intersected_edge(&vec![false, false]), Err(GeometryError::Intersections { count: 0 }));
    assert_eq!(intersected_edge(&vec![true, false, true]), Err(GeometryError::Intersections { count: 2 }));
}
