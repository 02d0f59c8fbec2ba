use evacuation::scenario::{density_source, find_last_special, width_source, DensitySource, DistributionType, TransitionType, WidthSource};
use evacuation::sign::BimElementSign;

#[test]
fn special_density_overrides_uniform() {
    let specials = vec![vec![0x87c4961344a74f3f82e0fb4a9ca2f46du128]];
    assert_eq!(
        density_source(BimElementSign::Room, DistributionType::Uniform, 0x87c4961344a74f3f82e0fb4a9ca2f46d, &specials),
        DensitySource::Special { entry: 0 }
    );
    assert_eq!(
        density_source(BimElementSign::Room, DistributionType::Uniform, 5, &specials),
        DensitySource::Uniform
    );
}

#[test]
fn from_bim_density_keeps_people() {
    assert_eq!(density_source(BimElementSign::Staircase, DistributionType::FromBim, 5, &vec![]), DensitySource::Keep);
}

#[test]
fn outside_keeps_its_people() {
    let specials = vec![vec![0u128]];
    assert_eq!(density_source(BimElementSign::Outside, DistributionType::Uniform, 0, &specials), DensitySource::Keep);
}

#[test]
fn last_special_entry_wins() {
    let specials = vec![vec![1u128, 2], vec![3u128], vec![2u128]];
    assert_eq!(find_last_special(&specials, 2), Some(2));
    assert_eq!(find_last_special(&specials, 1), Some(0));
    assert_eq!(find_last_special(&specials, 9), None);
    assert_eq!(find_last_special(&vec![], 9), None);
}

#[test]
fn user_widths_apply_to_doors_only() {
    assert_eq!(width_source(BimElementSign::DoorWayIn, TransitionType::Users, 1, &vec![]), WidthSource::DoorwayIn);
    assert_eq!(width_source(BimElementSign::DoorWayOut, TransitionType::Users, 1, &vec![]), WidthSource::DoorwayOut);
    assert_eq!(width_source(BimElementSign::DoorWay, TransitionType::Users, 1, &vec![]), WidthSource::Keep);
    assert_eq!(width_source(BimElementSign::DoorWayOut, TransitionType::FromBim, 1, &vec![]), WidthSource::Keep);
}

#[test]
fn special_width_overrides_user_width() {
    let specials = vec![vec![0xdcbd8b6e6dd045838aac2492797f8032u128]];
    assert_eq!(
        width_source(BimElementSign::DoorWayOut, TransitionType::Users, 0xdcbd8b6e6dd045838aac2492797f8032, &specials),
        WidthSource::Special { entry: 0 }
    );
}
