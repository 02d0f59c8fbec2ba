use vstd::prelude::*;
use crate::sign::BimElementSign;

verus! {

/// How people are placed in the zones.
#[derive(Debug, Clone, Copy, PartialEq, Eq, Structural)]
pub enum DistributionType {
    /// As the building description gives them.
    FromBim,
    /// At one density over every zone.
    Uniform,
}

/// How the widths of doors are set.
#[derive(Debug, Clone, Copy, PartialEq, Eq, Structural)]
pub enum TransitionType {
    /// As computed from the building's geometry.
    FromBim,
    /// Fixed widths for entrance and exit doors.
    Users,
}

/// Where the initial occupancy of a zone comes from.
#[derive(Debug, Clone, Copy, PartialEq, Eq, Structural)]
pub enum DensitySource {
    /// The occupancy stays as it is.
    Keep,
    /// Area times the scenario's density.
    Uniform,
    /// Area times the density of this special entry.
    Special { entry: usize },
}

/// Where the width of a transit comes from.
#[derive(Debug, Clone, Copy, PartialEq, Eq, Structural)]
pub enum WidthSource {
    /// The width stays as it is.
    Keep,
    /// The scenario's entrance door width.
    DoorwayIn,
    /// The scenario's exit door width.
    DoorwayOut,
    /// The width of this special entry.
    Special { entry: usize },
}

/// The last special entry, among the first `upto`, that lists `u`.
pub open spec fn last_special(specials: Seq<Seq<u128>>, u: u128, upto: int) -> Option<int>
    decreases upto,
{
    if upto <= 0 {
        None
    } else if specials[upto - 1].contains(u) {
        Some(upto - 1)
    } else {
        last_special(specials, u, upto - 1)
    }
}

/// The UUID lists of special entries.
pub open spec fn uuid_lists(specials: Seq<Vec<u128>>) -> Seq<Seq<u128>> {
    Seq::new(specials.len(), |i: int| specials[i]@)
}

/// Whether `u` is listed in `list`.
pub fn lists_uuid(list: &Vec<u128>, u: u128) -> (r: bool)
    ensures
        r == list@.contains(u),
{
    let mut j: usize = 0;
    while j < list.len()
        invariant
            j <= list@.len(),
            forall|k: int| 0 <= k < j ==> list@[k] != u,
        decreases list@.len() - j,
    {
        if list[j] == u {
            return true;
        }
        j = j + 1;
    }
    false
}

/// The last special entry that lists `u`: when several list it, the last
/// one wins.
pub fn find_last_special(specials: &Vec<Vec<u128>>, u: u128) -> (r: Option<usize>)
    ensures
        r matches Some(i) ==> last_special(uuid_lists(specials@), u, specials@.len() as int) == Some(
            i as int,
        ),
        r is None ==> last_special(uuid_lists(specials@), u, specials@.len() as int) is None,
{
    let ghost lists = uuid_lists(specials@);
    let mut i: usize = specials.len();
    while i > 0
        invariant
            i <= specials@.len(),
            lists == uuid_lists(specials@),
            last_special(lists, u, specials@.len() as int) == last_special(lists, u, i as int),
        decreases i,
    {
        if lists_uuid(&specials[i - 1], u) {
            assert(lists[i - 1] == specials@[i - 1]@);
            return Some(i - 1);
        }
        assert(lists[i - 1] == specials@[i - 1]@);
        i = i - 1;
    }
    None
}

/// The source of a zone's initial occupancy: Outside keeps its own; a
/// special entry that lists the zone wins over the uniform density.
pub open spec fn density_source_of(
    sign: BimElementSign,
    distribution: DistributionType,
    uuid: u128,
    specials: Seq<Seq<u128>>,
) -> DensitySource {
    if sign == BimElementSign::Outside {
        DensitySource::Keep
    } else {
        match last_special(specials, uuid, specials.len() as int) {
            Some(i) => DensitySource::Special { entry: i as usize },
            None => if distribution == DistributionType::Uniform {
                DensitySource::Uniform
            } else {
                DensitySource::Keep
            },
        }
    }
}

/// Decides where a zone's initial occupancy comes from.
pub fn density_source(
    sign: BimElementSign,
    distribution: DistributionType,
    uuid: u128,
    specials: &Vec<Vec<u128>>,
) -> (r: DensitySource)
    ensures
        r == density_source_of(sign, distribution, uuid, uuid_lists(specials@)),
{
    if matches!(sign, BimElementSign::Outside) {
        return DensitySource::Keep;
    }
    match find_last_special(specials, uuid) {
        Some(i) => DensitySource::Special { entry: i },
        None => if matches!(distribution, DistributionType::Uniform) {
            DensitySource::Uniform
        } else {
            DensitySource::Keep
        },
    }
}

/// The source of a transit's width: a special entry that lists the transit
/// wins; otherwise user widths apply to entrance and exit doors.
pub open spec fn width_source_of(
    sign: BimElementSign,
    transition: TransitionType,
    uuid: u128,
    specials: Seq<Seq<u128>>,
) -> WidthSource {
    match last_special(specials, uuid, specials.len() as int) {
        Some(i) => WidthSource::Special { entry: i as usize },
        None => if transition == TransitionType::Users && sign == BimElementSign::DoorWayIn {
            WidthSource::DoorwayIn
        } else if transition == TransitionType::Users && sign == BimElementSign::DoorWayOut {
            WidthSource::DoorwayOut
        } else {
            WidthSource::Keep
        },
    }
}

/// Decides where a transit's width comes from.
pub fn width_source(
    sign: BimElementSign,
    transition: TransitionType,
    uuid: u128,
    specials: &Vec<Vec<u128>>,
) -> (r: WidthSource)
    ensures
        r == width_source_of(sign, transition, uuid, uuid_lists(specials@)),
{
    match find_last_special(specials, uuid) {
        Some(i) => WidthSource::Special { entry: i },
        None => match (transition, sign) {
            (TransitionType::Users, BimElementSign::DoorWayIn) => WidthSource::DoorwayIn,
            (TransitionType::Users, BimElementSign::DoorWayOut) => WidthSource::DoorwayOut,
            _ => WidthSource::Keep,
        },
    }
}

} // verus!
