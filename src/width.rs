use vstd::prelude::*;
use crate::sign::BimElementSign;
use crate::graph::{find_zone, first_index, occurs};

verus! {

/// How the width of a transit is obtained.
#[derive(Debug, Clone, Copy, PartialEq, Eq, Structural)]
pub enum WidthRule {
    /// An opening between two staircases: from the areas of both.
    InterFloor { first: usize, second: usize },
    /// An entrance or exit door of one zone: from the transit's edges.
    Exterior { zone: usize },
    /// An opening between two zones: from the edges of both zones that the
    /// opening crosses.
    Interior { first: usize, second: usize },
}

/// Why the width of a transit could not be obtained.
#[derive(Debug, Clone, Copy, PartialEq, Eq, Structural)]
pub enum WidthError {
    /// The transit has no output or more than two.
    OutputCount { count: usize },
    /// An output of the transit names no zone.
    MissingZone { output: usize },
    /// A plain opening with only one zone.
    OneSidedDoorWay,
    /// The transit is not a doorway.
    NotATransit,
    /// The transit's outline lacks two points inside or two points outside
    /// its zone.
    EdgePoints,
}

/// The rule that gives the width of a transit of kind `sign` with the given
/// related zones (positions in the zone list, in the order of the transit's
/// outputs).
pub open spec fn width_rule_of(
    sign: BimElementSign,
    related: Seq<usize>,
    zone_signs: Seq<BimElementSign>,
) -> Option<WidthRule> {
    if related.len() == 2 && zone_signs[related[0] as int] == BimElementSign::Staircase
        && zone_signs[related[1] as int] == BimElementSign::Staircase {
        Some(WidthRule::InterFloor { first: related[0], second: related[1] })
    } else if sign == BimElementSign::DoorWayIn || sign == BimElementSign::DoorWayOut {
        Some(WidthRule::Exterior { zone: related[0] })
    } else if sign == BimElementSign::DoorWay && related.len() == 2 {
        Some(WidthRule::Interior { first: related[0], second: related[1] })
    } else {
        None
    }
}

/// `related` holds, for each output, the first position of its zone.
pub open spec fn resolves_all(zone_uuids: Seq<u128>, outputs: Seq<u128>, related: Seq<usize>) -> bool {
    &&& related.len() == outputs.len()
    &&& forall|j: int|
        0 <= j < related.len() ==> first_index(zone_uuids, outputs[j], #[trigger] related[j] as int)
}

/// Chooses how the width of a transit is obtained, after resolving its
/// outputs to zones.
pub fn transit_width_rule(
    sign: BimElementSign,
    outputs: &Vec<u128>,
    zone_uuids: &Vec<u128>,
    zone_signs: &Vec<BimElementSign>,
) -> (r: Result<WidthRule, WidthError>)
    requires
        zone_signs@.len() == zone_uuids@.len(),
    ensures
        r == Err::<WidthRule, WidthError>(WidthError::OutputCount { count: outputs@.len() as usize })
            <==> !(1 <= outputs@.len() <= 2),
        !(1 <= outputs@.len() <= 2) ==> r is Err,
        r matches Err(WidthError::MissingZone { output }) ==> 1 <= outputs@.len() <= 2 && output
            < outputs@.len() && !occurs(zone_uuids@, outputs@[output as int]),
        (1 <= outputs@.len() <= 2 && forall|j: int|
            0 <= j < outputs@.len() ==> occurs(zone_uuids@, #[trigger] outputs@[j])) ==> exists|
            related: Seq<usize>,
        |
            #[trigger] resolves_all(zone_uuids@, outputs@, related) && match width_rule_of(
                sign,
                related,
                zone_signs@,
            ) {
                Some(rule) => r == Ok::<WidthRule, WidthError>(rule),
                None => r is Err && !(r matches Err(WidthError::OutputCount { .. })) && !(
                r matches Err(WidthError::MissingZone { .. })),
            },
{
    let count = outputs.len();
    if count == 0 || count > 2 {
        return Err(WidthError::OutputCount { count });
    }
    let first = match find_zone(zone_uuids, outputs[0]) {
        Some(k) => k,
        None => {
            return Err(WidthError::MissingZone { output: 0 });
        },
    };
    let mut related: Vec<usize> = Vec::new();
    related.push(first);
    if count == 2 {
        match find_zone(zone_uuids, outputs[1]) {
            Some(k) => related.push(k),
            None => {
                return Err(WidthError::MissingZone { output: 1 });
            },
        }
    }
    assert(resolves_all(zone_uuids@, outputs@, related@));
    if count == 2 && matches!(zone_signs[related[0]], BimElementSign::Staircase) && matches!(
        zone_signs[related[1]],
        BimElementSign::Staircase
    ) {
        return Ok(WidthRule::InterFloor { first: related[0], second: related[1] });
    }
    match sign {
        BimElementSign::DoorWayIn | BimElementSign::DoorWayOut => Ok(
            WidthRule::Exterior { zone: related[0] },
        ),
        BimElementSign::DoorWay => {
            if count == 2 {
                Ok(WidthRule::Interior { first: related[0], second: related[1] })
            } else {
                Err(WidthError::OneSidedDoorWay)
            }
        },
        _ => Err(WidthError::NotATransit),
    }
}

/// The points of a transit's outline that form its two edges: the first
/// two inside its zone and the first two outside, by position.
#[derive(Debug, Clone, Copy, PartialEq, Eq, Structural)]
pub struct EdgePoints {
    pub inside_first: usize,
    pub inside_second: usize,
    pub outside_first: usize,
    pub outside_second: usize,
}

/// `a` and `b` are the first two positions where `flags` equals `v`.
pub open spec fn first_two(flags: Seq<bool>, v: bool, a: int, b: int) -> bool {
    &&& 0 <= a < b < flags.len()
    &&& flags[a] == v && flags[b] == v
    &&& forall|j: int| 0 <= j < b && j != a ==> #[trigger] flags[j] != v
}

/// Whether `flags` holds `v` at two positions.
pub open spec fn holds_twice(flags: Seq<bool>, v: bool) -> bool {
    exists|a: int, b: int| 0 <= a < b < flags.len() && #[trigger] flags[a] == v && #[trigger] flags[b] == v
}

/// Picks the two edges of a transit from the membership of its outline's
/// points in its zone.
pub fn split_edge_points(inside: &Vec<bool>) -> (r: Result<EdgePoints, WidthError>)
    ensures
        r is Ok <==> holds_twice(inside@, true) && holds_twice(inside@, false),
        r matches Err(e) ==> e == WidthError::EdgePoints,
        r matches Ok(p) ==> first_two(inside@, true, p.inside_first as int, p.inside_second as int)
            && first_two(inside@, false, p.outside_first as int, p.outside_second as int),
{
    let mut found_in: usize = 0;
    let mut found_out: usize = 0;
    let mut p = EdgePoints { inside_first: 0, inside_second: 0, outside_first: 0, outside_second: 0 };
    let mut i: usize = 0;
    while i < inside.len()
        invariant
            i <= inside@.len(),
            found_in <= 2,
            found_out <= 2,
            found_in == 0 ==> forall|j: int| 0 <= j < i ==> !#[trigger] inside@[j],
            found_in == 1 ==> p.inside_first < i && inside@[p.inside_first as int] && forall|j: int|
                0 <= j < i && j != p.inside_first ==> !#[trigger] inside@[j],
            found_in == 2 ==> first_two(inside@, true, p.inside_first as int, p.inside_second as int),
            found_out == 0 ==> forall|j: int| 0 <= j < i ==> #[trigger] inside@[j],
            found_out == 1 ==> p.outside_first < i && !inside@[p.outside_first as int] && forall|
                j: int,
            |
                0 <= j < i && j != p.outside_first ==> #[trigger] inside@[j],
            found_out == 2 ==> first_two(inside@, false, p.outside_first as int, p.outside_second as int),
        decreases inside@.len() - i,
    {
        if inside[i] {
            if found_in == 0 {
                p.inside_first = i;
                found_in = 1;
            } else if found_in == 1 {
                p.inside_second = i;
                found_in = 2;
            }
        } else {
            if found_out == 0 {
                p.outside_first = i;
                found_out = 1;
            } else if found_out == 1 {
                p.outside_second = i;
                found_out = 2;
            }
        }
        i = i + 1;
    }
    if found_in < 2 || found_out < 2 {
        proof {
            if holds_twice(inside@, true) && holds_twice(inside@, false) {
                if found_in < 2 {
                    let (a, b) = choose|a: int, b: int|
                        0 <= a < b < inside@.len() && #[trigger] inside@[a] == true
                            && #[trigger] inside@[b] == true;
                    assert(inside@[a] && inside@[b]);
                } else {
                    let (a, b) = choose|a: int, b: int|
                        0 <= a < b < inside@.len() && #[trigger] inside@[a] == false
                            && #[trigger] inside@[b] == false;
                    assert(!inside@[a] && !inside@[b]);
                }
            }
        }
        return Err(WidthError::EdgePoints);
    }
    proof {
        assert(inside@[p.inside_first as int] == true && inside@[p.inside_second as int] == true);
        assert(inside@[p.outside_first as int] == false && inside@[p.outside_second as int] == false);
    }
    Ok(p)
}

/// Why a polygon edge could not be determined.
#[derive(Debug, Clone, Copy, PartialEq, Eq, Structural)]
pub enum GeometryError {
    /// The segment crosses no edge, or more than one.
    Intersections { count: usize },
}

/// Number of true flags among the first `upto`.
pub open spec fn count_true(flags: Seq<bool>, upto: int) -> nat
    decreases upto,
{
    if upto <= 0 {
        0
    } else {
        count_true(flags, upto - 1) + if flags[upto - 1] {
            1nat
        } else {
            0nat
        }
    }
}

/// The one edge of a polygon that a segment crosses, from the crossing test
/// of each edge in order; none or several is an error.
pub fn intersected_edge(crossed: &Vec<bool>) -> (r: Result<usize, GeometryError>)
    ensures
        r is Ok <==> count_true(crossed@, crossed@.len() as int) == 1,
        r matches Ok(i) ==> i < crossed@.len() && crossed@[i as int] && forall|j: int|
            0 <= j < crossed@.len() && j != i ==> !#[trigger] crossed@[j],
        r matches Err(GeometryError::Intersections { count }) ==> count == count_true(
            crossed@,
            crossed@.len() as int,
        ),
{
    let mut count: usize = 0;
    let mut last: usize = 0;
    let mut i: usize = 0;
    while i < crossed.len()
        invariant
            i <= crossed@.len(),
            count == count_true(crossed@, i as int),
            count <= i,
            count == 0 ==> forall|j: int| 0 <= j < i ==> !#[trigger] crossed@[j],
            count == 1 ==> last < i && crossed@[last as int] && forall|j: int|
                0 <= j < i && j != last ==> !#[trigger] crossed@[j],
        decreases crossed@.len() - i,
    {
        if crossed[i] {
            last = i;
            count = count + 1;
        }
        i = i + 1;
    }
    if count != 1 {
        return Err(GeometryError::Intersections { count });
    }
    Ok(last)
}

} // verus!
