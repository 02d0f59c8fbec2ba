use vstd::prelude::*;
use crate::sign::{BimElementSign, is_zone_sign, is_transit_sign};

verus! {

/// What model construction reads of a building element: its UUID and kind.
#[derive(Debug, Clone, Copy, PartialEq, Eq, Structural)]
pub struct ElementRef {
    pub uuid: u128,
    pub sign: BimElementSign,
}

/// Why a building model could not be built.
#[derive(Debug, Clone, Copy, PartialEq, Eq, Structural)]
pub enum BuildError {
    /// The element at this position is neither a zone nor a transit.
    UnknownElement { element: usize },
    /// No element of the building is an evacuation exit.
    NoExit,
}

/// Number of elements among the first `upto` that are zones (`zones`) or
/// transits (`!zones`).
pub open spec fn count_kind(elements: Seq<ElementRef>, zones: bool, upto: int) -> nat
    decreases upto,
{
    if upto <= 0 {
        0
    } else {
        let s = elements[upto - 1].sign;
        count_kind(elements, zones, upto - 1) + if (zones && is_zone_sign(s)) || (!zones
            && is_transit_sign(s)) {
            1nat
        } else {
            0nat
        }
    }
}

pub proof fn lemma_count_kind_bound(elements: Seq<ElementRef>, zones: bool, upto: int)
    requires
        0 <= upto,
    ensures
        count_kind(elements, zones, upto) <= upto,
    decreases upto,
{
    if upto > 0 {
        lemma_count_kind_bound(elements, zones, upto - 1);
    }
}

/// Every element is a zone or a transit.
pub open spec fn all_known(elements: Seq<ElementRef>) -> bool {
    forall|i: int|
        0 <= i < elements.len() ==> is_zone_sign(#[trigger] elements[i].sign) || is_transit_sign(
            elements[i].sign,
        )
}

/// Numbers the elements of a building in order, zones and transits on two
/// separate counters starting at zero.
pub fn assign_ids(elements: &Vec<ElementRef>) -> (r: Result<Vec<u64>, BuildError>)
    ensures
        r is Ok <==> all_known(elements@),
        r matches Ok(ids) ==> {
            &&& ids@.len() == elements@.len()
            &&& forall|i: int|
                0 <= i < ids@.len() ==> #[trigger] ids@[i] == count_kind(
                    elements@,
                    is_zone_sign(elements@[i].sign),
                    i,
                )
        },
        r matches Err(BuildError::UnknownElement { element }) ==> element < elements@.len()
            && !is_zone_sign(elements@[element as int].sign) && !is_transit_sign(
            elements@[element as int].sign,
        ),
        !(r matches Err(BuildError::NoExit)),
{
    let mut ids: Vec<u64> = Vec::new();
    let mut zone_id: usize = 0;
    let mut transit_id: usize = 0;
    let mut i: usize = 0;
    while i < elements.len()
        invariant
            i <= elements@.len(),
            ids@.len() == i,
            zone_id == count_kind(elements@, true, i as int),
            transit_id == count_kind(elements@, false, i as int),
            all_known(elements@.take(i as int)),
            forall|k: int|
                0 <= k < i ==> #[trigger] ids@[k] == count_kind(
                    elements@,
                    is_zone_sign(elements@[k].sign),
                    k,
                ),
        decreases elements@.len() - i,
    {
        proof {
            lemma_count_kind_bound(elements@, true, i as int);
            lemma_count_kind_bound(elements@, false, i as int);
        }
        let s = elements[i].sign;
        match s {
            BimElementSign::Room | BimElementSign::Staircase => {
                ids.push(zone_id as u64);
                zone_id = zone_id + 1;
            },
            BimElementSign::DoorWay | BimElementSign::DoorWayIn | BimElementSign::DoorWayOut => {
                ids.push(transit_id as u64);
                transit_id = transit_id + 1;
            },
            _ => {
                return Err(BuildError::UnknownElement { element: i });
            },
        }
        assert(elements@.take(i + 1).drop_last() =~= elements@.take(i as int));
        assert forall|k: int| 0 <= k < i + 1 implies is_zone_sign(
            #[trigger] elements@.take(i + 1)[k].sign,
        ) || is_transit_sign(elements@.take(i + 1)[k].sign) by {
            if k < i {
                assert(elements@.take(i + 1)[k] == elements@.take(i as int)[k]);
            }
        }
        i = i + 1;
    }
    assert(elements@.take(elements@.len() as int) =~= elements@);
    Ok(ids)
}

/// The UUIDs of the evacuation exits among the first `upto` elements, in
/// order.
pub open spec fn exit_uuids(elements: Seq<ElementRef>, upto: int) -> Seq<u128>
    decreases upto,
{
    if upto <= 0 {
        seq![]
    } else {
        let e = elements[upto - 1];
        let prev = exit_uuids(elements, upto - 1);
        if e.sign == BimElementSign::DoorWayOut {
            prev.push(e.uuid)
        } else {
            prev
        }
    }
}

/// The links of the synthetic Outside zone: its id, which follows the ids of
/// all zones, and its outputs, the UUIDs of all evacuation exits.
pub struct OutsideLinks {
    pub id: u64,
    pub outputs: Vec<u128>,
}

/// Finds the evacuation exits of a building for the Outside zone; a
/// building without one is refused.
pub fn outside_init_rust(elements: &Vec<ElementRef>) -> (r: Result<OutsideLinks, BuildError>)
    ensures
        r is Err <==> exit_uuids(elements@, elements@.len() as int).len() == 0,
        r matches Err(e) ==> e == BuildError::NoExit,
        r matches Ok(o) ==> {
            &&& o.outputs@ == exit_uuids(elements@, elements@.len() as int)
            &&& o.id == count_kind(elements@, true, elements@.len() as int)
        },
{
    let mut outputs: Vec<u128> = Vec::new();
    let mut id: usize = 0;
    let mut i: usize = 0;
    while i < elements.len()
        invariant
            i <= elements@.len(),
            outputs@ == exit_uuids(elements@, i as int),
            id == count_kind(elements@, true, i as int),
        decreases elements@.len() - i,
    {
        proof {
            lemma_count_kind_bound(elements@, true, i as int);
        }
        let e = elements[i];
        match e.sign {
            BimElementSign::DoorWayOut => {
                outputs.push(e.uuid);
            },
            BimElementSign::Room | BimElementSign::Staircase => {
                id = id + 1;
            },
            _ => {},
        }
        i = i + 1;
    }
    if outputs.len() == 0 {
        return Err(BuildError::NoExit);
    }
    Ok(OutsideLinks { id: id as u64, outputs })
}

/// `positions` lists, in order, the positions of the elements of one kind
/// (zones when `zones`, else transits): its entry `k` is the element of that
/// kind numbered `k`.
pub open spec fn positions_of_kind(elements: Seq<ElementRef>, zones: bool, positions: Seq<usize>) -> bool {
    &&& positions.len() == count_kind(elements, zones, elements.len() as int)
    &&& forall|k: int|
        0 <= k < positions.len() ==> {
            let p = #[trigger] positions[k] as int;
            &&& 0 <= p < elements.len()
            &&& if zones {
                is_zone_sign(elements[p].sign)
            } else {
                is_transit_sign(elements[p].sign)
            }
            &&& count_kind(elements, zones, p) == k
        }
}

/// The arrangement of a building model: zones in id order with Outside
/// after them, transits in id order.
pub struct ModelLayout {
    /// Positions of the zone elements, by zone id.
    pub zones: Vec<usize>,
    /// Positions of the transit elements, by transit id.
    pub transits: Vec<usize>,
    pub outside: OutsideLinks,
}

pub proof fn lemma_count_kind_step(elements: Seq<ElementRef>, zones: bool, upto: int)
    requires
        0 <= upto < elements.len(),
    ensures
        count_kind(elements, zones, upto + 1) == count_kind(elements, zones, upto) + if (zones
            && is_zone_sign(elements[upto].sign)) || (!zones && is_transit_sign(
            elements[upto].sign,
        )) {
            1nat
        } else {
            0nat
        },
{
}

/// Lays out the model of a building: every element must be a zone or a
/// transit, and at least one must be an evacuation exit.
pub fn bim_layout(elements: &Vec<ElementRef>) -> (r: Result<ModelLayout, BuildError>)
    ensures
        r is Ok <==> all_known(elements@) && exit_uuids(elements@, elements@.len() as int).len()
            > 0,
        r matches Err(BuildError::UnknownElement { element }) ==> element < elements@.len()
            && !is_zone_sign(elements@[element as int].sign) && !is_transit_sign(
            elements@[element as int].sign,
        ),
        r matches Err(BuildError::NoExit) ==> all_known(elements@) && exit_uuids(
            elements@,
            elements@.len() as int,
        ).len() == 0,
        r matches Ok(l) ==> {
            &&& positions_of_kind(elements@, true, l.zones@)
            &&& positions_of_kind(elements@, false, l.transits@)
            &&& l.outside.outputs@ == exit_uuids(elements@, elements@.len() as int)
            &&& l.outside.id == l.zones@.len()
        },
{
    let _ids = assign_ids(elements)?;
    let outside = outside_init_rust(elements)?;
    let mut zones: Vec<usize> = Vec::new();
    let mut transits: Vec<usize> = Vec::new();
    let mut i: usize = 0;
    while i < elements.len()
        invariant
            i <= elements@.len(),
            all_known(elements@),
            zones@.len() == count_kind(elements@, true, i as int),
            transits@.len() == count_kind(elements@, false, i as int),
            forall|k: int|
                0 <= k < zones@.len() ==> {
                    let p = #[trigger] zones@[k] as int;
                    &&& 0 <= p < i
                    &&& is_zone_sign(elements@[p].sign)
                    &&& count_kind(elements@, true, p) == k
                },
            forall|k: int|
                0 <= k < transits@.len() ==> {
                    let p = #[trigger] transits@[k] as int;
                    &&& 0 <= p < i
                    &&& is_transit_sign(elements@[p].sign)
                    &&& count_kind(elements@, false, p) == k
                },
        decreases elements@.len() - i,
    {
        proof {
            lemma_count_kind_step(elements@, true, i as int);
            lemma_count_kind_step(elements@, false, i as int);
        }
        if crate::sign::is_zone(elements[i].sign) {
            zones.push(i);
        } else {
            assert(is_transit_sign(elements@[i as int].sign));
            transits.push(i);
        }
        i = i + 1;
    }
    Ok(ModelLayout { zones, transits, outside })
}

/// The positions `k` in `positions`, among the first `upto`, of the
/// elements that stand on level `l`, in order.
pub open spec fn on_level(element_levels: Seq<usize>, positions: Seq<usize>, l: int, upto: int) -> Seq<usize>
    decreases upto,
{
    if upto <= 0 {
        seq![]
    } else {
        let prev = on_level(element_levels, positions, l, upto - 1);
        if element_levels[positions[upto - 1] as int] == l {
            prev.push((upto - 1) as usize)
        } else {
            prev
        }
    }
}

/// Groups list positions by level: entry `l` lists, in order, the positions
/// `k` whose element `positions[k]` stands on level `l`. Levels hold
/// positions into the flat zone or transit list, not copies.
pub fn group_by_level(level_count: usize, element_levels: &Vec<usize>, positions: &Vec<usize>) -> (r: Vec<Vec<usize>>)
    requires
        forall|k: int|
            0 <= k < positions@.len() ==> #[trigger] positions@[k] < element_levels@.len()
                && element_levels@[positions@[k] as int] < level_count,
    ensures
        r@.len() == level_count,
        forall|l: int|
            0 <= l < level_count ==> #[trigger] r@[l]@ == on_level(
                element_levels@,
                positions@,
                l,
                positions@.len() as int,
            ),
{
    let mut r: Vec<Vec<usize>> = Vec::new();
    let mut l: usize = 0;
    while l < level_count
        invariant
            l <= level_count,
            r@.len() == l,
            forall|j: int| 0 <= j < l ==> #[trigger] r@[j]@ == Seq::<usize>::empty(),
        decreases level_count - l,
    {
        r.push(Vec::new());
        l = l + 1;
    }
    let mut k: usize = 0;
    while k < positions.len()
        invariant
            k <= positions@.len(),
            r@.len() == level_count,
            forall|j: int|
                0 <= j < positions@.len() ==> #[trigger] positions@[j] < element_levels@.len()
                    && element_levels@[positions@[j] as int] < level_count,
            forall|j: int|
                0 <= j < level_count ==> #[trigger] r@[j]@ == on_level(
                    element_levels@,
                    positions@,
                    j,
                    k as int,
                ),
        decreases positions@.len() - k,
    {
        let lvl = element_levels[positions[k]];
        let ghost before = r@;
        r[lvl].push(k);
        proof {
            assert forall|j: int| 0 <= j < level_count implies #[trigger] r@[j]@ == on_level(
                element_levels@,
                positions@,
                j,
                k + 1,
            ) by {
                assert(before[j]@ == on_level(element_levels@, positions@, j, k as int));
            }
        }
        k = k + 1;
    }
    r
}

} // verus!
