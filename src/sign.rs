use vstd::prelude::*;

verus! {

/// Kind of a building element.
#[derive(Debug, Clone, Copy, PartialEq, Eq, Structural)]
pub enum BimElementSign {
    /// A room.
    Room,
    /// A staircase.
    Staircase,
    /// A plain opening between two rooms.
    DoorWay,
    /// An entrance door.
    DoorWayIn,
    /// An evacuation exit.
    DoorWayOut,
    /// The synthetic zone outside the building.
    Outside,
    /// An element of unknown kind.
    Undefined,
}

/// Element kinds as numbered by the C interface of the model.
#[allow(non_camel_case_types)]
#[derive(Debug, Clone, Copy, PartialEq, Eq, Structural)]
pub enum bim_element_sign_t_rust {
    ROOM,
    STAIRCASE,
    DOOR_WAY,
    DOOR_WAY_INT,
    DOOR_WAY_OUT,
    OUTSIDE,
    UNDEFINDED,
}

impl bim_element_sign_t_rust {
    /// The kind as the model names it.
    pub fn to_sign(self) -> (r: BimElementSign)
        ensures
            r == sign_of_c(self),
    {
        match self {
            bim_element_sign_t_rust::ROOM => BimElementSign::Room,
            bim_element_sign_t_rust::STAIRCASE => BimElementSign::Staircase,
            bim_element_sign_t_rust::DOOR_WAY => BimElementSign::DoorWay,
            bim_element_sign_t_rust::DOOR_WAY_INT => BimElementSign::DoorWayIn,
            bim_element_sign_t_rust::DOOR_WAY_OUT => BimElementSign::DoorWayOut,
            bim_element_sign_t_rust::OUTSIDE => BimElementSign::Outside,
            bim_element_sign_t_rust::UNDEFINDED => BimElementSign::Undefined,
        }
    }

    /// The kind as the C interface numbers it.
    pub fn from_sign(s: BimElementSign) -> (r: Self)
        ensures
            sign_of_c(r) == s,
    {
        match s {
            BimElementSign::Room => bim_element_sign_t_rust::ROOM,
            BimElementSign::Staircase => bim_element_sign_t_rust::STAIRCASE,
            BimElementSign::DoorWay => bim_element_sign_t_rust::DOOR_WAY,
            BimElementSign::DoorWayIn => bim_element_sign_t_rust::DOOR_WAY_INT,
            BimElementSign::DoorWayOut => bim_element_sign_t_rust::DOOR_WAY_OUT,
            BimElementSign::Outside => bim_element_sign_t_rust::OUTSIDE,
            BimElementSign::Undefined => bim_element_sign_t_rust::UNDEFINDED,
        }
    }
}

/// The model's kind for each kind of the C interface.
pub open spec fn sign_of_c(c: bim_element_sign_t_rust) -> BimElementSign {
    match c {
        bim_element_sign_t_rust::ROOM => BimElementSign::Room,
        bim_element_sign_t_rust::STAIRCASE => BimElementSign::Staircase,
        bim_element_sign_t_rust::DOOR_WAY => BimElementSign::DoorWay,
        bim_element_sign_t_rust::DOOR_WAY_INT => BimElementSign::DoorWayIn,
        bim_element_sign_t_rust::DOOR_WAY_OUT => BimElementSign::DoorWayOut,
        bim_element_sign_t_rust::OUTSIDE => BimElementSign::Outside,
        bim_element_sign_t_rust::UNDEFINDED => BimElementSign::Undefined,
    }
}

/// Sign strings of a building description that name a known kind.
pub open spec fn sign_of_name(s: Seq<char>) -> Option<BimElementSign> {
    if s == "Room"@ {
        Some(BimElementSign::Room)
    } else if s == "Staircase"@ {
        Some(BimElementSign::Staircase)
    } else if s == "DoorWay"@ {
        Some(BimElementSign::DoorWay)
    } else if s == "DoorWayInt"@ || s == "DoorWayIn"@ {
        Some(BimElementSign::DoorWayIn)
    } else if s == "DoorWayOut"@ {
        Some(BimElementSign::DoorWayOut)
    } else {
        None
    }
}

/// Zones are rooms and staircases.
pub open spec fn is_zone_sign(s: BimElementSign) -> bool {
    s == BimElementSign::Room || s == BimElementSign::Staircase
}

/// Transits are the three kinds of doorway.
pub open spec fn is_transit_sign(s: BimElementSign) -> bool {
    s == BimElementSign::DoorWay || s == BimElementSign::DoorWayIn || s
        == BimElementSign::DoorWayOut
}

/// Character-wise equality of two strings.
pub fn str_equals(a: &str, b: &str) -> (r: bool)
    ensures
        r == (a@ == b@),
{
    let n = a.unicode_len();
    if n != b.unicode_len() {
        return false;
    }
    let mut i: usize = 0;
    while i < n
        invariant
            n == a@.len(),
            n == b@.len(),
            i <= n,
            forall|j: int| 0 <= j < i ==> a@[j] == b@[j],
        decreases n - i,
    {
        if a.get_char(i) != b.get_char(i) {
            return false;
        }
        i = i + 1;
    }
    assert(a@ =~= b@);
    true
}

/// Error for a sign string that names no known element kind.
#[derive(Debug, Clone, Copy, PartialEq, Eq, Structural)]
pub struct UnknownSign;

/// Reads the sign string of a building element. Both spellings of the
/// entrance door map to `DoorWayIn`.
pub fn sign_from_name(s: &str) -> (r: Result<BimElementSign, UnknownSign>)
    ensures
        match r {
            Ok(k) => sign_of_name(s@) == Some(k),
            Err(_) => sign_of_name(s@) is None,
        },
{
    if str_equals(s, "Room") {
        Ok(BimElementSign::Room)
    } else if str_equals(s, "Staircase") {
        Ok(BimElementSign::Staircase)
    } else if str_equals(s, "DoorWay") {
        Ok(BimElementSign::DoorWay)
    } else if str_equals(s, "DoorWayInt") || str_equals(s, "DoorWayIn") {
        Ok(BimElementSign::DoorWayIn)
    } else if str_equals(s, "DoorWayOut") {
        Ok(BimElementSign::DoorWayOut)
    } else {
        Err(UnknownSign)
    }
}

/// Whether an element of this kind is a zone (room or staircase).
pub fn is_zone(s: BimElementSign) -> (r: bool)
    ensures
        r == is_zone_sign(s),
{
    matches!(s, BimElementSign::Room | BimElementSign::Staircase)
}

/// Whether an element of this kind is a transit (a doorway).
pub fn is_transit(s: BimElementSign) -> (r: bool)
    ensures
        r == is_transit_sign(s),
{
    matches!(s, BimElementSign::DoorWay | BimElementSign::DoorWayIn | BimElementSign::DoorWayOut)
}

} // verus!
