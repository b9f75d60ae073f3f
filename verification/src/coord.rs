//! Hex-space geometry primitives.
//!
//! Positions inside a hexagon live in a three-axis cube-coordinate space.
//! Every position satisfies the cube invariant `x + y + z == 0`.  Components
//! are stored in thousandths of a hex unit so that edge midpoints (at half a
//! unit) and the fixed label positions are exact integers.

use vstd::prelude::*;

verus! {

/// One thousandth of a hex unit; half a unit, the distance from the center of
/// a hexagon to the midpoint of an edge in cube coordinates.
pub const HALF_UNIT: i32 = 500;

/// A position in hex-space, in thousandths of a hex unit per component.
///
/// Well-formed values satisfy the cube-coordinate invariant: the three
/// components sum to zero.
#[derive(Clone, Copy, Debug, PartialEq, Eq, Structural)]
pub struct HexVec {
    pub x: i32,
    pub y: i32,
    pub z: i32,
}

impl HexVec {
    /// The cube-coordinate invariant: components sum to zero.
    pub open spec fn sum_zero(self) -> bool {
        self.x + self.y + self.z == 0
    }

    pub fn new(x: i32, y: i32, z: i32) -> (r: HexVec)
        ensures
            r == (HexVec { x, y, z }),
    {
        HexVec { x, y, z }
    }
}

/// A fatal problem in a tile or map definition.
#[derive(Clone, Debug)]
pub enum DefError {
    /// A position code that is none of `N`, `NE`, `SE`, `S`, `SW`, `NW`, `C`.
    InvalidEdgeCode(String),
    /// A rotation code that is none of `N`, `NE`, `SE`, `S`, `SW`, `NW`.
    InvalidDirection(String),
    /// An explicit hex-space position whose components do not sum to zero.
    NotOnHexPlane(HexVec),
    /// A city whose circle count lies outside `1 ..= 4`.
    InvalidCircleCount(u32),
    /// A secondary code label with only one of its two parts present.
    CodeLabelHalfMissing,
    /// A tile name that the definitions catalog does not hold.
    UnknownDefinition(String),
}

/// What `edge_to_coordinate` returns, at the level of character sequences.
pub open spec fn spec_edge_to_coordinate(code: Seq<char>) -> Option<HexVec> {
    if code.len() == 1 && code[0] == 'N' {
        Some(HexVec { x: 0, y: 500, z: -500i32 })
    } else if code.len() == 2 && code[0] == 'N' && code[1] == 'E' {
        Some(HexVec { x: 500, y: 0, z: -500i32 })
    } else if code.len() == 2 && code[0] == 'S' && code[1] == 'E' {
        Some(HexVec { x: 500, y: -500i32, z: 0 })
    } else if code.len() == 1 && code[0] == 'S' {
        Some(HexVec { x: 0, y: -500i32, z: 500 })
    } else if code.len() == 2 && code[0] == 'S' && code[1] == 'W' {
        Some(HexVec { x: -500i32, y: 0, z: 500 })
    } else if code.len() == 2 && code[0] == 'N' && code[1] == 'W' {
        Some(HexVec { x: -500i32, y: 500, z: 0 })
    } else if code.len() == 1 && code[0] == 'C' {
        Some(HexVec { x: 0, y: 0, z: 0 })
    } else {
        None
    }
}

/// Converts a position code to hex-space coordinates with the origin in the
/// hexagon center.  An unrecognized code is a fatal definition error.
pub fn edge_to_coordinate(edge: &str) -> (r: Result<HexVec, DefError>)
    ensures
        match r {
            Ok(v) => spec_edge_to_coordinate(edge@) == Some(v),
            Err(e) => {
                &&& spec_edge_to_coordinate(edge@) is None
                &&& e matches DefError::InvalidEdgeCode(c) && c@ == edge@
            },
        },
{
    let n = edge.unicode_len();
    if n == 1 {
        let c0 = edge.get_char(0);
        let v = if c0 == 'N' {
            Some(HexVec { x: 0, y: 500, z: -500 })
        } else if c0 == 'S' {
            Some(HexVec { x: 0, y: -500, z: 500 })
        } else if c0 == 'C' {
            Some(HexVec { x: 0, y: 0, z: 0 })
        } else {
            None
        };
        match v {
            Some(v) => {
                Ok(v)
            },
            None => {
                Err(DefError::InvalidEdgeCode(edge.to_owned()))
            },
        }
    } else if n == 2 {
        let c0 = edge.get_char(0);
        let c1 = edge.get_char(1);
        let v = if c0 == 'N' && c1 == 'E' {
            Some(HexVec { x: 500, y: 0, z: -500 })
        } else if c0 == 'S' && c1 == 'E' {
            Some(HexVec { x: 500, y: -500, z: 0 })
        } else if c0 == 'S' && c1 == 'W' {
            Some(HexVec { x: -500, y: 0, z: 500 })
        } else if c0 == 'N' && c1 == 'W' {
            Some(HexVec { x: -500, y: 500, z: 0 })
        } else {
            None
        };
        match v {
            Some(v) => {
                Ok(v)
            },
            None => {
                Err(DefError::InvalidEdgeCode(edge.to_owned()))
            },
        }
    } else {
        Err(DefError::InvalidEdgeCode(edge.to_owned()))
    }
}

/// What `direction_to_angle` returns, in degrees.
pub open spec fn spec_direction_to_angle(code: Seq<char>) -> Option<i32> {
    if code.len() == 1 && code[0] == 'N' {
        Some(0i32)
    } else if code.len() == 2 && code[0] == 'N' && code[1] == 'W' {
        Some(-60i32)
    } else if code.len() == 2 && code[0] == 'S' && code[1] == 'W' {
        Some(-120i32)
    } else if code.len() == 1 && code[0] == 'S' {
        Some(180i32)
    } else if code.len() == 2 && code[0] == 'S' && code[1] == 'E' {
        Some(120i32)
    } else if code.len() == 2 && code[0] == 'N' && code[1] == 'E' {
        Some(60i32)
    } else {
        None
    }
}

/// Converts a compass direction to a rotation in degrees: a multiple of 60
/// in `-120 ..= 180`.  The center code `C` names no direction; it and every
/// other unrecognized code is a fatal definition error.
pub fn direction_to_angle(direction: &str) -> (r: Result<i32, DefError>)
    ensures
        match r {
            Ok(a) => spec_direction_to_angle(direction@) == Some(a),
            Err(e) => {
                &&& spec_direction_to_angle(direction@) is None
                &&& e matches DefError::InvalidDirection(c) && c@ == direction@
            },
        },
{
    let n = direction.unicode_len();
    if n == 1 {
        let c0 = direction.get_char(0);
        if c0 == 'N' {
            Ok(0)
        } else if c0 == 'S' {
            Ok(180)
        } else {
            Err(DefError::InvalidDirection(direction.to_owned()))
        }
    } else if n == 2 {
        let c0 = direction.get_char(0);
        let c1 = direction.get_char(1);
        if c0 == 'N' && c1 == 'W' {
            Ok(-60)
        } else if c0 == 'S' && c1 == 'W' {
            Ok(-120)
        } else if c0 == 'S' && c1 == 'E' {
            Ok(120)
        } else if c0 == 'N' && c1 == 'E' {
            Ok(60)
        } else {
            Err(DefError::InvalidDirection(direction.to_owned()))
        }
    } else {
        Err(DefError::InvalidDirection(direction.to_owned()))
    }
}

/// Law: every recognized position code maps to a vector whose components sum
/// to zero — the cube-coordinate invariant of hex-space.
pub proof fn lemma_edge_coordinates_sum_to_zero(code: Seq<char>)
    ensures
        spec_edge_to_coordinate(code) matches Some(v) ==> v.sum_zero(),
{
}

/// Law: every recognized compass direction maps to an angle in
/// `{0, 60, -60, 120, -120, 180}` degrees, and distinct directions map to
/// distinct angles — the mapping is a bijection onto that set.
pub proof fn lemma_direction_angles(a: Seq<char>, b: Seq<char>)
    ensures
        spec_direction_to_angle(a) matches Some(d) ==> (d == 0 || d == 60 || d == -60 || d == 120
            || d == -120 || d == 180),
        (spec_direction_to_angle(a) is Some && spec_direction_to_angle(b) is Some
            && spec_direction_to_angle(a) == spec_direction_to_angle(b)) ==> a == b,
{
    if spec_direction_to_angle(a) is Some && spec_direction_to_angle(b) is Some
        && spec_direction_to_angle(a) == spec_direction_to_angle(b) {
        assert(a =~= b);
    }
}

/// Law: each of the six angles is reached by some direction code — the
/// mapping is onto `{0, 60, -60, 120, -120, 180}`.
pub proof fn lemma_direction_angles_onto(d: i32)
    requires
        d == 0 || d == 60 || d == -60 || d == 120 || d == -120 || d == 180,
    ensures
        exists|code: Seq<char>| spec_direction_to_angle(code) == Some(d),
{
    if d == 0 {
        assert(spec_direction_to_angle(seq!['N']) == Some(0i32));
    } else if d == 60 {
        assert(spec_direction_to_angle(seq!['N', 'E']) == Some(60i32));
    } else if d == -60 {
        assert(spec_direction_to_angle(seq!['N', 'W']) == Some(-60i32));
    } else if d == 120 {
        assert(spec_direction_to_angle(seq!['S', 'E']) == Some(120i32));
    } else if d == -120 {
        assert(spec_direction_to_angle(seq!['S', 'W']) == Some(-120i32));
    } else {
        assert(spec_direction_to_angle(seq!['S']) == Some(180i32));
    }
}

} // verus!
