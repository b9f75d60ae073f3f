//! The pieces a tile is made of: track paths, cities, stops, text and
//! terrain, each positioned in hex-space.

use vstd::prelude::*;
use crate::coord::{DefError, HexVec, edge_to_coordinate, spec_edge_to_coordinate};

verus! {

/// A position inside a hex: either a named edge/center code or an explicit
/// hex-space vector.
#[derive(Debug)]
pub enum Coordinate {
    Named(String),
    HexSpace(HexVec),
}

/// The hex-space vector a coordinate denotes, if it is valid: a named code
/// must be recognized, and an explicit vector must lie on the hex plane
/// (components summing to zero).
pub open spec fn spec_as_vector(c: Coordinate) -> Option<HexVec> {
    match c {
        Coordinate::Named(s) => spec_edge_to_coordinate(s@),
        Coordinate::HexSpace(v) => if v.sum_zero() {
            Some(v)
        } else {
            None
        },
    }
}

impl Coordinate {
    /// The coordinate as a hex-space vector; a bad code or an off-plane
    /// vector is a fatal definition error.
    pub fn as_vector(&self) -> (r: Result<HexVec, DefError>)
        ensures
            match r {
                Ok(v) => spec_as_vector(*self) == Some(v),
                Err(_) => spec_as_vector(*self) is None,
            },
    {
        match self {
            Coordinate::Named(name) => edge_to_coordinate(name.as_str()),
            Coordinate::HexSpace(v) => {
                let sum = v.x as i64 + v.y as i64 + v.z as i64;
                if sum == 0 {
                    Ok(*v)
                } else {
                    Err(DefError::NotOnHexPlane(*v))
                }
            },
        }
    }
}

impl Clone for Coordinate {
    fn clone(&self) -> (r: Coordinate)
        ensures
            r == *self,
    {
        match self {
            Coordinate::Named(s) => Coordinate::Named(s.clone()),
            Coordinate::HexSpace(v) => Coordinate::HexSpace(*v),
        }
    }
}

/// A track segment between two coordinates, with optional explicit control
/// points for its curvature and a flag for bridges over other track.
#[derive(Debug)]
pub struct Path {
    pub start: Coordinate,
    pub end: Coordinate,
    pub start_control: Option<Coordinate>,
    pub end_control: Option<Coordinate>,
    pub is_bridge: bool,
}

/// Whether a segment is a gentle curve: it connects two edges that share a
/// compass half (two-letter codes with the same first letter), or it connects
/// a single-letter edge to a two-letter edge of the other half.  Every other
/// shape takes the sharp unit radius.
pub open spec fn spec_is_gentle(start: Coordinate, end: Coordinate) -> bool {
    match (start, end) {
        (Coordinate::Named(a), Coordinate::Named(b)) => {
            ||| (a@.len() == 2 && b@.len() == 2 && a@[0] == b@[0])
            ||| ((a@.len() == 2 && b@.len() == 1) || (a@.len() == 1 && b@.len() == 2)) && a@[0]
                != b@[0]
        },
        _ => false,
    }
}

impl Path {
    pub fn new(
        start: Coordinate,
        end: Coordinate,
        start_control: Option<Coordinate>,
        end_control: Option<Coordinate>,
        is_bridge: bool,
    ) -> (r: Path)
        ensures
            r == (Path { start, end, start_control, end_control, is_bridge }),
    {
        Path { start, end, start_control, end_control, is_bridge }
    }

    /// The start coordinate in hexagon-space.
    pub fn start(&self) -> (r: Result<HexVec, DefError>)
        ensures
            match r {
                Ok(v) => spec_as_vector(self.start) == Some(v),
                Err(_) => spec_as_vector(self.start) is None,
            },
    {
        self.start.as_vector()
    }

    /// The end coordinate in hexagon-space.
    pub fn end(&self) -> (r: Result<HexVec, DefError>)
        ensures
            match r {
                Ok(v) => spec_as_vector(self.end) == Some(v),
                Err(_) => spec_as_vector(self.end) is None,
            },
    {
        self.end.as_vector()
    }

    /// Whether the segment bridges over other track.
    pub fn is_bridge(&self) -> (r: bool)
        ensures
            r == self.is_bridge,
    {
        self.is_bridge
    }

    /// Whether the segment takes the gentle-curve radius rather than the
    /// sharp unit radius.
    pub fn is_gentle(&self) -> (r: bool)
        ensures
            r == spec_is_gentle(self.start, self.end),
    {
        match (&self.start, &self.end) {
            (Coordinate::Named(a), Coordinate::Named(b)) => {
                let an = a.as_str().unicode_len();
                let bn = b.as_str().unicode_len();
                if an == 2 && bn == 2 {
                    a.as_str().get_char(0) == b.as_str().get_char(0)
                } else if (an == 2 && bn == 1) || (an == 1 && bn == 2) {
                    a.as_str().get_char(0) != b.as_str().get_char(0)
                } else {
                    false
                }
            },
            _ => false,
        }
    }
}

impl Clone for Path {
    fn clone(&self) -> (r: Path)
        ensures
            r == *self,
    {
        Path {
            start: self.start.clone(),
            end: self.end.clone(),
            start_control: clone_opt_coordinate(&self.start_control),
            end_control: clone_opt_coordinate(&self.end_control),
            is_bridge: self.is_bridge,
        }
    }
}

fn clone_opt_coordinate(c: &Option<Coordinate>) -> (r: Option<Coordinate>)
    ensures
        r == *c,
{
    match c {
        Some(v) => Some(v.clone()),
        None => None,
    }
}

fn clone_opt_string(s: &Option<String>) -> (r: Option<String>)
    ensures
        r == *s,
{
    match s {
        Some(v) => Some(v.clone()),
        None => None,
    }
}

/// A collection of circles where tokens can be put down.  The number of
/// circles is the station's capacity; a valid city has one to four.
#[derive(Debug)]
pub struct City {
    pub circles: u32,
    pub text_id: String,
    pub revenue_position: Coordinate,
    pub position: Coordinate,
}

impl City {
    /// A valid capacity: one to four circles.
    pub open spec fn wf(&self) -> bool {
        1 <= self.circles <= 4
    }

    /// Builds a city; a circle count outside one to four is a fatal
    /// definition error.
    pub fn new(circles: u32, text_id: String, revenue_position: Coordinate, position: Coordinate)
        -> (r: Result<City, DefError>)
        ensures
            match r {
                Ok(c) => 1 <= circles <= 4 && c == (City {
                    circles,
                    text_id,
                    revenue_position,
                    position,
                }),
                Err(e) => !(1 <= circles <= 4) && (e matches DefError::InvalidCircleCount(n) && n
                    == circles),
            },
    {
        if 1 <= circles && circles <= 4 {
            Ok(City { circles, text_id, revenue_position, position })
        } else {
            Err(DefError::InvalidCircleCount(circles))
        }
    }

    /// The coordinate of the city in hexagon-space.
    pub fn position(&self) -> (r: Result<HexVec, DefError>)
        ensures
            match r {
                Ok(v) => spec_as_vector(self.position) == Some(v),
                Err(_) => spec_as_vector(self.position) is None,
            },
    {
        self.position.as_vector()
    }

    /// The coordinate of the revenue badge in hexagon-space.
    pub fn revenue_position(&self) -> (r: Result<HexVec, DefError>)
        ensures
            match r {
                Ok(v) => spec_as_vector(self.revenue_position) == Some(v),
                Err(_) => spec_as_vector(self.revenue_position) is None,
            },
    {
        self.revenue_position.as_vector()
    }
}

impl Clone for City {
    fn clone(&self) -> (r: City)
        ensures
            r == *self,
    {
        City {
            circles: self.circles,
            text_id: self.text_id.clone(),
            revenue_position: self.revenue_position.clone(),
            position: self.position.clone(),
        }
    }
}

/// A single revenue marker on the tile.
#[derive(Debug)]
pub struct Stop {
    pub position: Coordinate,
    pub text_id: String,
    pub revenue_angle: i32,
}

impl Stop {
    pub fn new(position: Coordinate, text_id: String, revenue_angle: i32) -> (r: Stop)
        ensures
            r == (Stop { position, text_id, revenue_angle }),
    {
        Stop { position, text_id, revenue_angle }
    }

    /// The coordinate of the stop in hexagon-space.
    pub fn position(&self) -> (r: Result<HexVec, DefError>)
        ensures
            match r {
                Ok(v) => spec_as_vector(self.position) == Some(v),
                Err(_) => spec_as_vector(self.position) is None,
            },
    {
        self.position.as_vector()
    }
}

impl Clone for Stop {
    fn clone(&self) -> (r: Stop)
        ensures
            r == *self,
    {
        Stop {
            position: self.position.clone(),
            text_id: self.text_id.clone(),
            revenue_angle: self.revenue_angle,
        }
    }
}

/// Text anchor position for text on a tile.
#[derive(Clone, Copy, Debug, PartialEq, Eq, Structural)]
pub enum TextAnchor {
    Start,
    Middle,
    End,
}

/// A piece of text on the tile: which label it shows, where it sits and how
/// it is anchored.
#[derive(Debug)]
pub struct Text {
    pub id: String,
    pub position: Coordinate,
    pub size: Option<String>,
    pub weight: Option<u32>,
    pub anchor: TextAnchor,
}

impl Text {
    pub fn new(
        id: String,
        position: Coordinate,
        size: Option<String>,
        weight: Option<u32>,
        anchor: TextAnchor,
    ) -> (r: Text)
        ensures
            r == (Text { id, position, size, weight, anchor }),
    {
        Text { id, position, size, weight, anchor }
    }

    /// The coordinate of the text in hexagon-space.
    pub fn position(&self) -> (r: Result<HexVec, DefError>)
        ensures
            match r {
                Ok(v) => spec_as_vector(self.position) == Some(v),
                Err(_) => spec_as_vector(self.position) is None,
            },
    {
        self.position.as_vector()
    }

    /// The size of the text, if one was given.
    pub fn size(&self) -> (r: Option<&str>)
        ensures
            match r {
                Some(s) => self.size matches Some(t) && s@ == t@,
                None => self.size is None,
            },
    {
        match &self.size {
            None => None,
            Some(s) => Some(s.as_str()),
        }
    }
}

impl Clone for Text {
    fn clone(&self) -> (r: Text)
        ensures
            r == *self,
    {
        Text {
            id: self.id.clone(),
            position: self.position.clone(),
            size: clone_opt_string(&self.size),
            weight: self.weight,
            anchor: self.anchor,
        }
    }
}

/// A small table showing the tile's revenue in different phases.
#[derive(Debug)]
pub struct RevenueTrack {
    pub position: Coordinate,
    pub yellow: String,
    pub green: Option<String>,
    pub russet: Option<String>,
    pub grey: Option<String>,
}

impl RevenueTrack {
    pub fn new(
        position: Coordinate,
        yellow: String,
        green: Option<String>,
        russet: Option<String>,
        grey: Option<String>,
    ) -> (r: RevenueTrack)
        ensures
            r == (RevenueTrack { position, yellow, green, russet, grey }),
    {
        RevenueTrack { position, yellow, green, russet, grey }
    }

    /// The coordinate of the track in hexagon-space.
    pub fn position(&self) -> (r: Result<HexVec, DefError>)
        ensures
            match r {
                Ok(v) => spec_as_vector(self.position) == Some(v),
                Err(_) => spec_as_vector(self.position) is None,
            },
    {
        self.position.as_vector()
    }
}

impl Clone for RevenueTrack {
    fn clone(&self) -> (r: RevenueTrack)
        ensures
            r == *self,
    {
        RevenueTrack {
            position: self.position.clone(),
            yellow: self.yellow.clone(),
            green: clone_opt_string(&self.green),
            russet: clone_opt_string(&self.russet),
            grey: clone_opt_string(&self.grey),
        }
    }
}

/// Types of terrain that can be present.
#[derive(Clone, Copy, Debug, PartialEq, Eq, Structural)]
pub enum TerrainType {
    Rough,
    Hill,
    Mountain,
    River,
    Marsh,
}

/// A terrain marker with its crossing cost.
#[derive(Debug)]
pub struct Terrain {
    pub position: Coordinate,
    pub terrain_type: TerrainType,
    pub cost: String,
}

impl Terrain {
    pub fn new(position: Coordinate, terrain_type: TerrainType, cost: String) -> (r: Terrain)
        ensures
            r == (Terrain { position, terrain_type, cost }),
    {
        Terrain { position, terrain_type, cost }
    }

    /// The coordinate of the terrain marker in hexagon-space.
    pub fn position(&self) -> (r: Result<HexVec, DefError>)
        ensures
            match r {
                Ok(v) => spec_as_vector(self.position) == Some(v),
                Err(_) => spec_as_vector(self.position) is None,
            },
    {
        self.position.as_vector()
    }
}

impl Clone for Terrain {
    fn clone(&self) -> (r: Terrain)
        ensures
            r == *self,
    {
        Terrain {
            position: self.position.clone(),
            terrain_type: self.terrain_type,
            cost: self.cost.clone(),
        }
    }
}

} // verus!
