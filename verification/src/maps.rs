//! The static map: base tile placements and edge blockers.

use vstd::prelude::*;
use crate::board::{Location, Orientation};
use crate::colors::{Color, name_to_color, spec_name_to_color};
use crate::coord::{DefError, HexVec, direction_to_angle, spec_direction_to_angle};
use crate::defs::{TileDefinition, find_def, lookup_def, spec_def_eq, text_get, text_lookup};
use crate::tiles::{City, Coordinate, Path, RevenueTrack, Stop, Terrain, Text};

verus! {

/// A base tile placed on the static map, bound to the definition whose name
/// it carries.
#[derive(Debug)]
pub struct MapTile {
    pub location: Location,
    pub tile: String,
    pub color: Option<String>,
    pub orientation: Option<String>,
    pub text: Vec<(String, String)>,
    pub arrows: Vec<Coordinate>,
    pub revenue: Option<RevenueTrack>,
    pub terrain: Option<Terrain>,
    pub definition: Option<TileDefinition>,
}

impl MapTile {
    /// The name of the default base tile: an empty hex.
    pub fn default_tile() -> (r: String)
        ensures
            r@ == "plain"@,
    {
        String::from_str("plain")
    }

    /// Binds the placement to its definition; must happen before any shape
    /// accessor is used.
    pub fn set_definition(&mut self, definition: &TileDefinition)
        ensures
            final(self).definition matches Some(d) && spec_def_eq(d, *definition),
            final(self).location == old(self).location,
            final(self).tile == old(self).tile,
            final(self).color == old(self).color,
            final(self).orientation == old(self).orientation,
            final(self).text == old(self).text,
            final(self).arrows == old(self).arrows,
            final(self).revenue == old(self).revenue,
            final(self).terrain == old(self).terrain,
    {
        self.definition = Some(definition.clone());
    }

    /// The fill color: the configured one, or the ground color.
    pub fn color(&self) -> (r: Color)
        ensures
            match self.color {
                None => r.value@ == "#FDD9B5"@,
                Some(c) => r.value@ == spec_name_to_color(c@),
            },
    {
        match &self.color {
            None => Color::ground(),
            Some(c) => name_to_color(c),
        }
    }

    /// The rotation of the placement in degrees: the configured compass
    /// direction, or none.  An unrecognized direction is a fatal definition
    /// error.
    pub fn orientation(&self) -> (r: Result<i32, DefError>)
        ensures
            match self.orientation {
                None => r == Ok::<i32, DefError>(0i32),
                Some(o) => match r {
                    Ok(a) => spec_direction_to_angle(o@) == Some(a),
                    Err(_) => spec_direction_to_angle(o@) is None,
                },
            },
    {
        match &self.orientation {
            None => Ok(0),
            Some(o) => direction_to_angle(o.as_str()),
        }
    }

    /// The text bound to a text id; an unbound id shows nothing.
    pub fn get_text<'a>(&'a self, id: &str) -> (r: &'a str)
        ensures
            match text_lookup(self.text@, id@) {
                Some(v) => r@ == v,
                None => r@ == Seq::<char>::empty(),
            },
    {
        match text_get(&self.text, id) {
            Some(v) => v.as_str(),
            None => {
                let empty = "";
                proof {
                    reveal_strlit("");
                    assert(empty@ =~= Seq::<char>::empty());
                }
                empty
            },
        }
    }

    /// The track segments of the bound definition.
    pub fn paths(&self) -> (r: &Vec<Path>)
        requires
            self.definition is Some,
        ensures
            *r == self.definition->0.paths,
    {
        match &self.definition {
            Some(d) => d.paths(),
            None => unreached(),
        }
    }

    /// The cities of the bound definition.
    pub fn cities(&self) -> (r: &Vec<City>)
        requires
            self.definition is Some,
        ensures
            *r == self.definition->0.cities,
    {
        match &self.definition {
            Some(d) => d.cities(),
            None => unreached(),
        }
    }

    /// The stops of the bound definition.
    pub fn stops(&self) -> (r: &Vec<Stop>)
        requires
            self.definition is Some,
        ensures
            *r == self.definition->0.stops,
    {
        match &self.definition {
            Some(d) => d.stops(),
            None => unreached(),
        }
    }

    /// Whether the bound definition is drawn as lawson track.
    pub fn is_lawson(&self) -> (r: bool)
        requires
            self.definition is Some,
        ensures
            r == self.definition->0.is_lawson,
    {
        match &self.definition {
            Some(d) => d.is_lawson(),
            None => unreached(),
        }
    }

    /// The hex-space position of a text entry of the bound definition.
    pub fn text_position(&self, id: usize) -> (r: Option<HexVec>)
        requires
            self.definition is Some,
        ensures
            match r {
                Some(v) => id < self.definition->0.text@.len() && crate::tiles::spec_as_vector(
                    self.definition->0.text@[id as int].position,
                ) == Some(v),
                None => id >= self.definition->0.text@.len() || crate::tiles::spec_as_vector(
                    self.definition->0.text@[id as int].position,
                ) is None,
            },
    {
        match &self.definition {
            Some(d) => d.text_position(id),
            None => unreached(),
        }
    }

    /// The text entries of the bound definition, tile number first.
    pub fn text_spec(&self) -> (r: Vec<Text>)
        requires
            self.definition is Some,
        ensures
            r@.len() == self.definition->0.text@.len() + 1,
            r@[0].id@ == "number"@,
            forall|i: int|
                0 <= i < self.definition->0.text@.len() ==> r@[i + 1] == self.definition->0.text@[i],
    {
        match &self.definition {
            Some(d) => d.text_spec(),
            None => unreached(),
        }
    }

    /// The arrows on the edge of the placement.
    pub fn arrows(&self) -> (r: &Vec<Coordinate>)
        ensures
            *r == self.arrows,
    {
        &self.arrows
    }

    /// The revenue track of the placement, if any.
    pub fn revenue_track(&self) -> (r: &Option<RevenueTrack>)
        ensures
            *r == self.revenue,
    {
        &self.revenue
    }

    /// The terrain marker of the placement, if any.
    pub fn terrain(&self) -> (r: &Option<Terrain>)
        ensures
            *r == self.terrain,
    {
        &self.terrain
    }
}

/// An edge blocker: a river or border on one side of a hex.
#[derive(Debug)]
pub struct Barrier {
    pub location: Location,
    pub side: String,
}

/// The static map: its orientation, its size in hexes, the base tile
/// placements and the barriers.
#[derive(Debug)]
pub struct GameMap {
    pub orientation: Orientation,
    pub width: u32,
    pub height: u32,
    pub raw_tiles: Vec<MapTile>,
    pub barriers: Vec<Barrier>,
}

impl Default for GameMap {
    /// An empty five-by-five horizontal map.
    fn default() -> (r: GameMap)
        ensures
            r.orientation == Orientation::Horizontal,
            r.width == 5u32,
            r.height == 5u32,
            r.raw_tiles@ == Seq::<MapTile>::empty(),
            r.barriers@ == Seq::<Barrier>::empty(),
    {
        GameMap {
            orientation: Orientation::Horizontal,
            width: 5,
            height: 5,
            raw_tiles: Vec::new(),
            barriers: Vec::new(),
        }
    }
}


/// The same placement apart from its definition binding.
pub open spec fn same_placement(a: MapTile, b: MapTile) -> bool {
    &&& a.location == b.location
    &&& a.tile == b.tile
    &&& a.color == b.color
    &&& a.orientation == b.orientation
    &&& a.text@ == b.text@
    &&& a.arrows@ == b.arrows@
    &&& a.revenue == b.revenue
    &&& a.terrain == b.terrain
}

impl GameMap {
    /// Binds every base placement to the catalog definition its name picks;
    /// a placement naming no known definition is fatal.  This must run once,
    /// at load time, before any shape accessor is used.
    pub fn connect(&mut self, defs: &Vec<(String, TileDefinition)>) -> (r: Result<(), DefError>)
        ensures
            final(self).orientation == old(self).orientation,
            final(self).width == old(self).width,
            final(self).height == old(self).height,
            final(self).barriers == old(self).barriers,
            final(self).raw_tiles@.len() == old(self).raw_tiles@.len(),
            forall|i: int|
                0 <= i < old(self).raw_tiles@.len() ==> same_placement(
                    #[trigger] final(self).raw_tiles@[i],
                    old(self).raw_tiles@[i],
                ),
            r matches Ok(_) ==> forall|i: int|
                0 <= i < old(self).raw_tiles@.len() ==> {
                    &&& find_def(defs@, old(self).raw_tiles@[i].tile@) matches Some(j)
                    &&& (#[trigger] final(self).raw_tiles@[i]).definition matches Some(d)
                        && spec_def_eq(d, defs@[j].1)
                },
            r matches Err(e) ==> {
                &&& e matches DefError::UnknownDefinition(n)
                &&& exists|i: int|
                    0 <= i < old(self).raw_tiles@.len() && find_def(
                        defs@,
                        (#[trigger] old(self).raw_tiles@[i]).tile@,
                    ) is None && n@ == old(self).raw_tiles@[i].tile@
            },
    {
        let n = self.raw_tiles.len();
        let mut i: usize = 0;
        while i < n
            invariant
                i <= n,
                n == self.raw_tiles@.len(),
                n == old(self).raw_tiles@.len(),
                self.orientation == old(self).orientation,
                self.width == old(self).width,
                self.height == old(self).height,
                self.barriers == old(self).barriers,
                forall|j: int|
                    0 <= j < n ==> same_placement(
                        #[trigger] self.raw_tiles@[j],
                        old(self).raw_tiles@[j],
                    ),
                forall|j: int|
                    0 <= j < i ==> {
                        &&& find_def(defs@, old(self).raw_tiles@[j].tile@) matches Some(k)
                        &&& (#[trigger] self.raw_tiles@[j]).definition matches Some(d)
                            && spec_def_eq(d, defs@[k].1)
                    },
                forall|j: int|
                    i <= j < n ==> (#[trigger] self.raw_tiles@[j]) == old(self).raw_tiles@[j],
            decreases n - i,
        {
            let name = self.raw_tiles[i].tile.clone();
            match lookup_def(defs, name.as_str()) {
                Some(def) => {
                    self.raw_tiles[i].set_definition(def);
                },
                None => {
                    return Err(DefError::UnknownDefinition(name));
                },
            }
            i += 1;
        }
        Ok(())
    }
}

} // verus!
