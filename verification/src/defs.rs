//! Tile definitions and manifest tiles.
//!
//! A `TileDefinition` is an immutable catalog entry holding the physical
//! layout of a tile type.  A `Tile` is a manifest entry: a colored overlay of
//! a base definition, named by its tile number.  Both are bound to their
//! definition once, at load time; the shape accessors demand that binding.

use vstd::prelude::*;
use crate::colors::{Color, name_to_color, spec_name_to_color};
use crate::coord::{DefError, HexVec};
use crate::table::str_eq;
use crate::tiles::{City, Coordinate, Path, RevenueTrack, Stop, Text, TextAnchor};

verus! {

/// The first value bound to a text id, if any.
pub open spec fn text_lookup(s: Seq<(String, String)>, k: Seq<char>) -> Option<Seq<char>>
    decreases s.len(),
{
    if s.len() == 0 {
        None
    } else if s[0].0@ == k {
        Some(s[0].1@)
    } else {
        text_lookup(s.skip(1), k)
    }
}

pub proof fn lemma_text_lookup_found(s: Seq<(String, String)>, k: Seq<char>, i: int)
    requires
        0 <= i < s.len(),
        s[i].0@ == k,
        forall|j: int| 0 <= j < i ==> (#[trigger] s[j]).0@ != k,
    ensures
        text_lookup(s, k) == Some(s[i].1@),
    decreases s.len(),
{
    if i > 0 {
        assert(forall|j: int| 0 <= j < i - 1 ==> (#[trigger] s.skip(1)[j]).0@ != k);
        lemma_text_lookup_found(s.skip(1), k, i - 1);
    }
}

pub proof fn lemma_text_lookup_absent(s: Seq<(String, String)>, k: Seq<char>)
    requires
        forall|j: int| 0 <= j < s.len() ==> (#[trigger] s[j]).0@ != k,
    ensures
        text_lookup(s, k) is None,
    decreases s.len(),
{
    if s.len() > 0 {
        assert(forall|j: int| 0 <= j < s.len() - 1 ==> (#[trigger] s.skip(1)[j]).0@ != k);
        lemma_text_lookup_absent(s.skip(1), k);
    }
}

/// Finds the first value bound to a text id in a text table.
pub fn text_get<'a>(s: &'a Vec<(String, String)>, k: &str) -> (r: Option<&'a String>)
    ensures
        match r {
            Some(v) => text_lookup(s@, k@) == Some(v@),
            None => text_lookup(s@, k@) is None,
        },
{
    let n = s.len();
    let mut i: usize = 0;
    loop
        invariant
            i <= n,
            n == s@.len(),
            forall|j: int| 0 <= j < i ==> (#[trigger] s@[j]).0@ != k@,
        ensures
            i <= n,
            forall|j: int| 0 <= j < i ==> (#[trigger] s@[j]).0@ != k@,
            i < n ==> s@[i as int].0@ == k@,
        decreases n - i,
    {
        if i == n {
            break ;
        }
        if str_eq(s[i].0.as_str(), k) {
            break ;
        }
        i += 1;
    }
    if i < n {
        proof {
            lemma_text_lookup_found(s@, k@, i as int);
        }
        Some(&s[i].1)
    } else {
        proof {
            lemma_text_lookup_absent(s@, k@);
        }
        None
    }
}

/// Definition of a tile's layout; holds no color and no amount.
#[derive(Debug)]
pub struct TileDefinition {
    pub name: String,
    pub paths: Vec<Path>,
    pub cities: Vec<City>,
    pub stops: Vec<Stop>,
    pub is_lawson: bool,
    pub text: Vec<Text>,
    pub code_position: Option<Coordinate>,
    pub code_text_id: Option<String>,
}

impl Default for TileDefinition {
    /// An empty definition under the placeholder name.
    fn default() -> (r: TileDefinition)
        ensures
            r.name@ == "NoName"@,
            r.paths@ == Seq::<Path>::empty(),
            r.cities@ == Seq::<City>::empty(),
            r.stops@ == Seq::<Stop>::empty(),
            !r.is_lawson,
            r.text@ == Seq::<Text>::empty(),
            r.code_position is None,
            r.code_text_id is None,
    {
        TileDefinition {
            name: String::from_str("NoName"),
            paths: Vec::new(),
            cities: Vec::new(),
            stops: Vec::new(),
            is_lawson: false,
            text: Vec::new(),
            code_position: None,
            code_text_id: None,
        }
    }
}

impl TileDefinition {
    /// Every city has a valid circle count and the secondary code label is
    /// either whole or absent.
    pub open spec fn valid(&self) -> bool {
        &&& (forall|i: int| 0 <= i < self.cities@.len() ==> (#[trigger] self.cities@[i]).wf())
        &&& (self.code_position is Some <==> self.code_text_id is Some)
    }

    /// Checks the definition: the secondary code label must be whole or
    /// absent, and every city must have a valid circle count.  A failure is
    /// fatal and must be surfaced before the definition is rendered.
    pub fn validate(&self) -> (r: Result<(), DefError>)
        ensures
            r is Ok <==> self.valid(),
            r matches Err(e) ==> !self.valid() && (e matches DefError::CodeLabelHalfMissing ==> !(
            self.code_position is Some <==> self.code_text_id is Some)) && (e matches
                DefError::InvalidCircleCount(n) ==> exists|i: int|
                0 <= i < self.cities@.len() && !(#[trigger] self.cities@[i]).wf()
                    && self.cities@[i].circles == n),
    {
        let pos_some = self.code_position.is_some();
        let text_some = self.code_text_id.is_some();
        if pos_some != text_some {
            return Err(DefError::CodeLabelHalfMissing);
        }
        let n = self.cities.len();
        let mut i: usize = 0;
        loop
            invariant
                i <= n,
                n == self.cities@.len(),
                forall|j: int| 0 <= j < i ==> (#[trigger] self.cities@[j]).wf(),
            ensures
                i <= n,
                forall|j: int| 0 <= j < i ==> (#[trigger] self.cities@[j]).wf(),
                i < n ==> !self.cities@[i as int].wf(),
            decreases n - i,
        {
            if i == n {
                break ;
            }
            let c = self.cities[i].circles;
            if !(1 <= c && c <= 4) {
                break ;
            }
            i += 1;
        }
        if i < n {
            Err(DefError::InvalidCircleCount(self.cities[i].circles))
        } else {
            Ok(())
        }
    }

    /// The tile number.
    pub fn name(&self) -> (r: &str)
        ensures
            r@ == self.name@,
    {
        self.name.as_str()
    }

    pub fn set_name(&mut self, name: String)
        ensures
            final(self).name == name,
            final(self).paths == old(self).paths,
            final(self).cities == old(self).cities,
            final(self).stops == old(self).stops,
            final(self).is_lawson == old(self).is_lawson,
            final(self).text == old(self).text,
            final(self).code_position == old(self).code_position,
            final(self).code_text_id == old(self).code_text_id,
    {
        self.name = name;
    }

    /// The track segments on the tile.
    pub fn paths(&self) -> (r: &Vec<Path>)
        ensures
            *r == self.paths,
    {
        &self.paths
    }

    /// The city revenue locations on the tile.
    pub fn cities(&self) -> (r: &Vec<City>)
        ensures
            *r == self.cities,
    {
        &self.cities
    }

    /// The stop revenue locations on the tile.
    pub fn stops(&self) -> (r: &Vec<Stop>)
        ensures
            *r == self.stops,
    {
        &self.stops
    }

    /// Whether the tile is drawn as lawson track: segments meet at dead
    /// center and need a connecting dot.
    pub fn is_lawson(&self) -> (r: bool)
        ensures
            r == self.is_lawson,
    {
        self.is_lawson
    }

    /// The text a text id shows on a bare definition: the number id shows the
    /// tile number; any other id echoes itself.
    pub fn get_text<'a>(&'a self, id: &'a str) -> (r: &'a str)
        ensures
            id@ == "number"@ ==> r@ == self.name@,
            id@ != "number"@ ==> r@ == id@,
    {
        if str_eq(id, "number") {
            self.name.as_str()
        } else {
            id
        }
    }

    /// The hex-space position of an author-specified text entry, if the index
    /// names one and its coordinate is valid.
    pub fn text_position(&self, id: usize) -> (r: Option<HexVec>)
        ensures
            match r {
                Some(v) => id < self.text@.len() && crate::tiles::spec_as_vector(
                    self.text@[id as int].position,
                ) == Some(v),
                None => id >= self.text@.len() || crate::tiles::spec_as_vector(
                    self.text@[id as int].position,
                ) is None,
            },
    {
        if id < self.text.len() {
            match self.text[id].position() {
                Ok(v) => Some(v),
                Err(_) => None,
            }
        } else {
            None
        }
    }

    /// The text entries to draw: a synthesized tile-number entry at a fixed
    /// hex-space point near the south-east edge, then the author's entries.
    pub fn text_spec(&self) -> (r: Vec<Text>)
        ensures
            r@.len() == self.text@.len() + 1,
            r@[0].id@ == "number"@,
            r@[0].position == Coordinate::HexSpace(HexVec { x: 0, y: 900, z: -900i32 }),
            r@[0].size is None,
            r@[0].weight is None,
            r@[0].anchor == TextAnchor::End,
            forall|i: int| 0 <= i < self.text@.len() ==> r@[i + 1] == self.text@[i],
    {
        let number_text = Text {
            id: String::from_str("number"),
            position: Coordinate::HexSpace(HexVec { x: 0, y: 900, z: -900 }),
            size: None,
            weight: None,
            anchor: TextAnchor::End,
        };
        let mut r: Vec<Text> = Vec::new();
        r.push(number_text);
        let n = self.text.len();
        let mut i: usize = 0;
        while i < n
            invariant
                i <= n,
                n == self.text@.len(),
                r@.len() == i + 1,
                r@[0].id@ == "number"@,
                r@[0].position == Coordinate::HexSpace(HexVec { x: 0, y: 900, z: -900i32 }),
                r@[0].size is None,
                r@[0].weight is None,
                r@[0].anchor == TextAnchor::End,
                forall|j: int| 0 <= j < i ==> r@[j + 1] == self.text@[j],
            decreases n - i,
        {
            r.push(self.text[i].clone());
            i += 1;
        }
        r
    }

    /// The position of the secondary code label, if one is configured.
    pub fn code_position(&self) -> (r: Option<&Coordinate>)
        ensures
            match r {
                Some(c) => self.code_position matches Some(p) && *c == p,
                None => self.code_position is None,
            },
    {
        match &self.code_position {
            Some(c) => Some(c),
            None => None,
        }
    }

    /// The text id of the secondary code label, if one is configured.
    pub fn code_text_id(&self) -> (r: Option<&String>)
        ensures
            match r {
                Some(c) => self.code_text_id matches Some(p) && *c == p,
                None => self.code_text_id is None,
            },
    {
        match &self.code_text_id {
            Some(c) => Some(c),
            None => None,
        }
    }
}

/// Two definitions with the same content: equal fields, with the vectors
/// compared element by element.
pub open spec fn spec_def_eq(a: TileDefinition, b: TileDefinition) -> bool {
    &&& a.name == b.name
    &&& a.paths@ == b.paths@
    &&& a.cities@ == b.cities@
    &&& a.stops@ == b.stops@
    &&& a.is_lawson == b.is_lawson
    &&& a.text@ == b.text@
    &&& a.code_position == b.code_position
    &&& a.code_text_id == b.code_text_id
}

impl Clone for TileDefinition {
    fn clone(&self) -> (r: TileDefinition)
        ensures
            spec_def_eq(r, *self),
    {
        let r = TileDefinition {
            name: self.name.clone(),
            paths: self.paths.clone(),
            cities: self.cities.clone(),
            stops: self.stops.clone(),
            is_lawson: self.is_lawson,
            text: self.text.clone(),
            code_position: match &self.code_position {
                Some(c) => Some(c.clone()),
                None => None,
            },
            code_text_id: match &self.code_text_id {
                Some(c) => Some(c.clone()),
                None => None,
            },
        };
        proof {
            assert forall|i: int| 0 <= i < self.paths@.len() implies r.paths@[i]
                == self.paths@[i] by {
                assert(vstd::pervasive::cloned::<Path>(self.paths@[i], r.paths@[i]));
            }
            assert(r.paths@ =~= self.paths@);
            assert forall|i: int| 0 <= i < self.cities@.len() implies r.cities@[i]
                == self.cities@[i] by {
                assert(vstd::pervasive::cloned::<City>(self.cities@[i], r.cities@[i]));
            }
            assert(r.cities@ =~= self.cities@);
            assert forall|i: int| 0 <= i < self.stops@.len() implies r.stops@[i]
                == self.stops@[i] by {
                assert(vstd::pervasive::cloned::<Stop>(self.stops@[i], r.stops@[i]));
            }
            assert(r.stops@ =~= self.stops@);
            assert forall|i: int| 0 <= i < self.text@.len() implies r.text@[i]
                == self.text@[i] by {
                assert(vstd::pervasive::cloned::<Text>(self.text@[i], r.text@[i]));
            }
            assert(r.text@ =~= self.text@);
        }
        r
    }
}

/// A manifest tile: a base definition shown in a color, named by the tile
/// number in its text table.
#[derive(Debug)]
pub struct Tile {
    pub base_tile: String,
    pub color: String,
    pub text: Vec<(String, String)>,
    pub definition: Option<TileDefinition>,
}

impl Default for Tile {
    fn default() -> (r: Tile)
        ensures
            r.base_tile@ == Seq::<char>::empty(),
            r.color@ == Seq::<char>::empty(),
            r.text@ == Seq::<(String, String)>::empty(),
            r.definition is None,
    {
        Tile { base_tile: String::new(), color: String::new(), text: Vec::new(), definition: None }
    }
}

/// Two manifest tiles with the same content.
pub open spec fn spec_tile_eq(a: Tile, b: Tile) -> bool {
    &&& a.base_tile == b.base_tile
    &&& a.color == b.color
    &&& a.text@ == b.text@
    &&& match (a.definition, b.definition) {
        (Some(da), Some(db)) => spec_def_eq(da, db),
        (None, None) => true,
        _ => false,
    }
}

/// The name of a manifest tile: the value its text table binds to the number
/// id.
pub open spec fn spec_tile_name(t: Tile) -> Seq<char>
    recommends
        t.has_number(),
{
    text_lookup(t.text@, "number"@)->0
}

impl Tile {
    /// The tile carries its number.
    pub open spec fn has_number(&self) -> bool {
        text_lookup(self.text@, "number"@) is Some
    }

    /// Binds the tile to its definition; must happen before any shape
    /// accessor is used.
    pub fn set_definition(&mut self, definition: &TileDefinition)
        ensures
            final(self).definition matches Some(d) && spec_def_eq(d, *definition),
            final(self).base_tile == old(self).base_tile,
            final(self).color == old(self).color,
            final(self).text == old(self).text,
    {
        self.definition = Some(definition.clone());
    }

    /// The name of the base definition this tile overlays.
    pub fn base_tile(&self) -> (r: String)
        ensures
            r == self.base_tile,
    {
        self.base_tile.clone()
    }

    /// The number of the tile.
    pub fn name(&self) -> (r: &str)
        requires
            self.has_number(),
        ensures
            r@ == spec_tile_name(*self),
    {
        match text_get(&self.text, "number") {
            Some(v) => v.as_str(),
            None => unreached(),
        }
    }

    /// Names the tile by binding the number id in its text table.
    pub fn set_name(&mut self, name: String)
        ensures
            final(self).has_number(),
            spec_tile_name(*final(self)) == name@,
            forall|k: Seq<char>|
                k != "number"@ ==> #[trigger] text_lookup(final(self).text@, k) == text_lookup(
                    old(self).text@,
                    k,
                ),
            final(self).base_tile == old(self).base_tile,
            final(self).color == old(self).color,
            final(self).definition == old(self).definition,
    {
        self.text.insert(0, (String::from_str("number"), name));
        proof {
            assert(self.text@.skip(1) =~= old(self).text@);
        }
    }

    /// The fill color of the tile.
    pub fn color(&self) -> (r: Color)
        ensures
            r.value@ == spec_name_to_color(self.color@),
    {
        name_to_color(&self.color)
    }

    /// The text bound to a text id; an unbound id shows nothing.
    pub fn get_text<'a>(&'a self, id: &str) -> (r: &'a str)
        ensures
            match text_lookup(self.text@, id@) {
                Some(v) => r@ == v,
                None => r@ == Seq::<char>::empty(),
            },
    {
        match text_get(&self.text, id) {
            Some(v) => v.as_str(),
            None => {
                let empty = "";
                proof {
                    reveal_strlit("");
                    assert(empty@ =~= Seq::<char>::empty());
                }
                empty
            },
        }
    }

    /// The track segments of the bound definition.
    pub fn paths(&self) -> (r: &Vec<Path>)
        requires
            self.definition is Some,
        ensures
            *r == self.definition->0.paths,
    {
        match &self.definition {
            Some(d) => d.paths(),
            None => unreached(),
        }
    }

    /// The cities of the bound definition.
    pub fn cities(&self) -> (r: &Vec<City>)
        requires
            self.definition is Some,
        ensures
            *r == self.definition->0.cities,
    {
        match &self.definition {
            Some(d) => d.cities(),
            None => unreached(),
        }
    }

    /// The stops of the bound definition.
    pub fn stops(&self) -> (r: &Vec<Stop>)
        requires
            self.definition is Some,
        ensures
            *r == self.definition->0.stops,
    {
        match &self.definition {
            Some(d) => d.stops(),
            None => unreached(),
        }
    }

    /// Whether the bound definition is drawn as lawson track.
    pub fn is_lawson(&self) -> (r: bool)
        requires
            self.definition is Some,
        ensures
            r == self.definition->0.is_lawson,
    {
        match &self.definition {
            Some(d) => d.is_lawson(),
            None => unreached(),
        }
    }

    /// The hex-space position of a text entry of the bound definition.
    pub fn text_position(&self, id: usize) -> (r: Option<HexVec>)
        requires
            self.definition is Some,
        ensures
            match r {
                Some(v) => id < self.definition->0.text@.len() && crate::tiles::spec_as_vector(
                    self.definition->0.text@[id as int].position,
                ) == Some(v),
                None => id >= self.definition->0.text@.len() || crate::tiles::spec_as_vector(
                    self.definition->0.text@[id as int].position,
                ) is None,
            },
    {
        match &self.definition {
            Some(d) => d.text_position(id),
            None => unreached(),
        }
    }

    /// The text entries of the bound definition, tile number first.
    pub fn text_spec(&self) -> (r: Vec<Text>)
        requires
            self.definition is Some,
        ensures
            r@.len() == self.definition->0.text@.len() + 1,
            r@[0].id@ == "number"@,
            forall|i: int|
                0 <= i < self.definition->0.text@.len() ==> r@[i + 1] == self.definition->0.text@[i],
    {
        match &self.definition {
            Some(d) => d.text_spec(),
            None => unreached(),
        }
    }
}

impl Clone for Tile {
    fn clone(&self) -> (r: Tile)
        ensures
            spec_tile_eq(r, *self),
    {
        let r = Tile {
            base_tile: self.base_tile.clone(),
            color: self.color.clone(),
            text: clone_text_table(&self.text),
            definition: match &self.definition {
                Some(d) => Some(d.clone()),
                None => None,
            },
        };
        r
    }
}

/// Copies a text table entry by entry.
pub fn clone_text_table(s: &Vec<(String, String)>) -> (r: Vec<(String, String)>)
    ensures
        r@ == s@,
{
    let mut r: Vec<(String, String)> = Vec::new();
    let n = s.len();
    let mut i: usize = 0;
    while i < n
        invariant
            i <= n,
            n == s@.len(),
            r@ =~= s@.take(i as int),
        decreases n - i,
    {
        r.push((s[i].0.clone(), s[i].1.clone()));
        proof {
            assert(r@ =~= s@.take(i + 1));
        }
        i += 1;
    }
    proof {
        assert(r@ =~= s@);
    }
    r
}


/// The index of the first catalog entry under the name, if any.
pub open spec fn find_def(defs: Seq<(String, TileDefinition)>, name: Seq<char>) -> Option<int>
    decreases defs.len(),
{
    if defs.len() == 0 {
        None
    } else if defs[0].0@ == name {
        Some(0)
    } else {
        match find_def(defs.skip(1), name) {
            Some(i) => Some(i + 1),
            None => None,
        }
    }
}

pub proof fn lemma_find_def_found(defs: Seq<(String, TileDefinition)>, name: Seq<char>, i: int)
    requires
        0 <= i < defs.len(),
        defs[i].0@ == name,
        forall|j: int| 0 <= j < i ==> (#[trigger] defs[j]).0@ != name,
    ensures
        find_def(defs, name) == Some(i),
    decreases defs.len(),
{
    if i > 0 {
        assert(forall|j: int| 0 <= j < i - 1 ==> (#[trigger] defs.skip(1)[j]).0@ != name);
        lemma_find_def_found(defs.skip(1), name, i - 1);
    }
}

pub proof fn lemma_find_def_absent(defs: Seq<(String, TileDefinition)>, name: Seq<char>)
    requires
        forall|j: int| 0 <= j < defs.len() ==> (#[trigger] defs[j]).0@ != name,
    ensures
        find_def(defs, name) is None,
    decreases defs.len(),
{
    if defs.len() > 0 {
        assert(forall|j: int| 0 <= j < defs.len() - 1 ==> (#[trigger] defs.skip(1)[j]).0@ != name);
        lemma_find_def_absent(defs.skip(1), name);
    }
}

/// The first catalog entry under the name, if any.
pub fn lookup_def<'a>(defs: &'a Vec<(String, TileDefinition)>, name: &str) -> (r: Option<
    &'a TileDefinition,
>)
    ensures
        match r {
            Some(d) => find_def(defs@, name@) matches Some(i) && *d == defs@[i].1,
            None => find_def(defs@, name@) is None,
        },
{
    let n = defs.len();
    let mut i: usize = 0;
    loop
        invariant
            i <= n,
            n == defs@.len(),
            forall|j: int| 0 <= j < i ==> (#[trigger] defs@[j]).0@ != name@,
        ensures
            i <= n,
            forall|j: int| 0 <= j < i ==> (#[trigger] defs@[j]).0@ != name@,
            i < n ==> defs@[i as int].0@ == name@,
        decreases n - i,
    {
        if i == n {
            break ;
        }
        if str_eq(defs[i].0.as_str(), name) {
            break ;
        }
        i += 1;
    }
    if i < n {
        proof {
            lemma_find_def_found(defs@, name@, i as int);
        }
        Some(&defs[i].1)
    } else {
        proof {
            lemma_find_def_absent(defs@, name@);
        }
        None
    }
}


} // verus!
