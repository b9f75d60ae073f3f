//! Event-sourced board-state reconstruction.
//!
//! A game is a static map, a tile manifest, a companies table and an ordered
//! action log.  Replaying the log from the beginning derives the current
//! placed-tile state, the current token state and the remaining tile supply;
//! nothing is cached between passes, so every result is a pure function of
//! the inputs.

use vstd::prelude::*;
use crate::board::{Location, Orientation, resolve_location, spec_resolve};
use crate::coord::{direction_to_angle, spec_direction_to_angle};
use crate::coord::DefError;
use crate::defs::{Tile, find_def, lookup_def, spec_def_eq, spec_tile_name};
use crate::maps::{GameMap, MapTile};
use crate::table::{CoordMap, NameMap, str_eq};

verus! {

/// A fatal replay error: the log or the static inputs name something that
/// does not exist, so the current state cannot be derived.
#[derive(Debug)]
pub enum EngineError {
    /// A location label that does not resolve.
    InvalidLocation(Location),
    /// A laid tile name that no manifest tile carries.
    UnknownTile(String),
    /// A rotation code that names no compass direction.
    InvalidDirection(String),
    /// A token action for a company that the companies table does not hold.
    UnknownCompany(String),
    /// A token placed on a hex that holds no tile.
    NoTileAt(u32, u32),
    /// A token placed at a station index beyond the tile's cities.
    NoSuchStation(u32, u32, usize),
    /// A laid tile name with no manifest amount; supply totals would be
    /// silently wrong.
    MissingAmount(String),
    /// More copies of a tile on the board than the manifest grants.
    SupplyExhausted(String),
}

/// A non-fatal capacity violation: the placement was skipped and the replay
/// went on.
#[derive(Debug)]
pub struct CapacityWarning {
    pub company: String,
    pub location: (u32, u32),
    pub station: usize,
}

/// One entry of the game log.
#[derive(Debug)]
pub enum Action {
    /// Lays (or replaces) a tile at a location, rotated to a compass
    /// direction.
    TileLay { location: Location, tile: String, orientation: String },
    /// Places a token of a company at a location, optionally naming the
    /// station.
    Token { location: Location, company: String, city: Option<u32> },
    /// Removes every token of a company from the board.
    RemoveCompany { company: String },
}

impl Clone for Action {
    fn clone(&self) -> (r: Action)
        ensures
            r == *self,
    {
        match self {
            Action::TileLay { location, tile, orientation } => Action::TileLay {
                location: location.clone(),
                tile: tile.clone(),
                orientation: orientation.clone(),
            },
            Action::Token { location, company, city } => Action::Token {
                location: location.clone(),
                company: company.clone(),
                city: *city,
            },
            Action::RemoveCompany { company } => Action::RemoveCompany {
                company: company.clone(),
            },
        }
    }
}

/// The ordered action log of one game session, with the name of the ruleset
/// it belongs to.
#[derive(Debug)]
pub struct Log {
    pub game_name: String,
    pub log: Vec<Action>,
}

impl Log {
    /// An empty log under the default ruleset.
    pub fn new() -> (r: Log)
        ensures
            r.game_name@ == "1830"@,
            r.log@ == Seq::<Action>::empty(),
    {
        Log { game_name: String::from_str("1830"), log: Vec::new() }
    }

    /// An empty log for the named ruleset.
    pub fn new_game(game: String) -> (r: Log)
        ensures
            r.game_name == game,
            r.log@ == Seq::<Action>::empty(),
    {
        Log { game_name: game, log: Vec::new() }
    }
}

/// A company's home location, optionally naming the station on the tile.
#[derive(Debug)]
pub enum Home {
    PositionOnly(Location),
    PositionStation(Location, usize),
}

impl Clone for Home {
    fn clone(&self) -> (r: Home)
        ensures
            r == *self,
    {
        match self {
            Home::PositionOnly(l) => Home::PositionOnly(l.clone()),
            Home::PositionStation(l, s) => Home::PositionStation(l.clone(), *s),
        }
    }
}

/// A company: its name, its display color and its optional home.
#[derive(Debug)]
pub struct Company {
    pub name: String,
    pub color: String,
    pub home: Option<Home>,
}

impl Clone for Company {
    fn clone(&self) -> (r: Company)
        ensures
            r == *self,
    {
        Company {
            name: self.name.clone(),
            color: self.color.clone(),
            home: match &self.home {
                Some(h) => Some(h.clone()),
                None => None,
            },
        }
    }
}

/// A placed marker: which company owns it, where it stands, which station and
/// which circle within the station it occupies, and whether it is still an
/// unconverted home marker.
#[derive(Debug)]
pub struct Token {
    pub name: String,
    pub color: String,
    pub location: (u32, u32),
    pub station: usize,
    pub circle: u32,
    pub is_home: bool,
}

impl Clone for Token {
    fn clone(&self) -> (r: Token)
        ensures
            r == *self,
    {
        Token {
            name: self.name.clone(),
            color: self.color.clone(),
            location: self.location,
            station: self.station,
            circle: self.circle,
            is_home: self.is_home,
        }
    }
}

impl Token {
    /// The initial marker a company's home grants, before the log is
    /// replayed: circle zero of the home station, not yet converted.
    pub fn from(home: &Home, name: &str, color: &str, orientation: &Orientation) -> (r: Token)
        requires
            spec_resolve(home_location(*home), *orientation) is Some,
        ensures
            r.name@ == name@,
            r.color@ == color@,
            Some(r.location) == spec_resolve(home_location(*home), *orientation),
            r.station == home_station(*home),
            r.circle == 0u32,
            !r.is_home,
    {
        match home {
            Home::PositionOnly(loc) => Token {
                name: name.to_owned(),
                color: color.to_owned(),
                location: loc.as_coord(orientation),
                station: 0,
                circle: 0,
                is_home: false,
            },
            Home::PositionStation(loc, s) => Token {
                name: name.to_owned(),
                color: color.to_owned(),
                location: loc.as_coord(orientation),
                station: *s,
                circle: 0,
                is_home: false,
            },
        }
    }

    /// A marker placed by a token action: the company's color, the circle the
    /// arrival order assigns.
    pub fn place(company: &Company, name: &str, location: (u32, u32), station: usize, circle: u32)
        -> (r: Token)
        ensures
            r.name@ == name@,
            r.color == company.color,
            r.location == location,
            r.station == station,
            r.circle == circle,
            !r.is_home,
    {
        Token {
            name: name.to_owned(),
            color: company.color.clone(),
            location,
            station,
            circle,
            is_home: false,
        }
    }

    /// Marks the token as an unconverted home marker.
    pub fn set_home(self) -> (r: Token)
        ensures
            r == (Token { is_home: true, ..self }),
    {
        Token { is_home: true, ..self }
    }
}

/// The location a home names.
pub open spec fn home_location(h: Home) -> Location {
    match h {
        Home::PositionOnly(l) => l,
        Home::PositionStation(l, _) => l,
    }
}

/// The station a home names; the default is station zero.
pub open spec fn home_station(h: Home) -> usize {
    match h {
        Home::PositionOnly(_) => 0,
        Home::PositionStation(_, s) => s,
    }
}

/// A replay-derived placement: a manifest tile (by its index) with the
/// rotation the log gave it.
#[derive(Clone, Copy, Debug, PartialEq, Eq, Structural)]
pub struct PlacedTile {
    pub tile_index: usize,
    pub orientation: i32,
}

impl PlacedTile {
    /// A placement of a manifest tile in its default rotation.
    pub fn new_from(tile_index: usize) -> (r: PlacedTile)
        ensures
            r == (PlacedTile { tile_index, orientation: 0i32 }),
    {
        PlacedTile { tile_index, orientation: 0 }
    }

    /// The same placement rotated to the given angle in degrees.
    pub fn set_orientation(self, orientation: i32) -> (r: PlacedTile)
        ensures
            r == (PlacedTile { tile_index: self.tile_index, orientation }),
    {
        PlacedTile { tile_index: self.tile_index, orientation }
    }
}

/// The index of the first manifest tile that carries the name, if any.
pub open spec fn find_tile(tiles: Seq<Tile>, name: Seq<char>) -> Option<int>
    decreases tiles.len(),
{
    if tiles.len() == 0 {
        None
    } else if spec_tile_name(tiles[0]) == name {
        Some(0)
    } else {
        match find_tile(tiles.skip(1), name) {
            Some(i) => Some(i + 1),
            None => None,
        }
    }
}

pub proof fn lemma_find_tile_found(tiles: Seq<Tile>, name: Seq<char>, i: int)
    requires
        0 <= i < tiles.len(),
        spec_tile_name(tiles[i]) == name,
        forall|j: int| 0 <= j < i ==> spec_tile_name(#[trigger] tiles[j]) != name,
    ensures
        find_tile(tiles, name) == Some(i),
    decreases tiles.len(),
{
    if i > 0 {
        assert(forall|j: int|
            0 <= j < i - 1 ==> spec_tile_name(#[trigger] tiles.skip(1)[j]) != name);
        lemma_find_tile_found(tiles.skip(1), name, i - 1);
    }
}

pub proof fn lemma_find_tile_absent(tiles: Seq<Tile>, name: Seq<char>)
    requires
        forall|j: int| 0 <= j < tiles.len() ==> spec_tile_name(#[trigger] tiles[j]) != name,
    ensures
        find_tile(tiles, name) is None,
    decreases tiles.len(),
{
    if tiles.len() > 0 {
        assert(forall|j: int|
            0 <= j < tiles.len() - 1 ==> spec_tile_name(#[trigger] tiles.skip(1)[j]) != name);
        lemma_find_tile_absent(tiles.skip(1), name);
    }
}

/// A found index lies in range.
pub proof fn lemma_find_tile_range(tiles: Seq<Tile>, name: Seq<char>)
    ensures
        find_tile(tiles, name) matches Some(i) ==> 0 <= i < tiles.len(),
    decreases tiles.len(),
{
    if tiles.len() > 0 {
        lemma_find_tile_range(tiles.skip(1), name);
    }
}

/// The tile manifest: the tile types of the ruleset and the number of copies
/// the game starts with.
#[derive(Debug)]
pub struct Manifest {
    pub tiles: Vec<Tile>,
    pub amounts: NameMap,
}

impl Manifest {
    /// Every manifest tile carries its number, is bound to its definition,
    /// and the amounts table is well-formed.
    pub open spec fn wf(&self) -> bool {
        &&& forall|i: int|
            0 <= i < self.tiles@.len() ==> (#[trigger] self.tiles@[i]).has_number()
        &&& forall|i: int|
            0 <= i < self.tiles@.len() ==> (#[trigger] self.tiles@[i]).definition is Some
        &&& self.amounts.wf()
    }

    /// The first manifest tile that carries the name.
    fn find_index(&self, name: &str) -> (r: Option<usize>)
        requires
            forall|i: int| 0 <= i < self.tiles@.len() ==> (#[trigger] self.tiles@[i]).has_number(),
        ensures
            match r {
                Some(i) => i < self.tiles@.len() && find_tile(self.tiles@, name@) == Some(
                    i as int,
                ),
                None => find_tile(self.tiles@, name@) is None,
            },
    {
        let n = self.tiles.len();
        let mut i: usize = 0;
        loop
            invariant
                i <= n,
                n == self.tiles@.len(),
                forall|i0: int| 0 <= i0 < n ==> (#[trigger] self.tiles@[i0]).has_number(),
                forall|j: int| 0 <= j < i ==> spec_tile_name(#[trigger] self.tiles@[j]) != name@,
            ensures
                i <= n,
                forall|j: int| 0 <= j < i ==> spec_tile_name(#[trigger] self.tiles@[j]) != name@,
                i < n ==> spec_tile_name(self.tiles@[i as int]) == name@,
            decreases n - i,
        {
            if i == n {
                break ;
            }
            if str_eq(self.tiles[i].name(), name) {
                break ;
            }
            i += 1;
        }
        if i < n {
            proof {
                lemma_find_tile_found(self.tiles@, name@, i as int);
            }
            Some(i)
        } else {
            proof {
                lemma_find_tile_absent(self.tiles@, name@);
            }
            None
        }
    }

    /// The manifest tile that carries the name; a name no tile carries is
    /// reported with a diagnostic.
    pub fn get_tile(&self, name: &String) -> (r: Result<&Tile, String>)
        requires
            forall|i: int| 0 <= i < self.tiles@.len() ==> (#[trigger] self.tiles@[i]).has_number(),
        ensures
            match r {
                Ok(t) => find_tile(self.tiles@, name@) matches Some(i) && *t == self.tiles@[i],
                Err(msg) => find_tile(self.tiles@, name@) is None && msg@ == "Tile with name '"@
                    + name@ + "' not found in manifest"@,
            },
    {
        match self.find_index(name.as_str()) {
            Some(i) => Ok(&self.tiles[i]),
            None => {
                let mut msg = String::from_str("Tile with name '");
                msg.append(name.as_str());
                msg.append("' not found in manifest");
                Err(msg)
            },
        }
    }
}

impl Default for Manifest {
    /// A manifest with no tiles and no amounts.
    fn default() -> (r: Manifest)
        ensures
            r.tiles@ == Seq::<Tile>::empty(),
            r.amounts.wf(),
            r.amounts.as_map() == Map::<Seq<char>, u32>::empty(),
    {
        Manifest { tiles: Vec::new(), amounts: NameMap::new() }
    }
}

/// One step of the placed-tile replay: a tile-lay action binds its location
/// to the named manifest tile under the given rotation, superseding whatever
/// was there; other actions change nothing.
pub open spec fn spec_placed_step(
    m: Map<(u32, u32), PlacedTile>,
    a: Action,
    tiles: Seq<Tile>,
    o: Orientation,
) -> Result<Map<(u32, u32), PlacedTile>, EngineError> {
    match a {
        Action::TileLay { location, tile, orientation } => match spec_resolve(location, o) {
            None => Err(EngineError::InvalidLocation(location)),
            Some(pos) => match find_tile(tiles, tile@) {
                None => Err(EngineError::UnknownTile(tile)),
                Some(i) => match spec_direction_to_angle(orientation@) {
                    None => Err(EngineError::InvalidDirection(orientation)),
                    Some(deg) => Ok(
                        m.insert(pos, PlacedTile { tile_index: i as usize, orientation: deg }),
                    ),
                },
            },
        },
        _ => Ok(m),
    }
}

/// The placed-tile state after a log: the actions applied in order to the
/// empty state, failing at the first action that names something unknown.
pub open spec fn spec_placed(log: Seq<Action>, tiles: Seq<Tile>, o: Orientation) -> Result<
    Map<(u32, u32), PlacedTile>,
    EngineError,
>
    decreases log.len(),
{
    if log.len() == 0 {
        Ok(Map::empty())
    } else {
        match spec_placed(log.drop_last(), tiles, o) {
            Err(e) => Err(e),
            Ok(m) => spec_placed_step(m, log.last(), tiles, o),
        }
    }
}

/// Every placement the replay derives points into the manifest.
pub proof fn lemma_placed_indices(log: Seq<Action>, tiles: Seq<Tile>, o: Orientation)
    ensures
        spec_placed(log, tiles, o) matches Ok(m) ==> forall|k: (u32, u32)|
            m.contains_key(k) ==> (#[trigger] m[k]).tile_index < tiles.len(),
    decreases log.len(),
{
    if log.len() > 0 {
        lemma_placed_indices(log.drop_last(), tiles, o);
        if spec_placed(log, tiles, o) is Ok {
            match log.last() {
                Action::TileLay { location, tile, orientation } => {
                    lemma_find_tile_range(tiles, tile@);
                },
                _ => {},
            }
        }
    }
}

/// The static-tile state of a map: each base placement resolved to its grid
/// coordinate, later entries superseding earlier ones, failing at the first
/// location that does not resolve.
pub open spec fn spec_static(raw: Seq<MapTile>, o: Orientation) -> Result<
    Map<(u32, u32), usize>,
    EngineError,
>
    decreases raw.len(),
{
    if raw.len() == 0 {
        Ok(Map::empty())
    } else {
        match spec_static(raw.drop_last(), o) {
            Err(e) => Err(e),
            Ok(m) => match spec_resolve(raw.last().location, o) {
                None => Err(EngineError::InvalidLocation(raw.last().location)),
                Some(pos) => Ok(m.insert(pos, (raw.len() - 1) as usize)),
            },
        }
    }
}

/// A failure of a prefix of the static fold is the failure of the whole.
pub proof fn lemma_static_err_extends(raw: Seq<MapTile>, o: Orientation, j: int)
    requires
        0 <= j <= raw.len(),
        spec_static(raw.take(j), o) is Err,
    ensures
        spec_static(raw, o) == spec_static(raw.take(j), o),
    decreases raw.len(),
{
    if j == raw.len() {
        assert(raw.take(j) =~= raw);
    } else {
        assert(raw.drop_last().take(j) =~= raw.take(j));
        lemma_static_err_extends(raw.drop_last(), o, j);
    }
}

/// A failure of a prefix of the placed-tile fold is the failure of the whole.
pub proof fn lemma_placed_err_extends(log: Seq<Action>, tiles: Seq<Tile>, o: Orientation, j: int)
    requires
        0 <= j <= log.len(),
        spec_placed(log.take(j), tiles, o) is Err,
    ensures
        spec_placed(log, tiles, o) == spec_placed(log.take(j), tiles, o),
    decreases log.len(),
{
    if j == log.len() {
        assert(log.take(j) =~= log);
    } else {
        assert(log.drop_last().take(j) =~= log.take(j));
        lemma_placed_err_extends(log.drop_last(), tiles, o, j);
    }
}

/// Every index the static state holds points into the placement list.
pub proof fn lemma_static_indices(raw: Seq<MapTile>, o: Orientation)
    ensures
        spec_static(raw, o) matches Ok(m) ==> forall|k: (u32, u32)|
            m.contains_key(k) ==> (#[trigger] m[k]) < raw.len(),
    decreases raw.len(),
{
    if raw.len() > 0 {
        lemma_static_indices(raw.drop_last(), o);
    }
}

impl GameMap {
    /// Resolves every base placement to its grid coordinate; a later
    /// placement at the same coordinate supersedes an earlier one.  Values
    /// index into the placement list.
    pub fn tiles(&self) -> (r: Result<CoordMap<usize>, EngineError>)
        ensures
            match r {
                Ok(m) => m.wf() && spec_static(self.raw_tiles@, self.orientation) == Ok::<
                    Map<(u32, u32), usize>,
                    EngineError,
                >(m.as_map()),
                Err(e) => spec_static(self.raw_tiles@, self.orientation) matches Err(e2) && e
                    == e2,
            },
    {
        let n = self.raw_tiles.len();
        let mut m: CoordMap<usize> = CoordMap::new();
        let mut i: usize = 0;
        while i < n
            invariant
                i <= n,
                n == self.raw_tiles@.len(),
                m.wf(),
                spec_static(self.raw_tiles@.take(i as int), self.orientation) == Ok::<
                    Map<(u32, u32), usize>,
                    EngineError,
                >(m.as_map()),
            decreases n - i,
        {
            proof {
                assert(self.raw_tiles@.take(i + 1).drop_last() =~= self.raw_tiles@.take(i as int));
                assert(self.raw_tiles@.take(i + 1).last() == self.raw_tiles@[i as int]);
            }
            match resolve_location(&self.raw_tiles[i].location, &self.orientation) {
                Some(pos) => {
                    m.insert(pos.0, pos.1, i);
                },
                None => {
                    proof {
                        lemma_static_err_extends(self.raw_tiles@, self.orientation, i + 1);
                    }
                    return Err(EngineError::InvalidLocation(self.raw_tiles[i].location.clone()));
                },
            }
            i += 1;
        }
        proof {
            assert(self.raw_tiles@.take(n as int) =~= self.raw_tiles@);
        }
        Ok(m)
    }
}

/// The whole state of one game session: the static inputs and the log.
pub struct Game {
    pub manifest: Manifest,
    pub map: GameMap,
    pub log: Option<Log>,
    pub companies: Vec<Company>,
}

/// The action sequence of a game: the log's actions, or nothing before a log
/// is attached.
pub open spec fn log_seq(g: Game) -> Seq<Action> {
    match g.log {
        Some(l) => l.log@,
        None => Seq::empty(),
    }
}

impl Game {
    /// The static inputs are sound: every manifest tile carries its number
    /// and its definition, and every base placement is bound to its
    /// definition.
    pub open spec fn wf(&self) -> bool {
        &&& self.manifest.wf()
        &&& forall|i: int|
            0 <= i < self.map.raw_tiles@.len() ==> (#[trigger] self.map.raw_tiles@[i]).definition
                is Some
    }

    /// A game with no tiles, no companies and no log.
    pub fn new() -> (r: Game)
        ensures
            r.wf(),
            r.manifest.tiles@ == Seq::<Tile>::empty(),
            r.map.raw_tiles@ == Seq::<MapTile>::empty(),
            r.log is None,
            r.companies@ == Seq::<Company>::empty(),
    {
        Game {
            manifest: Manifest::default(),
            map: GameMap::default(),
            log: None,
            companies: Vec::new(),
        }
    }

    /// The same game with the log attached.
    pub fn set_log(self, log: Log) -> (r: Game)
        ensures
            r.manifest == self.manifest,
            r.map == self.map,
            r.companies == self.companies,
            r.log == Some(log),
    {
        Game { log: Some(log), ..self }
    }

    /// Replays the log's tile lays: the most recent lay at each location
    /// wins.
    pub fn placed_tiles(&self) -> (r: Result<CoordMap<PlacedTile>, EngineError>)
        requires
            self.wf(),
        ensures
            match r {
                Ok(m) => m.wf() && spec_placed(
                    log_seq(*self),
                    self.manifest.tiles@,
                    self.map.orientation,
                ) == Ok::<Map<(u32, u32), PlacedTile>, EngineError>(m.as_map()),
                Err(e) => spec_placed(log_seq(*self), self.manifest.tiles@, self.map.orientation)
                    matches Err(e2) && e == e2,
            },
    {
        let mut m: CoordMap<PlacedTile> = CoordMap::new();
        let log = match &self.log {
            Some(l) => l,
            None => {
                return Ok(m);
            },
        };
        let n = log.log.len();
        let mut i: usize = 0;
        while i < n
            invariant
                i <= n,
                n == log_seq(*self).len(),
                self.log matches Some(l) && l.log@ == log_seq(*self),
                self.wf(),
                m.wf(),
                spec_placed(log_seq(*self).take(i as int), self.manifest.tiles@,
                    self.map.orientation,
                ) == Ok::<Map<(u32, u32), PlacedTile>, EngineError>(m.as_map()),
            decreases n - i,
        {
            let ghost prefix = log_seq(*self).take(i as int);
            proof {
                assert(log_seq(*self).take(i + 1).drop_last() =~= prefix);
                assert(log_seq(*self).take(i + 1).last() == log_seq(*self)[i as int]);
            }
            let log_ref = match &self.log {
                Some(l) => l,
                None => unreached(),
            };
            match &log_ref.log[i] {
                Action::TileLay { location, tile, orientation } => {
                    let pos = match resolve_location(location, &self.map.orientation) {
                        Some(pos) => pos,
                        None => {
                            proof {
                                lemma_placed_err_extends(log_seq(*self), self.manifest.tiles@,
                                    self.map.orientation, i + 1);
                            }
                            return Err(EngineError::InvalidLocation(location.clone()));
                        },
                    };
                    let idx = match self.manifest.find_index(tile.as_str()) {
                        Some(idx) => idx,
                        None => {
                            proof {
                                lemma_placed_err_extends(log_seq(*self), self.manifest.tiles@,
                                    self.map.orientation, i + 1);
                            }
                            return Err(EngineError::UnknownTile(tile.clone()));
                        },
                    };
                    let deg = match direction_to_angle(orientation.as_str()) {
                        Ok(deg) => deg,
                        Err(_) => {
                            proof {
                                lemma_placed_err_extends(log_seq(*self), self.manifest.tiles@,
                                    self.map.orientation, i + 1);
                            }
                            return Err(EngineError::InvalidDirection(orientation.clone()));
                        },
                    };
                    m.insert(pos.0, pos.1, PlacedTile { tile_index: idx, orientation: deg });
                },
                _ => {},
            }
            i += 1;
        }
        proof {
            assert(log_seq(*self).take(n as int) =~= log_seq(*self));
        }
        Ok(m)
    }
}


/// The mathematical shadow of a token: the same fields with strings read as
/// character sequences.
pub ghost struct TokenView {
    pub name: Seq<char>,
    pub color: Seq<char>,
    pub location: (u32, u32),
    pub station: usize,
    pub circle: u32,
    pub is_home: bool,
}

/// The mathematical shadow of a capacity warning.
pub ghost struct WarningView {
    pub company: Seq<char>,
    pub location: (u32, u32),
    pub station: usize,
}

impl View for Token {
    type V = TokenView;

    open spec fn view(&self) -> TokenView {
        TokenView {
            name: self.name@,
            color: self.color@,
            location: self.location,
            station: self.station,
            circle: self.circle,
            is_home: self.is_home,
        }
    }
}

impl View for CapacityWarning {
    type V = WarningView;

    open spec fn view(&self) -> WarningView {
        WarningView { company: self.company@, location: self.location, station: self.station }
    }
}

/// The token lists a token table holds, read as sequences of token shadows.
pub open spec fn tokens_view(m: Map<(u32, u32), Vec<Token>>) -> Map<(u32, u32), Seq<TokenView>> {
    m.map_values(|v: Vec<Token>| v@.map_values(|t: Token| t@))
}

/// The number of tokens a list holds at a station.
pub open spec fn count_station(toks: Seq<TokenView>, station: usize) -> int
    decreases toks.len(),
{
    if toks.len() == 0 {
        0
    } else {
        count_station(toks.drop_last(), station) + if toks.last().station == station {
            1int
        } else {
            0int
        }
    }
}

/// The index of the first unconverted home marker of a company at a station.
pub open spec fn first_home(toks: Seq<TokenView>, company: Seq<char>, station: usize) -> Option<int>
    decreases toks.len(),
{
    if toks.len() == 0 {
        None
    } else if toks[0].name == company && toks[0].is_home && toks[0].station == station {
        Some(0)
    } else {
        match first_home(toks.skip(1), company, station) {
            Some(i) => Some(i + 1),
            None => None,
        }
    }
}

pub proof fn lemma_first_home_found(toks: Seq<TokenView>, company: Seq<char>, station: usize, i: int)
    requires
        0 <= i < toks.len(),
        toks[i].name == company && toks[i].is_home && toks[i].station == station,
        forall|j: int|
            0 <= j < i ==> !((#[trigger] toks[j]).name == company && toks[j].is_home
                && toks[j].station == station),
    ensures
        first_home(toks, company, station) == Some(i),
    decreases toks.len(),
{
    if i > 0 {
        assert(forall|j: int|
            0 <= j < i - 1 ==> !((#[trigger] toks.skip(1)[j]).name == company
                && toks.skip(1)[j].is_home && toks.skip(1)[j].station == station));
        lemma_first_home_found(toks.skip(1), company, station, i - 1);
    }
}

pub proof fn lemma_first_home_absent(toks: Seq<TokenView>, company: Seq<char>, station: usize)
    requires
        forall|j: int|
            0 <= j < toks.len() ==> !((#[trigger] toks[j]).name == company && toks[j].is_home
                && toks[j].station == station),
    ensures
        first_home(toks, company, station) is None,
    decreases toks.len(),
{
    if toks.len() > 0 {
        assert(forall|j: int|
            0 <= j < toks.len() - 1 ==> !((#[trigger] toks.skip(1)[j]).name == company
                && toks.skip(1)[j].is_home && toks.skip(1)[j].station == station));
        lemma_first_home_absent(toks.skip(1), company, station);
    }
}

/// A found home index lies in range and names a matching token.
pub proof fn lemma_first_home_range(toks: Seq<TokenView>, company: Seq<char>, station: usize)
    ensures
        first_home(toks, company, station) matches Some(i) ==> 0 <= i < toks.len()
            && toks[i].name == company && toks[i].is_home && toks[i].station == station,
    decreases toks.len(),
{
    if toks.len() > 0 {
        lemma_first_home_range(toks.skip(1), company, station);
    }
}

/// The same token as an ordinary (non-home) marker.
pub open spec fn unhome(t: TokenView) -> TokenView {
    TokenView {
        name: t.name,
        color: t.color,
        location: t.location,
        station: t.station,
        circle: t.circle,
        is_home: false,
    }
}

/// The list without a company's tokens, in order.
pub open spec fn drop_name(toks: Seq<TokenView>, company: Seq<char>) -> Seq<TokenView>
    decreases toks.len(),
{
    if toks.len() == 0 {
        Seq::empty()
    } else {
        let rest = drop_name(toks.drop_last(), company);
        if toks.last().name == company {
            rest
        } else {
            rest.push(toks.last())
        }
    }
}

/// The list with circle indices re-packed: each token takes the next free
/// circle of its station, in arrival order.
pub open spec fn repack(toks: Seq<TokenView>) -> Seq<TokenView> {
    Seq::new(
        toks.len(),
        |i: int|
            TokenView {
                name: toks[i].name,
                color: toks[i].color,
                location: toks[i].location,
                station: toks[i].station,
                circle: count_station(toks.take(i), toks[i].station) as u32,
                is_home: toks[i].is_home,
            },
    )
}

/// Removing a company from a list: its tokens go, and the rest re-pack.
pub open spec fn without_company(toks: Seq<TokenView>, company: Seq<char>) -> Seq<TokenView> {
    repack(drop_name(toks, company))
}

/// Removing a company from the whole board: every location's list drops the
/// company and re-packs.
pub open spec fn remove_all(m: Map<(u32, u32), Seq<TokenView>>, company: Seq<char>) -> Map<
    (u32, u32),
    Seq<TokenView>,
> {
    m.map_values(|toks: Seq<TokenView>| without_company(toks, company))
}

/// The index of the first company with the name, if any.
pub open spec fn find_company(companies: Seq<Company>, name: Seq<char>) -> Option<int>
    decreases companies.len(),
{
    if companies.len() == 0 {
        None
    } else if companies[0].name@ == name {
        Some(0)
    } else {
        match find_company(companies.skip(1), name) {
            Some(i) => Some(i + 1),
            None => None,
        }
    }
}

pub proof fn lemma_find_company_found(companies: Seq<Company>, name: Seq<char>, i: int)
    requires
        0 <= i < companies.len(),
        companies[i].name@ == name,
        forall|j: int| 0 <= j < i ==> (#[trigger] companies[j]).name@ != name,
    ensures
        find_company(companies, name) == Some(i),
    decreases companies.len(),
{
    if i > 0 {
        assert(forall|j: int|
            0 <= j < i - 1 ==> (#[trigger] companies.skip(1)[j]).name@ != name);
        lemma_find_company_found(companies.skip(1), name, i - 1);
    }
}

pub proof fn lemma_find_company_absent(companies: Seq<Company>, name: Seq<char>)
    requires
        forall|j: int| 0 <= j < companies.len() ==> (#[trigger] companies[j]).name@ != name,
    ensures
        find_company(companies, name) is None,
    decreases companies.len(),
{
    if companies.len() > 0 {
        assert(forall|j: int|
            0 <= j < companies.len() - 1 ==> (#[trigger] companies.skip(1)[j]).name@ != name);
        lemma_find_company_absent(companies.skip(1), name);
    }
}

pub proof fn lemma_find_company_range(companies: Seq<Company>, name: Seq<char>)
    ensures
        find_company(companies, name) matches Some(i) ==> 0 <= i < companies.len(),
    decreases companies.len(),
{
    if companies.len() > 0 {
        lemma_find_company_range(companies.skip(1), name);
    }
}

/// One home seed: a company with a home gets an unconverted home marker at
/// circle zero of its home station.
pub open spec fn spec_seed_one(
    m: Map<(u32, u32), Seq<TokenView>>,
    c: Company,
    o: Orientation,
) -> Result<Map<(u32, u32), Seq<TokenView>>, EngineError> {
    match c.home {
        None => Ok(m),
        Some(h) => match spec_resolve(home_location(h), o) {
            None => Err(EngineError::InvalidLocation(home_location(h))),
            Some(pos) => {
                let toks = if m.contains_key(pos) {
                    m[pos]
                } else {
                    Seq::empty()
                };
                Ok(
                    m.insert(
                        pos,
                        toks.push(
                            TokenView {
                                name: c.name@,
                                color: c.color@,
                                location: pos,
                                station: home_station(h),
                                circle: 0,
                                is_home: true,
                            },
                        ),
                    ),
                )
            },
        },
    }
}

/// The seeded token state: every company's home marker, in table order.
pub open spec fn spec_seed(companies: Seq<Company>, o: Orientation) -> Result<
    Map<(u32, u32), Seq<TokenView>>,
    EngineError,
>
    decreases companies.len(),
{
    if companies.len() == 0 {
        Ok(Map::empty())
    } else {
        match spec_seed(companies.drop_last(), o) {
            Err(e) => Err(e),
            Ok(m) => spec_seed_one(m, companies.last(), o),
        }
    }
}

/// The station a token action names; the default is station zero.
pub open spec fn action_station(city: Option<u32>) -> usize {
    match city {
        Some(id) => id as usize,
        None => 0,
    }
}

/// The cities of the tile currently effective at a coordinate: the
/// replay-resolved tile if the log laid one there, else the static base tile,
/// else nothing.
pub open spec fn spec_effective_cities(g: Game, pos: (u32, u32)) -> Option<Seq<crate::tiles::City>> {
    match (
        spec_placed(log_seq(g), g.manifest.tiles@, g.map.orientation),
        spec_static(g.map.raw_tiles@, g.map.orientation),
    ) {
        (Ok(placed), Ok(statics)) => if placed.contains_key(pos) {
            Some(g.manifest.tiles@[placed[pos].tile_index as int].definition->0.cities@)
        } else if statics.contains_key(pos) {
            Some(g.map.raw_tiles@[statics[pos] as int].definition->0.cities@)
        } else {
            None
        },
        _ => None,
    }
}

/// One step of the token replay.
///
/// A token action first resolves its location and defaults its station to
/// zero.  If the company still has an unconverted home marker at that
/// station, the marker converts in place and nothing else changes.  Otherwise
/// the station's occupancy is checked against the circles of the currently
/// effective tile: a full station records a warning and skips the placement;
/// a free circle takes a new token with the next circle index.  Removing a
/// company drops its tokens everywhere and re-packs the circles.  Tile lays
/// change no tokens.
pub open spec fn spec_token_step(
    g: Game,
    m: Map<(u32, u32), Seq<TokenView>>,
    w: Seq<WarningView>,
    a: Action,
) -> Result<(Map<(u32, u32), Seq<TokenView>>, Seq<WarningView>), EngineError> {
    match a {
        Action::Token { location, company, city } => match spec_resolve(
            location,
            g.map.orientation,
        ) {
            None => Err(EngineError::InvalidLocation(location)),
            Some(pos) => {
                let station = action_station(city);
                let toks = if m.contains_key(pos) {
                    m[pos]
                } else {
                    Seq::empty()
                };
                match first_home(toks, company@, station) {
                    Some(i) => Ok((m.insert(pos, toks.update(i, unhome(toks[i]))), w)),
                    None => match spec_effective_cities(g, pos) {
                        None => Err(EngineError::NoTileAt(pos.0, pos.1)),
                        Some(cities) => if station >= cities.len() {
                            Err(EngineError::NoSuchStation(pos.0, pos.1, station))
                        } else {
                            let cnt = count_station(toks, station);
                            if cnt >= cities[station as int].circles {
                                Ok(
                                    (
                                        m,
                                        w.push(
                                            WarningView {
                                                company: company@,
                                                location: pos,
                                                station,
                                            },
                                        ),
                                    ),
                                )
                            } else {
                                match find_company(g.companies@, company@) {
                                    None => Err(EngineError::UnknownCompany(company)),
                                    Some(ci) => Ok(
                                        (
                                            m.insert(
                                                pos,
                                                toks.push(
                                                    TokenView {
                                                        name: company@,
                                                        color: g.companies@[ci].color@,
                                                        location: pos,
                                                        station,
                                                        circle: cnt as u32,
                                                        is_home: false,
                                                    },
                                                ),
                                            ),
                                            w,
                                        ),
                                    ),
                                }
                            }
                        },
                    },
                }
            },
        },
        Action::RemoveCompany { company } => Ok((remove_all(m, company@), w)),
        _ => Ok((m, w)),
    }
}

/// The token state after a log: the actions applied in order to the seeded
/// state.
pub open spec fn spec_token_fold(
    g: Game,
    m: Map<(u32, u32), Seq<TokenView>>,
    w: Seq<WarningView>,
    log: Seq<Action>,
) -> Result<(Map<(u32, u32), Seq<TokenView>>, Seq<WarningView>), EngineError>
    decreases log.len(),
{
    if log.len() == 0 {
        Ok((m, w))
    } else {
        match spec_token_fold(g, m, w, log.drop_last()) {
            Err(e) => Err(e),
            Ok((m1, w1)) => spec_token_step(g, m1, w1, log.last()),
        }
    }
}

/// A failure of a prefix of the token fold is the failure of the whole.
pub proof fn lemma_token_fold_err_extends(
    g: Game,
    m: Map<(u32, u32), Seq<TokenView>>,
    w: Seq<WarningView>,
    log: Seq<Action>,
    j: int,
)
    requires
        0 <= j <= log.len(),
        spec_token_fold(g, m, w, log.take(j)) is Err,
    ensures
        spec_token_fold(g, m, w, log) == spec_token_fold(g, m, w, log.take(j)),
    decreases log.len(),
{
    if j == log.len() {
        assert(log.take(j) =~= log);
    } else {
        assert(log.drop_last().take(j) =~= log.take(j));
        lemma_token_fold_err_extends(g, m, w, log.drop_last(), j);
    }
}

/// The whole token replay: the seeded state run through the log, provided
/// the placed-tile and static-tile states are sound (they supply the
/// capacities).
pub open spec fn spec_tokens(g: Game) -> Result<
    (Map<(u32, u32), Seq<TokenView>>, Seq<WarningView>),
    EngineError,
> {
    match spec_placed(log_seq(g), g.manifest.tiles@, g.map.orientation) {
        Err(e) => Err(e),
        Ok(_) => match spec_static(g.map.raw_tiles@, g.map.orientation) {
            Err(e) => Err(e),
            Ok(_) => match spec_seed(g.companies@, g.map.orientation) {
                Err(e) => Err(e),
                Ok(m0) => spec_token_fold(g, m0, Seq::empty(), log_seq(g)),
            },
        },
    }
}



/// The shadow sequence of a token list.
pub open spec fn list_view(v: Vec<Token>) -> Seq<TokenView> {
    v@.map_values(|t: Token| t@)
}

/// Counts the tokens of a station in a prefix of a list.
fn count_station_upto(toks: &Vec<Token>, station: usize, upto: usize) -> (r: usize)
    requires
        upto <= toks@.len(),
    ensures
        r as int == count_station(list_view(*toks).take(upto as int), station),
        r <= upto,
{
    let mut c: usize = 0;
    let mut i: usize = 0;
    while i < upto
        invariant
            i <= upto <= toks@.len(),
            c <= i,
            c as int == count_station(list_view(*toks).take(i as int), station),
        decreases upto - i,
    {
        proof {
            assert(list_view(*toks).take(i + 1).drop_last() =~= list_view(*toks).take(i as int));
            assert(list_view(*toks).take(i + 1).last() == toks@[i as int]@);
        }
        if toks[i].station == station {
            c += 1;
        }
        i += 1;
    }
    c
}

/// Finds the first unconverted home marker of a company at a station.
fn find_home(toks: &Vec<Token>, company: &str, station: usize) -> (r: Option<usize>)
    ensures
        match r {
            Some(i) => i < toks@.len() && first_home(list_view(*toks), company@, station) == Some(
                i as int,
            ),
            None => first_home(list_view(*toks), company@, station) is None,
        },
{
    let n = toks.len();
    let mut i: usize = 0;
    loop
        invariant
            i <= n,
            n == toks@.len(),
            forall|j: int|
                0 <= j < i ==> !((#[trigger] list_view(*toks)[j]).name == company@ && list_view(
                    *toks,
                )[j].is_home && list_view(*toks)[j].station == station),
        ensures
            i <= n,
            forall|j: int|
                0 <= j < i ==> !((#[trigger] list_view(*toks)[j]).name == company@ && list_view(
                    *toks,
                )[j].is_home && list_view(*toks)[j].station == station),
            i < n ==> (list_view(*toks)[i as int].name == company@ && list_view(
                *toks,
            )[i as int].is_home && list_view(*toks)[i as int].station == station),
        decreases n - i,
    {
        if i == n {
            break ;
        }
        let t = &toks[i];
        if t.is_home && t.station == station && str_eq(t.name.as_str(), company) {
            break ;
        }
        i += 1;
    }
    if i < n {
        proof {
            lemma_first_home_found(list_view(*toks), company@, station, i as int);
        }
        Some(i)
    } else {
        proof {
            lemma_first_home_absent(list_view(*toks), company@, station);
        }
        None
    }
}

/// Finds the first company with the name.
fn find_company_exec(companies: &Vec<Company>, name: &str) -> (r: Option<usize>)
    ensures
        match r {
            Some(i) => i < companies@.len() && find_company(companies@, name@) == Some(i as int),
            None => find_company(companies@, name@) is None,
        },
{
    let n = companies.len();
    let mut i: usize = 0;
    loop
        invariant
            i <= n,
            n == companies@.len(),
            forall|j: int| 0 <= j < i ==> (#[trigger] companies@[j]).name@ != name@,
        ensures
            i <= n,
            forall|j: int| 0 <= j < i ==> (#[trigger] companies@[j]).name@ != name@,
            i < n ==> companies@[i as int].name@ == name@,
        decreases n - i,
    {
        if i == n {
            break ;
        }
        if str_eq(companies[i].name.as_str(), name) {
            break ;
        }
        i += 1;
    }
    if i < n {
        proof {
            lemma_find_company_found(companies@, name@, i as int);
        }
        Some(i)
    } else {
        proof {
            lemma_find_company_absent(companies@, name@);
        }
        None
    }
}

/// Drops a company's tokens from one list and re-packs the circle indices of
/// the rest, keeping arrival order within each station.
fn remove_and_repack(toks: &Vec<Token>, company: &str) -> (r: Vec<Token>)
    ensures
        list_view(r) == without_company(list_view(*toks), company@),
{
    let n = toks.len();
    let mut kept: Vec<Token> = Vec::new();
    let mut i: usize = 0;
    while i < n
        invariant
            i <= n,
            n == toks@.len(),
            list_view(kept) == drop_name(list_view(*toks).take(i as int), company@),
        decreases n - i,
    {
        proof {
            assert(list_view(*toks).take(i + 1).drop_last() =~= list_view(*toks).take(i as int));
            assert(list_view(*toks).take(i + 1).last() == toks@[i as int]@);
        }
        if !str_eq(toks[i].name.as_str(), company) {
            kept.push(toks[i].clone());
        }
        i += 1;
        proof {
            assert(list_view(kept) =~= drop_name(list_view(*toks).take(i as int), company@));
        }
    }
    proof {
        assert(list_view(*toks).take(n as int) =~= list_view(*toks));
    }
    let m = kept.len();
    let mut r: Vec<Token> = Vec::new();
    let mut k: usize = 0;
    while k < m
        invariant
            k <= m,
            m == kept@.len(),
            list_view(kept) == drop_name(list_view(*toks), company@),
            r@.len() == k,
            forall|j: int| 0 <= j < k ==> #[trigger] list_view(r)[j] == repack(list_view(kept))[j],
        decreases m - k,
    {
        let ghost rv0: Seq<TokenView> = list_view(r);
        let c = count_station_upto(&kept, kept[k].station, k);
        let t = kept[k].clone();
        let pushed = Token { circle: #[verifier::truncate] (c as u32), ..t };
        let ghost pv = pushed@;
        r.push(pushed);
        proof {
            assert(list_view(r) =~= rv0.push(pv));
            assert(pv == repack(list_view(kept))[k as int]);
            assert(forall|j: int|
                0 <= j < k + 1 ==> #[trigger] list_view(r)[j] == repack(list_view(kept))[j]);
        }
        k += 1;
    }
    proof {
        assert(list_view(r) =~= repack(list_view(kept)));
    }
    r
}

/// A failure of a prefix of the seeding is the failure of the whole.
pub proof fn lemma_seed_err_extends(companies: Seq<Company>, o: Orientation, j: int)
    requires
        0 <= j <= companies.len(),
        spec_seed(companies.take(j), o) is Err,
    ensures
        spec_seed(companies, o) == spec_seed(companies.take(j), o),
    decreases companies.len(),
{
    if j == companies.len() {
        assert(companies.take(j) =~= companies);
    } else {
        assert(companies.drop_last().take(j) =~= companies.take(j));
        lemma_seed_err_extends(companies.drop_last(), o, j);
    }
}

impl Game {
    /// Seeds the token state: every company with a home gets its unconverted
    /// home marker.
    fn seed_tokens(&self) -> (r: Result<CoordMap<Vec<Token>>, EngineError>)
        ensures
            match r {
                Ok(m) => m.wf() && spec_seed(self.companies@, self.map.orientation) == Ok::<
                    Map<(u32, u32), Seq<TokenView>>,
                    EngineError,
                >(tokens_view(m.as_map())),
                Err(e) => spec_seed(self.companies@, self.map.orientation) matches Err(e2) && e
                    == e2,
            },
    {
        let n = self.companies.len();
        let mut m: CoordMap<Vec<Token>> = CoordMap::new();
        let mut i: usize = 0;
        proof {
            assert(tokens_view(m.as_map()) =~= Map::<(u32, u32), Seq<TokenView>>::empty());
        }
        while i < n
            invariant
                i <= n,
                n == self.companies@.len(),
                m.wf(),
                spec_seed(self.companies@.take(i as int), self.map.orientation) == Ok::<
                    Map<(u32, u32), Seq<TokenView>>,
                    EngineError,
                >(tokens_view(m.as_map())),
            decreases n - i,
        {
            proof {
                assert(self.companies@.take(i + 1).drop_last() =~= self.companies@.take(i as int));
                assert(self.companies@.take(i + 1).last() == self.companies@[i as int]);
            }
            let company = &self.companies[i];
            match &company.home {
                None => {},
                Some(h) => {
                    let loc = match h {
                        Home::PositionOnly(l) => l,
                        Home::PositionStation(l, _) => l,
                    };
                    match resolve_location(loc, &self.map.orientation) {
                        None => {
                            proof {
                                lemma_seed_err_extends(self.companies@, self.map.orientation,
                                    i + 1);
                            }
                            return Err(EngineError::InvalidLocation(loc.clone()));
                        },
                        Some(pos) => {
                            let ghost m0 = m.as_map();
                            let t = Token::from(
                                h,
                                company.name.as_str(),
                                company.color.as_str(),
                                &self.map.orientation,
                            ).set_home();
                            let mut list = match m.take(pos.0, pos.1) {
                                Some(l) => l,
                                None => Vec::new(),
                            };
                            let ghost oldtoks: Seq<TokenView> = if tokens_view(m0).contains_key(
                                pos,
                            ) {
                                tokens_view(m0)[pos]
                            } else {
                                Seq::empty()
                            };
                            proof {
                                assert(list_view(list) =~= oldtoks);
                            }
                            list.push(t);
                            proof {
                                assert(list_view(list) =~= oldtoks.push(t@));
                            }
                            m.insert(pos.0, pos.1, list);
                            proof {
                                assert(t@ == (TokenView {
                                    name: company.name@,
                                    color: company.color@,
                                    location: pos,
                                    station: home_station(*h),
                                    circle: 0u32,
                                    is_home: true,
                                }));
                                assert(tokens_view(m.as_map()) =~= tokens_view(m0).insert(
                                    pos,
                                    oldtoks.push(t@),
                                ));
                            }
                        },
                    }
                },
            }
            i += 1;
            proof {
                assert(spec_seed(self.companies@.take(i as int), self.map.orientation) == Ok::<
                    Map<(u32, u32), Seq<TokenView>>,
                    EngineError,
                >(tokens_view(m.as_map())));
            }
        }
        proof {
            assert(self.companies@.take(n as int) =~= self.companies@);
        }
        Ok(m)
    }
}



/// Pointwise removal of a company carries from the entry list to the derived
/// map.
proof fn lemma_remove_company_map(
    s0: Seq<((u32, u32), Vec<Token>)>,
    s1: Seq<((u32, u32), Vec<Token>)>,
    company: Seq<char>,
)
    requires
        crate::table::coord_keys_unique(s0),
        s1.len() == s0.len(),
        forall|j: int| 0 <= j < s0.len() ==> (#[trigger] s1[j]).0 == s0[j].0,
        forall|j: int|
            0 <= j < s0.len() ==> list_view((#[trigger] s1[j]).1) == without_company(
                list_view(s0[j].1),
                company,
            ),
    ensures
        tokens_view(crate::table::coord_map_of(s1)) == remove_all(
            tokens_view(crate::table::coord_map_of(s0)),
            company,
        ),
{
    assert(crate::table::coord_keys_unique(s1));
    let a = tokens_view(crate::table::coord_map_of(s1));
    let b = remove_all(tokens_view(crate::table::coord_map_of(s0)), company);
    assert forall|k: (u32, u32)| #[trigger] a.contains_key(k) implies b.contains_key(k) && a[k]
        == b[k] by {
        crate::table::lemma_coord_map_of_covered(s1, k);
        let j = choose|j: int| 0 <= j < s1.len() && (#[trigger] s1[j]).0 == k;
        crate::table::lemma_coord_map_of_entry(s1, j);
        crate::table::lemma_coord_map_of_entry(s0, j);
    }
    assert forall|k: (u32, u32)| #[trigger] b.contains_key(k) implies a.contains_key(k) by {
        crate::table::lemma_coord_map_of_covered(s0, k);
        let j = choose|j: int| 0 <= j < s0.len() && (#[trigger] s0[j]).0 == k;
        crate::table::lemma_coord_map_of_entry(s1, j);
    }
    assert(a =~= b);
}

impl Game {
    /// The cities of the tile currently effective at a coordinate: the
    /// replay-resolved tile if the log laid one, else the static base tile.
    fn effective_cities<'a>(
        &'a self,
        placed: &CoordMap<PlacedTile>,
        statics: &CoordMap<usize>,
        col: u32,
        row: u32,
    ) -> (r: Option<&'a Vec<crate::tiles::City>>)
        requires
            self.wf(),
            placed.wf(),
            statics.wf(),
            spec_placed(log_seq(*self), self.manifest.tiles@, self.map.orientation) == Ok::<
                Map<(u32, u32), PlacedTile>,
                EngineError,
            >(placed.as_map()),
            spec_static(self.map.raw_tiles@, self.map.orientation) == Ok::<
                Map<(u32, u32), usize>,
                EngineError,
            >(statics.as_map()),
        ensures
            match r {
                Some(c) => spec_effective_cities(*self, (col, row)) == Some(c@),
                None => spec_effective_cities(*self, (col, row)) is None,
            },
    {
        proof {
            lemma_placed_indices(log_seq(*self), self.manifest.tiles@, self.map.orientation);
            lemma_static_indices(self.map.raw_tiles@, self.map.orientation);
        }
        match placed.get(col, row) {
            Some(pt) => {
                let t = &self.manifest.tiles[pt.tile_index];
                match &t.definition {
                    Some(d) => Some(&d.cities),
                    None => unreached(),
                }
            },
            None => match statics.get(col, row) {
                Some(ix) => {
                    let mt = &self.map.raw_tiles[*ix];
                    match &mt.definition {
                        Some(d) => Some(&d.cities),
                        None => unreached(),
                    }
                },
                None => None,
            },
        }
    }

    /// Replays the log against the seeded token state: home markers convert
    /// in place, placements respect station capacity (full stations record a
    /// warning and are skipped), and removed companies give their circles
    /// back.
    pub fn tokens(&self) -> (r: Result<(CoordMap<Vec<Token>>, Vec<CapacityWarning>), EngineError>)
        requires
            self.wf(),
        ensures
            match r {
                Ok(p) => p.0.wf() && spec_tokens(*self) == Ok::<
                    (Map<(u32, u32), Seq<TokenView>>, Seq<WarningView>),
                    EngineError,
                >((tokens_view(p.0.as_map()), p.1@.map_values(|c: CapacityWarning| c@))),
                Err(e) => spec_tokens(*self) matches Err(e2) && e == e2,
            },
    {
        let placed = match self.placed_tiles() {
            Ok(p) => p,
            Err(e) => {
                return Err(e);
            },
        };
        let statics = match self.map.tiles() {
            Ok(s) => s,
            Err(e) => {
                return Err(e);
            },
        };
        let mut m = match self.seed_tokens() {
            Ok(m) => m,
            Err(e) => {
                return Err(e);
            },
        };
        let ghost m0 = tokens_view(m.as_map());
        let mut warns: Vec<CapacityWarning> = Vec::new();
        let log = match &self.log {
            Some(l) => l,
            None => {
                proof {
                    assert(warns@.map_values(|c: CapacityWarning| c@) =~= Seq::<
                        WarningView,
                    >::empty());
                }
                return Ok((m, warns));
            },
        };
        let n = log.log.len();
        let mut i: usize = 0;
        proof {
            assert(warns@.map_values(|c: CapacityWarning| c@) =~= Seq::<WarningView>::empty());
            assert(log_seq(*self).take(0) =~= Seq::<Action>::empty());
        }
        while i < n
            invariant
                i <= n,
                self.wf(),
                m.wf(),
                placed.wf(),
                statics.wf(),
                spec_placed(log_seq(*self), self.manifest.tiles@, self.map.orientation) == Ok::<
                    Map<(u32, u32), PlacedTile>,
                    EngineError,
                >(placed.as_map()),
                spec_static(self.map.raw_tiles@, self.map.orientation) == Ok::<
                    Map<(u32, u32), usize>,
                    EngineError,
                >(statics.as_map()),
                spec_seed(self.companies@, self.map.orientation) == Ok::<
                    Map<(u32, u32), Seq<TokenView>>,
                    EngineError,
                >(m0),
                self.log matches Some(l) && l.log@ == log_seq(*self),
                n == log_seq(*self).len(),
                spec_token_fold(*self, m0, Seq::empty(), log_seq(*self).take(i as int)) == Ok::<
                    (Map<(u32, u32), Seq<TokenView>>, Seq<WarningView>),
                    EngineError,
                >((tokens_view(m.as_map()), warns@.map_values(|c: CapacityWarning| c@))),
            decreases n - i,
        {
            proof {
                assert(log_seq(*self).take(i + 1).drop_last() =~= log_seq(*self).take(i as int));
                assert(log_seq(*self).take(i + 1).last() == log_seq(*self)[i as int]);
            }
            let log_ref = match &self.log {
                Some(l) => l,
                None => unreached(),
            };
            let ghost cur = tokens_view(m.as_map());
            let ghost curw = warns@.map_values(|c: CapacityWarning| c@);
            match &log_ref.log[i] {
                Action::TileLay { .. } => {},
                Action::RemoveCompany { company } => {
                    let ghost s0 = m.seq();
                    let len = m.len();
                    let mut t: usize = 0;
                    while t < len
                        invariant
                            t <= len,
                            m.wf(),
                            len == m.seq().len(),
                            m.seq().len() == s0.len(),
                            crate::table::coord_keys_unique(s0),
                            forall|j: int|
                                0 <= j < s0.len() ==> (#[trigger] m.seq()[j]).0 == s0[j].0,
                            forall|j: int|
                                0 <= j < t ==> list_view((#[trigger] m.seq()[j]).1)
                                    == without_company(list_view(s0[j].1), company@),
                            forall|j: int|
                                t <= j < s0.len() ==> (#[trigger] m.seq()[j]).1 == s0[j].1,
                        decreases len - t,
                    {
                        let fresh = remove_and_repack(&m.entry(t).1, company.as_str());
                        m.set_value_at(t, fresh);
                        t += 1;
                    }
                    proof {
                        lemma_remove_company_map(s0, m.seq(), company@);
                    }
                },
                Action::Token { location, company, city } => {
                    let pos = match resolve_location(location, &self.map.orientation) {
                        Some(pos) => pos,
                        None => {
                            proof {
                                lemma_token_fold_err_extends(*self, m0, Seq::empty(),
                                    log_seq(*self), i + 1);
                            }
                            return Err(EngineError::InvalidLocation(location.clone()));
                        },
                    };
                    let station: usize = match city {
                        Some(id) => *id as usize,
                        None => 0,
                    };
                    let ghost toks: Seq<TokenView> = if cur.contains_key(pos) {
                        cur[pos]
                    } else {
                        Seq::empty()
                    };
                    let (home_idx, cnt) = match m.get(pos.0, pos.1) {
                        Some(list) => {
                            proof {
                                assert(list_view(*list).take(list@.len() as int) =~= list_view(
                                    *list,
                                ));
                            }
                            (
                                find_home(list, company.as_str(), station),
                                count_station_upto(list, station, list.len()),
                            )
                        },
                        None => (None, 0),
                    };
                    match home_idx {
                        Some(idx) => {
                            let mut list = match m.take(pos.0, pos.1) {
                                Some(l) => l,
                                None => unreached(),
                            };
                            let oldt = list[idx].clone();
                            list[idx] = Token { is_home: false, ..oldt };
                            proof {
                                assert(list_view(list) =~= toks.update(
                                    idx as int,
                                    unhome(toks[idx as int]),
                                ));
                            }
                            m.insert(pos.0, pos.1, list);
                            proof {
                                assert(tokens_view(m.as_map()) =~= cur.insert(
                                    pos,
                                    toks.update(idx as int, unhome(toks[idx as int])),
                                ));
                            }
                        },
                        None => {
                            match self.effective_cities(&placed, &statics, pos.0, pos.1) {
                                None => {
                                    proof {
                                        lemma_token_fold_err_extends(*self, m0, Seq::empty(),
                                            log_seq(*self), i + 1);
                                    }
                                    return Err(EngineError::NoTileAt(pos.0, pos.1));
                                },
                                Some(cities) => {
                                    if station >= cities.len() {
                                        proof {
                                            lemma_token_fold_err_extends(*self, m0, Seq::empty(),
                                                log_seq(*self), i + 1);
                                        }
                                        return Err(EngineError::NoSuchStation(pos.0, pos.1,
                                            station));
                                    }
                                    let cap = cities[station].circles;
                                    if cnt >= cap as usize {
                                        warns.push(
                                            CapacityWarning {
                                                company: company.clone(),
                                                location: pos,
                                                station,
                                            },
                                        );
                                        proof {
                                            assert(warns@.map_values(|c: CapacityWarning| c@)
                                                =~= curw.push(
                                                WarningView {
                                                    company: company@,
                                                    location: pos,
                                                    station,
                                                },
                                            ));
                                        }
                                    } else {
                                        match find_company_exec(&self.companies, company.as_str()) {
                                            None => {
                                                proof {
                                                    lemma_token_fold_err_extends(*self, m0,
                                                        Seq::empty(), log_seq(*self), i + 1);
                                                }
                                                return Err(EngineError::UnknownCompany(
                                                    company.clone(),
                                                ));
                                            },
                                            Some(ci) => {
                                                let t = Token::place(
                                                    &self.companies[ci],
                                                    company.as_str(),
                                                    pos,
                                                    station,
                                                    cnt as u32,
                                                );
                                                let mut list = match m.take(pos.0, pos.1) {
                                                    Some(l) => l,
                                                    None => Vec::new(),
                                                };
                                                proof {
                                                    assert(list_view(list) =~= toks);
                                                }
                                                list.push(t);
                                                proof {
                                                    assert(list_view(list) =~= toks.push(t@));
                                                }
                                                m.insert(pos.0, pos.1, list);
                                                proof {
                                                    assert(tokens_view(m.as_map()) =~= cur.insert(
                                                        pos,
                                                        toks.push(t@),
                                                    ));
                                                }
                                            },
                                        }
                                    }
                                },
                            }
                        },
                    }
                },
            }
            i += 1;
        }
        proof {
            assert(log_seq(*self).take(n as int) =~= log_seq(*self));
        }
        Ok((m, warns))
    }
}



/// One step of the supply walk: a tile lay binds its location (under a fixed
/// orientation, since only distinctness matters for accounting) to the laid
/// tile name; a name without a manifest amount is fatal.
pub open spec fn spec_lay_step(
    m: Map<(u32, u32), Seq<char>>,
    a: Action,
    amounts: Map<Seq<char>, u32>,
) -> Result<Map<(u32, u32), Seq<char>>, EngineError> {
    match a {
        Action::TileLay { location, tile, orientation } => match spec_resolve(
            location,
            Orientation::Horizontal,
        ) {
            None => Err(EngineError::InvalidLocation(location)),
            Some(pos) => if !amounts.contains_key(tile@) {
                Err(EngineError::MissingAmount(tile))
            } else {
                Ok(m.insert(pos, tile@))
            },
        },
        _ => Ok(m),
    }
}

/// Which tile name currently occupies each location the log has laid on.
pub open spec fn spec_lay_names(log: Seq<Action>, amounts: Map<Seq<char>, u32>) -> Result<
    Map<(u32, u32), Seq<char>>,
    EngineError,
>
    decreases log.len(),
{
    if log.len() == 0 {
        Ok(Map::empty())
    } else {
        match spec_lay_names(log.drop_last(), amounts) {
            Err(e) => Err(e),
            Ok(m) => spec_lay_step(m, log.last(), amounts),
        }
    }
}

/// A failure of a prefix of the supply walk is the failure of the whole.
pub proof fn lemma_lay_names_err_extends(
    log: Seq<Action>,
    amounts: Map<Seq<char>, u32>,
    j: int,
)
    requires
        0 <= j <= log.len(),
        spec_lay_names(log.take(j), amounts) is Err,
    ensures
        spec_lay_names(log, amounts) == spec_lay_names(log.take(j), amounts),
    decreases log.len(),
{
    if j == log.len() {
        assert(log.take(j) =~= log);
    } else {
        assert(log.drop_last().take(j) =~= log.take(j));
        lemma_lay_names_err_extends(log.drop_last(), amounts, j);
    }
}

/// The domain of the occupancy map is finite.
pub proof fn lemma_lay_names_finite(log: Seq<Action>, amounts: Map<Seq<char>, u32>)
    ensures
        spec_lay_names(log, amounts) matches Ok(m) ==> m.dom().finite(),
    decreases log.len(),
{
    if log.len() > 0 {
        lemma_lay_names_finite(log.drop_last(), amounts);
    }
}

/// The locations that currently hold the name.
pub open spec fn used_set(m: Map<(u32, u32), Seq<char>>, name: Seq<char>) -> Set<(u32, u32)> {
    m.dom().filter(|p: (u32, u32)| m[p] == name)
}

/// How many locations currently hold the name: the copies in play.
pub open spec fn spec_used(m: Map<(u32, u32), Seq<char>>, name: Seq<char>) -> int {
    used_set(m, name).len() as int
}

/// The remaining supply, walked in manifest order: the initial amount of each
/// entry less the copies in play; more copies in play than the manifest
/// grants is fatal.
pub open spec fn spec_remaining(
    entries: Seq<(String, u32)>,
    names: Map<(u32, u32), Seq<char>>,
) -> Result<Map<Seq<char>, u32>, EngineError>
    decreases entries.len(),
{
    if entries.len() == 0 {
        Ok(Map::empty())
    } else {
        match spec_remaining(entries.drop_last(), names) {
            Err(e) => Err(e),
            Ok(m) => {
                let used = spec_used(names, entries.last().0@);
                if used > entries.last().1 {
                    Err(EngineError::SupplyExhausted(entries.last().0))
                } else {
                    Ok(m.insert(entries.last().0@, (entries.last().1 - used) as u32))
                }
            },
        }
    }
}

pub proof fn lemma_remaining_err_extends(
    entries: Seq<(String, u32)>,
    names: Map<(u32, u32), Seq<char>>,
    j: int,
)
    requires
        0 <= j <= entries.len(),
        spec_remaining(entries.take(j), names) is Err,
    ensures
        spec_remaining(entries, names) == spec_remaining(entries.take(j), names),
    decreases entries.len(),
{
    if j == entries.len() {
        assert(entries.take(j) =~= entries);
    } else {
        assert(entries.drop_last().take(j) =~= entries.take(j));
        lemma_remaining_err_extends(entries.drop_last(), names, j);
    }
}

/// The remaining supply of each tile type: the manifest's amounts with no
/// log, else the amounts less the copies the log keeps in play.
pub open spec fn spec_amounts(man: Manifest, log: Option<Log>) -> Result<
    Map<Seq<char>, u32>,
    EngineError,
> {
    match log {
        None => Ok(man.amounts.as_map()),
        Some(l) => match spec_lay_names(l.log@, man.amounts.as_map()) {
            Err(e) => Err(e),
            Ok(names) => spec_remaining(man.amounts.seq(), names),
        },
    }
}

/// The name table seen at the level of character sequences.
pub open spec fn names_view(m: Map<(u32, u32), String>) -> Map<(u32, u32), Seq<char>> {
    m.map_values(|s: String| s@)
}

/// Occurrences of a name among the values of an entry list.
pub open spec fn count_entries(s: Seq<((u32, u32), String)>, name: Seq<char>) -> int
    decreases s.len(),
{
    if s.len() == 0 {
        0
    } else {
        count_entries(s.drop_last(), name) + if s.last().1@ == name {
            1int
        } else {
            0int
        }
    }
}

/// With distinct keys, counting name occurrences over the entries counts the
/// keys the derived map sends to the name.
proof fn lemma_count_entries_card(s: Seq<((u32, u32), String)>, name: Seq<char>)
    requires
        crate::table::coord_keys_unique(s),
    ensures
        spec_used(names_view(crate::table::coord_map_of(s)), name) == count_entries(s, name),
        names_view(crate::table::coord_map_of(s)).dom().finite(),
    decreases s.len(),
{
    let m = names_view(crate::table::coord_map_of(s));
    if s.len() == 0 {
        assert(m.dom() =~= Set::<(u32, u32)>::empty());
        assert(used_set(m, name) =~= Set::<(u32, u32)>::empty());
    } else {
        lemma_count_entries_card(s.drop_last(), name);
        let md = names_view(crate::table::coord_map_of(s.drop_last()));
        let k = s.last().0;
        crate::table::lemma_coord_map_of_absent(s.drop_last(), k);
        assert(m.dom() =~= md.dom().insert(k));
        lemma_used_set_finite(md, name);
        assert(!md.dom().contains(k));
        assert(!used_set(md, name).contains(k));
        assert forall|p: (u32, u32)| md.dom().contains(p) implies m[p] == md[p] by {}
        assert(m[k] == s.last().1@);
        if s.last().1@ == name {
            assert(used_set(m, name) =~= used_set(md, name).insert(k));
            assert(used_set(m, name).len() == used_set(md, name).len() + 1);
        } else {
            assert(used_set(m, name) =~= used_set(md, name));
        }
    }
}

/// The set of locations holding a name is finite when the table is.
proof fn lemma_used_set_finite(m: Map<(u32, u32), Seq<char>>, name: Seq<char>)
    requires
        m.dom().finite(),
    ensures
        used_set(m, name).finite(),
        used_set(m, name).len() <= m.dom().len(),
{
    assert(used_set(m, name).subset_of(m.dom()));
    vstd::set_lib::lemma_len_subset(used_set(m, name), m.dom());
}

/// Counts how many entries of a name table hold the name.
fn count_name(names: &CoordMap<String>, name: &str) -> (r: usize)
    requires
        names.wf(),
    ensures
        r as int == spec_used(names_view(names.as_map()), name@),
        r <= names.seq().len(),
{
    proof {
        lemma_count_entries_card(names.seq(), name@);
    }
    let n = names.len();
    let mut c: usize = 0;
    let mut i: usize = 0;
    while i < n
        invariant
            i <= n,
            c <= i,
            n == names.seq().len(),
            c as int == count_entries(names.seq().take(i as int), name@),
        decreases n - i,
    {
        proof {
            assert(names.seq().take(i + 1).drop_last() =~= names.seq().take(i as int));
            assert(names.seq().take(i + 1).last() == names.seq()[i as int]);
        }
        if str_eq(names.entry(i).1.as_str(), name) {
            c += 1;
        }
        i += 1;
    }
    proof {
        assert(names.seq().take(n as int) =~= names.seq());
    }
    c
}

impl Manifest {
    /// The remaining supply of each tile type after the log: the initial
    /// amount less the copies the log keeps on the board.  A laid name with
    /// no amount entry, and a supply driven below zero, are fatal.
    pub fn amounts(&self, log: &Option<Log>) -> (r: Result<NameMap, EngineError>)
        requires
            self.amounts.wf(),
        ensures
            match r {
                Ok(m) => m.wf() && spec_amounts(*self, *log) == Ok::<
                    Map<Seq<char>, u32>,
                    EngineError,
                >(m.as_map()),
                Err(e) => spec_amounts(*self, *log) matches Err(e2) && e == e2,
            },
    {
        let l = match log {
            Some(l) => l,
            None => {
                return Ok(self.amounts.copy());
            },
        };
        let n = l.log.len();
        let mut names: CoordMap<String> = CoordMap::new();
        let mut i: usize = 0;
        proof {
            assert(names_view(names.as_map()) =~= Map::<(u32, u32), Seq<char>>::empty());
        }
        while i < n
            invariant
                i <= n,
                n == l.log@.len(),
                *log == Some(*l),
                names.wf(),
                self.amounts.wf(),
                spec_lay_names(l.log@.take(i as int), self.amounts.as_map()) == Ok::<
                    Map<(u32, u32), Seq<char>>,
                    EngineError,
                >(names_view(names.as_map())),
            decreases n - i,
        {
            proof {
                assert(l.log@.take(i + 1).drop_last() =~= l.log@.take(i as int));
                assert(l.log@.take(i + 1).last() == l.log@[i as int]);
            }
            match &l.log[i] {
                Action::TileLay { location, tile, .. } => {
                    let pos = match resolve_location(location, &Orientation::Horizontal) {
                        Some(pos) => pos,
                        None => {
                            proof {
                                lemma_lay_names_err_extends(l.log@, self.amounts.as_map(), i + 1);
                            }
                            return Err(EngineError::InvalidLocation(location.clone()));
                        },
                    };
                    if self.amounts.get(tile.as_str()).is_none() {
                        proof {
                            lemma_lay_names_err_extends(l.log@, self.amounts.as_map(), i + 1);
                        }
                        return Err(EngineError::MissingAmount(tile.clone()));
                    }
                    let ghost before = names_view(names.as_map());
                    names.insert(pos.0, pos.1, tile.clone());
                    proof {
                        assert(names_view(names.as_map()) =~= before.insert(pos, tile@));
                    }
                },
                _ => {},
            }
            i += 1;
        }
        proof {
            assert(l.log@.take(n as int) =~= l.log@);
        }
        let m = self.amounts.len();
        let mut rem = NameMap::new();
        let mut j: usize = 0;
        while j < m
            invariant
                j <= m,
                m == self.amounts.seq().len(),
                *log == Some(*l),
                names.wf(),
                self.amounts.wf(),
                rem.wf(),
                spec_lay_names(l.log@, self.amounts.as_map()) == Ok::<
                    Map<(u32, u32), Seq<char>>,
                    EngineError,
                >(names_view(names.as_map())),
                spec_remaining(self.amounts.seq().take(j as int), names_view(names.as_map()))
                    == Ok::<Map<Seq<char>, u32>, EngineError>(rem.as_map()),
            decreases m - j,
        {
            proof {
                assert(self.amounts.seq().take(j + 1).drop_last() =~= self.amounts.seq().take(
                    j as int,
                ));
                assert(self.amounts.seq().take(j + 1).last() == self.amounts.seq()[j as int]);
            }
            let entry = self.amounts.entry(j);
            let used = count_name(&names, entry.0.as_str());
            if used > entry.1 as usize {
                proof {
                    lemma_remaining_err_extends(self.amounts.seq(), names_view(names.as_map()),
                        j + 1);
                }
                return Err(EngineError::SupplyExhausted(entry.0.clone()));
            }
            let left = entry.1 - (used as u32);
            let key = entry.0.clone();
            rem.insert(key, left);
            j += 1;
        }
        proof {
            assert(self.amounts.seq().take(m as int) =~= self.amounts.seq());
        }
        Ok(rem)
    }
}



/// The tile that is effective at a location: the replay-laid tile if there is
/// one, else the static base tile.
#[derive(Clone, Copy, Debug, PartialEq, Eq, Structural)]
pub enum TopTile {
    /// A replay-derived placement.
    Placed(PlacedTile),
    /// A static base placement, by its index in the map's placement list.
    Base(usize),
}

/// The layered view: replay-resolved placements override static ones.
pub open spec fn spec_top(
    placed: Map<(u32, u32), PlacedTile>,
    statics: Map<(u32, u32), usize>,
) -> Map<(u32, u32), TopTile> {
    Map::new(
        |k: (u32, u32)| placed.contains_key(k) || statics.contains_key(k),
        |k: (u32, u32)|
            if placed.contains_key(k) {
                TopTile::Placed(placed[k])
            } else {
                TopTile::Base(statics[k])
            },
    )
}

/// Merges the static tiles and the replay-derived placements; where both hold
/// a tile, the replay-derived one wins.
pub fn top_tiles(placed: &CoordMap<PlacedTile>, tiles: &CoordMap<usize>) -> (r: CoordMap<TopTile>)
    requires
        placed.wf(),
        tiles.wf(),
    ensures
        r.wf(),
        r.as_map() == spec_top(placed.as_map(), tiles.as_map()),
{
    let mut r: CoordMap<TopTile> = CoordMap::new();
    let n = tiles.len();
    let mut i: usize = 0;
    while i < n
        invariant
            i <= n,
            n == tiles.seq().len(),
            placed.wf(),
            tiles.wf(),
            r.wf(),
            forall|k: (u32, u32)| #[trigger]
                r.as_map().contains_key(k) ==> tiles.as_map().contains_key(k) && r.as_map()[k]
                    == TopTile::Base(tiles.as_map()[k]),
            forall|j: int|
                0 <= j < i ==> r.as_map().contains_key((#[trigger] tiles.seq()[j]).0),
        decreases n - i,
    {
        let e = tiles.entry(i);
        r.insert(e.0.0, e.0.1, TopTile::Base(e.1));
        i += 1;
    }
    proof {
        assert forall|k: (u32, u32)|
            tiles.as_map().contains_key(k) implies #[trigger] r.as_map().contains_key(k) by {
            crate::table::lemma_coord_map_of_covered(tiles.seq(), k);
        }
    }
    let m = placed.len();
    let mut t: usize = 0;
    while t < m
        invariant
            t <= m,
            m == placed.seq().len(),
            placed.wf(),
            tiles.wf(),
            r.wf(),
            forall|k: (u32, u32)| #[trigger]
                r.as_map().contains_key(k) ==> tiles.as_map().contains_key(k)
                    || placed.as_map().contains_key(k),
            forall|k: (u32, u32)|
                tiles.as_map().contains_key(k) ==> #[trigger] r.as_map().contains_key(k),
            forall|j: int|
                0 <= j < t ==> r.as_map().contains_key((#[trigger] placed.seq()[j]).0),
            forall|k: (u32, u32)| #[trigger]
                r.as_map().contains_key(k) ==> if exists|j: int|
                    0 <= j < t && (#[trigger] placed.seq()[j]).0 == k {
                    r.as_map()[k] == TopTile::Placed(placed.as_map()[k])
                } else {
                    tiles.as_map().contains_key(k) && r.as_map()[k] == TopTile::Base(
                        tiles.as_map()[k],
                    )
                },
        decreases m - t,
    {
        let e = placed.entry(t);
        r.insert(e.0.0, e.0.1, TopTile::Placed(e.1));
        proof {
            assert forall|k: (u32, u32)| #[trigger] r.as_map().contains_key(k) implies if exists|
                j: int,
            |
                0 <= j < t + 1 && (#[trigger] placed.seq()[j]).0 == k {
                r.as_map()[k] == TopTile::Placed(placed.as_map()[k])
            } else {
                tiles.as_map().contains_key(k) && r.as_map()[k] == TopTile::Base(
                    tiles.as_map()[k],
                )
            } by {
                if k == e.0 {
                    assert(placed.seq()[t as int].0 == k);
                    crate::table::lemma_coord_map_of_entry(placed.seq(), t as int);
                } else {
                    if exists|j: int| 0 <= j < t + 1 && (#[trigger] placed.seq()[j]).0 == k {
                        let j = choose|j: int|
                            0 <= j < t + 1 && (#[trigger] placed.seq()[j]).0 == k;
                        assert(j < t);
                        assert(exists|j0: int|
                            0 <= j0 < t && (#[trigger] placed.seq()[j0]).0 == k);
                    }
                }
            }
        }
        t += 1;
    }
    proof {
        assert forall|k: (u32, u32)|
            placed.as_map().contains_key(k) implies #[trigger] r.as_map().contains_key(k)
            && r.as_map()[k] == TopTile::Placed(placed.as_map()[k]) by {
            crate::table::lemma_coord_map_of_covered(placed.seq(), k);
        }
        assert forall|k: (u32, u32)| #[trigger]
            r.as_map().contains_key(k) && !placed.as_map().contains_key(k) implies
            tiles.as_map().contains_key(k) && r.as_map()[k] == TopTile::Base(
            tiles.as_map()[k],
        ) by {
            if exists|j: int| 0 <= j < placed.seq().len() && (#[trigger] placed.seq()[j]).0 == k {
                let j = choose|j: int|
                    0 <= j < placed.seq().len() && (#[trigger] placed.seq()[j]).0 == k;
                crate::table::lemma_coord_map_of_entry(placed.seq(), j);
            }
        }
        assert(r.as_map() =~= spec_top(placed.as_map(), tiles.as_map()));
    }
    r
}



/// The number of tokens a derived token state holds at one station of one
/// location.
pub open spec fn station_count(
    m: Map<(u32, u32), Seq<TokenView>>,
    pos: (u32, u32),
    st: usize,
) -> int {
    if m.contains_key(pos) {
        count_station(m[pos], st)
    } else {
        0
    }
}

proof fn lemma_count_update_same_station(toks: Seq<TokenView>, i: int, t: TokenView, st: usize)
    requires
        0 <= i < toks.len(),
        t.station == toks[i].station,
    ensures
        count_station(toks.update(i, t), st) == count_station(toks, st),
    decreases toks.len(),
{
    let u = toks.update(i, t);
    if i == toks.len() - 1 {
        assert(u.drop_last() =~= toks.drop_last());
        assert(u.last() == t);
    } else {
        lemma_count_update_same_station(toks.drop_last(), i, t, st);
        assert(u.drop_last() =~= toks.drop_last().update(i, t));
        assert(u.last() == toks.last());
    }
}

proof fn lemma_count_repack(toks: Seq<TokenView>, st: usize)
    ensures
        count_station(repack(toks), st) == count_station(toks, st),
    decreases toks.len(),
{
    if toks.len() > 0 {
        lemma_count_repack(toks.drop_last(), st);
        assert forall|i: int|
            0 <= i < toks.len() - 1 implies repack(toks).drop_last()[i] == repack(
            toks.drop_last(),
        )[i] by {
            assert(toks.drop_last().take(i) =~= toks.take(i));
        }
        assert(repack(toks).drop_last() =~= repack(toks.drop_last()));
        assert(repack(toks).last().station == toks.last().station);
    }
}

proof fn lemma_count_drop_name(toks: Seq<TokenView>, company: Seq<char>, st: usize)
    ensures
        count_station(drop_name(toks, company), st) <= count_station(toks, st),
        count_station(toks, st) >= 0,
    decreases toks.len(),
{
    if toks.len() > 0 {
        lemma_count_drop_name(toks.drop_last(), company, st);
        if toks.last().name != company {
            assert(drop_name(toks, company).drop_last() =~= drop_name(
                toks.drop_last(),
                company,
            ));
        }
    }
}

/// One fold step never pushes a station's count above the capacity the
/// effective tile grants it, and never lifts it above where it stood.
proof fn lemma_fold_capacity(
    g: Game,
    m: Map<(u32, u32), Seq<TokenView>>,
    w: Seq<WarningView>,
    log: Seq<Action>,
    pos: (u32, u32),
    st: usize,
    cap: u32,
)
    requires
        spec_effective_cities(g, pos) matches Some(cities) && st < cities.len() && cap
            == cities[st as int].circles,
        station_count(m, pos, st) <= cap,
        spec_token_fold(g, m, w, log) is Ok,
    ensures
        spec_token_fold(g, m, w, log) matches Ok(r) && station_count(r.0, pos, st) <= cap,
    decreases log.len(),
{
    if log.len() > 0 {
        lemma_fold_capacity(g, m, w, log.drop_last(), pos, st, cap);
        let r1 = match spec_token_fold(g, m, w, log.drop_last()) {
            Ok(r1) => r1,
            Err(_) => arbitrary(),
        };
        let (m1, w1) = r1;
        match log.last() {
            Action::Token { location, company, city } => {
                let p = spec_resolve(location, g.map.orientation)->0;
                let station = action_station(city);
                let toks = if m1.contains_key(p) {
                    m1[p]
                } else {
                    Seq::empty()
                };
                match first_home(toks, company@, station) {
                    Some(i) => {
                        lemma_first_home_range(toks, company@, station);
                        if p == pos {
                            lemma_count_update_same_station(toks, i, unhome(toks[i]), st);
                        }
                    },
                    None => {
                        if p == pos {
                            let cnt = count_station(toks, station);
                            let cities = spec_effective_cities(g, pos)->0;
                            if cnt < cities[station as int].circles && find_company(
                                g.companies@,
                                company@,
                            ) is Some {
                                let tok = TokenView {
                                    name: company@,
                                    color: g.companies@[find_company(
                                        g.companies@,
                                        company@,
                                    )->0].color@,
                                    location: p,
                                    station,
                                    circle: cnt as u32,
                                    is_home: false,
                                };
                                assert(toks.push(tok).drop_last() =~= toks);
                                assert(count_station(toks.push(tok), st) == count_station(toks, st)
                                    + if station == st {
                                    1int
                                } else {
                                    0int
                                });
                            }
                        }
                    },
                }
            },
            Action::RemoveCompany { company } => {
                if m1.contains_key(pos) {
                    lemma_count_drop_name(m1[pos], company@, st);
                    lemma_count_repack(drop_name(m1[pos], company@), st);
                }
            },
            _ => {},
        }
    }
}

/// Law: after a successful replay, no station holds more tokens than the
/// circle capacity of the tile effective at its location, provided the seeded
/// home markers already respected that capacity.  (Home markers are granted
/// unconditionally, so a companies table that homes more companies at one
/// station than it has circles starts above capacity; the replay never adds
/// to a full station.)
pub proof fn lemma_capacity_invariant(g: Game, pos: (u32, u32), st: usize)
    requires
        spec_tokens(g) is Ok,
        spec_effective_cities(g, pos) matches Some(cities) && st < cities.len(),
        spec_seed(g.companies@, g.map.orientation) matches Ok(m0) ==> station_count(m0, pos, st)
            <= spec_effective_cities(g, pos)->0[st as int].circles,
    ensures
        spec_tokens(g) matches Ok(r) && station_count(r.0, pos, st) <= spec_effective_cities(
            g,
            pos,
        )->0[st as int].circles,
{
    let m0 = match spec_seed(g.companies@, g.map.orientation) {
        Ok(m0) => m0,
        Err(_) => arbitrary(),
    };
    let cities = spec_effective_cities(g, pos)->0;
    lemma_fold_capacity(g, m0, Seq::empty(), log_seq(g), pos, st, cities[st as int].circles);
}

/// Law: reconstruction is a pure function of the static map, the manifest,
/// the companies table and the log.  Replaying the same log twice against the
/// same inputs yields identical placed tiles, identical tokens and warnings,
/// and identical remaining amounts: the replay keeps no hidden state between
/// passes.
pub proof fn lemma_replay_idempotent(
    g: Game,
    p1: Result<Map<(u32, u32), PlacedTile>, EngineError>,
    p2: Result<Map<(u32, u32), PlacedTile>, EngineError>,
    t1: Result<(Map<(u32, u32), Seq<TokenView>>, Seq<WarningView>), EngineError>,
    t2: Result<(Map<(u32, u32), Seq<TokenView>>, Seq<WarningView>), EngineError>,
    a1: Result<Map<Seq<char>, u32>, EngineError>,
    a2: Result<Map<Seq<char>, u32>, EngineError>,
)
    requires
        p1 == spec_placed(log_seq(g), g.manifest.tiles@, g.map.orientation),
        p2 == spec_placed(log_seq(g), g.manifest.tiles@, g.map.orientation),
        t1 == spec_tokens(g),
        t2 == spec_tokens(g),
        a1 == spec_amounts(g.manifest, g.log),
        a2 == spec_amounts(g.manifest, g.log),
    ensures
        p1 == p2,
        t1 == t2,
        a1 == a2,
{
}

/// Law: the most recent lay at a location fully supersedes the earlier ones.
/// If the lay at index `j` resolves to a location and no later lay resolves
/// there, the replayed state shows exactly that lay's tile and rotation.
pub proof fn lemma_last_write_wins(
    log: Seq<Action>,
    tiles: Seq<Tile>,
    o: Orientation,
    j: int,
    pos: (u32, u32),
)
    requires
        0 <= j < log.len(),
        tiles.len() <= usize::MAX,
        log[j] matches Action::TileLay { location, .. } && spec_resolve(location, o) == Some(pos),
        forall|k: int|
            j < k < log.len() ==> !((#[trigger] log[k]) matches Action::TileLay { location, .. }
                && spec_resolve(location, o) == Some(pos)),
        spec_placed(log, tiles, o) is Ok,
    ensures
        spec_placed(log, tiles, o) matches Ok(m) && m.contains_key(pos) && (log[j] matches
            Action::TileLay { tile, orientation, .. } && m[pos].tile_index as int == find_tile(
            tiles,
            tile@,
        )->0 && Some(m[pos].orientation) == spec_direction_to_angle(orientation@)),
    decreases log.len(),
{
    if j == log.len() - 1 {
        match log[j] {
            Action::TileLay { location, tile, orientation } => {
                lemma_find_tile_range(tiles, tile@);
                assert(log[j] == log.last());
            },
            _ => {},
        }
    } else {
        assert(log.drop_last()[j] == log[j]);
        assert(forall|k: int|
            j < k < log.len() - 1 ==> !((#[trigger] log.drop_last()[k]) matches
                Action::TileLay { location, .. } && spec_resolve(location, o) == Some(pos)));
        lemma_last_write_wins(log.drop_last(), tiles, o, j, pos);
        assert(log[log.len() - 1] == log.last());
    }
}



impl Manifest {
    /// Binds every manifest tile to the catalog definition its base-tile name
    /// picks; an unknown base tile is fatal.  This must run once, at load
    /// time, before any shape accessor is used.
    pub fn connect(&mut self, defs: &Vec<(String, crate::defs::TileDefinition)>) -> (r: Result<
        (),
        DefError,
    >)
        ensures
            final(self).amounts == old(self).amounts,
            final(self).tiles@.len() == old(self).tiles@.len(),
            forall|i: int|
                0 <= i < old(self).tiles@.len() ==> {
                    &&& (#[trigger] final(self).tiles@[i]).base_tile == old(self).tiles@[i].base_tile
                    &&& final(self).tiles@[i].color == old(self).tiles@[i].color
                    &&& final(self).tiles@[i].text@ == old(self).tiles@[i].text@
                },
            r matches Ok(_) ==> forall|i: int|
                0 <= i < old(self).tiles@.len() ==> {
                    &&& find_def(defs@, old(self).tiles@[i].base_tile@) matches Some(j)
                    &&& (#[trigger] final(self).tiles@[i]).definition matches Some(d)
                        && spec_def_eq(d, defs@[j].1)
                },
            r matches Err(e) ==> {
                &&& e matches DefError::UnknownDefinition(n)
                &&& exists|i: int|
                    0 <= i < old(self).tiles@.len() && find_def(
                        defs@,
                        (#[trigger] old(self).tiles@[i]).base_tile@,
                    ) is None && n@ == old(self).tiles@[i].base_tile@
            },
    {
        let n = self.tiles.len();
        let mut i: usize = 0;
        while i < n
            invariant
                i <= n,
                n == self.tiles@.len(),
                n == old(self).tiles@.len(),
                self.amounts == old(self).amounts,
                forall|j: int|
                    0 <= j < n ==> {
                        &&& (#[trigger] self.tiles@[j]).base_tile == old(self).tiles@[j].base_tile
                        &&& self.tiles@[j].color == old(self).tiles@[j].color
                        &&& self.tiles@[j].text@ == old(self).tiles@[j].text@
                    },
                forall|j: int|
                    0 <= j < i ==> {
                        &&& find_def(defs@, old(self).tiles@[j].base_tile@) matches Some(k)
                        &&& (#[trigger] self.tiles@[j]).definition matches Some(d) && spec_def_eq(
                            d,
                            defs@[k].1,
                        )
                    },
                forall|j: int| i <= j < n ==> (#[trigger] self.tiles@[j]) == old(self).tiles@[j],
            decreases n - i,
        {
            let name = self.tiles[i].base_tile();
            match lookup_def(defs, name.as_str()) {
                Some(def) => {
                    self.tiles[i].set_definition(def);
                },
                None => {
                    return Err(DefError::UnknownDefinition(name));
                },
            }
            i += 1;
        }
        Ok(())
    }
}


} // verus!
