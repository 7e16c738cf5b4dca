use vstd::prelude::*;

verus! {

pub type Health = i16;

pub type Pressure = i32;

/// Health that a freshly planted (or freshly degraded) tree starts with.
pub const DEFAULT_HEALTH: Health = 5;

/// The content of one position of the map.
#[derive(Clone, Copy, PartialEq, Eq, Debug, Structural)]
pub struct Cell {
    pub tile_type: TileType,
    pub pressure: Pressure,
    pub next_pressure: Pressure,
    pub renderable_pressure: Pressure,
    pub health: Health,
    pub can_flow_out: bool,
}

impl Cell {
    pub open spec fn spec_new(tile_type: TileType) -> Cell {
        Cell {
            tile_type,
            pressure: 0,
            next_pressure: 0,
            renderable_pressure: 0,
            can_flow_out: false,
            health: 0,
        }
    }

    /// A cell of the given type, without fluid and without health.
    pub fn new(tile_type: TileType) -> (result: Cell)
        ensures
            result == Cell::spec_new(tile_type),
    {
        Cell {
            tile_type,
            pressure: 0,
            next_pressure: 0,
            renderable_pressure: 0,
            can_flow_out: false,
            health: 0,
        }
    }
}

impl Default for Cell {
    fn default() -> (result: Cell)
        ensures
            result == Cell::spec_new(TileType::Unset),
    {
        Cell::new(TileType::Unset)
    }
}

#[derive(Clone, Copy, PartialEq, Eq, Debug, Structural, Hash)]
pub enum TileType {
    Unset,
    WallRock,
    WallDirt,
    FloorRock,
    FloorDirt,
    Stairs,
    Air,
    Wire,
    MachineAssembler,
    MachineAirCleaner,
    MachineDrill,
    MachineSolarPanel,
    MachineShip,
    MachineStorage,
    TreeHealthy,
    TreeSparse,
    TreeDying,
    TreeDead,
}

#[derive(Clone, Copy, PartialEq, Eq, Debug, Structural)]
pub enum ExtraTextures {
    DirtyWaterSurface,
    CleanWaterSurface,
    DirtyWaterWall,
    CleanWaterWall,
    ZoomedRobot,
    Robot,
    Movement,
    Ship,
}

/// Position of each tile's image in the texture atlas. `Unset` has none.
pub open spec fn tile_texture_index(tile: TileType) -> usize {
    match tile {
        TileType::Unset => 0,
        TileType::WallRock => 16,
        TileType::WallDirt => 24,
        TileType::FloorRock => 17,
        TileType::FloorDirt => 20,
        TileType::Stairs => 18,
        TileType::Air => 26,
        TileType::Wire => 5,
        TileType::MachineAssembler => 12,
        TileType::MachineAirCleaner => 30,
        TileType::MachineDrill => 13,
        TileType::MachineSolarPanel => 21,
        TileType::MachineShip => 28,
        TileType::MachineStorage => 0,
        TileType::TreeHealthy => 8,
        TileType::TreeSparse => 9,
        TileType::TreeDying => 10,
        TileType::TreeDead => 11,
    }
}

/// Position of each extra image in the texture atlas.
pub open spec fn extra_texture_index(texture: ExtraTextures) -> usize {
    match texture {
        ExtraTextures::DirtyWaterSurface => 6,
        ExtraTextures::CleanWaterSurface => 7,
        ExtraTextures::DirtyWaterWall => 14,
        ExtraTextures::CleanWaterWall => 15,
        ExtraTextures::ZoomedRobot => 32,
        ExtraTextures::Robot => 4,
        ExtraTextures::Movement => 22,
        ExtraTextures::Ship => 31,
    }
}

/// Index of an image in the texture atlas.
#[derive(Clone, Copy)]
pub struct TextureIndex {
    index: usize,
}

impl TextureIndex {
    pub closed spec fn spec_index(&self) -> usize {
        self.index
    }

    pub fn get_index(&self) -> (result: usize)
        ensures
            result == self.spec_index(),
    {
        self.index
    }

    /// The atlas position of a tile. There is no image for `Unset` tiles.
    pub fn from_tile(tile: TileType) -> (result: TextureIndex)
        requires
            tile != TileType::Unset,
        ensures
            result.spec_index() == tile_texture_index(tile),
    {
        TextureIndex { index: tile.get_index() }
    }

    pub fn from_extra(texture: ExtraTextures) -> (result: TextureIndex)
        ensures
            result.spec_index() == extra_texture_index(texture),
    {
        TextureIndex { index: texture.get_index() }
    }
}

/// Anything that has an image in the texture atlas.
pub trait TextureIndexTrait {
    /// Whether this value has an image at all.
    spec fn has_texture(&self) -> bool;

    /// Where this value's image is in the atlas.
    spec fn texture_index(&self) -> usize;

    fn get_index(&self) -> (result: usize)
        requires
            self.has_texture(),
        ensures
            result == self.texture_index(),
    ;
}

impl TextureIndexTrait for TileType {
    open spec fn has_texture(&self) -> bool {
        *self != TileType::Unset
    }

    open spec fn texture_index(&self) -> usize {
        tile_texture_index(*self)
    }

    fn get_index(&self) -> (result: usize) {
        match self {
            TileType::Unset => 0,
            TileType::WallRock => 16,
            TileType::WallDirt => 24,
            TileType::FloorRock => 17,
            TileType::FloorDirt => 20,
            TileType::Stairs => 18,
            TileType::Air => 26,
            TileType::Wire => 5,
            TileType::MachineAssembler => 12,
            TileType::MachineAirCleaner => 30,
            TileType::MachineDrill => 13,
            TileType::MachineSolarPanel => 21,
            TileType::MachineShip => 28,
            TileType::MachineStorage => 0,
            TileType::TreeHealthy => 8,
            TileType::TreeSparse => 9,
            TileType::TreeDying => 10,
            TileType::TreeDead => 11,
        }
    }
}

impl TextureIndexTrait for ExtraTextures {
    open spec fn has_texture(&self) -> bool {
        true
    }

    open spec fn texture_index(&self) -> usize {
        extra_texture_index(*self)
    }

    fn get_index(&self) -> (result: usize) {
        match self {
            ExtraTextures::DirtyWaterSurface => 6,
            ExtraTextures::CleanWaterSurface => 7,
            ExtraTextures::DirtyWaterWall => 14,
            ExtraTextures::CleanWaterWall => 15,
            ExtraTextures::ZoomedRobot => 32,
            ExtraTextures::Robot => 4,
            ExtraTextures::Movement => 22,
            ExtraTextures::Ship => 31,
        }
    }
}

pub open spec fn spec_is_liquid(tile: TileType) -> bool {
    tile == TileType::Air
}

pub fn is_liquid(tile: TileType) -> (result: bool)
    ensures
        result == spec_is_liquid(tile),
{
    tile == TileType::Air
}

pub fn is_liquid_or_air(tile: TileType) -> (result: bool)
    ensures
        result == (tile == TileType::Air || spec_is_liquid(tile)),
{
    tile == TileType::Air || is_liquid(tile)
}

pub open spec fn spec_is_machine(tile: TileType) -> bool {
    match tile {
        TileType::MachineAssembler | TileType::MachineAirCleaner | TileType::MachineDrill
        | TileType::MachineSolarPanel | TileType::MachineShip | TileType::MachineStorage => true,
        _ => false,
    }
}

pub open spec fn spec_is_tree(tile: TileType) -> bool {
    match tile {
        TileType::TreeHealthy | TileType::TreeSparse | TileType::TreeDying
        | TileType::TreeDead => true,
        _ => false,
    }
}

pub open spec fn spec_is_walkable_horizontal(tile: TileType) -> bool {
    match tile {
        TileType::FloorRock | TileType::FloorDirt | TileType::Stairs | TileType::Wire => true,
        _ => spec_is_machine(tile) || spec_is_tree(tile),
    }
}

/// Whether something can stand on top of this tile.
pub fn is_walkable_horizontal(tile: TileType) -> (result: bool)
    ensures
        result == spec_is_walkable_horizontal(tile),
{
    match tile {
        TileType::FloorRock | TileType::FloorDirt | TileType::Stairs | TileType::Wire
        | TileType::MachineAssembler | TileType::MachineAirCleaner | TileType::MachineDrill
        | TileType::MachineSolarPanel | TileType::MachineShip | TileType::MachineStorage
        | TileType::TreeHealthy | TileType::TreeSparse | TileType::TreeDying
        | TileType::TreeDead => true,
        _ => false,
    }
}

/// Moving vertically is only possible from stairs to stairs.
pub fn is_walkable_vertical(target_tile: TileType, origin_tile: TileType) -> (result: bool)
    ensures
        result == (target_tile == TileType::Stairs && origin_tile == TileType::Stairs),
{
    target_tile == TileType::Stairs && origin_tile == TileType::Stairs
}

/// Whether a tile is a solid block (or nothing at all) that fluid can not enter.
pub open spec fn spec_is_solid(tile: TileType) -> bool {
    tile == TileType::Unset || tile == TileType::WallDirt || tile == TileType::WallRock
}

/// Fluid spreads sideways into every tile but walls and floors (a floor is not flooded from
/// the side: a pool next to it keeps its fluid).
pub open spec fn spec_is_floodable_horizontal(tile: TileType) -> bool {
    !spec_is_solid(tile) && tile != TileType::FloorDirt && tile != TileType::FloorRock
}

pub open spec fn spec_is_floodable_from_above(tile: TileType) -> bool {
    !spec_is_solid(tile)
}

pub open spec fn spec_is_floodable_from_below(tile: TileType) -> bool {
    !spec_is_solid(tile) && tile != TileType::FloorDirt && tile != TileType::FloorRock
        && !spec_is_tree(tile)
}

pub fn is_floodable_horizontal(tile: TileType) -> (result: bool)
    ensures
        result == spec_is_floodable_horizontal(tile),
{
    !(tile == TileType::Unset || tile == TileType::WallDirt || tile == TileType::WallRock
        || tile == TileType::FloorDirt || tile == TileType::FloorRock)
}

pub fn is_floodable_from_above(tile: TileType) -> (result: bool)
    ensures
        result == spec_is_floodable_from_above(tile),
{
    !(tile == TileType::Unset || tile == TileType::WallDirt || tile == TileType::WallRock)
}

pub fn is_floodable_from_below(tile: TileType) -> (result: bool)
    ensures
        result == spec_is_floodable_from_below(tile),
{
    match tile {
        TileType::Unset | TileType::WallDirt | TileType::WallRock | TileType::FloorDirt
        | TileType::FloorRock | TileType::TreeHealthy | TileType::TreeSparse
        | TileType::TreeDying | TileType::TreeDead => false,
        _ => true,
    }
}

pub open spec fn spec_is_covering(tile: TileType) -> bool {
    match tile {
        TileType::Stairs | TileType::WallRock | TileType::WallDirt | TileType::MachineAssembler
        | TileType::MachineAirCleaner | TileType::MachineDrill | TileType::MachineSolarPanel
        | TileType::MachineShip => true,
        _ => false,
    }
}

/// Returns whether the tile image is tall enough that it would cover a robot behind this tile.
/// This function is used to reduce the opacity for such tiles.
pub fn is_covering(tile: TileType) -> (result: bool)
    ensures
        result == spec_is_covering(tile),
{
    match tile {
        TileType::Stairs | TileType::WallRock | TileType::WallDirt | TileType::MachineAssembler
        | TileType::MachineAirCleaner | TileType::MachineDrill | TileType::MachineSolarPanel
        | TileType::MachineShip => true,
        _ => false,
    }
}

pub open spec fn spec_is_networkable(tile: TileType) -> bool {
    tile == TileType::Wire || spec_is_machine(tile)
}

/// Whether the tile takes part in a network of machines.
pub fn is_networkable(tile: TileType) -> (result: bool)
    ensures
        result == spec_is_networkable(tile),
{
    match tile {
        TileType::Wire | TileType::MachineAssembler | TileType::MachineAirCleaner
        | TileType::MachineDrill | TileType::MachineSolarPanel | TileType::MachineShip
        | TileType::MachineStorage => true,
        _ => false,
    }
}

pub fn is_tree(tile: TileType) -> (result: bool)
    ensures
        result == spec_is_tree(tile),
{
    match tile {
        TileType::TreeHealthy | TileType::TreeSparse | TileType::TreeDying
        | TileType::TreeDead => true,
        _ => false,
    }
}

pub open spec fn spec_is_sturdy(tile: TileType) -> bool {
    match tile {
        TileType::WallRock | TileType::WallDirt | TileType::FloorRock | TileType::FloorDirt
        | TileType::Stairs | TileType::Wire => true,
        _ => spec_is_machine(tile),
    }
}

/// Whether the tile can hold the weight of what is built on top of it.
pub fn is_sturdy(tile: TileType) -> (result: bool)
    ensures
        result == spec_is_sturdy(tile),
{
    match tile {
        TileType::WallRock | TileType::WallDirt | TileType::FloorRock | TileType::FloorDirt
        | TileType::Stairs | TileType::Wire | TileType::MachineAssembler
        | TileType::MachineAirCleaner | TileType::MachineDrill | TileType::MachineSolarPanel
        | TileType::MachineShip | TileType::MachineStorage => true,
        _ => false,
    }
}

pub open spec fn spec_is_soil(tile: TileType) -> bool {
    match tile {
        TileType::WallRock | TileType::WallDirt | TileType::FloorRock | TileType::FloorDirt => true,
        _ => false,
    }
}

/// Whether a tree can grow on top of this tile.
pub fn is_soil(tile: TileType) -> (result: bool)
    ensures
        result == spec_is_soil(tile),
{
    match tile {
        TileType::WallRock | TileType::WallDirt | TileType::FloorRock | TileType::FloorDirt => true,
        _ => false,
    }
}

pub open spec fn spec_ages(tile: TileType) -> bool {
    tile == TileType::TreeHealthy || tile == TileType::TreeSparse || tile == TileType::TreeDying
}

/// Whether the tile loses health over time.
pub fn ages(tile: TileType) -> (result: bool)
    ensures
        result == spec_ages(tile),
{
    tile == TileType::TreeHealthy || tile == TileType::TreeSparse || tile == TileType::TreeDying
}

/// The cell that an aging cell becomes when it runs out of health.
pub open spec fn spec_transition_aging_tile(cell: Cell) -> Cell {
    if cell.tile_type == TileType::TreeHealthy {
        Cell { tile_type: TileType::TreeSparse, health: DEFAULT_HEALTH, ..cell }
    } else if cell.tile_type == TileType::TreeSparse {
        Cell { tile_type: TileType::TreeDying, health: DEFAULT_HEALTH, ..cell }
    } else if cell.tile_type == TileType::TreeDying {
        Cell { tile_type: TileType::TreeDead, health: 0, ..cell }
    } else {
        cell
    }
}

/// Degrades a tree one step: healthy, sparse, dying, dead.
pub fn transition_aging_tile(cell: &mut Cell)
    ensures
        *final(cell) == spec_transition_aging_tile(*old(cell)),
{
    if cell.tile_type == TileType::TreeHealthy {
        cell.tile_type = TileType::TreeSparse;
        cell.health = DEFAULT_HEALTH;
    } else if cell.tile_type == TileType::TreeSparse {
        cell.tile_type = TileType::TreeDying;
        cell.health = DEFAULT_HEALTH;
    } else if cell.tile_type == TileType::TreeDying {
        cell.tile_type = TileType::TreeDead;
        cell.health = 0;
    }
}

} // verus!
