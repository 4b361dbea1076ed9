use vstd::prelude::*;
use crate::addon::cell::{
    Cell, Vector2i, half_toward_zero, round_up_even, spec_from_even_q, spec_from_even_r,
};

verus! {

/// The axis along which every other row or column of a tile set is offset.
#[derive(Clone, Copy, Debug, PartialEq, Eq, Structural)]
pub enum TileOffsetAxis {
    Horizontal,
    Vertical,
    /// A value the engine reported that names neither axis.
    Unknown(i32),
}

/// What the hexagon map reads of a tile set.
#[derive(Clone, Copy, Debug, PartialEq, Eq, Structural)]
pub struct TileSetInfo {
    /// Whether the tiles are hexagons.
    pub hexagon_shape: bool,
    /// Whether the tiles are laid out in stacked offset rows or columns.
    pub stacked_offset_layout: bool,
    pub offset_axis: TileOffsetAxis,
}

/// Why tile map coordinates and hexagons could not be converted.
#[derive(Clone, Copy, Debug, PartialEq, Eq, Structural)]
pub enum TileMapError {
    /// There is no tile map, or it has no tile set.
    NoTileSet,
    /// The tiles are not hexagons.
    NotHexagonShape,
    /// The tiles are not laid out in stacked offset rows or columns.
    NotStackedOffsetLayout,
    /// The offset axis is neither horizontal nor vertical.
    UnknownOffsetAxis(i32),
    /// The direction number names no neighbour of a flat-top hexagon.
    InvalidFlatDirection,
    /// The direction number names no neighbour of a pointy-top hexagon.
    InvalidPointyDirection,
}

/// Why the editor warns about the configuration of a node.
#[derive(Clone, Copy, Debug, PartialEq, Eq, Structural)]
pub enum ConfigurationWarning {
    HoverLayerNotSet,
    SelectionLayerNotSet,
    MovementRangeLayerNotSet,
    RemainingMovementLayerNotSet,
    AttackableLayerNotSet,
    AttackableRangeLayerNotSet,
    ParentNotTileMapLayer,
    NoTileSet,
    ShapeNotHexagon,
    LayoutNotStackedOffset,
}

/// The error of a tile set that does not hold hexagons in stacked offset
/// layout, checked in that order, if any.
pub open spec fn layout_error(tile_set: Option<TileSetInfo>) -> Option<TileMapError> {
    match tile_set {
        None => Some(TileMapError::NoTileSet),
        Some(info) => if !info.hexagon_shape {
            Some(TileMapError::NotHexagonShape)
        } else if !info.stacked_offset_layout {
            Some(TileMapError::NotStackedOffsetLayout)
        } else {
            match info.offset_axis {
                TileOffsetAxis::Unknown(value) => Some(TileMapError::UnknownOffsetAxis(value)),
                _ => None,
            }
        },
    }
}

/// Checks that a tile set holds hexagons in stacked offset layout along a
/// known axis, and returns that axis.
pub fn check_layout(tile_set: Option<TileSetInfo>) -> (result: Result<TileOffsetAxis, TileMapError>)
    ensures
        match layout_error(tile_set) {
            Some(error) => result == Err::<TileOffsetAxis, TileMapError>(error),
            None => result == Ok::<TileOffsetAxis, TileMapError>(tile_set->0.offset_axis),
        },
{
    match tile_set {
        None => Err(TileMapError::NoTileSet),
        Some(info) => {
            if !info.hexagon_shape {
                Err(TileMapError::NotHexagonShape)
            } else if !info.stacked_offset_layout {
                Err(TileMapError::NotStackedOffsetLayout)
            } else {
                match info.offset_axis {
                    TileOffsetAxis::Unknown(value) => Err(TileMapError::UnknownOffsetAxis(value)),
                    axis => Ok(axis),
                }
            }
        },
    }
}

/// Whether `coordinates` can be turned into a hexagon in `i32` arithmetic on
/// the offset axis of `tile_set`, when its layout is one the map supports.
pub open spec fn tile_coordinates_fit(tile_set: Option<TileSetInfo>, coordinates: Vector2i) -> bool {
    layout_error(tile_set) is None ==> if tile_set->0.offset_axis == TileOffsetAxis::Vertical {
        &&& coordinates.x < i32::MAX || coordinates.x % 2 == 0
        &&& i32::MIN <= coordinates.y - round_up_even(coordinates.x as int) / 2 <= i32::MAX
    } else {
        &&& coordinates.y < i32::MAX || coordinates.x % 2 == 0
        &&& i32::MIN <= coordinates.x - half_toward_zero(coordinates.y + (coordinates.x as int) % 2)
            <= i32::MAX
    }
}

/// The hexagon at tile map `coordinates`: even-q coordinates on a vertical
/// offset axis, even-r coordinates on a horizontal one.
pub open spec fn spec_tile_cell(tile_set: Option<TileSetInfo>, coordinates: Vector2i) -> Result<
    Cell,
    TileMapError,
> {
    match layout_error(tile_set) {
        Some(error) => Err(error),
        None => if tile_set->0.offset_axis == TileOffsetAxis::Vertical {
            Ok(spec_from_even_q(coordinates))
        } else {
            Ok(spec_from_even_r(coordinates))
        },
    }
}

/// The hexagon at tile map `coordinates` of a tile set.
pub fn cell_at_tile_coordinates(tile_set: Option<TileSetInfo>, coordinates: Vector2i) -> (result:
    Result<Cell, TileMapError>)
    requires
        tile_coordinates_fit(tile_set, coordinates),
    ensures
        result == spec_tile_cell(tile_set, coordinates),
{
    match check_layout(tile_set) {
        Err(error) => Err(error),
        Ok(TileOffsetAxis::Vertical) => Ok(Cell::from_even_q_offset_coordinates(coordinates)),
        Ok(_) => Ok(Cell::from_even_r_offset_coordinates(coordinates)),
    }
}

} // verus!
