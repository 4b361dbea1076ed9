use vstd::prelude::*;
use crate::addon::cell::{
    Cell, DirectionFlat, DirectionPointy, Vector2i, is_inner, round_up_even, s_fits,
    spec_even_q, spec_even_r, spec_flat_direction, spec_flat_neighbour, spec_pointy_direction,
    spec_pointy_neighbour, spec_s,
};
use crate::addon::names::name_is;
use crate::addon::tile_map::{
    ConfigurationWarning, TileMapError, TileOffsetAxis, TileSetInfo, check_layout, layout_error,
};

verus! {

/// What a hexagon node reads of the tile map it is a child of.
#[derive(Clone, Copy, Debug, PartialEq, Eq, Structural)]
pub struct TileMapInfo {
    pub tile_set: Option<TileSetInfo>,
}

/// A node placed on a hexagon of a tile map: the tile map it is a child of,
/// if any, and its hexagon.
#[derive(Clone, Copy, Debug, PartialEq, Eq, Structural)]
pub struct HexagonNode2D {
    pub tilemap: Option<TileMapInfo>,
    pub cell: Cell,
}

/// The tile set of the tile map of `node`, if any.
pub open spec fn tile_set_of(node: HexagonNode2D) -> Option<TileSetInfo> {
    match node.tilemap {
        Some(tilemap) => tilemap.tile_set,
        None => None,
    }
}

/// Whether the even-q offset coordinates of `cell` are `i32`s.
pub open spec fn even_q_fits(cell: Cell) -> bool {
    &&& cell.q < i32::MAX || cell.q % 2 == 0
    &&& i32::MIN <= cell.r + round_up_even(cell.q as int) / 2 <= i32::MAX
}

/// Whether the even-r offset coordinates of `cell` are `i32`s.
pub open spec fn even_r_fits(cell: Cell) -> bool {
    &&& cell.r < i32::MAX || cell.r % 2 == 0
    &&& i32::MIN <= cell.q + round_up_even(cell.r as int) / 2 <= i32::MAX
}

/// Whether the tile map coordinates of the hexagon of `node` are `i32`s on
/// the offset axis of its tile set, when its layout is one the map supports.
pub open spec fn tilemap_position_fits(node: HexagonNode2D) -> bool {
    layout_error(tile_set_of(node)) is None ==> if tile_set_of(node)->0.offset_axis
        == TileOffsetAxis::Vertical {
        even_q_fits(node.cell)
    } else {
        even_r_fits(node.cell)
    }
}

/// Whether the neighbour of `node` with direction number `direction` exists
/// and its tile map coordinates are `i32`s, when the layout is one the map
/// supports and the number names a direction on its offset axis.
pub open spec fn neighbour_position_fits(node: HexagonNode2D, direction: i8) -> bool {
    layout_error(tile_set_of(node)) is None ==> if tile_set_of(node)->0.offset_axis
        == TileOffsetAxis::Vertical {
        spec_flat_direction(direction) matches Some(d) ==> is_inner(node.cell) && even_q_fits(
            spec_flat_neighbour(node.cell, d),
        )
    } else {
        spec_pointy_direction(direction) matches Some(d) ==> is_inner(node.cell) && even_r_fits(
            spec_pointy_neighbour(node.cell, d),
        )
    }
}

/// The tile map coordinates of the hexagon of `node`: even-q on a vertical
/// offset axis, even-r on a horizontal one.
pub open spec fn spec_tilemap_position(node: HexagonNode2D) -> Result<Vector2i, TileMapError> {
    match layout_error(tile_set_of(node)) {
        Some(error) => Err(error),
        None => if tile_set_of(node)->0.offset_axis == TileOffsetAxis::Vertical {
            Ok(spec_even_q(node.cell))
        } else {
            Ok(spec_even_r(node.cell))
        },
    }
}

/// The tile map coordinates of the neighbour of `node` with direction number
/// `direction`: a flat-top neighbour on a vertical offset axis, a pointy-top
/// one on a horizontal axis.
pub open spec fn spec_neighbour_position(node: HexagonNode2D, direction: i8) -> Result<
    Vector2i,
    TileMapError,
> {
    match layout_error(tile_set_of(node)) {
        Some(error) => Err(error),
        None => if tile_set_of(node)->0.offset_axis == TileOffsetAxis::Vertical {
            match spec_flat_direction(direction) {
                Some(d) => Ok(spec_even_q(spec_flat_neighbour(node.cell, d))),
                None => Err(TileMapError::InvalidFlatDirection),
            }
        } else {
            match spec_pointy_direction(direction) {
                Some(d) => Ok(spec_even_r(spec_pointy_neighbour(node.cell, d))),
                None => Err(TileMapError::InvalidPointyDirection),
            }
        },
    }
}

/// Why the editor warns about a hexagon node: it needs a tile map parent with
/// a tile set of hexagons in stacked offset layout.
pub open spec fn node_warnings(node: HexagonNode2D) -> Seq<ConfigurationWarning> {
    match node.tilemap {
        None => seq![ConfigurationWarning::ParentNotTileMapLayer],
        Some(tilemap) => match tilemap.tile_set {
            None => seq![ConfigurationWarning::NoTileSet],
            Some(info) => (if info.hexagon_shape {
                Seq::empty()
            } else {
                seq![ConfigurationWarning::ShapeNotHexagon]
            }) + (if info.stacked_offset_layout {
                Seq::empty()
            } else {
                seq![ConfigurationWarning::LayoutNotStackedOffset]
            }),
        },
    }
}

impl HexagonNode2D {
    /// A node on the hexagon at the origin, not yet on a tile map.
    pub fn init() -> (node: HexagonNode2D)
        ensures
            node == (HexagonNode2D { tilemap: None, cell: Cell { q: 0, r: 0 } }),
    {
        HexagonNode2D { tilemap: None, cell: Cell::zero() }
    }

    /// The tile set of the tile map of this node, if any.
    pub fn tile_set(&self) -> (tile_set: Option<TileSetInfo>)
        ensures
            tile_set == tile_set_of(*self),
    {
        match self.tilemap {
            Some(tilemap) => tilemap.tile_set,
            None => None,
        }
    }

    pub fn set_cell(&mut self, cell: Cell)
        ensures
            *final(self) == (HexagonNode2D { cell, ..*old(self) }),
    {
        self.cell = cell;
    }

    pub fn get_q(&self) -> (q: i32)
        ensures
            q == self.cell.q,
    {
        self.cell.get_q()
    }

    pub fn get_r(&self) -> (r: i32)
        ensures
            r == self.cell.r,
    {
        self.cell.get_r()
    }

    pub fn get_s(&self) -> (s: i32)
        requires
            s_fits(self.cell),
        ensures
            s == spec_s(self.cell),
    {
        self.cell.get_s()
    }

    /// Moves to axial coordinate `q`, keeping `r`.
    pub fn set_q(&mut self, q: i32)
        ensures
            *final(self) == (HexagonNode2D { cell: Cell { q, r: old(self).cell.r }, ..*old(self) }),
    {
        let r = self.cell.get_r();
        self.cell = Cell::new_axial(q, r);
    }

    /// Moves to axial coordinate `r`, keeping `q`.
    pub fn set_r(&mut self, r: i32)
        ensures
            *final(self) == (HexagonNode2D { cell: Cell { q: old(self).cell.q, r }, ..*old(self) }),
    {
        let q = self.cell.get_q();
        self.cell = Cell::new_axial(q, r);
    }

    /// Moves to cube coordinate `s`, keeping `r`.
    pub fn set_s(&mut self, s: i32)
        requires
            old(self).cell.r != i32::MIN,
            i32::MIN <= -old(self).cell.r - s <= i32::MAX,
        ensures
            *final(self) == (HexagonNode2D {
                cell: Cell { q: (-old(self).cell.r - s) as i32, r: old(self).cell.r },
                ..*old(self)
            }),
    {
        let r = self.cell.get_r();
        self.cell = Cell::new_axial(-r - s, r);
    }

    /// Moves to the hexagon at tile map coordinates `tilemap_position`; on an
    /// error the hexagon stays.
    pub fn set_from_tilemap_position(&mut self, tilemap_position: Vector2i) -> (result: Result<
        (),
        TileMapError,
    >)
        requires
            crate::addon::tile_map::tile_coordinates_fit(tile_set_of(*old(self)), tilemap_position),
        ensures
            match crate::addon::tile_map::spec_tile_cell(tile_set_of(*old(self)), tilemap_position) {
                Ok(cell) => result is Ok && *final(self) == (HexagonNode2D { cell, ..*old(self) }),
                Err(error) => result == Err::<(), TileMapError>(error) && *final(self) == *old(self),
            },
    {
        let tile_set = self.tile_set();
        match crate::addon::tile_map::cell_at_tile_coordinates(tile_set, tilemap_position) {
            Ok(cell) => {
                self.cell = cell;
                Ok(())
            },
            Err(error) => Err(error),
        }
    }

    /// The tile map coordinates of the hexagon of this node.
    pub fn get_tilemap_position(&self) -> (result: Result<Vector2i, TileMapError>)
        requires
            tilemap_position_fits(*self),
        ensures
            result == spec_tilemap_position(*self),
    {
        match check_layout(self.tile_set()) {
            Err(error) => Err(error),
            Ok(TileOffsetAxis::Vertical) => Ok(self.cell.get_even_q_offset_coordinates()),
            Ok(_) => Ok(self.cell.get_even_r_offset_coordinates()),
        }
    }

    /// The tile map coordinates of the neighbour with direction number
    /// `direction`; valid numbers depend on the offset axis of the tile map.
    pub fn get_neighbour_flat(&self, direction: i8) -> (result: Result<Vector2i, TileMapError>)
        requires
            neighbour_position_fits(*self, direction),
        ensures
            result == spec_neighbour_position(*self, direction),
    {
        match check_layout(self.tile_set()) {
            Err(error) => Err(error),
            Ok(TileOffsetAxis::Vertical) => match DirectionFlat::from_i8(direction) {
                Some(direction) => {
                    let neighbour = self.cell.get_neighbour_for_flat_hex(direction);
                    Ok(neighbour.get_even_q_offset_coordinates())
                },
                None => Err(TileMapError::InvalidFlatDirection),
            },
            Ok(_) => match DirectionPointy::from_i8(direction) {
                Some(direction) => {
                    let neighbour = self.cell.get_neighbour_for_pointy_hex(direction);
                    Ok(neighbour.get_even_r_offset_coordinates())
                },
                None => Err(TileMapError::InvalidPointyDirection),
            },
        }
    }

    /// The even-q offset coordinates at which the node is shown, when it is on a tile map.
    pub fn update_position(&self) -> (offset: Option<Vector2i>)
        requires
            self.tilemap is Some ==> even_q_fits(self.cell),
        ensures
            offset == (if self.tilemap is Some {
                Some(spec_even_q(self.cell))
            } else {
                None::<Vector2i>
            }),
    {
        match self.tilemap {
            Some(_) => Some(self.cell.get_even_q_offset_coordinates()),
            None => None,
        }
    }

    /// The property `property`: `H_Q`, `H_R` or `H_S` of the hexagon; `None`
    /// for any other name.
    pub fn get_property(&self, property: &str) -> (value: Option<i32>)
        requires
            property@ == "H_S"@ ==> s_fits(self.cell),
        ensures
            value == (if property@ == "H_Q"@ {
                Some(self.cell.q)
            } else if property@ == "H_R"@ {
                Some(self.cell.r)
            } else if property@ == "H_S"@ {
                Some(spec_s(self.cell) as i32)
            } else {
                None::<i32>
            }),
    {
        if name_is(property, "H_Q") {
            Some(self.cell.get_q())
        } else if name_is(property, "H_R") {
            Some(self.cell.get_r())
        } else if name_is(property, "H_S") {
            Some(self.cell.get_s())
        } else {
            None
        }
    }

    /// Sets `H_Q`, `H_R` or `H_S` of the hexagon to `value`; whether the
    /// property was one of them.
    pub fn set_property(&mut self, property: &str, value: i32) -> (accepted: bool)
        requires
            property@ == "H_S"@ ==> old(self).cell.r != i32::MIN && i32::MIN <= -old(self).cell.r
                - value <= i32::MAX,
        ensures
            accepted == (property@ == "H_Q"@ || property@ == "H_R"@ || property@ == "H_S"@),
            *final(self) == (if property@ == "H_Q"@ {
                HexagonNode2D { cell: Cell { q: value, r: old(self).cell.r }, ..*old(self) }
            } else if property@ == "H_R"@ {
                HexagonNode2D { cell: Cell { q: old(self).cell.q, r: value }, ..*old(self) }
            } else if property@ == "H_S"@ {
                HexagonNode2D {
                    cell: Cell { q: (-old(self).cell.r - value) as i32, r: old(self).cell.r },
                    ..*old(self)
                }
            } else {
                *old(self)
            }),
    {
        if name_is(property, "H_Q") {
            self.set_q(value);
            true
        } else if name_is(property, "H_R") {
            self.set_r(value);
            true
        } else if name_is(property, "H_S") {
            self.set_s(value);
            true
        } else {
            false
        }
    }

    /// Why the editor warns about this node.
    pub fn get_configuration_warnings(&self) -> (warnings: Vec<ConfigurationWarning>)
        ensures
            warnings@ == node_warnings(*self),
    {
        let mut warnings = Vec::new();
        match self.tilemap {
            None => {
                warnings.push(ConfigurationWarning::ParentNotTileMapLayer);
            },
            Some(tilemap) => match tilemap.tile_set {
                None => {
                    warnings.push(ConfigurationWarning::NoTileSet);
                },
                Some(info) => {
                    if !info.hexagon_shape {
                        warnings.push(ConfigurationWarning::ShapeNotHexagon);
                    }
                    if !info.stacked_offset_layout {
                        warnings.push(ConfigurationWarning::LayoutNotStackedOffset);
                    }
                },
            },
        }
        proof {
            assert(warnings@ =~= node_warnings(*self));
        }
        warnings
    }
}

} // verus!
