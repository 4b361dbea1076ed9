use vstd::prelude::*;
use crate::addon::cell::{Cell, Vector2i};
use crate::addon::tile_map::{
    ConfigurationWarning, TileMapError, TileSetInfo, cell_at_tile_coordinates, spec_tile_cell,
    tile_coordinates_fit,
};

verus! {

/// A child node of the hexagon map: its instance id, its hexagon when it is a
/// hexagon node, and whether it waits to be deleted.
#[derive(Clone, Copy, Debug, PartialEq, Eq, Structural)]
pub struct ChildNode {
    pub id: i64,
    pub cell: Option<Cell>,
    pub queued_for_deletion: bool,
}

/// The hexagon map: the tile map layers that show hover, selection, movement
/// and attack ranges, each by the instance id of its layer, if set.
#[derive(Clone, Copy, Debug, PartialEq, Eq, Structural)]
pub struct HexMap {
    pub hover_layer: Option<i64>,
    pub selection_layer: Option<i64>,
    pub attackable_layer: Option<i64>,
    pub remaining_movement_layer: Option<i64>,
    pub movement_range_layer: Option<i64>,
    pub attackable_range_layer: Option<i64>,
}

/// `warning` when `set` is false, nothing otherwise.
pub open spec fn warn_unless(set: bool, warning: ConfigurationWarning) -> Seq<ConfigurationWarning> {
    if set {
        Seq::empty()
    } else {
        seq![warning]
    }
}

/// Why the editor warns about a hexagon map with tile set `tile_set`: each
/// unset layer, then a missing tile set, or one whose tiles are not hexagons
/// or not in stacked offset layout.
pub open spec fn map_warnings(map: HexMap, tile_set: Option<TileSetInfo>) -> Seq<ConfigurationWarning> {
    warn_unless(map.hover_layer is Some, ConfigurationWarning::HoverLayerNotSet) + warn_unless(
        map.selection_layer is Some,
        ConfigurationWarning::SelectionLayerNotSet,
    ) + warn_unless(map.movement_range_layer is Some, ConfigurationWarning::MovementRangeLayerNotSet)
        + warn_unless(
        map.remaining_movement_layer is Some,
        ConfigurationWarning::RemainingMovementLayerNotSet,
    ) + warn_unless(map.attackable_layer is Some, ConfigurationWarning::AttackableLayerNotSet)
        + warn_unless(
        map.attackable_range_layer is Some,
        ConfigurationWarning::AttackableRangeLayerNotSet,
    ) + match tile_set {
        None => seq![ConfigurationWarning::NoTileSet],
        Some(info) => warn_unless(info.hexagon_shape, ConfigurationWarning::ShapeNotHexagon)
            + warn_unless(info.stacked_offset_layout, ConfigurationWarning::LayoutNotStackedOffset),
    }
}

/// Whether `child` is a hexagon node on `cell` that is not about to be deleted.
pub open spec fn is_node_on(child: ChildNode, cell: Cell) -> bool {
    child.cell == Some(cell) && !child.queued_for_deletion
}

/// The ids of the children that are hexagon nodes on `cell` and not about to
/// be deleted, in order.
pub open spec fn nodes_on(children: Seq<ChildNode>, cell: Cell) -> Seq<i64>
    decreases children.len(),
{
    if children.len() == 0 {
        Seq::empty()
    } else {
        let rest = nodes_on(children.drop_last(), cell);
        if is_node_on(children.last(), cell) {
            rest.push(children.last().id)
        } else {
            rest
        }
    }
}

/// Appends `warning` when `set` is false.
fn push_unless(warnings: &mut Vec<ConfigurationWarning>, set: bool, warning: ConfigurationWarning)
    ensures
        final(warnings)@ == old(warnings)@ + warn_unless(set, warning),
{
    if !set {
        warnings.push(warning);
    }
    assert(warnings@ =~= old(warnings)@ + warn_unless(set, warning));
}

impl HexMap {
    /// A hexagon map with no layer set.
    pub fn new() -> (map: HexMap)
        ensures
            map == (HexMap {
                hover_layer: None,
                selection_layer: None,
                attackable_layer: None,
                remaining_movement_layer: None,
                movement_range_layer: None,
                attackable_range_layer: None,
            }),
    {
        HexMap {
            hover_layer: None,
            selection_layer: None,
            attackable_layer: None,
            remaining_movement_layer: None,
            movement_range_layer: None,
            attackable_range_layer: None,
        }
    }

    /// Why the editor warns about this map, whose tile set is `tile_set`.
    pub fn get_configuration_warnings(&self, tile_set: Option<TileSetInfo>) -> (warnings: Vec<
        ConfigurationWarning,
    >)
        ensures
            warnings@ == map_warnings(*self, tile_set),
    {
        let mut warnings = Vec::new();
        push_unless(&mut warnings, self.hover_layer.is_some(), ConfigurationWarning::HoverLayerNotSet);
        push_unless(
            &mut warnings,
            self.selection_layer.is_some(),
            ConfigurationWarning::SelectionLayerNotSet,
        );
        push_unless(
            &mut warnings,
            self.movement_range_layer.is_some(),
            ConfigurationWarning::MovementRangeLayerNotSet,
        );
        push_unless(
            &mut warnings,
            self.remaining_movement_layer.is_some(),
            ConfigurationWarning::RemainingMovementLayerNotSet,
        );
        push_unless(
            &mut warnings,
            self.attackable_layer.is_some(),
            ConfigurationWarning::AttackableLayerNotSet,
        );
        push_unless(
            &mut warnings,
            self.attackable_range_layer.is_some(),
            ConfigurationWarning::AttackableRangeLayerNotSet,
        );
        let ghost layers = warnings@;
        match tile_set {
            None => {
                warnings.push(ConfigurationWarning::NoTileSet);
            },
            Some(info) => {
                push_unless(&mut warnings, info.hexagon_shape, ConfigurationWarning::ShapeNotHexagon);
                push_unless(
                    &mut warnings,
                    info.stacked_offset_layout,
                    ConfigurationWarning::LayoutNotStackedOffset,
                );
                assert(warnings@ =~= layers + (warn_unless(info.hexagon_shape, ConfigurationWarning::ShapeNotHexagon)
                    + warn_unless(info.stacked_offset_layout, ConfigurationWarning::LayoutNotStackedOffset)));
            },
        }
        proof {
            assert(warnings@ =~= map_warnings(*self, tile_set));
        }
        warnings
    }

    /// The hexagon nodes among `children` on `cell` that are not about to be deleted.
    pub fn get_nodes_at_cell(children: &Vec<ChildNode>, cell: Cell) -> (nodes: Vec<i64>)
        ensures
            nodes@ == nodes_on(children@, cell),
    {
        let mut nodes = Vec::new();
        let mut i: usize = 0;
        while i < children.len()
            invariant
                0 <= i <= children@.len(),
                nodes@ == nodes_on(children@.take(i as int), cell),
            decreases children@.len() - i,
        {
            let child = children[i];
            assert(children@.take(i + 1).drop_last() == children@.take(i as int));
            let on_cell = match child.cell {
                Some(node_cell) => node_cell == cell && !child.queued_for_deletion,
                None => false,
            };
            if on_cell {
                nodes.push(child.id);
            }
            i = i + 1;
        }
        assert(children@.take(children@.len() as int) == children@);
        nodes
    }

    /// The hexagon nodes on the hexagon at tile map coordinates `cell`; none
    /// when the tile set does not allow to find that hexagon.
    pub fn get_nodes_at_tilemap_coordinates(
        children: &Vec<ChildNode>,
        tile_set: Option<TileSetInfo>,
        cell: Vector2i,
    ) -> (result: Result<Vec<i64>, TileMapError>)
        requires
            tile_coordinates_fit(tile_set, cell),
        ensures
            match spec_tile_cell(tile_set, cell) {
                Ok(hexagon) => result matches Ok(nodes) && nodes@ == nodes_on(children@, hexagon),
                Err(error) => result matches Err(e) && e == error,
            },
    {
        match cell_at_tile_coordinates(tile_set, cell) {
            Err(error) => Err(error),
            Ok(hexagon) => Ok(HexMap::get_nodes_at_cell(children, hexagon)),
        }
    }
}

} // verus!
