use vstd::prelude::*;
use crate::addon::names::name_is;

verus! {

/// The kinds of map the editor can make.
#[derive(Clone, Copy, Debug, PartialEq, Eq, Structural)]
pub enum MapTypeDiscriminator {
    Circle,
}

/// A map and its measures.
#[derive(Clone, Copy, Debug, PartialEq, Eq, Structural)]
pub enum MapType {
    Circle { map_radius: i32 },
}

/// The value of a property of a map type resource.
#[derive(Clone, Copy, Debug, PartialEq, Eq, Structural)]
pub enum MapTypeProperty {
    Type(MapTypeDiscriminator),
    MapRadius(i32),
}

/// A resource that holds the type of a map.
#[derive(Clone, Copy, Debug, PartialEq, Eq, Structural)]
pub struct HexagonMapTypeRust {
    pub map_type: MapType,
}

impl MapTypeDiscriminator {
    /// The kind of map named `text`, if any.
    pub fn from_name(text: &str) -> (kind: Option<MapTypeDiscriminator>)
        ensures
            kind == (if text@ == "Circle"@ {
                Some(MapTypeDiscriminator::Circle)
            } else {
                None::<MapTypeDiscriminator>
            }),
    {
        if name_is(text, "Circle") {
            Some(MapTypeDiscriminator::Circle)
        } else {
            None
        }
    }
}

impl MapType {
    /// A circle of radius 1.
    pub fn default() -> (map_type: MapType)
        ensures
            map_type == (MapType::Circle { map_radius: 1 }),
    {
        MapType::Circle { map_radius: 1 }
    }
}

impl HexagonMapTypeRust {
    /// A resource holding the default map type.
    pub fn init() -> (resource: HexagonMapTypeRust)
        ensures
            resource.map_type == (MapType::Circle { map_radius: 1 }),
    {
        HexagonMapTypeRust { map_type: MapType::default() }
    }

    /// The property `property`: the kind of map under `type`, the radius of a
    /// circle under `map_radius`; `None` for any other name.
    pub fn get_property(&self, property: &str) -> (value: Option<MapTypeProperty>)
        ensures
            value == (match self.map_type {
                MapType::Circle { map_radius } => if property@ == "type"@ {
                    Some(MapTypeProperty::Type(MapTypeDiscriminator::Circle))
                } else if property@ == "map_radius"@ {
                    Some(MapTypeProperty::MapRadius(map_radius))
                } else {
                    None::<MapTypeProperty>
                },
            }),
    {
        match self.map_type {
            MapType::Circle { map_radius } => {
                if name_is(property, "type") {
                    Some(MapTypeProperty::Type(MapTypeDiscriminator::Circle))
                } else if name_is(property, "map_radius") {
                    Some(MapTypeProperty::MapRadius(map_radius))
                } else {
                    None
                }
            },
        }
    }

    /// Sets the property `property` from a value given as `text` and as
    /// `number`: `type` accepts the name of a kind of map, `map_radius` takes
    /// the number as the radius. Whether the property was accepted.
    pub fn set_property(&mut self, property: &str, text: &str, number: i32) -> (accepted: bool)
        ensures
            accepted == (if property@ == "type"@ {
                text@ == "Circle"@
            } else {
                property@ == "map_radius"@
            }),
            *final(self) == (if property@ != "type"@ && property@ == "map_radius"@ {
                HexagonMapTypeRust { map_type: MapType::Circle { map_radius: number } }
            } else {
                *old(self)
            }),
    {
        match self.map_type {
            MapType::Circle { .. } => {
                if name_is(property, "type") {
                    match MapTypeDiscriminator::from_name(text) {
                        Some(map_type) => match map_type {
                            MapTypeDiscriminator::Circle => true,
                        },
                        None => false,
                    }
                } else if name_is(property, "map_radius") {
                    self.map_type = MapType::Circle { map_radius: number };
                    true
                } else {
                    false
                }
            },
        }
    }
}

} // verus!
