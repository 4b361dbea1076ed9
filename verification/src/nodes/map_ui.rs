//! The label of the map that names the player whose turn it is.
use vstd::prelude::*;

verus! {

/// The user interface of the map.
#[derive(Clone, Copy, Debug, PartialEq, Eq, Structural)]
pub struct MapUI {}

impl MapUI {
    pub fn new() -> (ui: MapUI)
        ensures
            ui == (MapUI {}),
    {
        MapUI {}
    }

    /// The name of the player whose turn it is, among the players named
    /// `names`: `None` when no player has the turn.
    pub fn player_name(names: &Vec<String>, current_player: Option<usize>) -> (name: String)
        requires
            current_player matches Some(index) ==> index < names@.len(),
        ensures
            name@ == (match current_player {
                None => "None"@,
                Some(index) => names@[index as int]@,
            }),
    {
        match current_player {
            None => "None".to_owned(),
            Some(index) => names[index].clone(),
        }
    }
}

} // verus!
