use vstd::prelude::*;
use crate::text::str_equals;

verus! {

/// A game mode, like survival or creative.
#[derive(Hash, Copy, Clone, Debug, PartialEq, Eq, Structural)]
pub enum GameMode {
    Survival,
    Creative,
    Adventure,
    Spectator,
}

/// The protocol id of a game mode.
pub open spec fn mode_id(m: GameMode) -> u8 {
    match m {
        GameMode::Survival => 0,
        GameMode::Creative => 1,
        GameMode::Adventure => 2,
        GameMode::Spectator => 3,
    }
}

/// The game mode with a protocol id, if there is one.
pub open spec fn mode_of_id(id: u8) -> Option<GameMode> {
    if id == 0 {
        Some(GameMode::Survival)
    } else if id == 1 {
        Some(GameMode::Creative)
    } else if id == 2 {
        Some(GameMode::Adventure)
    } else if id == 3 {
        Some(GameMode::Spectator)
    } else {
        None
    }
}

/// The signed id of an optional game mode: -1 for none.
pub open spec fn optional_mode_id(m: Option<GameMode>) -> i8 {
    match m {
        Some(g) => mode_id(g) as i8,
        None => -1i8,
    }
}

impl Default for GameMode {
    fn default() -> (r: GameMode)
        ensures
            r == GameMode::Survival,
    {
        GameMode::Survival
    }
}

impl GameMode {
    pub fn to_id(&self) -> (r: u8)
        ensures
            r == mode_id(*self),
    {
        match self {
            GameMode::Survival => 0,
            GameMode::Creative => 1,
            GameMode::Adventure => 2,
            GameMode::Spectator => 3,
        }
    }

    /// Get the id of the game type, but return -1 if there is no game type.
    pub fn to_optional_id(game_type: Option<GameMode>) -> (r: i8)
        ensures
            r == optional_mode_id(game_type),
    {
        match game_type {
            Some(game_type) => game_type.to_id() as i8,
            None => -1i8,
        }
    }

    pub fn from_id(id: u8) -> (r: Option<GameMode>)
        ensures
            r == mode_of_id(id),
    {
        match id {
            0 => Some(GameMode::Survival),
            1 => Some(GameMode::Creative),
            2 => Some(GameMode::Adventure),
            3 => Some(GameMode::Spectator),
            _ => None,
        }
    }

    /// Reads a signed id: -1 stands for no game mode, 0 to 3 for a mode, and any
    /// other id is invalid.
    pub fn from_optional_id(id: i8) -> (r: Option<OptionalGameType>)
        ensures
            id == -1 ==> r == Some(OptionalGameType(None)),
            0 <= id <= 3 ==> r == Some(OptionalGameType(mode_of_id(id as u8))),
            (id < -1 || id > 3) ==> r.is_none(),
    {
        if id == -1 {
            Some(OptionalGameType(None))
        } else if id < 0 {
            None
        } else {
            match GameMode::from_id(id as u8) {
                Some(m) => Some(OptionalGameType(Some(m))),
                None => None,
            }
        }
    }

    pub fn short_name(&self) -> (r: &'static str)
        ensures
            *self == GameMode::Survival ==> r@ == "Survival"@,
            *self == GameMode::Creative ==> r@ == "Creative"@,
            *self == GameMode::Adventure ==> r@ == "Adventure"@,
            *self == GameMode::Spectator ==> r@ == "Spectator"@,
    {
        match self {
            GameMode::Survival => "Survival",
            GameMode::Creative => "Creative",
            GameMode::Adventure => "Adventure",
            GameMode::Spectator => "Spectator",
        }
    }

    pub fn long_name(&self) -> (r: &'static str)
        ensures
            *self == GameMode::Survival ==> r@ == "Survival Mode"@,
            *self == GameMode::Creative ==> r@ == "Creative Mode"@,
            *self == GameMode::Adventure ==> r@ == "Adventure Mode"@,
            *self == GameMode::Spectator ==> r@ == "Spectator Mode"@,
    {
        match self {
            GameMode::Survival => "Survival Mode",
            GameMode::Creative => "Creative Mode",
            GameMode::Adventure => "Adventure Mode",
            GameMode::Spectator => "Spectator Mode",
        }
    }

    /// The game mode with a lower-case name; any other name is a caller's error.
    pub fn from_name(name: &str) -> (r: GameMode)
        requires
            name@ == "survival"@ || name@ == "creative"@ || name@ == "adventure"@
                || name@ == "spectator"@,
        ensures
            name@ == "survival"@ ==> r == GameMode::Survival,
            name@ == "creative"@ ==> r == GameMode::Creative,
            name@ == "adventure"@ ==> r == GameMode::Adventure,
            name@ == "spectator"@ ==> r == GameMode::Spectator,
    {
        proof {
            reveal_strlit("survival");
            reveal_strlit("creative");
            reveal_strlit("adventure");
            reveal_strlit("spectator");
            assert("survival"@[0] != "creative"@[0]);
            assert("survival"@[0] != "adventure"@[0]);
            assert("survival"@[1] != "spectator"@[1]);
            assert("creative"@[0] != "adventure"@[0]);
            assert("creative"@[0] != "spectator"@[0]);
            assert("adventure"@[0] != "spectator"@[0]);
        }
        if str_equals(name, "survival") {
            GameMode::Survival
        } else if str_equals(name, "creative") {
            GameMode::Creative
        } else if str_equals(name, "adventure") {
            GameMode::Adventure
        } else {
            GameMode::Spectator
        }
    }
}

/// An optional game mode, as the protocol sends it.
#[derive(Hash, Copy, Clone, Debug, PartialEq, Eq, Structural)]
pub struct OptionalGameType(pub Option<GameMode>);

impl From<Option<GameMode>> for OptionalGameType {
    fn from(game_type: Option<GameMode>) -> (r: OptionalGameType)
        ensures
            r.0 == game_type,
    {
        OptionalGameType(game_type)
    }
}

impl vstd::std_specs::convert::FromSpecImpl<Option<GameMode>> for OptionalGameType {
    open spec fn obeys_from_spec() -> bool {
        true
    }

    open spec fn from_spec(v: Option<GameMode>) -> OptionalGameType {
        OptionalGameType(v)
    }
}

impl From<OptionalGameType> for Option<GameMode> {
    fn from(optional_game_type: OptionalGameType) -> (r: Option<GameMode>)
        ensures
            r == optional_game_type.0,
    {
        optional_game_type.0
    }
}

impl vstd::std_specs::convert::FromSpecImpl<OptionalGameType> for Option<GameMode> {
    open spec fn obeys_from_spec() -> bool {
        true
    }

    open spec fn from_spec(v: OptionalGameType) -> Option<GameMode> {
        v.0
    }
}

/// Reading the id of a mode gives the mode back.
pub proof fn lemma_id_round_trip(m: GameMode)
    ensures
        mode_of_id(mode_id(m)) == Some(m),
{
}

} // verus!
