use azalea::block::BlockState;
use azalea::game_type::{GameMode, OptionalGameType};

#[test]
fn test_from_u32() {
    assert_eq!(BlockState::try_from(0).unwrap(), BlockState::air());

    assert!(BlockState::try_from(BlockState::max_state()).is_ok());
    assert!(BlockState::try_from(BlockState::max_state() + 1).is_err());
}

#[test]
fn game_mode_ids() {
    assert_eq!(GameMode::Spectator.to_id(), 3);
    assert_eq!(GameMode::from_id(2), Some(GameMode::Adventure));
    assert_eq!(GameMode::from_id(4), None);
    assert_eq!(GameMode::to_optional_id(None), -1);
    assert_eq!(GameMode::to_optional_id(Some(GameMode::Creative)), 1);
    assert_eq!(GameMode::from_optional_id(-1), Some(OptionalGameType(None)));
    assert_eq!(GameMode::from_optional_id(0), Some(OptionalGameType(Some(GameMode::Survival))));
    assert_eq!(GameMode::from_optional_id(7), None);
    assert_eq!(GameMode::from_optional_id(-2), None);
}

#[test]
fn game_mode_names() {
    assert_eq!(GameMode::Creative.short_name(), "Creative");
    assert_eq!(GameMode::Adventure.long_name(), "Adventure Mode");
    assert_eq!(GameMode::from_name("spectator"), GameMode::Spectator);
    assert_eq!(GameMode::default(), GameMode::Survival);
}
