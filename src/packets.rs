use vstd::prelude::*;

verus! {

/// The kinds of game event that the server announces.
#[derive(Clone, Debug, Copy, PartialEq, Eq, Structural)]
pub enum EventType {
    NoRespawnBlockAvailable,
    StartRaining,
    StopRaining,
    ChangeGameMode,
    WinGame,
    DemoEvent,
    ArrowHitPlayer,
    RainLevelChange,
    ThunderLevelChange,
    PufferFishSting,
    GuardianElderEffect,
    ImmediateRespawn,
}

/// The entities riding a vehicle, by entity id.
#[derive(Clone, Debug)]
pub struct ClientboundSetPassengersPacket {
    pub vehicle: u32,
    pub passengers: Vec<u32>,
}

} // verus!
