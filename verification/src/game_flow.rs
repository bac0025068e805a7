//! The game's flow: pausing and resuming, the level-up choice, and the things that happen
//! only once (the background music starting, the cat weapon appearing).

use vstd::prelude::*;

verus! {

/// Whether the game runs or waits.
#[derive(PartialEq, Eq, Structural, Clone, Copy, Debug)]
pub enum GameState {
    Playing,
    Paused,
}

/// What the player did that can change the game's state.
#[derive(PartialEq, Eq, Structural, Clone, Copy, Debug)]
pub enum FlowEvent {
    /// The space bar was just pressed.
    SpacePressed,
    /// An item of the level-up menu was clicked.
    ItemChosen,
}

/// What the engine is to do in answer to a `FlowEvent`.
#[derive(PartialEq, Eq, Structural, Clone, Copy, Debug)]
pub struct Transition {
    /// The state to be in afterwards.
    pub next: GameState,
    /// Whether the physics pipeline runs afterwards.
    pub physics_active: bool,
    /// Whether the space bar press is to be consumed, so that no other system sees it.
    pub consume_space: bool,
    /// Whether the cat weapon is to be granted.
    pub grant_cat_weapon: bool,
}

/// The other state: playing becomes paused and paused becomes playing.
pub open spec fn toggled(state: GameState) -> GameState {
    if state == GameState::Playing {
        GameState::Paused
    } else {
        GameState::Playing
    }
}

/// The state after an event: space toggles between playing and paused; choosing an item
/// always resumes play.
pub open spec fn next_state(state: GameState, event: FlowEvent) -> GameState {
    if event == FlowEvent::SpacePressed {
        toggled(state)
    } else {
        GameState::Playing
    }
}

/// The answer to an event: the state becomes `next_state`; physics runs exactly when that state
/// is playing; the space bar press is always consumed; the cat weapon is granted exactly when an
/// item was chosen.
pub open spec fn transition_for(state: GameState, event: FlowEvent) -> Transition {
    Transition {
        next: next_state(state, event),
        physics_active: next_state(state, event) == GameState::Playing,
        consume_space: true,
        grant_cat_weapon: event == FlowEvent::ItemChosen,
    }
}

/// Decides what an event does in the given state.
pub fn respond(state: GameState, event: FlowEvent) -> (t: Transition)
    ensures
        t == transition_for(state, event),
{
    match event {
        FlowEvent::SpacePressed => match state {
            GameState::Playing => Transition {
                next: GameState::Paused,
                physics_active: false,
                consume_space: true,
                grant_cat_weapon: false,
            },
            GameState::Paused => Transition {
                next: GameState::Playing,
                physics_active: true,
                consume_space: true,
                grant_cat_weapon: false,
            },
        },
        FlowEvent::ItemChosen => Transition {
            next: GameState::Playing,
            physics_active: true,
            consume_space: true,
            grant_cat_weapon: true,
        },
    }
}

/// Space twice returns the game to the state it was in, and leaves physics running exactly
/// when the game is playing.
pub proof fn lemma_space_twice_restores(state: GameState)
    ensures
        transition_for(transition_for(state, FlowEvent::SpacePressed).next, FlowEvent::SpacePressed).next == state,
        transition_for(state, FlowEvent::SpacePressed).physics_active
            == (transition_for(state, FlowEvent::SpacePressed).next == GameState::Playing),
{
}

/// After any event physics runs exactly when the game is playing.
pub proof fn lemma_physics_follows_state(state: GameState, event: FlowEvent)
    ensures
        transition_for(state, event).physics_active == (transition_for(state, event).next == GameState::Playing),
{
}

/// What each event does, in every state: space always changes the state and stops physics
/// exactly when it pauses; choosing an item always ends in play with physics running and grants
/// the cat weapon, which space never does; every event consumes the key press.
pub proof fn lemma_transition_exact(state: GameState)
    ensures
        transition_for(state, FlowEvent::SpacePressed).next != state,
        transition_for(state, FlowEvent::SpacePressed).physics_active == (state == GameState::Paused),
        !transition_for(state, FlowEvent::SpacePressed).grant_cat_weapon,
        transition_for(state, FlowEvent::ItemChosen).next == GameState::Playing,
        transition_for(state, FlowEvent::ItemChosen).physics_active,
        transition_for(state, FlowEvent::ItemChosen).grant_cat_weapon,
        transition_for(state, FlowEvent::SpacePressed).consume_space,
        transition_for(state, FlowEvent::ItemChosen).consume_space,
{
}

/// Starts the background music once.
pub struct BgmPlayback {
    pub is_playing: bool,
}

impl BgmPlayback {
    /// Nothing has been played yet.
    pub fn new() -> (b: BgmPlayback)
        ensures
            !b.is_playing,
    {
        BgmPlayback { is_playing: false }
    }

    /// Called every frame: true exactly when the music is to be started now, which is the
    /// first call; afterwards the music counts as playing.
    pub fn should_start(&mut self) -> (start: bool)
        ensures
            start == !old(self).is_playing,
            final(self).is_playing,
    {
        if self.is_playing {
            false
        } else {
            self.is_playing = true;
            true
        }
    }
}

/// Spawns the cat weapon at most once, when it is asked for and the player exists.
pub struct CatWeaponSpawner {
    pub has_spawned: bool,
}

impl CatWeaponSpawner {
    /// No cat weapon yet.
    pub fn new() -> (s: CatWeaponSpawner)
        ensures
            !s.has_spawned,
    {
        CatWeaponSpawner { has_spawned: false }
    }

    /// Called every frame with whether a cat weapon was asked for and whether the player exists:
    /// true exactly when the weapon is to be spawned now, which happens once at most.
    pub fn should_spawn(&mut self, requested: bool, player_present: bool) -> (spawn: bool)
        ensures
            spawn == (!old(self).has_spawned && requested && player_present),
            final(self).has_spawned == (old(self).has_spawned || spawn),
    {
        if self.has_spawned {
            return false;
        }
        if !requested {
            return false;
        }
        if !player_present {
            return false;
        }
        self.has_spawned = true;
        true
    }
}

} // verus!
