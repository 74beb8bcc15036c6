//! The states of the game around the cart.

use vstd::prelude::*;
use crate::ordering::OrderingType;

verus! {

/// The games that can be played on a picture.
#[derive(Clone, Copy, Debug, Default, PartialEq, Eq, Hash, Structural)]
pub enum GameType {
    #[default]
    AppearTest,
    Cart,
}

#[derive(Clone, Copy, Debug, Default, PartialEq, Eq, Hash, Structural)]
pub enum GameState {
    #[default]
    AwaitingImage,
    MainMenu,
    Generate(OrderingType),
    Play(GameType),
}

impl GameState {
    pub open spec fn spec_is_menu(self) -> bool {
        self is AwaitingImage || self is MainMenu
    }

    /// Whether a menu is shown rather than a game.
    #[verifier::when_used_as_spec(spec_is_menu)]
    pub fn is_menu(self) -> (menu: bool)
        ensures
            menu == self.spec_is_menu(),
    {
        match self {
            GameState::AwaitingImage => true,
            GameState::MainMenu => true,
            _ => false,
        }
    }
}

} // verus!
