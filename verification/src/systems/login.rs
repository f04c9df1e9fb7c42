//! The login flow.

use crate::ecs::state::{Key, StateKey};
use crate::ecs::{ArgumenDrawer, Deps, Drawer};
use vstd::prelude::*;

verus! {

/// The states of the login flow.
#[derive(Debug, Hash, Clone, Copy, PartialEq, Eq, Structural)]
pub enum LoginState {
    /// Nobody is logged in yet.
    PreLogin,
    /// The login is over: the terminal state of the flow.
    EndLogin,
}

impl Key for LoginState {
    open spec fn key(&self) -> StateKey {
        match self {
            LoginState::PreLogin => 0,
            LoginState::EndLogin => 1,
        }
    }

    fn hash(&self) -> (k: StateKey) {
        match self {
            LoginState::PreLogin => 0,
            LoginState::EndLogin => 1,
        }
    }

    fn eq(&self, other: &Self) -> (same: bool) {
        Key::hash(self) == Key::hash(other)
    }
}

/// Distinct login states stand for distinct keys.
pub proof fn theorem_login_keys_distinct(a: LoginState, b: LoginState)
    ensures
        a.key() == b.key() <==> a == b,
{
}

/// The drawer of the login screen. It leaves the frame as it found it.
pub struct DrawLogin {}

impl<I, U, T, F> Drawer<I, U, T, F> for DrawLogin {
    open spec fn drawn(
        &self,
        frame: F,
        input: Option<I>,
        update: Option<U>,
        local: Deps<T>,
        global: Deps<T>,
    ) -> F {
        frame
    }

    fn draw(&self, frame: &mut F, args: ArgumenDrawer<'_, I, U, T>) {
    }
}

} // verus!
