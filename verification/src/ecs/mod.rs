//! Systems: state machines with per-state drawers, resolvers and delegation.

pub mod state;
pub mod step;

use crate::di::{held, lookup, Dependency, DependencyMap, MissingDependency, TypeKey};
use crate::ecs::state::StateKey;
use crate::table::Table;
use vstd::prelude::*;

verus! {

/// The identity of a system within a registry.
pub type SystemId = u64;

/// The id of the system at the root of every registry.
pub const ROOT: SystemId = 0;

/// The systems of an application, by id.
pub type SystemList<D, R, T> = Table<System<D, R, T>>;

/// What a store holds, as contracts see it.
pub type Deps<T> = Map<TypeKey, Dependency<T>>;

/// How one resolution attempt ended.
#[derive(Clone, Copy, Debug, PartialEq, Eq, Structural)]
pub enum RunState {
    /// The system is not in its terminal state: wait for the next event.
    Tick,
    /// The system reached its terminal state: its parent is to be told.
    Ready,
}

/// Why a scheduling pass was abandoned.
#[derive(Clone, Copy, Debug, PartialEq, Eq, Structural)]
pub enum StepError {
    /// The system has no resolver for its current state.
    UnresolvableState { system: SystemId, state: StateKey },
    /// A subsystem link, or the root id, names a system that is not registered.
    UnknownSystem { system: SystemId },
    /// The subsystem links of the current states lead back into themselves.
    DelegationCycle,
}

/// What a drawer is handed for one render pass.
pub struct ArgumenDrawer<'a, I, U, T> {
    /// The pending input event, if there is one.
    pub inputs: &'a Option<I>,
    /// The pending external update, if there is one.
    pub events: &'a Option<U>,
    /// The store of the system being drawn.
    pub local: &'a DependencyMap<T>,
    /// The store that all systems share.
    pub global: &'a DependencyMap<T>,
}

/// A render callback. What it draws is a function of the frame it is handed
/// and of what it is shown; it changes nothing else.
pub trait Drawer<I, U, T, F> {
    /// The frame after this drawer has drawn onto `frame`. A drawer that
    /// does not say what it draws is taken to draw something unknown.
    open spec fn drawn(
        &self,
        frame: F,
        input: Option<I>,
        update: Option<U>,
        local: Deps<T>,
        global: Deps<T>,
    ) -> F {
        arbitrary()
    }

    /// Draws onto `frame`.
    fn draw(&self, frame: &mut F, args: ArgumenDrawer<'_, I, U, T>)
        ensures
            *final(frame) == self.drawn(
                *old(frame),
                *args.inputs,
                *args.events,
                args.local@,
                args.global@,
            ),
    ;
}

/// What a resolver decides: the next state, and what the two stores hold
/// afterwards.
pub struct Resolution<T> {
    pub state: StateKey,
    pub local: Deps<T>,
    pub global: Deps<T>,
}

/// A transition function. Its decision is a function of the state, the
/// pending input and update, and the two stores it may read and write.
pub trait Resolver<I, U, T> {
    /// The decision taken in `state` on the given input, update and stores.
    /// A resolver that does not say what it decides is taken to decide
    /// something unknown.
    open spec fn resolved(
        &self,
        state: StateKey,
        input: Option<I>,
        update: Option<U>,
        local: Deps<T>,
        global: Deps<T>,
    ) -> Resolution<T> {
        arbitrary()
    }

    /// Decides the next state, reading and writing the stores on the way.
    fn resolve(
        &self,
        state: StateKey,
        input: &Option<I>,
        update: &Option<U>,
        local: &mut DependencyMap<T>,
        global: &mut DependencyMap<T>,
    ) -> (next: StateKey)
        ensures
            next == self.resolved(state, *input, *update, old(local)@, old(global)@).state,
            final(local)@ == self.resolved(state, *input, *update, old(local)@, old(global)@).local,
            final(global)@ == self.resolved(
                state,
                *input,
                *update,
                old(local)@,
                old(global)@,
            ).global,
    ;
}

/// The resolver that waits: it stays in the state it is asked about and
/// leaves both stores as they are.
pub struct Hold {}

impl<I, U, T> Resolver<I, U, T> for Hold {
    open spec fn resolved(
        &self,
        state: StateKey,
        input: Option<I>,
        update: Option<U>,
        local: Deps<T>,
        global: Deps<T>,
    ) -> Resolution<T> {
        Resolution { state, local, global }
    }

    fn resolve(
        &self,
        state: StateKey,
        input: &Option<I>,
        update: &Option<U>,
        local: &mut DependencyMap<T>,
        global: &mut DependencyMap<T>,
    ) -> (next: StateKey) {
        state
    }
}

/// One node of the scheduler tree.
pub struct System<D, R, T> {
    /// The system's identity within its registry.
    pub id: SystemId,
    /// The current state.
    pub state: StateKey,
    /// The terminal state.
    pub estate: StateKey,
    /// The drawers of each declared state, in registration order.
    pub drawer: Table<Vec<D>>,
    /// The store private to this system.
    pub local: DependencyMap<T>,
    /// The child that is authoritative while a state is current.
    pub sub_system: Table<SystemId>,
    /// The transition function of each state.
    pub resolver: Table<R>,
}

/// A system as contracts see it.
pub struct SystemView<D, R, T> {
    pub id: SystemId,
    pub state: StateKey,
    pub estate: StateKey,
    pub drawer: Map<StateKey, Seq<D>>,
    pub local: Deps<T>,
    pub sub_system: Map<StateKey, SystemId>,
    pub resolver: Map<StateKey, R>,
}

impl<D, R, T> View for System<D, R, T> {
    type V = SystemView<D, R, T>;

    open spec fn view(&self) -> SystemView<D, R, T> {
        SystemView {
            id: self.id,
            state: self.state,
            estate: self.estate,
            drawer: self.drawer@.map_values(|v: Vec<D>| v@),
            local: self.local@,
            sub_system: self.sub_system@,
            resolver: self.resolver@,
        }
    }
}

/// A system after one resolution, with what the shared store then holds and
/// how the resolution ended.
pub struct Ran<D, R, T> {
    pub system: SystemView<D, R, T>,
    pub global: Deps<T>,
    pub outcome: RunState,
}

impl<D, R, T> SystemView<D, R, T> {
    /// The child that is authoritative in the current state, if any.
    pub open spec fn subsystem_of_state(self) -> Option<SystemId> {
        if self.sub_system.contains_key(self.state) {
            Some(self.sub_system[self.state])
        } else {
            None
        }
    }

    /// The drawers of the current state, in registration order; none where
    /// the state has no list.
    pub open spec fn drawer_of_state(self) -> Seq<D> {
        if self.drawer.contains_key(self.state) {
            self.drawer[self.state]
        } else {
            Seq::empty()
        }
    }

    /// The resolver of the current state, if any.
    pub open spec fn resolver_of_state(self) -> Option<R> {
        if self.resolver.contains_key(self.state) {
            Some(self.resolver[self.state])
        } else {
            None
        }
    }

    /// The system with `drawer` appended to the list of `state`; unchanged
    /// where `state` has no list.
    pub open spec fn with_drawer(self, state: StateKey, drawer: D) -> Self {
        if self.drawer.contains_key(state) {
            SystemView { drawer: self.drawer.insert(state, self.drawer[state].push(drawer)), ..self }
        } else {
            self
        }
    }

    /// One resolution: the resolver of the current state decides, its decision
    /// becomes the current state, and the attempt is `Ready` exactly when that
    /// state is the terminal one. Without a resolver the attempt fails.
    pub open spec fn run<I, U>(self, input: Option<I>, update: Option<U>, global: Deps<T>) -> Result<
        Ran<D, R, T>,
        StepError,
    > where R: Resolver<I, U, T> {
        if self.resolver.contains_key(self.state) {
            let decided = self.resolver[self.state].resolved(
                self.state,
                input,
                update,
                self.local,
                global,
            );
            Ok(
                Ran {
                    system: SystemView { state: decided.state, local: decided.local, ..self },
                    global: decided.global,
                    outcome: if decided.state == self.estate {
                        RunState::Ready
                    } else {
                        RunState::Tick
                    },
                },
            )
        } else {
            Err(StepError::UnresolvableState { system: self.id, state: self.state })
        }
    }
}

/// The registries of a system: what is registered for a state, and what
/// holds for the current one.
pub trait ExecSystemLocals<D, R, T>: View<V = SystemView<D, R, T>> {
    /// Appends `drawer` to the list of `state`. A state that has no list gets
    /// none: the call then changes nothing.
    fn add_drawer(&mut self, state: StateKey, drawer: D)
        ensures
            final(self)@ == old(self)@.with_drawer(state, drawer),
    ;

    /// Installs `resolver` as the transition function of `state`, in place of
    /// any earlier one.
    fn set_resolver(&mut self, state: StateKey, resolver: R)
        ensures
            final(self)@ == (SystemView {
                resolver: old(self)@.resolver.insert(state, resolver),
                ..old(self)@
            }),
    ;

    /// Makes `system` the delegation target of `state`, in place of any
    /// earlier one.
    fn set_subsystem(&mut self, state: StateKey, system: SystemId)
        ensures
            final(self)@ == (SystemView {
                sub_system: old(self)@.sub_system.insert(state, system),
                ..old(self)@
            }),
    ;

    /// The child that is authoritative in the current state, if any.
    fn get_subsystem_of_state(&self) -> (child: Option<SystemId>)
        ensures
            child == self@.subsystem_of_state(),
    ;

    /// The drawers of the current state, in registration order; an empty
    /// slice where the state has no list.
    fn get_drawer_of_state(&self) -> (drawers: &[D])
        ensures
            drawers@ == self@.drawer_of_state(),
    ;

    /// The resolver of the current state, if any.
    fn get_resolver_of_state(&self) -> (resolver: Option<&R>)
        ensures
            resolver == (match self@.resolver_of_state() {
                Some(r) => Some(&r),
                None => None,
            }),
    ;
}

/// The local store of a system, and its resolution.
pub trait ExecSystemDeps<D, R, T>: View<V = SystemView<D, R, T>> {
    /// Stores `item` under `key` in the local store and hands back the
    /// dependency it replaced, if there was one.
    fn add_local(&mut self, key: TypeKey, item: Dependency<T>) -> (prev: Option<Dependency<T>>)
        ensures
            final(self)@ == (SystemView {
                local: old(self)@.local.insert(key, item),
                ..old(self)@
            }),
            prev == held(old(self)@.local, key),
    ;

    /// The dependency under `key` in the local store.
    fn get_local(&self, key: TypeKey) -> (found: Result<Dependency<T>, MissingDependency>)
        ensures
            found == lookup(self@.local, key),
    ;

    /// Resolves once: the resolver of the current state decides on `input`
    /// and `update`, its decision is committed as the current state, and the
    /// answer is `Ready` exactly when that state is the terminal one. Without
    /// a resolver for the current state nothing changes and the call fails.
    fn run<I, U>(
        &mut self,
        input: &Option<I>,
        update: &Option<U>,
        global: &mut DependencyMap<T>,
    ) -> (outcome: Result<RunState, StepError>) where R: Resolver<I, U, T>
        ensures
            match old(self)@.run(*input, *update, old(global)@) {
                Ok(ran) => {
                    &&& outcome == Ok::<_, StepError>(ran.outcome)
                    &&& final(self)@ == ran.system
                    &&& final(global)@ == ran.global
                },
                Err(e) => {
                    &&& outcome == Err::<RunState, _>(e)
                    &&& final(self)@ == old(self)@
                    &&& final(global)@ == old(global)@
                },
            },
    ;
}

/// Everything a system does.
pub trait ExecSystem<D, R, T>: ExecSystemLocals<D, R, T> + ExecSystemDeps<D, R, T> {

}

impl<D, R, T, S: ExecSystemLocals<D, R, T> + ExecSystemDeps<D, R, T>> ExecSystem<D, R, T> for S {

}

impl<D, R, T> System<D, R, T> {
    /// A system in state `istate` with terminal state `estate`, empty
    /// registries and an empty local store.
    pub fn new(id: SystemId, istate: StateKey, estate: StateKey) -> (system: Self)
        ensures
            system@ == (SystemView::<D, R, T> {
                id,
                state: istate,
                estate,
                drawer: Map::empty(),
                local: Map::empty(),
                sub_system: Map::empty(),
                resolver: Map::empty(),
            }),
    {
        let system = System {
            id,
            state: istate,
            estate,
            drawer: Table::new(),
            local: DependencyMap::new(),
            sub_system: Table::new(),
            resolver: Table::new(),
        };
        assert(system@.drawer =~= Map::empty());
        system
    }

    /// Declares `state`: gives it an empty list of drawers, unless it has a
    /// list already.
    pub fn declare_state(&mut self, state: StateKey)
        ensures
            final(self)@ == (if old(self)@.drawer.contains_key(state) {
                old(self)@
            } else {
                SystemView { drawer: old(self)@.drawer.insert(state, Seq::empty()), ..old(self)@ }
            }),
    {
        if !self.drawer.contains_key(state) {
            self.drawer.insert(state, Vec::new());
            assert(final(self)@.drawer =~= old(self)@.drawer.insert(state, Seq::empty()));
        }
    }

}

impl<D, R, T> ExecSystemLocals<D, R, T> for System<D, R, T> {
    fn add_drawer(&mut self, state: StateKey, drawer: D) {
        match self.drawer.remove(state) {
            Some(list) => {
                let mut list = list;
                list.push(drawer);
                self.drawer.insert(state, list);
                assert(final(self)@.drawer =~= old(self)@.drawer.insert(
                    state,
                    old(self)@.drawer[state].push(drawer),
                ));
            },
            None => {
                assert(final(self)@.drawer =~= old(self)@.drawer);
            },
        }
    }

    fn set_resolver(&mut self, state: StateKey, resolver: R) {
        self.resolver.insert(state, resolver);
    }

    fn set_subsystem(&mut self, state: StateKey, system: SystemId) {
        self.sub_system.insert(state, system);
    }

    fn get_subsystem_of_state(&self) -> (child: Option<SystemId>) {
        match self.sub_system.get(self.state) {
            Some(id) => Some(*id),
            None => None,
        }
    }

    fn get_drawer_of_state(&self) -> (drawers: &[D]) {
        match self.drawer.get(self.state) {
            Some(list) => list.as_slice(),
            None => &[],
        }
    }

    fn get_resolver_of_state(&self) -> (resolver: Option<&R>) {
        self.resolver.get(self.state)
    }
}

impl<D, R, T> ExecSystemDeps<D, R, T> for System<D, R, T> {
    fn add_local(&mut self, key: TypeKey, item: Dependency<T>) -> (prev: Option<Dependency<T>>) {
        self.local.insert(key, item)
    }

    fn get_local(&self, key: TypeKey) -> (found: Result<Dependency<T>, MissingDependency>) {
        self.local.get(key)
    }

    fn run<I, U>(
        &mut self,
        input: &Option<I>,
        update: &Option<U>,
        global: &mut DependencyMap<T>,
    ) -> (outcome: Result<RunState, StepError>) where R: Resolver<I, U, T> {
        match self.resolver.get(self.state) {
            Some(resolver) => {
                let next = resolver.resolve(self.state, input, update, &mut self.local, global);
                self.state = next;
                if next == self.estate {
                    Ok(RunState::Ready)
                } else {
                    Ok(RunState::Tick)
                }
            },
            None => Err(StepError::UnresolvableState { system: self.id, state: self.state }),
        }
    }
}

} // verus!
