//! The scheduler: one pass over the chain of systems that is active.

use crate::di::DependencyMap;
use crate::ecs::{
    ArgumenDrawer, Deps, Drawer, ExecSystemDeps, ExecSystemLocals, Resolver, RunState, StepError,
    System, SystemId, SystemList, SystemView, ROOT,
};
use vstd::prelude::*;

verus! {

/// The systems of a registry, as contracts see them.
pub type World<D, R, T> = Map<SystemId, SystemView<D, R, T>>;

/// The view of a registry.
pub open spec fn world<D, R, T>(systems: SystemList<D, R, T>) -> World<D, R, T> {
    systems@.map_values(|s: System<D, R, T>| s@)
}

/// `below`, if there is one, under the ids of `above`.
pub open spec fn under(above: Seq<SystemId>, below: Result<Seq<SystemId>, StepError>) -> Result<
    Seq<SystemId>,
    StepError,
> {
    match below {
        Ok(ids) => Ok(above + ids),
        Err(e) => Err(e),
    }
}

/// The chain of delegation that starts at `from`: `from` itself, then the
/// child that its current state delegates to, and so on down to the first
/// system whose current state delegates to nobody. The chain may visit
/// `budget` systems; one that would visit more does not end, and is refused.
pub open spec fn chain<D, R, T>(world: World<D, R, T>, from: SystemId, budget: nat) -> Result<
    Seq<SystemId>,
    StepError,
>
    decreases budget,
{
    if !world.contains_key(from) {
        Err(StepError::UnknownSystem { system: from })
    } else if budget == 0 {
        Err(StepError::DelegationCycle)
    } else {
        match world[from].subsystem_of_state() {
            None => Ok(seq![from]),
            Some(child) => under(seq![from], chain(world, child, (budget - 1) as nat)),
        }
    }
}

/// The frame after each of `drawers` has drawn onto it, first to last.
pub open spec fn rendered<I, U, T, F, D: Drawer<I, U, T, F>>(
    drawers: Seq<D>,
    frame: F,
    input: Option<I>,
    update: Option<U>,
    local: Deps<T>,
    global: Deps<T>,
) -> F
    decreases drawers.len(),
{
    if drawers.len() == 0 {
        frame
    } else {
        drawers.last().drawn(
            rendered(drawers.drop_last(), frame, input, update, local, global),
            input,
            update,
            local,
            global,
        )
    }
}

/// The registry and the shared store after bubbling, and what the pass
/// reports.
pub struct Settled<D, R, T> {
    pub world: World<D, R, T>,
    pub global: Deps<T>,
    pub result: Result<bool, StepError>,
}

/// Resolution from the last system of `stack` upwards. The last system
/// resolves; on `Tick` the pass is over, and it reports whether systems are
/// left above the one that ticked; on `Ready` the system above resolves in
/// turn, on the same input and update. When the first system of the stack has
/// been `Ready` too, nothing is left and the pass reports completion.
pub open spec fn bubbled<I, U, D, R: Resolver<I, U, T>, T>(
    world: World<D, R, T>,
    global: Deps<T>,
    stack: Seq<SystemId>,
    input: Option<I>,
    update: Option<U>,
) -> Settled<D, R, T>
    decreases stack.len(),
{
    if stack.len() == 0 {
        Settled { world, global, result: Ok(false) }
    } else if !world.contains_key(stack.last()) {
        Settled { world, global, result: Err(StepError::UnknownSystem { system: stack.last() }) }
    } else {
        match world[stack.last()].run(input, update, global) {
            Err(e) => Settled { world, global, result: Err(e) },
            Ok(ran) => match ran.outcome {
                RunState::Tick => Settled {
                    world: world.insert(stack.last(), ran.system),
                    global: ran.global,
                    result: Ok(stack.len() > 1),
                },
                RunState::Ready => bubbled(
                    world.insert(stack.last(), ran.system),
                    ran.global,
                    stack.drop_last(),
                    input,
                    update,
                ),
            },
        }
    }
}

/// Everything one pass leaves behind.
pub struct Pass<D, R, T, F> {
    pub world: World<D, R, T>,
    pub global: Deps<T>,
    pub frame: F,
    pub result: Result<bool, StepError>,
}

/// One scheduling pass: the chain from the root is found, the drawers of its
/// last system, the leaf, draw in registration order, and resolution bubbles
/// up from the leaf. Drawers and resolvers all see the one input and the one
/// update that the pass was given.
pub open spec fn stepped<I, U, T, F, D: Drawer<I, U, T, F>, R: Resolver<I, U, T>>(
    world: World<D, R, T>,
    global: Deps<T>,
    frame: F,
    input: Option<I>,
    update: Option<U>,
) -> Pass<D, R, T, F> {
    match chain(world, ROOT, world.len()) {
        Err(e) => Pass { world, global, frame, result: Err(e) },
        Ok(stack) => {
            let leaf = world[stack.last()];
            let settled = bubbled(world, global, stack, input, update);
            Pass {
                world: settled.world,
                global: settled.global,
                frame: rendered(leaf.drawer_of_state(), frame, input, update, leaf.local, global),
                result: settled.result,
            }
        },
    }
}

/// A chain that ends visits at least its first system and at most `budget`
/// systems, all of them registered.
pub proof fn lemma_chain_registered<D, R, T>(world: World<D, R, T>, from: SystemId, budget: nat)
    ensures
        chain(world, from, budget) matches Ok(ids) ==> {
            &&& 1 <= ids.len() <= budget
            &&& ids[0] == from
            &&& forall|i: int| 0 <= i < ids.len() ==> world.contains_key(#[trigger] ids[i])
            &&& world[ids.last()].subsystem_of_state() is None
        },
    decreases budget,
{
    if world.contains_key(from) && budget > 0 {
        match world[from].subsystem_of_state() {
            None => {},
            Some(child) => {
                lemma_chain_registered(world, child, (budget - 1) as nat);
            },
        }
    }
}

/// How many systems resolve when resolution bubbles up from the last system
/// of `stack`.
pub open spec fn resolutions<I, U, D, R: Resolver<I, U, T>, T>(
    world: World<D, R, T>,
    global: Deps<T>,
    stack: Seq<SystemId>,
    input: Option<I>,
    update: Option<U>,
) -> nat
    decreases stack.len(),
{
    if stack.len() == 0 || !world.contains_key(stack.last()) {
        0
    } else {
        match world[stack.last()].run(input, update, global) {
            Err(e) => 0,
            Ok(ran) => match ran.outcome {
                RunState::Tick => 1,
                RunState::Ready => 1 + resolutions(
                    world.insert(stack.last(), ran.system),
                    ran.global,
                    stack.drop_last(),
                    input,
                    update,
                ),
            },
        }
    }
}

/// Drawers draw in registration order: of three drawers, the second draws
/// onto what the first left and the third onto what the second left.
pub proof fn theorem_drawers_draw_in_order<I, U, T, F, D: Drawer<I, U, T, F>>(
    d1: D,
    d2: D,
    d3: D,
    frame: F,
    input: Option<I>,
    update: Option<U>,
    local: Deps<T>,
    global: Deps<T>,
)
    ensures
        rendered(seq![d1, d2, d3], frame, input, update, local, global) == d3.drawn(
            d2.drawn(d1.drawn(frame, input, update, local, global), input, update, local, global),
            input,
            update,
            local,
            global,
        ),
{
    let all = seq![d1, d2, d3];
    assert(all.drop_last() =~= seq![d1, d2]);
    assert(seq![d1, d2].drop_last() =~= seq![d1]);
    assert(seq![d1].drop_last() =~= Seq::<D>::empty());
    reveal_with_fuel(rendered, 4);
}

/// Rendering one list after another is rendering the two as one list.
pub proof fn theorem_render_in_sequence<I, U, T, F, D: Drawer<I, U, T, F>>(
    first: Seq<D>,
    second: Seq<D>,
    frame: F,
    input: Option<I>,
    update: Option<U>,
    local: Deps<T>,
    global: Deps<T>,
)
    ensures
        rendered(first + second, frame, input, update, local, global) == rendered(
            second,
            rendered(first, frame, input, update, local, global),
            input,
            update,
            local,
            global,
        ),
    decreases second.len(),
{
    if second.len() == 0 {
        assert(first + second =~= first);
    } else {
        theorem_render_in_sequence(
            first,
            second.drop_last(),
            frame,
            input,
            update,
            local,
            global,
        );
        assert((first + second).drop_last() =~= first + second.drop_last());
    }
}

/// Drawers registered one after another for a declared state are that
/// state's drawers, in that order, after those it had before.
pub proof fn theorem_registration_order_is_kept<D, R, T>(
    system: SystemView<D, R, T>,
    d1: D,
    d2: D,
    d3: D,
)
    requires
        system.drawer.contains_key(system.state),
    ensures
        system.with_drawer(system.state, d1).with_drawer(system.state, d2).with_drawer(
            system.state,
            d3,
        ).drawer_of_state() == system.drawer_of_state() + seq![d1, d2, d3],
{
    let s = system.state;
    assert(system.drawer[s].push(d1).push(d2).push(d3) =~= system.drawer[s] + seq![d1, d2, d3]);
}

/// A resolution is a function of the system, the input, the update and the
/// shared store: systems that look alike, run on the same input and update
/// over stores that hold the same, end alike.
pub proof fn theorem_run_is_deterministic<I, U, D, R: Resolver<I, U, T>, T>(
    a: System<D, R, T>,
    b: System<D, R, T>,
    global_a: DependencyMap<T>,
    global_b: DependencyMap<T>,
    input: Option<I>,
    update: Option<U>,
)
    requires
        a@ == b@,
        global_a@ == global_b@,
    ensures
        a@.run(input, update, global_a@) == b@.run(input, update, global_b@),
{
}

/// A pass ends: bubbling resolves each system of the stack at most once. It
/// reports that the application goes on exactly when it stopped at a tick
/// below the first system of the stack, and that it is complete exactly when
/// every system of the stack has resolved. Systems outside the stack are left
/// as they were.
pub proof fn theorem_bubbling_settles<I, U, D, R: Resolver<I, U, T>, T>(
    world: World<D, R, T>,
    global: Deps<T>,
    stack: Seq<SystemId>,
    input: Option<I>,
    update: Option<U>,
)
    ensures
        resolutions(world, global, stack, input, update) <= stack.len(),
        bubbled(world, global, stack, input, update).result == Ok::<bool, StepError>(true) ==> 1
            <= resolutions(world, global, stack, input, update) < stack.len(),
        bubbled(world, global, stack, input, update).result == Ok::<bool, StepError>(false)
            ==> resolutions(world, global, stack, input, update) == stack.len(),
        bubbled(world, global, stack, input, update).world.dom() == world.dom(),
        forall|id: SystemId|
            world.contains_key(id) && !stack.contains(id) ==> #[trigger] bubbled(
                world,
                global,
                stack,
                input,
                update,
            ).world[id] == world[id],
    decreases stack.len(),
{
    if stack.len() > 0 && world.contains_key(stack.last()) {
        let last = stack.last();
        match world[last].run(input, update, global) {
            Err(e) => {},
            Ok(ran) => {
                let after = world.insert(last, ran.system);
                assert(after.dom() =~= world.dom());
                assert(stack.contains(last));
                match ran.outcome {
                    RunState::Tick => {},
                    RunState::Ready => {
                        theorem_bubbling_settles(
                            after,
                            ran.global,
                            stack.drop_last(),
                            input,
                            update,
                        );
                        assert forall|id: SystemId|
                            world.contains_key(id) && !stack.contains(id) implies #[trigger] bubbled(
                            world,
                            global,
                            stack,
                            input,
                            update,
                        ).world[id] == world[id] by {
                            if stack.drop_last().contains(id) {
                                let i = choose|i: int|
                                    0 <= i < stack.drop_last().len() && stack.drop_last()[i] == id;
                                assert(stack[i] == id);
                            }
                        }
                    },
                }
            },
        }
    }
}

/// A pass is driven by the one input and the one update it was given, and by
/// nothing else, also when both are absent: the leaf's drawers draw with
/// them, and the leaf's resolver decides on them. Where the leaf ticks, the
/// pass ends there.
pub proof fn theorem_pass_renders_and_resolves_leaf<
    I,
    U,
    T,
    F,
    D: Drawer<I, U, T, F>,
    R: Resolver<I, U, T>,
>(world: World<D, R, T>, global: Deps<T>, frame: F, input: Option<I>, update: Option<U>)
    requires
        chain(world, ROOT, world.len()) is Ok,
    ensures
        ({
            let stack = chain(world, ROOT, world.len())->Ok_0;
            let leaf = world[stack.last()];
            let pass = stepped(world, global, frame, input, update);
            &&& pass.frame == rendered(
                leaf.drawer_of_state(),
                frame,
                input,
                update,
                leaf.local,
                global,
            )
            &&& match leaf.run(input, update, global) {
                Err(e) => pass.result == Err::<bool, _>(e) && pass.world == world && pass.global
                    == global,
                Ok(ran) => ran.outcome == RunState::Tick ==> {
                    &&& pass.result == Ok::<bool, StepError>(stack.len() > 1)
                    &&& pass.world == world.insert(stack.last(), ran.system)
                    &&& pass.global == ran.global
                },
            }
        }),
{
    lemma_chain_registered(world, ROOT, world.len());
}

/// A chain that ends within a budget is the chain within every larger one.
pub proof fn lemma_chain_budget_monotone<D, R, T>(
    world: World<D, R, T>,
    from: SystemId,
    small: nat,
    large: nat,
)
    requires
        chain(world, from, small) is Ok,
        small <= large,
    ensures
        chain(world, from, large) == chain(world, from, small),
    decreases small,
{
    if world.contains_key(from) && small > 0 {
        match world[from].subsystem_of_state() {
            None => {},
            Some(child) => {
                lemma_chain_budget_monotone(world, child, (small - 1) as nat, (large - 1) as nat);
            },
        }
    }
}

/// A chain that ends needs no more budget than it has systems.
pub proof fn lemma_chain_tight<D, R, T>(world: World<D, R, T>, from: SystemId, budget: nat)
    ensures
        chain(world, from, budget) matches Ok(ids) ==> chain(world, from, ids.len()) == Ok::<
            _,
            StepError,
        >(ids),
    decreases budget,
{
    if world.contains_key(from) && budget > 0 {
        match world[from].subsystem_of_state() {
            None => {},
            Some(child) => {
                lemma_chain_tight(world, child, (budget - 1) as nat);
            },
        }
    }
}

/// What a chain holds from its `i`th system on is the chain that starts at
/// that system.
pub proof fn lemma_chain_suffix<D, R, T>(
    world: World<D, R, T>,
    from: SystemId,
    budget: nat,
    i: int,
)
    requires
        chain(world, from, budget) matches Ok(ids) && 0 <= i < ids.len(),
    ensures
        i < budget,
        chain(world, chain(world, from, budget)->Ok_0[i], (budget - i) as nat) == Ok::<
            _,
            StepError,
        >(chain(world, from, budget)->Ok_0.skip(i)),
    decreases i,
{
    let ids = chain(world, from, budget)->Ok_0;
    lemma_chain_registered(world, from, budget);
    if i == 0 {
        assert(ids.skip(0) =~= ids);
    } else {
        let child = world[from].subsystem_of_state()->Some_0;
        let below = chain(world, child, (budget - 1) as nat)->Ok_0;
        lemma_chain_suffix(world, child, (budget - 1) as nat, i - 1);
        assert(ids[i] == below[i - 1]);
        assert(ids.skip(i) =~= below.skip(i - 1));
    }
}

/// A chain that ends visits no system twice.
pub proof fn theorem_chain_visits_once<D, R, T>(world: World<D, R, T>, from: SystemId, budget: nat)
    ensures
        chain(world, from, budget) matches Ok(ids) ==> ids.no_duplicates(),
{
    if let Ok(ids) = chain(world, from, budget) {
        assert forall|i: int, j: int|
            0 <= i < ids.len() && 0 <= j < ids.len() && i != j implies ids[i] != ids[j] by {
            if ids[i] == ids[j] {
                let lo = if i < j {
                    i
                } else {
                    j
                };
                let hi = if i < j {
                    j
                } else {
                    i
                };
                lemma_chain_suffix(world, from, budget, lo);
                lemma_chain_suffix(world, from, budget, hi);
                lemma_chain_budget_monotone(
                    world,
                    ids[hi],
                    (budget - hi) as nat,
                    (budget - lo) as nat,
                );
                assert(ids.skip(lo).len() != ids.skip(hi).len());
            }
        }
    }
}

/// The budget of a pass, one visit for each registered system, cuts no chain
/// short: a chain that ends within any budget ends within that one. So a pass
/// is refused for a cycle only where the links do lead back into themselves.
pub proof fn theorem_budget_is_enough<D, R, T>(world: World<D, R, T>, from: SystemId, budget: nat)
    requires
        world.dom().finite(),
        chain(world, from, budget) is Ok,
    ensures
        chain(world, from, world.len()) == chain(world, from, budget),
        chain(world, from, budget)->Ok_0.len() <= world.len(),
{
    let ids = chain(world, from, budget)->Ok_0;
    theorem_chain_visits_once(world, from, budget);
    lemma_chain_registered(world, from, budget);
    ids.unique_seq_to_set();
    assert(ids.to_set().subset_of(world.dom())) by {
        assert forall|id: SystemId| ids.to_set().contains(id) implies world.dom().contains(id) by {
            let i = choose|i: int| 0 <= i < ids.len() && ids[i] == id;
            assert(world.contains_key(ids[i]));
        }
    }
    vstd::set_lib::lemma_len_subset(ids.to_set(), world.dom());
    lemma_chain_tight(world, from, budget);
    lemma_chain_budget_monotone(world, from, ids.len(), world.len());
}

/// The registry's view after `system` took the place of the entry under `id`.
proof fn lemma_world_insert<D, R, T>(
    before: SystemList<D, R, T>,
    between: SystemList<D, R, T>,
    after: SystemList<D, R, T>,
    id: SystemId,
    system: System<D, R, T>,
)
    requires
        between@ == before@.remove(id),
        after@ == between@.insert(id, system),
    ensures
        world(after) == world(before).insert(id, system@),
        world(before).dom() == before@.dom(),
{
    assert(world(after) =~= world(before).insert(id, system@));
    assert(world(before).dom() =~= before@.dom());
}

/// Finds the chain of delegation from the root down to the leaf.
pub fn descend<D, R, T>(systems: &SystemList<D, R, T>) -> (found: Result<Vec<SystemId>, StepError>)
    ensures
        match chain(world(*systems), ROOT, world(*systems).len()) {
            Ok(ids) => found matches Ok(stack) && stack@ == ids,
            Err(e) => found == Err::<Vec<SystemId>, _>(e),
        },
{
    let n = systems.len();
    let mut stack: Vec<SystemId> = Vec::new();
    let mut current: SystemId = ROOT;
    let mut budget: usize = n;
    proof {
        assert(world(*systems).dom() =~= systems@.dom());
        match chain(world(*systems), ROOT, n as nat) {
            Ok(ids) => {
                assert(Seq::<SystemId>::empty() + ids =~= ids);
            },
            Err(e) => {},
        }
    }
    loop
        invariant
            n == world(*systems).len(),
            world(*systems).dom() == systems@.dom(),
            stack.len() + budget == n,
            chain(world(*systems), ROOT, n as nat) == under(
                stack@,
                chain(world(*systems), current, budget as nat),
            ),
        decreases budget,
    {
        match systems.get(current) {
            None => {
                return Err(StepError::UnknownSystem { system: current });
            },
            Some(system) => {
                if budget == 0 {
                    return Err(StepError::DelegationCycle);
                }
                let ghost above = stack@;
                stack.push(current);
                match system.get_subsystem_of_state() {
                    None => {
                        proof {
                            assert(above + seq![current] =~= stack@);
                        }
                        return Ok(stack);
                    },
                    Some(child) => {
                        proof {
                            match chain(world(*systems), child, (budget - 1) as nat) {
                                Ok(ids) => {
                                    assert(above + (seq![current] + ids) =~= stack@ + ids);
                                },
                                Err(e) => {},
                            }
                        }
                        current = child;
                        budget = budget - 1;
                    },
                }
            },
        }
    }
}

/// Lets each of `drawers` draw onto `frame`, first to last.
pub fn render<I, U, T, F, D: Drawer<I, U, T, F>>(
    frame: &mut F,
    drawers: &[D],
    input: &Option<I>,
    update: &Option<U>,
    local: &DependencyMap<T>,
    global: &DependencyMap<T>,
)
    ensures
        *final(frame) == rendered(drawers@, *old(frame), *input, *update, local@, global@),
{
    let mut i: usize = 0;
    while i < drawers.len()
        invariant
            i <= drawers.len(),
            *frame == rendered(
                drawers@.take(i as int),
                *old(frame),
                *input,
                *update,
                local@,
                global@,
            ),
        decreases drawers.len() - i,
    {
        drawers[i].draw(frame, ArgumenDrawer { inputs: input, events: update, local, global });
        proof {
            assert(drawers@.take(i + 1).drop_last() =~= drawers@.take(i as int));
        }
        i = i + 1;
    }
    proof {
        assert(drawers@.take(i as int) =~= drawers@);
    }
}

/// Resolves the last system of `stack` and bubbles completion upwards.
pub fn bubble<I, U, D, R: Resolver<I, U, T>, T>(
    systems: &mut SystemList<D, R, T>,
    global: &mut DependencyMap<T>,
    stack: Vec<SystemId>,
    input: &Option<I>,
    update: &Option<U>,
) -> (result: Result<bool, StepError>)
    ensures
        ({
            let settled = bubbled(world(*old(systems)), old(global)@, stack@, *input, *update);
            &&& result == settled.result
            &&& world(*final(systems)) == settled.world
            &&& final(global)@ == settled.global
        }),
{
    let mut rest = stack;
    while rest.len() > 0
        invariant
            bubbled(world(*old(systems)), old(global)@, stack@, *input, *update) == bubbled(
                world(*systems),
                global@,
                rest@,
                *input,
                *update,
            ),
        decreases rest.len(),
    {
        let id = rest[rest.len() - 1];
        let ghost before = *systems;
        proof {
            assert(world(before).dom() =~= before@.dom());
        }
        match systems.remove(id) {
            None => {
                proof {
                    assert(world(*systems) =~= world(before));
                }
                return Err(StepError::UnknownSystem { system: id });
            },
            Some(system) => {
                let mut system = system;
                let ghost between = *systems;
                let outcome = system.run(input, update, global);
                systems.insert(id, system);
                proof {
                    lemma_world_insert(before, between, *systems, id, system);
                }
                match outcome {
                    Err(e) => {
                        proof {
                            assert(world(*systems) =~= world(before));
                        }
                        return Err(e);
                    },
                    Ok(RunState::Tick) => {
                        return Ok(rest.len() > 1);
                    },
                    Ok(RunState::Ready) => {
                        rest.pop();
                    },
                }
            },
        }
    }
    Ok(false)
}

/// Drives one scheduling pass on one input event and one external update, of
/// which either may be absent. Answers whether the application goes on:
/// `true` when a system below the root is waiting for the next event, `false`
/// when resolution has bubbled all the way up to the root.
pub fn step<I, U, T, F, D: Drawer<I, U, T, F>, R: Resolver<I, U, T>>(
    frame: &mut F,
    systems: &mut SystemList<D, R, T>,
    global: &mut DependencyMap<T>,
    input: Option<I>,
    update: Option<U>,
) -> (result: Result<bool, StepError>)
    ensures
        ({
            let pass = stepped(world(*old(systems)), old(global)@, *old(frame), input, update);
            &&& result == pass.result
            &&& world(*final(systems)) == pass.world
            &&& final(global)@ == pass.global
            &&& *final(frame) == pass.frame
        }),
{
    let stack = match descend(systems) {
        Ok(stack) => stack,
        Err(e) => {
            return Err(e);
        },
    };
    proof {
        lemma_chain_registered(world(*systems), ROOT, world(*systems).len());
        assert(world(*systems).dom() =~= systems@.dom());
    }
    let leaf = stack[stack.len() - 1];
    if let Some(system) = systems.get(leaf) {
        render(frame, system.get_drawer_of_state(), &input, &update, &system.local, global);
    }
    bubble(systems, global, stack, &input, &update)
}

} // verus!
