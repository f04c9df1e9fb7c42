use teleconsole::di::{Dependency, DependencyMap};
use teleconsole::ecs::state::StateKey;
use teleconsole::ecs::step::{bubble, descend, render, step};
use teleconsole::ecs::{
    ArgumenDrawer, Drawer, ExecSystemDeps, ExecSystemLocals, Hold, Resolver, RunState, StepError,
    System, SystemId, SystemList, ROOT,
};
use teleconsole::systems::login::DrawLogin;
use teleconsole::table::Table;

const START: StateKey = 10;
const DONE: StateKey = 11;
const A: StateKey = 20;
const B: StateKey = 21;

const CHILD: SystemId = 7;
const COUNT: u64 = 1;
const CHILD_DONE: u64 = 2;

/// Writes its tag, and what it was shown, onto the frame.
struct Stamp(u32);

impl Drawer<char, u8, u32, Vec<String>> for Stamp {
    fn draw(&self, frame: &mut Vec<String>, args: ArgumenDrawer<'_, char, u8, u32>) {
        frame.push(format!("{}:{:?}:{:?}", self.0, args.inputs, args.events));
    }
}

enum Rule {
    /// Counts the events it sees in the local store; moves to `B` on the
    /// third, and then tells the shared store.
    CountToThree,
    /// Moves to `DONE` once the shared store says the child is done.
    WaitForChild,
    /// Goes to the given state, whatever happens.
    Goto(StateKey),
    /// Goes to the state named by the input character's digit.
    FollowInput,
}

impl Resolver<char, u8, u32> for Rule {
    fn resolve(
        &self,
        state: StateKey,
        input: &Option<char>,
        _update: &Option<u8>,
        local: &mut DependencyMap<u32>,
        global: &mut DependencyMap<u32>,
    ) -> StateKey {
        match self {
            Rule::CountToThree => {
                let seen = match local.get(COUNT) {
                    Ok(dep) => *dep.inner() + 1,
                    Err(_) => 1,
                };
                local.insert(COUNT, Dependency::new(seen));
                if seen >= 3 {
                    global.insert(CHILD_DONE, Dependency::new(1));
                    B
                } else {
                    A
                }
            }
            Rule::WaitForChild => {
                if global.get(CHILD_DONE).is_ok() {
                    DONE
                } else {
                    state
                }
            }
            Rule::Goto(next) => *next,
            Rule::FollowInput => match input {
                Some(c) => c.to_digit(10).map(|d| d as u64).unwrap_or(state),
                None => state,
            },
        }
    }
}

type Registry = SystemList<Stamp, Rule, u32>;

fn two_level() -> Registry {
    let mut root: System<Stamp, Rule, u32> = System::new(ROOT, START, DONE);
    root.set_subsystem(START, CHILD);
    root.set_resolver(START, Rule::WaitForChild);
    let mut child: System<Stamp, Rule, u32> = System::new(CHILD, A, B);
    child.declare_state(A);
    child.add_drawer(A, Stamp(1));
    child.add_drawer(A, Stamp(2));
    child.add_drawer(A, Stamp(3));
    child.set_resolver(A, Rule::CountToThree);
    let mut systems: Registry = Table::new();
    systems.insert(ROOT, root);
    systems.insert(CHILD, child);
    systems
}

#[test]
fn child_completion_bubbles_into_root_on_third_event() {
    let mut systems = two_level();
    let mut global = DependencyMap::new();
    let mut frame: Vec<String> = Vec::new();

    assert_eq!(step(&mut frame, &mut systems, &mut global, Some('x'), None), Ok(true));
    assert_eq!(systems.get(CHILD).unwrap().state, A);
    assert_eq!(systems.get(ROOT).unwrap().state, START);

    assert_eq!(step(&mut frame, &mut systems, &mut global, Some('y'), None), Ok(true));
    assert_eq!(systems.get(CHILD).unwrap().state, A);
    assert_eq!(systems.get(ROOT).unwrap().state, START);

    assert_eq!(step(&mut frame, &mut systems, &mut global, Some('z'), None), Ok(false));
    assert_eq!(systems.get(CHILD).unwrap().state, B);
    assert_eq!(systems.get(ROOT).unwrap().state, DONE);
}

#[test]
fn drawers_draw_in_registration_order_every_time() {
    let mut systems = two_level();
    let mut global = DependencyMap::new();
    let mut frame: Vec<String> = Vec::new();
    step(&mut frame, &mut systems, &mut global, Some('x'), None).unwrap();
    assert_eq!(
        frame,
        vec![
            "1:Some('x'):None".to_string(),
            "2:Some('x'):None".to_string(),
            "3:Some('x'):None".to_string()
        ]
    );
    frame.clear();
    step(&mut frame, &mut systems, &mut global, None, Some(9)).unwrap();
    assert_eq!(
        frame,
        vec![
            "1:None:Some(9)".to_string(),
            "2:None:Some(9)".to_string(),
            "3:None:Some(9)".to_string()
        ]
    );
}

#[test]
fn render_calls_each_drawer_once_in_order() {
    let drawers = vec![Stamp(3), Stamp(1), Stamp(2)];
    let local = DependencyMap::new();
    let global = DependencyMap::new();
    let mut frame: Vec<String> = vec!["before".to_string()];
    render(&mut frame, &drawers, &Some('k'), &None, &local, &global);
    assert_eq!(
        frame,
        vec![
            "before".to_string(),
            "3:Some('k'):None".to_string(),
            "1:Some('k'):None".to_string(),
            "2:Some('k'):None".to_string()
        ]
    );
}

#[test]
fn idle_step_still_renders_and_resolves() {
    let mut systems = two_level();
    let mut global = DependencyMap::new();
    let mut frame: Vec<String> = Vec::new();
    assert_eq!(step(&mut frame, &mut systems, &mut global, None, None), Ok(true));
    assert_eq!(frame.len(), 3);
    assert_eq!(frame[0], "1:None:None");
    // the resolver ran: it counted the pass
    let child = systems.get(CHILD).unwrap();
    assert_eq!(*child.get_local(COUNT).unwrap().inner(), 1);
    assert_eq!(child.state, A);
}

#[test]
fn step_with_input_only_shows_only_the_input() {
    let mut root: System<Stamp, Rule, u32> = System::new(ROOT, 1, 9);
    root.declare_state(1);
    root.add_drawer(1, Stamp(5));
    root.set_resolver(1, Rule::FollowInput);
    let mut systems: Registry = Table::new();
    systems.insert(ROOT, root);
    let mut global = DependencyMap::new();
    let mut frame: Vec<String> = Vec::new();
    assert_eq!(step(&mut frame, &mut systems, &mut global, Some('4'), None), Ok(false));
    assert_eq!(frame, vec!["5:Some('4'):None".to_string()]);
    assert_eq!(systems.get(ROOT).unwrap().state, 4);
}

#[test]
fn run_commits_the_decision_and_reports_ready_on_the_terminal_state() {
    let mut system: System<Stamp, Rule, u32> = System::new(3, 1, 2);
    system.set_resolver(1, Rule::Goto(5));
    system.set_resolver(5, Rule::Goto(2));
    let mut global = DependencyMap::new();
    assert_eq!(system.run(&Some('a'), &None, &mut global), Ok(RunState::Tick));
    assert_eq!(system.state, 5);
    assert_eq!(system.run(&Some('a'), &None, &mut global), Ok(RunState::Ready));
    assert_eq!(system.state, 2);
}

#[test]
fn run_is_deterministic() {
    let mut global_a = DependencyMap::new();
    let mut global_b = DependencyMap::new();
    let mut a: System<Stamp, Rule, u32> = System::new(3, 1, 2);
    a.set_resolver(1, Rule::FollowInput);
    let mut b: System<Stamp, Rule, u32> = System::new(3, 1, 2);
    b.set_resolver(1, Rule::FollowInput);
    let ra = a.run(&Some('2'), &Some(4), &mut global_a);
    let rb = b.run(&Some('2'), &Some(4), &mut global_b);
    assert_eq!(ra, Ok(RunState::Ready));
    assert_eq!(ra, rb);
    assert_eq!(a.state, b.state);
}

#[test]
fn run_without_resolver_is_unresolvable() {
    let mut system: System<Stamp, Rule, u32> = System::new(3, 1, 2);
    system.set_resolver(4, Rule::Goto(5));
    let mut global = DependencyMap::new();
    assert_eq!(
        system.run(&None, &None, &mut global),
        Err(StepError::UnresolvableState { system: 3, state: 1 })
    );
    assert_eq!(system.state, 1);
}

#[test]
fn step_on_leaf_without_resolver_fails_after_rendering() {
    let mut root: System<Stamp, Rule, u32> = System::new(ROOT, 1, 9);
    root.declare_state(1);
    root.add_drawer(1, Stamp(8));
    let mut systems: Registry = Table::new();
    systems.insert(ROOT, root);
    let mut global = DependencyMap::new();
    let mut frame: Vec<String> = Vec::new();
    assert_eq!(
        step(&mut frame, &mut systems, &mut global, Some('q'), None),
        Err(StepError::UnresolvableState { system: ROOT, state: 1 })
    );
    assert_eq!(frame.len(), 1);
}

#[test]
fn step_without_root_is_refused() {
    let mut systems: Registry = Table::new();
    systems.insert(CHILD, System::new(CHILD, A, B));
    let mut global = DependencyMap::new();
    let mut frame: Vec<String> = Vec::new();
    assert_eq!(
        step(&mut frame, &mut systems, &mut global, Some('q'), None),
        Err(StepError::UnknownSystem { system: ROOT })
    );
    assert!(frame.is_empty());
}

#[test]
fn dangling_link_is_refused() {
    let mut root: System<Stamp, Rule, u32> = System::new(ROOT, START, DONE);
    root.set_subsystem(START, 99);
    let mut systems: Registry = Table::new();
    systems.insert(ROOT, root);
    assert_eq!(descend(&systems), Err(StepError::UnknownSystem { system: 99 }));
}

#[test]
fn cycle_of_links_is_refused() {
    let mut root: System<Stamp, Rule, u32> = System::new(ROOT, START, DONE);
    root.set_subsystem(START, CHILD);
    let mut child: System<Stamp, Rule, u32> = System::new(CHILD, A, B);
    child.set_subsystem(A, ROOT);
    let mut systems: Registry = Table::new();
    systems.insert(ROOT, root);
    systems.insert(CHILD, child);
    assert_eq!(descend(&systems), Err(StepError::DelegationCycle));
    let mut global = DependencyMap::new();
    let mut frame: Vec<String> = Vec::new();
    assert_eq!(
        step(&mut frame, &mut systems, &mut global, None, None),
        Err(StepError::DelegationCycle)
    );
}

#[test]
fn descend_finds_the_chain_from_root_to_leaf() {
    let mut systems = two_level();
    assert_eq!(descend(&systems), Ok(vec![ROOT, CHILD]));
    // the tree follows the current states
    let mut root = systems.remove(ROOT).unwrap();
    root.state = DONE;
    systems.insert(ROOT, root);
    assert_eq!(descend(&systems), Ok(vec![ROOT]));
}

#[test]
fn bubble_stops_at_the_first_tick() {
    let mut systems: Registry = Table::new();
    let mut top: System<Stamp, Rule, u32> = System::new(ROOT, 1, 2);
    top.set_resolver(1, Rule::Goto(2));
    let mut middle: System<Stamp, Rule, u32> = System::new(1, 1, 2);
    middle.set_resolver(1, Rule::Goto(3));
    let mut leaf: System<Stamp, Rule, u32> = System::new(2, 1, 2);
    leaf.set_resolver(1, Rule::Goto(2));
    systems.insert(ROOT, top);
    systems.insert(1, middle);
    systems.insert(2, leaf);
    let mut global = DependencyMap::new();
    let result = bubble(&mut systems, &mut global, vec![ROOT, 1, 2], &Some('e'), &None);
    assert_eq!(result, Ok(true));
    assert_eq!(systems.get(2).unwrap().state, 2);
    assert_eq!(systems.get(1).unwrap().state, 3);
    assert_eq!(systems.get(ROOT).unwrap().state, 1);
}

#[test]
fn bubble_through_the_root_reports_completion() {
    let mut systems: Registry = Table::new();
    let mut top: System<Stamp, Rule, u32> = System::new(ROOT, 1, 2);
    top.set_resolver(1, Rule::Goto(2));
    let mut leaf: System<Stamp, Rule, u32> = System::new(2, 1, 2);
    leaf.set_resolver(1, Rule::Goto(2));
    systems.insert(ROOT, top);
    systems.insert(2, leaf);
    let mut global = DependencyMap::new();
    assert_eq!(bubble(&mut systems, &mut global, vec![ROOT, 2], &None, &Some(1)), Ok(false));
    assert_eq!(systems.get(ROOT).unwrap().state, 2);
    assert_eq!(bubble(&mut systems, &mut global, Vec::new(), &None, &Some(1)), Ok(false));
}

#[test]
fn add_drawer_to_undeclared_state_changes_nothing() {
    let mut system: System<Stamp, Rule, u32> = System::new(3, 1, 2);
    system.add_drawer(1, Stamp(1));
    assert!(system.get_drawer_of_state().is_empty());
    assert!(!system.drawer.contains_key(1));
    system.declare_state(1);
    system.add_drawer(1, Stamp(4));
    system.add_drawer(1, Stamp(6));
    system.declare_state(1);
    let tags: Vec<u32> = system.get_drawer_of_state().iter().map(|d| d.0).collect();
    assert_eq!(tags, vec![4, 6]);
}

#[test]
fn lookups_follow_the_current_state() {
    let mut system: System<Stamp, Rule, u32> = System::new(3, 1, 2);
    system.set_subsystem(1, 40);
    system.set_subsystem(1, 41);
    system.set_resolver(2, Rule::Goto(1));
    assert_eq!(system.get_subsystem_of_state(), Some(41));
    assert!(system.get_resolver_of_state().is_none());
    system.state = 2;
    assert_eq!(system.get_subsystem_of_state(), None);
    assert!(system.get_resolver_of_state().is_some());
}

#[test]
fn local_store_of_a_system() {
    let mut system: System<Stamp, Rule, u32> = System::new(3, 1, 2);
    assert!(system.add_local(5, Dependency::new(50)).is_none());
    let prev = system.add_local(5, Dependency::new(51)).unwrap();
    assert_eq!(*prev.inner(), 50);
    assert_eq!(*system.get_local(5).unwrap().inner(), 51);
    assert_eq!(system.get_local(6).err().map(|e| e.key), Some(6));
}

#[test]
fn hold_stays_and_ticks() {
    let mut system: System<Stamp, Hold, u32> = System::new(3, 1, 2);
    system.set_resolver(1, Hold {});
    system.add_local(9, Dependency::new(90));
    let mut global: DependencyMap<u32> = DependencyMap::new();
    global.insert(8, Dependency::new(80));
    let outcome = system.run(&Some('a'), &Some(1u8), &mut global);
    assert_eq!(outcome, Ok(RunState::Tick));
    assert_eq!(system.state, 1);
    assert_eq!(*system.get_local(9).unwrap().inner(), 90);
    assert_eq!(*global.get(8).unwrap().inner(), 80);
    // a system that holds in its terminal state is ready
    let mut done: System<Stamp, Hold, u32> = System::new(4, 2, 2);
    done.set_resolver(2, Hold {});
    assert_eq!(done.run(&None::<char>, &None::<u8>, &mut global), Ok(RunState::Ready));
}

#[test]
fn login_drawer_leaves_the_frame_alone() {
    let local: DependencyMap<u32> = DependencyMap::new();
    let global: DependencyMap<u32> = DependencyMap::new();
    let mut frame = vec![1u8, 2, 3];
    render(&mut frame, &[DrawLogin {}, DrawLogin {}], &Some('x'), &None::<u8>, &local, &global);
    assert_eq!(frame, vec![1, 2, 3]);
}
