use frankenrust::boot::{Boot, BootEvent, BootPhase, BootStep};
use frankenrust::callbacks::mainthread::{
    go_frankenphp_main_thread_is_ready, go_frankenphp_shutdown_main_thread,
};
use frankenrust::ini::PhpIni;
use frankenrust::registry::Registry;
use frankenrust::shutdown::{Drain, DrainStep};
use frankenrust::state::{State, UnixTime};
use frankenrust::thread::{MaxThreads, ThreadError};

const NOW: UnixTime = UnixTime {
    before_epoch: false,
    secs: 1_700_000_000,
    nanos: 0,
};

fn allocated(num_threads: usize, max_threads: usize) -> Registry {
    let mut registry = Registry::new();
    registry
        .init_php_threads(num_threads, MaxThreads::Fixed(max_threads), PhpIni::new())
        .unwrap();
    go_frankenphp_main_thread_is_ready(&mut registry, 0, 0).unwrap();
    registry.allocate_threads();
    registry
}

fn states(registry: &Registry) -> Vec<State> {
    registry.php_threads().iter().map(|t| t.state()).collect()
}

fn go(boot: &mut Boot, registry: &mut Registry) -> BootStep {
    assert!(boot.fits(registry));
    boot.step(registry, BootEvent::Go)
}

/// Drains what was started, as the interpreter's threads end at once when told to.
fn roll_back(registry: &mut Registry) {
    let mut drain = Drain::begin(registry);
    for _ in 0..100 {
        match drain.step(registry, false) {
            DrainStep::Await { thread_index, .. }
            | DrainStep::AwaitUntilDeadline { thread_index, .. } => {
                registry.threads[thread_index].on_thread_shutdown()
            }
            DrainStep::AwaitMain(_) => go_frankenphp_shutdown_main_thread(registry).unwrap(),
            DrainStep::Finished { destroy_metrics } => {
                assert!(destroy_metrics);
                return;
            }
            _ => {}
        }
    }
    panic!("the drain does not end");
}

#[test]
fn threads_start_one_after_another() {
    let mut registry = allocated(2, 4);
    let mut boot = Boot::begin(&registry).expect("the registry is fresh");
    assert_eq!(boot.num_threads, 2);

    assert_eq!(go(&mut boot, &mut registry), BootStep::Launch(0));
    assert_eq!(registry.threads[0].state(), State::Booting);
    assert_eq!(go(&mut boot, &mut registry), BootStep::Launching(0));

    let ticket = match boot.step(&mut registry, BootEvent::Launched(true)) {
        BootStep::Await {
            thread_index: 0,
            ticket,
        } => ticket,
        other => panic!("{other:?}"),
    };
    assert!(registry.threads[0].is_pending(ticket));
    assert!(matches!(
        go(&mut boot, &mut registry),
        BootStep::Await {
            thread_index: 0,
            ..
        }
    ));
    assert_eq!(registry.threads[1].state(), State::Reserved);

    registry.threads[0].before_script_execution(NOW);
    assert!(!registry.threads[0].is_pending(ticket));
    assert_eq!(go(&mut boot, &mut registry), BootStep::Launch(1));
    registry.threads[1].before_script_execution(NOW);
    assert_eq!(
        boot.step(&mut registry, BootEvent::Launched(true)),
        BootStep::Again
    );
    assert_eq!(go(&mut boot, &mut registry), BootStep::Finished);
    assert_eq!(
        states(&registry),
        [
            State::Inactive,
            State::Inactive,
            State::Reserved,
            State::Reserved
        ]
    );
    assert_eq!(registry.main_thread().unwrap().max_threads(), 4);
    assert!(registry.threads[3].is_unused(3));
}

#[test]
fn a_thread_that_cannot_be_launched_rolls_the_start_back() {
    let mut registry = allocated(3, 3);
    let mut boot = Boot::begin(&registry).unwrap();
    assert_eq!(go(&mut boot, &mut registry), BootStep::Launch(0));
    registry.threads[0].before_script_execution(NOW);
    assert_eq!(
        boot.step(&mut registry, BootEvent::Launched(true)),
        BootStep::Again
    );
    assert_eq!(go(&mut boot, &mut registry), BootStep::Launch(1));

    let error = ThreadError::PhpThreadCreation { thread_index: 1 };
    assert_eq!(
        boot.step(&mut registry, BootEvent::Launched(false)),
        BootStep::RollBack(error)
    );
    assert_eq!(boot.phase, BootPhase::Failed(error));
    assert_eq!(
        states(&registry),
        [State::Inactive, State::Reserved, State::Reserved]
    );
    for event in [
        BootEvent::Go,
        BootEvent::Launched(true),
        BootEvent::Launched(false),
    ] {
        assert_eq!(
            boot.step(&mut registry, event),
            BootStep::RollBack(error)
        );
    }
    assert_eq!(registry.threads[2].state(), State::Reserved);

    roll_back(&mut registry);
    assert!(registry.main_thread().is_none());
    assert!(registry.php_threads().is_empty());
    assert!(registry
        .init_php_threads(1, MaxThreads::Fixed(1), PhpIni::new())
        .is_ok());
}

#[test]
fn a_thread_in_use_cannot_be_started() {
    let mut registry = allocated(1, 1);
    registry.threads[0].begin_boot().unwrap();
    let mut boot = Boot::begin(&registry).unwrap();
    assert_eq!(
        go(&mut boot, &mut registry),
        BootStep::RollBack(ThreadError::InvalidBootState {
            thread_index: 0,
            state: State::Booting
        })
    );
    assert_eq!(registry.threads[0].state(), State::Booting);
}

#[test]
fn without_threads_to_start_the_start_is_over_at_once() {
    let mut registry = allocated(0, 1);
    let mut boot = Boot::begin(&registry).unwrap();
    assert_eq!(go(&mut boot, &mut registry), BootStep::Finished);
    assert_eq!(states(&registry), [State::Reserved]);
}

#[test]
fn a_low_limit_is_raised_to_the_number_of_threads() {
    let registry = allocated(3, 1);
    assert_eq!(registry.main_thread().unwrap().max_threads(), 3);
    assert_eq!(registry.php_threads().len(), 3);
    assert_eq!(Boot::begin(&registry).unwrap().num_threads, 3);
}

#[test]
fn a_start_needs_a_main_thread_and_unused_threads() {
    assert!(Boot::begin(&Registry::new()).is_none());

    let mut registry = allocated(1, 2);
    let boot = Boot::begin(&registry).unwrap();
    registry.threads[1].request_boot();
    assert!(Boot::begin(&registry).is_none());
    assert!(!boot.fits(&registry));
}
