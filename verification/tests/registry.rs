use frankenrust::callbacks::mainthread::{
    go_frankenphp_main_thread_is_ready, go_frankenphp_shutdown_main_thread, go_get_custom_php_ini,
};
use frankenrust::ini::PhpIni;
use frankenrust::registry::{
    automatic_max_threads, resolve_max_threads, total_system_memory, InactivePhpThreadClaim,
    MainStart, Registry,
};
use frankenrust::state::{State, Wait};
use frankenrust::thread::{HandlerChange, MaxThreads, ThreadError};

#[test]
fn explicit_max_threads_passes_through_untouched() {
    assert_eq!(
        resolve_max_threads(2, MaxThreads::Fixed(10), -1, 0),
        10,
        "an explicit max_threads at or above num_threads must pass through unchanged"
    );
}

#[test]
fn explicit_max_threads_below_num_threads_is_still_raised() {
    assert_eq!(
        resolve_max_threads(10, MaxThreads::Fixed(3), -1, 0),
        10,
        "an explicit max_threads below num_threads must be raised to it"
    );
}

#[test]
fn automatic_max_threads_doubles_when_there_is_no_real_memory_limit() {
    assert_eq!(
        automatic_max_threads(4, 0, 1024),
        8,
        "memory_limit=0 must double num_threads"
    );
    assert_eq!(
        automatic_max_threads(4, -1, 1024),
        8,
        "memory_limit=-1 (unlimited) must double num_threads"
    );
}

#[test]
fn automatic_max_threads_doubles_when_total_memory_is_unknown() {
    assert_eq!(
        automatic_max_threads(4, 128 * 1024 * 1024, 0),
        8,
        "an undetermined total system memory (0) must double num_threads"
    );
}

#[test]
fn automatic_max_threads_divides_and_truncates() {
    assert_eq!(automatic_max_threads(1, 300, 1000), 3);
    assert_eq!(
        automatic_max_threads(1, 128 * 1024 * 1024, 1024 * 1024 * 1024),
        8
    );
}

#[test]
fn a_doubled_number_of_threads_does_not_overflow() {
    assert_eq!(automatic_max_threads(usize::MAX, 0, 0), usize::MAX);
}

#[test]
fn resolve_max_threads_raises_a_low_automatic_result_to_num_threads() {
    assert_eq!(
        resolve_max_threads(10, MaxThreads::Auto, 1_000_000, 500_000),
        10,
        "an automatic result below num_threads must be raised to it"
    );
}

#[test]
fn resolve_max_threads_auto_uses_the_automatic_result_when_it_is_higher() {
    assert_eq!(
        resolve_max_threads(1, MaxThreads::Auto, 128 * 1024 * 1024, 1024 * 1024 * 1024),
        8
    );
}

#[test]
fn total_system_memory_is_units_times_unit() {
    assert_eq!(total_system_memory(Some((16_000_000, 1024))), 16_384_000_000);
    assert_eq!(total_system_memory(Some((16_000_000, 1))), 16_000_000);
}

#[test]
fn total_system_memory_is_exactly_zero_off_linux() {
    assert_eq!(total_system_memory(None), 0);
}

fn ini(settings: &[(&str, &str)]) -> PhpIni {
    let mut ini = PhpIni::new();
    for (key, value) in settings {
        ini.insert(key, value);
    }
    ini
}

fn ready_registry(num_threads: usize, max_threads: MaxThreads) -> Registry {
    let mut registry = Registry::new();
    registry
        .init_php_threads(num_threads, max_threads, PhpIni::new())
        .unwrap();
    go_frankenphp_main_thread_is_ready(&mut registry, 0, 0).unwrap();
    registry.allocate_threads();
    registry
}

#[test]
fn custom_php_ini_uses_libc_memory_and_honors_disable_timeouts() {
    let mut registry = Registry::new();
    registry
        .init_php_threads(
            1,
            MaxThreads::Fixed(1),
            ini(&[("alpha", "one"), ("beta", "two")]),
        )
        .unwrap();

    let rendered = go_get_custom_php_ini(&mut registry, false).unwrap().unwrap();
    assert_eq!(rendered.last(), Some(&0));
    let text = String::from_utf8(rendered[..rendered.len() - 1].to_vec()).unwrap();
    let mut lines: Vec<_> = text.lines().collect();
    lines.sort_unstable();
    assert_eq!(lines, ["alpha=one", "beta=two"]);

    let rendered = go_get_custom_php_ini(&mut registry, true).unwrap().unwrap();
    let text = String::from_utf8(rendered[..rendered.len() - 1].to_vec()).unwrap();
    let lines: Vec<_> = text.lines().collect();
    assert!(lines.contains(&"max_execution_time=0"));
    assert!(lines.contains(&"max_input_time=-1"));
}

#[test]
fn switched_off_time_limits_win_over_settings() {
    let mut registry = Registry::new();
    registry
        .init_php_threads(
            1,
            MaxThreads::Auto,
            ini(&[("max_execution_time", "30"), ("a", "b")]),
        )
        .unwrap();
    let rendered = go_get_custom_php_ini(&mut registry, true).unwrap().unwrap();
    let text = String::from_utf8(rendered).unwrap();
    assert!(text.contains("max_execution_time=0"));
    assert!(!text.contains("max_execution_time=30"));
    assert!(text.contains("a=b"));

    let again = go_get_custom_php_ini(&mut registry, false).unwrap().unwrap();
    assert!(String::from_utf8(again).unwrap().contains("max_execution_time=0"));
}

#[test]
fn a_setting_is_read_back_and_replaced() {
    let mut settings = ini(&[("a", "1"), ("b", "2")]);
    assert_eq!(settings.get("a"), Some("1"));
    settings.insert("a", "3");
    assert_eq!(settings.get("a"), Some("3"));
    assert_eq!(settings.get("b"), Some("2"));
    assert_eq!(settings.get("c"), None);
}

#[test]
fn callbacks_without_a_main_thread_are_answered_by_a_line() {
    let mut registry = Registry::new();
    assert_eq!(
        go_get_custom_php_ini(&mut registry, false),
        Err("custom-php.ini callback has no installed main thread")
    );
    assert_eq!(
        go_frankenphp_main_thread_is_ready(&mut registry, 0, 0),
        Err("main-thread-ready callback has no installed registry")
    );
    assert_eq!(
        go_frankenphp_shutdown_main_thread(&mut registry),
        Err("main-thread-shutdown callback has no installed registry")
    );
}

#[test]
fn thread_counts_out_of_range_are_rejected() {
    let mut registry = Registry::new();
    let error = registry
        .init_php_threads(2, MaxThreads::Fixed(0), PhpIni::new())
        .unwrap_err();
    assert_eq!(
        error,
        ThreadError::InvalidThreadCount {
            num_threads: 2,
            max_threads: MaxThreads::Fixed(0)
        }
    );
    assert_eq!(
        error.message(),
        "invalid PHP thread counts: num_threads=2, max_threads=Fixed(0)"
    );
    let too_many = i32::MAX as usize + 1;
    assert!(registry
        .init_php_threads(too_many, MaxThreads::Auto, PhpIni::new())
        .is_err());
    assert!(registry
        .init_php_threads(1, MaxThreads::Fixed(too_many), PhpIni::new())
        .is_err());
    assert!(registry.main_thread().is_none());
}

#[test]
fn a_registry_is_initialized_once() {
    let mut registry = Registry::new();
    registry
        .init_php_threads(1, MaxThreads::Fixed(1), PhpIni::new())
        .unwrap();
    let error = registry
        .init_php_threads(1, MaxThreads::Fixed(1), PhpIni::new())
        .unwrap_err();
    assert_eq!(error, ThreadError::AlreadyInitialized);
    assert_eq!(error.message(), "PHP threads are already initialized");
    assert_eq!(registry.php_threads().len(), 1);
}

#[test]
fn every_error_has_its_message() {
    assert_eq!(
        ThreadError::InvalidThreadCount {
            num_threads: 9,
            max_threads: MaxThreads::Auto
        }
        .message(),
        "invalid PHP thread counts: num_threads=9, max_threads=Auto"
    );
    assert_eq!(
        ThreadError::MainThreadCreation { code: -1 }.message(),
        "unable to create PHP main thread (code -1)"
    );
    assert_eq!(
        ThreadError::PhpThreadCreation { thread_index: 12 }.message(),
        "unable to create PHP thread 12"
    );
    assert_eq!(
        ThreadError::InvalidBootState {
            thread_index: 3,
            state: State::Ready
        }
        .message(),
        "cannot boot PHP thread 3 from state ready"
    );
}

#[test]
fn a_main_thread_that_was_not_made_leaves_nothing_behind() {
    let mut registry = Registry::new();
    registry
        .init_php_threads(1, MaxThreads::Fixed(1), PhpIni::new())
        .unwrap();
    assert_eq!(
        registry.main_started(-1),
        MainStart::Failed(ThreadError::MainThreadCreation { code: -1 })
    );
    assert!(registry.main_thread().is_none());
    assert!(registry.php_threads().is_empty());
}

#[test]
fn a_main_thread_becomes_ready_and_makes_room() {
    let mut registry = Registry::new();
    registry
        .init_php_threads(2, MaxThreads::Auto, PhpIni::new())
        .unwrap();
    assert!(registry.main_thread().unwrap().is_automatic());
    assert_eq!(registry.main_thread().unwrap().max_threads(), 2);
    let waiting = match registry.main_started(0) {
        MainStart::Started(Wait::Pending(ticket)) => ticket,
        other => panic!("{other:?}"),
    };
    assert!(registry.main_thread().unwrap().is_pending(waiting));
    let ended = match go_frankenphp_main_thread_is_ready(&mut registry, 100, 550) {
        Ok(Wait::Pending(ticket)) => ticket,
        other => panic!("{other:?}"),
    };
    assert!(!registry.main_thread().unwrap().is_pending(waiting));
    assert_eq!(registry.main_thread().unwrap().max_threads(), 5);
    assert_eq!(registry.allocate_threads(), 5);
    let numbers: Vec<usize> = registry.php_threads().iter().map(|t| t.index()).collect();
    assert_eq!(numbers, [0, 1, 2, 3, 4]);
    assert!(registry.drain_php_threads());

    assert!(registry.stop_main().is_some());
    assert!(!registry.main_thread().unwrap().is_pending(ended));
    assert!(!registry.drain_php_threads());
    go_frankenphp_shutdown_main_thread(&mut registry).unwrap();
    assert_eq!(registry.main_thread().unwrap().state(), State::Reserved);
}

#[test]
fn a_main_thread_that_runs_but_is_not_let_loose_is_reported() {
    let mut registry = Registry::new();
    registry
        .init_php_threads(1, MaxThreads::Fixed(1), PhpIni::new())
        .unwrap();
    assert!(matches!(
        registry.main_started(11),
        MainStart::NotDetached(Wait::Pending(_))
    ));
    assert!(registry.main_thread().is_some());
}

#[test]
fn a_claimed_thread_is_not_claimed_again() {
    let mut registry = ready_registry(2, MaxThreads::Fixed(2));
    assert_eq!(
        registry.get_inactive_php_thread(),
        InactivePhpThreadClaim::Boot(0)
    );
    assert_eq!(registry.threads[0].state(), State::BootRequested);
    assert_eq!(
        registry.get_inactive_php_thread(),
        InactivePhpThreadClaim::Boot(1)
    );
    assert_eq!(
        registry.get_inactive_php_thread(),
        InactivePhpThreadClaim::NoneLeft
    );
    assert!(registry.get_inactive_php_thread().assign_handler(&mut registry).is_none());
}

#[test]
fn an_assigned_slot_is_not_returned_to_a_second_allocator() {
    let mut registry = ready_registry(1, MaxThreads::Fixed(1));
    registry.threads[0].begin_boot().unwrap();
    let now = frankenrust::state::UnixTime { before_epoch: false, secs: 1, nanos: 0 };
    registry.threads[0].before_script_execution(now);
    assert_eq!(registry.threads[0].state(), State::Inactive);

    let claim = registry.get_inactive_php_thread();
    assert_eq!(claim, InactivePhpThreadClaim::Inactive(0));
    assert!(matches!(
        claim.assign_handler(&mut registry),
        Some(HandlerChange::Started { .. })
    ));
    assert_eq!(
        registry.get_inactive_php_thread(),
        InactivePhpThreadClaim::NoneLeft
    );
}
