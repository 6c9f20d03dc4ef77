//! The steps of the interpreter's main thread, as the interpreter reports them.
//!
//! A report while no main thread is registered is answered by a line for the error stream.
use vstd::prelude::*;
use vstd::utf8::*;

use crate::ini;
use crate::registry;
use crate::registry::{PhpMainThreadView, Registry};
use crate::state::{State, Wait};

verus! {

/// Whether nothing of a registry has changed but its main thread.
pub open spec fn only_main_changed(before: Registry, after: Registry) -> bool {
    &&& after.threads == before.threads
    &&& after.metrics_initialized == before.metrics_initialized
    &&& (after.main is Some) == (before.main is Some)
}

/// The interpreter is up: settles how many threads there may be, publishes that the main thread
/// is ready, and starts to wait until it is to end or to reboot.
pub fn go_frankenphp_main_thread_is_ready(
    registry: &mut Registry,
    per_thread_limit: i64,
    total_memory: u64,
) -> (r: Result<Wait, &'static str>)
    requires
        old(registry).can_wait_spec(),
    ensures
        only_main_changed(*old(registry), *final(registry)),
        match old(registry).main {
            Some(main) => {
                &&& r == Ok::<Wait, &'static str>(Wait::Pending(main@.lifecycle.issued as u64))
                &&& final(registry).main->0@ == (PhpMainThreadView {
                    lifecycle: main@.lifecycle.published(State::Ready).waiting_for(
                        seq![State::Done, State::Rebooting],
                    ),
                    max_threads: registry::resolved_max(
                        main@.num_threads,
                        main@.requested_max_threads,
                        per_thread_limit as int,
                        total_memory as int,
                    ),
                    ..main@
                })
            },
            None => r matches Err(message) && message@
                == "main-thread-ready callback has no installed registry"@,
        },
{
    match &mut registry.main {
        Some(main) => Ok(main.ready(per_thread_limit, total_memory)),
        None => Err("main-thread-ready callback has no installed registry"),
    }
}

/// The interpreter is down: a reboot goes on, anything else leaves the main thread reserved.
pub fn go_frankenphp_shutdown_main_thread(registry: &mut Registry) -> (r: Result<(), &'static str>)
    ensures
        only_main_changed(*old(registry), *final(registry)),
        match old(registry).main {
            Some(main) => {
                &&& r is Ok
                &&& final(registry).main->0@ == (PhpMainThreadView {
                    lifecycle: main@.lifecycle.published(
                        if main@.lifecycle.current == State::Rebooting {
                            State::YieldingForReboot
                        } else {
                            State::Reserved
                        },
                    ),
                    ..main@
                })
            },
            None => r matches Err(message) && message@
                == "main-thread-shutdown callback has no installed registry"@,
        },
{
    match &mut registry.main {
        Some(main) => {
            main.torn_down();
            Ok(())
        },
        None => Err("main-thread-shutdown callback has no installed registry"),
    }
}

/// The settings with those that switch time limits off.
pub open spec fn without_timeouts(settings: Seq<(Seq<char>, Seq<char>)>) -> Seq<
    (Seq<char>, Seq<char>),
> {
    ini::with_setting(
        ini::with_setting(settings, "max_execution_time"@, "0"@),
        "max_input_time"@,
        "-1"@,
    )
}

/// The settings that the interpreter is to have, as lines with a NUL behind. Time limits that are
/// switched off stay so. There are no lines where memory could not hold them.
pub fn go_get_custom_php_ini(registry: &mut Registry, disable_timeouts: bool) -> (r: Result<
    Option<Vec<u8>>,
    &'static str,
>)
    ensures
        only_main_changed(*old(registry), *final(registry)),
        match old(registry).main {
            Some(main) => {
                let settings = if disable_timeouts {
                    without_timeouts(main@.php_ini)
                } else {
                    main@.php_ini
                };
                &&& final(registry).main->0@ == (PhpMainThreadView { php_ini: settings, ..main@ })
                &&& r matches Ok(lines) && match lines {
                    Some(bytes) => bytes@ == ini::rendered(settings).push(0),
                    None => ini::rendered(settings).len() + 1 > usize::MAX,
                }
            },
            None => r matches Err(message) && message@
                == "custom-php.ini callback has no installed main thread"@,
        },
{
    match &mut registry.main {
        Some(main) => {
            if disable_timeouts {
                main.override_setting("max_execution_time", "0");
                main.override_setting("max_input_time", "-1");
            }
            Ok(main.php_ini().render())
        },
        None => Err("custom-php.ini callback has no installed main thread"),
    }
}

/// With time limits switched off no script and no upload is cut short, whatever else is set,
/// and no other setting is touched.
pub proof fn lemma_timeouts_disabled(settings: Seq<(Seq<char>, Seq<char>)>, other: Seq<char>)
    ensures
        ini::setting(without_timeouts(settings), "max_execution_time"@) == Some("0"@),
        ini::setting(without_timeouts(settings), "max_input_time"@) == Some("-1"@),
        other != "max_execution_time"@ && other != "max_input_time"@ ==> ini::setting(
            without_timeouts(settings),
            other,
        ) == ini::setting(settings, other),
{
    reveal_strlit("max_execution_time");
    reveal_strlit("max_input_time");
    let first = ini::with_setting(settings, "max_execution_time"@, "0"@);
    assert("max_execution_time"@.len() != "max_input_time"@.len());
    ini::lemma_setting_read_back(settings, "max_execution_time"@, "0"@, other);
    ini::lemma_setting_read_back(first, "max_input_time"@, "-1"@, other);
    ini::lemma_setting_read_back(first, "max_input_time"@, "-1"@, "max_execution_time"@);
}

/// The interpreter gets every setting as a line of its own, in order, with a NUL behind the last.
pub proof fn lemma_settings_reach_the_interpreter(
    registry: &mut Registry,
    r: Result<Option<Vec<u8>>, &'static str>,
    key: Seq<char>,
    value: Seq<char>,
)
    requires
        call_ensures(go_get_custom_php_ini, (registry, false), r),
        old(registry).main is Some,
    ensures
        ({
            let settings = old(registry).main->0@.php_ini;
            &&& r is Ok
            &&& r->Ok_0 matches Some(bytes) ==> bytes@.len() > 0 && bytes@.last() == 0
                && bytes@.drop_last() == ini::rendered(settings)
            &&& settings == seq![(key, value)] ==> (r->Ok_0 matches Some(bytes) ==> bytes@
                == encode_utf8(key) + seq![0x3du8] + encode_utf8(value) + seq![0x0au8, 0u8])
        }),
{
    let settings = old(registry).main->0@.php_ini;
    assert(r is Ok);
    if let Some(bytes) = r->Ok_0 {
        assert(bytes@.drop_last() =~= ini::rendered(settings));
        if settings == seq![(key, value)] {
            ini::lemma_settings_are_written_out(settings, seq![]);
            assert(bytes@ =~= encode_utf8(key) + seq![0x3du8] + encode_utf8(value) + seq![
                0x0au8,
                0u8,
            ]);
        }
    }
}

} // verus!
