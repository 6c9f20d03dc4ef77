//! The steps of an interpreter thread's life, as the interpreter reports them.
//!
//! A number that names no thread is answered by a line for the error stream.
use vstd::prelude::*;
use vstd::string::*;

use crate::context::{ContextSlots, RequestContext};
use crate::diagnostics;
use crate::registry;
use crate::registry::Registry;
use crate::state::{State, UnixTime};
use crate::text;
use crate::thread;
use crate::thread::{ForceKillSlot, PhpThread, PhpThreadView, Progress, ScriptPath};

verus! {

/// Keeps where a thread can be interrupted, and gives back what was kept before, which is to be
/// released. Where there is no such thread, what was to be kept is to be released instead.
pub fn go_frankenphp_store_force_kill_slot(
    registry: &mut Registry,
    thread_index: usize,
    slot: ForceKillSlot,
) -> (r: Result<Option<ForceKillSlot>, String>)
    ensures
        registry::only_thread_changed(*old(registry), *final(registry), thread_index as int),
        match r {
            Ok(previous) => {
                &&& thread_index < old(registry).threads@.len()
                &&& previous == old(registry).threads@[thread_index as int]@.force_kill
                &&& final(registry).threads@[thread_index as int]@ == (PhpThreadView {
                    force_kill: Some(slot),
                    ..old(registry).threads@[thread_index as int]@
                })
            },
            Err(message) => {
                &&& thread_index >= old(registry).threads@.len()
                &&& message@ == diagnostics::line(
                    "force-kill slot supplied for unknown thread "@,
                    thread_index,
                    ""@,
                )
            },
        },
{
    if thread_index >= registry.threads.len() {
        return Err(
            diagnostics::about_thread(
                "force-kill slot supplied for unknown thread ",
                thread_index,
                "",
            ),
        );
    }
    Ok(registry.threads[thread_index].store_force_kill_slot(slot))
}

/// One step of a thread before a script can run.
pub fn go_frankenphp_before_script_execution(
    registry: &mut Registry,
    thread_index: usize,
    now: UnixTime,
) -> (r: Result<Progress, String>)
    requires
        old(registry).can_wait_spec(),
        now.nanos < 1_000_000_000,
    ensures
        registry::only_thread_changed(*old(registry), *final(registry), thread_index as int),
        match r {
            Ok(progress) => {
                let before = old(registry).threads@[thread_index as int]@;
                let after = final(registry).threads@[thread_index as int]@;
                &&& thread_index < old(registry).threads@.len()
                &&& match before.handler {
                    Some(handler) => thread::stepped(
                        before,
                        handler.decides(before.lifecycle.current),
                        now,
                        progress,
                        after,
                    ),
                    None => progress matches Progress::Stop { leave } && !leave && after == before,
                }
            },
            Err(message) => {
                &&& thread_index >= old(registry).threads@.len()
                &&& message@ == diagnostics::line(
                    "before-script callback for unknown thread "@,
                    thread_index,
                    ""@,
                )
            },
        },
{
    if thread_index >= registry.threads.len() {
        return Err(
            diagnostics::about_thread(
                "before-script callback for unknown thread ",
                thread_index,
                "",
            ),
        );
    }
    Ok(registry.threads[thread_index].before_script_execution(now))
}

/// What came of the end of a script.
pub struct AfterScript {
    /// The context that ended with it.
    pub ended: Option<RequestContext>,
    /// A line for the error stream about its exit status.
    pub complaint: Option<String>,
}

/// Cleans up behind a script and lets its path go. A negative exit status is complained about,
/// and cleaned up behind all the same.
pub fn go_frankenphp_after_script_execution(
    registry: &mut Registry,
    slots: &mut ContextSlots,
    thread_index: usize,
    exit_status: i32,
) -> (r: Result<AfterScript, String>)
    ensures
        registry::only_thread_changed(*old(registry), *final(registry), thread_index as int),
        match r {
            Ok(after) => {
                let before = old(registry).threads@[thread_index as int]@;
                let at = before.index as int;
                &&& thread_index < old(registry).threads@.len()
                &&& final(registry).threads@[thread_index as int]@ == (PhpThreadView {
                    script_path: None,
                    ..before
                })
                &&& forall|i: int| i != at ==> #[trigger] final(slots).at(i) == old(slots).at(i)
                &&& if before.handler matches Some(handler) && handler.ends_requests() {
                    thread::request_ended(old(slots).at(at), after.ended) && final(slots).at(
                        at,
                    ) is None
                } else {
                    after.ended is None && final(slots).at(at) == old(slots).at(at)
                }
                &&& match after.complaint {
                    Some(message) => exit_status < 0 && message@ == diagnostics::line(
                        "PHP script on thread "@,
                        thread_index,
                        " returned negative status "@,
                    ) + thread::signed_chars(exit_status as int),
                    None => exit_status >= 0,
                }
            },
            Err(message) => {
                &&& thread_index >= old(registry).threads@.len()
                &&& forall|i: int| #[trigger] final(slots).at(i) == old(slots).at(i)
                &&& message@ == diagnostics::line(
                    "after-script callback for unknown thread "@,
                    thread_index,
                    ""@,
                )
            },
        },
{
    if thread_index >= registry.threads.len() {
        return Err(
            diagnostics::about_thread(
                "after-script callback for unknown thread ",
                thread_index,
                "",
            ),
        );
    }
    let complaint = if exit_status < 0 {
        let magnitude: i64 = -(exit_status as i64);
        let mut message = diagnostics::about_thread(
            "PHP script on thread ",
            thread_index,
            " returned negative status ",
        );
        let ghost head = message@;
        message.append("-");
        message.append(text::decimal_string(magnitude as u64).as_str());
        assert(message@ =~= head + thread::signed_chars(exit_status as int));
        Some(message)
    } else {
        None
    };
    let ended = registry.threads[thread_index].after_script_execution(slots, exit_status);
    registry.threads[thread_index].release_script_path();
    Ok(AfterScript { ended, complaint })
}

/// Keeps the path of the script that a thread is to run.
pub fn publish_script_path(registry: &mut Registry, thread_index: usize, path: ScriptPath)
    requires
        thread_index < old(registry).threads@.len(),
    ensures
        registry::only_thread_changed(*old(registry), *final(registry), thread_index as int),
        final(registry).threads@[thread_index as int]@ == (PhpThreadView {
            script_path: Some(path@),
            ..old(registry).threads@[thread_index as int]@
        }),
{
    registry.threads[thread_index].publish_script_path(path);
}

/// Forgets where a thread can be interrupted, and gives back what is to be released.
pub fn go_frankenphp_clear_force_kill_slot(registry: &mut Registry, thread_index: usize) -> (r:
    Result<Option<ForceKillSlot>, String>)
    ensures
        registry::only_thread_changed(*old(registry), *final(registry), thread_index as int),
        match r {
            Ok(previous) => {
                &&& thread_index < old(registry).threads@.len()
                &&& previous == old(registry).threads@[thread_index as int]@.force_kill
                &&& final(registry).threads@[thread_index as int]@ == (PhpThreadView {
                    force_kill: None,
                    ..old(registry).threads@[thread_index as int]@
                })
            },
            Err(message) => {
                &&& thread_index >= old(registry).threads@.len()
                &&& message@ == diagnostics::line(
                    "force-kill clear for unknown thread "@,
                    thread_index,
                    ""@,
                )
            },
        },
{
    if thread_index >= registry.threads.len() {
        return Err(
            diagnostics::about_thread("force-kill clear for unknown thread ", thread_index, ""),
        );
    }
    Ok(registry.threads[thread_index].clear_force_kill_slot())
}

/// Publishes that a thread has ended.
pub fn go_frankenphp_on_thread_shutdown(registry: &mut Registry, thread_index: usize) -> (r: Result<
    (),
    String,
>)
    ensures
        registry::only_thread_changed(*old(registry), *final(registry), thread_index as int),
        match r {
            Ok(_) => {
                let before = old(registry).threads@[thread_index as int]@;
                &&& thread_index < old(registry).threads@.len()
                &&& final(registry).threads@[thread_index as int]@ == (PhpThreadView {
                    lifecycle: before.lifecycle.published(
                        PhpThread::ended_state(before.lifecycle.current),
                    ),
                    script_path: None,
                    ..before
                })
            },
            Err(message) => {
                &&& thread_index >= old(registry).threads@.len()
                &&& message@ == diagnostics::line(
                    "shutdown callback for unknown thread "@,
                    thread_index,
                    ""@,
                )
            },
        },
{
    if thread_index >= registry.threads.len() {
        return Err(
            diagnostics::about_thread("shutdown callback for unknown thread ", thread_index, ""),
        );
    }
    registry.threads[thread_index].on_thread_shutdown();
    Ok(())
}

/// Behind a script its request is over: the thread's context is finished and given back, its
/// place is free, and the script's path is let go; no other thread's request is touched. A
/// negative exit status is complained about, and no other.
pub proof fn lemma_request_ends_with_its_script(
    registry: &mut Registry,
    slots: &mut ContextSlots,
    thread_index: usize,
    exit_status: i32,
    r: Result<AfterScript, String>,
    other: int,
)
    requires
        call_ensures(
            go_frankenphp_after_script_execution,
            (registry, slots, thread_index, exit_status),
            r,
        ),
        thread_index < old(registry).threads@.len(),
        other != old(registry).threads@[thread_index as int]@.index,
    ensures
        ({
            let before = old(registry).threads@[thread_index as int]@;
            let at = before.index as int;
            let after = r->Ok_0;
            &&& r is Ok
            &&& final(slots).at(other) == old(slots).at(other)
            &&& final(registry).threads@[thread_index as int]@.script_path is None
            &&& after.complaint is Some <==> exit_status < 0
            &&& before.handler is Some && before.handler->0.ends_requests() ==> {
                &&& final(slots).at(at) is None
                &&& old(slots).at(at) is Some ==> after.ended is Some && after.ended->0.is_done
                    && after.ended->0.request == old(slots).at(at)->0.request
                &&& old(slots).at(at) is None ==> after.ended is None
            }
            &&& before.handler is Some && !before.handler->0.ends_requests() ==> final(slots).at(at)
                == old(slots).at(at)
        }),
{
}

/// The interpreter's word about a thread reaches that thread and no other, and a number that
/// names no thread changes nothing.
pub proof fn lemma_ends_reach_their_thread(
    registry: &mut Registry,
    thread_index: usize,
    r: Result<(), String>,
    other: int,
)
    requires
        call_ensures(go_frankenphp_on_thread_shutdown, (registry, thread_index), r),
        0 <= other < old(registry).threads@.len(),
        other != thread_index,
    ensures
        r is Ok <==> thread_index < old(registry).threads@.len(),
        final(registry).threads@.len() == old(registry).threads@.len(),
        final(registry).threads@[other] == old(registry).threads@[other],
        r is Ok && old(registry).threads@[thread_index as int]@.lifecycle.current
            == State::ShuttingDown ==> final(registry).threads@[thread_index as
            int]@.lifecycle.current == State::Done,
{
}

} // verus!
