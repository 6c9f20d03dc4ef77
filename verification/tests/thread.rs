use crossbeam_channel::TryRecvError;
use frankenrust::callbacks::mainthread::{
    go_frankenphp_main_thread_is_ready, go_frankenphp_shutdown_main_thread,
};
use frankenrust::callbacks::thread::{
    go_frankenphp_after_script_execution, go_frankenphp_before_script_execution,
    go_frankenphp_clear_force_kill_slot, go_frankenphp_on_thread_shutdown,
    go_frankenphp_store_force_kill_slot, publish_script_path,
};
use frankenrust::context::{CompletionSignal, ContextSlots, RequestContext};
use frankenrust::diagnostics::{force_kill, not_drainable, unexpected_state};
use frankenrust::ini::PhpIni;
use frankenrust::registry::Registry;
use frankenrust::shutdown::{Drain, DrainStep};
use frankenrust::state::{State, UnixTime, Wait};
use frankenrust::thread::{
    Delivery, ForceKillSlot, HandlerChange, MaxThreads, PhpThread, Progress, ScriptPath,
    ShutdownPhase, ShutdownStart, ShutdownStep, ThreadError,
};
use frankenrust::thread_inactive::convert_to_inactive_thread;
use frankenrust::thread_regular::{convert_to_regular_thread, Dispatch, Offered, RegularThreads};

const NOW: UnixTime = UnixTime {
    before_epoch: false,
    secs: 1_700_000_000,
    nanos: 0,
};

fn boot(thread: &mut PhpThread) {
    thread.begin_boot().expect("stand-in boot must succeed");
    assert_eq!(thread.state(), State::Booting);
    let ticket = match thread.finish_boot(true) {
        Ok(Wait::Pending(ticket)) => ticket,
        other => panic!("{other:?}"),
    };
    assert!(matches!(
        thread.before_script_execution(NOW),
        Progress::Parked(Wait::Pending(_))
    ));
    assert!(!thread.is_pending(ticket));
}

fn hand_over(thread: &mut PhpThread) -> frankenrust::drain::ClosedDrainGeneration {
    let (closed, ticket) = match thread.begin_set_handler() {
        HandlerChange::Started { closed, ticket } => (closed, ticket),
        other => panic!("{other:?}"),
    };
    assert!(thread.is_pending(ticket));
    thread.resumed();
    assert!(matches!(
        thread.before_script_execution(NOW),
        Progress::HandOver { .. }
    ));
    assert!(!thread.is_pending(ticket));
    closed
}

fn shut_down(thread: &mut PhpThread) {
    let closed = match thread.begin_shutdown() {
        ShutdownStart::Started(closed) => closed,
        other => panic!("{other:?}"),
    };
    assert!(matches!(
        thread.before_script_execution(NOW),
        Progress::Stop { .. }
    ));
    thread.on_thread_shutdown();
    assert_eq!(thread.state(), State::Done);
    thread.finish_shutdown(closed);
}

fn context_with_script(script_filename: &str) -> RequestContext {
    let mut ctx = RequestContext::new(String::new(), None, None, CompletionSignal::none());
    ctx.script_filename = script_filename.as_bytes().to_vec();
    ctx
}

#[test]
fn per_slot_boot_transition_shutdown_repeats_three_times() {
    let mut thread = PhpThread::new(0);

    for cycle in 0..3 {
        boot(&mut thread);
        assert_eq!(thread.state(), State::Inactive);

        let closed = hand_over(&mut thread);
        convert_to_inactive_thread(&mut thread, closed);
        assert!(matches!(
            thread.before_script_execution(NOW),
            Progress::Parked(_)
        ));
        assert_eq!(thread.state(), State::Inactive);
        assert_eq!(thread.name(), "Inactive PHP Thread");

        shut_down(&mut thread);
        assert!(
            thread.state() == State::Reserved,
            "cycle {cycle}: slot did not return to Reserved"
        );
    }
}

#[test]
fn drain_receivers_are_isolated_by_generation() {
    let mut thread = PhpThread::new(1);
    boot(&mut thread);

    let before_transition = thread.drain_receiver();
    let closed = hand_over(&mut thread);
    convert_to_inactive_thread(&mut thread, closed);
    thread.before_script_execution(NOW);

    assert_eq!(
        before_transition.receiver().try_recv(),
        Err(TryRecvError::Disconnected),
        "set_handler must close the previous generation"
    );
    let after_transition = thread.drain_receiver();
    assert_ne!(
        after_transition.generation(),
        before_transition.generation()
    );
    assert_eq!(
        after_transition.receiver().try_recv(),
        Err(TryRecvError::Empty),
        "the replacement handler must not inherit the old close"
    );

    let before_shutdown = after_transition.clone();
    shut_down(&mut thread);
    assert_eq!(
        before_shutdown.receiver().try_recv(),
        Err(TryRecvError::Disconnected),
        "shutdown must close the receiver captured before it"
    );
    let after_shutdown = thread.drain_receiver();
    assert_ne!(after_shutdown.generation(), before_shutdown.generation());
    assert_eq!(
        after_shutdown.receiver().try_recv(),
        Err(TryRecvError::Empty)
    );
}

#[test]
fn a_thread_that_does_not_end_in_time_is_interrupted_and_waited_for() {
    let mut thread = PhpThread::new(0);
    boot(&mut thread);
    thread.store_force_kill_slot(SLOT);
    let grace = match thread.shutdown(ShutdownPhase::Asking, false) {
        ShutdownStep::GracePeriodStarts(grace) => grace,
        other => panic!("{other:?}"),
    };
    let grace = match thread.shutdown(grace, false) {
        ShutdownStep::AwaitUntilDeadline { ticket, next } => {
            assert_eq!(
                thread.wait_for_state_with_timeout(ticket, true),
                Some(false)
            );
            next
        }
        other => panic!("{other:?}"),
    };
    let forced = match thread.shutdown(grace, true) {
        ShutdownStep::ForceKill { slot, next } => {
            assert_eq!(slot, Some(SLOT));
            next
        }
        other => panic!("{other:?}"),
    };
    let forced = match thread.shutdown(forced, true) {
        ShutdownStep::Await { ticket, next } => {
            assert!(thread.is_pending(ticket));
            thread.on_thread_shutdown();
            assert!(!thread.is_pending(ticket));
            next
        }
        other => panic!("{other:?}"),
    };
    assert!(matches!(
        thread.shutdown(forced, true),
        ShutdownStep::Finished
    ));
    assert_eq!(thread.state(), State::Reserved);
    assert!(matches!(
        thread.shutdown(ShutdownPhase::Asking, false),
        ShutdownStep::Finished
    ));
}

#[test]
fn a_thread_boots_only_from_rest() {
    let mut thread = PhpThread::new(4);
    assert_eq!(thread.name(), "unknown");
    assert!(thread.request_boot());
    assert!(!thread.request_boot());
    boot(&mut thread);
    assert_eq!(thread.name(), "Inactive PHP Thread");
    assert_eq!(
        thread.begin_boot(),
        Err(ThreadError::InvalidBootState {
            thread_index: 4,
            state: State::Inactive
        })
    );
}

#[test]
fn a_thread_that_was_not_launched_is_reserved_again() {
    let mut thread = PhpThread::new(2);
    thread.begin_boot().unwrap();
    assert_eq!(
        thread.finish_boot(false).unwrap_err(),
        ThreadError::PhpThreadCreation { thread_index: 2 }
    );
    assert_eq!(thread.state(), State::Reserved);
}

#[test]
fn a_thread_without_a_handler_ends_its_loop() {
    let mut thread = PhpThread::new(0);
    assert!(matches!(
        thread.before_script_execution(NOW),
        Progress::Stop { leave: false }
    ));
}

#[test]
fn a_thread_in_between_states_is_waited_for() {
    let mut thread = PhpThread::new(0);
    thread.begin_boot().unwrap();
    assert!(matches!(thread.begin_shutdown(), ShutdownStart::Later(_)));
    assert!(matches!(thread.begin_set_handler(), HandlerChange::Later(_)));
}

#[test]
fn a_thread_that_is_gone_takes_no_handler() {
    let mut thread = PhpThread::new(0);
    assert!(matches!(thread.begin_set_handler(), HandlerChange::Rejected));
    assert!(matches!(
        thread.begin_shutdown(),
        ShutdownStart::NothingToDo
    ));
    thread.on_thread_shutdown();
    assert_eq!(thread.state(), State::Done);
    assert!(matches!(
        thread.begin_shutdown(),
        ShutdownStart::NothingToDo
    ));
    assert_eq!(thread.state(), State::Reserved);
}

#[test]
fn a_state_of_nobody_is_waited_out() {
    let mut thread = PhpThread::new(6);
    thread.begin_boot().unwrap();
    thread.finish_boot(false).unwrap_err();
    match thread.before_script_execution(NOW) {
        Progress::Unexpected {
            state: State::Reserved,
            wait: Wait::Pending(_),
        } => {}
        _ => panic!("a reserved thread is none that its handler knows"),
    }
    assert!(unexpected_state(&thread, State::Reserved).contains("reserved"));
}

#[test]
fn an_unexpected_state_is_reported_by_thread_and_state() {
    let mut thread = PhpThread::new(4);
    let mut threads = RegularThreads::new();
    boot(&mut thread);
    assert_eq!(
        unexpected_state(&thread, State::Reserved),
        "inactive PHP thread 4 observed unexpected state reserved"
    );
    let closed = hand_over(&mut thread);
    convert_to_regular_thread(&mut thread, closed, &mut threads);
    assert_eq!(
        unexpected_state(&thread, State::Done),
        "regular PHP thread 4 observed unexpected state done"
    );
}

#[test]
fn a_regular_thread_serves_a_request_and_ends_it() {
    let mut thread = PhpThread::new(3);
    let mut slots = ContextSlots::new();
    let mut threads = RegularThreads::new();
    boot(&mut thread);
    let closed = hand_over(&mut thread);
    let own = convert_to_regular_thread(&mut thread, closed, &mut threads);
    assert_eq!(thread.name(), "Regular PHP Thread");
    assert_eq!(threads.entries.len(), 1);
    assert_eq!(own.try_recv().err(), Some(TryRecvError::Empty));
    assert!(matches!(
        thread.before_script_execution(NOW),
        Progress::Prepare
    ));
    thread.prepared();
    assert_eq!(thread.state(), State::Ready);
    let receiver = match thread.before_script_execution(NOW) {
        Progress::AwaitRequest(receiver) => receiver,
        _ => panic!("a ready thread waits for requests"),
    };
    assert_eq!(receiver.generation(), thread.drain_receiver().generation());

    let path = match thread.delivered(&mut slots, Some(context_with_script("/a.php"))) {
        Delivery::Run(path) => path,
        _ => panic!("a request with a script runs it"),
    };
    assert_eq!(path.as_bytes_with_nul(), b"/a.php\0");
    thread.publish_script_path(path);
    assert_eq!(thread.script_path(), Some(b"/a.php\0".as_slice()));
    assert!(slots.context(3).is_some());

    let ended = thread
        .after_script_execution(&mut slots, 0)
        .expect("the request ends with its script");
    assert!(ended.is_done);
    assert!(slots.context(3).is_none());
    assert!(matches!(
        thread.delivered(&mut slots, None),
        Delivery::Nothing
    ));

    threads.detach_regular_thread(3);
    assert!(threads.entries.is_empty());
}

#[test]
fn directed_try_send_only_succeeds_against_a_parked_receiver() {
    let mut threads = RegularThreads::new();
    let (sender, receiver) = crossbeam_channel::bounded::<RequestContext>(0);
    threads.attach_regular_thread(8, sender);

    match threads.handle_request_with_regular_php_threads(0, context_with_script("/a.php")) {
        Dispatch::Queue(back) => assert_eq!(back.script_filename, b"/a.php"),
        Dispatch::Delivered(_) => {
            panic!("an unbuffered channel must reject a send with no parked receiver")
        }
    }

    let runtime = tokio::runtime::Builder::new_multi_thread()
        .enable_time()
        .build()
        .unwrap();
    let parked =
        runtime.spawn_blocking(move || receiver.recv().map(|ctx| ctx.script_filename));
    let mut delivered = false;
    for _ in 0..200 {
        match threads.handle_request_with_regular_php_threads(0, context_with_script("/b.php")) {
            Dispatch::Delivered(thread_index) => {
                assert_eq!(thread_index, 8);
                delivered = true;
                break;
            }
            Dispatch::Queue(_) => {
                runtime.block_on(async {
                    tokio::time::sleep(std::time::Duration::from_millis(5)).await
                });
            }
        }
    }
    assert!(
        delivered,
        "try_send never rendezvoused with the parked receiver"
    );
    assert_eq!(
        runtime.block_on(parked).unwrap().unwrap(),
        b"/b.php",
        "the parked receiver must observe the delivered request"
    );
}

#[test]
fn a_request_queues_behind_others_and_where_there_are_no_threads() {
    let mut threads = RegularThreads::new();
    assert!(matches!(
        threads.handle_request_with_regular_php_threads(0, context_with_script("/a.php")),
        Dispatch::Queue(_)
    ));
    let (sender, _receiver) = crossbeam_channel::unbounded::<RequestContext>();
    threads.attach_regular_thread(0, sender);
    assert!(matches!(
        threads.handle_request_with_regular_php_threads(1, context_with_script("/a.php")),
        Dispatch::Queue(_)
    ));
    assert!(matches!(
        threads.handle_request_with_regular_php_threads(0, context_with_script("/a.php")),
        Dispatch::Delivered(0)
    ));
}

#[test]
fn a_refused_request_goes_to_the_next_thread_and_then_to_the_queue() {
    let mut threads = RegularThreads::new();
    for thread_index in [5, 6] {
        let (sender, _) = crossbeam_channel::bounded::<RequestContext>(0);
        threads.attach_regular_thread(thread_index, sender);
    }
    assert!(matches!(threads.offered(1, Ok(6)), Offered::Delivered(6)));
    match threads.first_offer(0, context_with_script("/first")) {
        Offered::Next(0, back) => assert_eq!(back.script_filename, b"/first"),
        _ => panic!("the thread that came first is asked first"),
    }
    match threads.first_offer(1, context_with_script("/late")) {
        Offered::Queue(back) => assert_eq!(back.script_filename, b"/late"),
        _ => panic!("while others queue nobody is passed over"),
    }
    match RegularThreads::new().first_offer(0, context_with_script("/alone")) {
        Offered::Queue(back) => assert_eq!(back.script_filename, b"/alone"),
        _ => panic!("without a thread a request queues"),
    }
    assert!(matches!(
        threads.offered(0, Err(context_with_script("/a"))),
        Offered::Next(1, _)
    ));
    match threads.offered(1, Err(context_with_script("/a"))) {
        Offered::Queue(back) => assert_eq!(back.script_filename, b"/a"),
        _ => panic!("the last refusal leads to the queue"),
    }
}

#[test]
fn only_a_thread_that_leaves_is_detached() {
    let mut threads = RegularThreads::new();
    for thread_index in [1, 2, 1, 3] {
        let (sender, _) = crossbeam_channel::bounded::<RequestContext>(0);
        threads.attach_regular_thread(thread_index, sender);
    }
    threads.detach_regular_thread(1);
    let left: Vec<usize> = threads.entries.iter().map(|e| e.thread_index).collect();
    assert_eq!(left, [2, 3]);
}

#[test]
fn an_empty_path_is_none() {
    assert!(ScriptPath::new(Vec::new()).is_none());
    assert_eq!(
        ScriptPath::new(b"/x".to_vec()).unwrap().as_bytes_with_nul(),
        b"/x\0"
    );
}

#[test]
fn a_stale_token_leaves_the_drain_channel_alone() {
    let mut thread = PhpThread::new(0);
    let mut threads = RegularThreads::new();
    boot(&mut thread);
    let generation = thread.drain_receiver().generation();
    let stale = frankenrust::drain::ClosedDrainGeneration {
        generation: generation + 7,
    };
    convert_to_regular_thread(&mut thread, stale, &mut threads);
    assert_eq!(thread.drain_receiver().generation(), generation);
    let stale = frankenrust::drain::ClosedDrainGeneration { generation };
    convert_to_inactive_thread(&mut thread, stale);
    assert_eq!(thread.drain_receiver().generation(), generation);
    assert_eq!(thread.name(), "Inactive PHP Thread");
}

#[test]
fn a_request_without_a_script_ends_without_cleanup() {
    let mut thread = PhpThread::new(2);
    let mut slots = ContextSlots::new();
    slots.set(2, context_with_script("/kept.php"));
    slots.set(5, context_with_script("/other.php"));
    match thread.delivered(&mut slots, Some(context_with_script(""))) {
        Delivery::Ended(ended) => assert!(ended.is_done),
        _ => panic!("there is nothing to run"),
    }
    assert_eq!(slots.context(2).unwrap().script_filename, b"/kept.php");
    assert!(!slots.context(2).unwrap().is_done);
    assert_eq!(slots.context(5).unwrap().script_filename, b"/other.php");

    match thread.delivered(&mut slots, Some(context_with_script("/next.php"))) {
        Delivery::Run(path) => assert_eq!(path.as_bytes_with_nul(), b"/next.php\0"),
        _ => panic!("the thread goes on with the next request"),
    }
    assert_eq!(slots.context(2).unwrap().script_filename, b"/next.php");
}

fn started_registry(threads: usize) -> Registry {
    let mut registry = Registry::new();
    registry
        .init_php_threads(threads, MaxThreads::Fixed(threads), PhpIni::new())
        .unwrap();
    go_frankenphp_main_thread_is_ready(&mut registry, 0, 0).unwrap();
    registry.allocate_threads();
    for i in 0..threads {
        boot(&mut registry.threads[i]);
    }
    registry
}

const SLOT: ForceKillSlot = ForceKillSlot {
    vm_interrupt: 1,
    timed_out: 2,
    tid: 3,
};

#[test]
fn callbacks_reach_their_thread_only() {
    let mut registry = started_registry(2);
    let mut slots = ContextSlots::new();
    assert_eq!(
        go_frankenphp_store_force_kill_slot(&mut registry, 1, SLOT),
        Ok(None)
    );
    assert_eq!(
        go_frankenphp_store_force_kill_slot(&mut registry, 1, SLOT),
        Ok(Some(SLOT))
    );
    assert_eq!(registry.threads[0].force_kill_slot(), None);
    assert_eq!(
        go_frankenphp_clear_force_kill_slot(&mut registry, 1),
        Ok(Some(SLOT))
    );
    publish_script_path(&mut registry, 1, ScriptPath::new(b"/x".to_vec()).unwrap());
    assert!(registry.threads[1].script_path().is_some());
    let after = go_frankenphp_after_script_execution(&mut registry, &mut slots, 1, -7)
        .ok()
        .unwrap();
    assert!(after.ended.is_none());
    assert_eq!(
        after.complaint.as_deref(),
        Some("PHP script on thread 1 returned negative status -7")
    );
    assert!(registry.threads[1].script_path().is_none());
    go_frankenphp_on_thread_shutdown(&mut registry, 1).unwrap();
    assert_eq!(registry.threads[1].state(), State::Done);
    assert_eq!(registry.threads[0].state(), State::Inactive);
}

#[test]
fn callbacks_of_unknown_threads_are_answered_by_a_line() {
    let mut registry = Registry::new();
    let mut slots = ContextSlots::new();
    assert_eq!(
        go_frankenphp_store_force_kill_slot(&mut registry, 7, SLOT),
        Err("force-kill slot supplied for unknown thread 7".to_string())
    );
    assert_eq!(
        go_frankenphp_clear_force_kill_slot(&mut registry, 7),
        Err("force-kill clear for unknown thread 7".to_string())
    );
    assert_eq!(
        go_frankenphp_before_script_execution(&mut registry, 7, NOW).err(),
        Some("before-script callback for unknown thread 7".to_string())
    );
    assert_eq!(
        go_frankenphp_after_script_execution(&mut registry, &mut slots, 7, 0).err(),
        Some("after-script callback for unknown thread 7".to_string())
    );
    assert_eq!(
        go_frankenphp_on_thread_shutdown(&mut registry, 7),
        Err("shutdown callback for unknown thread 7".to_string())
    );
}

#[test]
fn a_drain_tells_every_thread_before_it_waits_for_any() {
    let mut registry = started_registry(2);
    let mut drain = Drain::begin(&mut registry);
    assert!(drain.fits(&registry));
    assert_eq!(registry.main_thread().unwrap().state(), State::ShuttingDown);
    assert_eq!(drain.step(&mut registry, false), DrainStep::Again);
    assert_eq!(drain.step(&mut registry, false), DrainStep::Again);
    assert_eq!(registry.threads[0].state(), State::ShuttingDown);
    assert_eq!(registry.threads[1].state(), State::ShuttingDown);
    assert_eq!(
        drain.step(&mut registry, false),
        DrainStep::GracePeriodStarts
    );
    let waits: Vec<DrainStep> = vec![drain.step(&mut registry, false)];
    assert!(matches!(
        waits[0],
        DrainStep::AwaitUntilDeadline { thread_index: 0, .. }
    ));
    registry.threads[0].on_thread_shutdown();
    assert_eq!(drain.step(&mut registry, false), DrainStep::Again);
    assert!(matches!(
        drain.step(&mut registry, false),
        DrainStep::AwaitUntilDeadline { thread_index: 1, .. }
    ));
    registry.threads[1].store_force_kill_slot(SLOT);
    assert_eq!(drain.step(&mut registry, true), DrainStep::Again);
    assert_eq!(drain.step(&mut registry, true), DrainStep::Again);
    assert_eq!(drain.step(&mut registry, true), DrainStep::Again);
    assert_eq!(
        drain.step(&mut registry, true),
        DrainStep::ForceKill {
            thread_index: 1,
            slot: Some(SLOT)
        }
    );
    assert_eq!(drain.step(&mut registry, true), DrainStep::Again);
    assert_eq!(drain.step(&mut registry, true), DrainStep::Again);
    assert!(matches!(
        drain.step(&mut registry, true),
        DrainStep::Await { thread_index: 1, .. }
    ));
    assert_eq!(registry.main_thread().unwrap().state(), State::ShuttingDown);
    registry.threads[1].on_thread_shutdown();

    let mut steps = Vec::new();
    for _ in 0..8 {
        let step = drain.step(&mut registry, true);
        steps.push(step);
        if let DrainStep::AwaitMain(Wait::Pending(_)) = step {
            break;
        }
    }
    assert_eq!(registry.main_thread().unwrap().state(), State::Done);
    assert_eq!(registry.threads[0].state(), State::Reserved);
    assert_eq!(registry.threads[1].state(), State::Reserved);
    go_frankenphp_shutdown_main_thread(&mut registry).unwrap();
    assert_eq!(
        drain.step(&mut registry, true),
        DrainStep::Finished {
            destroy_metrics: true
        }
    );
    assert!(registry.main_thread().is_none());
    assert!(registry.php_threads().is_empty());
    assert!(drain.fits(&registry));
    assert_eq!(
        drain.step(&mut registry, true),
        DrainStep::Finished {
            destroy_metrics: false
        }
    );
}

#[test]
fn a_thread_that_cannot_be_woken_is_reported() {
    let mut registry = started_registry(1);
    match registry.threads[0].begin_set_handler() {
        HandlerChange::Started { .. } => {}
        other => panic!("{other:?}"),
    }
    registry.threads[0].prepared();
    let mut drain = Drain::begin(&mut registry);
    assert_eq!(
        drain.step(&mut registry, false),
        DrainStep::NotDrainable(0)
    );
    assert!(not_drainable(0, true).contains('0'));
    assert!(force_kill(&registry.threads[0], 30).contains("30"));
}
