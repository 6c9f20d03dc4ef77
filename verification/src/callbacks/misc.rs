//! Small callbacks: whether a request is done, and what is answered where a feature does not
//! exist. A missing feature is noted in the log once.
use vstd::prelude::*;
use vstd::utf8::*;

use crate::callbacks::log;
use crate::callbacks::log::{Level, LogOnce, Record};
use crate::context::ContextSlots;

verus! {

/// Whether a thread has no request left to finish. Without a context there is nothing to
/// finish, so the answer is yes.
pub fn go_is_context_done(slots: &ContextSlots, thread_index: usize) -> (r: bool)
    ensures
        r == (match slots.at(thread_index as int) {
            Some(ctx) => ctx.is_done,
            None => true,
        }),
{
    match slots.context(thread_index) {
        Some(ctx) => ctx.is_done,
        None => true,
    }
}

/// The records after a notice that is given once.
pub open spec fn noticed(
    spent: bool,
    records: Seq<(int, Seq<u8>, Seq<(Seq<char>, Seq<char>)>)>,
    message: Seq<char>,
) -> Seq<(int, Seq<u8>, Seq<(Seq<char>, Seq<char>)>)> {
    if spent {
        records
    } else {
        records.push((4, encode_utf8(message), seq![]))
    }
}

/// A notice is given once, however often there is reason for it.
pub proof fn lemma_noticed_once(
    records: Seq<(int, Seq<u8>, Seq<(Seq<char>, Seq<char>)>)>,
    message: Seq<char>,
)
    ensures
        noticed(true, noticed(false, records, message), message) == noticed(
            false,
            records,
            message,
        ),
        noticed(false, records, message).len() == records.len() + 1,
{
}

/// The notice about `putenv()`.
pub open spec fn putenv_message() -> Seq<char> {
    "putenv() was called, but frankenrust does not sandbox the process environment: the change is visible to this PHP interpreter's own getenv()/$_ENV, but not to any process this server spawns afterwards"@
}

/// Notes once that the environment is not sandboxed. The answer is yes all the same: the
/// interpreter changes its own copy of the environment only on a yes.
pub fn putenv_notice(once: &mut LogOnce, records: &mut Vec<Record>) -> (r: bool)
    ensures
        r,
        final(once).spent,
        log::record_views(final(records)@) == noticed(
            old(once).spent,
            log::record_views(old(records)@),
            putenv_message(),
        ),
{
    log::log_message_once(
        once,
        records,
        Level::warn(),
        "putenv() was called, but frankenrust does not sandbox the process environment: the change is visible to this PHP interpreter's own getenv()/$_ENV, but not to any process this server spawns afterwards".as_bytes(),
    );
    true
}

/// The notice about `opcache_reset()`.
pub open spec fn opcache_reset_message() -> Seq<char> {
    "opcache_reset() was called, but frankenrust does not implement rebooting PHP threads to pick up a fresh opcache; the request continues without one"@
}

/// Notes once that threads are not rebooted for a fresh opcode cache.
pub fn opcache_reset_notice(once: &mut LogOnce, records: &mut Vec<Record>)
    ensures
        final(once).spent,
        log::record_views(final(records)@) == noticed(
            old(once).spent,
            log::record_views(old(records)@),
            opcache_reset_message(),
        ),
{
    log::log_message_once(
        once,
        records,
        Level::warn(),
        "opcache_reset() was called, but frankenrust does not implement rebooting PHP threads to pick up a fresh opcache; the request continues without one".as_bytes(),
    );
}

/// The answer to a publication: the identifier of the update, if there is one, and a status. A
/// status of 0 promises an identifier; 1 and 2 are failures of a hub; any other says that there
/// is no hub.
#[derive(Debug, Clone, PartialEq, Eq)]
pub struct MercurePublishReturn {
    pub id: Option<Vec<u8>>,
    pub status: i16,
}

/// The status that says that there is no hub.
pub const MERCURE_UNSUPPORTED: i16 = 3;

/// The notice about `mercure_publish()`.
pub open spec fn mercure_message() -> Seq<char> {
    "mercure_publish() was called, but frankenrust is not built with Mercure support"@
}

/// Notes once that there is no hub, and answers so.
pub fn mercure_publish_notice(once: &mut LogOnce, records: &mut Vec<Record>) -> (r:
    MercurePublishReturn)
    ensures
        r.id is None,
        r.status == MERCURE_UNSUPPORTED,
        final(once).spent,
        log::record_views(final(records)@) == noticed(
            old(once).spent,
            log::record_views(old(records)@),
            mercure_message(),
        ),
{
    log::log_message_once(
        once,
        records,
        Level::warn(),
        "mercure_publish() was called, but frankenrust is not built with Mercure support".as_bytes(),
    );
    MercurePublishReturn { id: None, status: MERCURE_UNSUPPORTED }
}

/// Which notices the process has given.
#[derive(Debug)]
pub struct Notices {
    pub putenv: LogOnce,
    pub opcache_reset: LogOnce,
    pub mercure_publish: LogOnce,
}

impl Notices {
    /// None yet.
    pub fn new() -> (r: Self)
        ensures
            !r.putenv.spent,
            !r.opcache_reset.spent,
            !r.mercure_publish.spent,
    {
        Notices {
            putenv: LogOnce::new(),
            opcache_reset: LogOnce::new(),
            mercure_publish: LogOnce::new(),
        }
    }
}

/// Answers `putenv()`.
pub fn go_putenv(notices: &mut Notices, records: &mut Vec<Record>) -> (r: bool)
    ensures
        r,
        *final(notices) == (Notices { putenv: LogOnce { spent: true }, ..*old(notices) }),
        log::record_views(final(records)@) == noticed(
            old(notices).putenv.spent,
            log::record_views(old(records)@),
            putenv_message(),
        ),
{
    putenv_notice(&mut notices.putenv, records)
}

/// Answers `opcache_reset()`.
pub fn go_schedule_opcache_reset(notices: &mut Notices, records: &mut Vec<Record>)
    ensures
        *final(notices) == (Notices { opcache_reset: LogOnce { spent: true }, ..*old(notices) }),
        log::record_views(final(records)@) == noticed(
            old(notices).opcache_reset.spent,
            log::record_views(old(records)@),
            opcache_reset_message(),
        ),
{
    opcache_reset_notice(&mut notices.opcache_reset, records);
}

/// Answers `mercure_publish()`.
pub fn go_mercure_publish(notices: &mut Notices, records: &mut Vec<Record>) -> (r:
    MercurePublishReturn)
    ensures
        r.id is None,
        r.status == MERCURE_UNSUPPORTED,
        *final(notices) == (Notices { mercure_publish: LogOnce { spent: true }, ..*old(notices) }),
        log::record_views(final(records)@) == noticed(
            old(notices).mercure_publish.spent,
            log::record_views(old(records)@),
            mercure_message(),
        ),
{
    mercure_publish_notice(&mut notices.mercure_publish, records)
}

/// A notice is a warning with its message and nothing else, behind what was logged before.
pub proof fn lemma_notice_is_a_warning(
    records: Seq<(int, Seq<u8>, Seq<(Seq<char>, Seq<char>)>)>,
    message: Seq<char>,
)
    ensures
        noticed(false, records, message) == records.push((4, encode_utf8(message), seq![])),
        noticed(true, records, message) == records,
{
}

/// A request is done once it was finished, and where there is none.
pub proof fn lemma_done_is_finished(slots: &ContextSlots, thread_index: usize, r: bool)
    requires
        call_ensures(go_is_context_done, (slots, thread_index), r),
    ensures
        slots.at(thread_index as int) is None ==> r,
        slots.at(thread_index as int) matches Some(ctx) ==> r == ctx.is_done,
{
}

} // verus!
