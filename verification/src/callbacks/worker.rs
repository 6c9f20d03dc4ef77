//! The end of a request that its script announces before the script itself ends.
use vstd::prelude::*;

use crate::context;
use crate::context::ContextSlots;

verus! {

/// Finishes a thread's request while its script runs on. The context stays: the script still
/// reads it.
pub fn go_frankenphp_finish_php_request(slots: &mut ContextSlots, thread_index: usize)
    ensures
        forall|i: int| i != thread_index ==> #[trigger] final(slots).at(i) == old(slots).at(i),
        match old(slots).at(thread_index as int) {
            Some(ctx) => final(slots).at(thread_index as int) matches Some(after)
                && context::closed_form(ctx, after),
            None => final(slots).at(thread_index as int) is None,
        },
{
    match slots.context_mut(thread_index) {
        Some(ctx) => ctx.close_context(),
        None => {},
    }
}

} // verus!
