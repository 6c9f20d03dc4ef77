//! The lines that go to the error stream outside any request.
use vstd::prelude::*;
use vstd::string::*;
use vstd::utf8::*;

use crate::state::State;
use crate::text;
use crate::thread;
use crate::thread::PhpThread;

verus! {

/// A line about a thread.
pub open spec fn line(before: Seq<char>, thread_index: usize, after: Seq<char>) -> Seq<char> {
    before + text::decimal_chars(thread_index as nat) + after
}

/// A line about a thread.
pub fn about_thread(before: &str, thread_index: usize, after: &str) -> (r: String)
    ensures
        r@ == line(before@, thread_index, after@),
{
    let mut r = before.to_owned();
    r.append(text::decimal_string(thread_index as u64).as_str());
    r.append(after);
    r
}

/// That a thread is in a state that its handler does not know.
pub fn unexpected_state(thread: &PhpThread, state: State) -> (r: String)
    ensures
        r@ == thread::handler_label(thread@.handler) + line(
            " "@,
            thread@.index,
            " observed unexpected state "@,
        ) + state.name_spec(),
{
    let mut r = thread.log_name();
    let rest = about_thread(" ", thread.index(), " observed unexpected state ");
    r.append(rest.as_str());
    r.append(state.name());
    r
}

/// That a thread is interrupted after the seconds that it had.
pub fn force_kill(thread: &PhpThread, seconds: u64) -> (r: String)
    ensures
        r@ == line("force-killing thread "@, thread@.index, " after "@) + text::decimal_chars(
            seconds as nat,
        ) + "s in state "@ + thread@.lifecycle.current.name_spec(),
{
    let mut r = about_thread("force-killing thread ", thread.index(), " after ");
    r.append(text::decimal_string(seconds).as_str());
    r.append("s in state ");
    r.append(thread.state().name());
    r
}

/// That a thread could not be woken.
pub fn not_drainable(thread_index: usize, shutting_down: bool) -> (r: String)
    ensures
        r@ == line(
            "thread "@,
            thread_index,
            if shutting_down {
                " had no open drain generation during shutdown"@
            } else {
                " had no open drain generation during handler transition"@
            },
        ),
{
    if shutting_down {
        about_thread("thread ", thread_index, " had no open drain generation during shutdown")
    } else {
        about_thread(
            "thread ",
            thread_index,
            " had no open drain generation during handler transition",
        )
    }
}

/// A line about a thread names it by the digits of its number, between the two parts.
pub proof fn lemma_line_names_the_thread(before: Seq<char>, thread_index: usize, after: Seq<char>)
    ensures
        ({
            let s = line(before, thread_index, after);
            let n = text::decimal_chars(thread_index as nat).len();
            &&& s.len() == before.len() + n + after.len()
            &&& s.take(before.len() as int) == before
            &&& s.skip((before.len() + n) as int) == after
            &&& text::digits_value(
                encode_utf8(s.subrange(before.len() as int, (before.len() + n) as int)),
            ) == thread_index
        }),
{
    let s = line(before, thread_index, after);
    let d = text::decimal_chars(thread_index as nat);
    text::lemma_decimal_characters(thread_index as nat);
    text::lemma_decimal_reads_back(thread_index as nat);
    assert(s.take(before.len() as int) =~= before);
    assert(s.skip((before.len() + d.len()) as int) =~= after);
    assert(s.subrange(before.len() as int, (before.len() + d.len()) as int) =~= d);
}

} // verus!
