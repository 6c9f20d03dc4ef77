# frankenrust

An HTTP/1.1 server that runs PHP scripts on a pool of interpreter threads inside its own process.
The interpreter is C. It calls back for everything that concerns a request or the life of a
thread, and what it is answered is decided by a library that is verified with Verus.

- `src/` is the library. It performs no I/O and never blocks. Where a thread has to wait, the
  library hands out a ticket and says when it is no longer pending.
  - `path`, `cgi`, `quote`, `headers`: request paths below a document root, the split into script
    and path info, quoting for messages, header names and values.
  - `context`: a request, what belongs to serving it, and the table of requests by thread.
  - `callbacks/`: the answers to the interpreter's callbacks.
  - `state`, `drain`, `thread`, `thread_inactive`, `thread_regular`, `registry`, `boot`,
    `shutdown`: the threads, from their start to the drain of all of them.
  - `server/`: from the head of an HTTP request to a context, and from what a script sent to a
    response.
- `tests/` runs the library on concrete values, with the real outside crates.
- `app/` is the program: the listener, the C interface, the locks and the waiting.

The contracts say what each function returns and changes. Laws that span several functions are
public proof functions beside what they speak of, such as that no request reaches a file outside
the document root, that a wake-up is never lost, and that the interpreter is torn down under no
thread that still runs.

Calls into outside crates stand behind small functions whose contracts are trusted: channels of
`crossbeam-channel`, and names, values and status codes of `hyper`. So do four functions of std
on characters and strings: `String::push`, `char::from_u32`, `String::from_utf8` and
`String::from_utf8_lossy`.
