//! The decisions around running an exercise's tests: when to stop waiting
//! for the test process, and what a build and a run amount to.

use vstd::prelude::*;
use vstd::string::StringSliceAdditionalSpecFns;

verus! {

/// How long the tests of an exercise may take to compile, in milliseconds.
pub const BUILD_TIMEOUT_MS: u64 = 300000;

/// How long the compiled tests of an exercise may run, in milliseconds.
pub const RUN_TIMEOUT_MS: u64 = 10000;

/// How long to sleep between two looks at the test process, in
/// milliseconds.
pub const POLL_INTERVAL_MS: u64 = 50;

/// The note appended to the output of a compile that ran out of time.
pub const BUILD_TIMEOUT_NOTE: &'static str = "\n\ncompile timed out\n";

/// The note appended to the output of tests that ran out of time.
pub const RUN_TIMEOUT_NOTE: &'static str = "\n\n\x1b[31m\x1b[1mtimed out after 10s \u{2014} killed (the program didn't finish)\x1b[0m\n";

/// What to do after one look at the test process.
#[derive(Clone, Copy, Debug, PartialEq, Eq, Structural)]
pub enum PollStep {
    /// The process has ended, with this exit code (none when a signal ended it).
    Exited(Option<i32>),
    /// The process ran out of time: kill its whole process group.
    Kill,
    /// Sleep a little and look again.
    Wait,
}

/// One look at the test process: `exited` is its exit status if it has
/// ended; otherwise it is killed once `elapsed_ms` reaches `timeout_ms`.
pub fn poll_step(exited: Option<Option<i32>>, elapsed_ms: u64, timeout_ms: u64) -> (res: PollStep)
    ensures
        match exited {
            Some(code) => res == PollStep::Exited(code),
            None => res == if elapsed_ms >= timeout_ms { PollStep::Kill } else { PollStep::Wait },
        },
{
    match exited {
        Some(code) => PollStep::Exited(code),
        None => if elapsed_ms >= timeout_ms {
            PollStep::Kill
        } else {
            PollStep::Wait
        },
    }
}

/// Appends the UTF-8 bytes of `note` to `out`.
pub fn append_note(out: &mut Vec<u8>, note: &str)
    ensures
        final(out)@ == old(out)@ + note.spec_bytes(),
{
    let bytes = note.as_bytes();
    let mut i: usize = 0;
    while i < bytes.len()
        invariant
            bytes@ == note.spec_bytes(),
            i <= bytes@.len(),
            out@ == old(out)@ + bytes@.take(i as int),
        decreases bytes@.len() - i,
    {
        out.push(bytes[i]);
        assert(bytes@.take(i + 1) =~= bytes@.take(i as int).push(bytes@[i as int]));
        i = i + 1;
    }
    assert(bytes@.take(bytes@.len() as int) =~= bytes@);
}

/// What a compile of the tests amounts to: `Some((false, output))` when
/// it ran out of time (with a note appended) or did not exit with code 0;
/// `None` when the tests compiled and can be run.
pub fn after_build(killed: bool, code: Option<i32>, out: Vec<u8>) -> (res: Option<(bool, Vec<u8>)>)
    ensures
        killed ==> (res matches Some((ok, o)) && !ok && o@ == out@ + BUILD_TIMEOUT_NOTE.spec_bytes()),
        !killed && code != Some(0i32) ==> (res matches Some((ok, o)) && !ok && o@ == out@),
        !killed && code == Some(0i32) ==> res is None,
{
    if killed {
        let mut out = out;
        append_note(&mut out, BUILD_TIMEOUT_NOTE);
        return Some((false, out));
    }
    match code {
        Some(0) => None,
        _ => Some((false, out)),
    }
}

/// What a run of the tests amounts to: it passed when it exited with code
/// 0 and was not killed; a killed run gets a note appended to its output.
pub fn after_run(killed: bool, code: Option<i32>, out: Vec<u8>) -> (res: (bool, Vec<u8>))
    ensures
        res.0 == (code == Some(0i32) && !killed),
        killed ==> res.1@ == out@ + RUN_TIMEOUT_NOTE.spec_bytes(),
        !killed ==> res.1@ == out@,
{
    let mut success = match code {
        Some(0) => true,
        _ => false,
    };
    let mut out = out;
    if killed {
        success = false;
        append_note(&mut out, RUN_TIMEOUT_NOTE);
    }
    (success, out)
}

} // verus!
