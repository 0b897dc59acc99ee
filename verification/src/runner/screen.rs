//! The text of the watch-mode screen.

use vstd::prelude::*;
use vstd::string::StringSliceAdditionalSpecFns;
use vstd::utf8::encode_utf8;
use crate::runner::cli::{BOLD, DIM, RESET};
use crate::runner::paths::{key_of, key_spec, PathParts};
use crate::runner::testrun::append_note;
use crate::runner::watch::WatchState;

verus! {

/// The line shown under a passed exercise (with the empty line after it).
pub const PASSED_LINE: &'static str = "\x1b[32m\x1b[1m\u{2713} passed\x1b[0m \u{2014} press \x1b[1mn\x1b[0m for the next exercise\n\n";

/// The line shown under a failed exercise (with the empty line after it).
pub const FAILED_LINE: &'static str = "\x1b[31m\x1b[1m\u{2717} failed\x1b[0m \u{2014} edit & save, or press \x1b[1mr\x1b[0m to re-run\n\n";

/// The reminder of the watch keys that follows the progress count.
pub const KEYS_HINT: &'static str = "   \x1b[1mr\x1b[0m\x1b[2m:run  \x1b[1mn\x1b[0m:next  \x1b[1mh\x1b[0m:notes  \x1b[1ml\x1b[0m:list  \x1b[1mq\x1b[0m:quit\x1b[0m\n";

/// The character of a decimal digit.
pub open spec fn digit_char(d: nat) -> char {
    if d == 0 { '0' } else if d == 1 { '1' } else if d == 2 { '2' } else if d == 3 { '3' }
    else if d == 4 { '4' } else if d == 5 { '5' } else if d == 6 { '6' } else if d == 7 { '7' }
    else if d == 8 { '8' } else { '9' }
}

/// The decimal text of a number, without leading zeros.
pub open spec fn decimal(n: nat) -> Seq<char>
    decreases n,
{
    if n < 10 {
        seq![digit_char(n)]
    } else {
        decimal(n / 10).push(digit_char(n % 10))
    }
}

/// The number that a text of decimal digits stands for, the last digit
/// counting ones.
pub open spec fn digits_value(s: Seq<char>) -> int
    decreases s.len(),
{
    if s.len() == 0 {
        0
    } else {
        digits_value(s.drop_last()) * 10 + (s.last() as int - '0' as int)
    }
}

/// The decimal text of a number is made of the characters `0`..=`9`, reads
/// back as that number, and has no leading zero (the text of zero is `0`).
pub proof fn lemma_decimal_reads_back(n: nat)
    ensures
        decimal(n).len() >= 1,
        forall|i: int| 0 <= i < decimal(n).len() ==> '0' <= #[trigger] decimal(n)[i] && decimal(n)[i] <= '9',
        digits_value(decimal(n)) == n,
        decimal(n)[0] == '0' <==> n == 0,
    decreases n,
{
    assert(forall|d: nat| d < 10 ==> #[trigger] digit_char(d) as int == '0' as int + d);
    if n >= 10 {
        lemma_decimal_reads_back(n / 10);
        let prev = decimal(n / 10);
        let cur = decimal(n);
        assert(cur == prev.push(digit_char(n % 10)));
        assert(cur.drop_last() =~= prev);
        assert forall|i: int| 0 <= i < cur.len() implies '0' <= #[trigger] cur[i] && cur[i] <= '9' by {
            if i < prev.len() {
                assert(cur[i] == prev[i]);
            }
        }
        assert(cur[0] == prev[0]);
        assert(cur.last() == digit_char(n % 10));
        assert(digits_value(cur) == digits_value(prev) * 10 + (digit_char(n % 10) as int - '0' as int));
        assert((n / 10) * 10 + n % 10 == n);
    } else {
        let cur = decimal(n);
        assert(cur.drop_last() =~= Seq::<char>::empty());
        assert(digits_value(cur.drop_last()) == 0);
        assert(cur.last() == digit_char(n));
        assert(digits_value(cur) == digits_value(cur.drop_last()) * 10 + (cur.last() as int - '0' as int));
    }
}

/// The text of one decimal digit.
fn digit_text(d: usize) -> (res: &'static str)
    requires
        d < 10,
    ensures
        res@ == seq![digit_char(d as nat)],
{
    proof {
        reveal_strlit("0");
        reveal_strlit("1");
        reveal_strlit("2");
        reveal_strlit("3");
        reveal_strlit("4");
        reveal_strlit("5");
        reveal_strlit("6");
        reveal_strlit("7");
        reveal_strlit("8");
        reveal_strlit("9");
    }
    if d == 0 {
        assert("0"@ =~= seq!['0']);
        "0"
    } else if d == 1 {
        assert("1"@ =~= seq!['1']);
        "1"
    } else if d == 2 {
        assert("2"@ =~= seq!['2']);
        "2"
    } else if d == 3 {
        assert("3"@ =~= seq!['3']);
        "3"
    } else if d == 4 {
        assert("4"@ =~= seq!['4']);
        "4"
    } else if d == 5 {
        assert("5"@ =~= seq!['5']);
        "5"
    } else if d == 6 {
        assert("6"@ =~= seq!['6']);
        "6"
    } else if d == 7 {
        assert("7"@ =~= seq!['7']);
        "7"
    } else if d == 8 {
        assert("8"@ =~= seq!['8']);
        "8"
    } else {
        assert("9"@ =~= seq!['9']);
        "9"
    }
}

/// The decimal text of a number (as `{}` formats it).
pub fn decimal_text(n: usize) -> (res: String)
    ensures
        res@ == decimal(n as nat),
    decreases n,
{
    if n < 10 {
        String::from_str(digit_text(n))
    } else {
        let mut s = decimal_text(n / 10);
        s.append(digit_text(n % 10));
        s
    }
}

/// The top of the screen: which exercise, of how many, and its key.
pub open spec fn screen_head(number: nat, total: nat, key: Seq<char>) -> Seq<char> {
    BOLD@ + "exercise "@ + decimal(number) + "/"@ + decimal(total) + ": "@ + key + RESET@ + "\n\n"@
}

/// The bottom of the screen, after the test output: the notes when they
/// are shown, whether the exercise passed, and the progress with the keys.
pub open spec fn screen_tail(passed: bool, show_notes: bool, notes: Seq<char>, done_count: nat, total: nat) -> Seq<char> {
    "\n\n"@ + (if show_notes { notes + "\n\n"@ } else { Seq::empty() })
        + (if passed { PASSED_LINE@ } else { FAILED_LINE@ })
        + DIM@ + "progress "@ + decimal(done_count) + "/"@ + decimal(total) + KEYS_HINT@
}

/// Appends the bytes of `bytes` to `out`.
fn append_bytes(out: &mut Vec<u8>, bytes: &[u8])
    ensures
        final(out)@ == old(out)@ + bytes@,
{
    let mut i: usize = 0;
    while i < bytes.len()
        invariant
            i <= bytes@.len(),
            out@ == old(out)@ + bytes@.take(i as int),
        decreases bytes@.len() - i,
    {
        out.push(bytes[i]);
        assert(bytes@.take(i + 1) =~= bytes@.take(i as int).push(bytes@[i as int]));
        i = i + 1;
    }
    assert(bytes@.take(bytes@.len() as int) =~= bytes@);
}

/// The whole watch-mode screen for the state: the current exercise's
/// number (counted from 1), the number of exercises and its key; the output
/// of its last run; then `notes` when the notes are shown, whether it
/// passed, and how many exercises are recorded as passed.
pub fn screen(root: &PathParts, exercises: &[PathParts], state: &WatchState, output: &[u8], notes: &str) -> (res: Vec<u8>)
    requires
        state.inv(root@, exercises@),
    ensures
        res@ == encode_utf8(screen_head((state.cur_idx + 1) as nat, exercises@.len(), key_spec(root@, exercises@[state.cur_idx as int]@)))
            + output@
            + encode_utf8(screen_tail(state.passed, state.show_notes, notes@, state.done@.len(), exercises@.len())),
{
    let total = exercises.len();
    let key = key_of(root, &exercises[state.cur_idx]);
    let mut head = String::from_str(BOLD);
    head.append("exercise ");
    let number = decimal_text(state.cur_idx + 1);
    head.append(number.as_str());
    head.append("/");
    let total_text = decimal_text(total);
    head.append(total_text.as_str());
    head.append(": ");
    head.append(key.as_str());
    head.append(RESET);
    head.append("\n\n");

    let mut tail = String::from_str("\n\n");
    if state.show_notes {
        tail.append(notes);
        tail.append("\n\n");
    }
    if state.passed {
        tail.append(PASSED_LINE);
    } else {
        tail.append(FAILED_LINE);
    }
    tail.append(DIM);
    tail.append("progress ");
    let count = decimal_text(state.done.len());
    tail.append(count.as_str());
    tail.append("/");
    tail.append(total_text.as_str());
    tail.append(KEYS_HINT);

    assert(head@ =~= screen_head((state.cur_idx + 1) as nat, exercises@.len(), key_spec(root@, exercises@[state.cur_idx as int]@)));
    assert(tail@ =~= screen_tail(state.passed, state.show_notes, notes@, state.done@.len(), exercises@.len()));
    let mut res: Vec<u8> = Vec::new();
    append_note(&mut res, head.as_str());
    assert(res@ =~= encode_utf8(head@));
    append_bytes(&mut res, output);
    append_note(&mut res, tail.as_str());
    res
}

} // verus!
