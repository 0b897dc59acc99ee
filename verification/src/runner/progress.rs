//! The record of passed exercises, and the choices made from it: which
//! exercise is next, which one a name picks, what the list shows.

use vstd::prelude::*;
use crate::runner::paths::{key_of, key_spec, PathParts};
use crate::text::{contains_substring, contains_text, join_texts, join_with};
use crate::split::{lead_ws, lemma_lead_ws, lemma_line_len_split, lemma_trail_ws, line_len, lines, strip_cr, text_lines, text_trim, text_trim_start, trail_ws, trim, white_space};
use crate::runner::order::{sort_texts, texts_sorted};

verus! {

/// The keys of passed exercises, each recorded once.
#[derive(Debug)]
pub struct DoneSet {
    keys: Vec<String>,
}

impl View for DoneSet {
    type V = Set<Seq<char>>;

    closed spec fn view(&self) -> Set<Seq<char>> {
        self.keys.deep_view().to_set()
    }
}

impl DoneSet {
    /// No key is recorded twice.
    pub closed spec fn wf(&self) -> bool {
        self.keys.deep_view().no_duplicates()
    }

    /// The record with nothing passed.
    pub fn new() -> (res: DoneSet)
        ensures
            res.wf(),
            res@ == Set::<Seq<char>>::empty(),
    {
        let res = DoneSet { keys: Vec::new() };
        assert(res.keys.deep_view() =~= Seq::<Seq<char>>::empty());
        assert(res@ =~= Set::<Seq<char>>::empty());
        res
    }

    /// The position of `key` among the recorded keys, if it is recorded.
    fn position(&self, key: &str) -> (res: Option<usize>)
        ensures
            match res {
                Some(i) => i < self.keys@.len() && self.keys.deep_view()[i as int] == key@,
                None => !self.keys.deep_view().contains(key@),
            },
    {
        let mut i: usize = 0;
        while i < self.keys.len()
            invariant
                i <= self.keys@.len(),
                forall|j: int| 0 <= j < i ==> self.keys.deep_view()[j] != key@,
            decreases self.keys@.len() - i,
        {
            if self.keys[i].as_str().to_owned() == key.to_owned() {
                return Some(i);
            }
            i = i + 1;
        }
        None
    }

    /// Whether `key` is recorded.
    pub fn contains(&self, key: &str) -> (res: bool)
        ensures
            res == self@.contains(key@),
    {
        self.position(key).is_some()
    }

    /// Records `key`; answers whether it was not recorded before.
    pub fn insert(&mut self, key: String) -> (res: bool)
        requires
            old(self).wf(),
        ensures
            final(self).wf(),
            final(self)@ == old(self)@.insert(key@),
            res == !old(self)@.contains(key@),
    {
        if self.position(key.as_str()).is_some() {
            assert(self@ =~= old(self)@.insert(key@));
            return false;
        }
        let ghost before = self.keys.deep_view();
        let ghost k = key@;
        self.keys.push(key);
        assert(self.keys.deep_view() =~= before.push(k));
        proof {
            before.lemma_push_to_set_commute(k);
        }
        true
    }

    /// Removes `key` from the record; answers whether it was recorded.
    pub fn remove(&mut self, key: &str) -> (res: bool)
        requires
            old(self).wf(),
        ensures
            final(self).wf(),
            final(self)@ == old(self)@.remove(key@),
            res == old(self)@.contains(key@),
    {
        match self.position(key) {
            None => {
                assert(self@ =~= old(self)@.remove(key@));
                false
            },
            Some(i) => {
                let ghost before = self.keys.deep_view();
                self.keys.remove(i);
                let ghost after = self.keys.deep_view();
                assert(after =~= before.remove(i as int));
                assert forall|x: Seq<char>| after.contains(x) <==> before.contains(x) && x != key@ by {
                    if after.contains(x) {
                        let j = choose|j: int| 0 <= j < after.len() && after[j] == x;
                        if j < i {
                            assert(before[j] == x);
                        } else {
                            assert(before[j + 1] == x);
                        }
                    }
                    if before.contains(x) && x != key@ {
                        let j = choose|j: int| 0 <= j < before.len() && before[j] == x;
                        if j < i {
                            assert(after[j] == x);
                        } else {
                            assert(j != i);
                            assert(after[j - 1] == x);
                        }
                    }
                }
                assert(self@ =~= old(self)@.remove(key@));
                true
            },
        }
    }

    /// The number of recorded keys.
    pub fn len(&self) -> (res: usize)
        requires
            self.wf(),
        ensures
            res == self@.len(),
    {
        proof {
            self.keys.deep_view().unique_seq_to_set();
        }
        self.keys.len()
    }
}

/// The keys that the first `n` lines record: each line, trimmed, when the
/// trimmed line is not empty.
pub open spec fn recorded_upto(lines: Seq<Seq<char>>, n: int) -> Set<Seq<char>>
    decreases n,
{
    if n <= 0 {
        Set::empty()
    } else {
        let prev = recorded_upto(lines, n - 1);
        let t = text_trim(lines[n - 1]);
        if t.len() > 0 {
            prev.insert(t)
        } else {
            prev
        }
    }
}

/// The keys that the text of a state file records.
pub open spec fn recorded_in(content: Seq<char>) -> Set<Seq<char>> {
    recorded_upto(text_lines(content), text_lines(content).len() as int)
}

/// A key is recorded by the first `n` lines exactly when one of them,
/// trimmed, is that key and is not empty.
proof fn lemma_recorded_upto_meaning(lines: Seq<Seq<char>>, n: int)
    requires
        0 <= n <= lines.len(),
    ensures
        forall|k: Seq<char>| #[trigger] recorded_upto(lines, n).contains(k)
            <==> k.len() > 0 && exists|i: int| 0 <= i < n && text_trim(#[trigger] lines[i]) == k,
    decreases n,
{
    if n > 0 {
        lemma_recorded_upto_meaning(lines, n - 1);
        assert forall|k: Seq<char>| #[trigger] recorded_upto(lines, n).contains(k)
            <==> k.len() > 0 && exists|i: int| 0 <= i < n && text_trim(#[trigger] lines[i]) == k by {
            if recorded_upto(lines, n).contains(k) {
                if !recorded_upto(lines, n - 1).contains(k) {
                    assert(text_trim(lines[n - 1]) == k);
                } else {
                    let i = choose|i: int| 0 <= i < n - 1 && text_trim(#[trigger] lines[i]) == k;
                    assert(0 <= i < n && text_trim(lines[i]) == k);
                }
            }
            if k.len() > 0 && exists|i: int| 0 <= i < n && text_trim(#[trigger] lines[i]) == k {
                let i = choose|i: int| 0 <= i < n && text_trim(#[trigger] lines[i]) == k;
                if i < n - 1 {
                    assert(recorded_upto(lines, n - 1).contains(k));
                }
            }
        }
    }
}

/// The keys that a state file records are exactly its lines, trimmed of
/// white space, that are not empty.
pub proof fn lemma_recorded_in_meaning(content: Seq<char>)
    ensures
        forall|k: Seq<char>| #[trigger] recorded_in(content).contains(k)
            <==> k.len() > 0 && exists|i: int| 0 <= i < text_lines(content).len() && text_trim(#[trigger] text_lines(content)[i]) == k,
{
    lemma_recorded_upto_meaning(text_lines(content), text_lines(content).len() as int);
}

/// The text of a state file that lists the keys `q`, in this order: the
/// keys joined by newlines, with a final newline unless that text is empty.
pub open spec fn state_text(q: Seq<Seq<char>>) -> Seq<char> {
    let body = join_texts(q, seq!['\n']);
    if body.len() == 0 {
        body
    } else {
        body + seq!['\n']
    }
}

impl DoneSet {
    /// The record that the text of a state file holds: every line, trimmed
    /// of white space, that is not empty.
    pub fn from_text(content: &str) -> (res: DoneSet)
        ensures
            res.wf(),
            res@ == recorded_in(content@),
    {
        let all = lines(content);
        let ghost ls = all.deep_view();
        let mut done = DoneSet::new();
        let mut i: usize = 0;
        while i < all.len()
            invariant
                i <= all@.len(),
                ls == all.deep_view(),
                ls == text_lines(content@),
                done.wf(),
                done@ == recorded_upto(ls, i as int),
            decreases all@.len() - i,
        {
            let t = trim(all[i].as_str());
            if !t.is_empty() {
                done.insert(t.to_owned());
            }
            i = i + 1;
        }
        done
    }

    /// The text of the state file for this record: the keys in order,
    /// one per line.
    pub fn to_text(&self) -> (res: String)
        requires
            self.wf(),
        ensures
            exists|q: Seq<Seq<char>>| {
                &&& texts_sorted(q)
                &&& q.no_duplicates()
                &&& q.to_set() == self@
                &&& res@ == state_text(q)
            },
    {
        let mut copy: Vec<String> = Vec::new();
        let mut i: usize = 0;
        while i < self.keys.len()
            invariant
                i <= self.keys@.len(),
                copy.deep_view() == self.keys.deep_view().take(i as int),
            decreases self.keys@.len() - i,
        {
            let ghost before = copy.deep_view();
            let k = self.keys[i].clone();
            copy.push(k);
            assert(copy.deep_view() =~= before.push(self.keys.deep_view()[i as int]));
            assert(copy.deep_view() =~= self.keys.deep_view().take(i + 1));
            i = i + 1;
        }
        assert(self.keys.deep_view().take(self.keys@.len() as int) =~= self.keys.deep_view());
        let sorted = sort_texts(copy);
        let ghost q = sorted.deep_view();
        let ghost orig = self.keys.deep_view();
        proof {
            broadcast use vstd::seq_lib::group_to_multiset_ensures;
            orig.lemma_multiset_has_no_duplicates();
            assert forall|x: Seq<char>| q.to_multiset().count(x) <= 1 by {
                assert(q.to_multiset().count(x) == orig.to_multiset().count(x));
            }
            q.lemma_multiset_has_no_duplicates_conv();
            assert forall|x: Seq<char>| q.to_set().contains(x) <==> self@.contains(x) by {
                assert(q.contains(x) <==> q.to_multiset().count(x) > 0);
                assert(orig.contains(x) <==> orig.to_multiset().count(x) > 0);
            }
            assert(q.to_set() =~= self@);
        }
        let sorted_slice = sorted.as_slice();
        assert(sorted_slice.deep_view() =~= q);
        let mut body = join_with(sorted_slice, "\n");
        proof {
            reveal_strlit("\n");
            assert("\n"@ =~= seq!['\n']);
        }
        if !body.as_str().is_empty() {
            body.append("\n");
        }
        assert(body@ == state_text(q));
        body
    }
}

/// A key that the state file keeps as it is: not empty, without a
/// newline, and without white space at either end.
pub open spec fn clean_key(k: Seq<char>) -> bool {
    &&& k.len() > 0
    &&& forall|j: int| 0 <= j < k.len() ==> #[trigger] k[j] != '\n'
    &&& text_trim(k) == k
}

/// A clean key neither begins nor ends with white space.
proof fn lemma_clean_key_ends(k: Seq<char>)
    requires
        clean_key(k),
    ensures
        !white_space(k[0]),
        !white_space(k.last()),
{
    lemma_lead_ws(k);
    let t = text_trim_start(k);
    lemma_trail_ws(t);
    assert(text_trim(k).len() == t.len() - trail_ws(t));
    assert(lead_ws(k) == 0);
    assert(t =~= k);
    assert(trail_ws(k) == 0);
}

/// Joining from the front: the first item, the separator, then the rest
/// joined.
proof fn lemma_join_front(q: Seq<Seq<char>>, sep: Seq<char>)
    requires
        q.len() >= 2,
    ensures
        join_texts(q, sep) == q[0] + sep + join_texts(q.drop_first(), sep),
    decreases q.len(),
{
    if q.len() == 2 {
        assert(q.drop_last().len() == 1);
        assert(join_texts(q.drop_last(), sep) == q[0]);
        assert(q.drop_first() =~= seq![q[1]]);
        assert(join_texts(q.drop_first(), sep) == q[1]);
        assert(join_texts(q, sep) =~= q[0] + sep + q[1]);
    } else {
        let dl = q.drop_last();
        lemma_join_front(dl, sep);
        assert(dl.drop_first() =~= q.drop_first().drop_last());
        assert(q.drop_first().last() == q.last());
        let j = join_texts(dl.drop_first(), sep);
        assert(join_texts(q.drop_first(), sep) == j + sep + q.last());
        assert(join_texts(q, sep) == (q[0] + sep + j) + sep + q.last());
        assert((q[0] + sep + j) + sep + q.last() =~= q[0] + sep + (j + sep + q.last()));
    }
}

/// A non-empty list of non-empty keys joins to a non-empty text.
proof fn lemma_join_nonempty(q: Seq<Seq<char>>, sep: Seq<char>)
    requires
        q.len() >= 1,
        q.last().len() > 0,
    ensures
        join_texts(q, sep).len() > 0,
{
}

/// The state text of clean keys splits back into exactly those keys.
proof fn lemma_state_text_lines(q: Seq<Seq<char>>)
    requires
        forall|i: int| 0 <= i < q.len() ==> clean_key(#[trigger] q[i]),
    ensures
        text_lines(state_text(q)) == q,
    decreases q.len(),
{
    let nl = seq!['\n'];
    if q.len() == 0 {
        assert(state_text(q).len() == 0);
        assert(text_lines(state_text(q)) =~= q);
    } else {
        let k = q[0];
        let rest = q.drop_first();
        assert(clean_key(k));
        lemma_clean_key_ends(k);
        assert(clean_key(q.last()));
        lemma_join_nonempty(q, nl);
        let r = if q.len() == 1 {
            Seq::<char>::empty()
        } else {
            state_text(rest)
        };
        if q.len() == 1 {
            assert(join_texts(q, nl) == k);
        } else {
            lemma_join_front(q, nl);
            assert(clean_key(rest.last()));
            lemma_join_nonempty(rest, nl);
        }
        let text = state_text(q);
        assert(text =~= k + nl + r);
        assert forall|j: int| 0 <= j < k.len() implies #[trigger] text[j] != '\n' by {
            assert(text[j] == k[j]);
        }
        lemma_line_len_split(text, k.len() as int);
        assert(text.skip(k.len() as int)[0] == '\n');
        assert(line_len(text) == k.len());
        assert(text.take(k.len() as int) =~= k);
        assert(k.last() != '\r');
        assert(strip_cr(k) == k);
        assert(text.skip(k.len() as int + 1) =~= r);
        if q.len() > 1 {
            assert forall|i: int| 0 <= i < rest.len() implies clean_key(#[trigger] rest[i]) by {
                assert(rest[i] == q[i + 1]);
            }
            lemma_state_text_lines(rest);
        } else {
            assert(text_lines(r) =~= Seq::<Seq<char>>::empty());
            assert(rest =~= Seq::<Seq<char>>::empty());
        }
        assert(text_lines(text) =~= seq![k] + rest);
        assert(q =~= seq![k] + rest);
    }
}

/// Lines that are already trimmed and not empty are recorded as they are.
proof fn lemma_recorded_upto_clean(q: Seq<Seq<char>>, n: int)
    requires
        0 <= n <= q.len(),
        forall|i: int| 0 <= i < q.len() ==> clean_key(#[trigger] q[i]),
    ensures
        recorded_upto(q, n) == q.take(n).to_set(),
    decreases n,
{
    if n == 0 {
        assert(q.take(0).to_set() =~= Set::<Seq<char>>::empty());
    } else {
        lemma_recorded_upto_clean(q, n - 1);
        assert(clean_key(q[n - 1]));
        assert(q.take(n) =~= q.take(n - 1).push(q[n - 1]));
        q.take(n - 1).lemma_push_to_set_commute(q[n - 1]);
    }
}

/// Saving a record and loading it back gives the same record, for keys
/// that are not empty, hold no newline, and have no white space at either
/// end: the state text of any listing of the record's keys records exactly
/// those keys.
pub proof fn lemma_saved_record_loads_back(record: Set<Seq<char>>, q: Seq<Seq<char>>)
    requires
        q.to_set() == record,
        forall|i: int| 0 <= i < q.len() ==> clean_key(#[trigger] q[i]),
    ensures
        recorded_in(state_text(q)) == record,
{
    lemma_state_text_lines(q);
    lemma_recorded_upto_clean(q, q.len() as int);
    assert(q.take(q.len() as int) =~= q);
}

/// What to do once an exercise's tests have run.
#[derive(Clone, Copy, Debug, PartialEq, Eq, Structural)]
pub enum OutcomeAction {
    /// The exercise passed and is recorded: save the record and go on.
    SaveAndContinue,
    /// The exercise failed: stop (with a failing exit status).
    Stop,
}

/// Takes in the outcome of running the exercise with this key: a pass is
/// recorded, and the record is then to be saved before going on; a failure
/// leaves the record as it is and stops.
pub fn record_outcome(done: &mut DoneSet, key: String, success: bool) -> (action: OutcomeAction)
    requires
        old(done).wf(),
    ensures
        final(done).wf(),
        success ==> final(done)@ == old(done)@.insert(key@) && action == OutcomeAction::SaveAndContinue,
        !success ==> final(done)@ == old(done)@ && action == OutcomeAction::Stop,
{
    if success {
        done.insert(key);
        OutcomeAction::SaveAndContinue
    } else {
        OutcomeAction::Stop
    }
}

/// The keys of a list of exercise directories.
pub open spec fn keys_of(root: Seq<Seq<char>>, exercises: Seq<PathParts>) -> Seq<Seq<char>> {
    exercises.map_values(|d: PathParts| key_spec(root, d@))
}

/// The first position at or after `i` whose key is not recorded, if any.
pub open spec fn first_pending_from(keys: Seq<Seq<char>>, done: Set<Seq<char>>, i: int) -> Option<int>
    decreases keys.len() - i,
{
    if i < 0 || i >= keys.len() {
        None
    } else if !done.contains(keys[i]) {
        Some(i)
    } else {
        first_pending_from(keys, done, i + 1)
    }
}

/// The first exercise, in course order, that is not recorded as passed.
pub open spec fn first_pending(keys: Seq<Seq<char>>, done: Set<Seq<char>>) -> Option<int> {
    first_pending_from(keys, done, 0)
}

/// What the first pending position is: a key not recorded, after only
/// recorded ones; or none when every key is recorded.
pub proof fn lemma_first_pending_meaning(keys: Seq<Seq<char>>, done: Set<Seq<char>>)
    ensures
        match first_pending(keys, done) {
            Some(i) => 0 <= i < keys.len() && !done.contains(keys[i])
                && forall|j: int| 0 <= j < i ==> done.contains(#[trigger] keys[j]),
            None => forall|j: int| 0 <= j < keys.len() ==> done.contains(#[trigger] keys[j]),
        },
{
    lemma_first_pending_from_meaning(keys, done, 0);
}

proof fn lemma_first_pending_from_meaning(keys: Seq<Seq<char>>, done: Set<Seq<char>>, i: int)
    requires
        0 <= i <= keys.len(),
    ensures
        match first_pending_from(keys, done, i) {
            Some(p) => i <= p < keys.len() && !done.contains(keys[p])
                && forall|j: int| i <= j < p ==> done.contains(#[trigger] keys[j]),
            None => forall|j: int| i <= j < keys.len() ==> done.contains(#[trigger] keys[j]),
        },
    decreases keys.len() - i,
{
    if i < keys.len() && done.contains(keys[i]) {
        lemma_first_pending_from_meaning(keys, done, i + 1);
    }
}

/// The index of the first exercise that is not recorded as passed; `None`
/// when all are.
pub fn first_pending_idx(root: &PathParts, exercises: &[PathParts], done: &DoneSet) -> (res: Option<usize>)
    ensures
        match res {
            Some(i) => first_pending(keys_of(root@, exercises@), done@) == Some(i as int),
            None => first_pending(keys_of(root@, exercises@), done@) is None,
        },
{
    let ghost keys = keys_of(root@, exercises@);
    let mut i: usize = 0;
    while i < exercises.len()
        invariant
            i <= exercises@.len(),
            keys == keys_of(root@, exercises@),
            first_pending(keys, done@) == first_pending_from(keys, done@, i as int),
        decreases exercises@.len() - i,
    {
        let key = key_of(root, &exercises[i]);
        if !done.contains(key.as_str()) {
            return Some(i);
        }
        i = i + 1;
    }
    None
}

/// The positions below `n` whose key contains `name`, in order.
pub open spec fn matches_upto(keys: Seq<Seq<char>>, name: Seq<char>, n: int) -> Seq<int>
    decreases n,
{
    if n <= 0 {
        Seq::empty()
    } else {
        let prev = matches_upto(keys, name, n - 1);
        if contains_text(keys[n - 1], name) {
            prev.push(n - 1)
        } else {
            prev
        }
    }
}

/// The positions of all keys that contain `name`, in order.
pub open spec fn matches_of(keys: Seq<Seq<char>>, name: Seq<char>) -> Seq<int> {
    matches_upto(keys, name, keys.len() as int)
}

/// Why a name picks no single exercise.
#[derive(Debug)]
pub enum FindError {
    /// No key contains the name.
    NotFound,
    /// Several keys contain the name; these are they, in order.
    Ambiguous { keys: Vec<String> },
}

impl FindError {
    /// The message shown for the error, for the name that was looked up.
    pub fn message(&self, name: &str) -> (res: String)
        ensures
            match self {
                FindError::NotFound => res@ == "no exercise matches `"@ + name@ + "`"@,
                FindError::Ambiguous { keys } => res@ == "`"@ + name@ + "` is ambiguous, matches: "@ + join_texts(keys.deep_view(), ", "@),
            },
    {
        match self {
            FindError::NotFound => {
                let mut msg = String::from_str("no exercise matches `");
                msg.append(name);
                msg.append("`");
                msg
            },
            FindError::Ambiguous { keys } => {
                let mut msg = String::from_str("`");
                msg.append(name);
                msg.append("` is ambiguous, matches: ");
                let names = join_with(keys.as_slice(), ", ");
                msg.append(names.as_str());
                msg
            },
        }
    }
}

/// Every match position lies below the bound and above the previous one.
proof fn lemma_matches_upto_bounds(keys: Seq<Seq<char>>, name: Seq<char>, n: int)
    requires
        0 <= n <= keys.len(),
    ensures
        forall|k: int| 0 <= k < matches_upto(keys, name, n).len() ==> 0 <= #[trigger] matches_upto(keys, name, n)[k] < n,
    decreases n,
{
    if n > 0 {
        lemma_matches_upto_bounds(keys, name, n - 1);
        let prev = matches_upto(keys, name, n - 1);
        let cur = matches_upto(keys, name, n);
        assert forall|k: int| 0 <= k < cur.len() implies 0 <= #[trigger] cur[k] < n by {
            if k < prev.len() {
                assert(cur[k] == prev[k]);
            }
        }
    }
}

/// Below `n`, a position is a match exactly when its key contains the name,
/// and the matches rise strictly.
proof fn lemma_matches_upto_exactly(keys: Seq<Seq<char>>, name: Seq<char>, n: int)
    requires
        0 <= n <= keys.len(),
    ensures
        forall|i: int| #[trigger] matches_upto(keys, name, n).contains(i)
            <==> (0 <= i < n && contains_text(keys[i], name)),
        forall|a: int, b: int| 0 <= a < b < matches_upto(keys, name, n).len()
            ==> #[trigger] matches_upto(keys, name, n)[a] < #[trigger] matches_upto(keys, name, n)[b],
    decreases n,
{
    if n > 0 {
        lemma_matches_upto_exactly(keys, name, n - 1);
        lemma_matches_upto_bounds(keys, name, n - 1);
        let prev = matches_upto(keys, name, n - 1);
        let cur = matches_upto(keys, name, n);
        assert forall|i: int| #[trigger] cur.contains(i) <==> (0 <= i < n && contains_text(keys[i], name)) by {
            if contains_text(keys[n - 1], name) {
                assert(cur == prev.push(n - 1));
                if cur.contains(i) {
                    let k = choose|k: int| 0 <= k < cur.len() && cur[k] == i;
                    if k < prev.len() {
                        assert(prev[k] == i);
                        assert(prev.contains(i));
                    }
                }
                if 0 <= i < n && contains_text(keys[i], name) {
                    if i == n - 1 {
                        assert(cur[prev.len() as int] == i);
                    } else {
                        assert(prev.contains(i));
                        let k = choose|k: int| 0 <= k < prev.len() && prev[k] == i;
                        assert(cur[k] == i);
                    }
                }
            } else {
                assert(cur == prev);
            }
        }
        assert forall|a: int, b: int| 0 <= a < b < cur.len() implies #[trigger] cur[a] < #[trigger] cur[b] by {
            if contains_text(keys[n - 1], name) {
                assert(cur == prev.push(n - 1));
                if b == prev.len() {
                    assert(prev[a] < n - 1);
                } else {
                    assert(prev[a] < prev[b]);
                }
            } else {
                assert(cur == prev);
            }
        }
    }
}

/// The matches of a name are exactly the positions of the keys that
/// contain it, each a position of the keys, in strictly rising order.
pub proof fn lemma_matches_exactly(keys: Seq<Seq<char>>, name: Seq<char>)
    ensures
        forall|i: int| 0 <= i < keys.len() ==> (#[trigger] matches_of(keys, name).contains(i)
            <==> contains_text(keys[i], name)),
        forall|k: int| 0 <= k < matches_of(keys, name).len() ==> 0 <= #[trigger] matches_of(keys, name)[k] < keys.len(),
        forall|a: int, b: int| 0 <= a < b < matches_of(keys, name).len()
            ==> #[trigger] matches_of(keys, name)[a] < #[trigger] matches_of(keys, name)[b],
{
    lemma_matches_upto_exactly(keys, name, keys.len() as int);
    lemma_matches_upto_bounds(keys, name, keys.len() as int);
}

/// The exercise whose key contains `name`: refused when none does, and
/// when several do (with their keys).
pub fn find_exercise<'a>(root: &PathParts, exercises: &'a [PathParts], name: &str) -> (res: Result<&'a PathParts, FindError>)
    ensures
        ({
            let m = matches_of(keys_of(root@, exercises@), name@);
            match res {
                Ok(p) => m.len() == 1 && *p == exercises@[m[0]],
                Err(FindError::NotFound) => m.len() == 0,
                Err(FindError::Ambiguous { keys }) => m.len() >= 2
                    && keys.deep_view() == m.map_values(|j: int| keys_of(root@, exercises@)[j]),
            }
        }),
{
    let ghost all = keys_of(root@, exercises@);
    let mut found: Vec<usize> = Vec::new();
    let mut found_keys: Vec<String> = Vec::new();
    let mut i: usize = 0;
    while i < exercises.len()
        invariant
            i <= exercises@.len(),
            all == keys_of(root@, exercises@),
            found@.len() == matches_upto(all, name@, i as int).len(),
            forall|k: int| 0 <= k < found@.len() ==> #[trigger] found@[k] < i,
            forall|k: int| 0 <= k < found@.len() ==> found@[k] as int == #[trigger] matches_upto(all, name@, i as int)[k],
            found_keys.deep_view() == matches_upto(all, name@, i as int).map_values(|j: int| all[j]),
        decreases exercises@.len() - i,
    {
        let key = key_of(root, &exercises[i]);
        proof {
            lemma_matches_upto_bounds(all, name@, i as int);
            lemma_matches_upto_bounds(all, name@, i + 1);
        }
        if contains_substring(key.as_str(), name) {
            let ghost before = found_keys.deep_view();
            assert(matches_upto(all, name@, i + 1) == matches_upto(all, name@, i as int).push(i as int));
            assert(key@ == all[i as int]);
            let ghost k = key@;
            found.push(i);
            found_keys.push(key);
            assert(found_keys.deep_view() =~= before.push(k));
            assert(matches_upto(all, name@, i + 1).map_values(|j: int| all[j]) =~= matches_upto(all, name@, i as int).map_values(|j: int| all[j]).push(all[i as int]));
        } else {
            assert(matches_upto(all, name@, i + 1) == matches_upto(all, name@, i as int));
        }
        i = i + 1;
    }
    proof {
        lemma_matches_upto_bounds(all, name@, exercises@.len() as int);
    }
    if found.len() == 0 {
        Err(FindError::NotFound)
    } else if found.len() == 1 {
        Ok(&exercises[found[0]])
    } else {
        Err(FindError::Ambiguous { keys: found_keys })
    }
}

/// The exercise to run when no name is given: the first one not passed;
/// with a name: the one it picks. `Ok(None)` when every exercise is passed
/// and no name is given.
pub fn select_exercise(root: &PathParts, exercises: &[PathParts], done: &DoneSet, name: Option<&str>) -> (res: Result<Option<PathParts>, FindError>)
    ensures
        ({
            let keys = keys_of(root@, exercises@);
            match name {
                Some(n) => {
                    let m = matches_of(keys, n@);
                    match res {
                        Ok(Some(p)) => m.len() == 1 && p@ == exercises@[m[0]]@,
                        Ok(None) => false,
                        Err(FindError::NotFound) => m.len() == 0,
                        Err(FindError::Ambiguous { keys: ks }) => m.len() >= 2 && ks.deep_view() == m.map_values(|j: int| keys[j]),
                    }
                },
                None => match first_pending(keys, done@) {
                    Some(i) => res matches Ok(Some(p)) && p@ == exercises@[i]@,
                    None => res matches Ok(None),
                },
            }
        }),
{
    match name {
        Some(n) => match find_exercise(root, exercises, n) {
            Ok(p) => Ok(Some(p.clone())),
            Err(e) => Err(e),
        },
        None => match first_pending_idx(root, exercises, done) {
            Some(i) => {
                proof {
                    lemma_first_pending_meaning(keys_of(root@, exercises@), done@);
                }
                Ok(Some(exercises[i].clone()))
            },
            None => Ok(None),
        },
    }
}

/// Clears the passed mark of the exercise that `name` picks. Answers its
/// key and whether it was marked; the record is unchanged when the name
/// picks no single exercise.
pub fn reset_one(root: &PathParts, exercises: &[PathParts], done: &mut DoneSet, name: &str) -> (res: Result<(String, bool), FindError>)
    requires
        old(done).wf(),
    ensures
        final(done).wf(),
        ({
            let keys = keys_of(root@, exercises@);
            let m = matches_of(keys, name@);
            match res {
                Ok((key, was_done)) => m.len() == 1 && key@ == keys[m[0]]
                    && final(done)@ == old(done)@.remove(key@) && was_done == old(done)@.contains(key@),
                Err(FindError::NotFound) => m.len() == 0 && final(done)@ == old(done)@,
                Err(FindError::Ambiguous { keys: ks }) => m.len() >= 2 && final(done)@ == old(done)@
                    && ks.deep_view() == m.map_values(|j: int| keys[j]),
            }
        }),
{
    proof {
        lemma_matches_upto_bounds(keys_of(root@, exercises@), name@, exercises@.len() as int);
    }
    match find_exercise(root, exercises, name) {
        Ok(dir) => {
            let key = key_of(root, dir);
            let was_done = done.remove(key.as_str());
            Ok((key, was_done))
        },
        Err(e) => Err(e),
    }
}

/// How many of the keys are recorded.
pub open spec fn count_recorded(keys: Seq<Seq<char>>, done: Set<Seq<char>>) -> nat
    decreases keys.len(),
{
    if keys.len() == 0 {
        0
    } else {
        count_recorded(keys.drop_last(), done) + if done.contains(keys.last()) { 1nat } else { 0nat }
    }
}

/// The count of recorded keys is the number of keys, with repeats, that the
/// record holds: at most all of them, and all of them exactly when every
/// key is recorded.
pub proof fn lemma_count_recorded(keys: Seq<Seq<char>>, done: Set<Seq<char>>)
    ensures
        count_recorded(keys, done) == keys.filter(|k: Seq<char>| done.contains(k)).len(),
        count_recorded(keys, done) <= keys.len(),
        count_recorded(keys, done) == keys.len() <==> forall|i: int| 0 <= i < keys.len() ==> done.contains(#[trigger] keys[i]),
    decreases keys.len(),
{
    reveal(Seq::filter);
    if keys.len() > 0 {
        let rest = keys.drop_last();
        lemma_count_recorded(rest, done);
        if count_recorded(keys, done) == keys.len() {
            assert forall|i: int| 0 <= i < keys.len() implies done.contains(#[trigger] keys[i]) by {
                if i < keys.len() - 1 {
                    assert(keys[i] == rest[i]);
                }
            }
        }
        if forall|i: int| 0 <= i < keys.len() ==> done.contains(#[trigger] keys[i]) {
            assert forall|i: int| 0 <= i < rest.len() implies done.contains(#[trigger] rest[i]) by {
                assert(keys[i] == rest[i]);
            }
            assert(done.contains(keys[keys.len() - 1]));
        }
    }
}

/// For each exercise, in order, whether it is recorded as passed; and how
/// many are.
pub fn progress_marks(root: &PathParts, exercises: &[PathParts], done: &DoneSet) -> (res: (Vec<bool>, usize))
    ensures
        res.0@ == keys_of(root@, exercises@).map_values(|k: Seq<char>| done@.contains(k)),
        res.1 == count_recorded(keys_of(root@, exercises@), done@),
{
    let ghost keys = keys_of(root@, exercises@);
    let mut marks: Vec<bool> = Vec::new();
    let mut count: usize = 0;
    let mut i: usize = 0;
    while i < exercises.len()
        invariant
            i <= exercises@.len(),
            keys == keys_of(root@, exercises@),
            marks@ == keys.take(i as int).map_values(|k: Seq<char>| done@.contains(k)),
            count == count_recorded(keys.take(i as int), done@),
            count <= i,
        decreases exercises@.len() - i,
    {
        let key = key_of(root, &exercises[i]);
        let passed = done.contains(key.as_str());
        assert(keys.take(i + 1).drop_last() =~= keys.take(i as int));
        marks.push(passed);
        if passed {
            count = count + 1;
        }
        assert(marks@ =~= keys.take(i + 1).map_values(|k: Seq<char>| done@.contains(k)));
        i = i + 1;
    }
    assert(keys.take(exercises@.len() as int) =~= keys);
    (marks, count)
}

} // verus!
