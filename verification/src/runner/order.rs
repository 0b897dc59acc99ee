//! The order of texts (by character code, as `str` orders them) and of
//! paths (component by component, as `Path` orders them: the root first,
//! then `.`, then `..`, then names by their text), and insertion sorts by
//! these orders.

use vstd::prelude::*;
use crate::runner::paths::PathParts;
use crate::text::same_text;

verus! {

broadcast use vstd::seq_lib::group_to_multiset_ensures, vstd::multiset::group_multiset_axioms;

/// Whether text `a` comes strictly before text `b`: at the first character
/// where they differ, `a` has the lower code; or `a` is a proper prefix of
/// `b`.
pub open spec fn text_less(a: Seq<char>, b: Seq<char>) -> bool
    decreases a.len(),
{
    if a.len() == 0 {
        b.len() > 0
    } else if b.len() == 0 {
        false
    } else if a[0] != b[0] {
        (a[0] as int) < (b[0] as int)
    } else {
        text_less(a.drop_first(), b.drop_first())
    }
}

/// Texts are ordered by the character codes at their first difference:
/// where `a` and `b` agree before position `i` and differ at `i`, `a` comes
/// before `b` exactly when its character there has the lower code.
pub proof fn lemma_text_less_at_first_difference(a: Seq<char>, b: Seq<char>, i: int)
    requires
        0 <= i < a.len(),
        i < b.len(),
        a[i] != b[i],
        forall|j: int| 0 <= j < i ==> a[j] == b[j],
    ensures
        text_less(a, b) <==> (a[i] as int) < (b[i] as int),
        text_less(b, a) <==> (b[i] as int) < (a[i] as int),
    decreases i,
{
    if i > 0 {
        assert(a[0] == b[0]);
        assert forall|j: int| 0 <= j < i - 1 implies a.drop_first()[j] == b.drop_first()[j] by {
            assert(a.drop_first()[j] == a[j + 1]);
            assert(b.drop_first()[j] == b[j + 1]);
        }
        lemma_text_less_at_first_difference(a.drop_first(), b.drop_first(), i - 1);
    } else {
        assert((a[0] as int) != (b[0] as int));
    }
}

/// A text comes before every longer text that it begins, and never after it.
pub proof fn lemma_text_less_proper_prefix(a: Seq<char>, b: Seq<char>)
    requires
        a.len() < b.len(),
        b.take(a.len() as int) == a,
    ensures
        text_less(a, b),
        !text_less(b, a),
    decreases a.len(),
{
    if a.len() > 0 {
        assert(a[0] == b.take(a.len() as int)[0]);
        assert(b.drop_first().take(a.drop_first().len() as int) =~= a.drop_first()) by {
            assert forall|j: int| 0 <= j < a.len() - 1 implies b.drop_first()[j] == a.drop_first()[j] by {
                assert(b.take(a.len() as int)[j + 1] == a[j + 1]);
            }
        }
        lemma_text_less_proper_prefix(a.drop_first(), b.drop_first());
    }
}

/// Two one-character texts are ordered by their character codes.
pub proof fn lemma_text_less_single(c: char, d: char)
    ensures
        text_less(seq![c], seq![d]) <==> (c as int) < (d as int),
{
    if c != d {
        lemma_text_less_at_first_difference(seq![c], seq![d], 0);
    } else {
        lemma_text_less_irreflexive(seq![c]);
    }
}

/// The order of texts is transitive.
pub proof fn lemma_text_less_transitive(a: Seq<char>, b: Seq<char>, c: Seq<char>)
    requires
        text_less(a, b),
        text_less(b, c),
    ensures
        text_less(a, c),
    decreases a.len(),
{
    if a.len() > 0 && a[0] == b[0] && b[0] == c[0] {
        lemma_text_less_transitive(a.drop_first(), b.drop_first(), c.drop_first());
    }
}

/// Two texts of which neither comes before the other are equal.
pub proof fn lemma_text_less_total(a: Seq<char>, b: Seq<char>)
    ensures
        text_less(a, b) || text_less(b, a) || a == b,
    decreases a.len(),
{
    if a.len() == 0 && b.len() == 0 {
        assert(a =~= b);
    } else if a.len() > 0 && b.len() > 0 && a[0] != b[0] {
        assert((a[0] as int) != (b[0] as int));
    } else if a.len() > 0 && b.len() > 0 && a[0] == b[0] {
        lemma_text_less_total(a.drop_first(), b.drop_first());
        if a.drop_first() == b.drop_first() {
            assert(a =~= seq![a[0]] + a.drop_first());
            assert(b =~= seq![b[0]] + b.drop_first());
        }
    }
}

/// No text comes before itself.
pub proof fn lemma_text_less_irreflexive(a: Seq<char>)
    ensures
        !text_less(a, a),
    decreases a.len(),
{
    if a.len() > 0 {
        lemma_text_less_irreflexive(a.drop_first());
    }
}

/// Whether text `a` comes strictly before text `b` (`a < b` for `str`).
pub fn text_before(a: &str, b: &str) -> (res: bool)
    ensures
        res == text_less(a@, b@),
{
    let n = a.unicode_len();
    let m = b.unicode_len();
    let mut i: usize = 0;
    assert(a@.skip(0) =~= a@);
    assert(b@.skip(0) =~= b@);
    while i < n && i < m
        invariant
            n == a@.len(),
            m == b@.len(),
            i <= n,
            i <= m,
            text_less(a@, b@) == text_less(a@.skip(i as int), b@.skip(i as int)),
        decreases n - i,
    {
        let ca = a.get_char(i);
        let cb = b.get_char(i);
        assert(a@.skip(i as int)[0] == ca);
        assert(b@.skip(i as int)[0] == cb);
        if ca != cb {
            return (ca as u32) < (cb as u32);
        }
        assert(a@.skip(i as int).drop_first() =~= a@.skip(i + 1));
        assert(b@.skip(i as int).drop_first() =~= b@.skip(i + 1));
        i = i + 1;
    }
    n - i < m - i
}

/// The rank of a component's kind in `Path`'s order: the root `/`, then
/// `.`, then `..`, then names.
pub open spec fn component_rank(c: Seq<char>) -> int {
    if c == seq!['/'] {
        0
    } else if c == seq!['.'] {
        1
    } else if c == seq!['.', '.'] {
        2
    } else {
        3
    }
}

/// Whether component `a` comes strictly before component `b`: by the rank
/// of their kinds, and two names by their text.
pub open spec fn component_less(a: Seq<char>, b: Seq<char>) -> bool {
    component_rank(a) < component_rank(b) || (component_rank(a) == 3 && component_rank(b) == 3 && text_less(a, b))
}

/// The order of components is `Path`'s: the root `/` comes before every
/// other component, `.` before `..` and before every name, `..` before
/// every name, and two names (anything else) compare as texts.
pub proof fn lemma_component_order(a: Seq<char>, b: Seq<char>)
    ensures
        a == seq!['/'] && b != seq!['/'] ==> component_less(a, b) && !component_less(b, a),
        a == seq!['.'] && b != seq!['/'] && b != seq!['.'] ==> component_less(a, b) && !component_less(b, a),
        a == seq!['.', '.'] && b != seq!['/'] && b != seq!['.'] && b != seq!['.', '.'] ==> component_less(a, b) && !component_less(b, a),
        ({
            let name_a = a != seq!['/'] && a != seq!['.'] && a != seq!['.', '.'];
            let name_b = b != seq!['/'] && b != seq!['.'] && b != seq!['.', '.'];
            name_a && name_b ==> (component_less(a, b) <==> text_less(a, b))
        }),
{
}

/// The order of components is transitive.
pub proof fn lemma_component_less_transitive(a: Seq<char>, b: Seq<char>, c: Seq<char>)
    requires
        component_less(a, b),
        component_less(b, c),
    ensures
        component_less(a, c),
{
    if component_rank(a) == 3 && component_rank(b) == 3 && component_rank(c) == 3 {
        lemma_text_less_transitive(a, b, c);
    }
}

/// No component comes before itself.
pub proof fn lemma_component_less_irreflexive(a: Seq<char>)
    ensures
        !component_less(a, a),
{
    lemma_text_less_irreflexive(a);
}

/// The rank of a component's kind.
fn component_rank_of(c: &str) -> (res: u8)
    ensures
        res as int == component_rank(c@),
{
    proof {
        reveal_strlit("/");
        reveal_strlit(".");
        reveal_strlit("..");
        assert("/"@ =~= seq!['/']);
        assert("."@ =~= seq!['.']);
        assert(".."@ =~= seq!['.', '.']);
    }
    if same_text(c, "/") {
        0
    } else if same_text(c, ".") {
        1
    } else if same_text(c, "..") {
        2
    } else {
        3
    }
}

/// Whether component `a` comes strictly before component `b`.
pub fn component_before(a: &str, b: &str) -> (res: bool)
    ensures
        res == component_less(a@, b@),
{
    let ra = component_rank_of(a);
    let rb = component_rank_of(b);
    if ra != rb {
        ra < rb
    } else {
        ra == 3 && text_before(a, b)
    }
}

/// Whether path `a` comes strictly before path `b`: compared component by
/// component, in the order of components.
pub open spec fn path_less(a: Seq<Seq<char>>, b: Seq<Seq<char>>) -> bool
    decreases a.len(),
{
    if a.len() == 0 {
        b.len() > 0
    } else if b.len() == 0 {
        false
    } else if a[0] != b[0] {
        component_less(a[0], b[0])
    } else {
        path_less(a.drop_first(), b.drop_first())
    }
}

/// Paths are ordered by the components at their first difference: where
/// `a` and `b` agree before position `i` and differ at `i`, `a` comes
/// before `b` exactly when its component there comes first.
pub proof fn lemma_path_less_at_first_difference(a: Seq<Seq<char>>, b: Seq<Seq<char>>, i: int)
    requires
        0 <= i < a.len(),
        i < b.len(),
        a[i] != b[i],
        forall|j: int| 0 <= j < i ==> a[j] == b[j],
    ensures
        path_less(a, b) <==> component_less(a[i], b[i]),
    decreases i,
{
    if i > 0 {
        assert(a[0] == b[0]);
        assert forall|j: int| 0 <= j < i - 1 implies a.drop_first()[j] == b.drop_first()[j] by {
            assert(a.drop_first()[j] == a[j + 1]);
            assert(b.drop_first()[j] == b[j + 1]);
        }
        lemma_path_less_at_first_difference(a.drop_first(), b.drop_first(), i - 1);
    }
}

/// A path comes before every longer path that it begins, and never after it.
pub proof fn lemma_path_less_proper_prefix(a: Seq<Seq<char>>, b: Seq<Seq<char>>)
    requires
        a.len() < b.len(),
        b.take(a.len() as int) == a,
    ensures
        path_less(a, b),
        !path_less(b, a),
    decreases a.len(),
{
    if a.len() > 0 {
        assert(a[0] == b.take(a.len() as int)[0]);
        assert(b.drop_first().take(a.drop_first().len() as int) =~= a.drop_first()) by {
            assert forall|j: int| 0 <= j < a.len() - 1 implies b.drop_first()[j] == a.drop_first()[j] by {
                assert(b.take(a.len() as int)[j + 1] == a[j + 1]);
            }
        }
        lemma_path_less_proper_prefix(a.drop_first(), b.drop_first());
    }
}

/// The order of paths is transitive.
pub proof fn lemma_path_less_transitive(a: Seq<Seq<char>>, b: Seq<Seq<char>>, c: Seq<Seq<char>>)
    requires
        path_less(a, b),
        path_less(b, c),
    ensures
        path_less(a, c),
    decreases a.len(),
{
    if a.len() > 0 && b.len() > 0 && c.len() > 0 {
        if a[0] == b[0] && b[0] == c[0] {
            lemma_path_less_transitive(a.drop_first(), b.drop_first(), c.drop_first());
        } else if a[0] != b[0] && b[0] != c[0] {
            lemma_component_less_transitive(a[0], b[0], c[0]);
            if a[0] == c[0] {
                lemma_component_less_irreflexive(a[0]);
                lemma_component_less_transitive(c[0], b[0], c[0]);
            }
        }
    }
}

/// Whether path `a` comes strictly before path `b` (`a < b` for `Path`).
pub fn path_before(a: &PathParts, b: &PathParts) -> (res: bool)
    ensures
        res == path_less(a@, b@),
{
    let n = a.parts.len();
    let m = b.parts.len();
    let mut i: usize = 0;
    assert(a@.skip(0) =~= a@);
    assert(b@.skip(0) =~= b@);
    while i < n && i < m
        invariant
            n == a@.len(),
            m == b@.len(),
            i <= n,
            i <= m,
            path_less(a@, b@) == path_less(a@.skip(i as int), b@.skip(i as int)),
        decreases n - i,
    {
        assert(a@.skip(i as int)[0] == a@[i as int]);
        assert(b@.skip(i as int)[0] == b@[i as int]);
        if a.parts[i] != b.parts[i] {
            return component_before(a.parts[i].as_str(), b.parts[i].as_str());
        }
        assert(a@.skip(i as int).drop_first() =~= a@.skip(i + 1));
        assert(b@.skip(i as int).drop_first() =~= b@.skip(i + 1));
        i = i + 1;
    }
    n - i < m - i
}

/// Whether no text of `s` comes before an earlier one.
pub open spec fn texts_sorted(s: Seq<Seq<char>>) -> bool {
    forall|i: int, j: int| 0 <= i < j < s.len() ==> !text_less(#[trigger] s[j], #[trigger] s[i])
}

/// Whether no path of `s` comes before an earlier one.
pub open spec fn paths_sorted(s: Seq<PathParts>) -> bool {
    forall|i: int, j: int| 0 <= i < j < s.len() ==> !path_less(#[trigger] s[j]@, #[trigger] s[i]@)
}

/// Sorts texts into order (`sort` on strings).
pub fn sort_texts(items: Vec<String>) -> (res: Vec<String>)
    ensures
        texts_sorted(res.deep_view()),
        res.deep_view().to_multiset() == items.deep_view().to_multiset(),
{
    let mut rest = items;
    let mut out: Vec<String> = Vec::new();
    assert(out.deep_view() =~= Seq::<Seq<char>>::empty());
    assert(out.deep_view().to_multiset() =~= vstd::multiset::Multiset::<Seq<char>>::empty());
    assert(out.deep_view().to_multiset().add(rest.deep_view().to_multiset()) =~= items.deep_view().to_multiset());
    while rest.len() > 0
        invariant
            texts_sorted(out.deep_view()),
            out.deep_view().to_multiset().add(rest.deep_view().to_multiset()) == items.deep_view().to_multiset(),
        decreases rest.len(),
    {
        let ghost rest_before = rest.deep_view();
        let ghost out_before = out.deep_view();
        let x = rest.pop().unwrap();
        let ghost xv = x@;
        assert(rest_before =~= rest.deep_view().push(xv));
        proof {
            vstd::seq_lib::to_multiset_build(rest.deep_view(), xv);
        }
        let mut p: usize = 0;
        while p < out.len() && !text_before(x.as_str(), out[p].as_str())
            invariant
                p <= out@.len(),
                out.deep_view() == out_before,
                xv == x@,
                forall|j: int| 0 <= j < p ==> !text_less(xv, #[trigger] out_before[j]),
            decreases out@.len() - p,
        {
            p = p + 1;
        }
        out.insert(p, x);
        let ghost now = out.deep_view();
        assert(now =~= out_before.insert(p as int, xv));
        assert forall|i: int, j: int| 0 <= i < j < now.len() implies !text_less(#[trigger] now[j], #[trigger] now[i]) by {
            if j < p {
                assert(now[i] == out_before[i] && now[j] == out_before[j]);
            } else if j == p {
                assert(now[j] == xv && now[i] == out_before[i]);
            } else if i < p {
                assert(now[i] == out_before[i] && now[j] == out_before[j - 1]);
            } else if i == p {
                assert(now[i] == xv && now[j] == out_before[j - 1]);
                assert(p < out_before.len());
                assert(text_less(xv, out_before[p as int]));
                if text_less(out_before[j - 1], xv) {
                    lemma_text_less_transitive(out_before[j - 1], xv, out_before[p as int]);
                    if j - 1 > p {
                        assert(!text_less(out_before[j - 1], out_before[p as int]));
                    } else {
                        lemma_text_less_irreflexive(out_before[p as int]);
                    }
                }
            } else {
                assert(now[i] == out_before[i - 1] && now[j] == out_before[j - 1]);
            }
        }
        proof {
            vstd::seq_lib::to_multiset_insert(out_before, p as int, xv);
            assert(now.to_multiset().add(rest.deep_view().to_multiset()) =~= out_before.to_multiset().add(rest_before.to_multiset()));
        }
    }
    assert(rest.deep_view() =~= Seq::<Seq<char>>::empty());
    assert(out.deep_view().to_multiset() =~= out.deep_view().to_multiset().add(rest.deep_view().to_multiset()));
    out
}

/// Sorts paths into order (`sort` on paths).
pub fn sort_paths(items: Vec<PathParts>) -> (res: Vec<PathParts>)
    ensures
        paths_sorted(res@),
        res@.to_multiset() == items@.to_multiset(),
{
    let mut rest = items;
    let mut out: Vec<PathParts> = Vec::new();
    assert(out@.to_multiset() =~= vstd::multiset::Multiset::<PathParts>::empty());
    assert(out@.to_multiset().add(rest@.to_multiset()) =~= items@.to_multiset());
    while rest.len() > 0
        invariant
            paths_sorted(out@),
            out@.to_multiset().add(rest@.to_multiset()) == items@.to_multiset(),
        decreases rest.len(),
    {
        let ghost rest_before = rest@;
        let ghost out_before = out@;
        let x = rest.pop().unwrap();
        proof {
            vstd::seq_lib::to_multiset_build(rest@, x);
        }
        let mut p: usize = 0;
        while p < out.len() && !path_before(&x, &out[p])
            invariant
                p <= out@.len(),
                out@ == out_before,
                forall|j: int| 0 <= j < p ==> !path_less(x@, #[trigger] out_before[j]@),
            decreases out@.len() - p,
        {
            p = p + 1;
        }
        let ghost xv = x;
        out.insert(p, x);
        let ghost now = out@;
        assert forall|i: int, j: int| 0 <= i < j < now.len() implies !path_less(#[trigger] now[j]@, #[trigger] now[i]@) by {
            if j < p {
                assert(now[i] == out_before[i] && now[j] == out_before[j]);
            } else if j == p {
                assert(now[j] == xv && now[i] == out_before[i]);
            } else if i < p {
                assert(now[i] == out_before[i] && now[j] == out_before[j - 1]);
            } else if i == p {
                assert(now[i] == xv && now[j] == out_before[j - 1]);
                assert(path_less(xv@, out_before[p as int]@));
                if path_less(out_before[j - 1]@, xv@) {
                    lemma_path_less_transitive(out_before[j - 1]@, xv@, out_before[p as int]@);
                    if j - 1 > p {
                        assert(!path_less(out_before[j - 1]@, out_before[p as int]@));
                    } else {
                        lemma_path_less_irreflexive(out_before[p as int]@);
                    }
                }
            } else {
                assert(now[i] == out_before[i - 1] && now[j] == out_before[j - 1]);
            }
        }
        proof {
            vstd::seq_lib::to_multiset_insert(out_before, p as int, xv);
            assert(now =~= out_before.insert(p as int, xv));
            assert(rest_before =~= rest@.push(xv));
            assert(now.to_multiset().add(rest@.to_multiset()) =~= out_before.to_multiset().add(rest_before.to_multiset()));
        }
    }
    assert(rest@ =~= Seq::<PathParts>::empty());
    assert(out@.to_multiset() =~= out@.to_multiset().add(rest@.to_multiset()));
    out
}

/// No path comes before itself.
pub proof fn lemma_path_less_irreflexive(a: Seq<Seq<char>>)
    ensures
        !path_less(a, a),
    decreases a.len(),
{
    if a.len() > 0 {
        lemma_path_less_irreflexive(a.drop_first());
    }
}

} // verus!
