//! Text operations of the standard library that the logic relies on, and
//! small verified helpers for building strings.

use vstd::prelude::*;

verus! {

/// What `str::to_uppercase` returns for a string with these characters.
pub uninterp spec fn unicode_uppercase(s: Seq<char>) -> Seq<char>;

/// The ASCII upper-case form of one character: `a`..=`z` become `A`..=`Z`,
/// every other character is kept.
pub open spec fn ascii_upper_char(c: char) -> char {
    if 'a' <= c && c <= 'z' {
        ((c as u32) - 32) as char
    } else {
        c
    }
}

/// The ASCII upper-case form of every character of `s`.
pub open spec fn ascii_upper(s: Seq<char>) -> Seq<char> {
    s.map_values(|c: char| ascii_upper_char(c))
}

/// ASCII upper-casing keeps the length, turns each of `a`..=`z` into the
/// letter at the same place in `A`..=`Z`, and keeps every other character.
pub proof fn lemma_ascii_upper(s: Seq<char>)
    ensures
        ascii_upper(s).len() == s.len(),
        forall|i: int| 0 <= i < s.len() && 'a' <= s[i] && s[i] <= 'z'
            ==> #[trigger] ascii_upper(s)[i] as int == 'A' as int + (s[i] as int - 'a' as int),
        forall|i: int| 0 <= i < s.len() && !('a' <= s[i] && s[i] <= 'z') ==> #[trigger] ascii_upper(s)[i] == s[i],
{
    assert('A' as int + 26 == 'a' as int - 6);
}

/// Calls `str::to_uppercase`. Its result is named by `unicode_uppercase`; on
/// an input made of ASCII characters only, Unicode upper-casing changes
/// `a`..=`z` into `A`..=`Z` and keeps every other character, which the
/// second clause states.
#[verifier::external_body]
pub(crate) fn to_uppercase(s: &str) -> (res: String)
    ensures
        res@ == unicode_uppercase(s@),
        vstd::utf8::is_ascii_chars(s@) ==> res@ == ascii_upper(s@),
{
    s.to_uppercase()
}

/// The characters of a string, in order.
pub fn chars_of(s: &str) -> (res: Vec<char>)
    ensures
        res@ == s@,
{
    let mut out: Vec<char> = Vec::new();
    for c in it: s.chars()
        invariant
            out@ == it.seq().take(it.index() as int),
    {
        out.push(c);
    }
    out
}

/// Whether two strings hold the same characters.
pub fn same_text(a: &str, b: &str) -> (res: bool)
    ensures
        res == (a@ == b@),
{
    a.to_owned() == b.to_owned()
}

/// Whether `s` begins with `prefix`.
pub fn starts_with_text(s: &str, prefix: &str) -> (res: bool)
    ensures
        res == (prefix@.len() <= s@.len() && s@.subrange(0, prefix@.len() as int) == prefix@),
{
    let n = prefix.unicode_len();
    let m = s.unicode_len();
    if n > m {
        return false;
    }
    let mut i: usize = 0;
    while i < n
        invariant
            n == prefix@.len(),
            m == s@.len(),
            n <= m,
            i <= n,
            forall|j: int| 0 <= j < i ==> s@[j] == prefix@[j],
        decreases n - i,
    {
        if s.get_char(i) != prefix.get_char(i) {
            assert(s@.subrange(0, n as int)[i as int] != prefix@[i as int]);
            return false;
        }
        i = i + 1;
    }
    assert(s@.subrange(0, n as int) =~= prefix@);
    true
}

/// Whether `part` occurs in `s` starting at position `i`.
pub open spec fn occurs_at(s: Seq<char>, part: Seq<char>, i: int) -> bool {
    0 <= i && i + part.len() <= s.len() && s.subrange(i, i + part.len()) == part
}

/// Whether the characters of `part` occur somewhere in `s`, one after another.
pub open spec fn contains_text(s: Seq<char>, part: Seq<char>) -> bool {
    exists|i: int| #[trigger] occurs_at(s, part, i)
}

/// Whether `part` occurs in `s` (`str::contains` with a string pattern).
pub fn contains_substring(s: &str, part: &str) -> (res: bool)
    ensures
        res == contains_text(s@, part@),
{
    let n = part.unicode_len();
    let m = s.unicode_len();
    if n > m {
        return false;
    }
    let mut start: usize = 0;
    while start <= m - n
        invariant
            n == part@.len(),
            m == s@.len(),
            n <= m,
            start <= m - n + 1,
            forall|i: int| 0 <= i < start ==> !#[trigger] occurs_at(s@, part@, i),
        decreases m - n + 1 - start,
    {
        let mut k: usize = 0;
        let mut matched = true;
        while k < n
            invariant
                n == part@.len(),
                m == s@.len(),
                start + n <= m,
                k <= n,
                matched == (forall|j: int| 0 <= j < k ==> s@[start + j] == part@[j]),
            decreases n - k,
        {
            if s.get_char(start + k) != part.get_char(k) {
                matched = false;
            }
            k = k + 1;
        }
        if matched {
            assert(s@.subrange(start as int, start + n) =~= part@);
            assert(occurs_at(s@, part@, start as int));
            return true;
        }
        proof {
            if s@.subrange(start as int, start + n) == part@ {
                assert forall|j: int| 0 <= j < n implies s@[start + j] == part@[j] by {
                    assert(s@.subrange(start as int, start + n)[j] == s@[start + j]);
                }
            }
        }
        start = start + 1;
    }
    proof {
        assert forall|i: int| !#[trigger] occurs_at(s@, part@, i) by {
            if 0 <= i && i + part@.len() <= s@.len() {
                assert(i < start);
            }
        }
    }
    false
}

/// The items joined, with `sep` between each two neighbours (`join`).
pub open spec fn join_texts(items: Seq<Seq<char>>, sep: Seq<char>) -> Seq<char>
    decreases items.len(),
{
    if items.len() == 0 {
        Seq::empty()
    } else if items.len() == 1 {
        items[0]
    } else {
        join_texts(items.drop_last(), sep) + sep + items.last()
    }
}

/// Joining: nothing gives the empty text, one item gives that item, and two
/// non-empty lists joined one after the other give the first joined, the
/// separator, then the second joined.
pub proof fn lemma_join_parts(a: Seq<Seq<char>>, b: Seq<Seq<char>>, sep: Seq<char>)
    ensures
        join_texts(Seq::<Seq<char>>::empty(), sep) == Seq::<char>::empty(),
        a.len() == 1 ==> join_texts(a, sep) == a[0],
        a.len() > 0 && b.len() > 0 ==> join_texts(a + b, sep) == join_texts(a, sep) + sep + join_texts(b, sep),
    decreases b.len(),
{
    if a.len() > 0 && b.len() > 0 {
        if b.len() == 1 {
            assert((a + b).drop_last() =~= a);
            assert((a + b).last() == b[0]);
        } else {
            lemma_join_parts(a, b.drop_last(), sep);
            assert((a + b).drop_last() =~= a + b.drop_last());
            assert((a + b).last() == b.last());
            assert(join_texts(a + b, sep) =~= join_texts(a, sep) + sep + join_texts(b, sep));
        }
    }
}

/// Joins the items with `sep` between each two neighbours.
pub fn join_with(items: &[String], sep: &str) -> (res: String)
    ensures
        res@ == join_texts(items.deep_view(), sep@),
{
    let ghost all = items.deep_view();
    let mut acc = String::new();
    let mut i: usize = 0;
    while i < items.len()
        invariant
            i <= items@.len(),
            all == items.deep_view(),
            acc@ == join_texts(all.take(i as int), sep@),
        decreases items@.len() - i,
    {
        assert(all.take(i + 1).drop_last() =~= all.take(i as int));
        if i > 0 {
            acc.append(sep);
        }
        acc.append(items[i].as_str());
        proof {
            if i == 0 {
                assert(acc@ =~= all.take(1)[0]);
            }
        }
        i = i + 1;
    }
    assert(all.take(items@.len() as int) =~= all);
    acc
}

} // verus!
