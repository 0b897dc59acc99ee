//! White space, trimming, and splitting text into lines and words, as
//! `char::is_whitespace`, `str::trim`, `str::trim_start`, `str::lines` and
//! `str::split_whitespace` define them.

use vstd::prelude::*;
use crate::text::chars_of;

verus! {

/// Whether a character has the Unicode `White_Space` property.
pub open spec fn white_space(c: char) -> bool {
    let x = c as int;
    ||| 0x9 <= x <= 0xd
    ||| x == 0x20
    ||| x == 0x85
    ||| x == 0xa0
    ||| x == 0x1680
    ||| 0x2000 <= x <= 0x200a
    ||| x == 0x2028
    ||| x == 0x2029
    ||| x == 0x202f
    ||| x == 0x205f
    ||| x == 0x3000
}

/// Among ASCII characters, the white space is exactly tab, newline,
/// vertical tab, form feed, carriage return and the space.
pub proof fn lemma_ascii_white_space(c: char)
    requires
        (c as int) < 128,
    ensures
        white_space(c) <==> (c == '\t' || c == '\n' || c == '\x0b' || c == '\x0c' || c == '\r' || c == ' '),
{
    assert('\t' as int == 9 && '\n' as int == 10 && '\x0b' as int == 11);
    assert('\x0c' as int == 12 && '\r' as int == 13 && ' ' as int == 32);
}

/// Whether a character is white space (`char::is_whitespace`).
pub fn is_white_space(c: char) -> (res: bool)
    ensures
        res == white_space(c),
{
    let x = c as u32;
    (0x9 <= x && x <= 0xd) || x == 0x20 || x == 0x85 || x == 0xa0 || x == 0x1680
        || (0x2000 <= x && x <= 0x200a) || x == 0x2028 || x == 0x2029 || x == 0x202f
        || x == 0x205f || x == 0x3000
}

/// How many white-space characters `s` begins with.
pub open spec fn lead_ws(s: Seq<char>) -> nat
    decreases s.len(),
{
    if s.len() > 0 && white_space(s[0]) {
        1 + lead_ws(s.drop_first())
    } else {
        0
    }
}

/// How many white-space characters `s` ends with.
pub open spec fn trail_ws(s: Seq<char>) -> nat
    decreases s.len(),
{
    if s.len() > 0 && white_space(s.last()) {
        1 + trail_ws(s.drop_last())
    } else {
        0
    }
}

/// `s` without its leading white space.
pub open spec fn text_trim_start(s: Seq<char>) -> Seq<char> {
    s.skip(lead_ws(s) as int)
}

/// `s` without its leading and trailing white space.
pub open spec fn text_trim(s: Seq<char>) -> Seq<char> {
    let t = text_trim_start(s);
    t.take(t.len() - trail_ws(t))
}

/// The leading white space of `s` is a run of white space within `s`, and
/// what follows it, if anything, is not white space.
pub proof fn lemma_lead_ws(s: Seq<char>)
    ensures
        lead_ws(s) <= s.len(),
        forall|j: int| 0 <= j < lead_ws(s) ==> white_space(#[trigger] s[j]),
        lead_ws(s) < s.len() ==> !white_space(s[lead_ws(s) as int]),
    decreases s.len(),
{
    if s.len() > 0 && white_space(s[0]) {
        lemma_lead_ws(s.drop_first());
        assert forall|j: int| 0 <= j < lead_ws(s) implies white_space(#[trigger] s[j]) by {
            if j > 0 {
                assert(s[j] == s.drop_first()[j - 1]);
            }
        }
    }
}

/// The trailing white space of `s` is a run of white space within `s`, and
/// what precedes it, if anything, is not white space.
pub proof fn lemma_trail_ws(s: Seq<char>)
    ensures
        trail_ws(s) <= s.len(),
        forall|j: int| s.len() - trail_ws(s) <= j < s.len() ==> white_space(#[trigger] s[j]),
        trail_ws(s) < s.len() ==> !white_space(s[s.len() - trail_ws(s) - 1]),
    decreases s.len(),
{
    if s.len() > 0 && white_space(s.last()) {
        lemma_trail_ws(s.drop_last());
        assert forall|j: int| s.len() - trail_ws(s) <= j < s.len() implies white_space(#[trigger] s[j]) by {
            if j < s.len() - 1 {
                assert(s[j] == s.drop_last()[j]);
            }
        }
    }
}

/// Counting white space from position `i`: the count from the start is `i`
/// plus the count from `i`, while the first `i` characters are white space.
proof fn lemma_lead_ws_split(s: Seq<char>, i: int)
    requires
        0 <= i <= s.len(),
        forall|j: int| 0 <= j < i ==> white_space(#[trigger] s[j]),
    ensures
        lead_ws(s) == i + lead_ws(s.skip(i)),
    decreases i,
{
    if i > 0 {
        assert(white_space(s[0]));
        assert forall|j: int| 0 <= j < i - 1 implies white_space(#[trigger] s.drop_first()[j]) by {
            assert(s.drop_first()[j] == s[j + 1]);
        }
        lemma_lead_ws_split(s.drop_first(), i - 1);
        assert(s.drop_first().skip(i - 1) =~= s.skip(i));
    } else {
        assert(s.skip(0) =~= s);
    }
}

/// Counting white space from the end down to `j`: the count is the number of
/// characters after `j` plus the count in what precedes, while the
/// characters after `j` are white space.
proof fn lemma_trail_ws_split(s: Seq<char>, j: int)
    requires
        0 <= j <= s.len(),
        forall|k: int| j <= k < s.len() ==> white_space(#[trigger] s[k]),
    ensures
        trail_ws(s) == (s.len() - j) + trail_ws(s.take(j)),
    decreases s.len() - j,
{
    if j < s.len() {
        assert(white_space(s.last()));
        assert forall|k: int| j <= k < s.drop_last().len() implies white_space(#[trigger] s.drop_last()[k]) by {
            assert(s.drop_last()[k] == s[k]);
        }
        lemma_trail_ws_split(s.drop_last(), j);
        assert(s.drop_last().take(j) =~= s.take(j));
    } else {
        assert(s.take(j) =~= s);
    }
}

/// The position of the first character of `chars` from `i` on that is not
/// white space, or the length.
fn skip_white_space(chars: &Vec<char>, i: usize) -> (res: usize)
    requires
        i <= chars@.len(),
    ensures
        i <= res <= chars@.len(),
        forall|j: int| i <= j < res ==> white_space(#[trigger] chars@[j]),
        res < chars@.len() ==> !white_space(chars@[res as int]),
{
    let mut k = i;
    while k < chars.len() && is_white_space(chars[k])
        invariant
            i <= k <= chars@.len(),
            forall|j: int| i <= j < k ==> white_space(#[trigger] chars@[j]),
        decreases chars@.len() - k,
    {
        k = k + 1;
    }
    k
}

/// The text without its leading white space (`str::trim_start`).
pub fn trim_start(s: &str) -> (res: &str)
    ensures
        res@ == text_trim_start(s@),
{
    let chars = chars_of(s);
    let i = skip_white_space(&chars, 0);
    proof {
        lemma_lead_ws_split(s@, i as int);
        lemma_lead_ws(s@.skip(i as int));
        if i < s@.len() {
            assert(s@.skip(i as int)[0] == s@[i as int]);
        }
    }
    s.substring_char(i, chars.len())
}

/// The text without its leading and trailing white space (`str::trim`).
pub fn trim(s: &str) -> (res: &str)
    ensures
        res@ == text_trim(s@),
{
    let chars = chars_of(s);
    let n = chars.len();
    let i = skip_white_space(&chars, 0);
    let ghost t = s@.skip(i as int);
    proof {
        lemma_lead_ws_split(s@, i as int);
        lemma_lead_ws(t);
        if i < s@.len() {
            assert(t[0] == s@[i as int]);
        }
        assert(text_trim_start(s@) == t);
    }
    let mut j = n;
    while j > i && is_white_space(chars[j - 1])
        invariant
            i <= j <= n,
            n == s@.len(),
            chars@ == s@,
            t == s@.skip(i as int),
            forall|k: int| j <= k < n ==> white_space(#[trigger] s@[k]),
        decreases j - i,
    {
        j = j - 1;
    }
    proof {
        let m = (j - i) as int;
        assert forall|k: int| m <= k < t.len() implies white_space(#[trigger] t[k]) by {
            assert(t[k] == s@[i + k]);
        }
        lemma_trail_ws_split(t, m);
        lemma_trail_ws(t.take(m));
        if m > 0 {
            assert(t.take(m)[m - 1] == s@[j - 1]);
        }
        assert(trail_ws(t) == t.len() - m);
        assert(t.take(m) =~= s@.subrange(i as int, j as int));
    }
    s.substring_char(i, j)
}

/// How many characters `s` begins with before its first newline (all of
/// them when it has none).
pub open spec fn line_len(s: Seq<char>) -> nat
    decreases s.len(),
{
    if s.len() == 0 || s[0] == '\n' {
        0
    } else {
        1 + line_len(s.drop_first())
    }
}

/// A line without the carriage return of its `\r\n` ending.
pub open spec fn strip_cr(l: Seq<char>) -> Seq<char> {
    if l.len() > 0 && l.last() == '\r' {
        l.drop_last()
    } else {
        l
    }
}

/// The lines of a text (`str::lines`): split at each newline, with the
/// carriage return of a `\r\n` ending removed; a final line ending adds no
/// empty line, and an empty text has no lines.
pub open spec fn text_lines(s: Seq<char>) -> Seq<Seq<char>>
    decreases s.len(),
{
    if s.len() == 0 {
        Seq::empty()
    } else {
        let e = line_len(s);
        if e >= s.len() {
            seq![s]
        } else {
            seq![strip_cr(s.take(e as int))] + text_lines(s.skip(e as int + 1))
        }
    }
}

/// While the first `k` characters are not newlines, the first line is `k`
/// characters longer than the one that starts after them.
pub proof fn lemma_line_len_split(s: Seq<char>, k: int)
    requires
        0 <= k <= s.len(),
        forall|j: int| 0 <= j < k ==> #[trigger] s[j] != '\n',
    ensures
        line_len(s) == k + line_len(s.skip(k)),
    decreases k,
{
    if k > 0 {
        assert forall|j: int| 0 <= j < k - 1 implies #[trigger] s.drop_first()[j] != '\n' by {
            assert(s.drop_first()[j] == s[j + 1]);
        }
        lemma_line_len_split(s.drop_first(), k - 1);
        assert(s.drop_first().skip(k - 1) =~= s.skip(k));
    } else {
        assert(s.skip(0) =~= s);
    }
}

/// The lines of a text (`str::lines`).
pub fn lines(s: &str) -> (res: Vec<String>)
    ensures
        res.deep_view() == text_lines(s@),
{
    let chars = chars_of(s);
    let n = chars.len();
    let mut out: Vec<String> = Vec::new();
    let mut start: usize = 0;
    assert(s@.skip(0) =~= s@);
    assert(out.deep_view() =~= Seq::<Seq<char>>::empty());
    while start < n
        invariant
            start <= n,
            n == s@.len(),
            chars@ == s@,
            text_lines(s@) == out.deep_view() + text_lines(s@.skip(start as int)),
        decreases n - start,
    {
        let ghost rest = s@.skip(start as int);
        let mut k = start;
        while k < n && chars[k] != '\n'
            invariant
                start <= k <= n,
                n == s@.len(),
                chars@ == s@,
                forall|j: int| start <= j < k ==> #[trigger] s@[j] != '\n',
            decreases n - k,
        {
            k = k + 1;
        }
        proof {
            let m = (k - start) as int;
            assert forall|j: int| 0 <= j < m implies #[trigger] rest[j] != '\n' by {
                assert(rest[j] == s@[start + j]);
            }
            lemma_line_len_split(rest, m);
            if k < n {
                assert(rest.skip(m)[0] == s@[k as int]);
            }
            assert(line_len(rest) == m);
            assert(rest.take(m) =~= s@.subrange(start as int, k as int));
        }
        let ghost before = out.deep_view();
        if k < n {
            let line = if k > start && chars[k - 1] == '\r' {
                s.substring_char(start, k - 1)
            } else {
                s.substring_char(start, k)
            };
            out.push(line.to_owned());
            proof {
                let l = s@.subrange(start as int, k as int);
                if k > start && s@[k - 1] == '\r' {
                    assert(l.drop_last() =~= s@.subrange(start as int, k - 1));
                }
                assert(out.deep_view() =~= before.push(strip_cr(l)));
                assert(rest.skip(k - start + 1) =~= s@.skip(k + 1));
                assert(text_lines(rest) =~= seq![strip_cr(l)] + text_lines(s@.skip(k + 1)));
                assert(out.deep_view() + text_lines(s@.skip(k + 1)) =~= before + text_lines(rest));
            }
            start = k + 1;
        } else {
            let line = s.substring_char(start, n);
            out.push(line.to_owned());
            proof {
                assert(rest =~= s@.subrange(start as int, n as int));
                assert(out.deep_view() =~= before.push(rest));
                assert(s@.skip(n as int) =~= Seq::<char>::empty());
                assert(out.deep_view() + text_lines(s@.skip(n as int)) =~= before + text_lines(rest));
            }
            start = n;
        }
    }
    assert(s@.skip(n as int) =~= Seq::<char>::empty());
    assert(out.deep_view() + text_lines(s@.skip(n as int)) =~= out.deep_view());
    out
}

/// How many characters `s` begins with before its first white space (all
/// of them when it has none).
pub open spec fn word_len(s: Seq<char>) -> nat
    decreases s.len(),
{
    if s.len() == 0 || white_space(s[0]) {
        0
    } else {
        1 + word_len(s.drop_first())
    }
}

/// The first word is a run of non-white-space characters within `s`,
/// followed by white space or the end.
pub proof fn lemma_word_len(s: Seq<char>)
    ensures
        word_len(s) <= s.len(),
        forall|j: int| 0 <= j < word_len(s) ==> !white_space(#[trigger] s[j]),
        word_len(s) < s.len() ==> white_space(s[word_len(s) as int]),
    decreases s.len(),
{
    if s.len() > 0 && !white_space(s[0]) {
        lemma_word_len(s.drop_first());
        assert forall|j: int| 0 <= j < word_len(s) implies !white_space(#[trigger] s[j]) by {
            if j > 0 {
                assert(s[j] == s.drop_first()[j - 1]);
            }
        }
    }
}

proof fn lemma_word_len_split(s: Seq<char>, k: int)
    requires
        0 <= k <= s.len(),
        forall|j: int| 0 <= j < k ==> !white_space(#[trigger] s[j]),
    ensures
        word_len(s) == k + word_len(s.skip(k)),
    decreases k,
{
    if k > 0 {
        assert forall|j: int| 0 <= j < k - 1 implies !white_space(#[trigger] s.drop_first()[j]) by {
            assert(s.drop_first()[j] == s[j + 1]);
        }
        lemma_word_len_split(s.drop_first(), k - 1);
        assert(s.drop_first().skip(k - 1) =~= s.skip(k));
    } else {
        assert(s.skip(0) =~= s);
    }
}

/// The words of a text (`str::split_whitespace`): the non-empty runs of
/// characters between white space, in order.
pub open spec fn text_words(s: Seq<char>) -> Seq<Seq<char>>
    decreases s.len(),
{
    let t = text_trim_start(s);
    if t.len() == 0 {
        Seq::empty()
    } else {
        let w = word_len(t);
        if w == 0 {
            Seq::empty()
        } else {
            proof {
                lemma_lead_ws(s);
                lemma_word_len(t);
            }
            seq![t.take(w as int)] + text_words(t.skip(w as int))
        }
    }
}

/// The words of a text (`str::split_whitespace`).
pub fn split_whitespace(s: &str) -> (res: Vec<String>)
    ensures
        res.deep_view() == text_words(s@),
{
    let chars = chars_of(s);
    let n = chars.len();
    let mut out: Vec<String> = Vec::new();
    let mut i: usize = 0;
    assert(s@.skip(0) =~= s@);
    assert(out.deep_view() =~= Seq::<Seq<char>>::empty());
    while i < n
        invariant
            i <= n,
            n == s@.len(),
            chars@ == s@,
            text_words(s@) == out.deep_view() + text_words(s@.skip(i as int)),
        decreases n - i,
    {
        let ghost rest = s@.skip(i as int);
        let start = skip_white_space(&chars, i);
        proof {
            let a = (start - i) as int;
            assert forall|j: int| 0 <= j < a implies white_space(#[trigger] rest[j]) by {
                assert(rest[j] == s@[i + j]);
            }
            lemma_lead_ws_split(rest, a);
            lemma_lead_ws(rest.skip(a));
            if start < n {
                assert(rest.skip(a)[0] == s@[start as int]);
            }
            assert(lead_ws(rest) == a);
            assert(rest.skip(a) =~= s@.skip(start as int));
        }
        if start == n {
            proof {
                assert(text_trim_start(rest).len() == 0);
                assert(text_words(rest) =~= Seq::<Seq<char>>::empty());
                assert(s@.skip(n as int) =~= Seq::<char>::empty());
                assert(text_trim_start(s@.skip(n as int)).len() == 0);
                assert(out.deep_view() + text_words(s@.skip(n as int)) =~= out.deep_view() + text_words(rest));
            }
            i = n;
        } else {
            let mut end = start;
            while end < n && !is_white_space(chars[end])
                invariant
                    start <= end <= n,
                    n == s@.len(),
                    chars@ == s@,
                    forall|j: int| start <= j < end ==> !white_space(#[trigger] s@[j]),
                decreases n - end,
            {
                end = end + 1;
            }
            let ghost t = s@.skip(start as int);
            proof {
                let w = (end - start) as int;
                assert forall|j: int| 0 <= j < w implies !white_space(#[trigger] t[j]) by {
                    assert(t[j] == s@[start + j]);
                }
                lemma_word_len_split(t, w);
                if end < n {
                    assert(t.skip(w)[0] == s@[end as int]);
                }
                assert(word_len(t) == w);
                assert(w > 0);
                assert(text_trim_start(rest) == t);
                assert(t.take(w) =~= s@.subrange(start as int, end as int));
                assert(t.skip(w) =~= s@.skip(end as int));
                assert(text_words(rest) =~= seq![t.take(w)] + text_words(s@.skip(end as int)));
            }
            let ghost before = out.deep_view();
            let word = s.substring_char(start, end);
            out.push(word.to_owned());
            proof {
                assert(out.deep_view() =~= before.push(s@.subrange(start as int, end as int)));
                assert(out.deep_view() + text_words(s@.skip(end as int)) =~= before + text_words(rest));
            }
            i = end;
        }
    }
    assert(s@.skip(n as int) =~= Seq::<char>::empty());
    assert(text_trim_start(s@.skip(n as int)).len() == 0);
    assert(out.deep_view() + text_words(s@.skip(n as int)) =~= out.deep_view());
    out
}

/// Trimming keeps a stretch of the text: what it drops at either end is
/// white space, and what it keeps, unless empty, begins and ends with a
/// character that is not white space. Trimming the start alone drops white
/// space only, up to the first character that is not white space.
pub proof fn lemma_trim_shape(s: Seq<char>)
    ensures
        exists|a: int| {
            &&& 0 <= a <= s.len()
            &&& #[trigger] s.skip(a) == text_trim_start(s)
            &&& forall|j: int| 0 <= j < a ==> white_space(#[trigger] s[j])
        },
        text_trim_start(s).len() > 0 ==> !white_space(text_trim_start(s)[0]),
        exists|a: int, b: int| {
            &&& 0 <= a <= b <= s.len()
            &&& #[trigger] s.subrange(a, b) == text_trim(s)
            &&& forall|j: int| 0 <= j < a ==> white_space(#[trigger] s[j])
            &&& forall|j: int| b <= j < s.len() ==> white_space(#[trigger] s[j])
        },
        text_trim(s).len() > 0 ==> !white_space(text_trim(s)[0]) && !white_space(text_trim(s).last()),
{
    lemma_lead_ws(s);
    let a = lead_ws(s) as int;
    let t = text_trim_start(s);
    assert(s.skip(a) == t);
    if t.len() > 0 {
        assert(t[0] == s[a]);
    }
    lemma_trail_ws(t);
    let b = s.len() - trail_ws(t);
    assert(s.subrange(a, b) =~= text_trim(s));
    assert forall|j: int| b <= j < s.len() implies white_space(#[trigger] s[j]) by {
        assert(s[j] == t[j - a]);
    }
    let r = text_trim(s);
    if r.len() > 0 {
        assert(r[0] == t[0]);
        assert(r.last() == t[t.len() - trail_ws(t) - 1]);
    }
}

/// The first line ends before the first newline: no character before
/// `line_len` is a newline, and the character at it, if any, is one.
proof fn lemma_line_len(s: Seq<char>)
    ensures
        line_len(s) <= s.len(),
        forall|j: int| 0 <= j < line_len(s) ==> #[trigger] s[j] != '\n',
        line_len(s) < s.len() ==> s[line_len(s) as int] == '\n',
    decreases s.len(),
{
    if s.len() > 0 && s[0] != '\n' {
        lemma_line_len(s.drop_first());
        assert forall|j: int| 0 <= j < line_len(s) implies #[trigger] s[j] != '\n' by {
            if j > 0 {
                assert(s[j] == s.drop_first()[j - 1]);
            }
        }
    }
}

/// No line of a text holds a newline.
pub proof fn lemma_lines_have_no_newline(s: Seq<char>)
    ensures
        forall|i: int, j: int| 0 <= i < text_lines(s).len() && 0 <= j < text_lines(s)[i].len()
            ==> #[trigger] text_lines(s)[i][j] != '\n',
    decreases s.len(),
{
    if s.len() > 0 {
        lemma_line_len(s);
        let e = line_len(s) as int;
        if e < s.len() {
            let rest = s.skip(e + 1);
            lemma_lines_have_no_newline(rest);
            let first = strip_cr(s.take(e));
            let ls = text_lines(s);
            assert(ls == seq![first] + text_lines(rest));
            assert forall|i: int, j: int| 0 <= i < ls.len() && 0 <= j < ls[i].len() implies #[trigger] ls[i][j] != '\n' by {
                if i == 0 {
                    assert(ls[0] == first);
                    assert(first[j] == s[j]);
                } else {
                    assert(ls[i] == text_lines(rest)[i - 1]);
                }
            }
        } else {
            assert(text_lines(s) == seq![s]);
        }
    }
}

/// Every word of a text is a non-empty run of characters that are not white
/// space.
pub proof fn lemma_words_shape(s: Seq<char>)
    ensures
        forall|i: int| 0 <= i < text_words(s).len() ==> #[trigger] text_words(s)[i].len() > 0,
        forall|i: int, j: int| 0 <= i < text_words(s).len() && 0 <= j < text_words(s)[i].len()
            ==> !white_space(#[trigger] text_words(s)[i][j]),
    decreases s.len(),
{
    lemma_lead_ws(s);
    let t = text_trim_start(s);
    if t.len() > 0 {
        lemma_word_len(t);
        let w = word_len(t) as int;
        if w > 0 {
            let rest = t.skip(w);
            lemma_words_shape(rest);
            let ws = text_words(s);
            assert(ws == seq![t.take(w)] + text_words(rest));
            assert forall|i: int| 0 <= i < ws.len() implies #[trigger] ws[i].len() > 0 by {
                if i > 0 {
                    assert(ws[i] == text_words(rest)[i - 1]);
                }
            }
            assert forall|i: int, j: int| 0 <= i < ws.len() && 0 <= j < ws[i].len() implies !white_space(#[trigger] ws[i][j]) by {
                if i == 0 {
                    assert(ws[0][j] == t[j]);
                } else {
                    assert(ws[i] == text_words(rest)[i - 1]);
                }
            }
        }
    }
}

} // verus!
