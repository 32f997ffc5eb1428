use vstd::prelude::*;

verus! {

/// Whitespace as `char::is_whitespace` defines it: the characters with the
/// Unicode `White_Space` property.
pub open spec fn is_ws(c: char) -> bool {
    ||| ('\u{9}' <= c && c <= '\u{d}')
    ||| c == ' '
    ||| c == '\u{85}'
    ||| c == '\u{a0}'
    ||| c == '\u{1680}'
    ||| ('\u{2000}' <= c && c <= '\u{200a}')
    ||| c == '\u{2028}'
    ||| c == '\u{2029}'
    ||| c == '\u{202f}'
    ||| c == '\u{205f}'
    ||| c == '\u{3000}'
}

/// `s` without its leading whitespace (`str::trim_start`).
pub open spec fn trim_start(s: Seq<char>) -> Seq<char>
    decreases s.len(),
{
    if s.len() > 0 && is_ws(s[0]) {
        trim_start(s.drop_first())
    } else {
        s
    }
}

/// `s` without its trailing whitespace (`str::trim_end`).
pub open spec fn trim_end(s: Seq<char>) -> Seq<char>
    decreases s.len(),
{
    if s.len() > 0 && is_ws(s.last()) {
        trim_end(s.drop_last())
    } else {
        s
    }
}

/// `s` without its leading and trailing whitespace (`str::trim`).
pub open spec fn trim(s: Seq<char>) -> Seq<char> {
    trim_end(trim_start(s))
}

/// The position of the first `c` in `s`, if there is one.
pub open spec fn find_char(s: Seq<char>, c: char) -> Option<int>
    decreases s.len(),
{
    if s.len() == 0 {
        None
    } else if s[0] == c {
        Some(0)
    } else {
        match find_char(s.drop_first(), c) {
            Some(i) => Some(i + 1),
            None => None,
        }
    }
}

/// `str::split_once` with a character pattern: the text before the first
/// `c` and the text after it, or `None` where `s` holds no `c`.
pub open spec fn split_once(s: Seq<char>, c: char) -> Option<(Seq<char>, Seq<char>)> {
    match find_char(s, c) {
        Some(i) => Some((s.take(i), s.skip(i + 1))),
        None => None,
    }
}

/// Every character of `s` that is not whitespace is ASCII; in other words,
/// every whitespace-separated word of `s` is ASCII (see
/// [`lemma_words_ascii_by_word`]).
pub open spec fn words_ascii(s: Seq<char>) -> bool {
    forall|i: int| 0 <= i < s.len() && !is_ws(#[trigger] s[i]) ==> s[i] <= '\u{7f}'
}

/// The length of the run of non-whitespace characters that starts `s`.
pub open spec fn word_len(s: Seq<char>) -> nat
    decreases s.len(),
{
    if s.len() == 0 || is_ws(s[0]) {
        0
    } else {
        1 + word_len(s.drop_first())
    }
}

/// The run that starts `s` is within `s`, and holds no whitespace.
pub proof fn lemma_word_len(s: Seq<char>)
    ensures
        word_len(s) <= s.len(),
        forall|i: int| 0 <= i < word_len(s) ==> !is_ws(#[trigger] s[i]),
        word_len(s) < s.len() ==> is_ws(s[word_len(s) as int]),
    decreases s.len(),
{
    if s.len() > 0 && !is_ws(s[0]) {
        lemma_word_len(s.drop_first());
        assert forall|i: int| 0 <= i < word_len(s) implies !is_ws(#[trigger] s[i]) by {
            if i > 0 {
                assert(s[i] == s.drop_first()[i - 1]);
            }
        }
    }
}

/// `str::split_whitespace`: the maximal runs of non-whitespace characters of
/// `s`, in order.
pub open spec fn split_whitespace(s: Seq<char>) -> Seq<Seq<char>>
    decreases s.len(),
{
    if s.len() == 0 {
        Seq::empty()
    } else if is_ws(s[0]) {
        split_whitespace(s.drop_first())
    } else {
        proof {
            lemma_word_len(s);
        }
        seq![s.take(word_len(s) as int)] + split_whitespace(s.skip(word_len(s) as int))
    }
}

/// No character is below U+0000.
proof fn lemma_char_at_least_nul(c: char)
    ensures
        '\0' <= c,
{
}

/// Each word that `split_whitespace` gives of `s` is ASCII.
pub open spec fn every_word_ascii(s: Seq<char>) -> bool {
    forall|k: int|
        0 <= k < split_whitespace(s).len() ==> vstd::utf8::is_ascii_chars(
            #[trigger] split_whitespace(s)[k],
        )
}

/// [`words_ascii`] says that each word that `split_whitespace` gives is ASCII.
pub proof fn lemma_words_ascii_by_word(s: Seq<char>)
    ensures
        words_ascii(s) <==> forall|k: int|
            0 <= k < split_whitespace(s).len() ==> vstd::utf8::is_ascii_chars(
                #[trigger] split_whitespace(s)[k],
            ),
    decreases s.len(),
{
    if s.len() == 0 {
    } else if is_ws(s[0]) {
        let t = s.drop_first();
        lemma_words_ascii_by_word(t);
        assert(split_whitespace(s) == split_whitespace(t));
        assert(words_ascii(s) <==> words_ascii(t)) by {
            if words_ascii(t) {
                assert forall|i: int| 0 <= i < s.len() && !is_ws(#[trigger] s[i]) implies s[i]
                    <= '\u{7f}' by {
                    assert(s[i] == t[i - 1]);
                }
            }
            if words_ascii(s) {
                assert forall|i: int| 0 <= i < t.len() && !is_ws(#[trigger] t[i]) implies t[i]
                    <= '\u{7f}' by {
                    assert(t[i] == s[i + 1]);
                }
            }
        }
    } else {
        lemma_word_len(s);
        let n = word_len(s) as int;
        let w = s.take(n);
        let t = s.skip(n);
        lemma_words_ascii_by_word(t);
        let ws = split_whitespace(s);
        assert(ws == seq![w] + split_whitespace(t));
        assert(words_ascii(s) <==> vstd::utf8::is_ascii_chars(w) && words_ascii(t)) by {
            if words_ascii(s) {
                assert forall|i: int| 0 <= i < w.len() implies '\0' <= #[trigger] w[i] <= '\u{7f}' by {
                    assert(w[i] == s[i]);
                    assert(!is_ws(s[i]));
                    assert(s[i] <= '\u{7f}');
                    lemma_char_at_least_nul(s[i]);
                }
                assert forall|i: int| 0 <= i < t.len() && !is_ws(#[trigger] t[i]) implies t[i]
                    <= '\u{7f}' by {
                    assert(t[i] == s[i + n]);
                }
            }
            if vstd::utf8::is_ascii_chars(w) && words_ascii(t) {
                assert forall|i: int| 0 <= i < s.len() && !is_ws(#[trigger] s[i]) implies s[i]
                    <= '\u{7f}' by {
                    if i < n {
                        assert(w[i] == s[i]);
                    } else {
                        assert(t[i - n] == s[i]);
                    }
                }
            }
        }
        assert((forall|k: int|
            0 <= k < ws.len() ==> vstd::utf8::is_ascii_chars(#[trigger] ws[k])) <==> (
        vstd::utf8::is_ascii_chars(w) && forall|k: int|
            0 <= k < split_whitespace(t).len() ==> vstd::utf8::is_ascii_chars(
                #[trigger] split_whitespace(t)[k],
            ))) by {
            assert(ws[0] == w);
            assert forall|k: int| 0 <= k < split_whitespace(t).len() implies ws[k + 1]
                == split_whitespace(t)[k] by {}
        }
    }
}

/// Where there is no `c` before position `k` of `s`, and `k` is the end of
/// `s` or holds `c`, the search for `c` ends at `k`.
pub proof fn lemma_find_char(s: Seq<char>, c: char, k: int)
    requires
        0 <= k <= s.len(),
        forall|j: int| 0 <= j < k ==> s[j] != c,
        k < s.len() ==> s[k] == c,
    ensures
        find_char(s, c) == (if k < s.len() { Some(k) } else { None::<int> }),
    decreases s.len(),
{
    if s.len() > 0 && k > 0 {
        lemma_find_char(s.drop_first(), c, k - 1);
    }
}

/// What the search for `c` finds is the first `c` of `s`.
pub proof fn lemma_find_first(s: Seq<char>, c: char)
    ensures
        find_char(s, c) matches Some(i) ==> 0 <= i < s.len() && s[i] == c && forall|j: int|
            0 <= j < i ==> s[j] != c,
    decreases s.len(),
{
    if s.len() > 0 && s[0] != c {
        lemma_find_first(s.drop_first(), c);
        if let Some(i) = find_char(s.drop_first(), c) {
            assert forall|j: int| 0 <= j < i + 1 implies s[j] != c by {
                if j > 0 {
                    assert(s[j] == s.drop_first()[j - 1]);
                }
            }
        }
    }
}

/// The search for `c` succeeds exactly where `s` holds a `c`.
pub proof fn lemma_find_char_contains(s: Seq<char>, c: char)
    ensures
        find_char(s, c) is Some <==> s.contains(c),
        find_char(s, c) matches Some(i) ==> 0 <= i < s.len() && s[i] == c,
    decreases s.len(),
{
    if s.len() > 0 {
        lemma_find_char_contains(s.drop_first(), c);
        if s.drop_first().contains(c) {
            let j = choose|j: int| 0 <= j < s.drop_first().len() && s.drop_first()[j] == c;
            assert(s[j + 1] == c);
        }
        if s.contains(c) && s[0] != c {
            let j = choose|j: int| 0 <= j < s.len() && s[j] == c;
            assert(s.drop_first()[j - 1] == c);
        }
    }
}

/// What `trim_end` leaves is empty or ends in a character that is not whitespace.
pub proof fn lemma_trim_end_last(s: Seq<char>)
    ensures
        trim_end(s).len() == 0 || !is_ws(trim_end(s).last()),
    decreases s.len(),
{
    if s.len() > 0 && is_ws(s.last()) {
        lemma_trim_end_last(s.drop_last());
    }
}

/// Text that ends in a character that is not whitespace keeps that last
/// character, and is not empty, once trimmed.
pub proof fn lemma_trim_keeps_last(s: Seq<char>)
    requires
        s.len() > 0,
        !is_ws(s.last()),
    ensures
        trim_start(s).len() > 0,
        trim_start(s).last() == s.last(),
        trim(s) == trim_start(s),
    decreases s.len(),
{
    if is_ws(s[0]) {
        lemma_trim_keeps_last(s.drop_first());
    }
}

/// The text after the first `c` of `s`, where `s` ends in a character that
/// is not whitespace, is not empty and ends in that character too.
pub proof fn lemma_split_tail(s: Seq<char>, c: char)
    requires
        is_ws(c),
        s.len() > 0,
        !is_ws(s.last()),
        split_once(s, c) is Some,
    ensures
        split_once(s, c) matches Some((_, tail)) && tail.len() > 0 && tail.last() == s.last(),
{
    lemma_find_char_contains(s, c);
}

/// What `trim_end` leaves of `x` is the start of `x`.
pub proof fn lemma_trim_end_prefix(x: Seq<char>)
    ensures
        trim_end(x).len() <= x.len(),
        trim_end(x) == x.take(trim_end(x).len() as int),
    decreases x.len(),
{
    if x.len() > 0 && is_ws(x.last()) {
        lemma_trim_end_prefix(x.drop_last());
        assert(x.drop_last().take(trim_end(x).len() as int) =~= x.take(trim_end(x).len() as int));
    } else {
        assert(x.take(x.len() as int) =~= x);
    }
}

/// What `trim_start` leaves is empty or starts with a character that is not whitespace.
pub proof fn lemma_trim_start_first(s: Seq<char>)
    ensures
        trim_start(s).len() == 0 || !is_ws(trim_start(s)[0]),
    decreases s.len(),
{
    if s.len() > 0 && is_ws(s[0]) {
        lemma_trim_start_first(s.drop_first());
    }
}

/// Trimming twice is trimming once.
pub proof fn lemma_trim_twice(s: Seq<char>)
    ensures
        trim(trim(s)) == trim(s),
{
    let x = trim_start(s);
    let t = trim(s);
    lemma_trim_start_first(s);
    lemma_trim_end_prefix(x);
    lemma_trim_end_last(x);
    if t.len() > 0 {
        assert(t[0] == x[0]);
        assert(trim_start(t) == t);
        assert(trim_end(t) == t);
    }
}

/// Every character of `s` is whitespace.
pub open spec fn all_ws(s: Seq<char>) -> bool {
    forall|i: int| 0 <= i < s.len() ==> is_ws(#[trigger] s[i])
}

/// Whitespace in front of `x` is dropped by `trim_start`.
pub proof fn lemma_trim_start_prefix(pre: Seq<char>, x: Seq<char>)
    requires
        all_ws(pre),
    ensures
        trim_start(pre + x) == trim_start(x),
    decreases pre.len(),
{
    if pre.len() > 0 {
        assert((pre + x)[0] == pre[0]);
        assert((pre + x).drop_first() =~= pre.drop_first() + x);
        lemma_trim_start_prefix(pre.drop_first(), x);
    }
}

/// Where `s` holds a character that is not whitespace, `trim_start` stops
/// within `s`, and what follows `s` stays.
pub proof fn lemma_trim_start_suffix(s: Seq<char>, post: Seq<char>)
    requires
        !all_ws(s),
    ensures
        trim_start(s + post) == trim_start(s) + post,
    decreases s.len(),
{
    assert(s.len() > 0);
    assert((s + post)[0] == s[0]);
    if is_ws(s[0]) {
        assert((s + post).drop_first() =~= s.drop_first() + post);
        assert(!all_ws(s.drop_first())) by {
            let i = choose|i: int| 0 <= i < s.len() && !is_ws(#[trigger] s[i]);
            assert(s.drop_first()[i - 1] == s[i]);
        }
        lemma_trim_start_suffix(s.drop_first(), post);
    }
}

/// Whitespace after `y` is dropped by `trim_end`.
pub proof fn lemma_trim_end_suffix(y: Seq<char>, post: Seq<char>)
    requires
        all_ws(post),
    ensures
        trim_end(y + post) == trim_end(y),
    decreases post.len(),
{
    if post.len() > 0 {
        assert((y + post).last() == post.last());
        assert((y + post).drop_last() =~= y + post.drop_last());
        lemma_trim_end_suffix(y, post.drop_last());
    } else {
        assert(y + post =~= y);
    }
}

/// Whitespace around `s` does not change what `trim` leaves of it.
pub proof fn lemma_trim_ignores_padding(pre: Seq<char>, s: Seq<char>, post: Seq<char>)
    requires
        all_ws(pre),
        all_ws(post),
    ensures
        trim(pre + s + post) == trim(s),
{
    assert(pre + s + post =~= pre + (s + post));
    lemma_trim_start_prefix(pre, s + post);
    if all_ws(s) {
        lemma_trim_start_prefix(s, post);
        lemma_trim_start_prefix(post, Seq::empty());
        assert(post + Seq::<char>::empty() =~= post);
        lemma_trim_start_prefix(s, Seq::empty());
        assert(s + Seq::<char>::empty() =~= s);
    } else {
        lemma_trim_start_suffix(s, post);
        lemma_trim_end_suffix(trim_start(s), post);
    }
}

/// The characters of `s`, in order, as a vector.
pub fn chars_of(s: &str) -> (v: Vec<char>)
    ensures
        v@ == s@,
{
    let mut v: Vec<char> = Vec::new();
    for c in it: s.chars()
        invariant
            v@ == it.seq().take(it.index() as int),
    {
        v.push(c);
    }
    v
}

/// `char::is_whitespace`.
pub fn char_is_ws(c: char) -> (b: bool)
    ensures
        b == is_ws(c),
{
    ('\u{9}' <= c && c <= '\u{d}') || c == ' ' || c == '\u{85}' || c == '\u{a0}' || c == '\u{1680}'
        || ('\u{2000}' <= c && c <= '\u{200a}') || c == '\u{2028}' || c == '\u{2029}' || c
        == '\u{202f}' || c == '\u{205f}' || c == '\u{3000}'
}

/// The bounds, within `lo..hi`, of the text of `v[lo..hi]` without its leading whitespace.
pub fn trim_start_range(v: &Vec<char>, lo: usize, hi: usize) -> (a: usize)
    requires
        lo <= hi <= v@.len(),
    ensures
        lo <= a <= hi,
        v@.subrange(a as int, hi as int) == trim_start(v@.subrange(lo as int, hi as int)),
{
    let mut i = lo;
    while i < hi && char_is_ws(v[i])
        invariant
            lo <= i <= hi <= v@.len(),
            trim_start(v@.subrange(i as int, hi as int)) == trim_start(
                v@.subrange(lo as int, hi as int),
            ),
        decreases hi - i,
    {
        assert(v@.subrange(i as int, hi as int).drop_first() =~= v@.subrange(
            i + 1,
            hi as int,
        ));
        i = i + 1;
    }
    i
}

/// The bounds, within `lo..hi`, of the text of `v[lo..hi]` without its trailing whitespace.
pub fn trim_end_range(v: &Vec<char>, lo: usize, hi: usize) -> (b: usize)
    requires
        lo <= hi <= v@.len(),
    ensures
        lo <= b <= hi,
        v@.subrange(lo as int, b as int) == trim_end(v@.subrange(lo as int, hi as int)),
{
    let mut j = hi;
    while j > lo && char_is_ws(v[j - 1])
        invariant
            lo <= j <= hi <= v@.len(),
            trim_end(v@.subrange(lo as int, j as int)) == trim_end(
                v@.subrange(lo as int, hi as int),
            ),
        decreases j - lo,
    {
        assert(v@.subrange(lo as int, j as int).drop_last() =~= v@.subrange(
            lo as int,
            j - 1,
        ));
        j = j - 1;
    }
    j
}

/// The bounds of the text of `v[lo..hi]` without its leading and trailing whitespace.
pub fn trim_range(v: &Vec<char>, lo: usize, hi: usize) -> (r: (usize, usize))
    requires
        lo <= hi <= v@.len(),
    ensures
        lo <= r.0 <= r.1 <= hi,
        v@.subrange(r.0 as int, r.1 as int) == trim(v@.subrange(lo as int, hi as int)),
{
    let a = trim_start_range(v, lo, hi);
    let b = trim_end_range(v, a, hi);
    (a, b)
}

/// The position of the first `c` in `v[lo..hi]`, counted from the start of `v`.
pub fn find_in_range(v: &Vec<char>, lo: usize, hi: usize, c: char) -> (r: Option<usize>)
    requires
        lo <= hi <= v@.len(),
    ensures
        match r {
            Some(k) => lo <= k < hi && find_char(v@.subrange(lo as int, hi as int), c) == Some(
                k - lo,
            ),
            None => find_char(v@.subrange(lo as int, hi as int), c) is None,
        },
{
    let mut i = lo;
    while i < hi && v[i] != c
        invariant
            lo <= i <= hi <= v@.len(),
            forall|j: int| lo <= j < i ==> v@[j] != c,
        decreases hi - i,
    {
        i = i + 1;
    }
    proof {
        lemma_find_char(v@.subrange(lo as int, hi as int), c, i - lo);
    }
    if i < hi {
        Some(i)
    } else {
        None
    }
}

/// Whether every non-whitespace character of `v[lo..hi]` is ASCII.
pub fn range_words_ascii(v: &Vec<char>, lo: usize, hi: usize) -> (b: bool)
    requires
        lo <= hi <= v@.len(),
    ensures
        b == words_ascii(v@.subrange(lo as int, hi as int)),
{
    let ghost s = v@.subrange(lo as int, hi as int);
    let mut i = lo;
    while i < hi
        invariant
            lo <= i <= hi <= v@.len(),
            s == v@.subrange(lo as int, hi as int),
            forall|j: int| 0 <= j < i - lo && !is_ws(#[trigger] s[j]) ==> s[j] <= '\u{7f}',
        decreases hi - i,
    {
        let c = v[i];
        if !char_is_ws(c) && c > '\u{7f}' {
            assert(s[i - lo] == c);
            return false;
        }
        i = i + 1;
    }
    true
}

/// Whether `v[lo..hi]` is exactly the text `w`.
pub fn range_is(v: &Vec<char>, lo: usize, hi: usize, w: &[char]) -> (b: bool)
    requires
        lo <= hi <= v@.len(),
    ensures
        b == (v@.subrange(lo as int, hi as int) == w@),
{
    if hi - lo != w.len() {
        return false;
    }
    let mut i: usize = 0;
    while i < w.len()
        invariant
            lo <= hi <= v@.len(),
            hi - lo == w@.len(),
            0 <= i <= w@.len(),
            forall|j: int| 0 <= j < i ==> v@[lo + j] == w@[j],
        decreases w@.len() - i,
    {
        if v[lo + i] != w[i] {
            assert(v@.subrange(lo as int, hi as int)[i as int] != w@[i as int]);
            return false;
        }
        i = i + 1;
    }
    assert(v@.subrange(lo as int, hi as int) =~= w@);
    true
}

} // verus!
