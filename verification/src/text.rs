//! Character-level helpers on `&str`, with their meaning over `Seq<char>`.

use vstd::prelude::*;

verus! {

/// Unicode `White_Space` property, as used by `char::is_whitespace` and `str::trim`.
pub open spec fn is_white_space(c: char) -> bool {
    ||| ('\t' <= c && c <= '\r')
    ||| c == ' '
    ||| c == '\u{85}'
    ||| c == '\u{a0}'
    ||| c == '\u{1680}'
    ||| ('\u{2000}' <= c && c <= '\u{200a}')
    ||| c == '\u{2028}'
    ||| c == '\u{2029}'
    ||| c == '\u{202f}'
    ||| c == '\u{205f}'
    ||| c == '\u{3000}'
}

/// `s` without its leading white space.
pub open spec fn trim_start(s: Seq<char>) -> Seq<char>
    decreases s.len(),
{
    if s.len() > 0 && is_white_space(s[0]) {
        trim_start(s.drop_first())
    } else {
        s
    }
}

/// `s` without its trailing white space.
pub open spec fn trim_end(s: Seq<char>) -> Seq<char>
    decreases s.len(),
{
    if s.len() > 0 && is_white_space(s.last()) {
        trim_end(s.drop_last())
    } else {
        s
    }
}

/// `s` without leading and trailing white space (what `str::trim` returns).
pub open spec fn trim(s: Seq<char>) -> Seq<char> {
    trim_end(trim_start(s))
}

/// `trim_start` drops a prefix, and what it keeps does not begin with white space.
pub proof fn lemma_trim_start_shape(s: Seq<char>)
    ensures
        trim_start(s).is_suffix_of(s),
        trim_start(s).len() > 0 ==> !is_white_space(trim_start(s)[0]),
    decreases s.len(),
{
    if s.len() > 0 && is_white_space(s[0]) {
        lemma_trim_start_shape(s.drop_first());
        let t = trim_start(s.drop_first());
        assert(t =~= s.subrange(s.len() - t.len(), s.len() as int)) by {
            assert forall|i: int| 0 <= i < t.len() implies t[i] == s[s.len() - t.len() + i] by {
                assert(t[i] == s.drop_first()[s.drop_first().len() - t.len() + i]);
            }
        }
    } else {
        assert(s =~= s.subrange(0, s.len() as int));
    }
}

/// `trim_end` drops a suffix, and what it keeps does not end with white space.
pub proof fn lemma_trim_end_shape(s: Seq<char>)
    ensures
        trim_end(s).is_prefix_of(s),
        trim_end(s).len() > 0 ==> !is_white_space(trim_end(s).last()),
    decreases s.len(),
{
    if s.len() > 0 && is_white_space(s.last()) {
        lemma_trim_end_shape(s.drop_last());
        let t = trim_end(s.drop_last());
        assert(t =~= s.subrange(0, t.len() as int)) by {
            assert forall|i: int| 0 <= i < t.len() implies t[i] == s[i] by {
                assert(t[i] == s.drop_last()[i]);
            }
        }
    } else {
        assert(s =~= s.subrange(0, s.len() as int));
    }
}

/// What `trim` keeps neither begins nor ends with white space.
pub proof fn lemma_trim_shape(s: Seq<char>)
    ensures
        trim(s).len() > 0 ==> !is_white_space(trim(s)[0]) && !is_white_space(trim(s).last()),
{
    lemma_trim_start_shape(s);
    lemma_trim_end_shape(trim_start(s));
    let t = trim(s);
    if t.len() > 0 {
        assert(t[0] == trim_start(s)[0]);
    }
}

/// A sequence that neither begins nor ends with white space is its own `trim`.
pub proof fn lemma_trim_of_trimmed(s: Seq<char>)
    requires
        s.len() > 0 ==> !is_white_space(s[0]) && !is_white_space(s.last()),
    ensures
        trim(s) == s,
{
}

/// Trimming twice is trimming once.
pub proof fn law_trim_idempotent(s: Seq<char>)
    ensures
        trim(trim(s)) == trim(s),
{
    lemma_trim_shape(s);
    lemma_trim_of_trimmed(trim(s));
}

/// Decides the `White_Space` property of a character.
pub fn is_white_space_char(c: char) -> (res: bool)
    ensures
        res == is_white_space(c),
{
    ('\t' <= c && c <= '\r') || c == ' ' || c == '\u{85}' || c == '\u{a0}' || c == '\u{1680}'
        || ('\u{2000}' <= c && c <= '\u{200a}') || c == '\u{2028}' || c == '\u{2029}'
        || c == '\u{202f}' || c == '\u{205f}' || c == '\u{3000}'
}

/// Removes leading and trailing white space.
pub fn trim_str(s: &str) -> (res: &str)
    ensures
        res@ == trim(s@),
{
    let n = s.unicode_len();
    let mut i: usize = 0;
    assert(s@.skip(0) =~= s@);
    while i < n && is_white_space_char(s.get_char(i))
        invariant
            n == s@.len(),
            i <= n,
            trim_start(s@) == trim_start(s@.skip(i as int)),
        decreases n - i,
    {
        assert(s@.skip(i as int).drop_first() =~= s@.skip(i + 1));
        i = i + 1;
    }
    assert(trim_start(s@.skip(i as int)) == s@.skip(i as int)) by {
        if i < n {
            assert(s@.skip(i as int)[0] == s@[i as int]);
        }
    }
    let mut j: usize = n;
    while j > i && is_white_space_char(s.get_char(j - 1))
        invariant
            n == s@.len(),
            i <= j <= n,
            trim_start(s@) == s@.subrange(i as int, n as int),
            trim(s@) == trim_end(s@.subrange(i as int, j as int)),
        decreases j,
    {
        assert(s@.subrange(i as int, j as int).drop_last() =~= s@.subrange(i as int, j - 1));
        j = j - 1;
    }
    assert(trim_end(s@.subrange(i as int, j as int)) == s@.subrange(i as int, j as int));
    s.substring_char(i, j)
}

/// Whether `s` begins with `prefix`.
pub fn has_prefix(s: &str, prefix: &str) -> (res: bool)
    ensures
        res == prefix@.is_prefix_of(s@),
{
    let n = s.unicode_len();
    let m = prefix.unicode_len();
    if m > n {
        return false;
    }
    let mut i: usize = 0;
    while i < m
        invariant
            n == s@.len(),
            m == prefix@.len(),
            m <= n,
            i <= m,
            forall|k: int| 0 <= k < i ==> prefix@[k] == s@[k],
        decreases m - i,
    {
        if s.get_char(i) != prefix.get_char(i) {
            return false;
        }
        i = i + 1;
    }
    assert(prefix@ =~= s@.subrange(0, m as int));
    true
}

/// The part of `s` before the first occurrence of `c` (all of `s` when `c` does not occur).
pub open spec fn before_first(s: Seq<char>, c: char) -> Seq<char>
    decreases s.len(),
{
    if s.len() == 0 {
        s
    } else if s[0] == c {
        Seq::empty()
    } else {
        seq![s[0]] + before_first(s.drop_first(), c)
    }
}

/// The part of `s` after the last occurrence of `c` (all of `s` when `c` does not occur).
pub open spec fn after_last(s: Seq<char>, c: char) -> Seq<char>
    decreases s.len(),
{
    if s.len() == 0 {
        s
    } else if s.last() == c {
        Seq::empty()
    } else {
        after_last(s.drop_last(), c).push(s.last())
    }
}

/// `before_first(s, c)` is a prefix of `s` that does not hold `c`.
pub proof fn lemma_before_first(s: Seq<char>, c: char)
    ensures
        before_first(s, c).is_prefix_of(s),
        !before_first(s, c).contains(c),
    decreases s.len(),
{
    if s.len() > 0 && s[0] != c {
        lemma_before_first(s.drop_first(), c);
        let r = before_first(s.drop_first(), c);
        let b = seq![s[0]] + r;
        assert(b =~= s.subrange(0, b.len() as int)) by {
            assert forall|i: int| 0 < i < b.len() implies b[i] == s[i] by {
                assert(b[i] == r[i - 1]);
                assert(r[i - 1] == s.drop_first()[i - 1]);
            }
        }
        assert forall|i: int| 0 <= i < b.len() implies b[i] != c by {
            if i > 0 {
                assert(b[i] == r[i - 1]);
            }
        }
    }
}

/// A start without `c` passes through `before_first`.
pub proof fn lemma_before_first_concat(a: Seq<char>, b: Seq<char>, c: char)
    requires
        !a.contains(c),
    ensures
        before_first(a + b, c) == a + before_first(b, c),
    decreases a.len(),
{
    if a.len() > 0 {
        let ab = a + b;
        assert(ab[0] == a[0]);
        assert(a[0] != c);
        assert(ab.drop_first() =~= a.drop_first() + b);
        assert(!a.drop_first().contains(c)) by {
            if a.drop_first().contains(c) {
                let i = choose|i: int| 0 <= i < a.drop_first().len() && a.drop_first()[i] == c;
                assert(a[i + 1] == c);
            }
        }
        lemma_before_first_concat(a.drop_first(), b, c);
        assert(seq![a[0]] + (a.drop_first() + before_first(b, c)) =~= a + before_first(b, c));
    } else {
        assert(a + b =~= b);
        assert(a + before_first(b, c) =~= before_first(b, c));
    }
}

/// After the last `c`, `after_last` gives back exactly what follows it.
pub proof fn lemma_after_last_concat(x: Seq<char>, w: Seq<char>, c: char)
    requires
        !w.contains(c),
    ensures
        after_last(x.push(c) + w, c) == w,
    decreases w.len(),
{
    let s = x.push(c) + w;
    if w.len() == 0 {
        assert(s =~= x.push(c));
        assert(s.last() == c);
    } else {
        assert(s.last() == w.last());
        assert(w.last() != c);
        assert(s.drop_last() =~= x.push(c) + w.drop_last());
        assert(!w.drop_last().contains(c)) by {
            if w.drop_last().contains(c) {
                let i = choose|i: int| 0 <= i < w.drop_last().len() && w.drop_last()[i] == c;
                assert(w[i] == c);
            }
        }
        lemma_after_last_concat(x, w.drop_last(), c);
        assert(w.drop_last().push(w.last()) =~= w);
    }
}

/// `after_last(s, c)` is a suffix of `s` that does not hold `c`.
pub proof fn lemma_after_last(s: Seq<char>, c: char)
    ensures
        after_last(s, c).is_suffix_of(s),
        !after_last(s, c).contains(c),
    decreases s.len(),
{
    if s.len() > 0 && s.last() != c {
        lemma_after_last(s.drop_last(), c);
        let r = after_last(s.drop_last(), c);
        let a = r.push(s.last());
        assert(a =~= s.subrange(s.len() - a.len(), s.len() as int)) by {
            assert forall|i: int| 0 <= i < a.len() - 1 implies a[i] == s[s.len() - a.len() + i] by {
                assert(a[i] == r[i]);
                assert(r[i] == s.drop_last()[s.drop_last().len() - r.len() + i]);
            }
        }
        assert forall|i: int| 0 <= i < a.len() implies a[i] != c by {
            if i < a.len() - 1 {
                assert(a[i] == r[i]);
            }
        }
    }
}

/// The index in `from..=to` where the part of `s[from..to]` before the first `c` ends.
pub fn end_before_first(s: &str, from: usize, to: usize, c: char) -> (end: usize)
    requires
        from <= to <= s@.len(),
    ensures
        from <= end <= to,
        s@.subrange(from as int, end as int) == before_first(s@.subrange(from as int, to as int), c),
{
    let mut i = from;
    while i < to && s.get_char(i) != c
        invariant
            from <= i <= to <= s@.len(),
            before_first(s@.subrange(from as int, to as int), c) == s@.subrange(from as int, i as int)
                + before_first(s@.subrange(i as int, to as int), c),
        decreases to - i,
    {
        let ghost rest = s@.subrange(i as int, to as int);
        assert(rest[0] == s@[i as int]);
        assert(rest.drop_first() =~= s@.subrange(i + 1, to as int));
        assert(s@.subrange(from as int, i as int) + seq![s@[i as int]] =~= s@.subrange(
            from as int,
            i + 1,
        ));
        assert(before_first(rest, c) == seq![s@[i as int]] + before_first(rest.drop_first(), c));
        assert(s@.subrange(from as int, i as int) + (seq![s@[i as int]] + before_first(
            rest.drop_first(),
            c,
        )) =~= s@.subrange(from as int, i + 1) + before_first(rest.drop_first(), c));
        i = i + 1;
    }
    proof {
        let rest = s@.subrange(i as int, to as int);
        if i < to {
            assert(rest[0] == c);
        }
        assert(before_first(rest, c) =~= Seq::<char>::empty());
        assert(s@.subrange(from as int, i as int) + Seq::<char>::empty() =~= s@.subrange(
            from as int,
            i as int,
        ));
    }
    i
}

/// The index in `0..=to` where the part of `s[..to]` after the last `c` begins.
pub fn start_after_last(s: &str, to: usize, c: char) -> (start: usize)
    requires
        to <= s@.len(),
    ensures
        start <= to,
        s@.subrange(start as int, to as int) == after_last(s@.subrange(0, to as int), c),
{
    let mut j = to;
    assert(s@.subrange(j as int, to as int) =~= Seq::<char>::empty());
    assert(after_last(s@.subrange(0, to as int), c) =~= after_last(s@.subrange(0, j as int), c)
        + s@.subrange(j as int, to as int));
    while j > 0 && s.get_char(j - 1) != c
        invariant
            j <= to <= s@.len(),
            after_last(s@.subrange(0, to as int), c) == after_last(s@.subrange(0, j as int), c)
                + s@.subrange(j as int, to as int),
        decreases j,
    {
        let ghost front = s@.subrange(0, j as int);
        assert(front.last() == s@[j - 1]);
        assert(front.drop_last() =~= s@.subrange(0, j - 1));
        assert(after_last(front, c) == after_last(front.drop_last(), c).push(s@[j - 1]));
        assert(after_last(front.drop_last(), c).push(s@[j - 1]) + s@.subrange(j as int, to as int)
            =~= after_last(front.drop_last(), c) + s@.subrange(j - 1, to as int));
        j = j - 1;
    }
    proof {
        let front = s@.subrange(0, j as int);
        if j > 0 {
            assert(front.last() == c);
        }
        assert(after_last(front, c) =~= Seq::<char>::empty());
        assert(Seq::<char>::empty() + s@.subrange(j as int, to as int) =~= s@.subrange(
            j as int,
            to as int,
        ));
    }
    j
}

/// Whether `c` occurs in `s[from..to]`.
pub fn contains_char(s: &str, from: usize, to: usize, c: char) -> (res: bool)
    requires
        from <= to <= s@.len(),
    ensures
        res == s@.subrange(from as int, to as int).contains(c),
{
    let mut i = from;
    while i < to
        invariant
            from <= i <= to <= s@.len(),
            forall|k: int| from <= k < i ==> s@[k] != c,
        decreases to - i,
    {
        if s.get_char(i) == c {
            assert(s@.subrange(from as int, to as int)[i - from] == c);
            return true;
        }
        i = i + 1;
    }
    assert forall|k: int| 0 <= k < to - from implies s@.subrange(from as int, to as int)[k] != c by {
        assert(s@.subrange(from as int, to as int)[k] == s@[from + k]);
    }
    false
}

} // verus!
