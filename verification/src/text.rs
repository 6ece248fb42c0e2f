//! Character-sequence operations that the scrapers are built from.
//!
//! Every operation works on `Seq<char>` in its specification and on `[char]`
//! slices in code; the semantics follow the `str` methods of the same name.

use vstd::prelude::*;
use vstd::string::StringSliceAdditionalSpecFns;
use vstd::utf8::*;

verus! {

// ---------------------------------------------------------------------------
// Conversions between `str`/`String` and character vectors
// ---------------------------------------------------------------------------

/// The characters of a string slice, in order.
pub fn chars_of(s: &str) -> (res: Vec<char>)
    ensures
        res@ == s@,
{
    let mut out: Vec<char> = Vec::new();
    for c in it: s.chars()
        invariant
            out@ == it.seq().take(it.index() as int),
            it.seq() == s@,
    {
        out.push(c);
    }
    out
}

/// Builds a `String` from its characters (`FromIterator<char>` for `String`).
#[verifier::external_body]
pub fn string_of(chars: &[char]) -> (res: String)
    ensures
        res@ == chars@,
{
    chars.iter().collect()
}

/// An owned copy of a string slice.
pub fn owned(s: &str) -> (res: String)
    ensures
        res@ == s@,
{
    s.to_owned()
}

/// Appends all of `s` to `out`.
pub fn push_all(out: &mut Vec<char>, s: &[char])
    ensures
        final(out)@ == old(out)@ + s@,
{
    let mut i: usize = 0;
    while i < s.len()
        invariant
            0 <= i <= s@.len(),
            out@ == old(out)@ + s@.take(i as int),
        decreases s@.len() - i,
    {
        out.push(s[i]);
        i = i + 1;
        assert(s@.take(i as int) == s@.take(i - 1).push(s@[i - 1]));
    }
    assert(s@.take(s@.len() as int) == s@);
}

/// Appends the characters of a string slice to `out`.
pub fn push_str(out: &mut Vec<char>, s: &str)
    ensures
        final(out)@ == old(out)@ + s@,
{
    let cs = chars_of(s);
    push_all(out, cs.as_slice());
}

/// Concatenation of two character slices.
pub fn concat(a: &[char], b: &[char]) -> (res: Vec<char>)
    ensures
        res@ == a@ + b@,
{
    let mut out: Vec<char> = Vec::new();
    push_all(&mut out, a);
    push_all(&mut out, b);
    out
}

/// Copy of a character slice.
pub fn copy(a: &[char]) -> (res: Vec<char>)
    ensures
        res@ == a@,
{
    let mut out: Vec<char> = Vec::new();
    push_all(&mut out, a);
    out
}

/// Character-wise equality.
pub fn chars_eq(a: &[char], b: &[char]) -> (res: bool)
    ensures
        res == (a@ == b@),
{
    if a.len() != b.len() {
        return false;
    }
    let mut i: usize = 0;
    while i < a.len()
        invariant
            a@.len() == b@.len(),
            0 <= i <= a@.len(),
            forall|j: int| 0 <= j < i ==> a@[j] == b@[j],
        decreases a@.len() - i,
    {
        if a[i] != b[i] {
            return false;
        }
        i = i + 1;
    }
    assert(a@ =~= b@);
    true
}

/// Equality of two string slices.
pub fn str_eq(a: &str, b: &str) -> (res: bool)
    ensures
        res == (a@ == b@),
{
    let x = chars_of(a);
    let y = chars_of(b);
    chars_eq(x.as_slice(), y.as_slice())
}

// ---------------------------------------------------------------------------
// Prefixes, suffixes and substrings
// ---------------------------------------------------------------------------

/// `p` is a prefix of `s`.
pub open spec fn spec_starts_with(s: Seq<char>, p: Seq<char>) -> bool {
    p.len() <= s.len() && s.subrange(0, p.len() as int) == p
}

/// `p` is a suffix of `s`.
pub open spec fn spec_ends_with(s: Seq<char>, p: Seq<char>) -> bool {
    p.len() <= s.len() && s.subrange(s.len() - p.len(), s.len() as int) == p
}

/// `p` occurs in `s` at position `i`.
pub open spec fn occurs_at(s: Seq<char>, p: Seq<char>, i: int) -> bool {
    0 <= i && i + p.len() <= s.len() && s.subrange(i, i + p.len()) == p
}

/// `p` occurs somewhere in `s`.
pub open spec fn spec_contains(s: Seq<char>, p: Seq<char>) -> bool {
    exists|i: int| occurs_at(s, p, i)
}

pub fn starts_with(s: &[char], p: &[char]) -> (res: bool)
    ensures
        res == spec_starts_with(s@, p@),
{
    if p.len() > s.len() {
        return false;
    }
    matches_at(s, p, 0)
}

pub fn ends_with(s: &[char], p: &[char]) -> (res: bool)
    ensures
        res == spec_ends_with(s@, p@),
{
    if p.len() > s.len() {
        return false;
    }
    matches_at(s, p, s.len() - p.len())
}

/// Does `p` occur in `s` at position `i`?
pub fn matches_at(s: &[char], p: &[char], i: usize) -> (res: bool)
    ensures
        res == occurs_at(s@, p@, i as int),
{
    if i > s.len() || p.len() > s.len() - i {
        return false;
    }
    let mut k: usize = 0;
    while k < p.len()
        invariant
            i + p@.len() <= s@.len(),
            s@.len() <= usize::MAX,
            0 <= k <= p@.len(),
            forall|j: int| 0 <= j < k ==> s@[i + j] == p@[j],
        decreases p@.len() - k,
    {
        if s[i + k] != p[k] {
            assert(s@.subrange(i as int, i + p@.len())[k as int] != p@[k as int]);
            return false;
        }
        k = k + 1;
    }
    assert(s@.subrange(i as int, i + p@.len()) =~= p@);
    true
}

/// Position of the first occurrence of `p` in `s` at or after `from`.
pub fn find_from(s: &[char], p: &[char], from: usize) -> (res: Option<usize>)
    ensures
        match res {
            Some(i) => from <= i && occurs_at(s@, p@, i as int) && forall|j: int|
                from <= j < i ==> !occurs_at(s@, p@, j),
            None => forall|j: int| from <= j ==> !occurs_at(s@, p@, j),
        },
{
    let n = s.len();
    if from > n {
        return None;
    }
    let mut i = from;
    loop
        invariant
            from <= i <= n,
            n == s@.len(),
            forall|j: int| from <= j < i ==> !occurs_at(s@, p@, j),
        decreases n - i,
    {
        if matches_at(s, p, i) {
            return Some(i);
        }
        if i == n {
            return None;
        }
        i = i + 1;
    }
}

/// The position of the first occurrence of `p` in `s`, if it occurs.
#[verifier::opaque]
pub open spec fn first_index(s: Seq<char>, p: Seq<char>) -> Option<int> {
    if spec_contains(s, p) {
        Some(
            choose|i: int| occurs_at(s, p, i) && forall|j: int| 0 <= j < i ==> !occurs_at(s, p, j),
        )
    } else {
        None
    }
}

/// An occurrence with none before it is the first one.
pub proof fn lemma_first_index(s: Seq<char>, p: Seq<char>, i: int)
    requires
        occurs_at(s, p, i),
        forall|j: int| 0 <= j < i ==> !occurs_at(s, p, j),
    ensures
        first_index(s, p) == Some(i),
{
    reveal(first_index);
    let k = choose|k: int| occurs_at(s, p, k) && forall|j: int| 0 <= j < k ==> !occurs_at(s, p, j);
    assert(occurs_at(s, p, k));
    assert(k == i) by {
        if k < i {
        } else if k > i {
        }
    }
}

/// Position of the first occurrence of `p` in `s`.
pub fn find(s: &[char], p: &[char]) -> (res: Option<usize>)
    ensures
        match res {
            Some(i) => occurs_at(s@, p@, i as int) && forall|j: int|
                0 <= j < i ==> !occurs_at(s@, p@, j),
            None => !spec_contains(s@, p@),
        },
        match res {
            Some(i) => first_index(s@, p@) == Some(i as int),
            None => first_index(s@, p@) is None,
        },
{
    let r = find_from(s, p, 0);
    proof {
        reveal(first_index);
        if let Some(i) = r {
            lemma_first_index(s@, p@, i as int);
        }
    }
    r
}

/// `str::contains` on characters.
pub fn contains(s: &[char], p: &[char]) -> (res: bool)
    ensures
        res == spec_contains(s@, p@),
{
    match find(s, p) {
        Some(_) => true,
        None => false,
    }
}

/// `str::contains` with a string-slice pattern.
pub fn contains_str(s: &[char], p: &str) -> (res: bool)
    ensures
        res == spec_contains(s@, p@),
{
    let pc = chars_of(p);
    contains(s, pc.as_slice())
}

/// Does `c` occur in `s`?
pub fn has_char(s: &[char], c: char) -> (res: bool)
    ensures
        res == s@.contains(c),
{
    let mut i: usize = 0;
    while i < s.len()
        invariant
            0 <= i <= s@.len(),
            forall|j: int| 0 <= j < i ==> s@[j] != c,
        decreases s@.len() - i,
    {
        if s[i] == c {
            return true;
        }
        i = i + 1;
    }
    false
}

/// The sub-slice `s[from..to]` as a vector.
pub fn slice(s: &[char], from: usize, to: usize) -> (res: Vec<char>)
    requires
        from <= to <= s@.len(),
    ensures
        res@ == s@.subrange(from as int, to as int),
{
    let mut out: Vec<char> = Vec::new();
    let mut i = from;
    while i < to
        invariant
            from <= i <= to <= s@.len(),
            out@ == s@.subrange(from as int, i as int),
        decreases to - i,
    {
        out.push(s[i]);
        i = i + 1;
        assert(s@.subrange(from as int, i as int) == s@.subrange(from as int, i - 1).push(
            s@[i - 1],
        ));
    }
    out
}

// ---------------------------------------------------------------------------
// Splitting
// ---------------------------------------------------------------------------

/// The character sequences of a list of character vectors.
pub open spec fn views(v: Seq<Vec<char>>) -> Seq<Seq<char>> {
    Seq::new(v.len(), |i: int| v[i]@)
}

/// `str::split` by a single character: the pieces between the separators,
/// always at least one.
pub open spec fn spec_split(s: Seq<char>, sep: char) -> Seq<Seq<char>>
    decreases s.len(),
{
    if s.len() == 0 {
        seq![Seq::<char>::empty()]
    } else {
        let init = spec_split(s.drop_last(), sep);
        if s.last() == sep {
            init.push(Seq::<char>::empty())
        } else {
            init.update(init.len() - 1, init.last().push(s.last()))
        }
    }
}

pub proof fn lemma_split_nonempty(s: Seq<char>, sep: char)
    ensures
        spec_split(s, sep).len() >= 1,
    decreases s.len(),
{
    if s.len() > 0 {
        lemma_split_nonempty(s.drop_last(), sep);
    }
}

/// A string without the separator is a single piece.
pub proof fn lemma_split_without_sep(s: Seq<char>, sep: char)
    requires
        !s.contains(sep),
    ensures
        spec_split(s, sep) == seq![s],
    decreases s.len(),
{
    if s.len() > 0 {
        assert(!s.drop_last().contains(sep)) by {
            if s.drop_last().contains(sep) {
                let k = choose|k: int| 0 <= k < s.drop_last().len() && s.drop_last()[k] == sep;
                assert(s[k] == sep);
            }
        }
        lemma_split_without_sep(s.drop_last(), sep);
        assert(s.last() != sep) by {
            assert(s[s.len() - 1] == s.last());
        }
        let init = spec_split(s.drop_last(), sep);
        assert(init.len() == 1);
        assert(init.last() == s.drop_last());
        assert(s.drop_last().push(s.last()) =~= s);
        assert(spec_split(s, sep) == init.update(0, s));
        assert(spec_split(s, sep) =~= seq![s]);
    } else {
        assert(s =~= Seq::<char>::empty());
    }
}

/// Splitting `a + [sep] + b` separates `a`'s pieces from `b`'s.
pub proof fn lemma_split_append(a: Seq<char>, b: Seq<char>, sep: char)
    ensures
        spec_split(a + seq![sep] + b, sep) == spec_split(a, sep) + spec_split(b, sep),
    decreases b.len(),
{
    lemma_split_nonempty(a, sep);
    lemma_split_nonempty(b, sep);
    if b.len() == 0 {
        let s = a + seq![sep];
        assert(s.drop_last() =~= a);
        assert(a + seq![sep] + b =~= s);
        assert(spec_split(s, sep) =~= spec_split(a, sep) + spec_split(b, sep));
    } else {
        lemma_split_append(a, b.drop_last(), sep);
        let s = a + seq![sep] + b;
        assert(s.drop_last() =~= a + seq![sep] + b.drop_last());
        assert(s.last() == b.last());
        lemma_split_nonempty(b.drop_last(), sep);
        let x = spec_split(a, sep);
        let y = spec_split(b.drop_last(), sep);
        if b.last() == sep {
            assert(spec_split(s, sep) =~= x + y.push(Seq::<char>::empty()));
        } else {
            assert(spec_split(s, sep) =~= x + y.update(y.len() - 1, y.last().push(b.last())));
        }
    }
}

/// Pieces without the separator, joined by it, split back into themselves.
pub proof fn lemma_split_join(items: Seq<Seq<char>>, sep: char)
    requires
        items.len() >= 1,
        forall|i: int| 0 <= i < items.len() ==> !(#[trigger] items[i]).contains(sep),
    ensures
        spec_split(spec_join(items, seq![sep]), sep) == items,
    decreases items.len(),
{
    if items.len() == 1 {
        assert(!items[0].contains(sep));
        lemma_split_without_sep(items[0], sep);
        assert(seq![items[0]] =~= items);
    } else {
        let init = items.drop_last();
        assert forall|i: int| 0 <= i < init.len() implies !(#[trigger] init[i]).contains(sep) by {
            assert(init[i] == items[i]);
        }
        lemma_split_join(init, sep);
        assert(!items[items.len() - 1].contains(sep));
        lemma_split_without_sep(items.last(), sep);
        lemma_split_append(spec_join(init, seq![sep]), items.last(), sep);
        assert(init + seq![items.last()] =~= items);
    }
}

pub fn split(s: &[char], sep: char) -> (res: Vec<Vec<char>>)
    ensures
        views(res@) == spec_split(s@, sep),
        res@.len() >= 1,
{
    let mut done: Vec<Vec<char>> = Vec::new();
    let mut cur: Vec<char> = Vec::new();
    let mut i: usize = 0;
    assert(s@.take(0) =~= Seq::<char>::empty());
    assert(views(done@).push(cur@) =~= spec_split(s@.take(0), sep));
    while i < s.len()
        invariant
            0 <= i <= s@.len(),
            views(done@).push(cur@) == spec_split(s@.take(i as int), sep),
        decreases s@.len() - i,
    {
        let ghost before = views(done@);
        let ghost cur_before = cur@;
        assert(s@.take(i + 1).drop_last() =~= s@.take(i as int));
        assert(s@.take(i + 1).last() == s@[i as int]);
        if s[i] == sep {
            done.push(cur);
            cur = Vec::new();
            assert(views(done@) =~= before.push(cur_before));
            assert(views(done@).push(cur@) =~= before.push(cur_before).push(
                Seq::<char>::empty(),
            ));
        } else {
            cur.push(s[i]);
            assert(views(done@) =~= before);
            assert(views(done@).push(cur@) =~= before.push(cur_before).update(
                before.len() as int,
                cur_before.push(s@[i as int]),
            ));
        }
        i = i + 1;
    }
    done.push(cur);
    assert(s@.take(s@.len() as int) =~= s@);
    proof {
        lemma_split_nonempty(s@, sep);
    }
    done
}

/// `str::split_once` by a single character: the text before and after the
/// first occurrence of `sep`.
pub open spec fn spec_split_once(s: Seq<char>, sep: char) -> Option<(Seq<char>, Seq<char>)> {
    if s.contains(sep) {
        let i = s.index_of_first(sep)->0;
        Some((s.subrange(0, i), s.subrange(i + 1, s.len() as int)))
    } else {
        None
    }
}

/// First index of `c` in `s`.
pub fn index_of(s: &[char], c: char) -> (res: Option<usize>)
    ensures
        match res {
            Some(i) => i < s@.len() && s@[i as int] == c && forall|j: int| 0 <= j < i ==> s@[j] != c,
            None => !s@.contains(c),
        },
{
    let mut i: usize = 0;
    while i < s.len()
        invariant
            0 <= i <= s@.len(),
            forall|j: int| 0 <= j < i ==> s@[j] != c,
        decreases s@.len() - i,
    {
        if s[i] == c {
            return Some(i);
        }
        i = i + 1;
    }
    None
}

pub fn split_once(s: &[char], sep: char) -> (res: Option<(Vec<char>, Vec<char>)>)
    ensures
        match res {
            Some((a, b)) => spec_split_once(s@, sep) == Some((a@, b@)),
            None => spec_split_once(s@, sep) is None,
        },
{
    let n = s.len();
    match index_of(s, sep) {
        Some(i) => {
            proof {
                s@.index_of_first_ensures(sep);
                assert(s@.contains(sep));
                let k = s@.index_of_first(sep)->0;
                assert(k == i) by {
                    if k < i {
                        assert(s@[k] == sep);
                    } else if k > i {
                        assert(s@[i as int] == sep);
                    }
                }
            }
            Some((slice(s, 0, i), slice(s, i + 1, n)))
        },
        None => None,
    }
}

// ---------------------------------------------------------------------------
// Trimming
// ---------------------------------------------------------------------------

/// `str::trim_end_matches` with a character pattern.
pub open spec fn spec_trim_end_char(s: Seq<char>, c: char) -> Seq<char>
    decreases s.len(),
{
    if s.len() > 0 && s.last() == c {
        spec_trim_end_char(s.drop_last(), c)
    } else {
        s
    }
}

/// After trimming, the text no longer ends with the character.
pub proof fn lemma_trim_end_char_last(s: Seq<char>, c: char)
    ensures
        spec_trim_end_char(s, c).len() > 0 ==> spec_trim_end_char(s, c).last() != c,
    decreases s.len(),
{
    if s.len() > 0 && s.last() == c {
        lemma_trim_end_char_last(s.drop_last(), c);
    }
}

pub fn trim_end_char(s: &[char], c: char) -> (res: Vec<char>)
    ensures
        res@ == spec_trim_end_char(s@, c),
{
    let mut n = s.len();
    assert(s@.take(n as int) =~= s@);
    while n > 0 && s[n - 1] == c
        invariant
            0 <= n <= s@.len(),
            spec_trim_end_char(s@.take(n as int), c) == spec_trim_end_char(s@, c),
        decreases n,
    {
        assert(s@.take(n as int).drop_last() =~= s@.take(n - 1));
        n = n - 1;
    }
    proof {
        if n == s@.len() {
            assert(s@.take(n as int) =~= s@);
        }
    }
    slice(s, 0, n)
}

/// `str::trim_start_matches` with a string pattern: strips every leading
/// repetition of `p`.
pub open spec fn spec_trim_start_str(s: Seq<char>, p: Seq<char>) -> Seq<char>
    decreases s.len(),
{
    if p.len() > 0 && spec_starts_with(s, p) {
        spec_trim_start_str(s.subrange(p.len() as int, s.len() as int), p)
    } else {
        s
    }
}

pub fn trim_start_str(s: &[char], p: &[char]) -> (res: Vec<char>)
    ensures
        res@ == spec_trim_start_str(s@, p@),
{
    let mut i: usize = 0;
    assert(s@.subrange(0, s@.len() as int) =~= s@);
    while p.len() > 0 && i <= s.len() && matches_at(s, p, i)
        invariant
            0 <= i <= s@.len(),
            spec_trim_start_str(s@.subrange(i as int, s@.len() as int), p@) == spec_trim_start_str(
                s@,
                p@,
            ),
        decreases s@.len() - i,
    {
        let ghost t = s@.subrange(i as int, s@.len() as int);
        assert(spec_starts_with(t, p@)) by {
            assert(t.subrange(0, p@.len() as int) =~= s@.subrange(i as int, i + p@.len()));
        }
        assert(t.subrange(p@.len() as int, t.len() as int) =~= s@.subrange(
            i + p@.len(),
            s@.len() as int,
        ));
        i = i + p.len();
    }
    proof {
        let t = s@.subrange(i as int, s@.len() as int);
        if p@.len() > 0 && spec_starts_with(t, p@) {
            assert(t.subrange(0, p@.len() as int) =~= s@.subrange(i as int, i + p@.len()));
            assert(occurs_at(s@, p@, i as int));
        }
    }
    slice(s, i, s.len())
}

/// `str::trim_end_matches` with a string pattern.
pub open spec fn spec_trim_end_str(s: Seq<char>, p: Seq<char>) -> Seq<char>
    decreases s.len(),
{
    if p.len() > 0 && spec_ends_with(s, p) {
        spec_trim_end_str(s.subrange(0, s.len() - p.len()), p)
    } else {
        s
    }
}

pub fn trim_end_str(s: &[char], p: &[char]) -> (res: Vec<char>)
    ensures
        res@ == spec_trim_end_str(s@, p@),
{
    let mut n: usize = s.len();
    assert(s@.subrange(0, s@.len() as int) =~= s@);
    while p.len() > 0 && p.len() <= n && matches_at(s, p, n - p.len())
        invariant
            0 <= n <= s@.len(),
            spec_trim_end_str(s@.subrange(0, n as int), p@) == spec_trim_end_str(s@, p@),
        decreases n,
    {
        let ghost t = s@.subrange(0, n as int);
        assert(spec_ends_with(t, p@)) by {
            assert(t.subrange(t.len() - p@.len(), t.len() as int) =~= s@.subrange(
                n - p@.len(),
                n as int,
            ));
        }
        assert(t.subrange(0, t.len() - p@.len()) =~= s@.subrange(0, n - p@.len()));
        n = n - p.len();
    }
    proof {
        let t = s@.subrange(0, n as int);
        if p@.len() > 0 && spec_ends_with(t, p@) {
            assert(t.subrange(t.len() - p@.len(), t.len() as int) =~= s@.subrange(
                n - p@.len(),
                n as int,
            ));
            assert(occurs_at(s@, p@, n - p@.len()));
        }
    }
    slice(s, 0, n)
}

/// Unicode `White_Space`, the set `char::is_whitespace` tests.
pub open spec fn is_whitespace(c: char) -> bool {
    ||| ('\u{9}' <= c && c <= '\u{d}')
    ||| c == ' '
    ||| c == '\u{85}'
    ||| c == '\u{a0}'
    ||| c == '\u{1680}'
    ||| ('\u{2000}' <= c && c <= '\u{200a}')
    ||| c == '\u{2028}'
    ||| c == '\u{2029}'
    ||| c == '\u{202f}'
    ||| c == '\u{205f}'
    ||| c == '\u{3000}'
}

pub fn is_whitespace_char(c: char) -> (res: bool)
    ensures
        res == is_whitespace(c),
{
    ('\u{9}' <= c && c <= '\u{d}') || c == ' ' || c == '\u{85}' || c == '\u{a0}' || c
        == '\u{1680}' || ('\u{2000}' <= c && c <= '\u{200a}') || c == '\u{2028}' || c
        == '\u{2029}' || c == '\u{202f}' || c == '\u{205f}' || c == '\u{3000}'
}

/// Number of leading whitespace characters.
pub open spec fn ws_prefix_len(s: Seq<char>) -> int
    decreases s.len(),
{
    if s.len() > 0 && is_whitespace(s[0]) {
        1 + ws_prefix_len(s.drop_first())
    } else {
        0
    }
}

/// Number of trailing whitespace characters.
pub open spec fn ws_suffix_len(s: Seq<char>) -> int
    decreases s.len(),
{
    if s.len() > 0 && is_whitespace(s.last()) {
        1 + ws_suffix_len(s.drop_last())
    } else {
        0
    }
}

/// `str::trim`: without leading and trailing whitespace.
pub open spec fn spec_trim(s: Seq<char>) -> Seq<char> {
    let e = s.subrange(0, s.len() - ws_suffix_len(s));
    e.subrange(ws_prefix_len(e), e.len() as int)
}

pub proof fn lemma_ws_prefix_bounds(s: Seq<char>)
    ensures
        0 <= ws_prefix_len(s) <= s.len(),
        forall|j: int| 0 <= j < ws_prefix_len(s) ==> is_whitespace(s[j]),
        ws_prefix_len(s) < s.len() ==> !is_whitespace(s[ws_prefix_len(s)]),
    decreases s.len(),
{
    if s.len() > 0 && is_whitespace(s[0]) {
        lemma_ws_prefix_bounds(s.drop_first());
        assert forall|j: int| 0 <= j < ws_prefix_len(s) implies is_whitespace(s[j]) by {
            if j > 0 {
                assert(s[j] == s.drop_first()[j - 1]);
            }
        }
    }
}

pub proof fn lemma_ws_suffix_bounds(s: Seq<char>)
    ensures
        0 <= ws_suffix_len(s) <= s.len(),
        forall|j: int| s.len() - ws_suffix_len(s) <= j < s.len() ==> is_whitespace(s[j]),
        ws_suffix_len(s) < s.len() ==> !is_whitespace(s[s.len() - ws_suffix_len(s) - 1]),
    decreases s.len(),
{
    if s.len() > 0 && is_whitespace(s.last()) {
        lemma_ws_suffix_bounds(s.drop_last());
        assert forall|j: int| s.len() - ws_suffix_len(s) <= j < s.len() implies is_whitespace(
            s[j],
        ) by {
            if j < s.len() - 1 {
                assert(s[j] == s.drop_last()[j]);
            }
        }
    }
}

/// Characterisation of `ws_prefix_len` by a position.
proof fn lemma_ws_prefix_is(s: Seq<char>, k: int)
    requires
        0 <= k <= s.len(),
        forall|j: int| 0 <= j < k ==> is_whitespace(s[j]),
        k < s.len() ==> !is_whitespace(s[k]),
    ensures
        ws_prefix_len(s) == k,
    decreases s.len(),
{
    if k > 0 {
        assert(is_whitespace(s[0]));
        lemma_ws_prefix_is(s.drop_first(), k - 1);
    }
}

proof fn lemma_ws_suffix_is(s: Seq<char>, k: int)
    requires
        0 <= k <= s.len(),
        forall|j: int| s.len() - k <= j < s.len() ==> is_whitespace(s[j]),
        k < s.len() ==> !is_whitespace(s[s.len() - k - 1]),
    ensures
        ws_suffix_len(s) == k,
    decreases s.len(),
{
    if k > 0 {
        assert(is_whitespace(s[s.len() - 1]));
        assert forall|j: int| s.drop_last().len() - (k - 1) <= j < s.drop_last().len() implies is_whitespace(s.drop_last()[j]) by {
            assert(s.drop_last()[j] == s[j]);
        }
        if k - 1 < s.drop_last().len() {
            assert(s.drop_last()[s.drop_last().len() - (k - 1) - 1] == s[s.len() - k - 1]);
        }
        lemma_ws_suffix_is(s.drop_last(), k - 1);
    }
}

pub fn trim(s: &[char]) -> (res: Vec<char>)
    ensures
        res@ == spec_trim(s@),
{
    let mut end = s.len();
    while end > 0 && is_whitespace_char(s[end - 1])
        invariant
            0 <= end <= s@.len(),
            forall|j: int| end <= j < s@.len() ==> is_whitespace(s@[j]),
        decreases end,
    {
        end = end - 1;
    }
    proof {
        lemma_ws_suffix_is(s@, s@.len() - end);
    }
    let ghost e = s@.subrange(0, end as int);
    let mut start: usize = 0;
    while start < end && is_whitespace_char(s[start])
        invariant
            0 <= start <= end <= s@.len(),
            e == s@.subrange(0, end as int),
            forall|j: int| 0 <= j < start ==> is_whitespace(e[j]),
        decreases end - start,
    {
        start = start + 1;
    }
    proof {
        lemma_ws_prefix_is(e, start as int);
        assert(e.subrange(start as int, e.len() as int) =~= s@.subrange(start as int, end as int));
    }
    slice(s, start, end)
}

/// `str::trim` on a string slice.
pub fn trim_str(s: &str) -> (res: Vec<char>)
    ensures
        res@ == spec_trim(s@),
{
    let cs = chars_of(s);
    trim(cs.as_slice())
}

// ---------------------------------------------------------------------------
// Replacement
// ---------------------------------------------------------------------------

/// `str::replace` with a non-empty pattern: every non-overlapping occurrence
/// of `pat`, scanning from the left, becomes `rep`.
pub open spec fn spec_replace(s: Seq<char>, pat: Seq<char>, rep: Seq<char>) -> Seq<char>
    decreases s.len(),
{
    if pat.len() == 0 || s.len() == 0 {
        s
    } else if spec_starts_with(s, pat) {
        rep + spec_replace(s.subrange(pat.len() as int, s.len() as int), pat, rep)
    } else {
        seq![s[0]] + spec_replace(s.drop_first(), pat, rep)
    }
}

pub fn replace(s: &[char], pat: &[char], rep: &[char]) -> (res: Vec<char>)
    requires
        pat@.len() > 0,
    ensures
        res@ == spec_replace(s@, pat@, rep@),
{
    let mut out: Vec<char> = Vec::new();
    let mut i: usize = 0;
    assert(s@.subrange(0, s@.len() as int) =~= s@);
    while i < s.len()
        invariant
            pat@.len() > 0,
            0 <= i <= s@.len(),
            out@ + spec_replace(s@.subrange(i as int, s@.len() as int), pat@, rep@) == spec_replace(
                s@,
                pat@,
                rep@,
            ),
        decreases s@.len() - i,
    {
        let ghost t = s@.subrange(i as int, s@.len() as int);
        if matches_at(s, pat, i) {
            assert(spec_starts_with(t, pat@)) by {
                assert(t.subrange(0, pat@.len() as int) =~= s@.subrange(i as int, i + pat@.len()));
            }
            assert(t.subrange(pat@.len() as int, t.len() as int) =~= s@.subrange(
                i + pat@.len(),
                s@.len() as int,
            ));
            push_all(&mut out, rep);
            assert(out@ + spec_replace(s@.subrange(i + pat@.len(), s@.len() as int), pat@, rep@)
                =~= (out@.subrange(0, out@.len() - rep@.len()) + spec_replace(t, pat@, rep@)));
            i = i + pat.len();
        } else {
            assert(!spec_starts_with(t, pat@)) by {
                if spec_starts_with(t, pat@) {
                    assert(t.subrange(0, pat@.len() as int) =~= s@.subrange(
                        i as int,
                        i + pat@.len(),
                    ));
                }
            }
            assert(t.drop_first() =~= s@.subrange(i + 1, s@.len() as int));
            assert(t[0] == s@[i as int]);
            out.push(s[i]);
            assert(out@ + spec_replace(s@.subrange(i + 1, s@.len() as int), pat@, rep@)
                =~= (out@.drop_last() + spec_replace(t, pat@, rep@)));
            i = i + 1;
        }
    }
    assert(s@.subrange(i as int, s@.len() as int) =~= Seq::<char>::empty());
    assert(out@ + Seq::<char>::empty() =~= out@);
    out
}

/// Every character but `c`, in order (`str::replace(c, "")`).
pub open spec fn spec_remove_char(s: Seq<char>, c: char) -> Seq<char> {
    s.filter(|x: char| x != c)
}

pub fn remove_char(s: &[char], c: char) -> (res: Vec<char>)
    ensures
        res@ == spec_remove_char(s@, c),
{
    let mut out: Vec<char> = Vec::new();
    let mut i: usize = 0;
    while i < s.len()
        invariant
            0 <= i <= s@.len(),
            out@ == spec_remove_char(s@.take(i as int), c),
        decreases s@.len() - i,
    {
        assert(s@.take(i + 1).drop_last() =~= s@.take(i as int));
        reveal_with_fuel(Seq::filter, 1);
        if s[i] != c {
            out.push(s[i]);
        }
        i = i + 1;
    }
    assert(s@.take(s@.len() as int) =~= s@);
    out
}

// ---------------------------------------------------------------------------
// Decimal numbers
// ---------------------------------------------------------------------------

pub open spec fn is_digit(c: char) -> bool {
    '0' <= c && c <= '9'
}

pub open spec fn digit_value(c: char) -> int {
    c as int - '0' as int
}

/// Value of a run of decimal digits.
pub open spec fn digits_value(s: Seq<char>) -> int
    decreases s.len(),
{
    if s.len() == 0 {
        0
    } else {
        digits_value(s.drop_last()) * 10 + digit_value(s.last())
    }
}

/// The length of the run of ASCII digits that `s` starts with.
pub open spec fn digit_prefix_len(s: Seq<char>) -> int
    decreases s.len(),
{
    if s.len() > 0 && is_digit(s[0]) {
        1 + digit_prefix_len(s.drop_first())
    } else {
        0
    }
}

proof fn lemma_digit_prefix(s: Seq<char>, k: int)
    requires
        0 <= k <= s.len(),
        forall|j: int| 0 <= j < k ==> is_digit(#[trigger] s[j]),
        k < s.len() ==> !is_digit(s[k]),
    ensures
        digit_prefix_len(s) == k,
    decreases s.len(),
{
    if k > 0 {
        assert(is_digit(s[0]));
        assert forall|j: int| 0 <= j < k - 1 implies is_digit(#[trigger] s.drop_first()[j]) by {
            assert(s.drop_first()[j] == s[j + 1]);
        }
        if k - 1 < s.drop_first().len() {
            assert(s.drop_first()[k - 1] == s[k]);
        }
        lemma_digit_prefix(s.drop_first(), k - 1);
    }
}

/// The length of the run of ASCII digits that `s` starts with.
pub fn digit_prefix(s: &[char]) -> (res: usize)
    ensures
        res == digit_prefix_len(s@),
        res <= s@.len(),
        forall|j: int| 0 <= j < res ==> is_digit(#[trigger] s@[j]),
{
    let mut k: usize = 0;
    while k < s.len() && '0' <= s[k] && s[k] <= '9'
        invariant
            0 <= k <= s@.len(),
            forall|j: int| 0 <= j < k ==> is_digit(#[trigger] s@[j]),
        decreases s@.len() - k,
    {
        k = k + 1;
    }
    proof {
        lemma_digit_prefix(s@, k as int);
    }
    k
}

pub open spec fn all_digits(s: Seq<char>) -> bool {
    forall|i: int| 0 <= i < s.len() ==> is_digit(#[trigger] s[i])
}

/// `FromStr` of an unsigned integer type whose largest value is `max`: an
/// optional `+`, then at least one digit, and a value that fits.
pub open spec fn spec_parse_unsigned(s: Seq<char>, max: int) -> Option<int> {
    let d = if s.len() > 0 && s[0] == '+' {
        s.drop_first()
    } else {
        s
    };
    if d.len() > 0 && all_digits(d) && digits_value(d) <= max {
        Some(digits_value(d))
    } else {
        None
    }
}

/// `i64::from_str`: an optional sign, then at least one digit, in range.
pub open spec fn spec_parse_i64(s: Seq<char>) -> Option<i64> {
    if s.len() > 0 && s[0] == '-' {
        let d = s.drop_first();
        if d.len() > 0 && all_digits(d) && digits_value(d) <= 0x8000_0000_0000_0000 {
            Some((-digits_value(d)) as i64)
        } else {
            None
        }
    } else {
        match spec_parse_unsigned(s, 0x7fff_ffff_ffff_ffff) {
            Some(v) => Some(v as i64),
            None => None,
        }
    }
}

pub proof fn lemma_digits_value_nonneg(s: Seq<char>)
    requires
        all_digits(s),
    ensures
        digits_value(s) >= 0,
    decreases s.len(),
{
    if s.len() > 0 {
        assert(all_digits(s.drop_last())) by {
            assert forall|i: int| 0 <= i < s.drop_last().len() implies is_digit(
                #[trigger] s.drop_last()[i],
            ) by {
                assert(s.drop_last()[i] == s[i]);
            }
        }
        lemma_digits_value_nonneg(s.drop_last());
        assert(is_digit(s[s.len() - 1]));
    }
}

/// The value of a digit run, or `None` if it is not all digits, empty, or
/// larger than `max`.
fn digits_to_u64(d: &[char], from: usize, max: u64) -> (res: Option<u64>)
    requires
        from <= d@.len(),
        max >= 9,
    ensures
        ({
            let t = d@.subrange(from as int, d@.len() as int);
            match res {
                Some(v) => t.len() > 0 && all_digits(t) && digits_value(t) <= max && v
                    == digits_value(t),
                None => !(t.len() > 0 && all_digits(t) && digits_value(t) <= max),
            }
        }),
{
    let ghost t = d@.subrange(from as int, d@.len() as int);
    if from == d.len() {
        return None;
    }
    let mut acc: u64 = 0;
    let mut i = from;
    while i < d.len()
        invariant
            from <= i <= d@.len(),
            t == d@.subrange(from as int, d@.len() as int),
            all_digits(d@.subrange(from as int, i as int)),
            acc == digits_value(d@.subrange(from as int, i as int)),
            acc <= max,
            max >= 9,
        decreases d@.len() - i,
    {
        let ghost pre = d@.subrange(from as int, i as int);
        let c = d[i];
        if !('0' <= c && c <= '9') {
            proof {
                assert(t[i - from] == c);
            }
            return None;
        }
        let dv = (c as u32 - '0' as u32) as u64;
        assert(d@.subrange(from as int, i + 1).drop_last() =~= pre);
        assert(all_digits(d@.subrange(from as int, i + 1))) by {
            assert forall|k: int| 0 <= k < i + 1 - from implies is_digit(
                #[trigger] d@.subrange(from as int, i + 1)[k],
            ) by {
                if k < i - from {
                    assert(d@.subrange(from as int, i + 1)[k] == pre[k]);
                }
            }
        }
        if acc > (max - dv) / 10 {
            proof {
                // every longer prefix is at least as large, so the whole run overflows
                lemma_digits_value_monotone(t, i + 1 - from);
                assert(d@.subrange(from as int, i + 1) =~= t.subrange(0, i + 1 - from));
                assert(acc * 10 + dv > max) by (nonlinear_arith)
                    requires
                        acc > (max - dv) / 10,
                        dv <= 9,
                        dv <= max,
                ;
            }
            return None;
        }
        assert(acc * 10 + dv <= max) by (nonlinear_arith)
            requires
                acc <= (max - dv) / 10,
                dv <= max,
        ;
        acc = acc * 10 + dv;
        i = i + 1;
    }
    assert(d@.subrange(from as int, i as int) =~= t);
    Some(acc)
}

/// Among digit runs, a prefix never has a larger value than the whole, so a
/// run whose prefix already exceeds a bound exceeds it too; and a run that is
/// not all digits is rejected.
proof fn lemma_digits_value_monotone(t: Seq<char>, k: int)
    requires
        0 < k <= t.len(),
        all_digits(t.subrange(0, k)),
    ensures
        all_digits(t) ==> digits_value(t) >= digits_value(t.subrange(0, k)),
    decreases t.len(),
{
    if all_digits(t) && k < t.len() {
        assert(all_digits(t.drop_last())) by {
            assert forall|i: int| 0 <= i < t.drop_last().len() implies is_digit(
                #[trigger] t.drop_last()[i],
            ) by {
                assert(t.drop_last()[i] == t[i]);
            }
        }
        assert(t.drop_last().subrange(0, k) =~= t.subrange(0, k));
        lemma_digits_value_monotone(t.drop_last(), k);
        lemma_digits_value_nonneg(t.drop_last());
        assert(is_digit(t[t.len() - 1]));
    } else if all_digits(t) {
        assert(t.subrange(0, k) =~= t);
    }
}

/// `FromStr` for an unsigned integer type whose largest value is `max`.
pub fn parse_unsigned(s: &[char], max: u64) -> (res: Option<u64>)
    requires
        max >= 9,
    ensures
        match res {
            Some(v) => spec_parse_unsigned(s@, max as int) == Some(v as int),
            None => spec_parse_unsigned(s@, max as int) is None,
        },
{
    let from: usize = if s.len() > 0 && s[0] == '+' {
        1
    } else {
        0
    };
    proof {
        if s@.len() > 0 && s@[0] == '+' {
            assert(s@.drop_first() =~= s@.subrange(1, s@.len() as int));
        } else {
            assert(s@ =~= s@.subrange(0, s@.len() as int));
        }
    }
    digits_to_u64(s, from, max)
}

/// `i64::from_str`.
pub fn parse_i64(s: &[char]) -> (res: Option<i64>)
    ensures
        res == spec_parse_i64(s@),
{
    if s.len() > 0 && s[0] == '-' {
        assert(s@.drop_first() =~= s@.subrange(1, s@.len() as int));
        match digits_to_u64(s, 1, 0x8000_0000_0000_0000) {
            Some(v) => {
                if v == 0x8000_0000_0000_0000 {
                    assert(spec_parse_i64(s@) == Some(i64::MIN));
                    Some(i64::MIN)
                } else {
                    let r = -(v as i64);
                    assert(r == (-digits_value(s@.drop_first())) as i64);
                    Some(r)
                }
            },
            None => None,
        }
    } else {
        match parse_unsigned(s, 0x7fff_ffff_ffff_ffff) {
            Some(v) => {
                let r = v as i64;
                assert(spec_parse_i64(s@) == Some(r));
                Some(r)
            },
            None => None,
        }
    }
}

/// Decimal digits of a natural number, most significant first.
pub open spec fn spec_nat_digits(n: nat) -> Seq<char>
    decreases n,
{
    if n < 10 {
        seq![((n + '0' as nat) as u32) as char]
    } else {
        spec_nat_digits(n / 10).push((((n % 10) + '0' as nat) as u32) as char)
    }
}

/// `i64`'s `Display`: a minus sign for negatives, then the digits.
pub open spec fn spec_i64_to_string(n: i64) -> Seq<char> {
    if n < 0 {
        seq!['-'] + spec_nat_digits((-(n as int)) as nat)
    } else {
        spec_nat_digits(n as nat)
    }
}

fn nat_digits(n: u64) -> (res: Vec<char>)
    ensures
        res@ == spec_nat_digits(n as nat),
    decreases n,
{
    if n < 10 {
        let c = ((n as u32) + ('0' as u32)) as u8 as char;
        let mut v: Vec<char> = Vec::new();
        v.push(c);
        proof {
            assert(c == ((n as nat + '0' as nat) as u32) as char);
        }
        assert(v@ =~= seq![((n as nat + '0' as nat) as u32) as char]);
        v
    } else {
        let mut v = nat_digits(n / 10);
        let c = (((n % 10) as u32) + ('0' as u32)) as u8 as char;
        proof {
            assert(c == ((((n % 10) as nat) + '0' as nat) as u32) as char);
        }
        v.push(c);
        v
    }
}

pub fn i64_to_string(n: i64) -> (res: Vec<char>)
    ensures
        res@ == spec_i64_to_string(n),
{
    if n < 0 {
        let m: u64 = if n == i64::MIN {
            0x8000_0000_0000_0000
        } else {
            (-n) as u64
        };
        let d = nat_digits(m);
        let mut v: Vec<char> = Vec::new();
        v.push('-');
        push_all(&mut v, d.as_slice());
        assert(v@ =~= seq!['-'] + d@);
        v
    } else {
        nat_digits(n as u64)
    }
}

// ---------------------------------------------------------------------------
// ASCII case
// ---------------------------------------------------------------------------

pub open spec fn is_ascii_upper(c: char) -> bool {
    'A' <= c && c <= 'Z'
}

pub open spec fn is_ascii_lower(c: char) -> bool {
    'a' <= c && c <= 'z'
}

pub open spec fn ascii_lower(c: char) -> char {
    if is_ascii_upper(c) {
        ((c as u32) + 32) as char
    } else {
        c
    }
}

pub open spec fn ascii_upper(c: char) -> char {
    if is_ascii_lower(c) {
        ((c as u32) - 32) as char
    } else {
        c
    }
}

/// Equality ignoring ASCII case (`str::eq_ignore_ascii_case`).
pub open spec fn spec_eq_ignore_ascii_case(a: Seq<char>, b: Seq<char>) -> bool {
    a.len() == b.len() && forall|i: int| 0 <= i < a.len() ==> ascii_lower(#[trigger] a[i]) == ascii_lower(b[i])
}

fn ascii_lower_char(c: char) -> (res: char)
    ensures
        res == ascii_lower(c),
{
    if 'A' <= c && c <= 'Z' {
        ((c as u8) + 32) as char
    } else {
        c
    }
}

pub fn eq_ignore_ascii_case(a: &[char], b: &[char]) -> (res: bool)
    ensures
        res == spec_eq_ignore_ascii_case(a@, b@),
{
    if a.len() != b.len() {
        return false;
    }
    let mut i: usize = 0;
    while i < a.len()
        invariant
            a@.len() == b@.len(),
            0 <= i <= a@.len(),
            forall|j: int| 0 <= j < i ==> ascii_lower(#[trigger] a@[j]) == ascii_lower(b@[j]),
        decreases a@.len() - i,
    {
        if ascii_lower_char(a[i]) != ascii_lower_char(b[i]) {
            return false;
        }
        i = i + 1;
    }
    true
}

// ---------------------------------------------------------------------------
// Joining and de-duplicating
// ---------------------------------------------------------------------------

/// `[..].join(sep)`: the pieces with `sep` between consecutive ones.
pub open spec fn spec_join(pieces: Seq<Seq<char>>, sep: Seq<char>) -> Seq<char>
    decreases pieces.len(),
{
    if pieces.len() == 0 {
        Seq::empty()
    } else if pieces.len() == 1 {
        pieces[0]
    } else {
        spec_join(pieces.drop_last(), sep) + sep + pieces.last()
    }
}

pub fn join(pieces: &Vec<String>, sep: &str) -> (res: String)
    ensures
        res@ == spec_join(pieces.deep_view(), sep@),
{
    let mut out: Vec<char> = Vec::new();
    let mut i: usize = 0;
    while i < pieces.len()
        invariant
            0 <= i <= pieces@.len(),
            out@ == spec_join(pieces.deep_view().take(i as int), sep@),
        decreases pieces@.len() - i,
    {
        let ghost t = pieces.deep_view().take(i + 1);
        assert(t.drop_last() =~= pieces.deep_view().take(i as int));
        assert(t.last() == pieces@[i as int]@);
        if i > 0 {
            push_str(&mut out, sep);
        } else {
            assert(out@ =~= Seq::<char>::empty());
        }
        push_str(&mut out, pieces[i].as_str());
        i = i + 1;
    }
    assert(pieces.deep_view().take(pieces@.len() as int) =~= pieces.deep_view());
    string_of(out.as_slice())
}

/// The pieces in order, keeping only the first occurrence of each.
pub open spec fn spec_dedupe(s: Seq<Seq<char>>) -> Seq<Seq<char>>
    decreases s.len(),
{
    if s.len() == 0 {
        Seq::empty()
    } else if s.drop_last().contains(s.last()) {
        spec_dedupe(s.drop_last())
    } else {
        spec_dedupe(s.drop_last()).push(s.last())
    }
}

/// What `spec_dedupe` keeps is what it was given, without repeats.
pub proof fn lemma_dedupe_contains(s: Seq<Seq<char>>)
    ensures
        forall|x: Seq<char>| spec_dedupe(s).contains(x) <==> s.contains(x),
    decreases s.len(),
{
    if s.len() > 0 {
        let p = s.drop_last();
        let l = s.last();
        lemma_dedupe_contains(p);
        assert(s =~= p.push(l));
        assert forall|x: Seq<char>| spec_dedupe(s).contains(x) <==> s.contains(x) by {
            assert(s.contains(x) <==> (p.contains(x) || x == l)) by {
                if s.contains(x) {
                    let k = choose|k: int| 0 <= k < s.len() && s[k] == x;
                    if k < s.len() - 1 {
                        assert(p[k] == x);
                    }
                }
                if p.contains(x) {
                    let k = choose|k: int| 0 <= k < p.len() && p[k] == x;
                    assert(s[k] == x);
                }
                if x == l {
                    assert(s[s.len() - 1] == x);
                }
            }
            let d = spec_dedupe(p);
            if !p.contains(l) {
                assert(d.push(l).contains(x) <==> (d.contains(x) || x == l)) by {
                    if d.push(l).contains(x) {
                        let k = choose|k: int| 0 <= k < d.push(l).len() && d.push(l)[k] == x;
                        if k < d.len() {
                            assert(d[k] == x);
                        }
                    }
                    if d.contains(x) {
                        let k = choose|k: int| 0 <= k < d.len() && d[k] == x;
                        assert(d.push(l)[k] == x);
                    }
                    if x == l {
                        assert(d.push(l)[d.len() as int] == x);
                    }
                }
            }
        }
    }
}

/// Does `v` hold a string equal to `x`?
pub fn contains_string(v: &Vec<String>, x: &str) -> (res: bool)
    ensures
        res == v.deep_view().contains(x@),
{
    let mut i: usize = 0;
    while i < v.len()
        invariant
            0 <= i <= v@.len(),
            forall|j: int| 0 <= j < i ==> v.deep_view()[j] != x@,
        decreases v@.len() - i,
    {
        if str_eq(v[i].as_str(), x) {
            assert(v.deep_view()[i as int] == x@);
            return true;
        }
        i = i + 1;
    }
    false
}

/// Keeps the first occurrence of each string, in order.
pub fn dedupe(v: &Vec<String>) -> (res: Vec<String>)
    ensures
        res.deep_view() == spec_dedupe(v.deep_view()),
{
    let mut out: Vec<String> = Vec::new();
    let mut i: usize = 0;
    while i < v.len()
        invariant
            0 <= i <= v@.len(),
            out.deep_view() == spec_dedupe(v.deep_view().take(i as int)),
        decreases v@.len() - i,
    {
        let ghost t = v.deep_view().take(i + 1);
        assert(t.drop_last() =~= v.deep_view().take(i as int));
        assert(t.last() == v@[i as int]@);
        proof {
            lemma_dedupe_contains(v.deep_view().take(i as int));
        }
        if !contains_string(&out, v[i].as_str()) {
            let ghost before = out.deep_view();
            out.push(v[i].clone());
            assert(out.deep_view() =~= before.push(v@[i as int]@));
        }
        i = i + 1;
    }
    assert(v.deep_view().take(v@.len() as int) =~= v.deep_view());
    out
}

/// The text before the first occurrence of `pat` (all of it when `pat`
/// does not occur): the first piece of `str::split(pat)`.
pub open spec fn before_first(s: Seq<char>, pat: Seq<char>) -> Seq<char> {
    if spec_contains(s, pat) {
        let i = choose|i: int|
            occurs_at(s, pat, i) && forall|j: int| 0 <= j < i ==> !occurs_at(s, pat, j);
        s.subrange(0, i)
    } else {
        s
    }
}

pub fn before_first_of(s: &str, pat: &str) -> (res: Vec<char>)
    ensures
        res@ == before_first(s@, pat@),
{
    let cs = chars_of(s);
    let p = chars_of(pat);
    match find(cs.as_slice(), p.as_slice()) {
        Some(i) => {
            proof {
                let k = choose|k: int|
                    occurs_at(s@, pat@, k) && forall|j: int| 0 <= j < k ==> !occurs_at(s@, pat@, j);
                assert(occurs_at(s@, pat@, i as int));
                assert(k == i) by {
                    if k < i {
                    } else if k > i {
                    }
                }
            }
            crate::text::slice(cs.as_slice(), 0, i)
        },
        None => cs,
    }
}

/// `str::get(from..)`: the part of `s` after byte offset `from`, or `None`
/// when `from` is past the end or inside a character.
pub fn str_get_from(s: &str, from: usize) -> (res: Option<String>)
    ensures
        match res {
            Some(r) => from <= s.spec_bytes().len() && is_char_boundary(s.spec_bytes(), from as int)
                && encode_utf8(r@) == s.spec_bytes().subrange(
                from as int,
                s.spec_bytes().len() as int,
            ),
            None => !(from <= s.spec_bytes().len() && is_char_boundary(
                s.spec_bytes(),
                from as int,
            )),
        },
{
    proof {
        encode_utf8_valid_utf8(s@);
    }
    if s.is_char_boundary(from) {
        assert(from <= s.spec_bytes().len());
        let (_head, tail) = s.split_at(from);
        let r = tail.to_owned();
        assert(r@ == tail@);
        assert(tail.spec_bytes() == encode_utf8(tail@));
        assert(encode_utf8(r@) =~= s.spec_bytes().subrange(from as int, s.spec_bytes().len() as int));
        Some(r)
    } else {
        None
    }
}

} // verus!
