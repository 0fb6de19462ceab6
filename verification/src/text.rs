//! Character-level text primitives: whitespace trimming and substring
//! search, with spec-level definitions and verified executable forms.

use vstd::prelude::*;
use vstd::string::StrSliceExecFns;

verus! {

/// The whitespace characters that trimming removes: the characters with
/// the Unicode `White_Space` property, as `char::is_whitespace` accepts
/// them.
pub open spec fn is_space(c: char) -> bool {
    ('\u{09}' <= c && c <= '\u{0d}') || c == ' ' || c == '\u{85}' || c == '\u{a0}' || c
        == '\u{1680}' || ('\u{2000}' <= c && c <= '\u{200a}') || c == '\u{2028}' || c == '\u{2029}'
        || c == '\u{202f}' || c == '\u{205f}' || c == '\u{3000}'
}

/// `s` with its leading whitespace removed.
pub open spec fn trim_start_spec(s: Seq<char>) -> Seq<char>
    decreases s.len(),
{
    if s.len() > 0 && is_space(s[0]) {
        trim_start_spec(s.drop_first())
    } else {
        s
    }
}

/// `s` with its trailing whitespace removed.
pub open spec fn trim_end_spec(s: Seq<char>) -> Seq<char>
    decreases s.len(),
{
    if s.len() > 0 && is_space(s.last()) {
        trim_end_spec(s.drop_last())
    } else {
        s
    }
}

/// `s` with both leading and trailing whitespace removed.
pub open spec fn trim_spec(s: Seq<char>) -> Seq<char> {
    trim_end_spec(trim_start_spec(s))
}

/// Dropping any number of leading space characters does not change the
/// result of trimming from the start.
pub proof fn lemma_trim_start_skip(s: Seq<char>, i: int)
    requires
        0 <= i <= s.len(),
        forall|k: int| 0 <= k < i ==> is_space(s[k]),
    ensures
        trim_start_spec(s) == trim_start_spec(s.skip(i)),
    decreases i,
{
    if i == 0 {
        assert(s.skip(0) =~= s);
    } else {
        assert(is_space(s[0]));
        assert(s.drop_first() =~= s.skip(1));
        lemma_trim_start_skip(s.skip(1), i - 1);
        assert(s.skip(1).skip(i - 1) =~= s.skip(i));
    }
}

/// Trimming from the start leaves a sequence that begins with a
/// non-space character (or is empty).
pub proof fn lemma_trim_start_noop(s: Seq<char>)
    requires
        s.len() == 0 || !is_space(s[0]),
    ensures
        trim_start_spec(s) == s,
{
}

/// Dropping any number of trailing space characters does not change the
/// result of trimming from the end.
pub proof fn lemma_trim_end_take(s: Seq<char>, j: int)
    requires
        0 <= j <= s.len(),
        forall|k: int| j <= k < s.len() ==> is_space(s[k]),
    ensures
        trim_end_spec(s) == trim_end_spec(s.take(j)),
    decreases s.len() - j,
{
    if j == s.len() {
        assert(s.take(j) =~= s);
    } else {
        assert(is_space(s.last()));
        assert(s.drop_last() =~= s.take(s.len() - 1));
        lemma_trim_end_take(s.take(s.len() - 1), j);
        assert(s.take(s.len() - 1).take(j) =~= s.take(j));
    }
}

/// Trimming from the end leaves a sequence that ends with a non-space
/// character (or is empty).
pub proof fn lemma_trim_end_noop(s: Seq<char>)
    requires
        s.len() == 0 || !is_space(s.last()),
    ensures
        trim_end_spec(s) == s,
{
}

/// `key` occurs in `s` starting at index `i`.
pub open spec fn has_sub_at(s: Seq<char>, key: Seq<char>, i: int) -> bool {
    0 <= i && i + key.len() <= s.len() && s.subrange(i, i + key.len() as int) == key
}

/// The index of the first occurrence of `key` in `s`, or `None` when
/// `key` does not occur in `s`.
pub open spec fn find_sub(s: Seq<char>, key: Seq<char>) -> Option<int>
    decreases s.len(),
{
    if s.len() < key.len() {
        None
    } else if s.take(key.len() as int) == key {
        Some(0int)
    } else if s.len() == 0 {
        None
    } else {
        match find_sub(s.drop_first(), key) {
            Some(i) => Some(i + 1),
            None => None,
        }
    }
}

/// `find_sub` returns the least index at which `key` occurs, and `None`
/// exactly when `key` occurs nowhere.
pub proof fn lemma_find_sub_correct(s: Seq<char>, key: Seq<char>)
    ensures
        match find_sub(s, key) {
            Some(i) => has_sub_at(s, key, i) && (forall|j: int|
                0 <= j < i ==> !has_sub_at(s, key, j)),
            None => forall|j: int| !has_sub_at(s, key, j),
        },
    decreases s.len(),
{
    if s.len() < key.len() {
        assert forall|j: int| !has_sub_at(s, key, j) by {}
    } else if s.take(key.len() as int) == key {
        assert(s.subrange(0, key.len() as int) =~= s.take(key.len() as int));
        assert(has_sub_at(s, key, 0));
    } else if s.len() == 0 {
        assert forall|j: int| !has_sub_at(s, key, j) by {}
    } else {
        let rest = s.drop_first();
        lemma_find_sub_correct(rest, key);
        assert forall|j: int| 1 <= j && #[trigger] has_sub_at(s, key, j) implies has_sub_at(
            rest,
            key,
            j - 1,
        ) by {
            assert(rest.subrange(j - 1, j - 1 + key.len() as int) =~= s.subrange(
                j,
                j + key.len() as int,
            ));
        }
        assert forall|j: int| 0 <= j && #[trigger] has_sub_at(rest, key, j) implies has_sub_at(
            s,
            key,
            j + 1,
        ) by {
            assert(s.subrange(j + 1, j + 1 + key.len() as int) =~= rest.subrange(
                j,
                j + key.len() as int,
            ));
        }
        assert(!has_sub_at(s, key, 0)) by {
            assert(s.subrange(0, key.len() as int) =~= s.take(key.len() as int));
        }
        match find_sub(rest, key) {
            Some(i) => {
                assert(has_sub_at(s, key, i + 1));
            },
            None => {},
        }
    }
}

/// Finds the first occurrence of `key` in `s` by scanning every
/// candidate position in order.
pub fn find_sub_in(s: &str, key: &str) -> (r: Option<usize>)
    ensures
        match r {
            Some(i) => find_sub(s@, key@) == Some(i as int),
            None => find_sub(s@, key@) is None,
        },
{
    let n = s.unicode_len();
    let m = key.unicode_len();
    proof {
        lemma_find_sub_correct(s@, key@);
    }
    if m > n {
        return None;
    }
    let mut i: usize = 0;
    while i <= n - m
        invariant
            m <= n,
            n == s@.len(),
            m == key@.len(),
            0 <= i <= n - m + 1,
            forall|j: int| 0 <= j < i ==> !has_sub_at(s@, key@, j),
        decreases n - m + 1 - i,
    {
        let mut k: usize = 0;
        while k < m && s.get_char(i + k) == key.get_char(k)
            invariant
                m <= n,
                n == s@.len(),
                m == key@.len(),
                i + m <= n,
                0 <= k <= m,
                forall|t: int| 0 <= t < k ==> s@[i + t] == key@[t],
            decreases m - k,
        {
            k = k + 1;
        }
        if k == m {
            proof {
                assert(s@.subrange(i as int, i + m as int) =~= key@);
                assert(has_sub_at(s@, key@, i as int));
                lemma_find_sub_correct(s@, key@);
            }
            return Some(i);
        }
        proof {
            assert(!has_sub_at(s@, key@, i as int)) by {
                if has_sub_at(s@, key@, i as int) {
                    assert(s@.subrange(i as int, i + m as int)[k as int] == s@[i + k]);
                }
            }
        }
        i = i + 1;
    }
    proof {
        assert forall|j: int| !has_sub_at(s@, key@, j) by {
            if j >= 0 && j + m <= n {
                assert(0 <= j < i);
            }
        }
        lemma_find_sub_correct(s@, key@);
    }
    None
}

/// Finds the first occurrence of the character `c` in `s` at or after
/// index `from`.
pub fn find_char_from(s: &str, from: usize, c: char) -> (r: Option<usize>)
    requires
        from <= s@.len(),
    ensures
        match r {
            Some(i) => from <= i < s@.len() && s@[i as int] == c && (forall|k: int|
                from <= k < i ==> s@[k] != c),
            None => forall|k: int| from <= k < s@.len() ==> s@[k] != c,
        },
{
    let n = s.unicode_len();
    let mut i: usize = from;
    while i < n
        invariant
            from <= i <= n,
            n == s@.len(),
            forall|k: int| from <= k < i ==> s@[k] != c,
        decreases n - i,
    {
        if s.get_char(i) == c {
            return Some(i);
        }
        i = i + 1;
    }
    None
}

/// Executable test matching [`is_space`].
pub fn is_space_char(c: char) -> (b: bool)
    ensures
        b == is_space(c),
{
    ('\u{09}' <= c && c <= '\u{0d}') || c == ' ' || c == '\u{85}' || c == '\u{a0}' || c
        == '\u{1680}' || ('\u{2000}' <= c && c <= '\u{200a}') || c == '\u{2028}' || c == '\u{2029}'
        || c == '\u{202f}' || c == '\u{205f}' || c == '\u{3000}'
}

/// Whether two texts hold exactly the same characters.
pub fn str_eq(a: &str, b: &str) -> (r: bool)
    ensures
        r == (a@ == b@),
{
    let n = a.unicode_len();
    if n != b.unicode_len() {
        return false;
    }
    let mut i: usize = 0;
    while i < n
        invariant
            n == a@.len(),
            n == b@.len(),
            0 <= i <= n,
            forall|k: int| 0 <= k < i ==> a@[k] == b@[k],
        decreases n - i,
    {
        if a.get_char(i) != b.get_char(i) {
            return false;
        }
        i = i + 1;
    }
    proof {
        assert(a@ =~= b@);
    }
    true
}

/// The index of the first non-space character of `s`, or the length of
/// `s` when it is all whitespace.
pub fn first_non_space(s: &str) -> (i: usize)
    ensures
        0 <= i <= s@.len(),
        forall|k: int| 0 <= k < i ==> is_space(s@[k]),
        i < s@.len() ==> !is_space(s@[i as int]),
        trim_start_spec(s@) == s@.skip(i as int),
{
    let n = s.unicode_len();
    let mut i: usize = 0;
    while i < n && is_space_char(s.get_char(i))
        invariant
            0 <= i <= n,
            n == s@.len(),
            forall|k: int| 0 <= k < i ==> is_space(s@[k]),
        decreases n - i,
    {
        i = i + 1;
    }
    proof {
        lemma_trim_start_skip(s@, i as int);
        lemma_trim_start_noop(s@.skip(i as int));
    }
    i
}

/// Removes leading and trailing whitespace from `s`.
pub fn trim_str<'a>(s: &'a str) -> (r: &'a str)
    ensures
        r@ == trim_spec(s@),
{
    let n = s.unicode_len();
    let i = first_non_space(s);
    let mut j: usize = n;
    while j > i && is_space_char(s.get_char(j - 1))
        invariant
            i <= j <= n,
            n == s@.len(),
            i <= s@.len(),
            forall|k: int| j <= k < n ==> is_space(s@[k]),
        decreases j,
    {
        j = j - 1;
    }
    let r = s.substring_char(i, j);
    proof {
        let t = s@.skip(i as int);
        assert(forall|k: int|
            j - i <= k < t.len() ==> is_space(#[trigger] t[k]) && t[k] == s@[k + i]);
        lemma_trim_end_take(t, j - i);
        if j > i {
            assert(t.take(j - i).last() == s@[j - 1]);
        }
        lemma_trim_end_noop(t.take(j - i));
        assert(t.take(j - i) =~= s@.subrange(i as int, j as int));
    }
    r
}

} // verus!
