//! Character-level scanning: whitespace, token boundaries, and
//! delimiter search, specified over the `Seq<char>` views of `&str`
//! values.

use vstd::prelude::*;
use vstd::string::*;

verus! {

/// The whitespace characters that terminate bare fields and are stripped
/// between fields: the ASCII whitespace set.
pub open spec fn is_clf_space(c: char) -> bool {
    c == ' ' || c == '\t' || c == '\n' || c == '\r' || c == '\x0c'
}

/// Executable test for [`is_clf_space`].
pub fn clf_space(c: char) -> (r: bool)
    ensures
        r == is_clf_space(c),
{
    c == ' ' || c == '\t' || c == '\n' || c == '\r' || c == '\x0c'
}

/// Index of the first whitespace character of `s`, or `s.len()` if there
/// is none: the end of the bare token that starts `s`.
pub open spec fn token_end(s: Seq<char>) -> int
    decreases s.len(),
{
    if s.len() == 0 {
        0
    } else if is_clf_space(s[0]) {
        0
    } else {
        1 + token_end(s.skip(1))
    }
}

/// Index of the first non-whitespace character of `s`, or `s.len()`.
pub open spec fn space_end(s: Seq<char>) -> int
    decreases s.len(),
{
    if s.len() == 0 {
        0
    } else if !is_clf_space(s[0]) {
        0
    } else {
        1 + space_end(s.skip(1))
    }
}

/// Index of the first occurrence of `d` in `s`, or `s.len()`.
pub open spec fn find_at(s: Seq<char>, d: char) -> int
    decreases s.len(),
{
    if s.len() == 0 {
        0
    } else if s[0] == d {
        0
    } else {
        1 + find_at(s.skip(1), d)
    }
}

/// `s` with its leading whitespace removed.
pub open spec fn strip_spaces(s: Seq<char>) -> Seq<char> {
    s.skip(space_end(s))
}

pub proof fn lemma_token_end(s: Seq<char>)
    ensures
        0 <= token_end(s) <= s.len(),
        forall|j: int| 0 <= j < token_end(s) ==> !is_clf_space(s[j]),
        token_end(s) < s.len() ==> is_clf_space(s[token_end(s)]),
    decreases s.len(),
{
    if s.len() == 0 || is_clf_space(s[0]) {
    } else {
        lemma_token_end(s.skip(1));
        assert forall|j: int| 0 <= j < token_end(s) implies !is_clf_space(s[j]) by {
            if j >= 1 {
                assert(s.skip(1)[j - 1] == s[j]);
            }
        }
        if token_end(s) < s.len() {
            assert(s.skip(1)[token_end(s) - 1] == s[token_end(s)]);
        }
    }
}

pub proof fn lemma_token_end_is(s: Seq<char>, i: int)
    requires
        0 <= i <= s.len(),
        i < s.len() ==> is_clf_space(s[i]),
        forall|j: int| 0 <= j < i ==> !is_clf_space(s[j]),
    ensures
        token_end(s) == i,
    decreases s.len(),
{
    if s.len() == 0 {
    } else if is_clf_space(s[0]) {
        assert(i == 0);
    } else {
        assert(i >= 1);
        assert forall|j: int| 0 <= j < i - 1 implies !is_clf_space(s.skip(1)[j]) by {
            assert(s.skip(1)[j] == s[j + 1]);
        }
        if i - 1 < s.skip(1).len() {
            assert(s.skip(1)[i - 1] == s[i]);
        }
        lemma_token_end_is(s.skip(1), i - 1);
    }
}

/// Appending anything after a whitespace-free prefix moves the token end
/// past that prefix.
pub proof fn lemma_token_end_concat(a: Seq<char>, b: Seq<char>)
    requires
        forall|j: int| 0 <= j < a.len() ==> !is_clf_space(a[j]),
    ensures
        token_end(a + b) == a.len() + token_end(b),
{
    lemma_token_end(b);
    let i = a.len() + token_end(b);
    assert forall|j: int| 0 <= j < i implies !is_clf_space((a + b)[j]) by {
        if j < a.len() {
            assert((a + b)[j] == a[j]);
        } else {
            assert((a + b)[j] == b[j - a.len()]);
        }
    }
    if i < (a + b).len() {
        assert((a + b)[i] == b[token_end(b)]);
    }
    lemma_token_end_is(a + b, i);
}

pub proof fn lemma_space_end(s: Seq<char>)
    ensures
        0 <= space_end(s) <= s.len(),
        forall|j: int| 0 <= j < space_end(s) ==> is_clf_space(s[j]),
        space_end(s) < s.len() ==> !is_clf_space(s[space_end(s)]),
    decreases s.len(),
{
    if s.len() == 0 || !is_clf_space(s[0]) {
    } else {
        lemma_space_end(s.skip(1));
        assert forall|j: int| 0 <= j < space_end(s) implies is_clf_space(s[j]) by {
            if j >= 1 {
                assert(s.skip(1)[j - 1] == s[j]);
            }
        }
        if space_end(s) < s.len() {
            assert(s.skip(1)[space_end(s) - 1] == s[space_end(s)]);
        }
    }
}

pub proof fn lemma_space_end_is(s: Seq<char>, i: int)
    requires
        0 <= i <= s.len(),
        i < s.len() ==> !is_clf_space(s[i]),
        forall|j: int| 0 <= j < i ==> is_clf_space(s[j]),
    ensures
        space_end(s) == i,
    decreases s.len(),
{
    if s.len() == 0 {
    } else if !is_clf_space(s[0]) {
        assert(i == 0);
    } else {
        assert(i >= 1);
        assert forall|j: int| 0 <= j < i - 1 implies is_clf_space(s.skip(1)[j]) by {
            assert(s.skip(1)[j] == s[j + 1]);
        }
        if i - 1 < s.skip(1).len() {
            assert(s.skip(1)[i - 1] == s[i]);
        }
        lemma_space_end_is(s.skip(1), i - 1);
    }
}

/// Stripping an all-whitespace prefix from text that then starts with a
/// non-whitespace character yields exactly that text.
pub proof fn lemma_strip_spaces_concat(a: Seq<char>, b: Seq<char>)
    requires
        forall|j: int| 0 <= j < a.len() ==> is_clf_space(a[j]),
        b.len() > 0 ==> !is_clf_space(b[0]),
    ensures
        strip_spaces(a + b) == b,
{
    let i = a.len() as int;
    assert forall|j: int| 0 <= j < i implies is_clf_space((a + b)[j]) by {
        assert((a + b)[j] == a[j]);
    }
    if i < (a + b).len() {
        assert((a + b)[i] == b[0]);
    }
    lemma_space_end_is(a + b, i);
    assert((a + b).skip(i) =~= b);
}

pub proof fn lemma_find_at(s: Seq<char>, d: char)
    ensures
        0 <= find_at(s, d) <= s.len(),
        forall|j: int| 0 <= j < find_at(s, d) ==> s[j] != d,
        find_at(s, d) < s.len() ==> s[find_at(s, d)] == d,
    decreases s.len(),
{
    if s.len() == 0 || s[0] == d {
    } else {
        lemma_find_at(s.skip(1), d);
        assert forall|j: int| 0 <= j < find_at(s, d) implies s[j] != d by {
            if j >= 1 {
                assert(s.skip(1)[j - 1] == s[j]);
            }
        }
        if find_at(s, d) < s.len() {
            assert(s.skip(1)[find_at(s, d) - 1] == s[find_at(s, d)]);
        }
    }
}

pub proof fn lemma_find_at_is(s: Seq<char>, d: char, i: int)
    requires
        0 <= i <= s.len(),
        i < s.len() ==> s[i] == d,
        forall|j: int| 0 <= j < i ==> s[j] != d,
    ensures
        find_at(s, d) == i,
    decreases s.len(),
{
    if s.len() == 0 {
    } else if s[0] == d {
        assert(i == 0);
    } else {
        assert(i >= 1);
        assert forall|j: int| 0 <= j < i - 1 implies s.skip(1)[j] != d by {
            assert(s.skip(1)[j] == s[j + 1]);
        }
        if i - 1 < s.skip(1).len() {
            assert(s.skip(1)[i - 1] == s[i]);
        }
        lemma_find_at_is(s.skip(1), d, i - 1);
    }
}

/// Appending after a `d`-free prefix moves the first occurrence of `d`
/// past that prefix.
pub proof fn lemma_find_at_concat(a: Seq<char>, b: Seq<char>, d: char)
    requires
        forall|j: int| 0 <= j < a.len() ==> a[j] != d,
    ensures
        find_at(a + b, d) == a.len() + find_at(b, d),
{
    lemma_find_at(b, d);
    let i = a.len() + find_at(b, d);
    assert forall|j: int| 0 <= j < i implies (a + b)[j] != d by {
        if j < a.len() {
            assert((a + b)[j] == a[j]);
        } else {
            assert((a + b)[j] == b[j - a.len()]);
        }
    }
    if i < (a + b).len() {
        assert((a + b)[i] == b[find_at(b, d)]);
    }
    lemma_find_at_is(a + b, d, i);
}

/// Index (in characters) of the first whitespace character of `line`,
/// or its length: where the bare token that starts `line` ends.
pub fn scan_token_end(line: &str) -> (i: usize)
    ensures
        i as int == token_end(line@),
        0 <= i <= line@.len(),
{
    let n = line.unicode_len();
    let mut i: usize = 0;
    while i < n && !clf_space(line.get_char(i))
        invariant
            0 <= i <= n,
            n == line@.len(),
            forall|j: int| 0 <= j < i ==> !is_clf_space(line@[j]),
        decreases n - i,
    {
        i = i + 1;
    }
    proof {
        lemma_token_end_is(line@, i as int);
    }
    i
}

/// First non-whitespace character of `line` at or after `from`.
pub fn scan_space_end(line: &str, from: usize) -> (i: usize)
    requires
        from <= line@.len(),
    ensures
        from <= i <= line@.len(),
        i as int == from + space_end(line@.skip(from as int)),
{
    let n = line.unicode_len();
    let mut i: usize = from;
    while i < n && clf_space(line.get_char(i))
        invariant
            from <= i <= n,
            n == line@.len(),
            forall|j: int| from <= j < i ==> is_clf_space(line@[j]),
        decreases n - i,
    {
        i = i + 1;
    }
    proof {
        let t = line@.skip(from as int);
        assert forall|j: int| 0 <= j < i - from implies is_clf_space(t[j]) by {
            assert(t[j] == line@[j + from]);
        }
        if i - from < t.len() {
            assert(t[i - from] == line@[i as int]);
        }
        lemma_space_end_is(t, i - from);
    }
    i
}

/// First occurrence of `d` in `line` at or after `from`, or the length of
/// `line` if there is none.
pub fn scan_find(line: &str, from: usize, d: char) -> (i: usize)
    requires
        from <= line@.len(),
    ensures
        from <= i <= line@.len(),
        i as int == from + find_at(line@.skip(from as int), d),
{
    let n = line.unicode_len();
    let mut i: usize = from;
    while i < n && line.get_char(i) != d
        invariant
            from <= i <= n,
            n == line@.len(),
            forall|j: int| from <= j < i ==> line@[j] != d,
        decreases n - i,
    {
        i = i + 1;
    }
    proof {
        let t = line@.skip(from as int);
        assert forall|j: int| 0 <= j < i - from implies t[j] != d by {
            assert(t[j] == line@[j + from]);
        }
        if i - from < t.len() {
            assert(t[i - from] == line@[i as int]);
        }
        lemma_find_at_is(t, d, i - from);
    }
    i
}

} // verus!
