//! Operations on names: prefixes, equality, and the segments that `_` separates.

use vstd::prelude::*;

verus! {

/// The character that separates the segments of a signal or interrupt name.
pub open spec fn separator() -> char {
    '_'
}

/// The part of `name` before its first `_`; all of `name` when it has none.
pub open spec fn first_segment(name: Seq<char>) -> Seq<char> {
    match name.index_of_first(separator()) {
        Some(i) => name.take(i),
        None => name,
    }
}

/// The part of `name` after its last `_`; all of `name` when it has none.
pub open spec fn last_segment(name: Seq<char>) -> Seq<char> {
    match name.index_of_last(separator()) {
        Some(i) => name.skip(i + 1),
        None => name,
    }
}

/// The view of a table of pairs of texts.
pub open spec fn pairs_view(table: Seq<(&'static str, &'static str)>) -> Seq<
    (Seq<char>, Seq<char>),
> {
    table.map_values(|entry: (&'static str, &'static str)| (entry.0@, entry.1@))
}

/// An index that holds `needle` with none before it is the first index of
/// `needle`.
pub proof fn lemma_first_index(s: Seq<char>, needle: char, i: int)
    requires
        0 <= i < s.len(),
        s[i] == needle,
        forall|j: int| 0 <= j < i ==> s[j] != needle,
    ensures
        s.index_of_first(needle) == Some(i),
{
    s.index_of_first_ensures(needle);
}

/// An index that holds `needle` with none after it is the last index of `needle`.
pub proof fn lemma_last_index(s: Seq<char>, needle: char, i: int)
    requires
        0 <= i < s.len(),
        s[i] == needle,
        forall|j: int| i < j < s.len() ==> s[j] != needle,
    ensures
        s.index_of_last(needle) == Some(i),
{
    s.index_of_last_ensures(needle);
}

/// A sequence without `needle` has neither a first nor a last index of it.
pub proof fn lemma_no_index(s: Seq<char>, needle: char)
    requires
        forall|j: int| 0 <= j < s.len() ==> s[j] != needle,
    ensures
        !s.contains(needle),
        s.index_of_first(needle) is None,
        s.index_of_last(needle) is None,
{
    s.index_of_first_ensures(needle);
    s.index_of_last_ensures(needle);
}

/// Whether `text` begins with `prefix`.
pub fn starts_with(text: &str, prefix: &str) -> (r: bool)
    ensures
        r == prefix@.is_prefix_of(text@),
{
    let n = prefix.unicode_len();
    if text.unicode_len() < n {
        return false;
    }
    let mut i: usize = 0;
    while i < n
        invariant
            i <= n,
            n == prefix@.len(),
            n <= text@.len(),
            forall|k: int| 0 <= k < i ==> text@[k] == prefix@[k],
        decreases n - i,
    {
        if text.get_char(i) != prefix.get_char(i) {
            assert(text@.subrange(0, n as int)[i as int] != prefix@[i as int]);
            return false;
        }
        i += 1;
    }
    assert(prefix@ =~= text@.subrange(0, n as int));
    true
}

/// Whether `a` and `b` hold the same characters.
pub fn same_text(a: &str, b: &str) -> (r: bool)
    ensures
        r == (a@ == b@),
{
    if a.unicode_len() != b.unicode_len() {
        return false;
    }
    let r = starts_with(a, b);
    proof {
        if r {
            assert(a@ =~= b@);
        } else {
            assert(b@ =~= a@.subrange(0, b@.len() as int) ==> false);
            if a@ == b@ {
                assert(b@ =~= a@.subrange(0, b@.len() as int));
            }
        }
    }
    r
}

/// Whether `name` holds a separator.
pub fn has_separator(name: &str) -> (r: bool)
    ensures
        r == name@.contains(separator()),
{
    let n = name.unicode_len();
    let mut i: usize = 0;
    while i < n
        invariant
            i <= n,
            n == name@.len(),
            forall|k: int| 0 <= k < i ==> name@[k] != separator(),
        decreases n - i,
    {
        if name.get_char(i) == '_' {
            assert(name@[i as int] == separator());
            return true;
        }
        i += 1;
    }
    proof {
        lemma_no_index(name@, separator());
    }
    false
}

/// The part of `name` before its first separator.
pub fn first_segment_of<'a>(name: &'a str) -> (r: &'a str)
    ensures
        r@ == first_segment(name@),
{
    let n = name.unicode_len();
    let mut i: usize = 0;
    while i < n
        invariant
            i <= n,
            n == name@.len(),
            forall|k: int| 0 <= k < i ==> name@[k] != separator(),
        decreases n - i,
    {
        if name.get_char(i) == '_' {
            proof {
                lemma_first_index(name@, separator(), i as int);
            }
            return name.substring_char(0, i);
        }
        i += 1;
    }
    proof {
        lemma_no_index(name@, separator());
    }
    name
}

/// The part of `name` after its last separator.
pub fn last_segment_of<'a>(name: &'a str) -> (r: &'a str)
    ensures
        r@ == last_segment(name@),
{
    let n = name.unicode_len();
    let mut i: usize = n;
    while i > 0
        invariant
            i <= n,
            n == name@.len(),
            forall|k: int| i <= k < n ==> name@[k] != separator(),
        decreases i,
    {
        i -= 1;
        if name.get_char(i) == '_' {
            proof {
                lemma_last_index(name@, separator(), i as int);
            }
            return name.substring_char(i + 1, n);
        }
    }
    proof {
        lemma_no_index(name@, separator());
    }
    name
}

} // verus!
