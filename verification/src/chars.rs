//! Small executable helpers for moving between strings and character vectors.
//!
//! All parsing in this crate works on `Vec<char>`, whose view is the same
//! `Seq<char>` that a `&str` has, so contracts stated over `s@` carry over.

use vstd::prelude::*;

verus! {

broadcast use {vstd::string::axiom_spec_iter, vstd::string::next_postcondition};

/// Collect the characters of a string slice into a vector.
pub fn chars_of(s: &str) -> (r: Vec<char>)
    ensures
        r@ == s@,
{
    let mut it = s.chars();
    let mut r: Vec<char> = Vec::new();
    loop
        invariant
            r@ + vstd::std_specs::iter::IteratorSpec::remaining(&it) == s@,
            vstd::std_specs::iter::IteratorSpec::decrease(&it) is Some,
        ensures
            r@ == s@,
        decreases vstd::std_specs::iter::IteratorSpec::decrease(&it)->0,
    {
        match it.next() {
            Some(c) => {
                r.push(c);
            },
            None => {
                proof {
                    assert(r@ =~= s@);
                }
                break;
            },
        }
    }
    r
}

/// Relies on `String`'s `FromIterator<char>`: the collected string holds
/// exactly the given characters, in order.
#[verifier::external_body]
pub fn string_from_chars(v: &Vec<char>) -> (r: String)
    ensures
        r@ == v@,
{
    v.iter().collect()
}

/// Compare two character vectors for (character-wise) equality.
pub fn chars_eq(a: &Vec<char>, b: &Vec<char>) -> (r: bool)
    ensures
        r == (a@ == b@),
{
    if a.len() != b.len() {
        return false;
    }
    let mut i: usize = 0;
    while i < a.len()
        invariant
            i <= a.len(),
            a.len() == b.len(),
            forall|j: int| 0 <= j < i ==> a@[j] == b@[j],
        decreases a.len() - i,
    {
        if a[i] != b[i] {
            return false;
        }
        i += 1;
    }
    proof {
        assert(a@ =~= b@);
    }
    true
}

/// Compare a string slice with a character vector.
pub fn str_eq_chars(s: &str, v: &Vec<char>) -> (r: bool)
    ensures
        r == (s@ == v@),
{
    let cs = chars_of(s);
    chars_eq(&cs, v)
}

/// Compare two string slices for equality of their character sequences.
pub fn str_eq(a: &str, b: &str) -> (r: bool)
    ensures
        r == (a@ == b@),
{
    let cb = chars_of(b);
    str_eq_chars(a, &cb)
}

/// The whitespace characters that field and type names are trimmed of.
pub open spec fn is_ws(c: char) -> bool {
    c == ' ' || c == '\t' || c == '\n' || c == '\r'
}

/// Drop leading whitespace.
pub open spec fn trim_start(s: Seq<char>) -> Seq<char>
    decreases s.len(),
{
    if s.len() > 0 && is_ws(s[0]) {
        trim_start(s.drop_first())
    } else {
        s
    }
}

/// Drop trailing whitespace.
pub open spec fn trim_end(s: Seq<char>) -> Seq<char>
    decreases s.len(),
{
    if s.len() > 0 && is_ws(s.last()) {
        trim_end(s.drop_last())
    } else {
        s
    }
}

/// Drop whitespace on both ends.
pub open spec fn spec_trim(s: Seq<char>) -> Seq<char> {
    trim_end(trim_start(s))
}

/// The index of the first occurrence of `c` in `s`, or `-1` when absent.
pub open spec fn find_char(s: Seq<char>, c: char) -> int
    decreases s.len(),
{
    if s.len() == 0 {
        -1
    } else if s[0] == c {
        0
    } else if find_char(s.drop_first(), c) == -1 {
        -1
    } else {
        1 + find_char(s.drop_first(), c)
    }
}

/// Split `s` at every occurrence of `sep`; a sequence with `n` separators
/// yields `n + 1` pieces.
pub open spec fn spec_split(s: Seq<char>, sep: char) -> Seq<Seq<char>>
    decreases s.len(),
{
    let i = find_char(s, sep);
    if 0 <= i < s.len() {
        seq![s.take(i)] + spec_split(s.skip(i + 1), sep)
    } else {
        seq![s]
    }
}

/// Where `find_char` lands: before `k` nothing matches, and `k` (if in
/// range) is a match.
pub proof fn lemma_find_char(s: Seq<char>, c: char, k: int)
    requires
        0 <= k <= s.len(),
        forall|j: int| 0 <= j < k ==> s[j] != c,
        k < s.len() ==> s[k] == c,
    ensures
        find_char(s, c) == if k == s.len() {
            -1
        } else {
            k
        },
    decreases s.len(),
{
    if s.len() > 0 {
        if k == 0 {
        } else {
            assert(s[0] != c);
            lemma_find_char(s.drop_first(), c, k - 1);
        }
    }
}

/// The view of each vector in a sequence of character vectors.
pub open spec fn views_of(s: Seq<Vec<char>>) -> Seq<Seq<char>> {
    s.map_values(|v: Vec<char>| v@)
}

/// Copy the characters between two positions into a fresh vector.
pub fn subvec(v: &Vec<char>, from: usize, to: usize) -> (r: Vec<char>)
    requires
        from <= to <= v.len(),
    ensures
        r@ == v@.subrange(from as int, to as int),
{
    let mut r: Vec<char> = Vec::new();
    let mut i: usize = from;
    while i < to
        invariant
            from <= i <= to <= v.len(),
            r@ == v@.subrange(from as int, i as int),
        decreases to - i,
    {
        r.push(v[i]);
        proof {
            assert(v@.subrange(from as int, i + 1 as int) =~= v@.subrange(from as int, i as int)
                + seq![v@[i as int]]);
        }
        i += 1;
    }
    r
}

/// Whether a character is one the trimming rules remove.
pub fn is_ws_exec(c: char) -> (r: bool)
    ensures
        r == is_ws(c),
{
    c == ' ' || c == '\t' || c == '\n' || c == '\r'
}

/// Trim whitespace from both ends of a character vector.
pub fn trim_vec(v: &Vec<char>) -> (r: Vec<char>)
    ensures
        r@ == spec_trim(v@),
{
    let mut lo: usize = 0;
    while lo < v.len() && is_ws_exec(v[lo])
        invariant
            lo <= v.len(),
            forall|j: int| 0 <= j < lo ==> is_ws(v@[j]),
        decreases v.len() - lo,
    {
        lo += 1;
    }
    let mut hi: usize = v.len();
    while hi > lo && is_ws_exec(v[hi - 1])
        invariant
            lo <= hi <= v.len(),
            forall|j: int| 0 <= j < lo ==> is_ws(v@[j]),
            forall|j: int| hi <= j < v.len() ==> is_ws(v@[j]),
        decreases hi,
    {
        hi -= 1;
    }
    proof {
        lemma_trim_start_skip(v@, lo as int);
        lemma_trim_end_take(v@.skip(lo as int), hi - lo as int);
        assert(v@.skip(lo as int).take(hi - lo as int) =~= v@.subrange(lo as int, hi as int));
        assert forall|j: int|
            hi - lo as int <= j < v@.skip(lo as int).len() implies is_ws(
            v@.skip(lo as int)[j],
        ) by {
            assert(v@.skip(lo as int)[j] == v@[j + lo]);
        }
    }
    subvec(v, lo, hi)
}

/// Dropping a fully-whitespace prefix is what `trim_start` does.
pub proof fn lemma_trim_start_skip(s: Seq<char>, lo: int)
    requires
        0 <= lo <= s.len(),
        forall|j: int| 0 <= j < lo ==> is_ws(s[j]),
        lo < s.len() ==> !is_ws(s[lo]),
    ensures
        trim_start(s) == s.skip(lo),
    decreases lo,
{
    if lo == 0 {
        assert(s.skip(0) =~= s);
        if s.len() > 0 && is_ws(s[0]) {
            assert(false);
        }
    } else {
        assert(is_ws(s[0]));
        assert forall|j: int| 0 <= j < lo - 1 implies is_ws(s.drop_first()[j]) by {
            assert(s.drop_first()[j] == s[j + 1]);
        }
        lemma_trim_start_skip(s.drop_first(), lo - 1);
        assert(s.drop_first().skip(lo - 1) =~= s.skip(lo));
    }
}

/// Dropping a fully-whitespace suffix is what `trim_end` does.
pub proof fn lemma_trim_end_take(s: Seq<char>, hi: int)
    requires
        0 <= hi <= s.len(),
        forall|j: int| hi <= j < s.len() ==> is_ws(s[j]),
        hi > 0 ==> !is_ws(s[hi - 1]),
    ensures
        trim_end(s) == s.take(hi),
    decreases s.len(),
{
    if s.len() == 0 {
        assert(s.take(0) =~= s);
    } else if hi == s.len() {
        assert(!is_ws(s.last()));
        assert(s.take(hi) =~= s);
    } else {
        assert(is_ws(s.last()));
        assert forall|j: int| hi <= j < s.drop_last().len() implies is_ws(s.drop_last()[j]) by {
            assert(s.drop_last()[j] == s[j]);
        }
        lemma_trim_end_take(s.drop_last(), hi);
        assert(s.drop_last().take(hi) =~= s.take(hi));
    }
}

/// Find the first occurrence of a character.
pub fn find_char_vec(v: &Vec<char>, c: char) -> (r: Option<usize>)
    ensures
        r matches Some(i) ==> i < v@.len() && find_char(v@, c) == i,
        r is None ==> find_char(v@, c) == -1,
{
    let mut i: usize = 0;
    while i < v.len() && v[i] != c
        invariant
            i <= v.len(),
            forall|j: int| 0 <= j < i ==> v@[j] != c,
        decreases v.len() - i,
    {
        i += 1;
    }
    proof {
        lemma_find_char(v@, c, i as int);
    }
    if i == v.len() {
        None
    } else {
        Some(i)
    }
}

/// Split a character vector on a separator, starting at `from`.
pub fn split_vec_from(v: &Vec<char>, from: usize, sep: char) -> (r: Vec<Vec<char>>)
    requires
        from <= v.len(),
    ensures
        views_of(r@) == spec_split(v@.skip(from as int), sep),
    decreases v.len() - from,
{
    let mut i: usize = from;
    while i < v.len() && v[i] != sep
        invariant
            from <= i <= v.len(),
            forall|j: int| from <= j < i ==> v@[j] != sep,
        decreases v.len() - i,
    {
        i += 1;
    }
    proof {
        let t = v@.skip(from as int);
        assert forall|j: int| 0 <= j < i - from as int implies t[j] != sep by {
            assert(t[j] == v@[j + from]);
        }
        if (i as int) < v.len() as int {
            assert(t[i - from as int] == v@[i as int]);
        }
        lemma_find_char(t, sep, i - from as int);
    }
    if i == v.len() {
        let piece = subvec(v, from, v.len());
        let mut r: Vec<Vec<char>> = Vec::new();
        r.push(piece);
        proof {
            assert(v@.subrange(from as int, v.len() as int) =~= v@.skip(from as int));
            assert(views_of(r@) =~= seq![v@.skip(from as int)]);
        }
        r
    } else {
        let piece = subvec(v, from, i);
        let mut rest = split_vec_from(v, i + 1, sep);
        rest.insert(0, piece);
        proof {
            let t = v@.skip(from as int);
            assert(t.take(i - from as int) =~= v@.subrange(from as int, i as int));
            assert(t.skip(i - from as int + 1) =~= v@.skip(i + 1 as int));
            assert(views_of(rest@) =~= seq![t.take(i - from as int)] + spec_split(
                t.skip(i - from as int + 1),
                sep,
            ));
        }
        rest
    }
}

/// Split a character vector on a separator.
pub fn split_vec(v: &Vec<char>, sep: char) -> (r: Vec<Vec<char>>)
    ensures
        views_of(r@) == spec_split(v@, sep),
{
    let r = split_vec_from(v, 0, sep);
    proof {
        assert(v@.skip(0) =~= v@);
    }
    r
}

} // verus!
