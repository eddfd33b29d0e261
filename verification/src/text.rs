//! Character sequences: the model the parser is stated over, and the
//! executable helpers that work on it.

use vstd::prelude::*;

verus! {

/// Position of the first `c` in `s`, or the length of `s` where there is none.
pub open spec fn first_index(s: Seq<char>, c: char) -> int
    decreases s.len(),
{
    if s.len() == 0 {
        0
    } else if s[0] == c {
        0
    } else {
        1 + first_index(s.drop_first(), c)
    }
}

/// `first_index` finds the first occurrence and nothing before it.
pub proof fn lemma_first_index(s: Seq<char>, c: char)
    ensures
        0 <= first_index(s, c) <= s.len(),
        first_index(s, c) < s.len() ==> s[first_index(s, c)] == c,
        forall|j: int| 0 <= j < first_index(s, c) ==> s[j] != c,
    decreases s.len(),
{
    if s.len() > 0 && s[0] != c {
        let t = s.drop_first();
        lemma_first_index(t, c);
        assert forall|j: int| 0 <= j < first_index(s, c) implies s[j] != c by {
            if j > 0 {
                assert(s[j] == t[j - 1]);
            }
        }
    }
}

/// A position that holds `c` with no `c` before it is the first index.
pub proof fn lemma_first_index_is(s: Seq<char>, c: char, i: int)
    requires
        0 <= i <= s.len(),
        i < s.len() ==> s[i] == c,
        forall|j: int| 0 <= j < i ==> s[j] != c,
    ensures
        first_index(s, c) == i,
{
    lemma_first_index(s, c);
}

/// The characters of a string, one by one.
pub fn chars_of(s: &str) -> (v: Vec<char>)
    ensures
        v@ == s@,
{
    let mut v: Vec<char> = Vec::new();
    for c in it: s.chars()
        invariant
            it.seq() == s@,
            v@ == it.seq().take(it.index()),
    {
        v.push(c);
    }
    v
}

/// First position in `from..to` that holds `c`, or `to` where none does.
pub fn find_in(v: &Vec<char>, from: usize, to: usize, c: char) -> (i: usize)
    requires
        from <= to <= v.len(),
    ensures
        i == from + first_index(v@.subrange(from as int, to as int), c),
        from <= i <= to,
{
    let mut i: usize = from;
    while i < to && v[i] != c
        invariant
            from <= i <= to <= v.len(),
            forall|j: int| from <= j < i ==> v@[j] != c,
        decreases to - i,
    {
        i += 1;
    }
    proof {
        lemma_first_index_is(v@.subrange(from as int, to as int), c, i - from);
    }
    i
}

/// The part of `s` before its first `c`: all of `s` where it holds none.
pub open spec fn before(s: Seq<char>, c: char) -> Seq<char> {
    s.take(first_index(s, c))
}

/// The part of `s` after its first `c`: empty where it holds none.
pub open spec fn after(s: Seq<char>, c: char) -> Seq<char> {
    if first_index(s, c) < s.len() {
        s.skip(first_index(s, c) + 1)
    } else {
        Seq::empty()
    }
}

/// White space as Unicode defines it.
pub open spec fn is_blank(c: char) -> bool {
    let n: u32 = c as u32;
    ||| 0x09 <= n <= 0x0D
    ||| n == 0x20
    ||| n == 0x85
    ||| n == 0xA0
    ||| n == 0x1680
    ||| 0x2000 <= n <= 0x200A
    ||| n == 0x2028
    ||| n == 0x2029
    ||| n == 0x202F
    ||| n == 0x205F
    ||| n == 0x3000
}

/// Tells whether a character is white space.
pub fn is_blank_char(c: char) -> (b: bool)
    ensures
        b == is_blank(c),
{
    let n: u32 = c as u32;
    (0x09 <= n && n <= 0x0D) || n == 0x20 || n == 0x85 || n == 0xA0 || n == 0x1680 || (0x2000 <= n
        && n <= 0x200A) || n == 0x2028 || n == 0x2029 || n == 0x202F || n == 0x205F || n == 0x3000
}

/// `s` without the white space it starts with.
pub open spec fn skip_blank(s: Seq<char>) -> Seq<char>
    decreases s.len(),
{
    if s.len() > 0 && is_blank(s[0]) {
        skip_blank(s.drop_first())
    } else {
        s
    }
}

/// `s` without the white space it ends with.
pub open spec fn drop_blank_end(s: Seq<char>) -> Seq<char>
    decreases s.len(),
{
    if s.len() > 0 && is_blank(s.last()) {
        drop_blank_end(s.drop_last())
    } else {
        s
    }
}

/// `s` without white space at either end.
pub open spec fn trim(s: Seq<char>) -> Seq<char> {
    drop_blank_end(skip_blank(s))
}

/// `skip_blank` gives the end of `s`, and nothing that starts with white
/// space.
pub proof fn lemma_skip_blank(s: Seq<char>)
    ensures
        skip_blank(s).len() <= s.len(),
        skip_blank(s) == s.skip(s.len() - skip_blank(s).len()),
        skip_blank(s).len() > 0 ==> !is_blank(skip_blank(s)[0]),
        forall|i: int| 0 <= i < s.len() - skip_blank(s).len() ==> is_blank(#[trigger] s[i]),
    decreases s.len(),
{
    if s.len() > 0 && is_blank(s[0]) {
        let rest = s.drop_first();
        lemma_skip_blank(rest);
        let cut = s.len() - skip_blank(s).len();
        assert(skip_blank(s) =~= s.skip(cut));
        assert forall|i: int| 0 <= i < cut implies is_blank(#[trigger] s[i]) by {
            if i > 0 {
                assert(s[i] == rest[i - 1]);
            }
        }
    } else {
        assert(skip_blank(s) =~= s.skip(0));
    }
}

/// `drop_blank_end` gives the start of `s`, and nothing that ends with
/// white space.
pub proof fn lemma_drop_blank_end(s: Seq<char>)
    ensures
        drop_blank_end(s).len() <= s.len(),
        drop_blank_end(s) == s.take(drop_blank_end(s).len() as int),
        drop_blank_end(s).len() > 0 ==> !is_blank(drop_blank_end(s).last()),
        forall|i: int| drop_blank_end(s).len() <= i < s.len() ==> is_blank(#[trigger] s[i]),
    decreases s.len(),
{
    if s.len() > 0 && is_blank(s.last()) {
        let rest = s.drop_last();
        lemma_drop_blank_end(rest);
        assert(drop_blank_end(s) =~= s.take(drop_blank_end(s).len() as int));
        assert forall|i: int| drop_blank_end(s).len() <= i < s.len() implies is_blank(
            #[trigger] s[i],
        ) by {
            if i < s.len() - 1 {
                assert(s[i] == rest[i]);
            }
        }
    } else {
        assert(drop_blank_end(s) =~= s.take(s.len() as int));
    }
}

/// What `trim` gives neither starts nor ends with white space, and it is
/// empty only where `s` holds nothing else.
pub proof fn lemma_trim(s: Seq<char>)
    ensures
        trim(s).len() > 0 ==> !is_blank(trim(s)[0]) && !is_blank(trim(s).last()),
        trim(s).len() == 0 ==> forall|i: int| 0 <= i < s.len() ==> is_blank(#[trigger] s[i]),
{
    let tail = skip_blank(s);
    lemma_skip_blank(s);
    lemma_drop_blank_end(tail);
    if trim(s).len() == 0 {
        assert forall|i: int| 0 <= i < s.len() implies is_blank(#[trigger] s[i]) by {
            let cut = s.len() - tail.len();
            if i >= cut {
                assert(s[i] == tail[i - cut]);
            }
        }
    } else {
        assert(trim(s)[0] == tail[0]);
    }
}

/// Bounds `(a, b)` of what is left of `from..to` once white space is
/// trimmed from both ends.
pub fn trim_range(v: &Vec<char>, from: usize, to: usize) -> (r: (usize, usize))
    requires
        from <= to <= v.len(),
    ensures
        from <= r.0 <= r.1 <= to,
        v@.subrange(r.0 as int, r.1 as int) == trim(v@.subrange(from as int, to as int)),
        to - r.0 == skip_blank(v@.subrange(from as int, to as int)).len(),
        r.0 < r.1 ==> !is_blank(v@[r.0 as int]) && !is_blank(v@[r.1 - 1]),
{
    let mut a: usize = from;
    while a < to && is_blank_char(v[a])
        invariant
            from <= a <= to <= v.len(),
            skip_blank(v@.subrange(from as int, to as int)) == skip_blank(
                v@.subrange(a as int, to as int),
            ),
        decreases to - a,
    {
        proof {
            let s = v@.subrange(a as int, to as int);
            assert(s.drop_first() =~= v@.subrange(a + 1, to as int));
        }
        a += 1;
    }
    let mut b: usize = to;
    while a < b && is_blank_char(v[b - 1])
        invariant
            a <= b <= to <= v.len(),
            drop_blank_end(v@.subrange(a as int, to as int)) == drop_blank_end(
                v@.subrange(a as int, b as int),
            ),
        decreases b - a,
    {
        proof {
            let s = v@.subrange(a as int, b as int);
            assert(s.drop_last() =~= v@.subrange(a as int, b - 1));
        }
        b -= 1;
    }
    proof {
        lemma_trim(v@.subrange(from as int, to as int));
        if a < b {
            assert(v@.subrange(a as int, b as int)[0] == v@[a as int]);
            assert(v@.subrange(a as int, b as int).last() == v@[b - 1]);
        }
    }
    (a, b)
}

/// Tells whether the characters in `from..to` spell `word`.
pub fn range_is(v: &Vec<char>, from: usize, to: usize, word: &str) -> (b: bool)
    requires
        from <= to <= v.len(),
    ensures
        b == (v@.subrange(from as int, to as int) == word@),
{
    let w = chars_of(word);
    if w.len() != to - from {
        return false;
    }
    let mut i: usize = 0;
    while i < w.len()
        invariant
            from <= to <= v.len(),
            w@ == word@,
            w.len() == to - from,
            0 <= i <= w.len(),
            forall|j: int| 0 <= j < i ==> v@[from + j] == w@[j],
        decreases w.len() - i,
    {
        if v[from + i] != w[i] {
            proof {
                assert(v@.subrange(from as int, to as int)[i as int] != word@[i as int]);
            }
            return false;
        }
        i += 1;
    }
    proof {
        assert(v@.subrange(from as int, to as int) =~= word@);
    }
    true
}

} // verus!
