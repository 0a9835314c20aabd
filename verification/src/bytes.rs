//! The byte-level model of the input: splitting a byte sequence into records
//! on a delimiter, and the executable search and comparison primitives the
//! pipeline is proved against.

use vstd::prelude::*;

verus! {

/// Index of the first occurrence of `d` in `s`, or `s.len()` if `d` is absent.
pub open spec fn first_occ(s: Seq<u8>, d: u8) -> int
    decreases s.len(),
{
    if s.len() == 0 {
        0
    } else if s[0] == d {
        0
    } else {
        1 + first_occ(s.drop_first(), d)
    }
}

pub proof fn lemma_first_occ_props(s: Seq<u8>, d: u8)
    ensures
        0 <= first_occ(s, d) <= s.len(),
        first_occ(s, d) < s.len() ==> s[first_occ(s, d)] == d,
        forall|j: int| 0 <= j < first_occ(s, d) ==> s[j] != d,
    decreases s.len(),
{
    if s.len() != 0 && s[0] != d {
        lemma_first_occ_props(s.drop_first(), d);
        assert forall|j: int| 0 <= j < first_occ(s, d) implies s[j] != d by {
            if j > 0 {
                assert(s.drop_first()[j - 1] != d);
            }
        }
    }
}

/// A sequence with `d` at position `i` and nowhere earlier has `first_occ == i`.
pub proof fn lemma_first_occ_exact(s: Seq<u8>, d: u8, i: int)
    requires
        0 <= i < s.len(),
        s[i] == d,
        forall|j: int| 0 <= j < i ==> s[j] != d,
    ensures
        first_occ(s, d) == i,
{
    lemma_first_occ_props(s, d);
    if first_occ(s, d) < i {
        assert(s[first_occ(s, d)] != d);
    }
}

/// A sequence without `d` has `first_occ == s.len()`.
pub proof fn lemma_first_occ_absent(s: Seq<u8>, d: u8)
    requires
        forall|j: int| 0 <= j < s.len() ==> s[j] != d,
    ensures
        first_occ(s, d) == s.len(),
{
    lemma_first_occ_props(s, d);
    if first_occ(s, d) < s.len() {
        assert(s[first_occ(s, d)] != d);
    }
}

/// Split `s` on delimiter `d`. Always yields at least one part; `n`
/// delimiters yield `n + 1` parts, each free of `d`.
pub open spec fn split_on(s: Seq<u8>, d: u8) -> Seq<Seq<u8>>
    decreases s.len(),
{
    let i = first_occ(s, d);
    if 0 <= i < s.len() {
        seq![s.take(i)] + split_on(s.skip(i + 1), d)
    } else {
        seq![s]
    }
}

pub proof fn lemma_split_on_len(s: Seq<u8>, d: u8)
    ensures
        split_on(s, d).len() >= 1,
    decreases s.len(),
{
    let i = first_occ(s, d);
    lemma_first_occ_props(s, d);
    if i != s.len() {
        lemma_split_on_len(s.skip(i + 1), d);
    }
}

/// The byte cost of a record list: each record's bytes plus one for its
/// delimiter.
pub open spec fn total_cost(ls: Seq<Seq<u8>>) -> int
    decreases ls.len(),
{
    if ls.len() == 0 {
        0
    } else {
        ls[0].len() + 1 + total_cost(ls.drop_first())
    }
}

/// Splitting conserves bytes: the records of `s` cost exactly `s` plus one
/// final delimiter.
pub proof fn lemma_split_cost(s: Seq<u8>, d: u8)
    ensures
        total_cost(split_on(s, d)) == s.len() + 1,
    decreases s.len(),
{
    let i = first_occ(s, d);
    lemma_first_occ_props(s, d);
    if 0 <= i < s.len() {
        lemma_split_cost(s.skip(i + 1), d);
        let rest = split_on(s.skip(i + 1), d);
        let whole = seq![s.take(i)] + rest;
        assert(whole.drop_first() =~= rest);
        assert(whole[0] == s.take(i));
        assert(total_cost(whole) == s.take(i).len() + 1 + total_cost(rest));
        assert(split_on(s, d) == whole);
    } else {
        let whole = seq![s];
        assert(whole.drop_first() =~= Seq::<Seq<u8>>::empty());
        assert(total_cost(whole.drop_first()) == 0);
        assert(total_cost(whole) == s.len() + 1 + total_cost(whole.drop_first()));
    }
}

pub proof fn lemma_cost_min(ls: Seq<Seq<u8>>)
    ensures
        total_cost(ls) >= ls.len(),
    decreases ls.len(),
{
    if ls.len() != 0 {
        lemma_cost_min(ls.drop_first());
    }
}

/// Each record's bytes are part of the total cost.
pub proof fn lemma_cost_lower(ls: Seq<Seq<u8>>, k: int)
    requires
        0 <= k < ls.len(),
    ensures
        total_cost(ls) >= ls.len() + ls[k].len(),
    decreases ls.len(),
{
    if k == 0 {
        lemma_cost_min(ls.drop_first());
    } else {
        lemma_cost_lower(ls.drop_first(), k - 1);
        assert(ls.drop_first()[k - 1] == ls[k]);
    }
}

/// The records of the input: its lines, split on newline.
pub open spec fn lines_of(s: Seq<u8>) -> Seq<Seq<u8>> {
    split_on(s, 10u8)
}

/// The fields of one record: the line split on commas.
pub open spec fn fields_of(line: Seq<u8>) -> Seq<Seq<u8>> {
    split_on(line, 44u8)
}

/// Relies on `memchr::memchr`: returns the index of the first occurrence of
/// `needle` in `haystack`, or `None` if the byte does not occur; a returned
/// index is less than `haystack.len()`.
pub assume_specification[ memchr::memchr ](needle: u8, haystack: &[u8]) -> (r: Option<usize>)
    ensures
        match r {
            Some(i) => i < haystack@.len() && haystack@[i as int] == needle && forall|j: int|
                0 <= j < i ==> haystack@[j] != needle,
            None => forall|j: int| 0 <= j < haystack@.len() ==> haystack@[j] != needle,
        },
;

/// First occurrence of `d` in `hay`, tied to the `first_occ` model.
pub fn find_first(d: u8, hay: &[u8]) -> (r: Option<usize>)
    ensures
        match r {
            Some(i) => i == first_occ(hay@, d) && i < hay@.len(),
            None => first_occ(hay@, d) == hay@.len(),
        },
{
    let r = memchr::memchr(d, hay);
    proof {
        match r {
            Some(i) => lemma_first_occ_exact(hay@, d, i as int),
            None => lemma_first_occ_absent(hay@, d),
        }
    }
    r
}

/// Byte-slice equality, proved against the sequence views.
pub fn bytes_eq(a: &[u8], b: &[u8]) -> (r: bool)
    ensures
        r == (a@ == b@),
{
    if a.len() != b.len() {
        return false;
    }
    let mut i: usize = 0;
    while i < a.len()
        invariant
            0 <= i <= a@.len(),
            a@.len() == b@.len(),
            forall|j: int| 0 <= j < i ==> a@[j] == b@[j],
        decreases a@.len() - i,
    {
        if a[i] != b[i] {
            return false;
        }
        i = i + 1;
    }
    proof {
        assert(a@ =~= b@);
    }
    true
}

/// Appends `src[from..to]` to `dst`.
pub fn push_range(dst: &mut Vec<u8>, src: &[u8], from: usize, to: usize)
    requires
        from <= to <= src@.len(),
    ensures
        final(dst)@ == old(dst)@ + src@.subrange(from as int, to as int),
{
    let mut i: usize = from;
    while i < to
        invariant
            from <= i <= to <= src@.len(),
            dst@ == old(dst)@ + src@.subrange(from as int, i as int),
        decreases to - i,
    {
        dst.push(src[i]);
        proof {
            assert(dst@ =~= old(dst)@ + src@.subrange(from as int, i + 1));
        }
        i = i + 1;
    }
}

} // verus!
