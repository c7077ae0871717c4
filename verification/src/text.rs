//! Byte strings: searching for a byte or a sub-string, and replacing every
//! occurrence of one string by another.

use vstd::prelude::*;
use vstd::utf8::{
    is_char_boundary, is_char_boundary_iff_not_is_continuation_byte, length_of_first_scalar,
    pop_first_scalar, valid_utf8, valid_utf8_concat, valid_utf8_split,
};

verus! {

/// The ASCII space.
pub const SPACE: u8 = 0x20;

/// The ASCII dash.
pub const DASH: u8 = 0x2d;

/// The ASCII dot.
pub const DOT: u8 = 0x2e;

/// The ASCII slash, which parts the segments of a path.
pub const SLASH: u8 = 0x2f;

/// The ASCII digit zero.
pub const ZERO: u8 = 0x30;

/// The ASCII digit nine.
pub const NINE: u8 = 0x39;

/// The ASCII colon.
pub const COLON: u8 = 0x3a;

/// The ASCII underscore.
pub const UNDERSCORE: u8 = 0x5f;

/// True when `needle` stands in `hay` at index `at`.
pub open spec fn occurs_at(hay: Seq<u8>, needle: Seq<u8>, at: int) -> bool {
    0 <= at && at + needle.len() <= hay.len() && hay.subrange(at, at + needle.len()) == needle
}

/// True when `needle` stands somewhere in `hay`.
pub open spec fn occurs_in(hay: Seq<u8>, needle: Seq<u8>) -> bool {
    exists|at: int| occurs_at(hay, needle, at)
}

/// True when `at` is the first index of `hay` that holds `byte`.
pub open spec fn is_first_byte(hay: Seq<u8>, byte: u8, at: int) -> bool {
    &&& 0 <= at < hay.len()
    &&& hay[at] == byte
    &&& forall|j: int| 0 <= j < at ==> hay[j] != byte
}

/// True when `at` is the last index of `hay` that holds `byte`.
pub open spec fn is_last_byte(hay: Seq<u8>, byte: u8, at: int) -> bool {
    &&& 0 <= at < hay.len()
    &&& hay[at] == byte
    &&& forall|j: int| at < j < hay.len() ==> hay[j] != byte
}

/// `hay` with every occurrence of `from` replaced by `to`. Occurrences are
/// found from left to right and do not overlap; what has been put in is not
/// searched again. An empty `from` replaces nothing.
pub open spec fn replaced(hay: Seq<u8>, from: Seq<u8>, to: Seq<u8>) -> Seq<u8>
    decreases hay.len(),
{
    if from.len() == 0 || hay.len() < from.len() {
        hay
    } else if occurs_at(hay, from, 0) {
        to + replaced(hay.subrange(from.len() as int, hay.len() as int), from, to)
    } else {
        seq![hay[0]] + replaced(hay.drop_first(), from, to)
    }
}

/// Where `from` does not occur, nothing is replaced.
pub proof fn lemma_replaced_absent(hay: Seq<u8>, from: Seq<u8>, to: Seq<u8>)
    requires
        !occurs_in(hay, from),
    ensures
        replaced(hay, from, to) == hay,
    decreases hay.len(),
{
    if from.len() == 0 || hay.len() < from.len() {
    } else {
        assert(!occurs_at(hay, from, 0));
        let rest = hay.drop_first();
        assert forall|at: int| !occurs_at(rest, from, at) by {
            if occurs_at(rest, from, at) {
                assert(hay.subrange(at + 1, at + 1 + from.len()) =~= rest.subrange(
                    at,
                    at + from.len(),
                ));
                assert(occurs_at(hay, from, at + 1));
            }
        }
        lemma_replaced_absent(rest, from, to);
        assert(seq![hay[0]] + rest =~= hay);
    }
}

/// Up to its first occurrence of `from`, `hay` is kept as it is; the
/// occurrence becomes `to`, and the replacing goes on behind it.
pub proof fn lemma_replaced_first(hay: Seq<u8>, from: Seq<u8>, to: Seq<u8>, at: int)
    requires
        from.len() > 0,
        occurs_at(hay, from, at),
        forall|j: int| 0 <= j < at ==> !occurs_at(hay, from, j),
    ensures
        replaced(hay, from, to) == hay.subrange(0, at) + to + replaced(
            hay.subrange(at + from.len(), hay.len() as int),
            from,
            to,
        ),
    decreases at,
{
    if at == 0 {
        assert(hay.subrange(0, 0) + to =~= to);
    } else {
        let rest = hay.drop_first();
        assert(!occurs_at(hay, from, 0));
        assert(rest.subrange(at - 1, at - 1 + from.len()) =~= hay.subrange(at, at + from.len()));
        assert forall|j: int| 0 <= j < at - 1 implies !occurs_at(rest, from, j) by {
            if occurs_at(rest, from, j) {
                assert(hay.subrange(j + 1, j + 1 + from.len()) =~= rest.subrange(
                    j,
                    j + from.len(),
                ));
                assert(occurs_at(hay, from, j + 1));
            }
        }
        lemma_replaced_first(rest, from, to, at - 1);
        assert(rest.subrange(at - 1 + from.len(), rest.len() as int) =~= hay.subrange(
            at + from.len(),
            hay.len() as int,
        ));
        assert(seq![hay[0]] + rest.subrange(0, at - 1) =~= hay.subrange(0, at));
        assert(seq![hay[0]] + (rest.subrange(0, at - 1) + to + replaced(
            hay.subrange(at + from.len(), hay.len() as int),
            from,
            to,
        )) =~= hay.subrange(0, at) + to + replaced(
            hay.subrange(at + from.len(), hay.len() as int),
            from,
            to,
        ));
    }
}

/// Where `needle` occurs in `hay`, there is a first occurrence.
pub proof fn lemma_first_occurrence(hay: Seq<u8>, needle: Seq<u8>, at: int) -> (first: int)
    requires
        occurs_at(hay, needle, at),
    ensures
        0 <= first <= at,
        occurs_at(hay, needle, first),
        forall|j: int| 0 <= j < first ==> !occurs_at(hay, needle, j),
    decreases at,
{
    if exists|j: int| 0 <= j < at && occurs_at(hay, needle, j) {
        let j = choose|j: int| 0 <= j < at && occurs_at(hay, needle, j);
        lemma_first_occurrence(hay, needle, j)
    } else {
        at
    }
}

/// Well-formed UTF-8 that begins with well-formed UTF-8 has a character
/// boundary where that ends.
pub proof fn lemma_boundary_behind_prefix(hay: Seq<u8>, prefix: Seq<u8>)
    requires
        valid_utf8(hay),
        valid_utf8(prefix),
        occurs_at(hay, prefix, 0),
    ensures
        is_char_boundary(hay, prefix.len() as int),
    decreases prefix.len(),
{
    if prefix.len() > 0 {
        let k = length_of_first_scalar(prefix);
        assert(hay.subrange(0, prefix.len() as int)[0] == hay[0]);
        assert(hay[0] == prefix[0]);
        assert(length_of_first_scalar(hay) == k);
        let hay_rest = pop_first_scalar(hay);
        let prefix_rest = pop_first_scalar(prefix);
        assert(k <= prefix.len());
        assert(hay_rest.subrange(0, prefix_rest.len() as int) =~= hay.subrange(
            0,
            prefix.len() as int,
        ).subrange(k, prefix.len() as int));
        assert(occurs_at(hay_rest, prefix_rest, 0));
        lemma_boundary_behind_prefix(hay_rest, prefix_rest);
    }
}

/// Replacing well-formed UTF-8 by well-formed UTF-8 in well-formed UTF-8
/// leaves well-formed UTF-8.
pub proof fn lemma_replaced_is_utf8(hay: Seq<u8>, from: Seq<u8>, to: Seq<u8>)
    requires
        valid_utf8(hay),
        valid_utf8(from),
        valid_utf8(to),
    ensures
        valid_utf8(replaced(hay, from, to)),
    decreases hay.len(),
{
    if from.len() == 0 {
    } else if !occurs_in(hay, from) {
        lemma_replaced_absent(hay, from, to);
    } else {
        let some = choose|at: int| occurs_at(hay, from, at);
        let at = lemma_first_occurrence(hay, from, some);
        lemma_replaced_first(hay, from, to, at);
        let tail = hay.subrange(at, hay.len() as int);
        let rest = hay.subrange(at + from.len(), hay.len() as int);
        assert(hay.subrange(at, at + from.len())[0] == hay[at]);
        is_char_boundary_iff_not_is_continuation_byte(from, 0);
        is_char_boundary_iff_not_is_continuation_byte(hay, at);
        valid_utf8_split(hay, at);
        assert(tail.subrange(0, from.len() as int) =~= hay.subrange(at, at + from.len()));
        lemma_boundary_behind_prefix(tail, from);
        valid_utf8_split(tail, from.len() as int);
        assert(tail.subrange(from.len() as int, tail.len() as int) =~= rest);
        lemma_replaced_is_utf8(rest, from, to);
        valid_utf8_concat(hay.subrange(0, at), to);
        valid_utf8_concat(hay.subrange(0, at) + to, replaced(rest, from, to));
    }
}

/// The index of the first `byte` in `hay`, if there is one.
pub fn find_byte(hay: &[u8], byte: u8) -> (found: Option<usize>)
    ensures
        match found {
            Some(at) => is_first_byte(hay@, byte, at as int),
            None => forall|j: int| 0 <= j < hay@.len() ==> hay@[j] != byte,
        },
{
    let mut i: usize = 0;
    while i < hay.len()
        invariant
            i <= hay@.len(),
            forall|j: int| 0 <= j < i ==> hay@[j] != byte,
        decreases hay@.len() - i,
    {
        if hay[i] == byte {
            return Some(i);
        }
        i += 1;
    }
    None
}

/// The index of the last `byte` in `hay`, if there is one.
pub fn rfind_byte(hay: &[u8], byte: u8) -> (found: Option<usize>)
    ensures
        match found {
            Some(at) => is_last_byte(hay@, byte, at as int),
            None => forall|j: int| 0 <= j < hay@.len() ==> hay@[j] != byte,
        },
{
    let mut i: usize = hay.len();
    while i > 0
        invariant
            i <= hay@.len(),
            forall|j: int| i <= j < hay@.len() ==> hay@[j] != byte,
        decreases i,
    {
        i -= 1;
        if hay[i] == byte {
            return Some(i);
        }
    }
    None
}

/// Whether `needle` stands in `hay` at index `at`.
pub fn matches_at(hay: &[u8], needle: &[u8], at: usize) -> (found: bool)
    ensures
        found == occurs_at(hay@, needle@, at as int),
{
    if at > hay.len() || needle.len() > hay.len() - at {
        return false;
    }
    let mut k: usize = 0;
    while k < needle.len()
        invariant
            k <= needle@.len(),
            at + needle@.len() <= hay@.len() <= usize::MAX,
            forall|j: int| 0 <= j < k ==> hay@[at + j] == needle@[j],
        decreases needle@.len() - k,
    {
        if hay[at + k] != needle[k] {
            proof {
                let part = hay@.subrange(at as int, at + needle@.len());
                assert(part[k as int] == hay@[at + k]);
            }
            return false;
        }
        k += 1;
    }
    assert(hay@.subrange(at as int, at + needle@.len()) =~= needle@);
    true
}

/// Whether the two byte strings are equal.
pub fn same_bytes(a: &[u8], b: &[u8]) -> (same: bool)
    ensures
        same == (a@ == b@),
{
    if a.len() != b.len() {
        return false;
    }
    let same = matches_at(a, b, 0);
    proof {
        assert(a@.subrange(0, a@.len() as int) =~= a@);
    }
    same
}

/// Whether `needle` stands somewhere in `hay`.
pub fn contains(hay: &[u8], needle: &[u8]) -> (found: bool)
    ensures
        found == occurs_in(hay@, needle@),
{
    if needle.len() > hay.len() {
        assert forall|at: int| !occurs_at(hay@, needle@, at) by {}
        return false;
    }
    let last: usize = hay.len() - needle.len();
    let mut i: usize = 0;
    while i < last
        invariant
            last == hay@.len() - needle@.len(),
            i <= last,
            forall|j: int| 0 <= j < i ==> !occurs_at(hay@, needle@, j),
        decreases last - i,
    {
        if matches_at(hay, needle, i) {
            return true;
        }
        i += 1;
    }
    let found = matches_at(hay, needle, last);
    assert(!found ==> forall|at: int| !occurs_at(hay@, needle@, at));
    found
}

/// Appends the bytes of `tail` to `out`.
pub fn push_all(out: &mut Vec<u8>, tail: &[u8])
    ensures
        final(out)@ == old(out)@ + tail@,
{
    let mut k: usize = 0;
    while k < tail.len()
        invariant
            k <= tail@.len(),
            out@ == old(out)@ + tail@.subrange(0, k as int),
        decreases tail@.len() - k,
    {
        out.push(tail[k]);
        k += 1;
        assert(out@ =~= old(out)@ + tail@.subrange(0, k as int));
    }
    assert(tail@.subrange(0, tail@.len() as int) =~= tail@);
}

/// `hay` with every occurrence of `from` replaced by `to`.
pub fn replace_all(hay: &[u8], from: &[u8], to: &[u8]) -> (out: Vec<u8>)
    ensures
        out@ == replaced(hay@, from@, to@),
{
    let mut out: Vec<u8> = Vec::new();
    if from.len() == 0 {
        push_all(&mut out, hay);
        return out;
    }
    let mut i: usize = 0;
    assert(hay@.subrange(0, hay@.len() as int) =~= hay@);
    while i < hay.len()
        invariant
            from@.len() > 0,
            i <= hay@.len(),
            replaced(hay@, from@, to@) == out@ + replaced(
                hay@.subrange(i as int, hay@.len() as int),
                from@,
                to@,
            ),
        decreases hay@.len() - i,
    {
        let ghost rest = hay@.subrange(i as int, hay@.len() as int);
        if matches_at(hay, from, i) {
            proof {
                assert(rest.subrange(0, from@.len() as int) =~= hay@.subrange(
                    i as int,
                    i + from@.len(),
                ));
                assert(occurs_at(rest, from@, 0));
                assert(rest.subrange(from@.len() as int, rest.len() as int) =~= hay@.subrange(
                    i + from@.len(),
                    hay@.len() as int,
                ));
            }
            push_all(&mut out, to);
            i += from.len();
        } else {
            proof {
                if rest.len() >= from@.len() {
                    assert(rest.subrange(0, from@.len() as int) =~= hay@.subrange(
                        i as int,
                        i + from@.len(),
                    ));
                    assert(!occurs_at(rest, from@, 0));
                    assert(rest.drop_first() =~= hay@.subrange(i + 1, hay@.len() as int));
                } else {
                    let next = hay@.subrange(i + 1, hay@.len() as int);
                    assert(replaced(next, from@, to@) == next);
                    assert(seq![rest[0]] + next =~= rest);
                }
            }
            out.push(hay[i]);
            i += 1;
        }
    }
    out
}

} // verus!
