//! Stable insertion sort, specified once over any element type with a
//! string-valued sort key. The device catalog sorts descriptors by display
//! name; the rule store sorts filenames. A new element is inserted behind
//! every element whose key is not greater, so elements with equal keys keep
//! their original order.

use vstd::prelude::*;
use vstd::seq_lib::group_to_multiset_ensures;
use vstd::seq_lib::lemma_multiset_commutative;
use vstd::multiset::group_multiset_axioms;

use crate::text::lemma_lex_lt_connected;
use crate::text::lemma_lex_lt_trans;
use crate::text::lex_le;
use crate::text::lex_lt;

verus! {

/// `s` with `d` inserted before the first element of strictly greater key.
pub open spec fn insert_sorted_by<A>(key: spec_fn(A) -> Seq<char>, d: A, s: Seq<A>) -> Seq<A>
    decreases s.len(),
{
    if s.len() == 0 {
        seq![d]
    } else if lex_lt(key(d), key(s[0])) {
        seq![d] + s
    } else {
        seq![s[0]] + insert_sorted_by(key, d, s.drop_first())
    }
}

/// Sort `s` by key, stably: elements are inserted in encounter order.
pub open spec fn sort_by_key<A>(key: spec_fn(A) -> Seq<char>, s: Seq<A>) -> Seq<A>
    decreases s.len(),
{
    if s.len() == 0 {
        Seq::empty()
    } else {
        insert_sorted_by(key, s.last(), sort_by_key(key, s.drop_last()))
    }
}

/// Keys appear in non-decreasing lexicographic order.
pub open spec fn sorted_by_key<A>(key: spec_fn(A) -> Seq<char>, s: Seq<A>) -> bool {
    forall|i: int, j: int| 0 <= i < j < s.len() ==> lex_le(key(s[i]), key(s[j]))
}

/// Where the first strictly greater key sits at `pos`, the insertion
/// splices `d` in at exactly that position.
pub proof fn lemma_insert_sorted_by_at<A>(key: spec_fn(A) -> Seq<char>, d: A, s: Seq<A>, pos: int)
    requires
        0 <= pos <= s.len(),
        forall|j: int| 0 <= j < pos ==> !lex_lt(key(d), key(s[j])),
        pos < s.len() ==> lex_lt(key(d), key(s[pos])),
    ensures
        insert_sorted_by(key, d, s) == s.take(pos) + seq![d] + s.skip(pos),
    decreases pos,
{
    if pos == 0 {
        if s.len() == 0 {
            assert(insert_sorted_by(key, d, s) =~= s.take(0) + seq![d] + s.skip(0));
        } else {
            assert(lex_lt(key(d), key(s[0])));
            assert(insert_sorted_by(key, d, s) =~= s.take(0) + seq![d] + s.skip(0));
        }
    } else {
        assert(!lex_lt(key(d), key(s[0])));
        let rest = s.drop_first();
        assert(forall|j: int| 0 <= j < pos - 1 ==> rest[j] == s[j + 1]);
        assert(pos - 1 < rest.len() ==> lex_lt(key(d), key(rest[pos - 1])));
        lemma_insert_sorted_by_at(key, d, rest, pos - 1);
        assert(insert_sorted_by(key, d, s) == seq![s[0]] + (rest.take(pos - 1) + seq![d]
            + rest.skip(pos - 1)));
        assert(seq![s[0]] + (rest.take(pos - 1) + seq![d] + rest.skip(pos - 1)) =~= s.take(pos)
            + seq![d] + s.skip(pos));
    }
}

/// Insertion adds exactly one occurrence of `d`.
pub proof fn lemma_insert_sorted_by_multiset<A>(key: spec_fn(A) -> Seq<char>, d: A, s: Seq<A>)
    ensures
        insert_sorted_by(key, d, s).to_multiset() == s.to_multiset().insert(d),
    decreases s.len(),
{
    broadcast use group_to_multiset_ensures;
    broadcast use group_multiset_axioms;

    if s.len() == 0 {
        assert(seq![d] =~= Seq::<A>::empty().push(d));
        assert(insert_sorted_by(key, d, s).to_multiset() =~= s.to_multiset().insert(d));
    } else if lex_lt(key(d), key(s[0])) {
        lemma_multiset_commutative(seq![d], s);
        assert(s.push(d) =~= s + seq![d]);
        lemma_multiset_commutative(s, seq![d]);
        assert((seq![d] + s).to_multiset() =~= s.to_multiset().insert(d));
    } else {
        let rest = s.drop_first();
        lemma_insert_sorted_by_multiset(key, d, rest);
        lemma_multiset_commutative(seq![s[0]], insert_sorted_by(key, d, rest));
        lemma_multiset_commutative(seq![s[0]], rest);
        assert(s =~= seq![s[0]] + rest);
        assert(insert_sorted_by(key, d, s).to_multiset() =~= s.to_multiset().insert(d));
    }
}

/// Sorting permutes: the multiset of elements is unchanged.
pub proof fn lemma_sort_by_key_multiset<A>(key: spec_fn(A) -> Seq<char>, s: Seq<A>)
    ensures
        sort_by_key(key, s).to_multiset() == s.to_multiset(),
    decreases s.len(),
{
    broadcast use group_to_multiset_ensures;
    broadcast use group_multiset_axioms;

    if s.len() > 0 {
        lemma_sort_by_key_multiset(key, s.drop_last());
        lemma_insert_sorted_by_multiset(key, s.last(), sort_by_key(key, s.drop_last()));
        assert(s.drop_last().push(s.last()) =~= s);
        assert(sort_by_key(key, s).to_multiset() =~= s.to_multiset());
    }
}

/// Sorting keeps exactly the original elements.
pub proof fn lemma_sort_by_key_contains<A>(key: spec_fn(A) -> Seq<char>, s: Seq<A>, x: A)
    ensures
        sort_by_key(key, s).contains(x) <==> s.contains(x),
{
    broadcast use group_to_multiset_ensures;

    lemma_sort_by_key_multiset(key, s);
    assert(s.contains(x) <==> s.to_multiset().count(x) > 0);
    assert(sort_by_key(key, s).contains(x) <==> sort_by_key(key, s).to_multiset().count(x) > 0);
}

/// Inserting into a sorted sequence keeps it sorted.
pub proof fn lemma_insert_sorted_by_sorted<A>(key: spec_fn(A) -> Seq<char>, d: A, s: Seq<A>)
    requires
        sorted_by_key(key, s),
    ensures
        sorted_by_key(key, insert_sorted_by(key, d, s)),
    decreases s.len(),
{
    let r = insert_sorted_by(key, d, s);
    if s.len() == 0 {
        assert(sorted_by_key(key, r));
    } else if lex_lt(key(d), key(s[0])) {
        assert forall|i: int, j: int| 0 <= i < j < r.len() implies lex_le(key(r[i]), key(r[j])) by {
            if i == 0 {
                assert(r[j] == s[j - 1]);
                if j == 1 {
                    assert(lex_le(key(d), key(s[0])));
                } else {
                    assert(lex_le(key(s[0]), key(s[j - 1])));
                    lemma_lex_lt_trans_le(key(d), key(s[0]), key(s[j - 1]));
                }
            } else {
                assert(r[i] == s[i - 1] && r[j] == s[j - 1]);
            }
        }
    } else {
        let rest = s.drop_first();
        assert forall|i: int, j: int| 0 <= i < j < rest.len() implies lex_le(
            key(rest[i]),
            key(rest[j]),
        ) by {
            assert(rest[i] == s[i + 1]);
            assert(rest[j] == s[j + 1]);
        }
        assert(sorted_by_key(key, rest));
        lemma_insert_sorted_by_sorted(key, d, rest);
        let tail = insert_sorted_by(key, d, rest);
        lemma_lex_lt_connected(key(d), key(s[0]));
        assert(lex_le(key(s[0]), key(d)));
        assert forall|m: int| 0 <= m < tail.len() implies lex_le(key(s[0]), key(tail[m])) by {
            broadcast use group_to_multiset_ensures;

            lemma_insert_sorted_by_multiset(key, d, rest);
            assert(tail.contains(tail[m]));
            assert(tail.to_multiset().count(tail[m]) > 0);
            if tail[m] == d {
                assert(lex_le(key(s[0]), key(tail[m])));
            } else {
                broadcast use vstd::multiset::group_multiset_axioms;

                assert(rest.to_multiset().count(tail[m]) > 0);
                assert(rest.contains(tail[m]));
                let w = choose|w: int| 0 <= w < rest.len() && rest[w] == tail[m];
                assert(s[w + 1] == rest[w]);
                assert(lex_le(key(s[0]), key(s[w + 1])));
            }
        }
        assert forall|i: int, j: int| 0 <= i < j < r.len() implies lex_le(key(r[i]), key(r[j])) by {
            if i == 0 {
                assert(r[j] == tail[j - 1]);
            } else {
                assert(r[i] == tail[i - 1] && r[j] == tail[j - 1]);
                assert(lex_le(key(tail[i - 1]), key(tail[j - 1])));
            }
        }
    }
}

/// The result of `sort_by_key` is sorted.
pub proof fn lemma_sort_by_key_sorted<A>(key: spec_fn(A) -> Seq<char>, s: Seq<A>)
    ensures
        sorted_by_key(key, sort_by_key(key, s)),
    decreases s.len(),
{
    if s.len() > 0 {
        lemma_sort_by_key_sorted(key, s.drop_last());
        lemma_insert_sorted_by_sorted(key, s.last(), sort_by_key(key, s.drop_last()));
    }
}

/// `lex_lt` then `lex_le` composes to `lex_le`.
proof fn lemma_lex_lt_trans_le(a: Seq<char>, b: Seq<char>, c: Seq<char>)
    requires
        lex_lt(a, b),
        lex_le(b, c),
    ensures
        lex_le(a, c),
{
    if b != c {
        lemma_lex_lt_trans(a, b, c);
    }
}

} // verus!
