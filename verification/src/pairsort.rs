//! Stable sorting of decoded query pairs by key.
//!
//! The canonical query string orders its pairs by key, ascending in the
//! lexicographic order of [`crate::chars::lex_le`], and pairs with equal
//! keys keep their textual order. [`sort_pairs`] says exactly which
//! sequence that is; the executable sort is proved to return it.

use vstd::prelude::*;

use crate::chars::lex_le;
use crate::chars::lex_le_chars;
use crate::chars::lemma_lex_total;
use crate::chars::lemma_lex_trans;
use crate::urlparse::pairs_view;

verus! {

/// `p` placed into the already-sorted `s`: before the first pair whose key
/// is strictly greater, hence after every pair with an equal key.
pub open spec fn insert_pair(
    p: (Seq<char>, Seq<char>),
    s: Seq<(Seq<char>, Seq<char>)>,
) -> Seq<(Seq<char>, Seq<char>)>
    decreases s.len(),
{
    if s.len() == 0 {
        seq![p]
    } else if !lex_le(s[0].0, p.0) {
        seq![p] + s
    } else {
        seq![s[0]] + insert_pair(p, s.drop_first())
    }
}

/// The stable by-key sort of `s`: pairs are placed left to right, each after
/// the pairs with an equal key that came before it.
pub open spec fn sort_pairs(s: Seq<(Seq<char>, Seq<char>)>) -> Seq<(Seq<char>, Seq<char>)>
    decreases s.len(),
{
    if s.len() == 0 {
        Seq::empty()
    } else {
        insert_pair(s.last(), sort_pairs(s.drop_last()))
    }
}

/// The keys of `s` are in ascending lexicographic order.
pub open spec fn sorted_by_key(s: Seq<(Seq<char>, Seq<char>)>) -> bool {
    forall|i: int, j: int| 0 <= i < j < s.len() ==> lex_le(#[trigger] s[i].0, #[trigger] s[j].0)
}

/// Inserting into a sorted sequence keeps it sorted.
pub proof fn lemma_insert_pair_sorted(p: (Seq<char>, Seq<char>), s: Seq<(Seq<char>, Seq<char>)>)
    requires
        sorted_by_key(s),
    ensures
        sorted_by_key(insert_pair(p, s)),
    decreases s.len(),
{
    if s.len() == 0 {
    } else if !lex_le(s[0].0, p.0) {
        let r = seq![p] + s;
        lemma_lex_total(s[0].0, p.0);
        assert forall|i: int, j: int| 0 <= i < j < r.len() implies lex_le(r[i].0, r[j].0) by {
            if i == 0 {
                assert(r[0].0 == p.0);
                if j == 1 {
                    assert(r[j] == s[0]);
                } else {
                    assert(r[j] == s[j - 1]);
                    lemma_lex_trans(p.0, s[0].0, s[j - 1].0);
                }
            } else {
                assert(r[i] == s[i - 1] && r[j] == s[j - 1]);
            }
        }
    } else {
        let tail = s.drop_first();
        assert(sorted_by_key(tail)) by {
            assert(forall|i: int, j: int|
                0 <= i < j < tail.len() ==> tail[i] == s[i + 1] && tail[j] == s[j + 1]);
        }
        lemma_insert_pair_sorted(p, tail);
        let it = insert_pair(p, tail);
        let r = seq![s[0]] + it;
        // every key in the inserted tail is at least s[0]'s key
        assert forall|j: int| 0 <= j < it.len() implies lex_le(s[0].0, #[trigger] it[j].0) by {
            lemma_insert_pair_head_bound(p, tail, s[0].0, j);
        }
        assert forall|i: int, j: int| 0 <= i < j < r.len() implies lex_le(r[i].0, r[j].0) by {
            if i == 0 {
                assert(r[j] == it[j - 1]);
            } else {
                assert(r[i] == it[i - 1] && r[j] == it[j - 1]);
            }
        }
    }
}

/// If a key bounds `p`'s key and every key of `s` from below, it bounds
/// every key of `insert_pair(p, s)` from below.
proof fn lemma_insert_pair_head_bound(
    p: (Seq<char>, Seq<char>),
    s: Seq<(Seq<char>, Seq<char>)>,
    lo: Seq<char>,
    j: int,
)
    requires
        lex_le(lo, p.0),
        forall|i: int| 0 <= i < s.len() ==> lex_le(lo, #[trigger] s[i].0),
        0 <= j < insert_pair(p, s).len(),
    ensures
        lex_le(lo, insert_pair(p, s)[j].0),
    decreases s.len(),
{
    if s.len() == 0 {
    } else if !lex_le(s[0].0, p.0) {
        let r = seq![p] + s;
        if j > 0 {
            assert(r[j] == s[j - 1]);
        }
    } else {
        let tail = s.drop_first();
        let r = seq![s[0]] + insert_pair(p, tail);
        if j > 0 {
            assert(forall|i: int| 0 <= i < tail.len() ==> tail[i] == s[i + 1]);
            lemma_insert_pair_head_bound(p, tail, lo, j - 1);
            assert(r[j] == insert_pair(p, tail)[j - 1]);
        }
    }
}

/// Where the executable sort places a pair is where [`insert_pair`] puts it:
/// at the first position whose key is strictly greater.
proof fn lemma_insert_pair_at(
    p: (Seq<char>, Seq<char>),
    s: Seq<(Seq<char>, Seq<char>)>,
    j: int,
)
    requires
        0 <= j <= s.len(),
        forall|i: int| 0 <= i < j ==> lex_le(#[trigger] s[i].0, p.0),
        j < s.len() ==> !lex_le(s[j].0, p.0),
    ensures
        insert_pair(p, s) =~= s.take(j) + seq![p] + s.skip(j),
    decreases j,
{
    if s.len() == 0 {
        assert(s.take(0) + seq![p] + s.skip(0) =~= seq![p]);
    } else if j == 0 {
        assert(s.take(0) + seq![p] + s.skip(0) =~= seq![p] + s);
    } else {
        let tail = s.drop_first();
        assert(forall|i: int| 0 <= i < j - 1 ==> tail[i] == s[i + 1]);
        assert(j - 1 < tail.len() ==> tail[j - 1] == s[j]);
        lemma_insert_pair_at(p, tail, j - 1);
        assert(seq![s[0]] + (tail.take(j - 1) + seq![p] + tail.skip(j - 1)) =~= s.take(j)
            + seq![p] + s.skip(j));
    }
}

/// What the sort returns is sorted by key.
pub proof fn lemma_sort_pairs_sorted(s: Seq<(Seq<char>, Seq<char>)>)
    ensures
        sorted_by_key(sort_pairs(s)),
    decreases s.len(),
{
    if s.len() > 0 {
        lemma_sort_pairs_sorted(s.drop_last());
        lemma_insert_pair_sorted(s.last(), sort_pairs(s.drop_last()));
    }
}

/// Inserting a pair whose key bounds every key from above appends it.
proof fn lemma_insert_pair_at_end(p: (Seq<char>, Seq<char>), s: Seq<(Seq<char>, Seq<char>)>)
    requires
        forall|i: int| 0 <= i < s.len() ==> lex_le(#[trigger] s[i].0, p.0),
    ensures
        insert_pair(p, s) =~= s.push(p),
    decreases s.len(),
{
    if s.len() == 0 {
        assert(insert_pair(p, s) =~= seq![p]);
    } else {
        let tail = s.drop_first();
        assert(forall|i: int| 0 <= i < tail.len() ==> tail[i] == s[i + 1]);
        lemma_insert_pair_at_end(p, tail);
        assert(seq![s[0]] + tail.push(p) =~= s.push(p));
    }
}

/// Sorting is idempotent: a sequence already sorted by key is returned
/// unchanged, so sorting twice is sorting once.
pub proof fn lemma_sort_pairs_idempotent(s: Seq<(Seq<char>, Seq<char>)>)
    ensures
        sorted_by_key(s) ==> sort_pairs(s) == s,
        sort_pairs(sort_pairs(s)) == sort_pairs(s),
{
    if sorted_by_key(s) {
        lemma_sort_pairs_idem_inner(s);
    }
    lemma_sort_pairs_sorted(s);
    lemma_sort_pairs_idem_inner(sort_pairs(s));
}

/// Helper: a sorted sequence sorts to itself.
proof fn lemma_sort_pairs_idem_inner(s: Seq<(Seq<char>, Seq<char>)>)
    requires
        sorted_by_key(s),
    ensures
        sort_pairs(s) == s,
    decreases s.len(),
{
    if s.len() > 0 {
        let front = s.drop_last();
        assert(forall|i: int| 0 <= i < front.len() ==> front[i] == s[i]);
        assert(sorted_by_key(front));
        lemma_sort_pairs_idem_inner(front);
        assert(forall|i: int| 0 <= i < front.len() ==> lex_le(#[trigger] front[i].0, s.last().0));
        lemma_insert_pair_at_end(s.last(), front);
        assert(front.push(s.last()) =~= s);
    }
}

/// Inserting a pair adds exactly that pair to the sequence's contents.
proof fn lemma_insert_pair_multiset(p: (Seq<char>, Seq<char>), s: Seq<(Seq<char>, Seq<char>)>)
    ensures
        insert_pair(p, s).to_multiset() == s.to_multiset().insert(p),
    decreases s.len(),
{
    broadcast use vstd::seq_lib::group_to_multiset_ensures;
    broadcast use vstd::seq_lib::lemma_multiset_commutative;

    if s.len() == 0 {
        assert(seq![p] =~= Seq::<(Seq<char>, Seq<char>)>::empty().push(p));
        assert(seq![p].to_multiset() =~= s.to_multiset().insert(p));
    } else if !lex_le(s[0].0, p.0) {
        assert(seq![p] + s =~= (Seq::<(Seq<char>, Seq<char>)>::empty().push(p)) + s);
        assert((seq![p] + s).to_multiset() =~= s.to_multiset().insert(p));
    } else {
        let tail = s.drop_first();
        lemma_insert_pair_multiset(p, tail);
        assert(seq![s[0]] =~= Seq::<(Seq<char>, Seq<char>)>::empty().push(s[0]));
        assert(seq![s[0]] + tail =~= s);
        assert((seq![s[0]] + insert_pair(p, tail)).to_multiset() =~= s.to_multiset().insert(p));
    }
}

/// Sorting permutes: no pair is lost or invented, multiplicities included.
pub proof fn lemma_sort_pairs_permutes(s: Seq<(Seq<char>, Seq<char>)>)
    ensures
        sort_pairs(s).to_multiset() == s.to_multiset(),
    decreases s.len(),
{
    broadcast use vstd::seq_lib::group_to_multiset_ensures;

    if s.len() > 0 {
        lemma_sort_pairs_permutes(s.drop_last());
        lemma_insert_pair_multiset(s.last(), sort_pairs(s.drop_last()));
        assert(s.drop_last().push(s.last()) =~= s);
        assert(s.drop_last().to_multiset().insert(s.last()) =~= s.to_multiset());
    }
}

/// Sorts query pairs by key, stably, consuming the input vector.
pub fn sort_pairs_exec(v: Vec<(Vec<char>, Vec<char>)>) -> (r: Vec<(Vec<char>, Vec<char>)>)
    ensures
        pairs_view(r@) == sort_pairs(pairs_view(v@)),
{
    let ghost full = pairs_view(v@);
    let mut rest = v;
    let mut out: Vec<(Vec<char>, Vec<char>)> = Vec::new();
    let ghost mut done: Seq<(Seq<char>, Seq<char>)> = Seq::empty();
    proof {
        assert(done + pairs_view(rest@) =~= full);
        assert(sort_pairs(done) =~= Seq::<(Seq<char>, Seq<char>)>::empty());
    }
    while rest.len() > 0
        invariant
            done + pairs_view(rest@) =~= full,
            pairs_view(out@) == sort_pairs(done),
            sorted_by_key(pairs_view(out@)),
        decreases rest@.len(),
    {
        let ghost old_rest = rest@;
        let ghost old_done = done;
        let p = rest.remove(0);
        proof {
            assert(pairs_view(old_rest)[0] == (p.0@, p.1@));
            assert(pairs_view(rest@) =~= pairs_view(old_rest).drop_first());
        }
        // find the first position whose key is strictly greater than p's
        let mut j: usize = 0;
        while j < out.len() && lex_le_chars(&out[j].0, &p.0)
            invariant
                j <= out@.len(),
                forall|i: int| 0 <= i < j ==> lex_le(#[trigger] pairs_view(out@)[i].0, p.0@),
            decreases out@.len() - j,
        {
            assert(pairs_view(out@)[j as int].0 == out@[j as int].0@);
            j = j + 1;
        }
        let ghost before = pairs_view(out@);
        proof {
            assert(j < out@.len() ==> pairs_view(out@)[j as int].0 == out@[j as int].0@);
        }
        out.insert(j, p);
        proof {
            let pv = (p.0@, p.1@);
            assert(pairs_view(out@) =~= before.take(j as int) + seq![pv] + before.skip(j as int));
            lemma_insert_pair_at(pv, before, j as int);
            lemma_insert_pair_sorted(pv, before);
            done = old_done.push(pv);
            assert(done.drop_last() =~= old_done);
            assert(done.last() == pv);
            assert(sort_pairs(done) == insert_pair(pv, sort_pairs(old_done)));
            assert(done + pairs_view(rest@) =~= full);
        }
    }
    proof {
        assert(pairs_view(rest@).len() == 0);
        assert(done =~= full);
    }
    out
}

} // verus!
