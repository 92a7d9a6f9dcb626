//! The sorter: a stable insertion sort of processed entries by the tiered
//! key (tier, case-folded name), with its ordering laws.
use vstd::prelude::*;

use crate::entry::ProcessedEntry;
use crate::entry::tier_rank;
use crate::entry::tier_rank_ex;
use crate::text::lemma_lex_lt_asymmetric;
use crate::text::lemma_lex_lt_transitive;
use crate::text::lex_lt;
use crate::text::str_lex_lt;

verus! {

/// Strict order on the sort key: tier dominates, names break ties,
/// case-insensitively and ascending.
pub open spec fn key_lt(a: ProcessedEntry, b: ProcessedEntry) -> bool {
    tier_rank(a.tier) < tier_rank(b.tier) || (tier_rank(a.tier) == tier_rank(b.tier) && lex_lt(
        a.sort_name@,
        b.sort_name@,
    ))
}

pub proof fn lemma_key_lt_asymmetric(a: ProcessedEntry, b: ProcessedEntry)
    requires
        key_lt(a, b),
    ensures
        !key_lt(b, a),
{
    if tier_rank(a.tier) == tier_rank(b.tier) {
        lemma_lex_lt_asymmetric(a.sort_name@, b.sort_name@);
    }
}

pub proof fn lemma_key_lt_transitive(a: ProcessedEntry, b: ProcessedEntry, c: ProcessedEntry)
    requires
        key_lt(a, b),
        key_lt(b, c),
    ensures
        key_lt(a, c),
{
    if tier_rank(a.tier) == tier_rank(b.tier) && tier_rank(b.tier) == tier_rank(c.tier) {
        lemma_lex_lt_transitive(a.sort_name@, b.sort_name@, c.sort_name@);
    }
}

/// No later entry is strictly below an earlier one.
pub open spec fn entries_sorted(s: Seq<ProcessedEntry>) -> bool {
    forall|i: int, j: int| 0 <= i < j < s.len() ==> !key_lt(s[j], s[i])
}

/// Insert `x` before the first element strictly above it, so after every
/// element it ties with: the stable insertion.
pub open spec fn ins(m: Seq<ProcessedEntry>, x: ProcessedEntry) -> Seq<ProcessedEntry>
    decreases m.len(),
{
    if m.len() == 0 {
        seq![x]
    } else if key_lt(x, m[0]) {
        seq![x] + m
    } else {
        seq![m[0]] + ins(m.drop_first(), x)
    }
}

/// The stable sort of a processed set: each entry inserted, in collection
/// order, into the sorted run of those before it.
pub open spec fn sort_rep(s: Seq<ProcessedEntry>) -> Seq<ProcessedEntry>
    decreases s.len(),
{
    if s.len() == 0 {
        s
    } else {
        ins(sort_rep(s.drop_last()), s.last())
    }
}

/// `ins` places `x` exactly at the first index whose element is strictly
/// above `x`, leaving everything else in place.
proof fn lemma_ins_at(m: Seq<ProcessedEntry>, x: ProcessedEntry, j: int)
    requires
        0 <= j <= m.len(),
        forall|k: int| 0 <= k < j ==> !key_lt(x, m[k]),
        j < m.len() ==> key_lt(x, m[j]),
    ensures
        ins(m, x) == m.take(j) + seq![x] + m.skip(j),
    decreases m.len(),
{
    if m.len() == 0 {
        assert(ins(m, x) =~= m.take(j) + seq![x] + m.skip(j));
    } else if key_lt(x, m[0]) {
        assert(j == 0);
        assert(ins(m, x) =~= m.take(0) + seq![x] + m.skip(0));
    } else {
        assert(j >= 1);
        lemma_ins_at(m.drop_first(), x, j - 1);
        assert(m.drop_first().take(j - 1) =~= m.take(j).drop_first());
        assert(m.drop_first().skip(j - 1) =~= m.skip(j));
        assert(seq![m[0]] + (m.take(j).drop_first() + seq![x] + m.skip(j)) =~= m.take(j)
            + seq![x] + m.skip(j));
    }
}

proof fn lemma_ins_sorted(m: Seq<ProcessedEntry>, x: ProcessedEntry)
    requires
        entries_sorted(m),
    ensures
        entries_sorted(ins(m, x)),
{
    let j = lemma_first_above(m, x);
    let r = m.take(j) + seq![x] + m.skip(j);
    assert forall|p: int, q: int| 0 <= p < q < r.len() implies !key_lt(r[q], r[p]) by {
        if p < j {
            assert(r[p] == m[p]);
        }
        if q > j {
            assert(r[q] == m[q - 1]);
        }
        if q == j {
            // r[q] is x, which the first j elements do not exceed.
            assert(!key_lt(x, m[p]));
        } else if p == j {
            // r[p] is x, strictly below m[j], which the rest do not exceed.
            assert(key_lt(x, m[j]));
            if q - 1 == j {
                lemma_key_lt_asymmetric(x, m[j]);
            } else if key_lt(m[q - 1], x) {
                lemma_key_lt_transitive(m[q - 1], x, m[j]);
                assert(!key_lt(m[q - 1], m[j]));
            }
        }
    }
}

proof fn lemma_first_above(m: Seq<ProcessedEntry>, x: ProcessedEntry) -> (j: int)
    ensures
        0 <= j <= m.len(),
        forall|k: int| 0 <= k < j ==> !key_lt(x, m[k]),
        j < m.len() ==> key_lt(x, m[j]),
        ins(m, x) == m.take(j) + seq![x] + m.skip(j),
    decreases m.len(),
{
    if m.len() == 0 {
        lemma_ins_at(m, x, 0);
        0
    } else if key_lt(x, m[0]) {
        lemma_ins_at(m, x, 0);
        0
    } else {
        let j = lemma_first_above(m.drop_first(), x) + 1;
        assert(forall|k: int| 1 <= k < j ==> m[k] == m.drop_first()[k - 1]);
        lemma_ins_at(m, x, j);
        j
    }
}

pub proof fn lemma_sort_sorted(s: Seq<ProcessedEntry>)
    ensures
        entries_sorted(sort_rep(s)),
    decreases s.len(),
{
    if s.len() > 0 {
        lemma_sort_sorted(s.drop_last());
        lemma_ins_sorted(sort_rep(s.drop_last()), s.last());
    }
}

/// Sorting leaves an already-sorted set untouched.
pub proof fn lemma_sort_of_sorted(s: Seq<ProcessedEntry>)
    requires
        entries_sorted(s),
    ensures
        sort_rep(s) == s,
    decreases s.len(),
{
    if s.len() > 0 {
        let front = s.drop_last();
        let x = s.last();
        lemma_sort_of_sorted(front);
        lemma_ins_at(front, x, front.len() as int);
        assert(front.take(front.len() as int) =~= front);
        assert(front.skip(front.len() as int) =~= Seq::<ProcessedEntry>::empty());
        assert(front + seq![x] + Seq::<ProcessedEntry>::empty() =~= s);
    }
}

proof fn lemma_ins_membership(m: Seq<ProcessedEntry>, x: ProcessedEntry)
    ensures
        forall|k: int|
            0 <= k < ins(m, x).len() ==> ins(m, x)[k] == x || m.contains(#[trigger] ins(m, x)[k]),
{
    let j = lemma_first_above(m, x);
    let r = m.take(j) + seq![x] + m.skip(j);
    assert forall|k: int| 0 <= k < r.len() implies r[k] == x || m.contains(r[k]) by {
        if k < j {
            assert(r[k] == m[k]);
        } else if k > j {
            assert(r[k] == m[k - 1]);
        }
    }
}

/// Every sorted entry is one of the entries that went in.
pub proof fn lemma_sort_membership(s: Seq<ProcessedEntry>)
    ensures
        forall|k: int| 0 <= k < sort_rep(s).len() ==> s.contains(#[trigger] sort_rep(s)[k]),
    decreases s.len(),
{
    if s.len() > 0 {
        let front = s.drop_last();
        lemma_sort_membership(front);
        lemma_ins_membership(sort_rep(front), s.last());
        assert forall|k: int| 0 <= k < sort_rep(s).len() implies s.contains(
            #[trigger] sort_rep(s)[k],
        ) by {
            let e = sort_rep(s)[k];
            if e == s.last() {
                assert(s[s.len() - 1] == e);
            } else {
                assert(sort_rep(front).contains(e));
                let j = choose|j: int| 0 <= j < front.len() && front[j] == e;
                assert(s[j] == e);
            }
        }
    }
}

proof fn lemma_ins_len(m: Seq<ProcessedEntry>, x: ProcessedEntry)
    ensures
        ins(m, x).len() == m.len() + 1,
    decreases m.len(),
{
    if m.len() > 0 && !key_lt(x, m[0]) {
        lemma_ins_len(m.drop_first(), x);
    }
}

/// Sorting keeps the number of entries.
pub proof fn lemma_sort_len(s: Seq<ProcessedEntry>)
    ensures
        sort_rep(s).len() == s.len(),
    decreases s.len(),
{
    if s.len() > 0 {
        lemma_sort_len(s.drop_last());
        lemma_ins_len(sort_rep(s.drop_last()), s.last());
    }
}

/// Sorting is idempotent: sorting twice yields the same order as sorting
/// once.
pub proof fn lemma_sort_idempotent(s: Seq<ProcessedEntry>)
    ensures
        sort_rep(sort_rep(s)) == sort_rep(s),
{
    lemma_sort_sorted(s);
    lemma_sort_of_sorted(sort_rep(s));
}

/// Whether `a` sorts strictly before `b`.
pub fn key_lt_ex(a: &ProcessedEntry, b: &ProcessedEntry) -> (r: bool)
    ensures
        r == key_lt(*a, *b),
{
    let ra = tier_rank_ex(a.tier);
    let rb = tier_rank_ex(b.tier);
    if ra < rb {
        true
    } else if ra > rb {
        false
    } else {
        str_lex_lt(a.sort_name.as_str(), b.sort_name.as_str())
    }
}

/// Stable sort of the processed set by the tiered key, ascending.
pub fn sort_entries(v: &mut Vec<ProcessedEntry>)
    ensures
        final(v)@ == sort_rep(old(v)@),
        entries_sorted(final(v)@),
{
    proof {
        lemma_sort_sorted(old(v)@);
    }
    let n = v.len();
    if n == 0 {
        proof {
            assert(v@ =~= sort_rep(old(v)@));
        }
        return ;
    }
    let mut i: usize = 1;
    proof {
        let s1 = old(v)@.take(1);
        assert(s1.len() == 1);
        assert(entries_sorted(s1));
        lemma_sort_of_sorted(s1);
        assert(v@.take(1) =~= s1);
    }
    while i < n
        invariant
            1 <= i <= n,
            n == v@.len(),
            v@.len() == old(v)@.len(),
            v@.take(i as int) == sort_rep(old(v)@.take(i as int)),
            v@.skip(i as int) == old(v)@.skip(i as int),
        decreases n - i,
    {
        let ghost vpre = v@;
        let ghost sorted_pre = sort_rep(old(v)@.take(i as int));
        let x = v.remove(i);
        proof {
            assert(forall|k: int| i <= k < n ==> vpre.skip(i as int)[k - i] == vpre[k]);
            assert(forall|k: int|
                i <= k < n ==> old(v)@.skip(i as int)[k - i] == old(v)@[k]);
            assert(forall|k: int| i <= k < n ==> vpre[k] == old(v)@[k]);
            assert(x == old(v)@[i as int]);
            assert(forall|k: int| 0 <= k < i ==> v@[k] == vpre[k]);
            assert(forall|k: int| i <= k < n - 1 ==> v@[k] == vpre[k + 1]);
            assert(v@.take(i as int) =~= sorted_pre) by {
                assert(forall|k: int| 0 <= k < i ==> vpre.take(i as int)[k] == vpre[k]);
            }
            assert(v@.skip(i as int) =~= old(v)@.skip(i + 1));
        }
        let mut j: usize = 0;
        while j < i && !key_lt_ex(&x, &v[j])
            invariant
                0 <= j <= i,
                i < n,
                n == v@.len() + 1,
                v@.take(i as int) == sorted_pre,
                x == old(v)@[i as int],
                forall|k: int| 0 <= k < j ==> !key_lt(x, sorted_pre[k]),
            decreases i - j,
        {
            proof {
                assert(v@[j as int] == v@.take(i as int)[j as int]);
            }
            j = j + 1;
        }
        proof {
            if j < i {
                assert(v@[j as int] == v@.take(i as int)[j as int]);
                assert(key_lt(x, sorted_pre[j as int]));
            }
            lemma_ins_at(sorted_pre, x, j as int);
        }
        let ghost vmid = v@;
        v.insert(j, x);
        i = i + 1;
        proof {
            let si = old(v)@.take(i as int);
            assert(si.drop_last() =~= old(v)@.take(i - 1));
            assert(si.last() == old(v)@[i - 1]);
            assert(sort_rep(si) == ins(sorted_pre, x));
            assert(v@.take(i as int) =~= sorted_pre.take(j as int) + seq![x] + sorted_pre.skip(
                j as int,
            )) by {
                assert(forall|k: int| 0 <= k < j ==> v@[k] == vmid[k]);
                assert(forall|k: int| j < k < i ==> v@[k] == vmid[k - 1]);
                assert(forall|k: int| 0 <= k < i - 1 ==> vmid[k] == vmid.take(i - 1)[k]);
            }
            assert(v@.take(i as int) == sort_rep(old(v)@.take(i as int)));
            assert(v@.skip(i as int) =~= old(v)@.skip(i as int)) by {
                assert(forall|k: int| i <= k < n ==> v@[k] == vmid[k - 1]);
                assert(forall|k: int|
                    i - 1 <= k < n - 1 ==> vmid[k] == vmid.skip(i - 1)[k - (i - 1)]);
            }
        }
    }
    proof {
        assert(old(v)@.take(n as int) =~= old(v)@);
        assert(v@.take(n as int) =~= v@);
    }
}

} // verus!
