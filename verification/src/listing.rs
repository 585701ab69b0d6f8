//! Sets of strings kept as strictly ascending lists, and their
//! comma-separated rendering.
use vstd::prelude::*;

use crate::text::{seq_lt, lemma_seq_lt_irreflexive, lemma_seq_lt_total, lemma_seq_lt_transitive, string_lt};
use crate::shell::strings_view;

verus! {

/// Every element sorts strictly before every later one.
pub open spec fn sorted_strict(s: Seq<Seq<char>>) -> bool {
    forall|i: int, j: int| 0 <= i < j < s.len() ==> seq_lt(#[trigger] s[i], #[trigger] s[j])
}

/// The elements of a finite set of texts in ascending order.
pub open spec fn sorted_listing(s: Set<Seq<char>>) -> Seq<Seq<char>> {
    choose|l: Seq<Seq<char>>| sorted_strict(l) && l.to_set() == s
}

/// Two strictly ascending lists with the same elements are equal.
pub proof fn lemma_sorted_lists_equal(a: Seq<Seq<char>>, b: Seq<Seq<char>>)
    requires
        sorted_strict(a),
        sorted_strict(b),
        forall|x: Seq<char>| a.contains(x) <==> b.contains(x),
    ensures
        a == b,
    decreases a.len(),
{
    if a.len() == 0 {
        if b.len() > 0 {
            assert(b.contains(b[0]));
        }
        assert(a =~= b);
    } else if b.len() == 0 {
        assert(a.contains(a[0]));
    } else {
        // Both heads are the least element.
        assert(a.contains(a[0]));
        assert(b.contains(b[0]));
        let ia = choose|i: int| 0 <= i < a.len() && a[i] == b[0];
        let ib = choose|i: int| 0 <= i < b.len() && b[i] == a[0];
        if a[0] != b[0] {
            assert(ia != 0);
            assert(ib != 0);
            assert(seq_lt(a[0], a[ia]));
            assert(seq_lt(b[0], b[ib]));
            lemma_seq_lt_total(a[0], b[0]);
            assert(false);
        }
        let ra = a.drop_first();
        let rb = b.drop_first();
        assert forall|x: Seq<char>| ra.contains(x) <==> rb.contains(x) by {
            if ra.contains(x) {
                let k = choose|k: int| 0 <= k < ra.len() && ra[k] == x;
                assert(a[k + 1] == x);
                assert(seq_lt(a[0], x));
                lemma_seq_lt_irreflexive(x);
                assert(b.contains(x));
                let m = choose|m: int| 0 <= m < b.len() && b[m] == x;
                assert(m != 0);
                assert(rb[m - 1] == x);
            }
            if rb.contains(x) {
                let k = choose|k: int| 0 <= k < rb.len() && rb[k] == x;
                assert(b[k + 1] == x);
                assert(seq_lt(b[0], x));
                lemma_seq_lt_irreflexive(x);
                assert(a.contains(x));
                let m = choose|m: int| 0 <= m < a.len() && a[m] == x;
                assert(m != 0);
                assert(ra[m - 1] == x);
            }
        }
        assert(sorted_strict(ra)) by {
            assert forall|i: int, j: int| 0 <= i < j < ra.len() implies seq_lt(#[trigger] ra[i], #[trigger] ra[j]) by {
                assert(ra[i] == a[i + 1] && ra[j] == a[j + 1]);
            }
        }
        assert(sorted_strict(rb)) by {
            assert forall|i: int, j: int| 0 <= i < j < rb.len() implies seq_lt(#[trigger] rb[i], #[trigger] rb[j]) by {
                assert(rb[i] == b[i + 1] && rb[j] == b[j + 1]);
            }
        }
        lemma_sorted_lists_equal(ra, rb);
        assert(a =~= seq![a[0]] + ra);
        assert(b =~= seq![b[0]] + rb);
    }
}

/// A strictly ascending list is the sorted listing of its elements.
pub proof fn lemma_sorted_listing(l: Seq<Seq<char>>)
    requires
        sorted_strict(l),
    ensures
        sorted_listing(l.to_set()) == l,
{
    let c = sorted_listing(l.to_set());
    assert(sorted_strict(c) && c.to_set() == l.to_set());
    assert forall|x: Seq<char>| c.contains(x) <==> l.contains(x) by {
        assert(c.to_set().contains(x) == c.contains(x));
        assert(l.to_set().contains(x) == l.contains(x));
    }
    lemma_sorted_lists_equal(c, l);
}

/// Adds `x` to a strictly ascending list of texts, keeping it so.
pub fn insert_sorted(list: &mut Vec<String>, x: String)
    requires
        sorted_strict(strings_view(old(list)@)),
    ensures
        sorted_strict(strings_view(final(list)@)),
        strings_view(final(list)@).to_set() == strings_view(old(list)@).to_set().insert(x@),
{
    let ghost before = strings_view(list@);
    let mut k: usize = 0;
    while k < list.len() && string_lt(&list[k], &x)
        invariant
            k <= list@.len(),
            strings_view(list@) == before,
            before.len() == list@.len(),
            forall|i: int| 0 <= i < k ==> seq_lt(#[trigger] before[i], x@),
        decreases list@.len() - k,
    {
        k = k + 1;
    }
    if k < list.len() && list[k] == x {
        assert(before[k as int] == x@);
        assert(before.to_set() =~= before.to_set().insert(x@));
        return;
    }
    proof {
        if k < before.len() {
            assert(!seq_lt(before[k as int], x@));
            assert(before[k as int] != x@);
            lemma_seq_lt_total(before[k as int], x@);
        }
    }
    list.insert(k, x);
    let ghost after = strings_view(list@);
    assert(after =~= before.insert(k as int, x@));
    assert forall|i: int, j: int| 0 <= i < j < after.len() implies seq_lt(#[trigger] after[i], #[trigger] after[j]) by {
        if j < k {
            assert(after[i] == before[i] && after[j] == before[j]);
        } else if j == k {
            assert(after[i] == before[i]);
        } else if i == k {
            assert(after[j] == before[j - 1]);
            if j - 1 > k {
                assert(seq_lt(before[k as int], before[j - 1]));
                lemma_seq_lt_transitive(x@, before[k as int], before[j - 1]);
            }
        } else if i < k {
            assert(after[i] == before[i] && after[j] == before[j - 1]);
        } else {
            assert(after[i] == before[i - 1] && after[j] == before[j - 1]);
        }
    }
    assert forall|m: Seq<char>| after.to_set().contains(m) <==> before.to_set().insert(x@).contains(m) by {
        if after.contains(m) {
            let p = choose|p: int| 0 <= p < after.len() && after[p] == m;
            if p < k {
                assert(before[p] == m);
            } else if p > k {
                assert(before[p - 1] == m);
            }
        }
        if before.contains(m) {
            let p = choose|p: int| 0 <= p < before.len() && before[p] == m;
            if p < k {
                assert(after[p] == m);
            } else {
                assert(after[p + 1] == m);
            }
        }
        if m == x@ {
            assert(after[k as int] == m);
        }
    }
    assert(after.to_set() =~= before.to_set().insert(x@));
}

/// The texts of `s` separated by commas.
pub open spec fn join_commas(s: Seq<Seq<char>>) -> Seq<char>
    decreases s.len(),
{
    if s.len() == 0 {
        Seq::empty()
    } else if s.len() == 1 {
        s[0]
    } else {
        join_commas(s.drop_last()) + seq![','] + s.last()
    }
}

/// The texts of `list` separated by commas (`join(",")`).
pub fn join_with_commas(list: &Vec<String>) -> (result: String)
    ensures
        result@ == join_commas(strings_view(list@)),
{
    let ghost v = strings_view(list@);
    let mut out = String::new();
    let mut i: usize = 0;
    while i < list.len()
        invariant
            i <= list@.len(),
            v == strings_view(list@),
            v.len() == list@.len(),
            out@ == join_commas(v.take(i as int)),
        decreases list@.len() - i,
    {
        let ghost prefix = v.take(i as int);
        assert(v.take(i + 1).drop_last() =~= prefix);
        assert(v[i as int] == list@[i as int]@);
        if i > 0 {
            out.append(",");
            proof {
                reveal_strlit(",");
            }
        }
        out.append(list[i].as_str());
        proof {
            if i == 0 {
                assert(out@ =~= v.take(1)[0]);
            } else {
                assert(out@ =~= join_commas(prefix) + seq![','] + v[i as int]);
            }
        }
        i = i + 1;
    }
    assert(v.take(v.len() as int) =~= v);
    out
}

} // verus!
