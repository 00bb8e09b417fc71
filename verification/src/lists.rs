//! Facts about lists that stand for sets: lists in which nothing occurs twice.

use crate::text::{contains_text, same_text, texts};
use vstd::prelude::*;
use vstd::seq_lib::seq_to_set_is_finite;
use vstd::set_lib::{lemma_len_intersect, lemma_set_intersect_union_lens};

verus! {

/// Filtering a list keeps exactly the members that satisfy the predicate, and
/// keeps a duplicate-free list free of duplicates.
pub proof fn lemma_filter_members<A>(s: Seq<A>, pred: spec_fn(A) -> bool)
    ensures
        forall|x: A| #[trigger] s.filter(pred).contains(x) <==> s.contains(x) && pred(x),
        s.no_duplicates() ==> s.filter(pred).no_duplicates(),
    decreases s.len(),
{
    reveal(Seq::filter);
    if s.len() > 0 {
        let front = s.drop_last();
        let last = s.last();
        let kept = s.filter(pred);
        let kept_front = front.filter(pred);
        lemma_filter_members(front, pred);
        assert(s =~= front.push(last));
        assert(kept == if pred(last) {
            kept_front.push(last)
        } else {
            kept_front
        });
        assert forall|x: A| #[trigger] kept.contains(x) <==> s.contains(x) && pred(x) by {
            if kept.contains(x) {
                let i = choose|i: int| 0 <= i < kept.len() && kept[i] == x;
                if i < kept_front.len() {
                    assert(kept_front[i] == x);
                    assert(kept_front.contains(x));
                    let j = choose|j: int| 0 <= j < front.len() && front[j] == x;
                    assert(s[j] == x);
                } else {
                    assert(s[s.len() - 1] == x);
                }
            }
            if s.contains(x) && pred(x) {
                let j = choose|j: int| 0 <= j < s.len() && s[j] == x;
                if j == s.len() - 1 {
                    assert(kept[kept_front.len() as int] == x);
                } else {
                    assert(front[j] == x);
                    assert(front.contains(x));
                    assert(kept_front.contains(x));
                    let i = choose|i: int| 0 <= i < kept_front.len() && kept_front[i] == x;
                    assert(kept[i] == x);
                }
            }
        }
        if s.no_duplicates() {
            assert(front.no_duplicates());
            if pred(last) && kept_front.contains(last) {
                let j = choose|j: int| 0 <= j < front.len() && front[j] == last;
                assert(s[j] == s[s.len() - 1]);
            }
        }
    }
}

/// How many values the sets of `a` and `b` share.
pub open spec fn common<A>(a: Seq<A>, b: Seq<A>) -> nat {
    a.to_set().intersect(b.to_set()).len()
}

/// How many values the sets of `a` and `b` hold together.
pub open spec fn combined<A>(a: Seq<A>, b: Seq<A>) -> nat {
    a.to_set().union(b.to_set()).len()
}

/// A new member of `a` adds one to the shared count exactly when `b` holds it.
pub proof fn lemma_common_push<A>(a: Seq<A>, x: A, b: Seq<A>)
    requires
        !a.contains(x),
    ensures
        common(a.push(x), b) == common(a, b) + if b.contains(x) {
            1nat
        } else {
            0nat
        },
{
    a.lemma_push_to_set_commute(x);
    seq_to_set_is_finite(a);
    seq_to_set_is_finite(b);
    let sa = a.to_set();
    let sb = b.to_set();
    if b.contains(x) {
        assert(sa.insert(x).intersect(sb) =~= sa.intersect(sb).insert(x));
    } else {
        assert(sa.insert(x).intersect(sb) =~= sa.intersect(sb));
    }
}

/// For duplicate-free lists the shared and the joint count add up to the two
/// lengths.
pub proof fn lemma_common_combined<A>(a: Seq<A>, b: Seq<A>)
    requires
        a.no_duplicates(),
        b.no_duplicates(),
    ensures
        combined(a, b) + common(a, b) == a.len() + b.len(),
        common(a, b) <= a.len(),
        common(a, b) <= b.len(),
{
    a.unique_seq_to_set();
    b.unique_seq_to_set();
    seq_to_set_is_finite(a);
    seq_to_set_is_finite(b);
    lemma_set_intersect_union_lens(a.to_set(), b.to_set());
    lemma_len_intersect(a.to_set(), b.to_set());
    lemma_len_intersect(b.to_set(), a.to_set());
    assert(b.to_set().intersect(a.to_set()) =~= a.to_set().intersect(b.to_set()));
}

/// A list compared with itself shares and joins exactly its own members;
/// there is at least one when the list is not empty.
pub proof fn lemma_common_self<A>(a: Seq<A>)
    ensures
        common(a, a) == a.to_set().len(),
        combined(a, a) == a.to_set().len(),
        a.len() > 0 ==> a.to_set().len() > 0,
{
    assert(a.to_set().intersect(a.to_set()) =~= a.to_set());
    assert(a.to_set().union(a.to_set()) =~= a.to_set());
    if a.len() > 0 {
        seq_to_set_is_finite(a);
        assert(a.to_set().contains(a[0]));
        if a.to_set().len() == 0 {
            a.to_set().lemma_len0_is_empty();
        }
    }
}

/// Counts the strings of `a` that also occur in `b`.
pub fn count_common(a: &Vec<String>, b: &Vec<String>) -> (n: usize)
    requires
        texts(a@).no_duplicates(),
    ensures
        n == common(texts(a@), texts(b@)),
        n <= a@.len(),
{
    let mut n: usize = 0;
    let mut i: usize = 0;
    assert(texts(a@).take(0).to_set().intersect(texts(b@).to_set()) =~= Set::<Seq<char>>::empty());
    while i < a.len()
        invariant
            texts(a@).no_duplicates(),
            i <= a@.len(),
            n <= i,
            n == common(texts(a@).take(i as int), texts(b@)),
        decreases a@.len() - i,
    {
        proof {
            let all = texts(a@);
            assert(all.take(i + 1) =~= all.take(i as int).push(all[i as int]));
            if all.take(i as int).contains(all[i as int]) {
                let j = choose|j: int| 0 <= j < i && all.take(i as int)[j] == all[i as int];
                assert(all[j] == all[i as int]);
            }
            lemma_common_push(all.take(i as int), all[i as int], texts(b@));
        }
        if contains_text(b, a[i].as_str()) {
            n += 1;
        }
        i += 1;
    }
    assert(texts(a@).take(i as int) == texts(a@));
    n
}

/// Tells whether no string occurs twice in `list`.
pub fn all_distinct(list: &Vec<String>) -> (distinct: bool)
    ensures
        distinct == texts(list@).no_duplicates(),
{
    let mut i: usize = 0;
    while i < list.len()
        invariant
            i <= list@.len(),
            texts(list@).take(i as int).no_duplicates(),
        decreases list@.len() - i,
    {
        let mut j: usize = 0;
        while j < i
            invariant
                j <= i < list@.len(),
                forall|k: int| 0 <= k < j ==> texts(list@)[k] != texts(list@)[i as int],
            decreases i - j,
        {
            if same_text(list[j].as_str(), list[i].as_str()) {
                assert(texts(list@)[j as int] == texts(list@)[i as int]);
                return false;
            }
            j += 1;
        }
        assert(texts(list@).take(i + 1) =~= texts(list@).take(i as int).push(
            texts(list@)[i as int],
        ));
        i += 1;
    }
    assert(texts(list@).take(i as int) =~= texts(list@));
    true
}

} // verus!
