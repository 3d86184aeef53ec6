use vstd::prelude::*;

verus! {

/// The members of `s`, in order, whose presence in `other` is `inside`.
pub open spec fn keep_ids(s: Seq<i32>, other: Seq<i32>, inside: bool) -> Seq<i32>
    decreases s.len(),
{
    if s.len() == 0 {
        Seq::empty()
    } else {
        let prev = keep_ids(s.drop_last(), other, inside);
        if other.contains(s.last()) == inside {
            prev.push(s.last())
        } else {
            prev
        }
    }
}

pub proof fn lemma_keep_ids_contains(s: Seq<i32>, other: Seq<i32>, inside: bool, x: i32)
    ensures
        keep_ids(s, other, inside).contains(x) <==> (s.contains(x) && other.contains(x) == inside),
    decreases s.len(),
{
    if s.len() > 0 {
        lemma_keep_ids_contains(s.drop_last(), other, inside, x);
        let prev = keep_ids(s.drop_last(), other, inside);
        if s.contains(x) && x != s.last() {
            let k = choose|k: int| 0 <= k < s.len() && s[k] == x;
            assert(s.drop_last()[k] == x);
        }
        if s.drop_last().contains(x) {
            let k = choose|k: int| 0 <= k < s.drop_last().len() && s.drop_last()[k] == x;
            assert(s[k] == x);
        }
        if other.contains(s.last()) == inside {
            assert(prev.push(s.last())[prev.len() as int] == s.last());
            if prev.push(s.last()).contains(x) && x != s.last() {
                let k = choose|k: int| 0 <= k < prev.push(s.last()).len() && prev.push(s.last())[k] == x;
                assert(prev[k] == x);
            }
            if prev.contains(x) {
                let k = choose|k: int| 0 <= k < prev.len() && prev[k] == x;
                assert(prev.push(s.last())[k] == x);
            }
        }
        assert(s[s.len() - 1] == s.last());
    }
}

pub proof fn lemma_keep_ids_no_duplicates(s: Seq<i32>, other: Seq<i32>, inside: bool)
    requires
        s.no_duplicates(),
    ensures
        keep_ids(s, other, inside).no_duplicates(),
    decreases s.len(),
{
    if s.len() > 0 {
        let d = s.drop_last();
        assert(d.no_duplicates()) by {
            assert forall|i: int, j: int| 0 <= i < d.len() && 0 <= j < d.len() && i != j implies d[i] != d[j] by {
                assert(d[i] == s[i] && d[j] == s[j]);
            }
        }
        lemma_keep_ids_no_duplicates(d, other, inside);
        let prev = keep_ids(d, other, inside);
        if other.contains(s.last()) == inside {
            lemma_keep_ids_contains(d, other, inside, s.last());
            assert(!d.contains(s.last())) by {
                if d.contains(s.last()) {
                    let k = choose|k: int| 0 <= k < d.len() && d[k] == s.last();
                    assert(s[k] == s[s.len() - 1]);
                }
            }
            let q = prev.push(s.last());
            assert forall|i: int, j: int| 0 <= i < q.len() && 0 <= j < q.len() && i != j implies q[i] != q[j] by {
                if i < prev.len() && j < prev.len() {
                    assert(q[i] == prev[i] && q[j] == prev[j]);
                } else if i < prev.len() {
                    assert(prev.contains(q[i]));
                } else if j < prev.len() {
                    assert(prev.contains(q[j]));
                }
            }
        }
    }
}

/// How a snapshot changes the stored members of one endpoint, by identity id.
#[derive(Debug, Clone)]
pub struct ReconcilePlan {
    /// Incoming members without a stored row.
    pub to_add: Vec<i32>,
    /// Incoming members with a stored row.
    pub to_update: Vec<i32>,
    /// Stored members missing from the snapshot.
    pub to_delete: Vec<i32>,
}

/// The plan that takes stored members `existing` to incoming members `incoming`.
pub open spec fn is_reconcile_plan(existing: Seq<i32>, incoming: Seq<i32>, p: ReconcilePlan) -> bool {
    &&& p.to_add@ == keep_ids(incoming, existing, false)
    &&& p.to_update@ == keep_ids(incoming, existing, true)
    &&& p.to_delete@ == keep_ids(existing, incoming, false)
}

fn ids_contain(s: &Vec<i32>, x: i32) -> (r: bool)
    ensures
        r == s@.contains(x),
{
    let mut i: usize = 0;
    while i < s.len()
        invariant
            i <= s@.len(),
            forall|j: int| 0 <= j < i ==> s@[j] != x,
        decreases s@.len() - i,
    {
        if s[i] == x {
            assert(s@[i as int] == x);
            return true;
        }
        i = i + 1;
    }
    false
}

fn select_ids(s: &Vec<i32>, other: &Vec<i32>, inside: bool) -> (r: Vec<i32>)
    ensures
        r@ == keep_ids(s@, other@, inside),
{
    let mut out: Vec<i32> = Vec::new();
    let mut i: usize = 0;
    while i < s.len()
        invariant
            i <= s@.len(),
            out@ == keep_ids(s@.subrange(0, i as int), other@, inside),
        decreases s@.len() - i,
    {
        assert(s@.subrange(0, i + 1).drop_last() =~= s@.subrange(0, i as int));
        if ids_contain(other, s[i]) == inside {
            out.push(s[i]);
        }
        i = i + 1;
    }
    assert(s@.subrange(0, s@.len() as int) =~= s@);
    out
}

/// Classifies the members of one endpoint: a stored member missing from the
/// snapshot is deleted, an incoming member without a row is inserted, and one
/// with a row is updated.
pub fn plan_reconciliation(existing: &Vec<i32>, incoming: &Vec<i32>) -> (r: ReconcilePlan)
    ensures
        is_reconcile_plan(existing@, incoming@, r),
        forall|x: i32| r.to_add@.contains(x) <==> incoming@.contains(x) && !existing@.contains(x),
        forall|x: i32| r.to_update@.contains(x) <==> incoming@.contains(x) && existing@.contains(x),
        forall|x: i32| r.to_delete@.contains(x) <==> existing@.contains(x) && !incoming@.contains(x),
        incoming@.no_duplicates() ==> r.to_add@.no_duplicates() && r.to_update@.no_duplicates(),
        existing@.no_duplicates() ==> r.to_delete@.no_duplicates(),
{
    let r = ReconcilePlan {
        to_add: select_ids(incoming, existing, false),
        to_update: select_ids(incoming, existing, true),
        to_delete: select_ids(existing, incoming, false),
    };
    proof {
        assert forall|x: i32| r.to_add@.contains(x) <==> incoming@.contains(x) && !existing@.contains(x) by {
            lemma_keep_ids_contains(incoming@, existing@, false, x);
        }
        assert forall|x: i32| r.to_update@.contains(x) <==> incoming@.contains(x) && existing@.contains(x) by {
            lemma_keep_ids_contains(incoming@, existing@, true, x);
        }
        assert forall|x: i32| r.to_delete@.contains(x) <==> existing@.contains(x) && !incoming@.contains(x) by {
            lemma_keep_ids_contains(existing@, incoming@, false, x);
        }
        if incoming@.no_duplicates() {
            lemma_keep_ids_no_duplicates(incoming@, existing@, false);
            lemma_keep_ids_no_duplicates(incoming@, existing@, true);
        }
        if existing@.no_duplicates() {
            lemma_keep_ids_no_duplicates(existing@, incoming@, false);
        }
    }
    r
}

/// The classification depends on which members are stored and incoming, not
/// on the order in which either side lists them.
pub proof fn lemma_plan_ignores_order(e1: Seq<i32>, i1: Seq<i32>, e2: Seq<i32>, i2: Seq<i32>, x: i32)
    requires
        e1.to_set() == e2.to_set(),
        i1.to_set() == i2.to_set(),
    ensures
        keep_ids(i1, e1, false).contains(x) == keep_ids(i2, e2, false).contains(x),
        keep_ids(i1, e1, true).contains(x) == keep_ids(i2, e2, true).contains(x),
        keep_ids(e1, i1, false).contains(x) == keep_ids(e2, i2, false).contains(x),
{
    assert(e1.contains(x) == e1.to_set().contains(x));
    assert(e2.contains(x) == e2.to_set().contains(x));
    assert(i1.contains(x) == i1.to_set().contains(x));
    assert(i2.contains(x) == i2.to_set().contains(x));
    lemma_keep_ids_contains(i1, e1, false, x);
    lemma_keep_ids_contains(i2, e2, false, x);
    lemma_keep_ids_contains(i1, e1, true, x);
    lemma_keep_ids_contains(i2, e2, true, x);
    lemma_keep_ids_contains(e1, i1, false, x);
    lemma_keep_ids_contains(e2, i2, false, x);
}

} // verus!
