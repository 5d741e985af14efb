use vstd::prelude::*;

verus! {

/// Snapshot entry `i` stays in the view: it has a score.
pub open spec fn kept(sc: Seq<Option<i64>>, i: int) -> bool {
    sc[i] is Some
}

/// Entry `i` ranks before entry `j`: higher score first, then lower
/// position, then earlier in the snapshot.
pub open spec fn precedes(sc: Seq<Option<i64>>, pos: Seq<usize>, i: int, j: int) -> bool {
    let a = sc[i]->0;
    let b = sc[j]->0;
    a > b || (a == b && (pos[i] < pos[j] || (pos[i] == pos[j] && i < j)))
}

/// `r` lists entries in strictly ranked order.
pub open spec fn is_ranked(sc: Seq<Option<i64>>, pos: Seq<usize>, r: Seq<usize>) -> bool {
    forall|a: int, b: int|
        0 <= a < b < r.len() ==> #[trigger] precedes(sc, pos, r[a] as int, r[b] as int)
}

/// Places entry `i` into the ranked list `r`, before the first entry it
/// precedes.
pub open spec fn insert_ranked(
    sc: Seq<Option<i64>>,
    pos: Seq<usize>,
    r: Seq<usize>,
    i: usize,
) -> Seq<usize>
    decreases r.len(),
{
    if r.len() == 0 {
        seq![i]
    } else if precedes(sc, pos, i as int, r[0] as int) {
        seq![i] + r
    } else {
        seq![r[0]] + insert_ranked(sc, pos, r.drop_first(), i)
    }
}

/// The ranked view of the first `n` snapshot entries: the kept ones, ordered
/// by `precedes`.
pub open spec fn ranked(sc: Seq<Option<i64>>, pos: Seq<usize>, n: nat) -> Seq<usize>
    decreases n,
{
    if n == 0 {
        seq![]
    } else {
        let r = ranked(sc, pos, (n - 1) as nat);
        if kept(sc, n - 1) {
            insert_ranked(sc, pos, r, (n - 1) as usize)
        } else {
            r
        }
    }
}

proof fn lemma_insert_members(sc: Seq<Option<i64>>, pos: Seq<usize>, r: Seq<usize>, i: usize)
    ensures
        insert_ranked(sc, pos, r, i).len() == r.len() + 1,
        forall|x: usize|
            #[trigger] insert_ranked(sc, pos, r, i).contains(x) <==> (r.contains(x) || x == i),
        insert_ranked(sc, pos, r, i)[0] == i || (r.len() > 0 && insert_ranked(sc, pos, r, i)[0]
            == r[0]),
    decreases r.len(),
{
    if r.len() > 0 && !precedes(sc, pos, i as int, r[0] as int) {
        let rest = r.drop_first();
        lemma_insert_members(sc, pos, rest, i);
        let t = insert_ranked(sc, pos, rest, i);
        assert(insert_ranked(sc, pos, r, i) == seq![r[0]] + t);
        assert forall|x: usize| #[trigger]
            insert_ranked(sc, pos, r, i).contains(x) <==> (r.contains(x) || x == i) by {
            if r.contains(x) && x != r[0] {
                let k = choose|k: int| 0 <= k < r.len() && r[k] == x;
                assert(rest[k - 1] == x);
            }
            if rest.contains(x) {
                let k = choose|k: int| 0 <= k < rest.len() && rest[k] == x;
                assert(r[k + 1] == x);
            }
            if t.contains(x) {
                let k = choose|k: int| 0 <= k < t.len() && t[k] == x;
                assert((seq![r[0]] + t)[k + 1] == x);
            }
            if (seq![r[0]] + t).contains(x) && x != r[0] {
                let k = choose|k: int| 0 <= k < t.len() + 1 && (seq![r[0]] + t)[k] == x;
                assert(t[k - 1] == x);
            }
            assert((seq![r[0]] + t)[0] == r[0]);
            assert(r[0] == r[0]);
        }
    } else if r.len() > 0 {
        assert forall|x: usize| #[trigger]
            insert_ranked(sc, pos, r, i).contains(x) <==> (r.contains(x) || x == i) by {
            let s = seq![i] + r;
            assert(s[0] == i);
            if r.contains(x) {
                let k = choose|k: int| 0 <= k < r.len() && r[k] == x;
                assert(s[k + 1] == x);
            }
            if s.contains(x) && x != i {
                let k = choose|k: int| 0 <= k < s.len() && s[k] == x;
                assert(r[k - 1] == x);
            }
        }
    } else {
        assert(seq![i][0] == i);
    }
}

proof fn lemma_insert_sorted(sc: Seq<Option<i64>>, pos: Seq<usize>, r: Seq<usize>, i: usize)
    requires
        is_ranked(sc, pos, r),
        !r.contains(i),
    ensures
        is_ranked(sc, pos, insert_ranked(sc, pos, r, i)),
    decreases r.len(),
{
    lemma_insert_members(sc, pos, r, i);
    if r.len() == 0 {
    } else if precedes(sc, pos, i as int, r[0] as int) {
        let s = seq![i] + r;
        assert forall|a: int, b: int| 0 <= a < b < s.len() implies #[trigger] precedes(
            sc,
            pos,
            s[a] as int,
            s[b] as int,
        ) by {
            if a == 0 {
                assert(s[b] == r[b - 1]);
                if b > 1 {
                    assert(precedes(sc, pos, r[0] as int, r[b - 1] as int));
                }
            } else {
                assert(precedes(sc, pos, r[a - 1] as int, r[b - 1] as int));
            }
        }
    } else {
        let rest = r.drop_first();
        assert forall|a: int, b: int| 0 <= a < b < rest.len() implies #[trigger] precedes(
            sc,
            pos,
            rest[a] as int,
            rest[b] as int,
        ) by {
            assert(precedes(sc, pos, r[a + 1] as int, r[b + 1] as int));
        }
        assert(!rest.contains(i)) by {
            if rest.contains(i) {
                let k = choose|k: int| 0 <= k < rest.len() && rest[k] == i;
                assert(r[k + 1] == i);
            }
        }
        assert(r[0] != i);
        lemma_insert_sorted(sc, pos, rest, i);
        lemma_insert_members(sc, pos, rest, i);
        let t = insert_ranked(sc, pos, rest, i);
        let s = seq![r[0]] + t;
        assert forall|a: int, b: int| 0 <= a < b < s.len() implies #[trigger] precedes(
            sc,
            pos,
            s[a] as int,
            s[b] as int,
        ) by {
            if a == 0 {
                assert(s[b] == t[b - 1]);
                assert(t.contains(t[b - 1]));
                if t[b - 1] != i {
                    assert(rest.contains(t[b - 1]));
                    let k = choose|k: int| 0 <= k < rest.len() && rest[k] == t[b - 1];
                    assert(r[k + 1] == t[b - 1]);
                    assert(precedes(sc, pos, r[0] as int, r[k + 1] as int));
                }
            } else {
                assert(precedes(sc, pos, t[a - 1] as int, t[b - 1] as int));
            }
        }
    }
}

/// Membership of the ranked view: exactly the kept entries among the first `n`.
pub proof fn lemma_ranked_members(sc: Seq<Option<i64>>, pos: Seq<usize>, n: nat)
    requires
        n <= sc.len(),
        n <= usize::MAX + 1,
    ensures
        forall|x: usize| #[trigger]
            ranked(sc, pos, n).contains(x) <==> (x < n && kept(sc, x as int)),
    decreases n,
{
    if n > 0 {
        let prev = ranked(sc, pos, (n - 1) as nat);
        lemma_ranked_members(sc, pos, (n - 1) as nat);
        if kept(sc, n - 1) {
            lemma_insert_members(sc, pos, prev, (n - 1) as usize);
            assert forall|x: usize| #[trigger]
                ranked(sc, pos, n).contains(x) <==> (x < n && kept(sc, x as int)) by {
                assert(ranked(sc, pos, n) == insert_ranked(sc, pos, prev, (n - 1) as usize));
                assert(prev.contains(x) <==> (x < n - 1 && kept(sc, x as int)));
            }
        } else {
            assert forall|x: usize| #[trigger]
                ranked(sc, pos, n).contains(x) <==> (x < n && kept(sc, x as int)) by {
                assert(ranked(sc, pos, n) == prev);
                assert(prev.contains(x) <==> (x < n - 1 && kept(sc, x as int)));
            }
        }
    }
}

/// The ranked view is in strict ranked order, so it holds no entry twice and
/// equal scores keep ascending position order.
pub proof fn lemma_ranked_sorted(sc: Seq<Option<i64>>, pos: Seq<usize>, n: nat)
    requires
        n <= sc.len(),
        n <= usize::MAX + 1,
    ensures
        is_ranked(sc, pos, ranked(sc, pos, n)),
    decreases n,
{
    if n > 0 {
        lemma_ranked_sorted(sc, pos, (n - 1) as nat);
        if kept(sc, n - 1) {
            lemma_ranked_members(sc, pos, (n - 1) as nat);
            lemma_insert_sorted(sc, pos, ranked(sc, pos, (n - 1) as nat), (n - 1) as usize);
        }
    }
}

proof fn lemma_insert_at(
    sc: Seq<Option<i64>>,
    pos: Seq<usize>,
    r: Seq<usize>,
    i: usize,
    k: int,
)
    requires
        0 <= k <= r.len(),
        forall|j: int| 0 <= j < k ==> !#[trigger] precedes(sc, pos, i as int, r[j] as int),
        k < r.len() ==> precedes(sc, pos, i as int, r[k] as int),
    ensures
        insert_ranked(sc, pos, r, i) == r.insert(k, i),
    decreases k,
{
    if k == 0 {
        assert(r.insert(0, i) =~= seq![i] + r);
    } else {
        let rest = r.drop_first();
        assert(!precedes(sc, pos, i as int, r[0] as int));
        assert forall|j: int| 0 <= j < k - 1 implies !#[trigger] precedes(
            sc,
            pos,
            i as int,
            rest[j] as int,
        ) by {
            assert(!precedes(sc, pos, i as int, r[j + 1] as int));
        }
        lemma_insert_at(sc, pos, rest, i, k - 1);
        assert(seq![r[0]] + rest.insert(k - 1, i) =~= r.insert(k, i));
    }
}

fn precedes_exec(sc: &Vec<Option<i64>>, pos: &Vec<usize>, i: usize, j: usize) -> (b: bool)
    requires
        sc@.len() == pos@.len(),
        i < sc@.len(),
        j < sc@.len(),
        sc@[i as int] is Some,
        sc@[j as int] is Some,
    ensures
        b == precedes(sc@, pos@, i as int, j as int),
{
    let a = match sc[i] {
        Some(x) => x,
        None => 0,
    };
    let b = match sc[j] {
        Some(x) => x,
        None => 0,
    };
    a > b || (a == b && (pos[i] < pos[j] || (pos[i] == pos[j] && i < j)))
}

/// Ranks snapshot entries given their scores and positions: the indices of
/// the entries with a score, best first.
pub fn rank(sc: &Vec<Option<i64>>, pos: &Vec<usize>) -> (r: Vec<usize>)
    requires
        sc@.len() == pos@.len(),
    ensures
        r@ == ranked(sc@, pos@, sc@.len()),
{
    let mut r: Vec<usize> = Vec::new();
    let n = sc.len();
    let mut i: usize = 0;
    while i < n
        invariant
            n == sc@.len(),
            sc@.len() == pos@.len(),
            i <= n,
            r@ == ranked(sc@, pos@, i as nat),
        decreases n - i,
    {
        proof {
            lemma_ranked_members(sc@, pos@, i as nat);
        }
        let keep = sc[i].is_some();
        if keep {
            assert forall|j: int| 0 <= j < r@.len() implies #[trigger] r@[j] < i && kept(
                sc@,
                r@[j] as int,
            ) by {
                assert(r@.contains(r@[j]));
            }
            let mut k: usize = 0;
            while k < r.len() && !precedes_exec(sc, pos, i, r[k])
                invariant
                    n == sc@.len(),
                    sc@.len() == pos@.len(),
                    i < n,
                    kept(sc@, i as int),
                    k <= r@.len(),
                    r@ == ranked(sc@, pos@, i as nat),
                    forall|x: usize| #[trigger]
                        r@.contains(x) <==> (x < i && kept(sc@, x as int)),
                    forall|j: int|
                        0 <= j < r@.len() ==> #[trigger] r@[j] < i && kept(sc@, r@[j] as int),
                    forall|j: int|
                        0 <= j < k ==> !#[trigger] precedes(sc@, pos@, i as int, r@[j] as int),
                decreases r@.len() - k,
            {
                assert(r@.contains(r@[k as int]));
                k = k + 1;
            }
            proof {
                if k < r@.len() {
                    assert(r@.contains(r@[k as int]));
                }
                lemma_insert_at(sc@, pos@, r@, i, k as int);
            }
            r.insert(k, i);
        }
        i = i + 1;
    }
    r
}

proof fn lemma_insert_last(sc: Seq<Option<i64>>, pos: Seq<usize>, r: Seq<usize>, i: usize)
    requires
        forall|k: int| 0 <= k < r.len() ==> !#[trigger] precedes(sc, pos, i as int, r[k] as int),
    ensures
        insert_ranked(sc, pos, r, i) == r.push(i),
    decreases r.len(),
{
    if r.len() > 0 {
        let rest = r.drop_first();
        assert(!precedes(sc, pos, i as int, r[0] as int));
        assert forall|k: int| 0 <= k < rest.len() implies !#[trigger] precedes(
            sc,
            pos,
            i as int,
            rest[k] as int,
        ) by {
            assert(!precedes(sc, pos, i as int, r[k + 1] as int));
        }
        lemma_insert_last(sc, pos, rest, i);
        assert(seq![r[0]] + rest.push(i) =~= r.push(i));
    } else {
        assert(seq![i] =~= r.push(i));
    }
}

/// With one equal score for every entry and positions ascending through the
/// snapshot, the ranked view is the whole snapshot in order.
pub proof fn lemma_ranked_equal_scores(sc: Seq<Option<i64>>, pos: Seq<usize>, n: nat, c: i64)
    requires
        n <= sc.len(),
        n <= pos.len(),
        n <= usize::MAX + 1,
        forall|i: int| 0 <= i < n ==> sc[i] == Some(c),
        forall|i: int, j: int| 0 <= i < j < n ==> pos[i] < pos[j],
    ensures
        ranked(sc, pos, n) == Seq::new(n, |i: int| i as usize),
    decreases n,
{
    if n > 0 {
        let prev = ranked(sc, pos, (n - 1) as nat);
        lemma_ranked_equal_scores(sc, pos, (n - 1) as nat, c);
        assert(kept(sc, n - 1));
        assert forall|k: int| 0 <= k < prev.len() implies !#[trigger] precedes(
            sc,
            pos,
            (n - 1) as int,
            prev[k] as int,
        ) by {
            assert(prev[k] as int == k);
            assert(pos[k] < pos[n - 1]);
        }
        lemma_insert_last(sc, pos, prev, (n - 1) as usize);
        assert(prev.push((n - 1) as usize) =~= Seq::new(n, |i: int| i as usize));
    }
}

} // verus!
