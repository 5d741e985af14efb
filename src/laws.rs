use vstd::prelude::*;
use crate::rank::{kept, lemma_ranked_equal_scores, lemma_ranked_members, lemma_ranked_sorted, precedes};
use crate::switcher::{
    State, index_of, positions, reversed, scores_spec, step_down, step_up,
};

verus! {

/// No value occurs twice in `vs`.
pub open spec fn distinct(vs: Seq<usize>) -> bool {
    forall|i: int, j: int| 0 <= i < j < vs.len() ==> vs[i] != vs[j]
}

/// The selection after `m` moves down through `vs`.
pub open spec fn down_times(vs: Seq<usize>, sel: Option<usize>, m: nat) -> Option<usize>
    decreases m,
{
    if m == 0 {
        sel
    } else {
        down_times(vs, step_down(vs, sel), (m - 1) as nat)
    }
}

proof fn lemma_index_of_distinct(vs: Seq<usize>, j: int)
    requires
        distinct(vs),
        0 <= j < vs.len(),
    ensures
        index_of(vs, vs[j]) == j,
    decreases j,
{
    if j > 0 {
        let rest = vs.drop_first();
        assert(distinct(rest)) by {
            assert forall|a: int, b: int| 0 <= a < b < rest.len() implies rest[a] != rest[b] by {
                assert(vs[a + 1] != vs[b + 1]);
            }
        }
        assert(vs[0] != vs[j]);
        lemma_index_of_distinct(rest, j - 1);
    }
}

proof fn lemma_down_at(vs: Seq<usize>, j: int)
    requires
        distinct(vs),
        0 <= j < vs.len(),
    ensures
        step_down(vs, Some(vs[j])) == Some(
            if j + 1 < vs.len() {
                vs[j + 1]
            } else {
                vs[0]
            },
        ),
{
    lemma_index_of_distinct(vs, j);
}

proof fn lemma_up_at(vs: Seq<usize>, j: int)
    requires
        distinct(vs),
        0 <= j < vs.len(),
    ensures
        step_up(vs, Some(vs[j])) == Some(
            if j > 0 {
                vs[j - 1]
            } else {
                vs[vs.len() - 1]
            },
        ),
{
    let rv = reversed(vs);
    let n = vs.len();
    assert(distinct(rv)) by {
        assert forall|a: int, b: int| 0 <= a < b < rv.len() implies rv[a] != rv[b] by {
            assert(vs[n - 1 - b] != vs[n - 1 - a]);
        }
    }
    assert(rv[n - 1 - j] == vs[j]);
    lemma_down_at(rv, n - 1 - j);
}

proof fn lemma_down_compose(vs: Seq<usize>, sel: Option<usize>, a: nat, b: nat)
    ensures
        down_times(vs, sel, a + b) == down_times(vs, down_times(vs, sel, a), b),
    decreases a,
{
    if a > 0 {
        lemma_down_compose(vs, step_down(vs, sel), (a - 1) as nat, b);
        assert((a + b - 1) as nat == (a - 1) as nat + b);
    }
}

proof fn lemma_down_walk(vs: Seq<usize>, j: int, m: nat)
    requires
        distinct(vs),
        0 <= j,
        j + m < vs.len(),
    ensures
        down_times(vs, Some(vs[j]), m) == Some(vs[j + m]),
    decreases m,
{
    if m > 0 {
        lemma_down_at(vs, j);
        lemma_down_walk(vs, j + 1, (m - 1) as nat);
    }
}

/// Moving down through a list of distinct positions as many times as it is
/// long brings the selection back to where it started.
pub proof fn lemma_down_cycles(vs: Seq<usize>, k: int)
    requires
        distinct(vs),
        0 <= k < vs.len(),
    ensures
        down_times(vs, Some(vs[k]), vs.len()) == Some(vs[k]),
{
    let n = vs.len();
    let to_last = (n - 1 - k) as nat;
    lemma_down_walk(vs, k, to_last);
    lemma_down_at(vs, n - 1);
    lemma_down_walk(vs, 0, k as nat);
    assert(down_times(vs, Some(vs[n - 1]), 1) == down_times(
        vs,
        step_down(vs, Some(vs[n - 1])),
        0,
    ));
    lemma_down_compose(vs, Some(vs[k]), to_last, 1);
    lemma_down_compose(vs, Some(vs[k]), to_last + 1, k as nat);
    assert(to_last + 1 + k == n);
}

/// On a list of distinct positions holding the selection, moving up undoes
/// moving down and moving down undoes moving up.
pub proof fn lemma_up_inverts_down(vs: Seq<usize>, k: int)
    requires
        distinct(vs),
        0 <= k < vs.len(),
    ensures
        step_up(vs, step_down(vs, Some(vs[k]))) == Some(vs[k]),
        step_down(vs, step_up(vs, Some(vs[k]))) == Some(vs[k]),
{
    let n = vs.len();
    lemma_down_at(vs, k);
    lemma_up_at(vs, k);
    if k + 1 < n {
        lemma_up_at(vs, k + 1);
    } else {
        lemma_up_at(vs, 0);
    }
    if k > 0 {
        lemma_down_at(vs, k - 1);
    } else {
        lemma_down_at(vs, n - 1);
    }
}

/// With tab positions unique in the snapshot, the viewable tabs' positions
/// are distinct.
pub proof fn lemma_view_distinct(s: State)
    requires
        s.tabs@.len() <= usize::MAX,
        distinct(positions(s.tabs@)),
    ensures
        distinct(s.view_positions()),
{
    let sc = scores_spec(s.tabs@, s.filter@, s.ignore_case);
    let pos = positions(s.tabs@);
    let vi = s.view_indices();
    lemma_ranked_members(sc, pos, s.tabs@.len());
    lemma_ranked_sorted(sc, pos, s.tabs@.len());
    assert forall|a: int, b: int| 0 <= a < b < vi.len() implies s.view_positions()[a]
        != s.view_positions()[b] by {
        assert(precedes(sc, pos, vi[a] as int, vi[b] as int));
        assert(vi.contains(vi[a]) && vi.contains(vi[b]));
        assert(pos[vi[a] as int] == s.tabs@[vi[a] as int].position);
        assert(pos[vi[b] as int] == s.tabs@[vi[b] as int].position);
    }
}

/// Moving the selection down as many times as there are viewable tabs returns
/// it to where it started, when it holds a viewable tab.
pub proof fn lemma_select_down_cycles(s: State)
    requires
        s.tabs@.len() <= usize::MAX,
        distinct(positions(s.tabs@)),
        s.selected is Some,
        s.view_positions().contains(s.selected->0),
    ensures
        down_times(s.view_positions(), s.selected, s.view_positions().len()) == s.selected,
{
    lemma_view_distinct(s);
    let vs = s.view_positions();
    let k = choose|k: int| 0 <= k < vs.len() && vs[k] == s.selected->0;
    lemma_down_cycles(vs, k);
}

/// Moving the selection up undoes moving it down, and the other way round,
/// when it holds a viewable tab.
pub proof fn lemma_select_up_inverts_down(s: State)
    requires
        s.tabs@.len() <= usize::MAX,
        distinct(positions(s.tabs@)),
        s.selected is Some,
        s.view_positions().contains(s.selected->0),
    ensures
        step_up(s.view_positions(), step_down(s.view_positions(), s.selected)) == s.selected,
        step_down(s.view_positions(), step_up(s.view_positions(), s.selected)) == s.selected,
{
    lemma_view_distinct(s);
    let vs = s.view_positions();
    let k = choose|k: int| 0 <= k < vs.len() && vs[k] == s.selected->0;
    lemma_up_inverts_down(vs, k);
}

/// Viewable tabs come best score first; among equal scores, lower position
/// first.
pub proof fn lemma_view_order(s: State)
    requires
        s.tabs@.len() <= usize::MAX,
    ensures
        ({
            let sc = scores_spec(s.tabs@, s.filter@, s.ignore_case);
            let vi = s.view_indices();
            forall|a: int, b: int|
                #![trigger vi[a], vi[b]]
                0 <= a < b < vi.len() ==> {
                    &&& sc[vi[a] as int]->0 >= sc[vi[b] as int]->0
                    &&& (sc[vi[a] as int] == sc[vi[b] as int] ==> s.tabs@[vi[a] as int].position
                        <= s.tabs@[vi[b] as int].position)
                }
        }),
{
    let sc = scores_spec(s.tabs@, s.filter@, s.ignore_case);
    let pos = positions(s.tabs@);
    let vi = s.view_indices();
    lemma_ranked_members(sc, pos, s.tabs@.len());
    lemma_ranked_sorted(sc, pos, s.tabs@.len());
    assert forall|a: int, b: int|
        #![trigger vi[a], vi[b]]
        0 <= a < b < vi.len() implies {
        &&& sc[vi[a] as int]->0 >= sc[vi[b] as int]->0
        &&& (sc[vi[a] as int] == sc[vi[b] as int] ==> s.tabs@[vi[a] as int].position
            <= s.tabs@[vi[b] as int].position)
    } by {
        assert(precedes(sc, pos, vi[a] as int, vi[b] as int));
        assert(vi.contains(vi[a]) && vi.contains(vi[b]));
        assert(kept(sc, vi[a] as int) && kept(sc, vi[b] as int));
    }
}

/// Under an empty filter every tab is viewable, each with the same score, in
/// snapshot order when positions ascend through the snapshot.
pub proof fn lemma_empty_filter_view(s: State)
    requires
        s.tabs@.len() <= usize::MAX,
        s.filter@.len() == 0,
        forall|i: int, j: int|
            0 <= i < j < s.tabs@.len() ==> s.tabs@[i].position < s.tabs@[j].position,
    ensures
        s.view_indices() == Seq::new(s.tabs@.len(), |i: int| i as usize),
        s.view_positions() == positions(s.tabs@),
        forall|i: int|
            0 <= i < s.tabs@.len() ==> #[trigger] scores_spec(s.tabs@, s.filter@, s.ignore_case)[i]
                == Some(0i64),
{
    let sc = scores_spec(s.tabs@, s.filter@, s.ignore_case);
    let pos = positions(s.tabs@);
    assert forall|i: int, j: int| 0 <= i < j < s.tabs@.len() implies pos[i] < pos[j] by {
        assert(pos[i] == s.tabs@[i].position && pos[j] == s.tabs@[j].position);
    }
    lemma_ranked_equal_scores(sc, pos, s.tabs@.len(), 0);
    assert(s.view_positions() =~= positions(s.tabs@));
}

/// Each state follows the one before it as `select_down` leaves it.
pub open spec fn down_chain(states: Seq<State>) -> bool {
    forall|j: int|
        0 <= j < states.len() - 1 ==> {
            &&& #[trigger] states[j + 1].same_content(states[j])
            &&& states[j + 1].selected == step_down(states[j].view_positions(), states[j].selected)
        }
}

proof fn lemma_down_chain(states: Seq<State>, j: int)
    requires
        down_chain(states),
        0 <= j < states.len(),
    ensures
        states[j].view_positions() == states[0].view_positions(),
        states[j].selected == down_times(states[0].view_positions(), states[0].selected, j as nat),
    decreases j,
{
    if j > 0 {
        lemma_down_chain(states, j - 1);
        let i = j - 1;
        assert(states[i + 1].same_content(states[i]));
        assert(states[i + 1].selected == step_down(states[i].view_positions(), states[i].selected));
        assert(states[j].view_indices() == states[j - 1].view_indices());
        assert(states[j].view_positions() =~= states[j - 1].view_positions());
        let vs = states[0].view_positions();
        let prev = down_times(vs, states[0].selected, (j - 1) as nat);
        lemma_down_compose(vs, states[0].selected, (j - 1) as nat, 1);
        assert(down_times(vs, prev, 1) == down_times(vs, step_down(vs, prev), 0));
        assert((j - 1) as nat + 1 == j as nat);
    }
}

/// Calling `select_down` once per viewable tab, starting from a selection on
/// a viewable tab, brings the selection back to where it started.
pub proof fn lemma_select_down_calls_cycle(states: Seq<State>)
    requires
        down_chain(states),
        states.len() == states[0].view_positions().len() + 1,
        states[0].tabs@.len() <= usize::MAX,
        distinct(positions(states[0].tabs@)),
        states[0].selected is Some,
        states[0].view_positions().contains(states[0].selected->0),
    ensures
        states.last().selected == states[0].selected,
{
    lemma_down_chain(states, states.len() - 1);
    lemma_select_down_cycles(states[0]);
}

} // verus!
