//! What a reward, a new arm, a removal and a selection do to the bandit.

use vstd::prelude::*;

use crate::evm::cross_chain::amount;
use crate::evm::types::{EVMAddress, EVMU256};
use crate::rl_scheduler::{
    by_score, cut, droppable, droppable_of, dropped_arms, imbalances_of, last_highest,
    law_by_score_sorts, law_dropping_spares, least, lemma_by_score_walks, lemma_droppable_of,
    lemma_forgot_all, walks, without, Draw, MetaView, SchedulerLimits, SchedulerView, VotesView,
};

verus! {

// ----------------------------------------------------------- arms and rewards

/// A reward counts once: for its arm and in total. The arm has the new mean, and
/// all else stays as it is.
pub proof fn law_reward_counts_once(m: MetaView, idx: usize, new_mean: u64, init_q: u64)
    requires
        m.can_update(idx),
    ensures
        ({
            let after = m.updated(idx, new_mean);
            &&& after.mean(init_q, idx) == new_mean
            &&& after.visits(idx, 0) == m.visits(idx, 0) + 1
            &&& after.total_visits == m.total_visits + 1
            &&& after.mean_reward.remove(idx) == m.mean_reward.remove(idx)
            &&& after.visit_count.remove(idx) == m.visit_count.remove(idx)
            &&& after.last_selected == m.last_selected
            &&& after.explore_count == m.explore_count
            &&& after.exploit_count == m.exploit_count
            &&& after.to_remove == m.to_remove
        }),
{
    let after = m.updated(idx, new_mean);
    assert(after.mean_reward.remove(idx) =~= m.mean_reward.remove(idx));
    assert(after.visit_count.remove(idx) =~= m.visit_count.remove(idx));
}

/// What is known of an arm: its mean is the one last set, and the initial one
/// where none was; it counts as visited as often as it was rewarded, and as told
/// where it is not known.
pub proof fn law_arm_is_looked_up(m: MetaView, idx: usize, init_q: u64, unknown: u64)
    ensures
        m.mean_reward.contains_key(idx) ==> m.mean(init_q, idx) == m.mean_reward[idx],
        !m.mean_reward.contains_key(idx) ==> m.mean(init_q, idx) == init_q,
        m.visit_count.contains_key(idx) ==> m.visits(idx, unknown) == m.visit_count[idx],
        !m.visit_count.contains_key(idx) ==> m.visits(idx, unknown) == unknown,
        m.can_update(idx) <==> m.visits(idx, 0) < u64::MAX && m.total_visits < u64::MAX,
{
}

/// An arm that comes in starts with the initial mean and one visit; one that was
/// known keeps what it had. No other arm, no counter and no reward that is due
/// is touched, and to take in an arm twice is to take it in once.
pub proof fn law_new_arm_starts_fresh(m: MetaView, init_q: u64, idx: usize)
    ensures
        ({
            let after = m.registered(init_q, idx);
            &&& after.mean_reward.contains_key(idx)
            &&& after.visit_count.contains_key(idx)
            &&& !m.mean_reward.contains_key(idx) ==> after.mean_reward[idx] == init_q
            &&& m.mean_reward.contains_key(idx) ==> after.mean_reward[idx] == m.mean_reward[idx]
            &&& !m.visit_count.contains_key(idx) ==> after.visit_count[idx] == 1
            &&& m.visit_count.contains_key(idx) ==> after.visit_count[idx] == m.visit_count[idx]
            &&& after.mean_reward.remove(idx) == m.mean_reward.remove(idx)
            &&& after.visit_count.remove(idx) == m.visit_count.remove(idx)
            &&& after.total_visits == m.total_visits
            &&& after.last_selected == m.last_selected
            &&& after.explore_count == m.explore_count
            &&& after.exploit_count == m.exploit_count
            &&& after.to_remove == m.to_remove
            &&& after.registered(init_q, idx) == after
        }),
{
    let after = m.registered(init_q, idx);
    assert(after.mean_reward.remove(idx) =~= m.mean_reward.remove(idx));
    assert(after.visit_count.remove(idx) =~= m.visit_count.remove(idx));
    assert(after.registered(init_q, idx) =~= after);
}

/// A removed arm leaves, and takes along a reward that is due to it; all other
/// arms, the counters and a reward that is due to another arm stay.
pub proof fn law_removal_spares_the_rest(m: MetaView, idx: usize, other: usize)
    requires
        other != idx,
    ensures
        ({
            let after = m.forgot(idx);
            &&& after.mean_reward == m.mean_reward.remove(idx)
            &&& after.visit_count == m.visit_count.remove(idx)
            &&& after.mean_reward.contains_key(other) == m.mean_reward.contains_key(other)
            &&& m.last_selected == Some(other) ==> after.last_selected == Some(other)
            &&& m.last_selected == Some(idx) ==> after.last_selected is None
            &&& after.total_visits == m.total_visits
            &&& after.explore_count == m.explore_count
            &&& after.exploit_count == m.exploit_count
            &&& after.to_remove == m.to_remove
        }),
{
}

/// A removal takes an arm out of the votes wherever it stands, and leaves the
/// others in their order.
pub proof fn law_removal_from_the_votes(v: VotesView, idx: usize)
    ensures
        v.forgot(idx).votes_and_visits == v.votes_and_visits.remove(idx),
        v.forgot(idx).sorted_votes == v.sorted_votes.filter(|y: usize| y != idx),
        v.forgot(idx).visits_total == v.visits_total,
        v.forgot(idx).votes_total == v.votes_total,
        v.forgot(idx).to_remove == v.to_remove,
{
    lemma_without_filters(v.sorted_votes, idx);
}

proof fn lemma_without_filters(s: Seq<usize>, x: usize)
    ensures
        without(s, x) == s.filter(|y: usize| y != x),
    decreases s.len(),
{
    reveal(Seq::filter);
    if s.len() > 0 {
        lemma_without_filters(s.drop_last(), x);
    }
}

/// The bandit starts without arms, with one visit in total, and with no reward
/// due.
pub proof fn law_bandit_starts_fresh(s: SchedulerView)
    ensures
        s.rl is None ==> s.bandit() == MetaView::fresh(),
        s.rl is Some ==> Some(s.bandit()) == s.rl,
        s.votes is None ==> s.ballot() == VotesView::fresh(),
        s.votes is Some ==> Some(s.ballot()) == s.votes,
        MetaView::fresh().mean_reward.dom() == Set::<usize>::empty(),
        MetaView::fresh().visit_count.dom() == Set::<usize>::empty(),
        MetaView::fresh().total_visits == 1,
        MetaView::fresh().last_selected is None,
        MetaView::fresh().explore_count == 0,
        MetaView::fresh().exploit_count == 0,
        MetaView::fresh().to_remove.len() == 0,
        VotesView::fresh().votes_total == 1,
        VotesView::fresh().visits_total == 1,
        VotesView::fresh().sorted_votes.len() == 0,
{
    assert(MetaView::fresh().mean_reward.dom() =~= Set::<usize>::empty());
    assert(MetaView::fresh().visit_count.dom() =~= Set::<usize>::empty());
}

/// A reward reaches the arm that was selected last, and nothing is changed where
/// there is no reward or no such arm.
pub proof fn law_due_reward_is_paid(s: SchedulerView, reward: Option<u64>, other: usize)
    ensures
        ({
            let after = s.rewarded(reward);
            let due = s.bandit().last_selected;
            &&& reward is None || due is None ==> after == s
            &&& after.votes == s.votes
            &&& after.bandit().last_selected == due
            &&& reward is Some && due is Some ==> after.bandit().mean_reward.contains_key(due->0)
                && after.bandit().mean_reward[due->0] == reward->0
            &&& Some(other) != due ==> after.bandit().mean_reward.contains_key(other)
                == s.bandit().mean_reward.contains_key(other) && after.bandit().mean_reward[other]
                == s.bandit().mean_reward[other] && after.bandit().visit_count[other]
                == s.bandit().visit_count[other]
        }),
{
}

// ----------------------------------------------------------------- selections

/// A selection needs room in the counter of its kind, and in no other.
pub proof fn law_selection_needs_its_counter(m: MetaView, draw: Draw)
    ensures
        draw is Explore ==> (m.can_select(draw) <==> m.explore_count < usize::MAX),
        draw is Exploit ==> (m.can_select(draw) <==> m.exploit_count < usize::MAX),
{
}

/// A selection is counted on the side of its kind, and changes nothing else.
pub proof fn law_selection_is_counted(m: MetaView, draw: Draw)
    requires
        m.can_select(draw),
    ensures
        ({
            let after = m.selected(draw);
            &&& draw is Explore ==> after.explore_count == m.explore_count + 1
                && after.exploit_count == m.exploit_count
            &&& draw is Exploit ==> after.exploit_count == m.exploit_count + 1
                && after.explore_count == m.explore_count
            &&& after.mean_reward == m.mean_reward
            &&& after.visit_count == m.visit_count
            &&& after.total_visits == m.total_visits
            &&& after.last_selected == m.last_selected
            &&& after.to_remove == m.to_remove
        }),
{
}

/// To explore is to take the arm at the drawn place, or the last one where there
/// is no such place.
pub proof fn law_explore_takes_the_place(place: usize, arms: Seq<usize>, arm: usize)
    requires
        arms.len() > 0,
    ensures
        Draw::Explore(place).selects(arms, arm) <==> arm == if place < arms.len() {
            arms[place as int]
        } else {
            arms[arms.len() - 1]
        },
{
}

/// To exploit is to take the arm with the highest score, and the last of those
/// that share it.
pub proof fn law_exploit_takes_the_highest(scores: Vec<u64>, arms: Seq<usize>, i: int, arm: usize)
    requires
        scores@.len() == arms.len(),
        0 <= i < arms.len(),
        forall|j: int| 0 <= j < i ==> #[trigger] scores@[j] <= scores@[i],
        forall|j: int| i < j < arms.len() ==> #[trigger] scores@[j] < scores@[i],
    ensures
        Draw::Exploit(scores).selects(arms, arm) <==> arm == arms[i],
{
    let draw = Draw::Exploit(scores);
    assert(last_highest(scores@, i)) by {
        assert forall|j: int|
            0 <= j < scores@.len() implies #[trigger] scores@[j] <= scores@[i] by {
            assert(j < i || j == i || j > i);
        }
    }
    assert(last_highest(draw->Exploit_0@, i));
    assert(draw.selects(arms, arms[i]));
    crate::rl_scheduler::law_draw_selects_one(draw, arms, arms[i], arm);
}

// ------------------------------------------------------------------- dropping

/// Dropping is thorough: an arm that is none of the first three, is not the one
/// that came in, has a mean within the threshold and stays all the same has as
/// many arms below or beside it as the limits let be looked at.
pub proof fn law_dropping_is_thorough(
    limits: SchedulerLimits,
    added: usize,
    listing: Seq<(usize, u64)>,
    known: Map<usize, u64>,
    arm: usize,
)
    requires
        walks(listing, known),
        known.contains_key(arm),
        arm >= 3,
        arm != added,
        known[arm] <= limits.prune_q_threshold,
        !dropped_arms(limits, added, listing).contains(arm),
    ensures
        limits.prune_amt < listing.len(),
        forall|i: int|
            0 <= i < limits.prune_amt ==> (#[trigger] by_score(listing)[i]).1 <= known[arm],
{
    let sorted = by_score(listing);
    law_by_score_sorts(listing);
    lemma_by_score_walks(listing, known);
    let n = least(limits.prune_amt as int, listing.len() as int);
    let looked_at = sorted.take(n);
    lemma_droppable_of(limits, added, looked_at);
    let k = choose|k: int| 0 <= k < sorted.len() && (#[trigger] sorted[k]).0 == arm;
    if k < n {
        assert(looked_at[k] == sorted[k]);
        assert(droppable(limits, added, looked_at[k]));
        assert(false);
    }
    assert forall|i: int| 0 <= i < limits.prune_amt implies (#[trigger] sorted[i]).1
        <= known[arm] by {
        assert(sorted[i].1 <= sorted[k].1);
    }
}

/// What is dropped, told by its limits: none of the first three arms, not the
/// arm that came in, none with a mean above the threshold; and in ascending order
/// of the means.
pub proof fn law_dropping_by_limits(
    limits: SchedulerLimits,
    added: usize,
    listing: Seq<(usize, u64)>,
    known: Map<usize, u64>,
)
    requires
        walks(listing, known),
    ensures
        ({
            let dropped = dropped_arms(limits, added, listing);
            &&& dropped.len() <= limits.prune_amt
            &&& forall|i: int|
                0 <= i < dropped.len() ==> (#[trigger] dropped[i]) >= 3 && dropped[i] != added
                    && known[dropped[i]] <= limits.prune_q_threshold
            &&& forall|i: int, j: int|
                0 <= i <= j < dropped.len() ==> known[#[trigger] dropped[i]]
                    <= known[#[trigger] dropped[j]]
        }),
{
    law_dropping_spares(limits, added, listing, known);
    law_by_score_sorts(listing);
    lemma_by_score_walks(listing, known);
    let sorted = by_score(listing);
    let n = least(limits.prune_amt as int, listing.len() as int);
    let looked_at = sorted.take(n);
    assert forall|i: int| 0 <= i < looked_at.len() implies known[(#[trigger] looked_at[i]).0]
        == looked_at[i].1 by {
        assert(looked_at[i] == sorted[i]);
    }
    assert forall|i: int, j: int| 0 <= i <= j < looked_at.len() implies (#[trigger] looked_at[i]).1
        <= (#[trigger] looked_at[j]).1 by {
        assert(sorted[i].1 <= sorted[j].1);
    }
    lemma_dropped_ascend(limits, added, looked_at, known);
}

proof fn lemma_dropped_ascend(
    limits: SchedulerLimits,
    added: usize,
    s: Seq<(usize, u64)>,
    known: Map<usize, u64>,
)
    requires
        forall|i: int| 0 <= i < s.len() ==> known[(#[trigger] s[i]).0] == s[i].1,
        forall|i: int, j: int|
            0 <= i <= j < s.len() ==> (#[trigger] s[i]).1 <= (#[trigger] s[j]).1,
    ensures
        ({
            let d = droppable_of(limits, added, s);
            &&& forall|i: int, j: int|
                0 <= i <= j < d.len() ==> known[#[trigger] d[i]] <= known[#[trigger] d[j]]
            &&& forall|i: int| 0 <= i < d.len() ==> known[#[trigger] d[i]] <= s.last().1
        }),
    decreases s.len(),
{
    if s.len() > 0 {
        let init = s.drop_last();
        assert forall|i: int| 0 <= i < init.len() implies known[(#[trigger] init[i]).0]
            == init[i].1 by {
            assert(init[i] == s[i]);
        }
        assert forall|i: int, j: int| 0 <= i <= j < init.len() implies (#[trigger] init[i]).1 <= (
        #[trigger] init[j]).1 by {
            assert(init[i] == s[i] && init[j] == s[j]);
        }
        lemma_dropped_ascend(limits, added, init, known);
        let rest = droppable_of(limits, added, init);
        let d = droppable_of(limits, added, s);
        assert(s.last() == s[s.len() - 1]);
        if init.len() > 0 {
            assert(init.last() == s[s.len() - 2]);
        }
        assert forall|i: int| 0 <= i < d.len() implies known[#[trigger] d[i]] <= s.last().1 by {
            if i < rest.len() {
                assert(d[i] == rest[i]);
            }
        }
        assert forall|i: int, j: int| 0 <= i <= j < d.len() implies known[#[trigger] d[i]]
            <= known[#[trigger] d[j]] by {
            if j < rest.len() {
                assert(d[i] == rest[i] && d[j] == rest[j]);
            }
        }
    }
}

/// What an arm leaves behind that comes into a corpus that is too large: the
/// arms dropped for it are listed, they have left the votes, and no counter and
/// no reward that is due to another arm is touched.
pub proof fn law_added_arm_is_accounted(
    s: SchedulerView,
    limits: SchedulerLimits,
    idx: usize,
    listing: Seq<(usize, u64)>,
    arm: usize,
)
    ensures
        ({
            let (after, dropped) = s.added(limits, idx, listing);
            let before = s.bandit();
            &&& dropped == dropped_arms(limits, idx, listing)
            &&& after.bandit().to_remove == dropped
            &&& after.bandit().total_visits == before.total_visits
            &&& after.bandit().explore_count == before.explore_count
            &&& after.bandit().exploit_count == before.exploit_count
            &&& before.last_selected is None || !dropped.contains(before.last_selected->0)
                ==> after.bandit().last_selected == before.last_selected
            &&& dropped.contains(arm) ==> !after.ballot().votes_and_visits.contains_key(arm)
                && !after.ballot().sorted_votes.contains(arm)
            &&& !dropped.contains(arm) ==> after.ballot().votes_and_visits.contains_key(arm)
                == s.ballot().votes_and_visits.contains_key(arm)
            &&& !dropped.contains(arm) ==> after.ballot().sorted_votes.contains(arm)
                == s.ballot().sorted_votes.contains(arm)
        }),
{
    let first = s.registered(limits.init_q, idx);
    let dropped = dropped_arms(limits, idx, listing);
    lemma_forgot_all(first, dropped);
    lemma_forgot_all_spares(first, dropped, arm);
}

proof fn lemma_forgot_all_spares(s: SchedulerView, arms: Seq<usize>, arm: usize)
    requires
        s.rl is Some,
        s.votes is Some,
    ensures
        ({
            let after = s.forgot_all(arms);
            &&& after.rl is Some
            &&& after.votes is Some
            &&& after.bandit().total_visits == s.bandit().total_visits
            &&& after.bandit().explore_count == s.bandit().explore_count
            &&& after.bandit().exploit_count == s.bandit().exploit_count
            &&& s.bandit().last_selected is None || !arms.contains(s.bandit().last_selected->0)
                ==> after.bandit().last_selected == s.bandit().last_selected
            &&& arms.contains(arm) ==> !after.ballot().votes_and_visits.contains_key(arm)
                && !after.ballot().sorted_votes.contains(arm)
            &&& !arms.contains(arm) ==> after.ballot().votes_and_visits.contains_key(arm)
                == s.ballot().votes_and_visits.contains_key(arm)
            &&& !arms.contains(arm) ==> after.ballot().sorted_votes.contains(arm)
                == s.ballot().sorted_votes.contains(arm)
        }),
    decreases arms.len(),
{
    if arms.len() > 0 {
        let init = arms.drop_last();
        let last = arms.last();
        lemma_forgot_all_spares(s, init, arm);
        let before = s.forgot_all(init);
        lemma_without_contains(before.ballot().sorted_votes, last, arm);
        assert(arms[arms.len() - 1] == last);
        assert forall|a: usize| init.contains(a) implies arms.contains(a) by {
            let i = choose|i: int| 0 <= i < init.len() && init[i] == a;
            assert(arms[i] == a);
        }
        if arms.contains(arm) && arm != last {
            let i = choose|i: int| 0 <= i < arms.len() && arms[i] == arm;
            assert(init[i] == arm);
        }
    }
}

proof fn lemma_without_contains(s: Seq<usize>, x: usize, y: usize)
    ensures
        without(s, x).contains(y) <==> s.contains(y) && y != x,
    decreases s.len(),
{
    if s.len() > 0 {
        let init = s.drop_last();
        lemma_without_contains(init, x, y);
        if s.contains(y) {
            let i = choose|i: int| 0 <= i < s.len() && s[i] == y;
            if i < init.len() {
                assert(init[i] == y);
            }
        }
        if init.contains(y) {
            let i = choose|i: int| 0 <= i < init.len() && init[i] == y;
            assert(s[i] == y);
        }
        assert(s[s.len() - 1] == s.last());
        let w = without(init, x);
        if s.last() != x {
            let p = w.push(s.last());
            if w.contains(y) {
                let i = choose|i: int| 0 <= i < w.len() && w[i] == y;
                assert(p[i] == y);
            }
            assert(p[w.len() as int] == s.last());
            if p.contains(y) {
                let i = choose|i: int| 0 <= i < p.len() && p[i] == y;
                if i < w.len() {
                    assert(w[i] == y);
                }
            }
        }
    }
}

// ----------------------------------------------------------------- the signal

/// The signal lists the tokens with a locked amount, in their order: each with
/// that amount and with what was minted of it.
pub proof fn law_signal_lists_the_locked(
    locked: Seq<(EVMAddress, EVMU256)>,
    minted: Map<EVMAddress, EVMU256>,
)
    ensures
        imbalances_of(locked, minted) == locked.filter(
            |e: (EVMAddress, EVMU256)| e.1.value() != 0,
        ).map_values(|e: (EVMAddress, EVMU256)| (cut(e.1.value()), cut(amount(minted, e.0)))),
    decreases locked.len(),
{
    reveal(Seq::filter);
    let keep = |e: (EVMAddress, EVMU256)| e.1.value() != 0;
    let show = |e: (EVMAddress, EVMU256)| (cut(e.1.value()), cut(amount(minted, e.0)));
    if locked.len() > 0 {
        law_signal_lists_the_locked(locked.drop_last(), minted);
        let rest = locked.drop_last().filter(keep);
        if keep(locked.last()) {
            assert(locked.filter(keep) == rest.push(locked.last()));
            assert(rest.push(locked.last()).map_values(show) =~= rest.map_values(show).push(
                show(locked.last()),
            ));
        }
    }
    assert(imbalances_of(locked, minted) =~= locked.filter(keep).map_values(show));
}

/// A number is cut to the largest one that fits, and stays as it is where it
/// fits.
pub proof fn law_cut_stops_at_the_largest(n: nat, m: nat)
    ensures
        cut(n) <= n,
        n <= u128::MAX ==> cut(n) == n,
        n > u128::MAX ==> cut(n) == u128::MAX,
        n <= m ==> cut(n) <= cut(m),
{
}

} // verus!
