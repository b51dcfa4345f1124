//! The bandit scheduler: which corpus entry comes next, and which are dropped.
//!
//! Each corpus entry is an arm. Rewards, their means and the scores made of
//! them are real numbers, and are computed by the caller; here a mean or a score
//! is an integer that is ordered as the number it stands for.

use std::collections::HashMap;
use std::marker::PhantomData;

use vstd::prelude::*;
use vstd::std_specs::iter::IteratorSpec;

use crate::collections::ascending;
use crate::evm::cross_chain::{amount, amount_of, DualChainState};
use crate::evm::types::{EVMAddress, EVMU256};

verus! {

/// The arms below this one are never dropped.
pub const FIRST_DROPPABLE: usize = 3;

/// Where the scheduler draws its lines.
#[derive(Clone, Copy, Debug, PartialEq, Eq, Structural)]
pub struct SchedulerLimits {
    /// The corpus size above which arms are dropped.
    pub drop_threshold: usize,
    /// How many arms are looked at, from the lowest mean up.
    pub prune_amt: usize,
    /// The mean of an arm without rewards.
    pub init_q: u64,
    /// The highest mean of an arm that is dropped.
    pub prune_q_threshold: u64,
}

/// The state of the bandit.
pub struct RLMetadata {
    /// The mean reward of each arm.
    pub mean_reward: HashMap<usize, u64>,
    /// How often each arm was rewarded.
    pub visit_count: HashMap<usize, u64>,
    /// The number of rewards; starts at one, so that it has a logarithm.
    pub total_visits: u64,
    /// The arm that was selected last.
    pub last_selected: Option<usize>,
    pub exploit_count: usize,
    pub explore_count: usize,
    /// The arms that were dropped when the last arm was added.
    pub to_remove: Vec<usize>,
}

/// What an [`RLMetadata`] holds.
#[verifier::ext_equal]
pub struct MetaView {
    pub mean_reward: Map<usize, u64>,
    pub visit_count: Map<usize, u64>,
    pub total_visits: u64,
    pub last_selected: Option<usize>,
    pub exploit_count: usize,
    pub explore_count: usize,
    pub to_remove: Seq<usize>,
}

impl View for RLMetadata {
    type V = MetaView;

    open spec fn view(&self) -> MetaView {
        MetaView {
            mean_reward: self.mean_reward@,
            visit_count: self.visit_count@,
            total_visits: self.total_visits,
            last_selected: self.last_selected,
            exploit_count: self.exploit_count,
            explore_count: self.explore_count,
            to_remove: self.to_remove@,
        }
    }
}

/// Whether `s` lists the entries of `m`, each once, in some order.
pub open spec fn walks(s: Seq<(usize, u64)>, m: Map<usize, u64>) -> bool {
    &&& forall|i: int, j: int| 0 <= i < j < s.len() ==> (#[trigger] s[i]).0 != (#[trigger] s[j]).0
    &&& forall|i: int| 0 <= i < s.len() ==> m.contains_key((#[trigger] s[i]).0) && m[s[i].0] == s[i].1
    &&& forall|k: usize| #[trigger]
        m.contains_key(k) ==> exists|i: int| 0 <= i < s.len() && (#[trigger] s[i]).0 == k
}

/// `x` put behind the last entry of `s` whose score is not higher.
pub open spec fn placed(s: Seq<(usize, u64)>, x: (usize, u64)) -> Seq<(usize, u64)>
    decreases s.len(),
{
    if s.len() == 0 || s.last().1 <= x.1 {
        s.push(x)
    } else {
        placed(s.drop_last(), x).push(s.last())
    }
}

/// The entries in ascending order of their scores; equal ones keep their order.
pub open spec fn by_score(s: Seq<(usize, u64)>) -> Seq<(usize, u64)>
    decreases s.len(),
{
    if s.len() == 0 {
        s
    } else {
        placed(by_score(s.drop_last()), s.last())
    }
}

/// Whether an arm may be dropped when the arm `added` comes in.
pub open spec fn droppable(limits: SchedulerLimits, added: usize, c: (usize, u64)) -> bool {
    c.0 >= FIRST_DROPPABLE && c.0 != added && c.1 <= limits.prune_q_threshold
}

/// The arms among `s` that may be dropped, in order.
pub open spec fn droppable_of(
    limits: SchedulerLimits,
    added: usize,
    s: Seq<(usize, u64)>,
) -> Seq<usize>
    decreases s.len(),
{
    if s.len() == 0 {
        Seq::empty()
    } else {
        let rest = droppable_of(limits, added, s.drop_last());
        if droppable(limits, added, s.last()) {
            rest.push(s.last().0)
        } else {
            rest
        }
    }
}

/// The smaller of two numbers.
pub open spec fn least(a: int, b: int) -> int {
    if a <= b {
        a
    } else {
        b
    }
}

/// The arms that are dropped when `added` comes in and the arms are walked in
/// the order of `listing`.
pub open spec fn dropped_arms(
    limits: SchedulerLimits,
    added: usize,
    listing: Seq<(usize, u64)>,
) -> Seq<usize> {
    droppable_of(
        limits,
        added,
        by_score(listing).take(least(limits.prune_amt as int, listing.len() as int)),
    )
}

/// `s` without the occurrences of `x`.
pub open spec fn without(s: Seq<usize>, x: usize) -> Seq<usize>
    decreases s.len(),
{
    if s.len() == 0 {
        s
    } else if s.last() == x {
        without(s.drop_last(), x)
    } else {
        without(s.drop_last(), x).push(s.last())
    }
}

/// Whether `i` is the last place of the highest of `scores`.
pub open spec fn last_highest(scores: Seq<u64>, i: int) -> bool {
    &&& 0 <= i < scores.len()
    &&& forall|j: int| 0 <= j < scores.len() ==> #[trigger] scores[j] <= scores[i]
    &&& forall|j: int| i < j < scores.len() ==> #[trigger] scores[j] < scores[i]
}

/// How the next arm is selected.
pub enum Draw {
    /// The arm at the given place, or the last one where there is no such place.
    Explore(usize),
    /// The arm with the highest score; the scores are in the order of the arms.
    Exploit(Vec<u64>),
}

impl Draw {
    /// Whether `arm` is what the draw selects of `arms`.
    pub open spec fn selects(self, arms: Seq<usize>, arm: usize) -> bool {
        match self {
            Draw::Explore(i) => arm == arms[least(i as int, arms.len() - 1)],
            Draw::Exploit(scores) => exists|i: int| #[trigger]
                last_highest(scores@, i) && arm == arms[i],
        }
    }

    /// Whether there is a score for each arm, where scores are needed.
    pub open spec fn fits(self, arms: Seq<usize>) -> bool {
        self matches Draw::Exploit(scores) ==> scores@.len() == arms.len()
    }
}

impl MetaView {
    /// No arm is known.
    pub open spec fn fresh() -> MetaView {
        MetaView {
            mean_reward: Map::empty(),
            visit_count: Map::empty(),
            total_visits: 1,
            last_selected: None,
            exploit_count: 0,
            explore_count: 0,
            to_remove: Seq::empty(),
        }
    }

    /// The mean of an arm.
    pub open spec fn mean(self, init_q: u64, idx: usize) -> u64 {
        if self.mean_reward.contains_key(idx) {
            self.mean_reward[idx]
        } else {
            init_q
        }
    }

    /// How often an arm was rewarded, or `unknown` where it is not known.
    pub open spec fn visits(self, idx: usize, unknown: u64) -> u64 {
        if self.visit_count.contains_key(idx) {
            self.visit_count[idx]
        } else {
            unknown
        }
    }

    /// After a reward that makes `new_mean` the mean of the arm.
    pub open spec fn updated(self, idx: usize, new_mean: u64) -> MetaView {
        MetaView {
            mean_reward: self.mean_reward.insert(idx, new_mean),
            visit_count: self.visit_count.insert(idx, (self.visits(idx, 0) + 1) as u64),
            total_visits: (self.total_visits + 1) as u64,
            ..self
        }
    }

    /// After an arm came in.
    pub open spec fn registered(self, init_q: u64, idx: usize) -> MetaView {
        MetaView {
            mean_reward: self.mean_reward.insert(idx, self.mean(init_q, idx)),
            visit_count: self.visit_count.insert(idx, self.visits(idx, 1)),
            ..self
        }
    }

    /// After an arm was removed.
    pub open spec fn forgot(self, idx: usize) -> MetaView {
        MetaView {
            mean_reward: self.mean_reward.remove(idx),
            visit_count: self.visit_count.remove(idx),
            last_selected: if self.last_selected == Some(idx) {
                None
            } else {
                self.last_selected
            },
            ..self
        }
    }

    /// Whether the counters have room for a reward of `idx`.
    pub open spec fn can_update(self, idx: usize) -> bool {
        self.visits(idx, 0) < u64::MAX && self.total_visits < u64::MAX
    }

    /// After a selection: it is counted, and nothing else changes.
    pub open spec fn selected(self, draw: Draw) -> MetaView {
        MetaView {
            explore_count: if draw is Explore {
                (self.explore_count + 1) as usize
            } else {
                self.explore_count
            },
            exploit_count: if draw is Exploit {
                (self.exploit_count + 1) as usize
            } else {
                self.exploit_count
            },
            ..self
        }
    }

    /// Whether the counter of such a selection has room.
    pub open spec fn can_select(self, draw: Draw) -> bool {
        &&& draw is Explore ==> self.explore_count < usize::MAX
        &&& draw is Exploit ==> self.exploit_count < usize::MAX
    }
}

impl RLMetadata {
    pub fn new() -> (r: RLMetadata)
        ensures
            r@ == MetaView::fresh(),
    {
        let r = RLMetadata {
            mean_reward: HashMap::new(),
            visit_count: HashMap::new(),
            total_visits: 1,
            last_selected: None,
            exploit_count: 0,
            explore_count: 0,
            to_remove: Vec::new(),
        };
        assert(r@ =~= MetaView::fresh());
        r
    }

    /// The mean reward of an arm; `init_q` where it is not known.
    pub fn get_mean(&self, init_q: u64, idx: usize) -> (r: u64)
        ensures
            r == self@.mean(init_q, idx),
    {
        broadcast use vstd::std_specs::hash::group_hash_axioms;

        match self.mean_reward.get(&idx) {
            Some(m) => *m,
            None => init_q,
        }
    }

    /// How often an arm was rewarded; `unknown` where it is not known.
    fn visits_of(&self, idx: usize, unknown: u64) -> (r: u64)
        ensures
            r == self@.visits(idx, unknown),
    {
        broadcast use vstd::std_specs::hash::group_hash_axioms;

        match self.visit_count.get(&idx) {
            Some(n) => *n,
            None => unknown,
        }
    }

    /// What the score of an arm is made of: its mean, how often it was rewarded,
    /// and the number of all rewards.
    pub fn ucb_terms(&self, init_q: u64, idx: usize) -> (r: (u64, u64, u64))
        ensures
            r == (self@.mean(init_q, idx), self@.visits(idx, 1), self@.total_visits),
    {
        (self.get_mean(init_q, idx), self.visits_of(idx, 1), self.total_visits)
    }

    /// What the next mean of an arm is made of, besides the reward: its mean, and
    /// the number of its rewards with the next one. Nothing where a counter is
    /// used up.
    pub fn update_terms(&self, init_q: u64, idx: usize) -> (r: Option<(u64, u64)>)
        ensures
            r == if self@.can_update(idx) {
                Some((self@.mean(init_q, idx), (self@.visits(idx, 0) + 1) as u64))
            } else {
                None
            },
    {
        let visits: u64 = self.visits_of(idx, 0);
        if visits < u64::MAX && self.total_visits < u64::MAX {
            Some((self.get_mean(init_q, idx), visits + 1))
        } else {
            None
        }
    }

    /// Takes a reward that makes `new_mean` the mean of the arm.
    pub fn update(&mut self, idx: usize, new_mean: u64)
        requires
            old(self)@.can_update(idx),
        ensures
            final(self)@ == old(self)@.updated(idx, new_mean),
    {
        broadcast use vstd::std_specs::hash::group_hash_axioms;

        let visits: u64 = self.visits_of(idx, 0);
        self.visit_count.insert(idx, visits + 1);
        self.mean_reward.insert(idx, new_mean);
        self.total_visits = self.total_visits + 1;
        assert(self@ =~= old(self)@.updated(idx, new_mean));
    }

    /// Selects one of `arms`.
    pub fn select(&mut self, arms: &[usize], draw: &Draw) -> (r: usize)
        requires
            arms@.len() > 0,
            draw.fits(arms@),
            old(self)@.can_select(*draw),
        ensures
            draw.selects(arms@, r),
            final(self)@ == old(self)@.selected(*draw),
    {
        let n: usize = arms.len();
        let arm: usize = match draw {
            Draw::Explore(i) => {
                self.explore_count = self.explore_count + 1;
                if *i < n {
                    arms[*i]
                } else {
                    arms[n - 1]
                }
            },
            Draw::Exploit(scores) => {
                self.exploit_count = self.exploit_count + 1;
                let best: usize = place_of_highest(scores);
                assert(last_highest(scores@, best as int));
                arms[best]
            },
        };
        assert(self@ =~= old(self)@.selected(*draw));
        arm
    }

    /// The arms, in the order in which the map is walked.
    pub fn arms(&self) -> (r: Vec<usize>)
        ensures
            r@.no_duplicates(),
            r@.to_set() == self@.mean_reward.dom(),
    {
        broadcast use vstd::std_specs::hash::group_hash_axioms;

        let mut r: Vec<usize> = Vec::new();
        let ghost walked = self.mean_reward.keys().remaining();
        for k in it: self.mean_reward.keys()
            invariant
                it.seq() == walked,
                it.seq().unref().to_set() == self.mean_reward@.dom(),
                it.seq().no_duplicates(),
                r@.len() == it.index(),
                forall|i: int| 0 <= i < r@.len() ==> r@[i] == *it.seq()[i],
        {
            r.push(*k);
        }
        assert(r@ =~= walked.unref());
        r
    }

    /// The arms and their means, in the order in which the map is walked.
    fn listing(&self) -> (r: Vec<(usize, u64)>)
        ensures
            walks(r@, self@.mean_reward),
    {
        broadcast use vstd::std_specs::hash::group_hash_axioms;

        let mut r: Vec<(usize, u64)> = Vec::new();
        let arms = self.arms();
        let mut i: usize = 0;
        while i < arms.len()
            invariant
                i <= arms@.len(),
                arms@.no_duplicates(),
                arms@.to_set() == self@.mean_reward.dom(),
                r@.len() == i,
                forall|j: int|
                    0 <= j < i ==> (#[trigger] r@[j]).0 == arms@[j] && self@.mean_reward.contains_key(
                        r@[j].0,
                    ) && self@.mean_reward[r@[j].0] == r@[j].1,
            decreases arms.len() - i,
        {
            let arm: usize = arms[i];
            assert(arms@.to_set().contains(arm));
            let mean: u64 = self.get_mean(0, arm);
            r.push((arm, mean));
            i = i + 1;
        }
        assert forall|k: usize| #[trigger] self@.mean_reward.contains_key(k) implies exists|i: int|
            0 <= i < r@.len() && (#[trigger] r@[i]).0 == k by {
            assert(arms@.to_set().contains(k));
            let i = choose|i: int| 0 <= i < arms@.len() && arms@[i] == k;
            assert(r@[i].0 == k);
        }
        r
    }

    /// Makes an arm known, unless it is.
    fn register(&mut self, init_q: u64, idx: usize)
        ensures
            final(self)@ == old(self)@.registered(init_q, idx),
    {
        broadcast use vstd::std_specs::hash::group_hash_axioms;

        let mean: u64 = self.get_mean(init_q, idx);
        let visits: u64 = self.visits_of(idx, 1);
        self.mean_reward.insert(idx, mean);
        self.visit_count.insert(idx, visits);
        assert(self@ =~= old(self)@.registered(init_q, idx));
    }

    /// Forgets an arm.
    pub fn forget(&mut self, idx: usize)
        ensures
            final(self)@ == old(self)@.forgot(idx),
    {
        broadcast use vstd::std_specs::hash::group_hash_axioms;

        self.mean_reward.remove(&idx);
        self.visit_count.remove(&idx);
        if let Some(last) = self.last_selected {
            if last == idx {
                self.last_selected = None;
            }
        }
        assert(self@ =~= old(self)@.forgot(idx));
    }
}

impl Default for RLMetadata {
    fn default() -> (r: RLMetadata)
        ensures
            r@ == MetaView::fresh(),
    {
        Self::new()
    }
}

/// The last place of the highest score.
fn place_of_highest(scores: &Vec<u64>) -> (r: usize)
    requires
        scores@.len() > 0,
    ensures
        last_highest(scores@, r as int),
{
    let mut best: usize = 0;
    let mut i: usize = 1;
    while i < scores.len()
        invariant
            best < i <= scores@.len(),
            forall|j: int| 0 <= j < i ==> #[trigger] scores@[j] <= scores@[best as int],
            forall|j: int| best < j < i ==> #[trigger] scores@[j] < scores@[best as int],
        decreases scores.len() - i,
    {
        if scores[i] >= scores[best] {
            best = i;
        }
        i = i + 1;
    }
    best
}

/// Where an entry goes: behind `at` entries, with only higher scores to follow.
proof fn lemma_placed(s: Seq<(usize, u64)>, x: (usize, u64), at: int)
    requires
        0 <= at <= s.len(),
        at > 0 ==> s[at - 1].1 <= x.1,
        forall|j: int| at <= j < s.len() ==> (#[trigger] s[j]).1 > x.1,
    ensures
        placed(s, x) == s.insert(at, x),
    decreases s.len(),
{
    if at < s.len() {
        let init = s.drop_last();
        assert(s.last().1 > x.1);
        assert forall|j: int| at <= j < init.len() implies (#[trigger] init[j]).1 > x.1 by {
            assert(init[j] == s[j]);
        }
        lemma_placed(init, x, at);
        assert(init.insert(at, x).push(s.last()) =~= s.insert(at, x));
    } else {
        assert(s.push(x) =~= s.insert(at, x));
    }
}

/// The entries in ascending order of their scores; equal ones keep their order.
fn sort_by_score(entries: &Vec<(usize, u64)>) -> (r: Vec<(usize, u64)>)
    ensures
        r@ == by_score(entries@),
        r@.len() == entries@.len(),
{
    let mut r: Vec<(usize, u64)> = Vec::new();
    let mut i: usize = 0;
    assert(entries@.take(0) =~= Seq::<(usize, u64)>::empty());
    while i < entries.len()
        invariant
            i <= entries@.len(),
            r@.len() == i,
            r@ == by_score(entries@.take(i as int)),
        decreases entries.len() - i,
    {
        let x = entries[i];
        let mut at: usize = r.len();
        while at > 0 && r[at - 1].1 > x.1
            invariant
                at <= r@.len(),
                forall|j: int| at <= j < r@.len() ==> (#[trigger] r@[j]).1 > x.1,
            decreases at,
        {
            at = at - 1;
        }
        proof {
            lemma_placed(r@, x, at as int);
            assert(entries@.take(i + 1).drop_last() =~= entries@.take(i as int));
            assert(entries@.take(i + 1).last() == x);
        }
        r.insert(at, x);
        i = i + 1;
    }
    assert(entries@.take(i as int) =~= entries@);
    r
}

/// The arms that are dropped when `added` comes in, given the arms and their
/// means in some order.
pub fn arms_to_drop(limits: &SchedulerLimits, added: usize, listing: &Vec<(usize, u64)>) -> (r: Vec<
    usize,
>)
    ensures
        r@ == dropped_arms(*limits, added, listing@),
{
    let sorted = sort_by_score(listing);
    let n: usize = if limits.prune_amt <= sorted.len() {
        limits.prune_amt
    } else {
        sorted.len()
    };
    let ghost looked_at = sorted@.take(n as int);
    let mut r: Vec<usize> = Vec::new();
    let mut i: usize = 0;
    assert(looked_at.take(0) =~= Seq::<(usize, u64)>::empty());
    while i < n
        invariant
            i <= n <= sorted@.len(),
            looked_at == sorted@.take(n as int),
            r@ == droppable_of(*limits, added, looked_at.take(i as int)),
        decreases n - i,
    {
        let c = sorted[i];
        assert(looked_at.take(i + 1).drop_last() =~= looked_at.take(i as int));
        assert(looked_at.take(i + 1).last() == c);
        if c.0 >= FIRST_DROPPABLE && c.0 != added && c.1 <= limits.prune_q_threshold {
            r.push(c.0);
        }
        i = i + 1;
    }
    assert(looked_at.take(n as int) =~= looked_at);
    r
}

// ---------------------------------------------------------------------- votes

/// The votes on arms that other schedulers keep.
pub struct VoteData {
    pub votes_and_visits: HashMap<usize, (usize, usize)>,
    pub sorted_votes: Vec<usize>,
    pub visits_total: usize,
    pub votes_total: usize,
    pub to_remove: Vec<usize>,
}

/// What a [`VoteData`] holds.
#[verifier::ext_equal]
pub struct VotesView {
    pub votes_and_visits: Map<usize, (usize, usize)>,
    pub sorted_votes: Seq<usize>,
    pub visits_total: usize,
    pub votes_total: usize,
    pub to_remove: Seq<usize>,
}

impl View for VoteData {
    type V = VotesView;

    open spec fn view(&self) -> VotesView {
        VotesView {
            votes_and_visits: self.votes_and_visits@,
            sorted_votes: self.sorted_votes@,
            visits_total: self.visits_total,
            votes_total: self.votes_total,
            to_remove: self.to_remove@,
        }
    }
}

impl VotesView {
    /// No votes.
    pub open spec fn fresh() -> VotesView {
        VotesView {
            votes_and_visits: Map::empty(),
            sorted_votes: Seq::empty(),
            visits_total: 1,
            votes_total: 1,
            to_remove: Seq::empty(),
        }
    }

    /// After an arm was removed.
    pub open spec fn forgot(self, idx: usize) -> VotesView {
        VotesView {
            votes_and_visits: self.votes_and_visits.remove(idx),
            sorted_votes: without(self.sorted_votes, idx),
            ..self
        }
    }
}

impl VoteData {
    pub fn new() -> (r: VoteData)
        ensures
            r@ == VotesView::fresh(),
    {
        let r = VoteData {
            votes_and_visits: HashMap::new(),
            sorted_votes: Vec::new(),
            visits_total: 1,
            votes_total: 1,
            to_remove: Vec::new(),
        };
        assert(r@ =~= VotesView::fresh());
        r
    }

    /// Forgets an arm.
    pub fn forget(&mut self, idx: usize)
        ensures
            final(self)@ == old(self)@.forgot(idx),
    {
        broadcast use vstd::std_specs::hash::group_hash_axioms;

        self.votes_and_visits.remove(&idx);
        let ghost all = self.sorted_votes@;
        let mut kept: Vec<usize> = Vec::new();
        let mut i: usize = 0;
        assert(all.take(0) =~= Seq::<usize>::empty());
        while i < self.sorted_votes.len()
            invariant
                all == self.sorted_votes@,
                i <= all.len(),
                kept@ == without(all.take(i as int), idx),
            decreases self.sorted_votes.len() - i,
        {
            assert(all.take(i + 1).drop_last() =~= all.take(i as int));
            assert(all.take(i + 1).last() == all[i as int]);
            if self.sorted_votes[i] != idx {
                kept.push(self.sorted_votes[i]);
            }
            i = i + 1;
        }
        assert(all.take(i as int) =~= all);
        self.sorted_votes = kept;
        assert(self@ =~= old(self)@.forgot(idx));
    }
}

// ------------------------------------------------------------------ scheduler

/// What the scheduler keeps in the state of the fuzzer; each part is made when
/// it is first needed.
pub struct SchedulerMetadata {
    pub rl: Option<RLMetadata>,
    pub votes: Option<VoteData>,
}

/// What a [`SchedulerMetadata`] holds.
#[verifier::ext_equal]
pub struct SchedulerView {
    pub rl: Option<MetaView>,
    pub votes: Option<VotesView>,
}

impl View for SchedulerMetadata {
    type V = SchedulerView;

    open spec fn view(&self) -> SchedulerView {
        SchedulerView {
            rl: match self.rl {
                Some(m) => Some(m@),
                None => None,
            },
            votes: match self.votes {
                Some(v) => Some(v@),
                None => None,
            },
        }
    }
}

impl SchedulerView {
    /// The state of the bandit.
    pub open spec fn bandit(self) -> MetaView {
        match self.rl {
            Some(m) => m,
            None => MetaView::fresh(),
        }
    }

    /// The votes.
    pub open spec fn ballot(self) -> VotesView {
        match self.votes {
            Some(v) => v,
            None => VotesView::fresh(),
        }
    }

    /// After an arm was removed.
    pub open spec fn forgot(self, idx: usize) -> SchedulerView {
        SchedulerView {
            rl: match self.rl {
                Some(m) => Some(m.forgot(idx)),
                None => None,
            },
            votes: match self.votes {
                Some(v) => Some(v.forgot(idx)),
                None => None,
            },
        }
    }

    /// After arms were removed, in order.
    pub open spec fn forgot_all(self, arms: Seq<usize>) -> SchedulerView
        decreases arms.len(),
    {
        if arms.len() == 0 {
            self
        } else {
            self.forgot_all(arms.drop_last()).forgot(arms.last())
        }
    }

    /// After a reward for the last execution: the arm that was selected for it is
    /// rewarded, and nothing happens where there is none.
    pub open spec fn rewarded_last(self, new_mean: u64) -> SchedulerView {
        match self.bandit().last_selected {
            Some(idx) => SchedulerView {
                rl: Some(self.bandit().updated(idx, new_mean)),
                ..self
            },
            None => self,
        }
    }

    /// After the reward for the last execution, where there is one.
    pub open spec fn rewarded(self, reward: Option<u64>) -> SchedulerView {
        match reward {
            Some(new_mean) => self.rewarded_last(new_mean),
            None => self,
        }
    }

    /// After the arm `idx` was made known.
    pub open spec fn registered(self, init_q: u64, idx: usize) -> SchedulerView {
        SchedulerView {
            rl: Some(self.bandit().registered(init_q, idx)),
            votes: Some(self.ballot()),
        }
    }

    /// After the arm `idx` came into a corpus that is too large, and the arms
    /// that were dropped for it; `listing` is the order in which the arms were
    /// walked.
    pub open spec fn added(
        self,
        limits: SchedulerLimits,
        idx: usize,
        listing: Seq<(usize, u64)>,
    ) -> (SchedulerView, Seq<usize>) {
        let dropped = dropped_arms(limits, idx, listing);
        let after = self.registered(limits.init_q, idx).forgot_all(dropped);
        (
            SchedulerView {
                rl: Some(MetaView { to_remove: dropped, ..after.bandit() }),
                ..after
            },
            dropped,
        )
    }
}

impl SchedulerMetadata {
    pub fn new() -> (r: SchedulerMetadata)
        ensures
            r@ == (SchedulerView { rl: None, votes: None }),
    {
        SchedulerMetadata { rl: None, votes: None }
    }

    /// Makes the state of the bandit where there is none.
    fn prepare(&mut self)
        ensures
            final(self)@ == (SchedulerView { rl: Some(old(self)@.bandit()), ..old(self)@ }),
            final(self).rl is Some,
    {
        if self.rl.is_none() {
            self.rl = Some(RLMetadata::new());
        }
    }

    /// What the next mean of an arm is made of, besides the reward; nothing where
    /// a counter is used up.
    pub fn update_terms(&self, init_q: u64, idx: usize) -> (r: Option<(u64, u64)>)
        ensures
            r == if self@.bandit().can_update(idx) {
                Some((self@.bandit().mean(init_q, idx), (self@.bandit().visits(idx, 0) + 1) as u64))
            } else {
                None
            },
    {
        match &self.rl {
            Some(m) => m.update_terms(init_q, idx),
            None => Some((init_q, 1)),
        }
    }
}

/// Why no arm can be selected.
#[derive(Clone, Copy, Debug, PartialEq, Eq, Structural)]
pub enum SchedulerError {
    EmptyCorpus,
}

/// The scheduler; `S` is the state of the fuzzer that it works for.
pub struct RLScheduler<S> {
    pub phantom: PhantomData<S>,
}

impl<S> Default for RLScheduler<S> {
    fn default() -> (r: RLScheduler<S>)
        ensures
            r == (RLScheduler::<S> { phantom: PhantomData }),
    {
        Self::new()
    }
}

impl<S> RLScheduler<S> {
    pub fn new() -> (r: RLScheduler<S>)
        ensures
            r == (RLScheduler::<S> { phantom: PhantomData }),
    {
        RLScheduler { phantom: PhantomData }
    }

    /// A reward for an arm, which makes `new_mean` its mean.
    fn reward(&self, state: &mut SchedulerMetadata, idx: usize, new_mean: u64)
        requires
            old(state)@.bandit().can_update(idx),
        ensures
            final(state)@ == (SchedulerView {
                rl: Some(old(state)@.bandit().updated(idx, new_mean)),
                ..old(state)@
            }),
    {
        state.prepare();
        match &mut state.rl {
            Some(m) => m.update(idx, new_mean),
            None => {},
        }
    }

    /// A vote for an arm is a small reward.
    pub fn vote(&self, state: &mut SchedulerMetadata, idx: usize, new_mean: u64)
        requires
            old(state)@.bandit().can_update(idx),
        ensures
            final(state)@ == (SchedulerView {
                rl: Some(old(state)@.bandit().updated(idx, new_mean)),
                ..old(state)@
            }),
    {
        self.reward(state, idx, new_mean);
    }

    /// A state that turned out interesting is rewarded.
    pub fn report_corpus(&self, state: &mut SchedulerMetadata, state_idx: usize, new_mean: u64)
        requires
            old(state)@.bandit().can_update(state_idx),
        ensures
            final(state)@ == (SchedulerView {
                rl: Some(old(state)@.bandit().updated(state_idx, new_mean)),
                ..old(state)@
            }),
    {
        self.reward(state, state_idx, new_mean);
    }

    /// A state that is sponsored is rewarded.
    pub fn sponsor_state(&self, state: &mut SchedulerMetadata, state_idx: usize, new_mean: u64)
        requires
            old(state)@.bandit().can_update(state_idx),
        ensures
            final(state)@ == (SchedulerView {
                rl: Some(old(state)@.bandit().updated(state_idx, new_mean)),
                ..old(state)@
            }),
    {
        self.reward(state, state_idx, new_mean);
    }

    /// Takes in the arm `idx`. Where the corpus is too large, drops arms with low
    /// means; says which are to leave the corpus.
    pub fn on_add(
        &mut self,
        state: &mut SchedulerMetadata,
        limits: &SchedulerLimits,
        idx: usize,
        corpus_size: usize,
    ) -> (r: Vec<usize>)
        ensures
            corpus_size <= limits.drop_threshold ==> (final(state)@, r@) == (
                old(state)@.registered(limits.init_q, idx),
                Seq::<usize>::empty(),
            ),
            corpus_size > limits.drop_threshold ==> exists|listing: Seq<(usize, u64)>|
                #![trigger walks(listing, old(state)@.registered(limits.init_q, idx).bandit().mean_reward)]
                {
                    &&& walks(
                        listing,
                        old(state)@.registered(limits.init_q, idx).bandit().mean_reward,
                    )
                    &&& (final(state)@, r@) == old(state)@.added(*limits, idx, listing)
                },
    {
        state.prepare();
        if state.votes.is_none() {
            state.votes = Some(VoteData::new());
        }
        match &mut state.rl {
            Some(m) => m.register(limits.init_q, idx),
            None => {},
        }
        let ghost known = old(state)@.registered(limits.init_q, idx);
        assert(state@ =~= known);
        if corpus_size <= limits.drop_threshold {
            return Vec::new();
        }
        let listing = match &state.rl {
            Some(m) => m.listing(),
            None => Vec::new(),
        };
        assert(walks(listing@, known.bandit().mean_reward));
        let dropped = arms_to_drop(limits, idx, &listing);
        let mut i: usize = 0;
        assert(dropped@.take(0) =~= Seq::<usize>::empty());
        while i < dropped.len()
            invariant
                i <= dropped@.len(),
                state@.rl is Some,
                state@ == known.forgot_all(dropped@.take(i as int)),
            decreases dropped.len() - i,
        {
            assert(dropped@.take(i + 1).drop_last() =~= dropped@.take(i as int));
            assert(dropped@.take(i + 1).last() == dropped@[i as int]);
            self.on_remove(state, dropped[i]);
            i = i + 1;
        }
        assert(dropped@.take(i as int) =~= dropped@);
        let to_remove = dropped.clone();
        assert(to_remove@ =~= dropped@);
        match &mut state.rl {
            Some(m) => {
                m.to_remove = to_remove;
            },
            None => {},
        }
        dropped
    }

    /// Forgets the arm `idx`.
    pub fn on_remove(&mut self, state: &mut SchedulerMetadata, idx: usize)
        ensures
            final(state)@ == old(state)@.forgot(idx),
    {
        match &mut state.rl {
            Some(m) => m.forget(idx),
            None => {},
        }
        match &mut state.votes {
            Some(v) => v.forget(idx),
            None => {},
        }
    }

    /// The arm that a reward for the last execution goes to.
    pub fn awaiting_reward(&self, state: &SchedulerMetadata) -> (r: Option<usize>)
        ensures
            r == state@.bandit().last_selected,
    {
        match &state.rl {
            Some(m) => m.last_selected,
            None => None,
        }
    }

    /// A reward for the last execution, which makes `new_mean` the mean of the arm
    /// that was selected for it; says whether there is such an arm.
    pub fn reward_last(&self, state: &mut SchedulerMetadata, new_mean: u64) -> (r: bool)
        requires
            old(state)@.bandit().last_selected matches Some(idx) ==> old(
                state,
            )@.bandit().can_update(idx),
        ensures
            r == (old(state)@.bandit().last_selected is Some),
            final(state)@ == old(state)@.rewarded_last(new_mean),
    {
        match self.awaiting_reward(state) {
            Some(idx) => {
                self.reward(state, idx, new_mean);
                true
            },
            None => false,
        }
    }

    /// The arms to select from, in the order in which the map is walked.
    pub fn arms(&self, state: &SchedulerMetadata) -> (r: Vec<usize>)
        ensures
            r@.no_duplicates(),
            r@.to_set() == state@.bandit().mean_reward.dom(),
    {
        match &state.rl {
            Some(m) => m.arms(),
            None => {
                let r: Vec<usize> = Vec::new();
                assert(r@.to_set() =~= Set::<usize>::empty());
                r
            },
        }
    }

    /// Gives the reward for the last execution, where there is one, to the arm that
    /// was selected for it; then selects the next arm, and remembers it. `reward`
    /// is the mean that the reward makes; `arms` and `draw` are those after it.
    pub fn next(
        &mut self,
        state: &mut SchedulerMetadata,
        reward: Option<u64>,
        arms: &[usize],
        draw: &Draw,
    ) -> (r: Result<usize, SchedulerError>)
        requires
            draw.fits(arms@),
            arms@.len() > 0 ==> old(state)@.bandit().can_select(*draw),
            reward is Some ==> (old(state)@.bandit().last_selected matches Some(idx) ==> old(
                state,
            )@.bandit().can_update(idx)),
        ensures
            r is Err <==> arms@.len() == 0,
            ({
                let rewarded = old(state)@.rewarded(reward);
                &&& arms@.to_set() == rewarded.bandit().mean_reward.dom() ==> (r matches Ok(arm)
                    ==> rewarded.bandit().mean_reward.contains_key(arm))
                &&& match r {
                    Ok(arm) => {
                        &&& draw.selects(arms@, arm)
                        &&& final(state)@ == (SchedulerView {
                            rl: Some(
                                MetaView {
                                    last_selected: Some(arm),
                                    ..rewarded.bandit().selected(*draw)
                                },
                            ),
                            ..rewarded
                        })
                    },
                    Err(e) => {
                        &&& e == SchedulerError::EmptyCorpus
                        &&& final(state)@ == (SchedulerView {
                            rl: Some(rewarded.bandit()),
                            ..rewarded
                        })
                    },
                }
            }),
    {
        if let Some(new_mean) = reward {
            self.reward_last(state, new_mean);
        }
        state.prepare();
        if arms.len() == 0 {
            return Err(SchedulerError::EmptyCorpus);
        }
        match &mut state.rl {
            Some(m) => {
                let arm: usize = m.select(arms, draw);
                m.last_selected = Some(arm);
                proof {
                    law_draw_selects_one(*draw, arms@, arm, arm);
                    assert(arms@.to_set().contains(arm));
                }
                Ok(arm)
            },
            None => Err(SchedulerError::EmptyCorpus),
        }
    }
}

// --------------------------------------------------------------------- signal

/// What the reward for a cross-chain step is made of.
pub struct SignalTerms {
    /// A message was enqueued.
    pub message_dispatched: bool,
    /// A message was processed.
    pub message_relayed: bool,
    /// Of each token with a locked amount: that amount and the minted one, each
    /// cut to what fits.
    pub imbalances: Vec<(u128, u128)>,
}

/// A number cut to what fits.
pub open spec fn cut(n: nat) -> u128 {
    if n <= u128::MAX {
        n as u128
    } else {
        u128::MAX
    }
}

/// Of each of the tokens with a locked amount: that amount and the minted one.
pub open spec fn imbalances_of(
    locked: Seq<(EVMAddress, EVMU256)>,
    minted: Map<EVMAddress, EVMU256>,
) -> Seq<(u128, u128)>
    decreases locked.len(),
{
    if locked.len() == 0 {
        Seq::empty()
    } else {
        let rest = imbalances_of(locked.drop_last(), minted);
        let (token, value) = locked.last();
        if value.value() == 0 {
            rest
        } else {
            rest.push((cut(value.value()), cut(amount(minted, token))))
        }
    }
}

/// Compares the queue before and after a step, and the amounts after it.
pub fn build_cross_chain_signal(
    prev_pending: usize,
    prev_processed: usize,
    curr_pending: usize,
    curr_processed: usize,
    state: &DualChainState,
) -> (r: SignalTerms)
    requires
        prev_pending + prev_processed <= usize::MAX,
        curr_pending + curr_processed <= usize::MAX,
    ensures
        r.message_dispatched == (curr_pending + curr_processed > prev_pending + prev_processed),
        r.message_relayed == (curr_processed > prev_processed),
        r.imbalances@ == imbalances_of(ascending(state@.locked_a), state@.minted_b),
{
    let message_dispatched = curr_pending + curr_processed > prev_pending + prev_processed;
    let message_relayed = curr_processed > prev_processed;
    let n: usize = state.locked_a.len();
    let ghost all = state.locked_a.in_order();
    let mut imbalances: Vec<(u128, u128)> = Vec::new();
    let zero = EVMU256::zero();
    let mut i: usize = 0;
    assert(all.take(0) =~= Seq::<(EVMAddress, EVMU256)>::empty());
    while i < n
        invariant
            i <= n == all.len(),
            all == state.locked_a.in_order(),
            zero.value() == 0,
            imbalances@ == imbalances_of(all.take(i as int), state.minted_b@),
        decreases n - i,
    {
        let (token, locked) = state.locked_a.entry_at(i);
        assert(all.take(i + 1).drop_last() =~= all.take(i as int));
        assert(all.take(i + 1).last() == (token, *locked));
        if locked.exceeds(&zero) {
            let minted = amount_of(&state.minted_b, &token);
            imbalances.push((locked.saturating_to_u128(), minted.saturating_to_u128()));
        }
        i = i + 1;
    }
    assert(all.take(i as int) =~= all);
    SignalTerms { message_dispatched, message_relayed, imbalances }
}

// ----------------------------------------------------------------------- laws

/// The entries of a given score, in order.
pub open spec fn of_score(s: Seq<(usize, u64)>, score: u64) -> Seq<(usize, u64)>
    decreases s.len(),
{
    if s.len() == 0 {
        s
    } else if s.last().1 == score {
        of_score(s.drop_last(), score).push(s.last())
    } else {
        of_score(s.drop_last(), score)
    }
}

/// Whether the scores ascend.
pub open spec fn scores_ascend(s: Seq<(usize, u64)>) -> bool {
    forall|i: int, j: int| 0 <= i <= j < s.len() ==> (#[trigger] s[i]).1 <= (#[trigger] s[j]).1
}

/// Sorting by score is a stable sort: the scores ascend, no entry is lost or
/// added, and entries of equal score keep their order.
pub proof fn law_by_score_sorts(s: Seq<(usize, u64)>)
    ensures
        scores_ascend(by_score(s)),
        by_score(s).len() == s.len(),
        by_score(s).to_multiset() == s.to_multiset(),
        forall|score: u64| #[trigger] of_score(by_score(s), score) == of_score(s, score),
    decreases s.len(),
{
    if s.len() > 0 {
        let init = s.drop_last();
        law_by_score_sorts(init);
        lemma_placed_sorts(by_score(init), s.last());
        assert forall|score: u64| #[trigger] of_score(by_score(s), score) == of_score(
            s,
            score,
        ) by {
            lemma_placed_of_score(by_score(init), s.last(), score);
            assert(of_score(by_score(init), score) == of_score(init, score));
        }
        s.to_multiset_ensures();
        init.to_multiset_ensures();
        assert(s =~= init.push(s.last()));
    }
}

proof fn lemma_placed_sorts(s: Seq<(usize, u64)>, x: (usize, u64))
    requires
        scores_ascend(s),
    ensures
        scores_ascend(placed(s, x)),
        placed(s, x).len() == s.len() + 1,
        placed(s, x).to_multiset() == s.to_multiset().insert(x),
        forall|i: int| 0 <= i <= s.len() ==> (#[trigger] placed(s, x)[i]).1 <= x.1 || s.len() > 0
            && placed(s, x)[i].1 <= s.last().1,
    decreases s.len(),
{
    s.to_multiset_ensures();
    if s.len() == 0 || s.last().1 <= x.1 {
    } else {
        let init = s.drop_last();
        assert(scores_ascend(init));
        lemma_placed_sorts(init, x);
        let p = placed(init, x);
        p.to_multiset_ensures();
        init.to_multiset_ensures();
        assert(s =~= init.push(s.last()));
        assert(p.push(s.last()).to_multiset() =~= s.to_multiset().insert(x));
        if init.len() > 0 {
            assert(init.last() == s[s.len() - 2]);
        }
        assert forall|i: int, j: int| 0 <= i <= j < placed(s, x).len() implies (#[trigger] placed(
            s,
            x,
        )[i]).1 <= (#[trigger] placed(s, x)[j]).1 by {
            if j < p.len() {
                assert(placed(s, x)[i] == p[i] && placed(s, x)[j] == p[j]);
            } else if i < p.len() {
                assert(placed(s, x)[i] == p[i]);
            }
        }
    }
}

proof fn lemma_placed_of_score(s: Seq<(usize, u64)>, x: (usize, u64), score: u64)
    ensures
        of_score(placed(s, x), score) == if x.1 == score {
            of_score(s, score).push(x)
        } else {
            of_score(s, score)
        },
    decreases s.len(),
{
    if s.len() == 0 || s.last().1 <= x.1 {
        assert(s.push(x).drop_last() =~= s);
    } else {
        let init = s.drop_last();
        lemma_placed_of_score(init, x, score);
        let p = placed(init, x);
        assert(p.push(s.last()).drop_last() =~= p);
    }
}

/// Dropping spares the first arms, the arm that came in and every arm whose mean
/// is above the threshold; it takes as many arms as the limits allow at most,
/// and none twice.
pub proof fn law_dropping_spares(
    limits: SchedulerLimits,
    added: usize,
    listing: Seq<(usize, u64)>,
    known: Map<usize, u64>,
)
    requires
        walks(listing, known),
    ensures
        ({
            let dropped = dropped_arms(limits, added, listing);
            &&& dropped.len() <= limits.prune_amt
            &&& dropped.no_duplicates()
            &&& forall|i: int|
                0 <= i < dropped.len() ==> {
                    &&& (#[trigger] dropped[i]) >= FIRST_DROPPABLE
                    &&& dropped[i] != added
                    &&& known.contains_key(dropped[i])
                    &&& known[dropped[i]] <= limits.prune_q_threshold
                }
        }),
{
    let sorted = by_score(listing);
    law_by_score_sorts(listing);
    lemma_by_score_walks(listing, known);
    let looked_at = sorted.take(least(limits.prune_amt as int, listing.len() as int));
    lemma_droppable_of(limits, added, looked_at);
    let dropped = dropped_arms(limits, added, listing);
    assert forall|i: int| 0 <= i < dropped.len() implies {
        &&& (#[trigger] dropped[i]) >= FIRST_DROPPABLE
        &&& dropped[i] != added
        &&& known.contains_key(dropped[i])
        &&& known[dropped[i]] <= limits.prune_q_threshold
    } by {
        let k = choose|k: int|
            0 <= k < looked_at.len() && (#[trigger] looked_at[k]).0 == dropped[i] && droppable(
                limits,
                added,
                looked_at[k],
            );
        assert(looked_at[k] == sorted[k]);
        assert(known.contains_key(sorted[k].0));
    }
}

/// A sorted listing is a listing.
pub proof fn lemma_by_score_walks(listing: Seq<(usize, u64)>, known: Map<usize, u64>)
    requires
        walks(listing, known),
    ensures
        walks(by_score(listing), known),
{
    let sorted = by_score(listing);
    law_by_score_sorts(listing);
    listing.to_multiset_ensures();
    sorted.to_multiset_ensures();
    assert(listing.no_duplicates());
    listing.lemma_multiset_has_no_duplicates();
    sorted.lemma_multiset_has_no_duplicates_conv();
    assert forall|i: int| 0 <= i < sorted.len() implies listing.contains(#[trigger] sorted[i]) by {
        assert(sorted.contains(sorted[i]));
        assert(sorted.to_multiset().count(sorted[i]) > 0);
        assert(listing.to_multiset().count(sorted[i]) > 0);
    }
    assert forall|i: int| 0 <= i < listing.len() implies sorted.contains(#[trigger] listing[i]) by {
        assert(listing.contains(listing[i]));
        assert(listing.to_multiset().count(listing[i]) > 0);
        assert(sorted.to_multiset().count(listing[i]) > 0);
    }
    assert forall|i: int, j: int| 0 <= i < j < sorted.len() implies (#[trigger] sorted[i]).0 != (
    #[trigger] sorted[j]).0 by {
        assert(listing.contains(sorted[i]) && listing.contains(sorted[j]));
        let a = choose|a: int| 0 <= a < listing.len() && listing[a] == sorted[i];
        let b = choose|b: int| 0 <= b < listing.len() && listing[b] == sorted[j];
        if sorted[i].0 == sorted[j].0 {
            assert(listing[a].0 == listing[b].0);
            assert(a == b);
            assert(sorted[i] == sorted[j]);
        }
    }
    assert forall|i: int| 0 <= i < sorted.len() implies known.contains_key((#[trigger] sorted[i]).0)
        && known[sorted[i].0] == sorted[i].1 by {
        assert(listing.contains(sorted[i]));
    }
    assert forall|k: usize| #[trigger] known.contains_key(k) implies exists|i: int|
        0 <= i < sorted.len() && (#[trigger] sorted[i]).0 == k by {
        let a = choose|a: int| 0 <= a < listing.len() && (#[trigger] listing[a]).0 == k;
        assert(sorted.contains(listing[a]));
    }
}

/// Whether `arm` is that of some droppable entry.
pub open spec fn stems_from(
    limits: SchedulerLimits,
    added: usize,
    s: Seq<(usize, u64)>,
    arm: usize,
) -> bool {
    exists|k: int|
        0 <= k < s.len() && (#[trigger] s[k]).0 == arm && droppable(limits, added, s[k])
}

/// The droppable arms stem from the entries, and each droppable entry is there.
pub proof fn lemma_droppable_of(limits: SchedulerLimits, added: usize, s: Seq<(usize, u64)>)
    requires
        forall|i: int, j: int|
            0 <= i < j < s.len() ==> (#[trigger] s[i]).0 != (#[trigger] s[j]).0,
    ensures
        ({
            let d = droppable_of(limits, added, s);
            &&& d.len() <= s.len()
            &&& d.no_duplicates()
            &&& forall|i: int|
                0 <= i < d.len() ==> stems_from(limits, added, s, #[trigger] d[i])
            &&& forall|k: int|
                0 <= k < s.len() && droppable(limits, added, #[trigger] s[k]) ==> d.contains(s[k].0)
        }),
    decreases s.len(),
{
    if s.len() > 0 {
        let init = s.drop_last();
        lemma_droppable_of(limits, added, init);
        let rest = droppable_of(limits, added, init);
        let d = droppable_of(limits, added, s);
        assert forall|i: int| 0 <= i < d.len() implies stems_from(
            limits,
            added,
            s,
            #[trigger] d[i],
        ) by {
            if i < rest.len() {
                assert(d[i] == rest[i]);
                let k = choose|k: int|
                    0 <= k < init.len() && (#[trigger] init[k]).0 == rest[i] && droppable(
                        limits,
                        added,
                        init[k],
                    );
                assert(s[k] == init[k]);
            } else {
                assert(s[s.len() - 1].0 == d[i]);
            }
        }
        assert forall|i: int, j: int| 0 <= i < d.len() && 0 <= j < d.len() && i != j implies d[i]
            != d[j] by {
            if i < rest.len() && j < rest.len() {
                assert(d[i] == rest[i] && d[j] == rest[j]);
            } else {
                let (lo, hi) = if i < j {
                    (i, j)
                } else {
                    (j, i)
                };
                assert(d[lo] == rest[lo]);
                let k = choose|k: int|
                    0 <= k < init.len() && (#[trigger] init[k]).0 == rest[lo] && droppable(
                        limits,
                        added,
                        init[k],
                    );
                assert(s[k] == init[k]);
                assert(d[hi] == s[s.len() - 1].0);
            }
        }
        assert forall|k: int|
            0 <= k < s.len() && droppable(limits, added, #[trigger] s[k]) implies d.contains(
            s[k].0,
        ) by {
            if k < init.len() {
                assert(init[k] == s[k]);
                assert(rest.contains(init[k].0));
                let i = choose|i: int| 0 <= i < rest.len() && rest[i] == init[k].0;
                assert(d[i] == s[k].0);
            } else {
                assert(d[d.len() - 1] == s[k].0);
            }
        }
    }
}

/// The lowest means go first: an arm that could have been dropped and was not
/// has a mean at least as high as that of every arm that was.
pub proof fn law_lowest_means_go_first(
    limits: SchedulerLimits,
    added: usize,
    listing: Seq<(usize, u64)>,
    known: Map<usize, u64>,
    gone: usize,
    kept: usize,
)
    requires
        walks(listing, known),
        dropped_arms(limits, added, listing).contains(gone),
        !dropped_arms(limits, added, listing).contains(kept),
        known.contains_key(kept),
        droppable(limits, added, (kept, known[kept])),
    ensures
        known[gone] <= known[kept],
{
    let sorted = by_score(listing);
    law_by_score_sorts(listing);
    lemma_by_score_walks(listing, known);
    let n = least(limits.prune_amt as int, listing.len() as int);
    let looked_at = sorted.take(n);
    lemma_droppable_of(limits, added, looked_at);
    let dropped = dropped_arms(limits, added, listing);
    let i = choose|i: int| 0 <= i < dropped.len() && dropped[i] == gone;
    assert(dropped[i] == gone);
    let g = choose|k: int|
        0 <= k < looked_at.len() && (#[trigger] looked_at[k]).0 == dropped[i] && droppable(
            limits,
            added,
            looked_at[k],
        );
    assert(looked_at[g] == sorted[g]);
    let k = choose|k: int| 0 <= k < sorted.len() && (#[trigger] sorted[k]).0 == kept;
    if k < n {
        assert(looked_at[k] == sorted[k]);
        assert(droppable(limits, added, looked_at[k]));
    }
    assert(sorted[g].1 <= sorted[k].1);
}

impl MetaView {
    /// The two maps know the same arms, and each known arm counts as visited.
    pub open spec fn wf(self) -> bool {
        &&& self.mean_reward.dom() == self.visit_count.dom()
        &&& forall|k: usize| #[trigger]
            self.visit_count.contains_key(k) ==> self.visit_count[k] >= 1
    }
}

/// The maps of the bandit stay in line, whatever is done with them.
pub proof fn law_bandit_stays_wf(m: MetaView, idx: usize, new_mean: u64, draw: Draw)
    requires
        m.wf(),
        m.can_update(idx),
    ensures
        MetaView::fresh().wf(),
        m.updated(idx, new_mean).wf(),
        m.registered(new_mean, idx).wf(),
        m.forgot(idx).wf(),
        m.selected(draw).wf(),
{
    assert(m.mean_reward.insert(idx, new_mean).dom() =~= m.updated(
        idx,
        new_mean,
    ).visit_count.dom());
    assert(m.registered(new_mean, idx).mean_reward.dom() =~= m.registered(
        new_mean,
        idx,
    ).visit_count.dom());
    assert(m.forgot(idx).mean_reward.dom() =~= m.forgot(idx).visit_count.dom());
    assert(MetaView::fresh().mean_reward.dom() =~= MetaView::fresh().visit_count.dom());
}

/// A reward for one arm leaves the others as they are.
pub proof fn law_reward_is_local(m: MetaView, idx: usize, new_mean: u64, other: usize, init_q: u64)
    requires
        other != idx,
    ensures
        m.updated(idx, new_mean).mean(init_q, other) == m.mean(init_q, other),
        m.updated(idx, new_mean).visits(other, 0) == m.visits(other, 0),
        m.updated(idx, new_mean).mean(init_q, idx) == new_mean,
{
}

/// The reward for an execution goes to the arm that was selected for it, and to
/// no other; it goes to no arm where that arm was removed meanwhile.
pub proof fn law_reward_goes_to_the_selected_arm(
    s: SchedulerView,
    draw: Draw,
    arm: usize,
    new_mean: u64,
)
    ensures
        ({
            let m = MetaView { last_selected: Some(arm), ..s.bandit().selected(draw) };
            let after = SchedulerView { rl: Some(m), ..s };
            let gone = after.forgot(arm);
            &&& after.rewarded_last(new_mean).bandit() == m.updated(arm, new_mean)
            &&& after.rewarded_last(new_mean).votes == s.votes
            &&& gone.rewarded_last(new_mean) == gone
        }),
{
}

/// A removed arm is not known any more, and no reward is due to it.
pub proof fn law_removed_arm_is_gone(m: MetaView, idx: usize)
    ensures
        !m.forgot(idx).mean_reward.contains_key(idx),
        !m.forgot(idx).visit_count.contains_key(idx),
        m.forgot(idx).last_selected != Some(idx),
{
}

/// An arm that came in is known; the dropped arms are not, and no reward is due
/// to them; every other arm keeps its mean and its count.
pub proof fn law_added_arm_stays(
    s: SchedulerView,
    limits: SchedulerLimits,
    idx: usize,
    listing: Seq<(usize, u64)>,
)
    requires
        walks(listing, s.registered(limits.init_q, idx).bandit().mean_reward),
    ensures
        ({
            let known = s.registered(limits.init_q, idx).bandit();
            let (after, dropped) = s.added(limits, idx, listing);
            &&& after.bandit().mean_reward == known.mean_reward.remove_keys(dropped.to_set())
            &&& after.bandit().visit_count == known.visit_count.remove_keys(dropped.to_set())
            &&& after.bandit().visit_count.contains_key(idx)
            &&& after.bandit().mean_reward.contains_key(idx)
            &&& forall|a: usize| #[trigger]
                dropped.contains(a) ==> after.bandit().last_selected != Some(a)
        }),
{
    let first = s.registered(limits.init_q, idx);
    let known = first.bandit();
    let dropped = dropped_arms(limits, idx, listing);
    law_dropping_spares(limits, idx, listing, known.mean_reward);
    lemma_forgot_all(first, dropped);
    assert(!dropped.contains(idx)) by {
        if dropped.contains(idx) {
            let i = choose|i: int| 0 <= i < dropped.len() && dropped[i] == idx;
            assert(dropped[i] == idx);
        }
    }
}

pub proof fn lemma_forgot_all(s: SchedulerView, arms: Seq<usize>)
    requires
        s.rl is Some,
    ensures
        s.forgot_all(arms).rl is Some,
        s.forgot_all(arms).bandit().mean_reward == s.bandit().mean_reward.remove_keys(
            arms.to_set(),
        ),
        s.forgot_all(arms).bandit().visit_count == s.bandit().visit_count.remove_keys(
            arms.to_set(),
        ),
        forall|a: usize| #[trigger]
            arms.contains(a) ==> s.forgot_all(arms).bandit().last_selected != Some(a),
    decreases arms.len(),
{
    if arms.len() > 0 {
        let init = arms.drop_last();
        let last = arms.last();
        lemma_forgot_all(s, init);
        assert(arms =~= init.push(last));
        assert forall|a: usize| arms.contains(a) == (init.contains(a) || a == last) by {
            if arms.contains(a) {
                let i = choose|i: int| 0 <= i < arms.len() && arms[i] == a;
                if i < init.len() {
                    assert(init[i] == a);
                }
            }
            if init.contains(a) {
                let i = choose|i: int| 0 <= i < init.len() && init[i] == a;
                assert(arms[i] == a);
            }
            assert(arms[arms.len() - 1] == last);
        }
        assert(s.forgot_all(arms).bandit().mean_reward =~= s.bandit().mean_reward.remove_keys(
            arms.to_set(),
        ));
        assert(s.forgot_all(arms).bandit().visit_count =~= s.bandit().visit_count.remove_keys(
            arms.to_set(),
        ));
    } else {
        assert(s.bandit().mean_reward.remove_keys(arms.to_set()) =~= s.bandit().mean_reward);
        assert(s.bandit().visit_count.remove_keys(arms.to_set()) =~= s.bandit().visit_count);
    }
}

/// A draw selects exactly one arm, and one of those that it was given.
pub proof fn law_draw_selects_one(draw: Draw, arms: Seq<usize>, arm: usize, other: usize)
    requires
        arms.len() > 0,
        draw.fits(arms),
        draw.selects(arms, arm),
    ensures
        arms.contains(arm),
        draw.selects(arms, other) ==> other == arm,
{
    match draw {
        Draw::Explore(i) => {
            assert(arms[least(i as int, arms.len() - 1)] == arm);
        },
        Draw::Exploit(scores) => {
            let i = choose|i: int| #[trigger] last_highest(scores@, i) && arm == arms[i];
            assert(arms[i] == arm);
            if draw.selects(arms, other) {
                let j = choose|j: int| #[trigger] last_highest(scores@, j) && other == arms[j];
                assert(scores@[j] <= scores@[i]);
                assert(scores@[i] <= scores@[j]);
                assert(i == j);
            }
        },
    }
}

/// Where more of a token was minted than locked, and some was locked, the signal
/// has an entry that shows it, unless both amounts are cut.
pub proof fn law_signal_shows_overmint(
    locked: Seq<(EVMAddress, EVMU256)>,
    minted: Map<EVMAddress, EVMU256>,
    i: int,
)
    requires
        0 <= i < locked.len(),
        0 < locked[i].1.value() < u128::MAX,
        amount(minted, locked[i].0) > locked[i].1.value(),
    ensures
        exists|k: int|
            0 <= k < imbalances_of(locked, minted).len() && (#[trigger] imbalances_of(
                locked,
                minted,
            )[k]).1 > imbalances_of(locked, minted)[k].0,
    decreases locked.len(),
{
    let all = imbalances_of(locked, minted);
    let rest = imbalances_of(locked.drop_last(), minted);
    if i == locked.len() - 1 {
        assert(all[all.len() - 1].1 > all[all.len() - 1].0);
    } else {
        assert(locked.drop_last()[i] == locked[i]);
        law_signal_shows_overmint(locked.drop_last(), minted, i);
        let k = choose|k: int|
            0 <= k < rest.len() && (#[trigger] rest[k]).1 > rest[k].0;
        assert(all[k] == rest[k]);
    }
}

} // verus!
