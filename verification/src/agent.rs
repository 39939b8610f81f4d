//! The discrete half of the learning controller: the replay buffer, the
//! choice among candidate actions, and the schedule of training and of
//! target synchronisation. The value estimates themselves are real numbers
//! and are computed by the caller, who hands them over as integers that
//! are ordered as the estimates are.

use vstd::prelude::*;
use rand::seq::IteratorRandom;
use rand::Rng;
use crate::action::ComposedAction;
use crate::features::Features;
use crate::game::Play;

verus! {

/// Number of transitions that one training step samples, and the size that
/// the buffer must have reached before training starts.
pub const BATCH_SIZE: usize = 32;

/// Number of training steps between two synchronisations of the target.
pub const SYNC_INTERVAL: i32 = 10;

/// Whether `picks` names pairwise distinct positions of `history` and
/// `batch` holds the entries at these positions, in the order of `picks`.
pub open spec fn picked_from(history: Seq<Play>, batch: Seq<Play>, picks: Seq<int>) -> bool {
    &&& picks.len() == batch.len()
    &&& forall|i: int|
        0 <= i < picks.len() ==> 0 <= #[trigger] picks[i] < history.len() && batch[i]
            == history[picks[i]]
    &&& forall|i: int, j: int|
        0 <= i < j < picks.len() ==> #[trigger] picks[i] != #[trigger] picks[j]
}

/// Whether `batch` is a sample of `amount` entries of `history` without
/// replacement, or all of `history`, in some order, if that is shorter.
pub open spec fn is_sample(history: Seq<Play>, batch: Seq<Play>, amount: int) -> bool {
    &&& batch.len() == if amount < history.len() {
        amount
    } else {
        history.len() as int
    }
    &&& exists|picks: Seq<int>| picked_from(history, batch, picks)
}

/// Whether `index` is the first position of `values` that holds their
/// maximum.
pub open spec fn is_leftmost_max(values: Seq<i64>, index: int) -> bool {
    &&& 0 <= index < values.len()
    &&& forall|j: int| 0 <= j < values.len() ==> values[j] <= values[index]
    &&& forall|j: int| 0 <= j < index ==> values[j] < values[index]
}

/// Draws `amount` of the numbers below `len` with
/// `rand::seq::IteratorRandom::choose_multiple` on the range `0..len`,
/// drawing from `rand::thread_rng`. The method fills a reservoir of
/// `amount` places from the iterator, each item of which it sees once: so
/// the result has `amount` entries when the range has that many, each is
/// below `len`, and no two are equal. Nothing is claimed about which
/// numbers come or in what order.
#[verifier::external_body]
fn choose_indices(len: usize, amount: usize) -> (picks: Vec<usize>)
    requires
        amount <= len,
    ensures
        picks@.len() == amount,
        forall|i: int| 0 <= i < picks@.len() ==> picks@[i] < len,
        forall|i: int, j: int| 0 <= i < j < picks@.len() ==> picks@[i] != picks@[j],
{
    (0..len).choose_multiple(&mut rand::thread_rng(), amount)
}

/// Draws a number below `len` with `rand::Rng::gen_range(0, len)` on
/// `rand::thread_rng`. The method returns a value of the half-open range
/// and panics on an empty one, which `requires` rules out. Nothing is
/// claimed about which value comes.
#[verifier::external_body]
fn random_index(len: usize) -> (r: usize)
    requires
        len > 0,
    ensures
        r < len,
{
    rand::thread_rng().gen_range(0, len)
}

/// The history of transitions, in the order in which they were recorded.
/// It is never shortened.
#[derive(Debug)]
pub struct ReplayBuffer {
    buffer: Vec<Play>,
}

impl View for ReplayBuffer {
    type V = Seq<Play>;

    closed spec fn view(&self) -> Seq<Play> {
        self.buffer@
    }
}

impl ReplayBuffer {
    pub fn new() -> (r: ReplayBuffer)
        ensures
            r@ == Seq::<Play>::empty(),
    {
        ReplayBuffer { buffer: Vec::new() }
    }

    /// Number of recorded transitions.
    pub fn count(&self) -> (n: usize)
        ensures
            n == self@.len(),
    {
        self.buffer.len()
    }

    /// Records a transition after all others.
    pub fn add(&mut self, play: Play)
        ensures
            final(self)@ == old(self)@.push(play),
    {
        self.buffer.push(play);
    }

    /// The transitions at the given positions of the history, in the order
    /// of the positions.
    pub fn sample_batch_with(&self, picks: &Vec<usize>) -> (batch: Vec<Play>)
        requires
            forall|k: int| 0 <= k < picks@.len() ==> picks@[k] < self@.len(),
        ensures
            batch@.len() == picks@.len(),
            forall|k: int| 0 <= k < picks@.len() ==> batch@[k] == self@[picks@[k] as int],
    {
        let mut batch: Vec<Play> = Vec::new();
        let mut i: usize = 0;
        while i < picks.len()
            invariant
                i <= picks.len(),
                batch.len() == i,
                forall|k: int| 0 <= k < picks@.len() ==> picks@[k] < self.buffer@.len(),
                forall|k: int| 0 <= k < i ==> batch@[k] == self.buffer@[picks@[k] as int],
            decreases picks.len() - i,
        {
            batch.push(self.buffer[picks[i]]);
            i += 1;
        }
        batch
    }

    /// Samples `batch_size` transitions from the whole history, without
    /// replacement; all of them if the history is shorter. The buffer is
    /// not changed.
    pub fn sample_batch(&self, batch_size: usize) -> (batch: Vec<Play>)
        ensures
            is_sample(self@, batch@, batch_size as int),
    {
        let count = self.buffer.len();
        let amount = if batch_size < count {
            batch_size
        } else {
            count
        };
        let picks = choose_indices(count, amount);
        let batch = self.sample_batch_with(&picks);
        proof {
            let chosen = Seq::new(picks@.len(), |k: int| picks@[k] as int);
            assert(picked_from(self@, batch@, chosen));
        }
        batch
    }
}

/// What the controller decided in one call of `td_learning`.
#[derive(Debug)]
pub struct Decision {
    /// Position of the chosen candidate.
    pub index: usize,
    /// The chosen candidate.
    pub action: ComposedAction,
    /// Whether a training step is due.
    pub train: bool,
    /// The transitions to train on; empty when no training step is due.
    pub batch: Vec<Play>,
    /// Whether the target is to be synchronised after the training step.
    pub sync_target: bool,
}

/// The controller's record of the past and its count of training steps.
#[derive(Debug)]
pub struct Agent {
    pub replay_buffer: ReplayBuffer,
    pub current_iteration: i32,
}

impl Agent {
    /// Validity: the count of training steps is not negative.
    pub open spec fn wf(self) -> bool {
        self.current_iteration >= 0
    }

    /// A controller without history.
    pub fn new() -> (r: Agent)
        ensures
            r.wf(),
            r.replay_buffer@ == Seq::<Play>::empty(),
            r.current_iteration == 0,
    {
        Agent { replay_buffer: ReplayBuffer::new(), current_iteration: 0 }
    }

    /// Chooses among the candidates: when exploring, the candidate at
    /// `pick`; otherwise the first of those with the largest value.
    pub fn sample_action_with(&self, action_values: &Vec<i64>, explore: bool, pick: usize) -> (index:
        usize)
        requires
            action_values.len() > 0,
            explore ==> pick < action_values.len(),
        ensures
            index < action_values.len(),
            explore ==> index == pick,
            !explore ==> is_leftmost_max(action_values@, index as int),
    {
        if explore {
            pick
        } else {
            let mut max_value = action_values[0];
            let mut idx: usize = 0;
            let mut i: usize = 1;
            while i < action_values.len()
                invariant
                    1 <= i <= action_values.len(),
                    idx < i,
                    max_value == action_values@[idx as int],
                    forall|j: int| 0 <= j < i ==> action_values@[j] <= max_value,
                    forall|j: int| 0 <= j < idx ==> action_values@[j] < max_value,
                decreases action_values.len() - i,
            {
                if action_values[i] > max_value {
                    max_value = action_values[i];
                    idx = i;
                }
                i += 1;
            }
            idx
        }
    }

    /// Chooses among the candidates. When exploring, a candidate is drawn
    /// at random; otherwise the first of those with the largest value is
    /// taken.
    pub fn sample_action(&self, action_values: &Vec<i64>, explore: bool) -> (index: usize)
        requires
            action_values.len() > 0,
        ensures
            index < action_values.len(),
            !explore ==> is_leftmost_max(action_values@, index as int),
    {
        let pick = if explore {
            random_index(action_values.len())
        } else {
            0
        };
        self.sample_action_with(action_values, explore, pick)
    }

    /// Counts one training step and tells whether the target is to be
    /// synchronised: after every `SYNC_INTERVAL`-th step.
    pub fn update_hyperparameters(&mut self) -> (sync_target: bool)
        requires
            old(self).wf(),
            old(self).current_iteration < i32::MAX,
        ensures
            final(self).wf(),
            final(self).current_iteration == old(self).current_iteration + 1,
            final(self).replay_buffer == old(self).replay_buffer,
            sync_target == (final(self).current_iteration % 10 == 0),
    {
        self.current_iteration = self.current_iteration + 1;
        self.current_iteration % SYNC_INTERVAL == 0
    }

    /// Whether `post` and `r` are what one decision leads to: a candidate
    /// is chosen, without exploration the first of those with the largest
    /// value; the transition from `features` to its outcome is recorded
    /// after all others; and once the history holds `BATCH_SIZE`
    /// transitions, a batch is sampled from it and the training step is
    /// counted.
    pub open spec fn decides(
        self,
        features: Features,
        possible_actions: Seq<ComposedAction>,
        rewards: Seq<i64>,
        sim_features: Seq<Features>,
        action_values: Seq<i64>,
        explore: bool,
        post: Agent,
        r: Decision,
    ) -> bool {
        &&& r.index < possible_actions.len()
        &&& !explore ==> is_leftmost_max(action_values, r.index as int)
        &&& r.action == possible_actions[r.index as int]
        &&& post.replay_buffer@ == self.replay_buffer@.push(
            Play {
                previous_state: features,
                next_state: sim_features[r.index as int],
                reward: rewards[r.index as int],
                action: possible_actions[r.index as int],
            },
        )
        &&& r.train == (post.replay_buffer@.len() >= BATCH_SIZE)
        &&& if r.train {
            &&& is_sample(post.replay_buffer@, r.batch@, BATCH_SIZE as int)
            &&& post.current_iteration == self.current_iteration + 1
            &&& r.sync_target == (post.current_iteration % 10 == 0)
        } else {
            &&& r.batch@.len() == 0
            &&& post.current_iteration == self.current_iteration
            &&& !r.sync_target
        }
    }

    /// One decision of the controller. Chooses a candidate from the values
    /// of the candidates, records the transition from `features` to the
    /// chosen candidate's outcome, and, once the history holds `BATCH_SIZE`
    /// transitions, samples a batch to train on and counts the training
    /// step.
    pub fn td_learning(
        &mut self,
        features: Features,
        possible_actions: Vec<ComposedAction>,
        rewards: Vec<i64>,
        sim_features: Vec<Features>,
        action_values: Vec<i64>,
        explore: bool,
    ) -> (r: Decision)
        requires
            old(self).wf(),
            old(self).replay_buffer@.len() + 1 >= BATCH_SIZE ==> old(self).current_iteration
                < i32::MAX,
            possible_actions.len() > 0,
            rewards.len() == possible_actions.len(),
            sim_features.len() == possible_actions.len(),
            action_values.len() == possible_actions.len(),
        ensures
            final(self).wf(),
            old(self).decides(
                features,
                possible_actions@,
                rewards@,
                sim_features@,
                action_values@,
                explore,
                *final(self),
                r,
            ),
    {
        let index = self.sample_action(&action_values, explore);
        let play = Play {
            previous_state: features,
            next_state: sim_features[index],
            reward: rewards[index],
            action: possible_actions[index],
        };
        self.replay_buffer.add(play);
        if self.replay_buffer.count() >= BATCH_SIZE {
            let batch = self.replay_buffer.sample_batch(BATCH_SIZE);
            let sync_target = self.update_hyperparameters();
            Decision { index, action: play.action, train: true, batch, sync_target }
        } else {
            Decision { index, action: play.action, train: false, batch: Vec::new(), sync_target: false }
        }
    }

    /// With a single candidate, that candidate is chosen on every call,
    /// whether or not the controller explores, and the transition to its
    /// outcome is recorded with its reward.
    pub proof fn lemma_single_candidate_is_taken(
        self,
        features: Features,
        possible_actions: Seq<ComposedAction>,
        rewards: Seq<i64>,
        sim_features: Seq<Features>,
        action_values: Seq<i64>,
        explore: bool,
        post: Agent,
        r: Decision,
    )
        requires
            possible_actions.len() == 1,
            self.decides(
                features,
                possible_actions,
                rewards,
                sim_features,
                action_values,
                explore,
                post,
                r,
            ),
        ensures
            r.index == 0,
            r.action == possible_actions[0],
            post.replay_buffer@ == self.replay_buffer@.push(
                (Play {
                    previous_state: features,
                    next_state: sim_features[0],
                    reward: rewards[0],
                    action: possible_actions[0],
                }),
            ),
    {
    }
}

/// The choice without exploration is determined by the values: two
/// positions that are both the leftmost maximum are the same position.
pub proof fn lemma_leftmost_max_unique(values: Seq<i64>, a: int, b: int)
    requires
        is_leftmost_max(values, a),
        is_leftmost_max(values, b),
    ensures
        a == b,
{
    if a < b {
        assert(values[a] < values[b]);
        assert(values[b] <= values[a]);
    } else if b < a {
        assert(values[b] < values[a]);
        assert(values[a] <= values[b]);
    }
}

} // verus!
