use tetris_rl::action::ComposedAction;
use tetris_rl::agent::{Agent, ReplayBuffer, BATCH_SIZE, SYNC_INTERVAL};
use tetris_rl::board::Board;
use tetris_rl::features::Features;
use tetris_rl::game::Play;

fn blank() -> Features {
    Features::build(Board::empty())
}

fn play_number(k: i64) -> Play {
    Play {
        previous_state: blank(),
        next_state: blank(),
        reward: k,
        action: ComposedAction { rotation: 0, shift: k as i32 },
    }
}

fn buffer_of(count: i64) -> ReplayBuffer {
    let mut buffer = ReplayBuffer::new();
    for k in 0..count {
        buffer.add(play_number(k));
    }
    buffer
}

fn rewards_of(batch: &[Play]) -> Vec<i64> {
    let mut rewards: Vec<i64> = batch.iter().map(|play| play.reward).collect();
    rewards.sort();
    rewards
}

#[test]
fn constants_of_the_schedule() {
    assert_eq!(BATCH_SIZE, 32);
    assert_eq!(SYNC_INTERVAL, 10);
}

#[test]
fn replay_buffer_counts_what_was_added() {
    let mut buffer = ReplayBuffer::new();
    assert_eq!(buffer.count(), 0);
    for k in 0..100 {
        buffer.add(play_number(k));
        assert_eq!(buffer.count(), (k + 1) as usize);
    }
}

#[test]
fn sample_batch_draws_distinct_entries_of_the_history() {
    let buffer = buffer_of(100);
    for _ in 0..50 {
        let batch = buffer.sample_batch(32);
        assert_eq!(batch.len(), 32);
        let rewards = rewards_of(&batch);
        for pair in rewards.windows(2) {
            assert!(pair[0] < pair[1]);
        }
        for play in &batch {
            assert!(0 <= play.reward && play.reward < 100);
            assert_eq!(play.action.shift as i64, play.reward);
        }
    }
    assert_eq!(buffer.count(), 100);
}

#[test]
fn sample_batch_of_a_short_history_returns_all_of_it() {
    let buffer = buffer_of(5);
    let batch = buffer.sample_batch(32);
    assert_eq!(rewards_of(&batch), vec![0, 1, 2, 3, 4]);
    let batch = buffer.sample_batch(5);
    assert_eq!(rewards_of(&batch), vec![0, 1, 2, 3, 4]);
    let batch = buffer.sample_batch(usize::MAX);
    assert_eq!(rewards_of(&batch), vec![0, 1, 2, 3, 4]);
    assert!(buffer.sample_batch(0).is_empty());
    assert!(ReplayBuffer::new().sample_batch(32).is_empty());
}

#[test]
fn sample_batch_reaches_the_whole_history() {
    let buffer = buffer_of(40);
    let mut seen = [false; 40];
    for _ in 0..200 {
        for play in buffer.sample_batch(4) {
            seen[play.reward as usize] = true;
        }
    }
    assert!(seen.iter().all(|hit| *hit));
}

#[test]
fn greedy_choice_is_the_leftmost_maximum() {
    let agent = Agent::new();
    assert_eq!(agent.sample_action(&vec![3, 7, 7, 1], false), 1);
    assert_eq!(agent.sample_action(&vec![5, 5, 5], false), 0);
    assert_eq!(agent.sample_action(&vec![-9, -3, -4], false), 1);
    assert_eq!(agent.sample_action(&vec![1, 2, 3, 4], false), 3);
    assert_eq!(agent.sample_action(&vec![i64::MIN, i64::MAX, i64::MAX], false), 1);
    for _ in 0..20 {
        assert_eq!(agent.sample_action(&vec![0, 2, 9, 9, 4], false), 2);
    }
}

#[test]
fn single_candidate_is_always_chosen() {
    let agent = Agent::new();
    for value in [-50, 0, 16] {
        assert_eq!(agent.sample_action(&vec![value], false), 0);
        assert_eq!(agent.sample_action(&vec![value], true), 0);
    }
}

#[test]
fn exploring_choice_is_spread_over_all_candidates() {
    let agent = Agent::new();
    let values = vec![9, 1, 1, 1];
    let mut hits = [0usize; 4];
    for _ in 0..4000 {
        let index = agent.sample_action(&values, true);
        assert!(index < 4);
        hits[index] += 1;
    }
    for count in hits {
        assert!(700 < count && count < 1300);
    }
}

#[test]
fn td_learning_records_the_chosen_transition() {
    let mut agent = Agent::new();
    let before = blank();
    let mut board = Board::empty();
    board.state[0][0] = 1;
    let outcomes = vec![blank(), Features::build(board), blank()];
    let actions = vec![
        ComposedAction { rotation: 0, shift: -1 },
        ComposedAction { rotation: 1, shift: 2 },
        ComposedAction { rotation: 3, shift: 0 },
    ];
    let decision = agent.td_learning(
        before,
        actions.clone(),
        vec![-4, 16, 3],
        outcomes.clone(),
        vec![10, 30, 20],
        false,
    );
    assert_eq!(decision.index, 1);
    assert_eq!(decision.action, actions[1]);
    assert!(!decision.train);
    assert!(decision.batch.is_empty());
    assert!(!decision.sync_target);
    assert_eq!(agent.current_iteration, 0);
    assert_eq!(agent.replay_buffer.count(), 1);
    let recorded = agent.replay_buffer.sample_batch(1);
    assert_eq!(recorded[0].previous_state, before);
    assert_eq!(recorded[0].next_state, outcomes[1]);
    assert_eq!(recorded[0].reward, 16);
    assert_eq!(recorded[0].action, actions[1]);
}

#[test]
fn td_learning_with_a_single_candidate_takes_it() {
    let mut agent = Agent::new();
    let action = ComposedAction { rotation: 2, shift: -3 };
    for _ in 0..5 {
        let decision =
            agent.td_learning(blank(), vec![action], vec![-7], vec![blank()], vec![-123], false);
        assert_eq!(decision.index, 0);
        assert_eq!(decision.action, action);
    }
    for play in agent.replay_buffer.sample_batch(5) {
        assert_eq!(play.reward, -7);
        assert_eq!(play.action, action);
    }
}

#[test]
fn td_learning_trains_once_the_history_holds_a_batch() {
    let mut agent = Agent::new();
    let action = ComposedAction { rotation: 0, shift: 1 };
    for call in 1..=60i64 {
        let decision =
            agent.td_learning(blank(), vec![action], vec![call], vec![blank()], vec![0], false);
        assert_eq!(agent.replay_buffer.count() as i64, call);
        if call < 32 {
            assert!(!decision.train);
            assert!(decision.batch.is_empty());
            assert!(!decision.sync_target);
            assert_eq!(agent.current_iteration, 0);
        } else {
            assert!(decision.train);
            assert_eq!(decision.batch.len(), 32);
            let rewards = rewards_of(&decision.batch);
            for pair in rewards.windows(2) {
                assert!(pair[0] < pair[1]);
            }
            assert!(rewards.iter().all(|reward| 1 <= *reward && *reward <= call));
            let iteration = call - 31;
            assert_eq!(agent.current_iteration as i64, iteration);
            assert_eq!(decision.sync_target, iteration % 10 == 0);
        }
    }
}

#[test]
fn td_learning_explores_within_the_candidates() {
    let mut agent = Agent::new();
    let actions: Vec<ComposedAction> =
        (0..6).map(|shift| ComposedAction { rotation: 0, shift }).collect();
    let mut hits = [false; 6];
    for _ in 0..300 {
        let decision = agent.td_learning(
            blank(),
            actions.clone(),
            vec![0; 6],
            vec![blank(); 6],
            vec![5, 4, 3, 2, 1, 0],
            true,
        );
        assert!(decision.index < 6);
        assert_eq!(decision.action, actions[decision.index]);
        hits[decision.index] = true;
    }
    assert!(hits.iter().all(|hit| *hit));
}

#[test]
fn target_is_synchronised_every_tenth_training_step() {
    let mut agent = Agent::new();
    for step in 1..=35 {
        let sync = agent.update_hyperparameters();
        assert_eq!(agent.current_iteration, step);
        assert_eq!(sync, step % 10 == 0);
    }
    assert_eq!(agent.replay_buffer.count(), 0);
}

#[test]
fn sample_batch_with_returns_the_picked_entries() {
    let buffer = buffer_of(10);
    let batch = buffer.sample_batch_with(&vec![7, 0, 9, 3]);
    let rewards: Vec<i64> = batch.iter().map(|play| play.reward).collect();
    assert_eq!(rewards, vec![7, 0, 9, 3]);
    assert!(buffer.sample_batch_with(&Vec::new()).is_empty());
    assert_eq!(buffer.count(), 10);
}

#[test]
fn sample_action_with_takes_the_pick_when_exploring() {
    let agent = Agent::new();
    let values = vec![4, 9, 2, 9];
    for pick in 0..4 {
        assert_eq!(agent.sample_action_with(&values, true, pick), pick);
        assert_eq!(agent.sample_action_with(&values, false, pick), 1);
    }
    assert_eq!(agent.sample_action_with(&values, false, 99), 1);
}

#[test]
fn td_learning_before_training_leaves_the_iteration_count() {
    let mut agent = Agent::new();
    agent.current_iteration = i32::MAX;
    let action = ComposedAction { rotation: 1, shift: 1 };
    for call in 1..=31 {
        let decision =
            agent.td_learning(blank(), vec![action], vec![2], vec![blank()], vec![7], true);
        assert_eq!(decision.index, 0);
        assert_eq!(decision.action, action);
        assert!(!decision.train);
        assert_eq!(agent.current_iteration, i32::MAX);
        assert_eq!(agent.replay_buffer.count(), call);
    }
}
