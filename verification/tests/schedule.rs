use ganshot::gan::training::{network_to_update, Network, SNAPSHOT_EVERY as GAN_SNAPSHOT_EVERY};
use ganshot::training::recorder::{
    clip_plot_points, epoch_trace_visible, slider_active, slider_visibility, step_visibility,
    MAX_PLOT_POINTS,
};
use ganshot::training::runner::{loss_divisor, training_plan, Step, SNAPSHOT_EVERY};

#[test]
fn plan_trains_every_epoch_and_snapshots_every_fifth() {
    let plan = training_plan(12, SNAPSHOT_EVERY);
    assert_eq!(
        plan,
        vec![
            Step::Snapshot(0),
            Step::Train(1),
            Step::Train(2),
            Step::Train(3),
            Step::Train(4),
            Step::Train(5),
            Step::Snapshot(5),
            Step::Train(6),
            Step::Train(7),
            Step::Train(8),
            Step::Train(9),
            Step::Train(10),
            Step::Snapshot(10),
            Step::Train(11),
            Step::Train(12),
        ]
    );
}

#[test]
fn plan_counts() {
    let plan = training_plan(350, GAN_SNAPSHOT_EVERY);
    let trained: Vec<usize> = plan
        .iter()
        .filter_map(|s| match s {
            Step::Train(e) => Some(*e),
            _ => None,
        })
        .collect();
    let snapshots: Vec<usize> = plan
        .iter()
        .filter_map(|s| match s {
            Step::Snapshot(e) => Some(*e),
            _ => None,
        })
        .collect();
    assert_eq!(trained, (1..=350).collect::<Vec<_>>());
    assert_eq!(snapshots, (0..35).map(|k| k * 10).collect::<Vec<_>>());
}

#[test]
fn plan_of_no_epochs_is_empty() {
    assert!(training_plan(0, 5).is_empty());
}

#[test]
fn networks_take_turns() {
    assert_eq!(network_to_update(0), Network::Generator);
    assert_eq!(network_to_update(1), Network::Discriminator);
    assert_eq!(network_to_update(40), Network::Generator);
}

#[test]
fn loss_divisor_is_at_least_one() {
    assert_eq!(loss_divisor(0), 1);
    assert_eq!(loss_divisor(7), 7);
}

#[test]
fn step_shows_reference_and_one_epoch() {
    assert_eq!(step_visibility(1, 3), vec![true, false, true, false]);
    let steps = slider_visibility(3);
    assert_eq!(steps.len(), 3);
    for (i, v) in steps.iter().enumerate() {
        assert_eq!(v.iter().filter(|b| **b).count(), 2);
        assert!(v[0] && v[i + 1]);
    }
}

#[test]
fn slider_starts_on_last_epoch() {
    assert_eq!(slider_active(0), 0);
    assert_eq!(slider_active(1), 0);
    assert_eq!(slider_active(35), 34);
    let n = 35;
    let active = slider_active(n) as usize;
    let start = step_visibility(active, n);
    for j in 0..n {
        assert_eq!(start[j + 1], epoch_trace_visible(j, n));
    }
}

#[test]
fn slider_narrows_huge_counts_to_32_bits() {
    assert_eq!(slider_active((1usize << 32) + 5), 4);
}

#[test]
fn clip_keeps_first_points() {
    let mut many: Vec<usize> = (0..1000).collect();
    clip_plot_points(&mut many);
    assert_eq!(many, (0..MAX_PLOT_POINTS).collect::<Vec<_>>());
    let mut few = vec![1, 2, 3];
    clip_plot_points(&mut few);
    assert_eq!(few, vec![1, 2, 3]);
}
