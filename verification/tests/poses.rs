use ganshot::data::human_pose::{poses_from_people, select_poses, sort_by_id, POSE_JOINTS};

fn pose(ids: &[usize]) -> Vec<(usize, (f64, f64))> {
    ids.iter().map(|&id| (id, (id as f64, 2.0 * id as f64))).collect()
}

fn reversed_full_pose() -> Vec<(usize, (f64, f64))> {
    pose(&(0..POSE_JOINTS).rev().collect::<Vec<_>>())
}

#[test]
fn sort_by_id_orders_joints() {
    let sorted = sort_by_id(&reversed_full_pose());
    let ids: Vec<usize> = sorted.iter().map(|p| p.0).collect();
    assert_eq!(ids, (0..POSE_JOINTS).collect::<Vec<_>>());
    assert_eq!(sorted[3].1, (3.0, 6.0));
}

#[test]
fn sort_by_id_is_stable() {
    let points = vec![(2, 'a'), (1, 'b'), (2, 'c'), (0, 'd'), (1, 'e')];
    assert_eq!(
        sort_by_id(&points),
        vec![(0, 'd'), (1, 'b'), (1, 'e'), (2, 'a'), (2, 'c')]
    );
}

#[test]
fn select_keeps_complete_poses_and_counts_invalid() {
    let people = vec![
        Some(reversed_full_pose()),
        None,
        Some(pose(&[0, 1, 2])),
        Some(pose(&(0..POSE_JOINTS + 1).collect::<Vec<_>>())),
        Some(pose(&(0..POSE_JOINTS).collect::<Vec<_>>())),
    ];
    let (poses, invalid) = select_poses(&people);
    assert_eq!(poses.len(), 2);
    assert_eq!(invalid, 2);
    for p in &poses {
        let ids: Vec<usize> = p.iter().map(|j| j.0).collect();
        assert_eq!(ids, (0..POSE_JOINTS).collect::<Vec<_>>());
    }
}

#[test]
fn select_of_nobody_is_empty() {
    let people: Vec<Option<Vec<(usize, (f64, f64))>>> = vec![None, None];
    let (poses, invalid) = select_poses(&people);
    assert!(poses.is_empty());
    assert_eq!(invalid, 0);
}

#[test]
fn poses_from_people_is_a_reordering_of_the_selection() {
    let mut people = Vec::new();
    for k in 0..20usize {
        let mut p: Vec<(usize, (usize, usize))> =
            (0..POSE_JOINTS).rev().map(|id| (id, (k, id))).collect();
        if k % 5 == 0 {
            p.pop();
        }
        people.push(Some(p));
    }
    let (selected, invalid) = select_poses(&people);
    let (mut shuffled, invalid_again) = poses_from_people(&people);
    assert_eq!(invalid, 4);
    assert_eq!(invalid_again, 4);
    assert_eq!(shuffled.len(), 16);
    shuffled.sort();
    let mut expected = selected.clone();
    expected.sort();
    assert_eq!(shuffled, expected);
}

#[test]
fn poses_from_people_shuffles() {
    // Twenty complete, distinct poses: the chance that a uniform shuffle keeps
    // them in order is 1 / 20!.
    let people: Vec<Option<Vec<(usize, usize)>>> = (0..20usize)
        .map(|k| Some((0..POSE_JOINTS).map(|id| (id, k)).collect()))
        .collect();
    let (selected, _) = select_poses(&people);
    let (shuffled, invalid) = poses_from_people(&people);
    assert_eq!(invalid, 0);
    assert_eq!(shuffled.len(), selected.len());
    assert_ne!(shuffled, selected);
}
