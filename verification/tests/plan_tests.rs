use ecs_runtime::plan::{footprint_contains, footprints_overlap};
use ecs_runtime::{generate_execution_order_for_systems, System};

fn systems(footprints: &[&[usize]]) -> Vec<System<u32>> {
    footprints
        .iter()
        .enumerate()
        .map(|(i, f)| System { args: f.to_vec(), system: i as u32 })
        .collect()
}

fn plan(footprints: &[&[usize]]) -> Vec<Vec<usize>> {
    generate_execution_order_for_systems(&systems(footprints))
}

#[test]
fn three_systems_two_groups() {
    assert_eq!(plan(&[&[0], &[1], &[0, 2]]), vec![vec![0, 1], vec![2]]);
}

#[test]
fn same_footprint_gives_one_group_each() {
    assert_eq!(plan(&[&[0], &[0]]), vec![vec![0], vec![1]]);
}

#[test]
fn no_systems_no_groups() {
    assert_eq!(plan(&[]), Vec::<Vec<usize>>::new());
}

#[test]
fn single_system_single_group() {
    assert_eq!(plan(&[&[3, 4]]), vec![vec![0]]);
}

#[test]
fn pairwise_disjoint_footprints_share_one_group() {
    assert_eq!(plan(&[&[0], &[1], &[2], &[3, 4], &[5]]), vec![vec![0, 1, 2, 3, 4]]);
    assert_eq!(plan(&[&[5], &[3, 4], &[2], &[1], &[0]]), vec![vec![0, 1, 2, 3, 4]]);
    assert_eq!(plan(&[&[2], &[5], &[0], &[3, 4], &[1]]), vec![vec![0, 1, 2, 3, 4]]);
}

#[test]
fn every_system_is_placed_exactly_once() {
    // The seed of the first group must not be picked up again by a later
    // group, although its footprint is disjoint from that group's.
    assert_eq!(plan(&[&[0], &[1], &[1]]), vec![vec![0, 1], vec![2]]);
    let p = plan(&[&[0, 1], &[1, 2], &[2, 3], &[3, 0], &[4], &[0, 1, 2, 3]]);
    let mut seen = vec![0usize; 6];
    for group in &p {
        for &s in group {
            seen[s] += 1;
        }
    }
    assert_eq!(seen, vec![1; 6]);
    assert_eq!(p, vec![vec![0, 2, 4], vec![1, 3], vec![5]]);
}

#[test]
fn systems_without_footprint_join_the_first_group() {
    assert_eq!(plan(&[&[], &[0], &[], &[0]]), vec![vec![0, 1, 2], vec![3]]);
}

#[test]
fn grouping_depends_on_registration_order() {
    // {0,1} takes {2} along; {1} must wait although it is disjoint from {0}.
    assert_eq!(plan(&[&[0, 1], &[1], &[0]]), vec![vec![0], vec![1, 2]]);
    assert_eq!(plan(&[&[1], &[0], &[0, 1]]), vec![vec![0, 1], vec![2]]);
    // A later system is kept out of the first group by a member that joined
    // before it was scanned.
    assert_eq!(plan(&[&[0], &[1, 2], &[2]]), vec![vec![0, 1], vec![2]]);
}

#[test]
fn overlapping_systems_never_share_a_group() {
    let footprints: Vec<Vec<usize>> = vec![
        vec![0, 1],
        vec![2],
        vec![1, 3],
        vec![3, 4],
        vec![0, 4],
        vec![5],
        vec![2, 5],
        vec![],
    ];
    let refs: Vec<&[usize]> = footprints.iter().map(|f| f.as_slice()).collect();
    let p = plan(&refs);
    for group in &p {
        for &a in group {
            for &b in group {
                if a != b {
                    assert!(!footprints_overlap(&footprints[a], &footprints[b]));
                }
            }
        }
    }
    assert_eq!(p, vec![vec![0, 1, 3, 5, 7], vec![2, 4, 6]]);
}

#[test]
fn registering_a_disjoint_system_keeps_earlier_groups() {
    let before = plan(&[&[0], &[1], &[0, 2], &[1]]);
    assert_eq!(before, vec![vec![0, 1], vec![2, 3]]);
    let after = plan(&[&[0], &[1], &[0, 2], &[1], &[5]]);
    assert_eq!(after, vec![vec![0, 1, 4], vec![2, 3]]);
}

#[test]
fn registering_a_conflicting_system_opens_or_joins_a_later_group() {
    let after = plan(&[&[0], &[1], &[0, 2], &[1], &[0, 1]]);
    assert_eq!(after, vec![vec![0, 1], vec![2, 3], vec![4]]);
    let after = plan(&[&[0], &[1], &[0, 2], &[0]]);
    assert_eq!(after, vec![vec![0, 1], vec![2], vec![3]]);
}

#[test]
fn deriving_twice_gives_the_same_plan() {
    let s = systems(&[&[0], &[1], &[0, 2], &[3], &[1, 3]]);
    assert_eq!(
        generate_execution_order_for_systems(&s),
        generate_execution_order_for_systems(&s)
    );
}

#[test]
fn footprint_membership() {
    assert!(footprint_contains(&vec![4, 2, 9], 9));
    assert!(!footprint_contains(&vec![4, 2, 9], 3));
    assert!(!footprint_contains(&vec![], 0));
}

#[test]
fn footprint_overlap() {
    assert!(footprints_overlap(&vec![0, 2], &vec![5, 2]));
    assert!(!footprints_overlap(&vec![0, 2], &vec![1, 3]));
    assert!(!footprints_overlap(&vec![], &vec![1]));
    assert!(!footprints_overlap(&vec![1], &vec![]));
}
