use boids::octree::{build_octree, clamp_cell, node_level, visible_nodes, OctreeSettings};

fn settings(min: u32, max: u32) -> OctreeSettings {
    OctreeSettings { resolution: 4, auto_update: false, max_size_shown: max, min_size_shown: min }
}

#[test]
fn octree_settings_default() {
    let s = OctreeSettings::default();
    assert_eq!(s.resolution, 512);
    assert!(!s.auto_update);
    assert_eq!(s.max_size_shown, 4);
    assert_eq!(s.min_size_shown, 1);
}

#[test]
fn cells_past_the_grid_go_to_its_border() {
    assert_eq!(clamp_cell((1, 2, 3), 4), (1, 2, 3));
    assert_eq!(clamp_cell((9, 0, 4), 4), (3, 0, 3));
    assert_eq!(clamp_cell((u32::MAX, u32::MAX, 0), 512), (511, 511, 0));
    assert_eq!(clamp_cell((7, 7, 7), 1), (0, 0, 0));
}

#[test]
fn empty_octree_has_only_its_root() {
    let tree = build_octree(4, &vec![]);
    let nodes = visible_nodes(&tree, &settings(1, 4));
    assert_eq!(nodes.len(), 1);
    assert_eq!(nodes[0].size, 4);
    assert_eq!(nodes[0].center, (2, 2, 2));
}

#[test]
fn one_cell_is_held_by_the_root() {
    // the same cell twice is held once: the root stays a leaf
    let tree = build_octree(4, &vec![(1, 1, 1), (1, 1, 1)]);
    let nodes = visible_nodes(&tree, &settings(1, 4));
    assert_eq!(nodes.len(), 1);
}

#[test]
fn two_cells_split_the_root() {
    // (9, 0, 2) lies past the grid and is moved to (3, 0, 2)
    let tree = build_octree(4, &vec![(1, 1, 1), (9, 0, 2)]);
    let nodes = visible_nodes(&tree, &settings(1, 4));
    let got: Vec<((u32, u32, u32), u32)> = nodes.iter().map(|n| (n.center, n.size)).collect();
    assert_eq!(
        got,
        vec![
            ((2, 2, 2), 4),
            ((1, 1, 1), 2),
            ((3, 1, 1), 2),
            ((1, 3, 1), 2),
            ((3, 3, 1), 2),
            ((1, 1, 3), 2),
            ((3, 1, 3), 2),
            ((1, 3, 3), 2),
            ((3, 3, 3), 2),
        ]
    );
}

#[test]
fn only_nodes_of_the_sizes_shown_are_drawn() {
    let tree = build_octree(4, &vec![(1, 1, 1), (3, 0, 2)]);
    let big = visible_nodes(&tree, &settings(3, 4));
    assert_eq!(big.len(), 1);
    assert_eq!(big[0].size, 4);
    let small = visible_nodes(&tree, &settings(1, 2));
    assert_eq!(small.len(), 8);
    assert!(small.iter().all(|n| n.size == 2));
    let none = visible_nodes(&tree, &settings(5, 9));
    assert!(none.is_empty());
}

#[test]
fn neighbouring_cells_split_down_to_single_cells() {
    let tree = build_octree(4, &vec![(0, 0, 0), (1, 0, 0)]);
    let unit = visible_nodes(&tree, &settings(1, 1));
    assert_eq!(unit.len(), 8);
    assert_eq!(unit[0].center, (0, 0, 0));
    assert_eq!(unit[1].center, (1, 0, 0));
}

#[test]
fn node_levels() {
    assert_eq!(node_level(1), 0);
    assert_eq!(node_level(2), 1);
    assert_eq!(node_level(3), 1);
    assert_eq!(node_level(4), 2);
    assert_eq!(node_level(4096), 12);
    assert_eq!(node_level(u32::MAX), 31);
}

#[test]
fn root_box_is_drawn_first_and_nodes_stay_in_the_grid() {
    let tree = build_octree(8, &vec![(0, 0, 0), (7, 7, 7), (3, 5, 1)]);
    let nodes = visible_nodes(&tree, &settings(1, 8));
    assert_eq!(nodes[0].size, 8);
    assert_eq!(nodes[0].center, (4, 4, 4));
    assert!(nodes.len() > 1);
    for n in &nodes {
        assert!(n.size <= 8 && n.center.0 <= 8 && n.center.1 <= 8 && n.center.2 <= 8);
    }
}

#[test]
fn odd_resolution_leaves_a_refused_cell_in_a_thin_node() {
    // At resolution 3 the cells (0, 1, 0) and (0, 2, 0) meet in a node one
    // cell wide along x, which the octree does not split further.
    let tree = build_octree(3, &vec![(0, 1, 0), (0, 2, 0)]);
    let nodes = visible_nodes(&tree, &settings(1, 3));
    assert_eq!(nodes.len(), 9);
    assert!(nodes.iter().any(|n| n.size == 1 && n.center == (0, 2, 0)));
}
