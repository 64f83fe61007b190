//! The octree over the grid cells that boids occupy, and the choice of the
//! nodes that are drawn.
use vstd::prelude::*;
use vstd::arithmetic::power2::pow2;
use oktree::bounding::{Aabb, TUVec3, TUVec3u32};
use oktree::tree::Octree;

verus! {

/// An `oktree` octree of grid cells, each stored as a point element.
#[verifier::external_body]
pub struct Tree(Octree<u32, TUVec3u32>);

/// The grid cells of the points that an `oktree` octree holds.
pub uninterp spec fn tree_cells(tree: Tree) -> Set<(u32, u32, u32)>;

/// The edge length `e` of the cube `[0, e)^3` that an `oktree` octree was made
/// to cover.
pub uninterp spec fn tree_extent(tree: Tree) -> u32;

/// The boxes of the nodes of an `oktree` octree, each as its lower and upper
/// corner, in the order in which `Octree::iter_nodes` yields them.
pub uninterp spec fn tree_node_boxes(tree: Tree) -> Seq<((u32, u32, u32), (u32, u32, u32))>;

/// Whether `n` is a power of two.
pub open spec fn is_power_of_two(n: int) -> bool {
    exists|k: nat| pow2(k) == n
}

/// Whether a cell lies in the cube `[0, extent)^3`.
pub open spec fn in_cube(cell: (u32, u32, u32), extent: u32) -> bool {
    cell.0 < extent && cell.1 < extent && cell.2 < extent
}

/// Whether a node box lies inside the closed cube `[0, extent]^3`, with its
/// lower corner not above its upper corner.
pub open spec fn box_in_cube(b: ((u32, u32, u32), (u32, u32, u32)), extent: u32) -> bool {
    &&& b.0.0 <= b.1.0 <= extent
    &&& b.0.1 <= b.1.1 <= extent
    &&& b.0.2 <= b.1.2 <= extent
}

/// Whether every node box of a tree lies inside the cube it covers.
pub open spec fn boxes_in_cube(boxes: Seq<((u32, u32, u32), (u32, u32, u32))>, extent: u32) -> bool {
    forall|i: int| 0 <= i < boxes.len() ==> box_in_cube(#[trigger] boxes[i], extent)
}

/// Whether a node box holds a cell and is one cell wide along x.
pub open spec fn thin_box_holds(b: NodeBox, cell: (u32, u32, u32)) -> bool {
    &&& b.0.0 <= cell.0 < b.1.0
    &&& b.0.1 <= cell.1 < b.1.1
    &&& b.0.2 <= cell.2 < b.1.2
    &&& b.1.0 == b.0.0 + 1
}

/// Whether some node box one cell wide along x holds the cell.
pub open spec fn held_by_thin_box(boxes: Seq<NodeBox>, cell: (u32, u32, u32)) -> bool {
    exists|j: int| 0 <= j < boxes.len() && #[trigger] thin_box_holds(boxes[j], cell)
}

/// `oktree::tree::Octree::from_aabb` on the box from the origin to the point
/// `(extent, extent, extent)`: an empty tree that covers `[0, extent)^3`,
/// whose node pool holds only its root node, with that box.
#[verifier::external_body]
fn empty_tree(extent: u32) -> (tree: Tree)
    ensures
        tree_cells(tree) == Set::<(u32, u32, u32)>::empty(),
        tree_extent(tree) == extent,
        tree_node_boxes(tree) == seq![((0u32, 0u32, 0u32), (extent, extent, extent))],
{
    Tree(Octree::from_aabb(Aabb::from_min_max(TUVec3::zero(), TUVec3::splat(extent))))
}

/// `oktree::tree::Octree::insert` of the point element at `cell`, telling
/// whether it returned `Ok`. As its source shows: a point outside the
/// covered cube is refused, a point that the tree already holds is refused,
/// and a refused point leaves the tree's points as they were; otherwise the
/// point is added. The source adds every point that is inside and new when
/// the cube's edge is a power of two (all nodes are then cubes, split down to
/// single cells); for other edges it can also refuse a new point, and that
/// is where such a point stays: in a leaf one cell wide along x (the source
/// stops splitting there) whose box holds it. Splitting a node computes the
/// centre of its box as the `u32` sum of its corners halved. With an edge of
/// at most `2^31` no such sum overflows; with any larger edge `e`, inserting
/// `(e-2, e-2, e-2)` and then `(e-1, e-1, e-1)` into an empty tree splits a
/// box whose upper corner is `e` at centre `e-1`, whose corner sum is at least
/// `2e-2 >= 2^32`, and a debug build panics. Which boxes an insert splits
/// depends on the tree's node layout, which is named, not described; so the
/// bound is on the extent: `2^31` is the largest edge on which every sequence
/// of inserts returns. No node is removed: the root stays the first node,
/// keeping its box, every box stays listed, and a split makes children whose
/// boxes lie between the corners of their parent, so node boxes that lay
/// inside the cube still do.
#[verifier::external_body]
fn tree_insert(tree: &mut Tree, cell: (u32, u32, u32)) -> (inserted: bool)
    requires
        cell.0 < u32::MAX,
        cell.1 < u32::MAX,
        cell.2 < u32::MAX,
        tree_extent(*old(tree)) <= 0x8000_0000,
    ensures
        tree_extent(*final(tree)) == tree_extent(*old(tree)),
        tree_node_boxes(*old(tree)).len() >= 1 ==> tree_node_boxes(*final(tree)).len() >= 1
            && tree_node_boxes(*final(tree))[0] == tree_node_boxes(*old(tree))[0],
        boxes_in_cube(tree_node_boxes(*old(tree)), tree_extent(*old(tree))) ==> boxes_in_cube(
            tree_node_boxes(*final(tree)),
            tree_extent(*old(tree)),
        ),
        inserted ==> in_cube(cell, tree_extent(*old(tree))) && !tree_cells(*old(tree)).contains(
            cell,
        ) && tree_cells(*final(tree)) == tree_cells(*old(tree)).insert(cell),
        !inserted ==> tree_cells(*final(tree)) == tree_cells(*old(tree)),
        is_power_of_two(tree_extent(*old(tree)) as int) && in_cube(
            cell,
            tree_extent(*old(tree)),
        ) && !tree_cells(*old(tree)).contains(cell) ==> inserted,
        forall|b: NodeBox|
            tree_node_boxes(*old(tree)).contains(b) ==> tree_node_boxes(*final(tree)).contains(b),
        !inserted && in_cube(cell, tree_extent(*old(tree))) && !tree_cells(*old(tree)).contains(
            cell,
        ) ==> held_by_thin_box(tree_node_boxes(*final(tree)), cell),
{
    tree.0.insert(TUVec3u32::new(cell.0, cell.1, cell.2)).is_ok()
}

/// `oktree::tree::Octree::iter_nodes`, each node given by the lower and upper
/// corner of its box.
#[verifier::external_body]
fn tree_node_list(tree: &Tree) -> (boxes: Vec<((u32, u32, u32), (u32, u32, u32))>)
    ensures
        boxes@ == tree_node_boxes(*tree),
{
    tree.0.iter_nodes().map(
        |node| ((node.aabb.min.x, node.aabb.min.y, node.aabb.min.z), (node.aabb.max.x, node.aabb.max.y, node.aabb.max.z)),
    ).collect()
}

/// The whole-number part of the octree's configuration.
pub struct OctreeSettings {
    /// The number of grid cells along each edge of the world.
    pub resolution: u32,
    /// Rebuild the tree periodically.
    pub auto_update: bool,
    /// The largest node edge, in cells, that is drawn.
    pub max_size_shown: u32,
    /// The smallest node edge, in cells, that is drawn.
    pub min_size_shown: u32,
}

impl Default for OctreeSettings {
    fn default() -> (settings: Self)
        ensures
            settings.resolution == 512,
            !settings.auto_update,
            settings.max_size_shown == 4,
            settings.min_size_shown == 1,
    {
        OctreeSettings { resolution: 512, auto_update: false, max_size_shown: 4, min_size_shown: 1 }
    }
}

impl Tree {
    /// The grid cells that the tree holds.
    pub open spec fn cells(self) -> Set<(u32, u32, u32)> {
        tree_cells(self)
    }

    /// The number of cells along each edge of the cube the tree covers.
    pub open spec fn extent(self) -> u32 {
        tree_extent(self)
    }
}

/// A coordinate moved into `0..resolution`: coordinates past the last cell
/// go to the last cell.
pub open spec fn clamp_coord(v: u32, resolution: u32) -> u32 {
    if v < resolution {
        v
    } else {
        (resolution - 1) as u32
    }
}

/// A cell moved into the grid `[0, resolution)^3`, coordinate by coordinate.
pub open spec fn grid_cell(cell: (u32, u32, u32), resolution: u32) -> (u32, u32, u32) {
    (
        clamp_coord(cell.0, resolution),
        clamp_coord(cell.1, resolution),
        clamp_coord(cell.2, resolution),
    )
}

/// The grid cells of a sequence of cells.
pub open spec fn grid_cells(cells: Seq<(u32, u32, u32)>, resolution: u32) -> Set<(u32, u32, u32)> {
    Set::new(
        |c: (u32, u32, u32)|
            exists|i: int| 0 <= i < cells.len() && c == grid_cell(#[trigger] cells[i], resolution),
    )
}

/// Moving a cell into the grid leaves a cell of the grid where it is, and
/// moving it twice is moving it once.
pub proof fn lemma_grid_cell_keeps_grid(cell: (u32, u32, u32), resolution: u32)
    requires
        resolution >= 1,
    ensures
        in_cube(cell, resolution) ==> grid_cell(cell, resolution) == cell,
        grid_cell(grid_cell(cell, resolution), resolution) == grid_cell(cell, resolution),
        in_cube(grid_cell(cell, resolution), resolution),
{
}

/// Moves a cell into the grid `[0, resolution)^3`.
pub fn clamp_cell(cell: (u32, u32, u32), resolution: u32) -> (clamped: (u32, u32, u32))
    requires
        resolution >= 1,
    ensures
        clamped == grid_cell(cell, resolution),
        in_cube(clamped, resolution),
{
    let last = resolution - 1;
    let x = if cell.0 < resolution { cell.0 } else { last };
    let y = if cell.1 < resolution { cell.1 } else { last };
    let z = if cell.2 < resolution { cell.2 } else { last };
    (x, y, z)
}

/// Builds the octree over a grid of `resolution` cells along each edge from
/// the cells in which boids stand (each already scaled to cell units and
/// rounded down); cells past the grid are moved to its border. When the
/// resolution is a power of two the tree holds exactly the grid cells of the
/// boids; for any resolution it holds only such cells, all in the grid, and a
/// grid cell of a boid that it does not hold lies in a node one cell wide
/// along x. The bound on the resolution is the largest edge on which the
/// octree's inserts never overflow (see `tree_insert`).
pub fn build_octree(resolution: u32, cells: &Vec<(u32, u32, u32)>) -> (tree: Tree)
    requires
        1 <= resolution <= 0x8000_0000,
    ensures
        tree.extent() == resolution,
        tree_node_boxes(tree).len() >= 1,
        tree_node_boxes(tree)[0] == ((0u32, 0u32, 0u32), (resolution, resolution, resolution)),
        boxes_in_cube(tree_node_boxes(tree), resolution),
        tree.cells().subset_of(grid_cells(cells@, resolution)),
        is_power_of_two(resolution as int) ==> tree.cells() == grid_cells(cells@, resolution),
        forall|c: (u32, u32, u32)| tree.cells().contains(c) ==> in_cube(c, resolution),
        forall|c: (u32, u32, u32)|
            grid_cells(cells@, resolution).contains(c) && !tree.cells().contains(c)
                ==> held_by_thin_box(tree_node_boxes(tree), c),
{
    let mut tree = empty_tree(resolution);
    let mut i: usize = 0;
    while i < cells.len()
        invariant
            1 <= resolution <= 0x8000_0000,
            i <= cells@.len(),
            tree.extent() == resolution,
            tree_node_boxes(tree).len() >= 1,
            tree_node_boxes(tree)[0] == ((0u32, 0u32, 0u32), (resolution, resolution, resolution)),
            boxes_in_cube(tree_node_boxes(tree), resolution),
            tree.cells().subset_of(grid_cells(cells@.take(i as int), resolution)),
            is_power_of_two(resolution as int) ==> tree.cells() == grid_cells(
                cells@.take(i as int),
                resolution,
            ),
            forall|c: (u32, u32, u32)|
                grid_cells(cells@.take(i as int), resolution).contains(c) && !tree.cells().contains(
                    c,
                ) ==> held_by_thin_box(tree_node_boxes(tree), c),
        decreases cells.len() - i,
    {
        let cell = clamp_cell(cells[i], resolution);
        let ghost old_tree = tree;
        let inserted = tree_insert(&mut tree, cell);
        proof {
            assert forall|c: (u32, u32, u32)|
                held_by_thin_box(tree_node_boxes(old_tree), c) implies held_by_thin_box(
                tree_node_boxes(tree),
                c,
            ) by {
                let j = choose|j: int|
                    0 <= j < tree_node_boxes(old_tree).len() && #[trigger] thin_box_holds(
                        tree_node_boxes(old_tree)[j],
                        c,
                    );
                assert(tree_node_boxes(old_tree).contains(tree_node_boxes(old_tree)[j]));
                let k = choose|k: int|
                    0 <= k < tree_node_boxes(tree).len() && tree_node_boxes(tree)[k]
                        == tree_node_boxes(old_tree)[j];
                assert(thin_box_holds(tree_node_boxes(tree)[k], c));
            }
            let prev = grid_cells(cells@.take(i as int), resolution);
            let next = grid_cells(cells@.take(i + 1), resolution);
            assert(cells@.take(i + 1)[i as int] == cells@[i as int]);
            assert(next =~= prev.insert(cell)) by {
                assert forall|c: (u32, u32, u32)| next.contains(c) implies prev.insert(c).contains(
                    c,
                ) && (c == cell || prev.contains(c)) by {
                    let j = choose|j: int|
                        0 <= j < i + 1 && c == grid_cell(#[trigger] cells@.take(i + 1)[j], resolution);
                    if j < i {
                        assert(cells@.take(i as int)[j] == cells@.take(i + 1)[j]);
                    }
                }
                assert forall|c: (u32, u32, u32)| prev.contains(c) implies next.contains(c) by {
                    let j = choose|j: int|
                        0 <= j < i && c == grid_cell(#[trigger] cells@.take(i as int)[j], resolution);
                    assert(cells@.take(i as int)[j] == cells@.take(i + 1)[j]);
                }
                assert(next.contains(cell));
            }
            assert forall|c: (u32, u32, u32)|
                next.contains(c) && !tree.cells().contains(c) implies held_by_thin_box(
                tree_node_boxes(tree),
                c,
            ) by {
                if c != cell {
                    assert(prev.contains(c));
                    assert(!old_tree.cells().contains(c));
                }
            }
        }
        i = i + 1;
    }
    assert(cells@.take(cells@.len() as int) =~= cells@);
    proof {
        assert forall|c: (u32, u32, u32)| tree.cells().contains(c) implies in_cube(c, resolution) by {
            let j = choose|j: int| 0 <= j < cells@.len() && c == grid_cell(#[trigger] cells@[j], resolution);
        }
    }
    tree
}

/// A node box: its lower and its upper corner.
pub type NodeBox = ((u32, u32, u32), (u32, u32, u32));

/// The edge length of a node box, measured along x.
pub open spec fn box_size(b: NodeBox) -> int {
    b.1.0 - b.0.0
}

/// The centre of a node box, rounded down.
pub open spec fn box_center(b: NodeBox) -> (int, int, int) {
    ((b.0.0 + b.1.0) / 2, (b.0.1 + b.1.1) / 2, (b.0.2 + b.1.2) / 2)
}

/// Whether a node is drawn: its edge lies in `min_size..=max_size`.
pub open spec fn is_shown(b: NodeBox, min_size: u32, max_size: u32) -> bool {
    min_size <= box_size(b) <= max_size
}

/// A node to draw: the centre of its box and its edge length, in cells.
pub struct ShownNode {
    pub center: (u32, u32, u32),
    pub size: u32,
}

impl ShownNode {
    /// Whether this describes the node box `b`.
    pub open spec fn describes(self, b: NodeBox) -> bool {
        &&& self.size == box_size(b)
        &&& (self.center.0 as int, self.center.1 as int, self.center.2 as int) == box_center(b)
    }
}

/// The boxes among `boxes` that are drawn, in their order: those whose edge
/// lies in `min_size..=max_size`.
pub open spec fn shown_boxes(boxes: Seq<NodeBox>, min_size: u32, max_size: u32) -> Seq<NodeBox> {
    boxes.filter(|b: NodeBox| is_shown(b, min_size, max_size))
}

impl ShownNode {
    /// Whether this node is drawn for the box `b`: its size is the box's edge
    /// along x, and on each axis its centre is the middle of the box's two
    /// corners (rounded down when their sum is odd).
    pub open spec fn drawn_for(self, b: NodeBox) -> bool {
        &&& self.size == b.1.0 - b.0.0
        &&& b.0.0 + b.1.0 - 1 <= 2 * self.center.0 <= b.0.0 + b.1.0
        &&& b.0.1 + b.1.1 - 1 <= 2 * self.center.1 <= b.0.1 + b.1.1
        &&& b.0.2 + b.1.2 - 1 <= 2 * self.center.2 <= b.0.2 + b.1.2
    }

    /// Whether the node's centre and edge fit in a cube of the given edge.
    pub open spec fn within(self, extent: u32) -> bool {
        &&& self.center.0 <= extent
        &&& self.center.1 <= extent
        &&& self.center.2 <= extent
        &&& self.size <= extent
    }
}

/// A node drawn at the centre of a box sits in the middle of that box: on
/// each axis twice its centre is the sum of the box's corners, or one less
/// when that sum is odd, so the centre lies between the corners.
pub proof fn lemma_center_in_middle(node: ShownNode, b: NodeBox)
    requires
        node.describes(b),
    ensures
        node.drawn_for(b),
        b.0.0 <= b.1.0 ==> b.0.0 <= node.center.0 <= b.1.0,
        b.0.1 <= b.1.1 ==> b.0.1 <= node.center.1 <= b.1.1,
        b.0.2 <= b.1.2 ==> b.0.2 <= node.center.2 <= b.1.2,
{
}

/// The nodes of the tree that are drawn, in the order the tree lists them:
/// those whose edge lies between the smallest and the largest size shown.
pub fn visible_nodes(tree: &Tree, settings: &OctreeSettings) -> (shown: Vec<ShownNode>)
    ensures
        shown@.len() == shown_boxes(
            tree_node_boxes(*tree),
            settings.min_size_shown,
            settings.max_size_shown,
        ).len(),
        forall|i: int|
            0 <= i < shown@.len() ==> #[trigger] shown@[i].describes(
                shown_boxes(tree_node_boxes(*tree), settings.min_size_shown, settings.max_size_shown)[i],
            ),
        boxes_in_cube(tree_node_boxes(*tree), tree.extent()) ==> forall|i: int|
            0 <= i < shown@.len() ==> #[trigger] shown@[i].within(tree.extent()),
        // every drawn node is a node of the tree whose edge is among the sizes
        // shown, drawn with that edge at the middle of its box
        forall|i: int|
            #![trigger shown@[i]]
            #![trigger shown_boxes(tree_node_boxes(*tree), settings.min_size_shown, settings.max_size_shown)[i]]
            0 <= i < shown@.len() ==> {
                let b = shown_boxes(
                    tree_node_boxes(*tree),
                    settings.min_size_shown,
                    settings.max_size_shown,
                )[i];
                &&& tree_node_boxes(*tree).contains(b)
                &&& settings.min_size_shown <= b.1.0 - b.0.0 <= settings.max_size_shown
                &&& shown@[i].drawn_for(b)
            },
        // every node of the tree whose edge is among the sizes shown is drawn
        forall|j: int|
            0 <= j < tree_node_boxes(*tree).len() && settings.min_size_shown
                <= #[trigger] tree_node_boxes(*tree)[j].1.0 - tree_node_boxes(*tree)[j].0.0
                <= settings.max_size_shown ==> exists|i: int|
                0 <= i < shown@.len() && (#[trigger] shown@[i]).drawn_for(tree_node_boxes(*tree)[j]),
{
    let boxes = tree_node_list(tree);
    let min_size = settings.min_size_shown;
    let max_size = settings.max_size_shown;
    let mut shown: Vec<ShownNode> = Vec::new();
    let mut i: usize = 0;
    while i < boxes.len()
        invariant
            i <= boxes@.len(),
            boxes@ == tree_node_boxes(*tree),
            min_size == settings.min_size_shown,
            max_size == settings.max_size_shown,
            shown@.len() == shown_boxes(boxes@.take(i as int), min_size, max_size).len(),
            forall|k: int|
                0 <= k < shown@.len() ==> #[trigger] shown@[k].describes(
                    shown_boxes(boxes@.take(i as int), min_size, max_size)[k],
                ),
            boxes_in_cube(tree_node_boxes(*tree), tree.extent()) ==> forall|k: int|
                0 <= k < shown@.len() ==> #[trigger] shown@[k].within(tree.extent()),
        decreases boxes.len() - i,
    {
        let b = boxes[i];
        let ghost prev = boxes@.take(i as int);
        let ghost pred = |b: NodeBox| is_shown(b, min_size, max_size);
        assert(boxes@.take(i + 1).drop_last() =~= prev);
        assert(boxes@.take(i + 1).last() == b);
        proof {
            reveal_with_fuel(Seq::<_>::filter, 1);
        }
        if b.1.0 >= b.0.0 && min_size <= b.1.0 - b.0.0 && b.1.0 - b.0.0 <= max_size {
            let cx = ((b.0.0 as u64 + b.1.0 as u64) / 2) as u32;
            let cy = ((b.0.1 as u64 + b.1.1 as u64) / 2) as u32;
            let cz = ((b.0.2 as u64 + b.1.2 as u64) / 2) as u32;
            let node = ShownNode { center: (cx, cy, cz), size: b.1.0 - b.0.0 };
            assert(pred(b));
            assert(boxes_in_cube(tree_node_boxes(*tree), tree.extent()) ==> node.within(
                tree.extent(),
            )) by {
                if boxes_in_cube(tree_node_boxes(*tree), tree.extent()) {
                    assert(box_in_cube(boxes@[i as int], tree.extent()));
                }
            }
            assert(shown_boxes(boxes@.take(i + 1), min_size, max_size) == prev.filter(pred).push(b));
            shown.push(node);
        } else {
            assert(!pred(b));
            assert(shown_boxes(boxes@.take(i + 1), min_size, max_size) == prev.filter(pred));
        }
        i = i + 1;
    }
    assert(boxes@.take(boxes@.len() as int) =~= boxes@);
    proof {
        let nodes = tree_node_boxes(*tree);
        let pred = |b: NodeBox| is_shown(b, min_size, max_size);
        let f = nodes.filter(pred);
        assert(f == shown_boxes(nodes, min_size, max_size));
        assert forall|i: int|
            #![trigger shown@[i]]
            #![trigger shown_boxes(tree_node_boxes(*tree), settings.min_size_shown, settings.max_size_shown)[i]]
            0 <= i < shown@.len() implies {
                let b = shown_boxes(
                    tree_node_boxes(*tree),
                    settings.min_size_shown,
                    settings.max_size_shown,
                )[i];
                &&& tree_node_boxes(*tree).contains(b)
                &&& settings.min_size_shown <= b.1.0 - b.0.0 <= settings.max_size_shown
                &&& shown@[i].drawn_for(b)
            } by {
            nodes.lemma_filter_pred(pred, i);
            assert(f.contains(f[i]));
            nodes.lemma_filter_contains_rev(pred, f[i]);
            assert(shown@[i].describes(f[i]));
        }
        assert forall|j: int|
            0 <= j < nodes.len() && min_size <= #[trigger] nodes[j].1.0 - nodes[j].0.0
                <= max_size implies exists|i: int|
            0 <= i < shown@.len() && (#[trigger] shown@[i]).drawn_for(nodes[j]) by {
            assert(pred(nodes[j]));
            nodes.lemma_filter_contains(pred, j);
            let i = choose|i: int| 0 <= i < f.len() && f[i] == nodes[j];
            assert(shown@[i].describes(f[i]));
        }
    }
    shown
}

proof fn lemma_filter_keeps_first(boxes: Seq<NodeBox>, min_size: u32, max_size: u32)
    requires
        boxes.len() >= 1,
        is_shown(boxes[0], min_size, max_size),
    ensures
        shown_boxes(boxes, min_size, max_size).len() >= 1,
        shown_boxes(boxes, min_size, max_size)[0] == boxes[0],
    decreases boxes.len(),
{
    reveal_with_fuel(Seq::<_>::filter, 1);
    if boxes.len() > 1 {
        let rest = boxes.drop_last();
        assert(rest[0] == boxes[0]);
        lemma_filter_keeps_first(rest, min_size, max_size);
    }
}

/// The root is drawn first: when the node boxes of a tree start with the
/// box of the whole grid (as those of every tree `build_octree` makes do)
/// and the grid's edge is among the sizes shown, the first node drawn is
/// that box, the cube around the whole world.
pub proof fn lemma_root_drawn_first(
    boxes: Seq<NodeBox>,
    resolution: u32,
    min_size: u32,
    max_size: u32,
)
    requires
        boxes.len() >= 1,
        boxes[0] == ((0u32, 0u32, 0u32), (resolution, resolution, resolution)),
        min_size <= resolution <= max_size,
    ensures
        shown_boxes(boxes, min_size, max_size).len() >= 1,
        shown_boxes(boxes, min_size, max_size)[0] == boxes[0],
{
    lemma_filter_keeps_first(boxes, min_size, max_size);
}

/// The depth of a power-of-two node size: the exponent of the largest power
/// of two not above `size` (`size.ilog2()`).
pub fn node_level(size: u32) -> (level: u32)
    requires
        size > 0,
    ensures
        pow2(level as nat) <= size < pow2(level as nat + 1),
{
    let mut level: u32 = 0;
    let mut power: u64 = 1;
    proof {
        vstd::arithmetic::power2::lemma2_to64();
    }
    while power * 2 <= size as u64
        invariant
            power == pow2(level as nat),
            1 <= power <= size,
            level < 32,
            size <= u32::MAX,
        decreases size - power,
    {
        proof {
            vstd::arithmetic::power2::lemma_pow2_unfold(level as nat + 1);
            if level >= 31 {
                vstd::arithmetic::power2::lemma2_to64();
                vstd::arithmetic::power2::lemma_pow2_strictly_increases(31, level as nat);
            }
        }
        power = power * 2;
        level = level + 1;
    }
    proof {
        vstd::arithmetic::power2::lemma_pow2_unfold(level as nat + 1);
    }
    level
}

} // verus!
