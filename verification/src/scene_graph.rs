//! The scene graph: nodes, transform propagation and draw traversal.
//!
//! Nodes live by value in an arena (`SceneGraph`); a child is referred to
//! by its index, and an edge always points from a lower index to a higher
//! one, so the hierarchy can hold no cycle and every traversal terminates.
//! Each node may have at most one parent: the hierarchy is a forest, and
//! every node has a unique chain of ancestors. A node is drawable when its
//! `index_count` lies above the sentinel (`> 1`); otherwise it is a pure
//! grouping node.
//!
//! Propagation gives each node in a subtree the world transform
//! `parent world transform * local translation * pivoted local rotation`,
//! in depth-first pre-order; the stored matrix is a pure cache of that
//! product. The draw traversal turns the hierarchy into the ordered list
//! of draw commands, one per drawable node, in the same pre-order.

use vstd::prelude::*;
use crate::mat4::{
    Vec3, Mat4, vec3_wf, mat_wf, mat_affine, mat_mul_spec, translation_spec, rotation_x_spec,
    rotation_y_spec, rotation_z_spec, lemma_mul_affine,
};

verus! {

/// A positioned, optionally drawable entity of the hierarchy.
pub struct SceneNode {
    /// Local translation offset, mutable each frame.
    pub position: Vec3,
    /// Local Euler angles (fixed-point radians), applied about the
    /// reference point in the order x, then y, then z.
    pub rotation: Vec3,
    /// Local scale factor. It is stored but deliberately not composed
    /// into the transformation matrix: the engine draws every mesh at
    /// unit scale, and the field is kept so a later composition policy
    /// can be decided explicitly rather than silently.
    pub scale: Vec3,
    /// Pivot point, in the node's own local space, about which the
    /// rotation is applied; fixed at construction.
    pub reference_point: Vec3,
    /// Cache of the node's world transform; valid only right after a
    /// propagation pass over the tree that contains the node.
    pub current_transformation_matrix: Mat4,
    /// Opaque handle of the GPU-resident vertex/index buffers.
    pub vao_id: u32,
    /// Number of indices to draw; a value of at most 1 marks the node as
    /// a pure grouping node that draws nothing.
    pub index_count: i32,
    /// Indices of the children, each strictly greater than the index of
    /// this node within its graph.
    pub children: Vec<usize>,
}

/// The four drawable parts of the helicopter model, as node indices.
pub struct HelicopterStruct {
    pub body: usize,
    pub main_rotor: usize,
    pub tail_rotor: usize,
    pub door: usize,
}

/// The arena owning every node of one hierarchy by value.
pub struct SceneGraph {
    pub nodes: Vec<SceneNode>,
}

/// The vector fields of a node are well-formed scalars, and its child
/// indices point strictly forward and into the arena.
pub open spec fn node_wf(n: SceneNode, i: int, len: int) -> bool {
    &&& vec3_wf(n.position)
    &&& vec3_wf(n.rotation)
    &&& vec3_wf(n.scale)
    &&& vec3_wf(n.reference_point)
    &&& forall|k: int|
        0 <= k < n.children@.len() ==> i < #[trigger] n.children@[k] && n.children@[k] < len
}

/// No index is referred to as a child twice: every node has at most one
/// parent, so the hierarchy is a forest with unique ancestor chains.
pub open spec fn single_parent(nodes: Seq<SceneNode>) -> bool {
    forall|i1: int, k1: int, i2: int, k2: int|
        0 <= i1 < nodes.len() && 0 <= k1 < nodes[i1].children@.len() && 0 <= i2 < nodes.len()
            && 0 <= k2 < nodes[i2].children@.len()
            && #[trigger] nodes[i1].children@[k1] == #[trigger] nodes[i2].children@[k2]
            ==> i1 == i2 && k1 == k2
}

/// Well-formedness of a whole arena.
pub open spec fn graph_wf(nodes: Seq<SceneNode>) -> bool {
    &&& forall|i: int|
        0 <= i < nodes.len() ==> node_wf(#[trigger] nodes[i], i, nodes.len() as int)
    &&& single_parent(nodes)
}

/// `c` sits in the child list of `p`.
pub open spec fn is_child_of(nodes: Seq<SceneNode>, c: int, p: int) -> bool {
    exists|k: int| 0 <= k < nodes[p].children@.len() && #[trigger] nodes[p].children@[k] as int == c
}

/// Some node of the arena lists `c` as a child.
pub open spec fn has_parent(nodes: Seq<SceneNode>, c: int) -> bool {
    exists|p: int| 0 <= p < nodes.len() && #[trigger] is_child_of(nodes, c, p)
}

/// The parent of `c`; meaningful only when `has_parent` holds (and then
/// unique, by `single_parent`).
pub open spec fn parent_of(nodes: Seq<SceneNode>, c: int) -> int {
    choose|p: int| 0 <= p < nodes.len() && #[trigger] is_child_of(nodes, c, p)
}

/// A node is drawable when its index count lies above the sentinel.
pub open spec fn drawable(n: SceneNode) -> bool {
    n.index_count > 1
}

impl SceneNode {
    /// A fresh grouping node: not drawable, no children, zero position
    /// and rotation, unit scale, identity transform cache.
    pub fn new() -> (r: SceneNode)
        ensures
            r.position == (Vec3 { x: 0, y: 0, z: 0 }),
            r.rotation == (Vec3 { x: 0, y: 0, z: 0 }),
            r.scale == (Vec3 { x: crate::fixed::FX_ONE, y: crate::fixed::FX_ONE, z: crate::fixed::FX_ONE }),
            r.reference_point == (Vec3 { x: 0, y: 0, z: 0 }),
            r.current_transformation_matrix == crate::mat4::identity_spec(),
            r.vao_id == 0,
            r.index_count == -1,
            r.children@.len() == 0,
            !drawable(r),
    {
        SceneNode {
            position: Vec3::zero(),
            rotation: Vec3::zero(),
            scale: Vec3::unit(),
            reference_point: Vec3::zero(),
            current_transformation_matrix: Mat4::identity(),
            vao_id: 0,
            index_count: -1,
            children: Vec::new(),
        }
    }

    /// A fresh drawable node bound to an uploaded buffer set, rotating
    /// about the given reference point.
    pub fn from_vao(vao_id: u32, index_count: i32, reference_point: Vec3) -> (r: SceneNode)
        requires
            vec3_wf(reference_point),
        ensures
            r.position == (Vec3 { x: 0, y: 0, z: 0 }),
            r.rotation == (Vec3 { x: 0, y: 0, z: 0 }),
            r.scale == (Vec3 { x: crate::fixed::FX_ONE, y: crate::fixed::FX_ONE, z: crate::fixed::FX_ONE }),
            r.reference_point == reference_point,
            r.current_transformation_matrix == crate::mat4::identity_spec(),
            r.vao_id == vao_id,
            r.index_count == index_count,
            r.children@.len() == 0,
    {
        SceneNode {
            position: Vec3::zero(),
            rotation: Vec3::zero(),
            scale: Vec3::unit(),
            reference_point,
            current_transformation_matrix: Mat4::identity(),
            vao_id,
            index_count,
            children: Vec::new(),
        }
    }

    /// Append a child index. The caller keeps the hierarchy well formed:
    /// within a graph the child index must be greater than this node's
    /// own and not yet be anyone's child (`SceneGraph::attach` checks
    /// both).
    pub fn add_child(&mut self, child: usize)
        ensures
            final(self).children@ == old(self).children@.push(child),
            final(self).position == old(self).position,
            final(self).rotation == old(self).rotation,
            final(self).scale == old(self).scale,
            final(self).reference_point == old(self).reference_point,
            final(self).current_transformation_matrix == old(self).current_transformation_matrix,
            final(self).vao_id == old(self).vao_id,
            final(self).index_count == old(self).index_count,
    {
        self.children.push(child);
    }

    /// Overwrite the local rotation; no recomputation is triggered.
    pub fn set_rotation(&mut self, rotation: Vec3)
        requires
            vec3_wf(rotation),
        ensures
            final(self).rotation == rotation,
            final(self).position == old(self).position,
            final(self).scale == old(self).scale,
            final(self).reference_point == old(self).reference_point,
            final(self).current_transformation_matrix == old(self).current_transformation_matrix,
            final(self).vao_id == old(self).vao_id,
            final(self).index_count == old(self).index_count,
            final(self).children@ == old(self).children@,
    {
        self.rotation = rotation;
    }

    /// Overwrite the local position; no recomputation is triggered.
    pub fn set_position(&mut self, position: Vec3)
        requires
            vec3_wf(position),
        ensures
            final(self).position == position,
            final(self).rotation == old(self).rotation,
            final(self).scale == old(self).scale,
            final(self).reference_point == old(self).reference_point,
            final(self).current_transformation_matrix == old(self).current_transformation_matrix,
            final(self).vao_id == old(self).vao_id,
            final(self).index_count == old(self).index_count,
            final(self).children@ == old(self).children@,
    {
        self.position = position;
    }
}

impl SceneGraph {
    /// An empty arena.
    pub fn new() -> (r: SceneGraph)
        ensures
            r.nodes@.len() == 0,
            graph_wf(r.nodes@),
    {
        SceneGraph { nodes: Vec::new() }
    }

    /// Move a childless node into the arena; its index is returned.
    /// Nodes are added leaf data first, edges afterwards, which is what
    /// keeps every edge pointing from a lower index to a higher one.
    pub fn add_node(&mut self, node: SceneNode) -> (id: usize)
        requires
            graph_wf(old(self).nodes@),
            vec3_wf(node.position),
            vec3_wf(node.rotation),
            vec3_wf(node.scale),
            vec3_wf(node.reference_point),
            node.children@.len() == 0,
        ensures
            final(self).nodes@ == old(self).nodes@.push(node),
            id as int == old(self).nodes@.len(),
            graph_wf(final(self).nodes@),
    {
        let id = self.nodes.len();
        self.nodes.push(node);
        proof {
            let nodes = self.nodes@;
            let prev = old(self).nodes@;
            assert forall|i: int| 0 <= i < nodes.len() implies node_wf(
                #[trigger] nodes[i],
                i,
                nodes.len() as int,
            ) by {
                if i < prev.len() {
                    assert(node_wf(prev[i], i, prev.len() as int));
                }
            }
            assert(single_parent(nodes)) by {
                assert forall|i1: int, k1: int, i2: int, k2: int|
                    0 <= i1 < nodes.len() && 0 <= k1 < nodes[i1].children@.len() && 0 <= i2
                        < nodes.len() && 0 <= k2 < nodes[i2].children@.len()
                        && #[trigger] nodes[i1].children@[k1]
                        == #[trigger] nodes[i2].children@[k2] implies i1 == i2 && k1 == k2 by {
                    assert(i1 < prev.len() || nodes[i1].children@.len() == 0);
                    assert(i2 < prev.len() || nodes[i2].children@.len() == 0);
                }
            }
        }
        id
    }

    /// Whether some node of the arena already lists `child` as a child.
    pub fn has_parent_in(&self, child: usize) -> (r: bool)
        ensures
            r == has_parent(self.nodes@, child as int),
    {
        let n = self.nodes.len();
        let mut i: usize = 0;
        while i < n
            invariant
                n == self.nodes@.len(),
                i <= n,
                forall|p: int| 0 <= p < i ==> !#[trigger] is_child_of(self.nodes@, child as int, p),
            decreases n - i,
        {
            let m = self.nodes[i].children.len();
            let mut k: usize = 0;
            while k < m
                invariant
                    n == self.nodes@.len(),
                    i < n,
                    m == self.nodes@[i as int].children@.len(),
                    k <= m,
                    forall|q: int|
                        0 <= q < k ==> #[trigger] self.nodes@[i as int].children@[q] as int
                            != child as int,
                decreases m - k,
            {
                if self.nodes[i].children[k] == child {
                    proof {
                        assert(is_child_of(self.nodes@, child as int, i as int));
                    }
                    return true;
                }
                k += 1;
            }
            proof {
                assert(!is_child_of(self.nodes@, child as int, i as int));
            }
            i += 1;
        }
        proof {
            if has_parent(self.nodes@, child as int) {
                let p = choose|p: int|
                    0 <= p < self.nodes@.len() && #[trigger] is_child_of(
                        self.nodes@,
                        child as int,
                        p,
                    );
                assert(!is_child_of(self.nodes@, child as int, p));
            }
        }
        false
    }

    /// Make `child` a child of `parent`. Succeeds exactly when both
    /// indices are in the arena, the edge points forward, and `child`
    /// has no parent yet; otherwise the arena is left untouched.
    pub fn attach(&mut self, parent: usize, child: usize) -> (ok: bool)
        requires
            graph_wf(old(self).nodes@),
        ensures
            ok == (parent < child && (child as int) < old(self).nodes@.len() && !has_parent(
                old(self).nodes@,
                child as int,
            )),
            graph_wf(final(self).nodes@),
            ok ==> final(self).nodes@.len() == old(self).nodes@.len() && (forall|j: int|
                0 <= j < old(self).nodes@.len() && j != parent as int ==> final(self).nodes@[j]
                    == old(self).nodes@[j]) && final(self).nodes@[parent as int].children@ == old(
                self,
            ).nodes@[parent as int].children@.push(child) && same_shape_but_children(
                final(self).nodes@[parent as int],
                old(self).nodes@[parent as int],
            ),
            !ok ==> *final(self) == *old(self),
    {
        if !(parent < child && child < self.nodes.len()) {
            return false;
        }
        if self.has_parent_in(child) {
            return false;
        }
        let node = &mut self.nodes[parent];
        node.add_child(child);
        proof {
            let nodes = self.nodes@;
            let prev = old(self).nodes@;
            assert forall|i: int| 0 <= i < nodes.len() implies node_wf(
                #[trigger] nodes[i],
                i,
                nodes.len() as int,
            ) by {
                assert(node_wf(prev[i], i, prev.len() as int));
                if i == parent as int {
                    assert forall|k: int| 0 <= k < nodes[i].children@.len() implies i
                        < #[trigger] nodes[i].children@[k] && nodes[i].children@[k]
                        < nodes.len() by {
                        if k < prev[i].children@.len() {
                            assert(prev[i].children@[k] == nodes[i].children@[k]);
                        }
                    }
                }
            }
            assert(single_parent(nodes)) by {
                assert forall|i1: int, k1: int, i2: int, k2: int|
                    0 <= i1 < nodes.len() && 0 <= k1 < nodes[i1].children@.len() && 0 <= i2
                        < nodes.len() && 0 <= k2 < nodes[i2].children@.len()
                        && #[trigger] nodes[i1].children@[k1]
                        == #[trigger] nodes[i2].children@[k2] implies i1 == i2 && k1 == k2 by {
                    let new1 = i1 == parent as int && k1 == prev[parent as int].children@.len();
                    let new2 = i2 == parent as int && k2 == prev[parent as int].children@.len();
                    if new1 && !new2 {
                        assert(nodes[i2].children@[k2] == prev[i2].children@[k2]);
                        assert(is_child_of(prev, child as int, i2));
                        assert(has_parent(prev, child as int));
                    } else if !new1 && new2 {
                        assert(nodes[i1].children@[k1] == prev[i1].children@[k1]);
                        assert(is_child_of(prev, child as int, i1));
                        assert(has_parent(prev, child as int));
                    } else if !new1 && !new2 {
                        assert(nodes[i1].children@[k1] == prev[i1].children@[k1]);
                        assert(nodes[i2].children@[k2] == prev[i2].children@[k2]);
                    }
                }
            }
        }
        true
    }

    /// Overwrite one node's local position; the hierarchy is untouched.
    pub fn set_position(&mut self, id: usize, v: Vec3)
        requires
            graph_wf(old(self).nodes@),
            id < old(self).nodes@.len(),
            vec3_wf(v),
        ensures
            graph_wf(final(self).nodes@),
            final(self).nodes@.len() == old(self).nodes@.len(),
            forall|j: int|
                0 <= j < old(self).nodes@.len() && j != id as int ==> final(self).nodes@[j]
                    == old(self).nodes@[j],
            final(self).nodes@[id as int].position == v,
            final(self).nodes@[id as int].rotation == old(self).nodes@[id as int].rotation,
            final(self).nodes@[id as int].scale == old(self).nodes@[id as int].scale,
            final(self).nodes@[id as int].reference_point == old(
                self,
            ).nodes@[id as int].reference_point,
            final(self).nodes@[id as int].current_transformation_matrix == old(
                self,
            ).nodes@[id as int].current_transformation_matrix,
            final(self).nodes@[id as int].vao_id == old(self).nodes@[id as int].vao_id,
            final(self).nodes@[id as int].index_count == old(self).nodes@[id as int].index_count,
            final(self).nodes@[id as int].children@ == old(self).nodes@[id as int].children@,
    {
        let node = &mut self.nodes[id];
        node.set_position(v);
        proof {
            lemma_same_structure_wf(old(self).nodes@, self.nodes@);
        }
    }

    /// Overwrite one node's local rotation; the hierarchy is untouched.
    pub fn set_rotation(&mut self, id: usize, v: Vec3)
        requires
            graph_wf(old(self).nodes@),
            id < old(self).nodes@.len(),
            vec3_wf(v),
        ensures
            graph_wf(final(self).nodes@),
            final(self).nodes@.len() == old(self).nodes@.len(),
            forall|j: int|
                0 <= j < old(self).nodes@.len() && j != id as int ==> final(self).nodes@[j]
                    == old(self).nodes@[j],
            final(self).nodes@[id as int].rotation == v,
            final(self).nodes@[id as int].position == old(self).nodes@[id as int].position,
            final(self).nodes@[id as int].scale == old(self).nodes@[id as int].scale,
            final(self).nodes@[id as int].reference_point == old(
                self,
            ).nodes@[id as int].reference_point,
            final(self).nodes@[id as int].current_transformation_matrix == old(
                self,
            ).nodes@[id as int].current_transformation_matrix,
            final(self).nodes@[id as int].vao_id == old(self).nodes@[id as int].vao_id,
            final(self).nodes@[id as int].index_count == old(self).nodes@[id as int].index_count,
            final(self).nodes@[id as int].children@ == old(self).nodes@[id as int].children@,
    {
        let node = &mut self.nodes[id];
        node.set_rotation(v);
        proof {
            lemma_same_structure_wf(old(self).nodes@, self.nodes@);
        }
    }
}

/// An arena stays well formed when nodes change only their well-formed
/// vector fields and cached matrices, not their edges.
proof fn lemma_same_structure_wf(a: Seq<SceneNode>, b: Seq<SceneNode>)
    requires
        graph_wf(a),
        a.len() == b.len(),
        forall|i: int|
            0 <= i < a.len() ==> (#[trigger] b[i]).children@ == a[i].children@ && vec3_wf(
                b[i].position,
            ) && vec3_wf(b[i].rotation) && vec3_wf(b[i].scale) && vec3_wf(b[i].reference_point),
    ensures
        graph_wf(b),
{
    assert forall|i: int| 0 <= i < b.len() implies node_wf(
        #[trigger] b[i],
        i,
        b.len() as int,
    ) by {
        assert(node_wf(a[i], i, a.len() as int));
        assert(b[i].children@ == a[i].children@);
    }
    assert forall|i1: int, k1: int, i2: int, k2: int|
        0 <= i1 < b.len() && 0 <= k1 < b[i1].children@.len() && 0 <= i2 < b.len() && 0 <= k2
            < b[i2].children@.len() && #[trigger] b[i1].children@[k1]
            == #[trigger] b[i2].children@[k2] implies i1 == i2 && k1 == k2 by {
        assert(b[i1].children@ == a[i1].children@);
        assert(b[i2].children@ == a[i2].children@);
    }
}

/// Everything of the two nodes agrees except possibly the child list.
pub open spec fn same_shape_but_children(a: SceneNode, b: SceneNode) -> bool {
    &&& a.position == b.position
    &&& a.rotation == b.rotation
    &&& a.scale == b.scale
    &&& a.reference_point == b.reference_point
    &&& a.current_transformation_matrix == b.current_transformation_matrix
    &&& a.vao_id == b.vao_id
    &&& a.index_count == b.index_count
}

/// Everything of the two nodes agrees except possibly the cached matrix.
pub open spec fn same_shape(a: SceneNode, b: SceneNode) -> bool {
    &&& a.position == b.position
    &&& a.rotation == b.rotation
    &&& a.scale == b.scale
    &&& a.reference_point == b.reference_point
    &&& a.vao_id == b.vao_id
    &&& a.index_count == b.index_count
    &&& a.children@ == b.children@
}

/// The two arenas agree node for node on everything but cached matrices.
pub open spec fn same_shapes(a: Seq<SceneNode>, b: Seq<SceneNode>) -> bool {
    a.len() == b.len() && forall|j: int|
        0 <= j < a.len() ==> same_shape(#[trigger] a[j], #[trigger] b[j])
}

/// The two arenas have the same edges: node for node, equal child lists.
pub open spec fn same_edges(a: Seq<SceneNode>, b: Seq<SceneNode>) -> bool {
    a.len() == b.len() && forall|j: int|
        0 <= j < a.len() ==> (#[trigger] a[j]).children@ == (#[trigger] b[j]).children@
}

/// The componentwise negation of a well-formed vector.
pub open spec fn neg_spec(v: Vec3) -> Vec3 {
    Vec3 { x: (-(v.x as int)) as i64, y: (-(v.y as int)) as i64, z: (-(v.z as int)) as i64 }
}

/// The combined rotation: about x, then y, then z.
pub open spec fn rot_xyz_spec(r: Vec3) -> Mat4 {
    mat_mul_spec(mat_mul_spec(rotation_x_spec(r.x), rotation_y_spec(r.y)), rotation_z_spec(r.z))
}

/// Rotation about the reference point `p`: carry the pivot to the origin,
/// rotate there, and carry it back.
pub open spec fn pivot_spec(rot: Vec3, p: Vec3) -> Mat4 {
    mat_mul_spec(
        mat_mul_spec(translation_spec(p), rot_xyz_spec(rot)),
        translation_spec(neg_spec(p)),
    )
}

/// A node's local transform: translate to its position, then rotate about
/// its reference point. The scale field is deliberately not composed.
pub open spec fn local_transform_spec(n: SceneNode) -> Mat4 {
    mat_mul_spec(translation_spec(n.position), pivot_spec(n.rotation, n.reference_point))
}

/// Whether `j` lies in the subtree rooted at `root`: either it is the
/// root itself, or its unique chain of parents reaches `root`.
pub open spec fn in_subtree(nodes: Seq<SceneNode>, root: int, j: int) -> bool
    decreases j,
{
    if j == root {
        true
    } else {
        let p = parent_of(nodes, j);
        if has_parent(nodes, j) && 0 <= p && p < j && root <= p {
            in_subtree(nodes, root, p)
        } else {
            false
        }
    }
}

/// The world transform a propagation pass starting at `root` with the
/// accumulated matrix `m0` assigns to node `j`: the product of the local
/// transforms along the chain from the root down to `j`, folded from the
/// left onto `m0`.
pub open spec fn world_transform(nodes: Seq<SceneNode>, root: int, m0: Mat4, j: int) -> Mat4
    decreases j,
{
    if j == root {
        mat_mul_spec(m0, local_transform_spec(nodes[j]))
    } else {
        let p = parent_of(nodes, j);
        if has_parent(nodes, j) && 0 <= p && p < j && root <= p {
            mat_mul_spec(world_transform(nodes, root, m0, p), local_transform_spec(nodes[j]))
        } else {
            crate::mat4::identity_spec()
        }
    }
}

/// Under `single_parent`, a node's parent is unique.
pub proof fn lemma_parent_unique(nodes: Seq<SceneNode>, c: int, pa: int, pb: int)
    requires
        single_parent(nodes),
        0 <= pa < nodes.len(),
        0 <= pb < nodes.len(),
        is_child_of(nodes, c, pa),
        is_child_of(nodes, c, pb),
    ensures
        pa == pb,
{
    let ka = choose|k: int|
        0 <= k < nodes[pa].children@.len() && #[trigger] nodes[pa].children@[k] as int == c;
    let kb = choose|k: int|
        0 <= k < nodes[pb].children@.len() && #[trigger] nodes[pb].children@[k] as int == c;
    assert(nodes[pa].children@[ka] == nodes[pb].children@[kb]);
}

/// The parent relation depends only on the child lists, so arenas with
/// the same edges agree on it.
pub proof fn lemma_shape_parent(a: Seq<SceneNode>, b: Seq<SceneNode>, c: int)
    requires
        graph_wf(a),
        same_edges(a, b),
    ensures
        has_parent(b, c) == has_parent(a, c),
        has_parent(a, c) ==> parent_of(b, c) == parent_of(a, c),
{
    assert forall|p: int| 0 <= p < a.len() implies #[trigger] is_child_of(a, c, p) == is_child_of(
        b,
        c,
        p,
    ) by {
        assert(a[p].children@ == b[p].children@);
    }
    if has_parent(a, c) {
        let p = choose|p: int| 0 <= p < a.len() && #[trigger] is_child_of(a, c, p);
        assert(is_child_of(b, c, p));
        assert(has_parent(b, c));
        let pa = parent_of(a, c);
        let pb = parent_of(b, c);
        assert(is_child_of(b, c, pb));
        assert(is_child_of(a, c, pb));
        lemma_parent_unique(a, c, pa, pb);
    }
    if has_parent(b, c) {
        let p = choose|p: int| 0 <= p < b.len() && #[trigger] is_child_of(b, c, p);
        assert(is_child_of(a, c, p));
        assert(has_parent(a, c));
    }
}

/// Subtree membership depends only on the shape of the arena.
pub proof fn lemma_shape_in_subtree(a: Seq<SceneNode>, b: Seq<SceneNode>, root: int, j: int)
    requires
        graph_wf(a),
        same_edges(a, b),
    ensures
        in_subtree(a, root, j) == in_subtree(b, root, j),
    decreases (if j < root { root } else { j }),
{
    if j != root {
        lemma_shape_parent(a, b, j);
        let p = parent_of(a, j);
        if has_parent(a, j) && 0 <= p && p < j && root <= p {
            lemma_shape_in_subtree(a, b, root, p);
        }
    }
}

/// World transforms depend only on the shape of the arena.
pub proof fn lemma_shape_world(a: Seq<SceneNode>, b: Seq<SceneNode>, root: int, m0: Mat4, j: int)
    requires
        graph_wf(a),
        same_shapes(a, b),
        0 <= root < a.len(),
        0 <= j < a.len(),
    ensures
        world_transform(a, root, m0, j) == world_transform(b, root, m0, j),
    decreases (if j < root { root } else { j }),
{
    lemma_shapes_give_edges(a, b);
    if j == root {
        if 0 <= j < a.len() {
            assert(same_shape(a[j], b[j]));
        }
    } else {
        lemma_shape_parent(a, b, j);
        let p = parent_of(a, j);
        if has_parent(a, j) && 0 <= p && p < j && root <= p {
            lemma_shape_world(a, b, root, m0, p);
            if 0 <= j < a.len() {
                assert(same_shape(a[j], b[j]));
            }
        }
    }
}

/// Equal shapes give equal edges.
pub proof fn lemma_shapes_give_edges(a: Seq<SceneNode>, b: Seq<SceneNode>)
    requires
        same_shapes(a, b),
    ensures
        same_edges(a, b),
{
    assert forall|j: int| 0 <= j < a.len() implies (#[trigger] a[j]).children@ == (
    #[trigger] b[j]).children@ by {
        assert(same_shape(a[j], b[j]));
    }
}

/// Same shape preserves arena well-formedness.
proof fn lemma_shape_wf(a: Seq<SceneNode>, b: Seq<SceneNode>)
    requires
        graph_wf(a),
        same_shapes(a, b),
        forall|j: int|
            0 <= j < a.len() ==> vec3_wf(#[trigger] b[j].position) && vec3_wf(b[j].rotation)
                && vec3_wf(b[j].scale) && vec3_wf(b[j].reference_point),
    ensures
        graph_wf(b),
{
    assert forall|i: int| 0 <= i < b.len() implies node_wf(
        #[trigger] b[i],
        i,
        b.len() as int,
    ) by {
        assert(node_wf(a[i], i, a.len() as int));
        assert(b[i].children@ == a[i].children@);
    }
    assert forall|i1: int, k1: int, i2: int, k2: int|
        0 <= i1 < b.len() && 0 <= k1 < b[i1].children@.len() && 0 <= i2 < b.len() && 0 <= k2
            < b[i2].children@.len() && #[trigger] b[i1].children@[k1]
            == #[trigger] b[i2].children@[k2] implies i1 == i2 && k1 == k2 by {
        assert(b[i1].children@ == a[i1].children@);
        assert(b[i2].children@ == a[i2].children@);
    }
}

/// Every member of the subtree of `c` has an index of at least `c`.
pub proof fn lemma_subtree_min(nodes: Seq<SceneNode>, c: int, j: int)
    requires
        in_subtree(nodes, c, j),
    ensures
        c <= j,
    decreases (if j < c { c } else { j }),
{
    if j != c {
        let p = parent_of(nodes, j);
        lemma_subtree_min(nodes, c, p);
    }
}

/// Membership in a child's subtree lifts to the parent's subtree.
proof fn lemma_subtree_lift(nodes: Seq<SceneNode>, root: int, c: int, j: int)
    requires
        graph_wf(nodes),
        0 <= root < nodes.len(),
        is_child_of(nodes, c, root),
        root < c,
        in_subtree(nodes, c, j),
    ensures
        in_subtree(nodes, root, j),
    decreases (if j < c { c } else { j }),
{
    if j == c {
        assert(has_parent(nodes, c));
        let p = parent_of(nodes, c);
        assert(is_child_of(nodes, c, p));
        lemma_parent_unique(nodes, c, p, root);
        assert(in_subtree(nodes, root, root));
        assert(in_subtree(nodes, root, c));
    } else {
        let p = parent_of(nodes, j);
        lemma_subtree_lift(nodes, root, c, p);
        lemma_subtree_min(nodes, c, p);
        assert(in_subtree(nodes, root, j));
    }
}

/// A strict member of a subtree lies in the subtree of one of the root's
/// children.
proof fn lemma_subtree_decompose(nodes: Seq<SceneNode>, root: int, j: int)
    requires
        graph_wf(nodes),
        0 <= root < nodes.len(),
        in_subtree(nodes, root, j),
        j != root,
    ensures
        exists|m: int|
            0 <= m < nodes[root].children@.len() && in_subtree(
                nodes,
                #[trigger] nodes[root].children@[m] as int,
                j,
            ),
    decreases (if j < root { root } else { j }),
{
    let p = parent_of(nodes, j);
    assert(has_parent(nodes, j) && 0 <= p && p < j && root <= p);
    if p == root {
        assert(is_child_of(nodes, j, root));
        let k = choose|k: int|
            0 <= k < nodes[root].children@.len() && #[trigger] nodes[root].children@[k] as int
                == j;
        assert(in_subtree(nodes, nodes[root].children@[k] as int, j));
    } else {
        lemma_subtree_decompose(nodes, root, p);
        let m = choose|m: int|
            0 <= m < nodes[root].children@.len() && in_subtree(
                nodes,
                #[trigger] nodes[root].children@[m] as int,
                p,
            );
        let c = nodes[root].children@[m] as int;
        lemma_subtree_min(nodes, c, p);
        assert(in_subtree(nodes, c, j));
    }
}

/// Starting a propagation at a child of `root` with the root's own world
/// transform yields, on the child's whole subtree, the very transforms a
/// propagation from `root` yields.
proof fn lemma_world_through_child(nodes: Seq<SceneNode>, root: int, m0: Mat4, c: int, j: int)
    requires
        graph_wf(nodes),
        0 <= root < nodes.len(),
        is_child_of(nodes, c, root),
        root < c,
        in_subtree(nodes, c, j),
    ensures
        world_transform(nodes, root, m0, j) == world_transform(
            nodes,
            c,
            mat_mul_spec(m0, local_transform_spec(nodes[root])),
            j,
        ),
    decreases (if j < c { c } else { j }),
{
    let w0 = mat_mul_spec(m0, local_transform_spec(nodes[root]));
    assert(world_transform(nodes, root, m0, root) == mat_mul_spec(
        m0,
        local_transform_spec(nodes[root]),
    ));
    if j == c {
        assert(has_parent(nodes, c));
        let p = parent_of(nodes, c);
        assert(is_child_of(nodes, c, p));
        lemma_parent_unique(nodes, c, p, root);
        assert(world_transform(nodes, c, w0, c) == mat_mul_spec(
            w0,
            local_transform_spec(nodes[c]),
        ));
        assert(world_transform(nodes, root, m0, c) == mat_mul_spec(
            world_transform(nodes, root, m0, root),
            local_transform_spec(nodes[c]),
        ));
    } else {
        let p = parent_of(nodes, j);
        lemma_world_through_child(nodes, root, m0, c, p);
        lemma_subtree_min(nodes, c, p);
        assert(world_transform(nodes, root, m0, j) == mat_mul_spec(
            world_transform(nodes, root, m0, p),
            local_transform_spec(nodes[j]),
        ));
        assert(world_transform(nodes, c, w0, j) == mat_mul_spec(
            world_transform(nodes, c, w0, p),
            local_transform_spec(nodes[j]),
        ));
    }
}

/// A node's pivot and local transform are well formed and affine.
pub proof fn lemma_local_shape(n: SceneNode)
    requires
        vec3_wf(n.position),
        vec3_wf(n.rotation),
        vec3_wf(n.reference_point),
    ensures
        mat_wf(pivot_spec(n.rotation, n.reference_point)),
        mat_affine(pivot_spec(n.rotation, n.reference_point)),
        mat_wf(local_transform_spec(n)),
        mat_affine(local_transform_spec(n)),
{
    let rx = rotation_x_spec(n.rotation.x);
    let ry = rotation_y_spec(n.rotation.y);
    let rz = rotation_z_spec(n.rotation.z);
    crate::mat4::rotation_x_shape(n.rotation.x);
    crate::mat4::rotation_y_shape(n.rotation.y);
    crate::mat4::rotation_z_shape(n.rotation.z);
    crate::mat4::lemma_mul_wf(rx, ry);
    lemma_mul_affine(rx, ry);
    crate::mat4::lemma_mul_wf(mat_mul_spec(rx, ry), rz);
    lemma_mul_affine(mat_mul_spec(rx, ry), rz);
    let tp = translation_spec(n.reference_point);
    let tn = translation_spec(neg_spec(n.reference_point));
    crate::mat4::lemma_mul_wf(tp, rot_xyz_spec(n.rotation));
    lemma_mul_affine(tp, rot_xyz_spec(n.rotation));
    crate::mat4::lemma_mul_wf(mat_mul_spec(tp, rot_xyz_spec(n.rotation)), tn);
    lemma_mul_affine(mat_mul_spec(tp, rot_xyz_spec(n.rotation)), tn);
    crate::mat4::lemma_mul_wf(
        translation_spec(n.position),
        pivot_spec(n.rotation, n.reference_point),
    );
    lemma_mul_affine(translation_spec(n.position), pivot_spec(n.rotation, n.reference_point));
}

/// Every world transform of a pass is well formed, and affine when the
/// accumulated matrix is affine.
pub proof fn lemma_world_wf(nodes: Seq<SceneNode>, root: int, m0: Mat4, j: int)
    requires
        graph_wf(nodes),
        mat_wf(m0),
        0 <= root < nodes.len(),
    ensures
        mat_wf(world_transform(nodes, root, m0, j)),
        mat_affine(m0) ==> mat_affine(world_transform(nodes, root, m0, j)),
    decreases (if j < root { root } else { j }),
{
    if j == root {
        lemma_local_shape(nodes[j]);
        crate::mat4::lemma_mul_wf(m0, local_transform_spec(nodes[j]));
        if mat_affine(m0) {
            lemma_mul_affine(m0, local_transform_spec(nodes[j]));
        }
    } else {
        let p = parent_of(nodes, j);
        if has_parent(nodes, j) && 0 <= p && p < j && root <= p {
            lemma_world_wf(nodes, root, m0, p);
            assert(is_child_of(nodes, j, p));
            let k = choose|k: int|
                0 <= k < nodes[p].children@.len() && #[trigger] nodes[p].children@[k] as int
                    == j;
            assert(0 <= j < nodes.len());
            lemma_local_shape(nodes[j]);
            crate::mat4::lemma_mul_wf(
                world_transform(nodes, root, m0, p),
                local_transform_spec(nodes[j]),
            );
            if mat_affine(m0) {
                lemma_mul_affine(
                    world_transform(nodes, root, m0, p),
                    local_transform_spec(nodes[j]),
                );
            }
        }
    }
}

/// Compute a node's local transform from its fields.
fn local_matrix_of(n: &SceneNode) -> (r: Mat4)
    requires
        vec3_wf(n.position),
        vec3_wf(n.rotation),
        vec3_wf(n.reference_point),
    ensures
        r == local_transform_spec(*n),
        mat_wf(r),
        mat_affine(r),
{
    let rx = Mat4::rotation_x(n.rotation.x);
    let ry = Mat4::rotation_y(n.rotation.y);
    let rz = Mat4::rotation_z(n.rotation.z);
    let rxyz = rx.multiply(&ry).multiply(&rz);
    let refp = Mat4::translation(&n.reference_point);
    let nref = n.reference_point.negated();
    let refn = Mat4::translation(&nref);
    let pivot = refp.multiply(&rxyz).multiply(&refn);
    let t = Mat4::translation(&n.position);
    let r = t.multiply(&pivot);
    proof {
        assert(nref == neg_spec(n.reference_point));
        lemma_mul_affine(rotation_x_spec(n.rotation.x), rotation_y_spec(n.rotation.y));
        lemma_mul_affine(
            mat_mul_spec(rotation_x_spec(n.rotation.x), rotation_y_spec(n.rotation.y)),
            rotation_z_spec(n.rotation.z),
        );
        lemma_mul_affine(translation_spec(n.reference_point), rot_xyz_spec(n.rotation));
        lemma_mul_affine(
            mat_mul_spec(translation_spec(n.reference_point), rot_xyz_spec(n.rotation)),
            translation_spec(neg_spec(n.reference_point)),
        );
        lemma_mul_affine(
            translation_spec(n.position),
            pivot_spec(n.rotation, n.reference_point),
        );
    }
    r
}

/// Propagate transforms through the subtree rooted at `root`: give every
/// node of the subtree its world transform (the accumulated matrix folded
/// with the local transforms along its ancestor chain), depth-first and
/// pre-order, and leave every node outside the subtree untouched.
pub fn update_node_transformations(
    graph: &mut SceneGraph,
    root: usize,
    transformation_so_far: &Mat4,
)
    requires
        graph_wf(old(graph).nodes@),
        root < old(graph).nodes@.len(),
        mat_wf(*transformation_so_far),
        mat_affine(*transformation_so_far),
    ensures
        same_shapes(old(graph).nodes@, final(graph).nodes@),
        graph_wf(final(graph).nodes@),
        forall|j: int|
            0 <= j < old(graph).nodes@.len() && in_subtree(old(graph).nodes@, root as int, j)
                ==> #[trigger] final(graph).nodes@[j].current_transformation_matrix
                == world_transform(old(graph).nodes@, root as int, *transformation_so_far, j),
        forall|j: int|
            0 <= j < old(graph).nodes@.len() && !in_subtree(old(graph).nodes@, root as int, j)
                ==> #[trigger] final(graph).nodes@[j] == old(graph).nodes@[j],
{
    propagate_rec(graph, root, transformation_so_far, Ghost(old(graph).nodes@.len() as int));
}

/// The recursive worker behind `update_node_transformations`; the ghost
/// arena length carries the termination measure past the mutable borrow.
fn propagate_rec(
    graph: &mut SceneGraph,
    root: usize,
    transformation_so_far: &Mat4,
    Ghost(arena_len): Ghost<int>,
)
    requires
        graph_wf(old(graph).nodes@),
        root < old(graph).nodes@.len(),
        mat_wf(*transformation_so_far),
        mat_affine(*transformation_so_far),
        arena_len == old(graph).nodes@.len(),
    ensures
        same_shapes(old(graph).nodes@, final(graph).nodes@),
        graph_wf(final(graph).nodes@),
        forall|j: int|
            0 <= j < old(graph).nodes@.len() && in_subtree(old(graph).nodes@, root as int, j)
                ==> #[trigger] final(graph).nodes@[j].current_transformation_matrix
                == world_transform(old(graph).nodes@, root as int, *transformation_so_far, j),
        forall|j: int|
            0 <= j < old(graph).nodes@.len() && !in_subtree(old(graph).nodes@, root as int, j)
                ==> #[trigger] final(graph).nodes@[j] == old(graph).nodes@[j],
    decreases arena_len - root,
{
    let ghost orig = old(graph).nodes@;
    let ghost m0 = *transformation_so_far;
    let local = local_matrix_of(&graph.nodes[root]);
    let w = transformation_so_far.multiply(&local);
    proof {
        lemma_mul_affine(m0, local_transform_spec(orig[root as int]));
    }
    let node = &mut graph.nodes[root];
    node.current_transformation_matrix = w;
    let ghost cs = orig[root as int].children@;
    let num = graph.nodes[root].children.len();
    let mut k: usize = 0;
    while k < num
        invariant
            graph_wf(orig),
            arena_len == orig.len(),
            root < orig.len(),
            mat_wf(m0),
            mat_affine(m0),
            mat_wf(w),
            mat_affine(w),
            w == mat_mul_spec(m0, local_transform_spec(orig[root as int])),
            cs == orig[root as int].children@,
            num == cs.len(),
            k <= num,
            graph.nodes@.len() == orig.len(),
            same_shapes(orig, graph.nodes@),
            graph.nodes@[root as int].current_transformation_matrix == world_transform(
                orig,
                root as int,
                m0,
                root as int,
            ),
            forall|j: int|
                0 <= j < orig.len() && j != root as int ==> if (exists|m: int|
                    0 <= m < k && in_subtree(orig, #[trigger] cs[m] as int, j)) {
                    (#[trigger] graph.nodes@[j]).current_transformation_matrix
                        == world_transform(orig, root as int, m0, j)
                } else {
                    graph.nodes@[j] == orig[j]
                },
        decreases num - k,
    {
        let ghost pre = graph.nodes@;
        proof {
            lemma_shape_wf(orig, pre);
            lemma_shapes_give_edges(orig, pre);
        }
        let c = graph.nodes[root].children[k];
        proof {
            assert(same_shape(orig[root as int], pre[root as int]));
            assert(pre[root as int].children@ == cs);
            assert(c == cs[k as int]);
            assert(root < cs[k as int] && cs[k as int] < orig.len());
        }
        proof {
            assert(root < c);
            assert(graph.nodes@.len() == orig.len());
        }
        propagate_rec(graph, c, &w, Ghost(arena_len));
        proof {
            let cur = graph.nodes@;
            let ci = c as int;
            assert(same_shapes(orig, cur)) by {
                assert forall|j: int| 0 <= j < orig.len() implies same_shape(
                    #[trigger] orig[j],
                    #[trigger] cur[j],
                ) by {
                    assert(same_shape(orig[j], pre[j]));
                    assert(same_shape(pre[j], cur[j]));
                }
            }
            assert(is_child_of(orig, ci, root as int)) by {
                assert(orig[root as int].children@[k as int] as int == ci);
            }
            assert forall|j: int|
                0 <= j < orig.len() && j != root as int implies if (exists|m: int|
                0 <= m < k + 1 && in_subtree(orig, #[trigger] cs[m] as int, j)) {
                (#[trigger] cur[j]).current_transformation_matrix == world_transform(
                    orig,
                    root as int,
                    m0,
                    j,
                )
            } else {
                cur[j] == orig[j]
            } by {
                lemma_shape_in_subtree(orig, pre, ci, j);
                if in_subtree(orig, ci, j) {
                    assert(cur[j].current_transformation_matrix == world_transform(
                        pre,
                        ci,
                        w,
                        j,
                    ));
                    lemma_shape_world(orig, pre, ci, w, j);
                    lemma_world_through_child(orig, root as int, m0, ci, j);
                    assert(in_subtree(orig, cs[k as int] as int, j));
                } else {
                    assert(cur[j] == pre[j]);
                    if exists|m: int| 0 <= m < k + 1 && in_subtree(orig, #[trigger] cs[m] as int, j) {
                        let m = choose|m: int|
                            0 <= m < k + 1 && in_subtree(orig, #[trigger] cs[m] as int, j);
                        assert(m < k);
                        assert(exists|m2: int|
                            0 <= m2 < k && in_subtree(orig, #[trigger] cs[m2] as int, j));
                    }
                }
            }
            assert(graph.nodes@[root as int].current_transformation_matrix == world_transform(
                orig,
                root as int,
                m0,
                root as int,
            )) by {
                if in_subtree(orig, ci, root as int) {
                    lemma_subtree_min(orig, ci, root as int);
                } else {
                    lemma_shape_in_subtree(orig, pre, ci, root as int);
                }
            }
        }
        k += 1;
    }
    proof {
        let fin = graph.nodes@;
        lemma_shape_wf(orig, fin);
        assert forall|j: int|
            0 <= j < orig.len() && in_subtree(orig, root as int, j) implies (
        #[trigger] fin[j].current_transformation_matrix) == world_transform(
            orig,
            root as int,
            m0,
            j,
        ) by {
            if j != root as int {
                lemma_subtree_decompose(orig, root as int, j);
            }
        }
        assert forall|j: int|
            0 <= j < orig.len() && !in_subtree(orig, root as int, j) implies (#[trigger] fin[j])
            == orig[j] by {
            if exists|m: int| 0 <= m < num && in_subtree(orig, #[trigger] cs[m] as int, j) {
                let m = choose|m: int|
                    0 <= m < num && in_subtree(orig, #[trigger] cs[m] as int, j);
                assert(is_child_of(orig, cs[m] as int, root as int)) by {
                    assert(orig[root as int].children@[m] as int == cs[m] as int);
                }
                lemma_subtree_lift(orig, root as int, cs[m] as int, j);
            }
        }
    }
}

/// One indexed draw call together with the full uniform state it is to
/// be issued with.
#[derive(Clone, Copy, Debug, PartialEq, Eq, Structural)]
pub struct DrawCommand {
    pub vao_id: u32,
    pub index_count: i32,
    pub view_projection: Mat4,
    pub scene_transform: Mat4,
    pub camera_position: Vec3,
    pub light_source: Vec3,
}

/// The draw command a drawable node gives rise to.
pub open spec fn command_of(n: SceneNode, vp: Mat4, cam: Vec3, light: Vec3) -> DrawCommand {
    DrawCommand {
        vao_id: n.vao_id,
        index_count: n.index_count,
        view_projection: vp,
        scene_transform: n.current_transformation_matrix,
        camera_position: cam,
        light_source: light,
    }
}

/// The commands a pre-order walk of the subtree of `id` issues: one for
/// the node itself if it is drawable, then those of each child subtree,
/// in child-list order.
pub open spec fn draw_commands_spec(
    nodes: Seq<SceneNode>,
    id: int,
    vp: Mat4,
    cam: Vec3,
    light: Vec3,
) -> Seq<DrawCommand>
    decreases nodes.len() - id, 1int, 0int,
        when 0 <= id < nodes.len() && graph_wf(nodes)
{
    let own = if drawable(nodes[id]) {
        seq![command_of(nodes[id], vp, cam, light)]
    } else {
        Seq::<DrawCommand>::empty()
    };
    own + draw_children_spec(nodes, id, nodes[id].children@.len() as int, vp, cam, light)
}

/// The commands of the first `k` child subtrees of `id`, concatenated.
pub open spec fn draw_children_spec(
    nodes: Seq<SceneNode>,
    id: int,
    k: int,
    vp: Mat4,
    cam: Vec3,
    light: Vec3,
) -> Seq<DrawCommand>
    decreases nodes.len() - id, 0int, k,
        when 0 <= id < nodes.len() && 0 <= k <= nodes[id].children@.len() && graph_wf(nodes)
{
    if k <= 0 {
        Seq::<DrawCommand>::empty()
    } else {
        draw_children_spec(nodes, id, k - 1, vp, cam, light) + draw_commands_spec(
            nodes,
            nodes[id].children@[k - 1] as int,
            vp,
            cam,
            light,
        )
    }
}

/// Walk the subtree of `root` depth-first in pre-order and collect one
/// draw command per drawable node, each carrying that node's own cached
/// world transform and the shared frame uniforms. Grouping nodes add no
/// command but their children are still visited, in child-list order.
pub fn draw_scene(
    graph: &SceneGraph,
    root: usize,
    view_projection_matrix: &Mat4,
    camera_position: &Vec3,
    lightsource: &Vec3,
) -> (r: Vec<DrawCommand>)
    requires
        graph_wf(graph.nodes@),
        root < graph.nodes@.len(),
    ensures
        r@ == draw_commands_spec(
            graph.nodes@,
            root as int,
            *view_projection_matrix,
            *camera_position,
            *lightsource,
        ),
    decreases graph.nodes@.len() - root,
{
    let ghost nodes = graph.nodes@;
    let ghost vp = *view_projection_matrix;
    let ghost cam = *camera_position;
    let ghost light = *lightsource;
    let mut out: Vec<DrawCommand> = Vec::new();
    if graph.nodes[root].index_count > 1 {
        let node = &graph.nodes[root];
        out.push(
            DrawCommand {
                vao_id: node.vao_id,
                index_count: node.index_count,
                view_projection: *view_projection_matrix,
                scene_transform: node.current_transformation_matrix,
                camera_position: *camera_position,
                light_source: *lightsource,
            },
        );
    }
    let ghost own = out@;
    let num = graph.nodes[root].children.len();
    let mut k: usize = 0;
    while k < num
        invariant
            graph_wf(nodes),
            nodes == graph.nodes@,
            vp == *view_projection_matrix,
            cam == *camera_position,
            light == *lightsource,
            root < nodes.len(),
            num == nodes[root as int].children@.len(),
            k <= num,
            own == (if drawable(nodes[root as int]) {
                seq![command_of(nodes[root as int], vp, cam, light)]
            } else {
                Seq::<DrawCommand>::empty()
            }),
            out@ == own + draw_children_spec(nodes, root as int, k as int, vp, cam, light),
        decreases num - k,
    {
        let c = graph.nodes[root].children[k];
        let mut sub = draw_scene(graph, c, view_projection_matrix, camera_position, lightsource);
        out.append(&mut sub);
        proof {
            assert(draw_children_spec(nodes, root as int, k + 1, vp, cam, light)
                == draw_children_spec(nodes, root as int, k as int, vp, cam, light)
                + draw_commands_spec(nodes, c as int, vp, cam, light));
        }
        k += 1;
    }
    proof {
        assert(out@ == draw_commands_spec(nodes, root as int, vp, cam, light));
    }
    out
}

} // verus!
