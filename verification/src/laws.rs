//! The engine's laws: properties of propagation and traversal that hold
//! for every hierarchy, stated over the specification functions and
//! proved once and for all.

use vstd::prelude::*;
use crate::fixed::{FX_ONE, fx_clamp, fx_scale_down};
use crate::mat4::{
    Vec3, Mat4, vec3_wf, mat_wf, mat_affine, mat_mul_spec, translation_spec, identity_spec,
    lemma_translation_mul_left, lemma_translation_mul_right, lemma_translation_inverse,
    lemma_zero_position_mul, lemma_mul_wf, rotation_x_shape, rotation_y_shape,
    rotation_z_shape, shifted_by, shift_headroom, translation_form, lemma_shifted_mul,
};
use crate::scene_graph::{
    SceneNode, graph_wf, is_child_of, has_parent, parent_of, in_subtree, world_transform,
    local_transform_spec, pivot_spec, rot_xyz_spec, neg_spec, same_shapes, same_edges, drawable,
    draw_commands_spec, draw_children_spec, lemma_parent_unique, lemma_shape_in_subtree,
    lemma_shape_world, lemma_shape_parent, lemma_local_shape, lemma_world_wf, DrawCommand,
    command_of,
};

verus! {

/// The local transforms of the nodes along a chain, folded from the left
/// onto `m0` in chain order.
pub open spec fn chain_product(nodes: Seq<SceneNode>, m0: Mat4, path: Seq<int>) -> Mat4
    decreases path.len(),
{
    if path.len() == 0 {
        m0
    } else {
        mat_mul_spec(
            chain_product(nodes, m0, path.drop_last()),
            local_transform_spec(nodes[path.last()]),
        )
    }
}

/// A chain of edges: each entry after the first is a child of the entry
/// before it.
pub open spec fn is_chain(nodes: Seq<SceneNode>, path: Seq<int>) -> bool {
    forall|u: int|
        0 <= u < path.len() - 1 ==> #[trigger] is_child_of(nodes, path[u + 1], path[u])
}

/// The world transform a propagation pass assigns to a node is the
/// product of the local transforms along the chain from the pass's root
/// down to the node, in root-to-node order, folded from the left onto
/// the accumulated matrix the pass started with. In particular, for a
/// root entered with the identity, every descendant's world transform is
/// exactly the product of its ancestors' local transforms.
pub proof fn lemma_world_is_chain_product(nodes: Seq<SceneNode>, m0: Mat4, path: Seq<int>)
    requires
        graph_wf(nodes),
        path.len() >= 1,
        0 <= path[0] < nodes.len(),
        is_chain(nodes, path),
    ensures
        world_transform(nodes, path[0], m0, path.last()) == chain_product(nodes, m0, path),
        in_subtree(nodes, path[0], path.last()),
        path[0] <= path.last() < nodes.len(),
    decreases path.len(),
{
    let root = path[0];
    if path.len() == 1 {
        assert(path.last() == root);
        assert(path.drop_last().len() == 0);
        assert(chain_product(nodes, m0, path.drop_last()) == m0);
        assert(chain_product(nodes, m0, path) == mat_mul_spec(
            m0,
            local_transform_spec(nodes[path.last()]),
        ));
        assert(in_subtree(nodes, root, root));
    } else {
        let q = path.drop_last();
        let j = path.last();
        let p = q.last();
        assert(q[0] == root);
        assert(is_chain(nodes, q)) by {
            assert forall|u: int| 0 <= u < q.len() - 1 implies #[trigger] is_child_of(
                nodes,
                q[u + 1],
                q[u],
            ) by {
                assert(q[u + 1] == path[u + 1]);
                assert(q[u] == path[u]);
                assert(is_child_of(nodes, path[u + 1], path[u]));
            }
        }
        lemma_world_is_chain_product(nodes, m0, q);
        assert(is_child_of(nodes, j, p)) by {
            assert(path[path.len() - 2] == p && path[path.len() - 1] == j);
            assert(is_child_of(nodes, path[path.len() - 2 + 1], path[path.len() - 2]));
        }
        let k = choose|k: int|
            0 <= k < nodes[p].children@.len() && #[trigger] nodes[p].children@[k] as int == j;
        assert(p < j && j < nodes.len());
        assert(has_parent(nodes, j));
        lemma_parent_unique(nodes, j, parent_of(nodes, j), p);
        assert(world_transform(nodes, root, m0, j) == mat_mul_spec(
            world_transform(nodes, root, m0, p),
            local_transform_spec(nodes[j]),
        ));
        assert(in_subtree(nodes, root, j));
    }
}

/// Rotating a node about its reference point `p` is: translate by the
/// negation of `p`, rotate about the origin, translate by `p`. The two
/// translations are exact inverses of one another, the rotation part of
/// the pivoted matrix equals the plain origin rotation entry for entry,
/// and the position column carries exactly the displacement `p - R*p`
/// that the round trip through the origin leaves behind.
pub proof fn lemma_rotation_about_reference_point(rot: Vec3, p: Vec3)
    requires
        vec3_wf(rot),
        vec3_wf(p),
    ensures
        pivot_spec(rot, p) == mat_mul_spec(
            mat_mul_spec(translation_spec(p), rot_xyz_spec(rot)),
            translation_spec(neg_spec(p)),
        ),
        mat_mul_spec(translation_spec(p), translation_spec(neg_spec(p))) == identity_spec(),
        ({
            let r = rot_xyz_spec(rot);
            let piv = pivot_spec(rot, p);
            &&& piv.m00 == r.m00 && piv.m01 == r.m01 && piv.m02 == r.m02
            &&& piv.m10 == r.m10 && piv.m11 == r.m11 && piv.m12 == r.m12
            &&& piv.m20 == r.m20 && piv.m21 == r.m21 && piv.m22 == r.m22
            &&& mat_affine(piv)
            &&& piv.m03 as int == fx_clamp(
                fx_scale_down(p.x * FX_ONE - (r.m00 * p.x + r.m01 * p.y + r.m02 * p.z)),
            )
            &&& piv.m13 as int == fx_clamp(
                fx_scale_down(p.y * FX_ONE - (r.m10 * p.x + r.m11 * p.y + r.m12 * p.z)),
            )
            &&& piv.m23 as int == fx_clamp(
                fx_scale_down(p.z * FX_ONE - (r.m20 * p.x + r.m21 * p.y + r.m22 * p.z)),
            )
        }),
{
    lemma_translation_inverse(p, neg_spec(p));
    let rx = crate::mat4::rotation_x_spec(rot.x);
    let ry = crate::mat4::rotation_y_spec(rot.y);
    let rz = crate::mat4::rotation_z_spec(rot.z);
    rotation_x_shape(rot.x);
    rotation_y_shape(rot.y);
    rotation_z_shape(rot.z);
    lemma_zero_position_mul(rx, ry);
    lemma_mul_wf(rx, ry);
    lemma_zero_position_mul(mat_mul_spec(rx, ry), rz);
    lemma_mul_wf(mat_mul_spec(rx, ry), rz);
    let r = rot_xyz_spec(rot);
    lemma_translation_mul_left(p, r);
    let a = mat_mul_spec(translation_spec(p), r);
    assert(a.m03 == p.x && a.m13 == p.y && a.m23 == p.z);
    lemma_mul_wf(translation_spec(p), r);
    lemma_translation_mul_right(a, neg_spec(p));
    assert(a.m00 * (neg_spec(p).x as int) == -(r.m00 * p.x)) by (nonlinear_arith)
        requires
            a.m00 == r.m00,
            neg_spec(p).x as int == -(p.x as int),
    {}
    assert(a.m01 * (neg_spec(p).y as int) == -(r.m01 * p.y)) by (nonlinear_arith)
        requires
            a.m01 == r.m01,
            neg_spec(p).y as int == -(p.y as int),
    {}
    assert(a.m02 * (neg_spec(p).z as int) == -(r.m02 * p.z)) by (nonlinear_arith)
        requires
            a.m02 == r.m02,
            neg_spec(p).z as int == -(p.z as int),
    {}
    assert(a.m10 * (neg_spec(p).x as int) == -(r.m10 * p.x)) by (nonlinear_arith)
        requires
            a.m10 == r.m10,
            neg_spec(p).x as int == -(p.x as int),
    {}
    assert(a.m11 * (neg_spec(p).y as int) == -(r.m11 * p.y)) by (nonlinear_arith)
        requires
            a.m11 == r.m11,
            neg_spec(p).y as int == -(p.y as int),
    {}
    assert(a.m12 * (neg_spec(p).z as int) == -(r.m12 * p.z)) by (nonlinear_arith)
        requires
            a.m12 == r.m12,
            neg_spec(p).z as int == -(p.z as int),
    {}
    assert(a.m20 * (neg_spec(p).x as int) == -(r.m20 * p.x)) by (nonlinear_arith)
        requires
            a.m20 == r.m20,
            neg_spec(p).x as int == -(p.x as int),
    {}
    assert(a.m21 * (neg_spec(p).y as int) == -(r.m21 * p.y)) by (nonlinear_arith)
        requires
            a.m21 == r.m21,
            neg_spec(p).y as int == -(p.y as int),
    {}
    assert(a.m22 * (neg_spec(p).z as int) == -(r.m22 * p.z)) by (nonlinear_arith)
        requires
            a.m22 == r.m22,
            neg_spec(p).z as int == -(p.z as int),
    {}
}

/// A non-drawable node never triggers a draw call of its own: the
/// command list of its subtree is exactly the concatenation of its
/// children's command lists, in child-list order, so its children are
/// still visited.
pub proof fn lemma_group_node_draws_nothing(
    nodes: Seq<SceneNode>,
    id: int,
    vp: Mat4,
    cam: Vec3,
    light: Vec3,
)
    requires
        graph_wf(nodes),
        0 <= id < nodes.len(),
        !drawable(nodes[id]),
    ensures
        draw_commands_spec(nodes, id, vp, cam, light) == draw_children_spec(
            nodes,
            id,
            nodes[id].children@.len() as int,
            vp,
            cam,
            light,
        ),
{
    let s = draw_children_spec(nodes, id, nodes[id].children@.len() as int, vp, cam, light);
    assert(Seq::<DrawCommand>::empty() + s =~= s);
}

/// Every command a traversal emits belongs to a drawable node: its index
/// count lies strictly above the sentinel.
pub proof fn lemma_commands_are_drawable(
    nodes: Seq<SceneNode>,
    id: int,
    vp: Mat4,
    cam: Vec3,
    light: Vec3,
)
    requires
        graph_wf(nodes),
        0 <= id < nodes.len(),
    ensures
        forall|t: int|
            0 <= t < draw_commands_spec(nodes, id, vp, cam, light).len()
                ==> #[trigger] draw_commands_spec(nodes, id, vp, cam, light)[t].index_count > 1,
    decreases nodes.len() - id, 1int, 0int,
{
    lemma_commands_are_drawable_children(
        nodes,
        id,
        nodes[id].children@.len() as int,
        vp,
        cam,
        light,
    );
    let own = if drawable(nodes[id]) {
        seq![command_of(nodes[id], vp, cam, light)]
    } else {
        Seq::<DrawCommand>::empty()
    };
    let rest = draw_children_spec(nodes, id, nodes[id].children@.len() as int, vp, cam, light);
    let all = draw_commands_spec(nodes, id, vp, cam, light);
    assert(all == own + rest);
    assert forall|t: int| 0 <= t < all.len() implies #[trigger] all[t].index_count > 1 by {
        if t < own.len() {
            assert(all[t] == own[t]);
        } else {
            assert(all[t] == rest[t - own.len()]);
        }
    }
}

proof fn lemma_commands_are_drawable_children(
    nodes: Seq<SceneNode>,
    id: int,
    k: int,
    vp: Mat4,
    cam: Vec3,
    light: Vec3,
)
    requires
        graph_wf(nodes),
        0 <= id < nodes.len(),
        0 <= k <= nodes[id].children@.len(),
    ensures
        forall|t: int|
            0 <= t < draw_children_spec(nodes, id, k, vp, cam, light).len()
                ==> #[trigger] draw_children_spec(nodes, id, k, vp, cam, light)[t].index_count
                > 1,
    decreases nodes.len() - id, 0int, k,
{
    if k > 0 {
        lemma_commands_are_drawable_children(nodes, id, k - 1, vp, cam, light);
        let c = nodes[id].children@[k - 1] as int;
        lemma_commands_are_drawable(nodes, c, vp, cam, light);
        let s1 = draw_children_spec(nodes, id, k - 1, vp, cam, light);
        let s2 = draw_commands_spec(nodes, c, vp, cam, light);
        let all = draw_children_spec(nodes, id, k, vp, cam, light);
        assert(all == s1 + s2);
        assert forall|t: int| 0 <= t < all.len() implies #[trigger] all[t].index_count > 1 by {
            if t < s1.len() {
                assert(all[t] == s1[t]);
            } else {
                assert(all[t] == s2[t - s1.len()]);
            }
        }
    } else {
        assert(draw_children_spec(nodes, id, k, vp, cam, light).len() == 0);
    }
}

/// The ids of a subtree in depth-first pre-order: the node itself, then
/// each child's subtree, in child-list order.
pub open spec fn preorder_spec(nodes: Seq<SceneNode>, id: int) -> Seq<int>
    decreases nodes.len() - id, 1int, 0int,
        when 0 <= id < nodes.len() && graph_wf(nodes)
{
    seq![id] + preorder_children_spec(nodes, id, nodes[id].children@.len() as int)
}

/// The pre-order ids of the first `k` child subtrees of `id`.
pub open spec fn preorder_children_spec(nodes: Seq<SceneNode>, id: int, k: int) -> Seq<int>
    decreases nodes.len() - id, 0int, k,
        when 0 <= id < nodes.len() && 0 <= k <= nodes[id].children@.len() && graph_wf(nodes)
{
    if k <= 0 {
        Seq::<int>::empty()
    } else {
        preorder_children_spec(nodes, id, k - 1) + preorder_spec(
            nodes,
            nodes[id].children@[k - 1] as int,
        )
    }
}

/// One draw command per drawable node of the listed ids, in list order.
pub open spec fn commands_of_ids(
    nodes: Seq<SceneNode>,
    ids: Seq<int>,
    vp: Mat4,
    cam: Vec3,
    light: Vec3,
) -> Seq<DrawCommand>
    decreases ids.len(),
{
    if ids.len() == 0 {
        Seq::<DrawCommand>::empty()
    } else {
        (if drawable(nodes[ids[0]]) {
            seq![command_of(nodes[ids[0]], vp, cam, light)]
        } else {
            Seq::<DrawCommand>::empty()
        }) + commands_of_ids(nodes, ids.drop_first(), vp, cam, light)
    }
}

proof fn lemma_commands_of_ids_concat(
    nodes: Seq<SceneNode>,
    s1: Seq<int>,
    s2: Seq<int>,
    vp: Mat4,
    cam: Vec3,
    light: Vec3,
)
    ensures
        commands_of_ids(nodes, s1 + s2, vp, cam, light) == commands_of_ids(nodes, s1, vp, cam, light)
            + commands_of_ids(nodes, s2, vp, cam, light),
    decreases s1.len(),
{
    if s1.len() == 0 {
        assert(s1 + s2 =~= s2);
        assert(Seq::<DrawCommand>::empty() + commands_of_ids(
            nodes,
            s2,
            vp,
            cam,
            light,
        ) =~= commands_of_ids(nodes, s2, vp, cam, light));
    } else {
        assert((s1 + s2).drop_first() =~= s1.drop_first() + s2);
        assert((s1 + s2)[0] == s1[0]);
        assert((s1 + s2).len() > 0);
        lemma_commands_of_ids_concat(nodes, s1.drop_first(), s2, vp, cam, light);
        let own = if drawable(nodes[s1[0]]) {
            seq![command_of(nodes[s1[0]], vp, cam, light)]
        } else {
            Seq::<DrawCommand>::empty()
        };
        let t1 = commands_of_ids(nodes, s1.drop_first(), vp, cam, light);
        let t2 = commands_of_ids(nodes, s2, vp, cam, light);
        assert(commands_of_ids(nodes, s1 + s2, vp, cam, light) == own + (t1 + t2));
        assert(commands_of_ids(nodes, s1, vp, cam, light) == own + t1);
        assert(own + (t1 + t2) =~= (own + t1) + t2);
    }
}

/// The traversal issues exactly one draw call per drawable node of the
/// subtree, in depth-first pre-order, and none for any grouping node:
/// the command list is the pre-order walk with the non-drawable nodes
/// passed over.
pub proof fn lemma_draw_follows_preorder(
    nodes: Seq<SceneNode>,
    id: int,
    vp: Mat4,
    cam: Vec3,
    light: Vec3,
)
    requires
        graph_wf(nodes),
        0 <= id < nodes.len(),
    ensures
        draw_commands_spec(nodes, id, vp, cam, light) == commands_of_ids(
            nodes,
            preorder_spec(nodes, id),
            vp,
            cam,
            light,
        ),
    decreases nodes.len() - id, 1int, 0int,
{
    let c = nodes[id].children@.len() as int;
    lemma_draw_children_follow_preorder(nodes, id, c, vp, cam, light);
    let own = if drawable(nodes[id]) {
        seq![command_of(nodes[id], vp, cam, light)]
    } else {
        Seq::<DrawCommand>::empty()
    };
    let head = seq![id];
    let tail = preorder_children_spec(nodes, id, c);
    lemma_commands_of_ids_concat(nodes, head, tail, vp, cam, light);
    assert(head.drop_first() =~= Seq::<int>::empty());
    assert(head[0] == id);
    assert(commands_of_ids(nodes, Seq::<int>::empty(), vp, cam, light)
        == Seq::<DrawCommand>::empty());
    assert(commands_of_ids(nodes, head, vp, cam, light) == own
        + Seq::<DrawCommand>::empty());
    assert(own + Seq::<DrawCommand>::empty() =~= own);
    assert(commands_of_ids(nodes, preorder_spec(nodes, id), vp, cam, light) == own
        + commands_of_ids(nodes, tail, vp, cam, light));
}

proof fn lemma_draw_children_follow_preorder(
    nodes: Seq<SceneNode>,
    id: int,
    k: int,
    vp: Mat4,
    cam: Vec3,
    light: Vec3,
)
    requires
        graph_wf(nodes),
        0 <= id < nodes.len(),
        0 <= k <= nodes[id].children@.len(),
    ensures
        draw_children_spec(nodes, id, k, vp, cam, light) == commands_of_ids(
            nodes,
            preorder_children_spec(nodes, id, k),
            vp,
            cam,
            light,
        ),
    decreases nodes.len() - id, 0int, k,
{
    if k > 0 {
        lemma_draw_children_follow_preorder(nodes, id, k - 1, vp, cam, light);
        let c = nodes[id].children@[k - 1] as int;
        lemma_draw_follows_preorder(nodes, c, vp, cam, light);
        lemma_commands_of_ids_concat(
            nodes,
            preorder_children_spec(nodes, id, k - 1),
            preorder_spec(nodes, c),
            vp,
            cam,
            light,
        );
    }
}

/// Propagation has no hidden state: what it assigns depends only on the
/// positions, rotations, reference points and edges of the arena, never
/// on the cached matrices it overwrites. A second pass over the arena a
/// first pass produced (which has the same shape, only fresher caches)
/// therefore assigns bit-identical transforms.
pub proof fn lemma_propagation_idempotent(
    a: Seq<SceneNode>,
    b: Seq<SceneNode>,
    root: int,
    m0: Mat4,
)
    requires
        graph_wf(a),
        same_shapes(a, b),
        0 <= root < a.len(),
    ensures
        forall|j: int|
            0 <= j < a.len() ==> #[trigger] in_subtree(b, root, j) == in_subtree(a, root, j),
        forall|j: int|
            0 <= j < a.len() ==> #[trigger] world_transform(b, root, m0, j) == world_transform(
                a,
                root,
                m0,
                j,
            ),
{
    assert forall|j: int| 0 <= j < a.len() implies #[trigger] in_subtree(b, root, j)
        == in_subtree(a, root, j) by {
        lemma_shape_in_subtree(a, b, root, j);
    }
    assert forall|j: int| 0 <= j < a.len() implies #[trigger] world_transform(b, root, m0, j)
        == world_transform(a, root, m0, j) by {
        lemma_shape_world(a, b, root, m0, j);
    }
}

/// Arenas `a` and `b` agree everywhere except that node `t`'s position
/// is shifted by exactly `d` (its cached matrix may differ as well).
pub open spec fn translated_at(a: Seq<SceneNode>, b: Seq<SceneNode>, t: int, d: Vec3) -> bool {
    &&& a.len() == b.len()
    &&& 0 <= t < a.len()
    &&& forall|i: int| 0 <= i < a.len() && i != t ==> (#[trigger] a[i]) == b[i]
    &&& b[t].rotation == a[t].rotation
    &&& b[t].scale == a[t].scale
    &&& b[t].reference_point == a[t].reference_point
    &&& b[t].vao_id == a[t].vao_id
    &&& b[t].index_count == a[t].index_count
    &&& b[t].children@ == a[t].children@
    &&& b[t].position.x as int == a[t].position.x + d.x
    &&& b[t].position.y as int == a[t].position.y + d.y
    &&& b[t].position.z as int == a[t].position.z + d.z
}

/// Translating a parent node by the vector `d` translates the world
/// position of every node of its subtree by exactly `d`, whatever the
/// rotation state of the descendants, and changes no other entry of
/// their world transforms. The pass must enter the parent with a pure
/// translation, and the shift needs headroom: no touched position entry
/// may sit at, or be pushed past, the saturation bound.
pub proof fn lemma_parent_translation(
    a: Seq<SceneNode>,
    b: Seq<SceneNode>,
    t: int,
    d: Vec3,
    m0: Mat4,
    j: int,
)
    requires
        graph_wf(a),
        graph_wf(b),
        translated_at(a, b, t, d),
        vec3_wf(d),
        mat_wf(m0),
        translation_form(m0),
        in_subtree(a, t, j),
        shift_headroom(local_transform_spec(a[t]), d),
        forall|i: int|
            0 <= i < a.len() && #[trigger] in_subtree(a, t, i) ==> shift_headroom(
                world_transform(a, t, m0, i),
                d,
            ),
    ensures
        shifted_by(world_transform(a, t, m0, j), world_transform(b, t, m0, j), d),
    decreases (if j < t { t } else { j }),
{
    assert(same_edges(a, b)) by {
        assert forall|i: int| 0 <= i < a.len() implies (#[trigger] a[i]).children@ == (
        #[trigger] b[i]).children@ by {
            if i != t {
                assert(a[i] == b[i]);
            }
        }
    }
    assert(mat_affine(m0)) by {
        assert(m0 == translation_spec(Vec3 { x: m0.m03, y: m0.m13, z: m0.m23 }));
    }
    if j == t {
        let pos_a = a[t].position;
        let pos_b = b[t].position;
        let piv = pivot_spec(a[t].rotation, a[t].reference_point);
        lemma_local_shape(a[t]);
        lemma_local_shape(b[t]);
        assert(local_transform_spec(b[t]) == mat_mul_spec(translation_spec(pos_b), piv));
        assert(shifted_by(translation_spec(pos_a), translation_spec(pos_b), d));
        lemma_shifted_mul(translation_spec(pos_a), translation_spec(pos_b), piv, d);
        let la = local_transform_spec(a[t]);
        let lb = local_transform_spec(b[t]);
        assert(shifted_by(la, lb, d));
        let u = Vec3 { x: m0.m03, y: m0.m13, z: m0.m23 };
        assert(m0 == translation_spec(u));
        lemma_translation_mul_left(u, la);
        lemma_translation_mul_left(u, lb);
        assert(in_subtree(a, t, t));
        let wa = world_transform(a, t, m0, t);
        let wb = world_transform(b, t, m0, t);
        assert(wa == mat_mul_spec(m0, la));
        assert(wb == mat_mul_spec(m0, lb));
        assert(shift_headroom(wa, d));
        assert(wa.m03 as int == crate::fixed::fx_clamp(la.m03 + u.x));
        assert(shifted_by(wa, wb, d));
    } else {
        let p = parent_of(a, j);
        assert(has_parent(a, j) && 0 <= p && p < j && t <= p);
        lemma_parent_translation(a, b, t, d, m0, p);
        lemma_shape_parent(a, b, j);
        assert(is_child_of(a, j, p));
        let k = choose|k: int|
            0 <= k < a[p].children@.len() && #[trigger] a[p].children@[k] as int == j;
        assert(0 <= j < a.len());
        assert(a[j] == b[j]);
        let wap = world_transform(a, t, m0, p);
        let wbp = world_transform(b, t, m0, p);
        let l = local_transform_spec(a[j]);
        assert(world_transform(a, t, m0, j) == mat_mul_spec(wap, l));
        assert(world_transform(b, t, m0, j) == mat_mul_spec(wbp, l));
        lemma_world_wf(a, t, m0, p);
        assert(in_subtree(a, t, p));
        assert(shift_headroom(wap, d));
        assert(mat_wf(wbp)) by {
            assert(shifted_by(wap, wbp, d));
        }
        lemma_local_shape(a[j]);
        assert(in_subtree(a, t, j));
        assert(shift_headroom(mat_mul_spec(wap, l), d));
        lemma_shifted_mul(wap, wbp, l, d);
    }
}

/// Moving node `t` changes no world transform outside the subtree of
/// `t`: the chain of local transforms reaching such a node never passes
/// through `t`.
proof fn lemma_translation_outside_subtree(
    a: Seq<SceneNode>,
    b: Seq<SceneNode>,
    t: int,
    d: Vec3,
    r: int,
    m0: Mat4,
    j: int,
)
    requires
        graph_wf(a),
        translated_at(a, b, t, d),
        0 <= r < a.len(),
        !in_subtree(a, t, j),
    ensures
        world_transform(b, r, m0, j) == world_transform(a, r, m0, j),
    decreases (if j < r { r } else { j }),
{
    assert(same_edges(a, b)) by {
        assert forall|i: int| 0 <= i < a.len() implies (#[trigger] a[i]).children@ == (
        #[trigger] b[i]).children@ by {
            if i != t {
                assert(a[i] == b[i]);
            }
        }
    }
    assert(in_subtree(a, t, t));
    assert(j != t);
    if j == r {
        if 0 <= j < a.len() {
            assert(a[j] == b[j]);
        }
    } else {
        lemma_shape_parent(a, b, j);
        let p = parent_of(a, j);
        if has_parent(a, j) && 0 <= p && p < j && r <= p {
            assert(!in_subtree(a, t, p)) by {
                if in_subtree(a, t, p) {
                    crate::scene_graph::lemma_subtree_min(a, t, p);
                    assert(in_subtree(a, t, j));
                }
            }
            lemma_translation_outside_subtree(a, b, t, d, r, m0, p);
            let pw = choose|q: int| 0 <= q < a.len() && #[trigger] is_child_of(a, j, q);
            let kw = choose|k: int|
                0 <= k < a[pw].children@.len() && #[trigger] a[pw].children@[k] as int == j;
            assert(0 <= j < a.len());
            assert(a[j] == b[j]);
        }
    }
}

/// A pass from `r` factors through any strict descendant `t` of `r`: on
/// the subtree of `t` it assigns the very transforms a pass started at
/// `t` with the world transform of `t`'s parent assigns.
proof fn lemma_world_through_ancestor(nodes: Seq<SceneNode>, r: int, m0: Mat4, t: int, j: int)
    requires
        graph_wf(nodes),
        0 <= r < nodes.len(),
        in_subtree(nodes, r, t),
        t != r,
        in_subtree(nodes, t, j),
    ensures
        world_transform(nodes, r, m0, j) == world_transform(
            nodes,
            t,
            world_transform(nodes, r, m0, parent_of(nodes, t)),
            j,
        ),
    decreases (if j < t { t } else { j }),
{
    let w = world_transform(nodes, r, m0, parent_of(nodes, t));
    if j == t {
        assert(world_transform(nodes, t, w, t) == mat_mul_spec(
            w,
            local_transform_spec(nodes[t]),
        ));
    } else {
        let p = parent_of(nodes, j);
        assert(has_parent(nodes, j) && 0 <= p && p < j && t <= p);
        lemma_world_through_ancestor(nodes, r, m0, t, p);
        crate::scene_graph::lemma_subtree_min(nodes, r, t);
        assert(r < t);
        assert(world_transform(nodes, r, m0, j) == mat_mul_spec(
            world_transform(nodes, r, m0, p),
            local_transform_spec(nodes[j]),
        ));
        assert(world_transform(nodes, t, w, j) == mat_mul_spec(
            world_transform(nodes, t, w, p),
            local_transform_spec(nodes[j]),
        ));
    }
}

/// Translating any node `t` of a tree by `d` — under ancestors that
/// contribute only translations — translates the world position of every
/// node of `t`'s subtree by exactly `d`, whatever the descendants'
/// rotations, and leaves the world transform of every node outside that
/// subtree untouched. The shift needs headroom: no touched position
/// entry may sit at, or be pushed past, the saturation bound.
pub proof fn lemma_parent_translation_in_tree(
    a: Seq<SceneNode>,
    b: Seq<SceneNode>,
    t: int,
    d: Vec3,
    r: int,
    m0: Mat4,
    j: int,
)
    requires
        graph_wf(a),
        graph_wf(b),
        translated_at(a, b, t, d),
        vec3_wf(d),
        mat_wf(m0),
        0 <= r < a.len(),
        in_subtree(a, r, t),
        translation_form(
            if t == r {
                m0
            } else {
                world_transform(a, r, m0, parent_of(a, t))
            },
        ),
        shift_headroom(local_transform_spec(a[t]), d),
        forall|i: int|
            0 <= i < a.len() && #[trigger] in_subtree(a, t, i) ==> shift_headroom(
                world_transform(a, r, m0, i),
                d,
            ),
    ensures
        in_subtree(a, t, j) && 0 <= j < a.len() ==> shifted_by(
            world_transform(a, r, m0, j),
            world_transform(b, r, m0, j),
            d,
        ),
        !in_subtree(a, t, j) ==> world_transform(b, r, m0, j) == world_transform(a, r, m0, j),
{
    assert(same_edges(a, b)) by {
        assert forall|i: int| 0 <= i < a.len() implies (#[trigger] a[i]).children@ == (
        #[trigger] b[i]).children@ by {
            if i != t {
                assert(a[i] == b[i]);
            }
        }
    }
    if !in_subtree(a, t, j) {
        lemma_translation_outside_subtree(a, b, t, d, r, m0, j);
    } else if t == r {
        lemma_parent_translation(a, b, t, d, m0, j);
    } else {
        let pt = parent_of(a, t);
        let w = world_transform(a, r, m0, pt);
        assert(has_parent(a, t) && 0 <= pt && pt < t && r <= pt);
        assert(!in_subtree(a, t, pt)) by {
            if in_subtree(a, t, pt) {
                crate::scene_graph::lemma_subtree_min(a, t, pt);
            }
        }
        lemma_world_wf(a, r, m0, pt);
        lemma_world_through_ancestor(a, r, m0, t, j);
        assert forall|i: int| 0 <= i < a.len() && #[trigger] in_subtree(a, t, i) implies
            shift_headroom(world_transform(a, t, w, i), d) by {
            lemma_world_through_ancestor(a, r, m0, t, i);
        }
        lemma_parent_translation(a, b, t, d, w, j);
        lemma_shape_parent(a, b, t);
        lemma_shape_in_subtree(a, b, r, t);
        lemma_shape_in_subtree(a, b, t, j);
        lemma_translation_outside_subtree(a, b, t, d, r, m0, pt);
        lemma_world_through_ancestor(b, r, m0, t, j);
    }
}

} // verus!
