use gloom_scene::fixed::FX_ONE;
use gloom_scene::mat4::{Mat4, Vec3};
use gloom_scene::scene_graph::{
    SceneGraph, SceneNode, HelicopterStruct, draw_scene, update_node_transformations,
};
use gloom_scene::trig::{fx_cos, fx_sin};

fn to_fx(v: f64) -> i64 {
    (v * FX_ONE as f64).round() as i64
}

fn to_f64(v: i64) -> f64 {
    v as f64 / FX_ONE as f64
}

fn vec(x: f64, y: f64, z: f64) -> Vec3 {
    Vec3::new(to_fx(x), to_fx(y), to_fx(z))
}

/// The local transform a node contributes, composed by hand out of the
/// public matrix constructors: translate, then rotate about the pivot.
fn local_by_hand(position: Vec3, rotation: Vec3, reference_point: Vec3) -> Mat4 {
    let rxyz = Mat4::rotation_x(rotation.x)
        .multiply(&Mat4::rotation_y(rotation.y))
        .multiply(&Mat4::rotation_z(rotation.z));
    let pivot = Mat4::translation(&reference_point)
        .multiply(&rxyz)
        .multiply(&Mat4::translation(&reference_point.negated()));
    Mat4::translation(&position).multiply(&pivot)
}

/// Terrain plus a helicopter of four parts under a grouping body, as the
/// renderer builds it each frame.
fn helicopter_scene() -> (SceneGraph, usize, usize, HelicopterStruct) {
    let mut g = SceneGraph::new();
    let root = g.add_node(SceneNode::new());
    let lunar = g.add_node(SceneNode::from_vao(1, 1234, vec(0.0, 0.0, 0.0)));
    let body = g.add_node(SceneNode::from_vao(2, 5000, vec(0.0, 0.0, 0.0)));
    let main_rotor = g.add_node(SceneNode::from_vao(3, 750, vec(0.35, 2.3, 0.0)));
    let tail_rotor = g.add_node(SceneNode::from_vao(4, 180, vec(0.35, 2.3, 10.4)));
    let door = g.add_node(SceneNode::from_vao(5, 250, vec(0.0, 0.0, 0.0)));
    assert!(g.attach(root, lunar));
    assert!(g.attach(root, body));
    assert!(g.attach(body, main_rotor));
    assert!(g.attach(body, tail_rotor));
    assert!(g.attach(body, door));
    let heli = HelicopterStruct { body, main_rotor, tail_rotor, door };
    (g, root, lunar, heli)
}

#[test]
fn attach_accepts_only_forward_unclaimed_edges() {
    let mut g = SceneGraph::new();
    let a = g.add_node(SceneNode::new());
    let b = g.add_node(SceneNode::new());
    let c = g.add_node(SceneNode::new());
    assert!(!g.attach(b, a), "edges must point from lower to higher index");
    assert!(!g.attach(a, a), "a node cannot be its own child");
    assert!(!g.attach(a, 17), "the child must be in the arena");
    assert!(g.attach(a, c));
    assert!(!g.attach(b, c), "a node has at most one parent");
    assert_eq!(g.nodes[a].children, vec![c]);
    assert_eq!(g.nodes[b].children, Vec::<usize>::new());
}

#[test]
fn fresh_nodes_have_the_documented_defaults() {
    let n = SceneNode::new();
    assert_eq!(n.vao_id, 0);
    assert_eq!(n.index_count, -1);
    assert_eq!((n.position.x, n.position.y, n.position.z), (0, 0, 0));
    assert_eq!((n.rotation.x, n.rotation.y, n.rotation.z), (0, 0, 0));
    assert_eq!((n.scale.x, n.scale.y, n.scale.z), (FX_ONE, FX_ONE, FX_ONE));
    assert_eq!(n.current_transformation_matrix, Mat4::identity());
    assert!(n.children.is_empty());
    let d = SceneNode::from_vao(7, 42, vec(1.0, 2.0, 3.0));
    assert_eq!(d.vao_id, 7);
    assert_eq!(d.index_count, 42);
    assert_eq!(d.reference_point, vec(1.0, 2.0, 3.0));
}

#[test]
fn world_transforms_are_the_product_of_ancestor_locals() {
    // A three-deep chain: each node's stored matrix must equal the local
    // transforms multiplied in root-to-node order.
    let mut g = SceneGraph::new();
    let root = g.add_node(SceneNode::new());
    let mid = g.add_node(SceneNode::from_vao(1, 30, vec(0.5, 0.0, -0.25)));
    let leaf = g.add_node(SceneNode::from_vao(2, 60, vec(-1.0, 0.75, 2.0)));
    assert!(g.attach(root, mid));
    assert!(g.attach(mid, leaf));
    g.set_position(root, vec(4.0, 0.0, -2.0));
    g.set_position(mid, vec(0.0, 1.5, 0.0));
    g.set_rotation(mid, vec(0.0, 0.9, 0.0));
    g.set_position(leaf, vec(0.25, 0.25, 0.25));
    g.set_rotation(leaf, vec(1.2, 0.0, -0.4));

    update_node_transformations(&mut g, root, &Mat4::identity());

    let l0 = local_by_hand(g.nodes[root].position, g.nodes[root].rotation, g.nodes[root].reference_point);
    let l1 = local_by_hand(g.nodes[mid].position, g.nodes[mid].rotation, g.nodes[mid].reference_point);
    let l2 = local_by_hand(g.nodes[leaf].position, g.nodes[leaf].rotation, g.nodes[leaf].reference_point);
    let e0 = Mat4::identity().multiply(&l0);
    let e1 = e0.multiply(&l1);
    let e2 = e1.multiply(&l2);
    assert_eq!(g.nodes[root].current_transformation_matrix, e0);
    assert_eq!(g.nodes[mid].current_transformation_matrix, e1);
    assert_eq!(g.nodes[leaf].current_transformation_matrix, e2);
}

#[test]
fn pivoted_rotation_decomposes_into_translate_rotate_translate() {
    // Single-axis quarter and half turns plus a combined case: the stored
    // matrix must be bit-identical to translate(p) * R * translate(-p).
    let p = vec(0.35, 2.3, -1.0);
    let half_pi = std::f64::consts::FRAC_PI_2;
    let pi = std::f64::consts::PI;
    let cases = [
        vec(0.0, 0.0, 0.0),
        vec(half_pi, 0.0, 0.0),
        vec(pi, 0.0, 0.0),
        vec(0.0, half_pi, 0.0),
        vec(0.0, pi, 0.0),
        vec(0.0, 0.0, half_pi),
        vec(0.0, 0.0, pi),
        vec(half_pi, pi, half_pi),
    ];
    for rot in cases {
        let mut g = SceneGraph::new();
        let n = g.add_node(SceneNode::from_vao(1, 9, p));
        g.set_rotation(n, rot);
        update_node_transformations(&mut g, n, &Mat4::identity());
        let expected = local_by_hand(vec(0.0, 0.0, 0.0), rot, p);
        assert_eq!(g.nodes[n].current_transformation_matrix, expected);
    }
    // The two carrying translations cancel exactly.
    assert_eq!(
        Mat4::translation(&p).multiply(&Mat4::translation(&p.negated())),
        Mat4::identity()
    );
}

#[test]
fn group_nodes_draw_nothing_but_children_are_still_drawn() {
    let mut g = SceneGraph::new();
    let root = g.add_node(SceneNode::new());
    let left = g.add_node(SceneNode::from_vao(1, 100, vec(0.0, 0.0, 0.0)));
    let right = g.add_node(SceneNode::from_vao(2, 200, vec(0.0, 0.0, 0.0)));
    assert!(g.attach(root, left));
    assert!(g.attach(root, right));
    g.set_position(left, vec(1.0, 0.0, 0.0));
    g.set_position(right, vec(0.0, 0.0, 2.0));
    update_node_transformations(&mut g, root, &Mat4::identity());

    let vp = Mat4::identity();
    let cam = vec(0.0, 1.0, 5.0);
    let light = vec(3000.0, 1000.0, 0.0);
    let cmds = draw_scene(&g, root, &vp, &cam, &light);

    assert_eq!(cmds.len(), 2, "the group node itself must not draw");
    assert_eq!(cmds[0].vao_id, 1);
    assert_eq!(cmds[1].vao_id, 2);
    assert_eq!(cmds[0].index_count, 100);
    assert_eq!(cmds[1].index_count, 200);
    // Each child draws with its own root-relative transform ...
    assert_eq!(cmds[0].scene_transform, g.nodes[left].current_transformation_matrix);
    assert_eq!(cmds[1].scene_transform, g.nodes[right].current_transformation_matrix);
    assert_eq!(cmds[0].scene_transform.m03, to_fx(1.0));
    assert_eq!(cmds[1].scene_transform.m23, to_fx(2.0));
    // ... and with the shared per-frame uniforms.
    for c in &cmds {
        assert_eq!(c.view_projection, vp);
        assert_eq!(c.camera_position, cam);
        assert_eq!(c.light_source, light);
        assert!(c.index_count > 1);
    }
}

#[test]
fn sentinel_index_counts_mark_nodes_non_drawable() {
    let mut g = SceneGraph::new();
    let root = g.add_node(SceneNode::new());
    let one = g.add_node(SceneNode::from_vao(1, 1, vec(0.0, 0.0, 0.0)));
    let zero = g.add_node(SceneNode::from_vao(2, 0, vec(0.0, 0.0, 0.0)));
    let neg = g.add_node(SceneNode::from_vao(3, -5, vec(0.0, 0.0, 0.0)));
    let yes = g.add_node(SceneNode::from_vao(4, 2, vec(0.0, 0.0, 0.0)));
    assert!(g.attach(root, one));
    assert!(g.attach(root, zero));
    assert!(g.attach(root, neg));
    assert!(g.attach(root, yes));
    update_node_transformations(&mut g, root, &Mat4::identity());
    let cmds = draw_scene(&g, root, &Mat4::identity(), &vec(0.0, 0.0, 0.0), &vec(0.0, 0.0, 0.0));
    assert_eq!(cmds.len(), 1);
    assert_eq!(cmds[0].vao_id, 4);
}

#[test]
fn translating_the_body_translates_every_descendant() {
    let (mut g, root, _lunar, heli) = helicopter_scene();
    g.set_position(heli.body, vec(0.0, 10.0, 0.0));
    g.set_rotation(heli.main_rotor, vec(0.0, 1.1, 0.0));
    g.set_rotation(heli.tail_rotor, vec(2.2, 0.0, 0.0));
    update_node_transformations(&mut g, root, &Mat4::identity());
    let before: Vec<Mat4> =
        g.nodes.iter().map(|n| n.current_transformation_matrix).collect();

    let d = vec(5.0, -4.0, 0.5);
    g.set_position(heli.body, g.nodes[heli.body].position.plus(&d));
    update_node_transformations(&mut g, root, &Mat4::identity());

    for id in [heli.body, heli.main_rotor, heli.tail_rotor, heli.door] {
        let old = before[id];
        let new = g.nodes[id].current_transformation_matrix;
        // World positions shift by exactly d, whatever the rotations.
        assert_eq!(new.m03, old.m03 + d.x);
        assert_eq!(new.m13, old.m13 + d.y);
        assert_eq!(new.m23, old.m23 + d.z);
        // The rotation part is untouched.
        assert_eq!(
            (new.m00, new.m01, new.m02, new.m10, new.m11, new.m12, new.m20, new.m21, new.m22),
            (old.m00, old.m01, old.m02, old.m10, old.m11, old.m12, old.m20, old.m21, old.m22)
        );
    }
    // Nodes outside the body's subtree are untouched.
    assert_eq!(g.nodes[root].current_transformation_matrix, before[root]);
    assert_eq!(g.nodes[_lunar].current_transformation_matrix, before[_lunar]);
}

#[test]
fn propagation_twice_gives_bit_identical_matrices() {
    let (mut g, root, _lunar, heli) = helicopter_scene();
    g.set_position(heli.body, vec(0.0, 10.0, 0.0));
    g.set_rotation(heli.main_rotor, vec(0.0, 0.785398, 0.0));
    g.set_rotation(heli.tail_rotor, vec(1.7, 0.0, 0.0));
    g.set_rotation(heli.door, vec(0.0, 0.0, 0.3));
    update_node_transformations(&mut g, root, &Mat4::identity());
    let first: Vec<Mat4> =
        g.nodes.iter().map(|n| n.current_transformation_matrix).collect();
    update_node_transformations(&mut g, root, &Mat4::identity());
    for (i, n) in g.nodes.iter().enumerate() {
        assert_eq!(n.current_transformation_matrix, first[i]);
    }
}

#[test]
fn scale_is_stored_but_not_composed() {
    let mut a = SceneGraph::new();
    let na = a.add_node(SceneNode::from_vao(1, 9, vec(0.1, 0.2, 0.3)));
    a.set_position(na, vec(1.0, 2.0, 3.0));
    a.set_rotation(na, vec(0.4, 0.5, 0.6));
    let mut b = SceneGraph::new();
    let nb = b.add_node(SceneNode::from_vao(1, 9, vec(0.1, 0.2, 0.3)));
    b.set_position(nb, vec(1.0, 2.0, 3.0));
    b.set_rotation(nb, vec(0.4, 0.5, 0.6));
    b.nodes[nb].scale = vec(2.0, 3.0, 4.0);
    update_node_transformations(&mut a, na, &Mat4::identity());
    update_node_transformations(&mut b, nb, &Mat4::identity());
    assert_eq!(b.nodes[nb].scale, vec(2.0, 3.0, 4.0));
    assert_eq!(
        a.nodes[na].current_transformation_matrix,
        b.nodes[nb].current_transformation_matrix
    );
}

#[test]
fn helicopter_rotor_spins_about_its_shaft() {
    // Body at (0, 10, 0); the main rotor rotates a quarter of a half turn
    // about y around its shaft at (0.35, 2.3, 0). Expected world
    // transform: body translation times the shaft-pivoted rotation.
    let (mut g, root, _lunar, heli) = helicopter_scene();
    g.set_position(heli.body, vec(0.0, 10.0, 0.0));
    let angle = to_fx(std::f64::consts::FRAC_PI_4);
    g.set_rotation(heli.main_rotor, Vec3::new(0, angle, 0));
    update_node_transformations(&mut g, root, &Mat4::identity());

    let w = g.nodes[heli.main_rotor].current_transformation_matrix;
    let (s, c) = (fx_sin(angle), fx_cos(angle));

    // The rotation block is exactly the plain y rotation.
    assert_eq!((w.m00, w.m01, w.m02), (c, 0, s));
    assert_eq!((w.m10, w.m11, w.m12), (0, FX_ONE, 0));
    assert_eq!((w.m20, w.m21, w.m22), (-s, 0, c));
    assert_eq!((w.m30, w.m31, w.m32, w.m33), (0, 0, 0, FX_ONE));

    // The shaft height passes through the pivot unchanged, so the y
    // position is exactly the body height.
    assert_eq!(w.m13, to_fx(10.0));

    // x and z carry the pivot displacement p - R*p on top of the body
    // position: hand-computed against real arithmetic.
    let (px, pz) = (0.35f64, 0.0f64);
    let cr = std::f64::consts::FRAC_PI_4.cos();
    let sr = std::f64::consts::FRAC_PI_4.sin();
    let ex = px - (cr * px + sr * pz);
    let ez = pz - (-sr * px + cr * pz);
    assert!((to_f64(w.m03) - ex).abs() < 0.001, "x offset {} vs {}", to_f64(w.m03), ex);
    assert!((to_f64(w.m23) - ez).abs() < 0.001, "z offset {} vs {}", to_f64(w.m23), ez);

    // Cross-check the whole matrix against the hand-built product
    // body-translation * shaft-pivoted rotation.
    let pivot = Mat4::translation(&vec(0.35, 2.3, 0.0))
        .multiply(&Mat4::rotation_x(0).multiply(&Mat4::rotation_y(angle)).multiply(&Mat4::rotation_z(0)))
        .multiply(&Mat4::translation(&vec(0.35, 2.3, 0.0).negated()));
    let expected = Mat4::translation(&vec(0.0, 10.0, 0.0)).multiply(&pivot);
    assert_eq!(w, expected);
}

#[test]
fn node_setters_touch_only_their_field() {
    let mut n = SceneNode::from_vao(9, 33, vec(1.0, 1.0, 1.0));
    n.set_position(vec(2.0, 0.0, -2.0));
    n.set_rotation(vec(0.0, 0.5, 0.0));
    assert_eq!(n.position, vec(2.0, 0.0, -2.0));
    assert_eq!(n.rotation, vec(0.0, 0.5, 0.0));
    assert_eq!(n.reference_point, vec(1.0, 1.0, 1.0));
    assert_eq!(n.vao_id, 9);
    assert_eq!(n.index_count, 33);
    n.add_child(4);
    n.add_child(7);
    assert_eq!(n.children, vec![4, 7]);
    assert_eq!(n.position, vec(2.0, 0.0, -2.0));
}

#[test]
fn propagation_folds_onto_the_accumulated_matrix() {
    // Entering the pass with a translation instead of the identity must
    // fold that matrix onto every world transform from the left.
    let mut g = SceneGraph::new();
    let root = g.add_node(SceneNode::from_vao(1, 5, vec(0.0, 0.0, 0.0)));
    let child = g.add_node(SceneNode::from_vao(2, 5, vec(0.0, 0.0, 0.0)));
    assert!(g.attach(root, child));
    g.set_position(root, vec(1.0, 0.0, 0.0));
    g.set_position(child, vec(0.0, 0.0, 4.0));
    let so_far = Mat4::translation(&vec(0.0, -3.0, 0.0));
    update_node_transformations(&mut g, root, &so_far);
    let l0 = local_by_hand(g.nodes[root].position, g.nodes[root].rotation, g.nodes[root].reference_point);
    let l1 = local_by_hand(g.nodes[child].position, g.nodes[child].rotation, g.nodes[child].reference_point);
    let e0 = so_far.multiply(&l0);
    assert_eq!(g.nodes[root].current_transformation_matrix, e0);
    assert_eq!(g.nodes[child].current_transformation_matrix, e0.multiply(&l1));
    assert_eq!(g.nodes[child].current_transformation_matrix.m03, to_fx(1.0));
    assert_eq!(g.nodes[child].current_transformation_matrix.m13, to_fx(-3.0));
    assert_eq!(g.nodes[child].current_transformation_matrix.m23, to_fx(4.0));
}

#[test]
fn propagating_a_subtree_leaves_the_rest_untouched() {
    let (mut g, root, lunar, heli) = helicopter_scene();
    update_node_transformations(&mut g, root, &Mat4::identity());
    let before: Vec<Mat4> =
        g.nodes.iter().map(|n| n.current_transformation_matrix).collect();
    g.set_position(heli.body, vec(7.0, 0.0, 0.0));
    update_node_transformations(&mut g, heli.body, &Mat4::identity());
    assert_eq!(g.nodes[root].current_transformation_matrix, before[root]);
    assert_eq!(g.nodes[lunar].current_transformation_matrix, before[lunar]);
    assert_eq!(g.nodes[heli.body].current_transformation_matrix.m03, to_fx(7.0));
}

#[test]
fn draw_order_is_depth_first_pre_order() {
    let (mut g, root, lunar, heli) = helicopter_scene();
    update_node_transformations(&mut g, root, &Mat4::identity());
    let cmds = draw_scene(&g, root, &Mat4::identity(), &vec(0.0, 0.0, 0.0), &vec(0.0, 0.0, 0.0));
    let vaos: Vec<u32> = cmds.iter().map(|c| c.vao_id).collect();
    assert_eq!(vaos, vec![1, 2, 3, 4, 5]);
    assert_eq!(cmds[0].index_count, 1234);
    assert_eq!(cmds[1].scene_transform, g.nodes[heli.body].current_transformation_matrix);
    assert_eq!(cmds[0].scene_transform, g.nodes[lunar].current_transformation_matrix);
}
