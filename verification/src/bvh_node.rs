//! The bounding-volume hierarchy: a binary tree of primitives whose cached
//! boxes let a query reject whole subtrees with one slab test.

use vstd::prelude::*;

use crate::aabb::comp;
use crate::aabb::lemma_box_union_covers;
use crate::aabb::lemma_inside_box_monotone;
use crate::aabb::lemma_slab_hit_of_inside;
use crate::aabb::AABB;
use crate::fixed::Fixed;
use crate::hitable::atom_has_cand;
use crate::hitable::atoms;
use crate::hitable::atoms_of_seq;
use crate::hitable::hbox;
use crate::hitable::hit_post;
use crate::hitable::in_window;
use crate::hitable::lemma_atoms_are_atoms;
use crate::hitable::lemma_atoms_of_seq_concat;
use crate::hitable::lemma_atoms_of_seq_same_set;
use crate::hitable::lemma_atoms_within;
use crate::hitable::lemma_cands_inside;
use crate::hitable::lemma_hit_post_concat;
use crate::hitable::covers_bounded;
use crate::hitable::om;
use crate::hitable::tight;
use crate::hitable::wf;
use crate::hitable::HitRecord;
use crate::hitable::Hitable;
use crate::hitable_list::HitableList;
use crate::ray::Ray;
use crate::rng::Rng;
use vstd::multiset::Multiset;

verus! {

/// A scene that cannot produce an acceleration structure.
#[derive(Clone, Copy, Debug, PartialEq, Eq, Structural)]
pub enum BuildError {
    /// Build over an empty collection: no bounding box exists, which is
    /// fatal, as no partial tree would be usable.
    EmptyScene,
}

/// The sort key of a primitive on one axis: the minimum corner of its
/// padded box on that axis.
pub open spec fn axis_key_v(h: Hitable, axis: int) -> int {
    comp(hbox(h).min, axis)
}

/// Keys ascend throughout a collection.
pub open spec fn sorted_by_axis(s: Seq<Hitable>, axis: int) -> bool {
    forall|i: int, j: int|
        0 <= i < j < s.len() ==> axis_key_v(#[trigger] s[i], axis) <= axis_key_v(
            #[trigger] s[j],
            axis,
        )
}

/// The sort key of a primitive on one axis.
fn axis_key(h: &Hitable, axis: usize) -> (k: crate::fixed::Fixed)
    requires
        axis < 3,
    ensures
        k.val() == axis_key_v(*h, axis as int),
{
    let zero = Fixed::zero();
    h.bounding_box(zero, zero).min().index(axis)
}

/// An internal node: two owned children and the cached box containing both
/// children's boxes.
#[derive(Debug)]
pub struct BvhNode {
    pub left: Box<Hitable>,
    pub right: Box<Hitable>,
    pub bb: AABB,
}

impl BvhNode {
    /// Build the hierarchy over a collection of primitives: sort by a
    /// randomly chosen axis, split at the midpoint, recurse on each half.
    /// The randomized split axis guards against degenerate trees on
    /// structured scenes.  An empty collection is fatal.  Whatever the
    /// random choices, the tree holds exactly the leaves of the input, so
    /// querying it returns the same nearest hit as the exhaustive scan.
    pub fn new(l: HitableList, time0: Fixed, time1: Fixed, rng: &mut Rng) -> (res: Result<
        BvhNode,
        BuildError,
    >)
        requires
            forall|k: int|
                0 <= k < l.objs@.len() ==> wf(#[trigger] l.objs@[k]) && tight(l.objs@[k]),
        ensures
            match res {
                Ok(node) => {
                    &&& l.objs@.len() > 0
                    &&& wf(Hitable::Node(node))
                    &&& tight(Hitable::Node(node))
                    &&& node.bb.m() == crate::aabb::box_union(
                        hbox(*node.left),
                        hbox(*node.right),
                    )
                    &&& forall|x: Hitable|
                        #[trigger] atoms(Hitable::Node(node)).contains(x) <==> atoms_of_seq(
                            l.objs@,
                        ).contains(x)
                    &&& covers_bounded(
                        atoms(Hitable::Node(node)).to_multiset(),
                        atoms_of_seq(l.objs@).to_multiset(),
                    )
                    &&& l.objs@.len() == 1 ==> *node.left == l.objs@[0] && *node.right
                        == l.objs@[0]
                    &&& l.objs@.len() == 2 ==> ((*node.left == l.objs@[0] && *node.right
                        == l.objs@[1]) || (*node.left == l.objs@[1] && *node.right
                        == l.objs@[0]))
                    &&& l.objs@.len() > 2 ==> *node.left is Node && *node.right is Node
                },
                Err(e) => l.objs@.len() == 0 && e == BuildError::EmptyScene,
            },
    {
        if l.objs.len() == 0 {
            return Err(BuildError::EmptyScene);
        }
        let objs = l.objs;
        Ok(BvhNode::build(objs, time0, time1, rng))
    }

    /// One level of the recursive build.
    #[verifier::rlimit(60)]
    fn build(objs: Vec<Hitable>, time0: Fixed, time1: Fixed, rng: &mut Rng) -> (node: BvhNode)
        requires
            objs@.len() >= 1,
            forall|k: int| 0 <= k < objs@.len() ==> wf(#[trigger] objs@[k]) && tight(objs@[k]),
        ensures
            wf(Hitable::Node(node)),
            tight(Hitable::Node(node)),
            node.bb.m() == crate::aabb::box_union(hbox(*node.left), hbox(*node.right)),
            forall|x: Hitable|
                #[trigger] atoms(Hitable::Node(node)).contains(x) <==> atoms_of_seq(
                    objs@,
                ).contains(x),
            covers_bounded(
                atoms(Hitable::Node(node)).to_multiset(),
                atoms_of_seq(objs@).to_multiset(),
            ),
            objs@.len() == 1 ==> *node.left == objs@[0] && *node.right == objs@[0],
            objs@.len() == 2 ==> ((*node.left == objs@[0] && *node.right == objs@[1]) || (
            *node.left == objs@[1] && *node.right == objs@[0])),
            objs@.len() > 2 ==> *node.left is Node && *node.right is Node,
        decreases objs@.len(),
    {
        let ghost orig = objs@;
        let axis = rng.next_below(3) as usize;
        let mut objs = BvhNode::sort(objs, axis);
        let ghost sorted0 = objs@;
        proof {
            lemma_atoms_of_seq_same_set(sorted0, orig);
            crate::hitable::lemma_atoms_of_seq_multiset(sorted0, orig);
            crate::hitable::lemma_multiset_reorder_small(orig, sorted0);
            assert forall|k: int| 0 <= k < sorted0.len() implies wf(#[trigger] sorted0[k])
                && tight(sorted0[k]) by {
                broadcast use vstd::seq_lib::group_to_multiset_ensures;

                assert(sorted0.contains(sorted0[k]));
                assert(sorted0.to_multiset().count(sorted0[k]) > 0);
                assert(orig.to_multiset().count(sorted0[k]) > 0);
                assert(orig.contains(sorted0[k]));
                let j = choose|j: int| 0 <= j < orig.len() && orig[j] == sorted0[k];
            }
        }
        let n = objs.len();
        if n == 1 {
            let x = objs.pop().unwrap();
            let twin = x.clone();
            let bbx = x.bounding_box(time0, time1);
            let bb = AABB::surrounding_box(&bbx, &bbx);
            let node = BvhNode { left: Box::new(twin), right: Box::new(x), bb };
            proof {
                lemma_box_union_covers(hbox(x), hbox(x));
                assert(sorted0 =~= seq![x]);
                assert(seq![x][0] == x);
                assert(seq![x].drop_first() =~= Seq::<Hitable>::empty());
                assert(atoms_of_seq(sorted0) == atoms(x) + atoms_of_seq(seq![x].drop_first()));
                assert(atoms_of_seq(seq![x].drop_first()).len() == 0);
                assert(atoms(Hitable::Node(node)) == atoms(x) + atoms(x));
                crate::hitable::lemma_atoms_of_seq_empty();
                vstd::seq_lib::lemma_multiset_commutative(atoms(x), atoms(x));
                vstd::seq_lib::lemma_multiset_commutative(
                    atoms(x),
                    atoms_of_seq(seq![x].drop_first()),
                );
                assert(atoms_of_seq(sorted0).to_multiset() =~= atoms(x).to_multiset()) by {
                    broadcast use vstd::multiset::group_multiset_axioms;

                }
                crate::hitable::lemma_covers_bounded_dup(atoms(x).to_multiset());
                assert forall|e: Hitable| #[trigger]
                    atoms(Hitable::Node(node)).contains(e) <==> atoms_of_seq(orig).contains(
                        e,
                    ) by {
                    vstd::seq_lib::lemma_seq_concat_contains_all_elements(atoms(x), atoms(x), e);
                    vstd::seq_lib::lemma_seq_concat_contains_all_elements(
                        atoms(x),
                        atoms_of_seq(seq![x].drop_first()),
                        e,
                    );
                    assert(atoms_of_seq(sorted0).contains(e) <==> atoms_of_seq(orig).contains(e));
                }
            }
            node
        } else if n == 2 {
            let right = objs.pop().unwrap();
            let left = objs.pop().unwrap();
            let bl = left.bounding_box(time0, time1);
            let br = right.bounding_box(time0, time1);
            let bb = AABB::surrounding_box(&bl, &br);
            let node = BvhNode { left: Box::new(left), right: Box::new(right), bb };
            proof {
                lemma_box_union_covers(hbox(left), hbox(right));
                assert(sorted0 =~= seq![left, right]);
                assert(seq![left, right][0] == left);
                assert(seq![left, right].drop_first() =~= seq![right]);
                assert(seq![right][0] == right);
                assert(seq![right].drop_first() =~= Seq::<Hitable>::empty());
                assert(atoms_of_seq(seq![right]) == atoms(right) + atoms_of_seq(
                    seq![right].drop_first(),
                ));
                assert(atoms_of_seq(seq![right].drop_first()).len() == 0);
                assert(atoms_of_seq(sorted0) == atoms(left) + atoms_of_seq(sorted0.drop_first()));
                assert(atoms(Hitable::Node(node)) == atoms(left) + atoms(right));
                crate::hitable::lemma_atoms_of_seq_empty();
                vstd::seq_lib::lemma_multiset_commutative(atoms(left), atoms(right));
                vstd::seq_lib::lemma_multiset_commutative(
                    atoms(right),
                    atoms_of_seq(seq![right].drop_first()),
                );
                vstd::seq_lib::lemma_multiset_commutative(atoms(left), atoms_of_seq(seq![right]));
                assert(atoms_of_seq(sorted0).to_multiset() =~= atoms(
                    Hitable::Node(node),
                ).to_multiset()) by {
                    broadcast use vstd::multiset::group_multiset_axioms;

                }
                crate::hitable::lemma_covers_bounded_refl(
                    atoms(Hitable::Node(node)).to_multiset(),
                );
                assert forall|e: Hitable| #[trigger]
                    atoms(Hitable::Node(node)).contains(e) <==> atoms_of_seq(orig).contains(
                        e,
                    ) by {
                    vstd::seq_lib::lemma_seq_concat_contains_all_elements(
                        atoms(left),
                        atoms(right),
                        e,
                    );
                    vstd::seq_lib::lemma_seq_concat_contains_all_elements(
                        atoms(left),
                        atoms_of_seq(seq![right]),
                        e,
                    );
                    vstd::seq_lib::lemma_seq_concat_contains_all_elements(
                        atoms(right),
                        atoms_of_seq(seq![right].drop_first()),
                        e,
                    );
                    assert(atoms_of_seq(sorted0).contains(e) <==> atoms_of_seq(orig).contains(e));
                }
            }
            node
        } else {
            let half = n / 2;
            let right_vec = objs.split_off(half);
            let ghost ls = objs@;
            let ghost rs = right_vec@;
            proof {
                assert(ls + rs =~= sorted0);
            }
            let left = BvhNode::build(objs, time0, time1, rng);
            let right = BvhNode::build(right_vec, time0, time1, rng);
            let bb = AABB::surrounding_box(&left.bb, &right.bb);
            let node = BvhNode {
                left: Box::new(Hitable::Node(left)),
                right: Box::new(Hitable::Node(right)),
                bb,
            };
            proof {
                lemma_box_union_covers(hbox(*node.left), hbox(*node.right));
                lemma_atoms_of_seq_concat(ls, rs);
                assert(atoms(Hitable::Node(node)) == atoms(Hitable::Node(left)) + atoms(
                    Hitable::Node(right),
                ));
                assert(atoms_of_seq(sorted0) == atoms_of_seq(ls) + atoms_of_seq(rs));
                vstd::seq_lib::lemma_multiset_commutative(
                    atoms(Hitable::Node(left)),
                    atoms(Hitable::Node(right)),
                );
                vstd::seq_lib::lemma_multiset_commutative(atoms_of_seq(ls), atoms_of_seq(rs));
                crate::hitable::lemma_covers_bounded_add(
                    atoms(Hitable::Node(left)).to_multiset(),
                    atoms_of_seq(ls).to_multiset(),
                    atoms(Hitable::Node(right)).to_multiset(),
                    atoms_of_seq(rs).to_multiset(),
                );
                assert forall|e: Hitable| #[trigger]
                    atoms(Hitable::Node(node)).contains(e) <==> atoms_of_seq(orig).contains(
                        e,
                    ) by {
                    vstd::seq_lib::lemma_seq_concat_contains_all_elements(
                        atoms(Hitable::Node(left)),
                        atoms(Hitable::Node(right)),
                        e,
                    );
                    vstd::seq_lib::lemma_seq_concat_contains_all_elements(
                        atoms_of_seq(ls),
                        atoms_of_seq(rs),
                        e,
                    );
                    assert(atoms(Hitable::Node(left)).contains(e) <==> atoms_of_seq(ls).contains(
                        e,
                    ));
                    assert(atoms(Hitable::Node(right)).contains(e) <==> atoms_of_seq(rs).contains(
                        e,
                    ));
                    assert(atoms_of_seq(sorted0).contains(e) <==> atoms_of_seq(orig).contains(e));
                }
            }
            node
        }
    }

    /// Order a collection of primitives by their box minimum on one axis,
    /// smallest first, keeping exactly the same primitives: repeatedly move
    /// the least remaining key to the output.
    fn sort(objs: Vec<Hitable>, axis: usize) -> (out: Vec<Hitable>)
        requires
            axis < 3,
        ensures
            out@.to_multiset() == objs@.to_multiset(),
            out@.len() == objs@.len(),
            sorted_by_axis(out@, axis as int),
    {
        broadcast use vstd::seq_lib::group_to_multiset_ensures;

        let mut rest = objs;
        let mut out: Vec<Hitable> = Vec::new();
        let ghost orig = rest@;
        proof {
            assert(out@.to_multiset().add(rest@.to_multiset()) =~= orig.to_multiset());
        }
        while rest.len() > 0
            invariant
                axis < 3,
                out@.to_multiset().add(rest@.to_multiset()) == orig.to_multiset(),
                out@.len() + rest@.len() == orig.len(),
                sorted_by_axis(out@, axis as int),
                forall|i: int, k: int|
                    0 <= i < out@.len() && 0 <= k < rest@.len() ==> axis_key_v(
                        #[trigger] out@[i],
                        axis as int,
                    ) <= axis_key_v(#[trigger] rest@[k], axis as int),
            decreases rest@.len(),
        {
            let mut m: usize = 0;
            let mut best = axis_key(&rest[0], axis);
            let mut k: usize = 1;
            while k < rest.len()
                invariant
                    axis < 3,
                    m < rest@.len(),
                    1 <= k <= rest@.len(),
                    best.val() == axis_key_v(rest@[m as int], axis as int),
                    forall|j: int|
                        0 <= j < k ==> best.val() <= axis_key_v(#[trigger] rest@[j], axis as int),
                decreases rest@.len() - k,
            {
                let cand = axis_key(&rest[k], axis);
                if cand.lt(best) {
                    m = k;
                    best = cand;
                }
                k = k + 1;
            }
            let ghost rest0 = rest@;
            let ghost out0 = out@;
            let x = rest.remove(m);
            out.push(x);
            proof {
                broadcast use vstd::multiset::group_multiset_axioms;
                broadcast use vstd::seq_lib::group_to_multiset_ensures;

                assert(x == rest0[m as int]);
                assert(rest0.contains(x));
                assert(rest0.to_multiset().count(x) > 0);
                assert(out@ == out0.push(x));
                assert(out0.push(x).to_multiset() =~= out0.to_multiset().insert(x));
                assert(rest@ == rest0.remove(m as int));
                assert(rest0.remove(m as int).to_multiset() == rest0.to_multiset().remove(x));
                assert(out@.to_multiset().add(rest@.to_multiset()) =~= out0.to_multiset().add(
                    rest0.to_multiset(),
                ));
                assert forall|i: int, kk: int|
                    0 <= i < out@.len() && 0 <= kk < rest@.len() implies axis_key_v(
                    #[trigger] out@[i],
                    axis as int,
                ) <= axis_key_v(#[trigger] rest@[kk], axis as int) by {
                    let rk = if kk < m { rest0[kk] } else { rest0[kk + 1] };
                    assert(rest@[kk] == rk);
                    if i < out0.len() {
                        assert(out@[i] == out0[i]);
                    } else {
                        assert(out@[i] == x);
                    }
                }
                assert forall|i: int, j: int| 0 <= i < j < out@.len() implies axis_key_v(
                    #[trigger] out@[i],
                    axis as int,
                ) <= axis_key_v(#[trigger] out@[j], axis as int) by {
                    if j < out0.len() {
                        assert(out@[i] == out0[i] && out@[j] == out0[j]);
                    } else {
                        assert(out@[j] == x);
                        assert(out@[i] == out0[i]);
                    }
                }
            }
        }
        proof {
            broadcast use vstd::multiset::group_multiset_axioms;
            broadcast use vstd::seq_lib::group_to_multiset_ensures;

            assert(rest@.to_multiset() =~= Multiset::<Hitable>::empty());
            assert(out@.to_multiset() =~= orig.to_multiset());
        }
        out
    }

    /// The nearest intersection among the leaves beneath this node strictly
    /// inside the open window, if any.  The cached box guards the descent:
    /// when the slab test fails, no leaf beneath can hold an in-window
    /// candidate, because every candidate lies strictly inside its leaf's
    /// box, which the tree keeps inside this node's box.
    pub fn hit(&self, ray: &Ray, t_min: Fixed, t_max: Fixed) -> (res: Option<HitRecord>)
        requires
            wf(Hitable::Node(*self)),
        ensures
            hit_post(
                atoms(Hitable::Node(*self)),
                ray.m(),
                t_min.val(),
                t_max.val(),
                om(res),
            ),
            om(res) == crate::hitable::hit_spec(
                Hitable::Node(*self),
                ray.m(),
                t_min.val(),
                t_max.val(),
            ),
        decreases *self,
    {
        let ghost h = Hitable::Node(*self);
        let ghost rm = ray.m();
        let ghost tmin = t_min.val();
        let ghost tmax = t_max.val();
        if self.bb.hit(ray, t_min, t_max) {
            let left_hit = self.left.hit(ray, t_min, t_max);
            let right_hit = self.right.hit(ray, t_min, t_max);
            proof {
                lemma_hit_post_concat(
                    atoms(*self.left),
                    atoms(*self.right),
                    rm,
                    tmin,
                    tmax,
                    om(left_hit),
                    om(right_hit),
                );
                assert(atoms(h) == atoms(*self.left) + atoms(*self.right));
            }
            if left_hit.is_some() && right_hit.is_some() {
                let left_rec = left_hit.unwrap();
                let right_rec = right_hit.unwrap();
                if left_rec.t.lt(right_rec.t) {
                    Some(left_rec)
                } else {
                    Some(right_rec)
                }
            } else if left_hit.is_some() {
                left_hit
            } else if right_hit.is_some() {
                right_hit
            } else {
                None
            }
        } else {
            proof {
                lemma_atoms_are_atoms(h);
                assert forall|i: int, t: int|
                    0 <= i < atoms(h).len() && #[trigger] atom_has_cand(
                        atoms(h)[i],
                        rm,
                        t,
                    ) implies !in_window(t, tmin, tmax) by {
                    if in_window(t, tmin, tmax) {
                        lemma_cands_inside(atoms(h)[i], rm, t);
                        lemma_atoms_within(h, i);
                        lemma_inside_box_monotone(
                            hbox(atoms(h)[i]),
                            hbox(h),
                            rm.orig,
                            rm.dir,
                            t,
                        );
                        lemma_slab_hit_of_inside(hbox(h), rm.orig, rm.dir, tmin, tmax, t);
                        assert(false);
                    }
                }
            }
            None
        }
    }
}

/// The acceleration structure never changes what a query returns: for any
/// collection of primitives, any ray and any window, the exhaustive scan of
/// the collection and a hierarchy holding the same primitives either both
/// miss, or both report the same hit parameter and the same hit point.
pub proof fn lemma_bvh_list_equivalence(
    objs: Seq<Hitable>,
    node: BvhNode,
    r: crate::ray::RayM,
    tmin: int,
    tmax: int,
    list_res: Option<crate::hitable::HitM>,
    bvh_res: Option<crate::hitable::HitM>,
)
    requires
        hit_post(atoms_of_seq(objs), r, tmin, tmax, list_res),
        hit_post(atoms(Hitable::Node(node)), r, tmin, tmax, bvh_res),
        forall|x: Hitable|
            #[trigger] atoms(Hitable::Node(node)).contains(x) <==> atoms_of_seq(objs).contains(x),
    ensures
        list_res is Some <==> bvh_res is Some,
        list_res matches Some(a) ==> bvh_res matches Some(b) && a.t == b.t && a.p == b.p,
{
    let s1 = atoms_of_seq(objs);
    let s2 = atoms(Hitable::Node(node));
    crate::hitable::lemma_atoms_of_seq_are_atoms(objs);
    assert forall|h: Hitable| #[trigger] s1.contains(h) implies s2.contains(h) by {
        assert(atoms(Hitable::Node(node)).contains(h) <==> atoms_of_seq(objs).contains(h));
    }
    assert forall|h: Hitable| #[trigger] s2.contains(h) implies s1.contains(h) by {
        assert(atoms(Hitable::Node(node)).contains(h) <==> atoms_of_seq(objs).contains(h));
    }
    crate::hitable::lemma_nearest_hit_agrees(s1, s2, r, tmin, tmax, list_res, bvh_res);
}

impl Clone for BvhNode {
    /// A deep copy of both subtrees, equal to the original.
    fn clone(&self) -> (r: Self)
        ensures
            r == *self,
        decreases *self,
    {
        BvhNode {
            left: Box::new((*self.left).clone()),
            right: Box::new((*self.right).clone()),
            bb: self.bb,
        }
    }
}

} // verus!
