//! An ordered collection of primitives, intersected exhaustively.

use vstd::prelude::*;

use crate::aabb::box_union;
use crate::aabb::BoxM;
use crate::aabb::AABB;
use crate::fixed::Fixed;
use crate::hitable::atoms;
use crate::hitable::atoms_of_seq;
use crate::hitable::hbox;
use crate::hitable::hit_post;
use crate::hitable::lemma_atoms_of_seq_push;
use crate::hitable::lemma_hit_post_extend;
use crate::hitable::om;
use crate::hitable::wf;
use crate::hitable::HitRecord;
use crate::hitable::Hitable;
use crate::ray::Ray;

verus! {

/// The fold of all the collection's boxes, left to right.
pub open spec fn list_box(s: Seq<Hitable>) -> BoxM
    decreases s.len(),
{
    if s.len() <= 1 {
        hbox(s[0])
    } else {
        box_union(list_box(s.drop_last()), hbox(s.last()))
    }
}

/// Exactly which record the scan holds after examining the members from
/// position `i` on, having started with `cur`.
pub open spec fn scan_from(
    s: Seq<Hitable>,
    r: crate::ray::RayM,
    tmin: int,
    tmax: int,
    i: int,
    cur: Option<crate::hitable::HitM>,
) -> Option<crate::hitable::HitM>
    decreases s.len() - i,
{
    if i < 0 || i >= s.len() {
        cur
    } else {
        let cw = match cur {
            Some(rec) => rec.t,
            None => tmax,
        };
        match crate::hitable::hit_spec(s[i], r, tmin, cw) {
            Some(x) => scan_from(s, r, tmin, tmax, i + 1, Some(x)),
            None => scan_from(s, r, tmin, tmax, i + 1, cur),
        }
    }
}

/// Exactly which record the whole scan returns.
pub open spec fn scan_spec(
    s: Seq<Hitable>,
    r: crate::ray::RayM,
    tmin: int,
    tmax: int,
) -> Option<crate::hitable::HitM> {
    scan_from(s, r, tmin, tmax, 0, None)
}

/// A list of primitives, scanned in order; the scan shrinks its window to
/// the best parameter found so far, so the result is the globally nearest
/// hit, not merely the first.
#[derive(Debug)]
pub struct HitableList {
    pub objs: Vec<Hitable>,
}

impl HitableList {
    /// An empty list.
    pub fn new() -> (r: HitableList)
        ensures
            r.objs@.len() == 0,
    {
        let objs: Vec<Hitable> = Vec::new();
        HitableList { objs }
    }

    /// Append a primitive.
    pub fn push(&mut self, obj: Hitable)
        ensures
            final(self).objs@ == old(self).objs@.push(obj),
    {
        self.objs.push(obj);
    }

    /// How many primitives the list holds directly.
    pub fn len(&self) -> (r: usize)
        ensures
            r == self.objs@.len(),
    {
        self.objs.len()
    }

    /// The nearest intersection over all primitives in the list, strictly
    /// inside the open window, if any: the scan keeps the closest hit by
    /// shrinking the window's upper end to the best parameter so far.
    pub fn intersect(&self, r: &Ray, t_min: Fixed, t_max: Fixed) -> (res: Option<HitRecord>)
        requires
            forall|k: int| 0 <= k < self.objs@.len() ==> wf(#[trigger] self.objs@[k]),
        ensures
            hit_post(atoms_of_seq(self.objs@), r.m(), t_min.val(), t_max.val(), om(res)),
            om(res) == scan_spec(self.objs@, r.m(), t_min.val(), t_max.val()),
    {
        let ghost rm = r.m();
        let ghost tmin = t_min.val();
        let ghost tmax = t_max.val();
        let mut temp_rec: Option<HitRecord> = None;
        let mut closest_so_far = t_max;
        let mut i: usize = 0;
        proof {
            assert(self.objs@.take(0) =~= Seq::<Hitable>::empty());
        }
        while i < self.objs.len()
            invariant
                i <= self.objs@.len(),
                forall|k: int| 0 <= k < self.objs@.len() ==> wf(#[trigger] self.objs@[k]),
                rm == r.m(),
                tmin == t_min.val(),
                tmax == t_max.val(),
                hit_post(atoms_of_seq(self.objs@.take(i as int)), rm, tmin, tmax, om(temp_rec)),
                scan_spec(self.objs@, rm, tmin, tmax) == scan_from(
                    self.objs@,
                    rm,
                    tmin,
                    tmax,
                    i as int,
                    om(temp_rec),
                ),
                closest_so_far.val() == match om(temp_rec) {
                    Some(rec) => rec.t,
                    None => tmax,
                },
            decreases self.objs@.len() - i,
        {
            let ghost cur0 = om(temp_rec);
            let ghost prefix = atoms_of_seq(self.objs@.take(i as int));
            let obj = &self.objs[i];
            let result = obj.hit(r, t_min, closest_so_far);
            match result {
                Some(hit) => {
                    closest_so_far = hit.t;
                    temp_rec = Some(hit);
                },
                None => (),
            }
            proof {
                lemma_hit_post_extend(
                    prefix,
                    atoms(self.objs@[i as int]),
                    rm,
                    tmin,
                    tmax,
                    cur0,
                    om(result),
                );
                assert(self.objs@.take(i as int + 1) =~= self.objs@.take(i as int).push(
                    self.objs@[i as int],
                ));
                lemma_atoms_of_seq_push(self.objs@.take(i as int), self.objs@[i as int]);
            }
            i = i + 1;
        }
        proof {
            assert(self.objs@.take(self.objs@.len() as int) =~= self.objs@);
        }
        temp_rec
    }

    /// The tightest padded box around every primitive in the list, folded
    /// across the whole collection; an empty list has no box, which build
    /// paths treat as fatal.
    pub fn bounding_box(&self, t0: Fixed, t1: Fixed) -> (res: Option<AABB>)
        ensures
            match res {
                None => self.objs@.len() == 0,
                Some(bb) => self.objs@.len() > 0 && bb.m() == list_box(self.objs@),
            },
    {
        if self.objs.len() == 0 {
            return None;
        }
        let mut bb = self.objs[0].bounding_box(t0, t1);
        let mut i: usize = 1;
        proof {
            assert(self.objs@.take(1)[0] == self.objs@[0]);
        }
        while i < self.objs.len()
            invariant
                1 <= i <= self.objs@.len(),
                bb.m() == list_box(self.objs@.take(i as int)),
            decreases self.objs@.len() - i,
        {
            let nb = self.objs[i].bounding_box(t0, t1);
            bb = AABB::surrounding_box(&bb, &nb);
            proof {
                let pre = self.objs@.take(i as int + 1);
                assert(pre.drop_last() =~= self.objs@.take(i as int));
                assert(pre.last() == self.objs@[i as int]);
            }
            i = i + 1;
        }
        proof {
            assert(self.objs@.take(self.objs@.len() as int) =~= self.objs@);
        }
        Some(bb)
    }
}

} // verus!
