use vstd::prelude::*;
use crate::aabb::AABB;
use crate::hittable::{HitRecord, Hittable};

verus! {

/// The upper end of the interval in which the next primitive is asked, after
/// the primitives before it have given `hits`: the `t` of the last hit among
/// them, and `t_max` if there is none.
pub open spec fn closest_after<D>(t_max: i64, hits: Seq<Option<HitRecord<D>>>) -> i64
    decreases hits.len(),
{
    if hits.len() == 0 {
        t_max
    } else {
        match hits.last() {
            Some(hit) => hit.t,
            None => closest_after(t_max, hits.drop_last()),
        }
    }
}

/// The last hit in a list of answers.
pub open spec fn last_hit<D>(hits: Seq<Option<HitRecord<D>>>) -> Option<HitRecord<D>>
    decreases hits.len(),
{
    if hits.len() == 0 {
        None
    } else {
        match hits.last() {
            Some(hit) => Some(hit),
            None => last_hit(hits.drop_last()),
        }
    }
}

/// Whether `hits` is a list of answers that the primitives in `objects` may
/// give when they are asked one after the other, each in the interval that
/// the hits before it have left.
pub open spec fn scan_of<H: Hittable>(
    objects: Seq<H>,
    ray: &H::Ray,
    t_min: i64,
    t_max: i64,
    hits: Seq<Option<HitRecord<H::Detail>>>,
) -> bool {
    &&& hits.len() == objects.len()
    &&& forall|i: int|
        0 <= i < objects.len() ==> objects[i].hit_outcome(
            ray,
            t_min,
            closest_after(t_max, hits.take(i)),
            #[trigger] hits[i],
        )
}

/// The box around all of `boxes`, surrounded one after the other.
pub open spec fn surround_all(boxes: Seq<AABB>) -> AABB
    decreases boxes.len(),
{
    if boxes.len() <= 1 {
        boxes[0]
    } else {
        surround_all(boxes.drop_last()).spec_surround(boxes.last())
    }
}

/// The boxes of the primitives in `objects`.
pub open spec fn boxes_of<H: Hittable>(objects: Seq<H>, time0: i64, time1: i64) -> Seq<AABB> {
    Seq::new(objects.len(), |i: int| objects[i].bounds(time0, time1).unwrap())
}

/// A list of primitives that is searched from front to back.
pub struct HittableList<H> {
    pub objects: Vec<H>,
}

impl<H> HittableList<H> {
    /// A list without primitives.
    pub fn new() -> (r: Self)
        ensures
            r.objects@.len() == 0,
    {
        Self { objects: Vec::new() }
    }

    /// Takes all primitives out of the list.
    pub fn clear(&mut self)
        ensures
            final(self).objects@.len() == 0,
    {
        self.objects.clear();
    }

    /// Puts a primitive at the end of the list.
    pub fn add(&mut self, object: H)
        ensures
            final(self).objects@ == old(self).objects@.push(object),
    {
        self.objects.push(object);
    }
}

impl<H: Hittable> Hittable for HittableList<H> {
    type Ray = H::Ray;

    type Detail = H::Detail;

    /// The last hit of a search from front to back.
    open spec fn hit_outcome(
        &self,
        ray: &Self::Ray,
        t_min: i64,
        t_max: i64,
        out: Option<HitRecord<Self::Detail>>,
    ) -> bool {
        exists|hits: Seq<Option<HitRecord<H::Detail>>>|
            scan_of(self.objects@, ray, t_min, t_max, hits) && out == last_hit(hits)
    }

    /// Asks every primitive in turn. After a hit, the primitives that follow
    /// are asked only for what is nearer, so the last hit is the one kept.
    fn hit(&self, ray: &Self::Ray, t_min: i64, t_max: i64) -> (out: Option<
        HitRecord<Self::Detail>,
    >) {
        let mut hit: Option<HitRecord<H::Detail>> = None;
        let mut closest = t_max;
        let ghost mut hits: Seq<Option<HitRecord<H::Detail>>> = Seq::empty();
        let mut i: usize = 0;
        while i < self.objects.len()
            invariant
                i <= self.objects@.len(),
                hits.len() == i,
                forall|k: int|
                    0 <= k < i ==> self.objects@[k].hit_outcome(
                        ray,
                        t_min,
                        closest_after(t_max, hits.take(k)),
                        #[trigger] hits[k],
                    ),
                closest == closest_after(t_max, hits),
                hit == last_hit(hits),
            decreases self.objects@.len() - i,
        {
            let result = self.objects[i].hit(ray, t_min, closest);
            proof {
                let longer = hits.push(result);
                assert(longer.drop_last() =~= hits);
                assert(longer.take(i as int) =~= hits);
                assert forall|k: int| 0 <= k < i + 1 implies self.objects@[k].hit_outcome(
                    ray,
                    t_min,
                    closest_after(t_max, longer.take(k)),
                    #[trigger] longer[k],
                ) by {
                    if k < i {
                        assert(longer.take(k) =~= hits.take(k));
                        assert(longer[k] == hits[k]);
                    }
                }
                hits = longer;
            }
            if let Some(record) = result {
                closest = record.t;
                hit = Some(record);
            }
            i += 1;
        }
        hit
    }

    /// The box around the boxes of all the primitives; none for a list that
    /// is empty or that holds a primitive without a box.
    open spec fn bounds(&self, time0: i64, time1: i64) -> Option<AABB> {
        if self.objects@.len() == 0 || !crate::bvh::all_bounded(self.objects@, time0, time1) {
            None
        } else {
            Some(surround_all(boxes_of(self.objects@, time0, time1)))
        }
    }

    fn bounding_box(&self, time0: i64, time1: i64) -> (r: Option<AABB>) {
        let mut result_box: Option<AABB> = None;
        let mut i: usize = 0;
        while i < self.objects.len()
            invariant
                i <= self.objects@.len(),
                forall|k: int|
                    0 <= k < i ==> (#[trigger] self.objects@[k]).bounds(time0, time1).is_some(),
                i == 0 ==> result_box.is_none(),
                i > 0 ==> result_box == Some(
                    surround_all(boxes_of(self.objects@, time0, time1).take(i as int)),
                ),
            decreases self.objects@.len() - i,
        {
            match self.objects[i].bounding_box(time0, time1) {
                Some(bounding_box) => {
                    proof {
                        let all = boxes_of(self.objects@, time0, time1);
                        assert(all.take(i + 1).drop_last() =~= all.take(i as int));
                        assert(all.take(i + 1).last() == bounding_box);
                    }
                    result_box =
                    match result_box {
                        Some(old_box) => Some(AABB::surround(old_box, bounding_box)),
                        None => Some(bounding_box),
                    };
                },
                None => {
                    return None;
                },
            }
            i += 1;
        }
        proof {
            let all = boxes_of(self.objects@, time0, time1);
            assert(all.take(i as int) =~= all);
        }
        result_box
    }
}

/// Where every hit of a search from front to back is nearer than the bound
/// it was asked with, the hit that the search keeps is the nearest of all
/// the answers, and the only one that near.
pub proof fn lemma_last_hit_is_nearest<D>(t_max: i64, hits: Seq<Option<HitRecord<D>>>)
    requires
        forall|i: int|
            0 <= i < hits.len() && (#[trigger] hits[i]).is_some() ==> hits[i].unwrap().t
                < closest_after(t_max, hits.take(i)),
    ensures
        last_hit(hits) == crate::bvh::nearest(hits),
        last_hit(hits).is_some() ==> last_hit(hits).unwrap().t == closest_after(t_max, hits),
        last_hit(hits).is_none() ==> closest_after(t_max, hits) == t_max,
    decreases hits.len(),
{
    if hits.len() > 0 {
        let front = hits.drop_last();
        assert(hits.take(hits.len() - 1) =~= front);
        assert forall|i: int| 0 <= i < front.len() && (#[trigger] front[i]).is_some() implies front[i].unwrap().t
            < closest_after(t_max, front.take(i)) by {
            assert(front[i] == hits[i]);
            assert(front.take(i) =~= hits.take(i));
        }
        lemma_last_hit_is_nearest(t_max, front);
        if hits.last().is_some() {
            assert(hits[hits.len() - 1].is_some());
        }
    }
}

/// A scene: the primitives that rays are traced against, and those among
/// them that give light.
pub struct LightedWorld<H> {
    pub objects: HittableList<H>,
    pub lights: HittableList<H>,
}

impl<H> LightedWorld<H> {
    /// A scene without primitives and without lights.
    pub fn new() -> (r: Self)
        ensures
            r.objects.objects@.len() == 0,
            r.lights.objects@.len() == 0,
    {
        Self { objects: HittableList::new(), lights: HittableList::new() }
    }

    /// Puts a primitive into the scene.
    pub fn add(&mut self, object: H)
        ensures
            final(self).objects.objects@ == old(self).objects.objects@.push(object),
            final(self).lights == old(self).lights,
    {
        self.objects.add(object);
    }

    /// Whether the scene names any primitive that gives light.
    pub open spec fn spec_has_lights(&self) -> bool {
        self.lights.objects@.len() > 0
    }

    /// Whether the scene names any primitive that gives light. Where it
    /// names none, directions are drawn from the surface alone.
    pub fn has_lights(&self) -> (r: bool)
        ensures
            r == self.spec_has_lights(),
    {
        self.lights.objects.len() > 0
    }

    /// Names a primitive as one that gives light. It is aimed at, and is
    /// hit only if it is also put into the scene.
    pub fn add_light(&mut self, object: H)
        ensures
            final(self).lights.objects@ == old(self).lights.objects@.push(object),
            final(self).objects == old(self).objects,
    {
        self.lights.add(object);
    }
}

impl<H: Hittable> Hittable for LightedWorld<H> {
    type Ray = H::Ray;

    type Detail = H::Detail;

    open spec fn hit_outcome(
        &self,
        ray: &Self::Ray,
        t_min: i64,
        t_max: i64,
        out: Option<HitRecord<Self::Detail>>,
    ) -> bool {
        self.objects.hit_outcome(ray, t_min, t_max, out)
    }

    fn hit(&self, ray: &Self::Ray, t_min: i64, t_max: i64) -> (out: Option<
        HitRecord<Self::Detail>,
    >) {
        self.objects.hit(ray, t_min, t_max)
    }

    open spec fn bounds(&self, time0: i64, time1: i64) -> Option<AABB> {
        self.objects.bounds(time0, time1)
    }

    fn bounding_box(&self, time0: i64, time1: i64) -> (r: Option<AABB>) {
        self.objects.bounding_box(time0, time1)
    }
}

impl<H> From<HittableList<H>> for LightedWorld<H> {
    /// The scene of the primitives in `list`, without lights.
    fn from(list: HittableList<H>) -> (r: Self)
        ensures
            r.objects == list,
            r.lights.objects@.len() == 0,
    {
        Self { objects: list, lights: HittableList::new() }
    }
}

impl<H> vstd::std_specs::convert::FromSpecImpl<HittableList<H>> for LightedWorld<H> {
    /// The list of lights is a fresh vector, and no specification value
    /// stands for one, so the conversion is stated on `from` itself.
    open spec fn obeys_from_spec() -> bool {
        false
    }

    open spec fn from_spec(list: HittableList<H>) -> Self {
        arbitrary()
    }
}

} // verus!
