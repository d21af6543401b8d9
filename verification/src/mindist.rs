//! The minimum-distance index: raw outline segments, queried for the least
//! distance from a point to any of them.

use vstd::prelude::*;
use crate::curve::CubicSegment;
use crate::curve::FX_ONE;
use crate::curve::LinearSegment;
use crate::curve::QuadraticSegment;
use crate::curve::Vec2;
use crate::curve::cubic_seg_bounded;
use crate::curve::is_sqrt;
use crate::curve::lemma_cubic_bounded_mono;
use crate::curve::lemma_lin_bounded_mono;
use crate::curve::lemma_quad_bounded_mono;
use crate::curve::lin_seg_bounded;
use crate::curve::pt;
use crate::curve::quad_seg_bounded;
use crate::curve::sp_cubic_point;
use crate::curve::sp_dist2;
use crate::curve::sp_lerp;
use crate::curve::sp_quad_point;

verus! {

/// The distance `r` is attained: it is the rounded-down distance from `p`
/// to an actual point of one of the stored segments.
pub open spec fn outline_attained(o: OutlineDistance, p: Vec2, r: int) -> bool {
    ||| exists|i: int, t: int|
        0 <= i < o.linear_segments@.len() && 0 <= t <= FX_ONE && is_sqrt(
            r,
            sp_dist2(
                sp_lerp(
                    pt(o.linear_segments@[i].p0),
                    pt(o.linear_segments@[i].p1),
                    t,
                ),
                pt(p),
            ),
        )
    ||| exists|i: int, t: int|
        0 <= i < o.quadratic_segments@.len() && 0 <= t <= FX_ONE && is_sqrt(
            r,
            sp_dist2(
                sp_quad_point(
                    pt(o.quadratic_segments@[i].p0),
                    pt(o.quadratic_segments@[i].p1),
                    pt(o.quadratic_segments@[i].p2),
                    t,
                ),
                pt(p),
            ),
        )
    ||| exists|i: int, t: int|
        0 <= i < o.cubic_segments@.len() && 0 <= t <= FX_ONE && is_sqrt(
            r,
            sp_dist2(
                sp_cubic_point(
                    pt(o.cubic_segments@[i].p0),
                    pt(o.cubic_segments@[i].p1),
                    pt(o.cubic_segments@[i].p2),
                    pt(o.cubic_segments@[i].p3),
                    t,
                ),
                pt(p),
            ),
        )
}

/// Raw (unsplit) outline segments, held for distance queries.
pub struct OutlineDistance {
    pub linear_segments: Vec<LinearSegment>,
    pub quadratic_segments: Vec<QuadraticSegment>,
    pub cubic_segments: Vec<CubicSegment>,
}

impl OutlineDistance {
    /// All stored segments have coordinates small enough for exact distance
    /// arithmetic.
    pub open spec fn wf(&self) -> bool {
        &&& forall|i: int|
            0 <= i < self.linear_segments@.len() ==> (#[trigger] self.linear_segments@[i]).wf()
        &&& forall|i: int|
            0 <= i < self.quadratic_segments@.len() ==> (
            #[trigger] self.quadratic_segments@[i]).wf()
        &&& forall|i: int|
            0 <= i < self.cubic_segments@.len() ==> (#[trigger] self.cubic_segments@[i]).wf()
    }

    /// The number of stored segments of all kinds.
    pub open spec fn segment_count(&self) -> int {
        self.linear_segments@.len() as int + self.quadratic_segments@.len() as int
            + self.cubic_segments@.len() as int
    }

    /// An empty index.
    pub fn new() -> (r: OutlineDistance)
        ensures
            r.wf(),
            r.segment_count() == 0,
    {
        OutlineDistance {
            linear_segments: Vec::new(),
            quadratic_segments: Vec::new(),
            cubic_segments: Vec::new(),
        }
    }

    /// Store a linear segment.
    pub fn push_line(&mut self, p0: Vec2, p1: Vec2)
        requires
            old(self).wf(),
            p0.wf(),
            p1.wf(),
        ensures
            final(self).wf(),
            final(self).linear_segments@ == old(self).linear_segments@.push(
                LinearSegment { p0, p1 },
            ),
            final(self).quadratic_segments@ == old(self).quadratic_segments@,
            final(self).cubic_segments@ == old(self).cubic_segments@,
    {
        self.linear_segments.push(LinearSegment::new(p0, p1));
    }

    /// Store a quadratic segment.
    pub fn push_bezier2(&mut self, p0: Vec2, p1: Vec2, p2: Vec2)
        requires
            old(self).wf(),
            p0.wf(),
            p1.wf(),
            p2.wf(),
        ensures
            final(self).wf(),
            final(self).quadratic_segments@ == old(self).quadratic_segments@.push(
                QuadraticSegment { p0, p1, p2 },
            ),
            final(self).linear_segments@ == old(self).linear_segments@,
            final(self).cubic_segments@ == old(self).cubic_segments@,
    {
        self.quadratic_segments.push(QuadraticSegment::new(p0, p1, p2));
    }

    /// Store a cubic segment.
    pub fn push_bezier3(&mut self, p0: Vec2, p1: Vec2, p2: Vec2, p3: Vec2)
        requires
            old(self).wf(),
            p0.wf(),
            p1.wf(),
            p2.wf(),
            p3.wf(),
        ensures
            final(self).wf(),
            final(self).cubic_segments@ == old(self).cubic_segments@.push(
                CubicSegment { p0, p1, p2, p3 },
            ),
            final(self).linear_segments@ == old(self).linear_segments@,
            final(self).quadratic_segments@ == old(self).quadratic_segments@,
    {
        self.cubic_segments.push(CubicSegment::new(p0, p1, p2, p3));
    }

    /// The least distance from `p` to any stored segment, in fixed-point
    /// units, rounded down; `i64::MAX` when nothing is stored. The result is
    /// attained on a stored segment, and is at most the rounded distance to
    /// every stored segment's candidate points: its ends, a line's clamped
    /// projection, and a curve's sixteen grid points and bisected roots of
    /// the distance derivative.
    pub fn distance(&self, p: Vec2) -> (r: i64)
        requires
            self.wf(),
            p.wf(),
        ensures
            r >= 0,
            forall|i: int|
                0 <= i < self.linear_segments@.len() ==> lin_seg_bounded(
                    #[trigger] self.linear_segments@[i],
                    p,
                    r as int,
                ),
            forall|i: int|
                0 <= i < self.quadratic_segments@.len() ==> quad_seg_bounded(
                    #[trigger] self.quadratic_segments@[i],
                    p,
                    r as int,
                ),
            forall|i: int|
                0 <= i < self.cubic_segments@.len() ==> cubic_seg_bounded(
                    #[trigger] self.cubic_segments@[i],
                    p,
                    r as int,
                ),
            self.segment_count() == 0 ==> r == i64::MAX,
            self.segment_count() > 0 ==> r <= 0x1_0000_0000_0000 && outline_attained(*self, p, r as int),
    {
        let mut dist_min: i64 = i64::MAX;
        let mut i: usize = 0;
        while i < self.linear_segments.len()
            invariant
                self.wf(),
                p.wf(),
                i <= self.linear_segments@.len(),
                0 <= dist_min,
                forall|k: int|
                    0 <= k < i ==> lin_seg_bounded(
                        #[trigger] self.linear_segments@[k],
                        p,
                        dist_min as int,
                    ),
                i == 0 ==> dist_min == i64::MAX,
                i > 0 ==> dist_min <= 0x1_0000_0000_0000 && outline_attained(*self, p, dist_min as int),
            decreases self.linear_segments@.len() - i,
        {
            let d = self.linear_segments[i].distance(p);
            if d < dist_min {
                proof {
                    assert forall|k: int| 0 <= k < i implies lin_seg_bounded(
                        #[trigger] self.linear_segments@[k],
                        p,
                        d as int,
                    ) by {
                        lemma_lin_bounded_mono(
                            self.linear_segments@[k],
                            p,
                            d as int,
                            dist_min as int,
                        );
                    }
                }
                dist_min = d;
                proof {
                    let s = self.linear_segments@[i as int];
                    let t = choose|t: int|
                        0 <= t <= FX_ONE && is_sqrt(
                            dist_min as int,
                            sp_dist2(sp_lerp(pt(s.p0), pt(s.p1), t), pt(p)),
                        );
                    assert(0 <= t <= FX_ONE && is_sqrt(
                        dist_min as int,
                        sp_dist2(sp_lerp(pt(s.p0), pt(s.p1), t), pt(p)),
                    ));
                    assert(outline_attained(*self, p, dist_min as int));
                }
            } else {
                proof {
                    lemma_lin_bounded_mono(
                        self.linear_segments@[i as int],
                        p,
                        dist_min as int,
                        d as int,
                    );
                }
            }
            i = i + 1;
        }
        let mut j: usize = 0;
        while j < self.quadratic_segments.len()
            invariant
                self.wf(),
                p.wf(),
                j <= self.quadratic_segments@.len(),
                0 <= dist_min,
                forall|k: int|
                    0 <= k < self.linear_segments@.len() ==> lin_seg_bounded(
                        #[trigger] self.linear_segments@[k],
                        p,
                        dist_min as int,
                    ),
                forall|k: int|
                    0 <= k < j ==> quad_seg_bounded(
                        #[trigger] self.quadratic_segments@[k],
                        p,
                        dist_min as int,
                    ),
                self.linear_segments@.len() == 0 && j == 0 ==> dist_min == i64::MAX,
                self.linear_segments@.len() + j > 0 ==> dist_min <= 0x1_0000_0000_0000
                    && outline_attained(*self, p, dist_min as int),
            decreases self.quadratic_segments@.len() - j,
        {
            let d = self.quadratic_segments[j].distance(p);
            if d < dist_min {
                proof {
                    assert forall|k: int| 0 <= k < self.linear_segments@.len() implies
                        lin_seg_bounded(#[trigger] self.linear_segments@[k], p, d as int) by {
                        lemma_lin_bounded_mono(
                            self.linear_segments@[k],
                            p,
                            d as int,
                            dist_min as int,
                        );
                    }
                    assert forall|k: int| 0 <= k < j implies quad_seg_bounded(
                        #[trigger] self.quadratic_segments@[k],
                        p,
                        d as int,
                    ) by {
                        lemma_quad_bounded_mono(
                            self.quadratic_segments@[k],
                            p,
                            d as int,
                            dist_min as int,
                        );
                    }
                }
                dist_min = d;
                proof {
                    let s = self.quadratic_segments@[j as int];
                    let t = choose|t: int|
                        0 <= t <= FX_ONE && is_sqrt(
                            dist_min as int,
                            sp_dist2(sp_quad_point(pt(s.p0), pt(s.p1), pt(s.p2), t), pt(p)),
                        );
                    assert(0 <= t <= FX_ONE && is_sqrt(
                        dist_min as int,
                        sp_dist2(sp_quad_point(pt(s.p0), pt(s.p1), pt(s.p2), t), pt(p)),
                    ));
                    assert(outline_attained(*self, p, dist_min as int));
                }
            } else {
                proof {
                    lemma_quad_bounded_mono(
                        self.quadratic_segments@[j as int],
                        p,
                        dist_min as int,
                        d as int,
                    );
                }
            }
            j = j + 1;
        }
        let mut k: usize = 0;
        while k < self.cubic_segments.len()
            invariant
                self.wf(),
                p.wf(),
                k <= self.cubic_segments@.len(),
                0 <= dist_min,
                forall|m: int|
                    0 <= m < self.linear_segments@.len() ==> lin_seg_bounded(
                        #[trigger] self.linear_segments@[m],
                        p,
                        dist_min as int,
                    ),
                forall|m: int|
                    0 <= m < self.quadratic_segments@.len() ==> quad_seg_bounded(
                        #[trigger] self.quadratic_segments@[m],
                        p,
                        dist_min as int,
                    ),
                forall|m: int|
                    0 <= m < k ==> cubic_seg_bounded(
                        #[trigger] self.cubic_segments@[m],
                        p,
                        dist_min as int,
                    ),
                self.linear_segments@.len() + self.quadratic_segments@.len() == 0 && k == 0
                    ==> dist_min == i64::MAX,
                self.linear_segments@.len() + self.quadratic_segments@.len() + k > 0 ==> dist_min
                    <= 0x1_0000_0000_0000 && outline_attained(*self, p, dist_min as int),
            decreases self.cubic_segments@.len() - k,
        {
            let d = self.cubic_segments[k].distance(p);
            if d < dist_min {
                proof {
                    assert forall|m: int| 0 <= m < self.linear_segments@.len() implies
                        lin_seg_bounded(#[trigger] self.linear_segments@[m], p, d as int) by {
                        lemma_lin_bounded_mono(
                            self.linear_segments@[m],
                            p,
                            d as int,
                            dist_min as int,
                        );
                    }
                    assert forall|m: int| 0 <= m < self.quadratic_segments@.len() implies
                        quad_seg_bounded(#[trigger] self.quadratic_segments@[m], p, d as int) by {
                        lemma_quad_bounded_mono(
                            self.quadratic_segments@[m],
                            p,
                            d as int,
                            dist_min as int,
                        );
                    }
                    assert forall|m: int| 0 <= m < k implies cubic_seg_bounded(
                        #[trigger] self.cubic_segments@[m],
                        p,
                        d as int,
                    ) by {
                        lemma_cubic_bounded_mono(
                            self.cubic_segments@[m],
                            p,
                            d as int,
                            dist_min as int,
                        );
                    }
                }
                dist_min = d;
                proof {
                    let s = self.cubic_segments@[k as int];
                    let t = choose|t: int|
                        0 <= t <= FX_ONE && is_sqrt(
                            dist_min as int,
                            sp_dist2(
                                sp_cubic_point(pt(s.p0), pt(s.p1), pt(s.p2), pt(s.p3), t),
                                pt(p),
                            ),
                        );
                    assert(0 <= t <= FX_ONE && is_sqrt(
                        dist_min as int,
                        sp_dist2(
                            sp_cubic_point(pt(s.p0), pt(s.p1), pt(s.p2), pt(s.p3), t),
                            pt(p),
                        ),
                    ));
                    assert(outline_attained(*self, p, dist_min as int));
                }
            } else {
                proof {
                    lemma_cubic_bounded_mono(
                        self.cubic_segments@[k as int],
                        p,
                        dist_min as int,
                        d as int,
                    );
                }
            }
            k = k + 1;
        }
        dist_min
    }
}

} // verus!
