//! Lowering primitives into the arena.
//!
//! Every primitive is textured quads or line segments. A primitive longer than
//! one batch splits itself across several, so no draw call has a size limit;
//! where the vertices come from is the caller's business, handed in as a
//! function from an item to its corners.
use vstd::prelude::*;
use crate::batch::{Batcher, DrawKey, TextureSlot, Topology, slot_key};

verus! {

/// A quad's two triangles, corners clockwise from the top left.
pub open spec fn quad_seq<V>(k: DrawKey, q: [V; 4]) -> Seq<(DrawKey, V)> {
    seq![(k, q[0]), (k, q[1]), (k, q[2]), (k, q[0]), (k, q[2]), (k, q[3])]
}

/// Quads one after another.
pub open spec fn quads_seq<V>(k: DrawKey, qs: Seq<[V; 4]>) -> Seq<(DrawKey, V)>
    decreases qs.len(),
{
    if qs.len() == 0 {
        Seq::empty()
    } else {
        quads_seq(k, qs.drop_last()) + quad_seq(k, qs.last())
    }
}

/// A line segment's two ends.
pub open spec fn seg_seq<V>(k: DrawKey, s: (V, V)) -> Seq<(DrawKey, V)> {
    seq![(k, s.0), (k, s.1)]
}

/// Segments one after another.
pub open spec fn segs_seq<V>(k: DrawKey, ss: Seq<(V, V)>) -> Seq<(DrawKey, V)>
    decreases ss.len(),
{
    if ss.len() == 0 {
        Seq::empty()
    } else {
        segs_seq(k, ss.drop_last()) + seg_seq(k, ss.last())
    }
}

/// A rectangle outline: each side as a segment, clockwise.
pub open spec fn outline_seq<V>(k: DrawKey, c: [V; 4]) -> Seq<(DrawKey, V)> {
    seq![(k, c[0]), (k, c[1]), (k, c[1]), (k, c[2]), (k, c[2]), (k, c[3]), (k, c[3]), (k, c[0])]
}

/// The state of an untextured primitive.
pub open spec fn plain_key(topology: Topology, viewport: [u32; 4]) -> DrawKey {
    DrawKey { topology, viewport, texture: None }
}

/// How many items of `k` vertices one batch holds.
pub open spec fn per_batch(limit: nat, k: nat) -> nat {
    if limit / k >= 1 {
        limit / k
    } else {
        1
    }
}

fn batch_items(limit: usize, k: usize) -> (n: usize)
    requires
        k > 0,
    ensures
        n == per_batch(limit as nat, k as nat),
{
    let n = limit / k;
    if n >= 1 {
        n
    } else {
        1
    }
}

fn push_quad<V: Copy, T>(b: &mut Batcher<V, T>, q: [V; 4])
    requires
        old(b).wf(),
        old(b).pending() >= 6,
    ensures
        final(b).wf(),
        final(b).view() == old(b).view() + quad_seq(old(b).open_key(), q),
        final(b).pending() == old(b).pending() - 6,
        final(b).open_key() == old(b).open_key(),
        final(b).limit() == old(b).limit(),
        final(b).commands() == old(b).commands(),
        old(b).keeps(*final(b), old(b).open_key()),
{
    let ghost k = b.open_key();
    let ghost s0 = *b;
    b.push(q[0]);
    let ghost mid = *b;
    b.push(q[1]);
    proof {
        Batcher::<V, T>::lemma_keeps_trans(s0, mid, *b, k);
    }
    let ghost mid = *b;
    b.push(q[2]);
    proof {
        Batcher::<V, T>::lemma_keeps_trans(s0, mid, *b, k);
    }
    let ghost mid = *b;
    b.push(q[0]);
    proof {
        Batcher::<V, T>::lemma_keeps_trans(s0, mid, *b, k);
    }
    let ghost mid = *b;
    b.push(q[2]);
    proof {
        Batcher::<V, T>::lemma_keeps_trans(s0, mid, *b, k);
    }
    let ghost mid = *b;
    b.push(q[3]);
    proof {
        Batcher::<V, T>::lemma_keeps_trans(s0, mid, *b, k);
    }
    assert(b.view() =~= old(b).view() + quad_seq(k, q));
}

fn push_seg<V, T>(b: &mut Batcher<V, T>, s: (V, V))
    requires
        old(b).wf(),
        old(b).pending() >= 2,
    ensures
        final(b).wf(),
        final(b).view() == old(b).view() + seg_seq(old(b).open_key(), s),
        final(b).pending() == old(b).pending() - 2,
        final(b).open_key() == old(b).open_key(),
        final(b).limit() == old(b).limit(),
        final(b).commands() == old(b).commands(),
        old(b).keeps(*final(b), old(b).open_key()),
{
    let ghost k = b.open_key();
    let ghost s0 = s;
    let ghost b0 = *b;
    let (x, y) = s;
    b.push(x);
    let ghost mid = *b;
    b.push(y);
    proof {
        Batcher::<V, T>::lemma_keeps_trans(b0, mid, *b, k);
    }
    assert(b.view() =~= old(b).view() + seg_seq(k, s0));
}

/// Draw one textured quad: four corners, clockwise from the top left.
pub fn pack_quad<V: Copy, T>(
    b: &mut Batcher<V, T>,
    viewport: [u32; 4],
    texture: Option<TextureSlot<T>>,
    corners: [V; 4],
)
    requires
        old(b).wf(),
        old(b).idle(),
        old(b).view().len() + 6 <= u32::MAX,
    ensures
        final(b).wf(),
        final(b).idle(),
        final(b).limit() == old(b).limit(),
        final(b).view() == old(b).view() + quad_seq(
            DrawKey { topology: Topology::Triangles, viewport, texture: slot_key(texture) },
            corners,
        ),
        old(b).keeps(
            *final(b),
            DrawKey { topology: Topology::Triangles, viewport, texture: slot_key(texture) },
        ),
        final(b).commands().len() == old(b).commands().len() + (if old(b).merges(
            DrawKey { topology: Topology::Triangles, viewport, texture: slot_key(texture) },
            6,
        ) {
            0int
        } else {
            1int
        }),
{
    let ghost k = DrawKey { topology: Topology::Triangles, viewport, texture: slot_key(texture) };
    proof {
        b.lemma_bounds();
    }
    b.begin(Topology::Triangles, texture, viewport, 6);
    let ghost mid = *b;
    push_quad(b, corners);
    proof {
        Batcher::<V, T>::lemma_keeps_trans(*old(b), mid, *b, k);
    }
}

/// Draw one line segment.
pub fn pack_segment<V, T>(b: &mut Batcher<V, T>, viewport: [u32; 4], a: V, z: V)
    requires
        old(b).wf(),
        old(b).idle(),
        old(b).view().len() + 2 <= u32::MAX,
    ensures
        final(b).wf(),
        final(b).idle(),
        final(b).limit() == old(b).limit(),
        final(b).view() == old(b).view() + seg_seq(plain_key(Topology::Lines, viewport), (a, z)),
        old(b).keeps(*final(b), plain_key(Topology::Lines, viewport)),
        final(b).commands().len() == old(b).commands().len() + (if old(b).merges(
            plain_key(Topology::Lines, viewport),
            2,
        ) {
            0int
        } else {
            1int
        }),
{
    let ghost k = plain_key(Topology::Lines, viewport);
    proof {
        b.lemma_bounds();
    }
    b.begin(Topology::Lines, None, viewport, 2);
    let ghost mid = *b;
    push_seg(b, (a, z));
    proof {
        Batcher::<V, T>::lemma_keeps_trans(*old(b), mid, *b, k);
    }
}

/// Draw a rectangle outline from its four corners, clockwise from the top
/// left: the detection-box primitive.
pub fn pack_outline<V: Copy, T>(b: &mut Batcher<V, T>, viewport: [u32; 4], c: [V; 4])
    requires
        old(b).wf(),
        old(b).idle(),
        old(b).view().len() + 8 <= u32::MAX,
    ensures
        final(b).wf(),
        final(b).idle(),
        final(b).limit() == old(b).limit(),
        final(b).view() == old(b).view() + outline_seq(plain_key(Topology::Lines, viewport), c),
        old(b).keeps(*final(b), plain_key(Topology::Lines, viewport)),
        final(b).commands().len() == old(b).commands().len() + (if old(b).merges(
            plain_key(Topology::Lines, viewport),
            8,
        ) {
            0int
        } else {
            1int
        }),
{
    let ghost k = plain_key(Topology::Lines, viewport);
    proof {
        b.lemma_bounds();
    }
    b.begin(Topology::Lines, None, viewport, 8);
    let ghost opened = *b;
    let mut i: usize = 0;
    while i < 4
        invariant
            0 <= i <= 4,
            b.wf(),
            old(b).keeps(*b, k),
            b.commands() == opened.commands(),
            opened.commands().len() == old(b).commands().len() + (if old(b).merges(k, 8) {
                0int
            } else {
                1int
            }),
            b.open_key() == k,
            b.pending() == 8 - 2 * i,
            b.limit() == old(b).limit(),
            b.view() == old(b).view() + outline_seq(k, c).subrange(0, 2 * i as int),
        decreases 4 - i,
    {
        let ghost before = b.view();
        let j = if i + 1 == 4 {
            0
        } else {
            i + 1
        };
        let ghost mid = *b;
        push_seg(b, (c[i], c[j]));
        proof {
            Batcher::<V, T>::lemma_keeps_trans(*old(b), mid, *b, k);
        }
        assert(outline_seq(k, c).subrange(0, 2 * i + 2) =~= outline_seq(k, c).subrange(0, 2 * i)
            + seg_seq(k, (c[i as int], c[j as int])));
        i = i + 1;
    }
    assert(outline_seq(k, c).subrange(0, 8) =~= outline_seq(k, c));
}

/// Draw `n` quads in as many batches as it takes; quad `i` has the corners
/// `quad(i)`, clockwise from the top left. Text is one of these per glyph, a
/// point cloud one per point.
pub fn pack_quads<V: Copy, T, F: Fn(usize) -> [V; 4]>(
    b: &mut Batcher<V, T>,
    viewport: [u32; 4],
    n: usize,
    quad: &F,
)
    requires
        old(b).wf(),
        old(b).idle(),
        old(b).view().len() + 6 * n <= u32::MAX,
        forall|i: usize| i < n ==> call_requires(*quad, (i,)),
    ensures
        final(b).wf(),
        final(b).idle(),
        final(b).limit() == old(b).limit(),
        old(b).keeps(*final(b), plain_key(Topology::Triangles, viewport)),
        exists|qs: Seq<[V; 4]>|
            {
                &&& qs.len() == n
                &&& forall|i: int| 0 <= i < n ==> call_ensures(*quad, (i as usize,), #[trigger] qs[i])
                &&& final(b).view() == old(b).view() + quads_seq(
                    plain_key(Topology::Triangles, viewport),
                    qs,
                )
            },
{
    let ghost k = plain_key(Topology::Triangles, viewport);
    proof {
        Batcher::<V, T>::lemma_keeps_refl(*old(b), k);
    }
    let per = batch_items(b.batch_limit(), 6);
    let mut done: usize = 0;
    let ghost mut qs: Seq<[V; 4]> = Seq::empty();
    while done < n
        invariant
            0 <= done <= n,
            k == plain_key(Topology::Triangles, viewport),
            b.wf(),
            old(b).keeps(*b, k),
            b.idle(),
            b.limit() == old(b).limit(),
            per == per_batch(b.limit(), 6),
            b.view().len() + 6 * (n - done) <= u32::MAX,
            qs.len() == done,
            forall|i: int| 0 <= i < done ==> call_ensures(*quad, (i as usize,), #[trigger] qs[i]),
            forall|i: usize| i < n ==> call_requires(*quad, (i,)),
            b.view() == old(b).view() + quads_seq(k, qs),
        decreases n - done,
    {
        let m = if n - done < per {
            n - done
        } else {
            per
        };
        proof {
            b.lemma_bounds();
        }
        let ghost pre = *b;
        b.begin(Topology::Triangles, None, viewport, m * 6);
        proof {
            Batcher::<V, T>::lemma_keeps_trans(*old(b), pre, *b, k);
        }
        let mut i = done;
        while i < done + m
            invariant
                done <= i <= done + m <= n,
                b.wf(),
                old(b).keeps(*b, k),
                b.open_key() == k,
                b.pending() == 6 * (done + m - i),
                b.limit() == old(b).limit(),
                b.view().len() + 6 * (n - i) <= u32::MAX,
                qs.len() == i,
                forall|j: int| 0 <= j < i ==> call_ensures(*quad, (j as usize,), #[trigger] qs[j]),
                forall|j: usize| j < n ==> call_requires(*quad, (j,)),
                b.view() == old(b).view() + quads_seq(k, qs),
            decreases done + m - i,
        {
            let q = quad(i);
            let ghost mid = *b;
            push_quad(b, q);
            proof {
                Batcher::<V, T>::lemma_keeps_trans(*old(b), mid, *b, k);
            }
            proof {
                let old_qs = qs;
                qs = qs.push(q);
                assert(qs.drop_last() =~= old_qs);
                assert(b.view() =~= old(b).view() + quads_seq(k, qs));
            }
            i = i + 1;
        }
        done = done + m;
    }
}

/// Draw `n` line segments in as many batches as it takes; segment `i` has
/// the ends `seg(i)`. A ground grid is one of these, and each ring of a wire
/// ellipsoid.
pub fn pack_segments<V, T, F: Fn(usize) -> (V, V)>(
    b: &mut Batcher<V, T>,
    viewport: [u32; 4],
    n: usize,
    seg: &F,
)
    requires
        old(b).wf(),
        old(b).idle(),
        old(b).view().len() + 2 * n <= u32::MAX,
        forall|i: usize| i < n ==> call_requires(*seg, (i,)),
    ensures
        final(b).wf(),
        final(b).idle(),
        final(b).limit() == old(b).limit(),
        old(b).keeps(*final(b), plain_key(Topology::Lines, viewport)),
        exists|ss: Seq<(V, V)>|
            {
                &&& ss.len() == n
                &&& forall|i: int| 0 <= i < n ==> call_ensures(*seg, (i as usize,), #[trigger] ss[i])
                &&& final(b).view() == old(b).view() + segs_seq(plain_key(Topology::Lines, viewport), ss)
            },
{
    let ghost k = plain_key(Topology::Lines, viewport);
    proof {
        Batcher::<V, T>::lemma_keeps_refl(*old(b), k);
    }
    let per = batch_items(b.batch_limit(), 2);
    let mut done: usize = 0;
    let ghost mut ss: Seq<(V, V)> = Seq::empty();
    while done < n
        invariant
            0 <= done <= n,
            k == plain_key(Topology::Lines, viewport),
            b.wf(),
            old(b).keeps(*b, k),
            b.idle(),
            b.limit() == old(b).limit(),
            per == per_batch(b.limit(), 2),
            b.view().len() + 2 * (n - done) <= u32::MAX,
            ss.len() == done,
            forall|i: int| 0 <= i < done ==> call_ensures(*seg, (i as usize,), #[trigger] ss[i]),
            forall|i: usize| i < n ==> call_requires(*seg, (i,)),
            b.view() == old(b).view() + segs_seq(k, ss),
        decreases n - done,
    {
        let m = if n - done < per {
            n - done
        } else {
            per
        };
        proof {
            b.lemma_bounds();
        }
        let ghost pre = *b;
        b.begin(Topology::Lines, None, viewport, m * 2);
        proof {
            Batcher::<V, T>::lemma_keeps_trans(*old(b), pre, *b, k);
        }
        let mut i = done;
        while i < done + m
            invariant
                done <= i <= done + m <= n,
                b.wf(),
                old(b).keeps(*b, k),
                b.open_key() == k,
                b.pending() == 2 * (done + m - i),
                b.limit() == old(b).limit(),
                b.view().len() + 2 * (n - i) <= u32::MAX,
                ss.len() == i,
                forall|j: int| 0 <= j < i ==> call_ensures(*seg, (j as usize,), #[trigger] ss[j]),
                forall|j: usize| j < n ==> call_requires(*seg, (j,)),
                b.view() == old(b).view() + segs_seq(k, ss),
            decreases done + m - i,
        {
            let s = seg(i);
            let ghost sg = s;
            let ghost mid = *b;
            push_seg(b, s);
            proof {
                Batcher::<V, T>::lemma_keeps_trans(*old(b), mid, *b, k);
            }
            proof {
                let old_ss = ss;
                ss = ss.push(sg);
                assert(ss.drop_last() =~= old_ss);
                assert(b.view() =~= old(b).view() + segs_seq(k, ss));
            }
            i = i + 1;
        }
        done = done + m;
    }
}

/// Draw a connected polyline through `pts`: one segment between each pair of
/// neighbours, each point lowered to a vertex by `lower`. Fewer than two
/// points draw nothing. A trajectory, a time series, a per-vertex colored
/// path are all one of these.
pub fn pack_line_strip<V, T, P, F: Fn(&P) -> V>(
    b: &mut Batcher<V, T>,
    viewport: [u32; 4],
    pts: &[P],
    lower: &F,
)
    requires
        old(b).wf(),
        old(b).idle(),
        old(b).view().len() + 2 * pts@.len() <= u32::MAX + 2,
        forall|i: int| 0 <= i < pts@.len() ==> call_requires(*lower, (&pts@[i],)),
    ensures
        final(b).wf(),
        final(b).idle(),
        final(b).limit() == old(b).limit(),
        old(b).keeps(*final(b), plain_key(Topology::Lines, viewport)),
        exists|ss: Seq<(V, V)>|
            {
                &&& ss.len() == (if pts@.len() > 0 {
                    pts@.len() - 1
                } else {
                    0
                })
                &&& forall|i: int|
                    0 <= i < ss.len() ==> call_ensures(*lower, (&pts@[i],), (#[trigger] ss[i]).0)
                        && call_ensures(*lower, (&pts@[i + 1],), ss[i].1)
                &&& final(b).view() == old(b).view() + segs_seq(plain_key(Topology::Lines, viewport), ss)
            },
{
    let ghost k = plain_key(Topology::Lines, viewport);
    proof {
        Batcher::<V, T>::lemma_keeps_refl(*old(b), k);
    }
    let per = batch_items(b.batch_limit(), 2);
    let segments = if pts.len() > 0 {
        pts.len() - 1
    } else {
        0
    };
    let mut done: usize = 0;
    let ghost mut ss: Seq<(V, V)> = Seq::empty();
    proof {
        b.lemma_bounds();
    }
    while done < segments
        invariant
            0 <= done <= segments,
            segments == (if pts@.len() > 0 {
                pts@.len() - 1
            } else {
                0
            }),
            k == plain_key(Topology::Lines, viewport),
            b.wf(),
            old(b).keeps(*b, k),
            b.idle(),
            b.limit() == old(b).limit(),
            per == per_batch(b.limit(), 2),
            b.view().len() + 2 * (segments - done) <= u32::MAX,
            ss.len() == done,
            forall|i: int|
                0 <= i < done ==> call_ensures(*lower, (&pts@[i],), (#[trigger] ss[i]).0)
                    && call_ensures(*lower, (&pts@[i + 1],), ss[i].1),
            forall|i: int| 0 <= i < pts@.len() ==> call_requires(*lower, (&pts@[i],)),
            b.view() == old(b).view() + segs_seq(k, ss),
        decreases segments - done,
    {
        let m = if segments - done < per {
            segments - done
        } else {
            per
        };
        proof {
            b.lemma_bounds();
        }
        let ghost pre = *b;
        b.begin(Topology::Lines, None, viewport, m * 2);
        proof {
            Batcher::<V, T>::lemma_keeps_trans(*old(b), pre, *b, k);
        }
        let mut i = done;
        while i < done + m
            invariant
                done <= i <= done + m <= segments,
                segments < pts@.len(),
                b.wf(),
                old(b).keeps(*b, k),
                b.open_key() == k,
                b.pending() == 2 * (done + m - i),
                b.limit() == old(b).limit(),
                b.view().len() + 2 * (segments - i) <= u32::MAX,
                ss.len() == i,
                forall|j: int|
                    0 <= j < i ==> call_ensures(*lower, (&pts@[j],), (#[trigger] ss[j]).0)
                        && call_ensures(*lower, (&pts@[j + 1],), ss[j].1),
                forall|j: int| 0 <= j < pts@.len() ==> call_requires(*lower, (&pts@[j],)),
                b.view() == old(b).view() + segs_seq(k, ss),
            decreases done + m - i,
        {
            let a = lower(&pts[i]);
            let z = lower(&pts[i + 1]);
            let ghost sg = (a, z);
            let ghost mid = *b;
            push_seg(b, (a, z));
            proof {
                Batcher::<V, T>::lemma_keeps_trans(*old(b), mid, *b, k);
            }
            proof {
                let old_ss = ss;
                ss = ss.push(sg);
                assert(ss.drop_last() =~= old_ss);
                assert(b.view() =~= old(b).view() + segs_seq(k, ss));
            }
            i = i + 1;
        }
        done = done + m;
    }
}

/// Triangles of a fan, each from the anchor to a pair of neighbours.
pub open spec fn fan_seq<V>(k: DrawKey, anchor: V, ts: Seq<(V, V)>) -> Seq<(DrawKey, V)>
    decreases ts.len(),
{
    if ts.len() == 0 {
        Seq::empty()
    } else {
        fan_seq(k, anchor, ts.drop_last()) + seq![(k, anchor), (k, ts.last().0), (k, ts.last().1)]
    }
}

/// Whether vertices `3i..3i + 3` of `d` are the fan triangle from `anchor`
/// to the pair `t`.
pub open spec fn fan_triangle_at<V>(d: Seq<(DrawKey, V)>, i: int, k: DrawKey, anchor: V, t: (V, V)) -> bool {
    &&& d[3 * i] == (k, anchor)
    &&& d[3 * i + 1] == (k, t.0)
    &&& d[3 * i + 2] == (k, t.1)
}

/// Triangle `i` of a fan is drawn over vertices `3i..3i + 3`: the anchor,
/// then the two ends of pair `i`, in order.
pub proof fn lemma_fan_is_triangles_from_the_anchor<V>(k: DrawKey, anchor: V, ts: Seq<(V, V)>)
    ensures
        fan_seq(k, anchor, ts).len() == 3 * ts.len(),
        forall|i: int|
            0 <= i < ts.len() ==> #[trigger] fan_triangle_at(fan_seq(k, anchor, ts), i, k, anchor, ts[i]),
    decreases ts.len(),
{
    if ts.len() > 0 {
        lemma_fan_is_triangles_from_the_anchor(k, anchor, ts.drop_last());
        let p = fan_seq(k, anchor, ts.drop_last());
        let d = fan_seq(k, anchor, ts);
        assert forall|i: int| 0 <= i < ts.len() implies #[trigger] fan_triangle_at(d, i, k, anchor, ts[i]) by {
            if i < ts.len() - 1 {
                assert(ts.drop_last()[i] == ts[i]);
                assert(fan_triangle_at(p, i, k, anchor, ts[i]));
            } else {
                assert(3 * i == p.len());
            }
        }
    }
}

/// Fill a convex polygon as a triangle fan from its first point, each point
/// lowered to a vertex by `lower`. Fewer than three points draw nothing;
/// concave outlines come out wrong, the trade for having no tessellator.
pub fn pack_fan<V: Copy, T, P, F: Fn(&P) -> V>(
    b: &mut Batcher<V, T>,
    viewport: [u32; 4],
    pts: &[P],
    lower: &F,
)
    requires
        old(b).wf(),
        old(b).idle(),
        old(b).view().len() + 3 * pts@.len() <= u32::MAX + 6,
        forall|i: int| 0 <= i < pts@.len() ==> call_requires(*lower, (&pts@[i],)),
    ensures
        final(b).wf(),
        final(b).idle(),
        final(b).limit() == old(b).limit(),
        old(b).keeps(*final(b), plain_key(Topology::Triangles, viewport)),
        pts@.len() == 0 ==> final(b).view() == old(b).view(),
        pts@.len() > 0 ==> exists|anchor: V, ts: Seq<(V, V)>|
            {
                &&& call_ensures(*lower, (&pts@[0],), anchor)
                &&& ts.len() == (if pts@.len() > 2 {
                    pts@.len() - 2
                } else {
                    0
                })
                &&& forall|i: int|
                    0 <= i < ts.len() ==> call_ensures(*lower, (&pts@[i + 1],), (#[trigger] ts[i]).0)
                        && call_ensures(*lower, (&pts@[i + 2],), ts[i].1)
                &&& final(b).view() == old(b).view() + fan_seq(
                    plain_key(Topology::Triangles, viewport),
                    anchor,
                    ts,
                )
            },
{
    if pts.len() == 0 {
        proof {
            Batcher::<V, T>::lemma_keeps_refl(*old(b), plain_key(Topology::Triangles, viewport));
        }
        return ;
    }
    let ghost k = plain_key(Topology::Triangles, viewport);
    proof {
        Batcher::<V, T>::lemma_keeps_refl(*old(b), k);
    }
    let anchor = lower(&pts[0]);
    let per = batch_items(b.batch_limit(), 3);
    let triangles = if pts.len() > 2 {
        pts.len() - 2
    } else {
        0
    };
    let mut done: usize = 0;
    let ghost mut ts: Seq<(V, V)> = Seq::empty();
    proof {
        b.lemma_bounds();
    }
    while done < triangles
        invariant
            0 <= done <= triangles,
            triangles == (if pts@.len() > 2 {
                pts@.len() - 2
            } else {
                0
            }),
            k == plain_key(Topology::Triangles, viewport),
            b.wf(),
            old(b).keeps(*b, k),
            b.idle(),
            b.limit() == old(b).limit(),
            per == per_batch(b.limit(), 3),
            b.view().len() + 3 * (triangles - done) <= u32::MAX,
            ts.len() == done,
            forall|i: int|
                0 <= i < done ==> call_ensures(*lower, (&pts@[i + 1],), (#[trigger] ts[i]).0)
                    && call_ensures(*lower, (&pts@[i + 2],), ts[i].1),
            forall|i: int| 0 <= i < pts@.len() ==> call_requires(*lower, (&pts@[i],)),
            b.view() == old(b).view() + fan_seq(k, anchor, ts),
        decreases triangles - done,
    {
        let m = if triangles - done < per {
            triangles - done
        } else {
            per
        };
        proof {
            b.lemma_bounds();
        }
        let ghost pre = *b;
        b.begin(Topology::Triangles, None, viewport, m * 3);
        proof {
            Batcher::<V, T>::lemma_keeps_trans(*old(b), pre, *b, k);
        }
        let mut i = done;
        while i < done + m
            invariant
                done <= i <= done + m <= triangles,
                triangles + 2 <= pts@.len(),
                b.wf(),
                old(b).keeps(*b, k),
                b.open_key() == k,
                b.pending() == 3 * (done + m - i),
                b.limit() == old(b).limit(),
                b.view().len() + 3 * (triangles - i) <= u32::MAX,
                ts.len() == i,
                forall|j: int|
                    0 <= j < i ==> call_ensures(*lower, (&pts@[j + 1],), (#[trigger] ts[j]).0)
                        && call_ensures(*lower, (&pts@[j + 2],), ts[j].1),
                forall|j: int| 0 <= j < pts@.len() ==> call_requires(*lower, (&pts@[j],)),
                b.view() == old(b).view() + fan_seq(k, anchor, ts),
            decreases done + m - i,
        {
            let p = lower(&pts[i + 1]);
            let q = lower(&pts[i + 2]);
            let ghost mid = *b;
            b.push(anchor);
            proof {
                Batcher::<V, T>::lemma_keeps_trans(*old(b), mid, *b, k);
            }
            let ghost mid = *b;
            b.push(p);
            proof {
                Batcher::<V, T>::lemma_keeps_trans(*old(b), mid, *b, k);
            }
            let ghost mid = *b;
            b.push(q);
            proof {
                Batcher::<V, T>::lemma_keeps_trans(*old(b), mid, *b, k);
            }
            proof {
                let old_ts = ts;
                ts = ts.push((p, q));
                assert(ts.drop_last() =~= old_ts);
                assert(b.view() =~= old(b).view() + fan_seq(k, anchor, ts));
            }
            i = i + 1;
        }
        done = done + m;
    }
}

/// An axis triad's three segments, six vertices in order.
pub open spec fn triad_seq<V>(k: DrawKey, t: [V; 6]) -> Seq<(DrawKey, V)> {
    seq![(k, t[0]), (k, t[1]), (k, t[2]), (k, t[3]), (k, t[4]), (k, t[5])]
}

/// Segment `i` of a run is drawn as its two ends, in order, at vertices
/// `2i` and `2i + 1`, with the run's state.
pub proof fn lemma_segments_are_their_ends<V>(k: DrawKey, ss: Seq<(V, V)>)
    ensures
        segs_seq(k, ss).len() == 2 * ss.len(),
        forall|i: int|
            0 <= i < ss.len() ==> #[trigger] segs_seq(k, ss)[2 * i] == (k, ss[i].0) && segs_seq(
                k,
                ss,
            )[2 * i + 1] == (k, ss[i].1),
    decreases ss.len(),
{
    if ss.len() > 0 {
        lemma_segments_are_their_ends(k, ss.drop_last());
        let p = segs_seq(k, ss.drop_last());
        assert(segs_seq(k, ss) == p + seg_seq(k, ss.last()));
        assert forall|i: int| 0 <= i < ss.len() implies #[trigger] segs_seq(k, ss)[2 * i] == (
            k,
            ss[i].0,
        ) && segs_seq(k, ss)[2 * i + 1] == (k, ss[i].1) by {
            if i < ss.len() - 1 {
                assert(ss.drop_last()[i] == ss[i]);
                assert(p[2 * i] == (k, ss[i].0));
            } else {
                assert(2 * i == p.len());
            }
        }
    }
}

/// Whether vertices `6i..6i + 6` of `d` are quad `q` as two triangles:
/// corners 0, 1, 2, then 0, 2, 3, sharing the diagonal from corner 0 to 2.
pub open spec fn quad_at<V>(d: Seq<(DrawKey, V)>, i: int, k: DrawKey, q: [V; 4]) -> bool {
    &&& d[6 * i] == (k, q[0])
    &&& d[6 * i + 1] == (k, q[1])
    &&& d[6 * i + 2] == (k, q[2])
    &&& d[6 * i + 3] == (k, q[0])
    &&& d[6 * i + 4] == (k, q[2])
    &&& d[6 * i + 5] == (k, q[3])
}

/// Quad `i` of a run is drawn over vertices `6i..6i + 6`, as two triangles
/// that share its diagonal from corner 0 to corner 2.
pub proof fn lemma_quads_are_two_triangles<V>(k: DrawKey, qs: Seq<[V; 4]>)
    ensures
        quads_seq(k, qs).len() == 6 * qs.len(),
        forall|i: int| 0 <= i < qs.len() ==> #[trigger] quad_at(quads_seq(k, qs), i, k, qs[i]),
    decreases qs.len(),
{
    if qs.len() > 0 {
        lemma_quads_are_two_triangles(k, qs.drop_last());
        let p = quads_seq(k, qs.drop_last());
        let d = quads_seq(k, qs);
        assert(d == p + quad_seq(k, qs.last()));
        assert forall|i: int| 0 <= i < qs.len() implies #[trigger] quad_at(d, i, k, qs[i]) by {
            if i < qs.len() - 1 {
                assert(qs.drop_last()[i] == qs[i]);
                assert(quad_at(p, i, k, qs[i]));
                assert(6 * i + 5 < p.len()) by (nonlinear_arith)
                    requires
                        i < qs.len() - 1,
                        p.len() == 6 * (qs.len() - 1),
                ;
            } else {
                assert(6 * i == p.len());
            }
        }
    }
}

/// A rectangle outline is its four sides, each from one corner to the next
/// clockwise, the last closing back to the first.
pub proof fn lemma_outline_is_four_sides<V>(k: DrawKey, c: [V; 4])
    ensures
        outline_seq(k, c).len() == 8,
        forall|j: int|
            0 <= j < 4 ==> #[trigger] outline_seq(k, c)[2 * j] == (k, c[j]) && outline_seq(k, c)[2
                * j + 1] == (k, c[(j + 1) % 4]),
{
    assert forall|j: int| 0 <= j < 4 implies #[trigger] outline_seq(k, c)[2 * j] == (k, c[j])
        && outline_seq(k, c)[2 * j + 1] == (k, c[(j + 1) % 4]) by {
        if j == 0 {
        } else if j == 1 {
        } else if j == 2 {
        } else {
            assert((j + 1) % 4 == 0);
        }
    }
}

/// A triad is its six vertices, each once and in order: the X axis from
/// `t[0]` to `t[1]`, then Y from `t[2]` to `t[3]`, then Z from `t[4]` to
/// `t[5]`, all drawn with the triad's state.
pub proof fn lemma_triad_is_its_six_vertices<V>(k: DrawKey, t: [V; 6])
    ensures
        triad_seq(k, t).len() == 6,
        forall|j: int| 0 <= j < 6 ==> #[trigger] triad_seq(k, t)[j] == (k, t[j]),
        triad_seq(k, t) == Seq::new(6, |j: int| (k, t[j])),
{
    assert(triad_seq(k, t) =~= Seq::new(6, |j: int| (k, t[j])));
}

/// One transform without bones draws exactly its triad's six vertices, in
/// order, as long as a batch holds at least one transform.
pub proof fn lemma_one_transform_draws_its_triad<V>(k: DrawKey, t: [V; 6], per: nat)
    requires
        per >= 1,
    ensures
        frames_from(k, seq![t], Seq::<(V, V)>::empty(), per, 0) == Seq::new(6, |j: int| (k, t[j])),
{
    lemma_triad_is_its_six_vertices(k, t);
    let ts = seq![t];
    assert(ts.subrange(0, 1) =~= ts);
    assert(triads_seq(k, ts.drop_last()) =~= Seq::<(DrawKey, V)>::empty());
    assert(triads_seq(k, ts) =~= triad_seq(k, t));
    assert(Seq::<(V, V)>::empty().subrange(0, 0) =~= Seq::<(V, V)>::empty());
    assert(frames_from(k, ts, Seq::<(V, V)>::empty(), per, 1) =~= Seq::<(DrawKey, V)>::empty());
    assert(frames_from(k, ts, Seq::<(V, V)>::empty(), per, 0) =~= triad_seq(k, t));
}

/// Triads one after another.
pub open spec fn triads_seq<V>(k: DrawKey, ts: Seq<[V; 6]>) -> Seq<(DrawKey, V)>
    decreases ts.len(),
{
    if ts.len() == 0 {
        Seq::empty()
    } else {
        triads_seq(k, ts.drop_last()) + triad_seq(k, ts.last())
    }
}

/// How many connecting bones the batch of transforms `d..d + m`, out of `n`,
/// draws: one from each transform to the next, the last having none.
pub open spec fn bones_in(n: nat, d: nat, m: nat) -> nat {
    let links = if n > 0 {
        (n - 1) as nat
    } else {
        0nat
    };
    if d + m > links {
        if links > d {
            (links - d) as nat
        } else {
            0nat
        }
    } else {
        m
    }
}

/// What drawing transforms `d..` produces, `per` of them a batch: each
/// batch's triads, then its bones.
pub open spec fn frames_from<V>(
    k: DrawKey,
    ts: Seq<[V; 6]>,
    bs: Seq<(V, V)>,
    per: nat,
    d: nat,
) -> Seq<(DrawKey, V)>
    decreases ts.len() - d,
{
    if d >= ts.len() || per == 0 {
        Seq::empty()
    } else {
        let m = if ts.len() - d < per {
            (ts.len() - d) as nat
        } else {
            per
        };
        let nb = bones_in(ts.len(), d, m);
        triads_seq(k, ts.subrange(d as int, (d + m) as int)) + segs_seq(
            k,
            bs.subrange(d as int, (d + nb) as int),
        ) + frames_from(k, ts, bs, per, d + m)
    }
}

proof fn lemma_segs_len<V>(k: DrawKey, ss: Seq<(V, V)>)
    ensures
        segs_seq(k, ss).len() == 2 * ss.len(),
    decreases ss.len(),
{
    if ss.len() > 0 {
        lemma_segs_len(k, ss.drop_last());
    }
}

proof fn lemma_triads_len<V>(k: DrawKey, ts: Seq<[V; 6]>)
    ensures
        triads_seq(k, ts).len() == 6 * ts.len(),
    decreases ts.len(),
{
    if ts.len() > 0 {
        lemma_triads_len(k, ts.drop_last());
    }
}

fn push_triad<V: Copy, T>(b: &mut Batcher<V, T>, t: [V; 6])
    requires
        old(b).wf(),
        old(b).pending() >= 6,
    ensures
        final(b).wf(),
        final(b).view() == old(b).view() + triad_seq(old(b).open_key(), t),
        final(b).pending() == old(b).pending() - 6,
        final(b).open_key() == old(b).open_key(),
        final(b).limit() == old(b).limit(),
        old(b).keeps(*final(b), old(b).open_key()),
{
    let ghost k = b.open_key();
    let ghost s0 = *b;
    b.push(t[0]);
    let ghost mid = *b;
    b.push(t[1]);
    proof {
        Batcher::<V, T>::lemma_keeps_trans(s0, mid, *b, k);
    }
    let ghost mid = *b;
    b.push(t[2]);
    proof {
        Batcher::<V, T>::lemma_keeps_trans(s0, mid, *b, k);
    }
    let ghost mid = *b;
    b.push(t[3]);
    proof {
        Batcher::<V, T>::lemma_keeps_trans(s0, mid, *b, k);
    }
    let ghost mid = *b;
    b.push(t[4]);
    proof {
        Batcher::<V, T>::lemma_keeps_trans(s0, mid, *b, k);
    }
    let ghost mid = *b;
    b.push(t[5]);
    proof {
        Batcher::<V, T>::lemma_keeps_trans(s0, mid, *b, k);
    }
    assert(b.view() =~= old(b).view() + triad_seq(k, t));
}

/// Draw an axis triad per transform, `triad(i)` being transform `i`'s three
/// axes as six vertices, connected in order by bones, `bone(i)` joining
/// transform `i` to transform `i + 1`.
#[verifier::rlimit(30)]
pub fn pack_frames<V: Copy, T, F: Fn(usize) -> [V; 6], G: Fn(usize) -> (V, V)>(
    b: &mut Batcher<V, T>,
    viewport: [u32; 4],
    n: usize,
    triad: &F,
    bone: &G,
)
    requires
        old(b).wf(),
        old(b).idle(),
        old(b).view().len() + 8 * n <= u32::MAX + 2,
        forall|i: usize| i < n ==> call_requires(*triad, (i,)),
        forall|i: usize| i + 1 < n ==> call_requires(*bone, (i,)),
    ensures
        final(b).wf(),
        final(b).idle(),
        final(b).limit() == old(b).limit(),
        old(b).keeps(*final(b), plain_key(Topology::Lines, viewport)),
        exists|ts: Seq<[V; 6]>, bs: Seq<(V, V)>|
            {
                &&& ts.len() == n
                &&& bs.len() == (if n > 0 {
                    n - 1
                } else {
                    0
                })
                &&& forall|i: int| 0 <= i < n ==> call_ensures(*triad, (i as usize,), #[trigger] ts[i])
                &&& forall|i: int| 0 <= i < bs.len() ==> call_ensures(*bone, (i as usize,), #[trigger] bs[i])
                &&& final(b).view() == old(b).view() + frames_from(
                    plain_key(Topology::Lines, viewport),
                    ts,
                    bs,
                    per_batch(old(b).limit(), 8),
                    0,
                )
            },
{
    let ghost k = plain_key(Topology::Lines, viewport);
    proof {
        Batcher::<V, T>::lemma_keeps_refl(*old(b), k);
    }
    let per = batch_items(b.batch_limit(), 8);
    let links = if n > 0 {
        n - 1
    } else {
        0
    };
    let mut done: usize = 0;
    let ghost mut tso: Seq<[V; 6]> = Seq::empty();
    let ghost mut bso: Seq<(V, V)> = Seq::empty();
    let ghost v0 = b.view();
    proof {
        b.lemma_bounds();
    }
    while done < n
        invariant
            0 <= done <= n,
            links == (if n > 0 {
                n - 1
            } else {
                0
            }),
            k == plain_key(Topology::Lines, viewport),
            v0 == old(b).view(),
            b.wf(),
            old(b).keeps(*b, k),
            b.idle(),
            b.limit() == old(b).limit(),
            per == per_batch(b.limit(), 8),
            per >= 1,
            b.view().len() + 6 * (n - done) + 2 * (links - bso.len()) <= u32::MAX,
            tso.len() == done,
            bso.len() == (if done < n {
                done
            } else {
                links
            }),
            forall|i: int| 0 <= i < done ==> call_ensures(*triad, (i as usize,), #[trigger] tso[i]),
            forall|i: int| 0 <= i < bso.len() ==> call_ensures(*bone, (i as usize,), #[trigger] bso[i]),
            forall|i: usize| i < n ==> call_requires(*triad, (i,)),
            forall|i: usize| i + 1 < n ==> call_requires(*bone, (i,)),
            forall|ts: Seq<[V; 6]>, bs: Seq<(V, V)>|
                #![trigger frames_from(k, ts, bs, per as nat, done as nat)]
                ts.len() == n && bs.len() == links && ts.subrange(0, done as int) == tso
                    && bs.subrange(0, bso.len() as int) == bso ==> v0 + frames_from(
                    k,
                    ts,
                    bs,
                    per as nat,
                    0,
                ) == b.view() + frames_from(k, ts, bs, per as nat, done as nat),
        decreases n - done,
    {
        let m = if n - done < per {
            n - done
        } else {
            per
        };
        let bones = if done + m > links {
            if links > done {
                links - done
            } else {
                0
            }
        } else {
            m
        };
        assert(bones == bones_in(n as nat, done as nat, m as nat));
        proof {
            b.lemma_bounds();
        }
        let ghost pre = *b;
        b.begin(Topology::Lines, None, viewport, m * 6 + bones * 2);
        proof {
            Batcher::<V, T>::lemma_keeps_trans(*old(b), pre, *b, k);
        }
        let ghost vb = b.view();
        let ghost mut bt: Seq<[V; 6]> = Seq::empty();
        let mut i = done;
        while i < done + m
            invariant
                done <= i <= done + m <= n,
                bones <= m,
                b.wf(),
                old(b).keeps(*b, k),
                b.open_key() == k,
                b.pending() == 6 * (done + m - i) + 2 * bones,
                b.limit() == old(b).limit(),
                bt.len() == i - done,
                forall|j: int| 0 <= j < bt.len() ==> call_ensures(*triad, ((done + j) as usize,), #[trigger] bt[j]),
                forall|j: usize| j < n ==> call_requires(*triad, (j,)),
                b.view() == vb + triads_seq(k, bt),
            decreases done + m - i,
        {
            let t = triad(i);
            let ghost mid = *b;
            push_triad(b, t);
            proof {
                Batcher::<V, T>::lemma_keeps_trans(*old(b), mid, *b, k);
            }
            proof {
                let old_bt = bt;
                bt = bt.push(t);
                assert(bt.drop_last() =~= old_bt);
                assert(b.view() =~= vb + triads_seq(k, bt));
            }
            i = i + 1;
        }
        let ghost vt = b.view();
        let ghost mut bb: Seq<(V, V)> = Seq::empty();
        let mut j = done;
        while j < done + bones
            invariant
                done <= j <= done + bones,
                done + bones <= links,
                links + 1 == n,
                b.wf(),
                old(b).keeps(*b, k),
                b.open_key() == k,
                b.pending() == 2 * (done + bones - j),
                b.limit() == old(b).limit(),
                bb.len() == j - done,
                forall|q: int| 0 <= q < bb.len() ==> call_ensures(*bone, ((done + q) as usize,), #[trigger] bb[q]),
                forall|q: usize| q + 1 < n ==> call_requires(*bone, (q,)),
                b.view() == vt + segs_seq(k, bb),
            decreases done + bones - j,
        {
            let s = bone(j);
            let ghost sg = s;
            let ghost mid = *b;
            push_seg(b, s);
            proof {
                Batcher::<V, T>::lemma_keeps_trans(*old(b), mid, *b, k);
            }
            proof {
                let old_bb = bb;
                bb = bb.push(sg);
                assert(bb.drop_last() =~= old_bb);
                assert(b.view() =~= vt + segs_seq(k, bb));
            }
            j = j + 1;
        }
        proof {
            lemma_triads_len(k, bt);
            lemma_segs_len(k, bb);
            let tso1 = tso + bt;
            let bso1 = bso + bb;
            assert forall|ts: Seq<[V; 6]>, bs: Seq<(V, V)>|
                #![trigger frames_from(k, ts, bs, per as nat, (done + m) as nat)]
                ts.len() == n && bs.len() == links && ts.subrange(0, (done + m) as int) == tso1
                    && bs.subrange(0, bso1.len() as int) == bso1 implies v0 + frames_from(
                    k,
                    ts,
                    bs,
                    per as nat,
                    0,
                ) == b.view() + frames_from(k, ts, bs, per as nat, (done + m) as nat) by {
                assert(ts.subrange(0, done as int) =~= ts.subrange(0, (done + m) as int).subrange(
                    0,
                    done as int,
                ));
                assert(tso1.subrange(0, done as int) =~= tso);
                assert(bs.subrange(0, bso.len() as int) =~= bs.subrange(0, bso1.len() as int).subrange(
                    0,
                    bso.len() as int,
                ));
                assert(bso1.subrange(0, bso.len() as int) =~= bso);
                assert(ts.subrange(done as int, (done + m) as int) =~= tso1.subrange(
                    done as int,
                    (done + m) as int,
                ));
                assert(tso1.subrange(done as int, (done + m) as int) =~= bt);
                assert(bs.subrange(done as int, (done + bones) as int) =~= bso1.subrange(
                    done as int,
                    (done + bones) as int,
                ));
                assert(bso1.subrange(done as int, (done + bones) as int) =~= bb);
                assert(v0 + frames_from(k, ts, bs, per as nat, 0) == vb + frames_from(
                    k,
                    ts,
                    bs,
                    per as nat,
                    done as nat,
                ));
                assert(b.view() + frames_from(k, ts, bs, per as nat, (done + m) as nat) =~= vb
                    + frames_from(k, ts, bs, per as nat, done as nat));
            }
            tso = tso1;
            bso = bso1;
            assert forall|q: int| 0 <= q < done + m implies call_ensures(*triad, (q as usize,), #[trigger] tso[q]) by {
                if q >= done {
                    assert(tso[q] == bt[q - done]);
                }
            }
            assert forall|q: int| 0 <= q < bso.len() implies call_ensures(*bone, (q as usize,), #[trigger] bso[q]) by {
                if q >= done {
                    assert(bso[q] == bb[q - done]);
                }
            }
        }
        done = done + m;
    }
    proof {
        assert(tso.subrange(0, n as int) =~= tso);
        assert(bso.subrange(0, bso.len() as int) =~= bso);
        assert(frames_from(k, tso, bso, per as nat, n as nat) =~= Seq::<(DrawKey, V)>::empty());
        assert(b.view() =~= v0 + frames_from(k, tso, bso, per as nat, 0));
    }
}

} // verus!
