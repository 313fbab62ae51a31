//! The clips in force, each taken on a render target, and the stencil clip
//! plane of each target: how many of the clips it holds, and whether clips
//! were popped off it since its stencil was last rebuilt.
use vstd::prelude::*;

use crate::renderer::RenderTarget;
use crate::state_stack::{lemma_forget_clips_consistent, strictly_increasing, StackView};

verus! {

/// How many of `entries` were taken on `t`.
pub open spec fn count_on(entries: Seq<RenderTarget>, t: RenderTarget) -> nat
    decreases entries.len(),
{
    if entries.len() == 0 {
        0
    } else {
        count_on(entries.drop_last(), t) + if entries.last() == t {
            1nat
        } else {
            0nat
        }
    }
}

/// `entries` without those taken on `t`, in order.
pub open spec fn entries_off(entries: Seq<RenderTarget>, t: RenderTarget) -> Seq<RenderTarget>
    decreases entries.len(),
{
    if entries.len() == 0 {
        Seq::empty()
    } else {
        let rest = entries_off(entries.drop_last(), t);
        if entries.last() == t {
            rest
        } else {
            rest.push(entries.last())
        }
    }
}

/// The positions of the entries taken on `t`, ascending.
pub open spec fn positions_on(entries: Seq<RenderTarget>, t: RenderTarget) -> Seq<usize>
    decreases entries.len(),
{
    if entries.len() == 0 {
        Seq::empty()
    } else {
        let rest = positions_on(entries.drop_last(), t);
        if entries.last() == t {
            rest.push((entries.len() - 1) as usize)
        } else {
            rest
        }
    }
}

/// The state of a render target's stencil clip plane.
#[derive(Copy, Clone, Debug, PartialEq, Eq, Structural)]
pub struct ClipPlane {
    /// How many of the clips in force were taken on the target.
    pub count: usize,
    /// Whether clips were popped off the target since its stencil was last
    /// rebuilt from the clips in force.
    pub dirty: bool,
}

/// The plane recorded for `t`, the last one where several are.
pub open spec fn plane_in(planes: Seq<(RenderTarget, ClipPlane)>, t: RenderTarget) -> Option<ClipPlane>
    decreases planes.len(),
{
    if planes.len() == 0 {
        None
    } else if planes.last().0 == t {
        Some(planes.last().1)
    } else {
        plane_in(planes.drop_last(), t)
    }
}

/// No target has two planes.
pub open spec fn distinct_targets(planes: Seq<(RenderTarget, ClipPlane)>) -> bool {
    forall|i: int, j: int| 0 <= i < j < planes.len() ==> #[trigger] planes[i].0 != #[trigger] planes[j].0
}

proof fn lemma_count_on_bounded(entries: Seq<RenderTarget>, t: RenderTarget)
    ensures
        count_on(entries, t) <= entries.len(),
    decreases entries.len(),
{
    if entries.len() > 0 {
        lemma_count_on_bounded(entries.drop_last(), t);
    }
}

proof fn lemma_count_on_prefix(entries: Seq<RenderTarget>, t: RenderTarget, n: int)
    requires
        0 <= n <= entries.len(),
    ensures
        count_on(entries.take(n), t) <= count_on(entries, t),
    decreases entries.len(),
{
    if n < entries.len() {
        assert(entries.drop_last().take(n) =~= entries.take(n));
        lemma_count_on_prefix(entries.drop_last(), t, n);
    } else {
        assert(entries.take(n) =~= entries);
    }
}

proof fn lemma_count_on_member(entries: Seq<RenderTarget>, k: int)
    requires
        0 <= k < entries.len(),
    ensures
        count_on(entries, entries[k]) > 0,
    decreases entries.len(),
{
    if k < entries.len() - 1 {
        assert(entries.drop_last()[k] == entries[k]);
        lemma_count_on_member(entries.drop_last(), k);
    }
}

proof fn lemma_entries_off(entries: Seq<RenderTarget>, t: RenderTarget, u: RenderTarget)
    ensures
        count_on(entries_off(entries, t), u) == if u == t {
            0
        } else {
            count_on(entries, u)
        },
        entries_off(entries, t).len() + count_on(entries, t) == entries.len(),
    decreases entries.len(),
{
    if entries.len() > 0 {
        let rest = entries_off(entries.drop_last(), t);
        lemma_entries_off(entries.drop_last(), t, u);
        if entries.last() != t {
            assert(rest.push(entries.last()).drop_last() =~= rest);
        }
    }
}

proof fn lemma_positions_on(entries: Seq<RenderTarget>, t: RenderTarget)
    requires
        entries.len() <= usize::MAX,
    ensures
        strictly_increasing(positions_on(entries, t)),
        positions_on(entries, t).len() == count_on(entries, t),
        forall|k: int|
            0 <= k < positions_on(entries, t).len() ==> #[trigger] positions_on(entries, t)[k] < entries.len()
                && entries[positions_on(entries, t)[k] as int] == t,
    decreases entries.len(),
{
    if entries.len() > 0 {
        let rest = entries.drop_last();
        lemma_positions_on(rest, t);
        let p = positions_on(rest, t);
        let q = positions_on(entries, t);
        assert forall|k: int| 0 <= k < p.len() implies #[trigger] entries[p[k] as int] == t by {
            assert(rest[p[k] as int] == t);
        }
        if entries.last() == t {
            let last = (entries.len() - 1) as usize;
            assert(q == p.push(last));
            assert forall|a: int, b: int| 0 <= a < b < q.len() implies #[trigger] q[a] < #[trigger] q[b] by {
                assert(q[a] == p[a]);
                if b < p.len() {
                    assert(q[b] == p[b]);
                    assert(p[a] < p[b]);
                } else {
                    assert(q[b] == last);
                    assert(p[a] < rest.len());
                }
            }
            assert forall|k: int| 0 <= k < q.len() implies #[trigger] q[k] < entries.len()
                && entries[q[k] as int] == t by {
                if k < p.len() {
                    assert(q[k] == p[k]);
                    assert(p[k] < rest.len());
                } else {
                    assert(q[k] == last);
                }
            }
        }
    }
}

proof fn lemma_plane_in_absent(planes: Seq<(RenderTarget, ClipPlane)>, t: RenderTarget)
    ensures
        plane_in(planes, t) is None <==> forall|k: int| 0 <= k < planes.len() ==> #[trigger] planes[k].0 != t,
    decreases planes.len(),
{
    if planes.len() > 0 {
        let rest = planes.drop_last();
        lemma_plane_in_absent(rest, t);
        if plane_in(planes, t) is None {
            assert forall|k: int| 0 <= k < planes.len() implies #[trigger] planes[k].0 != t by {
                if k < planes.len() - 1 {
                    assert(rest[k] == planes[k]);
                }
            }
        } else if planes.last().0 != t {
            let k = choose|k: int| 0 <= k < rest.len() && #[trigger] rest[k].0 == t;
            assert(planes[k] == rest[k]);
        }
    }
}

proof fn lemma_plane_in_at(planes: Seq<(RenderTarget, ClipPlane)>, i: int)
    requires
        distinct_targets(planes),
        0 <= i < planes.len(),
    ensures
        plane_in(planes, planes[i].0) == Some(planes[i].1),
    decreases planes.len(),
{
    if i < planes.len() - 1 {
        let rest = planes.drop_last();
        assert(planes[i].0 != planes[planes.len() - 1].0);
        assert(rest[i] == planes[i]);
        lemma_plane_in_at(rest, i);
    }
}

proof fn lemma_plane_in_update(
    planes: Seq<(RenderTarget, ClipPlane)>,
    i: int,
    plane: ClipPlane,
    u: RenderTarget,
)
    requires
        distinct_targets(planes),
        0 <= i < planes.len(),
    ensures
        distinct_targets(planes.update(i, (planes[i].0, plane))),
        plane_in(planes.update(i, (planes[i].0, plane)), u) == if u == planes[i].0 {
            Some(plane)
        } else {
            plane_in(planes, u)
        },
{
    let next = planes.update(i, (planes[i].0, plane));
    assert forall|a: int, b: int| 0 <= a < b < next.len() implies #[trigger] next[a].0 != #[trigger] next[b].0 by {
        assert(planes[a].0 != planes[b].0);
    }
    if u == planes[i].0 {
        lemma_plane_in_at(next, i);
    } else {
        lemma_plane_in_absent(planes, u);
        lemma_plane_in_absent(next, u);
        if plane_in(planes, u) is Some {
            let k = choose|k: int| 0 <= k < planes.len() && #[trigger] planes[k].0 == u;
            lemma_plane_in_at(planes, k);
            assert(next[k] == planes[k]);
            lemma_plane_in_at(next, k);
        }
    }
}

proof fn lemma_plane_in_remove(planes: Seq<(RenderTarget, ClipPlane)>, i: int, u: RenderTarget)
    requires
        distinct_targets(planes),
        0 <= i < planes.len(),
    ensures
        distinct_targets(planes.remove(i)),
        plane_in(planes.remove(i), u) == if u == planes[i].0 {
            None
        } else {
            plane_in(planes, u)
        },
{
    let next = planes.remove(i);
    assert forall|a: int, b: int| 0 <= a < b < next.len() implies #[trigger] next[a].0 != #[trigger] next[b].0 by {
        let a0 = if a < i { a } else { a + 1 };
        let b0 = if b < i { b } else { b + 1 };
        assert(next[a] == planes[a0] && next[b] == planes[b0]);
        assert(planes[a0].0 != planes[b0].0);
    }
    lemma_plane_in_absent(next, u);
    lemma_plane_in_absent(planes, u);
    if u == planes[i].0 {
        assert forall|k: int| 0 <= k < next.len() implies #[trigger] next[k].0 != u by {
            let k0 = if k < i { k } else { k + 1 };
            assert(next[k] == planes[k0]);
            assert(planes[k0].0 != planes[i].0);
        }
    } else if plane_in(planes, u) is Some {
        let k = choose|k: int| 0 <= k < planes.len() && #[trigger] planes[k].0 == u;
        lemma_plane_in_at(planes, k);
        let k1 = if k < i { k } else { k - 1 };
        assert(next[k1] == planes[k]);
        lemma_plane_in_at(next, k1);
    } else {
        assert forall|k: int| 0 <= k < next.len() implies #[trigger] next[k].0 != u by {
            let k0 = if k < i { k } else { k + 1 };
            assert(next[k] == planes[k0]);
        }
    }
}

proof fn lemma_plane_in_push(
    planes: Seq<(RenderTarget, ClipPlane)>,
    t: RenderTarget,
    plane: ClipPlane,
)
    requires
        distinct_targets(planes),
        plane_in(planes, t) is None,
    ensures
        distinct_targets(planes.push((t, plane))),
{
    lemma_plane_in_absent(planes, t);
    let next = planes.push((t, plane));
    assert forall|a: int, b: int| 0 <= a < b < next.len() implies #[trigger] next[a].0 != #[trigger] next[b].0 by {
        if b < planes.len() {
            assert(planes[a].0 != planes[b].0);
        } else {
            assert(next[a] == planes[a]);
        }
    }
}

/// An index at which an entry taken on `t` stands, when there is one.
proof fn lemma_entry_on(entries: Seq<RenderTarget>, t: RenderTarget) -> (k: int)
    requires
        count_on(entries, t) > 0,
    ensures
        0 <= k < entries.len(),
        entries[k] == t,
    decreases entries.len(),
{
    if entries.last() == t {
        entries.len() - 1
    } else {
        let k = lemma_entry_on(entries.drop_last(), t);
        assert(entries.drop_last()[k] == entries[k]);
        k
    }
}

/// An index at which the `k`-th entry of `entries_off(entries, t)` stands in `entries`.
proof fn lemma_entries_off_index(entries: Seq<RenderTarget>, t: RenderTarget, k: int) -> (j: int)
    requires
        0 <= k < entries_off(entries, t).len(),
    ensures
        0 <= j < entries.len(),
        entries[j] == entries_off(entries, t)[k],
        entries[j] != t,
    decreases entries.len(),
{
    let rest = entries.drop_last();
    let off = entries_off(rest, t);
    if entries.last() != t && k == off.len() {
        (entries.len() - 1) as int
    } else {
        let j = lemma_entries_off_index(rest, t, k);
        assert(rest[j] == entries[j]);
        j
    }
}

/// The clips in force, innermost last, each recorded by the render target it
/// was taken on, and the clip plane of each target that has one.
pub struct ClipPlanes {
    entries: Vec<RenderTarget>,
    planes: Vec<(RenderTarget, ClipPlane)>,
}

impl ClipPlanes {
    /// The targets of the clips in force, innermost last.
    pub closed spec fn spec_entries(&self) -> Seq<RenderTarget> {
        self.entries@
    }

    /// The clip plane of `t`, if it has one.
    pub closed spec fn spec_plane(&self, t: RenderTarget) -> Option<ClipPlane> {
        plane_in(self.planes@, t)
    }

    /// One plane per target.
    pub closed spec fn wf(&self) -> bool {
        distinct_targets(self.planes@)
    }

    /// Every plane counts the clips in force taken on its target, and the
    /// target of every clip in force has a plane.
    pub open spec fn counts_agree(&self) -> bool {
        &&& forall|t: RenderTarget|
            #[trigger] self.spec_plane(t) is Some ==> self.spec_plane(t)->0.count == count_on(
                self.spec_entries(),
                t,
            )
        &&& forall|k: int|
            0 <= k < self.spec_entries().len() ==> #[trigger] self.spec_plane(self.spec_entries()[k]) is Some
    }

    /// Well-formed, with the counts agreeing.
    pub open spec fn valid(&self) -> bool {
        self.wf() && self.counts_agree()
    }

    /// No clips and no planes.
    pub fn new() -> (r: Self)
        ensures
            r.valid(),
            r.spec_entries().len() == 0,
            forall|t: RenderTarget| #[trigger] r.spec_plane(t) is None,
    {
        ClipPlanes { entries: Vec::new(), planes: Vec::new() }
    }

    /// The number of clips in force.
    pub fn len(&self) -> (r: usize)
        ensures
            r == self.spec_entries().len(),
    {
        self.entries.len()
    }

    /// Where the plane of `t` is stored, if it has one.
    fn find(&self, t: RenderTarget) -> (r: Option<usize>)
        requires
            self.wf(),
        ensures
            r is None <==> self.spec_plane(t) is None,
            r matches Some(i) ==> i < self.planes@.len() && self.planes@[i as int].0 == t
                && self.spec_plane(t) == Some(self.planes@[i as int].1),
    {
        let mut i: usize = 0;
        while i < self.planes.len()
            invariant
                self.wf(),
                i <= self.planes@.len(),
                forall|k: int| 0 <= k < i ==> #[trigger] self.planes@[k].0 != t,
            decreases self.planes@.len() - i,
        {
            if self.planes[i].0 == t {
                proof {
                    lemma_plane_in_at(self.planes@, i as int);
                }
                return Some(i);
            }
            i += 1;
        }
        proof {
            lemma_plane_in_absent(self.planes@, t);
        }
        None
    }

    /// The clip plane of `t`, if it has one.
    pub fn plane(&self, t: RenderTarget) -> (r: Option<ClipPlane>)
        requires
            self.valid(),
        ensures
            r == self.spec_plane(t),
    {
        match self.find(t) {
            Some(i) => Some(self.planes[i].1),
            None => None,
        }
    }

    /// Whether the stencil clip gates draws into `t`: some clip in force was
    /// taken on it.
    pub fn clip_active(&self, t: RenderTarget) -> (r: bool)
        requires
            self.valid(),
        ensures
            r == (self.spec_plane(t) is Some && self.spec_plane(t)->0.count != 0),
    {
        match self.find(t) {
            Some(i) => self.planes[i].1.count != 0,
            None => false,
        }
    }

    /// Records a clip taken on `t`: its plane counts one more clip, and a
    /// target without a plane gets one, clean.
    pub fn push(&mut self, t: RenderTarget)
        requires
            old(self).valid(),
            old(self).spec_entries().len() < usize::MAX,
        ensures
            final(self).valid(),
            final(self).spec_entries() == old(self).spec_entries().push(t),
            forall|u: RenderTarget|
                #[trigger] final(self).spec_plane(u) == if u == t {
                    Some(
                        ClipPlane {
                            count: count_on(final(self).spec_entries(), t) as usize,
                            dirty: old(self).spec_plane(t) is Some && old(self).spec_plane(t)->0.dirty,
                        },
                    )
                } else {
                    old(self).spec_plane(u)
                },
    {
        let ghost before = self.planes@;
        let ghost entries = self.entries@;
        proof {
            lemma_count_on_bounded(entries, t);
        }
        match self.find(t) {
            Some(i) => {
                let p = self.planes[i].1;
                self.planes.set(i, (t, ClipPlane { count: p.count + 1, dirty: p.dirty }));
                proof {
                    assert forall|u: RenderTarget| #[trigger] plane_in(self.planes@, u) == if u == t {
                        Some(ClipPlane { count: (p.count + 1) as usize, dirty: p.dirty })
                    } else {
                        plane_in(before, u)
                    } by {
                        lemma_plane_in_update(before, i as int, ClipPlane { count: (p.count + 1) as usize, dirty: p.dirty }, u);
                    }
                    lemma_plane_in_update(before, i as int, ClipPlane { count: (p.count + 1) as usize, dirty: p.dirty }, t);
                }
            },
            None => {
                self.planes.push((t, ClipPlane { count: 1, dirty: false }));
                proof {
                    lemma_plane_in_push(before, t, ClipPlane { count: 1, dirty: false });
                    assert forall|u: RenderTarget| #[trigger] plane_in(self.planes@, u) == if u == t {
                        Some(ClipPlane { count: 1, dirty: false })
                    } else {
                        plane_in(before, u)
                    } by {
                        assert(self.planes@.drop_last() =~= before);
                    }
                    if count_on(entries, t) > 0 {
                        let k = lemma_entry_on(entries, t);
                        assert(old(self).spec_plane(old(self).spec_entries()[k]) is Some);
                    }
                }
            },
        }
        self.entries.push(t);
        proof {
            assert(self.entries@.drop_last() =~= entries);
            assert forall|u: RenderTarget| #[trigger] self.spec_plane(u) is Some implies self.spec_plane(u)->0.count
                == count_on(self.entries@, u) by {
                if u != t {
                    assert(old(self).spec_plane(u) is Some);
                }
            }
            assert forall|k: int| 0 <= k < self.entries@.len() implies #[trigger] self.spec_plane(
                self.entries@[k],
            ) is Some by {
                if k < entries.len() {
                    assert(self.entries@[k] == entries[k]);
                    assert(old(self).spec_plane(old(self).spec_entries()[k]) is Some);
                }
            }
        }
    }

    /// Drops the clips past the first `depth`, as a restore does: the plane
    /// of each target that loses clips counts fewer and is marked dirty, to
    /// be rebuilt before its next draw.
    pub fn pop_to(&mut self, depth: usize)
        requires
            old(self).valid(),
        ensures
            final(self).valid(),
            final(self).spec_entries() == if depth < old(self).spec_entries().len() {
                old(self).spec_entries().take(depth as int)
            } else {
                old(self).spec_entries()
            },
            forall|u: RenderTarget|
                #[trigger] final(self).spec_plane(u) == if old(self).spec_plane(u) is Some {
                    Some(
                        ClipPlane {
                            count: count_on(final(self).spec_entries(), u) as usize,
                            dirty: old(self).spec_plane(u)->0.dirty || count_on(final(self).spec_entries(), u)
                                < count_on(old(self).spec_entries(), u),
                        },
                    )
                } else {
                    None::<ClipPlane>
                },
    {
        let ghost old_entries = self.entries@;
        let ghost start = *self;
        let n = self.entries.len();
        proof {
            assert(old_entries.take(old_entries.len() as int) =~= old_entries);
            assert forall|u: RenderTarget| #[trigger] self.spec_plane(u) == if start.spec_plane(u) is Some {
                Some(
                    ClipPlane {
                        count: count_on(self.entries@, u) as usize,
                        dirty: start.spec_plane(u)->0.dirty || count_on(self.entries@, u) < count_on(old_entries, u),
                    },
                )
            } else {
                None::<ClipPlane>
            } by {
                lemma_count_on_bounded(old_entries, u);
            }
        }
        while self.entries.len() > depth
            invariant
                self.wf(),
                old_entries.len() == n,
                self.entries@ == old_entries.take(self.entries@.len() as int),
                self.entries@.len() <= old_entries.len(),
                old_entries.len() > depth ==> self.entries@.len() >= depth,
                old_entries.len() <= depth ==> self.entries@ == old_entries,
                forall|k: int| 0 <= k < old_entries.len() ==> #[trigger] start.spec_plane(old_entries[k]) is Some,
                forall|u: RenderTarget|
                    #[trigger] self.spec_plane(u) == if start.spec_plane(u) is Some {
                        Some(
                            ClipPlane {
                                count: count_on(self.entries@, u) as usize,
                                dirty: start.spec_plane(u)->0.dirty || count_on(self.entries@, u) < count_on(
                                    old_entries,
                                    u,
                                ),
                            },
                        )
                    } else {
                        None::<ClipPlane>
                    },
            decreases self.entries@.len(),
        {
            let ghost current = self.entries@;
            let ghost planes = self.planes@;
            let ghost head = *self;
            let t = self.entries[self.entries.len() - 1];
            assert(old_entries[current.len() - 1] == t);
            assert(start.spec_plane(old_entries[current.len() - 1]) is Some);
            assert(self.spec_plane(t) is Some);
            self.entries.pop();
            let ghost after = self.entries@;
            assert(current.drop_last() =~= after);
            let i = self.find(t).unwrap();
            let p = self.planes[i].1;
            proof {
                lemma_count_on_member(current, current.len() - 1);
                lemma_count_on_prefix(old_entries, t, current.len() as int);
                lemma_count_on_bounded(current, t);
            }
            self.planes.set(i, (t, ClipPlane { count: p.count - 1, dirty: true }));
            proof {
                assert(after =~= old_entries.take(after.len() as int));
                assert forall|u: RenderTarget| #[trigger] self.spec_plane(u) == if start.spec_plane(u) is Some {
                    Some(
                        ClipPlane {
                            count: count_on(after, u) as usize,
                            dirty: start.spec_plane(u)->0.dirty || count_on(after, u) < count_on(old_entries, u),
                        },
                    )
                } else {
                    None::<ClipPlane>
                } by {
                    lemma_plane_in_update(planes, i as int, ClipPlane { count: (p.count - 1) as usize, dirty: true }, u);
                    lemma_count_on_bounded(old_entries, u);
                    lemma_count_on_bounded(current, u);
                    assert(plane_in(planes, u) == head.spec_plane(u));
                    assert(count_on(current, u) == count_on(after, u) + if u == t { 1nat } else { 0nat });
                }
            }
        }
        proof {
            assert forall|k: int| 0 <= k < self.entries@.len() implies #[trigger] self.spec_plane(
                self.entries@[k],
            ) is Some by {
                assert(self.entries@[k] == old_entries[k]);
            }
            assert forall|u: RenderTarget| #[trigger] self.spec_plane(u) is Some implies self.spec_plane(u)->0.count
                == count_on(self.entries@, u) by {
                lemma_count_on_bounded(self.entries@, u);
            }
        }
    }

    /// Forgets every clip taken on `t` and its plane, as when the target goes
    /// away, and gives the positions those clips held, ascending. A target
    /// without a plane holds no clip, and nothing changes.
    pub fn forget_target(&mut self, t: RenderTarget) -> (removed: Vec<usize>)
        requires
            old(self).valid(),
        ensures
            final(self).valid(),
            removed@ == positions_on(old(self).spec_entries(), t),
            strictly_increasing(removed@),
            forall|k: int| 0 <= k < removed@.len() ==> #[trigger] removed@[k] < old(self).spec_entries().len(),
            removed@.len() == count_on(old(self).spec_entries(), t),
            old(self).spec_plane(t) is None ==> final(self).spec_entries() == old(self).spec_entries(),
            old(self).spec_plane(t) is Some ==> final(self).spec_entries() == entries_off(
                old(self).spec_entries(),
                t,
            ),
            final(self).spec_plane(t) is None,
            forall|u: RenderTarget| u != t ==> #[trigger] final(self).spec_plane(u) == old(self).spec_plane(u),
    {
        let ghost entries = self.entries@;
        let n = self.entries.len();
        proof {
            lemma_positions_on(entries, t);
        }
        let i = match self.find(t) {
            Some(i) => i,
            None => {
                proof {
                    if count_on(entries, t) > 0 {
                        let j = positions_on(entries, t)[0] as int;
                        assert(entries[j] == t);
                        assert(self.spec_plane(entries[j]) is Some);
                    }
                    assert(positions_on(entries, t) =~= Seq::<usize>::empty());
                }
                return Vec::new();
            },
        };
        let mut kept: Vec<RenderTarget> = Vec::new();
        let mut removed: Vec<usize> = Vec::new();
        let mut k: usize = 0;
        assert(entries.take(0) =~= Seq::<RenderTarget>::empty());
        while k < self.entries.len()
            invariant
                self.entries@ == entries,
                k <= entries.len(),
                entries.len() <= usize::MAX,
                kept@ == entries_off(entries.take(k as int), t),
                removed@ == positions_on(entries.take(k as int), t),
            decreases entries.len() - k,
        {
            let e = self.entries[k];
            let ghost next = entries.take(k + 1);
            assert(next.drop_last() =~= entries.take(k as int));
            assert(next.last() == e);
            if e == t {
                removed.push(k);
            } else {
                kept.push(e);
            }
            k += 1;
        }
        assert(entries.take(k as int) =~= entries);
        let ghost planes = self.planes@;
        self.entries = kept;
        self.planes.remove(i);
        proof {
            lemma_plane_in_remove(planes, i as int, t);
            assert forall|u: RenderTarget| u != t implies #[trigger] self.spec_plane(u) == plane_in(planes, u) by {
                lemma_plane_in_remove(planes, i as int, u);
            }
            assert forall|u: RenderTarget| #[trigger] self.spec_plane(u) is Some implies self.spec_plane(u)->0.count
                == count_on(self.entries@, u) by {
                lemma_plane_in_remove(planes, i as int, u);
                lemma_entries_off(entries, t, u);
                assert(old(self).spec_plane(u) == plane_in(planes, u));
            }
            assert forall|m: int| 0 <= m < self.entries@.len() implies #[trigger] self.spec_plane(
                self.entries@[m],
            ) is Some by {
                let j = lemma_entries_off_index(entries, t, m);
                assert(old(self).spec_plane(old(self).spec_entries()[j]) is Some);
                assert(plane_in(planes, entries[j]) is Some);
                lemma_plane_in_remove(planes, i as int, entries[j]);
            }
        }
        removed
    }

    /// Rebuilds the plane of `t` if it is dirty, and says whether it was: the
    /// caller replays the clips in force on `t` into its stencil. A plane left
    /// counting no clip goes.
    pub fn reconcile(&mut self, t: RenderTarget) -> (replay: bool)
        requires
            old(self).valid(),
        ensures
            final(self).valid(),
            final(self).spec_entries() == old(self).spec_entries(),
            replay == (old(self).spec_plane(t) is Some && old(self).spec_plane(t)->0.dirty),
            replay ==> final(self).spec_plane(t) == if old(self).spec_plane(t)->0.count == 0 {
                None::<ClipPlane>
            } else {
                Some(ClipPlane { count: old(self).spec_plane(t)->0.count, dirty: false })
            },
            !replay ==> final(self).spec_plane(t) == old(self).spec_plane(t),
            forall|u: RenderTarget| u != t ==> #[trigger] final(self).spec_plane(u) == old(self).spec_plane(u),
    {
        let i = match self.find(t) {
            Some(i) => i,
            None => return false,
        };
        let p = self.planes[i].1;
        if !p.dirty {
            return false;
        }
        let ghost planes = self.planes@;
        if p.count == 0 {
            self.planes.remove(i);
            proof {
                assert forall|u: RenderTarget| #[trigger] self.spec_plane(u) == if u == t {
                    None::<ClipPlane>
                } else {
                    plane_in(planes, u)
                } by {
                    lemma_plane_in_remove(planes, i as int, u);
                }
                lemma_plane_in_remove(planes, i as int, t);
                assert(old(self).spec_plane(t) is Some);
                assert forall|k: int| 0 <= k < self.entries@.len() implies #[trigger] self.spec_plane(
                    self.entries@[k],
                ) is Some by {
                    assert(old(self).spec_plane(old(self).spec_entries()[k]) is Some);
                    if self.entries@[k] == t {
                        lemma_count_on_member(self.entries@, k);
                    }
                }
                assert forall|u: RenderTarget| #[trigger] self.spec_plane(u) is Some implies self.spec_plane(u)->0.count
                    == count_on(self.entries@, u) by {
                    assert(old(self).spec_plane(u) is Some);
                }
            }
        } else {
            self.planes.set(i, (t, ClipPlane { count: p.count, dirty: false }));
            proof {
                assert forall|u: RenderTarget| #[trigger] self.spec_plane(u) == if u == t {
                    Some(ClipPlane { count: p.count, dirty: false })
                } else {
                    plane_in(planes, u)
                } by {
                    lemma_plane_in_update(planes, i as int, ClipPlane { count: p.count, dirty: false }, u);
                }
                lemma_plane_in_update(planes, i as int, ClipPlane { count: p.count, dirty: false }, t);
                assert(old(self).spec_plane(t) is Some);
                assert forall|k: int| 0 <= k < self.entries@.len() implies #[trigger] self.spec_plane(
                    self.entries@[k],
                ) is Some by {
                    assert(old(self).spec_plane(old(self).spec_entries()[k]) is Some);
                }
                assert forall|u: RenderTarget| #[trigger] self.spec_plane(u) is Some implies self.spec_plane(u)->0.count
                    == count_on(self.entries@, u) by {
                    assert(old(self).spec_plane(u) is Some);
                }
            }
        }
        true
    }
}

/// Forgetting a target keeps the state stack in step with the clips in
/// force: when the stack counts exactly the clips in force, forgetting the
/// positions of those taken on `t` leaves it consistent and counting exactly
/// the clips left. Past the depth limit the level saved at the limit keeps
/// its clip depth, so this is stated below the limit.
pub proof fn lemma_forget_target_keeps_stack_in_step<S>(
    v: StackView<S>,
    entries: Seq<RenderTarget>,
    t: RenderTarget,
)
    requires
        v.consistent(),
        !v.is_saturated(),
        v.clips == entries.len(),
    ensures
        v.after_forget_clips(positions_on(entries, t)).consistent(),
        v.after_forget_clips(positions_on(entries, t)).clips == entries_off(entries, t).len(),
{
    lemma_positions_on(entries, t);
    lemma_entries_off(entries, t, t);
    lemma_forget_clips_consistent(v, positions_on(entries, t));
}

} // verus!
