//! The surface tree walker: a depth-first walk over a surface and the
//! sub-surfaces below it, which hands out one surface at a time together with
//! the location that the sub-surface positions on the way down add up to.
//!
//! The walk keeps its own stack and the caller decides after each surface
//! whether to ask for the next: stopping early is not asking again.

use vstd::prelude::*;
use crate::geometry::Point;
use crate::store::SurfaceStore;
use crate::surface::{Role, Surface, SurfaceId};

verus! {

/// Below which surfaces a walk goes on to the sub-surfaces.
#[derive(Clone, Copy, Debug, PartialEq, Eq, Structural)]
pub enum Descent {
    /// Below every surface.
    All,
    /// Below surfaces that show a buffer: what an unmapped surface has below
    /// it is hidden with it.
    Mapped,
    /// Below surfaces that show a buffer once their attached change is applied.
    MappedAfterCommit,
}

/// One step of a walk: a surface, and where it lies.
#[derive(Clone, Copy, Debug, PartialEq, Eq, Structural)]
pub struct Visit {
    pub surface: SurfaceId,
    pub location: Point,
}

impl Descent {
    /// Whether a walk under this rule goes below `surface`.
    pub open spec fn spec_enters(self, surface: &Surface) -> bool {
        match self {
            Descent::All => true,
            Descent::Mapped => surface.spec_size() is Some,
            Descent::MappedAfterCommit => surface.spec_state_after_commit().buffer_size is Some,
        }
    }

    #[verifier::when_used_as_spec(spec_enters)]
    pub fn enters(self, surface: &Surface) -> (b: bool)
        ensures
            b == self.spec_enters(surface),
    {
        match self {
            Descent::All => true,
            Descent::Mapped => surface.size().is_some(),
            Descent::MappedAfterCommit => surface.state_after_commit().buffer_size.is_some(),
        }
    }
}

impl Surface {
    /// Where the surface lies when its parent lies at `origin`: a sub-surface
    /// adds its position, any other surface lies at `origin` itself.
    pub open spec fn spec_place(&self, origin: Point) -> Point {
        if self.role == Role::Subsurface {
            origin.spec_offset(self.position)
        } else {
            origin
        }
    }

    #[verifier::when_used_as_spec(spec_place)]
    pub fn place(&self, origin: Point) -> (p: Point)
        ensures
            p == self.spec_place(origin),
    {
        if self.role == Role::Subsurface {
            origin.offset(self.position)
        } else {
            origin
        }
    }
}

impl SurfaceStore {
    /// The walk from `id` downwards, in the order of the visits: the surface
    /// itself, then, where the rule lets the walk go below it, its
    /// sub-surfaces from the top-most to the bottom-most, each followed by
    /// all that lies below it.
    pub open spec fn walk(&self, id: SurfaceId, origin: Point, rule: Descent) -> Seq<Visit>
        decreases self.height(id), self.surface(id).children@.len() + 1,
        when self.wf() && self.contains(id)
    {
        let s = self.surface(id);
        let here = s.spec_place(origin);
        let first = seq![Visit { surface: id, location: here }];
        if rule.spec_enters(&s) {
            first + self.walk_below(id, here, rule, s.children@.len())
        } else {
            first
        }
    }

    /// The walks from the first `upto` sub-surfaces of `id`, the last of them
    /// first, with `id` lying at `here`.
    pub open spec fn walk_below(&self, id: SurfaceId, here: Point, rule: Descent, upto: nat) -> Seq<
        Visit,
    >
        decreases self.height(id), upto,
        when self.wf() && self.contains(id) && upto <= self.surface(id).children@.len()
    {
        if upto == 0 {
            Seq::empty()
        } else {
            self.walk(self.surface(id).children@[upto - 1], here, rule) + self.walk_below(
                id,
                here,
                rule,
                (upto - 1) as nat,
            )
        }
    }
}

impl SurfaceStore {
    /// The walk from `root` where the store knows `root`, and no visit at
    /// all where it does not.
    pub open spec fn tour(&self, root: SurfaceId, origin: Point, rule: Descent) -> Seq<Visit> {
        if self.contains(root) {
            self.walk(root, origin, rule)
        } else {
            Seq::empty()
        }
    }
}

/// The walks that a stack of starting points stands for, the top of the
/// stack first.
pub open spec fn pending(store: &SurfaceStore, stack: Seq<(SurfaceId, Point)>, rule: Descent) -> Seq<
    Visit,
>
    decreases stack.len(),
{
    if stack.len() == 0 {
        Seq::empty()
    } else {
        store.walk(stack.last().0, stack.last().1, rule) + pending(store, stack.drop_last(), rule)
    }
}

/// A walk in progress.
pub struct Walker {
    stack: Vec<(SurfaceId, Point)>,
    rule: Descent,
}

impl Walker {
    /// The walker fits the store: all it still has to start from is there.
    pub closed spec fn wf(&self, store: &SurfaceStore) -> bool {
        forall|i: int| 0 <= i < self.stack@.len() ==> store.contains((#[trigger] self.stack@[i]).0)
    }

    /// The visits that are still to come, in their order.
    pub closed spec fn remaining(&self, store: &SurfaceStore) -> Seq<Visit> {
        pending(store, self.stack@, self.rule)
    }

    /// A walk that starts at `root`, which lies at `origin` unless it is a
    /// sub-surface itself. From a handle that the store does not know the
    /// walk is over before it begins.
    pub fn new(store: &SurfaceStore, root: SurfaceId, origin: Point, rule: Descent) -> (w: Walker)
        requires
            store.wf(),
        ensures
            w.wf(store),
            w.remaining(store) == store.tour(root, origin, rule),
    {
        let mut stack: Vec<(SurfaceId, Point)> = Vec::new();
        if root < store.len() {
            stack.push((root, origin));
            proof {
                assert(stack@.drop_last() == Seq::<(SurfaceId, Point)>::empty());
                assert(pending(store, stack@.drop_last(), rule) == Seq::<Visit>::empty());
                assert(pending(store, stack@, rule) == store.walk(root, origin, rule) + Seq::<
                    Visit,
                >::empty());
            }
        }
        Walker { stack, rule }
    }

    /// The next visit of the walk, or `None` when the walk is over.
    pub fn next(&mut self, store: &SurfaceStore) -> (r: Option<Visit>)
        requires
            store.wf(),
            old(self).wf(store),
        ensures
            final(self).wf(store),
            match r {
                Some(v) => {
                    &&& store.contains(v.surface)
                    &&& old(self).remaining(store).len() > 0
                    &&& v == old(self).remaining(store)[0]
                    &&& final(self).remaining(store) == old(self).remaining(store).skip(1)
                },
                None => {
                    &&& old(self).remaining(store).len() == 0
                    &&& final(self).remaining(store).len() == 0
                },
            },
    {
        let rule = self.rule;
        let ghost before = self.stack@;
        match self.stack.pop() {
            None => None,
            Some((id, origin)) => {
                let ghost rest = self.stack@;
                proof {
                    assert(before.last() == (id, origin));
                    assert(before.drop_last() == rest);
                    assert(store.contains(before[before.len() - 1].0));
                    assert(store.node_wf(id));
                }
                let surface = match store.get(id) {
                    Some(surface) => surface,
                    None => {
                        return None;
                    },
                };
                let here = surface.place(origin);
                let visit = Visit { surface: id, location: here };
                if rule.enters(surface) {
                    let n = surface.children.len();
                    let mut k: usize = 0;
                    while k < n
                        invariant
                            store.wf(),
                            store.contains(id),
                            *surface == store.surface(id),
                            n == surface.children@.len(),
                            k <= n,
                            self.rule == rule,
                            forall|i: int|
                                0 <= i < self.stack@.len() ==> store.contains(
                                    (#[trigger] self.stack@[i]).0,
                                ),
                            pending(store, self.stack@, rule) == store.walk_below(
                                id,
                                here,
                                rule,
                                k as nat,
                            ) + pending(store, rest, rule),
                        decreases n - k,
                    {
                        let child = surface.children[k];
                        let ghost prior = self.stack@;
                        proof {
                            assert(store.node_wf(id));
                            assert(store.child_wf(id, surface.children@[k as int]));
                        }
                        self.stack.push((child, here));
                        proof {
                            assert(self.stack@.drop_last() == prior);
                            assert(self.stack@.last() == (child, here));
                            assert(store.walk_below(id, here, rule, (k + 1) as nat) == store.walk(
                                child,
                                here,
                                rule,
                            ) + store.walk_below(id, here, rule, k as nat));
                            assert(pending(store, self.stack@, rule) == store.walk(child, here, rule)
                                + (store.walk_below(id, here, rule, k as nat) + pending(
                                store,
                                rest,
                                rule,
                            )));
                            assert(store.walk(child, here, rule) + (store.walk_below(
                                id,
                                here,
                                rule,
                                k as nat,
                            ) + pending(store, rest, rule)) == (store.walk(child, here, rule)
                                + store.walk_below(id, here, rule, k as nat)) + pending(
                                store,
                                rest,
                                rule,
                            ));
                        }
                        k += 1;
                    }
                    proof {
                        let below = store.walk_below(id, here, rule, n as nat);
                        let tail = pending(store, rest, rule);
                        assert(store.walk(id, origin, rule) == seq![visit] + below);
                        assert(pending(store, before, rule) == (seq![visit] + below) + tail);
                        assert(((seq![visit] + below) + tail).skip(1) == below + tail);
                    }
                } else {
                    proof {
                        let tail = pending(store, rest, rule);
                        assert(store.walk(id, origin, rule) == seq![visit]);
                        assert(pending(store, before, rule) == seq![visit] + tail);
                        assert((seq![visit] + tail).skip(1) == tail);
                    }
                }
                Some(visit)
            },
        }
    }
}

} // verus!
