//! The surface store: the single owner of every surface record, addressed by
//! handle, and of the tree that sub-surfaces form.

use vstd::prelude::*;
use crate::geometry::Point;
use crate::surface::{BufferChange, FrameCallback, Role, Surface, SurfaceId, SurfaceState};

verus! {

/// Why the store turned a request down.
#[derive(Clone, Copy, Debug, PartialEq, Eq, Structural)]
pub enum SurfaceError {
    /// The handle names no surface of this store.
    UnknownSurface,
    /// The surface has died.
    DeadSurface,
    /// The surface already has a role of another kind.
    RoleTaken,
    /// The surface is already a sub-surface of some parent.
    AlreadyAttached,
    /// The parent-to-be is the surface itself or lies below it.
    Cycle,
    /// The surface has not committed yet: it has no state.
    NoState,
}

/// All surfaces, and the sub-surface tree over them.
pub struct SurfaceStore {
    nodes: Vec<Surface>,
    /// For each surface a number that is larger than that of each child.
    height: Ghost<Seq<nat>>,
    /// A number no height exceeds.
    limit: Ghost<nat>,
}

/// The value without every occurrence of `x`, the rest in their order.
pub open spec fn without(s: Seq<SurfaceId>, x: SurfaceId) -> Seq<SurfaceId>
    decreases s.len(),
{
    if s.len() == 0 {
        s
    } else if s.last() == x {
        without(s.drop_last(), x)
    } else {
        without(s.drop_last(), x).push(s.last())
    }
}

/// What is left by `without` was there before, and is not `x`.
pub proof fn lemma_without_members(s: Seq<SurfaceId>, x: SurfaceId)
    ensures
        forall|k: int|
            0 <= k < without(s, x).len() ==> #[trigger] without(s, x)[k] != x && s.contains(
                without(s, x)[k],
            ),
        without(s, x).len() <= s.len(),
    decreases s.len(),
{
    if s.len() > 0 {
        lemma_without_members(s.drop_last(), x);
        let shorter = without(s.drop_last(), x);
        assert forall|k: int| 0 <= k < without(s, x).len() implies #[trigger] without(s, x)[k] != x
            && s.contains(without(s, x)[k]) by {
            if k < shorter.len() {
                assert(without(s, x)[k] == shorter[k]);
                let j = choose|j: int| 0 <= j < s.drop_last().len() && s.drop_last()[j] == shorter[k];
                assert(s[j] == shorter[k]);
            } else {
                assert(without(s, x)[k] == s.last());
                assert(s[s.len() - 1] == s.last());
            }
        }
    }
}

/// What is not `x` stays where `without` has been.
pub proof fn lemma_without_keeps(s: Seq<SurfaceId>, x: SurfaceId, y: SurfaceId)
    requires
        s.contains(y),
        y != x,
    ensures
        without(s, x).contains(y),
    decreases s.len(),
{
    if s.last() == y {
        let w = without(s, x);
        assert(w[w.len() - 1] == y);
    } else {
        let j = choose|j: int| 0 <= j < s.len() && s[j] == y;
        assert(s.drop_last()[j] == y);
        lemma_without_keeps(s.drop_last(), x, y);
        let shorter = without(s.drop_last(), x);
        let k = choose|k: int| 0 <= k < shorter.len() && shorter[k] == y;
        assert(without(s, x)[k] == y);
    }
}

/// Removes every occurrence of `x` from `v`.
fn remove_all(v: &mut Vec<SurfaceId>, x: SurfaceId)
    ensures
        final(v)@ == without(old(v)@, x),
{
    let mut kept: Vec<SurfaceId> = Vec::new();
    let mut i: usize = 0;
    while i < v.len()
        invariant
            i <= v.len(),
            v@ == old(v)@,
            kept@ == without(v@.take(i as int), x),
        decreases v.len() - i,
    {
        assert(v@.take(i + 1).drop_last() == v@.take(i as int));
        if v[i] != x {
            kept.push(v[i]);
        }
        i += 1;
    }
    assert(v@.take(i as int) == v@);
    *v = kept;
}

impl SurfaceStore {
    /// The surfaces, each at the index that is its handle.
    pub closed spec fn surfaces(&self) -> Seq<Surface> {
        self.nodes@
    }

    /// The handle names a surface of this store, dead or alive.
    pub open spec fn contains(&self, id: SurfaceId) -> bool {
        id < self.surfaces().len()
    }

    pub open spec fn surface(&self, id: SurfaceId) -> Surface {
        self.surfaces()[id as int]
    }

    /// The handle names a surface that is alive.
    pub open spec fn is_live(&self, id: SurfaceId) -> bool {
        self.contains(id) && self.surface(id).alive
    }

    /// A number that is larger on a surface than on each of its children.
    pub closed spec fn height(&self, id: SurfaceId) -> nat {
        self.height@[id as int]
    }

    /// A number that no height exceeds.
    pub closed spec fn limit(&self) -> nat {
        self.limit@
    }

    /// Every surface has its height.
    pub closed spec fn ranked(&self) -> bool {
        self.height@.len() == self.nodes@.len()
    }

    /// `child` is a surface of the store that names `parent` as its parent and
    /// stands below it.
    pub open spec fn child_wf(&self, parent: SurfaceId, child: SurfaceId) -> bool {
        &&& self.contains(child)
        &&& self.surface(child).parent == Some(parent)
        &&& self.height(child) < self.height(parent)
    }

    /// The links of one surface are sound.
    pub open spec fn node_wf(&self, id: SurfaceId) -> bool {
        let s = self.surface(id);
        &&& self.height(id) <= self.limit()
        &&& match s.parent {
            Some(p) => self.contains(p) && self.height(id) < self.height(p) <= self.limit(),
            None => true,
        }
        &&& match s.parent {
            Some(p) => self.surface(p).children@.contains(id),
            None => true,
        }
        &&& forall|k: int| 0 <= k < s.children@.len() ==> self.child_wf(id, #[trigger] s.children@[k])
        &&& !s.alive ==> s.parent is None && s.children@.len() == 0 && s.state is None
    }

    /// The store is well formed: parents and children name each other, no
    /// surface lies below itself, and a dead surface has no links and no state.
    pub open spec fn wf(&self) -> bool {
        &&& self.ranked()
        &&& forall|id: SurfaceId|
            #![trigger self.node_wf(id)]
            #![trigger self.surface(id)]
            self.contains(id) ==> self.node_wf(id)
    }

    /// `to` is `from` or one of its ancestors.
    pub open spec fn up_reaches(&self, from: SurfaceId, to: SurfaceId) -> bool
        decreases self.limit() - self.height(from),
        when self.wf() && self.contains(from)
    {
        from == to || match self.surface(from).parent {
            Some(p) => self.up_reaches(p, to),
            None => false,
        }
    }

    /// The surface at the top of the tree that `id` is in.
    pub open spec fn root_of(&self, id: SurfaceId) -> SurfaceId
        decreases self.limit() - self.height(id),
        when self.wf() && self.contains(id)
    {
        match self.surface(id).parent {
            Some(p) => self.root_of(p),
            None => id,
        }
    }

    /// A surface as `create_surface` makes it: alive, without role, links,
    /// buffer, callbacks or state.
    pub open spec fn is_fresh(s: Surface) -> bool {
        &&& s.alive
        &&& s.role == Role::Unassigned
        &&& s.parent is None
        &&& s.children@.len() == 0
        &&& s.position == (Point { x: 0, y: 0 })
        &&& !s.synchronized
        &&& s.attached is None
        &&& s.frame_callbacks@.len() == 0
        &&& s.state is None
    }

    /// The two stores hold the same surfaces but for the one at `id`.
    pub open spec fn same_but(&self, before: &SurfaceStore, id: SurfaceId) -> bool {
        &&& self.surfaces().len() == before.surfaces().len()
        &&& forall|j: SurfaceId|
            before.contains(j) && j != id ==> #[trigger] self.surface(j) == before.surface(j)
    }

    /// An empty store.
    pub fn new() -> (store: SurfaceStore)
        ensures
            store.wf(),
            store.surfaces().len() == 0,
    {
        SurfaceStore { nodes: Vec::new(), height: Ghost(Seq::empty()), limit: Ghost(0) }
    }

    /// Number of handles given out so far.
    pub fn len(&self) -> (n: usize)
        ensures
            n == self.surfaces().len(),
    {
        self.nodes.len()
    }

    /// Adds a fresh surface and returns its handle.
    pub fn create_surface(&mut self) -> (id: SurfaceId)
        requires
            old(self).wf(),
        ensures
            final(self).wf(),
            id == old(self).surfaces().len(),
            final(self).surfaces().len() == old(self).surfaces().len() + 1,
            Self::is_fresh(final(self).surface(id)),
            forall|j: SurfaceId|
                old(self).contains(j) ==> #[trigger] final(self).surface(j) == old(self).surface(j),
    {
        let id = self.nodes.len();
        self.nodes.push(
            Surface {
                alive: true,
                role: Role::Unassigned,
                parent: None,
                children: Vec::new(),
                position: Point { x: 0, y: 0 },
                synchronized: false,
                attached: None,
                frame_callbacks: Vec::new(),
                state: None,
            },
        );
        proof {
            self.height@ = self.height@.push(0);
            assert forall|j: SurfaceId| self.contains(j) implies #[trigger] self.node_wf(j) by {
                if j < id {
                    assert(old(self).node_wf(j));
                    assert(self.surface(j) == old(self).surface(j));
                    assert forall|k: int| 0 <= k < self.surface(j).children@.len() implies self.child_wf(
                        j,
                        #[trigger] self.surface(j).children@[k],
                    ) by {
                        let c = old(self).surface(j).children@[k];
                        assert(old(self).child_wf(j, c));
                    }
                }
            }
        }
        id
    }

    /// The surface behind a handle, if the handle names one.
    pub fn get(&self, id: SurfaceId) -> (s: Option<&Surface>)
        ensures
            match s {
                Some(surface) => self.contains(id) && *surface == self.surface(id),
                None => !self.contains(id),
            },
    {
        if id < self.nodes.len() {
            Some(&self.nodes[id])
        } else {
            None
        }
    }

    /// Whether the handle names a surface that is alive.
    pub fn alive(&self, id: SurfaceId) -> (b: bool)
        ensures
            b == self.is_live(id),
    {
        id < self.nodes.len() && self.nodes[id].alive
    }

    /// Tells a handle that can be worked on from one that cannot.
    fn check_live(&self, id: SurfaceId) -> (r: Result<(), SurfaceError>)
        ensures
            r == self.liveness(id),
    {
        if id >= self.nodes.len() {
            Err(SurfaceError::UnknownSurface)
        } else if !self.nodes[id].alive {
            Err(SurfaceError::DeadSurface)
        } else {
            Ok(())
        }
    }

    /// `Ok` for a live surface, and the error that says why not for the rest.
    pub open spec fn liveness(&self, id: SurfaceId) -> Result<(), SurfaceError> {
        if !self.contains(id) {
            Err(SurfaceError::UnknownSurface)
        } else if !self.surface(id).alive {
            Err(SurfaceError::DeadSurface)
        } else {
            Ok(())
        }
    }

    /// The links and heights are those of `before`, which is well formed, and
    /// no dead surface has gained a state: then the store is well formed.
    proof fn lemma_wf_kept(&self, before: &SurfaceStore)
        requires
            before.wf(),
            self.height@ == before.height@,
            self.limit@ == before.limit@,
            self.nodes@.len() == before.nodes@.len(),
            forall|j: SurfaceId|
                before.contains(j) ==> (#[trigger] self.surface(j)).same_links(&before.surface(j))
                    && (self.surface(j).alive || self.surface(j).state is None),
        ensures
            self.wf(),
    {
        assert forall|j: SurfaceId| self.contains(j) implies #[trigger] self.node_wf(j) by {
            assert(before.node_wf(j));
            let s = self.surface(j);
            assert(s.same_links(&before.surface(j)));
            match s.parent {
                Some(p) => {
                    assert(before.node_wf(p));
                    assert(self.surface(p).same_links(&before.surface(p)));
                },
                None => {},
            }
            assert forall|k: int| 0 <= k < s.children@.len() implies self.child_wf(
                j,
                #[trigger] s.children@[k],
            ) by {
                let c = before.surface(j).children@[k];
                assert(before.child_wf(j, c));
                assert(self.surface(c).same_links(&before.surface(c)));
            }
        }
    }

    /// Gives a role to a surface that has none, or new attributes to the role
    /// it has.
    pub fn set_role(&mut self, id: SurfaceId, role: Role) -> (r: Result<(), SurfaceError>)
        requires
            old(self).wf(),
        ensures
            final(self).wf(),
            r == (if old(self).liveness(id) is Err {
                old(self).liveness(id)
            } else if old(self).surface(id).role != Role::Unassigned && !old(self).surface(
                id,
            ).role.spec_same_kind(role) {
                Err(SurfaceError::RoleTaken)
            } else {
                Ok(())
            }),
            final(self).surfaces() == (if r is Ok {
                old(self).surfaces().update(id as int, Surface { role, ..old(self).surface(id) })
            } else {
                old(self).surfaces()
            }),
    {
        let live = self.check_live(id);
        if live.is_err() {
            return live;
        }
        let current = self.nodes[id].role;
        if current != Role::Unassigned && !current.same_kind(role) {
            return Err(SurfaceError::RoleTaken);
        }
        self.nodes[id].role = role;
        proof {
            self.lemma_wf_kept(old(self));
        }
        Ok(())
    }

    /// Sets where a sub-surface stands relative to its parent.
    pub fn set_position(&mut self, id: SurfaceId, position: Point) -> (r: Result<(), SurfaceError>)
        requires
            old(self).wf(),
        ensures
            final(self).wf(),
            r == old(self).liveness(id),
            final(self).surfaces() == (if r is Ok {
                old(self).surfaces().update(id as int, Surface { position, ..old(self).surface(id) })
            } else {
                old(self).surfaces()
            }),
    {
        let live = self.check_live(id);
        if live.is_ok() {
            self.nodes[id].position = position;
            proof {
                self.lemma_wf_kept(old(self));
            }
        }
        live
    }

    /// Sets whether a sub-surface applies its commits with its parent's.
    pub fn set_synchronized(&mut self, id: SurfaceId, synchronized: bool) -> (r: Result<
        (),
        SurfaceError,
    >)
        requires
            old(self).wf(),
        ensures
            final(self).wf(),
            r == old(self).liveness(id),
            final(self).surfaces() == (if r is Ok {
                old(self).surfaces().update(
                    id as int,
                    Surface { synchronized, ..old(self).surface(id) },
                )
            } else {
                old(self).surfaces()
            }),
    {
        let live = self.check_live(id);
        if live.is_ok() {
            self.nodes[id].synchronized = synchronized;
            proof {
                self.lemma_wf_kept(old(self));
            }
        }
        live
    }

    /// Records the buffer change that the next commit of the surface applies.
    pub fn attach_buffer(&mut self, id: SurfaceId, change: Option<BufferChange>) -> (r: Result<
        (),
        SurfaceError,
    >)
        requires
            old(self).wf(),
        ensures
            final(self).wf(),
            r == old(self).liveness(id),
            final(self).surfaces() == (if r is Ok {
                old(self).surfaces().update(
                    id as int,
                    Surface { attached: change, ..old(self).surface(id) },
                )
            } else {
                old(self).surfaces()
            }),
    {
        let live = self.check_live(id);
        if live.is_ok() {
            self.nodes[id].attached = change;
            proof {
                self.lemma_wf_kept(old(self));
            }
        }
        live
    }

    /// Queues a frame callback on the surface.
    pub fn request_frame(&mut self, id: SurfaceId, callback: FrameCallback) -> (r: Result<
        (),
        SurfaceError,
    >)
        requires
            old(self).wf(),
        ensures
            final(self).wf(),
            r == old(self).liveness(id),
            r is Err ==> final(self).surfaces() == old(self).surfaces(),
            r is Ok ==> {
                let before = old(self).surface(id);
                let after = final(self).surface(id);
                &&& final(self).same_but(old(self), id)
                &&& after.same_links(&before)
                &&& after.frame_callbacks@ == before.frame_callbacks@.push(callback)
                &&& after.same_core(&before)
            },
    {
        let live = self.check_live(id);
        if live.is_ok() {
            self.nodes[id].frame_callbacks.push(callback);
            proof {
                self.lemma_wf_kept(old(self));
            }
        }
        live
    }

    /// A surface after a commit: the attached buffer change is applied to its
    /// state, which a first commit creates. A dead surface stays as it is.
    pub open spec fn committed(s: Surface) -> Surface {
        if s.alive {
            Surface { state: Some(s.spec_state_after_commit()), attached: None, ..s }
        } else {
            s
        }
    }

    /// Applies the attached buffer change of one surface to its state.
    pub fn apply_commit(&mut self, id: SurfaceId) -> (r: Result<(), SurfaceError>)
        requires
            old(self).wf(),
        ensures
            final(self).wf(),
            r == old(self).liveness(id),
            final(self).surfaces() == (if r is Ok {
                old(self).surfaces().update(id as int, Self::committed(old(self).surface(id)))
            } else {
                old(self).surfaces()
            }),
    {
        let live = self.check_live(id);
        if live.is_ok() {
            let state = self.nodes[id].state_after_commit();
            self.nodes[id].state = Some(state);
            self.nodes[id].attached = None;
            proof {
                self.lemma_wf_kept(old(self));
            }
        }
        live
    }

    /// Takes the queued frame callbacks off a surface.
    pub fn take_frame_callbacks(&mut self, id: SurfaceId) -> (r: Vec<FrameCallback>)
        requires
            old(self).wf(),
        ensures
            final(self).wf(),
            final(self).surfaces().len() == old(self).surfaces().len(),
            !old(self).contains(id) ==> r@.len() == 0
                && final(self).surfaces() == old(self).surfaces(),
            old(self).contains(id) ==> {
                let before = old(self).surface(id);
                let after = final(self).surface(id);
                &&& r@ == before.frame_callbacks@
                &&& final(self).same_but(old(self), id)
                &&& after.same_links(&before)
                &&& after.frame_callbacks@.len() == 0
                &&& after.same_core(&before)
            },
    {
        if id >= self.nodes.len() {
            return Vec::new();
        }
        let mut taken: Vec<FrameCallback> = Vec::new();
        std::mem::swap(&mut self.nodes[id].frame_callbacks, &mut taken);
        proof {
            self.lemma_wf_kept(old(self));
        }
        taken
    }

    /// Replaces the state of a surface that has one.
    pub fn set_state(&mut self, id: SurfaceId, state: SurfaceState) -> (r: Result<(), SurfaceError>)
        requires
            old(self).wf(),
        ensures
            final(self).wf(),
            r == (if old(self).liveness(id) is Err {
                old(self).liveness(id)
            } else if old(self).surface(id).state is None {
                Err(SurfaceError::NoState)
            } else {
                Ok(())
            }),
            final(self).surfaces() == (if r is Ok {
                old(self).surfaces().update(
                    id as int,
                    Surface { state: Some(state), ..old(self).surface(id) },
                )
            } else {
                old(self).surfaces()
            }),
    {
        let live = self.check_live(id);
        if live.is_err() {
            return live;
        }
        if self.nodes[id].state.is_none() {
            return Err(SurfaceError::NoState);
        }
        self.nodes[id].state = Some(state);
        proof {
            self.lemma_wf_kept(old(self));
        }
        Ok(())
    }

    /// What `attach_subsurface` answers: the first of its refusals that
    /// applies, or `Ok`.
    pub open spec fn attach_outcome(&self, child: SurfaceId, parent: SurfaceId) -> Result<
        (),
        SurfaceError,
    > {
        if self.liveness(child) is Err {
            self.liveness(child)
        } else if self.liveness(parent) is Err {
            self.liveness(parent)
        } else if self.surface(child).role != Role::Unassigned && self.surface(child).role
            != Role::Subsurface {
            Err(SurfaceError::RoleTaken)
        } else if self.surface(child).parent is Some {
            Err(SurfaceError::AlreadyAttached)
        } else if self.up_reaches(parent, child) {
            Err(SurfaceError::Cycle)
        } else {
            Ok(())
        }
    }

    /// Whether `to` is `from` or one of its ancestors.
    fn reaches_up(&self, from: SurfaceId, to: SurfaceId) -> (b: bool)
        requires
            self.wf(),
            self.contains(from),
        ensures
            b == self.up_reaches(from, to),
    {
        let mut cur = from;
        loop
            invariant
                self.wf(),
                self.contains(cur),
                self.up_reaches(from, to) == self.up_reaches(cur, to),
            decreases self.limit() - self.height(cur),
        {
            if cur == to {
                return true;
            }
            proof {
                assert(self.node_wf(cur));
            }
            match self.nodes[cur].parent {
                Some(p) => {
                    cur = p;
                },
                None => {
                    return false;
                },
            }
        }
    }

    /// The top of the tree that `id` is in, for a surface of the store.
    pub fn topmost_ancestor(&self, id: SurfaceId) -> (r: Option<SurfaceId>)
        requires
            self.wf(),
        ensures
            r is Some <==> self.contains(id),
            r is Some ==> {
                &&& r->0 == self.root_of(id)
                &&& self.contains(r->0)
                &&& self.surface(r->0).parent is None
            },
    {
        if id >= self.nodes.len() {
            return None;
        }
        let mut cur = id;
        loop
            invariant
                self.wf(),
                self.contains(id),
                self.contains(cur),
                self.root_of(id) == self.root_of(cur),
            decreases self.limit() - self.height(cur),
        {
            proof {
                assert(self.node_wf(cur));
            }
            match self.nodes[cur].parent {
                Some(p) => {
                    cur = p;
                },
                None => {
                    return Some(cur);
                },
            }
        }
    }

    /// The parent of an ancestor of `from` is an ancestor of `from`.
    proof fn lemma_up_reaches_parent(&self, from: SurfaceId, mid: SurfaceId)
        requires
            self.wf(),
            self.contains(from),
            self.up_reaches(from, mid),
            self.surface(mid).parent is Some,
        ensures
            self.up_reaches(from, self.surface(mid).parent->0),
        decreases self.limit() - self.height(from),
    {
        let q = self.surface(mid).parent->0;
        assert(self.node_wf(from));
        if from == mid {
            assert(self.node_wf(q));
            assert(self.up_reaches(q, q));
        } else {
            let p = self.surface(from).parent->0;
            self.lemma_up_reaches_parent(p, mid);
        }
    }

    /// Makes `child` the top-most sub-surface of `parent`.
    pub fn attach_subsurface(&mut self, child: SurfaceId, parent: SurfaceId) -> (r: Result<
        (),
        SurfaceError,
    >)
        requires
            old(self).wf(),
        ensures
            final(self).wf(),
            r == old(self).attach_outcome(child, parent),
            r is Err ==> final(self).surfaces() == old(self).surfaces(),
            r is Ok ==> {
                let was = old(self).surface(parent);
                let is = final(self).surface(parent);
                &&& final(self).surfaces().len() == old(self).surfaces().len()
                &&& forall|j: SurfaceId|
                    old(self).contains(j) && j != child && j != parent
                        ==> #[trigger] final(self).surface(j) == old(self).surface(j)
                &&& final(self).surface(child) == (Surface {
                    parent: Some(parent),
                    role: Role::Subsurface,
                    ..old(self).surface(child)
                })
                &&& is.children@ == was.children@.push(child)
                &&& is.alive == was.alive
                &&& is.parent == was.parent
                &&& is.same_data(&was)
            },
    {
        let live = self.check_live(child);
        if live.is_err() {
            return live;
        }
        let live = self.check_live(parent);
        if live.is_err() {
            return live;
        }
        let role = self.nodes[child].role;
        if role != Role::Unassigned && role != Role::Subsurface {
            return Err(SurfaceError::RoleTaken);
        }
        if self.nodes[child].parent.is_some() {
            return Err(SurfaceError::AlreadyAttached);
        }
        if self.reaches_up(parent, child) {
            return Err(SurfaceError::Cycle);
        }
        assert(child != parent);
        self.nodes[child].parent = Some(parent);
        self.nodes[child].role = Role::Subsurface;
        self.nodes[parent].children.push(child);
        proof {
            let before = *old(self);
            let h = before.height@;
            let bump = h[child as int] + 1;
            self.height@ = Seq::new(
                h.len(),
                |i: int|
                    if before.up_reaches(parent, i as SurfaceId) {
                        h[i] + bump
                    } else {
                        h[i]
                    },
            );
            self.limit@ = before.limit@ + bump;
            assert(before.node_wf(parent));
            assert(before.node_wf(child));
            assert(before.up_reaches(parent, parent));
            assert forall|j: SurfaceId| self.contains(j) implies #[trigger] self.node_wf(j) by {
                assert(before.node_wf(j));
                let s = self.surface(j);
                match s.parent {
                    Some(p) => {
                        if j == child {
                            assert(p == parent);
                            assert(self.surface(parent).children@[before.surface(
                                parent,
                            ).children@.len() as int] == child);
                        } else {
                            assert(before.surface(j).parent == Some(p));
                            assert(before.node_wf(p));
                            if before.up_reaches(parent, j) {
                                before.lemma_up_reaches_parent(parent, j);
                            }
                            let idx = choose|idx: int|
                                0 <= idx < before.surface(p).children@.len() && before.surface(
                                    p,
                                ).children@[idx] == j;
                            assert(self.surface(p).children@[idx] == j);
                        }
                    },
                    None => {},
                }
                assert forall|k: int| 0 <= k < s.children@.len() implies self.child_wf(
                    j,
                    #[trigger] s.children@[k],
                ) by {
                    let c = s.children@[k];
                    if j == parent && k == before.surface(parent).children@.len() {
                        assert(c == child);
                    } else {
                        assert(c == before.surface(j).children@[k]);
                        assert(before.child_wf(j, c));
                        assert(c != child);
                        if before.up_reaches(parent, c) {
                            before.lemma_up_reaches_parent(parent, c);
                        }
                    }
                }
            }
        }
        Ok(())
    }

    /// Takes a sub-surface out of its parent's list. A surface without parent
    /// stays as it is.
    pub fn detach_subsurface(&mut self, child: SurfaceId) -> (r: Result<(), SurfaceError>)
        requires
            old(self).wf(),
        ensures
            final(self).wf(),
            r == old(self).liveness(child),
            r is Err || old(self).surface(child).parent is None
                ==> final(self).surfaces() == old(self).surfaces(),
            r is Ok && old(self).surface(child).parent is Some ==> {
                let parent = old(self).surface(child).parent->0;
                let was = old(self).surface(parent);
                let is = final(self).surface(parent);
                &&& final(self).surfaces().len() == old(self).surfaces().len()
                &&& forall|j: SurfaceId|
                    old(self).contains(j) && j != child && j != parent
                        ==> #[trigger] final(self).surface(j) == old(self).surface(j)
                &&& final(self).surface(child) == (Surface {
                    parent: None,
                    ..old(self).surface(child)
                })
                &&& is.children@ == without(was.children@, child)
                &&& is.alive == was.alive
                &&& is.parent == was.parent
                &&& is.same_data(&was)
            },
    {
        let live = self.check_live(child);
        if live.is_err() {
            return live;
        }
        proof {
            assert(self.node_wf(child));
        }
        match self.nodes[child].parent {
            Some(parent) => {
                assert(parent != child);
                remove_all(&mut self.nodes[parent].children, child);
                self.nodes[child].parent = None;
                proof {
                    let before = *old(self);
                    lemma_without_members(before.surface(parent).children@, child);
                    assert forall|j: SurfaceId| self.contains(j) implies #[trigger] self.node_wf(
                        j,
                    ) by {
                        assert(before.node_wf(j));
                        let s = self.surface(j);
                        match s.parent {
                            Some(p) => {
                                assert(j != child);
                                assert(before.node_wf(p));
                                if p == parent {
                                    lemma_without_keeps(before.surface(parent).children@, child, j);
                                }
                            },
                            None => {},
                        }
                        assert forall|k: int| 0 <= k < s.children@.len() implies self.child_wf(
                            j,
                            #[trigger] s.children@[k],
                        ) by {
                            let c = s.children@[k];
                            if j == parent {
                                let i = choose|i: int|
                                    0 <= i < before.surface(parent).children@.len()
                                        && before.surface(parent).children@[i] == c;
                                assert(before.child_wf(j, before.surface(parent).children@[i]));
                            } else {
                                assert(c == before.surface(j).children@[k]);
                                assert(before.child_wf(j, c));
                            }
                        }
                    }
                }
            },
            None => {},
        }
        Ok(())
    }

    /// The record of a surface after its death: of what it was, only its role
    /// and position are left.
    pub open spec fn is_remains_of(after: Surface, before: Surface) -> bool {
        &&& !after.alive
        &&& after.parent is None
        &&& after.children@.len() == 0
        &&& after.state is None
        &&& after.attached is None
        &&& after.frame_callbacks@.len() == 0
        &&& after.role == before.role
        &&& after.position == before.position
        &&& after.synchronized == before.synchronized
    }

    /// Marks a surface dead. It leaves its parent's list, its sub-surfaces
    /// lose their parent, and its state is dropped.
    pub fn destroy(&mut self, id: SurfaceId) -> (r: Result<(), SurfaceError>)
        requires
            old(self).wf(),
        ensures
            final(self).wf(),
            r == old(self).liveness(id),
            r is Err ==> final(self).surfaces() == old(self).surfaces(),
            r is Ok ==> {
                &&& final(self).surfaces().len() == old(self).surfaces().len()
                &&& Self::is_remains_of(final(self).surface(id), old(self).surface(id))
                &&& forall|j: SurfaceId|
                    old(self).contains(j) && j != id ==> {
                        let was = old(self).surface(j);
                        let is = #[trigger] final(self).surface(j);
                        if old(self).surface(id).parent == Some(j) {
                            &&& is.children@ == without(was.children@, id)
                            &&& is.alive == was.alive
                            &&& is.parent == was.parent
                            &&& is.same_data(&was)
                        } else if was.parent == Some(id) {
                            is == (Surface { parent: None, ..was })
                        } else {
                            is == was
                        }
                    }
            },
    {
        let live = self.detach_subsurface(id);
        if live.is_err() {
            return live;
        }
        let ghost mid = *self;
        proof {
            assert(old(self).node_wf(id));
            assert(mid.node_wf(id));
        }
        let n = self.nodes[id].children.len();
        let mut i: usize = 0;
        while i < n
            invariant
                mid.wf(),
                mid.contains(id),
                i <= n,
                n == mid.surface(id).children@.len(),
                self.nodes@.len() == mid.nodes@.len(),
                self.height@ == mid.height@,
                self.limit@ == mid.limit@,
                self.surface(id) == mid.surface(id),
                forall|j: SurfaceId|
                    mid.contains(j) && j != id ==> (#[trigger] self.surface(j) == mid.surface(j) || (
                    mid.surface(j).parent == Some(id) && self.surface(j) == (Surface {
                        parent: None,
                        ..mid.surface(j)
                    }))),
                forall|k: int|
                    0 <= k < i ==> self.surface(
                        #[trigger] mid.surface(id).children@[k],
                    ).parent is None,
            decreases n - i,
        {
            let c = self.nodes[id].children[i];
            let ghost prev = *self;
            proof {
                assert(mid.node_wf(id));
                assert(mid.child_wf(id, mid.surface(id).children@[i as int]));
                assert(c != id);
            }
            self.nodes[c].parent = None;
            proof {
                assert forall|j: SurfaceId| mid.contains(j) && j != id implies (
                #[trigger] self.surface(j) == mid.surface(j) || (mid.surface(j).parent == Some(id)
                    && self.surface(j) == (Surface { parent: None, ..mid.surface(j) }))) by {
                    if j != c {
                        assert(self.surface(j) == prev.surface(j));
                    } else {
                        assert(self.surface(j) == (Surface { parent: None, ..prev.surface(j) }));
                    }
                }
                assert forall|k: int| 0 <= k < i + 1 implies self.surface(
                    #[trigger] mid.surface(id).children@[k],
                ).parent is None by {
                    let ck = mid.surface(id).children@[k];
                    if ck != c {
                        assert(self.surface(ck) == prev.surface(ck));
                    }
                }
            }
            i += 1;
        }
        let ghost end = *self;
        self.nodes[id].children = Vec::new();
        self.nodes[id].alive = false;
        self.nodes[id].state = None;
        self.nodes[id].attached = None;
        self.nodes[id].frame_callbacks = Vec::new();
        proof {
            let before = *old(self);
            assert forall|j: SurfaceId| before.contains(j) && j != id implies {
                let was = before.surface(j);
                let is = #[trigger] self.surface(j);
                if before.surface(id).parent == Some(j) {
                    &&& is.children@ == without(was.children@, id)
                    &&& is.alive == was.alive
                    &&& is.parent == was.parent
                    &&& is.same_data(&was)
                } else if was.parent == Some(id) {
                    is == (Surface { parent: None, ..was })
                } else {
                    is == was
                }
            } by {
                assert(before.node_wf(j));
                assert(mid.node_wf(j));
                assert(before.node_wf(id));
                assert(self.surface(j) == end.surface(j));
                assert(mid.surface(j).parent == before.surface(j).parent);
                if mid.surface(j).parent == Some(id) {
                    let k = choose|k: int|
                        0 <= k < mid.surface(id).children@.len() && mid.surface(id).children@[k]
                            == j;
                    assert(end.surface(mid.surface(id).children@[k]).parent is None);
                    assert(mid.surface(j) == before.surface(j));
                } else {
                    assert(end.surface(j) == mid.surface(j));
                }
            }
            assert forall|j: SurfaceId| self.contains(j) implies #[trigger] self.node_wf(j) by {
                assert(mid.node_wf(j));
                assert(before.node_wf(j));
                let s = self.surface(j);
                if j != id {
                    assert(self.surface(j) == end.surface(j));
                    match s.parent {
                        Some(p) => {
                            assert(mid.surface(j).parent == Some(p));
                            assert(p != id);
                            assert(mid.node_wf(p));
                            assert(self.surface(p) == end.surface(p));
                            assert(self.surface(p).children@ == mid.surface(p).children@);
                        },
                        None => {},
                    }
                    assert forall|k: int| 0 <= k < s.children@.len() implies self.child_wf(
                        j,
                        #[trigger] s.children@[k],
                    ) by {
                        let c = s.children@[k];
                        assert(c == mid.surface(j).children@[k]);
                        assert(mid.child_wf(j, c));
                        assert(mid.surface(c).parent == Some(j));
                        assert(c != id);
                        assert(self.surface(c) == end.surface(c));
                    }
                }
            }
        }
        Ok(())
    }
}

} // verus!
