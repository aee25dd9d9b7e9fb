use vstd::prelude::*;

verus! {

/// What the time-stepping scheme reads of one body: its degree-of-freedom
/// counts, whether it carries internal constraints of its own, and the
/// offset of its block within the island's combined state vector.
#[derive(Clone, Copy, Debug, PartialEq, Eq, Structural)]
pub struct BodyDofs {
    /// Number of degrees of freedom of the body.
    pub ndofs: usize,
    /// Degrees of freedom that take part in a solve: zero unless the body is dynamic.
    pub status_dependent_ndofs: usize,
    /// Whether the body has internal constraints to project at each velocity sweep.
    pub active_internal_constraints: bool,
    /// Start of the body's block in the island's state vector.
    pub companion_id: usize,
}

/// Bodies addressed by handle. A handle is an index; a removed body leaves a
/// hole, so that a stale handle resolves to nothing.
pub struct BodySet {
    pub slots: Vec<Option<BodyDofs>>,
}

impl View for BodySet {
    type V = Seq<Option<BodyDofs>>;

    open spec fn view(&self) -> Seq<Option<BodyDofs>> {
        self.slots@
    }
}

/// The handle `h` names a body of `bodies`.
pub open spec fn resolves(bodies: Seq<Option<BodyDofs>>, h: usize) -> bool {
    h < bodies.len() && bodies[h as int].is_some()
}

/// Degrees of freedom that the body named by `h` brings to a solve; a handle
/// that does not resolve brings none.
pub open spec fn solver_dofs(bodies: Seq<Option<BodyDofs>>, h: usize) -> nat {
    if resolves(bodies, h) {
        bodies[h as int].unwrap().status_dependent_ndofs as nat
    } else {
        0
    }
}

impl BodySet {
    /// A set without bodies.
    pub fn new() -> (r: BodySet)
        ensures
            r@ == Seq::<Option<BodyDofs>>::empty(),
    {
        BodySet { slots: Vec::new() }
    }

    /// Number of handles handed out so far, removed bodies included.
    pub fn len(&self) -> (n: usize)
        ensures
            n == self@.len(),
    {
        self.slots.len()
    }

    /// Adds a body and returns its handle.
    pub fn insert(&mut self, body: BodyDofs) -> (h: usize)
        ensures
            h == old(self)@.len(),
            final(self)@ == old(self)@.push(Some(body)),
    {
        let h: usize = self.slots.len();
        self.slots.push(Some(body));
        h
    }

    /// Removes the body named by `h`, if there is one, and returns it. Other
    /// handles stay valid.
    pub fn remove(&mut self, h: usize) -> (r: Option<BodyDofs>)
        ensures
            resolves(old(self)@, h) ==> r == old(self)@[h as int] && final(self)@ == old(
                self,
            )@.update(h as int, None),
            !resolves(old(self)@, h) ==> r.is_none() && final(self)@ == old(self)@,
    {
        if h < self.slots.len() {
            let r = self.slots[h];
            self.slots[h] = None;
            proof {
                if r.is_none() {
                    assert(self@ =~= old(self)@);
                }
            }
            r
        } else {
            None
        }
    }

    /// The body named by `h`, or nothing for a stale handle.
    pub fn body(&self, h: usize) -> (r: Option<BodyDofs>)
        ensures
            resolves(self@, h) ==> r == self@[h as int],
            !resolves(self@, h) ==> r.is_none(),
    {
        if h < self.slots.len() {
            self.slots[h]
        } else {
            None
        }
    }

    /// Gives the body named by `h` the companion id `id`; a stale handle
    /// changes nothing.
    pub fn set_companion_id(&mut self, h: usize, id: usize)
        ensures
            resolves(old(self)@, h) ==> final(self)@ == old(self)@.update(
                h as int,
                Some(with_companion_id(old(self)@[h as int].unwrap(), id)),
            ),
            !resolves(old(self)@, h) ==> final(self)@ == old(self)@,
    {
        if h < self.slots.len() {
            match self.slots[h] {
                Some(b) => {
                    self.slots[h] = Some(
                        BodyDofs {
                            ndofs: b.ndofs,
                            status_dependent_ndofs: b.status_dependent_ndofs,
                            active_internal_constraints: b.active_internal_constraints,
                            companion_id: id,
                        },
                    );
                },
                None => {},
            }
        }
    }
}

/// The record `b` with its companion id replaced by `id`.
pub open spec fn with_companion_id(b: BodyDofs, id: usize) -> BodyDofs {
    BodyDofs {
        ndofs: b.ndofs,
        status_dependent_ndofs: b.status_dependent_ndofs,
        active_internal_constraints: b.active_internal_constraints,
        companion_id: id,
    }
}

} // verus!
