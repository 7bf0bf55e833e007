//! A wire between two terms.
use crate::term::{Agent, Term};
use vstd::prelude::*;

verus! {

/// An unordered pair of terms. Two connections are equal when they join the
/// same two identities, in either order.
#[derive(Debug)]
pub struct Connection(pub Term, pub Term);

impl Connection {
    pub fn left(&self) -> (r: &Term)
        ensures
            *r == self.0,
    {
        &self.0
    }

    pub fn right(&self) -> (r: &Term)
        ensures
            *r == self.1,
    {
        &self.1
    }

    /// The identity of the left end.
    pub fn id(&self) -> (r: usize)
        ensures
            r == self.0.spec_id(),
    {
        *self.left().id()
    }

    pub fn from_agents(left: Agent, right: Agent) -> (r: Connection)
        ensures
            r == Connection(Term::Agent(left), Term::Agent(right)),
    {
        Connection(Term::Agent(left), Term::Agent(right))
    }

    pub open spec fn spec_is_active_pair(&self) -> bool {
        self.0 is Agent && self.1 is Agent
    }

    /// Both ends are agents.
    pub fn is_active_pair(&self) -> (r: bool)
        ensures
            r == self.spec_is_active_pair(),
    {
        match (&self.0, &self.1) {
            (Term::Agent(_), Term::Agent(_)) => true,
            _ => false,
        }
    }
}

/// The two connections join the same identities, in either order.
pub open spec fn same_wire(a: Connection, b: Connection) -> bool {
    (a.0.spec_id() == b.0.spec_id() && a.1.spec_id() == b.1.spec_id()) || (a.0.spec_id()
        == b.1.spec_id() && a.1.spec_id() == b.0.spec_id())
}

impl From<(Term, Term)> for Connection {
    fn from(value: (Term, Term)) -> (r: Connection) {
        Connection(value.0, value.1)
    }
}

impl vstd::std_specs::convert::FromSpecImpl<(Term, Term)> for Connection {
    open spec fn obeys_from_spec() -> bool {
        true
    }

    open spec fn from_spec(v: (Term, Term)) -> Connection {
        Connection(v.0, v.1)
    }
}

impl PartialEq for Connection {
    fn eq(&self, other: &Connection) -> (r: bool) {
        let (a, b) = (*self.0.id(), *self.1.id());
        let (c, d) = (*other.0.id(), *other.1.id());
        (a == c && b == d) || (a == d && b == c)
    }
}

impl vstd::std_specs::cmp::PartialEqSpecImpl for Connection {
    open spec fn obeys_eq_spec() -> bool {
        true
    }

    open spec fn eq_spec(&self, other: &Connection) -> bool {
        same_wire(*self, *other)
    }
}

impl Eq for Connection {
}

} // verus!
