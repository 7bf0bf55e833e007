//! The single source of fresh identifiers while rules rewrite a net.
use crate::id::IdAllocator;
use crate::term::{Agent, AgentKind, Port, Term};
use vstd::prelude::*;

verus! {

/// The port term with the given identity and no name.
pub open spec fn port_term(id: int) -> Term {
    Term::Port(Port { name: None, id: id as usize })
}

pub struct RewriteContext {
    pub id_alloc: IdAllocator,
}

impl RewriteContext {
    pub fn new(id_alloc: IdAllocator) -> (r: Self)
        ensures
            r.id_alloc == id_alloc,
    {
        Self { id_alloc }
    }

    /// A port with a fresh identity.
    pub fn create_port(&mut self) -> (r: Term)
        requires
            old(self).id_alloc.remaining() >= 1,
        ensures
            r == port_term(old(self).id_alloc.next() as int),
            final(self).id_alloc.next() == old(self).id_alloc.next() + 1,
            final(self).id_alloc.remaining() == old(self).id_alloc.remaining() - 1,
    {
        Term::Port(Port::new(self.id_alloc.create_id()))
    }

    /// The two ends of a fresh wire: two ports with fresh identities.
    pub fn create_wire(&mut self) -> (r: (Term, Term))
        requires
            old(self).id_alloc.remaining() >= 2,
        ensures
            r.0 == port_term(old(self).id_alloc.next() as int),
            r.1 == port_term(old(self).id_alloc.next() + 1int),
            final(self).id_alloc.next() == old(self).id_alloc.next() + 2,
            final(self).id_alloc.remaining() == old(self).id_alloc.remaining() - 2,
    {
        let a = self.create_port();
        let b = self.create_port();
        (a, b)
    }

    /// An agent with a fresh identity.
    pub fn create_agent(&mut self, kind: AgentKind, ports: Vec<Term>) -> (r: Term)
        requires
            old(self).id_alloc.remaining() >= 1,
        ensures
            r matches Term::Agent(a) && a.is_plain(old(self).id_alloc.next() as usize, kind, ports@),
            final(self).id_alloc.next() == old(self).id_alloc.next() + 1,
            final(self).id_alloc.remaining() == old(self).id_alloc.remaining() - 1,
    {
        Term::Agent(Agent::new(self.id_alloc.create_id(), kind, ports))
    }
}

} // verus!
