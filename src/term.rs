//! Agents, ports and the terms that stand at either end of a wire.
use crate::connection::Connection;
use crate::map::AsHashKey;
use vstd::prelude::*;

verus! {

/// The label of an agent. Kinds are ordered Eraser, Duplicator, Constructor,
/// then the dynamic kinds by their tag; the order only serves to put the two
/// kinds of an active pair in a fixed order.
#[derive(Clone, Copy, Debug, PartialEq, Eq, Structural, PartialOrd, Ord)]
pub enum AgentKind {
    Eraser,
    Duplicator,
    Constructor,
    Dynamic(usize),
}

/// Position of a kind in the order of kinds: first by variant, then by tag.
pub open spec fn kind_rank(k: AgentKind) -> (int, int) {
    match k {
        AgentKind::Eraser => (0, 0),
        AgentKind::Duplicator => (1, 0),
        AgentKind::Constructor => (2, 0),
        AgentKind::Dynamic(t) => (3, t as int),
    }
}

/// `a` comes strictly before `b` in the order of kinds.
pub open spec fn kind_lt(a: AgentKind, b: AgentKind) -> bool {
    let (va, ta) = kind_rank(a);
    let (vb, tb) = kind_rank(b);
    va < vb || (va == vb && ta < tb)
}

/// Number of auxiliary ports that the built-in rules expect of a kind
/// (dynamic kinds never meet a built-in rule).
pub open spec fn builtin_arity(k: AgentKind) -> int {
    match k {
        AgentKind::Eraser => 0,
        _ => 2,
    }
}

impl AgentKind {
    /// The number of auxiliary ports that the built-in rules expect of the kind.
    pub fn builtin_arity(&self) -> (r: usize)
        ensures
            r == builtin_arity(*self),
    {
        match self {
            AgentKind::Eraser => 0,
            _ => 2,
        }
    }

    /// Whether `self` comes strictly before `other` in the order of kinds.
    pub fn precedes(&self, other: &AgentKind) -> (r: bool)
        ensures
            r == kind_lt(*self, *other),
    {
        match (self, other) {
            (AgentKind::Dynamic(a), AgentKind::Dynamic(b)) => *a < *b,
            _ => self.variant_rank() < other.variant_rank(),
        }
    }

    fn variant_rank(&self) -> (r: u8)
        ensures
            r as int == kind_rank(*self).0,
    {
        match self {
            AgentKind::Eraser => 0,
            AgentKind::Duplicator => 1,
            AgentKind::Constructor => 2,
            AgentKind::Dynamic(_) => 3,
        }
    }
}

/// A free wire end, awaiting its partner.
#[derive(Clone, Debug)]
pub struct Port {
    pub name: Option<String>,
    pub id: usize,
}

impl Port {
    pub fn new(id: usize) -> (r: Port)
        ensures
            r == (Port { name: None, id }),
    {
        Port { name: None, id }
    }

    pub fn with_name(self, name: String) -> (r: Port)
        ensures
            r == (Port { name: Some(name), id: self.id }),
    {
        Port { name: Some(name), id: self.id }
    }
}

/// A labelled node. Its principal port is the agent itself; `ports` are its
/// auxiliary ports, each a port or the agent whose principal port is wired
/// to that slot.
#[derive(Debug)]
pub struct Agent {
    pub name: Option<String>,
    pub id: usize,
    pub kind: AgentKind,
    pub ports: Vec<Term>,
}

impl Agent {
    /// The agent has no name and the given identity, kind and auxiliary ports.
    pub open spec fn is_plain(&self, id: usize, kind: AgentKind, ports: Seq<Term>) -> bool {
        &&& self.name is None
        &&& self.id == id
        &&& self.kind == kind
        &&& self.ports@ == ports
    }

    pub fn new(id: usize, kind: AgentKind, ports: Vec<Term>) -> (r: Agent)
        ensures
            r.is_plain(id, kind, ports@),
    {
        Agent { name: None, id, kind, ports }
    }

    pub fn new_eraser(id: usize) -> (r: Agent)
        ensures
            r.is_plain(id, AgentKind::Eraser, seq![]),
    {
        let ports: Vec<Term> = Vec::new();
        Agent { name: None, id, kind: AgentKind::Eraser, ports }
    }

    pub fn new_duplicator(id: usize, port_a: Term, port_b: Term) -> (r: Agent)
        ensures
            r.is_plain(id, AgentKind::Duplicator, seq![port_a, port_b]),
    {
        Self::new_2_arity(id, AgentKind::Duplicator, port_a, port_b)
    }

    pub fn new_constructor(id: usize, port_a: Term, port_b: Term) -> (r: Agent)
        ensures
            r.is_plain(id, AgentKind::Constructor, seq![port_a, port_b]),
    {
        Self::new_2_arity(id, AgentKind::Constructor, port_a, port_b)
    }

    fn new_2_arity(id: usize, kind: AgentKind, port_a: Term, port_b: Term) -> (r: Agent)
        ensures
            r.is_plain(id, kind, seq![port_a, port_b]),
    {
        let mut ports: Vec<Term> = Vec::new();
        ports.push(port_a);
        ports.push(port_b);
        proof {
            assert(ports@ =~= seq![port_a, port_b]);
        }
        Agent { name: None, id, kind, ports }
    }

    /// The two auxiliary ports of an agent that has exactly two; otherwise the
    /// number of ports it has.
    pub fn ports_array(self) -> (r: Result<[Term; 2], usize>)
        ensures
            match r {
                Ok(a) => self.ports@.len() == 2 && a@ == self.ports@,
                Err(n) => self.ports@.len() != 2 && n == self.ports@.len(),
            },
    {
        let mut ports = self.ports;
        if ports.len() != 2 {
            return Err(ports.len());
        }
        let b = ports.pop().unwrap();
        let a = ports.pop().unwrap();
        let r = [a, b];
        proof {
            assert(r@ =~= self.ports@);
        }
        Ok(r)
    }

    /// Annotates the agent with a name.
    pub fn name(&mut self, name: String)
        ensures
            final(self).name == Some(name),
            final(self).id == old(self).id,
            final(self).kind == old(self).kind,
            final(self).ports == old(self).ports,
    {
        self.name = Some(name);
    }
}

/// A wire end: an agent, standing for its principal port, or a free port.
/// Terms compare and hash by identity alone.
#[derive(Debug)]
pub enum Term {
    Agent(Agent),
    Port(Port),
}

impl Term {
    pub open spec fn spec_id(&self) -> usize {
        match self {
            Term::Agent(a) => a.id,
            Term::Port(p) => p.id,
        }
    }

    pub fn id(&self) -> (r: &usize)
        ensures
            *r == self.spec_id(),
    {
        match self {
            Term::Agent(a) => &a.id,
            Term::Port(p) => &p.id,
        }
    }

    pub fn connect(self, other: Term) -> (r: Connection)
        ensures
            r == Connection(self, other),
    {
        Connection(self, other)
    }
}

impl AsHashKey for Term {
    open spec fn key(&self) -> usize {
        self.spec_id()
    }

    fn as_key(&self) -> (r: usize) {
        *self.id()
    }
}

impl From<Agent> for Term {
    fn from(value: Agent) -> (r: Term) {
        Term::Agent(value)
    }
}

impl vstd::std_specs::convert::FromSpecImpl<Agent> for Term {
    open spec fn obeys_from_spec() -> bool {
        true
    }

    open spec fn from_spec(v: Agent) -> Term {
        Term::Agent(v)
    }
}

impl From<Port> for Term {
    fn from(value: Port) -> (r: Term) {
        Term::Port(value)
    }
}

impl vstd::std_specs::convert::FromSpecImpl<Port> for Term {
    open spec fn obeys_from_spec() -> bool {
        true
    }

    open spec fn from_spec(v: Port) -> Term {
        Term::Port(v)
    }
}

impl PartialEq for Term {
    fn eq(&self, other: &Term) -> (r: bool) {
        *self.id() == *other.id()
    }
}

impl vstd::std_specs::cmp::PartialEqSpecImpl for Term {
    open spec fn obeys_eq_spec() -> bool {
        true
    }

    open spec fn eq_spec(&self, other: &Term) -> bool {
        self.spec_id() == other.spec_id()
    }
}

impl Eq for Term {
}

} // verus!
