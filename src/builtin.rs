//! The six rules of the eraser / constructor / duplicator family.
use crate::connection::Connection;
use crate::context::{RewriteContext, port_term};
use crate::rule::RewriteResult;
use crate::rulebook::{ActivePairPattern, lemma_pattern_injective, pattern_of};
use crate::term::{Agent, AgentKind, Term, builtin_arity};
use vstd::prelude::*;

verus! {

#[derive(Clone, Copy, Debug, PartialEq, Eq, Structural)]
pub enum Builtin {
    EraEra,
    CtrCtr,
    DupDup,
    DupEra,
    CtrEra,
    CtrDup,
}

/// `t` is a fresh agent: no name, the given identity, kind and ports.
pub open spec fn is_new_agent(t: Term, id: int, kind: AgentKind, ports: Seq<Term>) -> bool {
    t matches Term::Agent(a) && a.is_plain(id as usize, kind, ports)
}

impl Builtin {
    pub open spec fn spec_pattern(self) -> ActivePairPattern {
        match self {
            Builtin::EraEra => pattern_of(AgentKind::Eraser, AgentKind::Eraser),
            Builtin::CtrCtr => pattern_of(AgentKind::Constructor, AgentKind::Constructor),
            Builtin::DupDup => pattern_of(AgentKind::Duplicator, AgentKind::Duplicator),
            Builtin::DupEra => pattern_of(AgentKind::Duplicator, AgentKind::Eraser),
            Builtin::CtrEra => pattern_of(AgentKind::Constructor, AgentKind::Eraser),
            Builtin::CtrDup => pattern_of(AgentKind::Constructor, AgentKind::Duplicator),
        }
    }

    /// The agents' kinds form the rule's pattern and each agent has the
    /// arity of its kind.
    pub open spec fn accepts(self, a: Agent, b: Agent) -> bool {
        &&& pattern_of(a.kind, b.kind) == self.spec_pattern()
        &&& a.ports@.len() == builtin_arity(a.kind)
        &&& b.ports@.len() == builtin_arity(b.kind)
    }

    /// Duplication takes eight fresh ports and four fresh agents; the other
    /// rules take none.
    pub open spec fn fresh_ids(self) -> nat {
        match self {
            Builtin::CtrDup => 12,
            _ => 0,
        }
    }

    /// What the rule makes of `a` and `b`. Where the kinds differ, the roles
    /// go by kind, whichever agent comes first.
    pub open spec fn produces(self, next: nat, a: Agent, b: Agent, out: Seq<Connection>) -> bool {
        match self {
            Builtin::EraEra => out.len() == 0,
            Builtin::CtrCtr | Builtin::DupDup => out == seq![
                Connection(a.ports@[0], b.ports@[0]),
                Connection(a.ports@[1], b.ports@[1]),
            ],
            Builtin::DupEra | Builtin::CtrEra => {
                let (x, e) = if a.kind == AgentKind::Eraser {
                    (b, a)
                } else {
                    (a, b)
                };
                &&& out.len() == 2
                &&& is_new_agent(out[0].0, x.id as int, AgentKind::Eraser, seq![])
                &&& out[0].1 == x.ports@[0]
                &&& is_new_agent(out[1].0, e.id as int, AgentKind::Eraser, seq![])
                &&& out[1].1 == x.ports@[1]
            },
            Builtin::CtrDup => {
                let (c, d) = if a.kind == AgentKind::Constructor {
                    (a, b)
                } else {
                    (b, a)
                };
                let n = next as int;
                &&& out.len() == 8
                &&& out[0] == Connection(port_term(n), port_term(n + 1))
                &&& out[1] == Connection(port_term(n + 2), port_term(n + 3))
                &&& out[2] == Connection(port_term(n + 4), port_term(n + 5))
                &&& out[3] == Connection(port_term(n + 6), port_term(n + 7))
                &&& is_new_agent(out[4].0, n + 8, AgentKind::Constructor, seq![port_term(n + 2), port_term(n)])
                &&& out[4].1 == d.ports@[0]
                &&& is_new_agent(out[5].0, n + 9, AgentKind::Constructor, seq![port_term(n + 6), port_term(n + 4)])
                &&& out[5].1 == d.ports@[1]
                &&& is_new_agent(out[6].0, n + 10, AgentKind::Duplicator, seq![port_term(n + 3), port_term(n + 7)])
                &&& out[6].1 == c.ports@[0]
                &&& is_new_agent(out[7].0, n + 11, AgentKind::Duplicator, seq![port_term(n + 1), port_term(n + 5)])
                &&& out[7].1 == c.ports@[1]
            },
        }
    }

    /// Every built-in rule, once.
    pub fn all() -> (r: Vec<Builtin>)
        ensures
            r@ == seq![
                Builtin::EraEra,
                Builtin::CtrCtr,
                Builtin::DupDup,
                Builtin::DupEra,
                Builtin::CtrEra,
                Builtin::CtrDup,
            ],
    {
        let r = vec![
            Builtin::EraEra,
            Builtin::CtrCtr,
            Builtin::DupDup,
            Builtin::DupEra,
            Builtin::CtrEra,
            Builtin::CtrDup,
        ];
        proof {
            assert(r@ =~= seq![
                Builtin::EraEra,
                Builtin::CtrCtr,
                Builtin::DupDup,
                Builtin::DupEra,
                Builtin::CtrEra,
                Builtin::CtrDup,
            ]);
        }
        r
    }

    pub fn pattern(&self) -> (r: ActivePairPattern)
        ensures
            r == self.spec_pattern(),
    {
        match self {
            Builtin::EraEra => ActivePairPattern::new(AgentKind::Eraser, AgentKind::Eraser),
            Builtin::CtrCtr => ActivePairPattern::new(AgentKind::Constructor, AgentKind::Constructor),
            Builtin::DupDup => ActivePairPattern::new(AgentKind::Duplicator, AgentKind::Duplicator),
            Builtin::DupEra => ActivePairPattern::new(AgentKind::Duplicator, AgentKind::Eraser),
            Builtin::CtrEra => ActivePairPattern::new(AgentKind::Constructor, AgentKind::Eraser),
            Builtin::CtrDup => ActivePairPattern::new(AgentKind::Constructor, AgentKind::Duplicator),
        }
    }

    /// Whether the rule can rewrite the two agents: their kinds form its
    /// pattern and each has the arity of its kind.
    pub fn fits(&self, a: &Agent, b: &Agent) -> (r: bool)
        ensures
            r == self.accepts(*a, *b),
    {
        self.pattern() == ActivePairPattern::from_agents(a, b) && a.ports.len() == a.kind.builtin_arity()
            && b.ports.len() == b.kind.builtin_arity()
    }

    pub fn ids_needed(&self) -> (r: usize)
        ensures
            r == self.fresh_ids(),
    {
        match self {
            Builtin::CtrDup => 12,
            _ => 0,
        }
    }

    pub fn rewrite(&self, ctx: &mut RewriteContext, a: Agent, b: Agent) -> (r: RewriteResult)
        requires
            self.accepts(a, b),
            old(ctx).id_alloc.remaining() >= self.fresh_ids(),
        ensures
            self.produces(old(ctx).id_alloc.next(), a, b, r.new_connections@),
            final(ctx).id_alloc.next() == old(ctx).id_alloc.next() + self.fresh_ids(),
    {
        match self {
            Builtin::EraEra => {
                ctx.id_alloc.retire_id(a.id);
                ctx.id_alloc.retire_id(b.id);
                RewriteResult::empty()
            },
            Builtin::CtrCtr | Builtin::DupDup => {
                proof {
                    lemma_pattern_injective(a.kind, b.kind, AgentKind::Constructor, AgentKind::Constructor);
                    lemma_pattern_injective(a.kind, b.kind, AgentKind::Duplicator, AgentKind::Duplicator);
                }
                ctx.id_alloc.retire_id(a.id);
                ctx.id_alloc.retire_id(b.id);
                let (a0, a1) = take_two(a.ports);
                let (b0, b1) = take_two(b.ports);
                let mut out: Vec<Connection> = Vec::new();
                out.push(Connection(a0, b0));
                out.push(Connection(a1, b1));
                proof {
                    assert(out@ =~= seq![
                        Connection(a.ports@[0], b.ports@[0]),
                        Connection(a.ports@[1], b.ports@[1]),
                    ]);
                }
                RewriteResult { new_connections: out }
            },
            Builtin::DupEra | Builtin::CtrEra => {
                proof {
                    lemma_pattern_injective(a.kind, b.kind, AgentKind::Duplicator, AgentKind::Eraser);
                    lemma_pattern_injective(a.kind, b.kind, AgentKind::Constructor, AgentKind::Eraser);
                }
                if a.kind == AgentKind::Eraser {
                    handle_dup_or_ctr_to_era(b, a)
                } else {
                    handle_dup_or_ctr_to_era(a, b)
                }
            },
            Builtin::CtrDup => {
                proof {
                    lemma_pattern_injective(a.kind, b.kind, AgentKind::Constructor, AgentKind::Duplicator);
                }
                if a.kind == AgentKind::Constructor {
                    duplicate(ctx, a, b)
                } else {
                    duplicate(ctx, b, a)
                }
            },
        }
    }
}

/// The two elements of a vector of length two.
fn take_two(v: Vec<Term>) -> (r: (Term, Term))
    requires
        v@.len() == 2,
    ensures
        r.0 == v@[0],
        r.1 == v@[1],
{
    let mut v = v;
    let second = v.pop().unwrap();
    let first = v.pop().unwrap();
    (first, second)
}

/// An eraser meets an agent of arity two: the agent's two ports each get an
/// eraser, which take over the identities of the two consumed agents.
fn handle_dup_or_ctr_to_era(dup_or_ctr: Agent, era: Agent) -> (r: RewriteResult)
    requires
        dup_or_ctr.ports@.len() == 2,
        era.kind == AgentKind::Eraser,
        era.ports@.len() == 0,
    ensures
        r.new_connections@.len() == 2,
        is_new_agent(r.new_connections@[0].0, dup_or_ctr.id as int, AgentKind::Eraser, seq![]),
        r.new_connections@[0].1 == dup_or_ctr.ports@[0],
        is_new_agent(r.new_connections@[1].0, era.id as int, AgentKind::Eraser, seq![]),
        r.new_connections@[1].1 == dup_or_ctr.ports@[1],
{
    let era_a_id = dup_or_ctr.id;
    let era_b_id = era.id;
    let (a, b) = take_two(dup_or_ctr.ports);
    let era_a = Agent::new_eraser(era_a_id);
    let era_b = Agent::new_eraser(era_b_id);
    let mut out: Vec<Connection> = Vec::new();
    out.push(Term::Agent(era_a).connect(a));
    out.push(Term::Agent(era_b).connect(b));
    RewriteResult { new_connections: out }
}

/// A constructor meets a duplicator: four fresh wires join two fresh
/// constructors to two fresh duplicators, and the fresh constructors take
/// the duplicator's old neighbours while the fresh duplicators take the
/// constructor's.
fn duplicate(ctx: &mut RewriteContext, ctr: Agent, dup: Agent) -> (r: RewriteResult)
    requires
        ctr.ports@.len() == 2,
        dup.ports@.len() == 2,
        old(ctx).id_alloc.remaining() >= 12,
    ensures
        ({
            let n = old(ctx).id_alloc.next() as int;
            let out = r.new_connections@;
            &&& out.len() == 8
            &&& out[0] == Connection(port_term(n), port_term(n + 1))
            &&& out[1] == Connection(port_term(n + 2), port_term(n + 3))
            &&& out[2] == Connection(port_term(n + 4), port_term(n + 5))
            &&& out[3] == Connection(port_term(n + 6), port_term(n + 7))
            &&& is_new_agent(out[4].0, n + 8, AgentKind::Constructor, seq![port_term(n + 2), port_term(n)])
            &&& out[4].1 == dup.ports@[0]
            &&& is_new_agent(out[5].0, n + 9, AgentKind::Constructor, seq![port_term(n + 6), port_term(n + 4)])
            &&& out[5].1 == dup.ports@[1]
            &&& is_new_agent(out[6].0, n + 10, AgentKind::Duplicator, seq![port_term(n + 3), port_term(n + 7)])
            &&& out[6].1 == ctr.ports@[0]
            &&& is_new_agent(out[7].0, n + 11, AgentKind::Duplicator, seq![port_term(n + 1), port_term(n + 5)])
            &&& out[7].1 == ctr.ports@[1]
        }),
        final(ctx).id_alloc.next() == old(ctx).id_alloc.next() + 12,
{
    let (ctr_a_in, ctr_b_in) = take_two(ctr.ports);
    let (dup_a_in, dup_b_in) = take_two(dup.ports);

    // The constructor's neighbours go to the new duplicators and the
    // duplicator's neighbours to the new constructors.
    let ctr_a_out = dup_a_in;
    let ctr_b_out = dup_b_in;
    let dup_a_out = ctr_a_in;
    let dup_b_out = ctr_b_in;

    let (w0_ctr, w0_dup) = ctx.create_wire();
    let (w1_ctr, w1_dup) = ctx.create_wire();
    let (w2_ctr, w2_dup) = ctx.create_wire();
    let (w3_ctr, w3_dup) = ctx.create_wire();
    let (i0c, i0d) = (*w0_ctr.id(), *w0_dup.id());
    let (i1c, i1d) = (*w1_ctr.id(), *w1_dup.id());
    let (i2c, i2d) = (*w2_ctr.id(), *w2_dup.id());
    let (i3c, i3d) = (*w3_ctr.id(), *w3_dup.id());

    let mut out: Vec<Connection> = Vec::new();
    out.push(Connection(w0_ctr, w0_dup));
    out.push(Connection(w1_ctr, w1_dup));
    out.push(Connection(w2_ctr, w2_dup));
    out.push(Connection(w3_ctr, w3_dup));

    let ctr_a = ctx.create_agent(AgentKind::Constructor, two_ports(i1c, i0c));
    let ctr_b = ctx.create_agent(AgentKind::Constructor, two_ports(i3c, i2c));
    let dup_a = ctx.create_agent(AgentKind::Duplicator, two_ports(i1d, i3d));
    let dup_b = ctx.create_agent(AgentKind::Duplicator, two_ports(i0d, i2d));

    out.push(ctr_a.connect(ctr_a_out));
    out.push(ctr_b.connect(ctr_b_out));
    out.push(dup_a.connect(dup_a_out));
    out.push(dup_b.connect(dup_b_out));
    RewriteResult { new_connections: out }
}

/// Two unnamed ports with the given identities.
fn two_ports(a: usize, b: usize) -> (r: Vec<Term>)
    ensures
        r@ == seq![port_term(a as int), port_term(b as int)],
{
    let mut v: Vec<Term> = Vec::new();
    v.push(Term::Port(crate::term::Port::new(a)));
    v.push(Term::Port(crate::term::Port::new(b)));
    proof {
        assert(v@ =~= seq![port_term(a as int), port_term(b as int)]);
    }
    v
}

} // verus!
