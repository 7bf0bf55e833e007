//! Rules and what they produce.
use crate::builtin::Builtin;
use crate::connection::Connection;
use crate::context::RewriteContext;
use crate::term::Agent;
use vstd::prelude::*;

verus! {

/// The connections that a rewrite hands back to the net.
pub struct RewriteResult {
    pub new_connections: Vec<Connection>,
}

impl RewriteResult {
    pub fn empty() -> (r: Self)
        ensures
            r.new_connections@.len() == 0,
    {
        Self { new_connections: Vec::new() }
    }
}

impl From<Vec<Connection>> for RewriteResult {
    fn from(new_connections: Vec<Connection>) -> (r: RewriteResult) {
        RewriteResult { new_connections }
    }
}

impl vstd::std_specs::convert::FromSpecImpl<Vec<Connection>> for RewriteResult {
    open spec fn obeys_from_spec() -> bool {
        true
    }

    open spec fn from_spec(v: Vec<Connection>) -> RewriteResult {
        RewriteResult { new_connections: v }
    }
}

/// A rule that a user of the library supplies for active pairs of its own
/// kinds. Nothing is known of what it returns or of what it does to the
/// identifiers; the runtime checks whatever comes back.
pub trait RewriteRule {
    fn rewrite(&self, ctx: &mut RewriteContext, a: Agent, b: Agent) -> RewriteResult;
}

/// A user rule that hands the pair back as it is; it also serves as the rule
/// type of a rulebook that holds built-in rules only.
pub struct Inert;

impl RewriteRule for Inert {
    fn rewrite(&self, ctx: &mut RewriteContext, a: Agent, b: Agent) -> (r: RewriteResult) {
        let mut out: Vec<Connection> = Vec::new();
        out.push(Connection::from_agents(a, b));
        RewriteResult { new_connections: out }
    }
}

/// How an active pair is rewritten: by one of the built-in rules, or by a
/// rule that the user supplies.
pub enum Rule<D> {
    Builtin(Builtin),
    Dynamic(D),
}

impl<D> Rule<D> {
    /// The rule can rewrite the two agents. A user rule takes any pair.
    pub open spec fn accepts(self, a: Agent, b: Agent) -> bool {
        match self {
            Rule::Builtin(r) => r.accepts(a, b),
            Rule::Dynamic(_) => true,
        }
    }

    /// How many fresh identifiers a built-in rule takes.
    pub open spec fn fresh_ids(self) -> nat {
        match self {
            Rule::Builtin(r) => r.fresh_ids(),
            Rule::Dynamic(_) => 0,
        }
    }

    /// `out` is what the rule makes of `a` and `b` when the next fresh
    /// identifier is `next`. Of a user rule nothing is known.
    pub open spec fn produces(self, next: nat, a: Agent, b: Agent, out: Seq<Connection>) -> bool {
        match self {
            Rule::Builtin(r) => r.produces(next, a, b, out),
            Rule::Dynamic(_) => true,
        }
    }
}

impl<D: RewriteRule> Rule<D> {
    /// Whether the rule can rewrite the two agents.
    pub fn fits(&self, a: &Agent, b: &Agent) -> (r: bool)
        ensures
            r == self.accepts(*a, *b),
    {
        match self {
            Rule::Builtin(r) => r.fits(a, b),
            Rule::Dynamic(_) => true,
        }
    }

    pub fn ids_needed(&self) -> (r: usize)
        ensures
            r == self.fresh_ids(),
    {
        match self {
            Rule::Builtin(r) => r.ids_needed(),
            Rule::Dynamic(_) => 0,
        }
    }

    pub fn rewrite(&self, ctx: &mut RewriteContext, a: Agent, b: Agent) -> (r: RewriteResult)
        requires
            self.accepts(a, b),
            old(ctx).id_alloc.remaining() >= self.fresh_ids(),
        ensures
            self.produces(old(ctx).id_alloc.next(), a, b, r.new_connections@),
            self is Builtin ==> final(ctx).id_alloc.next() == old(ctx).id_alloc.next() + self.fresh_ids(),
    {
        match self {
            Rule::Builtin(builtin) => builtin.rewrite(ctx, a, b),
            Rule::Dynamic(rule) => rule.rewrite(ctx, a, b),
        }
    }
}

} // verus!
