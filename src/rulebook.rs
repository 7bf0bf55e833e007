//! Dispatch from an unordered pair of kinds to the rule that rewrites it.
use crate::builtin::Builtin;
use crate::connection::Connection;
use crate::context::RewriteContext;
use crate::rule::{RewriteResult, RewriteRule, Rule};
use crate::term::{Agent, AgentKind, Term, kind_lt};
use vstd::prelude::*;

verus! {

/// An unordered pair of kinds, stored with the lesser kind first.
#[derive(Clone, Copy, Debug, PartialEq, Eq, Structural, PartialOrd, Ord)]
pub struct ActivePairPattern(AgentKind, AgentKind);

/// The pattern of the two kinds, in either order.
pub closed spec fn pattern_of(a: AgentKind, b: AgentKind) -> ActivePairPattern {
    if kind_lt(a, b) {
        ActivePairPattern(a, b)
    } else {
        ActivePairPattern(b, a)
    }
}

/// Two patterns are equal exactly when they hold the same two kinds.
pub proof fn lemma_pattern_injective(a: AgentKind, b: AgentKind, c: AgentKind, d: AgentKind)
    ensures
        pattern_of(a, b) == pattern_of(c, d) <==> ((a == c && b == d) || (a == d && b == c)),
{
}

impl ActivePairPattern {
    pub closed spec fn first(&self) -> AgentKind {
        self.0
    }

    pub closed spec fn second(&self) -> AgentKind {
        self.1
    }

    pub fn new(a: AgentKind, b: AgentKind) -> (r: Self)
        ensures
            r == pattern_of(a, b),
            r.first() == (if kind_lt(a, b) { a } else { b }),
            r.second() == (if kind_lt(a, b) { b } else { a }),
    {
        if a.precedes(&b) {
            Self(a, b)
        } else {
            Self(b, a)
        }
    }

    pub fn from_agents(a: &Agent, b: &Agent) -> (r: Self)
        ensures
            r == pattern_of(a.kind, b.kind),
    {
        Self::new(a.kind, b.kind)
    }

    pub fn pattern(&self) -> (r: (&AgentKind, &AgentKind))
        ensures
            *r.0 == self.first(),
            *r.1 == self.second(),
    {
        (&self.0, &self.1)
    }
}

/// The rule registered for `p` in the list of entries `rules`.
pub open spec fn lookup<D>(rules: Seq<(ActivePairPattern, Rule<D>)>, p: ActivePairPattern) -> Option<Rule<D>> {
    if exists|i: int| 0 <= i < rules.len() && #[trigger] rules[i].0 == p {
        Some(rules[choose|i: int| 0 <= i < rules.len() && #[trigger] rules[i].0 == p].1)
    } else {
        None
    }
}

/// The built-in rule for each pair of kinds of the eraser / constructor /
/// duplicator family, in either order.
pub open spec fn builtin_rule<D>(a: AgentKind, b: AgentKind) -> Option<Rule<D>> {
    match (a, b) {
        (AgentKind::Eraser, AgentKind::Eraser) => Some(Rule::Builtin(Builtin::EraEra)),
        (AgentKind::Constructor, AgentKind::Constructor) => Some(Rule::Builtin(Builtin::CtrCtr)),
        (AgentKind::Duplicator, AgentKind::Duplicator) => Some(Rule::Builtin(Builtin::DupDup)),
        (AgentKind::Duplicator, AgentKind::Eraser) | (AgentKind::Eraser, AgentKind::Duplicator) => Some(
            Rule::Builtin(Builtin::DupEra),
        ),
        (AgentKind::Constructor, AgentKind::Eraser) | (AgentKind::Eraser, AgentKind::Constructor) => Some(
            Rule::Builtin(Builtin::CtrEra),
        ),
        (AgentKind::Constructor, AgentKind::Duplicator) | (AgentKind::Duplicator, AgentKind::Constructor) => Some(
            Rule::Builtin(Builtin::CtrDup),
        ),
        _ => None,
    }
}

/// A map from patterns to rules.
pub struct Rulebook<D> {
    /// Entries with pairwise distinct patterns.
    map: Vec<(ActivePairPattern, Rule<D>)>,
}

impl<D> Rulebook<D> {
    pub closed spec fn wf(&self) -> bool {
        forall|i: int, j: int|
            0 <= i < j < self.map@.len() ==> #[trigger] self.map@[i].0 != #[trigger] self.map@[j].0
    }

    /// The rule registered for the pattern, if any.
    pub closed spec fn rule_for(&self, p: ActivePairPattern) -> Option<Rule<D>> {
        lookup(self.map@, p)
    }
}

impl<D: RewriteRule> Rulebook<D> {
    /// The rulebook with no rules.
    pub fn empty() -> (r: Rulebook<D>)
        ensures
            r.wf(),
            forall|p: ActivePairPattern| #[trigger] r.rule_for(p) is None,
    {
        Rulebook { map: Vec::new() }
    }

    /// Rewrites an active pair with the rule registered for its kinds. Without
    /// one, the pair is handed back as it is, to stay in the net.
    pub fn rewrite(&self, ctx: &mut RewriteContext, left: Agent, right: Agent) -> (r: RewriteResult)
        requires
            self.wf(),
            match self.rule_for(pattern_of(left.kind, right.kind)) {
                Some(rule) => rule.accepts(left, right) && old(ctx).id_alloc.remaining() >= rule.fresh_ids(),
                None => true,
            },
        ensures
            match self.rule_for(pattern_of(left.kind, right.kind)) {
                Some(rule) => rule.produces(old(ctx).id_alloc.next(), left, right, r.new_connections@) && (rule is Builtin
                    ==> final(ctx).id_alloc.next() == old(ctx).id_alloc.next() + rule.fresh_ids()),
                None => r.new_connections@ == seq![Connection(Term::Agent(left), Term::Agent(right))]
                    && final(ctx).id_alloc.next() == old(ctx).id_alloc.next(),
            },
    {
        let pattern = ActivePairPattern::from_agents(&left, &right);
        match self.get(&pattern) {
            Some(rule) => rule.rewrite(ctx, left, right),
            None => {
                let mut out: Vec<Connection> = Vec::new();
                out.push(Connection::from_agents(left, right));
                proof {
                    assert(out@ =~= seq![Connection(Term::Agent(left), Term::Agent(right))]);
                }
                RewriteResult { new_connections: out }
            },
        }
    }


    /// Looks up the rule registered for the pattern.
    pub fn get(&self, p: &ActivePairPattern) -> (r: Option<&Rule<D>>)
        requires
            self.wf(),
        ensures
            match r {
                Some(rule) => self.rule_for(*p) == Some(*rule),
                None => self.rule_for(*p) is None,
            },
    {
        let mut i: usize = 0;
        while i < self.map.len()
            invariant
                self.wf(),
                0 <= i <= self.map@.len(),
                forall|j: int| 0 <= j < i ==> #[trigger] self.map@[j].0 != *p,
            decreases self.map@.len() - i,
        {
            if self.map[i].0 == *p {
                proof {
                    let c = choose|j: int| 0 <= j < self.map@.len() && #[trigger] self.map@[j].0 == *p;
                    if c != i as int {
                        if c < i {
                        } else {
                            assert(self.map@[i as int].0 != self.map@[c].0);
                        }
                    }
                }
                return Some(&self.map[i].1);
            }
            i = i + 1;
        }
        None
    }

    /// Registers `rule` for `pattern`, in place of any rule it had.
    pub fn add_rule(&mut self, pattern: ActivePairPattern, rule: Rule<D>)
        requires
            old(self).wf(),
        ensures
            final(self).wf(),
            forall|p: ActivePairPattern| #[trigger] final(self).rule_for(p) == if p == pattern {
                Some(rule)
            } else {
                old(self).rule_for(p)
            },
    {
        let ghost m0 = self.map@;
        let mut i: usize = 0;
        while i < self.map.len()
            invariant
                self.wf(),
                0 <= i <= self.map@.len(),
                self.map@ == m0,
                old(self).map@ == m0,
                forall|j: int| 0 <= j < i ==> #[trigger] self.map@[j].0 != pattern,
            decreases self.map@.len() - i,
        {
            if self.map[i].0 == pattern {
                self.map.set(i, (pattern, rule));
                proof {
                    assert forall|p: ActivePairPattern| #[trigger] lookup(self.map@, p) == if p == pattern {
                        Some(rule)
                    } else {
                        lookup(m0, p)
                    } by {
                        if p == pattern {
                            assert(self.map@[i as int].0 == p);
                            let c = choose|j: int| 0 <= j < self.map@.len() && #[trigger] self.map@[j].0 == p;
                            if c != i {
                                assert(self.map@[c].0 != self.map@[i as int].0);
                            }
                        } else {
                            assert forall|j: int| 0 <= j < self.map@.len() implies (#[trigger] self.map@[j].0 == p)
                                == (m0[j].0 == p) by {}
                            if exists|j: int| 0 <= j < m0.len() && #[trigger] m0[j].0 == p {
                                let c = choose|j: int| 0 <= j < m0.len() && #[trigger] m0[j].0 == p;
                                assert(self.map@[c].0 == p);
                            }
                            if exists|j: int| 0 <= j < self.map@.len() && #[trigger] self.map@[j].0 == p {
                                let c = choose|j: int| 0 <= j < self.map@.len() && #[trigger] self.map@[j].0 == p;
                                assert(m0[c].0 == p);
                            }
                        }
                    }
                }
                return;
            }
            i = i + 1;
        }
        self.map.push((pattern, rule));
        proof {
            let n = m0.len() as int;
            assert forall|p: ActivePairPattern| #[trigger] lookup(self.map@, p) == if p == pattern {
                Some(rule)
            } else {
                lookup(m0, p)
            } by {
                if p == pattern {
                    assert(self.map@[n].0 == p);
                } else {
                    if exists|j: int| 0 <= j < m0.len() && #[trigger] m0[j].0 == p {
                        let c = choose|j: int| 0 <= j < m0.len() && #[trigger] m0[j].0 == p;
                        assert(self.map@[c].0 == p);
                    }
                    if exists|j: int| 0 <= j < self.map@.len() && #[trigger] self.map@[j].0 == p {
                        let c = choose|j: int| 0 <= j < self.map@.len() && #[trigger] self.map@[j].0 == p;
                        assert(m0[c].0 == p);
                    }
                }
            }
        }
    }
}

impl<D: RewriteRule> Default for Rulebook<D> {
    /// The rulebook with the six built-in rules.
    fn default() -> (r: Rulebook<D>)
        ensures
            r.wf(),
            forall|a: AgentKind, b: AgentKind| #[trigger] r.rule_for(pattern_of(a, b)) == builtin_rule::<D>(a, b),
    {
        let mut book = Rulebook::empty();
        let all = Builtin::all();
        book.add_rule(all[0].pattern(), Rule::Builtin(all[0]));
        book.add_rule(all[1].pattern(), Rule::Builtin(all[1]));
        book.add_rule(all[2].pattern(), Rule::Builtin(all[2]));
        book.add_rule(all[3].pattern(), Rule::Builtin(all[3]));
        book.add_rule(all[4].pattern(), Rule::Builtin(all[4]));
        book.add_rule(all[5].pattern(), Rule::Builtin(all[5]));
        book
    }
}

} // verus!
