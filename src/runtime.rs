//! The normalization loop: a work stack of active pairs, the connection
//! index, and the wire threading that keeps the index canonical.
use crate::connection::Connection;
use crate::context::RewriteContext;
use crate::id::IdAllocator;
use crate::map::{
    AsHashKey, ConnectionMap, InsertAlreadyExistsError, has_right, holds_id, keys_unique, left_of, lists_entries,
};
use crate::rule::RewriteRule;
use crate::rulebook::{ActivePairPattern, Rulebook, pattern_of};
use crate::term::Term;
use vstd::prelude::*;

verus! {

/// Why a run stopped.
#[derive(Clone, Copy, Debug, PartialEq, Eq, Structural)]
pub enum NetError {
    /// A new connection carries an identity that the index already holds on
    /// some side: an identity was used twice.
    AlreadyPresent(InsertAlreadyExistsError),
    /// A scheduled reduction found no active pair under its identity.
    InvalidReduce(usize),
    /// The agents of an active pair do not fit the rule registered for their
    /// kinds: other kinds, or another number of ports.
    RuleMismatch,
    /// The identifiers ran out.
    IdsExhausted,
    /// The step budget ran out before the net was normal.
    StepLimit,
}

/// A scheduled rewrite of the active pair keyed by an identity.
#[derive(Clone, Copy, Debug, PartialEq, Eq, Structural)]
pub enum Action {
    Reduce(usize),
}

/// The identity that an action reduces.
pub open spec fn action_target(a: Action) -> usize {
    match a {
        Action::Reduce(id) => id,
    }
}

/// The abstract state of a run: the index keyed by left identity, the work
/// stack of identities (top last), and the next fresh identifier.
pub struct NetState {
    pub index: Map<usize, (Term, Term)>,
    pub stack: Seq<usize>,
    pub next: nat,
}

/// Wire threading, up to the final insertion: the index after the
/// contractions that the new connection `x = y` causes, and the pair that is
/// then stored, port first.
pub open spec fn settle(m: Map<usize, (Term, Term)>, x: Term, y: Term) -> (Map<usize, (Term, Term)>, Term, Term)
    decreases m.dom().len(), (if x is Agent && y is Port { 1nat } else { 0nat }),
{
    // An index is always finite; the test only bounds the recursion.
    if !m.dom().finite() {
        (m, x, y)
    } else {
        match (x, y) {
            (Term::Agent(_), Term::Agent(_)) => (m, x, y),
            (Term::Port(_), Term::Port(_)) => {
                let xi = x.spec_id();
                let yi = y.spec_id();
                if m.contains_key(xi) {
                    settle(m.remove(xi), y, m[xi].1)
                } else if m.contains_key(yi) {
                    settle(m.remove(yi), x, m[yi].1)
                } else if has_right(m, yi) {
                    settle(m.remove(left_of(m, yi)), x, m[left_of(m, yi)].0)
                } else if has_right(m, xi) {
                    settle(m.remove(left_of(m, xi)), y, m[left_of(m, xi)].0)
                } else {
                    (m, x, y)
                }
            },
            (Term::Port(_), Term::Agent(_)) => {
                let xi = x.spec_id();
                if m.contains_key(xi) {
                    settle(m.remove(xi), y, m[xi].1)
                } else {
                    (m, x, y)
                }
            },
            (Term::Agent(_), Term::Port(_)) => settle(m, y, x),
        }
    }
}

/// The pair joins two agents whose kinds have a rule.
pub open spec fn reducible<D>(book: Rulebook<D>, l: Term, r: Term) -> bool {
    match (l, r) {
        (Term::Agent(a), Term::Agent(b)) => book.rule_for(pattern_of(a.kind, b.kind)) is Some,
        _ => false,
    }
}

/// Pushing the connection `x = y`: thread it, then store the pair, and
/// schedule it when it is an active pair that has a rule.
pub open spec fn push_spec<D>(s: NetState, book: Rulebook<D>, x: Term, y: Term) -> Result<NetState, NetError> {
    let (m, l, r) = settle(s.index, x, y);
    if holds_id(m, l.spec_id()) {
        Err(NetError::AlreadyPresent(InsertAlreadyExistsError::Left))
    } else if holds_id(m, r.spec_id()) {
        Err(NetError::AlreadyPresent(InsertAlreadyExistsError::Right))
    } else {
        Ok(
            NetState {
                index: m.insert(l.spec_id(), (l, r)),
                stack: if reducible(book, l, r) {
                    s.stack.push(l.spec_id())
                } else {
                    s.stack
                },
                next: s.next,
            },
        )
    }
}

/// Pushing the connections in order, stopping at the first failure.
pub open spec fn push_all<D>(s: NetState, book: Rulebook<D>, cs: Seq<Connection>) -> Result<NetState, NetError>
    decreases cs.len(),
{
    if cs.len() == 0 {
        Ok(s)
    } else {
        match push_spec(s, book, cs[0].0, cs[0].1) {
            Ok(s1) => push_all(s1, book, cs.skip(1)),
            Err(e) => Err(e),
        }
    }
}

/// Pushing fails only on an identity that is already held.
pub proof fn lemma_push_all_error<D>(s: NetState, book: Rulebook<D>, cs: Seq<Connection>)
    ensures
        push_all(s, book, cs) matches Err(e) ==> e is AlreadyPresent,
    decreases cs.len(),
{
    if cs.len() > 0 {
        if let Ok(s1) = push_spec(s, book, cs[0].0, cs[0].1) {
            lemma_push_all_error(s1, book, cs.skip(1));
        }
    }
}

/// No pair of the index has an agent on the left and a port on the right.
pub open spec fn shapes_ok(m: Map<usize, (Term, Term)>) -> bool {
    forall|l: usize| #[trigger] m.contains_key(l) ==> !(m[l].0 is Agent && m[l].1 is Port)
}

/// Every active pair of the index that has a rule is on the work stack.
pub open spec fn scheduled<D>(m: Map<usize, (Term, Term)>, stack: Seq<usize>, book: Rulebook<D>) -> bool {
    forall|l: usize| #[trigger] m.contains_key(l) && reducible(book, m[l].0, m[l].1) ==> stack.contains(l)
}

/// One reduction: pop the top identity, take the active pair keyed by it out
/// of the index, rewrite it by its rule (or hand it back unchanged when its
/// kinds have none), and push what comes out.
pub open spec fn step_rel<D>(s: NetState, book: Rulebook<D>, s2: NetState) -> bool {
    let id = s.stack.last();
    let mid = NetState { index: s.index.remove(id), stack: s.stack.drop_last(), next: s.next };
    &&& s.stack.len() > 0
    &&& s.index.contains_key(id)
    &&& s.index[id].0 is Agent
    &&& s.index[id].1 is Agent
    &&& {
        let a = s.index[id].0->Agent_0;
        let b = s.index[id].1->Agent_0;
        match book.rule_for(pattern_of(a.kind, b.kind)) {
            Some(rule) => {
                &&& rule.accepts(a, b)
                &&& s.next + rule.fresh_ids() <= usize::MAX
                &&& exists|out: Seq<Connection>, n: nat|
                    rule.produces(s.next, a, b, out) && (rule is Builtin ==> n == s.next + rule.fresh_ids())
                        && push_all(NetState { next: n, ..mid }, book, out) == Ok::<NetState, NetError>(s2)
            },
            None => push_all(mid, book, seq![Connection(Term::Agent(a), Term::Agent(b))]) == Ok::<
                NetState,
                NetError,
            >(s2),
        }
    }
}

/// The next reduction from `s` fails with `e`: the top identity keys no
/// active pair, the pair does not fit its rule, the identifiers run out, or
/// pushing what the rule produced fails.
pub open spec fn step_fails<D>(s: NetState, book: Rulebook<D>, e: NetError) -> bool {
    let id = s.stack.last();
    let mid = NetState { index: s.index.remove(id), stack: s.stack.drop_last(), next: s.next };
    &&& s.stack.len() > 0
    &&& if !s.index.contains_key(id) || !(s.index[id].0 is Agent && s.index[id].1 is Agent) {
        e == NetError::InvalidReduce(id)
    } else {
        let a = s.index[id].0->Agent_0;
        let b = s.index[id].1->Agent_0;
        match book.rule_for(pattern_of(a.kind, b.kind)) {
            Some(rule) => if !rule.accepts(a, b) {
                e == NetError::RuleMismatch
            } else if s.next + rule.fresh_ids() > usize::MAX {
                e == NetError::IdsExhausted
            } else {
                exists|out: Seq<Connection>, n: nat|
                    rule.produces(s.next, a, b, out) && (rule is Builtin ==> n == s.next + rule.fresh_ids())
                        && push_all(NetState { next: n, ..mid }, book, out) == Err::<NetState, NetError>(e)
            },
            None => push_all(mid, book, seq![Connection(Term::Agent(a), Term::Agent(b))]) == Err::<
                NetState,
                NetError,
            >(e),
        }
    }
}

/// `s2` is reached from `s0` by `k` reductions.
pub open spec fn runs_to<D>(s0: NetState, book: Rulebook<D>, s2: NetState, k: nat) -> bool
    decreases k,
{
    if k == 0 {
        s2 == s0
    } else {
        exists|s1: NetState| runs_to(s0, book, s1, (k - 1) as nat) && #[trigger] step_rel(s1, book, s2)
    }
}

/// A net in normal form: pairs of distinct identities, none with an agent on
/// the left and a port on the right, and no active pair whose kinds have a
/// rule.
pub open spec fn is_normal_net<D>(v: Seq<(Term, Term)>, book: Rulebook<D>) -> bool {
    &&& forall|i: int| 0 <= i < v.len() ==> !(#[trigger] v[i].0 is Agent && v[i].1 is Port)
    &&& forall|i: int| 0 <= i < v.len() ==> !reducible(book, #[trigger] v[i].0, v[i].1)
    &&& forall|i: int, j: int|
        0 <= i < v.len() && 0 <= j < v.len() && i != j ==> {
            &&& #[trigger] v[i].0.spec_id() != #[trigger] v[j].0.spec_id()
            &&& v[i].1.spec_id() != v[j].1.spec_id()
            &&& v[i].0.spec_id() != v[j].1.spec_id()
        }
}

/// Listing a well-formed index with nothing scheduled gives a net in normal
/// form.
pub proof fn lemma_listing_is_normal<D>(v: Seq<(Term, Term)>, m: Map<usize, (Term, Term)>, book: Rulebook<D>)
    requires
        lists_entries(v, m),
        keys_unique(m),
        shapes_ok(m),
        scheduled(m, Seq::empty(), book),
    ensures
        is_normal_net(v, book),
{
    assert forall|i: int| 0 <= i < v.len() implies !reducible(book, #[trigger] v[i].0, v[i].1) by {
        assert(m.contains_key(v[i].0.key()));
    }
    assert forall|i: int| 0 <= i < v.len() implies !(#[trigger] v[i].0 is Agent && v[i].1 is Port) by {
        assert(m.contains_key(v[i].0.key()));
    }
    assert forall|i: int, j: int|
        0 <= i < v.len() && 0 <= j < v.len() && i != j implies {
            &&& #[trigger] v[i].0.spec_id() != #[trigger] v[j].0.spec_id()
            &&& v[i].1.spec_id() != v[j].1.spec_id()
            &&& v[i].0.spec_id() != v[j].1.spec_id()
        } by {
        let (li, lj) = (v[i].0.key(), v[j].0.key());
        assert(m.contains_key(li) && m.contains_key(lj));
        if i < j {
            assert(li != lj);
        } else {
            assert(lj != li);
        }
    }
}

pub struct Runtime<D> {
    connections: ConnectionMap<Term, Term>,
    action_stack: Vec<Action>,
    rulebook: Rulebook<D>,
    ctx: RewriteContext,
}

impl<D: RewriteRule> Runtime<D> {
    pub closed spec fn state(&self) -> NetState {
        NetState {
            index: self.connections@,
            stack: self.action_stack@.map_values(|a: Action| action_target(a)),
            next: self.ctx.id_alloc.next(),
        }
    }

    pub closed spec fn book(&self) -> Rulebook<D> {
        self.rulebook
    }

    /// The index is well formed (every identity on one side of one pair, the
    /// three inner maps of equal size), holds only Agent-Agent, Port-Agent
    /// and Port-Port pairs, and each active pair with a rule is scheduled.
    pub closed spec fn wf(&self) -> bool {
        &&& self.connections.wf()
        &&& self.rulebook.wf()
        &&& shapes_ok(self.connections@)
        &&& scheduled(self.connections@, self.state().stack, self.rulebook)
    }

    /// Sizes of the index's three inner maps: left to right, right to left,
    /// and left to pair.
    pub closed spec fn index_sizes(&self) -> (nat, nat, nat) {
        self.connections.sizes()
    }

    /// In every well-formed state: each identity of the index stands on one
    /// side of one pair (a pair may join a port to itself); the three inner
    /// maps of the index have the same size; no pair has its agent on the
    /// left and its port on the right; and each active pair that has a rule
    /// is scheduled.
    pub proof fn lemma_index_shape(&self)
        requires
            self.wf(),
        ensures
            keys_unique(self.state().index),
            self.index_sizes().0 == self.state().index.dom().len(),
            self.index_sizes().1 == self.state().index.dom().len(),
            self.index_sizes().2 == self.state().index.dom().len(),
            shapes_ok(self.state().index),
            scheduled(self.state().index, self.state().stack, self.book()),
    {
        self.connections.lemma_wf();
    }

    /// Starts a run: pushes every initial connection, in order, into an empty
    /// index.
    pub fn new(connections: Vec<Connection>, rulebook: Rulebook<D>, id_alloc: IdAllocator) -> (r: Result<
        Runtime<D>,
        NetError,
    >)
        requires
            rulebook.wf(),
        ensures
            match push_all(
                NetState { index: Map::empty(), stack: Seq::empty(), next: id_alloc.next() },
                rulebook,
                connections@,
            ) {
                Ok(s) => r matches Ok(rt) && rt.wf() && rt.state() == s && rt.book() == rulebook,
                Err(e) => r matches Err(e2) && e2 == e,
            },
    {
        let mut runtime = Runtime {
            connections: ConnectionMap::new(),
            action_stack: Vec::new(),
            rulebook,
            ctx: RewriteContext::new(id_alloc),
        };
        proof {
            assert(runtime.state().stack =~= Seq::empty());
        }
        match runtime.push_all(connections) {
            Ok(()) => Ok(runtime),
            Err(e) => Err(e),
        }
    }

    /// Pushes the connections in order, stopping at the first failure.
    fn push_all(&mut self, connections: Vec<Connection>) -> (r: Result<(), NetError>)
        requires
            old(self).wf(),
        ensures
            final(self).wf(),
            final(self).book() == old(self).book(),
            final(self).state().next == old(self).state().next,
            match push_all(old(self).state(), old(self).book(), connections@) {
                Ok(s) => r is Ok && final(self).state() == s,
                Err(e) => r == Err::<(), NetError>(e),
            },
    {
        let mut cs = connections;
        while cs.len() > 0
            invariant
                self.wf(),
                self.book() == old(self).book(),
                self.state().next == old(self).state().next,
                push_all(old(self).state(), old(self).book(), connections@) == push_all(
                    self.state(),
                    self.book(),
                    cs@,
                ),
            decreases cs@.len(),
        {
            let ghost before = cs@;
            let c = cs.remove(0);
            proof {
                assert(cs@ =~= before.skip(1));
            }
            match self.push_connection(c.0, c.1) {
                Ok(()) => {},
                Err(e) => {
                    return Err(e);
                },
            }
        }
        Ok(())
    }

    /// Performs one reduction. `Ok(false)` when nothing is scheduled.
    pub fn reduce_step(&mut self) -> (r: Result<bool, NetError>)
        requires
            old(self).wf(),
        ensures
            final(self).wf(),
            final(self).book() == old(self).book(),
            r == Ok::<bool, NetError>(false) <==> old(self).state().stack.len() == 0,
            r == Ok::<bool, NetError>(false) ==> final(self).state() == old(self).state(),
            r == Ok::<bool, NetError>(true) ==> step_rel(old(self).state(), old(self).book(), final(self).state()),
            r != Err::<bool, NetError>(NetError::StepLimit),
            r matches Err(e) ==> step_fails(old(self).state(), old(self).book(), e),
    {
        let ghost s0 = self.state();
        let action = match self.action_stack.pop() {
            Some(a) => a,
            None => {
                return Ok(false);
            },
        };
        let id = match action {
            Action::Reduce(id) => id,
        };
        proof {
            assert(self.state().stack =~= s0.stack.drop_last());
            assert(s0.stack.last() == id);
        }
        let pair = self.connections.remove_by_left_key(&id);
        proof {
            let st = self.state().stack;
            assert forall|l: usize| #[trigger] self.connections@.contains_key(l) && reducible(self.rulebook, self.connections@[l].0, self.connections@[l].1) implies st.contains(l) by {
                assert(s0.index.contains_key(l));
                let k = choose|k: int| 0 <= k < s0.stack.len() && s0.stack[k] == l;
                assert(k != s0.stack.len() - 1);
                assert(st[k] == l);
            }
        }
        let (l, r) = match pair {
            Some(p) => p,
            None => {
                return Err(NetError::InvalidReduce(id));
            },
        };
        let (a, b) = match (l, r) {
            (Term::Agent(a), Term::Agent(b)) => (a, b),
            _ => {
                return Err(NetError::InvalidReduce(id));
            },
        };
        proof {
            assert(s0.index[id].0->Agent_0 == a);
            assert(s0.index[id].1->Agent_0 == b);
        }
        let pattern = ActivePairPattern::from_agents(&a, &b);
        match self.rulebook.get(&pattern) {
            Some(rule) => {
                if !rule.fits(&a, &b) {
                    return Err(NetError::RuleMismatch);
                }
                if self.ctx.id_alloc.available() < rule.ids_needed() {
                    return Err(NetError::IdsExhausted);
                }
            },
            None => {},
        }
        let ghost mid = self.state();
        let result = self.rulebook.rewrite(&mut self.ctx, a, b);
        let ghost out = result.new_connections@;
        let ghost s1 = self.state();
        proof {
            lemma_push_all_error(s1, self.rulebook, out);
        }
        proof {
            assert(mid.index == s0.index.remove(id));
            assert(mid.stack == s0.stack.drop_last());
            match self.rulebook.rule_for(pattern_of(a.kind, b.kind)) {
                Some(rule) => {
                    assert(s1 == NetState { next: s1.next, ..mid });
                    assert(rule is Builtin ==> s1.next == s0.next + rule.fresh_ids());
                    assert(rule.produces(s0.next, a, b, out));
                },
                None => {
                    assert(s1 == mid);
                },
            }
        }
        match self.push_all(result.new_connections) {
            Ok(()) => {},
            Err(e) => {
                return Err(e);
            },
        }
        proof {
            let fin = self.state();
            match push_all(s1, self.rulebook, out) {
                Ok(s) => {
                    assert(s == fin);
                },
                Err(e) => {
                    assert(false);
                },
            }
            match self.rulebook.rule_for(pattern_of(a.kind, b.kind)) {
                Some(rule) => {
                    assert(s1 == NetState { next: s1.next, ..mid });
                    assert(rule.produces(s0.next, a, b, out));
                    assert(push_all(NetState { next: s1.next, ..mid }, self.rulebook, out) == Ok::<NetState, NetError>(
                        fin,
                    ));
                },
                None => {
                    assert(s1 == mid);
                },
            }
        }
        Ok(true)
    }

    /// Reduces until nothing is scheduled and returns the remaining
    /// connections, each once. Runs of more than `usize::MAX` reductions
    /// stop with `StepLimit`.
    pub fn normalize(self) -> (r: Result<Vec<(Term, Term)>, NetError>)
        requires
            self.wf(),
        ensures
            r matches Ok(v) ==> is_normal_net(v@, self.book()) && exists|k: nat, s2: NetState|
                runs_to(self.state(), self.book(), s2, k) && s2.stack.len() == 0 && lists_entries(
                    v@,
                    s2.index,
                ),
            self.state().stack.len() == 0 ==> (r matches Ok(v) && lists_entries(v@, self.state().index)),
            r == Err::<Vec<(Term, Term)>, NetError>(NetError::StepLimit) ==> exists|s2: NetState|
                runs_to(self.state(), self.book(), s2, usize::MAX as nat) && s2.stack.len() > 0,
            r matches Err(e) ==> e == NetError::StepLimit || exists|k: nat, s2: NetState|
                runs_to(self.state(), self.book(), s2, k) && step_fails(s2, self.book(), e),
    {
        self.normalize_within(usize::MAX)
    }

    /// Like `normalize`, with at most `max_steps` reductions: a run that
    /// needs more stops with `StepLimit`.
    #[verifier::loop_isolation(false)]
    pub fn normalize_within(self, max_steps: usize) -> (r: Result<Vec<(Term, Term)>, NetError>)
        requires
            self.wf(),
        ensures
            r == Err::<Vec<(Term, Term)>, NetError>(NetError::StepLimit) ==> exists|s2: NetState|
                runs_to(self.state(), self.book(), s2, max_steps as nat) && s2.stack.len() > 0,
            r matches Err(e) ==> e == NetError::StepLimit || exists|k: nat, s2: NetState|
                runs_to(self.state(), self.book(), s2, k) && step_fails(s2, self.book(), e),
            r matches Ok(v) ==> is_normal_net(v@, self.book()) && exists|k: nat, s2: NetState|
                runs_to(self.state(), self.book(), s2, k) && s2.stack.len() == 0 && lists_entries(
                    v@,
                    s2.index,
                ),
            self.state().stack.len() == 0 ==> (r matches Ok(v) && lists_entries(v@, self.state().index)),
    {
        let ghost s0 = self.state();
        let ghost book = self.book();
        let mut me = self;
        let mut fuel: usize = max_steps;
        let mut done = false;
        let ghost mut k: nat = 0;
        while !done
            invariant
                me.wf(),
                me.book() == book,
                runs_to(s0, book, me.state(), k),
                done ==> me.state().stack.len() == 0,
                s0.stack.len() == 0 ==> me.state() == s0 && k == 0 && fuel == max_steps,
                k + fuel == max_steps,
            decreases fuel, (if done { 0nat } else { 1nat }),
        {
            if me.action_stack.len() == 0 {
                done = true;
            } else if fuel == 0 {
                return Err(NetError::StepLimit);
            } else {
                match me.reduce_step() {
                    Ok(false) => {
                        done = true;
                    },
                    Ok(true) => {
                        proof {
                            assert(runs_to(s0, book, me.state(), k + 1));
                            k = k + 1;
                        }
                        fuel = fuel - 1;
                    },
                    Err(e) => {
                        return Err(e);
                    },
                }
            }
        }
        let ghost last = me.state();
        proof {
            me.lemma_index_shape();
            assert(last.stack =~= Seq::<usize>::empty());
        }
        let pairs = me.connections.into_pairs();
        proof {
            lemma_listing_is_normal(pairs@, last.index, book);
        }
        Ok(pairs)
    }

    /// Pushes the connection `left = right`, threading wires as it goes.
    pub fn push_connection(&mut self, left: Term, right: Term) -> (r: Result<(), NetError>)
        requires
            old(self).wf(),
        ensures
            final(self).wf(),
            final(self).book() == old(self).book(),
            final(self).state().next == old(self).state().next,
            match push_spec(old(self).state(), old(self).book(), left, right) {
                Ok(s) => r is Ok && final(self).state() == s,
                Err(e) => r == Err::<(), NetError>(e),
            },
            r is Err ==> final(self).state() == (NetState {
                index: settle(old(self).state().index, left, right).0,
                ..old(self).state()
            }),
        decreases old(self).state().index.dom().len(), (if left is Agent && right is Port { 1nat } else { 0nat }),
    {
        proof {
            self.connections.lemma_wf();
        }
        let left_agent = match &left {
            Term::Agent(_) => true,
            Term::Port(_) => false,
        };
        let right_agent = match &right {
            Term::Agent(_) => true,
            Term::Port(_) => false,
        };
        if left_agent && !right_agent {
            return self.push_connection(right, left);
        }
        if !left_agent {
            let li = *left.id();
            if let Some(pair) = self.connections.remove_by_left_key(&li) {
                let (_, other) = pair;
                proof {
                    self.lemma_removed_keeps_wf(old(self));
                }
                return self.push_connection(right, other);
            }
            if !right_agent {
                let ri = *right.id();
                if let Some(pair) = self.connections.remove_by_left_key(&ri) {
                    let (_, other) = pair;
                    proof {
                        self.lemma_removed_keeps_wf(old(self));
                    }
                    return self.push_connection(left, other);
                }
                if let Some(pair) = self.connections.remove_by_right_key(&ri) {
                    let (other, _) = pair;
                    proof {
                        self.lemma_removed_keeps_wf(old(self));
                    }
                    return self.push_connection(left, other);
                }
                if let Some(pair) = self.connections.remove_by_right_key(&li) {
                    let (other, _) = pair;
                    proof {
                        self.lemma_removed_keeps_wf(old(self));
                    }
                    return self.push_connection(right, other);
                }
            }
        }
        self.store(left, right)
    }

    /// A sub-index of a well-formed runtime, with the same stack and rules,
    /// is well formed.
    proof fn lemma_removed_keeps_wf(&self, before: &Runtime<D>)
        requires
            before.wf(),
            self.connections.wf(),
            self.rulebook == before.rulebook,
            self.action_stack@ == before.action_stack@,
            self.ctx == before.ctx,
            self.connections@.submap_of(before.connections@),
        ensures
            self.wf(),
    {
        assert forall|l: usize| #[trigger] self.connections@.contains_key(l) implies before.connections@.contains_key(l) by {}
    }

    /// Stores a threaded pair and schedules it when it can be reduced.
    fn store(&mut self, left: Term, right: Term) -> (r: Result<(), NetError>)
        requires
            old(self).wf(),
            !(left is Agent && right is Port),
        ensures
            final(self).wf(),
            final(self).book() == old(self).book(),
            final(self).state().next == old(self).state().next,
            holds_id(old(self).state().index, left.spec_id()) ==> r == Err::<(), NetError>(
                NetError::AlreadyPresent(InsertAlreadyExistsError::Left),
            ) && final(self).state() == old(self).state(),
            !holds_id(old(self).state().index, left.spec_id()) && holds_id(old(self).state().index, right.spec_id())
                ==> r == Err::<(), NetError>(NetError::AlreadyPresent(InsertAlreadyExistsError::Right))
                && final(self).state() == old(self).state(),
            !holds_id(old(self).state().index, left.spec_id()) && !holds_id(old(self).state().index, right.spec_id())
                ==> r is Ok && final(self).state() == (NetState {
                index: old(self).state().index.insert(left.spec_id(), (left, right)),
                stack: if reducible(old(self).book(), left, right) {
                    old(self).state().stack.push(left.spec_id())
                } else {
                    old(self).state().stack
                },
                next: old(self).state().next,
            }),
    {
        let lid = *left.id();
        let reduce = match (&left, &right) {
            (Term::Agent(a), Term::Agent(b)) => {
                let pattern = ActivePairPattern::from_agents(a, b);
                self.rulebook.get(&pattern).is_some()
            },
            _ => false,
        };
        let ghost m0 = self.connections@;
        let ghost l0 = left;
        let ghost r0 = right;
        match self.connections.insert(left, right) {
            Ok(()) => {},
            Err(side) => {
                return Err(NetError::AlreadyPresent(side));
            },
        }
        if reduce {
            self.action_stack.push(Action::Reduce(lid));
        }
        proof {
            let st = self.action_stack@.map_values(|a: Action| action_target(a));
            let st0 = old(self).action_stack@.map_values(|a: Action| action_target(a));
            if reduce {
                assert(st =~= st0.push(lid));
            } else {
                assert(st =~= st0);
            }
            assert forall|l: usize| #[trigger] self.connections@.contains_key(l) && reducible(self.rulebook, self.connections@[l].0, self.connections@[l].1) implies st.contains(l) by {
                if l == lid {
                    assert(st[st.len() - 1] == lid);
                } else {
                    assert(m0.contains_key(l));
                    assert(st0.contains(l));
                    let k = choose|k: int| 0 <= k < st0.len() && st0[k] == l;
                    assert(st[k] == l);
                }
            }
        }
        Ok(())
    }
}

} // verus!
