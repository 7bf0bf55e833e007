//! Laws of wire threading and reduction, stated over the abstract state of
//! a run.
use crate::builtin::{Builtin, is_new_agent};
use crate::context::port_term;
use crate::connection::Connection;
use crate::map::{AsHashKey, has_right, holds_id, left_of, lists_entries};
use crate::rule::Rule;
use crate::rulebook::{Rulebook, pattern_of};
use crate::runtime::{NetState, is_normal_net, push_all, push_spec, reducible, runs_to, settle, step_fails, step_rel};
use crate::term::{Agent, AgentKind, Port, Term};
use vstd::prelude::*;

verus! {

/// The state of a run before anything is pushed.
pub open spec fn empty_state(next: nat) -> NetState {
    NetState { index: Map::empty(), stack: Seq::empty(), next }
}

/// Wire threading contracts a path of wires: pushing `p1 = p2`, then
/// `p2 = p3`, then `p3 = a` into an empty index leaves the single connection
/// `p1 = a`, and schedules nothing.
pub proof fn lemma_wire_round_trip<D>(p1: Port, p2: Port, p3: Port, a: Agent, book: Rulebook<D>, next: nat)
    requires
        p1.id != p2.id,
        p1.id != p3.id,
        p2.id != p3.id,
        a.id != p1.id,
        a.id != p2.id,
        a.id != p3.id,
    ensures
        push_all(
            empty_state(next),
            book,
            seq![
                Connection(Term::Port(p1), Term::Port(p2)),
                Connection(Term::Port(p2), Term::Port(p3)),
                Connection(Term::Port(p3), Term::Agent(a)),
            ],
        ) == Ok::<NetState, crate::runtime::NetError>(
            NetState {
                index: Map::<usize, (Term, Term)>::empty().insert(p1.id, (Term::Port(p1), Term::Agent(a))),
                stack: Seq::empty(),
                next,
            },
        ),
{
    let (t1, t2, t3, ta) = (Term::Port(p1), Term::Port(p2), Term::Port(p3), Term::Agent(a));
    let cs = seq![Connection(t1, t2), Connection(t2, t3), Connection(t3, ta)];
    let e = Map::<usize, (Term, Term)>::empty();
    let s0 = empty_state(next);
    assert(e.dom() =~= Set::empty());
    // First wire: stored as it is.
    assert(settle(e, t1, t2) == (e, t1, t2));
    let m1 = e.insert(p1.id, (t1, t2));
    let s1 = NetState { index: m1, stack: Seq::empty(), next };
    assert(push_spec(s0, book, t1, t2) == Ok::<NetState, crate::runtime::NetError>(s1));
    // Second wire: `p2` is the right end of the first, which is contracted.
    assert(m1.dom() =~= set![p1.id]);
    assert(m1.dom().finite());
    assert(has_right(m1, p2.id)) by {
        assert(m1.contains_key(p1.id) && m1[p1.id].1.spec_id() == p2.id);
    }
    assert(!has_right(m1, p3.id));
    assert(left_of(m1, p2.id) == p1.id);
    assert(m1.remove(p1.id) =~= e);
    assert(settle(e, t3, t1) == (e, t3, t1));
    assert(settle(m1, t2, t3) == (e, t3, t1));
    let m2 = e.insert(p3.id, (t3, t1));
    let s2 = NetState { index: m2, stack: Seq::empty(), next };
    assert(push_spec(s1, book, t2, t3) == Ok::<NetState, crate::runtime::NetError>(s2));
    // Third: `p3` leads to `p1`, which the agent takes.
    assert(m2.dom() =~= set![p3.id]);
    assert(m2.remove(p3.id) =~= e);
    assert(settle(e, t1, ta) == (e, t1, ta));
    assert(settle(e, ta, t1) == (e, t1, ta));
    assert(settle(m2, t3, ta) == (e, t1, ta));
    let s3 = NetState { index: e.insert(p1.id, (t1, ta)), stack: Seq::empty(), next };
    assert(push_spec(s2, book, t3, ta) == Ok::<NetState, crate::runtime::NetError>(s3));
    assert(cs.skip(1) =~= seq![Connection(t2, t3), Connection(t3, ta)]);
    assert(cs.skip(1).skip(1) =~= seq![Connection(t3, ta)]);
    assert(cs.skip(1).skip(1).skip(1) =~= Seq::<Connection>::empty());
    assert(push_all(s3, book, cs.skip(1).skip(1).skip(1)) == Ok::<NetState, crate::runtime::NetError>(s3));
    assert(push_all(s2, book, cs.skip(1).skip(1)) == Ok::<NetState, crate::runtime::NetError>(s3));
    assert(push_all(s1, book, cs.skip(1)) == Ok::<NetState, crate::runtime::NetError>(s3));
}

/// Annihilation erases: once `e1 = e2` joins two erasers in an empty index
/// whose rulebook has the annihilation rule for them, the one reduction
/// possible empties the net, and no reduction fails. So every run that
/// empties the work stack ends with an empty index, and no run stops with
/// work left or with an error.
pub proof fn lemma_eraser_pair_vanishes<D>(e1: Agent, e2: Agent, book: Rulebook<D>, next: nat)
    requires
        e1.kind == AgentKind::Eraser,
        e2.kind == AgentKind::Eraser,
        e1.ports@.len() == 0,
        e2.ports@.len() == 0,
        next <= usize::MAX,
        book.rule_for(pattern_of(AgentKind::Eraser, AgentKind::Eraser)) == Some(Rule::<D>::Builtin(Builtin::EraEra)),
    ensures
        ({
            let s = push_all(empty_state(next), book, seq![Connection(Term::Agent(e1), Term::Agent(e2))]);
            &&& s is Ok
            &&& forall|k: nat, s2: NetState| #[trigger]
                runs_to(s->Ok_0, book, s2, k) ==> {
                    &&& (s2.stack.len() > 0 ==> k == 0)
                    &&& (s2.stack.len() == 0 ==> s2.index == Map::<usize, (Term, Term)>::empty())
                    &&& forall|e: crate::runtime::NetError| !#[trigger] step_fails(s2, book, e)
                }
        }),
{
    let (t1, t2) = (Term::Agent(e1), Term::Agent(e2));
    let cs = seq![Connection(t1, t2)];
    let e = Map::<usize, (Term, Term)>::empty();
    assert(e.dom() =~= Set::empty());
    assert(settle(e, t1, t2) == (e, t1, t2));
    let s0 = NetState { index: e.insert(e1.id, (t1, t2)), stack: seq![e1.id], next };
    assert(Seq::<usize>::empty().push(e1.id) =~= seq![e1.id]);
    assert(push_spec(empty_state(next), book, t1, t2) == Ok::<NetState, crate::runtime::NetError>(s0));
    assert(cs.skip(1) =~= Seq::<Connection>::empty());
    assert(push_all(s0, book, cs.skip(1)) == Ok::<NetState, crate::runtime::NetError>(s0));
    let s = push_all(empty_state(next), book, cs);
    assert(s == Ok::<NetState, crate::runtime::NetError>(s0));
    let done = NetState { index: e, stack: Seq::empty(), next };
    assert forall|k: nat, s2: NetState| #[trigger] runs_to(s0, book, s2, k) implies {
        &&& (s2.stack.len() > 0 ==> k == 0)
        &&& (s2.stack.len() == 0 ==> s2.index == e)
        &&& forall|err: crate::runtime::NetError| !#[trigger] step_fails(s2, book, err)
    } by {
        lemma_eraser_runs(e1, e2, book, next, s0, done, s2, k);
        assert forall|err: crate::runtime::NetError| !#[trigger] step_fails(s2, book, err) by {
            if s2 == s0 {
                lemma_eraser_step_succeeds(e1, e2, book, next, s0, err);
            }
        }
    }
}

/// Reducing the eraser pair cannot fail.
proof fn lemma_eraser_step_succeeds<D>(e1: Agent, e2: Agent, book: Rulebook<D>, next: nat, s0: NetState, err: crate::runtime::NetError)
    requires
        e1.kind == AgentKind::Eraser,
        e2.kind == AgentKind::Eraser,
        e1.ports@.len() == 0,
        e2.ports@.len() == 0,
        next <= usize::MAX,
        book.rule_for(pattern_of(AgentKind::Eraser, AgentKind::Eraser)) == Some(Rule::<D>::Builtin(Builtin::EraEra)),
        s0 == (NetState {
            index: Map::<usize, (Term, Term)>::empty().insert(e1.id, (Term::Agent(e1), Term::Agent(e2))),
            stack: seq![e1.id],
            next,
        }),
    ensures
        !step_fails(s0, book, err),
{
    let id = e1.id;
    let rule = Rule::<D>::Builtin(Builtin::EraEra);
    assert(s0.stack.last() == id);
    let mid = NetState { index: s0.index.remove(id), stack: s0.stack.drop_last(), next: s0.next };
    assert(rule.accepts(e1, e2));
    assert forall|out: Seq<Connection>, n: nat|
        !(rule.produces(s0.next, e1, e2, out) && (rule is Builtin ==> n == s0.next + rule.fresh_ids())
            && push_all(NetState { next: n, ..mid }, book, out) == Err::<NetState, crate::runtime::NetError>(err)) by {
        if rule.produces(s0.next, e1, e2, out) {
            assert(out.len() == 0);
        }
    }
}

/// Every state that reductions reach from the eraser pair is the pair
/// itself, before any step, or the empty state.
proof fn lemma_eraser_runs<D>(e1: Agent, e2: Agent, book: Rulebook<D>, next: nat, s0: NetState, done: NetState, s2: NetState, k: nat)
    requires
        e1.kind == AgentKind::Eraser,
        e2.kind == AgentKind::Eraser,
        e1.ports@.len() == 0,
        e2.ports@.len() == 0,
        book.rule_for(pattern_of(AgentKind::Eraser, AgentKind::Eraser)) == Some(Rule::<D>::Builtin(Builtin::EraEra)),
        s0 == (NetState {
            index: Map::<usize, (Term, Term)>::empty().insert(e1.id, (Term::Agent(e1), Term::Agent(e2))),
            stack: seq![e1.id],
            next,
        }),
        done == (NetState { index: Map::empty(), stack: Seq::empty(), next }),
        runs_to(s0, book, s2, k),
    ensures
        (k == 0 && s2 == s0) || (k > 0 && s2 == done),
    decreases k,
{
    if k > 0 {
        let s1 = choose|s1: NetState| runs_to(s0, book, s1, (k - 1) as nat) && #[trigger] step_rel(s1, book, s2);
        lemma_eraser_runs(e1, e2, book, next, s0, done, s1, (k - 1) as nat);
        if s1 == s0 {
            let id = e1.id;
            assert(s0.stack.last() == id);
            assert(s0.index.remove(id) =~= Map::<usize, (Term, Term)>::empty());
            assert(s0.stack.drop_last() =~= Seq::<usize>::empty());
            let rule = Rule::<D>::Builtin(Builtin::EraEra);
            let (out, n) = choose|out: Seq<Connection>, n: nat|
                rule.produces(s0.next, e1, e2, out) && (rule is Builtin ==> n == s0.next + rule.fresh_ids())
                    && push_all(NetState { next: n, ..done }, book, out) == Ok::<NetState, crate::runtime::NetError>(s2);
            assert(out.len() == 0);
        }
    }
}

/// When every reduction from `s0` reaches a state with nothing scheduled
/// that satisfies `q`, every run from `s0` stops after at most one step, in
/// `s0` or in such a state.
proof fn lemma_one_step_runs<D>(s0: NetState, book: Rulebook<D>, q: spec_fn(NetState) -> bool, s2: NetState, k: nat)
    requires
        forall|s: NetState| #[trigger] step_rel(s0, book, s) ==> s.stack.len() == 0 && q(s),
        runs_to(s0, book, s2, k),
    ensures
        (k == 0 && s2 == s0) || (k == 1 && s2.stack.len() == 0 && q(s2)),
    decreases k,
{
    if k > 0 {
        let s1 = choose|s1: NetState| runs_to(s0, book, s1, (k - 1) as nat) && #[trigger] step_rel(s1, book, s2);
        lemma_one_step_runs(s0, book, q, s1, (k - 1) as nat);
    }
}

/// Two constructors that each join their two ports into a loop annihilate,
/// and threading the two wires they leave collapses both loops into one:
/// every run that empties the work stack ends with the single wire
/// `pc = pc`, and no run stops with work left or with an error.
pub proof fn lemma_ctr_mirror<D>(a: Agent, c: Agent, pa: Port, pc: Port, book: Rulebook<D>, next: nat)
    requires
        a.kind == AgentKind::Constructor,
        c.kind == AgentKind::Constructor,
        a.ports@ == seq![Term::Port(pa), Term::Port(pa)],
        c.ports@ == seq![Term::Port(pc), Term::Port(pc)],
        pa.id != pc.id,
        next <= usize::MAX,
        book.rule_for(pattern_of(AgentKind::Constructor, AgentKind::Constructor)) == Some(
            Rule::<D>::Builtin(Builtin::CtrCtr),
        ),
    ensures
        ({
            let s = push_all(empty_state(next), book, seq![Connection(Term::Agent(a), Term::Agent(c))]);
            &&& s is Ok
            &&& forall|k: nat, s2: NetState| #[trigger]
                runs_to(s->Ok_0, book, s2, k) ==> {
                    &&& (s2.stack.len() > 0 ==> k == 0)
                    &&& (s2.stack.len() == 0 ==> s2.index == Map::<usize, (Term, Term)>::empty().insert(
                        pc.id,
                        (Term::Port(pc), Term::Port(pc)),
                    ))
                    &&& forall|e: crate::runtime::NetError| !#[trigger] step_fails(s2, book, e)
                }
        }),
{
    let (ta, tc, tpa, tpc) = (Term::Agent(a), Term::Agent(c), Term::Port(pa), Term::Port(pc));
    let cs = seq![Connection(ta, tc)];
    let e = Map::<usize, (Term, Term)>::empty();
    assert(e.dom() =~= Set::empty());
    assert(settle(e, ta, tc) == (e, ta, tc));
    let s0 = NetState { index: e.insert(a.id, (ta, tc)), stack: seq![a.id], next };
    assert(Seq::<usize>::empty().push(a.id) =~= seq![a.id]);
    assert(push_spec(empty_state(next), book, ta, tc) == Ok::<NetState, crate::runtime::NetError>(s0));
    assert(cs.skip(1) =~= Seq::<Connection>::empty());
    assert(push_all(s0, book, cs.skip(1)) == Ok::<NetState, crate::runtime::NetError>(s0));
    // The one reduction: the rule hands back `pa = pc` twice.
    let rule = Rule::<D>::Builtin(Builtin::CtrCtr);
    let out = seq![Connection(tpa, tpc), Connection(tpa, tpc)];
    let goal = e.insert(pc.id, (tpc, tpc));
    let mid = NetState { index: s0.index.remove(a.id), stack: s0.stack.drop_last(), next };
    assert(s0.index.remove(a.id) =~= e);
    assert(s0.stack.drop_last() =~= Seq::<usize>::empty());
    let m1 = e.insert(pa.id, (tpa, tpc));
    assert(settle(e, tpa, tpc) == (e, tpa, tpc));
    let s1 = NetState { index: m1, ..mid };
    assert(push_spec(mid, book, tpa, tpc) == Ok::<NetState, crate::runtime::NetError>(s1));
    assert(m1.dom() =~= set![pa.id]);
    assert(m1.remove(pa.id) =~= e);
    assert(settle(e, tpc, tpc) == (e, tpc, tpc));
    assert(settle(m1, tpa, tpc) == (e, tpc, tpc));
    let s2 = NetState { index: goal, ..mid };
    assert(push_spec(s1, book, tpa, tpc) == Ok::<NetState, crate::runtime::NetError>(s2));
    assert(out.skip(1) =~= seq![Connection(tpa, tpc)]);
    assert(out.skip(1).skip(1) =~= Seq::<Connection>::empty());
    assert(push_all(s2, book, out.skip(1).skip(1)) == Ok::<NetState, crate::runtime::NetError>(s2));
    assert(push_all(s1, book, out.skip(1)) == Ok::<NetState, crate::runtime::NetError>(s2));
    assert(push_all(mid, book, out) == Ok::<NetState, crate::runtime::NetError>(s2));
    assert(s0.stack.last() == a.id);
    assert(rule.accepts(a, c));
    let q = |s: NetState| s.index == goal;
    assert forall|s: NetState| #[trigger] step_rel(s0, book, s) implies s.stack.len() == 0 && q(s) by {
        let (o, n) = choose|o: Seq<Connection>, n: nat|
            rule.produces(s0.next, a, c, o) && (rule is Builtin ==> n == s0.next + rule.fresh_ids())
                && push_all(NetState { next: n, ..mid }, book, o) == Ok::<NetState, crate::runtime::NetError>(s);
        assert(o == out);
        assert(NetState { next: n, ..mid } == mid);
    }
    assert forall|err: crate::runtime::NetError| !#[trigger] step_fails(s0, book, err) by {
        assert forall|o: Seq<Connection>, n: nat|
            !(rule.produces(s0.next, a, c, o) && (rule is Builtin ==> n == s0.next + rule.fresh_ids()) && push_all(
                NetState { next: n, ..mid },
                book,
                o,
            ) == Err::<NetState, crate::runtime::NetError>(err)) by {
            if rule.produces(s0.next, a, c, o) && (rule is Builtin ==> n == s0.next + rule.fresh_ids()) {
                assert(o == out);
                assert(NetState { next: n, ..mid } == mid);
            }
        }
    }
    assert forall|k: nat, s3: NetState| #[trigger] runs_to(s0, book, s3, k) implies {
        &&& (s3.stack.len() > 0 ==> k == 0)
        &&& (s3.stack.len() == 0 ==> s3.index == goal)
        &&& forall|err: crate::runtime::NetError| !#[trigger] step_fails(s3, book, err)
    } by {
        lemma_one_step_runs(s0, book, q, s3, k);
    }
}

/// The index that erasing a constructor leaves: `px` and `py` each joined to
/// a fresh eraser, which take the identities of the constructor and of the
/// eraser.
pub open spec fn erased_index(m: Map<usize, (Term, Term)>, px: Port, py: Port, ctr_id: usize, era_id: usize) -> bool {
    &&& m.dom() == set![px.id, py.id]
    &&& m[px.id].0 == Term::Port(px)
    &&& is_new_agent(m[px.id].1, ctr_id as int, AgentKind::Eraser, seq![])
    &&& m[py.id].0 == Term::Port(py)
    &&& is_new_agent(m[py.id].1, era_id as int, AgentKind::Eraser, seq![])
}

/// An eraser meets a constructor: every run that empties the work stack
/// ends with the constructor's two ports each joined to a fresh eraser, and
/// no run stops with work left or with an error.
pub proof fn lemma_erase_constructor<D>(e: Agent, c: Agent, px: Port, py: Port, book: Rulebook<D>, next: nat)
    requires
        e.kind == AgentKind::Eraser,
        e.ports@.len() == 0,
        c.kind == AgentKind::Constructor,
        c.ports@ == seq![Term::Port(px), Term::Port(py)],
        e.id != c.id,
        px.id != py.id,
        px.id != e.id,
        px.id != c.id,
        py.id != e.id,
        py.id != c.id,
        next <= usize::MAX,
        book.rule_for(pattern_of(AgentKind::Eraser, AgentKind::Constructor)) == Some(
            Rule::<D>::Builtin(Builtin::CtrEra),
        ),
    ensures
        ({
            let s = push_all(empty_state(next), book, seq![Connection(Term::Agent(e), Term::Agent(c))]);
            &&& s is Ok
            &&& forall|k: nat, s2: NetState| #[trigger]
                runs_to(s->Ok_0, book, s2, k) ==> {
                    &&& (s2.stack.len() > 0 ==> k == 0)
                    &&& (s2.stack.len() == 0 ==> erased_index(s2.index, px, py, c.id, e.id))
                    &&& forall|err: crate::runtime::NetError| !#[trigger] step_fails(s2, book, err)
                }
        }),
{
    let (te, tc) = (Term::Agent(e), Term::Agent(c));
    let cs = seq![Connection(te, tc)];
    let m0 = Map::<usize, (Term, Term)>::empty();
    assert(m0.dom() =~= Set::empty());
    assert(settle(m0, te, tc) == (m0, te, tc));
    let s0 = NetState { index: m0.insert(e.id, (te, tc)), stack: seq![e.id], next };
    assert(Seq::<usize>::empty().push(e.id) =~= seq![e.id]);
    assert(push_spec(empty_state(next), book, te, tc) == Ok::<NetState, crate::runtime::NetError>(s0));
    assert(cs.skip(1) =~= Seq::<Connection>::empty());
    assert(push_all(s0, book, cs.skip(1)) == Ok::<NetState, crate::runtime::NetError>(s0));
    let rule = Rule::<D>::Builtin(Builtin::CtrEra);
    let mid = NetState { index: s0.index.remove(e.id), stack: s0.stack.drop_last(), next };
    assert(s0.index.remove(e.id) =~= m0);
    assert(s0.stack.drop_last() =~= Seq::<usize>::empty());
    assert(s0.stack.last() == e.id);
    crate::rulebook::lemma_pattern_injective(
        AgentKind::Eraser,
        AgentKind::Constructor,
        AgentKind::Constructor,
        AgentKind::Eraser,
    );
    assert(rule.accepts(e, c));
    let q = |s: NetState| erased_index(s.index, px, py, c.id, e.id);
    assert forall|o: Seq<Connection>| rule.produces(s0.next, e, c, o) implies push_all(mid, book, o) matches Ok(s)
        && s.stack.len() == 0 && q(s) by {
        lemma_erasers_pushed(e, c, px, py, book, mid, o);
    }
    assert forall|s: NetState| #[trigger] step_rel(s0, book, s) implies s.stack.len() == 0 && q(s) by {
        let (o, n) = choose|o: Seq<Connection>, n: nat|
            rule.produces(s0.next, e, c, o) && (rule is Builtin ==> n == s0.next + rule.fresh_ids())
                && push_all(NetState { next: n, ..mid }, book, o) == Ok::<NetState, crate::runtime::NetError>(s);
        assert(NetState { next: n, ..mid } == mid);
    }
    assert forall|err: crate::runtime::NetError| !#[trigger] step_fails(s0, book, err) by {
        assert forall|o: Seq<Connection>, n: nat|
            !(rule.produces(s0.next, e, c, o) && (rule is Builtin ==> n == s0.next + rule.fresh_ids()) && push_all(
                NetState { next: n, ..mid },
                book,
                o,
            ) == Err::<NetState, crate::runtime::NetError>(err)) by {
            if rule.produces(s0.next, e, c, o) && (rule is Builtin ==> n == s0.next + rule.fresh_ids()) {
                assert(NetState { next: n, ..mid } == mid);
            }
        }
    }
    assert forall|k: nat, s3: NetState| #[trigger] runs_to(s0, book, s3, k) implies {
        &&& (s3.stack.len() > 0 ==> k == 0)
        &&& (s3.stack.len() == 0 ==> erased_index(s3.index, px, py, c.id, e.id))
        &&& forall|err: crate::runtime::NetError| !#[trigger] step_fails(s3, book, err)
    } by {
        lemma_one_step_runs(s0, book, q, s3, k);
    }
}

/// Pushing what the erasing rule produces onto an empty index stores the
/// two erasers at the constructor's ports.
proof fn lemma_erasers_pushed<D>(e: Agent, c: Agent, px: Port, py: Port, book: Rulebook<D>, mid: NetState, o: Seq<Connection>)
    requires
        e.kind == AgentKind::Eraser,
        c.kind == AgentKind::Constructor,
        c.ports@ == seq![Term::Port(px), Term::Port(py)],
        e.id != c.id,
        px.id != py.id,
        px.id != e.id,
        px.id != c.id,
        py.id != e.id,
        py.id != c.id,
        mid.index == Map::<usize, (Term, Term)>::empty(),
        mid.stack.len() == 0,
        Rule::<D>::Builtin(Builtin::CtrEra).produces(mid.next, e, c, o),
    ensures
        push_all(mid, book, o) matches Ok(s) && s.stack.len() == 0 && erased_index(s.index, px, py, c.id, e.id),
{
    let (tpx, tpy) = (Term::Port(px), Term::Port(py));
    let (ta, tb) = (o[0].0, o[1].0);
    let m0 = mid.index;
    assert(m0.dom() =~= Set::empty());
    assert(o[0].1 == tpx && o[1].1 == tpy);
    assert(settle(m0, tpx, ta) == (m0, tpx, ta));
    assert(settle(m0, ta, tpx) == (m0, tpx, ta));
    let m1 = m0.insert(px.id, (tpx, ta));
    let s1 = NetState { index: m1, ..mid };
    assert(push_spec(mid, book, ta, tpx) == Ok::<NetState, crate::runtime::NetError>(s1));
    assert(m1.dom() =~= set![px.id]);
    assert(m1.dom().finite());
    assert(!has_right(m1, py.id));
    assert(!has_right(m1, tb.spec_id()));
    assert(settle(m1, tpy, tb) == (m1, tpy, tb));
    assert(settle(m1, tb, tpy) == (m1, tpy, tb));
    let m2 = m1.insert(py.id, (tpy, tb));
    let s2 = NetState { index: m2, ..mid };
    assert(push_spec(s1, book, tb, tpy) == Ok::<NetState, crate::runtime::NetError>(s2));
    assert(o.skip(1).skip(1) =~= Seq::<Connection>::empty());
    assert(push_all(s2, book, o.skip(1).skip(1)) == Ok::<NetState, crate::runtime::NetError>(s2));
    assert(push_all(s1, book, o.skip(1)) == Ok::<NetState, crate::runtime::NetError>(s2));
    assert(m2.dom() =~= set![px.id, py.id]);
}

/// Pushing `x = y`, neither end of which the index holds anywhere (ends and
/// keys all within `ids`), stores the pair, port first, and schedules
/// nothing when it is not an active pair.
proof fn lemma_push_fresh<D>(s: NetState, book: Rulebook<D>, x: Term, y: Term, ids: Set<usize>)
    requires
        s.index.dom().finite(),
        forall|l: usize| #[trigger] s.index.contains_key(l) ==> ids.contains(l) && ids.contains(s.index[l].1.spec_id()),
        !ids.contains(x.spec_id()),
        !ids.contains(y.spec_id()),
        !(x is Agent && y is Agent),
    ensures
        ({
            let (l, r) = if x is Agent { (y, x) } else { (x, y) };
            push_spec(s, book, x, y) == Ok::<NetState, crate::runtime::NetError>(
                NetState { index: s.index.insert(l.spec_id(), (l, r)), ..s },
            )
        }),
{
    let m = s.index;
    assert forall|k: usize| !ids.contains(k) implies !#[trigger] holds_id(m, k) by {
        if has_right(m, k) {
            let l = choose|l: usize| #[trigger] m.contains_key(l) && m[l].1.key() == k;
            assert(ids.contains(m[l].1.spec_id()));
        }
    }
    assert(!has_right(m, x.spec_id()) && !holds_id(m, x.spec_id()));
    assert(!has_right(m, y.spec_id()) && !holds_id(m, y.spec_id()));
    if x is Agent {
        assert(settle(m, y, x) == (m, y, x));
    } else {
        assert(settle(m, x, y) == (m, x, y));
    }
}

/// The index that duplicating a constructor leaves, fresh identifiers
/// starting at `n`: four wires between fresh ports, the duplicator's old
/// ports `px`, `py` at two fresh constructors, and the constructor's old
/// ports `pu`, `pv` at two fresh duplicators, each fresh agent holding one
/// end of two of the wires.
pub open spec fn duplicated_index(m: Map<usize, (Term, Term)>, n: int, px: Port, py: Port, pu: Port, pv: Port) -> bool {
    &&& m.dom() == set![n as usize, (n + 2) as usize, (n + 4) as usize, (n + 6) as usize, px.id, py.id, pu.id, pv.id]
    &&& m[n as usize] == (port_term(n), port_term(n + 1))
    &&& m[(n + 2) as usize] == (port_term(n + 2), port_term(n + 3))
    &&& m[(n + 4) as usize] == (port_term(n + 4), port_term(n + 5))
    &&& m[(n + 6) as usize] == (port_term(n + 6), port_term(n + 7))
    &&& m[px.id].0 == Term::Port(px)
    &&& is_new_agent(m[px.id].1, n + 8, AgentKind::Constructor, seq![port_term(n + 2), port_term(n)])
    &&& m[py.id].0 == Term::Port(py)
    &&& is_new_agent(m[py.id].1, n + 9, AgentKind::Constructor, seq![port_term(n + 6), port_term(n + 4)])
    &&& m[pu.id].0 == Term::Port(pu)
    &&& is_new_agent(m[pu.id].1, n + 10, AgentKind::Duplicator, seq![port_term(n + 3), port_term(n + 7)])
    &&& m[pv.id].0 == Term::Port(pv)
    &&& is_new_agent(m[pv.id].1, n + 11, AgentKind::Duplicator, seq![port_term(n + 1), port_term(n + 5)])
}

/// A duplicator copies a constructor: with every identity of the net below
/// the first fresh one `next`, every run that empties the work stack ends
/// with the eight connections of `duplicated_index`, and no run stops with
/// work left or with an error.
pub proof fn lemma_duplicate_constructor<D>(
    d: Agent,
    c: Agent,
    px: Port,
    py: Port,
    pu: Port,
    pv: Port,
    book: Rulebook<D>,
    next: nat,
)
    requires
        d.kind == AgentKind::Duplicator,
        c.kind == AgentKind::Constructor,
        d.ports@ == seq![Term::Port(px), Term::Port(py)],
        c.ports@ == seq![Term::Port(pu), Term::Port(pv)],
        d.id != c.id,
        px.id != py.id && px.id != pu.id && px.id != pv.id && py.id != pu.id && py.id != pv.id && pu.id != pv.id,
        d.id < next && c.id < next && px.id < next && py.id < next && pu.id < next && pv.id < next,
        next + 12 <= usize::MAX,
        book.rule_for(pattern_of(AgentKind::Duplicator, AgentKind::Constructor)) == Some(
            Rule::<D>::Builtin(Builtin::CtrDup),
        ),
    ensures
        ({
            let s = push_all(empty_state(next), book, seq![Connection(Term::Agent(d), Term::Agent(c))]);
            &&& s is Ok
            &&& forall|k: nat, s2: NetState| #[trigger]
                runs_to(s->Ok_0, book, s2, k) ==> {
                    &&& (s2.stack.len() > 0 ==> k == 0)
                    &&& (s2.stack.len() == 0 ==> duplicated_index(s2.index, next as int, px, py, pu, pv))
                    &&& forall|err: crate::runtime::NetError| !#[trigger] step_fails(s2, book, err)
                }
        }),
{
    let (td, tc) = (Term::Agent(d), Term::Agent(c));
    let cs = seq![Connection(td, tc)];
    let m0 = Map::<usize, (Term, Term)>::empty();
    assert(m0.dom() =~= Set::empty());
    assert(settle(m0, td, tc) == (m0, td, tc));
    let s0 = NetState { index: m0.insert(d.id, (td, tc)), stack: seq![d.id], next };
    assert(Seq::<usize>::empty().push(d.id) =~= seq![d.id]);
    assert(push_spec(empty_state(next), book, td, tc) == Ok::<NetState, crate::runtime::NetError>(s0));
    assert(cs.skip(1) =~= Seq::<Connection>::empty());
    assert(push_all(s0, book, cs.skip(1)) == Ok::<NetState, crate::runtime::NetError>(s0));
    let rule = Rule::<D>::Builtin(Builtin::CtrDup);
    let mid = NetState { index: s0.index.remove(d.id), stack: s0.stack.drop_last(), next };
    assert(s0.index.remove(d.id) =~= m0);
    assert(s0.stack.drop_last() =~= Seq::<usize>::empty());
    assert(s0.stack.last() == d.id);
    crate::rulebook::lemma_pattern_injective(
        AgentKind::Duplicator,
        AgentKind::Constructor,
        AgentKind::Constructor,
        AgentKind::Duplicator,
    );
    assert(rule.accepts(d, c));
    let q = |s: NetState| duplicated_index(s.index, next as int, px, py, pu, pv);
    assert forall|s: NetState| #[trigger] step_rel(s0, book, s) implies s.stack.len() == 0 && q(s) by {
        let (o, n) = choose|o: Seq<Connection>, n: nat|
            rule.produces(s0.next, d, c, o) && (rule is Builtin ==> n == s0.next + rule.fresh_ids())
                && push_all(NetState { next: n, ..mid }, book, o) == Ok::<NetState, crate::runtime::NetError>(s);
        lemma_copies_pushed(d, c, px, py, pu, pv, book, NetState { next: n, ..mid }, o, next);
    }
    assert forall|err: crate::runtime::NetError| !#[trigger] step_fails(s0, book, err) by {
        assert forall|o: Seq<Connection>, n: nat|
            !(rule.produces(s0.next, d, c, o) && (rule is Builtin ==> n == s0.next + rule.fresh_ids()) && push_all(
                NetState { next: n, ..mid },
                book,
                o,
            ) == Err::<NetState, crate::runtime::NetError>(err)) by {
            if rule.produces(s0.next, d, c, o) && (rule is Builtin ==> n == s0.next + rule.fresh_ids()) {
                lemma_copies_pushed(d, c, px, py, pu, pv, book, NetState { next: n, ..mid }, o, next);
            }
        }
    }
    assert forall|k: nat, s3: NetState| #[trigger] runs_to(s0, book, s3, k) implies {
        &&& (s3.stack.len() > 0 ==> k == 0)
        &&& (s3.stack.len() == 0 ==> duplicated_index(s3.index, next as int, px, py, pu, pv))
        &&& forall|err: crate::runtime::NetError| !#[trigger] step_fails(s3, book, err)
    } by {
        lemma_one_step_runs(s0, book, q, s3, k);
    }
}

/// Pushing what the duplication rule produces onto an empty index stores
/// its eight connections as they are.
#[verifier::rlimit(50)]
proof fn lemma_copies_pushed<D>(
    d: Agent,
    c: Agent,
    px: Port,
    py: Port,
    pu: Port,
    pv: Port,
    book: Rulebook<D>,
    mid: NetState,
    o: Seq<Connection>,
    next: nat,
)
    requires
        d.kind == AgentKind::Duplicator,
        c.kind == AgentKind::Constructor,
        d.ports@ == seq![Term::Port(px), Term::Port(py)],
        c.ports@ == seq![Term::Port(pu), Term::Port(pv)],
        px.id != py.id && px.id != pu.id && px.id != pv.id && py.id != pu.id && py.id != pv.id && pu.id != pv.id,
        px.id < next && py.id < next && pu.id < next && pv.id < next,
        next + 12 <= usize::MAX,
        mid.index == Map::<usize, (Term, Term)>::empty(),
        mid.stack.len() == 0,
        Rule::<D>::Builtin(Builtin::CtrDup).produces(next, d, c, o),
    ensures
        push_all(mid, book, o) matches Ok(s) && s.stack.len() == 0 && duplicated_index(
            s.index,
            next as int,
            px,
            py,
            pu,
            pv,
        ),
{
    let n = next as int;
    let m0 = mid.index;
    assert(m0.dom() =~= Set::empty());
    let w = |k: int| (k as usize);
    // The four wires, then the four fresh agents at the old ports.
    let (t4, t5, t6, t7) = (o[4].0, o[5].0, o[6].0, o[7].0);
    let s1 = NetState { index: m0.insert(w(n), (port_term(n), port_term(n + 1))), ..mid };
    lemma_push_fresh(mid, book, port_term(n), port_term(n + 1), Set::empty());
    let ids1 = set![w(n), w(n + 1)];
    let m1 = s1.index;
    let s2 = NetState { index: m1.insert(w(n + 2), (port_term(n + 2), port_term(n + 3))), ..mid };
    lemma_push_fresh(s1, book, port_term(n + 2), port_term(n + 3), ids1);
    let ids2 = ids1.insert(w(n + 2)).insert(w(n + 3));
    let s3 = NetState { index: s2.index.insert(w(n + 4), (port_term(n + 4), port_term(n + 5))), ..mid };
    lemma_push_fresh(s2, book, port_term(n + 4), port_term(n + 5), ids2);
    let ids3 = ids2.insert(w(n + 4)).insert(w(n + 5));
    let s4 = NetState { index: s3.index.insert(w(n + 6), (port_term(n + 6), port_term(n + 7))), ..mid };
    lemma_push_fresh(s3, book, port_term(n + 6), port_term(n + 7), ids3);
    let ids4 = ids3.insert(w(n + 6)).insert(w(n + 7));
    let s5 = NetState { index: s4.index.insert(px.id, (Term::Port(px), t4)), ..mid };
    lemma_push_fresh(s4, book, t4, Term::Port(px), ids4);
    let ids5 = ids4.insert(px.id).insert(w(n + 8));
    let s6 = NetState { index: s5.index.insert(py.id, (Term::Port(py), t5)), ..mid };
    lemma_push_fresh(s5, book, t5, Term::Port(py), ids5);
    let ids6 = ids5.insert(py.id).insert(w(n + 9));
    let s7 = NetState { index: s6.index.insert(pu.id, (Term::Port(pu), t6)), ..mid };
    lemma_push_fresh(s6, book, t6, Term::Port(pu), ids6);
    let ids7 = ids6.insert(pu.id).insert(w(n + 10));
    let s8 = NetState { index: s7.index.insert(pv.id, (Term::Port(pv), t7)), ..mid };
    lemma_push_fresh(s7, book, t7, Term::Port(pv), ids7);
    assert(o.skip(1).skip(1).skip(1).skip(1).skip(1).skip(1).skip(1).skip(1) =~= Seq::<Connection>::empty());
    assert(push_all(s8, book, o.skip(1).skip(1).skip(1).skip(1).skip(1).skip(1).skip(1).skip(1)) == Ok::<
        NetState,
        crate::runtime::NetError,
    >(s8));
    assert(push_all(s7, book, o.skip(1).skip(1).skip(1).skip(1).skip(1).skip(1).skip(1)) == Ok::<
        NetState,
        crate::runtime::NetError,
    >(s8));
    assert(push_all(s6, book, o.skip(1).skip(1).skip(1).skip(1).skip(1).skip(1)) == Ok::<
        NetState,
        crate::runtime::NetError,
    >(s8));
    assert(push_all(s5, book, o.skip(1).skip(1).skip(1).skip(1).skip(1)) == Ok::<NetState, crate::runtime::NetError>(
        s8,
    ));
    assert(push_all(s4, book, o.skip(1).skip(1).skip(1).skip(1)) == Ok::<NetState, crate::runtime::NetError>(s8));
    assert(push_all(s3, book, o.skip(1).skip(1).skip(1)) == Ok::<NetState, crate::runtime::NetError>(s8));
    assert(push_all(s2, book, o.skip(1).skip(1)) == Ok::<NetState, crate::runtime::NetError>(s8));
    assert(push_all(s1, book, o.skip(1)) == Ok::<NetState, crate::runtime::NetError>(s8));
    assert(s8.index.dom() =~= set![w(n), w(n + 2), w(n + 4), w(n + 6), px.id, py.id, pu.id, pv.id]);
}

/// The connections of a list of pairs, in order.
pub open spec fn connections_of(v: Seq<(Term, Term)>) -> Seq<Connection> {
    v.map_values(|p: (Term, Term)| Connection(p.0, p.1))
}

/// A normal form is a fixed point: pushing the pairs of a net in normal form
/// into an empty runtime stores each of them as it is and schedules nothing,
/// so normalizing that runtime again returns the same net.
pub proof fn lemma_normal_form_is_fixed<D>(v: Seq<(Term, Term)>, book: Rulebook<D>, next: nat)
    requires
        is_normal_net(v, book),
    ensures
        push_all(empty_state(next), book, connections_of(v)) matches Ok(s) && s.stack.len() == 0
            && s.next == next && lists_entries(v, s.index),
{
    let s = empty_state(next);
    assert(s.index.dom() =~= Set::empty());
    assert(connections_of(v).skip(0) =~= connections_of(v));
    lemma_push_normal_suffix(s, book, v, 0);
}

/// Pushing the pairs `v[i..]` of a net in normal form onto an index that
/// holds exactly `v[..i]` stores each pair as it is.
proof fn lemma_push_normal_suffix<D>(s: NetState, book: Rulebook<D>, v: Seq<(Term, Term)>, i: int)
    requires
        is_normal_net(v, book),
        0 <= i <= v.len(),
        s.index.dom().finite(),
        s.index.dom().len() == i,
        s.stack.len() == 0,
        forall|j: int| 0 <= j < i ==> #[trigger] s.index.contains_key(v[j].0.spec_id()) && s.index[v[j].0.spec_id()] == v[j],
        forall|l: usize| #[trigger] s.index.contains_key(l) ==> exists|j: int| 0 <= j < i && v[j].0.spec_id() == l,
    ensures
        push_all(s, book, connections_of(v).skip(i)) matches Ok(s2) && s2.stack.len() == 0 && s2.next == s.next
            && lists_entries(v, s2.index),
    decreases v.len() - i,
{
    let m = s.index;
    let cs = connections_of(v).skip(i);
    if i == v.len() {
        assert(cs.len() == 0);
        assert forall|j: int| 0 <= j < v.len() implies #[trigger] m.contains_key(v[j].0.key()) && m[v[j].0.key()] == v[j] by {
            assert(m.contains_key(v[j].0.spec_id()));
        }
        assert forall|a: int, b: int| 0 <= a < b < v.len() implies #[trigger] v[a].0.key() != #[trigger] v[b].0.key() by {
            assert(v[a].0.spec_id() != v[b].0.spec_id());
        }
    } else {
        let (x, y) = v[i];
        let (xi, yi) = (x.spec_id(), y.spec_id());
        assert(!m.contains_key(xi)) by {
            if m.contains_key(xi) {
                let j = choose|j: int| 0 <= j < i && v[j].0.spec_id() == xi;
                assert(v[i].0.spec_id() != v[j].0.spec_id());
            }
        }
        assert(!m.contains_key(yi)) by {
            if m.contains_key(yi) {
                let j = choose|j: int| 0 <= j < i && v[j].0.spec_id() == yi;
                assert(v[j].0.spec_id() != v[i].1.spec_id());
            }
        }
        assert(!has_right(m, xi)) by {
            if has_right(m, xi) {
                let l = choose|l: usize| #[trigger] m.contains_key(l) && m[l].1.key() == xi;
                let j = choose|j: int| 0 <= j < i && v[j].0.spec_id() == l;
                assert(m.contains_key(v[j].0.spec_id()));
                assert(v[i].0.spec_id() != v[j].1.spec_id());
            }
        }
        assert(!has_right(m, yi)) by {
            if has_right(m, yi) {
                let l = choose|l: usize| #[trigger] m.contains_key(l) && m[l].1.key() == yi;
                let j = choose|j: int| 0 <= j < i && v[j].0.spec_id() == l;
                assert(m.contains_key(v[j].0.spec_id()));
                assert(v[i].1.spec_id() != v[j].1.spec_id());
            }
        }
        assert(!(x is Agent && y is Port));
        assert(!reducible(book, x, y));
        assert(settle(m, x, y) == (m, x, y));
        let m2 = m.insert(xi, (x, y));
        let s2 = NetState { index: m2, stack: s.stack, next: s.next };
        assert(push_spec(s, book, x, y) == Ok::<NetState, crate::runtime::NetError>(s2));
        assert(cs[0] == Connection(x, y));
        assert(cs.skip(1) =~= connections_of(v).skip(i + 1));
        assert(m2.dom() =~= m.dom().insert(xi));
        assert forall|j: int| 0 <= j < i + 1 implies #[trigger] m2.contains_key(v[j].0.spec_id()) && m2[v[j].0.spec_id()]
            == v[j] by {
            if j < i {
                assert(v[j].0.spec_id() != v[i].0.spec_id());
                assert(m.contains_key(v[j].0.spec_id()));
            }
        }
        assert forall|l: usize| #[trigger] m2.contains_key(l) implies exists|j: int| 0 <= j < i + 1 && v[j].0.spec_id() == l by {
            if l != xi {
                assert(m.contains_key(l));
                let j = choose|j: int| 0 <= j < i && v[j].0.spec_id() == l;
                assert(0 <= j < i + 1 && v[j].0.spec_id() == l);
            } else {
                assert(v[i].0.spec_id() == l);
            }
        }
        lemma_push_normal_suffix(s2, book, v, i + 1);
    }
}

} // verus!
