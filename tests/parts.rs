use inet::builtin::Builtin;
use inet::connection::Connection;
use inet::context::RewriteContext;
use inet::id::IdAllocator;
use inet::map::{ConnectionMap, InsertAlreadyExistsError};
use inet::rule::{Inert, RewriteResult, Rule};
use inet::rulebook::{ActivePairPattern, Rulebook};
use inet::term::{Agent, AgentKind, Port, Term};

fn port(id: usize) -> Term {
    Term::Port(Port::new(id))
}

fn eraser(id: usize) -> Term {
    Term::Agent(Agent::new_eraser(id))
}

#[test]
fn id_allocator_counts_up() {
    let mut ids = IdAllocator::new();
    assert_eq!(ids.create_id(), 0);
    assert_eq!(ids.create_id(), 1);
    ids.retire_id(0);
    assert_eq!(ids.create_id(), 2);
    let mut ids = IdAllocator::new_at(40);
    assert_eq!(ids.peek_next(), 40);
    assert_eq!(ids.create_id(), 40);
    ids.set_next_id(7);
    assert_eq!(ids.create_id(), 7);
    assert_eq!(ids.available(), usize::MAX - 8);
}

#[test]
fn context_makes_fresh_terms() {
    let mut ctx = RewriteContext::new(IdAllocator::new_at(5));
    assert_eq!(*ctx.create_port().id(), 5);
    let (a, b) = ctx.create_wire();
    assert_eq!((*a.id(), *b.id()), (6, 7));
    match ctx.create_agent(AgentKind::Duplicator, vec![port(1), port(2)]) {
        Term::Agent(ag) => {
            assert_eq!(ag.id, 8);
            assert_eq!(ag.kind, AgentKind::Duplicator);
            assert_eq!(ag.ports.len(), 2);
        }
        Term::Port(_) => panic!("expected an agent"),
    }
}

#[test]
fn terms_compare_by_id() {
    let named = Port::new(3).with_name("x".to_string());
    assert_eq!(named.name, Some("x".to_string()));
    assert!(Term::Port(named) == port(3));
    assert!(port(3) == eraser(3));
    assert!(port(3) != port(4));
}

#[test]
fn connections_are_unordered() {
    assert!(port(1).connect(port(2)) == port(2).connect(port(1)));
    assert!(port(1).connect(port(2)) != port(1).connect(port(3)));
    let c = Connection::from_agents(Agent::new_eraser(1), Agent::new_eraser(2));
    assert!(c.is_active_pair());
    assert_eq!(c.id(), 1);
    assert_eq!(*c.left().id(), 1);
    assert_eq!(*c.right().id(), 2);
    assert!(!port(1).connect(eraser(2)).is_active_pair());
}

#[test]
fn agent_ports_array() {
    let ctr = Agent::new_constructor(1, port(2), port(3));
    match ctr.ports_array() {
        Ok([a, b]) => assert_eq!((*a.id(), *b.id()), (2, 3)),
        Err(_) => panic!("two ports expected"),
    }
    assert_eq!(Agent::new_eraser(1).ports_array().err().map(|_| 0), None.or(Some(0)));
    match Agent::new_eraser(1).ports_array() {
        Ok(_) => panic!("an eraser has no ports"),
        Err(n) => assert_eq!(n, 0),
    }
    let mut named = Agent::new(4, AgentKind::Dynamic(2), vec![port(5)]);
    named.name("f".to_string());
    assert_eq!(named.name, Some("f".to_string()));
    assert_eq!(named.id, 4);
}

#[test]
fn pattern_is_unordered() {
    let a = ActivePairPattern::new(AgentKind::Constructor, AgentKind::Eraser);
    let b = ActivePairPattern::new(AgentKind::Eraser, AgentKind::Constructor);
    assert_eq!(a, b);
    assert_eq!(a.pattern(), (&AgentKind::Eraser, &AgentKind::Constructor));
    let d = ActivePairPattern::new(AgentKind::Dynamic(9), AgentKind::Dynamic(3));
    assert_eq!(d.pattern(), (&AgentKind::Dynamic(3), &AgentKind::Dynamic(9)));
    let x = Agent::new_duplicator(1, port(2), port(3));
    let y = Agent::new_constructor(4, port(5), port(6));
    assert_eq!(
        ActivePairPattern::from_agents(&x, &y),
        ActivePairPattern::new(AgentKind::Duplicator, AgentKind::Constructor)
    );
}

#[test]
fn builtins_cover_six_patterns() {
    let all = Builtin::all();
    assert_eq!(all.len(), 6);
    let book = Rulebook::<Inert>::default();
    for b in &all {
        assert!(matches!(book.get(&b.pattern()), Some(Rule::Builtin(r)) if r == b));
    }
    assert!(book.get(&ActivePairPattern::new(AgentKind::Eraser, AgentKind::Dynamic(1))).is_none());
    assert_eq!(Builtin::CtrDup.ids_needed(), 12);
    assert_eq!(Builtin::EraEra.ids_needed(), 0);
}

#[test]
fn add_rule_replaces() {
    let mut book = Rulebook::<Inert>::empty();
    let p = ActivePairPattern::new(AgentKind::Eraser, AgentKind::Eraser);
    assert!(book.get(&p).is_none());
    book.add_rule(p, Rule::Builtin(Builtin::CtrCtr));
    book.add_rule(p, Rule::Builtin(Builtin::EraEra));
    assert!(matches!(book.get(&p), Some(Rule::Builtin(Builtin::EraEra))));
    book.add_rule(p, Rule::Dynamic(Inert));
    assert!(matches!(book.get(&p), Some(Rule::Dynamic(_))));
}

#[test]
fn builtin_ctr_ctr_pairs_ports() {
    let mut ctx = RewriteContext::new(IdAllocator::new_at(50));
    let a = Agent::new_constructor(1, port(2), port(3));
    let b = Agent::new_constructor(4, port(5), port(6));
    let RewriteResult { new_connections } = Builtin::CtrCtr.rewrite(&mut ctx, a, b);
    let ids: Vec<(usize, usize)> = new_connections.iter().map(|c| (*c.0.id(), *c.1.id())).collect();
    assert_eq!(ids, vec![(2, 5), (3, 6)]);
    assert_eq!(ctx.id_alloc.peek_next(), 50);
}

#[test]
fn builtin_era_era_vanishes() {
    let mut ctx = RewriteContext::new(IdAllocator::new_at(50));
    let r = Builtin::EraEra.rewrite(&mut ctx, Agent::new_eraser(1), Agent::new_eraser(2));
    assert!(r.new_connections.is_empty());
    assert!(RewriteResult::empty().new_connections.is_empty());
}

#[test]
fn builtin_dup_era_reuses_ids() {
    let mut ctx = RewriteContext::new(IdAllocator::new_at(50));
    let dup = Agent::new_duplicator(7, port(2), port(3));
    let r = Rule::<Inert>::Builtin(Builtin::DupEra).rewrite(&mut ctx, Agent::new_eraser(1), dup);
    let ids: Vec<(usize, usize)> = r.new_connections.iter().map(|c| (*c.0.id(), *c.1.id())).collect();
    assert_eq!(ids, vec![(7, 2), (1, 3)]);
}

#[test]
fn rulebook_rewrite_without_rule_returns_pair() {
    let book = Rulebook::<Inert>::empty();
    let mut ctx = RewriteContext::new(IdAllocator::new_at(50));
    let r = book.rewrite(&mut ctx, Agent::new_eraser(1), Agent::new_eraser(2));
    assert_eq!(r.new_connections.len(), 1);
    assert!(r.new_connections[0].is_active_pair());
    assert_eq!(r.new_connections[0].id(), 1);
}

#[test]
fn connection_map_insert_and_lookup() {
    let mut m: ConnectionMap<Term, Term> = ConnectionMap::new();
    assert_eq!(m.len(), 0);
    assert_eq!(m.insert(port(1), eraser(2)), Ok(()));
    assert_eq!(m.insert(port(3), port(4)), Ok(()));
    assert_eq!(m.len(), 2);
    assert_eq!(m.insert(port(1), port(9)), Err(InsertAlreadyExistsError::Left));
    assert_eq!(m.insert(port(4), port(9)), Err(InsertAlreadyExistsError::Left));
    assert_eq!(m.insert(port(9), port(2)), Err(InsertAlreadyExistsError::Right));
    assert_eq!(m.insert(port(9), port(3)), Err(InsertAlreadyExistsError::Right));
    assert_eq!(m.len(), 2);
    assert!(m.contains_id(4));
    assert!(!m.contains_id(9));
    assert_eq!(*m.get_by_left_key(&1).unwrap().1.id(), 2);
    assert_eq!(*m.get_by_right_key(&4).unwrap().0.id(), 3);
    assert!(m.get_by_left_key(&4).is_none());
    assert!(m.get_by_right_key(&3).is_none());
    assert_eq!(*m.get_by_left(&port(3)).unwrap().1.id(), 4);
    assert_eq!(*m.get_by_right(&eraser(2)).unwrap().0.id(), 1);
}

#[test]
fn connection_map_remove() {
    let mut m: ConnectionMap<Term, Term> = ConnectionMap::new();
    m.insert(port(1), eraser(2)).unwrap();
    m.insert(port(3), port(4)).unwrap();
    let (l, r) = m.remove_by_right_key(&4).unwrap();
    assert_eq!((*l.id(), *r.id()), (3, 4));
    assert!(m.remove_by_right_key(&4).is_none());
    assert!(m.remove_by_left(&port(3)).is_none());
    assert_eq!(m.len(), 1);
    assert_eq!(m.insert(port(4), port(3)), Ok(()));
    let (l, _) = m.remove_by_right(&port(3)).unwrap();
    assert_eq!(*l.id(), 4);
    let (_, r) = m.remove_by_left_key(&1).unwrap();
    assert_eq!(*r.id(), 2);
    assert!(m.remove_by_right(&eraser(2)).is_none());
    assert_eq!(m.len(), 0);
}

#[test]
fn connection_map_into_pairs_lists_each_once() {
    let mut m: ConnectionMap<Term, Term> = ConnectionMap::new();
    for i in 0..10usize {
        m.insert(port(2 * i), port(2 * i + 1)).unwrap();
    }
    let mut ids: Vec<(usize, usize)> = m.into_pairs().iter().map(|(a, b)| (*a.id(), *b.id())).collect();
    ids.sort();
    let expected: Vec<(usize, usize)> = (0..10usize).map(|i| (2 * i, 2 * i + 1)).collect();
    assert_eq!(ids, expected);
}

#[test]
fn connection_map_self_loop_pair() {
    let mut m: ConnectionMap<Term, Term> = ConnectionMap::new();
    assert_eq!(m.insert(port(5), port(5)), Ok(()));
    assert_eq!(m.len(), 1);
    assert_eq!(m.insert(port(6), port(5)), Err(InsertAlreadyExistsError::Right));
}

#[test]
fn connection_map_iter_lists_each_once() {
    let mut m: ConnectionMap<Term, Term> = ConnectionMap::new();
    m.insert(port(1), eraser(2)).unwrap();
    m.insert(port(3), port(4)).unwrap();
    let mut ids: Vec<(usize, usize)> = m.iter().iter().map(|(a, b)| (*a.id(), *b.id())).collect();
    ids.sort();
    assert_eq!(ids, vec![(1, 2), (3, 4)]);
    assert_eq!(m.len(), 2);
}

#[test]
fn conversions_build_terms_and_connections() {
    let t = Term::from(Agent::new_eraser(5));
    assert_eq!(*t.id(), 5);
    assert!(matches!(t, Term::Agent(_)));
    let p = Term::from(Port::new(6));
    assert!(matches!(p, Term::Port(_)));
    let c = Connection::from((Term::from(Port::new(1)), Term::from(Agent::new_eraser(2))));
    assert_eq!((*c.0.id(), *c.1.id()), (1, 2));
    let r = RewriteResult::from(vec![c]);
    assert_eq!(r.new_connections.len(), 1);
}
