use inet::connection::Connection;
use inet::id::IdAllocator;
use inet::map::InsertAlreadyExistsError;
use inet::context::RewriteContext;
use inet::rule::{Inert, RewriteResult, RewriteRule, Rule};
use inet::rulebook::{ActivePairPattern, Rulebook};
use inet::runtime::{NetError, Runtime};
use inet::term::{Agent, AgentKind, Port, Term};

fn port(id: usize) -> Term {
    Term::Port(Port::new(id))
}

fn eraser(id: usize) -> Term {
    Term::Agent(Agent::new_eraser(id))
}

fn run_with<D: RewriteRule>(cs: Vec<Connection>, book: Rulebook<D>, next: usize) -> Result<Vec<(Term, Term)>, NetError> {
    match Runtime::new(cs, book, IdAllocator::new_at(next)) {
        Ok(rt) => rt.normalize(),
        Err(e) => Err(e),
    }
}

fn run(cs: Vec<Connection>, next: usize) -> Result<Vec<(Term, Term)>, NetError> {
    run_with(cs, Rulebook::<Inert>::default(), next)
}

fn is_agent(t: &Term) -> bool {
    matches!(t, Term::Agent(_))
}

fn kind_of(t: &Term) -> Option<AgentKind> {
    match t {
        Term::Agent(a) => Some(a.kind),
        Term::Port(_) => None,
    }
}

fn id_pairs(v: &[(Term, Term)]) -> Vec<(usize, usize)> {
    let mut out: Vec<(usize, usize)> = v.iter().map(|(a, b)| (*a.id(), *b.id())).collect();
    out.sort();
    out
}

#[test]
fn empty_run() {
    let net = run(vec![], 0).unwrap();
    assert!(net.is_empty());
}

#[test]
fn pure_annihilation() {
    let net = run(vec![eraser(1).connect(eraser(2))], 3).unwrap();
    assert!(net.is_empty());
}

#[test]
fn ctr_mirror() {
    let a = Agent::new_constructor(1, port(0), port(0));
    let c = Agent::new_constructor(3, port(2), port(2));
    let net = run(vec![Connection::from_agents(a, c)], 4).unwrap();
    assert_eq!(net.len(), 1);
    assert!(!is_agent(&net[0].0));
    assert!(!is_agent(&net[0].1));
    let ids = [*net[0].0.id(), *net[0].1.id()];
    assert!(ids.iter().all(|i| *i == 0 || *i == 2));
}

#[test]
fn erase_ctr_tree() {
    let ctr = Agent::new_constructor(2, port(10), port(11));
    let net = run(vec![eraser(1).connect(Term::Agent(ctr))], 20).unwrap();
    assert_eq!(net.len(), 2);
    for (l, r) in &net {
        assert!(!is_agent(l));
        assert_eq!(kind_of(r), Some(AgentKind::Eraser));
    }
    let mut ports: Vec<usize> = net.iter().map(|(l, _)| *l.id()).collect();
    ports.sort();
    assert_eq!(ports, vec![10, 11]);
    let mut erasers: Vec<usize> = net.iter().map(|(_, r)| *r.id()).collect();
    erasers.sort();
    assert_eq!(erasers, vec![1, 2]);
}

#[test]
fn erase_ctr_tree_either_order() {
    let ctr = Agent::new_constructor(2, port(10), port(11));
    let net = run(vec![Term::Agent(ctr).connect(eraser(1))], 20).unwrap();
    assert_eq!(net.len(), 2);
    assert!(net.iter().all(|(l, r)| !is_agent(l) && kind_of(r) == Some(AgentKind::Eraser)));
}

fn dup_meets_ctr() -> Vec<Connection> {
    let dup = Agent::new_duplicator(4, port(0), port(1));
    let ctr = Agent::new_constructor(5, port(2), port(3));
    vec![Connection::from_agents(dup, ctr)]
}

#[test]
fn duplicator_copies_constructor() {
    let net = run(dup_meets_ctr(), 6).unwrap();
    assert_eq!(net.len(), 8);
    assert!(net.iter().all(|(l, r)| !(is_agent(l) && is_agent(r))));
    let wires: Vec<&(Term, Term)> = net.iter().filter(|(l, r)| !is_agent(l) && !is_agent(r)).collect();
    assert_eq!(wires.len(), 4);
    for (l, r) in &wires {
        assert!((6..14).contains(l.id()) && (6..14).contains(r.id()));
    }
    let mut kinds_by_port: Vec<(usize, AgentKind, usize)> = net
        .iter()
        .filter(|(_, r)| is_agent(r))
        .map(|(l, r)| (*l.id(), kind_of(r).unwrap(), *r.id()))
        .collect();
    kinds_by_port.sort();
    let ports: Vec<usize> = kinds_by_port.iter().map(|x| x.0).collect();
    assert_eq!(ports, vec![0, 1, 2, 3]);
    assert_eq!(kinds_by_port[0].1, AgentKind::Constructor);
    assert_eq!(kinds_by_port[1].1, AgentKind::Constructor);
    assert_eq!(kinds_by_port[2].1, AgentKind::Duplicator);
    assert_eq!(kinds_by_port[3].1, AgentKind::Duplicator);
    let mut agents: Vec<usize> = kinds_by_port.iter().map(|x| x.2).collect();
    agents.sort();
    assert_eq!(agents, vec![14, 15, 16, 17]);
}

#[test]
fn duplicator_wiring_is_exact() {
    let net = run(dup_meets_ctr(), 6).unwrap();
    let mut pairs = id_pairs(&net);
    pairs.sort();
    assert_eq!(
        pairs,
        vec![(0, 14), (1, 15), (2, 16), (3, 17), (6, 7), (8, 9), (10, 11), (12, 13)]
    );
    for (l, r) in &net {
        if let Term::Agent(a) = r {
            let aux: Vec<usize> = a.ports.iter().map(|t| *t.id()).collect();
            match *l.id() {
                0 => assert_eq!(aux, vec![8, 6]),
                1 => assert_eq!(aux, vec![12, 10]),
                2 => assert_eq!(aux, vec![9, 13]),
                3 => assert_eq!(aux, vec![7, 11]),
                _ => panic!("unexpected port"),
            }
        }
    }
}

#[test]
fn unknown_rule_residue() {
    let dynamic = Agent::new(1, AgentKind::Dynamic(7), vec![]);
    let net = run(vec![Term::Agent(dynamic).connect(eraser(2))], 3).unwrap();
    assert_eq!(net.len(), 1);
    assert_eq!(kind_of(&net[0].0), Some(AgentKind::Dynamic(7)));
    assert_eq!(kind_of(&net[0].1), Some(AgentKind::Eraser));
    assert_eq!(id_pairs(&net), vec![(1, 2)]);
}

#[test]
fn wire_threading_round_trip() {
    let a = eraser(4);
    let cs = vec![port(1).connect(port(2)), port(2).connect(port(3)), port(3).connect(a)];
    let net = run(cs, 5).unwrap();
    assert_eq!(id_pairs(&net), vec![(1, 4)]);
    assert!(!is_agent(&net[0].0));
    assert!(is_agent(&net[0].1));
}

#[test]
fn push_connection_threads_in_place() {
    let mut rt = Runtime::new(vec![], Rulebook::<Inert>::default(), IdAllocator::new_at(10)).ok().unwrap();
    rt.push_connection(port(1), port(2)).unwrap();
    rt.push_connection(port(2), port(3)).unwrap();
    rt.push_connection(port(3), eraser(4)).unwrap();
    let net = rt.normalize().unwrap();
    assert_eq!(id_pairs(&net), vec![(1, 4)]);
}

#[test]
fn agent_port_is_stored_port_first() {
    let net = run(vec![eraser(4).connect(port(1))], 5).unwrap();
    assert_eq!(id_pairs(&net), vec![(1, 4)]);
}

#[test]
fn normal_form_is_idempotent() {
    let first = run(dup_meets_ctr(), 6).unwrap();
    let expected = id_pairs(&first);
    let again: Vec<Connection> = first.into_iter().map(|(l, r)| Connection(l, r)).collect();
    let second = run(again, 100).unwrap();
    assert_eq!(id_pairs(&second), expected);
}

#[test]
fn reduce_step_reports_idle() {
    let mut rt = Runtime::new(vec![eraser(1).connect(eraser(2))], Rulebook::<Inert>::default(), IdAllocator::new_at(3))
        .ok()
        .unwrap();
    assert_eq!(rt.reduce_step(), Ok(true));
    assert_eq!(rt.reduce_step(), Ok(false));
    assert!(rt.normalize().unwrap().is_empty());
}

#[test]
fn duplicate_left_id_fails() {
    let cs = vec![eraser(1).connect(eraser(2)), eraser(1).connect(eraser(3))];
    assert_eq!(run(cs, 4).err(), Some(NetError::AlreadyPresent(InsertAlreadyExistsError::Left)));
}

#[test]
fn duplicate_right_id_fails() {
    let cs = vec![eraser(1).connect(eraser(2)), eraser(3).connect(eraser(2))];
    assert_eq!(run(cs, 4).err(), Some(NetError::AlreadyPresent(InsertAlreadyExistsError::Right)));
}

#[test]
fn arity_mismatch_fails() {
    let bad = Agent::new(1, AgentKind::Constructor, vec![port(7)]);
    let ctr = Agent::new_constructor(2, port(8), port(9));
    let cs = vec![Connection::from_agents(bad, ctr)];
    assert_eq!(run(cs, 10).err(), Some(NetError::RuleMismatch));
}

#[test]
fn exhausted_ids_fail() {
    assert_eq!(run(dup_meets_ctr(), usize::MAX - 5).err(), Some(NetError::IdsExhausted));
}

#[test]
fn vanished_pair_fails() {
    let cs = vec![eraser(1).connect(eraser(2)), port(1).connect(port(9))];
    assert_eq!(run(cs, 10).err(), Some(NetError::InvalidReduce(1)));
}

#[test]
fn step_budget_is_enforced() {
    let rt = Runtime::new(vec![eraser(1).connect(eraser(2))], Rulebook::<Inert>::default(), IdAllocator::new_at(3))
        .ok()
        .unwrap();
    assert_eq!(rt.normalize_within(0).err(), Some(NetError::StepLimit));
    let rt = Runtime::new(vec![eraser(1).connect(eraser(2))], Rulebook::<Inert>::default(), IdAllocator::new_at(3))
        .ok()
        .unwrap();
    assert!(rt.normalize_within(1).unwrap().is_empty());
}

#[test]
fn custom_rulebook_leaves_unruled_pairs() {
    let mut book = Rulebook::<Inert>::empty();
    book.add_rule(
        ActivePairPattern::new(AgentKind::Eraser, AgentKind::Eraser),
        Rule::Builtin(inet::builtin::Builtin::EraEra),
    );
    let ctr = Agent::new_constructor(2, port(10), port(11));
    let cs = vec![eraser(1).connect(eraser(3)), eraser(4).connect(Term::Agent(ctr))];
    let net = run_with(cs, book, 20).unwrap();
    assert_eq!(id_pairs(&net), vec![(4, 2)]);
}

/// A user rule for a dynamic kind meeting an eraser: both vanish.
struct EraseDynamic;

impl RewriteRule for EraseDynamic {
    fn rewrite(&self, _ctx: &mut RewriteContext, _a: Agent, _b: Agent) -> RewriteResult {
        RewriteResult::empty()
    }
}

/// A user rule that keeps an id for itself and hands the pair back with a
/// fresh port between them: it leaves a wire behind.
struct Rewire;

impl RewriteRule for Rewire {
    fn rewrite(&self, ctx: &mut RewriteContext, a: Agent, _b: Agent) -> RewriteResult {
        let p = ctx.create_port();
        RewriteResult { new_connections: vec![Term::Agent(Agent::new_eraser(a.id)).connect(p)] }
    }
}

#[test]
fn user_rule_fires() {
    let mut book = Rulebook::<EraseDynamic>::default();
    book.add_rule(ActivePairPattern::new(AgentKind::Dynamic(7), AgentKind::Eraser), Rule::Dynamic(EraseDynamic));
    let dynamic = Agent::new(1, AgentKind::Dynamic(7), vec![]);
    let net = run_with(vec![Term::Agent(dynamic).connect(eraser(2))], book, 3).unwrap();
    assert!(net.is_empty());
}

#[test]
fn user_rule_output_is_threaded() {
    let mut book = Rulebook::<Rewire>::default();
    book.add_rule(ActivePairPattern::new(AgentKind::Dynamic(1), AgentKind::Dynamic(2)), Rule::Dynamic(Rewire));
    let a = Agent::new(1, AgentKind::Dynamic(1), vec![]);
    let b = Agent::new(2, AgentKind::Dynamic(2), vec![]);
    let net = run_with(vec![Connection::from_agents(a, b)], book, 10).unwrap();
    assert_eq!(id_pairs(&net), vec![(10, 1)]);
}

#[test]
fn normal_net_ids_are_unique_and_oriented() {
    let mut cs = dup_meets_ctr();
    cs.push(eraser(20).connect(Term::Agent(Agent::new_constructor(21, port(22), port(23)))));
    cs.push(port(25).connect(Term::Agent(Agent::new_duplicator(26, port(27), port(28)))));
    cs.push(port(24).connect(port(25)));
    let net = run(cs, 30).unwrap();
    assert_eq!(net.len(), 11);
    assert!(net.iter().any(|(l, r)| *l.id() == 24 && *r.id() == 26));
    let mut ids: Vec<usize> = net.iter().flat_map(|(l, r)| vec![*l.id(), *r.id()]).collect();
    let n = ids.len();
    ids.sort();
    ids.dedup();
    assert_eq!(ids.len(), n);
    assert!(net.iter().all(|(l, r)| !(is_agent(l) && !is_agent(r))));
    assert!(net.iter().all(|(l, r)| !(is_agent(l) && is_agent(r))));
}

#[test]
fn port_already_on_a_right_side_is_refused() {
    let cs = vec![port(1).connect(port(2)), port(2).connect(eraser(3))];
    assert_eq!(run(cs, 4).err(), Some(NetError::AlreadyPresent(InsertAlreadyExistsError::Left)));
}
