//! Terms of the lambda calculus and their free variables.
use vstd::prelude::*;

verus! {

pub enum Expression {
    /// A value, like `a`.
    Variable {
        /// The string identifier for the variable.
        ident: String,
    },
    /// Application of a function to a value, like `a b`.
    Application {
        /// The left-hand side of the application.
        function: Box<Expression>,
        /// The right-hand side of the application.
        argument: Box<Expression>,
    },
    /// A function, like `\a . a`.
    Lambda {
        /// The singular argument for the lambda.
        argument: String,
        /// The body that the argument will be substituted into.
        body: Box<Expression>,
    },
}

/// The variables that occur in `e` outside any lambda that binds them.
pub open spec fn free_vars(e: Expression) -> Set<Seq<char>>
    decreases e,
{
    match e {
        Expression::Variable { ident } => set![ident@],
        Expression::Application { function, argument } => free_vars(*function).union(free_vars(*argument)),
        Expression::Lambda { argument, body } => free_vars(*body).remove(argument@),
    }
}

/// `s` followed by the elements of `t` that it does not hold yet, in order.
pub open spec fn append_new(s: Seq<Seq<char>>, t: Seq<Seq<char>>) -> Seq<Seq<char>>
    decreases t.len(),
{
    if t.len() == 0 {
        s
    } else {
        let p = append_new(s, t.drop_last());
        if p.contains(t.last()) {
            p
        } else {
            p.push(t.last())
        }
    }
}

/// `s` without the occurrences of `x`, in order.
pub open spec fn without(s: Seq<Seq<char>>, x: Seq<char>) -> Seq<Seq<char>>
    decreases s.len(),
{
    if s.len() == 0 {
        s
    } else {
        let p = without(s.drop_last(), x);
        if s.last() == x {
            p
        } else {
            p.push(s.last())
        }
    }
}

/// The free variables of `e` in the order they are listed: a variable
/// itself; for an application, those of the function, then those of the
/// argument that are new; for a lambda, those of the body but its argument.
pub open spec fn free_var_list(e: Expression) -> Seq<Seq<char>>
    decreases e,
{
    match e {
        Expression::Variable { ident } => seq![ident@],
        Expression::Application { function, argument } => append_new(
            free_var_list(*function),
            free_var_list(*argument),
        ),
        Expression::Lambda { argument, body } => without(free_var_list(*body), argument@),
    }
}

/// The names that a list of strings holds, in order.
pub open spec fn names(v: Seq<&String>) -> Seq<Seq<char>> {
    v.map_values(|s: &String| s@)
}

impl Expression {
    /// Returns every free variable of the expression once: those of an
    /// application's function first, then the new ones of its argument.
    pub fn free_variables(&self) -> (r: Vec<&String>)
        ensures
            names(r@) == free_var_list(*self),
            names(r@).no_duplicates(),
            names(r@).to_set() == free_vars(*self),
        decreases self,
    {
        match self {
            Expression::Variable { ident } => {
                let mut v: Vec<&String> = Vec::new();
                v.push(ident);
                proof {
                    assert(names(v@) =~= seq![ident@]);
                    assert(seq![ident@].to_set() =~= set![ident@]) by {
                        assert(seq![ident@][0] == ident@);
                    }
                }
                v
            },
            Expression::Application { function, argument } => {
                let mut variables = function.free_variables();
                let extra = argument.free_variables();
                let ghost first = names(variables@);
                let mut i: usize = 0;
                while i < extra.len()
                    invariant
                        0 <= i <= extra@.len(),
                        names(variables@).no_duplicates(),
                        names(extra@).no_duplicates(),
                        names(variables@).to_set() == first.to_set().union(names(extra@).take(i as int).to_set()),
                        names(variables@) == append_new(first, names(extra@).take(i as int)),
                    decreases extra@.len() - i,
                {
                    let variable = extra[i];
                    let ghost before = names(variables@);
                    proof {
                        assert(names(extra@).take(i + 1) =~= names(extra@).take(i as int).push(variable@));
                        assert(names(extra@).take(i + 1).drop_last() =~= names(extra@).take(i as int));
                        lemma_push_to_set(names(extra@).take(i as int), variable@);
                    }
                    if !contains_name(&variables, variable) {
                        variables.push(variable);
                        proof {
                            assert(names(variables@) =~= before.push(variable@));
                            lemma_push_to_set(before, variable@);
                            assert(names(variables@).no_duplicates()) by {
                                assert forall|a: int, b: int|
                                    0 <= a < b < names(variables@).len() implies names(variables@)[a]
                                    != names(variables@)[b] by {
                                    if b == before.len() {
                                        assert(before.contains(before[a]));
                                    }
                                }
                            }
                        }
                    } else {
                        proof {
                            assert(before.to_set().contains(variable@));
                            assert(before.to_set().insert(variable@) =~= before.to_set());
                        }
                    }
                    i = i + 1;
                }
                proof {
                    assert(names(extra@).take(extra@.len() as int) =~= names(extra@));
                }
                variables
            },
            Expression::Lambda { argument, body } => {
                let inner = body.free_variables();
                let mut out: Vec<&String> = Vec::new();
                let mut i: usize = 0;
                while i < inner.len()
                    invariant
                        0 <= i <= inner@.len(),
                        names(inner@).no_duplicates(),
                        names(out@).no_duplicates(),
                        names(out@).to_set() == names(inner@).take(i as int).to_set().remove(argument@),
                        names(out@) == without(names(inner@).take(i as int), argument@),
                        forall|x: Seq<char>| #[trigger] names(out@).contains(x) ==> names(inner@).take(i as int).contains(x),
                    decreases inner@.len() - i,
                {
                    let x = inner[i];
                    let ghost before = names(out@);
                    proof {
                        assert(names(inner@).take(i + 1) =~= names(inner@).take(i as int).push(x@));
                        assert(names(inner@).take(i + 1).drop_last() =~= names(inner@).take(i as int));
                        lemma_push_to_set(names(inner@).take(i as int), x@);
                    }
                    if *x != *argument {
                        out.push(x);
                        proof {
                            assert(names(out@) =~= before.push(x@));
                            lemma_push_to_set(before, x@);
                            assert(!names(inner@).take(i as int).contains(x@)) by {
                                if names(inner@).take(i as int).contains(x@) {
                                    let k = choose|k: int| 0 <= k < i && names(inner@).take(i as int)[k] == x@;
                                    assert(names(inner@)[k] == names(inner@)[i as int]);
                                }
                            }
                            assert forall|a: int, b: int|
                                0 <= a < b < names(out@).len() implies names(out@)[a] != names(out@)[b] by {
                                if b == before.len() {
                                    assert(before.contains(before[a]));
                                }
                            }
                            assert forall|y: Seq<char>| #[trigger] names(out@).contains(y) implies names(inner@).take(
                                i + 1,
                            ).contains(y) by {
                                if y != x@ {
                                    assert(before.contains(y));
                                    let k = choose|k: int| 0 <= k < i && names(inner@).take(i as int)[k] == y;
                                    assert(names(inner@).take(i + 1)[k] == y);
                                } else {
                                    assert(names(inner@).take(i + 1)[i as int] == y);
                                }
                            }
                            assert(names(out@).to_set() =~= names(inner@).take(i + 1).to_set().remove(argument@));
                        }
                    } else {
                        proof {
                            assert(names(inner@).take(i + 1).to_set().remove(argument@) =~= names(inner@).take(
                                i as int,
                            ).to_set().remove(argument@));
                            assert forall|y: Seq<char>| #[trigger] names(out@).contains(y) implies names(inner@).take(
                                i + 1,
                            ).contains(y) by {
                                let k = choose|k: int| 0 <= k < i && names(inner@).take(i as int)[k] == y;
                                assert(names(inner@).take(i + 1)[k] == y);
                            }
                        }
                    }
                    i = i + 1;
                }
                proof {
                    assert(names(inner@).take(inner@.len() as int) =~= names(inner@));
                }
                out
            },
        }
    }
}

/// Whether `v` holds a string equal to `s`.
fn contains_name(v: &Vec<&String>, s: &String) -> (r: bool)
    ensures
        r == names(v@).contains(s@),
{
    let mut i: usize = 0;
    while i < v.len()
        invariant
            0 <= i <= v@.len(),
            forall|k: int| 0 <= k < i ==> names(v@)[k] != s@,
        decreases v@.len() - i,
    {
        if *v[i] == *s {
            proof {
                assert(names(v@)[i as int] == s@);
            }
            return true;
        }
        i = i + 1;
    }
    false
}

proof fn lemma_push_to_set(s: Seq<Seq<char>>, x: Seq<char>)
    ensures
        s.push(x).to_set() == s.to_set().insert(x),
{
    assert forall|y: Seq<char>| s.push(x).to_set().contains(y) <==> s.to_set().insert(x).contains(y) by {
        if s.push(x).contains(y) && y != x {
            let k = choose|k: int| 0 <= k < s.push(x).len() && s.push(x)[k] == y;
            assert(k < s.len());
            assert(s.contains(y));
        }
        if s.contains(y) {
            let k = choose|k: int| 0 <= k < s.len() && s[k] == y;
            assert(s.push(x)[k] == y);
        }
        if y == x {
            assert(s.push(x)[s.len() as int] == y);
        }
    }
    assert(s.push(x).to_set() =~= s.to_set().insert(x));
}

} // verus!
