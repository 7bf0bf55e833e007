//! Scopes of bound names: each binding holds one symbol and the scope
//! around it.
use std::rc::Rc;
use vstd::prelude::*;

verus! {

pub struct Symbol {
    pub ident: String,
    pub ref_count: u16,
}

pub struct Binding {
    pub symbol: Rc<Symbol>,
    pub outer: Option<Rc<Binding>>,
}

/// The symbol that `ident` names in the scope `b`: the innermost binding of
/// that name.
pub open spec fn resolve(b: Binding, ident: Seq<char>) -> Option<Symbol>
    decreases b,
{
    if b.symbol.ident@ == ident {
        Some(*b.symbol)
    } else {
        match b.outer {
            Some(o) => resolve(*o, ident),
            None => None,
        }
    }
}

/// Relies on `str`'s `==`: two string slices are equal when they hold the
/// same characters.
#[verifier::external_body]
fn same_text(a: &str, b: &str) -> (r: bool)
    ensures
        r == (a@ == b@),
{
    a == b
}

/// Relies on `Rc::clone`: the clone points to the same value.
#[verifier::external_body]
fn share<T>(p: &Rc<T>) -> (r: Rc<T>)
    ensures
        *r == **p,
{
    Rc::clone(p)
}

impl Binding {
    /// The innermost symbol bound to `ident`, shared with the scope.
    pub fn find_symbol(&self, ident: &str) -> (r: Option<Rc<Symbol>>)
        ensures
            match r {
                Some(s) => resolve(*self, ident@) == Some(*s),
                None => resolve(*self, ident@) is None,
            },
        decreases *self,
    {
        if same_text(self.symbol.ident.as_str(), ident) {
            return Some(share(&self.symbol));
        }
        match &self.outer {
            Some(outer) => outer.find_symbol(ident),
            None => None,
        }
    }
}

} // verus!
