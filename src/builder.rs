//! Build terms conveniently: variables, abstractions that bind their
//! parameter, and left-associated applications.
use vstd::prelude::*;

use crate::exp::{nest, Exp, Ident};
use crate::label::Label;

verus! {

/// `e` with every variable labelled `name` that is not shadowed bound to the
/// binder `k` levels above it.
pub open spec fn bound<T: Label>(e: Exp<T>, name: Seq<char>, k: nat) -> Exp<T>
    decreases e,
{
    match e {
        Exp::Var(id) => if id.0.text() == name {
            Exp::Var(Ident(id.0, k as u32))
        } else {
            e
        },
        Exp::Abs(id, b) => if id.0.text() != name {
            Exp::Abs(id, Box::new(bound(*b, name, k + 1)))
        } else {
            e
        },
        Exp::App(f, a) => Exp::App(Box::new(bound(*f, name, k)), Box::new(bound(*a, name, k))),
    }
}

/// The left-associated application of the terms of `s`: `((s0 s1) s2) ...`.
pub open spec fn applied<T>(s: Seq<Exp<T>>) -> Exp<T>
    decreases s.len(),
{
    if s.len() <= 1 {
        s[0]
    } else {
        Exp::App(Box::new(applied(s.drop_last())), Box::new(s.last()))
    }
}

impl<T: Label> Exp<T> {
    /// Binds the unshadowed variables labelled like `id` to the binder
    /// `de_bruijn_index` levels above them.
    fn bind(&mut self, id: &T, de_bruijn_index: u32)
        requires
            de_bruijn_index + nest(*old(self)) <= u32::MAX,
        ensures
            *final(self) == bound(*old(self), id.text(), de_bruijn_index as nat),
        decreases *old(self),
    {
        match self {
            Exp::Var(var) => {
                if var.0.same_text(id) {
                    var.1 = de_bruijn_index;
                }
            },
            Exp::Abs(var, exp) => {
                if !var.0.same_text(id) {
                    exp.bind(id, de_bruijn_index + 1);
                }
            },
            Exp::App(l, exp) => {
                l.bind(id, de_bruijn_index);
                exp.bind(id, de_bruijn_index);
            },
        }
    }
}

/// The left-associated application of `exps`, which must not be empty.
pub fn app<T: Label>(exps: Vec<Exp<T>>) -> (r: Exp<T>)
    requires
        exps.len() > 0,
    ensures
        r == applied(exps@),
{
    let ghost all = exps@;
    let mut rest = exps;
    let mut res = rest.remove(0);
    let ghost mut k: int = 1;
    assert(all.take(1).drop_last().len() == 0);
    assert(applied(all.take(1)) == all[0]);
    while rest.len() > 0
        invariant
            1 <= k <= all.len(),
            rest@ == all.skip(k),
            res == applied(all.take(k)),
        decreases rest.len(),
    {
        let e = rest.remove(0);
        proof {
            assert(all.take(k + 1).drop_last() =~= all.take(k));
            assert(all.take(k + 1).last() == all[k]);
            k = k + 1;
            assert(rest@ =~= all.skip(k));
        }
        res = Exp::App(Box::new(res), Box::new(e));
    }
    assert(all.take(k) =~= all);
    res
}

/// The abstraction of `exp` over `v`, binding the free occurrences of `v`.
pub fn abs<T: Label>(v: T, exp: Exp<T>) -> (r: Exp<T>)
    requires
        nest(exp) < u32::MAX,
    ensures
        r == Exp::Abs(Ident(v, 0), Box::new(bound(exp, v.text(), 1))),
{
    let mut exp = exp;
    exp.bind(&v, 1);
    Exp::Abs(Ident(v, 0), Box::new(exp))
}

/// The free variable labelled `v`.
pub fn unbounded_var<T>(v: T) -> (r: Exp<T>)
    ensures
        r == Exp::Var(Ident(v, 0)),
{
    Exp::Var(Ident(v, 0))
}

} // verus!
