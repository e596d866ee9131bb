use vstd::prelude::*;

use crate::label::Label;

verus! {

/// Identifier of a variable: a display label and a de Bruijn code.
///
/// A code of 0 marks a free variable; a code `k > 0` marks a variable bound
/// by the `k`-th enclosing abstraction, counting outward. The identifier
/// stored by an abstraction for its parameter conventionally has code 0.
#[derive(Debug, PartialEq, Eq)]
pub struct Ident<T>(pub T, pub u32);

/// A term of the untyped lambda calculus, labelled by `T`.
///
/// Every node owns its children: terms are trees, copied deeply.
#[derive(Debug, PartialEq, Eq)]
pub enum Exp<T> {
    /// Variable
    Var(Ident<T>),
    /// Abstraction
    Abs(Ident<T>, Box<Exp<T>>),
    /// Application
    App(Box<Exp<T>>, Box<Exp<T>>),
}

/// The larger of `a` and `b`.
pub open spec fn max_nat(a: nat, b: nat) -> nat {
    if a >= b { a } else { b }
}

/// The largest de Bruijn code in `e`.
pub open spec fn max_code<T>(e: Exp<T>) -> nat
    decreases e,
{
    match e {
        Exp::Var(id) => id.1 as nat,
        Exp::Abs(_, b) => max_code(*b),
        Exp::App(f, a) => max_nat(max_code(*f), max_code(*a)),
    }
}

/// The largest number of abstractions that enclose a node of `e`.
pub open spec fn nest<T>(e: Exp<T>) -> nat
    decreases e,
{
    match e {
        Exp::Var(_) => 0,
        Exp::Abs(_, b) => 1 + nest(*b),
        Exp::App(f, a) => max_nat(nest(*f), nest(*a)),
    }
}

/// Every index that a reduction of `e` can compute stays within `u32`.
pub open spec fn fits<T>(e: Exp<T>) -> bool {
    max_code(e) + nest(e) <= u32::MAX
}

/// `e` with `delta` added to the code of every variable whose code exceeds
/// the number of abstractions around it, plus `depth`: the variables that
/// point outside `e`.
pub open spec fn shifted<T>(e: Exp<T>, delta: int, depth: nat) -> Exp<T>
    decreases e,
{
    match e {
        Exp::Var(id) => if id.1 > depth {
            Exp::Var(Ident(id.0, (id.1 + delta) as u32))
        } else {
            e
        },
        Exp::Abs(id, b) => Exp::Abs(id, Box::new(shifted(*b, delta, depth + 1))),
        Exp::App(f, a) => Exp::App(
            Box::new(shifted(*f, delta, depth)),
            Box::new(shifted(*a, delta, depth)),
        ),
    }
}

/// The shift of `e` by `delta` keeps every code within `u32`.
pub open spec fn shift_safe<T>(e: Exp<T>, delta: int, depth: nat) -> bool
    decreases e,
{
    match e {
        Exp::Var(id) => id.1 > depth ==> 0 <= id.1 + delta <= u32::MAX,
        Exp::Abs(_, b) => shift_safe(*b, delta, depth + 1),
        Exp::App(f, a) => shift_safe(*f, delta, depth) && shift_safe(*a, delta, depth),
    }
}

/// `e` with every variable that points `index` binders above the root (its
/// code is `index` plus the abstractions around it, plus `depth`) replaced by
/// `r`, whose outward references are shifted by the binders passed.
pub open spec fn substituted<T>(e: Exp<T>, index: nat, r: Exp<T>, depth: nat) -> Exp<T>
    decreases e,
{
    match e {
        Exp::Var(id) => if id.1 == index + depth {
            shifted(r, depth as int, 0)
        } else {
            e
        },
        Exp::Abs(id, b) => Exp::Abs(id, Box::new(substituted(*b, index, r, depth + 1))),
        Exp::App(f, a) => Exp::App(
            Box::new(substituted(*f, index, r, depth)),
            Box::new(substituted(*a, index, r, depth)),
        ),
    }
}

/// Some variable of `e` points `index` binders above the root.
pub open spec fn mentions<T>(e: Exp<T>, index: nat, depth: nat) -> bool
    decreases e,
{
    match e {
        Exp::Var(id) => id.1 == index + depth,
        Exp::Abs(_, b) => mentions(*b, index, depth + 1),
        Exp::App(f, a) => mentions(*f, index, depth) || mentions(*a, index, depth),
    }
}

/// `e` is an application whose function is an abstraction.
pub open spec fn beta_redex<T>(e: Exp<T>) -> bool {
    e matches Exp::App(f, _) && *f matches Exp::Abs(_, _)
}

/// The contraction of a beta redex `(λ. M) N`: `M[0 := N]`, with the
/// references of `M` above the removed binder moved down by one.
pub open spec fn beta_result<T>(e: Exp<T>) -> Exp<T> {
    match e {
        Exp::App(f, a) => match *f {
            Exp::Abs(_, b) => shifted(substituted(*b, 0, *a, 1), -1, 1),
            _ => e,
        },
        _ => e,
    }
}

/// `e` is `λx. F x` where `F` does not refer to `x`.
pub open spec fn eta_redex<T>(e: Exp<T>) -> bool {
    match e {
        Exp::Abs(_, b) => match *b {
            Exp::App(f, a) => (*a matches Exp::Var(id) && id.1 == 1) && !mentions(*f, 1, 0),
            _ => false,
        },
        _ => false,
    }
}

/// The contraction of an eta redex `λx. F x`: `F`, moved out of the binder.
pub open spec fn eta_result<T>(e: Exp<T>) -> Exp<T> {
    match e {
        Exp::Abs(_, b) => match *b {
            Exp::App(f, _) => shifted(*f, -1, 0),
            _ => e,
        },
        _ => e,
    }
}

/// `e` without its labels: only the binding structure is left.
pub open spec fn purified<T>(e: Exp<T>) -> Exp<()>
    decreases e,
{
    match e {
        Exp::Var(id) => Exp::Var(Ident((), id.1)),
        Exp::Abs(id, b) => Exp::Abs(Ident((), id.1), Box::new(purified(*b))),
        Exp::App(f, a) => Exp::App(Box::new(purified(*f)), Box::new(purified(*a))),
    }
}

/// `e` with every free variable labelled `name` replaced by `r`.
pub open spec fn subst_free<T: Label>(e: Exp<T>, name: Seq<char>, r: Exp<T>) -> Exp<T>
    decreases e,
{
    match e {
        Exp::Var(id) => if id.1 == 0 && id.0.text() == name {
            r
        } else {
            e
        },
        Exp::Abs(id, b) => Exp::Abs(id, Box::new(subst_free(*b, name, r))),
        Exp::App(f, a) => Exp::App(
            Box::new(subst_free(*f, name, r)),
            Box::new(subst_free(*a, name, r)),
        ),
    }
}

/// `r` is `e` with each label replaced by the string it displays as.
pub open spec fn as_text<T: Label>(e: Exp<T>, r: Exp<String>) -> bool
    decreases e,
{
    match (e, r) {
        (Exp::Var(a), Exp::Var(b)) => b.0@ == a.0.text() && b.1 == a.1,
        (Exp::Abs(a, x), Exp::Abs(b, y)) => b.0@ == a.0.text() && b.1 == a.1 && as_text(*x, *y),
        (Exp::App(f, g), Exp::App(h, k)) => as_text(*f, *h) && as_text(*g, *k),
        _ => false,
    }
}

/// `r` is `e` with each variable `v` replaced by a term that `f` may return
/// for `v` and the number of abstractions around it, plus `depth`.
pub open spec fn vars_mapped<T, F: Fn(&Exp<T>, u32) -> Exp<T>>(
    e: Exp<T>,
    r: Exp<T>,
    f: F,
    depth: nat,
) -> bool
    decreases e,
{
    match e {
        Exp::Var(_) => depth <= u32::MAX && f.ensures((&e, depth as u32), r),
        Exp::Abs(id, b) => r matches Exp::Abs(id2, b2) && id2 == id && vars_mapped(
            *b,
            *b2,
            f,
            depth + 1,
        ),
        Exp::App(x, y) => r matches Exp::App(x2, y2) && vars_mapped(*x, *x2, f, depth)
            && vars_mapped(*y, *y2, f, depth),
    }
}

/// A shift never moves a code past `u32` once it starts below all codes.
pub proof fn lemma_shift_beyond<T>(e: Exp<T>, delta: int, depth: nat)
    requires
        depth >= u32::MAX,
    ensures
        shifted(e, delta, depth) == e,
        shift_safe(e, delta, depth),
    decreases e,
{
    match e {
        Exp::Var(_) => {},
        Exp::Abs(_, b) => lemma_shift_beyond(*b, delta, depth + 1),
        Exp::App(f, a) => {
            lemma_shift_beyond(*f, delta, depth);
            lemma_shift_beyond(*a, delta, depth);
        },
    }
}

/// Raising by `delta` is safe where the largest code leaves room for it.
pub proof fn lemma_shift_up_safe<T>(e: Exp<T>, delta: int, depth: nat)
    requires
        delta >= 0,
        max_code(e) + delta <= u32::MAX,
    ensures
        shift_safe(e, delta, depth),
    decreases e,
{
    match e {
        Exp::Var(_) => {},
        Exp::Abs(_, b) => lemma_shift_up_safe(*b, delta, depth + 1),
        Exp::App(f, a) => {
            lemma_shift_up_safe(*f, delta, depth);
            lemma_shift_up_safe(*a, delta, depth);
        },
    }
}

/// Lowering by one is always safe: only codes above the depth move.
pub proof fn lemma_shift_down_safe<T>(e: Exp<T>, depth: nat)
    ensures
        shift_safe(e, -1, depth),
    decreases e,
{
    match e {
        Exp::Var(_) => {},
        Exp::Abs(_, b) => lemma_shift_down_safe(*b, depth + 1),
        Exp::App(f, a) => {
            lemma_shift_down_safe(*f, depth);
            lemma_shift_down_safe(*a, depth);
        },
    }
}

/// No variable is replaced where the target index is beyond `u32`.
pub proof fn lemma_subst_beyond<T>(e: Exp<T>, index: nat, r: Exp<T>, depth: nat)
    requires
        index + depth > u32::MAX,
    ensures
        substituted(e, index, r, depth) == e,
    decreases e,
{
    match e {
        Exp::Var(_) => {},
        Exp::Abs(_, b) => lemma_subst_beyond(*b, index, r, depth + 1),
        Exp::App(f, a) => {
            lemma_subst_beyond(*f, index, r, depth);
            lemma_subst_beyond(*a, index, r, depth);
        },
    }
}

/// No variable points beyond `u32`.
pub proof fn lemma_mentions_beyond<T>(e: Exp<T>, index: nat, depth: nat)
    requires
        index + depth > u32::MAX,
    ensures
        !mentions(e, index, depth),
    decreases e,
{
    match e {
        Exp::Var(_) => {},
        Exp::Abs(_, b) => lemma_mentions_beyond(*b, index, depth + 1),
        Exp::App(f, a) => {
            lemma_mentions_beyond(*f, index, depth);
            lemma_mentions_beyond(*a, index, depth);
        },
    }
}

impl<T: Label> Ident<T> {
    /// An exact copy of the identifier.
    pub fn copy(&self) -> (r: Self)
        ensures
            r == *self,
    {
        Ident(self.0.duplicate(), self.1)
    }
}

impl<T: Label> Clone for Ident<T> {
    fn clone(&self) -> (r: Self)
        ensures
            r == *self,
    {
        self.copy()
    }
}

impl<T: Label> Clone for Exp<T> {
    fn clone(&self) -> (r: Self)
        ensures
            r == *self,
    {
        self.copy()
    }
}

impl<T: Label> Exp<T> {
    /// An exact deep copy of the term.
    pub fn copy(&self) -> (r: Self)
        ensures
            r == *self,
        decreases self,
    {
        match self {
            Exp::Var(id) => Exp::Var(id.copy()),
            Exp::Abs(id, b) => Exp::Abs(id.copy(), Box::new(b.copy())),
            Exp::App(f, a) => Exp::App(Box::new(f.copy()), Box::new(a.copy())),
        }
    }

    fn shift_from(&mut self, shift: i64, depth: u32)
        requires
            shift_safe(*old(self), shift as int, depth as nat),
        ensures
            *final(self) == shifted(*old(self), shift as int, depth as nat),
        decreases *old(self),
    {
        match self {
            Exp::Var(ident) => {
                if ident.1 > depth {
                    if shift > 0 {
                        ident.1 = ident.1 + shift as u32;
                    } else {
                        ident.1 = ident.1 - (-shift) as u32;
                    }
                }
            },
            Exp::Abs(_, body) => {
                if depth < u32::MAX {
                    body.shift_from(shift, depth + 1);
                } else {
                    proof {
                        lemma_shift_beyond(**body, shift as int, depth as nat + 1);
                    }
                }
            },
            Exp::App(func, body) => {
                func.shift_from(shift, depth);
                body.shift_from(shift, depth);
            },
        }
    }

    fn map_vars<F: Fn(&Exp<T>, u32) -> Exp<T>>(&mut self, f: &F, depth: u32)
        requires
            forall|e: &Exp<T>, d: u32| f.requires((e, d)),
            depth + nest(*old(self)) <= u32::MAX,
        ensures
            vars_mapped(*old(self), *final(self), *f, depth as nat),
        decreases *old(self),
    {
        match self {
            Exp::Var(_) => {
                let r = f(&*self, depth);
                *self = r;
            },
            Exp::Abs(_, body) => body.map_vars(f, depth + 1),
            Exp::App(func, body) => {
                func.map_vars(f, depth);
                body.map_vars(f, depth);
            },
        }
    }

    /// Replaces each variable by what `f` returns for it and the number of
    /// abstractions that enclose it.
    pub fn for_each_var<F: Fn(&Exp<T>, u32) -> Exp<T>>(&mut self, f: F)
        requires
            forall|e: &Exp<T>, d: u32| f.requires((e, d)),
            nest(*old(self)) <= u32::MAX,
        ensures
            vars_mapped(*old(self), *final(self), f, 0),
    {
        self.map_vars(&f, 0);
    }

    /// Replaces every variable that points `de_index` binders above this
    /// term by a copy of `exp`, whose references outside itself are moved
    /// past the binders crossed on the way down.
    pub fn subst_de(&mut self, de_index: u32, exp: &Exp<T>) -> (r: &mut Self)
        requires
            max_code(*exp) + nest(*old(self)) <= u32::MAX,
        ensures
            *r == substituted(*old(self), de_index as nat, *exp, 0),
            *final(self) == *final(r),
    {
        self.subst_from(de_index, exp, 0);
        self
    }

    /// Adds `shift` to the code of every variable that points outside this
    /// term; variables bound within it are untouched.
    pub fn shift_outer_captured_var(&mut self, shift: isize)
        requires
            shift_safe(*old(self), shift as int, 0),
        ensures
            *final(self) == shifted(*old(self), shift as int, 0),
    {
        self.shift_from(shift as i64, 0);
    }
}

impl<T: Label> Exp<T> {
    fn subst_from(&mut self, index: u32, r: &Exp<T>, depth: u32)
        requires
            max_code(*r) + depth + nest(*old(self)) <= u32::MAX,
        ensures
            *final(self) == substituted(*old(self), index as nat, *r, depth as nat),
        decreases *old(self),
    {
        match self {
            Exp::Var(ident) => {
                if ident.1 >= depth && ident.1 - depth == index {
                    let mut c = r.copy();
                    proof {
                        lemma_shift_up_safe(c, depth as int, 0);
                    }
                    c.shift_from(depth as i64, 0);
                    *self = c;
                }
            },
            Exp::Abs(_, body) => {
                if depth < u32::MAX {
                    body.subst_from(index, r, depth + 1);
                } else {
                    proof {
                        lemma_subst_beyond(**body, index as nat, *r, depth as nat + 1);
                    }
                }
            },
            Exp::App(func, body) => {
                func.subst_from(index, r, depth);
                body.subst_from(index, r, depth);
            },
        }
    }

    fn mentions_from(&self, index: u32, depth: u32) -> (r: bool)
        ensures
            r == mentions(*self, index as nat, depth as nat),
        decreases self,
    {
        match self {
            Exp::Var(ident) => ident.1 >= depth && ident.1 - depth == index,
            Exp::Abs(_, body) => {
                if depth < u32::MAX {
                    body.mentions_from(index, depth + 1)
                } else {
                    proof {
                        lemma_mentions_beyond(**body, index as nat, depth as nat + 1);
                    }
                    false
                }
            },
            Exp::App(func, body) => func.mentions_from(index, depth) || body.mentions_from(
                index,
                depth,
            ),
        }
    }

    /// Whether the term is an application whose function is an abstraction.
    pub fn is_beta_redex(&self) -> (r: bool)
        ensures
            r == beta_redex(*self),
    {
        match self {
            Exp::App(func, _) => match **func {
                Exp::Abs(_, _) => true,
                _ => false,
            },
            _ => false,
        }
    }

    fn contract_beta(&self) -> (r: Exp<T>)
        requires
            beta_redex(*self),
            fits(*self),
        ensures
            r == beta_result(*self),
    {
        match self {
            Exp::App(func, arg) => match &**func {
                Exp::Abs(_, body) => {
                    let mut b = body.copy();
                    assert(max_code(**arg) <= max_code(*self));
                    assert(nest(**func) == 1 + nest(**body));
                    assert(nest(**func) <= nest(*self));
                    b.subst_from(0, arg, 1);
                    proof {
                        lemma_shift_down_safe(b, 1);
                    }
                    b.shift_from(-1, 1);
                    b
                },
                _ => self.copy(),
            },
            _ => self.copy(),
        }
    }

    /// Beta-reduces the term at its root: `(λx. M) N` becomes `M[x := N]`.
    /// Returns false, and leaves the term as it is, where the root is no
    /// beta redex.
    pub fn beta_reduce(&mut self) -> (r: bool)
        requires
            fits(*old(self)),
        ensures
            r == beta_redex(*old(self)),
            r ==> *final(self) == beta_result(*old(self)),
            !r ==> *final(self) == *old(self),
    {
        if !self.is_beta_redex() {
            return false;
        }
        let t = self.contract_beta();
        *self = t;
        true
    }

    /// Whether the term is `λx. F x` where `F` does not refer to `x`.
    pub fn is_eta_redex(&self) -> (r: bool)
        ensures
            r == eta_redex(*self),
    {
        match self {
            Exp::Abs(_, body) => match &**body {
                Exp::App(func, arg) => match &**arg {
                    Exp::Var(ident) => ident.1 == 1 && !func.mentions_from(1, 0),
                    _ => false,
                },
                _ => false,
            },
            _ => false,
        }
    }

    fn contract_eta(&self) -> (r: Exp<T>)
        requires
            eta_redex(*self),
        ensures
            r == eta_result(*self),
    {
        match self {
            Exp::Abs(_, body) => match &**body {
                Exp::App(func, _) => {
                    let mut f = func.copy();
                    proof {
                        lemma_shift_down_safe(f, 0);
                    }
                    f.shift_from(-1, 0);
                    f
                },
                _ => self.copy(),
            },
            _ => self.copy(),
        }
    }

    /// Eta-reduces the term at its root: `λx. F x` becomes `F`. Returns
    /// false, and leaves the term as it is, where the root is no eta redex.
    pub fn eta_reduce(&mut self) -> (r: bool)
        ensures
            r == eta_redex(*old(self)),
            r ==> *final(self) == eta_result(*old(self)),
            !r ==> *final(self) == *old(self),
    {
        if !self.is_eta_redex() {
            return false;
        }
        let t = self.contract_eta();
        *self = t;
        true
    }

    /// The term without labels, keeping only the de Bruijn codes: two terms
    /// purify equally exactly when they are alpha-equivalent.
    pub fn purify(&self) -> (r: Exp<()>)
        ensures
            r == purified(*self),
        decreases self,
    {
        match self {
            Exp::Var(id) => Exp::Var(Ident((), id.1)),
            Exp::Abs(id, b) => Exp::Abs(Ident((), id.1), Box::new(b.purify())),
            Exp::App(f, a) => Exp::App(Box::new(f.purify()), Box::new(a.purify())),
        }
    }

    /// The function and the argument of an application.
    pub fn into_app(&self) -> (r: Option<(&Self, &Self)>)
        ensures
            match *self {
                Exp::App(f, a) => r == Some((&*f, &*a)),
                _ => r is None,
            },
    {
        match self {
            Exp::App(func, body) => Some((&**func, &**body)),
            _ => None,
        }
    }

    /// The parameter and the body of an abstraction.
    pub fn into_abs(&self) -> (r: Option<(&Ident<T>, &Self)>)
        ensures
            match *self {
                Exp::Abs(id, b) => r == Some((&id, &*b)),
                _ => r is None,
            },
    {
        match self {
            Exp::Abs(ident, body) => Some((ident, &**body)),
            _ => None,
        }
    }

    /// The identifier of a variable.
    pub fn into_ident(&self) -> (r: Option<&Ident<T>>)
        ensures
            match *self {
                Exp::Var(id) => r == Some(&id),
                _ => r is None,
            },
    {
        match self {
            Exp::Var(ident) => Some(ident),
            _ => None,
        }
    }

    /// The function and the argument of an application, to change in place.
    pub fn into_app_mut(&mut self) -> (r: Option<(&mut Self, &mut Self)>)
        ensures
            match *old(self) {
                Exp::App(f, a) => r matches Some(p) && *p.0 == *f && *p.1 == *a && *final(self)
                    == Exp::App(Box::new(*final(p.0)), Box::new(*final(p.1))),
                _ => r is None && *final(self) == *old(self),
            },
    {
        match self {
            Exp::App(func, body) => Some((&mut **func, &mut **body)),
            _ => None,
        }
    }

    /// The parameter and the body of an abstraction, to change in place.
    pub fn into_abs_mut(&mut self) -> (r: Option<(&mut Ident<T>, &mut Self)>)
        ensures
            match *old(self) {
                Exp::Abs(id, b) => r matches Some(p) && *p.0 == id && *p.1 == *b && *final(self)
                    == Exp::Abs(*final(p.0), Box::new(*final(p.1))),
                _ => r is None && *final(self) == *old(self),
            },
    {
        match self {
            Exp::Abs(ident, body) => Some((ident, &mut **body)),
            _ => None,
        }
    }

    /// Replaces every free variable labelled like `name` by a copy of `exp`.
    pub fn subst_unbounded(&mut self, name: &T, exp: &Exp<T>) -> (r: &mut Self)
        ensures
            *r == subst_free(*old(self), name.text(), *exp),
            *final(self) == *final(r),
    {
        self.subst_free_in(name, exp);
        self
    }

    fn subst_free_in(&mut self, name: &T, exp: &Exp<T>)
        ensures
            *final(self) == subst_free(*old(self), name.text(), *exp),
        decreases *old(self),
    {
        match self {
            Exp::Var(ident) => {
                if ident.1 == 0 && ident.0.same_text(name) {
                    *self = exp.copy();
                }
            },
            Exp::Abs(_, body) => body.subst_free_in(name, exp),
            Exp::App(func, body) => {
                func.subst_free_in(name, exp);
                body.subst_free_in(name, exp);
            },
        }
    }

    /// The term with each label turned into the string it displays as.
    pub fn to_string_exp(&self) -> (r: Exp<String>)
        ensures
            as_text(*self, r),
        decreases self,
    {
        match self {
            Exp::Var(id) => Exp::Var(Ident(id.0.label_string(), id.1)),
            Exp::Abs(id, b) => Exp::Abs(Ident(id.0.label_string(), id.1), Box::new(b.to_string_exp())),
            Exp::App(f, a) => Exp::App(Box::new(f.to_string_exp()), Box::new(a.to_string_exp())),
        }
    }

    /// The identifier of a variable, to change in place.
    pub fn into_ident_mut(&mut self) -> (r: Option<&mut Ident<T>>)
        ensures
            match *old(self) {
                Exp::Var(id) => r matches Some(i) && *i == id && *final(self) == Exp::Var(*final(i)),
                _ => r is None && *final(self) == *old(self),
            },
    {
        match self {
            Exp::Var(ident) => Some(ident),
            _ => None,
        }
    }
}

} // verus!
