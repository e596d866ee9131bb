//! The decorated view of a term: a tree that mirrors it node for node and
//! carries display marks, redex ids and alpha-equivalence ids, so that a
//! caller can name one reduction by an id.
use vstd::prelude::*;

use crate::error::Error;
use crate::eval::{lemma_fits_children, size};
use crate::exp::{beta_redex, beta_result, eta_redex, eta_result, fits, Exp};
use crate::laws::{beta_by_reported_id, eta_by_reported_id, path_in, redex_binder_alpha};

verus! {

/// A variable of the view.
#[derive(Debug)]
pub struct Var {
    /// identifier
    pub ident: String,
    /// de Bruijn code
    pub code: usize,
    /// alpha-equivalence id
    pub alpha_id: usize,
}

/// An abstraction of the view.
#[derive(Debug)]
pub struct Abs {
    /// identifier
    pub ident: String,
    /// alpha-equivalence id, shared with the variables it binds
    pub alpha_id: usize,
    /// body
    pub body: Box<JsExp>,
    /// whether it is the function of a beta redex
    pub in_beta_redex: bool,
    /// id of its eta redex, if it is one
    pub eta_redex: Option<usize>,
}

/// An application of the view.
#[derive(Debug)]
pub struct App {
    /// the function
    pub func: Box<JsExp>,
    /// the argument
    pub body: Box<JsExp>,
    /// id of its beta redex, if it is one
    pub beta_redex: Option<usize>,
}

/// The kind of a node of the view.
#[derive(Debug)]
pub enum InnerExp {
    /// variable
    Var(Var),
    /// abstraction
    Abs(Abs),
    /// application
    App(App),
}

/// A node of the view.
#[derive(Debug)]
pub struct JsExp {
    /// whether the node is displayed in parentheses
    pub parentheses: bool,
    /// the kind of the node
    pub inner: InnerExp,
}

/// `v` mirrors the term `e` node for node, with its labels and codes.
pub open spec fn mirrors(v: JsExp, e: Exp<String>) -> bool
    decreases e,
{
    match e {
        Exp::Var(id) => v.inner matches InnerExp::Var(x) && x.ident == id.0 && x.code
            == id.1 as usize,
        Exp::Abs(id, b) => v.inner matches InnerExp::Abs(a) && a.ident == id.0 && mirrors(
            *a.body,
            *b,
        ),
        Exp::App(f, g) => v.inner matches InnerExp::App(a) && mirrors(*a.func, *f) && mirrors(
            *a.body,
            *g,
        ),
    }
}

/// The number of nodes of `v`.
pub open spec fn vsize(v: JsExp) -> nat
    decreases v,
{
    match v.inner {
        InnerExp::Var(_) => 1,
        InnerExp::Abs(a) => 1 + vsize(*a.body),
        InnerExp::App(a) => 1 + vsize(*a.func) + vsize(*a.body),
    }
}

/// `v1` and `v2` have the same nodes, labels and codes.
pub open spec fn same_shape(v1: JsExp, v2: JsExp) -> bool
    decreases v1,
{
    match (v1.inner, v2.inner) {
        (InnerExp::Var(x), InnerExp::Var(y)) => x.ident == y.ident && x.code == y.code,
        (InnerExp::Abs(a), InnerExp::Abs(b)) => a.ident == b.ident && same_shape(*a.body, *b.body),
        (InnerExp::App(a), InnerExp::App(b)) => same_shape(*a.func, *b.func) && same_shape(
            *a.body,
            *b.body,
        ),
        _ => false,
    }
}

/// `v1` and `v2` agree on everything but alpha ids.
pub open spec fn same_marks(v1: JsExp, v2: JsExp) -> bool
    decreases v1,
{
    v1.parentheses == v2.parentheses && match (v1.inner, v2.inner) {
        (InnerExp::Var(x), InnerExp::Var(y)) => x.ident == y.ident && x.code == y.code,
        (InnerExp::Abs(a), InnerExp::Abs(b)) => a.ident == b.ident && a.in_beta_redex
            == b.in_beta_redex && a.eta_redex == b.eta_redex && same_marks(*a.body, *b.body),
        (InnerExp::App(a), InnerExp::App(b)) => a.beta_redex == b.beta_redex && same_marks(
            *a.func,
            *b.func,
        ) && same_marks(*a.body, *b.body),
        _ => false,
    }
}

/// Some variable of `v` points `de` binders above the root.
pub open spec fn captures(v: JsExp, de: nat) -> bool
    decreases v,
{
    match v.inner {
        InnerExp::Var(x) => x.code == de,
        InnerExp::Abs(a) => captures(*a.body, de + 1),
        InnerExp::App(a) => captures(*a.func, de) || captures(*a.body, de),
    }
}

/// The abstraction node `a` is `λx. F x` where `F` does not refer to `x`.
pub open spec fn view_eta(a: Abs) -> bool {
    a.body.inner matches InnerExp::App(p) && (p.body.inner matches InnerExp::Var(x) && x.code
        == 1) && !captures(*p.func, 1)
}

/// The marks of `v` follow the display and redex rules: an abstraction is
/// parenthesized where it is a function or not in tail position, an
/// application where it is an argument; beta ids stand exactly on
/// applications of abstractions, eta ids exactly on eta redexes.
pub open spec fn decorated(v: JsExp, is_app_func: bool, is_app_body: bool, is_tail: bool) -> bool
    decreases v,
{
    match v.inner {
        InnerExp::Var(_) => !v.parentheses,
        InnerExp::Abs(a) => a.in_beta_redex == is_app_func && v.parentheses == (is_app_func
            || !is_tail) && (a.eta_redex is Some <==> view_eta(a)) && decorated(
            *a.body,
            false,
            false,
            v.parentheses || is_tail,
        ),
        InnerExp::App(a) => v.parentheses == is_app_body && (a.beta_redex is Some <==> (
        a.func.inner is Abs)) && decorated(*a.func, true, false, false) && decorated(
            *a.body,
            false,
            true,
            v.parentheses || is_tail,
        ),
    }
}

/// The id in `o`, as a set.
pub open spec fn opt_set(o: Option<usize>) -> Set<usize> {
    match o {
        Some(i) => set![i],
        None => Set::empty(),
    }
}

/// The redex ids of `v`.
pub open spec fn ids(v: JsExp) -> Set<usize>
    decreases v,
{
    match v.inner {
        InnerExp::Var(_) => Set::empty(),
        InnerExp::Abs(a) => ids(*a.body).union(opt_set(a.eta_redex)),
        InnerExp::App(a) => ids(*a.func).union(ids(*a.body)).union(opt_set(a.beta_redex)),
    }
}

/// No two redexes of `v` carry the same id.
pub open spec fn unique(v: JsExp) -> bool
    decreases v,
{
    match v.inner {
        InnerExp::Var(_) => true,
        InnerExp::Abs(a) => unique(*a.body) && (a.eta_redex matches Some(i) ==> !ids(
            *a.body,
        ).contains(i)),
        InnerExp::App(a) => unique(*a.func) && unique(*a.body) && ids(*a.func).disjoint(
            ids(*a.body),
        ) && (a.beta_redex matches Some(i) ==> !ids(*a.func).contains(i) && !ids(
            *a.body,
        ).contains(i)),
    }
}

/// Every variable of `v` that points `de` binders above the root carries
/// the alpha id `alpha`.
pub open spec fn captured_alpha(v: JsExp, de: nat, alpha: usize) -> bool
    decreases v,
{
    match v.inner {
        InnerExp::Var(x) => x.code == de ==> x.alpha_id == alpha,
        InnerExp::Abs(a) => captured_alpha(*a.body, de + 1, alpha),
        InnerExp::App(a) => captured_alpha(*a.func, de, alpha) && captured_alpha(*a.body, de, alpha),
    }
}

/// Every abstraction of `v` shares its alpha id with the variables it binds.
pub open spec fn alpha_bound(v: JsExp) -> bool
    decreases v,
{
    match v.inner {
        InnerExp::Var(_) => true,
        InnerExp::Abs(a) => captured_alpha(*a.body, 1, a.alpha_id) && alpha_bound(*a.body),
        InnerExp::App(a) => alpha_bound(*a.func) && alpha_bound(*a.body),
    }
}

/// The alpha ids of the variables of `v` that no binder of `v` captures,
/// with `d` more binders above the root.
pub open spec fn free_alphas(v: JsExp, d: nat) -> Set<usize>
    decreases v,
{
    match v.inner {
        InnerExp::Var(x) => if x.code == 0 || x.code > d {
            set![x.alpha_id]
        } else {
            Set::empty()
        },
        InnerExp::Abs(a) => free_alphas(*a.body, d + 1),
        InnerExp::App(a) => free_alphas(*a.func, d).union(free_alphas(*a.body, d)),
    }
}

/// The alpha ids of all nodes of `v`.
pub open spec fn alphas(v: JsExp) -> Set<usize>
    decreases v,
{
    match v.inner {
        InnerExp::Var(x) => set![x.alpha_id],
        InnerExp::Abs(a) => alphas(*a.body).insert(a.alpha_id),
        InnerExp::App(a) => alphas(*a.func).union(alphas(*a.body)),
    }
}

/// The alpha ids of the abstractions of `v`.
pub open spec fn binder_alphas(v: JsExp) -> Set<usize>
    decreases v,
{
    match v.inner {
        InnerExp::Var(_) => Set::empty(),
        InnerExp::Abs(a) => binder_alphas(*a.body).insert(a.alpha_id),
        InnerExp::App(a) => binder_alphas(*a.func).union(binder_alphas(*a.body)),
    }
}

/// No two abstractions of `v` carry the same alpha id.
pub open spec fn binders_unique(v: JsExp) -> bool
    decreases v,
{
    match v.inner {
        InnerExp::Var(_) => true,
        InnerExp::Abs(a) => binders_unique(*a.body) && !binder_alphas(*a.body).contains(
            a.alpha_id,
        ),
        InnerExp::App(a) => binders_unique(*a.func) && binders_unique(*a.body) && binder_alphas(
            *a.func,
        ).disjoint(binder_alphas(*a.body)),
    }
}

/// The alpha ids of abstractions are among all alpha ids.
pub proof fn lemma_binder_alphas(v: JsExp)
    ensures
        binder_alphas(v).subset_of(alphas(v)),
    decreases v,
{
    match v.inner {
        InnerExp::Abs(a) => lemma_binder_alphas(*a.body),
        InnerExp::App(a) => {
            lemma_binder_alphas(*a.func);
            lemma_binder_alphas(*a.body);
        },
        _ => {},
    }
}

/// The alpha id of a variable that no binder of `v` captures is carried by
/// no other node of `v`.
pub open spec fn free_unique(v: JsExp, d: nat) -> bool
    decreases v,
{
    match v.inner {
        InnerExp::Var(_) => true,
        InnerExp::Abs(a) => free_unique(*a.body, d + 1) && !free_alphas(*a.body, d + 1).contains(
            a.alpha_id,
        ),
        InnerExp::App(a) => free_unique(*a.func, d) && free_unique(*a.body, d) && free_alphas(
            *a.func,
            d,
        ).disjoint(alphas(*a.body)) && free_alphas(*a.body, d).disjoint(alphas(*a.func)),
    }
}

/// Free variables are among all nodes, and fewer of them are free below
/// more binders.
pub proof fn lemma_free_alphas(v: JsExp, d: nat)
    ensures
        free_alphas(v, d).subset_of(alphas(v)),
        free_alphas(v, d + 1).subset_of(free_alphas(v, d)),
        free_unique(v, d) ==> free_unique(v, d + 1),
    decreases v,
{
    match v.inner {
        InnerExp::Abs(a) => {
            lemma_free_alphas(*a.body, d + 1);
        },
        InnerExp::App(a) => {
            lemma_free_alphas(*a.func, d);
            lemma_free_alphas(*a.body, d);
        },
        _ => {},
    }
}

/// Every variable that points beyond `usize` carries any alpha id: there is none.
pub proof fn lemma_captured_alpha_beyond(v: JsExp, de: nat, alpha: usize)
    requires
        de > usize::MAX,
    ensures
        captured_alpha(v, de, alpha),
    decreases v,
{
    match v.inner {
        InnerExp::Abs(a) => lemma_captured_alpha_beyond(*a.body, de + 1, alpha),
        InnerExp::App(a) => {
            lemma_captured_alpha_beyond(*a.func, de, alpha);
            lemma_captured_alpha_beyond(*a.body, de, alpha);
        },
        _ => {},
    }
}

/// Views of one shape capture the same variables.
pub proof fn lemma_shape_captures(v1: JsExp, v2: JsExp, de: nat)
    requires
        same_shape(v1, v2),
    ensures
        captures(v1, de) == captures(v2, de),
    decreases v1,
{
    match (v1.inner, v2.inner) {
        (InnerExp::Abs(a), InnerExp::Abs(b)) => lemma_shape_captures(*a.body, *b.body, de + 1),
        (InnerExp::App(a), InnerExp::App(b)) => {
            lemma_shape_captures(*a.func, *b.func, de);
            lemma_shape_captures(*a.body, *b.body, de);
        },
        _ => {},
    }
}

/// Views that agree on their marks agree on their shape, size and ids.
pub proof fn lemma_marks_shape(v1: JsExp, v2: JsExp)
    requires
        same_marks(v1, v2),
    ensures
        same_shape(v1, v2),
        vsize(v1) == vsize(v2),
        ids(v1) == ids(v2),
        unique(v1) == unique(v2),
    decreases v1,
{
    match (v1.inner, v2.inner) {
        (InnerExp::Abs(a), InnerExp::Abs(b)) => lemma_marks_shape(*a.body, *b.body),
        (InnerExp::App(a), InnerExp::App(b)) => {
            lemma_marks_shape(*a.func, *b.func);
            lemma_marks_shape(*a.body, *b.body);
        },
        _ => {},
    }
}

/// Whether a view is decorated depends on its marks alone.
pub proof fn lemma_same_marks(v1: JsExp, v2: JsExp, f: bool, b: bool, t: bool)
    requires
        same_marks(v1, v2),
    ensures
        decorated(v1, f, b, t) == decorated(v2, f, b, t),
    decreases v1,
{
    lemma_marks_shape(v1, v2);
    match (v1.inner, v2.inner) {
        (InnerExp::Abs(a), InnerExp::Abs(c)) => {
            lemma_same_marks(*a.body, *c.body, false, false, v1.parentheses || t);
            lemma_marks_shape(*a.body, *c.body);
            match (a.body.inner, c.body.inner) {
                (InnerExp::App(p), InnerExp::App(q)) => {
                    assert(same_shape(*p.body, *q.body));
                    lemma_shape_captures(*p.func, *q.func, 1);
                },
                _ => {},
            }
            assert(view_eta(a) == view_eta(c));
        },
        (InnerExp::App(a), InnerExp::App(c)) => {
            lemma_same_marks(*a.func, *c.func, true, false, false);
            lemma_same_marks(*a.body, *c.body, false, true, v1.parentheses || t);
            assert(same_marks(*a.func, *c.func));
            assert((a.func.inner is Abs) == (c.func.inner is Abs));
        },
        _ => {},
    }
}

/// A view with the shape of another mirrors the same term.
pub proof fn lemma_shape_mirrors(v1: JsExp, v2: JsExp, e: Exp<String>)
    requires
        same_shape(v1, v2),
        mirrors(v1, e),
    ensures
        mirrors(v2, e),
    decreases e,
{
    match e {
        Exp::Abs(_, b) => match (v1.inner, v2.inner) {
            (InnerExp::Abs(x), InnerExp::Abs(y)) => lemma_shape_mirrors(*x.body, *y.body, *b),
            _ => {},
        },
        Exp::App(f, g) => match (v1.inner, v2.inner) {
            (InnerExp::App(x), InnerExp::App(y)) => {
                lemma_shape_mirrors(*x.func, *y.func, *f);
                lemma_shape_mirrors(*x.body, *y.body, *g);
            },
            _ => {},
        },
        _ => {},
    }
}

/// Having the same shape is transitive.
pub proof fn lemma_shape_trans(v1: JsExp, v2: JsExp, v3: JsExp)
    requires
        same_shape(v1, v2),
        same_shape(v2, v3),
    ensures
        same_shape(v1, v3),
    decreases v1,
{
    match (v1.inner, v2.inner, v3.inner) {
        (InnerExp::Abs(a), InnerExp::Abs(b), InnerExp::Abs(c)) => lemma_shape_trans(
            *a.body,
            *b.body,
            *c.body,
        ),
        (InnerExp::App(a), InnerExp::App(b), InnerExp::App(c)) => {
            lemma_shape_trans(*a.func, *b.func, *c.func);
            lemma_shape_trans(*a.body, *b.body, *c.body);
        },
        _ => {},
    }
}

/// Every view has its own shape and marks.
pub proof fn lemma_shape_refl(v: JsExp)
    ensures
        same_shape(v, v),
        same_marks(v, v),
    decreases v,
{
    match v.inner {
        InnerExp::Abs(a) => lemma_shape_refl(*a.body),
        InnerExp::App(a) => {
            lemma_shape_refl(*a.func);
            lemma_shape_refl(*a.body);
        },
        _ => {},
    }
}

/// No variable points beyond `usize`.
pub proof fn lemma_captures_beyond(v: JsExp, de: nat)
    requires
        de > usize::MAX,
    ensures
        !captures(v, de),
    decreases v,
{
    match v.inner {
        InnerExp::Abs(a) => lemma_captures_beyond(*a.body, de + 1),
        InnerExp::App(a) => {
            lemma_captures_beyond(*a.func, de);
            lemma_captures_beyond(*a.body, de);
        },
        _ => {},
    }
}

fn size_capped(e: &Exp<String>) -> (r: usize)
    ensures
        r == (if size(*e) <= usize::MAX {
            size(*e) as int
        } else {
            usize::MAX as int
        }),
    decreases e,
{
    match e {
        Exp::Var(_) => 1,
        Exp::Abs(_, b) => {
            let n = size_capped(b);
            if n == usize::MAX {
                n
            } else {
                n + 1
            }
        },
        Exp::App(f, a) => {
            let x = size_capped(f);
            let y = size_capped(a);
            if x >= usize::MAX - y {
                usize::MAX
            } else {
                x + y + 1
            }
        },
    }
}

impl JsExp {
    fn init_exp(exp: &Exp<String>) -> (r: Self)
        ensures
            mirrors(r, *exp),
            vsize(r) == size(*exp),
        decreases exp,
    {
        match exp {
            Exp::Var(v) => JsExp {
                parentheses: false,
                inner: InnerExp::Var(Var { ident: v.0.clone(), code: v.1 as usize, alpha_id: 0 }),
            },
            Exp::Abs(id, body) => JsExp {
                parentheses: false,
                inner: InnerExp::Abs(
                    Abs {
                        ident: id.0.clone(),
                        alpha_id: 0,
                        body: Box::new(Self::init_exp(body)),
                        in_beta_redex: false,
                        eta_redex: None,
                    },
                ),
            },
            Exp::App(func, body) => JsExp {
                parentheses: false,
                inner: InnerExp::App(
                    App {
                        func: Box::new(Self::init_exp(func)),
                        body: Box::new(Self::init_exp(body)),
                        beta_redex: None,
                    },
                ),
            },
        }
    }

    /// Sets the alpha id of every variable that points `de` binders above
    /// this node.
    fn for_each_captured_by(&mut self, de: usize, alpha: usize)
        requires
            de >= 1,
        ensures
            same_marks(*old(self), *final(self)),
            captured_alpha(*final(self), de as nat, alpha),
            forall|d: nat, x: usize|
                d != de && #[trigger] captured_alpha(*old(self), d, x) ==> captured_alpha(
                    *final(self),
                    d,
                    x,
                ),
            alpha_bound(*old(self)) ==> alpha_bound(*final(self)),
            free_alphas(*final(self), de as nat) == free_alphas(*old(self), de as nat),
            forall|i: usize| #[trigger]
                alphas(*final(self)).contains(i) ==> alphas(*old(self)).contains(i) || i == alpha,
            free_unique(*old(self), (de - 1) as nat) && !alphas(*old(self)).contains(alpha)
                ==> free_unique(*final(self), de as nat),
            binder_alphas(*final(self)) == binder_alphas(*old(self)),
            binders_unique(*final(self)) == binders_unique(*old(self)),
        decreases *old(self),
    {
        let ghost v0 = *self;
        match &mut self.inner {
            InnerExp::Var(var) => {
                if var.code == de {
                    var.alpha_id = alpha;
                }
            },
            InnerExp::Abs(abs) => {
                let ghost b0 = *abs.body;
                if de < usize::MAX {
                    abs.body.for_each_captured_by(de + 1, alpha);
                } else {
                    proof {
                        lemma_shape_refl(*abs.body);
                        lemma_captured_alpha_beyond(*abs.body, de as nat + 1, alpha);
                    }
                }
                proof {
                    assert forall|d: nat, x: usize|
                        d != de && #[trigger] captured_alpha(v0, d, x) implies captured_alpha(
                        *abs.body,
                        d + 1,
                        x,
                    ) by {
                        assert(captured_alpha(b0, d + 1, x));
                    }
                    if alpha_bound(v0) {
                        assert(captured_alpha(b0, 1, abs.alpha_id));
                    }
                    lemma_free_alphas(b0, de as nat);
                    lemma_free_alphas(*abs.body, de as nat);
                    assert forall|i: usize| #[trigger]
                        alphas(*abs.body).contains(i) implies alphas(b0).contains(i) || i
                        == alpha by {}
                }
            },
            InnerExp::App(app) => {
                let ghost f0 = *app.func;
                let ghost g0 = *app.body;
                app.func.for_each_captured_by(de, alpha);
                app.body.for_each_captured_by(de, alpha);
                proof {
                    lemma_free_alphas(f0, (de - 1) as nat);
                    lemma_free_alphas(g0, (de - 1) as nat);
                    assert forall|i: usize| #[trigger]
                        alphas(*app.func).contains(i) implies alphas(f0).contains(i) || i
                        == alpha by {}
                    assert forall|i: usize| #[trigger]
                        alphas(*app.body).contains(i) implies alphas(g0).contains(i) || i
                        == alpha by {}
                    assert forall|d: nat, x: usize|
                        d != de && #[trigger] captured_alpha(v0, d, x) implies captured_alpha(
                        *app.func,
                        d,
                        x,
                    ) && captured_alpha(*app.body, d, x) by {
                        assert(captured_alpha(f0, d, x));
                        assert(captured_alpha(g0, d, x));
                    }
                }
            },
        }
        proof {
            assert forall|d: nat, x: usize|
                d != de && #[trigger] captured_alpha(v0, d, x) implies captured_alpha(
                *self,
                d,
                x,
            ) by {
                match (v0.inner, self.inner) {
                    (InnerExp::Var(a), InnerExp::Var(b)) => {},
                    (InnerExp::Abs(a), InnerExp::Abs(b)) => {},
                    (InnerExp::App(a), InnerExp::App(b)) => {},
                    _ => {},
                }
            }
            assert forall|i: usize| #[trigger]
                alphas(*self).contains(i) implies alphas(v0).contains(i) || i == alpha by {
                match (v0.inner, self.inner) {
                    (InnerExp::Abs(a), InnerExp::Abs(b)) => {
                        if i != b.alpha_id {
                            assert(alphas(*b.body).contains(i));
                        }
                    },
                    (InnerExp::App(a), InnerExp::App(b)) => {
                        if alphas(*b.func).contains(i) {
                            assert(alphas(*a.func).contains(i) || i == alpha);
                        } else {
                            assert(alphas(*b.body).contains(i));
                            assert(alphas(*a.body).contains(i) || i == alpha);
                        }
                    },
                    _ => {},
                }
            }
        }
    }

    /// Whether some variable points `de` binders above this node.
    fn captures_at(&self, de: usize) -> (r: bool)
        ensures
            r == captures(*self, de as nat),
        decreases self,
    {
        match &self.inner {
            InnerExp::Var(var) => var.code == de,
            InnerExp::Abs(abs) => {
                if de < usize::MAX {
                    abs.body.captures_at(de + 1)
                } else {
                    proof {
                        lemma_captures_beyond(*abs.body, de as nat + 1);
                    }
                    false
                }
            },
            InnerExp::App(app) => app.func.captures_at(de) || app.body.captures_at(de),
        }
    }

    /// Sets the display marks, the alpha ids and the redex ids of the
    /// subtree, drawing ids from `counter`.
    fn decorate(&mut self, is_app_func: bool, is_app_body: bool, is_tail: bool, counter: &mut usize)
        requires
            *old(counter) + 2 * vsize(*old(self)) <= usize::MAX,
        ensures
            same_shape(*old(self), *final(self)),
            decorated(*final(self), is_app_func, is_app_body, is_tail),
            unique(*final(self)),
            alpha_bound(*final(self)),
            free_unique(*final(self), 0),
            binders_unique(*final(self)),
            alphas(*final(self)).disjoint(ids(*final(self))),
            forall|i: usize| #[trigger]
                alphas(*final(self)).contains(i) ==> *old(counter) < i <= *final(counter),
            *old(counter) <= *final(counter) <= *old(counter) + 2 * vsize(*old(self)),
            forall|i: usize| #[trigger]
                ids(*final(self)).contains(i) ==> *old(counter) < i <= *final(counter),
        decreases *old(self),
    {
        let par = match &self.inner {
            InnerExp::Var(_) => false,
            InnerExp::Abs(_) => is_app_func || !is_tail,
            InnerExp::App(_) => is_app_body,
        };
        self.parentheses = par;
        let ghost c0 = *counter;
        match &mut self.inner {
            InnerExp::Var(var) => {
                *counter = *counter + 1;
                var.alpha_id = *counter;
            },
            InnerExp::Abs(abs) => {
                abs.in_beta_redex = is_app_func;
                let ghost b0 = *abs.body;
                abs.body.decorate(false, false, par || is_tail, counter);
                let ghost b1 = *abs.body;
                *counter = *counter + 1;
                abs.alpha_id = *counter;
                let ghost a_id = *counter;
                proof {
                    assert(!alphas(b1).contains(a_id));
                }
                abs.body.for_each_captured_by(1, *counter);
                proof {
                    lemma_free_alphas(b1, 1);
                    assert(free_unique(*abs.body, 1));
                    assert(!free_alphas(*abs.body, 1).contains(a_id));
                    assert forall|i: usize| #[trigger]
                        alphas(*abs.body).contains(i) implies c0 < i <= *counter by {
                        if i != *counter {
                            assert(alphas(b1).contains(i));
                        }
                    }
                    lemma_same_marks(b1, *abs.body, false, false, par || is_tail);
                    lemma_marks_shape(b1, *abs.body);
                    lemma_shape_trans(b0, b1, *abs.body);
                }
                let eta = match &abs.body.inner {
                    InnerExp::App(app) => !app.func.captures_at(1) && match &app.body.inner {
                        InnerExp::Var(v) => v.code == 1,
                        _ => false,
                    },
                    _ => false,
                };
                if eta {
                    *counter = *counter + 1;
                    abs.eta_redex = Some(*counter);
                } else {
                    abs.eta_redex = None;
                }
                assert(ids(*abs.body) == ids(b1));
                proof {
                    lemma_binder_alphas(b1);
                    assert(!binder_alphas(*abs.body).contains(a_id));
                    assert forall|i: usize| #[trigger]
                        alphas(*abs.body).contains(i) implies !ids(*abs.body).contains(i) by {
                        if i != a_id {
                            assert(alphas(b1).contains(i));
                        }
                    }
                }
                assert forall|i: usize|
                    alphas(*abs.body).contains(i) || i == abs.alpha_id implies !ids(
                        *abs.body,
                    ).contains(i) && !opt_set(abs.eta_redex).contains(i) by {
                    if i != a_id {
                        assert(alphas(b1).contains(i));
                    }
                }
                assert forall|i: usize| ids(*abs.body).contains(i) implies c0 < i <= *counter by {
                    assert(ids(b1).contains(i));
                }
            },
            InnerExp::App(app) => {
                app.func.decorate(true, false, false, counter);
                let ghost c1 = *counter;
                app.body.decorate(false, true, par || is_tail, counter);
                proof {
                    lemma_free_alphas(*app.func, 0);
                    lemma_free_alphas(*app.body, 0);
                    assert(free_alphas(*app.func, 0).disjoint(alphas(*app.body))) by {
                        assert forall|i: usize| free_alphas(*app.func, 0).contains(i) implies !alphas(
                            *app.body,
                        ).contains(i) by {
                            assert(alphas(*app.func).contains(i));
                        }
                    }
                    assert(free_alphas(*app.body, 0).disjoint(alphas(*app.func))) by {
                        assert forall|i: usize| free_alphas(*app.body, 0).contains(i) implies !alphas(
                            *app.func,
                        ).contains(i) by {
                            assert(alphas(*app.body).contains(i));
                        }
                    }
                }
                let is_abs = match &app.func.inner {
                    InnerExp::Abs(_) => true,
                    _ => false,
                };
                if is_abs {
                    *counter = *counter + 1;
                    app.beta_redex = Some(*counter);
                } else {
                    app.beta_redex = None;
                }
                proof {
                    lemma_binder_alphas(*app.func);
                    lemma_binder_alphas(*app.body);
                    assert(binder_alphas(*app.func).disjoint(binder_alphas(*app.body))) by {
                        assert forall|i: usize|
                            binder_alphas(*app.func).contains(i) implies !binder_alphas(
                            *app.body,
                        ).contains(i) by {
                            assert(alphas(*app.func).contains(i));
                            if binder_alphas(*app.body).contains(i) {
                                assert(alphas(*app.body).contains(i));
                            }
                        }
                    }
                }
                assert forall|i: usize|
                    ids(*app.func).contains(i) || ids(*app.body).contains(
                        i,
                    ) implies c0 < i <= *counter by {}
            },
        }
        proof {
            assert forall|i: usize| #[trigger] alphas(*self).contains(i) implies c0 < i
                <= *counter by {
                match self.inner {
                    InnerExp::Abs(a) => if i != a.alpha_id {
                        assert(alphas(*a.body).contains(i));
                    },
                    InnerExp::App(a) => assert(alphas(*a.func).contains(i) || alphas(
                        *a.body,
                    ).contains(i)),
                    _ => {},
                }
            }
            assert forall|i: usize| #[trigger]
                alphas(*self).contains(i) implies !ids(*self).contains(i) by {
                match self.inner {
                    InnerExp::Abs(a) => {
                        assert(alphas(*a.body).contains(i) || i == a.alpha_id);
                    },
                    InnerExp::App(a) => {
                        assert(alphas(*a.func).contains(i) || alphas(*a.body).contains(i));
                    },
                    _ => {},
                }
            }
            assert forall|i: usize| #[trigger] ids(*self).contains(i) implies c0 < i <= *counter by {
                match self.inner {
                    InnerExp::Abs(a) => assert(ids(*a.body).contains(i) || opt_set(
                        a.eta_redex,
                    ).contains(i)),
                    InnerExp::App(a) => assert(ids(*a.func).contains(i) || ids(*a.body).contains(i)
                        || opt_set(a.beta_redex).contains(i)),
                    _ => {},
                }
            }
        }
    }

    /// Whether the view of `expr` can number its nodes within `usize`.
    pub fn fits_view(expr: &Exp<String>) -> (r: bool)
        ensures
            r == (2 * size(*expr) <= usize::MAX),
    {
        let n = size_capped(expr);
        n <= usize::MAX / 2
    }

    /// The decorated view of `expr`.
    pub fn from_exp(expr: &Exp<String>) -> (r: Self)
        requires
            2 * size(*expr) <= usize::MAX,
        ensures
            mirrors(r, *expr),
            decorated(r, false, false, true),
            unique(r),
            alpha_bound(r),
            free_unique(r, 0),
            binders_unique(r),
            alphas(r).disjoint(ids(r)),
            forall|i: usize| alphas(r).contains(i) || ids(r).contains(i) ==> 0 < i,
    {
        let mut exp = Self::init_exp(expr);
        let ghost e0 = exp;
        let mut counter: usize = 0;
        exp.decorate(false, false, true, &mut counter);
        proof {
            lemma_shape_mirrors(e0, exp, *expr);
        }
        exp
    }

    /// The application node of the view.
    pub fn into_app_ref(&self) -> (r: Result<&App, Error>)
        ensures
            match self.inner {
                InnerExp::App(a) => r == Ok::<&App, Error>(&a),
                _ => r == Err::<&App, Error>(Error::InvalidInnerType),
            },
    {
        match &self.inner {
            InnerExp::App(app) => Ok(app),
            _ => Err(Error::InvalidInnerType),
        }
    }

    /// The abstraction node of the view.
    pub fn into_abs_ref(&self) -> (r: Result<&Abs, Error>)
        ensures
            match self.inner {
                InnerExp::Abs(a) => r == Ok::<&Abs, Error>(&a),
                _ => r == Err::<&Abs, Error>(Error::InvalidInnerType),
            },
    {
        match &self.inner {
            InnerExp::Abs(abs) => Ok(abs),
            _ => Err(Error::InvalidInnerType),
        }
    }

    /// The variable node of the view.
    pub fn into_var(&self) -> (r: Result<&Var, Error>)
        ensures
            match self.inner {
                InnerExp::Var(v) => r == Ok::<&Var, Error>(&v),
                _ => r == Err::<&Var, Error>(Error::InvalidInnerType),
            },
    {
        match &self.inner {
            InnerExp::Var(v) => Ok(v),
            _ => Err(Error::InvalidInnerType),
        }
    }
}

/// The subterm of `e` at the path `p`: `0` steps into an abstraction's
/// body or an application's function, `1` into an application's argument.
pub open spec fn sub_at<T>(e: Exp<T>, p: Seq<nat>) -> Exp<T>
    decreases p.len(),
{
    if p.len() == 0 {
        e
    } else {
        match e {
            Exp::Var(_) => e,
            Exp::Abs(_, b) => sub_at(*b, p.drop_first()),
            Exp::App(f, a) => if p[0] == 0 {
                sub_at(*f, p.drop_first())
            } else {
                sub_at(*a, p.drop_first())
            },
        }
    }
}

/// `e` with the subterm at the path `p` replaced by `s`; every other node
/// stays as it is.
pub open spec fn replace_at<T>(e: Exp<T>, p: Seq<nat>, s: Exp<T>) -> Exp<T>
    decreases p.len(),
{
    if p.len() == 0 {
        s
    } else {
        match e {
            Exp::Var(_) => e,
            Exp::Abs(x, b) => Exp::Abs(x, Box::new(replace_at(*b, p.drop_first(), s))),
            Exp::App(f, a) => if p[0] == 0 {
                Exp::App(Box::new(replace_at(*f, p.drop_first(), s)), a)
            } else {
                Exp::App(f, Box::new(replace_at(*a, p.drop_first(), s)))
            },
        }
    }
}

/// The node of the view `v` at the path `p`.
pub open spec fn view_at(v: JsExp, p: Seq<nat>) -> JsExp
    decreases p.len(),
{
    if p.len() == 0 {
        v
    } else {
        match v.inner {
            InnerExp::Var(_) => v,
            InnerExp::Abs(a) => view_at(*a.body, p.drop_first()),
            InnerExp::App(a) => if p[0] == 0 {
                view_at(*a.func, p.drop_first())
            } else {
                view_at(*a.body, p.drop_first())
            },
        }
    }
}

/// `r` and `s` are the same outcome; the text of an invalid redex is a
/// diagnostic and not compared.
pub open spec fn same_outcome(r: Result<usize, Error>, s: Result<usize, Error>) -> bool {
    match (r, s) {
        (Err(Error::InvalidRedex(i, _)), Err(Error::InvalidRedex(j, _))) => i == j,
        _ => r == s,
    }
}

/// Walks `e` and `v` in lockstep, left before right, to the application
/// whose view carries the beta-redex id `id`, and reduces it there: the term
/// reached, and the alpha id of the reduced binder.
pub open spec fn beta_by_id(e: Exp<String>, v: JsExp, id: usize) -> (Exp<String>, Result<
    usize,
    Error,
>)
    decreases e,
{
    match e {
        Exp::Var(_) => (e, Err(Error::RedexNotFound)),
        Exp::Abs(x, b) => match v.inner {
            InnerExp::Abs(a) => {
                let (b2, r) = beta_by_id(*b, *a.body, id);
                (Exp::Abs(x, Box::new(b2)), r)
            },
            _ => (e, Err(Error::InvalidInnerType)),
        },
        Exp::App(f, g) => match v.inner {
            InnerExp::App(a) => if a.beta_redex == Some(id) {
                match a.func.inner {
                    InnerExp::Abs(fa) => if beta_redex(e) {
                        (beta_result(e), Ok(fa.alpha_id))
                    } else {
                        (e, Err(Error::InvalidRedex(id, arbitrary())))
                    },
                    _ => (e, Err(Error::InvalidInnerType)),
                }
            } else {
                let (f2, r) = beta_by_id(*f, *a.func, id);
                if r == Err::<usize, Error>(Error::RedexNotFound) {
                    let (g2, r2) = beta_by_id(*g, *a.body, id);
                    (Exp::App(f, Box::new(g2)), r2)
                } else {
                    (Exp::App(Box::new(f2), g), r)
                }
            },
            _ => (e, Err(Error::InvalidInnerType)),
        },
    }
}

/// Walks `e` and `v` in lockstep, left before right, to the abstraction
/// whose view carries the eta-redex id `id`, and reduces it there: the term
/// reached, and the alpha id of the removed binder.
pub open spec fn eta_by_id(e: Exp<String>, v: JsExp, id: usize) -> (Exp<String>, Result<
    usize,
    Error,
>)
    decreases e,
{
    match e {
        Exp::Var(_) => (e, Err(Error::RedexNotFound)),
        Exp::Abs(x, b) => match v.inner {
            InnerExp::Abs(a) => if a.eta_redex == Some(id) {
                if eta_redex(e) {
                    (eta_result(e), Ok(a.alpha_id))
                } else {
                    (e, Err(Error::InvalidRedex(id, arbitrary())))
                }
            } else {
                let (b2, r) = eta_by_id(*b, *a.body, id);
                (Exp::Abs(x, Box::new(b2)), r)
            },
            _ => (e, Err(Error::InvalidInnerType)),
        },
        Exp::App(f, g) => match v.inner {
            InnerExp::App(a) => {
                let (f2, r) = eta_by_id(*f, *a.func, id);
                if r == Err::<usize, Error>(Error::RedexNotFound) {
                    let (g2, r2) = eta_by_id(*g, *a.body, id);
                    (Exp::App(f, Box::new(g2)), r2)
                } else {
                    (Exp::App(Box::new(f2), g), r)
                }
            },
            _ => (e, Err(Error::InvalidInnerType)),
        },
    }
}

/// The path to the first variable of `e`, left before right, whose view
/// carries the alpha id `id`.
pub open spec fn var_path(e: Exp<String>, v: JsExp, id: usize) -> Option<Seq<nat>>
    decreases e,
{
    match e {
        Exp::Var(_) => if (v.inner matches InnerExp::Var(x) && x.alpha_id == id) {
            Some(Seq::empty())
        } else {
            None
        },
        Exp::Abs(_, b) => match v.inner {
            InnerExp::Abs(a) => match var_path(*b, *a.body, id) {
                Some(p) => Some(seq![0nat] + p),
                None => None,
            },
            _ => None,
        },
        Exp::App(f, g) => match v.inner {
            InnerExp::App(a) => match var_path(*f, *a.func, id) {
                Some(p) => Some(seq![0nat] + p),
                None => match var_path(*g, *a.body, id) {
                    Some(p) => Some(seq![1nat] + p),
                    None => None,
                },
            },
            _ => None,
        },
    }
}

/// A path with one more step in front.
pub proof fn lemma_cons_path(k: nat, p: Seq<nat>)
    ensures
        (seq![k] + p).drop_first() == p,
        (seq![k] + p)[0] == k,
        (seq![k] + p).len() == p.len() + 1,
{
    assert((seq![k] + p).drop_first() =~= p);
}

/// A failed walk leaves the term as it is.
pub proof fn lemma_beta_err_unchanged(e: Exp<String>, v: JsExp, id: usize)
    ensures
        beta_by_id(e, v, id).1 is Err ==> beta_by_id(e, v, id).0 == e,
    decreases e,
{
    match e {
        Exp::Abs(_, b) => match v.inner {
            InnerExp::Abs(a) => lemma_beta_err_unchanged(*b, *a.body, id),
            _ => {},
        },
        Exp::App(f, g) => match v.inner {
            InnerExp::App(a) => {
                lemma_beta_err_unchanged(*f, *a.func, id);
                lemma_beta_err_unchanged(*g, *a.body, id);
            },
            _ => {},
        },
        _ => {},
    }
}

/// A failed walk leaves the term as it is.
pub proof fn lemma_eta_err_unchanged(e: Exp<String>, v: JsExp, id: usize)
    ensures
        eta_by_id(e, v, id).1 is Err ==> eta_by_id(e, v, id).0 == e,
    decreases e,
{
    match e {
        Exp::Abs(_, b) => match v.inner {
            InnerExp::Abs(a) => lemma_eta_err_unchanged(*b, *a.body, id),
            _ => {},
        },
        Exp::App(f, g) => match v.inner {
            InnerExp::App(a) => {
                lemma_eta_err_unchanged(*f, *a.func, id);
                lemma_eta_err_unchanged(*g, *a.body, id);
            },
            _ => {},
        },
        _ => {},
    }
}

impl Exp<String> {
    /// Beta-reduces the redex whose view in `display_exp` carries the id
    /// `id`, and returns the alpha id of its binder. Fails with
    /// `RedexNotFound` where no node carries the id.
    pub fn beta_reduce_by_id(&mut self, display_exp: &JsExp, id: usize) -> (r: Result<usize, Error>)
        requires
            fits(*old(self)),
        ensures
            *final(self) == beta_by_id(*old(self), *display_exp, id).0,
            same_outcome(r, beta_by_id(*old(self), *display_exp, id).1),
            mirrors(*display_exp, *old(self)) && decorated(*display_exp, false, false, true)
                && unique(*display_exp) ==> forall|p: Seq<nat>|
                path_in(*display_exp, p) && (#[trigger] view_at(*display_exp, p)).inner is App
                    && view_at(*display_exp, p).inner->App_0.beta_redex == Some(id) ==> *final(self) == replace_at(
                    *old(self),
                    p,
                    beta_result(sub_at(*old(self), p)),
                ) && r == Ok::<usize, Error>(redex_binder_alpha(view_at(*display_exp, p))),
        decreases *old(self),
    {
        proof {
            if mirrors(*display_exp, *self) && decorated(*display_exp, false, false, true) && unique(
                *display_exp,
            ) {
                assert forall|p: Seq<nat>|
                    path_in(*display_exp, p) && (#[trigger] view_at(*display_exp, p)).inner is App
                    && view_at(*display_exp, p).inner->App_0.beta_redex == Some(id) implies beta_by_id(*self, *display_exp, id) == (
                    replace_at(*self, p, beta_result(sub_at(*self, p))),
                    Ok::<usize, Error>(redex_binder_alpha(view_at(*display_exp, p))),
                ) by {
                    beta_by_reported_id(*self, *display_exp, id, p, false, false, true);
                }
            }
        }
        proof {
            lemma_fits_children(*self);
        }
        match self {
            Exp::Var(_) => Err(Error::RedexNotFound),
            Exp::Abs(_, body) => match display_exp.into_abs_ref() {
                Ok(abs) => body.beta_reduce_by_id(&abs.body, id),
                Err(e) => Err(e),
            },
            Exp::App(func, body) => match display_exp.into_app_ref() {
                Ok(app) => {
                    if app.beta_redex == Some(id) {
                        match app.func.into_abs_ref() {
                            Ok(fa) => {
                                let alpha = fa.alpha_id;
                                if self.beta_reduce() {
                                    Ok(alpha)
                                } else {
                                    Err(Error::InvalidRedex(id, self.to_text()))
                                }
                            },
                            Err(e) => Err(e),
                        }
                    } else {
                        proof {
                            lemma_beta_err_unchanged(**func, *app.func, id);
                        }
                        match func.beta_reduce_by_id(&app.func, id) {
                            Err(Error::RedexNotFound) => body.beta_reduce_by_id(&app.body, id),
                            r => r,
                        }
                    }
                },
                Err(e) => Err(e),
            },
        }
    }
}

impl Exp<String> {
    /// Eta-reduces the redex whose view in `display_exp` carries the id
    /// `id`, and returns the alpha id of the removed binder. Fails with
    /// `RedexNotFound` where no node carries the id.
    pub fn eta_reduce_by_id(&mut self, display_exp: &JsExp, id: usize) -> (r: Result<usize, Error>)
        ensures
            *final(self) == eta_by_id(*old(self), *display_exp, id).0,
            same_outcome(r, eta_by_id(*old(self), *display_exp, id).1),
            mirrors(*display_exp, *old(self)) && decorated(*display_exp, false, false, true)
                && unique(*display_exp) ==> forall|p: Seq<nat>|
                path_in(*display_exp, p) && (#[trigger] view_at(*display_exp, p)).inner is Abs
                    && view_at(*display_exp, p).inner->Abs_0.eta_redex == Some(id) ==> *final(self) == replace_at(
                    *old(self),
                    p,
                    eta_result(sub_at(*old(self), p)),
                ) && r == Ok::<usize, Error>(view_at(*display_exp, p).inner->Abs_0.alpha_id),
        decreases *old(self),
    {
        proof {
            if mirrors(*display_exp, *self) && decorated(*display_exp, false, false, true) && unique(
                *display_exp,
            ) {
                assert forall|p: Seq<nat>|
                    path_in(*display_exp, p) && (#[trigger] view_at(*display_exp, p)).inner is Abs
                    && view_at(*display_exp, p).inner->Abs_0.eta_redex == Some(id) implies eta_by_id(*self, *display_exp, id) == (
                    replace_at(*self, p, eta_result(sub_at(*self, p))),
                    Ok::<usize, Error>(view_at(*display_exp, p).inner->Abs_0.alpha_id),
                ) by {
                    eta_by_reported_id(*self, *display_exp, id, p, false, false, true);
                }
            }
        }
        match self {
            Exp::Var(_) => Err(Error::RedexNotFound),
            Exp::Abs(_, body) => match display_exp.into_abs_ref() {
                Ok(abs) => {
                    if abs.eta_redex == Some(id) {
                        let alpha = abs.alpha_id;
                        if self.eta_reduce() {
                            Ok(alpha)
                        } else {
                            Err(Error::InvalidRedex(id, self.to_text()))
                        }
                    } else {
                        body.eta_reduce_by_id(&abs.body, id)
                    }
                },
                Err(e) => Err(e),
            },
            Exp::App(func, body) => match display_exp.into_app_ref() {
                Ok(app) => {
                    proof {
                        lemma_eta_err_unchanged(**func, *app.func, id);
                    }
                    match func.eta_reduce_by_id(&app.func, id) {
                        Err(Error::RedexNotFound) => body.eta_reduce_by_id(&app.body, id),
                        r => r,
                    }
                },
                Err(e) => Err(e),
            },
        }
    }

    /// The first variable, left before right, whose view in `display_exp`
    /// carries the alpha id `id`, to change in place.
    pub fn find_var_by_alpha_id(&mut self, display_exp: &JsExp, id: usize) -> (r: Option<&mut Self>)
        ensures
            match var_path(*old(self), *display_exp, id) {
                Some(p) => r matches Some(m) && *m == sub_at(*old(self), p) && *final(self)
                    == replace_at(*old(self), p, *final(m)) && *m is Var,
                None => r is None && *final(self) == *old(self),
            },
        decreases *old(self),
    {
        match self {
            Exp::Var(_) => {
                match display_exp.into_var() {
                    Ok(var) => {
                        if var.alpha_id == id {
                            return Some(self);
                        }
                    },
                    Err(_) => {},
                }
                None
            },
            Exp::Abs(_, body) => match display_exp.into_abs_ref() {
                Ok(abs) => {
                    proof {
                        if let Some(p) = var_path(**body, *abs.body, id) {
                            lemma_cons_path(0, p);
                        }
                    }
                    body.find_var_by_alpha_id(&abs.body, id)
                },
                Err(_) => None,
            },
            Exp::App(func, body) => match display_exp.into_app_ref() {
                Ok(app) => {
                    proof {
                        if let Some(p) = var_path(**func, *app.func, id) {
                            lemma_cons_path(0, p);
                        }
                        if let Some(p) = var_path(**body, *app.body, id) {
                            lemma_cons_path(1, p);
                        }
                    }
                    match func.find_var_by_alpha_id(&app.func, id) {
                        None => body.find_var_by_alpha_id(&app.body, id),
                        r => r,
                    }
                },
                Err(_) => None,
            },
        }
    }
}

} // verus!
