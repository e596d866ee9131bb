//! Normal-order evaluation, the bounded simplifier, and the fast paths for
//! arithmetic on Church numerals.
use vstd::prelude::*;

use crate::error::Error;
use crate::exp::{
    beta_redex, beta_result, eta_redex, eta_result, fits, max_code, nest, purified, Exp, Ident,
};
use crate::label::Label;

verus! {

/// Counters of the work done by evaluation, for diagnostics.
pub struct ProfileData {
    /// beta reductions performed
    pub beta_reduce_counter: u64,
    /// eta reductions performed
    pub eta_reduce_counter: u64,
    /// calls of the single-step evaluator
    pub eval_fn_counter: u64,
}

impl ProfileData {
    /// Sets every counter to zero.
    pub fn reset_counter(&mut self)
        ensures
            final(self).beta_reduce_counter == 0,
            final(self).eta_reduce_counter == 0,
            final(self).eval_fn_counter == 0,
    {
        self.beta_reduce_counter = 0;
        self.eta_reduce_counter = 0;
        self.eval_fn_counter = 0;
    }

    /// Counts one beta reduction.
    pub fn inc_beta_counter(&mut self)
        requires
            old(self).beta_reduce_counter < u64::MAX,
        ensures
            final(self).beta_reduce_counter == old(self).beta_reduce_counter + 1,
            final(self).eta_reduce_counter == old(self).eta_reduce_counter,
            final(self).eval_fn_counter == old(self).eval_fn_counter,
    {
        self.beta_reduce_counter += 1;
    }

    /// Counts one eta reduction.
    pub fn inc_eta_counter(&mut self)
        requires
            old(self).eta_reduce_counter < u64::MAX,
        ensures
            final(self).beta_reduce_counter == old(self).beta_reduce_counter,
            final(self).eta_reduce_counter == old(self).eta_reduce_counter + 1,
            final(self).eval_fn_counter == old(self).eval_fn_counter,
    {
        self.eta_reduce_counter += 1;
    }

    /// Counts one call of the single-step evaluator.
    pub fn inc_eval_fn_counter(&mut self)
        requires
            old(self).eval_fn_counter < u64::MAX,
        ensures
            final(self).beta_reduce_counter == old(self).beta_reduce_counter,
            final(self).eta_reduce_counter == old(self).eta_reduce_counter,
            final(self).eval_fn_counter == old(self).eval_fn_counter + 1,
    {
        self.eval_fn_counter += 1;
    }
}

/// The number of reductions `simplify` attempts before it gives up.
pub const SIMPLIFY_LIMIT: i32 = 1024;

/// The number of nodes of `e`.
pub open spec fn size<T>(e: Exp<T>) -> nat
    decreases e,
{
    match e {
        Exp::Var(_) => 1,
        Exp::Abs(_, b) => 1 + size(*b),
        Exp::App(f, a) => 1 + size(*f) + size(*a),
    }
}

/// `base` under `n` applications of the variable `f` bound two levels up:
/// `f (f (... base))`.
pub open spec fn spine_over<T>(n: nat, f: T, base: Exp<T>) -> Exp<T>
    decreases n,
{
    if n == 0 {
        base
    } else {
        Exp::App(Box::new(Exp::Var(Ident(f, 2))), Box::new(spine_over((n - 1) as nat, f, base)))
    }
}

/// The Church numeral `λf. λx. f (f (... x))` with `n` applications.
pub open spec fn numeral<T>(n: nat, f: T, x: T) -> Exp<T> {
    Exp::Abs(
        Ident(f, 0),
        Box::new(Exp::Abs(Ident(x, 0), Box::new(spine_over(n, f, Exp::Var(Ident(x, 1)))))),
    )
}

/// How many applications of the variable two levels up lead down to the
/// variable one level up, if `e` is such a chain.
pub open spec fn spine_count<T>(e: Exp<T>) -> Option<nat>
    decreases e,
{
    match e {
        Exp::Var(id) => if id.1 == 1 {
            Some(0)
        } else {
            None
        },
        Exp::App(f, a) => if (*f matches Exp::Var(id) && id.1 == 2) {
            match spine_count(*a) {
                Some(n) => Some(n + 1),
                None => None,
            }
        } else {
            None
        },
        Exp::Abs(_, _) => None,
    }
}

/// The number a Church numeral stands for, where it fits in `u64`.
pub open spec fn church_value<T>(e: Exp<T>) -> Option<nat> {
    match e {
        Exp::Abs(_, b) => match *b {
            Exp::Abs(_, c) => match spine_count(*c) {
                Some(n) => if n <= u64::MAX {
                    Some(n)
                } else {
                    None
                },
                None => None,
            },
            _ => None,
        },
        _ => None,
    }
}

/// The label of the outermost binder of `e`.
pub open spec fn first_label<T>(e: Exp<T>) -> T {
    match e {
        Exp::Abs(i, _) => i.0,
        _ => arbitrary(),
    }
}

/// The label of the second binder of `e`.
pub open spec fn second_label<T>(e: Exp<T>) -> T {
    match e {
        Exp::Abs(_, b) => match *b {
            Exp::Abs(i, _) => i.0,
            _ => arbitrary(),
        },
        _ => arbitrary(),
    }
}

/// The purified variable with code `code`.
pub open spec fn pvar(code: u32) -> Exp<()> {
    Exp::Var(Ident((), code))
}

/// The purified application of `f` to `a`.
pub open spec fn papp(f: Exp<()>, a: Exp<()>) -> Exp<()> {
    Exp::App(Box::new(f), Box::new(a))
}

/// `body` under four purified binders.
pub open spec fn pabs4(body: Exp<()>) -> Exp<()> {
    Exp::Abs(
        Ident((), 0),
        Box::new(
            Exp::Abs(
                Ident((), 0),
                Box::new(
                    Exp::Abs(Ident((), 0), Box::new(Exp::Abs(Ident((), 0), Box::new(body)))),
                ),
            ),
        ),
    )
}

/// The addition combinator `λn. λm. λf. λx. n f (m f x)`, purified.
pub open spec fn add_term() -> Exp<()> {
    pabs4(papp(papp(pvar(4), pvar(2)), papp(papp(pvar(3), pvar(2)), pvar(1))))
}

/// The multiplication combinator `λn. λm. λf. λx. n (m f) x`, purified.
pub open spec fn mul_term() -> Exp<()> {
    pabs4(papp(papp(pvar(4), papp(pvar(3), pvar(2))), pvar(1)))
}

/// How many applications of `f` stand before `m f x` in `e`, where `m`, `f`
/// and `x` are bound three, two and one levels up.
pub open spec fn add_k_count<T>(e: Exp<T>) -> Option<nat>
    decreases e,
{
    match e {
        Exp::App(f, a) => if (*f matches Exp::Var(id) && id.1 == 2) {
            match add_k_count(*a) {
                Some(n) => Some(n + 1),
                None => None,
            }
        } else if (*f matches Exp::App(m1, f1) && (*m1 matches Exp::Var(i) && i.1 == 3) && (
        *f1 matches Exp::Var(j) && j.1 == 2)) && (*a matches Exp::Var(k) && k.1 == 1) {
            Some(0)
        } else {
            None
        },
        _ => None,
    }
}

/// The `k` of a partial application `add k` in normal form,
/// `λm. λf. λx. f^k (m f x)`, where it fits in `u64`.
pub open spec fn add_k_value<T>(e: Exp<T>) -> Option<nat> {
    match e {
        Exp::Abs(_, b1) => match *b1 {
            Exp::Abs(_, b2) => match *b2 {
                Exp::Abs(_, b3) => match add_k_count(*b3) {
                    Some(n) => if n <= u64::MAX {
                        Some(n)
                    } else {
                        None
                    },
                    None => None,
                },
                _ => None,
            },
            _ => None,
        },
        _ => None,
    }
}

/// `e` is `add a` with `a` a numeral.
pub open spec fn add1_applies<T>(e: Exp<T>) -> bool {
    e matches Exp::App(add, a) && purified(*add) == add_term() && church_value(*a) is Some
}

/// The normal form of `add a`: `λm. λf. λx. f^a (m f x)`.
pub open spec fn add1_result<T>(e: Exp<T>) -> Exp<T> {
    match e {
        Exp::App(add, a) => {
            let m = second_label(*add);
            let f = first_label(*a);
            let x = second_label(*a);
            Exp::Abs(
                Ident(m, 0),
                Box::new(
                    Exp::Abs(
                        Ident(f, 0),
                        Box::new(
                            Exp::Abs(
                                Ident(x, 0),
                                Box::new(
                                    spine_over(
                                        church_value(*a).unwrap(),
                                        f,
                                        Exp::App(
                                            Box::new(
                                                Exp::App(
                                                    Box::new(Exp::Var(Ident(m, 3))),
                                                    Box::new(Exp::Var(Ident(f, 2))),
                                                ),
                                            ),
                                            Box::new(Exp::Var(Ident(x, 1))),
                                        ),
                                    ),
                                ),
                            ),
                        ),
                    ),
                ),
            )
        },
        _ => e,
    }
}

/// `e` is `(add k) b` with `add k` in normal form and `b` a numeral, and the
/// sum fits in `u64`.
pub open spec fn add2_applies<T>(e: Exp<T>) -> bool {
    e matches Exp::App(add_a, b) && add_k_value(*add_a) is Some && church_value(*b) is Some
        && add_k_value(*add_a).unwrap() + church_value(*b).unwrap() <= u64::MAX
}

/// The numeral for the sum, labelled like `b`.
pub open spec fn add2_result<T>(e: Exp<T>) -> Exp<T> {
    match e {
        Exp::App(add_a, b) => numeral(
            add_k_value(*add_a).unwrap() + church_value(*b).unwrap(),
            first_label(*b),
            second_label(*b),
        ),
        _ => e,
    }
}

/// `e` is `mul a b` with numerals `a` and `b`, and the product fits in `u64`.
pub open spec fn mul_applies<T>(e: Exp<T>) -> bool {
    e matches Exp::App(mul_a, b) && *mul_a matches Exp::App(mul, a) && purified(*mul)
        == mul_term() && church_value(*a) is Some && church_value(*b) is Some
        && church_value(*a).unwrap() * church_value(*b).unwrap() <= u64::MAX
}

/// The numeral for the product, labelled like `a`.
pub open spec fn mul_result<T>(e: Exp<T>) -> Exp<T> {
    match e {
        Exp::App(mul_a, b) => match *mul_a {
            Exp::App(_, a) => numeral(
                church_value(*a).unwrap() * church_value(*b).unwrap(),
                first_label(*a),
                second_label(*a),
            ),
            _ => e,
        },
        _ => e,
    }
}

/// One step of leftmost-outermost reduction: at the root, the arithmetic
/// fast paths (where `opt`), then beta, then eta (where `eta`); otherwise
/// the first child, left before right, that can take a step. `None` where
/// no redex is left.
pub open spec fn step<T>(e: Exp<T>, eta: bool, opt: bool) -> Option<Exp<T>>
    decreases e,
{
    if opt && add1_applies(e) {
        Some(add1_result(e))
    } else if opt && add2_applies(e) {
        Some(add2_result(e))
    } else if opt && mul_applies(e) {
        Some(mul_result(e))
    } else if beta_redex(e) {
        Some(beta_result(e))
    } else if eta && eta_redex(e) {
        Some(eta_result(e))
    } else {
        match e {
            Exp::Var(_) => None,
            Exp::Abs(id, b) => match step(*b, eta, opt) {
                Some(b2) => Some(Exp::Abs(id, Box::new(b2))),
                None => None,
            },
            Exp::App(f, a) => match step(*f, eta, opt) {
                Some(f2) => Some(Exp::App(Box::new(f2), a)),
                None => match step(*a, eta, opt) {
                    Some(a2) => Some(Exp::App(f, Box::new(a2))),
                    None => None,
                },
            },
        }
    }
}

/// Steps taken from `e` until a normal form, for at most `fuel` attempts:
/// the term reached, and whether a normal form was found. A term whose
/// indices could leave `u32` is not stepped.
pub open spec fn run<T>(e: Exp<T>, eta: bool, opt: bool, fuel: nat) -> (Exp<T>, Result<(), Error>)
    decreases fuel,
{
    if fuel == 0 {
        (e, Err(Error::SimplifyLimitExceeded))
    } else if !fits(e) {
        (e, Err(Error::IndexOverflow))
    } else {
        match step(e, eta, opt) {
            None => (e, Ok(())),
            Some(e2) => run(e2, eta, opt, (fuel - 1) as nat),
        }
    }
}

fn pure_var(code: u32) -> (r: Exp<()>)
    ensures
        r == pvar(code),
{
    Exp::Var(Ident((), code))
}

fn pure_app(f: Exp<()>, a: Exp<()>) -> (r: Exp<()>)
    ensures
        r == papp(f, a),
{
    Exp::App(Box::new(f), Box::new(a))
}

fn pure_abs4(body: Exp<()>) -> (r: Exp<()>)
    ensures
        r == pabs4(body),
{
    Exp::Abs(
        Ident((), 0),
        Box::new(
            Exp::Abs(
                Ident((), 0),
                Box::new(
                    Exp::Abs(Ident((), 0), Box::new(Exp::Abs(Ident((), 0), Box::new(body)))),
                ),
            ),
        ),
    )
}

/// Structural equality of purified terms.
fn pure_eq(a: &Exp<()>, b: &Exp<()>) -> (r: bool)
    ensures
        r == (*a == *b),
    decreases a,
{
    match (a, b) {
        (Exp::Var(x), Exp::Var(y)) => {
            assert(x.0 == y.0);
            x.1 == y.1
        },
        (Exp::Abs(x, p), Exp::Abs(y, q)) => {
            assert(x.0 == y.0);
            x.1 == y.1 && pure_eq(p, q)
        },
        (Exp::App(f, p), Exp::App(g, q)) => pure_eq(f, g) && pure_eq(p, q),
        _ => false,
    }
}

/// `base` under `n` applications of the variable `f` bound two levels up.
fn spine<T: Label>(n: u64, f: &T, base: Exp<T>) -> (r: Exp<T>)
    ensures
        r == spine_over(n as nat, *f, base),
{
    let mut cur = base;
    let mut i: u64 = 0;
    while i < n
        invariant
            i <= n,
            cur == spine_over(i as nat, *f, base),
        decreases n - i,
    {
        cur = Exp::App(Box::new(Exp::Var(Ident(f.duplicate(), 2))), Box::new(cur));
        i = i + 1;
    }
    cur
}

/// `o` raised by `k`, where it is a number.
pub open spec fn plus(o: Option<nat>, k: nat) -> Option<nat> {
    match o {
        Some(n) => Some(n + k),
        None => None,
    }
}

impl<T: Label> Exp<T> {
    /// The value and the two binder labels of a Church numeral
    /// `λf. λx. f (f (... x))`.
    pub fn try_into_church_num(&self) -> (r: Option<(u64, T, T)>)
        ensures
            match r {
                Some((v, f, x)) => church_value(*self) == Some(v as nat) && f == first_label(*self)
                    && x == second_label(*self),
                None => church_value(*self) is None,
            },
    {
        let (f, body) = match self.into_abs() {
            Some(p) => p,
            None => return None,
        };
        let (x, body) = match body.into_abs() {
            Some(p) => p,
            None => return None,
        };
        let ghost start = *body;
        let mut cur: &Exp<T> = body;
        let mut val: u64 = 0;
        loop
            invariant
                f.0 == first_label(*self),
                x.0 == second_label(*self),
                spine_count(start) == plus(spine_count(*cur), val as nat),
                church_value(*self) == (match spine_count(start) {
                    Some(n) => if n <= u64::MAX {
                        Some(n)
                    } else {
                        None
                    },
                    None => None,
                }),
            decreases size(*cur),
        {
            match cur {
                Exp::App(func, arg) => {
                    match &**func {
                        Exp::Var(id) => {
                            if id.1 != 2 {
                                return None;
                            }
                            if val == u64::MAX {
                                return None;
                            }
                            val = val + 1;
                            cur = &**arg;
                        },
                        _ => return None,
                    }
                },
                Exp::Var(id) => {
                    if id.1 != 1 {
                        return None;
                    }
                    return Some((val, f.0.duplicate(), x.0.duplicate()));
                },
                Exp::Abs(_, _) => return None,
            }
        }
    }

    /// The Church numeral for `num`, with binders labelled `f` and `x`.
    pub fn from_church_num(num: u64, f: T, x: T) -> (r: Self)
        ensures
            r == numeral(num as nat, f, x),
    {
        let cur = spine(num, &f, Exp::Var(Ident(x.duplicate(), 1)));
        Exp::Abs(Ident(f, 0), Box::new(Exp::Abs(Ident(x, 0), Box::new(cur))))
    }

    /// Whether the term is the addition combinator, up to labels.
    pub fn is_add(&self) -> (r: bool)
        ensures
            r == (purified(*self) == add_term()),
    {
        let add = pure_abs4(
            pure_app(
                pure_app(pure_var(4), pure_var(2)),
                pure_app(pure_app(pure_var(3), pure_var(2)), pure_var(1)),
            ),
        );
        pure_eq(&self.purify(), &add)
    }

    /// Whether the term is the multiplication combinator, up to labels.
    pub fn is_mul(&self) -> (r: bool)
        ensures
            r == (purified(*self) == mul_term()),
    {
        let mul = pure_abs4(
            pure_app(pure_app(pure_var(4), pure_app(pure_var(3), pure_var(2))), pure_var(1)),
        );
        pure_eq(&self.purify(), &mul)
    }

    /// The `k` of a partial application `add k` in normal form,
    /// `λm. λf. λx. f^k (m f x)`.
    pub fn is_add_k(&self) -> (r: Option<u64>)
        ensures
            match r {
                Some(k) => add_k_value(*self) == Some(k as nat),
                None => add_k_value(*self) is None,
            },
    {
        let (_m, body) = match self.into_abs() {
            Some(p) => p,
            None => return None,
        };
        let (_f, body) = match body.into_abs() {
            Some(p) => p,
            None => return None,
        };
        let (_x, body) = match body.into_abs() {
            Some(p) => p,
            None => return None,
        };
        let ghost start = *body;
        let mut cur: &Exp<T> = body;
        let mut val: u64 = 0;
        loop
            invariant
                add_k_count(start) == plus(add_k_count(*cur), val as nat),
                add_k_value(*self) == (match add_k_count(start) {
                    Some(n) => if n <= u64::MAX {
                        Some(n)
                    } else {
                        None
                    },
                    None => None,
                }),
            decreases size(*cur),
        {
            match cur {
                Exp::App(func, arg) => {
                    match &**func {
                        Exp::Var(id) => {
                            if id.1 != 2 {
                                return None;
                            }
                            if val == u64::MAX {
                                return None;
                            }
                            val = val + 1;
                            cur = &**arg;
                        },
                        Exp::App(m1, f1) => {
                            match (&**m1, &**f1, &**arg) {
                                (Exp::Var(i), Exp::Var(j), Exp::Var(k)) => {
                                    if i.1 == 3 && j.1 == 2 && k.1 == 1 {
                                        return Some(val);
                                    }
                                    return None;
                                },
                                _ => return None,
                            }
                        },
                        _ => return None,
                    }
                },
                _ => return None,
            }
        }
    }
}

/// The children of a term whose indices fit have indices that fit.
pub proof fn lemma_fits_children<T>(e: Exp<T>)
    requires
        fits(e),
    ensures
        e matches Exp::Abs(_, b) ==> fits(*b),
        e matches Exp::App(f, a) ==> fits(*f) && fits(*a),
{
}

impl<T: Label> Exp<T> {
    fn max_code_exec(&self) -> (r: u32)
        ensures
            r == max_code(*self),
        decreases self,
    {
        match self {
            Exp::Var(id) => id.1,
            Exp::Abs(_, b) => b.max_code_exec(),
            Exp::App(f, a) => {
                let x = f.max_code_exec();
                let y = a.max_code_exec();
                if x >= y {
                    x
                } else {
                    y
                }
            },
        }
    }

    fn nest_capped(&self) -> (r: u64)
        ensures
            r == (if nest(*self) <= u32::MAX + 1 {
                nest(*self) as int
            } else {
                u32::MAX + 1
            }),
        decreases self,
    {
        match self {
            Exp::Var(_) => 0,
            Exp::Abs(_, b) => {
                let n = b.nest_capped();
                if n > u32::MAX as u64 {
                    n
                } else {
                    n + 1
                }
            },
            Exp::App(f, a) => {
                let x = f.nest_capped();
                let y = a.nest_capped();
                if x >= y {
                    x
                } else {
                    y
                }
            },
        }
    }

    /// Whether every index that a reduction of the term can compute stays
    /// within `u32`.
    pub fn index_fits(&self) -> (r: bool)
        ensures
            r == fits(*self),
    {
        let m = self.max_code_exec();
        let n = self.nest_capped();
        m as u64 + n <= u32::MAX as u64
    }

    fn add1(&self) -> (r: Option<Exp<T>>)
        ensures
            r == (if add1_applies(*self) {
                Some(add1_result(*self))
            } else {
                None
            }),
    {
        match self {
            Exp::App(add, a) => {
                if !add.is_add() {
                    return None;
                }
                match a.try_into_church_num() {
                    Some((va, f, x)) => {
                        let m = match &**add {
                            Exp::Abs(_, b) => match &**b {
                                Exp::Abs(mi, _) => mi.0.duplicate(),
                                _ => {
                                    assert(purified(**add) == Exp::Abs(
                                        Ident((), 0),
                                        Box::new(purified(**b)),
                                    ));
                                    return None;
                                },
                            },
                            _ => return None,
                        };
                        let base = Exp::App(
                            Box::new(
                                Exp::App(
                                    Box::new(Exp::Var(Ident(m.duplicate(), 3))),
                                    Box::new(Exp::Var(Ident(f.duplicate(), 2))),
                                ),
                            ),
                            Box::new(Exp::Var(Ident(x.duplicate(), 1))),
                        );
                        let body = spine(va, &f, base);
                        Some(
                            Exp::Abs(
                                Ident(m, 0),
                                Box::new(
                                    Exp::Abs(
                                        Ident(f, 0),
                                        Box::new(Exp::Abs(Ident(x, 0), Box::new(body))),
                                    ),
                                ),
                            ),
                        )
                    },
                    None => None,
                }
            },
            _ => None,
        }
    }

    /// Rewrites `add a`, with `a` a numeral, to its normal form
    /// `λm. λf. λx. f^a (m f x)`. Returns false where it does not apply.
    pub fn try_add_opt_1(&mut self) -> (r: bool)
        ensures
            r == add1_applies(*old(self)),
            r ==> *final(self) == add1_result(*old(self)),
            !r ==> *final(self) == *old(self),
    {
        match self.add1() {
            Some(t) => {
                *self = t;
                true
            },
            None => false,
        }
    }

    fn add2(&self) -> (r: Option<Exp<T>>)
        ensures
            r == (if add2_applies(*self) {
                Some(add2_result(*self))
            } else {
                None
            }),
    {
        match self {
            Exp::App(add_a, b) => {
                let vb = match b.try_into_church_num() {
                    Some(p) => p,
                    None => return None,
                };
                let va = match add_a.is_add_k() {
                    Some(k) => k,
                    None => return None,
                };
                match va.checked_add(vb.0) {
                    Some(n) => Some(Self::from_church_num(n, vb.1, vb.2)),
                    None => None,
                }
            },
            _ => None,
        }
    }

    /// Rewrites `(add k) b`, with `add k` in normal form and `b` a numeral,
    /// to the numeral for the sum. Returns false where it does not apply.
    pub fn try_add_opt_2(&mut self) -> (r: bool)
        ensures
            r == add2_applies(*old(self)),
            r ==> *final(self) == add2_result(*old(self)),
            !r ==> *final(self) == *old(self),
    {
        match self.add2() {
            Some(t) => {
                *self = t;
                true
            },
            None => false,
        }
    }

    fn mul2(&self) -> (r: Option<Exp<T>>)
        ensures
            r == (if mul_applies(*self) {
                Some(mul_result(*self))
            } else {
                None
            }),
    {
        match self {
            Exp::App(mul_a, b) => {
                let vb = match b.try_into_church_num() {
                    Some(p) => p,
                    None => return None,
                };
                match &**mul_a {
                    Exp::App(mul, a) => {
                        if !mul.is_mul() {
                            return None;
                        }
                        let va = match a.try_into_church_num() {
                            Some(p) => p,
                            None => return None,
                        };
                        match va.0.checked_mul(vb.0) {
                            Some(n) => Some(Self::from_church_num(n, va.1, va.2)),
                            None => None,
                        }
                    },
                    _ => None,
                }
            },
            _ => None,
        }
    }

    /// Rewrites `mul a b`, with numerals `a` and `b`, to the numeral for the
    /// product. Returns false where it does not apply.
    pub fn try_mul_opt(&mut self) -> (r: bool)
        ensures
            r == mul_applies(*old(self)),
            r ==> *final(self) == mul_result(*old(self)),
            !r ==> *final(self) == *old(self),
    {
        match self.mul2() {
            Some(t) => {
                *self = t;
                true
            },
            None => false,
        }
    }

    /// Takes one step of leftmost-outermost reduction. Returns false, and
    /// leaves the term as it is, where no redex is left.
    pub fn eval_normal_order(&mut self, eta_reduce: bool, optimize: bool) -> (r: bool)
        requires
            fits(*old(self)),
        ensures
            match step(*old(self), eta_reduce, optimize) {
                Some(t) => r && *final(self) == t,
                None => !r && *final(self) == *old(self),
            },
        decreases *old(self),
    {
        if optimize {
            if self.try_add_opt_1() {
                return true;
            }
            if self.try_add_opt_2() {
                return true;
            }
            if self.try_mul_opt() {
                return true;
            }
        }
        if self.beta_reduce() {
            return true;
        }
        if eta_reduce && self.eta_reduce() {
            return true;
        }
        proof {
            lemma_fits_children(*self);
        }
        match self {
            Exp::Var(_) => false,
            Exp::Abs(_, body) => body.eval_normal_order(eta_reduce, optimize),
            Exp::App(l, body) => {
                if l.eval_normal_order(eta_reduce, optimize) {
                    true
                } else {
                    body.eval_normal_order(eta_reduce, optimize)
                }
            },
        }
    }

    /// Reduces in normal order until no redex is left, for at most `limit`
    /// attempts, with eta reduction and the arithmetic fast paths as asked.
    /// Fails with `SimplifyLimitExceeded` where the attempts run out first,
    /// and with `IndexOverflow` where an index could leave `u32`.
    pub fn simplify_bounded(&mut self, eta_reduce: bool, optimize: bool, limit: u32) -> (r: Result<
        (),
        Error,
    >)
        ensures
            *final(self) == run(*old(self), eta_reduce, optimize, limit as nat).0,
            r == run(*old(self), eta_reduce, optimize, limit as nat).1,
    {
        let ghost start = *self;
        let mut i: u32 = 0;
        while i < limit
            invariant
                i <= limit,
                start == *old(self),
                run(start, eta_reduce, optimize, limit as nat) == run(
                    *self,
                    eta_reduce,
                    optimize,
                    (limit - i) as nat,
                ),
            decreases limit - i,
        {
            if !self.index_fits() {
                assert(run(*self, eta_reduce, optimize, (limit - i) as nat) == (
                *self, Err::<(), Error>(Error::IndexOverflow)));
                return Err(Error::IndexOverflow);
            }
            if !self.eval_normal_order(eta_reduce, optimize) {
                return Ok(());
            }
            i = i + 1;
        }
        Err(Error::SimplifyLimitExceeded)
    }

    /// Reduces in normal order, without eta reduction, until no redex is
    /// left, for at most `SIMPLIFY_LIMIT` attempts.
    pub fn simplify(&mut self, optimize: bool) -> (r: Result<&mut Self, Error>)
        ensures
            match run(*old(self), false, optimize, SIMPLIFY_LIMIT as nat) {
                (t, Ok(())) => r matches Ok(m) && *m == t && *final(self) == *final(m),
                (t, Err(e)) => r matches Err(x) && x == e && *final(self) == t,
            },
    {
        match self.simplify_bounded(false, optimize, SIMPLIFY_LIMIT as u32) {
            Ok(()) => Ok(self),
            Err(e) => Err(e),
        }
    }
}

} // verus!
