//! Laws that relate the operations of the engine, proved over their
//! specifications.
use vstd::prelude::*;

use crate::error::Error;
use crate::eval::{
    add1_applies, add1_result, add2_applies, add_k_count, add_k_value, add_term, church_value,
    mul_applies, mul_term, numeral, run, spine_count, spine_over, step,
};
use crate::exp::{
    beta_redex, beta_result, eta_redex, eta_result, fits, max_code, max_nat, mentions, nest,
    purified, shifted, substituted, Exp, Ident,
};
use crate::view::{
    beta_by_id, captures, decorated, eta_by_id, ids, view_eta, lemma_cons_path, mirrors, opt_set, replace_at, sub_at, unique,
    view_at, InnerExp, JsExp,
};

verus! {

/// Reduction by id is local: where it succeeds, it contracts the beta redex
/// at the position whose view node carries the id, and leaves every other
/// node of the term as it was.
pub proof fn beta_by_id_is_local(e: Exp<String>, v: JsExp, id: usize) -> (p: Seq<nat>)
    requires
        beta_by_id(e, v, id).1 is Ok,
    ensures
        view_at(v, p).inner matches InnerExp::App(a) && a.beta_redex == Some(id),
        beta_redex(sub_at(e, p)),
        beta_by_id(e, v, id).0 == replace_at(e, p, beta_result(sub_at(e, p))),
    decreases e,
{
    match e {
        Exp::Var(_) => Seq::empty(),
        Exp::Abs(_, b) => match v.inner {
            InnerExp::Abs(a) => {
                let q = beta_by_id_is_local(*b, *a.body, id);
                lemma_cons_path(0, q);
                seq![0nat] + q
            },
            _ => Seq::empty(),
        },
        Exp::App(f, g) => match v.inner {
            InnerExp::App(a) => if a.beta_redex == Some(id) {
                Seq::empty()
            } else {
                let r = beta_by_id(*f, *a.func, id).1;
                if r == Err::<usize, Error>(Error::RedexNotFound) {
                    let q = beta_by_id_is_local(*g, *a.body, id);
                    lemma_cons_path(1, q);
                    seq![1nat] + q
                } else {
                    let q = beta_by_id_is_local(*f, *a.func, id);
                    lemma_cons_path(0, q);
                    seq![0nat] + q
                }
            },
            _ => Seq::empty(),
        },
    }
}

/// The beta-redex ids that the view `v` reports.
pub open spec fn beta_ids(v: JsExp) -> Set<usize>
    decreases v,
{
    match v.inner {
        InnerExp::Var(_) => Set::empty(),
        InnerExp::Abs(a) => beta_ids(*a.body),
        InnerExp::App(a) => beta_ids(*a.func).union(beta_ids(*a.body)).union(
            opt_set(a.beta_redex),
        ),
    }
}

/// Reduction by id against the view of the same term succeeds exactly for
/// the beta-redex ids that the view reports; any other id is not found.
pub proof fn beta_by_id_finds_reported_ids(
    e: Exp<String>,
    v: JsExp,
    id: usize,
    is_app_func: bool,
    is_app_body: bool,
    is_tail: bool,
)
    requires
        mirrors(v, e),
        decorated(v, is_app_func, is_app_body, is_tail),
    ensures
        beta_by_id(e, v, id).1 is Ok <==> beta_ids(v).contains(id),
        !(beta_by_id(e, v, id).1 is Ok) ==> beta_by_id(e, v, id).1 == Err::<usize, Error>(
            Error::RedexNotFound,
        ),
    decreases e,
{
    match e {
        Exp::Var(_) => {},
        Exp::Abs(_, b) => match v.inner {
            InnerExp::Abs(a) => {
                beta_by_id_finds_reported_ids(
                    *b,
                    *a.body,
                    id,
                    false,
                    false,
                    v.parentheses || is_tail,
                );
            },
            _ => {},
        },
        Exp::App(f, g) => match v.inner {
            InnerExp::App(a) => {
                beta_by_id_finds_reported_ids(*f, *a.func, id, true, false, false);
                beta_by_id_finds_reported_ids(
                    *g,
                    *a.body,
                    id,
                    false,
                    true,
                    v.parentheses || is_tail,
                );
                if a.beta_redex == Some(id) {
                    assert(a.func.inner is Abs);
                    assert(mirrors(*a.func, *f));
                    match *f {
                        Exp::Var(_) => assert(a.func.inner is Var),
                        Exp::App(_, _) => assert(a.func.inner is App),
                        Exp::Abs(_, _) => {},
                    }
                    assert(*f is Abs);
                }
            },
            _ => {},
        },
    }
}

/// The path `p` leads to a node of the view `v`.
pub open spec fn path_in(v: JsExp, p: Seq<nat>) -> bool
    decreases p.len(),
{
    if p.len() == 0 {
        true
    } else {
        match v.inner {
            InnerExp::Var(_) => false,
            InnerExp::Abs(a) => p[0] == 0 && path_in(*a.body, p.drop_first()),
            InnerExp::App(a) => (p[0] == 0 && path_in(*a.func, p.drop_first())) || (p[0] == 1
                && path_in(*a.body, p.drop_first())),
        }
    }
}

/// The alpha id of the binder of the beta redex whose view node is `n`.
pub open spec fn redex_binder_alpha(n: JsExp) -> usize {
    match n.inner {
        InnerExp::App(a) => match a.func.inner {
            InnerExp::Abs(fa) => fa.alpha_id,
            _ => 0,
        },
        _ => 0,
    }
}

/// The ids of a node are ids of every view above it.
pub proof fn lemma_ids_on_path(v: JsExp, p: Seq<nat>)
    requires
        path_in(v, p),
    ensures
        ids(view_at(v, p)).subset_of(ids(v)),
    decreases p.len(),
{
    if p.len() > 0 {
        match v.inner {
            InnerExp::Abs(a) => lemma_ids_on_path(*a.body, p.drop_first()),
            InnerExp::App(a) => if p[0] == 0 {
                lemma_ids_on_path(*a.func, p.drop_first());
            } else {
                lemma_ids_on_path(*a.body, p.drop_first());
            },
            _ => {},
        }
    }
}

/// The beta ids of a view are among its redex ids.
pub proof fn lemma_beta_ids(v: JsExp)
    ensures
        beta_ids(v).subset_of(ids(v)),
    decreases v,
{
    match v.inner {
        InnerExp::Abs(a) => lemma_beta_ids(*a.body),
        InnerExp::App(a) => {
            lemma_beta_ids(*a.func);
            lemma_beta_ids(*a.body);
        },
        _ => {},
    }
}

/// Reduction at a reported id: in the view of a term, where the node at
/// the path `p` reports the beta-redex id `id`, reduction by that id
/// contracts exactly the redex at `p`, leaves every other node as it was,
/// and returns the alpha id of that redex's binder.
pub proof fn beta_by_reported_id(
    e: Exp<String>,
    v: JsExp,
    id: usize,
    p: Seq<nat>,
    is_app_func: bool,
    is_app_body: bool,
    is_tail: bool,
)
    requires
        mirrors(v, e),
        decorated(v, is_app_func, is_app_body, is_tail),
        unique(v),
        path_in(v, p),
        view_at(v, p).inner matches InnerExp::App(a) && a.beta_redex == Some(id),
    ensures
        beta_redex(sub_at(e, p)),
        beta_by_id(e, v, id) == (
            replace_at(e, p, beta_result(sub_at(e, p))),
            Ok::<usize, Error>(redex_binder_alpha(view_at(v, p))),
        ),
    decreases e,
{
    if p.len() == 0 {
        match (e, v.inner) {
            (Exp::App(f, _), InnerExp::App(a)) => {
                assert(mirrors(*a.func, *f));
                match *f {
                    Exp::Var(_) => assert(a.func.inner is Var),
                    Exp::App(_, _) => assert(a.func.inner is App),
                    Exp::Abs(_, _) => {},
                }
            },
            _ => {},
        }
    } else {
        let q = p.drop_first();
        assert(p == seq![p[0]] + q);
        lemma_cons_path(p[0], q);
        match (e, v.inner) {
            (Exp::Abs(_, bd), InnerExp::Abs(a)) => {
                beta_by_reported_id(*bd, *a.body, id, q, false, false, v.parentheses || is_tail);
            },
            (Exp::App(f, g), InnerExp::App(a)) => {
                let child = if p[0] == 0 {
                    *a.func
                } else {
                    *a.body
                };
                lemma_ids_on_path(child, q);
                assert(ids(view_at(child, q)).contains(id));
                assert(a.beta_redex != Some(id));
                if p[0] == 0 {
                    beta_by_reported_id(*f, *a.func, id, q, true, false, false);
                } else {
                    lemma_beta_ids(*a.func);
                    assert(!ids(*a.func).contains(id));
                    beta_by_id_finds_reported_ids(*f, *a.func, id, true, false, false);
                    beta_by_reported_id(
                        *g,
                        *a.body,
                        id,
                        q,
                        false,
                        true,
                        v.parentheses || is_tail,
                    );
                }
            },
            _ => {},
        }
    }
}

/// The eta-redex ids that the view `v` reports.
pub open spec fn eta_ids(v: JsExp) -> Set<usize>
    decreases v,
{
    match v.inner {
        InnerExp::Var(_) => Set::empty(),
        InnerExp::Abs(a) => eta_ids(*a.body).union(opt_set(a.eta_redex)),
        InnerExp::App(a) => eta_ids(*a.func).union(eta_ids(*a.body)),
    }
}

/// The eta ids of a view are among its redex ids.
pub proof fn lemma_eta_ids(v: JsExp)
    ensures
        eta_ids(v).subset_of(ids(v)),
    decreases v,
{
    match v.inner {
        InnerExp::Abs(a) => lemma_eta_ids(*a.body),
        InnerExp::App(a) => {
            lemma_eta_ids(*a.func);
            lemma_eta_ids(*a.body);
        },
        _ => {},
    }
}

/// A view and the term it mirrors point at the same binders.
pub proof fn lemma_captures_mentions(v: JsExp, e: Exp<String>, index: nat, depth: nat)
    requires
        mirrors(v, e),
    ensures
        captures(v, index + depth) == mentions(e, index, depth),
    decreases e,
{
    match (e, v.inner) {
        (Exp::Abs(_, b), InnerExp::Abs(a)) => {
            lemma_captures_mentions(*a.body, *b, index, depth + 1);
            assert(index + depth + 1 == index + (depth + 1));
        },
        (Exp::App(f, g), InnerExp::App(a)) => {
            lemma_captures_mentions(*a.func, *f, index, depth);
            lemma_captures_mentions(*a.body, *g, index, depth);
        },
        _ => {},
    }
}

/// An abstraction of the view marks an eta redex where the term has one.
pub proof fn lemma_view_eta(v: JsExp, e: Exp<String>)
    requires
        mirrors(v, e),
        v.inner is Abs,
    ensures
        view_eta(v.inner->Abs_0) == eta_redex(e),
{
    match (e, v.inner) {
        (Exp::Abs(_, b), InnerExp::Abs(a)) => {
            match (*b, a.body.inner) {
                (Exp::App(f, g), InnerExp::App(pa)) => {
                    assert(mirrors(*a.body, *b));
                    assert(mirrors(*pa.func, *f) && mirrors(*pa.body, *g));
                    lemma_captures_mentions(*pa.func, *f, 1, 0);
                    match *g {
                        Exp::Var(_) => {},
                        Exp::Abs(_, _) => assert(pa.body.inner is Abs),
                        Exp::App(_, _) => assert(pa.body.inner is App),
                    }
                },
                (Exp::App(_, _), _) => {
                    assert(mirrors(*a.body, *b));
                },
                (_, InnerExp::App(_)) => {
                    assert(mirrors(*a.body, *b));
                    match *b {
                        Exp::Var(_) => assert(a.body.inner is Var),
                        Exp::Abs(_, _) => assert(a.body.inner is Abs),
                        _ => {},
                    }
                },
                _ => {},
            }
        },
        _ => {},
    }
}

/// Reduction by id against the view of the same term succeeds exactly for
/// the eta-redex ids that the view reports; any other id is not found.
pub proof fn eta_by_id_finds_reported_ids(
    e: Exp<String>,
    v: JsExp,
    id: usize,
    is_app_func: bool,
    is_app_body: bool,
    is_tail: bool,
)
    requires
        mirrors(v, e),
        decorated(v, is_app_func, is_app_body, is_tail),
    ensures
        eta_by_id(e, v, id).1 is Ok <==> eta_ids(v).contains(id),
        !(eta_by_id(e, v, id).1 is Ok) ==> eta_by_id(e, v, id).1 == Err::<usize, Error>(
            Error::RedexNotFound,
        ),
    decreases e,
{
    match e {
        Exp::Var(_) => {},
        Exp::Abs(_, b) => match v.inner {
            InnerExp::Abs(a) => {
                lemma_view_eta(v, e);
                eta_by_id_finds_reported_ids(
                    *b,
                    *a.body,
                    id,
                    false,
                    false,
                    v.parentheses || is_tail,
                );
            },
            _ => {},
        },
        Exp::App(f, g) => match v.inner {
            InnerExp::App(a) => {
                eta_by_id_finds_reported_ids(*f, *a.func, id, true, false, false);
                eta_by_id_finds_reported_ids(
                    *g,
                    *a.body,
                    id,
                    false,
                    true,
                    v.parentheses || is_tail,
                );
            },
            _ => {},
        },
    }
}

/// Reduction at a reported eta id: in the view of a term, where the node
/// at the path `p` reports the eta-redex id `id`, reduction by that id
/// contracts exactly the redex at `p`, leaves every other node as it was,
/// and returns the alpha id of the removed binder.
pub proof fn eta_by_reported_id(
    e: Exp<String>,
    v: JsExp,
    id: usize,
    p: Seq<nat>,
    is_app_func: bool,
    is_app_body: bool,
    is_tail: bool,
)
    requires
        mirrors(v, e),
        decorated(v, is_app_func, is_app_body, is_tail),
        unique(v),
        path_in(v, p),
        view_at(v, p).inner matches InnerExp::Abs(a) && a.eta_redex == Some(id),
    ensures
        eta_redex(sub_at(e, p)),
        eta_by_id(e, v, id) == (
            replace_at(e, p, eta_result(sub_at(e, p))),
            Ok::<usize, Error>(view_at(v, p).inner->Abs_0.alpha_id),
        ),
    decreases e,
{
    if p.len() == 0 {
        lemma_view_eta(v, e);
    } else {
        let q = p.drop_first();
        assert(p == seq![p[0]] + q);
        lemma_cons_path(p[0], q);
        match (e, v.inner) {
            (Exp::Abs(_, bd), InnerExp::Abs(a)) => {
                lemma_ids_on_path(*a.body, q);
                assert(ids(view_at(*a.body, q)).contains(id));
                assert(a.eta_redex != Some(id));
                eta_by_reported_id(*bd, *a.body, id, q, false, false, v.parentheses || is_tail);
            },
            (Exp::App(f, g), InnerExp::App(a)) => {
                let child = if p[0] == 0 {
                    *a.func
                } else {
                    *a.body
                };
                lemma_ids_on_path(child, q);
                assert(ids(view_at(child, q)).contains(id));
                if p[0] == 0 {
                    eta_by_reported_id(*f, *a.func, id, q, true, false, false);
                } else {
                    lemma_eta_ids(*a.func);
                    assert(!ids(*a.func).contains(id));
                    eta_by_id_finds_reported_ids(*f, *a.func, id, true, false, false);
                    eta_by_reported_id(*g, *a.body, id, q, false, true, v.parentheses || is_tail);
                }
            },
            _ => {},
        }
    }
}

/// `e` with every label renamed by `f`.
pub open spec fn relabel<T>(e: Exp<T>, f: spec_fn(T) -> T) -> Exp<T>
    decreases e,
{
    match e {
        Exp::Var(id) => Exp::Var(Ident(f(id.0), id.1)),
        Exp::Abs(id, b) => Exp::Abs(Ident(f(id.0), id.1), Box::new(relabel(*b, f))),
        Exp::App(a, b) => Exp::App(Box::new(relabel(*a, f)), Box::new(relabel(*b, f))),
    }
}

/// Purification sees only the binding structure: renaming the identifiers
/// of a term, in any way, leaves its purified form as it was.
pub proof fn purify_ignores_labels<T>(e: Exp<T>, f: spec_fn(T) -> T)
    ensures
        purified(relabel(e, f)) == purified(e),
    decreases e,
{
    match e {
        Exp::Var(_) => {},
        Exp::Abs(_, b) => purify_ignores_labels(*b, f),
        Exp::App(a, b) => {
            purify_ignores_labels(*a, f);
            purify_ignores_labels(*b, f);
        },
    }
}

/// Every de Bruijn code of `e` points at a binder within `e` (or is 0, a
/// free name), counting `depth` binders above the root.
pub open spec fn closed_at<T>(e: Exp<T>, depth: nat) -> bool
    decreases e,
{
    match e {
        Exp::Var(id) => id.1 <= depth,
        Exp::Abs(_, b) => closed_at(*b, depth + 1),
        Exp::App(a, b) => closed_at(*a, depth) && closed_at(*b, depth),
    }
}

/// `e` with each occurrence of the variable bound `depth` levels up
/// replaced by `r` as it stands, and the references above it moved down.
pub open spec fn instantiated<T>(e: Exp<T>, r: Exp<T>, depth: nat) -> Exp<T>
    decreases e,
{
    match e {
        Exp::Var(id) => if id.1 == depth {
            r
        } else if id.1 > depth {
            Exp::Var(Ident(id.0, (id.1 - 1) as u32))
        } else {
            e
        },
        Exp::Abs(x, b) => Exp::Abs(x, Box::new(instantiated(*b, r, depth + 1))),
        Exp::App(a, b) => Exp::App(
            Box::new(instantiated(*a, r, depth)),
            Box::new(instantiated(*b, r, depth)),
        ),
    }
}

/// A term closed within `d` binders is closed within more.
pub proof fn lemma_closed_mono<T>(e: Exp<T>, d: nat, d2: nat)
    requires
        closed_at(e, d),
        d <= d2,
    ensures
        closed_at(e, d2),
    decreases e,
{
    match e {
        Exp::Var(_) => {},
        Exp::Abs(_, b) => lemma_closed_mono(*b, d + 1, d2 + 1),
        Exp::App(a, b) => {
            lemma_closed_mono(*a, d, d2);
            lemma_closed_mono(*b, d, d2);
        },
    }
}

proof fn lemma_shift_closed<T>(e: Exp<T>, delta: int, d: nat)
    requires
        closed_at(e, d),
    ensures
        shifted(e, delta, d) == e,
    decreases e,
{
    match e {
        Exp::Var(_) => {},
        Exp::Abs(_, b) => lemma_shift_closed(*b, delta, d + 1),
        Exp::App(a, b) => {
            lemma_shift_closed(*a, delta, d);
            lemma_shift_closed(*b, delta, d);
        },
    }
}

proof fn lemma_subst_closed<T>(e: Exp<T>, r: Exp<T>, d: nat)
    requires
        closed_at(r, 0),
        d >= 1,
    ensures
        shifted(substituted(e, 0, r, d), -1, d) == instantiated(e, r, d),
    decreases e,
{
    match e {
        Exp::Var(id) => {
            if id.1 == d {
                lemma_shift_closed(r, d as int, 0);
                lemma_closed_mono(r, 0, d);
                lemma_shift_closed(r, -1, d);
            }
        },
        Exp::Abs(_, b) => lemma_subst_closed(*b, r, d + 1),
        Exp::App(a, b) => {
            lemma_subst_closed(*a, r, d);
            lemma_subst_closed(*b, r, d);
        },
    }
}

/// Beta reduction captures nothing: an argument whose codes all point at its
/// own binders (free names aside) lands unchanged in place of each
/// occurrence of the parameter, so none of its free variables becomes bound.
pub proof fn beta_copies_closed_argument<T>(x: Ident<T>, body: Exp<T>, arg: Exp<T>)
    requires
        closed_at(arg, 0),
    ensures
        beta_result(Exp::App(Box::new(Exp::Abs(x, Box::new(body))), Box::new(arg)))
            == instantiated(body, arg, 1),
{
    lemma_subst_closed(body, arg, 1);
}

proof fn lemma_shift_up_down<T>(e: Exp<T>, d: nat)
    requires
        max_code(e) < u32::MAX,
    ensures
        shifted(shifted(e, 1, d), -1, d) == e,
        !mentions(shifted(e, 1, d), 1, d),
    decreases e,
{
    match e {
        Exp::Var(_) => {},
        Exp::Abs(_, b) => lemma_shift_up_down(*b, d + 1),
        Exp::App(a, b) => {
            lemma_shift_up_down(*a, d);
            lemma_shift_up_down(*b, d);
        },
    }
}

/// Eta round trip: expanding `F` to `λx. F x` (with `F` moved under the new
/// binder) gives an eta redex, and reducing it gives back `F`.
pub proof fn eta_reduces_expansion<T>(f: Exp<T>, x: T)
    requires
        max_code(f) < u32::MAX,
    ensures
        eta_redex(
            Exp::Abs(
                Ident(x, 0),
                Box::new(
                    Exp::App(Box::new(shifted(f, 1, 0)), Box::new(Exp::Var(Ident(x, 1)))),
                ),
            ),
        ),
        eta_result(
            Exp::Abs(
                Ident(x, 0),
                Box::new(
                    Exp::App(Box::new(shifted(f, 1, 0)), Box::new(Exp::Var(Ident(x, 1)))),
                ),
            ),
        ) == f,
{
    lemma_shift_up_down(f, 0);
}

/// The term reached after `k` steps of normal-order reduction from `e`
/// (fewer where a normal form comes first).
pub open spec fn iterate<T>(e: Exp<T>, eta: bool, opt: bool, k: nat) -> Exp<T>
    decreases k,
{
    if k == 0 {
        e
    } else {
        match step(e, eta, opt) {
            Some(e2) => iterate(e2, eta, opt, (k - 1) as nat),
            None => e,
        }
    }
}

/// The simplifier's success: where the `k`-th term of the reduction sequence
/// is the first normal form and `k` is below `limit`, simplification stops
/// there after exactly `k` steps.
pub proof fn normal_form_within_limit<T>(e: Exp<T>, eta: bool, opt: bool, k: nat, limit: nat)
    requires
        k < limit,
        forall|j: nat| j <= k ==> fits(#[trigger] iterate(e, eta, opt, j)),
        forall|j: nat| j < k ==> step(#[trigger] iterate(e, eta, opt, j), eta, opt) is Some,
        step(iterate(e, eta, opt, k), eta, opt) is None,
    ensures
        run(e, eta, opt, limit) == (iterate(e, eta, opt, k), Ok::<(), Error>(())),
    decreases k,
{
    assert(iterate(e, eta, opt, 0) == e);
    if k > 0 {
        let e2 = step(e, eta, opt).unwrap();
        assert forall|j: nat| j <= k - 1 implies fits(#[trigger] iterate(e2, eta, opt, j)) by {
            assert(iterate(e, eta, opt, j + 1) == iterate(e2, eta, opt, j));
        }
        assert forall|j: nat| j < k - 1 implies step(
            #[trigger] iterate(e2, eta, opt, j),
            eta,
            opt,
        ) is Some by {
            assert(iterate(e, eta, opt, j + 1) == iterate(e2, eta, opt, j));
        }
        assert(iterate(e, eta, opt, k) == iterate(e2, eta, opt, (k - 1) as nat));
        normal_form_within_limit(e2, eta, opt, (k - 1) as nat, (limit - 1) as nat);
    }
}

/// The simplifier's bound: where none of the first `limit` terms of the
/// reduction sequence is a normal form, simplification fails with
/// `SimplifyLimitExceeded` after exactly `limit` steps.
pub proof fn no_normal_form_exhausts<T>(e: Exp<T>, eta: bool, opt: bool, limit: nat)
    requires
        forall|k: nat|
            k < limit ==> step(#[trigger] iterate(e, eta, opt, k), eta, opt) is Some && fits(
                iterate(e, eta, opt, k),
            ),
    ensures
        run(e, eta, opt, limit) == (iterate(e, eta, opt, limit), Err::<(), Error>(
            Error::SimplifyLimitExceeded,
        )),
    decreases limit,
{
    if limit > 0 {
        assert(iterate(e, eta, opt, 0) == e);
        let e2 = step(e, eta, opt).unwrap();
        assert forall|k: nat| k < limit - 1 implies step(
            #[trigger] iterate(e2, eta, opt, k),
            eta,
            opt,
        ) is Some && fits(iterate(e2, eta, opt, k)) by {
            assert(iterate(e, eta, opt, k + 1) == iterate(e2, eta, opt, k));
        }
        no_normal_form_exhausts(e2, eta, opt, (limit - 1) as nat);
        assert(iterate(e, eta, opt, limit) == iterate(e2, eta, opt, (limit - 1) as nat));
    }
}

proof fn lemma_spine<T>(n: nat, f: T, base: Exp<T>)
    ensures
        max_code(spine_over(n, f, base)) <= max_nat(2, max_code(base)),
        nest(spine_over(n, f, base)) == nest(base),
        (n > 0 || base is App) ==> spine_over(n, f, base) is App,
    decreases n,
{
    if n > 0 {
        lemma_spine((n - 1) as nat, f, base);
        let rest = spine_over((n - 1) as nat, f, base);
        let v = Exp::Var(Ident(f, 2u32));
        assert(spine_over(n, f, base) == Exp::App(Box::new(v), Box::new(rest)));
        assert(max_code(v) == 2);
        assert(max_code(Exp::App(Box::new(v), Box::new(rest))) == max_nat(2, max_code(rest)));
        assert(nest(v) == 0);
        assert(nest(Exp::App(Box::new(v), Box::new(rest))) == max_nat(nest(v), nest(rest)));
    }
}

proof fn lemma_spine_count<T>(n: nat, f: T, x: T)
    ensures
        spine_count(spine_over(n, f, Exp::Var(Ident(x, 1)))) == Some(n),
    decreases n,
{
    if n > 0 {
        lemma_spine_count((n - 1) as nat, f, x);
    }
}

proof fn lemma_add_k_count<T>(n: nat, m: T, f: T, x: T)
    ensures
        add_k_count(
            spine_over(
                n,
                f,
                Exp::App(
                    Box::new(
                        Exp::App(Box::new(Exp::Var(Ident(m, 3))), Box::new(Exp::Var(Ident(f, 2)))),
                    ),
                    Box::new(Exp::Var(Ident(x, 1))),
                ),
            ),
        ) == Some(n),
    decreases n,
{
    if n > 0 {
        lemma_add_k_count((n - 1) as nat, m, f, x);
    }
}

proof fn lemma_spine_normal<T>(n: nat, f: T, x: T)
    ensures
        step(spine_over(n, f, Exp::Var(Ident(x, 1))), false, true) is None,
    decreases n,
{
    if n > 0 {
        lemma_spine_normal((n - 1) as nat, f, x);
        let e = spine_over(n, f, Exp::Var(Ident(x, 1)));
        assert(!add1_applies(e));
        assert(step(Exp::<T>::Var(Ident(f, 2)), false, true) is None);
    } else {
        assert(step(Exp::<T>::Var(Ident(x, 1)), false, true) is None);
    }
}

/// A numeral is a normal form, and its value is read back.
proof fn lemma_numeral<T>(n: nat, f: T, x: T)
    requires
        n <= u64::MAX,
    ensures
        church_value(numeral(n, f, x)) == Some(n),
        step(numeral(n, f, x), false, true) is None,
        fits(numeral(n, f, x)),
        max_code(numeral(n, f, x)) <= 2,
        nest(numeral(n, f, x)) == 2,
{
    lemma_spine_count(n, f, x);
    lemma_spine_normal(n, f, x);
    lemma_spine(n, f, Exp::Var(Ident(x, 1)));
    let body = spine_over(n, f, Exp::Var(Ident(x, 1)));
    let inner = Exp::Abs(Ident(x, 0), Box::new(body));
    assert(step(inner, false, true) is None);
    assert(max_code(inner) == max_code(body));
    assert(nest(inner) == 1 + nest(body));
    assert(max_code(numeral(n, f, x)) == max_code(inner));
    assert(nest(numeral(n, f, x)) == 1 + nest(inner));
}

proof fn lemma_purified_measures<T>(e: Exp<T>)
    ensures
        max_code(purified(e)) == max_code(e),
        nest(purified(e)) == nest(e),
    decreases e,
{
    match e {
        Exp::Var(_) => {},
        Exp::Abs(_, b) => lemma_purified_measures(*b),
        Exp::App(a, b) => {
            lemma_purified_measures(*a);
            lemma_purified_measures(*b);
        },
    }
}

proof fn lemma_combinators()
    ensures
        max_code(add_term()) == 4,
        nest(add_term()) == 4,
        max_code(mul_term()) == 4,
        nest(mul_term()) == 4,
        add_term() != mul_term(),
{
    reveal_with_fuel(max_code, 8);
    reveal_with_fuel(nest, 8);
}

/// With the fast paths, simplifying `add a b` for numerals `a` and `b`
/// reaches the numeral for their sum, labelled like `b`.
pub proof fn fast_add_is_sum<T>(add: Exp<T>, n: nat, m: nat, f: T, x: T, g: T, y: T, fuel: nat)
    requires
        purified(add) == add_term(),
        n + m <= u64::MAX,
        fuel >= 3,
    ensures
        run(
            Exp::App(
                Box::new(Exp::App(Box::new(add), Box::new(numeral(n, f, x)))),
                Box::new(numeral(m, g, y)),
            ),
            false,
            true,
            fuel,
        ) == (numeral(n + m, g, y), Ok::<(), Error>(())),
{
    let a = numeral(n, f, x);
    let b = numeral(m, g, y);
    let add_a = Exp::App(Box::new(add), Box::new(a));
    let e0 = Exp::App(Box::new(add_a), Box::new(b));
    lemma_numeral(n, f, x);
    lemma_numeral(m, g, y);
    lemma_numeral(n + m, g, y);
    lemma_combinators();
    lemma_purified_measures(add);
    assert(max_code(add_a) == max_nat(max_code(add), max_code(a)));
    assert(nest(add_a) == max_nat(nest(add), nest(a)));
    assert(max_code(e0) == max_nat(max_code(add_a), max_code(b)));
    assert(nest(e0) == max_nat(nest(add_a), nest(b)));
    assert(fits(e0));
    assert(add1_applies(add_a));
    let k = add1_result(add_a);
    assert(step(add_a, false, true) == Some(k));
    assert(step(e0, false, true) == Some(Exp::App(Box::new(k), Box::new(b))));
    let mm = match add {
        Exp::Abs(_, b1) => match *b1 {
            Exp::Abs(i, _) => i.0,
            _ => arbitrary(),
        },
        _ => arbitrary(),
    };
    let base = Exp::App(
        Box::new(Exp::App(Box::new(Exp::Var(Ident(mm, 3))), Box::new(Exp::Var(Ident(f, 2))))),
        Box::new(Exp::Var(Ident(x, 1))),
    );
    lemma_add_k_count(n, mm, f, x);
    lemma_spine(n, f, base);
    let e1 = Exp::App(Box::new(k), Box::new(b));
    let sp = spine_over(n, f, base);
    let k2 = Exp::Abs(Ident(x, 0), Box::new(sp));
    let k1 = Exp::Abs(Ident(f, 0), Box::new(k2));
    assert(k == Exp::Abs(Ident(mm, 0), Box::new(k1)));
    assert(max_code(base) <= 3) by {
        reveal_with_fuel(max_code, 3);
    }
    assert(nest(base) == 0) by {
        reveal_with_fuel(nest, 3);
    }
    assert(max_code(k2) == max_code(sp));
    assert(max_code(k1) == max_code(k2));
    assert(max_code(k) == max_code(k1));
    assert(nest(k2) == 1 + nest(sp));
    assert(nest(k1) == 1 + nest(k2));
    assert(nest(k) == 1 + nest(k1));
    assert(max_code(e1) == max_nat(max_code(k), max_code(b)));
    assert(nest(e1) == max_nat(nest(k), nest(b)));
    assert(add_k_value(k) == Some(n));
    assert(purified(spine_over(n, f, base)) is App);
    reveal_with_fuel(purified, 4);
    assert(purified(k) != add_term());
    assert(!add1_applies(e1));
    assert(add2_applies(e1));
    assert(fits(e1));
    assert(step(e1, false, true) == Some(numeral(n + m, g, y)));
    assert(run(numeral(n + m, g, y), false, true, (fuel - 2) as nat) == (
    numeral(n + m, g, y), Ok::<(), Error>(())));
    assert(run(e1, false, true, (fuel - 1) as nat) == run(
        numeral(n + m, g, y),
        false,
        true,
        (fuel - 2) as nat,
    ));
    assert(run(e0, false, true, fuel) == run(e1, false, true, (fuel - 1) as nat));
}

/// With the fast paths, simplifying `mul a b` for numerals `a` and `b`
/// reaches the numeral for their product, labelled like `a`.
pub proof fn fast_mul_is_product<T>(mul: Exp<T>, n: nat, m: nat, f: T, x: T, g: T, y: T, fuel: nat)
    requires
        purified(mul) == mul_term(),
        n * m <= u64::MAX,
        n <= u64::MAX,
        m <= u64::MAX,
        fuel >= 2,
    ensures
        run(
            Exp::App(
                Box::new(Exp::App(Box::new(mul), Box::new(numeral(n, f, x)))),
                Box::new(numeral(m, g, y)),
            ),
            false,
            true,
            fuel,
        ) == (numeral(n * m, f, x), Ok::<(), Error>(())),
{
    let a = numeral(n, f, x);
    let b = numeral(m, g, y);
    let mul_a = Exp::App(Box::new(mul), Box::new(a));
    let e0 = Exp::App(Box::new(mul_a), Box::new(b));
    lemma_numeral(n, f, x);
    lemma_numeral(m, g, y);
    lemma_numeral(n * m, f, x);
    lemma_combinators();
    lemma_purified_measures(mul);
    assert(max_code(mul_a) == max_nat(max_code(mul), max_code(a)));
    assert(nest(mul_a) == max_nat(nest(mul), nest(a)));
    assert(max_code(e0) == max_nat(max_code(mul_a), max_code(b)));
    assert(nest(e0) == max_nat(nest(mul_a), nest(b)));
    assert(fits(e0));
    assert(!add1_applies(e0));
    assert(!add2_applies(e0));
    assert(mul_applies(e0));
    assert(step(e0, false, true) == Some(numeral(n * m, f, x)));
    assert(run(numeral(n * m, f, x), false, true, (fuel - 1) as nat) == (
    numeral(n * m, f, x), Ok::<(), Error>(())));
}

} // verus!
