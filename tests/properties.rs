use lamcalc::builder::{abs, app, unbounded_var};
use lamcalc::parser::parse_exp;
use lamcalc::view::{InnerExp, JsExp};
use lamcalc::{Error, Exp, Ident};

fn v(name: &str) -> Exp<String> {
    unbounded_var(String::from(name))
}

fn l(name: &str, body: Exp<String>) -> Exp<String> {
    abs(String::from(name), body)
}

fn a(items: Vec<Exp<String>>) -> Exp<String> {
    app(items)
}

fn add_term() -> Exp<String> {
    l("n", l("m", l("f", l("x", a(vec![v("n"), v("f"), a(vec![v("m"), v("f"), v("x")])])))))
}

fn mul_term() -> Exp<String> {
    l("n", l("m", l("f", l("x", a(vec![v("n"), a(vec![v("m"), v("f")]), v("x")])))))
}

fn num(n: u64) -> Exp<String> {
    Exp::from_church_num(n, String::from("f"), String::from("x"))
}

#[test]
fn omega_exhausts_the_limit() {
    let w = l("x", a(vec![v("x"), v("x")]));
    let mut omega = a(vec![w.clone(), w.clone()]);
    assert!(matches!(omega.simplify(false), Err(Error::SimplifyLimitExceeded)));
    let mut omega2 = a(vec![w.clone(), w]);
    assert!(matches!(omega2.simplify_bounded(false, false, 7), Err(Error::SimplifyLimitExceeded)));
    assert_eq!(omega2.purify().to_pure_text(), "[λ[1](1)](λ[1](1))");
}

#[test]
fn fixed_point_combinator_has_no_normal_form() {
    let mut y = l(
        "f",
        a(vec![
            l("x", a(vec![v("f"), a(vec![v("x"), v("x")])])),
            l("x", a(vec![v("f"), a(vec![v("x"), v("x")])])),
        ]),
    );
    let r = y.simplify(false);
    assert!(matches!(r, Err(Error::SimplifyLimitExceeded)));
    assert_eq!(r.unwrap_err().message(), "too many reductions");
}

#[test]
fn successor_twice_is_two() -> Result<(), Error> {
    let zero = l("s", l("z", v("z")));
    let suc = l("n", l("s", l("z", a(vec![v("s"), a(vec![v("n"), v("s"), v("z")])]))));
    let two = l("s", l("z", a(vec![v("s"), a(vec![v("s"), v("z")])])));
    let mut e = a(vec![suc.clone(), a(vec![suc, zero])]);
    e.simplify(false)?;
    let mut t = two;
    t.simplify(false)?;
    assert_eq!(e.purify(), t.purify());
    Ok(())
}

#[test]
fn and_of_true_and_false_is_false() -> Result<(), Error> {
    let (tt, _) = parse_exp(r"\x. \y. x")?;
    let (ff, _) = parse_exp(r"\x. \y. y")?;
    let and = l("x", l("y", a(vec![v("x"), v("y"), v("x")])));
    let mut e = a(vec![and, tt, ff]);
    e.simplify(false)?;
    assert_eq!(e.purify(), l("x", l("y", v("y"))).purify());
    assert_eq!(e.purify().to_pure_text(), "λλ1");
    Ok(())
}

#[test]
fn arithmetic_fast_paths_agree_with_reduction() -> Result<(), Error> {
    for n in 0..=10u64 {
        for m in 0..=10u64 {
            let mut slow = a(vec![add_term(), num(n), num(m)]);
            slow.simplify(false)?;
            let mut fast = a(vec![add_term(), num(n), num(m)]);
            fast.simplify(true)?;
            assert_eq!(slow.purify(), fast.purify());
            assert_eq!(fast.purify(), num(n + m).purify());
            assert_eq!(fast.try_into_church_num().unwrap().0, n + m);

            let mut slow = a(vec![mul_term(), num(n), num(m)]);
            slow.simplify(false)?;
            let mut fast = a(vec![mul_term(), num(n), num(m)]);
            fast.simplify(true)?;
            assert_eq!(slow.purify(), fast.purify());
            assert_eq!(fast.purify(), num(n * m).purify());
        }
    }
    Ok(())
}

#[test]
fn fast_path_single_steps() {
    let mut e = a(vec![add_term(), num(2)]);
    assert!(e.try_add_opt_1());
    assert_eq!(e.is_add_k(), Some(2));
    assert_eq!(e.to_text(), "λm. λf. λx. f (f ((m f) x))");
    let mut e2 = a(vec![e, num(3)]);
    assert!(e2.try_add_opt_2());
    assert_eq!(e2.try_into_church_num().unwrap().0, 5);
    let mut e3 = a(vec![mul_term(), num(3), num(4)]);
    assert!(e3.try_mul_opt());
    assert_eq!(e3.try_into_church_num().unwrap().0, 12);
    assert!(add_term().is_add());
    assert!(!mul_term().is_add());
    assert!(mul_term().is_mul());
    let mut not_num = a(vec![add_term(), v("y")]);
    assert!(!not_num.try_add_opt_1());
    assert_eq!(not_num.to_text(), "(λn. λm. λf. λx. (n f) ((m f) x)) y");
}

#[test]
fn numeral_round_trip() {
    let n = Exp::from_church_num(7, String::from("s"), String::from("z"));
    assert_eq!(n.to_text(), "λs. λz. s (s (s (s (s (s (s z))))))");
    assert_eq!(n.try_into_church_num(), Some((7, String::from("s"), String::from("z"))));
    assert_eq!(Exp::from_church_num(0, (), ()).to_pure_text(), "λλ1");
}

fn beta_ids(v: &JsExp, out: &mut Vec<usize>) {
    match &v.inner {
        InnerExp::Var(_) => {}
        InnerExp::Abs(x) => beta_ids(&x.body, out),
        InnerExp::App(x) => {
            beta_ids(&x.func, out);
            beta_ids(&x.body, out);
            if let Some(id) = x.beta_redex {
                out.push(id);
            }
        }
    }
}

#[test]
fn reduction_by_id_changes_one_redex() {
    let i = l("x", v("x"));
    let k = l("a", l("b", v("a")));
    // (I y) ((K p) q): three redexes, on either side
    let term = a(vec![a(vec![i.clone(), v("y")]), a(vec![a(vec![k.clone(), v("p")]), v("q")])]);
    let view = JsExp::from_exp(&term);
    let mut ids = Vec::new();
    beta_ids(&view, &mut ids);
    assert_eq!(ids.len(), 2);
    let mut sorted = ids.clone();
    sorted.sort();
    sorted.dedup();
    assert_eq!(sorted.len(), ids.len());

    // the first id reported belongs to (I y), the left argument
    let mut by_id = term.clone();
    let alpha = by_id.beta_reduce_by_id(&view, ids[0]).unwrap();
    let mut manual = term.clone();
    assert!(manual.into_app_mut().unwrap().0.beta_reduce());
    assert_eq!(by_id, manual);
    let binder_alpha = match &view.inner {
        InnerExp::App(x) => match &x.func.inner {
            InnerExp::App(y) => match &y.func.inner {
                InnerExp::Abs(z) => z.alpha_id,
                _ => panic!("not an abstraction"),
            },
            _ => panic!("not an application"),
        },
        _ => panic!("not an application"),
    };
    assert_eq!(alpha, binder_alpha);

    let mut by_id = term.clone();
    by_id.beta_reduce_by_id(&view, ids[1]).unwrap();
    let mut manual = term.clone();
    assert!(manual.into_app_mut().unwrap().1.into_app_mut().unwrap().0.beta_reduce());
    assert_eq!(by_id, manual);

    let mut missing = term.clone();
    assert!(matches!(missing.beta_reduce_by_id(&view, 1000), Err(Error::RedexNotFound)));
    assert_eq!(missing, term);
}

#[test]
fn reduction_by_id_reports_mismatched_views() {
    let term = a(vec![l("x", v("x")), v("y")]);
    let other = JsExp::from_exp(&l("z", v("z")));
    let mut t = term.clone();
    assert!(matches!(t.beta_reduce_by_id(&other, 1), Err(Error::InvalidInnerType)));
    assert!(matches!(t.eta_reduce_by_id(&other, 1), Err(Error::InvalidInnerType)));
    assert_eq!(t, term);
    assert_eq!(Error::InvalidInnerType.message(), "invalid inner type of display expression");
}

#[test]
fn eta_reduction_by_id() {
    let term = l("x", a(vec![v("f"), v("x")]));
    let view = JsExp::from_exp(&term);
    let (eta, alpha) = match &view.inner {
        InnerExp::Abs(x) => (x.eta_redex.unwrap(), x.alpha_id),
        _ => panic!("not an abstraction"),
    };
    let mut t = term.clone();
    assert_eq!(t.eta_reduce_by_id(&view, eta).unwrap(), alpha);
    assert_eq!(t, v("f"));
    let mut u = term.clone();
    assert!(matches!(u.eta_reduce_by_id(&view, eta + 100), Err(Error::RedexNotFound)));
}

#[test]
fn find_free_variable_by_alpha_id() {
    let term = a(vec![v("I"), v("y")]);
    let view = JsExp::from_exp(&term);
    let alpha_y = match &view.inner {
        InnerExp::App(x) => match &x.body.inner {
            InnerExp::Var(w) => w.alpha_id,
            _ => panic!("not a variable"),
        },
        _ => panic!("not an application"),
    };
    let mut t = term.clone();
    let var = t.find_var_by_alpha_id(&view, alpha_y).unwrap();
    *var = l("z", v("z"));
    assert_eq!(t.to_text(), "I λz. z");
    let mut t2 = term.clone();
    assert!(t2.find_var_by_alpha_id(&view, 12345).is_none());
}

#[test]
fn purify_ignores_bound_names() {
    let e1 = l("a", l("b", a(vec![v("a"), v("b")])));
    let e2 = l("x", l("y", a(vec![v("x"), v("y")])));
    assert_ne!(e1, e2);
    assert_eq!(e1.purify(), e2.purify());
    assert_eq!(e1.purify().to_pure_text(), "λλ[2](1)");
}

#[test]
fn beta_reduction_does_not_capture() {
    // (λx. λy. x y x) (λy. x): the free x of the argument stays free
    let f = l("x", l("y", a(vec![v("x"), v("y"), v("x")])));
    let arg = l("y", v("x"));
    let mut e = a(vec![f, arg]);
    assert!(e.beta_reduce());
    assert_eq!(e.to_indexed_text(), "λy. ((λy. x<0>) y<1>) λy. x<0>");
    assert_eq!(e.purify().to_pure_text(), "λ[[λ0](1)](λ0)");
}

#[test]
fn beta_reduction_shifts_outer_references() {
    // λz. (λx. λy. x) z  reduces to  λz. λy. z
    let mut e = l("z", a(vec![l("x", l("y", v("x"))), v("z")]));
    assert!(e.into_abs_mut().unwrap().1.beta_reduce());
    assert_eq!(e.to_indexed_text(), "λz. λy. z<2>");
    assert!(!e.is_beta_redex());
    assert!(!e.beta_reduce());
}

#[test]
fn eta_expansion_round_trip() {
    let f = a(vec![v("g"), v("h")]);
    let mut expanded = l("x", a(vec![f.clone(), v("x")]));
    assert!(expanded.is_eta_redex());
    assert!(expanded.eta_reduce());
    assert_eq!(expanded, f);
    let mut bound = l("x", a(vec![l("y", v("y")), v("x")]));
    assert!(bound.eta_reduce());
    assert_eq!(bound.to_text(), "λy. y");
}

#[test]
fn shift_moves_only_outer_references() {
    let mut e = l("x", a(vec![Exp::Var(Ident(String::from("x"), 1)), Exp::Var(Ident(String::from("z"), 3))]));
    e.shift_outer_captured_var(2);
    assert_eq!(e.to_indexed_text(), "λx. x<1> z<5>");
    e.shift_outer_captured_var(-1);
    assert_eq!(e.to_indexed_text(), "λx. x<1> z<4>");
}

#[test]
fn index_overflow_is_reported() {
    let mut e = l("x", Exp::Var(Ident(String::from("w"), u32::MAX)));
    assert!(!e.index_fits());
    assert!(matches!(e.simplify(false), Err(Error::IndexOverflow)));
    assert_eq!(Error::IndexOverflow.message(), "index out of range");
}

#[test]
fn eval_with_eta_reaches_eta_normal_form() -> Result<(), Error> {
    let mut e = l("x", a(vec![l("y", a(vec![v("f"), v("y")])), v("x")]));
    e.simplify_bounded(true, false, 10)?;
    assert_eq!(e.to_text(), "f");
    Ok(())
}

#[test]
fn free_substitution_replaces_named_free_variables_only() {
    let mut e = l("f", a(vec![v("f"), v("g"), v("f")]));
    let r = e.subst_unbounded(&String::from("f"), &v("k"));
    assert_eq!(r.to_text(), "λf. (f g) f");
    let mut e2 = a(vec![v("f"), l("f", v("f"))]);
    e2.subst_unbounded(&String::from("f"), &v("k"));
    assert_eq!(e2.to_text(), "k λf. f");
}

#[test]
fn for_each_var_sees_depths() {
    let mut e = l("x", a(vec![v("x"), l("y", a(vec![v("y"), v("z")]))]));
    e.for_each_var(|var: &Exp<String>, depth: u32| match var {
        Exp::Var(id) => Exp::Var(Ident(format!("{}{}", id.0, depth), id.1)),
        other => other.clone(),
    });
    assert_eq!(e.to_text(), "λx. x1 λy. y2 z2");
    assert_eq!(e.purify().to_pure_text(), "λ[1](λ[1](0))");
}

#[test]
fn labels_turn_into_strings() {
    let e = Exp::from_church_num(2, "s", "z").to_string_exp();
    assert_eq!(e.to_text(), "λs. λz. s (s z)");
    let p = l("a", v("a")).purify();
    assert_eq!(p.to_string_exp().to_text(), "λ. ");
}

#[test]
fn grammar_edges() {
    assert!(parse_exp("x y").is_ok());
    assert!(parse_exp("x(y)").is_ok());
    assert!(parse_exp("x y ").is_err());
    assert!(parse_exp(" x").is_err());
    assert!(parse_exp("x // c").is_err());
    let (e, _) = parse_exp(r"f \x. x y").unwrap();
    assert_eq!(e.to_text(), "f λx. x y");
    let (e, _) = parse_exp(r"(\x. x) (y z)").unwrap();
    assert_eq!(e.to_text(), "(λx. x) (y z)");
}

#[test]
fn free_variables_get_their_own_alpha_ids() {
    let term = a(vec![v("x"), v("x"), l("y", a(vec![v("y"), v("x")]))]);
    let view = JsExp::from_exp(&term);
    let mut ids = Vec::new();
    fn collect(v: &JsExp, out: &mut Vec<(bool, usize)>) {
        match &v.inner {
            InnerExp::Var(x) => out.push((x.code == 0, x.alpha_id)),
            InnerExp::Abs(x) => {
                out.push((false, x.alpha_id));
                collect(&x.body, out);
            }
            InnerExp::App(x) => {
                collect(&x.func, out);
                collect(&x.body, out);
            }
        }
    }
    collect(&view, &mut ids);
    for (i, (free, id)) in ids.iter().enumerate() {
        if *free {
            for (j, (_, other)) in ids.iter().enumerate() {
                if i != j {
                    assert_ne!(id, other);
                }
            }
        }
    }
}
