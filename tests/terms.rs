use lamcalc::builder::{abs, app, unbounded_var};
use lamcalc::view::{InnerExp, JsExp};
use lamcalc::{Error, Exp, ProfileData};

fn v(name: &str) -> Exp<String> {
    unbounded_var(String::from(name))
}

fn l(name: &str, body: Exp<String>) -> Exp<String> {
    abs(String::from(name), body)
}

fn a(items: Vec<Exp<String>>) -> Exp<String> {
    app(items)
}

#[test]
fn test_builder() {
    let and = abs(
        String::from("x"),
        abs(
            String::from("y"),
            app(vec![
                unbounded_var(String::from("x")),
                unbounded_var(String::from("y")),
                unbounded_var(String::from("x")),
            ]),
        ),
    );
    let var = |name: &str, code: u32| Exp::Var(lamcalc::Ident(String::from(name), code));
    let written = Exp::Abs(
        lamcalc::Ident(String::from("x"), 0),
        Box::new(Exp::Abs(
            lamcalc::Ident(String::from("y"), 0),
            Box::new(Exp::App(
                Box::new(Exp::App(Box::new(var("x", 2)), Box::new(var("y", 1)))),
                Box::new(var("x", 2)),
            )),
        )),
    );
    assert_eq!(and, written);
}

#[test]
fn test_clone() {
    let mut tt = l("x", l("y", v("x"))).purify();
    let mut ff = tt.clone();
    ff.into_abs_mut().unwrap().1.into_abs_mut().unwrap().1.into_ident_mut().unwrap().1 = 1;
    assert_eq!(tt.into_abs_mut().unwrap().1.into_abs_mut().unwrap().1.into_ident().unwrap().1, 2);
    println!("tt = {}, ff = {}", tt.to_pure_text(), ff.to_pure_text());
}

fn y_comb() -> Exp<String> {
    l(
        "f",
        a(vec![
            l("x", a(vec![v("f"), a(vec![v("x"), v("x")])])),
            l("x", a(vec![v("f"), a(vec![v("x"), v("x")])])),
        ]),
    )
}

#[test]
fn test_macros() {
    let l_true = l("x", l("y", v("x")));
    let l_false = l("x", l("y", v("y")));
    let y = y_comb();
    assert_eq!(y.to_text(), "λf. (λx. f (x x)) λx. f (x x)");
    assert_eq!(
        y.to_indexed_text(),
        "λf. (λx. f<2> (x<1> x<1>)) λx. f<2> (x<1> x<1>)"
    );
    println!("{}\n{}\n{}\n", l_true.to_text(), l_false.to_text(), y.to_text());
    let test_app = l("x", l("y", l("z", a(vec![v("x"), v("y"), v("z")]))));
    let test_app2 = l(
        "x",
        l("y", l("z", a(vec![a(vec![v("x"), a(vec![v("y"), v("z")])]), a(vec![v("x"), v("z")])]))),
    );
    println!("{}\n{}", test_app.to_text(), test_app2.to_text());
}

#[test]
fn test_eval() {
    let tt = l("x", l("y", v("x")));
    let and = l("x", l("y", a(vec![v("x"), v("y"), v("x")])));
    let mut res = a(vec![and.clone(), tt.clone(), tt.clone()]);
    println!("res = {}", res.to_text());
    while res.eval_normal_order(false, false) {
        println!("res = {}", res.to_text());
    }
    assert_eq!(res.to_text(), "λx. λy. x");
}

#[test]
fn test_nat() -> Result<(), Error> {
    let zero = l("s", l("z", v("z")));
    let suc = l("n", l("s", l("z", a(vec![v("s"), a(vec![v("n"), v("s"), v("z")])]))));
    let mut plus = l("n", l("m", a(vec![v("n"), suc.clone(), v("m")])));
    plus.simplify(false)?;
    let mut nats = vec![zero.clone()];
    for i in 1..10 {
        let x = nats.last().unwrap();
        let mut sx = a(vec![suc.clone(), x.clone()]);
        sx.simplify(false)?;
        println!("{} = {}", i, sx.purify().to_pure_text());
        nats.push(sx);
    }
    let mut test = a(vec![plus.clone(), nats[4].clone(), nats[3].clone()]);
    test.simplify(false)?;
    println!("test = {}", test.to_indexed_text());
    assert_eq!(test.to_text(), nats[7].to_text());
    Ok(())
}

#[test]
fn subst() {
    let tt = l("x", l("y", v("x")));
    let and = l("x", l("y", a(vec![v("x"), v("y"), v("x")])));
    let mut e = and;
    e.subst_de(0, &tt);
    assert_eq!(
        e.to_indexed_text(),
        "λx. λy. ((λx. λy. x<2>) y<1>) λx. λy. x<2>"
    );

    let mut exp = l("z", l("x", a(vec![l("y", a(vec![v("x"), v("y")])), v("z")])));
    {
        let x = exp.into_abs_mut().unwrap().1.into_abs_mut().unwrap().1;
        if let Exp::App(func, body) = x {
            func.subst_de(0, body);
            func.shift_outer_captured_var(-1);
            let reduced = func.into_abs().unwrap().1.clone();
            *x = reduced;
        }
    }
    assert_eq!(exp.purify().to_pure_text(), "λλ[1](2)");
}

#[test]
fn test_eta_reduce() {
    let mut exp = l("x", l("y", a(vec![v("f"), v("x"), v("y")])));
    assert!(exp.into_abs_mut().unwrap().1.eta_reduce());
    assert!(exp.eta_reduce());
    assert_eq!(exp, v("f"));
    let mut exp2 = l("x", a(vec![v("x"), v("x")]));
    assert!(!exp2.eta_reduce());
}

#[test]
fn test_subst_unbounded() -> Result<(), Error> {
    let mut exp = l("x", l("y", a(vec![v("f"), v("x"), v("y")])));
    exp.subst_unbounded(&String::from("f"), &l("x", l("y", v("z"))));
    exp.simplify(false)?;
    assert_eq!(exp, l("x", l("y", v("z"))));
    Ok(())
}

#[test]
fn test_de_bruijn() {
    let pair = l("x", l("y", l("f", a(vec![v("f"), v("x"), v("y")]))));
    assert_eq!(pair.purify().to_pure_text(), "λλλ[[1](3)](2)");
}

#[test]
fn test_beta_reduce() {
    let mut exp = a(vec![l("x", l("y", v("x"))), v("z")]);
    assert!(exp.is_beta_redex());
    assert!(exp.beta_reduce());
    assert_eq!(exp, l("y", v("z")));
}

#[test]
fn test_church() {
    assert!(
        l("f", l("x", a(vec![v("f"), a(vec![v("f"), a(vec![v("f"), v("x")])])])))
            .purify()
            .try_into_church_num()
            .unwrap()
            .0
            == 3
    );
    assert!(l("f", l("x", a(vec![v("f"), a(vec![v("f"), a(vec![v("x"), v("x")])])])))
        .purify()
        .try_into_church_num()
        .is_none());
    assert!(Exp::from_church_num(10, (), ()).try_into_church_num().unwrap().0 == 10);

    let add = l(
        "n",
        l("m", l("f", l("x", a(vec![v("n"), v("f"), a(vec![v("m"), v("f"), v("x")])])))),
    );
    for i in 0..5 {
        let mut e = a(vec![add.clone(), Exp::from_church_num(i, "f".into(), "x".into())]);
        e.simplify(true).unwrap();
        println!("{}", e.to_text());
    }
}

fn add_term() -> Exp<String> {
    l(
        "n",
        l("m", l("f", l("x", a(vec![v("n"), v("f"), a(vec![v("m"), v("f"), v("x")])])))),
    )
}

fn mul_term() -> Exp<String> {
    l("n", l("m", l("f", l("x", a(vec![v("n"), a(vec![v("m"), v("f")]), v("x")])))))
}

#[test]
fn test_add_opt() {
    let x = Exp::from_church_num(10, "f", "x").to_string_exp();
    let y = Exp::from_church_num(15, "f", "x").to_string_exp();
    let mut e = a(vec![add_term(), x, y]);
    println!("{}", e.to_text());
    while e.eval_normal_order(false, true) {
        println!("{}", e.to_text());
    }
    assert_eq!(e.try_into_church_num().unwrap().0, 25)
}

#[test]
fn bench_pred() -> Result<(), Error> {
    let suc = l("n", l("f", l("x", a(vec![v("f"), a(vec![v("n"), v("f"), v("x")])]))));
    let prev = l(
        "n",
        l(
            "f",
            l(
                "x",
                a(vec![
                    v("n"),
                    l("g", l("h", a(vec![v("h"), a(vec![v("g"), v("f")])]))),
                    l("u", v("x")),
                    l("u", v("u")),
                ]),
            ),
        ),
    );
    let mut nats = vec![l("f", l("x", v("x")))];
    for i in 1..101 {
        let mut sx = a(vec![suc.clone(), nats[i - 1].clone()]);
        sx.simplify(false)?;
        nats.push(sx);
        let mut p = a(vec![prev.clone(), nats[i].clone()]);
        p.simplify(false)?;
        assert_eq!(p.to_text(), nats[i - 1].to_text());
    }
    let mut data = ProfileData { beta_reduce_counter: 0, eta_reduce_counter: 0, eval_fn_counter: 0 };
    data.reset_counter();
    let mut exp = a(vec![prev.clone(), nats[100].clone()]);
    loop {
        data.inc_eval_fn_counter();
        let was_beta = exp.is_beta_redex();
        let was_eta = exp.is_eta_redex();
        if !exp.eval_normal_order(true, false) {
            break;
        }
        if was_beta {
            data.inc_beta_counter();
        } else if was_eta {
            data.inc_eta_counter();
        }
    }
    println!(
        "beta_reduce = {}, eta_reduce = {}, eval = {} exp = {}",
        data.beta_reduce_counter,
        data.eta_reduce_counter,
        data.eval_fn_counter,
        exp.purify().to_pure_text()
    );
    Ok(())
}

#[test]
fn test_jsexp() {
    let exp = l("x", a(vec![v("x"), l("x", v("x")), l("y", a(vec![v("x"), l("y", v("y")), v("y")]))]));
    let jsexp = JsExp::from_exp(&exp);
    let top = match &jsexp.inner {
        InnerExp::Abs(x) => x,
        _ => panic!("not abs"),
    };
    let id = top.alpha_id;
    let app1 = match &top.body.inner {
        InnerExp::App(x) => x,
        _ => panic!("not app"),
    };
    let app2 = match &app1.func.inner {
        InnerExp::App(x) => x,
        _ => panic!("not app"),
    };
    match &app2.func.inner {
        InnerExp::Var(x) => assert_eq!(id, x.alpha_id),
        _ => panic!("not var"),
    }
    let inner_y = match &app1.body.inner {
        InnerExp::Abs(x) => x,
        _ => panic!("not abs"),
    };
    let app3 = match &inner_y.body.inner {
        InnerExp::App(x) => x,
        _ => panic!("not app"),
    };
    let app4 = match &app3.func.inner {
        InnerExp::App(x) => x,
        _ => panic!("not app"),
    };
    match &app4.func.inner {
        InnerExp::Var(x) => assert_eq!(id, x.alpha_id),
        _ => panic!("not var"),
    }
    let inner_x = match &app2.body.inner {
        InnerExp::Abs(x) => x,
        _ => panic!("not abs"),
    };
    match &inner_x.body.inner {
        InnerExp::Var(x) => assert_eq!(inner_x.alpha_id, x.alpha_id),
        _ => panic!("not var"),
    }
}

#[test]
fn test_display() {
    let e = Exp::Abs(
        lamcalc::Ident(String::from("x"), 0),
        Box::new(Exp::App(
            Box::new(Exp::Var(lamcalc::Ident(String::from("y"), 0))),
            Box::new(Exp::Var(lamcalc::Ident(String::from("x"), 2))),
        )),
    );
    println!("{}", e.to_text());
    assert_eq!(e.to_text(), "λx. y x");
    assert_eq!(e.to_indexed_text(), "λx. y<0> x<2>");
}
