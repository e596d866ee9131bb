use lamcalc::builder::{abs, app, unbounded_var};
use lamcalc::parser::{parse_def, parse_exp, parse_file, Token};
use lamcalc::session::Calculator;
use lamcalc::{Error, Exp};

fn v(name: &str) -> Exp<String> {
    unbounded_var(String::from(name))
}

fn l(name: &str, body: Exp<String>) -> Exp<String> {
    abs(String::from(name), body)
}

fn a(items: Vec<Exp<String>>) -> Exp<String> {
    app(items)
}

fn tks_str(tks: &[Token]) -> String {
    let mut res = String::new();
    for tk in tks {
        res.push_str(match tk {
            Token::DotSym => ".",
            Token::LPar => "(",
            Token::RPar => ")",
            Token::Eq => "=",
            Token::LineFeed => "\n",
            Token::LamSym(s) | Token::Ident(s) | Token::Comment(s) | Token::Blank(s) => s,
        });
    }
    res
}

#[test]
fn test_parse_exp() -> Result<(), Error> {
    let s = r"\x .  (  x  x  )  (  x  x  )";
    let (exp, tks) = parse_exp(s)?;
    assert_eq!(tks_str(&tks), s);
    let expected = l("x", a(vec![a(vec![v("x"), v("x")]), a(vec![v("x"), v("x")])]));
    assert_eq!(exp.to_text(), expected.to_text());
    assert!(parse_exp(r"( x \x.").is_err());
    Ok(())
}

#[test]
fn test_parse_def() -> Result<(), Error> {
    let s = r"tt    =   \x. \y. x";
    let (name, tt, tks) = parse_def(s)?;
    assert_eq!(name, "tt");
    assert_eq!(tks_str(&tks), s);
    assert_eq!(tt.to_text(), l("x", l("y", v("x"))).to_text());
    assert!(parse_def(" = x.x").is_err());
    Ok(())
}

fn y_comb() -> Exp<String> {
    l(
        "f",
        a(vec![
            l("x", a(vec![v("f"), a(vec![v("x"), v("x")])])),
            l("x", a(vec![v("f"), a(vec![v("x"), v("x")])])),
        ]),
    )
}

#[test]
fn test_parse_file() -> Result<(), Error> {
    let lambda = r#"
            // test parse_desf

            // Y combinator
            Y = \f. (\x. f (x x) ) (\x. f (x x) )    
            tt = \x. \y. x   // true
            // false
            ff = \x. \y. y// false
        "#;
    let (res, tks) = parse_file(lambda)?;
    let y = res.iter().find(|(n, _)| n == "Y").map(|(_, e)| e).unwrap();
    assert_eq!(y.to_text(), y_comb().to_text());
    assert_eq!(tks_str(&tks), lambda);
    assert!(parse_file(" = x.x").is_err());
    Ok(())
}

#[test]
fn test_cjk() -> Result<(), Error> {
    let s = r"(\x. \y. x 即 是 y y 即 是 x) 色 空";
    let (mut exp, tks) = parse_exp(s)?;
    assert_eq!(tks_str(&tks), s);
    assert_eq!(exp.to_text(), "((λx. λy. ((((((x 即) 是) y) y) 即) 是) x) 色) 空");
    println!("{}", exp.to_indexed_text());
    exp.eval_normal_order(false, false);
    println!("{}", exp.to_indexed_text());
    exp.simplify(false)?;
    assert_eq!(exp.to_text(), "((((((色 即) 是) 空) 空) 即) 是) 色");
    Ok(())
}

#[test]
fn test_calculator() -> Result<(), String> {
    let mut calc = Calculator::new();
    calc.init("I y")?;
    calc.add_defs(
        r"
            I = \x. x
            K = \x. \y. x
        ",
    )?;
    Ok(())
}

#[test]
fn parse_errors_are_parse_errors() {
    assert!(matches!(parse_exp("x )"), Err(Error::ParseError(_))));
    assert!(matches!(parse_exp(""), Err(Error::ParseError(_))));
    assert!(matches!(parse_exp(r"\. x"), Err(Error::ParseError(_))));
    assert!(matches!(parse_def("x y"), Err(Error::ParseError(_))));
    let e = parse_exp("x )").unwrap_err();
    assert_eq!(e.message(), "error parsing: unexpected input at character 1");
}

#[test]
fn parse_lambda_symbol_and_shadowing() -> Result<(), Error> {
    let (e, _) = parse_exp("λx. λx. x y")?;
    assert_eq!(e.to_indexed_text(), "λx. λx. x<1> y<0>");
    assert_eq!(e.purify().to_pure_text(), "λλ[1](0)");
    Ok(())
}

#[test]
fn parse_file_last_definition_wins() -> Result<(), Error> {
    let (defs, _) = parse_file("a = x\nb = y\na = z")?;
    assert_eq!(defs.len(), 2);
    let a_def = defs.iter().find(|(n, _)| n == "a").map(|(_, e)| e).unwrap();
    assert_eq!(a_def.to_text(), "z");
    Ok(())
}

#[test]
fn calculator_reduces_by_id() -> Result<(), String> {
    let mut calc = Calculator::new();
    calc.init("(\\x. x) y")?;
    let id = {
        let step = &calc.steps()[0];
        match &step.display_exp.inner {
            lamcalc::view::InnerExp::App(app) => app.beta_redex.unwrap(),
            _ => panic!("not an application"),
        }
    };
    calc.beta_reduce(0, id as u32)?;
    assert_eq!(calc.steps().len(), 2);
    assert_eq!(calc.steps()[1].id, "y");
    assert!(matches!(
        calc.steps()[0].last_action,
        Some(lamcalc::session::Mutation::BetaReduce { redex, .. }) if redex == id
    ));
    assert_eq!(calc.steps()[0].id, "(λx. x) y");
    let err = calc.beta_reduce(0, 999).unwrap_err();
    assert_eq!(err, "reduction error: redex not found");
    assert_eq!(calc.steps().len(), 2);
    assert_eq!(calc.beta_reduce(5, 1).unwrap_err(), "invalid step 5");
    Ok(())
}

#[test]
fn calculator_replaces_definition() -> Result<(), String> {
    let mut calc = Calculator::new();
    calc.init("I y")?;
    calc.add_defs("I = \\x. x")?;
    let alpha = {
        let step = &calc.steps()[0];
        match &step.display_exp.inner {
            lamcalc::view::InnerExp::App(app) => match &app.func.inner {
                lamcalc::view::InnerExp::Var(var) => var.alpha_id,
                _ => panic!("not a variable"),
            },
            _ => panic!("not an application"),
        }
    };
    calc.replace_def_alpha(0, "I", alpha as u32)?;
    assert_eq!(calc.steps()[1].id, "(λx. x) y");
    assert_eq!(
        calc.replace_def_alpha(0, "K", alpha as u32).unwrap_err(),
        "expression not found name = K"
    );
    let e = calc.replace_def_alpha(0, "I", 999).unwrap_err();
    assert_eq!(e, "reduction error: free variable \"I\" not found, alpha_id = 999");
    Ok(())
}

#[test]
fn calculator_init_holds_the_parsed_term() -> Result<(), String> {
    let mut calc = Calculator::new();
    calc.init(r"(\x. x) y")?;
    let (expected, _) = parse_exp(r"(\x. x) y").unwrap();
    assert_eq!(calc.steps().len(), 1);
    assert_eq!(calc.steps()[0].raw_exp, expected);
    assert!(calc.steps()[0].last_action.is_none());
    assert!(calc.init("x )").is_err());
    assert_eq!(calc.steps()[0].raw_exp, expected);
    Ok(())
}

#[test]
fn calculator_eta_reduces() -> Result<(), String> {
    let mut calc = Calculator::new();
    calc.init("\\x. f x")?;
    let id = match &calc.steps()[0].display_exp.inner {
        lamcalc::view::InnerExp::Abs(abs) => abs.eta_redex.unwrap(),
        _ => panic!("not an abstraction"),
    };
    calc.eta_reduce(0, id as u32)?;
    assert_eq!(calc.steps()[1].id, "f");
    assert!(calc.init("(").is_err());
    Ok(())
}
