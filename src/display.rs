//! Text forms of terms: plain (`λx. x y`), index-annotated (`x<2>`), and
//! purified (`λ[1](2)`).
use vstd::prelude::*;
use vstd::string::StringExecFns;

use crate::exp::Exp;
use crate::label::Label;

verus! {

/// The decimal digit for `d`.
pub open spec fn digit_char(d: nat) -> char {
    if d == 0 {
        '0'
    } else if d == 1 {
        '1'
    } else if d == 2 {
        '2'
    } else if d == 3 {
        '3'
    } else if d == 4 {
        '4'
    } else if d == 5 {
        '5'
    } else if d == 6 {
        '6'
    } else if d == 7 {
        '7'
    } else if d == 8 {
        '8'
    } else {
        '9'
    }
}

/// The decimal digits of `n`.
pub open spec fn digits(n: nat) -> Seq<char>
    decreases n,
{
    if n < 10 {
        seq![digit_char(n)]
    } else {
        digits(n / 10) + seq![digit_char(n % 10)]
    }
}

/// The text of `e`: a binder as `λx. `, an application as `f a` with the
/// function in parentheses unless it is a variable and the argument in
/// parentheses where it is an application. Where `indexed`, each variable
/// is followed by its code in angle brackets.
pub open spec fn shown<T: Label>(e: Exp<T>, indexed: bool) -> Seq<char>
    decreases e,
{
    match e {
        Exp::Var(id) => if indexed {
            id.0.text() + seq!['<'] + digits(id.1 as nat) + seq!['>']
        } else {
            id.0.text()
        },
        Exp::Abs(id, b) => seq!['λ'] + id.0.text() + seq!['.', ' '] + shown(*b, indexed),
        Exp::App(l, r) => (if *l is Var {
            shown(*l, indexed)
        } else {
            seq!['('] + shown(*l, indexed) + seq![')']
        }) + seq![' '] + (if *r is App {
            seq!['('] + shown(*r, indexed) + seq![')']
        } else {
            shown(*r, indexed)
        }),
    }
}

/// The text of a purified term: a variable as its code, a binder as `λ`,
/// an application as `[f](a)`.
pub open spec fn shown_pure(e: Exp<()>) -> Seq<char>
    decreases e,
{
    match e {
        Exp::Var(id) => digits(id.1 as nat),
        Exp::Abs(_, b) => seq!['λ'] + shown_pure(*b),
        Exp::App(l, r) => seq!['['] + shown_pure(*l) + seq![']', '('] + shown_pure(*r) + seq![')'],
    }
}

fn digit_str(d: u64) -> (r: &'static str)
    requires
        d < 10,
    ensures
        r@ == seq![digit_char(d as nat)],
{
    if d == 0 {
        proof {
            reveal_strlit("0");
        }
        "0"
    } else if d == 1 {
        proof {
            reveal_strlit("1");
        }
        "1"
    } else if d == 2 {
        proof {
            reveal_strlit("2");
        }
        "2"
    } else if d == 3 {
        proof {
            reveal_strlit("3");
        }
        "3"
    } else if d == 4 {
        proof {
            reveal_strlit("4");
        }
        "4"
    } else if d == 5 {
        proof {
            reveal_strlit("5");
        }
        "5"
    } else if d == 6 {
        proof {
            reveal_strlit("6");
        }
        "6"
    } else if d == 7 {
        proof {
            reveal_strlit("7");
        }
        "7"
    } else if d == 8 {
        proof {
            reveal_strlit("8");
        }
        "8"
    } else {
        proof {
            reveal_strlit("9");
        }
        "9"
    }
}

/// Appends the decimal digits of `n`.
pub fn push_digits(s: &mut String, n: u64)
    ensures
        final(s)@ == old(s)@ + digits(n as nat),
    decreases n,
{
    if n >= 10 {
        push_digits(s, n / 10);
    }
    s.append(digit_str(n % 10));
}

pub fn push_lit(s: &mut String, lit: &str)
    ensures
        final(s)@ == old(s)@ + lit@,
{
    s.append(lit);
}

impl<T: Label> Exp<T> {
    fn write_text(&self, s: &mut String, indexed: bool)
        ensures
            final(s)@ == old(s)@ + shown(*self, indexed),
        decreases self,
    {
        match self {
            Exp::Var(id) => {
                let name = id.0.label_string();
                s.append(name.as_str());
                if indexed {
                    proof {
                        reveal_strlit("<");
                        reveal_strlit(">");
                    }
                    push_lit(s, "<");
                    push_digits(s, id.1 as u64);
                    push_lit(s, ">");
                }
            },
            Exp::Abs(id, b) => {
                proof {
                    reveal_strlit("λ");
                    reveal_strlit(". ");
                }
                push_lit(s, "λ");
                let name = id.0.label_string();
                s.append(name.as_str());
                push_lit(s, ". ");
                b.write_text(s, indexed);
            },
            Exp::App(l, r) => {
                proof {
                    reveal_strlit("(");
                    reveal_strlit(")");
                    reveal_strlit(" ");
                }
                let lvar = match &**l {
                    Exp::Var(_) => true,
                    _ => false,
                };
                if lvar {
                    l.write_text(s, indexed);
                } else {
                    push_lit(s, "(");
                    l.write_text(s, indexed);
                    push_lit(s, ")");
                }
                push_lit(s, " ");
                let rapp = match &**r {
                    Exp::App(_, _) => true,
                    _ => false,
                };
                if rapp {
                    push_lit(s, "(");
                    r.write_text(s, indexed);
                    push_lit(s, ")");
                } else {
                    r.write_text(s, indexed);
                }
            },
        }
        assert(s@ == old(s)@ + shown(*self, indexed));
    }

    /// The plain text of the term, `λx. x y`.
    pub fn to_text(&self) -> (r: String)
        ensures
            r@ == shown(*self, false),
    {
        let mut s = String::new();
        self.write_text(&mut s, false);
        s
    }

    /// The text of the term with each variable's code, `λx. x<1> y<0>`.
    pub fn to_indexed_text(&self) -> (r: String)
        ensures
            r@ == shown(*self, true),
    {
        let mut s = String::new();
        self.write_text(&mut s, true);
        s
    }
}

impl Exp<()> {
    fn write_pure(&self, s: &mut String)
        ensures
            final(s)@ == old(s)@ + shown_pure(*self),
        decreases self,
    {
        match self {
            Exp::Var(id) => push_digits(s, id.1 as u64),
            Exp::Abs(_, b) => {
                proof {
                    reveal_strlit("λ");
                }
                push_lit(s, "λ");
                b.write_pure(s);
            },
            Exp::App(l, r) => {
                proof {
                    reveal_strlit("[");
                    reveal_strlit("](");
                    reveal_strlit(")");
                }
                push_lit(s, "[");
                l.write_pure(s);
                push_lit(s, "](");
                r.write_pure(s);
                push_lit(s, ")");
            },
        }
        assert(s@ == old(s)@ + shown_pure(*self));
    }

    /// The text of the purified term, `λλ[1](2)`.
    pub fn to_pure_text(&self) -> (r: String)
        ensures
            r@ == shown_pure(*self),
    {
        let mut s = String::new();
        self.write_pure(&mut s);
        s
    }
}

} // verus!
