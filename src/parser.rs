//! Parse lambda terms from text: `\x. x y` or `λx. x y`, definitions
//! `name = term`, and documents of definitions, one per line, with `//`
//! comments. Identifiers may hold any characters but blanks, line breaks
//! and the symbols `\ λ . ( ) = /`.
//!
//! ```text
//! exp     = abs | app
//! abs     = lambda ident blank? "." blank? exp
//! app     = bounded (blank? (bounded | abs))*
//! bounded = ident | "(" blank? exp blank? ")"
//! def     = ident blank? "=" blank? exp
//! file    = line ("\n" line)*
//! line    = blank? (def blank?)? comment?
//! ```
use vstd::prelude::*;
use vstd::string::{StrSliceExecFns, StringExecFns};

use crate::builder::{abs, bound, unbounded_var};
use crate::display::push_digits;
use crate::error::Error;
use crate::eval::size;
use crate::exp::{nest, Exp, Ident};
use crate::laws::{closed_at, lemma_closed_mono};

verus! {

/// A token of the source text.
#[derive(Debug)]
pub enum Token {
    /// Dot symbol `.`
    DotSym,
    /// Left parenthesis `(`
    LPar,
    /// Right parenthesis `)`
    RPar,
    /// Equal symbol `=`
    Eq,
    /// Line feed `\n`
    LineFeed,
    /// Lambda symbol `\` or `λ`
    LamSym(String),
    /// A run of blanks
    Blank(String),
    /// Variable identifier
    Ident(String),
    /// Comment, from `//` to the end of the line
    Comment(String),
}

/// The source text a token stands for.
pub open spec fn tok_text(t: Token) -> Seq<char> {
    match t {
        Token::DotSym => seq!['.'],
        Token::LPar => seq!['('],
        Token::RPar => seq![')'],
        Token::Eq => seq!['='],
        Token::LineFeed => seq!['\n'],
        Token::LamSym(s) => s@,
        Token::Blank(s) => s@,
        Token::Ident(s) => s@,
        Token::Comment(s) => s@,
    }
}

/// The source text a sequence of tokens stands for.
pub open spec fn toks_text(ts: Seq<Token>) -> Seq<char>
    decreases ts.len(),
{
    if ts.len() == 0 {
        Seq::empty()
    } else {
        toks_text(ts.drop_last()) + tok_text(ts.last())
    }
}

/// The text of tokens with one more token.
pub proof fn lemma_toks_push(ts: Seq<Token>, t: Token)
    ensures
        toks_text(ts.push(t)) == toks_text(ts) + tok_text(t),
{
    assert(ts.push(t).drop_last() =~= ts);
}

/// The text of two token sequences one after the other.
pub proof fn lemma_toks_concat(a: Seq<Token>, b: Seq<Token>)
    ensures
        toks_text(a + b) == toks_text(a) + toks_text(b),
    decreases b.len(),
{
    if b.len() == 0 {
        assert(a + b =~= a);
        assert(toks_text(b) =~= Seq::<char>::empty());
        assert(toks_text(a) + toks_text(b) =~= toks_text(a));
    } else {
        lemma_toks_concat(a, b.drop_last());
        assert((a + b).drop_last() =~= a + b.drop_last());
        assert((a + b).last() == b.last());
        assert(toks_text(a + b) =~= toks_text(a) + toks_text(b));
    }
}

/// A blank: space or tab.
pub open spec fn is_blank(c: char) -> bool {
    c == ' ' || c == '\t'
}

/// A lambda symbol: backslash or `λ`.
pub open spec fn is_lam(c: char) -> bool {
    c == '\\' || c == 'λ'
}

/// A character that may stand in an identifier.
pub open spec fn is_ident_char(c: char) -> bool {
    !(c == ' ' || c == '\t' || c == '\n' || c == '\r' || c == '\\' || c == 'λ' || c == '.' || c
        == '(' || c == ')' || c == '=' || c == '/')
}

fn blank_char(c: char) -> (r: bool)
    ensures
        r == is_blank(c),
{
    c == ' ' || c == '\t'
}

fn lam_char(c: char) -> (r: bool)
    ensures
        r == is_lam(c),
{
    c == '\\' || c == 'λ'
}

fn ident_char(c: char) -> (r: bool)
    ensures
        r == is_ident_char(c),
{
    !(c == ' ' || c == '\t' || c == '\n' || c == '\r' || c == '\\' || c == 'λ' || c == '.' || c
        == '(' || c == ')' || c == '=' || c == '/')
}

/// The end of the run of blanks that starts at `p`.
pub open spec fn blank_run(cs: Seq<char>, p: int) -> int
    decreases cs.len() - p,
{
    if 0 <= p < cs.len() && is_blank(cs[p]) {
        blank_run(cs, p + 1)
    } else {
        p
    }
}

/// The end of the run of identifier characters that starts at `p`.
pub open spec fn ident_run(cs: Seq<char>, p: int) -> int
    decreases cs.len() - p,
{
    if 0 <= p < cs.len() && is_ident_char(cs[p]) {
        ident_run(cs, p + 1)
    } else {
        p
    }
}

/// A run ends at or after its start, within the text.
pub proof fn lemma_runs(cs: Seq<char>, p: int)
    requires
        0 <= p <= cs.len(),
    ensures
        p <= blank_run(cs, p) <= cs.len(),
        blank_run(cs, p) == cs.len() || !is_blank(cs[blank_run(cs, p)]),
        p <= ident_run(cs, p) <= cs.len(),
    decreases cs.len() - p,
{
    if p < cs.len() {
        lemma_runs(cs, p + 1);
    }
}

/// `e` with every free variable labelled `name` that is not shadowed bound
/// to the binder `k` levels above it; labels are character sequences.
pub open spec fn seq_bound(e: Exp<Seq<char>>, name: Seq<char>, k: nat) -> Exp<Seq<char>>
    decreases e,
{
    match e {
        Exp::Var(id) => if id.0 == name {
            Exp::Var(Ident(id.0, k as u32))
        } else {
            e
        },
        Exp::Abs(id, b) => if id.0 != name {
            Exp::Abs(id, Box::new(seq_bound(*b, name, k + 1)))
        } else {
            e
        },
        Exp::App(f, a) => Exp::App(
            Box::new(seq_bound(*f, name, k)),
            Box::new(seq_bound(*a, name, k)),
        ),
    }
}

/// `e` with each label replaced by its characters.
pub open spec fn viewed(e: Exp<String>) -> Exp<Seq<char>>
    decreases e,
{
    match e {
        Exp::Var(id) => Exp::Var(Ident(id.0@, id.1)),
        Exp::Abs(id, b) => Exp::Abs(Ident(id.0@, id.1), Box::new(viewed(*b))),
        Exp::App(f, a) => Exp::App(Box::new(viewed(*f)), Box::new(viewed(*a))),
    }
}

/// Labels as characters keep the size of a term.
pub proof fn lemma_viewed_size(e: Exp<String>)
    ensures
        size(viewed(e)) == size(e),
    decreases e,
{
    match e {
        Exp::Var(_) => {},
        Exp::Abs(_, b) => lemma_viewed_size(*b),
        Exp::App(f, a) => {
            lemma_viewed_size(*f);
            lemma_viewed_size(*a);
        },
    }
}

proof fn lemma_viewed_bound(e: Exp<String>, name: Seq<char>, k: nat)
    ensures
        viewed(bound(e, name, k)) == seq_bound(viewed(e), name, k),
    decreases e,
{
    match e {
        Exp::Var(_) => {},
        Exp::Abs(_, b) => lemma_viewed_bound(*b, name, k + 1),
        Exp::App(f, a) => {
            lemma_viewed_bound(*f, name, k);
            lemma_viewed_bound(*a, name, k);
        },
    }
}

/// The term of the grammar that starts at `p`, and where it ends, if there
/// is one.
pub open spec fn exp_parse(cs: Seq<char>, p: int) -> Option<(Exp<Seq<char>>, int)>
    decreases cs.len() - p, 3int, 0int,
{
    if p < 0 || p > cs.len() {
        None
    } else if p < cs.len() && is_lam(cs[p]) {
        abs_parse(cs, p)
    } else {
        app_parse(cs, p)
    }
}

/// The abstraction that starts at `p`, and where it ends: its body extends
/// as far as a term does.
pub open spec fn abs_parse(cs: Seq<char>, p: int) -> Option<(Exp<Seq<char>>, int)>
    decreases cs.len() - p, 1int, 0int,
{
    if p < 0 || p >= cs.len() {
        None
    } else {
        let i = ident_run(cs, p + 1);
        let b = blank_run(cs, i);
        if i == p + 1 || b >= cs.len() || b < 0 || cs[b] != '.' {
            None
        } else {
            let q = blank_run(cs, b + 1);
            if p < q <= cs.len() {
                match exp_parse(cs, q) {
                    Some((body, e)) => {
                        let name = cs.subrange(p + 1, i);
                        Some((Exp::Abs(Ident(name, 0), Box::new(seq_bound(body, name, 1))), e))
                    },
                    None => None,
                }
            } else {
                None
            }
        }
    }
}

/// The identifier or parenthesized term that starts at `p`, and where it
/// ends.
pub open spec fn bounded_parse(cs: Seq<char>, p: int) -> Option<(Exp<Seq<char>>, int)>
    decreases cs.len() - p, 1int, 0int,
{
    if p < 0 || p >= cs.len() {
        None
    } else if is_ident_char(cs[p]) {
        let i = ident_run(cs, p);
        Some((Exp::Var(Ident(cs.subrange(p, i), 0)), i))
    } else if cs[p] == '(' {
        let b = blank_run(cs, p + 1);
        if p < b <= cs.len() {
            match exp_parse(cs, b) {
                Some((t, e)) => {
                    let b2 = blank_run(cs, e);
                    if 0 <= b2 < cs.len() && cs[b2] == ')' {
                        Some((t, b2 + 1))
                    } else {
                        None
                    }
                },
                None => None,
            }
        } else {
            None
        }
    } else {
        None
    }
}

/// The application that starts at `p`, and where it ends.
pub open spec fn app_parse(cs: Seq<char>, p: int) -> Option<(Exp<Seq<char>>, int)>
    decreases cs.len() - p, 2int, cs.len() - p + 1,
{
    if p < 0 || p > cs.len() {
        None
    } else {
        match bounded_parse(cs, p) {
            Some((t, q)) => if p < q <= cs.len() {
                Some(app_more(cs, p, t, q))
            } else {
                None
            },
            None => None,
        }
    }
}

/// The application that starts at `p0` and has reached `q` with the
/// left-nested application `acc`: it takes one more argument, after
/// blanks, wherever one follows.
pub open spec fn app_more(cs: Seq<char>, p0: int, acc: Exp<Seq<char>>, q: int) -> (
    Exp<Seq<char>>,
    int,
)
    decreases cs.len() - p0, 2int, cs.len() - q,
{
    if !(p0 < q <= cs.len()) {
        (acc, q)
    } else {
        let b = blank_run(cs, q);
        if b < q || b >= cs.len() || b < 0 {
            (acc, q)
        } else {
            let c = cs[b];
            let item = if is_lam(c) {
                abs_parse(cs, b)
            } else if is_ident_char(c) || c == '(' {
                bounded_parse(cs, b)
            } else {
                None
            };
            match item {
                Some((t, e)) => if q < e <= cs.len() {
                    app_more(cs, p0, Exp::App(Box::new(acc), Box::new(t)), e)
                } else {
                    (acc, q)
                },
                None => (acc, q),
            }
        }
    }
}

/// The definition `name = term` that starts at `p`: its name, its term,
/// and where it ends.
pub open spec fn def_parse(cs: Seq<char>, p: int) -> Option<(Seq<char>, Exp<Seq<char>>, int)> {
    let i = ident_run(cs, p);
    let b = blank_run(cs, i);
    if i == p || b >= cs.len() || b < 0 || cs[b] != '=' {
        None
    } else {
        match exp_parse(cs, blank_run(cs, b + 1)) {
            Some((t, e)) => Some((cs.subrange(p, i), t, e)),
            None => None,
        }
    }
}

/// The first line break at or after `p`, or the end.
pub open spec fn comment_end(cs: Seq<char>, p: int) -> int
    decreases cs.len() - p,
{
    if 0 <= p < cs.len() && cs[p] != '\n' {
        comment_end(cs, p + 1)
    } else {
        p
    }
}

/// Where the line that starts at `p` stops, before its line break: after
/// blanks, an optional definition and blanks, and an optional comment.
pub open spec fn line_stop(cs: Seq<char>, p: int) -> Option<int> {
    let b = blank_run(cs, p);
    let d = if 0 <= b < cs.len() && is_ident_char(cs[b]) {
        match def_parse(cs, b) {
            Some((_, _, e)) => Some(blank_run(cs, e)),
            None => None,
        }
    } else {
        Some(b)
    };
    match d {
        None => None,
        Some(q) => Some(
            if 0 <= q && q + 1 < cs.len() && cs[q] == '/' && cs[q + 1] == '/' {
                comment_end(cs, q + 2)
            } else {
                q
            },
        ),
    }
}

/// The lines from `p` on form a document of definitions.
pub open spec fn file_from(cs: Seq<char>, p: int) -> bool
    decreases cs.len() - p,
{
    match line_stop(cs, p) {
        None => false,
        Some(q) => if q >= cs.len() {
            true
        } else if 0 <= q && cs[q] == '\n' && p < q + 1 <= cs.len() {
            file_from(cs, q + 1)
        } else {
            false
        },
    }
}

/// The text being parsed, with its characters at hand.
pub struct LambdaParser<'a> {
    text: &'a str,
    chars: Vec<char>,
}

/// A term parsed from the characters `start..end`, with its tokens.
pub open spec fn parsed_span(
    chars: Seq<char>,
    start: int,
    e: Exp<String>,
    end: usize,
    ts: Seq<Token>,
) -> bool {
    &&& start < end <= chars.len()
    &&& toks_text(ts) == chars.subrange(start, end as int)
    &&& closed_at(e, 0)
    &&& nest(e) <= end - start
}

impl<'a> LambdaParser<'a> {
    /// The characters are those of the text, fewer than `u32::MAX`.
    pub closed spec fn wf(&self) -> bool {
        self.chars@ == self.text@ && self.chars@.len() < u32::MAX
    }

    /// The text being parsed.
    pub closed spec fn source(&self) -> Seq<char> {
        self.text@
    }

    /// A parser over `text`, where it is shorter than `u32::MAX` characters.
    pub fn new(text: &'a str) -> (r: Option<Self>)
        ensures
            match r {
                Some(p) => p.wf() && p.source() == text@,
                None => text@.len() >= u32::MAX,
            },
    {
        let n = text.unicode_len();
        if n >= u32::MAX as usize {
            return None;
        }
        let mut chars: Vec<char> = Vec::new();
        let mut i: usize = 0;
        while i < n
            invariant
                i <= n,
                n == text@.len(),
                chars@ == text@.subrange(0, i as int),
            decreases n - i,
        {
            chars.push(text.get_char(i));
            i = i + 1;
            assert(chars@ =~= text@.subrange(0, i as int));
        }
        assert(chars@ =~= text@);
        Some(LambdaParser { text, chars })
    }

    fn slice(&self, a: usize, b: usize) -> (r: String)
        requires
            self.wf(),
            a <= b <= self.chars@.len(),
        ensures
            r@ == self.chars@.subrange(a as int, b as int),
    {
        String::from_str(self.text.substring_char(a, b))
    }

    fn blank_end(&self, pos: usize) -> (r: usize)
        requires
            pos <= self.chars@.len(),
        ensures
            pos <= r <= self.chars@.len(),
            r == self.chars@.len() || !is_blank(self.chars@[r as int]),
            r == blank_run(self.chars@, pos as int),
    {
        let mut p = pos;
        while p < self.chars.len() && blank_char(self.chars[p])
            invariant
                pos <= p <= self.chars@.len(),
                blank_run(self.chars@, pos as int) == blank_run(self.chars@, p as int),
            decreases self.chars@.len() - p,
        {
            p = p + 1;
        }
        p
    }

    fn ident_end(&self, pos: usize) -> (r: usize)
        requires
            pos <= self.chars@.len(),
        ensures
            pos <= r <= self.chars@.len(),
            r == ident_run(self.chars@, pos as int),
    {
        let mut p = pos;
        while p < self.chars.len() && ident_char(self.chars[p])
            invariant
                pos <= p <= self.chars@.len(),
                ident_run(self.chars@, pos as int) == ident_run(self.chars@, p as int),
            decreases self.chars@.len() - p,
        {
            p = p + 1;
        }
        p
    }

    /// Pushes the blank `a..b`, if it is not empty.
    fn take_blank(&self, toks: &mut Vec<Token>, a: usize, b: usize)
        requires
            self.wf(),
            a <= b <= self.chars@.len(),
        ensures
            toks_text(final(toks)@) == toks_text(old(toks)@) + self.chars@.subrange(
                a as int,
                b as int,
            ),
            final(toks)@.len() >= old(toks)@.len(),
            forall|k: int| 0 <= k < old(toks)@.len() ==> final(toks)@[k] == old(toks)@[k],
    {
        if b > a {
            let s = self.slice(a, b);
            proof {
                lemma_toks_push(toks@, Token::Blank(s));
            }
            toks.push(Token::Blank(s));
        } else {
            assert(self.chars@.subrange(a as int, b as int) =~= Seq::<char>::empty());
            assert(toks_text(toks@) + Seq::<char>::empty() =~= toks_text(toks@));
        }
    }
}

proof fn lemma_bound_closed(e: Exp<String>, name: Seq<char>, d: nat)
    requires
        closed_at(e, d),
    ensures
        closed_at(bound(e, name, d + 1), d + 1),
        nest(bound(e, name, d + 1)) == nest(e),
    decreases e,
{
    match e {
        Exp::Var(_) => {},
        Exp::Abs(id, b) => {
            if id.0@ != name {
                lemma_bound_closed(*b, name, d + 1);
            } else {
                lemma_closed_mono(e, d, d + 1);
            }
        },
        Exp::App(f, a) => {
            lemma_bound_closed(*f, name, d);
            lemma_bound_closed(*a, name, d);
        },
    }
}

proof fn lemma_sub_join(s: Seq<char>, a: int, b: int, c: int)
    requires
        0 <= a <= b <= c <= s.len(),
    ensures
        s.subrange(a, b) + s.subrange(b, c) == s.subrange(a, c),
{
    assert(s.subrange(a, b) + s.subrange(b, c) =~= s.subrange(a, c));
}

impl<'a> LambdaParser<'a> {
    fn parse_exp_at(&self, pos: usize) -> (r: Option<(Exp<String>, usize, Vec<Token>)>)
        requires
            self.wf(),
            pos <= self.chars@.len(),
        ensures
            match r {
                Some((e, end, ts)) => parsed_span(self.chars@, pos as int, e, end, ts@) && exp_parse(
                    self.chars@,
                    pos as int,
                ) == Some((viewed(e), end as int)),
                None => exp_parse(self.chars@, pos as int) is None,
            },
        decreases self.chars@.len() - pos, 3nat,
    {
        if pos < self.chars.len() && lam_char(self.chars[pos]) {
            self.parse_abs(pos)
        } else {
            self.parse_app(pos)
        }
    }

    fn parse_abs(&self, pos: usize) -> (r: Option<(Exp<String>, usize, Vec<Token>)>)
        requires
            self.wf(),
            pos < self.chars@.len(),
        ensures
            match r {
                Some((e, end, ts)) => parsed_span(self.chars@, pos as int, e, end, ts@) && abs_parse(
                    self.chars@,
                    pos as int,
                ) == Some((viewed(e), end as int)),
                None => abs_parse(self.chars@, pos as int) is None,
            },
        decreases self.chars@.len() - pos, 1nat,
    {
        let ghost cs = self.chars@;
        let mut toks: Vec<Token> = Vec::new();
        let sym = self.slice(pos, pos + 1);
        proof {
            lemma_toks_push(toks@, Token::LamSym(sym));
            assert(toks_text(toks@) =~= Seq::<char>::empty());
        }
        toks.push(Token::LamSym(sym));
        let name_at = pos + 1;
        let e1 = self.ident_end(name_at);
        if e1 == name_at {
            return None;
        }
        let name = self.slice(name_at, e1);
        let name2 = name.clone();
        proof {
            lemma_toks_push(toks@, Token::Ident(name2));
            lemma_sub_join(cs, pos as int, name_at as int, e1 as int);
        }
        toks.push(Token::Ident(name2));
        let b1 = self.blank_end(e1);
        self.take_blank(&mut toks, e1, b1);
        proof {
            lemma_sub_join(cs, pos as int, e1 as int, b1 as int);
        }
        if b1 >= self.chars.len() || self.chars[b1] != '.' {
            return None;
        }
        proof {
            lemma_toks_push(toks@, Token::DotSym);
            lemma_sub_join(cs, pos as int, b1 as int, b1 + 1);
            assert(cs.subrange(b1 as int, b1 + 1) =~= seq!['.']);
        }
        toks.push(Token::DotSym);
        let body_at = b1 + 1;
        let b2 = self.blank_end(body_at);
        self.take_blank(&mut toks, body_at, b2);
        proof {
            lemma_sub_join(cs, pos as int, body_at as int, b2 as int);
        }
        match self.parse_exp_at(b2) {
            Some((body, end, ts)) => {
                let mut ts = ts;
                proof {
                    lemma_toks_concat(toks@, ts@);
                    lemma_sub_join(cs, pos as int, b2 as int, end as int);
                    lemma_bound_closed(body, name@, 0);
                    lemma_viewed_bound(body, name@, 1);
                }
                toks.append(&mut ts);
                let e = abs(name, body);
                Some((e, end, toks))
            },
            None => None,
        }
    }

    fn parse_bounded(&self, pos: usize) -> (r: Option<(Exp<String>, usize, Vec<Token>)>)
        requires
            self.wf(),
            pos <= self.chars@.len(),
        ensures
            match r {
                Some((e, end, ts)) => parsed_span(self.chars@, pos as int, e, end, ts@) && bounded_parse(
                    self.chars@,
                    pos as int,
                ) == Some((viewed(e), end as int)),
                None => bounded_parse(self.chars@, pos as int) is None,
            },
        decreases self.chars@.len() - pos, 1nat,
    {
        let ghost cs = self.chars@;
        if pos >= self.chars.len() {
            return None;
        }
        let c = self.chars[pos];
        if ident_char(c) {
            proof {
                lemma_runs(cs, pos as int + 1);
            }
            let end = self.ident_end(pos);
            let name = self.slice(pos, end);
            let name2 = name.clone();
            let mut toks: Vec<Token> = Vec::new();
            proof {
                lemma_toks_push(toks@, Token::Ident(name2));
                assert(toks_text(toks@) =~= Seq::<char>::empty());
                assert(Seq::<char>::empty() + name2@ =~= name2@);
            }
            toks.push(Token::Ident(name2));
            if end == pos {
                return None;
            }
            return Some((unbounded_var(name), end, toks));
        }
        if c != '(' {
            return None;
        }
        let mut toks: Vec<Token> = Vec::new();
        proof {
            lemma_toks_push(toks@, Token::LPar);
            assert(toks_text(toks@) =~= Seq::<char>::empty());
            assert(cs.subrange(pos as int, pos + 1) =~= seq!['(']);
            assert(Seq::<char>::empty() + seq!['('] =~= seq!['(']);
        }
        toks.push(Token::LPar);
        let name_at = pos + 1;
        let b1 = self.blank_end(name_at);
        self.take_blank(&mut toks, name_at, b1);
        proof {
            lemma_sub_join(cs, pos as int, name_at as int, b1 as int);
        }
        match self.parse_exp_at(b1) {
            Some((inner, end, ts)) => {
                let mut ts = ts;
                proof {
                    lemma_toks_concat(toks@, ts@);
                    lemma_sub_join(cs, pos as int, b1 as int, end as int);
                }
                toks.append(&mut ts);
                let b2 = self.blank_end(end);
                self.take_blank(&mut toks, end, b2);
                proof {
                    lemma_sub_join(cs, pos as int, end as int, b2 as int);
                }
                if b2 >= self.chars.len() || self.chars[b2] != ')' {
                    return None;
                }
                proof {
                    lemma_toks_push(toks@, Token::RPar);
                    lemma_sub_join(cs, pos as int, b2 as int, b2 + 1);
                    assert(cs.subrange(b2 as int, b2 + 1) =~= seq![')']);
                }
                toks.push(Token::RPar);
                Some((inner, b2 + 1, toks))
            },
            None => None,
        }
    }

    fn parse_app(&self, pos: usize) -> (r: Option<(Exp<String>, usize, Vec<Token>)>)
        requires
            self.wf(),
            pos <= self.chars@.len(),
        ensures
            match r {
                Some((e, end, ts)) => parsed_span(self.chars@, pos as int, e, end, ts@) && app_parse(
                    self.chars@,
                    pos as int,
                ) == Some((viewed(e), end as int)),
                None => app_parse(self.chars@, pos as int) is None,
            },
        decreases self.chars@.len() - pos, 2nat,
    {
        let ghost cs = self.chars@;
        let (first, start, ts0) = match self.parse_bounded(pos) {
            Some(x) => x,
            None => return None,
        };
        let mut acc = first;
        let mut p = start;
        let mut toks = ts0;
        loop
            invariant
                self.wf(),
                cs == self.chars@,
                parsed_span(cs, pos as int, acc, p, toks@),
                app_parse(cs, pos as int) == Some(app_more(cs, pos as int, viewed(acc), p as int)),
            ensures
                app_parse(cs, pos as int) == Some((viewed(acc), p as int)),
            decreases self.chars@.len() - p,
        {
            let b = self.blank_end(p);
            if b >= self.chars.len() {
                assert(app_more(cs, pos as int, viewed(acc), p as int) == (viewed(acc), p as int));
                break;
            }
            let c = self.chars[b];
            let item = if lam_char(c) {
                self.parse_abs(b)
            } else if ident_char(c) || c == '(' {
                self.parse_bounded(b)
            } else {
                None
            };
            match item {
                Some((e, end, ts)) => {
                    let mut ts = ts;
                    self.take_blank(&mut toks, p, b);
                    proof {
                        lemma_sub_join(cs, pos as int, p as int, b as int);
                        lemma_toks_concat(toks@, ts@);
                        lemma_sub_join(cs, pos as int, b as int, end as int);
                    }
                    toks.append(&mut ts);
                    let ghost before = viewed(acc);
                    acc = Exp::App(Box::new(acc), Box::new(e));
                    assert(viewed(acc) == Exp::App(Box::new(before), Box::new(viewed(e))));
                    assert(app_more(cs, pos as int, before, p as int) == app_more(
                        cs,
                        pos as int,
                        viewed(acc),
                        end as int,
                    ));
                    p = end;
                },
                None => {
                    assert(app_more(cs, pos as int, viewed(acc), p as int) == (viewed(acc), p as int));
                    break;
                },
            }
        }
        Some((acc, p, toks))
    }
}

/// The definitions `defs`, with labels as characters.
pub open spec fn defs_view(defs: Seq<(String, Exp<String>)>) -> Seq<(Seq<char>, Exp<Seq<char>>)> {
    defs.map_values(|d: (String, Exp<String>)| (d.0@, viewed(d.1)))
}

/// `m` with `name` defined as `t`: an earlier definition of the name is
/// replaced where it stands, or the new one goes at the end.
pub open spec fn define_spec(
    m: Seq<(Seq<char>, Exp<Seq<char>>)>,
    name: Seq<char>,
    t: Exp<Seq<char>>,
) -> Seq<(Seq<char>, Exp<Seq<char>>)> {
    if exists|k: int| 0 <= k < m.len() && m[k].0 == name {
        let k = choose|k: int| 0 <= k < m.len() && m[k].0 == name;
        m.update(k, (name, t))
    } else {
        m.push((name, t))
    }
}

/// `m` with each definition of `list` set, from the last one back.
pub open spec fn define_all(
    m: Seq<(Seq<char>, Exp<Seq<char>>)>,
    list: Seq<(Seq<char>, Exp<Seq<char>>)>,
) -> Seq<(Seq<char>, Exp<Seq<char>>)>
    decreases list.len(),
{
    if list.len() == 0 {
        m
    } else {
        define_all(define_spec(m, list.last().0, list.last().1), list.drop_last())
    }
}

/// The definition on the line that starts at `p`, if it has one.
pub open spec fn line_def(cs: Seq<char>, p: int) -> Option<(Seq<char>, Exp<Seq<char>>)> {
    let b = blank_run(cs, p);
    if 0 <= b < cs.len() && is_ident_char(cs[b]) {
        match def_parse(cs, b) {
            Some((n, t, _)) => Some((n, t)),
            None => None,
        }
    } else {
        None
    }
}

/// The definitions `acc`, then those of the lines from `p` on, in order.
pub open spec fn file_defs(cs: Seq<char>, p: int, acc: Seq<(Seq<char>, Exp<Seq<char>>)>) -> Seq<
    (Seq<char>, Exp<Seq<char>>),
>
    decreases cs.len() - p,
{
    match line_stop(cs, p) {
        None => acc,
        Some(q) => {
            let acc2 = match line_def(cs, p) {
                Some((n, t)) => define_spec(acc, n, t),
                None => acc,
            };
            if 0 <= q < cs.len() && cs[q] == '\n' && p < q + 1 <= cs.len() {
                file_defs(cs, q + 1, acc2)
            } else {
                acc2
            }
        },
    }
}

/// Names in `defs` are pairwise different.
pub open spec fn names_unique(defs: Seq<(String, Exp<String>)>) -> bool {
    forall|i: int, j: int| 0 <= i < j < defs.len() ==> defs[i].0@ != defs[j].0@
}

/// Sets the definition of `name` to `e`: replaces an earlier one, or adds it.
pub fn define(defs: &mut Vec<(String, Exp<String>)>, name: String, e: Exp<String>)
    requires
        names_unique(old(defs)@),
    ensures
        names_unique(final(defs)@),
        exists|k: int|
            0 <= k < final(defs)@.len() && #[trigger] final(defs)@[k].0@ == name@
                && final(defs)@[k].1 == e,
        forall|k: int|
            0 <= k < old(defs)@.len() && old(defs)@[k].0@ != name@ ==> exists|j: int|
                0 <= j < final(defs)@.len() && #[trigger] final(defs)@[j] == old(defs)@[k],
        defs_view(final(defs)@) == define_spec(defs_view(old(defs)@), name@, viewed(e)),
{
    let mut i: usize = 0;
    while i < defs.len()
        invariant
            i <= defs@.len(),
            defs@ == old(defs)@,
            names_unique(defs@),
            forall|k: int| 0 <= k < i ==> defs@[k].0@ != name@,
        decreases defs@.len() - i,
    {
        if defs[i].0 == name {
            let ghost before = defs@;
            let ghost m = defs_view(before);
            let ghost nv = name@;
            let ghost tv = viewed(e);
            defs.set(i, (name, e));
            assert(forall|k: int| 0 <= k < defs@.len() && k != i ==> defs@[k] == before[k]);
            assert(defs@[i as int].0@ == before[i as int].0@);
            proof {
                assert(m[i as int].0 == nv);
                let k = choose|k: int| 0 <= k < m.len() && m[k].0 == nv;
                assert(k == i) by {
                    if k != i {
                        assert(before[k].0@ == before[i as int].0@);
                    }
                }
                assert(defs_view(defs@) =~= m.update(i as int, (nv, tv)));
            }
            return;
        }
        i = i + 1;
    }
    let ghost before = defs@;
    let ghost nv = name@;
    let ghost tv = viewed(e);
    defs.push((name, e));
    assert(defs@[before.len() as int].0@ == nv);
    assert(forall|k: int| 0 <= k < before.len() ==> defs@[k] == before[k]);
    proof {
        let m = defs_view(before);
        assert(!(exists|k: int| 0 <= k < m.len() && m[k].0 == nv)) by {
            assert forall|k: int| 0 <= k < m.len() implies m[k].0 != nv by {
                assert(before[k].0@ != nv);
            }
        }
        assert(defs_view(defs@) =~= m.push((nv, tv)));
    }
}

fn error_at(pos: usize) -> (r: Error)
    requires
        pos < u32::MAX,
    ensures
        r is ParseError,
{
    let mut msg = String::from_str("unexpected input at character ");
    push_digits(&mut msg, pos as u64);
    Error::ParseError(msg)
}

impl<'a> LambdaParser<'a> {
    fn parse_def_at(&self, pos: usize) -> (r: Option<(String, Exp<String>, usize, Vec<Token>)>)
        requires
            self.wf(),
            pos <= self.chars@.len(),
        ensures
            match r {
                Some((name, e, end, ts)) => parsed_span(self.chars@, pos as int, e, end, ts@)
                    && ts@.len() > 0 && ts@[0] == Token::Ident(name) && def_parse(
                    self.chars@,
                    pos as int,
                ) == Some((name@, viewed(e), end as int)),
                None => def_parse(self.chars@, pos as int) is None,
            },
    {
        let ghost cs = self.chars@;
        let end0 = self.ident_end(pos);
        if end0 == pos {
            return None;
        }
        let name = self.slice(pos, end0);
        let name2 = name.clone();
        let mut toks: Vec<Token> = Vec::new();
        proof {
            lemma_toks_push(toks@, Token::Ident(name2));
            assert(toks_text(toks@) =~= Seq::<char>::empty());
            assert(Seq::<char>::empty() + name2@ =~= name2@);
        }
        toks.push(Token::Ident(name2));
        let b1 = self.blank_end(end0);
        self.take_blank(&mut toks, end0, b1);
        proof {
            lemma_sub_join(cs, pos as int, end0 as int, b1 as int);
        }
        if b1 >= self.chars.len() || self.chars[b1] != '=' {
            return None;
        }
        proof {
            lemma_toks_push(toks@, Token::Eq);
            lemma_sub_join(cs, pos as int, b1 as int, b1 + 1);
            assert(cs.subrange(b1 as int, b1 + 1) =~= seq!['=']);
        }
        toks.push(Token::Eq);
        let body_at = b1 + 1;
        let b2 = self.blank_end(body_at);
        self.take_blank(&mut toks, body_at, b2);
        proof {
            lemma_sub_join(cs, pos as int, body_at as int, b2 as int);
        }
        match self.parse_exp_at(b2) {
            Some((e, end, ts)) => {
                let mut ts = ts;
                let ghost t0 = toks@;
                proof {
                    lemma_toks_concat(toks@, ts@);
                    lemma_sub_join(cs, pos as int, b2 as int, end as int);
                }
                toks.append(&mut ts);
                assert(toks@[0] == t0[0]);
                assert(nest(e) <= end - pos);
                Some((name, e, end, toks))
            },
            None => None,
        }
    }
}

/// Parses a lambda term, e.g. `\f. (\x. f (x x)) \x. f (x x)`, and
/// returns it with its tokens. The whole text must be one term.
pub fn parse_exp(lambda: &str) -> (r: Result<(Exp<String>, Vec<Token>), Error>)
    ensures
        r matches Ok((e, ts)) ==> toks_text(ts@) == lambda@ && closed_at(e, 0),
        r matches Err(err) ==> err is ParseError,
        r is Ok <==> lambda@.len() < u32::MAX && (exp_parse(lambda@, 0) matches Some((_, end))
            && end == lambda@.len()),
        r matches Ok((e, _)) ==> exp_parse(lambda@, 0) == Some((viewed(e), lambda@.len() as int)),
{
    let p = match LambdaParser::new(lambda) {
        Some(p) => p,
        None => return Err(Error::ParseError(String::from_str("input too long"))),
    };
    match p.parse_exp_at(0) {
        Some((e, end, ts)) => {
            if end == p.chars.len() {
                assert(p.chars@.subrange(0, end as int) =~= p.chars@);
                Ok((e, ts))
            } else {
                Err(error_at(end))
            }
        },
        None => Err(error_at(0)),
    }
}

/// Parses one definition, e.g. `Y = \f. (\x. f (x x)) \x. f (x x)`, and
/// returns its name, its term and its tokens.
pub fn parse_def(lambda: &str) -> (r: Result<(String, Exp<String>, Vec<Token>), Error>)
    ensures
        r matches Ok((name, e, ts)) ==> toks_text(ts@) == lambda@ && closed_at(e, 0) && ts@.len()
            > 0 && ts@[0] == Token::Ident(name),
        r matches Err(err) ==> err is ParseError,
        r is Ok <==> lambda@.len() < u32::MAX && (def_parse(lambda@, 0) matches Some((_, _, end))
            && end == lambda@.len()),
        r matches Ok((name, e, _)) ==> def_parse(lambda@, 0) == Some(
            (name@, viewed(e), lambda@.len() as int),
        ),
{
    let p = match LambdaParser::new(lambda) {
        Some(p) => p,
        None => return Err(Error::ParseError(String::from_str("input too long"))),
    };
    match p.parse_def_at(0) {
        Some((name, e, end, ts)) => {
            if end == p.chars.len() {
                assert(p.chars@.subrange(0, end as int) =~= p.chars@);
                Ok((name, e, ts))
            } else {
                Err(error_at(end))
            }
        },
        None => Err(error_at(0)),
    }
}

impl<'a> LambdaParser<'a> {
    /// Reads the line that starts at `pos` up to its line break, adding
    /// its definition, if any, to `defs`.
    fn parse_line(&self, pos: usize, defs: &mut Vec<(String, Exp<String>)>, toks: &mut Vec<Token>) -> (r:
        Option<usize>)
        requires
            self.wf(),
            pos <= self.chars@.len(),
            names_unique(old(defs)@),
        ensures
            names_unique(final(defs)@),
            match r {
                Some(q) => line_stop(self.chars@, pos as int) == Some(q as int) && pos <= q
                    <= self.chars@.len() && toks_text(final(toks)@) == toks_text(old(toks)@)
                    + self.chars@.subrange(pos as int, q as int) && defs_view(final(defs)@) == (
                match line_def(self.chars@, pos as int) {
                    Some((n, t)) => define_spec(defs_view(old(defs)@), n, t),
                    None => defs_view(old(defs)@),
                }),
                None => line_stop(self.chars@, pos as int) is None,
            },
    {
        let ghost cs = self.chars@;
        let ghost t0 = toks@;
        let n = self.chars.len();
        let b = self.blank_end(pos);
        self.take_blank(toks, pos, b);
        let mut q = b;
        if b < n && ident_char(self.chars[b]) {
            match self.parse_def_at(b) {
                Some((name, e, end, ts)) => {
                    let mut ts = ts;
                    proof {
                        lemma_toks_concat(toks@, ts@);
                        lemma_sub_join(cs, pos as int, b as int, end as int);
                    }
                    toks.append(&mut ts);
                    define(defs, name, e);
                    let b2 = self.blank_end(end);
                    self.take_blank(toks, end, b2);
                    proof {
                        lemma_sub_join(cs, pos as int, end as int, b2 as int);
                    }
                    q = b2;
                },
                None => return None,
            }
        }
        if q + 1 < n && self.chars[q] == '/' && self.chars[q + 1] == '/' {
            let mut c = q + 2;
            while c < n && self.chars[c] != '\n'
                invariant
                    q + 2 <= c <= n,
                    n == self.chars@.len(),
                    comment_end(self.chars@, q + 2) == comment_end(self.chars@, c as int),
                decreases n - c,
            {
                c = c + 1;
            }
            let text = self.slice(q, c);
            proof {
                lemma_toks_push(toks@, Token::Comment(text));
                lemma_sub_join(cs, pos as int, q as int, c as int);
            }
            toks.push(Token::Comment(text));
            q = c;
        }
        Some(q)
    }
}

/// Parses a document of definitions, one per line, each line optionally
/// ending in a `//` comment. Returns the definitions, a later one of a name
/// replacing an earlier one, and the tokens of the whole text.
pub fn parse_file(lambda: &str) -> (r: Result<(Vec<(String, Exp<String>)>, Vec<Token>), Error>)
    ensures
        r matches Ok((defs, ts)) ==> toks_text(ts@) == lambda@ && names_unique(defs@),
        r matches Ok((defs, _)) ==> defs_view(defs@) == file_defs(lambda@, 0, Seq::empty()),
        r matches Err(err) ==> err is ParseError,
        r is Ok <==> lambda@.len() < u32::MAX && file_from(lambda@, 0),
{
    let p = match LambdaParser::new(lambda) {
        Some(p) => p,
        None => return Err(Error::ParseError(String::from_str("input too long"))),
    };
    let ghost cs = p.chars@;
    let n = p.chars.len();
    let mut defs: Vec<(String, Exp<String>)> = Vec::new();
    let mut toks: Vec<Token> = Vec::new();
    let mut pos: usize = 0;
    assert(toks_text(toks@) =~= cs.subrange(0, 0));
    assert(defs_view(defs@) =~= Seq::empty());
    loop
        invariant
            p.wf(),
            cs == p.chars@,
            cs == lambda@,
            n == cs.len(),
            n < u32::MAX,
            pos <= n,
            toks_text(toks@) == cs.subrange(0, pos as int),
            names_unique(defs@),
            file_from(cs, 0) == file_from(cs, pos as int),
            file_defs(cs, 0, Seq::empty()) == file_defs(cs, pos as int, defs_view(defs@)),
        decreases n - pos,
    {
        let q = match p.parse_line(pos, &mut defs, &mut toks) {
            Some(q) => q,
            None => return Err(error_at(pos)),
        };
        proof {
            lemma_sub_join(cs, 0, pos as int, q as int);
        }
        if q >= n {
            assert(cs.subrange(0, q as int) =~= cs);
            return Ok((defs, toks));
        }
        if p.chars[q] != '\n' {
            return Err(error_at(q));
        }
        proof {
            lemma_toks_push(toks@, Token::LineFeed);
            lemma_sub_join(cs, 0, q as int, q + 1);
            assert(cs.subrange(q as int, q + 1) =~= seq!['\n']);
        }
        toks.push(Token::LineFeed);
        pos = q + 1;
    }
}

} // verus!
