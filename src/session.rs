//! An interactive session: a linear history of terms, each with its view,
//! in which a caller reduces one redex or replaces one free variable by a
//! named definition at a time.
use vstd::prelude::*;
use vstd::string::StringExecFns;

use crate::display::{push_digits, push_lit, shown};
use crate::error::{error_text, Error};
use crate::eval::size;
use crate::exp::{fits, Exp};
use crate::parser::{
    define, define_all, defs_view, exp_parse, file_defs, file_from, names_unique, parse_exp,
    parse_file, viewed, lemma_viewed_size,
};
use crate::view::{
    alpha_bound, alphas, beta_by_id, binders_unique, ids, decorated, eta_by_id, free_unique, mirrors, replace_at, sub_at,
    unique, var_path, JsExp,
};

verus! {

/// What led from a step of the history to the next.
#[derive(Debug)]
pub enum Mutation {
    /// The beta redex `redex` was reduced; its binder had the alpha id `alpha`.
    BetaReduce { redex: usize, alpha: usize },
    /// The eta redex `redex` was reduced; its binder had the alpha id `alpha`.
    EtaReduce { redex: usize, alpha: usize },
    /// The free variable with the alpha id `alpha` was replaced by the
    /// definition of `name`.
    SubstAlpha { alpha: usize, name: String },
}

/// One term of the history, with its view and its text.
#[derive(Debug)]
pub struct Step {
    /// the term
    pub raw_exp: Exp<String>,
    /// its decorated view
    pub display_exp: JsExp,
    /// how the next step came from this one
    pub last_action: Option<Mutation>,
    /// the text of the term
    pub id: String,
}

impl Step {
    /// The view and the text belong to the term.
    pub open spec fn wf(&self) -> bool {
        &&& mirrors(self.display_exp, self.raw_exp)
        &&& decorated(self.display_exp, false, false, true)
        &&& unique(self.display_exp)
        &&& alpha_bound(self.display_exp)
        &&& free_unique(self.display_exp, 0)
        &&& binders_unique(self.display_exp)
        &&& alphas(self.display_exp).disjoint(ids(self.display_exp))
        &&& self.id@ == shown(self.raw_exp, false)
    }

    /// The step for `raw_exp`, where its view can number its nodes.
    pub fn new(raw_exp: Exp<String>) -> (r: Result<Step, Error>)
        ensures
            match r {
                Ok(s) => s.wf() && s.raw_exp == raw_exp && s.last_action is None && 2 * size(raw_exp)
                    <= usize::MAX,
                Err(e) => e == Error::IndexOverflow && 2 * size(raw_exp) > usize::MAX,
            },
    {
        if !JsExp::fits_view(&raw_exp) {
            return Err(Error::IndexOverflow);
        }
        let display_exp = JsExp::from_exp(&raw_exp);
        let id = raw_exp.to_text();
        Ok(Step { raw_exp, display_exp, last_action: None, id })
    }

    /// The step that follows from reducing the beta redex `id`; this step
    /// records the reduction.
    pub fn beta_reduce_by_id(&mut self, id: usize) -> (r: Result<Step, Error>)
        requires
            old(self).wf(),
        ensures
            match r {
                Ok(next) => {
                    let (t, a) = beta_by_id(old(self).raw_exp, old(self).display_exp, id);
                    &&& fits(old(self).raw_exp)
                    &&& a is Ok
                    &&& next.wf()
                    &&& next.raw_exp == t
                    &&& final(self).last_action == Some(
                        Mutation::BetaReduce { redex: id, alpha: a.unwrap() },
                    )
                    &&& final(self).raw_exp == old(self).raw_exp
                    &&& final(self).display_exp == old(self).display_exp
                    &&& final(self).id == old(self).id
                },
                Err(_) => *final(self) == *old(self),
            },
            r is Err ==> !fits(old(self).raw_exp) || !(beta_by_id(
                old(self).raw_exp,
                old(self).display_exp,
                id,
            ).1 is Ok) || 2 * size(beta_by_id(old(self).raw_exp, old(self).display_exp, id).0)
                > usize::MAX,
    {
        let mut raw_exp = self.raw_exp.clone();
        if !raw_exp.index_fits() {
            return Err(Error::IndexOverflow);
        }
        let alpha_id = match raw_exp.beta_reduce_by_id(&self.display_exp, id) {
            Ok(a) => a,
            Err(e) => return Err(e),
        };
        let next = match Step::new(raw_exp) {
            Ok(s) => s,
            Err(e) => return Err(e),
        };
        self.last_action = Some(Mutation::BetaReduce { redex: id, alpha: alpha_id });
        Ok(next)
    }

    /// The step that follows from reducing the eta redex `id`; this step
    /// records the reduction.
    pub fn eta_reduce_by_id(&mut self, id: usize) -> (r: Result<Step, Error>)
        requires
            old(self).wf(),
        ensures
            match r {
                Ok(next) => {
                    let (t, a) = eta_by_id(old(self).raw_exp, old(self).display_exp, id);
                    &&& a is Ok
                    &&& next.wf()
                    &&& next.raw_exp == t
                    &&& final(self).last_action == Some(
                        Mutation::EtaReduce { redex: id, alpha: a.unwrap() },
                    )
                    &&& final(self).raw_exp == old(self).raw_exp
                    &&& final(self).display_exp == old(self).display_exp
                    &&& final(self).id == old(self).id
                },
                Err(_) => *final(self) == *old(self),
            },
            r is Err ==> !(eta_by_id(old(self).raw_exp, old(self).display_exp, id).1 is Ok) || 2
                * size(eta_by_id(old(self).raw_exp, old(self).display_exp, id).0) > usize::MAX,
    {
        let mut raw_exp = self.raw_exp.clone();
        let alpha_id = match raw_exp.eta_reduce_by_id(&self.display_exp, id) {
            Ok(a) => a,
            Err(e) => return Err(e),
        };
        let next = match Step::new(raw_exp) {
            Ok(s) => s,
            Err(e) => return Err(e),
        };
        self.last_action = Some(Mutation::EtaReduce { redex: id, alpha: alpha_id });
        Ok(next)
    }

    /// The step that follows from replacing the free variable `name` with
    /// the alpha id `id` by `exp`; this step records the replacement.
    pub fn replace_by_alpha_id(&mut self, id: usize, name: String, exp: &Exp<String>) -> (r: Result<
        Step,
        Error,
    >)
        requires
            old(self).wf(),
        ensures
            match r {
                Ok(next) => {
                    let p = var_path(old(self).raw_exp, old(self).display_exp, id).unwrap();
                    &&& var_path(old(self).raw_exp, old(self).display_exp, id) is Some
                    &&& sub_at(old(self).raw_exp, p) matches Exp::Var(v) && v.1 == 0 && v.0@
                        == name@
                    &&& next.wf()
                    &&& next.raw_exp == replace_at(old(self).raw_exp, p, *exp)
                    &&& final(self).last_action == Some(Mutation::SubstAlpha { alpha: id, name })
                    &&& final(self).raw_exp == old(self).raw_exp
                    &&& final(self).display_exp == old(self).display_exp
                    &&& final(self).id == old(self).id
                },
                Err(_) => *final(self) == *old(self),
            },
            ({
                let p = var_path(old(self).raw_exp, old(self).display_exp, id);
                &&& p is Some
                &&& sub_at(old(self).raw_exp, p.unwrap()) matches Exp::Var(v) && v.1 == 0 && v.0@
                    == name@
                &&& 2 * size(replace_at(old(self).raw_exp, p.unwrap(), *exp)) <= usize::MAX
            }) ==> r is Ok,
    {
        let mut raw_exp = self.raw_exp.clone();
        let found = match raw_exp.find_var_by_alpha_id(&self.display_exp, id) {
            None => false,
            Some(var) => {
                let is_name = match &*var {
                    Exp::Var(ident) => ident.1 == 0 && ident.0 == name,
                    _ => false,
                };
                if is_name {
                    *var = exp.clone();
                }
                is_name
            },
        };
        if !found {
            return Err(Error::VarNotFound(name, id));
        }
        let next = match Step::new(raw_exp) {
            Ok(s) => s,
            Err(e) => return Err(e),
        };
        self.last_action = Some(Mutation::SubstAlpha { alpha: id, name });
        Ok(next)
    }
}

/// The message of a failed reduction.
pub open spec fn reduce_error_text(e: Error) -> Seq<char> {
    "reduction error: "@ + error_text(e)
}

fn reduce_error(e: Error) -> (r: String)
    ensures
        r@ == reduce_error_text(e),
{
    let mut s = String::new();
    push_lit(&mut s, "reduction error: ");
    let m = e.message();
    push_lit(&mut s, m.as_str());
    s
}

fn invalid_step(step: usize) -> (r: String)
    ensures
        r@ == "invalid step "@ + crate::display::digits(step as nat),
{
    let mut s = String::new();
    push_lit(&mut s, "invalid step ");
    push_digits(&mut s, step as u64);
    s
}

/// A session: a history of steps, each reduced from the one before, and
/// named definitions that can replace free variables.
#[derive(Debug)]
pub struct Calculator {
    steps: Vec<Step>,
    defs: Vec<(String, Exp<String>)>,
}

impl Calculator {
    /// The steps of the history, oldest first.
    pub closed spec fn history_spec(&self) -> Seq<Step> {
        self.steps@
    }

    /// The named definitions.
    pub closed spec fn defs_spec(&self) -> Seq<(String, Exp<String>)> {
        self.defs@
    }

    /// Every step is well formed, and no name is defined twice.
    pub open spec fn wf(&self) -> bool {
        &&& forall|i: int| 0 <= i < self.history_spec().len() ==> #[trigger] self.history_spec()[i].wf()
        &&& names_unique(self.defs_spec())
    }

    /// An empty session.
    pub fn new() -> (r: Self)
        ensures
            r.wf(),
            r.history_spec().len() == 0,
            r.defs_spec().len() == 0,
    {
        Calculator { steps: Vec::new(), defs: Vec::new() }
    }

    /// The steps of the history, oldest first.
    pub fn steps(&self) -> (r: &Vec<Step>)
        ensures
            r@ == self.history_spec(),
    {
        &self.steps
    }

    /// The named definitions.
    pub fn defs(&self) -> (r: &Vec<(String, Exp<String>)>)
        ensures
            r@ == self.defs_spec(),
    {
        &self.defs
    }

    /// Starts the history anew from the term in `expr`.
    pub fn init(&mut self, expr: &str) -> (r: Result<(), String>)
        requires
            old(self).wf(),
        ensures
            final(self).wf(),
            final(self).defs_spec() == old(self).defs_spec(),
            r is Ok ==> final(self).history_spec().len() == 1,
            r is Ok ==> final(self).history_spec()[0].last_action is None,
            r is Ok <==> expr@.len() < u32::MAX && (exp_parse(expr@, 0) matches Some((t, end))
                && end == expr@.len() && 2 * size(t) <= usize::MAX),
            r is Ok ==> exp_parse(expr@, 0) == Some(
                (viewed(final(self).history_spec()[0].raw_exp), expr@.len() as int),
            ),
            r is Err ==> final(self).history_spec() == old(self).history_spec(),
    {
        let raw_exp = match parse_exp(expr) {
            Ok((e, _)) => e,
            Err(e) => return Err(e.message()),
        };
        proof {
            lemma_viewed_size(raw_exp);
        }
        let step = match Step::new(raw_exp) {
            Ok(s) => s,
            Err(e) => return Err(e.message()),
        };
        self.steps = vec![step];
        Ok(())
    }

    /// Reduces the beta redex `redex_id` of the `step`-th term: the history
    /// then ends with that term and the reduced one.
    pub fn beta_reduce(&mut self, step: usize, redex_id: u32) -> (r: Result<(), String>)
        requires
            old(self).wf(),
        ensures
            final(self).wf(),
            final(self).defs_spec() == old(self).defs_spec(),
            step >= old(self).history_spec().len() ==> r is Err,
            ({
                let h0 = old(self).history_spec();
                let t = beta_by_id(
                    h0[step as int].raw_exp,
                    h0[step as int].display_exp,
                    redex_id as usize,
                );
                step < h0.len() && fits(h0[step as int].raw_exp) && t.1 is Ok && 2 * size(t.0)
                    <= usize::MAX
            }) ==> r is Ok,
            r is Ok ==> {
                let h0 = old(self).history_spec();
                let h = final(self).history_spec();
                &&& step < h0.len()
                &&& h.len() == step + 2
                &&& h.take(step as int) == h0.take(step as int)
                &&& h[step as int].raw_exp == h0[step as int].raw_exp
                &&& h[step as int + 1].raw_exp == beta_by_id(
                    h0[step as int].raw_exp,
                    h0[step as int].display_exp,
                    redex_id as usize,
                ).0
                &&& h[step as int].display_exp == h0[step as int].display_exp
                &&& h[step as int].id == h0[step as int].id
                &&& h[step as int].last_action == Some(
                    Mutation::BetaReduce {
                        redex: redex_id as usize,
                        alpha: beta_by_id(
                            h0[step as int].raw_exp,
                            h0[step as int].display_exp,
                            redex_id as usize,
                        ).1.unwrap(),
                    },
                )
            },
            r is Err ==> final(self).history_spec() == old(self).history_spec(),
    {
        if step >= self.steps.len() {
            return Err(invalid_step(step));
        }
        let ghost h0 = self.steps@;
        assert(self.history_spec()[step as int].wf());
        let res = self.steps[step].beta_reduce_by_id(redex_id as usize);
        match res {
            Ok(next) => {
                let ghost h1 = self.steps@;
                assert(h1[step as int].wf());
                assert(forall|i: int| 0 <= i < h1.len() && i != step ==> h1[i] == h0[i]);
                self.steps.truncate(step + 1);
                self.steps.push(next);
                assert(self.steps@.take(step as int) =~= h0.take(step as int));
                assert forall|i: int| 0 <= i < self.steps@.len() implies #[trigger] self.steps@[
                    i
                ].wf() by {
                    if i < step {
                        assert(self.steps@[i] == h0[i]);
                        assert(old(self).history_spec()[i].wf());
                    } else if i == step {
                        assert(self.steps@[i] == h1[i]);
                    }
                }
                Ok(())
            },
            Err(e) => {
                assert(self.steps@ =~= h0);
                Err(reduce_error(e))
            },
        }
    }

    /// Reduces the eta redex `redex_id` of the `step`-th term: the history
    /// then ends with that term and the reduced one.
    pub fn eta_reduce(&mut self, step: usize, redex_id: u32) -> (r: Result<(), String>)
        requires
            old(self).wf(),
        ensures
            final(self).wf(),
            final(self).defs_spec() == old(self).defs_spec(),
            step >= old(self).history_spec().len() ==> r is Err,
            ({
                let h0 = old(self).history_spec();
                let t = eta_by_id(
                    h0[step as int].raw_exp,
                    h0[step as int].display_exp,
                    redex_id as usize,
                );
                step < h0.len() && t.1 is Ok && 2 * size(t.0) <= usize::MAX
            }) ==> r is Ok,
            r is Ok ==> {
                let h0 = old(self).history_spec();
                let h = final(self).history_spec();
                &&& step < h0.len()
                &&& h.len() == step + 2
                &&& h.take(step as int) == h0.take(step as int)
                &&& h[step as int].raw_exp == h0[step as int].raw_exp
                &&& h[step as int + 1].raw_exp == eta_by_id(
                    h0[step as int].raw_exp,
                    h0[step as int].display_exp,
                    redex_id as usize,
                ).0
                &&& h[step as int].display_exp == h0[step as int].display_exp
                &&& h[step as int].id == h0[step as int].id
                &&& h[step as int].last_action == Some(
                    Mutation::EtaReduce {
                        redex: redex_id as usize,
                        alpha: eta_by_id(
                            h0[step as int].raw_exp,
                            h0[step as int].display_exp,
                            redex_id as usize,
                        ).1.unwrap(),
                    },
                )
            },
            r is Err ==> final(self).history_spec() == old(self).history_spec(),
    {
        if step >= self.steps.len() {
            return Err(invalid_step(step));
        }
        let ghost h0 = self.steps@;
        assert(self.history_spec()[step as int].wf());
        let res = self.steps[step].eta_reduce_by_id(redex_id as usize);
        match res {
            Ok(next) => {
                let ghost h1 = self.steps@;
                assert(h1[step as int].wf());
                assert(forall|i: int| 0 <= i < h1.len() && i != step ==> h1[i] == h0[i]);
                self.steps.truncate(step + 1);
                self.steps.push(next);
                assert(self.steps@.take(step as int) =~= h0.take(step as int));
                assert forall|i: int| 0 <= i < self.steps@.len() implies #[trigger] self.steps@[
                    i
                ].wf() by {
                    if i < step {
                        assert(self.steps@[i] == h0[i]);
                        assert(old(self).history_spec()[i].wf());
                    } else if i == step {
                        assert(self.steps@[i] == h1[i]);
                    }
                }
                Ok(())
            },
            Err(e) => {
                assert(self.steps@ =~= h0);
                Err(reduce_error(e))
            },
        }
    }

    /// Replaces the free variable with the alpha id `alpha_id` in the
    /// `step`-th term by the definition of `name`: the history then ends
    /// with that term and the new one.
    pub fn replace_def_alpha(&mut self, step: usize, name: &str, alpha_id: u32) -> (r: Result<
        (),
        String,
    >)
        requires
            old(self).wf(),
        ensures
            final(self).wf(),
            final(self).defs_spec() == old(self).defs_spec(),
            step >= old(self).history_spec().len() ==> r is Err,
            ({
                let h0 = old(self).history_spec();
                let v = var_path(h0[step as int].raw_exp, h0[step as int].display_exp, alpha_id as usize);
                &&& step < h0.len()
                &&& v is Some
                &&& sub_at(h0[step as int].raw_exp, v.unwrap()) matches Exp::Var(x) && x.1 == 0
                    && x.0@ == name@
                &&& forall|k: int|
                    0 <= k < old(self).defs_spec().len() && #[trigger] old(self).defs_spec()[k].0@
                        == name@ ==> 2 * size(
                        replace_at(h0[step as int].raw_exp, v.unwrap(), old(self).defs_spec()[k].1),
                    ) <= usize::MAX
                &&& exists|k: int|
                    0 <= k < old(self).defs_spec().len() && #[trigger] old(self).defs_spec()[k].0@
                        == name@
            }) ==> r is Ok,
            r is Ok ==> {
                let h0 = old(self).history_spec();
                let h = final(self).history_spec();
                let v = var_path(h0[step as int].raw_exp, h0[step as int].display_exp, alpha_id as usize);
                &&& step < h0.len()
                &&& h.len() == step + 2
                &&& h.take(step as int) == h0.take(step as int)
                &&& h[step as int].raw_exp == h0[step as int].raw_exp
                &&& h[step as int].display_exp == h0[step as int].display_exp
                &&& h[step as int].id == h0[step as int].id
                &&& h[step as int].last_action matches Some(Mutation::SubstAlpha { alpha, name: n })
                    && alpha == alpha_id as usize && n@ == name@
                &&& v is Some
                &&& exists|k: int|
                    0 <= k < old(self).defs_spec().len() && #[trigger] old(self).defs_spec()[k].0@
                        == name@ && h[step as int + 1].raw_exp == replace_at(
                        h0[step as int].raw_exp,
                        v.unwrap(),
                        old(self).defs_spec()[k].1,
                    )
            },
            r is Err ==> final(self).history_spec() == old(self).history_spec(),
    {
        if step >= self.steps.len() {
            return Err(invalid_step(step));
        }
        let key = String::from_str(name);
        let mut k: usize = 0;
        while k < self.defs.len() && self.defs[k].0 != key
            invariant
                k <= self.defs@.len(),
                key@ == name@,
                forall|j: int| 0 <= j < k ==> self.defs@[j].0@ != name@,
            decreases self.defs@.len() - k,
        {
            k = k + 1;
        }
        if k >= self.defs.len() {
            let mut msg = String::new();
            push_lit(&mut msg, "expression not found name = ");
            push_lit(&mut msg, name);
            return Err(msg);
        }
        let ghost h0 = self.steps@;
        assert(self.history_spec()[step as int].wf());
        let res = self.steps[step].replace_by_alpha_id(alpha_id as usize, key, &self.defs[k].1);
        match res {
            Ok(next) => {
                let ghost h1 = self.steps@;
                assert(forall|i: int| 0 <= i < h1.len() && i != step ==> h1[i] == h0[i]);
                self.steps.truncate(step + 1);
                self.steps.push(next);
                assert(self.steps@.take(step as int) =~= h0.take(step as int));
                assert forall|i: int| 0 <= i < self.steps@.len() implies #[trigger] self.steps@[
                    i
                ].wf() by {
                    if i < step {
                        assert(self.steps@[i] == h0[i]);
                        assert(old(self).history_spec()[i].wf());
                    } else if i == step {
                        assert(self.steps@[i] == h1[i]);
                    }
                }
                Ok(())
            },
            Err(e) => {
                assert(self.steps@ =~= h0);
                Err(reduce_error(e))
            },
        }
    }

    /// Adds the definitions of a document, one per line; a definition
    /// replaces an earlier one of the same name.
    pub fn add_defs(&mut self, content: &str) -> (r: Result<(), String>)
        requires
            old(self).wf(),
        ensures
            final(self).wf(),
            final(self).history_spec() == old(self).history_spec(),
            r is Err ==> final(self).defs_spec() == old(self).defs_spec(),
            r is Ok <==> content@.len() < u32::MAX && file_from(content@, 0),
            r is Ok ==> defs_view(final(self).defs_spec()) == define_all(
                defs_view(old(self).defs_spec()),
                file_defs(content@, 0, Seq::empty()),
            ),
    {
        let (map, _) = match parse_file(content) {
            Ok(p) => p,
            Err(e) => return Err(e.message()),
        };
        let ghost all = defs_view(map@);
        let mut rest = map;
        while rest.len() > 0
            invariant
                names_unique(self.defs@),
                self.steps@ == old(self).steps@,
                define_all(defs_view(old(self).defs@), all) == define_all(
                    defs_view(self.defs@),
                    defs_view(rest@),
                ),
            decreases rest.len(),
        {
            let ghost r0 = rest@;
            let (name, exp) = rest.pop().unwrap();
            proof {
                assert(defs_view(rest@) =~= defs_view(r0).drop_last());
                assert(defs_view(r0).last() == (name@, viewed(exp)));
            }
            define(&mut self.defs, name, exp);
        }
        assert(defs_view(rest@) =~= Seq::<(Seq<char>, Exp<Seq<char>>)>::empty());
        assert forall|i: int| 0 <= i < self.history_spec().len() implies #[trigger] self.history_spec()[
            i
        ].wf() by {
            assert(old(self).history_spec()[i].wf());
        }
        Ok(())
    }
}

impl Default for Calculator {
    fn default() -> (r: Self)
        ensures
            r.wf(),
            r.history_spec().len() == 0,
            r.defs_spec().len() == 0,
    {
        Self::new()
    }
}

} // verus!
