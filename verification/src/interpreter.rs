//! The interpreter: executes a statement sequence in order against the
//! global environment, collecting the text that `print` statements emit
//! and stopping at the first runtime error. The specification functions
//! `exec_stmt` and `run_stmts` define execution mathematically.

use vstd::prelude::*;

use crate::environment::{map_wf, Environment};
use crate::error::{ErrorReport, RuntimeErrModel, RuntimeError};
use crate::expr::{eval_expr, value_text, value_wf, ValueModel};
use crate::parser::{parse_spec, perr_views, toks_wf, Parser};
use crate::scanner::{err_views, lemma_scan_ends_with_eof, lemma_scan_tokens_wf, scan_spec,
    token_views, Scanner};
use crate::stmt::{stmt_view, stmt_views, stmt_wf, Stmt, StmtM};

verus! {

/// What executing statements produces: the `print` outputs in order,
/// the final environment, and the first runtime error if one occurred.
pub ghost struct RunOut {
    pub outs: Seq<Seq<char>>,
    pub env: Map<Seq<char>, ValueModel>,
    pub err: Option<RuntimeErrModel>,
}

/// Executes one statement: an expression statement discards its value,
/// a `print` statement emits the value's canonical text, and a `var`
/// declaration binds its name unconditionally (a missing initializer
/// was already parsed as the `nil` literal).
pub open spec fn exec_stmt(s: StmtM, env: Map<Seq<char>, ValueModel>) -> RunOut {
    match s {
        StmtM::Expression { expression } => {
            let o = eval_expr(expression, env);
            match o.res {
                Ok(_) => RunOut { outs: Seq::empty(), env: o.env, err: None },
                Err(e) => RunOut { outs: Seq::empty(), env: o.env, err: Some(e) },
            }
        },
        StmtM::Print { expression } => {
            let o = eval_expr(expression, env);
            match o.res {
                Ok(v) => RunOut { outs: seq![value_text(v)], env: o.env, err: None },
                Err(e) => RunOut { outs: Seq::empty(), env: o.env, err: Some(e) },
            }
        },
        StmtM::Var { name, initializer } => {
            let o = eval_expr(initializer, env);
            match o.res {
                Ok(v) => RunOut {
                    outs: Seq::empty(),
                    env: o.env.insert(name.lexeme, v),
                    err: None,
                },
                Err(e) => RunOut { outs: Seq::empty(), env: o.env, err: Some(e) },
            }
        },
    }
}

/// Executes statements strictly in order; the first runtime error stops
/// the rest.
pub open spec fn run_stmts(stmts: Seq<StmtM>, env: Map<Seq<char>, ValueModel>) -> RunOut
    decreases stmts.len(),
{
    if stmts.len() == 0 {
        RunOut { outs: Seq::empty(), env, err: None }
    } else {
        let first = exec_stmt(stmts[0], env);
        match first.err {
            Some(_) => first,
            None => {
                let rest = run_stmts(stmts.drop_first(), first.env);
                RunOut { outs: first.outs + rest.outs, env: rest.env, err: rest.err }
            },
        }
    }
}

/// One successful step folds into the running-statement decomposition:
/// what is left after statement `i` continues from its environment.
proof fn lemma_step_invariant(
    stmts: Seq<StmtM>,
    i: nat,
    env_pre: Map<Seq<char>, ValueModel>,
    produced: Seq<Seq<char>>,
    full: RunOut,
)
    requires
        i < stmts.len(),
        exec_stmt(stmts[i as int], env_pre).err is None,
        full.outs == produced + run_stmts(stmts.skip(i as int), env_pre).outs,
        full.env == run_stmts(stmts.skip(i as int), env_pre).env,
        full.err == run_stmts(stmts.skip(i as int), env_pre).err,
    ensures
        ({
            let first = exec_stmt(stmts[i as int], env_pre);
            let rest2 = run_stmts(stmts.skip(i as int + 1), first.env);
            &&& full.outs == (produced + first.outs) + rest2.outs
            &&& full.env == rest2.env
            &&& full.err == rest2.err
        }),
{
    let first = exec_stmt(stmts[i as int], env_pre);
    let s = stmts.skip(i as int);
    assert(s[0] == stmts[i as int]);
    assert(s.drop_first() =~= stmts.skip(i as int + 1));
    let rest = run_stmts(s, env_pre);
    let rest2 = run_stmts(stmts.skip(i as int + 1), first.env);
    assert(rest.outs == first.outs + rest2.outs);
    assert(produced + (first.outs + rest2.outs) =~= (produced + first.outs) + rest2.outs);
}

/// The character sequences of a string sequence.
pub open spec fn str_views(ss: Seq<String>) -> Seq<Seq<char>> {
    Seq::new(ss.len(), |k: int| ss[k]@)
}

/// The interpreter: the global environment and the output collected
/// from `print` statements, both persisting across calls.
pub struct Interpreter {
    pub environment: Environment,
    pub output: Vec<String>,
}

impl Interpreter {
    pub open spec fn wf(&self) -> bool {
        self.environment.wf()
    }

    pub fn new() -> (r: Interpreter)
        ensures
            r.wf(),
            r.environment@ == Map::<Seq<char>, ValueModel>::empty(),
            r.output@ =~= Seq::<String>::empty(),
    {
        Interpreter { environment: Environment::new(), output: Vec::new() }
    }

    /// Executes the statements in order against the environment,
    /// appending each `print` output to `self.output`, and returns the
    /// first runtime error if one occurred; `run_stmts` gives the exact
    /// outputs, environment and error.
    #[verifier::rlimit(100)]
    #[verifier::spinoff_prover]
    pub fn interpret(&mut self, stmts: Vec<Stmt>) -> (r: Result<(), RuntimeError>)
        requires
            old(self).wf(),
            forall|k: int|
                0 <= k < stmts@.len() ==> stmt_wf(stmt_view(#[trigger] stmts@[k])),
        ensures
            final(self).wf(),
            ({
                let out = run_stmts(stmt_views(stmts@), old(self).environment@);
                &&& final(self).environment@ == out.env
                &&& str_views(final(self).output@) =~= str_views(old(self).output@) + out.outs
                &&& (match r {
                    Ok(_) => out.err is None,
                    Err(e) => out.err == Some(e@),
                })
            }),
    {
        let ghost env0 = self.environment@;
        let ghost full = run_stmts(stmt_views(stmts@), env0);
        let mut i: usize = 0;
        let ghost mut produced: Seq<Seq<char>> = Seq::empty();
        proof {
            assert(stmt_views(stmts@).skip(0) =~= stmt_views(stmts@));
            assert(str_views(self.output@) =~= str_views(old(self).output@) + produced);
        }
        while i < stmts.len()
            invariant
                self.wf(),
                i <= stmts@.len(),
                env0 == old(self).environment@,
                full == run_stmts(stmt_views(stmts@), env0),
                forall|k: int|
                    0 <= k < stmts@.len() ==> stmt_wf(stmt_view(#[trigger] stmts@[k])),
                str_views(self.output@) =~= str_views(old(self).output@) + produced,
                ({
                    let rest = run_stmts(stmt_views(stmts@).skip(i as int), self.environment@);
                    &&& full.outs == produced + rest.outs
                    &&& full.env == rest.env
                    &&& full.err == rest.err
                }),
            decreases stmts@.len() - i,
        {
            let ghost env_pre = self.environment@;
            let ghost sm = stmt_view(stmts@[i as int]);
            let ghost rest = run_stmts(stmt_views(stmts@).skip(i as int), env_pre);
            let ghost first = exec_stmt(sm, env_pre);
            proof {
                assert(stmt_views(stmts@).skip(i as int)[0] == sm);
                assert(stmt_views(stmts@).skip(i as int).drop_first() =~= stmt_views(
                    stmts@,
                ).skip(i as int + 1));
                assert(stmt_views(stmts@).skip(i as int).len() > 0);
            }
            match &stmts[i] {
                Stmt::Expression { expression } => {
                    match expression.evaluate(&mut self.environment) {
                        Ok(_) => {
                            proof {
                                assert(first.err is None && first.env == self.environment@
                                    && first.outs =~= Seq::<Seq<char>>::empty());
                                lemma_step_invariant(
                                    stmt_views(stmts@),
                                    i as nat,
                                    env_pre,
                                    produced,
                                    full,
                                );
                                assert(produced + first.outs =~= produced);
                            }
                        },
                        Err(e) => {
                            proof {
                                assert(rest == first);
                                assert(full.outs =~= produced + first.outs);
                                assert(full.outs =~= produced);
                            }
                            return Err(e);
                        },
                    }
                },
                Stmt::Print { expression } => {
                    match expression.evaluate(&mut self.environment) {
                        Ok(v) => {
                            let ghost out_pre = self.output@;
                            let text = v.to_string();
                            proof {
                                assert(first.err is None && first.env == self.environment@
                                    && first.outs =~= seq![text@]);
                            }
                            self.output.push(text);
                            proof {
                                assert(self.output@ == out_pre.push(text));
                                assert(str_views(out_pre.push(text)) =~= str_views(
                                    out_pre,
                                ).push(text@));
                                lemma_step_invariant(
                                    stmt_views(stmts@),
                                    i as nat,
                                    env_pre,
                                    produced,
                                    full,
                                );
                                assert(produced + first.outs =~= produced.push(text@));
                                assert((str_views(old(self).output@) + produced).push(text@)
                                    =~= str_views(old(self).output@) + produced.push(text@));
                                produced = produced.push(text@);
                                assert(str_views(self.output@) =~= str_views(old(self).output@)
                                    + produced);
                            }
                        },
                        Err(e) => {
                            proof {
                                assert(rest == first);
                                assert(full.outs =~= produced + first.outs);
                                assert(full.outs =~= produced);
                            }
                            return Err(e);
                        },
                    }
                },
                Stmt::Var { name, initializer } => {
                    match initializer.evaluate(&mut self.environment) {
                        Ok(v) => {
                            self.environment.define(name.lexeme.clone(), v);
                            proof {
                                assert(first.err is None && first.env == self.environment@
                                    && first.outs =~= Seq::<Seq<char>>::empty());
                                lemma_step_invariant(
                                    stmt_views(stmts@),
                                    i as nat,
                                    env_pre,
                                    produced,
                                    full,
                                );
                                assert(produced + first.outs =~= produced);
                            }
                        },
                        Err(e) => {
                            proof {
                                assert(rest == first);
                                assert(full.outs =~= produced + first.outs);
                                assert(full.outs =~= produced);
                            }
                            return Err(e);
                        },
                    }
                },
            }
            i = i + 1;
        }
        proof {
            assert(stmt_views(stmts@).skip(i as int) =~= Seq::<StmtM>::empty());
            assert(full.outs =~= produced);
        }
        Ok(())
    }
}

/// Runs one source text against a persistent interpreter: scan, then
/// parse, then execute. Scan errors and parse errors each abort the run
/// with their aggregated list and leave the interpreter untouched; a
/// runtime error stops execution, keeping the outputs and bindings made
/// before it.
pub fn run(interpreter: &mut Interpreter, source: &str) -> (r: Result<(), ErrorReport>)
    requires
        old(interpreter).wf(),
        source@.len() < usize::MAX,
    ensures
        final(interpreter).wf(),
        ({
            let sm = scan_spec(source@);
            let pm = parse_spec(sm.toks);
            &&& (sm.errs.len() > 0 ==> *final(interpreter) == *old(interpreter) && (
            r matches Err(ErrorReport::ScanErrors(es)) && err_views(es@) =~= sm.errs))
            &&& (sm.errs.len() == 0 && pm.errs.len() > 0 ==> *final(interpreter) == *old(
                interpreter,
            ) && (r matches Err(ErrorReport::ParseErrors(es)) && perr_views(es@) =~= pm.errs))
            &&& (sm.errs.len() == 0 && pm.errs.len() == 0 ==> ({
                let out = run_stmts(pm.stmts, old(interpreter).environment@);
                &&& final(interpreter).environment@ == out.env
                &&& str_views(final(interpreter).output@) =~= str_views(
                    old(interpreter).output@,
                ) + out.outs
                &&& (match r {
                    Ok(_) => out.err is None,
                    Err(er) => er matches ErrorReport::Runtime(e) && out.err == Some(e@),
                })
            }))
        }),
{
    let ghost src_chars = source@;
    let mut scanner = Scanner::new(source);
    let tokens = match scanner.scan_tokens() {
        Ok(toks) => toks,
        Err(errs) => {
            return Err(ErrorReport::ScanErrors(errs));
        },
    };
    proof {
        lemma_scan_ends_with_eof(src_chars);
        lemma_scan_tokens_wf(src_chars);
        assert(token_views(tokens@) == scan_spec(src_chars).toks);
        assert(toks_wf(token_views(tokens@)));
    }
    let mut parser = Parser::new(tokens);
    let stmts = match parser.parse() {
        Ok(stmts) => stmts,
        Err(errs) => {
            return Err(ErrorReport::ParseErrors(errs));
        },
    };
    match interpreter.interpret(stmts) {
        Ok(_) => Ok(()),
        Err(e) => Err(ErrorReport::Runtime(e)),
    }
}

} // verus!
