//! Running code while compiling.
use crate::assembly::AssemblyV;
use crate::compiler::{finished, well_formed, with_error, Compiler, CompilerV, EnvV, PreEvalMode};
use crate::env::prepared_env;
use crate::instr::{FuncSlice, Instr};
use crate::keeping::{code_fits, lemma_kept_on, place_kept};
use crate::message::{Message, UiuaError, UiuaResult};
use crate::prim::{Primitive, Signature};
use crate::span::{CodeSpan, Sp};
use crate::toolchain::{
    did_compile_operand_word, did_error_text, did_optimize_instrs, did_prim_text,
    did_run_assembly, did_run_top_slices, did_word, orderly, Toolchain,
};
use crate::value::{is_default, Value};
use crate::word::{sp_view, Word, WordV};
use vstd::prelude::*;

verus! {

/// A compiler with some more code at the top of its program.
pub open spec fn with_top_code(v: CompilerV, code: Seq<Instr>) -> CompilerV {
    CompilerV {
        assembly: AssemblyV {
            instrs: v.assembly.instrs + code,
            top_slices: v.assembly.top_slices.push(
                FuncSlice { start: v.assembly.instrs.len() as usize, len: code.len() as usize },
            ),
            ..v.assembly
        },
        ..v
    }
}

/// The code that pushes some values.
pub open spec fn pushes(values: Seq<Value>) -> Seq<Instr> {
    values.map_values(|value: Value| Instr::Push(value))
}

/// The last `n` values; all of them where there are fewer.
pub open spec fn last_values(values: Seq<Value>, n: nat) -> Seq<Value> {
    if values.len() <= n {
        values
    } else {
        values.skip(values.len() - n)
    }
}

/// What has been noted where running code failed: an error, unless there is one already.
pub open spec fn failure_noted<T: Toolchain>(
    t: &T,
    v: CompilerV,
    span: CodeSpan,
    error: UiuaError,
    w: CompilerV,
) -> bool {
    if v.errors.len() > 0 {
        w == v
    } else {
        exists|text: String| #[trigger]
            did_error_text(t, error, text) && w == with_error(
                v,
                span,
                Message::ComptimeFailed { error: text },
            )
    }
}

/// What became of code that ran in the runtime `env` of macros and left it as `end`: compiler `v`
/// went on to `w`, which pushes the values that were computed, or empty lists in their place
/// where the run failed.
pub open spec fn values_pushed<T: Toolchain>(
    t: &T,
    v: CompilerV,
    end: EnvV,
    ran: UiuaResult<()>,
    outputs: usize,
    span: CodeSpan,
    call: bool,
    w: CompilerV,
) -> bool {
    let sig = Signature { args: 0, outputs };
    match ran {
        Ok(_) => w == finished(v, span, call, sig, pushes(last_values(end.stack, outputs as nat))),
        Err(error) => exists|noted: CompilerV, values: Seq<Value>|
            #![trigger failure_noted(t, v, span, error, noted), pushes(values)]
            {
                &&& failure_noted(t, v, span, error, noted)
                &&& values.len() == outputs
                &&& forall|i: int| 0 <= i < values.len() ==> is_default(#[trigger] values[i])
                &&& w == finished(noted, span, call, sig, pushes(values))
            },
    }
}

/// What was done with code without arguments that compiler `v` was to run: it was optimized, put
/// on top of the program in the copy `c`, and run there.
pub open spec fn code_run<T: Toolchain>(
    t: &T,
    v: CompilerV,
    c: CompilerV,
    code: Seq<Instr>,
    outputs: usize,
    span: CodeSpan,
    call: bool,
    w: CompilerV,
    res: UiuaResult<()>,
) -> bool {
    exists|best: Vec<Instr>, env: EnvV, ready: UiuaResult<()>|
        #![trigger did_run_top_slices(t, prepared_env(with_top_code(c, best@)), env, ready)]
        {
            let loaded = with_top_code(c, best@);
            &&& did_optimize_instrs(t, c, code, true, best)
            &&& did_run_top_slices(t, prepared_env(loaded), env, ready)
            &&& match ready {
                Err(e) => res == Err::<(), UiuaError>(e) && w == v,
                Ok(_) => res is Ok && exists|end: EnvV, ran: UiuaResult<()>| #[trigger]
                    did_run_assembly(t, env, loaded.assembly, end, ran) && values_pushed(
                        t,
                        v,
                        end,
                        ran,
                        outputs,
                        span,
                        call,
                        w,
                    ),
            }
        }
}

/// What `do_comptime` did.
pub open spec fn comptime_done<T: Toolchain>(
    t: &T,
    v: CompilerV,
    prim: Primitive,
    operand: Sp<WordV>,
    span: CodeSpan,
    call: bool,
    w: CompilerV,
    res: UiuaResult<()>,
) -> bool {
    if v.pre_eval_mode == PreEvalMode::Lsp {
        did_word(t, v, operand, call, w, res)
    } else {
        exists|c: CompilerV, out: UiuaResult<(Vec<Instr>, Signature)>| #[trigger]
            did_compile_operand_word(t, v, operand, c, out) && match out {
                Err(e) => res == Err::<(), UiuaError>(e) && w == v,
                Ok((code, sig)) => if sig.args > 0 {
                    w == v && arguments_refused(t, prim, sig.args, span, res)
                } else {
                    code_run(t, v, c, code@, sig.outputs, span, call, w, res)
                },
            }
    }
}

/// The refusal to run a function that takes arguments.
pub open spec fn arguments_refused<T: Toolchain>(
    t: &T,
    prim: Primitive,
    args: usize,
    span: CodeSpan,
    res: UiuaResult<()>,
) -> bool {
    exists|text: String| #[trigger]
        did_prim_text(t, prim, text) && res == Err::<(), UiuaError>(
            UiuaError::Fatal { span, message: Message::ComptimeArguments { prim: text, args } },
        )
}

/// Code that is run while compiling leaves no trace in the compiler but the values that it came
/// to, and an error where it failed: where it cannot be run nothing has changed, and else only
/// code was added, and an error at the most. It does where only the language server looks at it.
pub proof fn law_comptime_leaves_no_trace<T: Toolchain>(
    t: &T,
    v: CompilerV,
    prim: Primitive,
    operand: Sp<WordV>,
    span: CodeSpan,
    call: bool,
    w: CompilerV,
    res: UiuaResult<()>,
)
    requires
        v.pre_eval_mode != PreEvalMode::Lsp,
        comptime_done(t, v, prim, operand, span, call, w, res),
    ensures
        res is Err ==> w == v,
        w == (CompilerV {
            assembly: AssemblyV { instrs: w.assembly.instrs, ..v.assembly },
            frames: w.frames,
            errors: w.errors,
            ..v
        }),
        v.errors.len() > 0 ==> w.errors == v.errors,
{
}

/// The code that pushes the last `n` of some values.
fn push_code(values: &Vec<Value>, n: usize) -> (res: Vec<Instr>)
    ensures
        res@ == pushes(last_values(values@, n as nat)),
{
    let len: usize = values.len();
    let skipped: usize = if len <= n {
        0
    } else {
        len - n
    };
    let ghost kept = last_values(values@, n as nat);
    let mut res: Vec<Instr> = Vec::new();
    for i in skipped..len
        invariant
            len == values@.len(),
            skipped <= len,
            kept == values@.skip(skipped as int),
            res@ == pushes(kept.take(i - skipped)),
    {
        res.push(Instr::Push(values[i].clone()));
        assert(res@ =~= pushes(kept.take(i + 1 - skipped)));
    }
    assert(kept.take(len - skipped) =~= kept);
    res
}

/// Some empty lists.
fn default_values(n: usize) -> (res: Vec<Value>)
    ensures
        res@.len() == n,
        forall|i: int| 0 <= i < res@.len() ==> is_default(#[trigger] res@[i]),
{
    let mut res: Vec<Value> = Vec::new();
    for i in 0..n
        invariant
            res@.len() == i,
            forall|j: int| 0 <= j < res@.len() ==> is_default(#[trigger] res@[j]),
    {
        res.push(Value::default());
    }
    res
}

impl Compiler {
    /// Puts code on top of the program.
    fn push_top_code(&mut self, instrs: Vec<Instr>)
        ensures
            final(self)@ == with_top_code(old(self)@, instrs@),
    {
        let start: usize = self.assembly.instrs.len();
        let len: usize = instrs.len();
        let mut instrs = instrs;
        self.assembly.instrs.append(&mut instrs);
        self.assembly.top_slices.push(FuncSlice { start, len });
    }

    /// Runs an operand while compiling and pushes the values that come out. The operand is
    /// compiled and run in a copy of the compiler. Where only the language server looks at the
    /// code, the operand is compiled as it is.
    pub fn do_comptime<T: Toolchain>(
        &mut self,
        t: &T,
        prim: Primitive,
        operand: &Sp<Word>,
        span: &CodeSpan,
        call: bool,
    ) -> (res: UiuaResult<()>)
        requires
            orderly(t),
            well_formed(old(self)@),
        ensures
            comptime_done(
                t,
                old(self)@,
                prim,
                sp_view(*operand),
                *span,
                call,
                final(self)@,
                res,
            ),
            place_kept(old(self)@, final(self)@, res is Ok),
    {
        let ghost v = self@;
        if self.pre_eval_mode == PreEvalMode::Lsp {
            return self.do_word(t, operand, call);
        }
        let mut comp = self.clone();
        match comp.do_compile_operand_word(t, operand) {
            Err(e) => Err(e),
            Ok((instrs, sig)) => {
                let ghost code = instrs@;
                if sig.args > 0 {
                    let text = t.prim_text(prim);
                    assert(did_prim_text(t, prim, text));
                    return Err(
                        self.fatal_error(
                            span.clone(),
                            Message::ComptimeArguments { prim: text, args: sig.args },
                        ),
                    );
                }
                let ghost c = comp@;
                let best = t.optimize_instrs(&comp, instrs, true);
                assert(did_optimize_instrs(t, c, code, true, best));
                let ghost best_code = best;
                comp.push_top_code(best);
                let ghost loaded = comp@;
                match comp.prepare_env(t) {
                    Err(e) => Err(e),
                    Ok(_) => {
                        let ghost env = comp@.env;
                        let mut macro_env = comp.macro_env;
                        let ran = macro_env.do_run_assembly(t, &comp.assembly);
                        let ghost end = macro_env@;
                        assert(did_run_assembly(t, env, loaded.assembly, end, ran));
                        let values = match ran {
                            Ok(_) => macro_env.take_stack(),
                            Err(ref e) => {
                                if self.errors.len() == 0 {
                                    let text = t.error_text(e);
                                    assert(did_error_text(t, *e, text));
                                    self.add_error(
                                        span.clone(),
                                        Message::ComptimeFailed { error: text },
                                    );
                                }
                                default_values(sig.outputs)
                            },
                        };
                        let ghost noted = self@;
                        let pushed = push_code(&values, sig.outputs);
                        assert(code_fits(noted, noted, pushed@));
                        self.finish(span.clone(), call, Signature::new(0, sig.outputs), pushed);
                        proof {
                            lemma_kept_on(v, noted, self@, true);
                            assert(values_pushed(
                                t,
                                v,
                                end,
                                ran,
                                sig.outputs,
                                *span,
                                call,
                                self@,
                            )) by {
                                if ran is Err {
                                    assert(failure_noted(t, v, *span, ran->Err_0, noted));
                                    assert(pushes(values@) == pushed@);
                                }
                            }
                        }
                        Ok(())
                    },
                }
            },
        }
    }
}

} // verus!
