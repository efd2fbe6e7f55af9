//! The modifiers that are compiled to code of their own, without a function for each operand.
use crate::arrays::{
    content_reduced, contents_taken, each_dropped, find_reduced_content, reduced_content, tabled,
};
use crate::compiler::{well_formed, Compiler, CompilerV};
use crate::comptime::comptime_done;
use crate::guarded::{filled, keeps_mode, law_fill_restores_mode, tried};
use crate::inverse::{under_done, undone};
use crate::keeping::{lemma_kept_on, place_kept};
use crate::locals::bound;
use crate::message::{UiuaError, UiuaResult};
use crate::meta::{quote_done, signed, stringified};
use crate::prim::Primitive;
use crate::stacking::{arranged, bracketed, cascaded, doubled, forked};
use crate::toolchain::{
    did_handle_primitive_deprecation, did_handle_primitive_experimental, did_words_look_pervasive,
    orderly, Toolchain,
};
use crate::word::{code_words, required_args, Modified, ModifiedV, Modifier, ModifierV};
use vstd::prelude::*;

verus! {

/// Whether a modifier has a form of its own when it is compiled. An each only has one where its
/// function looks as if it goes into each element anyway.
pub open spec fn has_form(prim: Primitive, m: ModifiedV) -> bool {
    match prim {
        Primitive::Dip
        | Primitive::Gap
        | Primitive::On
        | Primitive::By
        | Primitive::Fork
        | Primitive::Cascade
        | Primitive::Bracket
        | Primitive::Un
        | Primitive::Under
        | Primitive::Both
        | Primitive::Fill
        | Primitive::Try
        | Primitive::Bind
        | Primitive::Comptime
        | Primitive::Each
        | Primitive::Table
        | Primitive::Content
        | Primitive::Stringify
        | Primitive::Quote
        | Primitive::Sig => true,
        Primitive::Reduce => reduced_content(m) is Some,
        _ => false,
    }
}

/// What was done with a modifier that has a form of its own.
pub open spec fn form_compiled<T: Toolchain>(
    t: &T,
    v: CompilerV,
    prim: Primitive,
    m: ModifiedV,
    call: bool,
    w: CompilerV,
    res: UiuaResult<()>,
) -> bool {
    match prim {
        Primitive::Dip | Primitive::Gap | Primitive::On | Primitive::By => arranged(
            t,
            v,
            prim,
            m,
            call,
            w,
            res,
        ),
        Primitive::Fork => forked(t, v, m, call, w, res),
        Primitive::Cascade => cascaded(t, v, m, call, w, res),
        Primitive::Bracket => bracketed(t, v, m, call, w, res),
        Primitive::Un => undone(t, v, m, call, w, res),
        Primitive::Under => under_done(t, v, m, call, w, res),
        Primitive::Both => doubled(t, v, m, call, w, res),
        Primitive::Fill => filled(t, v, m, call, w, res),
        Primitive::Try => tried(t, v, m, call, w, res),
        Primitive::Bind => bound(t, v, m, call, w, res),
        Primitive::Comptime => comptime_done(
            t,
            v,
            prim,
            code_words(m.operands)[0],
            m.modifier.span,
            call,
            w,
            res,
        ),
        Primitive::Reduce => content_reduced(t, v, m, reduced_content(m)->0, call, w, res),
        Primitive::Each => each_dropped(t, v, m, call, w, res),
        Primitive::Table => tabled(t, v, m, call, w, res),
        Primitive::Content => contents_taken(t, v, m, call, w, res),
        Primitive::Stringify => stringified(t, v, m, call, w, res),
        Primitive::Quote => quote_done(t, v, m, call, w, res),
        Primitive::Sig => signed(t, v, m, call, w, res),
        _ => false,
    }
}

/// What was done with a modifier that has a form of its own, and with complaints about it.
pub open spec fn form_inlined<T: Toolchain>(
    t: &T,
    v: CompilerV,
    prim: Primitive,
    m: ModifiedV,
    call: bool,
    w: CompilerV,
    res: UiuaResult<bool>,
) -> bool {
    exists|u: CompilerV, out: UiuaResult<()>| #[trigger]
        form_compiled(t, v, prim, m, call, u, out) && match out {
            Err(e) => w == u && res == Err::<bool, UiuaError>(e),
            Ok(_) => {
                &&& res == Ok::<bool, UiuaError>(true)
                &&& exists|x: CompilerV| #[trigger]
                    did_handle_primitive_experimental(t, u, prim, m.modifier.span, x)
                        && did_handle_primitive_deprecation(t, x, prim, m.modifier.span, w)
            },
        }
}

/// What `inline_modifier` did.
pub open spec fn inlined<T: Toolchain>(
    t: &T,
    v: CompilerV,
    m: ModifiedV,
    call: bool,
    w: CompilerV,
    res: UiuaResult<bool>,
) -> bool {
    let nothing = w == v && res == Ok::<bool, UiuaError>(false);
    match m.modifier.value {
        ModifierV::Ref(_) => nothing,
        ModifierV::Primitive(prim) => if !has_form(prim, m) {
            nothing
        } else if prim == Primitive::Each {
            exists|pervasive: bool| #[trigger]
                did_words_look_pervasive(t, code_words(m.operands)[0], pervasive) && if pervasive {
                    form_inlined(t, v, prim, m, call, w, res)
                } else {
                    nothing
                }
        } else {
            form_inlined(t, v, prim, m, call, w, res)
        },
    }
}

/// A fill leaves the mode as it was, whatever the outcome, where compiling its function in that
/// mode and complaining about it keep the mode.
pub proof fn law_inlined_fill_restores_mode<T: Toolchain>(
    t: &T,
    v: CompilerV,
    m: ModifiedV,
    call: bool,
    w: CompilerV,
    res: UiuaResult<bool>,
)
    requires
        m.modifier.value == ModifierV::Primitive(Primitive::Fill),
        inlined(t, v, m, call, w, res),
        keeps_mode(t, v.pre_eval_mode, code_words(m.operands)[0]),
        forall|a: CompilerV, b: CompilerV| #[trigger]
            did_handle_primitive_experimental(t, a, Primitive::Fill, m.modifier.span, b)
                ==> b.pre_eval_mode == a.pre_eval_mode,
        forall|a: CompilerV, b: CompilerV| #[trigger]
            did_handle_primitive_deprecation(t, a, Primitive::Fill, m.modifier.span, b)
                ==> b.pre_eval_mode == a.pre_eval_mode,
    ensures
        w.pre_eval_mode == v.pre_eval_mode,
{
    let (u, out) = choose|u: CompilerV, out: UiuaResult<()>| #[trigger]
        form_compiled(t, v, Primitive::Fill, m, call, u, out) && match out {
            Err(e) => w == u && res == Err::<bool, UiuaError>(e),
            Ok(_) => {
                &&& res == Ok::<bool, UiuaError>(true)
                &&& exists|x: CompilerV| #[trigger]
                    did_handle_primitive_experimental(
                        t,
                        u,
                        Primitive::Fill,
                        m.modifier.span,
                        x,
                    ) && did_handle_primitive_deprecation(t, x, Primitive::Fill, m.modifier.span, w)
            },
        };
    law_fill_restores_mode(t, v, m, call, u, out);
}

impl Compiler {
    /// Compiles a modifier that has a form of its own. The result says whether it has.
    pub fn inline_modifier<T: Toolchain>(&mut self, t: &T, modified: &Modified, call: bool) -> (res:
        UiuaResult<bool>)
        requires
            orderly(t),
            well_formed(old(self)@),
            code_words(modified@.operands).len() == required_args(modified@.modifier.value),
        ensures
            inlined(t, old(self)@, modified@, call, final(self)@, res),
            place_kept(old(self)@, final(self)@, res is Ok),
    {
        let ghost v = self@;
        let ghost m = modified@;
        let prim = match &modified.modifier.value {
            Modifier::Primitive(prim) => *prim,
            Modifier::Ref(_) => return Ok(false),
        };
        let done = match prim {
            Primitive::Dip | Primitive::Gap | Primitive::On | Primitive::By => {
                proof {
                    lemma_code_among(m);
                }
                self.arrange(t, prim, modified, call)
            },
            Primitive::Fork => self.fork(t, modified, call),
            Primitive::Cascade => self.cascade(t, modified, call),
            Primitive::Bracket => self.bracket(t, modified, call),
            Primitive::Un => self.un(t, modified, call),
            Primitive::Under => self.under(t, modified, call),
            Primitive::Both => self.both(t, modified, call),
            Primitive::Fill => self.fill(t, modified, call),
            Primitive::Try => self.try_(t, modified, call),
            Primitive::Bind => self.bind(t, modified, call),
            Primitive::Comptime => self.do_comptime(
                t,
                prim,
                modified.code_operand(0),
                &modified.modifier.span,
                call,
            ),
            Primitive::Reduce => match find_reduced_content(modified) {
                Some(inner) => self.reduce_content(t, modified, inner, call),
                None => return Ok(false),
            },
            Primitive::Each => {
                let word = modified.code_operand(0);
                let pervasive = t.words_look_pervasive(word);
                assert(did_words_look_pervasive(t, code_words(m.operands)[0], pervasive));
                if !pervasive {
                    return Ok(false);
                }
                self.each(t, modified, call)
            },
            Primitive::Table => self.table(t, modified, call),
            Primitive::Content => self.content(t, modified, call),
            Primitive::Stringify => self.stringify(t, modified, call),
            Primitive::Quote => self.quote_operand(t, modified, call),
            Primitive::Sig => self.sig(t, modified, call),
            _ => return Ok(false),
        };
        let ghost u = self@;
        assert(form_compiled(t, v, prim, m, call, u, done));
        match done {
            Err(e) => Err(e),
            Ok(_) => {
                self.do_handle_primitive_experimental(t, prim, &modified.modifier.span);
                let ghost x = self@;
                self.do_handle_primitive_deprecation(t, prim, &modified.modifier.span);
                proof {
                    lemma_kept_on(v, u, x, true);
                    lemma_kept_on(v, x, self@, true);
                    assert(did_handle_primitive_experimental(t, u, prim, m.modifier.span, x));
                }
                Ok(true)
            },
        }
    }
}

/// Code operands are operands.
proof fn lemma_code_among(m: ModifiedV)
    requires
        code_words(m.operands).len() > 0,
    ensures
        m.operands.len() > 0,
{
    reveal(Seq::filter);
}

} // verus!
