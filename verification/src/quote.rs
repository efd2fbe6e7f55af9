//! Compiling code that was made by running a macro.
use crate::assembly::AssemblyV;
use crate::compiler::{with_error, Compiler, CompilerV};
use crate::item::Item;
use crate::keeping::{lemma_kept_aside, lemma_kept_on, place_kept};
use crate::message::{traced, Message, ParseError, UiuaError, UiuaResult};
use crate::span::{CodeSpan, InputSrc, Sp};
use crate::toolchain::{did_binding, did_import, did_parse, did_words, orderly, Toolchain};
use crate::word::{lines_view, Word, WordV};
use std::rc::Rc;
use vstd::prelude::*;

verus! {

/// A result whose error is attributed to the use of a macro.
pub open spec fn traced_result<R>(res: UiuaResult<R>, span: CodeSpan) -> UiuaResult<R> {
    match res {
        Ok(out) => Ok(out),
        Err(e) => Err(traced(e, span)),
    }
}

/// A compiler with other inputs.
pub open spec fn with_inputs(v: CompilerV, inputs: Seq<String>) -> CompilerV {
    CompilerV { assembly: AssemblyV { inputs, ..v.assembly }, ..v }
}

/// What became of one line of generated code.
pub open spec fn line_done<T: Toolchain>(
    t: &T,
    v: CompilerV,
    line: Seq<Sp<WordV>>,
    span: CodeSpan,
    call: bool,
    w: CompilerV,
    res: UiuaResult<()>,
) -> bool {
    exists|r: UiuaResult<()>| #[trigger]
        did_words(t, v, line, call, w, r) && res == traced_result(r, span)
}

/// All of some lines of generated code were compiled.
pub open spec fn lines_compiled<T: Toolchain>(
    t: &T,
    v: CompilerV,
    lines: Seq<Seq<Sp<WordV>>>,
    span: CodeSpan,
    call: bool,
    w: CompilerV,
) -> bool
    decreases lines.len(),
{
    if lines.len() == 0 {
        w == v
    } else {
        exists|mid: CompilerV| #[trigger]
            line_done(t, mid, lines.last(), span, call, w, Ok(())) && lines_compiled(
                t,
                v,
                lines.drop_last(),
                span,
                call,
                mid,
            )
    }
}

/// What became of some lines of generated code: all of them were compiled, or those before the
/// first that failed.
pub open spec fn lines_done<T: Toolchain>(
    t: &T,
    v: CompilerV,
    lines: Seq<Seq<Sp<WordV>>>,
    span: CodeSpan,
    call: bool,
    w: CompilerV,
    res: UiuaResult<()>,
) -> bool {
    match res {
        Ok(_) => lines_compiled(t, v, lines, span, call, w),
        Err(_) => exists|i: int, mid: CompilerV| #[trigger]
            line_done(t, mid, lines[i], span, call, w, res) && 0 <= i < lines.len()
                && lines_compiled(t, v, lines.take(i), span, call, mid),
    }
}

/// What became of one item of generated code.
pub open spec fn item_done<T: Toolchain>(
    t: &T,
    v: CompilerV,
    item: Item,
    span: CodeSpan,
    call: bool,
    w: CompilerV,
    res: UiuaResult<()>,
) -> bool {
    match item {
        Item::Words(lines) => lines_done(t, v, lines_view(lines@), span, call, w, res),
        Item::Binding(binding) => exists|r: UiuaResult<()>| #[trigger]
            did_binding(t, v, binding, w, r) && res == traced_result(r, span),
        Item::Import(import) => exists|r: UiuaResult<()>| #[trigger]
            did_import(t, v, import, w, r) && res == traced_result(r, span),
        Item::TestScope(_) => res is Ok && w == with_error(v, span, Message::TestScope),
    }
}

/// All of some items of generated code were compiled.
pub open spec fn items_compiled<T: Toolchain>(
    t: &T,
    v: CompilerV,
    items: Seq<Item>,
    span: CodeSpan,
    call: bool,
    w: CompilerV,
) -> bool
    decreases items.len(),
{
    if items.len() == 0 {
        w == v
    } else {
        exists|mid: CompilerV| #[trigger]
            item_done(t, mid, items.last(), span, call, w, Ok(())) && items_compiled(
                t,
                v,
                items.drop_last(),
                span,
                call,
                mid,
            )
    }
}

/// What became of some items of generated code: all of them were compiled, or those before the
/// first that failed.
pub open spec fn items_done<T: Toolchain>(
    t: &T,
    v: CompilerV,
    items: Seq<Item>,
    span: CodeSpan,
    call: bool,
    w: CompilerV,
    res: UiuaResult<()>,
) -> bool {
    match res {
        Ok(_) => items_compiled(t, v, items, span, call, w),
        Err(_) => exists|i: int, mid: CompilerV| #[trigger]
            item_done(t, mid, items[i], span, call, w, res) && 0 <= i < items.len()
                && items_compiled(t, v, items.take(i), span, call, mid),
    }
}

/// The error for generated code with syntax errors in it.
pub open spec fn is_syntax_failure(
    res: UiuaResult<()>,
    errors: Seq<ParseError>,
    inputs: Seq<String>,
    span: CodeSpan,
) -> bool {
    &&& res matches Err(UiuaError::Traced { error, span: at })
    &&& at == span
    &&& *error matches UiuaError::Parse { errors: found, inputs: given }
    &&& found@ == errors
    &&& given@ == inputs
}

/// What `quote` did.
pub open spec fn quoted<T: Toolchain>(
    t: &T,
    v: CompilerV,
    code: Seq<char>,
    span: CodeSpan,
    call: bool,
    w: CompilerV,
    res: UiuaResult<()>,
) -> bool {
    exists|out: (crate::assembly::Inputs, Vec<Item>, Vec<ParseError>)| #[trigger]
        did_parse(t, code, InputSrc::Macro(Box::new(span)), v.assembly.inputs, out) && {
            let parsed = with_inputs(v, out.0@);
            if out.2@.len() > 0 {
                w == parsed && is_syntax_failure(res, out.2@, out.0@, span)
            } else {
                items_done(t, parsed, out.1@, span, call, w, res)
            }
        }
}

/// Whatever goes wrong with generated code is attributed to the use of the macro that made it.
pub proof fn law_errors_attributed<T: Toolchain>(
    t: &T,
    v: CompilerV,
    code: Seq<char>,
    span: CodeSpan,
    call: bool,
    w: CompilerV,
    res: UiuaResult<()>,
)
    requires
        quoted(t, v, code, span, call, w, res),
    ensures
        res matches Err(e) ==> (e matches UiuaError::Traced { error, span: at } && at == span),
{
}

impl Compiler {
    fn quote_lines<T: Toolchain>(
        &mut self,
        t: &T,
        lines: &Vec<Vec<Sp<Word>>>,
        span: &CodeSpan,
        call: bool,
    ) -> (res: UiuaResult<()>)
        requires
            orderly(t),
        ensures
            lines_done(t, old(self)@, lines_view(lines@), *span, call, final(self)@, res),
            place_kept(old(self)@, final(self)@, res is Ok),
    {
        let ghost v = self@;
        let ghost all = lines_view(lines@);
        for i in 0..lines.len()
            invariant
                orderly(t),
                v == old(self)@,
                all == lines_view(lines@),
                lines_compiled(t, v, all.take(i as int), *span, call, self@),
                place_kept(v, self@, true),
        {
            let ghost mid = self@;
            match self.do_words(t, &lines[i], call) {
                Ok(done) => {
                    proof {
                        assert(done == ());
                        lemma_kept_on(v, mid, self@, true);
                        assert(all.take(i + 1).drop_last() =~= all.take(i as int));
                        assert(did_words(t, mid, all[i as int], call, self@, Ok(())));
                        let line = all.take(i + 1).last();
                        assert(line_done(t, mid, line, *span, call, self@, Ok(())));
                    }
                },
                Err(e) => {
                    let res: UiuaResult<()> = Err(e.trace_macro(span.clone()));
                    proof {
                        lemma_kept_on(v, mid, self@, false);
                        assert(did_words(t, mid, all[i as int], call, self@, Err(e)));
                        assert(line_done(t, mid, all[i as int], *span, call, self@, res));
                    }
                    return res;
                },
            }
        }
        assert(all.take(all.len() as int) =~= all);
        Ok(())
    }

    fn quote_item<T: Toolchain>(&mut self, t: &T, item: &Item, span: &CodeSpan, call: bool) -> (res:
        UiuaResult<()>)
        requires
            orderly(t),
        ensures
            item_done(t, old(self)@, *item, *span, call, final(self)@, res),
            place_kept(old(self)@, final(self)@, res is Ok),
    {
        let ghost v = self@;
        match item {
            Item::Words(lines) => self.quote_lines(t, lines, span, call),
            Item::Binding(binding) => match self.do_binding(t, binding) {
                Ok(done) => {
                    assert(done == ());
                    assert(did_binding(t, v, *binding, self@, Ok(())));
                    Ok(())
                },
                Err(e) => {
                    assert(did_binding(t, v, *binding, self@, Err(e)));
                    Err(e.trace_macro(span.clone()))
                },
            },
            Item::Import(import) => match self.do_import(t, import) {
                Ok(done) => {
                    assert(done == ());
                    assert(did_import(t, v, *import, self@, Ok(())));
                    Ok(())
                },
                Err(e) => {
                    assert(did_import(t, v, *import, self@, Err(e)));
                    Err(e.trace_macro(span.clone()))
                },
            },
            Item::TestScope(_) => {
                self.add_error(span.clone(), Message::TestScope);
                Ok(())
            },
        }
    }

    /// Compiles code that was made by the macro that was used at a place. The text becomes one of
    /// the inputs.
    pub fn quote<T: Toolchain>(&mut self, t: &T, code: &str, span: &CodeSpan, call: bool) -> (res:
        UiuaResult<()>)
        requires
            orderly(t),
        ensures
            quoted(t, old(self)@, code@, *span, call, final(self)@, res),
            place_kept(old(self)@, final(self)@, res is Ok),
    {
        let ghost v = self@;
        let mut inputs = crate::assembly::Inputs { strings: Vec::new() };
        std::mem::swap(&mut inputs, &mut self.assembly.inputs);
        let out = t.parse(code, InputSrc::Macro(Box::new(span.clone())), inputs);
        assert(did_parse(t, code@, InputSrc::Macro(Box::new(*span)), v.assembly.inputs, out));
        let ghost out_view = out;
        let (inputs, items, errors) = out;
        self.assembly.inputs = inputs;
        let ghost parsed = self@;
        proof {
            assert(parsed =~= with_inputs(v, out_view.0@));
            lemma_kept_aside(v, v, parsed, true);
        }
        if errors.len() > 0 {
            let inputs = Rc::new(self.assembly.inputs.clone());
            let error = UiuaError::Parse { errors: Rc::new(errors), inputs };
            return Err(error.trace_macro(span.clone()));
        }
        for i in 0..items.len()
            invariant
                orderly(t),
                v == old(self)@,
                place_kept(v, parsed, true),
                items@ == out_view.1@,
                out_view.2@.len() == 0,
                parsed == with_inputs(v, out_view.0@),
                did_parse(t, code@, InputSrc::Macro(Box::new(*span)), v.assembly.inputs, out_view),
                items_compiled(t, parsed, items@.take(i as int), *span, call, self@),
                place_kept(v, self@, true),
        {
            let ghost mid = self@;
            let res = self.quote_item(t, &items[i], span, call);
            proof {
                lemma_kept_on(v, mid, self@, res is Ok);
            }
            match res {
                Ok(done) => {
                    proof {
                        assert(done == ());
                        assert(items@.take(i + 1).drop_last() =~= items@.take(i as int));
                        assert(item_done(
                            t,
                            mid,
                            items@.take(i + 1).last(),
                            *span,
                            call,
                            self@,
                            Ok(()),
                        ));
                    }
                },
                Err(e) => {
                    assert(item_done(t, mid, items@[i as int], *span, call, self@, res));
                    assert(items_done(t, parsed, items@, *span, call, self@, res));
                    return Err(e);
                },
            }
        }
        assert(items@.take(items@.len() as int) =~= items@);
        Ok(())
    }
}

} // verus!
