//! What a modifier leaves behind, as it can be seen in the compiler: the code that was added, and
//! the functions that it pushes.
use crate::assembly::AssemblyV;
use crate::compiler::{
    emitted, finished, next_function, with_body, with_code, with_function, with_instr, CompilerV,
};
use crate::instr::{Function, Instr};
use crate::prim::Signature;
use crate::span::{CodeSpan, Span};
use crate::word::FunctionId;
use vstd::prelude::*;

verus! {

/// The code of the function that is being compiled, or of the program where none is.
pub open spec fn current_code(v: CompilerV) -> Seq<Instr> {
    if v.frames.len() == 0 {
        v.assembly.instrs
    } else {
        v.frames.last()
    }
}

/// The lists of a compiler are no longer than lists can be.
pub open spec fn fits(v: CompilerV) -> bool {
    v.assembly.instrs.len() <= usize::MAX && v.assembly.spans.len() <= usize::MAX
}

/// A number stands for a place.
pub open spec fn is_span(v: CompilerV, n: usize, span: CodeSpan) -> bool {
    n < v.assembly.spans.len() && v.assembly.spans[n as int] == Span::Code(span)
}

/// A function has a signature, and the given code stands where it says that its body is.
pub open spec fn is_function(v: CompilerV, f: Function, sig: Signature, code: Seq<Instr>) -> bool {
    &&& f.sig == sig
    &&& f.slice.start + f.slice.len <= v.assembly.instrs.len()
    &&& v.assembly.instrs.subrange(f.slice.start as int, f.slice.start + f.slice.len) == code
}

/// From one compiler to the other, code was added to the function that is being compiled.
pub open spec fn code_added(u: CompilerV, w: CompilerV, code: Seq<Instr>) -> bool {
    &&& w.frames.len() == u.frames.len()
    &&& current_code(w) == current_code(u) + code
    &&& u.frames.len() > 0 ==> w.assembly.instrs == u.assembly.instrs
}

/// From one compiler to the other, a function was made from some code and is pushed.
pub open spec fn function_added(
    u: CompilerV,
    w: CompilerV,
    id: FunctionId,
    sig: Signature,
    code: Seq<Instr>,
) -> bool {
    &&& w.frames.len() == u.frames.len()
    &&& current_code(w).len() > 0
    &&& current_code(w).last() matches Instr::PushFunc(f)
    &&& f.id == id
    &&& is_function(w, f, sig, code)
    &&& if u.frames.len() == 0 {
        w.assembly.instrs.drop_last() == u.assembly.instrs + code
    } else {
        w.frames.last().drop_last() == u.frames.last() && w.assembly.instrs == u.assembly.instrs
            + code
    }
}

/// What a modifier at a place comes to: its code where it is called, else a function of that code
/// and signature.
pub open spec fn comes_to(
    u: CompilerV,
    w: CompilerV,
    span: CodeSpan,
    call: bool,
    sig: Signature,
    code: Seq<Instr>,
) -> bool {
    if call {
        code_added(u, w, code)
    } else {
        function_added(u, w, FunctionId::Anonymous(span), sig, code)
    }
}

/// The same, where code that is called has its signature stated around it.
pub open spec fn comes_to_stated(
    u: CompilerV,
    w: CompilerV,
    span: CodeSpan,
    call: bool,
    sig: Signature,
    code: Seq<Instr>,
) -> bool {
    if call {
        code_added(u, w, seq![Instr::PushSig(sig)] + code + seq![Instr::PopSig])
    } else {
        function_added(u, w, FunctionId::Anonymous(span), sig, code)
    }
}

/// One compiler only differs from the other in code, spans and diagnostics: the functions around
/// the current one are as they were, spans have only been added, and everything else is as it was.
pub open spec fn only_code_differs(u: CompilerV, w: CompilerV) -> bool {
    &&& w.frames.len() == u.frames.len()
    &&& forall|i: int| 0 <= i < u.frames.len() - 1 ==> w.frames[i] == u.frames[i]
    &&& w.assembly.spans.len() >= u.assembly.spans.len()
    &&& forall|i: int|
        0 <= i < u.assembly.spans.len() ==> w.assembly.spans[i] == u.assembly.spans[i]
    &&& w == (CompilerV {
        assembly: AssemblyV {
            instrs: w.assembly.instrs,
            spans: w.assembly.spans,
            ..u.assembly
        },
        frames: w.frames,
        diagnostics: w.diagnostics,
        ..u
    })
}

/// The code that was added last is all there.
pub proof fn lemma_code_added(v: CompilerV, code: Seq<Instr>)
    ensures
        code_added(v, with_code(v, code), code),
        only_code_differs(v, with_code(v, code)),
{
}

/// The function that was made last is there, whatever it is called.
pub proof fn lemma_function_pushed(v: CompilerV, id: FunctionId, sig: Signature, code: Seq<Instr>)
    requires
        fits(with_instr(with_body(v, code), Instr::PushFunc(next_function(v, id, sig, code)))),
    ensures
        ({
            let w = with_instr(
                with_body(v, code),
                Instr::PushFunc(next_function(v, id, sig, code)),
            );
            function_added(v, w, id, sig, code) && only_code_differs(v, w)
        }),
{
    let w = with_instr(with_body(v, code), Instr::PushFunc(next_function(v, id, sig, code)));
    let n = v.assembly.instrs.len() as int;
    assert(w.assembly.instrs.subrange(n, n + code.len()) =~= code);
    if v.frames.len() == 0 {
        assert(w.assembly.instrs.drop_last() =~= v.assembly.instrs + code);
    } else {
        assert(w.frames.last().drop_last() =~= v.frames.last());
    }
}

/// The anonymous function that was made last is there.
pub proof fn lemma_function_added(v: CompilerV, span: CodeSpan, sig: Signature, code: Seq<Instr>)
    requires
        fits(with_function(v, span, sig, code)),
    ensures
        function_added(
            v,
            with_function(v, span, sig, code),
            FunctionId::Anonymous(span),
            sig,
            code,
        ),
        only_code_differs(v, with_function(v, span, sig, code)),
{
    lemma_function_pushed(v, FunctionId::Anonymous(span), sig, code);
}

/// What has been finished is there.
pub proof fn lemma_finished(
    v: CompilerV,
    span: CodeSpan,
    call: bool,
    sig: Signature,
    code: Seq<Instr>,
)
    requires
        fits(finished(v, span, call, sig, code)),
    ensures
        comes_to(v, finished(v, span, call, sig, code), span, call, sig, code),
        only_code_differs(v, finished(v, span, call, sig, code)),
{
    if call {
        lemma_code_added(v, code);
    } else {
        lemma_function_added(v, span, sig, code);
    }
}

/// What has been emitted is there.
pub proof fn lemma_emitted(
    v: CompilerV,
    span: CodeSpan,
    call: bool,
    sig: Signature,
    code: Seq<Instr>,
)
    requires
        fits(emitted(v, span, call, sig, code)),
    ensures
        comes_to_stated(v, emitted(v, span, call, sig, code), span, call, sig, code),
        only_code_differs(v, emitted(v, span, call, sig, code)),
{
    if call {
        lemma_code_added(v, seq![Instr::PushSig(sig)] + code + seq![Instr::PopSig]);
    } else {
        lemma_function_added(v, span, sig, code);
    }
}

} // verus!
