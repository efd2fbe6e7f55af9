//! What the modifiers that go into arrays, name values and look at code come to, from their
//! operands to the code.
use crate::arrays::{
    content_reduced, each_dropped, each_message, each_of_function, each_of_primitive,
    function_handed, table_noted,
};
use crate::assembly::AssemblyV;
use crate::codegen::content_code;
use crate::compiler::{
    finished, next_function, next_span, with_body, with_diagnostic, with_span, CompilerV,
};
use crate::effects::{has_effect, law_content_signature};
use crate::inline::form_compiled;
use crate::instr::{Function, Instr};
use crate::meaning::{acts, law_content_meaning, unboxes, Meaning, Others};
use crate::message::{Diagnostic, DiagnosticKind, Message, UiuaResult};
use crate::outcome::{comes_to, fits, is_function, is_span, lemma_finished, only_code_differs};
use crate::prim::{ImplPrimitive, Primitive, Signature};
use crate::span::CodeSpan;
use crate::stack_laws::Given;
use crate::toolchain::{
    did_compile_operand_word, did_instrs_as_flipped_primitive, did_is_pervasive, did_prim_text,
    Toolchain,
};
use crate::value::Value;
use crate::word::{code_words, FunctionId, ModifiedV, ModifierV, WordV};
use vstd::prelude::*;

verus! {

/// A compiler that only has some more code in its assembly, where the body of a function goes.
pub open spec fn body_placed(u: CompilerV, code: Seq<Instr>) -> CompilerV {
    CompilerV { assembly: AssemblyV { instrs: u.assembly.instrs + code, ..u.assembly }, ..u }
}

/// A compiler came from another by making a function from some code, at one place, and handing it
/// to an instruction. The modifier that does so is at another place and has its own signature.
pub open spec fn handed(
    u: CompilerV,
    w: CompilerV,
    place: CodeSpan,
    code: Seq<Instr>,
    sig: Signature,
    instr: Instr,
    span: CodeSpan,
    call: bool,
    whole_sig: Signature,
) -> bool {
    exists|f: Function|
        {
            &&& #[trigger] is_function(w, f, sig, code)
            &&& f.id == FunctionId::Anonymous(place)
            &&& comes_to(
                body_placed(u, code),
                w,
                span,
                call,
                whole_sig,
                seq![Instr::PushFunc(f), instr],
            )
            &&& only_code_differs(u, w)
        }
}

proof fn lemma_handed(
    v: CompilerV,
    place: CodeSpan,
    code: Seq<Instr>,
    sig: Signature,
    instr: Instr,
    span: CodeSpan,
    call: bool,
    whole_sig: Signature,
)
    requires
        fits(function_handed(v, place, code, sig, instr, span, call, whole_sig)),
    ensures
        handed(
            v,
            function_handed(v, place, code, sig, instr, span, call, whole_sig),
            place,
            code,
            sig,
            instr,
            span,
            call,
            whole_sig,
        ),
        is_span(
            function_handed(v, place, code, sig, instr, span, call, whole_sig),
            next_span(v),
            span,
        ),
{
    let w = function_handed(v, place, code, sig, instr, span, call, whole_sig);
    let f = next_function(v, FunctionId::Anonymous(place), sig, code);
    let placed = with_span(with_body(v, code), span);
    let given = seq![Instr::PushFunc(f), instr];
    lemma_finished(placed, span, call, whole_sig, given);
    let n = v.assembly.instrs.len() as int;
    assert(w.assembly.instrs.len() >= n + code.len());
    assert(w.assembly.instrs.subrange(n, n + code.len()) =~= code);
    assert(is_function(w, f, sig, code));
    assert(comes_to(body_placed(v, code), w, span, call, whole_sig, given));
}

/// A table compiles its operand and hands it, as a function with the code and the signature of the
/// operand, to the instruction of the table. It has the signature of its operand itself. Advice is
/// given where that has fewer than two arguments.
pub proof fn law_table_compiled<T: Toolchain>(
    t: &T,
    v: CompilerV,
    m: ModifiedV,
    call: bool,
    w: CompilerV,
    res: UiuaResult<()>,
)
    requires
        fits(w),
        form_compiled(t, v, Primitive::Table, m, call, w, res),
    ensures
        ({
            let word = code_words(m.operands)[0];
            match res {
                Err(e) => did_compile_operand_word(t, v, word, w, Err(e)),
                Ok(_) => exists|u: CompilerV, code: Vec<Instr>, sig: Signature, n: usize|
                    #![trigger
                        did_compile_operand_word(t, v, word, u, Ok((code, sig))),
                        is_span(w, n, m.modifier.span)
                    ]
                    {
                        &&& did_compile_operand_word(t, v, word, u, Ok((code, sig)))
                        &&& is_span(w, n, m.modifier.span)
                        &&& handed(
                            u,
                            w,
                            word.span,
                            code@,
                            sig,
                            Instr::Prim(Primitive::Table, n),
                            m.modifier.span,
                            call,
                            sig,
                        )
                        &&& table_advice(t, u, sig, word.span, w)
                    },
            }
        }),
{
    let word = code_words(m.operands)[0];
    let span = m.modifier.span;
    if res is Ok {
        let (u, out) = choose|u: CompilerV, out: UiuaResult<(Vec<Instr>, Signature)>| #[trigger]
            did_compile_operand_word(t, v, word, u, out) && match out {
                Err(_) => false,
                Ok((code, sig)) => exists|noted: CompilerV| #[trigger]
                    table_noted(t, u, sig, word.span, noted) && w == function_handed(
                        noted,
                        word.span,
                        code@,
                        sig,
                        Instr::Prim(Primitive::Table, next_span(noted)),
                        span,
                        call,
                        sig,
                    ),
            };
        let (code, sig) = out->Ok_0;
        let noted = choose|noted: CompilerV| #[trigger]
            table_noted(t, u, sig, word.span, noted) && w == function_handed(
                noted,
                word.span,
                code@,
                sig,
                Instr::Prim(Primitive::Table, next_span(noted)),
                span,
                call,
                sig,
            );
        let instr = Instr::Prim(Primitive::Table, next_span(noted));
        if sig.args == 0 {
            let table = choose|table: String| #[trigger]
                did_prim_text(t, Primitive::Table, table) && noted == with_diagnostic(
                    u,
                    Message::TableNoArguments { table },
                    DiagnosticKind::Advice,
                    word.span,
                );
            assert(table_message(t, sig.args, Message::TableNoArguments { table }));
        } else if sig.args == 1 {
            let (table, rows) = choose|table: String, rows: String| #[trigger]
                did_prim_text(t, Primitive::Table, table) && #[trigger] did_prim_text(
                    t,
                    Primitive::Rows,
                    rows,
                ) && noted == with_diagnostic(
                    u,
                    Message::TableOneArgument { table, rows },
                    DiagnosticKind::Advice,
                    word.span,
                );
            assert(table_message(t, sig.args, Message::TableOneArgument { table, rows }));
        }
        assert(table_advice(t, u, sig, word.span, w));
        lemma_handed(noted, word.span, code@, sig, instr, span, call, sig);
        let f = choose|f: Function|
            {
                &&& #[trigger] is_function(w, f, sig, code@)
                &&& f.id == FunctionId::Anonymous(word.span)
                &&& comes_to(
                    body_placed(noted, code@),
                    w,
                    span,
                    call,
                    sig,
                    seq![Instr::PushFunc(f), instr],
                )
            };
        assert(comes_to(
            body_placed(u, code@),
            w,
            span,
            call,
            sig,
            seq![Instr::PushFunc(f), instr],
        ));
        assert(handed(u, w, word.span, code@, sig, instr, span, call, sig));
        assert(did_compile_operand_word(t, v, word, u, Ok((code, sig))));
        assert(is_span(w, next_span(noted), span));
    }
}

/// The advice about a table: one piece of it where its function has no argument or one, else none.
pub open spec fn table_advice<T: Toolchain>(
    t: &T,
    u: CompilerV,
    sig: Signature,
    place: CodeSpan,
    w: CompilerV,
) -> bool {
    if sig.args >= 2 {
        w.diagnostics == u.diagnostics
    } else {
        exists|message: Message|
            #![trigger table_message(t, sig.args, message)]
            table_message(t, sig.args, message) && w.diagnostics == u.diagnostics.push(
                Diagnostic { message, kind: DiagnosticKind::Advice, span: place },
            )
    }
}

/// What is said of a table whose function has no argument or one: in the latter case, rows is named
/// as what to use.
pub open spec fn table_message<T: Toolchain>(t: &T, args: usize, message: Message) -> bool {
    match message {
        Message::TableNoArguments { table } => args == 0 && did_prim_text(
            t,
            Primitive::Table,
            table,
        ),
        Message::TableOneArgument { table, rows } => args == 1 && did_prim_text(
            t,
            Primitive::Table,
            table,
        ) && did_prim_text(t, Primitive::Rows, rows),
        _ => false,
    }
}

/// A reduce of a content compiles the function in the content and hands it, with its code and its
/// signature, to the instruction that reduces what is in boxes. That takes one value and leaves
/// one.
pub proof fn law_reduced_content_compiled<T: Toolchain>(
    t: &T,
    v: CompilerV,
    m: ModifiedV,
    inner: ModifiedV,
    call: bool,
    w: CompilerV,
    res: UiuaResult<()>,
)
    requires
        fits(w),
        code_words(m.operands)[0].value == WordV::Modified(Box::new(inner)),
        inner.modifier.value == ModifierV::Primitive(Primitive::Content),
        code_words(inner.operands).len() == 1,
        form_compiled(t, v, Primitive::Reduce, m, call, w, res),
    ensures
        ({
            let word = code_words(inner.operands)[0];
            match res {
                Err(e) => did_compile_operand_word(t, v, word, w, Err(e)),
                Ok(_) => exists|u: CompilerV, code: Vec<Instr>, sig: Signature, n: usize|
                    #![trigger
                        did_compile_operand_word(t, v, word, u, Ok((code, sig))),
                        is_span(w, n, m.modifier.span)
                    ]
                    {
                        &&& did_compile_operand_word(t, v, word, u, Ok((code, sig)))
                        &&& is_span(w, n, m.modifier.span)
                        &&& handed(
                            u,
                            w,
                            inner.modifier.span,
                            code@,
                            sig,
                            Instr::ImplPrim(ImplPrimitive::ReduceContent, n),
                            m.modifier.span,
                            call,
                            Signature { args: 1, outputs: 1 },
                        )
                        &&& w.diagnostics == u.diagnostics
                    },
            }
        }),
{
    let word = code_words(inner.operands)[0];
    let span = m.modifier.span;
    assert(content_reduced(t, v, m, inner, call, w, res));
    if res is Ok {
        let one = Signature { args: 1, outputs: 1 };
        let (u, out) = choose|u: CompilerV, out: UiuaResult<(Vec<Instr>, Signature)>| #[trigger]
            did_compile_operand_word(t, v, word, u, out) && match out {
                Err(_) => false,
                Ok((code, sig)) => w == function_handed(
                    u,
                    inner.modifier.span,
                    code@,
                    sig,
                    Instr::ImplPrim(ImplPrimitive::ReduceContent, next_span(u)),
                    span,
                    call,
                    one,
                ),
            };
        let (code, sig) = out->Ok_0;
        let instr = Instr::ImplPrim(ImplPrimitive::ReduceContent, next_span(u));
        lemma_handed(u, inner.modifier.span, code@, sig, instr, span, call, one);
        assert(did_compile_operand_word(t, v, word, u, Ok((code, sig))));
    }
}

/// What is said of an each that does nothing: it names the primitive where the code of its function
/// is one that goes into each element.
pub open spec fn each_advice<T: Toolchain>(
    t: &T,
    code: Seq<Instr>,
    assembly: AssemblyV,
    message: Message,
) -> bool {
    exists|found: Option<(Primitive, bool)>, each: String|
        #![trigger
            did_instrs_as_flipped_primitive(t, code, assembly, found),
            did_prim_text(t, Primitive::Each, each)
        ]
        {
            &&& did_instrs_as_flipped_primitive(t, code, assembly, found)
            &&& did_prim_text(t, Primitive::Each, each)
            &&& match found {
                Some((prim, _)) => exists|pervasive: bool| #[trigger]
                    did_is_pervasive(t, prim, pervasive) && if pervasive {
                        exists|text: String| #[trigger]
                            did_prim_text(t, prim, text) && message == (Message::EachOfPervasive {
                                prim: text,
                                each,
                            })
                    } else {
                        message == (Message::EachPervasive { each })
                    },
                None => message == (Message::EachPervasive { each }),
            }
        }
}

/// An each of a function that goes into each element anyway comes to what the function itself
/// comes to, with one piece of advice.
pub proof fn law_each_compiled<T: Toolchain>(
    t: &T,
    v: CompilerV,
    m: ModifiedV,
    call: bool,
    w: CompilerV,
    res: UiuaResult<()>,
)
    requires
        fits(w),
        form_compiled(t, v, Primitive::Each, m, call, w, res),
    ensures
        ({
            let word = code_words(m.operands)[0];
            match res {
                Err(e) => did_compile_operand_word(t, v, word, w, Err(e)),
                Ok(_) => exists|u: CompilerV, code: Vec<Instr>, sig: Signature, message: Message|
                    #![trigger
                        did_compile_operand_word(t, v, word, u, Ok((code, sig))),
                        each_advice(t, code@, u.assembly, message)
                    ]
                    {
                        &&& did_compile_operand_word(t, v, word, u, Ok((code, sig)))
                        &&& comes_to(u, w, m.modifier.span, call, sig, code@)
                        &&& only_code_differs(u, w)
                        &&& each_advice(t, code@, u.assembly, message)
                        &&& w.diagnostics == u.diagnostics.push(
                            Diagnostic {
                                message,
                                kind: DiagnosticKind::Advice,
                                span: m.modifier.span,
                            },
                        )
                    },
            }
        }),
{
    let word = code_words(m.operands)[0];
    let span = m.modifier.span;
    assert(each_dropped(t, v, m, call, w, res));
    if res is Ok {
        let (u, out) = choose|u: CompilerV, out: UiuaResult<(Vec<Instr>, Signature)>| #[trigger]
            did_compile_operand_word(t, v, word, u, out) && match out {
                Err(_) => false,
                Ok((code, sig)) => exists|message: Message| #[trigger]
                    each_message(t, code@, u, message) && w == finished(
                        with_diagnostic(u, message, DiagnosticKind::Advice, span),
                        span,
                        call,
                        sig,
                        code@,
                    ),
            };
        let (code, sig) = out->Ok_0;
        let message = choose|message: Message| #[trigger]
            each_message(t, code@, u, message) && w == finished(
                with_diagnostic(u, message, DiagnosticKind::Advice, span),
                span,
                call,
                sig,
                code@,
            );
        let noted = with_diagnostic(u, message, DiagnosticKind::Advice, span);
        lemma_finished(noted, span, call, sig, code@);
        lemma_each_advice(t, code@, u, message);
        assert(did_compile_operand_word(t, v, word, u, Ok((code, sig))));
        assert(comes_to(u, w, span, call, sig, code@));
    }
}

proof fn lemma_each_advice<T: Toolchain>(t: &T, code: Seq<Instr>, u: CompilerV, message: Message)
    requires
        each_message(t, code, u, message),
    ensures
        each_advice(t, code, u.assembly, message),
{
    let found = choose|found: Option<(Primitive, bool)>| #[trigger]
        did_instrs_as_flipped_primitive(t, code, u.assembly, found) && match found {
            Some((prim, _)) => exists|pervasive: bool| #[trigger]
                did_is_pervasive(t, prim, pervasive) && if pervasive {
                    each_of_primitive(t, prim, message)
                } else {
                    each_of_function(t, message)
                },
            None => each_of_function(t, message),
        };
    let each = match message {
        Message::EachOfPervasive { prim, each } => each,
        _ => message->EachPervasive_each,
    };
    assert(did_prim_text(t, Primitive::Each, each));
    if let Some((prim, _)) = found {
        let pervasive = choose|pervasive: bool| #[trigger]
            did_is_pervasive(t, prim, pervasive) && if pervasive {
                each_of_primitive(t, prim, message)
            } else {
                each_of_function(t, message)
            };
        assert(did_is_pervasive(t, prim, pervasive));
        if pervasive {
            assert(did_prim_text(t, prim, message->EachOfPervasive_prim));
        }
    }
}

/// A content compiles its operand and comes to code that gives it what is in the boxes of its
/// arguments. It has the signature of its operand.
pub proof fn law_content_compiled<T: Toolchain>(
    t: &T,
    v: CompilerV,
    m: ModifiedV,
    call: bool,
    w: CompilerV,
    res: UiuaResult<()>,
    others: Others,
    f: Meaning,
    unbox: spec_fn(Value) -> Value,
    given: Given,
)
    requires
        fits(w),
        form_compiled(t, v, Primitive::Content, m, call, w, res),
    ensures
        ({
            let word = code_words(m.operands)[0];
            match res {
                Err(e) => did_compile_operand_word(t, v, word, w, Err(e)),
                Ok(_) => exists|u: CompilerV, code: Vec<Instr>, sig: Signature, n: usize|
                    #![trigger
                        did_compile_operand_word(t, v, word, u, Ok((code, sig))),
                        is_span(w, n, m.modifier.span)
                    ]
                    {
                        let whole = content_code(code@, sig, n);
                        &&& did_compile_operand_word(t, v, word, u, Ok((code, sig)))
                        &&& is_span(w, n, m.modifier.span)
                        &&& comes_to(u, w, m.modifier.span, call, sig, whole)
                        &&& only_code_differs(u, w)
                        &&& w.diagnostics == u.diagnostics
                        &&& has_effect(given, code@, sig) ==> has_effect(given, whole, sig)
                        &&& acts(others, code@, sig.args as nat, f) && unboxes(others, n, unbox)
                            ==> acts(
                            others,
                            whole,
                            sig.args as nat,
                            |x: Seq<Value>| f(x.map_values(unbox)),
                        )
                    },
            }
        }),
{
    let word = code_words(m.operands)[0];
    let span = m.modifier.span;
    if res is Ok {
        let (u, out) = choose|u: CompilerV, out: UiuaResult<(Vec<Instr>, Signature)>| #[trigger]
            did_compile_operand_word(t, v, word, u, out) && match out {
                Err(_) => false,
                Ok((code, sig)) => w == finished(
                    with_span(u, span),
                    span,
                    call,
                    sig,
                    content_code(code@, sig, next_span(u)),
                ),
            };
        let (code, sig) = out->Ok_0;
        let n = next_span(u);
        lemma_finished(with_span(u, span), span, call, sig, content_code(code@, sig, n));
        if has_effect(given, code@, sig) {
            law_content_signature(given, code@, sig, n);
        }
        if acts(others, code@, sig.args as nat, f) && unboxes(others, n, unbox) {
            law_content_meaning(others, code@, sig, f, unbox, n);
        }
        assert(did_compile_operand_word(t, v, word, u, Ok((code, sig))));
        assert(is_span(w, n, span));
    }
}

} // verus!
