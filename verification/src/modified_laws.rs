//! What becomes of a modifier, depending on its operands and on what it is.
use crate::compiler::{with_code, CompilerV};
use crate::guard_laws::{lemma_parts_ended, parts_begun, parts_ended};
use crate::guarded::{pieces_begun, pieces_finished};
use crate::inline::{form_compiled, form_inlined, inlined};
use crate::instr::Instr;
use crate::macros::{array_macro_used, stack_macro_used};
use crate::message::{Message, UiuaError, UiuaResult};
use crate::modified::{
    completed, macro_compiled, macro_entered, macro_followed, macro_used, missing_count,
    modified_done, path_noted, plainly_compiled, MAX_MACRO_DEPTH,
};
use crate::names::LocalName;
use crate::outcome::{code_added, fits, lemma_code_added, only_code_differs};
use crate::pack::pack_of;
use crate::prim::Primitive;
use crate::span::{CodeSpan, Sp};
use crate::toolchain::{
    did_compile_words, did_handle_primitive_deprecation, did_handle_primitive_experimental,
    did_modifier_text, did_primitive, did_ref_local, did_sig_of, did_validate_local,
    did_words_look_pervasive, orderly, Toolchain,
};
use crate::word::{
    code_words, is_code, required_args, FunctionId, ModifiedV, ModifierV, RefComponent, RefV, WordV,
};
use vstd::prelude::*;

verus! {

/// A word is a function without anything in it, at a place.
pub open spec fn is_empty_function(word: Sp<WordV>, span: CodeSpan) -> bool {
    &&& word.span == span
    &&& word.value matches WordV::Func(func)
    &&& func.id == FunctionId::Anonymous(span)
    &&& func.signature is None
    &&& func.lines.len() == 0
    &&& !func.closed
}

/// A modifier has all operands of another one, in order, and after them empty functions at the
/// place of the modifier.
pub open spec fn empty_functions_added(m: ModifiedV, c: ModifiedV) -> bool {
    &&& c.modifier == m.modifier
    &&& c.operands.len() >= m.operands.len()
    &&& c.operands.take(m.operands.len() as int) == m.operands
    &&& forall|i: int|
        m.operands.len() <= i < c.operands.len() ==> is_empty_function(
            #[trigger] c.operands[i],
            m.modifier.span,
        )
}

/// The words that are code among some that all are.
proof fn lemma_all_code(words: Seq<Sp<WordV>>)
    requires
        forall|i: int| 0 <= i < words.len() ==> is_code((#[trigger] words[i]).value),
    ensures
        code_words(words) == words,
    decreases words.len(),
{
    reveal(Seq::filter);
    if words.len() > 0 {
        let rest = words.drop_last();
        assert forall|i: int| 0 <= i < rest.len() implies is_code((#[trigger] rest[i]).value) by {
            assert(rest[i] == words[i]);
        }
        lemma_all_code(rest);
        assert(is_code(words[words.len() - 1].value));
        assert(rest.push(words.last()) =~= words);
    } else {
        assert(code_words(words) =~= words);
    }
}

/// The same for operands to which others were added.
proof fn lemma_completed(m: ModifiedV)
    requires
        forall|i: int| 0 <= i < m.operands.len() ==> is_code((#[trigger] m.operands[i]).value),
        m.operands.len() <= required_args(m.modifier.value),
    ensures
        code_words(m.operands) == m.operands,
        code_words(completed(m).operands) == completed(m).operands,
        completed(m).operands.len() == required_args(m.modifier.value),
        empty_functions_added(m, completed(m)),
{
    let c = completed(m);
    lemma_all_code(m.operands);
    assert forall|i: int| 0 <= i < c.operands.len() implies is_code(
        (#[trigger] c.operands[i]).value,
    ) by {
        if i < m.operands.len() {
            assert(c.operands[i] == m.operands[i]);
        }
    }
    lemma_all_code(c.operands);
    assert(c.operands.take(m.operands.len() as int) =~= m.operands);
}

/// A modifier that has fewer operands than it takes, all of them code, comes to what it comes to
/// with an empty function in the place of each that is missing, after those that are there.
pub proof fn law_missing_operands_are_empty_functions<T: Toolchain>(
    t: &T,
    v: CompilerV,
    m: ModifiedV,
    c: ModifiedV,
    call: bool,
    w: CompilerV,
    res: UiuaResult<()>,
)
    requires
        forall|i: int| 0 <= i < m.operands.len() ==> is_code((#[trigger] m.operands[i]).value),
        m.operands.len() < required_args(m.modifier.value),
        pack_of(m) is None,
        empty_functions_added(m, c),
        c.operands.len() == required_args(m.modifier.value),
    ensures
        modified_done(t, v, m, call, w, res) == modified_done(t, v, c, call, w, res),
{
    let full = completed(m);
    lemma_completed(m);
    assert forall|i: int| 0 <= i < c.operands.len() implies c.operands[i] == full.operands[i] by {
        if i < m.operands.len() {
            assert(c.operands.take(m.operands.len() as int)[i] == m.operands[i]);
        } else {
            assert(is_empty_function(c.operands[i], m.modifier.span));
            assert(is_empty_function(full.operands[i], m.modifier.span));
            let func = c.operands[i].value->Func_0;
            assert(func.lines =~= full.operands[i].value->Func_0.lines);
        }
    }
    assert(c.operands =~= full.operands);
    assert(c == full);
    assert(missing_count(c) == 0);
    assert(completed(c).operands =~= c.operands);
    assert(completed(c) == c);
    let n = c.operands.len() - 1;
    assert(c.operands[n] == full.operands[n]);
    assert(pack_of(c) is None);
}

/// A modifier with more operands that are code than it takes is refused at its place, without a
/// trace in the compiler, with how many it takes and how many there are.
pub proof fn law_too_many_operands_refused<T: Toolchain>(
    t: &T,
    v: CompilerV,
    m: ModifiedV,
    call: bool,
    w: CompilerV,
    res: UiuaResult<()>,
)
    requires
        code_words(m.operands).len() > required_args(m.modifier.value),
        pack_of(m) is None,
        modified_done(t, v, m, call, w, res),
    ensures
        w == v,
        exists|text: String| #[trigger]
            did_modifier_text(t, m.modifier.value, text) && res == Err::<(), UiuaError>(
                UiuaError::Fatal {
                    span: m.modifier.span,
                    message: Message::OperandCount {
                        modifier: text,
                        required: required_args(m.modifier.value),
                        given: code_words(m.operands).len() as usize,
                    },
                },
            ),
{
}

/// A modifier with as many operands that are code as it takes comes to code of its own where it has
/// a form of its own. Else a primitive is compiled after its operands, and a macro is used.
pub proof fn law_form_first<T: Toolchain>(
    t: &T,
    v: CompilerV,
    m: ModifiedV,
    call: bool,
    w: CompilerV,
    res: UiuaResult<()>,
)
    requires
        code_words(m.operands).len() == required_args(m.modifier.value),
        pack_of(m) is None,
        modified_done(t, v, m, call, w, res),
    ensures
        exists|u: CompilerV, out: UiuaResult<bool>| #[trigger]
            inlined(t, v, m, call, u, out) && match out {
                Err(e) => w == u && res == Err::<(), UiuaError>(e),
                Ok(true) => w == u && res is Ok,
                Ok(false) => match m.modifier.value {
                    ModifierV::Primitive(prim) => plainly_compiled(t, u, prim, m, call, w, res),
                    ModifierV::Ref(r) => macro_compiled(t, u, r, m, call, w, res),
                },
            },
{
    assert(completed(m).operands =~= m.operands);
    assert(completed(m) == m);
}

/// Two steps that complain about a primitive at a place, one after the other.
pub open spec fn complained<T: Toolchain>(
    t: &T,
    u: CompilerV,
    prim: Primitive,
    span: CodeSpan,
    w: CompilerV,
) -> bool {
    exists|x: CompilerV| #[trigger]
        did_handle_primitive_experimental(t, u, prim, span, x) && did_handle_primitive_deprecation(
            t,
            x,
            prim,
            span,
            w,
        )
}

/// A modifier of its own form is compiled to that form, and then complained about where there is
/// reason to. What fails is the form.
pub proof fn law_inlined_is_its_form<T: Toolchain>(
    t: &T,
    v: CompilerV,
    m: ModifiedV,
    call: bool,
    w: CompilerV,
    res: UiuaResult<bool>,
)
    requires
        inlined(t, v, m, call, w, res),
    ensures
        match res {
            Ok(true) => m.modifier.value matches ModifierV::Primitive(prim) && exists|
                u: CompilerV,
                out: UiuaResult<()>,
            | #[trigger]
                form_compiled(t, v, prim, m, call, u, out) && out is Ok && complained(
                    t,
                    u,
                    prim,
                    m.modifier.span,
                    w,
                ),
            Ok(false) => w == v,
            Err(e) => m.modifier.value matches ModifierV::Primitive(prim) && form_compiled(
                t,
                v,
                prim,
                m,
                call,
                w,
                Err(e),
            ),
        },
{
    if let ModifierV::Primitive(prim) = m.modifier.value {
        if form_inlined(t, v, prim, m, call, w, res) {
            let (u, out) = choose|u: CompilerV, out: UiuaResult<()>| #[trigger]
                form_compiled(t, v, prim, m, call, u, out) && match out {
                    Err(e) => w == u && res == Err::<bool, UiuaError>(e),
                    Ok(_) => res == Ok::<bool, UiuaError>(true) && complained(
                        t,
                        u,
                        prim,
                        m.modifier.span,
                        w,
                    ),
                };
            assert(form_compiled(t, v, prim, m, call, u, out));
        }
    }
}

/// Which modifiers have no form of their own: macros, primitives that only take functions, a reduce
/// of anything but a content of one function, and an each whose function does not look as if it
/// goes into each element anyway.
pub proof fn law_without_a_form<T: Toolchain>(
    t: &T,
    v: CompilerV,
    m: ModifiedV,
    call: bool,
    w: CompilerV,
    res: UiuaResult<bool>,
)
    requires
        inlined(t, v, m, call, w, res),
    ensures
        m.modifier.value is Ref ==> res == Ok::<bool, UiuaError>(false),
        m.modifier.value matches ModifierV::Primitive(prim) ==> {
            &&& prim is Rows || prim is Other || prim is Identity || prim is Dup || prim is Pop
                || prim is Trace ==> res == Ok::<bool, UiuaError>(false)
            &&& res == Ok::<bool, UiuaError>(false) ==> {
                ||| prim is Rows || prim is Other || prim is Identity || prim is Dup || prim is Pop
                    || prim is Trace
                ||| prim is Each && did_words_look_pervasive(t, code_words(m.operands)[0], false)
                ||| prim is Reduce && !(code_words(m.operands)[0].value matches WordV::Modified(
                    inner,
                ) && inner.modifier.value == ModifierV::Primitive(Primitive::Content)
                    && code_words(inner.operands).len() == 1)
            }
            &&& prim is Each && res != Ok::<bool, UiuaError>(false) ==> did_words_look_pervasive(
                t,
                code_words(m.operands)[0],
                true,
            )
        },
{
    if let ModifierV::Primitive(prim) = m.modifier.value {
        if form_inlined(t, v, prim, m, call, w, res) {
            assert(res != Ok::<bool, UiuaError>(false));
        }
    }
}

/// A primitive without a form of its own has its operands compiled in order, each to a function,
/// and then comes itself, to be called on them. Where it is not called, all of that is a function
/// with the signature that its code has.
pub proof fn law_plain_compiled<T: Toolchain>(
    t: &T,
    v: CompilerV,
    prim: Primitive,
    m: ModifiedV,
    call: bool,
    w: CompilerV,
    res: UiuaResult<()>,
)
    requires
        fits(w),
        plainly_compiled(t, v, prim, m, call, w, res),
        res is Ok,
    ensures
        exists|u: CompilerV, code: Vec<Instr>, y: CompilerV, x: CompilerV, out: UiuaResult<()>|
            #![trigger
                did_compile_words(t, v, m.operands, false, u, Ok(code)),
                did_primitive(t, y, prim, m.modifier.span, true, x, out)
            ]
            {
                &&& did_compile_words(t, v, m.operands, false, u, Ok(code))
                &&& code_added(parts_begun(u, call), y, code@)
                &&& only_code_differs(parts_begun(u, call), y)
                &&& y.diagnostics == u.diagnostics
                &&& y.assembly.spans == u.assembly.spans
                &&& did_primitive(t, y, prim, m.modifier.span, true, x, out)
                &&& out is Ok
                &&& parts_ended(t, x, m.modifier.span, call, w)
            },
{
    let span = m.modifier.span;
    let (u, compiled) = choose|u: CompilerV, compiled: UiuaResult<Vec<Instr>>| #[trigger]
        did_compile_words(t, v, m.operands, false, u, compiled) && match compiled {
            Err(_) => false,
            Ok(code) => exists|x: CompilerV, out: UiuaResult<()>| #[trigger]
                did_primitive(
                    t,
                    with_code(pieces_begun(u, call), code@),
                    prim,
                    span,
                    true,
                    x,
                    out,
                ) && out is Ok && pieces_finished(t, x, span, call, w, res),
        };
    let code = compiled->Ok_0;
    let begun = parts_begun(u, call);
    assert(begun == pieces_begun(u, call));
    let y = with_code(begun, code@);
    let (x, out) = choose|x: CompilerV, out: UiuaResult<()>| #[trigger]
        did_primitive(t, y, prim, span, true, x, out) && out is Ok && pieces_finished(
            t,
            x,
            span,
            call,
            w,
            res,
        );
    lemma_code_added(begun, code@);
    lemma_parts_ended(t, x, span, call, w);
    assert(did_compile_words(t, v, m.operands, false, u, Ok(code)));
}

/// A macro that is used with success: its name was found and checked, what it refers to was noted,
/// it counted as one more macro that is being expanded meanwhile, and no more than the limit of
/// them were. Afterwards it does not count any more.
pub proof fn law_macro_counted_while_used<T: Toolchain>(
    t: &T,
    v: CompilerV,
    r: RefV,
    m: ModifiedV,
    call: bool,
    w: CompilerV,
    res: UiuaResult<()>,
)
    requires
        v.macro_depth < usize::MAX,
        orderly(t),
        macro_compiled(t, v, r, m, call, w, res),
        res is Ok,
    ensures
        exists|
            locals: Vec<LocalName>,
            local: LocalName,
            u: CompilerV,
            x: CompilerV,
            y: CompilerV,
            out: UiuaResult<()>,
        |
            #![trigger
                did_ref_local(t, v, r, Ok((locals, local))),
                did_validate_local(t, v, r.name.value, local, r.name.span, u),
                macro_used(t, x, r, local, m, call, y, out)
            ]
            {
                &&& did_ref_local(t, v, r, Ok((locals, local)))
                &&& did_validate_local(t, v, r.name.value, local, r.name.span, u)
                &&& x == (CompilerV {
                    references: x.references,
                    macro_depth: x.macro_depth,
                    ..u
                })
                &&& x.macro_depth == u.macro_depth + 1
                &&& x.macro_depth <= MAX_MACRO_DEPTH
                &&& (forall|i: int|
                    0 <= i < r.path.len() ==> (
                    #[trigger] r.path[i]).module.value@ != r.name.value@ || r.path[i].module.span
                        != r.name.span) ==> x.references.contains_pair(
                    (r.name.value@, r.name.span),
                    local.index,
                )
                &&& macro_used(t, x, r, local, m, call, y, out)
                &&& out is Ok
                &&& w == (CompilerV { macro_depth: w.macro_depth, ..y })
                &&& y.macro_depth > 0 ==> w.macro_depth == y.macro_depth - 1
            },
{
    let found = choose|found: UiuaResult<(Vec<LocalName>, LocalName)>| #[trigger]
        did_ref_local(t, v, r, found) && match found {
            Err(_) => false,
            Ok((locals, local)) => exists|u: CompilerV| #[trigger]
                did_validate_local(t, v, r.name.value, local, r.name.span, u) && macro_followed(
                    t,
                    macro_entered(u, r, locals@, local),
                    r,
                    local,
                    m,
                    call,
                    w,
                    res,
                ),
        };
    let (locals, local) = found->Ok_0;
    let u = choose|u: CompilerV| #[trigger]
        did_validate_local(t, v, r.name.value, local, r.name.span, u) && macro_followed(
            t,
            macro_entered(u, r, locals@, local),
            r,
            local,
            m,
            call,
            w,
            res,
        );
    let x = macro_entered(u, r, locals@, local);
    let (y, out) = choose|y: CompilerV, out: UiuaResult<()>| #[trigger]
        macro_used(t, x, r, local, m, call, y, out) && out is Ok && w == (CompilerV {
            macro_depth: (y.macro_depth - 1) as usize,
            ..y
        });
    assert(u.macro_depth == v.macro_depth) by {
        reveal(orderly);
    }
    let named = u.references.insert((r.name.value@, r.name.span), local.index);
    law_path_noted(named, r.path, locals@, (r.name.value@, r.name.span));
    assert(did_ref_local(t, v, r, Ok((locals, local))));
    assert(did_validate_local(t, v, r.name.value, local, r.name.span, u));
    assert(macro_used(t, x, r, local, m, call, y, out));
}

/// The modules of a path are noted, each with the local at the same position. What else was noted
/// stays: what is not a module of the path that there is a local for keeps what it refers to.
pub proof fn law_path_noted(
    references: Map<(Seq<char>, CodeSpan), usize>,
    path: Seq<RefComponent>,
    locals: Seq<LocalName>,
    key: (Seq<char>, CodeSpan),
)
    ensures
        ({
            let noted = path_noted(references, path, locals);
            &&& (forall|i: int|
                0 <= i < path.len() && i < locals.len() ==> ((
                #[trigger] path[i]).module.value@, path[i].module.span) != key) ==> (
            noted.contains_key(key) == references.contains_key(key) && (references.contains_key(key)
                ==> noted[key] == references[key]))
            &&& forall|i: int|
                0 <= i < path.len() && i < locals.len() && ((
                #[trigger] path[i]).module.value@, path[i].module.span) == key && (forall|j: int|
                    i < j < path.len() && j < locals.len() ==> ((
                    #[trigger] path[j]).module.value@, path[j].module.span) != key)
                    ==> noted.contains_pair(key, locals[i].index)
        }),
    decreases locals.len(),
{
    if locals.len() > 0 {
        let n = locals.len() - 1;
        law_path_noted(references, path, locals.drop_last(), key);
        let noted = path_noted(references, path, locals);
        if n < path.len() {
            assert(path[n] == path[n]);
        }
        assert forall|i: int|
            0 <= i < path.len() && i < locals.len() && ((
            #[trigger] path[i]).module.value@, path[i].module.span) == key && (forall|j: int|
                i < j < path.len() && j < locals.len() ==> ((
                #[trigger] path[j]).module.value@, path[j].module.span) != key) implies noted
            .contains_pair(key, locals[i].index) by {
            if i < n && n < path.len() {
                assert((path[n].module.value@, path[n].module.span) != key);
            }
        }
    }
}

/// Which macro a name stands for: one that is expanded word by word where the binding has one, else
/// one that is run, and else the name is refused at the place of the modifier.
pub proof fn law_macro_found<T: Toolchain>(
    t: &T,
    v: CompilerV,
    r: RefV,
    local: LocalName,
    m: ModifiedV,
    call: bool,
    w: CompilerV,
    res: UiuaResult<()>,
)
    requires
        macro_used(t, v, r, local, m, call, w, res),
    ensures
        v.stack_macros.contains_key(local.index) ==> stack_macro_used(
            t,
            v,
            r.name.value,
            v.stack_macros[local.index]@,
            m,
            call,
            w,
            res,
        ),
        !v.stack_macros.contains_key(local.index) && v.array_macros.contains_key(local.index)
            ==> array_macro_used(
            t,
            v,
            r.name.value,
            v.array_macros[local.index]@,
            m,
            call,
            w,
            res,
        ),
        !v.stack_macros.contains_key(local.index) && !v.array_macros.contains_key(local.index)
            ==> w == v && res == Err::<(), UiuaError>(
            UiuaError::Fatal {
                span: m.modifier.span,
                message: Message::MacroNotFound { name: r.name.value },
            },
        ),
{
}

/// A modifier that lacks operands and has words between them that are not code is refused, since
/// those words count then: with what it takes and with all words that there are together with what
/// it lacks.
pub proof fn law_layout_counts_where_operands_are_missing<T: Toolchain>(
    t: &T,
    v: CompilerV,
    m: ModifiedV,
    call: bool,
    w: CompilerV,
    res: UiuaResult<()>,
)
    requires
        code_words(m.operands).len() < m.operands.len(),
        code_words(m.operands).len() < required_args(m.modifier.value),
        m.operands.len() + required_args(m.modifier.value) <= usize::MAX,
        pack_of(m) is None,
        modified_done(t, v, m, call, w, res),
    ensures
        w == v,
        exists|text: String| #[trigger]
            did_modifier_text(t, m.modifier.value, text) && (res matches Err(
                UiuaError::Fatal { span, message },
            ) && span == m.modifier.span && (message matches Message::OperandCount {
                modifier,
                required,
                given,
            } && modifier == text && required == required_args(m.modifier.value) && given
                == m.operands.len() + (required_args(m.modifier.value) - code_words(
                m.operands,
            ).len()))),
{
}

/// Up to nineteen macros can be around one that is used: it is then used unless its name is
/// unknown, whatever comes of it. Where it fails, it still counts. With twenty around it, it is
/// refused.
pub proof fn law_twenty_macros_at_most<T: Toolchain>(
    t: &T,
    v: CompilerV,
    r: RefV,
    m: ModifiedV,
    call: bool,
    w: CompilerV,
    res: UiuaResult<()>,
)
    requires
        orderly(t),
        v.macro_depth < usize::MAX,
        macro_compiled(t, v, r, m, call, w, res),
    ensures
        ({
            ||| w == v && (res matches Err(e) && did_ref_local(t, v, r, Err(e)))
            ||| v.macro_depth >= 20 && res == Err::<(), UiuaError>(
                UiuaError::Fatal { span: m.modifier.span, message: Message::MacroTooDeep },
            ) && w.macro_depth == v.macro_depth + 1
            ||| v.macro_depth < 20 && exists|
                local: LocalName,
                x: CompilerV,
                y: CompilerV,
                out: UiuaResult<()>,
            | #[trigger]
                macro_used(t, x, r, local, m, call, y, out) && x.macro_depth == v.macro_depth + 1
                    && match out {
                    Err(e) => w == y && res == Err::<(), UiuaError>(e),
                    Ok(_) => res is Ok && w == (CompilerV {
                        macro_depth: (y.macro_depth - 1) as usize,
                        ..y
                    }),
                }
        }),
{
    reveal(orderly);
    let found = choose|found: UiuaResult<(Vec<LocalName>, LocalName)>| #[trigger]
        did_ref_local(t, v, r, found) && match found {
            Err(e) => w == v && res == Err::<(), UiuaError>(e),
            Ok((locals, local)) => exists|u: CompilerV| #[trigger]
                did_validate_local(t, v, r.name.value, local, r.name.span, u) && macro_followed(
                    t,
                    macro_entered(u, r, locals@, local),
                    r,
                    local,
                    m,
                    call,
                    w,
                    res,
                ),
        };
    if let Ok((locals, local)) = found {
        let u = choose|u: CompilerV| #[trigger]
            did_validate_local(t, v, r.name.value, local, r.name.span, u) && macro_followed(
                t,
                macro_entered(u, r, locals@, local),
                r,
                local,
                m,
                call,
                w,
                res,
            );
        let x = macro_entered(u, r, locals@, local);
        assert(u.macro_depth == v.macro_depth);
        if v.macro_depth < 20 {
            let (y, out) = choose|y: CompilerV, out: UiuaResult<()>| #[trigger]
                macro_used(t, x, r, local, m, call, y, out) && match out {
                    Err(e) => w == y && res == Err::<(), UiuaError>(e),
                    Ok(_) => res is Ok && w == (CompilerV {
                        macro_depth: (y.macro_depth - 1) as usize,
                        ..y
                    }),
                };
            assert(macro_used(t, x, r, local, m, call, y, out));
        }
    }
}

/// Where a primitive without a form of its own fails, its operands could not be compiled, it could
/// not be compiled itself after them, or the function that holds all has no signature.
pub proof fn law_plain_refused<T: Toolchain>(
    t: &T,
    v: CompilerV,
    prim: Primitive,
    m: ModifiedV,
    call: bool,
    w: CompilerV,
    e: UiuaError,
)
    requires
        plainly_compiled(t, v, prim, m, call, w, Err(e)),
    ensures
        did_compile_words(t, v, m.operands, false, w, Err(e)) || exists|
            u: CompilerV,
            code: Vec<Instr>,
            y: CompilerV,
        |
            #![trigger
                did_compile_words(t, v, m.operands, false, u, Ok(code)),
                code_added(parts_begun(u, call), y, code@)
            ]
            {
                &&& did_compile_words(t, v, m.operands, false, u, Ok(code))
                &&& code_added(parts_begun(u, call), y, code@)
                &&& only_code_differs(parts_begun(u, call), y)
                &&& did_primitive(t, y, prim, m.modifier.span, true, w, Err(e)) || (!call && exists|
                    whole: Seq<Instr>,
                | #[trigger]
                    did_sig_of(t, w, whole, m.modifier.span, Err(e)))
            },
{
    let span = m.modifier.span;
    let (u, compiled) = choose|u: CompilerV, compiled: UiuaResult<Vec<Instr>>| #[trigger]
        did_compile_words(t, v, m.operands, false, u, compiled) && match compiled {
            Err(d) => w == u && d == e,
            Ok(code) => exists|x: CompilerV, out: UiuaResult<()>| #[trigger]
                did_primitive(
                    t,
                    with_code(pieces_begun(u, call), code@),
                    prim,
                    span,
                    true,
                    x,
                    out,
                ) && match out {
                    Err(d) => w == x && d == e,
                    Ok(_) => pieces_finished(t, x, span, call, w, Err(e)),
                },
        };
    if let Ok(code) = compiled {
        let begun = parts_begun(u, call);
        assert(begun == pieces_begun(u, call));
        lemma_code_added(begun, code@);
        assert(did_compile_words(t, v, m.operands, false, u, Ok(code)));
        assert(code_added(begun, with_code(begun, code@), code@));
    }
}

} // verus!
