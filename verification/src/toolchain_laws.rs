//! What counts as an answer of the toolchain.
use crate::assembly::{Assembly, AssemblyV, Inputs};
use crate::compiler::{Compiler, CompilerV, EnvV, MacroEnv};
use crate::instr::{Function, Instr};
use crate::item::{Binding, Import, Item};
use crate::message::{ParseError, UiuaError, UiuaResult};
use crate::names::LocalName;
use crate::prim::{Primitive, Signature};
use crate::span::{CodeSpan, InputSrc, Sp};
use crate::toolchain::{
    did_as_string, did_binding, did_call_function, did_compile_operand_word, did_compile_words,
    did_error_text, did_format_word, did_format_words, did_handle_primitive_deprecation,
    did_handle_primitive_experimental, did_import, did_instrs_as_flipped_primitive, did_into_rows,
    did_invert_instrs, did_is_pervasive, did_modifier_text, did_optimize_instrs, did_parse,
    did_prim_text, did_primitive, did_ref_local, did_run_assembly, did_run_top_slices, did_sig_of,
    did_under_instrs, did_validate_local, did_word, did_words, did_words_look_pervasive, Toolchain,
};
use crate::value::Value;
use crate::word::{sp_view, words_view, Modifier, ModifierV, Ref, RefV, Word, WordV};
use vstd::prelude::*;

verus! {

/// Every answer of the toolchain counts: what it was asked and what it answered, by their models,
/// is what was done.
pub proof fn law_every_answer_counts<T: Toolchain>(t: &T)
    ensures
        forall|
            c: Compiler,
            d: Compiler,
            w0: &Sp<Word>,
            res: UiuaResult<(Vec<Instr>, Signature)>,
        | #[trigger]
            call_ensures(T::compile_operand_word, (t, c, w0), (d, res))
                ==> did_compile_operand_word(t, c@, sp_view(*w0), d@, res),
        forall|
            c: Compiler,
            d: Compiler,
            w0: &Vec<Sp<Word>>,
            call: bool,
            res: UiuaResult<Vec<Instr>>,
        | #[trigger]
            call_ensures(T::compile_words, (t, c, w0, call), (d, res))
                ==> did_compile_words(t, c@, words_view(w0@), call, d@, res),
        forall|c: Compiler, d: Compiler, w0: &Sp<Word>, call: bool, res: UiuaResult<()>| #[trigger]
            call_ensures(T::word, (t, c, w0, call), (d, res))
                ==> did_word(t, c@, sp_view(*w0), call, d@, res),
        forall|
            c: Compiler,
            d: Compiler,
            w0: &Vec<Sp<Word>>,
            call: bool,
            res: UiuaResult<()>,
        | #[trigger]
            call_ensures(T::words, (t, c, w0, call), (d, res))
                ==> did_words(t, c@, words_view(w0@), call, d@, res),
        forall|
            c: Compiler,
            d: Compiler,
            prim: Primitive,
            span: CodeSpan,
            call: bool,
            res: UiuaResult<()>,
        | #[trigger]
            call_ensures(T::primitive, (t, c, prim, &span, call), (d, res))
                ==> did_primitive(t, c@, prim, span, call, d@, res),
        forall|c: Compiler, d: Compiler, binding: Binding, res: UiuaResult<()>| #[trigger]
            call_ensures(T::binding, (t, c, &binding), (d, res))
                ==> did_binding(t, c@, binding, d@, res),
        forall|c: Compiler, d: Compiler, import: Import, res: UiuaResult<()>| #[trigger]
            call_ensures(T::import, (t, c, &import), (d, res))
                ==> did_import(t, c@, import, d@, res),
        forall|c: Compiler, d: Compiler, i0: &Vec<Instr>, res: Option<Vec<Instr>>| #[trigger]
            call_ensures(T::invert_instrs, (t, c, i0), (d, res))
                ==> did_invert_instrs(t, c@, i0@, d@, res),
        forall|
            c: Compiler,
            d: Compiler,
            i0: &Vec<Instr>,
            g_sig: Signature,
            res: Option<(Vec<Instr>, Vec<Instr>)>,
        | #[trigger]
            call_ensures(T::under_instrs, (t, c, i0, g_sig), (d, res))
                ==> did_under_instrs(t, c@, i0@, g_sig, d@, res),
        forall|c: Compiler, d: Compiler, name: String, local: LocalName, span: CodeSpan| #[trigger]
            call_ensures(T::validate_local, (t, c, &name, local, &span), d)
                ==> did_validate_local(t, c@, name, local, span, d@),
        forall|c: Compiler, d: Compiler, prim: Primitive, span: CodeSpan| #[trigger]
            call_ensures(T::handle_primitive_experimental, (t, c, prim, &span), d)
                ==> did_handle_primitive_experimental(t, c@, prim, span, d@),
        forall|c: Compiler, d: Compiler, prim: Primitive, span: CodeSpan| #[trigger]
            call_ensures(T::handle_primitive_deprecation, (t, c, prim, &span), d)
                ==> did_handle_primitive_deprecation(t, c@, prim, span, d@),
        forall|c: &Compiler, i0: &Vec<Instr>, span: CodeSpan, res: UiuaResult<Signature>| #[trigger]
            call_ensures(T::sig_of, (t, c, i0, &span), res)
                ==> did_sig_of(t, c@, i0@, span, res),
        forall|c: &Compiler, i0: Vec<Instr>, maximize: bool, res: Vec<Instr>| #[trigger]
            call_ensures(T::optimize_instrs, (t, c, i0, maximize), res)
                ==> did_optimize_instrs(t, c@, i0@, maximize, res),
        forall|c: &Compiler, r0: &Ref, res: UiuaResult<(Vec<LocalName>, LocalName)>| #[trigger]
            call_ensures(T::ref_local, (t, c, r0), res)
                ==> did_ref_local(t, c@, r0@, res),
        forall|w0: &Sp<Word>, res: bool| #[trigger]
            call_ensures(T::words_look_pervasive, (t, w0), res)
                ==> did_words_look_pervasive(t, sp_view(*w0), res),
        forall|i0: &Vec<Instr>, a0: &Assembly, res: Option<(Primitive, bool)>| #[trigger]
            call_ensures(T::instrs_as_flipped_primitive, (t, i0, a0), res)
                ==> did_instrs_as_flipped_primitive(t, i0@, a0@, res),
        forall|prim: Primitive, res: bool| #[trigger]
            call_ensures(T::is_pervasive, (t, prim), res)
                ==> did_is_pervasive(t, prim, res),
        forall|w0: &Sp<Word>, i0: &Inputs, res: String| #[trigger]
            call_ensures(T::format_word, (t, w0, i0), res)
                ==> did_format_word(t, sp_view(*w0), i0@, res),
        forall|w0: &Vec<Sp<Word>>, i0: &Inputs, res: String| #[trigger]
            call_ensures(T::format_words, (t, w0, i0), res)
                ==> did_format_words(t, words_view(w0@), i0@, res),
        forall|prim: Primitive, res: String| #[trigger]
            call_ensures(T::prim_text, (t, prim), res)
                ==> did_prim_text(t, prim, res),
        forall|m0: &Modifier, res: String| #[trigger]
            call_ensures(T::modifier_text, (t, m0), res)
                ==> did_modifier_text(t, m0@, res),
        forall|error: UiuaError, res: String| #[trigger]
            call_ensures(T::error_text, (t, &error), res)
                ==> did_error_text(t, error, res),
        forall|c: MacroEnv, d: MacroEnv, res: UiuaResult<()>| #[trigger]
            call_ensures(T::run_top_slices, (t, c), (d, res))
                ==> did_run_top_slices(t, c@, d@, res),
        forall|c: MacroEnv, d: MacroEnv, a0: &Assembly, res: UiuaResult<()>| #[trigger]
            call_ensures(T::run_assembly, (t, c, a0), (d, res))
                ==> did_run_assembly(t, c@, a0@, d@, res),
        forall|c: MacroEnv, d: MacroEnv, function: Function, res: UiuaResult<()>| #[trigger]
            call_ensures(T::call_function, (t, c, &function), (d, res))
                ==> did_call_function(t, c@, function, d@, res),
        forall|c: &MacroEnv, r0: &str, value: Value, res: UiuaResult<String>| #[trigger]
            call_ensures(T::as_string, (t, c, &value, r0), res)
                ==> did_as_string(t, c@, value, r0@, res),
        forall|value: Value, res: Vec<Value>| #[trigger]
            call_ensures(T::into_rows, (t, value), res)
                ==> did_into_rows(t, value, res),
        forall|
            c0: &str,
            i0: Inputs,
            src: InputSrc,
            res: (Inputs, Vec<Item>, Vec<ParseError>),
        | #[trigger]
            call_ensures(T::parse, (t, c0, src, i0), res)
                ==> did_parse(t, c0@, src, i0@, res),
{
    assert forall|
        c: Compiler,
        d: Compiler,
        w0: &Sp<Word>,
        res: UiuaResult<(Vec<Instr>, Signature)>,
    | #[trigger]
        call_ensures(T::compile_operand_word, (t, c, w0), (d, res))
        implies did_compile_operand_word(t, c@, sp_view(*w0), d@, res) by {}
    assert forall|
        c: Compiler,
        d: Compiler,
        w0: &Vec<Sp<Word>>,
        call: bool,
        res: UiuaResult<Vec<Instr>>,
    | #[trigger]
        call_ensures(T::compile_words, (t, c, w0, call), (d, res))
        implies did_compile_words(t, c@, words_view(w0@), call, d@, res) by {}
    assert forall|
        c: Compiler,
        d: Compiler,
        w0: &Sp<Word>,
        call: bool,
        res: UiuaResult<()>,
    | #[trigger]
        call_ensures(T::word, (t, c, w0, call), (d, res))
        implies did_word(t, c@, sp_view(*w0), call, d@, res) by {}
    assert forall|
        c: Compiler,
        d: Compiler,
        w0: &Vec<Sp<Word>>,
        call: bool,
        res: UiuaResult<()>,
    | #[trigger]
        call_ensures(T::words, (t, c, w0, call), (d, res))
        implies did_words(t, c@, words_view(w0@), call, d@, res) by {}
    assert forall|
        c: Compiler,
        d: Compiler,
        prim: Primitive,
        span: CodeSpan,
        call: bool,
        res: UiuaResult<()>,
    | #[trigger]
        call_ensures(T::primitive, (t, c, prim, &span, call), (d, res))
        implies did_primitive(t, c@, prim, span, call, d@, res) by {}
    assert forall|c: Compiler, d: Compiler, binding: Binding, res: UiuaResult<()>| #[trigger]
        call_ensures(T::binding, (t, c, &binding), (d, res))
        implies did_binding(t, c@, binding, d@, res) by {}
    assert forall|c: Compiler, d: Compiler, import: Import, res: UiuaResult<()>| #[trigger]
        call_ensures(T::import, (t, c, &import), (d, res))
        implies did_import(t, c@, import, d@, res) by {}
    assert forall|c: Compiler, d: Compiler, i0: &Vec<Instr>, res: Option<Vec<Instr>>| #[trigger]
        call_ensures(T::invert_instrs, (t, c, i0), (d, res))
        implies did_invert_instrs(t, c@, i0@, d@, res) by {}
    assert forall|
        c: Compiler,
        d: Compiler,
        i0: &Vec<Instr>,
        g_sig: Signature,
        res: Option<(Vec<Instr>, Vec<Instr>)>,
    | #[trigger]
        call_ensures(T::under_instrs, (t, c, i0, g_sig), (d, res))
        implies did_under_instrs(t, c@, i0@, g_sig, d@, res) by {}
    assert forall|
        c: Compiler,
        d: Compiler,
        name: String,
        local: LocalName,
        span: CodeSpan,
    | #[trigger]
        call_ensures(T::validate_local, (t, c, &name, local, &span), d)
        implies did_validate_local(t, c@, name, local, span, d@) by {}
    assert forall|c: Compiler, d: Compiler, prim: Primitive, span: CodeSpan| #[trigger]
        call_ensures(T::handle_primitive_experimental, (t, c, prim, &span), d)
        implies did_handle_primitive_experimental(t, c@, prim, span, d@) by {}
    assert forall|c: Compiler, d: Compiler, prim: Primitive, span: CodeSpan| #[trigger]
        call_ensures(T::handle_primitive_deprecation, (t, c, prim, &span), d)
        implies did_handle_primitive_deprecation(t, c@, prim, span, d@) by {}
    assert forall|
        c: &Compiler,
        i0: &Vec<Instr>,
        span: CodeSpan,
        res: UiuaResult<Signature>,
    | #[trigger]
        call_ensures(T::sig_of, (t, c, i0, &span), res)
        implies did_sig_of(t, c@, i0@, span, res) by {}
    assert forall|c: &Compiler, i0: Vec<Instr>, maximize: bool, res: Vec<Instr>| #[trigger]
        call_ensures(T::optimize_instrs, (t, c, i0, maximize), res)
        implies did_optimize_instrs(t, c@, i0@, maximize, res) by {}
    assert forall|c: &Compiler, r0: &Ref, res: UiuaResult<(Vec<LocalName>, LocalName)>| #[trigger]
        call_ensures(T::ref_local, (t, c, r0), res)
        implies did_ref_local(t, c@, r0@, res) by {}
    assert forall|w0: &Sp<Word>, res: bool| #[trigger]
        call_ensures(T::words_look_pervasive, (t, w0), res)
        implies did_words_look_pervasive(t, sp_view(*w0), res) by {}
    assert forall|i0: &Vec<Instr>, a0: &Assembly, res: Option<(Primitive, bool)>| #[trigger]
        call_ensures(T::instrs_as_flipped_primitive, (t, i0, a0), res)
        implies did_instrs_as_flipped_primitive(t, i0@, a0@, res) by {}
    assert forall|prim: Primitive, res: bool| #[trigger]
        call_ensures(T::is_pervasive, (t, prim), res)
        implies did_is_pervasive(t, prim, res) by {}
    assert forall|w0: &Sp<Word>, i0: &Inputs, res: String| #[trigger]
        call_ensures(T::format_word, (t, w0, i0), res)
        implies did_format_word(t, sp_view(*w0), i0@, res) by {}
    assert forall|w0: &Vec<Sp<Word>>, i0: &Inputs, res: String| #[trigger]
        call_ensures(T::format_words, (t, w0, i0), res)
        implies did_format_words(t, words_view(w0@), i0@, res) by {}
    assert forall|prim: Primitive, res: String| #[trigger]
        call_ensures(T::prim_text, (t, prim), res)
        implies did_prim_text(t, prim, res) by {}
    assert forall|m0: &Modifier, res: String| #[trigger]
        call_ensures(T::modifier_text, (t, m0), res)
        implies did_modifier_text(t, m0@, res) by {}
    assert forall|error: UiuaError, res: String| #[trigger]
        call_ensures(T::error_text, (t, &error), res)
        implies did_error_text(t, error, res) by {}
    assert forall|c: MacroEnv, d: MacroEnv, res: UiuaResult<()>| #[trigger]
        call_ensures(T::run_top_slices, (t, c), (d, res))
        implies did_run_top_slices(t, c@, d@, res) by {}
    assert forall|c: MacroEnv, d: MacroEnv, a0: &Assembly, res: UiuaResult<()>| #[trigger]
        call_ensures(T::run_assembly, (t, c, a0), (d, res))
        implies did_run_assembly(t, c@, a0@, d@, res) by {}
    assert forall|c: MacroEnv, d: MacroEnv, function: Function, res: UiuaResult<()>| #[trigger]
        call_ensures(T::call_function, (t, c, &function), (d, res))
        implies did_call_function(t, c@, function, d@, res) by {}
    assert forall|c: &MacroEnv, r0: &str, value: Value, res: UiuaResult<String>| #[trigger]
        call_ensures(T::as_string, (t, c, &value, r0), res)
        implies did_as_string(t, c@, value, r0@, res) by {}
    assert forall|value: Value, res: Vec<Value>| #[trigger]
        call_ensures(T::into_rows, (t, value), res)
        implies did_into_rows(t, value, res) by {}
    assert forall|
        c0: &str,
        i0: Inputs,
        src: InputSrc,
        res: (Inputs, Vec<Item>, Vec<ParseError>),
    | #[trigger]
        call_ensures(T::parse, (t, c0, src, i0), res)
        implies did_parse(t, c0@, src, i0@, res) by {}
}

/// Nothing else counts: what was done with the toolchain is what it answered when it was asked for
/// that, with nothing left out and nothing changed.
pub proof fn law_only_answers_count<T: Toolchain>(t: &T)
    ensures
        forall|
            v: CompilerV,
            word: Sp<WordV>,
            w: CompilerV,
            res: UiuaResult<(Vec<Instr>, Signature)>,
        | #[trigger]
            did_compile_operand_word(t, v, word, w, res)
                ==> exists|c: Compiler, d: Compiler, w0: &Sp<Word>| #[trigger]
                    call_ensures(T::compile_operand_word, (t, c, w0), (d, res))
                        && c@ == v && d@ == w && sp_view(*w0) == word,
        forall|
            v: CompilerV,
            words: Seq<Sp<WordV>>,
            call: bool,
            w: CompilerV,
            res: UiuaResult<Vec<Instr>>,
        | #[trigger]
            did_compile_words(t, v, words, call, w, res)
                ==> exists|c: Compiler, d: Compiler, w0: &Vec<Sp<Word>>| #[trigger]
                    call_ensures(T::compile_words, (t, c, w0, call), (d, res))
                        && c@ == v && d@ == w && words_view(w0@) == words,
        forall|
            v: CompilerV,
            word: Sp<WordV>,
            call: bool,
            w: CompilerV,
            res: UiuaResult<()>,
        | #[trigger]
            did_word(t, v, word, call, w, res)
                ==> exists|c: Compiler, d: Compiler, w0: &Sp<Word>| #[trigger]
                    call_ensures(T::word, (t, c, w0, call), (d, res))
                        && c@ == v && d@ == w && sp_view(*w0) == word,
        forall|
            v: CompilerV,
            words: Seq<Sp<WordV>>,
            call: bool,
            w: CompilerV,
            res: UiuaResult<()>,
        | #[trigger]
            did_words(t, v, words, call, w, res)
                ==> exists|c: Compiler, d: Compiler, w0: &Vec<Sp<Word>>| #[trigger]
                    call_ensures(T::words, (t, c, w0, call), (d, res))
                        && c@ == v && d@ == w && words_view(w0@) == words,
        forall|
            v: CompilerV,
            prim: Primitive,
            span: CodeSpan,
            call: bool,
            w: CompilerV,
            res: UiuaResult<()>,
        | #[trigger]
            did_primitive(t, v, prim, span, call, w, res)
                ==> exists|c: Compiler, d: Compiler| #[trigger]
                    call_ensures(T::primitive, (t, c, prim, &span, call), (d, res))
                        && c@ == v && d@ == w,
        forall|v: CompilerV, binding: Binding, w: CompilerV, res: UiuaResult<()>| #[trigger]
            did_binding(t, v, binding, w, res)
                ==> exists|c: Compiler, d: Compiler| #[trigger]
                    call_ensures(T::binding, (t, c, &binding), (d, res))
                        && c@ == v && d@ == w,
        forall|v: CompilerV, import: Import, w: CompilerV, res: UiuaResult<()>| #[trigger]
            did_import(t, v, import, w, res)
                ==> exists|c: Compiler, d: Compiler| #[trigger]
                    call_ensures(T::import, (t, c, &import), (d, res))
                        && c@ == v && d@ == w,
        forall|v: CompilerV, instrs: Seq<Instr>, w: CompilerV, res: Option<Vec<Instr>>| #[trigger]
            did_invert_instrs(t, v, instrs, w, res)
                ==> exists|c: Compiler, d: Compiler, i0: &Vec<Instr>| #[trigger]
                    call_ensures(T::invert_instrs, (t, c, i0), (d, res))
                        && c@ == v && d@ == w && i0@ == instrs,
        forall|
            v: CompilerV,
            instrs: Seq<Instr>,
            g_sig: Signature,
            w: CompilerV,
            res: Option<(Vec<Instr>, Vec<Instr>)>,
        | #[trigger]
            did_under_instrs(t, v, instrs, g_sig, w, res)
                ==> exists|c: Compiler, d: Compiler, i0: &Vec<Instr>| #[trigger]
                    call_ensures(T::under_instrs, (t, c, i0, g_sig), (d, res))
                        && c@ == v && d@ == w && i0@ == instrs,
        forall|
            v: CompilerV,
            name: String,
            local: LocalName,
            span: CodeSpan,
            w: CompilerV,
        | #[trigger]
            did_validate_local(t, v, name, local, span, w)
                ==> exists|c: Compiler, d: Compiler| #[trigger]
                    call_ensures(T::validate_local, (t, c, &name, local, &span), d)
                        && c@ == v && d@ == w,
        forall|v: CompilerV, prim: Primitive, span: CodeSpan, w: CompilerV| #[trigger]
            did_handle_primitive_experimental(t, v, prim, span, w)
                ==> exists|c: Compiler, d: Compiler| #[trigger]
                    call_ensures(T::handle_primitive_experimental, (t, c, prim, &span), d)
                        && c@ == v && d@ == w,
        forall|v: CompilerV, prim: Primitive, span: CodeSpan, w: CompilerV| #[trigger]
            did_handle_primitive_deprecation(t, v, prim, span, w)
                ==> exists|c: Compiler, d: Compiler| #[trigger]
                    call_ensures(T::handle_primitive_deprecation, (t, c, prim, &span), d)
                        && c@ == v && d@ == w,
        forall|
            v: CompilerV,
            instrs: Seq<Instr>,
            span: CodeSpan,
            res: UiuaResult<Signature>,
        | #[trigger]
            did_sig_of(t, v, instrs, span, res)
                ==> exists|c: &Compiler, i0: &Vec<Instr>| #[trigger]
                    call_ensures(T::sig_of, (t, c, i0, &span), res)
                        && c@ == v && i0@ == instrs,
        forall|v: CompilerV, instrs: Seq<Instr>, maximize: bool, res: Vec<Instr>| #[trigger]
            did_optimize_instrs(t, v, instrs, maximize, res)
                ==> exists|c: &Compiler, i0: Vec<Instr>| #[trigger]
                    call_ensures(T::optimize_instrs, (t, c, i0, maximize), res)
                        && c@ == v && i0@ == instrs,
        forall|v: CompilerV, r: RefV, res: UiuaResult<(Vec<LocalName>, LocalName)>| #[trigger]
            did_ref_local(t, v, r, res)
                ==> exists|c: &Compiler, r0: &Ref| #[trigger]
                    call_ensures(T::ref_local, (t, c, r0), res)
                        && c@ == v && r0@ == r,
        forall|word: Sp<WordV>, res: bool| #[trigger]
            did_words_look_pervasive(t, word, res)
                ==> exists|w0: &Sp<Word>| #[trigger]
                    call_ensures(T::words_look_pervasive, (t, w0), res)
                        && sp_view(*w0) == word,
        forall|instrs: Seq<Instr>, assembly: AssemblyV, res: Option<(Primitive, bool)>| #[trigger]
            did_instrs_as_flipped_primitive(t, instrs, assembly, res)
                ==> exists|i0: &Vec<Instr>, a0: &Assembly| #[trigger]
                    call_ensures(T::instrs_as_flipped_primitive, (t, i0, a0), res)
                        && i0@ == instrs && a0@ == assembly,
        forall|prim: Primitive, res: bool| #[trigger]
            did_is_pervasive(t, prim, res)
                ==> call_ensures(T::is_pervasive, (t, prim), res),
        forall|word: Sp<WordV>, inputs: Seq<String>, res: String| #[trigger]
            did_format_word(t, word, inputs, res)
                ==> exists|w0: &Sp<Word>, i0: &Inputs| #[trigger]
                    call_ensures(T::format_word, (t, w0, i0), res)
                        && sp_view(*w0) == word && i0@ == inputs,
        forall|words: Seq<Sp<WordV>>, inputs: Seq<String>, res: String| #[trigger]
            did_format_words(t, words, inputs, res)
                ==> exists|w0: &Vec<Sp<Word>>, i0: &Inputs| #[trigger]
                    call_ensures(T::format_words, (t, w0, i0), res)
                        && words_view(w0@) == words && i0@ == inputs,
        forall|prim: Primitive, res: String| #[trigger]
            did_prim_text(t, prim, res)
                ==> call_ensures(T::prim_text, (t, prim), res),
        forall|modifier: ModifierV, res: String| #[trigger]
            did_modifier_text(t, modifier, res)
                ==> exists|m0: &Modifier| #[trigger]
                    call_ensures(T::modifier_text, (t, m0), res)
                        && m0@ == modifier,
        forall|error: UiuaError, res: String| #[trigger]
            did_error_text(t, error, res)
                ==> call_ensures(T::error_text, (t, &error), res),
        forall|v: EnvV, w: EnvV, res: UiuaResult<()>| #[trigger]
            did_run_top_slices(t, v, w, res)
                ==> exists|c: MacroEnv, d: MacroEnv| #[trigger]
                    call_ensures(T::run_top_slices, (t, c), (d, res))
                        && c@ == v && d@ == w,
        forall|v: EnvV, assembly: AssemblyV, w: EnvV, res: UiuaResult<()>| #[trigger]
            did_run_assembly(t, v, assembly, w, res)
                ==> exists|c: MacroEnv, d: MacroEnv, a0: &Assembly| #[trigger]
                    call_ensures(T::run_assembly, (t, c, a0), (d, res))
                        && c@ == v && d@ == w && a0@ == assembly,
        forall|v: EnvV, function: Function, w: EnvV, res: UiuaResult<()>| #[trigger]
            did_call_function(t, v, function, w, res)
                ==> exists|c: MacroEnv, d: MacroEnv| #[trigger]
                    call_ensures(T::call_function, (t, c, &function), (d, res))
                        && c@ == v && d@ == w,
        forall|v: EnvV, value: Value, requirement: Seq<char>, res: UiuaResult<String>| #[trigger]
            did_as_string(t, v, value, requirement, res)
                ==> exists|c: &MacroEnv, r0: &str| #[trigger]
                    call_ensures(T::as_string, (t, c, &value, r0), res)
                        && c@ == v && r0@ == requirement,
        forall|value: Value, res: Vec<Value>| #[trigger]
            did_into_rows(t, value, res)
                ==> call_ensures(T::into_rows, (t, value), res),
        forall|
            code: Seq<char>,
            src: InputSrc,
            inputs: Seq<String>,
            res: (Inputs, Vec<Item>, Vec<ParseError>),
        | #[trigger]
            did_parse(t, code, src, inputs, res)
                ==> exists|c0: &str, i0: Inputs| #[trigger]
                    call_ensures(T::parse, (t, c0, src, i0), res)
                        && c0@ == code && i0@ == inputs,
{
}

} // verus!
