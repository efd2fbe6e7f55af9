//! The parts of the compiler that modifiers are compiled with.
//!
//! A modifier is compiled by having its operands compiled, inverted, formatted or run, and by
//! putting together what comes back. The trait here is what does the former. Nothing is taken
//! for granted about it: for each of its methods, a relation named `did_` and the method says
//! that a call took a compiler from one state to another with a result, and what is proved of
//! modifiers is stated over these relations.
use crate::assembly::{Assembly, AssemblyV, Inputs};
use crate::compiler::{Compiler, CompilerV, EnvV, MacroEnv};
use crate::instr::{Function, Instr};
use crate::item::{Binding, Import, Item};
use crate::keeping::{code_fits, place_kept};
use crate::message::{ParseError, UiuaError, UiuaResult};
use crate::names::LocalName;
use crate::prim::{Primitive, Signature};
use crate::span::{CodeSpan, InputSrc, Sp};
use crate::value::Value;
use crate::word::{sp_view, words_view, Modifier, ModifierV, Ref, RefV, Word, WordV};
use vstd::prelude::*;

verus! {

/// The parts of the compiler that modifiers are compiled with. A method that changes the
/// compiler takes it and gives it back.
pub trait Toolchain: Sized {
    /// Compiles an operand of a modifier on its own, to its code and signature.
    fn compile_operand_word(
        &self,
        comp: Compiler,
        word: &Sp<Word>,
    ) -> (Compiler, UiuaResult<(Vec<Instr>, Signature)>);

    /// Compiles words on their own, to their code.
    fn compile_words(
        &self,
        comp: Compiler,
        words: &Vec<Sp<Word>>,
        call: bool,
    ) -> (Compiler, UiuaResult<Vec<Instr>>);

    /// Compiles a word into the current function.
    fn word(&self, comp: Compiler, word: &Sp<Word>, call: bool) -> (Compiler, UiuaResult<()>);

    /// Compiles words into the current function.
    fn words(
        &self,
        comp: Compiler,
        words: &Vec<Sp<Word>>,
        call: bool,
    ) -> (Compiler, UiuaResult<()>);

    /// Compiles a primitive into the current function.
    fn primitive(
        &self,
        comp: Compiler,
        prim: Primitive,
        span: &CodeSpan,
        call: bool,
    ) -> (Compiler, UiuaResult<()>);

    /// Compiles a binding.
    fn binding(&self, comp: Compiler, binding: &Binding) -> (Compiler, UiuaResult<()>);

    /// Compiles an import.
    fn import(&self, comp: Compiler, import: &Import) -> (Compiler, UiuaResult<()>);

    /// The inverse of some code, where it has one.
    fn invert_instrs(&self, comp: Compiler, instrs: &Vec<Instr>) -> (Compiler, Option<Vec<Instr>>);

    /// What comes before and after the other function of an under, where some code allows it.
    fn under_instrs(
        &self,
        comp: Compiler,
        instrs: &Vec<Instr>,
        g_sig: Signature,
    ) -> (Compiler, Option<(Vec<Instr>, Vec<Instr>)>);

    /// Looks at the use of a name.
    fn validate_local(
        &self,
        comp: Compiler,
        name: &String,
        local: LocalName,
        span: &CodeSpan,
    ) -> Compiler;

    /// Complains about a primitive that is experimental.
    fn handle_primitive_experimental(
        &self,
        comp: Compiler,
        prim: Primitive,
        span: &CodeSpan,
    ) -> Compiler;

    /// Complains about a primitive that is deprecated.
    fn handle_primitive_deprecation(
        &self,
        comp: Compiler,
        prim: Primitive,
        span: &CodeSpan,
    ) -> Compiler;

    /// The signature of some code.
    fn sig_of(
        &self,
        comp: &Compiler,
        instrs: &Vec<Instr>,
        span: &CodeSpan,
    ) -> UiuaResult<Signature>;

    /// Better code that does the same.
    fn optimize_instrs(&self, comp: &Compiler, instrs: Vec<Instr>, maximize: bool) -> Vec<Instr>;

    /// What a reference stands for: the modules of its path, and its name.
    fn ref_local(&self, comp: &Compiler, r: &Ref) -> UiuaResult<(Vec<LocalName>, LocalName)>;

    /// Whether a word looks like a function that goes into each element of an array.
    fn words_look_pervasive(&self, word: &Sp<Word>) -> bool;

    /// The primitive that some code comes down to, and whether its arguments are exchanged.
    fn instrs_as_flipped_primitive(
        &self,
        instrs: &Vec<Instr>,
        assembly: &Assembly,
    ) -> Option<(Primitive, bool)>;

    /// Whether a primitive goes into each element of an array.
    fn is_pervasive(&self, prim: Primitive) -> bool;

    /// The text of a word.
    fn format_word(&self, word: &Sp<Word>, inputs: &Inputs) -> String;

    /// The text of some words.
    fn format_words(&self, words: &Vec<Sp<Word>>, inputs: &Inputs) -> String;

    /// How a primitive is shown in messages.
    fn prim_text(&self, prim: Primitive) -> String;

    /// How a modifier is shown in messages.
    fn modifier_text(&self, modifier: &Modifier) -> String;

    /// How an error is shown in messages.
    fn error_text(&self, error: &UiuaError) -> String;

    /// Runs the code that is run when a program is loaded, without input and output.
    fn run_top_slices(&self, env: MacroEnv) -> (MacroEnv, UiuaResult<()>);

    /// Runs an assembly.
    fn run_assembly(&self, env: MacroEnv, assembly: &Assembly) -> (MacroEnv, UiuaResult<()>);

    /// Calls a function.
    fn call_function(&self, env: MacroEnv, function: &Function) -> (MacroEnv, UiuaResult<()>);

    /// The text that a value holds, where it holds one.
    fn as_string(&self, env: &MacroEnv, value: &Value, requirement: &str) -> UiuaResult<String>;

    /// The rows of a value.
    fn into_rows(&self, value: Value) -> Vec<Value>;

    /// Parses a text, which becomes one of the inputs, to its items and the syntax errors in it.
    fn parse(&self, code: &str, src: InputSrc, inputs: Inputs) -> (
        Inputs,
        Vec<Item>,
        Vec<ParseError>,
    );
}

/// What `compile_operand_word` did.
pub open spec fn did_compile_operand_word<T: Toolchain>(
    t: &T,
    v: CompilerV,
    word: Sp<WordV>,
    w: CompilerV,
    res: UiuaResult<(Vec<Instr>, Signature)>,
) -> bool {
    exists|c: Compiler, d: Compiler, w0: &Sp<Word>| #[trigger]
        call_ensures(T::compile_operand_word, (t, c, w0), (d, res)) && c@ == v && d@ == w
            && sp_view(*w0) == word
}

/// What `compile_words` did.
pub open spec fn did_compile_words<T: Toolchain>(
    t: &T,
    v: CompilerV,
    words: Seq<Sp<WordV>>,
    call: bool,
    w: CompilerV,
    res: UiuaResult<Vec<Instr>>,
) -> bool {
    exists|c: Compiler, d: Compiler, w0: &Vec<Sp<Word>>| #[trigger]
        call_ensures(T::compile_words, (t, c, w0, call), (d, res)) && c@ == v && d@ == w
            && words_view(w0@) == words
}

/// What `word` did.
pub open spec fn did_word<T: Toolchain>(
    t: &T,
    v: CompilerV,
    word: Sp<WordV>,
    call: bool,
    w: CompilerV,
    res: UiuaResult<()>,
) -> bool {
    exists|c: Compiler, d: Compiler, w0: &Sp<Word>| #[trigger]
        call_ensures(T::word, (t, c, w0, call), (d, res)) && c@ == v && d@ == w
            && sp_view(*w0) == word
}

/// What `words` did.
pub open spec fn did_words<T: Toolchain>(
    t: &T,
    v: CompilerV,
    words: Seq<Sp<WordV>>,
    call: bool,
    w: CompilerV,
    res: UiuaResult<()>,
) -> bool {
    exists|c: Compiler, d: Compiler, w0: &Vec<Sp<Word>>| #[trigger]
        call_ensures(T::words, (t, c, w0, call), (d, res)) && c@ == v && d@ == w
            && words_view(w0@) == words
}

/// What `primitive` did.
pub open spec fn did_primitive<T: Toolchain>(
    t: &T,
    v: CompilerV,
    prim: Primitive,
    span: CodeSpan,
    call: bool,
    w: CompilerV,
    res: UiuaResult<()>,
) -> bool {
    exists|c: Compiler, d: Compiler| #[trigger]
        call_ensures(T::primitive, (t, c, prim, &span, call), (d, res)) && c@ == v && d@ == w
}

/// What `binding` did.
pub open spec fn did_binding<T: Toolchain>(
    t: &T,
    v: CompilerV,
    binding: Binding,
    w: CompilerV,
    res: UiuaResult<()>,
) -> bool {
    exists|c: Compiler, d: Compiler| #[trigger]
        call_ensures(T::binding, (t, c, &binding), (d, res)) && c@ == v && d@ == w
}

/// What `import` did.
pub open spec fn did_import<T: Toolchain>(
    t: &T,
    v: CompilerV,
    import: Import,
    w: CompilerV,
    res: UiuaResult<()>,
) -> bool {
    exists|c: Compiler, d: Compiler| #[trigger]
        call_ensures(T::import, (t, c, &import), (d, res)) && c@ == v && d@ == w
}

/// What `invert_instrs` did.
pub open spec fn did_invert_instrs<T: Toolchain>(
    t: &T,
    v: CompilerV,
    instrs: Seq<Instr>,
    w: CompilerV,
    res: Option<Vec<Instr>>,
) -> bool {
    exists|c: Compiler, d: Compiler, i0: &Vec<Instr>| #[trigger]
        call_ensures(T::invert_instrs, (t, c, i0), (d, res)) && c@ == v && d@ == w && i0@ == instrs
}

/// What `under_instrs` did.
pub open spec fn did_under_instrs<T: Toolchain>(
    t: &T,
    v: CompilerV,
    instrs: Seq<Instr>,
    g_sig: Signature,
    w: CompilerV,
    res: Option<(Vec<Instr>, Vec<Instr>)>,
) -> bool {
    exists|c: Compiler, d: Compiler, i0: &Vec<Instr>| #[trigger]
        call_ensures(T::under_instrs, (t, c, i0, g_sig), (d, res)) && c@ == v && d@ == w
            && i0@ == instrs
}

/// What `validate_local` did.
pub open spec fn did_validate_local<T: Toolchain>(
    t: &T,
    v: CompilerV,
    name: String,
    local: LocalName,
    span: CodeSpan,
    w: CompilerV,
) -> bool {
    exists|c: Compiler, d: Compiler| #[trigger]
        call_ensures(T::validate_local, (t, c, &name, local, &span), d) && c@ == v && d@ == w
}

/// What `handle_primitive_experimental` did.
pub open spec fn did_handle_primitive_experimental<T: Toolchain>(
    t: &T,
    v: CompilerV,
    prim: Primitive,
    span: CodeSpan,
    w: CompilerV,
) -> bool {
    exists|c: Compiler, d: Compiler| #[trigger]
        call_ensures(T::handle_primitive_experimental, (t, c, prim, &span), d) && c@ == v && d@ == w
}

/// What `handle_primitive_deprecation` did.
pub open spec fn did_handle_primitive_deprecation<T: Toolchain>(
    t: &T,
    v: CompilerV,
    prim: Primitive,
    span: CodeSpan,
    w: CompilerV,
) -> bool {
    exists|c: Compiler, d: Compiler| #[trigger]
        call_ensures(T::handle_primitive_deprecation, (t, c, prim, &span), d) && c@ == v && d@ == w
}

/// What `sig_of` did.
pub open spec fn did_sig_of<T: Toolchain>(
    t: &T,
    v: CompilerV,
    instrs: Seq<Instr>,
    span: CodeSpan,
    res: UiuaResult<Signature>,
) -> bool {
    exists|c: &Compiler, i0: &Vec<Instr>| #[trigger]
        call_ensures(T::sig_of, (t, c, i0, &span), res) && c@ == v && i0@ == instrs
}

/// What `optimize_instrs` did.
pub open spec fn did_optimize_instrs<T: Toolchain>(
    t: &T,
    v: CompilerV,
    instrs: Seq<Instr>,
    maximize: bool,
    res: Vec<Instr>,
) -> bool {
    exists|c: &Compiler, i0: Vec<Instr>| #[trigger]
        call_ensures(T::optimize_instrs, (t, c, i0, maximize), res) && c@ == v && i0@ == instrs
}

/// What `ref_local` did.
pub open spec fn did_ref_local<T: Toolchain>(
    t: &T,
    v: CompilerV,
    r: RefV,
    res: UiuaResult<(Vec<LocalName>, LocalName)>,
) -> bool {
    exists|c: &Compiler, r0: &Ref| #[trigger]
        call_ensures(T::ref_local, (t, c, r0), res) && c@ == v && r0@ == r
}

/// What `words_look_pervasive` did.
pub open spec fn did_words_look_pervasive<T: Toolchain>(t: &T, word: Sp<WordV>, res: bool) -> bool {
    exists|w0: &Sp<Word>| #[trigger]
        call_ensures(T::words_look_pervasive, (t, w0), res) && sp_view(*w0) == word
}

/// What `instrs_as_flipped_primitive` did.
pub open spec fn did_instrs_as_flipped_primitive<T: Toolchain>(
    t: &T,
    instrs: Seq<Instr>,
    assembly: AssemblyV,
    res: Option<(Primitive, bool)>,
) -> bool {
    exists|i0: &Vec<Instr>, a0: &Assembly| #[trigger]
        call_ensures(T::instrs_as_flipped_primitive, (t, i0, a0), res) && i0@ == instrs
            && a0@ == assembly
}

/// What `is_pervasive` did.
pub open spec fn did_is_pervasive<T: Toolchain>(t: &T, prim: Primitive, res: bool) -> bool {
    call_ensures(T::is_pervasive, (t, prim), res)
}

/// What `format_word` did.
pub open spec fn did_format_word<T: Toolchain>(
    t: &T,
    word: Sp<WordV>,
    inputs: Seq<String>,
    res: String,
) -> bool {
    exists|w0: &Sp<Word>, i0: &Inputs| #[trigger]
        call_ensures(T::format_word, (t, w0, i0), res) && sp_view(*w0) == word && i0@ == inputs
}

/// What `format_words` did.
pub open spec fn did_format_words<T: Toolchain>(
    t: &T,
    words: Seq<Sp<WordV>>,
    inputs: Seq<String>,
    res: String,
) -> bool {
    exists|w0: &Vec<Sp<Word>>, i0: &Inputs| #[trigger]
        call_ensures(T::format_words, (t, w0, i0), res) && words_view(w0@) == words && i0@ == inputs
}

/// What `prim_text` did.
pub open spec fn did_prim_text<T: Toolchain>(t: &T, prim: Primitive, res: String) -> bool {
    call_ensures(T::prim_text, (t, prim), res)
}

/// What `modifier_text` did.
pub open spec fn did_modifier_text<T: Toolchain>(t: &T, modifier: ModifierV, res: String) -> bool {
    exists|m0: &Modifier| #[trigger] call_ensures(T::modifier_text, (t, m0), res) && m0@ == modifier
}

/// What `error_text` did.
pub open spec fn did_error_text<T: Toolchain>(t: &T, error: UiuaError, res: String) -> bool {
    call_ensures(T::error_text, (t, &error), res)
}

/// What `run_top_slices` did.
pub open spec fn did_run_top_slices<T: Toolchain>(
    t: &T,
    v: EnvV,
    w: EnvV,
    res: UiuaResult<()>,
) -> bool {
    exists|c: MacroEnv, d: MacroEnv| #[trigger]
        call_ensures(T::run_top_slices, (t, c), (d, res)) && c@ == v && d@ == w
}

/// What `run_assembly` did.
pub open spec fn did_run_assembly<T: Toolchain>(
    t: &T,
    v: EnvV,
    assembly: AssemblyV,
    w: EnvV,
    res: UiuaResult<()>,
) -> bool {
    exists|c: MacroEnv, d: MacroEnv, a0: &Assembly| #[trigger]
        call_ensures(T::run_assembly, (t, c, a0), (d, res)) && c@ == v && d@ == w && a0@ == assembly
}

/// What `call_function` did.
pub open spec fn did_call_function<T: Toolchain>(
    t: &T,
    v: EnvV,
    function: Function,
    w: EnvV,
    res: UiuaResult<()>,
) -> bool {
    exists|c: MacroEnv, d: MacroEnv| #[trigger]
        call_ensures(T::call_function, (t, c, &function), (d, res)) && c@ == v && d@ == w
}

/// What `as_string` did.
pub open spec fn did_as_string<T: Toolchain>(
    t: &T,
    v: EnvV,
    value: Value,
    requirement: Seq<char>,
    res: UiuaResult<String>,
) -> bool {
    exists|c: &MacroEnv, r0: &str| #[trigger]
        call_ensures(T::as_string, (t, c, &value, r0), res) && c@ == v && r0@ == requirement
}

/// What `into_rows` did.
pub open spec fn did_into_rows<T: Toolchain>(t: &T, value: Value, res: Vec<Value>) -> bool {
    call_ensures(T::into_rows, (t, value), res)
}

/// What `parse` did: it was given a text from a source and some inputs, and came back with
/// inputs, items and syntax errors.
pub open spec fn did_parse<T: Toolchain>(
    t: &T,
    code: Seq<char>,
    src: InputSrc,
    inputs: Seq<String>,
    res: (Inputs, Vec<Item>, Vec<ParseError>),
) -> bool {
    exists|c0: &str, i0: Inputs| #[trigger]
        call_ensures(T::parse, (t, c0, src, i0), res) && c0@ == code && i0@ == inputs
}

/// A signature with room to combine it with another.
pub open spec fn moderate(sig: Signature) -> bool {
    sig.args <= usize::MAX / 2 && sig.outputs <= usize::MAX / 2
}

/// What modifiers need from the other parts of the compiler in order not to fail: each step
/// keeps the place of the compiler, code only pushes functions that there are, signatures leave
/// room, and neither loading a program for macros nor calling a macro adds bindings.
#[verifier::opaque]
pub open spec fn orderly<T: Toolchain>(t: &T) -> bool {
    &&& forall|
        c: Compiler,
        d: Compiler,
        word: &Sp<Word>,
        res: UiuaResult<(Vec<Instr>, Signature)>,
    | #[trigger]
        call_ensures(T::compile_operand_word, (t, c, word), (d, res)) ==> {
            &&& place_kept(c@, d@, res is Ok)
            &&& res matches Ok(out) ==> moderate(out.1) && code_fits(c@, d@, out.0@)
        }
    &&& forall|
        c: Compiler,
        d: Compiler,
        words: &Vec<Sp<Word>>,
        call: bool,
        res: UiuaResult<Vec<Instr>>,
    | #[trigger]
        call_ensures(T::compile_words, (t, c, words, call), (d, res)) ==> {
            &&& place_kept(c@, d@, res is Ok)
            &&& res matches Ok(code) ==> code_fits(c@, d@, code@)
        }
    &&& forall|
        c: Compiler,
        d: Compiler,
        word: &Sp<Word>,
        call: bool,
        res: UiuaResult<()>,
    | #[trigger]
        call_ensures(T::word, (t, c, word, call), (d, res)) ==> place_kept(c@, d@, res is Ok)
    &&& forall|
        c: Compiler,
        d: Compiler,
        words: &Vec<Sp<Word>>,
        call: bool,
        res: UiuaResult<()>,
    | #[trigger]
        call_ensures(T::words, (t, c, words, call), (d, res)) ==> place_kept(c@, d@, res is Ok)
    &&& forall|
        c: Compiler,
        d: Compiler,
        prim: Primitive,
        span: &CodeSpan,
        call: bool,
        res: UiuaResult<()>,
    | #[trigger]
        call_ensures(T::primitive, (t, c, prim, span, call), (d, res))
            ==> place_kept(c@, d@, res is Ok)
    &&& forall|c: Compiler, d: Compiler, binding: &Binding, res: UiuaResult<()>| #[trigger]
        call_ensures(T::binding, (t, c, binding), (d, res)) ==> place_kept(c@, d@, res is Ok)
    &&& forall|c: Compiler, d: Compiler, import: &Import, res: UiuaResult<()>| #[trigger]
        call_ensures(T::import, (t, c, import), (d, res)) ==> place_kept(c@, d@, res is Ok)
    &&& forall|c: Compiler, d: Compiler, instrs: &Vec<Instr>, res: Option<Vec<Instr>>| #[trigger]
        call_ensures(T::invert_instrs, (t, c, instrs), (d, res)) ==> {
            &&& place_kept(c@, d@, true)
            &&& res matches Some(code) ==> code_fits(c@, d@, code@)
        }
    &&& forall|
        c: Compiler,
        d: Compiler,
        instrs: &Vec<Instr>,
        g_sig: Signature,
        res: Option<(Vec<Instr>, Vec<Instr>)>,
    | #[trigger]
        call_ensures(T::under_instrs, (t, c, instrs, g_sig), (d, res)) ==> {
            &&& place_kept(c@, d@, true)
            &&& res matches Some(out) ==> code_fits(c@, d@, out.0@) && code_fits(c@, d@, out.1@)
        }
    &&& forall|
        c: Compiler,
        d: Compiler,
        name: &String,
        local: LocalName,
        span: &CodeSpan,
    | #[trigger]
        call_ensures(T::validate_local, (t, c, name, local, span), d) ==> place_kept(c@, d@, true)
    &&& forall|c: Compiler, d: Compiler, prim: Primitive, span: &CodeSpan| #[trigger]
        call_ensures(T::handle_primitive_experimental, (t, c, prim, span), d)
            ==> place_kept(c@, d@, true)
    &&& forall|c: Compiler, d: Compiler, prim: Primitive, span: &CodeSpan| #[trigger]
        call_ensures(T::handle_primitive_deprecation, (t, c, prim, span), d)
            ==> place_kept(c@, d@, true)
    &&& forall|c: MacroEnv, d: MacroEnv, res: UiuaResult<()>| #[trigger]
        call_ensures(T::run_top_slices, (t, c), (d, res))
            ==> d@.assembly.bindings.len() <= c@.assembly.bindings.len()
    &&& forall|c: MacroEnv, d: MacroEnv, function: &Function, res: UiuaResult<()>| #[trigger]
        call_ensures(T::call_function, (t, c, function), (d, res))
            ==> d@.assembly.bindings.len() <= c@.assembly.bindings.len()
}

impl Compiler {
    /// Takes the compiler out of its place, for a step that gives it back.
    fn taken(&mut self) -> (res: Compiler)
        ensures
            res == *old(self),
    {
        let mut res = Compiler::new();
        std::mem::swap(self, &mut res);
        res
    }

    /// Compiles an operand of a modifier on its own, to its code and signature.
    pub(crate) fn do_compile_operand_word<T: Toolchain>(
        &mut self,
        t: &T,
        word: &Sp<Word>,
    ) -> (res: UiuaResult<(Vec<Instr>, Signature)>)
        requires
            orderly(t),
        ensures
            did_compile_operand_word(t, old(self)@, sp_view(*word), final(self)@, res),
            place_kept(old(self)@, final(self)@, res is Ok),
            res matches Ok(out) ==> moderate(out.1) && code_fits(old(self)@, final(self)@, out.0@),
    {
        reveal(orderly);
        let (comp, res) = t.compile_operand_word(self.taken(), word);
        *self = comp;
        res
    }

    /// Compiles words on their own, to their code.
    pub(crate) fn do_compile_words<T: Toolchain>(
        &mut self,
        t: &T,
        words: &Vec<Sp<Word>>,
        call: bool,
    ) -> (res: UiuaResult<Vec<Instr>>)
        requires
            orderly(t),
        ensures
            did_compile_words(t, old(self)@, words_view(words@), call, final(self)@, res),
            place_kept(old(self)@, final(self)@, res is Ok),
            res matches Ok(code) ==> code_fits(old(self)@, final(self)@, code@),
    {
        reveal(orderly);
        let (comp, res) = t.compile_words(self.taken(), words, call);
        *self = comp;
        res
    }

    /// Compiles a word into the current function.
    pub(crate) fn do_word<T: Toolchain>(
        &mut self,
        t: &T,
        word: &Sp<Word>,
        call: bool,
    ) -> (res: UiuaResult<()>)
        requires
            orderly(t),
        ensures
            did_word(t, old(self)@, sp_view(*word), call, final(self)@, res),
            place_kept(old(self)@, final(self)@, res is Ok),
    {
        reveal(orderly);
        let (comp, res) = t.word(self.taken(), word, call);
        *self = comp;
        res
    }

    /// Compiles words into the current function.
    pub(crate) fn do_words<T: Toolchain>(
        &mut self,
        t: &T,
        words: &Vec<Sp<Word>>,
        call: bool,
    ) -> (res: UiuaResult<()>)
        requires
            orderly(t),
        ensures
            did_words(t, old(self)@, words_view(words@), call, final(self)@, res),
            place_kept(old(self)@, final(self)@, res is Ok),
    {
        reveal(orderly);
        let (comp, res) = t.words(self.taken(), words, call);
        *self = comp;
        res
    }

    /// Compiles a primitive into the current function.
    pub(crate) fn do_primitive<T: Toolchain>(
        &mut self,
        t: &T,
        prim: Primitive,
        span: &CodeSpan,
        call: bool,
    ) -> (res: UiuaResult<()>)
        requires
            orderly(t),
        ensures
            did_primitive(t, old(self)@, prim, *span, call, final(self)@, res),
            place_kept(old(self)@, final(self)@, res is Ok),
    {
        reveal(orderly);
        let (comp, res) = t.primitive(self.taken(), prim, span, call);
        *self = comp;
        res
    }

    /// Compiles a binding.
    pub(crate) fn do_binding<T: Toolchain>(
        &mut self,
        t: &T,
        binding: &Binding,
    ) -> (res: UiuaResult<()>)
        requires
            orderly(t),
        ensures
            did_binding(t, old(self)@, *binding, final(self)@, res),
            place_kept(old(self)@, final(self)@, res is Ok),
    {
        reveal(orderly);
        let (comp, res) = t.binding(self.taken(), binding);
        *self = comp;
        res
    }

    /// Compiles an import.
    pub(crate) fn do_import<T: Toolchain>(
        &mut self,
        t: &T,
        import: &Import,
    ) -> (res: UiuaResult<()>)
        requires
            orderly(t),
        ensures
            did_import(t, old(self)@, *import, final(self)@, res),
            place_kept(old(self)@, final(self)@, res is Ok),
    {
        reveal(orderly);
        let (comp, res) = t.import(self.taken(), import);
        *self = comp;
        res
    }

    /// The inverse of some code, where it has one.
    pub(crate) fn do_invert_instrs<T: Toolchain>(
        &mut self,
        t: &T,
        instrs: &Vec<Instr>,
    ) -> (res: Option<Vec<Instr>>)
        requires
            orderly(t),
        ensures
            did_invert_instrs(t, old(self)@, instrs@, final(self)@, res),
            place_kept(old(self)@, final(self)@, true),
            res matches Some(code) ==> code_fits(old(self)@, final(self)@, code@),
    {
        reveal(orderly);
        let (comp, res) = t.invert_instrs(self.taken(), instrs);
        *self = comp;
        res
    }

    /// What comes before and after the other function of an under, where some code allows it.
    pub(crate) fn do_under_instrs<T: Toolchain>(
        &mut self,
        t: &T,
        instrs: &Vec<Instr>,
        g_sig: Signature,
    ) -> (res: Option<(Vec<Instr>, Vec<Instr>)>)
        requires
            orderly(t),
        ensures
            did_under_instrs(t, old(self)@, instrs@, g_sig, final(self)@, res),
            place_kept(old(self)@, final(self)@, true),
            res matches Some(out) ==> {
                &&& code_fits(old(self)@, final(self)@, out.0@)
                &&& code_fits(old(self)@, final(self)@, out.1@)
            },
    {
        reveal(orderly);
        let (comp, res) = t.under_instrs(self.taken(), instrs, g_sig);
        *self = comp;
        res
    }

    /// Looks at the use of a name.
    pub(crate) fn do_validate_local<T: Toolchain>(
        &mut self,
        t: &T,
        name: &String,
        local: LocalName,
        span: &CodeSpan,
    )
        requires
            orderly(t),
        ensures
            did_validate_local(t, old(self)@, *name, local, *span, final(self)@),
            place_kept(old(self)@, final(self)@, true),
    {
        reveal(orderly);
        let comp = t.validate_local(self.taken(), name, local, span);
        *self = comp;
    }

    /// Complains about a primitive that is experimental.
    pub(crate) fn do_handle_primitive_experimental<T: Toolchain>(
        &mut self,
        t: &T,
        prim: Primitive,
        span: &CodeSpan,
    )
        requires
            orderly(t),
        ensures
            did_handle_primitive_experimental(t, old(self)@, prim, *span, final(self)@),
            place_kept(old(self)@, final(self)@, true),
    {
        reveal(orderly);
        let comp = t.handle_primitive_experimental(self.taken(), prim, span);
        *self = comp;
    }

    /// Complains about a primitive that is deprecated.
    pub(crate) fn do_handle_primitive_deprecation<T: Toolchain>(
        &mut self,
        t: &T,
        prim: Primitive,
        span: &CodeSpan,
    )
        requires
            orderly(t),
        ensures
            did_handle_primitive_deprecation(t, old(self)@, prim, *span, final(self)@),
            place_kept(old(self)@, final(self)@, true),
    {
        reveal(orderly);
        let comp = t.handle_primitive_deprecation(self.taken(), prim, span);
        *self = comp;
    }
}

impl MacroEnv {
    /// Takes the runtime out of its place, for a step that gives it back.
    fn taken(&mut self) -> (res: MacroEnv)
        ensures
            res == *old(self),
    {
        let mut res = MacroEnv { assembly: Assembly::new(), stack: Vec::new() };
        std::mem::swap(self, &mut res);
        res
    }

    /// Runs the code that is run when a program is loaded, without input and output.
    pub(crate) fn do_run_top_slices<T: Toolchain>(&mut self, t: &T) -> (res: UiuaResult<()>)
        requires
            orderly(t),
        ensures
            did_run_top_slices(t, old(self)@, final(self)@, res),
            final(self)@.assembly.bindings.len() <= old(self)@.assembly.bindings.len(),
    {
        reveal(orderly);
        let (env, res) = t.run_top_slices(self.taken());
        *self = env;
        res
    }

    /// Runs an assembly.
    pub(crate) fn do_run_assembly<T: Toolchain>(
        &mut self,
        t: &T,
        assembly: &Assembly,
    ) -> (res: UiuaResult<()>)
        ensures
            did_run_assembly(t, old(self)@, assembly@, final(self)@, res),
    {
        let (env, res) = t.run_assembly(self.taken(), assembly);
        *self = env;
        res
    }

    /// Calls a function.
    pub(crate) fn do_call_function<T: Toolchain>(
        &mut self,
        t: &T,
        function: &Function,
    ) -> (res: UiuaResult<()>)
        requires
            orderly(t),
        ensures
            did_call_function(t, old(self)@, *function, final(self)@, res),
            final(self)@.assembly.bindings.len() <= old(self)@.assembly.bindings.len(),
    {
        reveal(orderly);
        let (env, res) = t.call_function(self.taken(), function);
        *self = env;
        res
    }
}

} // verus!
