//! The state of the compiler and the elementary steps that change it.
use crate::assembly::{Assembly, AssemblyV};
use crate::eco::{code_clone, code_new, code_of, code_push, code_slice};
use crate::instr::{backward, body_of, grounded, slice_end, FuncSlice, Function, Instr};
use crate::keeping::{
    code_fits, lemma_grounded_concat, lemma_kept_body, lemma_kept_code, lemma_kept_on, place_kept,
};
use crate::message::{Diagnostic, DiagnosticKind, Message, UiuaError, UiuaResult};
use crate::names::{names_clone, names_new, names_of, LocalName};
use crate::prim::Signature;
use crate::span::{CodeSpan, Sp, Span};
use crate::table::{Expansion, Table};
use crate::value::Value;
use crate::word::{clone_words, words_view, FunctionId, Word, WordV};
use ecow::EcoVec;
use indexmap::IndexMap;
use std::collections::{BTreeSet, HashMap};
use vstd::prelude::*;

verus! {

/// What a scope belongs to.
#[derive(Debug, Clone, Copy, PartialEq, Eq, Structural)]
pub enum ScopeKind {
    File,
    Module,
    /// The expansion of a macro.
    Temp,
    Test,
}

/// A scope for names.
#[derive(Debug)]
pub struct Scope {
    pub kind: ScopeKind,
    pub names: IndexMap<String, LocalName>,
    /// Whether experimental features are enabled.
    pub experimental: bool,
    /// For each bind around the current code, the numbers of the local values that it uses.
    pub bind_locals: Vec<BTreeSet<usize>>,
}

/// A macro that is expanded word by word.
#[derive(Debug)]
pub struct StackMacro {
    pub words: Vec<Sp<Word>>,
    pub names: IndexMap<String, LocalName>,
}

/// A macro that is run on the texts of its operands.
#[derive(Debug)]
pub struct ArrayMacro {
    pub function: Function,
    pub names: IndexMap<String, LocalName>,
}

/// Whether and when code is run while it is compiled.
#[derive(Debug, Clone, Copy, PartialEq, Eq, Structural)]
pub enum PreEvalMode {
    Normal,
    Lazy,
    /// For the language server, which only looks at the code.
    Lsp,
}

/// The runtime that macros are run in.
#[derive(Debug)]
pub struct MacroEnv {
    pub assembly: Assembly,
    /// The main stack, with its top last.
    pub stack: Vec<Value>,
}

/// What is known about places in the code.
#[derive(Debug)]
pub struct CodeMeta {
    /// The bindings that names refer to.
    pub global_references: Table<Sp<String>, usize>,
    /// What macros expanded to.
    pub macro_expansions: Table<CodeSpan, Expansion>,
}

/// The compiler.
#[derive(Debug)]
pub struct Compiler {
    pub assembly: Assembly,
    /// The code of the functions that are being compiled, the innermost last.
    pub new_functions: Vec<EcoVec<Instr>>,
    pub scope: Scope,
    /// The scopes around the current one, the innermost last.
    pub higher_scopes: Vec<Scope>,
    /// The macros that are expanded word by word, by the numbers of their bindings.
    pub stack_macros: HashMap<usize, StackMacro>,
    /// The macros that are run, by the numbers of their bindings.
    pub array_macros: HashMap<usize, ArrayMacro>,
    /// How many macros are being expanded.
    pub macro_depth: usize,
    pub code_meta: CodeMeta,
    pub pre_eval_mode: PreEvalMode,
    pub macro_env: MacroEnv,
    pub errors: Vec<UiuaError>,
    pub diagnostics: Vec<Diagnostic>,
}

/// The model of a scope.
#[verifier::ext_equal]
pub struct ScopeV {
    pub kind: ScopeKind,
    pub names: Seq<(Seq<char>, LocalName)>,
    pub experimental: bool,
    pub bind_locals: Seq<Set<usize>>,
}

/// The model of the runtime that macros are run in.
#[verifier::ext_equal]
pub struct EnvV {
    pub assembly: AssemblyV,
    pub stack: Seq<Value>,
}

/// The model of a macro that is expanded word by word.
#[verifier::ext_equal]
pub struct StackMacroV {
    pub words: Seq<Sp<WordV>>,
    pub names: Seq<(Seq<char>, LocalName)>,
}

/// The model of a macro that is run.
#[verifier::ext_equal]
pub struct ArrayMacroV {
    pub function: Function,
    pub names: Seq<(Seq<char>, LocalName)>,
}

/// The model of the compiler.
#[verifier::ext_equal]
pub struct CompilerV {
    pub assembly: AssemblyV,
    pub frames: Seq<Seq<Instr>>,
    pub scope: ScopeV,
    pub higher_scopes: Seq<ScopeV>,
    pub stack_macros: Map<usize, StackMacro>,
    pub array_macros: Map<usize, ArrayMacro>,
    pub macro_depth: usize,
    pub references: Map<(Seq<char>, CodeSpan), usize>,
    pub expansions: Map<CodeSpan, Expansion>,
    pub pre_eval_mode: PreEvalMode,
    pub env: EnvV,
    pub errors: Seq<UiuaError>,
    pub diagnostics: Seq<Diagnostic>,
}

impl View for Scope {
    type V = ScopeV;

    open spec fn view(&self) -> ScopeV {
        ScopeV {
            kind: self.kind,
            names: names_of(self.names),
            experimental: self.experimental,
            bind_locals: self.bind_locals@.map_values(|locals: BTreeSet<usize>| locals@),
        }
    }
}

impl View for MacroEnv {
    type V = EnvV;

    open spec fn view(&self) -> EnvV {
        EnvV { assembly: self.assembly@, stack: self.stack@ }
    }
}

impl View for StackMacro {
    type V = StackMacroV;

    open spec fn view(&self) -> StackMacroV {
        StackMacroV { words: words_view(self.words@), names: names_of(self.names) }
    }
}

impl View for ArrayMacro {
    type V = ArrayMacroV;

    open spec fn view(&self) -> ArrayMacroV {
        ArrayMacroV { function: self.function, names: names_of(self.names) }
    }
}

/// The code of some functions.
pub open spec fn frames_view(frames: Seq<EcoVec<Instr>>) -> Seq<Seq<Instr>> {
    frames.map_values(|frame: EcoVec<Instr>| code_of(frame))
}

/// The models of some scopes.
pub open spec fn scopes_view(scopes: Seq<Scope>) -> Seq<ScopeV> {
    scopes.map_values(|scope: Scope| scope@)
}

impl View for Compiler {
    type V = CompilerV;

    open spec fn view(&self) -> CompilerV {
        CompilerV {
            assembly: self.assembly@,
            frames: frames_view(self.new_functions@),
            scope: self.scope@,
            higher_scopes: scopes_view(self.higher_scopes@),
            stack_macros: self.stack_macros@,
            array_macros: self.array_macros@,
            macro_depth: self.macro_depth,
            references: self.code_meta.global_references@,
            expansions: self.code_meta.macro_expansions@,
            pre_eval_mode: self.pre_eval_mode,
            env: self.macro_env@,
            errors: self.errors@,
            diagnostics: self.diagnostics@,
        }
    }
}

impl Clone for Scope {
    fn clone(&self) -> (res: Self)
        ensures
            res@ == self@,
    {
        let bind_locals = self.bind_locals.clone();
        let res = Scope {
            kind: self.kind,
            names: names_clone(&self.names),
            experimental: self.experimental,
            bind_locals,
        };
        assert(res@.bind_locals =~= self@.bind_locals);
        res
    }
}

impl Clone for StackMacro {
    fn clone(&self) -> (res: Self)
        ensures
            res@ == self@,
    {
        StackMacro { words: clone_words(&self.words), names: names_clone(&self.names) }
    }
}

impl Clone for ArrayMacro {
    fn clone(&self) -> (res: Self)
        ensures
            res@ == self@,
    {
        ArrayMacro { function: self.function.clone(), names: names_clone(&self.names) }
    }
}

impl Clone for MacroEnv {
    fn clone(&self) -> (res: Self)
        ensures
            res@ == self@,
    {
        let stack = self.stack.clone();
        assert(stack@ =~= self.stack@);
        MacroEnv { assembly: self.assembly.clone(), stack }
    }
}

impl Clone for Compiler {
    fn clone(&self) -> (res: Self)
        ensures
            res@ == self@,
    {
        let mut new_functions: Vec<EcoVec<Instr>> = Vec::new();
        for i in 0..self.new_functions.len()
            invariant
                new_functions.len() == i,
                forall|j: int|
                    0 <= j < i ==> code_of(#[trigger] new_functions@[j]) == code_of(
                        self.new_functions@[j],
                    ),
        {
            new_functions.push(code_clone(&self.new_functions[i]));
        }
        assert(frames_view(new_functions@) =~= frames_view(self.new_functions@));
        let higher_scopes = self.higher_scopes.clone();
        assert(scopes_view(higher_scopes@) =~= scopes_view(self.higher_scopes@));
        let errors = self.errors.clone();
        assert(errors@ =~= self.errors@);
        let diagnostics = self.diagnostics.clone();
        assert(diagnostics@ =~= self.diagnostics@);
        Compiler {
            assembly: self.assembly.clone(),
            new_functions,
            scope: self.scope.clone(),
            higher_scopes,
            stack_macros: self.stack_macros.clone(),
            array_macros: self.array_macros.clone(),
            macro_depth: self.macro_depth,
            code_meta: CodeMeta {
                global_references: self.code_meta.global_references.copied(),
                macro_expansions: self.code_meta.macro_expansions.copied(),
            },
            pre_eval_mode: self.pre_eval_mode,
            macro_env: self.macro_env.clone(),
            errors,
            diagnostics,
        }
    }
}

/// Everything that the steps of the compiler rely on: code only pushes functions that are in
/// the assembly before it, the runtime of macros knows no bindings that the assembly does not
/// have, and there is room to count the local values of a bind.
pub open spec fn well_formed(v: CompilerV) -> bool {
    &&& backward(v.assembly.instrs)
    &&& forall|i: int|
        0 <= i < v.frames.len() ==> grounded(#[trigger] v.frames[i], v.assembly.instrs.len())
    &&& v.env.assembly.bindings.len() <= v.assembly.bindings.len()
    &&& room_for_locals(v.scope)
    &&& forall|i: int|
        0 <= i < v.higher_scopes.len() ==> room_for_locals(#[trigger] v.higher_scopes[i])
}

/// There is room to count the local values of each bind in a scope.
pub open spec fn room_for_locals(scope: ScopeV) -> bool {
    forall|i: int, n: usize|
        0 <= i < scope.bind_locals.len() && #[trigger] scope.bind_locals[i].contains(n) ==> n
            < usize::MAX / 2
}

/// A compiler whose current function has one more instruction. Where no function is being
/// compiled, the instruction goes into the assembly.
pub open spec fn with_instr(v: CompilerV, instr: Instr) -> CompilerV {
    with_code(v, seq![instr])
}

/// A compiler whose current function has some more instructions. Where no function is being
/// compiled, the instructions go into the assembly.
pub open spec fn with_code(v: CompilerV, code: Seq<Instr>) -> CompilerV {
    if v.frames.len() == 0 {
        CompilerV {
            assembly: AssemblyV { instrs: v.assembly.instrs + code, ..v.assembly },
            ..v
        }
    } else {
        CompilerV { frames: v.frames.drop_last().push(v.frames.last() + code), ..v }
    }
}

/// The function that would be made next from some code.
pub open spec fn next_function(
    v: CompilerV,
    id: FunctionId,
    sig: Signature,
    code: Seq<Instr>,
) -> Function {
    Function {
        id,
        sig,
        slice: FuncSlice { start: v.assembly.instrs.len() as usize, len: code.len() as usize },
    }
}

/// A compiler that has put the code of a function into the assembly.
pub open spec fn with_body(v: CompilerV, code: Seq<Instr>) -> CompilerV {
    CompilerV { assembly: AssemblyV { instrs: v.assembly.instrs + code, ..v.assembly }, ..v }
}

/// A compiler that has made an anonymous function from some code and pushes it.
pub open spec fn with_function(
    v: CompilerV,
    span: CodeSpan,
    sig: Signature,
    code: Seq<Instr>,
) -> CompilerV {
    with_instr(
        with_body(v, code),
        Instr::PushFunc(next_function(v, FunctionId::Anonymous(span), sig, code)),
    )
}

/// A compiler with one more span in its list.
pub open spec fn with_span(v: CompilerV, span: CodeSpan) -> CompilerV {
    CompilerV {
        assembly: AssemblyV { spans: v.assembly.spans.push(Span::Code(span)), ..v.assembly },
        ..v
    }
}

/// The number of the next span.
pub open spec fn next_span(v: CompilerV) -> usize {
    v.assembly.spans.len() as usize
}

/// A compiler with one more diagnostic.
pub open spec fn with_diagnostic(
    v: CompilerV,
    message: Message,
    kind: DiagnosticKind,
    span: CodeSpan,
) -> CompilerV {
    CompilerV { diagnostics: v.diagnostics.push(Diagnostic { message, kind, span }), ..v }
}

/// A compiler with one more error.
pub open spec fn with_error(v: CompilerV, span: CodeSpan, message: Message) -> CompilerV {
    CompilerV { errors: v.errors.push(UiuaError::Fatal { span, message }), ..v }
}

/// A compiler that starts on a new function.
pub open spec fn with_frame(v: CompilerV) -> CompilerV {
    CompilerV { frames: v.frames.push(Seq::empty()), ..v }
}

/// A compiler that has finished the function it was on.
pub open spec fn without_frame(v: CompilerV) -> CompilerV {
    CompilerV { frames: v.frames.drop_last(), ..v }
}

/// A compiler that has emitted the code of a modifier: the code itself where the modifier is
/// called, else a function with that code.
pub open spec fn finished(
    v: CompilerV,
    span: CodeSpan,
    call: bool,
    sig: Signature,
    code: Seq<Instr>,
) -> CompilerV {
    if call {
        with_code(v, code)
    } else {
        with_function(v, span, sig, code)
    }
}

/// The same, with the signature stated around code that is called.
pub open spec fn emitted(
    v: CompilerV,
    span: CodeSpan,
    call: bool,
    sig: Signature,
    code: Seq<Instr>,
) -> CompilerV {
    if call {
        with_code(v, seq![Instr::PushSig(sig)] + code + seq![Instr::PopSig])
    } else {
        with_function(v, span, sig, code)
    }
}

/// Adding code in two steps is adding it in one.
pub proof fn lemma_with_code_twice(v: CompilerV, a: Seq<Instr>, b: Seq<Instr>)
    ensures
        with_code(with_code(v, a), b) == with_code(v, a + b),
{
    if v.frames.len() == 0 {
        assert(v.assembly.instrs + a + b =~= v.assembly.instrs + (a + b));
    } else {
        let once = with_code(v, a);
        assert(once.frames.drop_last() =~= v.frames.drop_last());
        assert(v.frames.last() + a + b =~= v.frames.last() + (a + b));
    }
}

/// A function that was made from some code has that code as its body, however much is added to
/// the assembly after it.
pub proof fn law_function_has_code(
    v: CompilerV,
    id: FunctionId,
    sig: Signature,
    code: Seq<Instr>,
    more: Seq<Instr>,
)
    requires
        v.assembly.instrs.len() + code.len() <= usize::MAX,
    ensures
        body_of(
            next_function(v, id, sig, code),
            with_body(v, code).assembly.instrs + more,
        ) == code,
{
    let all = v.assembly.instrs + code + more;
    assert(all.subrange(
        v.assembly.instrs.len() as int,
        (v.assembly.instrs.len() + code.len()) as int,
    ) =~= code);
}

/// A modifier that is not called leaves, as the last instruction, a push of a function whose body
/// is the code that it emits when it is called.
pub proof fn law_uncalled_is_a_function(
    v: CompilerV,
    span: CodeSpan,
    sig: Signature,
    code: Seq<Instr>,
)
    requires
        v.assembly.instrs.len() + code.len() <= usize::MAX,
    ensures
        ({
            let w = finished(v, span, false, sig, code);
            let last = if v.frames.len() == 0 {
                w.assembly.instrs.last()
            } else {
                w.frames.last().last()
            };
            &&& last matches Instr::PushFunc(f)
            &&& f.sig == sig
            &&& f.id == FunctionId::Anonymous(span)
            &&& body_of(f, w.assembly.instrs) == code
            &&& emitted(v, span, false, sig, code) == w
            &&& finished(v, span, true, sig, code) == with_code(v, code)
        }),
{
    let id = FunctionId::Anonymous(span);
    let w = finished(v, span, false, sig, code);
    let push = seq![Instr::PushFunc(next_function(v, id, sig, code))];
    law_function_has_code(v, id, sig, code, push);
    law_function_has_code(v, id, sig, code, Seq::empty());
    assert(with_body(v, code).assembly.instrs + Seq::<Instr>::empty() =~= with_body(
        v,
        code,
    ).assembly.instrs);
}

impl MacroEnv {
    /// Puts a value on the stack.
    pub fn push(&mut self, value: Value)
        ensures
            final(self)@ == (EnvV { stack: old(self)@.stack.push(value), ..old(self)@ }),
    {
        self.stack.push(value);
    }

    /// Takes the top value from the stack.
    pub fn pop(&mut self, what: &str) -> (res: UiuaResult<Value>)
        ensures
            match res {
                Ok(value) => old(self)@.stack.len() > 0 && value == old(self)@.stack.last()
                    && final(self)@ == (EnvV {
                    stack: old(self)@.stack.drop_last(),
                    ..old(self)@
                }),
                Err(e) => old(self)@.stack.len() == 0 && final(self)@ == old(self)@
                    && is_stack_empty(e, what@),
            },
    {
        match self.stack.pop() {
            Some(value) => Ok(value),
            None => Err(UiuaError::StackEmpty { what: what.to_owned() }),
        }
    }

    /// Takes all values from the stack.
    pub fn take_stack(&mut self) -> (res: Vec<Value>)
        ensures
            res@ == old(self)@.stack,
            final(self)@ == (EnvV { stack: Seq::empty(), ..old(self)@ }),
    {
        let mut stack: Vec<Value> = Vec::new();
        std::mem::swap(&mut stack, &mut self.stack);
        stack
    }
}

/// An error that says that a value was not there.
pub open spec fn is_stack_empty(error: UiuaError, what: Seq<char>) -> bool {
    error matches UiuaError::StackEmpty { what: w } && w@ == what
}

/// The instructions of a slice.
fn copy_code(code: &[Instr]) -> (res: Vec<Instr>)
    ensures
        res@ == code@,
{
    let mut res: Vec<Instr> = Vec::new();
    let n: usize = code.len();
    for i in 0..n
        invariant
            n == code@.len(),
            res@ == code@.take(i as int),
    {
        res.push(code[i].clone());
        assert(res@ =~= code@.take(i + 1));
    }
    assert(res@ =~= code@);
    res
}

impl Compiler {
    /// A compiler that has not been given anything yet.
    pub fn new() -> (res: Compiler)
        ensures
            well_formed(res@),
            res@.frames.len() == 0,
            res@.higher_scopes.len() == 0,
            res@.scope == (ScopeV {
                kind: ScopeKind::File,
                names: Seq::empty(),
                experimental: false,
                bind_locals: Seq::empty(),
            }),
            res@.macro_depth == 0,
            res@.pre_eval_mode == PreEvalMode::Normal,
            res@.stack_macros == Map::<usize, StackMacro>::empty(),
            res@.array_macros == Map::<usize, ArrayMacro>::empty(),
            res@.references == Map::<(Seq<char>, CodeSpan), usize>::empty(),
            res@.expansions == Map::<CodeSpan, Expansion>::empty(),
            res@.assembly.instrs.len() == 0,
            res@.assembly.top_slices.len() == 0,
            res@.assembly.bindings.len() == 0,
            res@.assembly.spans.len() == 0,
            res@.assembly.inputs.len() == 0,
            res@.env.assembly == res@.assembly,
            res@.env.stack.len() == 0,
            res@.errors.len() == 0,
            res@.diagnostics.len() == 0,
    {
        let res = Compiler {
            assembly: Assembly::new(),
            new_functions: Vec::new(),
            scope: Scope {
                kind: ScopeKind::File,
                names: names_new(),
                experimental: false,
                bind_locals: Vec::new(),
            },
            higher_scopes: Vec::new(),
            stack_macros: HashMap::new(),
            array_macros: HashMap::new(),
            macro_depth: 0,
            code_meta: CodeMeta { global_references: Table::new(), macro_expansions: Table::new() },
            pre_eval_mode: PreEvalMode::Normal,
            macro_env: MacroEnv { assembly: Assembly::new(), stack: Vec::new() },
            errors: Vec::new(),
            diagnostics: Vec::new(),
        };
        assert(res@.scope.bind_locals =~= Seq::empty());
        res
    }

    /// Adds an instruction to the current function.
    pub fn push_instr(&mut self, instr: Instr)
        ensures
            final(self)@ == with_instr(old(self)@, instr),
            code_fits(old(self)@, old(self)@, seq![instr]) ==> place_kept(
                old(self)@,
                final(self)@,
                true,
            ),
    {
        let ghost v = self@;
        match self.new_functions.pop() {
            Some(frame) => {
                let mut frame = frame;
                code_push(&mut frame, instr);
                assert(frames_view(self.new_functions@) =~= v.frames.drop_last());
                self.new_functions.push(frame);
                assert(code_of(frame) =~= v.frames.last() + seq![instr]);
                assert(self@.frames =~= with_instr(v, instr).frames);
            },
            None => {
                self.assembly.instrs.push(instr);
                assert(self@.frames =~= v.frames);
                assert(self@.assembly.instrs =~= v.assembly.instrs + seq![instr]);
            },
        }
        assert(self@ =~= with_instr(v, instr));
        proof {
            if code_fits(v, v, seq![instr]) {
                lemma_kept_code(v, seq![instr]);
            }
        }
    }

    /// Adds instructions to the current function.
    pub fn push_all_instrs(&mut self, instrs: Vec<Instr>)
        ensures
            final(self)@ == with_code(old(self)@, instrs@),
            code_fits(old(self)@, old(self)@, instrs@) ==> place_kept(
                old(self)@,
                final(self)@,
                true,
            ),
    {
        let ghost v = self@;
        proof {
            if v.frames.len() == 0 {
                assert(v.assembly.instrs + Seq::<Instr>::empty() =~= v.assembly.instrs);
            } else {
                assert(v.frames.last() + Seq::<Instr>::empty() =~= v.frames.last());
                assert(v.frames.drop_last().push(v.frames.last()) =~= v.frames);
            }
            assert(with_code(v, instrs@.take(0)) =~= v) by {
                assert(instrs@.take(0) =~= Seq::<Instr>::empty());
            }
        }
        for i in 0..instrs.len()
            invariant
                self@ == with_code(v, instrs@.take(i as int)),
        {
            self.push_instr(instrs[i].clone());
            proof {
                lemma_with_code_twice(v, instrs@.take(i as int), seq![instrs@[i as int]]);
                assert(instrs@.take(i + 1) =~= instrs@.take(i as int) + seq![instrs@[i as int]]);
            }
        }
        assert(instrs@.take(instrs@.len() as int) =~= instrs@);
        proof {
            if code_fits(v, v, instrs@) {
                lemma_kept_code(v, instrs@);
            }
        }
    }

    /// Puts the code of a function into the assembly.
    pub fn make_function(&mut self, id: FunctionId, sig: Signature, instrs: Vec<Instr>) -> (res:
        Function)
        ensures
            res == next_function(old(self)@, id, sig, instrs@),
            final(self)@ == with_body(old(self)@, instrs@),
            code_fits(old(self)@, old(self)@, instrs@) ==> place_kept(
                old(self)@,
                final(self)@,
                true,
            ),
            slice_end(res.slice) == final(self)@.assembly.instrs.len(),
    {
        proof {
            if code_fits(self@, self@, instrs@) {
                lemma_kept_body(self@, instrs@);
            }
        }
        let start: usize = self.assembly.instrs.len();
        let len: usize = instrs.len();
        let mut instrs = instrs;
        self.assembly.instrs.append(&mut instrs);
        assert(self.assembly.instrs.len() == self.assembly.instrs@.len());
        Function { id, sig, slice: FuncSlice { start, len } }
    }

    /// Adds a span to the list of spans.
    pub fn add_span(&mut self, span: CodeSpan) -> (res: usize)
        ensures
            res == next_span(old(self)@),
            final(self)@ == with_span(old(self)@, span),
            place_kept(old(self)@, final(self)@, true),
    {
        let res: usize = self.assembly.spans.len();
        self.assembly.spans.push(Span::Code(span));
        res
    }

    /// Adds a diagnostic.
    pub fn emit_diagnostic(&mut self, message: Message, kind: DiagnosticKind, span: CodeSpan)
        ensures
            final(self)@ == with_diagnostic(old(self)@, message, kind, span),
            place_kept(old(self)@, final(self)@, true),
    {
        self.diagnostics.push(Diagnostic { message, kind, span });
    }

    /// An error at a place.
    pub fn fatal_error(&self, span: CodeSpan, message: Message) -> (res: UiuaError)
        ensures
            res == (UiuaError::Fatal { span, message }),
    {
        UiuaError::Fatal { span, message }
    }

    /// Adds an error that does not stop the compilation at once.
    pub fn add_error(&mut self, span: CodeSpan, message: Message)
        ensures
            final(self)@ == with_error(old(self)@, span, message),
            place_kept(old(self)@, final(self)@, true),
    {
        self.errors.push(UiuaError::Fatal { span, message });
    }

    /// Starts on a new function.
    pub fn open_function(&mut self)
        ensures
            final(self)@ == with_frame(old(self)@),
    {
        let ghost v = self@;
        self.new_functions.push(code_new());
        assert(self@.frames =~= with_frame(v).frames);
    }

    /// Finishes the current function and hands over its code.
    pub fn close_function(&mut self) -> (res: Vec<Instr>)
        requires
            old(self)@.frames.len() > 0,
        ensures
            res@ == old(self)@.frames.last(),
            final(self)@ == without_frame(old(self)@),
    {
        let ghost v = self@;
        match self.new_functions.pop() {
            Some(frame) => {
                assert(self@.frames =~= v.frames.drop_last());
                copy_code(code_slice(&frame))
            },
            None => Vec::new(),
        }
    }

    /// The last instruction of the current function.
    pub fn last_instr(&self) -> (res: Option<Instr>)
        ensures
            res == last_instr_of(self@),
    {
        let n: usize = self.new_functions.len();
        if n == 0 {
            return None;
        }
        let code: &[Instr] = code_slice(&self.new_functions[n - 1]);
        assert(self@.frames.last() == code@);
        let len: usize = code.len();
        if len == 0 {
            None
        } else {
            Some(code[len - 1].clone())
        }
    }

    /// Makes an anonymous function from some code and pushes it.
    pub fn push_function(&mut self, span: CodeSpan, sig: Signature, instrs: Vec<Instr>)
        ensures
            final(self)@ == with_function(old(self)@, span, sig, instrs@),
            code_fits(old(self)@, old(self)@, instrs@) ==> place_kept(
                old(self)@,
                final(self)@,
                true,
            ),
    {
        let ghost v = self@;
        let ghost code = instrs@;
        let func = self.make_function(FunctionId::Anonymous(span), sig, instrs);
        let ghost w = self@;
        self.push_instr(Instr::PushFunc(func));
        proof {
            assert(grounded(seq![Instr::PushFunc(func)], w.assembly.instrs.len()));
            if code_fits(v, v, code) {
                lemma_kept_on(v, w, self@, true);
            }
        }
    }

    /// Emits the code of a modifier: the code itself where the modifier is called, else a
    /// function with that code.
    pub fn finish(&mut self, span: CodeSpan, call: bool, sig: Signature, instrs: Vec<Instr>)
        ensures
            final(self)@ == finished(old(self)@, span, call, sig, instrs@),
            code_fits(old(self)@, old(self)@, instrs@) ==> place_kept(
                old(self)@,
                final(self)@,
                true,
            ),
    {
        if call {
            self.push_all_instrs(instrs);
        } else {
            self.push_function(span, sig, instrs);
        }
    }

    /// Emits the code of a modifier with its signature: the code itself where the modifier is
    /// called, else a function with that code.
    pub fn emit(&mut self, span: CodeSpan, call: bool, sig: Signature, instrs: Vec<Instr>)
        ensures
            final(self)@ == emitted(old(self)@, span, call, sig, instrs@),
            code_fits(old(self)@, old(self)@, instrs@) ==> place_kept(
                old(self)@,
                final(self)@,
                true,
            ),
    {
        if call {
            let ghost v = self@;
            self.push_instr(Instr::PushSig(sig));
            self.push_all_instrs(instrs);
            self.push_instr(Instr::PopSig);
            proof {
                let open = seq![Instr::PushSig(sig)];
                lemma_with_code_twice(v, open, instrs@);
                lemma_with_code_twice(v, open + instrs@, seq![Instr::PopSig]);
                if code_fits(v, v, instrs@) {
                    let limit = v.assembly.instrs.len();
                    if well_formed(v) {
                        lemma_grounded_concat(open, instrs@, limit);
                        lemma_grounded_concat(open + instrs@, seq![Instr::PopSig], limit);
                    }
                    lemma_kept_code(v, open + instrs@ + seq![Instr::PopSig]);
                }
            }
        } else {
            self.push_function(span, sig, instrs);
        }
    }
}

/// The last instruction of the function that is being compiled.
pub open spec fn last_instr_of(v: CompilerV) -> Option<Instr> {
    if v.frames.len() > 0 && v.frames.last().len() > 0 {
        Some(v.frames.last().last())
    } else {
        None
    }
}

/// The model of a compiler tells everything about it: its program, the functions that it is on, its
/// scopes, its macros, what it has noted, its mode, the runtime of macros and its complaints.
pub proof fn law_model_tells_compiler(c: Compiler)
    ensures
        c@.assembly.instrs == c.assembly.instrs@,
        c@.assembly.top_slices == c.assembly.top_slices@,
        c@.assembly.bindings == c.assembly.bindings@,
        c@.assembly.spans == c.assembly.spans@,
        c@.assembly.inputs == c.assembly.inputs.strings@,
        c@.env.assembly.instrs == c.macro_env.assembly.instrs@,
        c@.env.assembly.top_slices == c.macro_env.assembly.top_slices@,
        c@.env.assembly.bindings == c.macro_env.assembly.bindings@,
        c@.env.stack == c.macro_env.stack@,
        c@.frames.len() == c.new_functions@.len(),
        forall|i: int|
            0 <= i < c.new_functions@.len() ==> #[trigger] c@.frames[i] == code_of(
                c.new_functions@[i],
            ),
        c@.scope.kind == c.scope.kind,
        c@.scope.names == names_of(c.scope.names),
        c@.scope.experimental == c.scope.experimental,
        c@.scope.bind_locals.len() == c.scope.bind_locals@.len(),
        forall|i: int|
            0 <= i < c.scope.bind_locals@.len() ==> #[trigger] c@.scope.bind_locals[i]
                == c.scope.bind_locals@[i]@,
        c@.higher_scopes.len() == c.higher_scopes@.len(),
        forall|i: int|
            0 <= i < c.higher_scopes@.len() ==> #[trigger] c@.higher_scopes[i]
                == c.higher_scopes@[i]@,
        c@.stack_macros == c.stack_macros@,
        c@.array_macros == c.array_macros@,
        c@.macro_depth == c.macro_depth,
        c@.references == c.code_meta.global_references@,
        c@.expansions == c.code_meta.macro_expansions@,
        c@.pre_eval_mode == c.pre_eval_mode,
        c@.errors == c.errors@,
        c@.diagnostics == c.diagnostics@,
{
}

} // verus!
