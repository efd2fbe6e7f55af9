//! Modifiers with their operands.
use crate::compiler::{with_code, well_formed, ArrayMacro, Compiler, CompilerV, StackMacro};
use crate::guarded::{pieces_begun, pieces_finished};
use crate::inline::inlined;
use crate::instr::Instr;
use crate::keeping::{lemma_kept_framed_failure, lemma_kept_on, place_kept, scope_kept};
use crate::macros::{array_macro_used, stack_macro_used};
use crate::message::{Message, UiuaError, UiuaResult};
use crate::names::LocalName;
use crate::pack::{dip_ready, pack_of, unpack, unpacked};
use crate::prim::Primitive;
use crate::span::{merged, CodeSpan, Sp};
use crate::toolchain::{
    did_compile_words, did_modifier_text, did_primitive, did_ref_local, did_validate_local,
    orderly, Toolchain,
};
use crate::word::{
    code_words, is_code, required_args, Func, FuncV, FunctionId, Modified, ModifiedV, Modifier,
    ModifierV, Ref, RefComponent, RefV, Word, WordV,
};
use vstd::prelude::*;

verus! {

/// How deep macros can be nested.
pub const MAX_MACRO_DEPTH: usize = 20;

/// The function that stands for an operand that is missing.
pub open spec fn missing_operand(span: CodeSpan) -> Sp<WordV> {
    Sp {
        value: WordV::Func(
            FuncV {
                id: FunctionId::Anonymous(span),
                signature: None,
                lines: Seq::empty(),
                closed: false,
            },
        ),
        span,
    }
}

/// How many code operands a modifier lacks.
pub open spec fn missing_count(m: ModifiedV) -> nat {
    let given = code_words(m.operands).len();
    let required = required_args(m.modifier.value) as nat;
    if given < required {
        (required - given) as nat
    } else {
        0
    }
}

/// A modifier with an empty function for each operand that it lacks.
pub open spec fn completed(m: ModifiedV) -> ModifiedV {
    ModifiedV {
        operands: m.operands + Seq::new(
            missing_count(m),
            |i: int| missing_operand(m.modifier.span),
        ),
        ..m
    }
}

/// The number of operands that is held against what the modifier requires. Where operands were
/// added, it counts words that are not code as well.
pub open spec fn counted_operands(m: ModifiedV) -> nat {
    if missing_count(m) > 0 {
        completed(m).operands.len()
    } else {
        code_words(m.operands).len()
    }
}

/// What the error is when a modifier has the wrong number of operands.
pub open spec fn count_refused<T: Toolchain>(t: &T, m: ModifiedV, res: UiuaResult<()>) -> bool {
    exists|text: String| #[trigger]
        did_modifier_text(t, m.modifier.value, text) && res == Err::<(), UiuaError>(
            UiuaError::Fatal {
                span: m.modifier.span,
                message: Message::OperandCount {
                    modifier: text,
                    required: required_args(m.modifier.value),
                    given: counted_operands(m) as usize,
                },
            },
        )
}

/// What was done with a modifier that has no form of its own: its operands and the primitive were
/// compiled, one after the other.
pub open spec fn plainly_compiled<T: Toolchain>(
    t: &T,
    v: CompilerV,
    prim: Primitive,
    m: ModifiedV,
    call: bool,
    w: CompilerV,
    res: UiuaResult<()>,
) -> bool {
    let span = m.modifier.span;
    exists|u: CompilerV, code: UiuaResult<Vec<Instr>>| #[trigger]
        did_compile_words(t, v, m.operands, false, u, code) && match code {
            Err(e) => w == u && res == Err::<(), UiuaError>(e),
            Ok(code) => exists|x: CompilerV, out: UiuaResult<()>| #[trigger]
                did_primitive(
                    t,
                    with_code(pieces_begun(u, call), code@),
                    prim,
                    span,
                    true,
                    x,
                    out,
                ) && match out {
                    Err(e) => w == x && res == Err::<(), UiuaError>(e),
                    Ok(_) => pieces_finished(t, x, span, call, w, res),
                },
        }
}

/// The references with the modules of a path added, as far as there are locals for them.
pub open spec fn path_noted(
    references: Map<(Seq<char>, CodeSpan), usize>,
    path: Seq<RefComponent>,
    locals: Seq<LocalName>,
) -> Map<(Seq<char>, CodeSpan), usize>
    decreases locals.len(),
{
    if locals.len() == 0 {
        references
    } else {
        let before = path_noted(references, path, locals.drop_last());
        let i = locals.len() - 1;
        if i < path.len() {
            before.insert((path[i].module.value@, path[i].module.span), locals[i].index)
        } else {
            before
        }
    }
}

/// A compiler that has noted what the name of a macro and the modules of its path refer to, and
/// that one more macro is being expanded.
pub open spec fn macro_entered(
    v: CompilerV,
    r: RefV,
    locals: Seq<LocalName>,
    local: LocalName,
) -> CompilerV {
    let named = v.references.insert((r.name.value@, r.name.span), local.index);
    CompilerV {
        references: path_noted(named, r.path, locals),
        macro_depth: (v.macro_depth + 1) as usize,
        ..v
    }
}

/// What was done with the macro that a name stands for.
pub open spec fn macro_used<T: Toolchain>(
    t: &T,
    v: CompilerV,
    r: RefV,
    local: LocalName,
    m: ModifiedV,
    call: bool,
    w: CompilerV,
    res: UiuaResult<()>,
) -> bool {
    let name = r.name.value;
    if v.stack_macros.contains_key(local.index) {
        stack_macro_used(t, v, name, v.stack_macros[local.index]@, m, call, w, res)
    } else if v.array_macros.contains_key(local.index) {
        array_macro_used(t, v, name, v.array_macros[local.index]@, m, call, w, res)
    } else {
        &&& w == v
        &&& res == Err::<(), UiuaError>(
            UiuaError::Fatal { span: m.modifier.span, message: Message::MacroNotFound { name } },
        )
    }
}

/// What was done with a macro once it had been entered: it was used, unless macros were nested too
/// deep.
pub open spec fn macro_followed<T: Toolchain>(
    t: &T,
    v: CompilerV,
    r: RefV,
    local: LocalName,
    m: ModifiedV,
    call: bool,
    w: CompilerV,
    res: UiuaResult<()>,
) -> bool {
    if v.macro_depth > MAX_MACRO_DEPTH {
        &&& w == v
        &&& res == Err::<(), UiuaError>(
            UiuaError::Fatal { span: m.modifier.span, message: Message::MacroTooDeep },
        )
    } else {
        exists|u: CompilerV, out: UiuaResult<()>| #[trigger]
            macro_used(t, v, r, local, m, call, u, out) && match out {
                Err(e) => w == u && res == Err::<(), UiuaError>(e),
                Ok(_) => res is Ok && w == (CompilerV {
                    macro_depth: (u.macro_depth - 1) as usize,
                    ..u
                }),
            }
    }
}

/// What was done with a macro as a modifier.
pub open spec fn macro_compiled<T: Toolchain>(
    t: &T,
    v: CompilerV,
    r: RefV,
    m: ModifiedV,
    call: bool,
    w: CompilerV,
    res: UiuaResult<()>,
) -> bool {
    exists|found: UiuaResult<(Vec<LocalName>, LocalName)>| #[trigger]
        did_ref_local(t, v, r, found) && match found {
            Err(e) => w == v && res == Err::<(), UiuaError>(e),
            Ok((locals, local)) => exists|u: CompilerV| #[trigger]
                did_validate_local(t, v, r.name.value, local, r.name.span, u) && macro_followed(
                    t,
                    macro_entered(u, r, locals@, local),
                    r,
                    local,
                    m,
                    call,
                    w,
                    res,
                ),
        }
}

/// What was done with a modifier that is not applied to a pack.
pub open spec fn operands_compiled<T: Toolchain>(
    t: &T,
    v: CompilerV,
    m: ModifiedV,
    call: bool,
    w: CompilerV,
    res: UiuaResult<()>,
) -> bool {
    if counted_operands(m) != required_args(m.modifier.value) {
        w == v && count_refused(t, m, res)
    } else {
        let c = completed(m);
        exists|u: CompilerV, out: UiuaResult<bool>| #[trigger]
            inlined(t, v, c, call, u, out) && match out {
                Err(e) => w == u && res == Err::<(), UiuaError>(e),
                Ok(true) => w == u && res is Ok,
                Ok(false) => match m.modifier.value {
                    ModifierV::Primitive(prim) => plainly_compiled(t, u, prim, c, call, w, res),
                    ModifierV::Ref(r) => macro_compiled(t, u, r, c, call, w, res),
                },
            }
    }
}

/// What the error is when a pack has the wrong number of functions.
pub open spec fn pack_size_refused<T: Toolchain>(
    t: &T,
    m: ModifiedV,
    given: nat,
    span: CodeSpan,
    res: UiuaResult<()>,
) -> bool {
    exists|text: String| #[trigger]
        did_modifier_text(t, m.modifier.value, text) && res == Err::<(), UiuaError>(
            UiuaError::Fatal {
                span: merged(m.modifier.span, span),
                message: Message::PackSize {
                    modifier: text,
                    required: required_args(m.modifier.value),
                    given: given as usize,
                },
            },
        )
}

/// What the error is when a modifier does not take packs.
pub open spec fn pack_refused<T: Toolchain>(
    t: &T,
    m: ModifiedV,
    span: CodeSpan,
    res: UiuaResult<()>,
) -> bool {
    exists|text: String| #[trigger]
        did_modifier_text(t, m.modifier.value, text) && res == Err::<(), UiuaError>(
            UiuaError::Fatal {
                span: merged(m.modifier.span, span),
                message: Message::PackUnsupported { modifier: text },
            },
        )
}

/// Whether a modifier takes a pack as it is: only a macro that is run does.
pub open spec fn takes_pack<T: Toolchain>(
    t: &T,
    v: CompilerV,
    modifier: ModifierV,
    res: bool,
) -> bool {
    match modifier {
        ModifierV::Primitive(_) => !res,
        ModifierV::Ref(r) => exists|found: UiuaResult<(Vec<LocalName>, LocalName)>| #[trigger]
            did_ref_local(t, v, r, found) && res == match found {
                Ok((_, local)) => v.array_macros.contains_key(local.index),
                Err(_) => false,
            },
    }
}

/// What `modified` did.
pub open spec fn modified_done<T: Toolchain>(
    t: &T,
    v: CompilerV,
    m: ModifiedV,
    call: bool,
    w: CompilerV,
    res: UiuaResult<()>,
) -> bool {
    match pack_of(m) {
        None => operands_compiled(t, v, m, call, w, res),
        Some((branches, span)) => match unpacked(m.modifier, branches, span) {
            Some(new) => operands_compiled(t, v, new, call, w, res),
            None => if required_args(m.modifier.value) >= 2 {
                w == v && pack_size_refused(t, m, branches.len(), span, res)
            } else {
                exists|taken: bool| #[trigger]
                    takes_pack(t, v, m.modifier.value, taken) && if taken {
                        operands_compiled(t, v, m, call, w, res)
                    } else {
                        w == v && pack_refused(t, m, span, res)
                    }
            },
        },
    }
}

/// A modifier that can be compiled: a macro has an operand or takes one, and a pack that a dip is
/// applied to can be written without it.
pub open spec fn compilable(m: ModifiedV) -> bool {
    &&& m.modifier.value is Ref ==> required_args(m.modifier.value) > 0 || m.operands.len() > 0
    &&& m.modifier.value == ModifierV::Primitive(Primitive::Dip) ==> (pack_of(m) matches Some(
        (branches, _),
    ) ==> dip_ready(branches))
}

/// Words that are code are no more than all words, and where they are as many they are all words.
proof fn lemma_code_count(words: Seq<Sp<WordV>>)
    ensures
        code_words(words).len() <= words.len(),
        code_words(words).len() == words.len() ==> code_words(words) == words,
    decreases words.len(),
{
    reveal(Seq::filter);
    if words.len() > 0 {
        lemma_code_count(words.drop_last());
        assert(words.drop_last().push(words.last()) =~= words);
    } else {
        assert(code_words(words) =~= words);
    }
}

/// Words with one more that is code.
proof fn lemma_code_pushed(words: Seq<Sp<WordV>>, word: Sp<WordV>)
    requires
        is_code(word.value),
    ensures
        code_words(words.push(word)) == code_words(words).push(word),
{
    reveal(Seq::filter);
    assert(words.push(word).drop_last() =~= words);
}

/// The code operands of a modifier with the operands that it lacked.
proof fn lemma_code_completed(words: Seq<Sp<WordV>>, word: Sp<WordV>, n: nat)
    requires
        is_code(word.value),
    ensures
        code_words(words + Seq::new(n, |i: int| word)).len() == code_words(words).len() + n,
    decreases n,
{
    let more = Seq::new(n, |i: int| word);
    if n == 0 {
        assert(words + more =~= words);
    } else {
        let fewer = Seq::new((n - 1) as nat, |i: int| word);
        lemma_code_completed(words, word, (n - 1) as nat);
        assert(words + more =~= (words + fewer).push(word));
        lemma_code_pushed(words + fewer, word);
    }
}

/// A modifier whose operands pass the count has as many code operands as it requires, after those
/// that it lacked were added.
pub proof fn law_count_is_of_code(m: ModifiedV)
    ensures
        counted_operands(m) == required_args(m.modifier.value) ==> code_words(
            completed(m).operands,
        ).len() == required_args(m.modifier.value),
{
    let n = missing_count(m);
    lemma_code_completed(m.operands, missing_operand(m.modifier.span), n);
    assert(completed(m).operands =~= m.operands + Seq::new(
        n,
        |i: int| missing_operand(m.modifier.span),
    ));
}

/// Macros cannot be nested deeper than the limit: at the limit, no further one is expanded. Either
/// its name is unknown, or it is refused.
pub proof fn law_depth_is_limited<T: Toolchain>(
    t: &T,
    v: CompilerV,
    r: RefV,
    m: ModifiedV,
    call: bool,
    w: CompilerV,
    res: UiuaResult<()>,
)
    requires
        orderly(t),
        MAX_MACRO_DEPTH <= v.macro_depth < usize::MAX,
        macro_compiled(t, v, r, m, call, w, res),
    ensures
        res == Err::<(), UiuaError>(
            UiuaError::Fatal { span: m.modifier.span, message: Message::MacroTooDeep },
        ) || (w == v && res is Err && did_ref_local(t, v, r, Err(res->Err_0))),
{
    reveal(orderly);
}

impl Compiler {
    /// Compiles a modifier that has no form of its own.
    fn compile_plainly<T: Toolchain>(
        &mut self,
        t: &T,
        prim: Primitive,
        m: &Modified,
        call: bool,
    ) -> (res: UiuaResult<()>)
        requires
            orderly(t),
            well_formed(old(self)@),
        ensures
            plainly_compiled(t, old(self)@, prim, m@, call, final(self)@, res),
            place_kept(old(self)@, final(self)@, res is Ok),
    {
        let ghost v = self@;
        let code = self.do_compile_words(t, &m.operands, false);
        let ghost u = self@;
        assert(did_compile_words(t, v, m@.operands, false, u, code));
        match code {
            Err(e) => Err(e),
            Ok(instrs) => {
                self.begin_pieces(call);
                let ghost begun = self@;
                self.push_all_instrs(instrs);
                let ghost pushed = self@;
                let out = self.do_primitive(t, prim, &m.modifier.span, true);
                let ghost x = self@;
                proof {
                    assert(did_primitive(t, pushed, prim, m.modifier.span, true, x, out));
                    lemma_kept_on(begun, pushed, x, out is Ok);
                }
                if let Err(e) = out {
                    proof {
                        if call {
                            lemma_kept_on(v, u, x, false);
                        } else {
                            lemma_kept_framed_failure(u, x, false);
                            lemma_kept_on(v, u, x, false);
                        }
                    }
                    return Err(e);
                }
                let res = self.finish_pieces(t, &m.modifier.span, call);
                proof {
                    lemma_kept_on(v, u, self@, res is Ok);
                }
                res
            },
        }
    }

    /// Notes what the name of a macro and the modules of its path refer to.
    fn note_references(&mut self, r: &Ref, locals: &Vec<LocalName>, local: LocalName)
        ensures
            final(self)@ == (CompilerV {
                references: path_noted(
                    old(self)@.references.insert((r.name.value@, r.name.span), local.index),
                    r@.path,
                    locals@,
                ),
                ..old(self)@
            }),
    {
        let ghost v = self@;
        self.code_meta.global_references.insert(r.name.clone(), local.index);
        let ghost named = self@.references;
        for i in 0..locals.len()
            invariant
                self@ == (CompilerV {
                    references: path_noted(named, r.path@, locals@.take(i as int)),
                    ..v
                }),
        {
            assert(locals@.take(i + 1).drop_last() =~= locals@.take(i as int));
            if i < r.path.len() {
                self.code_meta.global_references.insert(
                    r.path[i].module.clone(),
                    locals[i].index,
                );
            }
        }
        assert(locals@.take(locals@.len() as int) =~= locals@);
    }

    /// Uses the macro that a name stands for.
    fn use_macro<T: Toolchain>(
        &mut self,
        t: &T,
        r: &Ref,
        local: LocalName,
        m: &Modified,
        call: bool,
    ) -> (res: UiuaResult<()>)
        requires
            orderly(t),
            well_formed(old(self)@),
            m@.operands.len() > 0,
        ensures
            macro_used(t, old(self)@, r@, local, m@, call, final(self)@, res),
            place_kept(old(self)@, final(self)@, res is Ok),
    {
        broadcast use vstd::std_specs::hash::group_hash_axioms;

        let name = &r.name.value;
        let stack_macro: Option<StackMacro> = match self.stack_macros.get(&local.index) {
            Some(mac) => Some(mac.clone()),
            None => None,
        };
        if let Some(mac) = stack_macro {
            return self.use_stack_macro(t, name, mac, m, call);
        }
        let array_macro: Option<ArrayMacro> = match self.array_macros.get(&local.index) {
            Some(mac) => Some(mac.clone()),
            None => None,
        };
        if let Some(mac) = array_macro {
            return self.use_array_macro(t, name, mac, m, call);
        }
        proof {
            lemma_kept_aside_self(self@);
        }
        Err(
            self.fatal_error(
                m.modifier.span.clone(),
                Message::MacroNotFound { name: name.clone() },
            ),
        )
    }

    /// Compiles a macro as a modifier.
    fn compile_macro<T: Toolchain>(&mut self, t: &T, r: &Ref, m: &Modified, call: bool) -> (res:
        UiuaResult<()>)
        requires
            orderly(t),
            well_formed(old(self)@),
            old(self)@.macro_depth < usize::MAX,
            m@.operands.len() > 0,
        ensures
            macro_compiled(t, old(self)@, r@, m@, call, final(self)@, res),
            place_kept(old(self)@, final(self)@, res is Ok),
    {
        let ghost v = self@;
        let found = t.ref_local(self, r);
        assert(did_ref_local(t, v, r@, found));
        match found {
            Err(e) => {
                proof {
                    lemma_kept_aside_self(v);
                }
                Err(e)
            },
            Ok((locals, local)) => {
                self.do_validate_local(t, &r.name.value, local, &r.name.span);
                let ghost u = self@;
                assert(did_validate_local(t, v, r@.name.value, local, r@.name.span, u));
                self.note_references(r, &locals, local);
                self.macro_depth = self.macro_depth + 1;
                let ghost entered = self@;
                proof {
                    assert(entered =~= macro_entered(u, r@, locals@, local));
                    lemma_kept_deeper(v, u, entered);
                }
                if self.macro_depth > MAX_MACRO_DEPTH {
                    return Err(
                        self.fatal_error(m.modifier.span.clone(), Message::MacroTooDeep),
                    );
                }
                let out = self.use_macro(t, r, local, m, call);
                let ghost x = self@;
                assert(macro_used(t, entered, r@, local, m@, call, x, out));
                proof {
                    lemma_kept_back(v, u, entered, x, out is Ok);
                }
                match out {
                    Err(e) => Err(e),
                    Ok(_) => {
                        self.macro_depth = self.macro_depth - 1;
                        Ok(())
                    },
                }
            },
        }
    }

    /// Adds an empty function for each operand that a modifier lacks.
    fn complete(modified: Modified) -> (res: Modified)
        ensures
            res@ == completed(modified@),
    {
        let ghost m = modified@;
        let mut modified = modified;
        let given: usize = modified.code_count();
        let required: usize = modified.modifier.value.args();
        let missing: usize = if given < required {
            required - given
        } else {
            0
        };
        let ghost word = missing_operand(m.modifier.span);
        assert(m.operands + Seq::new(0, |i: int| word) =~= m.operands);
        for i in 0..missing
            invariant
                modified@.modifier == m.modifier,
                word == missing_operand(m.modifier.span),
                modified@.operands == m.operands + Seq::new(i as nat, |j: int| word),
        {
            let ghost before = modified@.operands;
            let span = modified.modifier.span.clone();
            let func = Func {
                id: FunctionId::Anonymous(span.clone()),
                signature: None,
                lines: Vec::new(),
                closed: false,
            };
            assert(func@.lines =~= Seq::empty());
            modified.operands.push(Sp { value: Word::Func(func), span });
            assert(modified@.operands =~= before.push(word));
            assert(modified@.operands =~= m.operands + Seq::new((i + 1) as nat, |j: int| word));
        }
        assert(modified@.operands =~= completed(m).operands);
        modified
    }

    /// Compiles a modifier that is not applied to a pack.
    fn compile_operands<T: Toolchain>(&mut self, t: &T, modified: Modified, call: bool) -> (res:
        UiuaResult<()>)
        requires
            orderly(t),
            well_formed(old(self)@),
            old(self)@.macro_depth < usize::MAX,
            modified@.modifier.value is Ref ==> required_args(modified@.modifier.value) > 0
                || modified@.operands.len() > 0,
        ensures
            operands_compiled(t, old(self)@, modified@, call, final(self)@, res),
            place_kept(old(self)@, final(self)@, res is Ok),
    {
        let ghost v = self@;
        let ghost m = modified@;
        let required: usize = modified.modifier.value.args();
        let given: usize = modified.code_count();
        let modified = Self::complete(modified);
        let ghost c = completed(m);
        let counted: usize = if given < required {
            modified.operands.len()
        } else {
            given
        };
        assert(counted == counted_operands(m));
        proof {
            law_count_is_of_code(m);
        }
        if counted != required {
            let text = t.modifier_text(&modified.modifier.value);
            proof {
                assert(did_modifier_text(t, m.modifier.value, text));
                lemma_kept_aside_self(v);
            }
            return Err(
                self.fatal_error(
                    modified.modifier.span.clone(),
                    Message::OperandCount { modifier: text, required, given: counted },
                ),
            );
        }
        let out = self.inline_modifier(t, &modified, call);
        let ghost u = self@;
        assert(inlined(t, v, c, call, u, out));
        match out {
            Err(e) => Err(e),
            Ok(true) => Ok(()),
            Ok(false) => {
                let res = match &modified.modifier.value {
                    Modifier::Primitive(prim) => self.compile_plainly(t, *prim, &modified, call),
                    Modifier::Ref(r) => {
                        proof {
                            lemma_code_count(c.operands);
                        }
                        self.compile_macro(t, r, &modified, call)
                    },
                };
                proof {
                    lemma_kept_on(v, u, self@, res is Ok);
                }
                res
            },
        }
    }

    /// Whether a modifier takes a pack as it is.
    fn takes_pack<T: Toolchain>(&self, t: &T, modifier: &Modifier) -> (res: bool)
        ensures
            takes_pack(t, self@, modifier@, res),
    {
        broadcast use vstd::std_specs::hash::group_hash_axioms;

        match modifier {
            Modifier::Primitive(_) => false,
            Modifier::Ref(r) => {
                let found = t.ref_local(self, r);
                assert(did_ref_local(t, self@, r@, found));
                match found {
                    Ok((_, local)) => self.array_macros.contains_key(&local.index),
                    Err(_) => false,
                }
            },
        }
    }

    /// Compiles a modifier with its operands.
    pub fn modified<T: Toolchain>(&mut self, t: &T, modified: Modified, call: bool) -> (res:
        UiuaResult<()>)
        requires
            orderly(t),
            well_formed(old(self)@),
            old(self)@.macro_depth < usize::MAX,
            compilable(modified@),
        ensures
            modified_done(t, old(self)@, modified@, call, final(self)@, res),
            place_kept(old(self)@, final(self)@, res is Ok),
    {
        let ghost v = self@;
        let ghost m = modified@;
        if let Some((branches, span)) = modified.pack() {
            if let Some(new) = unpack(&modified.modifier, &branches, &span) {
                return self.compile_operands(t, new, call);
            }
            let required: usize = modified.modifier.value.args();
            if required >= 2 {
                let text = t.modifier_text(&modified.modifier.value);
                proof {
                    assert(did_modifier_text(t, m.modifier.value, text));
                    lemma_kept_aside_self(v);
                }
                return Err(
                    self.fatal_error(
                        modified.modifier.span.clone().merge(span),
                        Message::PackSize { modifier: text, required, given: branches.len() },
                    ),
                );
            }
            let taken = self.takes_pack(t, &modified.modifier.value);
            assert(takes_pack(t, v, m.modifier.value, taken));
            if !taken {
                let text = t.modifier_text(&modified.modifier.value);
                proof {
                    assert(did_modifier_text(t, m.modifier.value, text));
                    lemma_kept_aside_self(v);
                }
                return Err(
                    self.fatal_error(
                        modified.modifier.span.clone().merge(span),
                        Message::PackUnsupported { modifier: text },
                    ),
                );
            }
        }
        self.compile_operands(t, modified, call)
    }
}

/// Doing nothing keeps everything.
proof fn lemma_kept_aside_self(v: CompilerV)
    ensures
        place_kept(v, v, false),
        place_kept(v, v, true),
{
}

/// Entering a macro keeps what a failure keeps.
proof fn lemma_kept_deeper(v: CompilerV, u: CompilerV, entered: CompilerV)
    requires
        place_kept(v, u, true),
        entered == (CompilerV {
            references: entered.references,
            macro_depth: (u.macro_depth + 1) as usize,
            ..u
        }),
    ensures
        place_kept(v, entered, false),
        well_formed(v) ==> well_formed(entered),
{
    assert forall|i: int| 0 <= i < v.higher_scopes.len() implies #[trigger] scope_kept(
        v.higher_scopes[i],
        entered.higher_scopes[i],
        false,
    ) by {
        assert(scope_kept(v.higher_scopes[i], u.higher_scopes[i], true));
    }
}

/// A macro that was used keeps what its use keeps, once it has been left.
proof fn lemma_kept_back(
    v: CompilerV,
    u: CompilerV,
    entered: CompilerV,
    x: CompilerV,
    ok: bool,
)
    requires
        place_kept(v, u, true),
        u.macro_depth < usize::MAX,
        entered == (CompilerV {
            references: entered.references,
            macro_depth: (u.macro_depth + 1) as usize,
            ..u
        }),
        place_kept(entered, x, ok),
    ensures
        place_kept(v, x, false),
        ok ==> place_kept(v, CompilerV { macro_depth: (x.macro_depth - 1) as usize, ..x }, true),
{
    let back = CompilerV { macro_depth: (x.macro_depth - 1) as usize, ..x };
    lemma_kept_deeper(v, u, entered);
    assert forall|i: int| 0 <= i < v.higher_scopes.len() implies #[trigger] scope_kept(
        v.higher_scopes[i],
        x.higher_scopes[i],
        ok,
    ) by {
        assert(scope_kept(v.higher_scopes[i], u.higher_scopes[i], true));
        assert(scope_kept(entered.higher_scopes[i], x.higher_scopes[i], ok));
    }
    assert forall|i: int| 0 <= i < v.higher_scopes.len() implies #[trigger] scope_kept(
        v.higher_scopes[i],
        x.higher_scopes[i],
        false,
    ) by {
        assert(scope_kept(v.higher_scopes[i], x.higher_scopes[i], ok));
    }
}

} // verus!
