//! Modifiers compiled with a small compiler for everything else.
use indexmap::IndexMap;
use std::collections::BTreeSet;
use std::rc::Rc;
use uiua_modifiers::assembly::{Assembly, BindingInfo, BindingKind, Inputs};
use uiua_modifiers::compiler::{
    ArrayMacro, Compiler, MacroEnv, PreEvalMode, ScopeKind, StackMacro,
};
use uiua_modifiers::instr::{FuncSlice, Function, Instr, TempStack};
use uiua_modifiers::item::{Binding, Import, Item};
use uiua_modifiers::message::{
    Diagnostic, DiagnosticKind, Message, ParseError, UiuaError, UiuaResult,
};
use uiua_modifiers::names::LocalName;
use uiua_modifiers::prim::{ImplPrimitive, Primitive, Signature};
use uiua_modifiers::span::{CodeSpan, InputSrc, Loc, Sp, Span};
use uiua_modifiers::table::Expansion;
use uiua_modifiers::toolchain::Toolchain;
use uiua_modifiers::value::{Array, Value};
use uiua_modifiers::word::{
    clone_modifier, clone_words, Arr, Func, FunctionId, Modified, Modifier, PlaceholderOp, Ref,
    Switch, Word,
};

/// A small compiler. A primitive `Other { id, .. }` takes `id / 10` values and leaves `id % 10`.
struct Mini;

fn prim_sig(prim: Primitive) -> (usize, usize) {
    match prim {
        Primitive::Dup => (1, 2),
        Primitive::Pop => (1, 0),
        Primitive::Other { id, .. } => (id / 10, id % 10),
        _ => (1, 1),
    }
}

fn code_sig(code: &[Instr]) -> Signature {
    let mut height: isize = 0;
    let mut need: isize = 0;
    for instr in code {
        let (args, outputs) = match instr {
            Instr::Push(_) => (0, 1),
            Instr::Prim(prim, _) => prim_sig(*prim),
            Instr::ImplPrim(..) => (1, 1),
            Instr::PushTemp { count, .. } => (*count, 0),
            Instr::PopTemp { count, .. } => (0, *count),
            Instr::CopyToTemp { count, .. } => (*count, *count),
            Instr::PushLocals { count, .. } => (*count, 0),
            _ => (0, 0),
        };
        need = need.max(args as isize - height);
        height += outputs as isize - args as isize;
    }
    Signature::new(need as usize, (height + need) as usize)
}

fn fail(text: &str, span: &CodeSpan) -> UiuaError {
    UiuaError::Fatal { span: span.clone(), message: Message::Other { text: text.to_string() } }
}

impl Mini {
    fn into_current(&self, comp: Compiler, word: &Sp<Word>) -> (Compiler, UiuaResult<()>) {
        let mut comp = comp;
        match &word.value {
            Word::Primitive(prim) => {
                let at = comp.add_span(word.span.clone());
                comp.push_instr(Instr::Prim(*prim, at));
                (comp, Ok(()))
            }
            Word::Number(text) => {
                let n: usize = text.parse().unwrap();
                comp.push_instr(Instr::Push(Value::count(n)));
                (comp, Ok(()))
            }
            Word::Text(text) => {
                comp.push_instr(Instr::Push(Value::text(text)));
                (comp, Ok(()))
            }
            Word::Label(text) => {
                let at: usize = text.parse().unwrap();
                comp.scope.bind_locals.last_mut().unwrap().insert(at);
                comp.push_instr(Instr::Push(Value::count(at)));
                (comp, Ok(()))
            }
            Word::Char(_) => (comp, Err(fail("no good", &word.span))),
            Word::Modified(m) => {
                let copy = Modified {
                    modifier: clone_modifier(&m.modifier),
                    operands: clone_words(&m.operands),
                };
                let res = comp.modified(self, copy, true);
                (comp, res)
            }
            Word::Func(func) => {
                for line in &func.lines {
                    for word in line.iter().rev() {
                        let (next, res) = self.into_current(comp, word);
                        comp = next;
                        if res.is_err() {
                            return (comp, res);
                        }
                    }
                }
                (comp, Ok(()))
            }
            _ => (comp, Ok(())),
        }
    }
}

impl Toolchain for Mini {
    fn compile_operand_word(
        &self,
        comp: Compiler,
        word: &Sp<Word>,
    ) -> (Compiler, UiuaResult<(Vec<Instr>, Signature)>) {
        let mut comp = comp;
        comp.open_function();
        let (mut comp, res) = self.into_current(comp, word);
        let code = comp.close_function();
        let sig = code_sig(&code);
        (comp, res.map(|_| (code, sig)))
    }

    fn compile_words(
        &self,
        comp: Compiler,
        words: &Vec<Sp<Word>>,
        call: bool,
    ) -> (Compiler, UiuaResult<Vec<Instr>>) {
        let mut comp = comp;
        comp.open_function();
        let (mut comp, res) = self.words(comp, words, call);
        let code = comp.close_function();
        (comp, res.map(|_| code))
    }

    fn word(&self, comp: Compiler, word: &Sp<Word>, call: bool) -> (Compiler, UiuaResult<()>) {
        if call {
            return self.into_current(comp, word);
        }
        let lsp = comp.pre_eval_mode == PreEvalMode::Lsp;
        let (mut comp, res) = self.compile_operand_word(comp, word);
        match res {
            Err(e) => (comp, Err(e)),
            Ok((code, sig)) => {
                comp.push_function(word.span.clone(), sig, code);
                if lsp {
                    comp.push_instr(Instr::Other(77));
                }
                (comp, Ok(()))
            }
        }
    }

    fn words(
        &self,
        comp: Compiler,
        words: &Vec<Sp<Word>>,
        call: bool,
    ) -> (Compiler, UiuaResult<()>) {
        let mut comp = comp;
        for word in words.iter().rev() {
            let (next, res) = self.word(comp, word, call);
            comp = next;
            if res.is_err() {
                return (comp, res);
            }
        }
        (comp, Ok(()))
    }

    fn primitive(
        &self,
        comp: Compiler,
        prim: Primitive,
        span: &CodeSpan,
        _call: bool,
    ) -> (Compiler, UiuaResult<()>) {
        let mut comp = comp;
        if prim == (Primitive::Other { id: 99, args: 1 }) {
            return (comp, Err(fail("primitive", span)));
        }
        let at = comp.add_span(span.clone());
        comp.push_instr(Instr::Prim(prim, at));
        (comp, Ok(()))
    }

    fn binding(&self, comp: Compiler, binding: &Binding) -> (Compiler, UiuaResult<()>) {
        let mut comp = comp;
        let index = comp.assembly.bindings.len();
        comp.assembly.bindings.push(BindingInfo {
            kind: BindingKind::Const(None),
            public: binding.public,
            span: binding.name.span.clone(),
        });
        let local = LocalName { index, public: binding.public };
        comp.scope.names.insert(binding.name.value.clone(), local);
        (comp, Ok(()))
    }

    fn import(&self, comp: Compiler, import: &Import) -> (Compiler, UiuaResult<()>) {
        (comp, Err(fail("import", &import.path.span)))
    }

    fn invert_instrs(&self, comp: Compiler, instrs: &Vec<Instr>) -> (Compiler, Option<Vec<Instr>>) {
        if instrs.iter().any(|i| matches!(i, Instr::Prim(Primitive::Trace, _))) {
            return (comp, None);
        }
        (comp, Some(instrs.iter().rev().cloned().collect()))
    }

    fn under_instrs(
        &self,
        comp: Compiler,
        instrs: &Vec<Instr>,
        _g_sig: Signature,
    ) -> (Compiler, Option<(Vec<Instr>, Vec<Instr>)>) {
        let before = instrs.clone();
        let (comp, after) = self.invert_instrs(comp, instrs);
        (comp, after.map(|after| (before, after)))
    }

    fn validate_local(
        &self,
        comp: Compiler,
        name: &String,
        _local: LocalName,
        span: &CodeSpan,
    ) -> Compiler {
        let mut comp = comp;
        comp.emit_diagnostic(
            Message::Other { text: format!("looked at {name}") },
            DiagnosticKind::Advice,
            span.clone(),
        );
        comp
    }

    fn handle_primitive_experimental(
        &self,
        comp: Compiler,
        prim: Primitive,
        span: &CodeSpan,
    ) -> Compiler {
        let mut comp = comp;
        if prim == Primitive::Sig {
            comp.add_error(span.clone(), Message::Other { text: "experimental".to_string() });
        }
        comp
    }

    fn handle_primitive_deprecation(
        &self,
        comp: Compiler,
        prim: Primitive,
        span: &CodeSpan,
    ) -> Compiler {
        let mut comp = comp;
        if prim == Primitive::Sig {
            comp.add_error(span.clone(), Message::Other { text: "deprecated".to_string() });
        }
        comp
    }

    fn sig_of(&self, _: &Compiler, instrs: &Vec<Instr>, span: &CodeSpan) -> UiuaResult<Signature> {
        if instrs.contains(&Instr::Other(13)) {
            return Err(fail("no signature", span));
        }
        Ok(code_sig(instrs))
    }

    fn optimize_instrs(&self, _: &Compiler, instrs: Vec<Instr>, _: bool) -> Vec<Instr> {
        instrs
    }

    fn ref_local(&self, comp: &Compiler, r: &Ref) -> UiuaResult<(Vec<LocalName>, LocalName)> {
        match comp.scope.names.get(&r.name.value) {
            Some(local) => {
                let path = r.path.iter().map(|_| LocalName { index: 40, public: true }).collect();
                Ok((path, *local))
            }
            None => Err(fail("unknown", &r.name.span)),
        }
    }

    fn words_look_pervasive(&self, word: &Sp<Word>) -> bool {
        matches!(&word.value, Word::Primitive(Primitive::Other { id: 21 | 11, .. }))
    }

    fn instrs_as_flipped_primitive(
        &self,
        instrs: &Vec<Instr>,
        _: &Assembly,
    ) -> Option<(Primitive, bool)> {
        match instrs.as_slice() {
            [Instr::Prim(prim, _)] => Some((*prim, false)),
            _ => None,
        }
    }

    fn is_pervasive(&self, prim: Primitive) -> bool {
        matches!(prim, Primitive::Other { id: 21, .. })
    }

    fn format_word(&self, word: &Sp<Word>, inputs: &Inputs) -> String {
        match &word.value {
            Word::Number(text) | Word::Text(text) => text.clone(),
            Word::Primitive(prim) => format!("{prim:?}"),
            Word::Func(func) => {
                let words: Vec<String> =
                    func.lines.iter().flatten().map(|w| self.format_word(w, inputs)).collect();
                format!("( {} )", words.join(" "))
            }
            Word::Placeholder(op) => format!("^{op:?}"),
            Word::Ref(r) => format!("{}{}", r.name.value, if r.in_macro_arg { "'" } else { "" }),
            _ => "?".to_string(),
        }
    }

    fn format_words(&self, words: &Vec<Sp<Word>>, inputs: &Inputs) -> String {
        let texts: Vec<String> = words.iter().map(|w| self.format_word(w, inputs)).collect();
        texts.join(" ")
    }

    fn prim_text(&self, prim: Primitive) -> String {
        format!("{prim:?}").to_lowercase()
    }

    fn modifier_text(&self, modifier: &Modifier) -> String {
        match modifier {
            Modifier::Primitive(prim) => self.prim_text(*prim),
            Modifier::Ref(r) => r.name.value.clone(),
        }
    }

    fn error_text(&self, error: &UiuaError) -> String {
        match error {
            UiuaError::Fatal { message, .. } => message.text(),
            _ => "error".to_string(),
        }
    }

    fn run_top_slices(&self, env: MacroEnv) -> (MacroEnv, UiuaResult<()>) {
        if env.assembly.instrs.contains(&Instr::Other(66)) {
            let error = fail("top", &place(0, 0));
            return (env, Err(error));
        }
        (env, Ok(()))
    }

    fn run_assembly(&self, env: MacroEnv, assembly: &Assembly) -> (MacroEnv, UiuaResult<()>) {
        let mut env = env;
        let slice = *assembly.top_slices.last().unwrap();
        for instr in &assembly.instrs[slice.start..slice.start + slice.len] {
            match instr {
                Instr::Push(value) => env.push(value.clone()),
                Instr::Prim(Primitive::Other { .. }, _) => {
                    return (env, Err(fail("crash", &place(0, 0))));
                }
                _ => {}
            }
        }
        (env, Ok(()))
    }

    fn call_function(&self, env: MacroEnv, function: &Function) -> (MacroEnv, UiuaResult<()>) {
        let mut env = env;
        let texts = match env.pop("texts") {
            Ok(Value::Boxes(texts)) => texts,
            _ => unreachable!(),
        };
        match &function.id {
            FunctionId::Named(name) if name == "first" => env.push(texts.data[0].0.clone()),
            FunctionId::Named(name) if name == "rows" => env.push(Value::Boxes(texts)),
            FunctionId::Named(name) if name == "nothing" => {}
            FunctionId::Named(name) if name == "sigs" => {
                let bytes = match env.pop("sigs") {
                    Ok(Value::Byte(bytes)) => bytes,
                    _ => unreachable!(),
                };
                let words: Vec<String> = bytes.data.iter().map(|b| format!("{b}")).collect();
                env.push(Value::text(&format!("{} {}", bytes.shape[0], words.join(" "))));
            }
            FunctionId::Named(name) if name == "crash" => {
                return (env, Err(fail("crash", &place(0, 0))));
            }
            _ => env.push(Value::count(5)),
        }
        (env, Ok(()))
    }

    fn as_string(&self, _: &MacroEnv, value: &Value, requirement: &str) -> UiuaResult<String> {
        match value {
            Value::Char(array) if array.shape.len() == 1 => Ok(array.data.iter().collect()),
            _ => Err(fail(requirement, &place(0, 0))),
        }
    }

    fn into_rows(&self, value: Value) -> Vec<Value> {
        match value {
            Value::Boxes(array) => array.data.iter().map(|b| b.0.clone()).collect(),
            value => vec![value],
        }
    }

    fn parse(
        &self,
        code: &str,
        src: InputSrc,
        inputs: Inputs,
    ) -> (Inputs, Vec<Item>, Vec<ParseError>) {
        let mut inputs = inputs;
        inputs.strings.push(code.to_string());
        let span = CodeSpan { src, start: loc(0), end: loc(code.len() as u32) };
        let mut items: Vec<Item> = Vec::new();
        let mut errors: Vec<ParseError> = Vec::new();
        for line in code.lines() {
            let mut words: Vec<Sp<Word>> = Vec::new();
            if let Some(name) = line.strip_suffix('=') {
                let name = span.clone().sp(name.to_string());
                items.push(Item::Binding(Binding {
                    name,
                    public: false,
                    signature: None,
                    words,
                }));
                continue;
            }
            if line == "test" {
                items.push(Item::TestScope(span.clone()));
                continue;
            }
            if line == "import" {
                let path = span.clone().sp(line.to_string());
                items.push(Item::Import(Import { name: None, path, items: Vec::new() }));
                continue;
            }
            for token in line.split_whitespace() {
                if token == "!" {
                    errors.push(ParseError { message: span.clone().sp("bang".to_string()) });
                } else if token == "fail" {
                    words.push(span.clone().sp(Word::Char(token.to_string())));
                } else {
                    words.push(span.clone().sp(Word::Number(token.to_string())));
                }
            }
            items.push(Item::Words(vec![words]));
        }
        (inputs, items, errors)
    }
}

fn loc(at: u32) -> Loc {
    Loc { char_pos: at, byte_pos: at, line: 1, col: at as u16 }
}

fn place(from: u32, to: u32) -> CodeSpan {
    CodeSpan { src: InputSrc::Input(0), start: loc(from), end: loc(to) }
}

fn word(from: u32, value: Word) -> Sp<Word> {
    place(from, from + 1).sp(value)
}

fn prim(from: u32, prim: Primitive) -> Sp<Word> {
    word(from, Word::Primitive(prim))
}

/// A primitive with the given signature.
fn with_sig(from: u32, args: usize, outputs: usize) -> Sp<Word> {
    prim(from, Primitive::Other { id: args * 10 + outputs, args: 0 })
}

fn number(from: u32, text: &str) -> Sp<Word> {
    word(from, Word::Number(text.to_string()))
}

/// A list of one item.
fn list(from: u32, item: Sp<Word>) -> Sp<Word> {
    word(from, Word::Array(Arr { boxes: false, lines: vec![vec![item]], closed: true }))
}

fn func(from: u32, words: Vec<Sp<Word>>) -> Sp<Func> {
    let span = place(from, from + 1);
    span.clone().sp(Func {
        id: FunctionId::Anonymous(span),
        signature: None,
        lines: vec![words],
        closed: true,
    })
}

fn pack(from: u32, branches: Vec<Sp<Func>>) -> Sp<Word> {
    word(from, Word::Switch(Switch { branches, angled: false }))
}

/// A modifier at the start of the text.
fn modified(modifier: Primitive, operands: Vec<Sp<Word>>) -> Modified {
    Modified { modifier: place(0, 1).sp(Modifier::Primitive(modifier)), operands }
}

fn reference(name: &str, args: usize) -> Ref {
    Ref {
        path: Vec::new(),
        name: place(0, 1).sp(name.to_string()),
        in_macro_arg: false,
        args,
    }
}

fn macro_use(name: &str, args: usize, operands: Vec<Sp<Word>>) -> Modified {
    Modified { modifier: place(0, 1).sp(Modifier::Ref(reference(name, args))), operands }
}

/// A compiler that is on a function.
fn compiler() -> Compiler {
    let mut comp = Compiler::new();
    comp.open_function();
    comp
}

fn current(comp: &Compiler) -> Vec<Instr> {
    comp.new_functions.last().unwrap().iter().cloned().collect()
}

/// The code that a modifier is compiled to where it is called.
fn called(m: Modified) -> (Compiler, Vec<Instr>) {
    let mut comp = compiler();
    assert_eq!(comp.modified(&Mini, m, true), Ok(()));
    assert_eq!(comp.new_functions.len(), 1);
    let code = current(&comp);
    (comp, code)
}

/// The function that a modifier is compiled to where it is not called.
fn uncalled(m: Modified) -> (Compiler, Function, Vec<Instr>) {
    let mut comp = compiler();
    assert_eq!(comp.modified(&Mini, m, false), Ok(()));
    assert_eq!(comp.new_functions.len(), 1);
    let code = current(&comp);
    let function = match code.as_slice() {
        [Instr::PushFunc(function)] => function.clone(),
        _ => panic!("no function"),
    };
    let body = function.instrs(&comp.assembly).to_vec();
    (comp, function, body)
}

fn refused(m: Modified) -> (Compiler, UiuaError) {
    let mut comp = compiler();
    let error = comp.modified(&Mini, m, true).unwrap_err();
    (comp, error)
}

fn push_temp(count: usize, span: usize) -> Instr {
    Instr::PushTemp { stack: TempStack::Inline, count, span }
}

fn pop_temp(count: usize, span: usize) -> Instr {
    Instr::PopTemp { stack: TempStack::Inline, count, span }
}

fn copy_temp(count: usize, span: usize) -> Instr {
    Instr::CopyToTemp { stack: TempStack::Inline, count, span }
}

fn other(args: usize, outputs: usize, span: usize) -> Instr {
    Instr::Prim(Primitive::Other { id: args * 10 + outputs, args: 0 }, span)
}

fn sig(args: usize, outputs: usize) -> Signature {
    Signature::new(args, outputs)
}

fn diagnostic(message: Message, kind: DiagnosticKind, span: CodeSpan) -> Diagnostic {
    Diagnostic { message, kind, span }
}

fn fatal(span: CodeSpan, message: Message) -> UiuaError {
    UiuaError::Fatal { span, message }
}

// Stack modifiers

#[test]
fn dip_works_below_the_top() {
    let (comp, code) = called(modified(Primitive::Dip, vec![with_sig(2, 2, 1)]));
    assert_eq!(
        code,
        vec![
            Instr::PushSig(sig(3, 2)),
            push_temp(1, 1),
            other(2, 1, 0),
            pop_temp(1, 1),
            Instr::PopSig,
        ]
    );
    assert_eq!(comp.assembly.spans[1], Span::Code(place(0, 1)));
    assert!(comp.diagnostics.is_empty());
}

#[test]
fn dip_that_is_not_called_is_a_function() {
    let (_, function, body) = uncalled(modified(Primitive::Dip, vec![with_sig(2, 2, 1)]));
    assert_eq!(function.sig, sig(3, 2));
    assert_eq!(function.id, FunctionId::Anonymous(place(0, 1)));
    assert_eq!(body, vec![push_temp(1, 1), other(2, 1, 0), pop_temp(1, 1)]);
}

#[test]
fn dip_over_duplicate_suggests_on() {
    let mut comp = compiler();
    let dup = comp.add_span(place(5, 6));
    comp.push_instr(Instr::Prim(Primitive::Dup, dup));
    let m = modified(Primitive::Dip, vec![with_sig(2, 1, 1)]);
    assert_eq!(comp.modified(&Mini, m, true), Ok(()));
    assert_eq!(
        comp.diagnostics,
        vec![diagnostic(Message::PreferOnOverDip, DiagnosticKind::Style, place(0, 6))]
    );
}

#[test]
fn dip_over_duplicate_says_nothing_for_other_signatures() {
    let mut comp = compiler();
    let dup = comp.add_span(place(5, 6));
    comp.push_instr(Instr::Prim(Primitive::Dup, dup));
    let m = modified(Primitive::Dip, vec![with_sig(2, 1, 2)]);
    assert_eq!(comp.modified(&Mini, m, true), Ok(()));
    assert!(comp.diagnostics.is_empty());
    let m = modified(Primitive::Gap, vec![with_sig(2, 1, 1)]);
    assert_eq!(comp.modified(&Mini, m, true), Ok(()));
    assert!(comp.diagnostics.is_empty());
}

#[test]
fn dip_over_builtin_duplicate_says_nothing() {
    let mut comp = compiler();
    comp.assembly.spans.push(Span::Builtin);
    comp.push_instr(Instr::Prim(Primitive::Dup, 0));
    let m = modified(Primitive::Dip, vec![with_sig(2, 1, 1)]);
    assert_eq!(comp.modified(&Mini, m, true), Ok(()));
    assert!(comp.diagnostics.is_empty());
}

#[test]
fn gap_drops_the_top() {
    let (_, code) = called(modified(Primitive::Gap, vec![with_sig(2, 1, 1)]));
    assert_eq!(
        code,
        vec![
            Instr::PushSig(sig(2, 1)),
            Instr::Prim(Primitive::Pop, 1),
            other(1, 1, 0),
            Instr::PopSig,
        ]
    );
}

#[test]
fn on_keeps_the_first_argument() {
    let (_, code) = called(modified(Primitive::On, vec![with_sig(2, 2, 1)]));
    assert_eq!(
        code,
        vec![
            Instr::PushSig(sig(2, 2)),
            copy_temp(1, 1),
            other(2, 1, 0),
            pop_temp(1, 1),
            Instr::PopSig,
        ]
    );
}

#[test]
fn on_of_no_arguments_moves_the_top_aside() {
    let (_, code) = called(modified(Primitive::On, vec![with_sig(2, 0, 1)]));
    assert_eq!(
        code,
        vec![
            Instr::PushSig(sig(1, 2)),
            push_temp(1, 1),
            other(0, 1, 0),
            pop_temp(1, 1),
            Instr::PopSig,
        ]
    );
}

#[test]
fn by_keeps_the_last_argument() {
    let (_, code) = called(modified(Primitive::By, vec![with_sig(2, 3, 1)]));
    assert_eq!(
        code,
        vec![
            Instr::PushSig(sig(3, 2)),
            push_temp(2, 1),
            Instr::Prim(Primitive::Dup, 1),
            pop_temp(2, 1),
            other(3, 1, 0),
            Instr::PopSig,
        ]
    );
}

#[test]
fn by_of_one_argument_duplicates_it() {
    let (_, code) = called(modified(Primitive::By, vec![with_sig(2, 1, 1)]));
    assert_eq!(
        code,
        vec![
            Instr::PushSig(sig(1, 2)),
            Instr::Prim(Primitive::Dup, 1),
            other(1, 1, 0),
            Instr::PopSig,
        ]
    );
}

#[test]
fn by_of_no_arguments_adds_nothing() {
    let (_, code) = called(modified(Primitive::By, vec![with_sig(2, 0, 1)]));
    assert_eq!(code, vec![Instr::PushSig(sig(0, 2)), other(0, 1, 0), Instr::PopSig]);
}

#[test]
fn fork_with_a_longer_first_function() {
    let (_, code) = called(modified(Primitive::Fork, vec![with_sig(1, 3, 1), with_sig(2, 1, 2)]));
    assert_eq!(
        code,
        vec![
            Instr::PushSig(sig(3, 3)),
            copy_temp(3, 2),
            push_temp(1, 2),
            Instr::Prim(Primitive::Pop, 2),
            Instr::Prim(Primitive::Pop, 2),
            pop_temp(1, 2),
            other(1, 2, 1),
            pop_temp(3, 2),
            other(3, 1, 0),
            Instr::PopSig,
        ]
    );
}

#[test]
fn fork_with_a_second_function_without_arguments() {
    let (_, code) = called(modified(Primitive::Fork, vec![with_sig(1, 1, 1), with_sig(2, 0, 1)]));
    assert_eq!(
        code,
        vec![
            Instr::PushSig(sig(1, 2)),
            copy_temp(1, 2),
            Instr::Prim(Primitive::Pop, 2),
            other(0, 1, 1),
            pop_temp(1, 2),
            other(1, 1, 0),
            Instr::PopSig,
        ]
    );
}

#[test]
fn fork_with_a_longer_second_function() {
    let (_, code) = called(modified(Primitive::Fork, vec![with_sig(1, 0, 1), with_sig(2, 2, 1)]));
    assert_eq!(
        code,
        vec![Instr::PushSig(sig(2, 2)), other(2, 1, 1), other(0, 1, 0), Instr::PopSig]
    );
}

#[test]
fn fork_with_identity_suggests_on() {
    let m = modified(Primitive::Fork, vec![prim(1, Primitive::Identity), with_sig(2, 1, 1)]);
    let (comp, _) = called(m);
    assert_eq!(
        comp.diagnostics,
        vec![diagnostic(Message::PreferOnOverFork, DiagnosticKind::Style, place(0, 2))]
    );
}

#[test]
fn fork_skips_words_that_are_not_code() {
    let m = modified(
        Primitive::Fork,
        vec![with_sig(1, 0, 1), word(2, Word::Spaces), with_sig(3, 0, 1)],
    );
    let (_, code) = called(m);
    assert_eq!(
        code,
        vec![Instr::PushSig(sig(0, 2)), other(0, 1, 1), other(0, 1, 0), Instr::PopSig]
    );
}

#[test]
fn cascade_passes_arguments_on() {
    let m = modified(Primitive::Cascade, vec![with_sig(1, 2, 1), with_sig(2, 2, 1)]);
    let (comp, code) = called(m);
    assert_eq!(
        code,
        vec![
            Instr::PushSig(sig(2, 1)),
            copy_temp(1, 2),
            other(2, 1, 1),
            pop_temp(1, 2),
            other(2, 1, 0),
            Instr::PopSig,
        ]
    );
    assert!(comp.diagnostics.is_empty());
}

#[test]
fn cascade_without_anything_to_pass_on_is_redundant() {
    let m = modified(Primitive::Cascade, vec![with_sig(1, 1, 1), with_sig(2, 1, 2)]);
    let (comp, code) = called(m);
    assert_eq!(
        code,
        vec![Instr::PushSig(sig(1, 1)), other(1, 2, 1), other(1, 1, 0), Instr::PopSig]
    );
    assert_eq!(
        comp.diagnostics,
        vec![diagnostic(
            Message::CascadeRedundant { prim: "cascade".to_string() },
            DiagnosticKind::Advice,
            place(0, 1)
        )]
    );
}

#[test]
fn bracket_takes_different_arguments() {
    let (_, code) =
        called(modified(Primitive::Bracket, vec![with_sig(1, 2, 1), with_sig(2, 1, 3)]));
    assert_eq!(
        code,
        vec![
            Instr::PushSig(sig(3, 4)),
            push_temp(2, 2),
            other(1, 3, 1),
            pop_temp(2, 2),
            other(2, 1, 0),
            Instr::PopSig,
        ]
    );
}

#[test]
fn both_does_it_twice() {
    let (_, code) = called(modified(Primitive::Both, vec![with_sig(1, 2, 1)]));
    assert_eq!(
        code,
        vec![
            Instr::PushSig(sig(4, 2)),
            push_temp(2, 1),
            other(2, 1, 0),
            pop_temp(2, 1),
            other(2, 1, 0),
            Instr::PopSig,
        ]
    );
}

#[test]
fn both_of_a_trace_is_one_instruction() {
    let (_, code) = called(modified(Primitive::Both, vec![prim(1, Primitive::Trace)]));
    assert_eq!(code, vec![Instr::ImplPrim(ImplPrimitive::BothTrace, 0)]);
    let (_, function, body) = uncalled(modified(Primitive::Both, vec![prim(1, Primitive::Trace)]));
    assert_eq!(function.sig, sig(2, 2));
    assert_eq!(body, vec![Instr::ImplPrim(ImplPrimitive::BothTrace, 0)]);
}

#[test]
fn an_operand_that_fails_stops_a_modifier() {
    let bad = word(3, Word::Char("x".to_string()));
    let (comp, error) = refused(modified(Primitive::Fork, vec![with_sig(1, 1, 1), bad]));
    assert_eq!(error, fail("no good", &place(3, 4)));
    assert!(current(&comp).is_empty());
}

// Inverses

#[test]
fn un_inverts() {
    let m = modified(
        Primitive::Un,
        vec![word(1, Word::Func(func(1, vec![with_sig(3, 1, 1), with_sig(2, 1, 2)]).value))],
    );
    let (comp, code) = called(m);
    assert_eq!(code, vec![other(1, 1, 1), other(1, 2, 0)]);
    assert_eq!(comp.assembly.spans[2], Span::Code(place(1, 2)));
}

#[test]
fn un_that_is_not_called_has_the_signature_of_the_inverse() {
    let (_, function, body) = uncalled(modified(Primitive::Un, vec![with_sig(1, 2, 1)]));
    assert_eq!(function.sig, sig(2, 1));
    assert_eq!(body, vec![other(2, 1, 0)]);
}

#[test]
fn un_without_an_inverse_fails() {
    let (_, error) = refused(modified(Primitive::Un, vec![prim(4, Primitive::Trace)]));
    assert_eq!(error, fatal(place(4, 5), Message::NoInverse));
}

#[test]
fn under_states_signatures_when_called() {
    let (_, code) = called(modified(Primitive::Under, vec![with_sig(1, 1, 1), with_sig(2, 1, 2)]));
    assert_eq!(
        code,
        vec![
            Instr::PushSig(sig(1, 1)),
            other(1, 1, 0),
            Instr::PopSig,
            other(1, 2, 1),
            Instr::PushSig(sig(1, 1)),
            other(1, 1, 0),
            Instr::PopSig,
        ]
    );
}

#[test]
fn under_that_is_not_called_is_a_function() {
    let (_, function, body) =
        uncalled(modified(Primitive::Under, vec![with_sig(1, 1, 1), with_sig(2, 1, 2)]));
    assert_eq!(body, vec![other(1, 1, 0), other(1, 2, 1), other(1, 1, 0)]);
    assert_eq!(function.sig, sig(1, 2));
}

#[test]
fn under_without_an_inverse_fails() {
    let m = modified(Primitive::Under, vec![prim(4, Primitive::Trace), with_sig(6, 1, 1)]);
    let (_, error) = refused(m);
    assert_eq!(error, fatal(place(4, 5), Message::NoInverse));
}

// Fill and try

#[test]
fn fill_only_looks_at_its_value() {
    let m = modified(Primitive::Fill, vec![with_sig(1, 0, 1), with_sig(2, 1, 1)]);
    let (comp, code) = called(m);
    let value = match &code[0] {
        Instr::PushFunc(f) => f.clone(),
        _ => panic!(),
    };
    assert_eq!(value.instrs(&comp.assembly).to_vec(), vec![other(1, 1, 0)]);
    assert_eq!(code[1], Instr::Other(77));
    let filled = match &code[2] {
        Instr::PushFunc(f) => f.clone(),
        _ => panic!(),
    };
    assert_eq!(filled.instrs(&comp.assembly).to_vec(), vec![other(0, 1, 1)]);
    assert_eq!(code[3], Instr::Prim(Primitive::Fill, 2));
    assert_eq!(code.len(), 4);
    assert_eq!(comp.pre_eval_mode, PreEvalMode::Normal);
}

#[test]
fn fill_that_is_not_called_is_a_function() {
    let m = modified(Primitive::Fill, vec![with_sig(1, 0, 1), with_sig(2, 1, 1)]);
    let (_, function, body) = uncalled(m);
    assert_eq!(function.id, FunctionId::Anonymous(place(0, 1)));
    assert_eq!(body.len(), 4);
    assert_eq!(body[3], Instr::Prim(Primitive::Fill, 2));
}

#[test]
fn fill_restores_the_mode_when_it_fails() {
    let bad = word(3, Word::Char("x".to_string()));
    let (comp, error) = refused(modified(Primitive::Fill, vec![with_sig(1, 1, 1), bad]));
    assert_eq!(error, fail("no good", &place(3, 4)));
    assert_eq!(comp.pre_eval_mode, PreEvalMode::Normal);
}

#[test]
fn try_pushes_the_tried_function_last() {
    let m = modified(Primitive::Try, vec![with_sig(1, 0, 1), with_sig(2, 1, 1)]);
    let (comp, code) = called(m);
    assert_eq!(code.len(), 3);
    let tried = match &code[1] {
        Instr::PushFunc(f) => f.clone(),
        _ => panic!(),
    };
    assert_eq!(tried.id, FunctionId::Anonymous(place(1, 2)));
    assert_eq!(tried.sig, sig(0, 1));
    assert_eq!(tried.instrs(&comp.assembly).to_vec(), vec![other(0, 1, 1)]);
    assert_eq!(code[2], Instr::Prim(Primitive::Try, 2));
}

#[test]
fn try_of_a_function_that_matches_patterns() {
    let mut comp = compiler();
    let body = vec![Instr::ImplPrim(ImplPrimitive::MatchPattern, 0)];
    comp.push_function(place(9, 10), sig(1, 0), body);
    let inner = comp.close_function();
    comp.open_function();
    let m = modified(Primitive::Try, vec![number(1, "1"), number(2, "2")]);
    let tools = Pushing { code: inner };
    assert_eq!(comp.modified(&tools, m, true), Ok(()));
    assert_eq!(*current(&comp).last().unwrap(), Instr::ImplPrim(ImplPrimitive::TryPattern, 0));
}

/// Compiles every operand to the same code, and everything else to nothing. Running pushes what the
/// code pushes.
struct Pushing {
    code: Vec<Instr>,
}

impl Toolchain for Pushing {
    fn compile_operand_word(
        &self,
        comp: Compiler,
        _: &Sp<Word>,
    ) -> (Compiler, UiuaResult<(Vec<Instr>, Signature)>) {
        (comp, Ok((self.code.clone(), sig(0, 1))))
    }
    fn compile_words(
        &self,
        comp: Compiler,
        _: &Vec<Sp<Word>>,
        _: bool,
    ) -> (Compiler, UiuaResult<Vec<Instr>>) {
        (comp, Ok(Vec::new()))
    }
    fn word(&self, comp: Compiler, _: &Sp<Word>, _: bool) -> (Compiler, UiuaResult<()>) {
        (comp, Ok(()))
    }
    fn words(&self, comp: Compiler, _: &Vec<Sp<Word>>, _: bool) -> (Compiler, UiuaResult<()>) {
        (comp, Ok(()))
    }
    fn primitive(
        &self,
        comp: Compiler,
        _: Primitive,
        _: &CodeSpan,
        _: bool,
    ) -> (Compiler, UiuaResult<()>) {
        (comp, Ok(()))
    }
    fn binding(&self, comp: Compiler, _: &Binding) -> (Compiler, UiuaResult<()>) {
        (comp, Ok(()))
    }
    fn import(&self, comp: Compiler, _: &Import) -> (Compiler, UiuaResult<()>) {
        (comp, Ok(()))
    }
    fn invert_instrs(&self, comp: Compiler, _: &Vec<Instr>) -> (Compiler, Option<Vec<Instr>>) {
        (comp, None)
    }
    fn under_instrs(
        &self,
        comp: Compiler,
        _: &Vec<Instr>,
        _: Signature,
    ) -> (Compiler, Option<(Vec<Instr>, Vec<Instr>)>) {
        (comp, None)
    }
    fn validate_local(&self, comp: Compiler, _: &String, _: LocalName, _: &CodeSpan) -> Compiler {
        comp
    }
    fn handle_primitive_experimental(
        &self,
        comp: Compiler,
        _: Primitive,
        _: &CodeSpan,
    ) -> Compiler {
        comp
    }
    fn handle_primitive_deprecation(
        &self,
        comp: Compiler,
        _: Primitive,
        _: &CodeSpan,
    ) -> Compiler {
        comp
    }
    fn sig_of(&self, _: &Compiler, _: &Vec<Instr>, _: &CodeSpan) -> UiuaResult<Signature> {
        Ok(sig(0, 0))
    }
    fn optimize_instrs(&self, _: &Compiler, instrs: Vec<Instr>, _: bool) -> Vec<Instr> {
        instrs
    }
    fn ref_local(&self, _: &Compiler, r: &Ref) -> UiuaResult<(Vec<LocalName>, LocalName)> {
        Err(fail("unknown", &r.name.span))
    }
    fn words_look_pervasive(&self, _: &Sp<Word>) -> bool {
        false
    }
    fn instrs_as_flipped_primitive(
        &self,
        _: &Vec<Instr>,
        _: &Assembly,
    ) -> Option<(Primitive, bool)> {
        None
    }
    fn is_pervasive(&self, _: Primitive) -> bool {
        false
    }
    fn format_word(&self, _: &Sp<Word>, _: &Inputs) -> String {
        String::new()
    }
    fn format_words(&self, _: &Vec<Sp<Word>>, _: &Inputs) -> String {
        String::new()
    }
    fn prim_text(&self, _: Primitive) -> String {
        String::new()
    }
    fn modifier_text(&self, _: &Modifier) -> String {
        String::new()
    }
    fn error_text(&self, _: &UiuaError) -> String {
        String::new()
    }
    fn run_top_slices(&self, env: MacroEnv) -> (MacroEnv, UiuaResult<()>) {
        (env, Ok(()))
    }
    fn run_assembly(&self, env: MacroEnv, _: &Assembly) -> (MacroEnv, UiuaResult<()>) {
        let mut env = env;
        for instr in &self.code {
            if let Instr::Push(value) = instr {
                env.push(value.clone());
            }
        }
        (env, Ok(()))
    }
    fn call_function(&self, env: MacroEnv, _: &Function) -> (MacroEnv, UiuaResult<()>) {
        (env, Ok(()))
    }
    fn as_string(&self, _: &MacroEnv, _: &Value, _: &str) -> UiuaResult<String> {
        Ok(String::new())
    }
    fn into_rows(&self, value: Value) -> Vec<Value> {
        vec![value]
    }
    fn parse(
        &self,
        _: &str,
        _: InputSrc,
        inputs: Inputs,
    ) -> (Inputs, Vec<Item>, Vec<ParseError>) {
        (inputs, Vec::new(), Vec::new())
    }
}

// Bind

#[test]
fn bind_counts_its_locals() {
    let body = vec![
        word(3, Word::Label("0".to_string())),
        word(4, Word::Label("2".to_string())),
        word(5, Word::Label("1".to_string())),
    ];
    let m = modified(Primitive::Bind, vec![word(2, Word::Func(func(2, body).value))]);
    let (comp, function, code) = uncalled(m);
    assert_eq!(function.sig, sig(3, 3));
    assert_eq!(
        code,
        vec![
            Instr::PushLocals { count: 3, span: 0 },
            Instr::Push(Value::count(1)),
            Instr::Push(Value::count(2)),
            Instr::Push(Value::count(0)),
            Instr::PopLocals,
        ]
    );
    assert!(comp.diagnostics.is_empty());
    assert!(comp.scope.bind_locals.is_empty());
}

#[test]
fn bind_of_few_locals_is_advised_against() {
    let m = modified(Primitive::Bind, vec![word(2, Word::Label("1".to_string()))]);
    let (comp, code) = called(m);
    assert_eq!(code[0], Instr::PushLocals { count: 2, span: 0 });
    assert_eq!(
        comp.diagnostics,
        vec![diagnostic(
            Message::BindFew { prim: "bind".to_string(), count: 2 },
            DiagnosticKind::Advice,
            place(2, 3)
        )]
    );
}

#[test]
fn bind_without_locals_counts_none() {
    let m = modified(Primitive::Bind, vec![number(2, "5")]);
    let (comp, code) = called(m);
    assert_eq!(code[0], Instr::PushLocals { count: 0, span: 0 });
    assert_eq!(comp.diagnostics.len(), 1);
}

// Modifiers of arrays

#[test]
fn reduce_of_a_content_is_one_instruction() {
    let content = Modified {
        modifier: place(1, 2).sp(Modifier::Primitive(Primitive::Content)),
        operands: vec![with_sig(2, 2, 1)],
    };
    let m = modified(Primitive::Reduce, vec![word(1, Word::Modified(Box::new(content)))]);
    let (comp, code) = called(m);
    let inner = match &code[0] {
        Instr::PushFunc(f) => f.clone(),
        _ => panic!(),
    };
    assert_eq!(inner.id, FunctionId::Anonymous(place(1, 2)));
    assert_eq!(inner.sig, sig(2, 1));
    assert_eq!(inner.instrs(&comp.assembly).to_vec(), vec![other(2, 1, 0)]);
    assert_eq!(code[1], Instr::ImplPrim(ImplPrimitive::ReduceContent, 1));
}

#[test]
fn reduce_of_anything_else_is_compiled_plainly() {
    let (comp, code) = called(modified(Primitive::Reduce, vec![with_sig(1, 2, 1)]));
    let inner = match &code[0] {
        Instr::PushFunc(f) => f.clone(),
        _ => panic!(),
    };
    assert_eq!(inner.instrs(&comp.assembly).to_vec(), vec![other(2, 1, 0)]);
    assert_eq!(code[1], Instr::Prim(Primitive::Reduce, 1));
    assert_eq!(code.len(), 2);
}

#[test]
fn a_plain_modifier_that_is_not_called_is_a_function() {
    let (_, function, body) = uncalled(modified(Primitive::Rows, vec![with_sig(1, 2, 1)]));
    assert_eq!(function.id, FunctionId::Anonymous(place(0, 1)));
    assert_eq!(function.sig, sig(1, 1));
    assert_eq!(body.len(), 2);
    assert_eq!(body[1], Instr::Prim(Primitive::Rows, 1));
}

#[test]
fn a_plain_modifier_that_fails_is_refused() {
    let m = modified(Primitive::Other { id: 99, args: 1 }, vec![with_sig(1, 2, 1)]);
    let (_, error) = refused(m);
    assert_eq!(error, fail("primitive", &place(0, 1)));
}

#[test]
fn each_of_a_pervasive_primitive_is_dropped() {
    let (comp, code) = called(modified(Primitive::Each, vec![with_sig(1, 2, 1)]));
    assert_eq!(code, vec![other(2, 1, 0)]);
    assert_eq!(
        comp.diagnostics,
        vec![diagnostic(
            Message::EachOfPervasive {
                prim: "other { id: 21, args: 0 }".to_string(),
                each: "each".to_string()
            },
            DiagnosticKind::Advice,
            place(0, 1)
        )]
    );
}

#[test]
fn each_of_a_pervasive_function_is_dropped() {
    let (comp, _) = called(modified(Primitive::Each, vec![with_sig(1, 1, 1)]));
    assert_eq!(
        comp.diagnostics,
        vec![diagnostic(
            Message::EachPervasive { each: "each".to_string() },
            DiagnosticKind::Advice,
            place(0, 1)
        )]
    );
}

#[test]
fn each_of_anything_else_stays() {
    let (comp, code) = called(modified(Primitive::Each, vec![with_sig(1, 3, 1)]));
    assert_eq!(code[1], Instr::Prim(Primitive::Each, 1));
    assert!(comp.diagnostics.is_empty());
}

#[test]
fn table_hands_its_function_over() {
    let (comp, code) = called(modified(Primitive::Table, vec![with_sig(1, 2, 1)]));
    let inner = match &code[0] {
        Instr::PushFunc(f) => f.clone(),
        _ => panic!(),
    };
    assert_eq!(inner.id, FunctionId::Anonymous(place(1, 2)));
    assert_eq!(code[1], Instr::Prim(Primitive::Table, 1));
    assert!(comp.diagnostics.is_empty());
    let (_, function, _) = uncalled(modified(Primitive::Table, vec![with_sig(1, 2, 1)]));
    assert_eq!(function.sig, sig(2, 1));
}

#[test]
fn table_of_few_arguments_is_advised_against() {
    let (comp, _) = called(modified(Primitive::Table, vec![with_sig(1, 0, 1)]));
    assert_eq!(
        comp.diagnostics,
        vec![diagnostic(
            Message::TableNoArguments { table: "table".to_string() },
            DiagnosticKind::Advice,
            place(1, 2)
        )]
    );
    let (comp, _) = called(modified(Primitive::Table, vec![with_sig(1, 1, 1)]));
    assert_eq!(
        comp.diagnostics,
        vec![diagnostic(
            Message::TableOneArgument { table: "table".to_string(), rows: "rows".to_string() },
            DiagnosticKind::Advice,
            place(1, 2)
        )]
    );
}

#[test]
fn content_opens_the_boxes() {
    let (_, code) = called(modified(Primitive::Content, vec![with_sig(1, 3, 1)]));
    let unbox = Instr::ImplPrim(ImplPrimitive::UnBox, 1);
    assert_eq!(
        code,
        vec![
            push_temp(2, 1),
            unbox.clone(),
            pop_temp(1, 1),
            unbox.clone(),
            pop_temp(1, 1),
            unbox,
            other(3, 1, 0),
        ]
    );
}

#[test]
fn content_of_one_or_no_argument() {
    let (_, code) = called(modified(Primitive::Content, vec![with_sig(1, 1, 1)]));
    assert_eq!(code, vec![Instr::ImplPrim(ImplPrimitive::UnBox, 1), other(1, 1, 0)]);
    let (_, code) = called(modified(Primitive::Content, vec![with_sig(1, 0, 1)]));
    assert_eq!(code, vec![other(0, 1, 0)]);
}

// Modifiers that look at code

#[test]
fn stringify_pushes_the_text() {
    let (_, code) = called(modified(Primitive::Stringify, vec![prim(1, Primitive::Dup)]));
    assert_eq!(code, vec![Instr::Push(Value::text("Dup"))]);
}

#[test]
fn sig_pushes_outputs_and_arguments() {
    let (comp, code) = called(modified(Primitive::Sig, vec![with_sig(1, 3, 2)]));
    assert_eq!(code, vec![Instr::Push(Value::count(2)), Instr::Push(Value::count(3))]);
    let texts: Vec<String> = comp.errors.iter().map(|e| Mini.error_text(e)).collect();
    assert_eq!(texts, vec!["experimental", "deprecated"]);
}

#[test]
fn comptime_pushes_what_came_out() {
    let body = vec![number(2, "7"), number(3, "8")];
    let m = modified(Primitive::Comptime, vec![word(1, Word::Func(func(1, body).value))]);
    let (comp, code) = called(m);
    assert_eq!(code, vec![Instr::Push(Value::count(8)), Instr::Push(Value::count(7))]);
    assert!(comp.assembly.instrs.is_empty());
    assert!(comp.macro_env.stack.is_empty());
}

#[test]
fn comptime_that_is_not_called_is_a_function() {
    let (_, function, body) = uncalled(modified(Primitive::Comptime, vec![number(1, "7")]));
    assert_eq!(function.sig, sig(0, 1));
    assert_eq!(body, vec![Instr::Push(Value::count(7))]);
}

#[test]
fn comptime_only_takes_what_it_left() {
    let mut comp = compiler();
    comp.macro_env.push(Value::count(1));
    let m = modified(Primitive::Comptime, vec![number(1, "7")]);
    assert_eq!(comp.modified(&Mini, m, true), Ok(()));
    assert_eq!(current(&comp), vec![Instr::Push(Value::count(7))]);
}

#[test]
fn comptime_of_a_function_with_arguments_is_refused() {
    let (comp, error) = refused(modified(Primitive::Comptime, vec![with_sig(1, 2, 1)]));
    assert_eq!(
        error,
        fatal(
            place(0, 1),
            Message::ComptimeArguments { prim: "comptime".to_string(), args: 2 }
        )
    );
    assert!(comp.assembly.spans.is_empty());
}

#[test]
fn comptime_that_crashes_pushes_empty_lists() {
    let (comp, code) = called(modified(Primitive::Comptime, vec![with_sig(1, 0, 2)]));
    assert_eq!(code, vec![Instr::Push(Value::default()), Instr::Push(Value::default())]);
    assert_eq!(
        comp.errors,
        vec![fatal(place(0, 1), Message::ComptimeFailed { error: "crash".to_string() })]
    );
}

#[test]
fn comptime_that_crashes_adds_no_second_error() {
    let mut comp = compiler();
    comp.add_error(place(7, 8), Message::NoInverse);
    let m = modified(Primitive::Comptime, vec![with_sig(1, 0, 1)]);
    assert_eq!(comp.modified(&Mini, m, true), Ok(()));
    assert_eq!(comp.errors, vec![fatal(place(7, 8), Message::NoInverse)]);
}

#[test]
fn comptime_for_the_language_server_compiles_as_it_is() {
    let mut comp = compiler();
    comp.pre_eval_mode = PreEvalMode::Lsp;
    let m = modified(Primitive::Comptime, vec![with_sig(1, 2, 1)]);
    assert_eq!(comp.modified(&Mini, m, true), Ok(()));
    assert_eq!(current(&comp), vec![other(2, 1, 0)]);
}

#[test]
fn comptime_passes_on_that_the_program_cannot_be_loaded() {
    let mut comp = compiler();
    comp.assembly.instrs.push(Instr::Other(66));
    let m = modified(Primitive::Comptime, vec![number(1, "7")]);
    assert_eq!(comp.modified(&Mini, m, true), Err(fail("top", &place(0, 0))));
    assert!(current(&comp).is_empty());
}

#[test]
fn quote_compiles_the_text() {
    let m = modified(Primitive::Quote, vec![word(1, Word::Text("4 5".to_string()))]);
    let (comp, code) = called(m);
    assert_eq!(code, vec![Instr::Push(Value::count(5)), Instr::Push(Value::count(4))]);
    assert_eq!(comp.assembly.inputs.strings, vec!["4 5"]);
}

#[test]
fn quote_of_a_number_is_refused() {
    let (comp, error) = refused(modified(Primitive::Quote, vec![number(1, "7")]));
    assert_eq!(
        error,
        fatal(place(0, 1), Message::QuoteKind { kind: "number".to_string() })
    );
    assert_eq!(comp.new_functions.len(), 1);
}

#[test]
fn quote_of_nothing_is_refused() {
    let empty = word(1, Word::Func(func(1, Vec::new()).value));
    let (_, error) = refused(modified(Primitive::Quote, vec![empty]));
    assert_eq!(error, fatal(place(0, 1), Message::QuoteNotString));
}

#[test]
fn quote_of_a_table_of_characters_is_refused() {
    let table = Value::Char(Array { shape: Rc::new(vec![1, 1]), data: Rc::new(vec!['a']) });
    let tools = Pushing { code: vec![Instr::Push(table)] };
    let mut comp = compiler();
    let m = modified(Primitive::Quote, vec![number(1, "7")]);
    assert_eq!(
        comp.modified(&tools, m, true),
        Err(fatal(place(0, 1), Message::QuoteRank { rank: 2 }))
    );
}

// Operand counts

#[test]
fn missing_operands_are_empty_functions() {
    let (_, code) = called(modified(Primitive::Fork, vec![with_sig(1, 1, 1)]));
    assert_eq!(
        code,
        vec![
            Instr::PushSig(sig(1, 1)),
            copy_temp(1, 1),
            Instr::Prim(Primitive::Pop, 1),
            pop_temp(1, 1),
            other(1, 1, 0),
            Instr::PopSig,
        ]
    );
    let (_, code) = called(modified(Primitive::Dip, Vec::new()));
    assert_eq!(
        code,
        vec![Instr::PushSig(sig(1, 1)), push_temp(1, 0), pop_temp(1, 0), Instr::PopSig]
    );
}

#[test]
fn too_many_operands_are_refused() {
    let m = modified(Primitive::Dip, vec![with_sig(1, 1, 1), with_sig(2, 1, 1)]);
    let (comp, error) = refused(m);
    let message =
        Message::OperandCount { modifier: "dip".to_string(), required: 1, given: 2 };
    assert_eq!(message.text(), "dip requires 1 function argument, but 2 were provided");
    assert_eq!(error, fatal(place(0, 1), message));
    assert!(current(&comp).is_empty());
}

#[test]
fn layout_counts_where_operands_are_missing() {
    let m = modified(Primitive::Dip, vec![word(1, Word::Spaces)]);
    let (_, error) = refused(m);
    assert_eq!(
        error,
        fatal(
            place(0, 1),
            Message::OperandCount { modifier: "dip".to_string(), required: 1, given: 2 }
        )
    );
}

// Packs

#[test]
fn dip_of_a_pack_is_nested() {
    let branches = vec![
        func(2, vec![with_sig(2, 1, 1)]),
        func(3, vec![with_sig(3, 1, 1)]),
        func(4, vec![with_sig(4, 1, 1)]),
    ];
    let (_, code) = called(modified(Primitive::Dip, vec![pack(1, branches)]));
    let heads: Vec<&Instr> = code.iter().collect();
    let temps = heads.iter().filter(|i| matches!(i, Instr::PushTemp { .. })).count();
    assert_eq!(temps, 3);
    let prims: Vec<usize> = heads
        .iter()
        .filter_map(|i| match i {
            Instr::Prim(Primitive::Other { .. }, at) => Some(*at),
            _ => None,
        })
        .collect();
    assert_eq!(prims.len(), 3);
}

#[test]
fn fork_of_a_pack_is_nested() {
    let branches = vec![
        func(2, vec![with_sig(2, 0, 1)]),
        func(3, vec![with_sig(3, 0, 2)]),
        func(4, vec![with_sig(4, 0, 3)]),
    ];
    let (_, code) = called(modified(Primitive::Fork, vec![pack(1, branches)]));
    assert_eq!(
        code,
        vec![
            Instr::PushSig(sig(0, 6)),
            Instr::PushSig(sig(0, 5)),
            other(0, 3, 2),
            other(0, 2, 1),
            Instr::PopSig,
            other(0, 1, 0),
            Instr::PopSig,
        ]
    );
}

#[test]
fn a_pack_of_the_right_size_is_spread() {
    let branches = vec![func(2, vec![with_sig(2, 1, 1)]), func(3, vec![with_sig(3, 1, 2)])];
    let (_, code) = called(modified(Primitive::Under, vec![pack(1, branches)]));
    assert_eq!(code.len(), 7);
    assert_eq!(code[3], other(1, 2, 1));
}

#[test]
fn a_pack_of_the_wrong_size_is_refused() {
    let branches = vec![func(2, vec![with_sig(2, 1, 1)])];
    let (comp, error) = refused(modified(Primitive::Under, vec![pack(1, branches)]));
    assert_eq!(
        error,
        fatal(
            place(0, 2),
            Message::PackSize { modifier: "under".to_string(), required: 2, given: 1 }
        )
    );
    assert!(current(&comp).is_empty());
}

#[test]
fn a_modifier_of_one_function_takes_no_pack() {
    let branches = vec![func(2, vec![with_sig(2, 1, 1)])];
    let (_, error) = refused(modified(Primitive::Rows, vec![pack(1, branches)]));
    assert_eq!(
        error,
        fatal(place(0, 2), Message::PackUnsupported { modifier: "rows".to_string() })
    );
}

#[test]
fn an_angled_pack_is_an_operand() {
    let branches = vec![func(2, vec![with_sig(2, 1, 1)])];
    let angled = word(1, Word::Switch(Switch { branches, angled: true }));
    let (_, code) = called(modified(Primitive::Rows, vec![angled]));
    assert_eq!(code[1], Instr::Prim(Primitive::Rows, 0));
}

#[test]
fn a_stack_macro_takes_no_pack() {
    let mut comp = with_stack_macro("m", vec![number(9, "1")]);
    let branches = vec![func(2, vec![with_sig(2, 1, 1)])];
    let m = macro_use("m", 1, vec![pack(1, branches)]);
    assert_eq!(
        comp.modified(&Mini, m, true),
        Err(fatal(place(0, 2), Message::PackUnsupported { modifier: "m".to_string() }))
    );
}

// Stack macros

fn with_stack_macro(name: &str, words: Vec<Sp<Word>>) -> Compiler {
    let mut comp = compiler();
    comp.scope.names.insert(name.to_string(), LocalName { index: 3, public: true });
    let mut names = IndexMap::new();
    names.insert("inner".to_string(), LocalName { index: 8, public: false });
    comp.stack_macros.insert(3, StackMacro { words, names });
    comp
}

fn call_placeholder(from: u32) -> Sp<Word> {
    word(from, Word::Placeholder(PlaceholderOp::Call))
}

#[test]
fn a_stack_macro_is_expanded_and_called() {
    let words = vec![number(9, "1"), call_placeholder(10)];
    let mut comp = with_stack_macro("m", words);
    let m = macro_use("m", 1, vec![with_sig(2, 2, 1)]);
    assert_eq!(comp.modified(&Mini, m, true), Ok(()));
    let code = current(&comp);
    let function = match &code[0] {
        Instr::PushFunc(f) => f.clone(),
        _ => panic!(),
    };
    assert_eq!(function.id, FunctionId::Named("m".to_string()));
    assert_eq!(function.sig, sig(2, 2));
    assert_eq!(
        function.instrs(&comp.assembly).to_vec(),
        vec![other(2, 1, 0), Instr::Push(Value::count(1))]
    );
    assert_eq!(code[1], Instr::Call(1));
    assert_eq!(code.len(), 2);
    assert_eq!(comp.macro_depth, 0);
    assert_eq!(comp.scope.kind, ScopeKind::File);
    assert!(comp.higher_scopes.is_empty());
    let expansion = comp.code_meta.macro_expansions.get(&place(0, 3)).unwrap();
    assert_eq!(expansion.name, "m");
    assert_eq!(expansion.text, "1 Other { id: 21, args: 0 }");
    let key = place(0, 1).sp("m".to_string());
    assert_eq!(comp.code_meta.global_references.get(&key), Some(&3));
    assert_eq!(
        comp.diagnostics,
        vec![diagnostic(
            Message::Other { text: "looked at m".to_string() },
            DiagnosticKind::Advice,
            place(0, 1)
        )]
    );
}

#[test]
fn a_stack_macro_that_is_not_called_is_only_pushed() {
    let mut comp = with_stack_macro("m", vec![call_placeholder(10)]);
    let m = macro_use("m", 1, vec![with_sig(2, 2, 1)]);
    assert_eq!(comp.modified(&Mini, m, false), Ok(()));
    assert_eq!(current(&comp).len(), 1);
}

#[test]
fn a_placeholder_without_an_operand_is_refused() {
    let words = vec![call_placeholder(9), call_placeholder(10)];
    let mut comp = with_stack_macro("m", words);
    let m = macro_use("m", 1, vec![with_sig(2, 2, 1)]);
    assert_eq!(
        comp.modified(&Mini, m, true),
        Err(fatal(place(9, 10), Message::OperandStackEmpty))
    );
    assert!(comp.code_meta.macro_expansions.get(&place(0, 3)).is_none());
    assert_eq!(comp.macro_depth, 1);
}

#[test]
fn operands_that_are_left_are_warned_of() {
    let mut comp = with_stack_macro("m", vec![number(9, "1")]);
    let m = macro_use("m", 2, vec![with_sig(2, 2, 1), with_sig(5, 1, 1)]);
    assert_eq!(comp.modified(&Mini, m, true), Ok(()));
    assert_eq!(
        comp.diagnostics[1],
        diagnostic(Message::OperandsLeft { count: 2 }, DiagnosticKind::Warning, place(2, 6))
    );
}

#[test]
fn placeholders_are_run_from_the_last() {
    let mut comp = compiler();
    let mut words = vec![
        call_placeholder(1),
        call_placeholder(2),
        call_placeholder(3),
        word(4, Word::Placeholder(PlaceholderOp::Over)),
    ];
    let operands = vec![number(6, "1"), number(7, "2")];
    let res = comp.expand_macro(&Mini, "m".to_string(), &mut words, operands, place(0, 1));
    assert_eq!(res, Ok(()));
    assert_eq!(words, vec![number(6, "1"), number(7, "2"), number(6, "1")]);
    let expansion = comp.code_meta.macro_expansions.get(&place(0, 8)).unwrap();
    assert_eq!(expansion.text, "1 2 1");
}

#[test]
fn placeholders_can_flip_and_duplicate() {
    let mut comp = compiler();
    let mut words = vec![
        call_placeholder(1),
        list(2, call_placeholder(2)),
        call_placeholder(3),
        word(4, Word::Placeholder(PlaceholderOp::Dup)),
        word(5, Word::Placeholder(PlaceholderOp::Flip)),
    ];
    let operands = vec![number(6, "1"), number(7, "2")];
    let res = comp.expand_macro(&Mini, "m".to_string(), &mut words, operands, place(0, 1));
    assert_eq!(res, Ok(()));
    assert_eq!(
        words,
        vec![
            number(7, "2"),
            list(2, number(6, "1")),
            number(6, "1"),
        ]
    );
    assert!(comp.diagnostics.is_empty());
}

#[test]
fn operands_of_a_macro_are_marked() {
    let mut comp = compiler();
    let mut words = vec![call_placeholder(1)];
    let operands = vec![word(6, Word::Ref(reference("x", 0)))];
    let res = comp.expand_macro(&Mini, "m".to_string(), &mut words, operands, place(0, 1));
    assert_eq!(res, Ok(()));
    let mut marked = reference("x", 0);
    marked.in_macro_arg = true;
    assert_eq!(words, vec![word(6, Word::Ref(marked))]);
}

#[test]
fn functions_at_the_top_of_an_expansion_are_shown_open() {
    let mut comp = compiler();
    let body = func(1, vec![number(2, "3"), call_placeholder(3)]);
    let mut words = vec![word(1, Word::Func(body.value)), number(4, "4")];
    let operands = vec![number(6, "1")];
    let res = comp.expand_macro(&Mini, "m".to_string(), &mut words, operands, place(0, 1));
    assert_eq!(res, Ok(()));
    let expansion = comp.code_meta.macro_expansions.get(&place(0, 7)).unwrap();
    assert_eq!(expansion.text, "3 1 4");
}

#[test]
fn flip_of_one_operand_is_refused() {
    let mut comp = compiler();
    let mut words = vec![word(4, Word::Placeholder(PlaceholderOp::Flip))];
    let operands = vec![number(6, "1")];
    let res = comp.expand_macro(&Mini, "m".to_string(), &mut words, operands, place(0, 1));
    assert_eq!(res, Err(fatal(place(4, 5), Message::OperandStackEmpty)));
    assert_eq!(words, vec![word(4, Word::Placeholder(PlaceholderOp::Flip))]);
}

#[test]
fn macros_cannot_be_nested_too_deep() {
    let mut comp = with_stack_macro("m", vec![call_placeholder(10)]);
    comp.macro_depth = 20;
    let m = macro_use("m", 1, vec![with_sig(2, 2, 1)]);
    assert_eq!(comp.modified(&Mini, m, true), Err(fatal(place(0, 1), Message::MacroTooDeep)));
    let mut comp = with_stack_macro("m", vec![call_placeholder(10)]);
    comp.macro_depth = 19;
    let m = macro_use("m", 1, vec![with_sig(2, 2, 1)]);
    assert_eq!(comp.modified(&Mini, m, true), Ok(()));
    assert_eq!(comp.macro_depth, 19);
}

#[test]
fn a_name_that_is_no_macro_is_refused() {
    let mut comp = compiler();
    comp.scope.names.insert("x".to_string(), LocalName { index: 3, public: true });
    let m = macro_use("x", 1, vec![with_sig(2, 2, 1)]);
    assert_eq!(
        comp.modified(&Mini, m, true),
        Err(fatal(place(0, 1), Message::MacroNotFound { name: "x".to_string() }))
    );
}

#[test]
fn a_macro_of_no_functions_with_layout_is_expanded() {
    let mut comp = with_stack_macro("m", vec![number(9, "1")]);
    let m = macro_use("m", 0, vec![word(2, Word::Spaces)]);
    assert_eq!(comp.modified(&Mini, m, false), Ok(()));
    assert_eq!(current(&comp).len(), 1);
}

#[test]
fn a_macro_of_no_functions_with_an_operand_is_refused() {
    let mut comp = with_stack_macro("m", vec![number(9, "1")]);
    let m = macro_use("m", 0, vec![number(2, "4")]);
    assert_eq!(
        comp.modified(&Mini, m, true),
        Err(fatal(
            place(0, 1),
            Message::OperandCount { modifier: "m".to_string(), required: 0, given: 1 }
        ))
    );
}

#[test]
fn an_unknown_name_is_refused() {
    let m = macro_use("y", 1, vec![with_sig(2, 2, 1)]);
    let (comp, error) = refused(m);
    assert_eq!(error, fail("unknown", &place(0, 1)));
    assert_eq!(comp.macro_depth, 0);
}

#[test]
fn the_modules_of_a_path_are_noted() {
    let mut comp = with_stack_macro("m", vec![call_placeholder(10)]);
    let mut r = reference("m", 1);
    let module = place(20, 21).sp("mod".to_string());
    r.path.push(uiua_modifiers::word::RefComponent { module: module.clone() });
    let m = Modified {
        modifier: place(0, 1).sp(Modifier::Ref(r)),
        operands: vec![with_sig(2, 2, 1)],
    };
    assert_eq!(comp.modified(&Mini, m, true), Ok(()));
    assert_eq!(comp.code_meta.global_references.get(&module), Some(&40));
}

// Array macros

fn with_array_macro(function: &str, args: usize) -> Compiler {
    let mut comp = compiler();
    comp.scope.names.insert("m".to_string(), LocalName { index: 4, public: true });
    let mut names = IndexMap::new();
    names.insert("inner".to_string(), LocalName { index: 8, public: false });
    let function = Function {
        id: FunctionId::Named(function.to_string()),
        sig: sig(args, 1),
        slice: FuncSlice { start: 0, len: 0 },
    };
    comp.array_macros.insert(4, ArrayMacro { function, names });
    comp
}

#[test]
fn an_array_macro_is_run_on_texts() {
    let mut comp = with_array_macro("first", 1);
    let operand = word(2, Word::Func(func(2, vec![number(3, "4"), number(4, "5")]).value));
    assert_eq!(comp.modified(&Mini, macro_use("m", 1, vec![operand]), true), Ok(()));
    assert_eq!(
        current(&comp),
        vec![Instr::Push(Value::count(5)), Instr::Push(Value::count(4))]
    );
    let expansion = comp.code_meta.macro_expansions.get(&place(0, 3)).unwrap();
    assert_eq!(expansion.name, "m");
    assert_eq!(expansion.text, "4 5");
    assert_eq!(comp.assembly.inputs.strings, vec!["4 5"]);
    assert!(comp.macro_env.stack.is_empty());
    assert_eq!(comp.macro_depth, 0);
}

#[test]
fn the_rows_of_an_array_macro_are_joined() {
    let mut comp = with_array_macro("rows", 1);
    let branches = vec![func(2, vec![number(2, "4")]), func(3, vec![number(3, "5")])];
    assert_eq!(comp.modified(&Mini, macro_use("m", 1, vec![pack(1, branches)]), true), Ok(()));
    let expansion = comp.code_meta.macro_expansions.get(&place(0, 2)).unwrap();
    assert_eq!(expansion.text, "4 5");
}

#[test]
fn an_array_macro_of_two_arguments_is_given_signatures() {
    let mut comp = with_array_macro("sigs", 2);
    let m = macro_use("m", 2, vec![with_sig(2, 2, 1), with_sig(3, 1, 3)]);
    assert_eq!(comp.modified(&Mini, m, true), Ok(()));
    let expansion = comp.code_meta.macro_expansions.get(&place(0, 4)).unwrap();
    assert_eq!(expansion.text, "2 2 1 1 3");
    assert!(comp.assembly.spans.is_empty());
}

#[test]
fn an_array_macro_whose_operand_does_not_compile_is_refused() {
    let mut comp = with_array_macro("sigs", 2);
    let bad = word(3, Word::Char("x".to_string()));
    let m = macro_use("m", 2, vec![with_sig(2, 2, 1), bad]);
    assert_eq!(comp.modified(&Mini, m, true), Err(fail("no good", &place(3, 4))));
}

fn traced(error: UiuaError) -> UiuaError {
    UiuaError::Traced { error: Box::new(error), span: place(0, 1) }
}

#[test]
fn an_array_macro_that_crashes_is_attributed() {
    let mut comp = with_array_macro("crash", 1);
    let m = macro_use("m", 1, vec![number(2, "4")]);
    assert_eq!(comp.modified(&Mini, m, true), Err(traced(fail("crash", &place(0, 0)))));
}

#[test]
fn an_array_macro_that_leaves_nothing_is_attributed() {
    let mut comp = with_array_macro("nothing", 1);
    let m = macro_use("m", 1, vec![number(2, "4")]);
    assert_eq!(
        comp.modified(&Mini, m, true),
        Err(traced(UiuaError::StackEmpty { what: "macro result".to_string() }))
    );
}

#[test]
fn an_array_macro_that_leaves_no_text_is_attributed() {
    let mut comp = with_array_macro("count", 1);
    let m = macro_use("m", 1, vec![number(2, "4")]);
    assert_eq!(
        comp.modified(&Mini, m, true),
        Err(traced(fail("Macro output rows must be strings", &place(0, 0))))
    );
}

#[test]
fn an_array_macro_whose_program_cannot_be_loaded_is_attributed() {
    let mut comp = with_array_macro("first", 1);
    comp.assembly.instrs.push(Instr::Other(66));
    let m = macro_use("m", 1, vec![number(2, "4")]);
    assert_eq!(comp.modified(&Mini, m, true), Err(traced(fail("top", &place(0, 0)))));
}

// Generated code

#[test]
fn generated_syntax_errors_are_attributed() {
    let mut comp = compiler();
    let res = comp.quote(&Mini, "4 !", &place(0, 1), true);
    match res {
        Err(UiuaError::Traced { error, span }) => {
            assert_eq!(span, place(0, 1));
            match *error {
                UiuaError::Parse { errors, inputs } => {
                    assert_eq!(errors.len(), 1);
                    assert_eq!(inputs.strings, vec!["4 !"]);
                }
                _ => panic!(),
            }
        }
        _ => panic!(),
    }
    assert!(current(&comp).is_empty());
}

#[test]
fn generated_lines_are_compiled_up_to_the_first_that_fails() {
    let mut comp = compiler();
    let res = comp.quote(&Mini, "4\nfail\n5", &place(0, 1), true);
    match res {
        Err(UiuaError::Traced { span, .. }) => assert_eq!(span, place(0, 1)),
        _ => panic!(),
    }
    assert_eq!(current(&comp), vec![Instr::Push(Value::count(4))]);
}

#[test]
fn generated_test_scopes_are_errors() {
    let mut comp = compiler();
    assert_eq!(comp.quote(&Mini, "test\n5", &place(0, 1), true), Ok(()));
    assert_eq!(comp.errors, vec![fatal(place(0, 1), Message::TestScope)]);
    assert_eq!(current(&comp), vec![Instr::Push(Value::count(5))]);
}

#[test]
fn generated_imports_that_fail_are_attributed() {
    let mut comp = compiler();
    match comp.quote(&Mini, "import", &place(0, 1), true) {
        Err(UiuaError::Traced { span, .. }) => assert_eq!(span, place(0, 1)),
        _ => panic!(),
    }
}

#[test]
fn generated_bindings_get_into_the_scope_around() {
    let mut comp = with_array_macro("first", 1);
    let operand = word(2, Word::Text("new=".to_string()));
    assert_eq!(comp.modified(&Mini, macro_use("m", 1, vec![operand]), true), Ok(()));
    let names: Vec<String> = comp.scope.names.keys().cloned().collect();
    assert_eq!(names, vec!["m", "new"]);
    assert_eq!(comp.assembly.bindings.len(), 1);
}

// Scopes

#[test]
fn a_temporary_scope_has_the_names_of_the_macro() {
    let mut comp = compiler();
    comp.scope.experimental = true;
    comp.scope.bind_locals.push(BTreeSet::new());
    comp.scope.names.insert("a".to_string(), LocalName { index: 0, public: true });
    let mut names = IndexMap::new();
    names.insert("b".to_string(), LocalName { index: 1, public: true });
    let seen = comp.temp_scope(names, |comp: &mut Compiler| {
        assert_eq!(comp.scope.kind, ScopeKind::Temp);
        assert!(comp.scope.experimental);
        assert!(comp.scope.bind_locals.is_empty());
        assert_eq!(comp.higher_scopes.len(), 1);
        comp.scope.names.insert("a".to_string(), LocalName { index: 5, public: false });
        comp.scope.names.insert("c".to_string(), LocalName { index: 6, public: false });
        comp.scope.names.len()
    });
    assert_eq!(seen, 3);
    let names: Vec<(String, usize)> =
        comp.scope.names.iter().map(|(n, l)| (n.clone(), l.index)).collect();
    assert_eq!(names, vec![("a".to_string(), 5), ("c".to_string(), 6)]);
    assert_eq!(comp.scope.kind, ScopeKind::File);
    assert_eq!(comp.scope.bind_locals.len(), 1);
    assert!(comp.higher_scopes.is_empty());
}

#[test]
fn a_given_name_that_is_bound_anew_is_kept() {
    let mut comp = compiler();
    let local = |index| LocalName { index, public: false };
    comp.scope.names.insert("a".to_string(), local(0));
    let mut names = IndexMap::new();
    for (i, name) in ["a", "b", "c"].iter().enumerate() {
        names.insert(name.to_string(), local(10 + i));
    }
    comp.temp_scope(names, |comp: &mut Compiler| {
        comp.scope.names.insert("d".to_string(), local(20));
        comp.scope.names.insert("c".to_string(), local(21));
        comp.scope.names.insert("a".to_string(), local(22));
    });
    let names: Vec<(String, usize)> =
        comp.scope.names.iter().map(|(n, l)| (n.clone(), l.index)).collect();
    let wanted: Vec<(String, usize)> = vec![
        ("a".to_string(), 22),
        ("c".to_string(), 21),
        ("d".to_string(), 20),
    ];
    assert_eq!(names, wanted);
}

#[test]
fn a_given_name_stays_inside_wherever_it_stands() {
    let mut comp = compiler();
    let local = |index| LocalName { index, public: false };
    let mut names = IndexMap::new();
    names.insert("a".to_string(), local(0));
    names.insert("b".to_string(), local(1));
    comp.temp_scope(names, |comp: &mut Compiler| {
        comp.scope.names.shift_remove("a");
        comp.scope.names.insert("c".to_string(), local(2));
    });
    let names: Vec<(String, usize)> =
        comp.scope.names.iter().map(|(n, l)| (n.clone(), l.index)).collect();
    assert_eq!(names, vec![("c".to_string(), 2)]);
}

#[test]
fn a_generated_binding_of_a_name_of_the_macro_is_kept() {
    let mut comp = with_array_macro("first", 1);
    let operand = word(2, Word::Text("inner=".to_string()));
    assert_eq!(comp.modified(&Mini, macro_use("m", 1, vec![operand]), true), Ok(()));
    let names: Vec<(String, usize)> =
        comp.scope.names.iter().map(|(n, l)| (n.clone(), l.index)).collect();
    assert_eq!(names, vec![("m".to_string(), 4), ("inner".to_string(), 0)]);
}

#[test]
fn a_new_name_passes_out_through_nested_scopes() {
    let mut comp = compiler();
    let local = |index| LocalName { index, public: true };
    comp.scope.names.insert("a".to_string(), local(0));
    let mut outer = IndexMap::new();
    outer.insert("b".to_string(), local(1));
    let mut inner = IndexMap::new();
    inner.insert("c".to_string(), local(2));
    comp.temp_scope(outer, |comp: &mut Compiler| {
        comp.temp_scope(inner, |comp: &mut Compiler| {
            comp.scope.names.insert("d".to_string(), local(3));
        });
    });
    let names: Vec<(String, usize)> =
        comp.scope.names.iter().map(|(n, l)| (n.clone(), l.index)).collect();
    assert_eq!(names, vec![("a".to_string(), 0), ("d".to_string(), 3)]);
    assert!(comp.higher_scopes.is_empty());
}

#[test]
fn a_temporary_scope_without_new_names_leaves_no_trace() {
    let mut comp = compiler();
    comp.scope.names.insert("a".to_string(), LocalName { index: 0, public: true });
    let mut names = IndexMap::new();
    names.insert("b".to_string(), LocalName { index: 1, public: true });
    comp.temp_scope(names, |_: &mut Compiler| {});
    let names: Vec<String> = comp.scope.names.keys().cloned().collect();
    assert_eq!(names, vec!["a"]);
}

// The runtime of macros

fn binding_at(at: u32) -> BindingInfo {
    BindingInfo { kind: BindingKind::Module, public: true, span: place(at, at) }
}

#[test]
fn the_runtime_keeps_its_bindings_and_loads_new_slices() {
    let mut comp = compiler();
    comp.assembly.bindings = vec![binding_at(1), binding_at(2)];
    comp.assembly.top_slices =
        vec![FuncSlice { start: 0, len: 1 }, FuncSlice { start: 4, len: 2 }];
    comp.assembly.instrs = vec![Instr::PopSig];
    comp.macro_env.assembly.bindings = vec![binding_at(9)];
    comp.macro_env.assembly.top_slices = vec![FuncSlice { start: 0, len: 1 }];
    comp.macro_env.push(Value::count(3));
    assert_eq!(comp.prepare_env(&Mini), Ok(()));
    let env = &comp.macro_env;
    assert_eq!(env.assembly.bindings, vec![binding_at(9), binding_at(2)]);
    assert_eq!(env.assembly.top_slices, vec![FuncSlice { start: 4, len: 2 }]);
    assert_eq!(env.assembly.instrs, vec![Instr::PopSig]);
    assert_eq!(env.stack, vec![Value::count(3)]);
    assert_eq!(comp.prepare_env(&Mini), Ok(()));
    assert!(comp.macro_env.assembly.top_slices.is_empty());
}

#[test]
fn a_runtime_without_slices_loads_all() {
    let mut comp = compiler();
    comp.assembly.top_slices =
        vec![FuncSlice { start: 0, len: 1 }, FuncSlice { start: 4, len: 2 }];
    assert_eq!(comp.prepare_env(&Mini), Ok(()));
    assert_eq!(comp.macro_env.assembly.top_slices, comp.assembly.top_slices);
}

// The compiler itself

#[test]
fn code_without_a_function_goes_into_the_assembly() {
    let mut comp = Compiler::new();
    let m = modified(Primitive::Content, vec![with_sig(1, 0, 1)]);
    assert_eq!(comp.modified(&Mini, m, true), Ok(()));
    assert_eq!(comp.assembly.instrs, vec![other(0, 1, 0)]);
    assert!(comp.new_functions.is_empty());
}

#[test]
fn an_expansion_replaces_an_earlier_one() {
    let mut comp = compiler();
    for text in ["1", "2"] {
        let mut words = vec![number(1, text)];
        let operands = vec![word(6, Word::Spaces)];
        let res = comp.expand_macro(&Mini, "m".to_string(), &mut words, operands, place(0, 1));
        assert_eq!(res, Ok(()));
    }
    let expansion = comp.code_meta.macro_expansions.get(&place(0, 7)).unwrap();
    let Expansion { name, text } = expansion;
    assert_eq!((name.as_str(), text.as_str()), ("m", "2"));
}
