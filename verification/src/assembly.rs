//! What the compiler produces.
use crate::instr::{backward, body_of, grounded, slice_end, FuncSlice, Function, Instr};
use crate::span::{CodeSpan, Span};
use crate::value::Value;
use vstd::prelude::*;
use vstd::slice::*;

verus! {

/// The texts that were given to the compiler or made by it.
#[derive(Debug, PartialEq, Eq)]
pub struct Inputs {
    pub strings: Vec<String>,
}

/// What a name is bound to.
#[derive(Debug, PartialEq, Eq)]
pub enum BindingKind {
    Const(Option<Value>),
    Func(Function),
    Module,
    Macro,
}

/// A binding of a name.
#[derive(Debug, PartialEq, Eq)]
pub struct BindingInfo {
    pub kind: BindingKind,
    pub public: bool,
    pub span: CodeSpan,
}

/// Compiled code.
#[derive(Debug, PartialEq, Eq)]
pub struct Assembly {
    pub instrs: Vec<Instr>,
    /// The code that is run when the program is loaded.
    pub top_slices: Vec<FuncSlice>,
    pub bindings: Vec<BindingInfo>,
    pub spans: Vec<Span>,
    pub inputs: Inputs,
}

/// The model of compiled code.
#[verifier::ext_equal]
pub struct AssemblyV {
    pub instrs: Seq<Instr>,
    pub top_slices: Seq<FuncSlice>,
    pub bindings: Seq<BindingInfo>,
    pub spans: Seq<Span>,
    pub inputs: Seq<String>,
}

impl View for Inputs {
    type V = Seq<String>;

    open spec fn view(&self) -> Seq<String> {
        self.strings@
    }
}

impl View for Assembly {
    type V = AssemblyV;

    open spec fn view(&self) -> AssemblyV {
        AssemblyV {
            instrs: self.instrs@,
            top_slices: self.top_slices@,
            bindings: self.bindings@,
            spans: self.spans@,
            inputs: self.inputs@,
        }
    }
}

impl Clone for Inputs {
    fn clone(&self) -> (res: Self)
        ensures
            res@ == self@,
    {
        let strings = self.strings.clone();
        assert(strings@ =~= self.strings@);
        Inputs { strings }
    }
}

impl Clone for BindingKind {
    fn clone(&self) -> (res: Self)
        ensures
            res == *self,
    {
        match self {
            BindingKind::Const(Some(value)) => BindingKind::Const(Some(value.clone())),
            BindingKind::Const(None) => BindingKind::Const(None),
            BindingKind::Func(f) => BindingKind::Func(f.clone()),
            BindingKind::Module => BindingKind::Module,
            BindingKind::Macro => BindingKind::Macro,
        }
    }
}

impl Clone for BindingInfo {
    fn clone(&self) -> (res: Self)
        ensures
            res == *self,
    {
        BindingInfo { kind: self.kind.clone(), public: self.public, span: self.span.clone() }
    }
}

impl Clone for Assembly {
    fn clone(&self) -> (res: Self)
        ensures
            res@ == self@,
    {
        let instrs = self.instrs.clone();
        let top_slices = self.top_slices.clone();
        let bindings = self.bindings.clone();
        let spans = self.spans.clone();
        assert(instrs@ =~= self.instrs@);
        assert(top_slices@ =~= self.top_slices@);
        assert(bindings@ =~= self.bindings@);
        assert(spans@ =~= self.spans@);
        Assembly { instrs, top_slices, bindings, spans, inputs: self.inputs.clone() }
    }
}

impl Assembly {
    /// An assembly with nothing in it.
    pub fn new() -> (res: Assembly)
        ensures
            res@ == (AssemblyV {
                instrs: Seq::empty(),
                top_slices: Seq::empty(),
                bindings: Seq::empty(),
                spans: Seq::empty(),
                inputs: Seq::empty(),
            }),
    {
        Assembly {
            instrs: Vec::new(),
            top_slices: Vec::new(),
            bindings: Vec::new(),
            spans: Vec::new(),
            inputs: Inputs { strings: Vec::new() },
        }
    }
}

impl Function {
    /// The code of the function.
    pub fn instrs<'a>(&self, assembly: &'a Assembly) -> (res: &'a [Instr])
        requires
            slice_end(self.slice) <= assembly.instrs@.len(),
        ensures
            res@ == body_of(*self, assembly.instrs@),
    {
        assert(assembly.instrs.len() == assembly.instrs@.len());
        let end: usize = self.slice.start + self.slice.len;
        slice_subrange(assembly.instrs.as_slice(), self.slice.start, end)
    }

    /// The signature of the function.
    pub fn signature(&self) -> (res: crate::prim::Signature)
        ensures
            res == self.sig,
    {
        self.sig
    }
}

/// The code of a function that is pushed in the assembly is grounded below the function's end.
pub proof fn lemma_body_grounded(f: Function, assembly: Seq<Instr>)
    requires
        backward(assembly),
        slice_end(f.slice) <= assembly.len(),
        f.slice.len > 0,
    ensures
        grounded(body_of(f, assembly), (slice_end(f.slice) - 1) as nat),
{
    let body = body_of(f, assembly);
    assert forall|i: int|
        #![trigger body[i]]
        0 <= i < body.len() && body[i] is PushFunc implies slice_end(body[i]->PushFunc_0.slice)
        <= slice_end(f.slice) - 1 by {
        assert(body[i] == assembly[f.slice.start + i]);
    }
}

/// Code that is grounded in an assembly keeps the assembly backward when it is added to it.
pub proof fn lemma_backward_extended(assembly: Seq<Instr>, code: Seq<Instr>)
    requires
        backward(assembly),
        grounded(code, assembly.len()),
    ensures
        backward(assembly + code),
{
    let all = assembly + code;
    assert forall|i: int|
        #![trigger all[i]]
        0 <= i < all.len() && all[i] is PushFunc implies slice_end(all[i]->PushFunc_0.slice)
        <= i by {
        if i < assembly.len() {
            assert(all[i] == assembly[i]);
        } else {
            assert(all[i] == code[i - assembly.len()]);
        }
    }
}

} // verus!
