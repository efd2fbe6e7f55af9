//! The modifier that gives names to the arguments of a function: bind.
use crate::codegen::{bind_code, bind_sig, lemma_grounded_one, make_bind};
use crate::compiler::{
    finished, next_span, room_for_locals, well_formed, with_diagnostic, with_span, Compiler,
    CompilerV, ScopeV,
};
use crate::instr::Instr;
use crate::keeping::{lemma_kept_on, place_kept, scope_kept};
use crate::message::{DiagnosticKind, Message, UiuaError, UiuaResult};
use crate::prim::{Primitive, Signature};
use crate::span::CodeSpan;
use crate::toolchain::{did_compile_operand_word, did_prim_text, orderly, Toolchain};
use crate::word::{code_words, Modified, ModifiedV};
use std::collections::BTreeSet;
use vstd::prelude::*;

verus! {

/// How many local values there are if the given ones are used: one more than the highest number,
/// or none.
pub open spec fn is_local_count(locals: Set<usize>, count: usize) -> bool {
    &&& forall|n: usize| #[trigger] locals.contains(n) ==> n < count
    &&& count > 0 ==> locals.contains((count - 1) as usize)
}

/// There is only one such count.
pub proof fn law_local_count_unique(locals: Set<usize>, a: usize, b: usize)
    requires
        is_local_count(locals, a),
        is_local_count(locals, b),
    ensures
        a == b,
{
    if a < b {
        assert(locals.contains((b - 1) as usize));
    } else if b < a {
        assert(locals.contains((a - 1) as usize));
    }
}

/// A compiler that has started on a bind.
pub open spec fn bind_entered(v: CompilerV) -> CompilerV {
    CompilerV {
        scope: ScopeV { bind_locals: v.scope.bind_locals.push(Set::empty()), ..v.scope },
        ..v
    }
}

/// A compiler that has finished a bind.
pub open spec fn bind_left(v: CompilerV) -> CompilerV {
    CompilerV {
        scope: ScopeV { bind_locals: v.scope.bind_locals.drop_last(), ..v.scope },
        ..v
    }
}

/// What has been noted of a bind: advice where it names few values.
pub open spec fn bind_noted<T: Toolchain>(
    t: &T,
    v: CompilerV,
    count: usize,
    operand: CodeSpan,
    w: CompilerV,
) -> bool {
    if count < 3 {
        exists|text: String| #[trigger]
            did_prim_text(t, Primitive::Bind, text) && w == with_diagnostic(
                v,
                Message::BindFew { prim: text, count },
                DiagnosticKind::Advice,
                operand,
            )
    } else {
        w == v
    }
}

/// What was done with a bind.
pub open spec fn bound<T: Toolchain>(
    t: &T,
    v: CompilerV,
    m: ModifiedV,
    call: bool,
    w: CompilerV,
    res: UiuaResult<()>,
) -> bool {
    let span = m.modifier.span;
    let word = code_words(m.operands)[0];
    exists|u: CompilerV, out: UiuaResult<(Vec<Instr>, Signature)>| #[trigger]
        did_compile_operand_word(t, bind_entered(v), word, u, out) && match out {
            Err(e) => w == u && res == Err::<(), UiuaError>(e),
            Ok((code, sig)) => {
                let left = bind_left(u);
                &&& res is Ok
                &&& exists|count: usize, noted: CompilerV|
                    #![trigger bind_noted(t, with_span(left, span), count, word.span, noted)]
                    {
                        &&& is_local_count(u.scope.bind_locals.last(), count)
                        &&& bind_noted(t, with_span(left, span), count, word.span, noted)
                        &&& w == finished(
                            noted,
                            span,
                            call,
                            bind_sig(sig, count),
                            bind_code(code@, count, next_span(left)),
                        )
                    }
            },
        }
}

/// The number of local values, from those that are used.
pub fn local_count(locals: &BTreeSet<usize>) -> (res: usize)
    requires
        forall|n: usize| #[trigger] locals@.contains(n) ==> n < usize::MAX / 2,
    ensures
        is_local_count(locals@, res),
{
    broadcast use vstd::std_specs::btree::group_btree_axioms;

    let mut count: usize = 0;
    for x in it: locals.iter()
        invariant
            it.seq().unref().to_set() == locals@,
            forall|n: usize| #[trigger] locals@.contains(n) ==> n < usize::MAX / 2,
            forall|i: int| 0 <= i < it.index() ==> *(#[trigger] it.seq()[i]) < count,
            count > 0 ==> locals@.contains((count - 1) as usize),
    {
        let n: usize = *x;
        assert(it.seq().unref()[it.index()] == n);
        assert(it.seq().unref().to_set().contains(n));
        if n >= count {
            count = n + 1;
        }
    }
    proof {
        assert forall|n: usize| #[trigger] locals@.contains(n) implies n < count by {}
    }
    count
}

pub proof fn lemma_bind_entered(v: CompilerV)
    requires
        well_formed(v),
    ensures
        well_formed(bind_entered(v)),
{
    let scope = bind_entered(v).scope;
    assert forall|i: int, n: usize|
        0 <= i < scope.bind_locals.len() && #[trigger] scope.bind_locals[i].contains(n) implies n
        < usize::MAX / 2 by {
        if i < v.scope.bind_locals.len() {
            assert(v.scope.bind_locals[i].contains(n));
        }
    }
    assert(room_for_locals(scope));
}

/// A bind keeps what the compilation of its operand keeps.
proof fn lemma_kept_bound(v: CompilerV, u: CompilerV, ok: bool)
    requires
        well_formed(v),
        place_kept(bind_entered(v), u, ok),
    ensures
        place_kept(v, u, false),
        ok ==> place_kept(v, bind_left(u), true),
{
    lemma_bind_entered(v);
    assert forall|i: int| 0 <= i < v.higher_scopes.len() implies #[trigger] scope_kept(
        v.higher_scopes[i],
        u.higher_scopes[i],
        ok,
    ) by {
        assert(scope_kept(bind_entered(v).higher_scopes[i], u.higher_scopes[i], ok));
    }
    assert forall|i: int| 0 <= i < v.higher_scopes.len() implies #[trigger] scope_kept(
        v.higher_scopes[i],
        u.higher_scopes[i],
        false,
    ) by {
        assert(scope_kept(v.higher_scopes[i], u.higher_scopes[i], ok));
    }
    let left = bind_left(u);
    assert forall|i: int, n: usize|
        0 <= i < left.scope.bind_locals.len() && #[trigger] left.scope.bind_locals[i].contains(
            n,
        ) && ok implies n < usize::MAX / 2 by {
        assert(u.scope.bind_locals[i].contains(n));
    }
}

impl Compiler {
    /// Compiles a bind.
    pub fn bind<T: Toolchain>(&mut self, t: &T, m: &Modified, call: bool) -> (res: UiuaResult<()>)
        requires
            orderly(t),
            well_formed(old(self)@),
            code_words(m@.operands).len() == 1,
        ensures
            bound(t, old(self)@, m@, call, final(self)@, res),
            place_kept(old(self)@, final(self)@, res is Ok),
    {
        let ghost v = self@;
        let operand = m.code_operand(0);
        self.scope.bind_locals.push(BTreeSet::new());
        let ghost entered = self@;
        proof {
            assert(entered.scope.bind_locals =~= bind_entered(v).scope.bind_locals);
            assert(entered == bind_entered(v));
            lemma_bind_entered(v);
        }
        let out = self.do_compile_operand_word(t, operand);
        let ghost u = self@;
        proof {
            lemma_kept_bound(v, u, out is Ok);
        }
        match out {
            Err(e) => Err(e),
            Ok((instrs, sig)) => {
                let ghost code = instrs@;
                let ghost used = u.scope.bind_locals.last();
                let popped = self.scope.bind_locals.pop();
                let count: usize = match popped {
                    Some(locals) => {
                        assert(locals@ == used);
                        assert forall|n: usize| #[trigger] locals@.contains(n) implies n
                            < usize::MAX / 2 by {
                            let i = u.scope.bind_locals.len() - 1;
                            assert(u.scope.bind_locals[i].contains(n));
                        }
                        local_count(&locals)
                    },
                    None => 0,
                };
                let ghost left = self@;
                proof {
                    assert(left.scope.bind_locals =~= bind_left(u).scope.bind_locals);
                    assert(left == bind_left(u));
                }
                let span: usize = self.add_span(m.modifier.span.clone());
                let ghost spanned = self@;
                if count < 3 {
                    let text = t.prim_text(Primitive::Bind);
                    assert(did_prim_text(t, Primitive::Bind, text));
                    self.emit_diagnostic(
                        Message::BindFew { prim: text, count },
                        DiagnosticKind::Advice,
                        operand.span.clone(),
                    );
                }
                let ghost noted = self@;
                assert(bind_noted(t, spanned, count, operand.span, noted));
                proof {
                    if count > 0 {
                        let i = u.scope.bind_locals.len() - 1;
                        assert(u.scope.bind_locals[i].contains((count - 1) as usize));
                    }
                    lemma_grounded_one(code, sig, count, span, noted.assembly.instrs.len());
                }
                let instrs = make_bind(instrs, count, span);
                let new_sig = Signature::new(sig.args + count, sig.outputs);
                self.finish(m.modifier.span.clone(), call, new_sig, instrs);
                proof {
                    lemma_kept_on(v, left, spanned, true);
                    lemma_kept_on(v, spanned, noted, true);
                    lemma_kept_on(v, noted, self@, true);
                }
                Ok(())
            },
        }
    }
}

} // verus!
