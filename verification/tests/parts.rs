//! The parts that modifiers are compiled with.
use std::collections::BTreeSet;
use uiua_modifiers::assembly::{Assembly, Inputs};
use uiua_modifiers::codegen::{
    make_both, make_bind, make_bracket, make_by, make_cascade, make_cascade_sig, make_content,
    make_dip, make_fork, make_fork_sig, make_gap, make_on, make_under,
};
use uiua_modifiers::expand::{only_code, run_placeholders, words_to_show};
use uiua_modifiers::instr::{FuncSlice, Function, Instr};
use uiua_modifiers::locals::local_count;
use uiua_modifiers::message::{Message, UiuaError};
use uiua_modifiers::pack::{nest_dip, nest_right, spread_pack, unpack};
use uiua_modifiers::pattern::instrs_have_pattern_matching;
use uiua_modifiers::placeholder::{collect_placeholder, replace_placeholders, set_in_macro_arg};
use uiua_modifiers::prim::{ImplPrimitive, Primitive, Signature};
use uiua_modifiers::span::{CodeSpan, InputSrc, Loc, Sp};
use uiua_modifiers::table::{Expansion, Table};
use uiua_modifiers::text::{add_row, decimal_text, operand_text, text_chars, text_of};
use uiua_modifiers::value::{Boxed, Number, Value};
use uiua_modifiers::word::{
    Func, FunctionId, Modified, Modifier, PlaceholderOp, Ref, Switch, Word,
};

fn loc(at: u32) -> Loc {
    Loc { char_pos: at, byte_pos: at, line: 1, col: at as u16 }
}

fn place(from: u32, to: u32) -> CodeSpan {
    CodeSpan { src: InputSrc::Input(0), start: loc(from), end: loc(to) }
}

fn word(from: u32, value: Word) -> Sp<Word> {
    place(from, from + 1).sp(value)
}

fn number(from: u32, text: &str) -> Sp<Word> {
    word(from, Word::Number(text.to_string()))
}

fn placeholder(from: u32, op: PlaceholderOp) -> Sp<Word> {
    word(from, Word::Placeholder(op))
}

fn func(from: u32, words: Vec<Sp<Word>>) -> Sp<Func> {
    let span = place(from, from + 1);
    span.clone().sp(Func {
        id: FunctionId::Anonymous(span),
        signature: None,
        lines: vec![words],
        closed: true,
    })
}

fn sig(args: usize, outputs: usize) -> Signature {
    Signature::new(args, outputs)
}

// The code of modifiers, run on stacks

/// An instruction that takes values and leaves numbers made from them.
fn mixer(sig: Signature, id: usize) -> Instr {
    Instr::Prim(Primitive::Other { id: id * 100 + sig.args * 10 + sig.outputs, args: 0 }, 0)
}

/// What a mixer makes of its arguments.
fn mixed(args: &[u64], id: usize, outputs: usize) -> Vec<u64> {
    let all = args.iter().fold(id as u64 + 7, |sum, x| (sum * 31 + x) % 1_000_003);
    (0..outputs).map(|i| (all * 17 + i as u64) % 1_000_003).collect()
}

/// Runs code on a stack. The depth that it reached is kept too.
fn run(code: &[Instr], start: &[u64]) -> (Vec<u64>, usize) {
    let mut main: Vec<u64> = start.to_vec();
    let mut aside: Vec<u64> = Vec::new();
    let mut lowest = main.len();
    for instr in code {
        match instr {
            Instr::PushTemp { count, .. } => {
                for _ in 0..*count {
                    aside.push(main.pop().unwrap());
                }
                lowest = lowest.min(main.len());
            }
            Instr::PopTemp { count, .. } => {
                for _ in 0..*count {
                    main.push(aside.pop().unwrap());
                }
            }
            Instr::CopyToTemp { count, .. } => {
                for i in 0..*count {
                    aside.push(main[main.len() - 1 - i]);
                }
                lowest = lowest.min(main.len() - count);
            }
            Instr::Prim(Primitive::Pop, _) => {
                main.pop().unwrap();
                lowest = lowest.min(main.len());
            }
            Instr::Prim(Primitive::Dup, _) => {
                let top = *main.last().unwrap();
                lowest = lowest.min(main.len() - 1);
                main.push(top);
            }
            Instr::ImplPrim(ImplPrimitive::UnBox, _) => {
                let top = main.pop().unwrap();
                lowest = lowest.min(main.len());
                main.push(top + 500_000);
            }
            Instr::PushLocals { count, .. } => {
                main.truncate(main.len() - count);
                lowest = lowest.min(main.len());
            }
            Instr::Prim(Primitive::Other { id, .. }, _) => {
                let (args, outputs) = (id / 10 % 10, id % 10);
                let taken = main.split_off(main.len() - args);
                lowest = lowest.min(main.len());
                main.extend(mixed(&taken, id / 100, outputs));
            }
            _ => {}
        }
    }
    assert!(aside.is_empty());
    (main, start.len() - lowest)
}

const STACK: [u64; 9] = [11, 12, 13, 14, 15, 16, 17, 18, 19];

/// The code takes and leaves what the signature says, and leaves the given values on top.
fn holds(code: &[Instr], sig: Signature, top: Vec<u64>) {
    let (end, depth) = run(code, &STACK);
    assert_eq!(depth, sig.args);
    assert_eq!(top.len(), sig.outputs);
    let mut wanted = STACK[..STACK.len() - sig.args].to_vec();
    wanted.extend(top);
    assert_eq!(end, wanted);
}

/// The top values of the stack.
fn args(n: usize) -> Vec<u64> {
    STACK[STACK.len() - n..].to_vec()
}

fn sigs() -> Vec<Signature> {
    let mut all = Vec::new();
    for a in 0..4 {
        for o in 0..3 {
            all.push(sig(a, o));
        }
    }
    all
}

#[test]
fn one_function_modifiers_do_what_they_say() {
    for s in sigs() {
        let code = vec![mixer(s, 1)];
        let below = &STACK[STACK.len() - 1 - s.args..STACK.len() - 1];
        let mut top = mixed(below, 1, s.outputs);
        holds(&make_gap(code.clone(), 0), sig(s.args + 1, s.outputs), top.clone());
        top.push(19);
        holds(&make_dip(code.clone(), 0), sig(s.args + 1, s.outputs + 1), top);
        let mut on = mixed(&args(s.args), 1, s.outputs);
        on.push(19);
        holds(&make_on(code.clone(), s, 0), sig(s.args.max(1), s.outputs + 1), on);
        if s.args > 0 {
            let mut by = vec![STACK[STACK.len() - s.args]];
            by.extend(mixed(&args(s.args), 1, s.outputs));
            holds(&make_by(code.clone(), s, 0), sig(s.args, s.outputs + 1), by);
        }
        let boxed: Vec<u64> = args(s.args).iter().map(|x| x + 500_000).collect();
        holds(&make_content(code.clone(), s, 0), s, mixed(&boxed, 1, s.outputs));
        let mut both = mixed(
            &STACK[STACK.len() - 2 * s.args..STACK.len() - s.args],
            1,
            s.outputs,
        );
        both.extend(mixed(&args(s.args), 1, s.outputs));
        holds(&make_both(code, s, 0), sig(s.args * 2, s.outputs * 2), both);
    }
}

#[test]
fn two_function_modifiers_do_what_they_say() {
    for a in sigs() {
        for b in sigs() {
            let f = vec![mixer(a, 1)];
            let g = vec![mixer(b, 2)];
            let mut fork = mixed(&args(b.args), 2, b.outputs);
            fork.extend(mixed(&args(a.args), 1, a.outputs));
            let code = make_fork(f.clone(), a, g.clone(), b, 0);
            holds(&code, make_fork_sig(a, b), fork);
            let mut bracket = mixed(
                &STACK[STACK.len() - a.args - b.args..STACK.len() - a.args],
                2,
                b.outputs,
            );
            bracket.extend(mixed(&args(a.args), 1, a.outputs));
            let code = make_bracket(f.clone(), a, g.clone(), 0);
            holds(&code, sig(a.args + b.args, a.outputs + b.outputs), bracket);
            let count = a.args.saturating_sub(b.outputs);
            let kept = count.saturating_sub(b.outputs);
            if b.outputs <= a.args && count <= b.args && kept <= a.outputs {
                let mut given = mixed(&args(b.args), 2, b.outputs);
                given.extend(args(count));
                let code = make_cascade(f, a, g, b, 0);
                holds(&code, make_cascade_sig(a, b), mixed(&given, 1, a.outputs));
            }
        }
    }
}

#[test]
fn a_cascade_can_state_another_signature_than_it_has() {
    let (a, b) = (sig(3, 1), sig(0, 1));
    let code = make_cascade(vec![mixer(a, 1)], a, vec![mixer(b, 2)], b, 0);
    assert_eq!(make_cascade_sig(a, b), sig(2, 1));
    let (end, depth) = run(&code, &STACK);
    assert_eq!(depth, 2);
    assert_eq!(end.len(), STACK.len() + 1);
}

#[test]
fn on_is_what_the_suggestions_say() {
    let one = sig(1, 1);
    let f = vec![mixer(one, 1)];
    let mut dip = vec![Instr::Prim(Primitive::Dup, 0)];
    dip.extend(make_dip(f.clone(), 0));
    let on = make_on(f.clone(), one, 0);
    assert_eq!(run(&dip, &STACK), run(&on, &STACK));
    for s in sigs() {
        let f = vec![mixer(s, 1)];
        let identity = vec![Instr::PopSig];
        let fork = make_fork(identity, one, f.clone(), s, 0);
        assert_eq!(run(&fork, &STACK).0, run(&make_on(f, s, 0), &STACK).0);
    }
}

#[test]
fn a_redundant_cascade_is_a_sequence() {
    let (a, b) = (sig(1, 1), sig(1, 2));
    let code = make_cascade(vec![mixer(a, 1)], a, vec![mixer(b, 2)], b, 0);
    assert_eq!(code, vec![mixer(b, 2), mixer(a, 1)]);
}

#[test]
fn bind_takes_its_locals() {
    let s = sig(1, 2);
    let code = make_bind(vec![mixer(s, 1)], 3, 0);
    let top = mixed(&STACK[STACK.len() - 4..STACK.len() - 3], 1, 2);
    holds(&code, sig(4, 2), top);
    assert_eq!(code[0], Instr::PushLocals { count: 3, span: 0 });
    assert_eq!(code[2], Instr::PopLocals);
}

#[test]
fn under_is_the_same_when_called() {
    let part = |args, outputs, id| vec![mixer(sig(args, outputs), id)];
    let make = |call| {
        make_under(part(1, 2, 1), sig(1, 2), part(2, 1, 2), part(1, 1, 3), sig(1, 1), call)
    };
    let called = make(true);
    let uncalled = make(false);
    assert_eq!(called.len(), uncalled.len() + 4);
    assert_eq!(run(&called, &STACK), run(&uncalled, &STACK));
}

// Pattern matching

fn function(start: usize, len: usize) -> Function {
    Function {
        id: FunctionId::Named("f".to_string()),
        sig: sig(1, 1),
        slice: FuncSlice { start, len },
    }
}

#[test]
fn patterns_are_found_in_code_and_in_functions() {
    let mut assembly = Assembly::new();
    let pattern = Instr::ImplPrim(ImplPrimitive::MatchPattern, 0);
    assembly.instrs = vec![pattern.clone(), Instr::PopSig, Instr::PushFunc(function(0, 1))];
    assert!(instrs_have_pattern_matching(&[pattern], &assembly));
    assert!(instrs_have_pattern_matching(
        &[Instr::ImplPrim(ImplPrimitive::UnJoinPattern, 0)],
        &assembly
    ));
    assert!(instrs_have_pattern_matching(&[Instr::PushFunc(function(0, 1))], &assembly));
    assert!(instrs_have_pattern_matching(&[Instr::PushFunc(function(2, 1))], &assembly));
    assert!(!instrs_have_pattern_matching(&[Instr::PushFunc(function(1, 1))], &assembly));
    assert!(!instrs_have_pattern_matching(&[], &assembly));
    let parts = std::rc::Rc::new(vec!["a".to_string()]);
    assert!(instrs_have_pattern_matching(
        &[Instr::MatchFormatPattern { parts, span: 0 }],
        &assembly
    ));
}

#[test]
fn a_try_shields_its_function() {
    let mut assembly = Assembly::new();
    assembly.instrs = vec![Instr::ImplPrim(ImplPrimitive::MatchPattern, 0)];
    let push = Instr::PushFunc(function(0, 1));
    let shielded = [push.clone(), Instr::Prim(Primitive::Try, 0)];
    assert!(!instrs_have_pattern_matching(&shielded, &assembly));
    let shielded = [push.clone(), Instr::ImplPrim(ImplPrimitive::TryPattern, 0)];
    assert!(!instrs_have_pattern_matching(&shielded, &assembly));
    let exposed = [push.clone(), push, Instr::Prim(Primitive::Try, 0)];
    assert!(instrs_have_pattern_matching(&exposed, &assembly));
}

#[test]
fn more_code_changes_nothing_for_patterns() {
    let mut assembly = Assembly::new();
    assembly.instrs = vec![Instr::PopSig];
    let code = [Instr::PushFunc(function(0, 1))];
    assert!(!instrs_have_pattern_matching(&code, &assembly));
    assembly.instrs.push(Instr::ImplPrim(ImplPrimitive::MatchPattern, 0));
    assert!(!instrs_have_pattern_matching(&code, &assembly));
}

// Packs

fn modifier(prim: Primitive) -> Sp<Modifier> {
    place(0, 1).sp(Modifier::Primitive(prim))
}

#[test]
fn functions_of_a_pack_are_nested_to_the_right() {
    let branches: Vec<Sp<Func>> = (1..4).map(|i| func(i, vec![number(i, "1")])).collect();
    let words: Vec<Sp<Word>> =
        (1..4).map(|i| word(i, Word::Func(func(i, vec![number(i, "1")]).value))).collect();
    let mut words = words.into_iter();
    let first = words.next().unwrap();
    let inner = Modified { modifier: modifier(Primitive::Fork), operands: words.collect() };
    let second = place(8, 9).sp(Word::Modified(Box::new(inner)));
    let wanted = Modified { modifier: modifier(Primitive::Fork), operands: vec![first, second] };
    assert_eq!(nest_right(&modifier(Primitive::Fork), &branches, &place(8, 9)), wanted);
    assert_eq!(unpack(&modifier(Primitive::Fork), &branches, &place(8, 9)), Some(wanted));
}

#[test]
fn dips_of_a_pack_are_nested() {
    let branches = vec![func(1, vec![number(1, "1")]), func(2, vec![number(2, "2")])];
    let inner = Modified {
        modifier: modifier(Primitive::Dip),
        operands: vec![word(2, Word::Func(func(2, vec![number(2, "2")]).value))],
    };
    let outer = func(
        1,
        vec![number(1, "1"), place(8, 9).sp(Word::Modified(Box::new(inner)))],
    );
    let wanted = Modified {
        modifier: modifier(Primitive::Dip),
        operands: vec![word(1, Word::Func(outer.value))],
    };
    assert_eq!(nest_dip(&modifier(Primitive::Dip), &branches, &place(8, 9)), wanted);
}

#[test]
fn packs_of_one_and_two_functions_are_spread() {
    let branches = vec![func(1, vec![number(1, "1")])];
    let spread = spread_pack(&modifier(Primitive::Try), &branches);
    assert_eq!(spread.operands.len(), 1);
    assert_eq!(nest_right(&modifier(Primitive::Try), &branches, &place(8, 9)), spread);
    assert_eq!(nest_dip(&modifier(Primitive::Try), &branches, &place(8, 9)), spread);
    assert!(unpack(&modifier(Primitive::Under), &branches, &place(8, 9)).is_none());
    assert!(unpack(&modifier(Primitive::Rows), &branches, &place(8, 9)).is_none());
    let empty: Vec<Sp<Func>> = Vec::new();
    let none = unpack(&modifier(Primitive::Cascade), &empty, &place(8, 9)).unwrap();
    assert!(none.operands.is_empty());
}

#[test]
fn a_pack_is_the_only_code_operand() {
    let branches = || vec![func(1, vec![number(1, "1")])];
    let pack = |angled| word(5, Word::Switch(Switch { branches: branches(), angled }));
    let with = |operands| Modified { modifier: modifier(Primitive::Fork), operands };
    let found = with(vec![word(3, Word::Spaces), pack(false)]).pack();
    assert_eq!(found, Some((branches(), place(5, 6))));
    assert_eq!(with(vec![pack(true)]).pack(), None);
    assert_eq!(with(vec![pack(false), number(2, "1")]).pack(), None);
    assert_eq!(with(vec![number(2, "1")]).pack(), None);
}

// Placeholders

fn nested() -> Vec<Sp<Word>> {
    let inner = Modified {
        modifier: modifier(Primitive::Rows),
        operands: vec![placeholder(4, PlaceholderOp::Dup)],
    };
    vec![
        placeholder(1, PlaceholderOp::Call),
        word(2, Word::Strand(vec![number(2, "9"), placeholder(3, PlaceholderOp::Call)])),
        word(4, Word::Modified(Box::new(inner))),
        word(
            5,
            Word::Switch(Switch {
                branches: vec![func(5, vec![placeholder(6, PlaceholderOp::Call)])],
                angled: true,
            }),
        ),
    ]
}

#[test]
fn placeholders_are_collected_in_order() {
    let ops = collect_placeholder(&nested());
    let found: Vec<(PlaceholderOp, u32)> =
        ops.iter().map(|op| (op.value, op.span.start.char_pos)).collect();
    assert_eq!(
        found,
        vec![
            (PlaceholderOp::Call, 1),
            (PlaceholderOp::Call, 3),
            (PlaceholderOp::Dup, 4),
            (PlaceholderOp::Call, 6),
        ]
    );
}

#[test]
fn placeholders_are_replaced_in_order() {
    let mut words = nested();
    let with = vec![number(20, "a"), number(21, "b"), number(22, "c")];
    replace_placeholders(&mut words, &with);
    let inner = Modified { modifier: modifier(Primitive::Rows), operands: Vec::new() };
    assert_eq!(
        words,
        vec![
            number(20, "a"),
            word(2, Word::Strand(vec![number(2, "9"), number(21, "b")])),
            word(4, Word::Modified(Box::new(inner))),
            word(
                5,
                Word::Switch(Switch {
                    branches: vec![func(5, vec![number(22, "c")])],
                    angled: true,
                }),
            ),
        ]
    );
    assert!(collect_placeholder(&words).is_empty());
    replace_placeholders(&mut words, &with);
    assert_eq!(words.len(), 4);
    assert_eq!(words[0], number(20, "a"));
}

#[test]
fn calls_take_the_operands_in_order() {
    let ops = vec![
        place(1, 2).sp(PlaceholderOp::Call),
        place(2, 3).sp(PlaceholderOp::Call),
    ];
    let (left, taken) =
        run_placeholders(&ops, vec![number(6, "1"), number(7, "2")]).unwrap();
    assert!(left.is_empty());
    assert_eq!(taken, vec![number(7, "2"), number(6, "1")]);
}

#[test]
fn over_copies_the_second_operand() {
    let ops = vec![place(2, 3).sp(PlaceholderOp::Over)];
    let (left, taken) =
        run_placeholders(&ops, vec![number(6, "1"), number(7, "2")]).unwrap();
    assert_eq!(left, vec![number(6, "1"), number(7, "2"), number(6, "1")]);
    assert!(taken.is_empty());
    assert_eq!(run_placeholders(&ops, vec![number(6, "1")]), Err(place(2, 3)));
    let dup = vec![place(4, 5).sp(PlaceholderOp::Dup)];
    assert_eq!(run_placeholders(&dup, Vec::new()), Err(place(4, 5)));
}

#[test]
fn references_are_marked_at_any_depth() {
    let reference = |marked| {
        word(
            2,
            Word::Ref(Ref {
                path: Vec::new(),
                name: place(2, 3).sp("x".to_string()),
                in_macro_arg: marked,
                args: 0,
            }),
        )
    };
    let mut words =
        vec![reference(false), word(1, Word::Func(func(1, vec![reference(false)]).value))];
    set_in_macro_arg(&mut words);
    assert_eq!(
        words,
        vec![reference(true), word(1, Word::Func(func(1, vec![reference(true)]).value))]
    );
}

#[test]
fn only_code_is_kept_and_functions_are_shown_open() {
    let words = vec![
        word(1, Word::Spaces),
        number(2, "1"),
        word(3, Word::Comment("c".to_string())),
        word(4, Word::BreakLine),
        word(5, Word::Func(func(5, vec![number(6, "2")]).value)),
    ];
    let code = only_code(&words);
    assert_eq!(code.len(), 2);
    assert_eq!(words_to_show(&code), vec![number(2, "1"), number(6, "2")]);
}

// Locals

#[test]
fn locals_are_counted_to_the_highest() {
    assert_eq!(local_count(&BTreeSet::new()), 0);
    assert_eq!(local_count(&BTreeSet::from([0])), 1);
    assert_eq!(local_count(&BTreeSet::from([4, 1, 2])), 5);
}

// Texts

#[test]
fn operands_are_trimmed() {
    assert_eq!(operand_text("( a b )", true), "a b");
    assert_eq!(operand_text("( a b )", false), "( a b )");
    assert_eq!(operand_text("  x\t\n", false), "x");
    assert_eq!(operand_text("()", true), "");
    assert_eq!(operand_text("(", true), "(");
    assert_eq!(operand_text("\u{3000}é\u{a0}", true), "é");
    let once = operand_text("  ( x )  ", false);
    assert_eq!(operand_text(&once, false), once);
}

#[test]
fn white_space_is_trimmed_and_nothing_else() {
    for c in '\0'..=char::MAX {
        let n = c as u32;
        let white = matches!(
            n,
            0x9..=0xd
                | 0x20
                | 0x85
                | 0xa0
                | 0x1680
                | 0x2000..=0x200a
                | 0x2028
                | 0x2029
                | 0x202f
                | 0x205f
                | 0x3000
        );
        assert_eq!(operand_text(&c.to_string(), false).is_empty(), white);
    }
}

#[test]
fn rows_are_parted_by_a_space() {
    let mut code = String::new();
    add_row(&mut code, "a");
    assert_eq!(code, "a");
    add_row(&mut code, "b\n");
    assert_eq!(code, "a b\n");
    add_row(&mut code, "c");
    assert_eq!(code, "a b\nc");
}

#[test]
fn texts_and_characters() {
    assert_eq!(text_chars("aé"), vec!['a', 'é']);
    assert_eq!(text_of(&vec!['é', 'b']), "éb");
    assert_eq!(decimal_text(0), "0");
    assert_eq!(decimal_text(1090), "1090");
}

// Values

#[test]
fn values_have_shapes() {
    assert_eq!(Value::text("ab").rank(), 1);
    assert_eq!(Value::count(3).rank(), 0);
    assert_eq!(Value::count(3).kind_name(), "number");
    assert_eq!(Value::text("ab").kind_name(), "character");
    match Value::count(3) {
        Value::Num(array) => assert_eq!(*array.data, vec![Number::Whole(3)]),
        _ => panic!(),
    }
    match Value::boxed_texts(&vec!["a".to_string(), "b".to_string()]) {
        Value::Boxes(array) => {
            assert_eq!(*array.shape, vec![2]);
            assert_eq!(array.data[1], Boxed(Value::text("b")));
        }
        _ => panic!(),
    }
    let mut data = ecow::EcoVec::new();
    data.push(1u8);
    data.push(2u8);
    let pairs = Value::byte_pairs(1, data);
    assert_eq!(pairs.clone(), pairs);
    assert_eq!(pairs.kind_name(), "number");
    assert_eq!(pairs.rank(), 2);
}

// Tables and spans

#[test]
fn a_table_keeps_the_last_entry() {
    let mut table: Table<CodeSpan, Expansion> = Table::new();
    let entry = |text: &str| Expansion { name: "m".to_string(), text: text.to_string() };
    table.insert(place(0, 1), entry("a"));
    table.insert(place(0, 2), entry("b"));
    table.insert(place(0, 1), entry("c"));
    assert_eq!(table.get(&place(0, 1)).unwrap().text, "c");
    assert_eq!(table.get(&place(0, 2)).unwrap().text, "b");
    assert!(table.get(&place(1, 2)).is_none());
    assert_eq!(table.copied().get(&place(0, 2)).unwrap().text, "b");
}

#[test]
fn spans_are_merged() {
    assert_eq!(place(2, 3).merge(place(5, 9)), place(2, 9));
    assert_eq!(place(5, 9).merge(place(2, 3)), place(2, 9));
    let inside = CodeSpan {
        src: InputSrc::Macro(Box::new(place(7, 8))),
        start: loc(1),
        end: loc(2),
    };
    assert_eq!(inside.clone().merge(place(0, 0)).src, inside.src);
    assert!(inside.same(&inside.clone()));
    assert!(!inside.same(&place(1, 2)));
}

// Messages

#[test]
fn messages_have_texts() {
    let s = |text: &str| text.to_string();
    let cases = vec![
        (
            Message::PackSize { modifier: s("under"), required: 2, given: 3 },
            "under requires 2 function arguments, but the function pack has 3 functions",
        ),
        (
            Message::PackUnsupported { modifier: s("rows") },
            "rows cannot use a function pack. If you meant to use a switch function, add a layer of parentheses.",
        ),
        (
            Message::OperandCount { modifier: s("fork"), required: 2, given: 1 },
            "fork requires 2 function arguments, but 1 was provided",
        ),
        (Message::MacroTooDeep, "Macro recurs too deep"),
        (
            Message::MacroNotFound { name: s("m!") },
            "Macro m! not found. This is a bug in the interpreter.",
        ),
        (Message::PreferOnOverDip, "Prefer `⟜(…)` over `⊙(…).` for clarity"),
        (Message::PreferOnOverFork, "Prefer `⟜` over `⊃∘` for clarity"),
        (
            Message::CascadeRedundant { prim: s("cascade") },
            "cascade's second function has more outputs than its first function has arguments, so cascade is redundant here.",
        ),
        (Message::NoInverse, "No inverse found"),
        (
            Message::BindFew { prim: s("bind"), count: 2 },
            "bind should be reserved for functions with at least 3 arguments, but this function has 2 arguments",
        ),
        (
            Message::EachOfPervasive { prim: s("add"), each: s("each") },
            "add is pervasive, so each is redundant here.",
        ),
        (
            Message::EachPervasive { each: s("each") },
            "each's function is pervasive, so each is redundant here.",
        ),
        (Message::TableNoArguments { table: s("table") }, "table of 0 arguments is redundant"),
        (
            Message::TableOneArgument { table: s("table"), rows: s("rows") },
            "table with 1 argument is just rows. Use rows instead.",
        ),
        (
            Message::QuoteRank { rank: 2 },
            "quote's argument compiled to a rank 2 array rather than a string",
        ),
        (
            Message::QuoteKind { kind: s("number") },
            "quote's argument compiled to a number array rather than a string",
        ),
        (Message::QuoteNotString, "quote's argument did not compile to a string"),
        (Message::OperandStackEmpty, "Operand stack is empty"),
        (Message::OperandsLeft { count: 1 }, "Macro operand stack has 1 item left"),
        (Message::OperandsLeft { count: 12 }, "Macro operand stack has 12 items left"),
        (Message::TestScope, "Macros may not generate test scopes"),
        (
            Message::ComptimeArguments { prim: s("comptime"), args: 10 },
            "comptime's function must have no arguments, but it has 10",
        ),
        (
            Message::ComptimeFailed { error: s("oops") },
            "Compile-time evaluation failed: oops",
        ),
        (Message::Other { text: s("hello") }, "hello"),
    ];
    for (message, text) in cases {
        assert_eq!(message.text(), text);
        assert_eq!(message.clone(), message);
    }
}

#[test]
fn errors_are_attributed_to_macros() {
    let error = UiuaError::Parse {
        errors: std::rc::Rc::new(Vec::new()),
        inputs: std::rc::Rc::new(Inputs { strings: Vec::new() }),
    };
    let traced = error.clone().trace_macro(place(3, 4));
    assert_eq!(traced, UiuaError::Traced { error: Box::new(error), span: place(3, 4) });
}
