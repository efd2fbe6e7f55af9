//! Texts: numbers, blanks, and what macros are given and give back.
use vstd::prelude::*;
use vstd::string::*;

verus! {

/// A decimal digit.
pub open spec fn digit(d: nat) -> Seq<char> {
    if d == 0 {
        "0"@
    } else if d == 1 {
        "1"@
    } else if d == 2 {
        "2"@
    } else if d == 3 {
        "3"@
    } else if d == 4 {
        "4"@
    } else if d == 5 {
        "5"@
    } else if d == 6 {
        "6"@
    } else if d == 7 {
        "7"@
    } else if d == 8 {
        "8"@
    } else {
        "9"@
    }
}

/// A number in decimal notation.
pub open spec fn decimal(n: nat) -> Seq<char>
    decreases n,
{
    if n < 10 {
        digit(n)
    } else {
        decimal(n / 10) + digit(n % 10)
    }
}

fn digit_text(d: usize) -> (res: &'static str)
    requires
        d < 10,
    ensures
        res@ == digit(d as nat),
{
    if d == 0 {
        "0"
    } else if d == 1 {
        "1"
    } else if d == 2 {
        "2"
    } else if d == 3 {
        "3"
    } else if d == 4 {
        "4"
    } else if d == 5 {
        "5"
    } else if d == 6 {
        "6"
    } else if d == 7 {
        "7"
    } else if d == 8 {
        "8"
    } else {
        "9"
    }
}

/// A number in decimal notation.
pub fn decimal_text(n: usize) -> (res: String)
    ensures
        res@ == decimal(n as nat),
    decreases n,
{
    if n < 10 {
        digit_text(n).to_owned()
    } else {
        let mut s: String = decimal_text(n / 10);
        s.append(digit_text(n % 10));
        s
    }
}

/// Whether a character is white space: whether it has the Unicode property `White_Space`.
pub open spec fn is_whitespace(c: char) -> bool {
    let n = c as u32;
    ||| 0x9 <= n <= 0xd
    ||| n == 0x20
    ||| n == 0x85
    ||| n == 0xa0
    ||| n == 0x1680
    ||| 0x2000 <= n <= 0x200a
    ||| n == 0x2028
    ||| n == 0x2029
    ||| n == 0x202f
    ||| n == 0x205f
    ||| n == 0x3000
}

/// `char::is_whitespace`: whether the character has the Unicode property `White_Space`.
#[verifier::external_body]
pub(crate) fn char_is_whitespace(c: char) -> (res: bool)
    ensures
        res == is_whitespace(c),
{
    c.is_whitespace()
}

/// `String::push`: the character comes after the others.
pub assume_specification[ String::push ](text: &mut String, c: char)
    ensures
        final(text)@ == old(text)@.push(c),
;

/// The text with the given characters.
pub fn text_of(chars: &Vec<char>) -> (res: String)
    ensures
        res@ == chars@,
{
    let mut res = String::new();
    for i in 0..chars.len()
        invariant
            res@ == chars@.take(i as int),
    {
        res.push(chars[i]);
        assert(res@ =~= chars@.take(i + 1));
    }
    assert(chars@.take(chars@.len() as int) =~= chars@);
    res
}

/// The characters of a text.
pub fn text_chars(text: &str) -> (res: Vec<char>)
    ensures
        res@ == text@,
{
    let mut res: Vec<char> = Vec::new();
    for c in it: text.chars()
        invariant
            it.seq() == text@,
            res@ == text@.take(it.index() as int),
    {
        assert(text@.take(it.index() + 1) =~= text@.take(it.index() as int).push(
            text@[it.index() as int],
        ));
        res.push(c);
    }
    assert(res@ =~= text@);
    res
}

/// A text without the white space at its start.
pub open spec fn trimmed_start(s: Seq<char>) -> Seq<char>
    decreases s.len(),
{
    if s.len() > 0 && is_whitespace(s[0]) {
        trimmed_start(s.drop_first())
    } else {
        s
    }
}

/// A text without the white space at its end.
pub open spec fn trimmed_end(s: Seq<char>) -> Seq<char>
    decreases s.len(),
{
    if s.len() > 0 && is_whitespace(s.last()) {
        trimmed_end(s.drop_last())
    } else {
        s
    }
}

/// A text without the white space at its start and at its end.
pub open spec fn trimmed(s: Seq<char>) -> Seq<char> {
    trimmed_end(trimmed_start(s))
}

/// The text of an operand without the parentheses around a function.
pub open spec fn without_parens(s: Seq<char>, is_func: bool) -> Seq<char> {
    if is_func && s.len() > 0 && s[0] == '(' && s.last() == ')' {
        s.subrange(1, s.len() - 1)
    } else {
        s
    }
}

/// How an operand is given to a macro: without the parentheses around a function, and without
/// white space at either end.
pub open spec fn operand_chars(s: Seq<char>, is_func: bool) -> Seq<char> {
    trimmed(without_parens(s, is_func))
}

/// How an operand is given to a macro: without the parentheses around a function, and without
/// white space at either end.
pub fn operand_text(formatted: &str, is_func: bool) -> (res: String)
    ensures
        res@ == operand_chars(formatted@, is_func),
{
    let chars: Vec<char> = text_chars(formatted);
    let mut from: usize = 0;
    let mut to: usize = chars.len();
    if is_func && to > 0 && chars[0] == '(' && chars[to - 1] == ')' {
        assert(to >= 2);
        from = 1;
        to = to - 1;
    }
    let ghost inner = chars@.subrange(from as int, to as int);
    assert(inner =~= without_parens(formatted@, is_func));
    while from < to && char_is_whitespace(chars[from])
        invariant
            from <= to <= chars@.len(),
            trimmed_start(chars@.subrange(from as int, to as int)) == trimmed_start(inner),
        decreases to - from,
    {
        assert(chars@.subrange(from as int, to as int).drop_first() =~= chars@.subrange(
            from + 1,
            to as int,
        ));
        from = from + 1;
    }
    assert(trimmed_start(inner) == chars@.subrange(from as int, to as int));
    while from < to && char_is_whitespace(chars[to - 1])
        invariant
            from <= to <= chars@.len(),
            trimmed_end(chars@.subrange(from as int, to as int)) == trimmed(inner),
        decreases to - from,
    {
        assert(chars@.subrange(from as int, to as int).drop_last() =~= chars@.subrange(
            from as int,
            to - 1,
        ));
        to = to - 1;
    }
    formatted.substring_char(from, to).to_owned()
}

/// Some code with one more row of a macro's output at its end, parted by a space where the code
/// before does not end in white space.
pub open spec fn row_added(code: Seq<char>, row: Seq<char>) -> Seq<char> {
    if code.len() > 0 && !is_whitespace(code.last()) {
        code + " "@ + row
    } else {
        code + row
    }
}

/// The rows of a macro's output as one text.
pub open spec fn rows_joined(rows: Seq<Seq<char>>) -> Seq<char>
    decreases rows.len(),
{
    if rows.len() == 0 {
        Seq::empty()
    } else {
        row_added(rows_joined(rows.drop_last()), rows.last())
    }
}

/// Adds one more row of a macro's output to the code so far.
pub fn add_row(code: &mut String, row: &str)
    ensures
        final(code)@ == row_added(old(code)@, row@),
{
    let n: usize = code.as_str().unicode_len();
    if n > 0 && !char_is_whitespace(code.as_str().get_char(n - 1)) {
        code.append(" ");
    }
    code.append(row);
}

/// A text that has been trimmed stays as it is when it is trimmed again.
pub proof fn law_trimming_is_final(s: Seq<char>)
    ensures
        trimmed(trimmed(s)) == trimmed(s),
{
    lemma_trimmed_start(s);
    lemma_trimmed_end(trimmed_start(s));
    lemma_start_kept(trimmed_start(s));
}

proof fn lemma_trimmed_start(s: Seq<char>)
    ensures
        trimmed_start(s).len() > 0 ==> !is_whitespace(trimmed_start(s)[0]),
    decreases s.len(),
{
    if s.len() > 0 && is_whitespace(s[0]) {
        lemma_trimmed_start(s.drop_first());
    }
}

proof fn lemma_trimmed_end(s: Seq<char>)
    ensures
        trimmed_end(s).len() > 0 ==> !is_whitespace(trimmed_end(s).last()),
    decreases s.len(),
{
    if s.len() > 0 && is_whitespace(s.last()) {
        lemma_trimmed_end(s.drop_last());
    }
}

proof fn lemma_start_kept(s: Seq<char>)
    ensures
        trimmed_end(s).len() > 0 ==> trimmed_end(s)[0] == s[0],
    decreases s.len(),
{
    if s.len() > 0 && is_whitespace(s.last()) {
        lemma_start_kept(s.drop_last());
    }
}

/// The number that a row of decimal digits stands for.
pub open spec fn number_read(digits: Seq<char>) -> nat
    decreases digits.len(),
{
    if digits.len() == 0 {
        0
    } else {
        number_read(digits.drop_last()) * 10 + (digits.last() as u32 - '0' as u32) as nat
    }
}

/// A decimal digit is one character, the one for its value.
proof fn lemma_digit(d: nat)
    requires
        d < 10,
    ensures
        digit(d).len() == 1,
        digit(d)[0] as u32 == '0' as u32 + d,
{
    reveal_strlit("0");
    reveal_strlit("1");
    reveal_strlit("2");
    reveal_strlit("3");
    reveal_strlit("4");
    reveal_strlit("5");
    reveal_strlit("6");
    reveal_strlit("7");
    reveal_strlit("8");
    reveal_strlit("9");
}

/// A number in decimal notation is made of decimal digits, does not start with a zero unless it is
/// zero, and stands for the number when it is read.
pub proof fn law_decimal_reads_back(n: nat)
    ensures
        number_read(decimal(n)) == n,
        decimal(n).len() > 0,
        n > 0 ==> decimal(n)[0] != '0',
        forall|i: int|
            0 <= i < decimal(n).len() ==> '0' as u32 <= (#[trigger] decimal(n)[i]) as u32
                <= '9' as u32,
    decreases n,
{
    let digits = decimal(n);
    lemma_digit(n % 10);
    let last = digit(n % 10);
    if n < 10 {
        assert(digits.drop_last() =~= Seq::empty());
        assert(number_read(digits.drop_last()) == 0);
    } else {
        law_decimal_reads_back(n / 10);
        assert(digits.drop_last() =~= decimal(n / 10));
        assert(digits.last() == last[0]);
        assert forall|i: int| 0 <= i < digits.len() implies '0' as u32 <= (
        #[trigger] digits[i]) as u32 <= '9' as u32 by {
            if i < decimal(n / 10).len() {
                assert(digits[i] == decimal(n / 10)[i]);
            }
        }
    }
}

/// The text of an operand is a stretch of what it is written as. Where it is a function with
/// parentheses around it, it lies between them. Everything beside it there is white space, and it
/// neither starts nor ends in white space.
pub proof fn law_operand_text_is_inside(s: Seq<char>, is_func: bool) -> (range: (int, int))
    ensures
        ({
            let text = operand_chars(s, is_func);
            let parens = is_func && s.len() > 0 && s[0] == '(' && s.last() == ')';
            let first = if parens {
                1int
            } else {
                0int
            };
            &&& first <= range.0 <= range.1 <= s.len() - first
            &&& text == s.subrange(range.0, range.1)
            &&& forall|i: int| first <= i < range.0 ==> is_whitespace(#[trigger] s[i])
            &&& forall|i: int|
                range.1 <= i < s.len() - first ==> is_whitespace(#[trigger] s[i])
            &&& text.len() > 0 ==> !is_whitespace(text[0]) && !is_whitespace(text.last())
        }),
{
    let parens = is_func && s.len() > 0 && s[0] == '(' && s.last() == ')';
    let first = if parens {
        1int
    } else {
        0int
    };
    let inner = without_parens(s, is_func);
    if parens {
        assert(s.len() >= 2) by {
            if s.len() == 1 {
                assert(s[0] == s.last());
            }
        }
    }
    assert(inner =~= s.subrange(first, s.len() - first));
    let a = lemma_start_cut(inner);
    let rest = trimmed_start(inner);
    let b = lemma_end_cut(rest);
    let from = first + a;
    let to = from + b;
    assert(operand_chars(s, is_func) =~= s.subrange(from, to));
    assert forall|i: int| first <= i < from implies is_whitespace(#[trigger] s[i]) by {
        assert(inner[i - first] == s[i]);
    }
    assert forall|i: int| to <= i < s.len() - first implies is_whitespace(#[trigger] s[i]) by {
        assert(rest[i - from] == s[i]);
    }
    lemma_trimmed_start(inner);
    lemma_trimmed_end(rest);
    lemma_start_kept(rest);
    (from, to)
}

/// How much white space is cut from the start of a text.
proof fn lemma_start_cut(s: Seq<char>) -> (n: int)
    ensures
        0 <= n <= s.len(),
        trimmed_start(s) == s.skip(n),
        forall|i: int| 0 <= i < n ==> is_whitespace(#[trigger] s[i]),
    decreases s.len(),
{
    if s.len() > 0 && is_whitespace(s[0]) {
        let rest = s.drop_first();
        let n = lemma_start_cut(rest);
        assert(rest.skip(n) =~= s.skip(n + 1));
        assert forall|i: int| 0 <= i < n + 1 implies is_whitespace(#[trigger] s[i]) by {
            if i > 0 {
                assert(rest[i - 1] == s[i]);
            }
        }
        n + 1
    } else {
        assert(s.skip(0) =~= s);
        0
    }
}

/// How much is left when white space is cut from the end of a text.
proof fn lemma_end_cut(s: Seq<char>) -> (n: int)
    ensures
        0 <= n <= s.len(),
        trimmed_end(s) == s.take(n),
        forall|i: int| n <= i < s.len() ==> is_whitespace(#[trigger] s[i]),
    decreases s.len(),
{
    if s.len() > 0 && is_whitespace(s.last()) {
        let rest = s.drop_last();
        let n = lemma_end_cut(rest);
        assert(rest.take(n) =~= s.take(n));
        assert forall|i: int| n <= i < s.len() implies is_whitespace(#[trigger] s[i]) by {
            if i < rest.len() {
                assert(rest[i] == s[i]);
            }
        }
        n
    } else {
        assert(s.take(s.len() as int) =~= s);
        s.len() as int
    }
}

/// The rows of a macro's output are in the joined text one after the other. Before a row is a
/// single space where there is text before it that does not end in white space, and nothing else.
pub proof fn law_rows_are_parted(rows: Seq<Seq<char>>, row: Seq<char>)
    ensures
        ({
            let before = rows_joined(rows);
            let joined = rows_joined(rows.push(row));
            if before.len() == 0 || is_whitespace(before[before.len() - 1]) {
                joined == before + row
            } else {
                joined == before.push(' ') + row
            }
        }),
        rows_joined(Seq::empty()).len() == 0,
{
    reveal_strlit(" ");
    let before = rows_joined(rows);
    assert(rows.push(row).drop_last() =~= rows);
    assert(before + " "@ + row =~= before.push(' ') + row);
}

} // verus!
