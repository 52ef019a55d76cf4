//! Decoding one line of folded stack text, `frame1; frame2; ...; frameN cycles`,
//! into a frame: the call stack from root to leaf and the cycle count.

use vstd::prelude::*;
use crate::seqs::{
    last_position, lemma_last_position, lemma_position, lemma_position_at, position,
};
use crate::symbol::{symbol_views, Symbol, SymbolView};
use crate::text::{chars_of, string_of};

verus! {

/// Why a line is no frame.
#[derive(Debug, Clone, Copy, PartialEq, Eq, Structural)]
pub enum ParseError {
    /// The line holds no space, so nothing separates a cycle count from the stack.
    NoCycles,
    /// What follows the last space is not an unsigned 64-bit decimal number.
    InvalidCycle,
}

impl ParseError {
    /// The text that reports the error.
    pub fn message(&self) -> (text: String)
        ensures
            text@ == match *self {
                ParseError::NoCycles => "no cycles available"@,
                ParseError::InvalidCycle => "invalid cycle"@,
            },
    {
        match self {
            ParseError::NoCycles => "no cycles available".to_owned(),
            ParseError::InvalidCycle => "invalid cycle".to_owned(),
        }
    }
}

/// What a frame is to the contracts.
pub struct FrameView {
    pub stack: Seq<SymbolView>,
    pub cycles: u64,
}

/// One decoded line: the call stack, root first, and the cycles spent in it.
#[derive(Debug, Clone, PartialEq, Eq)]
pub struct Frame {
    pub stack: Vec<Symbol>,
    pub cycles: u64,
}

impl View for Frame {
    type V = FrameView;

    open spec fn view(&self) -> FrameView {
        FrameView { stack: symbol_views(self.stack@), cycles: self.cycles }
    }
}

/// The frames of a vector as the contracts see them.
pub open spec fn frame_views(frames: Seq<Frame>) -> Seq<FrameView> {
    frames.map_values(|f: Frame| f@)
}

/// A character of a name as it is stored: the angle brackets become braces,
/// every other character stays.
pub open spec fn normalize_char(c: char) -> char {
    if c == '<' {
        '{'
    } else if c == '>' {
        '}'
    } else {
        c
    }
}

/// A name as it is stored: `normalize_char` at every index.
pub open spec fn normalized(name: Seq<char>) -> Seq<char> {
    Seq::new(name.len(), |i: int| normalize_char(name[i]))
}

/// The stored form of the characters of `chars` from `from` up to `to`.
fn normalized_string_of(chars: &Vec<char>, from: usize, to: usize) -> (s: String)
    requires
        from <= to <= chars.len(),
    ensures
        s@ == normalized(chars@.subrange(from as int, to as int)),
{
    let mut s = String::new();
    let mut i: usize = from;
    while i < to
        invariant
            from <= i <= to <= chars.len(),
            s@ == normalized(chars@.subrange(from as int, i as int)),
        decreases to - i,
    {
        let c = chars[i];
        let stored = if c == '<' {
            '{'
        } else if c == '>' {
            '}'
        } else {
            c
        };
        s.push(stored);
        i += 1;
        assert(normalized(chars@.subrange(from as int, i as int)) =~= normalized(
            chars@.subrange(from as int, i - 1),
        ).push(stored));
    }
    s
}

/// Replaces every `<` of a function name by `{` and every `>` by `}`, and
/// changes nothing else.
pub fn normalize_function_name(name: &str) -> (stored: String)
    ensures
        stored@ == normalized(name@),
        stored@.len() == name@.len(),
        forall|i: int| 0 <= i < name@.len() ==> stored@[i] == normalize_char(name@[i]),
{
    let chars = chars_of(name);
    let stored = normalized_string_of(&chars, 0, chars.len());
    assert(chars@.subrange(0, chars.len() as int) =~= name@);
    stored
}

/// The symbol that a frame token names: `file:name` where the token holds a
/// colon, split at the first one, else a name without a file. The name is
/// stored normalized, the file as it stands.
pub open spec fn symbol_of_token(token: Seq<char>) -> SymbolView {
    let colon = position(token, ':');
    if colon < token.len() {
        SymbolView {
            name: Some(normalized(token.skip(colon + 1))),
            file: Some(token.take(colon)),
        }
    } else {
        SymbolView { name: Some(normalized(token)), file: None }
    }
}

/// The symbol named by the characters of `chars` from `from` up to `to`.
fn symbol_in(chars: &Vec<char>, from: usize, to: usize) -> (symbol: Symbol)
    requires
        from <= to <= chars.len(),
    ensures
        symbol@ == symbol_of_token(chars@.subrange(from as int, to as int)),
{
    let ghost token = chars@.subrange(from as int, to as int);
    let mut i: usize = from;
    while i < to && chars[i] != ':'
        invariant
            from <= i <= to <= chars.len(),
            token == chars@.subrange(from as int, to as int),
            forall|j: int| 0 <= j < i - from ==> token[j] != ':',
        decreases to - i,
    {
        i += 1;
    }
    proof {
        lemma_position(token, ':');
        if i < to {
            lemma_position_at(token, ':', i - from);
        }
    }
    if i < to {
        let file = string_of(chars, from, i);
        let name = normalized_string_of(chars, i + 1, to);
        assert(token.take(i - from) =~= chars@.subrange(from as int, i as int));
        assert(token.skip(i - from + 1) =~= chars@.subrange(i + 1, to as int));
        Symbol { name: Some(name), file: Some(file) }
    } else {
        let name = normalized_string_of(chars, from, to);
        Symbol { name: Some(name), file: None }
    }
}

/// Reads one frame token, `name` or `file:name`.
pub fn parse_symbol(token: &str) -> (symbol: Symbol)
    ensures
        symbol@ == symbol_of_token(token@),
{
    let chars = chars_of(token);
    assert(chars@.subrange(0, chars.len() as int) =~= token@);
    symbol_in(&chars, 0, chars.len())
}

/// Whether the two characters `; ` that part one frame token from the next
/// stand at index `i`.
pub open spec fn separator_at(s: Seq<char>, i: int) -> bool {
    0 <= i && i + 1 < s.len() && s[i] == ';' && s[i + 1] == ' '
}

/// The least index from `from` on at which a separator stands, or the length
/// of `s` where none does.
pub open spec fn next_separator(s: Seq<char>, from: int) -> int
    decreases s.len() - from,
{
    if from + 1 >= s.len() {
        s.len() as int
    } else if separator_at(s, from) {
        from
    } else {
        next_separator(s, from + 1)
    }
}

/// The frame tokens of `s` from index `from` on: what stands between one
/// separator and the next, read from the left, an empty token included.
pub open spec fn tokens_from(s: Seq<char>, from: int) -> Seq<Seq<char>>
    decreases s.len() - from,
{
    let sep = next_separator(s, from);
    if from <= sep && sep + 1 < s.len() {
        seq![s.subrange(from, sep)] + tokens_from(s, sep + 2)
    } else {
        seq![s.subrange(from, s.len() as int)]
    }
}

/// The call stack that a stack description names, root first: its tokens
/// read as symbols, in the reverse of the order in which they are written.
pub open spec fn stack_of(description: Seq<char>) -> Seq<SymbolView> {
    tokens_from(description, 0).map_values(|t: Seq<char>| symbol_of_token(t)).reverse()
}

/// Whether `c` is one of the ten decimal digits.
pub open spec fn is_digit(c: char) -> bool {
    '0' <= c && c <= '9'
}

/// The number that a decimal digit stands for.
pub open spec fn digit_value(c: char) -> nat {
    (c as int - '0' as int) as nat
}

/// The number that a sequence of decimal digits writes.
pub open spec fn decimal_value(digits: Seq<char>) -> nat
    decreases digits.len(),
{
    if digits.len() == 0 {
        0
    } else {
        decimal_value(digits.drop_last()) * 10 + digit_value(digits.last())
    }
}

/// What is left of `text` without the `+` that may lead it.
pub open spec fn unsigned_part(text: Seq<char>) -> Seq<char> {
    if text.len() > 0 && text[0] == '+' {
        text.drop_first()
    } else {
        text
    }
}

/// The cycle count that `text` writes: an optional `+`, then one decimal
/// digit or more and nothing else, of a value that 64 bits hold.
pub open spec fn cycles_of(text: Seq<char>) -> Option<u64> {
    let digits = unsigned_part(text);
    if digits.len() > 0 && (forall|i: int| 0 <= i < digits.len() ==> is_digit(#[trigger] digits[i]))
        && decimal_value(digits) <= u64::MAX {
        Some(decimal_value(digits) as u64)
    } else {
        None
    }
}

/// The frame that a line writes, or why it writes none. The last space parts
/// the stack description from the cycle count.
pub open spec fn decode_line(line: Seq<char>) -> Result<FrameView, ParseError> {
    let space = last_position(line, ' ');
    if space < 0 {
        Err(ParseError::NoCycles)
    } else {
        match cycles_of(line.skip(space + 1)) {
            None => Err(ParseError::InvalidCycle),
            Some(cycles) => Ok(FrameView { stack: stack_of(line.take(space)), cycles }),
        }
    }
}

/// A separator is never found before the index from which it is sought.
pub proof fn lemma_next_separator(s: Seq<char>, from: int)
    requires
        0 <= from <= s.len(),
    ensures
        from <= next_separator(s, from) <= s.len(),
        next_separator(s, from) < s.len() ==> separator_at(s, next_separator(s, from)),
        forall|j: int| from <= j < next_separator(s, from) ==> !separator_at(s, j),
    decreases s.len() - from,
{
    if from + 1 >= s.len() {
    } else if separator_at(s, from) {
    } else {
        lemma_next_separator(s, from + 1);
    }
}

/// A prefix of a sequence of digits writes no greater number than the whole.
proof fn lemma_decimal_value_prefix(digits: Seq<char>, k: int)
    requires
        0 <= k <= digits.len(),
    ensures
        decimal_value(digits.take(k)) <= decimal_value(digits),
    decreases digits.len() - k,
{
    if k < digits.len() {
        lemma_decimal_value_prefix(digits, k + 1);
        assert(digits.take(k + 1).drop_last() =~= digits.take(k));
    } else {
        assert(digits.take(k) =~= digits);
    }
}

/// The cycle count written by the characters of `chars` from `from` up to `to`.
fn cycles_in(chars: &Vec<char>, from: usize, to: usize) -> (cycles: Option<u64>)
    requires
        from <= to <= chars.len(),
    ensures
        cycles == cycles_of(chars@.subrange(from as int, to as int)),
{
    let ghost text = chars@.subrange(from as int, to as int);
    let start: usize = if from < to && chars[from] == '+' {
        from + 1
    } else {
        from
    };
    let ghost digits = chars@.subrange(start as int, to as int);
    assert(digits =~= unsigned_part(text));
    if start == to {
        return None;
    }
    let mut value: u64 = 0;
    let mut i: usize = start;
    while i < to
        invariant
            start <= i <= to <= chars.len(),
            digits == chars@.subrange(start as int, to as int),
            digits == unsigned_part(text),
            from <= start,
            text == chars@.subrange(from as int, to as int),
            forall|j: int| 0 <= j < i - start ==> is_digit(#[trigger] digits[j]),
            value == decimal_value(digits.take(i - start)),
        decreases to - i,
    {
        let c = chars[i];
        assert(c == digits[i - start]);
        if c < '0' || c > '9' {
            assert(!is_digit(digits[i - start]));
            return None;
        }
        let d: u64 = c as u64 - '0' as u64;
        proof {
            assert(digits.take(i - start + 1).drop_last() =~= digits.take(i - start));
            assert(digits.take(i - start + 1).last() == c);
            assert(d == digit_value(c));
            lemma_decimal_value_prefix(digits, i - start + 1);
        }
        if value > (u64::MAX - d) / 10 {
            return None;
        }
        value = value * 10 + d;
        i += 1;
    }
    assert(digits.take(i - start) =~= digits);
    Some(value)
}

/// Reads a cycle count: an optional `+` and decimal digits, up to 2^64 - 1.
pub fn parse_cycles(text: &str) -> (cycles: Option<u64>)
    ensures
        cycles == cycles_of(text@),
{
    let chars = chars_of(text);
    assert(chars@.subrange(0, chars.len() as int) =~= text@);
    cycles_in(&chars, 0, chars.len())
}

/// The call stack described by the first `end` characters of `chars`.
fn stack_in(chars: &Vec<char>, end: usize) -> (stack: Vec<Symbol>)
    requires
        end <= chars.len(),
    ensures
        symbol_views(stack@) == stack_of(chars@.take(end as int)),
{
    let ghost desc = chars@.take(end as int);
    let ghost read = |t: Seq<char>| symbol_of_token(t);
    let mut found: Vec<Symbol> = Vec::new();
    let ghost mut done: Seq<Seq<char>> = Seq::empty();
    let mut start: usize = 0;
    let mut i: usize = 0;
    while i < end
        invariant
            start <= i <= end <= chars.len(),
            desc == chars@.take(end as int),
            tokens_from(desc, 0) == done + tokens_from(desc, start as int),
            next_separator(desc, start as int) == next_separator(desc, i as int),
            found.len() == done.len(),
            forall|k: int|
                0 <= k < done.len() ==> (#[trigger] found[k])@ == symbol_of_token(done[k]),
        decreases end - i,
    {
        if i + 1 < end && chars[i] == ';' && chars[i + 1] == ' ' {
            let symbol = symbol_in(chars, start, i);
            proof {
                assert(separator_at(desc, i as int));
                assert(desc.subrange(start as int, i as int) =~= chars@.subrange(
                    start as int,
                    i as int,
                ));
                assert(done + (seq![desc.subrange(start as int, i as int)] + tokens_from(
                    desc,
                    i + 2,
                )) =~= done.push(desc.subrange(start as int, i as int)) + tokens_from(desc, i + 2));
                done = done.push(desc.subrange(start as int, i as int));
            }
            found.push(symbol);
            i += 2;
            start = i;
        } else {
            i += 1;
        }
    }
    let symbol = symbol_in(chars, start, end);
    proof {
        assert(desc.subrange(start as int, end as int) =~= chars@.subrange(
            start as int,
            end as int,
        ));
        done = done.push(desc.subrange(start as int, end as int));
    }
    found.push(symbol);
    assert(done =~= tokens_from(desc, 0));
    let mut stack: Vec<Symbol> = Vec::new();
    let ghost all = found@;
    while found.len() > 0
        invariant
            found.len() + stack.len() == all.len(),
            all.len() == done.len(),
            forall|k: int| 0 <= k < found.len() ==> found[k] == all[k],
            forall|k: int| 0 <= k < stack.len() ==> stack[k] == all[all.len() - 1 - k],
        decreases found.len(),
    {
        let symbol = found.pop().unwrap();
        stack.push(symbol);
    }
    assert(symbol_views(stack@) =~= done.map_values(read).reverse());
    stack
}

/// Decodes one line, `frame1; frame2; ...; frameN cycles`, into a frame.
///
/// The stack comes out root first, the reverse of the order in the line. A
/// line without a space gives `NoCycles`; one whose text after the last space
/// is no cycle count gives `InvalidCycle`.
pub fn parse_line(line: &str) -> (decoded: Result<Frame, ParseError>)
    ensures
        match decode_line(line@) {
            Ok(frame) => decoded is Ok && decoded->Ok_0@ == frame,
            Err(error) => decoded == Err::<Frame, ParseError>(error),
        },
{
    let chars = chars_of(line);
    let mut i: usize = chars.len();
    while i > 0 && chars[i - 1] != ' '
        invariant
            i <= chars.len(),
            forall|j: int| i <= j < chars.len() ==> chars[j] != ' ',
        decreases i,
    {
        i -= 1;
    }
    proof {
        lemma_last_position(chars@, ' ');
    }
    if i == 0 {
        return Err(ParseError::NoCycles);
    }
    let space: usize = i - 1;
    assert(last_position(chars@, ' ') == space);
    let stack = stack_in(&chars, space);
    assert(chars@.skip(space + 1) =~= chars@.subrange(space + 1, chars.len() as int));
    match cycles_in(&chars, space + 1, chars.len()) {
        None => Err(ParseError::InvalidCycle),
        Some(cycles) => Ok(Frame { stack, cycles }),
    }
}

} // verus!
