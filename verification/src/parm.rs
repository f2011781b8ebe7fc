//! Parameterized string expansion.
//!
//! A string capability holds literal bytes and `%`-escapes. The escapes drive
//! a small stack machine over integers and strings, which has nine parameter
//! slots and fifty-two variables; [`expand`] runs it once over a capability,
//! from a fresh state, and hands back the bytes that it wrote.

use crate::parm::ascii::{
    AMPERSAND, BANG, BAR, BRACE_CLOSE, BRACE_OPEN, CARET, COLON, DIGIT_0, DIGIT_1, DIGIT_9, DOT,
    EQUALS, GREATER, HASH, LESS, LOWER_A, LOWER_C, LOWER_D, LOWER_E, LOWER_G, LOWER_I, LOWER_L,
    LOWER_M, LOWER_O, LOWER_P, LOWER_S, LOWER_T, LOWER_X, LOWER_Z, MINUS, PERCENT, PLUS, QUESTION,
    QUOTE, SEMICOLON, SLASH, SPACE, STAR, TILDE, UPPER_A, UPPER_O, UPPER_P, UPPER_X, UPPER_Z,
};
use crate::parm::conversion::{
    bytes_of, digit_value, render, format_of, formatted, is_conversion, is_digit,
    lemma_scan_format_advances, push_all, read_format, scan_format, Flags,
};
use vstd::prelude::*;

pub mod ascii;
pub mod conversion;

verus! {

/// Why an expansion failed.
#[derive(Clone, Copy, Debug, PartialEq, Eq, Structural)]
pub enum ExpandError {
    /// An escape took a value from the empty stack.
    StackUnderflow,
    /// An escape met a string where it needs an integer, or the reverse.
    TypeMismatch,
    /// The byte behind `%` starts no escape.
    UnrecognizedFormatOption(u8),
    /// The byte behind `%P` or `%g` is no letter.
    InvalidVariableName(u8),
    /// The byte behind `%p` is no digit from 1 to 9, or no argument was given
    /// for that parameter.
    InvalidParameterIndex(u8),
    /// A `%'` is not followed by one byte and a closing quote.
    MalformedCharacterConstant,
    /// The integer of a `%{` does not fit in 32 bits.
    IntegerConstantOverflow,
    /// A `%{` is not followed by decimal digits and a closing brace.
    MalformedIntegerConstant,
    /// A field width does not fit in 32 bits.
    FormatWidthOverflow,
    /// A precision does not fit in 32 bits.
    FormatPrecisionOverflow,
    /// A byte stands in a format where the format admits none such.
    MalformedFormat,
    /// The capability ends inside an escape.
    UnterminatedEscape,
    /// A `%/` or `%m` divides by zero.
    DivisionByZero,
}

/// An argument of an expansion.
#[derive(Clone, Debug, PartialEq, Eq)]
pub enum Param {
    Number(i32),
    Words(String),
}

/// What the machine computes with: an integer or a byte string.
pub enum Val {
    Number(i32),
    Words(Seq<u8>),
}

impl View for Param {
    type V = Val;

    open spec fn view(&self) -> Val {
        match self {
            Param::Number(n) => Val::Number(*n),
            Param::Words(s) => Val::Words(vstd::utf8::encode_utf8(s@)),
        }
    }
}

/// A value on the machine's stack, in a parameter slot or in a variable.
pub enum Value {
    Number(i32),
    Words(Vec<u8>),
}

impl View for Value {
    type V = Val;

    open spec fn view(&self) -> Val {
        match self {
            Value::Number(n) => Val::Number(*n),
            Value::Words(s) => Val::Words(s@),
        }
    }
}

/// The state of the machine.
pub struct State {
    /// The stack, its top last.
    pub stack: Seq<Val>,
    /// The nine parameter slots; a slot for which no argument was given is
    /// empty.
    pub params: Seq<Option<Val>>,
    /// The variables: `a` to `z`, then `A` to `Z`.
    pub vars: Seq<Val>,
    /// What was written so far.
    pub output: Seq<u8>,
}

impl State {
    /// The state that an expansion starts in: the first nine arguments in the
    /// parameter slots, every variable zero, nothing on the stack and nothing
    /// written.
    pub open spec fn start(args: Seq<Val>) -> State {
        State {
            stack: seq![],
            params: Seq::new(
                9,
                |k: int|
                    if k < args.len() {
                        Some(args[k])
                    } else {
                        None
                    },
            ),
            vars: Seq::new(52, |k: int| Val::Number(0)),
            output: seq![],
        }
    }

    /// Whether the state has nine parameter slots and fifty-two variables.
    pub open spec fn well_formed(self) -> bool {
        self.params.len() == 9 && self.vars.len() == 52
    }

    /// The state after `bytes` were written.
    pub open spec fn write(self, bytes: Seq<u8>) -> State {
        State { output: self.output + bytes, ..self }
    }

    /// The state after `v` was pushed.
    pub open spec fn push(self, v: Val) -> State {
        State { stack: self.stack.push(v), ..self }
    }

    /// The top of the stack, and the state without it.
    pub open spec fn pop(self) -> Result<(Val, State), ExpandError> {
        if self.stack.len() == 0 {
            Err(ExpandError::StackUnderflow)
        } else {
            Ok((self.stack.last(), State { stack: self.stack.drop_last(), ..self }))
        }
    }

    /// The integer on top of the stack, and the state without it.
    pub open spec fn pop_number(self) -> Result<(i32, State), ExpandError> {
        match self.pop() {
            Ok((Val::Number(n), rest)) => Ok((n, rest)),
            Ok((Val::Words(_), _)) => Err(ExpandError::TypeMismatch),
            Err(e) => Err(e),
        }
    }
}

/// The integer that `v` is in 32 bits of two's complement.
pub open spec fn wrapped(v: int) -> i32 {
    let m = v % 0x1_0000_0000;
    if m >= 0x8000_0000 {
        (m - 0x1_0000_0000) as i32
    } else {
        m as i32
    }
}

/// The quotient of `x` by `y`, rounded towards zero; `y` is not zero.
pub open spec fn quotient(x: int, y: int) -> int {
    if x >= 0 && y > 0 {
        x / y
    } else if x < 0 && y < 0 {
        (-x) / (-y)
    } else if x < 0 {
        -((-x) / y)
    } else {
        -(x / (-y))
    }
}

/// One for true and zero for false.
pub open spec fn truth(b: bool) -> i32 {
    if b {
        1
    } else {
        0
    }
}

/// Whether `c` names an escape that takes two integers and gives one.
pub open spec fn is_binary(c: u8) -> bool {
    c == PLUS || c == MINUS || c == STAR || c == SLASH || c == LOWER_M || c == AMPERSAND || c
        == BAR || c == CARET || c == EQUALS || c == LESS || c == GREATER || c == UPPER_A || c
        == UPPER_O
}

/// What the binary escape `op` gives for `x`, pushed first, and `y`, pushed
/// second. Sums, differences, products and quotients wrap around in 32 bits;
/// the truth of an integer is that it is not zero.
pub open spec fn binary(op: u8, x: i32, y: i32) -> Result<i32, ExpandError> {
    if op == PLUS {
        Ok(wrapped(x + y))
    } else if op == MINUS {
        Ok(wrapped(x - y))
    } else if op == STAR {
        Ok(wrapped(x * y))
    } else if op == SLASH {
        if y == 0 {
            Err(ExpandError::DivisionByZero)
        } else {
            Ok(wrapped(quotient(x as int, y as int)))
        }
    } else if op == LOWER_M {
        if y == 0 {
            Err(ExpandError::DivisionByZero)
        } else {
            Ok(wrapped(x - y * quotient(x as int, y as int)))
        }
    } else if op == AMPERSAND {
        Ok(x & y)
    } else if op == BAR {
        Ok(x | y)
    } else if op == CARET {
        Ok(x ^ y)
    } else if op == EQUALS {
        Ok(truth(x == y))
    } else if op == LESS {
        Ok(truth(x < y))
    } else if op == GREATER {
        Ok(truth(x > y))
    } else if op == UPPER_A {
        Ok(truth(x != 0 && y != 0))
    } else {
        Ok(truth(x != 0 || y != 0))
    }
}

/// The index of the variable that `c` names: `a` to `z` are the first
/// twenty-six, `A` to `Z` the rest.
pub open spec fn variable_index(c: u8) -> Option<int> {
    if LOWER_A <= c <= LOWER_Z {
        Some(c - LOWER_A)
    } else if UPPER_A <= c <= UPPER_Z {
        Some(26 + c - UPPER_A)
    } else {
        None
    }
}

/// The integer constant whose digits start at `j`, and where the escape
/// ends: behind the closing brace. `acc` is the value of the digits before
/// `j`.
pub open spec fn scan_integer(raw: Seq<u8>, j: int, acc: int) -> Result<(int, i32), ExpandError>
    decreases raw.len() - j,
{
    if j < 0 || j >= raw.len() {
        Err(ExpandError::MalformedIntegerConstant)
    } else if raw[j] == BRACE_CLOSE {
        Ok((j + 1, acc as i32))
    } else if is_digit(raw[j]) {
        if acc * 10 + digit_value(raw[j]) > i32::MAX {
            Err(ExpandError::IntegerConstantOverflow)
        } else {
            scan_integer(raw, j + 1, acc * 10 + digit_value(raw[j]))
        }
    } else {
        Err(ExpandError::MalformedIntegerConstant)
    }
}

/// Where the branch that starts at `j` ends: behind the `%;` that closes the
/// conditional, or, where `to_else` holds, behind its `%e` if that comes
/// first; at the end of the capability when there is neither. `level` counts
/// the conditionals that were opened behind the start of the branch and not
/// closed yet. A `%` and the byte behind it are skipped together.
pub open spec fn skip(raw: Seq<u8>, j: int, level: int, to_else: bool) -> int
    decreases raw.len() - j,
{
    if j < 0 || j >= raw.len() {
        raw.len() as int
    } else if raw[j] != PERCENT {
        skip(raw, j + 1, level, to_else)
    } else if j + 1 >= raw.len() {
        raw.len() as int
    } else if raw[j + 1] == SEMICOLON {
        if level <= 0 {
            j + 2
        } else {
            skip(raw, j + 2, level - 1, to_else)
        }
    } else if raw[j + 1] == LOWER_E && to_else && level <= 0 {
        j + 2
    } else if raw[j + 1] == QUESTION {
        skip(raw, j + 2, level + 1, to_else)
    } else {
        skip(raw, j + 2, level, to_else)
    }
}

/// What `%i` makes of a parameter slot: an integer grows by one, an empty
/// slot stays empty.
pub open spec fn bumped(slot: Option<Val>) -> Result<Option<Val>, ExpandError> {
    match slot {
        Some(Val::Number(n)) => Ok(Some(Val::Number(wrapped(n + 1)))),
        Some(Val::Words(_)) => Err(ExpandError::TypeMismatch),
        None => Ok(None),
    }
}

/// The length of a string as `%l` pushes it.
pub open spec fn length_of(s: Seq<u8>) -> i32 {
    if s.len() <= i32::MAX {
        s.len() as i32
    } else {
        i32::MAX
    }
}

/// The state after the conversion `conv` took the top of the stack and wrote
/// it, and `next`, where the escape ends.
pub open spec fn convert(st: State, conv: u8, f: Flags, next: int) -> Result<
    (int, State),
    ExpandError,
> {
    match st.pop() {
        Ok((v, rest)) => match formatted(v, conv, f) {
            Ok(text) => Ok((next, rest.write(text))),
            Err(e) => Err(e),
        },
        Err(e) => Err(e),
    }
}

/// What the escape that starts at `i` makes of the state, and where it ends;
/// `i` is the place of a `%` that another byte follows.
pub open spec fn escape(raw: Seq<u8>, i: int, st: State) -> Result<(int, State), ExpandError> {
    let c = raw[i + 1];
    if c == PERCENT {
        Ok((i + 2, st.write(seq![PERCENT])))
    } else if c == LOWER_P {
        if i + 2 >= raw.len() {
            Err(ExpandError::UnterminatedEscape)
        } else if !(DIGIT_1 <= raw[i + 2] <= DIGIT_9) {
            Err(ExpandError::InvalidParameterIndex(raw[i + 2]))
        } else {
            match st.params[raw[i + 2] - DIGIT_1] {
                Some(v) => Ok((i + 3, st.push(v))),
                None => Err(ExpandError::InvalidParameterIndex(raw[i + 2])),
            }
        }
    } else if c == UPPER_P {
        if i + 2 >= raw.len() {
            Err(ExpandError::UnterminatedEscape)
        } else {
            match variable_index(raw[i + 2]) {
                Some(k) => match st.pop() {
                    Ok((v, rest)) => Ok((i + 3, State { vars: rest.vars.update(k, v), ..rest })),
                    Err(e) => Err(e),
                },
                None => Err(ExpandError::InvalidVariableName(raw[i + 2])),
            }
        }
    } else if c == LOWER_G {
        if i + 2 >= raw.len() {
            Err(ExpandError::UnterminatedEscape)
        } else {
            match variable_index(raw[i + 2]) {
                Some(k) => Ok((i + 3, st.push(st.vars[k]))),
                None => Err(ExpandError::InvalidVariableName(raw[i + 2])),
            }
        }
    } else if c == QUOTE {
        if raw.len() - i <= 3 || raw[i + 3] != QUOTE {
            Err(ExpandError::MalformedCharacterConstant)
        } else {
            Ok((i + 4, st.push(Val::Number(raw[i + 2] as i32))))
        }
    } else if c == BRACE_OPEN {
        match scan_integer(raw, i + 2, 0) {
            Ok((next, n)) => Ok((next, st.push(Val::Number(n)))),
            Err(e) => Err(e),
        }
    } else if c == LOWER_L {
        match st.pop() {
            Ok((Val::Words(s), rest)) => Ok((i + 2, rest.push(Val::Number(length_of(s))))),
            Ok((Val::Number(_), _)) => Err(ExpandError::TypeMismatch),
            Err(e) => Err(e),
        }
    } else if is_binary(c) {
        if st.stack.len() < 2 {
            Err(ExpandError::StackUnderflow)
        } else {
            match (st.stack[st.stack.len() - 2], st.stack[st.stack.len() - 1]) {
                (Val::Number(x), Val::Number(y)) => match binary(c, x, y) {
                    Ok(n) => Ok(
                        (
                            i + 2,
                            State {
                                stack: st.stack.subrange(0, st.stack.len() - 2).push(
                                    Val::Number(n),
                                ),
                                ..st
                            },
                        ),
                    ),
                    Err(e) => Err(e),
                },
                _ => Err(ExpandError::TypeMismatch),
            }
        }
    } else if c == BANG {
        match st.pop_number() {
            Ok((n, rest)) => Ok((i + 2, rest.push(Val::Number(truth(n == 0))))),
            Err(e) => Err(e),
        }
    } else if c == TILDE {
        match st.pop_number() {
            Ok((n, rest)) => Ok((i + 2, rest.push(Val::Number(!n)))),
            Err(e) => Err(e),
        }
    } else if c == LOWER_I {
        match (bumped(st.params[0]), bumped(st.params[1])) {
            (Ok(first), Ok(second)) => Ok(
                (i + 2, State { params: st.params.update(0, first).update(1, second), ..st }),
            ),
            _ => Err(ExpandError::TypeMismatch),
        }
    } else if is_conversion(c) {
        convert(st, c, Flags::plain(), i + 2)
    } else if c == COLON {
        match scan_format(raw, i + 2, 0, Flags::plain()) {
            Ok((next, f, conv)) => convert(st, conv, f, next),
            Err(e) => Err(e),
        }
    } else if c == HASH || c == SPACE || c == DOT || is_digit(c) {
        match scan_format(raw, i + 1, 0, Flags::plain()) {
            Ok((next, f, conv)) => convert(st, conv, f, next),
            Err(e) => Err(e),
        }
    } else if c == QUESTION || c == SEMICOLON {
        Ok((i + 2, st))
    } else if c == LOWER_T {
        match st.pop_number() {
            Ok((n, rest)) => Ok(
                (
                    if n != 0 {
                        i + 2
                    } else {
                        skip(raw, i + 2, 0, true)
                    },
                    rest,
                ),
            ),
            Err(e) => Err(e),
        }
    } else if c == LOWER_E {
        Ok((skip(raw, i + 2, 0, false), st))
    } else {
        Err(ExpandError::UnrecognizedFormatOption(c))
    }
}

/// What the byte or escape at `i` makes of the state, and where the next one
/// starts. A byte other than `%` is written as it is.
pub open spec fn step(raw: Seq<u8>, i: int, st: State) -> Result<(int, State), ExpandError> {
    if raw[i] != PERCENT {
        Ok((i + 1, st.write(seq![raw[i]])))
    } else if i + 1 >= raw.len() {
        Err(ExpandError::UnterminatedEscape)
    } else {
        escape(raw, i, st)
    }
}

/// An integer constant that was read ends behind where it started, and
/// within the capability.
pub proof fn lemma_scan_integer_advances(raw: Seq<u8>, j: int, acc: int)
    requires
        0 <= j,
    ensures
        scan_integer(raw, j, acc) matches Ok(found) ==> j < found.0 <= raw.len(),
    decreases raw.len() - j,
{
    if j < raw.len() && raw[j] != BRACE_CLOSE && is_digit(raw[j]) && acc * 10 + digit_value(raw[j])
        <= i32::MAX {
        lemma_scan_integer_advances(raw, j + 1, acc * 10 + digit_value(raw[j]));
    }
}

/// A branch ends at or behind where it starts, and within the capability.
pub proof fn lemma_skip_advances(raw: Seq<u8>, j: int, level: int, to_else: bool)
    requires
        0 <= j <= raw.len(),
    ensures
        j <= skip(raw, j, level, to_else) <= raw.len(),
    decreases raw.len() - j,
{
    if j < raw.len() {
        if raw[j] != PERCENT {
            lemma_skip_advances(raw, j + 1, level, to_else);
        } else if j + 1 >= raw.len() {
        } else if raw[j + 1] == SEMICOLON {
            if level > 0 {
                lemma_skip_advances(raw, j + 2, level - 1, to_else);
            }
        } else if raw[j + 1] == LOWER_E && to_else && level <= 0 {
        } else if raw[j + 1] == QUESTION {
            lemma_skip_advances(raw, j + 2, level + 1, to_else);
        } else {
            lemma_skip_advances(raw, j + 2, level, to_else);
        }
    }
}

/// A step ends behind where it starts, and within the capability, and leaves
/// the state well formed.
pub proof fn lemma_step_advances(raw: Seq<u8>, i: int, st: State)
    requires
        0 <= i < raw.len(),
        st.well_formed(),
    ensures
        step(raw, i, st) matches Ok(after) ==> i < after.0 <= raw.len() && after.1.well_formed(),
{
    if raw[i] == PERCENT && i + 1 < raw.len() {
        lemma_scan_integer_advances(raw, i + 2, 0);
        lemma_scan_format_advances(raw, i + 2, 0, Flags::plain());
        lemma_scan_format_advances(raw, i + 1, 0, Flags::plain());
        lemma_skip_advances(raw, i + 2, 0, true);
        lemma_skip_advances(raw, i + 2, 0, false);
    }
}

/// What the machine has written when it has run from `i` to the end of the
/// capability, or why it stopped.
pub open spec fn run(raw: Seq<u8>, i: int, st: State) -> Result<Seq<u8>, ExpandError>
    decreases raw.len() - i,
{
    if i < 0 || i >= raw.len() || !st.well_formed() {
        Ok(st.output)
    } else {
        proof {
            lemma_step_advances(raw, i, st);
        }
        match step(raw, i, st) {
            Ok((next, after)) => run(raw, next, after),
            Err(e) => Err(e),
        }
    }
}

/// From a place behind which no `%` stands, the machine writes the rest of
/// the capability as it is.
proof fn lemma_run_copies_plain_text(raw: Seq<u8>, i: int, st: State)
    requires
        0 <= i <= raw.len(),
        st.well_formed(),
        forall|k: int| i <= k < raw.len() ==> raw[k] != PERCENT,
    ensures
        run(raw, i, st) == Ok::<Seq<u8>, ExpandError>(
            st.output + raw.subrange(i, raw.len() as int),
        ),
    decreases raw.len() - i,
{
    if i < raw.len() {
        let after = st.write(seq![raw[i]]);
        lemma_run_copies_plain_text(raw, i + 1, after);
        assert(after.output + raw.subrange(i + 1, raw.len() as int) =~= st.output + raw.subrange(
            i,
            raw.len() as int,
        ));
    } else {
    }
}

/// A capability that holds no `%` expands to itself, whatever the arguments.
pub proof fn lemma_plain_text_expands_to_itself(raw: Seq<u8>, args: Seq<Val>)
    requires
        forall|k: int| 0 <= k < raw.len() ==> raw[k] != PERCENT,
    ensures
        expansion(raw, args) == Ok::<Seq<u8>, ExpandError>(raw),
{
    lemma_run_copies_plain_text(raw, 0, State::start(args));
    assert(State::start(args).output + raw.subrange(0, raw.len() as int) =~= raw);
}

/// The expansion of the capability `raw` against the arguments `args`.
pub open spec fn expansion(raw: Seq<u8>, args: Seq<Val>) -> Result<Seq<u8>, ExpandError> {
    run(raw, 0, State::start(args))
}

impl Value {
    /// A copy of the value.
    fn dup(&self) -> (r: Value)
        ensures
            r@ == self@,
    {
        match self {
            Value::Number(n) => Value::Number(*n),
            Value::Words(s) => {
                let mut bytes: Vec<u8> = Vec::new();
                push_all(&mut bytes, s.as_slice());
                Value::Words(bytes)
            },
        }
    }

    /// The value of an argument: its integer, or the bytes of its string.
    fn from_param(p: &Param) -> (r: Value)
        ensures
            r@ == p@,
    {
        match p {
            Param::Number(n) => Value::Number(*n),
            Param::Words(s) => Value::Words(vstd::slice::slice_to_vec(s.as_str().as_bytes())),
        }
    }
}

/// The views of the values of `s`.
spec fn values(s: Seq<Value>) -> Seq<Val> {
    Seq::new(s.len(), |k: int| s[k]@)
}

/// The view of a parameter slot.
spec fn slot(v: Option<Value>) -> Option<Val> {
    match v {
        Some(v) => Some(v@),
        None => None,
    }
}

/// The views of the slots of `s`.
spec fn slots(s: Seq<Option<Value>>) -> Seq<Option<Val>> {
    Seq::new(s.len(), |k: int| slot(s[k]))
}

/// The views of the arguments of `s`.
pub open spec fn arguments(s: Seq<Param>) -> Seq<Val> {
    Seq::new(s.len(), |k: int| s[k]@)
}

/// The machine.
struct Machine {
    stack: Vec<Value>,
    params: Vec<Option<Value>>,
    vars: Vec<Value>,
    output: Vec<u8>,
}

impl Machine {
    spec fn view(&self) -> State {
        State {
            stack: values(self.stack@),
            params: slots(self.params@),
            vars: values(self.vars@),
            output: self.output@,
        }
    }

    /// The machine in the state that an expansion starts in.
    fn start(args: &[Param]) -> (m: Machine)
        ensures
            m@ == State::start(arguments(args@)),
    {
        let mut params: Vec<Option<Value>> = Vec::new();
        let mut k: usize = 0;
        while k < 9
            invariant
                k <= 9,
                params@.len() == k,
                forall|j: int|
                    0 <= j < k ==> slot(#[trigger] params@[j]) == if j < args@.len() {
                        Some(args@[j]@)
                    } else {
                        None
                    },
            decreases 9 - k,
        {
            if k < args.len() {
                params.push(Some(Value::from_param(&args[k])));
            } else {
                params.push(None);
            }
            k = k + 1;
        }
        let mut vars: Vec<Value> = Vec::new();
        let mut k: usize = 0;
        while k < 52
            invariant
                k <= 52,
                vars@.len() == k,
                forall|j: int| 0 <= j < k ==> (#[trigger] vars@[j])@ == Val::Number(0),
            decreases 52 - k,
        {
            vars.push(Value::Number(0));
            k = k + 1;
        }
        let m = Machine { stack: Vec::new(), params, vars, output: Vec::new() };
        assert(m@.stack =~= State::start(arguments(args@)).stack);
        assert(m@.params =~= State::start(arguments(args@)).params);
        assert(m@.vars =~= State::start(arguments(args@)).vars);
        m
    }

    /// Pushes `v`.
    fn push(self, v: Value) -> (m: Machine)
        ensures
            m@ == self@.push(v@),
    {
        let mut m = self;
        m.stack.push(v);
        assert(m@.stack =~= self@.stack.push(v@));
        m
    }

    /// Writes `bytes`.
    fn write(self, bytes: &[u8]) -> (m: Machine)
        ensures
            m@ == self@.write(bytes@),
    {
        let mut m = self;
        push_all(&mut m.output, bytes);
        m
    }

    /// Takes the top of the stack.
    fn pop(self) -> (r: Result<(Value, Machine), ExpandError>)
        ensures
            match r {
                Ok((v, m)) => self@.pop() == Ok::<(Val, State), ExpandError>((v@, m@)),
                Err(e) => self@.pop() == Err::<(Val, State), ExpandError>(e),
            },
    {
        let mut m = self;
        match m.stack.pop() {
            Some(v) => {
                assert(m@.stack =~= self@.stack.drop_last());
                Ok((v, m))
            },
            None => Err(ExpandError::StackUnderflow),
        }
    }

    /// Takes the integer on top of the stack.
    fn pop_number(self) -> (r: Result<(i32, Machine), ExpandError>)
        ensures
            match r {
                Ok((n, m)) => self@.pop_number() == Ok::<(i32, State), ExpandError>((n, m@)),
                Err(e) => self@.pop_number() == Err::<(i32, State), ExpandError>(e),
            },
    {
        match self.pop() {
            Ok((Value::Number(n), m)) => Ok((n, m)),
            Ok((Value::Words(_), _)) => Err(ExpandError::TypeMismatch),
            Err(e) => Err(e),
        }
    }
}

/// The integer that `v` is in 32 bits of two's complement.
fn wrap(v: i64) -> (r: i32)
    ensures
        r == wrapped(v as int),
{
    let m: i128 = (v as i128 + 0x8000_0000_0000_0000) % 0x1_0000_0000;
    if m >= 0x8000_0000 {
        (m - 0x1_0000_0000) as i32
    } else {
        m as i32
    }
}

/// The quotient of `x` by `y`, rounded towards zero.
fn divide(x: i32, y: i32) -> (r: i64)
    requires
        y != 0,
    ensures
        r == quotient(x as int, y as int),
        -0x8000_0000 <= r <= 0x8000_0000,
{
    let a: i64 = x as i64;
    let b: i64 = y as i64;
    if a >= 0 && b > 0 {
        a / b
    } else if a < 0 && b < 0 {
        (-a) / (-b)
    } else if a < 0 {
        -((-a) / b)
    } else {
        -(a / (-b))
    }
}

/// What the binary escape `op` gives for `x` and `y`.
fn apply_binary(op: u8, x: i32, y: i32) -> (r: Result<i32, ExpandError>)
    requires
        is_binary(op),
    ensures
        r == binary(op, x, y),
{
    if op == PLUS {
        Ok(wrap(x as i64 + y as i64))
    } else if op == MINUS {
        Ok(wrap(x as i64 - y as i64))
    } else if op == STAR {
        assert(-0x4000_0000_0000_0000 <= (x as int) * (y as int) <= 0x4000_0000_0000_0000)
            by (nonlinear_arith)
            requires
                -0x8000_0000 <= x <= 0x7FFF_FFFF,
                -0x8000_0000 <= y <= 0x7FFF_FFFF,
        ;
        Ok(wrap(x as i64 * y as i64))
    } else if op == SLASH {
        if y == 0 {
            Err(ExpandError::DivisionByZero)
        } else {
            Ok(wrap(divide(x, y)))
        }
    } else if op == LOWER_M {
        if y == 0 {
            Err(ExpandError::DivisionByZero)
        } else {
            let q: i64 = divide(x, y);
            assert(-0x4000_0000_0000_0000 <= (y as int) * (q as int) <= 0x4000_0000_0000_0000)
                by (nonlinear_arith)
                requires
                    -0x8000_0000 <= q <= 0x8000_0000,
                    -0x8000_0000 <= y <= 0x7FFF_FFFF,
            ;
            Ok(wrap(x as i64 - y as i64 * q))
        }
    } else if op == AMPERSAND {
        Ok(x & y)
    } else if op == BAR {
        Ok(x | y)
    } else if op == CARET {
        Ok(x ^ y)
    } else if op == EQUALS {
        Ok(if x == y {
            1
        } else {
            0
        })
    } else if op == LESS {
        Ok(if x < y {
            1
        } else {
            0
        })
    } else if op == GREATER {
        Ok(if x > y {
            1
        } else {
            0
        })
    } else if op == UPPER_A {
        Ok(if x != 0 && y != 0 {
            1
        } else {
            0
        })
    } else {
        Ok(if x != 0 || y != 0 {
            1
        } else {
            0
        })
    }
}

/// What a step gave: the view of `r` as `step` gives it.
spec fn outcome(r: Result<(usize, Machine), ExpandError>) -> Result<(int, State), ExpandError> {
    match r {
        Ok((next, m)) => Ok((next as int, m@)),
        Err(e) => Err(e),
    }
}

/// Reads the integer constant whose digits start at `start`.
fn read_integer(raw: &[u8], start: usize) -> (r: Result<(usize, i32), ExpandError>)
    ensures
        match r {
            Ok((next, n)) => scan_integer(raw@, start as int, 0) == Ok::<(int, i32), ExpandError>(
                (next as int, n),
            ),
            Err(e) => scan_integer(raw@, start as int, 0) == Err::<(int, i32), ExpandError>(e),
        },
{
    let mut acc: i32 = 0;
    let mut j: usize = start;
    while j < raw.len()
        invariant
            start <= j,
            0 <= acc,
            scan_integer(raw@, start as int, 0) == scan_integer(raw@, j as int, acc as int),
        decreases raw@.len() - j,
    {
        let c: u8 = raw[j];
        if c == BRACE_CLOSE {
            return Ok((j + 1, acc));
        } else if DIGIT_0 <= c && c <= DIGIT_9 {
            let wide: i64 = acc as i64 * 10 + (c - DIGIT_0) as i64;
            if wide > i32::MAX as i64 {
                return Err(ExpandError::IntegerConstantOverflow);
            }
            acc = wide as i32;
        } else {
            return Err(ExpandError::MalformedIntegerConstant);
        }
        j = j + 1;
    }
    Err(ExpandError::MalformedIntegerConstant)
}

/// Finds where the branch that starts at `start` ends.
fn skip_branch(raw: &[u8], start: usize, to_else: bool) -> (r: usize)
    requires
        start <= raw@.len(),
    ensures
        r == skip(raw@, start as int, 0, to_else),
{
    let mut level: usize = 0;
    let mut j: usize = start;
    while j < raw.len()
        invariant
            start <= j <= raw@.len(),
            level <= j,
            skip(raw@, start as int, 0, to_else) == skip(raw@, j as int, level as int, to_else),
        decreases raw@.len() - j,
    {
        if raw[j] != PERCENT {
            j = j + 1;
        } else if j + 1 >= raw.len() {
            return raw.len();
        } else {
            let c: u8 = raw[j + 1];
            if c == SEMICOLON {
                if level == 0 {
                    return j + 2;
                }
                level = level - 1;
            } else if c == LOWER_E && to_else && level == 0 {
                return j + 2;
            } else if c == QUESTION {
                level = level + 1;
            }
            j = j + 2;
        }
    }
    raw.len()
}

/// Lets the conversion `conv` take the top of the stack and write it.
fn apply_conversion(m: Machine, conv: u8, f: &Flags, next: usize) -> (r: Result<
    (usize, Machine),
    ExpandError,
>)
    requires
        is_conversion(conv),
    ensures
        outcome(r) == convert(m@, conv, *f, next as int),
{
    match m.pop() {
        Ok((v, rest)) => match render(&v, conv, f) {
            Ok(text) => Ok((next, rest.write(text.as_slice()))),
            Err(e) => Err(e),
        },
        Err(e) => Err(e),
    }
}

/// What `%i` makes of a parameter slot.
fn bump(p: &Option<Value>) -> (r: Result<Option<Value>, ExpandError>)
    ensures
        match r {
            Ok(v) => bumped(slot(*p)) == Ok::<Option<Val>, ExpandError>(slot(v)),
            Err(e) => bumped(slot(*p)) == Err::<Option<Val>, ExpandError>(e),
        },
{
    match p {
        Some(Value::Number(n)) => Ok(Some(Value::Number(wrap(*n as i64 + 1)))),
        Some(Value::Words(_)) => Err(ExpandError::TypeMismatch),
        None => Ok(None),
    }
}

/// The index of the variable that `c` names.
fn variable_of(c: u8) -> (r: Option<usize>)
    ensures
        match r {
            Some(k) => variable_index(c) == Some(k as int) && k < 52,
            None => variable_index(c) is None,
        },
{
    if LOWER_A <= c && c <= LOWER_Z {
        Some((c - LOWER_A) as usize)
    } else if UPPER_A <= c && c <= UPPER_Z {
        Some(26 + (c - UPPER_A) as usize)
    } else {
        None
    }
}

/// Performs the escape that starts at `i`.
fn run_escape(raw: &[u8], i: usize, m: Machine) -> (r: Result<(usize, Machine), ExpandError>)
    requires
        i + 1 < raw.len(),
        m@.well_formed(),
    ensures
        outcome(r) == escape(raw@, i as int, m@),
{
    let c: u8 = raw[i + 1];
    let mut m = m;
    if c == PERCENT {
        let ghost before = m@;
        m.output.push(PERCENT);
        assert(m@.output =~= before.output + seq![PERCENT]);
        Ok((i + 2, m))
    } else if c == LOWER_P {
        if i + 2 >= raw.len() {
            return Err(ExpandError::UnterminatedEscape);
        }
        let d: u8 = raw[i + 2];
        if !(DIGIT_1 <= d && d <= DIGIT_9) {
            return Err(ExpandError::InvalidParameterIndex(d));
        }
        let k: usize = (d - DIGIT_1) as usize;
        let found: Option<Value> = match &m.params[k] {
            Some(v) => Some(v.dup()),
            None => None,
        };
        match found {
            Some(v) => Ok((i + 3, m.push(v))),
            None => Err(ExpandError::InvalidParameterIndex(d)),
        }
    } else if c == UPPER_P {
        if i + 2 >= raw.len() {
            return Err(ExpandError::UnterminatedEscape);
        }
        match variable_of(raw[i + 2]) {
            Some(k) => match m.pop() {
                Ok((v, rest)) => {
                    let mut rest = rest;
                    rest.vars.set(k, v);
                    assert(rest@.vars =~= m@.vars.update(k as int, v@));
                    Ok((i + 3, rest))
                },
                Err(e) => Err(e),
            },
            None => Err(ExpandError::InvalidVariableName(raw[i + 2])),
        }
    } else if c == LOWER_G {
        if i + 2 >= raw.len() {
            return Err(ExpandError::UnterminatedEscape);
        }
        match variable_of(raw[i + 2]) {
            Some(k) => {
                let v: Value = m.vars[k].dup();
                Ok((i + 3, m.push(v)))
            },
            None => Err(ExpandError::InvalidVariableName(raw[i + 2])),
        }
    } else if c == QUOTE {
        if raw.len() - i <= 3 || raw[i + 3] != QUOTE {
            return Err(ExpandError::MalformedCharacterConstant);
        }
        Ok((i + 4, m.push(Value::Number(raw[i + 2] as i32))))
    } else if c == BRACE_OPEN {
        match read_integer(raw, i + 2) {
            Ok((next, n)) => Ok((next, m.push(Value::Number(n)))),
            Err(e) => Err(e),
        }
    } else if c == LOWER_L {
        match m.pop() {
            Ok((Value::Words(s), rest)) => {
                let n: i32 = if s.len() <= i32::MAX as usize {
                    s.len() as i32
                } else {
                    i32::MAX
                };
                Ok((i + 2, rest.push(Value::Number(n))))
            },
            Ok((Value::Number(_), _)) => Err(ExpandError::TypeMismatch),
            Err(e) => Err(e),
        }
    } else if c == PLUS || c == MINUS || c == STAR || c == SLASH || c == LOWER_M || c == AMPERSAND
        || c == BAR || c == CARET || c == EQUALS || c == LESS || c == GREATER || c == UPPER_A || c
        == UPPER_O {
        if m.stack.len() < 2 {
            return Err(ExpandError::StackUnderflow);
        }
        let ghost before = m@;
        let second = m.stack.pop();
        let first = m.stack.pop();
        match (first, second) {
            (Some(Value::Number(x)), Some(Value::Number(y))) => match apply_binary(c, x, y) {
                Ok(n) => {
                    m.stack.push(Value::Number(n));
                    assert(m@.stack =~= before.stack.subrange(0, before.stack.len() - 2).push(
                        Val::Number(n),
                    ));
                    Ok((i + 2, m))
                },
                Err(e) => Err(e),
            },
            _ => Err(ExpandError::TypeMismatch),
        }
    } else if c == BANG {
        match m.pop_number() {
            Ok((n, rest)) => Ok(
                (
                    i + 2,
                    rest.push(
                        Value::Number(
                            if n == 0 {
                                1
                            } else {
                                0
                            },
                        ),
                    ),
                ),
            ),
            Err(e) => Err(e),
        }
    } else if c == TILDE {
        match m.pop_number() {
            Ok((n, rest)) => Ok((i + 2, rest.push(Value::Number(!n)))),
            Err(e) => Err(e),
        }
    } else if c == LOWER_I {
        let first = bump(&m.params[0]);
        let second = bump(&m.params[1]);
        match (first, second) {
            (Ok(first), Ok(second)) => {
                let ghost before = m@;
                m.params.set(0, first);
                m.params.set(1, second);
                assert(m@.params =~= before.params.update(0, slot(first)).update(1, slot(second)));
                Ok((i + 2, m))
            },
            _ => Err(ExpandError::TypeMismatch),
        }
    } else if c == LOWER_D || c == LOWER_O || c == LOWER_X || c == UPPER_X || c == LOWER_S || c
        == LOWER_C {
        let f: Flags = Flags::new();
        apply_conversion(m, c, &f, i + 2)
    } else if c == COLON {
        match read_format(raw, i + 2) {
            Ok((next, f, conv)) => {
                proof {
                    lemma_scan_format_advances(raw@, i + 2, 0, Flags::plain());
                }
                apply_conversion(m, conv, &f, next)
            },
            Err(e) => Err(e),
        }
    } else if c == HASH || c == SPACE || c == DOT || (DIGIT_0 <= c && c <= DIGIT_9) {
        match read_format(raw, i + 1) {
            Ok((next, f, conv)) => {
                proof {
                    lemma_scan_format_advances(raw@, i + 1, 0, Flags::plain());
                }
                apply_conversion(m, conv, &f, next)
            },
            Err(e) => Err(e),
        }
    } else if c == QUESTION || c == SEMICOLON {
        Ok((i + 2, m))
    } else if c == LOWER_T {
        match m.pop_number() {
            Ok((n, rest)) => {
                let next: usize = if n != 0 {
                    i + 2
                } else {
                    skip_branch(raw, i + 2, true)
                };
                Ok((next, rest))
            },
            Err(e) => Err(e),
        }
    } else if c == LOWER_E {
        Ok((skip_branch(raw, i + 2, false), m))
    } else {
        Err(ExpandError::UnrecognizedFormatOption(c))
    }
}

/// Expand a parameterized capability.
///
/// The machine runs over `cap` from a fresh state in which the first nine of
/// `params` fill the parameter slots. The result is what it wrote, or the
/// reason why it stopped at the first escape that it could not perform.
pub fn expand(cap: &[u8], params: &[Param]) -> (r: Result<Vec<u8>, ExpandError>)
    ensures
        bytes_of(r) == expansion(cap@, arguments(params@)),
{
    let mut m: Machine = Machine::start(params);
    let mut i: usize = 0;
    while i < cap.len()
        invariant
            i <= cap@.len(),
            m@.well_formed(),
            expansion(cap@, arguments(params@)) == run(cap@, i as int, m@),
        decreases cap@.len() - i,
    {
        proof {
            lemma_step_advances(cap@, i as int, m@);
        }
        if cap[i] != PERCENT {
            let ghost before = m@;
            m.output.push(cap[i]);
            assert(m@.output =~= before.output + seq![cap@[i as int]]);
            i = i + 1;
        } else if i + 1 >= cap.len() {
            return Err(ExpandError::UnterminatedEscape);
        } else {
            match run_escape(cap, i, m) {
                Ok((next, after)) => {
                    i = next;
                    m = after;
                },
                Err(e) => {
                    return Err(e);
                },
            }
        }
    }
    Ok(m.output)
}

} // verus!
