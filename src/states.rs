//! The interpreter's states. Each takes the program state, decodes the
//! statement at the instruction pointer, and returns the changed program
//! state with the state to run next and what the caller must do for it (write
//! a line, or read one), or the reason the run stops.
use vstd::prelude::*;
use crate::grammar::{
    cmp_holds, compare, keyword_class, keyword_of, parse_assign, parse_assign_spec, parse_goto,
    parse_goto_spec, parse_if, parse_if_spec, parse_output, parse_output_spec, AssignForm,
    Assignment,
};
use crate::program::{Machine, ProgramData};
use crate::text::{chars_of, decimal, digits_value, format_int, int_of, parse_int, read_digits};

verus! {

/// The states of the interpreter.
#[derive(Clone, Copy, Debug, PartialEq, Eq, Structural)]
pub enum States {
    AssignState,
    ExecuteState,
    GotoState,
    IfState,
    QuitState,
    OutputState,
    MathState,
}

/// What the caller of a state must do before it runs the next one, as values.
pub enum EffectV {
    Continue,
    Write(Seq<char>),
    Read,
}

/// What the caller of a state must do before it runs the next one: nothing,
/// write a line, or read a line and run the returned state again with it.
#[derive(Debug)]
pub enum Effect {
    Continue,
    Write(String),
    Read,
}

impl View for Effect {
    type V = EffectV;

    open spec fn view(&self) -> EffectV {
        match self {
            Effect::Continue => EffectV::Continue,
            Effect::Write(s) => EffectV::Write(s@),
            Effect::Read => EffectV::Read,
        }
    }
}

/// Why a run stops, as values.
pub enum HaltV {
    Exit,
    Fatal(Seq<char>),
}

/// Why a run stops: the program quit, or a statement could not be run.
#[derive(Debug)]
pub enum Halt {
    Exit,
    Fatal(String),
}

impl View for Halt {
    type V = HaltV;

    open spec fn view(&self) -> HaltV {
        match self {
            Halt::Exit => HaltV::Exit,
            Halt::Fatal(s) => HaltV::Fatal(s@),
        }
    }
}

pub open spec fn halt_message(h: HaltV) -> Seq<char> {
    match h {
        HaltV::Exit => "Exit"@,
        HaltV::Fatal(m) => m,
    }
}

impl Halt {
    /// The text that reports why the run stopped: `Exit` when the program quit.
    pub fn message(&self) -> (r: String)
        ensures
            r@ == halt_message(self@),
    {
        match self {
            Halt::Exit => String::from_str("Exit"),
            Halt::Fatal(m) => m.clone(),
        }
    }

    /// Whether the program quit (rather than failed).
    pub fn is_exit(&self) -> (r: bool)
        ensures
            r == (self@ is Exit),
    {
        match self {
            Halt::Exit => true,
            Halt::Fatal(_) => false,
        }
    }
}

/// What one state returns, as values.
pub type StepV = Result<(Machine, States, EffectV), HaltV>;

pub open spec fn step_view(r: Result<(ProgramData, States, Effect), Halt>) -> StepV {
    match r {
        Ok(t) => Ok((t.0@, t.1, t.2@)),
        Err(h) => Err(h@),
    }
}

pub open spec fn input_view(input: Option<String>) -> Option<Seq<char>> {
    match input {
        Some(s) => Some(s@),
        None => None,
    }
}

/// A run-time failure with the given reason.
pub open spec fn fatal(msg: Seq<char>) -> StepV {
    Err(HaltV::Fatal(msg + "\nAborting..."@))
}

pub open spec fn go(m: Machine, next: States) -> StepV {
    Ok((m, next, EffectV::Continue))
}

pub open spec fn advance(m: Machine) -> Machine {
    Machine { ip: m.ip + 1, ..m }
}

pub open spec fn bind(m: Machine, name: Seq<char>, value: Seq<char>) -> Machine {
    Machine { vars: m.vars.insert(name, value), ..m }
}

pub open spec fn missing_var(name: Seq<char>) -> Seq<char> {
    "Variable $"@ + name + " does not exist!"@
}

pub open spec fn not_numeric(name: Seq<char>) -> Seq<char> {
    "$"@ + name + " is not a numeric value!"@
}

/// The quotient of `a` by `b`, rounded toward zero.
pub open spec fn trunc_div(a: int, b: int) -> int {
    let q = (if a < 0 { -a } else { a }) / (if b < 0 { -b } else { b });
    if (a < 0) == (b < 0) {
        q
    } else {
        -q
    }
}

pub open spec fn arith_value(op: char, a: int, b: int) -> int {
    if op == '+' {
        a + b
    } else if op == '-' {
        a - b
    } else if op == '*' {
        a * b
    } else {
        trunc_div(a, b)
    }
}

pub open spec fn in_i128(v: int) -> bool {
    i128::MIN <= v <= i128::MAX
}

/// `Execute`: picks the state for the statement by its first keyword.
pub open spec fn execute_step(m: Machine, line: Seq<char>) -> StepV {
    match keyword_class(line) {
        Some(k) => go(
            m,
            if k == 0 {
                States::AssignState
            } else if k == 1 {
                States::IfState
            } else if k == 2 {
                States::GotoState
            } else if k == 3 {
                States::QuitState
            } else {
                States::OutputState
            },
        ),
        None => fatal("Unknown instruction: "@ + line),
    }
}

/// `Assign`: binds a variable, or hands arithmetic to `Math`, or asks for
/// input where the statement reads it and none was given.
pub open spec fn assign_step(m: Machine, line: Seq<char>, input: Option<Seq<char>>) -> StepV {
    match parse_assign_spec(line) {
        None => fatal("Invalid assign instruction: "@ + line),
        Some(AssignForm::Literal(n, v)) => go(advance(bind(m, n, v)), States::ExecuteState),
        Some(AssignForm::Pop(n)) => if m.stack.len() == 0 {
            fatal("Stack is empty!"@)
        } else {
            go(
                advance(Machine { stack: m.stack.drop_last(), ..bind(m, n, m.stack.last()) }),
                States::ExecuteState,
            )
        },
        Some(AssignForm::Arith(_, _, _, _)) => go(m, States::MathState),
        Some(AssignForm::Input(n)) => match input {
            None => Ok((m, States::AssignState, EffectV::Read)),
            Some(v) => go(advance(bind(m, n, v)), States::ExecuteState),
        },
        Some(AssignForm::Copy(n, src)) => if !m.vars.contains_key(src) {
            fatal(missing_var(src))
        } else {
            go(advance(bind(m, n, m.vars[src])), States::ExecuteState)
        },
    }
}

/// `Goto`: jumps to the statement the line names, which must exist.
pub open spec fn goto_step(m: Machine, line: Seq<char>) -> StepV {
    match parse_goto_spec(line) {
        None => fatal("Invalid goto statement: "@ + line),
        Some(d) => if digits_value(d) >= m.code.len() {
            fatal("Goto statement points to region out of bounds!"@)
        } else {
            go(Machine { ip: digits_value(d) as nat, ..m }, States::ExecuteState)
        },
    }
}

/// `If`: compares two variables' values as texts; jumps where the comparison
/// holds (to a statement that must exist), else goes on to the next line.
pub open spec fn if_step(m: Machine, line: Seq<char>) -> StepV {
    match parse_if_spec(line) {
        None => fatal("Invalid if statement: "@ + line),
        Some(c) => if !m.vars.contains_key(c.lhs) {
            fatal(missing_var(c.lhs))
        } else if !m.vars.contains_key(c.rhs) {
            fatal(missing_var(c.rhs))
        } else if cmp_holds(c.cmp, m.vars[c.lhs], m.vars[c.rhs]) {
            if digits_value(c.target) >= m.code.len() {
                fatal("If statement points to region out of bounds!"@)
            } else {
                go(Machine { ip: digits_value(c.target) as nat, ..m }, States::ExecuteState)
            }
        } else {
            go(advance(m), States::ExecuteState)
        },
    }
}

/// `Output`: asks the caller to write a variable's value.
pub open spec fn output_step(m: Machine, line: Seq<char>) -> StepV {
    match parse_output_spec(line) {
        None => fatal("Invalid output statement: "@ + line),
        Some(n) => if !m.vars.contains_key(n) {
            fatal(missing_var(n))
        } else {
            Ok((advance(m), States::ExecuteState, EffectV::Write(m.vars[n])))
        },
    }
}

/// `Math`: computes `$lhs op $rhs` over integers; a division binds the
/// quotient and pushes the remainder.
pub open spec fn math_step(m: Machine, line: Seq<char>) -> StepV {
    match parse_assign_spec(line) {
        Some(AssignForm::Arith(d, l, op, r)) => if !m.vars.contains_key(l) {
            fatal(missing_var(l))
        } else if !m.vars.contains_key(r) {
            fatal(missing_var(r))
        } else if int_of(m.vars[l]) is None {
            fatal(not_numeric(l))
        } else if int_of(m.vars[r]) is None {
            fatal(not_numeric(r))
        } else {
            let a = int_of(m.vars[l])->0;
            let b = int_of(m.vars[r])->0;
            let v = arith_value(op, a, b);
            if op == '/' && b == 0 {
                fatal("Division by zero!"@)
            } else if !in_i128(v) {
                fatal("Arithmetic overflow!"@)
            } else if op == '/' {
                go(
                    advance(
                        Machine { stack: m.stack.push(decimal(a - v * b)), ..bind(m, d, decimal(v)) },
                    ),
                    States::ExecuteState,
                )
            } else {
                go(advance(bind(m, d, decimal(v))), States::ExecuteState)
            }
        },
        _ => fatal("Invalid math instruction: "@ + line),
    }
}

/// What running state `st` on `m` gives, `input` being the line read for it
/// if any. Every state but `Quit` goes to `Quit` once all statements have run.
pub open spec fn transition(st: States, m: Machine, input: Option<Seq<char>>) -> StepV {
    if st == States::QuitState {
        Err(HaltV::Exit)
    } else if m.ip >= m.code.len() {
        go(m, States::QuitState)
    } else {
        let line = m.code[m.ip as int];
        match st {
            States::ExecuteState => execute_step(m, line),
            States::AssignState => assign_step(m, line, input),
            States::GotoState => goto_step(m, line),
            States::IfState => if_step(m, line),
            States::OutputState => output_step(m, line),
            States::MathState => math_step(m, line),
            States::QuitState => Err(HaltV::Exit),
        }
    }
}

/// A state of the interpreter.
pub trait StateMachine {
    spec fn kind(&self) -> States;

    /// Runs this state on `data`; `input` is the line read for it, where it
    /// asked for one.
    fn execute(&self, data: ProgramData, input: Option<String>) -> (r: Result<
        (ProgramData, States, Effect),
        Halt,
    >)
        requires
            data.wf(),
        ensures
            r matches Ok(t) ==> t.0.wf(),
            step_view(r) == transition(self.kind(), data@, input_view(input)),
    ;
}

/// The handler of a state.
pub fn get_state(state_type: States) -> (r: States)
    ensures
        r == state_type,
{
    state_type
}

/// Relies on `num_integer::div_rem`, which for primitive integers returns
/// `(x / y, x % y)`: the quotient rounded toward zero, and the remainder.
#[verifier::external_body]
fn quot_rem(x: i128, y: i128) -> (r: (i128, i128))
    requires
        y != 0,
        !(x == i128::MIN && y == -1),
    ensures
        r.0 == trunc_div(x as int, y as int),
        r.1 == x - r.0 * y,
{
    num_integer::div_rem(x, y)
}

fn fail(msg: String) -> (r: Halt)
    ensures
        r@ == HaltV::Fatal(msg@ + "\nAborting..."@),
{
    Halt::Fatal(msg.concat("\nAborting..."))
}

fn with_line(prefix: &str, line: &String) -> (r: String)
    ensures
        r@ == prefix@ + line@,
{
    String::from_str(prefix).concat(line.as_str())
}

fn missing(name: &String) -> (r: String)
    ensures
        r@ == missing_var(name@),
{
    String::from_str("Variable $").concat(name.as_str()).concat(" does not exist!")
}

fn execute_state(data: ProgramData) -> (r: Result<(ProgramData, States, Effect), Halt>)
    requires
        data.wf(),
    ensures
        r matches Ok(t) ==> t.0.wf(),
        step_view(r) == transition(States::ExecuteState, data@, None),
{
    match data.get_code() {
        None => Ok((data, States::QuitState, Effect::Continue)),
        Some(line) => match keyword_of(line.as_str()) {
            Some(k) => {
                let next = if k == 0 {
                    States::AssignState
                } else if k == 1 {
                    States::IfState
                } else if k == 2 {
                    States::GotoState
                } else if k == 3 {
                    States::QuitState
                } else {
                    States::OutputState
                };
                Ok((data, next, Effect::Continue))
            },
            None => Err(fail(with_line("Unknown instruction: ", &line))),
        },
    }
}

fn assign_state(data: ProgramData, input: Option<String>) -> (r: Result<
    (ProgramData, States, Effect),
    Halt,
>)
    requires
        data.wf(),
    ensures
        r matches Ok(t) ==> t.0.wf(),
        step_view(r) == transition(States::AssignState, data@, input_view(input)),
{
    let mut data = data;
    let line = match data.get_code() {
        None => {
            return Ok((data, States::QuitState, Effect::Continue));
        },
        Some(line) => line,
    };
    match parse_assign(line.as_str()) {
        None => Err(fail(with_line("Invalid assign instruction: ", &line))),
        Some(Assignment::Literal(name, value)) => {
            data.set_var(name, value);
            data.next_line();
            Ok((data, States::ExecuteState, Effect::Continue))
        },
        Some(Assignment::Pop(name)) => match data.pop() {
            None => Err(fail(String::from_str("Stack is empty!"))),
            Some(value) => {
                data.set_var(name, value);
                data.next_line();
                Ok((data, States::ExecuteState, Effect::Continue))
            },
        },
        Some(Assignment::Arith(_, _, _, _)) => Ok((data, States::MathState, Effect::Continue)),
        Some(Assignment::Input(name)) => match input {
            None => Ok((data, States::AssignState, Effect::Read)),
            Some(value) => {
                data.set_var(name, value);
                data.next_line();
                Ok((data, States::ExecuteState, Effect::Continue))
            },
        },
        Some(Assignment::Copy(name, src)) => {
            if !data.contains_var(&src) {
                return Err(fail(missing(&src)));
            }
            data.set_var_to_var(name, src);
            data.next_line();
            Ok((data, States::ExecuteState, Effect::Continue))
        },
    }
}

/// The statement index that the digits `d` name, where it is below `size`.
fn target_below(d: &Vec<char>, size: usize) -> (r: Option<usize>)
    requires
        crate::text::all_digits(d@),
    ensures
        r matches Some(v) ==> v == digits_value(d@) && v < size,
        r is None ==> digits_value(d@) >= size,
{
    assert(d@.subrange(0, d@.len() as int) =~= d@);
    match read_digits(d, 0, d.len(), size as u128) {
        Some(v) => if v < size as u128 {
            Some(v as usize)
        } else {
            None
        },
        None => None,
    }
}

fn goto_state(data: ProgramData) -> (r: Result<(ProgramData, States, Effect), Halt>)
    requires
        data.wf(),
    ensures
        r matches Ok(t) ==> t.0.wf(),
        step_view(r) == transition(States::GotoState, data@, None),
{
    let mut data = data;
    let line = match data.get_code() {
        None => {
            return Ok((data, States::QuitState, Effect::Continue));
        },
        Some(line) => line,
    };
    match parse_goto(line.as_str()) {
        None => Err(fail(with_line("Invalid goto statement: ", &line))),
        Some(d) => match target_below(&d, data.code_size()) {
            None => Err(fail(String::from_str("Goto statement points to region out of bounds!"))),
            Some(v) => {
                data.set_index(v);
                Ok((data, States::ExecuteState, Effect::Continue))
            },
        },
    }
}

fn if_state(data: ProgramData) -> (r: Result<(ProgramData, States, Effect), Halt>)
    requires
        data.wf(),
    ensures
        r matches Ok(t) ==> t.0.wf(),
        step_view(r) == transition(States::IfState, data@, None),
{
    let mut data = data;
    let line = match data.get_code() {
        None => {
            return Ok((data, States::QuitState, Effect::Continue));
        },
        Some(line) => line,
    };
    let c = match parse_if(line.as_str()) {
        None => {
            return Err(fail(with_line("Invalid if statement: ", &line)));
        },
        Some(c) => c,
    };
    let lv = match data.get_var(&c.lhs) {
        None => {
            return Err(fail(missing(&c.lhs)));
        },
        Some(v) => v.clone(),
    };
    let rv = match data.get_var(&c.rhs) {
        None => {
            return Err(fail(missing(&c.rhs)));
        },
        Some(v) => v.clone(),
    };
    if compare(c.cmp, &lv, &rv) {
        match target_below(&c.target, data.code_size()) {
            None => {
                return Err(fail(String::from_str("If statement points to region out of bounds!")));
            },
            Some(v) => data.set_index(v),
        }
    } else {
        data.next_line();
    }
    Ok((data, States::ExecuteState, Effect::Continue))
}

fn output_state(data: ProgramData) -> (r: Result<(ProgramData, States, Effect), Halt>)
    requires
        data.wf(),
    ensures
        r matches Ok(t) ==> t.0.wf(),
        step_view(r) == transition(States::OutputState, data@, None),
{
    let mut data = data;
    let line = match data.get_code() {
        None => {
            return Ok((data, States::QuitState, Effect::Continue));
        },
        Some(line) => line,
    };
    let name = match parse_output(line.as_str()) {
        None => {
            return Err(fail(with_line("Invalid output statement: ", &line)));
        },
        Some(n) => n,
    };
    let value = match data.get_var(&name) {
        None => {
            return Err(fail(missing(&name)));
        },
        Some(v) => v.clone(),
    };
    data.next_line();
    Ok((data, States::ExecuteState, Effect::Write(value)))
}

fn numeric(name: &String, value: &String) -> (r: Result<i128, Halt>)
    ensures
        r matches Ok(v) ==> int_of(value@) == Some(v as int),
        r matches Err(h) ==> int_of(value@) is None && h@ == HaltV::Fatal(
            not_numeric(name@) + "\nAborting..."@,
        ),
{
    match parse_int(&chars_of(value.as_str())) {
        Some(v) => Ok(v),
        None => Err(
            fail(String::from_str("$").concat(name.as_str()).concat(" is not a numeric value!")),
        ),
    }
}

fn math_state(data: ProgramData) -> (r: Result<(ProgramData, States, Effect), Halt>)
    requires
        data.wf(),
    ensures
        r matches Ok(t) ==> t.0.wf(),
        step_view(r) == transition(States::MathState, data@, None),
{
    let mut data = data;
    let line = match data.get_code() {
        None => {
            return Ok((data, States::QuitState, Effect::Continue));
        },
        Some(line) => line,
    };
    let (dst, lhs, op, rhs) = match parse_assign(line.as_str()) {
        Some(Assignment::Arith(d, l, op, r)) => (d, l, op, r),
        _ => {
            return Err(fail(with_line("Invalid math instruction: ", &line)));
        },
    };
    let lv = match data.get_var(&lhs) {
        None => {
            return Err(fail(missing(&lhs)));
        },
        Some(v) => v.clone(),
    };
    let rv = match data.get_var(&rhs) {
        None => {
            return Err(fail(missing(&rhs)));
        },
        Some(v) => v.clone(),
    };
    let a = match numeric(&lhs, &lv) {
        Err(h) => {
            return Err(h);
        },
        Ok(a) => a,
    };
    let b = match numeric(&rhs, &rv) {
        Err(h) => {
            return Err(h);
        },
        Ok(b) => b,
    };
    if op == '/' {
        if b == 0 {
            return Err(fail(String::from_str("Division by zero!")));
        }
        if a == i128::MIN && b == -1 {
            assert(trunc_div(a as int, b as int) == 0x8000_0000_0000_0000_0000_0000_0000_0000);
            return Err(fail(String::from_str("Arithmetic overflow!")));
        }
        let (q, rem) = quot_rem(a, b);
        data.set_var(dst, format_int(q));
        data.push(format_int(rem));
    } else {
        let v = if op == '+' {
            a.checked_add(b)
        } else if op == '-' {
            a.checked_sub(b)
        } else {
            a.checked_mul(b)
        };
        match v {
            None => {
                return Err(fail(String::from_str("Arithmetic overflow!")));
            },
            Some(v) => data.set_var(dst, format_int(v)),
        }
    }
    data.next_line();
    Ok((data, States::ExecuteState, Effect::Continue))
}

impl StateMachine for States {
    open spec fn kind(&self) -> States {
        *self
    }

    fn execute(&self, data: ProgramData, input: Option<String>) -> (r: Result<
        (ProgramData, States, Effect),
        Halt,
    >) {
        match self {
            States::ExecuteState => execute_state(data),
            States::AssignState => assign_state(data, input),
            States::GotoState => goto_state(data),
            States::IfState => if_state(data),
            States::OutputState => output_state(data),
            States::MathState => math_state(data),
            States::QuitState => Err(Halt::Exit),
        }
    }
}

} // verus!
