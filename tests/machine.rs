use basic_interp::program::ProgramData;
use basic_interp::states::{Effect, StateMachine, States};

fn one_line(line: &str, vars: &[(&str, &str)]) -> ProgramData {
    ProgramData::new(
        vec![String::from(line)],
        vars.iter().map(|(k, v)| (String::from(*k), String::from(*v))).collect(),
        Vec::new(),
        0,
    )
}

fn fatal_message(state: States, data: ProgramData) -> String {
    state.execute(data, None).err().unwrap().message()
}

#[test]
fn division_rounds_toward_zero() {
    let data = one_line("let $c = $a / $b", &[("a", "-7"), ("b", "2")]);
    let (mut data, next, _) = States::MathState.execute(data, None).unwrap();
    assert_eq!(next, States::ExecuteState);
    assert_eq!(data.get_var(&String::from("c")).unwrap().as_str(), "-3");
    assert_eq!(data.pop().unwrap().as_str(), "-1");
    assert_eq!(data.get_index(), 1);
}

#[test]
fn division_by_zero_fails() {
    let data = one_line("let $c = $a / $b", &[("a", "7"), ("b", "0")]);
    assert_eq!(fatal_message(States::MathState, data), "Division by zero!\nAborting...");
}

#[test]
fn addition_overflow_fails() {
    let data = one_line("let $c = $a + $b", &[("a", "170141183460469231731687303715884105727"), ("b", "1")]);
    assert_eq!(fatal_message(States::MathState, data), "Arithmetic overflow!\nAborting...");
}

#[test]
fn smallest_divided_by_minus_one_overflows() {
    let data = one_line("let $c = $a / $b", &[("a", "-170141183460469231731687303715884105728"), ("b", "-1")]);
    assert_eq!(fatal_message(States::MathState, data), "Arithmetic overflow!\nAborting...");
}

#[test]
fn arithmetic_on_signed_values() {
    let data = one_line("let $c = $a * $b", &[("a", "-12"), ("b", "+3")]);
    let (data, _, _) = States::MathState.execute(data, None).unwrap();
    assert_eq!(data.get_var(&String::from("c")).unwrap().as_str(), "-36");
    let data = one_line("let $c = $a - $b", &[("a", "2"), ("b", "10")]);
    let (data, _, _) = States::MathState.execute(data, None).unwrap();
    assert_eq!(data.get_var(&String::from("c")).unwrap().as_str(), "-8");
}

#[test]
fn math_with_missing_variable_fails() {
    let data = one_line("let $c = $a + $b", &[("a", "1")]);
    assert_eq!(fatal_message(States::MathState, data), "Variable $b does not exist!\nAborting...");
}

#[test]
fn math_on_other_statement_fails() {
    let data = one_line("let $a = 5", &[]);
    assert_eq!(fatal_message(States::MathState, data), "Invalid math instruction: let $a = 5\nAborting...");
}

#[test]
fn assign_delegates_arithmetic_to_math() {
    let data = one_line("let $c = $a + $b", &[("a", "1"), ("b", "2")]);
    let (data, next, _) = States::AssignState.execute(data, None).unwrap();
    assert_eq!(next, States::MathState);
    assert_eq!(data.get_index(), 0);
}

#[test]
fn assign_keeps_digits_verbatim() {
    let data = one_line("let $a = 007", &[]);
    let (data, _, _) = States::AssignState.execute(data, None).unwrap();
    assert_eq!(data.get_var(&String::from("a")).unwrap().as_str(), "007");
}

#[test]
fn output_writes_value() {
    let data = one_line("output $x", &[("x", "hi there")]);
    let (data, next, effect) = States::OutputState.execute(data, None).unwrap();
    assert!(matches!(effect, Effect::Write(ref s) if s == "hi there"));
    assert_eq!(next, States::ExecuteState);
    assert_eq!(data.get_index(), 1);
}

#[test]
fn output_of_missing_variable_fails() {
    let data = one_line("output $x", &[]);
    assert_eq!(fatal_message(States::OutputState, data), "Variable $x does not exist!\nAborting...");
}

#[test]
fn output_of_malformed_line_fails() {
    let data = one_line("output x", &[]);
    assert_eq!(fatal_message(States::OutputState, data), "Invalid output statement: output x\nAborting...");
}

#[test]
fn if_target_out_of_bounds_fails() {
    let data = one_line("if $a = $b goto 9", &[("a", "x"), ("b", "x")]);
    assert_eq!(fatal_message(States::IfState, data), "If statement points to region out of bounds!\nAborting...");
}

#[test]
fn if_compares_as_text() {
    let data = ProgramData::new(
        vec![String::from("if $a < $b goto 1"), String::from("quit")],
        vec![(String::from("a"), String::from("10")), (String::from("b"), String::from("9"))],
        Vec::new(),
        0,
    );
    let (data, _, _) = States::IfState.execute(data, None).unwrap();
    // "10" comes before "9" as text.
    assert_eq!(data.get_index(), 1);
    let data = ProgramData::new(
        vec![String::from("if $a >= $b goto 0"), String::from("quit")],
        vec![(String::from("a"), String::from("ab")), (String::from("b"), String::from("abc"))],
        Vec::new(),
        0,
    );
    let (data, _, _) = States::IfState.execute(data, None).unwrap();
    assert_eq!(data.get_index(), 1);
}

#[test]
fn execute_picks_keyword_in_order() {
    let data = one_line("let $gift = 5", &[]);
    assert_eq!(States::ExecuteState.execute(data, None).unwrap().1, States::AssignState);
    let data = one_line("if $quit < $b goto 0", &[]);
    assert_eq!(States::ExecuteState.execute(data, None).unwrap().1, States::IfState);
    let data = one_line("goto 0", &[]);
    assert_eq!(States::ExecuteState.execute(data, None).unwrap().1, States::GotoState);
    let data = one_line("quit", &[]);
    assert_eq!(States::ExecuteState.execute(data, None).unwrap().1, States::QuitState);
    let data = one_line("output $a", &[]);
    assert_eq!(States::ExecuteState.execute(data, None).unwrap().1, States::OutputState);
}

#[test]
fn states_at_end_go_to_quit() {
    let data = ProgramData::new(vec![String::from("quit")], Vec::new(), Vec::new(), 1);
    let (data, next, _) = States::GotoState.execute(data, None).unwrap();
    assert_eq!(next, States::QuitState);
    assert_eq!(data.get_index(), 1);
}

#[test]
fn input_is_asked_for_then_bound() {
    let data = one_line("let $name = input", &[]);
    let (data, next, effect) = States::AssignState.execute(data, None).unwrap();
    assert!(matches!(effect, Effect::Read));
    assert_eq!(next, States::AssignState);
    assert_eq!(data.get_index(), 0);
    let (data, next, _) = next.execute(data, Some(String::from("  spaced "))).unwrap();
    assert_eq!(next, States::ExecuteState);
    assert_eq!(data.get_var(&String::from("name")).unwrap().as_str(), "  spaced ");
}

#[test]
fn program_data_accessors() {
    let mut data = ProgramData::new(
        vec![String::from("quit"), String::from("quit")],
        vec![(String::from("a"), String::from("1")), (String::from("a"), String::from("2"))],
        vec![String::from("bottom"), String::from("top")],
        0,
    );
    assert_eq!(data.code_size(), 2);
    assert_eq!(data.get_code(), Some(String::from("quit")));
    assert_eq!(data.get_var(&String::from("a")).unwrap().as_str(), "2");
    assert!(data.contains_var(&String::from("a")));
    assert!(!data.contains_var(&String::from("b")));
    data.set_var_to_var(String::from("b"), String::from("a"));
    assert_eq!(data.get_var(&String::from("b")).unwrap().as_str(), "2");
    data.set_var(String::from("a"), String::from("3"));
    assert_eq!(data.get_var(&String::from("a")).unwrap().as_str(), "3");
    assert_eq!(data.get_var(&String::from("b")).unwrap().as_str(), "2");
    data.next_line();
    assert_eq!(data.get_index(), 1);
    data.set_index(2);
    assert_eq!(data.get_code(), None);
    assert_eq!(data.pop(), Some(String::from("top")));
    data.push(String::from("new"));
    assert_eq!(data.pop(), Some(String::from("new")));
    assert_eq!(data.pop(), Some(String::from("bottom")));
    assert_eq!(data.pop(), None);
}

#[test]
fn registers_seed_numbered_variables() {
    let data = ProgramData::from_segments(
        vec![String::from("5"), String::from("hello")],
        vec![String::from("output $1")],
    );
    assert_eq!(data.get_var(&String::from("0")).unwrap().as_str(), "5");
    assert_eq!(data.get_var(&String::from("1")).unwrap().as_str(), "hello");
    let (_, _, effect) = States::OutputState.execute(data, None).unwrap();
    assert!(matches!(effect, Effect::Write(ref s) if s == "hello"));
}
