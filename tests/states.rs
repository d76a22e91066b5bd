use basic_interp::program::ProgramData;
use basic_interp::states::{get_state, Effect, StateMachine, States};

#[test]
fn check_that_start_returns_0() {
    let data = ProgramData::new(Vec::new(), Vec::new(), Vec::new(), 0);
    let state = get_state(States::ExecuteState).execute(data, None);
    assert_eq!(0, state.ok().unwrap().0.get_index())
}

#[test]
fn execute_state_calls_assign_state() {
    let mut state = get_state(States::ExecuteState);
    let mut data = ProgramData::new(
        vec![String::from("let $a = 5")],
        vec![(String::from("a"), String::from("0"))],
        Vec::new(),
        0,
    );
    let mut result = state.execute(data, None).unwrap();
    state = result.1;
    data = result.0;
    result = state.execute(data, None).unwrap();
    assert_eq!(*(result.0.get_var(&String::from("a")).unwrap()), String::from("5"))
}

#[test]
fn assign_number_to_variable() {
    let data = ProgramData::new(vec![String::from("let $a = 5")], Vec::new(), Vec::new(), 0);
    let result = States::AssignState.execute(data, None);
    let res = result.ok().unwrap().0.get_var(&String::from("a")).unwrap().to_string();
    assert_eq!(res.as_str(), "5")
}

#[test]
fn assign_string_to_variable() {
    let data = ProgramData::new(
        vec![String::from(r#"let $a = "hello""#)],
        Vec::new(),
        Vec::new(),
        0,
    );
    let result = States::AssignState.execute(data, None);
    let res = result.ok().unwrap().0.get_var(&String::from("a")).unwrap().to_string();
    assert_eq!(res.as_str(), "hello")
}

#[test]
fn assign_from_variable_to_variable() {
    let mut data = ProgramData::new(
        vec![String::from("let $b = 5"), String::from("let $a = $b")],
        Vec::new(),
        Vec::new(),
        0,
    );
    // Assign $b
    let mut result = States::AssignState.execute(data, None).unwrap();
    data = result.0;
    result = result.1.execute(data, None).unwrap();

    // Assign the value of $b to $a
    data = result.0;
    result = result.1.execute(data, None).unwrap();

    let res = result.0.get_var(&String::from("a")).unwrap().to_string();
    assert_eq!(res.as_str(), "5")
}

#[test]
fn assign_register_to_input() {
    let data = ProgramData::new(
        vec![String::from(r#"let $a = input"#)],
        Vec::new(),
        Vec::new(),
        0,
    );
    // The statement asks for a line, then binds it.
    let asked = States::AssignState.execute(data, None).unwrap();
    assert!(matches!(asked.2, Effect::Read));
    let result = asked.1.execute(asked.0, Some(String::from("hello")));
    let res = result.ok().unwrap().0.get_var(&String::from("a")).unwrap().to_string();
    assert_eq!(res.as_str(), "hello")
}

#[test]
fn output_int_register() {
    let mut data = ProgramData::new(
        vec![String::from("let $a = 5"), String::from("output $a")],
        Vec::new(),
        Vec::new(),
        0,
    );
    // Assign $a
    let mut result = States::ExecuteState.execute(data, None).unwrap();
    data = result.0;
    result = result.1.execute(data, None).unwrap();

    // Execute next instruction
    data = result.0;
    result = result.1.execute(data, None).unwrap();

    // Output $a
    data = result.0;
    result = result.1.execute(data, None).unwrap();

    let output_str = match result.2 {
        Effect::Write(s) => s,
        _ => String::new(),
    };
    assert_eq!("5", output_str);
}

#[test]
fn output_str_variable() {
    let mut data = ProgramData::new(
        vec![String::from("let $a = \"meme\""), String::from("output $a")],
        Vec::new(),
        Vec::new(),
        0,
    );
    // Assign $a
    let mut result = States::ExecuteState.execute(data, None).unwrap();
    data = result.0;
    result = result.1.execute(data, None).unwrap();

    // Execute next instruction
    data = result.0;
    result = result.1.execute(data, None).unwrap();

    // Output $a
    data = result.0;
    result = result.1.execute(data, None).unwrap();
    let output_str = match result.2 {
        Effect::Write(s) => s,
        _ => String::new(),
    };
    assert_eq!("meme", output_str);
}

#[test]
fn goto_valid_block() {
    let data = ProgramData::new(
        vec![String::from("goto 2"), String::from("quit"), String::from("quit")],
        Vec::new(),
        Vec::new(),
        0,
    );
    let res = States::GotoState.execute(data, None);
    assert_eq!(res.unwrap().0.get_index(), 2)
}

#[test]
fn goto_invalid_block() {
    let data = ProgramData::new(
        vec![String::from("goto 4"), String::from("quit"), String::from("quit")],
        Vec::new(),
        Vec::new(),
        0,
    );
    let res = States::GotoState.execute(data, None);
    assert_eq!(
        res.err().unwrap().message(),
        "Goto statement points to region out of bounds!\nAborting..."
    )
}

#[test]
fn if_tests_true() {
    let mut data = ProgramData::new(
        vec![
            String::from("let $a = 0"),
            String::from("let $b = 1"),
            String::from("if $a < $b goto 2"),
            String::from("quit"),
            String::from("quit"),
        ],
        Vec::new(),
        Vec::new(),
        0,
    );
    // Assign $a
    let mut result = States::ExecuteState.execute(data, None).unwrap();
    data = result.0;
    result = result.1.execute(data, None).unwrap();

    // Assign $b
    data = result.0;
    result = result.1.execute(data, None).unwrap();
    data = result.0;
    result = result.1.execute(data, None).unwrap();

    let res = States::IfState.execute(result.0, None);
    assert_eq!(res.unwrap().0.get_index(), 2)
}

#[test]
fn if_tests_false() {
    let mut data = ProgramData::new(
        vec![
            String::from("let $a = 1"),
            String::from("let $b = 0"),
            String::from("if $a < $b goto 2"),
            String::from("quit"),
            String::from("quit"),
        ],
        Vec::new(),
        Vec::new(),
        0,
    );
    // Assign $a
    let mut result = States::ExecuteState.execute(data, None).unwrap();
    data = result.0;
    result = result.1.execute(data, None).unwrap();

    // Assign $b
    data = result.0;
    result = result.1.execute(data, None).unwrap();
    data = result.0;
    result = result.1.execute(data, None).unwrap();

    let res = States::IfState.execute(result.0, None);
    assert_eq!(res.unwrap().0.get_index(), 3)
}

#[test]
fn math_add() {
    let mut data = ProgramData::new(
        vec![
            String::from("let $a = 1"),
            String::from("let $b = 2"),
            String::from("let $c = $a + $b"),
        ],
        Vec::new(),
        Vec::new(),
        0,
    );
    // Assign $a
    let mut result = States::ExecuteState.execute(data, None).unwrap();
    data = result.0;
    result = result.1.execute(data, None).unwrap();

    // Assign $b
    data = result.0;
    result = result.1.execute(data, None).unwrap();
    data = result.0;
    result = result.1.execute(data, None).unwrap();

    // Assign $c
    data = result.0;
    result = result.1.execute(data, None).unwrap();
    data = result.0;
    result = result.1.execute(data, None).unwrap();
    data = result.0;
    result = result.1.execute(data, None).unwrap();
    data = result.0;

    assert_eq!(data.get_var(&String::from("c")).unwrap().as_str(), "3")
}

#[test]
fn math_sub() {
    let mut data = ProgramData::new(
        vec![
            String::from("let $a = 1"),
            String::from("let $b = 1"),
            String::from("let $c = $a - $b"),
        ],
        Vec::new(),
        Vec::new(),
        0,
    );
    // Assign $a
    let mut result = States::ExecuteState.execute(data, None).unwrap();
    data = result.0;
    result = result.1.execute(data, None).unwrap();

    // Assign $b
    data = result.0;
    result = result.1.execute(data, None).unwrap();
    data = result.0;
    result = result.1.execute(data, None).unwrap();

    // Assign $c
    data = result.0;
    result = result.1.execute(data, None).unwrap();
    data = result.0;
    result = result.1.execute(data, None).unwrap();
    data = result.0;
    result = result.1.execute(data, None).unwrap();
    data = result.0;

    assert_eq!(data.get_var(&String::from("c")).unwrap().as_str(), "0")
}

#[test]
fn math_mult() {
    let mut data = ProgramData::new(
        vec![
            String::from("let $a = 4"),
            String::from("let $b = 2"),
            String::from("let $c = $a * $b"),
        ],
        Vec::new(),
        Vec::new(),
        0,
    );
    // Assign $a
    let mut result = States::ExecuteState.execute(data, None).unwrap();
    data = result.0;
    result = result.1.execute(data, None).unwrap();

    // Assign $b
    data = result.0;
    result = result.1.execute(data, None).unwrap();
    data = result.0;
    result = result.1.execute(data, None).unwrap();

    // Assign $c
    data = result.0;
    result = result.1.execute(data, None).unwrap();
    data = result.0;
    result = result.1.execute(data, None).unwrap();
    data = result.0;
    result = result.1.execute(data, None).unwrap();
    data = result.0;

    assert_eq!(data.get_var(&String::from("c")).unwrap().as_str(), "8")
}

#[test]
fn math_div() {
    let mut data = ProgramData::new(
        vec![
            String::from("let $a = 5"),
            String::from("let $b = 2"),
            String::from("let $c = $a / $b"),
        ],
        Vec::new(),
        Vec::new(),
        0,
    );
    // Assign $a
    let mut result = States::ExecuteState.execute(data, None).unwrap();
    data = result.0;
    result = result.1.execute(data, None).unwrap();

    // Assign $b
    data = result.0;
    result = result.1.execute(data, None).unwrap();
    data = result.0;
    result = result.1.execute(data, None).unwrap();

    // Assign $c
    data = result.0;
    result = result.1.execute(data, None).unwrap();
    data = result.0;
    result = result.1.execute(data, None).unwrap();
    data = result.0;
    result = result.1.execute(data, None).unwrap();
    data = result.0;

    assert_eq!(data.get_var(&String::from("c")).unwrap().as_str(), "2");
    assert_eq!(data.pop().unwrap().as_str(), "1")
}

#[test]
fn math_lhs_not_number() {
    let mut data = ProgramData::new(
        vec![
            String::from(r#"let $a = "me""#),
            String::from("let $b = 2"),
            String::from("let $c = $a / $b"),
        ],
        Vec::new(),
        Vec::new(),
        0,
    );
    // Assign $a
    let mut result = States::ExecuteState.execute(data, None).unwrap();
    data = result.0;
    result = result.1.execute(data, None).unwrap();

    // Assign $b
    data = result.0;
    result = result.1.execute(data, None).unwrap();
    data = result.0;
    result = result.1.execute(data, None).unwrap();

    // Assign $c
    data = result.0;
    result = result.1.execute(data, None).unwrap();
    data = result.0;
    result = result.1.execute(data, None).unwrap();
    data = result.0;
    let res = result.1.execute(data, None).err();
    assert_eq!(res.unwrap().message(), "$a is not a numeric value!\nAborting...");
}

#[test]
fn math_rhs_not_number() {
    let mut data = ProgramData::new(
        vec![
            String::from("let $a = 2"),
            String::from(r#"let $b = "me""#),
            String::from("let $c = $a / $b"),
        ],
        Vec::new(),
        Vec::new(),
        0,
    );
    // Assign $a
    let mut result = States::ExecuteState.execute(data, None).unwrap();
    data = result.0;
    result = result.1.execute(data, None).unwrap();

    // Assign $b
    data = result.0;
    result = result.1.execute(data, None).unwrap();
    data = result.0;
    result = result.1.execute(data, None).unwrap();

    // Assign $c
    data = result.0;
    result = result.1.execute(data, None).unwrap();
    data = result.0;
    result = result.1.execute(data, None).unwrap();
    data = result.0;
    let res = result.1.execute(data, None).err();
    assert_eq!(res.unwrap().message(), "$b is not a numeric value!\nAborting...");
}

#[test]
fn end_state_quits_program() {
    let mut data = ProgramData::new(vec![String::from("quit")], Vec::new(), Vec::new(), 0);
    // Quit program
    let result = States::ExecuteState.execute(data, None).unwrap();
    data = result.0;
    let res = result.1.execute(data, None);

    assert_eq!(res.as_ref().err().unwrap().message(), "Exit");
    assert_eq!(res.err().unwrap().is_exit(), true)
}

#[test]
fn execute_invalid_instruction() {
    let data = ProgramData::new(vec![String::from("go to 0")], Vec::new(), Vec::new(), 0);
    // Run invalid instruction
    let res = States::ExecuteState.execute(data, None);
    assert_eq!(res.err().unwrap().message(), "Unknown instruction: go to 0\nAborting...")
}

#[test]
fn assign_from_invalid_variable() {
    let mut data = ProgramData::new(vec![String::from("let $a = $b")], Vec::new(), Vec::new(), 0);
    let result = States::ExecuteState.execute(data, None).unwrap();
    data = result.0;
    let res = result.1.execute(data, None);

    assert_eq!(res.err().unwrap().message(), "Variable $b does not exist!\nAborting...")
}

#[test]
fn goto_invalid_goto() {
    let mut data = ProgramData::new(vec![String::from("goto e")], Vec::new(), Vec::new(), 0);
    let result = States::ExecuteState.execute(data, None).unwrap();
    data = result.0;
    let res = result.1.execute(data, None);

    assert_eq!(res.err().unwrap().message(), "Invalid goto statement: goto e\nAborting...")
}

#[test]
fn assign_invalid_assign_rhs() {
    let mut data = ProgramData::new(vec![String::from("let $a = e")], Vec::new(), Vec::new(), 0);
    let result = States::ExecuteState.execute(data, None).unwrap();
    data = result.0;
    let res = result.1.execute(data, None);

    assert_eq!(res.err().unwrap().message(), "Invalid assign instruction: let $a = e\nAborting...")
}

#[test]
fn assign_invalid_assign_lhs() {
    let mut data = ProgramData::new(vec![String::from("let e = $a")], Vec::new(), Vec::new(), 0);
    let result = States::ExecuteState.execute(data, None).unwrap();
    data = result.0;
    let res = result.1.execute(data, None);

    assert_eq!(res.err().unwrap().message(), "Invalid assign instruction: let e = $a\nAborting...")
}

#[test]
fn if_invalid_lhs_variable() {
    let mut data = ProgramData::new(
        vec![
            String::from("let $a = 0"),
            String::from("if $a < $b goto 3"),
            String::from("quit"),
            String::from("quit"),
        ],
        Vec::new(),
        Vec::new(),
        0,
    );
    // Assign the first variable
    let result = States::ExecuteState.execute(data, None).unwrap();
    data = result.0;
    let result = result.1.execute(data, None).unwrap();

    let res = States::IfState.execute(result.0, None);
    assert_eq!(res.err().unwrap().message(), "Variable $b does not exist!\nAborting...")
}

#[test]
fn if_invalid_rhs_variable() {
    let mut data = ProgramData::new(
        vec![
            String::from("let $b = 0"),
            String::from("if $a < $b goto 3"),
            String::from("quit"),
            String::from("quit"),
        ],
        Vec::new(),
        Vec::new(),
        0,
    );
    // Assign the first variable
    let result = States::ExecuteState.execute(data, None).unwrap();
    data = result.0;
    let result = result.1.execute(data, None).unwrap();

    let res = States::IfState.execute(result.0, None);
    assert_eq!(res.err().unwrap().message(), "Variable $a does not exist!\nAborting...")
}

#[test]
fn if_invalid_lhs_code() {
    let mut data = ProgramData::new(
        vec![
            String::from("let $b = 0"),
            String::from("if e < $b goto 3"),
            String::from("quit"),
            String::from("quit"),
        ],
        Vec::new(),
        Vec::new(),
        0,
    );
    // Assign the first variable
    let result = States::ExecuteState.execute(data, None).unwrap();
    data = result.0;
    let result = result.1.execute(data, None).unwrap();

    let res = States::IfState.execute(result.0, None);
    assert_eq!(res.err().unwrap().message(), "Invalid if statement: if e < $b goto 3\nAborting...")
}

#[test]
fn if_invalid_rhs_code() {
    let mut data = ProgramData::new(
        vec![
            String::from("let $a = 0"),
            String::from("if $a < e goto 3"),
            String::from("quit"),
            String::from("quit"),
        ],
        Vec::new(),
        Vec::new(),
        0,
    );
    // Assign the first variable
    let result = States::ExecuteState.execute(data, None).unwrap();
    data = result.0;
    let result = result.1.execute(data, None).unwrap();

    let res = States::IfState.execute(result.0, None);
    assert_eq!(res.err().unwrap().message(), "Invalid if statement: if $a < e goto 3\nAborting...")
}

#[test]
fn if_test_predicates() {
    let mut data = ProgramData::new(
        vec![
            String::from("let $a = 0"),
            String::from("let $b = 1"),
            String::from("if $a != $b goto 5"),
            String::from("if $a < $b goto 5"),
            String::from("if $a <= $b goto 5"),
            String::from("if $a > $b goto 5"),
            String::from("if $a >= $b goto 5"),
            String::from("if $a = $b goto 5"),
        ],
        Vec::new(),
        Vec::new(),
        0,
    );

    // Assign $a
    let mut result = States::ExecuteState.execute(data, None).unwrap();
    data = result.0;
    result = result.1.execute(data, None).unwrap();

    // Assign $b
    data = result.0;
    result = result.1.execute(data, None).unwrap();
    data = result.0;
    result = result.1.execute(data, None).unwrap();
    data = result.0;

    let mut res = States::IfState.execute(data, None).unwrap();
    data = res.0;
    assert_eq!(data.get_index(), 5);

    data.set_index(3);
    res = States::IfState.execute(data, None).unwrap();
    data = res.0;
    assert_eq!(data.get_index(), 5);

    data.set_index(3);
    res = States::IfState.execute(data, None).unwrap();
    data = res.0;
    assert_eq!(data.get_index(), 5);

    data.set_index(4);
    res = States::IfState.execute(data, None).unwrap();
    data = res.0;
    assert_eq!(data.get_index(), 5);

    data.set_index(5);
    res = States::IfState.execute(data, None).unwrap();
    data = res.0;
    assert_eq!(data.get_index(), 6);

    data.set_index(6);
    res = States::IfState.execute(data, None).unwrap();
    assert_eq!(res.0.get_index(), 7);
}

#[test]
fn assign_reach_end_of_code() {
    let mut data = ProgramData::new(vec![String::from("let $a = 5")], Vec::new(), Vec::new(), 0);
    let mut result = States::AssignState.execute(data, None).unwrap();
    data = result.0;
    result = result.1.execute(data, None).unwrap();

    data = result.0;
    let res = result.1.execute(data, None);

    assert_eq!(res.err().unwrap().message(), "Exit")
}

#[test]
fn assign_from_stack() {
    let mut data = ProgramData::new(vec![String::from("let $a = pop")], Vec::new(), Vec::new(), 0);
    data.push(String::from("test"));
    let result = States::AssignState.execute(data, None).unwrap();
    data = result.0;
    assert_eq!(data.get_var(&String::from("a")).unwrap(), "test")
}

#[test]
fn assign_empty_stack() {
    let data = ProgramData::new(vec![String::from("let $a = pop")], Vec::new(), Vec::new(), 0);
    let result = States::AssignState.execute(data, None);
    assert_eq!(result.err().unwrap().message(), "Stack is empty!\nAborting...")
}
