use lpb::state_server::{Operational, PreOperational, StateMachine};

#[test]
fn boot_holds_start_value() {
    let m = StateMachine::new("hello world".to_string());
    assert_eq!(m.some_unrelated_value, 0);
    assert_eq!(m.state.start_value, "hello world");
}

#[test]
fn preoperational_splits_at_spaces() {
    let m = StateMachine::new("move arm  home".to_string());
    let p: StateMachine<PreOperational> = StateMachine::from(m);
    assert_eq!(p.state.interm_value, vec!["move", "arm", "", "home"]);
    let o: StateMachine<Operational> = StateMachine::from(p);
    assert_eq!(o.state.final_value, 4);
    assert_eq!(o.some_unrelated_value, 0);
}

#[test]
fn empty_start_value_is_one_empty_word() {
    let p: StateMachine<PreOperational> = StateMachine::from(StateMachine::new(String::new()));
    assert_eq!(p.state.interm_value, vec![""]);
    let o: StateMachine<Operational> = p.into();
    assert_eq!(o.state.final_value, 1);
}

#[test]
fn split_matches_std_split() {
    for s in ["a", " a", "a ", "  ", "ä ö ü", "one two three", "x  y   z "] {
        let p: StateMachine<PreOperational> = StateMachine::from(StateMachine::new(s.to_string()));
        let expected: Vec<String> = s.split(" ").map(|x| x.to_string()).collect();
        assert_eq!(p.state.interm_value, expected);
        assert_eq!(p.state.interm_value.join(" "), s);
    }
}
