use turing_machine::errors::{ConfigurationError, TuringMachineError};
use turing_machine::rules::{Direction, Rule, RuleTable, BLANK};
use turing_machine::turing_machine::TuringMachine;

fn rule(direction: Direction, value: char, state: usize) -> Rule {
    Rule { direction, value, state }
}

#[test]
fn construction_initial_configuration() {
    let mut t = RuleTable::new();
    t.insert('a', 1, rule(Direction::Stay, 'a', 0));
    let m = TuringMachine::new(vec!['a', 'a'], vec!['a'], t).unwrap();
    assert_eq!(m.head(), 0);
    assert_eq!(m.state(), 1);
    assert_eq!(m.cycle(), 0);
    assert_eq!(m.memory(), &vec!['a', 'a']);
    assert!(!m.is_finished());
}

#[test]
fn construction_rejects_empty_tape() {
    let t = RuleTable::new();
    let r = TuringMachine::new(vec![], vec!['a'], t);
    assert_eq!(r.unwrap_err(), ConfigurationError::EmptyMemory);
}

#[test]
fn construction_rejects_blank_in_alphabet() {
    let t = RuleTable::new();
    let r = TuringMachine::new(vec!['a'], vec!['a', BLANK], t);
    assert_eq!(r.unwrap_err(), ConfigurationError::BlankInAlphabet);
}

#[test]
fn construction_rejects_unknown_rule_symbol() {
    let mut t = RuleTable::new();
    t.insert('z', 1, rule(Direction::Stay, 'z', 0));
    let r = TuringMachine::new(vec!['a'], vec!['a'], t);
    match r.unwrap_err() {
        ConfigurationError::UnknownSymbols(v) => assert_eq!(v, vec!['z']),
        e => panic!("expected unknown symbols, got {:?}", e),
    }
}

#[test]
fn construction_reports_each_unknown_symbol_once() {
    let mut t = RuleTable::new();
    t.insert('z', 1, rule(Direction::Stay, 'y', 0));
    t.insert('z', 2, rule(Direction::Stay, 'z', 0));
    let r = TuringMachine::new(vec!['a', 'w', 'w'], vec!['a'], t);
    match r.unwrap_err() {
        ConfigurationError::UnknownSymbols(mut v) => {
            v.sort();
            assert_eq!(v, vec!['w', 'y', 'z']);
        }
        e => panic!("expected unknown symbols, got {:?}", e),
    }
}

#[test]
fn construction_accepts_blank_on_tape_and_in_rules() {
    let mut t = RuleTable::new();
    t.insert(BLANK, 1, rule(Direction::Stay, 'a', 0));
    t.insert('a', 1, rule(Direction::Stay, BLANK, 0));
    let m = TuringMachine::new(vec![BLANK, 'a'], vec!['a'], t);
    assert!(m.is_ok());
}

// A two-symbol run: the rule erases the cell back to blank, which is
// explicitly permitted.
#[test]
fn step_may_write_the_blank() {
    let mut t = RuleTable::new();
    t.insert('a', 1, rule(Direction::Stay, BLANK, 0));
    let mut m = TuringMachine::new(vec!['a'], vec!['a'], t).unwrap();
    m.execute_step().unwrap();
    assert_eq!(m.memory(), &vec![BLANK]);
}

// A full run: alphabet {a}, tape "aaa", and rules
// that at each of states 1, 2, 3 write `a` and move right, halting from
// state 3.  After exactly 3 steps the machine is finished, the cycle count
// is 3, and the head wrapped back to 0.
#[test]
fn three_cell_loop_halts_after_three_steps() {
    let mut t = RuleTable::new();
    t.insert('a', 1, rule(Direction::Right, 'a', 2));
    t.insert('a', 2, rule(Direction::Right, 'a', 3));
    t.insert('a', 3, rule(Direction::Right, 'a', 0));
    let mut m = TuringMachine::new(vec!['a', 'a', 'a'], vec!['a'], t).unwrap();
    assert!(!m.is_finished());
    m.execute_step().unwrap();
    assert_eq!(m.head(), 1);
    m.execute_step().unwrap();
    assert_eq!(m.head(), 2);
    m.execute_step().unwrap();
    assert!(m.is_finished());
    assert_eq!(m.cycle(), 3);
    assert_eq!(m.head(), 0);
    assert_eq!(m.state(), 0);
}

// Wrap-around: moving left from head 0 lands on the last cell.
#[test]
fn moving_left_from_cell_zero_wraps_to_last() {
    let mut t = RuleTable::new();
    t.insert('a', 1, rule(Direction::Left, 'a', 0));
    let mut m = TuringMachine::new(vec!['a', 'b', 'c'], vec!['a', 'b', 'c'], t).unwrap();
    m.execute_step().unwrap();
    assert_eq!(m.head(), 2);
}

// Wrap-around: moving right from the last cell lands on cell 0.
#[test]
fn moving_right_from_last_cell_wraps_to_zero() {
    let mut t = RuleTable::new();
    t.insert('a', 1, rule(Direction::Right, 'a', 2));
    t.insert('b', 2, rule(Direction::Right, 'b', 3));
    t.insert('c', 3, rule(Direction::Right, 'c', 0));
    let mut m = TuringMachine::new(vec!['a', 'b', 'c'], vec!['a', 'b', 'c'], t).unwrap();
    m.execute_step().unwrap();
    m.execute_step().unwrap();
    assert_eq!(m.head(), 2);
    m.execute_step().unwrap();
    assert_eq!(m.head(), 0);
}

// The length-1 tape: any direction leaves the head at 0.
#[test]
fn single_cell_tape_head_stays_at_zero() {
    for direction in [Direction::Left, Direction::Stay, Direction::Right] {
        let mut t = RuleTable::new();
        t.insert('a', 1, rule(direction, 'a', 1));
        let mut m = TuringMachine::new(vec!['a'], vec!['a'], t).unwrap();
        for _ in 0..5 {
            m.execute_step().unwrap();
            assert_eq!(m.head(), 0);
        }
        assert_eq!(m.cycle(), 5);
    }
}

// Determinism: two machines built from the same configuration step to the
// same configuration.
#[test]
fn identical_machines_step_identically() {
    let build = || {
        let mut t = RuleTable::new();
        t.insert('a', 1, rule(Direction::Right, 'b', 2));
        t.insert('a', 2, rule(Direction::Left, 'a', 1));
        TuringMachine::new(vec!['a', 'a'], vec!['a', 'b'], t).unwrap()
    };
    let mut m1 = build();
    let mut m2 = build();
    for _ in 0..4 {
        let r1 = m1.execute_step();
        let r2 = m2.execute_step();
        assert_eq!(r1.is_ok(), r2.is_ok());
        assert_eq!(m1.memory(), m2.memory());
        assert_eq!(m1.head(), m2.head());
        assert_eq!(m1.state(), m2.state());
        assert_eq!(m1.cycle(), m2.cycle());
    }
}

// A failing step reports the offending pair and leaves the machine
// untouched.
#[test]
fn missing_rule_fails_without_mutation() {
    let mut t = RuleTable::new();
    t.insert('a', 1, rule(Direction::Right, 'b', 2));
    let mut m = TuringMachine::new(vec!['a', 'a'], vec!['a', 'b'], t).unwrap();
    m.execute_step().unwrap();
    let before_memory = m.memory().clone();
    let before_head = m.head();
    let before_state = m.state();
    let before_cycle = m.cycle();
    // State 2 on symbol 'a' has no rule.
    let err = m.execute_step().unwrap_err();
    let TuringMachineError::NoRule(nre) = err;
    assert_eq!(nre.value, 'a');
    assert_eq!(nre.state, 2);
    assert_eq!(m.memory(), &before_memory);
    assert_eq!(m.head(), before_head);
    assert_eq!(m.state(), before_state);
    assert_eq!(m.cycle(), before_cycle);
}

// Halting is terminal: a finished machine stays finished; the driver stops
// stepping it.
#[test]
fn finished_machine_stays_finished() {
    let mut t = RuleTable::new();
    t.insert('a', 1, rule(Direction::Stay, 'a', 0));
    let mut m = TuringMachine::new(vec!['a'], vec!['a'], t).unwrap();
    m.execute_step().unwrap();
    assert!(m.is_finished());
    assert!(m.is_finished());
    assert_eq!(m.state(), 0);
}

// Re-inserting a key replaces its rule; other keys keep theirs.
#[test]
fn insert_replaces_existing_rule() {
    let mut t = RuleTable::new();
    t.insert('a', 1, rule(Direction::Left, 'a', 5));
    t.insert('b', 1, rule(Direction::Stay, 'b', 7));
    t.insert('a', 1, rule(Direction::Right, 'b', 2));
    assert_eq!(t.len(), 2);
    assert_eq!(t.lookup('a', 1), Some(rule(Direction::Right, 'b', 2)));
    assert_eq!(t.lookup('b', 1), Some(rule(Direction::Stay, 'b', 7)));
    assert_eq!(t.lookup('a', 2), None);
    assert_eq!(t.lookup('c', 1), None);
}

#[test]
fn memory_to_string_brackets_the_head() {
    let mut t = RuleTable::new();
    t.insert('a', 1, rule(Direction::Right, 'a', 2));
    t.insert('b', 2, rule(Direction::Right, 'b', 3));
    let mut m = TuringMachine::new(
        vec!['a', 'b', 'c', 'd', 'e'],
        vec!['a', 'b', 'c', 'd', 'e'],
        t,
    )
    .unwrap();
    assert_eq!(m.memory_to_string(), "{a}bcde");
    m.execute_step().unwrap();
    m.execute_step().unwrap();
    assert_eq!(m.memory_to_string(), "ab{c}de");
}
