use rustws::{Error, Instruction, Interpreter, Status, Symbol};

#[test]
fn prefix_determinism() {
    let v = vec![Symbol::S, Symbol::S, Symbol::S];
    let mut pos: usize = 0;
    assert_eq!(Instruction::next(&v, &mut pos), Some(Instruction::PUSH(0)));

    let v = vec![Symbol::S, Symbol::L, Symbol::S];
    let mut pos: usize = 0;
    assert_eq!(Instruction::next(&v, &mut pos), Some(Instruction::DUP));

    let v = vec![Symbol::T, Symbol::S, Symbol::S, Symbol::S];
    let mut pos: usize = 0;
    assert_eq!(Instruction::next(&v, &mut pos), Some(Instruction::ADD));

    let v = vec![Symbol::L, Symbol::L];
    let mut pos: usize = 0;
    assert_eq!(Instruction::next(&v, &mut pos), Some(Instruction::EXIT));
}

#[test]
fn push_literal() {
    // Push opcode prefix, then the bits 1 0 1 terminated by a line feed.
    let v = vec![Symbol::S, Symbol::S, Symbol::T, Symbol::S, Symbol::T, Symbol::L];
    let mut pos: usize = 0;
    assert_eq!(Instruction::next(&v, &mut pos), Some(Instruction::PUSH(5)));
    assert_eq!(pos, 6);
}

#[test]
fn label_targets_definition_point() {
    // Jump(1); Push(9); DefineLabel(1); Exit — the jump lands on the exit.
    let source = String::from("\n \n\t\n  \t  \t\n\n  \t\n\n\n");
    let mut inter = Interpreter::new(source, false);
    assert!(matches!(inter.step(), Ok(Status::Step)));
    assert_eq!(inter.pc(), 2);
    assert!(matches!(inter.step(), Ok(Status::Exit)));
}

#[test]
fn label_redefinition_last_wins() {
    // Jump(5); Push(1); DefineLabel(5); Push(2); DefineLabel(5); Exit —
    // the jump lands after the second definition, on the exit.
    let source = String::from("\n \n\t \t\n  \t\n\n  \t \t\n  \t \n\n  \t \t\n\n\n");
    let mut inter = Interpreter::new(source, false);
    assert!(matches!(inter.step(), Ok(Status::Step)));
    assert_eq!(inter.pc(), 3);
    assert!(matches!(inter.step(), Ok(Status::Exit)));
}

#[test]
fn stack_underflow() {
    // Add on an empty stack.
    let mut inter = Interpreter::new(String::from("\t   "), false);
    assert!(matches!(inter.step(), Err(Error::EMPTY_STACK)));
    assert_eq!(inter.pc(), 0);

    // Subtract on an empty stack.
    let mut inter = Interpreter::new(String::from("\t  \t"), false);
    assert!(matches!(inter.step(), Err(Error::EMPTY_STACK)));

    // Duplicate on an empty stack.
    let mut inter = Interpreter::new(String::from(" \n "), false);
    assert!(matches!(inter.step(), Err(Error::EMPTY_STACK)));

    // Swap with a single element.
    let mut inter = Interpreter::new(String::from("  \n \n\t"), false);
    assert!(matches!(inter.step(), Ok(Status::Step)));
    assert!(matches!(inter.step(), Err(Error::EMPTY_STACK)));
    assert_eq!(inter.pc(), 1);

    // Drop on an empty stack.
    let mut inter = Interpreter::new(String::from(" \n\n"), false);
    assert!(matches!(inter.step(), Err(Error::EMPTY_STACK)));

    // Store with a single element.
    let mut inter = Interpreter::new(String::from("  \n\t\t "), false);
    assert!(matches!(inter.step(), Ok(Status::Step)));
    assert!(matches!(inter.step(), Err(Error::EMPTY_STACK)));

    // Retrieve on an empty stack.
    let mut inter = Interpreter::new(String::from("\t\t\t"), false);
    assert!(matches!(inter.step(), Err(Error::EMPTY_STACK)));

    // PrintChar on an empty stack.
    let mut inter = Interpreter::new(String::from("\t\n  "), false);
    assert!(matches!(inter.step(), Err(Error::EMPTY_STACK)));

    // PrintNumber on an empty stack.
    let mut inter = Interpreter::new(String::from("\t\n \t"), false);
    assert!(matches!(inter.step(), Err(Error::EMPTY_STACK)));
}

#[test]
fn divide_by_zero() {
    // Push(10); Push(0); Divide.
    let source = String::from("  \t \t \n  \n\t \t ");
    let mut inter = Interpreter::new(source, false);
    assert!(matches!(inter.step(), Ok(Status::Step)));
    assert!(matches!(inter.step(), Ok(Status::Step)));
    assert!(matches!(inter.step(), Err(Error::DIVISION_BY_ZERO)));
    assert_eq!(inter.pc(), 2);
}

#[test]
fn heap_round_trip() {
    // Push(3); Push(42); Store; Push(3); Retrieve; PrintNumber.
    let source = String::from("  \t\t\n  \t \t \t \n\t\t   \t\t\n\t\t\t\t\n \t");
    let mut inter = Interpreter::new(source, false);
    for _ in 0..5 {
        assert!(matches!(inter.step(), Ok(Status::Step)));
    }
    match inter.step() {
        Ok(Status::Print(t)) => assert_eq!(t, "42"),
        _ => panic!("expected the stored value to come back"),
    }
}

#[test]
fn retrieve_undefined_address() {
    // Push(7); Retrieve.
    let source = String::from("  \t\t\t\n\t\t\t");
    let mut inter = Interpreter::new(source, false);
    assert!(matches!(inter.step(), Ok(Status::Step)));
    assert!(matches!(inter.step(), Err(Error::UNDEFINED_HEAP_ADDRESS)));
}

#[test]
fn call_and_return() {
    // DefineLabel(0); Call(1); Exit; DefineLabel(1); Return — halts cleanly.
    let source = String::from("\n  \n\n \t\t\n\n\n\n  \t\n\n\t\n");
    let mut inter = Interpreter::new(source, false);
    assert!(matches!(inter.step(), Ok(Status::Step)));
    assert_eq!(inter.pc(), 2);
    assert!(matches!(inter.step(), Ok(Status::Step)));
    assert_eq!(inter.pc(), 1);
    assert!(matches!(inter.step(), Ok(Status::Exit)));
}

#[test]
fn running_off_the_end() {
    // Push(0) and nothing more.
    let mut inter = Interpreter::new(String::from("  \n"), false);
    assert!(matches!(inter.step(), Ok(Status::Step)));
    assert!(matches!(inter.step(), Err(Error::PC_OUT_OF_BOUNDS)));

    // An empty program faults at once.
    let mut inter = Interpreter::new(String::new(), false);
    assert!(matches!(inter.step(), Err(Error::PC_OUT_OF_BOUNDS)));
}

#[test]
fn undefined_label() {
    // Jump(1) with no definition anywhere.
    let mut inter = Interpreter::new(String::from("\n \n\t\n"), false);
    assert!(matches!(inter.step(), Err(Error::UNDEFINED_LABEL)));
}

#[test]
fn return_without_call() {
    let mut inter = Interpreter::new(String::from("\n\t\n"), false);
    assert!(matches!(inter.step(), Err(Error::EMPTY_FLOW_STACK)));
}

#[test]
fn arithmetic_results() {
    // Push(7); Push(3); Multiply; PrintNumber — multiplication is a product.
    let source = String::from("  \t\t\t\n  \t\t\n\t  \n\t\n \t");
    let mut inter = Interpreter::new(source, false);
    assert!(matches!(inter.step(), Ok(Status::Step)));
    assert!(matches!(inter.step(), Ok(Status::Step)));
    assert!(matches!(inter.step(), Ok(Status::Step)));
    match inter.step() {
        Ok(Status::Print(t)) => assert_eq!(t, "21"),
        _ => panic!("expected a printed product"),
    }

    // Push(10); Push(3); Divide; PrintNumber — truncating quotient.
    let source = String::from("  \t \t \n  \t\t\n\t \t \t\n \t");
    let mut inter = Interpreter::new(source, false);
    assert!(matches!(inter.step(), Ok(Status::Step)));
    assert!(matches!(inter.step(), Ok(Status::Step)));
    assert!(matches!(inter.step(), Ok(Status::Step)));
    match inter.step() {
        Ok(Status::Print(t)) => assert_eq!(t, "3"),
        _ => panic!("expected a printed quotient"),
    }

    // Push(7); Push(3); Modulo; PrintNumber.
    let source = String::from("  \t\t\t\n  \t\t\n\t \t\t\t\n \t");
    let mut inter = Interpreter::new(source, false);
    assert!(matches!(inter.step(), Ok(Status::Step)));
    assert!(matches!(inter.step(), Ok(Status::Step)));
    assert!(matches!(inter.step(), Ok(Status::Step)));
    match inter.step() {
        Ok(Status::Print(t)) => assert_eq!(t, "1"),
        _ => panic!("expected a printed remainder"),
    }
}

#[test]
fn negative_number_rendering() {
    // Push(0); Push(5); Subtract; PrintNumber — renders -5.
    let source = String::from("  \n  \t \t\n\t  \t\t\n \t");
    let mut inter = Interpreter::new(source, false);
    assert!(matches!(inter.step(), Ok(Status::Step)));
    assert!(matches!(inter.step(), Ok(Status::Step)));
    assert!(matches!(inter.step(), Ok(Status::Step)));
    match inter.step() {
        Ok(Status::Print(t)) => assert_eq!(t, "-5"),
        _ => panic!("expected a negative rendering"),
    }
}

#[test]
fn zero_rendering() {
    // Push(0); PrintNumber.
    let source = String::from("  \n\t\n \t");
    let mut inter = Interpreter::new(source, false);
    assert!(matches!(inter.step(), Ok(Status::Step)));
    match inter.step() {
        Ok(Status::Print(t)) => assert_eq!(t, "0"),
        _ => panic!("expected zero"),
    }
}

#[test]
fn read_and_write_back() {
    // ReadNumber; PrintNumber; Exit.
    let source = String::from("\t\n\t\t\t\n \t\n\n");
    let mut inter = Interpreter::new(source, false);
    assert!(matches!(inter.step(), Ok(Status::ReadInt)));
    inter.write(123);
    match inter.step() {
        Ok(Status::Print(t)) => assert_eq!(t, "123"),
        _ => panic!("expected the supplied number back"),
    }
    assert!(matches!(inter.step(), Ok(Status::Exit)));
}

#[test]
fn read_char_and_print_code() {
    // ReadChar; PrintChar; Exit.
    let source = String::from("\t\n\t \t\n  \n\n");
    let mut inter = Interpreter::new(source, false);
    assert!(matches!(inter.step(), Ok(Status::ReadChar)));
    inter.write(65);
    assert!(matches!(inter.step(), Ok(Status::PrintChar(65))));
    assert!(matches!(inter.step(), Ok(Status::Exit)));
}

#[test]
fn conditional_jumps() {
    // Push(0); JumpIfZero(1); Exit; DefineLabel(1); Exit — the jump is taken.
    let source = String::from("  \n\n\t \t\n\n\n\n  \t\n\n\n");
    let mut inter = Interpreter::new(source, false);
    assert!(matches!(inter.step(), Ok(Status::Step)));
    assert!(matches!(inter.step(), Ok(Status::Step)));
    assert_eq!(inter.pc(), 3);
    assert!(matches!(inter.step(), Ok(Status::Exit)));

    // Push(1); JumpIfNegative(0); Exit — the jump falls through.
    let source = String::from("  \t\n\n\t\t\n\n\n");
    let mut inter = Interpreter::new(source, false);
    assert!(matches!(inter.step(), Ok(Status::Step)));
    assert!(matches!(inter.step(), Ok(Status::Step)));
    assert_eq!(inter.pc(), 2);
    assert!(matches!(inter.step(), Ok(Status::Exit)));
}

#[test]
fn duplicate_and_swap_and_drop() {
    // Push(1); Push(2); Swap; PrintNumber — the old second value surfaces.
    let source = String::from("  \t\n  \t \n \n\t\t\n \t");
    let mut inter = Interpreter::new(source, false);
    assert!(matches!(inter.step(), Ok(Status::Step)));
    assert!(matches!(inter.step(), Ok(Status::Step)));
    assert!(matches!(inter.step(), Ok(Status::Step)));
    match inter.step() {
        Ok(Status::Print(t)) => assert_eq!(t, "1"),
        _ => panic!("expected the swapped value"),
    }

    // Push(3); Duplicate; Drop; PrintNumber — the copy is dropped.
    let source = String::from("  \t\t\n \n  \n\n\t\n \t");
    let mut inter = Interpreter::new(source, false);
    assert!(matches!(inter.step(), Ok(Status::Step)));
    assert!(matches!(inter.step(), Ok(Status::Step)));
    assert!(matches!(inter.step(), Ok(Status::Step)));
    match inter.step() {
        Ok(Status::Print(t)) => assert_eq!(t, "3"),
        _ => panic!("expected the remaining value"),
    }
}
