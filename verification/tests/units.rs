use brainrust::{commands, Command, Engine, OptimizedCommand, Status, SyntaxError};

#[test]
fn every_symbol_is_a_command() {
    assert_eq!(Command::try_from('>'), Ok(Command::IncremenentPointer));
    assert_eq!(Command::try_from('<'), Ok(Command::DecrementPointer));
    assert_eq!(Command::try_from('+'), Ok(Command::IncrementValue));
    assert_eq!(Command::try_from('-'), Ok(Command::DecrementValue));
    assert_eq!(Command::try_from('.'), Ok(Command::Print));
    assert_eq!(Command::try_from(','), Ok(Command::Read));
    assert_eq!(Command::try_from('['), Ok(Command::Jump));
    assert_eq!(Command::try_from(']'), Ok(Command::Target));
}

#[test]
fn other_characters_are_no_commands() {
    assert_eq!(Command::try_from('a'), Err(SyntaxError::NotACommand));
    assert_eq!(Command::try_from(' '), Err(SyntaxError::NotACommand));
    assert_eq!(Command::try_from('\n'), Err(SyntaxError::NotACommand));
    assert_eq!(Command::try_from('é'), Err(SyntaxError::NotACommand));
}

#[test]
fn every_command_has_its_symbol() {
    let all = [
        (Command::IncremenentPointer, '>'),
        (Command::DecrementPointer, '<'),
        (Command::IncrementValue, '+'),
        (Command::DecrementValue, '-'),
        (Command::Print, '.'),
        (Command::Read, ','),
        (Command::Jump, '['),
        (Command::Target, ']'),
    ];
    for (command, symbol) in all {
        let c: char = command.into();
        assert_eq!(c, symbol);
        assert_eq!(char::from(command), symbol);
        assert_eq!(Command::try_from(symbol), Ok(command));
    }
}

#[test]
fn every_command_prints_as_its_symbol() {
    assert_eq!(Command::IncremenentPointer.to_string(), ">");
    assert_eq!(Command::DecrementPointer.to_string(), "<");
    assert_eq!(Command::IncrementValue.to_string(), "+");
    assert_eq!(Command::DecrementValue.to_string(), "-");
    assert_eq!(Command::Print.to_string(), ".");
    assert_eq!(Command::Read.to_string(), ",");
    assert_eq!(Command::Jump.to_string(), "[");
    assert_eq!(Command::Target.to_string(), "]");
}

#[test]
fn a_copy_is_equal_and_apart() {
    let tree = OptimizedCommand::parse("+[>[-]<-],.").unwrap();
    let copy = tree.clone();
    assert_eq!(copy, tree);
    assert_eq!(tree.duplicate(), tree);
    assert_eq!(copy.optimize(), tree.optimize());
}

#[test]
fn commands_pass_over_comments() {
    assert_eq!(
        commands("add one: + then print. [done]\n"),
        vec![
            Command::IncrementValue,
            Command::Print,
            Command::Jump,
            Command::Target,
        ]
    );
    assert_eq!(commands(""), vec![]);
    assert_eq!(commands("héllo wörld"), vec![]);
}

#[test]
fn fresh_engine_is_all_zero() {
    let engine = Engine::new(vec![1, 2], vec![9]);
    assert_eq!(engine.pointer(), 0);
    assert_eq!(engine.get(), 0);
    assert_eq!(engine.get_rel(-1000), 0);
    assert_eq!(engine.get_rel(i32::MAX), 0);
    assert_eq!(engine.output(), &vec![9]);
    assert!(engine.has_input());
}

#[test]
fn engine_moves_and_stores() {
    let mut engine = Engine::new(Vec::new(), Vec::new());
    engine.set(4);
    engine.move_tape(3);
    assert_eq!(engine.pointer(), 3);
    assert_eq!(engine.get(), 0);
    assert_eq!(engine.get_rel(-3), 4);
    engine.set_rel(8, -1);
    engine.move_tape(-1);
    assert_eq!(engine.get(), 8);
    engine.move_tape(-5);
    assert_eq!(engine.pointer(), -3);
    assert_eq!(engine.get_rel(3), 4);
    assert_eq!(engine.get_rel(5), 8);
}

#[test]
fn engine_addresses_wrap_around() {
    let mut engine = Engine::new(Vec::new(), Vec::new());
    engine.move_tape(i32::MAX);
    engine.set(1);
    engine.move_tape(1);
    assert_eq!(engine.pointer(), i32::MIN);
    assert_eq!(engine.get_rel(-1), 1);
    engine.set_rel(2, i32::MIN);
    engine.move_tape(i32::MIN);
    assert_eq!(engine.pointer(), 0);
    assert_eq!(engine.get(), 2);
}

#[test]
fn engine_reads_in_order_and_writes_in_order() {
    let mut engine = Engine::new(vec![7, 8], vec![1]);
    assert!(engine.has_input());
    assert_eq!(engine.read(), 7);
    assert!(engine.has_input());
    assert_eq!(engine.read(), 8);
    assert!(!engine.has_input());
    engine.write(2);
    engine.write(3);
    assert_eq!(engine.output(), &vec![1, 2, 3]);
}

#[test]
fn pairs_of_one_kind_are_summed() {
    assert_eq!(
        OptimizedCommand::AddValue(200).optimize_pair(OptimizedCommand::AddValue(100)),
        Some(OptimizedCommand::AddValue(44))
    );
    assert_eq!(
        OptimizedCommand::AddValue(1).optimize_pair(OptimizedCommand::AddValue(255)),
        Some(OptimizedCommand::AddValue(0))
    );
    assert_eq!(
        OptimizedCommand::MovePointer(-3).optimize_pair(OptimizedCommand::MovePointer(5)),
        Some(OptimizedCommand::MovePointer(2))
    );
    assert_eq!(
        OptimizedCommand::MovePointer(i32::MAX).optimize_pair(OptimizedCommand::MovePointer(1)),
        Some(OptimizedCommand::MovePointer(i32::MIN))
    );
}

#[test]
fn other_pairs_are_not_summed() {
    assert_eq!(
        OptimizedCommand::AddValue(1).optimize_pair(OptimizedCommand::MovePointer(1)),
        None
    );
    assert_eq!(
        OptimizedCommand::SetValue(1).optimize_pair(OptimizedCommand::AddValue(1)),
        None
    );
    assert_eq!(OptimizedCommand::Print.optimize_pair(OptimizedCommand::Print), None);
}

#[test]
fn zero_nodes_are_erased() {
    assert_eq!(OptimizedCommand::MovePointer(0).optimize(), None);
    assert_eq!(OptimizedCommand::AddValue(0).optimize(), None);
    assert_eq!(OptimizedCommand::List(vec![]).optimize(), None);
    assert_eq!(
        OptimizedCommand::SetValue(0).optimize(),
        Some(OptimizedCommand::SetValue(0))
    );
    assert_eq!(OptimizedCommand::AddTo(0).optimize(), Some(OptimizedCommand::AddTo(0)));
    assert_eq!(OptimizedCommand::Print.optimize(), Some(OptimizedCommand::Print));
    assert_eq!(OptimizedCommand::Read.optimize(), Some(OptimizedCommand::Read));
}

#[test]
fn neighbours_are_folded() {
    assert_eq!(
        OptimizedCommand::optimize_vec(vec![
            OptimizedCommand::AddValue(250),
            OptimizedCommand::AddValue(10),
            OptimizedCommand::MovePointer(2),
            OptimizedCommand::MovePointer(-5),
            OptimizedCommand::SetValue(3),
            OptimizedCommand::AddValue(254),
            OptimizedCommand::Print,
            OptimizedCommand::SetValue(9),
            OptimizedCommand::SetValue(8),
        ]),
        vec![
            OptimizedCommand::AddValue(4),
            OptimizedCommand::MovePointer(-3),
            OptimizedCommand::SetValue(1),
            OptimizedCommand::Print,
            OptimizedCommand::SetValue(8),
        ]
    );
}

#[test]
fn a_delta_is_not_folded_into_a_later_assignment() {
    assert_eq!(
        OptimizedCommand::optimize_vec(vec![
            OptimizedCommand::AddValue(1),
            OptimizedCommand::SetValue(5),
        ]),
        vec![OptimizedCommand::AddValue(1), OptimizedCommand::SetValue(5)]
    );
}

#[test]
fn zero_nodes_do_not_part_neighbours() {
    assert_eq!(
        OptimizedCommand::optimize_vec(vec![
            OptimizedCommand::AddValue(0),
            OptimizedCommand::AddValue(2),
            OptimizedCommand::MovePointer(0),
            OptimizedCommand::AddValue(3),
            OptimizedCommand::Print,
            OptimizedCommand::AddValue(0),
        ]),
        vec![OptimizedCommand::AddValue(5), OptimizedCommand::Print]
    );
}

#[test]
fn cancelled_deltas_leave_later_neighbours_apart() {
    assert_eq!(
        OptimizedCommand::optimize_vec(vec![
            OptimizedCommand::MovePointer(1),
            OptimizedCommand::AddValue(1),
            OptimizedCommand::AddValue(255),
            OptimizedCommand::MovePointer(1),
        ]),
        vec![OptimizedCommand::MovePointer(1), OptimizedCommand::MovePointer(1)]
    );
}

#[test]
fn lists_inside_lists_are_spliced_in() {
    let nested = OptimizedCommand::List(vec![
        OptimizedCommand::Print,
        OptimizedCommand::List(vec![OptimizedCommand::Read, OptimizedCommand::Print]),
        OptimizedCommand::List(vec![OptimizedCommand::Read]),
        OptimizedCommand::List(vec![]),
    ]);
    assert_eq!(
        nested.optimize(),
        Some(OptimizedCommand::List(vec![
            OptimizedCommand::Print,
            OptimizedCommand::Read,
            OptimizedCommand::Print,
            OptimizedCommand::Read,
        ]))
    );
}

#[test]
fn single_child_is_unwrapped() {
    assert_eq!(
        OptimizedCommand::List(vec![OptimizedCommand::Print]).optimize(),
        Some(OptimizedCommand::Print)
    );
    assert_eq!(
        OptimizedCommand::List(vec![
            OptimizedCommand::MovePointer(0),
            OptimizedCommand::List(vec![OptimizedCommand::Read]),
        ])
        .optimize(),
        Some(OptimizedCommand::Read)
    );
}

#[test]
fn loop_bodies_are_optimized_first() {
    assert_eq!(
        OptimizedCommand::optimize_jump(OptimizedCommand::List(vec![
            OptimizedCommand::AddValue(1),
            OptimizedCommand::AddValue(1),
        ])),
        Some(OptimizedCommand::Jump(Box::new(OptimizedCommand::AddValue(2))))
    );
    assert_eq!(
        OptimizedCommand::optimize_jump(OptimizedCommand::AddValue(255)),
        Some(OptimizedCommand::SetValue(0))
    );
    assert_eq!(
        OptimizedCommand::optimize_jump(OptimizedCommand::AddValue(1)),
        Some(OptimizedCommand::SetValue(0))
    );
    assert_eq!(OptimizedCommand::optimize_jump(OptimizedCommand::AddValue(0)), None);
    assert_eq!(
        OptimizedCommand::optimize_jump(OptimizedCommand::Print),
        Some(OptimizedCommand::Jump(Box::new(OptimizedCommand::Print)))
    );
}

#[test]
fn execute_reports_each_status() {
    let mut engine = Engine::new(vec![5], Vec::new());
    assert_eq!(OptimizedCommand::Read.execute(&mut engine, 0), Status::Finished);
    assert_eq!(engine.get(), 5);
    assert_eq!(OptimizedCommand::Read.execute(&mut engine, 0), Status::InputExhausted);
    assert_eq!(engine.get(), 5);
    let endless = OptimizedCommand::Jump(Box::new(OptimizedCommand::Print));
    assert_eq!(endless.execute(&mut engine, 2), Status::LimitReached);
    assert_eq!(engine.output(), &vec![5, 5]);
    assert_eq!(OptimizedCommand::SetValue(0).execute(&mut engine, 0), Status::Finished);
    assert_eq!(endless.execute(&mut engine, 0), Status::Finished);
}
