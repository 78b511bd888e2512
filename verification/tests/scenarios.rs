use brainrust::{commands, Command, Engine, OptimizedCommand, Status, SyntaxError};

fn parse(source: &str) -> OptimizedCommand {
    OptimizedCommand::parse(source).unwrap()
}

fn run(tree: &OptimizedCommand, input: &[u8]) -> (Status, Vec<u8>) {
    let mut engine = Engine::new(input.to_vec(), Vec::new());
    let status = tree.execute(&mut engine, u64::MAX);
    (status, engine.output().clone())
}

const HELLO: &str = "++++++++[>++++[>++>+++>+++>+<<<<-]>+>+>->>+[<]<-]>>.>---.+++++++..+++.>>.<-.<.+++.------.--------.>>+.>++.";

#[test]
fn three_increments_print_three() {
    let tree = parse("+++.");
    assert_eq!(run(&tree, &[]), (Status::Finished, vec![3]));
    let optimized = parse("+++.").optimize_twice().unwrap();
    assert_eq!(
        optimized,
        OptimizedCommand::List(vec![OptimizedCommand::AddValue(3), OptimizedCommand::Print])
    );
    assert_eq!(run(&optimized, &[]), (Status::Finished, vec![3]));
}

#[test]
fn read_then_print_echoes() {
    let tree = parse(",.");
    assert_eq!(run(&tree, &[0x41]), (Status::Finished, vec![0x41]));
    let optimized = parse(",.").optimize_twice().unwrap();
    assert_eq!(run(&optimized, &[0x41]), (Status::Finished, vec![0x41]));
}

#[test]
fn clear_loop_becomes_assignment() {
    let tree = parse("[-]");
    assert_eq!(
        tree,
        OptimizedCommand::List(vec![OptimizedCommand::Jump(Box::new(OptimizedCommand::List(
            vec![OptimizedCommand::AddValue(255)]
        )))])
    );
    let optimized = tree.optimize().unwrap();
    assert_eq!(optimized, OptimizedCommand::SetValue(0));
    let mut engine = Engine::new(Vec::new(), Vec::new());
    engine.set(7);
    // The limit allows no round at all: no loop is left to run.
    assert_eq!(optimized.execute(&mut engine, 0), Status::Finished);
    assert_eq!(engine.get(), 0);
}

#[test]
fn counting_up_loop_becomes_assignment() {
    assert_eq!(parse("[+]").optimize(), Some(OptimizedCommand::SetValue(0)));
    let mut engine = Engine::new(Vec::new(), Vec::new());
    engine.set(7);
    assert_eq!(parse("[+]").execute(&mut engine, 1000), Status::Finished);
    assert_eq!(engine.get(), 0);
}

#[test]
fn transfer_loop_becomes_add_to() {
    let optimized = parse("[->+<]").optimize().unwrap();
    assert_eq!(
        optimized,
        OptimizedCommand::List(vec![OptimizedCommand::AddTo(1), OptimizedCommand::SetValue(0)])
    );
    let mut engine = Engine::new(Vec::new(), Vec::new());
    engine.set(5);
    assert_eq!(optimized.execute(&mut engine, 0), Status::Finished);
    assert_eq!(engine.get(), 0);
    assert_eq!(engine.get_rel(1), 5);
    assert_eq!(engine.pointer(), 0);

    let mut plain = Engine::new(Vec::new(), Vec::new());
    plain.set(5);
    assert_eq!(parse("[->+<]").execute(&mut plain, 5), Status::Finished);
    assert_eq!(plain.get(), 0);
    assert_eq!(plain.get_rel(1), 5);
    assert_eq!(plain.pointer(), 0);
}

#[test]
fn transfer_adds_to_what_the_target_holds() {
    let optimized = parse("[-<<+>>]").optimize().unwrap();
    assert_eq!(
        optimized,
        OptimizedCommand::List(vec![OptimizedCommand::AddTo(-2), OptimizedCommand::SetValue(0)])
    );
    let mut engine = Engine::new(Vec::new(), Vec::new());
    engine.set(200);
    engine.set_rel(100, -2);
    assert_eq!(optimized.execute(&mut engine, 0), Status::Finished);
    assert_eq!(engine.get(), 0);
    assert_eq!(engine.get_rel(-2), 44);
}

#[test]
fn double_transfer_loop_becomes_two_add_tos() {
    let optimized = parse("[->+>+<<]").optimize().unwrap();
    assert_eq!(
        optimized,
        OptimizedCommand::List(vec![
            OptimizedCommand::AddTo(1),
            OptimizedCommand::AddTo(2),
            OptimizedCommand::SetValue(0),
        ])
    );
    let mut engine = Engine::new(Vec::new(), Vec::new());
    engine.set(9);
    engine.set_rel(1, 2);
    assert_eq!(optimized.execute(&mut engine, 0), Status::Finished);
    assert_eq!(engine.get(), 0);
    assert_eq!(engine.get_rel(1), 9);
    assert_eq!(engine.get_rel(2), 10);

    let mut plain = Engine::new(Vec::new(), Vec::new());
    plain.set(9);
    plain.set_rel(1, 2);
    assert_eq!(parse("[->+>+<<]").execute(&mut plain, 9), Status::Finished);
    assert_eq!(plain.get(), 0);
    assert_eq!(plain.get_rel(1), 9);
    assert_eq!(plain.get_rel(2), 10);
}

#[test]
fn transfer_that_does_not_return_stays_a_loop() {
    let optimized = parse("[->+<<]").optimize().unwrap();
    assert_eq!(
        optimized,
        OptimizedCommand::Jump(Box::new(OptimizedCommand::List(vec![
            OptimizedCommand::AddValue(255),
            OptimizedCommand::MovePointer(1),
            OptimizedCommand::AddValue(1),
            OptimizedCommand::MovePointer(-2),
        ])))
    );
}

#[test]
fn scan_loop_is_kept() {
    let optimized = parse("[>]").optimize_twice().unwrap();
    assert_eq!(
        optimized,
        OptimizedCommand::Jump(Box::new(OptimizedCommand::MovePointer(1)))
    );
    let mut engine = Engine::new(Vec::new(), Vec::new());
    engine.set(1);
    engine.set_rel(1, 1);
    engine.set_rel(1, 2);
    assert_eq!(optimized.execute(&mut engine, 10), Status::Finished);
    assert_eq!(engine.pointer(), 3);
    assert_eq!(engine.get(), 0);
}

#[test]
fn unmatched_loop_end_is_refused() {
    assert_eq!(OptimizedCommand::parse("]"), Err(SyntaxError::UnmatchedLoopEnd));
    assert_eq!(OptimizedCommand::parse("+[-]]+"), Err(SyntaxError::UnmatchedLoopEnd));
    let mut it = vec![Command::Target].into_iter();
    assert_eq!(
        OptimizedCommand::build(&mut it, false),
        Err(SyntaxError::UnmatchedLoopEnd)
    );
}

#[test]
fn loop_end_is_refused_only_where_no_loop_is_open() {
    assert_eq!(OptimizedCommand::parse("]["), Err(SyntaxError::UnmatchedLoopEnd));
    assert_eq!(OptimizedCommand::parse("[]]"), Err(SyntaxError::UnmatchedLoopEnd));
    assert_eq!(OptimizedCommand::parse("[[]]]["), Err(SyntaxError::UnmatchedLoopEnd));
    assert_eq!(OptimizedCommand::parse("a ] b"), Err(SyntaxError::UnmatchedLoopEnd));
    assert!(OptimizedCommand::parse("[[]][]").is_ok());
    assert!(OptimizedCommand::parse("[[][").is_ok());
    assert!(OptimizedCommand::parse("").is_ok());
    let mut it = vec![Command::Target, Command::Target].into_iter();
    assert_eq!(
        OptimizedCommand::build(&mut it, true),
        Ok(OptimizedCommand::List(vec![]))
    );
    assert_eq!(it.next(), Some(Command::Target));
}

#[test]
fn open_loop_is_closed_at_the_end() {
    assert_eq!(
        OptimizedCommand::parse("+[-"),
        Ok(OptimizedCommand::List(vec![
            OptimizedCommand::AddValue(1),
            OptimizedCommand::Jump(Box::new(OptimizedCommand::List(vec![
                OptimizedCommand::AddValue(255)
            ]))),
        ]))
    );
    assert_eq!(
        OptimizedCommand::parse("[["),
        Ok(OptimizedCommand::List(vec![OptimizedCommand::Jump(Box::new(
            OptimizedCommand::List(vec![OptimizedCommand::Jump(Box::new(
                OptimizedCommand::List(vec![])
            ))])
        ))]))
    );
}

#[test]
fn build_stops_behind_the_loop_end() {
    let mut it = vec![
        Command::IncrementValue,
        Command::Target,
        Command::Print,
    ]
    .into_iter();
    assert_eq!(
        OptimizedCommand::build(&mut it, true),
        Ok(OptimizedCommand::List(vec![OptimizedCommand::AddValue(1)]))
    );
    assert_eq!(it.next(), Some(Command::Print));
}

#[test]
fn build_maps_every_command() {
    let mut it = commands("><+-.,[]").into_iter();
    assert_eq!(
        OptimizedCommand::build(&mut it, false),
        Ok(OptimizedCommand::List(vec![
            OptimizedCommand::MovePointer(1),
            OptimizedCommand::MovePointer(-1),
            OptimizedCommand::AddValue(1),
            OptimizedCommand::AddValue(255),
            OptimizedCommand::Print,
            OptimizedCommand::Read,
            OptimizedCommand::Jump(Box::new(OptimizedCommand::List(vec![]))),
        ]))
    );
}

#[test]
fn empty_program_optimizes_to_nothing() {
    assert_eq!(parse("").optimize(), None);
    assert_eq!(parse("+-").optimize(), None);
    assert_eq!(parse("[]").optimize(), None);
    assert_eq!(parse("[[]]").optimize_twice(), None);
    assert_eq!(parse("[+-]").optimize(), None);
}

#[test]
fn hello_world_runs_alike_before_and_after() {
    let expected = b"Hello World!\n".to_vec();
    assert_eq!(run(&parse(HELLO), &[]), (Status::Finished, expected.clone()));
    let once = parse(HELLO).optimize().unwrap();
    assert_eq!(run(&once, &[]), (Status::Finished, expected.clone()));
    let twice = parse(HELLO).optimize_twice().unwrap();
    assert_eq!(run(&twice, &[]), (Status::Finished, expected));
}

#[test]
fn programs_run_alike_before_and_after() {
    let cases: Vec<(&str, Vec<u8>)> = vec![
        (",[.,]", vec![1, 2, 3, 0]),
        (",>,<[->+<]>.", vec![20, 22]),
        (",[->+>++<<]>.>.", vec![100]),
        ("+++[>+++[>+<-]<-]>>.", vec![]),
        (",[-]+.", vec![9]),
        ("[>+-<-]+.", vec![]),
        (",>,<[->>+<<]>[->+<]>.", vec![250, 10]),
        ("-.+.+.", vec![]),
        (",.,.,.", vec![1, 2]),
        ("++>+<[[-]>[-]<]>.<.", vec![]),
    ];
    for (source, input) in cases {
        let plain = run(&parse(source), &input);
        let twice = parse(source).optimize_twice().unwrap();
        assert_eq!(run(&twice, &input), plain, "{}", source);
    }
}

fn tidy(tree: &OptimizedCommand, in_list: bool) -> bool {
    match tree {
        OptimizedCommand::MovePointer(d) => *d != 0,
        OptimizedCommand::AddValue(d) => *d != 0,
        OptimizedCommand::List(v) => !in_list && v.len() >= 2 && v.iter().all(|c| tidy(c, true)),
        OptimizedCommand::Jump(b) => tidy(b, false),
        _ => true,
    }
}

#[test]
fn optimized_trees_are_tidy() {
    let sources = [
        HELLO,
        "+-[-]>><<[->+<]+-",
        "[[[-]]]",
        "+[>+-<-]+",
        "[->+>+<<]>[-<+>]",
        ">+<-[,.[-]]",
    ];
    for source in sources {
        let once = parse(source).optimize().unwrap();
        assert!(tidy(&once, false), "{}", source);
        let twice = parse(source).optimize_twice().unwrap();
        assert!(tidy(&twice, false), "{}", source);
    }
    let nested = OptimizedCommand::List(vec![
        OptimizedCommand::List(vec![
            OptimizedCommand::List(vec![OptimizedCommand::Print, OptimizedCommand::Read]),
            OptimizedCommand::MovePointer(0),
        ]),
        OptimizedCommand::Jump(Box::new(OptimizedCommand::List(vec![OptimizedCommand::List(
            vec![OptimizedCommand::AddValue(2)],
        )]))),
    ]);
    assert_eq!(
        nested.optimize(),
        Some(OptimizedCommand::List(vec![
            OptimizedCommand::Print,
            OptimizedCommand::Read,
            OptimizedCommand::Jump(Box::new(OptimizedCommand::AddValue(2))),
        ]))
    );
}

#[test]
fn third_pass_leaves_hello_world_alone() {
    let twice = parse(HELLO).optimize_twice().unwrap();
    let thrice = parse(HELLO).optimize_twice().unwrap().optimize();
    assert_eq!(thrice, Some(twice));
}

#[test]
fn second_pass_folds_what_the_first_uncovered() {
    let once = parse("[-]+").optimize().unwrap();
    assert_eq!(
        once,
        OptimizedCommand::List(vec![OptimizedCommand::SetValue(0), OptimizedCommand::AddValue(1)])
    );
    assert_eq!(once.optimize(), Some(OptimizedCommand::SetValue(1)));
}

#[test]
fn third_pass_can_still_fold() {
    let twice = parse("[>+-<-]+").optimize_twice().unwrap();
    assert_eq!(
        twice,
        OptimizedCommand::List(vec![OptimizedCommand::SetValue(0), OptimizedCommand::AddValue(1)])
    );
    assert_eq!(twice.optimize(), Some(OptimizedCommand::SetValue(1)));
}

#[test]
fn deltas_wrap_around() {
    let mut engine = Engine::new(Vec::new(), Vec::new());
    assert_eq!(OptimizedCommand::AddValue(255).execute(&mut engine, 0), Status::Finished);
    assert_eq!(engine.get(), 255);
    assert_eq!(OptimizedCommand::AddValue(1).execute(&mut engine, 0), Status::Finished);
    assert_eq!(engine.get(), 0);
    engine.set(10);
    OptimizedCommand::AddValue(255).execute(&mut engine, 0);
    assert_eq!(engine.get(), 9);
    engine.set(200);
    engine.set_rel(100, 3);
    OptimizedCommand::AddTo(3).execute(&mut engine, 0);
    assert_eq!(engine.get_rel(3), 44);
    assert_eq!(engine.get(), 200);
}

#[test]
fn input_exhausted_stops_the_run() {
    let tree = parse("+.,.");
    let (status, output) = run(&tree, &[]);
    assert_eq!(status, Status::InputExhausted);
    assert_eq!(output, vec![1]);
}

#[test]
fn limit_stops_an_endless_loop() {
    let tree = parse("+[.]");
    let mut engine = Engine::new(Vec::new(), Vec::new());
    assert_eq!(tree.execute(&mut engine, 3), Status::LimitReached);
    assert_eq!(engine.output(), &vec![1, 1, 1]);
}

#[test]
fn limit_counts_rounds_of_each_activation() {
    let tree = parse("++[>+++[-]<-]");
    let mut engine = Engine::new(Vec::new(), Vec::new());
    assert_eq!(tree.execute(&mut engine, 3), Status::Finished);
    let mut engine = Engine::new(Vec::new(), Vec::new());
    assert_eq!(tree.execute(&mut engine, 2), Status::LimitReached);
}

#[test]
fn erased_empty_loop_lets_the_program_go_on() {
    let plain = parse("+[].");
    let mut engine = Engine::new(Vec::new(), Vec::new());
    assert_eq!(plain.execute(&mut engine, 1000), Status::LimitReached);
    assert_eq!(engine.output(), &Vec::<u8>::new());
    let twice = parse("+[].").optimize_twice().unwrap();
    assert_eq!(
        twice,
        OptimizedCommand::List(vec![OptimizedCommand::AddValue(1), OptimizedCommand::Print])
    );
    assert_eq!(run(&twice, &[]), (Status::Finished, vec![1]));
}

fn next_random(seed: &mut u64) -> u64 {
    *seed = seed
        .wrapping_mul(6364136223846793005)
        .wrapping_add(1442695040888963407);
    *seed >> 33
}

fn random_source(seed: &mut u64) -> String {
    let length = next_random(seed) % 24;
    let mut source = String::new();
    let mut depth = 0;
    for _ in 0..length {
        let symbol = match next_random(seed) % 12 {
            0 | 1 => '+',
            2 | 3 => '-',
            4 => '>',
            5 => '<',
            6 | 7 => '.',
            8 => ',',
            9 | 10 => {
                if depth < 2 {
                    depth += 1;
                    '['
                } else {
                    '+'
                }
            }
            _ => {
                if depth > 0 {
                    depth -= 1;
                    ']'
                } else {
                    '-'
                }
            }
        };
        source.push(symbol);
    }
    source
}

#[test]
fn generated_programs_run_alike_before_and_after() {
    let mut seed = 2024;
    let limit = 100;
    for _ in 0..300 {
        let source = random_source(&mut seed);
        let input: Vec<u8> = (0..next_random(&mut seed) % 4)
            .map(|_| (next_random(&mut seed) % 6) as u8)
            .collect();
        let mut plain = Engine::new(input.clone(), Vec::new());
        let status = parse(&source).execute(&mut plain, limit);
        let mut better = Engine::new(input.clone(), Vec::new());
        let other = match parse(&source).optimize_twice() {
            Some(twice) => twice.execute(&mut better, limit),
            None => Status::Finished,
        };
        if status == Status::LimitReached {
            assert!(better.output().starts_with(plain.output()), "{}", source);
        } else {
            assert_eq!(other, status, "{}", source);
            assert_eq!(better.output(), plain.output(), "{}", source);
            assert_eq!(better.pointer(), plain.pointer(), "{}", source);
            for offset in -30..30 {
                assert_eq!(better.get_rel(offset), plain.get_rel(offset), "{}", source);
            }
        }
    }
}

#[test]
fn generated_programs_are_normal_after_enough_passes() {
    let mut seed = 7;
    for _ in 0..300 {
        let source = random_source(&mut seed);
        let mut tree = parse(&source).optimize_twice();
        for _ in 0..source.len() {
            tree = tree.and_then(OptimizedCommand::optimize);
        }
        let again = tree.clone().and_then(OptimizedCommand::optimize);
        assert_eq!(again, tree, "{}", source);
        if let Some(tree) = tree {
            assert!(tidy(&tree, false), "{}", source);
        }
    }
}
