//! The tree builder: from a stream of commands to a nested tree.

use vstd::prelude::*;
use vstd::std_specs::iter::IteratorSpec;

use crate::command::{commands, commands_of, Command, SyntaxError};
use crate::tree::{lemma_list_model, views, OptimizedCommand, Tree};

verus! {

/// What reading one list off a command stream yields: the nodes of the
/// list, and the commands left behind it.
pub struct Parsed {
    pub nodes: Seq<Tree>,
    pub rest: Seq<Command>,
}

/// The node that a command other than a loop bracket turns into.
pub open spec fn unit(command: Command) -> Tree {
    match command {
        Command::IncremenentPointer => Tree::MovePointer(1),
        Command::DecrementPointer => Tree::MovePointer(-1i32),
        Command::IncrementValue => Tree::AddValue(1),
        Command::DecrementValue => Tree::AddValue(255),
        Command::Print => Tree::Print,
        _ => Tree::Read,
    }
}

/// The parse `after` with `nodes` put in front of its nodes.
pub open spec fn prefixed(nodes: Seq<Tree>, after: Option<Parsed>) -> Option<Parsed> {
    match after {
        Some(after) => Some(Parsed { nodes: nodes + after.nodes, rest: after.rest }),
        None => None,
    }
}

/// Reads one list off the front of `tokens`.
///
/// The list ends at the end of the stream, or at a loop end where `in_loop`
/// says that a loop is open; that loop end is consumed. A loop begin reads
/// the loop's body as a list of its own. `None` says that a loop end was met
/// where no loop is open.
pub open spec fn parsed(tokens: Seq<Command>, in_loop: bool) -> Option<Parsed>
    decreases tokens.len(),
{
    if tokens.len() == 0 {
        Some(Parsed { nodes: Seq::empty(), rest: tokens })
    } else {
        let tail = tokens.drop_first();
        match tokens.first() {
            Command::Target => if in_loop {
                Some(Parsed { nodes: Seq::empty(), rest: tail })
            } else {
                None
            },
            Command::Jump => match parsed(tail, true) {
                Some(body) if body.rest.len() <= tail.len() => prefixed(
                    seq![Tree::Jump(Box::new(Tree::List(body.nodes)))],
                    parsed(body.rest, in_loop),
                ),
                _ => None,
            },
            command => prefixed(seq![unit(command)], parsed(tail, in_loop)),
        }
    }
}

/// A list read off a stream leaves behind no more than the stream held.
pub proof fn lemma_parsed_rest(tokens: Seq<Command>, in_loop: bool)
    ensures
        parsed(tokens, in_loop) matches Some(p) ==> p.rest.len() <= tokens.len(),
    decreases tokens.len(),
{
    if tokens.len() > 0 {
        let tail = tokens.drop_first();
        match tokens.first() {
            Command::Target => {},
            Command::Jump => {
                lemma_parsed_rest(tail, true);
                if let Some(body) = parsed(tail, true) {
                    lemma_parsed_rest(body.rest, in_loop);
                }
            },
            _ => {
                lemma_parsed_rest(tail, in_loop);
            },
        }
    }
}

/// Whether a loop end in `tokens` comes when fewer than one loop is open,
/// `depth` loops being open at the start.
pub open spec fn closes_too_often(tokens: Seq<Command>, depth: nat) -> bool
    decreases tokens.len(),
{
    if tokens.len() == 0 {
        false
    } else {
        match tokens.first() {
            Command::Target => depth == 0 || closes_too_often(
                tokens.drop_first(),
                (depth - 1) as nat,
            ),
            Command::Jump => closes_too_often(tokens.drop_first(), depth + 1),
            _ => closes_too_often(tokens.drop_first(), depth),
        }
    }
}

/// Reading a loop's body stops behind the loop end that closes it: what
/// is left behind the body closes too often at one depth less exactly if
/// the whole stream does at the depth inside the loop.
pub proof fn lemma_parsed_body_depth(tokens: Seq<Command>, depth: nat)
    ensures
        parsed(tokens, true) is Some,
        closes_too_often(parsed(tokens, true)->0.rest, depth) == closes_too_often(
            tokens,
            depth + 1,
        ),
    decreases tokens.len(),
{
    if tokens.len() > 0 {
        let tail = tokens.drop_first();
        match tokens.first() {
            Command::Target => {},
            Command::Jump => {
                lemma_parsed_body_depth(tail, depth + 1);
                lemma_parsed_rest(tail, true);
                lemma_parsed_body_depth(parsed(tail, true)->0.rest, depth);
            },
            _ => {
                lemma_parsed_body_depth(tail, depth);
            },
        }
    }
}

/// A program is refused exactly if one of its loop ends comes when no loop
/// is open.
pub proof fn lemma_parsed_refused(tokens: Seq<Command>)
    ensures
        parsed(tokens, false) is None <==> closes_too_often(tokens, 0),
    decreases tokens.len(),
{
    if tokens.len() > 0 {
        let tail = tokens.drop_first();
        match tokens.first() {
            Command::Target => {},
            Command::Jump => {
                lemma_parsed_body_depth(tail, 0);
                lemma_parsed_rest(tail, true);
                lemma_parsed_refused(parsed(tail, true)->0.rest);
            },
            _ => {
                lemma_parsed_refused(tail);
            },
        }
    }
}

/// Reads one list of nodes off `it`, and says whether the stream was seen
/// to end while doing so.
fn read_list<I: Iterator<Item = Command>>(it: &mut I, in_loop: bool) -> (result: Result<
    (OptimizedCommand, bool),
    SyntaxError,
>)
    requires
        (*old(it)).obeys_prophetic_iter_laws(),
        (*old(it)).decrease() is Some,
    ensures
        (*final(it)).obeys_prophetic_iter_laws(),
        (*final(it)).decrease() is Some,
        match parsed((*old(it)).remaining(), in_loop) {
            Some(p) => {
                &&& result matches Ok((tree, ended)) && {
                    &&& tree@ == Tree::List(p.nodes)
                    &&& ended ==> p.rest.len() == 0
                    &&& !ended ==> (*final(it)).decrease()->0 < (*old(it)).decrease()->0
                }
                &&& (*final(it)).remaining() == p.rest
            },
            None => result == Err::<(OptimizedCommand, bool), SyntaxError>(
                SyntaxError::UnmatchedLoopEnd,
            ),
        },
    decreases (*old(it)).decrease()->0,
{
    let mut commands: Vec<OptimizedCommand> = Vec::new();
    assert forall|p: Option<Parsed>| #[trigger] prefixed(Seq::empty(), p) == p by {}
    loop
        invariant
            (*it).obeys_prophetic_iter_laws(),
            (*it).decrease() is Some,
            (*it).decrease()->0 <= (*old(it)).decrease()->0,
            parsed((*old(it)).remaining(), in_loop) == prefixed(
                views(commands@),
                parsed((*it).remaining(), in_loop),
            ),
        decreases (*it).decrease()->0,
    {
        let ghost before = views(commands@);
        proof {
            assert forall|tokens: Seq<Command>, open: bool|
                (#[trigger] parsed(tokens, open)) is Some implies parsed(
                    tokens,
                    open,
                )->0.rest.len() <= tokens.len() by {
                lemma_parsed_rest(tokens, open);
            }
            assert forall|a: Seq<Tree>, b: Seq<Tree>, c: Seq<Tree>| #[trigger]
                ((a + b) + c) == a + (b + c) by {}
            lemma_list_model(commands);
        }
        let node = match it.next() {
            None => {
                return Ok((OptimizedCommand::List(commands), true));
            },
            Some(Command::IncremenentPointer) => OptimizedCommand::MovePointer(1),
            Some(Command::DecrementPointer) => OptimizedCommand::MovePointer(-1),
            Some(Command::IncrementValue) => OptimizedCommand::AddValue(1),
            Some(Command::DecrementValue) => OptimizedCommand::AddValue(255),
            Some(Command::Print) => OptimizedCommand::Print,
            Some(Command::Read) => OptimizedCommand::Read,
            Some(Command::Jump) => {
                let (body, ended) = read_list(it, true)?;
                if ended {
                    commands.push(OptimizedCommand::Jump(Box::new(body)));
                    proof {
                        assert(views(commands@) =~= before + seq![
                            Tree::Jump(Box::new(body@)),
                        ]);
                        lemma_list_model(commands);
                    }
                    return Ok((OptimizedCommand::List(commands), true));
                }
                OptimizedCommand::Jump(Box::new(body))
            },
            Some(Command::Target) => {
                if in_loop {
                    return Ok((OptimizedCommand::List(commands), false));
                } else {
                    return Err(SyntaxError::UnmatchedLoopEnd);
                }
            },
        };
        commands.push(node);
        assert(views(commands@) =~= before + seq![node@]);
    }
}

impl OptimizedCommand {
    /// Reads one list of nodes off the command stream `it`, which must be
    /// one that comes to an end.
    ///
    /// With `in_loop` set, the list is a loop's body and ends behind the
    /// loop end that closes it, or at the end of the stream. With `in_loop`
    /// clear, the list is a whole program, and a loop end in it is an error.
    pub fn build<I: Iterator<Item = Command>>(it: &mut I, in_loop: bool) -> (result: Result<
        OptimizedCommand,
        SyntaxError,
    >)
        requires
            (*old(it)).obeys_prophetic_iter_laws(),
            (*old(it)).decrease() is Some,
        ensures
            (*final(it)).obeys_prophetic_iter_laws(),
            (*final(it)).decrease() is Some,
            match parsed((*old(it)).remaining(), in_loop) {
                Some(p) => {
                    &&& result matches Ok(tree) && tree@ == Tree::List(p.nodes)
                    &&& (*final(it)).remaining() == p.rest
                },
                None => result == Err::<OptimizedCommand, SyntaxError>(
                    SyntaxError::UnmatchedLoopEnd,
                ),
            },
    {
        match read_list(it, in_loop) {
            Ok((tree, _)) => Ok(tree),
            Err(error) => Err(error),
        }
    }

    /// Reads a whole program off a source text. Characters that are none of
    /// the eight symbols are passed over; a loop end without a loop to close
    /// is an error; a loop left open at the end of the text is closed there.
    pub fn parse(source: &str) -> (result: Result<OptimizedCommand, SyntaxError>)
        ensures
            match parsed(commands_of(source@), false) {
                Some(p) => result matches Ok(tree) && tree@ == Tree::List(p.nodes),
                None => result == Err::<OptimizedCommand, SyntaxError>(
                    SyntaxError::UnmatchedLoopEnd,
                ),
            },
    {
        let found = commands(source);
        let mut it = found.into_iter();
        OptimizedCommand::build(&mut it, false)
    }
}

} // verus!
