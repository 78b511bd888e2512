//! The instruction tree and its mathematical model.

use vstd::prelude::*;

verus! {

/// The mathematical model of an instruction tree.
pub enum Tree {
    /// Displace the pointer by a signed amount.
    MovePointer(i32),
    /// Add a delta to the current cell, modulo 256.
    AddValue(u8),
    /// Overwrite the current cell.
    SetValue(u8),
    /// Emit the current cell.
    Print,
    /// Overwrite the current cell with one byte of input.
    Read,
    /// Run the children in order.
    List(Seq<Tree>),
    /// Repeat the body while the current cell is not zero.
    Jump(Box<Tree>),
    /// Add the current cell to the cell at the given offset.
    AddTo(i32),
}

/// One node of an instruction tree.
#[derive(Debug, PartialEq, Eq)]
pub enum OptimizedCommand {
    MovePointer(i32),
    AddValue(u8),
    SetValue(u8),
    Print,
    Read,
    List(Vec<OptimizedCommand>),
    Jump(Box<OptimizedCommand>),
    AddTo(i32),
}

/// The model of a node: the same tree, with each child list as a sequence.
pub open spec fn model(c: OptimizedCommand) -> Tree
    decreases c,
{
    match c {
        OptimizedCommand::MovePointer(d) => Tree::MovePointer(d),
        OptimizedCommand::AddValue(d) => Tree::AddValue(d),
        OptimizedCommand::SetValue(v) => Tree::SetValue(v),
        OptimizedCommand::Print => Tree::Print,
        OptimizedCommand::Read => Tree::Read,
        OptimizedCommand::List(v) => Tree::List(
            Seq::new(
                v@.len(),
                |i: int|
                    if 0 <= i < v@.len() {
                        model(v@[i])
                    } else {
                        Tree::Print
                    },
            ),
        ),
        OptimizedCommand::Jump(b) => Tree::Jump(Box::new(model(*b))),
        OptimizedCommand::AddTo(d) => Tree::AddTo(d),
    }
}

impl View for OptimizedCommand {
    type V = Tree;

    open spec fn view(&self) -> Tree {
        model(*self)
    }
}

/// The models of a sequence of nodes, in order.
pub open spec fn views(v: Seq<OptimizedCommand>) -> Seq<Tree> {
    Seq::new(v.len(), |i: int| v[i]@)
}

/// The model of an optional node.
pub open spec fn option_model(c: Option<OptimizedCommand>) -> Option<Tree> {
    match c {
        Some(c) => Some(c@),
        None => None,
    }
}

/// The model of a list node is the list of its children's models.
pub proof fn lemma_list_model(v: Vec<OptimizedCommand>)
    ensures
        OptimizedCommand::List(v)@ == Tree::List(views(v@)),
{
    assert(OptimizedCommand::List(v)@->List_0 =~= views(v@));
}

impl OptimizedCommand {
    /// A copy of the tree.
    #[verifier::loop_isolation(false)]
    pub fn duplicate(&self) -> (copy: OptimizedCommand)
        ensures
            copy@ == self@,
        decreases self,
    {
        match self {
            OptimizedCommand::MovePointer(d) => OptimizedCommand::MovePointer(*d),
            OptimizedCommand::AddValue(d) => OptimizedCommand::AddValue(*d),
            OptimizedCommand::SetValue(v) => OptimizedCommand::SetValue(*v),
            OptimizedCommand::Print => OptimizedCommand::Print,
            OptimizedCommand::Read => OptimizedCommand::Read,
            OptimizedCommand::List(v) => {
                let mut children: Vec<OptimizedCommand> = Vec::new();
                let mut i: usize = 0;
                while i < v.len()
                    invariant
                        i <= v.len(),
                        children.len() == i,
                        forall|k: int| 0 <= k < i ==> children@[k]@ == v@[k]@,
                    decreases v.len() - i,
                {
                    children.push(v[i].duplicate());
                    i = i + 1;
                }
                proof {
                    lemma_list_model(children);
                    lemma_list_model(*v);
                    assert(views(children@) =~= views(v@));
                }
                OptimizedCommand::List(children)
            },
            OptimizedCommand::Jump(b) => OptimizedCommand::Jump(Box::new(b.duplicate())),
            OptimizedCommand::AddTo(d) => OptimizedCommand::AddTo(*d),
        }
    }
}

impl Clone for OptimizedCommand {
    fn clone(&self) -> (copy: Self)
        ensures
            copy@ == self@,
    {
        self.duplicate()
    }
}

/// The number of nodes in a tree.
pub open spec fn size(t: Tree) -> nat
    decreases t,
{
    match t {
        Tree::List(ts) => 1 + total_size(ts),
        Tree::Jump(b) => 1 + size(*b),
        _ => 1,
    }
}

/// The number of nodes in a sequence of trees.
pub open spec fn total_size(ts: Seq<Tree>) -> nat
    decreases ts,
{
    if ts.len() == 0 {
        0
    } else {
        size(ts.first()) + total_size(ts.drop_first())
    }
}

/// Every tree has at least one node.
pub proof fn lemma_size_positive(t: Tree)
    ensures
        size(t) >= 1,
{
}

/// The size of two sequences joined is the sum of their sizes.
pub proof fn lemma_total_size_append(a: Seq<Tree>, b: Seq<Tree>)
    ensures
        total_size(a + b) == total_size(a) + total_size(b),
    decreases a.len(),
{
    if a.len() > 0 {
        assert((a + b).drop_first() =~= a.drop_first() + b);
        lemma_total_size_append(a.drop_first(), b);
    }
}

/// A sequence has at least one node for each of its trees, and exactly
/// that many where every tree is a single node.
pub proof fn lemma_total_size_bounds(ts: Seq<Tree>)
    ensures
        total_size(ts) >= ts.len(),
        (forall|i: int| 0 <= i < ts.len() ==> size(#[trigger] ts[i]) == 1) ==> total_size(ts)
            == ts.len(),
    decreases ts.len(),
{
    if ts.len() > 0 {
        lemma_total_size_bounds(ts.drop_first());
        lemma_size_positive(ts.first());
        if forall|i: int| 0 <= i < ts.len() ==> size(#[trigger] ts[i]) == 1 {
            assert forall|i: int| 0 <= i < ts.drop_first().len() implies size(
                #[trigger] ts.drop_first()[i],
            ) == 1 by {}
        }
    }
}

/// The size of a sequence of one tree is the size of that tree.
pub proof fn lemma_total_size_single(t: Tree)
    ensures
        total_size(seq![t]) == size(t),
{
    let ts = seq![t];
    assert(total_size(ts.drop_first()) == 0);
}

} // verus!
