use vstd::prelude::*;
use crate::cic::term::{CicStm, CicTerm, Stm, Term};

verus! {

/// A node of an elaborated program: an expression to evaluate or a statement.
#[derive(Debug, PartialEq)]
pub enum ProgramNode {
    OfExp(CicTerm),
    OfStm(CicStm),
}

/// Mathematical model of a [`ProgramNode`].
pub enum Node {
    OfExp(Term),
    OfStm(Stm),
}

impl View for ProgramNode {
    type V = Node;

    open spec fn view(&self) -> Node {
        match self {
            ProgramNode::OfExp(e) => Node::OfExp(e@),
            ProgramNode::OfStm(s) => Node::OfStm(s@),
        }
    }
}

/// The nodes of an elaborated program, in execution order.
#[derive(Debug, PartialEq)]
pub struct Schedule {
    nodes: Vec<ProgramNode>,
}

impl View for Schedule {
    type V = Seq<Node>;

    closed spec fn view(&self) -> Seq<Node> {
        self.nodes@.map_values(|n: ProgramNode| n@)
    }
}

impl Schedule {
    /// The empty program.
    pub fn new() -> (r: Schedule)
        ensures
            r@ == Seq::<Node>::empty(),
    {
        let r = Schedule { nodes: Vec::new() };
        assert(r@ =~= Seq::<Node>::empty());
        r
    }

    /// The program made of the single statement `stm`.
    pub fn singleton_stm(stm: CicStm) -> (r: Schedule)
        ensures
            r@ == seq![Node::OfStm(stm@)],
    {
        let r = Schedule { nodes: vec![ProgramNode::OfStm(stm)] };
        assert(r@ =~= seq![Node::OfStm(stm@)]);
        r
    }

    /// Appends the expression `exp` to the program.
    pub fn add_expression(&mut self, exp: CicTerm)
        ensures
            final(self)@ == old(self)@.push(Node::OfExp(exp@)),
    {
        let ghost before = self.nodes@;
        self.nodes.push(ProgramNode::OfExp(exp));
        assert(self.nodes@.map_values(|n: ProgramNode| n@) =~= before.map_values(|n: ProgramNode| n@).push(Node::OfExp(exp@)));
    }

    /// Appends the nodes of `other` to the program, in order.
    pub fn extend(&mut self, other: Schedule)
        ensures
            final(self)@ == old(self)@ + other@,
    {
        let ghost before = self.nodes@;
        let mut more = other.nodes;
        self.nodes.append(&mut more);
        assert(self.nodes@.map_values(|n: ProgramNode| n@) =~= before.map_values(|n: ProgramNode| n@) + other@);
    }

    /// Number of nodes.
    pub fn len(&self) -> (r: usize)
        ensures
            r == self@.len(),
    {
        self.nodes.len()
    }

    /// The node at position `i`.
    pub fn get(&self, i: usize) -> (r: &ProgramNode)
        requires
            i < self@.len(),
        ensures
            r@ == self@[i as int],
    {
        &self.nodes[i]
    }

    /// The first node, taken out of the program, if any.
    pub fn take_first(self) -> (r: Option<ProgramNode>)
        ensures
            self@.len() == 0 ==> r is None,
            self@.len() > 0 ==> (r matches Some(n) && n@ == self@[0]),
    {
        let mut nodes = self.nodes;
        if nodes.len() == 0 {
            None
        } else {
            Some(nodes.remove(0))
        }
    }

    /// The first node, if any.
    pub fn peek_first(&self) -> (r: Option<&ProgramNode>)
        ensures
            self@.len() == 0 ==> r is None,
            self@.len() > 0 ==> (r matches Some(n) && n@ == self@[0]),
    {
        if self.nodes.len() == 0 {
            None
        } else {
            Some(&self.nodes[0])
        }
    }
}

} // verus!
