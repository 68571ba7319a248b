//! The concrete syntax tree: what the grammar makes of the source text.

use vstd::prelude::*;

verus! {

/// The labels of the grammar's rules. A node of the concrete syntax tree
/// carries the label of the rule that matched it.
#[allow(non_camel_case_types)]
#[derive(Clone, Copy, Debug, PartialEq, Eq, Structural, Hash)]
pub enum Rule {
    /// The end of the input: an empty node that closes a matched program.
    EOI,
    /// A whole program. It labels no node: matching it yields the
    /// program's functions, followed by the `EOI` node.
    program,
    function,
    /// The return type of a function.
    datatype,
    identifier,
    return_stmt,
    expression,
    term,
    factor,
    number,
    unary_operator,
    additive_operator,
}

/// A node of the concrete syntax tree.
#[derive(Debug, PartialEq, Eq)]
pub struct CstNode {
    /// The rule that matched.
    pub rule: Rule,
    /// The stretch of source text that the rule matched.
    pub text: String,
    /// The nodes matched inside that stretch, in source order.
    pub children: Vec<CstNode>,
}

/// The mathematical model of a `CstNode`.
pub struct Cst {
    pub rule: Rule,
    pub text: Seq<char>,
    pub children: Seq<Cst>,
}

/// The model of a node.
pub open spec fn cst_of(node: CstNode) -> Cst
    decreases node,
{
    Cst {
        rule: node.rule,
        text: node.text@,
        children: Seq::new(
            node.children.len() as nat,
            |i: int|
                if 0 <= i < node.children.len() {
                    cst_of(node.children[i])
                } else {
                    arbitrary()
                },
        ),
    }
}

impl View for CstNode {
    type V = Cst;

    open spec fn view(&self) -> Cst {
        cst_of(*self)
    }
}

impl Clone for CstNode {
    /// A copy with the same model.
    fn clone(&self) -> (res: Self)
        ensures
            res@ == self@,
        decreases self,
    {
        let mut copies: Vec<CstNode> = Vec::new();
        let mut i: usize = 0;
        while i < self.children.len()
            invariant
                i <= self.children.len(),
                copies.len() == i,
                forall|j: int| 0 <= j < i ==> copies[j]@ == self.children[j]@,
            decreases self.children.len() - i,
        {
            copies.push(self.children[i].clone());
            i = i + 1;
        }
        let res = CstNode { rule: self.rule, text: self.text.clone(), children: copies };
        assert(res@.children =~= self@.children);
        res
    }
}

/// The models of a run of nodes.
pub open spec fn cst_seq(nodes: Seq<CstNode>) -> Seq<Cst> {
    Seq::new(nodes.len(), |i: int| nodes[i]@)
}

impl CstNode {
    /// The children of a node's model are the models of its children.
    pub proof fn view_children(&self)
        ensures
            self@.children == cst_seq(self.children@),
            self@.rule == self.rule,
            self@.text == self.text@,
    {
        assert(self@.children =~= cst_seq(self.children@));
    }
}

} // verus!
