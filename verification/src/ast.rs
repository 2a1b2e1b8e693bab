//! The abstract syntax tree of the source language.
//!
//! A closed set of node kinds: one primitive solid (a truncated cylinder),
//! three composite groups that own a child block, the block itself (an
//! ordered sequence of nodes), and an explicit `Unknown` sentinel for every
//! construct the builder does not recognize, which the code generator drops.

use vstd::prelude::*;

use crate::decimal::Decimal;
use crate::decimal::DecimalS;
use crate::decimal::dec_wf;

verus! {

/// One node of the abstract syntax tree.
pub enum ASTNode {
    /// A truncated cylinder: height, base radius, top radius, and whether the
    /// solid is centered on its local Z axis.
    Cylinder { h: Decimal, r1: Decimal, r2: Decimal, center: bool },
    /// A boolean subtraction group; the child is structurally a `Block`.
    Difference { block: Box<ASTNode> },
    /// A boolean union group; the child is structurally a `Block`.
    Group { block: Box<ASTNode> },
    /// A 4x4 transform (row-major) applied to a child union group.
    MultMatrix { matrix: Vec<Vec<Decimal>>, block: Box<ASTNode> },
    /// An ordered sequence of nodes: a lexical scope.
    Block { statements: Vec<ASTNode> },
    /// An unrecognized construct, kept in the tree and dropped on generation.
    Unknown,
}

/// The mathematical view of an [`ASTNode`].
pub enum AstS {
    Cylinder { h: DecimalS, r1: DecimalS, r2: DecimalS, center: bool },
    Difference { block: Box<AstS> },
    Group { block: Box<AstS> },
    MultMatrix { matrix: Seq<Seq<DecimalS>>, block: Box<AstS> },
    Block { statements: Seq<AstS> },
    Unknown,
}

/// The view of one matrix row.
pub open spec fn view_row(r: Seq<Decimal>) -> Seq<DecimalS> {
    r.map(|i: int, d: Decimal| d@)
}

/// The view of a matrix, row by row.
pub open spec fn view_matrix(m: Seq<Vec<Decimal>>) -> Seq<Seq<DecimalS>> {
    m.map(|i: int, row: Vec<Decimal>| view_row(row@))
}

/// The view of one AST node.
pub open spec fn ast_view(n: ASTNode) -> AstS
    decreases n,
{
    match n {
        ASTNode::Cylinder { h, r1, r2, center } => AstS::Cylinder {
            h: h@,
            r1: r1@,
            r2: r2@,
            center,
        },
        ASTNode::Difference { block } => AstS::Difference { block: Box::new(ast_view(*block)) },
        ASTNode::Group { block } => AstS::Group { block: Box::new(ast_view(*block)) },
        ASTNode::MultMatrix { matrix, block } => AstS::MultMatrix {
            matrix: view_matrix(matrix@),
            block: Box::new(ast_view(*block)),
        },
        ASTNode::Block { statements } => AstS::Block { statements: asts_view(statements@) },
        ASTNode::Unknown => AstS::Unknown,
    }
}

/// The views of a sequence of AST nodes, in order.
pub open spec fn asts_view(s: Seq<ASTNode>) -> Seq<AstS>
    decreases s,
{
    if s.len() == 0 {
        Seq::empty()
    } else {
        asts_view(s.drop_last()).push(ast_view(s.last()))
    }
}

impl View for ASTNode {
    type V = AstS;

    open spec fn view(&self) -> AstS {
        ast_view(*self)
    }
}

pub broadcast proof fn lemma_asts_view_len(s: Seq<ASTNode>)
    ensures
        #[trigger] asts_view(s).len() == s.len(),
    decreases s,
{
    if s.len() > 0 {
        lemma_asts_view_len(s.drop_last());
    }
}

pub broadcast proof fn lemma_asts_view_index(s: Seq<ASTNode>, i: int)
    requires
        0 <= i < s.len(),
    ensures
        #[trigger] asts_view(s)[i] == ast_view(s[i]),
    decreases s,
{
    lemma_asts_view_len(s);
    if i == s.len() - 1 {
    } else {
        lemma_asts_view_index(s.drop_last(), i);
    }
}

/// Well-formedness of a matrix: every entry is a well-formed decimal.
pub open spec fn matrix_wf(m: Seq<Seq<DecimalS>>) -> bool {
    forall|i: int, j: int|
        0 <= i < m.len() && 0 <= j < m[i].len() ==> dec_wf(#[trigger] m[i][j])
}

/// Well-formedness of an AST node: every decimal in it is well formed.
pub open spec fn ast_wf(n: AstS) -> bool
    decreases n,
{
    match n {
        AstS::Cylinder { h, r1, r2, center } => dec_wf(h) && dec_wf(r1) && dec_wf(r2),
        AstS::Difference { block } => ast_wf(*block),
        AstS::Group { block } => ast_wf(*block),
        AstS::MultMatrix { matrix, block } => matrix_wf(matrix) && ast_wf(*block),
        AstS::Block { statements } => asts_wf(statements),
        AstS::Unknown => true,
    }
}

/// Well-formedness of a sequence of AST nodes.
pub open spec fn asts_wf(s: Seq<AstS>) -> bool
    decreases s,
{
    forall|i: int| 0 <= i < s.len() ==> ast_wf(#[trigger] s[i])
}

/// How many primitive solids generation of `n` will name.
pub open spec fn solids_of(n: AstS) -> nat
    decreases n,
{
    match n {
        AstS::Cylinder { .. } => 1,
        AstS::Difference { block } => match *block {
            AstS::Block { statements } => solids_of_seq(statements),
            _ => 0,
        },
        AstS::Group { block } => match *block {
            AstS::Block { statements } => solids_of_seq(statements),
            _ => 0,
        },
        AstS::MultMatrix { block, .. } => match *block {
            AstS::Block { statements } => solids_of_seq(statements),
            _ => 0,
        },
        _ => 0,
    }
}

/// How many primitive solids generation of the statements `s` will name.
pub open spec fn solids_of_seq(s: Seq<AstS>) -> nat
    decreases s,
{
    if s.len() == 0 {
        0
    } else {
        solids_of_seq(s.drop_last()) + solids_of(s.last())
    }
}

/// How many combinations generation of `n` will name.
pub open spec fn combs_of(n: AstS) -> nat
    decreases n,
{
    match n {
        AstS::Difference { block } => match *block {
            AstS::Block { statements } => 1 + combs_of_seq(statements),
            _ => 0,
        },
        AstS::Group { block } => match *block {
            AstS::Block { statements } => 1 + combs_of_seq(statements),
            _ => 0,
        },
        AstS::MultMatrix { block, .. } => match *block {
            AstS::Block { statements } => 1 + combs_of_seq(statements),
            _ => 0,
        },
        _ => 0,
    }
}

/// How many combinations generation of the statements `s` will name.
pub open spec fn combs_of_seq(s: Seq<AstS>) -> nat
    decreases s,
{
    if s.len() == 0 {
        0
    } else {
        combs_of_seq(s.drop_last()) + combs_of(s.last())
    }
}

} // verus!
