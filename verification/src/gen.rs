//! The code generator.
//!
//! It walks a sequence of AST statements depth first while threading two
//! counters — one for primitive solids, one for combinations — and emits the
//! target script: one `in <name> trc ...` statement per cylinder, one
//! `comb <name> ...` statement per scope listing its children joined by the
//! scope's boolean combinator, and one `arced .../... matrix rmul ...`
//! statement per transform, placed after the combination statement of the
//! scope that owns the transformed child.
//!
//! Every statement form is defined below as a spec-level byte sequence, and
//! the executable generator is proved to return exactly those bytes.

use vstd::prelude::*;

use crate::CsgError;
use crate::ast::ASTNode;
use crate::ast::AstS;
use crate::ast::asts_view;
use crate::ast::asts_wf;
use crate::ast::ast_wf;
use crate::ast::ast_view;
use crate::ast::matrix_wf;
use crate::ast::view_matrix;
use crate::ast::view_row;
use crate::ast::solids_of;
use crate::ast::solids_of_seq;
use crate::ast::combs_of;
use crate::ast::combs_of_seq;
use crate::ast::lemma_asts_view_len;
use crate::ast::lemma_asts_view_index;
use crate::decimal::Decimal;
use crate::decimal::DecimalS;
use crate::decimal::dec_bytes;
use crate::decimal::dec_wf;
use crate::decimal::half;
use crate::decimal::nat_dec;
use crate::decimal::neg_of;
use crate::decimal::push_bytes;
use crate::decimal::push_decimal;
use crate::decimal::push_u64;
use crate::decimal::spec_half;
use crate::decimal::spec_neg;

verus! {

broadcast use lemma_asts_view_len, lemma_asts_view_index;

/// The boolean combinator a scope combines its children with.
#[derive(Clone, Copy)]
pub enum CSGOperation {
    Union,
    Difference,
    Intersection,
}

/// The name of primitive solid number `n`: `cylinder<n>.s`.
pub open spec fn cyl_name(n: nat) -> Seq<u8> {
    seq![99u8, 121, 108, 105, 110, 100, 101, 114] + nat_dec(n) + seq![46u8, 115]
}

/// The name of combination number `n`: `comb<n>.c`.
pub open spec fn comb_name(n: nat) -> Seq<u8> {
    seq![99u8, 111, 109, 98] + nat_dec(n) + seq![46u8, 99]
}

/// The z-offset field of a primitive statement: `-h / 2` when the cylinder is
/// centered, `0` otherwise.
pub open spec fn z_bytes(h: DecimalS, center: bool) -> Seq<u8> {
    if center {
        dec_bytes(spec_half(spec_neg(h)))
    } else {
        seq![48u8]
    }
}

/// A primitive statement: `in cylinder<n>.s trc 0 0 <z> 0 0 <h> <r1> <r2>`.
pub open spec fn prim_line(n: nat, h: DecimalS, r1: DecimalS, r2: DecimalS, center: bool) -> Seq<
    u8,
> {
    seq![105u8, 110, 32] + cyl_name(n) + seq![32u8, 116, 114, 99, 32, 48, 32, 48, 32] + z_bytes(
        h,
        center,
    ) + seq![32u8, 48, 32, 48, 32] + dec_bytes(h) + seq![32u8] + dec_bytes(r1) + seq![32u8]
        + dec_bytes(r2) + seq![10u8]
}

/// One matrix row, flattened: a space before every scalar.
pub open spec fn row_bytes(r: Seq<DecimalS>) -> Seq<u8>
    decreases r,
{
    if r.len() == 0 {
        Seq::empty()
    } else {
        row_bytes(r.drop_last()) + seq![32u8] + dec_bytes(r.last())
    }
}

/// A matrix, flattened row-major.
pub open spec fn matrix_bytes(m: Seq<Seq<DecimalS>>) -> Seq<u8>
    decreases m,
{
    if m.len() == 0 {
        Seq::empty()
    } else {
        matrix_bytes(m.drop_last()) + row_bytes(m.last())
    }
}

/// A transform statement: `arced comb<p>.c/comb<c>.c matrix rmul <scalars>`.
pub open spec fn arced_line(parent: nat, child: nat, m: Seq<Seq<DecimalS>>) -> Seq<u8> {
    seq![97u8, 114, 99, 101, 100, 32] + comb_name(parent) + seq![47u8] + comb_name(child) + seq![
        32u8,
        109,
        97,
        116,
        114,
        105,
        120,
        32,
        114,
        109,
        117,
        108,
    ] + matrix_bytes(m) + seq![10u8]
}

/// The operator and name of one child in a combination statement: union puts
/// `u` before every child; difference puts `u` before the first child and `-`
/// before every later one; the unsupported intersection lists nothing.
pub open spec fn child_op_bytes(op: CSGOperation, idx: int, name: Seq<u8>) -> Seq<u8> {
    match op {
        CSGOperation::Union => seq![32u8, 117, 32] + name,
        CSGOperation::Difference => if idx == 0 {
            seq![32u8, 117, 32] + name
        } else {
            seq![32u8, 45, 32] + name
        },
        CSGOperation::Intersection => Seq::empty(),
    }
}

/// All children of a combination statement, joined.
pub open spec fn children_bytes(op: CSGOperation, cs: Seq<Seq<u8>>) -> Seq<u8>
    decreases cs,
{
    if cs.len() == 0 {
        Seq::empty()
    } else {
        children_bytes(op, cs.drop_last()) + child_op_bytes(op, cs.len() - 1, cs.last())
    }
}

/// A combination statement: `comb comb<my>.c` followed by its children.
pub open spec fn comb_line(my: nat, op: CSGOperation, cs: Seq<Seq<u8>>) -> Seq<u8> {
    seq![99u8, 111, 109, 98, 32] + comb_name(my) + children_bytes(op, cs) + seq![10u8]
}

/// What processing the statements of one scope accumulates: the body text,
/// the scope's child names in order, the pending transform statements, and
/// the counters after the statements.
pub struct GenItems {
    pub text: Seq<u8>,
    pub children: Seq<Seq<u8>>,
    pub arcs: Seq<u8>,
    pub solid: nat,
    pub comb: nat,
}

/// What one whole scope generates: its full text and the counters after it.
pub struct GenScope {
    pub text: Seq<u8>,
    pub solid: nat,
    pub comb: nat,
}

/// The statement loop of the generator: `solid` and `comb` are the counter
/// values so far, `my` is the combination number of the enclosing scope (used
/// by transform statements), and `stmts` the statements processed so far.
pub open spec fn spec_gen_items(solid: nat, comb: nat, my: nat, stmts: Seq<AstS>) -> GenItems
    decreases stmts, 0int,
{
    if stmts.len() == 0 {
        GenItems {
            text: Seq::empty(),
            children: Seq::empty(),
            arcs: Seq::empty(),
            solid,
            comb,
        }
    } else {
        let p = spec_gen_items(solid, comb, my, stmts.drop_last());
        match stmts.last() {
            AstS::Cylinder { h, r1, r2, center } => GenItems {
                text: p.text + prim_line(p.solid, h, r1, r2, center),
                children: p.children.push(cyl_name(p.solid)),
                arcs: p.arcs,
                solid: p.solid + 1,
                comb: p.comb,
            },
            AstS::Difference { block } => match *block {
                AstS::Block { statements } => {
                    let inner = spec_gen_scope(
                        p.solid,
                        p.comb + 1,
                        CSGOperation::Difference,
                        statements,
                    );
                    GenItems {
                        text: p.text + inner.text,
                        children: p.children.push(comb_name(p.comb + 1)),
                        arcs: p.arcs,
                        solid: inner.solid,
                        comb: inner.comb,
                    }
                },
                _ => p,
            },
            AstS::Group { block } => match *block {
                AstS::Block { statements } => {
                    let inner = spec_gen_scope(p.solid, p.comb + 1, CSGOperation::Union, statements);
                    GenItems {
                        text: p.text + inner.text,
                        children: p.children.push(comb_name(p.comb + 1)),
                        arcs: p.arcs,
                        solid: inner.solid,
                        comb: inner.comb,
                    }
                },
                _ => p,
            },
            AstS::MultMatrix { matrix, block } => match *block {
                AstS::Block { statements } => {
                    let inner = spec_gen_scope(p.solid, p.comb + 1, CSGOperation::Union, statements);
                    GenItems {
                        text: p.text + inner.text,
                        children: p.children.push(comb_name(p.comb + 1)),
                        arcs: p.arcs + arced_line(my, p.comb + 1, matrix),
                        solid: inner.solid,
                        comb: inner.comb,
                    }
                },
                _ => p,
            },
            _ => p,
        }
    }
}

/// One whole scope: its statements' text, then its own combination statement
/// (numbered with the counter value at entry), then the pending transform
/// statements of its immediate children.
pub open spec fn spec_gen_scope(solid: nat, comb: nat, op: CSGOperation, stmts: Seq<AstS>) -> GenScope
    decreases stmts, 1int,
{
    let items = spec_gen_items(solid, comb, comb, stmts);
    GenScope {
        text: items.text + comb_line(comb, op, items.children) + items.arcs,
        solid: items.solid,
        comb: items.comb,
    }
}

/// The statement loop advances the counters by exactly the number of solids
/// and combinations in the statements.
pub proof fn lemma_gen_items_counts(solid: nat, comb: nat, my: nat, stmts: Seq<AstS>)
    ensures
        spec_gen_items(solid, comb, my, stmts).solid == solid + solids_of_seq(stmts),
        spec_gen_items(solid, comb, my, stmts).comb == comb + combs_of_seq(stmts),
    decreases stmts, 0int,
{
    if stmts.len() > 0 {
        lemma_gen_items_counts(solid, comb, my, stmts.drop_last());
        let p = spec_gen_items(solid, comb, my, stmts.drop_last());
        assert(solids_of_seq(stmts) == solids_of_seq(stmts.drop_last()) + solids_of(stmts.last()));
        assert(combs_of_seq(stmts) == combs_of_seq(stmts.drop_last()) + combs_of(stmts.last()));
        match stmts.last() {
            AstS::Difference { block } => match *block {
                AstS::Block { statements } => {
                    lemma_gen_scope_counts(p.solid, p.comb + 1, CSGOperation::Difference, statements);
                },
                _ => {},
            },
            AstS::Group { block } => match *block {
                AstS::Block { statements } => {
                    lemma_gen_scope_counts(p.solid, p.comb + 1, CSGOperation::Union, statements);
                },
                _ => {},
            },
            AstS::MultMatrix { matrix, block } => match *block {
                AstS::Block { statements } => {
                    lemma_gen_scope_counts(p.solid, p.comb + 1, CSGOperation::Union, statements);
                },
                _ => {},
            },
            _ => {},
        }
    }
}

/// A scope advances the counters exactly as its statement loop does.
pub proof fn lemma_gen_scope_counts(solid: nat, comb: nat, op: CSGOperation, stmts: Seq<AstS>)
    ensures
        spec_gen_scope(solid, comb, op, stmts).solid == solid + solids_of_seq(stmts),
        spec_gen_scope(solid, comb, op, stmts).comb == comb + combs_of_seq(stmts),
    decreases stmts, 1int,
{
    lemma_gen_items_counts(solid, comb, comb, stmts);
}

/// The counts of a single statement.
pub proof fn lemma_counts_singleton(x: AstS)
    ensures
        solids_of_seq(seq![x]) == solids_of(x),
        combs_of_seq(seq![x]) == combs_of(x),
{
    assert(seq![x].drop_last() =~= Seq::<AstS>::empty());
    assert(seq![x].last() == x);
    assert(solids_of_seq(Seq::<AstS>::empty()) == 0);
    assert(combs_of_seq(Seq::<AstS>::empty()) == 0);
    assert(solids_of_seq(seq![x]) == solids_of_seq(seq![x].drop_last()) + solids_of(seq![x].last()));
    assert(combs_of_seq(seq![x]) == combs_of_seq(seq![x].drop_last()) + combs_of(seq![x].last()));
}

/// Splitting a statement sequence splits its solid and combination counts.
pub proof fn lemma_counts_split(s: Seq<AstS>, i: int)
    requires
        0 <= i <= s.len(),
    ensures
        solids_of_seq(s) == solids_of_seq(s.subrange(0, i)) + solids_of_seq(
            s.subrange(i, s.len() as int),
        ),
        combs_of_seq(s) == combs_of_seq(s.subrange(0, i)) + combs_of_seq(
            s.subrange(i, s.len() as int),
        ),
    decreases s.len(),
{
    if i == s.len() {
        assert(s.subrange(0, i) =~= s);
        assert(s.subrange(i, s.len() as int) =~= Seq::<AstS>::empty());
    } else {
        lemma_counts_split(s.drop_last(), i);
        assert(s.drop_last() =~= s.subrange(0, s.len() - 1));
        assert(s.subrange(0, i) =~= s.drop_last().subrange(0, i));
        assert(s.subrange(i, s.len() as int).drop_last() =~= s.drop_last().subrange(
            i,
            s.len() - 1,
        ));
        assert(s.subrange(i, s.len() as int).last() == s.last());
    }
}

/// The views of a list of child names.
pub open spec fn names_view(s: Seq<Vec<u8>>) -> Seq<Seq<u8>> {
    s.map(|i: int, v: Vec<u8>| v@)
}

/// Appends `cylinder<n>.s` to `out`.
pub fn push_cyl_name(out: &mut Vec<u8>, n: u64)
    ensures
        final(out)@ == old(out)@ + cyl_name(n as nat),
{
    push_bytes(out, [99u8, 121, 108, 105, 110, 100, 101, 114].as_slice());  // cylinder
    push_u64(out, n);
    push_bytes(out, [46u8, 115].as_slice());  // .s
    proof {
        assert(out@ =~= old(out)@ + cyl_name(n as nat));
    }
}

/// Appends `comb<n>.c` to `out`.
pub fn push_comb_name(out: &mut Vec<u8>, n: u64)
    ensures
        final(out)@ == old(out)@ + comb_name(n as nat),
{
    push_bytes(out, [99u8, 111, 109, 98].as_slice());  // comb
    push_u64(out, n);
    push_bytes(out, [46u8, 99].as_slice());  // .c
    proof {
        assert(out@ =~= old(out)@ + comb_name(n as nat));
    }
}

/// Appends one primitive statement to `out`.
#[verifier::rlimit(50)]
pub fn push_prim_line(out: &mut Vec<u8>, n: u64, h: &Decimal, r1: &Decimal, r2: &Decimal, center: bool)
    requires
        dec_wf(h@),
        dec_wf(r1@),
        dec_wf(r2@),
    ensures
        final(out)@ == old(out)@ + prim_line(n as nat, h@, r1@, r2@, center),
{
    push_bytes(out, [105u8, 110, 32].as_slice());  // in
    push_cyl_name(out, n);
    push_bytes(out, [32u8, 116, 114, 99, 32, 48, 32, 48, 32].as_slice());  // trc 0 0
    if center {
        let nh = neg_of(h);
        let z = half(&nh);
        push_decimal(out, &z);
    } else {
        out.push(48);
    }
    push_bytes(out, [32u8, 48, 32, 48, 32].as_slice());  // 0 0
    push_decimal(out, h);
    out.push(32);
    push_decimal(out, r1);
    out.push(32);
    push_decimal(out, r2);
    out.push(10);
    proof {
        assert(out@ =~= old(out)@ + prim_line(n as nat, h@, r1@, r2@, center));
    }
}

/// Appends one transform statement to `out`.
pub fn push_arced_line(out: &mut Vec<u8>, parent: u64, child: u64, m: &Vec<Vec<Decimal>>)
    requires
        matrix_wf(view_matrix(m@)),
    ensures
        final(out)@ == old(out)@ + arced_line(parent as nat, child as nat, view_matrix(m@)),
{
    let ghost mv = view_matrix(m@);
    push_bytes(out, [97u8, 114, 99, 101, 100, 32].as_slice());  // arced
    push_comb_name(out, parent);
    out.push(47);  // /
    push_comb_name(out, child);
    push_bytes(out, [32u8, 109, 97, 116, 114, 105, 120, 32, 114, 109, 117, 108].as_slice());  // matrix rmul
    let ghost head = old(out)@ + seq![97u8, 114, 99, 101, 100, 32] + comb_name(parent as nat) + seq![
        47u8,
    ] + comb_name(child as nat) + seq![32u8, 109, 97, 116, 114, 105, 120, 32, 114, 109, 117, 108];
    proof {
        assert(out@ =~= head + matrix_bytes(mv.subrange(0, 0)));
    }
    let mut i: usize = 0;
    while i < m.len()
        invariant
            i <= m@.len(),
            mv == view_matrix(m@),
            matrix_wf(mv),
            out@ == head + matrix_bytes(mv.subrange(0, i as int)),
        decreases m@.len() - i,
    {
        let ghost rowv = view_row(m@[i as int]@);
        let ghost rowhead = head + matrix_bytes(mv.subrange(0, i as int));
        proof {
            assert(out@ =~= rowhead + row_bytes(rowv.subrange(0, 0)));
        }
        let row = &m[i];
        let mut j: usize = 0;
        while j < row.len()
            invariant
                j <= row@.len(),
                row == &m@[i as int],
                i < m@.len(),
                mv == view_matrix(m@),
                matrix_wf(mv),
                rowv == view_row(m@[i as int]@),
                out@ == rowhead + row_bytes(rowv.subrange(0, j as int)),
            decreases row@.len() - j,
        {
            proof {
                assert(mv[i as int] == rowv);
                assert(rowv[j as int] == row@[j as int]@);
                assert(dec_wf(row@[j as int]@));
            }
            out.push(32);
            push_decimal(out, &row[j]);
            proof {
                assert(rowv.subrange(0, j + 1).drop_last() =~= rowv.subrange(0, j as int));
                assert(out@ =~= rowhead + row_bytes(rowv.subrange(0, j + 1)));
            }
            j = j + 1;
        }
        proof {
            assert(rowv.subrange(0, rowv.len() as int) =~= rowv);
            assert(mv.subrange(0, i + 1).drop_last() =~= mv.subrange(0, i as int));
            assert(mv.subrange(0, i + 1).last() == rowv);
            assert(out@ =~= head + matrix_bytes(mv.subrange(0, i + 1)));
        }
        i = i + 1;
    }
    out.push(10);
    proof {
        assert(mv.subrange(0, mv.len() as int) =~= mv);
        assert(out@ =~= old(out)@ + arced_line(parent as nat, child as nat, mv));
    }
}

/// Appends one combination statement to `out`.
pub fn push_comb_line(out: &mut Vec<u8>, my: u64, op: CSGOperation, children: &Vec<Vec<u8>>)
    ensures
        final(out)@ == old(out)@ + comb_line(my as nat, op, names_view(children@)),
{
    let ghost cs = names_view(children@);
    push_bytes(out, [99u8, 111, 109, 98, 32].as_slice());  // comb
    push_comb_name(out, my);
    let ghost head = old(out)@ + seq![99u8, 111, 109, 98, 32] + comb_name(my as nat);
    proof {
        assert(out@ =~= head + children_bytes(op, cs.subrange(0, 0)));
    }
    let mut j: usize = 0;
    while j < children.len()
        invariant
            j <= children@.len(),
            cs == names_view(children@),
            out@ == head + children_bytes(op, cs.subrange(0, j as int)),
        decreases children@.len() - j,
    {
        match op {
            CSGOperation::Union => {
                push_bytes(out, [32u8, 117, 32].as_slice());  // u
                push_bytes(out, children[j].as_slice());
            },
            CSGOperation::Difference => {
                if j == 0 {
                    push_bytes(out, [32u8, 117, 32].as_slice());  // u
                } else {
                    push_bytes(out, [32u8, 45, 32].as_slice());  // -
                }
                push_bytes(out, children[j].as_slice());
            },
            CSGOperation::Intersection => {},
        }
        proof {
            assert(cs[j as int] == children@[j as int]@);
            assert(cs.subrange(0, j + 1).drop_last() =~= cs.subrange(0, j as int));
            assert(out@ =~= head + children_bytes(op, cs.subrange(0, j + 1)));
        }
        j = j + 1;
    }
    out.push(10);
    proof {
        assert(cs.subrange(0, cs.len() as int) =~= cs);
        assert(out@ =~= old(out)@ + comb_line(my as nat, op, cs));
    }
}

/// Generates the script text for one scope holding the statements `ast`,
/// combined with `csg_operation`, and for every scope nested below it.
///
/// The two counters are shared across the whole pass: every primitive takes
/// the next solid number and every nested scope the next combination number,
/// so names are globally unique however the tree is shaped.  The intersection
/// combinator is unsupported and refused up front.
pub fn generate_mged_code(
    solid_number: &mut u64,
    combination_number: &mut u64,
    csg_operation: CSGOperation,
    ast: &Vec<ASTNode>,
) -> (r: Result<Vec<u8>, CsgError>)
    requires
        asts_wf(asts_view(ast@)),
        *old(solid_number) + solids_of_seq(asts_view(ast@)) <= u64::MAX,
        *old(combination_number) + combs_of_seq(asts_view(ast@)) <= u64::MAX,
    ensures
        csg_operation is Intersection ==> r == Result::<Vec<u8>, CsgError>::Err(
            CsgError::UnsupportedOperation,
        ) && *final(solid_number) == *old(solid_number) && *final(combination_number) == *old(
            combination_number,
        ),
        !(csg_operation is Intersection) ==> ({
            let sc = spec_gen_scope(
                *old(solid_number) as nat,
                *old(combination_number) as nat,
                csg_operation,
                asts_view(ast@),
            );
            &&& r matches Ok(code) && code@ == sc.text
            &&& *final(solid_number) as nat == sc.solid
            &&& *final(combination_number) as nat == sc.comb
        }),
    decreases ast@,
{
    if let CSGOperation::Intersection = csg_operation {
        return Err(CsgError::UnsupportedOperation);
    }
    let ghost s0 = *solid_number as nat;
    let ghost c0 = *combination_number as nat;
    let ghost stmts = asts_view(ast@);
    let mut mged_code: Vec<u8> = Vec::new();
    let mut child_transformation_code: Vec<u8> = Vec::new();
    let mut children: Vec<Vec<u8>> = Vec::new();
    let my_combination_number = *combination_number;
    proof {
        assert(stmts.subrange(0, 0) =~= Seq::<AstS>::empty());
        assert(names_view(children@) =~= Seq::<Seq<u8>>::empty());
    }
    let mut i: usize = 0;
    while i < ast.len()
        invariant
            i <= ast@.len(),
            stmts == asts_view(ast@),
            stmts.len() == ast@.len(),
            asts_wf(stmts),
            s0 + solids_of_seq(stmts) <= u64::MAX,
            c0 + combs_of_seq(stmts) <= u64::MAX,
            my_combination_number as nat == c0,
            mged_code@ == spec_gen_items(s0, c0, c0, stmts.subrange(0, i as int)).text,
            names_view(children@) == spec_gen_items(s0, c0, c0, stmts.subrange(0, i as int)).children,
            child_transformation_code@ == spec_gen_items(s0, c0, c0, stmts.subrange(0, i as int)).arcs,
            *solid_number as nat == spec_gen_items(s0, c0, c0, stmts.subrange(0, i as int)).solid,
            *combination_number as nat == spec_gen_items(s0, c0, c0, stmts.subrange(0, i as int)).comb,
        decreases ast@.len() - i,
    {
        let ghost pre = stmts.subrange(0, i as int);
        let ghost p = spec_gen_items(s0, c0, c0, pre);
        proof {
            lemma_gen_items_counts(s0, c0, c0, pre);
            lemma_counts_split(stmts, i as int);
            lemma_counts_split(stmts.subrange(i as int, stmts.len() as int), 1);
            assert(stmts.subrange(i as int, stmts.len() as int).subrange(0, 1) =~= seq![stmts[i as int]]);
            assert(stmts.subrange(i as int, stmts.len() as int).subrange(
                1,
                stmts.len() - i,
            ) =~= stmts.subrange(i + 1, stmts.len() as int));
            lemma_counts_singleton(stmts[i as int]);
            assert(stmts.subrange(0, i + 1).drop_last() =~= pre);
            assert(stmts.subrange(0, i + 1).last() == stmts[i as int]);
            assert(stmts[i as int] == ast_view(ast@[i as int]));
            assert(ast_wf(stmts[i as int]));
        }
        let node = &ast[i];
        match node {
            ASTNode::Cylinder { h, r1, r2, center } => {
                let sn = *solid_number;
                push_prim_line(&mut mged_code, sn, h, r1, r2, *center);
                *solid_number = sn + 1;
                let mut name: Vec<u8> = Vec::new();
                push_cyl_name(&mut name, sn);
                children.push(name);
                proof {
                    assert(names_view(children@) =~= p.children.push(cyl_name(sn as nat)));
                }
            },
            ASTNode::Difference { block } => {
                match &**block {
                    ASTNode::Block { statements } => {
                        proof {
                            assert(ast_view(**block) == AstS::Block {
                                statements: asts_view(statements@),
                            });
                            assert(solids_of(stmts[i as int]) == solids_of_seq(asts_view(statements@)));
                            assert(combs_of(stmts[i as int]) == 1 + combs_of_seq(asts_view(statements@)));
                            assert(ast_wf(ast_view(**block)));
                            assert(asts_wf(asts_view(statements@)));
                        }
                        *combination_number = *combination_number + 1;
                        let cn = *combination_number;
                        let sub = generate_mged_code(
                            solid_number,
                            combination_number,
                            CSGOperation::Difference,
                            statements,
                        );
                        match sub {
                            Ok(mut code) => {
                                mged_code.append(&mut code);
                            },
                            Err(e) => {
                                proof {
                                    assert(false);
                                }
                                return Err(e);
                            },
                        }
                        let mut name: Vec<u8> = Vec::new();
                        push_comb_name(&mut name, cn);
                        children.push(name);
                        proof {
                            assert(names_view(children@) =~= p.children.push(comb_name(cn as nat)));
                        }
                    },
                    _ => {},
                }
            },
            ASTNode::Group { block } => {
                match &**block {
                    ASTNode::Block { statements } => {
                        proof {
                            assert(ast_view(**block) == AstS::Block {
                                statements: asts_view(statements@),
                            });
                            assert(solids_of(stmts[i as int]) == solids_of_seq(asts_view(statements@)));
                            assert(combs_of(stmts[i as int]) == 1 + combs_of_seq(asts_view(statements@)));
                            assert(ast_wf(ast_view(**block)));
                            assert(asts_wf(asts_view(statements@)));
                        }
                        *combination_number = *combination_number + 1;
                        let cn = *combination_number;
                        let sub = generate_mged_code(
                            solid_number,
                            combination_number,
                            CSGOperation::Union,
                            statements,
                        );
                        match sub {
                            Ok(mut code) => {
                                mged_code.append(&mut code);
                            },
                            Err(e) => {
                                proof {
                                    assert(false);
                                }
                                return Err(e);
                            },
                        }
                        let mut name: Vec<u8> = Vec::new();
                        push_comb_name(&mut name, cn);
                        children.push(name);
                        proof {
                            assert(names_view(children@) =~= p.children.push(comb_name(cn as nat)));
                        }
                    },
                    _ => {},
                }
            },
            ASTNode::MultMatrix { matrix, block } => {
                match &**block {
                    ASTNode::Block { statements } => {
                        proof {
                            assert(ast_view(**block) == AstS::Block {
                                statements: asts_view(statements@),
                            });
                            assert(solids_of(stmts[i as int]) == solids_of_seq(asts_view(statements@)));
                            assert(combs_of(stmts[i as int]) == 1 + combs_of_seq(asts_view(statements@)));
                            assert(ast_wf(ast_view(**block)));
                            assert(asts_wf(asts_view(statements@)));
                        }
                        *combination_number = *combination_number + 1;
                        let cn = *combination_number;
                        let sub = generate_mged_code(
                            solid_number,
                            combination_number,
                            CSGOperation::Union,
                            statements,
                        );
                        match sub {
                            Ok(mut code) => {
                                mged_code.append(&mut code);
                            },
                            Err(e) => {
                                proof {
                                    assert(false);
                                }
                                return Err(e);
                            },
                        }
                        let mut name: Vec<u8> = Vec::new();
                        push_comb_name(&mut name, cn);
                        children.push(name);
                        push_arced_line(
                            &mut child_transformation_code,
                            my_combination_number,
                            cn,
                            matrix,
                        );
                        proof {
                            assert(names_view(children@) =~= p.children.push(comb_name(cn as nat)));
                        }
                    },
                    _ => {},
                }
            },
            ASTNode::Block { .. } => {},
            ASTNode::Unknown => {},
        }
        i = i + 1;
    }
    proof {
        assert(stmts.subrange(0, stmts.len() as int) =~= stmts);
    }
    push_comb_line(&mut mged_code, my_combination_number, csg_operation, &children);
    push_bytes(&mut mged_code, child_transformation_code.as_slice());
    Ok(mged_code)
}

} // verus!
