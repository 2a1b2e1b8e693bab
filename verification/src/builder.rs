//! The AST builder.
//!
//! It consumes one parse-tree call (or a block of them) and produces the
//! typed AST node it stands for.  A call with an argument list is a
//! `cylinder` primitive or a `multmatrix` transform header; a call with a
//! bare block is a `difference` or `group` container; every other identifier
//! or shape builds to `Unknown` and is never an error.  Errors are reserved
//! for a recognized call whose shape is broken (`StructuralError`) or whose
//! argument value has the wrong type (`LiteralParseError`).

use vstd::prelude::*;

use crate::CsgError;
use crate::ast::ASTNode;
use crate::ast::AstS;
use crate::ast::ast_wf;
use crate::ast::asts_wf;
use crate::ast::asts_view;
use crate::ast::solids_of;
use crate::ast::solids_of_seq;
use crate::ast::combs_of;
use crate::ast::combs_of_seq;
use crate::ast::view_matrix;
use crate::ast::lemma_asts_view_len;
use crate::ast::lemma_asts_view_index;
use crate::decimal::Decimal;
use crate::decimal::DecimalS;
use crate::decimal::copy_decimal;
use crate::decimal::dec_wf;
use crate::parse::ArgS;
use crate::parse::Call;
use crate::parse::CallS;
use crate::parse::Value;
use crate::parse::ValueS;
use crate::parse::args_view;
use crate::parse::args_wf;
use crate::parse::call_view;
use crate::parse::call_weight;
use crate::parse::call_wf;
use crate::parse::calls_view;
use crate::parse::calls_weight;
use crate::parse::calls_wf;
use crate::parse::lemma_calls_view_len;
use crate::parse::lemma_calls_view_index;

verus! {

broadcast use lemma_asts_view_len, lemma_asts_view_index, lemma_calls_view_len, lemma_calls_view_index;

/// The default cylinder field: the literal `1`.
pub open spec fn one_decimal() -> DecimalS {
    DecimalS { neg: false, int_digits: seq![1u8], frac_digits: Seq::empty() }
}

/// Folds a cylinder's argument list over the field values gathered so far.
/// Recognized names overwrite their field; an argument whose value has the
/// wrong type is a `LiteralParseError`; an argument without a name is a
/// `StructuralError`; unrecognized names are ignored.
pub open spec fn sp_cyl_args(
    args: Seq<ArgS>,
    h: DecimalS,
    r1: DecimalS,
    r2: DecimalS,
    center: bool,
) -> Result<(DecimalS, DecimalS, DecimalS, bool), CsgError>
    decreases args.len(),
{
    if args.len() == 0 {
        Ok((h, r1, r2, center))
    } else {
        let a = args[0];
        match a.name {
            Some(name) => {
                if name == seq![104u8] {  // h
                    match a.value {
                        ValueS::Num(d) => sp_cyl_args(args.drop_first(), d, r1, r2, center),
                        _ => Err(CsgError::LiteralParseError),
                    }
                } else if name == seq![114u8, 49] {  // r1
                    match a.value {
                        ValueS::Num(d) => sp_cyl_args(args.drop_first(), h, d, r2, center),
                        _ => Err(CsgError::LiteralParseError),
                    }
                } else if name == seq![114u8, 50] {  // r2
                    match a.value {
                        ValueS::Num(d) => sp_cyl_args(args.drop_first(), h, r1, d, center),
                        _ => Err(CsgError::LiteralParseError),
                    }
                } else if name == seq![99u8, 101, 110, 116, 101, 114] {  // center
                    match a.value {
                        ValueS::Bool(b) => sp_cyl_args(args.drop_first(), h, r1, r2, b),
                        _ => Err(CsgError::LiteralParseError),
                    }
                } else {
                    sp_cyl_args(args.drop_first(), h, r1, r2, center)
                }
            },
            None => Err(CsgError::StructuralError),
        }
    }
}

/// A matrix of exactly four rows of four scalars.
pub open spec fn is_4x4(m: Seq<Seq<DecimalS>>) -> bool {
    m.len() == 4 && forall|i: int| 0 <= i < 4 ==> #[trigger] m[i].len() == 4
}

/// What one parse-tree call builds to.
pub open spec fn sp_build_call(c: CallS) -> Result<AstS, CsgError>
    decreases c, 1int,
{
    match c.args {
        Some(args) => {
            if c.ident == seq![99u8, 121, 108, 105, 110, 100, 101, 114] {  // cylinder
                match sp_cyl_args(args, one_decimal(), one_decimal(), one_decimal(), false) {
                    Ok((h, r1, r2, center)) => Ok(AstS::Cylinder { h, r1, r2, center }),
                    Err(e) => Err(e),
                }
            } else if c.ident == seq![109u8, 117, 108, 116, 109, 97, 116, 114, 105, 120] {  // multmatrix
                if args.len() == 0 {
                    Err(CsgError::StructuralError)
                } else {
                    match args[0].name {
                        Some(_) => Err(CsgError::StructuralError),
                        None => match args[0].value {
                            ValueS::Matrix(m) => {
                                if !is_4x4(m) {
                                    Err(CsgError::StructuralError)
                                } else {
                                    match c.block {
                                        Some(b) => match sp_build_calls(b) {
                                            Ok(stmts) => Ok(
                                                AstS::MultMatrix {
                                                    matrix: m,
                                                    block: Box::new(
                                                        AstS::Block { statements: stmts },
                                                    ),
                                                },
                                            ),
                                            Err(e) => Err(e),
                                        },
                                        None => Err(CsgError::StructuralError),
                                    }
                                }
                            },
                            _ => Err(CsgError::StructuralError),
                        },
                    }
                }
            } else {
                Ok(AstS::Unknown)
            }
        },
        None => match c.block {
            Some(b) => {
                if c.ident == seq![100u8, 105, 102, 102, 101, 114, 101, 110, 99, 101] {  // difference
                    match sp_build_calls(b) {
                        Ok(stmts) => Ok(
                            AstS::Difference { block: Box::new(AstS::Block { statements: stmts }) },
                        ),
                        Err(e) => Err(e),
                    }
                } else if c.ident == seq![103u8, 114, 111, 117, 112] {  // group
                    match sp_build_calls(b) {
                        Ok(stmts) => Ok(
                            AstS::Group { block: Box::new(AstS::Block { statements: stmts }) },
                        ),
                        Err(e) => Err(e),
                    }
                } else {
                    Ok(AstS::Unknown)
                }
            },
            None => Ok(AstS::Unknown),
        },
    }
}

/// What a block's calls build to, in order; the first error wins.
pub open spec fn sp_build_calls(cs: Seq<CallS>) -> Result<Seq<AstS>, CsgError>
    decreases cs, 0int,
{
    if cs.len() == 0 {
        Ok(Seq::empty())
    } else {
        match sp_build_calls(cs.drop_last()) {
            Ok(stmts) => match sp_build_call(cs.last()) {
                Ok(n) => Ok(stmts.push(n)),
                Err(e) => Err(e),
            },
            Err(e) => Err(e),
        }
    }
}

/// A copy of a matrix.
fn copy_matrix(m: &Vec<Vec<Decimal>>) -> (r: Vec<Vec<Decimal>>)
    ensures
        view_matrix(r@) == view_matrix(m@),
        r@.len() == m@.len(),
{
    let mut r: Vec<Vec<Decimal>> = Vec::new();
    let mut i: usize = 0;
    while i < m.len()
        invariant
            i <= m@.len(),
            r@.len() == i,
            forall|k: int| 0 <= k < i ==> crate::ast::view_row(#[trigger] r@[k]@) == crate::ast::view_row(m@[k]@),
        decreases m@.len() - i,
    {
        let row = &m[i];
        let mut nr: Vec<Decimal> = Vec::new();
        let mut j: usize = 0;
        while j < row.len()
            invariant
                j <= row@.len(),
                row == &m@[i as int],
                i < m@.len(),
                nr@.len() == j,
                forall|k: int| 0 <= k < j ==> #[trigger] nr@[k]@ == row@[k]@,
            decreases row@.len() - j,
        {
            nr.push(copy_decimal(&row[j]));
            j = j + 1;
        }
        proof {
            assert(crate::ast::view_row(nr@) =~= crate::ast::view_row(m@[i as int]@));
        }
        r.push(nr);
        i = i + 1;
    }
    proof {
        assert(view_matrix(r@) =~= view_matrix(m@));
    }
    r
}

/// Whether two byte vectors hold the same bytes.
fn ident_is(v: &Vec<u8>, lit: &[u8]) -> (r: bool)
    ensures
        r == (v@ == lit@),
{
    if v.len() != lit.len() {
        return false;
    }
    let mut i: usize = 0;
    while i < v.len()
        invariant
            v@.len() == lit@.len(),
            i <= v@.len(),
            forall|j: int| 0 <= j < i ==> v@[j] == lit@[j],
        decreases v@.len() - i,
    {
        if v[i] != lit[i] {
            return false;
        }
        i = i + 1;
    }
    proof {
        assert(v@ =~= lit@);
    }
    true
}

/// The default cylinder field as a value.
fn default_field() -> (r: Decimal)
    ensures
        r@ == one_decimal(),
        dec_wf(r@),
{
    let mut one: Vec<u8> = Vec::new();
    one.push(1);
    let r = Decimal { neg: false, int_digits: one, frac_digits: Vec::new() };
    proof {
        assert(r@.int_digits =~= seq![1u8]);
        assert(r@.frac_digits =~= Seq::<u8>::empty());
    }
    r
}

/// Builds the AST node of one parse-tree call.
pub fn generate_ast(call: &Call) -> (r: Result<ASTNode, CsgError>)
    requires
        call_wf(call_view(*call)),
    ensures
        match r {
            Ok(n) => {
                &&& sp_build_call(call_view(*call)) == Ok::<AstS, CsgError>(n@)
                &&& ast_wf(n@)
                &&& solids_of(n@) + combs_of(n@) <= call_weight(call_view(*call))
            },
            Err(e) => sp_build_call(call_view(*call)) == Err::<AstS, CsgError>(e),
        },
    decreases call, 1int,
{
    match &call.args {
        Some(args) => {
            if ident_is(&call.ident, [99u8, 121, 108, 105, 110, 100, 101, 114].as_slice()) {
                // cylinder: fold the argument list over the defaults.
                let mut h = default_field();
                let mut r1 = default_field();
                let mut r2 = default_field();
                let mut center = false;
                let ghost av = args_view(args@);
                proof {
                    assert(av.subrange(0, av.len() as int) =~= av);
                    assert(call.args == Some(*args));
                    assert(call_view(*call).args == Some(av));
                    assert(call.ident@ =~= seq![99u8, 121, 108, 105, 110, 100, 101, 114]);
                }
                let mut i: usize = 0;
                while i < args.len()
                    invariant
                        i <= args@.len(),
                        av == args_view(args@),
                        args_wf(av),
                        call_view(*call).args == Some(av),
                        call_view(*call).ident == seq![99u8, 121, 108, 105, 110, 100, 101, 114],
                        dec_wf(h@),
                        dec_wf(r1@),
                        dec_wf(r2@),
                        sp_cyl_args(av, one_decimal(), one_decimal(), one_decimal(), false)
                            == sp_cyl_args(
                            av.subrange(i as int, av.len() as int),
                            h@,
                            r1@,
                            r2@,
                            center,
                        ),
                    decreases args@.len() - i,
                {
                    let ghost suf = av.subrange(i as int, av.len() as int);
                    proof {
                        assert(suf[0] == av[i as int]);
                        assert(suf.drop_first() =~= av.subrange(i + 1, av.len() as int));
                        assert(av[i as int] == crate::parse::arg_view(args@[i as int]));
                    }
                    let a = &args[i];
                    let lit_h: &[u8] = [104u8].as_slice();
                    let lit_r1: &[u8] = [114u8, 49].as_slice();
                    let lit_r2: &[u8] = [114u8, 50].as_slice();
                    let lit_center: &[u8] = [99u8, 101, 110, 116, 101, 114].as_slice();
                    proof {
                        assert(lit_h@ =~= seq![104u8]);
                        assert(lit_r1@ =~= seq![114u8, 49]);
                        assert(lit_r2@ =~= seq![114u8, 50]);
                        assert(lit_center@ =~= seq![99u8, 101, 110, 116, 101, 114]);
                    }
                    match &a.name {
                        Some(name) => {
                            if ident_is(name, lit_h) {
                                match &a.value {
                                    Value::Num(d) => {
                                        h = copy_decimal(d);
                                    },
                                    _ => {
                                        proof {
                                            assert(sp_cyl_args(suf, h@, r1@, r2@, center)
                                                == Err::<(DecimalS, DecimalS, DecimalS, bool), CsgError>(
                                                CsgError::LiteralParseError,
                                            ));
                                            assert(call_view(*call).args == Some(av));
                                            assert(sp_build_call(call_view(*call)) == Err::<
                                                AstS,
                                                CsgError,
                                            >(CsgError::LiteralParseError));
                                        }
                                        return Err(CsgError::LiteralParseError);
                                    },
                                }
                            } else if ident_is(name, lit_r1) {
                                match &a.value {
                                    Value::Num(d) => {
                                        r1 = copy_decimal(d);
                                    },
                                    _ => {
                                        proof {
                                            assert(sp_cyl_args(suf, h@, r1@, r2@, center)
                                                == Err::<(DecimalS, DecimalS, DecimalS, bool), CsgError>(
                                                CsgError::LiteralParseError,
                                            ));
                                            assert(call_view(*call).args == Some(av));
                                            assert(sp_build_call(call_view(*call)) == Err::<
                                                AstS,
                                                CsgError,
                                            >(CsgError::LiteralParseError));
                                        }
                                        return Err(CsgError::LiteralParseError);
                                    },
                                }
                            } else if ident_is(name, lit_r2) {
                                match &a.value {
                                    Value::Num(d) => {
                                        r2 = copy_decimal(d);
                                    },
                                    _ => {
                                        proof {
                                            assert(sp_cyl_args(suf, h@, r1@, r2@, center)
                                                == Err::<(DecimalS, DecimalS, DecimalS, bool), CsgError>(
                                                CsgError::LiteralParseError,
                                            ));
                                            assert(call_view(*call).args == Some(av));
                                            assert(sp_build_call(call_view(*call)) == Err::<
                                                AstS,
                                                CsgError,
                                            >(CsgError::LiteralParseError));
                                        }
                                        return Err(CsgError::LiteralParseError);
                                    },
                                }
                            } else if ident_is(name, lit_center) {
                                match &a.value {
                                    Value::Bool(b) => {
                                        center = *b;
                                    },
                                    _ => {
                                        proof {
                                            assert(sp_cyl_args(suf, h@, r1@, r2@, center)
                                                == Err::<(DecimalS, DecimalS, DecimalS, bool), CsgError>(
                                                CsgError::LiteralParseError,
                                            ));
                                            assert(call_view(*call).args == Some(av));
                                            assert(sp_build_call(call_view(*call)) == Err::<
                                                AstS,
                                                CsgError,
                                            >(CsgError::LiteralParseError));
                                        }
                                        return Err(CsgError::LiteralParseError);
                                    },
                                }
                            }
                        },
                        None => {
                            proof {
                                assert(sp_cyl_args(suf, h@, r1@, r2@, center) == Err::<
                                    (DecimalS, DecimalS, DecimalS, bool),
                                    CsgError,
                                >(CsgError::StructuralError));
                                assert(call_view(*call).args == Some(av));
                                assert(sp_build_call(call_view(*call)) == Err::<AstS, CsgError>(
                                    CsgError::StructuralError,
                                ));
                            }
                            return Err(CsgError::StructuralError);
                        },
                    }
                    i = i + 1;
                }
                proof {
                    assert(av.subrange(av.len() as int, av.len() as int) =~= Seq::<ArgS>::empty());
                }
                let n = ASTNode::Cylinder { h, r1, r2, center };
                Ok(n)
            } else if ident_is(
                &call.ident,
                [109u8, 117, 108, 116, 109, 97, 116, 114, 105, 120].as_slice(),
            ) {
                // multmatrix: one positional matrix argument, then the
                // trailing block; the matrix must be 4x4.
                if args.len() == 0 {
                    return Err(CsgError::StructuralError);
                }
                let a0 = &args[0];
                if a0.name.is_some() {
                    return Err(CsgError::StructuralError);
                }
                match &a0.value {
                    Value::Matrix(m) => {
                        if m.len() != 4 {
                            proof {
                                assert(!is_4x4(view_matrix(m@)));
                            }
                            return Err(CsgError::StructuralError);
                        }
                        if m[0].len() != 4 || m[1].len() != 4 || m[2].len() != 4 || m[3].len()
                            != 4 {
                            proof {
                                assert(view_matrix(m@)[0].len() == m@[0]@.len());
                                assert(view_matrix(m@)[1].len() == m@[1]@.len());
                                assert(view_matrix(m@)[2].len() == m@[2]@.len());
                                assert(view_matrix(m@)[3].len() == m@[3]@.len());
                                assert(!is_4x4(view_matrix(m@)));
                            }
                            return Err(CsgError::StructuralError);
                        }
                        proof {
                            assert(forall|j: int|
                                0 <= j < 4 ==> #[trigger] view_matrix(m@)[j].len() == 4);
                            assert(is_4x4(view_matrix(m@)));
                        }
                        match &call.block {
                            Some(b) => {
                                let matrix = copy_matrix(m);
                                match generate_block(b) {
                                    Ok(block) => {
                                        let n = ASTNode::MultMatrix {
                                            matrix,
                                            block: Box::new(block),
                                        };
                                        Ok(n)
                                    },
                                    Err(e) => Err(e),
                                }
                            },
                            None => Err(CsgError::StructuralError),
                        }
                    },
                    _ => Err(CsgError::StructuralError),
                }
            } else {
                Ok(ASTNode::Unknown)
            }
        },
        None => match &call.block {
            Some(b) => {
                if ident_is(
                    &call.ident,
                    [100u8, 105, 102, 102, 101, 114, 101, 110, 99, 101].as_slice(),
                ) {
                    match generate_block(b) {
                        Ok(block) => Ok(ASTNode::Difference { block: Box::new(block) }),
                        Err(e) => Err(e),
                    }
                } else if ident_is(&call.ident, [103u8, 114, 111, 117, 112].as_slice()) {
                    match generate_block(b) {
                        Ok(block) => Ok(ASTNode::Group { block: Box::new(block) }),
                        Err(e) => Err(e),
                    }
                } else {
                    Ok(ASTNode::Unknown)
                }
            },
            None => Ok(ASTNode::Unknown),
        },
    }
}

/// A build error in a prefix is the error of the whole sequence.
proof fn lemma_build_extend_err(s: Seq<CallS>, j: int)
    requires
        0 <= j <= s.len(),
        sp_build_calls(s.subrange(0, j)) is Err,
    ensures
        sp_build_calls(s) == sp_build_calls(s.subrange(0, j)),
    decreases s.len() - j,
{
    if j == s.len() {
        assert(s.subrange(0, j) =~= s);
    } else {
        assert(s.subrange(0, j + 1).drop_last() =~= s.subrange(0, j));
        lemma_build_extend_err(s, j + 1);
    }
}

/// Builds the statements of a block into a `Block` node, keeping source
/// order; the first error aborts the build.
pub fn generate_block(calls: &Vec<Call>) -> (r: Result<ASTNode, CsgError>)
    requires
        calls_wf(calls_view(calls@)),
    ensures
        match r {
            Ok(n) => {
                &&& sp_build_calls(calls_view(calls@)) matches Ok(stmts) && n@ == AstS::Block {
                    statements: stmts,
                }
                &&& ast_wf(n@)
                &&& match n@ {
                    AstS::Block { statements } => solids_of_seq(statements) + combs_of_seq(
                        statements,
                    ) <= calls_weight(calls_view(calls@)),
                    _ => false,
                }
            },
            Err(e) => sp_build_calls(calls_view(calls@)) == Err::<Seq<AstS>, CsgError>(e),
        },
    decreases calls, 0int,
{
    let mut statements: Vec<ASTNode> = Vec::new();
    let ghost cv = calls_view(calls@);
    proof {
        assert(cv.subrange(0, 0) =~= Seq::<CallS>::empty());
        assert(asts_view(statements@) =~= Seq::<AstS>::empty());
        assert(solids_of_seq(Seq::<AstS>::empty()) == 0);
        assert(combs_of_seq(Seq::<AstS>::empty()) == 0);
        assert(calls_weight(Seq::<CallS>::empty()) == 0);
    }
    let mut i: usize = 0;
    while i < calls.len()
        invariant
            i <= calls@.len(),
            cv == calls_view(calls@),
            cv.len() == calls@.len(),
            calls_wf(cv),
            sp_build_calls(cv.subrange(0, i as int)) == Ok::<Seq<AstS>, CsgError>(
                asts_view(statements@),
            ),
            asts_wf(asts_view(statements@)),
            solids_of_seq(asts_view(statements@)) + combs_of_seq(asts_view(statements@))
                <= calls_weight(cv.subrange(0, i as int)),
        decreases calls@.len() - i,
    {
        proof {
            assert(cv[i as int] == call_view(calls@[i as int]));
            assert(call_wf(cv[i as int]));
            assert(cv.subrange(0, i + 1).drop_last() =~= cv.subrange(0, i as int));
            assert(cv.subrange(0, i + 1).last() == cv[i as int]);
        }
        match generate_ast(&calls[i]) {
            Ok(n) => {
                let ghost so = asts_view(statements@);
                let ghost sv = statements@;
                statements.push(n);
                proof {
                    assert(statements@.drop_last() =~= sv);
                    assert(statements@.last() == n);
                    assert(asts_view(statements@) == so.push(n@));
                    assert((so.push(n@)).drop_last() =~= so);
                    assert((so.push(n@)).last() == n@);
                    assert(solids_of_seq(asts_view(statements@)) == solids_of_seq(so) + solids_of(
                        n@,
                    ));
                    assert(combs_of_seq(asts_view(statements@)) == combs_of_seq(so) + combs_of(n@));
                    assert(asts_wf(asts_view(statements@))) by {
                        assert forall|k: int| 0 <= k < asts_view(statements@).len() implies ast_wf(
                            #[trigger] asts_view(statements@)[k],
                        ) by {
                            if k < so.len() {
                                assert(asts_view(statements@)[k] == so[k]);
                            } else {
                                assert(asts_view(statements@)[k] == n@);
                            }
                        }
                    }
                }
            },
            Err(e) => {
                proof {
                    assert(sp_build_calls(cv.subrange(0, i + 1)) == Err::<Seq<AstS>, CsgError>(e));
                    lemma_build_extend_err(cv, i + 1);
                }
                return Err(e);
            },
        }
        i = i + 1;
    }
    proof {
        assert(cv.subrange(0, cv.len() as int) =~= cv);
    }
    Ok(ASTNode::Block { statements })
}

} // verus!
