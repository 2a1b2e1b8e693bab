//! Laws of the code generator, proved once and for all inputs.

use vstd::prelude::*;

use crate::ast::AstS;
use crate::builder::one_decimal;
use crate::decimal::DecimalS;
use crate::gen::CSGOperation;
use crate::gen::GenItems;
use crate::gen::children_bytes;
use crate::gen::comb_line;
use crate::gen::comb_name;
use crate::gen::cyl_name;
use crate::gen::arced_line;
use crate::gen::prim_line;
use crate::gen::spec_gen_items;
use crate::gen::spec_gen_scope;

verus! {

/// Every statement is a primitive.
pub open spec fn all_cylinders(stmts: Seq<AstS>) -> bool {
    forall|i: int| 0 <= i < stmts.len() ==> #[trigger] stmts[i] is Cylinder
}

/// The primitive statements of a run of cylinders, numbered from `s0` in
/// source order.
pub open spec fn cyl_lines(s0: nat, stmts: Seq<AstS>) -> Seq<u8>
    decreases stmts,
{
    if stmts.len() == 0 {
        Seq::empty()
    } else {
        cyl_lines(s0, stmts.drop_last()) + match stmts.last() {
            AstS::Cylinder { h, r1, r2, center } => prim_line(
                (s0 + stmts.len() - 1) as nat,
                h,
                r1,
                r2,
                center,
            ),
            _ => Seq::empty(),
        }
    }
}

/// The names `cylinder<s0>.s` through `cylinder<s0 + n - 1>.s`, in order.
pub open spec fn cyl_names_seq(s0: nat, n: nat) -> Seq<Seq<u8>>
    decreases n,
{
    if n == 0 {
        Seq::empty()
    } else {
        cyl_names_seq(s0, (n - 1) as nat).push(cyl_name((s0 + n - 1) as nat))
    }
}

/// Those names joined as union children: ` u <name>` for every one.
pub open spec fn cyl_children(s0: nat, n: nat) -> Seq<u8>
    decreases n,
{
    if n == 0 {
        Seq::empty()
    } else {
        cyl_children(s0, (n - 1) as nat) + seq![32u8, 117, 32] + cyl_name((s0 + n - 1) as nat)
    }
}

proof fn lemma_cyl_items(s0: nat, c0: nat, my: nat, stmts: Seq<AstS>)
    requires
        all_cylinders(stmts),
    ensures
        spec_gen_items(s0, c0, my, stmts) == (GenItems {
            text: cyl_lines(s0, stmts),
            children: cyl_names_seq(s0, stmts.len()),
            arcs: Seq::<u8>::empty(),
            solid: (s0 + stmts.len()) as nat,
            comb: c0,
        }),
    decreases stmts,
{
    if stmts.len() == 0 {
    } else {
        assert(all_cylinders(stmts.drop_last()));
        lemma_cyl_items(s0, c0, my, stmts.drop_last());
        assert(stmts[stmts.len() - 1] is Cylinder);
    }
}

proof fn lemma_cyl_children_bytes(s0: nat, n: nat)
    ensures
        children_bytes(CSGOperation::Union, cyl_names_seq(s0, n)) == cyl_children(s0, n),
    decreases n,
{
    if n > 0 {
        lemma_cyl_children_bytes(s0, (n - 1) as nat);
        assert(cyl_names_seq(s0, n).drop_last() =~= cyl_names_seq(s0, (n - 1) as nat));
        assert(children_bytes(CSGOperation::Union, cyl_names_seq(s0, n)) =~= cyl_children(s0, n));
    }
}

/// Law: a scope holding primitives alone generates exactly one primitive
/// statement per call, with solid numbers rising from the starting counter in
/// source order, followed by one union combination statement listing every
/// primitive with `u` before it, and nothing else.  From fresh counters the
/// combination is `comb0.c`.
pub proof fn lemma_cylinders_only(s0: nat, c0: nat, stmts: Seq<AstS>)
    requires
        all_cylinders(stmts),
    ensures
        spec_gen_scope(s0, c0, CSGOperation::Union, stmts).text == cyl_lines(s0, stmts) + seq![
            99u8,
            111,
            109,
            98,
            32,
        ] + comb_name(c0) + cyl_children(s0, stmts.len()) + seq![10u8],
        spec_gen_scope(s0, c0, CSGOperation::Union, stmts).solid == s0 + stmts.len(),
        spec_gen_scope(s0, c0, CSGOperation::Union, stmts).comb == c0,
{
    lemma_cyl_items(s0, c0, c0, stmts);
    lemma_cyl_children_bytes(s0, stmts.len());
    assert(spec_gen_scope(s0, c0, CSGOperation::Union, stmts).text =~= cyl_lines(s0, stmts) + seq![
        99u8,
        111,
        109,
        98,
        32,
    ] + comb_name(c0) + cyl_children(s0, stmts.len()) + seq![10u8]);
}

/// Law: generation is deterministic.  Two passes over the same statements
/// with the same combinator, each starting from freshly zeroed counters,
/// yield byte-identical scripts.
pub proof fn lemma_generation_deterministic(
    op: CSGOperation,
    stmts: Seq<AstS>,
    out1: Seq<u8>,
    out2: Seq<u8>,
)
    requires
        out1 == spec_gen_scope(0, 0, op, stmts).text,
        out2 == spec_gen_scope(0, 0, op, stmts).text,
    ensures
        out1 == out2,
{
}

proof fn lemma_unknown_items(solid: nat, comb: nat, my: nat, stmts: Seq<AstS>, i: int)
    requires
        0 <= i < stmts.len(),
        stmts[i] is Unknown,
    ensures
        spec_gen_items(solid, comb, my, stmts.remove(i)) == spec_gen_items(solid, comb, my, stmts),
    decreases stmts.len(),
{
    if i == stmts.len() - 1 {
        assert(stmts.remove(i) =~= stmts.drop_last());
    } else {
        lemma_unknown_items(solid, comb, my, stmts.drop_last(), i);
        assert(stmts.remove(i).drop_last() =~= stmts.drop_last().remove(i));
        assert(stmts.remove(i).last() == stmts.last());
    }
}

/// Law: an unrecognized construct contributes nothing.  Dropping an `Unknown`
/// statement anywhere in a scope leaves the generated text, the child list
/// and both counters unchanged, so its recognized siblings are unaffected.
pub proof fn lemma_unknown_dropped(
    solid: nat,
    comb: nat,
    op: CSGOperation,
    stmts: Seq<AstS>,
    i: int,
)
    requires
        0 <= i < stmts.len(),
        stmts[i] is Unknown,
    ensures
        spec_gen_scope(solid, comb, op, stmts.remove(i)) == spec_gen_scope(solid, comb, op, stmts),
{
    lemma_unknown_items(solid, comb, comb, stmts, i);
}

/// Law: a transform wrapping one default primitive emits exactly one
/// transform statement.  It names the enclosing scope's combination and the
/// freshly numbered child combination, and flattens the matrix scalars
/// row-major; the rest of the scope is the primitive, the child's union
/// combination, and the scope's own combination listing the child.
pub proof fn lemma_multmatrix_single_cylinder(s0: nat, c0: nat, m: Seq<Seq<DecimalS>>)
    ensures
        ({
            let cyl = AstS::Cylinder {
                h: one_decimal(),
                r1: one_decimal(),
                r2: one_decimal(),
                center: false,
            };
            let node = AstS::MultMatrix {
                matrix: m,
                block: Box::new(AstS::Block { statements: seq![cyl] }),
            };
            spec_gen_scope(s0, c0, CSGOperation::Union, seq![node]).text == prim_line(
                s0,
                one_decimal(),
                one_decimal(),
                one_decimal(),
                false,
            ) + comb_line(c0 + 1, CSGOperation::Union, seq![cyl_name(s0)]) + comb_line(
                c0,
                CSGOperation::Union,
                seq![comb_name(c0 + 1)],
            ) + arced_line(c0, c0 + 1, m)
        }),
{
    let cyl = AstS::Cylinder {
        h: one_decimal(),
        r1: one_decimal(),
        r2: one_decimal(),
        center: false,
    };
    let node = AstS::MultMatrix {
        matrix: m,
        block: Box::new(AstS::Block { statements: seq![cyl] }),
    };
    assert(seq![cyl].drop_last() =~= Seq::<AstS>::empty());
    assert(seq![cyl].last() == cyl);
    assert(spec_gen_items(s0, c0 + 1, c0 + 1, Seq::<AstS>::empty()) == (GenItems {
        text: Seq::<u8>::empty(),
        children: Seq::<Seq<u8>>::empty(),
        arcs: Seq::<u8>::empty(),
        solid: s0,
        comb: (c0 + 1) as nat,
    }));
    assert(spec_gen_items(s0, c0, c0, Seq::<AstS>::empty()) == (GenItems {
        text: Seq::<u8>::empty(),
        children: Seq::<Seq<u8>>::empty(),
        arcs: Seq::<u8>::empty(),
        solid: s0,
        comb: c0,
    }));
    let inner_items = spec_gen_items(s0, c0 + 1, c0 + 1, seq![cyl]);
    assert(inner_items.text =~= prim_line(s0, one_decimal(), one_decimal(), one_decimal(), false));
    assert(inner_items.children =~= seq![cyl_name(s0)]);
    assert(inner_items.arcs =~= Seq::<u8>::empty());
    let inner = spec_gen_scope(s0, c0 + 1, CSGOperation::Union, seq![cyl]);
    assert(inner.text =~= prim_line(s0, one_decimal(), one_decimal(), one_decimal(), false)
        + comb_line(c0 + 1, CSGOperation::Union, seq![cyl_name(s0)]));
    assert(seq![node].drop_last() =~= Seq::<AstS>::empty());
    assert(seq![node].last() == node);
    let items = spec_gen_items(s0, c0, c0, seq![node]);
    assert(items.text == inner.text);
    assert(items.children =~= seq![comb_name(c0 + 1)]);
    assert(items.arcs =~= arced_line(c0, c0 + 1, m));
    assert(spec_gen_scope(s0, c0, CSGOperation::Union, seq![node]).text =~= prim_line(
        s0,
        one_decimal(),
        one_decimal(),
        one_decimal(),
        false,
    ) + comb_line(c0 + 1, CSGOperation::Union, seq![cyl_name(s0)]) + comb_line(
        c0,
        CSGOperation::Union,
        seq![comb_name(c0 + 1)],
    ) + arced_line(c0, c0 + 1, m));
}

} // verus!
