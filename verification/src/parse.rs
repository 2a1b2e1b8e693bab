//! The grammar and the parser.
//!
//! The source language is a sequence of function calls.  A call is an
//! identifier followed by either a parenthesized argument list (ended by a
//! `;`, or followed by a brace block for transform calls) or a brace block of
//! further calls.  Argument values are decimal numbers, the boolean literals,
//! or a bracketed matrix of bracketed rows of numbers.
//!
//! The whole grammar is written below twice: once as spec functions — a
//! deterministic recursive-descent parser over the byte sequence, returning
//! either a parse tree and an end position or the first byte offset the
//! grammar cannot match — and once as executable functions proved to return
//! exactly what the spec functions say.

use vstd::prelude::*;

use crate::CsgError;
use crate::ast::matrix_wf;
use crate::ast::view_matrix;
use crate::ast::view_row;
use crate::decimal::Decimal;
use crate::decimal::DecimalS;
use crate::decimal::dec_wf;
use crate::decimal::digits_wf;

verus! {

/// A value in an argument position.
pub enum Value {
    Num(Decimal),
    Bool(bool),
    Matrix(Vec<Vec<Decimal>>),
}

/// One argument: `name = value`, or a bare positional value.
pub struct Arg {
    pub name: Option<Vec<u8>>,
    pub value: Value,
}

/// One function call of the concrete parse tree.
pub struct Call {
    pub ident: Vec<u8>,
    pub args: Option<Vec<Arg>>,
    pub block: Option<Vec<Call>>,
}

/// The mathematical view of a [`Value`].
pub enum ValueS {
    Num(DecimalS),
    Bool(bool),
    Matrix(Seq<Seq<DecimalS>>),
}

/// The mathematical view of an [`Arg`].
pub struct ArgS {
    pub name: Option<Seq<u8>>,
    pub value: ValueS,
}

/// The mathematical view of a [`Call`].
pub struct CallS {
    pub ident: Seq<u8>,
    pub args: Option<Seq<ArgS>>,
    pub block: Option<Seq<CallS>>,
}

pub open spec fn value_view(v: Value) -> ValueS {
    match v {
        Value::Num(d) => ValueS::Num(d@),
        Value::Bool(b) => ValueS::Bool(b),
        Value::Matrix(m) => ValueS::Matrix(view_matrix(m@)),
    }
}

pub open spec fn arg_view(a: Arg) -> ArgS {
    ArgS {
        name: match a.name {
            Some(n) => Some(n@),
            None => None,
        },
        value: value_view(a.value),
    }
}

pub open spec fn args_view(s: Seq<Arg>) -> Seq<ArgS> {
    s.map(|i: int, a: Arg| arg_view(a))
}

pub open spec fn call_view(c: Call) -> CallS
    decreases c,
{
    CallS {
        ident: c.ident@,
        args: match c.args {
            Some(a) => Some(args_view(a@)),
            None => None,
        },
        block: match c.block {
            Some(b) => Some(calls_view(b@)),
            None => None,
        },
    }
}

pub open spec fn calls_view(s: Seq<Call>) -> Seq<CallS>
    decreases s,
{
    if s.len() == 0 {
        Seq::empty()
    } else {
        calls_view(s.drop_last()).push(call_view(s.last()))
    }
}

pub broadcast proof fn lemma_calls_view_len(s: Seq<Call>)
    ensures
        #[trigger] calls_view(s).len() == s.len(),
    decreases s,
{
    if s.len() > 0 {
        lemma_calls_view_len(s.drop_last());
    }
}

pub broadcast proof fn lemma_calls_view_index(s: Seq<Call>, i: int)
    requires
        0 <= i < s.len(),
    ensures
        #[trigger] calls_view(s)[i] == call_view(s[i]),
    decreases s,
{
    lemma_calls_view_len(s);
    if i < s.len() - 1 {
        lemma_calls_view_index(s.drop_last(), i);
    }
}

/// Prepending one call prepends its view.
pub proof fn lemma_calls_view_cons(c: Call, s: Seq<Call>)
    ensures
        calls_view(seq![c] + s) == seq![call_view(c)] + calls_view(s),
    decreases s,
{
    if s.len() == 0 {
        assert((seq![c] + s).drop_last() =~= Seq::<Call>::empty());
        assert((seq![c] + s).last() == c);
        assert(calls_view(Seq::<Call>::empty()) =~= Seq::<CallS>::empty());
        assert(calls_view(s) =~= Seq::<CallS>::empty());
        assert(calls_view(seq![c] + s) =~= seq![call_view(c)] + calls_view(s));
    } else {
        lemma_calls_view_cons(c, s.drop_last());
        assert((seq![c] + s).drop_last() =~= seq![c] + s.drop_last());
        assert((seq![c] + s).last() == s.last());
        assert(calls_view(seq![c] + s) =~= seq![call_view(c)] + calls_view(s));
    }
}

/// Well-formedness: every decimal in a value, argument or call tree has digit
/// values only.
pub open spec fn value_wf(v: ValueS) -> bool {
    match v {
        ValueS::Num(d) => dec_wf(d),
        ValueS::Bool(_) => true,
        ValueS::Matrix(m) => matrix_wf(m),
    }
}

pub open spec fn args_wf(s: Seq<ArgS>) -> bool {
    forall|i: int| 0 <= i < s.len() ==> value_wf(#[trigger] s[i].value)
}

pub open spec fn call_wf(c: CallS) -> bool
    decreases c,
{
    &&& match c.args {
        Some(a) => args_wf(a),
        None => true,
    }
    &&& match c.block {
        Some(b) => calls_wf(b),
        None => true,
    }
}

pub open spec fn calls_wf(s: Seq<CallS>) -> bool
    decreases s,
{
    forall|i: int| 0 <= i < s.len() ==> call_wf(#[trigger] s[i])
}

/// The weight of a call: itself plus everything in its block.  It bounds how
/// many solid and combination names generating the call can consume.
pub open spec fn call_weight(c: CallS) -> nat
    decreases c,
{
    1 + match c.block {
        Some(b) => calls_weight(b),
        None => 0,
    }
}

pub open spec fn calls_weight(s: Seq<CallS>) -> nat
    decreases s,
{
    if s.len() == 0 {
        0
    } else {
        calls_weight(s.drop_last()) + call_weight(s.last())
    }
}

/// Prepending one call adds its weight.
pub proof fn lemma_calls_weight_cons(c: CallS, s: Seq<CallS>)
    ensures
        calls_weight(seq![c] + s) == call_weight(c) + calls_weight(s),
    decreases s,
{
    if s.len() == 0 {
        assert((seq![c] + s).drop_last() =~= Seq::<CallS>::empty());
        assert((seq![c] + s).last() == c);
        assert(calls_weight(Seq::<CallS>::empty()) == 0);
        assert(calls_weight(s) == 0);
    } else {
        lemma_calls_weight_cons(c, s.drop_last());
        assert((seq![c] + s).drop_last() =~= seq![c] + s.drop_last());
        assert((seq![c] + s).last() == s.last());
    }
}

// ---------------------------------------------------------------------------
// Character classes.
// ---------------------------------------------------------------------------

/// Space, tab, line feed or carriage return.
pub open spec fn is_ws(b: u8) -> bool {
    b == 32 || b == 9 || b == 10 || b == 13
}

/// An ASCII decimal digit.
pub open spec fn is_digit(b: u8) -> bool {
    48 <= b <= 57
}

/// A letter, `_` or `$` may start an identifier.
pub open spec fn is_ident_start(b: u8) -> bool {
    (65 <= b <= 90) || (97 <= b <= 122) || b == 95 || b == 36
}

/// Identifiers continue with letters, digits, `_` or `$`.
pub open spec fn is_ident_char(b: u8) -> bool {
    is_ident_start(b) || is_digit(b)
}

// ---------------------------------------------------------------------------
// The grammar as spec functions.  Each takes the source and a position and
// returns the parsed piece with the position after it, or the position of the
// first byte it cannot match.
// ---------------------------------------------------------------------------

/// How many whitespace bytes follow `pos`.
pub open spec fn ws_len(src: Seq<u8>, pos: int) -> nat
    decreases src.len() - pos,
{
    if 0 <= pos < src.len() && is_ws(src[pos]) {
        1 + ws_len(src, pos + 1)
    } else {
        0
    }
}

/// The first position at or after `pos` holding no whitespace.
pub open spec fn sp_ws(src: Seq<u8>, pos: int) -> int {
    pos + ws_len(src, pos)
}

/// How many digit bytes follow `pos`.
pub open spec fn digits_len(src: Seq<u8>, pos: int) -> nat
    decreases src.len() - pos,
{
    if 0 <= pos < src.len() && is_digit(src[pos]) {
        1 + digits_len(src, pos + 1)
    } else {
        0
    }
}

/// How many identifier bytes follow `pos`.
pub open spec fn ident_len(src: Seq<u8>, pos: int) -> nat
    decreases src.len() - pos,
{
    if 0 <= pos < src.len() && is_ident_char(src[pos]) {
        1 + ident_len(src, pos + 1)
    } else {
        0
    }
}

/// Digit bytes read as digit values.
pub open spec fn digit_vals(s: Seq<u8>) -> Seq<u8> {
    s.map(|i: int, b: u8| (b - 48) as u8)
}

/// A number: an optional `-`, integer digits, and optionally a `.` with
/// fraction digits.
pub open spec fn sp_number(src: Seq<u8>, pos: int) -> Result<(DecimalS, int), int> {
    let neg = 0 <= pos < src.len() && src[pos] == 45;
    let p = if neg {
        pos + 1
    } else {
        pos
    };
    let d1 = p + digits_len(src, p);
    if d1 == p {
        Err(p)
    } else {
        let ip = digit_vals(src.subrange(p, d1));
        if d1 < src.len() && src[d1] == 46 {
            let p2 = d1 + 1;
            let d2 = p2 + digits_len(src, p2);
            if d2 == p2 {
                Err(p2)
            } else {
                Ok(
                    (
                        DecimalS {
                            neg,
                            int_digits: ip,
                            frac_digits: digit_vals(src.subrange(p2, d2)),
                        },
                        d2,
                    ),
                )
            }
        } else {
            Ok((DecimalS { neg, int_digits: ip, frac_digits: Seq::empty() }, d1))
        }
    }
}

/// After the first number of a row: `]` ends the row, `,` brings the next
/// number.
pub open spec fn sp_nums_rest(src: Seq<u8>, pos: int) -> Result<(Seq<DecimalS>, int), int>
    decreases src.len() - pos,
{
    if 0 <= pos < src.len() && src[pos] == 93 {
        Ok((Seq::empty(), pos + 1))
    } else if 0 <= pos < src.len() && src[pos] == 44 {
        let p = sp_ws(src, pos + 1);
        match sp_number(src, p) {
            Ok((d, p2)) => {
                let p3 = sp_ws(src, p2);
                if p3 <= pos || src.len() < p3 {
                    // The parser only advances and stays inside the input;
                    // this keeps the recursion bounded.
                    Err(p3)
                } else {
                    match sp_nums_rest(src, p3) {
                        Ok((ds, p4)) => Ok((seq![d] + ds, p4)),
                        Err(e) => Err(e),
                    }
                }
            },
            Err(e) => Err(e),
        }
    } else {
        Err(pos)
    }
}

/// A row: `[` then numbers separated by commas, then `]`.
pub open spec fn sp_row(src: Seq<u8>, pos: int) -> Result<(Seq<DecimalS>, int), int> {
    if !(0 <= pos < src.len() && src[pos] == 91) {
        Err(pos)
    } else {
        let p = sp_ws(src, pos + 1);
        if p < src.len() && src[p] == 93 {
            Ok((Seq::empty(), p + 1))
        } else {
            match sp_number(src, p) {
                Ok((d, p2)) => {
                    let p3 = sp_ws(src, p2);
                    match sp_nums_rest(src, p3) {
                        Ok((ds, p4)) => Ok((seq![d] + ds, p4)),
                        Err(e) => Err(e),
                    }
                },
                Err(e) => Err(e),
            }
        }
    }
}

/// After the first row of a matrix: `]` ends the matrix, `,` brings the next
/// row.
pub open spec fn sp_rows_rest(src: Seq<u8>, pos: int) -> Result<(Seq<Seq<DecimalS>>, int), int>
    decreases src.len() - pos,
{
    if 0 <= pos < src.len() && src[pos] == 93 {
        Ok((Seq::empty(), pos + 1))
    } else if 0 <= pos < src.len() && src[pos] == 44 {
        let p = sp_ws(src, pos + 1);
        match sp_row(src, p) {
            Ok((r, p2)) => {
                let p3 = sp_ws(src, p2);
                if p3 <= pos || src.len() < p3 {
                    // The parser only advances and stays inside the input;
                    // this keeps the recursion bounded.
                    Err(p3)
                } else {
                    match sp_rows_rest(src, p3) {
                        Ok((rs, p4)) => Ok((seq![r] + rs, p4)),
                        Err(e) => Err(e),
                    }
                }
            },
            Err(e) => Err(e),
        }
    } else {
        Err(pos)
    }
}

/// A matrix: `[` then rows separated by commas, then `]`.
pub open spec fn sp_matrix(src: Seq<u8>, pos: int) -> Result<(Seq<Seq<DecimalS>>, int), int> {
    if !(0 <= pos < src.len() && src[pos] == 91) {
        Err(pos)
    } else {
        let p = sp_ws(src, pos + 1);
        if p < src.len() && src[p] == 93 {
            Ok((Seq::empty(), p + 1))
        } else {
            match sp_row(src, p) {
                Ok((r, p2)) => {
                    let p3 = sp_ws(src, p2);
                    match sp_rows_rest(src, p3) {
                        Ok((rs, p4)) => Ok((seq![r] + rs, p4)),
                        Err(e) => Err(e),
                    }
                },
                Err(e) => Err(e),
            }
        }
    }
}

/// A value: a number, a matrix, or one of the boolean keywords.
pub open spec fn sp_value(src: Seq<u8>, pos: int) -> Result<(ValueS, int), int> {
    if 0 <= pos < src.len() && (src[pos] == 45 || is_digit(src[pos])) {
        match sp_number(src, pos) {
            Ok((d, p)) => Ok((ValueS::Num(d), p)),
            Err(e) => Err(e),
        }
    } else if 0 <= pos < src.len() && src[pos] == 91 {
        match sp_matrix(src, pos) {
            Ok((m, p)) => Ok((ValueS::Matrix(m), p)),
            Err(e) => Err(e),
        }
    } else if 0 <= pos < src.len() && is_ident_start(src[pos]) {
        let ie = pos + ident_len(src, pos);
        let ident = src.subrange(pos, ie);
        if ident == seq![116u8, 114, 117, 101] {
            Ok((ValueS::Bool(true), ie))
        } else if ident == seq![102u8, 97, 108, 115, 101] {
            Ok((ValueS::Bool(false), ie))
        } else {
            Err(pos)
        }
    } else {
        Err(pos)
    }
}

/// An argument: `name = value`, a boolean keyword, or a bare value.
pub open spec fn sp_arg(src: Seq<u8>, pos: int) -> Result<(ArgS, int), int> {
    if 0 <= pos < src.len() && is_ident_start(src[pos]) {
        let ie = pos + ident_len(src, pos);
        let ident = src.subrange(pos, ie);
        if ident == seq![116u8, 114, 117, 101] {
            Ok((ArgS { name: None, value: ValueS::Bool(true) }, ie))
        } else if ident == seq![102u8, 97, 108, 115, 101] {
            Ok((ArgS { name: None, value: ValueS::Bool(false) }, ie))
        } else {
            let p = sp_ws(src, ie);
            if p < src.len() && src[p] == 61 {
                let p2 = sp_ws(src, p + 1);
                match sp_value(src, p2) {
                    Ok((v, p3)) => Ok((ArgS { name: Some(ident), value: v }, p3)),
                    Err(e) => Err(e),
                }
            } else {
                Err(p)
            }
        }
    } else {
        match sp_value(src, pos) {
            Ok((v, p)) => Ok((ArgS { name: None, value: v }, p)),
            Err(e) => Err(e),
        }
    }
}

/// After the first argument: `)` ends the list, `,` brings the next argument.
pub open spec fn sp_args_rest(src: Seq<u8>, pos: int) -> Result<(Seq<ArgS>, int), int>
    decreases src.len() - pos,
{
    if 0 <= pos < src.len() && src[pos] == 41 {
        Ok((Seq::empty(), pos + 1))
    } else if 0 <= pos < src.len() && src[pos] == 44 {
        let p = sp_ws(src, pos + 1);
        match sp_arg(src, p) {
            Ok((a, p2)) => {
                let p3 = sp_ws(src, p2);
                if p3 <= pos || src.len() < p3 {
                    // The parser only advances and stays inside the input;
                    // this keeps the recursion bounded.
                    Err(p3)
                } else {
                    match sp_args_rest(src, p3) {
                        Ok((rest, p4)) => Ok((seq![a] + rest, p4)),
                        Err(e) => Err(e),
                    }
                }
            },
            Err(e) => Err(e),
        }
    } else {
        Err(pos)
    }
}

/// An argument list: `(` then arguments separated by commas, then `)`.
pub open spec fn sp_arg_list(src: Seq<u8>, pos: int) -> Result<(Seq<ArgS>, int), int> {
    if !(0 <= pos < src.len() && src[pos] == 40) {
        Err(pos)
    } else {
        let p = sp_ws(src, pos + 1);
        if p < src.len() && src[p] == 41 {
            Ok((Seq::empty(), p + 1))
        } else {
            match sp_arg(src, p) {
                Ok((a, p2)) => {
                    let p3 = sp_ws(src, p2);
                    match sp_args_rest(src, p3) {
                        Ok((rest, p4)) => Ok((seq![a] + rest, p4)),
                        Err(e) => Err(e),
                    }
                },
                Err(e) => Err(e),
            }
        }
    }
}

/// One function call: an identifier, then an argument list ended by `;` or
/// followed by a block, or a bare block.
pub open spec fn sp_call(src: Seq<u8>, pos: int) -> Result<(CallS, int), int>
    decreases src.len() - pos, 1int,
{
    if !(0 <= pos < src.len() && is_ident_start(src[pos])) {
        Err(pos)
    } else {
        let ie = pos + ident_len(src, pos);
        let ident = src.subrange(pos, ie);
        let p = sp_ws(src, ie);
        if p < src.len() && src[p] == 40 {
            match sp_arg_list(src, p) {
                Ok((args, p2)) => {
                    let p3 = sp_ws(src, p2);
                    if p3 < pos {
                        // The parser only advances; this keeps the recursion bounded.
                        Err(p3)
                    } else if p3 < src.len() && src[p3] == 123 {
                        match sp_block(src, p3) {
                            Ok((b, p4)) => Ok(
                                (CallS { ident, args: Some(args), block: Some(b) }, p4),
                            ),
                            Err(e) => Err(e),
                        }
                    } else if p3 < src.len() && src[p3] == 59 {
                        Ok((CallS { ident, args: Some(args), block: None }, p3 + 1))
                    } else {
                        Err(p3)
                    }
                },
                Err(e) => Err(e),
            }
        } else if p < src.len() && src[p] == 123 {
            match sp_block(src, p) {
                Ok((b, p2)) => Ok((CallS { ident, args: None, block: Some(b) }, p2)),
                Err(e) => Err(e),
            }
        } else {
            Err(p)
        }
    }
}

/// A block: `{`, the calls inside it, `}`.
pub open spec fn sp_block(src: Seq<u8>, pos: int) -> Result<(Seq<CallS>, int), int>
    decreases src.len() - pos, 0int,
{
    if !(0 <= pos < src.len() && src[pos] == 123) {
        Err(pos)
    } else {
        match sp_calls(src, pos + 1) {
            Ok((cs, p2)) => if p2 < src.len() && src[p2] == 125 {
                Ok((cs, p2 + 1))
            } else {
                Err(p2)
            },
            Err(e) => Err(e),
        }
    }
}

/// A sequence of calls, up to a closing `}` or the end of the input (neither
/// is consumed).
pub open spec fn sp_calls(src: Seq<u8>, pos: int) -> Result<(Seq<CallS>, int), int>
    decreases src.len() - pos, 2int,
{
    let p = sp_ws(src, pos);
    if p >= src.len() || src[p] == 125 {
        Ok((Seq::empty(), p))
    } else {
        match sp_call(src, p) {
            Ok((c, p2)) => {
                if p2 <= p || src.len() < p2 {
                    // The parser only advances and stays inside the input;
                    // this keeps the recursion bounded.
                    Err(p2)
                } else {
                    match sp_calls(src, p2) {
                        Ok((cs, p3)) => Ok((seq![c] + cs, p3)),
                        Err(e) => Err(e),
                    }
                }
            },
            Err(e) => Err(e),
        }
    }
}

/// A whole program: calls up to the end of the input.  A stray `}` is the
/// first unmatched position.
pub open spec fn sp_program(src: Seq<u8>) -> Result<Seq<CallS>, int> {
    match sp_calls(src, 0) {
        Ok((cs, p)) => if p == src.len() {
            Ok(cs)
        } else {
            Err(p)
        },
        Err(e) => Err(e),
    }
}


// ---------------------------------------------------------------------------
// The executable parser, proved equal to the spec functions above.
// ---------------------------------------------------------------------------

fn ws_byte(b: u8) -> (r: bool)
    ensures
        r == is_ws(b),
{
    b == 32 || b == 9 || b == 10 || b == 13
}

fn digit_byte(b: u8) -> (r: bool)
    ensures
        r == is_digit(b),
{
    48 <= b && b <= 57
}

fn ident_start_byte(b: u8) -> (r: bool)
    ensures
        r == is_ident_start(b),
{
    (65 <= b && b <= 90) || (97 <= b && b <= 122) || b == 95 || b == 36
}

fn ident_char_byte(b: u8) -> (r: bool)
    ensures
        r == is_ident_char(b),
{
    ident_start_byte(b) || digit_byte(b)
}

/// Skips whitespace.
pub fn skip_ws(src: &[u8], pos: usize) -> (r: usize)
    requires
        pos <= src@.len(),
    ensures
        r as int == sp_ws(src@, pos as int),
        pos <= r <= src@.len(),
{
    let mut i = pos;
    while i < src.len() && ws_byte(src[i])
        invariant
            pos <= i <= src@.len(),
            sp_ws(src@, pos as int) == sp_ws(src@, i as int),
        decreases src@.len() - i,
    {
        proof {
            assert(ws_len(src@, i as int) == 1 + ws_len(src@, i + 1));
        }
        i = i + 1;
    }
    proof {
        assert(ws_len(src@, i as int) == 0);
    }
    i
}

/// Scans past decimal digits.
fn scan_digits(src: &[u8], pos: usize) -> (r: usize)
    requires
        pos <= src@.len(),
    ensures
        r as int == pos + digits_len(src@, pos as int),
        pos <= r <= src@.len(),
        forall|j: int| pos <= j < r ==> is_digit(src@[j]),
    decreases src@.len() - pos,
{
    let mut i = pos;
    while i < src.len() && digit_byte(src[i])
        invariant
            pos <= i <= src@.len(),
            pos + digits_len(src@, pos as int) == i + digits_len(src@, i as int),
            forall|j: int| pos <= j < i ==> is_digit(src@[j]),
        decreases src@.len() - i,
    {
        proof {
            assert(digits_len(src@, i as int) == 1 + digits_len(src@, i + 1));
        }
        i = i + 1;
    }
    proof {
        assert(digits_len(src@, i as int) == 0);
    }
    i
}

/// Scans past identifier bytes.
fn scan_ident(src: &[u8], pos: usize) -> (r: usize)
    requires
        pos <= src@.len(),
    ensures
        r as int == pos + ident_len(src@, pos as int),
        pos <= r <= src@.len(),
    decreases src@.len() - pos,
{
    let mut i = pos;
    while i < src.len() && ident_char_byte(src[i])
        invariant
            pos <= i <= src@.len(),
            pos + ident_len(src@, pos as int) == i + ident_len(src@, i as int),
        decreases src@.len() - i,
    {
        proof {
            assert(ident_len(src@, i as int) == 1 + ident_len(src@, i + 1));
        }
        i = i + 1;
    }
    proof {
        assert(ident_len(src@, i as int) == 0);
    }
    i
}

/// Copies `src[from..to]`.
fn copy_range(src: &[u8], from: usize, to: usize) -> (r: Vec<u8>)
    requires
        from <= to <= src@.len(),
    ensures
        r@ == src@.subrange(from as int, to as int),
{
    let mut r: Vec<u8> = Vec::new();
    let mut i = from;
    while i < to
        invariant
            from <= i <= to <= src@.len(),
            r@ == src@.subrange(from as int, i as int),
        decreases to - i,
    {
        r.push(src[i]);
        proof {
            assert(src@.subrange(from as int, i + 1) =~= src@.subrange(from as int, i as int).push(
                src@[i as int],
            ));
        }
        i = i + 1;
    }
    r
}

/// Reads the digit bytes of `src[from..to]` as digit values.
fn digits_to_vals(src: &[u8], from: usize, to: usize) -> (r: Vec<u8>)
    requires
        from <= to <= src@.len(),
        forall|j: int| from <= j < to ==> is_digit(src@[j]),
    ensures
        r@ == digit_vals(src@.subrange(from as int, to as int)),
        digits_wf(r@),
        r@.len() == to - from,
{
    let mut r: Vec<u8> = Vec::new();
    let mut i = from;
    while i < to
        invariant
            from <= i <= to <= src@.len(),
            forall|j: int| from <= j < to ==> is_digit(src@[j]),
            r@.len() == i - from,
            forall|k: int| 0 <= k < r@.len() ==> r@[k] == src@[from + k] - 48,
        decreases to - i,
    {
        r.push(src[i] - 48);
        i = i + 1;
    }
    proof {
        assert(r@ =~= digit_vals(src@.subrange(from as int, to as int)));
    }
    r
}

/// Whether two byte strings hold the same bytes.
fn bytes_eq(a: &[u8], b: &[u8]) -> (r: bool)
    ensures
        r == (a@ == b@),
{
    if a.len() != b.len() {
        return false;
    }
    let mut i: usize = 0;
    while i < a.len()
        invariant
            a@.len() == b@.len(),
            i <= a@.len(),
            forall|j: int| 0 <= j < i ==> a@[j] == b@[j],
        decreases a@.len() - i,
    {
        if a[i] != b[i] {
            return false;
        }
        i = i + 1;
    }
    proof {
        assert(a@ =~= b@);
    }
    true
}

/// Parses a number.
pub fn parse_number(src: &[u8], pos: usize) -> (r: Result<(Decimal, usize), usize>)
    requires
        pos <= src@.len(),
    ensures
        match r {
            Ok((d, p)) => {
                &&& sp_number(src@, pos as int) == Ok::<(DecimalS, int), int>((d@, p as int))
                &&& pos < p <= src@.len()
                &&& dec_wf(d@)
            },
            Err(e) => sp_number(src@, pos as int) == Err::<(DecimalS, int), int>(e as int),
        },
{
    let neg = pos < src.len() && src[pos] == 45;
    let p = if neg {
        pos + 1
    } else {
        pos
    };
    let d1 = scan_digits(src, p);
    if d1 == p {
        return Err(p);
    }
    let int_digits = digits_to_vals(src, p, d1);
    if d1 < src.len() && src[d1] == 46 {
        let p2 = d1 + 1;
        let d2 = scan_digits(src, p2);
        if d2 == p2 {
            return Err(p2);
        }
        let frac_digits = digits_to_vals(src, p2, d2);
        let d = Decimal { neg, int_digits, frac_digits };
        Ok((d, d2))
    } else {
        let d = Decimal { neg, int_digits, frac_digits: Vec::new() };
        proof {
            assert(d@.frac_digits =~= Seq::<u8>::empty());
        }
        Ok((d, d1))
    }
}

/// Every decimal of a row is well formed.
pub open spec fn row_wf(r: Seq<DecimalS>) -> bool {
    forall|i: int| 0 <= i < r.len() ==> dec_wf(#[trigger] r[i])
}

/// Parses the rest of a row after its first number.
fn parse_nums_rest(src: &[u8], pos: usize) -> (r: Result<(Vec<Decimal>, usize), usize>)
    requires
        pos <= src@.len(),
    ensures
        match r {
            Ok((ds, p)) => {
                &&& sp_nums_rest(src@, pos as int) == Ok::<(Seq<DecimalS>, int), int>(
                    (view_row(ds@), p as int),
                )
                &&& pos < p <= src@.len()
                &&& row_wf(view_row(ds@))
            },
            Err(e) => sp_nums_rest(src@, pos as int) == Err::<(Seq<DecimalS>, int), int>(e as int),
        },
    decreases src@.len() - pos,
{
    if pos < src.len() && src[pos] == 93 {
        let ds: Vec<Decimal> = Vec::new();
        proof {
            assert(view_row(ds@) =~= Seq::<DecimalS>::empty());
        }
        return Ok((ds, pos + 1));
    }
    if pos < src.len() && src[pos] == 44 {
        let p = skip_ws(src, pos + 1);
        match parse_number(src, p) {
            Ok((d, p2)) => {
                let p3 = skip_ws(src, p2);
                match parse_nums_rest(src, p3) {
                    Ok((mut ds, p4)) => {
                        let ghost dso = ds@;
                        ds.insert(0, d);
                        proof {
                            assert(ds@ =~= seq![d] + dso);
                            assert(view_row(ds@) =~= seq![d@] + view_row(dso));
                        }
                        Ok((ds, p4))
                    },
                    Err(e) => Err(e),
                }
            },
            Err(e) => Err(e),
        }
    } else {
        Err(pos)
    }
}

/// Parses a row.
fn parse_row(src: &[u8], pos: usize) -> (r: Result<(Vec<Decimal>, usize), usize>)
    requires
        pos <= src@.len(),
    ensures
        match r {
            Ok((ds, p)) => {
                &&& sp_row(src@, pos as int) == Ok::<(Seq<DecimalS>, int), int>(
                    (view_row(ds@), p as int),
                )
                &&& pos < p <= src@.len()
                &&& row_wf(view_row(ds@))
            },
            Err(e) => sp_row(src@, pos as int) == Err::<(Seq<DecimalS>, int), int>(e as int),
        },
{
    if !(pos < src.len() && src[pos] == 91) {
        return Err(pos);
    }
    let p = skip_ws(src, pos + 1);
    if p < src.len() && src[p] == 93 {
        let ds: Vec<Decimal> = Vec::new();
        proof {
            assert(view_row(ds@) =~= Seq::<DecimalS>::empty());
        }
        return Ok((ds, p + 1));
    }
    match parse_number(src, p) {
        Ok((d, p2)) => {
            let p3 = skip_ws(src, p2);
            match parse_nums_rest(src, p3) {
                Ok((mut ds, p4)) => {
                    let ghost dso = ds@;
                    ds.insert(0, d);
                    proof {
                        assert(ds@ =~= seq![d] + dso);
                        assert(view_row(ds@) =~= seq![d@] + view_row(dso));
                    }
                    Ok((ds, p4))
                },
                Err(e) => Err(e),
            }
        },
        Err(e) => Err(e),
    }
}

/// Parses the rest of a matrix after its first row.
fn parse_rows_rest(src: &[u8], pos: usize) -> (r: Result<(Vec<Vec<Decimal>>, usize), usize>)
    requires
        pos <= src@.len(),
    ensures
        match r {
            Ok((m, p)) => {
                &&& sp_rows_rest(src@, pos as int) == Ok::<(Seq<Seq<DecimalS>>, int), int>(
                    (view_matrix(m@), p as int),
                )
                &&& pos < p <= src@.len()
                &&& matrix_wf(view_matrix(m@))
            },
            Err(e) => sp_rows_rest(src@, pos as int) == Err::<(Seq<Seq<DecimalS>>, int), int>(
                e as int,
            ),
        },
    decreases src@.len() - pos,
{
    if pos < src.len() && src[pos] == 93 {
        let m: Vec<Vec<Decimal>> = Vec::new();
        proof {
            assert(view_matrix(m@) =~= Seq::<Seq<DecimalS>>::empty());
        }
        return Ok((m, pos + 1));
    }
    if pos < src.len() && src[pos] == 44 {
        let p = skip_ws(src, pos + 1);
        match parse_row(src, p) {
            Ok((row, p2)) => {
                let p3 = skip_ws(src, p2);
                match parse_rows_rest(src, p3) {
                    Ok((mut m, p4)) => {
                        let ghost mo = m@;
                        let ghost rowv = view_row(row@);
                        m.insert(0, row);
                        proof {
                            assert(m@ =~= seq![row] + mo);
                            assert(view_matrix(m@) =~= seq![rowv] + view_matrix(mo));
                        }
                        Ok((m, p4))
                    },
                    Err(e) => Err(e),
                }
            },
            Err(e) => Err(e),
        }
    } else {
        Err(pos)
    }
}

/// Parses a matrix.
fn parse_matrix(src: &[u8], pos: usize) -> (r: Result<(Vec<Vec<Decimal>>, usize), usize>)
    requires
        pos <= src@.len(),
    ensures
        match r {
            Ok((m, p)) => {
                &&& sp_matrix(src@, pos as int) == Ok::<(Seq<Seq<DecimalS>>, int), int>(
                    (view_matrix(m@), p as int),
                )
                &&& pos < p <= src@.len()
                &&& matrix_wf(view_matrix(m@))
            },
            Err(e) => sp_matrix(src@, pos as int) == Err::<(Seq<Seq<DecimalS>>, int), int>(
                e as int,
            ),
        },
{
    if !(pos < src.len() && src[pos] == 91) {
        return Err(pos);
    }
    let p = skip_ws(src, pos + 1);
    if p < src.len() && src[p] == 93 {
        let m: Vec<Vec<Decimal>> = Vec::new();
        proof {
            assert(view_matrix(m@) =~= Seq::<Seq<DecimalS>>::empty());
        }
        return Ok((m, p + 1));
    }
    match parse_row(src, p) {
        Ok((row, p2)) => {
            let p3 = skip_ws(src, p2);
            match parse_rows_rest(src, p3) {
                Ok((mut m, p4)) => {
                    let ghost mo = m@;
                    let ghost rowv = view_row(row@);
                    m.insert(0, row);
                    proof {
                        assert(m@ =~= seq![row] + mo);
                        assert(view_matrix(m@) =~= seq![rowv] + view_matrix(mo));
                    }
                    Ok((m, p4))
                },
                Err(e) => Err(e),
            }
        },
        Err(e) => Err(e),
    }
}

/// Parses a value.
pub fn parse_value(src: &[u8], pos: usize) -> (r: Result<(Value, usize), usize>)
    requires
        pos <= src@.len(),
    ensures
        match r {
            Ok((v, p)) => {
                &&& sp_value(src@, pos as int) == Ok::<(ValueS, int), int>(
                    (value_view(v), p as int),
                )
                &&& pos < p <= src@.len()
                &&& value_wf(value_view(v))
            },
            Err(e) => sp_value(src@, pos as int) == Err::<(ValueS, int), int>(e as int),
        },
{
    if pos < src.len() && (src[pos] == 45 || digit_byte(src[pos])) {
        match parse_number(src, pos) {
            Ok((d, p)) => Ok((Value::Num(d), p)),
            Err(e) => Err(e),
        }
    } else if pos < src.len() && src[pos] == 91 {
        match parse_matrix(src, pos) {
            Ok((m, p)) => Ok((Value::Matrix(m), p)),
            Err(e) => Err(e),
        }
    } else if pos < src.len() && ident_start_byte(src[pos]) {
        let ie = scan_ident(src, pos);
        proof {
            assert(ident_len(src@, pos as int) == 1 + ident_len(src@, pos + 1));
        }
        let ident = copy_range(src, pos, ie);
        if bytes_eq(ident.as_slice(), [116u8, 114, 117, 101].as_slice()) {
            Ok((Value::Bool(true), ie))
        } else if bytes_eq(ident.as_slice(), [102u8, 97, 108, 115, 101].as_slice()) {
            Ok((Value::Bool(false), ie))
        } else {
            Err(pos)
        }
    } else {
        Err(pos)
    }
}

/// Parses an argument.
pub fn parse_arg(src: &[u8], pos: usize) -> (r: Result<(Arg, usize), usize>)
    requires
        pos <= src@.len(),
    ensures
        match r {
            Ok((a, p)) => {
                &&& sp_arg(src@, pos as int) == Ok::<(ArgS, int), int>((arg_view(a), p as int))
                &&& pos < p <= src@.len()
                &&& value_wf(arg_view(a).value)
            },
            Err(e) => sp_arg(src@, pos as int) == Err::<(ArgS, int), int>(e as int),
        },
{
    if pos < src.len() && ident_start_byte(src[pos]) {
        let ie = scan_ident(src, pos);
        proof {
            assert(ident_len(src@, pos as int) == 1 + ident_len(src@, pos + 1));
        }
        let ident = copy_range(src, pos, ie);
        if bytes_eq(ident.as_slice(), [116u8, 114, 117, 101].as_slice()) {
            Ok((Arg { name: None, value: Value::Bool(true) }, ie))
        } else if bytes_eq(ident.as_slice(), [102u8, 97, 108, 115, 101].as_slice()) {
            Ok((Arg { name: None, value: Value::Bool(false) }, ie))
        } else {
            let p = skip_ws(src, ie);
            if p < src.len() && src[p] == 61 {
                let p2 = skip_ws(src, p + 1);
                match parse_value(src, p2) {
                    Ok((v, p3)) => Ok((Arg { name: Some(ident), value: v }, p3)),
                    Err(e) => Err(e),
                }
            } else {
                Err(p)
            }
        }
    } else {
        match parse_value(src, pos) {
            Ok((v, p)) => Ok((Arg { name: None, value: v }, p)),
            Err(e) => Err(e),
        }
    }
}

/// Parses the rest of an argument list after its first argument.
fn parse_args_rest(src: &[u8], pos: usize) -> (r: Result<(Vec<Arg>, usize), usize>)
    requires
        pos <= src@.len(),
    ensures
        match r {
            Ok((args, p)) => {
                &&& sp_args_rest(src@, pos as int) == Ok::<(Seq<ArgS>, int), int>(
                    (args_view(args@), p as int),
                )
                &&& pos < p <= src@.len()
                &&& args_wf(args_view(args@))
            },
            Err(e) => sp_args_rest(src@, pos as int) == Err::<(Seq<ArgS>, int), int>(e as int),
        },
    decreases src@.len() - pos,
{
    if pos < src.len() && src[pos] == 41 {
        let args: Vec<Arg> = Vec::new();
        proof {
            assert(args_view(args@) =~= Seq::<ArgS>::empty());
        }
        return Ok((args, pos + 1));
    }
    if pos < src.len() && src[pos] == 44 {
        let p = skip_ws(src, pos + 1);
        match parse_arg(src, p) {
            Ok((a, p2)) => {
                let p3 = skip_ws(src, p2);
                match parse_args_rest(src, p3) {
                    Ok((mut args, p4)) => {
                        let ghost ao = args@;
                        let ghost av = arg_view(a);
                        args.insert(0, a);
                        proof {
                            assert(args@ =~= seq![a] + ao);
                            assert(args_view(args@) =~= seq![av] + args_view(ao));
                        }
                        Ok((args, p4))
                    },
                    Err(e) => Err(e),
                }
            },
            Err(e) => Err(e),
        }
    } else {
        Err(pos)
    }
}

/// Parses an argument list.
fn parse_arg_list(src: &[u8], pos: usize) -> (r: Result<(Vec<Arg>, usize), usize>)
    requires
        pos <= src@.len(),
    ensures
        match r {
            Ok((args, p)) => {
                &&& sp_arg_list(src@, pos as int) == Ok::<(Seq<ArgS>, int), int>(
                    (args_view(args@), p as int),
                )
                &&& pos < p <= src@.len()
                &&& args_wf(args_view(args@))
            },
            Err(e) => sp_arg_list(src@, pos as int) == Err::<(Seq<ArgS>, int), int>(e as int),
        },
{
    if !(pos < src.len() && src[pos] == 40) {
        return Err(pos);
    }
    let p = skip_ws(src, pos + 1);
    if p < src.len() && src[p] == 41 {
        let args: Vec<Arg> = Vec::new();
        proof {
            assert(args_view(args@) =~= Seq::<ArgS>::empty());
        }
        return Ok((args, p + 1));
    }
    match parse_arg(src, p) {
        Ok((a, p2)) => {
            let p3 = skip_ws(src, p2);
            match parse_args_rest(src, p3) {
                Ok((mut args, p4)) => {
                    let ghost ao = args@;
                    let ghost av = arg_view(a);
                    args.insert(0, a);
                    proof {
                        assert(args@ =~= seq![a] + ao);
                        assert(args_view(args@) =~= seq![av] + args_view(ao));
                    }
                    Ok((args, p4))
                },
                Err(e) => Err(e),
            }
        },
        Err(e) => Err(e),
    }
}

/// Parses one function call.
pub fn parse_call(src: &[u8], pos: usize) -> (r: Result<(Call, usize), usize>)
    requires
        pos <= src@.len(),
    ensures
        match r {
            Ok((c, p)) => {
                &&& sp_call(src@, pos as int) == Ok::<(CallS, int), int>((call_view(c), p as int))
                &&& pos < p <= src@.len()
                &&& call_wf(call_view(c))
                &&& call_weight(call_view(c)) <= p - pos
            },
            Err(e) => sp_call(src@, pos as int) == Err::<(CallS, int), int>(e as int),
        },
    decreases src@.len() - pos, 1int,
{
    if !(pos < src.len() && ident_start_byte(src[pos])) {
        return Err(pos);
    }
    let ie = scan_ident(src, pos);
    proof {
        assert(ident_len(src@, pos as int) == 1 + ident_len(src@, pos + 1));
    }
    let ident = copy_range(src, pos, ie);
    let p = skip_ws(src, ie);
    if p < src.len() && src[p] == 40 {
        match parse_arg_list(src, p) {
            Ok((args, p2)) => {
                let p3 = skip_ws(src, p2);
                if p3 < src.len() && src[p3] == 123 {
                    match parse_block(src, p3) {
                        Ok((b, p4)) => {
                            let c = Call { ident, args: Some(args), block: Some(b) };
                            Ok((c, p4))
                        },
                        Err(e) => Err(e),
                    }
                } else if p3 < src.len() && src[p3] == 59 {
                    let c = Call { ident, args: Some(args), block: None };
                    Ok((c, p3 + 1))
                } else {
                    Err(p3)
                }
            },
            Err(e) => Err(e),
        }
    } else if p < src.len() && src[p] == 123 {
        match parse_block(src, p) {
            Ok((b, p2)) => {
                let c = Call { ident, args: None, block: Some(b) };
                Ok((c, p2))
            },
            Err(e) => Err(e),
        }
    } else {
        Err(p)
    }
}

/// Parses a block.
pub fn parse_block(src: &[u8], pos: usize) -> (r: Result<(Vec<Call>, usize), usize>)
    requires
        pos <= src@.len(),
    ensures
        match r {
            Ok((cs, p)) => {
                &&& sp_block(src@, pos as int) == Ok::<(Seq<CallS>, int), int>(
                    (calls_view(cs@), p as int),
                )
                &&& pos < p <= src@.len()
                &&& calls_wf(calls_view(cs@))
                &&& calls_weight(calls_view(cs@)) + 2 <= p - pos
            },
            Err(e) => sp_block(src@, pos as int) == Err::<(Seq<CallS>, int), int>(e as int),
        },
    decreases src@.len() - pos, 0int,
{
    if !(pos < src.len() && src[pos] == 123) {
        return Err(pos);
    }
    match parse_calls(src, pos + 1) {
        Ok((cs, p2)) => {
            if p2 < src.len() && src[p2] == 125 {
                Ok((cs, p2 + 1))
            } else {
                Err(p2)
            }
        },
        Err(e) => Err(e),
    }
}

/// Parses calls up to a closing `}` or the end of the input.
pub fn parse_calls(src: &[u8], pos: usize) -> (r: Result<(Vec<Call>, usize), usize>)
    requires
        pos <= src@.len(),
    ensures
        match r {
            Ok((cs, p)) => {
                &&& sp_calls(src@, pos as int) == Ok::<(Seq<CallS>, int), int>(
                    (calls_view(cs@), p as int),
                )
                &&& pos <= p <= src@.len()
                &&& calls_wf(calls_view(cs@))
                &&& calls_weight(calls_view(cs@)) <= p - pos
            },
            Err(e) => sp_calls(src@, pos as int) == Err::<(Seq<CallS>, int), int>(e as int),
        },
    decreases src@.len() - pos, 2int,
{
    let p = skip_ws(src, pos);
    if p == src.len() || src[p] == 125 {
        let cs: Vec<Call> = Vec::new();
        proof {
            assert(calls_view(cs@) =~= Seq::<CallS>::empty());
            assert(calls_weight(calls_view(cs@)) == 0);
        }
        return Ok((cs, p));
    }
    match parse_call(src, p) {
        Ok((c, p2)) => {
            match parse_calls(src, p2) {
                Ok((mut cs, p3)) => {
                    let ghost cso = cs@;
                    proof {
                        lemma_calls_view_cons(c, cso);
                        lemma_calls_weight_cons(call_view(c), calls_view(cso));
                    }
                    cs.insert(0, c);
                    proof {
                        assert(cs@ =~= seq![c] + cso);
                        assert(calls_wf(calls_view(cs@))) by {
                            assert forall|i: int| 0 <= i < calls_view(cs@).len() implies call_wf(
                                #[trigger] calls_view(cs@)[i],
                            ) by {
                                if i == 0 {
                                    assert(calls_view(cs@)[0] == call_view(c));
                                } else {
                                    assert(calls_view(cs@)[i] == calls_view(cso)[i - 1]);
                                }
                            }
                        }
                    }
                    Ok((cs, p3))
                },
                Err(e) => Err(e),
            }
        },
        Err(e) => Err(e),
    }
}

/// Parses a whole program: the top-level calls of the source.
pub fn parse_program(src: &[u8]) -> (r: Result<Vec<Call>, CsgError>)
    ensures
        match r {
            Ok(cs) => {
                &&& sp_program(src@) == Ok::<Seq<CallS>, int>(calls_view(cs@))
                &&& calls_wf(calls_view(cs@))
                &&& calls_weight(calls_view(cs@)) <= src@.len()
            },
            Err(e) => e matches CsgError::SyntaxError { pos } && sp_program(src@) == Err::<
                Seq<CallS>,
                int,
            >(pos as int),
        },
{
    match parse_calls(src, 0) {
        Ok((cs, p)) => {
            if p == src.len() {
                Ok(cs)
            } else {
                Err(CsgError::SyntaxError { pos: p })
            }
        },
        Err(e) => Err(CsgError::SyntaxError { pos: e }),
    }
}

} // verus!
