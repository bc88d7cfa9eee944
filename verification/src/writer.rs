//! The result writer's fixed-width output grammar.
//!
//! The consumer parses by column position, so the field layout is a hard
//! external contract: every numeric field is right-aligned in 20
//! characters, and a rendered value carries an explicit sign and twelve
//! fractional digits, so it is 15 characters or more.  This module owns
//! the grammar — padding, the constant zero fields of the stub blocks,
//! the three-values-per-line grouping and the order of the blocks — while
//! the rendering of one value's digits (a floating-point step) is done
//! per token by the unverified shell and handed in as bytes.

use vstd::prelude::*;

use crate::text::{push_bytes, views_of};

verus! {

/// `n` spaces.
pub open spec fn spaces(n: nat) -> Seq<u8> {
    Seq::new(n, |i: int| 32u8)
}

/// A rendered value, right-aligned in at least 20 characters.
pub open spec fn pad_spec(f: Seq<u8>) -> Seq<u8> {
    if f.len() >= 20 {
        f
    } else {
        spaces((20 - f.len()) as nat) + f
    }
}

/// The rendering of the value zero: `+0.` and twelve zero digits.
pub open spec fn zero_digits() -> Seq<u8> {
    seq![43u8, 48, 46, 48, 48, 48, 48, 48, 48, 48, 48, 48, 48, 48, 48]
}

/// One zero-valued 20-character field.
pub open spec fn zero_field_spec() -> Seq<u8> {
    pad_spec(zero_digits())
}

/// One stub line of three zero fields.
pub open spec fn zero_line_spec() -> Seq<u8> {
    zero_field_spec() + zero_field_spec() + zero_field_spec() + seq![10u8]
}

/// `k` stub lines.
pub open spec fn zero_lines(k: nat) -> Seq<u8>
    decreases k,
{
    if k == 0 {
        Seq::empty()
    } else {
        zero_lines((k - 1) as nat) + zero_line_spec()
    }
}

/// The fields of `fs`, each padded to 20 characters, with a line break
/// after every third field regardless of block boundaries.
pub open spec fn emit3(fs: Seq<Seq<u8>>) -> Seq<u8>
    decreases fs.len(),
{
    if fs.len() == 0 {
        Seq::empty()
    } else {
        emit3(fs.drop_last()) + pad_spec(fs.last()) + (if fs.len() % 3 == 0 {
            seq![10u8]
        } else {
            Seq::<u8>::empty()
        })
    }
}

/// The whole output document.
///
/// First line: the energy field followed by the three-zero dipole stub.
/// With first derivatives: the gradient/field block, three values per
/// line, then `2 + 3 * natoms` stub lines for the polarizability and
/// dipole-derivative blocks.  With second derivatives: the reindexed
/// Hessian fields, three per line, closed by one more line feed.
pub open spec fn document_spec(
    energy: Seq<u8>,
    fields: Seq<Seq<u8>>,
    hess: Seq<Seq<u8>>,
    natoms: int,
    nder: int,
) -> Seq<u8> {
    pad_spec(energy) + zero_line_spec() + (if nder >= 1 {
        emit3(fields) + zero_lines((2 + 3 * natoms) as nat)
    } else {
        Seq::<u8>::empty()
    }) + (if nder >= 2 {
        emit3(hess) + seq![10u8]
    } else {
        Seq::<u8>::empty()
    })
}

/// Pads a rendered value to the 20-character field width.
pub fn pad_field(f: &Vec<u8>) -> (r: Vec<u8>)
    ensures
        r@ == pad_spec(f@),
{
    let mut r: Vec<u8> = Vec::new();
    let mut k: usize = 0;
    let pad: usize = if f.len() >= 20 {
        0
    } else {
        20 - f.len()
    };
    while k < pad
        invariant
            k <= pad,
            pad == if f@.len() >= 20 {
                0int
            } else {
                20 - f@.len()
            },
            r@ =~= spaces(k as nat),
        decreases pad - k,
    {
        r.push(32);
        k += 1;
        proof {
            assert(r@ =~= spaces(k as nat));
        }
    }
    push_bytes(&mut r, f);
    proof {
        assert(r@ =~= pad_spec(f@));
    }
    r
}

/// The constant zero field of the stub blocks.
pub fn zero_field() -> (r: Vec<u8>)
    ensures
        r@ == zero_field_spec(),
{
    let r: Vec<u8> = vec![
        32u8, 32, 32, 32, 32, 43, 48, 46, 48, 48, 48, 48, 48, 48, 48, 48, 48, 48, 48, 48,
    ];
    proof {
        assert(r@ =~= zero_field_spec());
    }
    r
}

/// Appends one stub line of three zero fields.
fn push_zero_line(out: &mut Vec<u8>)
    ensures
        final(out)@ == old(out)@ + zero_line_spec(),
{
    let z = zero_field();
    push_bytes(out, &z);
    push_bytes(out, &z);
    push_bytes(out, &z);
    out.push(10);
    proof {
        assert(out@ =~= old(out)@ + zero_line_spec());
    }
}

/// Appends `k` stub lines.
#[verifier::loop_isolation(false)]
fn push_zero_lines(out: &mut Vec<u8>, k: usize)
    ensures
        final(out)@ == old(out)@ + zero_lines(k as nat),
{
    let mut i: usize = 0;
    while i < k
        invariant
            i <= k,
            out@ == old(out)@ + zero_lines(i as nat),
        decreases k - i,
    {
        push_zero_line(out);
        i += 1;
        proof {
            assert(old(out)@ + zero_lines(i as nat) =~= (old(out)@ + zero_lines((i - 1) as nat))
                + zero_line_spec());
        }
    }
}

/// Appends the fields of `fs`, padded, three per line.
#[verifier::loop_isolation(false)]
fn push_fields3(out: &mut Vec<u8>, fs: &Vec<Vec<u8>>)
    ensures
        final(out)@ == old(out)@ + emit3(views_of(fs@)),
{
    let mut i: usize = 0;
    proof {
        assert(views_of(fs@).take(0) =~= Seq::<Seq<u8>>::empty());
    }
    while i < fs.len()
        invariant
            i <= fs@.len(),
            out@ == old(out)@ + emit3(views_of(fs@).take(i as int)),
        decreases fs@.len() - i,
    {
        let p = pad_field(&fs[i]);
        push_bytes(out, &p);
        if (i + 1) % 3 == 0 {
            out.push(10);
        }
        i += 1;
        proof {
            let vs = views_of(fs@);
            assert(vs.take(i as int).drop_last() =~= vs.take(i - 1));
            assert(vs.take(i as int).last() == vs[i - 1]);
            assert(vs.take(i as int).len() % 3 == (i as int) % 3);
            assert(out@ =~= old(out)@ + emit3(vs.take(i as int)));
        }
    }
    proof {
        assert(views_of(fs@).take(fs@.len() as int) =~= views_of(fs@));
    }
}

/// Assembles the whole output document from the already-rendered numeric
/// fields: the energy field, the gradient/field fields in storage order,
/// and the reindexed, scaled Hessian fields in emission order.
pub fn assemble_output(
    energy_field: &Vec<u8>,
    field_fields: &Vec<Vec<u8>>,
    hessian_fields: &Vec<Vec<u8>>,
    natoms: usize,
    nder: usize,
) -> (out: Vec<u8>)
    requires
        natoms <= 127,
    ensures
        out@ == document_spec(
            energy_field@,
            views_of(field_fields@),
            views_of(hessian_fields@),
            natoms as int,
            nder as int,
        ),
{
    let mut out = pad_field(energy_field);
    push_zero_line(&mut out);
    let ghost head = pad_spec(energy_field@) + zero_line_spec();
    assert(out@ =~= head);
    if nder >= 1 {
        push_fields3(&mut out, field_fields);
        push_zero_lines(&mut out, 2 + 3 * natoms);
        proof {
            assert(out@ =~= head + (emit3(views_of(field_fields@)) + zero_lines(
                (2 + 3 * natoms as int) as nat,
            )));
        }
    }
    let ghost mid = out@;
    if nder >= 2 {
        push_fields3(&mut out, hessian_fields);
        out.push(10);
        proof {
            assert(out@ =~= mid + (emit3(views_of(hessian_fields@)) + seq![10u8]));
        }
    }
    proof {
        assert(out@ =~= document_spec(
            energy_field@,
            views_of(field_fields@),
            views_of(hessian_fields@),
            natoms as int,
            nder as int,
        ));
    }
    out
}

} // verus!
