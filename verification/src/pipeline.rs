//! The translation pipeline: from the engine's raw files to the token
//! streams of the output document.
//!
//! One canonical routine, driven entirely by the parsed request — the
//! energy token from the log, the field tokens when first derivatives are
//! requested, and the reindexed Hessian tokens when second derivatives
//! are.  The unverified shell renders each token to a fixed-precision
//! field (scaling the Hessian values by the unit-conversion factor on the
//! way) and hands the rendered fields to `assemble_output`.

use vstd::prelude::*;

use crate::energy::{extract_energy, spec_extract_energy};
use crate::errors::TranslateError;
use crate::hessian::{low_pos, reindex_hessian, tri_pos, tri_size};
use crate::numbers::{parse_float_tokens, spec_parse_floats};
use crate::request::Calculation;
use crate::text::views_of;

verus! {

/// Everything the output document needs, as byte tokens: the energy, the
/// field values in storage order, and the Hessian values already in the
/// consumer's lower-triangular coordinate-major emission order.
#[derive(Debug, PartialEq, Eq)]
pub struct TranslationPlan {
    /// Number of atoms, copied from the request.
    pub natoms: usize,
    /// Derivative order, copied from the request.
    pub nder: usize,
    /// The energy value's token.
    pub energy_token: Vec<u8>,
    /// The gradient/field tokens, `3 * natoms` of them when first
    /// derivatives are requested, none otherwise.
    pub field_tokens: Vec<Vec<u8>>,
    /// The Hessian tokens in emission order when second derivatives are
    /// requested, none otherwise.  Each still needs the unit-conversion
    /// scaling.
    pub hessian_tokens: Vec<Vec<u8>>,
}

/// The first failure of the pipeline on the given inputs, if any: the
/// energy line is scanned first, then the field file when first
/// derivatives are requested, then the Hessian file when second
/// derivatives are.
pub open spec fn spec_plan_error(
    natoms: int,
    nder: int,
    q: Seq<u8>,
    ef: Seq<u8>,
    h: Seq<u8>,
) -> Option<TranslateError> {
    match spec_extract_energy(q) {
        Err(e) => Some(e),
        Ok(_) => if nder >= 1 {
            match spec_parse_floats(3 * natoms, ef) {
                Err(e) => Some(e),
                Ok(_) => if nder >= 2 {
                    match spec_parse_floats(tri_size(3 * natoms), h) {
                        Err(e) => Some(e),
                        Ok(_) => None,
                    }
                } else {
                    None
                },
            }
        } else {
            None
        },
    }
}

/// Builds the translation plan for a request from the engine's file
/// contents: `qchem_out` is the log text, `efield` the field file, and
/// `hessian` the Hessian file (the latter two may be anything when the
/// derivative order does not call for them, as they are not read).
///
/// On success, the energy token is the one the log's labeled line
/// carries; the field tokens are exactly the `3 * natoms` tokens of the
/// field file in storage order; and the Hessian tokens are the
/// `tri_size(3 * natoms)` tokens of the Hessian file reordered so that
/// the entry emitted for the coordinate pair `(left, right)`,
/// `left >= right`, is the source entry at the mirrored position
/// `(right, left)` of the upper triangle.  The first failing stage's
/// error is returned otherwise, exactly as `spec_plan_error` lays down.
pub fn prepare_translation(
    calc: &Calculation,
    qchem_out: &Vec<u8>,
    efield: &Vec<u8>,
    hessian: &Vec<u8>,
) -> (r: Result<TranslationPlan, TranslateError>)
    requires
        calc.wf(),
    ensures
        match r {
            Ok(p) => {
                &&& p.natoms == calc.natoms
                &&& p.nder == calc.nder
                &&& spec_extract_energy(qchem_out@) == Ok::<Seq<u8>, TranslateError>(
                    p.energy_token@,
                )
                &&& calc.nder >= 1 ==> spec_parse_floats(3 * calc.natoms as int, efield@)
                    == Ok::<Seq<Seq<u8>>, TranslateError>(views_of(p.field_tokens@))
                &&& calc.nder < 1 ==> p.field_tokens@.len() == 0
                &&& calc.nder >= 2 ==> {
                    let tri = spec_parse_floats(tri_size(3 * calc.natoms as int), hessian@);
                    &&& tri is Ok
                    &&& p.hessian_tokens@.len() == tri_size(3 * calc.natoms as int)
                    &&& forall|left: int, right: int|
                        0 <= right <= left < 3 * calc.natoms as int
                            ==> p.hessian_tokens@[low_pos(left, right)]@ == tri->Ok_0[tri_pos(
                            3 * calc.natoms as int,
                            right,
                            left,
                        )]
                }
                &&& calc.nder < 2 ==> p.hessian_tokens@.len() == 0
            },
            Err(e) => spec_plan_error(
                calc.natoms as int,
                calc.nder as int,
                qchem_out@,
                efield@,
                hessian@,
            ) == Some(e),
        },
{
    let energy_token = match extract_energy(qchem_out) {
        Ok(t) => t,
        Err(e) => {
            return Err(e);
        },
    };
    let mut field_tokens: Vec<Vec<u8>> = Vec::new();
    if calc.nder >= 1 {
        field_tokens = match parse_float_tokens(3 * calc.natoms, efield) {
            Ok(v) => v,
            Err(e) => {
                return Err(e);
            },
        };
    }
    let mut hessian_tokens: Vec<Vec<u8>> = Vec::new();
    if calc.nder >= 2 {
        let n3: usize = 3 * calc.natoms;
        proof {
            assert(n3 * (n3 + 1) <= 381 * 382) by (nonlinear_arith)
                requires
                    0 <= n3 <= 381,
            ;
        }
        let nh: usize = n3 * (n3 + 1) / 2;
        assert(nh == tri_size(3 * calc.natoms as int));
        let tri = match parse_float_tokens(nh, hessian) {
            Ok(v) => v,
            Err(e) => {
                return Err(e);
            },
        };
        assert(views_of(tri@).len() == nh);
        assert(tri@.len() == nh);
        hessian_tokens = reindex_hessian(&tri, calc.natoms);
        proof {
            let tr = spec_parse_floats(tri_size(3 * calc.natoms as int), hessian@);
            assert(tr == Ok::<Seq<Seq<u8>>, TranslateError>(views_of(tri@)));
            assert forall|left: int, right: int|
                0 <= right <= left < 3 * calc.natoms as int implies hessian_tokens@[low_pos(
                left,
                right,
            )]@ == tr->Ok_0[tri_pos(3 * calc.natoms as int, right, left)] by {
                crate::hessian::lemma_tri_pos_range(3 * calc.natoms as int, right, left);
                crate::hessian::lemma_low_pos_range(3 * calc.natoms as int, left, right);
                assert(hessian_tokens@[low_pos(left, right)]@ == tri@[tri_pos(
                    3 * calc.natoms as int,
                    right,
                    left,
                )]@);
            }
        }
    }
    Ok(
        TranslationPlan {
            natoms: calc.natoms,
            nder: calc.nder,
            energy_token,
            field_tokens,
            hessian_tokens,
        },
    )
}

} // verus!
