//! Scans the engine's log for the single labeled energy line and pulls the
//! value's token out of it.  The first matching line wins; the log defines
//! no behaviour for duplicates beyond that.

use vstd::prelude::*;

use crate::errors::TranslateError;
use crate::numbers::is_float_token;
use crate::text::{split_lines, split_lines_exec, subvec, trim, trim_bytes};

verus! {

/// The bytes of the label `" The QM part of the energy is"` that opens the
/// energy line of the engine's log.
pub open spec fn energy_label() -> Seq<u8> {
    seq![
        32u8, 84, 104, 101, 32, 81, 77, 32, 112, 97, 114, 116, 32, 111, 102, 32, 116, 104, 101,
        32, 101, 110, 101, 114, 103, 121, 32, 105, 115,
    ]
}

/// Whether `l` starts with the energy label.
pub open spec fn is_energy_line(l: Seq<u8>) -> bool {
    l.len() >= energy_label().len() && l.take(energy_label().len() as int) == energy_label()
}

/// The first line of `lines` that carries the energy label, if any.
pub open spec fn find_energy_line(lines: Seq<Seq<u8>>) -> Option<Seq<u8>>
    decreases lines.len(),
{
    if lines.len() == 0 {
        None
    } else if is_energy_line(lines.first()) {
        Some(lines.first())
    } else {
        find_energy_line(lines.drop_first())
    }
}

/// The outcome of energy extraction on the log text `q`: the trimmed
/// remainder of the first labeled line when it is a float token; a parse
/// error when it is not; a missing-line error when no line is labeled.
pub open spec fn spec_extract_energy(q: Seq<u8>) -> Result<Seq<u8>, TranslateError> {
    match find_energy_line(split_lines(q)) {
        Option::None => Err(TranslateError::MissingEnergyLine),
        Option::Some(l) => {
            let tok = trim(l.skip(energy_label().len() as int));
            if is_float_token(tok) {
                Ok(tok)
            } else {
                Err(TranslateError::ParseError)
            }
        },
    }
}

/// The energy label as bytes.
fn energy_label_vec() -> (v: Vec<u8>)
    ensures
        v@ == energy_label(),
{
    let v: Vec<u8> = vec![
        32u8, 84, 104, 101, 32, 81, 77, 32, 112, 97, 114, 116, 32, 111, 102, 32, 116, 104, 101,
        32, 101, 110, 101, 114, 103, 121, 32, 105, 115,
    ];
    proof {
        assert(v@ =~= energy_label());
    }
    v
}

/// Whether `l` starts with the bytes of `label`.
fn starts_with(l: &Vec<u8>, label: &Vec<u8>) -> (r: bool)
    ensures
        r == (l@.len() >= label@.len() && l@.take(label@.len() as int) == label@),
{
    if l.len() < label.len() {
        return false;
    }
    let mut k: usize = 0;
    while k < label.len()
        invariant
            k <= label@.len() <= l@.len(),
            forall|j: int| 0 <= j < k ==> l@[j] == label@[j],
        decreases label@.len() - k,
    {
        if l[k] != label[k] {
            proof {
                assert(l@.take(label@.len() as int)[k as int] != label@[k as int]);
            }
            return false;
        }
        k += 1;
    }
    proof {
        assert(l@.take(label@.len() as int) =~= label@);
    }
    true
}

/// Scans the log text for the energy line and returns the value's token,
/// still as bytes; the unverified shell turns it into a float.
#[verifier::loop_isolation(false)]
pub fn extract_energy(qchem_out: &Vec<u8>) -> (r: Result<Vec<u8>, TranslateError>)
    ensures
        match r {
            Ok(t) => spec_extract_energy(qchem_out@) == Ok::<Seq<u8>, TranslateError>(t@),
            Err(e) => spec_extract_energy(qchem_out@) == Err::<Seq<u8>, TranslateError>(e),
        },
{
    let lines = split_lines_exec(qchem_out);
    let label = energy_label_vec();
    let ghost ls = split_lines(qchem_out@);
    let mut i: usize = 0;
    proof {
        assert(ls.skip(0) =~= ls);
    }
    while i < lines.len()
        invariant
            i <= lines@.len(),
            find_energy_line(ls.skip(i as int)) == find_energy_line(ls),
        decreases lines@.len() - i,
    {
        proof {
            assert(ls.skip(i as int).first() == ls[i as int]);
            assert(ls.skip(i as int).drop_first() =~= ls.skip(i + 1));
            assert(lines@[i as int]@ == ls[i as int]);
        }
        if starts_with(&lines[i], &label) {
            assert(is_energy_line(ls[i as int]));
            assert(find_energy_line(ls) == Some(ls[i as int]));
            let line = &lines[i];
            let rest = subvec(line, label.len(), line.len());
            proof {
                assert(rest@ =~= ls[i as int].skip(energy_label().len() as int));
            }
            let tok = trim_bytes(&rest);
            if crate::numbers::check_float_token(&tok) {
                return Ok(tok);
            } else {
                return Err(TranslateError::ParseError);
            }
        }
        assert(!is_energy_line(ls[i as int]));
        i += 1;
    }
    proof {
        assert(ls.skip(i as int) =~= Seq::<Seq<u8>>::empty());
        assert(find_energy_line(ls) is None);
    }
    Err(TranslateError::MissingEnergyLine)
}

} // verus!
