//! The request reader: parses the driver's calculation request into a
//! structured descriptor.
//!
//! The request is a text file whose first line holds four small integers —
//! atom count, derivative order, charge, spin — followed by one line per
//! atom.  An atom line is split at the fixed column boundary 11: the first
//! eleven characters carry the atomic number, the remainder four float
//! values, of which the first three are kept as the atom's Cartesian
//! coordinates and the fourth is read and discarded — the request format
//! carries it, but nothing here consumes it.  Coordinates are kept as the
//! validated float tokens themselves; the descriptor's consumers never do
//! arithmetic on them.

use vstd::prelude::*;

use crate::errors::TranslateError;
use crate::numbers::{parse_nums_from_str, parse_float_tokens, spec_parse_nums, spec_parse_floats};
use crate::text::{
    clone_bytes, push_bytes, split_lines, split_lines_exec, subvec, trim, trim_bytes, views_of,
};

verus! {

/// One atom's coordinate tokens.
#[derive(Debug, PartialEq, Eq)]
pub struct CoordTriple {
    pub x: Vec<u8>,
    pub y: Vec<u8>,
    pub z: Vec<u8>,
}

/// The mathematical view of a coordinate triple.
pub struct CoordView {
    pub x: Seq<u8>,
    pub y: Seq<u8>,
    pub z: Seq<u8>,
}

impl View for CoordTriple {
    type V = CoordView;

    open spec fn view(&self) -> CoordView {
        CoordView { x: self.x@, y: self.y@, z: self.z@ }
    }
}

/// A parsed calculation request.
#[derive(Debug, PartialEq, Eq)]
pub struct Calculation {
    /// Number of atoms.
    pub natoms: usize,
    /// Derivative order: 0 = energy only, 1 = adds the gradient/field,
    /// 2 = adds the Hessian.
    pub nder: usize,
    /// Total charge, passed through.
    pub charge: i8,
    /// Spin multiplicity, passed through.
    pub spin: i8,
    /// Atomic numbers, one per atom.
    pub z: Vec<u8>,
    /// Coordinate tokens, one triple per atom, same order as `z`.
    pub coords: Vec<CoordTriple>,
}

/// The mathematical view of a calculation request.
pub struct RequestView {
    pub natoms: int,
    pub nder: int,
    pub charge: int,
    pub spin: int,
    pub z: Seq<int>,
    pub coords: Seq<CoordView>,
}

/// The views of a sequence of coordinate triples.
pub open spec fn coord_views(cs: Seq<CoordTriple>) -> Seq<CoordView> {
    Seq::new(cs.len(), |k: int| cs[k]@)
}

impl View for Calculation {
    type V = RequestView;

    open spec fn view(&self) -> RequestView {
        RequestView {
            natoms: self.natoms as int,
            nder: self.nder as int,
            charge: self.charge as int,
            spin: self.spin as int,
            z: self.z@.map_values(|b: u8| b as int),
            coords: coord_views(self.coords@),
        }
    }
}

impl Calculation {
    /// Well-formedness: one atomic number and one coordinate triple per
    /// atom, a positive atom count within the signed-byte range the
    /// request header is parsed with, and a derivative order of at most
    /// two.
    pub open spec fn wf(&self) -> bool {
        self.z@.len() == self.natoms && self.coords@.len() == self.natoms && 1 <= self.natoms
            <= 127 && self.nder <= 2
    }

    /// Runtime check of `wf`, for unverified callers.
    pub fn is_wf(&self) -> (b: bool)
        ensures
            b == self.wf(),
    {
        self.z.len() == self.natoms && self.coords.len() == self.natoms && 1 <= self.natoms
            && self.natoms <= 127 && self.nder <= 2
    }
}

/// The outcome of parsing one atom line: the atomic number and the three
/// retained coordinate tokens.  A line shorter than the fixed column
/// boundary cannot carry its fields and is rejected as a parse error.
pub open spec fn spec_parse_atom_line(line: Seq<u8>) -> Result<(int, CoordView), TranslateError> {
    if line.len() < 11 {
        Err(TranslateError::ParseError)
    } else {
        match spec_parse_nums(1, 0, 255, line.take(11)) {
            Err(e) => Err(e),
            Ok(zs) => match spec_parse_floats(4, line.skip(11)) {
                Err(e) => Err(e),
                Ok(ts) => Ok((zs[0], CoordView { x: ts[0], y: ts[1], z: ts[2] })),
            },
        }
    }
}

/// The outcome of parsing `count` atom lines starting at line `idx`.
pub open spec fn spec_parse_atoms(lines: Seq<Seq<u8>>, idx: int, count: nat) -> Result<
    (Seq<int>, Seq<CoordView>),
    TranslateError,
>
    decreases count,
{
    if count == 0 {
        Ok((Seq::empty(), Seq::empty()))
    } else if idx >= lines.len() {
        Err(TranslateError::TruncatedInput)
    } else {
        match spec_parse_atom_line(lines[idx]) {
            Err(e) => Err(e),
            Ok(zc) => match spec_parse_atoms(lines, idx + 1, (count - 1) as nat) {
                Err(e) => Err(e),
                Ok(p) => Ok((seq![zc.0] + p.0, seq![zc.1] + p.1)),
            },
        }
    }
}

/// The outcome of parsing a whole request: the header's four integers in
/// the signed-byte range, a positive atom count, a derivative order of
/// zero, one or two, and one atom line per declared atom.
pub open spec fn spec_parse_request(content: Seq<u8>) -> Result<RequestView, TranslateError> {
    let lines = split_lines(content);
    if lines.len() == 0 {
        Err(TranslateError::EmptyRequest)
    } else {
        match spec_parse_nums(4, -128, 127, lines[0]) {
            Err(e) => Err(e),
            Ok(h) => if h[0] < 1 || h[1] < 0 || h[1] > 2 {
                Err(TranslateError::ParseError)
            } else {
                match spec_parse_atoms(lines, 1, h[0] as nat) {
                    Err(e) => Err(e),
                    Ok(p) => Ok(
                        RequestView {
                            natoms: h[0],
                            nder: h[1],
                            charge: h[2],
                            spin: h[3],
                            z: p.0,
                            coords: p.1,
                        },
                    ),
                }
            },
        }
    }
}

/// Parses the driver's request file.
///
/// On success the descriptor satisfies `wf`: exactly `natoms` atomic
/// numbers and coordinate triples.  A file without a header line is
/// empty; fewer atom lines than the header declares is a truncated
/// input; a malformed header (an atom count below one, a derivative
/// order outside zero to two, values outside the signed-byte range) or
/// a malformed atom line is a parse error.
#[verifier::loop_isolation(false)]
pub fn parse_gau_ein(content: &Vec<u8>) -> (r: Result<Calculation, TranslateError>)
    ensures
        match r {
            Ok(c) => c.wf() && spec_parse_request(content@) == Ok::<RequestView, TranslateError>(
                c@,
            ),
            Err(e) => spec_parse_request(content@) == Err::<RequestView, TranslateError>(e),
        },
{
    let lines = split_lines_exec(content);
    let ghost ls = split_lines(content@);
    if lines.len() == 0 {
        return Err(TranslateError::EmptyRequest);
    }
    assert(lines@[0]@ == ls[0]);
    let h = match parse_nums_from_str(4, -128, 127, &lines[0]) {
        Ok(v) => v,
        Err(e) => {
            return Err(e);
        },
    };
    assert(h@.map_values(|x: i64| x as int).len() == 4);
    if h[0] < 1 || h[1] < 0 || h[1] > 2 {
        return Err(TranslateError::ParseError);
    }
    let natoms: usize = h[0] as usize;
    let nder: usize = h[1] as usize;
    let charge: i8 = h[2] as i8;
    let spin: i8 = h[3] as i8;
    let ghost hs = h@.map_values(|x: i64| x as int);
    proof {
        assert(spec_parse_nums(4, -128, 127, ls[0]) == Ok::<Seq<int>, TranslateError>(hs));
        assert(hs[0] == h@[0] && hs[1] == h@[1] && hs[2] == h@[2] && hs[3] == h@[3]);
        assert(natoms as int == hs[0] && nder as int == hs[1]);
        assert(charge as int == hs[2] && spin as int == hs[3]);
    }
    let mut zvals: Vec<u8> = Vec::new();
    let mut coords: Vec<CoordTriple> = Vec::new();
    let mut a: usize = 0;
    while a < natoms
        invariant
            a <= natoms,
            zvals@.len() == a,
            coords@.len() == a,
            spec_parse_atoms(ls, 1, natoms as nat) == (match spec_parse_atoms(
                ls,
                1 + a as int,
                (natoms - a) as nat,
            ) {
                Err(e) => Err::<(Seq<int>, Seq<CoordView>), TranslateError>(e),
                Ok(p) => Ok(
                    (zvals@.map_values(|b: u8| b as int) + p.0, coord_views(coords@) + p.1),
                ),
            }),
        decreases natoms - a,
    {
        if a + 1 >= lines.len() {
            proof {
                assert(1 + a as int >= ls.len());
                assert(spec_parse_atoms(ls, 1 + a as int, (natoms - a) as nat) == Err::<
                    (Seq<int>, Seq<CoordView>),
                    TranslateError,
                >(TranslateError::TruncatedInput));
            }
            return Err(TranslateError::TruncatedInput);
        }
        let line = &lines[a + 1];
        assert(line@ == ls[1 + a as int]);
        if line.len() < 11 {
            return Err(TranslateError::ParseError);
        }
        let head = subvec(line, 0, 11);
        proof {
            assert(head@ =~= ls[1 + a as int].take(11));
        }
        let zv = match parse_nums_from_str(1, 0, 255, &head) {
            Ok(v) => v,
            Err(e) => {
                return Err(e);
            },
        };
        assert(zv@.map_values(|x: i64| x as int).len() == 1);
        let rest = subvec(line, 11, line.len());
        proof {
            assert(rest@ =~= ls[1 + a as int].skip(11));
        }
        let ts = match parse_float_tokens(4, &rest) {
            Ok(v) => v,
            Err(e) => {
                return Err(e);
            },
        };
        assert(views_of(ts@).len() == 4);
        let zbyte: u8 = zv[0] as u8;
        proof {
            assert(spec_parse_nums(1, 0, 255, head@) == Ok::<Seq<int>, TranslateError>(
                zv@.map_values(|x: i64| x as int),
            ));
            assert(0 <= zv@[0] <= 255);
            assert(zbyte as int == zv@[0] as int);
        }
        let cx = clone_bytes(&ts[0]);
        let cy = clone_bytes(&ts[1]);
        let cz = clone_bytes(&ts[2]);
        let ghost old_z = zvals@;
        let ghost old_c = coords@;
        zvals.push(zbyte);
        coords.push(CoordTriple { x: cx, y: cy, z: cz });
        proof {
            let cv = CoordView {
                x: views_of(ts@)[0],
                y: views_of(ts@)[1],
                z: views_of(ts@)[2],
            };
            assert(spec_parse_atom_line(ls[1 + a as int]) == Ok::<
                (int, CoordView),
                TranslateError,
            >((zv@[0] as int, cv)));
            assert(coords@[a as int]@ == cv);
            let rest_r = spec_parse_atoms(ls, 2 + a as int, (natoms - a - 1) as nat);
            if rest_r is Err {
                assert(spec_parse_atoms(ls, 1 + a as int, (natoms - a) as nat) == rest_r);
            } else {
                let p = rest_r->Ok_0;
                assert(zvals@.map_values(|b: u8| b as int) =~= old_z.map_values(|b: u8| b as int)
                    + seq![zv@[0] as int]);
                assert(old_z.map_values(|b: u8| b as int) + (seq![zv@[0] as int] + p.0)
                    =~= zvals@.map_values(|b: u8| b as int) + p.0);
                assert(coord_views(coords@) =~= coord_views(old_c) + seq![cv]);
                assert(coord_views(old_c) + (seq![cv] + p.1) =~= coord_views(coords@) + p.1);
            }
        }
        a += 1;
    }
    proof {
        assert(spec_parse_atoms(ls, 1 + natoms as int, 0) == Ok::<
            (Seq<int>, Seq<CoordView>),
            TranslateError,
        >((Seq::empty(), Seq::empty())));
    }
    let calc = Calculation { natoms, nder, charge, spin, z: zvals, coords };
    proof {
        let p = spec_parse_atoms(ls, 1, natoms as nat)->Ok_0;
        assert(calc@.z =~= p.0);
        assert(calc@.coords =~= p.1);
        assert(spec_parse_request(content@) == Ok::<RequestView, TranslateError>(calc@));
    }
    Ok(calc)
}

/// Three spaces, the separator of the geometry rendering.
pub open spec fn gap() -> Seq<u8> {
    seq![32u8, 32, 32]
}

/// Decimal digits of `n`, most significant first.
pub open spec fn dec_nat(n: nat) -> Seq<u8>
    decreases n,
{
    if n < 10 {
        seq![(48 + n) as u8]
    } else {
        dec_nat(n / 10).push((48 + n % 10) as u8)
    }
}

/// One line of the geometry rendering: atomic number and the three
/// coordinate tokens, separated by three spaces.
pub open spec fn atom_geom_line(z: int, c: CoordView) -> Seq<u8> {
    dec_nat(z as nat) + gap() + c.x + gap() + c.y + gap() + c.z + seq![10u8]
}

/// The first `k` lines of the geometry rendering.
pub open spec fn geom_prefix(m: RequestView, k: int) -> Seq<u8>
    decreases k,
{
    if k <= 0 {
        Seq::empty()
    } else {
        geom_prefix(m, k - 1) + atom_geom_line(m.z[k - 1], m.coords[k - 1])
    }
}

/// The geometry rendering of a request: one line per atom, trimmed.
pub open spec fn spec_geometry(m: RequestView) -> Seq<u8> {
    trim(geom_prefix(m, m.natoms))
}

/// Renders `v` in decimal.
fn u8_to_dec(v: u8) -> (r: Vec<u8>)
    ensures
        r@ == dec_nat(v as nat),
{
    proof {
        reveal_with_fuel(dec_nat, 4);
    }
    if v < 10 {
        let r: Vec<u8> = vec![48 + v];
        proof {
            assert(r@ =~= dec_nat(v as nat));
        }
        r
    } else if v < 100 {
        let r: Vec<u8> = vec![48 + v / 10, 48 + v % 10];
        proof {
            assert(r@ =~= dec_nat(v as nat));
        }
        r
    } else {
        let q = v / 10;
        let r: Vec<u8> = vec![48 + q / 10, 48 + q % 10, 48 + v % 10];
        proof {
            assert(r@ =~= dec_nat(v as nat));
        }
        r
    }
}

impl Calculation {
    /// The diagnostic geometry rendering: one trimmed line per atom with
    /// the atomic number and the three coordinate tokens as they stood in
    /// the request.
    #[verifier::loop_isolation(false)]
    pub fn get_geometry(&self) -> (out: Vec<u8>)
        requires
            self.wf(),
        ensures
            out@ == spec_geometry(self@),
    {
        let mut buf: Vec<u8> = Vec::new();
        let mut a: usize = 0;
        while a < self.natoms
            invariant
                a <= self.natoms,
                buf@ == geom_prefix(self@, a as int),
            decreases self.natoms - a,
        {
            let zt = u8_to_dec(self.z[a]);
            push_bytes(&mut buf, &zt);
            buf.push(32);
            buf.push(32);
            buf.push(32);
            push_bytes(&mut buf, &self.coords[a].x);
            buf.push(32);
            buf.push(32);
            buf.push(32);
            push_bytes(&mut buf, &self.coords[a].y);
            buf.push(32);
            buf.push(32);
            buf.push(32);
            push_bytes(&mut buf, &self.coords[a].z);
            buf.push(10);
            proof {
                assert(self@.z[a as int] == self.z@[a as int] as int);
                assert(self@.coords[a as int] == self.coords@[a as int]@);
                assert(buf@ =~= geom_prefix(self@, a + 1));
            }
            a += 1;
        }
        trim_bytes(&buf)
    }
}

} // verus!
