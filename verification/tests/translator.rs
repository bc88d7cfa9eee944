use qchem_gaussian::{
    assemble_output, extract_energy, pad_field, parse_float_tokens, parse_gau_ein,
    parse_nums_from_str, prepare_translation, reindex_hessian, split_lines_exec,
    split_whitespace_tokens, trim_bytes, zero_field, TranslateError,
};

fn bv(s: &str) -> Vec<u8> {
    s.as_bytes().to_vec()
}

fn tokens(ts: &[&str]) -> Vec<Vec<u8>> {
    ts.iter().map(|t| bv(t)).collect()
}

#[test]
fn tokenizer_splits_on_whitespace_runs() {
    let got = split_whitespace_tokens(&bv("  a \t bb\ncc  "));
    assert_eq!(got, tokens(&["a", "bb", "cc"]));
    let empty = split_whitespace_tokens(&bv("   \n \t "));
    assert!(empty.is_empty());
}

#[test]
fn line_splitter_handles_cr_and_trailing_newline() {
    let got = split_lines_exec(&bv("a\r\nb\nlast"));
    assert_eq!(got, tokens(&["a", "b", "last"]));
    let got2 = split_lines_exec(&bv("one\n"));
    assert_eq!(got2, tokens(&["one"]));
    assert!(split_lines_exec(&bv("")).is_empty());
}

#[test]
fn trim_removes_surrounding_whitespace_only() {
    assert_eq!(trim_bytes(&bv("  -76.1  ")), bv("-76.1"));
    assert_eq!(trim_bytes(&bv("a b")), bv("a b"));
    assert_eq!(trim_bytes(&bv("   ")), bv(""));
}

#[test]
fn int_parser_reads_exact_values() {
    let got = parse_nums_from_str(4, -128, 127, &bv("2 2 0 1")).unwrap();
    assert_eq!(got, vec![2, 2, 0, 1]);
    let signed = parse_nums_from_str(2, -128, 127, &bv("-8 +007")).unwrap();
    assert_eq!(signed, vec![-8, 7]);
}

#[test]
fn int_parser_rejects_wrong_count() {
    let got = parse_nums_from_str(4, -128, 127, &bv("1 2 3"));
    assert_eq!(got, Err(TranslateError::CountMismatch { expected: 4, got: 3 }));
    let too_many = parse_nums_from_str(1, -128, 127, &bv("1 2"));
    assert_eq!(too_many, Err(TranslateError::CountMismatch { expected: 1, got: 2 }));
}

#[test]
fn int_parser_rejects_non_numeric_and_out_of_range() {
    assert_eq!(
        parse_nums_from_str(4, -128, 127, &bv("1 x 3 4")),
        Err(TranslateError::ParseError)
    );
    assert_eq!(
        parse_nums_from_str(1, -128, 127, &bv("999")),
        Err(TranslateError::ParseError)
    );
    assert_eq!(
        parse_nums_from_str(1, 0, 255, &bv("-1")),
        Err(TranslateError::ParseError)
    );
    assert_eq!(
        parse_nums_from_str(1, -128, 127, &bv("1.5")),
        Err(TranslateError::ParseError)
    );
}

#[test]
fn int_parser_handles_wide_tokens() {
    let wide = parse_nums_from_str(
        1,
        -999999999999999999,
        999999999999999999,
        &bv("123456789012345678"),
    )
    .unwrap();
    assert_eq!(wide, vec![123456789012345678]);
    assert_eq!(
        parse_nums_from_str(1, -999999999999999999, 999999999999999999, &bv("1234567890123456789")),
        Err(TranslateError::ParseError)
    );
}

#[test]
fn float_parser_returns_tokens_verbatim() {
    let got = parse_float_tokens(3, &bv(" 1.0 -2.5e-3  .5 ")).unwrap();
    assert_eq!(got, tokens(&["1.0", "-2.5e-3", ".5"]));
}

#[test]
fn float_parser_rejects_bad_tokens_and_counts() {
    assert_eq!(parse_float_tokens(1, &bv("abc")), Err(TranslateError::ParseError));
    assert_eq!(parse_float_tokens(1, &bv("1.0.2")), Err(TranslateError::ParseError));
    assert_eq!(parse_float_tokens(1, &bv("1e")), Err(TranslateError::ParseError));
    assert_eq!(
        parse_float_tokens(2, &bv("1.0")),
        Err(TranslateError::CountMismatch { expected: 2, got: 1 })
    );
}

#[test]
fn energy_line_is_found_and_parsed() {
    let log = bv(
        "junk\n The QM part of the energy is      -76.123456789012\nmore junk\n",
    );
    let tok = extract_energy(&log).unwrap();
    assert_eq!(tok, bv("-76.123456789012"));
    let value: f64 = String::from_utf8(tok).unwrap().parse().unwrap();
    assert_eq!(value, -76.123456789012);
}

#[test]
fn energy_first_match_wins() {
    let log = bv(
        " The QM part of the energy is 1.0\n The QM part of the energy is 2.0\n",
    );
    assert_eq!(extract_energy(&log).unwrap(), bv("1.0"));
}

#[test]
fn energy_missing_line_is_an_error() {
    assert_eq!(
        extract_energy(&bv("no energy here\n")),
        Err(TranslateError::MissingEnergyLine)
    );
    assert_eq!(
        extract_energy(&bv(" The QM part of the energy is not a number\n")),
        Err(TranslateError::ParseError)
    );
}

#[test]
fn request_header_and_atoms_are_parsed() {
    let content = bv(
        "2 2 0 1\n8          0.0 0.1 0.2 0.3\n1          1.0 1.1 1.2 1.3\n",
    );
    let calc = parse_gau_ein(&content).unwrap();
    assert_eq!(calc.natoms, 2);
    assert_eq!(calc.nder, 2);
    assert_eq!(calc.charge, 0);
    assert_eq!(calc.spin, 1);
    assert_eq!(calc.z, vec![8, 1]);
    assert_eq!(calc.z.len(), calc.natoms);
    assert_eq!(calc.coords.len(), calc.natoms);
    assert_eq!(calc.coords[0].x, bv("0.0"));
    assert_eq!(calc.coords[0].y, bv("0.1"));
    assert_eq!(calc.coords[0].z, bv("0.2"));
    assert_eq!(calc.coords[1].x, bv("1.0"));
}

#[test]
fn request_truncated_file_is_an_error() {
    let content = bv("2 2 0 1\n8          0.0 0.1 0.2 0.3\n");
    assert_eq!(parse_gau_ein(&content), Err(TranslateError::TruncatedInput));
}

#[test]
fn request_empty_file_is_an_error() {
    assert_eq!(parse_gau_ein(&bv("")), Err(TranslateError::EmptyRequest));
}

#[test]
fn request_malformed_headers_are_rejected() {
    assert_eq!(parse_gau_ein(&bv("-1 0 0 0\n")), Err(TranslateError::ParseError));
    assert_eq!(parse_gau_ein(&bv("999 0 0 0\n")), Err(TranslateError::ParseError));
    // The data model wants a positive atom count and a derivative order
    // of at most two.
    assert_eq!(parse_gau_ein(&bv("0 3 0 0\n")), Err(TranslateError::ParseError));
    assert_eq!(parse_gau_ein(&bv("0 0 0 0\n")), Err(TranslateError::ParseError));
    assert_eq!(
        parse_gau_ein(&bv("1 3 0 0\n8          0.0 0.1 0.2 0.3\n")),
        Err(TranslateError::ParseError)
    );
    assert_eq!(
        parse_gau_ein(&bv("2 2 0\n")),
        Err(TranslateError::CountMismatch { expected: 4, got: 3 })
    );
    assert_eq!(
        parse_gau_ein(&bv("1 0 0 0\nshort\n")),
        Err(TranslateError::ParseError)
    );
}

#[test]
fn geometry_rendering_lists_atoms() {
    let content = bv("2 0 0 1\n8          0.0 0.1 0.2 0.3\n1          1.0 1.1 1.2 1.3\n");
    let calc = parse_gau_ein(&content).unwrap();
    let geom = String::from_utf8(calc.get_geometry()).unwrap();
    assert_eq!(geom, "8   0.0   0.1   0.2\n1   1.0   1.1   1.2");
}

#[test]
fn reindex_single_atom_matrix() {
    // One atom: the 3 by 3 symmetric matrix stored as the upper triangle
    // [a, b, c, d, e, f] must come out lower-triangular, row-major:
    // (0,0)=a (1,0)=b (1,1)=d (2,0)=c (2,1)=e (2,2)=f.
    let tri = tokens(&["a", "b", "c", "d", "e", "f"]);
    let out = reindex_hessian(&tri, 1);
    assert_eq!(out, tokens(&["a", "b", "d", "c", "e", "f"]));
}

#[test]
fn reindex_two_atom_matrix_mirrors_positions() {
    // Two atoms: 6 global indices, 21 triangular entries named by their
    // upper-triangle position.
    let names: Vec<String> = (0..21).map(|k| format!("t{}", k)).collect();
    let tri: Vec<Vec<u8>> = names.iter().map(|s| s.as_bytes().to_vec()).collect();
    let out = reindex_hessian(&tri, 2);
    assert_eq!(out.len(), 21);
    // Row 0 of the upper triangle holds (0,j) for j in 0..6 at positions
    // 0..6, so column 0 of the lower triangle must read t0..t5.
    let n = 6usize;
    let tri_pos = |i: usize, j: usize| i * n - i * (i - 1) / 2 + (j - i);
    let mut k = 0usize;
    for left in 0..n {
        for right in 0..=left {
            assert_eq!(out[k], tri[tri_pos(right, left)], "pair ({}, {})", left, right);
            k += 1;
        }
    }
}

#[test]
fn field_formatting_matches_the_consumer_grammar() {
    let padded = pad_field(&bv("+1.500000000000"));
    let expected = format!("{:+20.12}", 1.5);
    assert_eq!(padded, expected.as_bytes().to_vec());
    assert_eq!(padded.len(), 20);
    // Character by character: five spaces, sign, then the digits.
    let chars: Vec<char> = String::from_utf8(padded).unwrap().chars().collect();
    assert_eq!(&chars[0..5], &[' ', ' ', ' ', ' ', ' ']);
    assert_eq!(chars[5], '+');
    assert_eq!(&chars[6..8], &['1', '.']);
    for k in 8..20 {
        assert!(chars[k].is_ascii_digit());
    }
}

#[test]
fn zero_field_matches_the_formatted_zero() {
    assert_eq!(zero_field(), format!("{:+20.12}", 0.0).as_bytes().to_vec());
}

#[test]
fn document_energy_only() {
    let out = assemble_output(&bv("+1.500000000000"), &Vec::new(), &Vec::new(), 1, 0);
    let expected = format!(
        "{:+20.12}{:+20.12}{:+20.12}{:+20.12}\n",
        1.5, 0.0, 0.0, 0.0
    );
    assert_eq!(String::from_utf8(out).unwrap(), expected);
}

#[test]
fn document_with_gradient_and_hessian() {
    let energy = bv("-0.500000000000");
    let fields = tokens(&["+1.000000000000", "-2.000000000000", "+3.000000000000"]);
    let hess = tokens(&["a", "b", "c", "d", "e", "f"]);
    let out = String::from_utf8(assemble_output(&energy, &fields, &hess, 1, 2)).unwrap();
    let mut expected = String::new();
    expected.push_str(&format!(
        "{:>20}{:+20.12}{:+20.12}{:+20.12}\n",
        "-0.500000000000", 0.0, 0.0, 0.0
    ));
    expected.push_str(&format!(
        "{:>20}{:>20}{:>20}\n",
        "+1.000000000000", "-2.000000000000", "+3.000000000000"
    ));
    for _ in 0..5 {
        expected.push_str(&format!("{:+20.12}{:+20.12}{:+20.12}\n", 0.0, 0.0, 0.0));
    }
    expected.push_str(&format!("{:>20}{:>20}{:>20}\n", "a", "b", "c"));
    expected.push_str(&format!("{:>20}{:>20}{:>20}\n", "d", "e", "f"));
    expected.push('\n');
    assert_eq!(out, expected);
}

#[test]
fn pipeline_prepares_all_blocks() {
    let content = bv("1 2 0 1\n8          0.0 0.1 0.2 0.3\n");
    let calc = parse_gau_ein(&content).unwrap();
    let log = bv(" The QM part of the energy is -76.5\n");
    let efield = bv("0.1 0.2 0.3\n");
    let hessian = bv("1.0 2.0 3.0 4.0 5.0 6.0\n");
    let plan = prepare_translation(&calc, &log, &efield, &hessian).unwrap();
    assert_eq!(plan.natoms, 1);
    assert_eq!(plan.nder, 2);
    assert_eq!(plan.energy_token, bv("-76.5"));
    assert_eq!(plan.field_tokens, tokens(&["0.1", "0.2", "0.3"]));
    assert_eq!(
        plan.hessian_tokens,
        tokens(&["1.0", "2.0", "4.0", "3.0", "5.0", "6.0"])
    );
}

#[test]
fn pipeline_skips_files_the_order_does_not_need() {
    let content = bv("1 0 0 1\n8          0.0 0.1 0.2 0.3\n");
    let calc = parse_gau_ein(&content).unwrap();
    let log = bv(" The QM part of the energy is 2.0\n");
    let plan = prepare_translation(&calc, &log, &bv("garbage"), &bv("garbage")).unwrap();
    assert_eq!(plan.energy_token, bv("2.0"));
    assert!(plan.field_tokens.is_empty());
    assert!(plan.hessian_tokens.is_empty());
}

#[test]
fn pipeline_reports_the_first_failing_stage() {
    let content = bv("1 2 0 1\n8          0.0 0.1 0.2 0.3\n");
    let calc = parse_gau_ein(&content).unwrap();
    let no_energy = prepare_translation(&calc, &bv("empty log"), &bv(""), &bv(""));
    assert_eq!(no_energy, Err(TranslateError::MissingEnergyLine));
    let log = bv(" The QM part of the energy is 2.0\n");
    let short_field = prepare_translation(&calc, &log, &bv("0.1 0.2"), &bv(""));
    assert_eq!(
        short_field,
        Err(TranslateError::CountMismatch { expected: 3, got: 2 })
    );
    let bad_hessian = prepare_translation(&calc, &log, &bv("0.1 0.2 0.3"), &bv("1 2 3 4 5"));
    assert_eq!(
        bad_hessian,
        Err(TranslateError::CountMismatch { expected: 6, got: 5 })
    );
}
