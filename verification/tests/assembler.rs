//! End-to-end tests of the assembler pipeline: normalization, symbol
//! resolution, parsing and encoding.

use assembler::code::generate_code;
use assembler::parser::{parse_program, ParseError};
use assembler::symbol::make_symbol_table;

fn assemble(lines: &[&str]) -> Result<Vec<String>, ParseError> {
    let program: Vec<String> = lines.iter().map(|s| s.to_string()).collect();
    let table = make_symbol_table(&program);
    let parsed = parse_program(&program, &table)?;
    Ok(generate_code(&parsed))
}

fn chars(s: &str) -> Vec<char> {
    s.chars().collect()
}

#[test]
fn scenario_no_symbols() {
    let out = assemble(&["@2", "D=A", "@3", "D=D+A", "@0", "M=D"]).unwrap();
    assert_eq!(
        out,
        vec![
            "0000000000000010",
            "1110110000010000",
            "0000000000000011",
            "1110000010010000",
            "0000000000000000",
            "1110001100001000",
        ]
    );
}

#[test]
fn scenario_label_forward_reference() {
    let out = assemble(&["(LOOP)", "D=A", "@LOOP", "0;JMP"]).unwrap();
    assert_eq!(out.len(), 3);
    assert_eq!(out[1], "0000000000000000");
    assert_eq!(out[2], "1110101010000111");
}

#[test]
fn scenario_variable_allocation() {
    let out = assemble(&["@foo"]).unwrap();
    assert_eq!(out, vec!["0000000000010000"]);
}

#[test]
fn scenario_invalid_destination() {
    let err = assemble(&["X=0"]).unwrap_err();
    assert_eq!(err, ParseError::InvalidMnemonic(chars("X")));
}

#[test]
fn predefined_symbols_resolve() {
    let cases = [
        ("@SP", "0000000000000000"),
        ("@LCL", "0000000000000001"),
        ("@ARG", "0000000000000010"),
        ("@THIS", "0000000000000011"),
        ("@THAT", "0000000000000100"),
        ("@SCREEN", "0100000000000000"),
        ("@KBD", "0110000000000000"),
        ("@R0", "0000000000000000"),
        ("@R1", "0000000000000001"),
        ("@R2", "0000000000000010"),
        ("@R3", "0000000000000011"),
        ("@R4", "0000000000000100"),
        ("@R5", "0000000000000101"),
        ("@R6", "0000000000000110"),
        ("@R7", "0000000000000111"),
        ("@R8", "0000000000001000"),
        ("@R9", "0000000000001001"),
        ("@R10", "0000000000001010"),
        ("@R11", "0000000000001011"),
        ("@R12", "0000000000001100"),
        ("@R13", "0000000000001101"),
        ("@R14", "0000000000001110"),
        ("@R15", "0000000000001111"),
    ];
    for (line, expected) in cases {
        let out = assemble(&[line]).unwrap();
        assert_eq!(out, vec![expected.to_string()], "line {line}");
    }
}

#[test]
fn computation_mnemonic_codes() {
    let cases = [
        ("0", "1110101010000000"),
        ("1", "1110111111000000"),
        ("-1", "1110111010000000"),
        ("D", "1110001100000000"),
        ("A", "1110110000000000"),
        ("!D", "1110001101000000"),
        ("!A", "1110110001000000"),
        ("-D", "1110001111000000"),
        ("-A", "1110110011000000"),
        ("D+1", "1110011111000000"),
        ("A+1", "1110110111000000"),
        ("D-1", "1110001110000000"),
        ("A-1", "1110110010000000"),
        ("D+A", "1110000010000000"),
        ("D-A", "1110010011000000"),
        ("A-D", "1110000111000000"),
        ("D&A", "1110000000000000"),
        ("D|A", "1110010101000000"),
        ("M", "1111110000000000"),
        ("!M", "1111110001000000"),
        ("-M", "1111110011000000"),
        ("M+1", "1111110111000000"),
        ("M-1", "1111110010000000"),
        ("D+M", "1111000010000000"),
        ("D-M", "1111010011000000"),
        ("M-D", "1111000111000000"),
        ("D&M", "1111000000000000"),
        ("D|M", "1111010101000000"),
    ];
    for (line, expected) in cases {
        let out = assemble(&[line]).unwrap();
        assert_eq!(out, vec![expected.to_string()], "line {line}");
    }
}

#[test]
fn destination_mnemonic_codes() {
    let cases = [
        ("M=0", "1110101010001000"),
        ("D=0", "1110101010010000"),
        ("MD=0", "1110101010011000"),
        ("A=0", "1110101010100000"),
        ("AM=0", "1110101010101000"),
        ("AD=0", "1110101010110000"),
        ("AMD=0", "1110101010111000"),
    ];
    for (line, expected) in cases {
        let out = assemble(&[line]).unwrap();
        assert_eq!(out, vec![expected.to_string()], "line {line}");
    }
}

#[test]
fn jump_mnemonic_codes() {
    let cases = [
        ("0;JGT", "1110101010000001"),
        ("0;JEQ", "1110101010000010"),
        ("0;JGE", "1110101010000011"),
        ("0;JLT", "1110101010000100"),
        ("0;JNE", "1110101010000101"),
        ("0;JLE", "1110101010000110"),
        ("0;JMP", "1110101010000111"),
    ];
    for (line, expected) in cases {
        let out = assemble(&[line]).unwrap();
        assert_eq!(out, vec![expected.to_string()], "line {line}");
    }
}

#[test]
fn comments_and_blank_lines_are_dropped() {
    let out = assemble(&["  D=A // load", "", "// a full comment line", "\t@5  "]).unwrap();
    assert_eq!(out, vec!["1110110000010000", "0000000000000101"]);
}

#[test]
fn output_count_matches_content_lines() {
    let out = assemble(&["(A)", "@1", "// note", "(B)", "D=A", "", "@2"]).unwrap();
    assert_eq!(out.len(), 3);
}

#[test]
fn literal_at_boundary_is_accepted() {
    let out = assemble(&["@32767"]).unwrap();
    assert_eq!(out, vec!["0111111111111111"]);
}

#[test]
fn literal_out_of_range_is_rejected() {
    let err = assemble(&["@32768"]).unwrap_err();
    assert_eq!(err, ParseError::ValueOutOfRange(chars("32768")));
}

#[test]
fn unresolved_symbol_on_inconsistent_table() {
    let empty: Vec<String> = Vec::new();
    let table = make_symbol_table(&empty);
    let program: Vec<String> = vec!["@missing".to_string()];
    let err = parse_program(&program, &table).unwrap_err();
    assert_eq!(err, ParseError::UnresolvedSymbol(chars("missing")));
}

#[test]
fn first_label_binding_wins() {
    let out = assemble(&["(X)", "D=A", "(X)", "D=D", "@X"]).unwrap();
    assert_eq!(out[2], "0000000000000000");
}

#[test]
fn predefined_name_shadows_label() {
    let out = assemble(&["(SP)", "@SP"]).unwrap();
    assert_eq!(out, vec!["0000000000000000"]);
}

#[test]
fn forward_label_is_not_a_variable() {
    let out = assemble(&["@END", "0;JMP", "(END)"]).unwrap();
    assert_eq!(out[0], "0000000000000010");
}

#[test]
fn variables_allocate_in_first_occurrence_order() {
    let out = assemble(&["@alpha", "@beta", "@alpha", "@gamma"]).unwrap();
    assert_eq!(
        out,
        vec![
            "0000000000010000",
            "0000000000010001",
            "0000000000010000",
            "0000000000010010",
        ]
    );
}

#[test]
fn invalid_computation_is_rejected() {
    let err = assemble(&["D=W"]).unwrap_err();
    assert_eq!(err, ParseError::InvalidMnemonic(chars("W")));
}

#[test]
fn invalid_jump_is_rejected() {
    let err = assemble(&["D;JXX"]).unwrap_err();
    assert_eq!(err, ParseError::InvalidMnemonic(chars("JXX")));
}

#[test]
fn jump_with_empty_token_is_rejected() {
    let err = assemble(&["D;"]).unwrap_err();
    assert_eq!(err, ParseError::InvalidMnemonic(chars("")));
}

#[test]
fn empty_program_emits_nothing() {
    let out = assemble(&[]).unwrap();
    assert!(out.is_empty());
}

#[test]
fn symbol_table_lookup_reads_back_addresses() {
    let program: Vec<String> = vec!["@counter".to_string()];
    let table = make_symbol_table(&program);
    assert_eq!(table.get(&chars("SP")), Some(0));
    assert_eq!(table.get(&chars("KBD")), Some(24576));
    assert_eq!(table.get(&chars("counter")), Some(16));
    assert_eq!(table.get(&chars("absent")), None);
}
