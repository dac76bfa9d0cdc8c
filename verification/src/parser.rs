//! The instruction parser.
//!
//! Each normalized content line is turned into exactly one [`Instruction`]:
//! an address instruction (`@target`) resolved against the completed symbol
//! table, or a compute instruction (`dest=comp;jump`) whose three mnemonic
//! fields must each match the closed vocabulary exactly.  Unrecognized
//! mnemonics are rejected, never defaulted.

use crate::lines::{
    content_lines, dec_val, find_char_from, find_from, is_numeric, is_numeric_chars,
    is_variable_spec, lemma_content_front, lemma_normalize_no_blank, normalize_lines,
    normalize_program, parse_decimal, sub_chars, valid_line,
};
use crate::symbol::{
    add_labels, assoc_contains, assoc_lookup, lemma_add_vars_covers, lemma_content_member,
    predefined_table, table_spec, SymbolTable,
};
use vstd::prelude::*;

verus! {

/// A parsed program: one instruction per content line, in source order.
pub type Program = Vec<Instruction>;

/// One machine instruction of the architecture.
#[derive(Debug, PartialEq, Eq, Structural)]
pub enum Instruction {
    AInstruction(AInstruction),
    BInstruction(BInstruction),
}

/// An address instruction: loads a 15-bit value into the address register.
#[derive(Debug, PartialEq, Eq, Structural)]
pub struct AInstruction {
    pub value: u16,
}

/// A compute instruction: destination, computation and jump fields.
#[derive(Debug, PartialEq, Eq, Structural)]
pub struct BInstruction {
    pub dest: BInstructionDest,
    pub comp: BInstructionComp,
    pub jump: BInstructionJump,
}

/// The eight destination mnemonics.
#[derive(Debug, PartialEq, Eq, Structural)]
pub enum BInstructionDest {
    Null,
    M,
    D,
    MD,
    A,
    AM,
    AD,
    AMD,
}

/// The twenty-eight computation mnemonics.
#[derive(Debug, PartialEq, Eq, Structural)]
pub enum BInstructionComp {
    Zero,
    One,
    MinusOne,
    D,
    A,
    NotD,
    NotA,
    MinusD,
    MinusA,
    DPlusOne,
    APlusOne,
    DMinusOne,
    AMinusOne,
    DPlusA,
    DMinusA,
    AMinusD,
    DAndA,
    DOrA,
    M,
    NotM,
    MinusM,
    MPlusOne,
    MMinusOne,
    DPlusM,
    DMinusM,
    MMinusD,
    DAndM,
    DOrM,
}

/// The eight jump mnemonics.
#[derive(Debug, PartialEq, Eq, Structural)]
pub enum BInstructionJump {
    Null,
    JGT,
    JEQ,
    JGE,
    JLT,
    JNE,
    JLE,
    JMP,
}

/// Why a line was rejected; each variant carries the offending token.
#[derive(Debug, PartialEq, Eq)]
pub enum ParseError {
    /// An address instruction names a symbol the completed table does not
    /// hold; unreachable when table and parser see the same program.
    UnresolvedSymbol(Vec<char>),
    /// A literal address operand exceeds the 15-bit range.
    ValueOutOfRange(Vec<char>),
    /// A destination, computation or jump token is not in the vocabulary.
    InvalidMnemonic(Vec<char>),
}

/// The mathematical image of a [`ParseError`].
pub enum SpecParseError {
    UnresolvedSymbol(Seq<char>),
    ValueOutOfRange(Seq<char>),
    InvalidMnemonic(Seq<char>),
}

/// The token a [`ParseError`] carries, as a sequence.
pub open spec fn error_model(e: ParseError) -> SpecParseError {
    match e {
        ParseError::UnresolvedSymbol(t) => SpecParseError::UnresolvedSymbol(t@),
        ParseError::ValueOutOfRange(t) => SpecParseError::ValueOutOfRange(t@),
        ParseError::InvalidMnemonic(t) => SpecParseError::InvalidMnemonic(t@),
    }
}

/// The destination a token names, if any.
pub open spec fn dest_of(s: Seq<char>) -> Option<BInstructionDest> {
    if s == seq!['M'] {
        Some(BInstructionDest::M)
    } else if s == seq!['D'] {
        Some(BInstructionDest::D)
    } else if s == seq!['M', 'D'] {
        Some(BInstructionDest::MD)
    } else if s == seq!['A'] {
        Some(BInstructionDest::A)
    } else if s == seq!['A', 'M'] {
        Some(BInstructionDest::AM)
    } else if s == seq!['A', 'D'] {
        Some(BInstructionDest::AD)
    } else if s == seq!['A', 'M', 'D'] {
        Some(BInstructionDest::AMD)
    } else {
        None
    }
}

/// The computation a token names, if any.
pub open spec fn comp_of(s: Seq<char>) -> Option<BInstructionComp> {
    if s == seq!['0'] {
        Some(BInstructionComp::Zero)
    } else if s == seq!['1'] {
        Some(BInstructionComp::One)
    } else if s == seq!['-', '1'] {
        Some(BInstructionComp::MinusOne)
    } else if s == seq!['D'] {
        Some(BInstructionComp::D)
    } else if s == seq!['A'] {
        Some(BInstructionComp::A)
    } else if s == seq!['!', 'D'] {
        Some(BInstructionComp::NotD)
    } else if s == seq!['!', 'A'] {
        Some(BInstructionComp::NotA)
    } else if s == seq!['-', 'D'] {
        Some(BInstructionComp::MinusD)
    } else if s == seq!['-', 'A'] {
        Some(BInstructionComp::MinusA)
    } else if s == seq!['D', '+', '1'] {
        Some(BInstructionComp::DPlusOne)
    } else if s == seq!['A', '+', '1'] {
        Some(BInstructionComp::APlusOne)
    } else if s == seq!['D', '-', '1'] {
        Some(BInstructionComp::DMinusOne)
    } else if s == seq!['A', '-', '1'] {
        Some(BInstructionComp::AMinusOne)
    } else if s == seq!['D', '+', 'A'] {
        Some(BInstructionComp::DPlusA)
    } else if s == seq!['D', '-', 'A'] {
        Some(BInstructionComp::DMinusA)
    } else if s == seq!['A', '-', 'D'] {
        Some(BInstructionComp::AMinusD)
    } else if s == seq!['D', '&', 'A'] {
        Some(BInstructionComp::DAndA)
    } else if s == seq!['D', '|', 'A'] {
        Some(BInstructionComp::DOrA)
    } else if s == seq!['M'] {
        Some(BInstructionComp::M)
    } else if s == seq!['!', 'M'] {
        Some(BInstructionComp::NotM)
    } else if s == seq!['-', 'M'] {
        Some(BInstructionComp::MinusM)
    } else if s == seq!['M', '+', '1'] {
        Some(BInstructionComp::MPlusOne)
    } else if s == seq!['M', '-', '1'] {
        Some(BInstructionComp::MMinusOne)
    } else if s == seq!['D', '+', 'M'] {
        Some(BInstructionComp::DPlusM)
    } else if s == seq!['D', '-', 'M'] {
        Some(BInstructionComp::DMinusM)
    } else if s == seq!['M', '-', 'D'] {
        Some(BInstructionComp::MMinusD)
    } else if s == seq!['D', '&', 'M'] {
        Some(BInstructionComp::DAndM)
    } else if s == seq!['D', '|', 'M'] {
        Some(BInstructionComp::DOrM)
    } else {
        None
    }
}

/// The jump a token names, if any.
pub open spec fn jump_of(s: Seq<char>) -> Option<BInstructionJump> {
    if s == seq!['J', 'G', 'T'] {
        Some(BInstructionJump::JGT)
    } else if s == seq!['J', 'E', 'Q'] {
        Some(BInstructionJump::JEQ)
    } else if s == seq!['J', 'G', 'E'] {
        Some(BInstructionJump::JGE)
    } else if s == seq!['J', 'L', 'T'] {
        Some(BInstructionJump::JLT)
    } else if s == seq!['J', 'N', 'E'] {
        Some(BInstructionJump::JNE)
    } else if s == seq!['J', 'L', 'E'] {
        Some(BInstructionJump::JLE)
    } else if s == seq!['J', 'M', 'P'] {
        Some(BInstructionJump::JMP)
    } else {
        None
    }
}

/// Resolution of an address instruction line against the completed table.
pub open spec fn parse_a_spec(l: Seq<char>, t: Seq<(Seq<char>, u16)>) -> Result<
    AInstruction,
    SpecParseError,
> {
    let tok = l.skip(1);
    if is_numeric(tok) {
        if dec_val(tok) > 32767 {
            Err(SpecParseError::ValueOutOfRange(tok))
        } else {
            Ok(AInstruction { value: dec_val(tok) as u16 })
        }
    } else {
        match assoc_lookup(t, tok) {
            Some(v) => Ok(AInstruction { value: v }),
            None => Err(SpecParseError::UnresolvedSymbol(tok)),
        }
    }
}

/// The destination field and the remainder after the `=` separator.
pub open spec fn parse_b_dest_spec(l: Seq<char>) -> Result<
    (BInstructionDest, Seq<char>),
    SpecParseError,
> {
    let p = find_from(l, '=', 0);
    if p == l.len() {
        Ok((BInstructionDest::Null, l))
    } else {
        let tok = l.subrange(0, p);
        match dest_of(tok) {
            Some(d) => Ok((d, l.subrange(p + 1, l.len() as int))),
            None => Err(SpecParseError::InvalidMnemonic(tok)),
        }
    }
}

/// The computation field and, when a `;` separator is present, the jump
/// token after it.
pub open spec fn parse_b_comp_spec(l: Seq<char>) -> Result<
    (BInstructionComp, Option<Seq<char>>),
    SpecParseError,
> {
    let p = find_from(l, ';', 0);
    let ctok = if p == l.len() {
        l
    } else {
        l.subrange(0, p)
    };
    let jrest = if p == l.len() {
        None
    } else {
        Some(l.subrange(p + 1, l.len() as int))
    };
    match comp_of(ctok) {
        Some(c) => Ok((c, jrest)),
        None => Err(SpecParseError::InvalidMnemonic(ctok)),
    }
}

/// The jump field named by the token after the separator.
pub open spec fn parse_b_jump_spec(tok: Seq<char>) -> Result<BInstructionJump, SpecParseError> {
    match jump_of(tok) {
        Some(j) => Ok(j),
        None => Err(SpecParseError::InvalidMnemonic(tok)),
    }
}

/// Parsing of a compute instruction line: destination, then computation,
/// then jump.
pub open spec fn parse_b_spec(l: Seq<char>) -> Result<BInstruction, SpecParseError> {
    match parse_b_dest_spec(l) {
        Err(e) => Err(e),
        Ok((d, rest)) => match parse_b_comp_spec(rest) {
            Err(e) => Err(e),
            Ok((c, jrest)) => match jrest {
                None => Ok(BInstruction { dest: d, comp: c, jump: BInstructionJump::Null }),
                Some(jtok) => match parse_b_jump_spec(jtok) {
                    Err(e) => Err(e),
                    Ok(j) => Ok(BInstruction { dest: d, comp: c, jump: j }),
                },
            },
        },
    }
}

/// Parsing of one normalized content line.
pub open spec fn parse_inst_spec(l: Seq<char>, t: Seq<(Seq<char>, u16)>) -> Result<
    Instruction,
    SpecParseError,
> {
    if l.len() > 0 && l[0] == '@' {
        match parse_a_spec(l, t) {
            Ok(a) => Ok(Instruction::AInstruction(a)),
            Err(e) => Err(e),
        }
    } else {
        match parse_b_spec(l) {
            Ok(b) => Ok(Instruction::BInstruction(b)),
            Err(e) => Err(e),
        }
    }
}

/// Parsing of a whole sequence of content lines; the first rejected line
/// aborts the translation.
pub open spec fn parse_all(contents: Seq<Seq<char>>, t: Seq<(Seq<char>, u16)>) -> Result<
    Seq<Instruction>,
    SpecParseError,
>
    decreases contents.len(),
{
    if contents.len() == 0 {
        Ok(Seq::empty())
    } else {
        match parse_inst_spec(contents.first(), t) {
            Err(e) => Err(e),
            Ok(ins) => match parse_all(contents.drop_first(), t) {
                Err(e) => Err(e),
                Ok(rest) => Ok(seq![ins] + rest),
            },
        }
    }
}

/// A prefix of parsed instructions joined onto the outcome of the rest.
pub open spec fn append_parsed(
    pre: Seq<Instruction>,
    r: Result<Seq<Instruction>, SpecParseError>,
) -> Result<Seq<Instruction>, SpecParseError> {
    match r {
        Ok(s) => Ok(pre + s),
        Err(e) => Err(e),
    }
}

/// An instruction the code generator can encode within the architecture's
/// ranges: address values fit 15 bits.
pub open spec fn wf_instruction(i: Instruction) -> bool {
    match i {
        Instruction::AInstruction(a) => a.value <= 32767,
        Instruction::BInstruction(_) => true,
    }
}

/// Every instruction of the program is well-formed.
pub open spec fn wf_program(s: Seq<Instruction>) -> bool {
    forall|i: int| 0 <= i < s.len() ==> wf_instruction(#[trigger] s[i])
}

/// A successful translation yields exactly one instruction per content
/// line; together with the length clause of the code generator, the
/// number of emitted lines equals the number of normalized content lines.
pub proof fn lemma_parse_all_len(contents: Seq<Seq<char>>, t: Seq<(Seq<char>, u16)>)
    requires
        parse_all(contents, t) is Ok,
    ensures
        parse_all(contents, t)->Ok_0.len() == contents.len(),
    decreases contents.len(),
{
    if contents.len() > 0 {
        lemma_parse_all_len(contents.drop_first(), t);
    }
}

fn token_eq1(v: &Vec<char>, c0: char) -> (b: bool)
    ensures
        b == (v@ == seq![c0]),
{
    if v.len() == 1 && v[0] == c0 {
        proof {
            assert(v@ =~= seq![c0]);
        }
        true
    } else {
        proof {
            if v@ == seq![c0] {
                assert(v@.len() == 1);
                assert(v@[0] == c0);
            }
        }
        false
    }
}

fn token_eq2(v: &Vec<char>, c0: char, c1: char) -> (b: bool)
    ensures
        b == (v@ == seq![c0, c1]),
{
    if v.len() == 2 && v[0] == c0 && v[1] == c1 {
        proof {
            assert(v@ =~= seq![c0, c1]);
        }
        true
    } else {
        proof {
            if v@ == seq![c0, c1] {
                assert(v@.len() == 2);
                assert(v@[0] == c0);
                assert(v@[1] == c1);
            }
        }
        false
    }
}

fn token_eq3(v: &Vec<char>, c0: char, c1: char, c2: char) -> (b: bool)
    ensures
        b == (v@ == seq![c0, c1, c2]),
{
    if v.len() == 3 && v[0] == c0 && v[1] == c1 && v[2] == c2 {
        proof {
            assert(v@ =~= seq![c0, c1, c2]);
        }
        true
    } else {
        proof {
            if v@ == seq![c0, c1, c2] {
                assert(v@.len() == 3);
                assert(v@[0] == c0);
                assert(v@[1] == c1);
                assert(v@[2] == c2);
            }
        }
        false
    }
}

/// The destination field and the remainder of the line after `=`, or the
/// rejected token.
fn parse_b_instruction_dest(line: &Vec<char>) -> (r: Result<
    (BInstructionDest, Vec<char>),
    ParseError,
>)
    ensures
        match r {
            Ok(p) => parse_b_dest_spec(line@) matches Ok(sp) && p.0 == sp.0 && p.1@ == sp.1,
            Err(e) => parse_b_dest_spec(line@) matches Err(se) && error_model(e) == se,
        },
{
    let p = find_char_from(line, '=', 0);
    if p == line.len() {
        let copy = sub_chars(line, 0, line.len());
        proof {
            assert(copy@ =~= line@);
        }
        Ok((BInstructionDest::Null, copy))
    } else {
        let tok = sub_chars(line, 0, p);
        let d = if token_eq1(&tok, 'M') {
            Some(BInstructionDest::M)
        } else if token_eq1(&tok, 'D') {
            Some(BInstructionDest::D)
        } else if token_eq2(&tok, 'M', 'D') {
            Some(BInstructionDest::MD)
        } else if token_eq1(&tok, 'A') {
            Some(BInstructionDest::A)
        } else if token_eq2(&tok, 'A', 'M') {
            Some(BInstructionDest::AM)
        } else if token_eq2(&tok, 'A', 'D') {
            Some(BInstructionDest::AD)
        } else if token_eq3(&tok, 'A', 'M', 'D') {
            Some(BInstructionDest::AMD)
        } else {
            None
        };
        match d {
            Some(d) => {
                let rest = sub_chars(line, p + 1, line.len());
                Ok((d, rest))
            },
            None => Err(ParseError::InvalidMnemonic(tok)),
        }
    }
}

/// The computation field and the jump token (when a `;` separator is
/// present), or the rejected token.
fn parse_b_instruction_comp(line: &Vec<char>) -> (r: Result<
    (BInstructionComp, Option<Vec<char>>),
    ParseError,
>)
    ensures
        match r {
            Ok(p) => parse_b_comp_spec(line@) matches Ok(sp) && p.0 == sp.0 && (match (
                p.1,
                sp.1,
            ) {
                (Some(v), Some(s)) => v@ == s,
                (None, None) => true,
                _ => false,
            }),
            Err(e) => parse_b_comp_spec(line@) matches Err(se) && error_model(e) == se,
        },
{
    let p = find_char_from(line, ';', 0);
    let has_jump = p < line.len();
    let ctok = if has_jump {
        sub_chars(line, 0, p)
    } else {
        let copy = sub_chars(line, 0, line.len());
        proof {
            assert(copy@ =~= line@);
        }
        copy
    };
    let c = comp_token(&ctok);
    match c {
        Some(c) => {
            if has_jump {
                let jtok = sub_chars(line, p + 1, line.len());
                Ok((c, Some(jtok)))
            } else {
                Ok((c, None))
            }
        },
        None => Err(ParseError::InvalidMnemonic(ctok)),
    }
}

fn comp_token(tok: &Vec<char>) -> (r: Option<BInstructionComp>)
    ensures
        r == comp_of(tok@),
{
    if token_eq1(tok, '0') {
        Some(BInstructionComp::Zero)
    } else if token_eq1(tok, '1') {
        Some(BInstructionComp::One)
    } else if token_eq2(tok, '-', '1') {
        Some(BInstructionComp::MinusOne)
    } else if token_eq1(tok, 'D') {
        Some(BInstructionComp::D)
    } else if token_eq1(tok, 'A') {
        Some(BInstructionComp::A)
    } else if token_eq2(tok, '!', 'D') {
        Some(BInstructionComp::NotD)
    } else if token_eq2(tok, '!', 'A') {
        Some(BInstructionComp::NotA)
    } else if token_eq2(tok, '-', 'D') {
        Some(BInstructionComp::MinusD)
    } else if token_eq2(tok, '-', 'A') {
        Some(BInstructionComp::MinusA)
    } else if token_eq3(tok, 'D', '+', '1') {
        Some(BInstructionComp::DPlusOne)
    } else if token_eq3(tok, 'A', '+', '1') {
        Some(BInstructionComp::APlusOne)
    } else if token_eq3(tok, 'D', '-', '1') {
        Some(BInstructionComp::DMinusOne)
    } else if token_eq3(tok, 'A', '-', '1') {
        Some(BInstructionComp::AMinusOne)
    } else if token_eq3(tok, 'D', '+', 'A') {
        Some(BInstructionComp::DPlusA)
    } else if token_eq3(tok, 'D', '-', 'A') {
        Some(BInstructionComp::DMinusA)
    } else if token_eq3(tok, 'A', '-', 'D') {
        Some(BInstructionComp::AMinusD)
    } else if token_eq3(tok, 'D', '&', 'A') {
        Some(BInstructionComp::DAndA)
    } else if token_eq3(tok, 'D', '|', 'A') {
        Some(BInstructionComp::DOrA)
    } else if token_eq1(tok, 'M') {
        Some(BInstructionComp::M)
    } else if token_eq2(tok, '!', 'M') {
        Some(BInstructionComp::NotM)
    } else if token_eq2(tok, '-', 'M') {
        Some(BInstructionComp::MinusM)
    } else if token_eq3(tok, 'M', '+', '1') {
        Some(BInstructionComp::MPlusOne)
    } else if token_eq3(tok, 'M', '-', '1') {
        Some(BInstructionComp::MMinusOne)
    } else if token_eq3(tok, 'D', '+', 'M') {
        Some(BInstructionComp::DPlusM)
    } else if token_eq3(tok, 'D', '-', 'M') {
        Some(BInstructionComp::DMinusM)
    } else if token_eq3(tok, 'M', '-', 'D') {
        Some(BInstructionComp::MMinusD)
    } else if token_eq3(tok, 'D', '&', 'M') {
        Some(BInstructionComp::DAndM)
    } else if token_eq3(tok, 'D', '|', 'M') {
        Some(BInstructionComp::DOrM)
    } else {
        None
    }
}

/// The jump field named by the token after the separator, or the rejected
/// token.
fn parse_b_instruction_jump(tok: Vec<char>) -> (r: Result<BInstructionJump, ParseError>)
    ensures
        match r {
            Ok(j) => parse_b_jump_spec(tok@) matches Ok(sj) && j == sj,
            Err(e) => parse_b_jump_spec(tok@) matches Err(se) && error_model(e) == se,
        },
{
    let j = if token_eq3(&tok, 'J', 'G', 'T') {
        Some(BInstructionJump::JGT)
    } else if token_eq3(&tok, 'J', 'E', 'Q') {
        Some(BInstructionJump::JEQ)
    } else if token_eq3(&tok, 'J', 'G', 'E') {
        Some(BInstructionJump::JGE)
    } else if token_eq3(&tok, 'J', 'L', 'T') {
        Some(BInstructionJump::JLT)
    } else if token_eq3(&tok, 'J', 'N', 'E') {
        Some(BInstructionJump::JNE)
    } else if token_eq3(&tok, 'J', 'L', 'E') {
        Some(BInstructionJump::JLE)
    } else if token_eq3(&tok, 'J', 'M', 'P') {
        Some(BInstructionJump::JMP)
    } else {
        None
    };
    match j {
        Some(j) => Ok(j),
        None => Err(ParseError::InvalidMnemonic(tok)),
    }
}

/// Parses one compute instruction line.
fn parse_b_instruction(line: &Vec<char>) -> (r: Result<BInstruction, ParseError>)
    ensures
        match r {
            Ok(b) => parse_b_spec(line@) matches Ok(sb) && b == sb,
            Err(e) => parse_b_spec(line@) matches Err(se) && error_model(e) == se,
        },
{
    let (dest, rest) = match parse_b_instruction_dest(line) {
        Ok(p) => p,
        Err(e) => {
            return Err(e);
        },
    };
    let (comp, jrest) = match parse_b_instruction_comp(&rest) {
        Ok(p) => p,
        Err(e) => {
            return Err(e);
        },
    };
    let jump = match jrest {
        None => BInstructionJump::Null,
        Some(jtok) => match parse_b_instruction_jump(jtok) {
            Ok(j) => j,
            Err(e) => {
                return Err(e);
            },
        },
    };
    Ok(BInstruction { dest, comp, jump })
}

/// Parses one address instruction line against the completed table.
fn parse_a_instruction(line: &Vec<char>, symbol_table: &SymbolTable) -> (r: Result<
    AInstruction,
    ParseError,
>)
    requires
        symbol_table.wf(),
        line@.len() > 0,
    ensures
        match r {
            Ok(a) => parse_a_spec(line@, symbol_table.entries()) matches Ok(sa) && a == sa && (
            symbol_table.bounded() ==> a.value <= 32767),
            Err(e) => parse_a_spec(line@, symbol_table.entries()) matches Err(se) && error_model(e)
                == se,
        },
{
    let tok = sub_chars(line, 1, line.len());
    proof {
        assert(tok@ =~= line@.skip(1));
    }
    if is_numeric_chars(&tok) {
        match parse_decimal(&tok) {
            Some(v) => Ok(AInstruction { value: v }),
            None => Err(ParseError::ValueOutOfRange(tok)),
        }
    } else {
        match symbol_table.get(&tok) {
            Some(v) => {
                proof {
                    if symbol_table.bounded() {
                        crate::symbol::lemma_assoc_lookup_le(symbol_table.entries(), tok@);
                    }
                }
                Ok(AInstruction { value: v })
            },
            None => Err(ParseError::UnresolvedSymbol(tok)),
        }
    }
}

/// Parses one normalized content line into exactly one instruction.
fn parse_instruction(line: &Vec<char>, symbol_table: &SymbolTable) -> (r: Result<
    Instruction,
    ParseError,
>)
    requires
        symbol_table.wf(),
    ensures
        match r {
            Ok(ins) => parse_inst_spec(line@, symbol_table.entries()) matches Ok(si) && ins == si
                && (symbol_table.bounded() ==> wf_instruction(ins)),
            Err(e) => parse_inst_spec(line@, symbol_table.entries()) matches Err(se)
                && error_model(e) == se,
        },
{
    if line.len() > 0 && line[0] == '@' {
        match parse_a_instruction(line, symbol_table) {
            Ok(a) => Ok(Instruction::AInstruction(a)),
            Err(e) => Err(e),
        }
    } else {
        match parse_b_instruction(line) {
            Ok(b) => Ok(Instruction::BInstruction(b)),
            Err(e) => Err(e),
        }
    }
}

/// Translates a raw program into instructions: the lines are normalized,
/// labels are dropped, and every content line is parsed against the
/// completed symbol table.  The first rejected line aborts the whole
/// translation.
pub fn parse_program(program: &Vec<String>, symbol_table: &SymbolTable) -> (r: Result<
    Program,
    ParseError,
>)
    requires
        symbol_table.wf(),
        symbol_table.bounded(),
    ensures
        match r {
            Ok(p) => parse_all(
                content_lines(normalize_lines(program.deep_view())),
                symbol_table.entries(),
            ) matches Ok(s) && p@ == s && wf_program(p@),
            Err(e) => parse_all(
                content_lines(normalize_lines(program.deep_view())),
                symbol_table.entries(),
            ) matches Err(se) && error_model(e) == se,
        },
{
    let norm = normalize_program(program);
    let ghost nd = norm.deep_view();
    let ghost t = symbol_table.entries();
    proof {
        lemma_normalize_no_blank(program.deep_view());
        assert(nd.skip(0) =~= nd);
    }
    let mut out: Vec<Instruction> = Vec::new();
    let mut i: usize = 0;
    while i < norm.len()
        invariant
            symbol_table.wf(),
            symbol_table.bounded(),
            t == symbol_table.entries(),
            i <= norm@.len(),
            nd == norm.deep_view(),
            nd == normalize_lines(program.deep_view()),
            forall|j: int| 0 <= j < nd.len() ==> nd[j].len() > 0,
            wf_program(out@),
            append_parsed(out@, parse_all(content_lines(nd.skip(i as int)), t)) == parse_all(
                content_lines(nd),
                t,
            ),
        decreases norm@.len() - i,
    {
        proof {
            assert(nd.skip(i as int)[0] == nd[i as int]);
            assert(nd.skip(i as int).drop_first() =~= nd.skip(i + 1));
            assert(nd[i as int] == norm@[i as int]@);
            lemma_content_front(nd.skip(i as int));
        }
        let line = &norm[i];
        if valid_line(line) {
            let ghost cs = content_lines(nd.skip(i as int));
            proof {
                assert(cs == seq![nd[i as int]] + content_lines(nd.skip(i + 1)));
                assert(cs.first() == nd[i as int]);
                assert(cs.drop_first() =~= content_lines(nd.skip(i + 1)));
            }
            match parse_instruction(line, symbol_table) {
                Ok(ins) => {
                    let ghost prev = out@;
                    out.push(ins);
                    proof {
                        let rest_r = parse_all(content_lines(nd.skip(i + 1)), t);
                        match rest_r {
                            Ok(rest) => {
                                assert(parse_all(cs, t) == Ok::<Seq<Instruction>, SpecParseError>(
                                    seq![ins] + rest,
                                ));
                                assert(prev + (seq![ins] + rest) =~= prev.push(ins) + rest);
                            },
                            Err(_) => {},
                        }
                        assert(forall|j: int|
                            0 <= j < prev.len() ==> #[trigger] out@[j] == prev[j]);
                    }
                },
                Err(e) => {
                    proof {
                        assert(parse_all(cs, t) matches Err(se) && se == error_model(e));
                    }
                    return Err(e);
                },
            }
        } else {
            proof {
                assert(content_lines(nd.skip(i as int)) == content_lines(nd.skip(i + 1)));
            }
        }
        i = i + 1;
    }
    proof {
        assert(nd.skip(nd.len() as int) =~= Seq::<Seq<char>>::empty());
        assert(out@ + Seq::<Instruction>::empty() =~= out@);
    }
    Ok(out)
}

/// A table that binds every variable reference never yields an
/// unresolved-symbol failure.
proof fn lemma_parse_all_resolves(contents: Seq<Seq<char>>, t: Seq<(Seq<char>, u16)>)
    requires
        forall|i: int|
            0 <= i < contents.len() && is_variable_spec(#[trigger] contents[i])
                ==> assoc_contains(t, contents[i].skip(1)),
    ensures
        !(parse_all(contents, t) matches Err(e) && e is UnresolvedSymbol),
    decreases contents.len(),
{
    if contents.len() > 0 {
        let l = contents.first();
        if l.len() > 0 && l[0] == '@' {
            let tok = l.skip(1);
            if !is_numeric(tok) {
                assert(is_variable_spec(contents[0]));
                assert(assoc_contains(t, tok));
            }
        }
        assert forall|i: int|
            0 <= i < contents.drop_first().len() && is_variable_spec(
                #[trigger] contents.drop_first()[i],
            ) implies assoc_contains(t, contents.drop_first()[i].skip(1)) by {
            assert(contents.drop_first()[i] == contents[i + 1]);
        }
        lemma_parse_all_resolves(contents.drop_first(), t);
    }
}

/// The builder's guarantee: every symbol an address instruction references
/// is resolvable once the two passes complete, so a failed translation of a
/// program against its own completed table is never an unresolved-symbol
/// failure.
pub proof fn lemma_symbols_resolvable(lines: Seq<Seq<char>>)
    ensures
        parse_all(content_lines(normalize_lines(lines)), table_spec(lines)) matches Err(e)
            ==> !(e is UnresolvedSymbol),
{
    let norm = normalize_lines(lines);
    let contents = content_lines(norm);
    let labeled = add_labels(predefined_table(), norm, 0);
    assert forall|i: int|
        0 <= i < contents.len() && is_variable_spec(#[trigger] contents[i]) implies assoc_contains(
        table_spec(lines),
        contents[i].skip(1),
    ) by {
        lemma_content_member(norm, i);
        let j = choose|j: int| 0 <= j < norm.len() && contents[i] == norm[j];
        lemma_add_vars_covers(labeled, norm, 16, j);
    }
    lemma_parse_all_resolves(contents, table_spec(lines));
}

} // verus!
