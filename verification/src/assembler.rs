//! The two-pass assembler: line-oriented source text in, an immutable
//! [`Pgm`] out, or a report naming the first error and its line.
//!
//! Pass 1 ([`parse_lines_s`]) reads the source line by line, collecting
//! functions, labels, variables and instructions; control-transfer
//! instructions keep their target symbolic. Pass 2 ([`resolve_all_s`])
//! rewrites every symbolic reference into a signed 16-bit displacement.
//! Both passes are spec functions; the executable assembler is proved
//! to implement them exactly.

use vstd::prelude::*;
use vstd::string::StringSliceAdditionalSpecFns;
use crate::op;
use crate::pgm::Pgm;
use crate::text::{
    byte_is_word, check_name, clean_line, clean_line_s, copy_range, is_valid_name,
    parse_u8_literal, parse_u8_s, split_bytes, split_on, trim_bytes, trim_s,
};

verus! {

/// Errors that can happen during assembly.
#[derive(Debug, Clone)]
pub enum AsmError {
    InvalidLine,
    UnknownInstruction(Vec<u8>),
    UnexpectedArgument,
    MissingArgument,
    InvalidArgument,
    InvalidLabel(Vec<u8>),
    DuplicateLabel(Vec<u8>),
    UnknownLabel(Vec<u8>),
    JumpTooLong,
    InvalidVariableName(Vec<u8>),
    DuplicateVariable(Vec<u8>),
    UnknownVariable(Vec<u8>),
    InvalidVariable,
    TooManyVariables,
    InstructionOutsideFunction,
    LabelOutsideFunction,
    InvalidFunction(Vec<u8>),
    DuplicateFunction(Vec<u8>),
    UnknownFunction(Vec<u8>),
}

/// The abstract value of an [`AsmError`]: names are byte sequences.
pub enum AsmErrV {
    InvalidLine,
    UnknownInstruction(Seq<u8>),
    UnexpectedArgument,
    MissingArgument,
    InvalidArgument,
    InvalidLabel(Seq<u8>),
    DuplicateLabel(Seq<u8>),
    UnknownLabel(Seq<u8>),
    JumpTooLong,
    InvalidVariableName(Seq<u8>),
    DuplicateVariable(Seq<u8>),
    UnknownVariable(Seq<u8>),
    InvalidVariable,
    TooManyVariables,
    InstructionOutsideFunction,
    LabelOutsideFunction,
    InvalidFunction(Seq<u8>),
    DuplicateFunction(Seq<u8>),
    UnknownFunction(Seq<u8>),
}

impl View for AsmError {
    type V = AsmErrV;

    open spec fn view(&self) -> AsmErrV {
        match self {
            AsmError::InvalidLine => AsmErrV::InvalidLine,
            AsmError::UnknownInstruction(s) => AsmErrV::UnknownInstruction(s@),
            AsmError::UnexpectedArgument => AsmErrV::UnexpectedArgument,
            AsmError::MissingArgument => AsmErrV::MissingArgument,
            AsmError::InvalidArgument => AsmErrV::InvalidArgument,
            AsmError::InvalidLabel(s) => AsmErrV::InvalidLabel(s@),
            AsmError::DuplicateLabel(s) => AsmErrV::DuplicateLabel(s@),
            AsmError::UnknownLabel(s) => AsmErrV::UnknownLabel(s@),
            AsmError::JumpTooLong => AsmErrV::JumpTooLong,
            AsmError::InvalidVariableName(s) => AsmErrV::InvalidVariableName(s@),
            AsmError::DuplicateVariable(s) => AsmErrV::DuplicateVariable(s@),
            AsmError::UnknownVariable(s) => AsmErrV::UnknownVariable(s@),
            AsmError::InvalidVariable => AsmErrV::InvalidVariable,
            AsmError::TooManyVariables => AsmErrV::TooManyVariables,
            AsmError::InstructionOutsideFunction => AsmErrV::InstructionOutsideFunction,
            AsmError::LabelOutsideFunction => AsmErrV::LabelOutsideFunction,
            AsmError::InvalidFunction(s) => AsmErrV::InvalidFunction(s@),
            AsmError::DuplicateFunction(s) => AsmErrV::DuplicateFunction(s@),
            AsmError::UnknownFunction(s) => AsmErrV::UnknownFunction(s@),
        }
    }
}

/// Report of failed assembly attempt.
///
/// Wraps the error that occurred during assembly and supplies
/// information where it did.
#[derive(Debug)]
pub struct AsmErrorReport {
    /// Name of the program that failed to assemble.
    pub name: String,
    /// Line the error occurred during assembly.
    pub line: usize,
    /// Error that occurred.
    pub error: AsmError,
}

/// A single instruction parsed from the line of an assembly program.
#[derive(Debug)]
pub struct AsmInstruction {
    /// Number of line the instruction was read from (counting from 1).
    pub line_number: usize,
    /// Opcode defining which operation is to be executed.
    pub opcode: u8,
    /// Arguments used for execution of the operation (zero or more bytes).
    pub oparg: Vec<u8>,
    /// Position inside bytecode (starting at 0).
    pub pos: usize,
    /// Named argument taken from the instruction (e.g. a label), kept
    /// symbolic until the second pass.
    pub argument_token: Option<Vec<u8>>,
}

/// The abstract value of an [`AsmInstruction`].
pub struct InstrV {
    pub line: int,
    pub opcode: u8,
    pub oparg: Seq<u8>,
    pub pos: int,
    pub tok: Option<Seq<u8>>,
}

impl View for AsmInstruction {
    type V = InstrV;

    open spec fn view(&self) -> InstrV {
        InstrV {
            line: self.line_number as int,
            opcode: self.opcode,
            oparg: self.oparg@,
            pos: self.pos as int,
            tok: match self.argument_token {
                Some(ref t) => Some(t@),
                None => None,
            },
        }
    }
}

impl AsmInstruction {
    /// Returns the size of the instruction including its parameters.
    ///
    /// Gives the number of bytes this instruction will use inside the
    /// bytecode. Needed to calculate branching distances.
    pub fn size(&self) -> (n: usize)
        requires
            self.oparg@.len() + 1 <= usize::MAX,
        ensures
            n == 1 + self.oparg@.len(),
    {
        1 + self.oparg.len()
    }
}

/// A function block of the program being assembled: its parameters and
/// local declarations, its instructions, and its label table.
#[derive(Debug)]
pub struct AsmFunction {
    pub name: Vec<u8>,
    pub line_number: usize,
    pub text_pos: usize,
    pub vars: Vec<Vec<u8>>,
    pub parameters: usize,
    pub instructions: Vec<AsmInstruction>,
    /// Label definitions by name, with their position in bytecode.
    pub labels: Vec<(Vec<u8>, usize)>,
}

/// The abstract value of an [`AsmFunction`].
pub struct FunV {
    pub name: Seq<u8>,
    pub line: int,
    pub pos: int,
    pub vars: Seq<Seq<u8>>,
    pub params: int,
    pub instrs: Seq<InstrV>,
    pub labels: Seq<(Seq<u8>, int)>,
}


/// The abstract values of a vector of instructions.
pub open spec fn instrs_deep(s: Seq<AsmInstruction>) -> Seq<InstrV> {
    s.map_values(|i: AsmInstruction| i@)
}

/// The abstract values of a label table.
pub open spec fn labels_deep(s: Seq<(Vec<u8>, usize)>) -> Seq<(Seq<u8>, int)> {
    s.map_values(|p: (Vec<u8>, usize)| (p.0@, p.1 as int))
}

/// The abstract values of a vector of function blocks.
pub open spec fn funs_deep(s: Seq<AsmFunction>) -> Seq<FunV> {
    s.map_values(|f: AsmFunction| f@)
}

impl View for AsmFunction {
    type V = FunV;

    open spec fn view(&self) -> FunV {
        FunV {
            name: self.name@,
            line: self.line_number as int,
            pos: self.text_pos as int,
            vars: self.vars.deep_view(),
            params: self.parameters as int,
            instrs: instrs_deep(self.instructions@),
            labels: labels_deep(self.labels@),
        }
    }
}

/// An assembler program during parsing/assembling.
#[derive(Debug)]
pub struct AsmPgm {
    /// Name of the program (just a string supplied by caller).
    name: String,
    /// The function blocks read so far, in order of declaration.
    functions: Vec<AsmFunction>,
    /// Current line number during parsing (used for error reporting).
    line_number: usize,
    /// Current position inside bytecode during parsing.
    text_pos: usize,
    /// The error that happened during parsing/assembling, if any.
    error: Option<AsmError>,
    /// List holding all global variable names in order.
    vars: Vec<Vec<u8>>,
}

/// The abstract state of pass 1.
pub struct StV {
    pub funs: Seq<FunV>,
    pub gvars: Seq<Seq<u8>>,
    pub pos: int,
    pub line: int,
}

impl View for AsmPgm {
    type V = StV;

    closed spec fn view(&self) -> StV {
        StV {
            funs: funs_deep(self.functions@),
            gvars: self.vars.deep_view(),
            pos: self.text_pos as int,
            line: self.line_number as int,
        }
    }
}

// ---------------------------------------------------------------------
// name lookup

/// The index of the first occurrence of `n` in `names`, if any.
pub open spec fn first_match(names: Seq<Seq<u8>>, n: Seq<u8>) -> Option<int>
    decreases names.len(),
{
    if names.len() == 0 {
        None
    } else if names[0] == n {
        Some(0)
    } else {
        match first_match(names.drop_first(), n) {
            Some(i) => Some(i + 1),
            None => None,
        }
    }
}

/// The value of the first pair in `assoc` whose name is `n`, if any.
pub open spec fn assoc_find(assoc: Seq<(Seq<u8>, int)>, n: Seq<u8>) -> Option<int>
    decreases assoc.len(),
{
    if assoc.len() == 0 {
        None
    } else if assoc[0].0 == n {
        Some(assoc[0].1)
    } else {
        assoc_find(assoc.drop_first(), n)
    }
}

/// The bytecode position of the first function named `n`, if any.
pub open spec fn fun_pos_find(funs: Seq<FunV>, n: Seq<u8>) -> Option<int>
    decreases funs.len(),
{
    if funs.len() == 0 {
        None
    } else if funs[0].name == n {
        Some(funs[0].pos)
    } else {
        fun_pos_find(funs.drop_first(), n)
    }
}

proof fn lemma_first_match_skip(names: Seq<Seq<u8>>, n: Seq<u8>, k: int)
    requires
        0 <= k <= names.len(),
        forall|j: int| 0 <= j < k ==> names[j] != n,
    ensures
        first_match(names, n) == (match first_match(names.skip(k), n) {
            Some(i) => Some(i + k),
            None => None::<int>,
        }),
    decreases k,
{
    if k == 0 {
        assert(names.skip(0) =~= names);
        match first_match(names, n) {
            Some(i) => {},
            None => {},
        }
    } else {
        assert(names.len() > 0);
        assert(names[0] != n);
        assert(names.drop_first() =~= names.skip(1));
        lemma_first_match_skip(names.skip(1), n, k - 1);
        assert(names.skip(1).skip(k - 1) =~= names.skip(k));
        assert(forall|j: int| 0 <= j < k - 1 ==> names.skip(1)[j] != n);
    }
}

/// Finds the index of `n` in `names`, scanning forward.
fn find_name(names: &Vec<Vec<u8>>, n: &Vec<u8>) -> (r: Option<usize>)
    ensures
        (match r {
            Some(i) => i < names@.len() && first_match(names.deep_view(), n@) == Some(i as int),
            None => first_match(names.deep_view(), n@) is None,
        }),
{
    let ghost nv = names.deep_view();
    let mut k: usize = 0;
    while k < names.len()
        invariant
            0 <= k <= names@.len(),
            nv == names.deep_view(),
            nv.len() == names@.len(),
            forall|j: int| 0 <= j < k ==> nv[j] != n@,
        decreases names@.len() - k,
    {
        proof {
            assert(nv[k as int] == names@[k as int].deep_view());
            assert(nv[k as int] =~= names@[k as int]@);
        }
        if crate::text::bytes_eq(&names[k], n) {
            proof {
                lemma_first_match_skip(nv, n@, k as int);
                assert(nv.skip(k as int)[0] == nv[k as int]);
                assert(first_match(nv.skip(k as int), n@) == Some(0int));
            }
            return Some(k);
        }
        k = k + 1;
    }
    proof {
        lemma_first_match_skip(nv, n@, nv.len() as int);
        assert(nv.skip(nv.len() as int) =~= Seq::<Seq<u8>>::empty());
    }
    None
}

/// Looks a name up in a label table, scanning forward.
fn find_assoc(assoc: &Vec<(Vec<u8>, usize)>, n: &Vec<u8>) -> (r: Option<usize>)
    ensures
        (match r {
            Some(v) => assoc_find(labels_deep(assoc@), n@) == Some(v as int),
            None => assoc_find(labels_deep(assoc@), n@) is None,
        }),
{
    let ghost av = labels_deep(assoc@);
    let mut k: usize = 0;
    while k < assoc.len()
        invariant
            0 <= k <= assoc@.len(),
            av == labels_deep(assoc@),
            av.len() == assoc@.len(),
            forall|j: int| 0 <= j < k ==> av[j].0 != n@,
        decreases assoc@.len() - k,
    {
        if crate::text::bytes_eq(&assoc[k].0, n) {
            proof {
                lemma_assoc_find_skip(av, n@, k as int);
                assert(av.skip(k as int)[0] == av[k as int]);
                assert(assoc_find(av.skip(k as int), n@) == Some(av[k as int].1));
                assert(av[k as int].1 == assoc@[k as int].1 as int);
            }
            return Some(assoc[k].1);
        }
        k = k + 1;
    }
    proof {
        lemma_assoc_find_skip(av, n@, av.len() as int);
        assert(av.skip(av.len() as int) =~= Seq::<(Seq<u8>, int)>::empty());
    }
    None
}

proof fn lemma_assoc_find_skip(assoc: Seq<(Seq<u8>, int)>, n: Seq<u8>, k: int)
    requires
        0 <= k <= assoc.len(),
        forall|j: int| 0 <= j < k ==> assoc[j].0 != n,
    ensures
        assoc_find(assoc, n) == assoc_find(assoc.skip(k), n),
    decreases k,
{
    if k == 0 {
        assert(assoc.skip(0) =~= assoc);
    } else {
        assert(assoc.len() > 0);
        assert(assoc[0].0 != n);
        assert(assoc.drop_first() =~= assoc.skip(1));
        lemma_assoc_find_skip(assoc.skip(1), n, k - 1);
        assert(assoc.skip(1).skip(k - 1) =~= assoc.skip(k));
        assert(forall|j: int| 0 <= j < k - 1 ==> assoc.skip(1)[j].0 != n);
    }
}

/// Looks a function name up, scanning forward through the blocks.
fn find_fun_pos(funs: &Vec<AsmFunction>, n: &Vec<u8>) -> (r: Option<usize>)
    ensures
        (match r {
            Some(v) => fun_pos_find(funs_deep(funs@), n@) == Some(v as int),
            None => fun_pos_find(funs_deep(funs@), n@) is None,
        }),
{
    let ghost fv = funs_deep(funs@);
    let mut k: usize = 0;
    while k < funs.len()
        invariant
            0 <= k <= funs@.len(),
            fv == funs_deep(funs@),
            fv.len() == funs@.len(),
            forall|j: int| 0 <= j < k ==> fv[j].name != n@,
        decreases funs@.len() - k,
    {
        if crate::text::bytes_eq(&funs[k].name, n) {
            proof {
                lemma_fun_pos_find_skip(fv, n@, k as int);
                assert(fv.skip(k as int)[0] == fv[k as int]);
                assert(fun_pos_find(fv.skip(k as int), n@) == Some(fv[k as int].pos));
            }
            return Some(funs[k].text_pos);
        }
        k = k + 1;
    }
    proof {
        lemma_fun_pos_find_skip(fv, n@, fv.len() as int);
        assert(fv.skip(fv.len() as int) =~= Seq::<FunV>::empty());
    }
    None
}

// ---------------------------------------------------------------------
// the mnemonic table

/// The mnemonics of the instruction set. `Other` stands for any word
/// that is not a mnemonic.
pub enum Mnemonic {
    Nop,
    Fin,
    Pop,
    Dup,
    Out,
    Add,
    Sub,
    Mul,
    Div,
    Mod,
    PushU8,
    Goto,
    Ifeq,
    Ifne,
    Iflt,
    Ifle,
    Ifgt,
    Ifge,
    Load,
    Store,
    Ret,
    Call,
    Other,
}

/// The bytes of `"nop"`.
pub open spec fn kw_nop() -> Seq<u8> {
    seq![0x6eu8, 0x6fu8, 0x70u8]
}

/// The bytes of `"fin"`.
pub open spec fn kw_fin() -> Seq<u8> {
    seq![0x66u8, 0x69u8, 0x6eu8]
}

/// The bytes of `"pop"`.
pub open spec fn kw_pop() -> Seq<u8> {
    seq![0x70u8, 0x6fu8, 0x70u8]
}

/// The bytes of `"dup"`.
pub open spec fn kw_dup() -> Seq<u8> {
    seq![0x64u8, 0x75u8, 0x70u8]
}

/// The bytes of `"out"`.
pub open spec fn kw_out() -> Seq<u8> {
    seq![0x6fu8, 0x75u8, 0x74u8]
}

/// The bytes of `"add"`.
pub open spec fn kw_add() -> Seq<u8> {
    seq![0x61u8, 0x64u8, 0x64u8]
}

/// The bytes of `"sub"`.
pub open spec fn kw_sub() -> Seq<u8> {
    seq![0x73u8, 0x75u8, 0x62u8]
}

/// The bytes of `"mul"`.
pub open spec fn kw_mul() -> Seq<u8> {
    seq![0x6du8, 0x75u8, 0x6cu8]
}

/// The bytes of `"div"`.
pub open spec fn kw_div() -> Seq<u8> {
    seq![0x64u8, 0x69u8, 0x76u8]
}

/// The bytes of `"mod"`.
pub open spec fn kw_mod() -> Seq<u8> {
    seq![0x6du8, 0x6fu8, 0x64u8]
}

/// The bytes of `"push_u8"`.
pub open spec fn kw_push_u8() -> Seq<u8> {
    seq![0x70u8, 0x75u8, 0x73u8, 0x68u8, 0x5fu8, 0x75u8, 0x38u8]
}

/// The bytes of `"goto"`.
pub open spec fn kw_goto() -> Seq<u8> {
    seq![0x67u8, 0x6fu8, 0x74u8, 0x6fu8]
}

/// The bytes of `"ifeq"`.
pub open spec fn kw_ifeq() -> Seq<u8> {
    seq![0x69u8, 0x66u8, 0x65u8, 0x71u8]
}

/// The bytes of `"ifne"`.
pub open spec fn kw_ifne() -> Seq<u8> {
    seq![0x69u8, 0x66u8, 0x6eu8, 0x65u8]
}

/// The bytes of `"iflt"`.
pub open spec fn kw_iflt() -> Seq<u8> {
    seq![0x69u8, 0x66u8, 0x6cu8, 0x74u8]
}

/// The bytes of `"ifle"`.
pub open spec fn kw_ifle() -> Seq<u8> {
    seq![0x69u8, 0x66u8, 0x6cu8, 0x65u8]
}

/// The bytes of `"ifgt"`.
pub open spec fn kw_ifgt() -> Seq<u8> {
    seq![0x69u8, 0x66u8, 0x67u8, 0x74u8]
}

/// The bytes of `"ifge"`.
pub open spec fn kw_ifge() -> Seq<u8> {
    seq![0x69u8, 0x66u8, 0x67u8, 0x65u8]
}

/// The bytes of `"load"`.
pub open spec fn kw_load() -> Seq<u8> {
    seq![0x6cu8, 0x6fu8, 0x61u8, 0x64u8]
}

/// The bytes of `"store"`.
pub open spec fn kw_store() -> Seq<u8> {
    seq![0x73u8, 0x74u8, 0x6fu8, 0x72u8, 0x65u8]
}

/// The bytes of `"ret"`.
pub open spec fn kw_ret() -> Seq<u8> {
    seq![0x72u8, 0x65u8, 0x74u8]
}

/// The bytes of `"call"`.
pub open spec fn kw_call() -> Seq<u8> {
    seq![0x63u8, 0x61u8, 0x6cu8, 0x6cu8]
}

/// The bytes of `"var "`, the prefix of a variable declaration line.
pub open spec fn kw_var_sp() -> Seq<u8> {
    seq![0x76u8, 0x61u8, 0x72u8, 0x20u8]
}

/// Classifies a word as a mnemonic.
pub open spec fn mnemonic_of(mn: Seq<u8>) -> Mnemonic {
    if mn == kw_nop() {
        Mnemonic::Nop
    } else if mn == kw_fin() {
        Mnemonic::Fin
    } else if mn == kw_pop() {
        Mnemonic::Pop
    } else if mn == kw_dup() {
        Mnemonic::Dup
    } else if mn == kw_out() {
        Mnemonic::Out
    } else if mn == kw_add() {
        Mnemonic::Add
    } else if mn == kw_sub() {
        Mnemonic::Sub
    } else if mn == kw_mul() {
        Mnemonic::Mul
    } else if mn == kw_div() {
        Mnemonic::Div
    } else if mn == kw_mod() {
        Mnemonic::Mod
    } else if mn == kw_push_u8() {
        Mnemonic::PushU8
    } else if mn == kw_goto() {
        Mnemonic::Goto
    } else if mn == kw_ifeq() {
        Mnemonic::Ifeq
    } else if mn == kw_ifne() {
        Mnemonic::Ifne
    } else if mn == kw_iflt() {
        Mnemonic::Iflt
    } else if mn == kw_ifle() {
        Mnemonic::Ifle
    } else if mn == kw_ifgt() {
        Mnemonic::Ifgt
    } else if mn == kw_ifge() {
        Mnemonic::Ifge
    } else if mn == kw_load() {
        Mnemonic::Load
    } else if mn == kw_store() {
        Mnemonic::Store
    } else if mn == kw_ret() {
        Mnemonic::Ret
    } else if mn == kw_call() {
        Mnemonic::Call
    } else {
        Mnemonic::Other
    }
}

// ---------------------------------------------------------------------
// line shapes

/// The end of the maximal run of word bytes starting at `i`.
pub open spec fn word_end(l: Seq<u8>, i: int) -> int
    decreases l.len() - i,
{
    if 0 <= i < l.len() && crate::text::is_word_b(l[i]) {
        word_end(l, i + 1)
    } else {
        i
    }
}

/// A variable declaration line: `var` followed by a name list.
pub open spec fn is_var_line(l: Seq<u8>) -> bool {
    l.len() > 4 && l.take(4) == kw_var_sp()
}

/// Where the opening parenthesis of a function header stands: right
/// after the name, or after one space.
pub open spec fn fun_paren_at(l: Seq<u8>) -> int {
    let w = word_end(l, 0);
    if w < l.len() && l[w] == 0x20 {
        w + 1
    } else {
        w
    }
}

/// A function header line: `name(param, ...):`.
pub open spec fn is_fun_line(l: Seq<u8>) -> bool {
    let w = word_end(l, 0);
    let p = fun_paren_at(l);
    &&& is_valid_name(l.take(w))
    &&& p < l.len() && l[p] == 0x28
    &&& l.len() >= p + 3
    &&& l[l.len() - 2] == 0x29
    &&& l[l.len() - 1] == 0x3a
}

/// A label definition line: `name:`.
pub open spec fn is_label_line(l: Seq<u8>) -> bool {
    l.len() >= 2 && l[l.len() - 1] == 0x3a && is_valid_name(l.take(l.len() - 1))
}

/// An instruction line: a word of at most 32 bytes, optionally
/// followed by one space and a non-empty argument.
pub open spec fn is_instr_line(l: Seq<u8>) -> bool {
    let w = word_end(l, 0);
    1 <= w <= 32 && (w == l.len() || (l[w] == 0x20 && w + 1 < l.len()))
}

/// The argument of an instruction line, if any.
pub open spec fn instr_arg(l: Seq<u8>) -> Option<Seq<u8>> {
    let w = word_end(l, 0);
    if w == l.len() {
        None
    } else {
        Some(l.skip(w + 1))
    }
}

// ---------------------------------------------------------------------
// pass 1: one line at a time

/// The instruction emitted at the current position and line.
pub open spec fn instr_of(st: StV, opcode: u8, oparg: Seq<u8>, tok: Option<Seq<u8>>) -> InstrV {
    InstrV { line: st.line, opcode, oparg, pos: st.pos, tok }
}

/// The implicit, unnamed top-level block that holds instructions and
/// labels standing before the first function header.
pub open spec fn implicit_fun(st: StV) -> FunV {
    FunV {
        name: Seq::empty(),
        line: st.line,
        pos: st.pos,
        vars: Seq::empty(),
        params: 0,
        instrs: Seq::empty(),
        labels: Seq::empty(),
    }
}

/// Appends an instruction to the current block — opening the implicit
/// top-level block if none exists — advancing the bytecode position
/// by the instruction's size.
pub open spec fn push_instr_s(st: StV, i: InstrV) -> Result<StV, AsmErrV> {
    let funs1 = if st.funs.len() == 0 {
        st.funs.push(implicit_fun(st))
    } else {
        st.funs
    };
    let lf = funs1[funs1.len() - 1];
    Ok(
        StV {
            funs: funs1.update(funs1.len() - 1, FunV { instrs: lf.instrs.push(i), ..lf }),
            pos: st.pos + 1 + i.oparg.len(),
            ..st
        },
    )
}

/// An instruction that takes no argument.
pub open spec fn a0_s(st: StV, opcode: u8, arg: Option<Seq<u8>>) -> Result<StV, AsmErrV> {
    if arg is Some {
        Err(AsmErrV::UnexpectedArgument)
    } else {
        push_instr_s(st, instr_of(st, opcode, Seq::empty(), None))
    }
}

/// The `push_u8` instruction: a one-byte immediate.
pub open spec fn push_u8_s(st: StV, arg: Option<Seq<u8>>) -> Result<StV, AsmErrV> {
    match arg {
        None => Err(AsmErrV::MissingArgument),
        Some(a) => match parse_u8_s(a) {
            None => Err(AsmErrV::InvalidArgument),
            Some(v) => push_instr_s(st, instr_of(st, op::PUSH_U8, seq![v], None)),
        },
    }
}

/// A control-transfer instruction: two placeholder bytes and the
/// label name kept for the second pass.
pub open spec fn label_op_s(st: StV, opcode: u8, arg: Option<Seq<u8>>) -> Result<StV, AsmErrV> {
    match arg {
        None => Err(AsmErrV::MissingArgument),
        Some(a) => if !is_valid_name(a) {
            Err(AsmErrV::InvalidLabel(a))
        } else {
            push_instr_s(st, instr_of(st, opcode, seq![0u8, 0u8], Some(a)))
        },
    }
}

/// A global-variable instruction (`load`/`store`): the index of the
/// name, assigned on first use, emitted as a one-byte operand.
pub open spec fn var_op_s(st: StV, opcode: u8, arg: Option<Seq<u8>>) -> Result<StV, AsmErrV> {
    match arg {
        None => Err(AsmErrV::MissingArgument),
        Some(a) => if !is_valid_name(a) {
            Err(AsmErrV::InvalidVariable)
        } else {
            match first_match(st.gvars, a) {
                Some(i) => push_instr_s(st, instr_of(st, opcode, seq![i as u8], None)),
                None => if st.gvars.len() >= 255 {
                    Err(AsmErrV::TooManyVariables)
                } else {
                    let st2 = StV { gvars: st.gvars.push(a), ..st };
                    push_instr_s(
                        st2,
                        instr_of(st2, opcode, seq![st.gvars.len() as u8], None),
                    )
                },
            }
        },
    }
}

/// Handles a single instruction of opcode and optional oparg parsed
/// from the line.
pub open spec fn parse_instruction_s(st: StV, mn: Seq<u8>, arg: Option<Seq<u8>>) -> Result<
    StV,
    AsmErrV,
> {
    match mnemonic_of(mn) {
        Mnemonic::Nop => a0_s(st, op::NOP, arg),
        Mnemonic::Fin => a0_s(st, op::FIN, arg),
        Mnemonic::Pop => a0_s(st, op::POP, arg),
        Mnemonic::Dup => a0_s(st, op::DUP, arg),
        Mnemonic::Out => a0_s(st, op::OUT, arg),
        Mnemonic::Add => a0_s(st, op::ADD, arg),
        Mnemonic::Sub => a0_s(st, op::SUB, arg),
        Mnemonic::Mul => a0_s(st, op::MUL, arg),
        Mnemonic::Div => a0_s(st, op::DIV, arg),
        Mnemonic::Mod => a0_s(st, op::MOD, arg),
        Mnemonic::PushU8 => push_u8_s(st, arg),
        Mnemonic::Goto => label_op_s(st, op::GOTO, arg),
        Mnemonic::Ifeq => label_op_s(st, op::IFEQ, arg),
        Mnemonic::Ifne => label_op_s(st, op::IFNE, arg),
        Mnemonic::Iflt => label_op_s(st, op::IFLT, arg),
        Mnemonic::Ifle => label_op_s(st, op::IFLE, arg),
        Mnemonic::Ifgt => label_op_s(st, op::IFGT, arg),
        Mnemonic::Ifge => label_op_s(st, op::IFGE, arg),
        Mnemonic::Load => var_op_s(st, op::LOAD, arg),
        Mnemonic::Store => var_op_s(st, op::STORE, arg),
        Mnemonic::Ret => a0_s(st, op::RET, arg),
        Mnemonic::Call => label_op_s(st, op::CALL, arg),
        Mnemonic::Other => Err(AsmErrV::UnknownInstruction(mn)),
    }
}

/// Appends the comma-separated, trimmed names of a declaration to a
/// scope's variable list: names must be fresh, well-formed, and the
/// list is capped at 255 entries.
pub open spec fn add_var_names(vars: Seq<Seq<u8>>, pieces: Seq<Seq<u8>>) -> Result<
    Seq<Seq<u8>>,
    AsmErrV,
>
    decreases pieces.len(),
{
    if pieces.len() == 0 {
        Ok(vars)
    } else {
        let v = trim_s(pieces[0]);
        if !is_valid_name(v) {
            Err(AsmErrV::InvalidVariableName(v))
        } else if first_match(vars, v) is Some {
            Err(AsmErrV::DuplicateVariable(v))
        } else if vars.len() >= 255 {
            Err(AsmErrV::TooManyVariables)
        } else {
            add_var_names(vars.push(v), pieces.drop_first())
        }
    }
}

/// Handles a function header line.
pub open spec fn parse_fun_s(st: StV, l: Seq<u8>) -> Result<StV, AsmErrV> {
    let w = word_end(l, 0);
    let name = l.take(w);
    let p = fun_paren_at(l);
    let inner = l.subrange(p + 1, l.len() - 2);
    if fun_pos_find(st.funs, name) is Some {
        Err(AsmErrV::DuplicateFunction(name))
    } else {
        let params = if inner.len() == 0 {
            Ok(Seq::<Seq<u8>>::empty())
        } else {
            add_var_names(Seq::empty(), split_on(inner, 0x2c))
        };
        match params {
            Err(e) => Err(e),
            Ok(vs) => Ok(
                StV {
                    funs: st.funs.push(
                        FunV {
                            name,
                            line: st.line,
                            pos: st.pos,
                            vars: vs,
                            params: vs.len() as int,
                            instrs: Seq::empty(),
                            labels: Seq::empty(),
                        },
                    ),
                    ..st
                },
            ),
        }
    }
}

/// Handles a label definition line; a label before the first function
/// header opens the implicit top-level block.
pub open spec fn parse_label_s(st: StV, name: Seq<u8>) -> Result<StV, AsmErrV> {
    if st.funs.len() == 0 {
        Ok(
            StV {
                funs: st.funs.push(
                    FunV { labels: seq![(name, st.pos)], ..implicit_fun(st) },
                ),
                ..st
            },
        )
    } else {
        let lf = st.funs[st.funs.len() - 1];
        if assoc_find(lf.labels, name) is Some {
            Err(AsmErrV::DuplicateLabel(name))
        } else {
            Ok(
                StV {
                    funs: st.funs.update(
                        st.funs.len() - 1,
                        FunV { labels: lf.labels.push((name, st.pos)), ..lf },
                    ),
                    ..st
                },
            )
        }
    }
}

/// Handles a single cleaned line from an assembly program: empty
/// lines are skipped; otherwise the line is a variable declaration, a
/// function header, a label definition, or an instruction, recognized
/// in that order.
pub open spec fn parse_line_s(st: StV, l: Seq<u8>) -> Result<StV, AsmErrV> {
    if l.len() == 0 {
        Ok(st)
    } else if is_var_line(l) {
        let pieces = split_on(l.skip(4), 0x2c);
        if st.funs.len() > 0 {
            let lf = st.funs[st.funs.len() - 1];
            match add_var_names(lf.vars, pieces) {
                Err(e) => Err(e),
                Ok(vs) => Ok(
                    StV {
                        funs: st.funs.update(st.funs.len() - 1, FunV { vars: vs, ..lf }),
                        ..st
                    },
                ),
            }
        } else {
            match add_var_names(st.gvars, pieces) {
                Err(e) => Err(e),
                Ok(vs) => Ok(StV { gvars: vs, ..st }),
            }
        }
    } else if is_fun_line(l) {
        parse_fun_s(st, l)
    } else if is_label_line(l) {
        parse_label_s(st, l.take(l.len() - 1))
    } else if is_instr_line(l) {
        parse_instruction_s(st, l.take(word_end(l, 0)), instr_arg(l))
    } else {
        Err(AsmErrV::InvalidLine)
    }
}

/// The clean start state of pass 1.
pub open spec fn init_st() -> StV {
    StV { funs: Seq::empty(), gvars: Seq::empty(), pos: 0, line: 0 }
}

/// Folds pass 1 over the lines from index `k` on; an error carries
/// the 1-based number of the line it occurred on.
pub open spec fn parse_lines_s(st: StV, lines: Seq<Seq<u8>>, k: int) -> Result<
    StV,
    (AsmErrV, int),
>
    decreases lines.len() - k,
{
    if k < 0 || k >= lines.len() {
        Ok(st)
    } else {
        let st1 = StV { line: k + 1, ..st };
        match parse_line_s(st1, clean_line_s(lines[k])) {
            Ok(st2) => parse_lines_s(st2, lines, k + 1),
            Err(e) => Err((e, k + 1)),
        }
    }
}

/// Pass 1 over a whole source text, split at line feeds.
pub open spec fn pass1_s(content: Seq<u8>) -> Result<StV, (AsmErrV, int)> {
    parse_lines_s(init_st(), split_on(content, 0x0a), 0)
}

// ---------------------------------------------------------------------
// pass 2: reference resolution

/// The big-endian two's-complement encoding of a 16-bit displacement.
pub open spec fn encode_i16(d: int) -> Seq<u8> {
    let v = if d < 0 {
        d + 65536
    } else {
        d
    };
    seq![(v / 256) as u8, (v % 256) as u8]
}

/// Resolves one instruction: a symbolic target is looked up — in the
/// function table for `call`, in the enclosing function's label table
/// for branches — and replaced by the displacement from the address
/// after the instruction, which must fit a signed 16-bit value.
pub open spec fn resolve_instr_s(funs: Seq<FunV>, f: FunV, i: InstrV) -> Result<InstrV, AsmErrV> {
    match i.tok {
        None => Ok(i),
        Some(t) => {
            let dest = if i.opcode == op::CALL {
                fun_pos_find(funs, t)
            } else {
                assoc_find(f.labels, t)
            };
            match dest {
                None => Err(AsmErrV::UnknownLabel(t)),
                Some(d) => {
                    let src = i.pos + 1 + i.oparg.len();
                    if (if d >= src {
                        d - src
                    } else {
                        src - d
                    }) > 32767 {
                        Err(AsmErrV::JumpTooLong)
                    } else {
                        Ok(InstrV { oparg: encode_i16(d - src), ..i })
                    }
                },
            }
        },
    }
}

/// Resolves the instructions of one function from index `k` on; an
/// error carries the source line of the failing instruction.
pub open spec fn resolve_fun_s(funs: Seq<FunV>, f: FunV, k: int) -> Result<
    Seq<InstrV>,
    (AsmErrV, int),
>
    decreases f.instrs.len() - k,
{
    if k < 0 || k >= f.instrs.len() {
        Ok(Seq::empty())
    } else {
        match resolve_instr_s(funs, f, f.instrs[k]) {
            Err(e) => Err((e, f.instrs[k].line)),
            Ok(i2) => match resolve_fun_s(funs, f, k + 1) {
                Ok(rest) => Ok(seq![i2] + rest),
                Err(e) => Err(e),
            },
        }
    }
}

/// Resolves all functions from index `k` on, concatenating their
/// instructions in declaration order.
pub open spec fn resolve_all_s(funs: Seq<FunV>, k: int) -> Result<Seq<InstrV>, (AsmErrV, int)>
    decreases funs.len() - k,
{
    if k < 0 || k >= funs.len() {
        Ok(Seq::empty())
    } else {
        match resolve_fun_s(funs, funs[k], 0) {
            Err(e) => Err(e),
            Ok(v) => match resolve_all_s(funs, k + 1) {
                Ok(rest) => Ok(v + rest),
                Err(e) => Err(e),
            },
        }
    }
}

// ---------------------------------------------------------------------
// finalization

/// The byte buffer of a resolved instruction sequence: each opcode
/// followed by its operand bytes, in emission order.
pub open spec fn emit_s(instrs: Seq<InstrV>, k: int) -> Seq<u8>
    decreases instrs.len() - k,
{
    if k < 0 || k >= instrs.len() {
        Seq::empty()
    } else {
        seq![instrs[k].opcode] + instrs[k].oparg + emit_s(instrs, k + 1)
    }
}

/// The export table from index `k` on: each named function's name and
/// absolute byte offset; the implicit top-level block is not callable
/// by name and is skipped.
pub open spec fn exports_s(funs: Seq<FunV>, k: int) -> Seq<(Seq<u8>, int)>
    decreases funs.len() - k,
{
    if k < 0 || k >= funs.len() {
        Seq::empty()
    } else if funs[k].name.len() > 0 {
        seq![(funs[k].name, funs[k].pos)] + exports_s(funs, k + 1)
    } else {
        exports_s(funs, k + 1)
    }
}

/// The abstract value of an assembled program.
pub struct PgmV {
    pub text: Seq<u8>,
    pub vars: int,
    pub exports: Seq<(Seq<u8>, int)>,
}

/// The whole assembler: pass 1, pass 2, emission. The result is the
/// program's byte buffer, global count and export table, or the first
/// error with its source line.
pub open spec fn assemble_s(content: Seq<u8>) -> Result<PgmV, (AsmErrV, int)> {
    match pass1_s(content) {
        Err(e) => Err(e),
        Ok(st) => match resolve_all_s(st.funs, 0) {
            Err(e) => Err(e),
            Ok(instrs) => Ok(
                PgmV {
                    text: emit_s(instrs, 0),
                    vars: st.gvars.len() as int,
                    exports: exports_s(st.funs, 0),
                },
            ),
        },
    }
}

proof fn lemma_fun_pos_find_skip(funs: Seq<FunV>, n: Seq<u8>, k: int)
    requires
        0 <= k <= funs.len(),
        forall|j: int| 0 <= j < k ==> funs[j].name != n,
    ensures
        fun_pos_find(funs, n) == fun_pos_find(funs.skip(k), n),
    decreases k,
{
    if k == 0 {
        assert(funs.skip(0) =~= funs);
    } else {
        assert(funs.len() > 0);
        assert(funs[0].name != n);
        assert(funs.drop_first() =~= funs.skip(1));
        lemma_fun_pos_find_skip(funs.skip(1), n, k - 1);
        assert(funs.skip(1).skip(k - 1) =~= funs.skip(k));
        assert(forall|j: int| 0 <= j < k - 1 ==> funs.skip(1)[j].name != n);
    }
}

// ---------------------------------------------------------------------
// executable pass 1

/// Classifies a word as a mnemonic by its bytes.
fn mnemonic_of_bytes(t: &Vec<u8>) -> (m: Mnemonic)
    ensures
        m == mnemonic_of(t@),
{
    if t.len() == 3 && t[0] == 0x6e && t[1] == 0x6f && t[2] == 0x70 {
        proof {
            assert(t@ =~= kw_nop());
        }
        Mnemonic::Nop
    } else if t.len() == 3 && t[0] == 0x66 && t[1] == 0x69 && t[2] == 0x6e {
        proof {
            assert(t@ =~= kw_fin());
        }
        Mnemonic::Fin
    } else if t.len() == 3 && t[0] == 0x70 && t[1] == 0x6f && t[2] == 0x70 {
        proof {
            assert(t@ =~= kw_pop());
        }
        Mnemonic::Pop
    } else if t.len() == 3 && t[0] == 0x64 && t[1] == 0x75 && t[2] == 0x70 {
        proof {
            assert(t@ =~= kw_dup());
        }
        Mnemonic::Dup
    } else if t.len() == 3 && t[0] == 0x6f && t[1] == 0x75 && t[2] == 0x74 {
        proof {
            assert(t@ =~= kw_out());
        }
        Mnemonic::Out
    } else if t.len() == 3 && t[0] == 0x61 && t[1] == 0x64 && t[2] == 0x64 {
        proof {
            assert(t@ =~= kw_add());
        }
        Mnemonic::Add
    } else if t.len() == 3 && t[0] == 0x73 && t[1] == 0x75 && t[2] == 0x62 {
        proof {
            assert(t@ =~= kw_sub());
        }
        Mnemonic::Sub
    } else if t.len() == 3 && t[0] == 0x6d && t[1] == 0x75 && t[2] == 0x6c {
        proof {
            assert(t@ =~= kw_mul());
        }
        Mnemonic::Mul
    } else if t.len() == 3 && t[0] == 0x64 && t[1] == 0x69 && t[2] == 0x76 {
        proof {
            assert(t@ =~= kw_div());
        }
        Mnemonic::Div
    } else if t.len() == 3 && t[0] == 0x6d && t[1] == 0x6f && t[2] == 0x64 {
        proof {
            assert(t@ =~= kw_mod());
        }
        Mnemonic::Mod
    } else if t.len() == 7 && t[0] == 0x70 && t[1] == 0x75 && t[2] == 0x73 && t[3] == 0x68 && t[4]
        == 0x5f && t[5] == 0x75 && t[6] == 0x38 {
        proof {
            assert(t@ =~= kw_push_u8());
        }
        Mnemonic::PushU8
    } else if t.len() == 4 && t[0] == 0x67 && t[1] == 0x6f && t[2] == 0x74 && t[3] == 0x6f {
        proof {
            assert(t@ =~= kw_goto());
        }
        Mnemonic::Goto
    } else if t.len() == 4 && t[0] == 0x69 && t[1] == 0x66 && t[2] == 0x65 && t[3] == 0x71 {
        proof {
            assert(t@ =~= kw_ifeq());
        }
        Mnemonic::Ifeq
    } else if t.len() == 4 && t[0] == 0x69 && t[1] == 0x66 && t[2] == 0x6e && t[3] == 0x65 {
        proof {
            assert(t@ =~= kw_ifne());
        }
        Mnemonic::Ifne
    } else if t.len() == 4 && t[0] == 0x69 && t[1] == 0x66 && t[2] == 0x6c && t[3] == 0x74 {
        proof {
            assert(t@ =~= kw_iflt());
        }
        Mnemonic::Iflt
    } else if t.len() == 4 && t[0] == 0x69 && t[1] == 0x66 && t[2] == 0x6c && t[3] == 0x65 {
        proof {
            assert(t@ =~= kw_ifle());
        }
        Mnemonic::Ifle
    } else if t.len() == 4 && t[0] == 0x69 && t[1] == 0x66 && t[2] == 0x67 && t[3] == 0x74 {
        proof {
            assert(t@ =~= kw_ifgt());
        }
        Mnemonic::Ifgt
    } else if t.len() == 4 && t[0] == 0x69 && t[1] == 0x66 && t[2] == 0x67 && t[3] == 0x65 {
        proof {
            assert(t@ =~= kw_ifge());
        }
        Mnemonic::Ifge
    } else if t.len() == 4 && t[0] == 0x6c && t[1] == 0x6f && t[2] == 0x61 && t[3] == 0x64 {
        proof {
            assert(t@ =~= kw_load());
        }
        Mnemonic::Load
    } else if t.len() == 5 && t[0] == 0x73 && t[1] == 0x74 && t[2] == 0x6f && t[3] == 0x72 && t[4]
        == 0x65 {
        proof {
            assert(t@ =~= kw_store());
        }
        Mnemonic::Store
    } else if t.len() == 3 && t[0] == 0x72 && t[1] == 0x65 && t[2] == 0x74 {
        proof {
            assert(t@ =~= kw_ret());
        }
        Mnemonic::Ret
    } else if t.len() == 4 && t[0] == 0x63 && t[1] == 0x61 && t[2] == 0x6c && t[3] == 0x6c {
        proof {
            assert(t@ =~= kw_call());
        }
        Mnemonic::Call
    } else {
        Mnemonic::Other
    }
}

/// The end of the maximal run of word bytes from `from` on.
fn find_word_end(line: &Vec<u8>, from: usize) -> (w: usize)
    requires
        from <= line@.len(),
    ensures
        w == word_end(line@, from as int),
        from <= w <= line@.len(),
{
    let mut i: usize = from;
    while i < line.len() && byte_is_word(line[i])
        invariant
            from <= i <= line@.len(),
            word_end(line@, from as int) == word_end(line@, i as int),
        decreases line@.len() - i,
    {
        i = i + 1;
    }
    i
}

/// Appends comma-separated, trimmed names to a scope's variable list.
fn add_var_list(vars: &mut Vec<Vec<u8>>, pieces: &Vec<Vec<u8>>) -> (r: Result<(), AsmError>)
    requires
        old(vars)@.len() <= 255,
    ensures
        match r {
            Ok(()) => add_var_names(old(vars).deep_view(), pieces.deep_view()) == Ok::<
                Seq<Seq<u8>>,
                AsmErrV,
            >(final(vars).deep_view()) && final(vars)@.len() <= 255,
            Err(e) => add_var_names(old(vars).deep_view(), pieces.deep_view()) == Err::<
                Seq<Seq<u8>>,
                AsmErrV,
            >(e@),
        },
{
    let ghost pv = pieces.deep_view();
    let mut j: usize = 0;
    proof {
        assert(pv.skip(0) =~= pv);
    }
    while j < pieces.len()
        invariant
            0 <= j <= pieces@.len(),
            pv == pieces.deep_view(),
            pv.len() == pieces@.len(),
            vars@.len() <= 255,
            add_var_names(old(vars).deep_view(), pv) == add_var_names(
                vars.deep_view(),
                pv.skip(j as int),
            ),
        decreases pieces@.len() - j,
    {
        proof {
            assert(pv[j as int] == pieces@[j as int].deep_view());
            assert(pv[j as int] =~= pieces@[j as int]@);
            assert(pv.skip(j as int)[0] == pv[j as int]);
            assert(pv.skip(j as int).drop_first() =~= pv.skip(j as int + 1));
        }
        let trimmed = trim_bytes(&pieces[j]);
        if !check_name(&trimmed) {
            return Err(AsmError::InvalidVariableName(trimmed));
        }
        match find_name(vars, &trimmed) {
            Some(_) => {
                return Err(AsmError::DuplicateVariable(trimmed));
            },
            None => {},
        }
        if vars.len() >= 255 {
            return Err(AsmError::TooManyVariables);
        }
        let ghost dv0 = vars.deep_view();
        vars.push(trimmed);
        proof {
            assert(vars.deep_view() =~~= dv0.push(trim_s(pieces@[j as int]@)));
        }
        j = j + 1;
    }
    proof {
        assert(pv.skip(pv.len() as int) =~= Seq::<Seq<u8>>::empty());
    }
    Ok(())
}

impl AsmPgm {
    /// Adds a single instruction to the end of the program.
    fn push_instruction(&mut self, i: AsmInstruction) -> (r: Result<(), AsmError>)
        requires
            old(self)@.pos + 1 + i@.oparg.len() <= usize::MAX,
            i@.pos == old(self)@.pos,
        ensures
            match r {
                Ok(()) => push_instr_s(old(self)@, i@) == Ok::<StV, AsmErrV>(final(self)@)
                    && (st_wf(old(self)@) ==> st_wf(final(self)@)) && final(self).name == old(self).name && final(self).error == old(self).error,
                Err(e) => push_instr_s(old(self)@, i@) == Err::<StV, AsmErrV>(e@) && final(self)@
                    == old(self)@ && final(self).name == old(self).name && final(self).error
                    == old(self).error,
            },
    {
        let size = i.size();
        let ghost st0 = self@;
        let ghost iv = i@;
        if self.functions.len() == 0 {
            let nf = AsmFunction {
                name: Vec::new(),
                line_number: self.line_number,
                text_pos: self.text_pos,
                vars: Vec::new(),
                parameters: 0,
                instructions: Vec::new(),
                labels: Vec::new(),
            };
            proof {
                assert(nf@.name =~= Seq::<u8>::empty());
                assert(nf@.vars =~~= Seq::<Seq<u8>>::empty());
                assert(nf@.instrs =~= Seq::<InstrV>::empty());
                assert(nf@.labels =~= Seq::<(Seq<u8>, int)>::empty());
                assert(nf@ == implicit_fun(st0));
            }
            self.functions.push(nf);
            proof {
                assert(self@.funs =~= st0.funs.push(implicit_fun(st0)));
            }
        }
        let ghost funs1 = self@.funs;
        proof {
            assert(funs1 == (if st0.funs.len() == 0 {
                st0.funs.push(implicit_fun(st0))
            } else {
                st0.funs
            }));
        }
        let mut fun = self.functions.pop().unwrap();
        let ghost lf = fun@;
        fun.instructions.push(i);
        proof {
            assert(fun@.instrs =~= lf.instrs.push(iv));
            assert(fun@ == FunV { instrs: lf.instrs.push(iv), ..lf });
        }
        self.functions.push(fun);
        self.text_pos = self.text_pos + size;
        proof {
            assert(lf == funs1[funs1.len() - 1]);
            assert(self@.funs =~= funs1.update(
                funs1.len() - 1,
                FunV { instrs: lf.instrs.push(iv), ..lf },
            ));
            assert(self@.gvars =~~= st0.gvars);
            assert(self@ == (StV {
                funs: funs1.update(
                    funs1.len() - 1,
                    FunV { instrs: lf.instrs.push(iv), ..lf },
                ),
                pos: st0.pos + 1 + iv.oparg.len(),
                ..st0
            }));
            if st_wf(st0) {
                assert(forall|j: int|
                    0 <= j < funs1.len() ==> (#[trigger] funs1[j]).vars.len() <= 255);
                assert(forall|j: int|
                    0 <= j < self@.funs.len() ==> (#[trigger] self@.funs[j]).vars.len() <= 255);
                assert forall|a: int, j: int|
                    0 <= a < self@.funs.len() && 0 <= j < self@.funs[a].instrs.len() implies (
                #[trigger] self@.funs[a].instrs[j]).pos + 1 + self@.funs[a].instrs[j].oparg.len()
                    <= self@.pos by {
                    if a == funs1.len() - 1 {
                        if j < lf.instrs.len() {
                            assert(self@.funs[a].instrs[j] == funs1[a].instrs[j]);
                            if st0.funs.len() > 0 {
                                assert(funs1[a].instrs[j] == st0.funs[a].instrs[j]);
                                assert(st0.funs[a].instrs[j].pos + 1
                                    + st0.funs[a].instrs[j].oparg.len() <= st0.pos);
                            } else {
                                assert(funs1[a] == implicit_fun(st0));
                            }
                        } else {
                            assert(self@.funs[a].instrs[j] == iv);
                        }
                    } else {
                        assert(self@.funs[a] == funs1[a]);
                        assert(funs1[a] == st0.funs[a]);
                        assert(st0.funs[a].instrs[j].pos + 1 + st0.funs[a].instrs[j].oparg.len()
                            <= st0.pos);
                    }
                }
            }
        }
        Ok(())
    }

    /// Helper that creates an instruction with 0 bytes of oparg and
    /// pushes it.
    fn push_a0_instruction(&mut self, opcode: u8) -> (r: Result<(), AsmError>)
        requires
            old(self)@.pos + 1 <= usize::MAX,
        ensures
            match r {
                Ok(()) => push_instr_s(
                    old(self)@,
                    instr_of(old(self)@, opcode, Seq::empty(), None),
                ) == Ok::<StV, AsmErrV>(final(self)@) && (st_wf(old(self)@) ==> st_wf(
                    final(self)@,
                )) && final(self).name == old(self).name && final(self).error == old(self).error,
                Err(e) => push_instr_s(
                    old(self)@,
                    instr_of(old(self)@, opcode, Seq::empty(), None),
                ) == Err::<StV, AsmErrV>(e@) && final(self)@ == old(self)@ && final(self).name
                    == old(self).name && final(self).error == old(self).error,
            },
    {
        let i = AsmInstruction {
            line_number: self.line_number,
            opcode,
            oparg: Vec::new(),
            pos: self.text_pos,
            argument_token: None,
        };
        proof {
            assert(i@.oparg =~= Seq::<u8>::empty());
            assert(i@ == instr_of(self@, opcode, Seq::empty(), None));
        }
        self.push_instruction(i)
    }

    /// Helper that parses an instruction with no oparg and pushes it.
    fn parse_a0_instruction(&mut self, opcode: u8, oparg: Option<Vec<u8>>) -> (r: Result<
        (),
        AsmError,
    >)
        requires
            old(self)@.pos + 1 <= usize::MAX,
        ensures
            match r {
                Ok(()) => a0_s(old(self)@, opcode, oparg.deep_view()) == Ok::<StV, AsmErrV>(
                    final(self)@,
                ) && (st_wf(old(self)@) ==> st_wf(final(self)@)) && final(self).name == old(self).name && final(self).error == old(self).error,
                Err(e) => a0_s(old(self)@, opcode, oparg.deep_view()) == Err::<StV, AsmErrV>(e@)
                    && final(self)@ == old(self)@ && final(self).name == old(self).name && final(self).error == old(self).error,
            },
    {
        if oparg.is_some() {
            Err(AsmError::UnexpectedArgument)
        } else {
            self.push_a0_instruction(opcode)
        }
    }

    /// Helper that creates an instruction with 1 byte of oparg and
    /// pushes it.
    fn push_a1_instruction(&mut self, opcode: u8, a0: u8) -> (r: Result<(), AsmError>)
        requires
            old(self)@.pos + 2 <= usize::MAX,
        ensures
            match r {
                Ok(()) => push_instr_s(old(self)@, instr_of(old(self)@, opcode, seq![a0], None))
                    == Ok::<StV, AsmErrV>(final(self)@) && (st_wf(old(self)@) ==> st_wf(
                    final(self)@,
                )) && final(self).name == old(self).name && final(self).error == old(self).error,
                Err(e) => push_instr_s(old(self)@, instr_of(old(self)@, opcode, seq![a0], None))
                    == Err::<StV, AsmErrV>(e@) && final(self)@ == old(self)@ && final(self).name
                    == old(self).name && final(self).error == old(self).error,
            },
    {
        let mut oparg: Vec<u8> = Vec::new();
        oparg.push(a0);
        let i = AsmInstruction {
            line_number: self.line_number,
            opcode,
            oparg,
            pos: self.text_pos,
            argument_token: None,
        };
        proof {
            assert(i@.oparg =~= seq![a0]);
            assert(i@ == instr_of(self@, opcode, seq![a0], None));
        }
        self.push_instruction(i)
    }

    /// Helper that pushes an instruction with two placeholder oparg
    /// bytes and a symbolic label, resolved in the second pass.
    fn push_label_instruction(&mut self, opcode: u8, label: Vec<u8>) -> (r: Result<(), AsmError>)
        requires
            old(self)@.pos + 3 <= usize::MAX,
        ensures
            match r {
                Ok(()) => push_instr_s(
                    old(self)@,
                    instr_of(old(self)@, opcode, seq![0u8, 0u8], Some(label@)),
                ) == Ok::<StV, AsmErrV>(final(self)@) && (st_wf(old(self)@) ==> st_wf(
                    final(self)@,
                )) && final(self).name == old(self).name && final(self).error == old(self).error,
                Err(e) => push_instr_s(
                    old(self)@,
                    instr_of(old(self)@, opcode, seq![0u8, 0u8], Some(label@)),
                ) == Err::<StV, AsmErrV>(e@) && final(self)@ == old(self)@ && final(self).name
                    == old(self).name && final(self).error == old(self).error,
            },
    {
        let mut oparg: Vec<u8> = Vec::new();
        oparg.push(0);
        oparg.push(0);
        let ghost lv = label@;
        let i = AsmInstruction {
            line_number: self.line_number,
            opcode,
            oparg,
            pos: self.text_pos,
            argument_token: Some(label),
        };
        proof {
            assert(i@.oparg =~= seq![0u8, 0u8]);
            assert(i@ == instr_of(self@, opcode, seq![0u8, 0u8], Some(lv)));
        }
        self.push_instruction(i)
    }

    /// Helper that parses (and pushes) a line with an operation that
    /// takes a label as its argument.
    fn parse_label_instruction(&mut self, opcode: u8, oparg: Option<Vec<u8>>) -> (r: Result<
        (),
        AsmError,
    >)
        requires
            old(self)@.pos + 3 <= usize::MAX,
        ensures
            match r {
                Ok(()) => label_op_s(old(self)@, opcode, oparg.deep_view()) == Ok::<
                    StV,
                    AsmErrV,
                >(final(self)@) && (st_wf(old(self)@) ==> st_wf(final(self)@)) && final(self).name == old(self).name && final(self).error == old(self).error,
                Err(e) => label_op_s(old(self)@, opcode, oparg.deep_view()) == Err::<
                    StV,
                    AsmErrV,
                >(e@) && final(self)@ == old(self)@ && final(self).name == old(self).name
                    && final(self).error == old(self).error,
            },
    {
        match oparg {
            None => Err(AsmError::MissingArgument),
            Some(label) => {
                proof {
                    assert(label.deep_view() =~= label@);
                }
                if check_name(&label) {
                    self.push_label_instruction(opcode, label)
                } else {
                    Err(AsmError::InvalidLabel(label))
                }
            },
        }
    }

    /// Returns the index of a global variable by name, creating a new
    /// index for a previously unseen name. Emits
    /// `AsmError::TooManyVariables` once the index range of a byte is
    /// exhausted.
    fn get_variable_index(&mut self, name: &Vec<u8>) -> (r: Result<u8, AsmError>)
        requires
            old(self)@.gvars.len() <= 255,
        ensures
            match r {
                Ok(ix) => match first_match(old(self)@.gvars, name@) {
                    Some(i) => ix == i && final(self)@ == old(self)@,
                    None => old(self)@.gvars.len() < 255 && ix == old(self)@.gvars.len()
                        && final(self)@ == (StV {
                        gvars: old(self)@.gvars.push(name@),
                        ..old(self)@
                    }),
                },
                Err(e) => e@ == AsmErrV::TooManyVariables && first_match(
                    old(self)@.gvars,
                    name@,
                ) is None && old(self)@.gvars.len() >= 255 && final(self)@ == old(self)@,
            },
            st_wf(old(self)@) ==> st_wf(final(self)@),
            final(self).name == old(self).name,
            final(self).error == old(self).error,
    {
        match find_name(&self.vars, name) {
            Some(ix) => {
                proof {
                    assert(self@.gvars.len() == self.vars@.len());
                }
                Ok(ix as u8)
            },
            None => {
                if self.vars.len() >= 255 {
                    Err(AsmError::TooManyVariables)
                } else {
                    let ix = self.vars.len();
                    let owned = copy_range(name, 0, name.len());
                    proof {
                        assert(owned@ =~= name@);
                    }
                    let ghost dv0 = self.vars.deep_view();
                    self.vars.push(owned);
                    proof {
                        assert(owned.deep_view() =~= name@);
                        assert(self.vars.deep_view() =~~= dv0.push(name@));
                        assert(self@ == (StV { gvars: dv0.push(name@), ..old(self)@ }));
                    }
                    Ok(ix as u8)
                }
            },
        }
    }

    /// Handles a single instruction of opcode and optional oparg
    /// parsed from an assembly line.
    fn parse_instruction(&mut self, opname: &Vec<u8>, oparg: Option<Vec<u8>>) -> (r: Result<
        (),
        AsmError,
    >)
        requires
            old(self)@.pos + opname@.len() <= usize::MAX,
            st_wf(old(self)@),
        ensures
            match r {
                Ok(()) => parse_instruction_s(old(self)@, opname@, oparg.deep_view()) == Ok::<
                    StV,
                    AsmErrV,
                >(final(self)@) && st_wf(final(self)@) && final(self)@.pos <= old(self)@.pos
                    + opname@.len() && final(self)@.line == old(self)@.line && final(self).name == old(self).name && final(self).error == old(self).error,
                Err(e) => parse_instruction_s(old(self)@, opname@, oparg.deep_view()) == Err::<
                    StV,
                    AsmErrV,
                >(e@) && final(self)@.line == old(self)@.line && final(self).name == old(self).name && final(self).error == old(self).error,
            },
    {
        match mnemonic_of_bytes(opname) {
            Mnemonic::Nop => self.parse_a0_instruction(op::NOP, oparg),
            Mnemonic::Fin => self.parse_a0_instruction(op::FIN, oparg),
            Mnemonic::Pop => self.parse_a0_instruction(op::POP, oparg),
            Mnemonic::Dup => self.parse_a0_instruction(op::DUP, oparg),
            Mnemonic::Out => self.parse_a0_instruction(op::OUT, oparg),
            Mnemonic::Add => self.parse_a0_instruction(op::ADD, oparg),
            Mnemonic::Sub => self.parse_a0_instruction(op::SUB, oparg),
            Mnemonic::Mul => self.parse_a0_instruction(op::MUL, oparg),
            Mnemonic::Div => self.parse_a0_instruction(op::DIV, oparg),
            Mnemonic::Mod => self.parse_a0_instruction(op::MOD, oparg),
            Mnemonic::PushU8 => {
                match oparg {
                    None => Err(AsmError::MissingArgument),
                    Some(a) => {
                        proof {
                            assert(a.deep_view() =~= a@);
                        }
                        match parse_u8_literal(&a) {
                            None => Err(AsmError::InvalidArgument),
                            Some(v) => self.push_a1_instruction(op::PUSH_U8, v),
                        }
                    },
                }
            },
            Mnemonic::Goto => self.parse_label_instruction(op::GOTO, oparg),
            Mnemonic::Ifeq => self.parse_label_instruction(op::IFEQ, oparg),
            Mnemonic::Ifne => self.parse_label_instruction(op::IFNE, oparg),
            Mnemonic::Iflt => self.parse_label_instruction(op::IFLT, oparg),
            Mnemonic::Ifle => self.parse_label_instruction(op::IFLE, oparg),
            Mnemonic::Ifgt => self.parse_label_instruction(op::IFGT, oparg),
            Mnemonic::Ifge => self.parse_label_instruction(op::IFGE, oparg),
            Mnemonic::Load => {
                match oparg {
                    None => Err(AsmError::MissingArgument),
                    Some(a) => {
                        proof {
                            assert(a.deep_view() =~= a@);
                        }
                        if !check_name(&a) {
                            return Err(AsmError::InvalidVariable);
                        }
                        let ix = match self.get_variable_index(&a) {
                            Ok(ix) => ix,
                            Err(e) => {
                                return Err(e);
                            },
                        };
                        self.push_a1_instruction(op::LOAD, ix)
                    },
                }
            },
            Mnemonic::Store => {
                match oparg {
                    None => Err(AsmError::MissingArgument),
                    Some(a) => {
                        proof {
                            assert(a.deep_view() =~= a@);
                        }
                        if !check_name(&a) {
                            return Err(AsmError::InvalidVariable);
                        }
                        let ix = match self.get_variable_index(&a) {
                            Ok(ix) => ix,
                            Err(e) => {
                                return Err(e);
                            },
                        };
                        self.push_a1_instruction(op::STORE, ix)
                    },
                }
            },
            Mnemonic::Ret => self.parse_a0_instruction(op::RET, oparg),
            Mnemonic::Call => self.parse_label_instruction(op::CALL, oparg),
            Mnemonic::Other => {
                let owned = copy_range(opname, 0, opname.len());
                proof {
                    assert(owned@ =~= opname@);
                }
                Err(AsmError::UnknownInstruction(owned))
            },
        }
    }

    /// Handles a single line (already stripped of its comment and
    /// whitespace-normalized) from an assembly program.
    fn parse_line(&mut self, line: &Vec<u8>) -> (r: Result<(), AsmError>)
        requires
            old(self)@.pos + line@.len() <= usize::MAX,
            st_wf(old(self)@),
        ensures
            match r {
                Ok(()) => parse_line_s(old(self)@, line@) == Ok::<StV, AsmErrV>(final(self)@)
                    && st_wf(final(self)@) && final(self)@.pos <= old(self)@.pos + line@.len()
                    && final(self)@.line == old(self)@.line && final(self).name == old(self).name
                    && final(self).error == old(self).error,
                Err(e) => parse_line_s(old(self)@, line@) == Err::<StV, AsmErrV>(e@) && final(self)@.line == old(self)@.line && final(self).name == old(self).name && final(self).error == old(self).error,
            },
    {
        if line.len() == 0 {
            return Ok(());
        }
        // variable declaration?
        if line.len() > 4 && line[0] == 0x76 && line[1] == 0x61 && line[2] == 0x72 && line[3]
            == 0x20 {
            proof {
                assert(line@.take(4) =~= kw_var_sp());
                assert(is_var_line(line@));
            }
            let list = copy_range(line, 4, line.len());
            proof {
                assert(list@ =~= line@.skip(4));
            }
            let pieces = split_bytes(&list, 0x2c);
            if self.functions.len() > 0 {
                let ghost st0 = self@;
                let mut fun = self.functions.pop().unwrap();
                let ghost lf = fun@;
                proof {
                    assert(lf == st0.funs[st0.funs.len() - 1]);
                }
                let r = add_var_list(&mut fun.vars, &pieces);
                match r {
                    Ok(()) => {
                        proof {
                            assert(fun@ == (FunV { vars: fun.vars.deep_view(), ..lf }));
                        }
                        self.functions.push(fun);
                        proof {
                            assert(self@.funs =~= st0.funs.update(
                                st0.funs.len() - 1,
                                FunV { vars: fun@.vars, ..lf },
                            ));
                            assert(self@ == (StV {
                                funs: st0.funs.update(
                                    st0.funs.len() - 1,
                                    FunV { vars: fun@.vars, ..lf },
                                ),
                                ..st0
                            }));
                        }
                        Ok(())
                    },
                    Err(e) => {
                        self.functions.push(fun);
                        Err(e)
                    },
                }
            } else {
                let ghost st0 = self@;
                match add_var_list(&mut self.vars, &pieces) {
                    Ok(()) => {
                        proof {
                            assert(self@ == (StV { gvars: self.vars.deep_view(), ..st0 }));
                        }
                        Ok(())
                    },
                    Err(e) => Err(e),
                }
            }
        } else {
            let w = find_word_end(line, 0);
            let name = copy_range(line, 0, w);
            proof {
                assert(name@ =~= line@.take(w as int));
            }
            let name_valid = check_name(&name);
            let p = if w < line.len() && line[w] == 0x20 {
                w + 1
            } else {
                w
            };
            proof {
                assert(p as int == fun_paren_at(line@));
            }
            if name_valid && p < line.len() && line[p] == 0x28 && line.len() >= 3 && p
                <= line.len() - 3 && line[line.len() - 2] == 0x29 && line[line.len() - 1]
                == 0x3a {
                // function header
                proof {
                    assert(is_fun_line(line@));
                }
                match find_fun_pos(&self.functions, &name) {
                    Some(_) => {
                        return Err(AsmError::DuplicateFunction(name));
                    },
                    None => {},
                }
                let inner = copy_range(line, p + 1, line.len() - 2);
                proof {
                    assert(inner@ =~= line@.subrange(p as int + 1, line@.len() - 2));
                }
                let mut vs: Vec<Vec<u8>> = Vec::new();
                proof {
                    assert(vs.deep_view() =~= Seq::<Seq<u8>>::empty());
                }
                if inner.len() > 0 {
                    let pieces = split_bytes(&inner, 0x2c);
                    match add_var_list(&mut vs, &pieces) {
                        Err(e) => {
                            return Err(e);
                        },
                        Ok(()) => {},
                    }
                }
                let params = vs.len();
                let ghost st0 = self@;
                let fun = AsmFunction {
                    name,
                    line_number: self.line_number,
                    text_pos: self.text_pos,
                    vars: vs,
                    parameters: params,
                    instructions: Vec::new(),
                    labels: Vec::new(),
                };
                proof {
                    assert(fun@.instrs =~= Seq::<InstrV>::empty());
                    assert(fun@.labels =~= Seq::<(Seq<u8>, int)>::empty());
                }
                let ghost fv = fun@;
                self.functions.push(fun);
                proof {
                    assert(self@.funs =~= st0.funs.push(fv));
                    assert(self@ == (StV { funs: st0.funs.push(fv), ..st0 }));
                }
                return Ok(());
            }
            // label definition?
            let is_lab = if line.len() >= 2 && line[line.len() - 1] == 0x3a {
                let cand = copy_range(line, 0, line.len() - 1);
                proof {
                    assert(cand@ =~= line@.take(line@.len() - 1));
                }
                check_name(&cand)
            } else {
                false
            };
            if is_lab {
                proof {
                    assert(is_label_line(line@));
                }
                let lname = copy_range(line, 0, line.len() - 1);
                proof {
                    assert(lname@ =~= line@.take(line@.len() - 1));
                }
                if self.functions.len() == 0 {
                    let ghost st0 = self@;
                    let ghost lv = lname@;
                    let mut lbls: Vec<(Vec<u8>, usize)> = Vec::new();
                    lbls.push((lname, self.text_pos));
                    let nf = AsmFunction {
                        name: Vec::new(),
                        line_number: self.line_number,
                        text_pos: self.text_pos,
                        vars: Vec::new(),
                        parameters: 0,
                        instructions: Vec::new(),
                        labels: lbls,
                    };
                    proof {
                        assert(nf@.name =~= Seq::<u8>::empty());
                        assert(nf@.vars =~~= Seq::<Seq<u8>>::empty());
                        assert(nf@.instrs =~= Seq::<InstrV>::empty());
                        assert(nf@.labels =~= seq![(lv, st0.pos)]);
                        assert(nf@ == (FunV { labels: seq![(lv, st0.pos)], ..implicit_fun(st0) }))
                            by {
                            assert(seq![(lv, st0.pos)] =~= FunV {
                                labels: seq![(lv, st0.pos)],
                                ..implicit_fun(st0)
                            }.labels);
                        }
                    }
                    let ghost fvn = nf@;
                    self.functions.push(nf);
                    proof {
                        assert(self@.funs =~= st0.funs.push(fvn));
                        assert(self@ == (StV { funs: st0.funs.push(fvn), ..st0 }));
                    }
                    return Ok(());
                }
                let ghost st0 = self@;
                let mut fun = self.functions.pop().unwrap();
                let ghost lf = fun@;
                proof {
                    assert(lf == st0.funs[st0.funs.len() - 1]);
                }
                match find_assoc(&fun.labels, &lname) {
                    Some(_) => {
                        self.functions.push(fun);
                        return Err(AsmError::DuplicateLabel(lname));
                    },
                    None => {},
                }
                let ghost lv = lname@;
                let pos_here = self.text_pos;
                fun.labels.push((lname, pos_here));
                proof {
                    assert(fun@.labels =~= lf.labels.push((lv, st0.pos)));
                    assert(fun@ == (FunV { labels: lf.labels.push((lv, st0.pos)), ..lf }));
                }
                self.functions.push(fun);
                proof {
                    assert(self@.funs =~= st0.funs.update(
                        st0.funs.len() - 1,
                        FunV { labels: lf.labels.push((lv, st0.pos)), ..lf },
                    ));
                    assert(self@ == (StV {
                        funs: st0.funs.update(
                            st0.funs.len() - 1,
                            FunV { labels: lf.labels.push((lv, st0.pos)), ..lf },
                        ),
                        ..st0
                    }));
                }
                return Ok(());
            }
            // instruction?
            if w >= 1 && w <= 32 && (w == line.len() || (line[w] == 0x20 && w + 1 < line.len())) {
                proof {
                    assert(is_instr_line(line@));
                }
                let oparg = if w == line.len() {
                    None
                } else {
                    let a = copy_range(line, w + 1, line.len());
                    proof {
                        assert(a@ =~= line@.skip(w as int + 1));
                    }
                    Some(a)
                };
                proof {
                    match oparg {
                        Some(ref a) => {
                            assert(a.deep_view() =~= a@);
                            assert(oparg.deep_view() == instr_arg(line@));
                        },
                        None => {
                            assert(oparg.deep_view() == instr_arg(line@));
                        },
                    }
                }
                return self.parse_instruction(&name, oparg);
            }
            proof {
                assert(!is_var_line(line@));
                assert(!is_fun_line(line@));
                assert(!is_label_line(line@));
                assert(!is_instr_line(line@));
            }
            Err(AsmError::InvalidLine)
        }
    }

    /// Parses source code line by line, filling the program state.
    fn parse(&mut self, content: &Vec<u8>) -> (r: Result<(), AsmError>)
        requires
            old(self)@ == init_st(),
        ensures
            match r {
                Ok(()) => pass1_s(content@) == Ok::<StV, (AsmErrV, int)>(final(self)@) && st_wf(
                    final(self)@,
                ) && final(self).name == old(self).name && final(self).error == old(self).error,
                Err(e) => pass1_s(content@) == Err::<StV, (AsmErrV, int)>(
                    (e@, final(self)@.line),
                ) && final(self).name == old(self).name && final(self).error == old(self).error,
            },
    {
        let total = content.len();
        let lines = split_bytes(content, 0x0a);
        let ghost lsv = lines.deep_view();
        proof {
            assert(lsv == split_on(content@, 0x0a));
            crate::text::lemma_split_on_total(content@, 0x0a);
        }
        let mut k: usize = 0;
        while k < lines.len()
            invariant
                0 <= k <= lines@.len(),
                lsv == lines.deep_view(),
                lsv == split_on(content@, 0x0a),
                lsv.len() == lines@.len(),
                st_wf(self@),
                self@.pos <= crate::text::lens_before(lsv, k as int),
                crate::text::lens_before(lsv, lsv.len() as int) <= content@.len(),
                content@.len() == total,
                parse_lines_s(init_st(), lsv, 0) == parse_lines_s(self@, lsv, k as int),
                self.name == old(self).name,
                self.error == old(self).error,
            decreases lines@.len() - k,
        {
            proof {
                assert(lsv[k as int] == lines@[k as int].deep_view());
                assert(lsv[k as int] =~= lines@[k as int]@);
            }
            self.line_number = k + 1;
            let ghost st1 = self@;
            let cleaned = clean_line(&lines[k]);
            proof {
                crate::text::lemma_clean_line_len(lsv[k as int]);
                crate::text::lemma_lens_mono(lsv, k as int + 1, lsv.len() as int);
                assert(crate::text::lens_before(lsv, k as int + 1) == crate::text::lens_before(
                    lsv,
                    k as int,
                ) + lsv[k as int].len());
                assert(self@.pos + cleaned@.len() <= content@.len());
                assert(content@.len() <= usize::MAX);
            }
            match self.parse_line(&cleaned) {
                Ok(()) => {
                    proof {
                        assert(parse_lines_s(self@, lsv, k as int + 1) == parse_lines_s(
                            init_st(),
                            lsv,
                            0,
                        ));
                    }
                },
                Err(e) => {
                    proof {
                        assert(parse_lines_s(init_st(), lsv, 0) == Err::<StV, (AsmErrV, int)>(
                            (e@, k as int + 1),
                        ));
                    }
                    return Err(e);
                },
            }
            k = k + 1;
        }
        proof {
            assert(parse_lines_s(self@, lsv, k as int) == Ok::<StV, (AsmErrV, int)>(self@));
        }
        Ok(())
    }
}

// ---------------------------------------------------------------------
// executable pass 2 and finalization

/// Resolves the symbolic references of one function block, appending
/// the resolved instructions to `out`.
fn resolve_function(funs: &Vec<AsmFunction>, fi: usize, out: &mut Vec<AsmInstruction>) -> (r:
    Result<(), (AsmError, usize)>)
    requires
        fi < funs@.len(),
        forall|j: int|
            0 <= j < funs_deep(funs@)[fi as int].instrs.len() ==> (#[trigger] funs_deep(
                funs@,
            )[fi as int].instrs[j]).pos + 1 + funs_deep(funs@)[fi as int].instrs[j].oparg.len()
                <= usize::MAX,
    ensures
        (match r {
            Ok(()) => final(out)@.len() >= old(out)@.len() && instrs_deep(final(out)@).take(
                old(out)@.len() as int,
            ) == instrs_deep(old(out)@) && resolve_fun_s(
                funs_deep(funs@),
                funs_deep(funs@)[fi as int],
                0,
            ) == Ok::<Seq<InstrV>, (AsmErrV, int)>(
                instrs_deep(final(out)@).skip(old(out)@.len() as int),
            ),
            Err((e, ln)) => resolve_fun_s(funs_deep(funs@), funs_deep(funs@)[fi as int], 0)
                == Err::<Seq<InstrV>, (AsmErrV, int)>((e@, ln as int)),
        }),
{
    let ghost fv = funs_deep(funs@);
    let ghost f = fv[fi as int];
    let ghost n0 = old(out)@.len() as int;
    proof {
        assert(f == funs@[fi as int]@);
        assert(instrs_deep(out@).skip(n0) =~= Seq::<InstrV>::empty());
        assert(instrs_deep(out@).take(n0) =~= instrs_deep(out@));
    }
    let mut j: usize = 0;
    while j < funs[fi].instructions.len()
        invariant
            fi < funs@.len(),
            fv == funs_deep(funs@),
            f == fv[fi as int],
            f == funs@[fi as int]@,
            0 <= j <= f.instrs.len(),
            f.instrs.len() == funs@[fi as int].instructions@.len(),
            forall|q: int|
                0 <= q < f.instrs.len() ==> (#[trigger] f.instrs[q]).pos + 1
                    + f.instrs[q].oparg.len() <= usize::MAX,
            out@.len() >= n0,
            n0 == old(out)@.len(),
            instrs_deep(out@).take(n0) == instrs_deep(old(out)@),
            (match resolve_fun_s(fv, f, j as int) {
                Ok(rest) => resolve_fun_s(fv, f, 0) == Ok::<Seq<InstrV>, (AsmErrV, int)>(
                    instrs_deep(out@).skip(n0) + rest,
                ),
                Err(e) => resolve_fun_s(fv, f, 0) == Err::<Seq<InstrV>, (AsmErrV, int)>(e),
            }),
        decreases f.instrs.len() - j,
    {
        let i = &funs[fi].instructions[j];
        proof {
            assert(i@ == f.instrs[j as int]);
        }
        let ni: AsmInstruction;
        match &i.argument_token {
            None => {
                let oparg2 = copy_range(&i.oparg, 0, i.oparg.len());
                proof {
                    assert(oparg2@ =~= i.oparg@);
                }
                ni = AsmInstruction {
                    line_number: i.line_number,
                    opcode: i.opcode,
                    oparg: oparg2,
                    pos: i.pos,
                    argument_token: None,
                };
                proof {
                    assert(ni@ == f.instrs[j as int]);
                    assert(resolve_instr_s(fv, f, f.instrs[j as int]) == Ok::<InstrV, AsmErrV>(
                        ni@,
                    ));
                }
            },
            Some(t) => {
                proof {
                    assert(f.instrs[j as int].tok == Some(t@));
                }
                let dest_opt = if i.opcode == op::CALL {
                    find_fun_pos(funs, t)
                } else {
                    find_assoc(&funs[fi].labels, t)
                };
                proof {
                    assert(labels_deep(funs@[fi as int].labels@) == f.labels);
                }
                let dest = match dest_opt {
                    None => {
                        let tc = copy_range(t, 0, t.len());
                        proof {
                            assert(tc@ =~= t@);
                            assert(resolve_instr_s(fv, f, f.instrs[j as int]) == Err::<
                                InstrV,
                                AsmErrV,
                            >(AsmErrV::UnknownLabel(t@)));
                        }
                        return Err((AsmError::UnknownLabel(tc), i.line_number));
                    },
                    Some(d) => d,
                };
                let src = i.pos + 1 + i.oparg.len();
                let diff = if dest >= src {
                    dest - src
                } else {
                    src - dest
                };
                if diff > 32767 {
                    proof {
                        let iv = f.instrs[j as int];
                        let tv = t@;
                        assert(iv.tok == Some(tv));
                        let dd = if iv.opcode == op::CALL {
                            fun_pos_find(fv, tv)
                        } else {
                            assoc_find(f.labels, tv)
                        };
                        assert(dd == Some(dest as int));
                        let srcv = iv.pos + 1 + iv.oparg.len();
                        assert(srcv == src as int);
                        assert((if dest as int >= srcv {
                            dest as int - srcv
                        } else {
                            srcv - dest as int
                        }) > 32767);
                        assert(resolve_instr_s(fv, f, f.instrs[j as int]) == Err::<
                            InstrV,
                            AsmErrV,
                        >(AsmErrV::JumpTooLong));
                    }
                    return Err((AsmError::JumpTooLong, i.line_number));
                }
                let v: usize = if dest >= src {
                    dest - src
                } else {
                    65536 - (src - dest)
                };
                let hi = (v / 256) as u8;
                let lo = (v % 256) as u8;
                let mut oparg2: Vec<u8> = Vec::new();
                oparg2.push(hi);
                oparg2.push(lo);
                proof {
                    let d = dest as int - src as int;
                    assert(v as int == (if d < 0 {
                        d + 65536
                    } else {
                        d
                    }));
                    assert(oparg2@ =~= encode_i16(d));
                }
                let tc = copy_range(t, 0, t.len());
                proof {
                    assert(tc@ =~= t@);
                }
                ni = AsmInstruction {
                    line_number: i.line_number,
                    opcode: i.opcode,
                    oparg: oparg2,
                    pos: i.pos,
                    argument_token: Some(tc),
                };
                proof {
                    assert(ni@ == (InstrV {
                        oparg: encode_i16(dest as int - src as int),
                        ..f.instrs[j as int]
                    }));
                    assert(resolve_instr_s(fv, f, f.instrs[j as int]) == Ok::<InstrV, AsmErrV>(
                        ni@,
                    ));
                }
            },
        }
        let ghost outv = instrs_deep(out@);
        let ghost niv = ni@;
        out.push(ni);
        proof {
            assert(instrs_deep(out@) =~= outv.push(niv));
            assert(instrs_deep(out@).take(n0) =~= outv.take(n0));
            assert(instrs_deep(out@).skip(n0) =~= outv.skip(n0).push(niv));
            assert(resolve_fun_s(fv, f, j as int) == (match resolve_fun_s(fv, f, j as int + 1) {
                Ok(rest) => Ok::<Seq<InstrV>, (AsmErrV, int)>(seq![niv] + rest),
                Err(e) => Err::<Seq<InstrV>, (AsmErrV, int)>(e),
            }));
            match resolve_fun_s(fv, f, j as int + 1) {
                Ok(rest) => {
                    assert(outv.skip(n0) + (seq![niv] + rest) =~= outv.skip(n0).push(niv)
                        + rest);
                },
                Err(e) => {},
            }
        }
        j = j + 1;
    }
    proof {
        assert(resolve_fun_s(fv, f, j as int) == Ok::<Seq<InstrV>, (AsmErrV, int)>(
            Seq::empty(),
        ));
        assert(instrs_deep(out@).skip(n0) + Seq::<InstrV>::empty() =~= instrs_deep(out@).skip(
            n0,
        ));
    }
    Ok(())
}

impl AsmPgm {
    /// Second pass: resolves every symbolic reference, producing the
    /// final instruction list in emission order. On failure the
    /// current line is set to the failing instruction's source line.
    fn update_instructions(&mut self) -> (r: Result<Vec<AsmInstruction>, AsmError>)
        requires
            st_wf(old(self)@),
        ensures
            (match r {
                Ok(v) => resolve_all_s(old(self)@.funs, 0) == Ok::<Seq<InstrV>, (AsmErrV, int)>(
                    instrs_deep(v@),
                ) && final(self)@ == old(self)@ && final(self).name == old(self).name && final(self).error == old(self).error,
                Err(e) => resolve_all_s(old(self)@.funs, 0) == Err::<Seq<InstrV>, (AsmErrV, int)>(
                    (e@, final(self)@.line),
                ) && final(self)@ == (StV { line: final(self)@.line, ..old(self)@ }) && final(self).name == old(self).name && final(self).error == old(self).error,
            }),
    {
        let ghost fv = funs_deep(self.functions@);
        let ghost st0 = self@;
        let mut out: Vec<AsmInstruction> = Vec::new();
        proof {
            assert(instrs_deep(out@) =~= Seq::<InstrV>::empty());
            match resolve_all_s(fv, 0) {
                Ok(rest) => {
                    assert(instrs_deep(out@) + rest =~= rest);
                },
                Err(e) => {},
            }
        }
        let mut fi: usize = 0;
        while fi < self.functions.len()
            invariant
                0 <= fi <= self.functions@.len(),
                st0 == old(self)@,
                self@ == st0,
                st_wf(st0),
                fv == funs_deep(self.functions@),
                fv == st0.funs,
                self.name == old(self).name,
                self.error == old(self).error,
                (match resolve_all_s(fv, fi as int) {
                    Ok(rest) => resolve_all_s(fv, 0) == Ok::<Seq<InstrV>, (AsmErrV, int)>(
                        instrs_deep(out@) + rest,
                    ),
                    Err(e) => resolve_all_s(fv, 0) == Err::<Seq<InstrV>, (AsmErrV, int)>(e),
                }),
            decreases self.functions@.len() - fi,
        {
            proof {
                assert forall|q: int| 0 <= q < fv[fi as int].instrs.len() implies (
                #[trigger] fv[fi as int].instrs[q]).pos + 1 + fv[fi as int].instrs[q].oparg.len()
                    <= usize::MAX by {
                    assert(st0.funs[fi as int].instrs[q].pos + 1
                        + st0.funs[fi as int].instrs[q].oparg.len() <= st0.pos);
                }
            }
            let ghost out_pre = instrs_deep(out@);
            match resolve_function(&self.functions, fi, &mut out) {
                Ok(()) => {
                    proof {
                        let d = instrs_deep(out@).skip(out_pre.len() as int);
                        assert(instrs_deep(out@) =~= out_pre + d);
                        assert(resolve_all_s(fv, fi as int) == (match resolve_all_s(
                            fv,
                            fi as int + 1,
                        ) {
                            Ok(rest) => Ok::<Seq<InstrV>, (AsmErrV, int)>(d + rest),
                            Err(e) => Err::<Seq<InstrV>, (AsmErrV, int)>(e),
                        }));
                        match resolve_all_s(fv, fi as int + 1) {
                            Ok(rest) => {
                                assert(out_pre + (d + rest) =~= (out_pre + d) + rest);
                            },
                            Err(e) => {},
                        }
                    }
                },
                Err((e, ln)) => {
                    self.line_number = ln;
                    proof {
                        assert(resolve_all_s(fv, fi as int) == Err::<
                            Seq<InstrV>,
                            (AsmErrV, int),
                        >((e@, ln as int)));
                        assert(self@ == (StV { line: ln as int, ..st0 }));
                    }
                    return Err(e);
                },
            }
            fi = fi + 1;
        }
        proof {
            assert(resolve_all_s(fv, fi as int) == Ok::<Seq<InstrV>, (AsmErrV, int)>(
                Seq::empty(),
            ));
            assert(instrs_deep(out@) + Seq::<InstrV>::empty() =~= instrs_deep(out@));
        }
        Ok(out)
    }

    /// Runs both passes over the source.
    fn process(&mut self, content: &Vec<u8>) -> (r: Result<Vec<AsmInstruction>, AsmError>)
        requires
            old(self)@ == init_st(),
        ensures
            (match r {
                Ok(v) => pass1_s(content@) == Ok::<StV, (AsmErrV, int)>(final(self)@)
                    && resolve_all_s(final(self)@.funs, 0) == Ok::<Seq<InstrV>, (AsmErrV, int)>(
                    instrs_deep(v@),
                ) && st_wf(final(self)@) && final(self).name == old(self).name && final(self).error == old(self).error,
                Err(e) => final(self).name == old(self).name && final(self).error == old(self).error && (match pass1_s(content@) {
                    Err(p) => p == (e@, final(self)@.line),
                    Ok(st) => resolve_all_s(st.funs, 0) == Err::<Seq<InstrV>, (AsmErrV, int)>(
                        (e@, final(self)@.line),
                    ) && final(self)@ == (StV { line: final(self)@.line, ..st }),
                }),
            }),
    {
        match self.parse(content) {
            Err(e) => {
                return Err(e);
            },
            Ok(()) => {},
        }
        let ghost stp = self@;
        match self.update_instructions() {
            Err(e) => {
                proof {
                    assert(self@ == (StV { line: self@.line, ..stp }));
                    assert(pass1_s(content@) == Ok::<StV, (AsmErrV, int)>(stp));
                }
                Err(e)
            },
            Ok(v) => Ok(v),
        }
    }
}

impl AsmPgm {
    /// Processes assembly source code, recording the first error.
    fn process_assembly(&mut self, content: &Vec<u8>) -> (r: Option<Vec<AsmInstruction>>)
        requires
            old(self)@ == init_st(),
            old(self).error is None,
        ensures
            (match r {
                Some(v) => final(self).error is None && pass1_s(content@) == Ok::<
                    StV,
                    (AsmErrV, int),
                >(final(self)@) && resolve_all_s(final(self)@.funs, 0) == Ok::<
                    Seq<InstrV>,
                    (AsmErrV, int),
                >(instrs_deep(v@)) && st_wf(final(self)@) && final(self).name == old(self).name,
                None => final(self).name == old(self).name && (match final(self).error {
                    Some(e) => (match pass1_s(content@) {
                        Err(p) => p == (e@, final(self)@.line),
                        Ok(st) => resolve_all_s(st.funs, 0) == Err::<Seq<InstrV>, (AsmErrV, int)>(
                            (e@, final(self)@.line),
                        ) && final(self)@ == (StV { line: final(self)@.line, ..st }),
                    }),
                    None => false,
                }),
            }),
    {
        match self.process(content) {
            Ok(v) => Some(v),
            Err(e) => {
                self.error = Some(e);
                None
            },
        }
    }

    /// Converts the parsed state and the resolved instruction list to
    /// a runnable program, or to an error report naming the program,
    /// the failing line and the first error.
    fn to_program(self, resolved: Option<Vec<AsmInstruction>>) -> (r: Result<Pgm, AsmErrorReport>)
        requires
            self.error is Some <==> resolved is None,
            self.error is None ==> self@.gvars.len() <= 255,
        ensures
            (match r {
                Ok(pgm) => self.error is None && (match resolved {
                    Some(v) => pgm.text@ == emit_s(instrs_deep(v@), 0),
                    None => false,
                }) && pgm.vars as int == self@.gvars.len() && labels_deep(pgm.exports@)
                    == exports_s(self@.funs, 0) && pgm.name@ == self.name@,
                Err(rep) => (match self.error {
                    Some(e) => rep.error@ == e@,
                    None => false,
                }) && rep.line as int == self@.line && rep.name@ == self.name@,
            }),
    {
        let AsmPgm { name, functions, line_number, text_pos: _, error, vars } = self;
        match error {
            Some(e) => {
                // Assembling failed:
                Err(AsmErrorReport { name, line: line_number, error: e })
            },
            None => {
                // Assembling succeeded, return a Pgm instance:
                let v = match resolved {
                    Some(v) => v,
                    None => {
                        proof {
                            assert(false);
                        }
                        Vec::new()
                    },
                };
                let ghost iv = instrs_deep(v@);
                let mut text: Vec<u8> = Vec::new();
                let mut k: usize = 0;
                proof {
                    assert(text@ + emit_s(iv, 0) =~= emit_s(iv, 0));
                }
                while k < v.len()
                    invariant
                        0 <= k <= v@.len(),
                        iv == instrs_deep(v@),
                        iv.len() == v@.len(),
                        text@ + emit_s(iv, k as int) == emit_s(iv, 0),
                    decreases v@.len() - k,
                {
                    proof {
                        assert(iv[k as int] == v@[k as int]@);
                    }
                    let ghost t0 = text@;
                    text.push(v[k].opcode);
                    text.extend_from_slice(v[k].oparg.as_slice());
                    proof {
                        assert(text@ =~= t0 + seq![iv[k as int].opcode] + iv[k as int].oparg);
                        assert(emit_s(iv, k as int) == seq![iv[k as int].opcode]
                            + iv[k as int].oparg + emit_s(iv, k as int + 1));
                        assert(text@ + emit_s(iv, k as int + 1) =~= t0 + emit_s(iv, k as int));
                    }
                    k = k + 1;
                }
                proof {
                    assert(emit_s(iv, k as int) =~= Seq::<u8>::empty());
                    assert(text@ + Seq::<u8>::empty() =~= text@);
                }
                let ghost fv = funs_deep(functions@);
                let mut exports: Vec<(Vec<u8>, usize)> = Vec::new();
                let mut fi: usize = 0;
                proof {
                    assert(labels_deep(exports@) + exports_s(fv, 0) =~= exports_s(fv, 0));
                }
                while fi < functions.len()
                    invariant
                        0 <= fi <= functions@.len(),
                        fv == funs_deep(functions@),
                        fv.len() == functions@.len(),
                        labels_deep(exports@) + exports_s(fv, fi as int) == exports_s(fv, 0),
                    decreases functions@.len() - fi,
                {
                    if functions[fi].name.len() > 0 {
                        let ename = copy_range(&functions[fi].name, 0, functions[fi].name.len());
                        proof {
                            assert(ename@ =~= functions@[fi as int].name@);
                        }
                        let epos = functions[fi].text_pos;
                        let ghost e0 = exports@;
                        exports.push((ename, epos));
                        proof {
                            assert(fv[fi as int].name.len() > 0);
                            assert(labels_deep(exports@) =~= labels_deep(e0).push(
                                (fv[fi as int].name, fv[fi as int].pos),
                            ));
                            assert(exports_s(fv, fi as int) == seq![
                                (fv[fi as int].name, fv[fi as int].pos),
                            ] + exports_s(fv, fi as int + 1));
                            assert(labels_deep(exports@) + exports_s(fv, fi as int + 1)
                                =~= labels_deep(e0) + exports_s(fv, fi as int));
                        }
                    } else {
                        proof {
                            assert(fv[fi as int].name.len() == 0);
                            assert(exports_s(fv, fi as int) == exports_s(fv, fi as int + 1));
                        }
                    }
                    fi = fi + 1;
                }
                proof {
                    assert(exports_s(fv, fi as int) =~= Seq::<(Seq<u8>, int)>::empty());
                    assert(labels_deep(exports@) + Seq::<(Seq<u8>, int)>::empty() =~= labels_deep(
                        exports@,
                    ));
                }
                Ok(Pgm { name, text, vars: vars.len() as u8, exports })
            },
        }
    }
}

/// Parse assembly source code and turn it into a runnable program (or
/// create a report).
///
/// On success the program's byte buffer, global count and export
/// table are exactly [`assemble_s`] of the source bytes; on failure
/// the report carries the first error and the 1-based line it
/// occurred on, as given by the same specification.
pub fn assemble(name: &str, content: &str) -> (r: Result<Pgm, AsmErrorReport>)
    ensures
        (match r {
            Ok(pgm) => assemble_s(content.spec_bytes()) == Ok::<PgmV, (AsmErrV, int)>(
                PgmV {
                    text: pgm.text@,
                    vars: pgm.vars as int,
                    exports: labels_deep(pgm.exports@),
                },
            ) && pgm.name@ == name@,
            Err(rep) => assemble_s(content.spec_bytes()) == Err::<PgmV, (AsmErrV, int)>(
                (rep.error@, rep.line as int),
            ) && rep.name@ == name@,
        }),
{
    let bytes = vstd::slice::slice_to_vec(content.as_bytes());
    // create a new, clean instance to fill during parsing:
    let mut asm_pgm = AsmPgm {
        name: name.to_owned(),
        functions: Vec::new(),
        line_number: 0,
        text_pos: 0,
        error: None,
        vars: Vec::new(),
    };
    proof {
        assert(asm_pgm@.funs =~= init_st().funs);
        assert(asm_pgm@.gvars =~~= init_st().gvars);
        assert(asm_pgm@ == init_st());
    }
    // evaluate the source code:
    let resolved = asm_pgm.process_assembly(&bytes);
    // convert to Pgm instance if successful, or to an error report:
    let r = asm_pgm.to_program(resolved);
    proof {
        match r {
            Ok(ref pgm) => {},
            Err(ref rep) => {},
        }
    }
    r
}

/// The displacement encoding round-trips: decoding the two bytes of
/// an encoded in-range displacement gives the displacement back.
pub proof fn lemma_encode_decode(d: int)
    requires
        -32767 <= d <= 32767,
    ensures
        encode_i16(d).len() == 2,
        op::decode_i16(encode_i16(d)[0], encode_i16(d)[1]) == d,
{
    let v = if d < 0 {
        d + 65536
    } else {
        d
    };
    vstd::arithmetic::div_mod::lemma_fundamental_div_mod(v, 256);
    vstd::arithmetic::div_mod::lemma_mod_bound(v, 256);
    assert(0 <= v <= 65535);
    let q = v / 256;
    let m = v % 256;
    assert(v == 256 * q + m);
    assert(0 <= m < 256);
    assert(0 <= q <= 255) by {
        if q < 0 {
            assert(256 * q <= -256);
        }
        if q > 255 {
            assert(256 * q >= 256 * 256) by (nonlinear_arith)
                requires
                    q > 255,
            ;
        }
    }
    assert(encode_i16(d)[0] == q as u8);
    assert(encode_i16(d)[1] == m as u8);
}

/// Law: every resolved branch or call displacement points exactly at
/// its target — the byte position immediately after the instruction
/// plus the decoded displacement equals the absolute offset that the
/// referenced label or function resolved to.
pub proof fn lemma_branch_target_exact(funs: Seq<FunV>, f: FunV, i: InstrV, t: Seq<u8>, r: InstrV)
    requires
        i.tok == Some(t),
        resolve_instr_s(funs, f, i) == Ok::<InstrV, AsmErrV>(r),
    ensures
        ({
            let dest = if i.opcode == op::CALL {
                fun_pos_find(funs, t)
            } else {
                assoc_find(f.labels, t)
            };
            &&& dest is Some
            &&& r.oparg.len() == 2
            &&& i.pos + 1 + i.oparg.len() + op::decode_i16(r.oparg[0], r.oparg[1])
                == dest.unwrap()
        }),
{
    let dest = if i.opcode == op::CALL {
        fun_pos_find(funs, t)
    } else {
        assoc_find(f.labels, t)
    };
    let d = dest.unwrap();
    let src = i.pos + 1 + i.oparg.len();
    lemma_encode_decode(d - src);
}

/// Law: a source line that references an undeclared label fails to
/// assemble with `UnknownLabel` in the second pass; it never reaches
/// execution.
pub proof fn lemma_unknown_label_rejected(funs: Seq<FunV>, f: FunV, i: InstrV, t: Seq<u8>)
    requires
        i.tok == Some(t),
        i.opcode == op::CALL ==> fun_pos_find(funs, t) is None,
        i.opcode != op::CALL ==> assoc_find(f.labels, t) is None,
    ensures
        resolve_instr_s(funs, f, i) == Err::<InstrV, AsmErrV>(AsmErrV::UnknownLabel(t)),
{
}

/// Law: when the second pass accepts a function block, every one of
/// its control-transfer instructions referenced a declared target —
/// an undeclared label never survives into an executable program.
pub proof fn lemma_resolved_references_declared(funs: Seq<FunV>, f: FunV, k: int)
    requires
        0 <= k,
        resolve_fun_s(funs, f, k) is Ok,
    ensures
        forall|j: int|
            k <= j < f.instrs.len() && (#[trigger] f.instrs[j]).tok is Some ==> (
            if f.instrs[j].opcode == op::CALL {
                fun_pos_find(funs, f.instrs[j].tok.unwrap())
            } else {
                assoc_find(f.labels, f.instrs[j].tok.unwrap())
            }) is Some,
    decreases f.instrs.len() - k,
{
    if k < f.instrs.len() {
        assert(resolve_instr_s(funs, f, f.instrs[k]) is Ok);
        assert(resolve_fun_s(funs, f, k + 1) is Ok);
        lemma_resolved_references_declared(funs, f, k + 1);
        match f.instrs[k].tok {
            Some(t) => {
                assert((if f.instrs[k].opcode == op::CALL {
                    fun_pos_find(funs, t)
                } else {
                    assoc_find(f.labels, t)
                }) is Some);
            },
            None => {},
        }
    }
}

/// Law: a branch or call whose target lies further than a signed
/// 16-bit displacement can reach is rejected with `JumpTooLong`,
/// never encoded as a wrapped or truncated displacement.
pub proof fn lemma_long_jump_rejected(funs: Seq<FunV>, f: FunV, i: InstrV, t: Seq<u8>, d: int)
    requires
        i.tok == Some(t),
        (if i.opcode == op::CALL {
            fun_pos_find(funs, t)
        } else {
            assoc_find(f.labels, t)
        }) == Some(d),
        (if d >= i.pos + 1 + i.oparg.len() {
            d - (i.pos + 1 + i.oparg.len())
        } else {
            (i.pos + 1 + i.oparg.len()) - d
        }) > 32767,
    ensures
        resolve_instr_s(funs, f, i) == Err::<InstrV, AsmErrV>(AsmErrV::JumpTooLong),
{
}

/// Well-formedness of the pass-1 state: every variable list respects
/// the one-byte index range.
pub open spec fn st_wf(st: StV) -> bool {
    &&& st.gvars.len() <= 255
    &&& forall|i: int| 0 <= i < st.funs.len() ==> (#[trigger] st.funs[i]).vars.len() <= 255
    &&& forall|i: int, j: int|
        0 <= i < st.funs.len() && 0 <= j < st.funs[i].instrs.len() ==> (
        #[trigger] st.funs[i].instrs[j]).pos + 1 + st.funs[i].instrs[j].oparg.len() <= st.pos
}

} // verus!
