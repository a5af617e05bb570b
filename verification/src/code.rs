//! Instructions, compiled code and closures.

use vstd::prelude::*;
use crate::text::{decimal, integer_text, natural_text};
use crate::value::Id;

verus! {

/// One instruction of the machine.
#[derive(Debug, PartialEq, Eq)]
pub enum Opcode {
    Nop,
    LoadTemp(String),
    LoadLit(u8),
    LoadUnit,
    LoadTrue,
    LoadFalse,
    LoadInt(i64),
    LoadPrim(String),
    StorePop(String),
    Pop,
    Return,
    LoopHead,
    Jump(i16),
    BranchTrue(u16),
    BranchFalse(u16),
    Apply(u8),
    MakeBlock,
    Not,
    Eq,
    Neq,
    Lt,
    Le,
    Gt,
    Ge,
}

impl Clone for Opcode {
    fn clone(&self) -> (r: Self)
        ensures
            r == *self,
    {
        match self {
            Opcode::Nop => Opcode::Nop,
            Opcode::LoadTemp(name) => Opcode::LoadTemp(name.clone()),
            Opcode::LoadLit(i) => Opcode::LoadLit(*i),
            Opcode::LoadUnit => Opcode::LoadUnit,
            Opcode::LoadTrue => Opcode::LoadTrue,
            Opcode::LoadFalse => Opcode::LoadFalse,
            Opcode::LoadInt(n) => Opcode::LoadInt(*n),
            Opcode::LoadPrim(name) => Opcode::LoadPrim(name.clone()),
            Opcode::StorePop(name) => Opcode::StorePop(name.clone()),
            Opcode::Pop => Opcode::Pop,
            Opcode::Return => Opcode::Return,
            Opcode::LoopHead => Opcode::LoopHead,
            Opcode::Jump(n) => Opcode::Jump(*n),
            Opcode::BranchTrue(n) => Opcode::BranchTrue(*n),
            Opcode::BranchFalse(n) => Opcode::BranchFalse(*n),
            Opcode::Apply(n) => Opcode::Apply(*n),
            Opcode::MakeBlock => Opcode::MakeBlock,
            Opcode::Not => Opcode::Not,
            Opcode::Eq => Opcode::Eq,
            Opcode::Neq => Opcode::Neq,
            Opcode::Lt => Opcode::Lt,
            Opcode::Le => Opcode::Le,
            Opcode::Gt => Opcode::Gt,
            Opcode::Ge => Opcode::Ge,
        }
    }
}

/// An instruction sequence with its constant pool and the names of the
/// parameters it declares. The constant pool holds ids of heap objects that
/// were allocated before the code runs. `LoadLit` names a literal by its
/// index; the `MakeBlock` instructions have the first literals of the pool,
/// in the order in which they stand in the code.
#[derive(Debug, PartialEq, Eq)]
pub struct CompiledCode {
    pub ops: Vec<Opcode>,
    pub lits: Vec<Id>,
    pub params: Vec<String>,
}

/// What a `CompiledCode` holds, as sequences.
pub struct CodeView {
    pub ops: Seq<Opcode>,
    pub lits: Seq<Id>,
    pub params: Seq<String>,
}

impl View for CompiledCode {
    type V = CodeView;

    open spec fn view(&self) -> CodeView {
        CodeView { ops: self.ops@, lits: self.lits@, params: self.params@ }
    }
}

impl CodeView {
    /// Every conditional branch of the code leads to a loop header.
    pub open spec fn branches_well_formed(self) -> bool {
        forall|i: int|
            0 <= i < self.ops.len() ==> match #[trigger] self.ops[i] {
                Opcode::BranchTrue(t) | Opcode::BranchFalse(t) => self.is_loop_head(t as int),
                _ => true,
            }
    }

    /// `target` is the index of a `LoopHead` instruction.
    pub open spec fn is_loop_head(self, target: int) -> bool {
        0 <= target < self.ops.len() && self.ops[target] == Opcode::LoopHead
    }
}

impl CompiledCode {
    /// Code with no instruction, no literal and no parameter.
    pub fn new() -> (r: CompiledCode)
        ensures
            r@.ops.len() == 0,
            r@.lits.len() == 0,
            r@.params.len() == 0,
    {
        CompiledCode { ops: Vec::new(), lits: Vec::new(), params: Vec::new() }
    }

    /// The heap id that the constant pool holds at `i`, if it holds one.
    pub fn get_lit(&self, i: usize) -> (r: Option<&Id>)
        ensures
            r == (if i < self@.lits.len() {
                Some(&self@.lits[i as int])
            } else {
                None
            }),
    {
        if i < self.lits.len() {
            Some(&self.lits[i])
        } else {
            None
        }
    }
}

impl Clone for CompiledCode {
    fn clone(&self) -> (r: Self)
        ensures
            r@ == self@,
    {
        let mut ops: Vec<Opcode> = Vec::new();
        let mut i: usize = 0;
        while i < self.ops.len()
            invariant
                i <= self.ops.len(),
                ops@ == self.ops@.take(i as int),
            decreases self.ops.len() - i,
        {
            ops.push(self.ops[i].clone());
            assert(self.ops@.take(i + 1) =~= self.ops@.take(i as int).push(self.ops@[i as int]));
            i += 1;
        }
        assert(self.ops@.take(self.ops.len() as int) =~= self.ops@);
        let mut lits: Vec<Id> = Vec::new();
        let mut j: usize = 0;
        while j < self.lits.len()
            invariant
                j <= self.lits.len(),
                lits@ == self.lits@.take(j as int),
            decreases self.lits.len() - j,
        {
            lits.push(self.lits[j]);
            assert(self.lits@.take(j + 1) =~= self.lits@.take(j as int).push(self.lits@[j as int]));
            j += 1;
        }
        assert(self.lits@.take(self.lits.len() as int) =~= self.lits@);
        let mut params: Vec<String> = Vec::new();
        let mut k: usize = 0;
        while k < self.params.len()
            invariant
                k <= self.params.len(),
                params@ == self.params@.take(k as int),
            decreases self.params.len() - k,
        {
            params.push(self.params[k].clone());
            assert(self.params@.take(k + 1) =~= self.params@.take(k as int).push(
                self.params@[k as int],
            ));
            k += 1;
        }
        assert(self.params@.take(self.params.len() as int) =~= self.params@);
        CompiledCode { ops, lits, params }
    }
}

/// A closure: code paired with the environment it captured, named by its
/// index in the interpreter's table of environments. A block without a
/// captured environment begins with an empty one.
#[derive(Debug, PartialEq, Eq)]
pub struct Block {
    pub code: CompiledCode,
    pub env: Option<usize>,
}

/// What a `Block` holds.
pub struct BlockView {
    pub code: CodeView,
    pub env: Option<usize>,
}

impl View for Block {
    type V = BlockView;

    open spec fn view(&self) -> BlockView {
        BlockView { code: self.code@, env: self.env }
    }
}

impl Block {
    /// A block over `code` that captures no environment.
    pub fn new(code: CompiledCode) -> (r: Block)
        ensures
            r@ == (BlockView { code: code@, env: None }),
    {
        Block { code: code, env: None }
    }
}

impl Clone for Block {
    fn clone(&self) -> (r: Self)
        ensures
            r@ == self@,
    {
        Block { code: self.code.clone(), env: self.env }
    }
}

/// The one-line form of an instruction: its mnemonic, and its operand
/// where it has one.
pub open spec fn rendered(op: Opcode) -> Seq<char> {
    match op {
        Opcode::Nop => "nop"@,
        Opcode::LoadTemp(name) => "load temp #"@ + name@,
        Opcode::LoadLit(i) => "load literal #"@ + decimal(i as int),
        Opcode::LoadUnit => "load unit"@,
        Opcode::LoadTrue => "load true"@,
        Opcode::LoadFalse => "load false"@,
        Opcode::LoadInt(n) => "load int "@ + decimal(n as int),
        Opcode::LoadPrim(name) => "load primitive #"@ + name@,
        Opcode::StorePop(name) => "store #"@ + name@ + "; pop"@,
        Opcode::Pop => "pop"@,
        Opcode::Return => "return"@,
        Opcode::LoopHead => "loophead"@,
        Opcode::Jump(n) => "jump "@ + decimal(n as int),
        Opcode::BranchTrue(n) => "branch true "@ + decimal(n as int),
        Opcode::BranchFalse(n) => "branch false "@ + decimal(n as int),
        Opcode::Apply(n) => "apply "@ + decimal(n as int),
        Opcode::MakeBlock => "make block"@,
        Opcode::Not => "not"@,
        Opcode::Eq => "=="@,
        Opcode::Neq => "!="@,
        Opcode::Lt => "<"@,
        Opcode::Le => "<="@,
        Opcode::Gt => ">"@,
        Opcode::Ge => ">="@,
    }
}

/// The line of the listing for the instruction `op` at position `number`,
/// counted from one.
pub open spec fn listed_line(number: int, op: Opcode) -> Seq<char> {
    "    "@ + decimal(number) + ": "@ + rendered(op) + "\n"@
}

/// The lines of the listing for the first `n` instructions of `ops`.
pub open spec fn listed_lines(ops: Seq<Opcode>, n: nat) -> Seq<char>
    decreases n,
{
    if n == 0 {
        Seq::empty()
    } else {
        listed_lines(ops, (n - 1) as nat) + listed_line(n as int, ops[n - 1])
    }
}

/// The listing of `ops`: a heading, then one line for each instruction.
pub open spec fn listing(ops: Seq<Opcode>) -> Seq<char> {
    "opcodes:\n"@ + listed_lines(ops, ops.len())
}

impl Opcode {
    /// The one-line form of the instruction, for diagnostics.
    pub fn to_string(&self) -> (r: String)
        ensures
            r@ == rendered(*self),
    {
        match self {
            Opcode::Nop => String::from_str("nop"),
            Opcode::LoadTemp(name) => String::from_str("load temp #").concat(name.as_str()),
            Opcode::LoadLit(i) => String::from_str("load literal #").concat(
                natural_text(*i as u64).as_str(),
            ),
            Opcode::LoadUnit => String::from_str("load unit"),
            Opcode::LoadTrue => String::from_str("load true"),
            Opcode::LoadFalse => String::from_str("load false"),
            Opcode::LoadInt(n) => String::from_str("load int ").concat(integer_text(*n).as_str()),
            Opcode::LoadPrim(name) => String::from_str("load primitive #").concat(name.as_str()),
            Opcode::StorePop(name) => String::from_str("store #").concat(name.as_str()).concat(
                "; pop",
            ),
            Opcode::Pop => String::from_str("pop"),
            Opcode::Return => String::from_str("return"),
            Opcode::LoopHead => String::from_str("loophead"),
            Opcode::Jump(n) => String::from_str("jump ").concat(integer_text(*n as i64).as_str()),
            Opcode::BranchTrue(n) => String::from_str("branch true ").concat(
                natural_text(*n as u64).as_str(),
            ),
            Opcode::BranchFalse(n) => String::from_str("branch false ").concat(
                natural_text(*n as u64).as_str(),
            ),
            Opcode::Apply(n) => String::from_str("apply ").concat(natural_text(*n as u64).as_str()),
            Opcode::MakeBlock => String::from_str("make block"),
            Opcode::Not => String::from_str("not"),
            Opcode::Eq => String::from_str("=="),
            Opcode::Neq => String::from_str("!="),
            Opcode::Lt => String::from_str("<"),
            Opcode::Le => String::from_str("<="),
            Opcode::Gt => String::from_str(">"),
            Opcode::Ge => String::from_str(">="),
        }
    }
}

impl CompiledCode {
    /// The listing of the code's instructions, for diagnostics.
    pub fn to_string(&self) -> (r: String)
        ensures
            r@ == listing(self@.ops),
    {
        let mut out = String::from_str("opcodes:\n");
        let mut i: usize = 0;
        while i < self.ops.len()
            invariant
                i <= self.ops.len(),
                out@ == "opcodes:\n"@ + listed_lines(self.ops@, i as nat),
            decreases self.ops.len() - i,
        {
            let ghost before = out@;
            let number = natural_text((i + 1) as u64);
            let line = self.ops[i].to_string();
            out.append("    ");
            out.append(number.as_str());
            out.append(": ");
            out.append(line.as_str());
            out.append("\n");
            assert(out@ =~= before + listed_line(i + 1, self.ops@[i as int]));
            assert(out@ =~= "opcodes:\n"@ + listed_lines(self.ops@, (i + 1) as nat));
            i += 1;
        }
        out
    }
}

} // verus!
