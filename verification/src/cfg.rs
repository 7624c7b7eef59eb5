//! What the translation reads of the disassembled program: instructions,
//! basic blocks, and the control-flow graph of each function.

use crate::veriv_ast::{Stmt, StmtView};
use vstd::prelude::*;

verus! {

/// A register operand, with the offset that is written before it where
/// there is one.
#[derive(Debug, PartialEq, Eq)]
pub struct RegOperand {
    pub name: String,
    pub offset: Option<i64>,
}

/// The mathematical value of a [`RegOperand`].
pub struct RegOperandView {
    pub name: Seq<char>,
    pub offset: Option<i64>,
}

impl View for RegOperand {
    type V = RegOperandView;

    open spec fn view(&self) -> RegOperandView {
        RegOperandView { name: self.name@, offset: self.offset }
    }
}

/// The view of an optional register operand.
pub open spec fn opt_reg_view(r: Option<RegOperand>) -> Option<RegOperandView> {
    match r {
        Some(r) => Some(r@),
        None => None,
    }
}

/// One instruction.
#[derive(Debug, PartialEq, Eq)]
pub struct Inst {
    pub address: u64,
    /// The function that the instruction belongs to.
    pub function_name: String,
    /// The mnemonic.
    pub op: String,
    pub rd: Option<RegOperand>,
    pub rs1: Option<RegOperand>,
    pub rs2: Option<RegOperand>,
    pub csr: Option<RegOperand>,
    pub imm: Option<i64>,
}

/// The mathematical value of an [`Inst`].
pub struct InstView {
    pub address: u64,
    pub function_name: Seq<char>,
    pub op: Seq<char>,
    pub rd: Option<RegOperandView>,
    pub rs1: Option<RegOperandView>,
    pub rs2: Option<RegOperandView>,
    pub csr: Option<RegOperandView>,
    pub imm: Option<i64>,
}

impl View for Inst {
    type V = InstView;

    open spec fn view(&self) -> InstView {
        InstView {
            address: self.address,
            function_name: self.function_name@,
            op: self.op@,
            rd: opt_reg_view(self.rd),
            rs1: opt_reg_view(self.rs1),
            rs2: opt_reg_view(self.rs2),
            csr: opt_reg_view(self.csr),
            imm: self.imm,
        }
    }
}

/// The views of a sequence of instructions.
pub open spec fn inst_views(v: Seq<Inst>) -> Seq<InstView> {
    Seq::new(v.len(), |i: int| v[i]@)
}

/// The views of a sequence of statements.
pub open spec fn plain_stmt_views(v: Seq<Stmt>) -> Seq<StmtView> {
    Seq::new(v.len(), |i: int| v[i]@)
}

/// A basic block: straight-line instructions with one entry and one exit.
#[derive(Debug, PartialEq)]
pub struct BasicBlock {
    /// The address of the first instruction.
    pub entry_addr: u64,
    /// Whether the block starts at the label of a function.
    pub is_label_entry: bool,
    /// The function that the block belongs to.
    pub function_name: String,
    pub insts: Vec<Inst>,
    /// The addresses of the blocks that may run next.
    pub successors: Vec<u64>,
    /// For each instruction in turn, the statement that models it.
    pub stmts: Vec<Stmt>,
}

/// The mathematical value of a [`BasicBlock`].
pub struct BasicBlockView {
    pub entry_addr: u64,
    pub is_label_entry: bool,
    pub function_name: Seq<char>,
    pub insts: Seq<InstView>,
    pub successors: Seq<u64>,
    pub stmts: Seq<StmtView>,
}

impl BasicBlockView {
    /// The last instruction of the block.
    pub open spec fn exit(self) -> Option<InstView> {
        if self.insts.len() > 0 {
            Some(self.insts.last())
        } else {
            None
        }
    }
}

impl View for BasicBlock {
    type V = BasicBlockView;

    open spec fn view(&self) -> BasicBlockView {
        BasicBlockView {
            entry_addr: self.entry_addr,
            is_label_entry: self.is_label_entry,
            function_name: self.function_name@,
            insts: inst_views(self.insts@),
            successors: self.successors@,
            stmts: plain_stmt_views(self.stmts@),
        }
    }
}

/// The views of a sequence of blocks.
pub open spec fn block_views(v: Seq<BasicBlock>) -> Seq<BasicBlockView> {
    Seq::new(v.len(), |i: int| v[i]@)
}

/// The index of the first block of `blocks` that starts at `addr`, or the
/// number of blocks where there is none.
pub open spec fn block_index(blocks: Seq<BasicBlockView>, addr: u64) -> int
    decreases blocks.len(),
{
    if blocks.len() == 0 || blocks[0].entry_addr == addr {
        0
    } else {
        1 + block_index(blocks.drop_first(), addr)
    }
}

/// The first block of `blocks` that starts at `addr`.
pub open spec fn block_at(blocks: Seq<BasicBlockView>, addr: u64) -> Option<BasicBlockView> {
    if block_index(blocks, addr) < blocks.len() {
        Some(blocks[block_index(blocks, addr)])
    } else {
        None
    }
}

/// Where a block is found: before it no block starts at the address.
pub proof fn lemma_block_index(blocks: Seq<BasicBlockView>, addr: u64)
    ensures
        0 <= block_index(blocks, addr) <= blocks.len(),
        block_index(blocks, addr) < blocks.len() ==> blocks[block_index(
            blocks,
            addr,
        )].entry_addr == addr,
        forall|j: int| 0 <= j < block_index(blocks, addr) ==> (#[trigger] blocks[j]).entry_addr != addr,
    decreases blocks.len(),
{
    if blocks.len() == 0 || blocks[0].entry_addr == addr {
    } else {
        let t = blocks.drop_first();
        lemma_block_index(t, addr);
        assert forall|j: int| 0 <= j < block_index(blocks, addr) implies (
        #[trigger] blocks[j]).entry_addr != addr by {
            if j > 0 {
                assert(blocks[j] == t[j - 1]);
            }
        }
    }
}

/// The index of the first block of `blocks` that starts at `addr`.
pub fn find_block(blocks: &Vec<BasicBlock>, addr: u64) -> (r: Option<usize>)
    ensures
        match r {
            Some(i) => i < blocks@.len() && i == block_index(block_views(blocks@), addr),
            None => block_index(block_views(blocks@), addr) == blocks@.len(),
        },
{
    let ghost all = block_views(blocks@);
    proof {
        lemma_block_index(all, addr);
    }
    let mut i: usize = 0;
    assert(all.skip(0) =~= all);
    while i < blocks.len()
        invariant
            i <= blocks.len(),
            all == block_views(blocks@),
            block_index(all, addr) == i + block_index(all.skip(i as int), addr),
        decreases blocks.len() - i,
    {
        assert(all.skip(i as int)[0] == blocks@[i as int]@);
        assert(all.skip(i as int).drop_first() =~= all.skip(i + 1));
        if blocks[i].entry_addr == addr {
            return Some(i);
        }
        i += 1;
    }
    None
}

/// The control-flow graph of one function: the blocks that can be reached
/// from its entry.
#[derive(Debug, PartialEq)]
pub struct Cfg {
    pub entry_addr: u64,
    pub nodes: Vec<BasicBlock>,
}

/// The mathematical value of a [`Cfg`].
pub struct CfgView {
    pub entry_addr: u64,
    pub nodes: Seq<BasicBlockView>,
}

impl CfgView {
    /// The block that starts at `addr`.
    pub open spec fn node(self, addr: u64) -> Option<BasicBlockView> {
        block_at(self.nodes, addr)
    }
}

impl View for Cfg {
    type V = CfgView;

    open spec fn view(&self) -> CfgView {
        CfgView { entry_addr: self.entry_addr, nodes: block_views(self.nodes@) }
    }
}

impl Cfg {
    /// The address of the function's entry.
    pub fn entry_addr(&self) -> (r: u64)
        ensures
            r == self@.entry_addr,
    {
        self.entry_addr
    }

    /// The blocks of the graph.
    pub fn nodes(&self) -> (r: &Vec<BasicBlock>)
        ensures
            block_views(r@) == self@.nodes,
    {
        &self.nodes
    }

    /// The block that starts at `addr`.
    pub fn node(&self, addr: u64) -> (r: Option<&BasicBlock>)
        ensures
            self@.node(addr) is Some ==> r is Some && r->0@ == self@.node(addr)->0,
            self@.node(addr) is None ==> r is None,
    {
        match find_block(&self.nodes, addr) {
            Some(i) => {
                assert(self@.nodes[i as int] == self.nodes@[i as int]@);
                Some(&self.nodes[i])
            },
            None => None,
        }
    }
}

} // verus!
