//! Instruction lowering: which statement template of the system model an
//! instruction asks for, and with which operands.

use crate::cfg::{Inst, InstView, RegOperand, RegOperandView};
use crate::helpers::{Error, ErrorView};
use crate::propagation::bv_lit;
use crate::sl_ast::i64_bits;
use crate::text::str_eq;
use crate::veriv_ast::{expr_views, Expr, ExprView, Type, TypeView, VarView};
use vstd::prelude::*;

verus! {

/// Which operands the template of a mnemonic takes.
#[derive(Debug, Clone, Copy, PartialEq, Eq, Structural)]
pub enum InstForm {
    /// The first destination and the first two sources.
    DstSrcSrc,
    /// The first three sources.
    SrcSrcSrc,
    /// The first destination and the first source.
    DstSrc,
}

/// What the system model is asked for one instruction.
#[derive(Debug, PartialEq, Eq)]
pub enum InstCall {
    /// The statement template of the mnemonic `op`, applied to `args` and
    /// the register width.
    Template { op: String, args: Vec<Expr> },
    /// The statement that stands for a mnemonic without a template.
    Unimplemented { op: String },
}

/// The mathematical value of an [`InstCall`].
pub enum InstCallView {
    Template { op: Seq<char>, args: Seq<ExprView> },
    Unimplemented { op: Seq<char> },
}

impl View for InstCall {
    type V = InstCallView;

    open spec fn view(&self) -> InstCallView {
        match self {
            InstCall::Template { op, args } => InstCallView::Template {
                op: op@,
                args: expr_views(args@),
            },
            InstCall::Unimplemented { op } => InstCallView::Unimplemented { op: op@ },
        }
    }
}

/// Whether the template of `op` takes a destination and two sources.
pub open spec fn takes_dst_src_src(op: Seq<char>) -> bool {
    op == "add"@ || op == "sub"@ || op == "mul"@ || op == "sll"@ || op == "slt"@ || op == "sltu"@
        || op == "xor"@ || op == "srl"@ || op == "sra"@ || op == "or"@ || op == "and"@ || op
        == "addw"@ || op == "subw"@ || op == "sllw"@ || op == "srlw"@ || op == "sraw"@ || op
        == "jalr"@ || op == "lb"@ || op == "lh"@ || op == "lw"@ || op == "lbu"@ || op == "lhu"@
        || op == "addi"@ || op == "slti"@ || op == "sltiu"@ || op == "xori"@ || op == "ori"@ || op
        == "andi"@ || op == "slli"@ || op == "srli"@ || op == "srai"@ || op == "lwu"@ || op
        == "ld"@ || op == "addiw"@ || op == "slliw"@ || op == "srliw"@ || op == "sraiw"@
}

/// Whether the template of `op` takes three sources.
pub open spec fn takes_src_src_src(op: Seq<char>) -> bool {
    op == "sb"@ || op == "sh"@ || op == "sw"@ || op == "sd"@ || op == "beq"@ || op == "bne"@ || op
        == "blt"@ || op == "bge"@ || op == "bltu"@ || op == "bgeu"@
}

/// Whether the template of `op` takes a destination and one source.
pub open spec fn takes_dst_src(op: Seq<char>) -> bool {
    op == "lui"@ || op == "auipc"@ || op == "jal"@
}

/// The operands that the template of the mnemonic `op` takes; `None` for a
/// mnemonic without a template.
pub open spec fn inst_form(op: Seq<char>) -> Option<InstForm> {
    if takes_dst_src_src(op) {
        Some(InstForm::DstSrcSrc)
    } else if takes_src_src_src(op) {
        Some(InstForm::SrcSrcSrc)
    } else if takes_dst_src(op) {
        Some(InstForm::DstSrc)
    } else {
        None
    }
}

/// The operands that the template of a mnemonic takes.
pub fn mnemonic_form(op: &str) -> (r: Option<InstForm>)
    ensures
        r == inst_form(op@),
{
    if str_eq(op, "add") || str_eq(op, "sub") || str_eq(op, "mul") || str_eq(op, "sll") || str_eq(
        op,
        "slt",
    ) || str_eq(op, "sltu") || str_eq(op, "xor") || str_eq(op, "srl") || str_eq(op, "sra")
        || str_eq(op, "or") || str_eq(op, "and") || str_eq(op, "addw") || str_eq(op, "subw")
        || str_eq(op, "sllw") || str_eq(op, "srlw") || str_eq(op, "sraw") || str_eq(op, "jalr")
        || str_eq(op, "lb") || str_eq(op, "lh") || str_eq(op, "lw") || str_eq(op, "lbu") || str_eq(
        op,
        "lhu",
    ) || str_eq(op, "addi") || str_eq(op, "slti") || str_eq(op, "sltiu") || str_eq(op, "xori")
        || str_eq(op, "ori") || str_eq(op, "andi") || str_eq(op, "slli") || str_eq(op, "srli")
        || str_eq(op, "srai") || str_eq(op, "lwu") || str_eq(op, "ld") || str_eq(op, "addiw")
        || str_eq(op, "slliw") || str_eq(op, "srliw") || str_eq(op, "sraiw") {
        Some(InstForm::DstSrcSrc)
    } else if str_eq(op, "sb") || str_eq(op, "sh") || str_eq(op, "sw") || str_eq(op, "sd")
        || str_eq(op, "beq") || str_eq(op, "bne") || str_eq(op, "blt") || str_eq(op, "bge")
        || str_eq(op, "bltu") || str_eq(op, "bgeu") {
        Some(InstForm::SrcSrcSrc)
    } else if str_eq(op, "lui") || str_eq(op, "auipc") || str_eq(op, "jal") {
        Some(InstForm::DstSrc)
    } else {
        None
    }
}

/// The variable that stands for a register of `xlen` bits.
pub open spec fn reg_var(name: Seq<char>, xlen: u64) -> ExprView {
    ExprView::Var(VarView { name, typ: TypeView::Bv { w: xlen } }, TypeView::Bv { w: xlen })
}

/// `acc` followed by the variable of a destination register, where there
/// is one.
pub open spec fn with_dst(acc: Seq<ExprView>, reg: Option<RegOperandView>, xlen: u64) -> Seq<
    ExprView,
> {
    match reg {
        Some(r) => acc.push(reg_var(r.name, xlen)),
        None => acc,
    }
}

/// `acc` followed by what is read of a source register, where there is
/// one: zero for the register `zero` and the register's variable for any
/// other, and after it the register's offset where it has one.
pub open spec fn with_src(acc: Seq<ExprView>, reg: Option<RegOperandView>, xlen: u64) -> Seq<
    ExprView,
> {
    match reg {
        Some(r) => {
            let a1 = acc.push(
                if r.name == "zero"@ {
                    bv_lit(0, xlen)
                } else {
                    reg_var(r.name, xlen)
                },
            );
            match r.offset {
                Some(o) => a1.push(bv_lit(i64_bits(o), xlen)),
                None => a1,
            }
        },
        None => acc,
    }
}

/// The destinations of an instruction: `rd`, then `csr`.
pub open spec fn dst_exprs(inst: InstView, xlen: u64) -> Seq<ExprView> {
    with_dst(with_dst(Seq::empty(), inst.rd, xlen), inst.csr, xlen)
}

/// The sources of an instruction: `rs1`, `rs2` and `csr` with their
/// offsets, then the immediate.
pub open spec fn src_exprs(inst: InstView, xlen: u64) -> Seq<ExprView> {
    let regs = with_src(
        with_src(with_src(Seq::empty(), inst.rs1, xlen), inst.rs2, xlen),
        inst.csr,
        xlen,
    );
    match inst.imm {
        Some(v) => regs.push(bv_lit(i64_bits(v), xlen)),
        None => regs,
    }
}

/// What the system model is asked for the instruction `inst`: the template
/// of its mnemonic on the operands that the template takes, or the
/// statement for a mnemonic without a template. An instruction that lacks
/// an operand that its template takes is an error.
pub open spec fn inst_call(inst: InstView, xlen: u64) -> Result<InstCallView, ErrorView> {
    let dsts = dst_exprs(inst, xlen);
    let srcs = src_exprs(inst, xlen);
    match inst_form(inst.op) {
        None => Ok(InstCallView::Unimplemented { op: inst.op }),
        Some(InstForm::DstSrcSrc) => if dsts.len() >= 1 && srcs.len() >= 2 {
            Ok(InstCallView::Template { op: inst.op, args: seq![dsts[0], srcs[0], srcs[1]] })
        } else {
            Err(ErrorView::MalformedInst(inst.address))
        },
        Some(InstForm::SrcSrcSrc) => if srcs.len() >= 3 {
            Ok(InstCallView::Template { op: inst.op, args: seq![srcs[0], srcs[1], srcs[2]] })
        } else {
            Err(ErrorView::MalformedInst(inst.address))
        },
        Some(InstForm::DstSrc) => if dsts.len() >= 1 && srcs.len() >= 1 {
            Ok(InstCallView::Template { op: inst.op, args: seq![dsts[0], srcs[0]] })
        } else {
            Err(ErrorView::MalformedInst(inst.address))
        },
    }
}

/// The number that an `i64` becomes when its bits are read as a `u64`.
pub fn bits_of(v: i64) -> (r: u64)
    ensures
        r == i64_bits(v),
{
    if v >= 0 {
        v as u64
    } else {
        u64::MAX - ((-(v + 1)) as u64)
    }
}

/// Adds the variable of a destination register.
fn push_dst(acc: &mut Vec<Expr>, reg: &Option<RegOperand>, xlen: u64)
    ensures
        expr_views(final(acc)@) == with_dst(expr_views(old(acc)@), opt_view(*reg), xlen),
{
    let ghost before = expr_views(acc@);
    match reg {
        Some(r) => {
            let e = Expr::var(r.name.as_str(), Type::Bv { w: xlen });
            acc.push(e);
            assert(expr_views(acc@) =~= before.push(e@));
        },
        None => {},
    }
}

/// The view of an optional register operand.
pub open spec fn opt_view(r: Option<RegOperand>) -> Option<RegOperandView> {
    crate::cfg::opt_reg_view(r)
}

/// Adds what is read of a source register.
fn push_src(acc: &mut Vec<Expr>, reg: &Option<RegOperand>, xlen: u64)
    ensures
        expr_views(final(acc)@) == with_src(expr_views(old(acc)@), opt_view(*reg), xlen),
{
    let ghost before = expr_views(acc@);
    match reg {
        Some(r) => {
            let e = if str_eq(r.name.as_str(), "zero") {
                Expr::bv_lit(0, xlen)
            } else {
                Expr::var(r.name.as_str(), Type::Bv { w: xlen })
            };
            acc.push(e);
            assert(expr_views(acc@) =~= before.push(e@));
            match r.offset {
                Some(o) => {
                    let ghost a1 = expr_views(acc@);
                    let l = Expr::bv_lit(bits_of(o), xlen);
                    acc.push(l);
                    assert(expr_views(acc@) =~= a1.push(l@));
                },
                None => {},
            }
        },
        None => {},
    }
}

/// Says what to ask of the system model for one instruction: the template
/// of the mnemonic and its operands. The sources are the registers `rs1`,
/// `rs2` and `csr`, with zero in place of the register `zero` and each
/// offset after its register, and then the immediate; the destinations are
/// `rd` and `csr`.
pub fn al_to_ir_stmt(al: &Inst, xlen: u64) -> (r: Result<InstCall, Error>)
    ensures
        match inst_call(al@, xlen) {
            Ok(c) => r is Ok && r->Ok_0@ == c,
            Err(e) => r is Err && r->Err_0@ == e,
        },
{
    let mut dsts: Vec<Expr> = Vec::new();
    assert(expr_views(dsts@) =~= Seq::<ExprView>::empty());
    push_dst(&mut dsts, &al.rd, xlen);
    push_dst(&mut dsts, &al.csr, xlen);
    let mut srcs: Vec<Expr> = Vec::new();
    assert(expr_views(srcs@) =~= Seq::<ExprView>::empty());
    push_src(&mut srcs, &al.rs1, xlen);
    push_src(&mut srcs, &al.rs2, xlen);
    push_src(&mut srcs, &al.csr, xlen);
    match al.imm {
        Some(v) => {
            let ghost regs = expr_views(srcs@);
            let l = Expr::bv_lit(bits_of(v), xlen);
            srcs.push(l);
            assert(expr_views(srcs@) =~= regs.push(l@));
        },
        None => {},
    }
    let ghost dv = expr_views(dsts@);
    let ghost sv = expr_views(srcs@);
    assert(dv == dst_exprs(al@, xlen));
    assert(sv == src_exprs(al@, xlen));
    match mnemonic_form(al.op.as_str()) {
        None => Ok(InstCall::Unimplemented { op: al.op.clone() }),
        Some(InstForm::DstSrcSrc) => {
            if dsts.len() >= 1 && srcs.len() >= 2 {
                let mut args: Vec<Expr> = Vec::new();
                args.push(dsts[0].clone());
                args.push(srcs[0].clone());
                args.push(srcs[1].clone());
                assert(expr_views(args@) =~= seq![dv[0], sv[0], sv[1]]);
                Ok(InstCall::Template { op: al.op.clone(), args })
            } else {
                Err(Error::MalformedInst(al.address))
            }
        },
        Some(InstForm::SrcSrcSrc) => {
            if srcs.len() >= 3 {
                let mut args: Vec<Expr> = Vec::new();
                args.push(srcs[0].clone());
                args.push(srcs[1].clone());
                args.push(srcs[2].clone());
                assert(expr_views(args@) =~= seq![sv[0], sv[1], sv[2]]);
                Ok(InstCall::Template { op: al.op.clone(), args })
            } else {
                Err(Error::MalformedInst(al.address))
            }
        },
        Some(InstForm::DstSrc) => {
            if dsts.len() >= 1 && srcs.len() >= 1 {
                let mut args: Vec<Expr> = Vec::new();
                args.push(dsts[0].clone());
                args.push(srcs[0].clone());
                assert(expr_views(args@) =~= seq![dv[0], sv[0]]);
                Ok(InstCall::Template { op: al.op.clone(), args })
            } else {
                Err(Error::MalformedInst(al.address))
            }
        },
    }
}

} // verus!
