use riscverifier::cfg::{Inst, RegOperand};
use riscverifier::helpers::Error;
use riscverifier::lowering::{al_to_ir_stmt, mnemonic_form, InstCall, InstForm};
use riscverifier::memory::{DataMemoryAbstractor, NewVars};
use riscverifier::modifies::{infer_mod_set, ModSetMap};
use riscverifier::names::NameSet;
use riscverifier::propagation::{ConstMap, ConstantPropagator};
use riscverifier::veriv_ast::{BVOp, BoolOp, CompOp, Expr, Op, Stmt, Type, Var};

fn bv(w: u64) -> Type {
    Type::Bv { w }
}

fn reg(n: &str) -> Expr {
    Expr::var(n, bv(64))
}

fn lit(v: u64) -> Expr {
    Expr::bv_lit(v, 64)
}

fn mem(name: &str, out: u64) -> Expr {
    Expr::var(name, Type::Array { in_typs: vec![Box::new(bv(64))], out_typ: Box::new(bv(out)) })
}

fn bvop(o: BVOp, a: Expr, b: Expr) -> Expr {
    Expr::op_app(Op::Bv(o), vec![a, b])
}

fn assign(l: Expr, r: Expr) -> Stmt {
    Stmt::assign(vec![l], vec![r])
}

fn block(stmts: Vec<Stmt>) -> Stmt {
    Stmt::Block(stmts.into_iter().map(Box::new).collect())
}

#[test]
fn constant_map() {
    let mut m = ConstMap::new();
    assert_eq!(m.get("a"), None);
    m.insert("a".to_string(), 1);
    m.insert("b".to_string(), 2);
    m.insert("a".to_string(), 3);
    assert_eq!(m.get("a"), Some(3));
    assert_eq!(m.get("b"), Some(2));
    m.remove("a");
    assert_eq!(m.get("a"), None);
    assert_eq!(m.get("b"), Some(2));
    m.clear();
    assert_eq!(m.get("b"), None);
}

#[test]
fn folding_of_ir_expressions() {
    let f = |o: BVOp, a: u64, b: u64| ConstantPropagator::constant_fold(&bvop(o, lit(a), lit(b)));
    assert_eq!(f(BVOp::Add, 2, 3), lit(5));
    assert_eq!(f(BVOp::Sub, 0, 1), lit(u64::MAX));
    assert_eq!(f(BVOp::Mul, 3, 5), lit(15));
    assert_eq!(f(BVOp::And, 12, 10), lit(8));
    assert_eq!(f(BVOp::Or, 12, 10), lit(14));
    assert_eq!(f(BVOp::Xor, 12, 10), lit(6));
    assert_eq!(f(BVOp::LeftShift, 1, 3), lit(8));
    // A right shift is logical, an arithmetic right shift keeps the sign.
    assert_eq!(f(BVOp::RightShift, 1 << 63, 62), lit(2));
    assert_eq!(f(BVOp::ARightShift, 1 << 63, 62), lit(u64::MAX - 1));
    assert_eq!(f(BVOp::SignExt, 5, 8), Expr::bv_lit(5, 72));
    assert_eq!(f(BVOp::ZeroExt, 5, 0), Expr::bv_lit(5, 64));
    let slice = Expr::op_app(Op::Bv(BVOp::Slice { l: 7, r: 4 }), vec![lit(0xabc)]);
    assert_eq!(ConstantPropagator::constant_fold(&slice), Expr::bv_lit(0xb0, 4));
    // A slice that reaches the top bit keeps it.
    let top = Expr::op_app(Op::Bv(BVOp::Slice { l: 63, r: 60 }), vec![lit(0xf123 << 48)]);
    assert_eq!(ConstantPropagator::constant_fold(&top), Expr::bv_lit(0xf << 60, 4));
    let concat = bvop(BVOp::Concat, lit(1), lit(2));
    assert_eq!(ConstantPropagator::constant_fold(&concat), concat);
    let c = |o: CompOp, a: u64, b: u64| {
        ConstantPropagator::constant_fold(&Expr::op_app(Op::Comp(o), vec![lit(a), lit(b)]))
    };
    assert_eq!(c(CompOp::Equality, 1, 1), Expr::bool_lit(true));
    assert_eq!(c(CompOp::Inequality, 1, 1), Expr::bool_lit(false));
    // Minus one is below zero when signed, and above when unsigned.
    assert_eq!(c(CompOp::Lt, u64::MAX, 0), Expr::bool_lit(true));
    assert_eq!(c(CompOp::Ltu, u64::MAX, 0), Expr::bool_lit(false));
    assert_eq!(c(CompOp::Ge, u64::MAX, 0), Expr::bool_lit(false));
    assert_eq!(c(CompOp::Geu, u64::MAX, 0), Expr::bool_lit(true));
    assert_eq!(c(CompOp::Le, 5, 5), Expr::bool_lit(true));
    assert_eq!(c(CompOp::Gt, 6, 5), Expr::bool_lit(true));
    assert_eq!(c(CompOp::Leu, 6, 5), Expr::bool_lit(false));
    assert_eq!(c(CompOp::Gtu, 6, 5), Expr::bool_lit(true));
    let b = |o: BoolOp, x: bool, y: bool| {
        ConstantPropagator::constant_fold(&Expr::op_app(
            Op::Bool(o),
            vec![Expr::bool_lit(x), Expr::bool_lit(y)],
        ))
    };
    assert_eq!(b(BoolOp::Conj, true, true), Expr::bool_lit(true));
    assert_eq!(b(BoolOp::Conj, true, false), Expr::bool_lit(false));
    assert_eq!(b(BoolOp::Disj, false, false), Expr::bool_lit(false));
    assert_eq!(b(BoolOp::Disj, false, true), Expr::bool_lit(true));
    assert_eq!(b(BoolOp::Iff, false, false), Expr::bool_lit(true));
    assert_eq!(b(BoolOp::Impl, true, false), Expr::bool_lit(false));
    assert_eq!(b(BoolOp::Impl, false, false), Expr::bool_lit(true));
    let neg = Expr::op_app(Op::Bool(BoolOp::Neg), vec![Expr::bool_lit(true)]);
    assert_eq!(ConstantPropagator::constant_fold(&neg), Expr::bool_lit(false));
    // Variables stop the folding, which goes on below them.
    let partial = bvop(BVOp::Add, reg("a0"), bvop(BVOp::Add, lit(1), lit(1)));
    assert_eq!(ConstantPropagator::constant_fold(&partial), bvop(BVOp::Add, reg("a0"), lit(2)));
}

#[test]
fn constants_are_put_in_and_propagated() {
    let mut m = ConstMap::new();
    m.insert("a0".to_string(), 4);
    let e = bvop(BVOp::Add, reg("a0"), reg("a1"));
    assert_eq!(ConstantPropagator::constified_expr(&e, &m), bvop(BVOp::Add, lit(4), reg("a1")));
    assert_eq!(
        ConstantPropagator::try_make_constant(&bvop(BVOp::Add, reg("a0"), lit(1)), &m),
        lit(5)
    );
    let flag = Expr::var("flag", Type::Bool);
    m.insert("flag".to_string(), 1);
    assert_eq!(ConstantPropagator::constified_expr(&flag, &m), Expr::bool_lit(true));
    let r = ConstantPropagator::constant_propagate("a2".to_string(), &bvop(BVOp::Mul, reg("a0"), lit(3)), &mut m);
    assert_eq!(r, lit(12));
    assert_eq!(m.get("a2"), Some(12));
    let r2 = ConstantPropagator::constant_propagate("a3".to_string(), &reg("t0"), &mut m);
    assert_eq!(r2, reg("t0"));
    assert_eq!(m.get("a3"), None);
}

#[test]
fn propagation_through_a_block() {
    let body = block(vec![
        assign(reg("a0"), lit(0x1000)),
        assign(reg("a1"), bvop(BVOp::Add, reg("a0"), lit(8))),
        assign(
            Expr::op_app(Op::ArrayIndex, vec![mem("mem_d", 64), bvop(BVOp::Add, reg("a1"), lit(8))]),
            reg("a1"),
        ),
        assign(reg("a0"), reg("t0")),
        assign(reg("a2"), reg("a0")),
    ]);
    let mut m = ConstMap::new();
    let out = ConstantPropagator::visit_stmt(&body, &mut m);
    assert_eq!(
        out,
        block(vec![
            assign(reg("a0"), lit(0x1000)),
            assign(reg("a1"), lit(0x1008)),
            assign(Expr::op_app(Op::ArrayIndex, vec![mem("mem_d", 64), lit(0x1010)]), lit(0x1008)),
            assign(reg("a0"), reg("t0")),
            assign(reg("a2"), reg("a0")),
        ])
    );
    assert_eq!(m.get("a1"), Some(0x1008));
    assert_eq!(m.get("a0"), None);
}

#[test]
fn a_conditional_statement_forgets_everything() {
    let ite = Stmt::if_then_else(
        Expr::bool_lit(true),
        Box::new(block(vec![assign(reg("a0"), lit(2))])),
        None,
    );
    let body = block(vec![
        assign(reg("a0"), lit(1)),
        ite.clone(),
        assign(reg("a1"), reg("a0")),
    ]);
    let mut m = ConstMap::new();
    let out = ConstantPropagator::visit_stmt(&body, &mut m);
    assert_eq!(
        out,
        block(vec![assign(reg("a0"), lit(1)), ite, assign(reg("a1"), reg("a0"))])
    );
    assert_eq!(m.get("a0"), None);
}

#[test]
fn accesses_at_constant_addresses_become_variables() {
    let load = Expr::op_app(Op::ArrayIndex, vec![mem("mem_w", 32), lit(0x2000)]);
    let store = Expr::op_app(Op::ArrayIndex, vec![mem("mem_b", 8), lit(16)]);
    let unknown = Expr::op_app(Op::ArrayIndex, vec![mem("mem_d", 64), reg("a0")]);
    let other = Expr::op_app(Op::ArrayIndex, vec![mem("table", 64), lit(1)]);
    let body = block(vec![
        assign(reg("a0"), load),
        assign(store, reg("a1")),
        assign(reg("a2"), unknown.clone()),
        assign(reg("a3"), other.clone()),
    ]);
    let mut vars = NewVars::new();
    let out = DataMemoryAbstractor::visit_stmt(&body, &mut vars);
    assert_eq!(
        out,
        block(vec![
            assign(reg("a0"), Expr::var("mem_access_8192", bv(32))),
            assign(Expr::var("mem_access_16", bv(8)), reg("a1")),
            assign(reg("a2"), unknown),
            assign(reg("a3"), other),
        ])
    );
    // The variables come in the order in which the accesses are met.
    assert_eq!(
        vars.vars,
        vec![
            Var { name: "mem_access_8192".to_string(), typ: bv(32) },
            Var { name: "mem_access_16".to_string(), typ: bv(8) },
        ]
    );
    let mut more = NewVars::new();
    let h = Expr::op_app(Op::ArrayIndex, vec![mem("mem_h", 16), lit(2)]);
    let d = Expr::op_app(Op::ArrayIndex, vec![mem("mem_d", 64), lit(8)]);
    let nested = bvop(BVOp::Add, Expr::op_app(Op::Bv(BVOp::ZeroExt), vec![h, lit(48)]), d);
    let e = DataMemoryAbstractor::visit_expr(&nested, &mut more);
    assert_eq!(
        more.vars,
        vec![
            Var { name: "mem_access_2".to_string(), typ: bv(16) },
            Var { name: "mem_access_8".to_string(), typ: bv(64) },
        ]
    );
    assert_eq!(
        e,
        bvop(
            BVOp::Add,
            Expr::op_app(Op::Bv(BVOp::ZeroExt), vec![Expr::var("mem_access_2", bv(16)), lit(48)]),
            Expr::var("mem_access_8", bv(64))
        )
    );
}

fn names(v: &[&str]) -> NameSet {
    let mut s = NameSet::new();
    for n in v {
        s.insert(n);
    }
    s
}

#[test]
fn names_that_a_statement_may_write() {
    let mut map = ModSetMap::new();
    map.insert("callee".to_string(), names(&["t0", "mem_d"]));
    let body = block(vec![
        assign(reg("a0"), lit(1)),
        assign(Expr::op_app(Op::ArrayIndex, vec![mem("mem_w", 32), reg("a1")]), reg("a2")),
        Stmt::if_then_else(
            Expr::bool_lit(true),
            Box::new(block(vec![assign(reg("s1"), lit(0))])),
            Some(Box::new(block(vec![Stmt::func_call(
                "callee".to_string(),
                vec![reg("a5")],
                vec![reg("a6")],
            )]))),
        ),
        Stmt::func_call("stranger".to_string(), vec![], vec![]),
        Stmt::Assume(Expr::bool_lit(true)),
        Stmt::Comment("nothing".to_string()),
    ]);
    assert_eq!(
        infer_mod_set(&map, &body),
        names(&["a0", "a5", "mem_d", "mem_w", "pc", "returned", "s1", "t0"])
    );
    assert_eq!(infer_mod_set(&map, &Stmt::Comment("c".to_string())), names(&["pc", "returned"]));
    assert_eq!(map.get("callee"), Some(&names(&["mem_d", "t0"])));
    assert_eq!(map.get("nobody"), None);
}

fn operand(n: &str) -> Option<RegOperand> {
    Some(RegOperand { name: n.to_string(), offset: None })
}

fn inst(op: &str, rd: Option<RegOperand>, rs1: Option<RegOperand>, rs2: Option<RegOperand>, imm: Option<i64>) -> Inst {
    Inst {
        address: 0x100,
        function_name: "f".to_string(),
        op: op.to_string(),
        rd,
        rs1,
        rs2,
        csr: None,
        imm,
    }
}

#[test]
fn instructions_ask_for_their_templates() {
    let add = inst("add", operand("a0"), operand("a1"), operand("zero"), None);
    assert_eq!(
        al_to_ir_stmt(&add, 64),
        Ok(InstCall::Template { op: "add".to_string(), args: vec![reg("a0"), reg("a1"), lit(0)] })
    );
    let addi = inst("addi", operand("sp"), operand("sp"), None, Some(-16));
    assert_eq!(
        al_to_ir_stmt(&addi, 64),
        Ok(InstCall::Template {
            op: "addi".to_string(),
            args: vec![reg("sp"), reg("sp"), lit((-16i64) as u64)]
        })
    );
    let ld = inst(
        "ld",
        operand("a0"),
        Some(RegOperand { name: "sp".to_string(), offset: Some(8) }),
        None,
        None,
    );
    assert_eq!(
        al_to_ir_stmt(&ld, 64),
        Ok(InstCall::Template { op: "ld".to_string(), args: vec![reg("a0"), reg("sp"), lit(8)] })
    );
    let sd = inst(
        "sd",
        None,
        operand("a0"),
        Some(RegOperand { name: "sp".to_string(), offset: Some(-8) }),
        None,
    );
    assert_eq!(
        al_to_ir_stmt(&sd, 64),
        Ok(InstCall::Template {
            op: "sd".to_string(),
            args: vec![reg("a0"), reg("sp"), lit((-8i64) as u64)]
        })
    );
    let jal = inst("jal", operand("ra"), None, None, Some(0x80004d58));
    assert_eq!(
        al_to_ir_stmt(&jal, 64),
        Ok(InstCall::Template { op: "jal".to_string(), args: vec![reg("ra"), lit(0x80004d58)] })
    );
    let beq = inst("beq", None, operand("a0"), operand("a1"), Some(0x40));
    assert_eq!(
        al_to_ir_stmt(&beq, 32),
        Ok(InstCall::Template {
            op: "beq".to_string(),
            args: vec![
                Expr::var("a0", bv(32)),
                Expr::var("a1", bv(32)),
                Expr::bv_lit(0x40, 32)
            ]
        })
    );
    let ecall = inst("ecall", None, None, None, None);
    assert_eq!(al_to_ir_stmt(&ecall, 64), Ok(InstCall::Unimplemented { op: "ecall".to_string() }));
    let broken = inst("add", operand("a0"), operand("a1"), None, None);
    assert_eq!(al_to_ir_stmt(&broken, 64), Err(Error::MalformedInst(0x100)));
    let no_dst = inst("lui", None, None, None, Some(1));
    assert_eq!(al_to_ir_stmt(&no_dst, 64), Err(Error::MalformedInst(0x100)));
}

#[test]
fn every_mnemonic_has_its_form() {
    let three = [
        "add", "sub", "mul", "sll", "slt", "sltu", "xor", "srl", "sra", "or", "and", "addw",
        "subw", "sllw", "srlw", "sraw", "jalr", "lb", "lh", "lw", "lbu", "lhu", "addi", "slti",
        "sltiu", "xori", "ori", "andi", "slli", "srli", "srai", "lwu", "ld", "addiw", "slliw",
        "srliw", "sraiw",
    ];
    for m in three {
        assert_eq!(mnemonic_form(m), Some(InstForm::DstSrcSrc), "{}", m);
    }
    for m in ["sb", "sh", "sw", "sd", "beq", "bne", "blt", "bge", "bltu", "bgeu"] {
        assert_eq!(mnemonic_form(m), Some(InstForm::SrcSrcSrc), "{}", m);
    }
    for m in ["lui", "auipc", "jal"] {
        assert_eq!(mnemonic_form(m), Some(InstForm::DstSrc), "{}", m);
    }
    for m in ["ecall", "fence", "csrrw", "ADD", ""] {
        assert_eq!(mnemonic_form(m), None, "{}", m);
    }
}
