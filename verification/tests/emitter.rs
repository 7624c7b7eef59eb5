use riscverifier::dwarf::{DwarfCtx, DwarfFuncSig, DwarfTypeDefn, DwarfVar, StructField};
use riscverifier::names::NameSet;
use riscverifier::sl_ast::{BExpr, BoolOp as SBoolOp, CompOp as SCompOp, Spec, VExpr, VType, ValueOp};
use riscverifier::uclidinterface::Uclid5Interface;
use riscverifier::veriv_ast::{
    Assign, BVOp, BoolOp, CompOp, Expr, FuncModel, IfThenElse, Literal, Model, Op, Stmt, Type, Var,
};

type U5I = Uclid5Interface;

fn bv(w: u64) -> Type {
    Type::Bv { w }
}

fn reg(n: &str) -> Expr {
    Expr::var(n, bv(64))
}

fn lit(v: u64) -> Expr {
    Expr::bv_lit(v, 64)
}

fn names(v: &[&str]) -> NameSet {
    let mut s = NameSet::new();
    for n in v {
        s.insert(n);
    }
    s
}

#[test]
fn literals_and_types() {
    assert_eq!(U5I::lit_to_string(&Literal::Bv { val: 5, width: 32 }), "5bv32");
    // The value of a bit-vector is written as a signed number.
    assert_eq!(U5I::lit_to_string(&Literal::Bv { val: u64::MAX, width: 64 }), "-1bv64");
    assert_eq!(U5I::lit_to_string(&Literal::Bv { val: 1 << 63, width: 64 }), "-9223372036854775808bv64");
    assert_eq!(U5I::lit_to_string(&Literal::Bool { val: true }), "true");
    assert_eq!(U5I::lit_to_string(&Literal::Bool { val: false }), "false");
    assert_eq!(U5I::lit_to_string(&Literal::Int { val: 42 }), "42");
    assert_eq!(U5I::typ_to_string(&Type::Bool), "boolean");
    assert_eq!(U5I::typ_to_string(&Type::Int), "integer");
    assert_eq!(U5I::typ_to_string(&bv(64)), "bv64");
    let arr = Type::Array { in_typs: vec![Box::new(bv(64)), Box::new(Type::Int)], out_typ: Box::new(bv(8)) };
    assert_eq!(U5I::typ_to_string(&arr), "[bv64, integer]bv8");
    assert!(U5I::typ_is_printable(&arr));
    assert!(!U5I::typ_is_printable(&Type::Unknown));
    assert!(!U5I::typ_is_printable(&Type::Struct { id: "s".to_string(), fields: vec![], w: 0 }));
    assert!(!U5I::typ_is_printable(&Type::Array {
        in_typs: vec![Box::new(Type::Unknown)],
        out_typ: Box::new(bv(8))
    }));
}

#[test]
fn operator_texts() {
    let x = || Some("x".to_string());
    let y = || Some("y".to_string());
    assert_eq!(U5I::comp_app_to_string(&CompOp::Equality, x(), y()), "(x == y)");
    assert_eq!(U5I::comp_app_to_string(&CompOp::Inequality, x(), y()), "(x != y)");
    assert_eq!(U5I::comp_app_to_string(&CompOp::Lt, x(), y()), "(x < y)");
    assert_eq!(U5I::comp_app_to_string(&CompOp::Le, x(), y()), "(x <= y)");
    assert_eq!(U5I::comp_app_to_string(&CompOp::Gt, x(), y()), "(x > y)");
    assert_eq!(U5I::comp_app_to_string(&CompOp::Ge, x(), y()), "(x >= y)");
    assert_eq!(U5I::comp_app_to_string(&CompOp::Ltu, x(), y()), "(x <_u y)");
    assert_eq!(U5I::comp_app_to_string(&CompOp::Leu, x(), y()), "(x <=_u y)");
    assert_eq!(U5I::comp_app_to_string(&CompOp::Gtu, x(), y()), "(x >_u y)");
    assert_eq!(U5I::comp_app_to_string(&CompOp::Geu, x(), y()), "(x >=_u y)");
    assert_eq!(U5I::bv_app_to_string(&BVOp::Add, x(), y()), "(x + y)");
    assert_eq!(U5I::bv_app_to_string(&BVOp::Sub, x(), y()), "(x - y)");
    assert_eq!(U5I::bv_app_to_string(&BVOp::Mul, x(), y()), "(x * y)");
    assert_eq!(U5I::bv_app_to_string(&BVOp::And, x(), y()), "(x & y)");
    assert_eq!(U5I::bv_app_to_string(&BVOp::Or, x(), y()), "(x | y)");
    assert_eq!(U5I::bv_app_to_string(&BVOp::Xor, x(), y()), "(x ^ y)");
    assert_eq!(U5I::bv_app_to_string(&BVOp::Concat, x(), y()), "(x ++ y)");
    assert_eq!(U5I::bv_app_to_string(&BVOp::LeftShift, x(), y()), "bv_left_shift(y, x)");
    assert_eq!(U5I::bv_app_to_string(&BVOp::RightShift, x(), y()), "bv_l_right_shift(y, x)");
    assert_eq!(U5I::bv_app_to_string(&BVOp::ARightShift, x(), y()), "bv_a_right_shift(y, x)");
    assert_eq!(U5I::bv_app_to_string(&BVOp::Slice { l: 31, r: 0 }, x(), None), "x[31:0]");
    let w = |s: &str| Some(s.to_string());
    assert_eq!(U5I::bv_app_to_string(&BVOp::SignExt, x(), w("32bv64")), "bv_sign_extend(32, x)");
    assert_eq!(U5I::bv_app_to_string(&BVOp::ZeroExt, x(), w("8bv64")), "bv_zero_extend(8, x)");
    // An extension by no bits is not written.
    assert_eq!(U5I::bv_app_to_string(&BVOp::SignExt, x(), w("0bv64")), "x");
    assert_eq!(U5I::bv_app_to_string(&BVOp::ZeroExt, x(), w("0bv64")), "x");
    assert_eq!(U5I::bv_app_to_string(&BVOp::ZeroExt, x(), w("n")), "bv_zero_extend(n, x)");
    assert_eq!(U5I::bool_app_to_string(&BoolOp::Conj, x(), y()), "(x && y)");
    assert_eq!(U5I::bool_app_to_string(&BoolOp::Disj, x(), y()), "(x || y)");
    assert_eq!(U5I::bool_app_to_string(&BoolOp::Iff, x(), y()), "(x <==> y)");
    assert_eq!(U5I::bool_app_to_string(&BoolOp::Impl, x(), y()), "(x ==> y)");
    assert_eq!(U5I::bool_app_to_string(&BoolOp::Neg, x(), None), "!x");
    assert_eq!(U5I::array_index_to_string("m".to_string(), "i".to_string()), "m[i]");
    assert_eq!(U5I::get_field_to_string("s".to_string(), "f".to_string()), "s.f");
}

#[test]
fn expression_texts() {
    let mem = Expr::var("mem_d", Type::Array { in_typs: vec![Box::new(bv(64))], out_typ: Box::new(bv(64)) });
    let e = Expr::op_app(
        Op::Bv(BVOp::Add),
        vec![Expr::op_app(Op::ArrayIndex, vec![mem, reg("sp")]), lit(8)],
    );
    assert!(U5I::is_renderable(&e));
    assert_eq!(U5I::expr_to_string(&e, &64), "(mem_d[sp] + 8bv64)");
    let ext = Expr::op_app(Op::Bv(BVOp::SignExt), vec![Expr::var("a", bv(32)), lit(32)]);
    assert_eq!(U5I::expr_to_string(&ext, &64), "bv_sign_extend(32, a)");
    let f = Expr::func_app("f".to_string(), vec![reg("a0"), lit(1)], bv(64));
    assert_eq!(U5I::expr_to_string(&f, &64), "f(a0, 1bv64)");
    assert_eq!(U5I::fapp_to_string(&f, &64), "f(a0, 1bv64)");
    let g = Expr::func_app("g".to_string(), vec![], bv(64));
    assert_eq!(U5I::expr_to_string(&g, &64), "g()");
    let short = Expr::OpApp(
        riscverifier::veriv_ast::OpApp { op: Op::Comp(CompOp::Lt), operands: vec![reg("a0")] },
        Type::Bool,
    );
    assert!(!U5I::is_renderable(&short));
    assert_eq!(U5I::var_to_string(&Var { name: "x".to_string(), typ: bv(1) }), "x");
}

#[test]
fn statement_texts() {
    let call = riscverifier::veriv_ast::FuncCall {
        func_name: "pmp.set".to_string(),
        lhs: vec![reg("a0")],
        operands: vec![reg("zero"), reg("a1")],
    };
    assert_eq!(U5I::func_call_to_string(&call, &64), "call (a0) = pmp_set(0bv64, a1);");
    let bare = riscverifier::veriv_ast::FuncCall {
        func_name: "bb_0x10".to_string(),
        lhs: vec![],
        operands: vec![],
    };
    assert_eq!(U5I::func_call_to_string(&bare, &64), "call () = bb_0x10();");
    let assign = Assign { lhs: vec![reg("a"), reg("b")], rhs: vec![lit(1), lit(2)] };
    assert_eq!(U5I::assign_to_string(&assign, &64), "a, b = 1bv64, 2bv64;");
    assert_eq!(U5I::assume_to_string(&Expr::bool_lit(true), &64), "assume (true);");
    assert_eq!(U5I::assert_to_string(&Expr::bool_lit(false), &64), "assert (false);");
    assert_eq!(U5I::havoc_to_string(&Var { name: "x".to_string(), typ: bv(1) }), "havoc x;");
    assert_eq!(U5I::skip_to_string(), "");
    assert_eq!(U5I::comment_to_string(&"note".to_string()), "// note\n");
    let blk = Stmt::Block(vec![
        Box::new(Stmt::Assign(assign.clone())),
        Box::new(Stmt::Assume(Expr::bool_lit(true))),
    ]);
    assert_eq!(U5I::block_to_string(&blk, &64), "{\n    a, b = 1bv64, 2bv64;\n    assume (true);\n}");
    assert_eq!(U5I::stmt_to_string(&blk, &64), "{\n    a, b = 1bv64, 2bv64;\n    assume (true);\n}");
    assert_eq!(U5I::block_to_string(&Stmt::Block(vec![]), &64), "{\n    \n}");
    let ite = IfThenElse {
        cond: Expr::op_app(Op::Comp(CompOp::Equality), vec![reg("pc"), lit(16)]),
        then_stmt: Box::new(blk.clone()),
        else_stmt: None,
    };
    assert_eq!(
        U5I::ite_to_string(&ite, &64),
        "if ((pc == 16bv64)) {\n    {\n        a, b = 1bv64, 2bv64;\n        assume (true);\n    }\n}"
    );
    let ite2 = Stmt::if_then_else(
        Expr::bool_lit(true),
        Box::new(Stmt::Assume(Expr::bool_lit(true))),
        Some(Box::new(Stmt::Assume(Expr::bool_lit(false)))),
    );
    assert_eq!(
        U5I::stmt_to_string(&ite2, &64),
        "if (true) {\n    assume (true);\n}else {\n    assume (false);\n}"
    );
    assert!(U5I::stmt_is_renderable(&ite2));
}

#[test]
fn multiplication_by_shifts() {
    assert_eq!(U5I::multiply_expr(&0, "index", &64), "");
    assert_eq!(U5I::multiply_expr(&1, "index", &64), "bv_left_shift(0bv64, index)");
    assert_eq!(U5I::multiply_expr(&4, "index", &64), "bv_left_shift(2bv64, index)");
    assert_eq!(
        U5I::multiply_expr(&5, "i", &32),
        "bv_left_shift(2bv32, i) + bv_left_shift(0bv32, i)"
    );
    assert_eq!(
        U5I::multiply_expr(&12, "index", &64),
        "bv_left_shift(3bv64, index) + bv_left_shift(2bv64, index)"
    );
    assert_eq!(U5I::multiply_expr(&(1 << 63), "x", &64), "bv_left_shift(63bv64, x)");
    assert_eq!(U5I::array_index_macro_name(&16), "index_by_16");
    assert_eq!(
        U5I::gen_array_defn(&4, &64),
        "define index_by_4(base: bv64, index: bv64): bv64 = base + bv_left_shift(2bv64, index);"
    );
    assert_eq!(
        U5I::gen_array_defn(&1, &64),
        "define index_by_1(base: bv64, index: bv64): bv64 = base + index;"
    );
    assert_eq!(U5I::extend_to_match_width("x", 32, 64), "bv_zero_extend(32, x)");
    assert_eq!(U5I::extend_to_match_width("x", 64, 64), "x");
}

fn pair() -> DwarfTypeDefn {
    DwarfTypeDefn::Struct {
        id: "pair".to_string(),
        fields: vec![
            StructField { name: "snd".to_string(), typ: DwarfTypeDefn::Primitive { bytes: 16 }, loc: 4 },
            StructField { name: "fst".to_string(), typ: DwarfTypeDefn::Primitive { bytes: 4 }, loc: 0 },
        ],
        bytes: 20,
    }
}

fn dwarf() -> DwarfCtx {
    DwarfCtx {
        xlen: 64,
        global_vars: vec![
            DwarfVar { name: "zeta".to_string(), memory_addr: 0x3000, typ_defn: pair() },
            DwarfVar {
                name: "alpha".to_string(),
                memory_addr: 0x1000,
                typ_defn: DwarfTypeDefn::Array {
                    in_typ: Box::new(DwarfTypeDefn::Primitive { bytes: 8 }),
                    out_typ: Box::new(DwarfTypeDefn::Primitive { bytes: 4 }),
                    bytes: 64,
                },
            },
        ],
        func_sigs: vec![DwarfFuncSig {
            name: "f".to_string(),
            args: vec![DwarfVar {
                name: "p".to_string(),
                memory_addr: 0,
                typ_defn: DwarfTypeDefn::Pointer { value_typ: Box::new(pair()), bytes: 8 },
            }],
            ret_type: Some(DwarfTypeDefn::Primitive { bytes: 1 }),
        }],
    }
}

#[test]
fn index_macros_come_in_ascending_order_of_size() {
    let text = U5I::gen_array_defns(&dwarf(), &64);
    let expected = [
        "    // Array helpers",
        "    define index_by_1(base: bv64, index: bv64): bv64 = base + index;",
        "    define index_by_4(base: bv64, index: bv64): bv64 = base + bv_left_shift(2bv64, index);",
        "    define index_by_8(base: bv64, index: bv64): bv64 = base + bv_left_shift(3bv64, index);",
        "    define index_by_16(base: bv64, index: bv64): bv64 = base + bv_left_shift(4bv64, index);",
        "    define index_by_20(base: bv64, index: bv64): bv64 = base + bv_left_shift(4bv64, index) + bv_left_shift(2bv64, index);",
    ]
    .join("\n");
    assert_eq!(text, expected);
}

#[test]
fn field_and_global_macros_are_sorted() {
    assert_eq!(U5I::get_field_macro_name("ctx", &"a0".to_string()), "ctx_a0");
    let text = U5I::gen_struct_defns(&dwarf(), &64);
    // The argument of `f` points to a pair: pointers are not followed.
    let expected = [
        "    // Struct helpers",
        "    define pair_fst(ptr: bv64): bv64 = ptr + 0bv64;",
        "    define pair_snd(ptr: bv64): bv64 = ptr + 4bv64;",
    ]
    .join("\n");
    assert_eq!(text, expected);
    assert_eq!(
        U5I::gen_global_defn(&dwarf().global_vars[0], &64),
        "define global_var_zeta(): bv64 = 12288bv64;"
    );
    assert_eq!(
        U5I::gen_global_defns(&dwarf(), &64),
        "    // Global variables\n    define global_var_alpha(): bv64 = 4096bv64;\n    define global_var_zeta(): bv64 = 12288bv64;\n    "
    );
    assert_eq!(U5I::gen_global_func_defn("main", 64, &64), "define global_func_main(): bv64 = 64bv64;");
}

fn small_model() -> Model {
    let mut m = Model::new("main");
    m.add_var(Var { name: "pc".to_string(), typ: bv(64) });
    m.add_var(Var { name: "a0".to_string(), typ: bv(64) });
    m.add_var(Var {
        name: "mem_b".to_string(),
        typ: Type::Array { in_typs: vec![Box::new(bv(64))], out_typ: Box::new(bv(8)) },
    });
    let body = Stmt::Block(vec![Box::new(Stmt::assign(vec![reg("a0")], vec![lit(1)]))]);
    m.add_func_model(FuncModel::new(
        "bb_0x10",
        16,
        vec![],
        None,
        None,
        None,
        None,
        Some(names(&["returned", "pc", "a0"])),
        body,
        true,
    ));
    let pre = Spec::Requires(BExpr::COpApp(
        SCompOp::Ltu,
        vec![
            VExpr::Ident("a0".to_string(), VType::Bv(64)),
            VExpr::Bv { value: 10, typ: VType::Bv(64) },
        ],
    ));
    let post = Spec::Ensures(BExpr::Bool(true));
    m.add_func_model(FuncModel::new(
        "f",
        16,
        vec![reg("x")],
        Some(bv(64)),
        Some(vec![pre]),
        Some(vec![post]),
        None,
        None,
        Stmt::Block(vec![]),
        false,
    ));
    m
}

#[test]
fn variables_and_procedures() {
    let m = small_model();
    assert_eq!(U5I::var_decl(&m.vars[0]), "a0: bv64");
    assert_eq!(
        U5I::gen_var_defns(&m),
        "// RISC-V system state variables\nvar a0: bv64;\nvar mem_b: [bv64]bv8;\nvar pc: bv64;"
    );
    // The declarations come in the order of the names, whatever the order
    // of the variables in the model.
    let mut mixed = Model::new("m");
    mixed.vars = vec![
        Var { name: "pc".to_string(), typ: bv(64) },
        Var { name: "a1".to_string(), typ: bv(8) },
        Var { name: "zero".to_string(), typ: bv(64) },
        Var { name: "a0".to_string(), typ: bv(64) },
        Var { name: "a1".to_string(), typ: bv(16) },
    ];
    assert_eq!(
        U5I::gen_var_defns(&mixed),
        "// RISC-V system state variables\nvar a0: bv64;\nvar a1: bv8;\nvar a1: bv16;\nvar pc: bv64;\nvar zero: bv64;"
    );
    assert_eq!(
        U5I::func_model_to_string(&m.func_models[0], &64),
        "procedure [inline] bb_0x10()\n    modifies a0, pc, returned;\n{\n    a0 = 1bv64;\n}\n\n"
    );
    assert_eq!(
        U5I::specs_to_string(&m.func_models[1].sig, &64),
        "\n    requires (a0 <_u 10bv64);\n    ensures (true);"
    );
    assert_eq!(
        U5I::func_model_to_string(&m.func_models[1], &64),
        "procedure f(x: bv64) returns (ret: bv64)\n    requires (a0 <_u 10bv64);\n    ensures (true);\n{\n    \n}\n\n"
    );
    assert!(U5I::can_emit(&m));
    let mut bad = small_model();
    bad.add_var(Var { name: "u".to_string(), typ: Type::Unknown });
    assert!(!U5I::can_emit(&bad));
}

#[test]
fn control_block() {
    let m = small_model();
    let d = dwarf();
    let solver = "        set_solver_option(\":mbqi\", false);\n        set_solver_option(\":case_split\", 0);\n        set_solver_option(\":relevancy\", 0);\n        set_solver_option(\":blast_full\", true);";
    // Without a list of functions, the functions that the debugging
    // information knows are verified.
    assert_eq!(
        U5I::control_blk(&m, &d, &NameSet::new(), &vec![]),
        format!("    control {{\n{}\n        ff = verify(f);\n        check;\n        print_results;\n    }}", solver)
    );
    // An ignored function leaves an empty line.
    assert_eq!(
        U5I::control_blk(&m, &d, &names(&["f"]), &vec![]),
        format!("    control {{\n{}\n        \n        check;\n        print_results;\n    }}", solver)
    );
    assert_eq!(
        U5I::control_blk(&m, &d, &names(&["f"]), &vec!["g".to_string(), "h".to_string()]),
        format!("    control {{\n{}\n        fg = verify(g);\n        fh = verify(h);\n        check;\n        print_results;\n    }}", solver)
    );
}

#[test]
fn emitter_determinism_scenario() {
    let m = small_model();
    let d = dwarf();
    let one = U5I::model_to_string(&64, &m, &d, &NameSet::new(), &vec![], "// prelude");
    let two = U5I::model_to_string(&64, &small_model(), &dwarf(), &NameSet::new(), &vec![], "// prelude");
    assert_eq!(one, two);
    let lines: Vec<&str> = one.lines().collect();
    assert_eq!(lines[0], "module main {");
    assert_eq!(lines[1], "    type xlen_t = bv64;");
    assert_eq!(lines[2], "    define to_xlen_t(x: bv64): xlen_t = x[63:0];");
    assert_eq!(lines[3], "// prelude");
    assert_eq!(lines[4], "    // RISC-V system state variables");
    assert_eq!(lines[5], "    var a0: bv64;");
    assert_eq!(lines[6], "    var mem_b: [bv64]bv8;");
    assert_eq!(lines[7], "    var pc: bv64;");
    assert_eq!(lines[8], "    // Array helpers");
    assert_eq!(*lines.last().unwrap(), "}");
    let pos = |needle: &str| one.find(needle).unwrap_or_else(|| panic!("{} is missing", needle));
    assert!(pos("index_by_1(") < pos("index_by_4("));
    assert!(pos("index_by_4(") < pos("index_by_8("));
    assert!(pos("index_by_8(") < pos("index_by_16("));
    assert!(pos("index_by_16(") < pos("index_by_20("));
    assert!(pos("define pair_fst") < pos("define pair_snd"));
    assert!(pos("global_var_alpha") < pos("global_var_zeta"));
    assert!(pos("global_func_bb_0x10") < pos("global_func_f"));
    assert!(pos("// Struct helpers") < pos("// Global variables"));
    assert!(pos("// Global function entry addresses") < pos("procedure [inline] bb_0x10"));
    assert!(pos("procedure f(") < pos("control {"));
}

#[test]
fn conditions_of_contracts() {
    let a0 = VExpr::Ident("a0".to_string(), VType::Bv(64));
    let ten = VExpr::Bv { value: 10, typ: VType::Bv(64) };
    let sum = VExpr::OpApp(ValueOp::Add, vec![a0.clone(), ten.clone()], VType::Bv(64));
    assert_eq!(U5I::vexpr_to_string(&sum, 64), "(a0 + 10bv64)");
    let shl = VExpr::OpApp(ValueOp::LeftShift, vec![a0.clone(), ten.clone()], VType::Bv(64));
    assert_eq!(U5I::vexpr_to_string(&shl, 64), "bv_left_shift(10bv64, a0)");
    let sra = VExpr::OpApp(ValueOp::RightShift, vec![a0.clone(), ten.clone()], VType::Bv(64));
    assert_eq!(U5I::vexpr_to_string(&sra, 64), "bv_a_right_shift(10bv64, a0)");
    let srl = VExpr::OpApp(ValueOp::URightShift, vec![a0.clone(), ten.clone()], VType::Bv(64));
    assert_eq!(U5I::vexpr_to_string(&srl, 64), "bv_l_right_shift(10bv64, a0)");
    // A slice that ends before bit 8 names bit 7 as its highest.
    let slice = VExpr::OpApp(ValueOp::Slice { lo: 0, hi: 8 }, vec![a0.clone()], VType::Bv(8));
    assert_eq!(U5I::vexpr_to_string(&slice, 64), "a0[7:0]");
    let deref = VExpr::OpApp(ValueOp::Deref, vec![a0.clone()], VType::Bv(32));
    assert_eq!(U5I::vexpr_to_string(&deref, 64), "mem_w[a0]");
    let arr = VExpr::Bv {
        value: 4096,
        typ: VType::Array { in_type: Box::new(VType::Bv(64)), out_type: Box::new(VType::Bv(32)) },
    };
    let idx = VExpr::OpApp(ValueOp::ArrayIndex, vec![arr, a0.clone()], VType::Bv(32));
    assert_eq!(U5I::vexpr_to_string(&idx, 64), "index_by_4(4096bv64, a0)");
    let st = VExpr::Ident(
        "p".to_string(),
        VType::Struct { id: "pair".to_string(), fields: vec![], size: 96 },
    );
    let get = VExpr::OpApp(
        ValueOp::GetField,
        vec![st, VExpr::Ident("fst".to_string(), VType::Bv(32))],
        VType::Bv(32),
    );
    assert_eq!(U5I::vexpr_to_string(&get, 64), "pair_fst(p)");
    let old = VExpr::FuncApp("old".to_string(), vec![a0.clone()], VType::Bv(64));
    assert_eq!(U5I::vexpr_to_string(&old, 64), "old(a0)");
    assert_eq!(U5I::vexpr_to_string(&VExpr::Int(-3, VType::Int), 64), "-3");
    assert_eq!(U5I::vexpr_to_string(&VExpr::Bool(true, VType::Bool), 64), "true");
    let lt = BExpr::COpApp(SCompOp::Lt, vec![a0.clone(), ten.clone()]);
    let ne = BExpr::COpApp(SCompOp::Nequal, vec![a0.clone(), ten.clone()]);
    assert_eq!(U5I::bexpr_to_string(&lt, 64), "a0 < 10bv64");
    let conj = BExpr::BOpApp(SBoolOp::Conj, vec![lt.clone(), ne.clone(), BExpr::Bool(true)]);
    assert_eq!(U5I::bexpr_to_string(&conj, 64), "a0 < 10bv64 && a0 != 10bv64 && true");
    let imp = BExpr::BOpApp(SBoolOp::Implies, vec![lt.clone(), ne.clone()]);
    assert_eq!(U5I::bexpr_to_string(&imp, 64), "a0 < 10bv64 ==> a0 != 10bv64");
    let neg = BExpr::BOpApp(SBoolOp::Neg, vec![BExpr::Bool(false)]);
    assert_eq!(U5I::bexpr_to_string(&neg, 64), "!false");
    let all = BExpr::BOpApp(
        SBoolOp::Forall(VExpr::Ident("i".to_string(), VType::Unknown), VType::Bv(64)),
        vec![lt.clone()],
    );
    assert_eq!(U5I::bexpr_to_string(&all, 64), "(forall (i: bv64) :: a0 < 10bv64)");
    assert_eq!(U5I::cop_to_string(&SCompOp::Geu), ">=_u");
    assert_eq!(U5I::valueop_to_string(&ValueOp::BvXor), "^");
    assert_eq!(U5I::vexpr_bv_to_string(&7, &VType::Bv(3), 64), "7bv3");
    assert_eq!(U5I::vexpr_int_to_string(&5), "5");
    assert_eq!(U5I::vexpr_bool_to_string(&false), "false");
    assert_eq!(U5I::bexpr_bool_to_string(&true), "true");
    assert_eq!(U5I::vexpr_ident_to_string(&"x".to_string()), "x");
}

#[test]
fn connective_symbols_and_memory_reads() {
    assert_eq!(U5I::bopp_to_string(&SBoolOp::Conj), "&&");
    assert_eq!(U5I::bopp_to_string(&SBoolOp::Disj), "||");
    assert_eq!(U5I::bopp_to_string(&SBoolOp::Neg), "!");
    assert_eq!(U5I::bopp_to_string(&SBoolOp::Implies), "==>");
    assert_eq!(
        U5I::bopp_to_string(&SBoolOp::Forall(VExpr::Ident("i".to_string(), VType::Int), VType::Int)),
        "forall"
    );
    assert_eq!(
        U5I::bopp_to_string(&SBoolOp::Exists(VExpr::Ident("i".to_string(), VType::Int), VType::Int)),
        "exists"
    );
    assert_eq!(U5I::deref_app_to_string(4, "a0".to_string(), false), "deref_4((mem), a0)");
    assert_eq!(U5I::deref_app_to_string(8, "sp".to_string(), true), "deref_8(old(mem), sp)");
}
