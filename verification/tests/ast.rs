use riscverifier::dwarf::{DwarfCtx, DwarfFuncSig, DwarfTypeDefn, DwarfVar};
use riscverifier::helpers::Error;
use riscverifier::names::NameSet;
use riscverifier::sl_ast::{BExpr, CompOp as SCompOp, Spec, VExpr, VField, VType, ValueOp};
use riscverifier::veriv_ast::{
    BVOp, BoolOp, CompOp, Expr, Field, FuncModel, Literal, Model, Op, Stmt, Type, Var,
};

fn bv(w: u64) -> Type {
    Type::Bv { w }
}

#[test]
fn type_constructors_and_getters() {
    assert_eq!(Type::mk_unknown_type(), Type::Unknown);
    assert_eq!(Type::mk_bool_type(), Type::Bool);
    assert_eq!(Type::mk_int_type(), Type::Int);
    assert_eq!(Type::mk_bv_type(64), bv(64));
    let arr = Type::mk_array_type(vec![Box::new(bv(64))], Box::new(bv(8)));
    assert_eq!(arr.get_array_out_type(), &bv(8));
    let st = Type::mk_struct_type(
        "ctx".to_string(),
        vec![Field { name: "a0".to_string(), typ: bv(64) }],
        128,
    );
    assert_eq!(st.get_struct_id(), "ctx");
    assert_eq!(st.get_expect_bv_width(), 128);
    assert_eq!(bv(32).get_expect_bv_width(), 32);
    assert!(arr.equals(&arr.clone()));
    assert!(!arr.equals(&st));
    assert_eq!(st.clone(), st);
}

#[test]
fn expression_constructors_and_getters() {
    let lit = Expr::bv_lit(5, 32);
    assert_eq!(lit, Expr::Literal(Literal::Bv { val: 5, width: 32 }, bv(32)));
    assert!(lit.is_lit());
    assert!(!lit.is_var());
    assert_eq!(lit.get_lit_value(), Some(5));
    assert_eq!(lit.get_lit(), Some(&Literal::Bv { val: 5, width: 32 }));
    assert_eq!(lit.get_expect_bv_width(), 32);
    assert_eq!(Expr::bool_lit(true).get_lit_value(), Some(1));
    assert_eq!(Expr::bool_lit(false).get_lit_value(), Some(0));
    assert_eq!(Expr::int_lit(9).get_lit_value(), Some(9));
    let x = Expr::var("x", bv(64));
    assert!(x.is_var());
    assert_eq!(x.get_var_name(), "x");
    assert_eq!(x.typ(), &bv(64));
    assert_eq!(x.get_lit_value(), None);
    assert_eq!(x.get_lit(), None);
    assert_eq!(x.get_array_expr(), None);
    let f = Expr::func_app("f".to_string(), vec![x.clone()], Type::Bool);
    assert_eq!(f.typ(), &Type::Bool);
}

#[test]
fn operator_applications_get_their_types() {
    let x = Expr::var("x", bv(64));
    let y = Expr::var("y", bv(64));
    let cmp = Expr::op_app(Op::Comp(CompOp::Lt), vec![x.clone(), y.clone()]);
    assert_eq!(cmp.typ(), &Type::Bool);
    let conj = Expr::op_app(Op::Bool(BoolOp::Conj), vec![cmp.clone(), cmp.clone()]);
    assert_eq!(conj.typ(), &Type::Bool);
    let add = Expr::op_app(Op::Bv(BVOp::Add), vec![x.clone(), y.clone()]);
    assert_eq!(add.typ(), &bv(64));
    let mem = Expr::var(
        "mem_d",
        Type::Array { in_typs: vec![Box::new(bv(64))], out_typ: Box::new(bv(64)) },
    );
    let idx = Expr::op_app(Op::ArrayIndex, vec![mem.clone(), x.clone()]);
    assert_eq!(idx.typ(), &bv(64));
    assert_eq!(idx.get_array_expr(), Some(&mem));
    assert_eq!(idx.get_array_index(), Some(&x));
    let st = Type::Struct {
        id: "s".to_string(),
        fields: vec![
            Field { name: "a".to_string(), typ: bv(8) },
            Field { name: "b".to_string(), typ: bv(16) },
        ],
        w: 24,
    };
    let s = Expr::var("s", st);
    let get = Expr::op_app(Op::GetField("b".to_string()), vec![s.clone()]);
    assert_eq!(get.typ(), &bv(16));
    assert!(Expr::op_fits(&Op::GetField("a".to_string()), &vec![s.clone()]));
    assert!(!Expr::op_fits(&Op::GetField("c".to_string()), &vec![s.clone()]));
    assert!(!Expr::op_fits(&Op::ArrayIndex, &vec![x.clone(), y.clone()]));
    assert!(!Expr::op_fits(&Op::Bv(BVOp::Add), &vec![]));
    assert!(Expr::op_fits(&Op::Comp(CompOp::Equality), &vec![]));
}

#[test]
fn statements() {
    let x = Expr::var("x", bv(64));
    let a = Stmt::assign(vec![x.clone()], vec![Expr::bv_lit(0, 64)]);
    assert!(!a.is_blk());
    let blk = Stmt::Block(vec![Box::new(a.clone())]);
    assert!(blk.is_blk());
    assert_eq!(blk.get_expect_block().len(), 1);
    let ite = Stmt::if_then_else(Expr::bool_lit(true), Box::new(blk.clone()), None);
    assert_eq!(ite.clone(), ite);
    let call = Stmt::func_call("f".to_string(), vec![], vec![x]);
    match call {
        Stmt::FuncCall(fc) => {
            assert_eq!(fc.func_name, "f");
            assert_eq!(fc.operands.len(), 1);
        }
        _ => panic!("expected a call"),
    }
}

fn model_of(name: &str, entry: u64) -> FuncModel {
    FuncModel::new(name, entry, vec![], None, None, None, None, None, Stmt::Block(vec![]), false)
}

#[test]
fn the_first_procedure_of_a_name_stays() {
    let mut m = Model::new("main");
    assert_eq!(m.name, "main");
    m.add_func_model(model_of("f", 1));
    m.add_func_model(model_of("g", 2));
    m.add_func_model(model_of("f", 3));
    assert_eq!(m.func_models.len(), 2);
    assert_eq!(m.func_models[0].sig.entry_addr, 1);
    assert_eq!(m.func_models[1].sig.name, "g");
    m.add_func_models(vec![model_of("g", 9), model_of("h", 4), model_of("h", 5)]);
    assert_eq!(m.func_models.len(), 3);
    assert_eq!(m.func_models[2].sig.entry_addr, 4);
    assert!(m.has_func_model("h"));
    assert!(!m.has_func_model("k"));
}

#[test]
fn absent_parts_of_a_procedure_are_empty() {
    let fm = model_of("f", 16);
    assert!(fm.sig.preconds.is_empty());
    assert!(fm.sig.postconds.is_empty());
    assert!(fm.sig.tracks.is_empty());
    assert_eq!(fm.sig.mod_set, NameSet::new());
    assert_eq!(fm.sig.entry_addr, 16);
    assert!(!fm.inline);
    let mut ms = NameSet::new();
    ms.insert("pc");
    let fm2 = FuncModel::new(
        "g",
        1,
        vec![Expr::var("a", bv(64))],
        Some(bv(64)),
        Some(vec![Spec::Requires(BExpr::Bool(true))]),
        None,
        None,
        Some(ms.clone()),
        Stmt::Block(vec![]),
        true,
    );
    assert_eq!(fm2.sig.preconds.len(), 1);
    assert_eq!(fm2.sig.mod_set, ms);
    assert_eq!(fm2.sig.ret_decl, Some(bv(64)));
    assert!(fm2.inline);
}

#[test]
fn variables_are_kept_in_the_order_of_their_names() {
    let mut m = Model::new("main");
    let v = |n: &str, w: u64| Var { name: n.to_string(), typ: bv(w) };
    m.add_var(v("pc", 64));
    m.add_var(v("a0", 64));
    m.add_var(v("sp", 64));
    m.add_var(v("a0", 64));
    m.add_vars(&vec![v("mem_access_8", 64), v("a1", 64), v("pc", 64)]);
    let names: Vec<&str> = m.vars.iter().map(|v| &v.name[..]).collect();
    assert_eq!(names, vec!["a0", "a1", "mem_access_8", "pc", "sp"]);
    // A variable of the same name and another type is another variable.
    m.add_var(v("a0", 32));
    assert_eq!(m.vars.len(), 6);
    assert_eq!(m.vars[0], v("a0", 64));
    assert_eq!(m.vars[1], v("a0", 32));
    assert!(m.has_var(&v("a0", 32)));
    assert!(!m.has_var(&v("a0", 16)));
}

fn ident(n: &str, t: VType) -> VExpr {
    VExpr::Ident(n.to_string(), t)
}

fn lit(v: u64, w: u16) -> VExpr {
    VExpr::Bv { value: v, typ: VType::Bv(w) }
}

#[test]
fn value_expression_getters() {
    let e = lit(7, 32);
    assert!(e.is_lit());
    assert_eq!(e.get_lit_value(), Some(7));
    assert_eq!(e.typ(), &VType::Bv(32));
    assert_eq!(VExpr::Int(-1, VType::Int).get_lit_value(), Some(u64::MAX));
    assert_eq!(VExpr::Int(i64::MIN, VType::Int).get_lit_value(), Some(1 << 63));
    assert_eq!(VExpr::Int(3, VType::Int).get_lit_value(), Some(3));
    assert_eq!(VExpr::Bool(true, VType::Bool).get_lit_value(), Some(1));
    let x = ident("x", VType::Unknown);
    assert!(!x.is_lit());
    assert_eq!(x.get_lit_value(), None);
    assert_eq!(x.get_ident_name(), "x");
    assert_eq!(VType::Bv(12).get_bv_width(), 12);
    let arr = VType::Array { in_type: Box::new(VType::Bv(64)), out_type: Box::new(VType::Bv(32)) };
    assert_eq!(arr.get_array_out_type(), &VType::Bv(32));
    assert_eq!(arr.get_array_out_type_size(), 32);
    let st = VType::Struct { id: "s".to_string(), fields: vec![], size: 96 };
    let arr2 = VType::Array { in_type: Box::new(VType::Bv(64)), out_type: Box::new(st) };
    assert_eq!(arr2.get_array_out_type_size(), 96);
}

#[test]
fn the_type_of_an_operator_application() {
    let a = lit(1, 32);
    let b = lit(2, 32);
    assert_eq!(VType::infer_op_type(&ValueOp::Add, &vec![a.clone(), b.clone()]), VType::Bv(32));
    assert_eq!(VType::try_infer_op_type(&ValueOp::Add, &vec![a.clone(), lit(2, 16)]), None);
    assert_eq!(VType::try_infer_op_type(&ValueOp::Add, &vec![]), None);
    assert_eq!(
        VType::infer_op_type(&ValueOp::Slice { lo: 4, hi: 12 }, &vec![a.clone()]),
        VType::Bv(8)
    );
    assert_eq!(VType::try_infer_op_type(&ValueOp::Slice { lo: 12, hi: 4 }, &vec![a.clone()]), None);
    assert_eq!(
        VType::infer_op_type(&ValueOp::Concat, &vec![a.clone(), lit(0, 16)]),
        VType::Bv(48)
    );
    assert_eq!(
        VType::try_infer_op_type(&ValueOp::Concat, &vec![lit(0, 65535), lit(0, 1)]),
        None
    );
    assert_eq!(
        VType::infer_op_type(&ValueOp::LeftShift, &vec![a.clone(), lit(3, 8)]),
        VType::Bv(8)
    );
    assert_eq!(VType::infer_op_type(&ValueOp::Deref, &vec![a.clone()]), VType::Bv(32));
    let arr_t = VType::Array { in_type: Box::new(VType::Bv(64)), out_type: Box::new(VType::Bv(8)) };
    assert_eq!(
        VType::infer_op_type(&ValueOp::ArrayIndex, &vec![ident("m", arr_t), a.clone()]),
        VType::Bv(8)
    );
    assert_eq!(VType::try_infer_op_type(&ValueOp::ArrayIndex, &vec![a.clone(), b.clone()]), None);
    let st = VType::Struct {
        id: "s".to_string(),
        fields: vec![
            VField { name: "f".to_string(), typ: VType::Bv(16) },
            VField { name: "g".to_string(), typ: VType::Bool },
        ],
        size: 24,
    };
    assert_eq!(
        VType::infer_op_type(
            &ValueOp::GetField,
            &vec![ident("s", st.clone()), ident("g", VType::Unknown)]
        ),
        VType::Bool
    );
    assert_eq!(
        VType::try_infer_op_type(
            &ValueOp::GetField,
            &vec![ident("s", st), ident("h", VType::Unknown)]
        ),
        None
    );
}

#[test]
fn the_type_of_a_built_in_function() {
    let x = ident("x", VType::Bv(64));
    assert_eq!(VType::infer_func_app_type("old", &vec![x.clone()]), VType::Bv(64));
    assert_eq!(VType::infer_func_app_type("value", &vec![x.clone()]), VType::Bv(64));
    assert_eq!(VType::infer_func_app_type("sext", &vec![lit(32, 64), lit(0, 32)]), VType::Bv(64));
    assert_eq!(VType::infer_func_app_type("uext", &vec![lit(8, 64), lit(0, 8)]), VType::Bv(16));
    assert_eq!(VType::try_infer_func_app_type("sext", &vec![x.clone(), lit(0, 8)]), None);
    assert_eq!(VType::try_infer_func_app_type("unknown", &vec![x.clone()]), None);
    assert_eq!(VType::try_infer_func_app_type("old", &vec![]), None);
}

#[test]
fn specification_types_from_ir_types() {
    assert_eq!(VType::from_ast_type(&Type::Unknown), VType::Unknown);
    assert_eq!(VType::from_ast_type(&Type::Bool), VType::Bool);
    assert_eq!(VType::from_ast_type(&Type::Int), VType::Int);
    assert_eq!(VType::from_ast_type(&bv(64)), VType::Bv(64));
    assert_eq!(VType::from_ast_type(&bv(65536 + 7)), VType::Bv(7));
    let arr = Type::Array { in_typs: vec![Box::new(bv(64))], out_typ: Box::new(bv(8)) };
    assert_eq!(
        VType::from_ast_type(&arr),
        VType::Array { in_type: Box::new(VType::Bv(64)), out_type: Box::new(VType::Bv(8)) }
    );
    let st = Type::Struct {
        id: "s".to_string(),
        fields: vec![Field { name: "f".to_string(), typ: arr }],
        w: 72,
    };
    match VType::from_ast_type(&st) {
        VType::Struct { id, fields, size } => {
            assert_eq!(id, "s");
            assert_eq!(size, 72);
            assert_eq!(fields.len(), 1);
            assert_eq!(fields[0].name, "f");
        }
        other => panic!("expected a struct, found {:?}", other),
    }
}

#[test]
fn conditions_of_clauses() {
    let b = BExpr::COpApp(SCompOp::Equal, vec![lit(1, 8), lit(1, 8)]);
    assert_eq!(Spec::Requires(b.clone()).get_bexpr(), Ok(&b));
    assert_eq!(Spec::Ensures(b.clone()).get_bexpr(), Ok(&b));
    assert_eq!(Spec::Modifies(NameSet::new()).get_bexpr(), Err(()));
    assert_eq!(Spec::Track("t".to_string(), lit(1, 8)).get_bexpr(), Err(()));
}

#[test]
fn debugging_information_lookups() {
    let ctx = DwarfCtx {
        xlen: 64,
        global_vars: vec![
            DwarfVar {
                name: "g".to_string(),
                memory_addr: 0x1000,
                typ_defn: DwarfTypeDefn::Primitive { bytes: 4 },
            },
            DwarfVar {
                name: "g".to_string(),
                memory_addr: 0x2000,
                typ_defn: DwarfTypeDefn::Primitive { bytes: 8 },
            },
        ],
        func_sigs: vec![DwarfFuncSig { name: "f".to_string(), args: vec![], ret_type: None }],
    };
    assert_eq!(ctx.global_var("g").map(|v| v.memory_addr), Ok(0x1000));
    assert_eq!(ctx.global_var("h").map(|v| v.memory_addr), Err(Error::MissingVar("h".to_string())));
    assert_eq!(ctx.global_var_type("g"), Ok(&DwarfTypeDefn::Primitive { bytes: 4 }));
    assert!(ctx.func_sig("f").is_ok());
    assert_eq!(
        ctx.func_sig("k").map(|s| s.args.len()),
        Err(Error::MissingFuncSig("k".to_string()))
    );
}

#[test]
fn names_of_types_literals_and_variables() {
    assert_eq!(Type::Unknown.to_string(), "Unknown");
    assert_eq!(Type::Bool.to_string(), "bool");
    assert_eq!(Type::Int.to_string(), "int");
    assert_eq!(bv(64).to_string(), "bv64");
    let arr = Type::Array {
        in_typs: vec![Box::new(bv(64)), Box::new(Type::Int)],
        out_typ: Box::new(bv(8)),
    };
    assert_eq!(arr.to_string(), "[bv64, int]bv8");
    let st = Type::Struct {
        id: "ctx".to_string(),
        fields: vec![Field { name: "a0".to_string(), typ: bv(64) }],
        w: 64,
    };
    assert_eq!(st.to_string(), "struct ctx");
    assert_eq!(Literal::Bv { val: 5, width: 32 }.to_string(), "5bv32");
    assert_eq!(Literal::Bool { val: true }.to_string(), "true");
    assert_eq!(Literal::Bool { val: false }.to_string(), "false");
    assert_eq!(Literal::Int { val: 17 }.to_string(), "17");
    let a = Var { name: "a0".to_string(), typ: bv(64) };
    let b = Var { name: "a1".to_string(), typ: bv(8) };
    assert_eq!(a.to_string(), "a0");
    assert!(a.precedes(&b));
    assert!(!b.precedes(&a));
    assert!(!a.precedes(&a));
}

#[test]
fn names_of_operators_and_expressions() {
    assert_eq!(Op::Comp(CompOp::Ltu).to_string(), "Comp(Ltu)");
    assert_eq!(Op::Comp(CompOp::Equality).to_string(), "Comp(Equality)");
    assert_eq!(Op::Bv(BVOp::ARightShift).to_string(), "Bv(ARightShift)");
    assert_eq!(Op::Bv(BVOp::Slice { l: 7, r: 0 }).to_string(), "Bv(Slice { l: 7, r: 0 })");
    assert_eq!(Op::Bool(BoolOp::Impl).to_string(), "Bool(Impl)");
    assert_eq!(Op::ArrayIndex.to_string(), "ArrayIndex");
    assert_eq!(Op::GetField("next".to_string()).to_string(), "GetField(\"next\")");
    assert_eq!(Op::GetField("a\"b".to_string()).to_string(), "GetField(\"a\\\"b\")");
    assert_eq!(Op::GetField("f".to_string()).to_string_with("<f>"), "GetField(<f>)");
    assert_eq!(Op::ArrayIndex.to_string_with("<f>"), "ArrayIndex");

    let x = Expr::var("x", bv(64));
    let one = Expr::bv_lit(1, 64);
    assert_eq!(x.to_string(), "x");
    assert_eq!(one.to_string(), "1bv64");
    let sum = Expr::op_app(Op::Bv(BVOp::Add), vec![x.clone(), one.clone()]);
    assert_eq!(sum.to_string(), "(Bv(Add) x, 1bv64)");
    let cmp = Expr::op_app(Op::Comp(CompOp::Lt), vec![sum.clone(), one.clone()]);
    assert_eq!(cmp.to_string(), "(Comp(Lt) (Bv(Add) x, 1bv64), 1bv64)");
    let call = Expr::func_app("f".to_string(), vec![x.clone(), cmp.clone()], bv(64));
    assert_eq!(call.to_string(), "f(x, (Comp(Lt) (Bv(Add) x, 1bv64), 1bv64))");
    assert!(call.is_labelled());
    let empty = Expr::func_app("f".to_string(), vec![], bv(64));
    assert!(!empty.is_labelled());
    let inside = Expr::func_app("g".to_string(), vec![x.clone(), empty], bv(64));
    assert!(!inside.is_labelled());
    match &sum {
        Expr::OpApp(oa, _) => assert_eq!(oa.to_string(), "(Bv(Add) x, 1bv64)"),
        _ => panic!("an application was built"),
    }
    match &call {
        Expr::FuncApp(fa, _) => {
            assert_eq!(fa.to_string(), "f(x, (Comp(Lt) (Bv(Add) x, 1bv64), 1bv64))")
        },
        _ => panic!("an application was built"),
    }
    assert!(bv(8).is_labelled());
    let no_index = Type::Array { in_typs: vec![], out_typ: Box::new(bv(8)) };
    assert!(!no_index.is_labelled());
    let nested = Type::Array { in_typs: vec![Box::new(no_index)], out_typ: Box::new(bv(8)) };
    assert!(!nested.is_labelled());
}
