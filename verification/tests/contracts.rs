use riscverifier::dwarf::{DwarfCtx, DwarfFuncSig, DwarfTypeDefn, DwarfVar, StructField};
use riscverifier::helpers::Error;
use riscverifier::names::NameSet;
use riscverifier::sl_ast::{BExpr, BoolOp, CompOp, FuncSpec, Spec, VExpr, VField, VType, ValueOp};
use riscverifier::spec_lowering::{
    constant_fold, constant_fold_bexpr, from_dwarf_type, has_global, infer_bexpr, infer_vexpr,
    is_global, process_specs, rename_globals, sl_bexpr_rewrite_passes, system_ident,
    VExprTypeInference,
};

fn int_type() -> DwarfTypeDefn {
    DwarfTypeDefn::Primitive { bytes: 4 }
}

fn pair_type() -> DwarfTypeDefn {
    DwarfTypeDefn::Struct {
        id: "pair".to_string(),
        fields: vec![
            StructField { name: "fst".to_string(), typ: int_type(), loc: 0 },
            StructField {
                name: "snd".to_string(),
                typ: DwarfTypeDefn::Array {
                    in_typ: Box::new(DwarfTypeDefn::Primitive { bytes: 8 }),
                    out_typ: Box::new(DwarfTypeDefn::Primitive { bytes: 1 }),
                    bytes: 8,
                },
                loc: 4,
            },
        ],
        bytes: 12,
    }
}

fn ctx() -> DwarfCtx {
    DwarfCtx {
        xlen: 64,
        global_vars: vec![
            DwarfVar { name: "g".to_string(), memory_addr: 0x1000, typ_defn: int_type() },
            DwarfVar {
                name: "arr".to_string(),
                memory_addr: 0x2000,
                typ_defn: DwarfTypeDefn::Array {
                    in_typ: Box::new(DwarfTypeDefn::Primitive { bytes: 8 }),
                    out_typ: Box::new(int_type()),
                    bytes: 64,
                },
            },
            DwarfVar { name: "p".to_string(), memory_addr: 0x3000, typ_defn: pair_type() },
            DwarfVar { name: "n".to_string(), memory_addr: 0x4000, typ_defn: int_type() },
        ],
        func_sigs: vec![DwarfFuncSig {
            name: "f".to_string(),
            args: vec![DwarfVar { name: "n".to_string(), memory_addr: 0, typ_defn: int_type() }],
            ret_type: Some(int_type()),
        }],
    }
}

fn ident(n: &str) -> VExpr {
    VExpr::Ident(n.to_string(), VType::Unknown)
}

fn typed(n: &str, t: VType) -> VExpr {
    VExpr::Ident(n.to_string(), t)
}

fn lit(v: u64, w: u16) -> VExpr {
    VExpr::Bv { value: v, typ: VType::Bv(w) }
}

fn op(o: ValueOp, args: Vec<VExpr>, t: VType) -> VExpr {
    VExpr::OpApp(o, args, t)
}

fn arr_type() -> VType {
    VType::Array { in_type: Box::new(VType::Bv(64)), out_type: Box::new(VType::Bv(32)) }
}

#[test]
fn types_from_debugging_information() {
    assert_eq!(from_dwarf_type(&int_type()), VType::Bv(32));
    assert_eq!(
        from_dwarf_type(&DwarfTypeDefn::Pointer { value_typ: Box::new(int_type()), bytes: 8 }),
        VType::Bv(64)
    );
    match from_dwarf_type(&pair_type()) {
        VType::Struct { id, fields, size } => {
            assert_eq!(id, "pair");
            assert_eq!(size, 96);
            assert_eq!(fields[0], VField { name: "fst".to_string(), typ: VType::Bv(32) });
            assert_eq!(
                fields[1].typ,
                VType::Array { in_type: Box::new(VType::Bv(64)), out_type: Box::new(VType::Bv(8)) }
            );
        }
        other => panic!("expected a struct, found {:?}", other),
    }
}

#[test]
fn parts_of_the_machine_state() {
    for n in ["pc", "returned", "current_priv", "mem_b", "mem_h", "mem_w", "mem_d", "a0", "sp", "ra"] {
        assert!(system_ident(n), "{}", n);
    }
    assert!(!system_ident("a1"));
    assert!(!system_ident("mem"));
}

#[test]
fn constant_fold_scenario() {
    let e = op(ValueOp::Add, vec![lit(2, 32), lit(3, 32)], VType::Bv(32));
    assert_eq!(constant_fold(&e), lit(5, 32));
}

#[test]
fn global_primitive_deref_scenario() {
    let c = ctx();
    let scope = Vec::new();
    let pass1 = infer_vexpr(&ident("g"), &c, "main", &scope, false).unwrap();
    assert_eq!(pass1, op(ValueOp::Deref, vec![typed("g", VType::Bv(32))], VType::Bv(32)));
    let pass2 = rename_globals(&pass1, &c);
    assert_eq!(pass2, op(ValueOp::Deref, vec![lit(0x1000, 32)], VType::Bv(32)));
    let pass3 = constant_fold(&pass2);
    assert_eq!(pass3, typed("mem_access_4096", VType::Bv(32)));
}

#[test]
fn array_indexing_scenario() {
    let c = ctx();
    let scope = Vec::new();
    let e = op(ValueOp::ArrayIndex, vec![ident("arr"), VExpr::Int(3, VType::Unknown)], VType::Unknown);
    let pass1 = infer_vexpr(&e, &c, "main", &scope, false).unwrap();
    assert_eq!(
        pass1,
        op(
            ValueOp::Deref,
            vec![op(
                ValueOp::ArrayIndex,
                vec![typed("arr", arr_type()), VExpr::Int(3, VType::Unknown)],
                VType::Bv(32)
            )],
            VType::Bv(32)
        )
    );
    let lowered = constant_fold(&rename_globals(&pass1, &c));
    assert_eq!(lowered, typed("mem_access_8204", VType::Bv(32)));
}

#[test]
fn names_are_resolved_in_order() {
    let c = ctx();
    let scope = Vec::new();
    // Part of the machine state.
    assert_eq!(infer_vexpr(&ident("a0"), &c, "f", &scope, false), Ok(typed("a0", VType::Bv(64))));
    // A formal argument hides the global of the same name, and has the type
    // that the debugging information gives it.
    assert_eq!(infer_vexpr(&ident("n"), &c, "f", &scope, false), Ok(typed("n", VType::Bv(32))));
    // A part of the machine state comes before a bound variable of its name.
    let sp = vec![VField { name: "sp".to_string(), typ: VType::Bv(8) }];
    assert_eq!(infer_vexpr(&ident("sp"), &c, "f", &sp, false), Ok(typed("sp", VType::Bv(64))));
    // A formal argument comes before a bound variable of its name.
    let n8 = vec![VField { name: "n".to_string(), typ: VType::Bv(8) }];
    assert_eq!(infer_vexpr(&ident("n"), &c, "f", &n8, false), Ok(typed("n", VType::Bv(32))));
    // In another function the name is the global.
    assert_eq!(
        infer_vexpr(&ident("n"), &c, "main", &scope, false),
        Ok(op(ValueOp::Deref, vec![typed("n", VType::Bv(32))], VType::Bv(32)))
    );
    // A bound variable has the type that it was bound with; of two
    // bindings the later counts.
    let bound = vec![VField { name: "i".to_string(), typ: VType::Int }];
    assert_eq!(infer_vexpr(&ident("i"), &c, "f", &bound, false), Ok(typed("i", VType::Int)));
    let twice = vec![
        VField { name: "i".to_string(), typ: VType::Int },
        VField { name: "j".to_string(), typ: VType::Bool },
        VField { name: "i".to_string(), typ: VType::Bv(8) },
    ];
    assert_eq!(infer_vexpr(&ident("i"), &c, "f", &twice, false), Ok(typed("i", VType::Bv(8))));
    assert_eq!(infer_vexpr(&ident("j"), &c, "f", &twice, false), Ok(typed("j", VType::Bool)));
    // A bound variable hides the global of the same name.
    let g8 = vec![VField { name: "g".to_string(), typ: VType::Bv(8) }];
    assert_eq!(infer_vexpr(&ident("g"), &c, "main", &g8, false), Ok(typed("g", VType::Bv(8))));
    // A global that is not a bit-vector stays an address.
    assert_eq!(infer_vexpr(&ident("arr"), &c, "f", &scope, false), Ok(typed("arr", arr_type())));
    // An unknown name.
    assert_eq!(
        infer_vexpr(&ident("nobody"), &c, "f", &scope, false),
        Err(Error::MissingVar("nobody".to_string()))
    );
    // An unknown name is left alone where it names a field.
    assert_eq!(infer_vexpr(&ident("nobody"), &c, "f", &scope, true), Ok(ident("nobody")));
}

#[test]
fn field_accesses_are_typed_and_dereferenced() {
    let c = ctx();
    let scope = Vec::new();
    let pair = from_dwarf_type(&pair_type());
    let e = op(ValueOp::GetField, vec![ident("p"), ident("fst")], VType::Unknown);
    let r = infer_vexpr(&e, &c, "main", &scope, false).unwrap();
    assert_eq!(
        r,
        op(
            ValueOp::Deref,
            vec![op(
                ValueOp::GetField,
                vec![typed("p", pair.clone()), typed("fst", VType::Bv(32))],
                VType::Bv(32)
            )],
            VType::Bv(32)
        )
    );
    // A field that is not a bit-vector is left as an address.
    let snd_t = VType::Array { in_type: Box::new(VType::Bv(64)), out_type: Box::new(VType::Bv(8)) };
    let e2 = op(ValueOp::GetField, vec![ident("p"), ident("snd")], VType::Unknown);
    assert_eq!(
        infer_vexpr(&e2, &c, "main", &scope, false),
        Ok(op(
            ValueOp::GetField,
            vec![typed("p", pair.clone()), typed("snd", snd_t.clone())],
            snd_t
        ))
    );
    // A field that the struct does not have.
    let e3 = op(ValueOp::GetField, vec![ident("p"), ident("third")], VType::Unknown);
    assert_eq!(infer_vexpr(&e3, &c, "main", &scope, false), Err(Error::TypeMismatch));
}

#[test]
fn operands_of_different_types_are_a_mismatch() {
    let c = ctx();
    let scope = Vec::new();
    let e = op(ValueOp::Add, vec![ident("g"), ident("a0")], VType::Unknown);
    assert_eq!(infer_vexpr(&e, &c, "main", &scope, false), Err(Error::TypeMismatch));
    let ok = op(ValueOp::Add, vec![ident("sp"), ident("a0")], VType::Unknown);
    assert_eq!(
        infer_vexpr(&ok, &c, "main", &scope, false),
        Ok(op(ValueOp::Add, vec![typed("sp", VType::Bv(64)), typed("a0", VType::Bv(64))], VType::Bv(64)))
    );
}

#[test]
fn built_in_functions_are_typed() {
    let c = ctx();
    let scope = Vec::new();
    let e = VExpr::FuncApp("old".to_string(), vec![ident("a0")], VType::Unknown);
    assert_eq!(
        infer_vexpr(&e, &c, "main", &scope, false),
        Ok(VExpr::FuncApp("old".to_string(), vec![typed("a0", VType::Bv(64))], VType::Bv(64)))
    );
    let unknown = VExpr::FuncApp("mystery".to_string(), vec![ident("a0")], VType::Unknown);
    assert_eq!(infer_vexpr(&unknown, &c, "main", &scope, false), Err(Error::TypeMismatch));
}

#[test]
fn quantifiers_bring_their_variable_into_scope() {
    let c = ctx();
    let body = BExpr::COpApp(CompOp::Lt, vec![ident("i"), ident("a0")]);
    let q = BExpr::BOpApp(BoolOp::Forall(ident("i"), VType::Bv(64)), vec![body.clone()]);
    let mut scope = Vec::new();
    let r = infer_bexpr(&q, &c, "main", &mut scope).unwrap();
    assert_eq!(
        r,
        BExpr::BOpApp(
            BoolOp::Forall(ident("i"), VType::Bv(64)),
            vec![BExpr::COpApp(
                CompOp::Lt,
                vec![typed("i", VType::Bv(64)), typed("a0", VType::Bv(64))]
            )]
        )
    );
    assert_eq!(scope, vec![VField { name: "i".to_string(), typ: VType::Bv(64) }]);
    // Without the quantifier the variable is not known.
    let mut empty = Vec::new();
    assert_eq!(
        infer_bexpr(&body, &c, "main", &mut empty),
        Err(Error::MissingVar("i".to_string()))
    );
    // A quantifier over something that is no identifier.
    let bad = BExpr::BOpApp(BoolOp::Exists(lit(1, 8), VType::Bv(8)), vec![]);
    assert_eq!(infer_bexpr(&bad, &c, "main", &mut empty), Err(Error::TypeMismatch));
}

#[test]
fn globals_are_found_and_renamed() {
    let c = ctx();
    assert!(is_global(&ident("g"), &c));
    assert!(!is_global(&ident("a0"), &c));
    assert!(!is_global(&lit(1, 8), &c));
    let nested = op(ValueOp::Add, vec![lit(1, 32), op(ValueOp::Deref, vec![ident("g")], VType::Unknown)], VType::Unknown);
    assert!(is_global(&nested, &c));
    assert!(has_global(&vec![lit(1, 8), ident("arr")], &c));
    assert!(!has_global(&vec![lit(1, 8), ident("x")], &c));
    let renamed = rename_globals(&nested, &c);
    assert!(!is_global(&renamed, &c));
    assert_eq!(
        renamed,
        op(
            ValueOp::Add,
            vec![
                lit(1, 32),
                op(
                    ValueOp::Deref,
                    vec![VExpr::Bv { value: 0x1000, typ: VType::Unknown }],
                    VType::Unknown
                )
            ],
            VType::Unknown
        )
    );
    assert_eq!(rename_globals(&ident("x"), &c), ident("x"));
}

#[test]
fn folding_table() {
    let f = |o: ValueOp, a: u64, b: u64| constant_fold(&op(o, vec![lit(a, 64), lit(b, 64)], VType::Bv(64)));
    assert_eq!(f(ValueOp::Add, 2, 3), lit(5, 64));
    assert_eq!(f(ValueOp::Add, u64::MAX, 1), lit(0, 64));
    assert_eq!(f(ValueOp::Sub, 2, 3), lit(u64::MAX, 64));
    assert_eq!(f(ValueOp::Mul, 6, 7), lit(42, 64));
    assert_eq!(f(ValueOp::Div, 42, 5), lit(8, 64));
    assert_eq!(f(ValueOp::BvXor, 0b1100, 0b1010), lit(0b0110, 64));
    assert_eq!(f(ValueOp::BvOr, 0b1100, 0b1010), lit(0b1110, 64));
    assert_eq!(f(ValueOp::BvAnd, 0b1100, 0b1010), lit(0b1000, 64));
    assert_eq!(f(ValueOp::LeftShift, 1, 4), lit(16, 64));
    assert_eq!(f(ValueOp::URightShift, 1 << 63, 63), lit(1, 64));
    assert_eq!(f(ValueOp::RightShift, 1 << 63, 63), lit(u64::MAX, 64));
    assert_eq!(f(ValueOp::RightShift, 256, 4), lit(16, 64));
    // A division by zero is left alone.
    let div = op(ValueOp::Div, vec![lit(1, 64), lit(0, 64)], VType::Bv(64));
    assert_eq!(constant_fold(&div), div);
    // The result has the type of the first operand.
    let mixed = op(ValueOp::Add, vec![lit(1, 8), lit(1, 64)], VType::Unknown);
    assert_eq!(constant_fold(&mixed), lit(2, 8));
}

#[test]
fn folding_of_slices_arrays_and_dereferences() {
    // A slice keeps the bits under the mask; its type is as wide as both
    // operands together.
    let s = op(ValueOp::Slice { lo: 4, hi: 7 }, vec![lit(0xff, 16), lit(0, 8)], VType::Unknown);
    assert_eq!(constant_fold(&s), lit(0xf0, 24));
    // A slice that reaches the top bit keeps it.
    let t = op(ValueOp::Slice { lo: 60, hi: 63 }, vec![lit(0xf1 << 56, 8), lit(0, 8)], VType::Unknown);
    assert_eq!(constant_fold(&t), lit(0xf << 60, 16));
    // A slice of one operand is left alone.
    let s1 = op(ValueOp::Slice { lo: 4, hi: 7 }, vec![lit(0xff, 16)], VType::Bv(3));
    assert_eq!(constant_fold(&s1), s1);
    // A dereference of something that is no literal is kept.
    let d = op(ValueOp::Deref, vec![typed("x", VType::Bv(64))], VType::Bv(64));
    assert_eq!(constant_fold(&d), d);
    // Concatenations and field accesses are not folded.
    let c = op(ValueOp::Concat, vec![lit(1, 8), lit(2, 8)], VType::Bv(16));
    assert_eq!(constant_fold(&c), c);
    // Folding goes on inside what is not folded.
    let partial = op(
        ValueOp::Add,
        vec![typed("x", VType::Bv(64)), op(ValueOp::Mul, vec![lit(2, 64), lit(4, 64)], VType::Bv(64))],
        VType::Bv(64),
    );
    assert_eq!(
        constant_fold(&partial),
        op(ValueOp::Add, vec![typed("x", VType::Bv(64)), lit(8, 64)], VType::Bv(64))
    );
    // The arguments of a function are folded.
    let fa = VExpr::FuncApp(
        "old".to_string(),
        vec![op(ValueOp::Add, vec![lit(1, 8), lit(1, 8)], VType::Bv(8))],
        VType::Bv(8),
    );
    assert_eq!(constant_fold(&fa), VExpr::FuncApp("old".to_string(), vec![lit(2, 8)], VType::Bv(8)));
    let b = BExpr::BOpApp(
        BoolOp::Neg,
        vec![BExpr::COpApp(CompOp::Equal, vec![op(ValueOp::Add, vec![lit(1, 8), lit(1, 8)], VType::Bv(8)), lit(2, 8)])],
    );
    assert_eq!(
        constant_fold_bexpr(&b),
        BExpr::BOpApp(BoolOp::Neg, vec![BExpr::COpApp(CompOp::Equal, vec![lit(2, 8), lit(2, 8)])])
    );
}

#[test]
fn the_three_passes_together() {
    let c = ctx();
    let cond = BExpr::COpApp(
        CompOp::Equal,
        vec![
            op(ValueOp::ArrayIndex, vec![ident("arr"), VExpr::Int(3, VType::Unknown)], VType::Unknown),
            ident("g"),
        ],
    );
    let lowered = sl_bexpr_rewrite_passes(&cond, &c, "main").unwrap();
    assert_eq!(
        lowered,
        BExpr::COpApp(
            CompOp::Equal,
            vec![typed("mem_access_8204", VType::Bv(32)), typed("mem_access_4096", VType::Bv(32))]
        )
    );
    let mut ms = NameSet::new();
    ms.insert("a0");
    let specs = vec![
        FuncSpec {
            fname: "f".to_string(),
            specs: vec![
                Spec::Requires(cond.clone()),
                Spec::Modifies(ms.clone()),
                Spec::Ensures(BExpr::Bool(true)),
                Spec::Track("t".to_string(), ident("g")),
            ],
        },
        FuncSpec { fname: "h".to_string(), specs: vec![] },
    ];
    let out = process_specs(&specs, &c).unwrap();
    assert_eq!(out.len(), 2);
    assert_eq!(out[0].fname, "f");
    assert_eq!(out[0].specs.len(), 4);
    assert_eq!(out[0].specs[0], Spec::Requires(lowered));
    assert_eq!(out[0].specs[1], Spec::Modifies(ms));
    assert_eq!(out[0].specs[2], Spec::Ensures(BExpr::Bool(true)));
    // Tracked expressions are not lowered.
    assert_eq!(out[0].specs[3], Spec::Track("t".to_string(), ident("g")));
    assert_eq!(out[1], FuncSpec { fname: "h".to_string(), specs: vec![] });
    let bad = vec![FuncSpec {
        fname: "f".to_string(),
        specs: vec![Spec::Ensures(BExpr::COpApp(CompOp::Equal, vec![ident("zz"), ident("g")]))],
    }];
    assert_eq!(process_specs(&bad, &c), Err(Error::MissingVar("zz".to_string())));
}

#[test]
fn inference_without_dereferences_is_stable() {
    let c = ctx();
    let cond = BExpr::BOpApp(
        BoolOp::Implies,
        vec![
            BExpr::COpApp(CompOp::Ltu, vec![ident("a0"), ident("sp")]),
            BExpr::COpApp(
                CompOp::Equal,
                vec![
                    op(ValueOp::Add, vec![ident("ra"), ident("pc")], VType::Unknown),
                    VExpr::FuncApp("old".to_string(), vec![ident("arr")], VType::Unknown),
                ],
            ),
        ],
    );
    let mut s1 = Vec::new();
    let once = infer_bexpr(&cond, &c, "f", &mut s1).unwrap();
    let mut s2 = Vec::new();
    let twice = infer_bexpr(&once, &c, "f", &mut s2).unwrap();
    assert_eq!(once, twice);
}

#[test]
fn steps_of_type_inference() {
    let d = ctx();
    let scope: Vec<VField> = vec![];
    assert_eq!(
        VExprTypeInference::rewrite_vexpr_ident(
            &d,
            "f",
            &scope,
            &"pc".to_string(),
            &VType::Unknown,
            false
        ),
        Ok(typed("pc", VType::Bv(64)))
    );
    assert_eq!(
        VExprTypeInference::rewrite_vexpr_ident(
            &d,
            "f",
            &scope,
            &"nowhere".to_string(),
            &VType::Unknown,
            false
        ),
        Err(Error::MissingVar("nowhere".to_string()))
    );
    assert_eq!(
        VExprTypeInference::rewrite_vexpr_opapp(ValueOp::Add, vec![lit(1, 32), lit(2, 32)]),
        Ok(op(ValueOp::Add, vec![lit(1, 32), lit(2, 32)], VType::Bv(32)))
    );
    assert_eq!(
        VExprTypeInference::rewrite_vexpr_opapp(ValueOp::Add, vec![lit(1, 32), lit(2, 16)]),
        Err(Error::TypeMismatch)
    );
    assert_eq!(
        VExprTypeInference::rewrite_vexpr_funcapp(&"old".to_string(), vec![lit(1, 32)]),
        Ok(VExpr::FuncApp("old".to_string(), vec![lit(1, 32)], VType::Bv(32)))
    );
    assert_eq!(
        VExprTypeInference::rewrite_vexpr_funcapp(&"unheard".to_string(), vec![lit(1, 32)]),
        Err(Error::TypeMismatch)
    );
    let mut sc: Vec<VField> = vec![];
    assert_eq!(
        VExprTypeInference::rewrite_bexpr_boolop(
            &BoolOp::Forall(ident("i"), VType::Int),
            &mut sc
        ),
        Ok(())
    );
    assert_eq!(sc, vec![VField { name: "i".to_string(), typ: VType::Int }]);
    assert_eq!(VExprTypeInference::rewrite_bexpr_boolop(&BoolOp::Conj, &mut sc), Ok(()));
    assert_eq!(sc.len(), 1);
    assert_eq!(
        VExprTypeInference::rewrite_bexpr_boolop(
            &BoolOp::Exists(lit(1, 8), VType::Int),
            &mut sc
        ),
        Err(Error::TypeMismatch)
    );
}
