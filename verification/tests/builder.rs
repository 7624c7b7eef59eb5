use riscverifier::cfg::{BasicBlock, Cfg, Inst, RegOperand};
use riscverifier::dwarf::{DwarfCtx, DwarfFuncSig, DwarfTypeDefn, DwarfVar};
use riscverifier::helpers::Error;
use riscverifier::names::NameSet;
use riscverifier::sl_ast::{BExpr, FuncSpec, Spec};
use riscverifier::translator::{
    assign_returned, bb_proc_name, cfg_to_symbolic_blk,
    filter_from_spec_map, func_args, get_callee_addrs, get_func_at, guarded_call, infer_vars,
    mod_set_from_spec_map, to_ir_type, topo_sort, SpecKind, Translator,
};
use riscverifier::veriv_ast::{BVOp, BoolOp, CompOp, Expr, Field, Op, Stmt, Type, Var};

fn bv(w: u64) -> Type {
    Type::Bv { w }
}

fn reg(n: &str) -> Expr {
    Expr::var(n, bv(64))
}

fn operand(n: &str) -> Option<RegOperand> {
    Some(RegOperand { name: n.to_string(), offset: None })
}

fn inst(addr: u64, func: &str, op: &str, rd: Option<RegOperand>, imm: Option<i64>) -> Inst {
    Inst {
        address: addr,
        function_name: func.to_string(),
        op: op.to_string(),
        rd,
        rs1: operand("a1"),
        rs2: None,
        csr: None,
        imm,
    }
}

fn set(r: &str, v: u64) -> Stmt {
    Stmt::assign(vec![reg(r)], vec![Expr::bv_lit(v, 64)])
}

fn bb(addr: u64, func: &str, label: bool, succ: Vec<u64>, insts: Vec<Inst>, stmts: Vec<Stmt>) -> BasicBlock {
    BasicBlock {
        entry_addr: addr,
        is_label_entry: label,
        function_name: func.to_string(),
        insts,
        successors: succ,
        stmts,
    }
}

fn names(v: &[&str]) -> NameSet {
    let mut s = NameSet::new();
    for n in v {
        s.insert(n);
    }
    s
}

fn no_dwarf() -> DwarfCtx {
    DwarfCtx { xlen: 64, global_vars: vec![], func_sigs: vec![] }
}

/// entry 0x10 -> 0x30 and 0x20; 0x30 -> 0x40; 0x20 -> 0x40
fn diamond() -> Vec<BasicBlock> {
    vec![
        bb(0x10, "f", true, vec![0x30, 0x20], vec![inst(0x10, "f", "beq", None, Some(0x30))], vec![set("a0", 1)]),
        bb(0x20, "f", false, vec![0x40], vec![inst(0x20, "f", "add", operand("a2"), None)], vec![set("a2", 2)]),
        bb(0x30, "f", false, vec![0x40], vec![inst(0x30, "f", "add", operand("a3"), None)], vec![set("a3", 3)]),
        bb(0x40, "f", false, vec![], vec![inst(0x40, "f", "jalr", operand("zero"), None)], vec![set("a4", 4)]),
    ]
}

#[test]
fn labels_and_functions_at_addresses() {
    let bbs = diamond();
    assert_eq!(Translator::create_label_to_addr_map(&bbs), vec![("f".to_string(), 0x10)]);
    assert_eq!(get_func_at(&bbs, 0x10), Ok(Some("f".to_string())));
    assert_eq!(get_func_at(&bbs, 0x20), Ok(None));
    assert_eq!(get_func_at(&bbs, 0x99), Err(Error::MissingBlock(0x99)));
    assert_eq!(bb_proc_name(0x80004444), "bb_0x80004444");
    assert_eq!(bb_proc_name(0), "bb_0x0");
}

#[test]
fn blocks_come_after_those_that_lead_to_them() {
    let bbs = diamond();
    let cfg = Cfg { entry_addr: 0x10, nodes: diamond() };
    assert_eq!(topo_sort(&cfg, &bbs, &NameSet::new()), Ok(vec![0x10, 0x20, 0x30, 0x40]));
}

#[test]
fn blocks_that_are_ready_together_come_in_ascending_order() {
    // entry 5 -> 9, 7, 3; all of them -> 1
    let mk = || {
        vec![
            bb(5, "f", true, vec![9, 7, 3], vec![], vec![]),
            bb(9, "f", false, vec![1], vec![], vec![]),
            bb(7, "f", false, vec![1], vec![], vec![]),
            bb(3, "f", false, vec![1], vec![], vec![]),
            bb(1, "f", false, vec![], vec![], vec![]),
        ]
    };
    let cfg = Cfg { entry_addr: 5, nodes: mk() };
    assert_eq!(topo_sort(&cfg, &mk(), &NameSet::new()), Ok(vec![5, 3, 7, 9, 1]));
}

#[test]
fn cycle_detection_scenario() {
    let mk = || {
        vec![
            bb(0xa, "f", true, vec![0xb], vec![], vec![]),
            bb(0xb, "f", false, vec![0xa], vec![], vec![]),
        ]
    };
    let cfg = Cfg { entry_addr: 0xa, nodes: mk() };
    assert_eq!(topo_sort(&cfg, &mk(), &NameSet::new()), Err(Error::CycleInCFG(vec![0xa, 0xb])));
    let body = cfg_to_symbolic_blk(64, &no_dwarf(), &mk(), &NameSet::new(), 0xa, &cfg);
    assert_eq!(body, Err(Error::CycleInCFG(vec![0xa, 0xb])));
    let mut t = Translator::new(
        64,
        "main",
        &vec![],
        mk(),
        vec![cfg],
        NameSet::new(),
        vec![],
        no_dwarf(),
        vec![],
        false,
    );
    assert_eq!(t.gen_func_model("f"), Err(Error::CycleInCFG(vec![0xa, 0xb])));
}

#[test]
fn a_cycle_behind_the_entry_blocks_what_follows_it() {
    // 1 -> 2 -> 3 -> 2, 3 -> 4
    let mk = || {
        vec![
            bb(1, "f", true, vec![2], vec![], vec![]),
            bb(2, "f", false, vec![3], vec![], vec![]),
            bb(3, "f", false, vec![2, 4], vec![], vec![]),
            bb(4, "f", false, vec![], vec![], vec![]),
        ]
    };
    let cfg = Cfg { entry_addr: 1, nodes: mk() };
    assert_eq!(topo_sort(&cfg, &mk(), &NameSet::new()), Err(Error::CycleInCFG(vec![2, 3, 4])));
}

#[test]
fn a_successor_without_a_block_is_an_error() {
    let mk = || vec![bb(1, "f", true, vec![2], vec![], vec![])];
    let cfg = Cfg { entry_addr: 1, nodes: mk() };
    assert_eq!(topo_sort(&cfg, &mk(), &NameSet::new()), Err(Error::MissingBlock(2)));
    let empty = Cfg { entry_addr: 1, nodes: vec![] };
    assert_eq!(topo_sort(&empty, &mk(), &NameSet::new()), Err(Error::MissingBlock(1)));
}

fn guard(entry: u64) -> Expr {
    Expr::op_app(
        Op::Bool(BoolOp::Conj),
        vec![
            Expr::op_app(Op::Comp(CompOp::Equality), vec![reg("pc"), Expr::bv_lit(entry, 64)]),
            Expr::op_app(
                Op::Comp(CompOp::Equality),
                vec![Expr::var("returned", bv(1)), Expr::bv_lit(0, 1)],
            ),
        ],
    )
}

fn dispatch(entry: u64) -> Stmt {
    Stmt::if_then_else(
        guard(entry),
        Box::new(Stmt::Block(vec![Box::new(Stmt::func_call(bb_proc_name(entry), vec![], vec![]))])),
        None,
    )
}

fn returned(v: u64) -> Stmt {
    Stmt::assign(vec![Expr::var("returned", bv(1))], vec![Expr::bv_lit(v, 1)])
}

#[test]
fn guards() {
    let blk = Stmt::Block(vec![]);
    assert_eq!(
        guarded_call(64, 0x10, blk.clone()),
        Stmt::if_then_else(guard(0x10), Box::new(blk), None)
    );
    assert_eq!(assign_returned(1), returned(1));
}

#[test]
fn the_body_dispatches_to_the_blocks_in_order() {
    let cfg = Cfg { entry_addr: 0x10, nodes: diamond() };
    let body = cfg_to_symbolic_blk(64, &no_dwarf(), &diamond(), &NameSet::new(), 0x10, &cfg).unwrap();
    assert_eq!(
        body,
        Stmt::Block(vec![
            Box::new(dispatch(0x10)),
            Box::new(dispatch(0x20)),
            Box::new(dispatch(0x30)),
            Box::new(dispatch(0x40)),
            Box::new(returned(1)),
        ])
    );
}

/// f: 0x10 (jal g) -> 0x14; g: 0x50
fn caller_and_callee() -> (Vec<BasicBlock>, Vec<Cfg>) {
    let f0 = || bb(0x10, "f", true, vec![0x50, 0x14], vec![inst(0x10, "f", "jal", operand("ra"), Some(0x50))], vec![set("ra", 0x14)]);
    let f1 = || bb(0x14, "f", false, vec![], vec![inst(0x14, "f", "jalr", operand("zero"), None)], vec![set("t1", 7)]);
    let g0 = || bb(0x50, "g", true, vec![], vec![inst(0x50, "g", "jalr", operand("zero"), None)], vec![set("t2", 9)]);
    let bbs = vec![f0(), f1(), g0()];
    let cfgs = vec![
        Cfg { entry_addr: 0x10, nodes: vec![f0(), f1(), g0()] },
        Cfg { entry_addr: 0x50, nodes: vec![g0()] },
    ];
    (bbs, cfgs)
}

fn dwarf_with_g() -> DwarfCtx {
    DwarfCtx {
        xlen: 64,
        global_vars: vec![],
        func_sigs: vec![
            DwarfFuncSig { name: "f".to_string(), args: vec![], ret_type: None },
            DwarfFuncSig {
                name: "g".to_string(),
                args: vec![
                    DwarfVar {
                        name: "x".to_string(),
                        memory_addr: 0,
                        typ_defn: DwarfTypeDefn::Primitive { bytes: 4 },
                    },
                    DwarfVar {
                        name: "y".to_string(),
                        memory_addr: 0,
                        typ_defn: DwarfTypeDefn::Pointer {
                            value_typ: Box::new(DwarfTypeDefn::Primitive { bytes: 1 }),
                            bytes: 8,
                        },
                    },
                ],
                ret_type: None,
            },
        ],
    }
}

#[test]
fn callees_are_found_and_called() {
    let (bbs, cfgs) = caller_and_callee();
    assert_eq!(get_callee_addrs("f", &cfgs[0]), Ok(vec![(0x50, 0x10)]));
    assert_eq!(get_callee_addrs("g", &cfgs[0]), Ok(vec![]));
    let body = cfg_to_symbolic_blk(64, &dwarf_with_g(), &bbs, &NameSet::new(), 0x10, &cfgs[0]).unwrap();
    let call_g = Stmt::if_then_else(
        guard(0x50),
        Box::new(Stmt::Block(vec![
            Box::new(Stmt::func_call("g".to_string(), vec![], vec![reg("a0"), reg("a1")])),
            Box::new(returned(0)),
        ])),
        None,
    );
    assert_eq!(
        body,
        Stmt::Block(vec![
            Box::new(dispatch(0x10)),
            Box::new(call_g),
            Box::new(dispatch(0x14)),
            Box::new(returned(1)),
        ])
    );
}

#[test]
fn a_function_and_its_callee_are_generated() {
    let (bbs, cfgs) = caller_and_callee();
    let sys = vec![Var { name: "pc".to_string(), typ: bv(64) }];
    let mut t = Translator::new(
        64,
        "main",
        &sys,
        bbs,
        cfgs,
        NameSet::new(),
        vec![],
        dwarf_with_g(),
        vec![],
        true,
    );
    assert_eq!(t.func_entry_addr("f"), Some(0x10));
    assert_eq!(t.func_entry_addr("nobody"), None);
    assert_eq!(t.gen_func_model("nobody"), Err(Error::MissingLabel("nobody".to_string())));
    assert_eq!(t.gen_func_model("f"), Ok(()));
    let names_of: Vec<&str> = t.model.func_models.iter().map(|fm| &fm.sig.name[..]).collect();
    assert_eq!(names_of, vec!["bb_0x10", "bb_0x14", "bb_0x50", "g", "f"]);
    assert_eq!(t.generated, vec![0x10, 0x50]);
    let f = &t.model.func_models[4];
    assert_eq!(f.sig.entry_addr, 0x10);
    assert!(f.inline);
    assert!(f.sig.arg_decls.is_empty());
    assert_eq!(f.sig.mod_set, names(&["pc", "ra", "returned", "t1", "t2"]));
    let g = &t.model.func_models[3];
    assert_eq!(g.sig.arg_decls, vec![reg("x"), reg("y")]);
    assert_eq!(g.sig.mod_set, names(&["pc", "returned", "t2"]));
    let b = &t.model.func_models[0];
    assert!(b.inline);
    assert_eq!(b.sig.entry_addr, 0x10);
    assert_eq!(b.sig.mod_set, names(&["pc", "ra", "returned"]));
    assert_eq!(b.body, Stmt::Block(vec![Box::new(set("ra", 0x14))]));
    let vars: Vec<&str> = t.model.vars.iter().map(|v| &v.name[..]).collect();
    assert_eq!(vars, vec!["a1", "pc", "ra", "zero"]);
    // A second call changes nothing.
    let before = t.model.clone();
    assert_eq!(t.gen_func_model("f"), Ok(()));
    assert_eq!(t.gen_func_model("g"), Ok(()));
    assert_eq!(t.model, before);
    t.clear();
    assert!(t.model.func_models.is_empty());
    assert!(t.model.vars.is_empty());
    assert!(t.generated.is_empty());
    assert_eq!(t.model.name, "main");
}

#[test]
fn ignored_callee_scenario() {
    let (bbs, cfgs) = caller_and_callee();
    let specs = vec![FuncSpec {
        fname: "g".to_string(),
        specs: vec![
            Spec::Modifies(names(&["a0"])),
            Spec::Requires(BExpr::Bool(true)),
            Spec::Ensures(BExpr::Bool(false)),
        ],
    }];
    let mut t = Translator::new(
        64,
        "main",
        &vec![],
        bbs,
        cfgs,
        names(&["g"]),
        vec![],
        dwarf_with_g(),
        specs,
        false,
    );
    assert_eq!(t.gen_func_model("f"), Ok(()));
    let names_of: Vec<&str> = t.model.func_models.iter().map(|fm| &fm.sig.name[..]).collect();
    assert_eq!(names_of, vec!["bb_0x10", "bb_0x14", "bb_0x50", "g", "f"]);
    let f = &t.model.func_models[4];
    for n in ["pc", "returned", "a0", "ra", "t1"] {
        assert!(f.sig.mod_set.contains(n), "{}", n);
    }
    assert!(!f.inline);
    let g = &t.model.func_models[3];
    assert_eq!(g.body, Stmt::Block(vec![]));
    assert!(!g.inline);
    assert_eq!(g.sig.mod_set, names(&["a0"]));
    assert_eq!(g.sig.preconds, vec![Spec::Requires(BExpr::Bool(true))]);
    assert_eq!(g.sig.postconds, vec![Spec::Ensures(BExpr::Bool(false))]);
    assert_eq!(g.sig.arg_decls, vec![reg("x"), reg("y")]);
}

#[test]
fn a_stub_for_an_ignored_function() {
    let (bbs, cfgs) = caller_and_callee();
    let mut t = Translator::new(
        64,
        "main",
        &vec![],
        bbs,
        cfgs,
        names(&["g"]),
        vec![],
        dwarf_with_g(),
        vec![],
        true,
    );
    assert_eq!(t.gen_func_model_stub("zz"), Err(Error::MissingLabel("zz".to_string())));
    assert_eq!(t.gen_func_model("g"), Ok(()));
    assert_eq!(t.model.func_models.len(), 1);
    let g = &t.model.func_models[0];
    assert_eq!(g.sig.name, "g");
    assert_eq!(g.sig.entry_addr, 0x50);
    assert!(g.sig.mod_set.names.is_empty());
    assert!(g.sig.preconds.is_empty());
}

#[test]
fn contracts_by_function_and_kind() {
    let specs = vec![
        FuncSpec { fname: "f".to_string(), specs: vec![Spec::Requires(BExpr::Bool(true))] },
        FuncSpec {
            fname: "f".to_string(),
            specs: vec![
                Spec::Ensures(BExpr::Bool(true)),
                Spec::Modifies(names(&["b", "a"])),
                Spec::Ensures(BExpr::Bool(false)),
                Spec::Modifies(names(&["c", "a"])),
            ],
        },
    ];
    // Of two records for a function the later one counts.
    assert_eq!(filter_from_spec_map(&specs, "f", SpecKind::Requires), Some(vec![]));
    assert_eq!(
        filter_from_spec_map(&specs, "f", SpecKind::Ensures),
        Some(vec![Spec::Ensures(BExpr::Bool(true)), Spec::Ensures(BExpr::Bool(false))])
    );
    assert_eq!(filter_from_spec_map(&specs, "g", SpecKind::Ensures), None);
    assert_eq!(mod_set_from_spec_map(&specs, "f"), Some(names(&["a", "b", "c"])));
    assert_eq!(mod_set_from_spec_map(&specs, "g"), None);
}

#[test]
fn arguments_and_registers() {
    let d = dwarf_with_g();
    assert_eq!(
        func_args(&d, "g"),
        vec![Expr::var("x", bv(32)), Expr::var("y", bv(64))]
    );
    assert_eq!(func_args(&d, "nobody"), vec![]);
    let st = DwarfTypeDefn::Struct {
        id: "s".to_string(),
        fields: vec![riscverifier::dwarf::StructField {
            name: "f".to_string(),
            typ: DwarfTypeDefn::Primitive { bytes: 2 },
            loc: 0,
        }],
        bytes: 2,
    };
    assert_eq!(
        to_ir_type(&DwarfTypeDefn::Array {
            in_typ: Box::new(DwarfTypeDefn::Primitive { bytes: 8 }),
            out_typ: Box::new(st),
            bytes: 20
        }),
        Type::Array {
            in_typs: vec![Box::new(bv(64))],
            out_typ: Box::new(Type::Struct {
                id: "s".to_string(),
                fields: vec![Field { name: "f".to_string(), typ: bv(16) }],
                w: 16
            })
        }
    );
    let cfg = Cfg { entry_addr: 0x10, nodes: diamond() };
    let vars: Vec<String> = infer_vars(&cfg, 64).into_iter().map(|v| v.name).collect();
    assert_eq!(vars, vec!["a1", "a2", "a1", "a3", "a1", "zero", "a1"]);
    let _ = Expr::op_app(Op::Bv(BVOp::Add), vec![reg("a"), reg("b")]);
}

#[test]
fn struct_fields_are_ordered_by_name() {
    let field = |name: &str, bytes: u64| riscverifier::dwarf::StructField {
        name: name.to_string(),
        typ: DwarfTypeDefn::Primitive { bytes },
        loc: 0,
    };
    let st = DwarfTypeDefn::Struct {
        id: "s".to_string(),
        fields: vec![field("z", 1), field("a", 2), field("m", 4), field("a", 8)],
        bytes: 15,
    };
    assert_eq!(
        to_ir_type(&st),
        Type::Struct {
            id: "s".to_string(),
            fields: vec![
                Field { name: "a".to_string(), typ: bv(64) },
                Field { name: "m".to_string(), typ: bv(32) },
                Field { name: "z".to_string(), typ: bv(8) },
            ],
            w: 120
        }
    );
}

#[test]
fn a_function_without_a_graph_is_not_generated() {
    let (bbs, cfgs) = caller_and_callee();
    let only_g = vec![cfgs.into_iter().nth(1).unwrap()];
    let mut t = Translator::new(
        64,
        "main",
        &vec![],
        bbs,
        only_g,
        NameSet::new(),
        vec![],
        no_dwarf(),
        vec![],
        true,
    );
    assert_eq!(t.gen_func_model("f"), Err(Error::MissingBlock(0x10)));
    assert!(t.model.func_models.is_empty());
    assert_eq!(t.gen_func_model("g"), Ok(()));
    let names_of: Vec<&str> = t.model.func_models.iter().map(|fm| &fm.sig.name[..]).collect();
    assert_eq!(names_of, vec!["bb_0x50", "g"]);
    // What a function may write is recorded last, after that of its blocks.
    let recorded: Vec<&str> = t.mod_set_map.entries.iter().map(|e| &e.0[..]).collect();
    assert_eq!(recorded, vec!["bb_0x50", "g"]);
    assert_eq!(t.mod_set_map.entries[1].1, names(&["pc", "returned", "t2"]));
}

#[test]
fn a_jump_out_of_the_graph_is_an_error() {
    // The block at 0x10 jumps to 0x50, and the graph has no block there.
    let f0 = || bb(0x10, "f", true, vec![0x50], vec![inst(0x10, "f", "jal", operand("ra"), Some(0x50))], vec![]);
    let g0 = || bb(0x50, "g", true, vec![], vec![], vec![]);
    let cfg = Cfg { entry_addr: 0x10, nodes: vec![f0()] };
    assert_eq!(topo_sort(&cfg, &vec![f0(), g0()], &NameSet::new()), Err(Error::MissingBlock(0x50)));
    // A reached block that the program does not have.
    let cfg = Cfg { entry_addr: 0x10, nodes: vec![f0(), g0()] };
    assert_eq!(topo_sort(&cfg, &vec![g0()], &NameSet::new()), Err(Error::MissingBlock(0x10)));
    // A graph without its entry.
    let cfg = Cfg { entry_addr: 0x10, nodes: vec![g0()] };
    assert_eq!(topo_sort(&cfg, &vec![f0(), g0()], &NameSet::new()), Err(Error::MissingBlock(0x10)));
    // With the blocks there, the callee's entry comes after the caller.
    let cfg = Cfg { entry_addr: 0x10, nodes: vec![f0(), g0()] };
    assert_eq!(topo_sort(&cfg, &vec![f0(), g0()], &NameSet::new()), Ok(vec![0x10, 0x50]));
}

#[test]
fn tracked_clauses_are_carried_with_the_contract() {
    let specs = || {
        vec![
            FuncSpec {
                fname: "g".to_string(),
                specs: vec![
                    Spec::Requires(BExpr::Bool(true)),
                    Spec::Track("t".to_string(), riscverifier::sl_ast::VExpr::Bool(true, riscverifier::sl_ast::VType::Bool)),
                ],
            },
            FuncSpec {
                fname: "f".to_string(),
                specs: vec![Spec::Track("u".to_string(), riscverifier::sl_ast::VExpr::Bool(false, riscverifier::sl_ast::VType::Bool))],
            },
        ]
    };
    let build = |ignore_specs: bool| {
        let (bbs, cfgs) = caller_and_callee();
        let mut t = Translator::new(
            64,
            "main",
            &vec![],
            bbs,
            cfgs,
            names(&["g"]),
            vec![],
            dwarf_with_g(),
            specs(),
            ignore_specs,
        );
        assert_eq!(t.gen_func_model("f"), Ok(()));
        t
    };
    let with = build(false);
    let g = &with.model.func_models[3];
    assert_eq!(g.sig.name, "g");
    assert_eq!(g.sig.tracks, vec![Spec::Track("t".to_string(), riscverifier::sl_ast::VExpr::Bool(true, riscverifier::sl_ast::VType::Bool))]);
    assert_eq!(g.sig.preconds, vec![Spec::Requires(BExpr::Bool(true))]);
    let f = &with.model.func_models[4];
    assert_eq!(f.sig.tracks, vec![Spec::Track("u".to_string(), riscverifier::sl_ast::VExpr::Bool(false, riscverifier::sl_ast::VType::Bool))]);
    // Where contracts are left out, so are the tracked clauses.
    let without = build(true);
    let g = &without.model.func_models[3];
    assert_eq!(g.sig.name, "g");
    assert!(g.sig.tracks.is_empty());
    assert!(g.sig.preconds.is_empty());
    assert_eq!(g.body, Stmt::Block(vec![]));
    assert!(!g.inline);
    let f = &without.model.func_models[4];
    assert!(f.sig.tracks.is_empty());
    assert!(f.inline);
}

#[test]
fn callees_are_generated_before_their_caller_is_done() {
    // f calls g and h; g calls h; h calls f.
    let jal = |a: u64, f: &str, to: i64| inst(a, f, "jal", operand("ra"), Some(to));
    let f0 = || bb(0x10, "f", true, vec![0x50, 0x14], vec![jal(0x10, "f", 0x50)], vec![set("t0", 1)]);
    let f1 = || bb(0x14, "f", false, vec![0x70], vec![jal(0x14, "f", 0x70)], vec![set("t1", 1)]);
    let g0 = || bb(0x50, "g", true, vec![0x70], vec![jal(0x50, "g", 0x70)], vec![set("t2", 1)]);
    let h0 = || bb(0x70, "h", true, vec![0x10], vec![jal(0x70, "h", 0x10)], vec![set("t3", 1)]);
    let bbs = vec![f0(), f1(), g0(), h0()];
    let cfgs = vec![
        Cfg { entry_addr: 0x10, nodes: vec![f0(), f1(), g0(), h0()] },
        Cfg { entry_addr: 0x50, nodes: vec![g0(), h0()] },
        Cfg { entry_addr: 0x70, nodes: vec![h0(), f0()] },
    ];
    let mut t = Translator::new(
        64,
        "main",
        &vec![],
        bbs,
        cfgs,
        NameSet::new(),
        vec![],
        no_dwarf(),
        vec![],
        true,
    );
    assert_eq!(t.gen_func_model("f"), Ok(()));
    assert_eq!(t.generated, vec![0x10, 0x50, 0x70]);
    for n in ["f", "g", "h"] {
        assert!(t.model.has_func_model(n), "{}", n);
        assert!(t.mod_set_map.get(n).is_some(), "{}", n);
    }
    let set = |n: &str| t.mod_set_map.get(n).unwrap().clone();
    // What a callee may write, its caller may write.
    for n in &set("g").names {
        assert!(set("f").contains(n), "{}", n);
    }
    for n in &set("h").names {
        assert!(set("g").contains(n), "{}", n);
        assert!(set("f").contains(n), "{}", n);
    }
    assert_eq!(set("h"), names(&["pc", "returned", "t0", "t3"]));
    assert_eq!(set("f"), names(&["pc", "returned", "t0", "t1", "t2", "t3"]));
    let recorded: Vec<&str> = t.mod_set_map.entries.iter().map(|e| &e.0[..]).collect();
    assert_eq!(recorded.last(), Some(&"f"));
}

#[test]
fn the_model_of_a_translator_is_written() {
    let (bbs, cfgs) = caller_and_callee();
    let sys = vec![Var { name: "pc".to_string(), typ: bv(64) }];
    let mut t = Translator::new(
        64,
        "main",
        &sys,
        bbs,
        cfgs,
        NameSet::new(),
        vec![],
        dwarf_with_g(),
        vec![],
        true,
    );
    assert_eq!(t.gen_func_model("f"), Ok(()));
    let text = t.print_model("// prelude").unwrap();
    let again = t.print_model("// prelude").unwrap();
    assert_eq!(text, again);
    assert!(text.starts_with("module main {\n"));
    assert!(text.contains("\n// prelude\n"));
    let pos = |needle: &str| text.find(needle).unwrap_or_else(|| panic!("{} is missing", needle));
    assert!(pos("var a1: bv64;") < pos("var pc: bv64;"));
    assert!(pos("var pc: bv64;") < pos("var ra: bv64;"));
    assert!(pos("procedure [inline] bb_0x10()") < pos("procedure [inline] g("));
    assert!(pos("procedure [inline] g(") < pos("procedure [inline] f("));
    // A variable whose type cannot be written keeps the model from being
    // written.
    t.model.vars.push(Var { name: "u".to_string(), typ: Type::Unknown });
    assert_eq!(t.print_model("// prelude"), None);
}
