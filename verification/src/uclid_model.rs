//! The UCLID5 text of a whole model: helper macros, variables, procedures
//! and the control block.

use crate::dwarf::{
    dwarf_var_views, fields_of, func_sig_views, struct_field_views, DwarfCtx, DwarfCtxView,
    DwarfFuncSigView, DwarfTypeDefn, DwarfTypeView, DwarfVar, DwarfVarView, StructField,
    StructFieldView,
};
use crate::helpers::{global_func_addr_name, global_var_ptr_name, indent_text, indented};
use crate::names::{lemma_union_sorted, sorted, union_sorted, NameSet};
use crate::sl_ast::{spec_views, Spec, SpecView};
use crate::text::{dec_digits, join, join_strings, u64_to_dec, views};
use crate::topo::{ascending, insert_ascending, lemma_listing, lemma_listing_of, listing};
use crate::translator::Translator;
use crate::uclid_specs::bexpr_text;
use crate::uclidinterface::{printable, renderable_stmt, stmt_text, typ_text, Uclid5Interface};
use crate::veriv_ast::{
    expr_views, func_model_views, lemma_vars_by_name, var_views, vars_by_name, vars_sorted, Expr,
    ExprView, FuncModel, FuncModelView, FuncSig, FuncSigView, Model, ModelView, Var, VarView,
};
use vstd::prelude::*;

verus! {

// ============================================================================
// Array helpers

/// The name of the macro that indexes an array of elements of `bytes`
/// bytes.
pub open spec fn index_macro_name(bytes: u64) -> Seq<char> {
    "index_by_"@ + dec_digits(bytes as nat)
}

/// The text of `expr` shifted left by `i` bits.
pub open spec fn shift_term(i: nat, expr: Seq<char>, xlen: u64) -> Seq<char> {
    "bv_left_shift("@ + dec_digits(i) + "bv"@ + dec_digits(xlen as nat) + ", "@ + expr + ")"@
}

/// The shifts of `expr` for the binary digits of `n` that are one, from
/// digit `i` on, added before `acc`.
pub open spec fn shift_terms(n: nat, i: nat, expr: Seq<char>, xlen: u64, acc: Seq<char>) -> Seq<
    char,
>
    decreases n,
{
    if n == 0 {
        acc
    } else {
        shift_terms(
            n / 2,
            i + 1,
            expr,
            xlen,
            if n % 2 == 1 {
                shift_term(i, expr, xlen) + (if acc.len() == 0 {
                    Seq::empty()
                } else {
                    " + "@
                }) + acc
            } else {
                acc
            },
        )
    }
}

/// The text of `n` times `expr`: the sum of the shifts of `expr` for the
/// binary digits of `n` that are one, the highest first.
pub open spec fn multiply_text(n: u64, expr: Seq<char>, xlen: u64) -> Seq<char> {
    shift_terms(n as nat, 0, expr, xlen, Seq::empty())
}

/// The text of the macro that indexes an array of elements of `bytes`
/// bytes: the base plus `bytes` times the index.
pub open spec fn array_defn_text(bytes: u64, xlen: u64) -> Seq<char> {
    "define "@ + index_macro_name(bytes) + "(base: bv"@ + dec_digits(xlen as nat) + ", index: bv"@
        + dec_digits(xlen as nat) + "): bv"@ + dec_digits(xlen as nat) + " = base + "@ + (if bytes
        == 1 {
        "index"@
    } else {
        multiply_text(bytes, "index"@, xlen)
    }) + ";"@
}

/// The ascending list `acc` with `x` in it.
pub open spec fn put(acc: Seq<u64>, x: u64) -> Seq<u64> {
    listing(acc.to_set().insert(x))
}

/// `acc` with the sizes, in bytes, of the type `d` and of the types inside
/// it: of primitives and of structs, where they are not zero.
pub open spec fn type_sizes(d: DwarfTypeView, acc: Seq<u64>) -> Seq<u64>
    decreases d, fields_of(d).len() + 1,
{
    match d {
        DwarfTypeView::Primitive { bytes } => if bytes > 0 {
            put(acc, bytes)
        } else {
            acc
        },
        DwarfTypeView::Pointer { value_typ, bytes } => type_sizes(*value_typ, acc),
        DwarfTypeView::Array { in_typ, out_typ, bytes } => type_sizes(
            *out_typ,
            type_sizes(*in_typ, acc),
        ),
        DwarfTypeView::Struct { id, fields, bytes } => {
            let a = field_sizes(d, 0, acc);
            if bytes > 0 {
                put(a, bytes)
            } else {
                a
            }
        },
    }
}

/// `acc` with the sizes of the types of the fields of `d` from index `i`
/// on.
pub open spec fn field_sizes(d: DwarfTypeView, i: nat, acc: Seq<u64>) -> Seq<u64>
    decreases d, fields_of(d).len() - i,
{
    if i >= fields_of(d).len() {
        acc
    } else {
        field_sizes(d, i + 1, type_sizes(fields_of(d)[i as int].typ, acc))
    }
}

/// `acc` with the sizes of the types of the variables of `vars` from index
/// `i` on.
pub open spec fn vars_sizes(vars: Seq<DwarfVarView>, i: nat, acc: Seq<u64>) -> Seq<u64>
    decreases vars.len() - i,
{
    if i >= vars.len() {
        acc
    } else {
        vars_sizes(vars, i + 1, type_sizes(vars[i as int].typ_defn, acc))
    }
}

/// `acc` with the sizes of the types of the arguments and results of the
/// functions of `sigs` from index `i` on.
pub open spec fn sigs_sizes(sigs: Seq<DwarfFuncSigView>, i: nat, acc: Seq<u64>) -> Seq<u64>
    decreases sigs.len() - i,
{
    if i >= sigs.len() {
        acc
    } else {
        let a = vars_sizes(sigs[i as int].args, 0, acc);
        sigs_sizes(
            sigs,
            i + 1,
            match sigs[i as int].ret_type {
                Some(t) => type_sizes(t, a),
                None => a,
            },
        )
    }
}

/// The sizes, in bytes, of the types of the global variables and of the
/// arguments and results of the functions, in ascending order.
pub open spec fn all_sizes(dwarf: DwarfCtxView) -> Seq<u64> {
    sigs_sizes(dwarf.func_sigs, 0, vars_sizes(dwarf.global_vars, 0, Seq::empty()))
}

/// The texts of the index macros for the sizes `sizes`.
pub open spec fn array_defn_texts(sizes: Seq<u64>, xlen: u64) -> Seq<Seq<char>> {
    Seq::new(sizes.len(), |i: int| array_defn_text(sizes[i], xlen))
}

/// The section of the index macros: one macro for each size, in ascending
/// order of the sizes.
pub open spec fn array_defns_text(dwarf: DwarfCtxView, xlen: u64) -> Seq<char> {
    indented("// Array helpers\n"@ + join(array_defn_texts(all_sizes(dwarf), xlen), "\n"@), 4)
}

// ============================================================================
// Struct helpers

/// The name of the macro that gives the address of the field `field_name`
/// of a struct named `struct_id`.
pub open spec fn field_macro_name(struct_id: Seq<char>, field_name: Seq<char>) -> Seq<char> {
    struct_id + "_"@ + field_name
}

/// The text of the macro of a field: the struct's address plus the
/// field's offset.
pub open spec fn field_defn_text(id: Seq<char>, f: StructFieldView, xlen: u64) -> Seq<char> {
    "define "@ + field_macro_name(id, f.name) + "(ptr: bv"@ + dec_digits(xlen as nat) + "): bv"@
        + dec_digits(xlen as nat) + " = ptr + "@ + dec_digits(f.loc as nat) + "bv"@ + dec_digits(
        xlen as nat,
    ) + ";"@
}

/// `acc` followed by the macros of the fields of the struct types inside
/// `d`: for each field first those of its own type, then its own.
pub open spec fn struct_lines(d: DwarfTypeView, xlen: u64, acc: Seq<Seq<char>>) -> Seq<Seq<char>>
    decreases d, fields_of(d).len() + 1,
{
    match d {
        DwarfTypeView::Struct { id, fields, bytes } => field_lines(d, xlen, 0, acc),
        DwarfTypeView::Array { in_typ, out_typ, bytes } => struct_lines(
            *out_typ,
            xlen,
            struct_lines(*in_typ, xlen, acc),
        ),
        _ => acc,
    }
}

/// `acc` followed by the macros of the fields of `d` from index `i` on.
pub open spec fn field_lines(d: DwarfTypeView, xlen: u64, i: nat, acc: Seq<Seq<char>>) -> Seq<
    Seq<char>,
>
    decreases d, fields_of(d).len() - i,
{
    if i >= fields_of(d).len() {
        acc
    } else {
        field_lines(
            d,
            xlen,
            i + 1,
            struct_lines(fields_of(d)[i as int].typ, xlen, acc).push(
                field_defn_text(d->Struct_id, fields_of(d)[i as int], xlen),
            ),
        )
    }
}

/// `acc` followed by the field macros of the types of the variables of
/// `vars` from index `i` on.
pub open spec fn vars_struct_lines(vars: Seq<DwarfVarView>, xlen: u64, i: nat, acc: Seq<Seq<char>>) -> Seq<
    Seq<char>,
>
    decreases vars.len() - i,
{
    if i >= vars.len() {
        acc
    } else {
        vars_struct_lines(vars, xlen, i + 1, struct_lines(vars[i as int].typ_defn, xlen, acc))
    }
}

/// `acc` followed by the field macros of the types of the arguments and
/// results of the functions of `sigs` from index `i` on.
pub open spec fn sigs_struct_lines(
    sigs: Seq<DwarfFuncSigView>,
    xlen: u64,
    i: nat,
    acc: Seq<Seq<char>>,
) -> Seq<Seq<char>>
    decreases sigs.len() - i,
{
    if i >= sigs.len() {
        acc
    } else {
        let a = vars_struct_lines(sigs[i as int].args, xlen, 0, acc);
        sigs_struct_lines(
            sigs,
            xlen,
            i + 1,
            match sigs[i as int].ret_type {
                Some(t) => struct_lines(t, xlen, a),
                None => a,
            },
        )
    }
}

/// The field macros of all struct types, as they are found.
pub open spec fn all_struct_lines(dwarf: DwarfCtxView, xlen: u64) -> Seq<Seq<char>> {
    sigs_struct_lines(
        dwarf.func_sigs,
        xlen,
        0,
        vars_struct_lines(dwarf.global_vars, xlen, 0, Seq::empty()),
    )
}

/// The lines of `lines` in ascending order, each once.
pub open spec fn sorted_lines(lines: Seq<Seq<char>>) -> Seq<Seq<char>> {
    union_sorted(Seq::empty(), lines)
}

/// The section of the field macros, in ascending order of their texts.
pub open spec fn struct_defns_text(dwarf: DwarfCtxView, xlen: u64) -> Seq<char> {
    indented(
        "// Struct helpers\n"@ + join(sorted_lines(all_struct_lines(dwarf, xlen)), "\n"@),
        4,
    )
}

// ============================================================================
// Globals

/// The text of the macro that gives the address of a global variable.
pub open spec fn global_defn_text(v: DwarfVarView, xlen: u64) -> Seq<char> {
    "define "@ + ("global_var_"@ + v.name) + "(): bv"@ + dec_digits(xlen as nat) + " = "@
        + dec_digits(v.memory_addr as nat) + "bv"@ + dec_digits(xlen as nat) + ";"@
}

/// The text of the macro that gives the entry address of a function.
pub open spec fn global_func_defn_text(name: Seq<char>, addr: u64, xlen: u64) -> Seq<char> {
    "define "@ + ("global_func_"@ + name) + "(): bv"@ + dec_digits(xlen as nat) + " = "@
        + dec_digits(addr as nat) + "bv"@ + dec_digits(xlen as nat) + ";"@
}

/// `acc` followed by the lines of `lines` from index `i` on, each ended by
/// a line break.
pub open spec fn ended_lines(lines: Seq<Seq<char>>, i: nat, acc: Seq<char>) -> Seq<char>
    decreases lines.len() - i,
{
    if i >= lines.len() {
        acc
    } else {
        ended_lines(lines, i + 1, acc + lines[i as int] + "\n"@)
    }
}

/// The macros of the global variables `vars`.
pub open spec fn global_lines(vars: Seq<DwarfVarView>, xlen: u64) -> Seq<Seq<char>> {
    Seq::new(vars.len(), |i: int| global_defn_text(vars[i], xlen))
}

/// The section of the macros of the global variables, in ascending order
/// of their texts.
pub open spec fn global_defns_text(dwarf: DwarfCtxView, xlen: u64) -> Seq<char> {
    indented(
        ended_lines(
            sorted_lines(global_lines(dwarf.global_vars, xlen)),
            0,
            "// Global variables\n"@,
        ),
        4,
    )
}

/// The macros of the entry addresses of the procedures `fms`.
pub open spec fn global_func_lines(fms: Seq<FuncModelView>, xlen: u64) -> Seq<Seq<char>> {
    Seq::new(
        fms.len(),
        |i: int| global_func_defn_text(fms[i].sig.name, fms[i].sig.entry_addr, xlen),
    )
}

/// The section of the macros of the entry addresses, in ascending order of
/// their texts.
pub open spec fn global_func_defns_text(model: ModelView, xlen: u64) -> Seq<char> {
    indented(
        ended_lines(
            sorted_lines(global_func_lines(model.func_models, xlen)),
            0,
            "// Global function entry addresses\n"@,
        ),
        4,
    )
}

impl Uclid5Interface {
    /// The name of the macro that indexes an array of elements of `bytes`
    /// bytes.
    pub fn array_index_macro_name(bytes: &u64) -> (r: String)
        ensures
            r@ == index_macro_name(*bytes),
    {
        let mut s = String::from_str("index_by_");
        s.append(u64_to_dec(*bytes).as_str());
        s
    }

    /// The text of `num_const` times `expr`, as a sum of shifts of `expr`.
    pub fn multiply_expr(num_const: &u64, expr: &str, xlen: &u64) -> (r: String)
        ensures
            r@ == multiply_text(*num_const, expr@, *xlen),
    {
        let mut acc = String::new();
        let mut n: u64 = *num_const;
        let mut i: u64 = 0;
        while n > 0
            invariant
                i + n <= u64::MAX,
                multiply_text(*num_const, expr@, *xlen) == shift_terms(
                    n as nat,
                    i as nat,
                    expr@,
                    *xlen,
                    acc@,
                ),
            decreases n,
        {
            if n % 2 == 1 {
                let mut t = String::from_str("bv_left_shift(");
                t.append(u64_to_dec(i).as_str());
                t.append("bv");
                t.append(u64_to_dec(*xlen).as_str());
                t.append(", ");
                t.append(expr);
                t.append(")");
                if acc.as_str().unicode_len() != 0 {
                    t.append(" + ");
                } else {
                    assert(t@ + Seq::<char>::empty() =~= t@);
                }
                t.append(acc.as_str());
                acc = t;
            }
            n = n / 2;
            i += 1;
        }
        acc
    }

    /// The text of the macro that indexes an array of elements of `bytes`
    /// bytes.
    pub fn gen_array_defn(bytes: &u64, xlen: &u64) -> (r: String)
        ensures
            r@ == array_defn_text(*bytes, *xlen),
    {
        let x = u64_to_dec(*xlen);
        let mut s = String::from_str("define ");
        s.append(Self::array_index_macro_name(bytes).as_str());
        s.append("(base: bv");
        s.append(x.as_str());
        s.append(", index: bv");
        s.append(x.as_str());
        s.append("): bv");
        s.append(x.as_str());
        s.append(" = base + ");
        if *bytes == 1 {
            s.append("index");
        } else {
            s.append(Self::multiply_expr(bytes, "index", xlen).as_str());
        }
        s.append(";");
        s
    }

    /// Puts a size into an ascending list of sizes.
    fn put_size(acc: &mut Vec<u64>, x: u64)
        requires
            ascending(old(acc)@),
        ensures
            ascending(final(acc)@),
            final(acc)@ == put(old(acc)@, x),
    {
        insert_ascending(acc, x);
        proof {
            lemma_listing_of(acc@);
        }
    }

    /// Adds the sizes of a type, and of the types inside it, to an
    /// ascending list of sizes.
    pub fn collect_sizes(typ_defn: &DwarfTypeDefn, acc: &mut Vec<u64>)
        requires
            ascending(old(acc)@),
        ensures
            ascending(final(acc)@),
            final(acc)@ == type_sizes(typ_defn@, old(acc)@),
        decreases typ_defn,
    {
        let ghost dv = typ_defn@;
        let ghost acc0 = acc@;
        match typ_defn {
            DwarfTypeDefn::Primitive { bytes } => {
                if *bytes > 0 {
                    Self::put_size(acc, *bytes);
                }
            },
            DwarfTypeDefn::Pointer { value_typ, bytes: _ } => {
                Self::collect_sizes(value_typ, acc);
            },
            DwarfTypeDefn::Array { in_typ, out_typ, bytes: _ } => {
                Self::collect_sizes(in_typ, acc);
                Self::collect_sizes(out_typ, acc);
            },
            DwarfTypeDefn::Struct { id, fields, bytes } => {
                proof {
                    DwarfTypeDefn::lemma_view_struct(*id, *fields, *bytes);
                }
                let mut i: usize = 0;
                while i < fields.len()
                    invariant
                        i <= fields.len(),
                        dv == typ_defn@,
                        fields_of(dv) == struct_field_views(fields@),
                        ascending(acc@),
                        field_sizes(dv, 0, acc0) == field_sizes(dv, i as nat, acc@),
                        decreases_to!(typ_defn => fields),
                    decreases fields.len() - i,
                {
                    assert(fields_of(dv)[i as int] == fields@[i as int]@);
                    Self::collect_sizes(&fields[i].typ, acc);
                    i += 1;
                }
                if *bytes > 0 {
                    Self::put_size(acc, *bytes);
                }
            },
        }
    }

    /// Adds the sizes of the types of variables to an ascending list of
    /// sizes.
    fn collect_vars_sizes(vars: &Vec<DwarfVar>, acc: &mut Vec<u64>)
        requires
            ascending(old(acc)@),
        ensures
            ascending(final(acc)@),
            final(acc)@ == vars_sizes(dwarf_var_views(vars@), 0, old(acc)@),
    {
        let ghost all = dwarf_var_views(vars@);
        let ghost acc0 = acc@;
        let mut i: usize = 0;
        while i < vars.len()
            invariant
                i <= vars.len(),
                all == dwarf_var_views(vars@),
                ascending(acc@),
                vars_sizes(all, 0, acc0) == vars_sizes(all, i as nat, acc@),
            decreases vars.len() - i,
        {
            assert(all[i as int] == vars@[i as int]@);
            Self::collect_sizes(&vars[i].typ_defn, acc);
            i += 1;
        }
    }

    /// The section of the index macros.
    pub fn gen_array_defns(dwarf_ctx: &DwarfCtx, xlen: &u64) -> (r: String)
        ensures
            r@ == array_defns_text(dwarf_ctx@, *xlen),
    {
        let mut sizes: Vec<u64> = Vec::new();
        Self::collect_vars_sizes(&dwarf_ctx.global_vars, &mut sizes);
        let ghost sigs = dwarf_ctx@.func_sigs;
        let ghost acc0 = sizes@;
        let mut i: usize = 0;
        while i < dwarf_ctx.func_sigs.len()
            invariant
                i <= dwarf_ctx.func_sigs.len(),
                sigs == func_sig_views(dwarf_ctx.func_sigs@),
                ascending(sizes@),
                sigs_sizes(sigs, 0, acc0) == sigs_sizes(sigs, i as nat, sizes@),
            decreases dwarf_ctx.func_sigs.len() - i,
        {
            let func_sig = &dwarf_ctx.func_sigs[i];
            assert(sigs[i as int] == func_sig@);
            Self::collect_vars_sizes(&func_sig.args, &mut sizes);
            match &func_sig.ret_type {
                Some(ret_type) => {
                    Self::collect_sizes(ret_type, &mut sizes);
                },
                None => {},
            }
            i += 1;
        }
        let mut defns: Vec<String> = Vec::new();
        let mut k: usize = 0;
        while k < sizes.len()
            invariant
                k <= sizes.len(),
                defns@.len() == k,
                forall|j: int| 0 <= j < k ==> defns@[j]@ == array_defn_text(sizes@[j], *xlen),
            decreases sizes.len() - k,
        {
            defns.push(Self::gen_array_defn(&sizes[k], xlen));
            k += 1;
        }
        assert(views(defns@) =~= array_defn_texts(sizes@, *xlen));
        let mut s = String::from_str("// Array helpers\n");
        s.append(join_strings(&defns, "\n").as_str());
        indent_text(s, 4)
    }

    /// The name of the macro that gives the address of a field of a
    /// struct.
    pub fn get_field_macro_name(struct_id: &str, field_name: &String) -> (r: String)
        ensures
            r@ == field_macro_name(struct_id@, field_name@),
    {
        let mut s = String::from_str(struct_id);
        s.append("_");
        s.append(field_name.as_str());
        s
    }

    /// The text of the macro of a field of the struct named `id`.
    fn field_defn(id: &str, field: &StructField, xlen: &u64) -> (r: String)
        ensures
            r@ == field_defn_text(id@, field@, *xlen),
    {
        let x = u64_to_dec(*xlen);
        let mut s = String::from_str("define ");
        s.append(Self::get_field_macro_name(id, &field.name).as_str());
        s.append("(ptr: bv");
        s.append(x.as_str());
        s.append("): bv");
        s.append(x.as_str());
        s.append(" = ptr + ");
        s.append(u64_to_dec(field.loc).as_str());
        s.append("bv");
        s.append(x.as_str());
        s.append(";");
        s
    }

    /// Adds the macros of the fields of the struct types inside a type.
    pub fn gen_struct_defn(typ: &DwarfTypeDefn, xlen: &u64, defns: &mut Vec<String>)
        ensures
            views(final(defns)@) == struct_lines(typ@, *xlen, views(old(defns)@)),
        decreases typ,
    {
        let ghost dv = typ@;
        let ghost acc0 = views(defns@);
        match typ {
            DwarfTypeDefn::Struct { id, fields, bytes } => {
                proof {
                    DwarfTypeDefn::lemma_view_struct(*id, *fields, *bytes);
                }
                let mut i: usize = 0;
                while i < fields.len()
                    invariant
                        i <= fields.len(),
                        dv == typ@,
                        dv->Struct_id == id@,
                        fields_of(dv) == struct_field_views(fields@),
                        field_lines(dv, *xlen, 0, acc0) == field_lines(
                            dv,
                            *xlen,
                            i as nat,
                            views(defns@),
                        ),
                        decreases_to!(typ => fields),
                    decreases fields.len() - i,
                {
                    assert(fields_of(dv)[i as int] == fields@[i as int]@);
                    Self::gen_struct_defn(&fields[i].typ, xlen, defns);
                    let ghost before = views(defns@);
                    let line = Self::field_defn(id.as_str(), &fields[i], xlen);
                    defns.push(line);
                    assert(views(defns@) =~= before.push(line@));
                    i += 1;
                }
            },
            DwarfTypeDefn::Array { in_typ, out_typ, bytes: _ } => {
                Self::gen_struct_defn(in_typ, xlen, defns);
                Self::gen_struct_defn(out_typ, xlen, defns);
            },
            _ => {},
        }
    }

    /// Adds the field macros of the types of variables.
    fn vars_struct_defns(vars: &Vec<DwarfVar>, xlen: &u64, defns: &mut Vec<String>)
        ensures
            views(final(defns)@) == vars_struct_lines(
                dwarf_var_views(vars@),
                *xlen,
                0,
                views(old(defns)@),
            ),
    {
        let ghost all = dwarf_var_views(vars@);
        let ghost acc0 = views(defns@);
        let mut i: usize = 0;
        while i < vars.len()
            invariant
                i <= vars.len(),
                all == dwarf_var_views(vars@),
                vars_struct_lines(all, *xlen, 0, acc0) == vars_struct_lines(
                    all,
                    *xlen,
                    i as nat,
                    views(defns@),
                ),
            decreases vars.len() - i,
        {
            assert(all[i as int] == vars@[i as int]@);
            Self::gen_struct_defn(&vars[i].typ_defn, xlen, defns);
            i += 1;
        }
    }

    /// The section of the field macros.
    pub fn gen_struct_defns(dwarf_ctx: &DwarfCtx, xlen: &u64) -> (r: String)
        ensures
            r@ == struct_defns_text(dwarf_ctx@, *xlen),
    {
        let mut defns: Vec<String> = Vec::new();
        assert(views(defns@) =~= Seq::<Seq<char>>::empty());
        Self::vars_struct_defns(&dwarf_ctx.global_vars, xlen, &mut defns);
        let ghost sigs = dwarf_ctx@.func_sigs;
        let ghost acc0 = views(defns@);
        let mut i: usize = 0;
        while i < dwarf_ctx.func_sigs.len()
            invariant
                i <= dwarf_ctx.func_sigs.len(),
                sigs == func_sig_views(dwarf_ctx.func_sigs@),
                sigs_struct_lines(sigs, *xlen, 0, acc0) == sigs_struct_lines(
                    sigs,
                    *xlen,
                    i as nat,
                    views(defns@),
                ),
            decreases dwarf_ctx.func_sigs.len() - i,
        {
            let func_sig = &dwarf_ctx.func_sigs[i];
            assert(sigs[i as int] == func_sig@);
            Self::vars_struct_defns(&func_sig.args, xlen, &mut defns);
            match &func_sig.ret_type {
                Some(ret_type) => {
                    Self::gen_struct_defn(ret_type, xlen, &mut defns);
                },
                None => {},
            }
            i += 1;
        }
        let lines = NameSet::from_names(&defns);
        let mut s = String::from_str("// Struct helpers\n");
        s.append(join_strings(&lines.names, "\n").as_str());
        indent_text(s, 4)
    }

    /// The text of the macro that gives the address of a global variable.
    pub fn gen_global_defn(global_var: &DwarfVar, xlen: &u64) -> (r: String)
        ensures
            r@ == global_defn_text(global_var@, *xlen),
    {
        let x = u64_to_dec(*xlen);
        let mut s = String::from_str("define ");
        s.append(global_var_ptr_name(global_var.name.as_str()).as_str());
        s.append("(): bv");
        s.append(x.as_str());
        s.append(" = ");
        s.append(u64_to_dec(global_var.memory_addr).as_str());
        s.append("bv");
        s.append(x.as_str());
        s.append(";");
        s
    }

    /// `head` followed by the lines of `lines`, each ended by a line
    /// break.
    fn lines_after(head: &str, lines: &Vec<String>) -> (r: String)
        ensures
            r@ == ended_lines(views(lines@), 0, head@),
    {
        let ghost all = views(lines@);
        let mut s = String::from_str(head);
        let mut i: usize = 0;
        while i < lines.len()
            invariant
                i <= lines.len(),
                all == views(lines@),
                ended_lines(all, 0, head@) == ended_lines(all, i as nat, s@),
            decreases lines.len() - i,
        {
            assert(all[i as int] == lines@[i as int]@);
            s.append(lines[i].as_str());
            s.append("\n");
            i += 1;
        }
        s
    }

    /// The section of the macros of the global variables.
    pub fn gen_global_defns(dwarf_ctx: &DwarfCtx, xlen: &u64) -> (r: String)
        ensures
            r@ == global_defns_text(dwarf_ctx@, *xlen),
    {
        let ghost vars = dwarf_ctx@.global_vars;
        let mut defns: Vec<String> = Vec::new();
        let mut i: usize = 0;
        while i < dwarf_ctx.global_vars.len()
            invariant
                i <= dwarf_ctx.global_vars.len(),
                defns@.len() == i,
                vars == dwarf_var_views(dwarf_ctx.global_vars@),
                forall|j: int| 0 <= j < i ==> defns@[j]@ == global_defn_text(vars[j], *xlen),
            decreases dwarf_ctx.global_vars.len() - i,
        {
            assert(vars[i as int] == dwarf_ctx.global_vars@[i as int]@);
            defns.push(Self::gen_global_defn(&dwarf_ctx.global_vars[i], xlen));
            i += 1;
        }
        assert(views(defns@) =~= global_lines(vars, *xlen));
        let lines = NameSet::from_names(&defns);
        indent_text(Self::lines_after("// Global variables\n", &lines.names), 4)
    }

    /// The text of the macro that gives the entry address of a function.
    pub fn gen_global_func_defn(func_name: &str, func_entry_addr: u64, xlen: &u64) -> (r: String)
        ensures
            r@ == global_func_defn_text(func_name@, func_entry_addr, *xlen),
    {
        let x = u64_to_dec(*xlen);
        let mut s = String::from_str("define ");
        s.append(global_func_addr_name(func_name).as_str());
        s.append("(): bv");
        s.append(x.as_str());
        s.append(" = ");
        s.append(u64_to_dec(func_entry_addr).as_str());
        s.append("bv");
        s.append(x.as_str());
        s.append(";");
        s
    }

    /// The section of the macros of the entry addresses of the procedures.
    pub fn gen_global_func_defns(model: &Model, xlen: &u64) -> (r: String)
        ensures
            r@ == global_func_defns_text(model@, *xlen),
    {
        let ghost fms = model@.func_models;
        let mut defns: Vec<String> = Vec::new();
        let mut i: usize = 0;
        while i < model.func_models.len()
            invariant
                i <= model.func_models.len(),
                defns@.len() == i,
                fms == func_model_views(model.func_models@),
                forall|j: int|
                    0 <= j < i ==> defns@[j]@ == global_func_defn_text(
                        fms[j].sig.name,
                        fms[j].sig.entry_addr,
                        *xlen,
                    ),
            decreases model.func_models.len() - i,
        {
            let fm = &model.func_models[i];
            assert(fms[i as int] == fm@);
            defns.push(Self::gen_global_func_defn(fm.sig.name.as_str(), fm.sig.entry_addr, xlen));
            i += 1;
        }
        assert(views(defns@) =~= global_func_lines(fms, *xlen));
        let lines = NameSet::from_names(&defns);
        indent_text(Self::lines_after("// Global function entry addresses\n", &lines.names), 4)
    }
}


// ============================================================================
// Variables and procedures

/// The text of the declaration of a variable: its name and its type.
pub open spec fn var_decl_text(v: VarView) -> Seq<char> {
    v.name + ": "@ + typ_text(v.typ)
}

/// The declarations of the variables `vars`, one per line.
pub open spec fn var_defn_lines(vars: Seq<VarView>) -> Seq<Seq<char>> {
    Seq::new(vars.len(), |i: int| "var "@ + var_decl_text(vars[i]) + ";"@)
}

/// The section of the state variables: one declaration for each variable
/// of the model, in the order of the names of the variables.
pub open spec fn var_defns_text(model: ModelView) -> Seq<char> {
    "// RISC-V system state variables\n"@ + join(
        var_defn_lines(vars_by_name(model.vars)),
        "\n"@,
    )
}

/// Where the types of variables can be written from an index on, the type
/// of each of them can.
proof fn lemma_vars_printable(vars: Seq<VarView>, i: nat, k: int)
    requires
        vars_printable(vars, i),
        i <= k < vars.len(),
    ensures
        printable(vars[k].typ),
    decreases vars.len() - i,
{
    if i < k {
        lemma_vars_printable(vars, i + 1, k);
    }
}

/// Whether the types of the variables of `vars` from index `i` on can be
/// written.
pub open spec fn vars_printable(vars: Seq<VarView>, i: nat) -> bool
    decreases vars.len() - i,
{
    i >= vars.len() || (printable(vars[i as int].typ) && vars_printable(vars, i + 1))
}

/// Whether the expressions of `args` from index `i` on are variables whose
/// types can be written.
pub open spec fn args_printable(args: Seq<ExprView>, i: nat) -> bool
    decreases args.len() - i,
{
    i >= args.len() || (args[i as int] is Var && printable(args[i as int]->Var_0.typ)
        && args_printable(args, i + 1))
}

/// Whether a procedure can be written: its arguments are variables of
/// types that can be written, its result type can be written, and its
/// body is a block that can be written.
pub open spec fn emittable_func(fm: FuncModelView) -> bool {
    &&& fm.body is Block
    &&& renderable_stmt(fm.body)
    &&& args_printable(fm.sig.arg_decls, 0)
    &&& match fm.sig.ret_decl {
        Some(t) => printable(t),
        None => true,
    }
}

/// Whether the procedures of `fms` from index `i` on can be written.
pub open spec fn funcs_emittable(fms: Seq<FuncModelView>, i: nat) -> bool
    decreases fms.len() - i,
{
    i >= fms.len() || (emittable_func(fms[i as int]) && funcs_emittable(fms, i + 1))
}

/// Whether a model can be written: its variables and procedures can.
pub open spec fn emittable(model: ModelView) -> bool {
    vars_printable(model.vars, 0) && funcs_emittable(model.func_models, 0)
}

/// `acc` followed by the pre- and postconditions among the clauses of
/// `specs` from index `i` on, each on a line of its own.
pub open spec fn clauses_text(specs: Seq<SpecView>, xlen: u64, i: nat, acc: Seq<char>) -> Seq<char>
    decreases specs.len() - i,
{
    if i >= specs.len() {
        acc
    } else {
        clauses_text(
            specs,
            xlen,
            i + 1,
            match specs[i as int] {
                SpecView::Requires(b) => acc + "\n    requires ("@ + bexpr_text(b, xlen) + ");"@,
                SpecView::Ensures(b) => acc + "\n    ensures ("@ + bexpr_text(b, xlen) + ");"@,
                _ => acc,
            },
        )
    }
}

/// The text of the contract of a procedure: its preconditions, then its
/// postconditions.
pub open spec fn specs_text(sig: FuncSigView, xlen: u64) -> Seq<char> {
    clauses_text(sig.postconds, xlen, 0, clauses_text(sig.preconds, xlen, 0, Seq::empty()))
}

/// The declarations of the arguments of a procedure.
pub open spec fn arg_decl_texts(args: Seq<ExprView>) -> Seq<Seq<char>> {
    Seq::new(args.len(), |i: int| var_decl_text(args[i]->Var_0))
}

/// The clause that lists the names that a procedure may write; empty where
/// it may write none.
pub open spec fn modifies_text(ms: Seq<Seq<char>>) -> Seq<char> {
    if ms.len() > 0 {
        "\n    modifies "@ + join(ms, ", "@) + ";"@
    } else {
        Seq::empty()
    }
}

/// The text of a procedure: the signature with arguments, result, written
/// names and contract, and the body.
pub open spec fn func_model_text(fm: FuncModelView, xlen: u64) -> Seq<char> {
    "procedure "@ + (if fm.inline {
        "[inline] "@
    } else {
        Seq::empty()
    }) + fm.sig.name + "("@ + join(arg_decl_texts(fm.sig.arg_decls), ", "@) + ")"@ + (match fm.sig.ret_decl {
        Some(t) => " returns (ret: "@ + typ_text(t) + ")"@,
        None => Seq::empty(),
    }) + modifies_text(fm.sig.mod_set) + specs_text(fm.sig, xlen) + "\n"@ + stmt_text(
        fm.body,
        xlen,
    ) + "\n\n"@
}

/// The texts of the procedures `fms`.
pub open spec fn func_model_texts(fms: Seq<FuncModelView>, xlen: u64) -> Seq<Seq<char>> {
    Seq::new(fms.len(), |i: int| func_model_text(fms[i], xlen))
}

/// The section of the procedures, in the order of the model.
pub open spec fn procs_text(model: ModelView, xlen: u64) -> Seq<char> {
    indented(join(func_model_texts(model.func_models, xlen), "\n\n"@), 4)
}

// ============================================================================
// Control block

/// The line that asks for the verification of the function `name`.
pub open spec fn verify_line(name: Seq<char>) -> Seq<char> {
    "f"@ + name + " = verify("@ + name + ");"@
}

/// The lines for the functions that were named to be verified.
pub open spec fn verify_lines(verify: Seq<Seq<char>>) -> Seq<Seq<char>> {
    Seq::new(verify.len(), |i: int| verify_line(verify[i]))
}

/// `acc` followed by a line for each procedure of `fms` from index `i` on
/// whose function the debugging information knows: the line that asks for
/// its verification, or an empty line where the function is ignored.
pub open spec fn default_lines(
    fms: Seq<FuncModelView>,
    dwarf: DwarfCtxView,
    ignored: Seq<Seq<char>>,
    i: nat,
    acc: Seq<Seq<char>>,
) -> Seq<Seq<char>>
    decreases fms.len() - i,
{
    if i >= fms.len() {
        acc
    } else {
        let name = fms[i as int].sig.name;
        default_lines(
            fms,
            dwarf,
            ignored,
            i + 1,
            if dwarf.sig(name) is Some {
                acc.push(
                    if !ignored.contains(name) {
                        verify_line(name)
                    } else {
                        Seq::empty()
                    },
                )
            } else {
                acc
            },
        )
    }
}

/// The options that are set for the solver.
pub open spec fn solver_options() -> Seq<char> {
    "set_solver_option(\":mbqi\", false);\nset_solver_option(\":case_split\", 0);\nset_solver_option(\":relevancy\", 0);\nset_solver_option(\":blast_full\", true);"@
}

/// The control block: the solver's options, a line for each function to
/// verify, and the commands that check and print. Where no function is
/// named to be verified, every function of the model that the debugging
/// information knows and that is not ignored is verified.
pub open spec fn control_text(
    model: ModelView,
    dwarf: DwarfCtxView,
    ignored: Seq<Seq<char>>,
    verify: Seq<Seq<char>>,
) -> Seq<char> {
    let lines = if verify.len() > 0 {
        verify_lines(verify)
    } else {
        default_lines(model.func_models, dwarf, ignored, 0, Seq::empty())
    };
    indented(
        "control {\n"@ + indented(solver_options(), 4) + "\n"@ + indented(
            join(lines, "\n"@) + "\ncheck;\nprint_results;"@,
            4,
        ) + "\n}"@,
        4,
    )
}

/// The type alias for registers and the helper that cuts a value to
/// register width.
pub open spec fn xlen_defn_text(xlen: u64) -> Seq<char> {
    indented(
        "type xlen_t = bv"@ + dec_digits(xlen as nat)
            + ";\ndefine to_xlen_t(x: bv64): xlen_t = x["@ + dec_digits((xlen - 1) as nat)
            + ":0];"@,
        4,
    )
}

/// The text of the module of a model: the register type, the prelude, the
/// variables, the macros for arrays, structs, globals and functions, the
/// procedures, and the control block.
pub open spec fn model_text(
    xlen: u64,
    model: ModelView,
    dwarf: DwarfCtxView,
    ignored: Seq<Seq<char>>,
    verify: Seq<Seq<char>>,
    prelude: Seq<char>,
) -> Seq<char> {
    "module "@ + model.name + " {\n"@ + xlen_defn_text(xlen) + "\n"@ + prelude + "\n"@ + indented(
        var_defns_text(model),
        4,
    ) + "\n"@ + array_defns_text(dwarf, xlen) + "\n"@ + struct_defns_text(dwarf, xlen) + "\n"@
        + global_defns_text(dwarf, xlen) + "\n"@ + global_func_defns_text(model, xlen) + "\n"@
        + procs_text(model, xlen) + "\n\n"@ + control_text(model, dwarf, ignored, verify) + "\n}"@
}

impl Uclid5Interface {
    /// The text of the declaration of a variable.
    pub fn var_decl(var: &Var) -> (r: String)
        requires
            printable(var@.typ),
        ensures
            r@ == var_decl_text(var@),
    {
        let mut s = Self::var_to_string(var);
        s.append(": ");
        s.append(Self::typ_to_string(&var.typ).as_str());
        s
    }

    /// The section of the state variables.
    pub fn gen_var_defns(model: &Model) -> (r: String)
        requires
            vars_printable(model@.vars, 0),
        ensures
            r@ == var_defns_text(model@),
    {
        let ordered = model.vars_in_order();
        let ghost vars = var_views(ordered@);
        proof {
            lemma_vars_by_name(model@.vars);
            assert forall|j: int| 0 <= j < vars.len() implies printable((#[trigger] vars[j]).typ) by {
                assert(vars.contains(vars[j]));
                let k = choose|k: int| 0 <= k < model@.vars.len() && model@.vars[k] == vars[j];
                lemma_vars_printable(model@.vars, 0, k);
            }
        }
        let mut lines: Vec<String> = Vec::new();
        let mut i: usize = 0;
        while i < ordered.len()
            invariant
                i <= ordered.len(),
                lines@.len() == i,
                vars == var_views(ordered@),
                forall|j: int| 0 <= j < vars.len() ==> printable((#[trigger] vars[j]).typ),
                forall|j: int|
                    0 <= j < i ==> lines@[j]@ == "var "@ + var_decl_text(vars[j]) + ";"@,
            decreases ordered.len() - i,
        {
            assert(vars[i as int] == ordered@[i as int]@);
            let mut s = String::from_str("var ");
            s.append(Self::var_decl(&ordered[i]).as_str());
            s.append(";");
            lines.push(s);
            i += 1;
        }
        assert(views(lines@) =~= var_defn_lines(vars));
        let mut s = String::from_str("// RISC-V system state variables\n");
        s.append(join_strings(&lines, "\n").as_str());
        s
    }

    /// The text of `expr` widened from `from` to `to` bits.
    pub fn extend_to_match_width(expr: &str, from: u64, to: u64) -> (r: String)
        ensures
            to > from ==> r@ == "bv_zero_extend("@ + dec_digits((to - from) as nat) + ", "@ + expr@
                + ")"@,
            to <= from ==> r@ == expr@,
    {
        if to > from {
            let mut s = String::from_str("bv_zero_extend(");
            s.append(u64_to_dec(to - from).as_str());
            s.append(", ");
            s.append(expr);
            s.append(")");
            s
        } else {
            String::from_str(expr)
        }
    }

    /// Adds the pre- and postconditions among `specs` to `acc`, each on a
    /// line of its own.
    fn clauses_to_string(specs: &Vec<Spec>, xlen: &u64, acc: &mut String)
        ensures
            final(acc)@ == clauses_text(spec_views(specs@), *xlen, 0, old(acc)@),
    {
        let ghost all = spec_views(specs@);
        let ghost acc0 = acc@;
        let mut i: usize = 0;
        while i < specs.len()
            invariant
                i <= specs.len(),
                all == spec_views(specs@),
                clauses_text(all, *xlen, 0, acc0) == clauses_text(all, *xlen, i as nat, acc@),
            decreases specs.len() - i,
        {
            assert(all[i as int] == specs@[i as int]@);
            match &specs[i] {
                Spec::Requires(b) => {
                    acc.append("\n    requires (");
                    acc.append(Self::bexpr_to_string(b, *xlen).as_str());
                    acc.append(");");
                },
                Spec::Ensures(b) => {
                    acc.append("\n    ensures (");
                    acc.append(Self::bexpr_to_string(b, *xlen).as_str());
                    acc.append(");");
                },
                _ => {},
            }
            i += 1;
        }
    }

    /// The text of the contract of a procedure.
    pub fn specs_to_string(fsig: &FuncSig, xlen: &u64) -> (r: String)
        ensures
            r@ == specs_text(fsig@, *xlen),
    {
        let mut specs = String::new();
        Self::clauses_to_string(&fsig.preconds, xlen, &mut specs);
        Self::clauses_to_string(&fsig.postconds, xlen, &mut specs);
        specs
    }

    /// The text of a procedure.
    pub fn func_model_to_string(fm: &FuncModel, xlen: &u64) -> (r: String)
        requires
            emittable_func(fm@),
        ensures
            r@ == func_model_text(fm@, *xlen),
    {
        let ghost args = fm@.sig.arg_decls;
        let mut decls: Vec<String> = Vec::new();
        let mut i: usize = 0;
        while i < fm.sig.arg_decls.len()
            invariant
                i <= fm.sig.arg_decls.len(),
                decls@.len() == i,
                args == expr_views(fm.sig.arg_decls@),
                args_printable(args, i as nat),
                forall|j: int| 0 <= j < i ==> decls@[j]@ == var_decl_text(args[j]->Var_0),
            decreases fm.sig.arg_decls.len() - i,
        {
            assert(args[i as int] == fm.sig.arg_decls@[i as int]@);
            match &fm.sig.arg_decls[i] {
                Expr::Var(v, _) => {
                    decls.push(Self::var_decl(v));
                },
                _ => {
                    decls.push(String::new());
                },
            }
            i += 1;
        }
        assert(views(decls@) =~= arg_decl_texts(args));
        let mut s = String::from_str("procedure ");
        if fm.inline {
            s.append("[inline] ");
        } else {
            assert(s@ + Seq::<char>::empty() =~= s@);
        }
        s.append(fm.sig.name.as_str());
        s.append("(");
        s.append(join_strings(&decls, ", ").as_str());
        s.append(")");
        match &fm.sig.ret_decl {
            Some(rd) => {
                let mut ret = String::from_str(" returns (ret: ");
                ret.append(Self::typ_to_string(rd).as_str());
                ret.append(")");
                s.append(ret.as_str());
            },
            None => {
                assert(s@ + Seq::<char>::empty() =~= s@);
            },
        }
        if fm.sig.mod_set.len() > 0 {
            let mut m = String::from_str("\n    modifies ");
            m.append(join_strings(&fm.sig.mod_set.names, ", ").as_str());
            m.append(";");
            s.append(m.as_str());
        } else {
            assert(s@ + Seq::<char>::empty() =~= s@);
        }
        s.append(Self::specs_to_string(&fm.sig, xlen).as_str());
        s.append("\n");
        s.append(Self::block_to_string(&fm.body, xlen).as_str());
        s.append("\n\n");
        s
    }

    /// The section of the procedures.
    pub fn gen_procs(model: &Model, xlen: &u64) -> (r: String)
        requires
            funcs_emittable(model@.func_models, 0),
        ensures
            r@ == procs_text(model@, *xlen),
    {
        let ghost fms = model@.func_models;
        let mut parts: Vec<String> = Vec::new();
        let mut i: usize = 0;
        while i < model.func_models.len()
            invariant
                i <= model.func_models.len(),
                parts@.len() == i,
                fms == func_model_views(model.func_models@),
                funcs_emittable(fms, i as nat),
                forall|j: int| 0 <= j < i ==> parts@[j]@ == func_model_text(fms[j], *xlen),
            decreases model.func_models.len() - i,
        {
            assert(fms[i as int] == model.func_models@[i as int]@);
            parts.push(Self::func_model_to_string(&model.func_models[i], xlen));
            i += 1;
        }
        assert(views(parts@) =~= func_model_texts(fms, *xlen));
        indent_text(join_strings(&parts, "\n\n"), 4)
    }

    /// The line that asks for the verification of a function.
    fn verify_call(name: &str) -> (r: String)
        ensures
            r@ == verify_line(name@),
    {
        let mut s = String::from_str("f");
        s.append(name);
        s.append(" = verify(");
        s.append(name);
        s.append(");");
        s
    }

    /// The control block.
    pub fn control_blk(
        model: &Model,
        dwarf_ctx: &DwarfCtx,
        ignored_funcs: &NameSet,
        verify_funcs: &Vec<String>,
    ) -> (r: String)
        ensures
            r@ == control_text(model@, dwarf_ctx@, ignored_funcs@, views(verify_funcs@)),
    {
        let mut lines: Vec<String> = Vec::new();
        if verify_funcs.len() > 0 {
            let mut i: usize = 0;
            while i < verify_funcs.len()
                invariant
                    i <= verify_funcs.len(),
                    lines@.len() == i,
                    forall|j: int| 0 <= j < i ==> lines@[j]@ == verify_line(verify_funcs@[j]@),
                decreases verify_funcs.len() - i,
            {
                lines.push(Self::verify_call(verify_funcs[i].as_str()));
                i += 1;
            }
            assert(views(verify_funcs@).len() == verify_funcs@.len());
            assert(views(lines@) =~= verify_lines(views(verify_funcs@)));
        } else {
            let ghost fms = model@.func_models;
            assert(views(lines@) =~= Seq::<Seq<char>>::empty());
            assert(views(verify_funcs@).len() == 0);
            let mut i: usize = 0;
            while i < model.func_models.len()
                invariant
                    i <= model.func_models.len(),
                    fms == func_model_views(model.func_models@),
                    default_lines(fms, dwarf_ctx@, ignored_funcs@, 0, Seq::empty())
                        == default_lines(fms, dwarf_ctx@, ignored_funcs@, i as nat, views(lines@)),
                decreases model.func_models.len() - i,
            {
                let fm = &model.func_models[i];
                assert(fms[i as int] == fm@);
                if dwarf_ctx.func_sig(fm.sig.name.as_str()).is_ok() {
                    let ghost before = views(lines@);
                    let line = if !ignored_funcs.contains(fm.sig.name.as_str()) {
                        Self::verify_call(fm.sig.name.as_str())
                    } else {
                        String::new()
                    };
                    lines.push(line);
                    assert(views(lines@) =~= before.push(line@));
                }
                i += 1;
            }
        }
        let mut verif = join_strings(&lines, "\n");
        verif.append("\ncheck;\nprint_results;");
        let verif = indent_text(verif, 4);
        let solver_opts = indent_text(
            String::from_str(
                "set_solver_option(\":mbqi\", false);\nset_solver_option(\":case_split\", 0);\nset_solver_option(\":relevancy\", 0);\nset_solver_option(\":blast_full\", true);",
            ),
            4,
        );
        let mut control = String::from_str("control {\n");
        control.append(solver_opts.as_str());
        control.append("\n");
        control.append(verif.as_str());
        control.append("\n}");
        indent_text(control, 4)
    }

    /// Whether a model can be written.
    pub fn can_emit(model: &Model) -> (r: bool)
        ensures
            r == emittable(model@),
    {
        let ghost vars = model@.vars;
        let mut i: usize = 0;
        while i < model.vars.len()
            invariant
                i <= model.vars.len(),
                vars == var_views(model.vars@),
                vars_printable(vars, 0) == vars_printable(vars, i as nat),
            decreases model.vars.len() - i,
        {
            assert(vars[i as int] == model.vars@[i as int]@);
            if !Self::typ_is_printable(&model.vars[i].typ) {
                return false;
            }
            i += 1;
        }
        let ghost fms = model@.func_models;
        let mut k: usize = 0;
        while k < model.func_models.len()
            invariant
                k <= model.func_models.len(),
                vars_printable(model@.vars, 0),
                fms == func_model_views(model.func_models@),
                funcs_emittable(fms, 0) == funcs_emittable(fms, k as nat),
            decreases model.func_models.len() - k,
        {
            let fm = &model.func_models[k];
            assert(fms[k as int] == fm@);
            if !Self::func_can_emit(fm) {
                return false;
            }
            k += 1;
        }
        true
    }

    /// Whether a procedure can be written.
    pub fn func_can_emit(fm: &FuncModel) -> (r: bool)
        ensures
            r == emittable_func(fm@),
    {
        if !fm.body.is_blk() {
            return false;
        }
        if !Self::stmt_is_renderable(&fm.body) {
            return false;
        }
        match &fm.sig.ret_decl {
            Some(t) => {
                if !Self::typ_is_printable(t) {
                    return false;
                }
            },
            None => {},
        }
        let ghost args = fm@.sig.arg_decls;
        let mut i: usize = 0;
        while i < fm.sig.arg_decls.len()
            invariant
                i <= fm.sig.arg_decls.len(),
                args == expr_views(fm.sig.arg_decls@),
                args_printable(args, 0) == args_printable(args, i as nat),
            decreases fm.sig.arg_decls.len() - i,
        {
            assert(args[i as int] == fm.sig.arg_decls@[i as int]@);
            match &fm.sig.arg_decls[i] {
                Expr::Var(v, _) => {
                    if !Self::typ_is_printable(&v.typ) {
                        return false;
                    }
                },
                _ => {
                    return false;
                },
            }
            i += 1;
        }
        true
    }

    /// The text of the UCLID5 module of a model. `prelude` is the text of
    /// the instruction semantics that the module starts with.
    pub fn model_to_string(
        xlen: &u64,
        model: &Model,
        dwarf_ctx: &DwarfCtx,
        ignored_funcs: &NameSet,
        verify_funcs: &Vec<String>,
        prelude: &str,
    ) -> (r: String)
        requires
            *xlen >= 1,
            emittable(model@),
        ensures
            r@ == model_text(
                *xlen,
                model@,
                dwarf_ctx@,
                ignored_funcs@,
                views(verify_funcs@),
                prelude@,
            ),
    {
        let mut xd = String::from_str("type xlen_t = bv");
        xd.append(u64_to_dec(*xlen).as_str());
        xd.append(";\ndefine to_xlen_t(x: bv64): xlen_t = x[");
        xd.append(u64_to_dec(*xlen - 1).as_str());
        xd.append(":0];");
        let xlen_defn = indent_text(xd, 4);
        let var_defns = indent_text(Self::gen_var_defns(model), 4);
        let array_defns = Self::gen_array_defns(dwarf_ctx, xlen);
        let struct_defns = Self::gen_struct_defns(dwarf_ctx, xlen);
        let global_var_defns = Self::gen_global_defns(dwarf_ctx, xlen);
        let global_func_defns = Self::gen_global_func_defns(model, xlen);
        let procs = Self::gen_procs(model, xlen);
        let ctrl_blk = Self::control_blk(model, dwarf_ctx, ignored_funcs, verify_funcs);
        let mut s = String::from_str("module ");
        s.append(model.name.as_str());
        s.append(" {\n");
        s.append(xlen_defn.as_str());
        s.append("\n");
        s.append(prelude);
        s.append("\n");
        s.append(var_defns.as_str());
        s.append("\n");
        s.append(array_defns.as_str());
        s.append("\n");
        s.append(struct_defns.as_str());
        s.append("\n");
        s.append(global_var_defns.as_str());
        s.append("\n");
        s.append(global_func_defns.as_str());
        s.append("\n");
        s.append(procs.as_str());
        s.append("\n\n");
        s.append(ctrl_blk.as_str());
        s.append("\n}");
        s
    }
}

impl Translator {
    /// The text of the UCLID5 module of the model built so far; `None`
    /// where the model cannot be written, or the register width is zero.
    pub fn print_model(&self, prelude: &str) -> (r: Option<String>)
        ensures
            self.xlen >= 1 && emittable(self.model@) ==> r is Some && r->0@ == model_text(
                self.xlen,
                self.model@,
                self.dwarf_ctx@,
                self.ignored_funcs@,
                views(self.verify_funcs@),
                prelude@,
            ),
            !(self.xlen >= 1 && emittable(self.model@)) ==> r is None,
    {
        if self.xlen >= 1 && Uclid5Interface::can_emit(&self.model) {
            Some(
                Uclid5Interface::model_to_string(
                    &self.xlen,
                    &self.model,
                    &self.dwarf_ctx,
                    &self.ignored_funcs,
                    &self.verify_funcs,
                    prelude,
                ),
            )
        } else {
            None
        }
    }
}

/// The text of a module is given by the values of the model, of the
/// debugging information and of the lists of functions alone: two inputs
/// of the same values give the same text.
pub proof fn lemma_emitter_deterministic(
    xlen: u64,
    m1: Model,
    m2: Model,
    d1: DwarfCtx,
    d2: DwarfCtx,
    i1: NameSet,
    i2: NameSet,
    v1: Vec<String>,
    v2: Vec<String>,
    prelude: Seq<char>,
)
    requires
        m1@ == m2@,
        d1@ == d2@,
        i1@ == i2@,
        views(v1@) == views(v2@),
    ensures
        model_text(xlen, m1@, d1@, i1@, views(v1@), prelude) == model_text(
            xlen,
            m2@,
            d2@,
            i2@,
            views(v2@),
            prelude,
        ),
{
}


/// Putting a size into a list gives an ascending list.
proof fn lemma_put_ascending(acc: Seq<u64>, x: u64)
    ensures
        ascending(put(acc, x)),
{
    vstd::seq_lib::seq_to_set_is_finite(acc);
    lemma_listing(acc.to_set().insert(x));
}

/// Collecting the sizes of a type keeps an ascending list ascending.
proof fn lemma_type_sizes_ascending(d: DwarfTypeView, acc: Seq<u64>)
    requires
        ascending(acc),
    ensures
        ascending(type_sizes(d, acc)),
    decreases d, fields_of(d).len() + 1,
{
    match d {
        DwarfTypeView::Primitive { bytes } => {
            lemma_put_ascending(acc, bytes);
        },
        DwarfTypeView::Pointer { value_typ, bytes } => {
            lemma_type_sizes_ascending(*value_typ, acc);
        },
        DwarfTypeView::Array { in_typ, out_typ, bytes } => {
            lemma_type_sizes_ascending(*in_typ, acc);
            lemma_type_sizes_ascending(*out_typ, type_sizes(*in_typ, acc));
        },
        DwarfTypeView::Struct { id, fields, bytes } => {
            lemma_field_sizes_ascending(d, 0, acc);
            lemma_put_ascending(field_sizes(d, 0, acc), bytes);
        },
    }
}

/// Collecting the sizes of the fields of a type keeps an ascending list
/// ascending.
proof fn lemma_field_sizes_ascending(d: DwarfTypeView, i: nat, acc: Seq<u64>)
    requires
        ascending(acc),
    ensures
        ascending(field_sizes(d, i, acc)),
    decreases d, fields_of(d).len() - i,
{
    if i < fields_of(d).len() {
        lemma_type_sizes_ascending(fields_of(d)[i as int].typ, acc);
        lemma_field_sizes_ascending(d, i + 1, type_sizes(fields_of(d)[i as int].typ, acc));
    }
}

/// Collecting the sizes of the types of variables keeps an ascending list
/// ascending.
proof fn lemma_vars_sizes_ascending(vars: Seq<DwarfVarView>, i: nat, acc: Seq<u64>)
    requires
        ascending(acc),
    ensures
        ascending(vars_sizes(vars, i, acc)),
    decreases vars.len() - i,
{
    if i < vars.len() {
        lemma_type_sizes_ascending(vars[i as int].typ_defn, acc);
        lemma_vars_sizes_ascending(vars, i + 1, type_sizes(vars[i as int].typ_defn, acc));
    }
}

/// Collecting the sizes of the types of signatures keeps an ascending list
/// ascending.
proof fn lemma_sigs_sizes_ascending(sigs: Seq<DwarfFuncSigView>, i: nat, acc: Seq<u64>)
    requires
        ascending(acc),
    ensures
        ascending(sigs_sizes(sigs, i, acc)),
    decreases sigs.len() - i,
{
    if i < sigs.len() {
        let a = vars_sizes(sigs[i as int].args, 0, acc);
        lemma_vars_sizes_ascending(sigs[i as int].args, 0, acc);
        let b = match sigs[i as int].ret_type {
            Some(t) => type_sizes(t, a),
            None => a,
        };
        if let Some(t) = sigs[i as int].ret_type {
            lemma_type_sizes_ascending(t, a);
        }
        lemma_sigs_sizes_ascending(sigs, i + 1, b);
    }
}

/// The index macros of a module stand in strictly ascending order of their
/// sizes: each size has one macro, and a smaller size comes first.
pub proof fn lemma_index_macros_ascend(dwarf: DwarfCtxView)
    ensures
        ascending(all_sizes(dwarf)),
{
    lemma_vars_sizes_ascending(dwarf.global_vars, 0, Seq::empty());
    lemma_sigs_sizes_ascending(
        dwarf.func_sigs,
        0,
        vars_sizes(dwarf.global_vars, 0, Seq::empty()),
    );
}

/// The lines of a section of macros are those that were collected for it,
/// each once, in strictly ascending order of their texts.
pub proof fn lemma_macro_lines_sorted(lines: Seq<Seq<char>>)
    ensures
        sorted(sorted_lines(lines)),
        forall|y: Seq<char>| lines.contains(y) <==> sorted_lines(lines).contains(y),
{
    lemma_union_sorted(Seq::empty(), lines);
}

/// The declarations of the variables of a module stand in the order of
/// the names of the variables, one for each variable of the model,
/// whatever the order of the variables in the model; for a model whose
/// variables are in that order they are declared as they stand.
pub proof fn lemma_var_defns_sorted(model: ModelView)
    ensures
        vars_sorted(vars_by_name(model.vars)),
        var_defn_lines(vars_by_name(model.vars)).len() == model.vars.len(),
        vars_sorted(model.vars) ==> vars_by_name(model.vars) == model.vars,
{
    lemma_vars_by_name(model.vars);
}

} // verus!
