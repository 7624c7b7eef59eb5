//! What the translation reads of a binary's debugging information: the
//! global variables with their addresses and types, and the signatures of
//! the functions.

use crate::helpers::{Error, ErrorView};
use crate::text::str_eq;
use vstd::prelude::*;

verus! {

/// A field of a struct type, `loc` bytes from the start of the struct.
#[derive(Debug, PartialEq, Eq)]
pub struct StructField {
    pub name: String,
    pub typ: DwarfTypeDefn,
    pub loc: u64,
}

/// The mathematical value of a [`StructField`].
pub struct StructFieldView {
    pub name: Seq<char>,
    pub typ: DwarfTypeView,
    pub loc: u64,
}

/// The definition of a type; `bytes` is the size of a value of it.
#[derive(Debug, PartialEq, Eq)]
pub enum DwarfTypeDefn {
    Primitive { bytes: u64 },
    Pointer { value_typ: Box<DwarfTypeDefn>, bytes: u64 },
    Array { in_typ: Box<DwarfTypeDefn>, out_typ: Box<DwarfTypeDefn>, bytes: u64 },
    Struct { id: String, fields: Vec<StructField>, bytes: u64 },
}

/// The mathematical value of a [`DwarfTypeDefn`].
pub enum DwarfTypeView {
    Primitive { bytes: u64 },
    Pointer { value_typ: Box<DwarfTypeView>, bytes: u64 },
    Array { in_typ: Box<DwarfTypeView>, out_typ: Box<DwarfTypeView>, bytes: u64 },
    Struct { id: Seq<char>, fields: Seq<StructFieldView>, bytes: u64 },
}

/// The views of a list of struct fields.
pub open spec fn struct_field_views(v: Seq<StructField>) -> Seq<StructFieldView> {
    Seq::new(v.len(), |i: int| v[i]@)
}

impl DwarfTypeDefn {
    pub open spec fn model(&self) -> DwarfTypeView
        decreases self,
    {
        match self {
            DwarfTypeDefn::Primitive { bytes } => DwarfTypeView::Primitive { bytes: *bytes },
            DwarfTypeDefn::Pointer { value_typ, bytes } => DwarfTypeView::Pointer {
                value_typ: Box::new((**value_typ).model()),
                bytes: *bytes,
            },
            DwarfTypeDefn::Array { in_typ, out_typ, bytes } => DwarfTypeView::Array {
                in_typ: Box::new((**in_typ).model()),
                out_typ: Box::new((**out_typ).model()),
                bytes: *bytes,
            },
            DwarfTypeDefn::Struct { id, fields, bytes } => DwarfTypeView::Struct {
                id: id@,
                fields: Seq::new(
                    fields@.len(),
                    |i: int|
                        if 0 <= i < fields@.len() {
                            StructFieldView {
                                name: fields@[i].name@,
                                typ: fields@[i].typ.model(),
                                loc: fields@[i].loc,
                            }
                        } else {
                            arbitrary()
                        },
                ),
                bytes: *bytes,
            },
        }
    }

    /// The view of a struct type is made of the views of its parts.
    pub proof fn lemma_view_struct(id: String, fields: Vec<StructField>, bytes: u64)
        ensures
            (DwarfTypeDefn::Struct { id, fields, bytes })@ == (DwarfTypeView::Struct {
                id: id@,
                fields: struct_field_views(fields@),
                bytes,
            }),
    {
        assert((DwarfTypeDefn::Struct { id, fields, bytes })@->Struct_fields
            =~= struct_field_views(fields@));
    }
}

impl View for DwarfTypeDefn {
    type V = DwarfTypeView;

    open spec fn view(&self) -> DwarfTypeView {
        self.model()
    }
}

impl View for StructField {
    type V = StructFieldView;

    open spec fn view(&self) -> StructFieldView {
        StructFieldView { name: self.name@, typ: self.typ@, loc: self.loc }
    }
}

/// A variable: a global with its address, or a formal argument.
#[derive(Debug, PartialEq, Eq)]
pub struct DwarfVar {
    pub name: String,
    pub memory_addr: u64,
    pub typ_defn: DwarfTypeDefn,
}

/// The mathematical value of a [`DwarfVar`].
pub struct DwarfVarView {
    pub name: Seq<char>,
    pub memory_addr: u64,
    pub typ_defn: DwarfTypeView,
}

impl View for DwarfVar {
    type V = DwarfVarView;

    open spec fn view(&self) -> DwarfVarView {
        DwarfVarView {
            name: self.name@,
            memory_addr: self.memory_addr,
            typ_defn: self.typ_defn@,
        }
    }
}

/// The views of a list of variables.
pub open spec fn dwarf_var_views(v: Seq<DwarfVar>) -> Seq<DwarfVarView> {
    Seq::new(v.len(), |i: int| v[i]@)
}

/// The signature of a function.
#[derive(Debug, PartialEq, Eq)]
pub struct DwarfFuncSig {
    pub name: String,
    pub args: Vec<DwarfVar>,
    pub ret_type: Option<DwarfTypeDefn>,
}

/// The mathematical value of a [`DwarfFuncSig`].
pub struct DwarfFuncSigView {
    pub name: Seq<char>,
    pub args: Seq<DwarfVarView>,
    pub ret_type: Option<DwarfTypeView>,
}

impl View for DwarfFuncSig {
    type V = DwarfFuncSigView;

    open spec fn view(&self) -> DwarfFuncSigView {
        DwarfFuncSigView {
            name: self.name@,
            args: dwarf_var_views(self.args@),
            ret_type: match self.ret_type {
                Some(t) => Some(t@),
                None => None,
            },
        }
    }
}

/// The views of a list of signatures.
pub open spec fn func_sig_views(v: Seq<DwarfFuncSig>) -> Seq<DwarfFuncSigView> {
    Seq::new(v.len(), |i: int| v[i]@)
}

/// The first variable of `vars` that is named `name`.
pub open spec fn var_named(vars: Seq<DwarfVarView>, name: Seq<char>) -> Option<DwarfVarView>
    decreases vars.len(),
{
    if vars.len() == 0 {
        None
    } else if vars[0].name == name {
        Some(vars[0])
    } else {
        var_named(vars.drop_first(), name)
    }
}

/// The first signature of `sigs` that is named `name`.
pub open spec fn sig_named(sigs: Seq<DwarfFuncSigView>, name: Seq<char>) -> Option<
    DwarfFuncSigView,
>
    decreases sigs.len(),
{
    if sigs.len() == 0 {
        None
    } else if sigs[0].name == name {
        Some(sigs[0])
    } else {
        sig_named(sigs.drop_first(), name)
    }
}

/// The first variable of `vars` that is named `name`.
pub fn find_var<'a>(vars: &'a Vec<DwarfVar>, name: &str) -> (r: Option<&'a DwarfVar>)
    ensures
        var_named(dwarf_var_views(vars@), name@) is Some ==> r is Some && r->0@ == var_named(
            dwarf_var_views(vars@),
            name@,
        )->0,
        var_named(dwarf_var_views(vars@), name@) is None ==> r is None,
{
    let ghost all = dwarf_var_views(vars@);
    let mut i: usize = 0;
    assert(all.skip(0) =~= all);
    while i < vars.len()
        invariant
            i <= vars.len(),
            all == dwarf_var_views(vars@),
            var_named(all, name@) == var_named(all.skip(i as int), name@),
        decreases vars.len() - i,
    {
        assert(all.skip(i as int)[0] == vars@[i as int]@);
        assert(all.skip(i as int).drop_first() =~= all.skip(i + 1));
        if str_eq(vars[i].name.as_str(), name) {
            return Some(&vars[i]);
        }
        i += 1;
    }
    None
}

/// The debugging information of the binaries under translation.
#[derive(Debug, PartialEq, Eq)]
pub struct DwarfCtx {
    /// The width of a register in bits.
    pub xlen: u64,
    pub global_vars: Vec<DwarfVar>,
    pub func_sigs: Vec<DwarfFuncSig>,
}

/// The mathematical value of a [`DwarfCtx`].
pub struct DwarfCtxView {
    pub xlen: u64,
    pub global_vars: Seq<DwarfVarView>,
    pub func_sigs: Seq<DwarfFuncSigView>,
}

impl DwarfCtxView {
    /// The global variable named `name`.
    pub open spec fn global(self, name: Seq<char>) -> Option<DwarfVarView> {
        var_named(self.global_vars, name)
    }

    /// Whether a global variable is named `name`.
    pub open spec fn is_global(self, name: Seq<char>) -> bool {
        self.global(name) is Some
    }

    /// The signature of the function named `name`.
    pub open spec fn sig(self, name: Seq<char>) -> Option<DwarfFuncSigView> {
        sig_named(self.func_sigs, name)
    }

    /// The formal argument named `name` of the function named `func`.
    pub open spec fn formal(self, func: Seq<char>, name: Seq<char>) -> Option<DwarfVarView> {
        match self.sig(func) {
            Some(s) => var_named(s.args, name),
            None => None,
        }
    }
}

impl View for DwarfCtx {
    type V = DwarfCtxView;

    open spec fn view(&self) -> DwarfCtxView {
        DwarfCtxView {
            xlen: self.xlen,
            global_vars: dwarf_var_views(self.global_vars@),
            func_sigs: func_sig_views(self.func_sigs@),
        }
    }
}

impl DwarfCtx {
    /// The global variable named `name`.
    pub fn global_var(&self, name: &str) -> (r: Result<&DwarfVar, Error>)
        ensures
            self@.global(name@) is Some ==> r is Ok && r->Ok_0@ == self@.global(name@)->0,
            self@.global(name@) is None ==> r is Err && r->Err_0@ == ErrorView::MissingVar(name@),
    {
        match find_var(&self.global_vars, name) {
            Some(v) => Ok(v),
            None => Err(Error::MissingVar(String::from_str(name))),
        }
    }

    /// The type of the global variable named `name`.
    pub fn global_var_type(&self, name: &str) -> (r: Result<&DwarfTypeDefn, Error>)
        ensures
            self@.global(name@) is Some ==> r is Ok && r->Ok_0@ == self@.global(
                name@,
            )->0.typ_defn,
            self@.global(name@) is None ==> r is Err && r->Err_0@ == ErrorView::MissingVar(name@),
    {
        match find_var(&self.global_vars, name) {
            Some(v) => Ok(&v.typ_defn),
            None => Err(Error::MissingVar(String::from_str(name))),
        }
    }

    /// The signature of the function named `name`.
    pub fn func_sig(&self, name: &str) -> (r: Result<&DwarfFuncSig, Error>)
        ensures
            self@.sig(name@) is Some ==> r is Ok && r->Ok_0@ == self@.sig(name@)->0,
            self@.sig(name@) is None ==> r is Err && r->Err_0@ == ErrorView::MissingFuncSig(
                name@,
            ),
    {
        let ghost all = func_sig_views(self.func_sigs@);
        let mut i: usize = 0;
        assert(all.skip(0) =~= all);
        while i < self.func_sigs.len()
            invariant
                i <= self.func_sigs.len(),
                all == func_sig_views(self.func_sigs@),
                sig_named(all, name@) == sig_named(all.skip(i as int), name@),
            decreases self.func_sigs.len() - i,
        {
            assert(all.skip(i as int)[0] == self.func_sigs@[i as int]@);
            assert(all.skip(i as int).drop_first() =~= all.skip(i + 1));
            if str_eq(self.func_sigs[i].name.as_str(), name) {
                return Ok(&self.func_sigs[i]);
            }
            i += 1;
        }
        Err(Error::MissingFuncSig(String::from_str(name)))
    }
}

/// The fields of a struct type; none for other types.
pub open spec fn fields_of(d: DwarfTypeView) -> Seq<StructFieldView> {
    match d {
        DwarfTypeView::Struct { id, fields, bytes } => fields,
        _ => Seq::empty(),
    }
}

} // verus!
