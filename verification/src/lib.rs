//! Translation of RISC-V basic-block control-flow graphs, together with
//! function contracts written over program variables, into a verification
//! model, and its rendering as a UCLID5 module.

pub mod builder_laws;
pub mod cfg;
pub mod dispatch_laws;
pub mod dwarf;
pub mod helpers;
pub mod inference_laws;
pub mod labels;
pub mod lowering;
pub mod memory;
pub mod modifies;
pub mod names;
pub mod propagation;
pub mod sl_ast;
pub mod spec_lowering;
pub mod text;
pub mod topo;
pub mod translator;
pub mod uclid_model;
pub mod uclid_specs;
pub mod uclidinterface;
pub mod veriv_ast;
