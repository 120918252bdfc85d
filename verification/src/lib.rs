//! Verified core of a generator for SAW override specifications.

pub mod async_laws;
pub mod bitcode_laws;
pub mod bitcode_overrides;
pub mod bitcode_overrides_functional;
pub mod bitcode_overrides_functional_string;
pub mod bitcode_overrides_functional_vector;
pub mod bridge_laws;
pub mod buffer_overrides;
pub mod callgraph_laws;
pub mod class_groups;
pub mod constraints;
pub mod cryptol_bridge;
pub mod cryptol_emit;
pub mod cryptol_laws;
pub mod cryptol_sig_parse;
pub mod equiv_body;
pub mod equiv_laws;
pub mod factory;
pub mod gen_verify;
pub mod gen_verify_callgraph;
pub mod gen_verify_rust;
pub mod gen_verify_rust_async;
pub mod gen_verify_rust_classify;
pub mod havoc;
pub mod havoc_laws;
pub mod havoc_params;
pub mod havoc_struct_laws;
pub mod inventory;
pub mod ir_layout;
pub mod json;
pub mod layout_laws;
pub mod llvm_ir;
pub mod llvm_laws;
pub mod llvm_return;
pub mod llvm_setup;
pub mod llvm_spec;
pub mod mangle;
pub mod memcmp_override;
pub mod mir_json;
pub mod mir_laws;
pub mod mir_spec;
pub mod model_laws;
pub mod mutex_helpers;
pub mod names;
pub mod order;
pub mod override_laws;
pub mod overrides;
pub mod path_utils;
pub mod reader_laws;
pub mod rust_trait_emit;
pub mod script_laws;
pub mod script_override_laws;
pub mod status_primitives;
pub mod stl_overrides;
pub mod stubs;
pub mod target_laws;
pub mod text;
pub mod text_order;
pub mod trait_laws;
pub mod type_laws;
pub mod types;
pub mod unicode;
pub mod verify_script;
pub mod verify_script_close;
pub mod verify_script_precond;
pub mod verify_script_steps;
pub mod vtable_ir;
pub mod vtable_laws;
pub mod writer;
