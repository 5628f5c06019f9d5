//! Semantic analysis of Go constants, types and control structure.

pub mod bignum;
pub mod types;
pub mod exact;
pub mod constant;
pub mod literals;
pub mod hir;
pub mod syntax;
pub mod expressions;
pub mod constant_ops;
pub mod constants;
pub mod control_targets;
pub mod goto_scopes;
pub mod iteration;
pub mod recursion;
pub mod conversions;
pub mod channels;
pub mod arrays;
pub mod calls;
pub mod assignments;
pub mod generics;
pub mod function;
pub mod length_capacity;
pub mod package_operands;
pub mod conversion_calls;
pub mod inference;
pub mod shifts;
pub mod maps;
pub mod pointers;
pub mod numeric_builtins;
pub mod ranges;
pub mod selects;
