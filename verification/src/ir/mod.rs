//! Polyhedral intermediate representation: affine domains and maps,
//! schedule trees, access relations and the PIR module container.

pub mod affine_domain;
pub mod vecs;
pub mod affine_map;
pub mod elimination;
pub mod schedule_tree;
pub mod access_relation;
pub mod pir_types;
pub mod expr_model;
pub mod validate;
pub mod pretty_print;
