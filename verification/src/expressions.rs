//! The expression tree under the name that the pipeline knows it by.

pub use crate::ast::{
    show_tree, BinaryOp, EnumPayload, EnumVariant, Expr, Expression, UnaryOp,
};
