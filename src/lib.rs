//! Reflection on Java class declarations: the package tree, the flat class
//! map, the reflection cache and the selection of constructors and methods.

pub mod names;
pub mod class_info;
pub mod reflect;
pub mod selector;
pub mod packages;
