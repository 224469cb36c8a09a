//! The structural outline of a source file that the analyses read: top-level
//! functions, types, classes with methods, impl blocks, interfaces and traits,
//! each with its 1-based line span.

use vstd::prelude::*;

verus! {

/// A function (or a method of a class or interface) and its line span.
pub struct FunctionInfo {
    pub name: String,
    pub line: usize,
    pub end_line: usize,
}

/// A method inside an impl block or a trait, and its line span.
pub struct MethodInfo {
    pub name: String,
    pub line: usize,
    pub end_line: usize,
}

/// A struct-like type declaration and its line span.
pub struct TypeInfo {
    pub name: String,
    pub line: usize,
    pub end_line: usize,
}

/// A class with its span and methods.
pub struct ClassInfo {
    pub name: String,
    pub line: usize,
    pub end_line: usize,
    pub methods: Vec<FunctionInfo>,
}

/// An impl block: the implemented type and its methods.
pub struct ImplBlockInfo {
    pub target_type: String,
    pub methods: Vec<MethodInfo>,
}

/// An interface and its methods.
pub struct InterfaceInfo {
    pub name: String,
    pub methods: Vec<FunctionInfo>,
}

/// A trait and its methods.
pub struct TraitInfo {
    pub name: String,
    pub methods: Vec<MethodInfo>,
}

/// The outline of one source file.
pub struct FileShape {
    pub functions: Vec<FunctionInfo>,
    pub structs: Vec<TypeInfo>,
    pub classes: Vec<ClassInfo>,
    pub impl_blocks: Vec<ImplBlockInfo>,
    pub interfaces: Vec<InterfaceInfo>,
    pub traits: Vec<TraitInfo>,
}

} // verus!
