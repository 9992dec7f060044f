//! A fully lowered module.

use vstd::prelude::*;
use crate::expression::CodeObject;
use crate::variable::Scope;

verus! {

/// One lowered source file: its path, its module name, its lowered top-level
/// body and the module-global scope that body populated. Created at most once
/// per distinct file path reached during a build and immutable afterwards.
#[derive(Debug)]
pub struct Module {
    pub path: String,
    pub name: String,
    pub code: CodeObject,
    pub globals: Scope,
}

} // verus!
