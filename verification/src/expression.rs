//! The intermediate representation produced by lowering: a closed tree of
//! tagged variants, each carrying its source position and owning its
//! sub-expressions exclusively.

use vstd::prelude::*;
use crate::variable::{Scope, Variable};

verus! {

/// A lowered lexical body: the locals defined in it and the ordered
/// expressions forming it.
#[derive(Debug)]
pub struct CodeObject {
    pub locals: Scope,
    pub body: Vec<Expression>,
}

/// One parameter of a lowered method or closure.
#[derive(Debug)]
pub struct MethodArgument {
    pub name: String,
    pub default_value: Option<Expression>,
    pub line: usize,
    pub column: usize,
    pub rest: bool,
}

/// One source-name to alias-name pair used for conflict resolution when a
/// class implements a trait.
#[derive(Debug)]
pub struct Rename {
    pub name: String,
    pub alias: String,
}

impl Rename {
    pub fn new(name: String, alias: String) -> (r: Rename)
        ensures
            r.name == name,
            r.alias == alias,
    {
        Rename { name, alias }
    }
}

/// One implemented trait of a class: the lowered trait reference and the
/// ordered method renames that come with it.
#[derive(Debug)]
pub struct Implement {
    pub name: Expression,
    pub renames: Vec<Rename>,
    pub line: usize,
    pub column: usize,
}

impl Implement {
    pub fn new(name: Expression, renames: Vec<Rename>, line: usize, column: usize) -> (r:
        Implement)
        ensures
            r.name == name,
            r.renames == renames,
            r.line == line,
            r.column == column,
    {
        Implement { name, renames, line, column }
    }
}

/// One symbol an import brings into the importing module's global scope:
/// either a sub-module reference or a constant reference, recording the
/// external name it binds and the global binding it was given.
#[derive(Debug)]
pub enum ImportSymbol {
    /// A sub-module reference.
    Module { name: String, variable: Variable, line: usize, column: usize },
    /// A constant reference.
    Constant { name: String, variable: Variable, line: usize, column: usize },
}

/// The IR tree. Float literals carry their value as the raw bit pattern of
/// the number. A message send keeps its receiver as the first element of its
/// argument list: the call convention passes the receiver as the implicit
/// first argument.
#[derive(Debug)]
pub enum Expression {
    Integer { value: i64, line: usize, column: usize },
    Float { bits: u64, line: usize, column: usize },
    Str { value: String, line: usize, column: usize },
    Nil { line: usize, column: usize },
    Array { values: Vec<Expression>, line: usize, column: usize },
    Hash { pairs: Vec<(Expression, Expression)>, line: usize, column: usize },
    GetSelf { line: usize, column: usize },
    GetLocal { variable: Variable, line: usize, column: usize },
    GetGlobal { variable: Variable, line: usize, column: usize },
    SetLocal { variable: Variable, value: Box<Expression>, line: usize, column: usize },
    GetAttribute { receiver: Box<Expression>, name: String, line: usize, column: usize },
    SetAttribute {
        receiver: Box<Expression>,
        name: String,
        value: Box<Expression>,
        line: usize,
        column: usize,
    },
    SendObjectMessage { name: String, arguments: Vec<Expression>, line: usize, column: usize },
    KeywordArgument { name: String, value: Box<Expression>, line: usize, column: usize },
    ImportModule { path: String, symbols: Vec<ImportSymbol>, line: usize, column: usize },
    Closure { arguments: Vec<MethodArgument>, body: CodeObject, line: usize, column: usize },
    Method {
        name: String,
        receiver: Option<Box<Expression>>,
        arguments: Vec<MethodArgument>,
        body: CodeObject,
        requirements: Vec<Expression>,
        line: usize,
        column: usize,
    },
    RequiredMethod {
        name: String,
        arguments: Vec<MethodArgument>,
        requirements: Vec<Expression>,
        line: usize,
        column: usize,
    },
    Class {
        name: String,
        body: CodeObject,
        implements: Vec<Implement>,
        line: usize,
        column: usize,
    },
    Trait { name: String, body: CodeObject, line: usize, column: usize },
    Return { value: Box<Expression>, line: usize, column: usize },
    Try {
        body: CodeObject,
        else_body: Option<CodeObject>,
        else_argument: Option<Variable>,
        line: usize,
        column: usize,
    },
    /// The no-op placeholder lowering falls back to when it recovers from an
    /// error or meets a construct it does not handle.
    Void,
}

} // verus!
