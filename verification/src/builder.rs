//! The orchestrator: walks a parsed tree and produces a module, threading
//! the current file path and the live local and module-global scopes through
//! every step, recording diagnostics instead of aborting, and resolving
//! imports re-entrantly through the module registry.

use vstd::prelude::*;
use vstd::set_lib::{lemma_len_subset, lemma_set_subset_finite};
use crate::config::Config;
use crate::diagnostics::{Diagnostics, DiagnosticView};
use crate::expression::{CodeObject, Expression, Implement, ImportSymbol, MethodArgument, Rename};
use crate::module::Module;
use crate::node::{
    args_wf, import_chunks, import_name, impls_wf, is_assign_target, is_named, lemma_nodes_size_element,
    lemma_nodes_wf_element, lemma_pair_import_names_element, lemma_pairs_size_element,
    lemma_pairs_wf_element, lemma_seq_import_names_element, node_import_names, node_size, node_wf,
    nodes_size, nodes_wf, opt_size, opt_wf, pair_import_names, pairs_size, pairs_wf,
    opt_import_names, renames_named, seq_import_names, spec_name_of, symbols_wf, Node,
};
use crate::registry::{ModuleState, Registry};
use crate::source::{
    lemma_find_source_ast, lemma_find_source_wf, lemma_sources_import_names_finite, ParseOutcome,
    SourceSet,
};
use crate::text::{
    file_stem, join_chunks, path_join, replace_all, spec_after_last, spec_before_first,
    spec_path_join, spec_replace, EXTENSION_SEPARATOR, PATH_SEPARATOR,
};
use crate::variable::{Mutability, Scope, Variable};

verus! {

/// Lowers parsed trees to modules. Holds the diagnostics sink and the module
/// registry for as long as one compilation session lasts; recursive builds
/// for imports share both.
#[derive(Debug)]
pub struct Builder {
    pub config: Config,
    pub diagnostics: Diagnostics,
    pub modules: Registry,
}

/// The module-name separator a builder works under.
pub open spec fn sep_of(b: Builder) -> Seq<char> {
    b.config.separator@
}

/// Every module name any import in the source set can ask for, under the
/// builder's separator: the universe the registry's names are drawn from.
pub open spec fn universe(b: Builder, sources: SourceSet) -> Set<Seq<char>> {
    sources.import_names(sep_of(b))
}

/// How many names of the universe the registry has not seen yet. Each
/// re-entrant import strictly shrinks this, which is why a cyclic import
/// graph cannot make a build run forever.
pub open spec fn names_left(b: Builder, sources: SourceSet) -> nat {
    universe(b, sources).difference(b.modules.names()).len()
}

/// What every lowering step preserves of the builder: the configuration is
/// untouched, diagnostics are only appended, and registry records are only
/// appended.
pub open spec fn evolves(pre: Builder, post: Builder) -> bool {
    &&& post.config == pre.config
    &&& pre.diagnostics@.is_prefix_of(post.diagnostics@)
    &&& pre.modules.entries@.is_prefix_of(post.modules.entries@)
}

/// A scope is only ever extended: bindings already made stay at their slots.
pub open spec fn scope_extends(pre: Scope, post: Scope) -> bool {
    pre.entries@.is_prefix_of(post.entries@)
}

pub proof fn lemma_prefix_trans<T>(a: Seq<T>, b: Seq<T>, c: Seq<T>)
    requires
        a.is_prefix_of(b),
        b.is_prefix_of(c),
    ensures
        a.is_prefix_of(c),
{
    assert forall|i: int| 0 <= i < a.len() implies a[i] == c.subrange(0, a.len() as int)[i] by {
        assert(a[i] == b.subrange(0, a.len() as int)[i]);
        assert(b[i] == c.subrange(0, b.len() as int)[i]);
    }
    assert(a =~= c.subrange(0, a.len() as int));
}

pub proof fn lemma_evolves_trans(a: Builder, b: Builder, c: Builder)
    requires
        evolves(a, b),
        evolves(b, c),
    ensures
        evolves(a, c),
{
    lemma_prefix_trans(a.diagnostics@, b.diagnostics@, c.diagnostics@);
    lemma_prefix_trans(a.modules.entries@, b.modules.entries@, c.modules.entries@);
}

pub proof fn lemma_scope_extends_trans(a: Scope, b: Scope, c: Scope)
    requires
        scope_extends(a, b),
        scope_extends(b, c),
    ensures
        scope_extends(a, c),
{
    lemma_prefix_trans(a.entries@, b.entries@, c.entries@);
}

/// Registry records only appended means registry names only grow.
pub proof fn lemma_registry_names_mono(r1: Registry, r2: Registry)
    requires
        r1.entries@.is_prefix_of(r2.entries@),
    ensures
        r1.names().subset_of(r2.names()),
{
    assert forall|n: Seq<char>| r1.names().contains(n) implies r2.names().contains(n) by {
        let i = choose|i: int| 0 <= i < r1.entries@.len() && (#[trigger] r1.entries@[i]).0@ == n;
        assert(r1.entries@[i] == r1.entries@.subrange(0, r1.entries@.len() as int)[i]);
        assert(r2.entries@[i].0@ == n);
    }
}

/// Growing the subtracted set cannot grow a difference from a finite set.
pub proof fn lemma_diff_len_mono(u: Set<Seq<char>>, d1: Set<Seq<char>>, d2: Set<Seq<char>>)
    requires
        u.finite(),
        d1.subset_of(d2),
    ensures
        u.difference(d2).len() <= u.difference(d1).len(),
{
    lemma_set_subset_finite(u, u.difference(d1));
    lemma_len_subset(u.difference(d2), u.difference(d1));
}

/// A lowering step never grows the count of unseen names.
pub proof fn lemma_left_mono(sources: SourceSet, pre: Builder, post: Builder)
    requires
        evolves(pre, post),
    ensures
        names_left(post, sources) <= names_left(pre, sources),
{
    lemma_sources_import_names_finite(sources.files@, sep_of(pre));
    lemma_registry_names_mono(pre.modules, post.modules);
    lemma_diff_len_mono(universe(pre, sources), pre.modules.names(), post.modules.names());
}

/// The text of the diagnostic for a constant declared as mutable.
pub open spec fn mutable_constant_text() -> Seq<char> {
    "constants can not be declared as mutable"@
}

/// The text of the diagnostic for a required method with an explicit
/// receiver.
pub open spec fn required_method_receiver_text() -> Seq<char> {
    "methods required by a trait can not be defined on an explicit receiver"@
}

/// The text of the diagnostic for an import whose module has no source file.
pub open spec fn module_not_found_text(name: Seq<char>) -> Seq<char> {
    "The module \""@ + name + "\" could not be found"@
}

/// The text of the diagnostic for a path the source set does not know.
pub open spec fn unreadable_file_text() -> Seq<char> {
    "the file could not be opened"@
}

pub proof fn lemma_prefix_refl<T>(s: Seq<T>)
    ensures
        s.is_prefix_of(s),
{
    assert(s =~= s.subrange(0, s.len() as int));
}

pub proof fn lemma_prefix_push<T>(s: Seq<T>, x: T)
    ensures
        s.is_prefix_of(s.push(x)),
{
    assert(s =~= s.push(x).subrange(0, s.len() as int));
}

pub proof fn lemma_evolves_refl(b: Builder)
    ensures
        evolves(b, b),
{
    lemma_prefix_refl(b.diagnostics@);
    lemma_prefix_refl(b.modules.entries@);
}

pub proof fn lemma_scope_extends_refl(s: Scope)
    ensures
        scope_extends(s, s),
{
    lemma_prefix_refl(s.entries@);
}

/// The size of the tree the source set holds for a path, or zero when the
/// path yields no tree.
pub open spec fn found_size(sources: SourceSet, path: Seq<char>) -> nat {
    match sources.spec_find(path) {
        Some(ParseOutcome::Ast(n)) => node_size(n),
        _ => 0,
    }
}

/// The declared name of an argument-definition node.
pub open spec fn spec_arg_name(n: Node) -> Seq<char> {
    match n {
        Node::ArgumentDefine { name, .. } => name@,
        _ => Seq::empty(),
    }
}

/// Whether an argument-definition node declares a rest argument.
pub open spec fn spec_arg_rest(n: Node) -> bool {
    match n {
        Node::ArgumentDefine { rest, .. } => rest,
        _ => false,
    }
}

/// A node whose lowering reads no builder state and records nothing: a
/// literal, the self reference, an identifier, a bare attribute, or a kind
/// with no lowering rule (which yields the no-op placeholder). Lowering one
/// leaves the builder and both scopes exactly as they were.
pub open spec fn neutral_node(n: Node) -> bool {
    match n {
        Node::Integer { .. } => true,
        Node::Float { .. } => true,
        Node::Str { .. } => true,
        Node::SelfObject { .. } => true,
        Node::Identifier { .. } => true,
        Node::Attribute { .. } => true,
        Node::Expressions { .. } => true,
        Node::ImportSymbol { .. } => true,
        Node::ArgumentDefine { .. } => true,
        Node::Implement { .. } => true,
        _ => false,
    }
}

/// The (name, mutability) pair an identifier binding target defines in the
/// enclosing local scope; other target kinds write attributes instead.
pub open spec fn target_def(target: Node, m: Mutability) -> Seq<(Seq<char>, Mutability)> {
    match target {
        Node::Identifier { name, .. } => seq![(name@, m)],
        _ => Seq::empty(),
    }
}

/// The ordered (name, mutability) pairs that lowering this node defines in
/// the enclosing local scope: one per identifier-target binding definition,
/// the right-hand side's definitions first. Nested lexical bodies (closure,
/// method, class, trait and try bodies) populate their own fresh scopes and
/// contribute nothing here; imports define globals, not locals.
pub open spec fn local_defs(n: Node) -> Seq<(Seq<char>, Mutability)>
    decreases n, 0int,
{
    match n {
        Node::Expressions { .. } => Seq::empty(),
        Node::Integer { .. } => Seq::empty(),
        Node::Float { .. } => Seq::empty(),
        Node::Str { .. } => Seq::empty(),
        Node::Array { values, .. } => seq_local_defs(values@),
        Node::Hash { pairs, .. } => pair_local_defs(pairs@),
        Node::SelfObject { .. } => Seq::empty(),
        Node::Identifier { .. } => Seq::empty(),
        Node::Attribute { .. } => Seq::empty(),
        Node::Constant { receiver, .. } => opt_local_defs(receiver),
        Node::Type { constant, .. } => local_defs(*constant),
        Node::LetDefine { name, value, .. } => local_defs(*value) + target_def(
            *name,
            Mutability::Immutable,
        ),
        Node::VarDefine { name, value, .. } => local_defs(*value) + target_def(
            *name,
            Mutability::Mutable,
        ),
        Node::Send { receiver, arguments, .. } => opt_local_defs(receiver) + seq_local_defs(
            arguments@,
        ),
        Node::Import { .. } => Seq::empty(),
        Node::Closure { arguments, .. } => seq_arg_defs(arguments@),
        Node::KeywordArgument { value, .. } => local_defs(*value),
        Node::Method { receiver, arguments, body, requirements, .. } => match body {
            Some(_) => seq_arg_defs(arguments@) + opt_local_defs(receiver) + seq_local_defs(
                requirements@,
            ),
            None => seq_arg_defs(arguments@) + seq_local_defs(requirements@),
        },
        Node::Class { implements, .. } => seq_impl_defs(implements@),
        Node::Trait { .. } => Seq::empty(),
        Node::Return { value, .. } => opt_local_defs(value),
        Node::TypeCast { value, .. } => local_defs(*value),
        Node::Try { .. } => Seq::empty(),
        Node::ImportSymbol { .. } => Seq::empty(),
        Node::ArgumentDefine { .. } => Seq::empty(),
        Node::Implement { .. } => Seq::empty(),
    }
}

/// The local definitions lowering one argument definition makes: those of
/// its default value. In expression position such a node is unhandled and
/// defines nothing; this form applies inside an argument list.
pub open spec fn arg_defs(n: Node) -> Seq<(Seq<char>, Mutability)>
    decreases n, 0int,
{
    match n {
        Node::ArgumentDefine { default, .. } => opt_local_defs(default),
        _ => Seq::empty(),
    }
}

pub open spec fn seq_arg_defs(s: Seq<Node>) -> Seq<(Seq<char>, Mutability)>
    decreases s, 1int,
{
    if s.len() == 0 {
        Seq::empty()
    } else {
        arg_defs(s[0]) + seq_arg_defs(s.drop_first())
    }
}

/// The local definitions lowering one implemented-trait entry makes: those
/// of its trait reference. In expression position such a node is unhandled
/// and defines nothing; this form applies inside an implements list.
pub open spec fn impl_defs(n: Node) -> Seq<(Seq<char>, Mutability)>
    decreases n, 0int,
{
    match n {
        Node::Implement { name, .. } => local_defs(*name),
        _ => Seq::empty(),
    }
}

pub open spec fn seq_impl_defs(s: Seq<Node>) -> Seq<(Seq<char>, Mutability)>
    decreases s, 1int,
{
    if s.len() == 0 {
        Seq::empty()
    } else {
        impl_defs(s[0]) + seq_impl_defs(s.drop_first())
    }
}

pub open spec fn seq_local_defs(s: Seq<Node>) -> Seq<(Seq<char>, Mutability)>
    decreases s, 1int,
{
    if s.len() == 0 {
        Seq::empty()
    } else {
        local_defs(s[0]) + seq_local_defs(s.drop_first())
    }
}

pub open spec fn opt_local_defs(o: Option<Box<Node>>) -> Seq<(Seq<char>, Mutability)>
    decreases o, 1int,
{
    match o {
        Option::None => Seq::empty(),
        Option::Some(b) => local_defs(*b),
    }
}

pub open spec fn pair_local_defs(s: Seq<(Node, Node)>) -> Seq<(Seq<char>, Mutability)>
    decreases s, 1int,
{
    if s.len() == 0 {
        Seq::empty()
    } else {
        local_defs(s[0].0) + local_defs(s[0].1) + pair_local_defs(s.drop_first())
    }
}

/// The local definitions a lexical body makes in its own scope.
pub open spec fn body_local_defs(n: Node) -> Seq<(Seq<char>, Mutability)>
    decreases n, 1int,
{
    match n {
        Node::Expressions { nodes } => seq_local_defs(nodes@),
        _ => Seq::empty(),
    }
}

/// A scope grew by exactly these definitions, in order: the old entries are
/// untouched, and each new slot carries the defined name and mutability.
pub open spec fn scope_gains(
    pre: Seq<Variable>,
    post: Seq<Variable>,
    defs: Seq<(Seq<char>, Mutability)>,
) -> bool {
    &&& post.len() == pre.len() + defs.len()
    &&& pre.is_prefix_of(post)
    &&& forall|j: int|
        0 <= j < defs.len() ==> (#[trigger] post[pre.len() + j]).name@ == defs[j].0
            && post[pre.len() + j].mutability == defs[j].1
}

/// Consecutive growth concatenates the definitions.
pub proof fn lemma_scope_gains_trans(
    a: Seq<Variable>,
    b: Seq<Variable>,
    c: Seq<Variable>,
    d1: Seq<(Seq<char>, Mutability)>,
    d2: Seq<(Seq<char>, Mutability)>,
)
    requires
        scope_gains(a, b, d1),
        scope_gains(b, c, d2),
    ensures
        scope_gains(a, c, d1 + d2),
{
    lemma_prefix_trans(a, b, c);
    assert forall|j: int|
        0 <= j < (d1 + d2).len() implies (#[trigger] c[a.len() + j]).name@ == (d1 + d2)[j].0 && c[
        a.len() + j].mutability == (d1 + d2)[j].1 by {
        if j < d1.len() {
            assert(b[a.len() + j] == b.subrange(0, b.len() as int)[a.len() + j]);
            assert(b[a.len() + j] == c.subrange(0, b.len() as int)[a.len() + j]);
            assert(c[a.len() + j] == b[a.len() + j]);
        } else {
            assert(c[b.len() + (j - d1.len())].name@ == d2[j - d1.len()].0);
        }
    }
}

/// Where an identifier at the given position resolves under the given
/// scopes: the local binding, else the global binding, else a zero-argument
/// message send to the implicit self.
pub open spec fn resolved_identifier(
    name: Seq<char>,
    line: usize,
    column: usize,
    locals: Scope,
    globals: Scope,
    e: Expression,
) -> bool {
    match locals.spec_lookup(name) {
        Some(v) => e == (Expression::GetLocal { variable: v, line, column }),
        None => match globals.spec_lookup(name) {
            Some(v) => e == (Expression::GetGlobal { variable: v, line, column }),
            None => e matches Expression::SendObjectMessage {
                name: n,
                arguments,
                line: l,
                column: c,
            } && n@ == name && l == line && c == column && arguments@ == seq![
                (Expression::GetSelf { line, column }),
            ],
        },
    }
}

/// Argument definitions that carry no default values: lowering them makes no
/// recursive lowering call.
pub open spec fn plain_args(s: Seq<Node>) -> bool {
    forall|i: int|
        0 <= i < s.len() ==> match #[trigger] s[i] {
            Node::ArgumentDefine { default, .. } => default is None,
            _ => true,
        }
}

/// Every element of an import's symbol list is a symbol clause.
pub open spec fn all_import_symbols(s: Seq<Node>) -> bool {
    forall|i: int| 0 <= i < s.len() ==> (#[trigger] s[i]) is ImportSymbol
}

/// The name an import symbol binds in the importing module's globals: its
/// alias when one is written and named, else the symbol's own name.
pub open spec fn symbol_bound_name(n: Node) -> Seq<char> {
    match n {
        Node::ImportSymbol { symbol, alias } => match alias {
            Some(a) => if is_named(*a) {
                spec_name_of(*a)
            } else {
                spec_name_of(*symbol)
            },
            None => spec_name_of(*symbol),
        },
        _ => Seq::empty(),
    }
}

/// The line a named node carries.
pub open spec fn named_node_line(n: Node) -> usize {
    match n {
        Node::Identifier { line, .. } => line,
        Node::Constant { line, .. } => line,
        _ => 0,
    }
}

/// The column a named node carries.
pub open spec fn named_node_column(n: Node) -> usize {
    match n {
        Node::Identifier { column, .. } => column,
        Node::Constant { column, .. } => column,
        _ => 0,
    }
}

/// How many elements of an import's symbol list are symbol clauses; the
/// others are skipped.
pub open spec fn symbol_count(s: Seq<Node>) -> nat
    decreases s.len(),
{
    if s.len() == 0 {
        0
    } else {
        (if s[0] is ImportSymbol {
            1nat
        } else {
            0nat
        }) + symbol_count(s.drop_first())
    }
}

/// The global binding an import symbol records.
pub open spec fn symbol_variable(sym: ImportSymbol) -> Variable {
    match sym {
        ImportSymbol::Module { variable, .. } => variable,
        ImportSymbol::Constant { variable, .. } => variable,
    }
}

/// The correspondence for one import symbol: a sub-module reference exactly
/// when the symbol node is an identifier, a constant reference exactly when
/// it is a constant; either records the external name, the symbol node's
/// position, and the immutable global binding made for it at the given slot.
pub open spec fn symbol_lowers_to(n: Node, sym: ImportSymbol, slot: int) -> bool {
    match n {
        Node::ImportSymbol { symbol, .. } => match sym {
            ImportSymbol::Module { name, variable, line, column } => (*symbol is Identifier)
                && name@ == spec_name_of(*symbol) && variable.name@ == symbol_bound_name(n)
                && variable.mutability == Mutability::Immutable && variable.index == slot && line
                == named_node_line(*symbol) && column == named_node_column(*symbol),
            ImportSymbol::Constant { name, variable, line, column } => (*symbol is Constant)
                && name@ == spec_name_of(*symbol) && variable.name@ == symbol_bound_name(n)
                && variable.mutability == Mutability::Immutable && variable.index == slot && line
                == named_node_line(*symbol) && column == named_node_column(*symbol),
        },
        _ => false,
    }
}

/// The structural correspondence between a source node and the expression its
/// lowering yields: the variant, the copied values and positions, and,
/// recursively, every lowered child. What depends on the state the walk runs
/// in — which scope an identifier resolved through, whether an import's
/// module was found — stands here as the disjunction of the possible shapes
/// and is pinned exactly by the ensures of the function that decides it.
pub open spec fn lowers_to(n: Node, e: Expression) -> bool
    decreases n, 0int,
{
    match n {
        Node::Expressions { .. } => e is Void,
        Node::Integer { value, line, column } => e == (Expression::Integer {
            value,
            line,
            column,
        }),
        Node::Float { bits, line, column } => e == (Expression::Float { bits, line, column }),
        Node::Str { value, line, column } => e matches Expression::Str {
            value: v,
            line: l,
            column: c,
        } && v@ == value@ && l == line && c == column,
        Node::Array { values, line, column } => e matches Expression::Array {
            values: vs,
            line: l,
            column: c,
        } && l == line && c == column && vs@.len() == values@.len() && (forall|i: int|
            0 <= i < values@.len() ==> lowers_to(values@[i], #[trigger] vs@[i])),
        Node::Hash { pairs, line, column } => e matches Expression::Hash {
            pairs: ps,
            line: l,
            column: c,
        } && l == line && c == column && ps@.len() == pairs@.len() && (forall|i: int|
            0 <= i < pairs@.len() ==> lowers_to(pairs@[i].0, (#[trigger] ps@[i]).0) && lowers_to(
                pairs@[i].1,
                ps@[i].1,
            )),
        Node::SelfObject { line, column } => e == (Expression::GetSelf { line, column }),
        Node::Identifier { name, line, column } => (e matches Expression::GetLocal {
            variable,
            line: l,
            column: c,
        } && variable.name@ == name@ && l == line && c == column) || (e
            matches Expression::GetGlobal { variable, line: l, column: c } && variable.name@
            == name@ && l == line && c == column) || (e matches Expression::SendObjectMessage {
            name: m,
            arguments,
            line: l,
            column: c,
        } && m@ == name@ && l == line && c == column && arguments@ == seq![
            (Expression::GetSelf { line, column }),
        ]),
        Node::Attribute { name, line, column } => e matches Expression::GetAttribute {
            receiver,
            name: m,
            line: l,
            column: c,
        } && m@ == name@ && l == line && c == column && *receiver == (Expression::GetSelf {
            line,
            column,
        }),
        Node::Constant { receiver, name, line, column } => e matches Expression::GetAttribute {
            receiver: rec,
            name: m,
            line: l,
            column: c,
        } && m@ == name@ && l == line && c == column && (match receiver {
            Some(b) => lowers_to(*b, *rec),
            None => *rec == (Expression::GetSelf { line, column }),
        }),
        Node::Type { constant, .. } => lowers_to(*constant, e),
        Node::LetDefine { name, value, line, column } => binding_lowers_to(
            *name,
            *value,
            Mutability::Immutable,
            e,
            line,
            column,
        ),
        Node::VarDefine { name, value, line, column } => binding_lowers_to(
            *name,
            *value,
            Mutability::Mutable,
            e,
            line,
            column,
        ),
        Node::Send { name, receiver, arguments, line, column } => e
            matches Expression::SendObjectMessage {
            name: m,
            arguments: args,
            line: l,
            column: c,
        } && m@ == name@ && l == line && c == column && args@.len() == arguments@.len() + 1 && (
        match receiver {
            Some(b) => lowers_to(*b, args@[0]),
            None => args@[0] == (Expression::GetSelf { line, column }),
        }) && (forall|i: int|
            0 <= i < arguments@.len() ==> lowers_to(arguments@[i], #[trigger] args@[i + 1])),
        Node::Import { line, column, .. } => e is Void || (e matches Expression::ImportModule {
            line: l,
            column: c,
            ..
        } && l == line && c == column),
        Node::Closure { arguments, body, line, column } => e matches Expression::Closure {
            arguments: args,
            body: b,
            line: l,
            column: c,
        } && l == line && c == column && args@.len() == arguments@.len() && arg_list_lowers_to(
            arguments@,
            args@,
        ) && body_lowers_to(*body, b),
        Node::KeywordArgument { name, value, line, column } => e
            matches Expression::KeywordArgument { name: m, value: v, line: l, column: c } && m@
            == name@ && l == line && c == column && lowers_to(*value, *v),
        Node::Method { name, receiver, arguments, body, requirements, line, column } => match body {
            Some(b) => e matches Expression::Method {
                name: m,
                receiver: rec,
                arguments: args,
                body: bo,
                requirements: reqs,
                line: l,
                column: c,
            } && m@ == name@ && l == line && c == column && (match receiver {
                Some(rn) => (rec matches Some(re) && lowers_to(*rn, *re)),
                None => rec is None,
            }) && args@.len() == arguments@.len() && arg_list_lowers_to(arguments@, args@)
                && body_lowers_to(*b, bo) && reqs@.len() == requirements@.len() && (forall|i: int|
                0 <= i < requirements@.len() ==> lowers_to(
                    requirements@[i],
                    #[trigger] reqs@[i],
                )),
            None => e matches Expression::RequiredMethod {
                name: m,
                arguments: args,
                requirements: reqs,
                line: l,
                column: c,
            } && m@ == name@ && l == line && c == column && args@.len() == arguments@.len()
                && arg_list_lowers_to(arguments@, args@) && reqs@.len() == requirements@.len() && (
            forall|i: int|
                0 <= i < requirements@.len() ==> lowers_to(
                    requirements@[i],
                    #[trigger] reqs@[i],
                )),
        },
        Node::Class { name, implements, body, line, column } => e matches Expression::Class {
            name: m,
            body: b,
            implements: impls,
            line: l,
            column: c,
        } && m@ == name@ && l == line && c == column && body_lowers_to(*body, b) && impls@.len()
            == implements@.len() && (forall|i: int|
            0 <= i < implements@.len() ==> implement_lowers_to(
                implements@[i],
                #[trigger] impls@[i],
            )),
        Node::Trait { name, body, line, column } => e matches Expression::Trait {
            name: m,
            body: b,
            line: l,
            column: c,
        } && m@ == name@ && l == line && c == column && body_lowers_to(*body, b),
        Node::Return { value, line, column } => e matches Expression::Return {
            value: v,
            line: l,
            column: c,
        } && l == line && c == column && (match value {
            Some(b) => lowers_to(*b, *v),
            None => *v == (Expression::Nil { line, column }),
        }),
        Node::TypeCast { value, .. } => lowers_to(*value, e),
        Node::Try { body, else_body, line, column, .. } => e matches Expression::Try {
            body: b,
            else_body: eb,
            else_argument: ea,
            line: l,
            column: c,
        } && l == line && c == column && body_lowers_to(*body, b) && (match else_body {
            Some(en) => (eb matches Some(ec) && body_lowers_to(*en, ec)),
            None => eb is None && ea is None,
        }),
        Node::ImportSymbol { .. } => e is Void,
        Node::ArgumentDefine { .. } => e is Void,
        Node::Implement { .. } => e is Void,
    }
}

/// The correspondence for a binding definition, by the kind of its target:
/// an identifier target becomes a local write, a constant or attribute
/// target an attribute write on the implicit self; either wraps the lowered
/// right-hand value.
pub open spec fn binding_lowers_to(
    target: Node,
    value: Node,
    mutability: Mutability,
    e: Expression,
    line: usize,
    column: usize,
) -> bool
    decreases value, 1int,
{
    match target {
        Node::Identifier { name, .. } => e matches Expression::SetLocal {
            variable,
            value: v,
            line: l,
            column: c,
        } && variable.name@ == name@ && variable.mutability == mutability && l == line && c
            == column && lowers_to(value, *v),
        Node::Constant { name, .. } => e matches Expression::SetAttribute {
            receiver,
            name: m,
            value: v,
            line: l,
            column: c,
        } && m@ == name@ && l == line && c == column && *receiver == (Expression::GetSelf {
            line,
            column,
        }) && lowers_to(value, *v),
        Node::Attribute { name, .. } => e matches Expression::SetAttribute {
            receiver,
            name: m,
            value: v,
            line: l,
            column: c,
        } && m@ == name@ && l == line && c == column && *receiver == (Expression::GetSelf {
            line,
            column,
        }) && lowers_to(value, *v),
        _ => true,
    }
}

/// The correspondence for a lexical body: a sequence node lowers to one
/// expression per element in order; any other node yields an empty body.
pub open spec fn body_lowers_to(n: Node, co: CodeObject) -> bool
    decreases n, 1int,
{
    match n {
        Node::Expressions { nodes } => co.body@.len() == nodes@.len() && (forall|i: int|
            0 <= i < nodes@.len() ==> lowers_to(nodes@[i], #[trigger] co.body@[i])),
        _ => co.body@.len() == 0,
    }
}

/// The correspondence for one argument definition: name, position and rest
/// flag are copied, and a default value is present exactly when declared,
/// lowered from the declaration.
pub open spec fn arg_entry_lowers_to(n: Node, a: MethodArgument) -> bool
    decreases n, 0int,
{
    match n {
        Node::ArgumentDefine { name, default, rest, line, column } => a.name@ == name@ && a.rest
            == rest && a.line == line && a.column == column && (match default {
            Some(b) => (a.default_value matches Some(dv) && lowers_to(*b, dv)),
            None => a.default_value is None,
        }),
        _ => true,
    }
}

/// The correspondence for an argument list: one lowered argument per
/// definition, in order.
pub open spec fn arg_list_lowers_to(nodes: Seq<Node>, args: Seq<MethodArgument>) -> bool
    decreases nodes, 1int,
{
    args.len() == nodes.len() && (forall|i: int|
        0 <= i < nodes.len() ==> arg_entry_lowers_to(#[trigger] nodes[i], args[i]))
}

/// The correspondence for one implemented-trait entry: the trait reference
/// is lowered, and the rename pairs carry the named nodes' names in order.
pub open spec fn implement_lowers_to(n: Node, imp: Implement) -> bool
    decreases n, 1int,
{
    match n {
        Node::Implement { name, renames, line, column } => lowers_to(*name, imp.name)
            && imp.line == line && imp.column == column && imp.renames@.len() == renames@.len()
            && (forall|i: int|
            0 <= i < renames@.len() ==> (#[trigger] imp.renames@[i]).name@ == spec_name_of(
                renames@[i].0,
            ) && imp.renames@[i].alias@ == spec_name_of(renames@[i].1)),
        _ => true,
    }
}

/// The module name a path stands for: its file name without directories and
/// extension.
pub open spec fn spec_module_name_for_path(path: Seq<char>) -> Seq<char> {
    spec_before_first(spec_after_last(path, PATH_SEPARATOR), EXTENSION_SEPARATOR)
}

/// The candidate relative file path of a module name: the separator replaced
/// by the path separator, the source extension appended.
pub open spec fn spec_module_path_for_name(b: Builder, name: Seq<char>) -> Seq<char> {
    spec_replace(name, sep_of(b), seq![PATH_SEPARATOR]) + b.config.extension@
}

/// The first source directory in which the candidate relative path exists,
/// joined with it; `None` when no directory has it.
pub open spec fn spec_find_module_path(
    dirs: Seq<String>,
    rel: Seq<char>,
    sources: SourceSet,
) -> Option<Seq<char>>
    decreases dirs.len(),
{
    if dirs.len() == 0 {
        None
    } else if sources.spec_find(spec_path_join(dirs[0]@, rel)) is Some {
        Some(spec_path_join(dirs[0]@, rel))
    } else {
        spec_find_module_path(dirs.drop_first(), rel, sources)
    }
}

impl Builder {
    pub fn new(config: Config) -> (r: Builder)
        ensures
            r.config == config,
            r.diagnostics@ == Seq::<DiagnosticView>::empty(),
            r.modules.entries@ == Seq::<(String, ModuleState)>::empty(),
    {
        Builder { config, diagnostics: Diagnostics::new(), modules: Registry::new() }
    }

    fn integer(&self, value: i64, line: usize, column: usize) -> (r: Expression)
        ensures
            r == (Expression::Integer { value, line, column }),
    {
        Expression::Integer { value, line, column }
    }

    fn float(&self, bits: u64, line: usize, column: usize) -> (r: Expression)
        ensures
            r == (Expression::Float { bits, line, column }),
    {
        Expression::Float { bits, line, column }
    }

    fn string(&self, value: String, line: usize, column: usize) -> (r: Expression)
        ensures
            r == (Expression::Str { value, line, column }),
    {
        Expression::Str { value, line, column }
    }

    fn get_self(&self, line: usize, column: usize) -> (r: Expression)
        ensures
            r == (Expression::GetSelf { line, column }),
    {
        Expression::GetSelf { line, column }
    }

    fn get_local(&self, variable: Variable, line: usize, column: usize) -> (r: Expression)
        ensures
            r == (Expression::GetLocal { variable, line, column }),
    {
        Expression::GetLocal { variable, line, column }
    }

    fn get_global(&self, variable: Variable, line: usize, column: usize) -> (r: Expression)
        ensures
            r == (Expression::GetGlobal { variable, line, column }),
    {
        Expression::GetGlobal { variable, line, column }
    }

    /// A bare attribute access: an attribute read on the implicit self.
    fn attribute(&self, name: String, line: usize, column: usize) -> (r: Expression)
        ensures
            r == (Expression::GetAttribute {
                receiver: Box::new(Expression::GetSelf { line, column }),
                name,
                line,
                column,
            }),
    {
        Expression::GetAttribute {
            receiver: Box::new(self.get_self(line, column)),
            name,
            line,
            column,
        }
    }

    /// A constant-name definition: an attribute write on the implicit self.
    fn set_constant(&self, name: String, value: Expression, line: usize, column: usize) -> (r:
        Expression)
        ensures
            r == (Expression::SetAttribute {
                receiver: Box::new(Expression::GetSelf { line, column }),
                name,
                value: Box::new(value),
                line,
                column,
            }),
    {
        let self_expr = self.get_self(line, column);
        Expression::SetAttribute {
            receiver: Box::new(self_expr),
            name,
            value: Box::new(value),
            line,
            column,
        }
    }

    /// An attribute-target definition: an attribute write on the implicit
    /// self. Attribute mutability is not tracked per receiver type at this
    /// stage; that is deferred to a later phase.
    fn set_attribute(&self, name: String, value: Expression, line: usize, column: usize) -> (r:
        Expression)
        ensures
            r == (Expression::SetAttribute {
                receiver: Box::new(Expression::GetSelf { line, column }),
                name,
                value: Box::new(value),
                line,
                column,
            }),
    {
        Expression::SetAttribute {
            receiver: Box::new(self.get_self(line, column)),
            name,
            value: Box::new(value),
            line,
            column,
        }
    }

    /// Binds `name` in the current local scope and wraps the already lowered
    /// value.
    fn set_local(
        &self,
        name: String,
        value: Expression,
        mutability: Mutability,
        line: usize,
        column: usize,
        locals: &mut Scope,
    ) -> (r: Expression)
        requires
            old(locals).wf(),
        ensures
            final(locals).wf(),
            scope_extends(*old(locals), *final(locals)),
            ({
                let variable = Variable {
                    name,
                    mutability,
                    index: old(locals).entries@.len() as usize,
                };
                &&& r == (Expression::SetLocal {
                    variable,
                    value: Box::new(value),
                    line,
                    column,
                })
                &&& final(locals).entries@ == old(locals).entries@.push(variable)
                &&& final(locals).spec_lookup(name@) == Some(variable)
            }),
    {
        let variable = locals.define(name, mutability);
        proof {
            assert(old(locals).entries@.is_prefix_of(locals.entries@)) by {
                assert(old(locals).entries@ =~= locals.entries@.subrange(
                    0,
                    old(locals).entries@.len() as int,
                ));
            }
        }
        Expression::SetLocal { variable, value: Box::new(value), line, column }
    }

    /// The name an identifier or constant node carries.
    fn name_of_node(&self, node: &Node) -> (r: Option<String>)
        ensures
            match r {
                Some(s) => is_named(*node) && s@ == spec_name_of(*node),
                None => !is_named(*node),
            },
    {
        match node {
            Node::Identifier { name, .. } => Some(name.clone()),
            Node::Constant { name, .. } => Some(name.clone()),
            _ => None,
        }
    }

    /// The dotted module name of a sequence of import steps: the names of
    /// the leading identifier steps joined with the configured separator.
    fn module_name_for_import(&self, steps: &Vec<Node>) -> (r: String)
        ensures
            r@ == import_name(steps@, sep_of(*self)),
    {
        let ghost all = steps@;
        let mut chunks: Vec<String> = Vec::new();
        let mut i: usize = 0;
        let mut stopped = false;
        proof {
            assert(all.skip(0) =~= all);
            assert(chunks@.map_values(|c: String| c@) =~= Seq::<Seq<char>>::empty());
        }
        while i < steps.len() && !stopped
            invariant
                i <= all.len(),
                all == steps@,
                import_chunks(all) =~= chunks@.map_values(|c: String| c@) + (if stopped {
                    Seq::<Seq<char>>::empty()
                } else {
                    import_chunks(all.skip(i as int))
                }),
            decreases all.len() - i + (if stopped { 0int } else { 1int }),
        {
            proof {
                assert(all.skip(i as int)[0] == all[i as int]);
                assert(all.skip(i as int).drop_first() =~= all.skip(i + 1));
            }
            let ghost pre = chunks@.map_values(|c: String| c@);
            match &steps[i] {
                Node::Identifier { name, .. } => {
                    chunks.push(name.clone());
                    proof {
                        assert(chunks@.map_values(|c: String| c@) =~= pre.push(name@));
                        assert(pre.push(name@) + import_chunks(all.skip(i + 1)) =~= pre + (
                        seq![name@] + import_chunks(all.skip(i + 1))));
                    }
                    i = i + 1;
                },
                _ => {
                    stopped = true;
                },
            }
        }
        proof {
            if !stopped {
                assert(all.skip(all.len() as int) =~= Seq::<Node>::empty());
            }
            assert(import_chunks(all) =~= chunks@.map_values(|c: String| c@));
        }
        join_chunks(&chunks, self.config.lookup_separator())
    }

    /// The module name a file path stands for.
    fn module_name_for_path(&self, path: &String) -> (r: String)
        ensures
            r@ == spec_module_name_for_path(path@),
    {
        file_stem(path.as_str())
    }

    /// The candidate relative source path of a module name.
    fn module_path_for_name(&self, name: &String) -> (r: String)
        ensures
            r@ == spec_module_path_for_name(*self, name@),
    {
        let sep = "/";
        proof {
            reveal_strlit("/");
            assert(sep@ =~= seq![PATH_SEPARATOR]);
        }
        let mut file_name = replace_all(name.as_str(), self.config.lookup_separator().as_str(), sep);
        file_name.append(self.config.source_extension().as_str());
        file_name
    }

    /// The first configured source directory holding the candidate path,
    /// joined with it.
    fn find_module_path(&self, rel: &String, sources: &SourceSet) -> (r: Option<String>)
        ensures
            match r {
                Some(full) => spec_find_module_path(self.config.source_directories@, rel@, *sources)
                    == Some(full@) && sources.spec_find(full@) is Some,
                None => spec_find_module_path(self.config.source_directories@, rel@, *sources)
                    is None,
            },
    {
        let ghost dirs = self.config.source_directories@;
        let mut i: usize = 0;
        proof {
            assert(dirs.skip(0) =~= dirs);
        }
        while i < self.config.source_directories.len()
            invariant
                i <= dirs.len(),
                dirs == self.config.source_directories@,
                spec_find_module_path(dirs, rel@, *sources) == spec_find_module_path(
                    dirs.skip(i as int),
                    rel@,
                    *sources,
                ),
            decreases dirs.len() - i,
        {
            proof {
                assert(dirs.skip(i as int)[0] == dirs[i as int]);
                assert(dirs.skip(i as int).drop_first() =~= dirs.skip(i + 1));
            }
            let full_path = path_join(&self.config.source_directories[i], rel);
            if sources.contains(&full_path) {
                return Some(full_path);
            }
            i = i + 1;
        }
        proof {
            assert(dirs.skip(dirs.len() as int) =~= Seq::<String>::empty());
        }
        None
    }

    fn mutable_constant_message(&self) -> (r: String)
        ensures
            r@ == mutable_constant_text(),
    {
        String::from_str("constants can not be declared as mutable")
    }

    fn required_method_receiver_message(&self) -> (r: String)
        ensures
            r@ == required_method_receiver_text(),
    {
        String::from_str("methods required by a trait can not be defined on an explicit receiver")
    }

    fn unreadable_file_message(&self) -> (r: String)
        ensures
            r@ == unreadable_file_text(),
    {
        String::from_str("the file could not be opened")
    }

    fn module_not_found_message(&self, name: &String) -> (r: String)
        ensures
            r@ == module_not_found_text(name@),
    {
        let mut message = String::from_str("The module \"");
        message.append(name.as_str());
        message.append("\" could not be found");
        proof {
            assert(message@ =~= module_not_found_text(name@));
        }
        message
    }

    /// Consults the source set for `path`, standing for opening, reading and
    /// parsing the file. A missing or unreadable path and a syntax error
    /// each record one diagnostic and fail; a parsed tree is handed back
    /// untouched.
    fn parse_file<'a>(&mut self, path: &String, sources: &'a SourceSet) -> (r: Result<
        &'a Node,
        (),
    >)
        ensures
            final(self).config == old(self).config,
            final(self).modules == old(self).modules,
            match sources.spec_find(path@) {
                Some(ParseOutcome::Ast(n)) => r matches Ok(ast) && *ast == n
                    && final(self).diagnostics@ == old(self).diagnostics@,
                Some(ParseOutcome::SyntaxError { message, line, column }) => r is Err
                    && final(self).diagnostics@ == old(self).diagnostics@.push(
                    DiagnosticView { path: path@, message: message@, line, column },
                ),
                Some(ParseOutcome::ReadError { message }) => r is Err && final(self).diagnostics@
                    == old(self).diagnostics@.push(
                    DiagnosticView { path: path@, message: message@, line: 1, column: 1 },
                ),
                None => r is Err && final(self).diagnostics@ == old(self).diagnostics@.push(
                    DiagnosticView {
                        path: path@,
                        message: unreadable_file_text(),
                        line: 1,
                        column: 1,
                    },
                ),
            },
    {
        match sources.find(path) {
            Some(outcome) => match outcome {
                ParseOutcome::Ast(node) => Ok(node),
                ParseOutcome::SyntaxError { message, line, column } => {
                    self.diagnostics.error(path, message.clone(), *line, *column);
                    Err(())
                },
                ParseOutcome::ReadError { message } => {
                    self.diagnostics.error(path, message.clone(), 1, 1);
                    Err(())
                },
            },
            None => {
                let message = self.unreadable_file_message();
                self.diagnostics.error(path, message, 1, 1);
                Err(())
            },
        }
    }

    /// Lowers the file behind `path`: parses it through the source set and
    /// walks the tree. Yields a module exactly when the path parses to a
    /// tree; a missing file or a syntax error records one diagnostic and
    /// yields nothing, leaving the registry untouched. A cyclic import graph
    /// cannot make this run forever: every re-entrant build consumes one
    /// unseen module name.
    pub fn build(&mut self, path: String, sources: &SourceSet) -> (r: Option<Module>)
        requires
            sources.wf(),
        ensures
            evolves(*old(self), *final(self)),
            match sources.spec_find(path@) {
                Some(ParseOutcome::Ast(n)) => r matches Some(m) && m.path == path && m.name@
                    == spec_module_name_for_path(path@) && m.globals.wf() && m.code.locals.wf()
                    && body_lowers_to(n, m.code) && scope_gains(
                    Seq::<Variable>::empty(),
                    m.code.locals.entries@,
                    body_local_defs(n),
                ) && (n matches Node::Expressions { nodes } ==> m.code.body@.len()
                    == nodes@.len()),
                Some(ParseOutcome::SyntaxError { message, line, column }) => r is None && final(self).modules == old(self).modules && final(self).diagnostics@ == old(self).diagnostics@.push(
                    (DiagnosticView { path: path@, message: message@, line, column }),
                ),
                Some(ParseOutcome::ReadError { message }) => r is None && final(self).modules
                    == old(self).modules && final(self).diagnostics@ == old(self).diagnostics@.push(
                    (DiagnosticView { path: path@, message: message@, line: 1, column: 1 }),
                ),
                None => r is None && final(self).modules == old(self).modules && final(self).diagnostics@ == old(self).diagnostics@.push(
                    (DiagnosticView {
                        path: path@,
                        message: unreadable_file_text(),
                        line: 1,
                        column: 1,
                    }),
                ),
            },
        decreases names_left(*old(self), *sources), found_size(*sources, path@), 7int,
    {
        proof {
            lemma_evolves_refl(*self);
        }
        let parsed = self.parse_file(&path, sources);
        match parsed {
            Ok(ast) => {
                proof {
                    lemma_find_source_wf(*sources, path@);
                    lemma_find_source_ast(sources.files@, path@, sep_of(*self));
                    lemma_prefix_refl(self.diagnostics@);
                    lemma_prefix_refl(self.modules.entries@);
                }
                let mut globals = Scope::new();
                let code_object = self.code_object(&path, ast, &mut globals, sources);
                let mod_name = self.module_name_for_path(&path);
                Some(Module { path, name: mod_name, code: code_object, globals })
            },
            Err(_) => {
                proof {
                    lemma_prefix_refl(self.modules.entries@);
                    lemma_prefix_push(old(self).diagnostics@, self.diagnostics@.last());
                }
                None
            },
        }
    }

    /// Lowers one lexical body starting from an empty local scope.
    fn code_object(
        &mut self,
        path: &String,
        node: &Node,
        globals: &mut Scope,
        sources: &SourceSet,
    ) -> (r: CodeObject)
        requires
            sources.wf(),
            node_wf(*node),
            node_import_names(*node, sep_of(*old(self))).subset_of(
                universe(*old(self), *sources),
            ),
            old(globals).wf(),
        ensures
            evolves(*old(self), *final(self)),
            final(globals).wf(),
            scope_extends(*old(globals), *final(globals)),
            r.locals.wf(),
            body_lowers_to(*node, r),
            scope_gains(Seq::<Variable>::empty(), r.locals.entries@, body_local_defs(*node)),
            (*node matches Node::Expressions { nodes } ==> r.body@.len() == nodes@.len()),
            !(*node matches Node::Expressions { nodes }) ==> r.body@.len() == 0,
        decreases names_left(*old(self), *sources), node_size(*node), 3int,
    {
        self.code_object_with_locals(path, node, Scope::new(), globals, sources)
    }

    /// Lowers one lexical body starting from pre-populated locals (a
    /// method's parameters, or an else-clause's error capture).
    fn code_object_with_locals(
        &mut self,
        path: &String,
        node: &Node,
        locals: Scope,
        globals: &mut Scope,
        sources: &SourceSet,
    ) -> (r: CodeObject)
        requires
            sources.wf(),
            node_wf(*node),
            node_import_names(*node, sep_of(*old(self))).subset_of(
                universe(*old(self), *sources),
            ),
            locals.wf(),
            old(globals).wf(),
        ensures
            evolves(*old(self), *final(self)),
            final(globals).wf(),
            scope_extends(*old(globals), *final(globals)),
            r.locals.wf(),
            scope_extends(locals, r.locals),
            body_lowers_to(*node, r),
            scope_gains(locals.entries@, r.locals.entries@, body_local_defs(*node)),
            (*node matches Node::Expressions { nodes } ==> r.body@.len() == nodes@.len()),
            !(*node matches Node::Expressions { nodes }) ==> r.body@.len() == 0 && r.locals
                == locals,
        decreases names_left(*old(self), *sources), node_size(*node), 2int,
    {
        let mut locals = locals;
        proof {
            lemma_evolves_refl(*self);
            lemma_scope_extends_refl(*globals);
            lemma_scope_extends_refl(locals);
        }
        let body = match node {
            Node::Expressions { nodes } => self.process_nodes(
                nodes,
                path,
                &mut locals,
                globals,
                sources,
            ),
            _ => Vec::new(),
        };
        CodeObject { locals, body }
    }

    /// Lowers a sequence of nodes in order, one expression per node.
    fn process_nodes(
        &mut self,
        nodes: &Vec<Node>,
        path: &String,
        locals: &mut Scope,
        globals: &mut Scope,
        sources: &SourceSet,
    ) -> (r: Vec<Expression>)
        requires
            sources.wf(),
            nodes_wf(nodes@),
            seq_import_names(nodes@, sep_of(*old(self))).subset_of(
                universe(*old(self), *sources),
            ),
            old(locals).wf(),
            old(globals).wf(),
        ensures
            evolves(*old(self), *final(self)),
            final(locals).wf(),
            final(globals).wf(),
            scope_extends(*old(locals), *final(locals)),
            scope_extends(*old(globals), *final(globals)),
            r@.len() == nodes@.len(),
            forall|i: int| 0 <= i < nodes@.len() ==> lowers_to(nodes@[i], #[trigger] r@[i]),
            scope_gains(old(locals).entries@, final(locals).entries@, seq_local_defs(nodes@)),
            nodes@.len() == 0 ==> *final(self) == *old(self) && *final(locals) == *old(locals)
                && *final(globals) == *old(globals),
        decreases names_left(*old(self), *sources), nodes_size(nodes@), 4int,
    {
        let mut result: Vec<Expression> = Vec::new();
        let mut i: usize = 0;
        let ghost mut taken: Seq<(Seq<char>, Mutability)> = Seq::empty();
        proof {
            lemma_evolves_refl(*self);
            lemma_scope_extends_refl(*locals);
            lemma_scope_extends_refl(*globals);
            assert(nodes@.skip(0) =~= nodes@);
            assert(taken + seq_local_defs(nodes@) =~= seq_local_defs(nodes@));
        }
        while i < nodes.len()
            invariant
                i <= nodes@.len(),
                sources.wf(),
                nodes_wf(nodes@),
                seq_import_names(nodes@, sep_of(*old(self))).subset_of(
                    universe(*old(self), *sources),
                ),
                evolves(*old(self), *self),
                locals.wf(),
                globals.wf(),
                scope_extends(*old(locals), *locals),
                scope_extends(*old(globals), *globals),
                result@.len() == i,
                forall|j: int| 0 <= j < i ==> lowers_to(nodes@[j], #[trigger] result@[j]),
                scope_gains(old(locals).entries@, locals.entries@, taken),
                seq_local_defs(nodes@) == taken + seq_local_defs(nodes@.skip(i as int)),
                i == 0 ==> *self == *old(self) && *locals == *old(locals) && *globals == *old(
                    globals,
                ),
            decreases nodes@.len() - i,
        {
            proof {
                lemma_nodes_wf_element(nodes@, i as int);
                lemma_seq_import_names_element(nodes@, sep_of(*old(self)), i as int);
                lemma_nodes_size_element(nodes@, i as int);
                lemma_left_mono(*sources, *old(self), *self);
                assert(nodes@.skip(i as int)[0] == nodes@[i as int]);
                assert(nodes@.skip(i as int).drop_first() =~= nodes@.skip(i + 1));
            }
            let ghost mid_self = *self;
            let ghost mid_locals = *locals;
            let ghost mid_globals = *globals;
            let expr = self.process_node(&nodes[i], path, locals, globals, sources);
            proof {
                lemma_evolves_trans(*old(self), mid_self, *self);
                lemma_scope_extends_trans(*old(locals), mid_locals, *locals);
                lemma_scope_extends_trans(*old(globals), mid_globals, *globals);
                lemma_scope_gains_trans(
                    old(locals).entries@,
                    mid_locals.entries@,
                    locals.entries@,
                    taken,
                    local_defs(nodes@[i as int]),
                );
                let gained = local_defs(nodes@[i as int]);
                assert((taken + gained) + seq_local_defs(nodes@.skip(i + 1)) =~= taken + (gained
                    + seq_local_defs(nodes@.skip(i + 1))));
                taken = taken + gained;
            }
            result.push(expr);
            i = i + 1;
        }
        proof {
            assert(nodes@.skip(nodes@.len() as int) =~= Seq::<Node>::empty());
            assert(taken + seq_local_defs(nodes@.skip(nodes@.len() as int)) =~= taken);
        }
        result
    }

    /// Lowers one node to exactly one expression, keyed on its syntactic
    /// kind. A kind this stage does not handle lowers to the no-op
    /// placeholder rather than failing.
    fn process_node(
        &mut self,
        node: &Node,
        path: &String,
        locals: &mut Scope,
        globals: &mut Scope,
        sources: &SourceSet,
    ) -> (r: Expression)
        requires
            sources.wf(),
            node_wf(*node),
            node_import_names(*node, sep_of(*old(self))).subset_of(
                universe(*old(self), *sources),
            ),
            old(locals).wf(),
            old(globals).wf(),
        ensures
            evolves(*old(self), *final(self)),
            final(locals).wf(),
            final(globals).wf(),
            scope_extends(*old(locals), *final(locals)),
            scope_extends(*old(globals), *final(globals)),
            lowers_to(*node, r),
            scope_gains(old(locals).entries@, final(locals).entries@, local_defs(*node)),
            neutral_node(*node) ==> *final(self) == *old(self) && *final(locals) == *old(locals)
                && *final(globals) == *old(globals),
            match *node {
                Node::Identifier { name, line, column } => match old(locals).spec_lookup(name@) {
                    Some(v) => r == (Expression::GetLocal { variable: v, line, column }),
                    None => match old(globals).spec_lookup(name@) {
                        Some(v) => r == (Expression::GetGlobal { variable: v, line, column }),
                        None => r matches Expression::SendObjectMessage {
                            name: n,
                            arguments,
                            line: l,
                            column: c,
                        } && n@ == name@ && l == line && c == column && arguments@ == seq![
                            (Expression::GetSelf { line, column }),
                        ],
                    },
                },
                Node::Import { steps, .. } => final(self).modules.contains_name(
                    import_name(steps@, sep_of(*old(self))),
                ) && ((r matches Expression::ImportModule { .. }) <==> (
                final(self).modules.spec_get(import_name(steps@, sep_of(*old(self))))
                    matches Some(ModuleState::Resolved(_)))),
                _ => true,
            },
        decreases names_left(*old(self), *sources), node_size(*node), 1int,
    {
        proof {
            lemma_evolves_refl(*self);
            lemma_scope_extends_refl(*locals);
            lemma_scope_extends_refl(*globals);
            assert(scope_gains(
                old(locals).entries@,
                locals.entries@,
                Seq::<(Seq<char>, Mutability)>::empty(),
            ));
        }
        match node {
            Node::Integer { value, line, column } => self.integer(*value, *line, *column),
            Node::Float { bits, line, column } => self.float(*bits, *line, *column),
            Node::Str { value, line, column } => self.string(value.clone(), *line, *column),
            Node::Array { values, line, column } => self.array(
                values,
                *line,
                *column,
                path,
                locals,
                globals,
                sources,
            ),
            Node::Hash { pairs, line, column } => self.hash(
                pairs,
                *line,
                *column,
                path,
                locals,
                globals,
                sources,
            ),
            Node::SelfObject { line, column } => self.get_self(*line, *column),
            Node::Identifier { name, line, column } => {
                proof {
                    crate::variable::lemma_lookup_in_name(locals.entries@, name@);
                    crate::variable::lemma_lookup_in_name(globals.entries@, name@);
                }
                self.identifier(name, *line, *column, path, locals, globals, sources)
            },
            Node::Attribute { name, line, column } => self.attribute(
                name.clone(),
                *line,
                *column,
            ),
            Node::Constant { receiver, name, line, column } => self.get_constant(
                name.clone(),
                receiver,
                *line,
                *column,
                path,
                locals,
                globals,
                sources,
            ),
            Node::Type { constant, .. } => self.process_node(
                &**constant,
                path,
                locals,
                globals,
                sources,
            ),
            Node::LetDefine { name, value, line, column } => self.set_variable(
                &**name,
                &**value,
                Mutability::Immutable,
                *line,
                *column,
                path,
                locals,
                globals,
                sources,
            ),
            Node::VarDefine { name, value, line, column } => self.set_variable(
                &**name,
                &**value,
                Mutability::Mutable,
                *line,
                *column,
                path,
                locals,
                globals,
                sources,
            ),
            Node::Send { name, receiver, arguments, line, column } => self.send_object_message(
                name.clone(),
                receiver,
                arguments,
                *line,
                *column,
                path,
                locals,
                globals,
                sources,
            ),
            Node::Import { steps, symbols, line, column } => self.import(
                steps,
                symbols,
                *line,
                *column,
                path,
                globals,
                sources,
            ),
            Node::Closure { arguments, body, line, column } => self.closure(
                arguments,
                &**body,
                *line,
                *column,
                path,
                locals,
                globals,
                sources,
            ),
            Node::KeywordArgument { name, value, line, column } => self.keyword_argument(
                name.clone(),
                &**value,
                *line,
                *column,
                path,
                locals,
                globals,
                sources,
            ),
            Node::Method { name, receiver, arguments, body, requirements, line, column } => {
                match body {
                    Some(body_node) => {
                        proof {
                            assert(opt_wf(*body) == node_wf(**body_node));
                            assert(opt_import_names(*body, sep_of(*old(self)))
                                == node_import_names(**body_node, sep_of(*old(self))));
                            assert(opt_size(*body) == node_size(**body_node));
                        }
                        self.method(
                        name.clone(),
                        receiver,
                        arguments,
                        requirements,
                        &**body_node,
                        *line,
                        *column,
                        path,
                        locals,
                        globals,
                        sources,
                    )
                    },
                    None => self.required_method(
                        name.clone(),
                        receiver,
                        arguments,
                        requirements,
                        *line,
                        *column,
                        path,
                        locals,
                        globals,
                        sources,
                    ),
                }
            },
            Node::Class { name, implements, body, line, column } => self.class(
                name.clone(),
                implements,
                &**body,
                *line,
                *column,
                path,
                locals,
                globals,
                sources,
            ),
            Node::Trait { name, body, line, column } => self.def_trait(
                name.clone(),
                &**body,
                *line,
                *column,
                path,
                globals,
                sources,
            ),
            Node::Return { value, line, column } => self.return_value(
                value,
                *line,
                *column,
                path,
                locals,
                globals,
                sources,
            ),
            Node::TypeCast { value, .. } => self.type_cast(
                &**value,
                path,
                locals,
                globals,
                sources,
            ),
            Node::Try { body, else_body, else_argument, line, column } => self.try_block(
                &**body,
                else_body,
                else_argument,
                *line,
                *column,
                path,
                globals,
                sources,
            ),
            _ => Expression::Void,
        }
    }

    /// Lowers every element and keeps their order.
    fn array(
        &mut self,
        value_nodes: &Vec<Node>,
        line: usize,
        column: usize,
        path: &String,
        locals: &mut Scope,
        globals: &mut Scope,
        sources: &SourceSet,
    ) -> (r: Expression)
        requires
            sources.wf(),
            nodes_wf(value_nodes@),
            seq_import_names(value_nodes@, sep_of(*old(self))).subset_of(
                universe(*old(self), *sources),
            ),
            old(locals).wf(),
            old(globals).wf(),
        ensures
            evolves(*old(self), *final(self)),
            final(locals).wf(),
            final(globals).wf(),
            scope_extends(*old(locals), *final(locals)),
            scope_extends(*old(globals), *final(globals)),
            r matches Expression::Array { values, line: l, column: c } && values@.len()
                == value_nodes@.len() && l == line && c == column && (forall|i: int|
                0 <= i < value_nodes@.len() ==> lowers_to(
                    value_nodes@[i],
                    #[trigger] values@[i],
                )),
            scope_gains(
                old(locals).entries@,
                final(locals).entries@,
                seq_local_defs(value_nodes@),
            ),
        decreases names_left(*old(self), *sources), nodes_size(value_nodes@), 5int,
    {
        let values = self.process_nodes(value_nodes, path, locals, globals, sources);
        Expression::Array { values, line, column }
    }

    /// Lowers every pair's key and value independently; pairing order is the
    /// source's insertion order.
    fn hash(
        &mut self,
        pair_nodes: &Vec<(Node, Node)>,
        line: usize,
        column: usize,
        path: &String,
        locals: &mut Scope,
        globals: &mut Scope,
        sources: &SourceSet,
    ) -> (r: Expression)
        requires
            sources.wf(),
            pairs_wf(pair_nodes@),
            pair_import_names(pair_nodes@, sep_of(*old(self))).subset_of(
                universe(*old(self), *sources),
            ),
            old(locals).wf(),
            old(globals).wf(),
        ensures
            evolves(*old(self), *final(self)),
            final(locals).wf(),
            final(globals).wf(),
            scope_extends(*old(locals), *final(locals)),
            scope_extends(*old(globals), *final(globals)),
            r matches Expression::Hash { pairs, line: l, column: c } && pairs@.len()
                == pair_nodes@.len() && l == line && c == column && (forall|i: int|
                0 <= i < pair_nodes@.len() ==> lowers_to(pair_nodes@[i].0, (#[trigger] pairs@[i]).0)
                    && lowers_to(pair_nodes@[i].1, pairs@[i].1)),
            scope_gains(
                old(locals).entries@,
                final(locals).entries@,
                pair_local_defs(pair_nodes@),
            ),
        decreases names_left(*old(self), *sources), pairs_size(pair_nodes@), 5int,
    {
        let mut pairs: Vec<(Expression, Expression)> = Vec::new();
        let mut i: usize = 0;
        let ghost mut taken: Seq<(Seq<char>, Mutability)> = Seq::empty();
        proof {
            lemma_evolves_refl(*self);
            lemma_scope_extends_refl(*locals);
            lemma_scope_extends_refl(*globals);
            assert(pair_nodes@.skip(0) =~= pair_nodes@);
            assert(taken + pair_local_defs(pair_nodes@) =~= pair_local_defs(pair_nodes@));
        }
        while i < pair_nodes.len()
            invariant
                i <= pair_nodes@.len(),
                sources.wf(),
                pairs_wf(pair_nodes@),
                pair_import_names(pair_nodes@, sep_of(*old(self))).subset_of(
                    universe(*old(self), *sources),
                ),
                evolves(*old(self), *self),
                locals.wf(),
                globals.wf(),
                scope_extends(*old(locals), *locals),
                scope_extends(*old(globals), *globals),
                pairs@.len() == i,
                forall|j: int|
                    0 <= j < i ==> lowers_to(pair_nodes@[j].0, (#[trigger] pairs@[j]).0)
                        && lowers_to(pair_nodes@[j].1, pairs@[j].1),
                scope_gains(old(locals).entries@, locals.entries@, taken),
                pair_local_defs(pair_nodes@) == taken + pair_local_defs(
                    pair_nodes@.skip(i as int),
                ),
            decreases pair_nodes@.len() - i,
        {
            proof {
                lemma_pairs_wf_element(pair_nodes@, i as int);
                lemma_pair_import_names_element(pair_nodes@, sep_of(*old(self)), i as int);
                lemma_pairs_size_element(pair_nodes@, i as int);
                lemma_left_mono(*sources, *old(self), *self);
                assert(pair_nodes@.skip(i as int)[0] == pair_nodes@[i as int]);
                assert(pair_nodes@.skip(i as int).drop_first() =~= pair_nodes@.skip(i + 1));
            }
            let ghost mid_self = *self;
            let ghost mid_locals = *locals;
            let ghost mid_globals = *globals;
            let key = self.process_node(&pair_nodes[i].0, path, locals, globals, sources);
            proof {
                lemma_evolves_trans(*old(self), mid_self, *self);
                lemma_scope_extends_trans(*old(locals), mid_locals, *locals);
                lemma_scope_extends_trans(*old(globals), mid_globals, *globals);
                lemma_left_mono(*sources, *old(self), *self);
            }
            let ghost mid_self2 = *self;
            let ghost mid_locals2 = *locals;
            let ghost mid_globals2 = *globals;
            let value = self.process_node(&pair_nodes[i].1, path, locals, globals, sources);
            proof {
                lemma_evolves_trans(*old(self), mid_self2, *self);
                lemma_scope_extends_trans(*old(locals), mid_locals2, *locals);
                lemma_scope_extends_trans(*old(globals), mid_globals2, *globals);
                lemma_scope_gains_trans(
                    mid_locals.entries@,
                    mid_locals2.entries@,
                    locals.entries@,
                    local_defs(pair_nodes@[i as int].0),
                    local_defs(pair_nodes@[i as int].1),
                );
                lemma_scope_gains_trans(
                    old(locals).entries@,
                    mid_locals.entries@,
                    locals.entries@,
                    taken,
                    local_defs(pair_nodes@[i as int].0) + local_defs(pair_nodes@[i as int].1),
                );
                let gained = local_defs(pair_nodes@[i as int].0) + local_defs(
                    pair_nodes@[i as int].1,
                );
                assert((taken + gained) + pair_local_defs(pair_nodes@.skip(i + 1)) =~= taken + (
                gained + pair_local_defs(pair_nodes@.skip(i + 1))));
                assert(taken + gained =~= (taken + local_defs(pair_nodes@[i as int].0))
                    + local_defs(pair_nodes@[i as int].1));
                taken = taken + gained;
            }
            pairs.push((key, value));
            i = i + 1;
        }
        proof {
            assert(pair_nodes@.skip(pair_nodes@.len() as int) =~= Seq::<(Node, Node)>::empty());
            assert(taken + pair_local_defs(pair_nodes@.skip(pair_nodes@.len() as int)) =~= taken);
        }
        Expression::Hash { pairs, line, column }
    }

    /// Resolves an identifier: the local scope first, the module-global
    /// scope second, and otherwise a zero-argument message to the implicit
    /// self. A local or global binding always shadows a method of the same
    /// name; no existence check is made for the fallback.
    pub fn identifier(
        &mut self,
        name: &String,
        line: usize,
        column: usize,
        path: &String,
        locals: &mut Scope,
        globals: &mut Scope,
        sources: &SourceSet,
    ) -> (r: Expression)
        requires
            sources.wf(),
            old(locals).wf(),
            old(globals).wf(),
        ensures
            evolves(*old(self), *final(self)),
            final(locals).wf(),
            final(globals).wf(),
            scope_extends(*old(locals), *final(locals)),
            scope_extends(*old(globals), *final(globals)),
            *final(self) == *old(self),
            *final(locals) == *old(locals),
            *final(globals) == *old(globals),
            resolved_identifier(name@, line, column, *old(locals), *old(globals), r),
            match old(locals).spec_lookup(name@) {
                Some(v) => r == (Expression::GetLocal { variable: v, line, column }),
                None => match old(globals).spec_lookup(name@) {
                    Some(v) => r == (Expression::GetGlobal { variable: v, line, column }),
                    None => r matches Expression::SendObjectMessage {
                        name: n,
                        arguments,
                        line: l,
                        column: c,
                    } && n@ == name@ && l == line && c == column && arguments@ == seq![
                        (Expression::GetSelf { line, column }),
                    ],
                },
            },
        decreases names_left(*old(self), *sources), 0nat, 6int,
    {
        proof {
            lemma_evolves_refl(*self);
            lemma_scope_extends_refl(*locals);
            lemma_scope_extends_refl(*globals);
        }
        if let Some(local) = locals.lookup(name) {
            return self.get_local(local, line, column);
        }
        if let Some(global) = globals.lookup(name) {
            return self.get_global(global, line, column);
        }
        let args: Vec<Node> = Vec::new();
        proof {
            assert(seq_import_names(args@, sep_of(*old(self))) =~= Set::<Seq<char>>::empty());
        }
        let r = self.send_object_message(
            name.clone(),
            &None,
            &args,
            line,
            column,
            path,
            locals,
            globals,
            sources,
        );
        proof {
            if let Expression::SendObjectMessage { arguments, .. } = &r {
                assert(arguments@ =~= seq![(Expression::GetSelf { line, column })]);
            }
        }
        r
    }

    /// A constant access: an attribute read whose receiver is the written
    /// receiver expression or, absent one, the implicit self.
    fn get_constant(
        &mut self,
        name: String,
        receiver: &Option<Box<Node>>,
        line: usize,
        column: usize,
        path: &String,
        locals: &mut Scope,
        globals: &mut Scope,
        sources: &SourceSet,
    ) -> (r: Expression)
        requires
            sources.wf(),
            opt_wf(*receiver),
            opt_import_names(*receiver, sep_of(*old(self))).subset_of(
                universe(*old(self), *sources),
            ),
            old(locals).wf(),
            old(globals).wf(),
        ensures
            evolves(*old(self), *final(self)),
            final(locals).wf(),
            final(globals).wf(),
            scope_extends(*old(locals), *final(locals)),
            scope_extends(*old(globals), *final(globals)),
            r matches Expression::GetAttribute { receiver: rec, name: n, line: l, column: c }
                && n == name && l == line && c == column && (match *receiver {
                Some(b) => lowers_to(*b, *rec),
                None => *rec == (Expression::GetSelf { line, column }),
            }),
            scope_gains(old(locals).entries@, final(locals).entries@, opt_local_defs(*receiver)),
        decreases names_left(*old(self), *sources), opt_size(*receiver), 5int,
    {
        proof {
            lemma_evolves_refl(*self);
            lemma_scope_extends_refl(*locals);
            lemma_scope_extends_refl(*globals);
        }
        let rec_expr = match receiver {
            Some(node) => self.process_node(&**node, path, locals, globals, sources),
            None => self.get_self(line, column),
        };
        Expression::GetAttribute { receiver: Box::new(rec_expr), name, line, column }
    }

    /// Lowers a binding definition: the value first, then the target.
    /// An identifier target defines a local with the declared mutability; a
    /// constant target becomes an attribute write on self, and declaring it
    /// mutable records one diagnostic without aborting; an attribute target
    /// becomes an attribute write on self.
    pub fn set_variable(
        &mut self,
        name_node: &Node,
        value_node: &Node,
        mutability: Mutability,
        line: usize,
        column: usize,
        path: &String,
        locals: &mut Scope,
        globals: &mut Scope,
        sources: &SourceSet,
    ) -> (r: Expression)
        requires
            sources.wf(),
            is_assign_target(*name_node),
            node_wf(*value_node),
            node_import_names(*value_node, sep_of(*old(self))).subset_of(
                universe(*old(self), *sources),
            ),
            old(locals).wf(),
            old(globals).wf(),
        ensures
            evolves(*old(self), *final(self)),
            final(locals).wf(),
            final(globals).wf(),
            scope_extends(*old(locals), *final(locals)),
            scope_extends(*old(globals), *final(globals)),
            binding_lowers_to(*name_node, *value_node, mutability, r, line, column),
            scope_gains(
                old(locals).entries@,
                final(locals).entries@,
                local_defs(*value_node) + target_def(*name_node, mutability),
            ),
            match *value_node {
                Node::Identifier { name: vn, line: vl, column: vc } => match r {
                    Expression::SetLocal { value: v, .. } => resolved_identifier(
                        vn@,
                        vl,
                        vc,
                        *old(locals),
                        *old(globals),
                        *v,
                    ),
                    Expression::SetAttribute { value: v, .. } => resolved_identifier(
                        vn@,
                        vl,
                        vc,
                        *old(locals),
                        *old(globals),
                        *v,
                    ),
                    _ => true,
                },
                _ => true,
            },
            neutral_node(*value_node) ==> final(self).diagnostics@ == (
            if (*name_node matches Node::Constant { .. }) && mutability == Mutability::Mutable {
                old(self).diagnostics@.push(
                    (DiagnosticView {
                        path: path@,
                        message: mutable_constant_text(),
                        line,
                        column,
                    }),
                )
            } else {
                old(self).diagnostics@
            }),
            match *name_node {
                Node::Identifier { name, .. } => r matches Expression::SetLocal {
                    variable,
                    value,
                    line: l,
                    column: c,
                } && l == line && c == column && variable.name@ == name@ && variable.mutability
                    == mutability && final(locals).spec_lookup(name@) == Some(variable)
                    && variable.index + 1 == final(locals).entries@.len(),
                Node::Constant { name, .. } => (r matches Expression::SetAttribute {
                    receiver,
                    name: n,
                    value,
                    line: l,
                    column: c,
                } && n@ == name@ && l == line && c == column && *receiver
                    == (Expression::GetSelf { line, column })) && (mutability
                    == Mutability::Mutable ==> final(self).diagnostics@.len() > old(self).diagnostics@.len() && final(self).diagnostics@.last() == (DiagnosticView {
                    path: path@,
                    message: mutable_constant_text(),
                    line,
                    column,
                })),
                Node::Attribute { name, .. } => r matches Expression::SetAttribute {
                    receiver,
                    name: n,
                    value,
                    line: l,
                    column: c,
                } && n@ == name@ && l == line && c == column && *receiver
                    == (Expression::GetSelf { line, column }),
                _ => false,
            },
        decreases
            names_left(*old(self), *sources),
            node_size(*name_node) + node_size(*value_node),
            5int,
    {
        proof {
            lemma_evolves_refl(*self);
            lemma_scope_extends_refl(*locals);
            lemma_scope_extends_refl(*globals);
        }
        let value_expr = self.process_node(value_node, path, locals, globals, sources);
        match name_node {
            Node::Identifier { name, .. } => {
                let ghost mid_locals = *locals;
                let r = self.set_local(name.clone(), value_expr, mutability, line, column, locals);
                proof {
                    lemma_scope_extends_trans(*old(locals), mid_locals, *locals);
                }
                r
            },
            Node::Constant { name, .. } => {
                if mutability == Mutability::Mutable {
                    let ghost mid_self = *self;
                    let message = self.mutable_constant_message();
                    self.diagnostics.error(path, message, line, column);
                    proof {
                        lemma_prefix_push(
                            mid_self.diagnostics@,
                            self.diagnostics@.last(),
                        );
                        lemma_prefix_refl(self.modules.entries@);
                        lemma_evolves_trans(*old(self), mid_self, *self);
                    }
                }
                self.set_constant(name.clone(), value_expr, line, column)
            },
            Node::Attribute { name, .. } => self.set_attribute(
                name.clone(),
                value_expr,
                line,
                column,
            ),
            _ => {
                proof {
                    assert(false);
                }
                Expression::Void
            },
        }
    }

    /// Lowers a message send. The receiver is the written receiver
    /// expression or, absent one, the implicit self, and stands first in the
    /// argument list: the call convention passes the receiver as the
    /// implicit first argument before the explicit arguments.
    pub fn send_object_message(
        &mut self,
        name: String,
        receiver_node: &Option<Box<Node>>,
        arguments: &Vec<Node>,
        line: usize,
        column: usize,
        path: &String,
        locals: &mut Scope,
        globals: &mut Scope,
        sources: &SourceSet,
    ) -> (r: Expression)
        requires
            sources.wf(),
            opt_wf(*receiver_node),
            nodes_wf(arguments@),
            opt_import_names(*receiver_node, sep_of(*old(self))).subset_of(
                universe(*old(self), *sources),
            ),
            seq_import_names(arguments@, sep_of(*old(self))).subset_of(
                universe(*old(self), *sources),
            ),
            old(locals).wf(),
            old(globals).wf(),
        ensures
            evolves(*old(self), *final(self)),
            final(locals).wf(),
            final(globals).wf(),
            scope_extends(*old(locals), *final(locals)),
            scope_extends(*old(globals), *final(globals)),
            r matches Expression::SendObjectMessage {
                name: n,
                arguments: args,
                line: l,
                column: c,
            } && n == name && l == line && c == column && args@.len() == arguments@.len() + 1 && (
            match *receiver_node {
                Some(b) => lowers_to(*b, args@[0]),
                None => args@[0] == (Expression::GetSelf { line, column }),
            }) && (forall|i: int|
                0 <= i < arguments@.len() ==> lowers_to(arguments@[i], #[trigger] args@[i + 1])),
            (*receiver_node is None && arguments@.len() == 0) ==> *final(self) == *old(self)
                && *final(locals) == *old(locals) && *final(globals) == *old(globals),
            scope_gains(
                old(locals).entries@,
                final(locals).entries@,
                opt_local_defs(*receiver_node) + seq_local_defs(arguments@),
            ),
        decreases
            names_left(*old(self), *sources),
            opt_size(*receiver_node) + nodes_size(arguments@),
            5int,
    {
        proof {
            lemma_evolves_refl(*self);
            lemma_scope_extends_refl(*locals);
            lemma_scope_extends_refl(*globals);
        }
        let receiver = match receiver_node {
            Some(rec) => self.process_node(&**rec, path, locals, globals, sources),
            None => self.get_self(line, column),
        };
        let mut args: Vec<Expression> = Vec::new();
        args.push(receiver);
        let ghost first = args@[0];
        let ghost mut taken: Seq<(Seq<char>, Mutability)> = opt_local_defs(*receiver_node);
        let mut i: usize = 0;
        proof {
            if *receiver_node is None {
                lemma_prefix_refl(locals.entries@);
            }
            assert(scope_gains(old(locals).entries@, locals.entries@, taken));
            assert(arguments@.skip(0) =~= arguments@);
            assert(taken + seq_local_defs(arguments@) =~= taken + seq_local_defs(
                arguments@.skip(0),
            ));
        }
        while i < arguments.len()
            invariant
                i <= arguments@.len(),
                sources.wf(),
                nodes_wf(arguments@),
                seq_import_names(arguments@, sep_of(*old(self))).subset_of(
                    universe(*old(self), *sources),
                ),
                evolves(*old(self), *self),
                locals.wf(),
                globals.wf(),
                scope_extends(*old(locals), *locals),
                scope_extends(*old(globals), *globals),
                args@.len() == i + 1,
                args@[0] == first,
                match *receiver_node {
                    Some(b) => lowers_to(*b, first),
                    None => first == (Expression::GetSelf { line, column }),
                },
                forall|j: int|
                    0 <= j < i ==> lowers_to(arguments@[j], #[trigger] args@[j + 1]),
                scope_gains(old(locals).entries@, locals.entries@, taken),
                opt_local_defs(*receiver_node) + seq_local_defs(arguments@) == taken
                    + seq_local_defs(arguments@.skip(i as int)),
                (*receiver_node is None && i == 0) ==> *self == *old(self) && *locals == *old(
                    locals,
                ) && *globals == *old(globals),
            decreases arguments@.len() - i,
        {
            proof {
                lemma_nodes_wf_element(arguments@, i as int);
                lemma_seq_import_names_element(arguments@, sep_of(*old(self)), i as int);
                lemma_nodes_size_element(arguments@, i as int);
                lemma_left_mono(*sources, *old(self), *self);
                assert(arguments@.skip(i as int)[0] == arguments@[i as int]);
                assert(arguments@.skip(i as int).drop_first() =~= arguments@.skip(i + 1));
            }
            let ghost mid_self = *self;
            let ghost mid_locals = *locals;
            let ghost mid_globals = *globals;
            let arg = self.process_node(&arguments[i], path, locals, globals, sources);
            proof {
                lemma_evolves_trans(*old(self), mid_self, *self);
                lemma_scope_extends_trans(*old(locals), mid_locals, *locals);
                lemma_scope_extends_trans(*old(globals), mid_globals, *globals);
                lemma_scope_gains_trans(
                    old(locals).entries@,
                    mid_locals.entries@,
                    locals.entries@,
                    taken,
                    local_defs(arguments@[i as int]),
                );
                let gained = local_defs(arguments@[i as int]);
                assert((taken + gained) + seq_local_defs(arguments@.skip(i + 1)) =~= taken + (
                gained + seq_local_defs(arguments@.skip(i + 1))));
                taken = taken + gained;
            }
            args.push(arg);
            i = i + 1;
        }
        proof {
            assert(arguments@.skip(arguments@.len() as int) =~= Seq::<Node>::empty());
            assert(taken + seq_local_defs(arguments@.skip(arguments@.len() as int)) =~= taken);
        }
        Expression::SendObjectMessage { name, arguments: args, line, column }
    }

    /// Wraps an already lowered value as a keyword argument.
    fn keyword_argument(
        &mut self,
        name: String,
        value: &Node,
        line: usize,
        column: usize,
        path: &String,
        locals: &mut Scope,
        globals: &mut Scope,
        sources: &SourceSet,
    ) -> (r: Expression)
        requires
            sources.wf(),
            node_wf(*value),
            node_import_names(*value, sep_of(*old(self))).subset_of(
                universe(*old(self), *sources),
            ),
            old(locals).wf(),
            old(globals).wf(),
        ensures
            evolves(*old(self), *final(self)),
            final(locals).wf(),
            final(globals).wf(),
            scope_extends(*old(locals), *final(locals)),
            scope_extends(*old(globals), *final(globals)),
            r matches Expression::KeywordArgument { name: n, value: v, line: l, column: c } && n
                == name && l == line && c == column && lowers_to(*value, *v),
            scope_gains(old(locals).entries@, final(locals).entries@, local_defs(*value)),
        decreases names_left(*old(self), *sources), node_size(*value), 5int,
    {
        let value_expr = self.process_node(value, path, locals, globals, sources);
        Expression::KeywordArgument { name, value: Box::new(value_expr), line, column }
    }

    /// Lowers a return, defaulting a missing value to a nil literal at the
    /// same position.
    fn return_value(
        &mut self,
        value: &Option<Box<Node>>,
        line: usize,
        column: usize,
        path: &String,
        locals: &mut Scope,
        globals: &mut Scope,
        sources: &SourceSet,
    ) -> (r: Expression)
        requires
            sources.wf(),
            opt_wf(*value),
            opt_import_names(*value, sep_of(*old(self))).subset_of(
                universe(*old(self), *sources),
            ),
            old(locals).wf(),
            old(globals).wf(),
        ensures
            evolves(*old(self), *final(self)),
            final(locals).wf(),
            final(globals).wf(),
            scope_extends(*old(locals), *final(locals)),
            scope_extends(*old(globals), *final(globals)),
            r matches Expression::Return { value: v, line: l, column: c } && l == line && c
                == column && (match *value {
                Some(b) => lowers_to(*b, *v),
                None => *v == (Expression::Nil { line, column }),
            }),
            scope_gains(old(locals).entries@, final(locals).entries@, opt_local_defs(*value)),
        decreases names_left(*old(self), *sources), opt_size(*value), 5int,
    {
        proof {
            lemma_evolves_refl(*self);
            lemma_scope_extends_refl(*locals);
            lemma_scope_extends_refl(*globals);
        }
        let ret_val = match value {
            Some(node) => self.process_node(&**node, path, locals, globals, sources),
            None => Expression::Nil { line, column },
        };
        Expression::Return { value: Box::new(ret_val), line, column }
    }

    /// Type information is structurally discarded at this stage: the cast
    /// lowers to the lowering of its wrapped value.
    fn type_cast(
        &mut self,
        value: &Node,
        path: &String,
        locals: &mut Scope,
        globals: &mut Scope,
        sources: &SourceSet,
    ) -> (r: Expression)
        requires
            sources.wf(),
            node_wf(*value),
            node_import_names(*value, sep_of(*old(self))).subset_of(
                universe(*old(self), *sources),
            ),
            old(locals).wf(),
            old(globals).wf(),
        ensures
            evolves(*old(self), *final(self)),
            final(locals).wf(),
            final(globals).wf(),
            scope_extends(*old(locals), *final(locals)),
            scope_extends(*old(globals), *final(globals)),
            lowers_to(*value, r),
            scope_gains(old(locals).entries@, final(locals).entries@, local_defs(*value)),
        decreases names_left(*old(self), *sources), node_size(*value), 5int,
    {
        self.process_node(value, path, locals, globals, sources)
    }

    /// Resolves an import. An unseen module name is recorded as pending
    /// before anything else happens, so a module that imports itself, even
    /// transitively, finds its own name already recorded and does not
    /// resolve it again. A name with any record is never resolved a second
    /// time. The import lowers to an import expression exactly when the
    /// registry holds a resolved module for the name afterwards, and to the
    /// no-op placeholder otherwise; a name whose candidate path no source
    /// directory holds records one diagnostic.
    pub fn import(
        &mut self,
        step_nodes: &Vec<Node>,
        symbol_nodes: &Vec<Node>,
        line: usize,
        column: usize,
        path: &String,
        globals: &mut Scope,
        sources: &SourceSet,
    ) -> (r: Expression)
        requires
            sources.wf(),
            nodes_wf(symbol_nodes@),
            symbols_wf(symbol_nodes@),
            universe(*old(self), *sources).contains(
                import_name(step_nodes@, sep_of(*old(self))),
            ),
            old(globals).wf(),
        ensures
            evolves(*old(self), *final(self)),
            final(globals).wf(),
            scope_extends(*old(globals), *final(globals)),
            ({
                let mod_name = import_name(step_nodes@, sep_of(*old(self)));
                let mod_path = spec_module_path_for_name(*old(self), mod_name);
                &&& final(self).modules.contains_name(mod_name)
                &&& (old(self).modules.contains_name(mod_name) ==> final(self).modules == old(
                    self,
                ).modules && final(self).diagnostics@ == old(self).diagnostics@)
                &&& match r {
                    Expression::ImportModule { path: p, symbols, line: l, column: c } => p@
                        == mod_path && l == line && c == column && (final(self).modules.spec_get(
                        mod_name,
                    ) matches Some(ModuleState::Resolved(_))) && symbols@.len() == symbol_count(
                        symbol_nodes@,
                    ) && final(globals).entries@.len() == old(globals).entries@.len()
                        + symbol_count(symbol_nodes@) && (all_import_symbols(symbol_nodes@) ==> (
                    symbols@.len() == symbol_nodes@.len() && (forall|i: int|
                        0 <= i < symbol_nodes@.len() ==> symbol_lowers_to(
                            symbol_nodes@[i],
                            #[trigger] symbols@[i],
                            old(globals).entries@.len() + i,
                        ) && final(globals).entries@[old(globals).entries@.len() + i]
                            == symbol_variable(symbols@[i])))),
                    Expression::Void => !(final(self).modules.spec_get(mod_name) matches Some(
                        ModuleState::Resolved(_),
                    )) && *final(globals) == *old(globals),
                    _ => false,
                }
                &&& (!old(self).modules.contains_name(mod_name) && spec_find_module_path(
                    old(self).config.source_directories@,
                    mod_path,
                    *sources,
                ) is None ==> r is Void && final(self).diagnostics@ == old(
                    self,
                ).diagnostics@.push(
                    (DiagnosticView {
                        path: path@,
                        message: module_not_found_text(mod_name),
                        line,
                        column,
                    }),
                ))
                &&& (!old(self).modules.contains_name(mod_name) ==> match spec_find_module_path(
                    old(self).config.source_directories@,
                    mod_path,
                    *sources,
                ) {
                    Some(full) => !(sources.spec_find(full) matches Some(ParseOutcome::Ast(_)))
                        ==> r is Void && final(self).modules.spec_get(mod_name) == Some(
                        ModuleState::Failed,
                    ),
                    None => true,
                })
            }),
        decreases
            names_left(*old(self), *sources),
            nodes_size(step_nodes@) + nodes_size(symbol_nodes@),
            5int,
    {
        proof {
            lemma_evolves_refl(*self);
            lemma_scope_extends_refl(*globals);
        }
        let mod_name = self.module_name_for_import(step_nodes);
        let mod_path = self.module_path_for_name(&mod_name);
        if !self.modules.contains(&mod_name) {
            let ghost names0 = self.modules.names();
            let ghost u = universe(*old(self), *sources);
            self.modules.insert(mod_name.clone(), ModuleState::Pending);
            proof {
                lemma_prefix_push(
                    old(self).modules.entries@,
                    (mod_name, ModuleState::Pending),
                );
                lemma_prefix_refl(old(self).diagnostics@);
                lemma_sources_import_names_finite(sources.files@, sep_of(*old(self)));
                u.lemma_set_insert_diff_decreases(names0, mod_name@);
                assert(self.modules.names() =~= names0.insert(mod_name@));
                assert(names_left(*self, *sources) < names_left(*old(self), *sources));
            }
            match self.find_module_path(&mod_path, sources) {
                Some(full_path) => {
                    let ghost mid_self = *self;
                    let module = self.build(full_path, sources);
                    proof {
                        lemma_evolves_trans(*old(self), mid_self, *self);
                    }
                    let ghost mid_self2 = *self;
                    match module {
                        Some(m) => {
                            self.modules.insert(mod_name.clone(), ModuleState::Resolved(m));
                        },
                        None => {
                            self.modules.insert(mod_name.clone(), ModuleState::Failed);
                        },
                    }
                    proof {
                        lemma_prefix_push(
                            mid_self2.modules.entries@,
                            self.modules.entries@.last(),
                        );
                        lemma_prefix_refl(mid_self2.diagnostics@);
                        lemma_evolves_trans(*old(self), mid_self2, *self);
                        lemma_prefix_trans(
                            mid_self.modules.entries@,
                            mid_self2.modules.entries@,
                            self.modules.entries@,
                        );
                        lemma_registry_names_mono(mid_self.modules, self.modules);
                        assert(self.modules.contains_name(mod_name@));
                    }
                },
                None => {
                    let ghost mid_self3 = *self;
                    let message = self.module_not_found_message(&mod_name);
                    self.diagnostics.error(path, message, line, column);
                    self.modules.insert(mod_name.clone(), ModuleState::Failed);
                    proof {
                        lemma_prefix_push(
                            mid_self3.diagnostics@,
                            self.diagnostics@.last(),
                        );
                        lemma_prefix_push(
                            mid_self3.modules.entries@,
                            self.modules.entries@.last(),
                        );
                        lemma_evolves_trans(*old(self), mid_self3, *self);
                        lemma_registry_names_mono(mid_self3.modules, self.modules);
                        assert(self.modules.contains_name(mod_name@));
                    }
                    return Expression::Void;
                },
            };
        }
        proof {
            assert(self.modules.contains_name(import_name(step_nodes@, sep_of(*old(self)))));
        }
        if self.modules.is_resolved(&mod_name) {
            let symbols = self.import_symbols(symbol_nodes, globals);
            Expression::ImportModule { path: mod_path, symbols, line, column }
        } else {
            Expression::Void
        }
    }

    /// The symbols an import brings in: each one is bound, under its alias
    /// if it has one, as an immutable global of the importing module, and
    /// recorded as a sub-module or constant reference with the external name
    /// it binds.
    fn import_symbols(
        &self,
        nodes: &Vec<Node>,
        globals: &mut Scope,
    ) -> (r: Vec<ImportSymbol>)
        requires
            symbols_wf(nodes@),
            old(globals).wf(),
        ensures
            final(globals).wf(),
            scope_extends(*old(globals), *final(globals)),
            r@.len() == symbol_count(nodes@),
            final(globals).entries@.len() == old(globals).entries@.len() + symbol_count(nodes@),
            all_import_symbols(nodes@) ==> (r@.len() == nodes@.len()
                && final(globals).entries@.len() == old(globals).entries@.len() + nodes@.len() && (
            forall|i: int|
                0 <= i < nodes@.len() ==> symbol_lowers_to(
                    nodes@[i],
                    #[trigger] r@[i],
                    old(globals).entries@.len() + i,
                ) && final(globals).entries@[old(globals).entries@.len() + i] == symbol_variable(
                    r@[i],
                ))),
        decreases nodes@.len(),
    {
        let mut symbols: Vec<ImportSymbol> = Vec::new();
        let mut i: usize = 0;
        proof {
            lemma_scope_extends_refl(*globals);
            assert(nodes@.skip(0) =~= nodes@);
        }
        while i < nodes.len()
            invariant
                i <= nodes@.len(),
                symbols_wf(nodes@),
                globals.wf(),
                scope_extends(*old(globals), *globals),
                symbol_count(nodes@) == symbols@.len() + symbol_count(nodes@.skip(i as int)),
                globals.entries@.len() == old(globals).entries@.len() + symbols@.len(),
                all_import_symbols(nodes@) ==> (symbols@.len() == i && globals.entries@.len()
                    == old(globals).entries@.len() + i && (forall|j: int|
                    0 <= j < i ==> symbol_lowers_to(
                        nodes@[j],
                        #[trigger] symbols@[j],
                        old(globals).entries@.len() + j,
                    ) && globals.entries@[old(globals).entries@.len() + j] == symbol_variable(
                        symbols@[j],
                    ))),
            decreases nodes@.len() - i,
        {
            let ghost mid_globals = *globals;
            proof {
                assert(nodes@.skip(i as int)[0] == nodes@[i as int]);
                assert(nodes@.skip(i as int).drop_first() =~= nodes@.skip(i + 1));
            }
            match &nodes[i] {
                Node::ImportSymbol { symbol, alias } => {
                    let alias_name = match alias {
                        Some(alias_node) => self.name_of_node(&**alias_node),
                        None => None,
                    };
                    match &**symbol {
                        Node::Identifier { name, line, column } => {
                            let var_name = match alias_name {
                                Some(a) => a,
                                None => name.clone(),
                            };
                            let variable = globals.define(var_name, Mutability::Immutable);
                            symbols.push(
                                ImportSymbol::Module {
                                    name: name.clone(),
                                    variable,
                                    line: *line,
                                    column: *column,
                                },
                            );
                        },
                        Node::Constant { name, line, column, .. } => {
                            let var_name = match alias_name {
                                Some(a) => a,
                                None => name.clone(),
                            };
                            let variable = globals.define(var_name, Mutability::Immutable);
                            symbols.push(
                                ImportSymbol::Constant {
                                    name: name.clone(),
                                    variable,
                                    line: *line,
                                    column: *column,
                                },
                            );
                        },
                        _ => {
                            proof {
                                assert(false);
                            }
                        },
                    }
                },
                _ => {},
            }
            proof {
                lemma_prefix_push_maybe(mid_globals.entries@, globals.entries@);
                lemma_scope_extends_trans(*old(globals), mid_globals, *globals);
            }
            i = i + 1;
        }
        proof {
            assert(nodes@.skip(nodes@.len() as int) =~= Seq::<Node>::empty());
        }
        symbols
    }

    /// Lowers a closure: its body is a fresh code object sharing the same
    /// module-global scope but starting from a new, empty local scope, so
    /// outer locals are not inherited as pre-resolved bindings.
    fn closure(
        &mut self,
        arg_nodes: &Vec<Node>,
        body_node: &Node,
        line: usize,
        column: usize,
        path: &String,
        locals: &mut Scope,
        globals: &mut Scope,
        sources: &SourceSet,
    ) -> (r: Expression)
        requires
            sources.wf(),
            args_wf(arg_nodes@),
            nodes_wf(arg_nodes@),
            seq_import_names(arg_nodes@, sep_of(*old(self))).subset_of(
                universe(*old(self), *sources),
            ),
            node_wf(*body_node),
            node_import_names(*body_node, sep_of(*old(self))).subset_of(
                universe(*old(self), *sources),
            ),
            old(locals).wf(),
            old(globals).wf(),
        ensures
            evolves(*old(self), *final(self)),
            final(locals).wf(),
            final(globals).wf(),
            scope_extends(*old(locals), *final(locals)),
            scope_extends(*old(globals), *final(globals)),
            r matches Expression::Closure { arguments, body, line: l, column: c } && l == line
                && c == column && arguments@.len() == arg_nodes@.len() && arg_list_lowers_to(
                arg_nodes@,
                arguments@,
            ) && body_lowers_to(*body_node, body) && body.locals.wf() && scope_gains(
                Seq::<Variable>::empty(),
                body.locals.entries@,
                body_local_defs(*body_node),
            ),
            scope_gains(old(locals).entries@, final(locals).entries@, seq_arg_defs(arg_nodes@)),
        decreases
            names_left(*old(self), *sources),
            nodes_size(arg_nodes@) + node_size(*body_node),
            5int,
    {
        proof {
            lemma_evolves_refl(*self);
            lemma_scope_extends_refl(*locals);
            lemma_scope_extends_refl(*globals);
        }
        let body = self.code_object(path, body_node, globals, sources);
        proof {
            lemma_left_mono(*sources, *old(self), *self);
        }
        let ghost mid_self = *self;
        let ghost mid_globals = *globals;
        let arguments = self.method_arguments(arg_nodes, path, locals, globals, sources);
        proof {
            lemma_evolves_trans(*old(self), mid_self, *self);
            lemma_scope_extends_trans(*old(globals), mid_globals, *globals);
        }
        Expression::Closure { arguments, body, line, column }
    }

    /// Lowers a method definition: its parameters become its local scope,
    /// pre-populated as immutable bindings before the body is lowered, so
    /// parameters shadow globals inside the body.
    fn method(
        &mut self,
        name: String,
        receiver: &Option<Box<Node>>,
        arg_nodes: &Vec<Node>,
        requirements: &Vec<Node>,
        body: &Node,
        line: usize,
        column: usize,
        path: &String,
        locals: &mut Scope,
        globals: &mut Scope,
        sources: &SourceSet,
    ) -> (r: Expression)
        requires
            sources.wf(),
            opt_wf(*receiver),
            opt_import_names(*receiver, sep_of(*old(self))).subset_of(
                universe(*old(self), *sources),
            ),
            args_wf(arg_nodes@),
            nodes_wf(arg_nodes@),
            seq_import_names(arg_nodes@, sep_of(*old(self))).subset_of(
                universe(*old(self), *sources),
            ),
            nodes_wf(requirements@),
            seq_import_names(requirements@, sep_of(*old(self))).subset_of(
                universe(*old(self), *sources),
            ),
            node_wf(*body),
            node_import_names(*body, sep_of(*old(self))).subset_of(
                universe(*old(self), *sources),
            ),
            old(locals).wf(),
            old(globals).wf(),
        ensures
            evolves(*old(self), *final(self)),
            final(locals).wf(),
            final(globals).wf(),
            scope_extends(*old(locals), *final(locals)),
            scope_extends(*old(globals), *final(globals)),
            r matches Expression::Method {
                name: n,
                receiver: rec,
                arguments,
                body: b,
                requirements: reqs,
                line: l,
                column: c,
            } && n == name && l == line && c == column && arguments@.len() == arg_nodes@.len()
                && reqs@.len() == requirements@.len() && (match *receiver {
                Some(rn) => (rec matches Some(re) && lowers_to(*rn, *re)),
                None => rec is None,
            }) && arg_list_lowers_to(arg_nodes@, arguments@) && body_lowers_to(*body, b) && (
            forall|i: int|
                0 <= i < requirements@.len() ==> lowers_to(requirements@[i], #[trigger] reqs@[i]))
                && b.locals.wf() && b.locals.entries@.len() >= arguments@.len() && (forall|i: int|
                0 <= i < arguments@.len() ==> (#[trigger] b.locals.entries@[i]).name
                == arguments@[i].name && b.locals.entries@[i].mutability
                == Mutability::Immutable),
            scope_gains(
                old(locals).entries@,
                final(locals).entries@,
                seq_arg_defs(arg_nodes@) + opt_local_defs(*receiver) + seq_local_defs(
                    requirements@,
                ),
            ),
        decreases
            names_left(*old(self), *sources),
            opt_size(*receiver) + nodes_size(arg_nodes@) + nodes_size(requirements@) + node_size(
                *body,
            ),
            5int,
    {
        proof {
            lemma_evolves_refl(*self);
            lemma_scope_extends_refl(*locals);
            lemma_scope_extends_refl(*globals);
        }
        let arguments = self.method_arguments(arg_nodes, path, locals, globals, sources);
        let mut method_locals = Scope::new();
        let mut i: usize = 0;
        while i < arguments.len()
            invariant
                i <= arguments@.len(),
                method_locals.wf(),
                method_locals.entries@.len() == i,
                forall|j: int|
                    0 <= j < i ==> (#[trigger] method_locals.entries@[j]).name
                        == arguments@[j].name && method_locals.entries@[j].mutability
                        == Mutability::Immutable,
            decreases arguments@.len() - i,
        {
            method_locals.define(arguments[i].name.clone(), Mutability::Immutable);
            i = i + 1;
        }
        let ghost params_scope = method_locals;
        proof {
            lemma_left_mono(*sources, *old(self), *self);
        }
        let ghost mid_self = *self;
        let ghost mid_globals = *globals;
        let body_expr = self.code_object_with_locals(path, body, method_locals, globals, sources);
        proof {
            lemma_evolves_trans(*old(self), mid_self, *self);
            lemma_scope_extends_trans(*old(globals), mid_globals, *globals);
            lemma_left_mono(*sources, *old(self), *self);
            let k = params_scope.entries@.len() as int;
            assert forall|j: int| 0 <= j < k implies body_expr.locals.entries@[j]
                == params_scope.entries@[j] by {
                assert(params_scope.entries@[j] == body_expr.locals.entries@.subrange(0, k)[j]);
            }
        }
        let ghost mid_self2 = *self;
        let ghost mid_locals2 = *locals;
        let ghost mid_globals2 = *globals;
        let receiver_expr = match receiver {
            Some(rec) => Some(
                Box::new(self.process_node(&**rec, path, locals, globals, sources)),
            ),
            None => None,
        };
        proof {
            lemma_evolves_trans(*old(self), mid_self2, *self);
            lemma_scope_extends_trans(*old(locals), mid_locals2, *locals);
            lemma_scope_extends_trans(*old(globals), mid_globals2, *globals);
            lemma_left_mono(*sources, *old(self), *self);
            if *receiver is None {
                lemma_prefix_refl(locals.entries@);
            }
            assert(scope_gains(
                mid_locals2.entries@,
                locals.entries@,
                opt_local_defs(*receiver),
            ));
            lemma_scope_gains_trans(
                old(locals).entries@,
                mid_locals2.entries@,
                locals.entries@,
                seq_arg_defs(arg_nodes@),
                opt_local_defs(*receiver),
            );
        }
        let ghost mid_self3 = *self;
        let ghost mid_locals3 = *locals;
        let ghost mid_globals3 = *globals;
        let requirements_exprs = self.process_nodes(requirements, path, locals, globals, sources);
        proof {
            lemma_evolves_trans(*old(self), mid_self3, *self);
            lemma_scope_extends_trans(*old(locals), mid_locals3, *locals);
            lemma_scope_extends_trans(*old(globals), mid_globals3, *globals);
            lemma_scope_gains_trans(
                old(locals).entries@,
                mid_locals3.entries@,
                locals.entries@,
                seq_arg_defs(arg_nodes@) + opt_local_defs(*receiver),
                seq_local_defs(requirements@),
            );
        }
        let ghost args_view = arguments@;
        let r = Expression::Method {
            name,
            receiver: receiver_expr,
            arguments,
            body: body_expr,
            requirements: requirements_exprs,
            line,
            column,
        };
        proof {
            assert forall|i: int|
                0 <= i < args_view.len() implies (#[trigger] body_expr.locals.entries@[i]).name
                    == args_view[i].name && body_expr.locals.entries@[i].mutability
                    == Mutability::Immutable by {
                let k = params_scope.entries@.len() as int;
                assert(params_scope.entries@[i] == body_expr.locals.entries@.subrange(0, k)[i]);
                assert(body_expr.locals.entries@[i] == params_scope.entries@[i]);
                assert(params_scope.entries@[i].name == args_view[i].name);
            }
        }
        r
    }

    /// Lowers a method declaration without a body: an interface-style
    /// required method. Declaring one on an explicit receiver records one
    /// diagnostic without aborting.
    fn required_method(
        &mut self,
        name: String,
        receiver: &Option<Box<Node>>,
        arguments: &Vec<Node>,
        requirements: &Vec<Node>,
        line: usize,
        column: usize,
        path: &String,
        locals: &mut Scope,
        globals: &mut Scope,
        sources: &SourceSet,
    ) -> (r: Expression)
        requires
            sources.wf(),
            args_wf(arguments@),
            nodes_wf(arguments@),
            seq_import_names(arguments@, sep_of(*old(self))).subset_of(
                universe(*old(self), *sources),
            ),
            nodes_wf(requirements@),
            seq_import_names(requirements@, sep_of(*old(self))).subset_of(
                universe(*old(self), *sources),
            ),
            old(locals).wf(),
            old(globals).wf(),
        ensures
            evolves(*old(self), *final(self)),
            final(locals).wf(),
            final(globals).wf(),
            scope_extends(*old(locals), *final(locals)),
            scope_extends(*old(globals), *final(globals)),
            r matches Expression::RequiredMethod {
                name: n,
                arguments: args,
                requirements: reqs,
                line: l,
                column: c,
            } && n == name && l == line && c == column && args@.len() == arguments@.len()
                && reqs@.len() == requirements@.len() && arg_list_lowers_to(arguments@, args@) && (
            forall|i: int|
                0 <= i < requirements@.len() ==> lowers_to(
                    requirements@[i],
                    #[trigger] reqs@[i],
                )),
            (*receiver is None && plain_args(arguments@) && requirements@.len() == 0)
                ==> final(self).diagnostics@ == old(self).diagnostics@,
            (*receiver is Some && plain_args(arguments@) && requirements@.len() == 0)
                ==> final(self).diagnostics@ == old(self).diagnostics@.push(
                (DiagnosticView {
                    path: path@,
                    message: required_method_receiver_text(),
                    line,
                    column,
                }),
            ),
            *receiver is Some ==> final(self).diagnostics@.len() > old(self).diagnostics@.len()
                && final(self).diagnostics@[old(self).diagnostics@.len() as int]
                == (DiagnosticView {
                path: path@,
                message: required_method_receiver_text(),
                line,
                column,
            }),
            scope_gains(
                old(locals).entries@,
                final(locals).entries@,
                seq_arg_defs(arguments@) + seq_local_defs(requirements@),
            ),
        decreases
            names_left(*old(self), *sources),
            nodes_size(arguments@) + nodes_size(requirements@),
            5int,
    {
        proof {
            lemma_evolves_refl(*self);
            lemma_scope_extends_refl(*locals);
            lemma_scope_extends_refl(*globals);
        }
        if receiver.is_some() {
            let message = self.required_method_receiver_message();
            self.diagnostics.error(path, message, line, column);
            proof {
                lemma_prefix_push(old(self).diagnostics@, self.diagnostics@.last());
                lemma_prefix_refl(self.modules.entries@);
            }
        }
        let ghost mid_self = *self;
        let ghost mid_locals = *locals;
        let ghost mid_globals = *globals;
        let args = self.method_arguments(arguments, path, locals, globals, sources);
        proof {
            lemma_evolves_trans(*old(self), mid_self, *self);
            lemma_scope_extends_trans(*old(locals), mid_locals, *locals);
            lemma_scope_extends_trans(*old(globals), mid_globals, *globals);
            lemma_left_mono(*sources, *old(self), *self);
            if receiver is Some {
                assert(self.diagnostics@[old(self).diagnostics@.len() as int]
                    == mid_self.diagnostics@.last());
            }
        }
        let ghost mid_self2 = *self;
        let ghost mid_locals2 = *locals;
        let ghost mid_globals2 = *globals;
        let reqs = self.process_nodes(requirements, path, locals, globals, sources);
        proof {
            lemma_evolves_trans(*old(self), mid_self2, *self);
            lemma_scope_extends_trans(*old(locals), mid_locals2, *locals);
            lemma_scope_extends_trans(*old(globals), mid_globals2, *globals);
            lemma_scope_gains_trans(
                old(locals).entries@,
                mid_locals2.entries@,
                locals.entries@,
                seq_arg_defs(arguments@),
                seq_local_defs(requirements@),
            );
            if receiver is Some {
                assert(self.diagnostics@[old(self).diagnostics@.len() as int]
                    == mid_self.diagnostics@.last());
            }
        }
        Expression::RequiredMethod { name, arguments: args, requirements: reqs, line, column }
    }

    /// Lowers a list of argument definitions; a default value is lowered in
    /// the enclosing context.
    fn method_arguments(
        &mut self,
        nodes: &Vec<Node>,
        path: &String,
        locals: &mut Scope,
        globals: &mut Scope,
        sources: &SourceSet,
    ) -> (r: Vec<MethodArgument>)
        requires
            sources.wf(),
            args_wf(nodes@),
            nodes_wf(nodes@),
            seq_import_names(nodes@, sep_of(*old(self))).subset_of(
                universe(*old(self), *sources),
            ),
            old(locals).wf(),
            old(globals).wf(),
        ensures
            evolves(*old(self), *final(self)),
            final(locals).wf(),
            final(globals).wf(),
            scope_extends(*old(locals), *final(locals)),
            scope_extends(*old(globals), *final(globals)),
            r@.len() == nodes@.len(),
            arg_list_lowers_to(nodes@, r@),
            forall|i: int|
                0 <= i < nodes@.len() ==> (#[trigger] r@[i]).name@ == spec_arg_name(nodes@[i])
                    && r@[i].rest == spec_arg_rest(nodes@[i]),
            plain_args(nodes@) ==> *final(self) == *old(self) && *final(locals) == *old(locals)
                && *final(globals) == *old(globals),
            scope_gains(old(locals).entries@, final(locals).entries@, seq_arg_defs(nodes@)),
        decreases names_left(*old(self), *sources), nodes_size(nodes@), 4int,
    {
        let mut result: Vec<MethodArgument> = Vec::new();
        let mut i: usize = 0;
        let ghost mut taken: Seq<(Seq<char>, Mutability)> = Seq::empty();
        proof {
            lemma_evolves_refl(*self);
            lemma_scope_extends_refl(*locals);
            lemma_scope_extends_refl(*globals);
            assert(nodes@.skip(0) =~= nodes@);
            assert(taken + seq_arg_defs(nodes@) =~= seq_arg_defs(nodes@));
        }
        while i < nodes.len()
            invariant
                i <= nodes@.len(),
                sources.wf(),
                args_wf(nodes@),
                nodes_wf(nodes@),
                seq_import_names(nodes@, sep_of(*old(self))).subset_of(
                    universe(*old(self), *sources),
                ),
                evolves(*old(self), *self),
                locals.wf(),
                globals.wf(),
                scope_extends(*old(locals), *locals),
                scope_extends(*old(globals), *globals),
                result@.len() == i,
                forall|j: int|
                    0 <= j < i ==> (#[trigger] result@[j]).name@ == spec_arg_name(nodes@[j])
                        && result@[j].rest == spec_arg_rest(nodes@[j]),
                forall|j: int|
                    0 <= j < i ==> arg_entry_lowers_to(#[trigger] nodes@[j], result@[j]),
                scope_gains(old(locals).entries@, locals.entries@, taken),
                seq_arg_defs(nodes@) == taken + seq_arg_defs(nodes@.skip(i as int)),
                plain_args(nodes@) ==> *self == *old(self) && *locals == *old(locals) && *globals
                    == *old(globals),
            decreases nodes@.len() - i,
        {
            proof {
                lemma_nodes_wf_element(nodes@, i as int);
                lemma_seq_import_names_element(nodes@, sep_of(*old(self)), i as int);
                lemma_nodes_size_element(nodes@, i as int);
                lemma_left_mono(*sources, *old(self), *self);
                assert(nodes@.skip(i as int)[0] == nodes@[i as int]);
                assert(nodes@.skip(i as int).drop_first() =~= nodes@.skip(i + 1));
            }
            match &nodes[i] {
                Node::ArgumentDefine { name, default, rest, line, column } => {
                    let ghost mid_self = *self;
                    let ghost mid_locals = *locals;
                    let ghost mid_globals = *globals;
                    let default_val = match default {
                        Some(d) => {
                            proof {
                                assert(opt_wf(*default) == node_wf(**d));
                                assert(opt_import_names(*default, sep_of(*old(self)))
                                    == node_import_names(**d, sep_of(*old(self))));
                                assert(opt_size(*default) == node_size(**d));
                                assert(opt_local_defs(*default) == local_defs(**d));
                            }
                            Some(self.process_node(&**d, path, locals, globals, sources))
                        },
                        None => None,
                    };
                    proof {
                        assert(arg_defs(nodes@[i as int]) == opt_local_defs(*default));
                    }
                    proof {
                        lemma_evolves_trans(*old(self), mid_self, *self);
                        lemma_scope_extends_trans(*old(locals), mid_locals, *locals);
                        lemma_scope_extends_trans(*old(globals), mid_globals, *globals);
                        if default is None {
                            lemma_prefix_refl(locals.entries@);
                        }
                        lemma_scope_gains_trans(
                            old(locals).entries@,
                            mid_locals.entries@,
                            locals.entries@,
                            taken,
                            arg_defs(nodes@[i as int]),
                        );
                        let gained = arg_defs(nodes@[i as int]);
                        assert((taken + gained) + seq_arg_defs(nodes@.skip(i + 1)) =~= taken + (
                        gained + seq_arg_defs(nodes@.skip(i + 1))));
                        taken = taken + gained;
                    }
                    result.push(
                        MethodArgument {
                            name: name.clone(),
                            default_value: default_val,
                            line: *line,
                            column: *column,
                            rest: *rest,
                        },
                    );
                },
                _ => {
                    proof {
                        assert(false);
                    }
                },
            }
            i = i + 1;
        }
        proof {
            assert(nodes@.skip(nodes@.len() as int) =~= Seq::<Node>::empty());
            assert(taken + seq_arg_defs(nodes@.skip(nodes@.len() as int)) =~= taken);
        }
        result
    }

    /// Lowers a class definition: its body is its own code object sharing
    /// the enclosing module-global scope, and each implemented trait is
    /// lowered with its method renames.
    fn class(
        &mut self,
        name: String,
        implements: &Vec<Node>,
        body: &Node,
        line: usize,
        column: usize,
        path: &String,
        locals: &mut Scope,
        globals: &mut Scope,
        sources: &SourceSet,
    ) -> (r: Expression)
        requires
            sources.wf(),
            impls_wf(implements@),
            nodes_wf(implements@),
            seq_import_names(implements@, sep_of(*old(self))).subset_of(
                universe(*old(self), *sources),
            ),
            node_wf(*body),
            node_import_names(*body, sep_of(*old(self))).subset_of(
                universe(*old(self), *sources),
            ),
            old(locals).wf(),
            old(globals).wf(),
        ensures
            evolves(*old(self), *final(self)),
            final(locals).wf(),
            final(globals).wf(),
            scope_extends(*old(locals), *final(locals)),
            scope_extends(*old(globals), *final(globals)),
            r matches Expression::Class { name: n, body: b, implements: impls, line: l, column: c }
                && n == name && l == line && c == column && impls@.len() == implements@.len()
                && body_lowers_to(*body, b) && (forall|i: int|
                0 <= i < implements@.len() ==> implement_lowers_to(
                    implements@[i],
                    #[trigger] impls@[i],
                )) && b.locals.wf(),
            scope_gains(
                old(locals).entries@,
                final(locals).entries@,
                seq_impl_defs(implements@),
            ),
        decreases
            names_left(*old(self), *sources),
            nodes_size(implements@) + node_size(*body),
            5int,
    {
        proof {
            lemma_evolves_refl(*self);
            lemma_scope_extends_refl(*locals);
            lemma_scope_extends_refl(*globals);
        }
        let code_object = self.code_object(path, body, globals, sources);
        proof {
            lemma_left_mono(*sources, *old(self), *self);
        }
        let ghost mid_self = *self;
        let ghost mid_locals = *locals;
        let ghost mid_globals = *globals;
        let impl_exprs = self.implements(implements, path, locals, globals, sources);
        proof {
            lemma_evolves_trans(*old(self), mid_self, *self);
            lemma_scope_extends_trans(*old(locals), mid_locals, *locals);
            lemma_scope_extends_trans(*old(globals), mid_globals, *globals);
        }
        Expression::Class { name, body: code_object, implements: impl_exprs, line, column }
    }

    /// Lowers a trait definition: its body is its own code object sharing
    /// the enclosing module-global scope.
    fn def_trait(
        &mut self,
        name: String,
        body: &Node,
        line: usize,
        column: usize,
        path: &String,
        globals: &mut Scope,
        sources: &SourceSet,
    ) -> (r: Expression)
        requires
            sources.wf(),
            node_wf(*body),
            node_import_names(*body, sep_of(*old(self))).subset_of(
                universe(*old(self), *sources),
            ),
            old(globals).wf(),
        ensures
            evolves(*old(self), *final(self)),
            final(globals).wf(),
            scope_extends(*old(globals), *final(globals)),
            r matches Expression::Trait { name: n, body: b, line: l, column: c } && n == name && l
                == line && c == column && body_lowers_to(*body, b) && b.locals.wf(),
        decreases names_left(*old(self), *sources), node_size(*body), 5int,
    {
        let code_object = self.code_object(path, body, globals, sources);
        Expression::Trait { name, body: code_object, line, column }
    }

    /// Lowers the implemented-trait entries of a class in order.
    fn implements(
        &mut self,
        nodes: &Vec<Node>,
        path: &String,
        locals: &mut Scope,
        globals: &mut Scope,
        sources: &SourceSet,
    ) -> (r: Vec<Implement>)
        requires
            sources.wf(),
            impls_wf(nodes@),
            nodes_wf(nodes@),
            seq_import_names(nodes@, sep_of(*old(self))).subset_of(
                universe(*old(self), *sources),
            ),
            old(locals).wf(),
            old(globals).wf(),
        ensures
            evolves(*old(self), *final(self)),
            final(locals).wf(),
            final(globals).wf(),
            scope_extends(*old(locals), *final(locals)),
            scope_extends(*old(globals), *final(globals)),
            r@.len() == nodes@.len(),
            forall|i: int|
                0 <= i < nodes@.len() ==> implement_lowers_to(nodes@[i], #[trigger] r@[i]),
            scope_gains(old(locals).entries@, final(locals).entries@, seq_impl_defs(nodes@)),
        decreases names_left(*old(self), *sources), nodes_size(nodes@), 4int,
    {
        let mut result: Vec<Implement> = Vec::new();
        let mut i: usize = 0;
        let ghost mut taken: Seq<(Seq<char>, Mutability)> = Seq::empty();
        proof {
            lemma_evolves_refl(*self);
            lemma_scope_extends_refl(*locals);
            lemma_scope_extends_refl(*globals);
            assert(nodes@.skip(0) =~= nodes@);
            assert(taken + seq_impl_defs(nodes@) =~= seq_impl_defs(nodes@));
        }
        while i < nodes.len()
            invariant
                i <= nodes@.len(),
                sources.wf(),
                impls_wf(nodes@),
                nodes_wf(nodes@),
                seq_import_names(nodes@, sep_of(*old(self))).subset_of(
                    universe(*old(self), *sources),
                ),
                evolves(*old(self), *self),
                locals.wf(),
                globals.wf(),
                scope_extends(*old(locals), *locals),
                scope_extends(*old(globals), *globals),
                result@.len() == i,
                forall|j: int|
                    0 <= j < i ==> implement_lowers_to(nodes@[j], #[trigger] result@[j]),
                scope_gains(old(locals).entries@, locals.entries@, taken),
                seq_impl_defs(nodes@) == taken + seq_impl_defs(nodes@.skip(i as int)),
            decreases nodes@.len() - i,
        {
            proof {
                lemma_nodes_wf_element(nodes@, i as int);
                lemma_seq_import_names_element(nodes@, sep_of(*old(self)), i as int);
                lemma_nodes_size_element(nodes@, i as int);
                lemma_left_mono(*sources, *old(self), *self);
                assert(nodes@.skip(i as int)[0] == nodes@[i as int]);
                assert(nodes@.skip(i as int).drop_first() =~= nodes@.skip(i + 1));
            }
            let ghost mid_self = *self;
            let ghost mid_locals = *locals;
            let ghost mid_globals = *globals;
            let entry = match &nodes[i] {
                Node::Implement { name, renames, line, column } => self.implement(
                    &**name,
                    renames,
                    *line,
                    *column,
                    path,
                    locals,
                    globals,
                    sources,
                ),
                _ => {
                    proof {
                        assert(false);
                    }
                    Implement::new(Expression::Void, Vec::new(), 0, 0)
                },
            };
            proof {
                lemma_evolves_trans(*old(self), mid_self, *self);
                lemma_scope_extends_trans(*old(locals), mid_locals, *locals);
                lemma_scope_extends_trans(*old(globals), mid_globals, *globals);
                lemma_scope_gains_trans(
                    old(locals).entries@,
                    mid_locals.entries@,
                    locals.entries@,
                    taken,
                    impl_defs(nodes@[i as int]),
                );
                let gained = impl_defs(nodes@[i as int]);
                assert((taken + gained) + seq_impl_defs(nodes@.skip(i + 1)) =~= taken + (gained
                    + seq_impl_defs(nodes@.skip(i + 1))));
                taken = taken + gained;
            }
            result.push(entry);
            i = i + 1;
        }
        proof {
            assert(nodes@.skip(nodes@.len() as int) =~= Seq::<Node>::empty());
            assert(taken + seq_local_defs(nodes@.skip(nodes@.len() as int)) =~= taken);
        }
        result
    }

    /// Lowers one implemented-trait entry: the trait reference expression
    /// and its ordered source-name to alias-name pairs.
    fn implement(
        &mut self,
        name: &Node,
        rename_nodes: &Vec<(Node, Node)>,
        line: usize,
        column: usize,
        path: &String,
        locals: &mut Scope,
        globals: &mut Scope,
        sources: &SourceSet,
    ) -> (r: Implement)
        requires
            sources.wf(),
            node_wf(*name),
            node_import_names(*name, sep_of(*old(self))).subset_of(
                universe(*old(self), *sources),
            ),
            renames_named(rename_nodes@),
            old(locals).wf(),
            old(globals).wf(),
        ensures
            evolves(*old(self), *final(self)),
            final(locals).wf(),
            final(globals).wf(),
            scope_extends(*old(locals), *final(locals)),
            scope_extends(*old(globals), *final(globals)),
            r.line == line,
            r.column == column,
            lowers_to(*name, r.name),
            scope_gains(old(locals).entries@, final(locals).entries@, local_defs(*name)),
            r.renames@.len() == rename_nodes@.len(),
            forall|i: int|
                0 <= i < rename_nodes@.len() ==> (#[trigger] r.renames@[i]).name@ == spec_name_of(
                    rename_nodes@[i].0,
                ) && r.renames@[i].alias@ == spec_name_of(rename_nodes@[i].1),
        decreases
            names_left(*old(self), *sources),
            node_size(*name) + pairs_size(rename_nodes@),
            5int,
    {
        let mut renames: Vec<Rename> = Vec::new();
        let mut i: usize = 0;
        while i < rename_nodes.len()
            invariant
                i <= rename_nodes@.len(),
                renames_named(rename_nodes@),
                renames@.len() == i,
                forall|j: int|
                    0 <= j < i ==> (#[trigger] renames@[j]).name@ == spec_name_of(
                        rename_nodes@[j].0,
                    ) && renames@[j].alias@ == spec_name_of(rename_nodes@[j].1),
            decreases rename_nodes@.len() - i,
        {
            let source_name = match self.name_of_node(&rename_nodes[i].0) {
                Some(n) => n,
                None => {
                    proof {
                        assert(false);
                    }
                    String::new()
                },
            };
            let alias_name = match self.name_of_node(&rename_nodes[i].1) {
                Some(n) => n,
                None => {
                    proof {
                        assert(false);
                    }
                    String::new()
                },
            };
            renames.push(Rename::new(source_name, alias_name));
            i = i + 1;
        }
        let name_expr = self.process_node(name, path, locals, globals, sources);
        Implement::new(name_expr, renames, line, column)
    }

    /// Lowers a try expression: the protected body is its own code object,
    /// and an optional else clause is its own code object with a fresh local
    /// scope holding, as its only pre-populated binding, the immutable
    /// error capture if one is named.
    fn try_block(
        &mut self,
        body: &Node,
        else_body: &Option<Box<Node>>,
        else_argument: &Option<Box<Node>>,
        line: usize,
        column: usize,
        path: &String,
        globals: &mut Scope,
        sources: &SourceSet,
    ) -> (r: Expression)
        requires
            sources.wf(),
            node_wf(*body),
            node_import_names(*body, sep_of(*old(self))).subset_of(
                universe(*old(self), *sources),
            ),
            opt_wf(*else_body),
            opt_import_names(*else_body, sep_of(*old(self))).subset_of(
                universe(*old(self), *sources),
            ),
            *else_argument is Some ==> is_named(*else_argument->0),
            old(globals).wf(),
        ensures
            evolves(*old(self), *final(self)),
            final(globals).wf(),
            scope_extends(*old(globals), *final(globals)),
            r matches Expression::Try {
                body: b,
                else_body: eb,
                else_argument: ea,
                line: l,
                column: c,
            } && l == line && c == column && b.locals.wf() && body_lowers_to(*body, b) && (
            match *else_body {
                Some(en) => (eb matches Some(co) && body_lowers_to(*en, co) && (
                match *else_argument {
                    Some(_) => (ea matches Some(v) && co.locals.entries@.len() >= 1
                        && co.locals.entries@[0] == v),
                    None => ea is None,
                })),
                None => eb is None && ea is None,
            }) && ((*else_body is Some && *else_argument is Some) ==> (ea matches Some(v)
                && v.name@ == spec_name_of(*else_argument->0) && v.index == 0 && v.mutability
                == Mutability::Immutable)),
        decreases
            names_left(*old(self), *sources),
            node_size(*body) + opt_size(*else_body),
            5int,
    {
        proof {
            lemma_evolves_refl(*self);
            lemma_scope_extends_refl(*globals);
        }
        let body_co = self.code_object(path, body, globals, sources);
        proof {
            lemma_left_mono(*sources, *old(self), *self);
        }
        match else_body {
            Some(node) => {
                let mut else_locals = Scope::new();
                let else_arg = match else_argument {
                    Some(arg_node) => {
                        let arg_name = match self.name_of_node(&**arg_node) {
                            Some(n) => n,
                            None => {
                                proof {
                                    assert(false);
                                }
                                String::new()
                            },
                        };
                        Some(else_locals.define(arg_name, Mutability::Immutable))
                    },
                    None => None,
                };
                let ghost mid_self = *self;
                let ghost mid_globals = *globals;
                let else_co = self.code_object_with_locals(
                    path,
                    &**node,
                    else_locals,
                    globals,
                    sources,
                );
                proof {
                    lemma_evolves_trans(*old(self), mid_self, *self);
                    lemma_scope_extends_trans(*old(globals), mid_globals, *globals);
                }
                Expression::Try {
                    body: body_co,
                    else_body: Some(else_co),
                    else_argument: else_arg,
                    line,
                    column,
                }
            },
            None => Expression::Try {
                body: body_co,
                else_body: None,
                else_argument: None,
                line,
                column,
            },
        }
    }
}

/// Pushing zero or one entries keeps the old entries a prefix.
pub proof fn lemma_prefix_push_maybe<T>(pre: Seq<T>, post: Seq<T>)
    requires
        post == pre || (post.len() == pre.len() + 1 && post.subrange(0, pre.len() as int) =~= pre),
    ensures
        pre.is_prefix_of(post),
{
    if post == pre {
        lemma_prefix_refl(pre);
    }
}

} // verus!
