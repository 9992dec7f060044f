//! The parsed syntax tree the builder consumes. The parser producing it is an
//! outside collaborator; the builder trusts it not to produce malformed
//! shapes, which `node_wf` writes down.

use vstd::prelude::*;
use crate::text::spec_join;

verus! {

/// One node of the parsed syntax tree. Float literals carry their value as
/// the raw bit pattern of the number, which lowering copies through without
/// reading it.
#[derive(Debug)]
pub enum Node {
    /// A sequence of expressions forming a lexical body.
    Expressions { nodes: Vec<Node> },
    Integer { value: i64, line: usize, column: usize },
    Float { bits: u64, line: usize, column: usize },
    Str { value: String, line: usize, column: usize },
    Array { values: Vec<Node>, line: usize, column: usize },
    Hash { pairs: Vec<(Node, Node)>, line: usize, column: usize },
    SelfObject { line: usize, column: usize },
    Identifier { name: String, line: usize, column: usize },
    Attribute { name: String, line: usize, column: usize },
    Constant { receiver: Option<Box<Node>>, name: String, line: usize, column: usize },
    /// A type annotation; lowering reads only the wrapped constant.
    Type { constant: Box<Node>, line: usize, column: usize },
    LetDefine { name: Box<Node>, value: Box<Node>, line: usize, column: usize },
    VarDefine { name: Box<Node>, value: Box<Node>, line: usize, column: usize },
    Send {
        name: String,
        receiver: Option<Box<Node>>,
        arguments: Vec<Node>,
        line: usize,
        column: usize,
    },
    Import { steps: Vec<Node>, symbols: Vec<Node>, line: usize, column: usize },
    Closure { arguments: Vec<Node>, body: Box<Node>, line: usize, column: usize },
    KeywordArgument { name: String, value: Box<Node>, line: usize, column: usize },
    Method {
        name: String,
        receiver: Option<Box<Node>>,
        arguments: Vec<Node>,
        body: Option<Box<Node>>,
        requirements: Vec<Node>,
        line: usize,
        column: usize,
    },
    Class {
        name: String,
        implements: Vec<Node>,
        body: Box<Node>,
        line: usize,
        column: usize,
    },
    Trait { name: String, body: Box<Node>, line: usize, column: usize },
    Return { value: Option<Box<Node>>, line: usize, column: usize },
    TypeCast { value: Box<Node>, line: usize, column: usize },
    Try {
        body: Box<Node>,
        else_body: Option<Box<Node>>,
        else_argument: Option<Box<Node>>,
        line: usize,
        column: usize,
    },
    ImportSymbol { symbol: Box<Node>, alias: Option<Box<Node>> },
    ArgumentDefine {
        name: String,
        default: Option<Box<Node>>,
        rest: bool,
        line: usize,
        column: usize,
    },
    Implement { name: Box<Node>, renames: Vec<(Node, Node)>, line: usize, column: usize },
}

/// A node that carries a plain name: an identifier or a constant.
pub open spec fn is_named(n: Node) -> bool {
    match n {
        Node::Identifier { .. } => true,
        Node::Constant { .. } => true,
        _ => false,
    }
}

/// The name of an identifier or constant node.
pub open spec fn spec_name_of(n: Node) -> Seq<char> {
    match n {
        Node::Identifier { name, .. } => name@,
        Node::Constant { name, .. } => name@,
        _ => Seq::empty(),
    }
}

/// A node that may stand on the left of a binding definition.
pub open spec fn is_assign_target(n: Node) -> bool {
    match n {
        Node::Identifier { .. } => true,
        Node::Constant { .. } => true,
        Node::Attribute { .. } => true,
        _ => false,
    }
}

/// The number of nodes in the tree under `n`, itself included.
pub open spec fn node_size(n: Node) -> nat
    decreases n,
{
    match n {
        Node::Expressions { nodes } => 1 + nodes_size(nodes@),
        Node::Integer { .. } => 1,
        Node::Float { .. } => 1,
        Node::Str { .. } => 1,
        Node::Array { values, .. } => 1 + nodes_size(values@),
        Node::Hash { pairs, .. } => 1 + pairs_size(pairs@),
        Node::SelfObject { .. } => 1,
        Node::Identifier { .. } => 1,
        Node::Attribute { .. } => 1,
        Node::Constant { receiver, .. } => 1 + opt_size(receiver),
        Node::Type { constant, .. } => 1 + node_size(*constant),
        Node::LetDefine { name, value, .. } => 1 + node_size(*name) + node_size(*value),
        Node::VarDefine { name, value, .. } => 1 + node_size(*name) + node_size(*value),
        Node::Send { receiver, arguments, .. } => 1 + opt_size(receiver) + nodes_size(arguments@),
        Node::Import { steps, symbols, .. } => 1 + nodes_size(steps@) + nodes_size(symbols@),
        Node::Closure { arguments, body, .. } => 1 + nodes_size(arguments@) + node_size(*body),
        Node::KeywordArgument { value, .. } => 1 + node_size(*value),
        Node::Method { receiver, arguments, body, requirements, .. } => 1 + opt_size(receiver)
            + nodes_size(arguments@) + opt_size(body) + nodes_size(requirements@),
        Node::Class { implements, body, .. } => 1 + nodes_size(implements@) + node_size(*body),
        Node::Trait { body, .. } => 1 + node_size(*body),
        Node::Return { value, .. } => 1 + opt_size(value),
        Node::TypeCast { value, .. } => 1 + node_size(*value),
        Node::Try { body, else_body, else_argument, .. } => 1 + node_size(*body) + opt_size(
            else_body,
        ) + opt_size(else_argument),
        Node::ImportSymbol { symbol, alias } => 1 + node_size(*symbol) + opt_size(alias),
        Node::ArgumentDefine { default, .. } => 1 + opt_size(default),
        Node::Implement { name, renames, .. } => 1 + node_size(*name) + pairs_size(renames@),
    }
}

/// The summed sizes of a sequence of nodes.
pub open spec fn nodes_size(s: Seq<Node>) -> nat
    decreases s,
{
    if s.len() == 0 {
        0
    } else {
        node_size(s[0]) + nodes_size(s.drop_first())
    }
}

/// The size of an optional child node.
pub open spec fn opt_size(o: Option<Box<Node>>) -> nat
    decreases o,
{
    match o {
        Option::None => 0,
        Option::Some(b) => node_size(*b),
    }
}

/// The summed sizes of a sequence of node pairs.
pub open spec fn pairs_size(s: Seq<(Node, Node)>) -> nat
    decreases s,
{
    if s.len() == 0 {
        0
    } else {
        node_size(s[0].0) + node_size(s[0].1) + pairs_size(s.drop_first())
    }
}

/// The shapes the parser promises never to produce are excluded here: binding
/// targets are identifiers, constants or attributes; method and closure
/// argument lists hold only argument definitions; a class implements only
/// implement entries whose rename pairs are named nodes; an else-clause
/// capture and an import symbol are named nodes.
pub open spec fn node_wf(n: Node) -> bool
    decreases n,
{
    match n {
        Node::Expressions { nodes } => nodes_wf(nodes@),
        Node::Integer { .. } => true,
        Node::Float { .. } => true,
        Node::Str { .. } => true,
        Node::Array { values, .. } => nodes_wf(values@),
        Node::Hash { pairs, .. } => pairs_wf(pairs@),
        Node::SelfObject { .. } => true,
        Node::Identifier { .. } => true,
        Node::Attribute { .. } => true,
        Node::Constant { receiver, .. } => opt_wf(receiver),
        Node::Type { constant, .. } => node_wf(*constant),
        Node::LetDefine { name, value, .. } => is_assign_target(*name) && node_wf(*name)
            && node_wf(*value),
        Node::VarDefine { name, value, .. } => is_assign_target(*name) && node_wf(*name)
            && node_wf(*value),
        Node::Send { receiver, arguments, .. } => opt_wf(receiver) && nodes_wf(arguments@),
        Node::Import { steps, symbols, .. } => nodes_wf(steps@) && nodes_wf(symbols@)
            && symbols_wf(symbols@),
        Node::Closure { arguments, body, .. } => args_wf(arguments@) && nodes_wf(arguments@)
            && node_wf(*body),
        Node::KeywordArgument { value, .. } => node_wf(*value),
        Node::Method { receiver, arguments, body, requirements, .. } => opt_wf(receiver)
            && args_wf(arguments@) && nodes_wf(arguments@) && opt_wf(body) && nodes_wf(
            requirements@,
        ),
        Node::Class { implements, body, .. } => impls_wf(implements@) && nodes_wf(implements@)
            && node_wf(*body),
        Node::Trait { body, .. } => node_wf(*body),
        Node::Return { value, .. } => opt_wf(value),
        Node::TypeCast { value, .. } => node_wf(*value),
        Node::Try { body, else_body, else_argument, .. } => node_wf(*body) && opt_wf(else_body)
            && opt_wf(else_argument) && (else_argument is Some ==> is_named(*else_argument->0)),
        Node::ImportSymbol { symbol, alias } => is_named(*symbol) && node_wf(*symbol) && opt_wf(
            alias,
        ),
        Node::ArgumentDefine { default, .. } => opt_wf(default),
        Node::Implement { name, renames, .. } => node_wf(*name) && pairs_wf(renames@)
            && renames_named(renames@),
    }
}

pub open spec fn nodes_wf(s: Seq<Node>) -> bool
    decreases s,
{
    if s.len() == 0 {
        true
    } else {
        node_wf(s[0]) && nodes_wf(s.drop_first())
    }
}

pub open spec fn opt_wf(o: Option<Box<Node>>) -> bool
    decreases o,
{
    match o {
        Option::None => true,
        Option::Some(b) => node_wf(*b),
    }
}

pub open spec fn pairs_wf(s: Seq<(Node, Node)>) -> bool
    decreases s,
{
    if s.len() == 0 {
        true
    } else {
        node_wf(s[0].0) && node_wf(s[0].1) && pairs_wf(s.drop_first())
    }
}

/// Every element is an argument definition.
pub open spec fn args_wf(s: Seq<Node>) -> bool {
    forall|i: int| 0 <= i < s.len() ==> (#[trigger] s[i]) is ArgumentDefine
}

/// Every element is an implement entry.
pub open spec fn impls_wf(s: Seq<Node>) -> bool {
    forall|i: int| 0 <= i < s.len() ==> (#[trigger] s[i]) is Implement
}

/// Every import-symbol element wraps a named node.
pub open spec fn symbols_wf(s: Seq<Node>) -> bool {
    forall|i: int|
        0 <= i < s.len() ==> match #[trigger] s[i] {
            Node::ImportSymbol { symbol, .. } => is_named(*symbol),
            _ => true,
        }
}

/// Both nodes of every rename pair are named nodes.
pub open spec fn renames_named(s: Seq<(Node, Node)>) -> bool {
    forall|i: int|
        0 <= i < s.len() ==> is_named((#[trigger] s[i]).0) && is_named(s[i].1)
}

/// The name chunks of an import: the names of the leading identifier steps,
/// stopping at the first step that is not an identifier.
pub open spec fn import_chunks(steps: Seq<Node>) -> Seq<Seq<char>>
    decreases steps,
{
    if steps.len() == 0 {
        Seq::empty()
    } else {
        match steps[0] {
            Node::Identifier { name, .. } => seq![name@] + import_chunks(steps.drop_first()),
            _ => Seq::empty(),
        }
    }
}

/// The dotted module name an import with these steps asks for, under the
/// given separator.
pub open spec fn import_name(steps: Seq<Node>, sep: Seq<char>) -> Seq<char> {
    spec_join(import_chunks(steps), sep)
}

/// Every module name that an import statement anywhere below `n` can ask
/// for, under the given separator.
pub open spec fn node_import_names(n: Node, sep: Seq<char>) -> Set<Seq<char>>
    decreases n,
{
    match n {
        Node::Expressions { nodes } => seq_import_names(nodes@, sep),
        Node::Integer { .. } => Set::empty(),
        Node::Float { .. } => Set::empty(),
        Node::Str { .. } => Set::empty(),
        Node::Array { values, .. } => seq_import_names(values@, sep),
        Node::Hash { pairs, .. } => pair_import_names(pairs@, sep),
        Node::SelfObject { .. } => Set::empty(),
        Node::Identifier { .. } => Set::empty(),
        Node::Attribute { .. } => Set::empty(),
        Node::Constant { receiver, .. } => opt_import_names(receiver, sep),
        Node::Type { constant, .. } => node_import_names(*constant, sep),
        Node::LetDefine { name, value, .. } => node_import_names(*name, sep).union(
            node_import_names(*value, sep),
        ),
        Node::VarDefine { name, value, .. } => node_import_names(*name, sep).union(
            node_import_names(*value, sep),
        ),
        Node::Send { receiver, arguments, .. } => opt_import_names(receiver, sep).union(
            seq_import_names(arguments@, sep),
        ),
        Node::Import { steps, symbols, .. } => seq_import_names(steps@, sep).union(
            seq_import_names(symbols@, sep),
        ).insert(import_name(steps@, sep)),
        Node::Closure { arguments, body, .. } => seq_import_names(arguments@, sep).union(
            node_import_names(*body, sep),
        ),
        Node::KeywordArgument { value, .. } => node_import_names(*value, sep),
        Node::Method { receiver, arguments, body, requirements, .. } => opt_import_names(
            receiver,
            sep,
        ).union(seq_import_names(arguments@, sep)).union(opt_import_names(body, sep)).union(
            seq_import_names(requirements@, sep),
        ),
        Node::Class { implements, body, .. } => seq_import_names(implements@, sep).union(
            node_import_names(*body, sep),
        ),
        Node::Trait { body, .. } => node_import_names(*body, sep),
        Node::Return { value, .. } => opt_import_names(value, sep),
        Node::TypeCast { value, .. } => node_import_names(*value, sep),
        Node::Try { body, else_body, else_argument, .. } => node_import_names(*body, sep).union(
            opt_import_names(else_body, sep),
        ).union(opt_import_names(else_argument, sep)),
        Node::ImportSymbol { symbol, alias } => node_import_names(*symbol, sep).union(
            opt_import_names(alias, sep),
        ),
        Node::ArgumentDefine { default, .. } => opt_import_names(default, sep),
        Node::Implement { name, renames, .. } => node_import_names(*name, sep).union(
            pair_import_names(renames@, sep),
        ),
    }
}

pub open spec fn seq_import_names(s: Seq<Node>, sep: Seq<char>) -> Set<Seq<char>>
    decreases s,
{
    if s.len() == 0 {
        Set::empty()
    } else {
        node_import_names(s[0], sep).union(seq_import_names(s.drop_first(), sep))
    }
}

pub open spec fn opt_import_names(o: Option<Box<Node>>, sep: Seq<char>) -> Set<Seq<char>>
    decreases o,
{
    match o {
        Option::None => Set::empty(),
        Option::Some(b) => node_import_names(*b, sep),
    }
}

pub open spec fn pair_import_names(s: Seq<(Node, Node)>, sep: Seq<char>) -> Set<Seq<char>>
    decreases s,
{
    if s.len() == 0 {
        Set::empty()
    } else {
        node_import_names(s[0].0, sep).union(node_import_names(s[0].1, sep)).union(
            pair_import_names(s.drop_first(), sep),
        )
    }
}

/// The set of names an import can ask for below any node is finite.
pub proof fn lemma_node_import_names_finite(n: Node, sep: Seq<char>)
    ensures
        node_import_names(n, sep).finite(),
    decreases n, 3nat,
{
    match n {
        Node::Expressions { nodes } => lemma_seq_import_names_finite(nodes@, sep),
        Node::Array { values, .. } => lemma_seq_import_names_finite(values@, sep),
        Node::Hash { pairs, .. } => lemma_pair_import_names_finite(pairs@, sep),
        Node::Constant { receiver, .. } => lemma_opt_import_names_finite(receiver, sep),
        Node::Type { constant, .. } => lemma_node_import_names_finite(*constant, sep),
        Node::LetDefine { name, value, .. } => {
            lemma_node_import_names_finite(*name, sep);
            lemma_node_import_names_finite(*value, sep);
        },
        Node::VarDefine { name, value, .. } => {
            lemma_node_import_names_finite(*name, sep);
            lemma_node_import_names_finite(*value, sep);
        },
        Node::Send { receiver, arguments, .. } => {
            lemma_opt_import_names_finite(receiver, sep);
            lemma_seq_import_names_finite(arguments@, sep);
        },
        Node::Import { steps, symbols, .. } => {
            lemma_seq_import_names_finite(steps@, sep);
            lemma_seq_import_names_finite(symbols@, sep);
        },
        Node::Closure { arguments, body, .. } => {
            lemma_seq_import_names_finite(arguments@, sep);
            lemma_node_import_names_finite(*body, sep);
        },
        Node::KeywordArgument { value, .. } => lemma_node_import_names_finite(*value, sep),
        Node::Method { receiver, arguments, body, requirements, .. } => {
            lemma_opt_import_names_finite(receiver, sep);
            lemma_seq_import_names_finite(arguments@, sep);
            lemma_opt_import_names_finite(body, sep);
            lemma_seq_import_names_finite(requirements@, sep);
        },
        Node::Class { implements, body, .. } => {
            lemma_seq_import_names_finite(implements@, sep);
            lemma_node_import_names_finite(*body, sep);
        },
        Node::Trait { body, .. } => lemma_node_import_names_finite(*body, sep),
        Node::Return { value, .. } => lemma_opt_import_names_finite(value, sep),
        Node::TypeCast { value, .. } => lemma_node_import_names_finite(*value, sep),
        Node::Try { body, else_body, else_argument, .. } => {
            lemma_node_import_names_finite(*body, sep);
            lemma_opt_import_names_finite(else_body, sep);
            lemma_opt_import_names_finite(else_argument, sep);
        },
        Node::ImportSymbol { symbol, alias } => {
            lemma_node_import_names_finite(*symbol, sep);
            lemma_opt_import_names_finite(alias, sep);
        },
        Node::ArgumentDefine { default, .. } => lemma_opt_import_names_finite(default, sep),
        Node::Implement { name, renames, .. } => {
            lemma_node_import_names_finite(*name, sep);
            lemma_pair_import_names_finite(renames@, sep);
        },
        _ => {},
    }
}

pub proof fn lemma_seq_import_names_finite(s: Seq<Node>, sep: Seq<char>)
    ensures
        seq_import_names(s, sep).finite(),
    decreases s, 4nat,
{
    if s.len() > 0 {
        lemma_node_import_names_finite(s[0], sep);
        lemma_seq_import_names_finite(s.drop_first(), sep);
    }
}

pub proof fn lemma_opt_import_names_finite(o: Option<Box<Node>>, sep: Seq<char>)
    ensures
        opt_import_names(o, sep).finite(),
    decreases o, 4nat,
{
    match o {
        Option::Some(b) => lemma_node_import_names_finite(*b, sep),
        Option::None => {},
    }
}

pub proof fn lemma_pair_import_names_finite(s: Seq<(Node, Node)>, sep: Seq<char>)
    ensures
        pair_import_names(s, sep).finite(),
    decreases s, 4nat,
{
    if s.len() > 0 {
        lemma_node_import_names_finite(s[0].0, sep);
        lemma_node_import_names_finite(s[0].1, sep);
        lemma_pair_import_names_finite(s.drop_first(), sep);
    }
}

/// Each element of a sequence contributes its import names to the whole.
pub proof fn lemma_seq_import_names_element(s: Seq<Node>, sep: Seq<char>, i: int)
    requires
        0 <= i < s.len(),
    ensures
        node_import_names(s[i], sep).subset_of(seq_import_names(s, sep)),
    decreases s.len(),
{
    if i > 0 {
        lemma_seq_import_names_element(s.drop_first(), sep, i - 1);
    }
}

/// Each element of a pair sequence contributes its import names to the whole.
pub proof fn lemma_pair_import_names_element(s: Seq<(Node, Node)>, sep: Seq<char>, i: int)
    requires
        0 <= i < s.len(),
    ensures
        node_import_names(s[i].0, sep).subset_of(pair_import_names(s, sep)),
        node_import_names(s[i].1, sep).subset_of(pair_import_names(s, sep)),
    decreases s.len(),
{
    if i > 0 {
        lemma_pair_import_names_element(s.drop_first(), sep, i - 1);
    }
}

/// Each element of a sequence is well formed when the sequence is.
pub proof fn lemma_nodes_wf_element(s: Seq<Node>, i: int)
    requires
        0 <= i < s.len(),
        nodes_wf(s),
    ensures
        node_wf(s[i]),
    decreases s.len(),
{
    if i > 0 {
        lemma_nodes_wf_element(s.drop_first(), i - 1);
    }
}

/// Each pair of a pair sequence is well formed when the sequence is.
pub proof fn lemma_pairs_wf_element(s: Seq<(Node, Node)>, i: int)
    requires
        0 <= i < s.len(),
        pairs_wf(s),
    ensures
        node_wf(s[i].0),
        node_wf(s[i].1),
    decreases s.len(),
{
    if i > 0 {
        lemma_pairs_wf_element(s.drop_first(), i - 1);
    }
}

/// Each element's size is bounded by the sequence's summed size.
pub proof fn lemma_nodes_size_element(s: Seq<Node>, i: int)
    requires
        0 <= i < s.len(),
    ensures
        node_size(s[i]) <= nodes_size(s),
    decreases s.len(),
{
    if i > 0 {
        lemma_nodes_size_element(s.drop_first(), i - 1);
    } else {
        lemma_nodes_size_nonneg(s.drop_first());
    }
}

/// Each pair's sizes are bounded by the pair sequence's summed size.
pub proof fn lemma_pairs_size_element(s: Seq<(Node, Node)>, i: int)
    requires
        0 <= i < s.len(),
    ensures
        node_size(s[i].0) + node_size(s[i].1) <= pairs_size(s),
    decreases s.len(),
{
    if i > 0 {
        lemma_pairs_size_element(s.drop_first(), i - 1);
    }
}

pub proof fn lemma_nodes_size_nonneg(s: Seq<Node>)
    ensures
        nodes_size(s) >= 0,
{
}

} // verus!
