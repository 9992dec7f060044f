//! The builder's view of the world outside: for each source file path, what
//! opening, reading and parsing that file yields. The parser and the
//! filesystem are outside collaborators; a build consumes their combined
//! outcome per path through this read-only set.

use vstd::prelude::*;
use crate::node::{node_import_names, node_wf, Node};

verus! {

/// What reaching one source file yields: a parsed tree, a syntax error at a
/// reported position, or a failure to open or read the file.
#[derive(Debug)]
pub enum ParseOutcome {
    Ast(Node),
    SyntaxError { message: String, line: usize, column: usize },
    ReadError { message: String },
}

/// One path the filesystem knows, with the outcome of reading and parsing
/// the file behind it.
#[derive(Debug)]
pub struct SourceFile {
    pub path: String,
    pub outcome: ParseOutcome,
}

/// The outcome for `path`: the first entry carrying that path wins, as the
/// first matching directory does in a path search.
pub open spec fn find_source(s: Seq<SourceFile>, path: Seq<char>) -> Option<ParseOutcome>
    decreases s.len(),
{
    if s.len() == 0 {
        None
    } else if s[0].path@ == path {
        Some(s[0].outcome)
    } else {
        find_source(s.drop_first(), path)
    }
}

/// Every module name any import statement in any parsed tree of `s` can ask
/// for, under the given separator.
pub open spec fn sources_import_names(s: Seq<SourceFile>, sep: Seq<char>) -> Set<Seq<char>>
    decreases s.len(),
{
    if s.len() == 0 {
        Set::empty()
    } else {
        (match s[0].outcome {
            ParseOutcome::Ast(n) => node_import_names(n, sep),
            _ => Set::empty(),
        }).union(sources_import_names(s.drop_first(), sep))
    }
}

/// The paths that exist, each mapped to what reading and parsing the file
/// behind it yields. A path with no entry does not exist.
#[derive(Debug)]
pub struct SourceSet {
    pub files: Vec<SourceFile>,
}

impl SourceSet {
    /// Every parsed tree in the set has the shapes the parser promises.
    pub open spec fn wf(self) -> bool {
        forall|i: int|
            0 <= i < self.files@.len() ==> match (#[trigger] self.files@[i]).outcome {
                ParseOutcome::Ast(n) => node_wf(n),
                _ => true,
            }
    }

    pub open spec fn spec_find(self, path: Seq<char>) -> Option<ParseOutcome> {
        find_source(self.files@, path)
    }

    /// Every module name any import in the set can ask for.
    pub open spec fn import_names(self, sep: Seq<char>) -> Set<Seq<char>> {
        sources_import_names(self.files@, sep)
    }

    pub fn new() -> (r: SourceSet)
        ensures
            r.files@ == Seq::<SourceFile>::empty(),
    {
        SourceSet { files: Vec::new() }
    }

    /// Makes `path` exist with the given outcome; an earlier entry for the
    /// same path keeps priority.
    pub fn add(&mut self, path: String, outcome: ParseOutcome)
        ensures
            final(self).files@ == old(self).files@.push(SourceFile { path, outcome }),
    {
        self.files.push(SourceFile { path, outcome });
    }

    /// Whether `path` exists.
    pub fn contains(&self, path: &String) -> (r: bool)
        ensures
            r == (self.spec_find(path@) is Some),
    {
        let ghost files = self.files@;
        let mut i: usize = 0;
        proof {
            assert(files.skip(0) =~= files);
        }
        while i < self.files.len()
            invariant
                i <= files.len(),
                files == self.files@,
                find_source(files, path@) == find_source(files.skip(i as int), path@),
            decreases files.len() - i,
        {
            proof {
                assert(files.skip(i as int)[0] == files[i as int]);
                assert(files.skip(i as int).drop_first() =~= files.skip(i + 1));
            }
            if self.files[i].path == *path {
                return true;
            }
            i = i + 1;
        }
        proof {
            assert(files.skip(files.len() as int) =~= Seq::<SourceFile>::empty());
        }
        false
    }

    /// The outcome recorded for `path`, if the path exists.
    pub fn find(&self, path: &String) -> (r: Option<&ParseOutcome>)
        ensures
            match r {
                Some(outcome) => self.spec_find(path@) == Some(*outcome),
                None => self.spec_find(path@) is None,
            },
    {
        let ghost files = self.files@;
        let mut i: usize = 0;
        proof {
            assert(files.skip(0) =~= files);
        }
        while i < self.files.len()
            invariant
                i <= files.len(),
                files == self.files@,
                find_source(files, path@) == find_source(files.skip(i as int), path@),
            decreases files.len() - i,
        {
            proof {
                assert(files.skip(i as int)[0] == files[i as int]);
                assert(files.skip(i as int).drop_first() =~= files.skip(i + 1));
            }
            if self.files[i].path == *path {
                return Some(&self.files[i].outcome);
            }
            i = i + 1;
        }
        proof {
            assert(files.skip(files.len() as int) =~= Seq::<SourceFile>::empty());
        }
        None
    }
}

/// The set of names importable from a source set is finite.
pub proof fn lemma_sources_import_names_finite(s: Seq<SourceFile>, sep: Seq<char>)
    ensures
        sources_import_names(s, sep).finite(),
    decreases s.len(),
{
    if s.len() > 0 {
        match s[0].outcome {
            ParseOutcome::Ast(n) => crate::node::lemma_node_import_names_finite(n, sep),
            _ => {},
        }
        lemma_sources_import_names_finite(s.drop_first(), sep);
    }
}

/// A tree found in the set contributes its import names to the whole set's,
/// and is well formed when the set is.
pub proof fn lemma_find_source_ast(s: Seq<SourceFile>, path: Seq<char>, sep: Seq<char>)
    requires
        find_source(s, path) is Some,
    ensures
        match find_source(s, path) {
            Some(ParseOutcome::Ast(n)) => node_import_names(n, sep).subset_of(
                sources_import_names(s, sep),
            ),
            _ => true,
        },
    decreases s.len(),
{
    if s.len() > 0 && s[0].path@ != path {
        lemma_find_source_ast(s.drop_first(), path, sep);
    }
}

/// A tree found in a well-formed set is well formed.
pub proof fn lemma_find_source_wf(set: SourceSet, path: Seq<char>)
    requires
        set.wf(),
        set.spec_find(path) is Some,
    ensures
        match set.spec_find(path) {
            Some(ParseOutcome::Ast(n)) => node_wf(n),
            _ => true,
        },
{
    assert(set.files@.skip(0) =~= set.files@);
    lemma_find_source_wf_rec(set, set.files@, path, 0);
}

proof fn lemma_find_source_wf_rec(set: SourceSet, s: Seq<SourceFile>, path: Seq<char>, k: int)
    requires
        set.wf(),
        0 <= k <= set.files@.len(),
        s == set.files@.skip(k),
        find_source(s, path) is Some,
    ensures
        match find_source(s, path) {
            Some(ParseOutcome::Ast(n)) => node_wf(n),
            _ => true,
        },
    decreases s.len(),
{
    assert(s[0] == set.files@[k]);
    if s[0].path@ != path {
        assert(s.drop_first() =~= set.files@.skip(k + 1));
        lemma_find_source_wf_rec(set, s.drop_first(), path, k + 1);
    }
}

} // verus!
