use vstd::prelude::*;

verus! {

/// Syntax tree of a compiled pattern.
///
/// A node is immutable once built and owns its children exclusively; the
/// tree is finite and acyclic by construction.  Matching never mutates a
/// tree, so one compiled pattern can serve any number of match calls.
#[derive(Debug)]
pub enum Ast {
    /// Matches exactly one input character equal to the given one.
    Char(char),
    /// Matches exactly one input character `c` with `lo <= c <= hi`.
    Range(char, char),
    /// Matches exactly one input character of any value.
    Any,
    /// Negative lookahead: matches iff the child does not match here,
    /// consuming no input.
    Not(Box<Ast>),
    /// Positive lookahead: matches iff the child matches here, consuming
    /// no input.
    Lookahead(Box<Ast>),
    /// Greedy bounded repetition of the child between `min` and `max`
    /// times; `u32::MAX` as `max` stands for an unbounded repetition.
    Repeat(u32, u32, Box<Ast>),
    /// Matches each child in order, contiguously.
    Concat(Vec<Ast>),
    /// Matches the first child, in listed order, that matches.
    Or(Vec<Ast>),
    /// Matches the child and records the input span it consumed.
    Capture(Box<Ast>),
}

/// Mathematical model of a pattern tree: the same shape as [`Ast`], with
/// child lists abstracted to sequences.  All contracts of the compiler and
/// of the matching engine speak about this model.
#[verifier::ext_equal]
pub enum AstView {
    Char(char),
    Range(char, char),
    Any,
    Not(Box<AstView>),
    Lookahead(Box<AstView>),
    Repeat(u32, u32, Box<AstView>),
    Concat(Seq<AstView>),
    Or(Seq<AstView>),
    Capture(Box<AstView>),
}

/// The model of a concrete pattern tree.
pub open spec fn ast_view(a: Ast) -> AstView
    decreases a, 1int,
{
    match a {
        Ast::Char(c) => AstView::Char(c),
        Ast::Range(lo, hi) => AstView::Range(lo, hi),
        Ast::Any => AstView::Any,
        Ast::Not(b) => AstView::Not(Box::new(ast_view(*b))),
        Ast::Lookahead(b) => AstView::Lookahead(Box::new(ast_view(*b))),
        Ast::Repeat(min, max, b) => AstView::Repeat(min, max, Box::new(ast_view(*b))),
        Ast::Concat(v) => AstView::Concat(asts_view(v@)),
        Ast::Or(v) => AstView::Or(asts_view(v@)),
        Ast::Capture(b) => AstView::Capture(Box::new(ast_view(*b))),
    }
}

/// The models of a list of child trees, in order.
pub open spec fn asts_view(v: Seq<Ast>) -> Seq<AstView>
    decreases v, 0int,
{
    Seq::new(v.len(), |i: int| if 0 <= i < v.len() { ast_view(v[i]) } else { AstView::Any })
}

} // verus!
