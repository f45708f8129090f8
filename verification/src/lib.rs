use vstd::prelude::*;

pub mod ast;
pub mod engine;
pub mod parse;

pub use ast::Ast;
pub use ast::AstView;
pub use ast::ast_view;
pub use engine::Runtime;

use vstd::string::StrSliceExecFns;

verus! {

/// The characters of a string slice, one vector entry per character.
pub fn chars_of(text: &str) -> (v: Vec<char>)
    ensures
        v@ == text@,
{
    let n = text.unicode_len();
    let mut v: Vec<char> = Vec::new();
    let mut i: usize = 0;
    while i < n
        invariant
            i <= n,
            n == text@.len(),
            v@ =~= text@.subrange(0, i as int),
        decreases n - i,
    {
        let c = text.get_char(i);
        v.push(c);
        proof {
            assert(v@ =~= text@.subrange(0, i + 1));
        }
        i = i + 1;
    }
    proof {
        assert(v@ =~= text@);
    }
    v
}

/// A compiled pattern: its tree, built once by [`parse::parse`] and then
/// shared read-only by every match call.
pub struct Regex(Ast);

impl View for Regex {
    type V = AstView;

    /// The model of the compiled tree.
    closed spec fn view(&self) -> AstView {
        ast_view(self.0)
    }
}

impl Regex {
    /// Compiles the pattern, or reports its first syntax error.
    pub fn new(pattern: &str) -> (r: Result<Regex, parse::Error>)
        ensures
            match r {
                Ok(re) => parse::spec_parse(pattern@) == Ok::<AstView, parse::Error>(re@),
                Err(e) => parse::spec_parse(pattern@) == Err::<AstView, parse::Error>(e),
            },
    {
        match parse::parse(pattern) {
            Ok(a) => Ok(Regex(a)),
            Err(e) => Err(e),
        }
    }

    /// Whole-string matching: true exactly when the compiled tree matches
    /// at the start of the subject and consumes it entirely.
    pub fn matches(&self, text: &str) -> (b: bool)
        ensures
            b == engine::spec_matches(self@, text@),
    {
        let chars = chars_of(text);
        let mut rt = Runtime::new(chars);
        let res = rt.run(&self.0);
        res && rt.pos == rt.input.len()
    }
}

} // verus!
