use vstd::prelude::*;

use crate::ast::Ast;
use crate::ast::AstView;
use crate::ast::ast_view;
use crate::ast::asts_view;

verus! {

/// Result of matching one pattern node against the input `s` starting at
/// `pos`: `Some(p)` means the node matches and consumes the characters of
/// `s[pos .. p]`, `None` means it does not match there.
///
/// Repetition is greedy and bounded: the child is attempted up to `max`
/// times, a failed attempt restores the position after the last successful
/// one, and the node succeeds iff at least `min` attempts succeeded.  No
/// retry with fewer repetitions happens when a later sibling fails.
/// Alternation takes the first alternative, in listed order, that matches.
/// Lookahead and negation consume nothing.
pub open spec fn spec_match(a: AstView, s: Seq<char>, pos: int) -> Option<int>
    decreases a, 1int, 0int,
{
    match a {
        AstView::Char(c) => if 0 <= pos < s.len() && s[pos] == c {
            Some(pos + 1)
        } else {
            None
        },
        AstView::Range(lo, hi) => if 0 <= pos < s.len() && lo as u32 <= s[pos] as u32 && s[pos]
            as u32 <= hi as u32 {
            Some(pos + 1)
        } else {
            None
        },
        AstView::Any => if 0 <= pos < s.len() {
            Some(pos + 1)
        } else {
            None
        },
        AstView::Not(b) => if spec_match(*b, s, pos) is None {
            Some(pos)
        } else {
            None
        },
        AstView::Lookahead(b) => if spec_match(*b, s, pos) is Some {
            Some(pos)
        } else {
            None
        },
        AstView::Repeat(min, max, b) => spec_match_repeat(*b, s, pos, min as int, max as nat),
        AstView::Concat(cs) => spec_match_all(cs, s, pos, 0),
        AstView::Or(cs) => spec_match_first(cs, s, pos, 0),
        AstView::Capture(b) => spec_match(*b, s, pos),
    }
}

/// Greedy bounded repetition of `b`, with `left` attempts still allowed and
/// `min` successes still owed.
pub open spec fn spec_match_repeat(b: AstView, s: Seq<char>, pos: int, min: int, left: nat) -> Option<
    int,
>
    decreases b, 2int, left,
{
    if left == 0 {
        Some(pos)
    } else {
        match spec_match(b, s, pos) {
            Option::None => if min <= 0 {
                Some(pos)
            } else {
                None
            },
            Option::Some(p) => spec_match_repeat(b, s, p, min - 1, (left - 1) as nat),
        }
    }
}

/// Matches the children `cs[i..]` in order, each continuing where the
/// previous one stopped.
pub open spec fn spec_match_all(cs: Seq<AstView>, s: Seq<char>, pos: int, i: int) -> Option<int>
    decreases cs, 1int, cs.len() - i,
{
    if i < 0 || i >= cs.len() {
        Some(pos)
    } else {
        match spec_match(cs[i], s, pos) {
            Option::None => None,
            Option::Some(p) => spec_match_all(cs, s, p, i + 1),
        }
    }
}

/// Matches the first of the alternatives `cs[i..]`, in listed order, that
/// matches at `pos`.
pub open spec fn spec_match_first(cs: Seq<AstView>, s: Seq<char>, pos: int, i: int) -> Option<int>
    decreases cs, 1int, cs.len() - i,
{
    if i < 0 || i >= cs.len() {
        None
    } else {
        match spec_match(cs[i], s, pos) {
            Option::Some(p) => Some(p),
            Option::None => spec_match_first(cs, s, pos, i + 1),
        }
    }
}

/// Whole-string acceptance: the root must match at the start of the input
/// and consume it entirely; a partial prefix match is rejected.
pub open spec fn spec_matches(a: AstView, s: Seq<char>) -> bool {
    spec_match(a, s, 0) == Some(s.len() as int)
}

/// The spans `(begin, end)` that the capture nodes of `a` record when `a`
/// matches the input `s` at `pos`, in order of completion.  A node whose
/// match fails records nothing, and an attempt that is later abandoned —
/// a rejected alternative, a failed repetition step, the child of a
/// lookahead or a negation — leaves no record either; only the meaning of
/// `spec_caps` on a matching node is ever relied on.
pub open spec fn spec_caps(a: AstView, s: Seq<char>, pos: int) -> Seq<(int, int)>
    decreases a, 1int, 0int,
{
    match a {
        AstView::Char(_) => Seq::empty(),
        AstView::Range(_, _) => Seq::empty(),
        AstView::Any => Seq::empty(),
        AstView::Not(_) => Seq::empty(),
        AstView::Lookahead(_) => Seq::empty(),
        AstView::Repeat(_, max, b) => spec_caps_repeat(*b, s, pos, max as nat),
        AstView::Concat(cs) => spec_caps_all(cs, s, pos, 0),
        AstView::Or(cs) => spec_caps_first(cs, s, pos, 0),
        AstView::Capture(b) => match spec_match(*b, s, pos) {
            Option::Some(p) => spec_caps(*b, s, pos).push((pos, p)),
            Option::None => Seq::empty(),
        },
    }
}

/// The records of the successful repetition steps of `b`, with `left`
/// attempts still allowed; the step on which the greedy iteration stops
/// records nothing.
pub open spec fn spec_caps_repeat(b: AstView, s: Seq<char>, pos: int, left: nat) -> Seq<(int, int)>
    decreases b, 2int, left,
{
    if left == 0 {
        Seq::empty()
    } else {
        match spec_match(b, s, pos) {
            Option::None => Seq::empty(),
            Option::Some(p) => spec_caps(b, s, pos) + spec_caps_repeat(b, s, p, (left - 1) as nat),
        }
    }
}

/// The records of the children `cs[i..]` matched in order; meaningful
/// when they all match.
pub open spec fn spec_caps_all(cs: Seq<AstView>, s: Seq<char>, pos: int, i: int) -> Seq<(int, int)>
    decreases cs, 1int, cs.len() - i,
{
    if i < 0 || i >= cs.len() {
        Seq::empty()
    } else {
        match spec_match(cs[i], s, pos) {
            Option::None => Seq::empty(),
            Option::Some(p) => spec_caps(cs[i], s, pos) + spec_caps_all(cs, s, p, i + 1),
        }
    }
}

/// The records of the first alternative of `cs[i..]` that matches;
/// rejected alternatives record nothing.
pub open spec fn spec_caps_first(cs: Seq<AstView>, s: Seq<char>, pos: int, i: int) -> Seq<
    (int, int),
>
    decreases cs, 1int, cs.len() - i,
{
    if i < 0 || i >= cs.len() {
        Seq::empty()
    } else {
        match spec_match(cs[i], s, pos) {
            Option::Some(_) => spec_caps(cs[i], s, pos),
            Option::None => spec_caps_first(cs, s, pos, i + 1),
        }
    }
}

/// Where the greedy iteration of `b` stops: the position after the last
/// successful attempt, with `left` attempts still allowed.  The repetition
/// node leaves the cursor here whether it succeeds or fails.
pub open spec fn spec_repeat_pos(b: AstView, s: Seq<char>, pos: int, left: nat) -> int
    decreases b, 2int, left,
{
    if left == 0 {
        pos
    } else {
        match spec_match(b, s, pos) {
            Option::None => pos,
            Option::Some(p) => spec_repeat_pos(b, s, p, (left - 1) as nat),
        }
    }
}

/// The recorded spans of a runtime, as a mathematical sequence of pairs.
pub open spec fn caps_of(v: Seq<(usize, usize)>) -> Seq<(int, int)> {
    Seq::new(v.len(), |i: int| (v[i].0 as int, v[i].1 as int))
}

/// A pattern built entirely of zero-width assertions: lookaheads and
/// negations, possibly combined by repetition, concatenation, alternation
/// and capturing.
pub open spec fn zero_width(a: AstView) -> bool
    decreases a, 1int, 0int,
{
    match a {
        AstView::Not(_) => true,
        AstView::Lookahead(_) => true,
        AstView::Repeat(_, _, b) => zero_width(*b),
        AstView::Concat(cs) => zero_width_all(cs, 0),
        AstView::Or(cs) => zero_width_all(cs, 0),
        AstView::Capture(b) => zero_width(*b),
        _ => false,
    }
}

/// All of the children `cs[i..]` are zero-width.
pub open spec fn zero_width_all(cs: Seq<AstView>, i: int) -> bool
    decreases cs, 1int, cs.len() - i,
{
    if i < 0 || i >= cs.len() {
        true
    } else {
        zero_width(cs[i]) && zero_width_all(cs, i + 1)
    }
}

/// A pattern built entirely of zero-width assertions never advances the
/// cursor on its own: whenever it matches, it matches the empty span.
pub proof fn lemma_zero_width(a: AstView, s: Seq<char>, pos: int)
    ensures
        zero_width(a) ==> (spec_match(a, s, pos) matches Some(p) ==> p == pos),
    decreases a, 1int, 0int,
{
    match a {
        AstView::Repeat(min, max, b) => {
            lemma_zero_width_repeat(*b, s, pos, min as int, max as nat);
        },
        AstView::Concat(cs) => {
            lemma_zero_width_all(cs, s, pos, 0);
        },
        AstView::Or(cs) => {
            lemma_zero_width_first(cs, s, pos, 0);
        },
        AstView::Capture(b) => {
            lemma_zero_width(*b, s, pos);
        },
        _ => {},
    }
}

proof fn lemma_zero_width_repeat(b: AstView, s: Seq<char>, pos: int, min: int, left: nat)
    ensures
        zero_width(b) ==> (spec_match_repeat(b, s, pos, min, left) matches Some(p) ==> p == pos),
    decreases b, 2int, left,
{
    if left > 0 {
        lemma_zero_width(b, s, pos);
        match spec_match(b, s, pos) {
            Option::Some(p) => {
                lemma_zero_width_repeat(b, s, p, min - 1, (left - 1) as nat);
            },
            Option::None => {},
        }
    }
}

proof fn lemma_zero_width_all(cs: Seq<AstView>, s: Seq<char>, pos: int, i: int)
    ensures
        zero_width_all(cs, i) ==> (spec_match_all(cs, s, pos, i) matches Some(p) ==> p == pos),
    decreases cs, 1int, cs.len() - i,
{
    if 0 <= i < cs.len() {
        lemma_zero_width(cs[i], s, pos);
        match spec_match(cs[i], s, pos) {
            Option::Some(p) => {
                lemma_zero_width_all(cs, s, p, i + 1);
            },
            Option::None => {},
        }
    }
}

proof fn lemma_zero_width_first(cs: Seq<AstView>, s: Seq<char>, pos: int, i: int)
    ensures
        zero_width_all(cs, i) ==> (spec_match_first(cs, s, pos, i) matches Some(p) ==> p == pos),
    decreases cs, 1int, cs.len() - i,
{
    if 0 <= i < cs.len() {
        lemma_zero_width(cs[i], s, pos);
        lemma_zero_width_first(cs, s, pos, i + 1);
    }
}

/// Relies on String::push: appends the given character to the end of the
/// string.
pub assume_specification[ String::push ](s: &mut String, c: char)
    ensures
        final(s)@ == old(s)@.push(c),
;

/// One match attempt: a cursor over the input together with the capture
/// spans recorded so far.  A fresh runtime is made for every match call;
/// the compiled tree itself is never mutated.
pub struct Runtime {
    /// The subject, one entry per character.
    pub input: Vec<char>,
    /// The cursor: index of the next character to consume.
    pub pos: usize,
    /// Spans `(begin, end)` of the input consumed by capture nodes of
    /// successful matches, in order of completion; an attempt that is
    /// later abandoned leaves no record.
    pub captured: Vec<(usize, usize)>,
}

impl Runtime {
    /// The cursor stays inside the input and every recorded span is a
    /// well-formed range of it.
    pub open spec fn wf(self) -> bool {
        &&& self.pos <= self.input@.len()
        &&& forall|k: int|
            0 <= k < self.captured@.len() ==> (#[trigger] self.captured@[k]).0
                <= self.captured@[k].1 <= self.input@.len()
    }

    /// A fresh runtime positioned at the start of the input, with no
    /// captures yet.
    pub fn new(input: Vec<char>) -> (rt: Runtime)
        ensures
            rt.wf(),
            rt.input == input,
            rt.pos == 0,
            rt.captured@ == Seq::<(usize, usize)>::empty(),
    {
        Runtime { input, pos: 0, captured: Vec::new() }
    }

    /// Consumes one character, or reports that the input is exhausted.
    fn next(&mut self) -> (c: Option<char>)
        requires
            old(self).wf(),
        ensures
            final(self).wf(),
            final(self).input == old(self).input,
            final(self).captured == old(self).captured,
            old(self).pos < old(self).input@.len() ==> c == Some(
                old(self).input@[old(self).pos as int],
            ) && final(self).pos == old(self).pos + 1,
            old(self).pos >= old(self).input@.len() ==> c is None && final(self).pos == old(
                self,
            ).pos,
    {
        if self.pos < self.input.len() {
            let c = self.input[self.pos];
            self.pos = self.pos + 1;
            Some(c)
        } else {
            None
        }
    }

    /// Walks the tree against the cursor.  The boolean result and, on
    /// success, the final cursor position are exactly those of
    /// [`spec_match`], and the capture records appended are exactly the
    /// spans of [`spec_caps`], in completion order.  A failed node leaves
    /// the capture records unchanged: an abandoned attempt is rolled back
    /// like the cursor itself.  On failure the cursor is pinned for the
    /// nodes whose semantics fix it: a one-character node consumes one
    /// character if any remained and none otherwise, assertions always
    /// restore, a rejected alternation restores its entry position, and a
    /// repetition ends after its last successful step whether it succeeds
    /// or fails.
    #[verifier::loop_isolation(false)]
    pub fn run(&mut self, ast: &Ast) -> (r: bool)
        requires
            old(self).wf(),
        ensures
            final(self).wf(),
            final(self).input == old(self).input,
            old(self).pos <= final(self).pos <= final(self).input@.len(),
            old(self).captured@.is_prefix_of(final(self).captured@),
            r == (spec_match(ast_view(*ast), old(self).input@, old(self).pos as int) is Some),
            r ==> Some(final(self).pos as int) == spec_match(
                ast_view(*ast),
                old(self).input@,
                old(self).pos as int,
            ),
            r ==> caps_of(final(self).captured@) == caps_of(old(self).captured@) + spec_caps(
                ast_view(*ast),
                old(self).input@,
                old(self).pos as int,
            ),
            !r ==> final(self).captured@ == old(self).captured@,
            (*ast) is Char || (*ast) is Range || (*ast) is Any || (*ast) is Not || (*ast)
                is Lookahead ==> final(self).captured@ == old(self).captured@,
            (*ast) is Char || (*ast) is Range || (*ast) is Any ==> final(self).pos as int == (
            if old(self).pos < old(self).input@.len() {
                old(self).pos + 1
            } else {
                old(self).pos as int
            }),
            (*ast) is Not || (*ast) is Lookahead ==> final(self).pos == old(self).pos,
            !r && (*ast) is Or ==> final(self).pos == old(self).pos,
            (*ast) is Repeat ==> final(self).pos as int == spec_repeat_pos(
                *ast_view(*ast)->Repeat_2,
                old(self).input@,
                old(self).pos as int,
                ast_view(*ast)->Repeat_1 as nat,
            ),
        decreases *ast,
    {
        proof {
            assert(caps_of(old(self).captured@) + Seq::<(int, int)>::empty() =~= caps_of(
                old(self).captured@,
            ));
        }
        match ast {
            Ast::Char(c) => {
                match self.next() {
                    Option::Some(x) => x == *c,
                    Option::None => false,
                }
            },
            Ast::Range(lo, hi) => {
                match self.next() {
                    Option::Some(x) => *lo as u32 <= x as u32 && x as u32 <= *hi as u32,
                    Option::None => false,
                }
            },
            Ast::Any => {
                match self.next() {
                    Option::Some(_) => true,
                    Option::None => false,
                }
            },
            Ast::Not(b) => {
                let snap = self.pos;
                let clen = self.captured.len();
                let r = self.run(&**b);
                self.pos = snap;
                self.captured.truncate(clen);
                proof {
                    assert(self.captured@ =~= old(self).captured@);
                }
                !r
            },
            Ast::Lookahead(b) => {
                let snap = self.pos;
                let clen = self.captured.len();
                let r = self.run(&**b);
                self.pos = snap;
                self.captured.truncate(clen);
                proof {
                    assert(self.captured@ =~= old(self).captured@);
                }
                r
            },
            Ast::Repeat(min, max, b) => {
                let ghost child = ast_view(**b);
                let ghost s = self.input@;
                let ghost pos0 = self.pos as int;
                let clen = self.captured.len();
                let mut count: u32 = 0;
                while count < *max
                    invariant
                        self.wf(),
                        self.input == old(self).input,
                        old(self).captured@.is_prefix_of(self.captured@),
                        clen == old(self).captured@.len(),
                        count <= *max,
                        pos0 <= self.pos <= s.len(),
                        s == self.input@,
                        child == ast_view(**b),
                        old(self).wf(),
                        pos0 == old(self).pos,
                        spec_match_repeat(child, s, pos0, *min as int, *max as nat)
                            == spec_match_repeat(
                            child,
                            s,
                            self.pos as int,
                            *min - count,
                            (*max - count) as nat,
                        ),
                        caps_of(old(self).captured@) + spec_caps_repeat(child, s, pos0, *max as nat)
                            == caps_of(self.captured@) + spec_caps_repeat(
                            child,
                            s,
                            self.pos as int,
                            (*max - count) as nat,
                        ),
                        spec_repeat_pos(child, s, pos0, *max as nat) == spec_repeat_pos(
                            child,
                            s,
                            self.pos as int,
                            (*max - count) as nat,
                        ),
                    decreases *max - count,
                {
                    proof {
                        assert(decreases_to!(*ast => (*ast)->Repeat_2));
                        assert((*ast)->Repeat_2 == *b);
                        assert(decreases_to!(*ast => **b));
                    }
                    let snap = self.pos;
                    let ghost ccap = self.captured@;
                    let ghost left0 = (*max - count) as nat;
                    let r = self.run(&**b);
                    if !r {
                        self.pos = snap;
                        if *min <= count {
                            proof {
                                assert(caps_of(self.captured@) + Seq::<(int, int)>::empty()
                                    =~= caps_of(self.captured@));
                            }
                            return true;
                        } else {
                            self.captured.truncate(clen);
                            proof {
                                assert(self.captured@ =~= old(self).captured@);
                            }
                            return false;
                        }
                    }
                    proof {
                        assert(caps_of(ccap) + spec_caps_repeat(child, s, snap as int, left0)
                            =~= (caps_of(ccap) + spec_caps(child, s, snap as int))
                            + spec_caps_repeat(
                            child,
                            s,
                            self.pos as int,
                            (left0 - 1) as nat,
                        ));
                    }
                    count = count + 1;
                }
                proof {
                    assert(caps_of(self.captured@) + Seq::<(int, int)>::empty() =~= caps_of(
                        self.captured@,
                    ));
                }
                true
            },
            Ast::Concat(asts) => {
                let ghost cs = asts_view(asts@);
                let ghost s = self.input@;
                let ghost pos0 = self.pos as int;
                let clen = self.captured.len();
                let n = asts.len();
                let mut i: usize = 0;
                while i < n
                    invariant
                        self.wf(),
                        self.input == old(self).input,
                        old(self).captured@.is_prefix_of(self.captured@),
                        clen == old(self).captured@.len(),
                        i <= n,
                        n == asts@.len(),
                        pos0 <= self.pos <= s.len(),
                        s == self.input@,
                        pos0 == old(self).pos,
                        ast_view(*ast) == AstView::Concat(cs),
                        cs.len() == asts@.len(),
                        forall|k: int| 0 <= k < cs.len() ==> cs[k] == ast_view(asts@[k]),
                        spec_match_all(cs, s, pos0, 0) == spec_match_all(
                            cs,
                            s,
                            self.pos as int,
                            i as int,
                        ),
                        caps_of(old(self).captured@) + spec_caps_all(cs, s, pos0, 0) == caps_of(
                            self.captured@,
                        ) + spec_caps_all(cs, s, self.pos as int, i as int),
                    decreases n - i,
                {
                    proof {
                        assert(decreases_to!(*ast => (*ast)->Concat_0));
                        assert(decreases_to!((*ast)->Concat_0 => (*ast)->Concat_0@));
                        assert((*ast)->Concat_0@ == asts@);
                        assert(decreases_to!(asts@ => asts@[i as int]));
                        assert(decreases_to!(*ast => asts@[i as int]));
                    }
                    let ghost ccap = self.captured@;
                    let ghost p_entry = self.pos as int;
                    let r = self.run(&asts[i]);
                    if !r {
                        self.captured.truncate(clen);
                        proof {
                            assert(self.captured@ =~= old(self).captured@);
                        }
                        return false;
                    }
                    proof {
                        assert(caps_of(ccap) + spec_caps_all(cs, s, p_entry, i as int) =~= (caps_of(
                            ccap,
                        ) + spec_caps(cs[i as int], s, p_entry)) + spec_caps_all(
                            cs,
                            s,
                            self.pos as int,
                            i + 1,
                        ));
                    }
                    i = i + 1;
                }
                proof {
                    assert(caps_of(self.captured@) + Seq::<(int, int)>::empty() =~= caps_of(
                        self.captured@,
                    ));
                }
                true
            },
            Ast::Or(asts) => {
                let ghost cs = asts_view(asts@);
                let ghost s = self.input@;
                let entry = self.pos;
                let n = asts.len();
                let mut i: usize = 0;
                while i < n
                    invariant
                        self.wf(),
                        self.input == old(self).input,
                        self.captured@ == old(self).captured@,
                        i <= n,
                        n == asts@.len(),
                        entry <= self.pos <= s.len(),
                        s == self.input@,
                        entry == old(self).pos,
                        ast_view(*ast) == AstView::Or(cs),
                        cs.len() == asts@.len(),
                        forall|k: int| 0 <= k < cs.len() ==> cs[k] == ast_view(asts@[k]),
                        spec_match_first(cs, s, entry as int, 0) == spec_match_first(
                            cs,
                            s,
                            entry as int,
                            i as int,
                        ),
                        spec_caps_first(cs, s, entry as int, 0) == spec_caps_first(
                            cs,
                            s,
                            entry as int,
                            i as int,
                        ),
                    decreases n - i,
                {
                    self.pos = entry;
                    proof {
                        assert(decreases_to!(*ast => (*ast)->Or_0));
                        assert(decreases_to!((*ast)->Or_0 => (*ast)->Or_0@));
                        assert((*ast)->Or_0@ == asts@);
                        assert(decreases_to!(asts@ => asts@[i as int]));
                        assert(decreases_to!(*ast => asts@[i as int]));
                    }
                    let r = self.run(&asts[i]);
                    if r {
                        return true;
                    }
                    i = i + 1;
                }
                self.pos = entry;
                false
            },
            Ast::Capture(b) => {
                let begin = self.pos;
                let r = self.run(&**b);
                if r {
                    let end = self.pos;
                    let ghost mid = self.captured@;
                    self.captured.push((begin, end));
                    proof {
                        assert(caps_of(self.captured@) =~= caps_of(mid).push(
                            (begin as int, end as int),
                        ));
                        assert(caps_of(old(self).captured@) + spec_caps(
                            ast_view(*ast),
                            self.input@,
                            begin as int,
                        ) =~= (caps_of(old(self).captured@) + spec_caps(
                            ast_view(**b),
                            self.input@,
                            begin as int,
                        )).push((begin as int, end as int)));
                        assert(caps_of(self.captured@) =~= caps_of(old(self).captured@)
                            + spec_caps(ast_view(*ast), self.input@, begin as int));
                    }
                    true
                } else {
                    false
                }
            },
        }
    }

    /// The text consumed by each capture node that succeeded, in order of
    /// completion: entry `k` holds the characters of
    /// `input[captured[k].0 .. captured[k].1]`.
    pub fn captured(&self) -> (out: Vec<String>)
        requires
            self.wf(),
        ensures
            out@.len() == self.captured@.len(),
            forall|k: int|
                0 <= k < out@.len() ==> (#[trigger] out@[k])@ == self.input@.subrange(
                    self.captured@[k].0 as int,
                    self.captured@[k].1 as int,
                ),
    {
        let mut out: Vec<String> = Vec::new();
        let n = self.captured.len();
        let mut k: usize = 0;
        while k < n
            invariant
                self.wf(),
                k <= n,
                n == self.captured@.len(),
                out@.len() == k,
                forall|m: int|
                    0 <= m < k ==> (#[trigger] out@[m])@ == self.input@.subrange(
                        self.captured@[m].0 as int,
                        self.captured@[m].1 as int,
                    ),
            decreases n - k,
        {
            let (b, e) = self.captured[k];
            let mut text = String::new();
            let mut j: usize = b;
            while j < e
                invariant
                    self.wf(),
                    k < n,
                    n == self.captured@.len(),
                    (b, e) == self.captured@[k as int],
                    b <= j <= e,
                    e <= self.input@.len(),
                    text@ == self.input@.subrange(b as int, j as int),
                decreases e - j,
            {
                text.push(self.input[j]);
                proof {
                    assert(text@ =~= self.input@.subrange(b as int, j + 1));
                }
                j = j + 1;
            }
            proof {
                assert(text@ =~= self.input@.subrange(b as int, e as int));
            }
            out.push(text);
            k = k + 1;
        }
        out
    }
}

} // verus!
