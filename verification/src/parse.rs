use vstd::prelude::*;

use crate::ast::Ast;
use crate::ast::AstView;
use crate::ast::ast_view;
use crate::ast::asts_view;
use crate::engine::spec_match;

verus! {

/// A syntax error in a pattern.  Compilation stops at the first error; no
/// partial tree is ever returned.
#[derive(Clone, Copy, Debug, PartialEq, Eq, Structural)]
pub enum Error {
    /// A character appeared where the grammar forbids it.
    UnexpectedChar(char),
    /// Reserved for an unmatched closing parenthesis; currently every such
    /// pattern is reported as `UnexpectedChar`.
    UnexpectedParenClose,
    /// The pattern ended in the middle of a construct.
    UnexpectedEOS,
}

/// A character that cannot start a term: alternation and grouping
/// delimiters and the quantifier characters, which all bind to something
/// already parsed.
pub open spec fn is_term_stop(c: char) -> bool {
    c == '|' || c == ')' || c == '*' || c == '+' || c == '?' || c == '{'
}

/// The control character written by a two-character escape, if the given
/// character is one of the four escapable letters.
pub open spec fn escape_control(c: char) -> Option<char> {
    if c == 'r' {
        Some('\r')
    } else if c == 'n' {
        Some('\n')
    } else if c == 't' {
        Some('\t')
    } else if c == '0' {
        Some('\0')
    } else {
        None
    }
}

/// The value of a decimal digit character.
pub open spec fn digit_val(c: char) -> Option<u32> {
    if '0' as u32 <= c as u32 && c as u32 <= '9' as u32 {
        Some((c as u32 - '0' as u32) as u32)
    } else {
        None
    }
}

/// Appends a digit to an accumulated decimal value, saturating at
/// `u32::MAX` (which also stands for an unbounded repetition count).
pub open spec fn sat_push_digit(acc: u32, d: u32) -> u32 {
    if acc * 10 + d > u32::MAX {
        u32::MAX
    } else {
        (acc * 10 + d) as u32
    }
}

/// Positions handed back by a sub-parse always lie between the position it
/// started from and the end of the input; this keeps every intermediate
/// position inside that range definitionally, so that the mutual recursion
/// below is visibly well-founded.
pub open spec fn clamped(p: int, lo: int, hi: int) -> int {
    if p < lo {
        lo
    } else if p > hi {
        hi
    } else {
        p
    }
}

/// One member character of a character class: either a plain character or
/// a two-character escape (`\r`, `\n`, `\t`, `\0`); any other escape is an
/// error here.  Returns the parsed character and the position after it.
pub open spec fn spec_class_char(s: Seq<char>, pos: int) -> (Result<char, Error>, int) {
    if !(0 <= pos < s.len()) {
        (Err(Error::UnexpectedEOS), pos)
    } else if s[pos] == '\\' {
        if pos + 1 < s.len() {
            match escape_control(s[pos + 1]) {
                Option::Some(c) => (Ok(c), pos + 2),
                Option::None => (Err(Error::UnexpectedEOS), pos + 1),
            }
        } else {
            (Err(Error::UnexpectedEOS), pos + 1)
        }
    } else {
        (Ok(s[pos]), pos + 1)
    }
}

/// A literal atom outside a class: an escape may also be `\d`, standing
/// for a digit range; an escaped character that is not a known escape is
/// an error.
pub open spec fn spec_parse_char(s: Seq<char>, pos: int) -> (Result<AstView, Error>, int) {
    if 0 <= pos < s.len() && s[pos] == '\\' {
        if pos + 1 < s.len() {
            let c = s[pos + 1];
            if c == 'd' {
                (Ok(AstView::Range('0', '9')), pos + 2)
            } else {
                match escape_control(c) {
                    Option::Some(e) => (Ok(AstView::Char(e)), pos + 2),
                    Option::None => (Err(Error::UnexpectedChar(c)), pos + 2),
                }
            }
        } else {
            (Err(Error::UnexpectedEOS), pos + 1)
        }
    } else {
        let (r, p) = spec_class_char(s, pos);
        match r {
            Ok(c) => (Ok(AstView::Char(c)), p),
            Err(e) => (Err(e), p),
        }
    }
}

/// Accumulates decimal digits starting at `pos` onto `acc`, saturating at
/// `u32::MAX`; stops at the first non-digit or at the end of the input.
pub open spec fn spec_number_acc(s: Seq<char>, pos: int, acc: u32) -> (u32, int)
    decreases s.len() - pos, 0int,
{
    if 0 <= pos < s.len() {
        match digit_val(s[pos]) {
            Option::Some(d) => spec_number_acc(s, pos + 1, sat_push_digit(acc, d)),
            Option::None => (acc, pos),
        }
    } else {
        (acc, pos)
    }
}

/// A repetition bound: a run of decimal digits.  A bound that starts with
/// a non-digit is an error; an empty bound at the end of the input reads
/// as zero, letting the caller substitute its documented default.
pub open spec fn spec_number(s: Seq<char>, pos: int) -> (Result<u32, Error>, int)
    decreases s.len() - pos, 1int,
{
    if !(0 <= pos < s.len()) {
        (Ok(0u32), pos)
    } else if digit_val(s[pos]) is None {
        (Err(Error::UnexpectedChar(s[pos])), pos)
    } else {
        let (n, p) = spec_number_acc(s, pos, 0u32);
        (Ok(n), p)
    }
}

/// Demands one specific character at `pos`.
pub open spec fn spec_expect(s: Seq<char>, pos: int, c: char) -> (Result<(), Error>, int) {
    if !(0 <= pos < s.len()) {
        (Err(Error::UnexpectedEOS), pos)
    } else if s[pos] == c {
        (Ok(()), pos + 1)
    } else {
        (Err(Error::UnexpectedChar(s[pos])), pos + 1)
    }
}

/// An optional quantifier after the atom `atom`, whose parse ended at
/// `pos`: `*`, `+`, `?`, or `{m,n}` with both bounds optional (`m`
/// defaults to 0, `n` to unbounded) and the comma and closing brace
/// mandatory.  At most one quantifier binds to an atom; a second one is
/// left for the surrounding level, where it is an error.
pub open spec fn spec_parse_quant(s: Seq<char>, pos: int, atom: AstView) -> (
    Result<AstView, Error>,
    int,
)
    decreases s.len() - pos, 2int,
{
    if !(0 <= pos < s.len()) {
        (Ok(atom), pos)
    } else if s[pos] == '*' {
        (Ok(AstView::Repeat(0u32, u32::MAX, Box::new(atom))), pos + 1)
    } else if s[pos] == '+' {
        (Ok(AstView::Repeat(1u32, u32::MAX, Box::new(atom))), pos + 1)
    } else if s[pos] == '?' {
        (Ok(AstView::Repeat(0u32, 1u32, Box::new(atom))), pos + 1)
    } else if s[pos] == '{' {
        let (mr, mp0) = spec_number(s, pos + 1);
        let mp = clamped(mp0, pos + 1, s.len() as int);
        let min = match mr {
            Ok(n) => n,
            Err(_) => 0u32,
        };
        let (cr, cp0) = spec_expect(s, mp, ',');
        let cp = clamped(cp0, mp, s.len() as int);
        match cr {
            Err(e) => (Err(e), cp),
            Ok(_) => {
                let (xr, xp0) = spec_number(s, cp);
                let xp = clamped(xp0, cp, s.len() as int);
                let max = match xr {
                    Ok(n) => n,
                    Err(_) => u32::MAX,
                };
                let (br, bp0) = spec_expect(s, xp, '}');
                let bp = clamped(bp0, xp, s.len() as int);
                match br {
                    Err(e) => (Err(e), bp),
                    Ok(_) => (Ok(AstView::Repeat(min, max, Box::new(atom))), bp),
                }
            },
        }
    } else {
        (Ok(atom), pos)
    }
}

/// One term: an atom (group, wildcard, class, or literal) followed by an
/// optional quantifier.  A term never consumes nothing: its atom takes at
/// least one character.
pub open spec fn spec_parse_repeat(s: Seq<char>, pos: int) -> (Result<AstView, Error>, int)
    decreases s.len() - pos, 3int,
{
    if !(0 <= pos < s.len()) {
        (Err(Error::UnexpectedEOS), pos)
    } else if is_term_stop(s[pos]) {
        (Err(Error::UnexpectedChar(s[pos])), pos)
    } else {
        let (ar, ap0) = if s[pos] == '(' {
            spec_parse_paren(s, pos + 1)
        } else if s[pos] == '.' {
            (Ok(AstView::Any), pos + 1)
        } else if s[pos] == '[' {
            spec_parse_char_class(s, pos + 1)
        } else {
            spec_parse_char(s, pos)
        };
        match ar {
            Err(e) => (Err(e), ap0),
            Ok(atom) => spec_parse_quant(s, clamped(ap0, pos + 1, s.len() as int), atom),
        }
    }
}

/// The members of a character class, up to and including the closing
/// bracket: each member is a character or a `lo-hi` range; the input
/// ending before the bracket is an error.
pub open spec fn spec_class_items(s: Seq<char>, pos: int) -> (Result<Seq<AstView>, Error>, int)
    decreases s.len() - pos, 3int,
{
    if !(0 <= pos < s.len()) {
        (Err(Error::UnexpectedEOS), pos)
    } else if s[pos] == ']' {
        (Ok(Seq::<AstView>::empty()), pos + 1)
    } else {
        let (cr, cp0) = spec_class_char(s, pos);
        match cr {
            Err(e) => (Err(e), cp0),
            Ok(c) => {
                let cp = clamped(cp0, pos + 1, s.len() as int);
                if cp < s.len() && s[cp] == '-' {
                    let (dr, dp0) = spec_class_char(s, cp + 1);
                    match dr {
                        Err(e) => (Err(e), dp0),
                        Ok(c2) => {
                            let dp = clamped(dp0, cp + 1, s.len() as int);
                            let (rr, rp) = spec_class_items(s, dp);
                            match rr {
                                Err(e) => (Err(e), rp),
                                Ok(rest) => (Ok(seq![AstView::Range(c, c2)] + rest), rp),
                            }
                        },
                    }
                } else {
                    let (rr, rp) = spec_class_items(s, cp);
                    match rr {
                        Err(e) => (Err(e), rp),
                        Ok(rest) => (Ok(seq![AstView::Char(c)] + rest), rp),
                    }
                }
            },
        }
    }
}

/// A character class, entered just after the opening bracket.  A leading
/// caret marks inversion but is not itself consumed, so it is also read as
/// the first member, exactly as the grammar of this library has it.  A
/// single member stands alone; several members alternate; an inverted
/// class becomes "not any member, then any character".
pub open spec fn spec_parse_char_class(s: Seq<char>, pos: int) -> (Result<AstView, Error>, int)
    decreases s.len() - pos, 4int,
{
    let invert = 0 <= pos < s.len() && s[pos] == '^';
    let (r, p) = spec_class_items(s, pos);
    match r {
        Err(e) => (Err(e), p),
        Ok(items) => {
            let body = if items.len() == 1 {
                items[0]
            } else {
                AstView::Or(items)
            };
            if invert {
                (Ok(AstView::Concat(seq![AstView::Not(Box::new(body)), AstView::Any])), p)
            } else {
                (Ok(body), p)
            }
        },
    }
}

/// Checks and consumes the closing parenthesis after a group body parsed
/// up to `p0`.
pub open spec fn spec_close_group(s: Seq<char>, r: Result<AstView, Error>, p0: int, lo: int) -> (
    Result<AstView, Error>,
    int,
) {
    let p = clamped(p0, lo, s.len() as int);
    match r {
        Err(e) => (Err(e), p),
        Ok(a) => if p < s.len() && s[p] == ')' {
            (Ok(a), p + 1)
        } else if p >= s.len() {
            (Err(Error::UnexpectedEOS), p)
        } else {
            (Err(Error::UnexpectedChar(s[p])), p)
        },
    }
}

/// A parenthesized group, entered just after the opening parenthesis: a
/// leading `?:`, `?=` or `?!` makes it non-capturing, a lookahead, or a
/// negative lookahead; any other character after `?` is an error; without
/// `?` the group captures.  The closing parenthesis is mandatory.
pub open spec fn spec_parse_paren(s: Seq<char>, pos: int) -> (Result<AstView, Error>, int)
    decreases s.len() - pos, 8int,
{
    if 0 <= pos < s.len() && s[pos] == '?' {
        if pos + 1 < s.len() {
            let c = s[pos + 1];
            if c == ':' {
                let (r, p) = spec_parse_or(s, pos + 2);
                spec_close_group(s, r, p, pos + 2)
            } else if c == '=' {
                let (r, p) = spec_parse_or(s, pos + 2);
                let wrapped = match r {
                    Ok(a) => Ok(AstView::Lookahead(Box::new(a))),
                    Err(e) => Err(e),
                };
                spec_close_group(s, wrapped, p, pos + 2)
            } else if c == '!' {
                let (r, p) = spec_parse_or(s, pos + 2);
                let wrapped = match r {
                    Ok(a) => Ok(AstView::Not(Box::new(a))),
                    Err(e) => Err(e),
                };
                spec_close_group(s, wrapped, p, pos + 2)
            } else {
                (Err(Error::UnexpectedChar(c)), pos + 2)
            }
        } else {
            (Err(Error::UnexpectedEOS), pos + 1)
        }
    } else {
        let (r, p) = spec_parse_or(s, pos);
        let wrapped = match r {
            Ok(a) => Ok(AstView::Capture(Box::new(a))),
            Err(e) => Err(e),
        };
        spec_close_group(s, wrapped, p, pos)
    }
}

/// A run of terms, stopping at the end of the input or at a character that
/// cannot start a term.  The run may be empty.
pub open spec fn spec_concat_items(s: Seq<char>, pos: int) -> (Result<Seq<AstView>, Error>, int)
    decreases s.len() - pos, 4int,
{
    if !(0 <= pos < s.len()) || is_term_stop(s[pos]) {
        (Ok(Seq::<AstView>::empty()), pos)
    } else {
        let (r, p0) = spec_parse_repeat(s, pos);
        match r {
            Err(e) => (Err(e), p0),
            Ok(a) => {
                let p = clamped(p0, pos + 1, s.len() as int);
                let (rr, rp) = spec_concat_items(s, p);
                match rr {
                    Err(e) => (Err(e), rp),
                    Ok(rest) => (Ok(seq![a] + rest), rp),
                }
            },
        }
    }
}

/// A concatenation: a run of terms, a single term standing alone.
pub open spec fn spec_parse_concat(s: Seq<char>, pos: int) -> (Result<AstView, Error>, int)
    decreases s.len() - pos, 5int,
{
    let (r, p) = spec_concat_items(s, pos);
    match r {
        Err(e) => (Err(e), p),
        Ok(items) => (
            Ok(
                if items.len() == 1 {
                    items[0]
                } else {
                    AstView::Concat(items)
                },
            ),
            p,
        ),
    }
}

/// The alternatives of an alternation, separated by `|`; there is always
/// at least one, possibly empty, alternative.
pub open spec fn spec_or_items(s: Seq<char>, pos: int) -> (Result<Seq<AstView>, Error>, int)
    decreases s.len() - pos, 6int,
{
    let (r, p0) = spec_parse_concat(s, pos);
    match r {
        Err(e) => (Err(e), p0),
        Ok(a) => {
            let p = clamped(p0, pos, s.len() as int);
            if p < s.len() && s[p] == '|' {
                let (rr, rp) = spec_or_items(s, p + 1);
                match rr {
                    Err(e) => (Err(e), rp),
                    Ok(rest) => (Ok(seq![a] + rest), rp),
                }
            } else {
                (Ok(seq![a]), p)
            }
        },
    }
}

/// An alternation: its alternatives in listed order, a single alternative
/// standing alone.
pub open spec fn spec_parse_or(s: Seq<char>, pos: int) -> (Result<AstView, Error>, int)
    decreases s.len() - pos, 7int,
{
    let (r, p) = spec_or_items(s, pos);
    match r {
        Err(e) => (Err(e), p),
        Ok(items) => (
            Ok(
                if items.len() == 0 {
                    AstView::Concat(Seq::<AstView>::empty())
                } else if items.len() == 1 {
                    items[0]
                } else {
                    AstView::Or(items)
                },
            ),
            p,
        ),
    }
}

/// The whole pattern: a top-level alternation that must consume every
/// character; a leftover character is itself an error.  Compilation stops
/// at the first error.
pub open spec fn spec_parse(s: Seq<char>) -> Result<AstView, Error> {
    let (r, p0) = spec_parse_or(s, 0);
    match r {
        Err(e) => Err(e),
        Ok(a) => {
            let p = clamped(p0, 0, s.len() as int);
            if p < s.len() {
                Err(Error::UnexpectedChar(s[p]))
            } else {
                Ok(a)
            }
        },
    }
}

/// True exactly on the characters that cannot start a term.
fn is_stop(c: char) -> (b: bool)
    ensures
        b == is_term_stop(c),
{
    c == '|' || c == ')' || c == '*' || c == '+' || c == '?' || c == '{'
}

/// Accumulates the digits of a repetition bound, saturating at
/// `u32::MAX`.
fn parse_number_acc(s: &Vec<char>, pos: &mut usize, acc: u32) -> (n: u32)
    requires
        *old(pos) <= s@.len(),
    ensures
        *old(pos) <= *final(pos) <= s@.len(),
        spec_number_acc(s@, *old(pos) as int, acc) == (n, *final(pos) as int),
    decreases s@.len() - *old(pos), 0int,
{
    if *pos < s.len() {
        let c = s[*pos];
        let v = c as u32;
        if '0' as u32 <= v && v <= '9' as u32 {
            let d = v - '0' as u32;
            let acc2 = if acc > (u32::MAX - d) / 10 {
                u32::MAX
            } else {
                acc * 10 + d
            };
            proof {
                assert((acc > (u32::MAX - d) / 10) == (acc * 10 + d > u32::MAX))
                    by (nonlinear_arith)
                    requires d <= 9;
                assert(acc2 == sat_push_digit(acc, d));
            }
            *pos = *pos + 1;
            parse_number_acc(s, pos, acc2)
        } else {
            acc
        }
    } else {
        acc
    }
}

/// A repetition bound: a run of digits read as a saturating decimal
/// number; an error, without consuming anything, if the first character is
/// not a digit.
fn parse_number(s: &Vec<char>, pos: &mut usize) -> (r: Result<u32, Error>)
    requires
        *old(pos) <= s@.len(),
    ensures
        *old(pos) <= *final(pos) <= s@.len(),
        ({
            let (sr, sp) = spec_number(s@, *old(pos) as int);
            match r {
                Ok(n) => sr == Ok::<u32, Error>(n) && *final(pos) as int == sp,
                Err(e) => sr == Err::<u32, Error>(e) && *final(pos) == *old(pos),
            }
        }),
    decreases s@.len() - *old(pos), 1int,
{
    if *pos >= s.len() {
        return Ok(0);
    }
    let c = s[*pos];
    let v = c as u32;
    if v < '0' as u32 || v > '9' as u32 {
        return Err(Error::UnexpectedChar(c));
    }
    Ok(parse_number_acc(s, pos, 0))
}

/// Demands one specific character, consuming it, or whatever stood in its
/// place.
fn expect_char(s: &Vec<char>, pos: &mut usize, expected: char) -> (r: Result<(), Error>)
    requires
        *old(pos) <= s@.len(),
    ensures
        *old(pos) <= *final(pos) <= s@.len(),
        ({
            let (sr, sp) = spec_expect(s@, *old(pos) as int, expected);
            match r {
                Ok(_) => sr is Ok && *final(pos) as int == sp,
                Err(e) => sr == Err::<(), Error>(e),
            }
        }),
{
    if *pos >= s.len() {
        return Err(Error::UnexpectedEOS);
    }
    let c = s[*pos];
    *pos = *pos + 1;
    if c == expected {
        Ok(())
    } else {
        Err(Error::UnexpectedChar(c))
    }
}

/// One member character of a class, with the escapes a class accepts.
fn parse_char_(s: &Vec<char>, pos: &mut usize) -> (r: Result<char, Error>)
    requires
        *old(pos) <= s@.len(),
    ensures
        *old(pos) <= *final(pos) <= s@.len(),
        ({
            let (sr, sp) = spec_class_char(s@, *old(pos) as int);
            match r {
                Ok(c) => sr == Ok::<char, Error>(c) && *final(pos) as int == sp && *final(pos)
                    > *old(pos),
                Err(e) => sr == Err::<char, Error>(e),
            }
        }),
{
    if *pos >= s.len() {
        return Err(Error::UnexpectedEOS);
    }
    let c = s[*pos];
    *pos = *pos + 1;
    if c == '\\' {
        if *pos < s.len() {
            let e2 = s[*pos];
            if e2 == 'r' {
                *pos = *pos + 1;
                Ok('\r')
            } else if e2 == 'n' {
                *pos = *pos + 1;
                Ok('\n')
            } else if e2 == 't' {
                *pos = *pos + 1;
                Ok('\t')
            } else if e2 == '0' {
                *pos = *pos + 1;
                Ok('\0')
            } else {
                Err(Error::UnexpectedEOS)
            }
        } else {
            Err(Error::UnexpectedEOS)
        }
    } else {
        Ok(c)
    }
}

/// A literal atom, with the escapes a literal accepts, `\d` among them.
fn parse_char(s: &Vec<char>, pos: &mut usize) -> (r: Result<Ast, Error>)
    requires
        *old(pos) <= s@.len(),
    ensures
        *old(pos) <= *final(pos) <= s@.len(),
        ({
            let (sr, sp) = spec_parse_char(s@, *old(pos) as int);
            match r {
                Ok(a) => sr == Ok::<AstView, Error>(ast_view(a)) && *final(pos) as int == sp
                    && *final(pos) > *old(pos),
                Err(e) => sr == Err::<AstView, Error>(e),
            }
        }),
{
    if *pos < s.len() && s[*pos] == '\\' {
        *pos = *pos + 1;
        if *pos < s.len() {
            let e2 = s[*pos];
            *pos = *pos + 1;
            if e2 == 'd' {
                return Ok(Ast::Range('0', '9'));
            }
            if e2 == 'r' {
                return Ok(Ast::Char('\r'));
            }
            if e2 == 'n' {
                return Ok(Ast::Char('\n'));
            }
            if e2 == 't' {
                return Ok(Ast::Char('\t'));
            }
            if e2 == '0' {
                return Ok(Ast::Char('\0'));
            }
            Err(Error::UnexpectedChar(e2))
        } else {
            Err(Error::UnexpectedEOS)
        }
    } else {
        match parse_char_(s, pos) {
            Ok(c) => {
                proof {
                    lemma_char_view(c);
                }
                Ok(Ast::Char(c))
            },
            Err(e) => Err(e),
        }
    }
}

/// An optional quantifier binding to the atom just parsed.
fn parse_quant(s: &Vec<char>, pos: &mut usize, atom: Ast) -> (r: Result<Ast, Error>)
    requires
        *old(pos) <= s@.len(),
    ensures
        *old(pos) <= *final(pos) <= s@.len(),
        ({
            let (sr, sp) = spec_parse_quant(s@, *old(pos) as int, ast_view(atom));
            match r {
                Ok(a) => sr == Ok::<AstView, Error>(ast_view(a)) && *final(pos) as int == sp,
                Err(e) => sr == Err::<AstView, Error>(e),
            }
        }),
    decreases s@.len() - *old(pos), 2int,
{
    if *pos >= s.len() {
        return Ok(atom);
    }
    let c = s[*pos];
    if c == '*' {
        *pos = *pos + 1;
        return Ok(Ast::Repeat(0, u32::MAX, Box::new(atom)));
    }
    if c == '+' {
        *pos = *pos + 1;
        return Ok(Ast::Repeat(1, u32::MAX, Box::new(atom)));
    }
    if c == '?' {
        *pos = *pos + 1;
        return Ok(Ast::Repeat(0, 1, Box::new(atom)));
    }
    if c == '{' {
        *pos = *pos + 1;
        let min = match parse_number(s, pos) {
            Ok(n) => n,
            Err(_) => 0,
        };
        match expect_char(s, pos, ',') {
            Ok(_) => {},
            Err(e) => return Err(e),
        }
        let max = match parse_number(s, pos) {
            Ok(n) => n,
            Err(_) => u32::MAX,
        };
        match expect_char(s, pos, '}') {
            Ok(_) => {},
            Err(e) => return Err(e),
        }
        return Ok(Ast::Repeat(min, max, Box::new(atom)));
    }
    Ok(atom)
}

/// One term: an atom and its optional quantifier.
fn parse_repeat(s: &Vec<char>, pos: &mut usize) -> (r: Result<Ast, Error>)
    requires
        *old(pos) <= s@.len(),
    ensures
        *old(pos) <= *final(pos) <= s@.len(),
        ({
            let (sr, sp) = spec_parse_repeat(s@, *old(pos) as int);
            match r {
                Ok(a) => sr == Ok::<AstView, Error>(ast_view(a)) && *final(pos) as int == sp
                    && *final(pos) > *old(pos),
                Err(e) => sr == Err::<AstView, Error>(e),
            }
        }),
    decreases s@.len() - *old(pos), 3int,
{
    if *pos >= s.len() {
        return Err(Error::UnexpectedEOS);
    }
    let c = s[*pos];
    if is_stop(c) {
        return Err(Error::UnexpectedChar(c));
    }
    let atom: Ast;
    if c == '(' {
        *pos = *pos + 1;
        atom = match parse_paren(s, pos) {
            Ok(a) => a,
            Err(e) => return Err(e),
        };
    } else if c == '.' {
        *pos = *pos + 1;
        atom = Ast::Any;
    } else if c == '[' {
        *pos = *pos + 1;
        atom = match parse_char_class(s, pos) {
            Ok(a) => a,
            Err(e) => return Err(e),
        };
    } else {
        atom = match parse_char(s, pos) {
            Ok(a) => a,
            Err(e) => return Err(e),
        };
    }
    parse_quant(s, pos, atom)
}

/// The members of a class, up to and including the closing bracket.
fn parse_class_items(s: &Vec<char>, pos: &mut usize) -> (r: Result<Vec<Ast>, Error>)
    requires
        *old(pos) <= s@.len(),
    ensures
        *old(pos) <= *final(pos) <= s@.len(),
        ({
            let (sr, sp) = spec_class_items(s@, *old(pos) as int);
            match r {
                Ok(v) => sr is Ok && sr->Ok_0 == asts_view(v@) && *final(pos) as int == sp,
                Err(e) => sr == Err::<Seq<AstView>, Error>(e),
            }
        }),
    decreases s@.len() - *old(pos), 3int,
{
    if *pos >= s.len() {
        return Err(Error::UnexpectedEOS);
    }
    if s[*pos] == ']' {
        *pos = *pos + 1;
        let v: Vec<Ast> = Vec::new();
        proof {
            assert(asts_view(v@) =~= Seq::<AstView>::empty());
        }
        return Ok(v);
    }
    let c = match parse_char_(s, pos) {
        Ok(c) => c,
        Err(e) => return Err(e),
    };
    if *pos < s.len() && s[*pos] == '-' {
        *pos = *pos + 1;
        let c2 = match parse_char_(s, pos) {
            Ok(c2) => c2,
            Err(e) => return Err(e),
        };
        let node = Ast::Range(c, c2);
        proof {
            lemma_range_view(c, c2);
        }
        let mut rest = match parse_class_items(s, pos) {
            Ok(v) => v,
            Err(e) => return Err(e),
        };
        let ghost nodev = node;
        let ghost rest0 = rest@;
        rest.insert(0, node);
        proof {
            lemma_asts_view_prepend(rest@, nodev, rest0);
        }
        Ok(rest)
    } else {
        let node = Ast::Char(c);
        proof {
            lemma_char_view(c);
        }
        let mut rest = match parse_class_items(s, pos) {
            Ok(v) => v,
            Err(e) => return Err(e),
        };
        let ghost nodev = node;
        let ghost rest0 = rest@;
        rest.insert(0, node);
        proof {
            lemma_asts_view_prepend(rest@, nodev, rest0);
        }
        Ok(rest)
    }
}

/// The model of a one-character node, stated for a character bound by a
/// pattern.
proof fn lemma_char_view(c: char)
    ensures
        ast_view(Ast::Char(c)) == AstView::Char(c),
{
}

/// The model of a range node, stated for characters bound by a pattern.
proof fn lemma_range_view(lo: char, hi: char)
    ensures
        ast_view(Ast::Range(lo, hi)) == AstView::Range(lo, hi),
{
}

/// Prepending a tree to a list prepends its model to the list's models.
proof fn lemma_asts_view_prepend(v: Seq<Ast>, node: Ast, rest: Seq<Ast>)
    requires
        v == rest.insert(0, node),
    ensures
        asts_view(v) == seq![ast_view(node)] + asts_view(rest),
{
    assert(v =~= seq![node] + rest);
    assert forall|k: int| 0 <= k < asts_view(v).len() implies asts_view(v)[k] == (seq![
        ast_view(node),
    ] + asts_view(rest))[k] by {
        if k == 0 {
            assert(v[0] == node);
        } else {
            assert(v[k] == rest[k - 1]);
            assert((seq![ast_view(node)] + asts_view(rest))[k] == asts_view(rest)[k - 1]);
        }
    }
    assert(asts_view(v) =~= seq![ast_view(node)] + asts_view(rest));
}

/// A character class, entered just after the opening bracket.
fn parse_char_class(s: &Vec<char>, pos: &mut usize) -> (r: Result<Ast, Error>)
    requires
        *old(pos) <= s@.len(),
    ensures
        *old(pos) <= *final(pos) <= s@.len(),
        ({
            let (sr, sp) = spec_parse_char_class(s@, *old(pos) as int);
            match r {
                Ok(a) => sr == Ok::<AstView, Error>(ast_view(a)) && *final(pos) as int == sp,
                Err(e) => sr == Err::<AstView, Error>(e),
            }
        }),
    decreases s@.len() - *old(pos), 4int,
{
    let invert = *pos < s.len() && s[*pos] == '^';
    let mut items = match parse_class_items(s, pos) {
        Ok(v) => v,
        Err(e) => return Err(e),
    };
    let body: Ast;
    if items.len() == 1 {
        body = items.remove(0);
    } else {
        body = Ast::Or(items);
    }
    if invert {
        let ghost bv = ast_view(body);
        let wrapped = vec![Ast::Not(Box::new(body)), Ast::Any];
        proof {
            assert(asts_view(wrapped@) =~= seq![AstView::Not(Box::new(bv)), AstView::Any]);
        }
        Ok(Ast::Concat(wrapped))
    } else {
        Ok(body)
    }
}

/// Consumes the closing parenthesis of a group, or reports what stood in
/// its place.
fn close_paren(s: &Vec<char>, pos: &mut usize) -> (r: Result<(), Error>)
    requires
        *old(pos) <= s@.len(),
    ensures
        *old(pos) <= *final(pos) <= s@.len(),
        *old(pos) < s@.len() && s@[*old(pos) as int] == ')' ==> r is Ok && *final(pos) == *old(pos)
            + 1,
        *old(pos) >= s@.len() ==> r == Err::<(), Error>(Error::UnexpectedEOS),
        *old(pos) < s@.len() && s@[*old(pos) as int] != ')' ==> r == Err::<(), Error>(
            Error::UnexpectedChar(s@[*old(pos) as int]),
        ),
{
    if *pos < s.len() {
        let c = s[*pos];
        if c == ')' {
            *pos = *pos + 1;
            Ok(())
        } else {
            Err(Error::UnexpectedChar(c))
        }
    } else {
        Err(Error::UnexpectedEOS)
    }
}

/// A parenthesized group, entered just after the opening parenthesis.
#[verifier::rlimit(60)]
fn parse_paren(s: &Vec<char>, pos: &mut usize) -> (r: Result<Ast, Error>)
    requires
        *old(pos) <= s@.len(),
    ensures
        *old(pos) <= *final(pos) <= s@.len(),
        ({
            let (sr, sp) = spec_parse_paren(s@, *old(pos) as int);
            match r {
                Ok(a) => sr == Ok::<AstView, Error>(ast_view(a)) && *final(pos) as int == sp,
                Err(e) => sr == Err::<AstView, Error>(e),
            }
        }),
    decreases s@.len() - *old(pos), 8int,
{
    if *pos < s.len() && s[*pos] == '?' {
        if *pos + 1 < s.len() {
            let c = s[*pos + 1];
            if c == ':' {
                *pos = *pos + 2;
                let inner = match parse_or(s, pos) {
                    Ok(a) => a,
                    Err(e) => return Err(e),
                };
                match close_paren(s, pos) {
                    Ok(_) => {},
                    Err(e) => return Err(e),
                }
                Ok(inner)
            } else if c == '=' {
                *pos = *pos + 2;
                let inner = match parse_or(s, pos) {
                    Ok(a) => a,
                    Err(e) => return Err(e),
                };
                match close_paren(s, pos) {
                    Ok(_) => {},
                    Err(e) => return Err(e),
                }
                Ok(Ast::Lookahead(Box::new(inner)))
            } else if c == '!' {
                *pos = *pos + 2;
                let inner = match parse_or(s, pos) {
                    Ok(a) => a,
                    Err(e) => return Err(e),
                };
                match close_paren(s, pos) {
                    Ok(_) => {},
                    Err(e) => return Err(e),
                }
                Ok(Ast::Not(Box::new(inner)))
            } else {
                Err(Error::UnexpectedChar(c))
            }
        } else {
            Err(Error::UnexpectedEOS)
        }
    } else {
        let inner = match parse_or(s, pos) {
            Ok(a) => a,
            Err(e) => return Err(e),
        };
        match close_paren(s, pos) {
            Ok(_) => {},
            Err(e) => return Err(e),
        }
        Ok(Ast::Capture(Box::new(inner)))
    }
}

/// A run of terms, stopping where no term can start.
fn parse_concat_items(s: &Vec<char>, pos: &mut usize) -> (r: Result<Vec<Ast>, Error>)
    requires
        *old(pos) <= s@.len(),
    ensures
        *old(pos) <= *final(pos) <= s@.len(),
        ({
            let (sr, sp) = spec_concat_items(s@, *old(pos) as int);
            match r {
                Ok(v) => sr == Ok::<Seq<AstView>, Error>(asts_view(v@)) && *final(pos) as int
                    == sp,
                Err(e) => sr == Err::<Seq<AstView>, Error>(e),
            }
        }),
    decreases s@.len() - *old(pos), 4int,
{
    if *pos >= s.len() {
        let v: Vec<Ast> = Vec::new();
        proof {
            assert(asts_view(v@) =~= Seq::<AstView>::empty());
        }
        return Ok(v);
    }
    let c = s[*pos];
    if is_stop(c) {
        let v: Vec<Ast> = Vec::new();
        proof {
            assert(asts_view(v@) =~= Seq::<AstView>::empty());
        }
        return Ok(v);
    }
    let first = match parse_repeat(s, pos) {
        Ok(a) => a,
        Err(e) => return Err(e),
    };
    let mut rest = match parse_concat_items(s, pos) {
        Ok(v) => v,
        Err(e) => return Err(e),
    };
    let ghost firstv = first;
    let ghost rest0 = rest@;
    rest.insert(0, first);
    proof {
        lemma_asts_view_prepend(rest@, firstv, rest0);
    }
    Ok(rest)
}

/// A concatenation: a run of terms, a single term standing alone.
fn parse_concat(s: &Vec<char>, pos: &mut usize) -> (r: Result<Ast, Error>)
    requires
        *old(pos) <= s@.len(),
    ensures
        *old(pos) <= *final(pos) <= s@.len(),
        ({
            let (sr, sp) = spec_parse_concat(s@, *old(pos) as int);
            match r {
                Ok(a) => sr == Ok::<AstView, Error>(ast_view(a)) && *final(pos) as int == sp,
                Err(e) => sr == Err::<AstView, Error>(e),
            }
        }),
    decreases s@.len() - *old(pos), 5int,
{
    let mut items = match parse_concat_items(s, pos) {
        Ok(v) => v,
        Err(e) => return Err(e),
    };
    if items.len() == 1 {
        Ok(items.remove(0))
    } else {
        Ok(Ast::Concat(items))
    }
}

/// The alternatives of an alternation, in listed order.
fn parse_or_items(s: &Vec<char>, pos: &mut usize) -> (r: Result<Vec<Ast>, Error>)
    requires
        *old(pos) <= s@.len(),
    ensures
        *old(pos) <= *final(pos) <= s@.len(),
        ({
            let (sr, sp) = spec_or_items(s@, *old(pos) as int);
            match r {
                Ok(v) => sr == Ok::<Seq<AstView>, Error>(asts_view(v@)) && *final(pos) as int
                    == sp,
                Err(e) => sr == Err::<Seq<AstView>, Error>(e),
            }
        }),
    decreases s@.len() - *old(pos), 6int,
{
    let first = match parse_concat(s, pos) {
        Ok(a) => a,
        Err(e) => return Err(e),
    };
    if *pos < s.len() && s[*pos] == '|' {
        *pos = *pos + 1;
        let mut rest = match parse_or_items(s, pos) {
            Ok(v) => v,
            Err(e) => return Err(e),
        };
        let ghost rest0 = rest@;
        rest.insert(0, first);
        proof {
            assert(asts_view(rest@) =~= seq![ast_view(rest@[0])] + asts_view(rest0));
        }
        Ok(rest)
    } else {
        let ghost fv = ast_view(first);
        let mut v: Vec<Ast> = Vec::new();
        v.push(first);
        proof {
            assert(asts_view(v@) =~= seq![fv]);
        }
        Ok(v)
    }
}

/// An alternation: alternatives separated by `|`, a single alternative
/// standing alone.
fn parse_or(s: &Vec<char>, pos: &mut usize) -> (r: Result<Ast, Error>)
    requires
        *old(pos) <= s@.len(),
    ensures
        *old(pos) <= *final(pos) <= s@.len(),
        ({
            let (sr, sp) = spec_parse_or(s@, *old(pos) as int);
            match r {
                Ok(a) => sr == Ok::<AstView, Error>(ast_view(a)) && *final(pos) as int == sp,
                Err(e) => sr == Err::<AstView, Error>(e),
            }
        }),
    decreases s@.len() - *old(pos), 7int,
{
    let mut items = match parse_or_items(s, pos) {
        Ok(v) => v,
        Err(e) => return Err(e),
    };
    if items.len() == 0 {
        let empty: Vec<Ast> = Vec::new();
        proof {
            assert(asts_view(empty@) =~= Seq::<AstView>::empty());
        }
        Ok(Ast::Concat(empty))
    } else if items.len() == 1 {
        Ok(items.remove(0))
    } else {
        Ok(Ast::Or(items))
    }
}

/// Compiles a pattern into a tree, or reports the first syntax error.  The
/// result is exactly [`spec_parse`] of the pattern text: the whole pattern
/// must be consumed, and a leftover character is itself an error.
pub fn parse(pattern: &str) -> (r: Result<Ast, Error>)
    ensures
        match r {
            Ok(a) => spec_parse(pattern@) == Ok::<AstView, Error>(ast_view(a)),
            Err(e) => spec_parse(pattern@) == Err::<AstView, Error>(e),
        },
{
    let s = crate::chars_of(pattern);
    let mut pos: usize = 0;
    let res = parse_or(&s, &mut pos);
    match res {
        Ok(a) => {
            if pos < s.len() {
                Err(Error::UnexpectedChar(s[pos]))
            } else {
                Ok(a)
            }
        },
        Err(e) => Err(e),
    }
}

/// Compiling the same pattern text twice yields trees that match
/// identically on every subject at every position: the compiled tree is a
/// function of the pattern text alone.
pub proof fn lemma_compile_idempotent(
    p: Seq<char>,
    a1: AstView,
    a2: AstView,
    s: Seq<char>,
    pos: int,
)
    requires
        spec_parse(p) == Ok::<AstView, Error>(a1),
        spec_parse(p) == Ok::<AstView, Error>(a2),
    ensures
        spec_match(a1, s, pos) == spec_match(a2, s, pos),
{
}

} // verus!
