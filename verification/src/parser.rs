//! The assembler's front end: a tokenizer and S-expression parser over the
//! source text, modeled character by character.
//!
//! The tokenizer's rules: whitespace separates tokens; `(` and `)` are
//! single-character tokens; `"…"` delimits a literal whose inner characters
//! become the token verbatim; `;` starts a comment running up to (not
//! including) the next line break; any other run of characters is an atom.

use vstd::prelude::*;
use crate::sexpr::{SExpr, SExprV, sexprs_view, lemma_sexprs_view_push};

verus! {

/// Relies on `String::push`: it appends exactly the given character.
pub assume_specification[ std::string::String::push ](s: &mut String, c: char)
    ensures
        final(s)@ == old(s)@.push(c),
;

/// Why source text was refused.
#[derive(Debug, Clone, Copy, PartialEq, Eq, Structural)]
pub enum ParseError {
    /// The input ended inside a list.
    UnexpectedEnd,
    /// A token outside any list that is not an opening parenthesis.
    UnexpectedToken,
    /// A nested expression was expected but the input ended.
    ExpectedExpression,
}

/// Scans a string literal's body from `p`: the characters up to the closing
/// quote, and the position after it; `None` when the input ends first.
pub open spec fn tok_scan_string(src: Seq<char>, p: int, acc: Seq<char>) -> Option<
    (Seq<char>, int),
>
    decreases src.len() - p,
{
    if p < 0 || p >= src.len() {
        None
    } else if src[p] == '"' {
        Some((acc, p + 1))
    } else {
        tok_scan_string(src, p + 1, acc.push(src[p]))
    }
}

/// Finds the next line break at or after `p`; `None` when the input ends
/// first.
pub open spec fn tok_skip_comment(src: Seq<char>, p: int) -> Option<int>
    decreases src.len() - p,
{
    if p < 0 || p >= src.len() {
        None
    } else if src[p] == '\n' {
        Some(p)
    } else {
        tok_skip_comment(src, p + 1)
    }
}

/// The next token from position `p` with `acc` already accumulated: the
/// token (or `None` at the end of input, after an unterminated literal, an
/// empty literal, or a comment running to the end) and the position after it.
pub open spec fn tok_next(src: Seq<char>, p: int, acc: Seq<char>) -> (Option<Seq<char>>, int)
    decreases src.len() - p,
{
    if p < 0 || p >= src.len() {
        (
            if acc.len() == 0 {
                Option::None
            } else {
                Option::Some(acc)
            },
            p,
        )
    } else {
        let c = src[p];
        if c == '(' || c == ')' {
            if acc.len() > 0 {
                (Some(acc), p)
            } else {
                (Some(seq![c]), p + 1)
            }
        } else if c == '"' {
            if acc.len() > 0 {
                (Some(acc), p)
            } else {
                match tok_scan_string(src, p + 1, Seq::empty()) {
                    Option::None => (None, src.len() as int),
                    Option::Some((tok, p2)) => (
                        if tok.len() == 0 {
                            Option::None
                        } else {
                            Option::Some(tok)
                        },
                        p2,
                    ),
                }
            }
        } else if c == ';' {
            if acc.len() > 0 {
                (Some(acc), p)
            } else {
                match tok_skip_comment(src, p + 1) {
                    Option::None => (None, src.len() as int),
                    Option::Some(p2) => {
                        if p < p2 < src.len() {
                            tok_next(src, p2, acc)
                        } else {
                            (None, src.len() as int)
                        }
                    },
                }
            }
        } else if c == ' ' || c == '\n' || c == '\r' || c == '\t' {
            if acc.len() > 0 {
                (Some(acc), p)
            } else {
                tok_next(src, p + 1, acc)
            }
        } else {
            tok_next(src, p + 1, acc.push(c))
        }
    }
}

/// Walks the source text, producing tokens.
#[derive(Debug)]
pub struct Parser {
    source: String,
    position: usize,
    length: usize,
}

impl Parser {
    /// The source text.
    pub closed spec fn src(&self) -> Seq<char> {
        self.source@
    }

    /// How many characters have been consumed.
    pub closed spec fn pos(&self) -> nat {
        self.position as nat
    }

    /// The position never points past the end of the text.
    pub closed spec fn wf(&self) -> bool {
        self.position <= self.length && self.length == self.source@.len()
    }

    pub fn new(source: &str) -> (r: Parser)
        ensures
            r.wf(),
            r.src() == source@,
            r.pos() == 0,
    {
        let length = source.unicode_len();
        Parser { source: String::from_str(source), position: 0, length }
    }

    /// Produces the next token, advancing past it.
    pub fn next_token(&mut self) -> (r: Option<String>)
        requires
            old(self).wf(),
        ensures
            final(self).wf(),
            final(self).src() == old(self).src(),
            ({
                let t = tok_next(old(self).src(), old(self).pos() as int, Seq::empty());
                &&& final(self).pos() as int == t.1
                &&& match r {
                    Some(s) => t.0 == Some(s@),
                    None => t.0 is None,
                }
            }),
    {
        let ghost src = self.src();
        let ghost p0 = self.pos() as int;
        let mut token = String::new();
        loop
            invariant_except_break
                tok_next(src, p0, Seq::empty()) == tok_next(
                    src,
                    self.pos() as int,
                    token@,
                ),
            invariant
                self.wf(),
                self.src() == src,
                src == old(self).src(),
                p0 == old(self).pos() as int,
            ensures
                tok_next(src, p0, Seq::empty()) == (
                    (
                        if token@.len() == 0 {
                            Option::<Seq<char>>::None
                        } else {
                            Option::Some(token@)
                        }
                    ),
                    self.pos() as int,
                ),
            decreases src.len() - self.pos(),
        {
            if self.position >= self.length {
                break;
            }
            let c = self.source.as_str().get_char(self.position);
            if c == '(' || c == ')' {
                if !token.as_str().is_empty() {
                    break;
                }
                token.push(c);
                self.position = self.position + 1;
                break;
            } else if c == '"' {
                if !token.as_str().is_empty() {
                    break;
                }
                let ghost branch = self.pos() as int;
                self.position = self.position + 1;
                proof {
                    assert(token@ =~= Seq::<char>::empty());
                }
                loop
                    invariant_except_break
                        self.wf(),
                        self.src() == src,
                        src == old(self).src(),
                        p0 == old(self).pos() as int,
                        branch + 1 <= self.pos() as int,
                        tok_next(src, p0, Seq::empty()) == (match tok_scan_string(
                            src,
                            self.pos() as int,
                            token@,
                        ) {
                            Option::None => (Option::<Seq<char>>::None, src.len() as int),
                            Option::Some((tok, p2)) => (
                                if tok.len() == 0 {
                                    Option::<Seq<char>>::None
                                } else {
                                    Option::Some(tok)
                                },
                                p2,
                            ),
                        }),
                    ensures
                        self.wf(),
                        self.src() == src,
                        tok_next(src, p0, Seq::empty()) == (
                            (
                                if token@.len() == 0 {
                                    Option::<Seq<char>>::None
                                } else {
                                    Option::Some(token@)
                                }
                            ),
                            self.pos() as int,
                        ),
                    decreases src.len() - self.pos(),
                {
                    if self.position >= self.length {
                        return None;
                    }
                    let c2 = self.source.as_str().get_char(self.position);
                    self.position = self.position + 1;
                    if c2 == '"' {
                        break;
                    }
                    token.push(c2);
                }
                break;
            } else if c == ';' {
                if !token.as_str().is_empty() {
                    break;
                }
                let ghost branch = self.pos() as int;
                self.position = self.position + 1;
                proof {
                    assert(token@ =~= Seq::<char>::empty());
                }
                loop
                    invariant_except_break
                        self.wf(),
                        self.src() == src,
                        src == old(self).src(),
                        p0 == old(self).pos() as int,
                        token@ == Seq::<char>::empty(),
                        branch + 1 <= self.pos() as int,
                        tok_skip_comment(src, branch + 1) == tok_skip_comment(
                            src,
                            self.pos() as int,
                        ),
                        tok_next(src, p0, Seq::empty()) == (match tok_skip_comment(
                            src,
                            branch + 1,
                        ) {
                            Option::None => (Option::<Seq<char>>::None, src.len() as int),
                            Option::Some(p2) => {
                                if branch < p2 < src.len() {
                                    tok_next(src, p2, Seq::empty())
                                } else {
                                    (Option::<Seq<char>>::None, src.len() as int)
                                }
                            },
                        }),
                    ensures
                        self.wf(),
                        self.src() == src,
                        token@ == Seq::<char>::empty(),
                        branch + 1 <= self.pos() as int,
                        tok_next(src, p0, Seq::empty()) == tok_next(
                            src,
                            self.pos() as int,
                            token@,
                        ),
                    decreases src.len() - self.pos(),
                {
                    if self.position >= self.length {
                        return None;
                    }
                    let c2 = self.source.as_str().get_char(self.position);
                    if c2 == '\n' {
                        proof {
                            assert(tok_skip_comment(src, self.pos() as int) == Some(
                                self.pos() as int,
                            ));
                        }
                        break;
                    }
                    self.position = self.position + 1;
                }
            } else if c == ' ' || c == '\n' || c == '\r' || c == '\t' {
                if !token.as_str().is_empty() {
                    break;
                }
                self.position = self.position + 1;
            } else {
                token.push(c);
                self.position = self.position + 1;
            }
        }
        if token.as_str().is_empty() {
            None
        } else {
            Some(token)
        }
    }
}

/// The tokenizer never moves backwards.
proof fn lemma_tok_ge(src: Seq<char>, p: int, acc: Seq<char>)
    requires
        p >= 0,
    ensures
        tok_next(src, p, acc).1 >= p,
    decreases src.len() - p,
{
    if p < src.len() {
        let c = src[p];
        if c == '(' || c == ')' {
        } else if c == '"' {
            if acc.len() == 0 {
                lemma_scan_ge(src, p + 1, Seq::empty());
            }
        } else if c == ';' {
            if acc.len() == 0 {
                match tok_skip_comment(src, p + 1) {
                    Option::None => {},
                    Option::Some(p2) => {
                        if p < p2 < src.len() {
                            lemma_tok_ge(src, p2, acc);
                        }
                    },
                }
            }
        } else if c == ' ' || c == '\n' || c == '\r' || c == '\t' {
            if acc.len() == 0 {
                lemma_tok_ge(src, p + 1, acc);
            }
        } else {
            lemma_tok_ge(src, p + 1, acc.push(c));
        }
    }
}

/// From a fresh start, producing a token consumes at least one character.
proof fn lemma_tok_progress(src: Seq<char>, p: int)
    requires
        p >= 0,
        tok_next(src, p, Seq::empty()).0 is Some,
    ensures
        tok_next(src, p, Seq::empty()).1 > p,
    decreases src.len() - p,
{
    if p < src.len() {
        let c = src[p];
        if c == '(' || c == ')' {
        } else if c == '"' {
            lemma_scan_ge(src, p + 1, Seq::empty());
        } else if c == ';' {
            match tok_skip_comment(src, p + 1) {
                Option::None => {},
                Option::Some(p2) => {
                    if p < p2 < src.len() {
                        lemma_tok_progress(src, p2);
                    }
                },
            }
        } else if c == ' ' || c == '\n' || c == '\r' || c == '\t' {
            lemma_tok_progress(src, p + 1);
        } else {
            lemma_tok_ge(src, p + 1, Seq::empty().push(c));
        }
    }
}

/// A scanned literal ends past where it began.
proof fn lemma_scan_ge(src: Seq<char>, p: int, acc: Seq<char>)
    requires
        p >= 0,
    ensures
        tok_scan_string(src, p, acc) matches Some((tok, p2)) ==> p2 > p,
    decreases src.len() - p,
{
    if 0 <= p < src.len() && src[p] != '"' {
        lemma_scan_ge(src, p + 1, acc.push(src[p]));
    }
}

/// One parsed expression from position `p`: `Ok((None, ..))` at the end of
/// input, an error on a top-level token other than `(`, else the list read up
/// to its closing parenthesis.
pub open spec fn parse_sx(src: Seq<char>, p: int) -> Result<(Option<SExprV>, int), ParseError>
    decreases src.len() - p, 0int,
{
    let t = tok_next(src, p, Seq::empty());
    match t.0 {
        Option::None => Ok((None, t.1)),
        Option::Some(tok) => {
            if tok == seq!['('] {
                if p < t.1 && t.1 <= src.len() {
                    match parse_list(src, t.1, Seq::empty()) {
                        Err(e) => Err(e),
                        Ok((items, p2)) => Ok((Some(SExprV::List(items)), p2)),
                    }
                } else {
                    Err(ParseError::UnexpectedToken)
                }
            } else {
                Err(ParseError::UnexpectedToken)
            }
        },
    }
}

/// The elements of a list being parsed, from after its opening parenthesis
/// to its closing one.
pub open spec fn parse_list(src: Seq<char>, p: int, acc: Seq<SExprV>) -> Result<
    (Seq<SExprV>, int),
    ParseError,
>
    decreases src.len() - p, 1int,
{
    let t = tok_next(src, p, Seq::empty());
    match t.0 {
        Option::None => Err(ParseError::UnexpectedEnd),
        Option::Some(tok) => {
            if tok == seq![')'] {
                Ok((acc, t.1))
            } else if tok == seq!['('] {
                if p + 1 <= t.1 && t.1 <= src.len() + 1 {
                    match parse_sx(src, t.1 - 1) {
                        Err(e) => Err(e),
                        Ok((Option::None, _)) => Err(ParseError::ExpectedExpression),
                        Ok((Option::Some(x), p2)) => {
                            if p < p2 <= src.len() {
                                parse_list(src, p2, acc.push(x))
                            } else {
                                Err(ParseError::UnexpectedToken)
                            }
                        },
                    }
                } else {
                    Err(ParseError::UnexpectedToken)
                }
            } else {
                if p < t.1 <= src.len() {
                    parse_list(src, t.1, acc.push(SExprV::Atom(tok)))
                } else {
                    Err(ParseError::UnexpectedToken)
                }
            }
        },
    }
}

/// A parsed expression ends past where it began.
proof fn lemma_parse_progress(src: Seq<char>, p: int)
    requires
        p >= 0,
    ensures
        parse_sx(src, p) matches Ok((Some(x), p2)) ==> p2 > p,
        parse_sx(src, p) matches Ok((opt, p2)) ==> p2 >= p,
    decreases src.len() - p, 0int,
{
    let t = tok_next(src, p, Seq::empty());
    lemma_tok_ge(src, p, Seq::empty());
    if t.0 is Some {
        lemma_tok_progress(src, p);
        if t.0->0 == seq!['('] && p < t.1 && t.1 <= src.len() {
            lemma_parse_list_progress(src, t.1, Seq::empty());
        }
    }
}

/// A parsed list ends past where it began.
proof fn lemma_parse_list_progress(src: Seq<char>, p: int, acc: Seq<SExprV>)
    requires
        p >= 0,
    ensures
        parse_list(src, p, acc) matches Ok((items, p2)) ==> p2 > p,
    decreases src.len() - p, 1int,
{
    let t = tok_next(src, p, Seq::empty());
    lemma_tok_ge(src, p, Seq::empty());
    if t.0 is Some {
        lemma_tok_progress(src, p);
        let tok = t.0->0;
        if tok == seq![')'] {
        } else if tok == seq!['('] {
            if p + 1 <= t.1 && t.1 <= src.len() + 1 {
                lemma_parse_progress(src, t.1 - 1);
                match parse_sx(src, t.1 - 1) {
                    Err(_) => {},
                    Ok((Option::None, _)) => {},
                    Ok((Option::Some(x), p2)) => {
                        if p < p2 <= src.len() {
                            lemma_parse_list_progress(src, p2, acc.push(x));
                        }
                    },
                }
            }
        } else {
            if p < t.1 <= src.len() {
                lemma_parse_list_progress(src, t.1, acc.push(SExprV::Atom(tok)));
            }
        }
    }
}

impl Parser {
    /// Parses one S-expression; `Ok(None)` at the end of the input.
    pub fn parse_sexp(&mut self) -> (r: Result<Option<SExpr>, ParseError>)
        requires
            old(self).wf(),
        ensures
            final(self).wf(),
            final(self).src() == old(self).src(),
            ({
                match parse_sx(old(self).src(), old(self).pos() as int) {
                    Ok((opt, p2)) => {
                        &&& final(self).pos() as int == p2
                        &&& match (r, opt) {
                            (Ok(Option::None), Option::None) => true,
                            (Ok(Option::Some(x)), Option::Some(xv)) => x@ == xv,
                            _ => false,
                        }
                    },
                    Err(e) => r == Err::<Option<SExpr>, ParseError>(e),
                }
            }),
        decreases old(self).src().len() - old(self).pos(), 0int,
    {
        let ghost src = self.src();
        let ghost p0 = self.pos() as int;
        let token = match self.next_token() {
            None => {
                return Ok(None);
            },
            Some(t) => t,
        };
        proof {
            reveal_strlit("(");
            reveal_strlit(")");
            assert("("@ =~= seq!['(']);
            assert(")"@ =~= seq![')']);
            lemma_tok_progress(src, p0);
        }
        if !crate::module::string_eq(&token, "(") {
            return Err(ParseError::UnexpectedToken);
        }
        let ghost lp = self.pos() as int;
        let mut args: Vec<SExpr> = Vec::new();
        proof {
            assert(sexprs_view(args@) =~= Seq::<SExprV>::empty());
        }
        loop
            invariant_except_break
                self.wf(),
                self.src() == src,
                src == old(self).src(),
                p0 == old(self).pos() as int,
                lp >= p0 + 1,
                lp <= self.pos() as int,
                parse_list(src, lp, Seq::empty()) == parse_list(
                    src,
                    self.pos() as int,
                    sexprs_view(args@),
                ),
            invariant
                tok_next(src, p0, Seq::empty()).0 == Some(seq!['(']),
                tok_next(src, p0, Seq::empty()).1 == lp,
                p0 < lp <= src.len(),
            ensures
                self.wf(),
                self.src() == src,
                parse_list(src, lp, Seq::empty()) matches Ok((items, p2)) && items == sexprs_view(
                    args@,
                ) && p2 == self.pos() as int,
            decreases src.len() - self.pos(),
        {
            let ghost cur = self.pos() as int;
            proof {
                reveal_strlit("(");
                reveal_strlit(")");
                assert("("@ =~= seq!['(']);
                assert(")"@ =~= seq![')']);
                lemma_tok_ge(src, cur, Seq::empty());
                lemma_tok_progress_if(src, cur);
            }
            let token = match self.next_token() {
                None => {
                    return Err(ParseError::UnexpectedEnd);
                },
                Some(t) => t,
            };
            if crate::module::string_eq(&token, ")") {
                break;
            }
            if crate::module::string_eq(&token, "(") {
                self.unread();
                proof {
                    lemma_parse_progress(src, self.pos() as int);
                }
                let inner = match self.parse_sexp() {
                    Err(e) => {
                        return Err(e);
                    },
                    Ok(Option::None) => {
                        return Err(ParseError::ExpectedExpression);
                    },
                    Ok(Option::Some(x)) => x,
                };
                proof {
                    lemma_sexprs_view_push(args@, inner);
                }
                args.push(inner);
            } else {
                proof {
                    lemma_sexprs_view_push(args@, SExpr::Atom(token));
                }
                args.push(SExpr::Atom(token));
            }
        }
        Ok(Some(SExpr::List(args)))
    }

    /// Steps one character back, onto the opening parenthesis just consumed.
    fn unread(&mut self)
        requires
            old(self).wf(),
            old(self).pos() >= 1,
        ensures
            final(self).wf(),
            final(self).src() == old(self).src(),
            final(self).pos() == old(self).pos() - 1,
    {
        self.position = self.position - 1;
    }

    /// Parses the whole source as a sequence of S-expressions.
    pub fn parse(&mut self) -> (r: Result<Vec<SExpr>, ParseError>)
        requires
            old(self).wf(),
        ensures
            ({
                match parse_all(old(self).src(), old(self).pos() as int, Seq::empty()) {
                    Ok(items) => r matches Ok(v) && sexprs_view(v@) == items,
                    Err(e) => r == Err::<Vec<SExpr>, ParseError>(e),
                }
            }),
    {
        let ghost src = self.src();
        let ghost p0 = self.pos() as int;
        let mut out: Vec<SExpr> = Vec::new();
        proof {
            assert(sexprs_view(out@) =~= Seq::<SExprV>::empty());
        }
        loop
            invariant
                self.wf(),
                self.src() == src,
                src == old(self).src(),
                p0 == old(self).pos() as int,
                self.pos() as int >= 0,
                ({
                    match parse_all(src, self.pos() as int, sexprs_view(out@)) {
                        Ok(items) => parse_all(src, p0, Seq::empty()) == Ok::<
                            Seq<SExprV>,
                            ParseError,
                        >(items),
                        Err(e) => parse_all(src, p0, Seq::empty()) == Err::<
                            Seq<SExprV>,
                            ParseError,
                        >(e),
                    }
                }),
            decreases src.len() - self.pos(),
        {
            let ghost cur = self.pos() as int;
            proof {
                lemma_parse_progress(src, cur);
            }
            match self.parse_sexp() {
                Err(e) => {
                    return Err(e);
                },
                Ok(Option::None) => {
                    return Ok(out);
                },
                Ok(Option::Some(x)) => {
                    proof {
                        lemma_sexprs_view_push(out@, x);
                    }
                    out.push(x);
                },
            }
        }
    }
}

/// Every expression from `p` to the end of the input, in order.
pub open spec fn parse_all(src: Seq<char>, p: int, acc: Seq<SExprV>) -> Result<
    Seq<SExprV>,
    ParseError,
>
    decreases src.len() - p, 2int,
{
    match parse_sx(src, p) {
        Err(e) => Err(e),
        Ok((Option::None, _)) => Ok(acc),
        Ok((Option::Some(x), p2)) => {
            if p < p2 <= src.len() {
                parse_all(src, p2, acc.push(x))
            } else {
                Err(ParseError::UnexpectedToken)
            }
        },
    }
}

/// `lemma_tok_progress`, usable where the token may be absent.
proof fn lemma_tok_progress_if(src: Seq<char>, p: int)
    requires
        p >= 0,
    ensures
        tok_next(src, p, Seq::empty()).0 is Some ==> tok_next(src, p, Seq::empty()).1 > p,
{
    if tok_next(src, p, Seq::empty()).0 is Some {
        lemma_tok_progress(src, p);
    }
}

} // verus!
