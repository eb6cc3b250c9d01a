//! The reader: consumes a token sequence, produces one syntax tree node and
//! the position of the first unconsumed token.
//!
//! Atom classification tries the unsigned 64-bit integer form first, then
//! the floating-point grammar, and falls back to a symbol.

use vstd::prelude::*;
use vstd::string::*;
use crate::ast::{Ast, AstS, ast_view, asts_view, lemma_asts_view_push};
use crate::numbers::{is_u64_token, u64_token_digits, digits_val, f64_parse, parse_u64,
    float_from_token};
use crate::tokenizer::{strs_view, tokens_of, tokenize};
use crate::values::Error;

verus! {

pub open spec fn is_lparen_tok(t: Seq<char>) -> bool {
    t.len() == 1 && t[0] == '('
}

pub open spec fn is_rparen_tok(t: Seq<char>) -> bool {
    t.len() == 1 && t[0] == ')'
}

/// What atom classification makes of a token.
pub open spec fn atom_s(t: Seq<char>) -> AstS {
    if is_u64_token(t) {
        AstS::Int(digits_val(u64_token_digits(t)) as u64)
    } else {
        match f64_parse(t) {
            Option::Some(b) => AstS::Float(b),
            Option::None => AstS::Sym(t),
        }
    }
}

/// Read one form starting at `pos`: its tree and the next unread position.
pub open spec fn read_s(toks: Seq<Seq<char>>, pos: int) -> Result<(AstS, int), Error>
    decreases toks.len() - pos, 0nat,
{
    if !(0 <= pos < toks.len()) {
        Result::Err(Error::UnexpectedEof)
    } else {
        let t = toks[pos];
        if is_lparen_tok(t) {
            match read_list_s(toks, pos + 1) {
                Result::Ok(pr) => Result::Ok((AstS::List(pr.0), pr.1)),
                Result::Err(e) => Result::Err(e),
            }
        } else if is_rparen_tok(t) {
            Result::Err(Error::UnexpectedClose)
        } else {
            Result::Ok((atom_s(t), pos + 1))
        }
    }
}

/// Read child forms up to and through the matching `)`.
pub open spec fn read_list_s(toks: Seq<Seq<char>>, pos: int) -> Result<(Seq<AstS>, int), Error>
    decreases toks.len() - pos, 1nat,
{
    if !(0 <= pos < toks.len()) {
        Result::Err(Error::SyntaxError)
    } else if is_rparen_tok(toks[pos]) {
        Result::Ok((Seq::empty(), pos + 1))
    } else {
        match read_s(toks, pos) {
            Result::Ok(pr) => if pr.1 <= pos || pr.1 > toks.len() {
                Result::Err(Error::SyntaxError)
            } else {
                match read_list_s(toks, pr.1) {
                    Result::Ok(pr2) => Result::Ok((seq![pr.0] + pr2.0, pr2.1)),
                    Result::Err(e) => Result::Err(e),
                }
            },
            Result::Err(e) => Result::Err(e),
        }
    }
}

/// Prefixing already-read children onto the rest of a child list read.
pub open spec fn prepend_read(s: Seq<AstS>, r: Result<(Seq<AstS>, int), Error>) -> Result<
    (Seq<AstS>, int),
    Error,
> {
    match r {
        Result::Ok(pr) => Result::Ok((s + pr.0, pr.1)),
        Result::Err(e) => Result::Err(e),
    }
}

proof fn lemma_prepend_assoc(a: Seq<AstS>, b: Seq<AstS>, r: Result<(Seq<AstS>, int), Error>)
    ensures
        prepend_read(a, prepend_read(b, r)) == prepend_read(a + b, r),
{
    match r {
        Result::Ok(pr) => {
            assert(a + (b + pr.0) =~= (a + b) + pr.0);
        },
        Result::Err(_) => {},
    }
}

fn tok_is_char(t: &str, c: char) -> (r: bool)
    ensures
        r == (t@.len() == 1 && t@[0] == c),
{
    t.unicode_len() == 1 && t.get_char(0) == c
}

/// Classify one non-parenthesis token as a literal or a symbol.
pub fn atom(token: &str) -> (r: Ast)
    ensures
        ast_view(r) == atom_s(token@),
{
    match parse_u64(token) {
        Option::Some(i) => Ast::Integer(i),
        Option::None => match float_from_token(token) {
            Option::Some(b) => Ast::Float(b),
            Option::None => Ast::Symbol(String::from_str(token)),
        },
    }
}

/// Read one form out of `tokens`, starting at `pos`; on success the
/// returned position is past the form and strictly beyond `pos`.
pub fn read_from_tokens(tokens: &Vec<String>, pos: usize) -> (r: Result<(Ast, usize), Error>)
    ensures
        ({
            let sr = read_s(strs_view(tokens@), pos as int);
            match r {
                Result::Ok(pr) => sr matches Result::Ok(spr) && ast_view(pr.0) == spr.0 && pr.1
                    == spr.1 && pos < pr.1 <= tokens@.len(),
                Result::Err(e) => sr == Result::<(AstS, int), Error>::Err(e),
            }
        }),
    decreases tokens@.len() - pos, 0nat,
{
    let ghost toks: Seq<Seq<char>> = strs_view(tokens@);
    let n: usize = tokens.len();
    if pos >= n {
        return Result::Err(Error::UnexpectedEof);
    }
    let t: &String = &tokens[pos];
    proof {
        assert(toks[pos as int] == t@);
    }
    if tok_is_char(t.as_str(), '(') {
        let mut items: Vec<Ast> = Vec::new();
        let mut p: usize = pos + 1;
        proof {
            assert(asts_view(items@) =~= Seq::<AstS>::empty());
            assert(prepend_read(asts_view(items@), read_list_s(toks, p as int)) == read_list_s(
                toks,
                pos + 1,
            ));
        }
        loop
            invariant
                pos < p <= n,
                n == tokens@.len(),
                toks == strs_view(tokens@),
                read_list_s(toks, pos + 1) == prepend_read(
                    asts_view(items@),
                    read_list_s(toks, p as int),
                ),
                is_lparen_tok(toks[pos as int]),
                0 <= pos < n,
            decreases n - p,
        {
            if p >= n {
                return Result::Err(Error::SyntaxError);
            }
            let tp: &String = &tokens[p];
            proof {
                assert(toks[p as int] == tp@);
            }
            if tok_is_char(tp.as_str(), ')') {
                proof {
                    assert(read_list_s(toks, p as int) == Result::<(Seq<AstS>, int), Error>::Ok(
                        (Seq::empty(), p + 1),
                    ));
                    assert(asts_view(items@) + Seq::<AstS>::empty() =~= asts_view(items@));
                    assert(read_list_s(toks, pos + 1) == Result::<(Seq<AstS>, int), Error>::Ok(
                        (asts_view(items@), p + 1),
                    ));
                }
                return Result::Ok((Ast::Children(items), p + 1));
            }
            match read_from_tokens(tokens, p) {
                Result::Ok(pr) => {
                    let (a, p2): (Ast, usize) = pr;
                    proof {
                        let sa = ast_view(a);
                        assert(read_list_s(toks, p as int) == prepend_read(
                            seq![sa],
                            read_list_s(toks, p2 as int),
                        ));
                        lemma_prepend_assoc(
                            asts_view(items@),
                            seq![sa],
                            read_list_s(toks, p2 as int),
                        );
                        lemma_asts_view_push(items@, a);
                        assert(asts_view(items@).push(sa) =~= asts_view(items@) + seq![sa]);
                    }
                    items.push(a);
                    p = p2;
                },
                Result::Err(e) => {
                    return Result::Err(e);
                },
            }
        }
    } else if tok_is_char(t.as_str(), ')') {
        Result::Err(Error::UnexpectedClose)
    } else {
        let a: Ast = atom(t.as_str());
        Result::Ok((a, pos + 1))
    }
}

/// Parse the first form of a program text: the tokens are produced by the
/// tokenizer, one form is read, and the unconsumed tokens are returned
/// beside it.
pub fn parse(program: &str) -> (r: Result<(Ast, Vec<String>), Error>)
    ensures
        ({
            let sr = read_s(tokens_of(program@), 0);
            match r {
                Result::Ok(pr) => sr matches Result::Ok(spr) && ast_view(pr.0) == spr.0
                    && strs_view(pr.1@) == tokens_of(program@).skip(spr.1),
                Result::Err(e) => sr == Result::<(AstS, int), Error>::Err(e),
            }
        }),
{
    let tokens: Vec<String> = tokenize(program);
    match read_from_tokens(&tokens, 0) {
        Result::Ok(pr) => {
            let (a, p): (Ast, usize) = pr;
            let mut remain: Vec<String> = Vec::new();
            let mut i: usize = p;
            while i < tokens.len()
                invariant
                    p <= i <= tokens@.len(),
                    strs_view(remain@) =~= strs_view(tokens@).subrange(p as int, i as int),
                decreases tokens@.len() - i,
            {
                let ghost r0: Seq<String> = remain@;
                let c: String = tokens[i].clone();
                remain.push(c);
                proof {
                    assert(strs_view(r0).len() == r0.len());
                    assert forall|k: int| 0 <= k < remain@.len() implies strs_view(remain@)[k]
                        == strs_view(tokens@).subrange(p as int, i as int + 1)[k] by {
                        if k < r0.len() {
                            assert(remain@[k] == r0[k]);
                            assert(strs_view(r0)[k] == strs_view(tokens@).subrange(
                                p as int,
                                i as int,
                            )[k]);
                        } else {
                            assert(remain@[k] == c);
                        }
                    }
                    assert(strs_view(remain@) =~= strs_view(tokens@).subrange(
                        p as int,
                        i as int + 1,
                    ));
                }
                i = i + 1;
            }
            proof {
                assert(strs_view(tokens@).subrange(p as int, tokens@.len() as int) =~= strs_view(
                    tokens@,
                ).skip(p as int));
            }
            Result::Ok((a, remain))
        },
        Result::Err(e) => Result::Err(e),
    }
}

} // verus!
