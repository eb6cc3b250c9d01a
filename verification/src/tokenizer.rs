//! Splits raw program text into parenthesis and atom tokens.
//!
//! Parentheses always form their own single-character tokens; any other
//! maximal run of non-whitespace characters forms an atom token.
//! Whitespace means the Unicode `White_Space` set, the separators that
//! `str::split_whitespace` splits on.

use vstd::prelude::*;
use vstd::string::*;

verus! {

/// Whitespace characters that separate atoms in program text: the Unicode
/// `White_Space` set.
pub open spec fn is_space_char(c: char) -> bool {
    c == ' ' || c == '\t' || c == '\n' || c == '\r' || c == '\u{000B}' || c == '\u{000C}' || c
        == '\u{0085}' || c == '\u{00A0}' || c == '\u{1680}' || (0x2000 <= c as u32 && c as u32
        <= 0x200A) || c == '\u{2028}' || c == '\u{2029}' || c == '\u{202F}' || c == '\u{205F}' || c
        == '\u{3000}'
}

pub open spec fn is_paren_char(c: char) -> bool {
    c == '(' || c == ')'
}

/// A pending partial atom becomes a token once it is non-empty.
pub open spec fn flush_token(cur: Seq<char>) -> Seq<Seq<char>> {
    if cur.len() == 0 {
        Seq::empty()
    } else {
        seq![cur]
    }
}

/// The tokens of `s`, given that the characters `cur` of the current atom
/// have already been read.
pub open spec fn tokens_from(s: Seq<char>, cur: Seq<char>) -> Seq<Seq<char>>
    decreases s.len(),
{
    if s.len() == 0 {
        flush_token(cur)
    } else {
        let c = s[0];
        let rest = s.drop_first();
        if is_paren_char(c) {
            flush_token(cur) + seq![seq![c]] + tokens_from(rest, Seq::empty())
        } else if is_space_char(c) {
            flush_token(cur) + tokens_from(rest, Seq::empty())
        } else {
            tokens_from(rest, cur.push(c))
        }
    }
}

/// The token sequence of a whole program text.
pub open spec fn tokens_of(s: Seq<char>) -> Seq<Seq<char>> {
    tokens_from(s, Seq::empty())
}

/// The views of a sequence of token strings.
pub open spec fn strs_view(s: Seq<String>) -> Seq<Seq<char>> {
    s.map_values(|t: String| t@)
}

/// Relies on `String::push` from std: appends one character to the string.
#[verifier::external_body]
fn push_char(s: &mut String, c: char)
    ensures
        final(s)@ == old(s)@.push(c),
{
    s.push(c)
}

fn is_space(c: char) -> (r: bool)
    ensures
        r == is_space_char(c),
{
    c == ' ' || c == '\t' || c == '\n' || c == '\r' || c == '\u{000B}' || c == '\u{000C}' || c
        == '\u{0085}' || c == '\u{00A0}' || c == '\u{1680}' || (0x2000 <= c as u32 && c as u32
        <= 0x200A) || c == '\u{2028}' || c == '\u{2029}' || c == '\u{202F}' || c == '\u{205F}' || c
        == '\u{3000}'
}

fn is_paren(c: char) -> (r: bool)
    ensures
        r == is_paren_char(c),
{
    c == '(' || c == ')'
}

proof fn lemma_strs_view_push(s: Seq<String>, t: String)
    ensures
        strs_view(s.push(t)) =~= strs_view(s) + seq![t@],
{
}

/// One character of input advances a tokenizer run by one step.
proof fn lemma_tokens_step(s: Seq<char>, i: int, cur: Seq<char>)
    requires
        0 <= i < s.len(),
    ensures
        is_paren_char(s[i]) ==> tokens_from(s.skip(i), cur) == flush_token(cur) + seq![
            seq![s[i]],
        ] + tokens_from(s.skip(i + 1), Seq::empty()),
        !is_paren_char(s[i]) && is_space_char(s[i]) ==> tokens_from(s.skip(i), cur)
            == flush_token(cur) + tokens_from(s.skip(i + 1), Seq::empty()),
        !is_paren_char(s[i]) && !is_space_char(s[i]) ==> tokens_from(s.skip(i), cur)
            == tokens_from(s.skip(i + 1), cur.push(s[i])),
{
    assert(s.skip(i).len() == s.len() - i);
    assert(s.skip(i)[0] == s[i]);
    assert(s.skip(i).drop_first() =~= s.skip(i + 1));
}

/// Split program text into parenthesis tokens and whitespace-delimited atoms.
pub fn tokenize(program: &str) -> (r: Vec<String>)
    ensures
        strs_view(r@) == tokens_of(program@),
{
    let ghost text: Seq<char> = program@;
    let n: usize = program.unicode_len();
    let mut out: Vec<String> = Vec::new();
    let mut cur: String = String::new();
    let mut i: usize = 0;
    proof {
        assert(text.skip(0) =~= text);
        assert(strs_view(out@) + tokens_from(text.skip(0), cur@) =~= tokens_of(text));
    }
    while i < n
        invariant
            i <= n,
            n == text.len(),
            program@ == text,
            strs_view(out@) + tokens_from(text.skip(i as int), cur@) == tokens_of(text),
        decreases n - i,
    {
        let c: char = program.get_char(i);
        let ghost out0: Seq<String> = out@;
        let ghost cur0: Seq<char> = cur@;
        proof {
            lemma_tokens_step(text, i as int, cur0);
        }
        if is_paren(c) {
            if cur.as_str().unicode_len() > 0 {
                let ghost o1: Seq<String> = out@;
                proof {
                    lemma_strs_view_push(o1, cur);
                }
                out.push(cur);
                cur = String::new();
            }
            let mut ptok: String = String::new();
            push_char(&mut ptok, c);
            proof {
                lemma_strs_view_push(out@, ptok);
            }
            out.push(ptok);
            proof {
                assert(cur@ =~= Seq::<char>::empty());
                assert(strs_view(out@) =~= strs_view(out0) + flush_token(cur0) + seq![seq![c]]);
                assert(strs_view(out@) + tokens_from(text.skip(i + 1), cur@) =~= strs_view(out0)
                    + tokens_from(text.skip(i as int), cur0));
            }
        } else if is_space(c) {
            if cur.as_str().unicode_len() > 0 {
                let ghost o1: Seq<String> = out@;
                proof {
                    lemma_strs_view_push(o1, cur);
                }
                out.push(cur);
                cur = String::new();
            }
            proof {
                assert(cur@ =~= Seq::<char>::empty());
                assert(strs_view(out@) =~= strs_view(out0) + flush_token(cur0));
                assert(strs_view(out@) + tokens_from(text.skip(i + 1), cur@) =~= strs_view(out0)
                    + tokens_from(text.skip(i as int), cur0));
            }
        } else {
            push_char(&mut cur, c);
            proof {
                assert(strs_view(out@) + tokens_from(text.skip(i + 1), cur@) =~= strs_view(out0)
                    + tokens_from(text.skip(i as int), cur0));
            }
        }
        i = i + 1;
    }
    proof {
        assert(text.skip(n as int) =~= Seq::<char>::empty());
        assert(tokens_from(text.skip(n as int), cur@) == flush_token(cur@));
    }
    if cur.as_str().unicode_len() > 0 {
        let ghost o1: Seq<String> = out@;
        proof {
            lemma_strs_view_push(o1, cur);
        }
        out.push(cur);
    }
    proof {
        assert(strs_view(out@) =~= tokens_of(text));
    }
    out
}

} // verus!
