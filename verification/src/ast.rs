//! Syntax-tree nodes produced by the reader, and their mathematical model.
//!
//! A float literal is carried as its IEEE-754 double precision bit pattern.

use vstd::prelude::*;

verus! {

/// One parsed form: a literal, a name, or a parenthesized sequence of forms.
#[derive(Debug, PartialEq)]
pub enum Ast {
    Integer(u64),
    Float(u64),
    Symbol(String),
    Children(Vec<Ast>),
}

/// The mathematical model of a syntax-tree node.
pub ghost enum AstS {
    Int(u64),
    Float(u64),
    Sym(Seq<char>),
    List(Seq<AstS>),
}

/// The model of a node.
pub open spec fn ast_view(a: Ast) -> AstS
    decreases a,
{
    match a {
        Ast::Integer(i) => AstS::Int(i),
        Ast::Float(b) => AstS::Float(b),
        Ast::Symbol(s) => AstS::Sym(s@),
        Ast::Children(v) => AstS::List(asts_view(v@)),
    }
}

/// The models of a sequence of nodes.
pub open spec fn asts_view(s: Seq<Ast>) -> Seq<AstS>
    decreases s,
{
    if s.len() == 0 {
        Seq::empty()
    } else {
        seq![ast_view(s[0])] + asts_view(s.subrange(1, s.len() as int))
    }
}

/// The number of nodes in a tree; the termination measure of evaluation
/// within one closure call.
pub open spec fn ast_size(a: AstS) -> nat
    decreases a,
{
    match a {
        AstS::List(cs) => 1 + asts_size(cs),
        _ => 1,
    }
}

pub open spec fn asts_size(s: Seq<AstS>) -> nat
    decreases s,
{
    if s.len() == 0 {
        0
    } else {
        ast_size(s[0]) + asts_size(s.subrange(1, s.len() as int))
    }
}

/// An element never outweighs the whole sequence.
pub proof fn lemma_asts_size_index(s: Seq<AstS>, i: int)
    requires
        0 <= i < s.len(),
    ensures
        ast_size(s[i]) <= asts_size(s),
    decreases i,
{
    if i > 0 {
        let rest = s.subrange(1, s.len() as int);
        lemma_asts_size_index(rest, i - 1);
        assert(rest[i - 1] == s[i]);
    }
}

/// Index and length laws for `asts_view`.
pub proof fn lemma_asts_view(s: Seq<Ast>)
    ensures
        asts_view(s).len() == s.len(),
        forall|i: int| 0 <= i < s.len() ==> asts_view(s)[i] == ast_view(#[trigger] s[i]),
    decreases s.len(),
{
    if s.len() > 0 {
        let rest = s.subrange(1, s.len() as int);
        lemma_asts_view(rest);
        assert forall|i: int| 0 <= i < s.len() implies asts_view(s)[i] == ast_view(
            #[trigger] s[i],
        ) by {
            if i > 0 {
                assert(asts_view(s)[i] == asts_view(rest)[i - 1]);
                assert(rest[i - 1] == s[i]);
            }
        }
    }
}

/// Appending a node appends its model.
pub proof fn lemma_asts_view_push(s: Seq<Ast>, a: Ast)
    ensures
        asts_view(s.push(a)) == asts_view(s).push(ast_view(a)),
{
    lemma_asts_view(s.push(a));
    lemma_asts_view(s);
    let lhs = asts_view(s.push(a));
    let rhs = asts_view(s).push(ast_view(a));
    assert forall|i: int| 0 <= i < lhs.len() implies lhs[i] == rhs[i] by {
        if i < s.len() {
            assert(s.push(a)[i] == s[i]);
            assert(lhs[i] == ast_view(s[i]));
        } else {
            assert(s.push(a)[i] == a);
        }
    }
    assert(lhs =~= rhs);
}

impl Ast {
    /// A structurally equal copy of the node.
    pub fn duplicate(&self) -> (r: Ast)
        ensures
            ast_view(r) == ast_view(*self),
        decreases *self,
    {
        match self {
            Ast::Integer(i) => Ast::Integer(*i),
            Ast::Float(b) => Ast::Float(*b),
            Ast::Symbol(s) => Ast::Symbol(s.clone()),
            Ast::Children(v) => {
                let mut out: Vec<Ast> = Vec::new();
                let n: usize = v.len();
                let mut i: usize = 0;
                while i < n
                    invariant
                        i <= n,
                        n == v@.len(),
                        *self == Ast::Children(*v),
                        asts_view(out@) == asts_view(v@.subrange(0, i as int)),
                    decreases n - i,
                {
                    proof {
                        assert(decreases_to!(*self => (*self)->Children_0));
                        assert((*self)->Children_0 == *v);
                        assert(decreases_to!(*v => v@));
                        assert(decreases_to!(v@ => v@[i as int]));
                    }
                    let c: Ast = v[i].duplicate();
                    proof {
                        lemma_asts_view_push(out@, c);
                        lemma_asts_view_push(v@.subrange(0, i as int), v@[i as int]);
                        assert(v@.subrange(0, i as int).push(v@[i as int]) =~= v@.subrange(
                            0,
                            i as int + 1,
                        ));
                    }
                    out.push(c);
                    i = i + 1;
                }
                proof {
                    assert(v@.subrange(0, n as int) =~= v@);
                }
                Ast::Children(out)
            },
        }
    }
}

} // verus!
