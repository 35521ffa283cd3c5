//! S-expressions: the surface syntax the assembler parses before lowering.

use vstd::prelude::*;

verus! {

/// One S-expression: an atom, or a parenthesized list.
#[derive(Debug)]
pub enum SExpr {
    Atom(String),
    List(Vec<SExpr>),
}

/// The model of an S-expression.
pub enum SExprV {
    Atom(Seq<char>),
    List(Seq<SExprV>),
}

/// The model of one S-expression.
pub open spec fn sexpr_view(s: SExpr) -> SExprV
    decreases s,
{
    match s {
        SExpr::Atom(a) => SExprV::Atom(a@),
        SExpr::List(items) => SExprV::List(sexprs_view(items@)),
    }
}

/// The model of a sequence of S-expressions.
pub open spec fn sexprs_view(s: Seq<SExpr>) -> Seq<SExprV>
    decreases s,
{
    if s.len() == 0 {
        Seq::empty()
    } else {
        seq![sexpr_view(s[0])] + sexprs_view(s.drop_first())
    }
}

impl View for SExpr {
    type V = SExprV;

    open spec fn view(&self) -> SExprV {
        sexpr_view(*self)
    }
}

/// `sexprs_view` maps `sexpr_view` over the sequence, element by element.
pub broadcast proof fn lemma_sexprs_view(s: Seq<SExpr>)
    ensures
        #[trigger] sexprs_view(s).len() == s.len(),
        forall|i: int| 0 <= i < s.len() ==> sexprs_view(s)[i] == sexpr_view(s[i]),
    decreases s.len(),
{
    if s.len() > 0 {
        lemma_sexprs_view(s.drop_first());
    }
}

/// `sexprs_view` of one more expression at the end.
pub proof fn lemma_sexprs_view_push(s: Seq<SExpr>, x: SExpr)
    ensures
        sexprs_view(s.push(x)) == sexprs_view(s).push(sexpr_view(x)),
    decreases s.len(),
{
    if s.len() == 0 {
        assert(s.push(x).drop_first() =~= Seq::<SExpr>::empty());
        assert(sexprs_view(Seq::<SExpr>::empty()) == Seq::<SExprV>::empty());
        assert(s.push(x)[0] == x);
        assert(sexprs_view(s.push(x)) =~= seq![sexpr_view(x)]);
        assert(sexprs_view(s).push(sexpr_view(x)) =~= seq![sexpr_view(x)]);
    } else {
        lemma_sexprs_view_push(s.drop_first(), x);
        assert(s.push(x).drop_first() =~= s.drop_first().push(x));
        assert(s.push(x)[0] == s[0]);
        assert(seq![sexpr_view(s[0])] + sexprs_view(s.drop_first()).push(sexpr_view(x)) =~= (seq![
            sexpr_view(s[0]),
        ] + sexprs_view(s.drop_first())).push(sexpr_view(x)));
    }
}

} // verus!
