//! The expression tree: a tagged union of booleans, symbols, numbers,
//! lists, builtin functions and user-defined closures, together with its
//! mathematical shape (`ExpV`) that every contract speaks of.
use vstd::prelude::*;

verus! {

/// One of the builtin operations bound at startup: a variadic sum, a
/// subtraction of the sum of the rest from the first argument, and the five
/// chained numeric comparisons.
#[derive(Clone, Copy, PartialEq, Eq, Structural)]
pub enum Builtin {
    Plus,
    Minus,
    Equal,
    Greater,
    GreaterEq,
    Less,
    LessEq,
}

/// A user-defined closure: the unevaluated parameter form and body form.
/// The parameter form is checked to be a list of symbols at call time, not
/// when the closure is made.
pub struct Lambda {
    pub params_exp: Box<Expression>,
    pub body_exp: Box<Expression>,
}

/// An expression: both the shape the parser produces and the values the
/// evaluator returns. `Number` carries the raw bit pattern of an IEEE-754
/// binary64 number. Values are immutable once constructed.
pub enum Expression {
    Bool(bool),
    Symbol(String),
    Number(u64),
    List(Vec<Expression>),
    Function(Builtin),
    Lambda(Lambda),
}

/// The mathematical shape of an `Expression`: symbols are character
/// sequences, lists are sequences of shapes.
pub enum ExpV {
    Bool(bool),
    Symbol(Seq<char>),
    Number(u64),
    List(Seq<ExpV>),
    Function(Builtin),
    Lambda { params: Box<ExpV>, body: Box<ExpV> },
}

impl Expression {
    /// The shapes of a sequence of expressions, in order.
    pub open spec fn view_seq(s: Seq<Expression>) -> Seq<ExpV>
        decreases s,
    {
        if s.len() == 0 {
            Seq::empty()
        } else {
            seq![s[0].view()] + Expression::view_seq(s.drop_first())
        }
    }

    /// The shape of a list expression is the deep view of the vector it
    /// holds.
    pub proof fn lemma_list_view(v: &Vec<Expression>)
        ensures
            Expression::view_seq(v@) == v.deep_view(),
            Expression::List(*v)@ == ExpV::List(v.deep_view()),
    {
        Expression::lemma_view_seq(v@);
        assert(Expression::view_seq(v@) =~= v.deep_view());
    }

    /// `view_seq` is the element-wise shape of the sequence.
    pub proof fn lemma_view_seq(s: Seq<Expression>)
        ensures
            Expression::view_seq(s).len() == s.len(),
            forall|i: int| 0 <= i < s.len() ==> #[trigger] Expression::view_seq(s)[i] == s[i]@,
        decreases s.len(),
    {
        if s.len() > 0 {
            Expression::lemma_view_seq(s.drop_first());
            assert(Expression::view_seq(s) == seq![s[0]@] + Expression::view_seq(s.drop_first()));
            assert forall|i: int| 0 <= i < s.len() implies Expression::view_seq(s)[i] == #[trigger] s[i]@ by {
                if i > 0 {
                    assert(Expression::view_seq(s)[i] == Expression::view_seq(s.drop_first())[i
                        - 1]);
                    assert(s.drop_first()[i - 1] == s[i]);
                }
            }
        }
    }
}

impl View for Expression {
    type V = ExpV;

    open spec fn view(&self) -> ExpV
        decreases self,
    {
        match self {
            Expression::Bool(b) => ExpV::Bool(*b),
            Expression::Symbol(s) => ExpV::Symbol(s@),
            Expression::Number(n) => ExpV::Number(*n),
            Expression::List(l) => {
                proof {
                    assert(decreases_to!(l => l@));
                }
                ExpV::List(Expression::view_seq(l@))
            },
            Expression::Function(b) => ExpV::Function(*b),
            Expression::Lambda(lam) => ExpV::Lambda {
                params: Box::new((*lam.params_exp).view()),
                body: Box::new((*lam.body_exp).view()),
            },
        }
    }
}

impl DeepView for Expression {
    type V = ExpV;

    open spec fn deep_view(&self) -> ExpV {
        self.view()
    }
}

impl Clone for Expression {
    /// A clone has the same shape as the original.
    #[verifier::loop_isolation(false)]
    fn clone(&self) -> (r: Self)
        ensures
            r@ == self@,
        decreases self,
    {
        match self {
            Expression::Bool(b) => Expression::Bool(*b),
            Expression::Symbol(s) => Expression::Symbol(s.clone()),
            Expression::Number(n) => Expression::Number(*n),
            Expression::List(l) => {
                let mut out: Vec<Expression> = Vec::new();
                let mut i: usize = 0;
                while i < l.len()
                    invariant
                        i <= l@.len(),
                        out@.len() == i as nat,
                        forall|j: int| 0 <= j < i ==> out@[j]@ == l@[j]@,
                    decreases l@.len() - i,
                {
                    proof {
                        assert(decreases_to!(l => l@));
                        assert(decreases_to!(l@ => l@[i as int]));
                        assert(decreases_to!(self => l@[i as int]));
                    }
                    out.push(l[i].clone());
                    i = i + 1;
                }
                let r = Expression::List(out);
                proof {
                    Expression::lemma_view_seq(out@);
                    Expression::lemma_view_seq(l@);
                    assert(Expression::view_seq(out@) =~= Expression::view_seq(l@));
                }
                r
            }
            Expression::Function(b) => Expression::Function(*b),
            Expression::Lambda(lam) => Expression::Lambda(Lambda {
                params_exp: Box::new((&*lam.params_exp).clone()),
                body_exp: Box::new((&*lam.body_exp).clone()),
            }),
        }
    }
}

} // verus!
