//! Canonical textual form of an expression: booleans as `true`/`false`,
//! numbers in decimal, lists parenthesized with comma-joined elements, and
//! opaque placeholder labels for functions and closures; also the decimal
//! rendering of counts used in error messages.
use vstd::prelude::*;
use crate::expr::{Expression, ExpV};
use crate::num::{render_of, num_render};

verus! {

/// The canonical text of an expression shape.
pub open spec fn text_of(e: ExpV) -> Seq<char>
    decreases e, 1int,
{
    match e {
        ExpV::Bool(b) => if b {
            "true"@
        } else {
            "false"@
        },
        ExpV::Symbol(s) => s,
        ExpV::Number(n) => render_of(n),
        ExpV::List(l) => "("@ + join_texts(l) + ")"@,
        ExpV::Function(_) => "Function {}"@,
        ExpV::Lambda { .. } => "Lambda {}"@,
    }
}

/// The texts of the elements, joined with commas.
pub open spec fn join_texts(l: Seq<ExpV>) -> Seq<char>
    decreases l, 0int,
{
    if l.len() == 0 {
        Seq::empty()
    } else if l.len() == 1 {
        text_of(l[0])
    } else {
        text_of(l[0]) + ","@ + join_texts(l.drop_first())
    }
}

/// Extending a joined prefix by one more element appends a comma and that
/// element's text.
pub proof fn lemma_join_snoc(l: Seq<ExpV>, n: int)
    requires
        1 <= n < l.len(),
    ensures
        join_texts(l.take(n + 1)) == join_texts(l.take(n)) + ","@ + text_of(l[n]),
    decreases n,
{
    if n == 1 {
        assert(l.take(2).drop_first() =~= seq![l[1]]);
        assert(seq![l[1]].len() == 1);
        assert(seq![l[1]][0] == l[1]);
        assert(join_texts(seq![l[1]]) == text_of(l[1]));
        assert(l.take(2)[0] == l[0]);
        assert(l.take(1)[0] == l[0]);
        assert(l.take(1).len() == 1);
        assert(l.take(2).len() == 2);
        assert(join_texts(l.take(2)) =~= join_texts(l.take(1)) + ","@ + text_of(l[1]));
    } else {
        lemma_join_snoc(l.drop_first(), n - 1);
        assert(l.take(n + 1).drop_first() =~= l.drop_first().take(n));
        assert(l.take(n).drop_first() =~= l.drop_first().take(n - 1));
        assert(l.take(n + 1)[0] == l[0]);
        assert(l.take(n)[0] == l[0]);
        assert(l.drop_first()[n - 1] == l[n]);
        assert(join_texts(l.take(n + 1)) =~= join_texts(l.take(n)) + ","@ + text_of(l[n]));
    }
}

/// The canonical text of an expression.
#[verifier::loop_isolation(false)]
pub fn to_text(exp: &Expression) -> (r: String)
    ensures
        r@ == text_of(exp@),
    decreases exp, 1int,
{
    match exp {
        Expression::Bool(b) => {
            if *b {
                String::from_str("true")
            } else {
                String::from_str("false")
            }
        },
        Expression::Symbol(s) => s.clone(),
        Expression::Number(n) => num_render(*n),
        Expression::List(l) => {
            let ghost vs = Expression::view_seq(l@);
            proof {
                Expression::lemma_view_seq(l@);
            }
            let mut s = String::from_str("(");
            let mut i: usize = 0;
            while i < l.len()
                invariant
                    i <= l@.len(),
                    s@ == "("@ + join_texts(vs.take(i as int)),
                decreases l@.len() - i,
            {
                if i > 0 {
                    s.append(",");
                }
                proof {
                    assert(decreases_to!(l => l@));
                    assert(decreases_to!(l@ => l@[i as int]));
                    assert(decreases_to!(exp => l@[i as int]));
                }
                let t = to_text(&l[i]);
                s.append(t.as_str());
                proof {
                    if i == 0 {
                        assert(vs.take(1).len() == 1);
                        assert(vs.take(1)[0] == vs[0]);
                        assert(s@ =~= "("@ + join_texts(vs.take(1)));
                    } else {
                        lemma_join_snoc(vs, i as int);
                        assert(s@ =~= "("@ + join_texts(vs.take(i + 1)));
                    }
                }
                i = i + 1;
            }
            s.append(")");
            proof {
                assert(vs.take(l@.len() as int) =~= vs);
                assert(s@ =~= "("@ + join_texts(vs) + ")"@);
            }
            s
        },
        Expression::Function(_) => String::from_str("Function {}"),
        Expression::Lambda(_) => String::from_str("Lambda {}"),
    }
}

/// The decimal digit `d` as a character.
pub open spec fn digit_char(d: int) -> char {
    if d == 0 {
        '0'
    } else if d == 1 {
        '1'
    } else if d == 2 {
        '2'
    } else if d == 3 {
        '3'
    } else if d == 4 {
        '4'
    } else if d == 5 {
        '5'
    } else if d == 6 {
        '6'
    } else if d == 7 {
        '7'
    } else if d == 8 {
        '8'
    } else {
        '9'
    }
}

/// The decimal spelling of `n`, without a sign and without leading zeros.
pub open spec fn dec_str(n: nat) -> Seq<char>
    decreases n,
{
    if n < 10 {
        seq![digit_char(n as int)]
    } else {
        dec_str(n / 10).push(digit_char((n % 10) as int))
    }
}

fn digit_str(d: usize) -> (r: &'static str)
    requires
        d < 10,
    ensures
        r@ == seq![digit_char(d as int)],
{
    proof {
        reveal_strlit("0");
        reveal_strlit("1");
        reveal_strlit("2");
        reveal_strlit("3");
        reveal_strlit("4");
        reveal_strlit("5");
        reveal_strlit("6");
        reveal_strlit("7");
        reveal_strlit("8");
        reveal_strlit("9");
    }
    let r = if d == 0 {
        "0"
    } else if d == 1 {
        "1"
    } else if d == 2 {
        "2"
    } else if d == 3 {
        "3"
    } else if d == 4 {
        "4"
    } else if d == 5 {
        "5"
    } else if d == 6 {
        "6"
    } else if d == 7 {
        "7"
    } else if d == 8 {
        "8"
    } else {
        "9"
    };
    proof {
        assert(r@ =~= seq![digit_char(d as int)]);
    }
    r
}

/// The decimal spelling of a count.
pub fn usize_to_string(n: usize) -> (r: String)
    ensures
        r@ == dec_str(n as nat),
    decreases n,
{
    if n < 10 {
        String::from_str(digit_str(n))
    } else {
        let mut s = usize_to_string(n / 10);
        s.append(digit_str(n % 10));
        proof {
            assert(s@ =~= dec_str((n / 10) as nat).push(digit_char((n % 10) as int)));
        }
        s
    }
}

} // verus!
