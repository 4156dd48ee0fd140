//! The evaluator: reduces an expression against an environment chain to a
//! value or an error. Special forms (`if`, `def`, `fn`) are dispatched on
//! the unevaluated argument forms; any other non-empty list is a call,
//! whose head and arguments are evaluated left to right in the current
//! environment. A closure call binds its parameters in a fresh frame whose
//! outer link is the caller's frame, and the frame is discarded when the
//! call returns.
//!
//! The whole behaviour is pinned down by the spec-level interpreter
//! `eval_spec`, a pure function from the environment shape, the frame
//! index, the expression shape and the remaining call depth to the new
//! environment shape and the result.
use vstd::prelude::*;
use crate::env::{define, env_get, env_lookup, env_wf, Environment, Frame, frame_map, FrameV};
use crate::err::{
    Error,
    err_arity_mismatch,
    err_non_boolean_test,
    err_unbound_symbol,
    msg_args_form_not_list,
    msg_args_not_symbols,
    msg_arity_mismatch,
    msg_def_two_forms,
    msg_depth_limit,
    msg_empty_list,
    msg_expected_args_form,
    msg_expected_at_least_one_number,
    msg_expected_first_form,
    msg_expected_number,
    msg_expected_second_form,
    msg_expected_test_form,
    msg_first_form_not_symbol,
    msg_fn_two_forms,
    msg_missing_branch,
    msg_non_boolean_test,
    msg_not_a_function,
    msg_unbound_symbol,
    msg_unexpected_form,
    reason,
};
use crate::expr::{Builtin, ExpV, Expression, Lambda};
use crate::num::{
    add_bits,
    eq_bits,
    ge_bits,
    gt_bits,
    le_bits,
    lt_bits,
    num_add,
    num_eq,
    num_ge,
    num_gt,
    num_le,
    num_lt,
    num_sub,
    sub_bits,
};
use crate::parser::{parse, parse_spec};
use crate::text::text_of;
use crate::token::{tokenize, tokenize_spec};
use vstd::slice::{slice_index_get, slice_subrange};

verus! {

/// The shape of an evaluation result.
pub open spec fn res_view(r: Result<Expression, Error>) -> Result<ExpV, Seq<char>> {
    match r {
        Ok(e) => Ok(e@),
        Err(e) => Err(e@),
    }
}

/// A number argument's bit pattern; anything but a number is refused.
pub open spec fn parse_single_float_spec(e: ExpV) -> Result<u64, Seq<char>> {
    match e {
        ExpV::Number(n) => Ok(n),
        _ => Err(msg_expected_number()),
    }
}

/// The bit patterns of all arguments, failing on the first non-number,
/// left to right.
pub open spec fn parse_floats_spec(args: Seq<ExpV>) -> Result<Seq<u64>, Seq<char>>
    decreases args.len(),
{
    if args.len() == 0 {
        Ok(Seq::empty())
    } else {
        match parse_single_float_spec(args[0]) {
            Err(m) => Err(m),
            Ok(f) => match parse_floats_spec(args.drop_first()) {
                Err(m) => Err(m),
                Ok(fs) => Ok(seq![f] + fs),
            },
        }
    }
}

/// The left fold of IEEE-754 addition over the bit patterns, starting from
/// positive zero (whose bit pattern is zero).
pub open spec fn sum_bits(s: Seq<u64>) -> u64
    decreases s.len(),
{
    if s.len() == 0 {
        0u64
    } else {
        add_bits(sum_bits(s.drop_last()), s.last())
    }
}

/// The comparison a builtin stands for, on two bit patterns. The arithmetic
/// builtins never reach this.
pub open spec fn rel_bits(b: Builtin, x: u64, y: u64) -> bool {
    match b {
        Builtin::Equal => eq_bits(x, y),
        Builtin::Greater => gt_bits(x, y),
        Builtin::GreaterEq => ge_bits(x, y),
        Builtin::Less => lt_bits(x, y),
        Builtin::LessEq => le_bits(x, y),
        _ => true,
    }
}

/// A chained comparison: every consecutive pair satisfies the relation.
pub open spec fn chain_bits(b: Builtin, s: Seq<u64>) -> bool {
    forall|i: int| 0 <= i && i + 1 < s.len() ==> #[trigger] rel_bits(b, s[i], s[i + 1])
}

/// What a builtin returns: every argument is coerced to a number first;
/// the sum may be empty, while subtraction and the comparisons need at
/// least one argument.
pub open spec fn apply_builtin_spec(b: Builtin, args: Seq<ExpV>) -> Result<ExpV, Seq<char>> {
    match parse_floats_spec(args) {
        Err(m) => Err(m),
        Ok(fs) => match b {
            Builtin::Plus => Ok(ExpV::Number(sum_bits(fs))),
            Builtin::Minus => if fs.len() == 0 {
                Err(msg_expected_at_least_one_number())
            } else {
                Ok(ExpV::Number(sub_bits(fs[0], sum_bits(fs.drop_first()))))
            },
            _ => if fs.len() == 0 {
                Err(msg_expected_at_least_one_number())
            } else {
                Ok(ExpV::Bool(chain_bits(b, fs)))
            },
        },
    }
}

/// The names in a parameter list, failing on the first entry that is not a
/// symbol.
pub open spec fn symbols_of(l: Seq<ExpV>) -> Result<Seq<Seq<char>>, Seq<char>>
    decreases l.len(),
{
    if l.len() == 0 {
        Ok(Seq::empty())
    } else {
        match l[0] {
            ExpV::Symbol(s) => match symbols_of(l.drop_first()) {
                Ok(ks) => Ok(seq![s] + ks),
                Err(m) => Err(m),
            },
            _ => Err(msg_args_not_symbols()),
        }
    }
}

/// The parameter names of a closure: its parameter form must be a list of
/// symbols, checked only now, at call time.
pub open spec fn params_names_spec(params: ExpV) -> Result<Seq<Seq<char>>, Seq<char>> {
    match params {
        ExpV::List(l) => symbols_of(l),
        _ => Err(msg_args_form_not_list()),
    }
}

/// The bindings of a fresh call frame: each parameter name to the argument
/// value in the same position.
pub open spec fn bind_params(ks: Seq<Seq<char>>, vs: Seq<ExpV>) -> Map<Seq<char>, ExpV>
    decreases ks.len(),
{
    if ks.len() == 0 || vs.len() == 0 {
        Map::empty()
    } else {
        bind_params(ks.drop_last(), vs.drop_last()).insert(ks.last(), vs.last())
    }
}

/// What `fn` produces from its unevaluated argument forms: a closure of the
/// first form (parameters) and the second (body), neither evaluated nor
/// checked yet.
pub open spec fn lambda_of_args_spec(args: Seq<ExpV>) -> Result<ExpV, Seq<char>> {
    if args.len() == 0 {
        Err(msg_expected_args_form())
    } else if args.len() < 2 {
        Err(msg_expected_second_form())
    } else if args.len() > 2 {
        Err(msg_fn_two_forms())
    } else {
        Ok(ExpV::Lambda { params: Box::new(args[0]), body: Box::new(args[1]) })
    }
}

/// The spec-level interpreter. Returns the environment shape after the
/// evaluation together with the result; an evaluation that fails still
/// keeps the bindings made before the failure. `fuel` bounds the depth of
/// closure applications; the executable evaluator is given a large supply
/// by its host.
pub open spec fn eval_spec(env: Seq<FrameV>, at: int, e: ExpV, fuel: nat) -> (Seq<FrameV>, Result<
    ExpV,
    Seq<char>,
>)
    decreases fuel, e, 1int,
{
    match e {
        ExpV::Symbol(k) => match env_lookup(env, at, k) {
            Some(v) => (env, Ok(v)),
            None => (env, Err(msg_unbound_symbol(k))),
        },
        ExpV::Bool(_) => (env, Ok(e)),
        ExpV::Number(_) => (env, Ok(e)),
        ExpV::List(l) => {
            if l.len() == 0 {
                (env, Err(msg_empty_list()))
            } else {
                proof {
                    assert(decreases_to!(l => l[0]));
                    assert(decreases_to!(l => l.drop_first()));
                    assert(decreases_to!(e => l[0]));
                    assert(decreases_to!(e => l.drop_first()));
                }
                let head = l[0];
                let args = l.drop_first();
                match eval_built_in_spec(env, at, head, args, fuel) {
                    Some(out) => out,
                    None => {
                        let (env1, r1) = eval_spec(env, at, head, fuel);
                        match r1 {
                            Err(m) => (env1, Err(m)),
                            Ok(f) => match f {
                                ExpV::Function(b) => {
                                    let (env2, r2) = eval_forms_spec(env1, at, args, fuel);
                                    match r2 {
                                        Err(m) => (env2, Err(m)),
                                        Ok(vs) => (env2, apply_builtin_spec(b, vs)),
                                    }
                                },
                                ExpV::Lambda { params, body } => {
                                    match params_names_spec(*params) {
                                        Err(m) => (env1, Err(m)),
                                        Ok(ks) => {
                                            if ks.len() != args.len() {
                                                (
                                                    env1,
                                                    Err(msg_arity_mismatch(ks.len(), args.len())),
                                                )
                                            } else {
                                                let (env2, r2) = eval_forms_spec(
                                                    env1,
                                                    at,
                                                    args,
                                                    fuel,
                                                );
                                                match r2 {
                                                    Err(m) => (env2, Err(m)),
                                                    Ok(vs) => {
                                                        if fuel == 0 {
                                                            (env2, Err(msg_depth_limit()))
                                                        } else {
                                                            let envp = env2.push(
                                                                FrameV {
                                                                    map: bind_params(ks, vs),
                                                                    outer: Some(at),
                                                                },
                                                            );
                                                            let (env3, r3) = eval_spec(
                                                                envp,
                                                                env2.len() as int,
                                                                *body,
                                                                (fuel - 1) as nat,
                                                            );
                                                            (env3.take(env2.len() as int), r3)
                                                        }
                                                    },
                                                }
                                            }
                                        },
                                    }
                                },
                                _ => (env1, Err(msg_not_a_function())),
                            },
                        }
                    },
                }
            }
        },
        ExpV::Function(_) => (env, Err(msg_unexpected_form())),
        ExpV::Lambda { .. } => (env, Err(msg_unexpected_form())),
    }
}

/// Special-form dispatch: `Some` with the outcome when the head is the
/// symbol `if`, `def` or `fn`, handled on the unevaluated argument forms;
/// `None` otherwise.
pub open spec fn eval_built_in_spec(
    env: Seq<FrameV>,
    at: int,
    head: ExpV,
    args: Seq<ExpV>,
    fuel: nat,
) -> Option<(Seq<FrameV>, Result<ExpV, Seq<char>>)>
    decreases fuel, args, 1int,
{
    if head == ExpV::Symbol("if"@) {
        Some(eval_if_spec(env, at, args, fuel))
    } else if head == ExpV::Symbol("def"@) {
        Some(eval_def_spec(env, at, args, fuel))
    } else if head == ExpV::Symbol("fn"@) {
        Some((env, lambda_of_args_spec(args)))
    } else {
        None
    }
}

/// The `if` form: evaluates the test, which must reduce to a boolean, then
/// evaluates and returns the branch the boolean picks; a missing branch on
/// the taken side is an error.
pub open spec fn eval_if_spec(env: Seq<FrameV>, at: int, args: Seq<ExpV>, fuel: nat) -> (
    Seq<FrameV>,
    Result<ExpV, Seq<char>>,
)
    decreases fuel, args, 0int,
{
    if args.len() == 0 {
        (env, Err(msg_expected_test_form()))
    } else {
        proof {
            assert(decreases_to!(args => args[0]));
        }
        let (env1, r1) = eval_spec(env, at, args[0], fuel);
        match r1 {
            Err(m) => (env1, Err(m)),
            Ok(t) => match t {
                ExpV::Bool(b) => {
                    let idx: int = if b {
                        1
                    } else {
                        2
                    };
                    if idx >= args.len() {
                        (env1, Err(msg_missing_branch(b)))
                    } else {
                        proof {
                            assert(decreases_to!(args => args[idx]));
                        }
                        eval_spec(env1, at, args[idx], fuel)
                    }
                },
                _ => (env1, Err(msg_non_boolean_test(text_of(args[0])))),
            },
        }
    }
}

/// The `def` form: the first form must be a bare symbol, the second is
/// evaluated in the current environment and bound in the current frame,
/// and the result is the symbol form itself, not the bound value.
pub open spec fn eval_def_spec(env: Seq<FrameV>, at: int, args: Seq<ExpV>, fuel: nat) -> (
    Seq<FrameV>,
    Result<ExpV, Seq<char>>,
)
    decreases fuel, args, 0int,
{
    if args.len() == 0 {
        (env, Err(msg_expected_first_form()))
    } else {
        match args[0] {
            ExpV::Symbol(name) => {
                if args.len() < 2 {
                    (env, Err(msg_expected_second_form()))
                } else if args.len() > 2 {
                    (env, Err(msg_def_two_forms()))
                } else {
                    proof {
                        assert(decreases_to!(args => args[1]));
                    }
                    let (env1, r1) = eval_spec(env, at, args[1], fuel);
                    match r1 {
                        Err(m) => (env1, Err(m)),
                        Ok(v) => {
                            if 0 <= at < env1.len() {
                                (
                                    env1.update(
                                        at,
                                        FrameV {
                                            map: env1[at].map.insert(name, v),
                                            outer: env1[at].outer,
                                        },
                                    ),
                                    Ok(ExpV::Symbol(name)),
                                )
                            } else {
                                (env1, Ok(ExpV::Symbol(name)))
                            }
                        },
                    }
                }
            },
            _ => (env, Err(msg_first_form_not_symbol())),
        }
    }
}

/// Evaluates argument forms left to right in the current environment,
/// stopping at the first failure; bindings made before the failure stay.
pub open spec fn eval_forms_spec(env: Seq<FrameV>, at: int, forms: Seq<ExpV>, fuel: nat) -> (
    Seq<FrameV>,
    Result<Seq<ExpV>, Seq<char>>,
)
    decreases fuel, forms, 0int,
{
    if forms.len() == 0 {
        (env, Ok(Seq::empty()))
    } else {
        proof {
            assert(decreases_to!(forms => forms[0]));
            assert(decreases_to!(forms => forms.drop_first()));
        }
        let (env1, r1) = eval_spec(env, at, forms[0], fuel);
        match r1 {
            Err(m) => (env1, Err(m)),
            Ok(v) => {
                let (env2, r2) = eval_forms_spec(env1, at, forms.drop_first(), fuel);
                match r2 {
                    Err(m) => (env2, Err(m)),
                    Ok(vs) => (env2, Ok(seq![v] + vs)),
                }
            },
        }
    }
}

/// A successful argument evaluation yields one value per form.
pub proof fn lemma_eval_forms_len(env: Seq<FrameV>, at: int, forms: Seq<ExpV>, fuel: nat)
    ensures
        eval_forms_spec(env, at, forms, fuel).1 is Ok ==> eval_forms_spec(
            env,
            at,
            forms,
            fuel,
        ).1->Ok_0.len() == forms.len(),
    decreases forms.len(),
{
    if forms.len() > 0 {
        let (env1, r1) = eval_spec(env, at, forms[0], fuel);
        if r1 is Ok {
            lemma_eval_forms_len(env1, at, forms.drop_first(), fuel);
        }
    }
}

/// Two environment shapes with the same frames and outer links; only the
/// bindings may differ. Evaluation always leaves the environment with the
/// same shape it had.
pub open spec fn same_shape(a: Seq<FrameV>, b: Seq<FrameV>) -> bool {
    &&& a.len() == b.len()
    &&& forall|i: int| 0 <= i < a.len() ==> a[i].outer == #[trigger] b[i].outer
}

proof fn lemma_same_shape_wf(a: Seq<FrameV>, b: Seq<FrameV>)
    requires
        env_wf(a),
        same_shape(a, b),
    ensures
        env_wf(b),
{
    assert forall|i: int| 0 <= i < b.len() implies (#[trigger] b[i].outer matches Some(j) ==> 0 <= j
        < i) by {
        assert(a[i].outer == b[i].outer);
    }
}

/// Coerces one argument to a number: only a `Number` value passes.
pub fn parse_single_float(exp: &Expression) -> (r: Result<u64, Error>)
    ensures
        (match r {
            Ok(f) => parse_single_float_spec(exp@) == Ok::<u64, Seq<char>>(f),
            Err(e) => parse_single_float_spec(exp@) matches Err(m) && e@ == m,
        }),
{
    match exp {
        Expression::Number(n) => Ok(*n),
        _ => Err(reason("expected a number")),
    }
}

/// Coerces every argument to a number, failing on the first non-number,
/// left to right.
#[verifier::loop_isolation(false)]
pub fn parse_list_of_floats(args: &[Expression]) -> (r: Result<Vec<u64>, Error>)
    ensures
        (match r {
            Ok(fs) => parse_floats_spec(args.deep_view()) == Ok::<Seq<u64>, Seq<char>>(fs@),
            Err(e) => parse_floats_spec(args.deep_view()) matches Err(m) && e@ == m,
        }),
{
    let ghost av = args.deep_view();
    let mut fs: Vec<u64> = Vec::new();
    let mut i: usize = 0;
    proof {
        assert(av.skip(0) =~= av);
        if parse_floats_spec(av) is Ok {
            assert(fs@ + parse_floats_spec(av)->Ok_0 =~= parse_floats_spec(av)->Ok_0);
        }
    }
    while i < args.len()
        invariant
            i <= av.len(),
            fs@.len() == i as nat,
            parse_floats_spec(av) == (match parse_floats_spec(av.skip(i as int)) {
                Ok(rest) => Ok::<Seq<u64>, Seq<char>>(fs@ + rest),
                Err(m) => Err::<Seq<u64>, Seq<char>>(m),
            }),
        decreases av.len() - i,
    {
        let e = slice_index_get(args, i);
        proof {
            assert(av.skip(i as int)[0] == av[i as int]);
            assert(av[i as int] == e@);
            assert(av.skip(i as int).drop_first() =~= av.skip(i + 1));
        }
        match parse_single_float(e) {
            Ok(f) => {
                let ghost old_fs = fs@;
                fs.push(f);
                proof {
                    if parse_floats_spec(av.skip(i + 1)) is Ok {
                        let rest = parse_floats_spec(av.skip(i + 1))->Ok_0;
                        assert(old_fs + (seq![f] + rest) =~= fs@ + rest);
                    }
                }
            },
            Err(er) => {
                return Err(er);
            },
        }
        i = i + 1;
    }
    proof {
        assert(av.skip(av.len() as int) =~= Seq::<ExpV>::empty());
    }
    Ok(fs)
}

fn num_rel(b: Builtin, x: u64, y: u64) -> (r: bool)
    ensures
        r == rel_bits(b, x, y),
{
    match b {
        Builtin::Equal => num_eq(x, y),
        Builtin::Greater => num_gt(x, y),
        Builtin::GreaterEq => num_ge(x, y),
        Builtin::Less => num_lt(x, y),
        Builtin::LessEq => num_le(x, y),
        _ => true,
    }
}

/// Applies a builtin to evaluated arguments: coerces them all to numbers,
/// then sums, subtracts, or checks the chained comparison.
#[verifier::loop_isolation(false)]
pub fn apply_builtin(b: Builtin, args: &Vec<Expression>) -> (r: Result<Expression, Error>)
    ensures
        res_view(r) == apply_builtin_spec(b, args.deep_view()),
{
    let floats = match parse_list_of_floats(args.as_slice()) {
        Ok(fs) => fs,
        Err(e) => {
            return Err(e);
        },
    };
    match b {
        Builtin::Plus => {
            let mut acc: u64 = 0;
            let mut i: usize = 0;
            proof {
                assert(floats@.take(0) =~= Seq::<u64>::empty());
            }
            while i < floats.len()
                invariant
                    i <= floats@.len(),
                    acc == sum_bits(floats@.take(i as int)),
                decreases floats@.len() - i,
            {
                acc = num_add(acc, floats[i]);
                proof {
                    assert(floats@.take(i + 1).drop_last() =~= floats@.take(i as int));
                    assert(floats@.take(i + 1).last() == floats@[i as int]);
                }
                i = i + 1;
            }
            proof {
                assert(floats@.take(floats@.len() as int) =~= floats@);
            }
            Ok(Expression::Number(acc))
        },
        Builtin::Minus => {
            if floats.len() == 0 {
                Err(reason("expected at least one number"))
            } else {
                let first = floats[0];
                let ghost rest = floats@.drop_first();
                let mut acc: u64 = 0;
                let mut i: usize = 1;
                proof {
                    assert(rest.take(0) =~= Seq::<u64>::empty());
                }
                while i < floats.len()
                    invariant
                        1 <= i <= floats@.len(),
                        acc == sum_bits(rest.take(i - 1)),
                    decreases floats@.len() - i,
                {
                    acc = num_add(acc, floats[i]);
                    proof {
                        assert(rest.take(i as int).drop_last() =~= rest.take(i - 1));
                        assert(rest.take(i as int).last() == floats@[i as int]);
                    }
                    i = i + 1;
                }
                proof {
                    assert(rest.take(floats@.len() - 1) =~= rest);
                }
                Ok(Expression::Number(num_sub(first, acc)))
            }
        },
        _ => {
            if floats.len() == 0 {
                Err(reason("expected at least one number"))
            } else {
                let mut ok = true;
                let mut i: usize = 0;
                while i + 1 < floats.len()
                    invariant
                        i < floats@.len(),
                        ok ==> forall|j: int|
                            0 <= j && j + 1 <= i ==> #[trigger] rel_bits(
                                b,
                                floats@[j],
                                floats@[j + 1],
                            ),
                        !ok ==> !chain_bits(b, floats@),
                    decreases floats@.len() - i,
                {
                    if !num_rel(b, floats[i], floats[i + 1]) {
                        ok = false;
                    }
                    i = i + 1;
                }
                proof {
                    if ok {
                        assert(chain_bits(b, floats@));
                    }
                }
                Ok(Expression::Bool(ok))
            }
        },
    }
}

/// Reads a closure's parameter form: it must be a list holding only
/// symbols, and the names are returned in order.
#[verifier::loop_isolation(false)]
pub fn parse_list_of_symbol_strings(form: &Expression) -> (r: Result<Vec<String>, Error>)
    ensures
        (match r {
            Ok(ks) => params_names_spec(form@) == Ok::<Seq<Seq<char>>, Seq<char>>(ks.deep_view()),
            Err(e) => params_names_spec(form@) matches Err(m) && e@ == m,
        }),
{
    let l = match form {
        Expression::List(l) => l,
        _ => {
            return Err(reason("expected args form to be a list"));
        },
    };
    let ghost lv = Expression::view_seq(l@);
    proof {
        Expression::lemma_view_seq(l@);
    }
    let mut ks: Vec<String> = Vec::new();
    let mut i: usize = 0;
    proof {
        assert(lv.skip(0) =~= lv);
        if symbols_of(lv) is Ok {
            assert(ks.deep_view() + symbols_of(lv)->Ok_0 =~= symbols_of(lv)->Ok_0);
        }
    }
    while i < l.len()
        invariant
            i <= lv.len(),
            ks.deep_view().len() == i as nat,
            symbols_of(lv) == (match symbols_of(lv.skip(i as int)) {
                Ok(rest) => Ok::<Seq<Seq<char>>, Seq<char>>(ks.deep_view() + rest),
                Err(m) => Err::<Seq<Seq<char>>, Seq<char>>(m),
            }),
        decreases lv.len() - i,
    {
        proof {
            assert(lv.skip(i as int)[0] == lv[i as int]);
            assert(lv[i as int] == l@[i as int]@);
            assert(lv.skip(i as int).drop_first() =~= lv.skip(i + 1));
        }
        match &l[i] {
            Expression::Symbol(s) => {
                let ghost old_ks = ks.deep_view();
                ks.push(s.clone());
                proof {
                    assert(ks.deep_view() =~= old_ks.push(s@));
                    if symbols_of(lv.skip(i + 1)) is Ok {
                        let rest = symbols_of(lv.skip(i + 1))->Ok_0;
                        assert(old_ks + (seq![s@] + rest) =~= ks.deep_view() + rest);
                    }
                }
            },
            _ => {
                return Err(reason("expected symbols in the argument list"));
            },
        }
        i = i + 1;
    }
    proof {
        assert(lv.skip(lv.len() as int) =~= Seq::<ExpV>::empty());
    }
    Ok(ks)
}

/// The depth of closure applications the host loop allows before an
/// evaluation is cut off with an error, chosen to stay well within the call
/// stack the host process has.
pub const EVAL_FUEL: u64 = 1000;

/// Evaluates the argument forms left to right in the current environment,
/// stopping at the first failure.
pub fn eval_forms(arg_forms: &[Expression], env: &mut Environment, at: usize, fuel: u64) -> (r:
    Result<Vec<Expression>, Error>)
    requires
        env_wf(old(env)@),
        at < old(env)@.len(),
    ensures
        same_shape(old(env)@, final(env)@),
        eval_forms_spec(old(env)@, at as int, arg_forms.deep_view(), fuel as nat) == (
            final(env)@,
            match r {
                Ok(vs) => Ok::<Seq<ExpV>, Seq<char>>(vs.deep_view()),
                Err(e) => Err::<Seq<ExpV>, Seq<char>>(e@),
            },
        ),
    decreases fuel, arg_forms.deep_view(), 0int,
{
    let ghost av = arg_forms.deep_view();
    if arg_forms.len() == 0 {
        let empty: Vec<Expression> = Vec::new();
        proof {
            assert(empty.deep_view() =~= Seq::<ExpV>::empty());
        }
        Ok(empty)
    } else {
        let first = slice_index_get(arg_forms, 0);
        proof {
            assert(av[0] == first@);
            assert(decreases_to!(av => av[0]));
        }
        match eval(first, env, at, fuel) {
            Err(e) => Err(e),
            Ok(v) => {
                let rest = slice_subrange(arg_forms, 1, arg_forms.len());
                proof {
                    assert(rest.deep_view() =~= av.drop_first());
                    assert(decreases_to!(av => av.drop_first()));
                    lemma_same_shape_wf(old(env)@, env@);
                }
                match eval_forms(rest, env, at, fuel) {
                    Err(e) => Err(e),
                    Ok(mut vs) => {
                        let ghost old_vs = vs.deep_view();
                        vs.insert(0, v);
                        proof {
                            assert(vs.deep_view() =~= seq![v@] + old_vs);
                        }
                        Ok(vs)
                    },
                }
            },
        }
    }
}

/// Builds the call frame for a closure application: reads the parameter
/// names, checks the arity against the argument forms, evaluates the
/// arguments in the caller's environment, and pushes a fresh frame whose
/// outer link is the caller's frame. Returns the new frame's index.
#[verifier::loop_isolation(false)]
pub fn env_for_lambda(
    params: &Expression,
    arg_forms: &[Expression],
    env: &mut Environment,
    at: usize,
    fuel: u64,
) -> (r: Result<usize, Error>)
    requires
        env_wf(old(env)@),
        at < old(env)@.len(),
    ensures
        ({
            let pn = params_names_spec(params@);
            let argsv = arg_forms.deep_view();
            let ef = eval_forms_spec(old(env)@, at as int, argsv, fuel as nat);
            match r {
                Ok(idx) => {
                    &&& fuel > 0
                    &&& pn is Ok
                    &&& pn->Ok_0.len() == argsv.len()
                    &&& ef.1 is Ok
                    &&& final(env)@ == ef.0.push(
                        FrameV {
                            map: bind_params(pn->Ok_0, ef.1->Ok_0),
                            outer: Some(at as int),
                        },
                    )
                    &&& idx as int == ef.0.len()
                    &&& same_shape(old(env)@, ef.0)
                    &&& env_wf(final(env)@)
                    &&& idx < final(env)@.len()
                },
                Err(e) => {
                    ||| (pn is Err && e@ == pn->Err_0 && final(env)@ == old(env)@)
                    ||| (pn is Ok && pn->Ok_0.len() != argsv.len() && e@ == msg_arity_mismatch(
                        pn->Ok_0.len(),
                        argsv.len(),
                    ) && final(env)@ == old(env)@)
                    ||| (pn is Ok && pn->Ok_0.len() == argsv.len() && ef.1 is Err && e@
                        == ef.1->Err_0 && final(env)@ == ef.0 && same_shape(
                        old(env)@,
                        final(env)@,
                    ))
                    ||| (fuel == 0 && pn is Ok && pn->Ok_0.len() == argsv.len() && ef.1 is Ok && e@
                        == msg_depth_limit() && final(env)@ == ef.0 && same_shape(
                        old(env)@,
                        final(env)@,
                    ))
                },
            }
        }),
    decreases fuel, arg_forms.deep_view(), 1int,
{
    let ks = match parse_list_of_symbol_strings(params) {
        Ok(ks) => ks,
        Err(e) => {
            return Err(e);
        },
    };
    if ks.len() != arg_forms.len() {
        proof {
            assert(ks.deep_view().len() == ks@.len());
        }
        return Err(err_arity_mismatch(ks.len(), arg_forms.len()));
    }
    let vs = match eval_forms(arg_forms, env, at, fuel) {
        Ok(vs) => vs,
        Err(e) => {
            return Err(e);
        },
    };
    if fuel == 0 {
        return Err(reason("evaluation depth limit reached"));
    }
    let ghost ksv = ks.deep_view();
    let ghost vsv = vs.deep_view();
    proof {
        lemma_eval_forms_len(old(env)@, at as int, arg_forms.deep_view(), fuel as nat);
        assert(vsv.len() == arg_forms.deep_view().len());
        assert(ksv.len() == ks@.len());
        assert(vsv.len() == vs@.len());
    }
    let mut data: Vec<(String, Expression)> = Vec::new();
    let mut j: usize = 0;
    proof {
        assert(data@ =~= Seq::<(String, Expression)>::empty());
        assert(ksv.take(0) =~= Seq::<Seq<char>>::empty());
        assert(frame_map(data@) =~= bind_params(ksv.take(0), vsv.take(0)));
    }
    while j < ks.len()
        invariant
            j <= ksv.len(),
            ksv.len() == ks@.len(),
            vsv.len() == vs@.len(),
            ksv.len() == vsv.len(),
            frame_map(data@) == bind_params(ksv.take(j as int), vsv.take(j as int)),
        decreases ksv.len() - j,
    {
        let ghost old_data = data@;
        data.push((ks[j].clone(), vs[j].clone()));
        proof {
            assert(data@.drop_last() =~= old_data);
            assert(ksv.take(j + 1).drop_last() =~= ksv.take(j as int));
            assert(vsv.take(j + 1).drop_last() =~= vsv.take(j as int));
            assert(ksv.take(j + 1).last() == ksv[j as int]);
            assert(vsv.take(j + 1).last() == vsv[j as int]);
            assert(data@.last().0@ == ksv[j as int]);
            assert(data@.last().1@ == vsv[j as int]);
        }
        j = j + 1;
    }
    let ghost env2 = env@;
    let new_idx = env.frames.len();
    env.frames.push(Frame { data, outer: Some(at) });
    proof {
        assert(ksv.take(ksv.len() as int) =~= ksv);
        assert(vsv.take(vsv.len() as int) =~= vsv);
        assert(env@ =~= env2.push(FrameV { map: bind_params(ksv, vsv), outer: Some(at as int) }));
        lemma_same_shape_wf(old(env)@, env2);
        assert forall|i: int| 0 <= i < env@.len() implies (#[trigger] env@[i].outer matches Some(o)
            ==> 0 <= o < i) by {
            if i < env2.len() {
                assert(env@[i] == env2[i]);
            }
        }
    }
    Ok(new_idx)
}

/// The `if` form: the test is evaluated and must come out a boolean; the
/// branch it picks is then evaluated, and a missing branch on the taken
/// side is an error.
pub fn eval_if_args(arg_forms: &[Expression], env: &mut Environment, at: usize, fuel: u64) -> (r:
    Result<Expression, Error>)
    requires
        env_wf(old(env)@),
        at < old(env)@.len(),
    ensures
        same_shape(old(env)@, final(env)@),
        eval_if_spec(old(env)@, at as int, arg_forms.deep_view(), fuel as nat) == (
            final(env)@,
            res_view(r),
        ),
    decreases fuel, arg_forms.deep_view(), 0int,
{
    let ghost av = arg_forms.deep_view();
    if arg_forms.len() == 0 {
        return Err(reason("expected test form"));
    }
    let test_form = slice_index_get(arg_forms, 0);
    proof {
        assert(av[0] == test_form@);
        assert(decreases_to!(av => av[0]));
    }
    match eval(test_form, env, at, fuel) {
        Err(e) => Err(e),
        Ok(t) => match t {
            Expression::Bool(b) => {
                let idx: usize = if b {
                    1
                } else {
                    2
                };
                if idx >= arg_forms.len() {
                    if b {
                        Err(reason("expected form idx=1"))
                    } else {
                        Err(reason("expected form idx=2"))
                    }
                } else {
                    proof {
                        assert(av[idx as int] == arg_forms@[idx as int]@);
                        assert(decreases_to!(av => av[idx as int]));
                        lemma_same_shape_wf(old(env)@, env@);
                    }
                    let branch = slice_index_get(arg_forms, idx);
                    eval(branch, env, at, fuel)
                }
            },
            _ => Err(err_non_boolean_test(test_form)),
        },
    }
}

/// The `def` form: binds a bare symbol to the value of the second form in
/// the current frame, and returns the symbol form itself.
pub fn eval_def_args(arg_forms: &[Expression], env: &mut Environment, at: usize, fuel: u64) -> (r:
    Result<Expression, Error>)
    requires
        env_wf(old(env)@),
        at < old(env)@.len(),
    ensures
        same_shape(old(env)@, final(env)@),
        eval_def_spec(old(env)@, at as int, arg_forms.deep_view(), fuel as nat) == (
            final(env)@,
            res_view(r),
        ),
    decreases fuel, arg_forms.deep_view(), 0int,
{
    let ghost av = arg_forms.deep_view();
    if arg_forms.len() == 0 {
        return Err(reason("expected first form"));
    }
    let first_form = slice_index_get(arg_forms, 0);
    proof {
        assert(av[0] == first_form@);
    }
    match first_form {
        Expression::Symbol(name) => {
            if arg_forms.len() < 2 {
                Err(reason("expected second form"))
            } else if arg_forms.len() > 2 {
                Err(reason("def can only have two forms "))
            } else {
                let second_form = slice_index_get(arg_forms, 1);
                proof {
                    assert(av[1] == second_form@);
                    assert(decreases_to!(av => av[1]));
                }
                match eval(second_form, env, at, fuel) {
                    Err(e) => Err(e),
                    Ok(v) => {
                        define(env, at, name.clone(), v);
                        Ok(first_form.clone())
                    },
                }
            }
        },
        _ => Err(reason("expected first form to be a symbol")),
    }
}

/// The `fn` form: wraps the unevaluated parameter form and body form into a
/// closure, validating neither yet.
pub fn eval_lambda_args(arg_forms: &[Expression]) -> (r: Result<Expression, Error>)
    ensures
        res_view(r) == lambda_of_args_spec(arg_forms.deep_view()),
{
    if arg_forms.len() == 0 {
        Err(reason("expected args form"))
    } else if arg_forms.len() < 2 {
        Err(reason("expected second form"))
    } else if arg_forms.len() > 2 {
        Err(reason("fn definition can only have two forms "))
    } else {
        let params = slice_index_get(arg_forms, 0).clone();
        let body = slice_index_get(arg_forms, 1).clone();
        Ok(Expression::Lambda(Lambda { params_exp: Box::new(params), body_exp: Box::new(body) }))
    }
}

/// Dispatches the special forms: when the head is the symbol `if`, `def`
/// or `fn`, handles it against the unevaluated argument forms; otherwise
/// leaves the list to generic application.
pub fn eval_built_in_form(
    exp: &Expression,
    arg_forms: &[Expression],
    env: &mut Environment,
    at: usize,
    fuel: u64,
) -> (r: Option<Result<Expression, Error>>)
    requires
        env_wf(old(env)@),
        at < old(env)@.len(),
    ensures
        same_shape(old(env)@, final(env)@),
        (match r {
            Some(res) => eval_built_in_spec(
                old(env)@,
                at as int,
                exp@,
                arg_forms.deep_view(),
                fuel as nat,
            ) == Some((final(env)@, res_view(res))),
            None => eval_built_in_spec(
                old(env)@,
                at as int,
                exp@,
                arg_forms.deep_view(),
                fuel as nat,
            ) is None && final(env)@ == old(env)@,
        }),
    decreases fuel, arg_forms.deep_view(), 1int,
{
    match exp {
        Expression::Symbol(s) => {
            if crate::parser::eq_lit(s, "if") {
                Some(eval_if_args(arg_forms, env, at, fuel))
            } else if crate::parser::eq_lit(s, "def") {
                Some(eval_def_args(arg_forms, env, at, fuel))
            } else if crate::parser::eq_lit(s, "fn") {
                Some(eval_lambda_args(arg_forms))
            } else {
                None
            }
        },
        _ => None,
    }
}

/// Reduces an expression against the environment chain rooted at frame
/// `at`: symbols are looked up, booleans and numbers evaluate to
/// themselves, a non-empty list is a special form or a call, and a bare
/// function or closure value is an error. `fuel` bounds the depth of
/// closure applications.
pub fn eval(exp: &Expression, env: &mut Environment, at: usize, fuel: u64) -> (r: Result<
    Expression,
    Error,
>)
    requires
        env_wf(old(env)@),
        at < old(env)@.len(),
    ensures
        same_shape(old(env)@, final(env)@),
        eval_spec(old(env)@, at as int, exp@, fuel as nat) == (final(env)@, res_view(r)),
    decreases fuel, exp@, 1int,
{
    let ghost goal = eval_spec(old(env)@, at as int, exp@, fuel as nat);
    match exp {
        Expression::Symbol(k) => match env_get(k.as_str(), env, at) {
            Some(e) => Ok(e),
            None => Err(err_unbound_symbol(k)),
        },
        Expression::Bool(_) => Ok(exp.clone()),
        Expression::Number(_) => Ok(exp.clone()),
        Expression::List(list) => {
            if list.len() == 0 {
                let er = reason("expected a non-empty list");
                proof {
                    assert(exp@ == ExpV::List(Expression::view_seq(list@)));
                    assert(Expression::view_seq(list@).len() == 0);
                    assert(er@ == msg_empty_list());
                    assert(goal == (env@, Err::<ExpV, Seq<char>>(er@)));
                }
                Err(er)
            } else {
                let ghost lv = Expression::view_seq(list@);
                proof {
                    Expression::lemma_view_seq(list@);
                    assert(exp@ == ExpV::List(lv));
                    assert(decreases_to!(exp@ => exp@->List_0));
                    assert(decreases_to!(lv => lv[0]));
                    assert(decreases_to!(lv => lv.drop_first()));
                    assert(decreases_to!(exp@ => lv[0]));
                    assert(decreases_to!(exp@ => lv.drop_first()));
                }
                let first_form = slice_index_get(list.as_slice(), 0);
                let arg_forms = slice_subrange(list.as_slice(), 1, list.len());
                proof {
                    assert(first_form@ == lv[0]);
                    assert(arg_forms.deep_view() =~= lv.drop_first());
                }
                match eval_built_in_form(first_form, arg_forms, env, at, fuel) {
                    Some(res) => res,
                    None => {
                        let first_eval = match eval(first_form, env, at, fuel) {
                            Ok(f) => f,
                            Err(e) => {
                                return Err(e);
                            },
                        };
                        proof {
                            lemma_same_shape_wf(old(env)@, env@);
                        }
                        match first_eval {
                            Expression::Function(b) => {
                                match eval_forms(arg_forms, env, at, fuel) {
                                    Err(e) => Err(e),
                                    Ok(vs) => apply_builtin(b, &vs),
                                }
                            },
                            Expression::Lambda(lambda) => {
                                let ghost env1 = env@;
                                match env_for_lambda(
                                    &lambda.params_exp,
                                    arg_forms,
                                    env,
                                    at,
                                    fuel,
                                ) {
                                    Err(e) => Err(e),
                                    Ok(new_idx) => {
                                        let ghost envp = env@;
                                        let res = eval(&lambda.body_exp, env, new_idx, fuel - 1);
                                        let ghost env3 = env@;
                                        let _popped = env.frames.pop();
                                        proof {
                                            assert(env3.len() == envp.len());
                                            assert(env@ =~= env3.drop_last());
                                            assert(env3.drop_last() =~= env3.take(
                                                envp.len() - 1,
                                            ));
                                            assert(goal == (env@, res_view(res)));
                                        }
                                        res
                                    },
                                }
                            },
                            _ => Err(reason("first form must be a function")),
                        }
                    },
                }
            }
        },
        Expression::Function(_) => Err(reason("unexpected form")),
        Expression::Lambda(_) => Err(reason("unexpected form")),
    }
}

/// Evaluation never adds, removes or relinks frames: it only changes
/// bindings. In particular a failed evaluation cannot corrupt the chain.
pub proof fn lemma_eval_preserves_shape(env: Seq<FrameV>, at: int, e: ExpV, fuel: nat)
    ensures
        same_shape(env, eval_spec(env, at, e, fuel).0),
    decreases fuel, e, 1int,
{
    match e {
        ExpV::List(l) => {
            if l.len() > 0 {
                assert(decreases_to!(l => l[0]));
                assert(decreases_to!(l => l.drop_first()));
                assert(decreases_to!(e => l[0]));
                assert(decreases_to!(e => l.drop_first()));
                let head = l[0];
                let args = l.drop_first();
                match eval_built_in_spec(env, at, head, args, fuel) {
                    Some(_) => {
                        lemma_built_in_preserves_shape(env, at, head, args, fuel);
                    },
                    None => {
                        lemma_eval_preserves_shape(env, at, head, fuel);
                        let (env1, r1) = eval_spec(env, at, head, fuel);
                        match r1 {
                            Err(_) => {},
                            Ok(f) => match f {
                                ExpV::Function(_) => {
                                    lemma_forms_preserve_shape(env1, at, args, fuel);
                                },
                                ExpV::Lambda { params, body } => {
                                    match params_names_spec(*params) {
                                        Err(_) => {},
                                        Ok(ks) => {
                                            if ks.len() == args.len() {
                                                lemma_forms_preserve_shape(env1, at, args, fuel);
                                                let (env2, r2) = eval_forms_spec(
                                                    env1,
                                                    at,
                                                    args,
                                                    fuel,
                                                );
                                                if r2 is Ok && fuel > 0 {
                                                    let envp = env2.push(
                                                        FrameV {
                                                            map: bind_params(ks, r2->Ok_0),
                                                            outer: Some(at),
                                                        },
                                                    );
                                                    lemma_eval_preserves_shape(
                                                        envp,
                                                        env2.len() as int,
                                                        *body,
                                                        (fuel - 1) as nat,
                                                    );
                                                    let env3 = eval_spec(
                                                        envp,
                                                        env2.len() as int,
                                                        *body,
                                                        (fuel - 1) as nat,
                                                    ).0;
                                                    assert(same_shape(
                                                        env,
                                                        env3.take(env2.len() as int),
                                                    ));
                                                }
                                            }
                                        },
                                    }
                                },
                                _ => {},
                            },
                        }
                    },
                }
            }
        },
        _ => {},
    }
}

proof fn lemma_built_in_preserves_shape(
    env: Seq<FrameV>,
    at: int,
    head: ExpV,
    args: Seq<ExpV>,
    fuel: nat,
)
    ensures
        eval_built_in_spec(env, at, head, args, fuel) matches Some(out) ==> same_shape(env, out.0),
    decreases fuel, args, 1int,
{
    if head == ExpV::Symbol("if"@) {
        lemma_if_preserves_shape(env, at, args, fuel);
    } else if head == ExpV::Symbol("def"@) {
        lemma_def_preserves_shape(env, at, args, fuel);
    }
}

proof fn lemma_if_preserves_shape(env: Seq<FrameV>, at: int, args: Seq<ExpV>, fuel: nat)
    ensures
        same_shape(env, eval_if_spec(env, at, args, fuel).0),
    decreases fuel, args, 0int,
{
    if args.len() > 0 {
        assert(decreases_to!(args => args[0]));
        lemma_eval_preserves_shape(env, at, args[0], fuel);
        let (env1, r1) = eval_spec(env, at, args[0], fuel);
        match r1 {
            Ok(ExpV::Bool(b)) => {
                let idx: int = if b {
                    1
                } else {
                    2
                };
                if idx < args.len() {
                    assert(decreases_to!(args => args[idx]));
                    lemma_eval_preserves_shape(env1, at, args[idx], fuel);
                }
            },
            _ => {},
        }
    }
}

proof fn lemma_def_preserves_shape(env: Seq<FrameV>, at: int, args: Seq<ExpV>, fuel: nat)
    ensures
        same_shape(env, eval_def_spec(env, at, args, fuel).0),
    decreases fuel, args, 0int,
{
    if args.len() > 0 && args[0] is Symbol && args.len() == 2 {
        assert(decreases_to!(args => args[1]));
        lemma_eval_preserves_shape(env, at, args[1], fuel);
    }
}

proof fn lemma_forms_preserve_shape(env: Seq<FrameV>, at: int, forms: Seq<ExpV>, fuel: nat)
    ensures
        same_shape(env, eval_forms_spec(env, at, forms, fuel).0),
    decreases fuel, forms, 0int,
{
    if forms.len() > 0 {
        assert(decreases_to!(forms => forms[0]));
        assert(decreases_to!(forms => forms.drop_first()));
        lemma_eval_preserves_shape(env, at, forms[0], fuel);
        let (env1, r1) = eval_spec(env, at, forms[0], fuel);
        if r1 is Ok {
            lemma_forms_preserve_shape(env1, at, forms.drop_first(), fuel);
        }
    }
}

/// An already-reduced boolean or number evaluates to itself and leaves any
/// environment unchanged, whatever the frame and the remaining depth.
pub proof fn lemma_self_evaluating(env: Seq<FrameV>, at: int, e: ExpV, fuel: nat)
    requires
        e is Bool || e is Number,
    ensures
        eval_spec(env, at, e, fuel) == (env, Ok::<ExpV, Seq<char>>(e)),
{
}

/// Evaluating a bare symbol that no frame in the chain binds fails with the
/// unbound-symbol error naming it, and changes nothing.
pub proof fn lemma_unbound_symbol(env: Seq<FrameV>, at: int, name: Seq<char>, fuel: nat)
    requires
        env_lookup(env, at, name) is None,
    ensures
        eval_spec(env, at, ExpV::Symbol(name), fuel) == (
            env,
            Err::<ExpV, Seq<char>>(msg_unbound_symbol(name)),
        ),
{
}

/// A successful `def` evaluates to the defined symbol itself, not to the
/// bound value, and afterwards that symbol looks up, at the frame the `def`
/// ran in, to the value its second form evaluated to.
pub proof fn lemma_def_binds(env: Seq<FrameV>, at: int, name: Seq<char>, ve: ExpV, fuel: nat)
    requires
        0 <= at < env.len(),
        eval_spec(env, at, ve, fuel).1 is Ok,
    ensures
        ({
            let (env1, rv) = eval_spec(env, at, ve, fuel);
            let out = eval_spec(
                env,
                at,
                ExpV::List(seq![ExpV::Symbol("def"@), ExpV::Symbol(name), ve]),
                fuel,
            );
            &&& out.1 == Ok::<ExpV, Seq<char>>(ExpV::Symbol(name))
            &&& env_lookup(out.0, at, name) == Some(rv->Ok_0)
        }),
{
    let l = seq![ExpV::Symbol("def"@), ExpV::Symbol(name), ve];
    let args = l.drop_first();
    assert(args =~= seq![ExpV::Symbol(name), ve]);
    reveal_strlit("if");
    reveal_strlit("def");
    assert("def"@.len() == 3 && "if"@.len() == 2);
    assert(ExpV::Symbol("def"@) != ExpV::Symbol("if"@));
    lemma_eval_preserves_shape(env, at, ve, fuel);
    let (env1, rv) = eval_spec(env, at, ve, fuel);
    let v = rv->Ok_0;
    assert(args[0] == ExpV::Symbol(name) && args[1] == ve && args.len() == 2);
    let out = eval_def_spec(env, at, args, fuel);
    assert(0 <= at < env1.len());
    assert(out.0 == env1.update(
        at,
        FrameV { map: env1[at].map.insert(name, v), outer: env1[at].outer },
    ));
    assert(out.0[at].map.contains_key(name));
    assert(env_lookup(out.0, at, name) == Some(v));
    assert(l.len() == 3);
    assert(l[0] == ExpV::Symbol("def"@));
    assert(eval_built_in_spec(env, at, l[0], args, fuel) == Some(out));
    assert(eval_spec(env, at, ExpV::List(l), fuel) == out);
}

/// Tokenizes and parses one line of text, then evaluates the expression it
/// holds at the top-level frame. Trailing tokens after the first
/// expression are ignored. A parse failure leaves the environment
/// untouched.
pub fn parse_eval(expr: String, env: &mut Environment) -> (r: Result<Expression, Error>)
    requires
        env_wf(old(env)@),
        old(env)@.len() > 0,
    ensures
        (match parse_spec(tokenize_spec(expr@), 0) {
            Err(m) => r is Err && r->Err_0@ == m && final(env)@ == old(env)@,
            Ok(pe) => eval_spec(old(env)@, 0, pe.0, EVAL_FUEL as nat) == (
                final(env)@,
                res_view(r),
            ),
        }),
{
    let tokens = tokenize(expr);
    match parse(tokens.as_slice()) {
        Err(e) => Err(e),
        Ok((parsed_exp, _rest)) => eval(&parsed_exp, env, 0, EVAL_FUEL),
    }
}

} // verus!
