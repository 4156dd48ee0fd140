//! The environment chain: an arena of scope frames, each mapping symbol
//! names to values and linking to the enclosing frame. Definition writes
//! the local frame only, so inner frames shadow outer ones; lookup walks
//! the chain outward.
use vstd::prelude::*;
use crate::expr::{Builtin, ExpV, Expression};

verus! {

/// The mathematical shape of one frame: its bindings and the index of the
/// enclosing frame.
pub struct FrameV {
    pub map: Map<Seq<char>, ExpV>,
    pub outer: Option<int>,
}

/// One scope frame. Bindings are kept in insertion order; a later entry
/// with the same name shadows an earlier one.
pub struct Frame {
    pub data: Vec<(String, Expression)>,
    pub outer: Option<usize>,
}

/// The bindings of a frame: later entries override earlier ones.
pub open spec fn frame_map(entries: Seq<(String, Expression)>) -> Map<Seq<char>, ExpV>
    decreases entries.len(),
{
    if entries.len() == 0 {
        Map::empty()
    } else {
        frame_map(entries.drop_last()).insert(entries.last().0@, entries.last().1@)
    }
}

impl View for Frame {
    type V = FrameV;

    open spec fn view(&self) -> FrameV {
        FrameV {
            map: frame_map(self.data@),
            outer: match self.outer {
                Some(j) => Some(j as int),
                None => None,
            },
        }
    }
}

/// The whole environment: an arena of frames. The frame at index 0 is the
/// top level; a call frame links outward to the frame of its caller.
pub struct Environment {
    pub frames: Vec<Frame>,
}

impl View for Environment {
    type V = Seq<FrameV>;

    open spec fn view(&self) -> Seq<FrameV> {
        Seq::new(self.frames@.len(), |i: int| self.frames@[i]@)
    }
}

/// Every frame's outer link points strictly backward to an existing frame,
/// so a chain walk terminates.
pub open spec fn env_wf(env: Seq<FrameV>) -> bool {
    forall|i: int|
        0 <= i < env.len() ==> (#[trigger] env[i].outer matches Some(j) ==> 0 <= j < i)
}

/// The value bound to `k` at frame `at`: the local binding if there is one,
/// else the binding found by following the outer links; `None` when no
/// frame in the chain binds `k`. (The guard on the outer index never binds
/// in a well-formed environment; it keeps the walk well-founded.)
pub open spec fn env_lookup(env: Seq<FrameV>, at: int, k: Seq<char>) -> Option<ExpV>
    decreases at,
{
    if 0 <= at < env.len() {
        if env[at].map.contains_key(k) {
            Some(env[at].map[k])
        } else {
            match env[at].outer {
                Some(j) => if 0 <= j < at {
                    env_lookup(env, j, k)
                } else {
                    None
                },
                None => None,
            }
        }
    } else {
        None
    }
}

fn frame_get_upto(data: &Vec<(String, Expression)>, k: &String, n: usize) -> (r: Option<
    Expression,
>)
    requires
        n <= data@.len(),
    ensures
        (match r {
            Some(e) => frame_map(data@.take(n as int)).contains_key(k@) && e@ == frame_map(
                data@.take(n as int),
            )[k@],
            None => !frame_map(data@.take(n as int)).contains_key(k@),
        }),
    decreases n,
{
    if n == 0 {
        proof {
            assert(data@.take(0) =~= Seq::<(String, Expression)>::empty());
        }
        None
    } else {
        proof {
            assert(data@.take(n as int).drop_last() =~= data@.take(n - 1));
            assert(data@.take(n as int).last() == data@[n - 1]);
        }
        let entry = &data[n - 1];
        if entry.0 == *k {
            Some(entry.1.clone())
        } else {
            frame_get_upto(data, k, n - 1)
        }
    }
}

/// Looks a symbol up: the local frame first, then the chain of outer
/// frames; `None` when no frame binds it. The returned value is a copy of
/// the stored one.
pub fn env_get(k: &str, env: &Environment, at: usize) -> (r: Option<Expression>)
    requires
        env_wf(env@),
    ensures
        (match r {
            Some(e) => env_lookup(env@, at as int, k@) matches Some(v) && e@ == v,
            None => env_lookup(env@, at as int, k@) is None,
        }),
    decreases at,
{
    if at >= env.frames.len() {
        None
    } else {
        let key = String::from_str(k);
        let frame = &env.frames[at];
        match frame_get_upto(&frame.data, &key, frame.data.len()) {
            Some(e) => {
                proof {
                    assert(frame.data@.take(frame.data@.len() as int) =~= frame.data@);
                }
                Some(e)
            },
            None => {
                proof {
                    assert(frame.data@.take(frame.data@.len() as int) =~= frame.data@);
                }
                match frame.outer {
                    Some(j) => env_get(k, env, j),
                    None => None,
                }
            },
        }
    }
}

/// Binds `k` to `v` in the frame at `at` alone: it can shadow an outer
/// binding but never changes one.
pub fn define(env: &mut Environment, at: usize, k: String, v: Expression)
    requires
        at < old(env)@.len(),
    ensures
        final(env)@ == old(env)@.update(
            at as int,
            FrameV {
                map: old(env)@[at as int].map.insert(k@, v@),
                outer: old(env)@[at as int].outer,
            },
        ),
{
    let ghost old_frames = env.frames@;
    let ghost kv = k@;
    let ghost vv = v@;
    env.frames[at].data.push((k, v));
    proof {
        let old_data = old_frames[at as int].data@;
        let new_data = env.frames@[at as int].data@;
        assert(new_data.drop_last() =~= old_data);
        assert(frame_map(new_data) == frame_map(old_data).insert(kv, vv));
        assert(env@ =~= old(env)@.update(
            at as int,
            FrameV {
                map: old(env)@[at as int].map.insert(kv, vv),
                outer: old(env)@[at as int].outer,
            },
        ));
    }
}

/// The builtin bindings of the top-level environment.
pub open spec fn default_env_map() -> Map<Seq<char>, ExpV> {
    Map::empty().insert("+"@, ExpV::Function(Builtin::Plus)).insert(
        "-"@,
        ExpV::Function(Builtin::Minus),
    ).insert("="@, ExpV::Function(Builtin::Equal)).insert(
        ">"@,
        ExpV::Function(Builtin::Greater),
    ).insert(">="@, ExpV::Function(Builtin::GreaterEq)).insert(
        "<"@,
        ExpV::Function(Builtin::Less),
    ).insert("<="@, ExpV::Function(Builtin::LessEq))
}

/// The top-level environment: one frame, holding the builtins and nothing
/// else.
pub fn default_env() -> (env: Environment)
    ensures
        env@.len() == 1,
        env@[0].map == default_env_map(),
        env@[0].outer is None,
        env_wf(env@),
{
    let mut data: Vec<(String, Expression)> = Vec::new();
    let ghost s0 = data@;
    data.push((String::from_str("+"), Expression::Function(Builtin::Plus)));
    let ghost s1 = data@;
    data.push((String::from_str("-"), Expression::Function(Builtin::Minus)));
    let ghost s2 = data@;
    data.push((String::from_str("="), Expression::Function(Builtin::Equal)));
    let ghost s3 = data@;
    data.push((String::from_str(">"), Expression::Function(Builtin::Greater)));
    let ghost s4 = data@;
    data.push((String::from_str(">="), Expression::Function(Builtin::GreaterEq)));
    let ghost s5 = data@;
    data.push((String::from_str("<"), Expression::Function(Builtin::Less)));
    let ghost s6 = data@;
    data.push((String::from_str("<="), Expression::Function(Builtin::LessEq)));
    let ghost s7 = data@;
    proof {
        assert(s1.drop_last() =~= s0);
        assert(s2.drop_last() =~= s1);
        assert(s3.drop_last() =~= s2);
        assert(s4.drop_last() =~= s3);
        assert(s5.drop_last() =~= s4);
        assert(s6.drop_last() =~= s5);
        assert(s7.drop_last() =~= s6);
        assert(s0 =~= Seq::<(String, Expression)>::empty());
        assert(frame_map(s0) =~= Map::<Seq<char>, ExpV>::empty());
        assert(frame_map(s1) =~= frame_map(s0).insert("+"@, ExpV::Function(Builtin::Plus)));
        assert(frame_map(s2) =~= frame_map(s1).insert("-"@, ExpV::Function(Builtin::Minus)));
        assert(frame_map(s3) =~= frame_map(s2).insert("="@, ExpV::Function(Builtin::Equal)));
        assert(frame_map(s4) =~= frame_map(s3).insert(">"@, ExpV::Function(Builtin::Greater)));
        assert(frame_map(s5) =~= frame_map(s4).insert(">="@, ExpV::Function(Builtin::GreaterEq)));
        assert(frame_map(s6) =~= frame_map(s5).insert("<"@, ExpV::Function(Builtin::Less)));
        assert(frame_map(s7) =~= frame_map(s6).insert("<="@, ExpV::Function(Builtin::LessEq)));
        assert(frame_map(s7) =~= default_env_map());
    }
    let frame = Frame { data, outer: None };
    let mut frames: Vec<Frame> = Vec::new();
    frames.push(frame);
    let env = Environment { frames };
    proof {
        assert(env@[0] == env.frames@[0]@);
    }
    env
}

} // verus!
