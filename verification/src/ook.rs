//! A tape machine for a small two-word instruction set: the program text is
//! split into two-word tokens, jump targets are matched up front, and the
//! machine itself is a tape of cells with a head that moves, counts and
//! reads one cell at a time.
use vstd::prelude::*;
use crate::parser::eq_lit;
use std::collections::HashMap;

verus! {

broadcast use vstd::std_specs::hash::group_hash_axioms;

/// A parsed program: the recognized instruction tokens in order, and the
/// matching jump positions, both ways.
pub struct Parsed {
    pub tokens: Vec<String>,
    pub bracket_map: HashMap<u64, u64>,
}

/// The tape: a head position and the cells seen so far. The tape grows on
/// demand when the head moves past the right end.
pub struct Tape {
    position: usize,
    thetape: Vec<u64>,
}

impl Tape {
    /// The head always stands on an existing cell.
    pub closed spec fn wf(&self) -> bool {
        (self.position as int) < self.thetape@.len()
    }

    /// The cells of the tape, in order.
    pub closed spec fn cells(&self) -> Seq<u64> {
        self.thetape@
    }

    /// The index of the cell the head stands on.
    pub closed spec fn pos(&self) -> int {
        self.position as int
    }

    /// A fresh tape: one zero cell, head on it.
    pub fn new() -> (t: Self)
        ensures
            t.wf(),
            t.cells() == seq![0u64],
            t.pos() == 0,
    {
        let mut cells: Vec<u64> = Vec::new();
        cells.push(0);
        proof {
            assert(cells@ =~= seq![0u64]);
        }
        Tape { position: 0, thetape: cells }
    }

    /// Reads the cell under the head.
    pub fn get(&mut self) -> (v: u64)
        requires
            old(self).wf(),
        ensures
            *final(self) == *old(self),
            v == old(self).cells()[old(self).pos()],
    {
        return self.thetape[self.position];
    }

    /// Overwrites the cell under the head.
    pub fn set(&mut self, val: u64)
        requires
            old(self).wf(),
        ensures
            final(self).wf(),
            final(self).cells() == old(self).cells().update(old(self).pos(), val),
            final(self).pos() == old(self).pos(),
    {
        let i = self.position;
        self.thetape[i] = val;
    }

    /// Counts the cell under the head up by one.
    pub fn inc(&mut self)
        requires
            old(self).wf(),
            old(self).cells()[old(self).pos()] < u64::MAX,
        ensures
            final(self).wf(),
            final(self).cells() == old(self).cells().update(
                old(self).pos(),
                (old(self).cells()[old(self).pos()] + 1) as u64,
            ),
            final(self).pos() == old(self).pos(),
    {
        let i = self.position;
        let v = self.thetape[i];
        self.thetape[i] = v + 1;
    }

    /// Counts the cell under the head down by one, but never below one:
    /// cells holding zero or one stay as they are.
    pub fn dec(&mut self)
        requires
            old(self).wf(),
        ensures
            final(self).wf(),
            final(self).pos() == old(self).pos(),
            final(self).cells() == (if old(self).cells()[old(self).pos()] > 1 {
                old(self).cells().update(
                    old(self).pos(),
                    (old(self).cells()[old(self).pos()] - 1) as u64,
                )
            } else {
                old(self).cells()
            }),
    {
        let i = self.position;
        let v = self.thetape[i];
        if v > 1 {
            self.thetape[i] = v - 1;
        }
        proof {
            if v <= 1 {
                assert(final(self).cells() =~= old(self).cells());
            }
        }
    }

    /// Moves the head one cell to the right, growing the tape with a zero
    /// cell when the head steps past the end.
    pub fn advance(&mut self)
        requires
            old(self).wf(),
        ensures
            final(self).wf(),
            final(self).pos() == old(self).pos() + 1,
            final(self).cells() == (if old(self).pos() + 1 == old(self).cells().len() {
                old(self).cells().push(0u64)
            } else {
                old(self).cells()
            }),
    {
        let n = self.thetape.len();
        self.position = self.position + 1;
        if n <= self.position {
            self.thetape.push(0);
        }
    }

    /// Moves the head one cell to the left, but never onto the first cell:
    /// from positions zero and one it does not move.
    pub fn devance(&mut self)
        requires
            old(self).wf(),
        ensures
            final(self).wf(),
            final(self).cells() == old(self).cells(),
            final(self).pos() == (if old(self).pos() > 1 {
                old(self).pos() - 1
            } else {
                old(self).pos()
            }),
    {
        if self.position > 1 {
            self.position = self.position - 1;
        }
    }
}

/// The length of the leading run of characters before the first space.
pub open spec fn fragment_len(s: Seq<char>) -> nat
    decreases s.len(),
{
    if s.len() == 0 || s[0] == ' ' {
        0
    } else {
        1 + fragment_len(s.drop_first())
    }
}

/// The leading run never reaches past the end of the text.
pub proof fn lemma_fragment_len_le(s: Seq<char>)
    ensures
        fragment_len(s) <= s.len(),
    decreases s.len(),
{
    if s.len() > 0 && s[0] != ' ' {
        lemma_fragment_len_le(s.drop_first());
    }
}

/// The text split at every single space: adjacent spaces and spaces at the
/// ends give empty fragments.
pub open spec fn split_fragments(s: Seq<char>) -> Seq<Seq<char>>
    decreases s.len(),
{
    let k = fragment_len(s) as int;
    if k == s.len() {
        seq![s]
    } else {
        proof {
            lemma_fragment_len_le(s);
        }
        seq![s.take(k)] + split_fragments(s.skip(k + 1))
    }
}

/// The two-word tokens of a program: the fragments around single spaces,
/// rejoined in consecutive pairs; a trailing odd fragment is dropped.
pub open spec fn split_spec(s: Seq<char>) -> Seq<Seq<char>> {
    let frags = split_fragments(s);
    Seq::new((frags.len() / 2) as nat, |n: int| frags[2 * n] + seq![' '] + frags[2 * n + 1])
}

/// Over a range of non-space characters that ends at a space or at the end
/// of the text, the leading run seen from the range's start spans exactly
/// the range.
proof fn lemma_fragment_run(s: Seq<char>, a: int, b: int)
    requires
        0 <= a <= b <= s.len(),
        forall|k: int| a <= k < b ==> s[k] != ' ',
        b == s.len() || s[b] == ' ',
    ensures
        fragment_len(s.skip(a)) == b - a,
    decreases b - a,
{
    if a == b {
        if a < s.len() {
            assert(s.skip(a)[0] == s[a]);
        }
    } else {
        assert(s.skip(a)[0] == s[a]);
        assert(s.skip(a).drop_first() =~= s.skip(a + 1));
        lemma_fragment_run(s, a + 1, b);
    }
}

/// Splits a program into two-word tokens: the text is cut at every single
/// space, and consecutive fragment pairs are joined back with one space.
#[verifier::loop_isolation(false)]
pub fn split(program: String) -> (tokens: Vec<String>)
    ensures
        tokens.deep_view() == split_spec(program@),
{
    let s = program.as_str();
    let n = s.unicode_len();
    let mut frags: Vec<String> = Vec::new();
    let mut start: usize = 0;
    let mut i: usize = 0;
    proof {
        assert(s@.skip(0) =~= s@);
        assert(frags.deep_view() =~= Seq::<Seq<char>>::empty());
    }
    while i < n
        invariant
            start <= i <= n,
            forall|k: int| start <= k < i ==> s@[k] != ' ',
            frags.deep_view() + split_fragments(s@.skip(start as int)) =~= split_fragments(s@),
        decreases n - i,
    {
        let c = s.get_char(i);
        if c == ' ' {
            proof {
                lemma_fragment_run(s@, start as int, i as int);
                assert(s@.skip(start as int).take(i - start) =~= s@.subrange(
                    start as int,
                    i as int,
                ));
                assert(s@.skip(start as int).skip(i - start + 1) =~= s@.skip(i + 1));
            }
            let frag = String::from_str(s.substring_char(start, i));
            frags.push(frag);
            proof {
                assert(frags.deep_view() =~= frags.deep_view().take(
                    frags.deep_view().len() - 1,
                ).push(s@.subrange(start as int, i as int)));
            }
            start = i + 1;
        }
        i = i + 1;
    }
    proof {
        lemma_fragment_run(s@, start as int, n as int);
        assert(fragment_len(s@.skip(start as int)) == n - start);
        assert(s@.skip(start as int).take(n - start) =~= s@.skip(start as int));
    }
    let last = String::from_str(s.substring_char(start, n));
    frags.push(last);
    proof {
        assert(s@.skip(start as int) =~= s@.subrange(start as int, n as int));
        assert(frags.deep_view() =~= frags.deep_view().take(frags.deep_view().len() - 1).push(
            s@.subrange(start as int, n as int),
        ));
        assert(split_fragments(s@.skip(start as int)) =~= seq![s@.skip(start as int)]);
        assert(frags.deep_view() =~= split_fragments(s@));
    }
    let ghost fv = frags.deep_view();
    let half = frags.len() / 2;
    let mut tokens: Vec<String> = Vec::new();
    let mut m: usize = 0;
    proof {
        reveal_strlit(" ");
    }
    while m < half
        invariant
            m <= half,
            half == fv.len() / 2,
            tokens.deep_view().len() == m as nat,
            forall|k: int|
                0 <= k < m ==> #[trigger] tokens.deep_view()[k] == fv[2 * k] + seq![' '] + fv[2 * k
                    + 1],
        decreases half - m,
    {
        let mut t = frags[2 * m].clone();
        t.append(" ");
        t.append(frags[2 * m + 1].as_str());
        let ghost old_tokens = tokens.deep_view();
        let ghost tval = t@;
        tokens.push(t);
        proof {
            assert(tokens.deep_view() =~= old_tokens.push(tval));
        }
        m = m + 1;
    }
    proof {
        assert(tokens.deep_view() =~= split_spec(program@));
    }
    tokens
}

/// One step of the machine: what a single instruction token asks for. The
/// two jump instructions are conditional on the current cell; everything a
/// host loop must do besides these is input and output.
#[derive(Clone, Copy, PartialEq, Eq, Structural, Debug)]
pub enum Instr {
    Advance,
    Devance,
    Inc,
    Dec,
    Print,
    Read,
    JumpIfZero,
    JumpIfNonzero,
}

/// The instruction a token stands for, or `None` for any other token.
pub fn decode(token: &String) -> (r: Option<Instr>)
    ensures
        r == (if token@ == "Ook. Ook?"@ {
            Some(Instr::Advance)
        } else if token@ == "Ook? Ook."@ {
            Some(Instr::Devance)
        } else if token@ == "Ook. Ook."@ {
            Some(Instr::Inc)
        } else if token@ == "Ook! Ook!"@ {
            Some(Instr::Dec)
        } else if token@ == "Ook! Ook."@ {
            Some(Instr::Print)
        } else if token@ == "Ook. Ook!"@ {
            Some(Instr::Read)
        } else if token@ == "Ook! Ook?"@ {
            Some(Instr::JumpIfZero)
        } else if token@ == "Ook? Ook!"@ {
            Some(Instr::JumpIfNonzero)
        } else {
            None
        }),
{
    if eq_lit(token, "Ook. Ook?") {
        Some(Instr::Advance)
    } else if eq_lit(token, "Ook? Ook.") {
        Some(Instr::Devance)
    } else if eq_lit(token, "Ook. Ook.") {
        Some(Instr::Inc)
    } else if eq_lit(token, "Ook! Ook!") {
        Some(Instr::Dec)
    } else if eq_lit(token, "Ook! Ook.") {
        Some(Instr::Print)
    } else if eq_lit(token, "Ook. Ook!") {
        Some(Instr::Read)
    } else if eq_lit(token, "Ook! Ook?") {
        Some(Instr::JumpIfZero)
    } else if eq_lit(token, "Ook? Ook!") {
        Some(Instr::JumpIfNonzero)
    } else {
        None
    }
}

/// One of the eight instruction spellings.
pub open spec fn is_instruction(t: Seq<char>) -> bool {
    ||| t == "Ook. Ook?"@
    ||| t == "Ook? Ook."@
    ||| t == "Ook. Ook."@
    ||| t == "Ook! Ook!"@
    ||| t == "Ook. Ook!"@
    ||| t == "Ook! Ook."@
    ||| t == "Ook! Ook?"@
    ||| t == "Ook? Ook!"@
}

fn is_instruction_token(t: &String) -> (r: bool)
    ensures
        r == is_instruction(t@),
{
    eq_lit(t, "Ook. Ook?") || eq_lit(t, "Ook? Ook.") || eq_lit(t, "Ook. Ook.") || eq_lit(
        t,
        "Ook! Ook!",
    ) || eq_lit(t, "Ook. Ook!") || eq_lit(t, "Ook! Ook.") || eq_lit(t, "Ook! Ook?") || eq_lit(
        t,
        "Ook? Ook!",
    )
}

/// The parse state after reading a token sequence: the instruction tokens
/// kept (anything else is dropped), the jump map pairing each opening
/// `Ook! Ook?` with its closing `Ook? Ook!` and back, and the stack of
/// still-open jump positions. An unmatched closer pairs with position zero.
pub open spec fn ook_state(tokens: Seq<Seq<char>>) -> (Seq<Seq<char>>, Map<u64, u64>, Seq<u64>)
    decreases tokens.len(),
{
    if tokens.len() == 0 {
        (Seq::empty(), Map::empty(), Seq::empty())
    } else {
        let (kept, map, stack) = ook_state(tokens.drop_last());
        let t = tokens.last();
        if is_instruction(t) {
            let pc = kept.len() as u64;
            if t == "Ook! Ook?"@ {
                (kept.push(t), map, stack.push(pc))
            } else if t == "Ook? Ook!"@ {
                let left = if stack.len() > 0 {
                    stack.last()
                } else {
                    0u64
                };
                let stack2 = if stack.len() > 0 {
                    stack.drop_last()
                } else {
                    stack
                };
                (kept.push(t), map.insert(left, pc).insert(pc, left), stack2)
            } else {
                (kept.push(t), map, stack)
            }
        } else {
            (kept, map, stack)
        }
    }
}

/// Parses a program: splits it into two-word tokens, keeps those that are
/// instructions, and records the matching jump positions both ways.
#[verifier::loop_isolation(false)]
pub fn parse(program: String) -> (p: Parsed)
    ensures
        ({
            let (kept, map, _stack) = ook_state(split_spec(program@));
            p.tokens.deep_view() == kept && p.bracket_map@ == map
        }),
{
    let tokens = split(program);
    let ghost tv = tokens.deep_view();
    let mut parsed: Vec<String> = Vec::new();
    let mut bracket_map: HashMap<u64, u64> = HashMap::new();
    let mut leftstack: Vec<u64> = Vec::new();
    let mut i: usize = 0;
    proof {
        assert(tv.take(0) =~= Seq::<Seq<char>>::empty());
        assert(parsed.deep_view() =~= Seq::<Seq<char>>::empty());
    }
    while i < tokens.len()
        invariant
            i <= tv.len(),
            parsed.deep_view().len() <= i as nat,
            ook_state(tv.take(i as int)) == (parsed.deep_view(), bracket_map@, leftstack@),
        decreases tv.len() - i,
    {
        proof {
            assert(tv.take(i + 1).drop_last() =~= tv.take(i as int));
            assert(tv.take(i + 1).last() == tv[i as int]);
            assert(tv[i as int] == tokens@[i as int]@);
        }
        let token = &tokens[i];
        if is_instruction_token(token) {
            let ghost old_parsed = parsed.deep_view();
            let pc = parsed.len() as u64;
            parsed.push(token.clone());
            proof {
                assert(parsed.deep_view() =~= old_parsed.push(token@));
            }
            if eq_lit(token, "Ook! Ook?") {
                leftstack.push(pc);
            } else if eq_lit(token, "Ook? Ook!") {
                let left = match leftstack.pop() {
                    Some(number) => number,
                    None => 0,
                };
                let right = pc;
                bracket_map.insert(left, right);
                bracket_map.insert(right, left);
            }
        }
        i = i + 1;
    }
    proof {
        assert(tv.take(tv.len() as int) =~= tv);
    }
    Parsed { tokens: parsed, bracket_map }
}

} // verus!
