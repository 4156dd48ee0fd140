//! The tokenizer: parentheses become tokens of their own, as if padded with
//! spaces, and the rest of the text is split on whitespace runs. It never
//! fails, and it is a pure function of the input text.
use vstd::prelude::*;

verus! {

/// A whitespace character: a split point between tokens.
pub open spec fn is_ws(c: char) -> bool {
    c == ' ' || c == '\t' || c == '\n' || c == '\r'
}

/// A character that always forms a token of its own.
pub open spec fn is_paren(c: char) -> bool {
    c == '(' || c == ')'
}

/// The length of the maximal leading run of ordinary characters, those that
/// are neither whitespace nor a parenthesis.
pub open spec fn token_len(s: Seq<char>) -> nat
    decreases s.len(),
{
    if s.len() == 0 || is_ws(s[0]) || is_paren(s[0]) {
        0
    } else {
        1 + token_len(s.drop_first())
    }
}

/// The leading run never reaches past the end of the text.
pub proof fn lemma_token_len_le(s: Seq<char>)
    ensures
        token_len(s) <= s.len(),
    decreases s.len(),
{
    if s.len() > 0 && !is_ws(s[0]) && !is_paren(s[0]) {
        lemma_token_len_le(s.drop_first());
    }
}

/// The token sequence of a text: each parenthesis stands alone, and each
/// maximal run of ordinary characters forms one token.
pub open spec fn tokenize_spec(s: Seq<char>) -> Seq<Seq<char>>
    decreases s.len(),
{
    if s.len() == 0 {
        Seq::empty()
    } else if is_ws(s[0]) {
        tokenize_spec(s.drop_first())
    } else if is_paren(s[0]) {
        seq![seq![s[0]]] + tokenize_spec(s.drop_first())
    } else {
        proof {
            lemma_token_len_le(s);
        }
        seq![s.take(token_len(s) as int)] + tokenize_spec(s.skip(token_len(s) as int))
    }
}

fn is_ws_char(c: char) -> (r: bool)
    ensures
        r == is_ws(c),
{
    c == ' ' || c == '\t' || c == '\n' || c == '\r'
}

fn is_paren_char(c: char) -> (r: bool)
    ensures
        r == is_paren(c),
{
    c == '(' || c == ')'
}

/// Over a range of ordinary characters that ends at a boundary, the leading
/// run seen from the start of the range spans exactly the range.
proof fn lemma_token_len_run(s: Seq<char>, a: int, b: int)
    requires
        0 <= a <= b <= s.len(),
        forall|k: int| a <= k < b ==> !is_ws(#[trigger] s[k]) && !is_paren(s[k]),
        b == s.len() || is_ws(s[b]) || is_paren(s[b]),
    ensures
        token_len(s.skip(a)) == b - a,
    decreases b - a,
{
    if a == b {
        if a < s.len() {
            assert(s.skip(a)[0] == s[a]);
        }
    } else {
        assert(s.skip(a)[0] == s[a]);
        assert(s.skip(a).drop_first() =~= s.skip(a + 1));
        lemma_token_len_run(s, a + 1, b);
    }
}

/// Splits a text into its tokens: each `(` and `)` is a token by itself,
/// and whitespace separates the rest.
#[verifier::loop_isolation(false)]
pub fn tokenize(expr: String) -> (tokens: Vec<String>)
    ensures
        tokens.deep_view() == tokenize_spec(expr@),
{
    let s = expr.as_str();
    let n = s.unicode_len();
    let mut tokens: Vec<String> = Vec::new();
    let mut i: usize = 0;
    proof {
        assert(s@.skip(0) =~= s@);
        assert(tokens.deep_view() =~= Seq::<Seq<char>>::empty());
        assert(tokens.deep_view() + tokenize_spec(s@) =~= tokenize_spec(s@));
    }
    while i < n
        invariant
            i <= n,
            tokens.deep_view() + tokenize_spec(s@.skip(i as int)) =~= tokenize_spec(s@),
        decreases n - i,
    {
        let c = s.get_char(i);
        if is_ws_char(c) {
            proof {
                assert(s@.skip(i as int).drop_first() =~= s@.skip(i + 1));
            }
            i = i + 1;
        } else if is_paren_char(c) {
            let tok = String::from_str(s.substring_char(i, i + 1));
            tokens.push(tok);
            proof {
                assert(s@.skip(i as int).drop_first() =~= s@.skip(i + 1));
                assert(s@.subrange(i as int, i + 1) =~= seq![s@[i as int]]);
                assert(tokens.deep_view() =~= tokens.deep_view().take(
                    tokens.deep_view().len() - 1,
                ).push(seq![s@[i as int]]));
            }
            i = i + 1;
        } else {
            let mut j: usize = i + 1;
            while j < n
                invariant
                    i < j <= n,
                    forall|k: int| i <= k < j ==> !is_ws(#[trigger] s@[k]) && !is_paren(s@[k]),
                decreases n - j,
            {
                let cj = s.get_char(j);
                if is_ws_char(cj) || is_paren_char(cj) {
                    break ;
                }
                j = j + 1;
            }
            proof {
                lemma_token_len_run(s@, i as int, j as int);
                assert(s@.skip(i as int).take(j - i) =~= s@.subrange(i as int, j as int));
                assert(s@.skip(i as int).skip(j - i) =~= s@.skip(j as int));
            }
            let tok = String::from_str(s.substring_char(i, j));
            tokens.push(tok);
            proof {
                assert(tokens.deep_view() =~= tokens.deep_view().take(
                    tokens.deep_view().len() - 1,
                ).push(s@.subrange(i as int, j as int)));
            }
            i = j;
        }
    }
    proof {
        assert(s@.skip(n as int) =~= Seq::<char>::empty());
        assert(tokens.deep_view() =~= tokenize_spec(s@));
    }
    tokens
}

/// A token as the tokenizer produces it: a lone parenthesis, or a nonempty
/// run of ordinary characters.
pub open spec fn wf_token(t: Seq<char>) -> bool {
    t == seq!['('] || t == seq![')'] || (t.len() > 0 && forall|i: int|
        0 <= i < t.len() ==> !is_ws(#[trigger] t[i]) && !is_paren(t[i]))
}

/// The tokens joined back into one text with single spaces between them.
pub open spec fn join_tokens(ts: Seq<Seq<char>>) -> Seq<char>
    decreases ts.len(),
{
    if ts.len() == 0 {
        Seq::empty()
    } else if ts.len() == 1 {
        ts[0]
    } else {
        ts[0] + seq![' '] + join_tokens(ts.drop_first())
    }
}

/// A run of ordinary characters followed by a boundary is its own leading
/// run.
proof fn lemma_token_len_concat(t: Seq<char>, tail: Seq<char>)
    requires
        t.len() > 0,
        forall|i: int| 0 <= i < t.len() ==> !is_ws(#[trigger] t[i]) && !is_paren(t[i]),
        tail.len() == 0 || is_ws(tail[0]) || is_paren(tail[0]),
    ensures
        token_len(t + tail) == t.len(),
{
    lemma_token_len_run(t + tail, 0, t.len() as int);
    assert(forall|k: int| 0 <= k < t.len() ==> (t + tail)[k] == t[k]);
    if tail.len() > 0 {
        assert((t + tail)[t.len() as int] == tail[0]);
    }
    assert((t + tail).skip(0) =~= t + tail);
}

/// Tokenizing one well-formed token followed by a boundary yields that
/// token and then the tokens of the rest.
proof fn lemma_tokenize_step(t: Seq<char>, tail: Seq<char>)
    requires
        wf_token(t),
        tail.len() == 0 || is_ws(tail[0]),
    ensures
        tokenize_spec(t + tail) == seq![t] + tokenize_spec(tail),
{
    let s = t + tail;
    assert(s.len() > 0);
    assert(s[0] == t[0]);
    if t == seq!['('] || t == seq![')'] {
        assert(is_paren(s[0]));
        assert(s.drop_first() =~= tail);
        assert(seq![seq![s[0]]] =~= seq![t]);
    } else {
        assert(!is_ws(t[0]) && !is_paren(t[0]));
        lemma_token_len_concat(t, tail);
        assert(s.take(t.len() as int) =~= t);
        assert(s.skip(t.len() as int) =~= tail);
    }
}

/// Re-joining a token sequence with single spaces and tokenizing again
/// gives back exactly the same tokens, for any sequence of well-formed
/// tokens: lone parentheses and whitespace-free atoms.
pub proof fn lemma_tokenize_round_trip(ts: Seq<Seq<char>>)
    requires
        forall|i: int| 0 <= i < ts.len() ==> wf_token(#[trigger] ts[i]),
    ensures
        tokenize_spec(join_tokens(ts)) == ts,
    decreases ts.len(),
{
    if ts.len() == 0 {
        assert(tokenize_spec(join_tokens(ts)) =~= ts);
    } else if ts.len() == 1 {
        lemma_tokenize_step(ts[0], Seq::empty());
        assert(ts[0] + Seq::<char>::empty() =~= ts[0]);
        assert(seq![ts[0]] + tokenize_spec(Seq::<char>::empty()) =~= ts);
    } else {
        let t = ts[0];
        let rest = seq![' '] + join_tokens(ts.drop_first());
        lemma_tokenize_step(t, rest);
        assert(join_tokens(ts) == t + rest);
        assert(rest.drop_first() =~= join_tokens(ts.drop_first()));
        lemma_tokenize_round_trip(ts.drop_first());
        assert(tokenize_spec(rest) == tokenize_spec(join_tokens(ts.drop_first())));
        assert(seq![t] + tokenize_spec(rest) =~= ts);
    }
}

} // verus!
