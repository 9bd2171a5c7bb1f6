//! The round-trip law of the tokenizer.
//!
//! Tokenizing well-formed application text, joining the tokens with single
//! spaces, and wrapping the result in parens gives an expression that the
//! evaluator treats exactly like the original: the rejoined text tokenizes
//! to the same tokens, so evaluation proceeds identically at every
//! recursion fuel.
use crate::env::is_space;
use crate::env::trim;
use crate::interp::spec_eval;
use crate::tokenizer::is_separator;
use crate::tokenizer::paren_scan;
use crate::tokenizer::spec_tokenize;
use crate::tokenizer::tkz;
use crate::value::SpecValue;
use vstd::prelude::*;

verus! {

/// The tokens joined with single spaces.
pub open spec fn join_tokens(toks: Seq<Seq<char>>) -> Seq<char>
    decreases toks.len(),
{
    if toks.len() == 0 {
        Seq::empty()
    } else if toks.len() == 1 {
        toks[0]
    } else {
        toks[0] + seq![' '] + join_tokens(toks.drop_first())
    }
}

/// A token that rescans to itself with scanning continuing after it: a
/// plain word without separators, quotes or an opening paren; a complete
/// string literal; or a balanced parenthesized run.
pub open spec fn closed_token(t: Seq<char>) -> bool {
    t.len() >= 1 && {
        ||| (t[0] != '"' && t[0] != '(' && (forall|k: int|
            0 <= k < t.len() ==> !is_separator(#[trigger] t[k]) && t[k] != '"' && t[k] != '('))
        ||| (t[0] == '"' && t.len() >= 2 && t[t.len() - 1] == '"' && (forall|k: int|
            0 < k < t.len() - 1 ==> #[trigger] t[k] != '"'))
        ||| (t[0] == '(' && paren_scan(t, 1, 1) == Some(t.len() as int))
    }
}

/// A token that may stand only at the end: a string literal whose closing
/// quote is missing, which swallows the rest of the input.
pub open spec fn open_string_token(t: Seq<char>) -> bool {
    t.len() >= 1 && t[0] == '"' && (forall|k: int| 0 < k < t.len() ==> #[trigger] t[k] != '"')
}

/// Scanning from position `i` is the same as scanning the suffix at `i`
/// from its start.
pub proof fn lemma_paren_scan_shift(s: Seq<char>, i: int, d: nat)
    requires
        0 <= i <= s.len(),
    ensures
        paren_scan(s, i, d) == (match paren_scan(s.skip(i), 0, d) {
            Some(j) => Some(i + j),
            None => None::<int>,
        }),
    decreases s.len() - i,
{
    let suf = s.skip(i);
    if i < s.len() {
        assert(suf.len() == s.len() - i);
        assert(suf[0] == s[i]);
        assert(s.skip(i + 1) =~= suf.skip(1));
        if s[i] == '(' {
            lemma_paren_scan_shift(s, i + 1, d + 1);
            lemma_paren_scan_shift(suf, 1, d + 1);
        } else if s[i] == ')' {
            if d != 1 {
                lemma_paren_scan_shift(s, i + 1, (d - 1) as nat);
                lemma_paren_scan_shift(suf, 1, (d - 1) as nat);
            }
        } else {
            lemma_paren_scan_shift(s, i + 1, d);
            lemma_paren_scan_shift(suf, 1, d);
        }
    } else {
        assert(suf.len() == 0);
    }
}


/// Tokenizing from position `i` is the same as tokenizing the suffix at
/// `i` from its start.
pub proof fn lemma_tkz_shift(s: Seq<char>, i: int, cur: Seq<char>, acc: Seq<Seq<char>>, st: bool)
    requires
        0 <= i <= s.len(),
    ensures
        tkz(s, i, cur, acc, st) == tkz(s.skip(i), 0, cur, acc, st),
    decreases s.len() - i,
{
    let suf = s.skip(i);
    if i < s.len() {
        assert(suf.len() == s.len() - i);
        assert(suf[0] == s[i]);
        assert(s.skip(i + 1) =~= suf.skip(1));
        let c = s[i];
        if c == '"' {
            if st {
                lemma_tkz_shift(s, i + 1, Seq::empty(), acc.push(cur.push('"')), false);
                lemma_tkz_shift(suf, 1, Seq::empty(), acc.push(cur.push('"')), false);
            } else if cur.len() > 0 {
                lemma_tkz_shift(s, i + 1, seq!['"'], acc.push(cur), true);
                lemma_tkz_shift(suf, 1, seq!['"'], acc.push(cur), true);
            } else {
                lemma_tkz_shift(s, i + 1, seq!['"'], acc, true);
                lemma_tkz_shift(suf, 1, seq!['"'], acc, true);
            }
        } else if c == '(' && !st {
            let acc2 = if cur.len() > 0 {
                acc.push(cur)
            } else {
                acc
            };
            lemma_paren_scan_shift(s, i + 1, 1);
            lemma_paren_scan_shift(suf, 1, 1);
            match paren_scan(s, i + 1, 1) {
                None => {},
                Some(j) => {
                    crate::tokenizer::lemma_paren_scan_range(s, i + 1, 1);
                    assert(s.subrange(i, j) =~= suf.subrange(0, j - i));
                    assert(s.skip(j) =~= suf.skip(j - i));
                    lemma_tkz_shift(s, j, Seq::empty(), acc2.push(s.subrange(i, j)), false);
                    lemma_tkz_shift(suf, j - i, Seq::empty(), acc2.push(s.subrange(i, j)), false);
                },
            }
        } else if is_separator(c) && !st {
            if cur.len() > 0 {
                lemma_tkz_shift(s, i + 1, Seq::empty(), acc.push(cur), false);
                lemma_tkz_shift(suf, 1, Seq::empty(), acc.push(cur), false);
            } else {
                lemma_tkz_shift(s, i + 1, Seq::empty(), acc, false);
                lemma_tkz_shift(suf, 1, Seq::empty(), acc, false);
            }
        } else {
            lemma_tkz_shift(s, i + 1, cur.push(c), acc, st);
            lemma_tkz_shift(suf, 1, cur.push(c), acc, st);
        }
    } else {
        assert(suf.len() == 0);
    }
}


/// A completed paren scan only depends on the characters it consumed.
pub proof fn lemma_paren_scan_extend(t: Seq<char>, u: Seq<char>, a: int, d: nat, e: int)
    requires
        0 <= a,
        paren_scan(t, a, d) == Some(e),
        e <= t.len(),
        e <= u.len(),
        forall|m: int| a <= m < e ==> u[m] == #[trigger] t[m],
    ensures
        paren_scan(u, a, d) == Some(e),
    decreases t.len() - a,
{
    if a < t.len() {
        crate::tokenizer::lemma_paren_scan_range(t, a, d);
        assert(u[a] == t[a]);
        if t[a] == '(' {
            lemma_paren_scan_extend(t, u, a + 1, d + 1, e);
        } else if t[a] == ')' {
            if d != 1 {
                lemma_paren_scan_extend(t, u, a + 1, (d - 1) as nat, e);
            }
        } else {
            lemma_paren_scan_extend(t, u, a + 1, d, e);
        }
    }
}

/// Scanning the characters of a plain token accumulates exactly its text.
proof fn lemma_plain_scan(u: Seq<char>, t: Seq<char>, k: int, acc: Seq<Seq<char>>)
    requires
        t.len() <= u.len(),
        forall|m: int| 0 <= m < t.len() ==> u[m] == #[trigger] t[m],
        forall|m: int|
            0 <= m < t.len() ==> !is_separator(#[trigger] t[m]) && t[m] != '"' && t[m] != '(',
        0 <= k <= t.len(),
    ensures
        tkz(u, k, t.subrange(0, k), acc, false) == tkz(u, t.len() as int, t, acc, false),
    decreases t.len() - k,
{
    if k < t.len() {
        assert(u[k] == t[k]);
        assert(t.subrange(0, k).push(t[k]) =~= t.subrange(0, k + 1));
        lemma_plain_scan(u, t, k + 1, acc);
    } else {
        assert(t.subrange(0, k) =~= t);
    }
}

/// Scanning the interior of a string literal accumulates its text until
/// the closing quote ends the token.
proof fn lemma_string_scan(u: Seq<char>, t: Seq<char>, k: int, acc: Seq<Seq<char>>)
    requires
        t.len() <= u.len(),
        forall|m: int| 0 <= m < t.len() ==> u[m] == #[trigger] t[m],
        t.len() >= 2,
        t[0] == '"',
        t[t.len() - 1] == '"',
        forall|m: int| 0 < m < t.len() - 1 ==> #[trigger] t[m] != '"',
        1 <= k <= t.len() - 1,
    ensures
        tkz(u, k, t.subrange(0, k), acc, true) == tkz(
            u,
            t.len() as int,
            Seq::empty(),
            acc.push(t),
            false,
        ),
    decreases t.len() - k,
{
    assert(u[k] == t[k]);
    if k < t.len() - 1 {
        assert(t.subrange(0, k).push(t[k]) =~= t.subrange(0, k + 1));
        lemma_string_scan(u, t, k + 1, acc);
    } else {
        assert(t.subrange(0, k).push('"') =~= t);
    }
}

/// Scanning the interior of an unterminated string literal runs to the
/// end of the input, whose final flush yields the token.
proof fn lemma_open_string_scan(t: Seq<char>, k: int, acc: Seq<Seq<char>>)
    requires
        open_string_token(t),
        1 <= k <= t.len(),
    ensures
        tkz(t, k, t.subrange(0, k), acc, true) == Some(acc.push(t)),
    decreases t.len() - k,
{
    if k < t.len() {
        assert(t.subrange(0, k).push(t[k]) =~= t.subrange(0, k + 1));
        lemma_open_string_scan(t, k + 1, acc);
    } else {
        assert(t.subrange(0, k) =~= t);
    }
}


/// A closed token followed by a space rescans to itself, with scanning
/// continuing after the space.
proof fn lemma_scan_token_then(t: Seq<char>, rest: Seq<char>, acc: Seq<Seq<char>>)
    requires
        closed_token(t),
    ensures
        tkz(t + seq![' '] + rest, 0, Seq::empty(), acc, false) == tkz(
            rest,
            0,
            Seq::empty(),
            acc.push(t),
            false,
        ),
{
    let u = t + seq![' '] + rest;
    assert(u.len() == t.len() + 1 + rest.len());
    assert(forall|m: int| 0 <= m < t.len() ==> u[m] == #[trigger] t[m]);
    assert(u[t.len() as int] == ' ');
    if t[0] == '"' && t.len() >= 2 && t[t.len() - 1] == '"' && (forall|m: int|
        0 < m < t.len() - 1 ==> #[trigger] t[m] != '"') {
        assert(Seq::<char>::empty().push('"') =~= t.subrange(0, 1));
        lemma_string_scan(u, t, 1, acc);
    } else if t[0] == '(' {
        lemma_paren_scan_extend(t, u, 1, 1, t.len() as int);
        assert(u.subrange(0, t.len() as int) =~= t);
    } else {
        assert(t.subrange(0, 0) =~= Seq::<char>::empty());
        lemma_plain_scan(u, t, 0, acc);
    }
    lemma_tkz_shift(u, t.len() as int + 1, Seq::empty(), acc.push(t), false);
    assert(u.skip(t.len() as int + 1) =~= rest);
}

/// A token at the end of the input rescans to itself as the last token.
proof fn lemma_scan_token_last(t: Seq<char>, acc: Seq<Seq<char>>)
    requires
        closed_token(t) || open_string_token(t),
    ensures
        tkz(t, 0, Seq::empty(), acc, false) == Some(acc.push(t)),
{
    if t[0] == '"' {
        assert(Seq::<char>::empty().push('"') =~= t.subrange(0, 1));
        if closed_token(t) && t.len() >= 2 && t[t.len() - 1] == '"' && (forall|m: int|
            0 < m < t.len() - 1 ==> #[trigger] t[m] != '"') {
            lemma_string_scan(t, t, 1, acc);
            assert(tkz(t, 0, Seq::empty(), acc, false) == Some(acc.push(t)));
        } else {
            lemma_open_string_scan(t, 1, acc);
            assert(tkz(t, 0, Seq::empty(), acc, false) == Some(acc.push(t)));
        }
    } else if t[0] == '(' {
        assert(t.subrange(0, t.len() as int) =~= t);
        assert(tkz(t, t.len() as int, Seq::empty(), acc.push(t), false) == Some(acc.push(t)));
        assert(tkz(t, 0, Seq::empty(), acc, false) == Some(acc.push(t)));
    } else {
        assert(t.subrange(0, 0) =~= Seq::<char>::empty());
        lemma_plain_scan(t, t, 0, acc);
        assert(tkz(t, 0, Seq::empty(), acc, false) == Some(acc.push(t)));
    }
}

/// Rescanning the joined tokens yields exactly the tokens.
proof fn lemma_join_scan(toks: Seq<Seq<char>>, acc: Seq<Seq<char>>)
    requires
        toks.len() >= 1,
        forall|k: int| 0 <= k < toks.len() - 1 ==> closed_token(#[trigger] toks[k]),
        closed_token(toks.last()) || open_string_token(toks.last()),
    ensures
        tkz(join_tokens(toks), 0, Seq::empty(), acc, false) == Some(acc + toks),
    decreases toks.len(),
{
    if toks.len() == 1 {
        lemma_scan_token_last(toks[0], acc);
        assert(acc.push(toks[0]) =~= acc + toks);
    } else {
        let rest = toks.drop_first();
        lemma_scan_token_then(toks[0], join_tokens(rest), acc);
        assert(rest.last() == toks.last());
        lemma_join_scan(rest, acc.push(toks[0]));
        assert(acc.push(toks[0]) + rest =~= acc + toks);
    }
}


/// Every token of a successful scan is closed, except that the last may be
/// an unterminated string literal.
proof fn lemma_tkz_good(
    s: Seq<char>,
    i: int,
    cur: Seq<char>,
    acc: Seq<Seq<char>>,
    st: bool,
    ts: Seq<Seq<char>>,
)
    requires
        0 <= i <= s.len(),
        st ==> cur.len() >= 1 && cur[0] == '"' && (forall|m: int|
            0 < m < cur.len() ==> #[trigger] cur[m] != '"'),
        !st ==> forall|m: int|
            0 <= m < cur.len() ==> !is_separator(#[trigger] cur[m]) && cur[m] != '"' && cur[m]
                != '(',
        forall|k: int| 0 <= k < acc.len() ==> closed_token(#[trigger] acc[k]),
        tkz(s, i, cur, acc, st) == Some(ts),
    ensures
        forall|k: int|
            0 <= k < ts.len() ==> closed_token(#[trigger] ts[k]) || (k == ts.len() - 1
                && open_string_token(ts[k])),
    decreases s.len() - i,
{
    if i >= s.len() {
        if cur.len() > 0 {
            assert(ts == acc.push(cur));
            if st {
                assert(open_string_token(cur));
            } else {
                assert(closed_token(cur));
            }
            assert(forall|k: int| 0 <= k < acc.len() ==> ts[k] == #[trigger] acc[k]);
        }
    } else {
        let c = s[i];
        if c == '"' {
            if st {
                let tok = cur.push('"');
                assert(closed_token(tok)) by {
                    assert(forall|m: int| 0 < m < tok.len() - 1 ==> #[trigger] tok[m] != '"');
                }
                lemma_tkz_good(s, i + 1, Seq::empty(), acc.push(tok), false, ts);
            } else if cur.len() > 0 {
                assert(closed_token(cur));
                lemma_tkz_good(s, i + 1, seq!['"'], acc.push(cur), true, ts);
            } else {
                lemma_tkz_good(s, i + 1, seq!['"'], acc, true, ts);
            }
        } else if c == '(' && !st {
            let acc2 = if cur.len() > 0 {
                acc.push(cur)
            } else {
                acc
            };
            assert(cur.len() > 0 ==> closed_token(cur));
            match paren_scan(s, i + 1, 1) {
                None => {},
                Some(j) => {
                    crate::tokenizer::lemma_paren_scan_range(s, i + 1, 1);
                    let tok = s.subrange(i, j);
                    assert(closed_token(tok)) by {
                        lemma_paren_scan_shift(s, i + 1, 1);
                        lemma_paren_scan_shift(tok, 1, 1);
                        assert(tok.skip(1) =~= s.skip(i + 1).subrange(0, j - i - 1));
                        lemma_paren_scan_extend(
                            s.skip(i + 1),
                            tok.skip(1),
                            0,
                            1,
                            j - i - 1,
                        );
                    }
                    lemma_tkz_good(s, j, Seq::empty(), acc2.push(tok), false, ts);
                },
            }
        } else if is_separator(c) && !st {
            if cur.len() > 0 {
                assert(closed_token(cur));
                lemma_tkz_good(s, i + 1, Seq::empty(), acc.push(cur), false, ts);
            } else {
                lemma_tkz_good(s, i + 1, Seq::empty(), acc, false, ts);
            }
        } else {
            lemma_tkz_good(s, i + 1, cur.push(c), acc, st, ts);
        }
    }
}

/// Tokenizing is stable under rejoining: the tokens of well-formed
/// application text, joined with single spaces, tokenize back to exactly
/// the same tokens.
pub proof fn lemma_tokenize_round_trip(inner: Seq<char>, toks: Seq<Seq<char>>)
    requires
        spec_tokenize(inner) == Some(toks),
    ensures
        spec_tokenize(join_tokens(toks)) == Some(toks),
{
    if toks.len() == 0 {
        assert(join_tokens(toks).len() == 0);
        assert(spec_tokenize(join_tokens(toks)) == Some(Seq::<Seq<char>>::empty()));
    } else {
        lemma_tkz_good(inner, 0, Seq::empty(), Seq::empty(), false, toks);
        lemma_join_scan(toks, Seq::empty());
        assert(Seq::<Seq<char>>::empty() + toks =~= toks);
    }
}


/// Trimming leaves text alone when its ends are not whitespace.
proof fn lemma_trim_fixed(s: Seq<char>)
    requires
        s.len() >= 1,
        !is_space(s[0]),
        !is_space(s[s.len() - 1]),
    ensures
        trim(s) == s,
{
    assert(crate::env::skip_spaces(s, 0) == 0);
    assert(crate::env::rtrim_end(s, s.len() as int) == s.len() as int);
    assert(s.subrange(0, s.len() as int) =~= s);
}

/// The round-trip law of the evaluator: for well-formed application text —
/// an interior that tokenizes, with at least one token — evaluating the
/// original parenthesized expression and evaluating the tokens rejoined
/// with single spaces and rewrapped in parens give the same result, under
/// every environment and at every recursion fuel.
pub proof fn lemma_eval_round_trip(
    envm: Seq<(Seq<char>, SpecValue)>,
    inner: Seq<char>,
    toks: Seq<Seq<char>>,
    fuel: nat,
)
    requires
        spec_tokenize(inner) == Some(toks),
        toks.len() >= 1,
    ensures
        spec_eval(envm, seq!['('] + inner + seq![')'], fuel) == spec_eval(
            envm,
            seq!['('] + join_tokens(toks) + seq![')'],
            fuel,
        ),
{
    lemma_tokenize_round_trip(inner, toks);
    lemma_tkz_good(inner, 0, Seq::empty(), Seq::empty(), false, toks);
    let joined = join_tokens(toks);
    assert(inner.len() >= 1) by {
        if inner.len() == 0 {
            assert(spec_tokenize(inner) == Some(Seq::<Seq<char>>::empty()));
        }
    }
    assert(joined.len() >= 1) by {
        assert(closed_token(toks[0]) || (0 == toks.len() - 1 && open_string_token(toks[0])));
        if toks.len() == 1 {
            assert(joined == toks[0]);
        } else {
            assert(joined.len() == toks[0].len() + 1 + join_tokens(toks.drop_first()).len());
        }
    }
    let w1 = seq!['('] + inner + seq![')'];
    let w2 = seq!['('] + joined + seq![')'];
    assert(w1[0] == '(' && w1[w1.len() - 1] == ')');
    assert(w2[0] == '(' && w2[w2.len() - 1] == ')');
    lemma_trim_fixed(w1);
    lemma_trim_fixed(w2);
    proof_eval_wrapped(envm, inner, toks, fuel, w1);
    proof_eval_wrapped(envm, joined, toks, fuel, w2);
}

/// Unfold the evaluation of a wrapped application down to the shared
/// continuation over its tokens.
proof fn proof_eval_wrapped(
    envm: Seq<(Seq<char>, SpecValue)>,
    inner: Seq<char>,
    toks: Seq<Seq<char>>,
    fuel: nat,
    w: Seq<char>,
)
    requires
        w == seq!['('] + inner + seq![')'],
        inner.len() >= 1,
        spec_tokenize(inner) == Some(toks),
        toks.len() >= 1,
        trim(w) == w,
    ensures
        spec_eval(envm, w, fuel) == eval_app_toks(envm, toks, fuel),
{
    reveal_strlit("nil");
    reveal_strlit("()");
    assert(w.len() >= 3);
    assert(w != "nil"@) by {
        assert(w[0] == '(');
    }
    assert(w != "()"@);
    assert(w.subrange(1, w.len() - 1) =~= inner);
}

/// The continuation of evaluating an application once its tokens are
/// known.
pub open spec fn eval_app_toks(
    envm: Seq<(Seq<char>, SpecValue)>,
    toks: Seq<Seq<char>>,
    fuel: nat,
) -> Result<SpecValue, Seq<char>> {
    if toks.len() == 0 {
        Err("Empty function call"@)
    } else if toks[0] == "#t"@ {
        Ok(SpecValue::Bool(true))
    } else if toks[0] == "#f"@ {
        Ok(SpecValue::Bool(false))
    } else if fuel == 0 {
        arbitrary()
    } else {
        match crate::interp::spec_eval_args(envm, toks.drop_first(), (fuel - 1) as nat) {
            Err(e) => Err(e),
            Ok(vals) => match crate::env::env_lookup(envm, toks[0]) {
                Some(SpecValue::Fun(op)) => crate::builtins::spec_apply(op, vals),
                _ => Err("Unknown function: "@ + toks[0]),
            },
        }
    }
}

} // verus!
