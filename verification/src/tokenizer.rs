//! The tokenizer.
//!
//! The input is the interior of one parenthesized application.  Scanning
//! left to right: whitespace separates tokens; a quote opens string mode,
//! in which every character up to the closing quote is copied verbatim
//! into one token (quotes included); a parenthesis outside string mode
//! starts a nested-expression token that runs, parens counted, until the
//! depth returns to zero and is kept verbatim (outer parens included);
//! anything else extends the current plain token.  A nested run that never
//! closes is a syntax error.
use crate::text::copy_range;
use vstd::prelude::*;

verus! {

/// The character sequences of a vector of character vectors.
pub open spec fn token_views(ts: Seq<Vec<char>>) -> Seq<Seq<char>> {
    Seq::new(ts.len(), |i: int| ts[i]@)
}

/// The index just after the parenthesized run that begins before `i` and
/// has `depth` parens still open, or `None` when the input ends first.
/// Parens are counted even inside string literals, which are not
/// recognized in this mode.
pub open spec fn paren_scan(s: Seq<char>, i: int, depth: nat) -> Option<int>
    decreases s.len() - i,
{
    if i < 0 || i >= s.len() {
        None
    } else if s[i] == '(' {
        paren_scan(s, i + 1, depth + 1)
    } else if s[i] == ')' {
        if depth == 1 {
            Some(i + 1)
        } else {
            paren_scan(s, i + 1, (depth - 1) as nat)
        }
    } else {
        paren_scan(s, i + 1, depth)
    }
}

/// Whether a character separates tokens outside string mode.
pub open spec fn is_separator(c: char) -> bool {
    c == ' ' || c == '\t' || c == '\n'
}

/// The tokenizer's state machine: scan `s` from `i` with current token
/// `cur`, finished tokens `acc`, and string mode `in_str`; `None` is the
/// unmatched-parentheses error.
pub open spec fn tkz(s: Seq<char>, i: int, cur: Seq<char>, acc: Seq<Seq<char>>, in_str: bool) -> Option<
    Seq<Seq<char>>,
>
    decreases s.len() - i,
    via tkz_dec
{
    if i < 0 {
        None
    } else if i >= s.len() {
        if cur.len() > 0 {
            Some(acc.push(cur))
        } else {
            Some(acc)
        }
    } else {
        let c = s[i];
        if c == '"' {
            if in_str {
                tkz(s, i + 1, Seq::empty(), acc.push(cur.push('"')), false)
            } else if cur.len() > 0 {
                tkz(s, i + 1, seq!['"'], acc.push(cur), true)
            } else {
                tkz(s, i + 1, seq!['"'], acc, true)
            }
        } else if c == '(' && !in_str {
            let acc2 = if cur.len() > 0 {
                acc.push(cur)
            } else {
                acc
            };
            match paren_scan(s, i + 1, 1) {
                None => None,
                Some(j) => tkz(s, j, Seq::empty(), acc2.push(s.subrange(i, j)), false),
            }
        } else if is_separator(c) && !in_str {
            if cur.len() > 0 {
                tkz(s, i + 1, Seq::empty(), acc.push(cur), false)
            } else {
                tkz(s, i + 1, Seq::empty(), acc, false)
            }
        } else {
            tkz(s, i + 1, cur.push(c), acc, in_str)
        }
    }
}

/// The token sequence of an input, or `None` on unmatched parentheses.
pub open spec fn spec_tokenize(s: Seq<char>) -> Option<Seq<Seq<char>>> {
    tkz(s, 0, Seq::empty(), Seq::empty(), false)
}

#[via_fn]
proof fn tkz_dec(s: Seq<char>, i: int, cur: Seq<char>, acc: Seq<Seq<char>>, in_str: bool) {
    if 0 <= i < s.len() && s[i] == '(' && !in_str {
        if paren_scan(s, i + 1, 1) is Some {
            lemma_paren_scan_range(s, i + 1, 1);
        }
    }
}

/// Every token that a successful scan yields is no longer than the input.
pub proof fn lemma_tkz_token_len(
    s: Seq<char>,
    i: int,
    cur: Seq<char>,
    acc: Seq<Seq<char>>,
    in_str: bool,
    ts: Seq<Seq<char>>,
)
    requires
        0 <= i <= s.len(),
        cur.len() + (s.len() - i) <= s.len(),
        forall|k: int| 0 <= k < acc.len() ==> #[trigger] acc[k].len() <= s.len(),
        tkz(s, i, cur, acc, in_str) == Some(ts),
    ensures
        forall|k: int| 0 <= k < ts.len() ==> #[trigger] ts[k].len() <= s.len(),
    decreases s.len() - i,
{
    if i >= s.len() {
    } else {
        let c = s[i];
        if c == '"' {
            if in_str {
                lemma_tkz_token_len(s, i + 1, Seq::empty(), acc.push(cur.push('"')), false, ts);
            } else if cur.len() > 0 {
                lemma_tkz_token_len(s, i + 1, seq!['"'], acc.push(cur), true, ts);
            } else {
                lemma_tkz_token_len(s, i + 1, seq!['"'], acc, true, ts);
            }
        } else if c == '(' && !in_str {
            let acc2 = if cur.len() > 0 {
                acc.push(cur)
            } else {
                acc
            };
            match paren_scan(s, i + 1, 1) {
                None => {},
                Some(j) => {
                    lemma_paren_scan_range(s, i + 1, 1);
                    lemma_tkz_token_len(s, j, Seq::empty(), acc2.push(s.subrange(i, j)), false, ts);
                },
            }
        } else if is_separator(c) && !in_str {
            if cur.len() > 0 {
                lemma_tkz_token_len(s, i + 1, Seq::empty(), acc.push(cur), false, ts);
            } else {
                lemma_tkz_token_len(s, i + 1, Seq::empty(), acc, false, ts);
            }
        } else {
            lemma_tkz_token_len(s, i + 1, cur.push(c), acc, in_str, ts);
        }
    }
}

/// A successful paren scan ends inside the input, past its start.
pub proof fn lemma_paren_scan_range(s: Seq<char>, i: int, depth: nat)
    requires
        0 <= i <= s.len(),
        paren_scan(s, i, depth) is Some,
    ensures
        i < paren_scan(s, i, depth)->0 <= s.len(),
    decreases s.len() - i,
{
    if i < s.len() {
        if s[i] == '(' {
            lemma_paren_scan_range(s, i + 1, depth + 1);
        } else if s[i] == ')' {
            if depth != 1 {
                lemma_paren_scan_range(s, i + 1, (depth - 1) as nat);
            }
        } else {
            lemma_paren_scan_range(s, i + 1, depth);
        }
    }
}

/// Every token of a successful tokenization is no longer than the input.
pub proof fn lemma_tokenize_token_len(s: Seq<char>, ts: Seq<Seq<char>>)
    requires
        spec_tokenize(s) == Some(ts),
    ensures
        forall|k: int| 0 <= k < ts.len() ==> #[trigger] ts[k].len() <= s.len(),
{
    lemma_tkz_token_len(s, 0, Seq::empty(), Seq::empty(), false, ts);
}

/// Find the end of a parenthesized run.
fn exec_paren_scan(s: &Vec<char>, i: usize, depth: usize) -> (r: Option<usize>)
    requires
        i <= s@.len(),
        1 <= depth <= i,
    ensures
        match r {
            Some(j) => paren_scan(s@, i as int, depth as nat) == Some(j as int),
            None => paren_scan(s@, i as int, depth as nat) is None,
        },
    decreases s@.len() - i,
{
    if i >= s.len() {
        None
    } else if s[i] == '(' {
        exec_paren_scan(s, i + 1, depth + 1)
    } else if s[i] == ')' {
        if depth == 1 {
            Some(i + 1)
        } else {
            exec_paren_scan(s, i + 1, depth - 1)
        }
    } else {
        exec_paren_scan(s, i + 1, depth)
    }
}

/// Run the tokenizer's state machine.
fn exec_tkz(s: &Vec<char>, i: usize, cur: Vec<char>, acc: Vec<Vec<char>>, in_str: bool) -> (r:
    Option<Vec<Vec<char>>>)
    requires
        i <= s@.len(),
    ensures
        match r {
            Some(ts) => tkz(s@, i as int, cur@, token_views(acc@), in_str) == Some(token_views(ts@)),
            None => tkz(s@, i as int, cur@, token_views(acc@), in_str) is None,
        },
    decreases s@.len() - i,
{
    if i >= s.len() {
        if cur.len() > 0 {
            let mut acc2 = acc;
            let ghost old_acc = token_views(acc2@);
            acc2.push(cur);
            proof {
                assert(token_views(acc2@) =~= old_acc.push(cur@));
            }
            Some(acc2)
        } else {
            Some(acc)
        }
    } else {
        let c = s[i];
        if c == '"' {
            if in_str {
                let mut cur2 = cur;
                cur2.push('"');
                let mut acc2 = acc;
                let ghost old_acc = token_views(acc2@);
                acc2.push(cur2);
                proof {
                    assert(token_views(acc2@) =~= old_acc.push(cur@.push('"')));
                }
                exec_tkz(s, i + 1, Vec::new(), acc2, false)
            } else if cur.len() > 0 {
                let mut acc2 = acc;
                let ghost old_acc = token_views(acc2@);
                acc2.push(cur);
                let mut cur2: Vec<char> = Vec::new();
                cur2.push('"');
                proof {
                    assert(token_views(acc2@) =~= old_acc.push(cur@));
                    assert(cur2@ =~= seq!['"']);
                }
                exec_tkz(s, i + 1, cur2, acc2, true)
            } else {
                let mut cur2: Vec<char> = Vec::new();
                cur2.push('"');
                proof {
                    assert(cur2@ =~= seq!['"']);
                }
                exec_tkz(s, i + 1, cur2, acc, true)
            }
        } else if c == '(' && !in_str {
            let mut acc2 = acc;
            if cur.len() > 0 {
                let ghost old_acc = token_views(acc2@);
                acc2.push(cur);
                proof {
                    assert(token_views(acc2@) =~= old_acc.push(cur@));
                }
            }
            match exec_paren_scan(s, i + 1, 1) {
                None => None,
                Some(j) => {
                    proof {
                        lemma_paren_scan_range(s@, i as int + 1, 1);
                    }
                    let tok = copy_range(s, i, j);
                    let ghost old_acc = token_views(acc2@);
                    acc2.push(tok);
                    proof {
                        assert(token_views(acc2@) =~= old_acc.push(s@.subrange(i as int, j as int)));
                    }
                    exec_tkz(s, j, Vec::new(), acc2, false)
                },
            }
        } else if (c == ' ' || c == '\t' || c == '\n') && !in_str {
            if cur.len() > 0 {
                let mut acc2 = acc;
                let ghost old_acc = token_views(acc2@);
                acc2.push(cur);
                proof {
                    assert(token_views(acc2@) =~= old_acc.push(cur@));
                }
                exec_tkz(s, i + 1, Vec::new(), acc2, false)
            } else {
                proof {
                    assert(cur@ =~= Seq::<char>::empty());
                }
                exec_tkz(s, i + 1, cur, acc, false)
            }
        } else {
            let mut cur2 = cur;
            cur2.push(c);
            exec_tkz(s, i + 1, cur2, acc, in_str)
        }
    }
}

/// Tokenize the interior of an application; see the module text.  The
/// tokens of the result are exactly those of the model `spec_tokenize`,
/// and the single failure is the unmatched-parentheses error.
pub fn tokenize_chars(s: &Vec<char>) -> (r: Result<Vec<Vec<char>>, String>)
    ensures
        match r {
            Ok(ts) => spec_tokenize(s@) == Some(token_views(ts@)),
            Err(m) => spec_tokenize(s@) is None && m@ == "Unmatched parentheses"@,
        },
{
    let cur: Vec<char> = Vec::new();
    let acc: Vec<Vec<char>> = Vec::new();
    proof {
        assert(token_views(acc@) =~= Seq::<Seq<char>>::empty());
    }
    match exec_tkz(s, 0, cur, acc, false) {
        Some(ts) => Ok(ts),
        None => Err(String::from_str("Unmatched parentheses")),
    }
}

} // verus!
