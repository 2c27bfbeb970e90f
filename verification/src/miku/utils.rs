//! Splitting a line of source into its string literals and the text around them.
use crate::text::to_chars;
use vstd::prelude::*;

verus! {

/// `d` with `p` added when `p` is not empty.
pub open spec fn push_nonempty(d: Seq<Seq<char>>, p: Seq<char>) -> Seq<Seq<char>> {
    if p.len() > 0 {
        d.push(p)
    } else {
        d
    }
}

/// After reading `s`: the pieces completed, where the current piece starts, and whether
/// a string literal is open.  A `"` that opens a literal ends the text before it; one that
/// closes a literal ends the literal, itself included.
pub open spec fn literal_state(s: Seq<char>) -> (Seq<Seq<char>>, int, bool)
    decreases s.len(),
{
    if s.len() == 0 {
        (seq![], 0, false)
    } else {
        let (d, start, in_str) = literal_state(s.drop_last());
        let idx = s.len() - 1;
        if s.last() == '"' {
            if in_str {
                (push_nonempty(d, s.subrange(start, idx + 1)), idx + 1, false)
            } else {
                (push_nonempty(d, s.subrange(start, idx)), idx, true)
            }
        } else {
            (d, start, in_str)
        }
    }
}

/// The pieces of `s`: string literals (from the opening `"` to the closing one, or to the
/// end when unclosed) and the text between them, in order, without empty pieces.
pub open spec fn literal_pieces(s: Seq<char>) -> Seq<Seq<char>> {
    let (d, start, _) = literal_state(s);
    push_nonempty(d, s.subrange(start, s.len() as int))
}

/// The pieces joined back together, in order.
pub open spec fn joined(d: Seq<Seq<char>>) -> Seq<char>
    decreases d.len(),
{
    if d.len() == 0 {
        seq![]
    } else {
        joined(d.drop_last()) + d.last()
    }
}

proof fn lemma_literal_state_joined(s: Seq<char>)
    ensures
        0 <= literal_state(s).1 <= s.len(),
        joined(literal_state(s).0) == s.take(literal_state(s).1),
        forall|k: int| 0 <= k < literal_state(s).0.len() ==> (#[trigger] literal_state(s).0[k]).len() > 0,
    decreases s.len(),
{
    if s.len() > 0 {
        let p = s.drop_last();
        lemma_literal_state_joined(p);
        let (d, start, in_str) = literal_state(p);
        let idx = s.len() - 1;
        assert(p.take(start) == s.take(start));
        if s.last() == '"' {
            let e = if in_str { idx + 1 } else { idx };
            let piece = s.subrange(start, e);
            if piece.len() > 0 {
                assert(d.push(piece).drop_last() == d);
            }
            assert(s.take(start) + piece =~= s.take(e));
        }
    }
}

/// Joining the pieces gives back the line, and no piece is empty.
pub proof fn law_literal_pieces_rejoin(s: Seq<char>)
    ensures
        joined(literal_pieces(s)) == s,
        forall|k: int| 0 <= k < literal_pieces(s).len() ==> (#[trigger] literal_pieces(s)[k]).len() > 0,
{
    lemma_literal_state_joined(s);
    let (d, start, _) = literal_state(s);
    let rest = s.subrange(start, s.len() as int);
    if rest.len() > 0 {
        assert(d.push(rest).drop_last() == d);
    }
    assert(s.take(start) + rest =~= s);
    assert(s.take(s.len() as int) =~= s);
}

/// No `"` occurs in `p` between positions `a` (included) and `b` (excluded).
pub open spec fn quote_free_between(p: Seq<char>, a: int, b: int) -> bool {
    forall|i: int| a <= i < b ==> #[trigger] p[i] != '"'
}

/// A piece of plain text: no `"` in it.
pub open spec fn plain_piece(p: Seq<char>) -> bool {
    quote_free_between(p, 0, p.len() as int)
}

/// A closed string literal: a `"`, text without `"`, and a closing `"`.
pub open spec fn closed_literal(p: Seq<char>) -> bool {
    &&& p.len() >= 2
    &&& p[0] == '"'
    &&& p[p.len() - 1] == '"'
    &&& quote_free_between(p, 1, p.len() - 1)
}

/// A literal left open at the end of the line: a `"` followed by text without `"`.
pub open spec fn open_literal(p: Seq<char>) -> bool {
    &&& p.len() >= 1
    &&& p[0] == '"'
    &&& quote_free_between(p, 1, p.len() as int)
}

proof fn lemma_literal_state_shape(s: Seq<char>)
    ensures
        ({
            let (d, start, in_str) = literal_state(s);
            &&& 0 <= start <= s.len()
            &&& forall|k: int| 0 <= k < d.len() ==> plain_piece(#[trigger] d[k]) || closed_literal(d[k])
            &&& forall|k: int| 0 <= k < d.len() - 1 ==> !(plain_piece(#[trigger] d[k]) && plain_piece(d[k + 1]))
            &&& in_str ==> start < s.len() && s[start] == '"' && quote_free_between(s, start + 1, s.len() as int)
            &&& !in_str ==> quote_free_between(s, start, s.len() as int)
            &&& !in_str && start > 0 ==> d.len() > 0 && closed_literal(d.last())
            &&& !in_str && start == 0 ==> d.len() == 0
        }),
    decreases s.len(),
{
    if s.len() > 0 {
        let p = s.drop_last();
        lemma_literal_state_shape(p);
        let (d, start, in_str) = literal_state(p);
        let idx = s.len() - 1;
        assert forall|i: int| 0 <= i < idx implies s[i] == p[i] by {}
        if s.last() == '"' {
            if in_str {
                let piece = s.subrange(start, idx + 1);
                assert(piece[0] == s[start]);
                assert(piece[piece.len() - 1] == s[idx]);
                assert forall|i: int| 1 <= i < piece.len() - 1 implies #[trigger] piece[i] != '"' by {
                    assert(piece[i] == s[start + i]);
                    assert(s[start + i] == p[start + i]);
                }
                assert(closed_literal(piece));
                let nd = d.push(piece);
                assert(nd.last() == piece);
                assert forall|k: int| 0 <= k < nd.len() implies plain_piece(#[trigger] nd[k]) || closed_literal(nd[k]) by {
                    if k < d.len() {
                        assert(nd[k] == d[k]);
                    }
                }
                assert forall|k: int| 0 <= k < nd.len() - 1 implies !(plain_piece(#[trigger] nd[k]) && plain_piece(nd[k + 1])) by {
                    if k + 1 < d.len() {
                        assert(nd[k] == d[k]);
                        assert(nd[k + 1] == d[k + 1]);
                    } else {
                        assert(nd[k + 1] == piece);
                        assert(piece[0] == '"');
                    }
                }
            } else {
                let piece = s.subrange(start, idx);
                assert forall|i: int| 0 <= i < piece.len() implies #[trigger] piece[i] != '"' by {
                    assert(piece[i] == s[start + i]);
                    assert(s[start + i] == p[start + i]);
                }
                assert(plain_piece(piece));
                if piece.len() > 0 {
                    let nd = d.push(piece);
                    assert forall|k: int| 0 <= k < nd.len() implies plain_piece(#[trigger] nd[k]) || closed_literal(nd[k]) by {
                        if k < d.len() {
                            assert(nd[k] == d[k]);
                        }
                    }
                    assert forall|k: int| 0 <= k < nd.len() - 1 implies !(plain_piece(#[trigger] nd[k]) && plain_piece(nd[k + 1])) by {
                        if k + 1 < d.len() {
                            assert(nd[k] == d[k]);
                            assert(nd[k + 1] == d[k + 1]);
                        } else {
                            assert(nd[k] == d.last());
                            assert(d.last()[0] == '"');
                        }
                    }
                }
                assert forall|i: int| idx + 1 <= i < s.len() implies #[trigger] s[i] != '"' by {}
            }
        } else {
            assert forall|i: int| start <= i < s.len() && !(in_str && i == start) implies #[trigger] s[i] != '"' by {
                if i < idx {
                    assert(s[i] == p[i]);
                }
            }
            if in_str {
                assert(s[start] == p[start]);
            }
        }
    }
}

/// The pieces are of three kinds only: plain text without `"`, a closed literal from a
/// `"` to the next one, or (last of all) a literal left open to the end of the line; and
/// no two plain pieces stand next to each other.  With `law_literal_pieces_rejoin` this
/// makes each quoted section of the line exactly one piece.
pub proof fn law_literal_pieces_shape(s: Seq<char>)
    ensures
        forall|k: int| 0 <= k < literal_pieces(s).len() ==>
            plain_piece(#[trigger] literal_pieces(s)[k]) || closed_literal(literal_pieces(s)[k])
                || (open_literal(literal_pieces(s)[k]) && k == literal_pieces(s).len() - 1),
        forall|k: int| 0 <= k < literal_pieces(s).len() - 1 ==>
            !(plain_piece(#[trigger] literal_pieces(s)[k]) && plain_piece(literal_pieces(s)[k + 1])),
{
    lemma_literal_state_shape(s);
    let (d, start, in_str) = literal_state(s);
    let rest = s.subrange(start, s.len() as int);
    assert forall|i: int| 0 <= i < rest.len() implies rest[i] == s[start + i] by {}
    if in_str {
        assert(open_literal(rest)) by {
            assert(rest[0] == s[start]);
            assert forall|i: int| 1 <= i < rest.len() implies #[trigger] rest[i] != '"' by {
                assert(rest[i] == s[start + i]);
            }
        }
    } else {
        assert(plain_piece(rest)) by {
            assert forall|i: int| 0 <= i < rest.len() implies #[trigger] rest[i] != '"' by {
                assert(rest[i] == s[start + i]);
            }
        }
    }
    let ps = literal_pieces(s);
    if rest.len() > 0 {
        assert(ps == d.push(rest));
        assert forall|k: int| 0 <= k < ps.len() implies plain_piece(#[trigger] ps[k]) || closed_literal(ps[k])
            || (open_literal(ps[k]) && k == ps.len() - 1) by {
            if k < d.len() {
                assert(ps[k] == d[k]);
            }
        }
        assert forall|k: int| 0 <= k < ps.len() - 1 implies !(plain_piece(#[trigger] ps[k]) && plain_piece(ps[k + 1])) by {
            if k + 1 < d.len() {
                assert(ps[k] == d[k]);
                assert(ps[k + 1] == d[k + 1]);
            } else {
                assert(ps[k + 1] == rest);
                assert(ps[k] == d.last());
                if !in_str {
                    assert(start > 0);
                    assert(d.last()[0] == '"');
                } else {
                    assert(rest[0] == '"');
                }
            }
        }
    } else {
        assert(ps == d);
    }
}

proof fn lemma_literal_state_start(s: Seq<char>)
    ensures
        0 <= literal_state(s).1 <= s.len(),
    decreases s.len(),
{
    if s.len() > 0 {
        lemma_literal_state_start(s.drop_last());
    }
}

/// Splits `st` into its string literals and the text around them (see `literal_pieces`).
pub fn extract_string_literals<'a>(st: &'a str) -> (r: Vec<&'a str>)
    ensures
        Seq::new(r@.len(), |i: int| r@[i]@) == literal_pieces(st@),
{
    let v = to_chars(st);
    let mut out: Vec<&'a str> = Vec::new();
    let mut ptr: usize = 0;
    let mut in_str = false;
    let mut idx: usize = 0;
    while idx < v.len()
        invariant
            v@ == st@,
            idx <= v@.len(),
            ptr <= idx,
            ({
                let (d, start, b) = literal_state(st@.take(idx as int));
                &&& Seq::new(out@.len(), |i: int| out@[i]@) == d
                &&& ptr == start
                &&& in_str == b
            }),
        decreases v@.len() - idx,
    {
        let ghost pre = st@.take(idx + 1);
        assert(pre.drop_last() =~= st@.take(idx as int));
        assert(pre.last() == v@[idx as int]);
        if v[idx] == '"' {
            if in_str {
                let piece = st.substring_char(ptr, idx + 1);
                assert(piece@ =~= pre.subrange(ptr as int, idx + 1));
                if piece.unicode_len() > 0 {
                    out.push(piece);
                }
                ptr = idx + 1;
            } else {
                let piece = st.substring_char(ptr, idx);
                assert(piece@ =~= pre.subrange(ptr as int, idx as int));
                if piece.unicode_len() > 0 {
                    out.push(piece);
                }
                ptr = idx;
            }
            in_str = !in_str;
        }
        assert(Seq::new(out@.len(), |i: int| out@[i]@) =~= literal_state(pre).0);
        idx += 1;
    }
    assert(st@.take(idx as int) =~= st@);
    let piece = st.substring_char(ptr, v.len());
    if piece.unicode_len() > 0 {
        out.push(piece);
    }
    assert(Seq::new(out@.len(), |i: int| out@[i]@) =~= literal_pieces(st@));
    out
}

} // verus!
