//! The token splitter of the miku front end: string literals are kept whole, the rest is
//! split at whitespace and at operator characters, which become tokens of their own.
use crate::miku::miku::{words, words_state};
use crate::miku::utils::{extract_string_literals, literal_pieces};
use crate::text::{is_whitespace, line_slices, lines_of, to_chars};
use vstd::prelude::*;

verus! {

/// The delimiters, in the order in which the text is split at them.
pub open spec fn miku_delims() -> Seq<Seq<char>> {
    seq![" "@, "=="@, "<"@, ">"@, "*"@, "^"@, "+"@, "-"@, "/"@, "="@, ","@]
}

/// The pieces of a list of lists, one list after the other.
pub open spec fn flatten(s: Seq<Seq<Seq<char>>>) -> Seq<Seq<char>>
    decreases s.len(),
{
    if s.len() == 0 {
        seq![]
    } else {
        flatten(s.drop_last()) + s.last()
    }
}

/// The first position from `i` on at which `d` occurs in `s`.
pub open spec fn first_occ(s: Seq<char>, d: Seq<char>, i: int) -> Option<int>
    decreases s.len() + 1 - i,
{
    if i < 0 || i + d.len() > s.len() {
        None
    } else if s.subrange(i, i + d.len()) == d {
        Some(i)
    } else {
        first_occ(s, d, i + 1)
    }
}

/// `s` split at the occurrences of `d` (leftmost first, not overlapping): the text before
/// each occurrence (possibly empty) and `d` itself, then the text after the last one when
/// it is not empty.
pub open spec fn split_delim(s: Seq<char>, d: Seq<char>) -> Seq<Seq<char>>
    decreases s.len(),
{
    if s.len() == 0 {
        seq![]
    } else if d.len() == 0 {
        seq![s]
    } else {
        match first_occ(s, d, 0) {
            Some(p) => if 0 <= p && p + d.len() <= s.len() {
                seq![s.take(p), d] + split_delim(s.skip(p + d.len()), d)
            } else {
                seq![s]
            },
            None => seq![s],
        }
    }
}

/// How one piece is split at delimiter `d`: string literals and delimiters stay whole,
/// the space delimiter splits at whitespace, the others as `split_delim`.
pub open spec fn split_piece(j: Seq<char>, d: Seq<char>) -> Seq<Seq<char>> {
    if (j.len() > 0 && j[0] == '"') || miku_delims().contains(j) {
        seq![j]
    } else if d == " "@ {
        words(j)
    } else {
        split_delim(j, d)
    }
}

/// Each piece split at `d`.
pub open spec fn split_all(base: Seq<Seq<char>>, d: Seq<char>) -> Seq<Seq<char>> {
    flatten(base.map_values(|j: Seq<char>| split_piece(j, d)))
}

/// The pieces after splitting at the first `k` delimiters in turn.
pub open spec fn apply_delims(base: Seq<Seq<char>>, k: nat) -> Seq<Seq<char>>
    decreases k,
{
    if k == 0 {
        base
    } else {
        split_all(apply_delims(base, (k - 1) as nat), miku_delims()[k - 1])
    }
}

/// The tokens of a miku source text: the string-literal pieces of each line, split at all
/// the delimiters.
pub open spec fn miku_tokens(v: Seq<char>) -> Seq<Seq<char>> {
    apply_delims(flatten(lines_of(v).map_values(|l: Seq<char>| literal_pieces(l))), 11)
}

/// The tokens of a text and the position of the next one.
pub struct Tokenizer<'a> {
    tokens: Vec<&'a str>,
    index: usize,
}

impl<'a> Tokenizer<'a> {
    /// The tokens, taken by their characters.
    pub closed spec fn token_view(&self) -> Seq<Seq<char>> {
        Seq::new(self.tokens@.len(), |i: int| self.tokens@[i]@)
    }

    /// The position of the next token.
    pub closed spec fn position(&self) -> usize {
        self.index
    }
}

/// The views of a list of slices.
pub open spec fn slices_view<'a>(v: Seq<&'a str>) -> Seq<Seq<char>> {
    Seq::new(v.len(), |i: int| v[i]@)
}

proof fn lemma_slices_push<'a>(v: Seq<&'a str>, x: &'a str)
    ensures
        slices_view(v.push(x)) == slices_view(v).push(x@),
{
    assert(slices_view(v.push(x)) =~= slices_view(v).push(x@));
}

/// The whitespace-separated words of `s`, as slices of it.
fn word_slices<'a>(s: &'a str, out: &mut Vec<&'a str>)
    ensures
        slices_view(final(out)@) == slices_view(old(out)@) + words(s@),
{
    let v = to_chars(s);
    let ghost o0 = slices_view(out@);
    let mut start: usize = 0;
    let mut idx: usize = 0;
    while idx < v.len()
        invariant
            v@ == s@,
            start <= idx <= v@.len(),
            ({
                let (d, w) = words_state(s@.take(idx as int));
                &&& slices_view(out@) == o0 + d
                &&& w == s@.subrange(start as int, idx as int)
            }),
        decreases v@.len() - idx,
    {
        let ghost pre = s@.take(idx + 1);
        assert(pre.drop_last() =~= s@.take(idx as int));
        assert(pre.last() == v@[idx as int]);
        if is_whitespace(v[idx]) {
            if start < idx {
                let w = s.substring_char(start, idx);
                let ghost before = out@;
                out.push(w);
                proof {
                    lemma_slices_push(before, w);
                }
            }
            start = idx + 1;
        }
        assert(slices_view(out@) =~= o0 + words_state(pre).0);
        assert(words_state(pre).1 =~= s@.subrange(start as int, idx + 1));
        idx += 1;
    }
    assert(s@.take(idx as int) =~= s@);
    if start < idx {
        let w = s.substring_char(start, idx);
        let ghost before = out@;
        out.push(w);
        proof {
            lemma_slices_push(before, w);
        }
    }
    assert(slices_view(out@) =~= o0 + words(s@));
}

proof fn lemma_first_occ_found(s: Seq<char>, d: Seq<char>, i: int, q: int)
    requires
        0 <= i <= q,
        q + d.len() <= s.len(),
        s.subrange(q, q + d.len()) == d,
        forall|k: int| i <= k < q ==> #[trigger] s.subrange(k, k + d.len()) != d,
    ensures
        first_occ(s, d, i) == Some(q),
    decreases q - i,
{
    if i < q {
        lemma_first_occ_found(s, d, i + 1, q);
    }
}

proof fn lemma_first_occ_none(s: Seq<char>, d: Seq<char>, i: int)
    requires
        0 <= i,
        forall|k: int| i <= k && k + d.len() <= s.len() ==> #[trigger] s.subrange(k, k + d.len()) != d,
    ensures
        first_occ(s, d, i) is None,
    decreases s.len() + 1 - i,
{
    if i + d.len() <= s.len() {
        lemma_first_occ_none(s, d, i + 1);
    }
}

/// Whether `d` occurs in `v` at position `q`.
fn occurs_at(v: &Vec<char>, d: &Vec<char>, q: usize) -> (r: bool)
    requires
        q + d@.len() <= v@.len(),
    ensures
        r == (v@.subrange(q as int, q + d@.len()) == d@),
{
    let n = v.len();
    let mut k: usize = 0;
    while k < d.len()
        invariant
            n == v@.len(),
            q + d@.len() <= v@.len(),
            k <= d@.len(),
            forall|m: int| 0 <= m < k ==> v@[q + m] == d@[m],
        decreases d@.len() - k,
    {
        if v[q + k] != d[k] {
            assert(v@.subrange(q as int, q + d@.len())[k as int] != d@[k as int]);
            return false;
        }
        k += 1;
    }
    assert(v@.subrange(q as int, q + d@.len()) =~= d@);
    true
}

/// Appends the pieces of `s` split at `d` (see `split_delim`).
fn split_at_delim<'a>(s: &'a str, d: &'static str, out: &mut Vec<&'a str>)
    requires
        d@.len() > 0,
    ensures
        slices_view(final(out)@) == slices_view(old(out)@) + split_delim(s@, d@),
{
    let v = to_chars(s);
    let dv = to_chars(d);
    let ghost o0 = slices_view(out@);
    let mut pos: usize = 0;
    let mut q: usize = 0;
    assert(s@.skip(0) =~= s@);
    while q < v.len() && dv.len() <= v.len() - q
        invariant
            v@ == s@,
            dv@ == d@,
            dv@.len() > 0,
            pos <= q,
            pos <= v@.len(),
            q <= v@.len(),
            o0 + split_delim(s@, d@) == slices_view(out@) + split_delim(s@.skip(pos as int), d@),
            forall|k: int| pos <= k < q ==> #[trigger] s@.subrange(k, k + d@.len()) != d@,
        decreases v@.len() - q,
    {
        if occurs_at(&v, &dv, q) {
            let ghost t = s@.skip(pos as int);
            proof {
                assert forall|k: int| 0 <= k < q - pos implies #[trigger] t.subrange(k, k + d@.len())
                    != d@ by {
                    assert(t.subrange(k, k + d@.len()) =~= s@.subrange(k + pos, k + pos + d@.len()));
                }
                assert(t.subrange(q - pos, q - pos + d@.len()) =~= s@.subrange(
                    q as int,
                    q + d@.len(),
                ));
                lemma_first_occ_found(t, d@, 0, q - pos);
                assert(t.take(q - pos) =~= s@.subrange(pos as int, q as int));
                assert(t.skip(q - pos + d@.len()) =~= s@.skip(q + d@.len()));
            }
            let piece = s.substring_char(pos, q);
            let ghost before = out@;
            out.push(piece);
            proof {
                lemma_slices_push(before, piece);
            }
            let ghost before2 = out@;
            out.push(d);
            proof {
                lemma_slices_push(before2, d);
                assert(o0 + split_delim(s@, d@) =~= slices_view(out@) + split_delim(
                    s@.skip(q + d@.len()),
                    d@,
                ));
            }
            pos = q + dv.len();
            q = pos;
        } else {
            q += 1;
        }
    }
    let ghost t = s@.skip(pos as int);
    if pos < v.len() {
        proof {
            assert forall|k: int| 0 <= k && k + d@.len() <= t.len() implies #[trigger] t.subrange(
                k,
                k + d@.len(),
            ) != d@ by {
                assert(t.subrange(k, k + d@.len()) =~= s@.subrange(k + pos, k + pos + d@.len()));
            }
            lemma_first_occ_none(t, d@, 0);
        }
        let piece = s.substring_char(pos, v.len());
        assert(piece@ =~= t);
        let ghost before = out@;
        out.push(piece);
        proof {
            lemma_slices_push(before, piece);
            assert(split_delim(t, d@) =~= seq![t]);
        }
    } else {
        assert(t.len() == 0);
    }
    assert(o0 + split_delim(s@, d@) =~= slices_view(out@));
}

/// Whether a piece is one of the delimiters.
fn is_delim_piece(j: &str) -> (r: bool)
    ensures
        r == miku_delims().contains(j@),
{
    let ds = [" ", "==", "<", ">", "*", "^", "+", "-", "/", "=", ","];
    let mut k: usize = 0;
    while k < 11
        invariant
            k <= 11,
            forall|m: int| 0 <= m < k ==> miku_delims()[m] != j@,
            ds@ == seq![" ", "==", "<", ">", "*", "^", "+", "-", "/", "=", ","],
        decreases 11 - k,
    {
        if crate::text::str_equal(ds[k], j) {
            assert(miku_delims()[k as int] == j@);
            return true;
        }
        k += 1;
    }
    assert(!miku_delims().contains(j@)) by {
        if miku_delims().contains(j@) {
            let m = choose|m: int| 0 <= m < miku_delims().len() && miku_delims()[m] == j@;
            assert(miku_delims()[m] != j@);
        }
    }
    false
}

/// Splits every piece at delimiter number `k` (see `split_all`).
fn split_pieces<'a>(base: Vec<&'a str>, d: &'static str, k: usize) -> (r: Vec<&'a str>)
    requires
        k < 11,
        d@ == miku_delims()[k as int],
    ensures
        slices_view(r@) == split_all(slices_view(base@), d@),
{
    let ghost b = slices_view(base@);
    let mut tmp: Vec<&'a str> = Vec::new();
    let mut i: usize = 0;
    while i < base.len()
        invariant
            i <= base@.len(),
            b == slices_view(base@),
            k < 11,
            d@ == miku_delims()[k as int],
            slices_view(tmp@) == flatten(
                b.take(i as int).map_values(|j: Seq<char>| split_piece(j, d@)),
            ),
        decreases base@.len() - i,
    {
        let j = base[i];
        assert(j@ == b[i as int]);
        let ghost mapped = b.take(i + 1).map_values(|j: Seq<char>| split_piece(j, d@));
        assert(mapped.drop_last() =~= b.take(i as int).map_values(|j: Seq<char>| split_piece(j, d@)));
        assert(mapped.last() == split_piece(j@, d@));
        let jv = to_chars(j);
        if (jv.len() > 0 && jv[0] == '"') || is_delim_piece(j) {
            let ghost before = tmp@;
            tmp.push(j);
            proof {
                lemma_slices_push(before, j);
                assert(slices_view(tmp@) =~= flatten(mapped));
            }
        } else if crate::text::str_equal(d, " ") {
            word_slices(j, &mut tmp);
        } else {
            proof {
                reveal_strlit(" ");
                reveal_strlit("==");
                reveal_strlit("<");
                reveal_strlit(">");
                reveal_strlit("*");
                reveal_strlit("^");
                reveal_strlit("+");
                reveal_strlit("-");
                reveal_strlit("/");
                reveal_strlit("=");
                reveal_strlit(",");
                assert(d@.len() > 0);
            }
            split_at_delim(j, d, &mut tmp);
        }
        i += 1;
    }
    assert(b.take(i as int) =~= b);
    tmp
}

impl<'a> Tokenizer<'a> {
    /// The tokens of `v` (see `miku_tokens`), positioned at the first.
    pub fn new(v: &'a str) -> (r: Self)
        ensures
            r.token_view() == miku_tokens(v@),
            r.position() == 0,
    {
        let ls = line_slices(v);
        let mut lits: Vec<&'a str> = Vec::new();
        let ghost lv = lines_of(v@);
        let mut i: usize = 0;
        while i < ls.len()
            invariant
                i <= ls@.len(),
                lv == lines_of(v@),
                lv == Seq::new(ls@.len(), |j: int| ls@[j]@),
                lv.len() == ls@.len(),
                slices_view(lits@) == flatten(
                    lv.take(i as int).map_values(|l: Seq<char>| literal_pieces(l)),
                ),
            decreases ls@.len() - i,
        {
            assert(ls@[i as int]@ == lv[i as int]) by {
                assert(Seq::new(ls@.len(), |j: int| ls@[j]@)[i as int] == ls@[i as int]@);
            }
            let pieces = extract_string_literals(ls[i]);
            let mut k: usize = 0;
            let ghost l0 = slices_view(lits@);
            while k < pieces.len()
                invariant
                    k <= pieces@.len(),
                    slices_view(lits@) == l0 + slices_view(pieces@).take(k as int),
                decreases pieces@.len() - k,
            {
                let ghost before = lits@;
                lits.push(pieces[k]);
                proof {
                    lemma_slices_push(before, pieces[k as int]);
                    assert(slices_view(pieces@).take(k + 1) =~= slices_view(pieces@).take(
                        k as int,
                    ).push(pieces@[k as int]@));
                }
                k += 1;
            }
            proof {
                let mapped = lv.take(i + 1).map_values(|l: Seq<char>| literal_pieces(l));
                assert(mapped.drop_last() =~= lv.take(i as int).map_values(
                    |l: Seq<char>| literal_pieces(l),
                ));
                assert(slices_view(pieces@).take(k as int) =~= literal_pieces(lv[i as int]));
            }
            i += 1;
        }
        assert(lv.take(i as int) =~= lv);
        let ds = [" ", "==", "<", ">", "*", "^", "+", "-", "/", "=", ","];
        let ghost start = slices_view(lits@);
        let mut base = lits;
        let mut k: usize = 0;
        while k < 11
            invariant
                k <= 11,
                ds@ == seq![" ", "==", "<", ">", "*", "^", "+", "-", "/", "=", ","],
                slices_view(base@) == apply_delims(start, k as nat),
            decreases 11 - k,
        {
            assert(ds@[k as int]@ == miku_delims()[k as int]);
            base = split_pieces(base, ds[k], k);
            k += 1;
        }
        Tokenizer { tokens: base, index: 0 }
    }
}

} // verus!
