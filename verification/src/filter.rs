//! The line filter: split a text into lines and keep every line that
//! contains the search string under the selected case mode.

use vstd::prelude::*;

use crate::resolve::Case;

verus! {

/// The simple case-folding transform used for insensitive matching:
/// an ASCII capital letter becomes its small form, every other
/// character is unchanged.
pub open spec fn fold_char(c: char) -> char {
    if 65 <= c as u32 && c as u32 <= 90 {
        ((c as u32 + 32) as u8) as char
    } else {
        c
    }
}

/// A whole character sequence under the case-folding transform.
pub open spec fn fold_seq(s: Seq<char>) -> Seq<char> {
    s.map_values(|c: char| fold_char(c))
}

/// The pattern `p` occurs in `t` starting at position `i`.
pub open spec fn match_at(t: Seq<char>, p: Seq<char>, i: int) -> bool {
    &&& 0 <= i
    &&& i + p.len() <= t.len()
    &&& forall|j: int| 0 <= j < p.len() ==> t[i + j] == p[j]
}

/// The pattern `p` occurs somewhere in `t`; an empty pattern occurs in
/// every sequence.
pub open spec fn contains_seq(t: Seq<char>, p: Seq<char>) -> bool {
    exists|i: int| match_at(t, p, i)
}

/// `s`, case-folded when `folded` is set, unchanged otherwise.
pub open spec fn fold_if(s: Seq<char>, folded: bool) -> Seq<char> {
    if folded {
        fold_seq(s)
    } else {
        s
    }
}

/// A line matches when it contains the pattern, comparing case-folded
/// text in insensitive mode and the text itself in sensitive mode.
pub open spec fn line_matches(line: Seq<char>, pat: Seq<char>, mode: Case) -> bool {
    match mode {
        Case::Sensitive => contains_seq(line, pat),
        Case::Insensitive => contains_seq(fold_seq(line), fold_seq(pat)),
    }
}

/// What remains of a finished line once its terminator is removed: a
/// carriage return directly before the line feed belongs to the
/// terminator and is stripped.
pub open spec fn line_of(raw: Seq<char>) -> Seq<char> {
    if raw.len() > 0 && raw.last() == '\r' {
        raw.drop_last()
    } else {
        raw
    }
}

/// Splits `rest` into lines, with `cur` the part of the current line
/// already read. A line feed finishes the current line; a line still
/// open at the end of the text is a line of its own unless it is
/// empty, so a trailing terminator adds no extra empty line.
pub open spec fn split_lines_rec(rest: Seq<char>, cur: Seq<char>) -> Seq<Seq<char>>
    decreases rest.len(),
{
    if rest.len() == 0 {
        if cur.len() == 0 {
            Seq::empty()
        } else {
            seq![cur]
        }
    } else if rest[0] == '\n' {
        seq![line_of(cur)] + split_lines_rec(rest.drop_first(), Seq::empty())
    } else {
        split_lines_rec(rest.drop_first(), cur.push(rest[0]))
    }
}

/// The lines of a text: the pieces between line terminators (a line
/// feed, or a carriage return and a line feed), without the
/// terminators. An empty text has no lines, and a trailing terminator
/// produces no extra empty line.
pub open spec fn split_lines(text: Seq<char>) -> Seq<Seq<char>> {
    split_lines_rec(text, Seq::empty())
}

/// The predicate a line must meet to be kept, as a function value
/// that `Seq::filter` can take.
pub open spec fn line_pred(pat: Seq<char>, mode: Case) -> spec_fn(Seq<char>) -> bool {
    |l: Seq<char>| line_matches(l, pat, mode)
}

/// The lines of `text` that match `pat` under `mode`, in their order
/// of appearance.
pub open spec fn search_spec(pat: Seq<char>, text: Seq<char>, mode: Case) -> Seq<Seq<char>> {
    split_lines(text).filter(line_pred(pat, mode))
}

fn fold_char_exec(c: char) -> (r: char)
    ensures
        r == fold_char(c),
{
    let u: u32 = c as u32;
    if 65 <= u && u <= 90 {
        ((u + 32) as u8) as char
    } else {
        c
    }
}

fn match_at_exec(text: &str, pat: &str, i: usize, folded: bool) -> (b: bool)
    requires
        i + pat@.len() <= text@.len(),
        text@.len() <= usize::MAX,
    ensures
        b == match_at(fold_if(text@, folded), fold_if(pat@, folded), i as int),
{
    let pn = pat.unicode_len();
    let mut j: usize = 0;
    while j < pn
        invariant
            0 <= j <= pn,
            pn == pat@.len(),
            i + pn <= text@.len() <= usize::MAX,
            forall|k: int|
                0 <= k < j ==> fold_if(text@, folded)[i + k] == fold_if(pat@, folded)[k],
        decreases pn - j,
    {
        let tc = text.get_char(i + j);
        let pc = pat.get_char(j);
        let tc = if folded {
            fold_char_exec(tc)
        } else {
            tc
        };
        let pc = if folded {
            fold_char_exec(pc)
        } else {
            pc
        };
        if tc != pc {
            assert(fold_if(text@, folded)[i + j] != fold_if(pat@, folded)[j as int]);
            return false;
        }
        j = j + 1;
    }
    true
}

fn contains_exec(text: &str, pat: &str, folded: bool) -> (b: bool)
    ensures
        b == contains_seq(fold_if(text@, folded), fold_if(pat@, folded)),
{
    let tn = text.unicode_len();
    let pn = pat.unicode_len();
    if pn > tn {
        assert(!contains_seq(fold_if(text@, folded), fold_if(pat@, folded))) by {
            assert forall|i: int| !match_at(fold_if(text@, folded), fold_if(pat@, folded), i) by {}
        }
        return false;
    }
    let mut i: usize = 0;
    while i <= tn - pn
        invariant
            pn <= tn,
            tn == text@.len(),
            pn == pat@.len(),
            tn <= usize::MAX,
            0 <= i <= tn - pn + 1,
            forall|k: int| 0 <= k < i ==> !match_at(fold_if(text@, folded), fold_if(pat@, folded), k),
        decreases tn - pn + 1 - i,
    {
        if match_at_exec(text, pat, i, folded) {
            assert(match_at(fold_if(text@, folded), fold_if(pat@, folded), i as int));
            return true;
        }
        i = i + 1;
    }
    assert forall|k: int| !match_at(fold_if(text@, folded), fold_if(pat@, folded), k) by {
        if 0 <= k <= tn - pn {
            assert(!match_at(fold_if(text@, folded), fold_if(pat@, folded), k));
        }
    }
    false
}

fn line_matches_exec(line: &str, pat: &str, mode: Case) -> (b: bool)
    ensures
        b == line_matches(line@, pat@, mode),
{
    match mode {
        Case::Sensitive => contains_exec(line, pat, false),
        Case::Insensitive => contains_exec(line, pat, true),
    }
}

proof fn lemma_filter_singleton<A>(x: A, p: spec_fn(A) -> bool)
    ensures
        seq![x].filter(p) == (if p(x) {
            seq![x]
        } else {
            Seq::<A>::empty()
        }),
{
    reveal(Seq::filter);
    assert(seq![x].drop_last() =~= Seq::<A>::empty());
    assert(Seq::<A>::empty().filter(p) == Seq::<A>::empty());
    assert(seq![x].drop_last().filter(p) == Seq::<A>::empty());
    assert(seq![x].last() == x);
    if p(x) {
        assert(seq![x].filter(p) =~= seq![x]);
    } else {
        assert(seq![x].filter(p) =~= Seq::<A>::empty());
    }
}

fn split_lines_exec<'a>(text: &'a str) -> (lines: Vec<&'a str>)
    ensures
        lines.deep_view() == split_lines(text@),
{
    let n = text.unicode_len();
    let mut lines: Vec<&'a str> = Vec::new();
    let mut start: usize = 0;
    let mut k: usize = 0;
    proof {
        assert(text@.subrange(0, n as int) =~= text@);
        assert(text@.subrange(0, 0) =~= Seq::<char>::empty());
        assert(lines.deep_view() =~= Seq::<Seq<char>>::empty());
    }
    while k < n
        invariant
            start <= k <= n,
            n == text@.len(),
            split_lines(text@) == lines.deep_view() + split_lines_rec(
                text@.subrange(k as int, n as int),
                text@.subrange(start as int, k as int),
            ),
        decreases n - k,
    {
        let ghost rest = text@.subrange(k as int, n as int);
        let ghost cur = text@.subrange(start as int, k as int);
        let c = text.get_char(k);
        proof {
            assert(rest[0] == text@[k as int]);
            assert(rest.drop_first() =~= text@.subrange(k as int + 1, n as int));
        }
        if c == '\n' {
            let line: &'a str = if k > start && text.get_char(k - 1) == '\r' {
                text.substring_char(start, k - 1)
            } else {
                text.substring_char(start, k)
            };
            proof {
                if k > start && text@[k as int - 1] == '\r' {
                    assert(cur.last() == text@[k as int - 1]);
                    assert(line@ =~= cur.drop_last());
                    assert(line@ == line_of(cur));
                } else {
                    if k > start {
                        assert(cur.last() == text@[k as int - 1]);
                    }
                    assert(line@ == line_of(cur));
                }
                assert(split_lines_rec(rest, cur) == seq![line_of(cur)] + split_lines_rec(
                    rest.drop_first(),
                    Seq::empty(),
                ));
            }
            let ghost prev = lines.deep_view();
            lines.push(line);
            proof {
                assert(lines.deep_view() =~= prev + seq![line@]);
                assert(text@.subrange(k as int + 1, k as int + 1) =~= Seq::<char>::empty());
                assert((prev + seq![line@]) + split_lines_rec(
                    text@.subrange(k as int + 1, n as int),
                    text@.subrange(k as int + 1, k as int + 1),
                ) =~= prev + (seq![line_of(cur)] + split_lines_rec(
                    rest.drop_first(),
                    Seq::empty(),
                )));
            }
            start = k + 1;
        } else {
            proof {
                assert(cur.push(text@[k as int]) =~= text@.subrange(start as int, k as int + 1));
                assert(split_lines_rec(rest, cur) == split_lines_rec(
                    text@.subrange(k as int + 1, n as int),
                    text@.subrange(start as int, k as int + 1),
                ));
            }
        }
        k = k + 1;
    }
    let ghost cur = text@.subrange(start as int, n as int);
    if start < n {
        let line = text.substring_char(start, n);
        let ghost prev = lines.deep_view();
        lines.push(line);
        proof {
            assert(cur.len() > 0);
            assert(split_lines_rec(text@.subrange(n as int, n as int), cur) == seq![cur]);
            assert(lines.deep_view() =~= prev + seq![line@]);
            assert(lines.deep_view() =~= split_lines(text@));
        }
    } else {
        proof {
            assert(cur.len() == 0);
            assert(split_lines_rec(text@.subrange(n as int, n as int), cur) =~= Seq::<
                Seq<char>,
            >::empty());
            assert(lines.deep_view() =~= split_lines(text@));
        }
    }
    lines
}

/// Collects, in order, every line of `data` that contains
/// `search_str` under `mode`. The returned lines borrow from `data`
/// and keep their original text and order.
pub fn search<'a>(search_str: &str, data: &'a str, mode: Case) -> (result: Vec<&'a str>)
    ensures
        result.deep_view() == search_spec(search_str@, data@, mode),
{
    let lines = split_lines_exec(data);
    let mut result: Vec<&'a str> = Vec::new();
    let mut idx: usize = 0;
    proof {
        assert(split_lines(data@).subrange(0, 0) =~= Seq::<Seq<char>>::empty());
        assert(Seq::<Seq<char>>::empty().filter(line_pred(search_str@, mode)) =~= Seq::<
            Seq<char>,
        >::empty()) by {
            reveal(Seq::filter);
        }
        assert(result.deep_view() =~= Seq::<Seq<char>>::empty());
    }
    while idx < lines.len()
        invariant
            0 <= idx <= lines@.len(),
            lines.deep_view() == split_lines(data@),
            result.deep_view() == split_lines(data@).subrange(0, idx as int).filter(
                line_pred(search_str@, mode),
            ),
        decreases lines@.len() - idx,
    {
        let line = lines[idx];
        let ghost prefix = split_lines(data@).subrange(0, idx as int);
        proof {
            assert(line@ == lines.deep_view()[idx as int]);
        }
        if line_matches_exec(line, search_str, mode) {
            let ghost prev = result.deep_view();
            result.push(line);
            proof {
                assert(line_pred(search_str@, mode)(line@));
                assert(result.deep_view() =~= prev + seq![line@]);
            }
        }
        proof {
            assert(split_lines(data@).subrange(0, idx as int + 1) =~= prefix + seq![line@]);
            Seq::filter_distributes_over_add(prefix, seq![line@], line_pred(search_str@, mode));
            lemma_filter_singleton(line@, line_pred(search_str@, mode));
            if !line_pred(search_str@, mode)(line@) {
                assert(prefix.filter(line_pred(search_str@, mode)) + Seq::<Seq<char>>::empty()
                    =~= prefix.filter(line_pred(search_str@, mode)));
            }
        }
        idx = idx + 1;
    }
    proof {
        assert(split_lines(data@).subrange(0, lines@.len() as int) =~= split_lines(data@));
    }
    result
}

/// Sensitive search keeps exactly the right lines: every returned
/// line contains the search string as an exact substring, and every
/// line of the text that contains it is returned.
pub proof fn lemma_sensitive_exact(pat: Seq<char>, text: Seq<char>)
    ensures
        forall|i: int|
            0 <= i < search_spec(pat, text, Case::Sensitive).len() ==> contains_seq(
                #[trigger] search_spec(pat, text, Case::Sensitive)[i],
                pat,
            ),
        forall|i: int|
            0 <= i < split_lines(text).len() && contains_seq(#[trigger] split_lines(text)[i], pat)
                ==> search_spec(pat, text, Case::Sensitive).contains(split_lines(text)[i]),
{
    let p = line_pred(pat, Case::Sensitive);
    assert forall|i: int| 0 <= i < search_spec(pat, text, Case::Sensitive).len() implies contains_seq(
        search_spec(pat, text, Case::Sensitive)[i],
        pat,
    ) by {
        split_lines(text).lemma_filter_pred(p, i);
        assert(p(search_spec(pat, text, Case::Sensitive)[i]));
    }
    assert forall|i: int|
        0 <= i < split_lines(text).len() && contains_seq(
            split_lines(text)[i],
            pat,
        ) implies search_spec(pat, text, Case::Sensitive).contains(split_lines(text)[i]) by {
        assert(p(split_lines(text)[i]));
        split_lines(text).lemma_filter_contains(p, i);
    }
}

/// Case folding is applied to each character alone, so an occurrence
/// of the pattern in a text folds to an occurrence of the folded
/// pattern in the folded text.
pub proof fn lemma_fold_preserves_contains(t: Seq<char>, p: Seq<char>)
    requires
        contains_seq(t, p),
    ensures
        contains_seq(fold_seq(t), fold_seq(p)),
{
    let i = choose|i: int| match_at(t, p, i);
    assert forall|j: int| 0 <= j < fold_seq(p).len() implies fold_seq(t)[i + j] == fold_seq(
        p,
    )[j] by {
        assert(t[i + j] == p[j]);
    }
    assert(match_at(fold_seq(t), fold_seq(p), i));
}

/// Insensitive search returns every line that sensitive search
/// returns for the same search string and text.
pub proof fn lemma_insensitive_superset(pat: Seq<char>, text: Seq<char>)
    ensures
        forall|i: int|
            0 <= i < search_spec(pat, text, Case::Sensitive).len() ==> search_spec(
                pat,
                text,
                Case::Insensitive,
            ).contains(#[trigger] search_spec(pat, text, Case::Sensitive)[i]),
{
    let sens = search_spec(pat, text, Case::Sensitive);
    let ps = line_pred(pat, Case::Sensitive);
    let pi = line_pred(pat, Case::Insensitive);
    assert forall|i: int| 0 <= i < sens.len() implies search_spec(
        pat,
        text,
        Case::Insensitive,
    ).contains(sens[i]) by {
        let l = sens[i];
        split_lines(text).lemma_filter_pred(ps, i);
        assert(contains_seq(l, pat));
        lemma_fold_preserves_contains(l, pat);
        assert(pi(l));
        assert(sens.contains(l)) by {
            assert(0 <= i < sens.len() && sens[i] == l);
        }
        split_lines(text).lemma_filter_contains_rev(ps, l);
        let j = choose|j: int| 0 <= j < split_lines(text).len() && split_lines(text)[j] == l;
        split_lines(text).lemma_filter_contains(pi, j);
    }
}

/// The filter is deterministic: two runs on identical inputs give
/// identical, identically ordered results.
pub proof fn lemma_search_deterministic(
    pat: Seq<char>,
    text: Seq<char>,
    mode: Case,
    r1: Seq<Seq<char>>,
    r2: Seq<Seq<char>>,
)
    requires
        r1 == search_spec(pat, text, mode),
        r2 == search_spec(pat, text, mode),
    ensures
        r1 == r2,
{
}

/// An empty content string yields an empty result, whatever the
/// search string and the case mode.
pub proof fn lemma_empty_content(pat: Seq<char>, mode: Case)
    ensures
        search_spec(pat, Seq::empty(), mode) == Seq::<Seq<char>>::empty(),
{
    assert(split_lines(Seq::empty()) == Seq::<Seq<char>>::empty());
    assert(Seq::<Seq<char>>::empty().filter(line_pred(pat, mode)) == Seq::<Seq<char>>::empty())
        by {
        reveal(Seq::filter);
    }
}

} // verus!
