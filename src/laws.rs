use vstd::prelude::*;
use crate::chars::white_space;
use crate::error::LexErrorView;
use crate::model::{
    comment_close, lemma_comment_close_bounds, lemma_scan_step_bounds, lemma_skip_trivia_bounds,
    offset_at, scan_step, scan_stop, scanned_tokens, skip_trivia, structural_kind, token_spans,
};
use crate::token::TokenView;

verus! {

/// Skipping whitespace and comments never moves backwards, and skipping again
/// from where it stopped stops at once.
pub proof fn lemma_skip_trivia_monotonic_idempotent(s: Seq<char>, i: int)
    requires
        0 <= i <= s.len(),
    ensures
        skip_trivia(s, i) matches Ok(t) ==> i <= t <= s.len() && skip_trivia(s, t) == Ok::<
            int,
            int,
        >(t),
        skip_trivia(s, i) matches Err(c) ==> i <= c < s.len(),
    decreases s.len() - i,
{
    if i < s.len() && white_space(s[i]) {
        lemma_skip_trivia_monotonic_idempotent(s, i + 1);
    } else if i + 1 < s.len() && s[i] == '/' && s[i + 1] == '*' {
        lemma_comment_close_bounds(s, i + 2);
        if let Some(j) = comment_close(s, i + 2) {
            lemma_skip_trivia_monotonic_idempotent(s, j);
        }
    }
}

/// A text made of one punctuation character scans to that one token, over
/// the byte range `(0, 1)`.
pub proof fn lemma_single_structural(c: char)
    requires
        structural_kind(c) is Some,
    ensures
        scan_step(seq![c], 0) == (
            Ok::<TokenView, LexErrorView>(
                TokenView { kind: structural_kind(c)->0, start: 0, end: 1 },
            ),
            1int,
        ),
{
    let s = seq![c];
    assert(s.take(0) =~= Seq::<char>::empty());
    assert(s.take(1).drop_last() =~= s.take(0));
    assert(offset_at(s, 0) == 0);
    assert(offset_at(s, 1) == 1);
}

/// Whether `g` is made of whitespace and closed block comments only.
pub open spec fn is_trivia(g: Seq<char>) -> bool {
    skip_trivia(g, 0) == Ok::<int, int>(g.len() as int)
}

/// Where the text before the `k`-th of `spans` begins, for spans scanned
/// from `i`.
pub open spec fn gap_start(spans: Seq<(int, int)>, i: int, k: int) -> int {
    if k == 0 {
        i
    } else {
        spans[k - 1].1
    }
}

proof fn lemma_comment_close_within(s: Seq<char>, a: int, b: int, x: int)
    requires
        0 <= a <= x <= b <= s.len(),
        comment_close(s, x) matches Some(j) && j <= b,
    ensures
        comment_close(s.subrange(a, b), x - a) == Some(comment_close(s, x)->0 - a),
    decreases s.len() - x,
{
    let g = s.subrange(a, b);
    if !(x + 1 < s.len() && s[x] == '*' && s[x + 1] == '/') {
        lemma_comment_close_bounds(s, x + 1);
        lemma_comment_close_within(s, a, b, x + 1);
    }
}

proof fn lemma_trivia_within(s: Seq<char>, a: int, b: int, x: int)
    requires
        0 <= a <= x <= b <= s.len(),
        skip_trivia(s, x) == Ok::<int, int>(b),
    ensures
        skip_trivia(s.subrange(a, b), x - a) == Ok::<int, int>(b - a),
    decreases s.len() - x,
{
    let g = s.subrange(a, b);
    if x < s.len() && white_space(s[x]) {
        lemma_skip_trivia_bounds(s, x + 1);
        lemma_trivia_within(s, a, b, x + 1);
    } else if x + 1 < s.len() && s[x] == '/' && s[x + 1] == '*' {
        lemma_comment_close_bounds(s, x + 2);
        let j = comment_close(s, x + 2)->0;
        lemma_skip_trivia_bounds(s, j);
        lemma_comment_close_within(s, a, b, x + 2);
        lemma_trivia_within(s, a, b, j);
    }
}

proof fn lemma_rebuild_from(s: Seq<char>, i: int)
    requires
        0 <= i <= s.len(),
        scan_stop(s, i) == LexErrorView::EndOfFile,
    ensures
        ({
            let sp = token_spans(s, i);
            let tk = scanned_tokens(s, i);
            &&& tk.len() == sp.len()
            &&& forall|k: int|
                0 <= k < sp.len() ==> #[trigger] tk[k].start == offset_at(s, sp[k].0) && tk[k].end
                    == offset_at(s, sp[k].1)
            &&& forall|k: int|
                0 <= k < sp.len() ==> gap_start(sp, i, k) <= (#[trigger] sp[k]).0 < sp[k].1 <= s.len()
                    && is_trivia(s.subrange(gap_start(sp, i, k), sp[k].0))
            &&& gap_start(sp, i, sp.len() as int) <= s.len()
            &&& is_trivia(s.subrange(gap_start(sp, i, sp.len() as int), s.len() as int))
        }),
    decreases s.len() - i,
{
    lemma_scan_step_bounds(s, i);
    let sp = token_spans(s, i);
    let tk = scanned_tokens(s, i);
    if scan_step(s, i).0 is Ok {
        let t = skip_trivia(s, i)->Ok_0;
        let e = scan_step(s, i).1;
        lemma_rebuild_from(s, e);
        lemma_trivia_within(s, i, t, i);
        let sp2 = token_spans(s, e);
        let tk2 = scanned_tokens(s, e);
        assert(sp == seq![(t, e)] + sp2);
        assert(tk == seq![scan_step(s, i).0->Ok_0] + tk2);
        assert forall|k: int| 0 <= k < sp.len() implies #[trigger] tk[k].start == offset_at(
            s,
            sp[k].0,
        ) && tk[k].end == offset_at(s, sp[k].1) by {
            if k > 0 {
                assert(tk[k] == tk2[k - 1]);
                assert(sp[k] == sp2[k - 1]);
            }
        }
        assert forall|k: int| 0 <= k < sp.len() implies gap_start(sp, i, k) <= (
        #[trigger] sp[k]).0 < sp[k].1 <= s.len() && is_trivia(
            s.subrange(gap_start(sp, i, k), sp[k].0),
        ) by {
            if k > 0 {
                assert(sp[k] == sp2[k - 1]);
                assert(gap_start(sp, i, k) == gap_start(sp2, e, k - 1));
            } else {
                assert(s.subrange(i, t) =~= s.subrange(i, t).subrange(0, t - i));
            }
        }
        assert(gap_start(sp, i, sp.len() as int) == gap_start(sp2, e, sp2.len() as int));
    } else {
        lemma_trivia_within(s, i, s.len() as int, i);
    }
}

/// Reading the tokens of a text that scans to its end without error, each
/// token's byte range covers its own characters, the tokens come in order, and
/// everything before, between and after them is whitespace and closed
/// comments: joining the tokens' texts gives the input with exactly those
/// parts removed.
pub proof fn lemma_tokens_rebuild_input(s: Seq<char>)
    requires
        scan_stop(s, 0) == LexErrorView::EndOfFile,
    ensures
        ({
            let sp = token_spans(s, 0);
            let tk = scanned_tokens(s, 0);
            &&& tk.len() == sp.len()
            &&& forall|k: int|
                0 <= k < sp.len() ==> #[trigger] tk[k].start == offset_at(s, sp[k].0) && tk[k].end
                    == offset_at(s, sp[k].1)
            &&& forall|k: int|
                0 <= k < sp.len() ==> gap_start(sp, 0, k) <= (#[trigger] sp[k]).0 < sp[k].1 <= s.len()
                    && is_trivia(s.subrange(gap_start(sp, 0, k), sp[k].0))
            &&& is_trivia(s.subrange(gap_start(sp, 0, sp.len() as int), s.len() as int))
        }),
{
    lemma_rebuild_from(s, 0);
}

} // verus!
