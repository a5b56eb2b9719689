//! Properties of a whole pass, proved from the scanning rules.
use vstd::prelude::*;
use crate::error::ErrorView;
use crate::lexical::{
    is_whitespace, lemma_step_bounds, newlines, run_until, scan_from, scan_result, step,
    step_errors, step_tokens, unterminated_message, Outcome,
};
use crate::token::{Kind, LiteralView, TokenView, eof_view};

verus! {

/// Counting newlines from the front: the first character, then the rest.
pub proof fn lemma_newlines_prepend(c: char, s: Seq<char>)
    ensures
        newlines(seq![c] + s) == newlines(s) + if c == '\n' {
            1nat
        } else {
            0nat
        },
    decreases s.len(),
{
    if s.len() > 0 {
        lemma_newlines_prepend(c, s.drop_last());
        assert((seq![c] + s).drop_last() =~= seq![c] + s.drop_last());
    } else {
        assert((seq![c] + s).drop_last() =~= s);
    }
}

/// From a position on which only whitespace follows, nothing is recorded and
/// the line counter grows by the newlines read.
pub proof fn lemma_blank_from(src: Seq<char>, pos: int, line: nat)
    requires
        0 <= pos <= src.len(),
        forall|i: int| pos <= i < src.len() ==> is_whitespace(#[trigger] src[i]),
    ensures
        scan_from(src, pos, line).tokens.len() == 0,
        scan_from(src, pos, line).errors.len() == 0,
        scan_from(src, pos, line).line == line + newlines(src.subrange(pos, src.len() as int)),
    decreases src.len() - pos,
{
    if pos < src.len() {
        lemma_blank_from(src, pos + 1, step(src, pos, line).line);
        lemma_newlines_prepend(src[pos], src.subrange(pos + 1, src.len() as int));
        assert(seq![src[pos]] + src.subrange(pos + 1, src.len() as int) =~= src.subrange(
            pos,
            src.len() as int,
        ));
    } else {
        assert(src.subrange(pos, src.len() as int) =~= Seq::<char>::empty());
    }
}

/// Input made only of spaces, tabs, carriage returns and newlines scans to
/// the end-of-input marker alone, on the line after the last newline.
pub proof fn law_whitespace_only(src: Seq<char>)
    requires
        forall|i: int| 0 <= i < src.len() ==> is_whitespace(#[trigger] src[i]),
    ensures
        scan_result(src) == Ok::<Seq<TokenView>, Seq<ErrorView>>(seq![eof_view(1 + newlines(src))]),
{
    lemma_blank_from(src, 0, 1);
    assert(src.subrange(0, src.len() as int) =~= src);
    let p = scan_from(src, 0, 1);
    assert(p.tokens.push(eof_view(p.line)) =~= seq![eof_view(1 + newlines(src))]);
}

/// Each token recorded from `pos` on is a non-empty slice of the input at or
/// after `pos`, and none is the end-of-input marker.
pub proof fn lemma_tokens_are_slices(src: Seq<char>, pos: int, line: nat)
    requires
        0 <= pos,
    ensures
        forall|i: int|
            0 <= i < scan_from(src, pos, line).tokens.len() ==> {
                let t = #[trigger] scan_from(src, pos, line).tokens[i];
                &&& t.kind != Kind::Eof
                &&& exists|s: int, e: int|
                    pos <= s < e <= src.len() && t.lexeme == src.subrange(s, e)
            },
    decreases src.len() - pos,
{
    if pos < src.len() {
        lemma_step_bounds(src, pos, line);
        let st = step(src, pos, line);
        lemma_tokens_are_slices(src, st.end, st.line);
        let head = step_tokens(src, pos, line);
        let rest = scan_from(src, st.end, st.line);
        let all = scan_from(src, pos, line).tokens;
        assert(all == head + rest.tokens);
        assert forall|i: int| 0 <= i < all.len() implies {
            let t = #[trigger] all[i];
            &&& t.kind != Kind::Eof
            &&& exists|s: int, e: int| pos <= s < e <= src.len() && t.lexeme == src.subrange(s, e)
        } by {
            if i < head.len() {
                assert(all[i] == head[i]);
                assert(all[i].lexeme == src.subrange(pos, st.end));
            } else {
                assert(all[i] == rest.tokens[i - head.len()]);
            }
        }
    }
}

/// A successful pass ends with the end-of-input marker, whose lexeme is
/// empty; every token before it is a non-empty slice of the input.
pub proof fn law_lexemes_are_slices(src: Seq<char>)
    ensures
        scan_result(src) is Ok ==> {
            let ts = scan_result(src)->Ok_0;
            &&& ts.len() >= 1
            &&& ts.last().kind == Kind::Eof
            &&& ts.last().lexeme.len() == 0
            &&& forall|i: int|
                0 <= i < ts.len() - 1 ==> {
                    &&& (#[trigger] ts[i]).kind != Kind::Eof
                    &&& ts[i].lexeme.len() > 0
                    &&& exists|s: int, e: int|
                        0 <= s < e <= src.len() && ts[i].lexeme == src.subrange(s, e)
                }
        },
{
    lemma_tokens_are_slices(src, 0, 1);
    let p = scan_from(src, 0, 1);
    if scan_result(src) is Ok {
        let ts = scan_result(src)->Ok_0;
        assert(ts == p.tokens.push(eof_view(p.line)));
        assert forall|i: int| 0 <= i < ts.len() - 1 implies {
            &&& (#[trigger] ts[i]).kind != Kind::Eof
            &&& ts[i].lexeme.len() > 0
            &&& exists|s: int, e: int| 0 <= s < e <= src.len() && ts[i].lexeme == src.subrange(s, e)
        } by {
            assert(ts[i] == p.tokens[i]);
            let t = p.tokens[i];
            let (s, e) = choose|s: int, e: int|
                0 <= s < e <= src.len() && t.lexeme == src.subrange(s, e);
            assert(t.lexeme.len() == e - s);
        }
    }
}

/// The run up to `stop` ends at its first occurrence.
pub proof fn lemma_run_until_first(src: Seq<char>, i: int, stop: char, j: int)
    requires
        0 <= i <= j < src.len(),
        src[j] == stop,
        forall|k: int| i <= k < j ==> src[k] != stop,
    ensures
        run_until(src, i, stop) == j - i,
    decreases j - i,
{
    if i < j {
        lemma_run_until_first(src, i + 1, stop, j);
    }
}

/// A string literal from `pos` to the quote at `close` is one token on the
/// line of its opening quote, with the text between the quotes as its value;
/// the scan goes on after the closing quote with the line counter grown by
/// one for each newline inside the literal.
pub proof fn law_string_lines(src: Seq<char>, pos: int, close: int, line: nat)
    requires
        0 <= pos < close < src.len(),
        src[pos] == '"',
        src[close] == '"',
        forall|k: int| pos < k < close ==> src[k] != '"',
    ensures
        ({
            let after = scan_from(src, close + 1, line + newlines(src.subrange(pos + 1, close)));
            let here = scan_from(src, pos, line);
            &&& here.tokens == seq![
                TokenView {
                    kind: Kind::String,
                    lexeme: src.subrange(pos, close + 1),
                    literal: LiteralView::Text(src.subrange(pos + 1, close)),
                    line,
                },
            ] + after.tokens
            &&& here.errors == after.errors
            &&& here.line == after.line
        }),
{
    lemma_run_until_first(src, pos + 1, '"', close);
    let after = scan_from(src, close + 1, line + newlines(src.subrange(pos + 1, close)));
    assert(step_errors(src, pos, line) + after.errors =~= after.errors);
}

/// Whether `g` is made of whitespace and line comments only; `in_comment`
/// says that a line comment is open at its start. A comment runs from `//`
/// up to the next newline or the end.
pub open spec fn filler_from(g: Seq<char>, in_comment: bool) -> bool
    decreases g.len(),
{
    if g.len() == 0 {
        true
    } else if in_comment {
        filler_from(g.drop_first(), g[0] != '\n')
    } else if is_whitespace(g[0]) {
        filler_from(g.drop_first(), false)
    } else if g.len() >= 2 && g[0] == '/' && g[1] == '/' {
        filler_from(g.subrange(2, g.len() as int), true)
    } else {
        false
    }
}

/// Text that a pass steps over without a token: whitespace and line comments.
pub open spec fn is_filler(g: Seq<char>) -> bool {
    filler_from(g, false)
}

/// The text that `gaps` and the lexemes of `tokens` make, taken in turn and
/// starting with a gap.
pub open spec fn weave(gaps: Seq<Seq<char>>, tokens: Seq<TokenView>) -> Seq<char>
    decreases tokens.len(),
{
    if tokens.len() == 0 {
        if gaps.len() > 0 {
            gaps[0]
        } else {
            Seq::empty()
        }
    } else {
        gaps[0] + tokens[0].lexeme + weave(gaps.drop_first(), tokens.drop_first())
    }
}

/// No character of the run up to `stop` is `stop`.
pub proof fn lemma_run_until_avoids(src: Seq<char>, i: int, stop: char)
    requires
        0 <= i,
    ensures
        forall|k: int| i <= k < i + run_until(src, i, stop) ==> src[k] != stop,
        i + run_until(src, i, stop) < src.len() ==> src[i + run_until(src, i, stop)] == stop,
    decreases src.len() - i,
{
    if 0 <= i < src.len() && src[i] != stop {
        lemma_run_until_avoids(src, i + 1, stop);
    }
}

/// Inside an open comment, characters other than newline change nothing.
pub proof fn lemma_comment_body(body: Seq<char>, g: Seq<char>)
    requires
        forall|k: int| 0 <= k < body.len() ==> body[k] != '\n',
    ensures
        filler_from(body + g, true) == filler_from(g, true),
    decreases body.len(),
{
    if body.len() > 0 {
        assert((body + g).drop_first() =~= body.drop_first() + g);
        lemma_comment_body(body.drop_first(), g);
    } else {
        assert(body + g =~= g);
    }
}

/// What a skipping step steps over, put before filler that starts where the
/// step ends, is filler again.
pub proof fn lemma_skip_is_filler(src: Seq<char>, pos: int, line: nat, g: Seq<char>)
    requires
        0 <= pos < src.len(),
        step(src, pos, line).outcome is Skip,
        is_filler(g),
        g.len() > 0 ==> step(src, pos, line).end < src.len() && g[0] == src[step(src, pos, line).end],
    ensures
        is_filler(src.subrange(pos, step(src, pos, line).end) + g),
{
    lemma_step_bounds(src, pos, line);
    let end = step(src, pos, line).end;
    let piece = src.subrange(pos, end);
    let c = src[pos];
    if c == '/' {
        lemma_run_until_avoids(src, pos + 2, '\n');
        let body = src.subrange(pos + 2, end);
        assert((piece + g).subrange(2, (piece + g).len() as int) =~= body + g);
        lemma_comment_body(body, g);
        if g.len() > 0 {
            assert(filler_from(g, true) == filler_from(g.drop_first(), false));
        }
    } else {
        assert((piece + g).drop_first() =~= g);
    }
}

/// A scan from `pos` that records no error splits the rest of the input into
/// filler and the lexemes of its tokens, in turn.
pub proof fn lemma_rebuild_from(src: Seq<char>, pos: int, line: nat)
    requires
        0 <= pos <= src.len(),
        scan_from(src, pos, line).errors.len() == 0,
    ensures
        exists|gaps: Seq<Seq<char>>|
            {
                &&& gaps.len() == scan_from(src, pos, line).tokens.len() + 1
                &&& forall|i: int| 0 <= i < gaps.len() ==> is_filler(#[trigger] gaps[i])
                &&& weave(gaps, scan_from(src, pos, line).tokens) == src.subrange(
                    pos,
                    src.len() as int,
                )
            },
    decreases src.len() - pos,
{
    let here = scan_from(src, pos, line);
    if pos == src.len() {
        let gaps = seq![Seq::<char>::empty()];
        assert(src.subrange(pos, src.len() as int) =~= Seq::<char>::empty());
        assert(is_filler(gaps[0]));
        assert(weave(gaps, here.tokens) == src.subrange(pos, src.len() as int));
    } else {
        lemma_step_bounds(src, pos, line);
        let st = step(src, pos, line);
        let rest = scan_from(src, st.end, st.line);
        assert(here.errors == step_errors(src, pos, line) + rest.errors);
        assert(rest.errors =~= here.errors.subrange(
            here.errors.len() - rest.errors.len(),
            here.errors.len() as int,
        ));
        lemma_rebuild_from(src, st.end, st.line);
        let g = choose|gaps: Seq<Seq<char>>|
            {
                &&& gaps.len() == rest.tokens.len() + 1
                &&& forall|i: int| 0 <= i < gaps.len() ==> is_filler(#[trigger] gaps[i])
                &&& weave(gaps, rest.tokens) == src.subrange(st.end, src.len() as int)
            };
        let piece = src.subrange(pos, st.end);
        assert(src.subrange(pos, src.len() as int) =~= piece + src.subrange(
            st.end,
            src.len() as int,
        ));
        match st.outcome {
            Outcome::Skip => {
                assert(here.tokens =~= rest.tokens);
                let gaps = g.update(0, piece + g[0]);
                if g[0].len() > 0 {
                    if rest.tokens.len() == 0 {
                        assert(weave(g, rest.tokens) == g[0]);
                    } else {
                        assert(weave(g, rest.tokens) == g[0] + rest.tokens[0].lexeme + weave(
                            g.drop_first(),
                            rest.tokens.drop_first(),
                        ));
                        assert(weave(g, rest.tokens)[0] == g[0][0]);
                    }
                }
                lemma_skip_is_filler(src, pos, line, g[0]);
                assert forall|i: int| 0 <= i < gaps.len() implies is_filler(#[trigger] gaps[i]) by {
                    if i > 0 {
                        assert(gaps[i] == g[i]);
                    }
                }
                if rest.tokens.len() == 0 {
                    assert(weave(gaps, here.tokens) == gaps[0]);
                } else {
                    assert(gaps.drop_first() =~= g.drop_first());
                    assert(weave(gaps, here.tokens) =~= piece + weave(g, rest.tokens));
                }
            },
            Outcome::Emit(kind, literal) => {
                let t = here.tokens[0];
                assert(here.tokens == seq![t] + rest.tokens);
                let gaps = seq![Seq::<char>::empty()] + g;
                assert(is_filler(gaps[0]));
                assert forall|i: int| 0 <= i < gaps.len() implies is_filler(#[trigger] gaps[i]) by {
                    if i > 0 {
                        assert(gaps[i] == g[i - 1]);
                    }
                }
                assert(gaps.drop_first() =~= g);
                assert(here.tokens.drop_first() =~= rest.tokens);
                assert(weave(gaps, here.tokens) =~= piece + weave(g, rest.tokens));
            },
            Outcome::Fault(_) => {
                assert(here.errors.len() > 0);
            },
        }
    }
}

/// A pass without errors leaves out of its tokens only whitespace and line
/// comments: the input is filler and the lexemes of the tokens before the
/// end-of-input marker, taken in turn.
pub proof fn law_lexemes_rebuild_input(src: Seq<char>)
    requires
        scan_result(src) is Ok,
    ensures
        ({
            let ts = scan_result(src)->Ok_0;
            exists|gaps: Seq<Seq<char>>|
                {
                    &&& gaps.len() == ts.len()
                    &&& forall|i: int| 0 <= i < gaps.len() ==> is_filler(#[trigger] gaps[i])
                    &&& weave(gaps, ts.drop_last()) == src
                }
        }),
{
    let p = scan_from(src, 0, 1);
    lemma_rebuild_from(src, 0, 1);
    let ts = scan_result(src)->Ok_0;
    assert(ts.drop_last() =~= p.tokens);
    assert(src.subrange(0, src.len() as int) =~= src);
}

/// With no `stop` from `i` to the end, the run goes to the end.
pub proof fn lemma_run_until_to_end(src: Seq<char>, i: int, stop: char)
    requires
        0 <= i <= src.len(),
        forall|k: int| i <= k < src.len() ==> src[k] != stop,
    ensures
        run_until(src, i, stop) == src.len() - i,
    decreases src.len() - i,
{
    if i < src.len() {
        lemma_run_until_to_end(src, i + 1, stop);
    }
}

/// Input that opens a string and never closes it scans to exactly one
/// error, on the line the counter reaches at the end, and no tokens.
pub proof fn law_unterminated_string(src: Seq<char>)
    requires
        src.len() >= 1,
        src[0] == '"',
        forall|k: int| 1 <= k < src.len() ==> src[k] != '"',
    ensures
        scan_result(src) == Err::<Seq<TokenView>, Seq<ErrorView>>(
            seq![
                ErrorView {
                    message: unterminated_message(),
                    line: 1 + newlines(src.subrange(1, src.len() as int)),
                },
            ],
        ),
{
    lemma_run_until_to_end(src, 1, '"');
    let p = scan_from(src, 0, 1);
    let first = step(src, 0, 1);
    assert(scan_from(src, first.end, first.line).errors.len() == 0);
    assert(p.errors =~= step_errors(src, 0, 1));
}

} // verus!
