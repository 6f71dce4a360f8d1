//! The scan itself. `line_tokens` and `line_errors` state, by recursion over
//! a line, the ordered tokens and the ordered unrecognized runs the scanner
//! yields for it; `all_tokens` and `all_errors` chain the lines together.
//! `tokenize` is the scanner: it is proved to return exactly those lists,
//! with the all-errors outcome if and only if some run is unrecognized.

use vstd::prelude::*;
use vstd::string::StrSliceExecFns;

use crate::chars::is_space_char;
use crate::rules::{
    RuleKind, winning_kind, step_len, match_here, lemma_match_len_bounds, lemma_digit_run,
    digit_run_len,
};
use crate::token::{
    Token, TokenModel, TokenPosition, token_model, digits_val, build_token, try_parse_digits,
};

verus! {

/// The ordered tokens the scanner yields for `s` from position `i` on:
/// pairs of start column and token, in order of their start columns.
pub open spec fn line_tokens(s: Seq<char>, i: int) -> Seq<(int, TokenModel)>
    decreases s.len() - i,
{
    if i < 0 || i >= s.len() {
        Seq::empty()
    } else if is_space_char(s[i]) {
        line_tokens(s, i + 1)
    } else {
        let l = step_len(s, i);
        match winning_kind(s, i) {
            Some(k) => seq![(i, token_model(k, s.subrange(i, i + l)))] + line_tokens(s, i + l),
            None => line_tokens(s, i + l),
        }
    }
}

/// The ordered unrecognized runs of `s` from position `i` on: pairs of
/// start column and raw matched text, in order of their start columns.
pub open spec fn line_errors(s: Seq<char>, i: int) -> Seq<(int, Seq<char>)>
    decreases s.len() - i,
{
    if i < 0 || i >= s.len() {
        Seq::empty()
    } else if is_space_char(s[i]) {
        line_errors(s, i + 1)
    } else {
        let l = step_len(s, i);
        match winning_kind(s, i) {
            Some(k) => line_errors(s, i + l),
            None => seq![(i, s.subrange(i, i + l))] + line_errors(s, i + l),
        }
    }
}

/// Every integer literal that the scan of `s` from position `i` on yields
/// has a value that fits a 64-bit signed integer.
pub open spec fn line_ints_ok(s: Seq<char>, i: int) -> bool
    decreases s.len() - i,
{
    if i < 0 || i >= s.len() {
        true
    } else if is_space_char(s[i]) {
        line_ints_ok(s, i + 1)
    } else {
        let l = step_len(s, i);
        (winning_kind(s, i) == Some(RuleKind::Int) ==> digits_val(s.subrange(i, i + l))
            <= i64::MAX) && line_ints_ok(s, i + l)
    }
}

/// Tags each column-and-token pair of one line with that line's index.
pub open spec fn with_line_t(items: Seq<(int, TokenModel)>, ln: int) -> Seq<(int, int, TokenModel)> {
    items.map_values(|p: (int, TokenModel)| (ln, p.0, p.1))
}

/// Tags each column-and-text pair of one line with that line's index.
pub open spec fn with_line_e(items: Seq<(int, Seq<char>)>, ln: int) -> Seq<(int, int, Seq<char>)> {
    items.map_values(|p: (int, Seq<char>)| (ln, p.0, p.1))
}

/// The tokens of all lines from line `j` on, in line order and, within a
/// line, in column order: triples of line, column and token.
pub open spec fn all_tokens(lines: Seq<Seq<char>>, j: int) -> Seq<(int, int, TokenModel)>
    decreases lines.len() - j,
{
    if j < 0 || j >= lines.len() {
        Seq::empty()
    } else {
        with_line_t(line_tokens(lines[j], 0), j) + all_tokens(lines, j + 1)
    }
}

/// The unrecognized runs of all lines from line `j` on, in line order and,
/// within a line, in column order: triples of line, column and raw text.
pub open spec fn all_errors(lines: Seq<Seq<char>>, j: int) -> Seq<(int, int, Seq<char>)>
    decreases lines.len() - j,
{
    if j < 0 || j >= lines.len() {
        Seq::empty()
    } else {
        with_line_e(line_errors(lines[j], 0), j) + all_errors(lines, j + 1)
    }
}

/// Every integer literal scanned anywhere in the input fits a 64-bit
/// signed integer.
pub open spec fn ints_ok(lines: Seq<Seq<char>>) -> bool {
    forall|j: int| 0 <= j < lines.len() ==> line_ints_ok(lines[j], 0)
}

/// The mathematical image of a produced token list.
pub open spec fn tokens_view(ts: Seq<(TokenPosition, Token)>) -> Seq<(int, int, TokenModel)> {
    ts.map_values(|p: (TokenPosition, Token)| (p.0.line as int, p.0.position as int, p.1@))
}

/// The mathematical image of a produced error list.
pub open spec fn errors_view(es: Seq<(TokenPosition, String)>) -> Seq<(int, int, Seq<char>)> {
    es.map_values(|p: (TokenPosition, String)| (p.0.line as int, p.0.position as int, p.1@))
}

proof fn lemma_tokens_view_push(ts: Seq<(TokenPosition, Token)>, p: (TokenPosition, Token))
    ensures
        tokens_view(ts.push(p)) == tokens_view(ts).push(
            (p.0.line as int, p.0.position as int, p.1@),
        ),
{
    assert(tokens_view(ts.push(p)) =~= tokens_view(ts).push(
        (p.0.line as int, p.0.position as int, p.1@),
    ));
}

proof fn lemma_errors_view_push(es: Seq<(TokenPosition, String)>, p: (TokenPosition, String))
    ensures
        errors_view(es.push(p)) == errors_view(es).push(
            (p.0.line as int, p.0.position as int, p.1@),
        ),
{
    assert(errors_view(es.push(p)) =~= errors_view(es).push(
        (p.0.line as int, p.0.position as int, p.1@),
    ));
}

proof fn lemma_with_line_t_push(items: Seq<(int, TokenModel)>, p: (int, TokenModel), ln: int)
    ensures
        with_line_t(items.push(p), ln) == with_line_t(items, ln).push((ln, p.0, p.1)),
{
    assert(with_line_t(items.push(p), ln) =~= with_line_t(items, ln).push((ln, p.0, p.1)));
}

proof fn lemma_with_line_e_push(items: Seq<(int, Seq<char>)>, p: (int, Seq<char>), ln: int)
    ensures
        with_line_e(items.push(p), ln) == with_line_e(items, ln).push((ln, p.0, p.1)),
{
    assert(with_line_e(items.push(p), ln) =~= with_line_e(items, ln).push((ln, p.0, p.1)));
}

/// Scans one line, appending its tokens and its unrecognized runs, each
/// tagged with the line index `ln` and its start column, to the two
/// accumulators.
fn scan_line(
    s: &str,
    ln: usize,
    toks: &mut Vec<(TokenPosition, Token)>,
    errs: &mut Vec<(TokenPosition, String)>,
)
    requires
        line_ints_ok(s@, 0),
    ensures
        tokens_view(final(toks)@) == tokens_view(old(toks)@) + with_line_t(
            line_tokens(s@, 0),
            ln as int,
        ),
        errors_view(final(errs)@) == errors_view(old(errs)@) + with_line_e(
            line_errors(s@, 0),
            ln as int,
        ),
{
    let len = s.unicode_len();
    let mut i: usize = 0;
    let ghost mut done_t: Seq<(int, TokenModel)> = Seq::empty();
    let ghost mut done_e: Seq<(int, Seq<char>)> = Seq::empty();
    proof {
        assert(done_t + line_tokens(s@, 0) =~= line_tokens(s@, 0));
        assert(done_e + line_errors(s@, 0) =~= line_errors(s@, 0));
        assert(with_line_t(done_t, ln as int) =~= Seq::<(int, int, TokenModel)>::empty());
        assert(with_line_e(done_e, ln as int) =~= Seq::<(int, int, Seq<char>)>::empty());
        assert(tokens_view(toks@) =~= tokens_view(toks@) + with_line_t(done_t, ln as int));
        assert(errors_view(errs@) =~= errors_view(errs@) + with_line_e(done_e, ln as int));
    }
    while i < len
        invariant
            i <= len,
            len == s@.len(),
            line_ints_ok(s@, i as int),
            done_t + line_tokens(s@, i as int) == line_tokens(s@, 0),
            done_e + line_errors(s@, i as int) == line_errors(s@, 0),
            tokens_view(toks@) == tokens_view(old(toks)@) + with_line_t(done_t, ln as int),
            errors_view(errs@) == errors_view(old(errs)@) + with_line_e(done_e, ln as int),
        decreases len - i,
    {
        let c = s.get_char(i);
        if crate::chars::space_char(c) {
            proof {
                assert(line_tokens(s@, i as int) == line_tokens(s@, i + 1));
                assert(line_errors(s@, i as int) == line_errors(s@, i + 1));
                assert(line_ints_ok(s@, i as int) == line_ints_ok(s@, i + 1));
            }
            i = i + 1;
        } else {
            proof {
                lemma_match_len_bounds(s@, i as int);
            }
            let (kopt, l) = match_here(s, i);
            match kopt {
                Some(k) => {
                    proof {
                        assert(winning_kind(s@, i as int) == Some(k));
                        assert(line_ints_ok(s@, i as int) == ((winning_kind(s@, i as int)
                            == Some(RuleKind::Int) ==> digits_val(
                            s@.subrange(i as int, i + l),
                        ) <= i64::MAX) && line_ints_ok(s@, i + l)));
                    }
                    let t = build_token(s, i, l, k);
                    let pos = TokenPosition { line: ln, position: i };
                    let ghost item = (i as int, token_model(k, s@.subrange(i as int, i + l)));
                    proof {
                        assert(line_tokens(s@, i as int) == seq![item] + line_tokens(s@, i + l));
                        assert(line_errors(s@, i as int) == line_errors(s@, i + l));
                    }
                    let ghost pre_toks = toks@;
                    toks.push((pos, t));
                    proof {
                        lemma_tokens_view_push(pre_toks, (pos, t));
                        lemma_with_line_t_push(done_t, item, ln as int);
                        let m = (ln as int, item.0, item.1);
                        assert((pos, t).1@ == item.1);
                        assert(tokens_view(toks@) == tokens_view(pre_toks).push(m));
                        assert(tokens_view(old(toks)@) + with_line_t(done_t.push(item), ln as int)
                            =~= (tokens_view(old(toks)@) + with_line_t(done_t, ln as int)).push(m));
                        assert(done_t.push(item) + line_tokens(s@, i + l) =~= done_t + (seq![item]
                            + line_tokens(s@, i + l)));
                        done_t = done_t.push(item);
                    }
                    i = i + l;
                },
                None => {
                    let txt = s.substring_char(i, i + l).to_owned();
                    let pos = TokenPosition { line: ln, position: i };
                    let ghost item = (i as int, s@.subrange(i as int, i + l));
                    proof {
                        assert(line_errors(s@, i as int) == seq![item] + line_errors(s@, i + l));
                        assert(line_tokens(s@, i as int) == line_tokens(s@, i + l));
                        assert(line_ints_ok(s@, i as int) == line_ints_ok(s@, i + l));
                    }
                    let ghost pre_errs = errs@;
                    errs.push((pos, txt));
                    proof {
                        lemma_errors_view_push(pre_errs, (pos, txt));
                        lemma_with_line_e_push(done_e, item, ln as int);
                        let m = (ln as int, item.0, item.1);
                        assert(errors_view(errs@) == errors_view(pre_errs).push(m));
                        assert(errors_view(old(errs)@) + with_line_e(done_e.push(item), ln as int)
                            =~= (errors_view(old(errs)@) + with_line_e(done_e, ln as int)).push(m));
                        assert(done_e.push(item) + line_errors(s@, i + l) =~= done_e + (seq![item]
                            + line_errors(s@, i + l)));
                        done_e = done_e.push(item);
                    }
                    i = i + l;
                },
            }
        }
    }
    proof {
        assert(line_tokens(s@, len as int) == Seq::<(int, TokenModel)>::empty());
        assert(line_errors(s@, len as int) == Seq::<(int, Seq<char>)>::empty());
        assert(done_t =~= done_t + line_tokens(s@, len as int));
        assert(done_e =~= done_e + line_errors(s@, len as int));
    }
}

/// Scans the whole input, one line after the other. When every maximal run
/// of non-whitespace characters is claimed by some rule, the result is the
/// complete ordered token list; otherwise it is the complete ordered list
/// of positioned unrecognized runs — never a mixture, and never only a
/// first error.
pub fn tokenize(lines: &Vec<String>) -> (r: Result<
    Vec<(TokenPosition, Token)>,
    Vec<(TokenPosition, String)>,
>)
    requires
        ints_ok(lines.deep_view()),
    ensures
        match r {
            Ok(ts) => all_errors(lines.deep_view(), 0).len() == 0 && tokens_view(ts@)
                == all_tokens(lines.deep_view(), 0),
            Err(es) => all_errors(lines.deep_view(), 0).len() > 0 && errors_view(es@)
                == all_errors(lines.deep_view(), 0),
        },
{
    let ghost lv = lines.deep_view();
    let mut toks: Vec<(TokenPosition, Token)> = Vec::new();
    let mut errs: Vec<(TokenPosition, String)> = Vec::new();
    let mut ln: usize = 0;
    proof {
        assert(tokens_view(toks@) =~= Seq::<(int, int, TokenModel)>::empty());
        assert(errors_view(errs@) =~= Seq::<(int, int, Seq<char>)>::empty());
        assert(tokens_view(toks@) + all_tokens(lv, 0) =~= all_tokens(lv, 0));
        assert(errors_view(errs@) + all_errors(lv, 0) =~= all_errors(lv, 0));
    }
    while ln < lines.len()
        invariant
            ln <= lines.len(),
            lv == lines.deep_view(),
            ints_ok(lv),
            lv.len() == lines.len(),
            tokens_view(toks@) + all_tokens(lv, ln as int) == all_tokens(lv, 0),
            errors_view(errs@) + all_errors(lv, ln as int) == all_errors(lv, 0),
        decreases lines.len() - ln,
    {
        let line: &String = &lines[ln];
        proof {
            assert(lv[ln as int] == line@);
            assert(line_ints_ok(line@, 0));
        }
        let ghost pre_toks = toks@;
        let ghost pre_errs = errs@;
        scan_line(line.as_str(), ln, &mut toks, &mut errs);
        proof {
            assert(all_tokens(lv, ln as int) == with_line_t(line_tokens(lv[ln as int], 0), ln as int)
                + all_tokens(lv, ln + 1));
            assert(all_errors(lv, ln as int) == with_line_e(line_errors(lv[ln as int], 0), ln as int)
                + all_errors(lv, ln + 1));
            assert(tokens_view(toks@) + all_tokens(lv, ln + 1) =~= (tokens_view(pre_toks)
                + with_line_t(line_tokens(lv[ln as int], 0), ln as int)) + all_tokens(lv, ln + 1));
            assert((tokens_view(pre_toks) + with_line_t(line_tokens(lv[ln as int], 0), ln as int))
                + all_tokens(lv, ln + 1) =~= tokens_view(pre_toks) + all_tokens(lv, ln as int));
            assert(errors_view(errs@) + all_errors(lv, ln + 1) =~= (errors_view(pre_errs)
                + with_line_e(line_errors(lv[ln as int], 0), ln as int)) + all_errors(lv, ln + 1));
            assert((errors_view(pre_errs) + with_line_e(line_errors(lv[ln as int], 0), ln as int))
                + all_errors(lv, ln + 1) =~= errors_view(pre_errs) + all_errors(lv, ln as int));
        }
        ln = ln + 1;
    }
    proof {
        assert(all_tokens(lv, lines.len() as int) == Seq::<(int, int, TokenModel)>::empty());
        assert(all_errors(lv, lines.len() as int) == Seq::<(int, int, Seq<char>)>::empty());
        assert(tokens_view(toks@) =~= tokens_view(toks@) + all_tokens(lv, lines.len() as int));
        assert(errors_view(errs@) =~= errors_view(errs@) + all_errors(lv, lines.len() as int));
    }
    if errs.len() > 0 {
        proof {
            assert(errors_view(errs@).len() == errs@.len());
        }
        Err(errs)
    } else {
        proof {
            assert(errors_view(errs@).len() == errs@.len());
        }
        Ok(toks)
    }
}

/// Decides whether one line's scan meets the integer-range precondition.
fn line_fits(s: &str) -> (b: bool)
    ensures
        b == line_ints_ok(s@, 0),
{
    let len = s.unicode_len();
    let mut i: usize = 0;
    while i < len
        invariant
            i <= len,
            len == s@.len(),
            line_ints_ok(s@, 0) == line_ints_ok(s@, i as int),
        decreases len - i,
    {
        let c = s.get_char(i);
        if crate::chars::space_char(c) {
            proof {
                assert(line_ints_ok(s@, i as int) == line_ints_ok(s@, i + 1));
            }
            i = i + 1;
        } else {
            proof {
                lemma_match_len_bounds(s@, i as int);
            }
            let (kopt, l) = match_here(s, i);
            proof {
                assert(line_ints_ok(s@, i as int) == ((winning_kind(s@, i as int) == Some(
                    RuleKind::Int,
                ) ==> digits_val(s@.subrange(i as int, i + l)) <= i64::MAX) && line_ints_ok(
                    s@,
                    i + l,
                )));
            }
            if let Some(k) = kopt {
                if k == RuleKind::Int {
                    proof {
                        lemma_digit_run(s@, i as int);
                        assert(l as int == digit_run_len(s@, i as int));
                    }
                    if try_parse_digits(s, i, l).is_none() {
                        proof {
                            assert(!line_ints_ok(s@, i as int));
                        }
                        return false;
                    }
                }
            }
            i = i + l;
        }
    }
    true
}

/// Decides the precondition of `tokenize`: whether every integer literal
/// the scan of this input would yield has a value that fits a 64-bit
/// signed integer. On any other input, `tokenize` would have to read a
/// numeral no 64-bit integer can hold.
pub fn int_lexemes_fit(lines: &Vec<String>) -> (b: bool)
    ensures
        b == ints_ok(lines.deep_view()),
{
    let ghost lv = lines.deep_view();
    let mut ln: usize = 0;
    while ln < lines.len()
        invariant
            ln <= lines.len(),
            lv == lines.deep_view(),
            lv.len() == lines.len(),
            forall|j: int| 0 <= j < ln ==> line_ints_ok(lv[j], 0),
        decreases lines.len() - ln,
    {
        let line: &String = &lines[ln];
        proof {
            assert(lv[ln as int] == line@);
        }
        if !line_fits(line.as_str()) {
            proof {
                assert(!line_ints_ok(lv[ln as int], 0));
            }
            return false;
        }
        ln = ln + 1;
    }
    true
}

} // verus!
