//! Laws of the scanner, each proved from the specification functions alone:
//! the priority policy between overlapping rules, the behaviour of each
//! fixed operator scanned in isolation, and the insensitivity of the token
//! sequence to whitespace between lexemes.

use vstd::prelude::*;

use crate::chars::{is_space_char, is_digit_char, is_alpha_char, is_word_char};
use crate::rules::{
    RuleKind, winning_kind, float_len, int_len, call_len, digit_run_len, word_run_len,
    nonspace_run_len, match_len_at, step_len, lemma_digit_run, lemma_word_run,
    lemma_match_len_bounds,
};
use crate::token::{TokenModel, token_model};
use crate::scan::{line_tokens, line_errors};

verus! {

/// Priority law: wherever the float rule matches, the float rule wins —
/// the text is never read as an integer literal followed by a period,
/// because the more specific rule stands before the more general one.
pub proof fn lemma_float_preempts_int(s: Seq<char>, i: int)
    requires
        float_len(s, i) is Some,
    ensures
        winning_kind(s, i) == Some(RuleKind::Float),
{
}

/// Call-versus-name law: wherever the call rule matches — an identifier
/// immediately followed by an opening parenthesis — the call rule wins;
/// such text is never read as a bare name followed by a parenthesis.
pub proof fn lemma_call_preempts_name(s: Seq<char>, i: int)
    requires
        call_len(s, i) is Some,
    ensures
        winning_kind(s, i) == Some(RuleKind::Call),
{
    assert(is_alpha_char(s[i]));
    assert(digit_run_len(s, i) == 0);
    assert(float_len(s, i) is None);
    assert(int_len(s, i) is None);
}

/// Whether a rule kind carries no payload: the fixed operators and the
/// structural characters.
pub open spec fn is_operator_kind(k: RuleKind) -> bool {
    match k {
        RuleKind::Float => false,
        RuleKind::Int => false,
        RuleKind::Char => false,
        RuleKind::Call => false,
        RuleKind::Builtin => false,
        RuleKind::Name => false,
        _ => true,
    }
}

/// The exact literal text of a rule kind with no payload.
pub open spec fn op_text(k: RuleKind) -> Seq<char> {
    match k {
        RuleKind::Equal => seq!['=', '='],
        RuleKind::Neq => seq!['!', '='],
        RuleKind::Leq => seq!['<', '='],
        RuleKind::Geq => seq!['>', '='],
        RuleKind::Less => seq!['<'],
        RuleKind::Greater => seq!['>'],
        RuleKind::Add => seq!['+'],
        RuleKind::Sub => seq!['-'],
        RuleKind::Mul => seq!['*'],
        RuleKind::Div => seq!['/'],
        RuleKind::Assign => seq!['='],
        RuleKind::Not => seq!['!'],
        RuleKind::And => seq!['&', '&'],
        RuleKind::Or => seq!['|', '|'],
        RuleKind::Bnot => seq!['~'],
        RuleKind::Band => seq!['&'],
        RuleKind::Bor => seq!['|'],
        RuleKind::Xor => seq!['^'],
        RuleKind::Lambda => seq!['\\'],
        RuleKind::Comma => seq![','],
        RuleKind::Period => seq!['.'],
        RuleKind::Semicolon => seq![';'],
        RuleKind::Lpar => seq!['('],
        RuleKind::Rpar => seq![')'],
        _ => Seq::empty(),
    }
}

/// Isolation law: scanning the exact literal text of any rule kind with no
/// payload yields exactly one token, of that kind, at column zero, and no
/// lexical error.
pub proof fn lemma_operator_isolated(k: RuleKind)
    requires
        is_operator_kind(k),
    ensures
        line_tokens(op_text(k), 0) == seq![(0int, token_model(k, op_text(k)))],
        line_errors(op_text(k), 0) == Seq::<(int, Seq<char>)>::empty(),
{
    let t = op_text(k);
    assert(winning_kind(t, 0) == Some(k));
    assert(step_len(t, 0) == t.len());
    assert(t.subrange(0, t.len() as int) =~= t);
    assert(line_tokens(t, t.len() as int) =~= Seq::<(int, TokenModel)>::empty());
    assert(line_errors(t, t.len() as int) =~= Seq::<(int, Seq<char>)>::empty());
    assert(line_tokens(t, 0) =~= seq![(0int, token_model(k, t))]);
    assert(line_errors(t, 0) =~= Seq::<(int, Seq<char>)>::empty());
}

/// Shifts every start column of a token list by `d`.
pub open spec fn shift_t(items: Seq<(int, TokenModel)>, d: int) -> Seq<(int, TokenModel)> {
    items.map_values(|p: (int, TokenModel)| (p.0 + d, p.1))
}

/// Shifts every start column of an error list by `d`.
pub open spec fn shift_e(items: Seq<(int, Seq<char>)>, d: int) -> Seq<(int, Seq<char>)> {
    items.map_values(|p: (int, Seq<char>)| (p.0 + d, p.1))
}

proof fn lemma_digit_run_prefix(s1: Seq<char>, c: char, s2: Seq<char>, i: int)
    requires
        0 <= i <= s1.len(),
        !is_digit_char(c),
    ensures
        digit_run_len(s1 + seq![c] + s2, i) == digit_run_len(s1, i),
    decreases s1.len() - i,
{
    let comb = s1 + seq![c] + s2;
    if i < s1.len() {
        assert(comb[i] == s1[i]);
        if is_digit_char(s1[i]) {
            lemma_digit_run_prefix(s1, c, s2, i + 1);
        }
    } else {
        assert(comb[i] == c);
    }
}

proof fn lemma_word_run_prefix(s1: Seq<char>, c: char, s2: Seq<char>, i: int)
    requires
        0 <= i <= s1.len(),
        !is_word_char(c),
    ensures
        word_run_len(s1 + seq![c] + s2, i) == word_run_len(s1, i),
    decreases s1.len() - i,
{
    let comb = s1 + seq![c] + s2;
    if i < s1.len() {
        assert(comb[i] == s1[i]);
        if is_word_char(s1[i]) {
            lemma_word_run_prefix(s1, c, s2, i + 1);
        }
    } else {
        assert(comb[i] == c);
    }
}

proof fn lemma_nonspace_run_prefix(s1: Seq<char>, c: char, s2: Seq<char>, i: int)
    requires
        0 <= i <= s1.len(),
        is_space_char(c),
    ensures
        nonspace_run_len(s1 + seq![c] + s2, i) == nonspace_run_len(s1, i),
    decreases s1.len() - i,
{
    let comb = s1 + seq![c] + s2;
    if i < s1.len() {
        assert(comb[i] == s1[i]);
        if !is_space_char(s1[i]) {
            lemma_nonspace_run_prefix(s1, c, s2, i + 1);
        }
    } else {
        assert(comb[i] == c);
    }
}

proof fn lemma_digit_run_suffix(s1: Seq<char>, c: char, s2: Seq<char>, j: int)
    requires
        0 <= j <= s2.len(),
    ensures
        digit_run_len(s1 + seq![c] + s2, s1.len() + 1 + j) == digit_run_len(s2, j),
    decreases s2.len() - j,
{
    let comb = s1 + seq![c] + s2;
    if j < s2.len() {
        assert(comb[s1.len() + 1 + j] == s2[j]);
        if is_digit_char(s2[j]) {
            lemma_digit_run_suffix(s1, c, s2, j + 1);
        }
    }
}

proof fn lemma_word_run_suffix(s1: Seq<char>, c: char, s2: Seq<char>, j: int)
    requires
        0 <= j <= s2.len(),
    ensures
        word_run_len(s1 + seq![c] + s2, s1.len() + 1 + j) == word_run_len(s2, j),
    decreases s2.len() - j,
{
    let comb = s1 + seq![c] + s2;
    if j < s2.len() {
        assert(comb[s1.len() + 1 + j] == s2[j]);
        if is_word_char(s2[j]) {
            lemma_word_run_suffix(s1, c, s2, j + 1);
        }
    }
}

proof fn lemma_nonspace_run_suffix(s1: Seq<char>, c: char, s2: Seq<char>, j: int)
    requires
        0 <= j <= s2.len(),
    ensures
        nonspace_run_len(s1 + seq![c] + s2, s1.len() + 1 + j) == nonspace_run_len(s2, j),
    decreases s2.len() - j,
{
    let comb = s1 + seq![c] + s2;
    if j < s2.len() {
        assert(comb[s1.len() + 1 + j] == s2[j]);
        if !is_space_char(s2[j]) {
            lemma_nonspace_run_suffix(s1, c, s2, j + 1);
        }
    }
}

/// At a position of the left part, the match is the same whether or not the
/// separator and the right part follow: no lexeme can contain the
/// whitespace separator, and no rule can look past it.
proof fn lemma_match_prefix(s1: Seq<char>, c: char, s2: Seq<char>, i: int)
    requires
        0 <= i < s1.len(),
        !is_space_char(s1[i]),
        is_space_char(c),
        c != '\n',
    ensures
        winning_kind(s1 + seq![c] + s2, i) == winning_kind(s1, i),
        match_len_at(s1 + seq![c] + s2, i) == match_len_at(s1, i),
        step_len(s1 + seq![c] + s2, i) == step_len(s1, i),
{
    let comb = s1 + seq![c] + s2;
    assert(forall|x: int| 0 <= x < s1.len() ==> comb[x] == s1[x]);
    assert(comb[s1.len() as int] == c);
    assert(!is_digit_char(c) && !is_alpha_char(c) && !is_word_char(c));
    lemma_digit_run_prefix(s1, c, s2, i);
    lemma_digit_run(s1, i);
    let dr = digit_run_len(s1, i);
    if i + dr < s1.len() {
        lemma_digit_run_prefix(s1, c, s2, i + dr + 1);
    }
    lemma_word_run_prefix(s1, c, s2, i + 1);
    lemma_word_run(s1, i + 1);
    if i + 2 <= s1.len() {
        lemma_word_run_prefix(s1, c, s2, i + 2);
        lemma_word_run(s1, i + 2);
    }
    lemma_nonspace_run_prefix(s1, c, s2, i);
    lemma_match_len_bounds(s1, i);
    lemma_match_len_bounds(comb, i);
}

/// At a position of the right part, the match is the same whether or not
/// the left part and the separator precede, apart from the shift of the
/// position itself.
proof fn lemma_match_suffix(s1: Seq<char>, c: char, s2: Seq<char>, j: int)
    requires
        0 <= j < s2.len(),
        !is_space_char(s2[j]),
        is_space_char(c),
    ensures
        winning_kind(s1 + seq![c] + s2, s1.len() + 1 + j) == winning_kind(s2, j),
        match_len_at(s1 + seq![c] + s2, s1.len() + 1 + j) == match_len_at(s2, j),
        step_len(s1 + seq![c] + s2, s1.len() + 1 + j) == step_len(s2, j),
{
    let comb = s1 + seq![c] + s2;
    let d = s1.len() + 1 as int;
    assert(forall|x: int| 0 <= x < s2.len() ==> comb[d + x] == s2[x]);
    assert(comb.len() == d + s2.len());
    lemma_digit_run_suffix(s1, c, s2, j);
    lemma_digit_run(s2, j);
    let dr = digit_run_len(s2, j);
    if j + dr < s2.len() {
        lemma_digit_run_suffix(s1, c, s2, j + dr + 1);
    }
    lemma_word_run_suffix(s1, c, s2, j + 1);
    lemma_word_run(s2, j + 1);
    if j + 2 <= s2.len() {
        lemma_word_run_suffix(s1, c, s2, j + 2);
        lemma_word_run(s2, j + 2);
    }
    lemma_nonspace_run_suffix(s1, c, s2, j);
    lemma_match_len_bounds(s2, j);
    lemma_match_len_bounds(comb, d + j);
}

proof fn lemma_scan_suffix(s1: Seq<char>, c: char, s2: Seq<char>, j: int)
    requires
        0 <= j <= s2.len(),
        is_space_char(c),
    ensures
        line_tokens(s1 + seq![c] + s2, s1.len() + 1 + j) == shift_t(
            line_tokens(s2, j),
            s1.len() + 1int,
        ),
        line_errors(s1 + seq![c] + s2, s1.len() + 1 + j) == shift_e(
            line_errors(s2, j),
            s1.len() + 1int,
        ),
    decreases s2.len() - j,
{
    let comb = s1 + seq![c] + s2;
    let d = s1.len() + 1 as int;
    assert(comb.len() == d + s2.len());
    if j == s2.len() {
        assert(line_tokens(comb, d + j) =~= shift_t(line_tokens(s2, j), d));
        assert(line_errors(comb, d + j) =~= shift_e(line_errors(s2, j), d));
    } else {
        assert(comb[d + j] == s2[j]);
        if is_space_char(s2[j]) {
            lemma_scan_suffix(s1, c, s2, j + 1);
        } else {
            lemma_match_suffix(s1, c, s2, j);
            lemma_match_len_bounds(s2, j);
            let l = step_len(s2, j);
            lemma_scan_suffix(s1, c, s2, j + l);
            assert(comb.subrange(d + j, d + j + l) =~= s2.subrange(j, j + l));
            match winning_kind(s2, j) {
                Some(k) => {
                    assert(line_tokens(s2, j) == seq![(j, token_model(k, s2.subrange(j, j + l)))]
                        + line_tokens(s2, j + l));
                    assert(line_tokens(comb, d + j) == seq![
                        (d + j, token_model(k, comb.subrange(d + j, d + j + l))),
                    ] + line_tokens(comb, d + j + l));
                    assert(line_tokens(comb, d + j) =~= shift_t(line_tokens(s2, j), d));
                    assert(line_errors(s2, j) == line_errors(s2, j + l));
                    assert(line_errors(comb, d + j) == line_errors(comb, d + j + l));
                },
                None => {
                    assert(line_errors(s2, j) == seq![(j, s2.subrange(j, j + l))] + line_errors(
                        s2,
                        j + l,
                    ));
                    assert(line_errors(comb, d + j) == seq![
                        (d + j, comb.subrange(d + j, d + j + l)),
                    ] + line_errors(comb, d + j + l));
                    assert(line_errors(comb, d + j) =~= shift_e(line_errors(s2, j), d));
                    assert(line_tokens(s2, j) == line_tokens(s2, j + l));
                    assert(line_tokens(comb, d + j) == line_tokens(comb, d + j + l));
                },
            }
        }
    }
}

proof fn lemma_scan_prefix(s1: Seq<char>, c: char, s2: Seq<char>, i: int)
    requires
        0 <= i <= s1.len(),
        is_space_char(c),
        c != '\n',
    ensures
        line_tokens(s1 + seq![c] + s2, i) == line_tokens(s1, i) + shift_t(
            line_tokens(s2, 0),
            s1.len() + 1int,
        ),
        line_errors(s1 + seq![c] + s2, i) == line_errors(s1, i) + shift_e(
            line_errors(s2, 0),
            s1.len() + 1int,
        ),
    decreases s1.len() - i,
{
    let comb = s1 + seq![c] + s2;
    let d = s1.len() + 1 as int;
    if i == s1.len() {
        assert(comb[i] == c);
        lemma_scan_suffix(s1, c, s2, 0);
        assert(line_tokens(comb, i) == line_tokens(comb, i + 1));
        assert(line_errors(comb, i) == line_errors(comb, i + 1));
        assert(line_tokens(s1, i) + shift_t(line_tokens(s2, 0), d) =~= shift_t(
            line_tokens(s2, 0),
            d,
        ));
        assert(line_errors(s1, i) + shift_e(line_errors(s2, 0), d) =~= shift_e(
            line_errors(s2, 0),
            d,
        ));
    } else {
        assert(comb[i] == s1[i]);
        if is_space_char(s1[i]) {
            lemma_scan_prefix(s1, c, s2, i + 1);
        } else {
            lemma_match_prefix(s1, c, s2, i);
            lemma_match_len_bounds(s1, i);
            let l = step_len(s1, i);
            lemma_scan_prefix(s1, c, s2, i + l);
            assert(comb.subrange(i, i + l) =~= s1.subrange(i, i + l));
            match winning_kind(s1, i) {
                Some(k) => {
                    assert(line_tokens(s1, i) == seq![(i, token_model(k, s1.subrange(i, i + l)))]
                        + line_tokens(s1, i + l));
                    assert(line_tokens(comb, i) == seq![
                        (i, token_model(k, comb.subrange(i, i + l))),
                    ] + line_tokens(comb, i + l));
                    assert(seq![(i, token_model(k, s1.subrange(i, i + l)))] + (line_tokens(
                        s1,
                        i + l,
                    ) + shift_t(line_tokens(s2, 0), d)) =~= (seq![
                        (i, token_model(k, s1.subrange(i, i + l))),
                    ] + line_tokens(s1, i + l)) + shift_t(line_tokens(s2, 0), d));
                    assert(line_errors(s1, i) == line_errors(s1, i + l));
                    assert(line_errors(comb, i) == line_errors(comb, i + l));
                },
                None => {
                    assert(line_errors(s1, i) == seq![(i, s1.subrange(i, i + l))] + line_errors(
                        s1,
                        i + l,
                    ));
                    assert(line_errors(comb, i) == seq![(i, comb.subrange(i, i + l))]
                        + line_errors(comb, i + l));
                    assert(seq![(i, s1.subrange(i, i + l))] + (line_errors(s1, i + l) + shift_e(
                        line_errors(s2, 0),
                        d,
                    )) =~= (seq![(i, s1.subrange(i, i + l))] + line_errors(s1, i + l)) + shift_e(
                        line_errors(s2, 0),
                        d,
                    ));
                    assert(line_tokens(s1, i) == line_tokens(s1, i + l));
                    assert(line_tokens(comb, i) == line_tokens(comb, i + l));
                },
            }
        }
    }
}

/// Whitespace-splitting law: a whitespace character between two pieces of a
/// line splits the scan exactly — the tokens and the unrecognized runs of
/// the whole line are those of the left piece followed by those of the
/// right piece, the latter with their columns shifted past the separator.
/// (A line feed is no separator inside a line: lines never contain one,
/// and a character literal may enclose it.)
pub proof fn lemma_whitespace_split(s1: Seq<char>, c: char, s2: Seq<char>)
    requires
        is_space_char(c),
        c != '\n',
    ensures
        line_tokens(s1 + seq![c] + s2, 0) == line_tokens(s1, 0) + shift_t(
            line_tokens(s2, 0),
            s1.len() + 1int,
        ),
        line_errors(s1 + seq![c] + s2, 0) == line_errors(s1, 0) + shift_e(
            line_errors(s2, 0),
            s1.len() + 1int,
        ),
{
    lemma_scan_prefix(s1, c, s2, 0);
}

/// Error-accumulation law: every entry of a line's error list is a maximal
/// run of non-whitespace characters starting at a position that no rule of
/// the table claims, the entries stand in strictly increasing column
/// order, and there is one entry per such run — scanning never stops at
/// the first failure and never splits or merges a run.
pub proof fn lemma_errors_are_unrecognized_runs(s: Seq<char>, i: int)
    requires
        0 <= i,
    ensures
        forall|n: int| 0 <= n < line_errors(s, i).len() ==> {
            let col = #[trigger] line_errors(s, i)[n].0;
            &&& i <= col < s.len()
            &&& !is_space_char(s[col])
            &&& winning_kind(s, col) is None
            &&& line_errors(s, i)[n].1 == s.subrange(col, col + nonspace_run_len(s, col))
        },
        forall|n: int|
            0 <= n && n + 1 < line_errors(s, i).len() ==> #[trigger] line_errors(s, i)[n].0
                < line_errors(s, i)[n + 1].0,
    decreases s.len() - i,
{
    if i >= s.len() {
    } else if is_space_char(s[i]) {
        lemma_errors_are_unrecognized_runs(s, i + 1);
        assert(line_errors(s, i) == line_errors(s, i + 1));
    } else {
        lemma_match_len_bounds(s, i);
        let l = step_len(s, i);
        lemma_errors_are_unrecognized_runs(s, i + l);
        match winning_kind(s, i) {
            Some(k) => {
                assert(line_errors(s, i) == line_errors(s, i + l));
            },
            None => {
                let item = (i, s.subrange(i, i + l));
                assert(line_errors(s, i) == seq![item] + line_errors(s, i + l));
                assert(l == nonspace_run_len(s, i));
                assert(forall|n: int| 0 <= n < line_errors(s, i + l).len() ==> line_errors(
                    s,
                    i,
                )[n + 1] == #[trigger] line_errors(s, i + l)[n]);
            },
        }
    }
}

/// Token-placement law: every entry of a line's token list is built by the
/// rule that wins at its start column, from exactly the text that rule
/// matches there, and the entries stand in strictly increasing column
/// order.
pub proof fn lemma_tokens_are_rule_matches(s: Seq<char>, i: int)
    requires
        0 <= i,
    ensures
        forall|n: int| 0 <= n < line_tokens(s, i).len() ==> {
            let col = #[trigger] line_tokens(s, i)[n].0;
            &&& i <= col < s.len()
            &&& !is_space_char(s[col])
            &&& winning_kind(s, col) is Some
            &&& line_tokens(s, i)[n].1 == token_model(
                winning_kind(s, col)->Some_0,
                s.subrange(col, col + match_len_at(s, col)),
            )
        },
        forall|n: int|
            0 <= n && n + 1 < line_tokens(s, i).len() ==> #[trigger] line_tokens(s, i)[n].0
                < line_tokens(s, i)[n + 1].0,
    decreases s.len() - i,
{
    if i >= s.len() {
    } else if is_space_char(s[i]) {
        lemma_tokens_are_rule_matches(s, i + 1);
        assert(line_tokens(s, i) == line_tokens(s, i + 1));
    } else {
        lemma_match_len_bounds(s, i);
        let l = step_len(s, i);
        lemma_tokens_are_rule_matches(s, i + l);
        match winning_kind(s, i) {
            Some(k) => {
                let item = (i, token_model(k, s.subrange(i, i + l)));
                assert(line_tokens(s, i) == seq![item] + line_tokens(s, i + l));
                assert(l == match_len_at(s, i));
                assert(forall|n: int| 0 <= n < line_tokens(s, i + l).len() ==> line_tokens(
                    s,
                    i,
                )[n + 1] == #[trigger] line_tokens(s, i + l)[n]);
            },
            None => {
                assert(line_tokens(s, i) == line_tokens(s, i + l));
            },
        }
    }
}

/// The token sequence of a scan, with the start columns dropped.
pub open spec fn just_tokens(items: Seq<(int, TokenModel)>) -> Seq<TokenModel> {
    items.map_values(|p: (int, TokenModel)| p.1)
}

/// Whitespace-insensitivity law: the sequence of tokens — not their
/// columns — of two pieces joined by a whitespace separator is the
/// concatenation of the two pieces' token sequences. Inserting or removing
/// such separation between lexemes therefore never changes which tokens
/// come out, only where they start.
pub proof fn lemma_whitespace_insensitive(s1: Seq<char>, c: char, s2: Seq<char>)
    requires
        is_space_char(c),
        c != '\n',
    ensures
        just_tokens(line_tokens(s1 + seq![c] + s2, 0)) == just_tokens(line_tokens(s1, 0))
            + just_tokens(line_tokens(s2, 0)),
{
    lemma_whitespace_split(s1, c, s2);
    assert(just_tokens(line_tokens(s1, 0) + shift_t(line_tokens(s2, 0), s1.len() + 1int)) =~=
        just_tokens(line_tokens(s1, 0)) + just_tokens(line_tokens(s2, 0)));
}

} // verus!
