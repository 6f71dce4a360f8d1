//! The tokens the scanner produces, their source positions, and the
//! construction of a token from the text its rule matched. Each token value
//! is modelled by `TokenModel`, a mathematical image over sequences of
//! characters and unbounded integers, and `token_model` states which model a
//! rule builds from a matched lexeme.

use vstd::prelude::*;
use vstd::string::StrSliceExecFns;

use crate::chars::is_digit_char;
use crate::rules::{
    RuleKind, winning_kind, match_len_at, digit_run_len, lemma_digit_run, lemma_match_len_bounds,
};

verus! {

/// Line and column of a token or of a lexical error: the zero-based index
/// of the line, and the zero-based character offset within that line at
/// which the matched text starts.
#[derive(PartialEq, Eq, Structural, Debug, Clone, Copy)]
pub struct TokenPosition {
    pub line: usize,
    pub position: usize,
}

/// A token of the lexical grammar, one variant per rule of the table.
/// A float literal carries its exact matched text, an integer literal its
/// value, a character literal the code point of the enclosed character, and
/// a call, builtin call or name its identifier text.
#[derive(Debug, PartialEq)]
pub enum Token {
    Float(String),
    Int(i64),
    Char(i64),
    Equal,
    Neq,
    Leq,
    Geq,
    Less,
    Greater,
    Add,
    Sub,
    Mul,
    Div,
    Assign,
    Not,
    And,
    Or,
    Bnot,
    Band,
    Bor,
    Xor,
    Lambda,
    Comma,
    Period,
    Semicolon,
    Lpar,
    Rpar,
    Call(String),
    Builtin(String),
    Name(String),
}

/// The mathematical image of a token: text payloads as sequences of
/// characters, numeric payloads as unbounded integers.
pub enum TokenModel {
    Float(Seq<char>),
    Int(int),
    Char(int),
    Equal,
    Neq,
    Leq,
    Geq,
    Less,
    Greater,
    Add,
    Sub,
    Mul,
    Div,
    Assign,
    Not,
    And,
    Or,
    Bnot,
    Band,
    Bor,
    Xor,
    Lambda,
    Comma,
    Period,
    Semicolon,
    Lpar,
    Rpar,
    Call(Seq<char>),
    Builtin(Seq<char>),
    Name(Seq<char>),
}

impl View for Token {
    type V = TokenModel;

    open spec fn view(&self) -> TokenModel {
        match self {
            Token::Float(s) => TokenModel::Float(s@),
            Token::Int(v) => TokenModel::Int(*v as int),
            Token::Char(v) => TokenModel::Char(*v as int),
            Token::Equal => TokenModel::Equal,
            Token::Neq => TokenModel::Neq,
            Token::Leq => TokenModel::Leq,
            Token::Geq => TokenModel::Geq,
            Token::Less => TokenModel::Less,
            Token::Greater => TokenModel::Greater,
            Token::Add => TokenModel::Add,
            Token::Sub => TokenModel::Sub,
            Token::Mul => TokenModel::Mul,
            Token::Div => TokenModel::Div,
            Token::Assign => TokenModel::Assign,
            Token::Not => TokenModel::Not,
            Token::And => TokenModel::And,
            Token::Or => TokenModel::Or,
            Token::Bnot => TokenModel::Bnot,
            Token::Band => TokenModel::Band,
            Token::Bor => TokenModel::Bor,
            Token::Xor => TokenModel::Xor,
            Token::Lambda => TokenModel::Lambda,
            Token::Comma => TokenModel::Comma,
            Token::Period => TokenModel::Period,
            Token::Semicolon => TokenModel::Semicolon,
            Token::Lpar => TokenModel::Lpar,
            Token::Rpar => TokenModel::Rpar,
            Token::Call(s) => TokenModel::Call(s@),
            Token::Builtin(s) => TokenModel::Builtin(s@),
            Token::Name(s) => TokenModel::Name(s@),
        }
    }
}

/// The value of a sequence of decimal digits read as a base-ten numeral.
pub open spec fn digits_val(s: Seq<char>) -> int
    decreases s.len(),
{
    if s.len() == 0 {
        0
    } else {
        10 * digits_val(s.drop_last()) + (s.last() as u32 - 48)
    }
}

/// The token a rule constructs from the text it matched: a float literal
/// keeps its text, an integer literal is read as a numeral, a character
/// literal keeps the code point between the quotes, a call drops its
/// trailing parenthesis, a builtin call its leading underscore and trailing
/// parenthesis, and a name keeps its text.
pub open spec fn token_model(k: RuleKind, lex: Seq<char>) -> TokenModel {
    match k {
        RuleKind::Float => TokenModel::Float(lex),
        RuleKind::Int => TokenModel::Int(digits_val(lex)),
        RuleKind::Char => TokenModel::Char(lex[1] as u32 as int),
        RuleKind::Equal => TokenModel::Equal,
        RuleKind::Neq => TokenModel::Neq,
        RuleKind::Leq => TokenModel::Leq,
        RuleKind::Geq => TokenModel::Geq,
        RuleKind::Less => TokenModel::Less,
        RuleKind::Greater => TokenModel::Greater,
        RuleKind::Add => TokenModel::Add,
        RuleKind::Sub => TokenModel::Sub,
        RuleKind::Mul => TokenModel::Mul,
        RuleKind::Div => TokenModel::Div,
        RuleKind::Assign => TokenModel::Assign,
        RuleKind::Not => TokenModel::Not,
        RuleKind::And => TokenModel::And,
        RuleKind::Or => TokenModel::Or,
        RuleKind::Bnot => TokenModel::Bnot,
        RuleKind::Band => TokenModel::Band,
        RuleKind::Bor => TokenModel::Bor,
        RuleKind::Xor => TokenModel::Xor,
        RuleKind::Lambda => TokenModel::Lambda,
        RuleKind::Comma => TokenModel::Comma,
        RuleKind::Period => TokenModel::Period,
        RuleKind::Semicolon => TokenModel::Semicolon,
        RuleKind::Lpar => TokenModel::Lpar,
        RuleKind::Rpar => TokenModel::Rpar,
        RuleKind::Call => TokenModel::Call(lex.drop_last()),
        RuleKind::Builtin => TokenModel::Builtin(lex.subrange(1, lex.len() - 1)),
        RuleKind::Name => TokenModel::Name(lex),
    }
}

/// A numeral is non-negative, and each numeral is at most any numeral it is
/// a prefix of.
pub proof fn lemma_digits_val_prefix(s: Seq<char>, n: int)
    requires
        0 <= n <= s.len(),
        forall|j: int| 0 <= j < s.len() ==> is_digit_char(s[j]),
    ensures
        0 <= digits_val(s.take(n)),
        digits_val(s.take(n)) <= digits_val(s),
    decreases s.len() - n,
{
    if n == s.len() {
        assert(s.take(n) == s);
        lemma_digits_val_nonneg(s);
    } else {
        lemma_digits_val_prefix(s, n + 1);
        let t = s.take(n + 1);
        assert(t.drop_last() == s.take(n));
        assert(digits_val(t) == 10 * digits_val(s.take(n)) + (t.last() as u32 - 48));
        lemma_digits_val_nonneg(s.take(n));
        assert(is_digit_char(s[n]));
    }
}

/// A numeral over digit characters is non-negative.
pub proof fn lemma_digits_val_nonneg(s: Seq<char>)
    requires
        forall|j: int| 0 <= j < s.len() ==> is_digit_char(s[j]),
    ensures
        0 <= digits_val(s),
    decreases s.len(),
{
    if s.len() > 0 {
        lemma_digits_val_nonneg(s.drop_last());
    }
}

/// Reads the digit run `s[i .. i + l]` as a base-ten numeral, or reports
/// that its value does not fit a 64-bit signed integer.
pub fn try_parse_digits(s: &str, i: usize, l: usize) -> (r: Option<i64>)
    requires
        i + l <= s@.len(),
        forall|j: int| i <= j < i + l ==> is_digit_char(s@[j]),
    ensures
        match r {
            Some(v) => digits_val(s@.subrange(i as int, i + l)) == v as int,
            None => digits_val(s@.subrange(i as int, i + l)) > i64::MAX,
        },
{
    let slen = s.unicode_len();
    let ghost whole = s@.subrange(i as int, i + l);
    proof {
        assert(i + l <= slen);
        assert(forall|j: int| 0 <= j < whole.len() ==> is_digit_char(whole[j]));
    }
    let mut acc: i64 = 0;
    let mut j: usize = i;
    loop
        invariant
            i <= j <= i + l,
            i + l <= usize::MAX,
            i + l <= s@.len(),
            whole == s@.subrange(i as int, i + l),
            forall|jj: int| 0 <= jj < whole.len() ==> is_digit_char(whole[jj]),
            acc as int == digits_val(whole.take(j - i)),
            0 <= acc,
        ensures
            j == i + l,
            acc as int == digits_val(whole),
        decreases i + l - j,
    {
        if j == i + l {
            proof {
                assert(whole.take(l as int) == whole);
            }
            break;
        }
        let c = s.get_char(j);
        proof {
            assert(c == whole[j - i]);
        }
        let d = (c as u32 - 48) as i64;
        proof {
            let t = whole.take(j - i + 1);
            assert(t.drop_last() == whole.take(j - i));
            assert(t.last() == whole[j - i]);
            assert(digits_val(t) == 10 * acc + d);
            lemma_digits_val_prefix(whole, j - i + 1);
        }
        if acc > (i64::MAX - d) / 10 {
            proof {
                assert(10 * acc + d > i64::MAX);
                assert(digits_val(whole) > i64::MAX);
            }
            return None;
        }
        acc = acc * 10 + d;
        j = j + 1;
    }
    Some(acc)
}

/// Builds the token for the rule that won at position `i`, from the exact
/// text the rule matched there. An integer literal must have a value that
/// fits a 64-bit signed integer.
pub fn build_token(s: &str, i: usize, l: usize, k: RuleKind) -> (t: Token)
    requires
        i < s@.len(),
        !crate::chars::is_space_char(s@[i as int]),
        winning_kind(s@, i as int) == Some(k),
        l as int == match_len_at(s@, i as int),
        k == RuleKind::Int ==> digits_val(s@.subrange(i as int, i + l)) <= i64::MAX,
    ensures
        t@ == token_model(k, s@.subrange(i as int, i + l)),
{
    let slen = s.unicode_len();
    proof {
        lemma_match_len_bounds(s@, i as int);
        assert(i + l <= slen);
    }
    let ghost lex = s@.subrange(i as int, i + l);
    match k {
        RuleKind::Float => Token::Float(s.substring_char(i, i + l).to_owned()),
        RuleKind::Int => {
            proof {
                lemma_digit_run(s@, i as int);
                assert(l as int == digit_run_len(s@, i as int));
            }
            let v = try_parse_digits(s, i, l);
            match v {
                Some(v) => Token::Int(v),
                None => {
                    proof {
                        assert(false);
                    }
                    unreached()
                },
            }
        },
        RuleKind::Char => {
            let c = s.get_char(i + 1);
            proof {
                assert(l == 3);
                assert(lex[1] == s@[i + 1]);
            }
            Token::Char(c as i64)
        },
        RuleKind::Equal => Token::Equal,
        RuleKind::Neq => Token::Neq,
        RuleKind::Leq => Token::Leq,
        RuleKind::Geq => Token::Geq,
        RuleKind::Less => Token::Less,
        RuleKind::Greater => Token::Greater,
        RuleKind::Add => Token::Add,
        RuleKind::Sub => Token::Sub,
        RuleKind::Mul => Token::Mul,
        RuleKind::Div => Token::Div,
        RuleKind::Assign => Token::Assign,
        RuleKind::Not => Token::Not,
        RuleKind::And => Token::And,
        RuleKind::Or => Token::Or,
        RuleKind::Bnot => Token::Bnot,
        RuleKind::Band => Token::Band,
        RuleKind::Bor => Token::Bor,
        RuleKind::Xor => Token::Xor,
        RuleKind::Lambda => Token::Lambda,
        RuleKind::Comma => Token::Comma,
        RuleKind::Period => Token::Period,
        RuleKind::Semicolon => Token::Semicolon,
        RuleKind::Lpar => Token::Lpar,
        RuleKind::Rpar => Token::Rpar,
        RuleKind::Call => {
            proof {
                assert(lex.drop_last() =~= s@.subrange(i as int, i + l - 1));
            }
            Token::Call(s.substring_char(i, i + l - 1).to_owned())
        },
        RuleKind::Builtin => {
            proof {
                assert(lex.subrange(1, lex.len() - 1) =~= s@.subrange(i + 1, i + l - 1));
            }
            Token::Builtin(s.substring_char(i + 1, i + l - 1).to_owned())
        },
        RuleKind::Name => Token::Name(s.substring_char(i, i + l).to_owned()),
    }
}

} // verus!
