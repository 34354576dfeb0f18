//! The tokenizer: raw source text to a flat sequence of lexical tokens.
//!
//! `(` and `)` are single-character tokens; runs of blanks separate words; a
//! word made of an optional leading `-` and decimal digits whose value fits a
//! 64-bit signed integer is a number, and any other word is a symbol.

use vstd::prelude::*;
use vstd::string::StrSliceExecFns;

verus! {

/// One lexical token.
#[derive(Debug, Clone, PartialEq)]
pub enum Token {
    LParen,
    RParen,
    Number(i64),
    Symbol(String),
}

/// The mathematical model of a token.
pub enum TokenS {
    LParen,
    RParen,
    Number(i64),
    Symbol(Seq<char>),
}

pub open spec fn token_view(t: Token) -> TokenS {
    match t {
        Token::LParen => TokenS::LParen,
        Token::RParen => TokenS::RParen,
        Token::Number(x) => TokenS::Number(x),
        Token::Symbol(s) => TokenS::Symbol(s@),
    }
}

impl View for Token {
    type V = TokenS;

    open spec fn view(&self) -> TokenS {
        token_view(*self)
    }
}

pub open spec fn tokens_view(ts: Seq<Token>) -> Seq<TokenS> {
    ts.map(|i: int, t: Token| token_view(t))
}

/// Blank characters that separate words.
pub open spec fn spec_is_space(c: char) -> bool {
    c == ' ' || c == '\t' || c == '\n' || c == '\r'
}

/// Characters that end a word: blanks and the two parentheses.
pub open spec fn spec_is_delim(c: char) -> bool {
    spec_is_space(c) || c == '(' || c == ')'
}

pub open spec fn spec_is_digit(c: char) -> bool {
    48 <= c as u32 && c as u32 <= 57
}

pub open spec fn spec_digit_val(c: char) -> int {
    if spec_is_digit(c) {
        c as u32 - 48
    } else {
        0
    }
}

/// Index where the digits of a number word would begin: 1 after a leading
/// minus sign, else 0.
pub open spec fn num_start(w: Seq<char>) -> int {
    if w.len() > 0 && w[0] == '-' {
        1
    } else {
        0
    }
}

pub open spec fn all_digits(w: Seq<char>, i: int) -> bool {
    forall|j: int| i <= j < w.len() ==> spec_is_digit(#[trigger] w[j])
}

/// The word looks like a decimal integer: a digit run, optionally signed.
pub open spec fn num_shape(w: Seq<char>) -> bool {
    w.len() > num_start(w) && all_digits(w, num_start(w))
}

/// Value of the digit prefix `w[num_start(w) .. j]`.
pub open spec fn digits_val(w: Seq<char>, j: int) -> int
    decreases j,
{
    if j <= num_start(w) || j > w.len() {
        0
    } else {
        digits_val(w, j - 1) * 10 + spec_digit_val(w[j - 1])
    }
}

/// The signed value a number word denotes.
pub open spec fn num_val(w: Seq<char>) -> int {
    if num_start(w) == 1 {
        -digits_val(w, w.len() as int)
    } else {
        digits_val(w, w.len() as int)
    }
}

/// A word is a number token exactly when it has digit shape and its value
/// fits a 64-bit signed integer.
pub open spec fn is_number_word(w: Seq<char>) -> bool {
    num_shape(w) && i64::MIN <= num_val(w) <= i64::MAX
}

/// How one word is classified.
pub open spec fn spec_classify(w: Seq<char>) -> TokenS {
    if is_number_word(w) {
        TokenS::Number(num_val(w) as i64)
    } else {
        TokenS::Symbol(w)
    }
}

/// First index at or after `i` holding a delimiter (or the end of the text).
pub open spec fn scan_word(s: Seq<char>, i: int) -> int
    decreases s.len() - i,
{
    if !(0 <= i < s.len()) {
        i
    } else if spec_is_delim(s[i]) {
        i
    } else {
        scan_word(s, i + 1)
    }
}

pub proof fn lemma_scan_word_bounds(s: Seq<char>, i: int)
    requires
        0 <= i <= s.len(),
    ensures
        i <= scan_word(s, i) <= s.len(),
        forall|j: int| i <= j < scan_word(s, i) ==> !spec_is_delim(#[trigger] s[j]),
    decreases s.len() - i,
{
    if i < s.len() && !spec_is_delim(s[i]) {
        lemma_scan_word_bounds(s, i + 1);
    }
}

/// The token sequence of the text from position `i` on.
pub open spec fn spec_tokenize_from(s: Seq<char>, i: int) -> Seq<TokenS>
    decreases s.len() - i,
{
    if !(0 <= i < s.len()) {
        Seq::empty()
    } else if spec_is_space(s[i]) {
        spec_tokenize_from(s, i + 1)
    } else if s[i] == '(' {
        seq![TokenS::LParen] + spec_tokenize_from(s, i + 1)
    } else if s[i] == ')' {
        seq![TokenS::RParen] + spec_tokenize_from(s, i + 1)
    } else {
        let j = scan_word(s, i);
        let j2 = if i < j && j <= s.len() {
            j
        } else {
            i + 1
        };
        seq![spec_classify(s.subrange(i, j2))] + spec_tokenize_from(s, j2)
    }
}

/// The token sequence of a whole text.
pub open spec fn spec_tokenize(s: Seq<char>) -> Seq<TokenS> {
    spec_tokenize_from(s, 0)
}

pub proof fn lemma_digits_val_nonneg(w: Seq<char>, j: int)
    ensures
        digits_val(w, j) >= 0,
    decreases j,
{
    if !(j <= num_start(w) || j > w.len()) {
        lemma_digits_val_nonneg(w, j - 1);
    }
}

pub proof fn lemma_digits_val_mono(w: Seq<char>, a: int, b: int)
    requires
        a <= b <= w.len(),
    ensures
        digits_val(w, a) <= digits_val(w, b),
    decreases b - a,
{
    if a < b {
        lemma_digits_val_mono(w, a, b - 1);
        lemma_digits_val_nonneg(w, b - 1);
        if !(b <= num_start(w) || b > w.len()) {
            assert(digits_val(w, b - 1) * 10 >= digits_val(w, b - 1)) by {
                lemma_digits_val_nonneg(w, b - 1);
            }
        }
    }
}

/// Classifies one word: `Some` with its value where the word is a number,
/// `None` where it is a symbol.
pub fn parse_number_word(w: &str) -> (r: Option<i64>)
    ensures
        r is Some <==> is_number_word(w@),
        r matches Some(v) ==> v as int == num_val(w@),
{
    let n = w.unicode_len();
    if n == 0 {
        return None;
    }
    let neg = w.get_char(0) == '-';
    let start: usize = if neg {
        1
    } else {
        0
    };
    assert(start as int == num_start(w@));
    if n <= start {
        return None;
    }
    let limit: u64 = if neg {
        9223372036854775808
    } else {
        9223372036854775807
    };
    let mut acc: u64 = 0;
    let mut i: usize = start;
    while i < n
        invariant
            start <= i <= n,
            n == w@.len(),
            start as int == num_start(w@),
            start == if neg {
                1usize
            } else {
                0usize
            },
            n > start,
            limit == if neg {
                9223372036854775808u64
            } else {
                9223372036854775807u64
            },
            forall|j: int| start <= j < i ==> spec_is_digit(#[trigger] w@[j]),
            acc as int == digits_val(w@, i as int),
            acc <= limit,
        decreases n - i,
    {
        let c = w.get_char(i);
        let cv: u32 = c as u32;
        if cv < 48 || cv > 57 {
            assert(!spec_is_digit(w@[i as int]));
            return None;
        }
        let d: u64 = (cv - 48) as u64;
        if acc > (limit - d) / 10 {
            proof {
                let wv = w@;
                if is_number_word(wv) {
                    assert(all_digits(wv, start as int));
                    lemma_digits_val_mono(wv, (i + 1) as int, n as int);
                    assert(digits_val(wv, i as int + 1) == acc * 10 + d);
                    vstd::arithmetic::div_mod::lemma_fundamental_div_mod(
                        limit - d,
                        10,
                    );
                    assert(acc * 10 + d > limit);
                    lemma_digits_val_nonneg(wv, n as int);
                    assert(false);
                }
            }
            return None;
        }
        proof {
            vstd::arithmetic::div_mod::lemma_fundamental_div_mod(limit - d, 10);
            assert(acc * 10 + d <= limit);
        }
        acc = acc * 10 + d;
        i = i + 1;
    }
    proof {
        assert(num_shape(w@));
        lemma_digits_val_nonneg(w@, n as int);
    }
    if neg {
        if acc == 9223372036854775808 {
            Some(i64::MIN)
        } else {
            Some(-(acc as i64))
        }
    } else {
        Some(acc as i64)
    }
}

/// Tokenizes a whole text.
pub fn tokenize_text(src: &str) -> (r: Vec<Token>)
    ensures
        tokens_view(r@) == spec_tokenize(src@),
{
    let n = src.unicode_len();
    let mut out: Vec<Token> = Vec::new();
    let mut i: usize = 0;
    while i < n
        invariant
            i <= n,
            n as int == src@.len(),
            tokens_view(out@) + spec_tokenize_from(src@, i as int) == spec_tokenize(src@),
        decreases n - i,
    {
        let c = src.get_char(i);
        if c == ' ' || c == '\t' || c == '\n' || c == '\r' {
            i = i + 1;
        } else if c == '(' {
            out.push(Token::LParen);
            proof {
                assert(tokens_view(out@) =~= tokens_view(out@.drop_last()).push(TokenS::LParen));
                assert(tokens_view(out@.drop_last()).push(TokenS::LParen) + spec_tokenize_from(
                    src@,
                    i + 1,
                ) =~= tokens_view(out@.drop_last()) + (seq![TokenS::LParen] + spec_tokenize_from(
                    src@,
                    i + 1,
                )));
            }
            i = i + 1;
        } else if c == ')' {
            out.push(Token::RParen);
            proof {
                assert(tokens_view(out@) =~= tokens_view(out@.drop_last()).push(TokenS::RParen));
                assert(tokens_view(out@.drop_last()).push(TokenS::RParen) + spec_tokenize_from(
                    src@,
                    i + 1,
                ) =~= tokens_view(out@.drop_last()) + (seq![TokenS::RParen] + spec_tokenize_from(
                    src@,
                    i + 1,
                )));
            }
            i = i + 1;
        } else {
            let start = i;
            let mut j = i + 1;
            loop
                invariant_except_break
                    start < j <= n,
                    n as int == src@.len(),
                    scan_word(src@, start as int) == scan_word(src@, j as int),
                ensures
                    start < j <= n,
                    n as int == src@.len(),
                    scan_word(src@, start as int) == j as int,
                decreases n - j,
            {
                if j == n {
                    break ;
                }
                let c2 = src.get_char(j);
                if c2 == ' ' || c2 == '\t' || c2 == '\n' || c2 == '\r' || c2 == '(' || c2 == ')' {
                    break ;
                }
                j = j + 1;
            }
            let word = src.substring_char(start, j);
            let tok = match parse_number_word(word) {
                Some(v) => Token::Number(v),
                None => Token::Symbol(word.to_owned()),
            };
            let ghost tv = token_view(tok);
            proof {
                assert(tv == spec_classify(src@.subrange(start as int, j as int)));
            }
            out.push(tok);
            proof {
                assert(tokens_view(out@) =~= tokens_view(out@.drop_last()).push(tv));
                assert(tokens_view(out@.drop_last()).push(tv) + spec_tokenize_from(src@, j as int)
                    =~= tokens_view(out@.drop_last()) + (seq![tv] + spec_tokenize_from(
                    src@,
                    j as int,
                )));
            }
            i = j;
        }
    }
    proof {
        assert(tokens_view(out@) + spec_tokenize_from(src@, i as int) =~= tokens_view(out@));
    }
    out
}

} // verus!
