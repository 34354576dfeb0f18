//! The textual spelling of pure-data values — numbers and nested lists — and
//! the proof that reading a spelling back reproduces the value exactly:
//! tokenizing it gives the value's token spelling, and parsing those tokens
//! gives the value.

use vstd::prelude::*;
use crate::lexer::{
    TokenS,
    digits_val,
    is_number_word,
    num_shape,
    num_start,
    num_val,
    scan_word,
    spec_classify,
    spec_digit_val,
    spec_is_delim,
    spec_is_digit,
    spec_is_space,
    spec_tokenize,
    spec_tokenize_from,
};
use crate::node::NodeS;
use crate::env::FrameS;
use crate::eval::{is_pure_data, node_fuel, spec_eval, lemma_eval_pure_data, lemma_pure_data_is_writable};
use crate::stdlib::EvalError;
use crate::parser::{ParseError, spec_flatten, spec_flatten_elems, spec_parse, lemma_parse_flatten_roundtrip};

verus! {

pub open spec fn digit_char(d: int) -> char {
    if d == 0 {
        '0'
    } else if d == 1 {
        '1'
    } else if d == 2 {
        '2'
    } else if d == 3 {
        '3'
    } else if d == 4 {
        '4'
    } else if d == 5 {
        '5'
    } else if d == 6 {
        '6'
    } else if d == 7 {
        '7'
    } else if d == 8 {
        '8'
    } else {
        '9'
    }
}

/// The decimal digits of a non-negative value, most significant first.
pub open spec fn spec_digits(n: int) -> Seq<char>
    decreases n,
{
    if n < 10 {
        seq![digit_char(if n < 0 { 0 } else { n })]
    } else {
        spec_digits(n / 10).push(digit_char(n % 10))
    }
}

/// The decimal spelling of a 64-bit signed value.
pub open spec fn spec_num_chars(x: i64) -> Seq<char> {
    if x >= 0 {
        spec_digits(x as int)
    } else {
        seq!['-'] + spec_digits(-(x as int))
    }
}

/// The spelling of a pure-data tree: elements separated (and each followed)
/// by one space, lists in parentheses.
pub open spec fn spec_render(n: NodeS) -> Seq<char>
    decreases n, 0nat,
{
    match n {
        NodeS::Number(x) => spec_num_chars(x),
        NodeS::Symbol(s) => s,
        NodeS::List(elems) => seq!['('] + spec_render_elems(elems, 0) + seq![')'],
        _ => Seq::empty(),
    }
}

pub open spec fn spec_render_elems(elems: Seq<NodeS>, i: int) -> Seq<char>
    decreases elems, elems.len() - i,
{
    if i < 0 || i >= elems.len() {
        Seq::empty()
    } else {
        spec_render(elems[i]) + seq![' '] + spec_render_elems(elems, i + 1)
    }
}

proof fn lemma_digit_char(d: int)
    requires
        0 <= d <= 9,
    ensures
        spec_is_digit(digit_char(d)),
        spec_digit_val(digit_char(d)) == d,
        !spec_is_delim(digit_char(d)),
        digit_char(d) != '-',
{
}

proof fn lemma_digits_shape(n: int)
    requires
        n >= 0,
    ensures
        spec_digits(n).len() >= 1,
        forall|k: int|
            0 <= k < spec_digits(n).len() ==> spec_is_digit(#[trigger] spec_digits(n)[k])
                && !spec_is_delim(spec_digits(n)[k]) && spec_digits(n)[k] != '-',
    decreases n,
{
    if n < 10 {
        lemma_digit_char(n);
    } else {
        lemma_digits_shape(n / 10);
        lemma_digit_char(n % 10);
    }
}

/// `digits_val` reads only the prefix before `j` and the word's first
/// character.
proof fn lemma_digits_val_congruent(w1: Seq<char>, w2: Seq<char>, j: int)
    requires
        num_start(w1) == num_start(w2),
        j <= w1.len(),
        j <= w2.len(),
        forall|k: int| 0 <= k < j ==> w1[k] == w2[k],
    ensures
        digits_val(w1, j) == digits_val(w2, j),
    decreases j,
{
    if !(j <= num_start(w1) || j > w1.len()) {
        lemma_digits_val_congruent(w1, w2, j - 1);
    }
}

/// The spelling of a non-negative value is a digit word denoting that value.
proof fn lemma_digits_value(n: int)
    requires
        n >= 0,
    ensures
        num_start(spec_digits(n)) == 0,
        digits_val(spec_digits(n), spec_digits(n).len() as int) == n,
    decreases n,
{
    lemma_digits_shape(n);
    let w = spec_digits(n);
    assert(w[0] != '-');
    if n < 10 {
        assert(digits_val(w, 1) == digits_val(w, 0) * 10 + spec_digit_val(w[0]));
        lemma_digit_char(n);
    } else {
        lemma_digits_value(n / 10);
        lemma_digit_char(n % 10);
        let w0 = spec_digits(n / 10);
        assert(w == w0.push(digit_char(n % 10)));
        assert(digits_val(w, w.len() as int) == digits_val(w, w.len() - 1) * 10 + spec_digit_val(
            w[w.len() - 1],
        ));
        lemma_digits_shape(n / 10);
        lemma_digits_val_congruent(w, w0, w.len() - 1);
    }
}

/// Offsetting a digit word by a leading minus sign leaves the digit values
/// in step.
proof fn lemma_digits_val_shift(d: Seq<char>, j: int)
    requires
        d.len() >= 1,
        forall|k: int| 0 <= k < d.len() ==> (#[trigger] d[k]) != '-',
        0 <= j <= d.len(),
        num_start(d) == 0,
    ensures
        digits_val(seq!['-'] + d, j + 1) == digits_val(d, j),
    decreases j,
{
    let w = seq!['-'] + d;
    assert(w[0] == '-');
    assert(num_start(w) == 1);
    if j == 0 {
        assert(digits_val(w, 1) == 0);
    } else {
        lemma_digits_val_shift(d, j - 1);
        assert(w[j] == d[j - 1]);
        assert(digits_val(w, j + 1) == digits_val(w, j) * 10 + spec_digit_val(w[j]));
    }
}

/// The spelling of any 64-bit value is a number word denoting that value.
proof fn lemma_num_chars(x: i64)
    ensures
        spec_num_chars(x).len() >= 1,
        forall|k: int|
            0 <= k < spec_num_chars(x).len() ==> !spec_is_delim(#[trigger] spec_num_chars(x)[k]),
        is_number_word(spec_num_chars(x)),
        num_val(spec_num_chars(x)) == x,
        spec_classify(spec_num_chars(x)) == TokenS::Number(x),
{
    let w = spec_num_chars(x);
    if x >= 0 {
        lemma_digits_shape(x as int);
        lemma_digits_value(x as int);
    } else {
        let mag = -(x as int);
        lemma_digits_shape(mag);
        lemma_digits_value(mag);
        let d = spec_digits(mag);
        assert(w == seq!['-'] + d);
        assert(w[0] == '-');
        assert(num_start(w) == 1);
        lemma_digits_val_shift(d, d.len() as int);
        assert(digits_val(w, w.len() as int) == mag);
        assert(num_val(w) == -mag);
        assert(forall|k: int| 1 <= k < w.len() ==> w[k] == d[k - 1]);
        assert(num_shape(w));
        assert(!spec_is_delim('-'));
    }
}

/// A delimiter-free stretch followed by a delimiter (or the end) is exactly
/// one word.
proof fn lemma_scan_exact(s: Seq<char>, i: int, j: int)
    requires
        0 <= i <= j <= s.len(),
        forall|k: int| i <= k < j ==> !spec_is_delim(#[trigger] s[k]),
        j == s.len() || spec_is_delim(s[j]),
    ensures
        scan_word(s, i) == j,
    decreases j - i,
{
    if i < j {
        lemma_scan_exact(s, i + 1, j);
    }
}

/// Reading the spelling of a pure-data tree out of the middle of a text
/// yields the tree's token spelling and continues after it. The character
/// after the spelling, if any, must be a delimiter, as the space and the
/// closing parenthesis that spellings put there always are.
proof fn lemma_tokenize_render(n: NodeS, s: Seq<char>, i: int)
    requires
        is_pure_data(n),
        0 <= i,
        i + spec_render(n).len() <= s.len(),
        s.subrange(i, i + spec_render(n).len()) == spec_render(n),
        i + spec_render(n).len() == s.len() || spec_is_delim(s[i + spec_render(n).len()]),
    ensures
        spec_tokenize_from(s, i) == spec_flatten(n) + spec_tokenize_from(
            s,
            i + spec_render(n).len(),
        ),
    decreases n, 0nat,
{
    let r = spec_render(n);
    assert(forall|k: int| 0 <= k < r.len() ==> s[i + k] == #[trigger] r[k]) by {
        assert(forall|k: int|
            0 <= k < r.len() ==> s[i + k] == #[trigger] s.subrange(i, i + r.len())[k]);
    }
    match n {
        NodeS::Number(x) => {
            lemma_num_chars(x);
            assert forall|k: int| i <= k < i + r.len() implies !spec_is_delim(s[k]) by {
                assert(s[i + (k - i)] == r[k - i]);
            };
            lemma_scan_exact(s, i, i + r.len());
            assert(s[i] == r[0]);
            assert(!spec_is_delim(s[i]) && !spec_is_space(s[i]) && s[i] != '(' && s[i] != ')');
            assert(s.subrange(i, i + r.len()) =~= r);
            assert(spec_classify(s.subrange(i, i + r.len())) == TokenS::Number(x));
        },
        NodeS::List(elems) => {
            assert(s[i] == '(');
            let inner = spec_render_elems(elems, 0);
            assert(r == seq!['('] + inner + seq![')']);
            assert forall|k: int| 0 <= k < inner.len() implies s[i + 1 + k] == inner[k] by {
                assert(s[i + (1 + k)] == r[1 + k]);
            };
            assert(s.subrange(i + 1, i + 1 + inner.len()) =~= inner);
            let i2 = i + 1 + inner.len();
            assert(s[i2] == r[1 + inner.len() as int]);
            assert(s[i2] == ')');
            lemma_tokenize_render_elems(elems, 0, s, i + 1);
            assert(spec_tokenize_from(s, i2) == seq![TokenS::RParen] + spec_tokenize_from(
                s,
                i2 + 1,
            ));
            assert(spec_tokenize_from(s, i) == seq![TokenS::LParen] + spec_tokenize_from(s, i + 1));
            assert(spec_flatten(n) == seq![TokenS::LParen] + spec_flatten_elems(elems, 0) + seq![
                TokenS::RParen,
            ]);
            assert(seq![TokenS::LParen] + (spec_flatten_elems(elems, 0) + (seq![TokenS::RParen]
                + spec_tokenize_from(s, i2 + 1))) =~= spec_flatten(n) + spec_tokenize_from(
                s,
                i2 + 1,
            ));
        },
        _ => {},
    }
}

proof fn lemma_tokenize_render_elems(elems: Seq<NodeS>, j: int, s: Seq<char>, i: int)
    requires
        forall|k: int| 0 <= k < elems.len() ==> is_pure_data(#[trigger] elems[k]),
        0 <= j <= elems.len(),
        0 <= i,
        i + spec_render_elems(elems, j).len() <= s.len(),
        s.subrange(i, i + spec_render_elems(elems, j).len()) == spec_render_elems(elems, j),
        i + spec_render_elems(elems, j).len() == s.len() || spec_is_delim(
            s[i + spec_render_elems(elems, j).len()],
        ),
    ensures
        spec_tokenize_from(s, i) == spec_flatten_elems(elems, j) + spec_tokenize_from(
            s,
            i + spec_render_elems(elems, j).len(),
        ),
    decreases elems, elems.len() - j,
{
    let full = spec_render_elems(elems, j);
    assert(forall|k: int| 0 <= k < full.len() ==> s[i + k] == #[trigger] full[k]) by {
        assert(forall|k: int|
            0 <= k < full.len() ==> s[i + k] == #[trigger] s.subrange(i, i + full.len())[k]);
    }
    if j >= elems.len() {
        assert(spec_flatten_elems(elems, j) + spec_tokenize_from(s, i) =~= spec_tokenize_from(
            s,
            i,
        ));
    } else {
        let head = spec_render(elems[j]);
        let rest = spec_render_elems(elems, j + 1);
        assert(full == head + seq![' '] + rest);
        assert(s.subrange(i, i + head.len()) =~= head);
        assert(s[i + head.len()] == full[head.len() as int]);
        assert(s[i + head.len()] == ' ');
        lemma_tokenize_render(elems[j], s, i);
        let im = i + head.len() + 1;
        assert(spec_tokenize_from(s, im - 1) == spec_tokenize_from(s, im));
        assert forall|k: int| 0 <= k < rest.len() implies s[im + k] == rest[k] by {
            assert(s[i + (head.len() + 1 + k)] == full[head.len() + 1 + k]);
        };
        assert(s.subrange(im, im + rest.len()) =~= rest);
        lemma_tokenize_render_elems(elems, j + 1, s, im);
        assert(spec_flatten(elems[j]) + (spec_flatten_elems(elems, j + 1) + spec_tokenize_from(
            s,
            im + rest.len(),
        )) =~= spec_flatten_elems(elems, j) + spec_tokenize_from(s, i + full.len()));
    }
}

/// Tokenizing the spelling of a pure-data tree yields exactly the tree's
/// token spelling.
pub proof fn lemma_tokenize_render_roundtrip(n: NodeS)
    requires
        is_pure_data(n),
    ensures
        spec_tokenize(spec_render(n)) == spec_flatten(n),
{
    let r = spec_render(n);
    assert(r.subrange(0, r.len() as int) =~= r);
    lemma_tokenize_render(n, r, 0);
    assert(spec_flatten(n) + spec_tokenize_from(r, r.len() as int) =~= spec_flatten(n));
}

/// The round trip behind printing a result and reading it back: a
/// parenthesized expression of numbers and nested lists evaluates to itself;
/// its spelling, tokenized and parsed, is exactly that value again; and
/// evaluating it again changes neither the value nor the environment.
pub proof fn lemma_eval_render_roundtrip(fuel: nat, n: NodeS, m: Seq<FrameS>, cur: int)
    requires
        is_pure_data(n),
        n is List,
        fuel >= node_fuel(n),
    ensures
        ({
            let o = spec_eval(fuel, n, m, cur);
            &&& o == (m, Ok::<NodeS, EvalError>(n))
            &&& spec_parse(spec_tokenize(spec_render(o.1->Ok_0))) == Ok::<NodeS, ParseError>(n)
            &&& spec_eval(fuel, n, o.0, cur) == o
        }),
{
    lemma_eval_pure_data(fuel, n, m, cur);
    lemma_tokenize_render_roundtrip(n);
    lemma_pure_data_is_writable(n);
    lemma_parse_flatten_roundtrip(n);
}

} // verus!
