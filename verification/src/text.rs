//! Writing a pattern back as text.

use crate::pattern::{
    compile, compile_token, element_wf, elements_wf, hex_value, is_hex_digit, is_space,
    is_token_start, is_wildcard, lemma_compiled_wf, split_tokens, token_end, token_spans,
    token_spans_from, MatchType, MemoryPattern, PatternError,
};
use vstd::prelude::*;

verus! {

/// The sixteen hexadecimal digits, in upper case.
pub open spec fn hex_digits() -> Seq<char> {
    seq!['0', '1', '2', '3', '4', '5', '6', '7', '8', '9', 'A', 'B', 'C', 'D', 'E', 'F']
}

/// The token for one element: two characters, a hexadecimal digit for each
/// nibble that counts and `?` for each that does not.
pub open spec fn token_text(element: (u8, MatchType)) -> Seq<char> {
    let high = hex_digits()[element.0 as int / 16];
    let low = hex_digits()[element.0 as int % 16];
    match element.1 {
        MatchType::Both => seq![high, low],
        MatchType::Left => seq![high, '?'],
        MatchType::Right => seq!['?', low],
        MatchType::Neither => seq!['?', '?'],
    }
}

/// The text of a pattern: the tokens of its elements, with one blank between
/// each two.
pub open spec fn pattern_text(data: Seq<(u8, MatchType)>) -> Seq<char> {
    if data.len() == 0 {
        Seq::empty()
    } else {
        Seq::new(
            (3 * data.len() - 1) as nat,
            |i: int|
                if i % 3 == 2 {
                    ' '
                } else {
                    token_text(data[i / 3])[i % 3]
                },
        )
    }
}

/// Each of the sixteen digits is a hexadecimal digit of its own value, no
/// wildcard and no whitespace.
proof fn lemma_hex_digits(value: int)
    requires
        0 <= value < 16,
    ensures
        is_hex_digit(hex_digits()[value]),
        hex_value(hex_digits()[value]) == value,
        !is_wildcard(hex_digits()[value]),
        !is_space(hex_digits()[value]),
{
}

/// The token written for a well-formed element compiles to that element.
pub proof fn lemma_token_round_trip(element: (u8, MatchType))
    requires
        element_wf(element),
    ensures
        compile_token(token_text(element)) == Some(element),
{
    let byte: u8 = element.0;
    lemma_hex_digits(byte as int / 16);
    lemma_hex_digits(byte as int % 16);
    assert(byte & 0x0F == 0 ==> byte % 16 == 0) by (bit_vector);
    assert(byte & 0xF0 == 0 ==> byte < 16) by (bit_vector);
}

/// The characters of a written pattern: those of token `k` stand at `3 * k`
/// and `3 * k + 1` and are no whitespace, and a blank follows each token but
/// the last.
proof fn lemma_text_layout(data: Seq<(u8, MatchType)>, k: int)
    requires
        elements_wf(data),
        0 <= k < data.len(),
    ensures
        pattern_text(data).len() == 3 * data.len() - 1,
        pattern_text(data).subrange(3 * k, 3 * k + 2) == token_text(data[k]),
        !is_space(pattern_text(data)[3 * k]),
        !is_space(pattern_text(data)[3 * k + 1]),
        k + 1 < data.len() ==> pattern_text(data)[3 * k + 2] == ' ',
{
    let text = pattern_text(data);
    let token = token_text(data[k]);
    lemma_token_round_trip(data[k]);
    lemma_hex_digits(data[k].0 as int / 16);
    lemma_hex_digits(data[k].0 as int % 16);
    assert(text[3 * k] == token[0]);
    assert(text[3 * k + 1] == token[1]);
    assert(text.subrange(3 * k, 3 * k + 2) =~= token);
}

/// The tokens of a written pattern from token `k` on.
proof fn lemma_text_spans(data: Seq<(u8, MatchType)>, k: int)
    requires
        elements_wf(data),
        0 <= k <= data.len(),
    ensures
        token_spans_from(pattern_text(data), 3 * k) == Seq::new(
            (data.len() - k) as nat,
            |j: int| (3 * (k + j), 3 * (k + j) + 2),
        ),
    decreases data.len() - k,
{
    let text = pattern_text(data);
    let expected = Seq::new((data.len() - k) as nat, |j: int| (3 * (k + j), 3 * (k + j) + 2));
    lemma_text_layout(data, 0);
    if k < data.len() {
        lemma_text_layout(data, k);
        if k > 0 {
            lemma_text_layout(data, k - 1);
        }
        lemma_text_spans(data, k + 1);
        let rest = Seq::new(
            (data.len() - (k + 1)) as nat,
            |j: int| (3 * (k + 1 + j), 3 * (k + 1 + j) + 2),
        );
        assert(is_token_start(text, 3 * k));
        assert(!is_token_start(text, 3 * k + 1));
        assert(!is_token_start(text, 3 * k + 2));
        assert(token_end(text, 3 * k + 2) == 3 * k + 2);
        assert(token_end(text, 3 * k + 1) == 3 * k + 2);
        assert(token_end(text, 3 * k) == 3 * k + 2);
        assert(token_spans_from(text, 3 * k + 2) == token_spans_from(text, 3 * k + 3));
        assert(token_spans_from(text, 3 * k + 1) == token_spans_from(text, 3 * k + 2));
        assert(token_spans_from(text, 3 * k) == seq![(3 * k, 3 * k + 2)] + rest);
        assert(seq![(3 * k, 3 * k + 2)] + rest =~= expected);
    } else {
        assert(token_spans_from(text, 3 * k) =~= expected);
    }
}

/// A well-formed pattern, written as text and compiled again, is the pattern
/// that was written.
pub proof fn lemma_text_round_trip(data: Seq<(u8, MatchType)>)
    requires
        elements_wf(data),
    ensures
        compile(pattern_text(data)) == Ok::<Seq<(u8, MatchType)>, PatternError>(data),
{
    let text = pattern_text(data);
    let all = split_tokens(text);
    lemma_text_spans(data, 0);
    assert(token_spans(text).len() == data.len());
    assert forall|k: int| 0 <= k < all.len() implies compile_token(#[trigger] all[k]) == Some(
        data[k],
    ) by {
        lemma_text_layout(data, k);
        lemma_token_round_trip(data[k]);
        assert(token_spans(text)[k] == (3 * k, 3 * k + 2));
    }
    assert(all.map_values(|token: Seq<char>| compile_token(token).unwrap()) =~= data);
}

/// What a text compiles to, written as text and compiled again, is what the
/// text compiles to.
pub proof fn lemma_compile_round_trip(text: Seq<char>)
    requires
        compile(text) is Ok,
    ensures
        compile(pattern_text(compile(text).unwrap())) == compile(text),
{
    lemma_compiled_wf(text);
    lemma_text_round_trip(compile(text).unwrap());
}

/// The text of one hexadecimal digit.
fn digit_text(value: u8) -> (r: &'static str)
    requires
        value < 16,
    ensures
        r@ == seq![hex_digits()[value as int]],
{
    proof {
        reveal_strlit("0");
        reveal_strlit("1");
        reveal_strlit("2");
        reveal_strlit("3");
        reveal_strlit("4");
        reveal_strlit("5");
        reveal_strlit("6");
        reveal_strlit("7");
        reveal_strlit("8");
        reveal_strlit("9");
        reveal_strlit("A");
        reveal_strlit("B");
        reveal_strlit("C");
        reveal_strlit("D");
        reveal_strlit("E");
        reveal_strlit("F");
    }
    let r = match value {
        0 => "0",
        1 => "1",
        2 => "2",
        3 => "3",
        4 => "4",
        5 => "5",
        6 => "6",
        7 => "7",
        8 => "8",
        9 => "9",
        10 => "A",
        11 => "B",
        12 => "C",
        13 => "D",
        14 => "E",
        _ => "F",
    };
    assert(r@ =~= seq![hex_digits()[value as int]]);
    r
}

impl MemoryPattern {
    /// Writes the pattern as text that `from_string` compiles to the same
    /// elements: two characters for each element, with one blank between each
    /// two.
    pub fn to_text(&self) -> (r: String)
        ensures
            r@ == pattern_text(self.data@),
    {
        let mut out = String::new();
        let mut k: usize = 0;
        while k < self.data.len()
            invariant
                k <= self.data@.len(),
                k == 0 ==> out@.len() == 0,
                k > 0 ==> out@.len() == 3 * k - 1,
                forall|i: int| 0 <= i < out@.len() ==> out@[i] == pattern_text(self.data@)[i],
            decreases self.data@.len() - k,
        {
            let ghost before = out@;
            let element = self.data[k];
            if k > 0 {
                out.append(" ");
            }
            let high: &'static str = digit_text(element.0 / 16);
            let low: &'static str = digit_text(element.0 % 16);
            match element.1 {
                MatchType::Both => {
                    out.append(high);
                    out.append(low);
                },
                MatchType::Left => {
                    out.append(high);
                    out.append("?");
                },
                MatchType::Right => {
                    out.append("?");
                    out.append(low);
                },
                MatchType::Neither => {
                    out.append("?");
                    out.append("?");
                },
            }
            proof {
                reveal_strlit(" ");
                reveal_strlit("?");
                let token = token_text(self.data@[k as int]);
                let text = pattern_text(self.data@);
                assert(text[3 * k] == token[0]);
                assert(text[3 * k + 1] == token[1]);
                if k > 0 {
                    assert(text[3 * k - 1] == ' ');
                    assert(out@ =~= before + seq![' '] + token);
                } else {
                    assert(out@ =~= before + token);
                }
            }
            k += 1;
        }
        assert(out@ =~= pattern_text(self.data@));
        out
    }
}

} // verus!
