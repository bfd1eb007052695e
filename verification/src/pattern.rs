//! The masked byte pattern and the grammar of its textual form.
//!
//! A pattern is written as tokens separated by whitespace, one token for each
//! byte: `8B 45 ?? 4? ?4`. A token is one or two characters long. `*` and `?`
//! are the wildcard glyphs; every other character of a token must be a
//! hexadecimal digit.

use vstd::prelude::*;

verus! {

/// How one element of a pattern is compared with a byte of memory.
#[derive(Clone, Copy, Debug, PartialEq, Eq, Structural)]
pub enum MatchType {
    /// Both nibbles count: the byte must be equal.
    Both,
    /// Only the left (high) nibble counts.
    Left,
    /// Only the right (low) nibble counts.
    Right,
    /// Neither nibble counts: every byte matches.
    Neither,
}

/// A compiled pattern: one expected byte and its rule for each token of the
/// text, in the order of the text, and the distance from a reported position
/// to the byte that the first element is compared with.
#[derive(Clone, Debug, PartialEq, Eq)]
pub struct MemoryPattern {
    pub data: Vec<(u8, MatchType)>,
    pub offset: usize,
}

/// Why a text is not a pattern.
#[derive(Clone, Copy, Debug, PartialEq, Eq, Structural)]
pub enum PatternError {
    /// The characters `start..end` of the text are not a token. A text without
    /// any token is reported as the empty token at its end.
    InvalidToken { start: usize, end: usize },
}

/// Whether `c` separates tokens: the characters with the Unicode property
/// `White_Space`.
pub open spec fn is_space(c: char) -> bool {
    let n = c as u32;
    ||| 0x09 <= n <= 0x0D
    ||| n == 0x20
    ||| n == 0x85
    ||| n == 0xA0
    ||| n == 0x1680
    ||| 0x2000 <= n <= 0x200A
    ||| n == 0x2028
    ||| n == 0x2029
    ||| n == 0x202F
    ||| n == 0x205F
    ||| n == 0x3000
}

/// Whether `c` is one of the two wildcard glyphs, `*` and `?`.
pub open spec fn is_wildcard(c: char) -> bool {
    c == '*' || c == '?'
}

/// Whether `c` is a hexadecimal digit, in either case.
pub open spec fn is_hex_digit(c: char) -> bool {
    let n = c as u32;
    ||| 0x30 <= n <= 0x39
    ||| 0x41 <= n <= 0x46
    ||| 0x61 <= n <= 0x66
}

/// The value of the hexadecimal digit `c`.
pub open spec fn hex_value(c: char) -> int
    recommends
        is_hex_digit(c),
{
    let n = c as u32;
    if n <= 0x39 {
        n - 0x30
    } else if n <= 0x46 {
        n - 0x41 + 10
    } else {
        n - 0x61 + 10
    }
}

/// What one token stands for, or `None` where it is malformed.
pub open spec fn compile_token(token: Seq<char>) -> Option<(u8, MatchType)> {
    if token.len() == 1 {
        if is_wildcard(token[0]) {
            Some((0u8, MatchType::Neither))
        } else {
            None
        }
    } else if token.len() == 2 {
        let left = token[0];
        let right = token[1];
        if is_wildcard(left) && is_wildcard(right) {
            Some((0u8, MatchType::Neither))
        } else if !is_wildcard(left) && !is_wildcard(right) {
            if is_hex_digit(left) && is_hex_digit(right) {
                Some(((16 * hex_value(left) + hex_value(right)) as u8, MatchType::Both))
            } else {
                None
            }
        } else if is_wildcard(left) {
            if is_hex_digit(right) {
                Some((hex_value(right) as u8, MatchType::Right))
            } else {
                None
            }
        } else {
            if is_hex_digit(left) {
                Some(((16 * hex_value(left)) as u8, MatchType::Left))
            } else {
                None
            }
        }
    } else {
        None
    }
}

/// Whether a token begins at `at`: a character that is no whitespace and that
/// follows whitespace or opens the text.
pub open spec fn is_token_start(text: Seq<char>, at: int) -> bool {
    &&& 0 <= at < text.len()
    &&& !is_space(text[at])
    &&& at == 0 || is_space(text[at - 1])
}

/// Where the run of characters without whitespace that holds `from` ends: the
/// first whitespace at or after `from`, or the end of the text.
pub open spec fn token_end(text: Seq<char>, from: int) -> int
    decreases text.len() - from,
{
    if 0 <= from < text.len() && !is_space(text[from]) {
        token_end(text, from + 1)
    } else {
        from
    }
}

/// The tokens that begin at or after `from`, each as the pair of its first
/// position and the position behind its last, in the order of the text.
pub open spec fn token_spans_from(text: Seq<char>, from: int) -> Seq<(int, int)>
    decreases text.len() - from,
{
    if from < 0 || from >= text.len() {
        Seq::empty()
    } else if is_token_start(text, from) {
        seq![(from, token_end(text, from))] + token_spans_from(text, from + 1)
    } else {
        token_spans_from(text, from + 1)
    }
}

/// The tokens of `text`, by position.
pub open spec fn token_spans(text: Seq<char>) -> Seq<(int, int)> {
    token_spans_from(text, 0)
}

/// The tokens of `text`: its maximal runs of characters without whitespace.
pub open spec fn split_tokens(text: Seq<char>) -> Seq<Seq<char>> {
    token_spans(text).map_values(|span: (int, int)| text.subrange(span.0, span.1))
}

/// Whether token `k` of `tokens` is malformed and none before it is.
pub open spec fn is_first_rejected(tokens: Seq<Seq<char>>, k: int) -> bool {
    &&& 0 <= k < tokens.len()
    &&& compile_token(tokens[k]) is None
    &&& forall|j: int| 0 <= j < k ==> compile_token(#[trigger] tokens[j]) is Some
}

/// What a text compiles to: the elements that its tokens stand for, or the
/// place of its first malformed token.
pub open spec fn compile(text: Seq<char>) -> Result<Seq<(u8, MatchType)>, PatternError> {
    let all = split_tokens(text);
    if all.len() == 0 {
        Err(PatternError::InvalidToken { start: text.len() as usize, end: text.len() as usize })
    } else if forall|k: int| 0 <= k < all.len() ==> compile_token(#[trigger] all[k]) is Some {
        Ok(all.map_values(|token: Seq<char>| compile_token(token).unwrap()))
    } else {
        let k = choose|k: int| is_first_rejected(all, k);
        Err(
            PatternError::InvalidToken {
                start: token_spans(text)[k].0 as usize,
                end: token_spans(text)[k].1 as usize,
            },
        )
    }
}

/// Whether the expected byte of `element` holds nothing outside the nibbles
/// that its rule compares.
pub open spec fn element_wf(element: (u8, MatchType)) -> bool {
    match element.1 {
        MatchType::Both => true,
        MatchType::Left => element.0 & 0x0F == 0,
        MatchType::Right => element.0 & 0xF0 == 0,
        MatchType::Neither => element.0 == 0,
    }
}

/// Whether `data` can be the elements of a pattern: there is at least one, and
/// each is masked as its rule demands.
pub open spec fn elements_wf(data: Seq<(u8, MatchType)>) -> bool {
    &&& data.len() > 0
    &&& forall|i: int| 0 <= i < data.len() ==> element_wf(#[trigger] data[i])
}

/// Tells whether `c` is whitespace.
fn space(c: char) -> (r: bool)
    ensures
        r == is_space(c),
{
    let n: u32 = c as u32;
    (0x09 <= n && n <= 0x0D) || n == 0x20 || n == 0x85 || n == 0xA0 || n == 0x1680 || (0x2000 <= n
        && n <= 0x200A) || n == 0x2028 || n == 0x2029 || n == 0x202F || n == 0x205F || n == 0x3000
}

/// Tells whether `c` is a wildcard glyph.
fn wildcard(c: char) -> (r: bool)
    ensures
        r == is_wildcard(c),
{
    c == '*' || c == '?'
}

/// The value of `c` as a hexadecimal digit, if it is one.
fn hex_digit(c: char) -> (r: Option<u8>)
    ensures
        r is Some <==> is_hex_digit(c),
        r matches Some(v) ==> v == hex_value(c) && v < 16,
{
    let n: u32 = c as u32;
    if 0x30 <= n && n <= 0x39 {
        Some((n - 0x30) as u8)
    } else if 0x41 <= n && n <= 0x46 {
        Some((n - 0x41 + 10) as u8)
    } else if 0x61 <= n && n <= 0x66 {
        Some((n - 0x61 + 10) as u8)
    } else {
        None
    }
}

/// The characters of `text`, one by one.
fn chars_of(text: &str) -> (r: Vec<char>)
    ensures
        r@ == text@,
{
    let mut out: Vec<char> = Vec::new();
    let mut it = text.chars();
    for c in iter: it
        invariant
            iter.seq() == text@,
            out@ =~= text@.take(iter.index()),
    {
        out.push(c);
    }
    assert(out@ =~= text@);
    out
}

/// The run that `token_end` measures holds no whitespace and ends at
/// whitespace or at the end of the text.
proof fn lemma_token_end(text: Seq<char>, from: int)
    requires
        0 <= from <= text.len(),
    ensures
        from <= token_end(text, from) <= text.len(),
        forall|k: int| from <= k < token_end(text, from) ==> !is_space(#[trigger] text[k]),
        token_end(text, from) < text.len() ==> is_space(text[token_end(text, from)]),
    decreases text.len() - from,
{
    if from < text.len() && !is_space(text[from]) {
        lemma_token_end(text, from + 1);
    }
}

/// No token begins inside a run of characters without whitespace.
proof fn lemma_no_start_inside(text: Seq<char>, from: int, to: int)
    requires
        0 <= from < to <= text.len(),
        forall|k: int| from <= k < to ==> !is_space(#[trigger] text[k]),
    ensures
        token_spans_from(text, from + 1) == token_spans_from(text, to),
    decreases to - from,
{
    if from + 1 < to {
        assert(!is_space(text[from]));
        assert(!is_token_start(text, from + 1));
        lemma_no_start_inside(text, from + 1, to);
    }
}

/// Walks from the first character of a token to the place behind its last.
fn find_token_end(text: &Vec<char>, start: usize) -> (end: usize)
    requires
        start < text.len(),
        !is_space(text[start as int]),
    ensures
        end == token_end(text@, start as int),
        start < end <= text.len(),
{
    let mut end: usize = start + 1;
    while end < text.len() && !space(text[end])
        invariant
            start < end <= text.len(),
            token_end(text@, start as int) == token_end(text@, end as int),
        decreases text.len() - end,
    {
        end += 1;
    }
    end
}

/// Reads the token that the characters `start..end` of `text` form.
fn parse_token(text: &Vec<char>, start: usize, end: usize) -> (r: Option<(u8, MatchType)>)
    requires
        start <= end <= text.len(),
    ensures
        r == compile_token(text@.subrange(start as int, end as int)),
{
    let ghost token = text@.subrange(start as int, end as int);
    let len: usize = end - start;
    if len == 1 {
        assert(token[0] == text[start as int]);
        if wildcard(text[start]) {
            Some((0u8, MatchType::Neither))
        } else {
            None
        }
    } else if len == 2 {
        assert(token[0] == text[start as int]);
        assert(token[1] == text[start + 1]);
        let left: char = text[start];
        let right: char = text[start + 1];
        let left_wild: bool = wildcard(left);
        let right_wild: bool = wildcard(right);
        if left_wild && right_wild {
            Some((0u8, MatchType::Neither))
        } else if !left_wild && !right_wild {
            match (hex_digit(left), hex_digit(right)) {
                (Some(high), Some(low)) => Some((16 * high + low, MatchType::Both)),
                _ => None,
            }
        } else if left_wild {
            match hex_digit(right) {
                Some(low) => Some((low, MatchType::Right)),
                None => None,
            }
        } else {
            match hex_digit(left) {
                Some(high) => Some((16 * high, MatchType::Left)),
                None => None,
            }
        }
    } else {
        None
    }
}

/// What `compile_token` accepts is masked as its rule demands.
pub proof fn lemma_compiled_token_wf(token: Seq<char>)
    requires
        compile_token(token) is Some,
    ensures
        element_wf(compile_token(token).unwrap()),
{
    let element = compile_token(token).unwrap();
    let byte: u8 = element.0;
    match element.1 {
        MatchType::Left => {
            let high = hex_value(token[0]);
            assert(byte == 16 * high && 0 <= high < 16);
            assert(byte & 0x0F == 0) by (bit_vector)
                requires
                    byte % 16 == 0,
            ;
        },
        MatchType::Right => {
            assert(byte < 16);
            assert(byte & 0xF0 == 0) by (bit_vector)
                requires
                    byte < 16,
            ;
        },
        _ => {},
    }
}

/// The tokens from `from` on begin at or behind `from`, each where a token
/// starts, in rising order, and end where `token_end` says.
proof fn lemma_spans_from(text: Seq<char>, from: int, k: int)
    requires
        0 <= from,
        0 <= k < token_spans_from(text, from).len(),
    ensures
        from <= token_spans_from(text, from)[k].0,
        is_token_start(text, token_spans_from(text, from)[k].0),
        token_spans_from(text, from)[k].1 == token_end(text, token_spans_from(text, from)[k].0),
        k + 1 < token_spans_from(text, from).len() ==> token_spans_from(text, from)[k].0
            < token_spans_from(text, from)[k + 1].0,
    decreases text.len() - from,
{
    if from < text.len() {
        let rest = token_spans_from(text, from + 1);
        if is_token_start(text, from) {
            if k > 0 {
                lemma_spans_from(text, from + 1, k - 1);
            }
            if k == 0 && rest.len() > 0 {
                lemma_spans_from(text, from + 1, 0);
            }
        } else {
            lemma_spans_from(text, from + 1, k);
        }
    }
}

/// A token that starts at or behind `from` is among the tokens from `from`
/// on.
proof fn lemma_start_is_listed(text: Seq<char>, from: int, start: int) -> (k: int)
    requires
        0 <= from <= start,
        is_token_start(text, start),
    ensures
        0 <= k < token_spans_from(text, from).len(),
        token_spans_from(text, from)[k] == (start, token_end(text, start)),
    decreases start - from,
{
    if from == start {
        0
    } else {
        let k = lemma_start_is_listed(text, from + 1, start);
        if is_token_start(text, from) {
            k + 1
        } else {
            k
        }
    }
}

/// Where the run of characters without whitespace that holds `at` begins.
spec fn run_start(text: Seq<char>, at: int) -> int
    decreases at,
{
    if 0 < at <= text.len() && !is_space(text[at - 1]) {
        run_start(text, at - 1)
    } else {
        at
    }
}

proof fn lemma_run_start(text: Seq<char>, at: int)
    requires
        0 <= at < text.len(),
        !is_space(text[at]),
    ensures
        0 <= run_start(text, at) <= at,
        is_token_start(text, run_start(text, at)),
        forall|i: int| run_start(text, at) <= i <= at ==> !is_space(#[trigger] text[i]),
    decreases at,
{
    if 0 < at && !is_space(text[at - 1]) {
        lemma_run_start(text, at - 1);
    }
}

/// The run from `from` on reaches every place up to which there is no
/// whitespace.
proof fn lemma_token_end_reaches(text: Seq<char>, from: int, at: int)
    requires
        0 <= from <= at < text.len(),
        forall|i: int| from <= i <= at ==> !is_space(#[trigger] text[i]),
    ensures
        at < token_end(text, from),
    decreases at - from,
{
    if from < at {
        lemma_token_end_reaches(text, from + 1, at);
    } else {
        lemma_token_end(text, from + 1);
    }
}

/// Each token is a run of characters without whitespace that is as long as
/// can be: it is not empty, it begins at the start of the text or behind
/// whitespace, and it ends at the end of the text or before whitespace. The
/// tokens stand in the order of the text and apart from each other.
pub proof fn lemma_tokens_are_runs(text: Seq<char>, k: int)
    requires
        0 <= k < token_spans(text).len(),
    ensures
        ({
            let (start, end) = token_spans(text)[k];
            &&& 0 <= start < end <= text.len()
            &&& forall|i: int| start <= i < end ==> !is_space(#[trigger] text[i])
            &&& start == 0 || is_space(text[start - 1])
            &&& end == text.len() || is_space(text[end])
            &&& k + 1 < token_spans(text).len() ==> end < token_spans(text)[k + 1].0
        }),
{
    let (start, end) = token_spans(text)[k];
    lemma_spans_from(text, 0, k);
    lemma_token_end(text, start);
    lemma_token_end(text, start + 1);
    if k + 1 < token_spans(text).len() {
        let next = token_spans(text)[k + 1].0;
        lemma_spans_from(text, 0, k + 1);
        if next <= end {
            assert(!is_space(text[next - 1]));
        }
    }
}

/// Every character that is no whitespace belongs to a token.
pub proof fn lemma_tokens_cover_text(text: Seq<char>, at: int) -> (k: int)
    requires
        0 <= at < text.len(),
        !is_space(text[at]),
    ensures
        0 <= k < token_spans(text).len(),
        token_spans(text)[k].0 <= at < token_spans(text)[k].1,
{
    let start = run_start(text, at);
    lemma_run_start(text, at);
    lemma_token_end_reaches(text, start, at);
    lemma_start_is_listed(text, 0, start)
}

/// What a text compiles to is well formed: it has an element, and each
/// element is masked as its rule demands.
pub proof fn lemma_compiled_wf(text: Seq<char>)
    requires
        compile(text) is Ok,
    ensures
        elements_wf(compile(text).unwrap()),
{
    let all = split_tokens(text);
    let data = compile(text).unwrap();
    assert forall|i: int| 0 <= i < data.len() implies element_wf(#[trigger] data[i]) by {
        assert(compile_token(all[i]) is Some);
        lemma_compiled_token_wf(all[i]);
    }
}

/// A text with a malformed token does not compile.
pub proof fn lemma_malformed_token_rejected(text: Seq<char>, k: int)
    requires
        0 <= k < split_tokens(text).len(),
        compile_token(split_tokens(text)[k]) is None,
    ensures
        compile(text) is Err,
{
}

/// A text with a token of one character that is no wildcard does not compile.
pub proof fn lemma_single_character_rejected(text: Seq<char>, k: int)
    requires
        0 <= k < split_tokens(text).len(),
        split_tokens(text)[k].len() == 1,
        !is_wildcard(split_tokens(text)[k][0]),
    ensures
        compile(text) is Err,
{
    lemma_malformed_token_rejected(text, k);
}

/// No token of three characters or more, and no empty one, stands for an
/// element, and a text with such a token, or with no token at all, does not
/// compile.
pub proof fn lemma_token_length_rejected(text: Seq<char>, k: int)
    requires
        0 <= k < split_tokens(text).len(),
        split_tokens(text)[k].len() == 0 || split_tokens(text)[k].len() >= 3,
    ensures
        compile_token(split_tokens(text)[k]) is None,
        compile(text) is Err,
{
    lemma_malformed_token_rejected(text, k);
}

/// The empty token stands for no element, and a text without a token does
/// not compile.
pub proof fn lemma_no_token_rejected(text: Seq<char>)
    requires
        split_tokens(text).len() == 0,
    ensures
        compile_token(Seq::<char>::empty()) is None,
        compile(text) is Err,
{
}

impl MemoryPattern {
    /// Whether this is a pattern that can be looked for: it has an element,
    /// and each element is masked as its rule demands.
    pub open spec fn wf(&self) -> bool {
        elements_wf(self.data@)
    }

    /// Whether the pattern is well formed.
    pub fn is_well_formed(&self) -> (r: bool)
        ensures
            r == self.wf(),
    {
        if self.data.len() == 0 {
            return false;
        }
        let mut i: usize = 0;
        while i < self.data.len()
            invariant
                i <= self.data@.len(),
                forall|k: int| 0 <= k < i ==> element_wf(#[trigger] self.data@[k]),
            decreases self.data@.len() - i,
        {
            let element = self.data[i];
            let masked: bool = match element.1 {
                MatchType::Both => true,
                MatchType::Left => element.0 & 0x0F == 0,
                MatchType::Right => element.0 & 0xF0 == 0,
                MatchType::Neither => element.0 == 0,
            };
            if !masked {
                return false;
            }
            i += 1;
        }
        true
    }

    /// Compiles the pattern that `tokens` describes. The result looks `offset`
    /// bytes behind each position that it is tried at.
    ///
    /// Fails at the first token that is malformed, and on a text that holds no
    /// token at all.
    pub fn from_string(offset: usize, tokens: &str) -> (r: Result<MemoryPattern, PatternError>)
        ensures
            match r {
                Ok(pattern) => {
                    &&& compile(tokens@) == Ok::<Seq<(u8, MatchType)>, PatternError>(pattern.data@)
                    &&& pattern.offset == offset
                    &&& pattern.wf()
                },
                Err(error) => compile(tokens@) == Err::<Seq<(u8, MatchType)>, PatternError>(error),
            },
    {
        let text = chars_of(tokens);
        let mut data: Vec<(u8, MatchType)> = Vec::new();
        let ghost mut done: Seq<(int, int)> = Seq::empty();
        let mut at: usize = 0;
        while at < text.len()
            invariant
                text@ == tokens@,
                at <= text.len(),
                at == 0 || at == text.len() || is_space(text[at - 1]) || is_space(text[at as int]),
                token_spans(text@) == done + token_spans_from(text@, at as int),
                data.len() == done.len(),
                forall|k: int|
                    0 <= k < done.len() ==> 0 <= (#[trigger] done[k]).0 <= done[k].1 <= text.len(),
                forall|k: int|
                    0 <= k < done.len() ==> compile_token(
                        text@.subrange((#[trigger] done[k]).0, done[k].1),
                    ) == Some(data[k]),
                forall|k: int| 0 <= k < data.len() ==> element_wf(#[trigger] data[k]),
            decreases text.len() - at,
        {
            if space(text[at]) {
                at += 1;
            } else {
                let end = find_token_end(&text, at);
                let ghost span = (at as int, end as int);
                proof {
                    lemma_token_end(text@, at as int);
                    lemma_no_start_inside(text@, at as int, end as int);
                    assert(is_token_start(text@, at as int));
                    assert(token_spans(text@) =~= done.push(span) + token_spans_from(
                        text@,
                        end as int,
                    ));
                }
                match parse_token(&text, at, end) {
                    Some(element) => {
                        proof {
                            lemma_compiled_token_wf(text@.subrange(at as int, end as int));
                            done = done.push(span);
                        }
                        data.push(element);
                        at = end;
                    },
                    None => {
                        proof {
                            let all = split_tokens(text@);
                            let k = done.len() as int;
                            assert(token_spans(text@)[k] == span);
                            assert(all[k] == text@.subrange(span.0, span.1));
                            assert forall|j: int| 0 <= j < k implies compile_token(
                                #[trigger] all[j],
                            ) is Some by {
                                assert(token_spans(text@)[j] == done[j]);
                            }
                            assert(is_first_rejected(all, k));
                            let chosen = choose|c: int| is_first_rejected(all, c);
                            assert(chosen == k) by {
                                if chosen < k {
                                    assert(compile_token(all[chosen]) is Some);
                                }
                                if k < chosen {
                                    assert(compile_token(all[k]) is Some);
                                }
                            }
                        }
                        return Err(PatternError::InvalidToken { start: at, end });
                    },
                }
            }
        }
        proof {
            let all = split_tokens(text@);
            assert(token_spans(text@) =~= done);
            assert forall|k: int| 0 <= k < all.len() implies compile_token(#[trigger] all[k])
                == Some(data[k]) by {
                assert(token_spans(text@)[k] == done[k]);
            }
            assert(all.map_values(|token: Seq<char>| compile_token(token).unwrap()) =~= data@);
        }
        if data.len() == 0 {
            return Err(PatternError::InvalidToken { start: text.len(), end: text.len() });
        }
        Ok(MemoryPattern { data, offset })
    }
}

} // verus!
