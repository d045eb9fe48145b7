//! Splitting one string of command-line arguments into its tokens, with
//! shell-like quoting and escaping.

use crate::text::{
    chars_of, is_whitespace, lemma_trim_end, lemma_trim_start, lemma_trim_twice, string_of, trim,
    trim_start, trimmed,
};
use vstd::prelude::*;

verus! {

/// Which kind of quotes the scanner is inside of.
#[derive(Clone, Copy, Debug, PartialEq, Eq, Structural)]
pub enum QuoteState {
    InNone,
    InSingleQuotes,
    InDoubleQuotes,
}

/// What the scanner knows after reading a prefix of the input.
pub struct Scanner {
    pub quote_state: QuoteState,
    /// The character read last; a space before the first one.
    pub last: char,
    /// The characters of the token being read, quotes that opened or closed
    /// a quoted region left out, escape sequences still as written.
    pub part: Seq<char>,
    /// The tokens completed so far.
    pub parts: Seq<Seq<char>>,
}

/// `s` with each `\c` replaced by `c`, matches taken from left to right
/// without overlap.
pub open spec fn unescape(s: Seq<char>, c: char) -> Seq<char>
    decreases s.len(),
{
    if s.len() < 2 {
        s
    } else if s[0] == '\\' && s[1] == c {
        seq![c] + unescape(s.skip(2), c)
    } else {
        seq![s[0]] + unescape(s.skip(1), c)
    }
}

/// The four escape sequences resolved one kind after the other:
/// `\"`, then `\'`, then backslash-space, then `\\`.
pub open spec fn resolve_escapes(s: Seq<char>) -> Seq<char> {
    unescape(unescape(unescape(unescape(s, '"'), '\''), ' '), '\\')
}

/// The tokens that a completed part contributes: itself, trimmed and with
/// its escape sequences resolved, unless that is empty.
pub open spec fn finish_part(part: Seq<char>) -> Seq<Seq<char>> {
    let token = resolve_escapes(trim(part));
    if token.len() > 0 {
        seq![token]
    } else {
        seq![]
    }
}

/// Whether `c`, read after `last`, is the second character of an escape
/// sequence.
pub open spec fn is_escaped(last: char, c: char) -> bool {
    last == '\\' && (c == '"' || c == '\'' || c == ' ' || c == '\\')
}

/// The scanner before it has read anything.
pub open spec fn scanner_start() -> Scanner {
    Scanner { quote_state: QuoteState::InNone, last: ' ', part: seq![], parts: seq![] }
}

/// The scanner after reading `c` in state `st`.
pub open spec fn scan_char(st: Scanner, c: char) -> Scanner {
    if is_escaped(st.last, c) {
        Scanner { last: c, part: st.part.push(c), ..st }
    } else if c == '"' && st.quote_state == QuoteState::InNone {
        Scanner { last: c, quote_state: QuoteState::InDoubleQuotes, ..st }
    } else if c == '"' && st.quote_state == QuoteState::InDoubleQuotes {
        Scanner { last: c, quote_state: QuoteState::InNone, ..st }
    } else if c == '\'' && st.quote_state == QuoteState::InNone {
        Scanner { last: c, quote_state: QuoteState::InSingleQuotes, ..st }
    } else if c == '\'' && st.quote_state == QuoteState::InSingleQuotes {
        Scanner { last: c, quote_state: QuoteState::InNone, ..st }
    } else if c == ' ' && st.quote_state == QuoteState::InNone {
        Scanner { last: c, part: seq![], parts: st.parts + finish_part(st.part), ..st }
    } else {
        Scanner { last: c, part: st.part.push(c), ..st }
    }
}

/// The scanner after reading all of `s`.
pub open spec fn scan(s: Seq<char>) -> Scanner
    decreases s.len(),
{
    if s.len() == 0 {
        scanner_start()
    } else {
        scan_char(scan(s.drop_last()), s.last())
    }
}

/// The tokens of `input`: the trimmed input is scanned, and its end closes
/// the last token as an unquoted space would, whatever the quote state and
/// whatever the last character.
pub open spec fn split_args(input: Seq<char>) -> Seq<Seq<char>> {
    let st = scan(trim(input));
    st.parts + finish_part(st.part)
}

/// The concatenation of the spans `s[ps[0]..ps[1]]`, `s[ps[2]..ps[3]]`, ...
/// A last position without a partner opens no span.
spec fn spans(s: Seq<char>, ps: Seq<usize>) -> Seq<char>
    decreases ps.len(),
{
    if ps.len() < 2 {
        seq![]
    } else {
        spans(s, ps.take(ps.len() - 2)) + s.subrange(
            ps[ps.len() - 2] as int,
            ps[ps.len() - 1] as int,
        )
    }
}

/// The positions never decrease and stay within `limit`.
spec fn positions_ordered(ps: Seq<usize>, limit: int) -> bool {
    &&& forall|a: int, b: int| 0 <= a <= b < ps.len() ==> ps[a] <= ps[b]
    &&& forall|a: int| 0 <= a < ps.len() ==> ps[a] <= limit
}

/// No token that the scanner completes is empty.
pub proof fn lemma_scan_parts_are_not_empty(s: Seq<char>)
    ensures
        forall|i: int| 0 <= i < scan(s).parts.len() ==> #[trigger] scan(s).parts[i].len() > 0,
    decreases s.len(),
{
    if s.len() > 0 {
        lemma_scan_parts_are_not_empty(s.drop_last());
    }
}

/// No token is empty, whatever the input: neither a run of spaces nor empty
/// quotes give one.
pub proof fn lemma_tokens_are_not_empty(input: Seq<char>)
    ensures
        forall|i: int|
            0 <= i < split_args(input).len() ==> #[trigger] split_args(input)[i].len() > 0,
{
    lemma_scan_parts_are_not_empty(trim(input));
}

/// Whitespace around the input does not count: the input and the trimmed
/// input have the same tokens.
pub proof fn lemma_outer_whitespace_is_ignored(input: Seq<char>)
    ensures
        split_args(trim(input)) == split_args(input),
{
    lemma_trim_twice(input);
}

/// A character that means nothing to the splitter: no whitespace, no quote
/// and no backslash.
pub open spec fn is_plain(c: char) -> bool {
    !is_whitespace(c) && c != '"' && c != '\'' && c != '\\'
}

/// A word is one plain character or more.
pub open spec fn is_word(w: Seq<char>) -> bool {
    w.len() > 0 && forall|i: int| 0 <= i < w.len() ==> is_plain(#[trigger] w[i])
}

/// The words in a row, one space between each two.
pub open spec fn join_words(words: Seq<Seq<char>>) -> Seq<char>
    decreases words.len(),
{
    if words.len() == 0 {
        seq![]
    } else if words.len() == 1 {
        words[0]
    } else {
        join_words(words.drop_last()) + seq![' '] + words.last()
    }
}

/// Where no backslash stands, there is no escape sequence to resolve.
pub proof fn lemma_unescape_without_backslash(s: Seq<char>, c: char)
    requires
        forall|i: int| 0 <= i < s.len() ==> s[i] != '\\',
    ensures
        unescape(s, c) == s,
    decreases s.len(),
{
    if s.len() >= 2 {
        lemma_unescape_without_backslash(s.skip(1), c);
    }
}

/// A word is a token as it stands.
pub proof fn lemma_word_is_its_token(w: Seq<char>)
    requires
        is_word(w),
    ensures
        finish_part(w) == seq![w],
{
    lemma_unescape_without_backslash(w, '"');
    lemma_unescape_without_backslash(w, '\'');
    lemma_unescape_without_backslash(w, ' ');
    lemma_unescape_without_backslash(w, '\\');
}

/// Outside quotes and not after a backslash, plain characters only add to
/// the token being read.
proof fn lemma_scan_plain(prefix: Seq<char>, w: Seq<char>)
    requires
        scan(prefix).quote_state == QuoteState::InNone,
        scan(prefix).last != '\\',
        forall|i: int| 0 <= i < w.len() ==> is_plain(#[trigger] w[i]),
    ensures
        scan(prefix + w) == (Scanner {
            last: if w.len() > 0 {
                w.last()
            } else {
                scan(prefix).last
            },
            part: scan(prefix).part + w,
            ..scan(prefix)
        }),
    decreases w.len(),
{
    if w.len() > 0 {
        let front = w.drop_last();
        lemma_scan_plain(prefix, front);
        assert((prefix + w).drop_last() == prefix + front);
        assert((scan(prefix).part + front).push(w.last()) == scan(prefix).part + w);
    }
}

/// After the words in a row, the scanner is outside quotes, has completed
/// all words but the last and is reading the last.
proof fn lemma_scan_joined_words(words: Seq<Seq<char>>)
    requires
        words.len() > 0,
        forall|i: int| 0 <= i < words.len() ==> is_word(#[trigger] words[i]),
    ensures
        scan(join_words(words)) == (Scanner {
            quote_state: QuoteState::InNone,
            last: words.last().last(),
            part: words.last(),
            parts: words.drop_last(),
        }),
        join_words(words).len() > 0,
        join_words(words)[0] == words[0][0],
        join_words(words).last() == words.last().last(),
    decreases words.len(),
{
    let w = words.last();
    if words.len() == 1 {
        lemma_scan_plain(seq![], w);
        assert(words.drop_last() == Seq::<Seq<char>>::empty());
    } else {
        let front = words.drop_last();
        lemma_scan_joined_words(front);
        let joined = join_words(front);
        let spaced = joined + seq![' '];
        assert(spaced.drop_last() == joined);
        lemma_word_is_its_token(front.last());
        assert(front.drop_last() + seq![front.last()] == front);
        lemma_scan_plain(spaced, w);
    }
}

/// Words that are joined by single spaces come out again as they went in,
/// in their order.
pub proof fn lemma_split_of_joined_words(words: Seq<Seq<char>>)
    requires
        forall|i: int| 0 <= i < words.len() ==> is_word(#[trigger] words[i]),
    ensures
        split_args(join_words(words)) == words,
{
    if words.len() > 0 {
        lemma_scan_joined_words(words);
        lemma_word_is_its_token(words.last());
    }
}

/// The end of the input closes a quote that is still open: the closing
/// quote can as well be left out.
pub proof fn lemma_end_closes_the_quote(input: Seq<char>, quote: char)
    requires
        trim(input) == input,
        scan(input).last != '\\',
        (quote == '"' && scan(input).quote_state == QuoteState::InDoubleQuotes) || (quote == '\''
            && scan(input).quote_state == QuoteState::InSingleQuotes),
    ensures
        split_args(input.push(quote)) == split_args(input),
{
    let closed = input.push(quote);
    lemma_trim_start(input);
    lemma_trim_end(trim_start(input));
    assert(closed.drop_last() == input);
}

/// A backslash at the end of a word escapes nothing and stays.
pub proof fn lemma_unescape_backslash_at_the_end(w: Seq<char>, c: char)
    requires
        forall|i: int| 0 <= i < w.len() ==> w[i] != '\\',
    ensures
        unescape(w.push('\\'), c) == w.push('\\'),
    decreases w.len(),
{
    if w.len() > 0 {
        let s = w.push('\\');
        lemma_unescape_backslash_at_the_end(w.skip(1), c);
        assert(s.skip(1) == w.skip(1).push('\\'));
    }
}

/// A word with a backslash at its end is one token, backslash and all.
pub proof fn lemma_backslash_at_the_end_stays(w: Seq<char>)
    requires
        is_word(w),
    ensures
        split_args(w.push('\\')) == seq![w.push('\\')],
{
    let s = w.push('\\');
    lemma_scan_plain(seq![], w);
    assert(s.drop_last() == w);
    lemma_unescape_backslash_at_the_end(w, '"');
    lemma_unescape_backslash_at_the_end(w, '\'');
    lemma_unescape_backslash_at_the_end(w, ' ');
    lemma_unescape_backslash_at_the_end(w, '\\');
}

/// A copy of `v` with each `\c` replaced by `c`.
pub fn unescaped(v: &Vec<char>, c: char) -> (r: Vec<char>)
    ensures
        r@ == unescape(v@, c),
{
    let mut r: Vec<char> = Vec::new();
    let mut i: usize = 0;
    assert(v@.skip(0) == v@);
    while i < v.len()
        invariant
            i <= v.len(),
            r@ + unescape(v@.skip(i as int), c) == unescape(v@, c),
        decreases v.len() - i,
    {
        let ghost rest = v@.skip(i as int);
        if v[i] == '\\' && i + 1 < v.len() && v[i + 1] == c {
            assert(rest.skip(2) == v@.skip(i as int + 2));
            r.push(c);
            i += 2;
        } else {
            assert(rest.len() >= 2 ==> rest.skip(1) == v@.skip(i as int + 1));
            r.push(v[i]);
            i += 1;
        }
    }
    r
}

/// Appends to `parts` the token that the spans of `t` at `positions` make.
fn push_part(t: &Vec<char>, positions: &Vec<usize>, parts: &mut Vec<String>)
    requires
        positions.len() % 2 == 0,
        positions_ordered(positions@, t.len() as int),
    ensures
        final(parts).deep_view() == old(parts).deep_view() + finish_part(spans(t@, positions@)),
{
    let mut part: Vec<char> = Vec::new();
    let mut k: usize = 0;
    while k < positions.len()
        invariant
            k <= positions.len(),
            k % 2 == 0,
            positions.len() % 2 == 0,
            positions_ordered(positions@, t.len() as int),
            part@ == spans(t@, positions@.take(k as int)),
        decreases positions.len() - k,
    {
        let start: usize = positions[k];
        let end: usize = positions[k + 1];
        let mut j: usize = start;
        while j < end
            invariant
                start <= j <= end <= t.len(),
                part@ == spans(t@, positions@.take(k as int)) + t@.subrange(
                    start as int,
                    j as int,
                ),
            decreases end - j,
        {
            part.push(t[j]);
            j += 1;
        }
        proof {
            let next = positions@.take(k as int + 2);
            assert(next.take(next.len() - 2) == positions@.take(k as int));
        }
        k += 2;
    }
    assert(positions@.take(positions.len() as int) == positions@);
    let part = trimmed(&part);
    let part = unescaped(&part, '"');
    let part = unescaped(&part, '\'');
    let part = unescaped(&part, ' ');
    let part = unescaped(&part, '\\');
    if part.len() > 0 {
        let token = string_of(&part, 0, part.len());
        assert(part@.subrange(0, part.len() as int) == part@);
        parts.push(token);
    }
}

/// Splits `s` into its tokens.
pub fn parse_process_args(s: &str) -> (parts: Vec<String>)
    ensures
        parts.deep_view() == split_args(s@),
{
    let chars = chars_of(s);
    let t = trimmed(&chars);
    let mut parts: Vec<String> = Vec::new();
    let mut quote_state = QuoteState::InNone;
    let mut positions: Vec<usize> = Vec::new();
    positions.push(0);
    let mut last = ' ';
    let mut i: usize = 0;
    while i < t.len()
        invariant
            i <= t.len(),
            positions.len() % 2 == 1,
            positions_ordered(positions@, i as int),
            scan(t@.take(i as int)).quote_state == quote_state,
            scan(t@.take(i as int)).last == last,
            scan(t@.take(i as int)).part == spans(t@, positions@.drop_last()) + t@.subrange(
                positions@.last() as int,
                i as int,
            ),
            scan(t@.take(i as int)).parts == parts.deep_view(),
        decreases t.len() - i,
    {
        let c = t[i];
        let ghost old_positions = positions@;
        assert(t@.take(i as int + 1).drop_last() == t@.take(i as int));
        if last == '\\' && (c == '"' || c == '\'' || c == ' ' || c == '\\') {
        } else if c == '"' && quote_state == QuoteState::InNone {
            quote_state = QuoteState::InDoubleQuotes;
            positions.push(i);
            positions.push(i + 1);
        } else if c == '"' && quote_state == QuoteState::InDoubleQuotes {
            quote_state = QuoteState::InNone;
            positions.push(i);
            positions.push(i + 1);
        } else if c == '\'' && quote_state == QuoteState::InNone {
            quote_state = QuoteState::InSingleQuotes;
            positions.push(i);
            positions.push(i + 1);
        } else if c == '\'' && quote_state == QuoteState::InSingleQuotes {
            quote_state = QuoteState::InNone;
            positions.push(i);
            positions.push(i + 1);
        } else if c == ' ' && quote_state == QuoteState::InNone {
            positions.push(i);
            assert(positions@.take(positions.len() - 2) == old_positions.drop_last());
            push_part(&t, &positions, &mut parts);
            positions.clear();
            positions.push(i + 1);
        }
        proof {
            if positions.len() == old_positions.len() + 2 {
                // a quote closed the span that was open and opened the next one
                let closed = positions@.drop_last();
                assert(closed.take(closed.len() - 2) == old_positions.drop_last());
            }
        }
        last = c;
        i += 1;
    }
    let ghost old_positions = positions@;
    assert(t@.take(t.len() as int) == t@);
    positions.push(i);
    assert(positions@.take(positions.len() - 2) == old_positions.drop_last());
    push_part(&t, &positions, &mut parts);
    parts
}

} // verus!
