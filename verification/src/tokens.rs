//! Lexical tokenizer: splits a line of text into maximal word runs, maximal
//! symbol runs, and single-character grouping markers.

use vstd::prelude::*;
use vstd::string::*;

verus! {

/// A raw lexical token.  Tokens are opaque strings; later stages classify
/// them by their text alone.
pub type Token = String;

/// Errors of the lexical stage.
#[derive(Debug)]
pub enum TokenizeError {
    IncompleteOperator(String),
}

/// Names the result of `char::is_alphanumeric`: the Unicode letter-or-digit
/// classification of a character, a function of the character alone.
pub uninterp spec fn char_is_alphanumeric(c: char) -> bool;

/// Names the result of `char::is_whitespace`: the Unicode whitespace
/// classification of a character, a function of the character alone.
pub uninterp spec fn char_is_whitespace(c: char) -> bool;

/// Relies on `char::is_alphanumeric` from std: classifies a character by the
/// Unicode tables, depending on the character alone.
pub assume_specification[ char::is_alphanumeric ](c: char) -> (r: bool)
    ensures
        r == char_is_alphanumeric(c),
;

/// Relies on `char::is_whitespace` from std: classifies a character by the
/// Unicode tables, depending on the character alone.
pub assume_specification[ char::is_whitespace ](c: char) -> (r: bool)
    ensures
        r == char_is_whitespace(c),
;

/// A character of a word run: a letter, a digit, or the decimal point.
pub open spec fn is_word_char(c: char) -> bool {
    char_is_alphanumeric(c) || c == '.'
}

/// A character of a symbol run: printable, but no word character.
pub open spec fn is_symbol_char(c: char) -> bool {
    !char_is_whitespace(c) && c != '.' && !char_is_alphanumeric(c)
}

/// A grouping marker, always a token of its own.
pub open spec fn is_marker_char(c: char) -> bool {
    c == '(' || c == ')' || c == '[' || c == ']' || c == '{' || c == '}'
}

/// Whether a new token starts between `last` and `next`.
pub open spec fn spec_is_new_token(last: char, next: char) -> bool {
    if is_marker_char(last) || is_marker_char(next) {
        true
    } else if is_word_char(last) && is_word_char(next) {
        false
    } else if is_symbol_char(last) && is_symbol_char(next) {
        false
    } else {
        true
    }
}

/// Appends the pending run to the token list, unless it is empty.
pub open spec fn spec_push_token(acc: Seq<Seq<char>>, cur: Seq<char>) -> Seq<Seq<char>> {
    if cur.len() == 0 {
        acc
    } else {
        acc.push(cur)
    }
}

/// One pass over the remaining characters, carrying the previous character,
/// the pending run and the tokens already finished.
pub open spec fn spec_tokenize_from(
    s: Seq<char>,
    i: int,
    last: char,
    cur: Seq<char>,
    acc: Seq<Seq<char>>,
) -> Seq<Seq<char>>
    decreases s.len() - i,
{
    if i < 0 || i >= s.len() {
        spec_push_token(acc, cur)
    } else {
        let c = s[i];
        let boundary = spec_is_new_token(last, c);
        let acc2 = if boundary {
            spec_push_token(acc, cur)
        } else {
            acc
        };
        let cur2 = if boundary {
            Seq::<char>::empty()
        } else {
            cur
        };
        let cur3 = if !char_is_whitespace(c) {
            cur2.push(c)
        } else {
            cur2
        };
        spec_tokenize_from(s, i + 1, c, cur3, acc2)
    }
}

/// The token texts of a line of input.
pub open spec fn spec_tokenize(s: Seq<char>) -> Seq<Seq<char>> {
    spec_tokenize_from(s, 0, '_', Seq::<char>::empty(), Seq::<Seq<char>>::empty())
}

/// The texts of a token list.
pub open spec fn tokens_view(ts: Seq<Token>) -> Seq<Seq<char>> {
    ts.map_values(|t: Token| t@)
}

/// Relies on `String::from_iter` over `core::str::Chars` from std: collecting
/// a sequence of characters yields the string of exactly those characters.
#[verifier::external_body]
pub(crate) fn string_from_chars(cs: &Vec<char>) -> (s: String)
    ensures
        s@ == cs@,
{
    cs.iter().collect()
}

/// Whether a new token starts between `last` and `next`: grouping markers
/// always stand alone, and a run continues only while its character class
/// does.
pub fn is_new_token(last_char: char, new_char: char) -> (r: bool)
    ensures
        r == spec_is_new_token(last_char, new_char),
{
    let last_marker = last_char == '(' || last_char == ')' || last_char == '['
        || last_char == ']' || last_char == '{' || last_char == '}';
    let new_marker = new_char == '(' || new_char == ')' || new_char == '[' || new_char == ']'
        || new_char == '{' || new_char == '}';
    if last_marker || new_marker {
        return true;
    }
    let last_alnum = last_char.is_alphanumeric();
    let new_alnum = new_char.is_alphanumeric();
    if (last_alnum || last_char == '.') && (new_alnum || new_char == '.') {
        return false;
    }
    let last_symbol = !last_char.is_whitespace() && last_char != '.' && !last_alnum;
    let new_symbol = !new_char.is_whitespace() && new_char != '.' && !new_alnum;
    if last_symbol && new_symbol {
        return false;
    }
    true
}

/// Moves the pending run, if any, onto the token list and clears it.
fn push_token(sequence: &mut Vec<Token>, token: &mut Vec<char>)
    ensures
        tokens_view(final(sequence)@) == spec_push_token(
            tokens_view(old(sequence)@),
            old(token)@,
        ),
        final(token)@ == Seq::<char>::empty(),
{
    if token.len() != 0 {
        let s = string_from_chars(token);
        sequence.push(s);
        token.clear();
        proof {
            assert(tokens_view(sequence@) =~= tokens_view(old(sequence)@).push(old(token)@));
        }
    } else {
        proof {
            assert(token@ =~= Seq::<char>::empty());
        }
    }
}

/// Splits a line into its tokens: maximal word runs, maximal symbol runs and
/// single grouping markers, with whitespace dropped.
pub fn generate_tokens(text: &String) -> (r: Vec<Token>)
    ensures
        tokens_view(r@) == spec_tokenize(text@),
{
    let mut token_sequence: Vec<Token> = Vec::new();
    let mut current_token: Vec<char> = Vec::new();
    let mut last_c = '_';
    let text_str = text.as_str();
    let n = text_str.unicode_len();
    let mut i: usize = 0;
    proof {
        assert(tokens_view(token_sequence@) =~= Seq::<Seq<char>>::empty());
        assert(current_token@ =~= Seq::<char>::empty());
    }
    while i < n
        invariant
            n == text@.len(),
            text_str@ == text@,
            i <= n,
            spec_tokenize_from(
                text@,
                i as int,
                last_c,
                current_token@,
                tokens_view(token_sequence@),
            ) == spec_tokenize(text@),
        decreases n - i,
    {
        let c = text_str.get_char(i);
        if is_new_token(last_c, c) {
            push_token(&mut token_sequence, &mut current_token);
        }
        if !c.is_whitespace() {
            current_token.push(c);
        }
        last_c = c;
        i += 1;
    }
    push_token(&mut token_sequence, &mut current_token);
    token_sequence
}

} // verus!
