//! The scanner itself: a character-driven finite-state machine, its
//! mathematical model, and the executable `tokenize` function proved
//! against that model.

use vstd::prelude::*;

use crate::token::{LexError, SpecToken, Token, tokens_view};

verus! {

/// The scanner's current mode.
#[derive(Debug, Clone, Copy, PartialEq, Eq, Structural)]
pub enum State {
    /// Between tokens: the next character starts a new token (or is
    /// skipped as whitespace).
    Default,
    /// Inside a quoted string, after the opening `"`.
    InString,
    /// Just consumed a `-` that must be followed by a digit.
    NumberNegativePrefix,
    /// Just consumed a leading `0`.
    NumberZeroPrefix,
    /// Consuming the integer digits of a number that does not start
    /// with `0`.
    NumberWholePart,
    /// Consuming digits after the decimal point.
    NumberFractionPart,
}

/// The whitespace characters skipped between tokens.
pub open spec fn is_whitespace_char(c: char) -> bool {
    c == ' ' || c == '\n' || c == '\r' || c == '\t'
}

/// A decimal digit.
pub open spec fn is_digit_char(c: char) -> bool {
    '0' <= c && c <= '9'
}

/// One transition of the machine in the `Default` state: what the
/// character `c` does to the buffer, which state comes next, and which
/// tokens are emitted.
pub open spec fn default_step(buf: Seq<char>, c: char) -> Result<
    (State, Seq<char>, Seq<SpecToken>),
    LexError,
> {
    if c == '{' {
        Ok((State::Default, buf, seq![SpecToken::OpenObject]))
    } else if c == '}' {
        Ok((State::Default, buf, seq![SpecToken::CloseObject]))
    } else if c == ':' {
        Ok((State::Default, buf, seq![SpecToken::Colon]))
    } else if c == ',' {
        Ok((State::Default, buf, seq![SpecToken::Comma]))
    } else if c == '[' {
        Ok((State::Default, buf, seq![SpecToken::OpenArray]))
    } else if c == ']' {
        Ok((State::Default, buf, seq![SpecToken::CloseArray]))
    } else if is_whitespace_char(c) {
        Ok((State::Default, buf, Seq::<SpecToken>::empty()))
    } else if c == '"' {
        Ok((State::InString, buf, Seq::<SpecToken>::empty()))
    } else if c == '-' {
        Ok((State::NumberNegativePrefix, buf.push('-'), Seq::<SpecToken>::empty()))
    } else if c == '0' {
        Ok((State::NumberZeroPrefix, buf.push('0'), Seq::<SpecToken>::empty()))
    } else if is_digit_char(c) {
        Ok((State::NumberWholePart, buf.push(c), Seq::<SpecToken>::empty()))
    } else {
        Err(LexError::UnsupportedCharacter)
    }
}

/// Ends the pending number: the buffered literal is emitted, and the
/// terminating character `c` — which is not part of the number — is
/// dispatched once more from the `Default` state with a fresh buffer.
pub open spec fn finalize_number(buf: Seq<char>, c: char) -> Result<
    (State, Seq<char>, Seq<SpecToken>),
    LexError,
> {
    match default_step(Seq::<char>::empty(), c) {
        Ok((st, buf2, emitted)) => Ok((st, buf2, seq![SpecToken::Num(buf)] + emitted)),
        Err(e) => Err(e),
    }
}

/// One transition of the machine: from state `st` with accumulator
/// `buf`, consuming the character `c`.
pub open spec fn step(st: State, buf: Seq<char>, c: char) -> Result<
    (State, Seq<char>, Seq<SpecToken>),
    LexError,
> {
    match st {
        State::Default => default_step(buf, c),
        State::InString => if c == '"' {
            Ok((State::Default, Seq::<char>::empty(), seq![SpecToken::Str(buf)]))
        } else {
            Ok((State::InString, buf.push(c), Seq::<SpecToken>::empty()))
        },
        State::NumberNegativePrefix => if c == '0' {
            Ok((State::NumberZeroPrefix, buf.push('0'), Seq::<SpecToken>::empty()))
        } else if is_digit_char(c) {
            Ok((State::NumberWholePart, buf.push(c), Seq::<SpecToken>::empty()))
        } else {
            Err(LexError::InvalidNumberLiteral)
        },
        State::NumberZeroPrefix => if c == '.' {
            Ok((State::NumberFractionPart, buf.push('.'), Seq::<SpecToken>::empty()))
        } else if c == 'e' || c == 'E' {
            Err(LexError::UnsupportedNumberFormat)
        } else {
            finalize_number(buf, c)
        },
        State::NumberWholePart => if is_digit_char(c) {
            Ok((State::NumberWholePart, buf.push(c), Seq::<SpecToken>::empty()))
        } else if c == '.' {
            Ok((State::NumberFractionPart, buf.push('.'), Seq::<SpecToken>::empty()))
        } else if c == 'e' || c == 'E' {
            Err(LexError::UnsupportedNumberFormat)
        } else {
            finalize_number(buf, c)
        },
        State::NumberFractionPart => if is_digit_char(c) {
            Ok((State::NumberFractionPart, buf.push(c), Seq::<SpecToken>::empty()))
        } else if c == 'e' || c == 'E' {
            Err(LexError::UnsupportedNumberFormat)
        } else {
            finalize_number(buf, c)
        },
    }
}

/// Runs the machine over the whole of `s` from state `st` with
/// accumulator `buf`; yields the final state, the final accumulator and
/// every token emitted along the way, or the first error.
pub open spec fn scan(st: State, buf: Seq<char>, s: Seq<char>) -> Result<
    (State, Seq<char>, Seq<SpecToken>),
    LexError,
>
    decreases s.len(),
{
    if s.len() == 0 {
        Ok((st, buf, Seq::<SpecToken>::empty()))
    } else {
        match step(st, buf, s[0]) {
            Ok((st1, buf1, em1)) => match scan(st1, buf1, s.drop_first()) {
                Ok((st2, buf2, em2)) => Ok((st2, buf2, em1 + em2)),
                Err(e) => Err(e),
            },
            Err(e) => Err(e),
        }
    }
}

/// What tokenizing means: run the machine over the whole input from a
/// fresh configuration; if it ends between tokens, the emitted sequence
/// is the result, and if it ends mid-token the input was truncated.
pub open spec fn spec_tokenize(s: Seq<char>) -> Result<Seq<SpecToken>, LexError> {
    match scan(State::Default, Seq::<char>::empty(), s) {
        Ok((st, buf, toks)) => if st == State::Default {
            Ok(toks)
        } else {
            Err(LexError::UnexpectedEndOfInput)
        },
        Err(e) => Err(e),
    }
}

/// Scanning a single character is one transition of the machine.
pub proof fn lemma_scan_one(st: State, buf: Seq<char>, c: char)
    ensures
        scan(st, buf, seq![c]) == (match step(st, buf, c) {
            Ok((st1, buf1, em1)) => Ok::<_, LexError>((st1, buf1, em1)),
            Err(e) => Err(e),
        }),
{
    assert(seq![c].drop_first() =~= Seq::<char>::empty());
    match step(st, buf, c) {
        Ok((st1, buf1, em1)) => {
            assert(scan(st1, buf1, Seq::<char>::empty()) == Ok::<_, LexError>((
                st1,
                buf1,
                Seq::<SpecToken>::empty(),
            )));
            assert(em1 + Seq::<SpecToken>::empty() =~= em1);
        },
        Err(_) => {},
    }
}

/// Scanning a concatenation is scanning the first part and carrying its
/// final configuration into the second, with the emissions concatenated.
#[verifier::rlimit(50)]
pub proof fn lemma_scan_append(st: State, buf: Seq<char>, s1: Seq<char>, s2: Seq<char>)
    ensures
        scan(st, buf, s1 + s2) == (match scan(st, buf, s1) {
            Ok((st1, buf1, em1)) => match scan(st1, buf1, s2) {
                Ok((st2, buf2, em2)) => Ok::<_, LexError>((st2, buf2, em1 + em2)),
                Err(e) => Err(e),
            },
            Err(e) => Err(e),
        }),
    decreases s1.len(),
{
    if s1.len() == 0 {
        assert(s1 + s2 =~= s2);
        match scan(st, buf, s2) {
            Ok((st2, buf2, em2)) => {
                assert(Seq::<SpecToken>::empty() + em2 =~= em2);
            },
            Err(_) => {},
        }
    } else {
        assert((s1 + s2)[0] == s1[0]);
        assert((s1 + s2).drop_first() =~= s1.drop_first() + s2);
        match step(st, buf, s1[0]) {
            Ok((st1, buf1, em1)) => {
                lemma_scan_append(st1, buf1, s1.drop_first(), s2);
                match scan(st1, buf1, s1.drop_first()) {
                    Ok((sta, bufa, ema)) => {
                        match scan(sta, bufa, s2) {
                            Ok((stb, bufb, emb)) => {
                                assert(em1 + (ema + emb) =~= (em1 + ema) + emb);
                            },
                            Err(_) => {},
                        }
                    },
                    Err(_) => {},
                }
            },
            Err(_) => {},
        }
    }
}

/// Relies on `String::push`: it appends the given character to the end
/// of the string.
pub assume_specification[ std::string::String::push ](s: &mut String, c: char)
    ensures
        final(s)@ == old(s)@.push(c),
;

/// Builds the heap string holding exactly the buffered characters.
fn chars_to_string(chars: &Vec<char>) -> (r: String)
    ensures
        r@ == chars@,
{
    let mut r = String::new();
    let mut i: usize = 0;
    while i < chars.len()
        invariant
            i <= chars.len(),
            r@ == chars@.take(i as int),
        decreases chars.len() - i,
    {
        r.push(chars[i]);
        i = i + 1;
        proof {
            assert(chars@.take(i as int) =~= chars@.take(i - 1).push(chars@[i - 1]));
        }
    }
    proof {
        assert(chars@.take(chars@.len() as int) =~= chars@);
    }
    r
}

/// Decides whether `c` is a decimal digit.
fn is_digit(c: char) -> (b: bool)
    ensures
        b == is_digit_char(c),
{
    '0' <= c && c <= '9'
}

/// Moves the scanner into the negative-number mode after a `-`.
pub fn add_negative_prefix(state: &mut State, buffer: &mut Vec<char>)
    ensures
        *final(state) == State::NumberNegativePrefix,
        final(buffer)@ == old(buffer)@.push('-'),
{
    *state = State::NumberNegativePrefix;
    buffer.push('-');
}

/// Moves the scanner into the leading-zero mode after a `0`.
pub fn add_zero_prefix(state: &mut State, buffer: &mut Vec<char>)
    ensures
        *final(state) == State::NumberZeroPrefix,
        final(buffer)@ == old(buffer)@.push('0'),
{
    *state = State::NumberZeroPrefix;
    buffer.push('0');
}

/// Moves the scanner into the whole-part mode on the digit `c`.
pub fn add_number_whole_part_symbol(c: char, state: &mut State, buffer: &mut Vec<char>)
    ensures
        *final(state) == State::NumberWholePart,
        final(buffer)@ == old(buffer)@.push(c),
{
    *state = State::NumberWholePart;
    buffer.push(c);
}

/// Moves the scanner into the fraction mode after a decimal point.
pub fn add_number_fraction_symbol(state: &mut State, buffer: &mut Vec<char>)
    ensures
        *final(state) == State::NumberFractionPart,
        final(buffer)@ == old(buffer)@.push('.'),
{
    *state = State::NumberFractionPart;
    buffer.push('.');
}

/// Emits the buffered string payload and returns to the default state.
fn add_string_token_from_buffer(tokens: &mut Vec<Token>, state: &mut State, buffer: &mut Vec<char>)
    ensures
        *final(state) == State::Default,
        final(buffer)@ == Seq::<char>::empty(),
        tokens_view(final(tokens)@) == tokens_view(old(tokens)@).push(
            SpecToken::Str(old(buffer)@),
        ),
{
    let value = chars_to_string(buffer);
    tokens.push(Token::String(value));
    buffer.clear();
    *state = State::Default;
    proof {
        assert(tokens_view(tokens@) =~= tokens_view(old(tokens)@).push(
            SpecToken::Str(old(buffer)@),
        ));
    }
}

/// One transition from the `Default` state: structural punctuation is
/// emitted, whitespace is skipped, and `"`, `-` and digits open a new
/// string or number token.
fn consume_default(c: char, tokens: &mut Vec<Token>, state: &mut State, buffer: &mut Vec<char>) -> (r:
    Result<(), LexError>)
    requires
        *old(state) == State::Default,
    ensures
        match default_step(old(buffer)@, c) {
            Ok((st2, buf2, emitted)) => {
                &&& r is Ok
                &&& *final(state) == st2
                &&& final(buffer)@ == buf2
                &&& tokens_view(final(tokens)@) == tokens_view(old(tokens)@) + emitted
            },
            Err(e) => {
                &&& r == Err::<(), LexError>(e)
                &&& *final(state) == *old(state)
                &&& final(buffer)@ == old(buffer)@
                &&& final(tokens)@ == old(tokens)@
            },
        },
{
    let emitted: Option<Token> = match c {
        '{' => Some(Token::OpenObject),
        '}' => Some(Token::CloseObject),
        ':' => Some(Token::Colon),
        ',' => Some(Token::Comma),
        '[' => Some(Token::OpenArray),
        ']' => Some(Token::CloseArray),
        ' ' | '\n' | '\r' | '\t' => None,
        '"' => {
            *state = State::InString;
            None
        },
        '-' => {
            add_negative_prefix(state, buffer);
            None
        },
        '0' => {
            add_zero_prefix(state, buffer);
            None
        },
        _ => {
            if is_digit(c) {
                add_number_whole_part_symbol(c, state, buffer);
                None
            } else {
                return Err(LexError::UnsupportedCharacter);
            }
        },
    };
    match emitted {
        Some(token) => {
            *state = State::Default;
            let ghost v = token@;
            tokens.push(token);
            proof {
                assert(tokens_view(tokens@) =~= tokens_view(old(tokens)@) + seq![v]);
            }
        },
        None => {
            proof {
                assert(tokens_view(tokens@) =~= tokens_view(old(tokens)@)
                    + Seq::<SpecToken>::empty());
            }
        },
    }
    Ok(())
}

/// Emits the buffered number literal, then dispatches the terminating
/// character `c` once more from the default state.
fn add_number_from_buffer(
    c: char,
    tokens: &mut Vec<Token>,
    state: &mut State,
    buffer: &mut Vec<char>,
) -> (r: Result<(), LexError>)
    ensures
        match finalize_number(old(buffer)@, c) {
            Ok((st2, buf2, emitted)) => {
                &&& r is Ok
                &&& *final(state) == st2
                &&& final(buffer)@ == buf2
                &&& tokens_view(final(tokens)@) == tokens_view(old(tokens)@) + emitted
            },
            Err(e) => r == Err::<(), LexError>(e),
        },
{
    *state = State::Default;
    let text = chars_to_string(buffer);
    let ghost literal = text@;
    tokens.push(Token::Number(text));
    buffer.clear();
    let ghost mid_tokens = tokens@;
    proof {
        assert(tokens_view(mid_tokens) =~= tokens_view(old(tokens)@).push(
            SpecToken::Num(old(buffer)@),
        ));
    }
    let r = consume_default(c, tokens, state, buffer);
    proof {
        match default_step(Seq::<char>::empty(), c) {
            Ok((st2, buf2, emitted)) => {
                assert(tokens_view(mid_tokens) + emitted =~= tokens_view(old(tokens)@) + (seq![
                    SpecToken::Num(old(buffer)@),
                ] + emitted));
            },
            Err(_) => {},
        }
    }
    r
}

/// One transition of the scanner, exactly as [`step`] describes it.
fn consume(c: char, tokens: &mut Vec<Token>, state: &mut State, buffer: &mut Vec<char>) -> (r:
    Result<(), LexError>)
    ensures
        match step(*old(state), old(buffer)@, c) {
            Ok((st2, buf2, emitted)) => {
                &&& r is Ok
                &&& *final(state) == st2
                &&& final(buffer)@ == buf2
                &&& tokens_view(final(tokens)@) == tokens_view(old(tokens)@) + emitted
            },
            Err(e) => r == Err::<(), LexError>(e),
        },
{
    match *state {
        State::Default => consume_default(c, tokens, state, buffer),
        State::InString => {
            if c == '"' {
                add_string_token_from_buffer(tokens, state, buffer);
                proof {
                    assert(tokens_view(tokens@) =~= tokens_view(old(tokens)@) + seq![
                        SpecToken::Str(old(buffer)@),
                    ]);
                }
                Ok(())
            } else {
                buffer.push(c);
                proof {
                    assert(tokens_view(tokens@) =~= tokens_view(old(tokens)@)
                        + Seq::<SpecToken>::empty());
                }
                Ok(())
            }
        },
        State::NumberNegativePrefix => {
            if c == '0' {
                add_zero_prefix(state, buffer);
                proof {
                    assert(tokens_view(tokens@) =~= tokens_view(old(tokens)@)
                        + Seq::<SpecToken>::empty());
                }
                Ok(())
            } else if is_digit(c) {
                add_number_whole_part_symbol(c, state, buffer);
                proof {
                    assert(tokens_view(tokens@) =~= tokens_view(old(tokens)@)
                        + Seq::<SpecToken>::empty());
                }
                Ok(())
            } else {
                Err(LexError::InvalidNumberLiteral)
            }
        },
        State::NumberZeroPrefix => {
            if c == '.' {
                add_number_fraction_symbol(state, buffer);
                proof {
                    assert(tokens_view(tokens@) =~= tokens_view(old(tokens)@)
                        + Seq::<SpecToken>::empty());
                }
                Ok(())
            } else if c == 'e' || c == 'E' {
                Err(LexError::UnsupportedNumberFormat)
            } else {
                add_number_from_buffer(c, tokens, state, buffer)
            }
        },
        State::NumberWholePart => {
            if is_digit(c) {
                buffer.push(c);
                proof {
                    assert(tokens_view(tokens@) =~= tokens_view(old(tokens)@)
                        + Seq::<SpecToken>::empty());
                }
                Ok(())
            } else if c == '.' {
                add_number_fraction_symbol(state, buffer);
                proof {
                    assert(tokens_view(tokens@) =~= tokens_view(old(tokens)@)
                        + Seq::<SpecToken>::empty());
                }
                Ok(())
            } else if c == 'e' || c == 'E' {
                Err(LexError::UnsupportedNumberFormat)
            } else {
                add_number_from_buffer(c, tokens, state, buffer)
            }
        },
        State::NumberFractionPart => {
            if is_digit(c) {
                buffer.push(c);
                proof {
                    assert(tokens_view(tokens@) =~= tokens_view(old(tokens)@)
                        + Seq::<SpecToken>::empty());
                }
                Ok(())
            } else if c == 'e' || c == 'E' {
                Err(LexError::UnsupportedNumberFormat)
            } else {
                add_number_from_buffer(c, tokens, state, buffer)
            }
        },
    }
}

/// Scans the whole of `input`, left to right, into its token sequence.
///
/// The result is exactly what the mathematical machine says of the
/// input's characters: `Ok` with the model of every returned token when
/// [`spec_tokenize`] succeeds, and the very same error when it fails.
pub fn tokenize(input: &str) -> (r: Result<Vec<Token>, LexError>)
    ensures
        match r {
            Ok(tokens) => spec_tokenize(input@) == Ok::<Seq<SpecToken>, LexError>(
                tokens_view(tokens@),
            ),
            Err(e) => spec_tokenize(input@) == Err::<Seq<SpecToken>, LexError>(e),
        },
{
    let ghost s = input@;
    let n = input.unicode_len();
    let mut tokens: Vec<Token> = Vec::new();
    let mut state = State::Default;
    let mut buffer: Vec<char> = Vec::new();
    let mut i: usize = 0;
    proof {
        assert(tokens_view(tokens@) =~= Seq::<SpecToken>::empty());
    }
    while i < n
        invariant
            n == s.len(),
            i <= n,
            s == input@,
            scan(State::Default, Seq::<char>::empty(), s.take(i as int)) == Ok::<
                _,
                LexError,
            >((state, buffer@, tokens_view(tokens@))),
        decreases n - i,
    {
        let ghost prev_state = state;
        let ghost prev_buffer = buffer@;
        let c = input.get_char(i);
        let r = consume(c, &mut tokens, &mut state, &mut buffer);
        proof {
            lemma_scan_append(State::Default, Seq::<char>::empty(), s.take(i as int), seq![c]);
            assert(s.take(i + 1) =~= s.take(i as int) + seq![c]);
            lemma_scan_one(prev_state, prev_buffer, c);
        }
        match r {
            Ok(()) => {},
            Err(e) => {
                proof {
                    lemma_scan_append(State::Default, Seq::<char>::empty(), s.take(i + 1), s.skip(i + 1));
                    assert(s.take(i + 1) + s.skip(i + 1) =~= s);
                }
                return Err(e);
            },
        }
        i = i + 1;
    }
    proof {
        assert(s.take(n as int) =~= s);
    }
    match state {
        State::Default => Ok(tokens),
        _ => Err(LexError::UnexpectedEndOfInput),
    }
}

} // verus!
