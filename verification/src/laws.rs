//! Laws of the scanner, proved once and for all inputs: whitespace
//! between tokens is immaterial, quote-free text survives a round trip
//! through a string literal, valid number literals are scanned whole,
//! every emitted token is well formed, and printing a scanned token
//! sequence back to text re-tokenizes to the same sequence.

use vstd::prelude::*;

use crate::lexer::{
    State, default_step, finalize_number, is_digit_char, is_whitespace_char, lemma_scan_append,
    lemma_scan_one, scan, spec_tokenize, step,
};
use crate::token::{LexError, SpecToken};

verus! {

/// Every character of `s` is whitespace the scanner skips.
pub open spec fn all_whitespace_chars(s: Seq<char>) -> bool {
    forall|i: int| 0 <= i < s.len() ==> is_whitespace_char(#[trigger] s[i])
}

/// `s` holds no string delimiter.
pub open spec fn quote_free(s: Seq<char>) -> bool {
    forall|i: int| 0 <= i < s.len() ==> #[trigger] s[i] != '"'
}

/// Between tokens, whitespace does nothing: the state and the
/// accumulator are untouched and nothing is emitted.
proof fn lemma_scan_whitespace(buf: Seq<char>, w: Seq<char>)
    requires
        all_whitespace_chars(w),
    ensures
        scan(State::Default, buf, w) == Ok::<_, LexError>((
            State::Default,
            buf,
            Seq::<SpecToken>::empty(),
        )),
    decreases w.len(),
{
    if w.len() > 0 {
        assert(is_whitespace_char(w[0]));
        assert(all_whitespace_chars(w.drop_first()));
        lemma_scan_whitespace(buf, w.drop_first());
        assert(Seq::<SpecToken>::empty() + Seq::<SpecToken>::empty() =~= Seq::<
            SpecToken,
        >::empty());
    }
}

/// Whitespace invariance: wherever the scan of a prefix has come back
/// to the state between tokens, inserting any run of space, tab,
/// carriage return or line feed there leaves the token sequence (and
/// any error) exactly as it was.
pub proof fn lemma_whitespace_invariance(s1: Seq<char>, w: Seq<char>, s2: Seq<char>)
    requires
        all_whitespace_chars(w),
        (scan(State::Default, Seq::<char>::empty(), s1) matches Ok(cfg) && cfg.0
            == State::Default),
    ensures
        spec_tokenize(s1 + w + s2) == spec_tokenize(s1 + s2),
{
    match scan(State::Default, Seq::<char>::empty(), s1) {
        Ok((st1, buf1, em1)) => {
            lemma_scan_append(State::Default, Seq::<char>::empty(), s1, w + s2);
            assert(s1 + w + s2 =~= s1 + (w + s2));
            lemma_scan_append(State::Default, buf1, w, s2);
            lemma_scan_whitespace(buf1, w);
            lemma_scan_append(State::Default, Seq::<char>::empty(), s1, s2);
            match scan(State::Default, buf1, s2) {
                Ok((st2, buf2, em2)) => {
                    assert(Seq::<SpecToken>::empty() + em2 =~= em2);
                },
                Err(_) => {},
            }
        },
        Err(_) => {},
    }
}

/// Whitespace invariance at a number's tail: a completed number is
/// ended either by whitespace or by the next token's first character,
/// and the tokens come out the same. The next character must be one
/// that ends a number (not a digit, `.`, `e` or `E` — else it would
/// extend or reject the literal rather than stand between tokens), and
/// must exist (a number at the very end of the input is truncated,
/// while whitespace after it would complete it).
pub proof fn lemma_whitespace_after_number_invariance(s1: Seq<char>, w: Seq<char>, s2: Seq<char>)
    requires
        all_whitespace_chars(w),
        (scan(State::Default, Seq::<char>::empty(), s1) matches Ok(cfg) && (cfg.0
            == State::NumberZeroPrefix || cfg.0 == State::NumberWholePart || cfg.0
            == State::NumberFractionPart)),
        s2.len() > 0,
        !is_digit_char(s2[0]),
        s2[0] != '.' && s2[0] != 'e' && s2[0] != 'E',
    ensures
        spec_tokenize(s1 + w + s2) == spec_tokenize(s1 + s2),
{
    if w.len() == 0 {
        assert(s1 + w + s2 =~= s1 + s2);
    } else {
        match scan(State::Default, Seq::<char>::empty(), s1) {
            Ok((st, buf, em0)) => {
                let c2 = s2[0];
                // The inserted run: its first character completes the number,
                // the rest is skipped.
                lemma_scan_append(State::Default, Seq::<char>::empty(), s1, w + s2);
                assert(s1 + w + s2 =~= s1 + (w + s2));
                lemma_scan_append(st, buf, w, s2);
                lemma_scan_append(st, buf, seq![w[0]], w.drop_first());
                assert(seq![w[0]] + w.drop_first() =~= w);
                assert(is_whitespace_char(w[0]));
                assert(all_whitespace_chars(w.drop_first()));
                lemma_scan_one(st, buf, w[0]);
                lemma_scan_whitespace(Seq::<char>::empty(), w.drop_first());
                // Without the run: the next token's first character completes
                // the number and is dispatched anew.
                lemma_scan_append(State::Default, Seq::<char>::empty(), s1, s2);
                lemma_scan_append(st, buf, seq![c2], s2.drop_first());
                assert(seq![c2] + s2.drop_first() =~= s2);
                lemma_scan_one(st, buf, c2);
                lemma_scan_append(State::Default, Seq::<char>::empty(), seq![c2], s2.drop_first());
                lemma_scan_one(State::Default, Seq::<char>::empty(), c2);
                match default_step(Seq::<char>::empty(), c2) {
                    Ok((st1, buf1, em1)) => {
                        match scan(st1, buf1, s2.drop_first()) {
                            Ok((st2, buf2, em2)) => {
                                let num = seq![SpecToken::Num(buf)];
                                assert(em0 + ((num + Seq::<SpecToken>::empty()) + ((em1
                                    + Seq::<SpecToken>::empty()) + em2)) =~= em0 + ((num + em1)
                                    + em2));
                            },
                            Err(_) => {},
                        }
                    },
                    Err(_) => {},
                }
            },
            Err(_) => {},
        }
    }
}

/// Inside a string, every character short of the closing quote is
/// appended to the accumulator verbatim.
proof fn lemma_scan_in_string(buf: Seq<char>, s: Seq<char>)
    requires
        quote_free(s),
    ensures
        scan(State::InString, buf, s) == Ok::<_, LexError>((
            State::InString,
            buf + s,
            Seq::<SpecToken>::empty(),
        )),
    decreases s.len(),
{
    if s.len() == 0 {
        assert(buf + s =~= buf);
    } else {
        assert(s[0] != '"');
        assert(quote_free(s.drop_first()));
        lemma_scan_in_string(buf.push(s[0]), s.drop_first());
        assert(buf.push(s[0]) + s.drop_first() =~= buf + s);
        assert(Seq::<SpecToken>::empty() + Seq::<SpecToken>::empty() =~= Seq::<
            SpecToken,
        >::empty());
    }
}

/// A whole quoted literal, scanned from between tokens, emits exactly
/// one string token holding the text between the quotes.
proof fn lemma_scan_quoted(s: Seq<char>)
    requires
        quote_free(s),
    ensures
        scan(State::Default, Seq::<char>::empty(), seq!['"'] + s + seq!['"']) == Ok::<
            _,
            LexError,
        >((State::Default, Seq::<char>::empty(), seq![SpecToken::Str(s)])),
{
    let q = seq!['"'];
    lemma_scan_append(State::Default, Seq::<char>::empty(), q, s + q);
    assert(q + s + q =~= q + (s + q));
    lemma_scan_one(State::Default, Seq::<char>::empty(), '"');
    lemma_scan_append(State::InString, Seq::<char>::empty(), s, q);
    lemma_scan_in_string(Seq::<char>::empty(), s);
    assert(Seq::<char>::empty() + s =~= s);
    lemma_scan_one(State::InString, s, '"');
    assert(Seq::<SpecToken>::empty() + (Seq::<SpecToken>::empty() + seq![SpecToken::Str(s)]) =~=
        seq![SpecToken::Str(s)]);
}

/// Any text without a quote, wrapped in quotes, tokenizes to exactly
/// one string token carrying that text verbatim.
pub proof fn lemma_quoted_string_tokenizes(s: Seq<char>)
    requires
        quote_free(s),
    ensures
        spec_tokenize(seq!['"'] + s + seq!['"']) == Ok::<Seq<SpecToken>, LexError>(
            seq![SpecToken::Str(s)],
        ),
{
    lemma_scan_quoted(s);
}

/// Every character of `s` is a decimal digit.
pub open spec fn all_digit_chars(s: Seq<char>) -> bool {
    forall|i: int| 0 <= i < s.len() ==> is_digit_char(#[trigger] s[i])
}

/// An optional minus sign, as a (possibly empty) prefix.
pub open spec fn opt_sign(sign: Seq<char>) -> bool {
    sign == Seq::<char>::empty() || sign == seq!['-']
}

/// The integer part of a number literal: a single `0`, or digits that
/// do not start with `0`.
pub open spec fn valid_whole_part(s: Seq<char>) -> bool {
    s == seq!['0'] || (s.len() >= 1 && all_digit_chars(s) && s[0] != '0')
}

/// The fractional part of a number literal: a point followed by at
/// least one digit.
pub open spec fn valid_fraction_part(s: Seq<char>) -> bool {
    s.len() >= 2 && s[0] == '.' && all_digit_chars(s.drop_first())
}

/// `t` splits into an optional sign, a valid integer part, and an
/// optional valid fractional part.
pub open spec fn number_literal_parts(
    t: Seq<char>,
    sign: Seq<char>,
    whole: Seq<char>,
    frac: Seq<char>,
) -> bool {
    &&& t == sign + whole + frac
    &&& opt_sign(sign)
    &&& valid_whole_part(whole)
    &&& (frac == Seq::<char>::empty() || valid_fraction_part(frac))
}

/// The numeric literal grammar the scanner accepts in full: optional
/// `-`, then a single `0` or digits without a leading zero, optionally
/// followed by `.` and one or more digits. No exponent.
pub open spec fn valid_number_literal(t: Seq<char>) -> bool {
    exists|sign: Seq<char>, whole: Seq<char>, frac: Seq<char>|
        number_literal_parts(t, sign, whole, frac)
}

/// While scanning the integer part, a run of digits is appended whole.
proof fn lemma_scan_digits_whole(buf: Seq<char>, ds: Seq<char>)
    requires
        all_digit_chars(ds),
    ensures
        scan(State::NumberWholePart, buf, ds) == Ok::<_, LexError>((
            State::NumberWholePart,
            buf + ds,
            Seq::<SpecToken>::empty(),
        )),
    decreases ds.len(),
{
    if ds.len() == 0 {
        assert(buf + ds =~= buf);
    } else {
        assert(is_digit_char(ds[0]));
        assert(all_digit_chars(ds.drop_first()));
        lemma_scan_digits_whole(buf.push(ds[0]), ds.drop_first());
        assert(buf.push(ds[0]) + ds.drop_first() =~= buf + ds);
        assert(Seq::<SpecToken>::empty() + Seq::<SpecToken>::empty() =~= Seq::<
            SpecToken,
        >::empty());
    }
}

/// While scanning the fractional part, a run of digits is appended
/// whole.
proof fn lemma_scan_digits_fraction(buf: Seq<char>, ds: Seq<char>)
    requires
        all_digit_chars(ds),
    ensures
        scan(State::NumberFractionPart, buf, ds) == Ok::<_, LexError>((
            State::NumberFractionPart,
            buf + ds,
            Seq::<SpecToken>::empty(),
        )),
    decreases ds.len(),
{
    if ds.len() == 0 {
        assert(buf + ds =~= buf);
    } else {
        assert(is_digit_char(ds[0]));
        assert(all_digit_chars(ds.drop_first()));
        lemma_scan_digits_fraction(buf.push(ds[0]), ds.drop_first());
        assert(buf.push(ds[0]) + ds.drop_first() =~= buf + ds);
        assert(Seq::<SpecToken>::empty() + Seq::<SpecToken>::empty() =~= Seq::<
            SpecToken,
        >::empty());
    }
}

/// The state a valid literal leaves the machine in once its last
/// character has been consumed.
spec fn number_end_state(whole: Seq<char>, frac: Seq<char>) -> State {
    if frac.len() > 0 {
        State::NumberFractionPart
    } else if whole == seq!['0'] {
        State::NumberZeroPrefix
    } else {
        State::NumberWholePart
    }
}

/// Scanning the sign and the integer part of a valid literal from
/// between tokens buffers it whole and emits nothing.
proof fn lemma_scan_number_prefix(sign: Seq<char>, whole: Seq<char>)
    requires
        opt_sign(sign),
        valid_whole_part(whole),
    ensures
        scan(State::Default, Seq::<char>::empty(), sign + whole) == Ok::<_, LexError>((
            number_end_state(whole, Seq::<char>::empty()),
            sign + whole,
            Seq::<SpecToken>::empty(),
        )),
{
    let d = whole[0];
    let rest = whole.drop_first();
    assert(is_digit_char(d));
    if sign == seq!['-'] {
        lemma_scan_append(State::Default, Seq::<char>::empty(), sign, whole);
        lemma_scan_one(State::Default, Seq::<char>::empty(), '-');
        assert(Seq::<char>::empty().push('-') =~= sign);
        lemma_scan_append(State::NumberNegativePrefix, sign, seq![d], rest);
        assert(seq![d] + rest =~= whole);
        lemma_scan_one(State::NumberNegativePrefix, sign, d);
        if whole == seq!['0'] {
            assert(rest =~= Seq::<char>::empty());
            assert(sign.push('0') =~= sign + whole);
        } else {
            assert(d != '0');
            assert(all_digit_chars(rest));
            lemma_scan_digits_whole(sign.push(d), rest);
            assert(sign.push(d) + rest =~= sign + whole);
        }
        assert(Seq::<SpecToken>::empty() + (Seq::<SpecToken>::empty() + Seq::<
            SpecToken,
        >::empty()) =~= Seq::<SpecToken>::empty());
    } else {
        assert(sign + whole =~= whole);
        lemma_scan_append(State::Default, Seq::<char>::empty(), seq![d], rest);
        assert(seq![d] + rest =~= whole);
        lemma_scan_one(State::Default, Seq::<char>::empty(), d);
        if whole == seq!['0'] {
            assert(rest =~= Seq::<char>::empty());
            assert(Seq::<char>::empty().push('0') =~= whole);
        } else {
            assert(d != '0');
            assert(all_digit_chars(rest));
            lemma_scan_digits_whole(Seq::<char>::empty().push(d), rest);
            assert(Seq::<char>::empty().push(d) + rest =~= whole);
        }
        assert(Seq::<SpecToken>::empty() + Seq::<SpecToken>::empty() =~= Seq::<
            SpecToken,
        >::empty());
    }
}

/// Scanning a whole valid literal from between tokens buffers it whole,
/// emits nothing, and leaves the machine mid-number.
proof fn lemma_scan_number(sign: Seq<char>, whole: Seq<char>, frac: Seq<char>)
    requires
        opt_sign(sign),
        valid_whole_part(whole),
        frac == Seq::<char>::empty() || valid_fraction_part(frac),
    ensures
        scan(State::Default, Seq::<char>::empty(), sign + whole + frac) == Ok::<_, LexError>((
            number_end_state(whole, frac),
            sign + whole + frac,
            Seq::<SpecToken>::empty(),
        )),
{
    lemma_scan_number_prefix(sign, whole);
    if frac == Seq::<char>::empty() {
        assert(sign + whole + frac =~= sign + whole);
    } else {
        let fd = frac.drop_first();
        lemma_scan_append(State::Default, Seq::<char>::empty(), sign + whole, frac);
        lemma_scan_append(number_end_state(whole, Seq::<char>::empty()), sign + whole, seq!['.'],
            fd);
        assert(seq!['.'] + fd =~= frac);
        lemma_scan_one(number_end_state(whole, Seq::<char>::empty()), sign + whole, '.');
        lemma_scan_digits_fraction((sign + whole).push('.'), fd);
        assert((sign + whole).push('.') + fd =~= sign + whole + frac);
        assert(Seq::<SpecToken>::empty() + (Seq::<SpecToken>::empty() + Seq::<
            SpecToken,
        >::empty()) =~= Seq::<SpecToken>::empty());
    }
}

/// The numeric round trip: the canonical text of any literal of the
/// accepted grammar, followed by a space that ends it, tokenizes to
/// exactly one number token carrying that text.
pub proof fn lemma_number_round_trip(t: Seq<char>)
    requires
        valid_number_literal(t),
    ensures
        spec_tokenize(t + seq![' ']) == Ok::<Seq<SpecToken>, LexError>(seq![SpecToken::Num(t)]),
{
    let (sign, whole, frac) = choose|sign: Seq<char>, whole: Seq<char>, frac: Seq<char>|
        number_literal_parts(t, sign, whole, frac);
    lemma_scan_number(sign, whole, frac);
    lemma_scan_append(State::Default, Seq::<char>::empty(), t, seq![' ']);
    lemma_scan_one(number_end_state(whole, frac), t, ' ');
    assert(seq![SpecToken::Num(t)] + Seq::<SpecToken>::empty() =~= seq![SpecToken::Num(t)]);
    assert(Seq::<SpecToken>::empty() + seq![SpecToken::Num(t)] =~= seq![SpecToken::Num(t)]);
}

/// `t` splits into an optional sign, a valid integer part, and a
/// possibly digitless fractional part. This is the shape of every text
/// the scanner ever emits in a number token; the fraction's digits may
/// be absent (scanning `0. ` emits `0.`), which a floating-point parse
/// still accepts.
pub open spec fn emitted_number_parts(
    t: Seq<char>,
    sign: Seq<char>,
    whole: Seq<char>,
    frac: Seq<char>,
) -> bool {
    &&& t == sign + whole + frac
    &&& opt_sign(sign)
    &&& valid_whole_part(whole)
    &&& (frac == Seq::<char>::empty() || (frac.len() >= 1 && frac[0] == '.' && all_digit_chars(
        frac.drop_first(),
    )))
}

/// The text of a number token, as the scanner emits it: a literal of
/// the accepted grammar whose fractional digits may be missing.
pub open spec fn emitted_number_text(t: Seq<char>) -> bool {
    exists|sign: Seq<char>, whole: Seq<char>, frac: Seq<char>|
        emitted_number_parts(t, sign, whole, frac)
}

/// A token the scanner can emit: string payloads hold no quote, and
/// number payloads parse as floating-point literals.
pub open spec fn wf_token(t: SpecToken) -> bool {
    match t {
        SpecToken::Str(p) => quote_free(p),
        SpecToken::Num(x) => emitted_number_text(x),
        _ => true,
    }
}

/// The integer part of the accumulator while the whole part of a number
/// is being scanned.
spec fn whole_buf_parts(buf: Seq<char>, sign: Seq<char>, whole: Seq<char>) -> bool {
    &&& buf == sign + whole
    &&& opt_sign(sign)
    &&& whole.len() >= 1
    &&& all_digit_chars(whole)
    &&& whole[0] != '0'
}

/// What the accumulator can hold in each state during a scan that
/// started between tokens.
spec fn buf_wf(st: State, buf: Seq<char>) -> bool {
    match st {
        State::Default => buf == Seq::<char>::empty(),
        State::InString => quote_free(buf),
        State::NumberNegativePrefix => buf == seq!['-'],
        State::NumberZeroPrefix => buf == seq!['0'] || buf == seq!['-', '0'],
        State::NumberWholePart => exists|sign: Seq<char>, whole: Seq<char>|
            whole_buf_parts(buf, sign, whole),
        State::NumberFractionPart => exists|sign: Seq<char>, whole: Seq<char>, frac: Seq<char>|
            emitted_number_parts(buf, sign, whole, frac) && frac.len() >= 1,
    }
}

/// One transition from between tokens keeps the accumulator well formed
/// and emits only well-formed tokens.
proof fn lemma_default_step_wf(c: char)
    ensures
        (default_step(Seq::<char>::empty(), c) matches Ok((st2, buf2, em)) ==> buf_wf(st2, buf2)
            && (forall|i: int| 0 <= i < em.len() ==> wf_token(#[trigger] em[i]))),
{
    match default_step(Seq::<char>::empty(), c) {
        Ok((st2, buf2, em)) => {
            if st2 == State::NumberWholePart {
                assert(Seq::<char>::empty() + seq![c] =~= Seq::<char>::empty().push(c));
                assert(whole_buf_parts(buf2, Seq::<char>::empty(), seq![c]));
            }
            if st2 == State::NumberZeroPrefix {
                assert(Seq::<char>::empty().push('0') =~= seq!['0']);
            }
            if st2 == State::NumberNegativePrefix {
                assert(Seq::<char>::empty().push('-') =~= seq!['-']);
            }
        },
        Err(_) => {},
    }
}

/// The number the machine finalizes out of a well-formed accumulator is
/// itself well formed.
proof fn lemma_finalized_number_wf(st: State, buf: Seq<char>)
    requires
        buf_wf(st, buf),
        st == State::NumberZeroPrefix || st == State::NumberWholePart
            || st == State::NumberFractionPart,
    ensures
        emitted_number_text(buf),
{
    match st {
        State::NumberZeroPrefix => {
            if buf == seq!['0'] {
                assert(Seq::<char>::empty() + seq!['0'] + Seq::<char>::empty() =~= buf);
                assert(emitted_number_parts(buf, Seq::<char>::empty(), seq!['0'], Seq::<
                    char,
                >::empty()));
            } else {
                assert(seq!['-'] + seq!['0'] + Seq::<char>::empty() =~= buf);
                assert(emitted_number_parts(buf, seq!['-'], seq!['0'], Seq::<char>::empty()));
            }
        },
        State::NumberWholePart => {
            let (sign, whole) = choose|sign: Seq<char>, whole: Seq<char>|
                whole_buf_parts(buf, sign, whole);
            assert(sign + whole + Seq::<char>::empty() =~= buf);
            assert(emitted_number_parts(buf, sign, whole, Seq::<char>::empty()));
        },
        _ => {},
    }
}

/// Every transition of the machine keeps the accumulator well formed
/// and emits only well-formed tokens.
proof fn lemma_step_wf(st: State, buf: Seq<char>, c: char)
    requires
        buf_wf(st, buf),
    ensures
        (step(st, buf, c) matches Ok((st2, buf2, em)) ==> buf_wf(st2, buf2) && (forall|i: int|
            0 <= i < em.len() ==> wf_token(#[trigger] em[i]))),
{
    match st {
        State::Default => {
            lemma_default_step_wf(c);
        },
        State::InString => {
            if c != '"' {
                assert(quote_free(buf.push(c)));
            }
        },
        State::NumberNegativePrefix => {
            if c == '0' {
                assert(buf.push('0') =~= seq!['-', '0']);
            } else if is_digit_char(c) {
                assert(buf.push(c) =~= seq!['-'] + seq![c]);
                assert(whole_buf_parts(buf.push(c), seq!['-'], seq![c]));
            }
        },
        State::NumberZeroPrefix => {
            if c == '.' {
                if buf == seq!['0'] {
                    assert(Seq::<char>::empty() + seq!['0'] + seq!['.'] =~= buf.push('.'));
                    assert(seq!['.'].drop_first() =~= Seq::<char>::empty());
                    assert(emitted_number_parts(buf.push('.'), Seq::<char>::empty(), seq!['0'],
                        seq!['.']));
                } else {
                    assert(seq!['-'] + seq!['0'] + seq!['.'] =~= buf.push('.'));
                    assert(seq!['.'].drop_first() =~= Seq::<char>::empty());
                    assert(emitted_number_parts(buf.push('.'), seq!['-'], seq!['0'], seq!['.']));
                }
            } else if c == 'e' || c == 'E' {
            } else {
                lemma_finalized_number_wf(st, buf);
                lemma_default_step_wf(c);
            }
        },
        State::NumberWholePart => {
            let (sign, whole) = choose|sign: Seq<char>, whole: Seq<char>|
                whole_buf_parts(buf, sign, whole);
            if is_digit_char(c) {
                assert(buf.push(c) =~= sign + whole.push(c));
                assert(all_digit_chars(whole.push(c)));
                assert(whole_buf_parts(buf.push(c), sign, whole.push(c)));
            } else if c == '.' {
                assert(buf.push('.') =~= sign + whole + seq!['.']);
                assert(seq!['.'].drop_first() =~= Seq::<char>::empty());
                assert(valid_whole_part(whole));
                assert(emitted_number_parts(buf.push('.'), sign, whole, seq!['.']));
            } else if c == 'e' || c == 'E' {
            } else {
                lemma_finalized_number_wf(st, buf);
                lemma_default_step_wf(c);
            }
        },
        State::NumberFractionPart => {
            let (sign, whole, frac) = choose|sign: Seq<char>, whole: Seq<char>, frac: Seq<char>|
                emitted_number_parts(buf, sign, whole, frac) && frac.len() >= 1;
            if is_digit_char(c) {
                assert(buf.push(c) =~= sign + whole + frac.push(c));
                assert(frac.push(c).drop_first() =~= frac.drop_first().push(c));
                assert(all_digit_chars(frac.drop_first().push(c)));
                assert(emitted_number_parts(buf.push(c), sign, whole, frac.push(c)));
            } else if c == 'e' || c == 'E' {
            } else {
                lemma_default_step_wf(c);
            }
        },
    }
}

/// A scan from a well-formed configuration keeps the accumulator well
/// formed and emits only well-formed tokens.
proof fn lemma_scan_wf(st: State, buf: Seq<char>, s: Seq<char>)
    requires
        buf_wf(st, buf),
    ensures
        (scan(st, buf, s) matches Ok((st2, buf2, em)) ==> buf_wf(st2, buf2) && (forall|i: int|
            0 <= i < em.len() ==> wf_token(#[trigger] em[i]))),
    decreases s.len(),
{
    if s.len() > 0 {
        lemma_step_wf(st, buf, s[0]);
        match step(st, buf, s[0]) {
            Ok((st1, buf1, em1)) => {
                lemma_scan_wf(st1, buf1, s.drop_first());
                match scan(st1, buf1, s.drop_first()) {
                    Ok((st2, buf2, em2)) => {
                        assert forall|i: int| 0 <= i < (em1 + em2).len() implies wf_token(
                            #[trigger] (em1 + em2)[i],
                        ) by {
                            if i < em1.len() {
                                assert((em1 + em2)[i] == em1[i]);
                            } else {
                                assert((em1 + em2)[i] == em2[i - em1.len()]);
                            }
                        }
                    },
                    Err(_) => {},
                }
            },
            Err(_) => {},
        }
    }
}

/// Every token a successful scan returns is well formed: a string
/// payload never holds a quote, and a number payload always has the
/// shape of a floating-point literal, so converting it cannot fail.
pub proof fn lemma_tokens_well_formed(s: Seq<char>, toks: Seq<SpecToken>)
    requires
        spec_tokenize(s) == Ok::<Seq<SpecToken>, LexError>(toks),
    ensures
        forall|i: int| 0 <= i < toks.len() ==> wf_token(#[trigger] toks[i]),
{
    lemma_scan_wf(State::Default, Seq::<char>::empty(), s);
}

/// The literal form of a token: the punctuation character itself, the
/// payload re-quoted, or the number's text re-printed.
pub open spec fn print_token(t: SpecToken) -> Seq<char> {
    match t {
        SpecToken::OpenObject => seq!['{'],
        SpecToken::CloseObject => seq!['}'],
        SpecToken::Colon => seq![':'],
        SpecToken::Comma => seq![','],
        SpecToken::OpenArray => seq!['['],
        SpecToken::CloseArray => seq![']'],
        SpecToken::Str(p) => seq!['"'] + p + seq!['"'],
        SpecToken::Num(x) => x,
    }
}

/// The concatenation of the literal forms of a token sequence.
pub open spec fn print_tokens(ts: Seq<SpecToken>) -> Seq<char>
    decreases ts.len(),
{
    if ts.len() == 0 {
        Seq::<char>::empty()
    } else {
        print_token(ts[0]) + print_tokens(ts.drop_first())
    }
}

/// The literal form of one structural or string token scans back to
/// exactly that token, ending between tokens again.
proof fn lemma_scan_printed_token(t: SpecToken)
    requires
        wf_token(t),
        !(t is Num),
    ensures
        scan(State::Default, Seq::<char>::empty(), print_token(t)) == Ok::<_, LexError>((
            State::Default,
            Seq::<char>::empty(),
            seq![t],
        )),
{
    match t {
        SpecToken::OpenObject => {
            lemma_scan_one(State::Default, Seq::<char>::empty(), '{');
        },
        SpecToken::CloseObject => {
            lemma_scan_one(State::Default, Seq::<char>::empty(), '}');
        },
        SpecToken::Colon => {
            lemma_scan_one(State::Default, Seq::<char>::empty(), ':');
        },
        SpecToken::Comma => {
            lemma_scan_one(State::Default, Seq::<char>::empty(), ',');
        },
        SpecToken::OpenArray => {
            lemma_scan_one(State::Default, Seq::<char>::empty(), '[');
        },
        SpecToken::CloseArray => {
            lemma_scan_one(State::Default, Seq::<char>::empty(), ']');
        },
        SpecToken::Str(p) => {
            lemma_scan_quoted(p);
        },
        SpecToken::Num(_) => {},
    }
}

/// The printed form of a sequence of structural and string tokens scans
/// back to exactly that sequence.
proof fn lemma_scan_printed(ts: Seq<SpecToken>)
    requires
        forall|i: int| 0 <= i < ts.len() ==> wf_token(#[trigger] ts[i]) && !(ts[i] is Num),
    ensures
        scan(State::Default, Seq::<char>::empty(), print_tokens(ts)) == Ok::<_, LexError>((
            State::Default,
            Seq::<char>::empty(),
            ts,
        )),
    decreases ts.len(),
{
    if ts.len() == 0 {
        assert(Seq::<SpecToken>::empty() =~= ts);
    } else {
        assert(wf_token(ts[0]) && !(ts[0] is Num));
        lemma_scan_printed_token(ts[0]);
        lemma_scan_append(
            State::Default,
            Seq::<char>::empty(),
            print_token(ts[0]),
            print_tokens(ts.drop_first()),
        );
        lemma_scan_printed(ts.drop_first());
        assert(seq![ts[0]] + ts.drop_first() =~= ts);
    }
}

/// Idempotence: whatever token sequence a scan returned, as long as no
/// number token is among them, re-tokenizing the concatenation of the
/// tokens' literal forms reproduces the very same sequence. (A number's
/// literal form has no terminator of its own, so a number at the end of
/// the print ends the input mid-token, and two adjacent numbers would
/// merge; such sequences are left out.)
pub proof fn lemma_retokenize_printed(s: Seq<char>, toks: Seq<SpecToken>)
    requires
        spec_tokenize(s) == Ok::<Seq<SpecToken>, LexError>(toks),
        forall|i: int| 0 <= i < toks.len() ==> !(#[trigger] toks[i] is Num),
    ensures
        spec_tokenize(print_tokens(toks)) == Ok::<Seq<SpecToken>, LexError>(toks),
{
    lemma_tokens_well_formed(s, toks);
    lemma_scan_printed(toks);
}

} // verus!
