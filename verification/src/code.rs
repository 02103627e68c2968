//! Codes typed on the numeric keypad, and their parsing.
//!
//! A code is an ordered sequence of numeric keys ending in `Activate`; a
//! well-formed input line is one or more ASCII digits followed by a literal
//! `A`. A code carries the numeral formed by its digit keys: the weight of
//! the code in the final complexity. A malformed line is an error, never
//! skipped, since one garbled code indicates corrupted input.

use vstd::prelude::*;

use crate::keypad::NumPad;

verus! {

/// Why an input line or a key sequence is not a code.
#[derive(Debug, Clone, Copy, PartialEq, Eq, Structural)]
pub enum ParseError {
    /// The line does not end with the `Activate` key `A`.
    MissingActivate,
    /// Something other than an ASCII digit stands before the trailing `A`.
    InvalidCharacter,
    /// No digits stand before the trailing `A`.
    NoDigits,
    /// The numeral before the trailing `A` does not fit in `u64`.
    ValueTooLarge,
}

/// The base-10 numeral a sequence of digit keys spells.
pub open spec fn digits_value(digits: Seq<NumPad>) -> nat
    decreases digits.len(),
{
    if digits.len() == 0 {
        0
    } else {
        digits_value(digits.drop_last()) * 10 + digits.last().digit_spec()
    }
}

/// The numeral embedded in a code: the value of the keys before the final
/// one (the trailing `Activate`). A code with no digits has value 0.
pub open spec fn code_value(keys: Seq<NumPad>) -> nat {
    digits_value(keys.take(keys.len() as int - 1))
}

/// A well-formed code key sequence: non-empty, ending in `Activate`, with
/// `Activate` nowhere else.
pub open spec fn code_keys_wf(keys: Seq<NumPad>) -> bool {
    &&& keys.len() >= 1
    &&& keys.last() == NumPad::A
    &&& forall|i: int| 0 <= i < keys.len() - 1 ==> keys[i] != NumPad::A
}

/// A numeral only grows as digits are appended to its right.
pub proof fn lemma_digits_value_prefix(digits: Seq<NumPad>, n: int)
    requires
        0 <= n <= digits.len(),
    ensures
        digits_value(digits.take(n)) <= digits_value(digits),
    decreases digits.len() - n,
{
    if n < digits.len() {
        assert(digits.take(n + 1).drop_last() =~= digits.take(n));
        assert(digits_value(digits.take(n + 1)) == digits_value(digits.take(n)) * 10
            + digits.take(n + 1).last().digit_spec());
        lemma_digits_value_prefix(digits, n + 1);
        assert(digits.take(digits.len() as int) =~= digits);
    } else {
        assert(digits.take(n) =~= digits);
    }
}

/// One code: numeric keys ending in `Activate`, together with its embedded
/// numeral.
pub struct Code {
    keys: Vec<NumPad>,
    value: u64,
}

impl View for Code {
    type V = Seq<NumPad>;

    closed spec fn view(&self) -> Seq<NumPad> {
        self.keys@
    }
}

impl Code {
    /// The keys are a well-formed code and the stored numeral is theirs.
    pub closed spec fn wf(self) -> bool {
        code_keys_wf(self@) && self.value == code_value(self@)
    }

    /// A well-formed code's keys are a well-formed code sequence.
    pub proof fn lemma_wf_keys(&self)
        requires
            self.wf(),
        ensures
            code_keys_wf(self@),
            code_value(self@) <= u64::MAX,
    {
    }

    /// The numeral embedded in the code.
    pub fn value(&self) -> (v: u64)
        requires
            self.wf(),
        ensures
            v as nat == code_value(self@),
    {
        self.value
    }

    /// The code's keys, the trailing `Activate` included.
    pub fn keys(&self) -> (keys: &Vec<NumPad>)
        ensures
            keys@ == self@,
    {
        &self.keys
    }

    /// Make a code from keys. The sequence must end in `Activate`, carry
    /// `Activate` nowhere else, and spell a numeral that fits in `u64`; a
    /// code of just `A` is allowed and has value 0.
    pub fn from_keys(keys: Vec<NumPad>) -> (r: Result<Code, ParseError>)
        ensures
            ({
                if keys@.len() == 0 || keys@.last() != NumPad::A {
                    r == Err::<Code, ParseError>(ParseError::MissingActivate)
                } else if exists|i: int| 0 <= i < keys@.len() - 1 && keys@[i] == NumPad::A {
                    r == Err::<Code, ParseError>(ParseError::InvalidCharacter)
                } else if code_value(keys@) > u64::MAX {
                    r == Err::<Code, ParseError>(ParseError::ValueTooLarge)
                } else {
                    r is Ok && r.unwrap().wf() && r.unwrap()@ == keys@
                }
            }),
    {
        if keys.len() == 0 {
            return Err(ParseError::MissingActivate);
        }
        let last = keys[keys.len() - 1];
        if !matches!(last, NumPad::A) {
            return Err(ParseError::MissingActivate);
        }
        let digit_count = keys.len() - 1;
        let mut i: usize = 0;
        while i < digit_count
            invariant
                digit_count == keys@.len() - 1,
                keys@.len() >= 1,
                keys@.last() == NumPad::A,
                i <= digit_count,
                forall|j: int| 0 <= j < i ==> keys@[j] != NumPad::A,
            decreases digit_count - i,
        {
            if matches!(keys[i], NumPad::A) {
                proof {
                    assert(i < keys@.len() - 1 && keys@[i as int] == NumPad::A);
                }
                return Err(ParseError::InvalidCharacter);
            }
            i = i + 1;
        }
        let mut value: u64 = 0;
        let mut i: usize = 0;
        while i < digit_count
            invariant
                digit_count == keys@.len() - 1,
                keys@.len() >= 1,
                keys@.last() == NumPad::A,
                forall|j: int| 0 <= j < keys@.len() - 1 ==> keys@[j] != NumPad::A,
                i <= digit_count,
                value as nat == digits_value(keys@.take(keys@.len() - 1).take(i as int)),
            decreases digit_count - i,
        {
            let ghost digits = keys@.take(keys@.len() - 1);
            proof {
                assert(digits.take(i as int + 1).drop_last() =~= digits.take(i as int));
                assert(digits.take(i as int + 1).last() == keys@[i as int]);
            }
            let d = keys[i].digit();
            let scaled = match value.checked_mul(10) {
                Some(v) => v,
                None => {
                    proof {
                        lemma_digits_value_prefix(digits, i as int + 1);
                    }
                    return Err(ParseError::ValueTooLarge);
                },
            };
            value = match scaled.checked_add(d) {
                Some(v) => v,
                None => {
                    proof {
                        lemma_digits_value_prefix(digits, i as int + 1);
                    }
                    return Err(ParseError::ValueTooLarge);
                },
            };
            i = i + 1;
        }
        proof {
            assert(keys@.take(keys@.len() - 1).take(digit_count as int) =~= keys@.take(
                keys@.len() - 1,
            ));
        }
        Ok(Code { keys, value })
    }
}

/// Whether byte `b` is an ASCII digit.
pub open spec fn is_digit_byte(b: u8) -> bool {
    48 <= b <= 57
}

/// The numeric key an ASCII digit byte names.
pub open spec fn key_of_digit(b: u8) -> NumPad {
    if b == 48 {
        NumPad::D0
    } else if b == 49 {
        NumPad::D1
    } else if b == 50 {
        NumPad::D2
    } else if b == 51 {
        NumPad::D3
    } else if b == 52 {
        NumPad::D4
    } else if b == 53 {
        NumPad::D5
    } else if b == 54 {
        NumPad::D6
    } else if b == 55 {
        NumPad::D7
    } else if b == 56 {
        NumPad::D8
    } else {
        NumPad::D9
    }
}

/// The keys a well-shaped line spells: one key per digit byte, then the
/// trailing `Activate`.
pub open spec fn line_keys(line: Seq<u8>) -> Seq<NumPad> {
    line.take(line.len() as int - 1).map_values(|b: u8| key_of_digit(b)).push(NumPad::A)
}

/// What parsing one input line yields: the line must be one or more ASCII
/// digits followed by the byte `A` (65), and its numeral must fit in `u64`.
pub open spec fn parse_line_spec(line: Seq<u8>) -> Result<Seq<NumPad>, ParseError> {
    if line.len() == 0 || line.last() != 65 {
        Err(ParseError::MissingActivate)
    } else if exists|i: int| 0 <= i < line.len() - 1 && !is_digit_byte(line[i]) {
        Err(ParseError::InvalidCharacter)
    } else if line.len() == 1 {
        Err(ParseError::NoDigits)
    } else if code_value(line_keys(line)) > u64::MAX {
        Err(ParseError::ValueTooLarge)
    } else {
        Ok(line_keys(line))
    }
}

/// The numeric key named by the ASCII digit byte `b`.
fn digit_key(b: u8) -> (k: NumPad)
    requires
        is_digit_byte(b),
    ensures
        k == key_of_digit(b),
{
    if b == 48 {
        NumPad::D0
    } else if b == 49 {
        NumPad::D1
    } else if b == 50 {
        NumPad::D2
    } else if b == 51 {
        NumPad::D3
    } else if b == 52 {
        NumPad::D4
    } else if b == 53 {
        NumPad::D5
    } else if b == 54 {
        NumPad::D6
    } else if b == 55 {
        NumPad::D7
    } else if b == 56 {
        NumPad::D8
    } else {
        NumPad::D9
    }
}

/// Parse one input line into a code, exactly as [`parse_line_spec`] says.
pub fn parse_line(line: &[u8]) -> (r: Result<Code, ParseError>)
    ensures
        match parse_line_spec(line@) {
            Ok(keys) => r is Ok && r.unwrap().wf() && r.unwrap()@ == keys,
            Err(e) => r == Err::<Code, ParseError>(e),
        },
{
    let n = line.len();
    if n == 0 {
        return Err(ParseError::MissingActivate);
    }
    if line[n - 1] != 65 {
        return Err(ParseError::MissingActivate);
    }
    let mut keys: Vec<NumPad> = Vec::new();
    let mut i: usize = 0;
    while i < n - 1
        invariant
            n == line@.len(),
            n >= 1,
            line@.last() == 65,
            i <= n - 1,
            forall|j: int| 0 <= j < i ==> is_digit_byte(line@[j]),
            keys@ =~= line@.take(i as int).map_values(|b: u8| key_of_digit(b)),
        decreases n - 1 - i,
    {
        let b = line[i];
        if b < 48 || b > 57 {
            proof {
                assert(i < line@.len() - 1 && !is_digit_byte(line@[i as int]));
            }
            return Err(ParseError::InvalidCharacter);
        }
        keys.push(digit_key(b));
        proof {
            assert(keys@ =~= line@.take(i as int + 1).map_values(|b: u8| key_of_digit(b)));
        }
        i = i + 1;
    }
    if n == 1 {
        return Err(ParseError::NoDigits);
    }
    keys.push(NumPad::A);
    proof {
        assert(keys@ =~= line_keys(line@));
        assert(keys@.last() == NumPad::A);
        assert forall|j: int| 0 <= j < keys@.len() - 1 implies keys@[j] != NumPad::A by {
            assert(is_digit_byte(line@[j]));
            assert(keys@[j] == key_of_digit(line@[j]));
        }
    }
    Code::from_keys(keys)
}

/// Index of the first newline byte in `s`, or `s.len()` when there is
/// none.
pub open spec fn first_newline(s: Seq<u8>) -> int
    decreases s.len(),
{
    if s.len() == 0 {
        0
    } else if s[0] == 10 {
        0
    } else {
        1 + first_newline(s.skip(1))
    }
}

/// The first newline index is within the text, sits on a newline byte, and
/// nothing before it is one.
pub proof fn lemma_first_newline(s: Seq<u8>)
    ensures
        0 <= first_newline(s) <= s.len(),
        first_newline(s) < s.len() ==> s[first_newline(s)] == 10,
        forall|j: int| 0 <= j < first_newline(s) ==> s[j] != 10,
    decreases s.len(),
{
    if s.len() > 0 && s[0] != 10 {
        lemma_first_newline(s.skip(1));
        assert(first_newline(s) < s.len() ==> s[first_newline(s)] == s.skip(1)[first_newline(
            s.skip(1),
        )]);
        assert forall|j: int| 0 <= j < first_newline(s) implies s[j] != 10 by {
            if j > 0 {
                assert(s.skip(1)[j - 1] == s[j]);
            }
        }
    }
}

/// A position with no newline before it, that is past the end or on a
/// newline, is the first newline index.
pub proof fn lemma_first_newline_at(s: Seq<u8>, k: int)
    requires
        0 <= k <= s.len(),
        forall|j: int| 0 <= j < k ==> s[j] != 10,
        k < s.len() ==> s[k] == 10,
    ensures
        first_newline(s) == k,
    decreases s.len(),
{
    if s.len() == 0 {
    } else if s[0] == 10 {
        assert(k == 0);
    } else {
        assert(k >= 1);
        assert forall|j: int| 0 <= j < k - 1 implies s.skip(1)[j] != 10 by {
            assert(s.skip(1)[j] == s[j + 1]);
        }
        assert(k - 1 < s.skip(1).len() ==> s.skip(1)[k - 1] == s[k]);
        lemma_first_newline_at(s.skip(1), k - 1);
    }
}

/// The lines of a text: the pieces between newline bytes. A final newline
/// closes the last line; without one, the trailing piece is a line of its
/// own.
pub open spec fn split_lines(s: Seq<u8>) -> Seq<Seq<u8>>
    decreases s.len(),
    via split_lines_decreases
{
    if s.len() == 0 {
        Seq::empty()
    } else {
        let i = first_newline(s);
        if i == s.len() {
            seq![s]
        } else {
            seq![s.take(i)] + split_lines(s.skip(i + 1))
        }
    }
}

#[via_fn]
proof fn split_lines_decreases(s: Seq<u8>) {
    lemma_first_newline(s);
}

/// What parsing a sequence of lines yields: the keys of every line in
/// order, or the first line's error. A single garbled line aborts the
/// batch.
pub open spec fn parse_lines_spec(lines: Seq<Seq<u8>>) -> Result<Seq<Seq<NumPad>>, ParseError>
    decreases lines.len(),
{
    if lines.len() == 0 {
        Ok(Seq::empty())
    } else {
        match parse_line_spec(lines[0]) {
            Err(e) => Err(e),
            Ok(keys) => match parse_lines_spec(lines.skip(1)) {
                Err(e) => Err(e),
                Ok(rest) => Ok(seq![keys] + rest),
            },
        }
    }
}

/// What parsing a whole input batch yields: one code per newline-separated
/// line.
pub open spec fn parse_input_spec(s: Seq<u8>) -> Result<Seq<Seq<NumPad>>, ParseError> {
    parse_lines_spec(split_lines(s))
}

/// The key sequences of a sequence of codes.
pub open spec fn code_views(codes: Seq<Code>) -> Seq<Seq<NumPad>> {
    codes.map_values(|c: Code| c@)
}

/// Parse an input batch, one code per line, exactly as
/// [`parse_input_spec`] says: all codes in order, or the first error.
pub fn parse_input(input: &[u8]) -> (r: Result<Vec<Code>, ParseError>)
    ensures
        match parse_input_spec(input@) {
            Ok(keyss) => {
                &&& r is Ok
                &&& r.unwrap()@.len() == keyss.len()
                &&& forall|i: int|
                    0 <= i < keyss.len() ==> (#[trigger] r.unwrap()@[i]).wf()
                        && r.unwrap()@[i]@ == keyss[i]
            },
            Err(e) => r == Err::<Vec<Code>, ParseError>(e),
        },
{
    let n = input.len();
    let mut codes: Vec<Code> = Vec::new();
    let mut pos: usize = 0;
    proof {
        assert(input@.skip(0) =~= input@);
        assert(code_views(codes@) + Seq::<Seq<NumPad>>::empty() =~= code_views(codes@));
        assert(code_views(codes@) =~= Seq::<Seq<NumPad>>::empty());
    }
    while pos < n
        invariant
            n == input@.len(),
            pos <= n,
            forall|i: int| 0 <= i < codes@.len() ==> (#[trigger] codes@[i]).wf(),
            parse_lines_spec(split_lines(input@)) == (match parse_lines_spec(
                split_lines(input@.skip(pos as int)),
            ) {
                Ok(rest) => Ok::<Seq<Seq<NumPad>>, ParseError>(code_views(codes@) + rest),
                Err(e) => Err::<Seq<Seq<NumPad>>, ParseError>(e),
            }),
        decreases n - pos,
    {
        let ghost rem = input@.skip(pos as int);
        let mut end: usize = pos;
        while end < n && input[end] != 10
            invariant
                n == input@.len(),
                pos <= end <= n,
                forall|j: int| pos <= j < end ==> input@[j] != 10,
            decreases n - end,
        {
            end = end + 1;
        }
        proof {
            assert forall|j: int| 0 <= j < end - pos implies rem[j] != 10 by {
                assert(rem[j] == input@[j + pos]);
            }
            assert(end - pos < rem.len() ==> rem[end - pos] == input@[end as int]);
            lemma_first_newline_at(rem, end as int - pos as int);
        }
        let mut lineb: Vec<u8> = Vec::new();
        let mut j: usize = pos;
        while j < end
            invariant
                n == input@.len(),
                pos <= j <= end <= n,
                lineb@ =~= input@.subrange(pos as int, j as int),
            decreases end - j,
        {
            lineb.push(input[j]);
            j = j + 1;
        }
        proof {
            assert(lineb@ =~= rem.take(end as int - pos as int));
        }
        let parsed = parse_line(lineb.as_slice());
        if end == n {
            proof {
                assert(rem.take(end as int - pos as int) =~= rem);
                assert(split_lines(rem) == seq![rem]);
                assert(seq![rem][0] == rem);
                assert(seq![rem].skip(1) =~= Seq::<Seq<u8>>::empty());
            }
            match parsed {
                Err(e) => {
                    return Err(e);
                },
                Ok(c) => {
                    let ghost keys = c@;
                    let ghost views_old = code_views(codes@);
                    codes.push(c);
                    proof {
                        reveal_with_fuel(parse_lines_spec, 3);
                        assert(parse_lines_spec(split_lines(rem)) == Ok::<
                            Seq<Seq<NumPad>>,
                            ParseError,
                        >(seq![keys] + Seq::<Seq<NumPad>>::empty()));
                        assert(code_views(codes@) =~= views_old + seq![keys]);
                        assert(views_old + (seq![keys] + Seq::<Seq<NumPad>>::empty()) =~= code_views(
                            codes@,
                        ));
                        assert(input@.skip(n as int) =~= Seq::<u8>::empty());
                        assert(split_lines(Seq::<u8>::empty()) =~= Seq::<Seq<u8>>::empty());
                        assert(code_views(codes@) + Seq::<Seq<NumPad>>::empty() =~= code_views(
                            codes@,
                        ));
                    }
                    pos = n;
                },
            }
        } else {
            proof {
                assert(split_lines(rem) == seq![rem.take(end as int - pos as int)] + split_lines(
                    rem.skip(end as int - pos as int + 1),
                ));
                assert(rem.skip(end as int - pos as int + 1) =~= input@.skip(end as int + 1));
                assert((seq![rem.take(end as int - pos as int)] + split_lines(
                    input@.skip(end as int + 1),
                ))[0] == rem.take(end as int - pos as int));
                assert((seq![rem.take(end as int - pos as int)] + split_lines(
                    input@.skip(end as int + 1),
                )).skip(1) =~= split_lines(input@.skip(end as int + 1)));
            }
            match parsed {
                Err(e) => {
                    return Err(e);
                },
                Ok(c) => {
                    let ghost keys = c@;
                    let ghost views_old = code_views(codes@);
                    codes.push(c);
                    proof {
                        reveal_with_fuel(parse_lines_spec, 3);
                        assert(code_views(codes@) =~= views_old + seq![keys]);
                        match parse_lines_spec(split_lines(input@.skip(end as int + 1))) {
                            Ok(rest) => {
                                assert(views_old + (seq![keys] + rest) =~= (views_old + seq![keys])
                                    + rest);
                            },
                            Err(e) => {},
                        }
                    }
                    pos = end + 1;
                },
            }
        }
    }
    proof {
        assert(input@.skip(pos as int) =~= Seq::<u8>::empty());
        assert(code_views(codes@) + Seq::<Seq<NumPad>>::empty() =~= code_views(codes@));
    }
    Ok(codes)
}

} // verus!
