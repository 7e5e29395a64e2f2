//! Note identifiers and how they are read from text.

use vstd::prelude::*;

verus! {

/// The identifier of a note: a number that the store hands out.
#[derive(Clone, Copy, Debug, PartialEq, Eq, Structural)]
pub struct NoteId(pub u64);

/// The byte of the plus sign.
const PLUS: u8 = 43;

/// The byte of the digit zero.
const DIGIT_ZERO: u8 = 48;

/// The byte of the digit nine.
const DIGIT_NINE: u8 = 57;

/// Whether `c` is one of the ten decimal digits.
pub open spec fn is_digit(c: char) -> bool {
    '0' <= c && c <= '9'
}

/// The number that the decimal digit `c` stands for.
pub open spec fn digit_value(c: char) -> nat {
    (c as nat - '0' as nat) as nat
}

/// The number that a sequence of decimal digits denotes, most significant
/// digit first. The empty sequence denotes zero.
pub open spec fn decimal_value(digits: Seq<char>) -> nat
    decreases digits.len(),
{
    if digits.len() == 0 {
        0
    } else {
        10 * decimal_value(digits.drop_last()) + digit_value(digits.last())
    }
}

/// Whether every element of `digits` is a decimal digit.
pub open spec fn all_digits(digits: Seq<char>) -> bool {
    forall|i: int| 0 <= i < digits.len() ==> is_digit(#[trigger] digits[i])
}

/// The text without one leading plus sign, if it has one.
pub open spec fn unsigned_part(text: Seq<char>) -> Seq<char> {
    if text.len() > 0 && text[0] == '+' {
        text.drop_first()
    } else {
        text
    }
}

/// The identifier that `text` denotes, if any: an optional plus sign, then at
/// least one decimal digit and nothing else, denoting a number that fits in
/// 64 bits.
pub open spec fn parsed_id(text: Seq<char>) -> Option<NoteId> {
    let digits = unsigned_part(text);
    if digits.len() > 0 && all_digits(digits) && decimal_value(digits) <= u64::MAX {
        Some(NoteId(decimal_value(digits) as u64))
    } else {
        None
    }
}

/// A prefix of a digit sequence denotes no more than the whole sequence.
pub proof fn lemma_prefix_value_le(digits: Seq<char>, k: int)
    requires
        0 <= k <= digits.len(),
    ensures
        decimal_value(digits.take(k)) <= decimal_value(digits),
    decreases digits.len(),
{
    if k == digits.len() {
        assert(digits.take(k) =~= digits);
    } else {
        lemma_prefix_value_le(digits.drop_last(), k);
        assert(digits.drop_last().take(k) =~= digits.take(k));
    }
}

/// Appending one digit multiplies the value by ten and adds the digit.
pub proof fn lemma_value_step(digits: Seq<char>, k: int)
    requires
        0 <= k < digits.len(),
    ensures
        decimal_value(digits.take(k + 1)) == 10 * decimal_value(digits.take(k)) + digit_value(
            digits[k],
        ),
{
    assert(digits.take(k + 1).drop_last() =~= digits.take(k));
}

impl std::str::FromStr for NoteId {
    type Err = ();

    /// Reads an identifier from a piece of text, such as a path segment.
    /// Fails unless the text is a decimal number that fits in 64 bits, with
    /// an optional leading plus sign.
    fn from_str(s: &str) -> (r: Result<NoteId, ()>)
        ensures
            r == match parsed_id(s@) {
                Some(id) => Ok::<NoteId, ()>(id),
                None => Err(()),
            },
    {
        if !s.is_ascii() {
            // A character outside ASCII is neither a digit nor the sign.
            proof {
                let text = s@;
                let i = choose|i: int|
                    0 <= i < text.len() && !('\0' <= #[trigger] text[i] && text[i] <= '\u{7f}');
                if i > 0 || !(text[0] == '+') {
                    let digits = unsigned_part(text);
                    let j = if text[0] == '+' { i - 1 } else { i };
                    assert(!is_digit(digits[j]));
                }
            }
            return Err(());
        }
        // From here on every character is one byte.
        let bytes = s.as_bytes();
        proof {
            vstd::string::is_ascii_spec_bytes(s);
        }
        let n = bytes.len();
        let start: usize = if n > 0 && bytes[0] == PLUS { 1 } else { 0 };
        let ghost digits = unsigned_part(s@);
        assert(digits =~= s@.skip(start as int));
        if start == n {
            return Err(());
        }
        let mut i: usize = start;
        let mut value: u64 = 0;
        assert(digits.take(0) =~= Seq::<char>::empty());
        while i < n
            invariant
                start <= i <= n,
                n == s@.len(),
                bytes@.len() == n,
                vstd::utf8::is_ascii_chars(s@),
                forall|k: int| 0 <= k < n ==> s@[k] as u8 == #[trigger] bytes@[k],
                digits == s@.skip(start as int),
                digits == unsigned_part(s@),
                all_digits(digits.take(i - start)),
                value == decimal_value(digits.take(i - start)),
            decreases n - i,
        {
            let b = bytes[i];
            let ghost c = s@[i as int];
            assert(c == digits[i - start]);
            if b < DIGIT_ZERO || b > DIGIT_NINE {
                assert(!is_digit(digits[i - start]));
                return Err(());
            }
            let d: u64 = (b - DIGIT_ZERO) as u64;
            // The digits read so far denote no more than all of them, so a
            // value that does not fit now will not fit later.
            proof {
                lemma_value_step(digits, i - start);
                lemma_prefix_value_le(digits, i - start + 1);
            }
            let scaled = match value.checked_mul(10) {
                Some(v) => v,
                None => { return Err(()); },
            };
            value = match scaled.checked_add(d) {
                Some(v) => v,
                None => { return Err(()); },
            };
            assert forall|k: int| 0 <= k < i - start + 1 implies is_digit(
                #[trigger] digits.take(i - start + 1)[k],
            ) by {
                if k < i - start {
                    assert(digits.take(i - start)[k] == digits[k]);
                }
            }
            i += 1;
        }
        assert(digits.take(i - start) =~= digits);
        Ok(NoteId(value))
    }
}

} // verus!
