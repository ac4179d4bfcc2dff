use vstd::prelude::*;

verus! {

// ---------------------------------------------------------------------------
// The textual numeral grammar: ASCII digits 0-9, a-z, A-Z under the base,
// underscore separators, and one optional leading plus sign.
// ---------------------------------------------------------------------------
/// The value that an ASCII byte denotes as a digit; 36 where the byte is no
/// digit at all, so that the result is below the base exactly for the digits
/// the base accepts.
pub open spec fn digit_val(b: u8) -> nat {
    if 48 <= b <= 57 {  // '0' ..= '9'
        (b - 48) as nat
    } else if 97 <= b <= 122 {  // 'a' ..= 'z'
        (b - 97 + 10) as nat
    } else if 65 <= b <= 90 {  // 'A' ..= 'Z'
        (b - 65 + 10) as nat
    } else {
        36
    }
}

/// One leading plus sign is accepted, but not a doubled one.
pub open spec fn strip_plus(s: Seq<u8>) -> Seq<u8> {
    if s.len() >= 1 && s[0] == 43 && !(s.len() >= 2 && s[1] == 43) {
        s.skip(1)
    } else {
        s
    }
}

/// Whether a byte is an underscore separator.
pub open spec fn is_separator(b: u8) -> bool {
    b == 95
}

/// The digit bytes of a numeral, with the separators dropped.
pub open spec fn numeral_digits(s: Seq<u8>) -> Seq<u8> {
    s.filter(|b: u8| !is_separator(b))
}

/// Whether s is a well-formed numeral in the given base: after stripping one
/// leading plus it is nonempty, starts with a real digit, and every byte is a
/// separator or a digit below the base.
pub open spec fn valid_numeral(s: Seq<u8>, base: u32) -> bool {
    let t = strip_plus(s);
    &&& t.len() > 0
    &&& !is_separator(t[0])
    &&& forall|i: int| 0 <= i < t.len() ==> is_separator(t[i]) || digit_val(t[i]) < base
}

/// The value of a sequence of digit bytes read in the given base, most
/// significant digit first.
pub open spec fn digits_value(d: Seq<u8>, base: u32) -> nat
    decreases d.len(),
{
    if d.len() == 0 {
        0
    } else {
        digits_value(d.drop_last(), base) * (base as nat) + digit_val(d.last())
    }
}

/// The value that a numeral denotes in the given base.
pub open spec fn numeral_value(s: Seq<u8>, base: u32) -> nat {
    digits_value(numeral_digits(strip_plus(s)), base)
}

// ---------------------------------------------------------------------------
// The canonical decimal rendering of a natural number.
// ---------------------------------------------------------------------------
/// The decimal digit bytes of n: plain digits, no sign, no separators, no
/// leading zero except for the number zero itself.
pub open spec fn dec_bytes(n: nat) -> Seq<u8>
    decreases n,
{
    if n < 10 {
        seq![(48 + n) as u8]
    } else {
        dec_bytes(n / 10).push((48 + n % 10) as u8)
    }
}

/// The decimal rendering as characters, for functions that return text.
pub open spec fn dec_chars(n: nat) -> Seq<char> {
    dec_bytes(n).map_values(|b: u8| b as char)
}

/// Every byte of the decimal rendering is a decimal digit.
pub proof fn lemma_dec_bytes_digits(n: nat)
    ensures
        dec_bytes(n).len() > 0,
        forall|i: int| 0 <= i < dec_bytes(n).len() ==> 48 <= #[trigger] dec_bytes(n)[i] <= 57,
    decreases n,
{
    if n >= 10 {
        lemma_dec_bytes_digits(n / 10);
    }
}

/// Dropping separators from a separator-free sequence changes nothing.
proof fn lemma_digits_of_dec_bytes(n: nat)
    ensures
        numeral_digits(dec_bytes(n)) == dec_bytes(n),
    decreases n,
{
    reveal(Seq::filter);
    if n < 10 {
        assert(dec_bytes(n).drop_last() =~= Seq::<u8>::empty());
        assert(numeral_digits(Seq::<u8>::empty()) =~= Seq::<u8>::empty());
        assert(!is_separator(dec_bytes(n).last()));
        assert(numeral_digits(dec_bytes(n)) == numeral_digits(dec_bytes(n).drop_last()).push(
            dec_bytes(n).last(),
        ));
        assert(numeral_digits(dec_bytes(n).drop_last()) == numeral_digits(Seq::<u8>::empty()));
        assert(numeral_digits(dec_bytes(n)) =~= dec_bytes(n));
    } else {
        lemma_digits_of_dec_bytes(n / 10);
        let d = (48 + n % 10) as u8;
        assert(dec_bytes(n).drop_last() =~= dec_bytes(n / 10));
        assert(dec_bytes(n).last() == d);
        assert(!is_separator(d));
        assert(numeral_digits(dec_bytes(n)) == numeral_digits(dec_bytes(n).drop_last()).push(d));
        assert(numeral_digits(dec_bytes(n).drop_last()) == numeral_digits(dec_bytes(n / 10)));
        assert(numeral_digits(dec_bytes(n)) =~= dec_bytes(n));
    }
}

/// The decimal round trip: the decimal rendering of any natural number is a
/// well-formed base-10 numeral, and reading it back gives the number itself.
pub proof fn lemma_decimal_round_trip(n: nat)
    ensures
        valid_numeral(dec_bytes(n), 10),
        numeral_value(dec_bytes(n), 10) == n,
    decreases n,
{
    lemma_dec_bytes_digits(n);
    assert(strip_plus(dec_bytes(n)) =~= dec_bytes(n));
    lemma_digits_of_dec_bytes(n);
    if n < 10 {
        assert(dec_bytes(n).drop_last() =~= Seq::<u8>::empty());
        assert(digits_value(Seq::<u8>::empty(), 10) == 0);
        assert(digits_value(dec_bytes(n), 10) == n);
    } else {
        lemma_decimal_round_trip(n / 10);
        let d = (48 + n % 10) as u8;
        assert(dec_bytes(n).drop_last() =~= dec_bytes(n / 10));
        assert(dec_bytes(n).last() == d);
        assert(digits_value(dec_bytes(n), 10) == digits_value(dec_bytes(n / 10), 10) * 10
            + digit_val(d));
        lemma_dec_bytes_digits(n / 10);
        assert(strip_plus(dec_bytes(n / 10)) =~= dec_bytes(n / 10));
        lemma_digits_of_dec_bytes(n / 10);
        assert(digits_value(dec_bytes(n / 10), 10) == n / 10);
    }
}

} // verus!
