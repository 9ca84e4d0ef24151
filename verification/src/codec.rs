//! Conversion between the wire alphabet and native strings and integers.
//!
//! On the wire every character is one of the 94 printable ASCII characters with
//! codes 33 to 126. An integer is a big-endian base-94 numeral whose digit of
//! value `d` is the character with code `33 + d`. A string is enciphered
//! character by character: the wire character with code `33 + i` stands for the
//! symbol at position `i` of the alphabet
//! `a`-`z`, `A`-`Z`, `0`-`9`, `!` to `/`, `:` to `@`, `[` to `` ` ``, `|`, `~`,
//! space, newline.

use vstd::prelude::*;
use vstd::arithmetic::div_mod::*;
use crate::ast::{Value, ValueView};
use crate::error::InvalidDigit;

verus! {

/// `String::push` appends the given character to the end of the string.
pub assume_specification[ String::push ](s: &mut String, ch: char)
    ensures
        final(s)@ == old(s)@.push(ch),
;

/// Whether `c` is one of the 94 wire characters.
pub open spec fn is_digit(c: char) -> bool {
    33 <= c as int <= 126
}

/// The value of a wire character as a base-94 digit.
pub open spec fn digit_value(c: char) -> int {
    c as int - 33
}

/// The wire character that stands for the digit `d`.
pub open spec fn digit_char(d: int) -> char {
    (d + 33) as char
}

/// The symbol at position `i` of the alphabet.
pub open spec fn symbol_at(i: int) -> char {
    if 0 <= i < 26 {
        ('a' as int + i) as char
    } else if 26 <= i < 52 {
        ('A' as int + (i - 26)) as char
    } else if 52 <= i < 62 {
        ('0' as int + (i - 52)) as char
    } else if 62 <= i < 77 {
        ('!' as int + (i - 62)) as char
    } else if 77 <= i < 84 {
        (':' as int + (i - 77)) as char
    } else if 84 <= i < 90 {
        ('[' as int + (i - 84)) as char
    } else if i == 90 {
        '|'
    } else if i == 91 {
        '~'
    } else if i == 92 {
        ' '
    } else {
        '\n'
    }
}

/// The alphabet as a sequence of its 94 symbols.
pub open spec fn alphabet() -> Seq<char> {
    Seq::new(94, |i: int| symbol_at(i))
}

/// The position of `c` in the alphabet, if it is one of its symbols.
pub open spec fn position_of(c: char) -> Option<int> {
    if 'a' <= c <= 'z' {
        Some(c as int - 'a' as int)
    } else if 'A' <= c <= 'Z' {
        Some(c as int - 'A' as int + 26)
    } else if '0' <= c <= '9' {
        Some(c as int - '0' as int + 52)
    } else if '!' <= c <= '/' {
        Some(c as int - '!' as int + 62)
    } else if ':' <= c <= '@' {
        Some(c as int - ':' as int + 77)
    } else if '[' <= c <= '`' {
        Some(c as int - '[' as int + 84)
    } else if c == '|' {
        Some(90)
    } else if c == '~' {
        Some(91)
    } else if c == ' ' {
        Some(92)
    } else if c == '\n' {
        Some(93)
    } else {
        None
    }
}

/// Whether `c` is a symbol of the alphabet.
pub open spec fn in_alphabet(c: char) -> bool {
    position_of(c) is Some
}

/// The symbol a wire character stands for; any other character stands for itself.
pub open spec fn decode_char(c: char) -> char {
    if is_digit(c) {
        symbol_at(digit_value(c))
    } else {
        c
    }
}

/// The wire character that stands for a symbol; any other character stands for itself.
pub open spec fn encode_char(c: char) -> char {
    match position_of(c) {
        Some(i) => digit_char(i),
        None => c,
    }
}

/// The text a wire string stands for: each character deciphered on its own.
pub open spec fn decode_text(s: Seq<char>) -> Seq<char> {
    s.map_values(|c: char| decode_char(c))
}

/// The wire string that stands for a text: each character enciphered on its own.
pub open spec fn encode_text(s: Seq<char>) -> Seq<char> {
    s.map_values(|c: char| encode_char(c))
}

/// Whether every character of `s` is a wire character.
pub open spec fn all_digits(s: Seq<char>) -> bool {
    forall|i: int| 0 <= i < s.len() ==> is_digit(#[trigger] s[i])
}

/// Whether every character of `s` is a symbol of the alphabet.
pub open spec fn all_in_alphabet(s: Seq<char>) -> bool {
    forall|i: int| 0 <= i < s.len() ==> in_alphabet(#[trigger] s[i])
}

/// The number a sequence of digits denotes, most significant digit first.
pub open spec fn numeral_value(s: Seq<char>) -> int
    decreases s.len(),
{
    if s.len() == 0 {
        0
    } else {
        numeral_value(s.drop_last()) * 94 + digit_value(s.last())
    }
}

/// The digits of a positive number, most significant first; no digits for any other number.
pub open spec fn numeral_digits(n: int) -> Seq<char>
    decreases n,
{
    if n <= 0 {
        Seq::empty()
    } else {
        numeral_digits(n / 94).push(digit_char(n % 94))
    }
}

/// The numeral of `n`: the single digit of value 0 for zero, the digits of a
/// positive number, and nothing for a negative number, which has no numeral.
pub open spec fn encode_integer(n: int) -> Seq<char> {
    if n == 0 {
        seq![digit_char(0)]
    } else {
        numeral_digits(n)
    }
}

/// The 64-bit two's complement integer congruent to `v` modulo 2^64.
pub open spec fn wrap_i64(v: int) -> int {
    let m = v % 0x1_0000_0000_0000_0000;
    if m >= 0x8000_0000_0000_0000 {
        m - 0x1_0000_0000_0000_0000
    } else {
        m
    }
}

/// The number of digits that `s` begins with.
pub open spec fn leading_digits(s: Seq<char>) -> nat
    decreases s.len(),
{
    if s.len() == 0 || !is_digit(s[0]) {
        0
    } else {
        1 + leading_digits(s.drop_first())
    }
}

/// What decoding a numeral yields: the numeral's value reduced to 64 bits,
/// or, if some character is not a digit, the first such character.
pub open spec fn decode_integer(s: Seq<char>) -> Result<int, InvalidDigit> {
    if all_digits(s) {
        Ok(wrap_i64(numeral_value(s)))
    } else {
        Err(InvalidDigit(s[leading_digits(s) as int]))
    }
}

/// A character that is not a digit and has only digits before it is where
/// the leading digits end.
pub proof fn lemma_leading_digits(s: Seq<char>, i: int)
    requires
        0 <= i < s.len(),
        all_digits(s.take(i)),
        !is_digit(s[i]),
    ensures
        leading_digits(s) == i,
    decreases i,
{
    if i > 0 {
        assert(s.take(i)[0] == s[0]);
        assert forall|j: int| 0 <= j < i - 1 implies is_digit(
            #[trigger] s.drop_first().take(i - 1)[j],
        ) by {
            assert(s.take(i)[j + 1] == s[j + 1]);
        }
        lemma_leading_digits(s.drop_first(), i - 1);
    }
}

/// A value that already fits in 64 bits is left alone by the reduction.
pub proof fn lemma_wrap_in_range(v: int)
    requires
        i64::MIN <= v <= i64::MAX,
    ensures
        wrap_i64(v) == v,
{
    if v >= 0 {
        lemma_small_mod(v as nat, 0x1_0000_0000_0000_0000);
    } else {
        lemma_small_mod((v + 0x1_0000_0000_0000_0000) as nat, 0x1_0000_0000_0000_0000);
        lemma_mod_add_multiples_vanish(v, 0x1_0000_0000_0000_0000);
    }
}

/// The reduction always lands in the 64-bit range and is congruent to its argument.
pub proof fn lemma_wrap_congruent(v: int)
    ensures
        i64::MIN <= wrap_i64(v) <= i64::MAX,
        wrap_i64(v) % 0x1_0000_0000_0000_0000 == v % 0x1_0000_0000_0000_0000,
{
    let m = v % 0x1_0000_0000_0000_0000;
    lemma_mod_bound(v, 0x1_0000_0000_0000_0000);
    lemma_mod_twice(v, 0x1_0000_0000_0000_0000);
    if m >= 0x8000_0000_0000_0000 {
        lemma_mod_sub_multiples_vanish(m, 0x1_0000_0000_0000_0000);
    }
}

/// Reducing an operand first does not change the reduced sum.
pub proof fn lemma_wrap_add(a: int, b: int)
    ensures
        wrap_i64(wrap_i64(a) + b) == wrap_i64(a + b),
{
    lemma_wrap_congruent(a);
    lemma_add_mod_noop(wrap_i64(a), b, 0x1_0000_0000_0000_0000);
    lemma_add_mod_noop(a, b, 0x1_0000_0000_0000_0000);
}

/// Reducing an operand first does not change the reduced product.
pub proof fn lemma_wrap_mul(a: int, b: int)
    ensures
        wrap_i64(wrap_i64(a) * b) == wrap_i64(a * b),
{
    lemma_wrap_congruent(a);
    lemma_mul_mod_noop_general(wrap_i64(a), b, 0x1_0000_0000_0000_0000);
    lemma_mul_mod_noop_general(a, b, 0x1_0000_0000_0000_0000);
}

/// The alphabet and the positions are inverse to each other: the symbol at
/// position `i` has position `i`, and a character has a position exactly if
/// it occurs in the alphabet, where it occurs once, at that position.
pub proof fn lemma_alphabet_positions()
    ensures
        forall|i: int| 0 <= i < 94 ==> position_of(#[trigger] symbol_at(i)) == Some(i),
        forall|c: char|
            position_of(c) is Some ==> 0 <= position_of(c)->0 < 94 && symbol_at(
                position_of(c)->0,
            ) == c,
        forall|c: char| in_alphabet(c) <==> alphabet().contains(c),
        alphabet().no_duplicates(),
{
    assert forall|c: char| in_alphabet(c) implies alphabet().contains(c) by {
        assert(alphabet()[position_of(c)->0] == c);
    }
    assert forall|c: char| alphabet().contains(c) implies in_alphabet(c) by {
        let i = choose|i: int| 0 <= i < alphabet().len() && alphabet()[i] == c;
        assert(position_of(symbol_at(i)) == Some(i));
    }
    assert forall|i: int, j: int|
        0 <= i < alphabet().len() && 0 <= j < alphabet().len() && i != j implies alphabet()[i]
        != alphabet()[j] by {
        assert(position_of(symbol_at(i)) == Some(i));
        assert(position_of(symbol_at(j)) == Some(j));
    }
}

/// Deciphering undoes enciphering on texts made of alphabet symbols, and
/// enciphering undoes deciphering on texts made of wire characters.
pub proof fn lemma_string_round_trip(s: Seq<char>)
    ensures
        all_in_alphabet(s) ==> decode_text(encode_text(s)) == s,
        all_digits(s) ==> encode_text(decode_text(s)) == s,
{
    lemma_alphabet_positions();
    if all_in_alphabet(s) {
        assert forall|i: int| 0 <= i < s.len() implies decode_text(encode_text(s))[i] == s[i] by {
            let c = s[i];
            assert(in_alphabet(c));
        }
        assert(decode_text(encode_text(s)) =~= s);
    }
    if all_digits(s) {
        assert forall|i: int| 0 <= i < s.len() implies encode_text(decode_text(s))[i] == s[i] by {
            let c = s[i];
            assert(is_digit(c));
            assert(position_of(symbol_at(digit_value(c))) == Some(digit_value(c)));
        }
        assert(encode_text(decode_text(s)) =~= s);
    }
}

/// The digits of a positive number are wire characters and denote that number.
pub proof fn lemma_numeral_digits(n: int)
    requires
        0 <= n,
    ensures
        all_digits(numeral_digits(n)),
        numeral_value(numeral_digits(n)) == n,
        n > 0 ==> numeral_digits(n).len() > 0,
    decreases n,
{
    if n > 0 {
        lemma_numeral_digits(n / 94);
        let front = numeral_digits(n / 94);
        let all = front.push(digit_char(n % 94));
        assert(all.drop_last() =~= front);
        assert(digit_value(all.last()) == n % 94);
        lemma_fundamental_div_mod(n, 94);
    }
}

/// Decoding the numeral of a non-negative 64-bit integer gives the integer back,
/// and the numeral of zero is the single digit of value zero.
pub proof fn lemma_integer_round_trip(n: int)
    requires
        0 <= n <= i64::MAX,
    ensures
        decode_integer(encode_integer(n)) == Ok::<int, InvalidDigit>(n),
        encode_integer(0) == seq!['!'],
{
    lemma_wrap_in_range(n);
    if n == 0 {
        let s = seq![digit_char(0)];
        assert(s.drop_last() =~= Seq::<char>::empty());
        assert(numeral_value(s) == numeral_value(s.drop_last()) * 94 + digit_value(s.last()));
        assert(numeral_value(s.drop_last()) == 0);
    } else {
        lemma_numeral_digits(n);
    }
}

/// The symbol a wire character stands for.
pub fn decode_symbol(c: char) -> (r: char)
    ensures
        r == decode_char(c),
{
    if '!' <= c && c <= '~' {
        let i: u8 = (c as u8) - 33;
        if i < 26 {
            (97 + i) as char
        } else if i < 52 {
            (65 + (i - 26)) as char
        } else if i < 62 {
            (48 + (i - 52)) as char
        } else if i < 77 {
            (33 + (i - 62)) as char
        } else if i < 84 {
            (58 + (i - 77)) as char
        } else if i < 90 {
            (91 + (i - 84)) as char
        } else if i == 90 {
            '|'
        } else if i == 91 {
            '~'
        } else if i == 92 {
            ' '
        } else {
            '\n'
        }
    } else {
        c
    }
}

/// The wire character that stands for a symbol.
pub fn encode_symbol(c: char) -> (r: char)
    ensures
        r == encode_char(c),
{
    if 'a' <= c && c <= 'z' {
        ((c as u8) - 97 + 33) as char
    } else if 'A' <= c && c <= 'Z' {
        ((c as u8) - 65 + 26 + 33) as char
    } else if '0' <= c && c <= '9' {
        ((c as u8) - 48 + 52 + 33) as char
    } else if '!' <= c && c <= '/' {
        ((c as u8) - 33 + 62 + 33) as char
    } else if ':' <= c && c <= '@' {
        ((c as u8) - 58 + 77 + 33) as char
    } else if '[' <= c && c <= '`' {
        ((c as u8) - 91 + 84 + 33) as char
    } else if c == '|' {
        '{'
    } else if c == '~' {
        '|'
    } else if c == ' ' {
        '}'
    } else if c == '\n' {
        '~'
    } else {
        c
    }
}

impl Value {
    /// Deciphers a wire string into the string value it stands for.
    pub fn decode_string(encoded: &str) -> (r: Value)
        ensures
            r@ == ValueView::Str(decode_text(encoded@)),
    {
        let mut out = String::new();
        for c in it: encoded.chars()
            invariant
                it.seq() == encoded@,
                out@ == decode_text(encoded@.take(it.index() as int)),
        {
            out.push(decode_symbol(c));
            assert(decode_text(encoded@.take(it.index() + 1)) =~= decode_text(
                encoded@.take(it.index() as int),
            ).push(decode_char(c)));
        }
        assert(encoded@.take(encoded@.len() as int) =~= encoded@);
        Value::Str(out)
    }

    /// Enciphers a string into its wire form.
    pub fn encode_string(source: &str) -> (r: String)
        ensures
            r@ == encode_text(source@),
    {
        let mut out = String::new();
        for c in it: source.chars()
            invariant
                it.seq() == source@,
                out@ == encode_text(source@.take(it.index() as int)),
        {
            out.push(encode_symbol(c));
            assert(encode_text(source@.take(it.index() + 1)) =~= encode_text(
                source@.take(it.index() as int),
            ).push(encode_char(c)));
        }
        assert(source@.take(source@.len() as int) =~= source@);
        out
    }

    /// Decodes a base-94 numeral into an integer value.
    pub fn decode_integer(encoded: &str) -> (r: Result<Value, InvalidDigit>)
        ensures
            match decode_integer(encoded@) {
                Ok(n) => r matches Ok(v) && v@ == ValueView::Int(n),
                Err(x) => r == Err::<Value, InvalidDigit>(x),
            },
    {
        match Value::decode_integer_body(encoded) {
            Ok(n) => Ok(Value::Int(n)),
            Err(e) => Err(e),
        }
    }

    /// Encodes an integer as a base-94 numeral. Zero is the single digit `!`; a
    /// negative integer has no numeral and yields the empty string.
    pub fn encode_integer_body(i: i64) -> (r: String)
        ensures
            r@ == encode_integer(i as int),
    {
        let mut out = String::new();
        if i == 0 {
            out.push('!');
            assert(out@ =~= seq![digit_char(0)]);
            return out;
        }
        let mut rest: i64 = i;
        let mut low_first: Vec<char> = Vec::new();
        while rest > 0
            invariant
                numeral_digits(i as int) == numeral_digits(rest as int) + low_first@.reverse(),
            decreases rest,
        {
            let d: u8 = (rest % 94) as u8;
            let ghost before = low_first@;
            low_first.push((d + 33) as char);
            proof {
                assert(low_first@.reverse() =~= seq![digit_char(rest as int % 94)]
                    + before.reverse());
                assert(numeral_digits(rest as int) + before.reverse() =~= numeral_digits(
                    rest as int / 94,
                ) + low_first@.reverse());
            }
            rest = rest / 94;
        }
        let mut k: usize = low_first.len();
        while k > 0
            invariant
                k <= low_first.len(),
                out@ == low_first@.reverse().take(low_first.len() - k),
            decreases k,
        {
            k = k - 1;
            out.push(low_first[k]);
            assert(low_first@.reverse().take(low_first.len() - k) =~= low_first@.reverse().take(
                low_first.len() - k - 1,
            ).push(low_first@[k as int]));
        }
        assert(low_first@.reverse().take(low_first.len() as int) =~= low_first@.reverse());
        assert(numeral_digits(rest as int) + low_first@.reverse() =~= low_first@.reverse());
        out
    }

    /// Decodes a base-94 numeral, most significant digit first, into a 64-bit
    /// integer. A numeral too large for 64 bits is reduced modulo 2^64.
    pub fn decode_integer_body(encoded: &str) -> (r: Result<i64, InvalidDigit>)
        ensures
            match decode_integer(encoded@) {
                Ok(n) => r matches Ok(v) && v as int == n,
                Err(x) => r == Err::<i64, InvalidDigit>(x),
            },
    {
        let mut acc: i64 = 0;
        for c in it: encoded.chars()
            invariant
                it.seq() == encoded@,
                all_digits(encoded@.take(it.index() as int)),
                acc as int == wrap_i64(numeral_value(encoded@.take(it.index() as int))),
        {
            if !('!' <= c && c <= '~') {
                proof {
                    lemma_leading_digits(encoded@, it.index() as int);
                }
                return Err(InvalidDigit(c));
            }
            let d: i64 = ((c as u8) - 33) as i64;
            proof {
                let seen = encoded@.take(it.index() as int);
                let next = encoded@.take(it.index() + 1);
                assert(next.drop_last() =~= seen);
                assert(next.last() == c);
                lemma_wrap_mul(numeral_value(seen), 94);
                lemma_wrap_add(numeral_value(seen) * 94, d as int);
                lemma_wrap_congruent(numeral_value(seen) * 94);
            }
            acc = acc.wrapping_mul(94).wrapping_add(d);
        }
        assert(encoded@.take(encoded@.len() as int) =~= encoded@);
        proof {
            lemma_wrap_congruent(numeral_value(encoded@));
        }
        Ok(acc)
    }
}

} // verus!
