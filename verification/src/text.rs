//! Text building and reading: decimal and hexadecimal numerals, prefixes,
//! substrings, and the few conversions that come from `std`.

use vstd::prelude::*;
use vstd::utf8::encode_utf8;

verus! {

/// `String::push` puts one character behind the text.
pub assume_specification[ String::push ](s: &mut String, c: char)
    ensures
        final(s)@ == old(s)@.push(c),
;

/// What `str::to_lowercase` makes of a text.
pub uninterp spec fn lower_text(s: Seq<char>) -> Seq<char>;

/// `str::to_lowercase`: a text that depends on the given text alone. Which
/// characters it holds follows Unicode's tables and is not stated.
#[verifier::external_body]
pub(crate) fn to_lowercase(s: &str) -> (r: String)
    ensures
        r@ == lower_text(s@),
{
    s.to_lowercase()
}

/// What `str::trim` leaves of a text.
pub uninterp spec fn trimmed_text(s: Seq<char>) -> Seq<char>;

/// `str::trim`: a part of the text that depends on the text alone. Which
/// characters count as white space follows Unicode's tables and is not stated.
#[verifier::external_body]
pub(crate) fn trim(s: &str) -> (r: &str)
    ensures
        r@ == trimmed_text(s@),
{
    s.trim()
}

/// What `String::from_utf16_lossy` makes of a sequence of code units.
pub uninterp spec fn utf16_text(units: Seq<u16>) -> Seq<char>;

/// `String::from_utf16_lossy`: a text that depends on the code units alone.
/// How surrogates pair up is not stated.
#[verifier::external_body]
pub(crate) fn from_utf16_lossy(units: &[u16]) -> (r: String)
    ensures
        r@ == utf16_text(units@),
{
    String::from_utf16_lossy(units)
}

/// The text of a decimal digit.
pub open spec fn digit(d: nat) -> char {
    (48 + d) as char
}

/// The decimal numeral of `n`, without leading zeros.
pub open spec fn decimal(n: nat) -> Seq<char>
    decreases n,
{
    if n < 10 {
        seq![digit(n)]
    } else {
        decimal(n / 10).push(digit(n % 10))
    }
}

/// Puts the decimal numeral of `n` behind `s`.
pub fn push_decimal(s: &mut String, n: u64)
    ensures
        final(s)@ == old(s)@ + decimal(n as nat),
    decreases n,
{
    if n >= 10 {
        push_decimal(s, n / 10);
    }
    let d: u8 = (n % 10) as u8;
    s.push((48 + d) as char);
}

/// The decimal numeral of `n` as a string of its own.
pub fn decimal_string(n: u64) -> (r: String)
    ensures
        r@ == decimal(n as nat),
{
    let mut s = String::new();
    push_decimal(&mut s, n);
    s
}

/// A hexadecimal digit in lower case.
pub open spec fn hex_digit(d: nat) -> char {
    if d < 10 {
        (48 + d) as char
    } else {
        (87 + d) as char
    }
}

/// The `width` low hexadecimal digits of `n`, highest first.
pub open spec fn hex(n: nat, width: nat) -> Seq<char>
    decreases width,
{
    if width == 0 {
        Seq::empty()
    } else {
        hex(n / 16, (width - 1) as nat).push(hex_digit(n % 16))
    }
}

/// Puts the `width` low hexadecimal digits of `n` behind `s`.
pub fn push_hex(s: &mut String, n: u32, width: u32)
    ensures
        final(s)@ == old(s)@ + hex(n as nat, width as nat),
    decreases width,
{
    if width > 0 {
        push_hex(s, n / 16, width - 1);
        let d: u8 = (n % 16) as u8;
        s.push(
            if d < 10 {
                (48 + d) as char
            } else {
                (87 + d) as char
            },
        );
    }
    assert(s@ =~= old(s)@ + hex(n as nat, width as nat));
}

/// A hexadecimal digit in upper case.
pub open spec fn upper_hex_digit(d: nat) -> char {
    if d < 10 {
        (48 + d) as char
    } else {
        (55 + d) as char
    }
}

/// The `width` low hexadecimal digits of `n` in upper case, highest first.
pub open spec fn upper_hex(n: nat, width: nat) -> Seq<char>
    decreases width,
{
    if width == 0 {
        Seq::empty()
    } else {
        upper_hex(n / 16, (width - 1) as nat).push(upper_hex_digit(n % 16))
    }
}

/// The decimal numeral of an integer, behind a `-` where it is negative.
pub open spec fn signed_decimal(n: int) -> Seq<char> {
    if n < 0 {
        "-"@ + decimal((-n) as nat)
    } else {
        decimal(n as nat)
    }
}

/// Puts the decimal numeral of `n` behind `s`.
pub fn push_signed(s: &mut String, n: i32)
    ensures
        final(s)@ == old(s)@ + signed_decimal(n as int),
{
    if n < 0 {
        s.append("-");
        push_decimal(s, (-(n as i64)) as u64);
    } else {
        push_decimal(s, n as u64);
    }
    assert(s@ =~= old(s)@ + signed_decimal(n as int));
}

/// `s` behind so many spaces that it is at least `width` characters long.
pub open spec fn right_aligned(s: Seq<char>, width: nat) -> Seq<char> {
    if s.len() < width {
        Seq::new((width - s.len()) as nat, |i: int| ' ') + s
    } else {
        s
    }
}

/// Puts `text` behind `s`, right-aligned in `width` characters.
pub fn push_right_aligned(s: &mut String, text: &str, width: usize)
    ensures
        final(s)@ == old(s)@ + right_aligned(text@, width as nat),
{
    let len: usize = text.unicode_len();
    let gap: usize = if len < width {
        width - len
    } else {
        0
    };
    let ghost before = s@;
    let mut i: usize = 0;
    while i < gap
        invariant
            i <= gap,
            s@ == before + Seq::new(i as nat, |k: int| ' '),
        decreases gap - i,
    {
        s.push(' ');
        i = i + 1;
        assert(s@ =~= before + Seq::new(i as nat, |k: int| ' '));
    }
    s.append(text);
    assert(s@ =~= before + right_aligned(text@, width as nat));
}

/// What `String::from_utf8_lossy` makes of a sequence of bytes.
pub uninterp spec fn utf8_text(bytes: Seq<u8>) -> Seq<char>;

/// `String::from_utf8_lossy`: a text that depends on the bytes alone. What
/// stands for malformed bytes is not stated.
#[verifier::external_body]
pub(crate) fn from_utf8_lossy(bytes: &[u8]) -> (r: String)
    ensures
        r@ == utf8_text(bytes@),
{
    String::from_utf8_lossy(bytes).into_owned()
}

/// The texts `part(0)` to `part(n - 1)`, one behind the other.
pub open spec fn joined(n: nat, part: spec_fn(int) -> Seq<char>) -> Seq<char>
    decreases n,
{
    if n == 0 {
        Seq::empty()
    } else {
        joined((n - 1) as nat, part) + part(n - 1)
    }
}

/// Whether `c` is one of the ten decimal digits.
pub open spec fn is_digit(c: char) -> bool {
    '0' <= c && c <= '9'
}

/// The number that a run of decimal digits stands for.
pub open spec fn digits_value(s: Seq<char>) -> nat
    decreases s.len(),
{
    if s.len() == 0 {
        0
    } else {
        digits_value(s.drop_last()) * 10 + (s.last() as nat - 48) as nat
    }
}

/// The digits of a numeral: what is left behind one leading `+`.
pub open spec fn numeral_digits(s: Seq<char>) -> Seq<char> {
    if s.len() > 0 && s[0] == '+' {
        s.skip(1)
    } else {
        s
    }
}

/// The value of an unsigned numeral no larger than `max`: one or more digits,
/// behind at most one `+`.
pub open spec fn unsigned_value(s: Seq<char>, max: nat) -> Option<nat> {
    let d = numeral_digits(s);
    if d.len() > 0 && (forall|i: int| 0 <= i < d.len() ==> is_digit(#[trigger] d[i]))
        && digits_value(d) <= max {
        Some(digits_value(d))
    } else {
        None
    }
}

proof fn lemma_digits_value_grows(s: Seq<char>, n: int)
    requires
        0 <= n <= s.len(),
    ensures
        digits_value(s.take(n)) <= digits_value(s),
    decreases s.len() - n,
{
    if n < s.len() {
        lemma_digits_value_grows(s, n + 1);
        assert(s.take(n + 1).drop_last() =~= s.take(n));
    } else {
        assert(s.take(n) =~= s);
    }
}

/// Reads an unsigned numeral no larger than `max`.
pub fn parse_unsigned(s: &str, max: u64) -> (r: Option<u64>)
    ensures
        match r {
            Some(v) => unsigned_value(s@, max as nat) == Some(v as nat),
            None => unsigned_value(s@, max as nat) is None,
        },
{
    let len: usize = s.unicode_len();
    let mut start: usize = 0;
    if len > 0 && s.get_char(0) == '+' {
        start = 1;
    }
    let ghost d = numeral_digits(s@);
    assert(d =~= s@.skip(start as int));
    if start == len {
        return None;
    }
    let mut value: u64 = 0;
    let mut i: usize = start;
    assert(d.take(0) =~= Seq::<char>::empty());
    while i < len
        invariant
            start <= i <= len,
            len == s@.len(),
            d == numeral_digits(s@),
            d == s@.skip(start as int),
            value <= max,
            value == digits_value(d.take(i - start)),
            forall|k: int| 0 <= k < i - start ==> is_digit(#[trigger] d[k]),
        decreases len - i,
    {
        let c: char = s.get_char(i);
        assert(d[i - start] == c);
        if !('0' <= c && c <= '9') {
            return None;
        }
        let next: u128 = value as u128 * 10 + (c as u32 - 48) as u128;
        proof {
            assert(d.take(i + 1 - start).drop_last() =~= d.take(i - start));
            assert(d.take(i + 1 - start).last() == c);
            lemma_digits_value_grows(d, i + 1 - start);
        }
        if next > max as u128 {
            return None;
        }
        value = next as u64;
        i = i + 1;
    }
    proof {
        assert(d.take(len - start) =~= d);
    }
    Some(value)
}

proof fn lemma_decimal_is_digits(n: nat)
    ensures
        decimal(n).len() > 0,
        forall|i: int| 0 <= i < decimal(n).len() ==> is_digit(#[trigger] decimal(n)[i]),
        digits_value(decimal(n)) == n,
    decreases n,
{
    if n < 10 {
        let d = decimal(n);
        assert(d.drop_last() =~= Seq::<char>::empty());
        assert(digits_value(d.drop_last()) == 0);
    } else {
        lemma_decimal_is_digits(n / 10);
        let d = decimal(n);
        assert(d.drop_last() =~= decimal(n / 10));
    }
}

/// A numeral that was written is read back as the number it was written for.
pub proof fn law_numerals_read_back(n: nat, max: nat)
    requires
        n <= max,
    ensures
        unsigned_value(decimal(n), max) == Some(n),
{
    lemma_decimal_is_digits(n);
    assert(is_digit(decimal(n)[0]));
    assert(numeral_digits(decimal(n)) == decimal(n));
}

/// The UTF-8 encoding of a text.
#[verifier::opaque]
pub open spec fn utf8(s: Seq<char>) -> Seq<u8> {
    encode_utf8(s)
}

/// The bytes of a text.
pub fn bytes_of(s: &str) -> (r: &[u8])
    ensures
        r@ == utf8(s@),
{
    proof {
        reveal(utf8);
    }
    s.as_bytes()
}

/// Whether `part` stands somewhere in `whole`.
pub open spec fn has_substring(whole: Seq<char>, part: Seq<char>) -> bool {
    exists|i: int|
        0 <= i <= whole.len() - part.len() && #[trigger] whole.subrange(i, i + part.len()) == part
}

/// Whether `part` stands in `whole` at the character `at`.
fn stands_at(whole: &str, part: &str, at: usize) -> (r: bool)
    requires
        at + part@.len() <= whole@.len(),
    ensures
        r == (whole@.subrange(at as int, at + part@.len()) == part@),
{
    let whole_len: usize = whole.unicode_len();
    let len: usize = part.unicode_len();
    let ghost window = whole@.subrange(at as int, at + part@.len());
    let mut k: usize = 0;
    while k < len
        invariant
            k <= len == part@.len(),
            at + len <= whole@.len() == whole_len,
            window == whole@.subrange(at as int, at + part@.len()),
            forall|j: int| 0 <= j < k ==> window[j] == part@[j],
        decreases len - k,
    {
        if whole.get_char(at + k) != part.get_char(k) {
            assert(window[k as int] != part@[k as int]);
            return false;
        }
        k = k + 1;
    }
    assert(window =~= part@);
    true
}

/// Whether `part` stands somewhere in `whole`.
pub(crate) fn contains(whole: &str, part: &str) -> (r: bool)
    ensures
        r == has_substring(whole@, part@),
{
    let whole_len: usize = whole.unicode_len();
    let len: usize = part.unicode_len();
    if whole_len < len {
        return false;
    }
    let starts: usize = whole_len - len;
    let mut at: usize = 0;
    while at < starts
        invariant
            at <= starts == whole@.len() - part@.len(),
            forall|i: int|
                0 <= i < at ==> #[trigger] whole@.subrange(i, i + part@.len()) != part@,
        decreases starts - at,
    {
        if stands_at(whole, part, at) {
            return true;
        }
        at = at + 1;
    }
    stands_at(whole, part, starts)
}

/// `s` without the NULs at its end.
pub open spec fn without_trailing_nuls(s: Seq<char>) -> Seq<char>
    decreases s.len(),
{
    if s.len() > 0 && s.last() == '\0' {
        without_trailing_nuls(s.drop_last())
    } else {
        s
    }
}

/// Cuts off the NULs at the end of `s`.
pub fn trim_nuls(s: &str) -> (r: &str)
    ensures
        r@ == without_trailing_nuls(s@),
{
    let len: usize = s.unicode_len();
    let mut n: usize = len;
    assert(s@.take(len as int) =~= s@);
    while n > 0 && s.get_char(n - 1) == '\0'
        invariant
            n <= len == s@.len(),
            without_trailing_nuls(s@) == without_trailing_nuls(s@.take(n as int)),
        decreases n,
    {
        assert(s@.take(n as int).drop_last() =~= s@.take(n - 1));
        n = n - 1;
    }
    s.substring_char(0, n)
}

/// Whether two texts hold the same characters.
pub(crate) fn same_text(a: &str, b: &str) -> (r: bool)
    ensures
        r == (a@ == b@),
{
    let len: usize = a.unicode_len();
    if b.unicode_len() != len {
        return false;
    }
    assert(b@.subrange(0, len as int) =~= b@);
    stands_at(b, a, 0)
}

/// Whether `c` does not occur in `s`.
pub open spec fn is_free_of(s: Seq<char>, c: char) -> bool {
    forall|i: int| 0 <= i < s.len() ==> #[trigger] s[i] != c
}

/// The fields of a text, which stand between the characters `sep`.
pub open spec fn fields(s: Seq<char>, sep: char) -> Seq<Seq<char>>
    decreases s.len(),
{
    if s.len() == 0 {
        seq![Seq::empty()]
    } else {
        let before = fields(s.drop_last(), sep);
        if s.last() == sep {
            before.push(Seq::empty())
        } else {
            before.drop_last().push(before.last().push(s.last()))
        }
    }
}

/// A text without a separator is one field.
pub proof fn lemma_one_field(s: Seq<char>, sep: char)
    requires
        is_free_of(s, sep),
    ensures
        fields(s, sep) == seq![s],
    decreases s.len(),
{
    if s.len() > 0 {
        let init = s.drop_last();
        assert forall|i: int| 0 <= i < init.len() implies #[trigger] init[i] != sep by {
            assert(init[i] == s[i]);
        }
        lemma_one_field(init, sep);
        assert(s[s.len() - 1] != sep);
        assert(init.push(s.last()) =~= s);
        assert(fields(s, sep) =~= seq![s]);
    } else {
        assert(s =~= Seq::<char>::empty());
    }
}

/// What stands behind a separator, and holds none, is one more field.
pub proof fn lemma_next_field(head: Seq<char>, mark: Seq<char>, part: Seq<char>, sep: char)
    requires
        mark == seq![sep],
        is_free_of(part, sep),
    ensures
        fields(head + mark + part, sep) == fields(head, sep).push(part),
    decreases part.len(),
{
    let s = head + mark + part;
    if part.len() == 0 {
        assert(s =~= head.push(sep));
        assert(s.drop_last() =~= head);
        assert(part =~= Seq::<char>::empty());
    } else {
        let init = part.drop_last();
        assert forall|i: int| 0 <= i < init.len() implies #[trigger] init[i] != sep by {
            assert(init[i] == part[i]);
        }
        lemma_next_field(head, mark, init, sep);
        assert(part[part.len() - 1] != sep);
        assert(s.drop_last() =~= head + mark + init);
        assert(init.push(part.last()) =~= part);
        assert(fields(s, sep) =~= fields(head, sep).push(part));
    }
}

/// A numeral holds digits only.
pub proof fn lemma_decimal_is_free_of(n: nat, c: char)
    requires
        !is_digit(c),
    ensures
        is_free_of(decimal(n), c),
{
    lemma_decimal_is_digits(n);
}

/// Different numbers have different numerals.
pub proof fn law_numerals_differ(a: nat, b: nat)
    requires
        decimal(a) == decimal(b),
    ensures
        a == b,
{
    lemma_decimal_is_digits(a);
    lemma_decimal_is_digits(b);
}

/// A part of a text is a part of any text that goes on behind it.
pub proof fn lemma_part_stays(head: Seq<char>, tail: Seq<char>, part: Seq<char>)
    requires
        has_substring(head, part),
    ensures
        has_substring(head + tail, part),
{
    let i = choose|i: int|
        0 <= i <= head.len() - part.len() && #[trigger] head.subrange(i, i + part.len()) == part;
    assert((head + tail).subrange(i, i + part.len()) =~= part);
}

/// A text that ends in a part holds it.
pub proof fn lemma_part_at_end(head: Seq<char>, part: Seq<char>)
    ensures
        has_substring(head + part, part),
{
    let i = head.len() as int;
    assert((head + part).subrange(i, i + part.len()) =~= part);
}

/// A part of a part is a part of the whole.
pub proof fn lemma_part_of_part(whole: Seq<char>, middle: Seq<char>, part: Seq<char>)
    requires
        has_substring(whole, middle),
        has_substring(middle, part),
    ensures
        has_substring(whole, part),
{
    let i = choose|i: int|
        0 <= i <= whole.len() - middle.len() && #[trigger] whole.subrange(i, i + middle.len())
            == middle;
    let k = choose|k: int|
        0 <= k <= middle.len() - part.len() && #[trigger] middle.subrange(k, k + part.len())
            == part;
    assert(whole.subrange(i, i + middle.len()).subrange(k, k + part.len()) =~= whole.subrange(
        i + k,
        i + k + part.len(),
    ));
}

/// Each of the texts that were joined is a part of the whole.
pub proof fn lemma_joined_holds(n: nat, part: spec_fn(int) -> Seq<char>, k: int)
    requires
        0 <= k < n,
    ensures
        has_substring(joined(n, part), part(k)),
    decreases n,
{
    if k == n - 1 {
        lemma_part_at_end(joined((n - 1) as nat, part), part(k));
    } else {
        lemma_joined_holds((n - 1) as nat, part, k);
        lemma_part_stays(joined((n - 1) as nat, part), part(n - 1), part(k));
    }
}

/// A text holds itself, and holds whatever a text holds that it holds.
pub proof fn law_substrings_nest(whole: Seq<char>, middle: Seq<char>, part: Seq<char>)
    ensures
        has_substring(whole, whole),
        has_substring(whole, Seq::empty()),
        has_substring(whole, middle) && has_substring(middle, part) ==> has_substring(whole, part),
{
    assert(whole.subrange(0, 0int + whole.len()) =~= whole);
    assert(whole.subrange(0, 0int + Seq::<char>::empty().len()) =~= Seq::<char>::empty());
    if has_substring(whole, middle) && has_substring(middle, part) {
        lemma_part_of_part(whole, middle, part);
    }
}

/// The number that a run of hexadecimal digits stands for, in either case.
pub open spec fn hex_value(s: Seq<char>) -> nat
    decreases s.len(),
{
    if s.len() == 0 {
        0
    } else {
        let c = s.last();
        let d = if c <= '9' {
            c as nat - 48
        } else if c <= 'F' {
            c as nat - 55
        } else {
            c as nat - 87
        };
        hex_value(s.drop_last()) * 16 + d as nat
    }
}

/// Hexadecimal numerals have the width that was asked for, and stand for the number,
/// where it fits the width.
pub proof fn law_hex_reads_back(n: nat, width: nat)
    requires
        n < vstd::arithmetic::power::pow(16, width),
    ensures
        hex(n, width).len() == width,
        hex_value(hex(n, width)) == n,
        upper_hex(n, width).len() == width,
        hex_value(upper_hex(n, width)) == n,
    decreases width,
{
    reveal(vstd::arithmetic::power::pow);
    if width > 0 {
        let m = vstd::arithmetic::power::pow(16, (width - 1) as nat);
        assert(vstd::arithmetic::power::pow(16, width) == 16 * m);
        assert(n / 16 < m);
        law_hex_reads_back(n / 16, (width - 1) as nat);
        assert(hex(n, width).drop_last() =~= hex(n / 16, (width - 1) as nat));
        assert(upper_hex(n, width).drop_last() =~= upper_hex(n / 16, (width - 1) as nat));
    }
}

/// Aligned text ends in the text, behind spaces alone, and is as wide as was asked
/// for unless the text itself is wider.
pub proof fn law_aligned_text_ends_in_its_text(s: Seq<char>, width: nat)
    ensures
        right_aligned(s, width).len() >= width,
        right_aligned(s, width).len() >= s.len(),
        right_aligned(s, width).len() == width || right_aligned(s, width).len() == s.len(),
        right_aligned(s, width).skip(right_aligned(s, width).len() - s.len()) == s,
        forall|i: int|
            0 <= i < right_aligned(s, width).len() - s.len() ==> #[trigger] right_aligned(
                s,
                width,
            )[i] == ' ',
{
    assert(right_aligned(s, width).skip(right_aligned(s, width).len() - s.len()) =~= s);
}

/// The sign and the digits of a signed numeral give back the number.
pub proof fn law_signed_numerals_read_back(n: int)
    ensures
        (signed_decimal(n)[0] == '-') == (n < 0),
        n >= 0 ==> digits_value(signed_decimal(n)) == n,
        n < 0 ==> digits_value(signed_decimal(n).skip(1)) == -n,
{
    reveal_strlit("-");
    if n < 0 {
        lemma_decimal_is_digits((-n) as nat);
        assert(signed_decimal(n).skip(1) =~= decimal((-n) as nat));
    } else {
        lemma_decimal_is_digits(n as nat);
        assert(is_digit(decimal(n as nat)[0]));
    }
}

/// What is left of a text without the NULs at its end is the text up to its last
/// character that is no NUL.
pub proof fn law_only_trailing_nuls_go(s: Seq<char>)
    ensures
        ({
            let t = without_trailing_nuls(s);
            &&& t.len() <= s.len()
            &&& s.take(t.len() as int) == t
            &&& t.len() > 0 ==> t.last() != '\0'
            &&& forall|i: int| t.len() <= i < s.len() ==> #[trigger] s[i] == '\0'
        }),
    decreases s.len(),
{
    if s.len() > 0 && s.last() == '\0' {
        law_only_trailing_nuls_go(s.drop_last());
        let t = without_trailing_nuls(s);
        assert(s.take(t.len() as int) =~= s.drop_last().take(t.len() as int));
        assert forall|i: int| t.len() <= i < s.len() implies #[trigger] s[i] == '\0' by {
            if i < s.len() - 1 {
                assert(s.drop_last()[i] == '\0');
            }
        }
    } else {
        assert(s.take(s.len() as int) =~= s);
    }
}

/// How texts are grouped does not matter when they are joined.
pub proof fn lemma_regroup(a: Seq<char>, b: Seq<char>, c: Seq<char>)
    ensures
        a + b + c == a + (b + c),
{
    assert(a + b + c =~= a + (b + c));
}

/// Joining the same texts gives the same text.
pub proof fn lemma_joined_agrees(
    n: nat,
    a: spec_fn(int) -> Seq<char>,
    b: spec_fn(int) -> Seq<char>,
)
    requires
        forall|i: int| 0 <= i < n ==> #[trigger] a(i) == b(i),
    ensures
        joined(n, a) == joined(n, b),
    decreases n,
{
    if n > 0 {
        lemma_joined_agrees((n - 1) as nat, a, b);
        assert(a(n - 1) == b(n - 1));
    }
}

/// A numeral is read as it is written by hand too: behind a `+`, and with zeros in
/// front; and what is not a numeral, or is larger than what can be held, is not read
/// at all.
pub proof fn law_numerals_are_read_with_sign_and_zeros(s: Seq<char>, n: nat, max: nat, i: int)
    ensures
        n <= max ==> unsigned_value(seq!['+'] + decimal(n), max) == Some(n),
        n <= max ==> unsigned_value(seq!['0'] + decimal(n), max) == Some(n),
        n > max ==> unsigned_value(decimal(n), max) is None,
        unsigned_value(s, max) matches Some(v) ==> v <= max && s.len() > 0,
        0 < i < s.len() && !is_digit(s[i]) ==> unsigned_value(s, max) is None,
{
    lemma_decimal_is_digits(n);
    let d = decimal(n);
    let plus = seq!['+'] + d;
    let zero = seq!['0'] + d;
    assert(numeral_digits(plus) =~= d);
    assert(is_digit(d[0]));
    assert(numeral_digits(d) == d);
    assert(zero[0] == '0');
    assert(numeral_digits(zero) == zero);
    lemma_leading_zero(d);
    assert forall|k: int| 0 <= k < zero.len() implies is_digit(#[trigger] zero[k]) by {
        if k > 0 {
            assert(zero[k] == d[k - 1]);
        }
    }
    if 0 < i < s.len() && !is_digit(s[i]) {
        let e = numeral_digits(s);
        if s[0] == '+' {
            assert(e[i - 1] == s[i]);
        } else {
            assert(e[i] == s[i]);
        }
    }
}

proof fn lemma_leading_zero(d: Seq<char>)
    ensures
        digits_value(seq!['0'] + d) == digits_value(d),
    decreases d.len(),
{
    let z = seq!['0'] + d;
    if d.len() == 0 {
        assert(z.drop_last() =~= Seq::<char>::empty());
        assert(digits_value(z.drop_last()) == 0);
    } else {
        lemma_leading_zero(d.drop_last());
        assert(z.drop_last() =~= seq!['0'] + d.drop_last());
    }
}

} // verus!
