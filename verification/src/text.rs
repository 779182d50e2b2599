//! Plain text building: decimal numbers and the paddings that the table,
//! the status bar and the date columns are written with.
use vstd::prelude::*;
use vstd::utf8;

verus! {

/// `String::push` of std appends one character.
pub assume_specification[ String::push ](s: &mut String, c: char)
    ensures
        final(s)@ == old(s)@.push(c),
;

/// `std::str::from_utf8` gives the text of `bytes` if they are valid UTF-8.
#[verifier::external_body]
pub(crate) fn utf8_text(bytes: &[u8]) -> (text: Option<String>)
    ensures
        text is Some <==> utf8::valid_utf8(bytes@),
        (text matches Some(t) ==> t@ == utf8::decode_utf8(bytes@)),
{
    std::str::from_utf8(bytes).ok().map(|text| text.to_string())
}

/// The texts of a row.
pub open spec fn texts(row: Seq<String>) -> Seq<Seq<char>> {
    row.map_values(|s: String| s@)
}

/// The texts of the rows of a table.
pub open spec fn grid(rows: Seq<Vec<String>>) -> Seq<Seq<Seq<char>>> {
    rows.map_values(|row: Vec<String>| texts(row@))
}

/// The character of a decimal digit.
pub open spec fn digit_char(d: int) -> char {
    (48 + d) as char
}

/// The decimal digits of `n`, most significant first, without leading zeros.
pub open spec fn digits(n: nat) -> Seq<char>
    decreases n,
{
    if n < 10 {
        seq![digit_char(n as int)]
    } else {
        digits(n / 10).push(digit_char(n as int % 10))
    }
}

/// The magnitude of `v`.
pub open spec fn magnitude(v: int) -> nat {
    if v < 0 {
        (-v) as nat
    } else {
        v as nat
    }
}

/// The sign that `v` is written with.
pub open spec fn sign(v: int) -> Seq<char> {
    if v < 0 {
        seq!['-']
    } else {
        seq![]
    }
}

/// `v` in decimal.
pub open spec fn decimal(v: int) -> Seq<char> {
    sign(v) + digits(magnitude(v))
}

/// `n` copies of `c`.
pub open spec fn repeated(c: char, n: int) -> Seq<char> {
    if n <= 0 {
        seq![]
    } else {
        Seq::new(n as nat, |i: int| c)
    }
}

/// `v` in decimal, with zeros between the sign and the digits so that at
/// least `width` characters come out.
pub open spec fn zero_padded(v: int, width: int) -> Seq<char> {
    let body = digits(magnitude(v));
    sign(v) + repeated('0', width - sign(v).len() - body.len()) + body
}

/// `text` with spaces in front of it so that at least `width` characters come
/// out.
pub open spec fn right_aligned(text: Seq<char>, width: int) -> Seq<char> {
    repeated(' ', width - text.len()) + text
}

/// A number of digits is at least one, and a number below `10^39` has at most
/// 39 digits.
proof fn lemma_digits_len(n: nat)
    ensures
        1 <= digits(n).len(),
        n <= 0xffff_ffff_ffff_ffff_ffff_ffff_ffff_ffff ==> digits(n).len() <= 39,
{
    lemma_digits_len_below(n, 39);
}

/// Ten to the power of `k`.
pub open spec fn power_of_ten(k: nat) -> nat
    decreases k,
{
    if k == 0 {
        1
    } else {
        10 * power_of_ten((k - 1) as nat)
    }
}

proof fn lemma_digits_len_below(n: nat, k: nat)
    ensures
        1 <= digits(n).len(),
        1 <= k && n < power_of_ten(k) ==> digits(n).len() <= k,
        k == 39 ==> power_of_ten(k) > 0xffff_ffff_ffff_ffff_ffff_ffff_ffff_ffff,
    decreases n, k,
{
    reveal_with_fuel(power_of_ten, 40);
    if n >= 10 {
        if k >= 1 {
            lemma_digits_len_below(n / 10, (k - 1) as nat);
        } else {
            lemma_digits_len_below(n / 10, k);
        }
    }
}

/// Appends `c` `n` times.
pub fn push_repeated(out: &mut String, c: char, n: usize)
    ensures
        final(out)@ == old(out)@ + repeated(c, n as int),
{
    let mut i: usize = 0;
    while i < n
        invariant
            i <= n,
            out@ == old(out)@ + repeated(c, i as int),
        decreases n - i,
    {
        out.push(c);
        i = i + 1;
        assert(out@ =~= old(out)@ + repeated(c, i as int));
    }
}

/// Appends the digits of `n` and returns how many they are.
pub(crate) fn push_digits(out: &mut String, n: u128) -> (count: usize)
    ensures
        final(out)@ == old(out)@ + digits(n as nat),
        count == digits(n as nat).len(),
        count <= 39,
    decreases n,
{
    proof {
        lemma_digits_len(n as nat);
    }
    let d: u8 = (n % 10) as u8;
    if n < 10 {
        out.push((48 + d) as char);
        assert(out@ =~= old(out)@ + digits(n as nat));
        1
    } else {
        let count = push_digits(out, n / 10);
        out.push((48 + d) as char);
        assert(out@ =~= old(out)@ + digits(n as nat));
        count + 1
    }
}

/// The magnitude of `v` as a machine number.
fn magnitude_of(v: i128) -> (m: u128)
    ensures
        m == magnitude(v as int),
{
    if v < 0 {
        (-(v + 1)) as u128 + 1
    } else {
        v as u128
    }
}

/// Appends `v` in decimal.
pub fn push_decimal(out: &mut String, v: i128)
    ensures
        final(out)@ == old(out)@ + decimal(v as int),
{
    if v < 0 {
        out.push('-');
    }
    push_digits(out, magnitude_of(v));
    assert(out@ =~= old(out)@ + decimal(v as int));
}

/// `v` in decimal.
pub fn decimal_text(v: i128) -> (text: String)
    ensures
        text@ == decimal(v as int),
{
    let mut out = String::new();
    push_decimal(&mut out, v);
    assert(out@ =~= decimal(v as int));
    out
}

/// Appends `v` in decimal, padded with zeros to `width` characters.
pub fn push_zero_padded(out: &mut String, v: i128, width: usize)
    ensures
        final(out)@ == old(out)@ + zero_padded(v as int, width as int),
{
    let mut body = String::new();
    let count = push_digits(&mut body, magnitude_of(v));
    assert(body@ =~= digits(magnitude(v as int)));
    let mut used = count;
    if v < 0 {
        out.push('-');
        used = used + 1;
    }
    if used < width {
        push_repeated(out, '0', width - used);
    }
    out.append(body.as_str());
    assert(out@ =~= old(out)@ + zero_padded(v as int, width as int));
}

/// Appends `text` after the spaces that align it to the right in `width`
/// characters.
pub fn push_right_aligned(out: &mut String, text: &str, width: usize)
    ensures
        final(out)@ == old(out)@ + right_aligned(text@, width as int),
{
    let n = text.unicode_len();
    if n < width {
        push_repeated(out, ' ', width - n);
    }
    out.append(text);
    assert(out@ =~= old(out)@ + right_aligned(text@, width as int));
}

/// Whether two texts are the same.
pub(crate) fn same_text(a: &str, b: &str) -> (same: bool)
    ensures
        same == (a@ == b@),
{
    a.to_owned() == b.to_owned()
}

// ---------------------------------------------------------------------------
// What numbers read back as
// ---------------------------------------------------------------------------

/// A character is a decimal digit.
pub open spec fn is_digit(c: char) -> bool {
    '0' <= c <= '9'
}

/// Every character is a decimal digit.
pub open spec fn all_digits(s: Seq<char>) -> bool {
    forall|i: int| 0 <= i < s.len() ==> is_digit(#[trigger] s[i])
}

/// The number that a row of decimal digits stands for.
pub open spec fn value_of(s: Seq<char>) -> int
    decreases s.len(),
{
    if s.len() == 0 {
        0
    } else {
        10 * value_of(s.drop_last()) + (s.last() as int - '0' as int)
    }
}

/// `s` is how `v` is written in decimal: the digits of the number, without leading
/// zeros, behind a minus sign if the number is negative.
pub open spec fn reads_as(s: Seq<char>, v: int) -> bool {
    if v >= 0 {
        &&& s.len() >= 1
        &&& all_digits(s)
        &&& value_of(s) == v
        &&& s[0] == '0' ==> s.len() == 1
    } else {
        &&& s.len() >= 2
        &&& s[0] == '-'
        &&& all_digits(s.skip(1))
        &&& value_of(s.skip(1)) == -v
        &&& s[1] != '0'
    }
}

/// The digits of a number read back as that number.
pub proof fn lemma_digits_read_back(n: nat)
    ensures
        reads_as(digits(n), n as int),
    decreases n,
{
    reveal_with_fuel(value_of, 2);
    if n >= 10 {
        lemma_digits_read_back(n / 10);
        let d = digits(n);
        assert(d.drop_last() =~= digits(n / 10));
        assert(is_digit(d.last()));
        assert forall|i: int| 0 <= i < d.len() implies is_digit(#[trigger] d[i]) by {
            if i < d.len() - 1 {
                assert(d[i] == digits(n / 10)[i]);
            }
        }
        assert(d[0] == digits(n / 10)[0]);
        if d[0] == '0' {
            assert(digits(n / 10).len() == 1);
            assert(digits(n / 10).drop_last() =~= Seq::<char>::empty());
            assert(value_of(digits(n / 10)) == 0);
        }
    } else {
        assert(digits(n).drop_last() =~= Seq::<char>::empty());
    }
}

/// A number in decimal reads back as that number.
pub proof fn lemma_decimal_reads_back(v: int)
    ensures
        reads_as(decimal(v), v),
{
    reveal_with_fuel(value_of, 2);
    lemma_digits_read_back(magnitude(v));
    if v >= 0 {
        assert(decimal(v) =~= digits(v as nat));
    } else {
        let d = digits(magnitude(v));
        assert(decimal(v).skip(1) =~= d);
        assert(decimal(v)[1] == d[0]);
        if d[0] == '0' {
            assert(d.drop_last() =~= Seq::<char>::empty());
        }
    }
}

/// Zeros in front do not change what digits stand for.
pub proof fn lemma_leading_zeros(n: int, s: Seq<char>)
    requires
        all_digits(s),
    ensures
        value_of(repeated('0', n) + s) == value_of(s),
        all_digits(repeated('0', n) + s),
    decreases s.len(), n,
{
    let padded = repeated('0', n) + s;
    if s.len() > 0 {
        assert(all_digits(s.drop_last()));
        lemma_leading_zeros(n, s.drop_last());
        assert(padded.drop_last() =~= repeated('0', n) + s.drop_last());
        assert(padded.last() == s.last());
    } else if n > 0 {
        assert(s =~= Seq::empty());
        lemma_leading_zeros(n - 1, s);
        assert(padded.drop_last() =~= repeated('0', n - 1) + s);
        assert(padded.last() == '0');
    } else {
        assert(padded =~= s);
    }
}

/// A padded number that is not negative is digits that stand for the number: as many
/// as were asked for, or just as many as the number has.
pub proof fn lemma_padded_reads_back(v: int, width: int)
    requires
        v >= 0,
    ensures
        all_digits(zero_padded(v, width)),
        value_of(zero_padded(v, width)) == v,
        zero_padded(v, width).len() >= width,
        zero_padded(v, width).len() == width || reads_as(zero_padded(v, width), v),
{
    lemma_digits_read_back(v as nat);
    lemma_digits_len(v as nat);
    let body = digits(v as nat);
    lemma_leading_zeros(width - body.len(), body);
    assert(zero_padded(v, width) =~= repeated('0', width - body.len()) + body);
    if body.len() >= width {
        assert(zero_padded(v, width) =~= body);
    }
}

/// A padded negative number is a minus sign and digits that stand for it.
pub proof fn lemma_padded_negative_reads_back(v: int, width: int)
    requires
        v < 0,
    ensures
        zero_padded(v, width).len() >= width,
        zero_padded(v, width).len() >= 2,
        zero_padded(v, width)[0] == '-',
        all_digits(zero_padded(v, width).skip(1)),
        value_of(zero_padded(v, width).skip(1)) == -v,
        zero_padded(v, width).len() == width || reads_as(zero_padded(v, width), v),
{
    lemma_decimal_reads_back(v);
    lemma_digits_read_back(magnitude(v));
    lemma_digits_len(magnitude(v));
    let body = digits(magnitude(v));
    lemma_leading_zeros(width - 1 - body.len(), body);
    assert(zero_padded(v, width).skip(1) =~= repeated('0', width - 1 - body.len()) + body);
    if body.len() + 1 >= width {
        assert(zero_padded(v, width) =~= decimal(v));
    }
}

/// A text that is aligned to the right ends its line, with nothing but spaces before.
pub proof fn lemma_right_aligned(text: Seq<char>, width: int)
    ensures
        text.len() >= width ==> right_aligned(text, width) == text,
        text.len() < width ==> {
            &&& right_aligned(text, width).len() == width
            &&& right_aligned(text, width).skip(width - text.len()) == text
            &&& forall|i: int|
                0 <= i < width - text.len() ==> #[trigger] right_aligned(text, width)[i] == ' '
        },
{
    if text.len() >= width {
        assert(right_aligned(text, width) =~= text);
    } else {
        assert(right_aligned(text, width).skip(width - text.len()) =~= text);
    }
}

/// A larger number has no fewer digits.
pub proof fn lemma_longer_numbers(a: nat, b: nat)
    requires
        a <= b,
    ensures
        digits(a).len() <= digits(b).len(),
    decreases b,
{
    lemma_digits_len(a);
    if a >= 10 {
        lemma_longer_numbers(a / 10, b / 10);
    } else {
        lemma_digits_len(b);
    }
}

/// A number below ten million has seven digits at most.
pub proof fn lemma_seven_digits(n: nat)
    requires
        n < 10_000_000,
    ensures
        1 <= digits(n).len() <= 7,
{
    reveal_with_fuel(digits, 8);
    lemma_digits_len(n);
}

} // verus!
