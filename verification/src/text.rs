//! Text in the forms that the orchestrator writes: trimmed, decimal and hexadecimal.

use vstd::prelude::*;

verus! {

/// The Unicode `White_Space` property.
pub open spec fn white_space(c: char) -> bool {
    ||| '\u{9}' <= c <= '\u{d}'
    ||| c == '\u{20}'
    ||| c == '\u{85}'
    ||| c == '\u{a0}'
    ||| c == '\u{1680}'
    ||| '\u{2000}' <= c <= '\u{200a}'
    ||| c == '\u{2028}'
    ||| c == '\u{2029}'
    ||| c == '\u{202f}'
    ||| c == '\u{205f}'
    ||| c == '\u{3000}'
}

/// `s` without its leading and trailing white space.
pub open spec fn trimmed(s: Seq<char>) -> Seq<char>
    decreases s.len(),
{
    if s.len() == 0 {
        s
    } else if white_space(s.first()) {
        trimmed(s.drop_first())
    } else if white_space(s.last()) {
        trimmed(s.drop_last())
    } else {
        s
    }
}

/// Tells whether `c` has the Unicode `White_Space` property.
pub fn is_white_space(c: char) -> (r: bool)
    ensures
        r == white_space(c),
{
    ('\u{9}' <= c && c <= '\u{d}') || c == '\u{20}' || c == '\u{85}' || c == '\u{a0}' || c
        == '\u{1680}' || ('\u{2000}' <= c && c <= '\u{200a}') || c == '\u{2028}' || c == '\u{2029}'
        || c == '\u{202f}' || c == '\u{205f}' || c == '\u{3000}'
}

/// The characters of `s`, in order.
pub fn char_vec(s: &str) -> (chars: Vec<char>)
    ensures
        chars@ == s@,
{
    let mut chars: Vec<char> = Vec::new();
    for c in iter: s.chars()
        invariant
            iter.seq() == s@,
            chars@ == s@.take(iter.index()),
    {
        chars.push(c);
    }
    chars
}

/// Tells whether `a` and `b` are the same text.
pub fn same_text(a: &str, b: &str) -> (r: bool)
    ensures
        r == (a@ == b@),
{
    a.to_owned() == b.to_owned()
}

/// `s` without its leading and trailing white space.
pub fn trim(s: &str) -> (r: String)
    ensures
        r@ == trimmed(s@),
{
    let chars = char_vec(s);
    let mut start: usize = 0;
    let mut end: usize = chars.len();
    assert(s@.subrange(0, end as int) == s@);
    while start < end && is_white_space(chars[start])
        invariant
            chars@ == s@,
            start <= end <= chars.len(),
            trimmed(s@.subrange(start as int, end as int)) == trimmed(s@),
        decreases end - start,
    {
        assert(s@.subrange(start as int, end as int).drop_first() == s@.subrange(
            start + 1,
            end as int,
        ));
        start = start + 1;
    }
    while start < end && is_white_space(chars[end - 1])
        invariant
            chars@ == s@,
            start <= end <= chars.len(),
            start < end ==> !white_space(chars[start as int]),
            trimmed(s@.subrange(start as int, end as int)) == trimmed(s@),
        decreases end - start,
    {
        assert(s@.subrange(start as int, end as int).drop_last() == s@.subrange(
            start as int,
            end - 1,
        ));
        end = end - 1;
    }
    s.substring_char(start, end).to_owned()
}

/// The hexadecimal digit of value `d`, in lower case.
pub open spec fn digit(d: int) -> char
    recommends
        0 <= d < 16,
{
    if d < 10 {
        (48 + d) as char
    } else {
        (87 + d) as char
    }
}

/// The hexadecimal digit of value `d` as a text of one character.
pub fn digit_text(d: u8) -> (r: &'static str)
    requires
        d < 16,
    ensures
        r@ == seq![digit(d as int)],
{
    proof {
        reveal_strlit("0");
        reveal_strlit("1");
        reveal_strlit("2");
        reveal_strlit("3");
        reveal_strlit("4");
        reveal_strlit("5");
        reveal_strlit("6");
        reveal_strlit("7");
        reveal_strlit("8");
        reveal_strlit("9");
        reveal_strlit("a");
        reveal_strlit("b");
        reveal_strlit("c");
        reveal_strlit("d");
        reveal_strlit("e");
        reveal_strlit("f");
    }
    match d {
        0 => "0",
        1 => "1",
        2 => "2",
        3 => "3",
        4 => "4",
        5 => "5",
        6 => "6",
        7 => "7",
        8 => "8",
        9 => "9",
        10 => "a",
        11 => "b",
        12 => "c",
        13 => "d",
        14 => "e",
        _ => "f",
    }
}

/// The bytes as two lower-case hexadecimal digits each.
pub open spec fn lower_hex(bytes: Seq<u8>) -> Seq<char> {
    Seq::new(
        2 * bytes.len(),
        |i: int|
            digit(
                if i % 2 == 0 {
                    bytes[i / 2] as int / 16
                } else {
                    bytes[i / 2] as int % 16
                },
            ),
    )
}

/// Writes each byte as two lower-case hexadecimal digits.
pub fn hex_text(bytes: &[u8]) -> (r: String)
    ensures
        r@ == lower_hex(bytes@),
{
    let mut out = String::new();
    let mut i: usize = 0;
    while i < bytes.len()
        invariant
            i <= bytes.len(),
            out@ == lower_hex(bytes@.take(i as int)),
        decreases bytes.len() - i,
    {
        let b = bytes[i];
        out.append(digit_text(b / 16));
        out.append(digit_text(b % 16));
        i = i + 1;
        assert(out@ =~= lower_hex(bytes@.take(i as int)));
    }
    assert(bytes@.take(i as int) == bytes@);
    out
}

/// The decimal digits of `n`, without leading zeros.
pub open spec fn decimal(n: nat) -> Seq<char>
    decreases n,
{
    if n < 10 {
        seq![digit(n as int)]
    } else {
        decimal(n / 10).push(digit((n % 10) as int))
    }
}

/// `n` in decimal, with a minus sign where it is negative.
pub open spec fn signed_decimal(n: int) -> Seq<char> {
    if n < 0 {
        seq!['-'] + decimal((-n) as nat)
    } else {
        decimal(n as nat)
    }
}

/// The last `width` decimal digits of `n`, zeros included.
pub open spec fn padded_decimal(n: nat, width: nat) -> Seq<char>
    decreases width,
{
    if width == 0 {
        seq![]
    } else {
        padded_decimal(n / 10, (width - 1) as nat).push(digit((n % 10) as int))
    }
}

/// A decimal text is made of digits alone.
pub proof fn decimal_characters(n: nat)
    ensures
        decimal(n).len() > 0,
        forall|i: int| 0 <= i < decimal(n).len() ==> '0' <= #[trigger] decimal(n)[i] <= '9',
    decreases n,
{
    if n >= 10 {
        decimal_characters(n / 10);
    }
}

/// A signed decimal text is made of digits and a minus sign alone.
pub proof fn signed_decimal_characters(n: int)
    ensures
        signed_decimal(n).len() > 0,
        forall|i: int|
            0 <= i < signed_decimal(n).len() ==> '0' <= #[trigger] signed_decimal(n)[i] <= '9'
                || signed_decimal(n)[i] == '-',
{
    if n < 0 {
        decimal_characters((-n) as nat);
    } else {
        decimal_characters(n as nat);
    }
}

/// Different numbers have different decimal texts.
pub proof fn decimal_is_injective(a: nat, b: nat)
    requires
        decimal(a) == decimal(b),
    ensures
        a == b,
    decreases a,
{
    assert(decimal(a).last() == digit((a % 10) as int));
    assert(decimal(b).last() == digit((b % 10) as int));
    if a >= 10 && b >= 10 {
        assert(decimal(a).drop_last() =~= decimal(a / 10));
        assert(decimal(b).drop_last() =~= decimal(b / 10));
        decimal_is_injective(a / 10, b / 10);
    } else if a >= 10 {
        decimal_characters(a / 10);
    } else if b >= 10 {
        decimal_characters(b / 10);
    }
}

/// Different integers have different signed decimal texts.
pub proof fn signed_decimal_is_injective(a: int, b: int)
    requires
        signed_decimal(a) == signed_decimal(b),
    ensures
        a == b,
{
    if a < 0 {
        decimal_characters((-a) as nat);
        assert(signed_decimal(a)[0] == '-');
        assert(signed_decimal(a).drop_first() =~= decimal((-a) as nat));
    } else {
        decimal_characters(a as nat);
        assert('0' <= decimal(a as nat)[0]);
    }
    if b < 0 {
        decimal_characters((-b) as nat);
        assert(signed_decimal(b)[0] == '-');
        assert(signed_decimal(b).drop_first() =~= decimal((-b) as nat));
    } else {
        decimal_characters(b as nat);
        assert('0' <= decimal(b as nat)[0]);
    }
    if a < 0 && b < 0 {
        decimal_is_injective((-a) as nat, (-b) as nat);
    } else if a >= 0 && b >= 0 {
        decimal_is_injective(a as nat, b as nat);
    }
}

/// Appends the decimal digits of `n` to `out`.
fn push_decimal(out: &mut String, n: u64)
    ensures
        final(out)@ == old(out)@ + decimal(n as nat),
    decreases n,
{
    if n >= 10 {
        push_decimal(out, n / 10);
    }
    out.append(digit_text((n % 10) as u8));
}

/// `n` in decimal.
pub fn integer_text(n: i64) -> (r: String)
    ensures
        r@ == signed_decimal(n as int),
{
    let mut out = String::new();
    if n < 0 {
        proof {
            reveal_strlit("-");
        }
        out.append("-");
        if n == i64::MIN {
            push_decimal(&mut out, 9223372036854775808);
        } else {
            push_decimal(&mut out, (-n) as u64);
        }
    } else {
        push_decimal(&mut out, n as u64);
    }
    out
}

/// Appends the last `width` decimal digits of `n` to `out`.
fn push_padded(out: &mut String, n: u64, width: usize)
    ensures
        final(out)@ == old(out)@ + padded_decimal(n as nat, width as nat),
    decreases width,
{
    if width > 0 {
        push_padded(out, n / 10, width - 1);
        out.append(digit_text((n % 10) as u8));
    }
}

/// The last `width` decimal digits of `n`, zeros included.
pub fn padded_text(n: u64, width: usize) -> (r: String)
    ensures
        r@ == padded_decimal(n as nat, width as nat),
{
    let mut out = String::new();
    push_padded(&mut out, n, width);
    out
}

/// The parts one after the other, with `separator` between each two.
pub open spec fn joined(parts: Seq<Seq<char>>, separator: Seq<char>) -> Seq<char>
    decreases parts.len(),
{
    if parts.len() == 0 {
        seq![]
    } else if parts.len() == 1 {
        parts[0]
    } else {
        joined(parts.drop_last(), separator) + separator + parts.last()
    }
}

/// The texts that the references stand for.
pub open spec fn texts(parts: Seq<&str>) -> Seq<Seq<char>> {
    parts.map_values(|part: &str| part@)
}

/// The parts one after the other, with `separator` between each two.
pub fn join_texts(parts: &Vec<&str>, separator: &str) -> (r: String)
    ensures
        r@ == joined(texts(parts@), separator@),
{
    let mut out = String::new();
    let mut i: usize = 0;
    while i < parts.len()
        invariant
            i <= parts.len(),
            out@ == joined(texts(parts@).take(i as int), separator@),
        decreases parts.len() - i,
    {
        if i > 0 {
            out.append(separator);
        }
        out.append(parts[i]);
        i = i + 1;
        assert(texts(parts@).take(i as int).drop_last() == texts(parts@).take(i - 1));
        assert(out@ =~= joined(texts(parts@).take(i as int), separator@));
    }
    assert(texts(parts@).take(i as int) == texts(parts@));
    out
}

/// The value of a digit, decimal or hexadecimal in lower case.
pub open spec fn digit_value(c: char) -> int {
    if c <= '9' {
        c as int - '0' as int
    } else {
        c as int - 'a' as int + 10
    }
}

/// The number that the digits stand for, the most significant one first.
pub open spec fn number_of(digits: Seq<char>, base: int) -> int
    decreases digits.len(),
{
    if digits.len() == 0 {
        0
    } else {
        number_of(digits.drop_last(), base) * base + digit_value(digits.last())
    }
}

/// `s` is digits of a base of at most sixteen, the letters among them in lower case.
pub open spec fn are_digits(s: Seq<char>, base: int) -> bool {
    forall|i: int|
        0 <= i < s.len() ==> ('0' <= #[trigger] s[i] <= '9' || 'a' <= s[i] <= 'f') && digit_value(
            s[i],
        ) < base
}

/// A decimal text reads back as its number, and has no leading zero but in a zero.
pub proof fn decimal_reads_back(n: nat)
    ensures
        number_of(decimal(n), 10) == n,
        are_digits(decimal(n), 10),
        decimal(n).len() > 0,
        n > 0 ==> decimal(n)[0] != '0',
    decreases n,
{
    if n >= 10 {
        decimal_reads_back(n / 10);
        assert(decimal(n).drop_last() =~= decimal(n / 10));
    } else {
        assert(decimal(n).drop_last() =~= Seq::<char>::empty());
        assert(number_of(Seq::<char>::empty(), 10) == 0);
    }
}

/// A signed decimal text reads back as its number: a minus sign where it is negative, and the
/// digits of its size.
pub proof fn signed_decimal_reads_back(n: int)
    ensures
        n >= 0 ==> number_of(signed_decimal(n), 10) == n && are_digits(signed_decimal(n), 10),
        n < 0 ==> signed_decimal(n).len() > 1 && signed_decimal(n)[0] == '-' && number_of(
            signed_decimal(n).drop_first(),
            10,
        ) == -n && are_digits(signed_decimal(n).drop_first(), 10),
        n != 0 ==> signed_decimal(n)[0] != '0' && (n < 0 ==> signed_decimal(n)[1] != '0'),
{
    if n < 0 {
        decimal_reads_back((-n) as nat);
        assert(signed_decimal(n).drop_first() =~= decimal((-n) as nat));
        assert(signed_decimal(n)[1] == decimal((-n) as nat)[0]);
    } else {
        decimal_reads_back(n as nat);
    }
}

/// A padded text has its width, and reads back as its number as far as that width goes.
pub proof fn padded_decimal_reads_back(n: nat, width: nat)
    ensures
        padded_decimal(n, width).len() == width,
        are_digits(padded_decimal(n, width), 10),
        number_of(padded_decimal(n, width), 10) == n as int % vstd::arithmetic::power::pow(
            10,
            width,
        ),
    decreases width,
{
    reveal(vstd::arithmetic::power::pow);
    if width > 0 {
        let w = (width - 1) as nat;
        padded_decimal_reads_back(n / 10, w);
        vstd::arithmetic::power::lemma_pow_positive(10, w);
        vstd::arithmetic::div_mod::lemma_mod_breakdown(
            n as int,
            10,
            vstd::arithmetic::power::pow(10, w),
        );
        assert(padded_decimal(n, width).drop_last() =~= padded_decimal(n / 10, w));
    }
}

/// Two hexadecimal digits for each byte, in the order of the bytes, read back as that byte.
pub proof fn lower_hex_reads_back(bytes: Seq<u8>)
    ensures
        lower_hex(bytes).len() == 2 * bytes.len(),
        are_digits(lower_hex(bytes), 16),
        forall|i: int|
            0 <= i < bytes.len() ==> digit_value(lower_hex(bytes)[2 * i]) * 16 + digit_value(
                lower_hex(bytes)[2 * i + 1],
            ) == #[trigger] bytes[i],
{
    assert forall|i: int| 0 <= i < bytes.len() implies digit_value(lower_hex(bytes)[2 * i]) * 16
        + digit_value(lower_hex(bytes)[2 * i + 1]) == #[trigger] bytes[i] by {
        assert((2 * i) / 2 == i && (2 * i + 1) / 2 == i);
        assert((2 * i) % 2 == 0 && (2 * i + 1) % 2 == 1);
    }
}

/// Where the trimmed text stands in `s`: from `start` up to `end`, with nothing but white space
/// around it, and no white space at its ends.
pub open spec fn is_middle(s: Seq<char>, start: int, end: int) -> bool {
    &&& 0 <= start <= end <= s.len()
    &&& forall|i: int| 0 <= i < start ==> white_space(#[trigger] s[i])
    &&& forall|i: int| end <= i < s.len() ==> white_space(#[trigger] s[i])
    &&& start < end ==> !white_space(s[start]) && !white_space(s[end - 1])
}

/// The middle of a text stays its middle where white space is put before the text.
#[verifier::spinoff_prover]
proof fn lemma_middle_behind(s: Seq<char>, a: int, b: int)
    requires
        s.len() > 0,
        white_space(s[0]),
        is_middle(s.drop_first(), a, b),
    ensures
        is_middle(s, a + 1, b + 1),
        s.subrange(a + 1, b + 1) == s.drop_first().subrange(a, b),
{
    let t = s.drop_first();
    assert forall|i: int| 0 <= i < a + 1 implies white_space(#[trigger] s[i]) by {
        if i > 0 {
            assert(t[i - 1] == s[i]);
        }
    }
    assert forall|i: int| b + 1 <= i < s.len() implies white_space(#[trigger] s[i]) by {
        assert(t[i - 1] == s[i]);
    }
    assert(s.subrange(a + 1, b + 1) =~= t.subrange(a, b));
}

/// The middle of a text stays its middle where white space is put behind the text.
#[verifier::spinoff_prover]
proof fn lemma_middle_before(s: Seq<char>, a: int, b: int)
    requires
        s.len() > 0,
        white_space(s[s.len() - 1]),
        is_middle(s.drop_last(), a, b),
    ensures
        is_middle(s, a, b),
        s.subrange(a, b) == s.drop_last().subrange(a, b),
{
    let t = s.drop_last();
    assert forall|i: int| 0 <= i < a implies white_space(#[trigger] s[i]) by {
        assert(t[i] == s[i]);
    }
    assert forall|i: int| b <= i < s.len() implies white_space(#[trigger] s[i]) by {
        if i < t.len() {
            assert(t[i] == s[i]);
        }
    }
    assert(s.subrange(a, b) =~= t.subrange(a, b));
}

/// Trimming gives the part of the text that is between the white space at its ends, all of it and
/// as it is.
#[verifier::spinoff_prover]
#[verifier::rlimit(60)]
pub proof fn trimmed_is_the_middle(s: Seq<char>)
    ensures
        exists|start: int, end: int| #[trigger]
            is_middle(s, start, end) && trimmed(s) == s.subrange(start, end),
    decreases s.len(),
{
    if s.len() == 0 {
        assert(is_middle(s, 0, 0));
        assert(s.subrange(0, 0) =~= s);
    } else if white_space(s.first()) {
        let t = s.drop_first();
        trimmed_is_the_middle(t);
        let (a, b) = choose|a: int, b: int| #[trigger]
            is_middle(t, a, b) && trimmed(t) == t.subrange(a, b);
        lemma_middle_behind(s, a, b);
    } else if white_space(s.last()) {
        let t = s.drop_last();
        trimmed_is_the_middle(t);
        let (a, b) = choose|a: int, b: int| #[trigger]
            is_middle(t, a, b) && trimmed(t) == t.subrange(a, b);
        lemma_middle_before(s, a, b);
    } else {
        assert(is_middle(s, 0, s.len() as int));
        assert(s.subrange(0, s.len() as int) =~= s);
    }
}

/// A text is trimmed to nothing exactly where it is white space throughout.
pub proof fn only_white_space_trims_to_nothing(s: Seq<char>)
    ensures
        trimmed(s).len() == 0 <==> forall|i: int| 0 <= i < s.len() ==> white_space(#[trigger] s[i]),
{
    trimmed_is_the_middle(s);
    let (a, b) = choose|a: int, b: int| #[trigger]
        is_middle(s, a, b) && trimmed(s) == s.subrange(a, b);
}

/// Joining one part gives that part, and joining two lists of parts gives what each gives, with
/// one separator between them.
pub proof fn joining_separates(first: Seq<Seq<char>>, then: Seq<Seq<char>>, separator: Seq<char>)
    ensures
        joined(Seq::<Seq<char>>::empty(), separator) == Seq::<char>::empty(),
        first.len() == 1 ==> joined(first, separator) == first[0],
        first.len() > 0 && then.len() > 0 ==> joined(first + then, separator) == joined(
            first,
            separator,
        ) + separator + joined(then, separator),
    decreases then.len(),
{
    if first.len() > 0 && then.len() > 0 {
        assert((first + then).drop_last() =~= first + then.drop_last());
        assert((first + then).last() == then.last());
        if then.len() > 1 {
            joining_separates(first, then.drop_last(), separator);
        } else {
            assert(first + then.drop_last() =~= first);
        }
        assert(joined(first + then, separator) =~= joined(first, separator) + separator + joined(
            then,
            separator,
        ));
    }
}

/// The texts are those of the parts, one for one.
pub proof fn texts_are_those_of_the_parts(parts: Seq<&str>)
    ensures
        texts(parts).len() == parts.len(),
        forall|i: int| 0 <= i < parts.len() ==> #[trigger] texts(parts)[i] == parts[i]@,
{
}

/// White space is the horizontal tab and the four control characters behind it, the space, the
/// next line and the spaces outside ASCII, by their code points, and no other character.
pub proof fn white_space_has_these_code_points(c: char)
    ensures
        white_space(c) <==> {
            let n = c as u32;
            ||| n == 9 || n == 10 || n == 11 || n == 12 || n == 13 || n == 32
            ||| n == 133 || n == 160 || n == 5760
            ||| 8192 <= n && n <= 8202
            ||| n == 8232 || n == 8233 || n == 8239 || n == 8287 || n == 12288
        },
{
}

} // verus!
