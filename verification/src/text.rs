//! Texts: decimal numbers and quoted names.

use vstd::prelude::*;

verus! {

/// The text of the digit `d`.
pub open spec fn digit(d: int) -> char {
    (('0' as int) + d) as char
}

/// The decimal text of `n`, without leading zeros.
pub open spec fn decimal(n: nat) -> Seq<char>
    decreases n,
{
    if n < 10 {
        seq![digit(n as int)]
    } else {
        decimal(n / 10).push(digit((n % 10) as int))
    }
}

/// Appends one digit to a text.
fn push_digit(text: &mut String, d: u8)
    requires
        d < 10,
    ensures
        final(text)@ == old(text)@.push(digit(d as int)),
{
    proof {
        reveal_strlit("0");
        reveal_strlit("1");
        reveal_strlit("2");
        reveal_strlit("3");
        reveal_strlit("4");
        reveal_strlit("5");
        reveal_strlit("6");
        reveal_strlit("7");
        reveal_strlit("8");
        reveal_strlit("9");
    }
    let one: &str = match d {
        0 => "0",
        1 => "1",
        2 => "2",
        3 => "3",
        4 => "4",
        5 => "5",
        6 => "6",
        7 => "7",
        8 => "8",
        _ => "9",
    };
    assert(one@ =~= seq![digit(d as int)]);
    text.append(one);
    assert(old(text)@ + one@ =~= old(text)@.push(digit(d as int)));
}

/// Appends the decimal text of a number to a text.
pub(crate) fn push_decimal(text: &mut String, n: u64)
    ensures
        final(text)@ == old(text)@ + decimal(n as nat),
    decreases n,
{
    if n < 10 {
        push_digit(text, n as u8);
        assert(old(text)@.push(digit(n as int)) =~= old(text)@ + decimal(n as nat));
    } else {
        push_decimal(text, n / 10);
        push_digit(text, (n % 10) as u8);
        assert((old(text)@ + decimal((n / 10) as nat)).push(digit((n % 10) as int)) =~= old(text)@
            + decimal(n as nat));
    }
}

/// What the standard library prints for a text in its debug form: the text
/// between double quotes, with the characters that need it escaped.
pub uninterp spec fn quoted(text: Seq<char>) -> Seq<char>;

/// Calls the standard library's debug formatting of a string, `{:?}`. The
/// result is a function of the string alone.
#[verifier::external_body]
pub(crate) fn quote(text: &str) -> (result: String)
    ensures
        result@ == quoted(text@),
{
    format!("{:?}", text)
}

/// The text that some bytes are, with what is no text in them replaced.
pub uninterp spec fn lossy_text(bytes: Seq<u8>) -> Seq<char>;

/// Calls `String::from_utf8_lossy`. The result is a function of the bytes alone.
#[verifier::external_body]
pub(crate) fn lossy(bytes: &[u8]) -> (text: String)
    ensures
        text@ == lossy_text(bytes@),
{
    String::from_utf8_lossy(bytes).into_owned()
}

/// Numbers in decimal with a dot between each two of them.
pub open spec fn dotted(numbers: Seq<u32>) -> Seq<char>
    decreases numbers.len(), 0int,
{
    if numbers.len() == 0 {
        seq![]
    } else {
        dotted_start(numbers.drop_last()) + decimal(numbers.last() as nat)
    }
}

/// Numbers in decimal with a dot behind each of them.
pub open spec fn dotted_start(numbers: Seq<u32>) -> Seq<char>
    decreases numbers.len(), 1int,
{
    if numbers.len() == 0 {
        seq![]
    } else {
        dotted(numbers).push('.')
    }
}

/// Whether a character is a digit.
pub open spec fn is_digit(c: char) -> bool {
    '0' <= c <= '9'
}

/// The decimal text of a number is made of digits, and there is at least one.
pub proof fn decimal_is_made_of_digits(n: nat)
    ensures
        decimal(n).len() > 0,
        forall|i: int| 0 <= i < decimal(n).len() ==> is_digit(#[trigger] decimal(n)[i]),
    decreases n,
{
    if n >= 10 {
        decimal_is_made_of_digits(n / 10);
    }
}

/// Dotted numbers are made of digits and dots.
pub proof fn dotted_is_made_of_digits_and_dots(numbers: Seq<u32>)
    ensures
        forall|i: int|
            0 <= i < dotted(numbers).len() ==> is_digit(#[trigger] dotted(numbers)[i])
                || dotted(numbers)[i] == '.',
    decreases numbers.len(),
{
    if numbers.len() > 0 {
        let init = numbers.drop_last();
        let start = dotted_start(init);
        let end = decimal(numbers.last() as nat);
        dotted_is_made_of_digits_and_dots(init);
        decimal_is_made_of_digits(numbers.last() as nat);
        assert forall|i: int| 0 <= i < dotted(numbers).len() implies is_digit(
            #[trigger] dotted(numbers)[i],
        ) || dotted(numbers)[i] == '.' by {
            if i < start.len() {
                assert(dotted(numbers)[i] == start[i]);
                if i < start.len() - 1 {
                    assert(start[i] == dotted(init)[i]);
                }
            } else {
                assert(dotted(numbers)[i] == end[i - start.len()]);
            }
        }
    }
}

/// The characters of a text.
pub(crate) fn characters(text: &str) -> (characters: Vec<char>)
    ensures
        characters@ == text@,
{
    let mut characters: Vec<char> = Vec::new();
    for c in walk: text.chars()
        invariant
            walk.seq() == text@,
            characters@ == text@.take(walk.index()),
    {
        characters.push(c);
        assert(text@.take(walk.index() + 1) =~= text@.take(walk.index()).push(c));
    }
    assert(characters@ =~= text@);
    characters
}

/// What is still unread of dotted numbers that are read from the end: the
/// numbers before position `k`, and of the number at `k` either the digits of
/// `rest` or nothing more.
spec fn unread(numbers: Seq<u32>, k: int, open: bool, rest: nat) -> Seq<char> {
    if open {
        dotted_start(numbers.take(k)) + decimal(rest)
    } else {
        dotted_start(numbers.take(k))
    }
}

/// Reads dotted numbers between two positions of a text.
pub(crate) fn read_dotted(
    text: &Vec<char>,
    from: usize,
    to: usize,
    Ghost(expected): Ghost<Seq<u32>>,
) -> (numbers: Vec<u32>)
    requires
        from <= to <= text@.len(),
        text@.subrange(from as int, to as int) == dotted(expected),
    ensures
        numbers@ == expected,
{
    let mut reversed: Vec<u32> = Vec::new();
    assert(dotted(expected).len() == to - from);
    if from == to {
        proof {
            if expected.len() > 0 {
                decimal_is_made_of_digits(expected.last() as nat);
            }
            assert(reversed@ =~= expected);
        }
        return reversed;
    }
    let mut i: usize = to;
    let mut value: u64 = 0;
    let mut weight: u64 = 1;
    let ghost mut k: int = expected.len() - 1;
    let ghost mut open: bool = true;
    let ghost mut rest: nat = expected.last() as nat;
    proof {
        assert(expected.len() > 0);
        assert(expected.take(k) =~= expected.drop_last());
        assert(text@.subrange(from as int, i as int) == unread(expected, k, open, rest));
        assert(rest * weight + value == expected[k]) by (nonlinear_arith)
            requires
                rest == expected[k],
                weight == 1,
                value == 0,
        ;
    }
    while i > from
        invariant
            from <= i <= to <= text@.len(),
            0 <= k < expected.len(),
            text@.subrange(from as int, i as int) == unread(expected, k, open, rest),
            reversed@.len() == expected.len() - 1 - k,
            forall|m: int|
                0 <= m < reversed@.len() ==> reversed@[m] == expected[expected.len() - 1 - m],
            open ==> rest * weight + value == expected[k],
            !open ==> value == expected[k],
            1 <= weight,
            open && rest > 0 ==> weight <= u32::MAX,
            open && rest == 0 ==> weight == 1,
        ensures
            i == from,
        decreases i - from,
    {
        let ghost before = text@.subrange(from as int, i as int);
        let c: char = text[i - 1];
        assert(before.last() == c);
        assert(text@.subrange(from as int, i - 1) =~= before.drop_last());
        if c == '.' {
            proof {
                if open {
                    decimal_is_made_of_digits(rest);
                    assert(before.last() == decimal(rest).last());
                }
                assert(!open);
                let init = expected.take(k);
                assert(init.len() > 0);
                assert(before.drop_last() =~= dotted(init));
                assert(init.drop_last() =~= expected.take(k - 1));
                assert(init.last() == expected[k - 1]);
            }
            reversed.push(value as u32);
            value = 0;
            weight = 1;
            proof {
                k = k - 1;
                open = true;
                rest = expected[k] as nat;
                assert(rest * weight + value == expected[k]) by (nonlinear_arith)
                    requires
                        rest == expected[k],
                        weight == 1,
                        value == 0,
                ;
            }
        } else {
            proof {
                if !open {
                    assert(before.last() == '.');
                }
                assert(open);
                decimal_is_made_of_digits(rest);
                assert(before.last() == decimal(rest).last());
                assert(c == digit((rest % 10) as int));
                lemma_weights(rest, weight as nat, value as nat);
                assert(rest >= 10 ==> before.drop_last() =~= dotted_start(expected.take(k))
                    + decimal(rest / 10));
                assert(rest < 10 ==> before.drop_last() =~= dotted_start(expected.take(k)));
            }
            let d: u64 = c as u64 - 48;
            assert(d == rest % 10);
            value = value + d * weight;
            weight = weight * 10;
            proof {
                if rest >= 10 {
                    rest = rest / 10;
                } else {
                    open = false;
                }
            }
        }
        i = i - 1;
    }
    proof {
        if open {
            decimal_is_made_of_digits(rest);
            assert(unread(expected, k, open, rest).len() > 0);
        }
        if k > 0 {
            assert(unread(expected, k, open, rest).len() > 0);
        }
    }
    reversed.push(value as u32);
    let mut numbers: Vec<u32> = Vec::new();
    let mut n: usize = reversed.len();
    while n > 0
        invariant
            n <= reversed@.len() == expected.len(),
            forall|m: int|
                0 <= m < reversed@.len() ==> reversed@[m] == expected[expected.len() - 1 - m],
            numbers@.len() == expected.len() - n,
            forall|m: int| 0 <= m < numbers@.len() ==> numbers@[m] == expected[m],
        decreases n,
    {
        numbers.push(reversed[n - 1]);
        n = n - 1;
    }
    assert(numbers@ =~= expected);
    numbers
}

/// Reading the last digit of `rest` adds it with its weight.
proof fn lemma_weights(rest: nat, weight: nat, value: nat)
    requires
        rest * weight + value <= u32::MAX,
        weight >= 1,
        rest > 0 ==> weight <= u32::MAX,
        rest == 0 ==> weight == 1,
    ensures
        (rest / 10) * (weight * 10) + (value + (rest % 10) * weight) == rest * weight + value,
        rest < 10 ==> value + (rest % 10) * weight == rest * weight + value,
        value + (rest % 10) * weight <= u32::MAX,
        0 <= (rest % 10) * weight <= u32::MAX,
        rest >= 10 ==> weight * 10 <= u32::MAX,
{
    assert((rest / 10) * (weight * 10) + (rest % 10) * weight == rest * weight) by (nonlinear_arith)
        requires
            rest == 10 * (rest / 10) + rest % 10,
    ;
    assert((rest / 10) * (weight * 10) >= 0) by (nonlinear_arith);
    assert((rest % 10) * weight >= 0) by (nonlinear_arith);
    if rest >= 10 {
        assert(weight * 10 <= rest * weight) by (nonlinear_arith)
            requires
                rest >= 10,
                weight >= 1,
        ;
    } else {
        assert(rest % 10 == rest);
    }
}

/// The number that some digits stand for, each ten times what it would be one place
/// further.
pub open spec fn number_told(text: Seq<char>) -> int
    decreases text.len(),
{
    if text.len() == 0 {
        0
    } else {
        10 * number_told(text.drop_last()) + (text.last() as int - '0' as int)
    }
}

/// The text of a number stands for that number, and begins with a zero only if it is one.
pub proof fn a_text_of_a_number_stands_for_it(n: nat)
    ensures
        number_told(decimal(n)) == n,
        decimal(n).len() > 0,
        decimal(n)[0] == '0' <==> n == 0,
    decreases n,
{
    if n < 10 {
        assert(decimal(n).drop_last() =~= seq![]);
        assert(number_told(decimal(n).drop_last()) == 0);
    } else {
        a_text_of_a_number_stands_for_it(n / 10);
        assert(decimal(n).drop_last() =~= decimal(n / 10));
        assert(decimal(n)[0] == decimal(n / 10)[0]);
    }
}

} // verus!
