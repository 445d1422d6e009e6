//! What digits, numbers and lists of names are as text, and how texts are
//! ordered.
use crate::text::{
    ascending, decimal, decimal_value, digit, joined_by, optional_text, optional_texts, read_digits,
    text_before, texts, unsigned, NumberFault,
};
use vstd::prelude::*;
use vstd::string::*;

verus! {

// ---- writing numbers -------------------------------------------------------

/// The digits up to nine follow each other from `0` on, the others from `a` on.
pub proof fn law_digits_follow_each_other(d: int)
    ensures
        0 <= d < 10 ==> digit(d) as u32 == '0' as u32 + d,
        10 <= d < 16 ==> digit(d) as u32 == 'a' as u32 + (d - 10),
{
}

/// A number below ten is its digit; one more digit behind a number is ten times
/// the number and the value of the digit.
pub proof fn law_decimal_grows_by_digits(n: nat, d: nat)
    requires
        d < 10,
    ensures
        decimal(d) == seq![digit(d as int)],
        n > 0 ==> decimal(10 * n + d) == decimal(n).push(digit(d as int)),
{
    if n > 0 {
        assert((10 * n + d) / 10 == n);
        assert((10 * n + d) % 10 == d);
    }
}

/// Different numbers are written differently.
pub proof fn law_decimals_differ(a: nat, b: nat)
    requires
        decimal(a) == decimal(b),
    ensures
        a == b,
{
    crate::text::law_decimal_is_read_back(a, a + b);
    crate::text::law_decimal_is_read_back(b, a + b);
}

// ---- reading numbers -------------------------------------------------------

/// The decimal digits are `0` to `9`, and each has the value that it is written
/// for.
pub proof fn law_digits_have_values(c: char, d: int)
    ensures
        decimal_value(c) is Some <==> '0' <= c <= '9',
        decimal_value(c) matches Some(v) ==> c as u32 == '0' as u32 + v,
        0 <= d < 10 ==> decimal_value(digit(d)) == Some(d as nat),
{
}

proof fn lemma_read_push(digits: Seq<char>, c: char, so_far: nat, max: nat)
    ensures
        read_digits(digits.push(c), so_far, max) == match read_digits(digits, so_far, max) {
            Err(e) => Err::<nat, NumberFault>(e),
            Ok(n) => match decimal_value(c) {
                None => Err::<nat, NumberFault>(NumberFault::InvalidDigit),
                Some(d) => if n * 10 + d > max {
                    Err::<nat, NumberFault>(NumberFault::TooLarge)
                } else {
                    Ok::<nat, NumberFault>((n * 10 + d) as nat)
                },
            },
        },
    decreases digits.len(),
{
    let all = digits.push(c);
    if digits.len() == 0 {
        assert(all[0] == c);
        assert(all.skip(1) =~= Seq::<char>::empty());
        reveal_with_fuel(read_digits, 2);
    } else {
        assert(all[0] == digits[0]);
        assert(all.skip(1) =~= digits.skip(1).push(c));
        match decimal_value(digits[0]) {
            None => {},
            Some(d) => {
                lemma_read_push(digits.skip(1), c, so_far * 10 + d, max);
            },
        }
    }
}

/// A number has at least one digit; a sign alone is none.
pub proof fn law_numbers_have_digits(c: char, max: nat)
    ensures
        unsigned(Seq::empty(), max) == Err::<nat, NumberFault>(NumberFault::Empty),
        unsigned(seq!['+'], max) == Err::<nat, NumberFault>(NumberFault::InvalidDigit),
        decimal_value(c) is None ==> unsigned(seq![c], max) == Err::<nat, NumberFault>(
            NumberFault::InvalidDigit,
        ),
        decimal_value(c) matches Some(d) ==> unsigned(seq![c], max) == if d > max {
            Err::<nat, NumberFault>(NumberFault::TooLarge)
        } else {
            Ok::<nat, NumberFault>(d)
        },
{
    reveal_with_fuel(read_digits, 2);
    assert(seq![c].skip(1) =~= Seq::<char>::empty());
}

/// A `+` in front of a number changes nothing, but there may be one only.
pub proof fn law_sign_changes_nothing(s: Seq<char>, max: nat)
    requires
        s.len() > 0,
    ensures
        s[0] != '+' ==> unsigned(seq!['+'] + s, max) == unsigned(s, max),
        s[0] == '+' ==> unsigned(seq!['+'] + s, max) == Err::<nat, NumberFault>(
            NumberFault::InvalidDigit,
        ),
{
    let signed = seq!['+'] + s;
    assert(signed.skip(1) =~= s);
    assert(signed[0] == '+');
}

/// One more character behind a number: a digit makes it ten times as large and
/// adds its value, unless that is too large; anything else is invalid. Behind
/// what is no number the first fault stays.
pub proof fn law_numbers_grow_by_digits(s: Seq<char>, c: char, max: nat)
    requires
        s.len() > 0,
        s != seq!['+'],
    ensures
        unsigned(s, max) matches Err(e) ==> unsigned(s.push(c), max) == Err::<nat, NumberFault>(e),
        unsigned(s, max) is Ok && decimal_value(c) is None ==> unsigned(s.push(c), max) == Err::<
            nat,
            NumberFault,
        >(NumberFault::InvalidDigit),
        unsigned(s, max) is Ok && decimal_value(c) is Some && unsigned(s, max)->Ok_0 * 10
            + decimal_value(c)->0 > max ==> unsigned(s.push(c), max) == Err::<nat, NumberFault>(
            NumberFault::TooLarge,
        ),
        unsigned(s, max) is Ok && decimal_value(c) is Some && unsigned(s, max)->Ok_0 * 10
            + decimal_value(c)->0 <= max ==> unsigned(s.push(c), max) is Ok && unsigned(
            s.push(c),
            max,
        )->Ok_0 == unsigned(s, max)->Ok_0 * 10 + decimal_value(c)->0,
{
    if s.len() == 1 && s[0] == '+' {
        assert(s =~= seq!['+']);
    }
    assert(s.push(c)[0] == s[0]);
    if s[0] == '+' {
        assert(s.push(c).skip(1) =~= s.skip(1).push(c));
        lemma_read_push(s.skip(1), c, 0, max);
    } else {
        lemma_read_push(s, c, 0, max);
    }
}

/// A number that was read is at most the maximum.
pub proof fn law_numbers_fit(s: Seq<char>, max: nat)
    ensures
        unsigned(s, max) matches Ok(n) ==> n <= max,
{
    lemma_read_fits(s, 0, max);
    if s.len() > 0 {
        lemma_read_fits(s.skip(1), 0, max);
    }
}

proof fn lemma_read_fits(digits: Seq<char>, so_far: nat, max: nat)
    requires
        so_far <= max,
    ensures
        read_digits(digits, so_far, max) matches Ok(n) ==> n <= max,
    decreases digits.len(),
{
    if digits.len() > 0 {
        match decimal_value(digits[0]) {
            None => {},
            Some(d) => {
                if so_far * 10 + d <= max {
                    lemma_read_fits(digits.skip(1), so_far * 10 + d, max);
                }
            },
        }
    }
}

/// The words for what is wrong with a number.
pub proof fn law_words_for_numbers()
    ensures
        NumberFault::Empty.words() == "cannot parse integer from empty string"@,
        NumberFault::InvalidDigit.words() == "invalid digit found in string"@,
        NumberFault::TooLarge.words() == "number too large to fit in target type"@,
{
}

// ---- lists -----------------------------------------------------------------

/// Joining no part gives nothing and joining one gives that part; one more part
/// comes behind the others and a separator.
pub proof fn law_joining_goes_through_the_parts(
    parts: Seq<Seq<char>>,
    part: Seq<char>,
    separator: Seq<char>,
)
    ensures
        joined_by(Seq::empty(), separator) == Seq::<char>::empty(),
        joined_by(seq![part], separator) == part,
        parts.len() > 0 ==> joined_by(parts.push(part), separator) == joined_by(parts, separator)
            + separator + part,
{
    assert(parts.push(part).drop_last() =~= parts);
    assert(parts.push(part).last() == part);
}

/// Texts are ordered by the first character in which they differ; a text comes
/// before what goes on after it.
pub proof fn law_order_of_texts(
    common: Seq<char>,
    a: char,
    b: char,
    rest: Seq<char>,
    other: Seq<char>,
)
    ensures
        !text_before(common, common),
        text_before(common, common + seq![a] + rest),
        !text_before(common + seq![a] + rest, common),
        a != b ==> (text_before(common + seq![a] + rest, common + seq![b] + other) <==> a < b),
{
    lemma_common_start(common, Seq::empty(), Seq::empty());
    assert(common + Seq::<char>::empty() =~= common);
    lemma_common_start(common, Seq::empty(), seq![a] + rest);
    lemma_common_start(common, seq![a] + rest, Seq::empty());
    lemma_common_start(common, seq![a] + rest, seq![b] + other);
    assert(common + (seq![a] + rest) =~= common + seq![a] + rest);
    assert(common + (seq![b] + other) =~= common + seq![b] + other);
    assert((seq![a] + rest)[0] == a);
    assert((seq![b] + other)[0] == b);
}

proof fn lemma_common_start(common: Seq<char>, a: Seq<char>, b: Seq<char>)
    ensures
        text_before(common + a, common + b) == text_before(a, b),
    decreases common.len(),
{
    if common.len() == 0 {
        assert(common + a =~= a);
        assert(common + b =~= b);
    } else {
        lemma_common_start(common.skip(1), a, b);
        assert((common + a).skip(1) =~= common.skip(1) + a);
        assert((common + b).skip(1) =~= common.skip(1) + b);
    }
}

/// A text does not come before itself, nor before one that comes before it.
pub proof fn law_order_is_strict(a: Seq<char>, b: Seq<char>)
    ensures
        !text_before(a, a),
        text_before(a, b) ==> !text_before(b, a),
        a != b ==> text_before(a, b) || text_before(b, a),
{
    lemma_common_start(a, Seq::empty(), Seq::empty());
    assert(a + Seq::<char>::empty() =~= a);
    if text_before(a, b) && text_before(b, a) {
        crate::text::lemma_before_transitive(a, b, a);
    }
    crate::text::lemma_before_total(a, b);
}

/// A list is ascending exactly if each text comes before the next one.
pub proof fn law_ascending_lists(list: Seq<Seq<char>>)
    ensures
        ascending(list) <==> forall|i: int|
            0 <= i < list.len() - 1 ==> text_before(#[trigger] list[i], list[i + 1]),
        ascending(list) ==> list.no_duplicates(),
{
    if ascending(list) {
        assert forall|i: int| 0 <= i < list.len() - 1 implies text_before(
            #[trigger] list[i],
            list[i + 1],
        ) by {}
        assert forall|i: int, j: int|
            0 <= i < list.len() && 0 <= j < list.len() && i != j implies list[i] != list[j] by {
            if i < j {
                assert(text_before(list[i], list[j]));
            } else {
                assert(text_before(list[j], list[i]));
            }
            law_order_is_strict(list[i], list[i]);
        }
    }
    if forall|i: int| 0 <= i < list.len() - 1 ==> text_before(#[trigger] list[i], list[i + 1]) {
        assert forall|i: int, j: int|
            #![trigger list[i], list[j]]
            0 <= i < j < list.len() implies text_before(list[i], list[j]) by {
            lemma_chain(list, i, j);
        }
    }
}

proof fn lemma_chain(list: Seq<Seq<char>>, i: int, j: int)
    requires
        forall|i: int| 0 <= i < list.len() - 1 ==> text_before(#[trigger] list[i], list[i + 1]),
        0 <= i < j < list.len(),
    ensures
        text_before(list[i], list[j]),
    decreases j - i,
{
    assert(text_before(list[i], list[i + 1]));
    if i + 1 < j {
        lemma_chain(list, i + 1, j);
        crate::text::lemma_before_transitive(list[i], list[i + 1], list[j]);
    }
}

// ---- what values show ------------------------------------------------------

/// The contents of lists and of optional values show every part of them, in
/// order.
pub proof fn law_texts_show_their_parts(list: Seq<String>, s: String, v: Vec<String>)
    ensures
        texts(list).len() == list.len(),
        forall|i: int| 0 <= i < list.len() ==> #[trigger] texts(list)[i] == list[i]@,
        optional_text(Some(s)) == Some(s@),
        optional_text(None) is None,
        optional_texts(None) is None,
        optional_texts(Some(v)) is Some,
        optional_texts(Some(v))->0.len() == v@.len(),
        forall|i: int| 0 <= i < v@.len() ==> #[trigger] optional_texts(Some(v))->0[i] == v@[i]@,
{
}

} // verus!
