//! What the words mean that the other laws are stated in.

use crate::number;
use crate::number::NumberError;
use crate::text;
use vstd::prelude::*;

verus! {

// ---------------------------------------------------------------------------
// Parts of texts
// ---------------------------------------------------------------------------
/// A text stands in another at some index just where each of its characters
/// does, and it occurs there just where it stands at some index.
pub proof fn law_occurring_is_character_by_character(s: Seq<char>, p: Seq<char>)
    ensures
        forall|i: int| #[trigger]
            text::occurs_at(s, p, i) <==> {
                &&& 0 <= i
                &&& i + p.len() <= s.len()
                &&& forall|k: int| 0 <= k < p.len() ==> #[trigger] p[k] == s[i + k]
            },
        text::occurs(s, p) <==> exists|i: int| #[trigger] text::occurs_at(s, p, i),
{
    assert forall|i: int| #[trigger] text::occurs_at(s, p, i) <==> {
        &&& 0 <= i
        &&& i + p.len() <= s.len()
        &&& forall|k: int| 0 <= k < p.len() ==> #[trigger] p[k] == s[i + k]
    } by {
        if 0 <= i && i + p.len() <= s.len() {
            let there = s.subrange(i, i + p.len());
            if there == p {
                assert forall|k: int| 0 <= k < p.len() implies #[trigger] p[k] == s[i + k] by {
                    assert(there[k] == p[k]);
                }
            }
            if forall|k: int| 0 <= k < p.len() ==> #[trigger] p[k] == s[i + k] {
                assert(there =~= p);
            }
        }
    }
}

/// Whether `t` is `s` from index `a` up to index `b`, with nothing but white
/// space around it there, and no white space at either end of it.
pub open spec fn is_core(s: Seq<char>, t: Seq<char>, a: int, b: int) -> bool {
    &&& 0 <= a <= b <= s.len()
    &&& t.len() == b - a
    &&& forall|k: int| 0 <= k < t.len() ==> #[trigger] t[k] == s[a + k]
    &&& forall|k: int| 0 <= k < a ==> text::is_white_space(#[trigger] s[k])
    &&& forall|k: int| b <= k < s.len() ==> text::is_white_space(#[trigger] s[k])
    &&& t.len() > 0 ==> !text::is_white_space(t[0]) && !text::is_white_space(t[t.len() - 1])
}

/// Whether `t` is what is left of `s` without the white space at its ends.
pub open spec fn trims_to(s: Seq<char>, t: Seq<char>) -> bool {
    exists|a: int, b: int| is_core(s, t, a, b)
}

/// Trimming takes the white space off both ends of a text, and nothing else:
/// what is left is a stretch of it, character for character. A text with no
/// white space at its ends is left alone.
pub proof fn law_trimming_keeps_the_core(s: Seq<char>)
    ensures
        trims_to(s, text::trimmed(s)),
        s.len() > 0 && !text::is_white_space(s[0]) && !text::is_white_space(s[s.len() - 1])
            ==> text::trimmed(s) == s,
        s.len() == 0 ==> text::trimmed(s) == s,
{
    let (a, b) = text::lemma_trimmed(s);
    let t = text::trimmed(s);
    assert(is_core(s, t, a, b));
    if s.len() > 0 && !text::is_white_space(s[0]) && !text::is_white_space(s[s.len() - 1]) {
        assert(a == 0);
        assert(b == s.len());
        assert(s.subrange(0, s.len() as int) =~= s);
    }
}

// ---------------------------------------------------------------------------
// Lists of texts
// ---------------------------------------------------------------------------
/// Joining puts the separator between each two neighbours, and nowhere else.
pub proof fn law_joining_is_one_after_the_other(
    first: Seq<char>,
    rest: Seq<Seq<char>>,
    sep: Seq<char>,
)
    ensures
        text::joined(Seq::<Seq<char>>::empty(), sep) == Seq::<char>::empty(),
        text::joined(seq![first] + rest, sep) == if rest.len() == 0 {
            first
        } else {
            first + sep + text::joined(rest, sep)
        },
    decreases rest.len(),
{
    let all = seq![first] + rest;
    if rest.len() == 0 {
        assert(all =~= seq![first]);
    } else {
        let fewer = rest.drop_last();
        law_joining_is_one_after_the_other(first, fewer, sep);
        assert(all.drop_last() =~= seq![first] + fewer);
        assert(all.last() == rest.last());
        if fewer.len() == 0 {
            assert(rest =~= seq![rest.last()]);
            assert(first + sep + rest.last() =~= first + sep + text::joined(rest, sep));
        } else {
            assert(first + sep + text::joined(fewer, sep) + sep + rest.last() =~= first + sep + (
            text::joined(fewer, sep) + sep + rest.last()));
        }
    }
}

/// Splitting loses nothing: the pieces joined by the separator are the text
/// again, and the separator is in none of them.
pub proof fn law_splitting_loses_nothing(s: Seq<char>, sep: char)
    ensures
        text::joined(text::pieces(s, sep), seq![sep]) == s,
        text::pieces(s, sep).len() > 0,
        forall|i: int, k: int|
            0 <= i < text::pieces(s, sep).len() && 0 <= k < text::pieces(s, sep)[i].len()
                ==> #[trigger] text::pieces(s, sep)[i][k] != sep,
    decreases s.len(),
{
    let all = text::pieces(s, sep);
    text::lemma_pieces_nonempty(s, sep);
    text::lemma_pieces_hold_no_separator(s, sep);
    assert forall|i: int, k: int| 0 <= i < all.len() && 0 <= k < all[i].len() implies #[trigger]
        all[i][k] != sep by {
        assert(all[i].contains(all[i][k]));
    }
    if s.len() == 0 {
        assert(all =~= seq![Seq::<char>::empty()]);
        assert(text::joined(all, seq![sep]) =~= s);
    } else {
        let shorter = s.drop_last();
        let before = text::pieces(shorter, sep);
        text::lemma_pieces_nonempty(shorter, sep);
        law_splitting_loses_nothing(shorter, sep);
        if s.last() == sep {
            assert(all.drop_last() =~= before);
            assert(text::joined(all, seq![sep]) =~= shorter + seq![sep]);
            assert(shorter + seq![sep] =~= s);
        } else {
            assert(all.drop_last() =~= before.drop_last());
            if before.len() == 1 {
                assert(text::joined(before, seq![sep]) == before[0]);
                assert(all[0] == before[0].push(s.last()));
                assert(shorter.push(s.last()) =~= s);
            } else {
                let front = text::joined(before.drop_last(), seq![sep]) + seq![sep];
                assert(front + before.last() == shorter);
                assert(front + before.last().push(s.last()) =~= shorter.push(s.last()));
                assert(shorter.push(s.last()) =~= s);
            }
        }
    }
}

// ---------------------------------------------------------------------------
// Replacing
// ---------------------------------------------------------------------------
/// Replacing puts one text in the place of the first copy of another, goes on
/// behind it, and leaves everything before it alone. Where there is no copy the
/// whole text is left alone.
pub proof fn law_replacing_goes_from_left_to_right(
    s: Seq<char>,
    from: Seq<char>,
    to: Seq<char>,
    i: int,
)
    requires
        from.len() > 0,
    ensures
        !text::occurs(s, from) ==> text::replaced(s, from, to) == s,
        text::occurs_at(s, from, i) && (forall|j: int|
            0 <= j < i ==> !#[trigger] text::occurs_at(s, from, j)) ==> text::replaced(s, from, to)
            == s.take(i) + to + text::replaced(s.skip(i + from.len()), from, to),
    decreases s.len(),
{
    let n = from.len() as int;
    if s.len() >= n {
        assert(s.subrange(0, n) =~= s.take(n));
        if from.is_prefix_of(s) {
            assert(text::occurs_at(s, from, 0));
            assert(s.take(0) + to + text::replaced(s.skip(n), from, to) =~= to + text::replaced(
                s.skip(n),
                from,
                to,
            ));
        } else {
            let rest = s.skip(1);
            law_replacing_goes_from_left_to_right(rest, from, to, i - 1);
            assert forall|j: int| text::occurs_at(rest, from, j) implies #[trigger] text::occurs_at(
                s,
                from,
                j + 1,
            ) by {
                assert(rest.subrange(j, j + n) =~= s.subrange(j + 1, j + 1 + n));
            }
            if !text::occurs(s, from) {
                if text::occurs(rest, from) {
                    let j = choose|j: int| text::occurs_at(rest, from, j);
                    assert(text::occurs_at(s, from, j + 1));
                }
                assert(seq![s[0]] + rest =~= s);
            }
            if text::occurs_at(s, from, i) && (forall|j: int|
                0 <= j < i ==> !#[trigger] text::occurs_at(s, from, j)) {
                assert(i > 0);
                assert(rest.subrange(i - 1, i - 1 + n) =~= s.subrange(i, i + n));
                assert(text::occurs_at(rest, from, i - 1));
                assert forall|j: int| 0 <= j < i - 1 implies !#[trigger] text::occurs_at(
                    rest,
                    from,
                    j,
                ) by {
                    if text::occurs_at(rest, from, j) {
                        assert(text::occurs_at(s, from, j + 1));
                    }
                }
                assert(rest.skip(i - 1 + n) =~= s.skip(i + n));
                let end = text::replaced(s.skip(i + n), from, to);
                assert(seq![s[0]] + (rest.take(i - 1) + to + end) =~= s.take(i) + to + end);
            }
        }
    }
}

// ---------------------------------------------------------------------------
// Numbers
// ---------------------------------------------------------------------------
/// A digit more makes ten times as much and the digit.
pub proof fn law_numbers_are_written_digit_by_digit(n: nat, d: nat)
    requires
        d < 10,
    ensures
        n > 0 ==> number::decimal(10 * n + d) == number::decimal(n).push((48 + d) as char),
        number::decimal(d) == seq![(48 + d) as char],
{
    assert((10 * n + d) / 10 == n);
    assert((10 * n + d) % 10 == d);
}

proof fn lemma_digits_of_decimal(n: nat, max: nat)
    ensures
        n <= max ==> number::digits_value(number::decimal(n), max) == Ok::<nat, NumberError>(n),
        n > max ==> number::digits_value(number::decimal(n), max) == Err::<nat, NumberError>(
            NumberError::TooLarge,
        ),
        number::decimal(n).len() > 0,
        '0' <= number::decimal(n)[0] <= '9',
    decreases n,
{
    let s = number::decimal(n);
    if n < 10 {
        assert(s.drop_last() =~= Seq::<char>::empty());
        assert(number::digits_value(s.drop_last(), max) == Ok::<nat, NumberError>(0));
    } else {
        lemma_digits_of_decimal(n / 10, max);
        assert(s.drop_last() =~= number::decimal(n / 10));
        assert(n == (n / 10) * 10 + n % 10);
    }
}

/// A number reads as it is written, with or without a `+` before it, up to the
/// largest that is asked for; a larger one is reported as such.
pub proof fn law_numbers_read_as_they_are_written(n: nat, max: nat)
    ensures
        ({
            let read = if n <= max {
                Ok::<nat, NumberError>(n)
            } else {
                Err::<nat, NumberError>(NumberError::TooLarge)
            };
            &&& number::number(number::decimal(n), max) == read
            &&& number::number(seq!['+'] + number::decimal(n), max) == read
        }),
        number::number(Seq::empty(), max) == Err::<nat, NumberError>(NumberError::Empty),
{
    lemma_digits_of_decimal(n, max);
    let s = number::decimal(n);
    let signed = seq!['+'] + s;
    assert(signed.skip(1) =~= s);
    assert(signed[0] == '+');
    assert(signed.len() > 1);
    assert(s != seq!['+']) by {
        assert(s[0] != '+');
    }
}

proof fn lemma_digits_only(s: Seq<char>, max: nat, i: int)
    requires
        0 <= i < s.len(),
        !('0' <= s[i] <= '9'),
    ensures
        number::digits_value(s, max) is Err,
    decreases s.len(),
{
    if i < s.len() - 1 {
        assert(s.drop_last()[i] == s[i]);
        lemma_digits_only(s.drop_last(), max, i);
    }
}

/// Whatever has anything but digits in it, behind one `+` at most, is no number,
/// and no number is larger than what is asked for.
pub proof fn law_only_digits_make_a_number(s: Seq<char>, max: nat, i: int)
    ensures
        0 <= i < s.len() && !('0' <= s[i] <= '9') && !(i == 0 && s[0] == '+') ==> number::number(
            s,
            max,
        ) is Err,
        number::number(s, max) is Ok ==> s.len() > 0 && number::number(s, max)->Ok_0 <= max,
{
    if 0 <= i < s.len() && !('0' <= s[i] <= '9') && !(i == 0 && s[0] == '+') {
        if s[0] == '+' {
            assert(s.skip(1)[i - 1] == s[i]);
            lemma_digits_only(s.skip(1), max, i - 1);
        } else {
            lemma_digits_only(s, max, i);
        }
    }
}

/// White space and control codes are the characters that Unicode gives the
/// property `White_Space` and the general category `Cc`.
pub proof fn law_white_space_and_control_codes_are_unicodes(c: char)
    ensures
        ({
            let n = c as u32;
            &&& text::is_white_space(c) <==> 0x9 <= n <= 0xD || n == 0x20 || n == 0x85 || n == 0xA0
                || n == 0x1680 || 0x2000 <= n <= 0x200A || 0x2028 <= n <= 0x2029 || n == 0x202F || n
                == 0x205F || n == 0x3000
            &&& text::is_control(c) <==> n < 0x20 || 0x7F <= n < 0xA0
        }),
{
}

} // verus!
