//! Laws of times that are typed, and of those that ffmpeg writes.

use vstd::arithmetic::power::*;
use vstd::prelude::*;

use crate::binary::lemma_nearest;
use crate::cut::{fraction_of, hms, note_in, progress_in, Fraction, Note};
use crate::exec::Stream;
use crate::laws::names::{all_white, only_space_is_trimmed};
use crate::laws::times::{
    lemma_digit_plain, lemma_digits_plain, lemma_pieces_split, lemma_pieces_whole,
    lemma_replaced_same, lemma_trimmed_same,
};
use crate::model::{clock_time, normalised, typed_time};
use crate::numbers::{
    all_digits, digit, exponent_of, is_zero, lemma_far, lemma_value_bound, lemma_value_split,
    mantissa_time, nearest, number, reaches, scaled, spelled, value, whole_number,
};
use crate::probe::seconds_in;
use crate::secs::{of_nanos, Secs};
use crate::text::{
    first_at, lemma_first_at, lemma_first_at_is, lower_text, pieces, replaced, trimmed, white,
};

verus! {

/// Whether a text is a number with a decimal point or without, and not longer than
/// anyone would write.
pub open spec fn is_plain_number(whole: Seq<char>, fraction: Seq<char>) -> bool {
    &&& all_digits(whole) && 0 < whole.len() <= 150
    &&& all_digits(fraction) && fraction.len() <= 9
}

/// The nanoseconds of a number of seconds in digits.
pub open spec fn nanos_of(whole: Seq<char>, fraction: Seq<char>) -> int {
    value(whole) * 1_000_000_000 + value(fraction) * pow(10, (9 - fraction.len()) as nat)
}

/// The digits of a number are those before and those behind the point.
proof fn lemma_digits_joined(a: Seq<char>, b: Seq<char>)
    requires
        all_digits(a),
        all_digits(b),
    ensures
        all_digits(a + b),
{
    assert forall|i: int| 0 <= i < (a + b).len() implies digit(#[trigger] (a + b)[i]) by {
        if i < a.len() {
            assert((a + b)[i] == a[i]);
        } else {
            assert((a + b)[i] == b[i - a.len()]);
        }
    }
}

/// A text of digits and points is none of the words that stand for numbers, and has
/// no exponent and no sign.
proof fn lemma_no_word(s: Seq<char>)
    requires
        s.len() > 0,
        forall|i: int| 0 <= i < s.len() ==> digit(#[trigger] s[i]) || s[i] == '.',
    ensures
        lower_text(s) == s,
        s != "inf"@ && s != "infinity"@ && s != "nan"@,
        first_at(s, 'e') == s.len(),
        s[0] != '-' && s[0] != '+',
{
    reveal_strlit("inf");
    reveal_strlit("infinity");
    reveal_strlit("nan");
    assert forall|i: int| 0 <= i < s.len() implies lower_text(s)[i] == s[i] && s[i] != 'e' by {
        lemma_digit_plain(s[i]);
    }
    assert(lower_text(s) =~= s);
    assert("inf"@[0] == 'i' && "infinity"@[0] == 'i' && "nan"@[0] == 'n');
    assert(digit(s[0]) || s[0] == '.');
    lemma_first_at_is(s, 'e', s.len() as int);
}

/// The time of digits, counted in a unit.
proof fn lemma_number(m: nat, k: nat, digits: nat, unit: nat)
    requires
        m < pow(10, digits),
        digits <= 150 + k,
        k <= unit <= 9,
    ensures
        number(m, -(k as int), unit as int, false) == of_nanos(
            m * pow(10, (unit - k) as nat),
        ),
{
    lemma_far(m, -(k as int));
    lemma_pow_increases(10, digits, 200 + k);
    assert(!reaches(m, -(k as int), 200));
    assert(m == 0 ==> m * pow(2, 1075) == 0) by (nonlinear_arith);
    lemma_pow_positive(10, k);
    assert(is_zero(m, -(k as int)) <==> m == 0);
    let p = pow(10, (unit - k) as nat);
    lemma_pow_positive(10, (unit - k) as nat);
    let v = m as int;
    assert(v > 0 ==> v * p > 0) by (nonlinear_arith)
        requires
            p > 0,
    ;
    assert(v == 0 ==> v * p == 0) by (nonlinear_arith);
    assert(scaled(m, unit - k) == m * p);
}

/// A number of seconds is read as what its digits say: each digit behind the point
/// counts for a tenth of the one before it.
pub proof fn numbers_are_read_digit_by_digit(whole: Seq<char>, fraction: Seq<char>)
    requires
        is_plain_number(whole, fraction),
    ensures
        spelled(whole + seq!['.'] + fraction, 9) == Some(of_nanos(nanos_of(whole, fraction))),
        spelled(whole, 9) == Some(of_nanos(value(whole) * 1_000_000_000int)),
        spelled(whole, 3) == Some(of_nanos(value(whole) * 1_000int)),
{
    let s = whole + seq!['.'] + fraction;
    let k = fraction.len();
    assert forall|i: int| 0 <= i < s.len() implies digit(#[trigger] s[i]) || s[i] == '.' by {
        if i < whole.len() {
            assert(s[i] == whole[i]);
        } else if i > whole.len() {
            assert(s[i] == fraction[i - whole.len() - 1]);
        }
    }
    lemma_no_word(s);
    assert forall|i: int| 0 <= i < whole.len() implies s[i] != '.' by {
        assert(s[i] == whole[i] && digit(whole[i]));
    }
    assert(s[whole.len() as int] == '.');
    lemma_first_at_is(s, '.', whole.len() as int);
    assert(s.take(whole.len() as int) =~= whole);
    assert(s.skip(whole.len() as int + 1) =~= fraction);
    lemma_digits_joined(whole, fraction);
    lemma_value_bound(whole + fraction);
    lemma_value_split(whole, fraction);
    let m = value(whole + fraction);
    lemma_number(m, k, whole.len() + k, 9);
    let p = pow(10, (9 - k) as nat);
    let q = pow(10, k);
    lemma_pow_adds(10, k, (9 - k) as nat);
    assert(pow(10, 9) == 1_000_000_000) by {
        reveal_with_fuel(pow, 10);
    }
    let a = value(whole) as int;
    let b = value(fraction) as int;
    assert((a * q + b) * p == a * (q * p) + b * p) by (nonlinear_arith);
    assert(mantissa_time(s, 0, 9, false) == Some(number(m, -(k as int), 9, false)));
    lemma_whole(whole, 9);
    lemma_whole(whole, 3);
    assert(pow(10, 3) == 1_000) by {
        reveal_with_fuel(pow, 4);
    }
}

proof fn lemma_whole(whole: Seq<char>, unit: nat)
    requires
        all_digits(whole),
        0 < whole.len() <= 150,
        unit <= 9,
    ensures
        spelled(whole, unit as int) == Some(of_nanos(value(whole) * pow(10, unit))),
{
    let none = Seq::<char>::empty();
    assert forall|i: int| 0 <= i < whole.len() implies digit(#[trigger] whole[i]) || whole[i]
        == '.' by {}
    lemma_no_word(whole);
    assert forall|i: int| 0 <= i < whole.len() implies whole[i] != '.' by {
        assert(digit(whole[i]));
    }
    lemma_first_at_is(whole, '.', whole.len() as int);
    assert(whole.take(whole.len() as int) =~= whole);
    assert(whole + none =~= whole);
    lemma_value_bound(whole);
    lemma_number(value(whole), 0, whole.len(), unit);
    assert(mantissa_time(whole, 0, unit as int, false) == Some(
        number(value(whole), 0, unit as int, false),
    ));
}

/// A minus sign in front of a number turns it to the other side of zero, and a plus
/// sign leaves it as it is. What is no number stays none.
pub proof fn signs_choose_the_side_of_zero(s: Seq<char>)
    requires
        s.len() > 0,
        s[0] != '+' && s[0] != '-',
    ensures
        spelled(seq!['+'] + s, 9) == spelled(s, 9),
        match spelled(s, 9) {
            Some(Secs::Finite(n)) => n < i128::MAX ==> n >= 0 && spelled(seq!['-'] + s, 9) == Some(
                Secs::Finite((-n) as i128),
            ),
            Some(Secs::PosInf) => spelled(seq!['-'] + s, 9) == Some(Secs::NegInf),
            other => spelled(seq!['-'] + s, 9) == other,
        },
{
    let plus = seq!['+'] + s;
    let minus = seq!['-'] + s;
    assert(plus.drop_first() =~= s);
    assert(minus.drop_first() =~= s);
    assert(plus[0] == '+' && minus[0] == '-');
}

/// An exponent behind a number makes it so many times ten times as large, or as
/// small.
pub proof fn exponents_are_powers_of_ten(whole: Seq<char>, exponent: Seq<char>)
    requires
        all_digits(whole) && 0 < whole.len() <= 150,
        all_digits(exponent) && exponent.len() > 0,
        value(exponent) <= 40,
    ensures
        spelled(whole + seq!['e'] + exponent, 9) == Some(
            of_nanos(value(whole) * pow(10, value(exponent) + 9)),
        ),
        value(exponent) <= 9 ==> spelled(whole + seq!['e', '-'] + exponent, 9) == Some(
            of_nanos(value(whole) * pow(10, (9 - value(exponent)) as nat)),
        ),
{
    lemma_exponent(whole, exponent, exponent, value(exponent) as int);
    let minus = seq!['-'] + exponent;
    assert(minus.drop_first() =~= exponent);
    assert(whole + seq!['e', '-'] + exponent =~= whole + seq!['e'] + minus);
    lemma_exponent(whole, minus, exponent, -(value(exponent) as int));
    lemma_value_bound(whole);
    lemma_scaled_number(value(whole), whole.len(), value(exponent) as int);
    if value(exponent) <= 9 {
        lemma_scaled_number(value(whole), whole.len(), -(value(exponent) as int));
    }
}

/// A text of digits, an exponent's letter and an exponent falls into its parts.
proof fn lemma_exponent(whole: Seq<char>, behind: Seq<char>, digits: Seq<char>, x: int)
    requires
        all_digits(whole) && 0 < whole.len(),
        all_digits(digits) && digits.len() > 0,
        behind == digits && x == value(digits) || behind == seq!['-'] + digits && x == -(value(
            digits,
        ) as int),
    ensures
        spelled(whole + seq!['e'] + behind, 9) == Some(number(value(whole), x, 9, false)),
{
    let s = whole + seq!['e'] + behind;
    let at = whole.len() as int;
    let low = lower_text(s);
    assert(digit(whole[0]) && s[0] == whole[0]);
    assert(low[0] == s[0]) by {
        lemma_digit_plain(s[0]);
    }
    reveal_strlit("inf");
    reveal_strlit("infinity");
    reveal_strlit("nan");
    assert("inf"@[0] == 'i' && "infinity"@[0] == 'i' && "nan"@[0] == 'n');
    assert(s[at] == 'e');
    assert(low[at] == 'e');
    assert forall|i: int| 0 <= i < at implies low[i] != 'e' by {
        assert(s[i] == whole[i] && digit(whole[i]));
        lemma_digit_plain(s[i]);
    }
    lemma_first_at_is(low, 'e', at);
    assert(s.take(at) =~= whole);
    assert(s.skip(at + 1) =~= behind);
    assert(digit(digits[0]));
    if behind != digits {
        assert(behind.drop_first() =~= digits);
        assert(behind[0] == '-');
    }
    assert(exponent_of(behind) == Some(x));
    assert forall|i: int| 0 <= i < whole.len() implies whole[i] != '.' by {
        assert(digit(whole[i]));
    }
    lemma_first_at_is(whole, '.', whole.len() as int);
    assert(whole.take(whole.len() as int) =~= whole);
    assert(whole + Seq::<char>::empty() =~= whole);
}

/// The time of a number with an exponent.
proof fn lemma_scaled_number(m: nat, digits: nat, x: int)
    requires
        m < pow(10, digits),
        digits <= 150,
        -9 <= x <= 40,
    ensures
        number(m, x, 9, false) == of_nanos(m * pow(10, (x + 9) as nat)),
{
    lemma_far(m, x);
    lemma_pow_increases(10, digits, (200 - x) as nat);
    assert(!reaches(m, x, 200));
    let v = m as int;
    let p = pow(10, (x + 9) as nat);
    lemma_pow_positive(10, (x + 9) as nat);
    assert(v > 0 ==> v * p > 0) by (nonlinear_arith)
        requires
            p > 0,
    ;
    assert(v == 0 ==> v * p == 0) by (nonlinear_arith);
    if m == 0 {
        assert(m * pow(2, 1075) == 0) by (nonlinear_arith)
            requires
                m == 0,
        ;
        if x < 0 {
            lemma_pow_positive(10, (-x) as nat);
        }
    } else if x < 0 {
        lemma_pow_increases(10, 1, (x + 200) as nat);
        assert(reaches(m, x, -200)) by {
            assert(x >= -200);
        }
    }
}

/// The words for what is no finite number stand for no time that can be typed.
pub proof fn infinite_times_are_not_read(s: Seq<char>)
    requires
        is_part(s),
        lower_text(s) == "inf"@ || lower_text(s) == "infinity"@ || lower_text(s) == "nan"@,
    ensures
        typed_time(s) is None,
{
    seconds_alone_are_read(s);
    if s[0] == '-' || s[0] == '+' {
        reveal_strlit("inf");
        reveal_strlit("infinity");
        reveal_strlit("nan");
        assert(lower_text(s)[0] == s[0]);
        assert("inf"@[0] == 'i' && "infinity"@[0] == 'i' && "nan"@[0] == 'n');
    }
}

/// Whether a text is a part of a time as it is typed: it has no white space, no
/// colon and no comma in it, of whatever keyboard.
pub open spec fn is_part(s: Seq<char>) -> bool {
    &&& s.len() > 0
    &&& forall|i: int|
        0 <= i < s.len() ==> !white(#[trigger] s[i]) && s[i] != ':' && s[i] != '：' && s[i] != '，'
            && s[i] != ','
}

/// The parts of a time are what stands between the colons.
proof fn lemma_two(a: Seq<char>, b: Seq<char>)
    requires
        is_part(a),
        is_part(b),
    ensures
        ({
            let s = a + seq![':'] + b;
            &&& normalised(s) == s
            &&& s.contains(':')
            &&& pieces(s, ':') == seq![a, b]
            &&& trimmed(a) == a
            &&& trimmed(b) == b
        }),
{
    let s = a + seq![':'] + b;
    lemma_digit_plain(':');
    assert forall|i: int| 0 <= i < s.len() implies !white(#[trigger] s[i]) && s[i] != '：' && s[i]
        != '，' && s[i] != ',' by {
        if i < a.len() {
            assert(s[i] == a[i]);
        } else if i > a.len() {
            assert(s[i] == b[i - a.len() - 1]);
        }
    }
    lemma_trimmed_same(s);
    lemma_replaced_same(s, '：', ":"@);
    lemma_replaced_same(s, '，', "."@);
    lemma_replaced_same(s, ',', "."@);
    assert(s[a.len() as int] == ':');
    lemma_pieces_split(a, b, ':');
    lemma_pieces_whole(b, ':');
    assert(pieces(s, ':') =~= seq![a, b]);
    assert(!white(a[a.len() - 1]) && !white(b[b.len() - 1]));
    lemma_trimmed_same(a);
    lemma_trimmed_same(b);
}

/// The parts of a time with hours are what stands between the colons.
pub proof fn lemma_three(a: Seq<char>, b: Seq<char>, c: Seq<char>)
    requires
        is_part(a),
        is_part(b),
        is_part(c),
    ensures
        ({
            let s = a + seq![':'] + b + seq![':'] + c;
            &&& normalised(s) == s
            &&& s.contains(':')
            &&& pieces(s, ':') == seq![a, b, c]
            &&& trimmed(a) == a
            &&& trimmed(b) == b
            &&& trimmed(c) == c
        }),
{
    let rest = b + seq![':'] + c;
    let s = a + seq![':'] + b + seq![':'] + c;
    assert(s =~= a + seq![':'] + rest);
    lemma_two(b, c);
    lemma_digit_plain(':');
    assert forall|i: int| 0 <= i < s.len() implies !white(#[trigger] s[i]) && s[i] != '：' && s[i]
        != '，' && s[i] != ',' by {
        if i < a.len() {
            assert(s[i] == a[i]);
        } else if i > a.len() {
            let j = i - a.len() - 1;
            assert(s[i] == rest[j]);
            if j < b.len() {
                assert(rest[j] == b[j]);
            } else if j > b.len() {
                assert(rest[j] == c[j - b.len() - 1]);
            }
        }
    }
    lemma_trimmed_same(s);
    lemma_replaced_same(s, '：', ":"@);
    lemma_replaced_same(s, '，', "."@);
    lemma_replaced_same(s, ',', "."@);
    assert(s[a.len() as int] == ':');
    lemma_pieces_split(a, rest, ':');
    assert(pieces(s, ':') =~= seq![a, b, c]);
    assert(!white(a[a.len() - 1]));
    lemma_trimmed_same(a);
}

/// Whether the text is digits for a number that 64 bits hold.
pub open spec fn is_count(s: Seq<char>) -> bool {
    s.len() > 0 && all_digits(s) && value(s) <= u64::MAX
}

pub proof fn lemma_count(s: Seq<char>)
    requires
        is_count(s),
    ensures
        whole_number(s) == Some(value(s)),
        is_part(s),
{
    lemma_digits_plain(s);
    assert(s[0] != '+');
}

/// A typed time of minutes and seconds is read as sixty seconds for each minute,
/// and the seconds: however many minutes there are.
pub proof fn minutes_and_seconds_are_read(minutes: Seq<char>, secs: Seq<char>, nanos: i128)
    requires
        is_count(minutes),
        is_part(secs),
        spelled(secs, 9) == Some(Secs::Finite(nanos)),
    ensures
        ({
            let read = typed_time(minutes + seq![':'] + secs);
            let sum = value(minutes) * 60 * 1_000_000_000 + nanos;
            &&& sum >= 0 ==> read == Some(of_nanos(sum))
            &&& sum < 0 ==> read is None
        }),
{
    lemma_two(minutes, secs);
    lemma_count(minutes);
}

/// A typed time of hours, minutes and seconds is read as sixty minutes for each
/// hour, sixty seconds for each minute, and the seconds.
pub proof fn hours_minutes_and_seconds_are_read(
    hours: Seq<char>,
    minutes: Seq<char>,
    secs: Seq<char>,
    nanos: i128,
)
    requires
        is_count(hours),
        is_count(minutes),
        is_part(secs),
        spelled(secs, 9) == Some(Secs::Finite(nanos)),
    ensures
        ({
            let read = typed_time(hours + seq![':'] + minutes + seq![':'] + secs);
            let sum = (value(hours) * 3600 + value(minutes) * 60) * 1_000_000_000 + nanos;
            &&& sum >= 0 ==> read == Some(of_nanos(sum))
            &&& sum < 0 ==> read is None
        }),
{
    lemma_three(hours, minutes, secs);
    lemma_count(hours);
    lemma_count(minutes);
    assert((value(hours) * 60 + value(minutes)) * 60 == value(hours) * 3600 + value(minutes) * 60);
}

/// Missing hours count as none: two parts are read like three of which the first is
/// zero, whatever they are.
pub proof fn missing_hours_are_zero(minutes: Seq<char>, secs: Seq<char>)
    requires
        is_part(minutes),
        is_part(secs),
    ensures
        typed_time(minutes + seq![':'] + secs) == typed_time(
            seq!['0'] + seq![':'] + minutes + seq![':'] + secs,
        ),
{
    let none = seq!['0'];
    assert(all_digits(none));
    assert(none.drop_last() =~= Seq::<char>::empty());
    assert(value(none.drop_last()) == 0);
    assert(value(none) == 0);
    lemma_count(none);
    lemma_two(minutes, secs);
    lemma_three(none, minutes, secs);
    assert(clock_time(seq![minutes, secs]) == clock_time(seq![none, minutes, secs]));
}

/// A number of seconds alone is read as just that many, unless it is below zero or
/// not finite.
pub proof fn seconds_alone_are_read(secs: Seq<char>)
    requires
        is_part(secs),
    ensures
        ({
            let number = spelled(secs, 9);
            let is_time = number matches Some(Secs::Finite(n)) && n >= 0;
            typed_time(secs) == if is_time {
                number
            } else {
                None
            }
        }),
{
    lemma_trimmed_same(secs);
    lemma_replaced_same(secs, '：', ":"@);
    lemma_replaced_same(secs, '，', "."@);
    lemma_replaced_same(secs, ',', "."@);
    assert(!secs.contains(':')) by {
        if secs.contains(':') {
            let i = choose|i: int| 0 <= i < secs.len() && secs[i] == ':';
            assert(secs[i] != ':');
        }
    }
}

/// A time with more than three parts, or with a part that is no number, is no time.
pub proof fn other_clocks_are_not_read(parts: Seq<Seq<char>>, i: int)
    requires
        parts.len() > 3 || parts.len() < 2 || (0 <= i < parts.len() - 1 && whole_number(
            trimmed(parts[i]),
        ) is None) || spelled(trimmed(parts.last()), 9) is None,
    ensures
        clock_time(parts) is None,
{
}

/// Minutes that are no whole number, and seconds that are no finite number, make no
/// time.
pub proof fn unfinished_clocks_are_not_read(minutes: Seq<char>, secs: Seq<char>)
    requires
        is_part(minutes),
        is_part(secs),
        !(is_count(minutes) || (minutes[0] == '+' && is_count(minutes.drop_first()))) || !(spelled(
            secs,
            9,
        ) matches Some(Secs::Finite(_))),
    ensures
        typed_time(minutes + seq![':'] + secs) is None,
{
    lemma_two(minutes, secs);
}

/// A sign of another keyboard is read like the one that it stands for.
pub open spec fn usual(c: char) -> char {
    if c == '：' {
        ':'
    } else if c == '，' || c == ',' {
        '.'
    } else {
        c
    }
}

pub proof fn lemma_replaced_one(s: Seq<char>, c: char, d: char)
    ensures
        replaced(s, c, seq![d]) == s.map_values(
            |x: char|
                if x == c {
                    d
                } else {
                    x
                },
        ),
    decreases s.len(),
{
    let f = |x: char|
        if x == c {
            d
        } else {
            x
        };
    if s.len() > 0 {
        lemma_replaced_one(s.drop_last(), c, d);
    }
    assert(replaced(s, c, seq![d]) =~= s.map_values(f));
}

/// The colon, the comma and the point that a Chinese keyboard gives are read like
/// those of any other, and a comma like a point.
pub proof fn signs_of_other_keyboards_are_read(s: Seq<char>)
    requires
        s.len() > 0 ==> !white(s[0]) && !white(s.last()),
    ensures
        typed_time(s) == typed_time(s.map_values(|c: char| usual(c))),
{
    reveal_strlit(":");
    reveal_strlit(".");
    assert(":"@ =~= seq![':']);
    assert("."@ =~= seq!['.']);
    let t = s.map_values(|c: char| usual(c));
    lemma_usual(s);
    if t.len() > 0 {
        assert(t[0] == usual(s[0]) && t.last() == usual(s.last()));
        lemma_digit_plain(':');
        lemma_digit_plain('.');
    }
    lemma_usual(t);
    assert(t.map_values(|c: char| usual(c)) =~= t);
}

proof fn lemma_usual(s: Seq<char>)
    requires
        s.len() > 0 ==> !white(s[0]) && !white(s.last()),
    ensures
        normalised(s) == s.map_values(|c: char| usual(c)),
{
    reveal_strlit(":");
    reveal_strlit(".");
    assert(":"@ =~= seq![':']);
    assert("."@ =~= seq!['.']);
    lemma_trimmed_same(s);
    lemma_replaced_one(s, '：', ':');
    let a = replaced(s, '：', ":"@);
    lemma_replaced_one(a, '，', '.');
    let b = replaced(a, '，', "."@);
    lemma_replaced_one(b, ',', '.');
    assert(normalised(s) =~= s.map_values(|c: char| usual(c)));
}

/// A length that ffprobe writes is read as what its digits say.
pub proof fn lengths_are_read_digit_by_digit(whole: Seq<char>, fraction: Seq<char>)
    requires
        is_plain_number(whole, fraction),
    ensures
        seconds_in(whole + seq!['.'] + fraction) == Some(of_nanos(nanos_of(whole, fraction))),
        seconds_in(whole) == Some(of_nanos(value(whole) * 1_000_000_000int)),
{
    numbers_are_read_digit_by_digit(whole, fraction);
    let s = whole + seq!['.'] + fraction;
    assert(s[0] == whole[0] && digit(whole[0]));
    lemma_digit_plain(s[0]);
    lemma_digit_plain('.');
    if fraction.len() > 0 {
        assert(s.last() == fraction.last() && digit(fraction[fraction.len() - 1]));
    } else {
        assert(s.last() == '.');
    }
    lemma_digit_plain(s.last());
    lemma_trimmed_same(s);
    assert(digit(whole[whole.len() - 1]));
    lemma_digit_plain(whole.last());
    lemma_trimmed_same(whole);
}

/// What stands before the first `=` of a line, and what stands behind it.
proof fn lemma_line(key: Seq<char>, text: Seq<char>)
    requires
        forall|i: int| 0 <= i < key.len() ==> #[trigger] key[i] != '=',
    ensures
        ({
            let line = key + seq!['='] + text;
            &&& first_at(line, '=') == key.len()
            &&& line.take(key.len() as int) == key
            &&& line.skip(key.len() as int + 1) == text
            &&& line.len() == key.len() + 1 + text.len()
        }),
{
    let line = key + seq!['='] + text;
    assert(line[key.len() as int] == '=');
    assert forall|i: int| 0 <= i < key.len() implies line[i] != '=' by {
        assert(line[i] == key[i]);
    }
    lemma_first_at_is(line, '=', key.len() as int);
    assert(line.take(key.len() as int) =~= key);
    assert(line.skip(key.len() as int + 1) =~= text);
}

/// A number with a point in it is a part of a time.
proof fn lemma_number_part(whole: Seq<char>, fraction: Seq<char>)
    requires
        is_plain_number(whole, fraction),
    ensures
        is_part(whole + seq!['.'] + fraction),
{
    let secs = whole + seq!['.'] + fraction;
    lemma_digit_plain('.');
    assert forall|i: int| 0 <= i < secs.len() implies !white(#[trigger] secs[i]) && secs[i] != ':'
        && secs[i] != '：' && secs[i] != '，' && secs[i] != ',' by {
        if i < whole.len() {
            assert(secs[i] == whole[i] && digit(whole[i]));
            lemma_digit_plain(secs[i]);
        } else if i > whole.len() {
            let j = i - whole.len() - 1;
            assert(secs[i] == fraction[j] && digit(fraction[j]));
            lemma_digit_plain(secs[i]);
        }
    }
}

/// Hours, minutes and seconds as ffmpeg writes them are read as sixty minutes for
/// each hour, sixty seconds for each minute, and the seconds.
pub proof fn clocks_of_ffmpeg_are_read(
    hours: Seq<char>,
    minutes: Seq<char>,
    whole: Seq<char>,
    fraction: Seq<char>,
)
    requires
        is_plain_number(hours, Seq::empty()) && hours.len() <= 9,
        is_plain_number(minutes, Seq::empty()) && minutes.len() <= 9,
        is_plain_number(whole, fraction) && whole.len() <= 9,
    ensures
        hms(hours + seq![':'] + minutes + seq![':'] + (whole + seq!['.'] + fraction)) == Some(
            of_nanos(
                (value(hours) * 3600 + value(minutes) * 60) * 1_000_000_000 + nanos_of(
                    whole,
                    fraction,
                ),
            ),
        ),
{
    let secs = whole + seq!['.'] + fraction;
    let clock = hours + seq![':'] + minutes + seq![':'] + secs;
    lemma_digits_plain(hours);
    lemma_digits_plain(minutes);
    lemma_number_part(whole, fraction);
    lemma_three(hours, minutes, secs);
    assert(clock[0] == hours[0]);
    assert(clock.last() == secs[secs.len() - 1]);
    lemma_trimmed_same(clock);
    numbers_are_read_digit_by_digit(hours, Seq::empty());
    numbers_are_read_digit_by_digit(minutes, Seq::empty());
    numbers_are_read_digit_by_digit(whole, fraction);
    lemma_small(hours);
    lemma_small(minutes);
    lemma_small_time(whole, fraction);
}

/// A line of a name and a text that both have no space around them.
proof fn lemma_plain_line(key: Seq<char>, text: Seq<char>)
    requires
        forall|i: int| 0 <= i < key.len() ==> #[trigger] key[i] != '=' && !white(key[i]),
        text.len() > 0 ==> !white(text[0]) && !white(text.last()),
        key == "out_time_us"@ || key == "out_time_ms"@,
    ensures
        progress_in(key + seq!['='] + text) == spelled(text, 3),
{
    lemma_trimmed_same(key);
    lemma_trimmed_same(text);
    lemma_line(key, text);
}

proof fn lemma_us_line(text: Seq<char>)
    requires
        text.len() > 0 ==> !white(text[0]) && !white(text.last()),
    ensures
        progress_in("out_time_us"@ + seq!['='] + text) == spelled(text, 3),
{
    reveal_strlit("out_time_us");
    let key = "out_time_us"@;
    assert forall|i: int| 0 <= i < key.len() implies #[trigger] key[i] != '=' && !white(key[i]) by {}
    lemma_plain_line(key, text);
}

proof fn lemma_ms_line(text: Seq<char>)
    requires
        text.len() > 0 ==> !white(text[0]) && !white(text.last()),
    ensures
        progress_in("out_time_ms"@ + seq!['='] + text) == spelled(text, 3),
{
    reveal_strlit("out_time_ms");
    let key = "out_time_ms"@;
    assert forall|i: int| 0 <= i < key.len() implies #[trigger] key[i] != '=' && !white(key[i]) by {}
    lemma_plain_line(key, text);
}

/// How much ffmpeg has written is read from what it says of it in microseconds:
/// under either of two names, of which one is misleading.
pub proof fn microseconds_are_read(digits: Seq<char>)
    requires
        is_plain_number(digits, Seq::empty()),
    ensures
        progress_in("out_time_us"@ + seq!['='] + digits) == Some(of_nanos(value(digits) * 1_000int)),
        progress_in("out_time_ms"@ + seq!['='] + digits) == Some(of_nanos(value(digits) * 1_000int)),
{
    assert(digit(digits[0]) && digit(digits[digits.len() - 1]));
    lemma_digit_plain(digits[0]);
    lemma_digit_plain(digits.last());
    lemma_us_line(digits);
    lemma_ms_line(digits);
    numbers_are_read_digit_by_digit(digits, Seq::empty());
}

/// How much ffmpeg has written is read from what it says of it as a clock would.
pub proof fn written_times_are_read(text: Seq<char>)
    requires
        text.len() > 0 ==> !white(text[0]) && !white(text.last()),
    ensures
        progress_in("out_time"@ + seq!['='] + text) == hms(text),
{
    reveal_strlit("out_time");
    reveal_strlit("out_time_us");
    reveal_strlit("out_time_ms");
    lemma_trimmed_same("out_time"@);
    lemma_trimmed_same(text);
    lemma_line("out_time"@, text);
    assert("out_time"@.len() != "out_time_us"@.len());
    assert("out_time"@.len() != "out_time_ms"@.len());
}

proof fn lemma_small(s: Seq<char>)
    requires
        all_digits(s),
        s.len() <= 9,
    ensures
        value(s) < 1_000_000_000,
{
    lemma_value_bound(s);
    lemma_pow_increases(10, s.len(), 9);
    assert(pow(10, 9) == 1_000_000_000) by {
        reveal_with_fuel(pow, 10);
    }
}

proof fn lemma_small_time(whole: Seq<char>, fraction: Seq<char>)
    requires
        is_plain_number(whole, fraction),
        whole.len() <= 9,
    ensures
        0 <= nanos_of(whole, fraction) <= 1_000_000_000 * 1_000_000_000,
{
    lemma_small(whole);
    lemma_value_bound(fraction);
    let k = fraction.len();
    lemma_pow_adds(10, k, (9 - k) as nat);
    lemma_pow_positive(10, (9 - k) as nat);
    assert(pow(10, 9) == 1_000_000_000) by {
        reveal_with_fuel(pow, 10);
    }
    let v = value(fraction) as int;
    let p = pow(10, (9 - k) as nat);
    let q = pow(10, k);
    assert(0 <= v * p <= q * p) by (nonlinear_arith)
        requires
            0 <= v <= q,
            p >= 0,
    ;
}

/// Whatever else a line says, it tells nothing of how much is written.
pub proof fn other_lines_tell_no_progress(key: Seq<char>, text: Seq<char>)
    requires
        forall|i: int| 0 <= i < key.len() ==> #[trigger] key[i] != '=',
        trimmed(key) != "out_time"@ && trimmed(key) != "out_time_us"@ && trimmed(key)
            != "out_time_ms"@,
    ensures
        progress_in(key + seq!['='] + text) is None,
        progress_in(key) is None,
{
    lemma_line(key, text);
    lemma_first_at(key, '=');
    assert(!key.contains('=')) by {
        if key.contains('=') {
            let i = choose|i: int| 0 <= i < key.len() && key[i] == '=';
            assert(key[i] != '=');
        }
    }
}

/// How much of a cut is done is what was written before and what the running program
/// has written, of all there is to write: never less than nothing, nor more than all.
pub proof fn progress_counts_what_was_written(
    line: Seq<char>,
    base: i128,
    written: i128,
    total: i128,
)
    requires
        progress_in(line) == Some(Secs::Finite(written)),
        0 <= base <= total,
        0 < total,
        0 <= written,
        base + written <= i128::MAX,
    ensures
        ({
            let note = note_in(Stream::Stdout, line, Secs::Finite(base), Secs::Finite(total));
            let done = if base + written < total {
                base + written
            } else {
                total as int
            };
            note matches Some(Note::Progress(Fraction::Of { part, whole })) && whole > 0 && part
                * total == done * whole
        }),
{
    let sum = (base + written) as i128;
    assert(fraction_of(Secs::Finite(sum), Secs::Finite(total)) matches Fraction::Of { part, whole }
        && whole > 0) ;
    assert(1 * total == total * 1);
    assert(0 * total == 0 * 1);
    assert(sum * total == sum * total);
}

/// What ffmpeg says on stderr is shown, but for the space around it; what it says
/// on stdout is not.
pub proof fn messages_are_shown(line: Seq<char>, base: Secs, total: Secs)
    ensures
        trimmed(line).len() > 0 ==> note_in(Stream::Stderr, line, base, total) == Some(
            Note::Line(trimmed(line)),
        ),
        trimmed(line).len() == 0 ==> note_in(Stream::Stderr, line, base, total) is None,
        !(note_in(Stream::Stdout, line, base, total) matches Some(Note::Line(_))),
{
}

/// A number with more decimal places than a nanosecond has is read as the nearest
/// nanosecond.
pub proof fn long_fractions_are_rounded(whole: Seq<char>, fraction: Seq<char>)
    requires
        all_digits(whole) && 0 < whole.len() <= 100,
        all_digits(fraction) && 9 < fraction.len() <= 60,
        value(whole) > 0,
    ensures
        ({
            let p = pow(10, (fraction.len() - 9) as nat);
            exists|t: int|
                -p <= 2 * (t * p - value(whole + fraction)) <= p && #[trigger] of_nanos(t)
                    == spelled(whole + seq!['.'] + fraction, 9)->Some_0
        }),
        spelled(whole + seq!['.'] + fraction, 9) is Some,
{
    let s = whole + seq!['.'] + fraction;
    let k = fraction.len();
    assert forall|i: int| 0 <= i < s.len() implies digit(#[trigger] s[i]) || s[i] == '.' by {
        if i < whole.len() {
            assert(s[i] == whole[i]);
        } else if i > whole.len() {
            assert(s[i] == fraction[i - whole.len() - 1]);
        }
    }
    lemma_no_word(s);
    assert forall|i: int| 0 <= i < whole.len() implies s[i] != '.' by {
        assert(s[i] == whole[i] && digit(whole[i]));
    }
    assert(s[whole.len() as int] == '.');
    lemma_first_at_is(s, '.', whole.len() as int);
    assert(s.take(whole.len() as int) =~= whole);
    assert(s.skip(whole.len() as int + 1) =~= fraction);
    lemma_digits_joined(whole, fraction);
    lemma_value_bound(whole + fraction);
    lemma_value_split(whole, fraction);
    let m = value(whole + fraction);
    let p = pow(10, (k - 9) as nat);
    let q = pow(10, k);
    lemma_pow_positive(10, (k - 9) as nat);
    lemma_pow_increases(10, (k - 9) as nat, k);
    let a = value(whole) as int;
    assert(a * q >= q) by (nonlinear_arith)
        requires
            a >= 1,
            q >= 0,
    ;
    assert(m >= p);
    lemma_far(m, -(k as int));
    lemma_pow_increases(10, (whole + fraction).len(), 200 + k);
    assert(!reaches(m, -(k as int), 200));
    assert(reaches(m, -(k as int), -200));
    let t = nearest(m, p as nat) as int;
    lemma_nearest(m, p as nat);
    assert(t >= 1) by (nonlinear_arith)
        requires
            -p <= 2 * (t * p - m) <= p,
            m >= p,
            p > 0,
    ;
    assert(scaled(m, 9 - k) == t);
    assert(of_nanos(t) == spelled(s, 9)->Some_0);
}

/// White space around the parts of a time makes no difference.
pub proof fn space_between_parts_makes_no_difference(
    front: Seq<char>,
    minutes: Seq<char>,
    gap: Seq<char>,
    other_gap: Seq<char>,
    secs: Seq<char>,
    back: Seq<char>,
)
    requires
        is_part(minutes) && is_part(secs),
        all_white(front) && all_white(gap) && all_white(other_gap) && all_white(back),
    ensures
        typed_time(front + (minutes + gap + seq![':'] + (other_gap + secs)) + back) == typed_time(
            minutes + seq![':'] + secs,
        ),
{
    let none = Seq::<char>::empty();
    let a = minutes + gap;
    let b = other_gap + secs;
    let s = a + seq![':'] + b;
    assert(s[0] == minutes[0]);
    assert(s.last() == secs[secs.len() - 1]);
    only_space_is_trimmed(front, s, back);
    only_space_is_trimmed(none, minutes, gap);
    assert(none + minutes + gap =~= a);
    only_space_is_trimmed(other_gap, secs, none);
    assert(other_gap + secs + none =~= b);
    assert forall|i: int| 0 <= i < a.len() implies #[trigger] a[i] != ':' && a[i] != '：' && a[i]
        != '，' && a[i] != ',' by {
        if i < minutes.len() {
            assert(a[i] == minutes[i]);
        } else {
            assert(a[i] == gap[i - minutes.len()] && white(gap[i - minutes.len()]));
        }
    }
    assert forall|i: int| 0 <= i < b.len() implies #[trigger] b[i] != ':' && b[i] != '：' && b[i]
        != '，' && b[i] != ',' by {
        if i < other_gap.len() {
            assert(b[i] == other_gap[i] && white(other_gap[i]));
        } else {
            assert(b[i] == secs[i - other_gap.len()]);
        }
    }
    assert forall|i: int| 0 <= i < s.len() implies #[trigger] s[i] != '：' && s[i] != '，' && s[i]
        != ',' by {
        if i < a.len() {
            assert(s[i] == a[i]);
        } else if i > a.len() {
            assert(s[i] == b[i - a.len() - 1]);
        }
    }
    lemma_replaced_same(s, '：', ":"@);
    lemma_replaced_same(s, '，', "."@);
    lemma_replaced_same(s, ',', "."@);
    assert(s[a.len() as int] == ':');
    lemma_pieces_split(a, b, ':');
    lemma_pieces_whole(b, ':');
    assert(pieces(s, ':') =~= seq![a, b]);
    lemma_two(minutes, secs);
    assert(normalised(front + s + back) == s);
    assert(clock_time(seq![a, b]) == clock_time(seq![minutes, secs]));
}

} // verus!
