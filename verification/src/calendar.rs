//! The Gregorian calendar: which month a day lies in, and how a month is written.
use crate::text::{
    decimal_digit, decimal_numeral, decimal_value, is_decimal, last_digits,
    law_last_digits_read_back, law_numeral_reads_back, ten_to,
};
use vstd::prelude::*;

verus! {

/// Whether a year has a twenty-ninth of February.
pub open spec fn is_leap_year(year: int) -> bool {
    year % 4 == 0 && (year % 100 != 0 || year % 400 == 0)
}

/// How many leap years there are from the year 1 up to the given year, without it.
/// For earlier years the count runs backwards, below zero.
pub open spec fn leap_years_before(year: int) -> int {
    (year - 1) / 4 - (year - 1) / 100 + (year - 1) / 400
}

/// The number of the first day of a year, counted from the first day of 1970.
pub open spec fn year_start(year: int) -> int {
    365 * (year - 1970) + leap_years_before(year) - leap_years_before(1970)
}

/// How many days a month has; months are counted from one.
pub open spec fn month_length(year: int, month: int) -> int {
    if month == 2 {
        if is_leap_year(year) {
            29
        } else {
            28
        }
    } else if month == 4 || month == 6 || month == 9 || month == 11 {
        30
    } else {
        31
    }
}

/// The number of the first day of a month, counted from the first day of 1970.
pub open spec fn month_start(year: int, month: int) -> int
    decreases month,
{
    if month <= 1 {
        year_start(year)
    } else {
        month_start(year, month - 1) + month_length(year, month - 1)
    }
}

/// Whether a day lies in a month.
pub open spec fn in_month(day: int, year: int, month: int) -> bool {
    &&& 1 <= month <= 12
    &&& month_start(year, month) <= day < month_start(year, month) + month_length(year, month)
}

/// The year and the month that a day lies in.
pub open spec fn month_of(day: int) -> (int, int) {
    choose|ym: (int, int)| #[trigger] in_month(day, ym.0, ym.1)
}

/// A year without its sign, in at least four digits.
pub open spec fn year_digits(n: nat) -> Seq<char> {
    if n < 10_000 {
        seq![
            decimal_digit(n / 1000),
            decimal_digit(n / 100 % 10),
            decimal_digit(n / 10 % 10),
            decimal_digit(n % 10),
        ]
    } else {
        decimal_numeral(n)
    }
}

/// A year as text. Years before the year 0 and after the year 9999 carry a sign.
pub open spec fn year_text(year: int) -> Seq<char> {
    if year < 0 {
        seq!['-'] + year_digits((-year) as nat)
    } else if year < 10_000 {
        year_digits(year as nat)
    } else {
        seq!['+'] + year_digits(year as nat)
    }
}

/// A month as text, such as `2026-03`: the year, a hyphen and two digits.
pub open spec fn month_text(year: int, month: int) -> Seq<char> {
    year_text(year) + seq![
        '-',
        decimal_digit((month / 10) as nat),
        decimal_digit((month % 10) as nat),
    ]
}

/// A year begins where the year before it ends.
proof fn lemma_next_year(year: int)
    ensures
        year_start(year + 1) == year_start(year) + if is_leap_year(year) {
            366int
        } else {
            365int
        },
{
    assert(year / 4 - (year - 1) / 4 == if year % 4 == 0 {
        1int
    } else {
        0int
    });
    assert(year / 100 - (year - 1) / 100 == if year % 100 == 0 {
        1int
    } else {
        0int
    });
    assert(year / 400 - (year - 1) / 400 == if year % 400 == 0 {
        1int
    } else {
        0int
    });
}

/// A later year begins no earlier than a year ends.
proof fn lemma_years_in_order(year: int, later: int)
    requires
        year < later,
    ensures
        year_start(year + 1) <= year_start(later),
    decreases later - year,
{
    if year + 1 < later {
        lemma_years_in_order(year, later - 1);
        lemma_next_year(later - 1);
    }
}

/// Where each month of a year begins.
proof fn lemma_month_starts(year: int)
    ensures
        ({
            let s = year_start(year);
            let leap: int = if is_leap_year(year) {
                1
            } else {
                0
            };
            &&& month_start(year, 1) == s
            &&& month_start(year, 2) == s + 31
            &&& month_start(year, 3) == s + 59 + leap
            &&& month_start(year, 4) == s + 90 + leap
            &&& month_start(year, 5) == s + 120 + leap
            &&& month_start(year, 6) == s + 151 + leap
            &&& month_start(year, 7) == s + 181 + leap
            &&& month_start(year, 8) == s + 212 + leap
            &&& month_start(year, 9) == s + 243 + leap
            &&& month_start(year, 10) == s + 273 + leap
            &&& month_start(year, 11) == s + 304 + leap
            &&& month_start(year, 12) == s + 334 + leap
            &&& year_start(year + 1) == s + 365 + leap
        }),
{
    reveal_with_fuel(month_start, 13);
    lemma_next_year(year);
}

/// Every day lies in some year.
proof fn lemma_year_exists(day: int) -> (year: int)
    ensures
        year_start(year) <= day < year_start(year + 1),
    decreases if day < 0 {
        -day
    } else {
        day
    },
{
    if day == 0 {
        lemma_next_year(1970);
        1970
    } else if day > 0 {
        let year = lemma_year_exists(day - 1);
        lemma_next_year(year + 1);
        if day < year_start(year + 1) {
            year
        } else {
            year + 1
        }
    } else {
        let year = lemma_year_exists(day + 1);
        lemma_next_year(year - 1);
        if day >= year_start(year) {
            year
        } else {
            year - 1
        }
    }
}

/// Every day lies in some month.
proof fn lemma_month_exists(day: int) -> (ym: (int, int))
    ensures
        in_month(day, ym.0, ym.1),
{
    let year = lemma_year_exists(day);
    lemma_month_starts(year);
    let month: int = if day < month_start(year, 2) {
        1
    } else if day < month_start(year, 3) {
        2
    } else if day < month_start(year, 4) {
        3
    } else if day < month_start(year, 5) {
        4
    } else if day < month_start(year, 6) {
        5
    } else if day < month_start(year, 7) {
        6
    } else if day < month_start(year, 8) {
        7
    } else if day < month_start(year, 9) {
        8
    } else if day < month_start(year, 10) {
        9
    } else if day < month_start(year, 11) {
        10
    } else if day < month_start(year, 12) {
        11
    } else {
        12
    };
    (year, month)
}

/// A day that lies in a month of a year lies in that year.
proof fn lemma_month_within_year(day: int, year: int, month: int)
    requires
        in_month(day, year, month),
    ensures
        year_start(year) <= day < year_start(year + 1),
{
    lemma_month_starts(year);
}

/// Every day lies in exactly one month, the one that `month_of` gives.
pub proof fn law_day_lies_in_one_month(day: int, year: int, month: int)
    ensures
        in_month(day, month_of(day).0, month_of(day).1),
        in_month(day, year, month) <==> month_of(day) == (year, month),
{
    let ym = lemma_month_exists(day);
    assert(in_month(day, ym.0, ym.1));
    let of = month_of(day);
    if in_month(day, year, month) {
        lemma_month_within_year(day, year, month);
        lemma_month_within_year(day, of.0, of.1);
        if year < of.0 {
            lemma_years_in_order(year, of.0);
        } else if of.0 < year {
            lemma_years_in_order(of.0, year);
        }
        lemma_month_starts(year);
    }
}

proof fn lemma_decimal_digit_injective(m: nat, n: nat)
    requires
        m < 10,
        n < 10,
    ensures
        decimal_digit(m) == decimal_digit(n) ==> m == n,
        decimal_digit(m) != '-',
        decimal_digit(m) != '+',
{
}

proof fn lemma_decimal_numeral_injective(m: nat, n: nat)
    requires
        decimal_numeral(m) == decimal_numeral(n),
    ensures
        m == n,
    decreases m,
{
    let s = decimal_numeral(m);
    lemma_decimal_digit_injective(m % 10, n % 10);
    lemma_decimal_numeral_len(m);
    lemma_decimal_numeral_len(n);
    if m >= 10 && n >= 10 {
        assert(s.last() == decimal_digit(m % 10));
        assert(decimal_numeral(n).last() == decimal_digit(n % 10));
        assert(s.drop_last() =~= decimal_numeral(m / 10));
        assert(decimal_numeral(n).drop_last() =~= decimal_numeral(n / 10));
        lemma_decimal_numeral_injective(m / 10, n / 10);
    } else {
        assert(s[0] == decimal_digit(m % 10));
        assert(decimal_numeral(n)[0] == decimal_digit(n % 10));
    }
}

proof fn lemma_decimal_numeral_len(n: nat)
    ensures
        decimal_numeral(n).len() >= 1,
        n >= 10 <==> decimal_numeral(n).len() >= 2,
        n >= 10_000 ==> decimal_numeral(n).len() >= 5,
{
    reveal_with_fuel(decimal_numeral, 6);
}

/// A number below ten thousand is the sum of its digits, each times its weight.
proof fn lemma_four_digits(n: nat)
    requires
        n < 10_000,
    ensures
        n == 1000 * (n / 1000) + 100 * (n / 100 % 10) + 10 * (n / 10 % 10) + n % 10,
        n / 1000 < 10,
{
    assert(n / 100 == 10 * (n / 1000) + n / 100 % 10);
    assert(n / 10 == 10 * (n / 100) + n / 10 % 10);
}

proof fn lemma_year_digits_injective(m: nat, n: nat)
    requires
        year_digits(m) == year_digits(n),
    ensures
        m == n,
{
    lemma_decimal_numeral_len(m);
    lemma_decimal_numeral_len(n);
    if m < 10_000 && n < 10_000 {
        let s = year_digits(m);
        let t = year_digits(n);
        lemma_four_digits(m);
        lemma_four_digits(n);
        assert(s[0] == t[0] && s[1] == t[1] && s[2] == t[2] && s[3] == t[3]);
        lemma_decimal_digit_injective(m / 1000, n / 1000);
        lemma_decimal_digit_injective(m / 100 % 10, n / 100 % 10);
        lemma_decimal_digit_injective(m / 10 % 10, n / 10 % 10);
        lemma_decimal_digit_injective(m % 10, n % 10);
    } else if m >= 10_000 && n >= 10_000 {
        lemma_decimal_numeral_injective(m, n);
    }
}

proof fn lemma_year_text_injective(a: int, b: int)
    requires
        year_text(a) == year_text(b),
    ensures
        a == b,
{
    let s = year_text(a);
    let t = year_text(b);
    if 0 <= a < 10_000 {
        lemma_decimal_digit_injective((a / 1000) as nat, 0);
    }
    if 0 <= b < 10_000 {
        lemma_decimal_digit_injective((b / 1000) as nat, 0);
    }
    assert(a < 0 ==> s[0] == '-');
    assert(b < 0 ==> t[0] == '-');
    assert(a >= 10_000 ==> s[0] == '+');
    assert(b >= 10_000 ==> t[0] == '+');
    if 0 <= a < 10_000 {
        lemma_year_digits_injective(a as nat, b as nat);
    } else {
        let m: nat = if a < 0 {
            (-a) as nat
        } else {
            a as nat
        };
        let n: nat = if b < 0 {
            (-b) as nat
        } else {
            b as nat
        };
        assert(s.drop_first() =~= year_digits(m));
        assert(t.drop_first() =~= year_digits(n));
        lemma_year_digits_injective(m, n);
    }
}

/// No two months are written alike.
pub proof fn law_month_text_is_injective(year: int, month: int, other_year: int, other_month: int)
    requires
        1 <= month <= 12,
        1 <= other_month <= 12,
        month_text(year, month) == month_text(other_year, other_month),
    ensures
        year == other_year,
        month == other_month,
{
    let s = month_text(year, month);
    let t = month_text(other_year, other_month);
    let n = s.len() as int;
    assert(s.subrange(0, n - 3) =~= year_text(year));
    assert(t.subrange(0, n - 3) =~= year_text(other_year));
    lemma_year_text_injective(year, other_year);
    assert(s[n - 2] == decimal_digit((month / 10) as nat));
    assert(s[n - 1] == decimal_digit((month % 10) as nat));
    assert(t[n - 2] == decimal_digit((other_month / 10) as nat));
    assert(t[n - 1] == decimal_digit((other_month % 10) as nat));
    lemma_decimal_digit_injective((month / 10) as nat, (other_month / 10) as nat);
    lemma_decimal_digit_injective((month % 10) as nat, (other_month % 10) as nat);
}

/// A year reads back from its text. In the years 0 to 9999 it is four digits; any other
/// year has a sign in front, and at least four digits.
pub proof fn law_year_reads_back(year: int)
    ensures
        0 <= year < 10_000 ==> {
            &&& year_text(year).len() == 4
            &&& is_decimal(year_text(year))
            &&& decimal_value(year_text(year)) == year
        },
        !(0 <= year < 10_000) ==> {
            let digits = year_text(year).skip(1);
            &&& year_text(year)[0] == if year < 0 {
                '-'
            } else {
                '+'
            }
            &&& digits.len() >= 4
            &&& digits.len() > 4 ==> digits[0] != '0'
            &&& is_decimal(digits)
            &&& decimal_value(digits) == if year < 0 {
                -year
            } else {
                year
            }
        },
{
    let n: nat = if year < 0 {
        (-year) as nat
    } else {
        year as nat
    };
    if n < 10_000 {
        reveal_with_fuel(last_digits, 5);
        assert(ten_to(4) == 10_000) by {
            reveal_with_fuel(ten_to, 5);
        }
        law_last_digits_read_back(n, 4);
        assert(n / 10 / 10 == n / 100 && n / 100 / 10 == n / 1000);
        assert(n / 1000 % 10 == n / 1000);
        assert(year_digits(n) =~= last_digits(n, 4));
    } else {
        law_numeral_reads_back(n);
        lemma_decimal_numeral_len(n);
    }
    if !(0 <= year < 10_000) {
        assert(year_text(year).skip(1) =~= year_digits(n));
    }
}

/// A month is written as its year, a hyphen, and two digits that read back as its number.
pub proof fn law_month_reads_back(year: int, month: int)
    requires
        1 <= month <= 12,
    ensures
        ({
            let text = month_text(year, month);
            let n = text.len() as int;
            &&& n >= 7
            &&& text.take(n - 3) == year_text(year)
            &&& text[n - 3] == '-'
            &&& is_decimal(text.skip(n - 2))
            &&& decimal_value(text.skip(n - 2)) == month
        }),
{
    let text = month_text(year, month);
    let n = text.len() as int;
    law_year_reads_back(year);
    assert(text.take(n - 3) =~= year_text(year));
    reveal_with_fuel(last_digits, 3);
    assert(ten_to(2) == 100) by {
        reveal_with_fuel(ten_to, 3);
    }
    law_last_digits_read_back(month as nat, 2);
    assert(month / 10 % 10 == month / 10);
    assert(text.skip(n - 2) =~= last_digits(month as nat, 2));
}

/// The months follow each other without a gap, from the first day of 1970 on and before
/// it. April, June, September and November have thirty days. February has twenty-eight,
/// and one more in every fourth year, but of the full centuries only in every fourth. The
/// other months have thirty-one days.
pub proof fn law_months_follow_each_other(year: int, month: int)
    requires
        1 <= month <= 12,
    ensures
        month_start(1970, 1) == 0,
        ({
            let next = if month < 12 {
                month_start(year, month + 1)
            } else {
                month_start(year + 1, 1)
            };
            let days = next - month_start(year, month);
            let full_century = year % 100 == 0;
            &&& days == month_length(year, month)
            &&& month == 4 || month == 6 || month == 9 || month == 11 ==> days == 30
            &&& month == 2 && full_century ==> days == if year / 100 % 4 == 0 {
                29int
            } else {
                28int
            }
            &&& month == 2 && !full_century ==> days == if year % 4 == 0 {
                29int
            } else {
                28int
            }
            &&& month != 2 && month != 4 && month != 6 && month != 9 && month != 11 ==> days == 31
        }),
{
    assert(year % 100 == 0 ==> (year % 400 == 0 <==> year / 100 % 4 == 0));
    if month == 12 {
        lemma_month_starts(year);
    }
}

}
