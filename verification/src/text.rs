//! Small operations on text: trimming, the first line, decimal numerals.
use vstd::arithmetic::div_mod::{lemma_mod_breakdown, lemma_small_mod};
use vstd::prelude::*;

verus! {

/// A text without the run of `c` that it ends with.
pub open spec fn without_trailing(s: Seq<char>, c: char) -> Seq<char>
    decreases s.len(),
{
    if s.len() > 0 && s.last() == c {
        without_trailing(s.drop_last(), c)
    } else {
        s
    }
}

/// `n` times the character `c`.
pub open spec fn run_of(c: char, n: nat) -> Seq<char> {
    Seq::new(n, |i: int| c)
}

/// Trimming cuts the text at the last character other than `c`.
proof fn lemma_without_trailing_at(s: Seq<char>, c: char, end: int)
    requires
        0 <= end <= s.len(),
        end > 0 ==> s[end - 1] != c,
        forall|i: int| end <= i < s.len() ==> s[i] == c,
    ensures
        without_trailing(s, c) == s.take(end),
    decreases s.len(),
{
    if end < s.len() {
        lemma_without_trailing_at(s.drop_last(), c, end);
        assert(s.drop_last().take(end) =~= s.take(end));
    } else {
        assert(s.take(end) =~= s);
    }
}

/// A run of `c` at the end of a text makes no difference to what trimming leaves of it.
pub proof fn law_trailing_run_is_ignored(s: Seq<char>, c: char, n: nat)
    ensures
        without_trailing(s + run_of(c, n), c) == without_trailing(s, c),
    decreases n,
{
    if n == 0 {
        assert(s + run_of(c, 0) =~= s);
    } else {
        let longer = s + run_of(c, n);
        assert(longer.drop_last() =~= s + run_of(c, (n - 1) as nat));
        law_trailing_run_is_ignored(s, c, (n - 1) as nat);
    }
}

/// What trimming leaves does not end with `c`, and the text is what it leaves
/// followed by a run of `c`.
pub proof fn law_trimming_removes_just_the_trailing_run(s: Seq<char>, c: char)
    ensures
        ({
            let left = without_trailing(s, c);
            &&& left.len() > 0 ==> left.last() != c
            &&& left.len() <= s.len()
            &&& s == left + run_of(c, (s.len() - left.len()) as nat)
            &&& left == s.take(left.len() as int)
            &&& forall|i: int| left.len() <= i < s.len() ==> s[i] == c
        }),
    decreases s.len(),
{
    let left = without_trailing(s, c);
    if s.len() > 0 && s.last() == c {
        law_trimming_removes_just_the_trailing_run(s.drop_last(), c);
        assert(s =~= s.drop_last().push(c));
    }
    assert(s =~= left + run_of(c, (s.len() - left.len()) as nat));
    assert(left =~= s.take(left.len() as int));
}

/// Cuts off the run of `c` that the text ends with.
pub fn trim_trailing<'a>(s: &'a str, c: char) -> (left: &'a str)
    ensures
        left@ == without_trailing(s@, c),
{
    let ghost all = s@;
    let count: usize = s.unicode_len();
    let mut length: usize = 0;
    let mut end: usize = 0;
    for d in iter: s.chars()
        invariant
            iter.seq() == all,
            count == all.len(),
            length == iter.index(),
            0 <= end <= length,
            end > 0 ==> all[end - 1] != c,
            forall|i: int| end <= i < length ==> all[i] == c,
    {
        length += 1;
        if d != c {
            end = length;
        }
    }
    proof {
        lemma_without_trailing_at(all, c, end as int);
        assert(all.subrange(0, end as int) =~= all.take(end as int));
    }
    s.substring_char(0, end)
}

/// Where the first line of a text ends: at its first line feed, or else at its end.
pub open spec fn line_end(s: Seq<char>) -> nat
    decreases s.len(),
{
    if s.len() == 0 || s[0] == '\n' {
        0
    } else {
        1 + line_end(s.drop_first())
    }
}

/// The first line of a text without its line ending, which is a line feed or a
/// carriage return and a line feed. An empty text has no line.
pub open spec fn first_line_of(s: Seq<char>) -> Option<Seq<char>> {
    let end = line_end(s) as int;
    if s.len() == 0 {
        None
    } else if 0 < end < s.len() && s[end - 1] == '\r' {
        Some(s.take(end - 1))
    } else {
        Some(s.take(end))
    }
}

/// The first line ends at the first line feed, or at the end of the text.
pub proof fn lemma_line_end_at(s: Seq<char>, end: int)
    requires
        0 <= end <= s.len(),
        end < s.len() ==> s[end] == '\n',
        forall|i: int| 0 <= i < end ==> s[i] != '\n',
    ensures
        line_end(s) == end,
    decreases s.len(),
{
    if end > 0 {
        lemma_line_end_at(s.drop_first(), end - 1);
    }
}

/// The end of the first line lies within the text, and no line feed comes before it.
proof fn lemma_line_end(s: Seq<char>)
    ensures
        line_end(s) <= s.len(),
        line_end(s) < s.len() ==> s[line_end(s) as int] == '\n',
        forall|i: int| 0 <= i < line_end(s) ==> s[i] != '\n',
    decreases s.len(),
{
    if s.len() > 0 && s[0] != '\n' {
        let rest = s.drop_first();
        lemma_line_end(rest);
        assert forall|i: int| 0 <= i < line_end(s) implies s[i] != '\n' by {
            if i > 0 {
                assert(s[i] == rest[i - 1]);
            }
        }
    }
}

/// The first line is the beginning of its text and holds no line feed. Right behind it
/// the text ends, or a line feed follows, or a carriage return and a line feed; a carriage
/// return in front of the line feed is never part of the line.
pub proof fn law_first_line_is_one_line(s: Seq<char>)
    ensures
        first_line_of(s) is None <==> s.len() == 0,
        first_line_of(s) matches Some(line) ==> {
            &&& line.len() <= s.len()
            &&& line == s.take(line.len() as int)
            &&& !line.contains('\n')
            &&& {
                let n = line.len() as int;
                ||| n == s.len()
                ||| s[n] == '\n' && (n > 0 ==> s[n - 1] != '\r')
                ||| n + 1 < s.len() && s[n] == '\r' && s[n + 1] == '\n'
            }
        },
{
    lemma_line_end(s);
}

/// The first line of a text, without its line ending. An empty text has none.
pub fn first_line<'a>(s: &'a str) -> (line: Option<&'a str>)
    ensures
        match line {
            Some(l) => first_line_of(s@) == Some(l@),
            None => first_line_of(s@) is None,
        },
{
    let ghost all = s@;
    let count: usize = s.unicode_len();
    if count == 0 {
        return None;
    }
    let mut end: usize = 0;
    let mut after_return: bool = false;
    for c in iter: s.chars()
        invariant
            iter.seq() == all,
            all == s@,
            0 < count == all.len(),
            end == iter.index(),
            after_return == (end > 0 && all[end - 1] == '\r'),
            forall|i: int| 0 <= i < end ==> all[i] != '\n',
    {
        if c == '\n' {
            proof {
                lemma_line_end_at(all, end as int);
                assert(all.subrange(0, end as int) =~= all.take(end as int));
                if end > 0 {
                    assert(all.subrange(0, end - 1) =~= all.take(end - 1));
                }
            }
            if after_return {
                return Some(s.substring_char(0, end - 1));
            }
            return Some(s.substring_char(0, end));
        }
        after_return = c == '\r';
        end += 1;
    }
    proof {
        lemma_line_end_at(all, end as int);
        assert(all.take(end as int) =~= all);
    }
    Some(s)
}

/// At most the first `n` characters of a text.
pub open spec fn at_most(s: Seq<char>, n: nat) -> Seq<char> {
    if s.len() <= n {
        s
    } else {
        s.take(n as int)
    }
}

/// At most the first `n` characters of a text.
pub fn first_chars<'a>(s: &'a str, n: usize) -> (start: &'a str)
    ensures
        start@ == at_most(s@, n as nat),
{
    if s.unicode_len() <= n {
        s
    } else {
        proof {
            assert(s@.subrange(0, n as int) =~= s@.take(n as int));
        }
        s.substring_char(0, n)
    }
}

/// The decimal digit of a number below ten.
pub open spec fn decimal_digit(n: nat) -> char {
    (('0' as u32) + n) as char
}

/// The decimal numeral of a number.
pub open spec fn decimal_numeral(n: nat) -> Seq<char>
    decreases n,
{
    if n < 10 {
        seq![decimal_digit(n)]
    } else {
        decimal_numeral(n / 10).push(decimal_digit(n % 10))
    }
}

/// The last `width` decimal digits of a number, with zeros in front where it has fewer.
pub open spec fn last_digits(n: nat, width: nat) -> Seq<char>
    decreases width,
{
    if width == 0 {
        seq![]
    } else {
        last_digits(n / 10, (width - 1) as nat).push(decimal_digit(n % 10))
    }
}

/// The text of the one decimal digit of a number below ten.
fn digit_text(n: usize) -> (digit: &'static str)
    requires
        n < 10,
    ensures
        digit@ == seq![decimal_digit(n as nat)],
{
    proof {
        reveal_strlit("0");
        reveal_strlit("1");
        reveal_strlit("2");
        reveal_strlit("3");
        reveal_strlit("4");
        reveal_strlit("5");
        reveal_strlit("6");
        reveal_strlit("7");
        reveal_strlit("8");
        reveal_strlit("9");
    }
    match n {
        0 => "0",
        1 => "1",
        2 => "2",
        3 => "3",
        4 => "4",
        5 => "5",
        6 => "6",
        7 => "7",
        8 => "8",
        _ => "9",
    }
}

/// Writes a number as a decimal numeral.
pub fn decimal(n: usize) -> (numeral: String)
    ensures
        numeral@ == decimal_numeral(n as nat),
    decreases n,
{
    if n < 10 {
        digit_text(n).to_owned()
    } else {
        let mut numeral: String = decimal(n / 10);
        let digit = digit_text(n % 10);
        numeral.append(digit);
        proof {
            assert(numeral@ =~= decimal_numeral(n as nat));
        }
        numeral
    }
}

/// Cutting a text to `n` characters leaves its beginning: all of it where it is no longer
/// than that, and else just `n` characters.
pub proof fn law_cut_leaves_the_beginning(s: Seq<char>, n: nat)
    ensures
        at_most(s, n).is_prefix_of(s),
        s.len() <= n ==> at_most(s, n).len() == s.len(),
        s.len() > n ==> at_most(s, n).len() == n,
{
    assert(at_most(s, n) =~= s.subrange(0, at_most(s, n).len() as int));
}

/// The number that a row of decimal digits stands for.
pub open spec fn decimal_value(digits: Seq<char>) -> nat
    decreases digits.len(),
{
    if digits.len() == 0 {
        0
    } else {
        (10 * decimal_value(digits.drop_last()) + (digits.last() as int - '0' as int)) as nat
    }
}

/// Whether every character of a text is a decimal digit.
pub open spec fn is_decimal(s: Seq<char>) -> bool {
    forall|i: int| 0 <= i < s.len() ==> '0' <= #[trigger] s[i] <= '9'
}

/// Ten to the power of `n`.
pub open spec fn ten_to(n: nat) -> nat
    decreases n,
{
    if n == 0 {
        1
    } else {
        10 * ten_to((n - 1) as nat)
    }
}

/// One more digit on the right makes a number ten times as great, plus the digit.
proof fn lemma_decimal_value_push(digits: Seq<char>, n: nat)
    requires
        is_decimal(digits),
        n < 10,
    ensures
        is_decimal(digits.push(decimal_digit(n))),
        decimal_value(digits.push(decimal_digit(n))) == 10 * decimal_value(digits) + n,
{
    assert(digits.push(decimal_digit(n)).drop_last() =~= digits);
}

/// A numeral is made of decimal digits, has no zero in front unless it is the numeral of
/// zero, and reads back as its number.
pub proof fn law_numeral_reads_back(n: nat)
    ensures
        is_decimal(decimal_numeral(n)),
        decimal_value(decimal_numeral(n)) == n,
        decimal_numeral(n).len() > 0,
        n > 0 ==> decimal_numeral(n)[0] != '0',
        n == 0 ==> decimal_numeral(n).len() == 1,
    decreases n,
{
    if n < 10 {
        assert(decimal_numeral(n) =~= Seq::<char>::empty().push(decimal_digit(n)));
        lemma_decimal_value_push(seq![], n);
    } else {
        law_numeral_reads_back(n / 10);
        lemma_decimal_value_push(decimal_numeral(n / 10), n % 10);
    }
}

/// The last digits of a number are as many as asked for, and read back as what remains of
/// the number when the digits in front of them are taken off.
pub proof fn law_last_digits_read_back(n: nat, width: nat)
    ensures
        last_digits(n, width).len() == width,
        is_decimal(last_digits(n, width)),
        ten_to(width) > 0,
        decimal_value(last_digits(n, width)) == n % ten_to(width),
        n < ten_to(width) ==> decimal_value(last_digits(n, width)) == n,
    decreases width,
{
    if width > 0 {
        let rest = (width - 1) as nat;
        law_last_digits_read_back(n / 10, rest);
        lemma_decimal_value_push(last_digits(n / 10, rest), n % 10);
        lemma_mod_breakdown(n as int, 10, ten_to(rest) as int);
    }
    if n < ten_to(width) {
        lemma_small_mod(n, ten_to(width));
    }
}

}
