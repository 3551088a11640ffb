//! The time stamp written in logs and diff names: `DD:MM:YYYY HH:MM:SS`,
//! as chrono writes the format `%d:%m:%Y %H:%M:%S`.
use vstd::prelude::*;
use vstd::string::*;

verus! {

/// The decimal digit `d`, below ten.
pub open spec fn digit_char(d: int) -> char {
    (d + 48) as char
}

/// A two-digit field below 100, zero-padded: `07`, `42`.
pub open spec fn two_digits(v: u8) -> Seq<char> {
    seq![digit_char(v as int / 10), digit_char(v as int % 10)]
}

/// The decimal digits of `n`, without padding.
pub open spec fn decimal(n: nat) -> Seq<char>
    decreases n,
{
    if n < 10 {
        seq![digit_char(n as int)]
    } else {
        decimal(n / 10).push(digit_char(n as int % 10))
    }
}

/// `s` preceded by as many `0` as it takes to be `width` long.
pub open spec fn zero_pad(s: Seq<char>, width: nat) -> Seq<char> {
    if s.len() < width {
        Seq::new((width - s.len()) as nat, |i: int| '0') + s
    } else {
        s
    }
}

/// The year as `%Y` writes it: four digits, zero-padded, for years 0 to
/// 9999; otherwise a sign and at least four digits.
pub open spec fn year_text(y: i32) -> Seq<char> {
    if 0 <= y <= 9999 {
        zero_pad(decimal(y as nat), 4)
    } else if y < 0 {
        seq!['-'] + zero_pad(decimal((-y) as nat), 4)
    } else {
        seq!['+'] + zero_pad(decimal(y as nat), 4)
    }
}

/// `DD:MM:YYYY HH:MM:SS`.
pub open spec fn spec_format_timestamp(
    day: u8,
    month: u8,
    year: i32,
    hour: u8,
    minute: u8,
    second: u8,
) -> Seq<char> {
    two_digits(day) + seq![':'] + two_digits(month) + seq![':'] + year_text(year) + seq![' ']
        + two_digits(hour) + seq![':'] + two_digits(minute) + seq![':'] + two_digits(second)
}

/// Whether `c` is a decimal digit.
pub open spec fn is_digit(c: char) -> bool {
    48 <= c as int <= 57
}

/// The value of a decimal digit.
pub open spec fn digit_value(c: char) -> int {
    c as int - 48
}

/// The number that a text of decimal digits reads as.
pub open spec fn digits_value(s: Seq<char>) -> int
    decreases s.len(),
{
    if s.len() == 0 {
        0
    } else {
        digits_value(s.drop_last()) * 10 + digit_value(s.last())
    }
}

pub open spec fn all_digits(s: Seq<char>) -> bool {
    forall|i: int| 0 <= i < s.len() ==> is_digit(#[trigger] s[i])
}

proof fn lemma_decimal_reads_back(n: nat)
    ensures
        all_digits(decimal(n)),
        digits_value(decimal(n)) == n,
        decimal(n).len() >= 1,
    decreases n,
{
    assert(digit_char(n as int % 10) as int == n as int % 10 + 48);
    if n < 10 {
        let d = decimal(n);
        assert(d.drop_last() =~= Seq::<char>::empty());
        assert(d.last() == digit_char(n as int));
        assert(digits_value(d.drop_last()) == 0);
    } else {
        lemma_decimal_reads_back(n / 10);
        let d = decimal(n);
        assert(d.last() == digit_char(n as int % 10));
        assert(d.drop_last() =~= decimal(n / 10));
        assert((n / 10) * 10 + n % 10 == n);
        assert(d.drop_last() =~= decimal(n / 10));
        assert forall|i: int| 0 <= i < d.len() implies is_digit(#[trigger] d[i]) by {
            if i < d.len() - 1 {
                assert(d[i] == decimal(n / 10)[i]);
            }
        }
    }
}

proof fn lemma_leading_zero(s: Seq<char>)
    ensures
        digits_value(seq!['0'] + s) == digits_value(s),
    decreases s.len(),
{
    assert('0' as int == 48);
    let z = seq!['0'] + s;
    if s.len() == 0 {
        assert(z.drop_last() =~= Seq::<char>::empty());
        assert(z.last() == '0');
        assert(digits_value(z.drop_last()) == 0);
    } else {
        lemma_leading_zero(s.drop_last());
        assert(z.drop_last() =~= seq!['0'] + s.drop_last());
        assert(z.last() == s.last());
    }
}

proof fn lemma_zero_pad_reads_back(s: Seq<char>, width: nat)
    requires
        all_digits(s),
    ensures
        all_digits(zero_pad(s, width)),
        digits_value(zero_pad(s, width)) == digits_value(s),
        zero_pad(s, width).len() == if s.len() < width { width as int } else { s.len() as int },
    decreases width,
{
    if s.len() < width {
        let z = zero_pad(s, width);
        if s.len() + 1 < width {
            lemma_zero_pad_reads_back(s, (width - 1) as nat);
            let z1 = zero_pad(s, (width - 1) as nat);
            assert(z =~= seq!['0'] + z1);
            lemma_leading_zero(z1);
        } else {
            assert(z =~= seq!['0'] + s);
            lemma_leading_zero(s);
        }
    }
}

/// The stamp reads back as the fields it was made of: day, month, hour,
/// minute and second are the two-digit numbers at their places between the
/// separators, and the year field reads as the year (with a sign outside
/// 0 to 9999, and exactly four digits inside).
pub proof fn lemma_timestamp_reads_back(day: u8, month: u8, year: i32, hour: u8, minute: u8, second: u8)
    requires
        day < 100,
        month < 100,
        hour < 100,
        minute < 100,
        second < 100,
    ensures
        ({
            let s = spec_format_timestamp(day, month, year, hour, minute, second);
            let n = s.len() as int;
            let y = s.subrange(6, n - 9);
            &&& n >= 19
            &&& s[2] == ':' && s[5] == ':' && s[n - 9] == ' ' && s[n - 6] == ':' && s[n - 3] == ':'
            &&& is_digit(s[0]) && is_digit(s[1]) && digit_value(s[0]) * 10 + digit_value(s[1]) == day
            &&& is_digit(s[3]) && is_digit(s[4]) && digit_value(s[3]) * 10 + digit_value(s[4]) == month
            &&& is_digit(s[n - 8]) && is_digit(s[n - 7]) && digit_value(s[n - 8]) * 10 + digit_value(s[n - 7]) == hour
            &&& is_digit(s[n - 5]) && is_digit(s[n - 4]) && digit_value(s[n - 5]) * 10 + digit_value(s[n - 4]) == minute
            &&& is_digit(s[n - 2]) && is_digit(s[n - 1]) && digit_value(s[n - 2]) * 10 + digit_value(s[n - 1]) == second
            &&& 0 <= year <= 9999 ==> n == 19 && all_digits(y) && digits_value(y) == year
            &&& year < 0 ==> y[0] == '-' && all_digits(y.drop_first()) && digits_value(y.drop_first()) == -year
            &&& year > 9999 ==> y[0] == '+' && all_digits(y.drop_first()) && digits_value(y.drop_first()) == year
        }),
{
    let s = spec_format_timestamp(day, month, year, hour, minute, second);
    let yt = year_text(year);
    let mag: nat = if year < 0 { (-year) as nat } else { year as nat };
    lemma_decimal_reads_back(mag);
    lemma_zero_pad_reads_back(decimal(mag), 4);
    let n = s.len() as int;
    assert(s =~= two_digits(day) + seq![':'] + two_digits(month) + seq![':'] + yt + seq![' ']
        + two_digits(hour) + seq![':'] + two_digits(minute) + seq![':'] + two_digits(second));
    assert(s.subrange(6, n - 9) =~= yt);
    assert(digit_char(day as int / 10) as int == day as int / 10 + 48);
    assert(digit_char(day as int % 10) as int == day as int % 10 + 48);
    assert(digit_char(month as int / 10) as int == month as int / 10 + 48);
    assert(digit_char(month as int % 10) as int == month as int % 10 + 48);
    assert(digit_char(hour as int / 10) as int == hour as int / 10 + 48);
    assert(digit_char(hour as int % 10) as int == hour as int % 10 + 48);
    assert(digit_char(minute as int / 10) as int == minute as int / 10 + 48);
    assert(digit_char(minute as int % 10) as int == minute as int % 10 + 48);
    assert(digit_char(second as int / 10) as int == second as int / 10 + 48);
    assert(digit_char(second as int % 10) as int == second as int % 10 + 48);
    lemma_decimal_len(mag);
    if 0 <= year <= 9999 {
        assert(yt.len() == 4);
    } else {
        assert(yt.drop_first() =~= zero_pad(decimal(mag), 4));
    }
}

fn digit_str(d: u64) -> (s: &'static str)
    requires
        d < 10,
    ensures
        s@ == seq![digit_char(d as int)],
{
    proof {
        reveal_strlit("0");
        reveal_strlit("1");
        reveal_strlit("2");
        reveal_strlit("3");
        reveal_strlit("4");
        reveal_strlit("5");
        reveal_strlit("6");
        reveal_strlit("7");
        reveal_strlit("8");
        reveal_strlit("9");
    }
    match d {
        0 => "0",
        1 => "1",
        2 => "2",
        3 => "3",
        4 => "4",
        5 => "5",
        6 => "6",
        7 => "7",
        8 => "8",
        _ => "9",
    }
}

/// The decimal digits of `n`.
pub fn decimal_string(n: u64) -> (s: String)
    ensures
        s@ == decimal(n as nat),
    decreases n,
{
    if n < 10 {
        digit_str(n).to_owned()
    } else {
        let mut s = decimal_string(n / 10);
        s.append(digit_str(n % 10));
        s
    }
}

proof fn lemma_decimal_len(n: nat)
    ensures
        n < 10 ==> decimal(n).len() == 1,
        10 <= n < 100 ==> decimal(n).len() == 2,
        100 <= n < 1000 ==> decimal(n).len() == 3,
        1000 <= n < 10000 ==> decimal(n).len() == 4,
        1000 <= n ==> decimal(n).len() >= 4,
    decreases n,
{
    if n >= 10 {
        lemma_decimal_len(n / 10);
    }
}

/// `n` in decimal, zero-padded to four digits.
fn four_digits(n: u64) -> (s: String)
    ensures
        s@ == zero_pad(decimal(n as nat), 4),
{
    let digits = decimal_string(n);
    proof {
        lemma_decimal_len(n as nat);
        reveal_strlit("0");
        reveal_strlit("00");
        reveal_strlit("000");
    }
    let mut s = if n < 10 {
        "000".to_owned()
    } else if n < 100 {
        "00".to_owned()
    } else if n < 1000 {
        "0".to_owned()
    } else {
        String::new()
    };
    s.append(digits.as_str());
    assert(s@ =~= zero_pad(decimal(n as nat), 4));
    s
}

fn append_two_digits(s: &mut String, v: u8)
    requires
        v < 100,
    ensures
        final(s)@ == old(s)@ + two_digits(v),
{
    s.append(digit_str((v / 10) as u64));
    s.append(digit_str((v % 10) as u64));
    assert(final(s)@ =~= old(s)@ + two_digits(v));
}

/// The time stamp `DD:MM:YYYY HH:MM:SS` of the given fields; the two-digit
/// fields are below 100, as every calendar day, month, hour, minute and
/// second is.
pub fn format_timestamp(day: u8, month: u8, year: i32, hour: u8, minute: u8, second: u8) -> (s: String)
    requires
        day < 100,
        month < 100,
        hour < 100,
        minute < 100,
        second < 100,
    ensures
        s@ == spec_format_timestamp(day, month, year, hour, minute, second),
{
    proof {
        reveal_strlit(":");
        reveal_strlit(" ");
        reveal_strlit("-");
        reveal_strlit("+");
    }
    let mut s = String::new();
    append_two_digits(&mut s, day);
    s.append(":");
    append_two_digits(&mut s, month);
    s.append(":");
    let year_digits = if 0 <= year && year <= 9999 {
        four_digits(year as u64)
    } else if year < 0 {
        let mut t = "-".to_owned();
        let magnitude: u64 = (-(year as i64)) as u64;
        t.append(four_digits(magnitude).as_str());
        t
    } else {
        let mut t = "+".to_owned();
        t.append(four_digits(year as u64).as_str());
        t
    };
    s.append(year_digits.as_str());
    s.append(" ");
    append_two_digits(&mut s, hour);
    s.append(":");
    append_two_digits(&mut s, minute);
    s.append(":");
    append_two_digits(&mut s, second);
    assert(s@ =~= spec_format_timestamp(day, month, year, hour, minute, second));
    s
}

} // verus!
