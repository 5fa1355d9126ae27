//! The names of the files that records go to.

use crate::text::{
    decimal, is_digit, lemma_decimal_chars, lemma_decimal_injective, signed_to_string,
    unsigned_to_string,
};
use vstd::prelude::*;
use vstd::string::*;

verus! {

/// The name of the file shared by all records of one calendar day.
pub open spec fn daily_name(year: int, month: int, day: int) -> Seq<char> {
    "log_"@ + decimal(year) + "_"@ + decimal(month) + "_"@ + decimal(day) + ".log"@
}

/// The name of the file kept for one correlation key.
pub open spec fn order_name(key: Seq<char>) -> Seq<char> {
    "order_"@ + key + ".log"@
}

/// The name of the daily file of a date: `log_<year>_<month>_<day>.log`, the
/// numbers written without padding.
pub fn daily_file_name(year: i32, month: u32, day: u32) -> (name: String)
    ensures
        name@ == daily_name(year as int, month as int, day as int),
{
    let mut name = "log_".to_owned();
    name.append(signed_to_string(year as i64).as_str());
    name.append("_");
    name.append(unsigned_to_string(month as u64).as_str());
    name.append("_");
    name.append(unsigned_to_string(day as u64).as_str());
    name.append(".log");
    name
}

/// The name of the file of a correlation key: `order_<key>.log`.
pub fn order_file_name(key: &str) -> (name: String)
    ensures
        name@ == order_name(key@),
{
    let mut name = "order_".to_owned();
    name.append(key);
    name.append(".log");
    name
}

/// Two texts that agree up to and after a separator which neither holds
/// before it.
proof fn lemma_split_at(
    a: Seq<char>,
    b: Seq<char>,
    c: Seq<char>,
    d: Seq<char>,
    sep: char,
)
    requires
        !a.contains(sep),
        !c.contains(sep),
        a.push(sep) + b == c.push(sep) + d,
    ensures
        a == c,
        b == d,
{
    let left = a.push(sep) + b;
    let right = c.push(sep) + d;
    assert(left.len() == right.len());
    if a.len() < c.len() {
        assert(left[a.len() as int] == sep);
        assert(right[a.len() as int] == c[a.len() as int]);
        assert(c.contains(sep));
    }
    if c.len() < a.len() {
        assert(right[c.len() as int] == sep);
        assert(left[c.len() as int] == a[c.len() as int]);
        assert(a.contains(sep));
    }
    assert forall|k: int| 0 <= k < a.len() implies a[k] == c[k] by {
        assert(left[k] == a[k]);
        assert(right[k] == c[k]);
    }
    assert(a =~= c);
    assert forall|k: int| 0 <= k < b.len() implies b[k] == d[k] by {
        assert(left[a.len() + 1 + k] == b[k]);
        assert(right[a.len() + 1 + k] == d[k]);
    }
    assert(b =~= d);
}

/// No written integer holds an underscore.
proof fn lemma_decimal_has_no_underscore(i: int)
    ensures
        !decimal(i).contains('_'),
{
    lemma_decimal_chars(i);
    assert(!is_digit('_'));
}

/// Two texts after the same head are the same where the whole is.
proof fn lemma_cancel_head(head: Seq<char>, a: Seq<char>, b: Seq<char>)
    requires
        head + a == head + b,
    ensures
        a == b,
{
    assert(a =~= (head + a).subrange(head.len() as int, (head + a).len() as int));
    assert(b =~= (head + b).subrange(head.len() as int, (head + b).len() as int));
}

/// Two texts before the same tail are the same where the whole is.
proof fn lemma_cancel_tail(a: Seq<char>, b: Seq<char>, tail: Seq<char>)
    requires
        a + tail == b + tail,
    ensures
        a == b,
{
    assert(a =~= (a + tail).subrange(0, (a + tail).len() - tail.len()));
    assert(b =~= (b + tail).subrange(0, (b + tail).len() - tail.len()));
}

/// The part of a daily file name that follows the year.
spec fn after_year(month: int, day: int) -> Seq<char> {
    decimal(month).push('_') + after_month(day)
}

/// The part of a daily file name that follows the month.
spec fn after_month(day: int) -> Seq<char> {
    decimal(day) + ".log"@
}

/// A daily file name, cut at its underscores.
proof fn lemma_daily_name_parts(year: int, month: int, day: int)
    ensures
        daily_name(year, month, day) == "log_"@ + (decimal(year).push('_') + after_year(
            month,
            day,
        )),
{
    reveal_strlit("_");
    assert("_"@ =~= seq!['_']);
    assert(daily_name(year, month, day) =~= "log_"@ + (decimal(year).push('_') + after_year(
        month,
        day,
    )));
}

/// The daily file names of two dates are the same only where the dates are:
/// records of different days go to different files.
pub proof fn lemma_daily_name_injective(
    year1: int,
    month1: int,
    day1: int,
    year2: int,
    month2: int,
    day2: int,
)
    requires
        daily_name(year1, month1, day1) == daily_name(year2, month2, day2),
    ensures
        year1 == year2,
        month1 == month2,
        day1 == day2,
{
    lemma_daily_name_parts(year1, month1, day1);
    lemma_daily_name_parts(year2, month2, day2);
    lemma_cancel_head(
        "log_"@,
        decimal(year1).push('_') + after_year(month1, day1),
        decimal(year2).push('_') + after_year(month2, day2),
    );
    lemma_decimal_has_no_underscore(year1);
    lemma_decimal_has_no_underscore(year2);
    lemma_split_at(
        decimal(year1),
        after_year(month1, day1),
        decimal(year2),
        after_year(month2, day2),
        '_',
    );
    lemma_decimal_injective(year1, year2);
    lemma_decimal_has_no_underscore(month1);
    lemma_decimal_has_no_underscore(month2);
    lemma_split_at(decimal(month1), after_month(day1), decimal(month2), after_month(day2), '_');
    lemma_decimal_injective(month1, month2);
    lemma_cancel_tail(decimal(day1), decimal(day2), ".log"@);
    lemma_decimal_injective(day1, day2);
}

/// The files of two correlation keys are the same only where the keys are.
pub proof fn lemma_order_name_injective(key1: Seq<char>, key2: Seq<char>)
    requires
        order_name(key1) == order_name(key2),
    ensures
        key1 == key2,
{
    lemma_cancel_tail("order_"@ + key1, "order_"@ + key2, ".log"@);
    lemma_cancel_head("order_"@, key1, key2);
}

/// No correlation key has the daily file of any date for its own.
pub proof fn lemma_order_name_is_no_daily_name(key: Seq<char>, year: int, month: int, day: int)
    ensures
        order_name(key) != daily_name(year, month, day),
{
    reveal_strlit("order_");
    reveal_strlit("log_");
    assert(order_name(key)[0] == 'o');
    assert(daily_name(year, month, day)[0] == 'l');
}

} // verus!
