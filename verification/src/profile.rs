//! Network profiles: the text that a build's config is baked from, one
//! `key = value` to a line, `#` before a comment.

use crate::config::max3;
use crate::text::{
    after, before, chars_of, find, find_in, starts_with_in, trim, trim_in, trim_start,
    trim_start_in, Edge,
};
use vstd::prelude::*;
use vstd::string::{StrSliceExecFns, StringExecFns};

verus! {

/// The first line of a text, without its line ending.
pub open spec fn first_line(text: Seq<char>) -> Seq<char> {
    let line = before(text, '\n');
    if find(text, '\n') < text.len() && line.len() > 0 && line.last() == '\r' {
        line.drop_last()
    } else {
        line
    }
}

/// A text without one layer of quotes: one quote less at each end that has any.
pub open spec fn unquoted(s: Seq<char>) -> Seq<char> {
    let t = if s.len() > 0 && s[0] == '"' {
        s.skip(1)
    } else {
        s
    };
    if t.len() > 0 && t.last() == '"' {
        t.drop_last()
    } else {
        t
    }
}

/// What stands behind the `=` on a line that begins with `key` and an `=`, with or
/// without space around the key.
pub open spec fn right_of(line: Seq<char>, key: Seq<char>) -> Option<Seq<char>> {
    let l = trim_start(line, Edge::Space);
    if key.is_prefix_of(l) {
        let rest = trim_start(l.skip(key.len() as int), Edge::Space);
        if rest.len() > 0 && rest[0] == '=' {
            Some(rest.skip(1))
        } else {
            None
        }
    } else {
        None
    }
}

/// The value that a line assigns to `key`: what stands between the `=` and a
/// comment, without surrounding space and one layer of quotes.
pub open spec fn assigned(line: Seq<char>, key: Seq<char>) -> Option<Seq<char>> {
    match right_of(line, key) {
        Some(right) => Some(unquoted(trim(before(right, '#'), Edge::Space))),
        None => None,
    }
}

/// The value that the first line with one assigns to `key`.
pub open spec fn value_of(text: Seq<char>, key: Seq<char>) -> Option<Seq<char>>
    decreases text.len(),
{
    if text.len() == 0 {
        None
    } else {
        match assigned(first_line(text), key) {
            Some(value) => Some(value),
            None => value_of(after(text, '\n'), key),
        }
    }
}

/// Where a line stops that begins at `start` and whose line feed, or the end of the
/// text, is at `end`.
fn line_stop(s: &Vec<char>, start: usize, end: usize) -> (r: usize)
    requires
        start <= end <= s@.len(),
    ensures
        r == if end < s@.len() && start < end && s@[end - 1] == '\r' {
            end - 1
        } else {
            end as int
        },
{
    if end < s.len() && start < end && s[end - 1] == '\r' {
        end - 1
    } else {
        end
    }
}

fn right_in(s: &Vec<char>, from: usize, to: usize, key: &Vec<char>) -> (r: Option<usize>)
    requires
        from <= to <= s@.len(),
    ensures
        match r {
            Some(right) => {
                &&& from <= right <= to
                &&& right_of(s@.subrange(from as int, to as int), key@) == Some(
                    s@.subrange(right as int, to as int),
                )
            },
            None => right_of(s@.subrange(from as int, to as int), key@) is None,
        },
{
    let start: usize = trim_start_in(s, from, to, Edge::Space);
    let ghost l = s@.subrange(start as int, to as int);
    if !starts_with_in(s, start, to, key) {
        return None;
    }
    let past: usize = start + key.len();
    assert(s@.subrange(past as int, to as int) =~= l.skip(key@.len() as int));
    let eq: usize = trim_start_in(s, past, to, Edge::Space);
    let ghost rest = s@.subrange(eq as int, to as int);
    if eq == to || s[eq] != '=' {
        return None;
    }
    assert(s@.subrange(eq + 1, to as int) =~= rest.skip(1));
    Some(eq + 1)
}

fn assigned_in(s: &Vec<char>, from: usize, to: usize, key: &Vec<char>) -> (r: Option<
    (usize, usize),
>)
    requires
        from <= to <= s@.len(),
    ensures
        match r {
            Some(range) => {
                &&& from <= range.0 <= range.1 <= to
                &&& assigned(s@.subrange(from as int, to as int), key@) == Some(
                    s@.subrange(range.0 as int, range.1 as int),
                )
            },
            None => assigned(s@.subrange(from as int, to as int), key@) is None,
        },
{
    let right: usize = match right_in(s, from, to, key) {
        Some(right) => right,
        None => return None,
    };
    let hash: usize = find_in(s, right, to, '#');
    assert(s@.subrange(right as int, hash as int) =~= before(
        s@.subrange(right as int, to as int),
        '#',
    ));
    let (a, b) = trim_in(s, right, hash, Edge::Space);
    let c: usize = if a < b && s[a] == '"' { a + 1 } else { a };
    let d: usize = if c < b && s[b - 1] == '"' { b - 1 } else { b };
    assert(s@.subrange(c as int, d as int) =~= unquoted(s@.subrange(a as int, b as int)));
    Some((c, d))
}

/// The value that the first line with one assigns to `key`.
pub fn str_of(text: &str, key: &str) -> (r: Option<String>)
    ensures
        match r {
            Some(value) => value_of(text@, key@) == Some(value@),
            None => value_of(text@, key@) is None,
        },
{
    let s: Vec<char> = chars_of(text);
    let k: Vec<char> = chars_of(key);
    let mut start: usize = 0;
    assert(s@.subrange(0, s@.len() as int) =~= s@);
    while start < s.len()
        invariant
            start <= s@.len(),
            s@ == text@,
            k@ == key@,
            value_of(text@, key@) == value_of(
                s@.subrange(start as int, s@.len() as int),
                key@,
            ),
        decreases s@.len() - start,
    {
        let ghost left = s@.subrange(start as int, s@.len() as int);
        let end: usize = find_in(&s, start, s.len(), '\n');
        let stop: usize = line_stop(&s, start, end);
        assert(s@.subrange(start as int, stop as int) =~= first_line(left));
        if let Some((a, b)) = assigned_in(&s, start, stop, &k) {
            return Some(text.substring_char(a, b).to_owned());
        }
        start = if end == s.len() { end } else { end + 1 };
        assert(s@.subrange(start as int, s@.len() as int) =~= after(left, '\n'));
    }
    None
}

/// A text without the underscores that group its digits.
pub open spec fn ungrouped(s: Seq<char>) -> Seq<char>
    decreases s.len(),
{
    if s.len() == 0 {
        Seq::empty()
    } else if s.last() == '_' {
        ungrouped(s.drop_last())
    } else {
        ungrouped(s.drop_last()).push(s.last())
    }
}

/// Whether all of a text is decimal digits.
pub open spec fn all_digits(s: Seq<char>) -> bool {
    forall|i: int| 0 <= i < s.len() ==> '0' <= (#[trigger] s[i]) <= '9'
}

/// The number that decimal digits stand for.
pub open spec fn decimal(s: Seq<char>) -> nat
    decreases s.len(),
{
    if s.len() == 0 {
        0
    } else {
        (decimal(s.drop_last()) * 10 + (s.last() as int - '0' as int)) as nat
    }
}

/// The number that a text stands for: decimal digits, with an optional plus sign
/// before them and underscores anywhere, of a value that fits.
pub open spec fn number(s: Seq<char>) -> Option<u128> {
    let plain = ungrouped(s);
    let digits = if plain.len() > 0 && plain[0] == '+' {
        plain.skip(1)
    } else {
        plain
    };
    if digits.len() > 0 && all_digits(digits) && decimal(digits) <= u128::MAX {
        Some(decimal(digits) as u128)
    } else {
        None
    }
}

proof fn lemma_decimal_grows(s: Seq<char>, n: int)
    requires
        0 <= n <= s.len(),
        all_digits(s),
    ensures
        decimal(s.take(n)) <= decimal(s),
    decreases s.len() - n,
{
    if n < s.len() {
        lemma_decimal_grows(s, n + 1);
        assert(s.take(n + 1).drop_last() =~= s.take(n));
    } else {
        assert(s.take(n) =~= s);
    }
}

fn ungroup(s: &Vec<char>) -> (r: Vec<char>)
    ensures
        r@ == ungrouped(s@),
{
    let mut r: Vec<char> = Vec::new();
    let mut i: usize = 0;
    while i < s.len()
        invariant
            i <= s@.len(),
            r@ == ungrouped(s@.take(i as int)),
        decreases s@.len() - i,
    {
        assert(s@.take(i + 1).drop_last() =~= s@.take(i as int));
        if s[i] != '_' {
            r.push(s[i]);
        }
        i = i + 1;
    }
    assert(s@.take(s@.len() as int) =~= s@);
    r
}

/// The number that a text stands for.
pub fn parse_number(text: &str) -> (r: Option<u128>)
    ensures
        r == number(text@),
{
    let s: Vec<char> = ungroup(&chars_of(text));
    let from: usize = if s.len() > 0 && s[0] == '+' { 1 } else { 0 };
    let ghost digits = s@.skip(from as int);
    if from == s.len() {
        return None;
    }
    let mut n: u128 = 0;
    let mut i: usize = from;
    while i < s.len()
        invariant
            from <= i <= s@.len(),
            s@ == ungrouped(text@),
            from == (if s@.len() > 0 && s@[0] == '+' { 1int } else { 0int }),
            digits == s@.skip(from as int),
            s@.skip(0) == s@,
            digits.len() > 0,
            forall|j: int| 0 <= j < i - from ==> '0' <= (#[trigger] digits[j]) <= '9',
            n == decimal(digits.take(i - from)),
        decreases s@.len() - i,
    {
        let c: char = s[i];
        proof {
            assert(digits.take(i - from + 1).drop_last() =~= digits.take(i - from));
            if all_digits(digits) {
                lemma_decimal_grows(digits, i - from + 1);
            }
        }
        if c < '0' || c > '9' {
            return None;
        }
        let d: u128 = (c as u32 - '0' as u32) as u128;
        n = match n.checked_mul(10) {
            Some(m) => match m.checked_add(d) {
                Some(m) => m,
                None => return None,
            },
            None => return None,
        };
        i = i + 1;
    }
    assert(digits.take(digits.len() as int) =~= digits);
    Some(n)
}

/// The decimal digits of a number, without leading zeros.
pub open spec fn digits(n: nat) -> Seq<char>
    decreases n,
{
    let last = ('0' as nat + n % 10) as char;
    if n < 10 {
        seq![last]
    } else {
        digits(n / 10).push(last)
    }
}

/// A number that is written out in digits reads back.
pub proof fn a_number_reads_back(n: u128)
    ensures
        number(digits(n as nat)) == Some(n),
{
    lemma_digits(n as nat);
}

proof fn lemma_digits(n: nat)
    ensures
        digits(n).len() > 0,
        all_digits(digits(n)),
        decimal(digits(n)) == n,
        ungrouped(digits(n)) == digits(n),
    decreases n,
{
    let s = digits(n);
    if n < 10 {
        reveal_with_fuel(decimal, 2);
        reveal_with_fuel(ungrouped, 2);
    } else {
        lemma_digits(n / 10);
        assert(s.drop_last() =~= digits(n / 10));
    }
}

fn append_digits(text: &mut String, n: u128)
    ensures
        final(text)@ == old(text)@ + digits(n as nat),
    decreases n,
{
    if n >= 10 {
        append_digits(text, n / 10);
    }
    let digit: &str = match n % 10 {
        0 => "0",
        1 => "1",
        2 => "2",
        3 => "3",
        4 => "4",
        5 => "5",
        6 => "6",
        7 => "7",
        8 => "8",
        _ => "9",
    };
    proof {
        reveal_strlit("0");
        reveal_strlit("1");
        reveal_strlit("2");
        reveal_strlit("3");
        reveal_strlit("4");
        reveal_strlit("5");
        reveal_strlit("6");
        reveal_strlit("7");
        reveal_strlit("8");
        reveal_strlit("9");
    }
    assert(digit@ =~= seq![('0' as nat + n as nat % 10) as char]);
    text.append(digit);
}

/// The text between the first brackets in a value: nothing, where there are none.
pub open spec fn bracketed(value: Seq<char>) -> Seq<char> {
    let opened = after(value, '[');
    if find(opened, ']') < opened.len() {
        before(opened, ']')
    } else {
        Seq::empty()
    }
}

/// The elements of a list, separated by commas, without surrounding space and
/// quotes; empty ones do not count.
pub open spec fn elements(inner: Seq<char>) -> Seq<Seq<char>>
    decreases inner.len(),
{
    let element = trim(trim(before(inner, ','), Edge::Space), Edge::Quote);
    let first = if element.len() > 0 {
        seq![element]
    } else {
        Seq::empty()
    };
    if find(inner, ',') < inner.len() {
        first + elements(after(inner, ','))
    } else {
        first
    }
}

/// The elements of the list that the first `key = [..]` line assigns to `key`.
pub open spec fn elements_of(text: Seq<char>, key: Seq<char>) -> Option<Seq<Seq<char>>>
    decreases text.len(),
{
    if text.len() == 0 {
        None
    } else {
        match right_of(first_line(text), key) {
            Some(right) => Some(elements(bracketed(right))),
            None => elements_of(after(text, '\n'), key),
        }
    }
}

/// The texts of a list of strings.
pub open spec fn strings(list: Seq<String>) -> Seq<Seq<char>> {
    Seq::new(list.len(), |i: int| list[i]@)
}

fn bracketed_in(s: &Vec<char>, from: usize, to: usize) -> (r: (usize, usize))
    requires
        from <= to <= s@.len(),
    ensures
        from <= r.0 <= r.1 <= to,
        s@.subrange(r.0 as int, r.1 as int) == bracketed(s@.subrange(from as int, to as int)),
{
    let ghost value = s@.subrange(from as int, to as int);
    let open: usize = find_in(s, from, to, '[');
    if open == to {
        return (from, from);
    }
    let ghost opened = after(value, '[');
    assert(s@.subrange(open + 1, to as int) =~= opened);
    let close: usize = find_in(s, open + 1, to, ']');
    if close == to {
        return (from, from);
    }
    (open + 1, close)
}

fn elements_in(text: &str, s: &Vec<char>, from: usize, to: usize) -> (r: Vec<String>)
    requires
        s@ == text@,
        from <= to <= s@.len(),
    ensures
        strings(r@) == elements(s@.subrange(from as int, to as int)),
{
    let mut r: Vec<String> = Vec::new();
    let mut start: usize = from;
    let ghost all = elements(s@.subrange(from as int, to as int));
    loop
        invariant
            s@ == text@,
            from <= start <= to <= s@.len(),
            all == elements(s@.subrange(from as int, to as int)),
            strings(r@) + elements(s@.subrange(start as int, to as int)) == all,
        decreases to - start,
    {
        let ghost left = s@.subrange(start as int, to as int);
        let end: usize = find_in(s, start, to, ',');
        assert(s@.subrange(start as int, end as int) =~= before(left, ','));
        let (a, b) = trim_in(s, start, end, Edge::Space);
        let (c, d) = trim_in(s, a, b, Edge::Quote);
        if c < d {
            let element: String = text.substring_char(c, d).to_owned();
            r.push(element);
        }
        if end == to {
            return r;
        }
        start = end + 1;
        assert(s@.subrange(start as int, to as int) =~= after(left, ','));
    }
}

/// The elements of the list that the first `key = [..]` line assigns to `key`: none,
/// where what it assigns has no brackets.
pub fn list_of(text: &str, key: &str) -> (r: Option<Vec<String>>)
    ensures
        match r {
            Some(list) => elements_of(text@, key@) == Some(strings(list@)),
            None => elements_of(text@, key@) is None,
        },
{
    let s: Vec<char> = chars_of(text);
    let k: Vec<char> = chars_of(key);
    let mut start: usize = 0;
    assert(s@.subrange(0, s@.len() as int) =~= s@);
    while start < s.len()
        invariant
            start <= s@.len(),
            s@ == text@,
            k@ == key@,
            elements_of(text@, key@) == elements_of(
                s@.subrange(start as int, s@.len() as int),
                key@,
            ),
        decreases s@.len() - start,
    {
        let ghost left = s@.subrange(start as int, s@.len() as int);
        let end: usize = find_in(&s, start, s.len(), '\n');
        let stop: usize = line_stop(&s, start, end);
        assert(s@.subrange(start as int, stop as int) =~= first_line(left));
        if let Some(right) = right_in(&s, start, stop, &k) {
            let (a, b) = bracketed_in(&s, right, stop);
            return Some(elements_in(text, &s, a, b));
        }
        start = if end == s.len() { end } else { end + 1 };
        assert(s@.subrange(start as int, s@.len() as int) =~= after(left, '\n'));
    }
    None
}

/// A network profile.
#[derive(Debug)]
pub struct Profile {
    pub index: String,
    pub cycle_floor: u128,
    pub ingest_price: u128,
    pub sign_price: u128,
    pub root_price: u128,
    pub burst_budget: u128,
    pub burst_window_secs: u64,
    pub daily_budget: u128,
    pub daily_window_secs: u64,
    pub allowlist: Vec<String>,
    pub games: Vec<String>,
}

/// What is wrong with the text of a profile.
#[derive(Debug, PartialEq, Eq)]
pub enum ProfileError {
    /// A key has no value.
    Missing(&'static str),
    /// The value of a key is not an integer.
    NotAnInteger(&'static str, String),
    /// The value of a key is too large.
    OutOfRange(&'static str),
    /// The per-key budgets do not cover the dearest single call, so that call
    /// could never be forwarded.
    BudgetsTooSmall { burst: u128, daily: u128, dearest: u128 },
    /// The burst budget is above the daily one, which makes the burst window dead
    /// weight.
    BurstAboveDaily { burst: u128, daily: u128 },
    /// The burst window is not shorter than the daily window.
    WindowsOutOfOrder,
}

/// A network profile, as values.
#[verifier::ext_equal]
pub struct ProfileView {
    pub index: Seq<char>,
    pub cycle_floor: u128,
    pub ingest_price: u128,
    pub sign_price: u128,
    pub root_price: u128,
    pub burst_budget: u128,
    pub burst_window_secs: u64,
    pub daily_budget: u128,
    pub daily_window_secs: u64,
    pub allowlist: Seq<Seq<char>>,
    pub games: Seq<Seq<char>>,
}

/// What is wrong with the text of a profile, as values.
pub enum ProfileFault {
    Missing(Seq<char>),
    NotAnInteger(Seq<char>, Seq<char>),
    OutOfRange(Seq<char>),
    BudgetsTooSmall { burst: u128, daily: u128, dearest: u128 },
    BurstAboveDaily { burst: u128, daily: u128 },
    WindowsOutOfOrder,
}

impl View for Profile {
    type V = ProfileView;

    open spec fn view(&self) -> ProfileView {
        ProfileView {
            index: self.index@,
            cycle_floor: self.cycle_floor,
            ingest_price: self.ingest_price,
            sign_price: self.sign_price,
            root_price: self.root_price,
            burst_budget: self.burst_budget,
            burst_window_secs: self.burst_window_secs,
            daily_budget: self.daily_budget,
            daily_window_secs: self.daily_window_secs,
            allowlist: strings(self.allowlist@),
            games: strings(self.games@),
        }
    }
}

impl View for ProfileError {
    type V = ProfileFault;

    open spec fn view(&self) -> ProfileFault {
        match *self {
            ProfileError::Missing(key) => ProfileFault::Missing(key@),
            ProfileError::NotAnInteger(key, raw) => ProfileFault::NotAnInteger(key@, raw@),
            ProfileError::OutOfRange(key) => ProfileFault::OutOfRange(key@),
            ProfileError::BudgetsTooSmall { burst, daily, dearest } => ProfileFault::BudgetsTooSmall {
                burst,
                daily,
                dearest,
            },
            ProfileError::BurstAboveDaily { burst, daily } => ProfileFault::BurstAboveDaily {
                burst,
                daily,
            },
            ProfileError::WindowsOutOfOrder => ProfileFault::WindowsOutOfOrder,
        }
    }
}

impl ProfileFault {
    /// What is said of the fault.
    pub open spec fn message(self) -> Seq<char> {
        match self {
            ProfileFault::Missing(key) => "missing `"@ + key + "` in config"@,
            ProfileFault::NotAnInteger(key, raw) => "`"@ + key + "` = `"@ + raw
                + "` is not an integer"@,
            ProfileFault::OutOfRange(key) => "`"@ + key + "` out of u64 range"@,
            ProfileFault::BudgetsTooSmall { burst, daily, dearest } => "per-key budgets (burst "@
                + digits(burst as nat) + ", daily "@ + digits(daily as nat)
                + ") must cover the dearest single call ("@ + digits(dearest as nat)
                + "), else that call can never be forwarded"@,
            ProfileFault::BurstAboveDaily { burst, daily } => "burst_budget ("@ + digits(
                burst as nat,
            ) + ") above daily_budget ("@ + digits(daily as nat)
                + ") makes the burst window dead weight"@,
            ProfileFault::WindowsOutOfOrder =>
                "burst window must be shorter than the daily window"@,
        }
    }
}

impl ProfileError {
    /// What is said of the error.
    pub fn message(&self) -> (r: String)
        ensures
            r@ == self@.message(),
    {
        match self {
            ProfileError::Missing(key) => {
                let mut text: String = "missing `".to_owned();
                text.append(key);
                text.append("` in config");
                text
            },
            ProfileError::NotAnInteger(key, raw) => {
                let mut text: String = "`".to_owned();
                text.append(key);
                text.append("` = `");
                text.append(raw.as_str());
                text.append("` is not an integer");
                text
            },
            ProfileError::OutOfRange(key) => {
                let mut text: String = "`".to_owned();
                text.append(key);
                text.append("` out of u64 range");
                text
            },
            ProfileError::BudgetsTooSmall { burst, daily, dearest } => {
                let mut text: String = "per-key budgets (burst ".to_owned();
                append_digits(&mut text, *burst);
                text.append(", daily ");
                append_digits(&mut text, *daily);
                text.append(") must cover the dearest single call (");
                append_digits(&mut text, *dearest);
                text.append("), else that call can never be forwarded");
                text
            },
            ProfileError::BurstAboveDaily { burst, daily } => {
                let mut text: String = "burst_budget (".to_owned();
                append_digits(&mut text, *burst);
                text.append(") above daily_budget (");
                append_digits(&mut text, *daily);
                text.append(") makes the burst window dead weight");
                text
            },
            ProfileError::WindowsOutOfOrder => {
                "burst window must be shorter than the daily window".to_owned()
            },
        }
    }
}

/// The integer that a text assigns to `key`.
pub open spec fn number_at(text: Seq<char>, key: Seq<char>) -> Result<u128, ProfileFault> {
    match value_of(text, key) {
        None => Err(ProfileFault::Missing(key)),
        Some(raw) => match number(raw) {
            None => Err(ProfileFault::NotAnInteger(key, raw)),
            Some(n) => Ok(n),
        },
    }
}

/// The number of seconds that a text assigns to `key`.
pub open spec fn seconds_at(text: Seq<char>, key: Seq<char>) -> Result<u64, ProfileFault> {
    match number_at(text, key) {
        Err(fault) => Err(fault),
        Ok(n) => if n <= u64::MAX {
            Ok(n as u64)
        } else {
            Err(ProfileFault::OutOfRange(key))
        },
    }
}

/// The first thing in a text that cannot be read.
pub open spec fn unreadable(text: Seq<char>) -> Option<ProfileFault> {
    if value_of(text, "index_principal"@) is None {
        Some(ProfileFault::Missing("index_principal"@))
    } else if number_at(text, "cycle_floor"@) is Err {
        Some(number_at(text, "cycle_floor"@)->Err_0)
    } else if number_at(text, "ingest_price"@) is Err {
        Some(number_at(text, "ingest_price"@)->Err_0)
    } else if number_at(text, "sign_price"@) is Err {
        Some(number_at(text, "sign_price"@)->Err_0)
    } else if number_at(text, "root_price"@) is Err {
        Some(number_at(text, "root_price"@)->Err_0)
    } else if number_at(text, "burst_budget_cycles"@) is Err {
        Some(number_at(text, "burst_budget_cycles"@)->Err_0)
    } else if seconds_at(text, "burst_window_secs"@) is Err {
        Some(seconds_at(text, "burst_window_secs"@)->Err_0)
    } else if number_at(text, "daily_budget_cycles"@) is Err {
        Some(number_at(text, "daily_budget_cycles"@)->Err_0)
    } else if seconds_at(text, "daily_window_secs"@) is Err {
        Some(seconds_at(text, "daily_window_secs"@)->Err_0)
    } else if elements_of(text, "allowlist"@) is None {
        Some(ProfileFault::Missing("allowlist"@))
    } else if elements_of(text, "games"@) is None {
        Some(ProfileFault::Missing("games"@))
    } else {
        None
    }
}

/// The profile in a text that can be read.
pub open spec fn contents(text: Seq<char>) -> ProfileView {
    ProfileView {
        index: value_of(text, "index_principal"@)->Some_0,
        cycle_floor: number_at(text, "cycle_floor"@)->Ok_0,
        ingest_price: number_at(text, "ingest_price"@)->Ok_0,
        sign_price: number_at(text, "sign_price"@)->Ok_0,
        root_price: number_at(text, "root_price"@)->Ok_0,
        burst_budget: number_at(text, "burst_budget_cycles"@)->Ok_0,
        burst_window_secs: seconds_at(text, "burst_window_secs"@)->Ok_0,
        daily_budget: number_at(text, "daily_budget_cycles"@)->Ok_0,
        daily_window_secs: seconds_at(text, "daily_window_secs"@)->Ok_0,
        allowlist: elements_of(text, "allowlist"@)->Some_0,
        games: elements_of(text, "games"@)->Some_0,
    }
}

impl ProfileView {
    /// The price of the dearest single call.
    pub open spec fn dearest(self) -> u128 {
        let ab = if self.ingest_price > self.sign_price {
            self.ingest_price
        } else {
            self.sign_price
        };
        if ab > self.root_price {
            ab
        } else {
            self.root_price
        }
    }

    /// What is wrong with the budgets and the windows.
    pub open spec fn unsound(self) -> Option<ProfileFault> {
        if self.burst_budget < self.dearest() || self.daily_budget < self.dearest() {
            Some(
                ProfileFault::BudgetsTooSmall {
                    burst: self.burst_budget,
                    daily: self.daily_budget,
                    dearest: self.dearest(),
                },
            )
        } else if self.burst_budget > self.daily_budget {
            Some(
                ProfileFault::BurstAboveDaily {
                    burst: self.burst_budget,
                    daily: self.daily_budget,
                },
            )
        } else if self.burst_window_secs >= self.daily_window_secs {
            Some(ProfileFault::WindowsOutOfOrder)
        } else {
            None
        }
    }
}

/// The profile in a text, or the first thing that is wrong with it.
pub open spec fn profile_in(text: Seq<char>) -> Result<ProfileView, ProfileFault> {
    match unreadable(text) {
        Some(fault) => Err(fault),
        None => match contents(text).unsound() {
            Some(fault) => Err(fault),
            None => Ok(contents(text)),
        },
    }
}

/// A result with an error, as values.
pub open spec fn value_or_fault<T>(r: Result<T, ProfileError>) -> Result<T, ProfileFault> {
    match r {
        Ok(t) => Ok(t),
        Err(e) => Err(e@),
    }
}

/// The integer that a text assigns to `key`, tolerating `_` between digits.
pub fn u128_of(text: &str, key: &'static str) -> (r: Result<u128, ProfileError>)
    ensures
        value_or_fault(r) == number_at(text@, key@),
{
    let raw: String = match str_of(text, key) {
        Some(raw) => raw,
        None => return Err(ProfileError::Missing(key)),
    };
    match parse_number(raw.as_str()) {
        Some(n) => Ok(n),
        None => Err(ProfileError::NotAnInteger(key, raw)),
    }
}

/// The number of seconds that a text assigns to `key`.
pub fn u64_of(text: &str, key: &'static str) -> (r: Result<u64, ProfileError>)
    ensures
        value_or_fault(r) == seconds_at(text@, key@),
{
    match u128_of(text, key) {
        Err(e) => Err(e),
        Ok(n) => {
            if n <= 0xffff_ffff_ffff_ffff {
                Ok(n as u64)
            } else {
                Err(ProfileError::OutOfRange(key))
            }
        },
    }
}

impl Profile {
    /// The price of the dearest single call.
    pub fn dearest(&self) -> (r: u128)
        ensures
            r == self@.dearest(),
    {
        max3(self.ingest_price, self.sign_price, self.root_price)
    }

    /// Checks the budgets and the windows. A key must be able to afford the dearest
    /// single call, or that call is permanently unreachable; the burst window is
    /// the spike guard *inside* the day, so neither its allowance nor its length
    /// goes beyond the day's.
    pub fn check(&self) -> (r: Result<(), ProfileError>)
        ensures
            match self@.unsound() {
                Some(fault) => r is Err && r->Err_0@ == fault,
                None => r is Ok,
            },
    {
        let dearest: u128 = self.dearest();
        if self.burst_budget < dearest || self.daily_budget < dearest {
            return Err(
                ProfileError::BudgetsTooSmall {
                    burst: self.burst_budget,
                    daily: self.daily_budget,
                    dearest,
                },
            );
        }
        if self.burst_budget > self.daily_budget {
            return Err(
                ProfileError::BurstAboveDaily {
                    burst: self.burst_budget,
                    daily: self.daily_budget,
                },
            );
        }
        if self.burst_window_secs >= self.daily_window_secs {
            return Err(ProfileError::WindowsOutOfOrder);
        }
        Ok(())
    }

    /// The profile in a text, or the first thing that is wrong with it.
    pub fn parse(text: &str) -> (r: Result<Profile, ProfileError>)
        ensures
            match profile_in(text@) {
                Ok(profile) => r is Ok && r->Ok_0@ == profile,
                Err(fault) => r is Err && r->Err_0@ == fault,
            },
    {
        let index: String = match str_of(text, "index_principal") {
            Some(value) => value,
            None => return Err(ProfileError::Missing("index_principal")),
        };
        let cycle_floor: u128 = match u128_of(text, "cycle_floor") {
            Ok(n) => n,
            Err(e) => return Err(e),
        };
        let ingest_price: u128 = match u128_of(text, "ingest_price") {
            Ok(n) => n,
            Err(e) => return Err(e),
        };
        let sign_price: u128 = match u128_of(text, "sign_price") {
            Ok(n) => n,
            Err(e) => return Err(e),
        };
        let root_price: u128 = match u128_of(text, "root_price") {
            Ok(n) => n,
            Err(e) => return Err(e),
        };
        let burst_budget: u128 = match u128_of(text, "burst_budget_cycles") {
            Ok(n) => n,
            Err(e) => return Err(e),
        };
        let burst_window_secs: u64 = match u64_of(text, "burst_window_secs") {
            Ok(n) => n,
            Err(e) => return Err(e),
        };
        let daily_budget: u128 = match u128_of(text, "daily_budget_cycles") {
            Ok(n) => n,
            Err(e) => return Err(e),
        };
        let daily_window_secs: u64 = match u64_of(text, "daily_window_secs") {
            Ok(n) => n,
            Err(e) => return Err(e),
        };
        let allowlist: Vec<String> = match list_of(text, "allowlist") {
            Some(list) => list,
            None => return Err(ProfileError::Missing("allowlist")),
        };
        let games: Vec<String> = match list_of(text, "games") {
            Some(list) => list,
            None => return Err(ProfileError::Missing("games")),
        };
        let profile = Profile {
            index,
            cycle_floor,
            ingest_price,
            sign_price,
            root_price,
            burst_budget,
            burst_window_secs,
            daily_budget,
            daily_window_secs,
            allowlist,
            games,
        };
        match profile.check() {
            Ok(()) => Ok(profile),
            Err(e) => Err(e),
        }
    }
}

/// A profile that was read can be run: a key can afford every single call in a
/// burst and in a day, and a burst is within the day in cycles and in time.
pub proof fn a_profile_that_was_read_is_sound(text: Seq<char>)
    ensures
        profile_in(text) matches Ok(p) ==> {
            &&& p.ingest_price <= p.burst_budget && p.ingest_price <= p.daily_budget
            &&& p.sign_price <= p.burst_budget && p.sign_price <= p.daily_budget
            &&& p.root_price <= p.burst_budget && p.root_price <= p.daily_budget
            &&& p.burst_budget <= p.daily_budget
            &&& p.burst_window_secs < p.daily_window_secs
        },
{
}

} // verus!
