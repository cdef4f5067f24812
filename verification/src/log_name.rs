//! The names of log files: `YYYYMMDD-HHMMSS-NNNNNNNNN-PID.log`.

use vstd::arithmetic::power;
use vstd::prelude::*;
use vstd::string::*;

use crate::calendar;
use crate::decimal;

verus! {

/// A moment, as the time that has passed since 1970-01-01 00:00:00 UTC.
#[derive(Clone, Copy, Debug, PartialEq, Eq, Structural)]
pub struct Timestamp {
    /// Whole seconds.
    pub secs: u64,
    /// Nanoseconds within the second.
    pub nanos: u32,
}

/// A file or a directory: a name within a directory.
#[derive(Debug)]
pub struct Location<D> {
    /// The directory that holds it.
    pub dir: D,
    /// Its name in that directory.
    pub name: String,
}

/// Two texts with a dash between them.
pub open spec fn dashed(front: Seq<char>, rest: Seq<char>) -> Seq<char> {
    front + seq!['-'] + rest
}

/// The UTC date of a moment, as `YYYYMMDD`.
pub open spec fn date_text(secs: nat) -> Seq<char> {
    let date = calendar::date_of((secs / 86400) as int);
    decimal::padded(date.0 as nat, 4) + decimal::padded(date.1 as nat, 2) + decimal::padded(date.2 as nat, 2)
}

/// The UTC time of day of a moment, as `HHMMSS`.
pub open spec fn time_text(secs: nat) -> Seq<char> {
    decimal::padded(secs % 86400 / 3600, 2) + decimal::padded(secs % 3600 / 60, 2) + decimal::padded(secs % 60, 2)
}

/// The name of the log file of process `pid`, started `secs` seconds and
/// `nanos` nanoseconds after 1970-01-01 00:00:00 UTC.
pub open spec fn log_name(secs: nat, nanos: nat, pid: nat) -> Seq<char> {
    dashed(
        date_text(secs),
        dashed(time_text(secs), dashed(decimal::padded(nanos, 9), decimal::decimal(pid) + seq!['.', 'l', 'o', 'g'])),
    )
}

/// Whether `name` has the form of a log file's name: eight digits, six
/// digits, nine digits and at least one digit, with dashes between them, and
/// the ending `.log`.
pub open spec fn is_log_name(name: Seq<char>) -> bool {
    let n = name.len() as int;
    &&& 31 <= n
    &&& decimal::all_digits(name.subrange(0, 8))
    &&& name[8] == '-'
    &&& decimal::all_digits(name.subrange(9, 15))
    &&& name[15] == '-'
    &&& decimal::all_digits(name.subrange(16, 25))
    &&& name[25] == '-'
    &&& decimal::all_digits(name.subrange(26, n - 4))
    &&& name.subrange(n - 4, n) == seq!['.', 'l', 'o', 'g']
}

/// The name of the log file of process `pid`, started at `at`.
pub fn log_file_name(at: Timestamp, pid: u32) -> (name: String)
    ensures
        name@ == log_name(at.secs as nat, at.nanos as nat, pid as nat),
{
    let days: u64 = at.secs / 86400;
    let time_of_day: u64 = at.secs % 86400;
    let hours: u64 = time_of_day / 3600;
    let minutes: u64 = (time_of_day % 3600) / 60;
    let seconds: u64 = time_of_day % 60;
    let (year, month, day) = calendar::days_to_ymd(days);
    assert(minutes == at.secs % 3600 / 60);
    assert(seconds == at.secs % 60);

    proof {
        reveal_strlit("-");
        reveal_strlit(".log");
    }
    let mut name = String::new();
    decimal::append_padded(&mut name, year, 4);
    decimal::append_padded(&mut name, month, 2);
    decimal::append_padded(&mut name, day, 2);
    assert(name@ =~= date_text(at.secs as nat));
    name.append("-");
    decimal::append_padded(&mut name, hours, 2);
    decimal::append_padded(&mut name, minutes, 2);
    decimal::append_padded(&mut name, seconds, 2);
    assert(name@ =~= dashed(date_text(at.secs as nat), time_text(at.secs as nat)));
    name.append("-");
    decimal::append_padded(&mut name, at.nanos as u64, 9);
    name.append("-");
    decimal::append_decimal(&mut name, pid as u64);
    name.append(".log");
    assert(name@ =~= log_name(at.secs as nat, at.nanos as nat, pid as nat));
    name
}

/// Where process `pid` keeps its log: a file in `dir`, named after the time
/// since 1970. A clock that shows an earlier time (`None`) counts as that
/// moment itself.
pub fn generate_log_path<D>(dir: D, since_epoch: Option<Timestamp>, pid: u32) -> (path: Location<D>)
    ensures
        path.dir == dir,
        since_epoch matches Some(at) ==> path.name@ == log_name(
            at.secs as nat,
            at.nanos as nat,
            pid as nat,
        ),
        since_epoch is None ==> path.name@ == log_name(0, 0, pid as nat),
        since_epoch is None ==> path.name@ == "19700101-000000-000000000-"@ + decimal::decimal(
            pid as nat,
        ) + ".log"@,
{
    proof {
        law_name_at_the_epoch(pid as nat);
    }
    let at = match since_epoch {
        Some(at) => at,
        None => Timestamp { secs: 0, nanos: 0 },
    };
    let name = log_file_name(at, pid);
    Location { dir, name }
}

/// Whether the bytes from `from` up to `to` are all digits.
fn digits_between(bytes: &[u8], from: usize, to: usize) -> (res: bool)
    requires
        from <= to <= bytes@.len(),
    ensures
        res == forall|i: int| from <= i < to ==> 48 <= #[trigger] bytes@[i] <= 57,
{
    let mut i: usize = from;
    while i < to
        invariant
            from <= i <= to <= bytes@.len(),
            forall|j: int| from <= j < i ==> 48 <= #[trigger] bytes@[j] <= 57,
        decreases to - i,
    {
        let b: u8 = bytes[i];
        if b < 48 || 57 < b {
            return false;
        }
        i = i + 1;
    }
    true
}

/// Whether `name` is a name that `generate_log_path` gives to log files.
pub fn is_temp_log_name(name: &str) -> (res: bool)
    ensures
        res == is_log_name(name@),
        res == ({
            let n = name@.len() as int;
            &&& 31 <= n
            &&& forall|i: int| 0 <= i < 8 ==> '0' <= #[trigger] name@[i] <= '9'
            &&& name@[8] == '-'
            &&& forall|i: int| 9 <= i < 15 ==> '0' <= #[trigger] name@[i] <= '9'
            &&& name@[15] == '-'
            &&& forall|i: int| 16 <= i < 25 ==> '0' <= #[trigger] name@[i] <= '9'
            &&& name@[25] == '-'
            &&& forall|i: int| 26 <= i < n - 4 ==> '0' <= #[trigger] name@[i] <= '9'
            &&& name@[n - 4] == '.' && name@[n - 3] == 'l' && name@[n - 2] == 'o' && name@[n - 1]
                == 'g'
        }),
{
    proof {
        law_recognised_names(name@);
    }
    if !name.is_ascii() {
        proof {
            if is_log_name(name@) {
                lemma_log_name_is_ascii(name@);
            }
        }
        return false;
    }
    let bytes = name.as_bytes();
    let n: usize = bytes.len();
    assert(n == name@.len());
    assert(forall|i: int| 0 <= i < n ==> #[trigger] bytes@[i] == name@[i] as u8);
    if n < 31 {
        return false;
    }
    let res = bytes[n - 4] == 46 && bytes[n - 3] == 108 && bytes[n - 2] == 111 && bytes[n - 1] == 103
        && digits_between(bytes, 0, 8) && bytes[8] == 45 && digits_between(bytes, 9, 15)
        && bytes[15] == 45 && digits_between(bytes, 16, 25) && bytes[25] == 45 && digits_between(
        bytes,
        26,
        n - 4,
    );
    proof {
        lemma_log_name_positions(name@);
        assert(forall|i: int| 0 <= i < n ==> (decimal::is_digit(#[trigger] name@[i]) <==> 48 <= bytes@[i] <= 57));
    }
    res
}

/// The form of a log file's name, position by position.
proof fn lemma_log_name_positions(name: Seq<char>)
    requires
        31 <= name.len(),
    ensures
        is_log_name(name) <==> {
            let n = name.len() as int;
            &&& forall|i: int| 0 <= i < 8 ==> decimal::is_digit(#[trigger] name[i])
            &&& name[8] == '-'
            &&& forall|i: int| 9 <= i < 15 ==> decimal::is_digit(#[trigger] name[i])
            &&& name[15] == '-'
            &&& forall|i: int| 16 <= i < 25 ==> decimal::is_digit(#[trigger] name[i])
            &&& name[25] == '-'
            &&& forall|i: int| 26 <= i < n - 4 ==> decimal::is_digit(#[trigger] name[i])
            &&& name[n - 4] == '.' && name[n - 3] == 'l' && name[n - 2] == 'o' && name[n - 1] == 'g'
        },
{
    let n = name.len() as int;
    lemma_digits_at(name, 0, 8);
    lemma_digits_at(name, 9, 15);
    lemma_digits_at(name, 16, 25);
    lemma_digits_at(name, 26, n - 4);
    let ending = name.subrange(n - 4, n);
    assert(ending[0] == name[n - 4] && ending[1] == name[n - 3] && ending[2] == name[n - 2]
        && ending[3] == name[n - 1]);
    if name[n - 4] == '.' && name[n - 3] == 'l' && name[n - 2] == 'o' && name[n - 1] == 'g' {
        assert(ending =~= seq!['.', 'l', 'o', 'g']);
    }
}

proof fn lemma_digits_at(s: Seq<char>, from: int, to: int)
    requires
        0 <= from <= to <= s.len(),
    ensures
        decimal::all_digits(s.subrange(from, to)) <==> forall|i: int|
            from <= i < to ==> decimal::is_digit(#[trigger] s[i]),
{
    let part = s.subrange(from, to);
    if decimal::all_digits(part) {
        assert forall|i: int| from <= i < to implies decimal::is_digit(#[trigger] s[i]) by {
            assert(part[i - from] == s[i]);
        }
    }
}

proof fn lemma_log_name_is_ascii(name: Seq<char>)
    requires
        is_log_name(name),
    ensures
        vstd::utf8::is_ascii_chars(name),
{
    lemma_log_name_positions(name);
}

/// Four parts made of digits, joined like a log file's name, have its form
/// exactly if their lengths are right.
proof fn lemma_joined_parts(date: Seq<char>, time: Seq<char>, nanos: Seq<char>, pid: Seq<char>)
    requires
        decimal::all_digits(date),
        decimal::all_digits(time),
        decimal::all_digits(nanos),
        decimal::all_digits(pid),
        8 <= date.len(),
        time.len() == 6,
        nanos.len() == 9,
        1 <= pid.len(),
    ensures
        is_log_name(dashed(date, dashed(time, dashed(nanos, pid + seq!['.', 'l', 'o', 'g'])))) <==> date.len()
            == 8,
{
    let name = dashed(date, dashed(time, dashed(nanos, pid + seq!['.', 'l', 'o', 'g'])));
    lemma_log_name_positions(name);
    if date.len() == 8 {
        assert forall|i: int| 0 <= i < 8 implies decimal::is_digit(#[trigger] name[i]) by {
            assert(name[i] == date[i]);
        }
        assert forall|i: int| 9 <= i < 15 implies decimal::is_digit(#[trigger] name[i]) by {
            assert(name[i] == time[i - 9]);
        }
        assert forall|i: int| 16 <= i < 25 implies decimal::is_digit(#[trigger] name[i]) by {
            assert(name[i] == nanos[i - 16]);
        }
        assert forall|i: int| 26 <= i < name.len() - 4 implies decimal::is_digit(
            #[trigger] name[i],
        ) by {
            assert(name[i] == pid[i - 26]);
        }
    } else {
        assert(name[8] == date[8]);
    }
}

proof fn lemma_all_digits_joined(a: Seq<char>, b: Seq<char>)
    requires
        decimal::all_digits(a),
        decimal::all_digits(b),
    ensures
        decimal::all_digits(a + b),
{
}

/// The date of a moment: its digits, and how many there are.
proof fn lemma_date_text(secs: nat)
    ensures
        decimal::all_digits(date_text(secs)),
        ({
            let date = calendar::date_of((secs / 86400) as int);
            &&& 8 <= date_text(secs).len()
            &&& date_text(secs).len() == 8 <==> date.0 <= 9999
            &&& decimal::padded(date.1 as nat, 2).len() == 2
            &&& decimal::padded(date.2 as nat, 2).len() == 2
        }),
{
    let date = calendar::date_of((secs / 86400) as int);
    calendar::law_every_day_has_a_date((secs / 86400) as int);
    let y = date.0 as nat;
    let m = date.1 as nat;
    let d = date.2 as nat;
    decimal::lemma_padded_value(y, 4);
    decimal::lemma_padded_value(m, 2);
    decimal::lemma_padded_value(d, 2);
    decimal::lemma_padded_len(y, 4);
    decimal::lemma_padded_len(m, 2);
    decimal::lemma_padded_len(d, 2);
    assert(decimal::power_of_ten(2) == 100 && decimal::power_of_ten(4) == 10000) by {
        reveal_with_fuel(decimal::power_of_ten, 5);
    }
    lemma_all_digits_joined(decimal::padded(y, 4), decimal::padded(m, 2));
    lemma_all_digits_joined(
        decimal::padded(y, 4) + decimal::padded(m, 2),
        decimal::padded(d, 2),
    );
}

/// The time of day of a moment: its digits, and how many there are.
proof fn lemma_time_text(secs: nat)
    ensures
        decimal::all_digits(time_text(secs)),
        decimal::padded(secs % 86400 / 3600, 2).len() == 2,
        decimal::padded(secs % 3600 / 60, 2).len() == 2,
        decimal::padded(secs % 60, 2).len() == 2,
{
    let h: nat = secs % 86400 / 3600;
    let m: nat = secs % 3600 / 60;
    let s: nat = secs % 60;
    decimal::lemma_padded_value(h, 2);
    decimal::lemma_padded_value(m, 2);
    decimal::lemma_padded_value(s, 2);
    decimal::lemma_padded_len(h, 2);
    decimal::lemma_padded_len(m, 2);
    decimal::lemma_padded_len(s, 2);
    assert(decimal::power_of_ten(2) == 100) by {
        reveal_with_fuel(decimal::power_of_ten, 3);
    }
    lemma_all_digits_joined(decimal::padded(h, 2), decimal::padded(m, 2));
    lemma_all_digits_joined(
        decimal::padded(h, 2) + decimal::padded(m, 2),
        decimal::padded(s, 2),
    );
}

proof fn lemma_nanos_text(nanos: nat)
    ensures
        nanos < 1_000_000_000 ==> decimal::padded(nanos, 9).len() == 9,
        decimal::all_digits(decimal::padded(nanos, 9)),
{
    decimal::lemma_padded_len(nanos, 9);
    decimal::lemma_padded_value(nanos, 9);
    assert(decimal::power_of_ten(9) == 1_000_000_000) by {
        reveal_with_fuel(decimal::power_of_ten, 10);
    }
}

/// The names given to log files are recognised as such, up to the end of the
/// year 9999: from then on the year takes a fifth digit.
pub proof fn law_generated_names_are_recognised(secs: nat, nanos: nat, pid: nat)
    requires
        nanos < 1_000_000_000,
    ensures
        is_log_name(log_name(secs, nanos, pid)) <==> secs < 253402300800,
        is_log_name(log_name(secs, nanos, pid)) <==> calendar::date_of((secs / 86400) as int).0
            <= 9999,
{
    calendar::law_year_10000((secs / 86400) as int);
    lemma_date_text(secs);
    lemma_time_text(secs);
    lemma_nanos_text(nanos);
    decimal::lemma_padded_value(pid, 0);
    lemma_joined_parts(
        date_text(secs),
        time_text(secs),
        decimal::padded(nanos, 9),
        decimal::decimal(pid),
    );
}

/// A text of digits in front of a dash can be told apart from what follows.
proof fn lemma_dashed_injective(a: Seq<char>, r: Seq<char>, b: Seq<char>, q: Seq<char>)
    requires
        decimal::all_digits(a),
        decimal::all_digits(b),
        dashed(a, r) == dashed(b, q),
    ensures
        a == b,
        r == q,
{
    let left = dashed(a, r);
    let right = dashed(b, q);
    assert(left[a.len() as int] == '-');
    assert(right[b.len() as int] == '-');
    if a.len() < b.len() {
        assert(right[a.len() as int] == b[a.len() as int]);
    } else if b.len() < a.len() {
        assert(left[b.len() as int] == a[b.len() as int]);
    } else {
        assert(a =~= left.subrange(0, a.len() as int));
        assert(b =~= right.subrange(0, a.len() as int));
        assert(r =~= left.subrange(a.len() as int + 1, left.len() as int));
        assert(q =~= right.subrange(a.len() as int + 1, left.len() as int));
    }
}

/// Two joined texts whose second parts have the same length agree part by part.
proof fn lemma_split_end(a: Seq<char>, r: Seq<char>, b: Seq<char>, q: Seq<char>)
    requires
        a + r == b + q,
        r.len() == q.len(),
    ensures
        a == b,
        r == q,
{
    let joined = a + r;
    assert(joined.len() == (b + q).len());
    assert(a =~= joined.subrange(0, a.len() as int));
    assert(b =~= joined.subrange(0, a.len() as int));
    assert(r =~= joined.subrange(a.len() as int, joined.len() as int));
    assert(q =~= joined.subrange(a.len() as int, joined.len() as int));
}

proof fn lemma_date_text_injective(s1: nat, s2: nat)
    requires
        date_text(s1) == date_text(s2),
    ensures
        s1 / 86400 == s2 / 86400,
{
    let d1 = calendar::date_of((s1 / 86400) as int);
    let d2 = calendar::date_of((s2 / 86400) as int);
    calendar::law_every_day_has_a_date((s1 / 86400) as int);
    calendar::law_every_day_has_a_date((s2 / 86400) as int);
    lemma_date_text(s1);
    lemma_date_text(s2);
    lemma_split_end(
        decimal::padded(d1.0 as nat, 4) + decimal::padded(d1.1 as nat, 2),
        decimal::padded(d1.2 as nat, 2),
        decimal::padded(d2.0 as nat, 4) + decimal::padded(d2.1 as nat, 2),
        decimal::padded(d2.2 as nat, 2),
    );
    lemma_split_end(
        decimal::padded(d1.0 as nat, 4),
        decimal::padded(d1.1 as nat, 2),
        decimal::padded(d2.0 as nat, 4),
        decimal::padded(d2.1 as nat, 2),
    );
    decimal::lemma_padded_injective(d1.0 as nat, d2.0 as nat, 4);
    decimal::lemma_padded_injective(d1.1 as nat, d2.1 as nat, 2);
    decimal::lemma_padded_injective(d1.2 as nat, d2.2 as nat, 2);
}

#[verifier::rlimit(40)]
proof fn lemma_time_of_day(secs: nat)
    ensures
        secs % 86400 == 3600 * (secs % 86400 / 3600) + 60 * (secs % 3600 / 60) + secs % 60,
{
}

#[verifier::rlimit(40)]
proof fn lemma_time_text_injective(s1: nat, s2: nat)
    requires
        time_text(s1) == time_text(s2),
    ensures
        s1 % 86400 == s2 % 86400,
{
    let h1: nat = s1 % 86400 / 3600;
    let m1: nat = s1 % 3600 / 60;
    let h2: nat = s2 % 86400 / 3600;
    let m2: nat = s2 % 3600 / 60;
    lemma_time_of_day(s1);
    lemma_time_of_day(s2);
    lemma_time_text(s1);
    lemma_time_text(s2);
    lemma_split_end(
        decimal::padded(h1, 2) + decimal::padded(m1, 2),
        decimal::padded(s1 % 60, 2),
        decimal::padded(h2, 2) + decimal::padded(m2, 2),
        decimal::padded(s2 % 60, 2),
    );
    lemma_split_end(
        decimal::padded(h1, 2),
        decimal::padded(m1, 2),
        decimal::padded(h2, 2),
        decimal::padded(m2, 2),
    );
    decimal::lemma_padded_injective(h1, h2, 2);
    decimal::lemma_padded_injective(m1, m2, 2);
    decimal::lemma_padded_injective(s1 % 60, s2 % 60, 2);
}

/// Log file names are unique: two runs share one only if they have the same
/// process id and started in the same nanosecond.
pub proof fn law_log_names_are_unique(
    secs1: nat,
    nanos1: nat,
    pid1: nat,
    secs2: nat,
    nanos2: nat,
    pid2: nat,
)
    requires
        log_name(secs1, nanos1, pid1) == log_name(secs2, nanos2, pid2),
    ensures
        secs1 == secs2,
        nanos1 == nanos2,
        pid1 == pid2,
{
    lemma_date_text(secs1);
    lemma_date_text(secs2);
    lemma_time_text(secs1);
    lemma_time_text(secs2);
    lemma_nanos_text(nanos1);
    lemma_nanos_text(nanos2);
    let ending = seq!['.', 'l', 'o', 'g'];
    let pid_part1 = decimal::decimal(pid1) + ending;
    let pid_part2 = decimal::decimal(pid2) + ending;
    let nanos_part1 = dashed(decimal::padded(nanos1, 9), pid_part1);
    let nanos_part2 = dashed(decimal::padded(nanos2, 9), pid_part2);
    let time_part1 = dashed(time_text(secs1), nanos_part1);
    let time_part2 = dashed(time_text(secs2), nanos_part2);
    lemma_dashed_injective(date_text(secs1), time_part1, date_text(secs2), time_part2);
    lemma_dashed_injective(time_text(secs1), nanos_part1, time_text(secs2), nanos_part2);
    lemma_dashed_injective(
        decimal::padded(nanos1, 9),
        pid_part1,
        decimal::padded(nanos2, 9),
        pid_part2,
    );
    lemma_split_end(decimal::decimal(pid1), ending, decimal::decimal(pid2), ending);
    lemma_date_text_injective(secs1, secs2);
    lemma_time_text_injective(secs1, secs2);
    decimal::lemma_padded_injective(nanos1, nanos2, 9);
    decimal::lemma_padded_injective(pid1, pid2, 0);
}

/// A log file's name, position by position: digits at 0 to 7, 9 to 14, 16 to
/// 24 and from 26 up to the last four characters, with dashes between them,
/// and `.log` at the end.
pub proof fn law_recognised_names(name: Seq<char>)
    ensures
        is_log_name(name) <==> {
            let n = name.len() as int;
            &&& 31 <= n
            &&& forall|i: int| 0 <= i < 8 ==> '0' <= #[trigger] name[i] <= '9'
            &&& name[8] == '-'
            &&& forall|i: int| 9 <= i < 15 ==> '0' <= #[trigger] name[i] <= '9'
            &&& name[15] == '-'
            &&& forall|i: int| 16 <= i < 25 ==> '0' <= #[trigger] name[i] <= '9'
            &&& name[25] == '-'
            &&& forall|i: int| 26 <= i < n - 4 ==> '0' <= #[trigger] name[i] <= '9'
            &&& name[n - 4] == '.' && name[n - 3] == 'l' && name[n - 2] == 'o' && name[n - 1] == 'g'
        },
{
    if 31 <= name.len() {
        lemma_log_name_positions(name);
    }
}

/// The time of day reads as hours, minutes and seconds, two digits each, that
/// make up the seconds since midnight.
pub proof fn law_time_reads_as_hours_minutes_seconds(secs: nat)
    ensures
        ({
            let t = time_text(secs);
            let hours = 10 * (t[0] as int - 48) + (t[1] as int - 48);
            let minutes = 10 * (t[2] as int - 48) + (t[3] as int - 48);
            let seconds = 10 * (t[4] as int - 48) + (t[5] as int - 48);
            &&& t.len() == 6
            &&& forall|i: int| 0 <= i < 6 ==> '0' <= #[trigger] t[i] <= '9'
            &&& minutes < 60
            &&& seconds < 60
            &&& 3600 * hours + 60 * minutes + seconds == secs % 86400
        }),
{
    let h: nat = secs % 86400 / 3600;
    let m: nat = secs % 3600 / 60;
    let s: nat = secs % 60;
    lemma_time_of_day(secs);
    decimal::lemma_two_digits(h);
    decimal::lemma_two_digits(m);
    decimal::lemma_two_digits(s);
    let t = time_text(secs);
    assert(t[0] == decimal::padded(h, 2)[0] && t[1] == decimal::padded(h, 2)[1]);
    assert(t[2] == decimal::padded(m, 2)[0] && t[3] == decimal::padded(m, 2)[1]);
    assert(t[4] == decimal::padded(s, 2)[0] && t[5] == decimal::padded(s, 2)[1]);
    assert(0 <= h / 10 <= 9 && 0 <= m / 10 <= 9 && 0 <= s / 10 <= 9);
}

/// The date reads as the year, in four digits or as many as it needs, then the
/// month and the day, in two digits each, of the day since 1970-01-01.
pub proof fn law_date_reads_as_year_month_day(secs: nat)
    ensures
        ({
            let t = date_text(secs);
            let n = t.len() - 4;
            let (y, m, d) = calendar::date_of((secs / 86400) as int);
            &&& 4 <= n
            &&& forall|i: int|
                0 <= i < n ==> #[trigger] t[i] as int == 48 + (y / power::pow(
                    10,
                    (n - 1 - i) as nat,
                )) % 10
            &&& y < power::pow(10, n as nat)
            &&& 4 < n ==> power::pow(10, (n - 1) as nat) <= y
            &&& 10 * (t[n] as int - 48) + (t[n + 1] as int - 48) == m
            &&& 10 * (t[n + 2] as int - 48) + (t[n + 3] as int - 48) == d
            &&& forall|i: int| 0 <= i < n + 4 ==> '0' <= #[trigger] t[i] <= '9'
        }),
{
    let (y, m, d) = calendar::date_of((secs / 86400) as int);
    calendar::law_every_day_has_a_date((secs / 86400) as int);
    lemma_date_text(secs);
    decimal::law_padded_reads_as_the_number(y as nat, 4);
    decimal::lemma_two_digits(m as nat);
    decimal::lemma_two_digits(d as nat);
    let t = date_text(secs);
    let year = decimal::padded(y as nat, 4);
    let n = t.len() - 4;
    assert(year.len() == n);
    assert forall|i: int| 0 <= i < n implies #[trigger] t[i] as int == 48 + (y / power::pow(
        10,
        (n - 1 - i) as nat,
    )) % 10 by {
        assert(t[i] == year[i]);
    }
    assert(t[n] == decimal::padded(m as nat, 2)[0] && t[n + 1] == decimal::padded(m as nat, 2)[1]);
    assert(t[n + 2] == decimal::padded(d as nat, 2)[0] && t[n + 3] == decimal::padded(
        d as nat,
        2,
    )[1]);
}

/// A log file's name is made of the date, the time of day, the nanoseconds in
/// nine digits and the process id, with dashes between them, and `.log`.
pub proof fn law_log_name_is_made_of_its_parts(secs: nat, nanos: nat, pid: nat)
    ensures
        log_name(secs, nanos, pid) == date_text(secs) + seq!['-'] + time_text(secs) + seq!['-']
            + decimal::padded(nanos, 9) + seq!['-'] + decimal::decimal(pid) + seq![
            '.',
            'l',
            'o',
            'g',
        ],
{
    assert(log_name(secs, nanos, pid) =~= date_text(secs) + seq!['-'] + time_text(secs) + seq!['-']
        + decimal::padded(nanos, 9) + seq!['-'] + decimal::decimal(pid) + seq!['.', 'l', 'o', 'g']);
}

/// A log file's name, up to the end of the year 9999, tells when and by whom
/// it was made: its digits read as the date, the time of day in hours, minutes
/// and seconds, the nanoseconds and the process id, in this order.
#[verifier::rlimit(40)]
pub proof fn law_log_name_tells_the_moment_and_the_process(secs: nat, nanos: nat, pid: nat)
    requires
        secs < 253402300800,
        nanos < 1_000_000_000,
    ensures
        ({
            let s = log_name(secs, nanos, pid);
            let n = s.len() as int;
            let (y, m, d) = calendar::date_of((secs / 86400) as int);
            let hours = 10 * (s[9] as int - 48) + (s[10] as int - 48);
            let minutes = 10 * (s[11] as int - 48) + (s[12] as int - 48);
            let seconds = 10 * (s[13] as int - 48) + (s[14] as int - 48);
            &&& 31 <= n
            &&& forall|i: int|
                0 <= i < 4 ==> #[trigger] s[i] as int == 48 + (y / power::pow(10, (3 - i) as nat))
                    % 10
            &&& 10 * (s[4] as int - 48) + (s[5] as int - 48) == m
            &&& 10 * (s[6] as int - 48) + (s[7] as int - 48) == d
            &&& s[8] == '-'
            &&& minutes < 60
            &&& seconds < 60
            &&& 3600 * hours + 60 * minutes + seconds == secs % 86400
            &&& s[15] == '-'
            &&& forall|i: int|
                16 <= i < 25 ==> #[trigger] s[i] as int == 48 + (nanos as int / power::pow(
                    10,
                    (24 - i) as nat,
                )) % 10
            &&& s[25] == '-'
            &&& forall|i: int|
                26 <= i < n - 4 ==> #[trigger] s[i] as int == 48 + (pid as int / power::pow(
                    10,
                    (n - 5 - i) as nat,
                )) % 10
            &&& pid < power::pow(10, (n - 30) as nat)
            &&& 31 < n ==> power::pow(10, (n - 31) as nat) <= pid
            &&& s[n - 4] == '.' && s[n - 3] == 'l' && s[n - 2] == 'o' && s[n - 1] == 'g'
        }),
{
    let s = log_name(secs, nanos, pid);
    let n = s.len() as int;
    let (y, m, d) = calendar::date_of((secs / 86400) as int);
    let date = date_text(secs);
    let time = time_text(secs);
    let nano_digits = decimal::padded(nanos, 9);
    let pid_digits = decimal::decimal(pid);
    calendar::law_year_10000((secs / 86400) as int);
    lemma_date_text(secs);
    lemma_nanos_text(nanos);
    law_date_reads_as_year_month_day(secs);
    law_time_reads_as_hours_minutes_seconds(secs);
    decimal::law_padded_reads_as_the_number(nanos, 9);
    decimal::law_decimal_reads_as_the_number(pid);
    assert(date.len() == 8 && time.len() == 6 && nano_digits.len() == 9);
    assert(n == 30 + pid_digits.len());
    assert(forall|i: int| 0 <= i < 8 ==> #[trigger] s[i] == date[i]);
    assert(forall|i: int| 9 <= i < 15 ==> #[trigger] s[i] == time[i - 9]);
    assert forall|i: int| 16 <= i < 25 implies #[trigger] s[i] as int == 48 + (nanos as int
        / power::pow(10, (24 - i) as nat)) % 10 by {
        assert(s[i] == nano_digits[i - 16]);
    }
    assert forall|i: int| 26 <= i < n - 4 implies #[trigger] s[i] as int == 48 + (pid as int
        / power::pow(10, (n - 5 - i) as nat)) % 10 by {
        assert(s[i] == pid_digits[i - 26]);
    }
}

/// The name of a log file at the very beginning of 1970, for any process.
pub proof fn law_name_at_the_epoch(pid: nat)
    ensures
        log_name(0, 0, pid) == "19700101-000000-000000000-"@ + decimal::decimal(pid) + ".log"@,
{
    reveal_strlit("19700101-000000-000000000-");
    reveal_strlit(".log");
    calendar::law_each_day_follows_the_one_before(0);
    law_log_name_is_made_of_its_parts(0, 0, pid);
    reveal_with_fuel(decimal::decimal, 4);
    assert(decimal::padded(1970, 4) =~= seq!['1', '9', '7', '0']);
    assert(decimal::padded(1, 2) =~= seq!['0', '1']);
    assert(decimal::padded(0, 2) =~= seq!['0', '0']);
    assert(decimal::padded(0, 9) =~= seq!['0', '0', '0', '0', '0', '0', '0', '0', '0']);
    assert(date_text(0) =~= seq!['1', '9', '7', '0', '0', '1', '0', '1']);
    assert(time_text(0) =~= seq!['0', '0', '0', '0', '0', '0']);
    assert(date_text(0) + seq!['-'] + time_text(0) + seq!['-'] + decimal::padded(0, 9) + seq!['-']
        =~= "19700101-000000-000000000-"@);
    assert(seq!['.', 'l', 'o', 'g'] =~= ".log"@);
}

} // verus!
