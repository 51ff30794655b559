//! Configuration of a run and the ways in which it can be wrong.
//!
//! A run is configured by four or five decimal integers, in this order:
//! the number of philosophers, the time to die, the time to eat, the time to
//! sleep, and, if wanted, the number of meals required of everyone. All of
//! them are positive; times are in milliseconds.
use vstd::prelude::*;
use crate::table::Table;

verus! {

/// Why a configuration was rejected. Nothing of a run starts after one of
/// these.
#[derive(Clone, Copy, Debug, PartialEq, Eq, Structural)]
pub enum ConfigError {
    /// There are fewer than four or more than five parameters.
    ArgumentCount,
    /// A parameter is not a decimal integer.
    NotANumber,
    /// A parameter is zero or negative.
    NotPositive,
    /// A parameter is larger than its field can hold.
    TooLarge,
}

/// Most philosophers that a table seats.
pub const MAX_PHILOSOPHERS: u32 = 255;

/// Longest time, and largest quota, that a configuration can give.
pub const MAX_VALUE: u32 = 0xffff_ffff;

/// `c` is a decimal digit.
pub open spec fn is_digit(c: char) -> bool {
    '0' <= c <= '9'
}

/// The number that a string of digits denotes; leading zeros count for
/// nothing.
pub open spec fn digits_value(s: Seq<char>) -> nat
    decreases s.len(),
{
    if s.len() == 0 {
        0
    } else {
        digits_value(s.drop_last()) * 10 + (s.last() as nat - '0' as nat) as nat
    }
}

/// `s` begins with a sign.
pub open spec fn has_sign(s: Seq<char>) -> bool {
    s.len() > 0 && (s[0] == '+' || s[0] == '-')
}

/// `s` without its sign.
pub open spec fn magnitude(s: Seq<char>) -> Seq<char> {
    if has_sign(s) {
        s.subrange(1, s.len() as int)
    } else {
        s
    }
}

/// The integer that `s` denotes: an optional sign and then one or more
/// digits, with nothing before, between or after them.
pub open spec fn integer(s: Seq<char>) -> Option<int> {
    let m = magnitude(s);
    if m.len() > 0 && (forall|i: int| 0 <= i < m.len() ==> is_digit(#[trigger] m[i])) {
        if s[0] == '-' {
            Some(-(digits_value(m) as int))
        } else {
            Some(digits_value(m) as int)
        }
    } else {
        None
    }
}

/// A value of a configuration is positive and at most `max`.
pub open spec fn in_range(v: int, max: int) -> Result<int, ConfigError> {
    if v <= 0 {
        Err(ConfigError::NotPositive)
    } else if v > max {
        Err(ConfigError::TooLarge)
    } else {
        Ok(v)
    }
}

/// The value of a parameter given as text.
pub open spec fn field(s: Seq<char>, max: int) -> Result<int, ConfigError> {
    match integer(s) {
        None => Err(ConfigError::NotANumber),
        Some(v) => in_range(v, max),
    }
}

/// The largest value that parameter `i` may have.
pub open spec fn max_of(i: int) -> int {
    if i == 0 {
        MAX_PHILOSOPHERS as int
    } else {
        MAX_VALUE as int
    }
}

/// The configuration that the values `v` give: where there are four or
/// five, all positive and none too large, their table; else the error of
/// the first value that is wrong.
pub open spec fn configured(v: Seq<Result<int, ConfigError>>) -> Result<Table, ConfigError> {
    if v.len() != 4 && v.len() != 5 {
        Err(ConfigError::ArgumentCount)
    } else if v[0] is Err {
        Err(v[0]->Err_0)
    } else if v[1] is Err {
        Err(v[1]->Err_0)
    } else if v[2] is Err {
        Err(v[2]->Err_0)
    } else if v[3] is Err {
        Err(v[3]->Err_0)
    } else if v.len() == 5 && v[4] is Err {
        Err(v[4]->Err_0)
    } else {
        Ok(
            Table {
                n: v[0]->Ok_0 as u8,
                t_die: v[1]->Ok_0 as u64,
                t_eat: v[2]->Ok_0 as u64,
                t_sleep: v[3]->Ok_0 as u64,
                n_times: if v.len() == 5 {
                    Some(v[4]->Ok_0 as u32)
                } else {
                    None
                },
                n_full: 0,
            },
        )
    }
}

/// The parameters `args`, each read as text.
pub open spec fn fields(args: Seq<Seq<char>>) -> Seq<Result<int, ConfigError>> {
    Seq::new(args.len(), |i: int| field(args[i], max_of(i)))
}

/// The values of a configuration, each held against its range.
pub open spec fn values(
    n: int,
    t_die: int,
    t_eat: int,
    t_sleep: int,
    n_times: Option<int>,
) -> Seq<Result<int, ConfigError>> {
    let four = seq![
        in_range(n, max_of(0)),
        in_range(t_die, max_of(1)),
        in_range(t_eat, max_of(2)),
        in_range(t_sleep, max_of(3)),
    ];
    match n_times {
        Some(m) => four.push(in_range(m, max_of(4))),
        None => four,
    }
}

/// Reads one parameter: a decimal integer with an optional sign that is
/// positive and at most `max`.
pub fn parse_field(s: &str, max: u32) -> (r: Result<u32, ConfigError>)
    ensures
        match field(s@, max as int) {
            Ok(v) => r == Ok::<u32, ConfigError>(v as u32),
            Err(e) => r == Err::<u32, ConfigError>(e),
        },
{
    let mut negative = false;
    let mut first = true;
    let mut digits = false;
    let mut value: u64 = 0;
    let mut large = false;
    let ghost mut start: int = 0;
    for c in it: s.chars()
        invariant
            it.seq() == s@,
            first <==> it.index() == 0,
            start == 1 <==> !first && has_sign(s@),
            start == 0 || start == 1,
            negative <==> !first && s@[0] == '-',
            digits <==> it.index() > start,
            forall|i: int| start <= i < it.index() ==> is_digit(#[trigger] s@[i]),
            !large ==> value == digits_value(s@.subrange(start, it.index() as int)) && value
                <= MAX_VALUE,
            large ==> digits_value(s@.subrange(start, it.index() as int)) > MAX_VALUE,
    {
        let ghost k = it.index() as int;
        if first && (c == '+' || c == '-') {
            negative = c == '-';
            proof {
                start = 1;
                assert(s@.subrange(1, 1).len() == 0);
            }
        } else if c >= '0' && c <= '9' {
            let d = (c as u32 - '0' as u32) as u64;
            proof {
                let before = s@.subrange(start, k);
                let after = s@.subrange(start, k + 1);
                assert(after.drop_last() =~= before);
                assert(after.last() == c);
            }
            digits = true;
            if !large {
                value = value * 10 + d;
                if value > MAX_VALUE as u64 {
                    large = true;
                }
            }
        } else {
            proof {
                assert(magnitude(s@)[k - start] == c);
            }
            return Err(ConfigError::NotANumber);
        }
        first = false;
    }
    proof {
        assert(s@.subrange(start, s@.len() as int) =~= magnitude(s@));
    }
    if !digits {
        Err(ConfigError::NotANumber)
    } else if negative || (value == 0 && !large) {
        Err(ConfigError::NotPositive)
    } else if large || value > max as u64 {
        Err(ConfigError::TooLarge)
    } else {
        Ok(value as u32)
    }
}

/// Holds one value of a configuration against its range.
pub fn check_value(v: i64, max: u32) -> (r: Result<u32, ConfigError>)
    ensures
        match in_range(v as int, max as int) {
            Ok(x) => r == Ok::<u32, ConfigError>(x as u32),
            Err(e) => r == Err::<u32, ConfigError>(e),
        },
{
    if v <= 0 {
        Err(ConfigError::NotPositive)
    } else if v > max as i64 {
        Err(ConfigError::TooLarge)
    } else {
        Ok(v as u32)
    }
}

impl Table {
    /// The table that the parameters of a command line configure. `args`
    /// holds the parameters alone, without the name of the program.
    ///
    /// The result is a valid table, or the error of the first parameter
    /// that is wrong.
    pub fn from_args(args: &Vec<String>) -> (r: Result<Table, ConfigError>)
        ensures
            r == configured(fields(args.deep_view())),
            r matches Ok(table) ==> table.valid() && table.wf(),
    {
        let ghost v = fields(args.deep_view());
        if args.len() != 4 && args.len() != 5 {
            return Err(ConfigError::ArgumentCount);
        }
        assert(forall|i: int| 0 <= i < args.len() ==> args.deep_view()[i] == args[i]@);
        let n = match parse_field(args[0].as_str(), MAX_PHILOSOPHERS) {
            Ok(n) => n,
            Err(e) => {
                return Err(e);
            },
        };
        let t_die = match parse_field(args[1].as_str(), MAX_VALUE) {
            Ok(t) => t,
            Err(e) => {
                return Err(e);
            },
        };
        let t_eat = match parse_field(args[2].as_str(), MAX_VALUE) {
            Ok(t) => t,
            Err(e) => {
                return Err(e);
            },
        };
        let t_sleep = match parse_field(args[3].as_str(), MAX_VALUE) {
            Ok(t) => t,
            Err(e) => {
                return Err(e);
            },
        };
        let n_times = if args.len() == 5 {
            match parse_field(args[4].as_str(), MAX_VALUE) {
                Ok(m) => Some(m),
                Err(e) => {
                    return Err(e);
                },
            }
        } else {
            None
        };
        Ok(Table::new(n as u8, n_times, t_die as u64, t_sleep as u64, t_eat as u64))
    }

    /// The table of a configuration given as numbers: a valid table, or
    /// the error of the first value, in the order of the parameters, that is
    /// not positive or too large.
    pub fn validated(n: i64, t_die: i64, t_eat: i64, t_sleep: i64, n_times: Option<i64>) -> (r:
        Result<Table, ConfigError>)
        ensures
            r == configured(
                values(
                    n as int,
                    t_die as int,
                    t_eat as int,
                    t_sleep as int,
                    match n_times {
                        Some(m) => Some(m as int),
                        None => None,
                    },
                ),
            ),
            r matches Ok(table) ==> table.valid() && table.wf(),
    {
        let n = match check_value(n, MAX_PHILOSOPHERS) {
            Ok(n) => n,
            Err(e) => {
                return Err(e);
            },
        };
        let t_die = match check_value(t_die, MAX_VALUE) {
            Ok(t) => t,
            Err(e) => {
                return Err(e);
            },
        };
        let t_eat = match check_value(t_eat, MAX_VALUE) {
            Ok(t) => t,
            Err(e) => {
                return Err(e);
            },
        };
        let t_sleep = match check_value(t_sleep, MAX_VALUE) {
            Ok(t) => t,
            Err(e) => {
                return Err(e);
            },
        };
        let n_times = match n_times {
            Some(m) => match check_value(m, MAX_VALUE) {
                Ok(m) => Some(m),
                Err(e) => {
                    return Err(e);
                },
            },
            None => None,
        };
        Ok(Table::new(n as u8, n_times, t_die as u64, t_sleep as u64, t_eat as u64))
    }
}

} // verus!
