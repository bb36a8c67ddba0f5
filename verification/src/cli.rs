//! Command-line arguments of the programs: the value that follows a flag,
//! read as text or as a number, and every value of a repeated flag.

use crate::text::{is_prefix_of, parse_unsigned, parse_unsigned_text, same_text, starts_with_text};
use vstd::prelude::*;

verus! {

/// The position of the first argument equal to `flag`.
pub open spec fn flag_index(args: Seq<Seq<char>>, flag: Seq<char>) -> Option<int>
    decreases args.len(),
{
    if args.len() == 0 {
        None
    } else if args[0] == flag {
        Some(0)
    } else {
        match flag_index(args.drop_first(), flag) {
            Some(i) => Some(i + 1),
            None => None,
        }
    }
}

/// The argument that follows the first occurrence of `flag`, if any.
pub open spec fn flag_value(args: Seq<Seq<char>>, flag: Seq<char>) -> Option<Seq<char>> {
    match flag_index(args, flag) {
        Some(i) => if i + 1 < args.len() {
            Some(args[i + 1])
        } else {
            None
        },
        None => None,
    }
}

/// The number that follows the first occurrence of `flag`, if there is one
/// and it is a number no greater than `max`.
pub open spec fn flag_number(args: Seq<Seq<char>>, flag: Seq<char>, max: nat) -> Option<nat> {
    match flag_value(args, flag) {
        Some(v) => parse_unsigned(v, max),
        None => None,
    }
}

/// The values of every occurrence of `flag` that is followed by an argument
/// not starting with `--`, in order.
pub open spec fn flag_values(args: Seq<Seq<char>>, flag: Seq<char>) -> Seq<Seq<char>>
    decreases args.len(),
{
    if args.len() < 2 {
        Seq::empty()
    } else {
        let rest = flag_values(args.drop_first(), flag);
        if args[0] == flag && !is_prefix_of("--"@, args[1]) {
            seq![args[1]].add(rest)
        } else {
            rest
        }
    }
}

/// The position of the first argument equal to `flag`.
fn find_flag(args: &Vec<String>, flag: &str) -> (r: Option<usize>)
    ensures
        r is Some <==> flag_index(args.deep_view(), flag@) is Some,
        r matches Some(i) ==> flag_index(args.deep_view(), flag@) == Some(i as int) && i
            < args.len(),
{
    let ghost s = args.deep_view();
    let mut i: usize = 0;
    assert(s.skip(0) =~= s);
    while i < args.len()
        invariant
            i <= args.len(),
            s == args.deep_view(),
            forall|k: int| 0 <= k < i ==> s[k] != flag@,
            flag_index(s, flag@) == match flag_index(s.skip(i as int), flag@) {
                Some(j) => Some(j + i),
                None => None::<int>,
            },
        decreases args.len() - i,
    {
        assert(s.skip(i as int)[0] == s[i as int]);
        if same_text(args[i].as_str(), flag) {
            return Some(i);
        }
        assert(s.skip(i as int).drop_first() =~= s.skip(i + 1));
        i = i + 1;
    }
    assert(s.skip(i as int) =~= Seq::<Seq<char>>::empty());
    None
}

/// The argument that follows `flag`.
pub fn parse_arg_string(args: &Vec<String>, flag: &str) -> (r: Option<String>)
    ensures
        r is Some <==> flag_value(args.deep_view(), flag@) is Some,
        r matches Some(v) ==> flag_value(args.deep_view(), flag@) == Some(v@),
{
    match find_flag(args, flag) {
        Some(i) => if i + 1 < args.len() {
            Some(args[i + 1].clone())
        } else {
            None
        },
        None => None,
    }
}

/// The number no greater than `max` that follows `flag`.
fn parse_arg_within(args: &Vec<String>, flag: &str, max: u64) -> (r: Option<u64>)
    ensures
        r is Some <==> flag_number(args.deep_view(), flag@, max as nat) is Some,
        r matches Some(v) ==> flag_number(args.deep_view(), flag@, max as nat) == Some(v as nat),
{
    match parse_arg_string(args, flag) {
        Some(v) => parse_unsigned_text(v.as_str(), max),
        None => None,
    }
}

/// The `u64` that follows `flag`.
pub fn parse_arg_u64(args: &Vec<String>, flag: &str) -> (r: Option<u64>)
    ensures
        r is Some <==> flag_number(args.deep_view(), flag@, u64::MAX as nat) is Some,
        r matches Some(v) ==> flag_number(args.deep_view(), flag@, u64::MAX as nat) == Some(
            v as nat,
        ),
{
    parse_arg_within(args, flag, u64::MAX)
}

/// The `u16` that follows `flag`.
pub fn parse_arg_u16(args: &Vec<String>, flag: &str) -> (r: Option<u16>)
    ensures
        r is Some <==> flag_number(args.deep_view(), flag@, u16::MAX as nat) is Some,
        r matches Some(v) ==> flag_number(args.deep_view(), flag@, u16::MAX as nat) == Some(
            v as nat,
        ),
{
    match parse_arg_within(args, flag, u16::MAX as u64) {
        Some(v) => Some(v as u16),
        None => None,
    }
}

/// The `u8` that follows `flag`.
pub fn parse_arg_u8(args: &Vec<String>, flag: &str) -> (r: Option<u8>)
    ensures
        r is Some <==> flag_number(args.deep_view(), flag@, u8::MAX as nat) is Some,
        r matches Some(v) ==> flag_number(args.deep_view(), flag@, u8::MAX as nat) == Some(
            v as nat,
        ),
{
    match parse_arg_within(args, flag, u8::MAX as u64) {
        Some(v) => Some(v as u8),
        None => None,
    }
}

/// The values of every occurrence of `flag` (a flag may be repeated); an
/// occurrence followed by another flag (`--...`) or by nothing is skipped.
pub fn parse_multiple_args(args: &Vec<String>, flag: &str) -> (r: Vec<String>)
    ensures
        r.deep_view() == flag_values(args.deep_view(), flag@),
{
    let ghost s = args.deep_view();
    let mut results: Vec<String> = Vec::new();
    let mut i: usize = 0;
    assert(s.skip(0) =~= s);
    assert(results.deep_view() + flag_values(s, flag@) =~= flag_values(s, flag@));
    while i < args.len()
        invariant
            i <= args.len(),
            s == args.deep_view(),
            flag_values(s, flag@) == results.deep_view() + flag_values(s.skip(i as int), flag@),
        decreases args.len() - i,
    {
        let ghost t = s.skip(i as int);
        assert(t.drop_first() =~= s.skip(i + 1));
        if i + 1 < args.len() && same_text(args[i].as_str(), flag) && !starts_with_text(
            args[i + 1].as_str(),
            "--",
        ) {
            assert(t[0] == s[i as int] && t[1] == s[i + 1]);
            let v = args[i + 1].clone();
            let ghost before = results.deep_view();
            results.push(v);
            assert(results.deep_view() =~= before.push(v@));
            assert(flag_values(t, flag@) =~= seq![v@].add(flag_values(s.skip(i + 1), flag@)));
        } else {
            if i + 1 < args.len() {
                assert(t[0] == s[i as int] && t[1] == s[i + 1]);
            }
        }
        i = i + 1;
    }
    assert(s.skip(i as int) =~= Seq::<Seq<char>>::empty());
    assert(results.deep_view() + Seq::<Seq<char>>::empty() =~= results.deep_view());
    results
}

} // verus!
