//! The company administrator's command line: splitting a line into tokens
//! (double quotes keep spaces inside a token), reading the command, and the
//! requests that the commands send to the central servers.

use crate::bytes::{be_u64, frame_payload, string_from_utf8, AccountId, CardId, TimeStamp, FAILURE, SUCCESS};
use crate::messages::data_response::DataResponseMessage;
use crate::messages::register_account::REG_ACCOUNT;
use crate::text::{contains_text, occurs_in};
use crate::messages::query_data::{query_data_wire, QueryDataMessage};
use crate::messages::register_account::{register_account_wire, RegisterAccountMessage};
use crate::messages::remove_regions::{remove_regions_wire, RemoveRegionsMessage};
use crate::text::{ascii_text, ascii_uppercase, float_text, is_float_text};
use crate::text::{after_char, before_char, char_index, parse_unsigned, parse_unsigned_text, same_text, split_first};
use vstd::prelude::*;
use vstd::string::StrSliceExecFns;

verus! {

// ----------------------------------------------------------------------------
// Tokens
// ----------------------------------------------------------------------------

/// The tokenizer between two characters: the tokens so far, the token
/// being read, and whether a double quote is open.
#[verifier::ext_equal]
pub struct TokenizerState {
    pub tokens: Seq<Seq<char>>,
    pub current: Seq<char>,
    pub in_quotes: bool,
}

/// The tokenizer reads `c`: a double quote opens or closes a quoted part
/// and is dropped; a space or tab ends the token, unless inside quotes;
/// any other character extends the token.
pub open spec fn tokenizer_step(st: TokenizerState, c: char) -> TokenizerState {
    if c == '"' {
        TokenizerState { in_quotes: !st.in_quotes, ..st }
    } else if c == ' ' || c == '\t' {
        if st.in_quotes {
            TokenizerState { current: st.current.push(c), ..st }
        } else if st.current.len() > 0 {
            TokenizerState { tokens: st.tokens.push(st.current), current: Seq::empty(), ..st }
        } else {
            st
        }
    } else {
        TokenizerState { current: st.current.push(c), ..st }
    }
}

/// The tokenizer after reading `s`.
pub open spec fn tokenizer_run(s: Seq<char>) -> TokenizerState
    decreases s.len(),
{
    if s.len() == 0 {
        TokenizerState { tokens: Seq::empty(), current: Seq::empty(), in_quotes: false }
    } else {
        tokenizer_step(tokenizer_run(s.drop_last()), s.last())
    }
}

/// The tokens of a command line; the last token ends with the line.
pub open spec fn tokenize(s: Seq<char>) -> Seq<Seq<char>> {
    let st = tokenizer_run(s);
    if st.current.len() > 0 {
        st.tokens.push(st.current)
    } else {
        st.tokens
    }
}

/// Splits a command line into tokens at spaces and tabs; text between
/// double quotes stays in one token, without the quotes.
pub fn parse_command_with_quotes(input: &str) -> (tokens: Vec<String>)
    ensures
        tokens.deep_view() == tokenize(input@),
{
    let n = input.unicode_len();
    let mut tokens: Vec<String> = Vec::new();
    let mut current = String::new();
    let mut in_quotes = false;
    let mut i: usize = 0;
    assert(input@.take(0) =~= Seq::<char>::empty());
    assert(tokens.deep_view() =~= Seq::<Seq<char>>::empty());
    assert(current@ =~= Seq::<char>::empty());
    while i < n
        invariant
            i <= n,
            n == input@.len(),
            tokenizer_run(input@.take(i as int)) == (TokenizerState {
                tokens: tokens.deep_view(),
                current: current@,
                in_quotes,
            }),
        decreases n - i,
    {
        let ch = input.get_char(i);
        assert(input@.take(i + 1).drop_last() =~= input@.take(i as int));
        let ghost before_tokens = tokens.deep_view();
        let ghost before_current = current@;
        if ch == '"' {
            in_quotes = !in_quotes;
        } else if ch == ' ' || ch == '\t' {
            if in_quotes {
                crate::fmt::string_push(&mut current, ch);
            } else if current.as_str().unicode_len() > 0 {
                let done = current;
                tokens.push(done);
                assert(tokens.deep_view() =~= before_tokens.push(before_current));
                current = String::new();
            }
        } else {
            crate::fmt::string_push(&mut current, ch);
        }
        i = i + 1;
        assert(current@ =~= tokenizer_run(input@.take(i as int)).current);
    }
    assert(input@.take(n as int) =~= input@);
    if current.as_str().unicode_len() > 0 {
        let ghost before = tokens.deep_view();
        tokens.push(current);
        assert(tokens.deep_view() =~= before.push(tokenizer_run(input@).current));
    }
    tokens
}

// ----------------------------------------------------------------------------
// Text operations of std and chrono
// ----------------------------------------------------------------------------

/// A character with the Unicode property `White_Space`: tab, line feed,
/// vertical tab, form feed, carriage return, space, next line, no-break
/// space, Ogham space mark, the spaces U+2000 to U+200A, line and paragraph
/// separators, narrow no-break space, medium mathematical space and
/// ideographic space.
pub open spec fn is_white_space(c: char) -> bool {
    let u = c as u32;
    ||| 0x09 <= u <= 0x0D
    ||| u == 0x20
    ||| u == 0x85
    ||| u == 0xA0
    ||| u == 0x1680
    ||| 0x2000 <= u <= 0x200A
    ||| u == 0x2028
    ||| u == 0x2029
    ||| u == 0x202F
    ||| u == 0x205F
    ||| u == 0x3000
}

/// `s` without its leading white space.
pub open spec fn trim_start_ws(s: Seq<char>) -> Seq<char>
    decreases s.len(),
{
    if s.len() > 0 && is_white_space(s[0]) {
        trim_start_ws(s.drop_first())
    } else {
        s
    }
}

/// `s` without its trailing white space.
pub open spec fn trim_end_ws(s: Seq<char>) -> Seq<char>
    decreases s.len(),
{
    if s.len() > 0 && is_white_space(s.last()) {
        trim_end_ws(s.drop_last())
    } else {
        s
    }
}

/// What `str::trim` (std) makes of `s`: `s` without leading and trailing
/// white space, white space being the Unicode property `White_Space`.
pub open spec fn trimmed(s: Seq<char>) -> Seq<char> {
    trim_end_ws(trim_start_ws(s))
}

proof fn lemma_trim_start_at(s: Seq<char>, i: int)
    requires
        0 <= i <= s.len(),
        forall|k: int| 0 <= k < i ==> is_white_space(#[trigger] s[k]),
        i < s.len() ==> !is_white_space(s[i]),
    ensures
        trim_start_ws(s) == s.skip(i),
    decreases i,
{
    if i == 0 {
        assert(s.skip(0) =~= s);
    } else {
        assert forall|k: int| 0 <= k < i - 1 implies is_white_space(#[trigger] s.drop_first()[k]) by {
            assert(s.drop_first()[k] == s[k + 1]);
        }
        lemma_trim_start_at(s.drop_first(), i - 1);
        assert(s.drop_first().skip(i - 1) =~= s.skip(i));
    }
}

proof fn lemma_trim_end_at(t: Seq<char>, j: int)
    requires
        0 <= j <= t.len(),
        forall|k: int| j <= k < t.len() ==> is_white_space(#[trigger] t[k]),
        j > 0 ==> !is_white_space(t[j - 1]),
    ensures
        trim_end_ws(t) == t.take(j),
    decreases t.len() - j,
{
    if j == t.len() {
        assert(t.take(j) =~= t);
    } else {
        assert forall|k: int| j <= k < t.drop_last().len() implies is_white_space(
            #[trigger] t.drop_last()[k],
        ) by {
            assert(t.drop_last()[k] == t[k]);
        }
        lemma_trim_end_at(t.drop_last(), j);
        assert(t.drop_last().take(j) =~= t.take(j));
    }
}

/// Whether `c` has the Unicode property `White_Space`.
fn white_space_char(c: char) -> (r: bool)
    ensures
        r == is_white_space(c),
{
    let u = c as u32;
    (0x09 <= u && u <= 0x0D) || u == 0x20 || u == 0x85 || u == 0xA0 || u == 0x1680 || (0x2000 <= u
        && u <= 0x200A) || u == 0x2028 || u == 0x2029 || u == 0x202F || u == 0x205F || u == 0x3000
}

/// `s` without leading and trailing white space, as `str::trim` (std)
/// defines it (the Unicode property `White_Space`).
pub(crate) fn trim_text(s: &str) -> (r: String)
    ensures
        r@ == trimmed(s@),
{
    let n = s.unicode_len();
    let mut i: usize = 0;
    while i < n && white_space_char(s.get_char(i))
        invariant
            i <= n,
            n == s@.len(),
            forall|k: int| 0 <= k < i ==> is_white_space(#[trigger] s@[k]),
        decreases n - i,
    {
        i = i + 1;
    }
    proof {
        lemma_trim_start_at(s@, i as int);
    }
    let mut j: usize = n;
    while j > i && white_space_char(s.get_char(j - 1))
        invariant
            i <= j <= n,
            n == s@.len(),
            forall|k: int| j <= k < n ==> is_white_space(#[trigger] s@[k]),
        decreases j - i,
    {
        j = j - 1;
    }
    let ghost t = s@.skip(i as int);
    proof {
        assert forall|k: int| j - i <= k < t.len() implies is_white_space(#[trigger] t[k]) by {
            assert(t[k] == s@[k + i]);
        }
        if j > i {
            assert(t[j - i - 1] == s@[j - 1]);
        }
        lemma_trim_end_at(t, j - i);
    }
    let r = s.substring_char(i, j).to_owned();
    assert(r@ =~= t.take(j - i));
    r
}

/// What `str::to_uppercase` (std) makes of `s`: its Unicode upper case.
pub uninterp spec fn uppercase(s: Seq<char>) -> Seq<char>;

/// `str::to_uppercase` (std); the result is named `uppercase`. On ASCII
/// text the Unicode upper case is the ASCII one (`a`..`z` become `A`..`Z`,
/// the rest stays), as std documents for ASCII characters.
#[verifier::external_body]
fn to_upper(s: &str) -> (r: String)
    ensures
        r@ == uppercase(s@),
        ascii_text(s@) ==> r@ == ascii_uppercase(s@),
{
    s.to_uppercase()
}

/// The Unix time, read as UTC, of the time of day `hour:minute:second` on
/// the date that chrono reads in `s` with the format `fmt`; `None` when
/// chrono refuses the text or the time of day.
pub uninterp spec fn date_time_timestamp(
    s: Seq<char>,
    fmt: Seq<char>,
    hour: u32,
    minute: u32,
    second: u32,
) -> Option<i64>;

/// `NaiveDate::parse_from_str(s, fmt)`, then `and_hms_opt(hour, minute,
/// second)`, then `and_utc().timestamp()` (chrono). The result is named
/// `date_time_timestamp`.
#[verifier::external_body]
fn utc_date_time_timestamp(s: &str, fmt: &str, hour: u32, minute: u32, second: u32) -> (r: Option<
    TimeStamp,
>)
    ensures
        r == date_time_timestamp(s@, fmt@, hour, minute, second),
{
    match chrono::NaiveDate::parse_from_str(s, fmt) {
        Ok(date) => match date.and_hms_opt(hour, minute, second) {
            Some(date_time) => Some(date_time.and_utc().timestamp()),
            None => None,
        },
        Err(_) => None,
    }
}

/// The Unix time of midnight UTC of the date written `DD-MM-YYYY` in `s`,
/// as chrono reads it, or `None` when chrono refuses the text.
pub open spec fn dmy_timestamp(s: Seq<char>) -> Option<i64> {
    date_time_timestamp(s, "%d-%m-%Y"@, 0, 0, 0)
}

/// The Unix time of midnight UTC of the date written `DD-MM-YYYY` in `s`.
fn date_to_timestamp(s: &str) -> (r: Option<TimeStamp>)
    ensures
        r == dmy_timestamp(s@),
{
    utc_date_time_timestamp(s, "%d-%m-%Y", 0, 0, 0)
}

// ----------------------------------------------------------------------------
// Commands
// ----------------------------------------------------------------------------

/// A command as read from the command line. The limits of cards, accounts
/// and regions are kept as the text the user wrote, once it is known to read
/// as a number (`float_text`); they are numbers with a fraction, which the
/// caller reads.
#[derive(Debug)]
pub enum ParsedCommand {
    LogIn(AccountId),
    LogOut,
    /// `REG <username> <display_name>`.
    RegAcc(String, String),
    /// `CARD <limit>`.
    RegCard(String),
    /// `UPD -n <name>`.
    UpdName(String),
    /// `UPD -a <limit>`.
    UpdAccountLimit(String),
    /// `UPD -c <card_id> <limit>`.
    UpdCard(CardId, String),
    /// `UPD -r <region:limit>...`: the regions and their limits.
    UpdRegions(Vec<String>, Vec<String>),
    /// `UPD -d <region>...`.
    RemoveRegions(Vec<String>),
    /// `QUERY ...`: query type, card (0: every card), start and end dates.
    Query(u8, CardId, TimeStamp, TimeStamp),
    Help,
    /// Nothing to do: an empty line, an unknown command or wrong arguments.
    Null,
    Exit,
}

/// Abstract value of a command.
#[verifier::ext_equal]
pub enum CommandView {
    LogIn(u64),
    LogOut,
    RegAcc(Seq<char>, Seq<char>),
    RegCard(Seq<char>),
    UpdName(Seq<char>),
    UpdAccountLimit(Seq<char>),
    UpdCard(u64, Seq<char>),
    UpdRegions(Seq<Seq<char>>, Seq<Seq<char>>),
    RemoveRegions(Seq<Seq<char>>),
    Query(u8, u64, i64, i64),
    Help,
    Null,
    Exit,
}

impl View for ParsedCommand {
    type V = CommandView;

    open spec fn view(&self) -> CommandView {
        match self {
            ParsedCommand::LogIn(id) => CommandView::LogIn(*id),
            ParsedCommand::LogOut => CommandView::LogOut,
            ParsedCommand::RegAcc(u, d) => CommandView::RegAcc(u@, d@),
            ParsedCommand::RegCard(l) => CommandView::RegCard(l@),
            ParsedCommand::UpdName(n) => CommandView::UpdName(n@),
            ParsedCommand::UpdAccountLimit(l) => CommandView::UpdAccountLimit(l@),
            ParsedCommand::UpdCard(c, l) => CommandView::UpdCard(*c, l@),
            ParsedCommand::UpdRegions(r, l) => CommandView::UpdRegions(r.deep_view(), l.deep_view()),
            ParsedCommand::RemoveRegions(r) => CommandView::RemoveRegions(r.deep_view()),
            ParsedCommand::Query(t, c, s, e) => CommandView::Query(*t, *c, *s, *e),
            ParsedCommand::Help => CommandView::Help,
            ParsedCommand::Null => CommandView::Null,
            ParsedCommand::Exit => CommandView::Exit,
        }
    }
}

/// A number as `u64::from_str` reads it.
pub open spec fn u64_text(s: Seq<char>) -> Option<u64> {
    match parse_unsigned(s, u64::MAX as nat) {
        Some(v) => Some(v as u64),
        None => None,
    }
}

/// A `region:limit` token: exactly one colon, and a limit that reads as a
/// number.
pub open spec fn region_limit(tok: Seq<char>) -> Option<(Seq<char>, Seq<char>)> {
    match after_char(tok, ':') {
        Some(rest) => if char_index(rest, ':') < rest.len() || !float_text(rest) {
            None
        } else {
            Some((before_char(tok, ':'), rest))
        },
        None => None,
    }
}

/// The regions and limits of a list of `region:limit` tokens, if each is one.
pub open spec fn region_limits(ts: Seq<Seq<char>>) -> Option<(Seq<Seq<char>>, Seq<Seq<char>>)>
    decreases ts.len(),
{
    if ts.len() == 0 {
        Some((Seq::empty(), Seq::empty()))
    } else {
        match (region_limits(ts.drop_last()), region_limit(ts.last())) {
            (Some((rs, ls)), Some((r, l))) => Some((rs.push(r), ls.push(l))),
            _ => None,
        }
    }
}

/// `UPD <flag> ...`.
pub open spec fn update_command(t: Seq<Seq<char>>) -> CommandView {
    if t.len() < 2 {
        CommandView::Null
    } else if t[1] == "-n"@ {
        if t.len() < 3 {
            CommandView::Null
        } else {
            CommandView::UpdName(t[2])
        }
    } else if t[1] == "-a"@ {
        if t.len() < 3 {
            CommandView::Null
        } else {
            if float_text(t[2]) {
                CommandView::UpdAccountLimit(t[2])
            } else {
                CommandView::Null
            }
        }
    } else if t[1] == "-c"@ {
        if t.len() != 4 {
            CommandView::Null
        } else {
            match u64_text(t[2]) {
                Some(card) => if float_text(t[3]) {
                    CommandView::UpdCard(card, t[3])
                } else {
                    CommandView::Null
                },
                None => CommandView::Null,
            }
        }
    } else if t[1] == "-r"@ {
        if t.len() < 3 {
            CommandView::Null
        } else {
            match region_limits(t.skip(2)) {
                Some((rs, ls)) => CommandView::UpdRegions(rs, ls),
                None => CommandView::Null,
            }
        }
    } else if t[1] == "-d"@ {
        if t.len() < 3 {
            CommandView::Null
        } else {
            CommandView::RemoveRegions(t.skip(2))
        }
    } else {
        CommandView::Null
    }
}

/// A query between the dates of `dates` (none, a start, or a start and an
/// end; missing bounds are open).
pub open spec fn dated_query(card: u64, dates: Seq<Seq<char>>) -> CommandView {
    if dates.len() == 0 {
        CommandView::Query(0, card, i64::MIN, i64::MAX)
    } else if dates.len() == 1 {
        match dmy_timestamp(dates[0]) {
            Some(start) => CommandView::Query(0, card, start, i64::MAX),
            None => CommandView::Null,
        }
    } else if dates.len() == 2 {
        match (dmy_timestamp(dates[0]), dmy_timestamp(dates[1])) {
            (Some(start), Some(end)) => CommandView::Query(0, card, start, end),
            _ => CommandView::Null,
        }
    } else {
        CommandView::Null
    }
}

/// `QUERY <flag> ...`: `-a [dates]` for the account, `-c <card> [dates]`
/// for a card, `-d` for the account's details.
pub open spec fn query_command(t: Seq<Seq<char>>) -> CommandView {
    if t.len() < 2 {
        CommandView::Null
    } else if t[1] == "-a"@ {
        dated_query(0, t.skip(2))
    } else if t[1] == "-c"@ {
        if t.len() < 3 {
            CommandView::Null
        } else {
            match u64_text(t[2]) {
                Some(card) => dated_query(card, t.skip(3)),
                None => CommandView::Null,
            }
        }
    } else if t[1] == "-d"@ {
        CommandView::Query(1, 0, 0, 0)
    } else {
        CommandView::Null
    }
}

/// The command of the tokens `t` whose first token, in upper case, is `w`.
pub open spec fn command_for_word(w: Seq<char>, t: Seq<Seq<char>>) -> CommandView {
    if t.len() == 0 {
        CommandView::Null
    } else {
        if w == "LOGIN"@ {
            if t.len() < 2 {
                CommandView::Null
            } else {
                match u64_text(t[1]) {
                    Some(id) => CommandView::LogIn(id),
                    None => CommandView::Null,
                }
            }
        } else if w == "LOGOUT"@ {
            CommandView::LogOut
        } else if w == "REG"@ {
            if t.len() != 3 {
                CommandView::Null
            } else {
                CommandView::RegAcc(t[1], t[2])
            }
        } else if w == "CARD"@ {
            if t.len() != 2 {
                CommandView::Null
            } else {
                if float_text(t[1]) {
                    CommandView::RegCard(t[1])
                } else {
                    CommandView::Null
                }
            }
        } else if w == "UPD"@ {
            update_command(t)
        } else if w == "QUERY"@ {
            query_command(t)
        } else if w == "HELP"@ {
            CommandView::Help
        } else if w == "EXIT"@ {
            CommandView::Exit
        } else {
            CommandView::Null
        }
    }
}

/// The command of a list of tokens; the command word is read in any case.
pub open spec fn command_of_tokens(t: Seq<Seq<char>>) -> CommandView {
    if t.len() == 0 {
        CommandView::Null
    } else {
        command_for_word(uppercase(t[0]), t)
    }
}

/// The command of a list of tokens whose command word is ASCII: the word is
/// read in ASCII upper case.
pub open spec fn command_of_ascii_tokens(t: Seq<Seq<char>>) -> CommandView {
    if t.len() == 0 {
        CommandView::Null
    } else {
        command_for_word(ascii_uppercase(t[0]), t)
    }
}

/// Command words are read in any case: two token lists that differ only
/// in the ASCII case of their command word give the same command.
pub proof fn lemma_command_word_any_case(t1: Seq<Seq<char>>, t2: Seq<Seq<char>>)
    requires
        t1.len() == t2.len(),
        t1.len() > 0,
        ascii_uppercase(t1[0]) == ascii_uppercase(t2[0]),
        forall|i: int| 1 <= i < t1.len() ==> t1[i] == t2[i],
    ensures
        command_of_ascii_tokens(t1) == command_of_ascii_tokens(t2),
{
    if t1.len() >= 2 {
        assert(t1[1] == t2[1]);
        assert(t1.skip(2) =~= t2.skip(2));
    }
    if t1.len() >= 3 {
        assert(t1[2] == t2[2]);
        assert(t1.skip(3) =~= t2.skip(3));
    }
    if t1.len() >= 4 {
        assert(t1[3] == t2[3]);
    }
}

/// The command written on a line, surrounding whitespace aside.
pub open spec fn command_of_line(line: Seq<char>) -> CommandView {
    command_of_tokens(tokenize(trimmed(line)))
}

fn u64_of_text(s: &String) -> (r: Option<u64>)
    ensures
        r == u64_text(s@),
{
    match parse_unsigned_text(s.as_str(), u64::MAX) {
        Some(v) => Some(v),
        None => None,
    }
}

/// Copies of `t[from..]`.
fn tail_tokens(t: &Vec<String>, from: usize) -> (r: Vec<String>)
    requires
        from <= t.len(),
    ensures
        r.deep_view() == t.deep_view().skip(from as int),
{
    let mut r: Vec<String> = Vec::new();
    let mut i = from;
    while i < t.len()
        invariant
            from <= i <= t.len(),
            r.deep_view() == t.deep_view().subrange(from as int, i as int),
        decreases t.len() - i,
    {
        let x = t[i].clone();
        let ghost before = r.deep_view();
        r.push(x);
        assert(r.deep_view() =~= before.push(x@));
        i = i + 1;
        assert(r.deep_view() =~= t.deep_view().subrange(from as int, i as int));
    }
    assert(t.deep_view().subrange(from as int, i as int) =~= t.deep_view().skip(from as int));
    r
}

fn region_limit_of(tok: &String) -> (r: Option<(String, String)>)
    ensures
        r is Some <==> region_limit(tok@) is Some,
        r matches Some(p) ==> region_limit(tok@) == Some((p.0@, p.1@)),
{
    let (region, rest) = split_first(tok.as_str(), ':');
    match rest {
        Some(rest) => {
            let (_, more) = split_first(rest.as_str(), ':');
            match more {
                Some(_) => None,
                None => if is_float_text(rest.as_str()) {
                    Some((region, rest))
                } else {
                    None
                },
            }
        },
        None => None,
    }
}

fn parse_update(t: &Vec<String>) -> (r: ParsedCommand)
    ensures
        r@ == update_command(t.deep_view()),
{
    let ghost tv = t.deep_view();
    if t.len() < 2 {
        return ParsedCommand::Null;
    }
    assert(tv[1] == t[1]@);
    let flag = t[1].as_str();
    if same_text(flag, "-n") {
        if t.len() < 3 {
            return ParsedCommand::Null;
        }
        return ParsedCommand::UpdName(t[2].clone());
    }
    if same_text(flag, "-a") {
        if t.len() < 3 {
            return ParsedCommand::Null;
        }
        assert(tv[2] == t[2]@);
        if !is_float_text(t[2].as_str()) {
            return ParsedCommand::Null;
        }
        return ParsedCommand::UpdAccountLimit(t[2].clone());
    }
    if same_text(flag, "-c") {
        if t.len() != 4 {
            return ParsedCommand::Null;
        }
        return match u64_of_text(&t[2]) {
            Some(card) => {
                assert(tv[3] == t[3]@);
                if is_float_text(t[3].as_str()) {
                    ParsedCommand::UpdCard(card, t[3].clone())
                } else {
                    ParsedCommand::Null
                }
            },
            None => ParsedCommand::Null,
        };
    }
    if same_text(flag, "-r") {
        if t.len() < 3 {
            return ParsedCommand::Null;
        }
        let ghost ts = tv.skip(2);
        let mut regions: Vec<String> = Vec::new();
        let mut limits: Vec<String> = Vec::new();
        let mut i: usize = 2;
        assert(ts.take(0) =~= Seq::<Seq<char>>::empty());
        assert(regions.deep_view() =~= Seq::<Seq<char>>::empty());
        assert(limits.deep_view() =~= Seq::<Seq<char>>::empty());
        while i < t.len()
            invariant
                2 <= i <= t.len(),
                tv == t.deep_view(),
                ts == tv.skip(2),
                update_command(tv) == match region_limits(ts) {
                    Some((rs, ls)) => CommandView::UpdRegions(rs, ls),
                    None => CommandView::Null,
                },
                region_limits(ts.take(i - 2)) == Some((regions.deep_view(), limits.deep_view())),
            decreases t.len() - i,
        {
            assert(ts.take(i - 1).drop_last() =~= ts.take(i - 2));
            assert(ts.take(i - 1).last() == t[i as int]@);
            match region_limit_of(&t[i]) {
                Some((region, limit)) => {
                    let ghost rb = regions.deep_view();
                    let ghost lb = limits.deep_view();
                    regions.push(region);
                    limits.push(limit);
                    assert(regions.deep_view() =~= rb.push(region@));
                    assert(limits.deep_view() =~= lb.push(limit@));
                },
                None => {
                    proof {
                        lemma_region_limits_stop(ts, (i - 1) as int);
                    }
                    return ParsedCommand::Null;
                },
            }
            i = i + 1;
        }
        assert(ts.take(i - 2) =~= ts);
        return ParsedCommand::UpdRegions(regions, limits);
    }
    if same_text(flag, "-d") {
        if t.len() < 3 {
            return ParsedCommand::Null;
        }
        return ParsedCommand::RemoveRegions(tail_tokens(t, 2));
    }
    ParsedCommand::Null
}

proof fn lemma_region_limits_stop(ts: Seq<Seq<char>>, k: int)
    requires
        0 < k <= ts.len(),
        region_limit(ts.take(k).last()) is None,
    ensures
        region_limits(ts) is None,
    decreases ts.len(),
{
    if k == ts.len() {
        assert(ts.take(k) =~= ts);
    } else {
        assert(ts.drop_last().take(k) =~= ts.take(k));
        lemma_region_limits_stop(ts.drop_last(), k);
    }
}

fn dated_query_of(card: CardId, t: &Vec<String>, from: usize) -> (r: ParsedCommand)
    requires
        from <= t.len(),
    ensures
        r@ == dated_query(card, t.deep_view().skip(from as int)),
{
    let ghost d = t.deep_view().skip(from as int);
    let count = t.len() - from;
    if count == 0 {
        return ParsedCommand::Query(0, card, i64::MIN, i64::MAX);
    }
    assert(d[0] == t[from as int]@);
    if count == 1 {
        return match date_to_timestamp(t[from].as_str()) {
            Some(start) => ParsedCommand::Query(0, card, start, i64::MAX),
            None => ParsedCommand::Null,
        };
    }
    if count == 2 {
        assert(d[1] == t[from + 1]@);
        let start = date_to_timestamp(t[from].as_str());
        let end = date_to_timestamp(t[from + 1].as_str());
        return match (start, end) {
            (Some(s), Some(e)) => ParsedCommand::Query(0, card, s, e),
            _ => ParsedCommand::Null,
        };
    }
    ParsedCommand::Null
}

fn parse_query(t: &Vec<String>) -> (r: ParsedCommand)
    ensures
        r@ == query_command(t.deep_view()),
{
    let ghost tv = t.deep_view();
    if t.len() < 2 {
        return ParsedCommand::Null;
    }
    assert(tv[1] == t[1]@);
    let flag = t[1].as_str();
    if same_text(flag, "-a") {
        return dated_query_of(0, t, 2);
    }
    if same_text(flag, "-c") {
        if t.len() < 3 {
            return ParsedCommand::Null;
        }
        return match u64_of_text(&t[2]) {
            Some(card) => dated_query_of(card, t, 3),
            None => ParsedCommand::Null,
        };
    }
    if same_text(flag, "-d") {
        return ParsedCommand::Query(1, 0, 0, 0);
    }
    ParsedCommand::Null
}

/// Reads the command on a line.
pub fn parse_command(line: &str) -> (r: ParsedCommand)
    ensures
        r@ == command_of_line(line@),
        ({
            let t = tokenize(trimmed(line@));
            t.len() > 0 && ascii_text(t[0]) ==> r@ == command_of_ascii_tokens(t)
        }),
{
    let trimmed_line = trim_text(line);
    let t = parse_command_with_quotes(trimmed_line.as_str());
    let ghost tv = t.deep_view();
    if t.len() == 0 {
        return ParsedCommand::Null;
    }
    assert(tv[0] == t[0]@);
    let word = to_upper(t[0].as_str());
    let w = word.as_str();
    if same_text(w, "LOGIN") {
        if t.len() < 2 {
            return ParsedCommand::Null;
        }
        assert(tv[1] == t[1]@);
        return match u64_of_text(&t[1]) {
            Some(id) => ParsedCommand::LogIn(id),
            None => ParsedCommand::Null,
        };
    }
    if same_text(w, "LOGOUT") {
        return ParsedCommand::LogOut;
    }
    if same_text(w, "REG") {
        if t.len() != 3 {
            return ParsedCommand::Null;
        }
        assert(tv[1] == t[1]@ && tv[2] == t[2]@);
        return ParsedCommand::RegAcc(t[1].clone(), t[2].clone());
    }
    if same_text(w, "CARD") {
        if t.len() != 2 {
            return ParsedCommand::Null;
        }
        assert(tv[1] == t[1]@);
        if !is_float_text(t[1].as_str()) {
            return ParsedCommand::Null;
        }
        return ParsedCommand::RegCard(t[1].clone());
    }
    if same_text(w, "UPD") {
        return parse_update(&t);
    }
    if same_text(w, "QUERY") {
        return parse_query(&t);
    }
    if same_text(w, "HELP") {
        return ParsedCommand::Help;
    }
    if same_text(w, "EXIT") {
        return ParsedCommand::Exit;
    }
    ParsedCommand::Null
}


// ----------------------------------------------------------------------------
// Requests to the central servers
// ----------------------------------------------------------------------------

/// A request framed for the central server: its length as a big-endian
/// `u64`, then its bytes.
pub open spec fn framed(bytes: Seq<u8>) -> Seq<u8> {
    be_u64(bytes.len() as u64) + bytes
}

/// `LOGIN`: the session now acts for account `new_id`. Nothing is sent,
/// so there is no reply to wait for (`false`).
pub fn change_login(new_id: &AccountId, account_id: &mut Option<AccountId>) -> (wait: bool)
    ensures
        *final(account_id) == Some(*new_id),
        !wait,
{
    match account_id {
        Some(account) => {
            *account = *new_id;
        },
        None => {
            *account_id = Some(*new_id);
        },
    }
    false
}

/// `REG`: the framed registration of an account, to send before waiting
/// for the reply.
pub fn register_new_account(username: String, display_name: String) -> (request: Vec<u8>)
    ensures
        request@ == framed(register_account_wire((username@, display_name@))),
{
    let msg = RegisterAccountMessage::new(username, display_name);
    frame_payload(msg.serialize())
}

/// `UPD -d`: the framed removal of regions from the logged-in account, or
/// `None` (nothing to send) when no account is logged in.
pub fn remove_regions(regions: Vec<String>, account_id: &Option<AccountId>) -> (request: Option<
    Vec<u8>,
>)
    ensures
        account_id is None ==> request is None,
        account_id matches Some(id) ==> (request matches Some(b) && b@ == framed(
            remove_regions_wire((*id, regions.deep_view())),
        )),
{
    match account_id {
        None => None,
        Some(id) => {
            let msg = RemoveRegionsMessage::new(*id, regions);
            Some(frame_payload(msg.serialize()))
        },
    }
}

/// `QUERY`: the framed query for the logged-in account, or `None` (nothing
/// to send) when no account is logged in.
pub fn query_data(
    q_type: u8,
    card_id: CardId,
    lower_bound: TimeStamp,
    upper_bound: TimeStamp,
    account_id: &Option<AccountId>,
) -> (request: Option<Vec<u8>>)
    ensures
        account_id is None ==> request is None,
        account_id matches Some(id) ==> (request matches Some(b) && b@ == framed(
            query_data_wire((q_type, *id, card_id, lower_bound, upper_bound)),
        )),
{
    match account_id {
        None => None,
        Some(id) => {
            let msg = QueryDataMessage::new(q_type, *id, card_id, lower_bound, upper_bound);
            Some(frame_payload(msg.serialize()))
        },
    }
}

/// The administrator's session: the account it acts for, if any.
pub struct CompanyAdministrator {
    company_id: Option<AccountId>,
}

impl CompanyAdministrator {
    /// A session that acts for no account yet.
    pub fn new() -> (a: Self)
        ensures
            a.company_id() is None,
    {
        CompanyAdministrator { company_id: None }
    }

    /// The account the session acts for.
    pub closed spec fn company_id(&self) -> Option<AccountId> {
        self.company_id
    }

    /// The account the session acts for.
    pub fn account(&self) -> (r: Option<AccountId>)
        ensures
            r == self.company_id(),
    {
        self.company_id
    }

    /// Carries out `LOGIN <id>`.
    pub fn log_in(&mut self, id: AccountId)
        ensures
            final(self).company_id() == Some(id),
    {
        change_login(&id, &mut self.company_id);
    }

    /// Carries out `LOGOUT`.
    pub fn log_out(&mut self)
        ensures
            final(self).company_id() is None,
    {
        self.company_id = None;
    }

    /// After a reply of the central server: an account id that came back
    /// (a registration) becomes the session's account; otherwise the session
    /// keeps its account.
    pub fn record_reply(&mut self, id: Option<AccountId>)
        ensures
            id matches Some(i) ==> final(self).company_id() == Some(i),
            id is None ==> final(self).company_id() == old(self).company_id(),
    {
        if let Some(i) = id {
            self.company_id = Some(i);
        }
    }
}


// ----------------------------------------------------------------------------
// Replies of the central server
// ----------------------------------------------------------------------------

/// The state shared by the administrator and the thread that reads the
/// replies: whether a reply arrived, and the account id it brought.
pub type SyncPair = std::sync::Arc<(std::sync::Mutex<(bool, Option<u64>)>, std::sync::Condvar)>;

/// What became of a request sent to the central server.
#[derive(Debug)]
pub enum ResponseResult {
    /// The reply arrived and can be shown.
    Success,
    /// The node is not the leader: resend to this address.
    LeaderRedirect(String),
    /// The reply could not be read.
    Error(String),
}

/// A reply that redirects to the leader: a failure whose payload is UTF-8
/// text with a `:` and without a line break.
pub open spec fn redirect_of(v: (u8, u8, u64, Option<Seq<u8>>)) -> Option<Seq<char>> {
    if v.1 == FAILURE {
        match v.3 {
            Some(p) => if vstd::utf8::valid_utf8(p) && occurs_in(":"@, vstd::utf8::decode_utf8(p))
                && !occurs_in("\n"@, vstd::utf8::decode_utf8(p)) {
                Some(vstd::utf8::decode_utf8(p))
            } else {
                None
            },
            None => None,
        }
    } else {
        None
    }
}

/// The leader's address, when the reply is a redirection to it.
pub fn redirect_target(msg: &DataResponseMessage) -> (r: Option<String>)
    ensures
        r is Some <==> redirect_of(msg@) is Some,
        r matches Some(a) ==> redirect_of(msg@) == Some(a@),
{
    if msg.status() != FAILURE {
        return None;
    }
    match msg.piggyback() {
        Some(bytes) => match string_from_utf8(bytes) {
            Some(addr) => {
                let s = addr.as_str();
                if contains_text(s, ":") && !contains_text(s, "\n") {
                    Some(addr)
                } else {
                    None
                }
            },
            None => None,
        },
        None => None,
    }
}

/// The account a reply makes the session act for: the new account of a
/// successful registration.
pub fn registered_account(msg: &DataResponseMessage) -> (r: Option<AccountId>)
    ensures
        r == (if msg@.0 == REG_ACCOUNT && msg@.1 == SUCCESS {
            Some(msg@.2)
        } else {
            None::<u64>
        }),
{
    if msg.code() == REG_ACCOUNT && msg.status() == SUCCESS {
        Some(msg.id())
    } else {
        None
    }
}

/// A card query reads its dates in order: the first is the start bound and
/// the second the end bound; with one date there is no end bound, with none
/// no bound at all. The account query reads its dates the same way.
pub proof fn lemma_query_dates_in_order(
    q: Seq<char>,
    card_text: Seq<char>,
    d1: Seq<char>,
    d2: Seq<char>,
    card: u64,
    start: i64,
    end: i64,
)
    requires
        u64_text(card_text) == Some(card),
        dmy_timestamp(d1) == Some(start),
        dmy_timestamp(d2) == Some(end),
    ensures
        query_command(seq![q, "-c"@, card_text, d1, d2]) == CommandView::Query(0, card, start, end),
        query_command(seq![q, "-c"@, card_text, d1]) == CommandView::Query(0, card, start, i64::MAX),
        query_command(seq![q, "-c"@, card_text]) == CommandView::Query(0, card, i64::MIN, i64::MAX),
        query_command(seq![q, "-a"@, d1, d2]) == CommandView::Query(0, 0, start, end),
        query_command(seq![q, "-a"@, d1]) == CommandView::Query(0, 0, start, i64::MAX),
{
    reveal_strlit("-a");
    reveal_strlit("-c");
    assert("-c"@ != "-a"@) by {
        assert("-c"@[1] != "-a"@[1]);
    }
    let t5 = seq![q, "-c"@, card_text, d1, d2];
    assert(t5[1] == "-c"@ && t5[2] == card_text);
    assert(t5.skip(3) =~= seq![d1, d2]);
    assert(dated_query(card, seq![d1, d2]) == CommandView::Query(0, card, start, end));
    let t4 = seq![q, "-c"@, card_text, d1];
    assert(t4[1] == "-c"@ && t4[2] == card_text);
    assert(t4.skip(3) =~= seq![d1]);
    let t3 = seq![q, "-c"@, card_text];
    assert(t3.skip(3) =~= Seq::<Seq<char>>::empty());
    let a4 = seq![q, "-a"@, d1, d2];
    assert(a4.skip(2) =~= seq![d1, d2]);
    let a3 = seq![q, "-a"@, d1];
    assert(a3.skip(2) =~= seq![d1]);
}

/// A query refuses (`Null`) a date that does not read, too many dates, and
/// a card number that does not read; `-a` alone asks for every date and
/// `-d` for the account's details.
pub proof fn lemma_query_refusals(
    q: Seq<char>,
    card_text: Seq<char>,
    d1: Seq<char>,
    d2: Seq<char>,
    d3: Seq<char>,
)
    ensures
        dmy_timestamp(d1) is None ==> query_command(seq![q, "-c"@, card_text, d1]) == CommandView::Null
            && query_command(seq![q, "-c"@, card_text, d1, d2]) == CommandView::Null
            && query_command(seq![q, "-c"@, card_text, d2, d1]) == CommandView::Null,
        query_command(seq![q, "-c"@, card_text, d1, d2, d3]) == CommandView::Null,
        u64_text(card_text) is None ==> query_command(seq![q, "-c"@, card_text]) == CommandView::Null,
        query_command(seq![q, "-a"@]) == CommandView::Query(0, 0, i64::MIN, i64::MAX),
        query_command(seq![q, "-a"@, d1, d2, d3]) == CommandView::Null,
        query_command(seq![q, "-d"@]) == CommandView::Query(1, 0, 0, 0),
{
    reveal_strlit("-a");
    reveal_strlit("-c");
    reveal_strlit("-d");
    assert("-c"@ != "-a"@) by {
        assert("-c"@[1] != "-a"@[1]);
    }
    assert("-d"@ != "-a"@ && "-d"@ != "-c"@) by {
        assert("-d"@[1] != "-a"@[1] && "-d"@[1] != "-c"@[1]);
    }
    let c4 = seq![q, "-c"@, card_text, d1];
    assert(c4[1] == "-c"@ && c4[2] == card_text);
    assert(c4.skip(3) =~= seq![d1]);
    let c5 = seq![q, "-c"@, card_text, d1, d2];
    assert(c5[1] == "-c"@ && c5[2] == card_text);
    assert(c5.skip(3) =~= seq![d1, d2]);
    let c5b = seq![q, "-c"@, card_text, d2, d1];
    assert(c5b[1] == "-c"@ && c5b[2] == card_text);
    assert(c5b.skip(3) =~= seq![d2, d1]);
    let c6 = seq![q, "-c"@, card_text, d1, d2, d3];
    assert(c6[1] == "-c"@ && c6[2] == card_text);
    assert(c6.skip(3) =~= seq![d1, d2, d3]);
    let c3 = seq![q, "-c"@, card_text];
    assert(c3[1] == "-c"@ && c3[2] == card_text);
    let a2 = seq![q, "-a"@];
    assert(a2[1] == "-a"@);
    assert(a2.skip(2) =~= Seq::<Seq<char>>::empty());
    let a5 = seq![q, "-a"@, d1, d2, d3];
    assert(a5[1] == "-a"@);
    assert(a5.skip(2) =~= seq![d1, d2, d3]);
    let d = seq![q, "-d"@];
    assert(d[1] == "-d"@);
}

} // verus!
