//! The persisted form of a game log.
//!
//! A log is written as one structured text document: the ruleset name, the
//! number of entries, then each action in order.  Numbers are decimal runs
//! closed by a semicolon; strings carry their length first, so any characters
//! can follow.  Reading a written document back yields an equal log.

use vstd::prelude::*;
use crate::board::{Location, is_digit, num_val};
use crate::engine::{Action, Log};

verus! {

/// The mathematical shadow of a location.
pub ghost enum LocationV {
    Coord(u32, u32),
    Named(Seq<char>),
}

impl View for Location {
    type V = LocationV;

    open spec fn view(&self) -> LocationV {
        match self {
            Location::Coord(x, y) => LocationV::Coord(*x, *y),
            Location::Named(s) => LocationV::Named(s@),
        }
    }
}

/// The mathematical shadow of a log entry.
pub ghost enum ActionV {
    TileLay { location: LocationV, tile: Seq<char>, orientation: Seq<char> },
    Token { location: LocationV, company: Seq<char>, city: Option<u32> },
    RemoveCompany { company: Seq<char> },
}

impl View for Action {
    type V = ActionV;

    open spec fn view(&self) -> ActionV {
        match self {
            Action::TileLay { location, tile, orientation } => ActionV::TileLay {
                location: location@,
                tile: tile@,
                orientation: orientation@,
            },
            Action::Token { location, company, city } => ActionV::Token {
                location: location@,
                company: company@,
                city: *city,
            },
            Action::RemoveCompany { company } => ActionV::RemoveCompany { company: company@ },
        }
    }
}

/// The mathematical shadow of a log.
pub ghost struct LogV {
    pub game_name: Seq<char>,
    pub log: Seq<ActionV>,
}

impl View for Log {
    type V = LogV;

    open spec fn view(&self) -> LogV {
        LogV { game_name: self.game_name@, log: self.log@.map_values(|a: Action| a@) }
    }
}

/// The digit character of one decimal digit.
pub open spec fn digit_char(d: int) -> char {
    (48 + d) as char
}

/// The decimal digits of a number, highest first.
pub open spec fn digits(n: int) -> Seq<char>
    decreases n,
{
    if n < 10 {
        seq![digit_char(n)]
    } else {
        digits(n / 10).push(digit_char(n % 10))
    }
}

/// A number: its decimal digits closed by a semicolon.
pub open spec fn enc_num(n: int) -> Seq<char> {
    digits(n).push(';')
}

/// A string: its length, then its characters.
pub open spec fn enc_str(s: Seq<char>) -> Seq<char> {
    enc_num(s.len() as int) + s
}

/// A location: raw coordinates after `C`, a label after `L`.
pub open spec fn enc_loc(l: LocationV) -> Seq<char> {
    match l {
        LocationV::Coord(x, y) => seq!['C'] + enc_num(x as int) + enc_num(y as int),
        LocationV::Named(s) => seq!['L'] + enc_str(s),
    }
}

/// An action: a tag character, then its fields.
pub open spec fn enc_action(a: ActionV) -> Seq<char> {
    match a {
        ActionV::TileLay { location, tile, orientation } => seq!['T'] + enc_loc(location)
            + enc_str(tile) + enc_str(orientation),
        ActionV::Token { location, company, city } => seq!['K'] + enc_loc(location) + enc_str(
            company,
        ) + match city {
            Some(id) => seq!['S'] + enc_num(id as int),
            None => seq!['N'],
        },
        ActionV::RemoveCompany { company } => seq!['R'] + enc_str(company),
    }
}

/// The actions of a log, in order.
pub open spec fn enc_actions(l: Seq<ActionV>) -> Seq<char>
    decreases l.len(),
{
    if l.len() == 0 {
        Seq::empty()
    } else {
        enc_action(l[0]) + enc_actions(l.skip(1))
    }
}

/// The whole document: the ruleset name, the entry count, the actions.
pub open spec fn enc_log(l: LogV) -> Seq<char> {
    enc_str(l.game_name) + enc_num(l.log.len() as int) + enc_actions(l.log)
}

/// Length of the leading run of digits.
pub open spec fn digit_run(s: Seq<char>) -> int
    decreases s.len(),
{
    if s.len() == 0 || !is_digit(s[0]) {
        0
    } else {
        1 + digit_run(s.skip(1))
    }
}

/// Reads a number: a non-empty digit run closed by a semicolon, fitting the
/// number type.  Gives the value and what follows.
pub open spec fn dec_num(s: Seq<char>) -> Option<(u64, Seq<char>)> {
    let k = digit_run(s);
    if k < 1 || k >= s.len() {
        None
    } else if s[k] != ';' {
        None
    } else if num_val(s.take(k)) > u64::MAX {
        None
    } else {
        Some(((num_val(s.take(k)) as u64), s.skip(k + 1)))
    }
}

/// Reads a string: its length, then that many characters.
pub open spec fn dec_str(s: Seq<char>) -> Option<(Seq<char>, Seq<char>)> {
    match dec_num(s) {
        None => None,
        Some((len, r)) => if len > r.len() {
            None
        } else {
            Some((r.take(len as int), r.skip(len as int)))
        },
    }
}

/// Reads a location.
pub open spec fn dec_loc(s: Seq<char>) -> Option<(LocationV, Seq<char>)> {
    if s.len() == 0 {
        None
    } else if s[0] == 'C' {
        match dec_num(s.skip(1)) {
            None => None,
            Some((x, r)) => if x > u32::MAX as u64 {
                None
            } else {
                match dec_num(r) {
                    None => None,
                    Some((y, r2)) => if y > u32::MAX as u64 {
                        None
                    } else {
                        Some((LocationV::Coord(x as u32, y as u32), r2))
                    },
                }
            },
        }
    } else if s[0] == 'L' {
        match dec_str(s.skip(1)) {
            None => None,
            Some((t, r)) => Some((LocationV::Named(t), r)),
        }
    } else {
        None
    }
}

/// Reads one action.
pub open spec fn dec_action(s: Seq<char>) -> Option<(ActionV, Seq<char>)> {
    if s.len() == 0 {
        None
    } else if s[0] == 'T' {
        match dec_loc(s.skip(1)) {
            None => None,
            Some((loc, r)) => match dec_str(r) {
                None => None,
                Some((tile, r2)) => match dec_str(r2) {
                    None => None,
                    Some((orientation, r3)) => Some(
                        (ActionV::TileLay { location: loc, tile, orientation }, r3),
                    ),
                },
            },
        }
    } else if s[0] == 'K' {
        match dec_loc(s.skip(1)) {
            None => None,
            Some((loc, r)) => match dec_str(r) {
                None => None,
                Some((company, r2)) => if r2.len() == 0 {
                    None
                } else if r2[0] == 'S' {
                    match dec_num(r2.skip(1)) {
                        None => None,
                        Some((id, r3)) => if id > u32::MAX as u64 {
                            None
                        } else {
                            Some(
                                (
                                    ActionV::Token {
                                        location: loc,
                                        company,
                                        city: Some(id as u32),
                                    },
                                    r3,
                                ),
                            )
                        },
                    }
                } else if r2[0] == 'N' {
                    Some((ActionV::Token { location: loc, company, city: None }, r2.skip(1)))
                } else {
                    None
                },
            },
        }
    } else if s[0] == 'R' {
        match dec_str(s.skip(1)) {
            None => None,
            Some((company, r)) => Some((ActionV::RemoveCompany { company }, r)),
        }
    } else {
        None
    }
}

/// Reads a counted run of actions.
pub open spec fn dec_actions(s: Seq<char>, n: int) -> Option<(Seq<ActionV>, Seq<char>)>
    decreases n,
{
    if n <= 0 {
        Some((Seq::empty(), s))
    } else {
        match dec_action(s) {
            None => None,
            Some((a, r)) => match dec_actions(r, n - 1) {
                None => None,
                Some((rest, r2)) => Some((seq![a] + rest, r2)),
            },
        }
    }
}

/// Reads a whole document; nothing may follow the last action.
pub open spec fn dec_log(s: Seq<char>) -> Option<LogV> {
    match dec_str(s) {
        None => None,
        Some((game_name, r)) => match dec_num(r) {
            None => None,
            Some((n, r2)) => match dec_actions(r2, n as int) {
                None => None,
                Some((actions, r3)) => if r3.len() == 0 {
                    Some(LogV { game_name, log: actions })
                } else {
                    None
                },
            },
        },
    }
}

/// Every sequence the document carries fits the length type of the format.
pub open spec fn encodable(l: LogV) -> bool {
    &&& l.game_name.len() <= u64::MAX
    &&& l.log.len() <= u64::MAX
    &&& forall|i: int|
        0 <= i < l.log.len() ==> match #[trigger] l.log[i] {
            ActionV::TileLay { location, tile, orientation } => loc_encodable(location)
                && tile.len() <= u64::MAX && orientation.len() <= u64::MAX,
            ActionV::Token { location, company, city } => loc_encodable(location)
                && company.len() <= u64::MAX,
            ActionV::RemoveCompany { company } => company.len() <= u64::MAX,
        }
}

pub open spec fn loc_encodable(l: LocationV) -> bool {
    match l {
        LocationV::Coord(_, _) => true,
        LocationV::Named(s) => s.len() <= u64::MAX,
    }
}


/// Every position inside a digit run holds a digit, and the run stops at the
/// end or at a non-digit.
proof fn lemma_digit_run_digits(s: Seq<char>)
    ensures
        0 <= digit_run(s) <= s.len(),
        forall|j: int| 0 <= j < digit_run(s) ==> is_digit(s[j]),
    decreases s.len(),
{
    if s.len() == 0 || !is_digit(s[0]) {
    } else {
        lemma_digit_run_digits(s.skip(1));
        assert forall|j: int| 0 <= j < digit_run(s) implies is_digit(s[j]) by {
            if j >= 1 {
                assert(is_digit(s.skip(1)[j - 1]));
            }
        }
    }
}

/// A leading run of digits is a lower bound on the run length.
proof fn lemma_digit_run_at_least(s: Seq<char>, i: int)
    requires
        0 <= i <= s.len(),
        forall|j: int| 0 <= j < i ==> is_digit(s[j]),
    ensures
        digit_run(s) >= i,
    decreases s.len(),
{
    lemma_digit_run_digits(s);
    if i > 0 {
        assert(is_digit(s[0]));
        assert(forall|j: int| 0 <= j < i - 1 ==> is_digit(#[trigger] s.skip(1)[j]));
        lemma_digit_run_at_least(s.skip(1), i - 1);
    }
}

/// Relies on std's String::push: appends the character to the end of the
/// string.
#[verifier::external_body]
fn push_char(s: &mut String, c: char)
    ensures
        final(s)@ == old(s)@.push(c),
{
    s.push(c);
}

fn push_digits(s: &mut String, n: u64)
    ensures
        final(s)@ == old(s)@ + digits(n as int),
    decreases n,
{
    if n < 10 {
        push_char(s, (48 + n as u8) as char);
        proof {
            assert(old(s)@ + digits(n as int) =~= old(s)@.push(digit_char(n as int)));
        }
    } else {
        push_digits(s, n / 10);
        push_char(s, (48 + (n % 10) as u8) as char);
        proof {
            assert(old(s)@ + digits(n as int) =~= (old(s)@ + digits(n as int / 10)).push(
                digit_char(n as int % 10),
            ));
        }
    }
}

fn push_num(s: &mut String, n: u64)
    ensures
        final(s)@ == old(s)@ + enc_num(n as int),
{
    push_digits(s, n);
    push_char(s, ';');
    proof {
        assert(old(s)@ + enc_num(n as int) =~= (old(s)@ + digits(n as int)).push(';'));
    }
}

fn push_str_field(s: &mut String, t: &str)
    ensures
        final(s)@ == old(s)@ + enc_str(t@),
{
    let n = t.unicode_len();
    push_num(s, n as u64);
    s.append(t);
    proof {
        assert(old(s)@ + enc_str(t@) =~= (old(s)@ + enc_num(t@.len() as int)) + t@);
    }
}

fn push_loc(s: &mut String, l: &Location)
    ensures
        final(s)@ == old(s)@ + enc_loc(l@),
{
    match l {
        Location::Coord(x, y) => {
            push_char(s, 'C');
            push_num(s, *x as u64);
            push_num(s, *y as u64);
            proof {
                assert(old(s)@ + enc_loc(l@) =~= ((old(s)@.push('C')) + enc_num(*x as int))
                    + enc_num(*y as int));
            }
        },
        Location::Named(t) => {
            push_char(s, 'L');
            push_str_field(s, t.as_str());
            proof {
                assert(old(s)@ + enc_loc(l@) =~= (old(s)@.push('L')) + enc_str(t@));
            }
        },
    }
}

fn push_action(s: &mut String, a: &Action)
    ensures
        final(s)@ == old(s)@ + enc_action(a@),
{
    match a {
        Action::TileLay { location, tile, orientation } => {
            push_char(s, 'T');
            push_loc(s, location);
            push_str_field(s, tile.as_str());
            push_str_field(s, orientation.as_str());
            proof {
                assert(old(s)@ + enc_action(a@) =~= (((old(s)@.push('T')) + enc_loc(location@))
                    + enc_str(tile@)) + enc_str(orientation@));
            }
        },
        Action::Token { location, company, city } => {
            push_char(s, 'K');
            push_loc(s, location);
            push_str_field(s, company.as_str());
            match city {
                Some(id) => {
                    push_char(s, 'S');
                    push_num(s, *id as u64);
                    proof {
                        assert(old(s)@ + enc_action(a@) =~= ((((old(s)@.push('K')) + enc_loc(
                            location@,
                        )) + enc_str(company@)).push('S')) + enc_num(*id as int));
                    }
                },
                None => {
                    push_char(s, 'N');
                    proof {
                        assert(old(s)@ + enc_action(a@) =~= (((old(s)@.push('K')) + enc_loc(
                            location@,
                        )) + enc_str(company@)).push('N'));
                    }
                },
            }
        },
        Action::RemoveCompany { company } => {
            push_char(s, 'R');
            push_str_field(s, company.as_str());
            proof {
                assert(old(s)@ + enc_action(a@) =~= (old(s)@.push('R')) + enc_str(company@));
            }
        },
    }
}

proof fn lemma_enc_actions_take(l: Seq<ActionV>, i: int)
    requires
        0 <= i < l.len(),
    ensures
        enc_actions(l.take(i + 1)) == enc_actions(l.take(i)) + enc_action(l[i]),
    decreases i,
{
    if i == 0 {
        assert(l.take(1).skip(1) =~= Seq::<ActionV>::empty());
        assert(l.take(1)[0] == l[0]);
        assert(l.take(0) =~= Seq::<ActionV>::empty());
        assert(enc_actions(l.take(1)) =~= enc_actions(l.take(0)) + enc_action(l[0]));
    } else {
        lemma_enc_actions_take(l.skip(1), i - 1);
        assert(l.take(i + 1).skip(1) =~= l.skip(1).take(i));
        assert(l.take(i).skip(1) =~= l.skip(1).take(i - 1));
        assert(l.take(i + 1)[0] == l[0]);
        assert(l.take(i)[0] == l[0]);
        assert(l.skip(1)[i - 1] == l[i]);
        assert(enc_actions(l.take(i + 1)) =~= enc_actions(l.take(i)) + enc_action(l[i]));
    }
}

/// Writes a log as one document.
pub fn encode_log(log: &Log) -> (r: String)
    ensures
        r@ == enc_log(log@),
{
    let mut r = String::new();
    push_str_field(&mut r, log.game_name.as_str());
    let count = log.log.len();
    push_num(&mut r, count as u64);
    let ghost views = log.log@.map_values(|a: Action| a@);
    let ghost head = enc_str(log.game_name@) + enc_num(views.len() as int);
    proof {
        assert(r@ =~= head + enc_actions(views.take(0)));
    }
    let mut i: usize = 0;
    while i < count
        invariant
            i <= count,
            count == log.log@.len(),
            views == log.log@.map_values(|a: Action| a@),
            head == enc_str(log.game_name@) + enc_num(views.len() as int),
            r@ == head + enc_actions(views.take(i as int)),
        decreases count - i,
    {
        push_action(&mut r, &log.log[i]);
        proof {
            lemma_enc_actions_take(views, i as int);
            assert(views[i as int] == log.log@[i as int]@);
            assert(r@ =~= head + enc_actions(views.take(i + 1)));
        }
        i += 1;
    }
    proof {
        assert(views.take(count as int) =~= views);
        assert(r@ =~= enc_log(log@));
    }
    r
}

proof fn lemma_digits_props(n: int)
    requires
        0 <= n,
    ensures
        digits(n).len() >= 1,
        forall|i: int| 0 <= i < digits(n).len() ==> is_digit(#[trigger] digits(n)[i]),
        num_val(digits(n)) == n,
    decreases n,
{
    if n < 10 {
        assert(digits(n) =~= seq![digit_char(n)]);
        assert(is_digit(digit_char(n)));
        assert(digits(n).drop_last() =~= Seq::<char>::empty());
        assert(num_val(digits(n)) == 10 * num_val(Seq::<char>::empty()) + crate::board::digit_val(
            digit_char(n),
        ));
    } else {
        lemma_digits_props(n / 10);
        crate::board::lemma_num_val_push(digits(n / 10), digit_char(n % 10));
        assert(is_digit(digit_char(n % 10)));
        assert(num_val(digits(n)) == 10 * (n / 10) + (n % 10));
    }
}

proof fn lemma_digit_run_prefix(s: Seq<char>, k: int)
    requires
        0 <= k <= s.len(),
        forall|j: int| 0 <= j < k ==> is_digit(s[j]),
        k == s.len() || !is_digit(s[k]),
    ensures
        digit_run(s) == k,
    decreases s.len(),
{
    if s.len() == 0 || !is_digit(s[0]) {
    } else {
        assert(forall|j: int| 0 <= j < k - 1 ==> is_digit(#[trigger] s.skip(1)[j]));
        lemma_digit_run_prefix(s.skip(1), k - 1);
    }
}

proof fn lemma_dec_num_enc(n: int, rest: Seq<char>)
    requires
        0 <= n <= u64::MAX,
    ensures
        dec_num(enc_num(n) + rest) == Some(((n as u64), rest)),
{
    lemma_digits_props(n);
    let d = digits(n);
    let s = enc_num(n) + rest;
    let k = d.len() as int;
    assert(forall|j: int| 0 <= j < k ==> is_digit(#[trigger] s[j]));
    assert(s[k] == ';');
    assert(!is_digit(';'));
    lemma_digit_run_prefix(s, k);
    assert(s.take(k) =~= d);
    assert(s.skip(k + 1) =~= rest);
}

proof fn lemma_dec_str_enc(t: Seq<char>, rest: Seq<char>)
    requires
        t.len() <= u64::MAX,
    ensures
        dec_str(enc_str(t) + rest) == Some((t, rest)),
{
    let s = enc_str(t) + rest;
    assert(s =~= enc_num(t.len() as int) + (t + rest));
    lemma_dec_num_enc(t.len() as int, t + rest);
    assert((t + rest).take(t.len() as int) =~= t);
    assert((t + rest).skip(t.len() as int) =~= rest);
}

proof fn lemma_dec_loc_enc(l: LocationV, rest: Seq<char>)
    requires
        loc_encodable(l),
    ensures
        dec_loc(enc_loc(l) + rest) == Some((l, rest)),
{
    let s = enc_loc(l) + rest;
    match l {
        LocationV::Coord(x, y) => {
            assert(s[0] == 'C');
            assert(s.skip(1) =~= enc_num(x as int) + (enc_num(y as int) + rest));
            lemma_dec_num_enc(x as int, enc_num(y as int) + rest);
            lemma_dec_num_enc(y as int, rest);
        },
        LocationV::Named(t) => {
            assert(s[0] == 'L');
            assert(s.skip(1) =~= enc_str(t) + rest);
            lemma_dec_str_enc(t, rest);
        },
    }
}

proof fn lemma_dec_action_enc_tilelay(
    location: LocationV,
    tile: Seq<char>,
    orientation: Seq<char>,
    rest: Seq<char>,
)
    requires
        loc_encodable(location),
        tile.len() <= u64::MAX,
        orientation.len() <= u64::MAX,
    ensures
        dec_action(enc_action(ActionV::TileLay { location, tile, orientation }) + rest) == Some(
            (ActionV::TileLay { location, tile, orientation }, rest),
        ),
{
    let a = ActionV::TileLay { location, tile, orientation };
    let s = enc_action(a) + rest;
    assert(s[0] == 'T');
    assert(s.skip(1) =~= enc_loc(location) + (enc_str(tile) + (enc_str(orientation) + rest)));
    lemma_dec_loc_enc(location, enc_str(tile) + (enc_str(orientation) + rest));
    lemma_dec_str_enc(tile, enc_str(orientation) + rest);
    lemma_dec_str_enc(orientation, rest);
}

#[verifier::rlimit(100)]
proof fn lemma_dec_action_enc_token(
    location: LocationV,
    company: Seq<char>,
    city: Option<u32>,
    rest: Seq<char>,
)
    requires
        loc_encodable(location),
        company.len() <= u64::MAX,
    ensures
        dec_action(enc_action(ActionV::Token { location, company, city }) + rest) == Some(
            (ActionV::Token { location, company, city }, rest),
        ),
{
    let a = ActionV::Token { location, company, city };
    let s = enc_action(a) + rest;
    assert(s[0] == 'K');
    match city {
        Some(id) => {
            assert(s.skip(1) =~= enc_loc(location) + (enc_str(company) + (seq!['S'] + enc_num(
                id as int,
            ) + rest)));
            lemma_dec_loc_enc(location, enc_str(company) + (seq!['S'] + enc_num(id as int)
                + rest));
            lemma_dec_str_enc(company, seq!['S'] + enc_num(id as int) + rest);
            let r2 = seq!['S'] + enc_num(id as int) + rest;
            assert(r2[0] == 'S');
            assert(r2.skip(1) =~= enc_num(id as int) + rest);
            lemma_dec_num_enc(id as int, rest);
        },
        None => {
            assert(s.skip(1) =~= enc_loc(location) + (enc_str(company) + (seq!['N'] + rest)));
            lemma_dec_loc_enc(location, enc_str(company) + (seq!['N'] + rest));
            lemma_dec_str_enc(company, seq!['N'] + rest);
            let r2 = seq!['N'] + rest;
            assert(r2[0] == 'N');
            assert(r2[0] != 'S');
            assert(r2.skip(1) =~= rest);
        },
    }
}

proof fn lemma_dec_action_enc(a: ActionV, rest: Seq<char>)
    requires
        match a {
            ActionV::TileLay { location, tile, orientation } => loc_encodable(location)
                && tile.len() <= u64::MAX && orientation.len() <= u64::MAX,
            ActionV::Token { location, company, city } => loc_encodable(location) && company.len()
                <= u64::MAX,
            ActionV::RemoveCompany { company } => company.len() <= u64::MAX,
        },
    ensures
        dec_action(enc_action(a) + rest) == Some((a, rest)),
{
    match a {
        ActionV::TileLay { location, tile, orientation } => {
            lemma_dec_action_enc_tilelay(location, tile, orientation, rest);
        },
        ActionV::Token { location, company, city } => {
            lemma_dec_action_enc_token(location, company, city, rest);
        },
        ActionV::RemoveCompany { company } => {
            let s = enc_action(a) + rest;
            assert(s[0] == 'R');
            assert(s[0] != 'T' && s[0] != 'K');
            assert(s.skip(1) =~= enc_str(company) + rest);
            lemma_dec_str_enc(company, rest);
        },
    }
}

proof fn lemma_dec_actions_enc(l: Seq<ActionV>, rest: Seq<char>)
    requires
        forall|i: int|
            0 <= i < l.len() ==> match #[trigger] l[i] {
                ActionV::TileLay { location, tile, orientation } => loc_encodable(location)
                    && tile.len() <= u64::MAX && orientation.len() <= u64::MAX,
                ActionV::Token { location, company, city } => loc_encodable(location)
                    && company.len() <= u64::MAX,
                ActionV::RemoveCompany { company } => company.len() <= u64::MAX,
            },
    ensures
        dec_actions(enc_actions(l) + rest, l.len() as int) == Some((l, rest)),
    decreases l.len(),
{
    if l.len() == 0 {
        assert(enc_actions(l) + rest =~= rest);
        assert(dec_actions(rest, 0) == Some((Seq::<ActionV>::empty(), rest)));
        assert(l =~= Seq::<ActionV>::empty());
    } else {
        assert(enc_actions(l) + rest =~= enc_action(l[0]) + (enc_actions(l.skip(1)) + rest));
        lemma_dec_action_enc(l[0], enc_actions(l.skip(1)) + rest);
        assert(forall|i: int|
            0 <= i < l.skip(1).len() ==> match #[trigger] l.skip(1)[i] {
                ActionV::TileLay { location, tile, orientation } => loc_encodable(location)
                    && tile.len() <= u64::MAX && orientation.len() <= u64::MAX,
                ActionV::Token { location, company, city } => loc_encodable(location)
                    && company.len() <= u64::MAX,
                ActionV::RemoveCompany { company } => company.len() <= u64::MAX,
            });
        lemma_dec_actions_enc(l.skip(1), rest);
        assert(seq![l[0]] + l.skip(1) =~= l);
    }
}

/// Law: a written log document reads back as an equal log.  Writing then
/// reading is the identity on logs whose sequences fit the format's length
/// type.
pub proof fn lemma_log_round_trip(l: LogV)
    requires
        encodable(l),
    ensures
        dec_log(enc_log(l)) == Some(l),
{
    let s = enc_log(l);
    assert(s =~= enc_str(l.game_name) + (enc_num(l.log.len() as int) + (enc_actions(l.log)
        + Seq::empty())));
    lemma_dec_str_enc(l.game_name, enc_num(l.log.len() as int) + (enc_actions(l.log)
        + Seq::empty()));
    lemma_dec_num_enc(l.log.len() as int, enc_actions(l.log) + Seq::empty());
    lemma_dec_actions_enc(l.log, Seq::empty());
}



fn dec_num_exec(s: &str, n: usize, pos: usize) -> (r: Option<(u64, usize)>)
    requires
        n == s@.len(),
        pos <= n,
    ensures
        match r {
            Some(v) => pos <= v.1 <= n && dec_num(s@.skip(pos as int)) == Some(
                (v.0, s@.skip(v.1 as int)),
            ),
            None => dec_num(s@.skip(pos as int)) is None,
        },
{
    let ghost t = s@.skip(pos as int);
    let mut j: usize = pos;
    let mut v: u64 = 0;
    loop
        invariant
            pos <= j <= n,
            n == s@.len(),
            t == s@.skip(pos as int),
            forall|m: int| 0 <= m < j - pos ==> is_digit(#[trigger] t[m]),
            v as int == num_val(t.take(j - pos)),
        ensures
            pos <= j <= n,
            forall|m: int| 0 <= m < j - pos ==> is_digit(#[trigger] t[m]),
            v as int == num_val(t.take(j - pos)),
            j == n || !is_digit(t[j - pos]),
        decreases n - j,
    {
        if j == n {
            break ;
        }
        let c = s.get_char(j);
        let u = c as u32;
        if !(48 <= u && u <= 57) {
            break ;
        }
        let dv = (u - 48) as u64;
        if v > (u64::MAX - dv) / 10 {
            // The run reads beyond the number type; whatever closes it, the
            // document is malformed.
            proof {
                lemma_digit_run_digits(t);
                lemma_digit_run_at_least(t, j - pos + 1);
                let k = digit_run(t);
                assert(t.take(j - pos + 1).drop_last() =~= t.take(j - pos));
                assert(t.take(j - pos + 1).last() == t[j - pos]);
                assert(num_val(t.take(j - pos + 1)) == 10 * v + dv);
                crate::board::lemma_num_val_monotone(t, j - pos + 1, k);
            }
            return None;
        }
        proof {
            assert(t.take(j - pos + 1).drop_last() =~= t.take(j - pos));
            assert(t.take(j - pos + 1).last() == t[j - pos]);
        }
        v = v * 10 + dv;
        j += 1;
    }
    proof {
        lemma_digit_run_prefix(t, j - pos);
    }
    if j == pos {
        return None;
    }
    if j == n {
        return None;
    }
    let c = s.get_char(j);
    if c != ';' {
        return None;
    }
    proof {
        assert(t[j - pos] == ';');
        assert(t.skip(j - pos + 1) =~= s@.skip(j + 1));
    }
    Some((v, j + 1))
}

fn dec_str_exec(s: &str, n: usize, pos: usize) -> (r: Option<(String, usize)>)
    requires
        n == s@.len(),
        pos <= n,
    ensures
        match r {
            Some(v) => pos <= v.1 <= n && dec_str(s@.skip(pos as int)) == Some(
                (v.0@, s@.skip(v.1 as int)),
            ),
            None => dec_str(s@.skip(pos as int)) is None,
        },
{
    let (len, p2) = match dec_num_exec(s, n, pos) {
        Some(v) => v,
        None => {
            return None;
        },
    };
    if len > (n - p2) as u64 {
        proof {
            assert(s@.skip(p2 as int).len() == n - p2);
        }
        return None;
    }
    let l = len as usize;
    let mut out = String::new();
    let mut i: usize = 0;
    while i < l
        invariant
            i <= l,
            p2 + l <= n,
            n == s@.len(),
            out@ =~= s@.subrange(p2 as int, p2 + i),
        decreases l - i,
    {
        push_char(&mut out, s.get_char(p2 + i));
        proof {
            assert(out@ =~= s@.subrange(p2 as int, p2 + i + 1));
        }
        i += 1;
    }
    proof {
        assert(s@.skip(p2 as int).take(len as int) =~= s@.subrange(p2 as int, p2 + l));
        assert(s@.skip(p2 as int).skip(len as int) =~= s@.skip(p2 + l));
    }
    Some((out, p2 + l))
}

fn dec_loc_exec(s: &str, n: usize, pos: usize) -> (r: Option<(Location, usize)>)
    requires
        n == s@.len(),
        pos <= n,
    ensures
        match r {
            Some(v) => pos <= v.1 <= n && dec_loc(s@.skip(pos as int)) == Some(
                (v.0@, s@.skip(v.1 as int)),
            ),
            None => dec_loc(s@.skip(pos as int)) is None,
        },
{
    if pos == n {
        return None;
    }
    let c = s.get_char(pos);
    proof {
        assert(s@.skip(pos as int)[0] == s@[pos as int]);
        assert(s@.skip(pos as int).skip(1) =~= s@.skip(pos + 1));
    }
    if c == 'C' {
        let (x, p2) = match dec_num_exec(s, n, pos + 1) {
            Some(v) => v,
            None => {
                return None;
            },
        };
        if x > u32::MAX as u64 {
            return None;
        }
        let (y, p3) = match dec_num_exec(s, n, p2) {
            Some(v) => v,
            None => {
                return None;
            },
        };
        if y > u32::MAX as u64 {
            return None;
        }
        Some((Location::Coord(x as u32, y as u32), p3))
    } else if c == 'L' {
        let (t, p2) = match dec_str_exec(s, n, pos + 1) {
            Some(v) => v,
            None => {
                return None;
            },
        };
        Some((Location::Named(t), p2))
    } else {
        None
    }
}

fn dec_action_exec(s: &str, n: usize, pos: usize) -> (r: Option<(Action, usize)>)
    requires
        n == s@.len(),
        pos <= n,
    ensures
        match r {
            Some(v) => pos <= v.1 <= n && dec_action(s@.skip(pos as int)) == Some(
                (v.0@, s@.skip(v.1 as int)),
            ),
            None => dec_action(s@.skip(pos as int)) is None,
        },
{
    if pos == n {
        return None;
    }
    let c = s.get_char(pos);
    proof {
        assert(s@.skip(pos as int)[0] == s@[pos as int]);
        assert(s@.skip(pos as int).skip(1) =~= s@.skip(pos + 1));
    }
    if c == 'T' {
        let (location, p2) = match dec_loc_exec(s, n, pos + 1) {
            Some(v) => v,
            None => {
                return None;
            },
        };
        let (tile, p3) = match dec_str_exec(s, n, p2) {
            Some(v) => v,
            None => {
                return None;
            },
        };
        let (orientation, p4) = match dec_str_exec(s, n, p3) {
            Some(v) => v,
            None => {
                return None;
            },
        };
        Some((Action::TileLay { location, tile, orientation }, p4))
    } else if c == 'K' {
        let (location, p2) = match dec_loc_exec(s, n, pos + 1) {
            Some(v) => v,
            None => {
                return None;
            },
        };
        let (company, p3) = match dec_str_exec(s, n, p2) {
            Some(v) => v,
            None => {
                return None;
            },
        };
        if p3 == n {
            return None;
        }
        let c2 = s.get_char(p3);
        proof {
            assert(s@.skip(p3 as int)[0] == s@[p3 as int]);
            assert(s@.skip(p3 as int).skip(1) =~= s@.skip(p3 + 1));
        }
        if c2 == 'S' {
            let (id, p4) = match dec_num_exec(s, n, p3 + 1) {
                Some(v) => v,
                None => {
                    return None;
                },
            };
            if id > u32::MAX as u64 {
                return None;
            }
            Some((Action::Token { location, company, city: Some(id as u32) }, p4))
        } else if c2 == 'N' {
            Some((Action::Token { location, company, city: None }, p3 + 1))
        } else {
            None
        }
    } else if c == 'R' {
        let (company, p2) = match dec_str_exec(s, n, pos + 1) {
            Some(v) => v,
            None => {
                return None;
            },
        };
        Some((Action::RemoveCompany { company }, p2))
    } else {
        None
    }
}

/// Reads a log back from its document form.
#[verifier::rlimit(100)]
pub fn decode_log(s: &str) -> (r: Option<Log>)
    ensures
        match r {
            Some(log) => dec_log(s@) == Some(log@),
            None => dec_log(s@) is None,
        },
{
    let n = s.unicode_len();
    proof {
        assert(s@.skip(0) =~= s@);
    }
    let (game_name, p1) = match dec_str_exec(s, n, 0) {
        Some(v) => v,
        None => {
            return None;
        },
    };
    let (count, p2) = match dec_num_exec(s, n, p1) {
        Some(v) => v,
        None => {
            return None;
        },
    };
    let mut actions: Vec<Action> = Vec::new();
    let mut pos = p2;
    let mut i: u64 = 0;
    proof {
        assert(actions@.map_values(|a: Action| a@) =~= Seq::<ActionV>::empty());
    }
    while i < count
        invariant
            i <= count,
            pos <= n,
            n == s@.len(),
            dec_str(s@) == Some((game_name@, s@.skip(p1 as int))),
            dec_num(s@.skip(p1 as int)) == Some((count, s@.skip(p2 as int))),
            match dec_actions(s@.skip(pos as int), count - i) {
                None => dec_actions(s@.skip(p2 as int), count as int) is None,
                Some(v) => dec_actions(s@.skip(p2 as int), count as int) == Some(
                    (actions@.map_values(|a: Action| a@) + v.0, v.1),
                ),
            },
        decreases count - i,
    {
        let (a, p) = match dec_action_exec(s, n, pos) {
            Some(v) => v,
            None => {
                return None;
            },
        };
        let ghost prev = actions@.map_values(|a0: Action| a0@);
        actions.push(a);
        proof {
            assert(actions@.map_values(|a0: Action| a0@) =~= prev.push(a@));
            let rec = dec_actions(s@.skip(p as int), count - i - 1);
            if rec is Some {
                assert(prev.push(a@) + (rec->0).0 =~= prev + (seq![a@] + (rec->0).0));
            }
        }
        pos = p;
        i += 1;
    }
    if pos != n {
        proof {
            assert(s@.skip(pos as int).len() > 0);
        }
        return None;
    }
    proof {
        assert(s@.skip(pos as int).len() == 0);
        assert(actions@.map_values(|a: Action| a@) + Seq::<ActionV>::empty() =~= actions@.map_values(
            |a: Action| a@,
        ));
    }
    Some(Log { game_name, log: actions })
}


} // verus!
