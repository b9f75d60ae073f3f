//! Board orientation and location resolution.
//!
//! A location on the board is either a raw `(column, row)` grid coordinate or
//! a human-readable label such as `B4`: a run of letters (a 1-based base-26
//! column/row name, `A = 1`) followed by a run of digits (a 1-based count
//! that advances by two per physical row).  Which of the two runs names the
//! column depends on the board orientation.

use vstd::prelude::*;

verus! {

/// Orientation that hexes should be in.
#[derive(Clone, Copy, Debug, PartialEq, Eq, Structural)]
pub enum Orientation {
    /// Hexes have a flat top.
    Horizontal,
    /// Hexes have a point at the top.
    Vertical,
}

/// Location of a tile, token or other object on a map.
#[derive(Debug)]
pub enum Location {
    Coord(u32, u32),
    Named(String),
}

impl Clone for Location {
    fn clone(&self) -> (r: Location)
        ensures
            r == *self,
    {
        match self {
            Location::Coord(x, y) => Location::Coord(*x, *y),
            Location::Named(s) => Location::Named(s.clone()),
        }
    }
}

pub open spec fn is_letter(c: char) -> bool {
    ('A' <= c && c <= 'Z') || ('a' <= c && c <= 'z')
}

pub open spec fn is_digit(c: char) -> bool {
    '0' <= c && c <= '9'
}

/// The 1-based value of a letter: `A = a = 1` through `Z = z = 26`.
pub open spec fn letter_val(c: char) -> int {
    if 'A' <= c && c <= 'Z' {
        c as int - 64
    } else if 'a' <= c && c <= 'z' {
        c as int - 96
    } else {
        0
    }
}

pub open spec fn digit_val(c: char) -> int {
    c as int - 48
}

/// Length of the leading run of letters.
pub open spec fn alpha_run(s: Seq<char>) -> int
    decreases s.len(),
{
    if s.len() == 0 || !is_letter(s[0]) {
        0
    } else {
        1 + alpha_run(s.skip(1))
    }
}

/// The base-26 value of a run of letters, read left to right.
pub open spec fn alpha_val(s: Seq<char>) -> int
    decreases s.len(),
{
    if s.len() == 0 {
        0
    } else {
        26 * alpha_val(s.drop_last()) + letter_val(s.last())
    }
}

/// The decimal value of a run of digits, read left to right.
pub open spec fn num_val(s: Seq<char>) -> int
    decreases s.len(),
{
    if s.len() == 0 {
        0
    } else {
        10 * num_val(s.drop_last()) + digit_val(s.last())
    }
}

/// A well-formed location label: a non-empty run of letters followed by a
/// non-empty run of digits, where the digits read at least 1 and both runs
/// read values that fit the coordinate type.
pub open spec fn wf_label(s: Seq<char>) -> bool {
    let k = alpha_run(s);
    &&& 1 <= k < s.len()
    &&& (forall|i: int| k <= i < s.len() ==> is_digit(s[i]))
    &&& 1 <= num_val(s.skip(k)) <= u32::MAX
    &&& alpha_val(s.take(k)) <= u32::MAX
}

/// The `(letters, digits)` pair of a well-formed label, both made 0-based:
/// the letter run is shifted down by one, and the digit run is halved after
/// the shift because row labels advance by two per physical row.
pub open spec fn label_pair(s: Seq<char>) -> (int, int) {
    let k = alpha_run(s);
    ((alpha_val(s.take(k)) - 1), ((num_val(s.skip(k)) - 1) / 2))
}

/// Where a label resolves to, if anywhere: the letter run names the column
/// under horizontal orientation and the row under vertical.
pub open spec fn spec_resolve_label(s: Seq<char>, orientation: Orientation) -> Option<(u32, u32)> {
    if wf_label(s) {
        let (a, b) = label_pair(s);
        match orientation {
            Orientation::Horizontal => Some(((a as u32), (b as u32))),
            Orientation::Vertical => Some(((b as u32), (a as u32))),
        }
    } else {
        None
    }
}

/// Where a location resolves to, if anywhere: raw coordinates pass through
/// untouched regardless of orientation.
pub open spec fn spec_resolve(loc: Location, orientation: Orientation) -> Option<(u32, u32)> {
    match loc {
        Location::Coord(x, y) => Some((x, y)),
        Location::Named(s) => spec_resolve_label(s@, orientation),
    }
}

proof fn lemma_alpha_run_prefix(s: Seq<char>, i: int)
    requires
        0 <= i <= s.len(),
        forall|j: int| 0 <= j < i ==> is_letter(s[j]),
        i == s.len() || !is_letter(s[i]),
    ensures
        alpha_run(s) == i,
    decreases s.len(),
{
    if s.len() == 0 || !is_letter(s[0]) {
    } else {
        assert(forall|j: int| 0 <= j < i - 1 ==> is_letter(s.skip(1)[j]));
        lemma_alpha_run_prefix(s.skip(1), i - 1);
    }
}

/// A leading run of letters is a lower bound on the run length.
proof fn lemma_alpha_run_at_least(s: Seq<char>, i: int)
    requires
        0 <= i <= s.len(),
        forall|j: int| 0 <= j < i ==> is_letter(s[j]),
    ensures
        alpha_run(s) >= i,
    decreases s.len(),
{
    lemma_alpha_run_letters(s);
    if i > 0 {
        assert(is_letter(s[0]));
        assert(forall|j: int| 0 <= j < i - 1 ==> is_letter(#[trigger] s.skip(1)[j]));
        lemma_alpha_run_at_least(s.skip(1), i - 1);
        assert(alpha_run(s) == 1 + alpha_run(s.skip(1)));
    }
}

proof fn lemma_alpha_val_nonneg(s: Seq<char>)
    ensures
        alpha_val(s) >= 0,
    decreases s.len(),
{
    if s.len() > 0 {
        lemma_alpha_val_nonneg(s.drop_last());
    }
}

/// Appending one more digit multiplies the value by ten and adds the digit.
pub proof fn lemma_num_val_push(s: Seq<char>, c: char)
    ensures
        num_val(s.push(c)) == 10 * num_val(s) + digit_val(c),
{
    assert(s.push(c).drop_last() =~= s);
    assert(s.push(c).last() == c);
}

proof fn lemma_num_val_nonneg(s: Seq<char>)
    requires
        forall|i: int| 0 <= i < s.len() ==> is_digit(s[i]),
    ensures
        num_val(s) >= 0,
    decreases s.len(),
{
    if s.len() > 0 {
        assert(forall|i: int| 0 <= i < s.len() - 1 ==> is_digit(s.drop_last()[i]));
        lemma_num_val_nonneg(s.drop_last());
    }
}

/// The value of a run of letters never shrinks as the run grows.
proof fn lemma_alpha_val_monotone(s: Seq<char>, i: int, j: int)
    requires
        0 <= i <= j <= s.len(),
        forall|n: int| 0 <= n < j ==> is_letter(s[n]),
    ensures
        0 <= alpha_val(s.take(i)) <= alpha_val(s.take(j)),
    decreases j - i,
{
    lemma_alpha_val_nonneg(s.take(i));
    if i < j {
        lemma_alpha_val_monotone(s, i, j - 1);
        assert(s.take(j).drop_last() =~= s.take(j - 1));
        assert(s.take(j).last() == s[j - 1]);
        assert(alpha_val(s.take(j)) == 26 * alpha_val(s.take(j - 1)) + letter_val(s[j - 1]));
    }
}

/// The value of a run of digits never shrinks as the run grows.
pub proof fn lemma_num_val_monotone(s: Seq<char>, i: int, j: int)
    requires
        0 <= i <= j <= s.len(),
        forall|n: int| 0 <= n < j ==> is_digit(s[n]),
    ensures
        0 <= num_val(s.take(i)) <= num_val(s.take(j)),
    decreases j - i,
{
    assert(forall|n: int| 0 <= n < s.take(i).len() ==> is_digit(s.take(i)[n]));
    lemma_num_val_nonneg(s.take(i));
    if i < j {
        lemma_num_val_monotone(s, i, j - 1);
        assert(s.take(j).drop_last() =~= s.take(j - 1));
        assert(num_val(s.take(j)) == 10 * num_val(s.take(j - 1)) + digit_val(s[j - 1]));
    }
}

fn is_letter_exec(c: char) -> (r: bool)
    ensures
        r == is_letter(c),
{
    let u = c as u32;
    (65 <= u && u <= 90) || (97 <= u && u <= 122)
}

fn is_digit_exec(c: char) -> (r: bool)
    ensures
        r == is_digit(c),
{
    let u = c as u32;
    48 <= u && u <= 57
}

fn letter_val_exec(c: char) -> (r: u32)
    requires
        is_letter(c),
    ensures
        r == letter_val(c),
        1 <= r <= 26,
{
    let u = c as u32;
    if u >= 97 {
        u - 96
    } else {
        u - 64
    }
}

fn digit_val_exec(c: char) -> (r: u32)
    requires
        is_digit(c),
    ensures
        r == digit_val(c),
        r <= 9,
{
    c as u32 - 48
}

fn resolve_label(s: &str, orientation: &Orientation) -> (r: Option<(u32, u32)>)
    ensures
        r == spec_resolve_label(s@, *orientation),
{
    let n = s.unicode_len();
    let mut i: usize = 0;
    let mut a: u32 = 0;
    // Read the leading run of letters as a base-26 value.
    loop
        invariant
            i <= n,
            n == s@.len(),
            forall|j: int| 0 <= j < i ==> is_letter(s@[j]),
            a == alpha_val(s@.take(i as int)),
        ensures
            i <= n,
            forall|j: int| 0 <= j < i ==> is_letter(s@[j]),
            a == alpha_val(s@.take(i as int)),
            i == n || !is_letter(s@[i as int]),
        decreases n - i,
    {
        if i == n {
            break ;
        }
        let c = s.get_char(i);
        if !is_letter_exec(c) {
            break ;
        }
        let lv = letter_val_exec(c);
        if a > (u32::MAX - lv) / 26 {
            // The letter run reads a value beyond the coordinate range.
            proof {
                lemma_alpha_run_at_least(s@, i + 1);
                if wf_label(s@) {
                    let k = alpha_run(s@);
                    assert(forall|m: int| 0 <= m < k ==> is_letter(s@[m])) by {
                        lemma_alpha_run_letters(s@);
                    }
                    assert(alpha_val(s@.take(i + 1)) == 26 * a + lv) by {
                        assert(s@.take(i + 1).drop_last() =~= s@.take(i as int));
                    }
                    lemma_alpha_val_monotone(s@, i + 1, k);
                }
            }
            return None;
        }
        proof {
            assert(s@.take(i + 1).drop_last() =~= s@.take(i as int));
        }
        a = a * 26 + lv;
        i += 1;
    }
    // The letter run ended: either the string is exhausted, a digit (or other
    // character) follows, or there were no letters at all.
    if i == 0 {
        proof {
            lemma_alpha_run_prefix(s@, 0);
        }
        return None;
    }
    if i == n {
        proof {
            lemma_alpha_run_prefix(s@, n as int);
        }
        return None;
    }
    proof {
        lemma_alpha_run_prefix(s@, i as int);
    }
    // Read the trailing run, which must be all digits.
    let ghost k = i as int;
    let mut v: u32 = 0;
    let mut j: usize = i;
    loop
        invariant
            i <= j <= n,
            n == s@.len(),
            k == i,
            alpha_run(s@) == k,
            a == alpha_val(s@.take(k)),
            1 <= k,
            forall|m: int| k <= m < j ==> is_digit(s@[m]),
            v == num_val(s@.skip(k).take(j - k)),
        ensures
            j == n,
            forall|m: int| k <= m < n ==> is_digit(s@[m]),
            v == num_val(s@.skip(k).take(n - k)),
        decreases n - j,
    {
        if j == n {
            break ;
        }
        let c = s.get_char(j);
        if !is_digit_exec(c) {
            // A non-digit after the letters: the label is malformed.
            return None;
        }
        let dv = digit_val_exec(c);
        if v > (u32::MAX - dv) / 10 {
            // The digit run reads a value beyond the coordinate range.
            proof {
                if wf_label(s@) {
                    let t = s@.skip(k);
                    assert(forall|m: int| 0 <= m < t.len() ==> is_digit(t[m]));
                    assert(t.take(j - k + 1).drop_last() =~= t.take(j - k));
                    assert(t.take(j - k + 1).last() == s@[j as int]);
                    assert(num_val(t.take(j - k + 1)) == 10 * v + dv);
                    lemma_num_val_monotone(t, j - k + 1, t.len() as int);
                    assert(t.take(t.len() as int) =~= t);
                }
            }
            return None;
        }
        proof {
            let t = s@.skip(k);
            assert(t.take(j - k + 1).drop_last() =~= t.take(j - k));
            assert(t.take(j - k + 1).last() == s@[j as int]);
        }
        v = v * 10 + dv;
        j += 1;
    }
    proof {
        assert(s@.skip(k).take(n - k) =~= s@.skip(k));
    }
    if v == 0 {
        return None;
    }
    proof {
        lemma_alpha_val_monotone(s@, 1, k);
        assert(s@.take(1).drop_last() =~= Seq::<char>::empty());
        assert(s@.take(1).last() == s@[0]);
        assert(alpha_val(s@.take(1)) == 26 * alpha_val(Seq::<char>::empty()) + letter_val(s@[0]));
    }
    let col = a - 1;
    let row = (v - 1) / 2;
    match orientation {
        Orientation::Horizontal => Some((col, row)),
        Orientation::Vertical => Some((row, col)),
    }
}

/// Every position in a run of letters holds a letter.
proof fn lemma_alpha_run_letters(s: Seq<char>)
    ensures
        0 <= alpha_run(s) <= s.len(),
        forall|j: int| 0 <= j < alpha_run(s) ==> is_letter(s[j]),
    decreases s.len(),
{
    if s.len() == 0 || !is_letter(s[0]) {
    } else {
        lemma_alpha_run_letters(s.skip(1));
        assert forall|j: int| 0 <= j < alpha_run(s) implies is_letter(s[j]) by {
            if j >= 1 {
                assert(is_letter(s.skip(1)[j - 1]));
            }
        }
    }
}

/// Resolves a location to a `(column, row)` grid coordinate, or reports that
/// a label is not well-formed.
pub fn resolve_location(loc: &Location, orientation: &Orientation) -> (r: Option<(u32, u32)>)
    ensures
        r == spec_resolve(*loc, *orientation),
{
    match loc {
        Location::Coord(x, y) => Some((*x, *y)),
        Location::Named(s) => resolve_label(s.as_str(), orientation),
    }
}

impl Location {
    /// Resolves a location that is known to be well-formed.
    pub fn as_coord(&self, orientation: &Orientation) -> (r: (u32, u32))
        requires
            spec_resolve(*self, *orientation) is Some,
        ensures
            Some(r) == spec_resolve(*self, *orientation),
    {
        match resolve_location(self, orientation) {
            Some(c) => c,
            None => unreached(),
        }
    }
}

} // verus!

