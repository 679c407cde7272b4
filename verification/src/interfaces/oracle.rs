use crate::interfaces::fen::text_chars;
use crate::interfaces::notation::{
    all_digits, decimal, digit_value, lemma_decimal_grows, lemma_digits_stop,
};
use crate::interfaces::strings::code_of;
use vstd::prelude::*;

verus! {

/// `regex::Error` of the regex crate: why a pattern did not compile. The
/// library carries it through and looks at nothing inside it.
#[verifier::external_type_specification]
#[verifier::external_body]
pub struct ExRegexError(regex::Error);

/// The capture groups that a pattern finds in a line: `None` where the
/// pattern does not match anywhere in the line, else the text of each
/// group, the whole match first, with an empty text for a group that took
/// no part in the match.
pub uninterp spec fn pattern_groups(pattern: Seq<char>, line: Seq<char>) -> Option<Seq<Seq<char>>>;

/// Whether a pattern fails to compile: its syntax is wrong, or the
/// program compiled from it would be larger than the crate's size limit.
/// That limit is counted in bytes of the machine the library was built
/// for, so the name speaks of one build of the library: there it depends
/// on the pattern alone, and is the same at every call.
pub uninterp spec fn pattern_fails(pattern: Seq<char>) -> bool;

/// The texts of a list of strings.
pub open spec fn texts_of(groups: Option<Vec<String>>) -> Option<Seq<Seq<char>>> {
    match groups {
        Some(list) => Some(Seq::new(list@.len(), |i: int| list@[i]@)),
        None => None,
    }
}

/// `Regex::new` and `Regex::captures` of the regex crate: compiles the
/// pattern and looks for its first match in the line. The crate's error
/// comes back exactly where the pattern fails to compile, which
/// `pattern_fails` names; where it compiles, the result is what
/// `pattern_groups` names for pattern and line.
#[verifier::external_body]
fn match_groups(pattern: &str, line: &str) -> (r: Result<Option<Vec<String>>, regex::Error>)
    ensures
        r is Err <==> pattern_fails(pattern@),
        r is Ok ==> texts_of(r->Ok_0) == pattern_groups(pattern@, line@),
{
    let regex = regex::Regex::new(pattern)?;
    Ok(
        regex.captures(line).map(
            |found| found.iter().map(|g| g.map_or(String::new(), |m| m.as_str().to_string())).collect(),
        ),
    )
}

/// Why a line of the oracle could not be read.
#[derive(Clone, Copy, Debug, PartialEq, Eq, Structural)]
pub enum OracleError {
    /// The pattern for the oracle's lines did not compile.
    Pattern,
    /// The line matched, with fewer groups than a move and a count take.
    Groups,
    /// The line matched, and the text of its count is empty, holds
    /// something other than the digits `0` to `9`, or says a number that
    /// does not fit sixty-four bits.
    Count,
}

/// One difference between the oracle's counts and the generator's. The
/// numbers are places in the two lists compared.
#[derive(Clone, Copy, Debug, PartialEq, Eq, Structural)]
pub enum PerftFinding {
    /// The move at the first place of the oracle's list stands at the
    /// second place of the generator's, with another count.
    Mismatch(usize, usize),
    /// The move at this place of the oracle's list is not in the
    /// generator's.
    Missing(usize),
    /// The move at this place of the generator's list is not in the
    /// oracle's.
    Invalid(usize),
}

/// Whether a text is a count: decimal digits, at least one, that say a
/// number which fits sixty-four bits.
pub open spec fn is_count(text: Seq<char>) -> bool {
    text.len() > 0 && all_digits(text, text.len() as int) && decimal(text, text.len() as int)
        <= u64::MAX
}

/// The move and the count that the groups of a line say. A line that did
/// not match says nothing. In one that matched, the group after the whole
/// match is the move's text and the next one its count: it is an error
/// where these groups are not there, and another where the count is none.
pub open spec fn entry_of(groups: Option<Seq<Seq<char>>>) -> Result<
    Option<(Seq<char>, int)>,
    OracleError,
> {
    match groups {
        None => Ok(None),
        Some(list) => if list.len() < 3 {
            Err(OracleError::Groups)
        } else if !is_count(list[2]) {
            Err(OracleError::Count)
        } else {
            Ok(Some((list[1], decimal(list[2], list[2].len() as int))))
        },
    }
}

/// What the reading of a line says: its entry, or why there is none.
pub open spec fn entry_view(entry: Result<Option<(String, u64)>, OracleError>) -> Result<
    Option<(Seq<char>, int)>,
    OracleError,
> {
    match entry {
        Ok(Some((text, count))) => Ok(Some((text@, count as int))),
        Ok(None) => Ok(None),
        Err(error) => Err(error),
    }
}

/// What reading a line with a pattern says: that the pattern is at fault
/// where it fails to compile, else what the groups found in the line say.
pub open spec fn line_entry(pattern: Seq<char>, line: Seq<char>) -> Result<
    Option<(Seq<char>, int)>,
    OracleError,
> {
    if pattern_fails(pattern) {
        Err(OracleError::Pattern)
    } else {
        entry_of(pattern_groups(pattern, line))
    }
}

/// The number that a text of decimal digits says, where it fits
/// sixty-four bits.
fn read_count(text: &str) -> (r: Option<u64>)
    ensures
        r is Some <==> is_count(text@),
        r is Some ==> r->Some_0 == decimal(text@, text@.len() as int),
{
    let chars = text_chars(text);
    if chars.len() == 0 {
        return None;
    }
    let mut value: u64 = 0;
    let mut i: usize = 0;
    while i < chars.len()
        invariant
            chars@ == text@,
            0 <= i <= chars@.len(),
            all_digits(chars@, i as int),
            value == decimal(chars@, i as int),
        decreases chars@.len() - i,
    {
        let c = chars[i];
        let code: u32 = code_of(c);
        if code < 48 || code > 57 {
            proof {
                assert(!all_digits(chars@, i + 1));
                lemma_digits_stop(chars@, i + 1, chars@.len() as int);
            }
            return None;
        }
        let digit: u64 = (code - 48) as u64;
        if value > (u64::MAX - digit) / 10 {
            proof {
                assert(digit_value(c) == Some(digit as int));
                if all_digits(chars@, chars@.len() as int) {
                    lemma_decimal_grows(chars@, i + 1, chars@.len() as int);
                }
            }
            return None;
        }
        value = value * 10 + digit;
        i += 1;
    }
    Some(value)
}

/// The move and the count that the groups of a line say.
pub fn perft_entry(groups: Option<Vec<String>>) -> (r: Result<Option<(String, u64)>, OracleError>)
    ensures
        entry_view(r) == entry_of(texts_of(groups)),
{
    match groups {
        Some(list) => {
            if list.len() < 3 {
                return Err(OracleError::Groups);
            }
            match read_count(list[2].as_str()) {
                Some(count) => Ok(Some((list[1].clone(), count))),
                None => Err(OracleError::Count),
            }
        },
        None => Ok(None),
    }
}

/// Reads one line of the oracle: a move as four or five characters, a
/// colon, a space and the move's count. The pattern for such a line is at
/// fault exactly where it fails to compile. Else a line in which the
/// pattern finds nothing says nothing, and one in which it finds a move
/// says the move with its count, or that the count is none.
pub fn parse_perft_line(line: &str) -> (r: Result<Option<(String, u64)>, OracleError>)
    ensures
        (r is Err && r->Err_0 == OracleError::Pattern) <==> pattern_fails(
            "(\\w\\d\\w\\d\\w?): (\\d+)"@,
        ),
        entry_view(r) == line_entry("(\\w\\d\\w\\d\\w?): (\\d+)"@, line@),
{
    perft_line_entry(match_groups("(\\w\\d\\w\\d\\w?): (\\d+)", line))
}

/// What a line of the oracle says, from what matching the pattern against
/// it gave: where the pattern did not compile, that the pattern is at
/// fault; else what the groups say.
pub fn perft_line_entry(found: Result<Option<Vec<String>>, regex::Error>) -> (r: Result<
    Option<(String, u64)>,
    OracleError,
>)
    ensures
        entry_view(r) == (match found {
            Ok(groups) => entry_of(texts_of(groups)),
            Err(_) => Err(OracleError::Pattern),
        }),
{
    match found {
        Ok(groups) => perft_entry(groups),
        Err(_) => Err(OracleError::Pattern),
    }
}

/// The first place among the first `k` of `list` at which the move with
/// the given text stands.
pub open spec fn place_of(list: Seq<(String, u64)>, text: Seq<char>, k: nat) -> Option<int>
    decreases k,
{
    if k == 0 {
        None
    } else {
        match place_of(list, text, (k - 1) as nat) {
            Some(j) => Some(j),
            None => if list[k - 1].0@ == text {
                Some(k - 1)
            } else {
                None
            },
        }
    }
}

/// What is found for the first `k` entries of the oracle's list: for
/// each, in order, a mismatch where the generator has the move with
/// another count, and a missing move where it has not got the move.
pub open spec fn checked_over(expected: Seq<(String, u64)>, actual: Seq<(String, u64)>, k: nat) -> Seq<
    PerftFinding,
>
    decreases k,
{
    if k == 0 {
        Seq::empty()
    } else {
        let before = checked_over(expected, actual, (k - 1) as nat);
        match place_of(actual, expected[k - 1].0@, actual.len()) {
            Some(j) => if actual[j].1 != expected[k - 1].1 {
                before.push(PerftFinding::Mismatch((k - 1) as usize, j as usize))
            } else {
                before
            },
            None => before.push(PerftFinding::Missing((k - 1) as usize)),
        }
    }
}

/// What is found for the first `k` entries of the generator's list: for
/// each move that the oracle has not got, in order, an invalid move.
pub open spec fn invalid_over(expected: Seq<(String, u64)>, actual: Seq<(String, u64)>, k: nat) -> Seq<
    PerftFinding,
>
    decreases k,
{
    if k == 0 {
        Seq::empty()
    } else {
        let before = invalid_over(expected, actual, (k - 1) as nat);
        if place_of(expected, actual[k - 1].0@, expected.len()) is None {
            before.push(PerftFinding::Invalid((k - 1) as usize))
        } else {
            before
        }
    }
}

/// Everything in which the generator's counts differ from the oracle's.
pub open spec fn findings(expected: Seq<(String, u64)>, actual: Seq<(String, u64)>) -> Seq<
    PerftFinding,
> {
    checked_over(expected, actual, expected.len()) + invalid_over(expected, actual, actual.len())
}

/// The first place in `list` at which the move with the given text
/// stands.
fn find_move(list: &Vec<(String, u64)>, text: &String) -> (r: Option<usize>)
    ensures
        match r {
            Some(j) => place_of(list@, text@, list@.len()) == Some(j as int) && j < list@.len(),
            None => place_of(list@, text@, list@.len()) is None,
        },
{
    let mut i: usize = 0;
    while i < list.len()
        invariant
            0 <= i <= list@.len(),
            place_of(list@, text@, i as nat) is None,
        decreases list@.len() - i,
    {
        if list[i].0 == *text {
            proof {
                lemma_place_stays(list@, text@, (i + 1) as nat, list@.len());
            }
            return Some(i);
        }
        i += 1;
    }
    None
}

/// A place that is found stays the place when more of the list is
/// looked at.
proof fn lemma_place_stays(list: Seq<(String, u64)>, text: Seq<char>, k: nat, n: nat)
    requires
        k <= n,
        place_of(list, text, k) is Some,
    ensures
        place_of(list, text, n) == place_of(list, text, k),
    decreases n - k,
{
    if k < n {
        lemma_place_stays(list, text, k, (n - 1) as nat);
    }
}

/// Compares the counts that the oracle gave move by move with the
/// generator's: the result lists every move on which the two differ, and
/// is empty exactly when they agree on every move.
pub fn compare_perfts(expected: &Vec<(String, u64)>, actual: &Vec<(String, u64)>) -> (r: Vec<
    PerftFinding,
>)
    ensures
        r@ == findings(expected@, actual@),
{
    let mut found: Vec<PerftFinding> = Vec::new();
    let mut i: usize = 0;
    while i < expected.len()
        invariant
            0 <= i <= expected@.len(),
            found@ == checked_over(expected@, actual@, i as nat),
        decreases expected@.len() - i,
    {
        match find_move(actual, &expected[i].0) {
            Some(j) => {
                if actual[j].1 != expected[i].1 {
                    found.push(PerftFinding::Mismatch(i, j));
                }
            },
            None => {
                found.push(PerftFinding::Missing(i));
            },
        }
        i += 1;
    }
    let ghost checked = found@;
    let mut k: usize = 0;
    proof {
        assert(found@ =~= checked + invalid_over(expected@, actual@, 0));
    }
    while k < actual.len()
        invariant
            0 <= k <= actual@.len(),
            found@ == checked + invalid_over(expected@, actual@, k as nat),
        decreases actual@.len() - k,
    {
        match find_move(expected, &actual[k].0) {
            Some(_) => {},
            None => {
                found.push(PerftFinding::Invalid(k));
            },
        }
        k += 1;
        proof {
            assert(found@ =~= checked + invalid_over(expected@, actual@, k as nat));
        }
    }
    found
}


/// Whether text `a` comes before text `b` from their `i`-th characters
/// on, which are the first at which the two can differ: the text with the
/// lesser character comes first, and a text before every text that it
/// begins.
pub open spec fn before_from(a: Seq<char>, b: Seq<char>, i: int) -> bool
    decreases a.len() - i,
{
    if i >= a.len() {
        i < b.len()
    } else if i >= b.len() {
        false
    } else if a[i] != b[i] {
        (a[i] as int) < (b[i] as int)
    } else {
        before_from(a, b, i + 1)
    }
}

/// Whether text `a` comes before text `b` as dictionaries order them.
pub open spec fn before(a: Seq<char>, b: Seq<char>) -> bool {
    before_from(a, b, 0)
}

/// Whether text `a` comes before text `b` as dictionaries order them.
pub fn text_before(a: &str, b: &str) -> (r: bool)
    ensures
        r == before(a@, b@),
{
    let left = text_chars(a);
    let right = text_chars(b);
    let mut i: usize = 0;
    while i < left.len() && i < right.len()
        invariant
            left@ == a@,
            right@ == b@,
            0 <= i <= left@.len(),
            i <= right@.len(),
            before(a@, b@) == before_from(a@, b@, i as int),
        decreases left@.len() - i,
    {
        let x = code_of(left[i]);
        let y = code_of(right[i]);
        if x != y {
            return x < y;
        }
        i += 1;
    }
    i < right.len()
}

/// Where a move with the given text goes into a list in order, looking
/// from place `i` on: before the first entry that it comes before, and
/// at the end if there is none.
pub open spec fn place_from(list: Seq<(String, u64)>, text: Seq<char>, i: int) -> int
    decreases list.len() - i,
{
    if i >= list.len() {
        list.len() as int
    } else if before(text, list[i].0@) {
        i
    } else {
        place_from(list, text, i + 1)
    }
}

/// The first `k` entries of a list in the order of their moves' texts,
/// entries with one text in the order in which they stand in the list.
pub open spec fn sorted_to(list: Seq<(String, u64)>, k: nat) -> Seq<(String, u64)>
    decreases k,
{
    if k == 0 {
        Seq::empty()
    } else {
        let before = sorted_to(list, (k - 1) as nat);
        before.insert(place_from(before, list[k - 1].0@, 0), list[k - 1])
    }
}

/// A place found is a place in the list or its end.
pub proof fn lemma_place_from(list: Seq<(String, u64)>, text: Seq<char>, i: int)
    requires
        0 <= i <= list.len(),
    ensures
        i <= place_from(list, text, i) <= list.len(),
        forall|j: int| i <= j < place_from(list, text, i) ==> !before(text, (#[trigger] list[j]).0@),
        place_from(list, text, i) < list.len() ==> before(
            text,
            list[place_from(list, text, i)].0@,
        ),
    decreases list.len() - i,
{
    if i < list.len() && !before(text, list[i].0@) {
        lemma_place_from(list, text, i + 1);
    }
}

/// Where a move with the given text goes into a list in order.
fn find_place(list: &Vec<(String, u64)>, text: &String) -> (r: usize)
    ensures
        r == place_from(list@, text@, 0),
        r <= list@.len(),
{
    let mut i: usize = 0;
    while i < list.len()
        invariant
            0 <= i <= list@.len(),
            place_from(list@, text@, 0) == place_from(list@, text@, i as int),
        decreases list@.len() - i,
    {
        if text_before(text.as_str(), list[i].0.as_str()) {
            return i;
        }
        i += 1;
    }
    i
}

/// The entries of a list in the order of their moves' texts, entries with
/// one text in the order in which they stand in the list.
pub fn sort_perfts(list: &Vec<(String, u64)>) -> (r: Vec<(String, u64)>)
    ensures
        r@ == sorted_to(list@, list@.len()),
{
    let mut sorted: Vec<(String, u64)> = Vec::new();
    let mut k: usize = 0;
    while k < list.len()
        invariant
            0 <= k <= list@.len(),
            sorted@ == sorted_to(list@, k as nat),
        decreases list@.len() - k,
    {
        let place = find_place(&sorted, &list[k].0);
        let entry = (list[k].0.clone(), list[k].1);
        assert(entry == list@[k as int]);
        sorted.insert(place, entry);
        k += 1;
    }
    sorted
}

/// The texts of a list in order do not go down.
pub open spec fn ascending(list: Seq<(String, u64)>) -> bool {
    forall|i: int, j: int|
        0 <= i < j < list.len() ==> !before((#[trigger] list[j]).0@, (#[trigger] list[i]).0@)
}

/// A text does not come before itself, and of three texts in a row the
/// first comes before the last.
pub proof fn lemma_before(a: Seq<char>, b: Seq<char>, c: Seq<char>, i: int)
    requires
        0 <= i,
        forall|j: int| 0 <= j < i ==> j < a.len() && j < b.len() && j < c.len() && a[j] == b[j]
            && b[j] == c[j],
    ensures
        !before_from(a, a, i),
        before_from(a, b, i) && before_from(b, c, i) ==> before_from(a, c, i),
        !before_from(a, b, i) && !before_from(b, c, i) ==> !before_from(a, c, i),
    decreases a.len() + b.len() + c.len() - 3 * i,
{
    if i < a.len() && i < b.len() && i < c.len() && a[i] == b[i] && b[i] == c[i] {
        lemma_before(a, b, c, i + 1);
    } else if i < a.len() {
        lemma_before_self(a, i);
    }
}

proof fn lemma_before_self(a: Seq<char>, i: int)
    requires
        0 <= i,
    ensures
        !before_from(a, a, i),
    decreases a.len() - i,
{
    if i < a.len() {
        lemma_before_self(a, i + 1);
    }
}

/// Sorting keeps every entry, as often as it stands in the list, and
/// puts the entries in ascending order.
pub proof fn lemma_sorted(list: Seq<(String, u64)>, k: nat)
    requires
        k <= list.len(),
    ensures
        sorted_to(list, k).len() == k,
        sorted_to(list, k).to_multiset() == list.take(k as int).to_multiset(),
        ascending(sorted_to(list, k)),
    decreases k,
{
    if k == 0 {
        assert(list.take(0) =~= Seq::<(String, u64)>::empty());
    } else {
        lemma_sorted(list, (k - 1) as nat);
        let so_far = sorted_to(list, (k - 1) as nat);
        let entry = list[k - 1];
        let place = place_from(so_far, entry.0@, 0);
        lemma_place_from(so_far, entry.0@, 0);
        let now = so_far.insert(place, entry);
        so_far.insert_ensures(place, entry);
        // ascending
        assert forall|i: int, j: int| 0 <= i < j < now.len() implies !before(
            (#[trigger] now[j]).0@,
            (#[trigger] now[i]).0@,
        ) by {
            if j == place {
                // the entry does not come before what stands before it
                assert(now[i] == so_far[i]);
            } else if i == place {
                // what stands after the entry does not come before it
                assert(now[j] == so_far[j - 1]);
                assert(before(entry.0@, so_far[place].0@));
                if j - 1 > place {
                    assert(!before(so_far[j - 1].0@, so_far[place].0@));
                }
                lemma_before(so_far[j - 1].0@, entry.0@, so_far[place].0@, 0);
                lemma_before(entry.0@, so_far[place].0@, so_far[j - 1].0@, 0);
                if before(so_far[j - 1].0@, entry.0@) {
                    lemma_before(so_far[j - 1].0@, entry.0@, so_far[place].0@, 0);
                    lemma_before_self(so_far[place].0@, 0);
                }
            } else {
                let a = if i < place {
                    i
                } else {
                    i - 1
                };
                let b = if j < place {
                    j
                } else {
                    j - 1
                };
                assert(now[i] == so_far[a] && now[j] == so_far[b]);
            }
        }
        // the same entries
        let head = so_far.subrange(0, place);
        let tail = so_far.subrange(place, so_far.len() as int);
        assert(so_far =~= head + tail);
        assert(now =~= head.push(entry) + tail);
        vstd::seq_lib::lemma_multiset_commutative(head, tail);
        vstd::seq_lib::lemma_multiset_commutative(head.push(entry), tail);
        head.to_multiset_ensures();
        assert(list.take(k as int) =~= list.take(k - 1).push(entry));
        list.take(k - 1).to_multiset_ensures();
        assert(now.to_multiset() =~= so_far.to_multiset().insert(entry));
    }
}

} // verus!
