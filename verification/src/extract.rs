//! Release-date extraction from article body text.
//!
//! An embargoed article announces its release with a phrase of the form
//! "freely available on <Month> <Day>, <Year>". The scan is case-insensitive
//! and tolerant of irregular (including absent) whitespace between the words
//! and the date components: a month name in letters, a one- or two-digit day,
//! a comma, and a four-digit year. The leftmost such phrase decides; its date
//! must name an existing calendar day, whose midnight UTC is returned.

use vstd::prelude::*;
use vstd::string::StringSliceAdditionalSpecFns;

use crate::dates::{lemma_midnight_timestamp_bound, midnight_timestamp, timestamp_at_midnight,
    valid_date};

verus! {

/// ASCII whitespace accepted around the words of the phrase.
pub open spec fn is_space(c: u8) -> bool {
    c == 32 || c == 9 || c == 10 || c == 13 || c == 11 || c == 12
}

/// ASCII decimal digits.
pub open spec fn is_digit(c: u8) -> bool {
    48 <= c <= 57
}

/// ASCII letters, the only bytes a month name may consist of.
pub open spec fn is_letter(c: u8) -> bool {
    (65 <= c <= 90) || (97 <= c <= 122)
}

/// ASCII lower-casing of one byte.
pub open spec fn lower(c: u8) -> u8 {
    if 65 <= c <= 90 {
        (c + 32) as u8
    } else {
        c
    }
}

pub open spec fn digit_val(c: u8) -> int {
    c - 48
}

/// First position at or after `i` that does not hold whitespace.
pub open spec fn skip_spaces(s: Seq<u8>, i: int) -> int
    decreases s.len() - i when 0 <= i <= s.len()
{
    if i < s.len() && is_space(s[i]) {
        skip_spaces(s, i + 1)
    } else {
        i
    }
}

/// The word `w` (already lower case) stands at position `i` of `s`,
/// compared case-insensitively.
pub open spec fn matches_word(s: Seq<u8>, i: int, w: Seq<u8>) -> bool {
    &&& 0 <= i
    &&& i + w.len() <= s.len()
    &&& forall|k: int| 0 <= k < w.len() ==> lower(s[i + k]) == w[k]
}

/// End of the run of letters that starts at `i`.
pub open spec fn letters_end(s: Seq<u8>, i: int) -> int
    decreases s.len() - i when 0 <= i <= s.len()
{
    if i < s.len() && is_letter(s[i]) {
        letters_end(s, i + 1)
    } else {
        i
    }
}

pub open spec fn freely_word() -> Seq<u8> {
    seq![102u8, 114, 101, 101, 108, 121]
}

pub open spec fn available_word() -> Seq<u8> {
    seq![97u8, 118, 97, 105, 108, 97, 98, 108, 101]
}

pub open spec fn on_word() -> Seq<u8> {
    seq![111u8, 110]
}

/// Where the month token starts when the phrase "freely available on"
/// (with any whitespace between the words) stands at position `i`.
pub open spec fn phrase_end(s: Seq<u8>, i: int) -> Option<int> {
    if matches_word(s, i, freely_word()) {
        let a = skip_spaces(s, i + 6);
        if matches_word(s, a, available_word()) {
            let b = skip_spaces(s, a + 9);
            if matches_word(s, b, on_word()) {
                Some(skip_spaces(s, b + 2))
            } else {
                None
            }
        } else {
            None
        }
    } else {
        None
    }
}

/// The day number at `k`: one or two digits followed directly by a comma,
/// two digits taking precedence. Yields the value and the position after
/// the comma.
pub open spec fn day_comma(s: Seq<u8>, k: int) -> Option<(int, int)> {
    if 0 <= k && k + 2 < s.len() && is_digit(s[k]) && is_digit(s[k + 1]) && s[k + 2] == 44 {
        Some((10 * digit_val(s[k]) + digit_val(s[k + 1]), k + 3))
    } else if 0 <= k && k + 1 < s.len() && is_digit(s[k]) && s[k + 1] == 44 {
        Some((digit_val(s[k]), k + 2))
    } else {
        None
    }
}

/// The four-digit year at `k`.
pub open spec fn year_at(s: Seq<u8>, k: int) -> Option<int> {
    if 0 <= k && k + 4 <= s.len() && is_digit(s[k]) && is_digit(s[k + 1]) && is_digit(s[k + 2])
        && is_digit(s[k + 3]) {
        Some(
            1000 * digit_val(s[k]) + 100 * digit_val(s[k + 1]) + 10 * digit_val(s[k + 2])
                + digit_val(s[k + 3]),
        )
    } else {
        None
    }
}

/// The whole phrase matched at position `i`: the month token (a non-empty
/// run of letters), the day and the year.
pub open spec fn match_at(s: Seq<u8>, i: int) -> Option<(Seq<u8>, int, int)> {
    match phrase_end(s, i) {
        None => None,
        Some(t0) => {
            let t1 = letters_end(s, t0);
            if t1 == t0 {
                None
            } else {
                let k = skip_spaces(s, t1);
                match day_comma(s, k) {
                    None => None,
                    Some((day, after)) => {
                        let k2 = skip_spaces(s, after);
                        match year_at(s, k2) {
                            None => None,
                            Some(year) => Some((s.subrange(t0, t1), day, year)),
                        }
                    },
                }
            }
        },
    }
}

/// The leftmost position at or after `i` where the phrase matches.
pub open spec fn first_match_from(s: Seq<u8>, i: int) -> Option<(Seq<u8>, int, int)>
    decreases s.len() - i when 0 <= i <= s.len()
{
    if i >= s.len() {
        None
    } else if match_at(s, i) is Some {
        match_at(s, i)
    } else {
        first_match_from(s, i + 1)
    }
}

/// English month names, lower case, in month order.
pub open spec fn month_name(m: int) -> Seq<u8> {
    if m == 1 {
        seq![106u8, 97, 110, 117, 97, 114, 121]
    } else if m == 2 {
        seq![102u8, 101, 98, 114, 117, 97, 114, 121]
    } else if m == 3 {
        seq![109u8, 97, 114, 99, 104]
    } else if m == 4 {
        seq![97u8, 112, 114, 105, 108]
    } else if m == 5 {
        seq![109u8, 97, 121]
    } else if m == 6 {
        seq![106u8, 117, 110, 101]
    } else if m == 7 {
        seq![106u8, 117, 108, 121]
    } else if m == 8 {
        seq![97u8, 117, 103, 117, 115, 116]
    } else if m == 9 {
        seq![115u8, 101, 112, 116, 101, 109, 98, 101, 114]
    } else if m == 10 {
        seq![111u8, 99, 116, 111, 98, 101, 114]
    } else if m == 11 {
        seq![110u8, 111, 118, 101, 109, 98, 101, 114]
    } else {
        seq![100u8, 101, 99, 101, 109, 98, 101, 114]
    }
}

/// `tok` spells `w` once lower-cased.
pub open spec fn token_is(tok: Seq<u8>, w: Seq<u8>) -> bool {
    tok.len() == w.len() && (forall|k: int| 0 <= k < tok.len() ==> lower(tok[k]) == w[k])
}

/// `tok` names month `m`: its full English name or the three-letter
/// abbreviation, case-insensitively.
pub open spec fn token_names_month(tok: Seq<u8>, m: int) -> bool {
    token_is(tok, month_name(m)) || token_is(tok, month_name(m).take(3))
}

/// The month a token names, scanning January to December.
pub open spec fn month_number_from(tok: Seq<u8>, m: int) -> Option<int>
    decreases 13 - m,
{
    if m > 12 {
        None
    } else if token_names_month(tok, m) {
        Some(m)
    } else {
        month_number_from(tok, m + 1)
    }
}

pub open spec fn month_number(tok: Seq<u8>) -> Option<int> {
    month_number_from(tok, 1)
}

/// What release date a body text announces: the leftmost phrase decides;
/// its month token must name a month and its numbers an existing calendar
/// day, whose midnight UTC is the result.
pub open spec fn spec_extract(s: Seq<u8>) -> Option<int> {
    match first_match_from(s, 0) {
        None => None,
        Some((tok, day, year)) => match month_number(tok) {
            None => None,
            Some(m) => if valid_date(year, m, day) {
                Some(midnight_timestamp(year, m, day))
            } else {
                None
            },
        },
    }
}

fn lower_x(c: u8) -> (r: u8)
    ensures
        r == lower(c),
{
    if 65 <= c && c <= 90 {
        c + 32
    } else {
        c
    }
}

fn is_space_x(c: u8) -> (r: bool)
    ensures
        r == is_space(c),
{
    c == 32 || c == 9 || c == 10 || c == 13 || c == 11 || c == 12
}

fn is_digit_x(c: u8) -> (r: bool)
    ensures
        r == is_digit(c),
{
    48 <= c && c <= 57
}

fn is_letter_x(c: u8) -> (r: bool)
    ensures
        r == is_letter(c),
{
    (65 <= c && c <= 90) || (97 <= c && c <= 122)
}

fn skip_spaces_x(s: &[u8], i: usize) -> (j: usize)
    requires
        i <= s.len(),
    ensures
        j == skip_spaces(s@, i as int),
        i <= j <= s.len(),
{
    let mut j = i;
    while j < s.len() && is_space_x(s[j])
        invariant
            i <= j <= s.len(),
            skip_spaces(s@, i as int) == skip_spaces(s@, j as int),
        decreases s.len() - j,
    {
        j = j + 1;
    }
    j
}

fn letters_end_x(s: &[u8], i: usize) -> (j: usize)
    requires
        i <= s.len(),
    ensures
        j == letters_end(s@, i as int),
        i <= j <= s.len(),
{
    let mut j = i;
    while j < s.len() && is_letter_x(s[j])
        invariant
            i <= j <= s.len(),
            letters_end(s@, i as int) == letters_end(s@, j as int),
        decreases s.len() - j,
    {
        j = j + 1;
    }
    j
}

/// Case-insensitive comparison of `s` at `i` against a lower-case word.
fn matches_word_x(s: &[u8], i: usize, w: &[u8]) -> (r: bool)
    requires
        i <= s.len(),
    ensures
        r == matches_word(s@, i as int, w@),
{
    if s.len() - i < w.len() {
        return false;
    }
    let mut k: usize = 0;
    while k < w.len()
        invariant
            0 <= k <= w.len(),
            i + w.len() <= s.len(),
            forall|q: int| 0 <= q < k ==> lower(s@[i + q]) == w@[q],
        decreases w.len() - k,
    {
        if lower_x(s[i + k]) != w[k] {
            return false;
        }
        k = k + 1;
    }
    true
}

/// Compares the token `s[lo..hi]`, case-insensitively, with the first `wlen`
/// bytes of the lower-case word `w`.
fn token_is_x(s: &[u8], lo: usize, hi: usize, w: &Vec<u8>, wlen: usize) -> (r: bool)
    requires
        lo <= hi <= s.len(),
        wlen <= w.len(),
    ensures
        r == token_is(s@.subrange(lo as int, hi as int), w@.take(wlen as int)),
{
    let ghost tok = s@.subrange(lo as int, hi as int);
    if hi - lo != wlen {
        proof {
            assert(tok.len() == hi - lo);
            assert(w@.take(wlen as int).len() == wlen as int);
        }
        return false;
    }
    let mut k: usize = 0;
    while k < wlen
        invariant
            lo <= hi <= s.len(),
            wlen <= w.len(),
            hi - lo == wlen,
            0 <= k <= wlen,
            tok == s@.subrange(lo as int, hi as int),
            forall|q: int| 0 <= q < k ==> lower(tok[q]) == w@[q],
        decreases wlen - k,
    {
        if lower_x(s[lo + k]) != w[k] {
            proof {
                assert(tok[k as int] == s@[lo + k]);
                assert(w@.take(wlen as int)[k as int] == w@[k as int]);
            }
            return false;
        }
        k = k + 1;
    }
    true
}

fn month_name_x(m: u32) -> (v: Vec<u8>)
    requires
        1 <= m <= 12,
    ensures
        v@ == month_name(m as int),
        v@.len() >= 3,
{
    let v: Vec<u8> = if m == 1 {
        vec![106u8, 97, 110, 117, 97, 114, 121]
    } else if m == 2 {
        vec![102u8, 101, 98, 114, 117, 97, 114, 121]
    } else if m == 3 {
        vec![109u8, 97, 114, 99, 104]
    } else if m == 4 {
        vec![97u8, 112, 114, 105, 108]
    } else if m == 5 {
        vec![109u8, 97, 121]
    } else if m == 6 {
        vec![106u8, 117, 110, 101]
    } else if m == 7 {
        vec![106u8, 117, 108, 121]
    } else if m == 8 {
        vec![97u8, 117, 103, 117, 115, 116]
    } else if m == 9 {
        vec![115u8, 101, 112, 116, 101, 109, 98, 101, 114]
    } else if m == 10 {
        vec![111u8, 99, 116, 111, 98, 101, 114]
    } else if m == 11 {
        vec![110u8, 111, 118, 101, 109, 98, 101, 114]
    } else {
        vec![100u8, 101, 99, 101, 109, 98, 101, 114]
    };
    proof {
        assert(v@ =~= month_name(m as int));
    }
    v
}

fn token_matches_month(s: &[u8], lo: usize, hi: usize, m: u32) -> (r: bool)
    requires
        lo <= hi <= s.len(),
        1 <= m <= 12,
    ensures
        r == token_names_month(s@.subrange(lo as int, hi as int), m as int),
{
    let name = month_name_x(m);
    if token_is_x(s, lo, hi, &name, name.len()) {
        proof {
            assert(name@.take(name@.len() as int) =~= name@);
        }
        true
    } else {
        proof {
            assert(name@.take(name@.len() as int) =~= name@);
        }
        token_is_x(s, lo, hi, &name, 3)
    }
}

/// The month named by the token `s[lo..hi]`, if any.
fn month_number_x(s: &[u8], lo: usize, hi: usize) -> (r: Option<u32>)
    requires
        lo <= hi <= s.len(),
    ensures
        (r is Some) == (month_number(s@.subrange(lo as int, hi as int)) is Some),
        r matches Some(m) ==> 1 <= m <= 12 && month_number(
            s@.subrange(lo as int, hi as int),
        ) == Some(m as int),
{
    let ghost tok = s@.subrange(lo as int, hi as int);
    let mut m: u32 = 1;
    while m <= 12
        invariant
            1 <= m <= 13,
            lo <= hi <= s.len(),
            tok == s@.subrange(lo as int, hi as int),
            month_number(tok) == month_number_from(tok, m as int),
        decreases 13 - m,
    {
        if token_matches_month(s, lo, hi, m) {
            return Some(m);
        }
        m = m + 1;
    }
    None
}

/// The structural part of the scan at position `i`: the phrase, a month
/// token, a day and a year, before the month name and the calendar are
/// checked.
fn try_match_at(s: &[u8], i: usize) -> (r: Option<(usize, usize, u32, u32)>)
    requires
        i <= s.len(),
    ensures
        (r is Some) == (match_at(s@, i as int) is Some),
        r matches Some((lo, hi, day, year)) ==> ({
            &&& lo <= hi <= s.len()
            &&& match_at(s@, i as int) == Some(
                (s@.subrange(lo as int, hi as int), day as int, year as int),
            )
        }),
{
    let fw: Vec<u8> = vec![102u8, 114, 101, 101, 108, 121];
    proof {
        assert(fw@ =~= freely_word());
    }
    if !matches_word_x(s, i, fw.as_slice()) {
        return None;
    }
    let a = skip_spaces_x(s, i + 6);
    let aw: Vec<u8> = vec![97u8, 118, 97, 105, 108, 97, 98, 108, 101];
    proof {
        assert(aw@ =~= available_word());
    }
    if !matches_word_x(s, a, aw.as_slice()) {
        return None;
    }
    let b = skip_spaces_x(s, a + 9);
    let ow: Vec<u8> = vec![111u8, 110];
    proof {
        assert(ow@ =~= on_word());
    }
    if !matches_word_x(s, b, ow.as_slice()) {
        return None;
    }
    let t0 = skip_spaces_x(s, b + 2);
    let t1 = letters_end_x(s, t0);
    if t1 == t0 {
        return None;
    }
    let k = skip_spaces_x(s, t1);
    let day: u32;
    let after: usize;
    if s.len() - k >= 3 && is_digit_x(s[k]) && is_digit_x(s[k + 1]) && s[k + 2] == 44 {
        day = (s[k] as u32 - 48) * 10 + (s[k + 1] as u32 - 48);
        after = k + 3;
    } else if s.len() - k >= 2 && is_digit_x(s[k]) && s[k + 1] == 44 {
        day = s[k] as u32 - 48;
        after = k + 2;
    } else {
        return None;
    }
    let k2 = skip_spaces_x(s, after);
    if s.len() - k2 >= 4 && is_digit_x(s[k2]) && is_digit_x(s[k2 + 1]) && is_digit_x(s[k2 + 2])
        && is_digit_x(s[k2 + 3]) {
        let year = (s[k2] as u32 - 48) * 1000 + (s[k2 + 1] as u32 - 48) * 100 + (s[k2 + 2] as u32
            - 48) * 10 + (s[k2 + 3] as u32 - 48);
        Some((t0, t1, day, year))
    } else {
        None
    }
}

/// The release date announced by `text`, as midnight UTC in seconds since
/// the Unix epoch, when the leftmost "freely available on <Month> <Day>,
/// <Year>" phrase names an existing calendar date.
pub fn extract_release_date(text: &str) -> (r: Option<i64>)
    ensures
        (r is Some) == (spec_extract(text.spec_bytes()) is Some),
        r matches Some(t) ==> spec_extract(text.spec_bytes()) == Some(t as int),
{
    let s: &[u8] = text.as_bytes();
    let mut i: usize = 0;
    while i < s.len()
        invariant
            i <= s.len(),
            s@ == text.spec_bytes(),
            first_match_from(s@, 0) == first_match_from(s@, i as int),
        decreases s.len() - i,
    {
        match try_match_at(s, i) {
            Some((lo, hi, day, year)) => {
                proof {
                    assert(first_match_from(s@, i as int) == match_at(s@, i as int));
                }
                match month_number_x(s, lo, hi) {
                    None => {
                        return None;
                    },
                    Some(m) => {
                        if 1 <= day && day <= crate::dates::days_in_month_x(year, m) && year
                            <= 9999 {
                            let ts = timestamp_at_midnight(year, m, day);
                            proof {
                                lemma_midnight_timestamp_bound(year as int, m as int, day as int);
                            }
                            return Some(ts);
                        } else {
                            return None;
                        }
                    },
                }
            },
            None => {
                proof {
                    assert(first_match_from(s@, i as int) == first_match_from(s@, i + 1));
                }
                i = i + 1;
            },
        }
    }
    None
}

} // verus!
