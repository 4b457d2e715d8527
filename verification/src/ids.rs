//! The ids of statuses: written to a record page by page, read back and put
//! in order.

use crate::api::Tweet;
use crate::chars::{chars_of, pieces_view, split, split_chars};
use crate::text::{append_text, decimal, decimal_text, utf8_to_string};
use vstd::prelude::*;
use vstd::string::StringSliceAdditionalSpecFns;
use vstd::utf8::{encode_utf8, valid_utf8};

verus! {

/// The ids of the statuses, each in decimal and followed by a comma.
pub open spec fn id_record(tweets: Seq<Tweet>) -> Seq<u8>
    decreases tweets.len(),
{
    if tweets.len() == 0 {
        Seq::empty()
    } else {
        id_record(tweets.drop_last()) + decimal(tweets.last().id as int) + ",".spec_bytes()
    }
}

/// What to do after a page of the timeline has come.
#[derive(Debug, PartialEq, Eq)]
pub enum Paging {
    /// The page is empty: the timeline is at its end.
    Stop,
    /// Write `record` down and ask for the statuses up to `max_id`.
    Continue { record: String, max_id: u64 },
}

/// The step that follows a page: none after an empty page; else the page's
/// ids are recorded and the next page ends just below the last id of this
/// one.
pub open spec fn paging_step(tweets: Seq<Tweet>, step: Paging) -> bool {
    if tweets.len() == 0 {
        step == Paging::Stop
    } else {
        step matches Paging::Continue { record, max_id } && encode_utf8(record@) == id_record(
            tweets,
        ) && max_id == tweets.last().id - 1
    }
}

/// Decides what follows a page of the timeline. The timeline comes newest
/// first, and an id is at least 1.
pub fn after_page(tweets: &[Tweet]) -> (r: Paging)
    requires
        tweets@.len() > 0 ==> tweets@.last().id > 0,
    ensures
        paging_step(tweets@, r),
{
    if tweets.len() == 0 {
        return Paging::Stop;
    }
    let mut out: Vec<u8> = Vec::new();
    assert(valid_utf8(out@));
    let mut i: usize = 0;
    while i < tweets.len()
        invariant
            i <= tweets.len(),
            valid_utf8(out@),
            out@ == id_record(tweets@.take(i as int)),
        decreases tweets.len() - i,
    {
        let ghost before = out@;
        let number = decimal_text(tweets[i].id);
        append_text(&mut out, number.as_str());
        append_text(&mut out, ",");
        proof {
            assert(tweets@.take(i + 1).drop_last() =~= tweets@.take(i as int));
            assert(tweets@.take(i + 1).last() == tweets@[i as int]);
            assert(out@ =~= before + decimal(tweets@[i as int].id as int) + ",".spec_bytes());
        }
        i += 1;
    }
    proof {
        assert(tweets@.take(tweets.len() as int) =~= tweets@);
    }
    let last: usize = tweets.len() - 1;
    Paging::Continue { record: utf8_to_string(out), max_id: tweets[last].id - 1 }
}

/// The value of a decimal digit.
pub open spec fn digit_value(c: char) -> Option<nat> {
    if '0' <= c <= '9' {
        Some((c as u32 - 0x30) as nat)
    } else {
        None
    }
}

/// The number that a string of decimal digits spells; none where the string
/// is empty or holds anything but digits.
pub open spec fn digits_value(s: Seq<char>) -> Option<nat>
    decreases s.len(),
{
    if s.len() == 0 {
        None
    } else if s.len() == 1 {
        digit_value(s[0])
    } else {
        match (digits_value(s.drop_last()), digit_value(s.last())) {
            (Some(high), Some(low)) => Some(high * 10 + low),
            _ => None,
        }
    }
}

/// The id that a piece of text spells: decimal digits, a plus sign before
/// them at most, and a value that fits in 64 bits.
pub open spec fn id_value(s: Seq<char>) -> Option<u64> {
    let digits = if s.len() > 0 && s[0] == '+' {
        s.drop_first()
    } else {
        s
    };
    as_id(digits_value(digits))
}

/// The number as an id, if there is one and it fits in 64 bits.
pub open spec fn as_id(number: Option<nat>) -> Option<u64> {
    match number {
        Some(n) => if n <= u64::MAX {
            Some(n as u64)
        } else {
            None
        },
        None => None,
    }
}

/// Every piece spells an id.
pub open spec fn all_ids(pieces: Seq<Seq<char>>) -> bool {
    forall|i: int| 0 <= i < pieces.len() ==> id_value(#[trigger] pieces[i]) is Some
}

/// The ids that a comma-separated list spells, if every piece spells one.
pub open spec fn id_list(text: Seq<char>) -> Option<Seq<u64>> {
    let pieces = split(text, ',');
    if all_ids(pieces) {
        Some(Seq::new(pieces.len(), |i: int| id_value(pieces[i])->0))
    } else {
        None
    }
}

/// Reads one id.
pub fn parse_id(s: &[char]) -> (r: Option<u64>)
    ensures
        r == id_value(s@),
{
    let start: usize = if s.len() > 0 && s[0] == '+' {
        1
    } else {
        0
    };
    let ghost digits = s@.skip(start as int);
    proof {
        if start == 1 {
            assert(s@.drop_first() =~= digits);
        } else {
            assert(s@ =~= digits);
        }
    }
    if start == s.len() {
        return None;
    }
    let mut value: u64 = 0;
    let mut i: usize = start;
    while i < s.len()
        invariant
            start <= i <= s.len(),
            start < s.len(),
            digits == s@.skip(start as int),
            id_value(s@) == as_id(digits_value(digits)),
            i > start ==> digits_value(digits.take(i - start)) == Some(value as nat),
            i == start ==> value == 0,
        decreases s.len() - i,
    {
        let c = s[i];
        let ghost prefix = digits.take(i - start);
        let ghost next = digits.take(i + 1 - start);
        proof {
            assert(next.drop_last() =~= prefix);
            assert(next.last() == c);
            assert(digits =~= next + digits.skip(i + 1 - start));
        }
        if !('0' <= c && c <= '9') {
            proof {
                lemma_digits_value_prefix(next, digits.skip(i + 1 - start));
            }
            return None;
        }
        let digit: u64 = (c as u32 - 0x30) as u64;
        if value > (u64::MAX - digit) / 10 {
            proof {
                assert(value * 10 + digit > u64::MAX) by (nonlinear_arith)
                    requires
                        value > (u64::MAX - digit) / 10,
                        0 <= digit <= 9,
                ;
                assert(digits_value(next) == Some((value * 10 + digit) as nat));
                lemma_digits_value_grows(next, digits.skip(i + 1 - start));
            }
            return None;
        }
        proof {
            assert(value * 10 + digit <= u64::MAX) by (nonlinear_arith)
                requires
                    value <= (u64::MAX - digit) / 10,
                    0 <= digit <= 9,
            ;
        }
        value = value * 10 + digit;
        i += 1;
    }
    proof {
        assert(digits.take(s.len() - start) =~= digits);
    }
    Some(value)
}

/// Where a prefix spells no number, the whole string spells none.
proof fn lemma_digits_value_prefix(prefix: Seq<char>, rest: Seq<char>)
    requires
        prefix.len() > 0,
        digits_value(prefix) is None,
    ensures
        digits_value(prefix + rest) is None,
    decreases rest.len(),
{
    if rest.len() == 0 {
        assert(prefix + rest =~= prefix);
    } else {
        lemma_digits_value_prefix(prefix, rest.drop_last());
        assert((prefix + rest).drop_last() =~= prefix + rest.drop_last());
    }
}

/// A string of digits spells at least what a prefix of it spells.
proof fn lemma_digits_value_grows(prefix: Seq<char>, rest: Seq<char>)
    requires
        prefix.len() > 0,
        digits_value(prefix) is Some,
    ensures
        digits_value(prefix + rest) matches Some(n) ==> n >= digits_value(prefix)->0,
    decreases rest.len(),
{
    if rest.len() == 0 {
        assert(prefix + rest =~= prefix);
    } else {
        lemma_digits_value_grows(prefix, rest.drop_last());
        assert((prefix + rest).drop_last() =~= prefix + rest.drop_last());
    }
}

/// Reads a list of ids separated by commas. There is no list where a piece
/// is not an id: an empty piece, as a comma at the end leaves one, is none.
pub fn parse_ids(text: &str) -> (r: Option<Vec<u64>>)
    ensures
        match r {
            Some(ids) => id_list(text@) == Some(ids@),
            None => id_list(text@) is None,
        },
{
    let chars = chars_of(text);
    let pieces = split_chars(chars.as_slice(), ',');
    let ghost all = pieces_view(pieces@);
    let mut ids: Vec<u64> = Vec::new();
    let mut i: usize = 0;
    while i < pieces.len()
        invariant
            i <= pieces.len(),
            all == pieces_view(pieces@),
            all == split(text@, ','),
            ids@.len() == i,
            forall|j: int| 0 <= j < i ==> id_value(#[trigger] all[j]) == Some(ids@[j]),
        decreases pieces.len() - i,
    {
        proof {
            assert(all[i as int] == pieces@[i as int]@);
        }
        match parse_id(pieces[i].as_slice()) {
            Some(id) => {
                ids.push(id);
            },
            None => {
                return None;
            },
        }
        i += 1;
    }
    proof {
        assert(ids@ =~= Seq::new(all.len(), |i: int| id_value(all[i])->0));
    }
    Some(ids)
}

/// Every id is at most the ids behind it.
pub open spec fn ascending(ids: Seq<u64>) -> bool {
    forall|i: int, j: int| 0 <= i < j < ids.len() ==> ids[i] <= ids[j]
}

/// The ids in ascending order: the same ids, each as often as before.
pub fn sort_ids(ids: &[u64]) -> (r: Vec<u64>)
    ensures
        ascending(r@),
        r@.to_multiset() == ids@.to_multiset(),
{
    let mut out: Vec<u64> = Vec::new();
    let mut i: usize = 0;
    proof {
        assert(ids@.take(0) =~= out@);
    }
    while i < ids.len()
        invariant
            i <= ids.len(),
            out@.len() == i,
            ascending(out@),
            out@.to_multiset() == ids@.take(i as int).to_multiset(),
        decreases ids.len() - i,
    {
        let id = ids[i];
        let mut j: usize = 0;
        while j < out.len() && out[j] <= id
            invariant
                j <= out.len(),
                forall|k: int| 0 <= k < j ==> out@[k] <= id,
            decreases out.len() - j,
        {
            j += 1;
        }
        let ghost before = out@;
        out.insert(j, id);
        proof {
            vstd::seq_lib::to_multiset_insert(before, j as int, id);
            vstd::seq_lib::to_multiset_build(ids@.take(i as int), id);
            assert(ids@.take(i + 1) =~= ids@.take(i as int).push(id));
            assert forall|a: int, b: int| 0 <= a < b < out@.len() implies out@[a] <= out@[b] by {
                if b < j {
                    assert(out@[a] == before[a] && out@[b] == before[b]);
                } else if b == j {
                    assert(out@[a] == before[a]);
                } else if a < j {
                    assert(out@[a] == before[a] && out@[b] == before[b - 1]);
                } else if a == j {
                    assert(out@[b] == before[b - 1]);
                    assert(before[j as int] <= before[b - 1] || b - 1 == j);
                } else {
                    assert(out@[a] == before[a - 1] && out@[b] == before[b - 1]);
                }
            }
        }
        i += 1;
    }
    proof {
        assert(ids@.take(ids.len() as int) =~= ids@);
    }
    out
}

} // verus!
