//! Packet identifiers: `sec-`, a UTC timestamp to the second, a hyphen and a
//! running number.
//!
//! The running number alone makes identifiers differ. It starts at zero with
//! the counter, goes up by one with each identifier and never starts again:
//! the counter keeps it as decimal digits, as many as it takes. It is not
//! kept beyond the counter's life.

use vstd::prelude::*;
use crate::text::{
    all_digits, chars_of, decimal, decimal_string, digit_str, digits_value, is_digit,
    lemma_decimal_digits, lemma_decimal_injective, lemma_decimal_value,
};

verus! {

/// The text of the packet identifier with timestamp `stamp` and number `n`.
pub open spec fn packet_id_text(stamp: Seq<char>, n: nat) -> Seq<char> {
    seq!['s', 'e', 'c', '-'] + stamp + seq!['-'] + decimal(n)
}

/// Whether `stamp` is eight digits, a hyphen and six digits.
pub open spec fn is_stamp(stamp: Seq<char>) -> bool {
    &&& stamp.len() == 15
    &&& all_digits(stamp.subrange(0, 8))
    &&& stamp[8] == '-'
    &&& all_digits(stamp.subrange(9, 15))
}

/// Whether `id` is `sec-`, eight digits, a hyphen, six digits, a hyphen and
/// one digit or more.
pub open spec fn is_packet_id(id: Seq<char>) -> bool {
    &&& id.len() > 20
    &&& id.subrange(0, 4) == seq!['s', 'e', 'c', '-']
    &&& is_stamp(id.subrange(4, 19))
    &&& id[19] == '-'
    &&& all_digits(id.subrange(20, id.len() as int))
}

/// The running number that an identifier carries: what its digits after
/// `sec-`, the timestamp and the second hyphen denote.
pub open spec fn packet_number(id: Seq<char>) -> nat {
    digits_value(id.skip(20))
}

/// An identifier carries the number it was written with.
pub proof fn lemma_packet_number(stamp: Seq<char>, n: nat)
    requires
        is_stamp(stamp),
    ensures
        packet_number(packet_id_text(stamp, n)) == n,
{
    assert(packet_id_text(stamp, n).skip(20) =~= decimal(n));
    lemma_decimal_value(n);
}

/// Identifiers with different numbers differ, whatever their timestamps.
pub proof fn lemma_packet_ids_differ(stamp_a: Seq<char>, a: nat, stamp_b: Seq<char>, b: nat)
    requires
        a != b,
    ensures
        packet_id_text(stamp_a, a) != packet_id_text(stamp_b, b),
{
    let id_a = packet_id_text(stamp_a, a);
    let id_b = packet_id_text(stamp_b, b);
    let da = decimal(a);
    let db = decimal(b);
    lemma_decimal_digits(a);
    lemma_decimal_digits(b);
    if id_a == id_b {
        let len = id_a.len() as int;
        assert(id_a[len - da.len() - 1] == '-');
        assert(id_b[len - db.len() - 1] == '-');
        assert forall|i: int| len - da.len() <= i < len implies id_a[i] == da[i - (len - da.len())] by {}
        assert forall|i: int| len - db.len() <= i < len implies id_b[i] == db[i - (len - db.len())] by {}
        if da.len() < db.len() {
            let i = len - da.len() - 1;
            assert(is_digit(db[i - (len - db.len())]));
            assert(false);
        }
        if db.len() < da.len() {
            let i = len - db.len() - 1;
            assert(is_digit(da[i - (len - da.len())]));
            assert(false);
        }
        assert(da =~= db) by {
            assert forall|k: int| 0 <= k < da.len() implies da[k] == db[k] by {
                assert(id_a[k + (len - da.len())] == da[k]);
                assert(id_b[k + (len - db.len())] == db[k]);
            }
        }
        lemma_decimal_injective(a, b);
    }
}

/// Two identifiers that one counter issued at different turns differ,
/// whatever their timestamps: turn `i` after `start` carries the number
/// `start + i`.
pub proof fn lemma_issued_ids_differ(
    start: nat,
    i: nat,
    stamp_i: Seq<char>,
    j: nat,
    stamp_j: Seq<char>,
)
    requires
        i != j,
    ensures
        packet_id_text(stamp_i, start + i) != packet_id_text(stamp_j, start + j),
{
    lemma_packet_ids_differ(stamp_i, start + i, stamp_j, start + j);
}

/// With a timestamp of eight digits, a hyphen and six digits, an identifier
/// has the shape `sec-dddddddd-dddddd-d..`.
pub proof fn lemma_packet_id_shape(stamp: Seq<char>, n: nat)
    requires
        is_stamp(stamp),
    ensures
        is_packet_id(packet_id_text(stamp, n)),
{
    let id = packet_id_text(stamp, n);
    lemma_decimal_digits(n);
    assert(id.subrange(0, 4) =~= seq!['s', 'e', 'c', '-']);
    assert(id.subrange(4, 19) =~= stamp);
    assert(id.subrange(20, id.len() as int) =~= decimal(n));
}

/// Writes the packet identifier with timestamp `stamp` and the number that
/// `numeral` is the numeral of.
pub fn join_packet_id(stamp: &str, numeral: &str) -> (id: String)
    ensures
        id@ == seq!['s', 'e', 'c', '-'] + stamp@ + seq!['-'] + numeral@,
{
    proof {
        reveal_strlit("sec-");
        reveal_strlit("-");
    }
    let mut id = String::from_str("sec-");
    id.append(stamp);
    id.append("-");
    id.append(numeral);
    assert(id@ =~= seq!['s', 'e', 'c', '-'] + stamp@ + seq!['-'] + numeral@);
    id
}

/// Writes the packet identifier with timestamp `stamp` and number `n`.
pub fn format_packet_id(stamp: &str, n: u64) -> (id: String)
    ensures
        id@ == packet_id_text(stamp@, n as nat),
{
    let numeral = decimal_string(n);
    join_packet_id(stamp, numeral.as_str())
}

/// The number whose decimal digits, lowest first, are `digits`.
pub open spec fn digits_number(digits: Seq<u8>) -> nat
    decreases digits.len(),
{
    if digits.len() == 0 {
        0
    } else {
        digits[0] as nat + 10 * digits_number(digits.skip(1))
    }
}

/// Whether `digits` are the decimal digits of a number, lowest first: one
/// digit or more, each below ten, and no zero at the high end of a number of
/// more than one digit.
pub open spec fn is_digit_list(digits: Seq<u8>) -> bool {
    &&& digits.len() >= 1
    &&& forall|i: int| 0 <= i < digits.len() ==> #[trigger] digits[i] < 10
    &&& digits.len() > 1 ==> digits.last() != 0
}

proof fn lemma_no_digits()
    ensures
        digits_number(Seq::<u8>::empty()) == 0,
{
}

proof fn lemma_digits_after_carry(before: Seq<u8>, after: Seq<u8>, nines: int)
    requires
        0 <= nines <= before.len(),
        before.len() <= after.len(),
        forall|k: int| 0 <= k < nines ==> before[k] == 9 && after[k] == 0,
        nines < before.len() ==> after.len() == before.len() && after[nines] == before[nines] + 1
            && forall|k: int| nines < k < before.len() ==> after[k] == before[k],
        nines == before.len() ==> after.len() == before.len() + 1 && after[nines] == 1,
    ensures
        digits_number(after) == digits_number(before) + 1,
    decreases nines,
{
    lemma_no_digits();
    if nines == 0 {
        if before.len() == 0 {
            assert(after.skip(1) =~= Seq::<u8>::empty());
        } else {
            assert(after.skip(1) =~= before.skip(1));
        }
    } else {
        let b = before.skip(1);
        let a = after.skip(1);
        assert forall|k: int| 0 <= k < nines - 1 implies b[k] == 9 && a[k] == 0 by {
            assert(b[k] == before[k + 1]);
            assert(a[k] == after[k + 1]);
        }
        if nines - 1 < b.len() {
            assert(a[nines - 1] == after[nines]);
            assert(b[nines - 1] == before[nines]);
            assert forall|k: int| nines - 1 < k < b.len() implies a[k] == b[k] by {
                assert(b[k] == before[k + 1]);
                assert(a[k] == after[k + 1]);
            }
        } else {
            assert(a[nines - 1] == after[nines]);
        }
        lemma_digits_after_carry(b, a, nines - 1);
        assert(before[0] == 9 && after[0] == 0);
    }
}

fn numeral_of(digits: &Vec<u8>) -> (numeral: String)
    requires
        is_digit_list(digits@),
    ensures
        numeral@ == decimal(digits_number(digits@)),
{
    let len: usize = digits.len();
    let mut numeral = String::new();
    let mut i: usize = len;
    while i > 0
        invariant
            i <= len,
            len == digits.len(),
            is_digit_list(digits@),
            i == len ==> numeral@ == Seq::<char>::empty(),
            i < len ==> numeral@ == decimal(digits_number(digits@.skip(i as int))),
            i < len && len > 1 ==> digits_number(digits@.skip(i as int)) >= 1,
        decreases i,
    {
        i -= 1;
        let d: u8 = digits[i];
        let ghost part = digits@.skip(i as int);
        let ghost higher = digits_number(digits@.skip(i + 1));
        proof {
            assert(part.skip(1) =~= digits@.skip(i + 1));
            assert(part[0] == d);
            assert(digits_number(part) == d + 10 * higher);
            if i + 1 == len {
                lemma_no_digits();
                assert(digits@.skip(i + 1) =~= Seq::<u8>::empty());
                assert(higher == 0);
                assert(len > 1 ==> d == digits@.last());
            } else {
                assert(len > 1);
                assert((d + 10 * higher) / 10 == higher);
                assert((d + 10 * higher) % 10 == d as int);
            }
        }
        numeral.append(digit_str(d as u64));
        assert(numeral@ =~= decimal(digits_number(part)));
    }
    assert(digits@.skip(0) =~= digits@);
    numeral
}

fn add_one(digits: &mut Vec<u8>)
    requires
        is_digit_list(old(digits)@),
    ensures
        is_digit_list(final(digits)@),
        digits_number(final(digits)@) == digits_number(old(digits)@) + 1,
{
    let len: usize = digits.len();
    let mut i: usize = 0;
    while i < len && digits[i] == 9
        invariant
            i <= len,
            len == digits.len(),
            len == old(digits)@.len(),
            is_digit_list(old(digits)@),
            forall|k: int| 0 <= k < i ==> old(digits)@[k] == 9 && digits@[k] == 0,
            forall|k: int| i <= k < len ==> digits@[k] == old(digits)@[k],
        decreases len - i,
    {
        digits.set(i, 0);
        i += 1;
    }
    if i == len {
        digits.push(1);
    } else {
        let d: u8 = digits[i];
        digits.set(i, d + 1);
    }
    proof {
        lemma_digits_after_carry(old(digits)@, digits@, i as int);
    }
}

fn digits_of(n: u64) -> (digits: Vec<u8>)
    ensures
        is_digit_list(digits@),
        digits_number(digits@) == n,
    decreases n,
{
    if n < 10 {
        let mut digits: Vec<u8> = Vec::new();
        digits.push(n as u8);
        proof {
            lemma_no_digits();
            assert(digits@.skip(1) =~= Seq::<u8>::empty());
        }
        digits
    } else {
        let mut digits = digits_of(n / 10);
        let ghost higher = digits@;
        assert(digits_number(higher) >= 1);
        assert(higher.last() != 0) by {
            if higher.len() == 1 {
                lemma_no_digits();
                assert(higher.skip(1) =~= Seq::<u8>::empty());
            }
        }
        digits.insert(0, (n % 10) as u8);
        assert(digits@.skip(1) =~= higher);
        assert(digits@.last() == higher.last());
        digits
    }
}

/// The source of the running numbers. The number has no greatest value: it
/// is kept as decimal digits and grows by a digit where it must.
pub struct PacketCounter {
    digits: Vec<u8>,
}

impl PacketCounter {
    #[verifier::type_invariant]
    spec fn well_formed(self) -> bool {
        is_digit_list(self.digits@)
    }

    /// The number that the next identifier will carry.
    pub closed spec fn upcoming(&self) -> nat {
        digits_number(self.digits@)
    }

    /// A counter that starts at zero.
    pub fn new() -> (counter: Self)
        ensures
            counter.upcoming() == 0,
    {
        PacketCounter { digits: digits_of(0) }
    }

    /// A counter that starts at `n`.
    pub fn starting_at(n: u64) -> (counter: Self)
        ensures
            counter.upcoming() == n,
    {
        PacketCounter { digits: digits_of(n) }
    }

    /// Hands out the numeral of the upcoming number and moves on to the
    /// number after it.
    pub fn take(&mut self) -> (numeral: String)
        ensures
            numeral@ == decimal(old(self).upcoming()),
            final(self).upcoming() == old(self).upcoming() + 1,
    {
        proof {
            use_type_invariant(&*self);
        }
        let numeral = numeral_of(&self.digits);
        let mut digits: Vec<u8> = digits_of(0);
        core::mem::swap(&mut self.digits, &mut digits);
        add_one(&mut digits);
        self.digits = digits;
        numeral
    }
}

/// The pattern by which the moment is written into an identifier, in the
/// notation of `strftime`: year, month, day, a hyphen, hour, minute and
/// second.
pub open spec fn stamp_pattern() -> Seq<char> {
    "%Y%m%d-%H%M%S"@
}

/// The present moment in UTC, written by `pattern`.
///
/// The body reads the clock with `chrono::Utc::now` and writes the moment
/// with `DateTime::format`. Nothing is claimed of the text, which depends on
/// the clock. The one pattern admitted is one that `format` accepts. The
/// call fails, as `now` does, where the clock stands before 1970.
#[verifier::external_body]
fn utc_now_text(pattern: &str) -> String
    requires
        pattern@ == stamp_pattern(),
{
    chrono::Utc::now().format(pattern).to_string()
}

/// The timestamp that stands in an identifier where the clock gave none of
/// the shape: zeros.
pub open spec fn blank_stamp() -> Seq<char> {
    "00000000-000000"@
}

/// The timestamp that goes into an identifier, given what the clock wrote:
/// that text where it is eight digits, a hyphen and six digits, else zeros.
/// The clock writes another text from the year 10000 on, when the year
/// takes a sign and a fifth digit.
pub open spec fn stamp_or_blank(text: Seq<char>) -> Seq<char> {
    if is_stamp(text) {
        text
    } else {
        blank_stamp()
    }
}

/// The blank timestamp has the shape of a timestamp.
pub proof fn lemma_blank_stamp()
    ensures
        is_stamp(blank_stamp()),
{
    reveal_strlit("00000000-000000");
    let s = blank_stamp();
    assert(s.len() == 15);
    assert forall|i: int| 0 <= i < 8 implies is_digit(#[trigger] s.subrange(0, 8)[i]) by {
        assert(s.subrange(0, 8)[i] == s[i]);
    }
    assert forall|i: int| 0 <= i < 6 implies is_digit(#[trigger] s.subrange(9, 15)[i]) by {
        assert(s.subrange(9, 15)[i] == s[i + 9]);
    }
}

/// Whether `text` is eight digits, a hyphen and six digits.
pub fn is_stamp_text(text: &str) -> (yes: bool)
    ensures
        yes == is_stamp(text@),
{
    let chars = chars_of(text);
    if chars.len() != 15 {
        return false;
    }
    let mut i: usize = 0;
    while i < 15
        invariant
            i <= 15,
            chars.len() == 15,
            chars@ == text@,
            forall|k: int| 0 <= k < i && k != 8 ==> is_digit(#[trigger] chars[k]),
            i > 8 ==> chars[8] == '-',
        decreases 15 - i,
    {
        let c = chars[i];
        if i == 8 {
            if c != '-' {
                return false;
            }
        } else if !('0' <= c && c <= '9') {
            proof {
                if i < 8 {
                    assert(text@.subrange(0, 8)[i as int] == c);
                } else {
                    assert(text@.subrange(9, 15)[i - 9] == c);
                }
            }
            return false;
        }
        i += 1;
    }
    proof {
        assert forall|k: int| 0 <= k < 8 implies is_digit(#[trigger] text@.subrange(0, 8)[k]) by {
            assert(text@.subrange(0, 8)[k] == chars[k]);
        }
        assert forall|k: int| 0 <= k < 6 implies is_digit(#[trigger] text@.subrange(9, 15)[k]) by {
            assert(text@.subrange(9, 15)[k] == chars[k + 9]);
        }
    }
    true
}

/// The timestamp that goes into an identifier, given what the clock wrote.
pub fn checked_stamp(text: String) -> (stamp: String)
    ensures
        stamp@ == stamp_or_blank(text@),
        is_stamp(stamp@),
{
    proof {
        lemma_blank_stamp();
    }
    if is_stamp_text(text.as_str()) {
        text
    } else {
        String::from_str("00000000-000000")
    }
}

/// Issues the next packet identifier: `sec-`, the present moment in UTC as
/// eight digits, a hyphen and six digits, a hyphen, and the upcoming number
/// of `counter`, which moves on by one. Where the clock writes no timestamp
/// of that shape, zeros stand in its place: the number alone tells
/// identifiers apart.
pub fn next_packet_id(counter: &mut PacketCounter) -> (id: String)
    ensures
        exists|stamp: Seq<char>|
            is_stamp(stamp) && id@ == #[trigger] packet_id_text(stamp, old(counter).upcoming()),
        is_packet_id(id@),
        packet_number(id@) == old(counter).upcoming(),
        final(counter).upcoming() == old(counter).upcoming() + 1,
{
    let ghost number = counter.upcoming();
    let numeral = counter.take();
    let stamp = checked_stamp(utc_now_text("%Y%m%d-%H%M%S"));
    proof {
        lemma_packet_id_shape(stamp@, number);
        lemma_packet_number(stamp@, number);
    }
    join_packet_id(stamp.as_str(), numeral.as_str())
}

} // verus!
