//! Reading the port listing of an external scanner.
//!
//! Such a listing is plain text with one port per line, as in
//! `22/tcp open ssh`. A line counts when it mentions `open` anywhere; its
//! port is the text before the first `/`, a number from 1 to 65535. The
//! functions here work on the bytes of each line and leave reading the
//! file to the caller.

use vstd::prelude::*;
use crate::ports::{ascending, is_port_list, lemma_ascending, sorted_unique};

verus! {

/// The byte of `/`, which ends the port field.
pub const SLASH: u8 = 0x2f;

/// The byte of `+`, which may precede the digits.
pub const PLUS: u8 = 0x2b;

/// The byte of the digit `0`.
pub const ZERO: u8 = 0x30;

/// The byte of the digit `9`.
pub const NINE: u8 = 0x39;

/// The word `open` starts at position `at` of `line`.
pub open spec fn open_at(line: Seq<u8>, at: int) -> bool {
    &&& 0 <= at
    &&& at + 4 <= line.len()
    &&& line[at] == 0x6f
    &&& line[at + 1] == 0x70
    &&& line[at + 2] == 0x65
    &&& line[at + 3] == 0x6e
}

/// The line mentions `open` somewhere.
pub open spec fn mentions_open(line: Seq<u8>) -> bool {
    exists|at: int| open_at(line, at)
}

/// The length of the port field: the number of bytes before the first `/`,
/// or the whole line where there is none.
pub open spec fn field_len(line: Seq<u8>) -> nat
    decreases line.len(),
{
    if line.len() == 0 || line[0] == SLASH {
        0
    } else {
        1 + field_len(line.drop_first())
    }
}

/// The port field of a line.
pub open spec fn port_field(line: Seq<u8>) -> Seq<u8> {
    line.take(field_len(line) as int)
}

/// Every byte is a decimal digit.
pub open spec fn all_digits(text: Seq<u8>) -> bool {
    forall|i: int| 0 <= i < text.len() ==> ZERO <= #[trigger] text[i] <= NINE
}

/// The number that a string of digits denotes, most significant digit first.
pub open spec fn decimal_value(digits: Seq<u8>) -> nat
    decreases digits.len(),
{
    if digits.len() == 0 {
        0
    } else {
        decimal_value(digits.drop_last()) * 10 + (digits.last() - ZERO) as nat
    }
}

/// The digits of a number field: the field without its leading `+`, if it
/// has one.
pub open spec fn unsigned_part(field: Seq<u8>) -> Seq<u8> {
    if field.len() > 0 && field[0] == PLUS {
        field.drop_first()
    } else {
        field
    }
}

/// The port that a field denotes: an optional `+`, then one or more digits
/// whose value is a port number, from 1 to 65535. Leading zeros are
/// accepted; anything else, blanks included, is not, and neither is 0.
pub open spec fn port_number(field: Seq<u8>) -> Option<u16> {
    let digits = unsigned_part(field);
    if digits.len() > 0 && all_digits(digits) && 1 <= decimal_value(digits) <= u16::MAX {
        Some(decimal_value(digits) as u16)
    } else {
        None
    }
}

/// What one line of a listing says.
#[derive(Clone, Copy, Debug, PartialEq, Eq, Structural)]
pub enum Entry {
    /// The line does not mention `open`.
    Skipped,
    /// The line reports this port as open.
    Open(u16),
    /// The line mentions `open`, but its port field is not a port number.
    Malformed,
}

/// The entry that a line stands for.
pub open spec fn entry_of(line: Seq<u8>) -> Entry {
    if !mentions_open(line) {
        Entry::Skipped
    } else {
        match port_number(port_field(line)) {
            Some(port) => Entry::Open(port),
            None => Entry::Malformed,
        }
    }
}

/// The ports that the lines of a listing report as open, line by line, or
/// `None` where one of the lines is malformed.
pub open spec fn listed_ports(lines: Seq<Seq<u8>>) -> Option<Seq<u16>>
    decreases lines.len(),
{
    if lines.len() == 0 {
        Some(Seq::empty())
    } else {
        match (listed_ports(lines.drop_last()), entry_of(lines.last())) {
            (Some(ports), Entry::Skipped) => Some(ports),
            (Some(ports), Entry::Open(port)) => Some(ports.push(port)),
            _ => None,
        }
    }
}

/// The lines of a listing as sequences of bytes.
pub open spec fn line_bytes(lines: Seq<Vec<u8>>) -> Seq<Seq<u8>> {
    Seq::new(lines.len(), |i: int| lines[i]@)
}

/// A prefix without `/` that ends at a `/` or at the end of the line is the
/// port field.
proof fn lemma_field_len(line: Seq<u8>, n: int)
    requires
        0 <= n <= line.len(),
        forall|j: int| 0 <= j < n ==> line[j] != SLASH,
        n == line.len() || line[n] == SLASH,
    ensures
        field_len(line) == n,
    decreases n,
{
    if n > 0 {
        let rest = line.drop_first();
        assert forall|j: int| 0 <= j < n - 1 implies rest[j] != SLASH by {
            assert(rest[j] == line[j + 1]);
        }
        lemma_field_len(rest, n - 1);
    }
}

/// Appending digits never lowers the value of a digit string.
proof fn lemma_decimal_value_grows(digits: Seq<u8>, n: int)
    requires
        0 <= n <= digits.len(),
        all_digits(digits),
    ensures
        decimal_value(digits.take(n)) <= decimal_value(digits),
    decreases digits.len() - n,
{
    if n == digits.len() {
        assert(digits.take(n) == digits);
    } else {
        let shorter = digits.drop_last();
        assert(shorter.take(n) == digits.take(n));
        assert(all_digits(shorter)) by {
            assert forall|i: int| 0 <= i < shorter.len() implies ZERO <= #[trigger] shorter[i]
                <= NINE by {
                assert(shorter[i] == digits[i]);
            }
        }
        lemma_decimal_value_grows(shorter, n);
    }
}

/// Finds out whether a line mentions `open`.
fn has_open(line: &[u8]) -> (found: bool)
    ensures
        found == mentions_open(line@),
{
    let n: usize = line.len();
    if n < 4 {
        return false;
    }
    let mut at: usize = 0;
    while at <= n - 4
        invariant
            n == line@.len(),
            n >= 4,
            forall|j: int| 0 <= j < at ==> !open_at(line@, j),
        decreases n - at,
    {
        if line[at] == 0x6f && line[at + 1] == 0x70 && line[at + 2] == 0x65 && line[at + 3]
            == 0x6e {
            assert(open_at(line@, at as int));
            return true;
        }
        at = at + 1;
    }
    false
}

/// Reads the number in the first `end` bytes of a line.
fn read_port(line: &[u8], end: usize) -> (port: Option<u16>)
    requires
        end <= line@.len(),
    ensures
        port == port_number(line@.take(end as int)),
{
    let ghost field = line@.take(end as int);
    let begin: usize = if end > 0 && line[0] == PLUS {
        1
    } else {
        0
    };
    let ghost digits = unsigned_part(field);
    assert(digits == line@.subrange(begin as int, end as int));
    if begin == end {
        return None;
    }
    let mut value: u32 = 0;
    let mut at: usize = begin;
    while at < end
        invariant
            begin <= at <= end <= line@.len(),
            digits == unsigned_part(line@.take(end as int)),
            digits == line@.subrange(begin as int, end as int),
            all_digits(digits.take(at - begin)),
            value == decimal_value(digits.take(at - begin)),
            value <= u16::MAX,
        decreases end - at,
    {
        let byte: u8 = line[at];
        let ghost seen = digits.take(at - begin);
        let ghost next = digits.take(at - begin + 1);
        assert(next.drop_last() == seen);
        assert(next.last() == byte);
        if byte < ZERO || byte > NINE {
            assert(!all_digits(digits)) by {
                assert(digits[at - begin] == byte);
            }
            return None;
        }
        value = value * 10 + (byte - ZERO) as u32;
        assert(all_digits(next)) by {
            assert forall|i: int| 0 <= i < next.len() implies ZERO <= #[trigger] next[i]
                <= NINE by {
                if i < seen.len() {
                    assert(next[i] == seen[i]);
                }
            }
        }
        if value > u16::MAX as u32 {
            proof {
                if all_digits(digits) {
                    lemma_decimal_value_grows(digits, at - begin + 1);
                }
            }
            return None;
        }
        at = at + 1;
    }
    assert(digits.take(end - begin) == digits);
    if value == 0 {
        return None;
    }
    Some(value as u16)
}

/// Reads one line of a listing.
pub fn parse_line(line: &[u8]) -> (entry: Entry)
    ensures
        entry == entry_of(line@),
{
    if !has_open(line) {
        return Entry::Skipped;
    }
    let n: usize = line.len();
    let mut end: usize = 0;
    while end < n && line[end] != SLASH
        invariant
            n == line@.len(),
            end <= n,
            forall|j: int| 0 <= j < end ==> line@[j] != SLASH,
        decreases n - end,
    {
        end = end + 1;
    }
    proof {
        lemma_field_len(line@, end as int);
    }
    match read_port(line, end) {
        Some(port) => Entry::Open(port),
        None => Entry::Malformed,
    }
}

/// Collects the open ports of a listing. The lines are read in their
/// order; the ports come sorted ascending, each once. The listing is
/// refused as a whole where a line that mentions `open` does not begin
/// with a port number.
pub fn parse_ports(lines: &Vec<Vec<u8>>) -> (ports: Option<Vec<u16>>)
    ensures
        match ports {
            Some(found) => {
                &&& listed_ports(line_bytes(lines@)) matches Some(listed)
                &&& found@ == ascending(listed.to_set())
                &&& is_port_list(found@)
            },
            None => listed_ports(line_bytes(lines@)) is None,
        },
{
    let ghost all = line_bytes(lines@);
    let mut found: Vec<u16> = Vec::new();
    let mut at: usize = 0;
    while at < lines.len()
        invariant
            at <= lines@.len(),
            all == line_bytes(lines@),
            listed_ports(all.take(at as int)) == Some(found@),
        decreases lines@.len() - at,
    {
        let entry = parse_line(lines[at].as_slice());
        proof {
            let upto = all.take(at + 1);
            assert(upto.drop_last() == all.take(at as int));
            assert(upto.last() == lines@[at as int]@);
            if entry == Entry::Malformed {
                lemma_malformed_prefix(all, at + 1);
            }
        }
        match entry {
            Entry::Skipped => {},
            Entry::Open(port) => {
                found.push(port);
            },
            Entry::Malformed => {
                return None;
            },
        }
        at = at + 1;
    }
    assert(all.take(at as int) == all);
    let sorted = sorted_unique(&found);
    proof {
        lemma_listed_ports_are_ports(all, found@);
        lemma_ascending(found@.to_set());
        assert forall|i: int| 0 <= i < sorted@.len() implies sorted@[i] >= 1 by {
            assert(sorted@.to_set().contains(sorted@[i]));
            assert(found@.to_set().contains(sorted@[i]));
            let j = choose|j: int| 0 <= j < found@.len() && found@[j] == sorted@[i];
            assert(found@[j] >= 1);
        }
    }
    Some(sorted)
}

/// Every port that a listing reports is a port number, from 1 to 65535.
pub proof fn lemma_listed_ports_are_ports(lines: Seq<Seq<u8>>, ports: Seq<u16>)
    requires
        listed_ports(lines) == Some(ports),
    ensures
        forall|i: int| 0 <= i < ports.len() ==> #[trigger] ports[i] >= 1,
    decreases lines.len(),
{
    if lines.len() > 0 {
        let earlier = listed_ports(lines.drop_last())->0;
        lemma_listed_ports_are_ports(lines.drop_last(), earlier);
        assert forall|i: int| 0 <= i < ports.len() implies #[trigger] ports[i] >= 1 by {
            if i < earlier.len() {
                assert(ports[i] == earlier[i]);
            }
        }
    }
}

/// A listing with a refused prefix is refused.
proof fn lemma_malformed_prefix(lines: Seq<Seq<u8>>, n: int)
    requires
        0 <= n <= lines.len(),
        listed_ports(lines.take(n)) is None,
    ensures
        listed_ports(lines) is None,
    decreases lines.len() - n,
{
    if n == lines.len() {
        assert(lines.take(n) == lines);
    } else {
        let shorter = lines.drop_last();
        assert(shorter.take(n) == lines.take(n));
        lemma_malformed_prefix(shorter, n);
    }
}

} // verus!
