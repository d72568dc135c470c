//! The textual form of a list of ports: decimal numbers joined by commas.

use vstd::prelude::*;
use vstd::string::*;
use crate::ports::{ascending, lemma_ascending_ignores_order, sorted_unique};

verus! {

/// The character of a decimal digit.
pub open spec fn digit_char(digit: nat) -> char {
    if digit == 0 {
        '0'
    } else if digit == 1 {
        '1'
    } else if digit == 2 {
        '2'
    } else if digit == 3 {
        '3'
    } else if digit == 4 {
        '4'
    } else if digit == 5 {
        '5'
    } else if digit == 6 {
        '6'
    } else if digit == 7 {
        '7'
    } else if digit == 8 {
        '8'
    } else {
        '9'
    }
}

/// A number in decimal, without sign, blanks or leading zeros.
pub open spec fn decimal(n: nat) -> Seq<char>
    decreases n,
{
    if n < 10 {
        seq![digit_char(n)]
    } else {
        decimal(n / 10).push(digit_char(n % 10))
    }
}

/// The ports in decimal, in the order given, with one comma between
/// neighbours: no blanks, no comma at either end, and nothing at all for no
/// ports.
pub open spec fn joined(ports: Seq<u16>) -> Seq<char>
    decreases ports.len(),
{
    if ports.len() == 0 {
        Seq::empty()
    } else if ports.len() == 1 {
        decimal(ports[0] as nat)
    } else {
        joined(ports.drop_last()) + seq![','] + decimal(ports.last() as nat)
    }
}

/// The text of one decimal digit.
fn digit_text(digit: u16) -> (text: &'static str)
    requires
        digit < 10,
    ensures
        text@ == seq![digit_char(digit as nat)],
{
    proof {
        reveal_strlit("0");
        reveal_strlit("1");
        reveal_strlit("2");
        reveal_strlit("3");
        reveal_strlit("4");
        reveal_strlit("5");
        reveal_strlit("6");
        reveal_strlit("7");
        reveal_strlit("8");
        reveal_strlit("9");
    }
    let text = if digit == 0 {
        "0"
    } else if digit == 1 {
        "1"
    } else if digit == 2 {
        "2"
    } else if digit == 3 {
        "3"
    } else if digit == 4 {
        "4"
    } else if digit == 5 {
        "5"
    } else if digit == 6 {
        "6"
    } else if digit == 7 {
        "7"
    } else if digit == 8 {
        "8"
    } else {
        "9"
    };
    assert(text@ =~= seq![digit_char(digit as nat)]);
    text
}

/// Appends a number in decimal to a text.
pub fn push_decimal(text: &mut String, n: u16)
    ensures
        final(text)@ == old(text)@ + decimal(n as nat),
    decreases n,
{
    if n >= 10 {
        push_decimal(text, n / 10);
    }
    text.append(digit_text(n % 10));
    assert(text@ =~= old(text)@ + decimal(n as nat));
}

/// Writes the open ports of a list as text: sorted ascending, each port
/// once, joined by commas, as in `22,80,443`.
pub fn render_ports(ports: &Vec<u16>) -> (text: String)
    ensures
        text@ == joined(ascending(ports@.to_set())),
{
    let sorted = sorted_unique(ports);
    join_ports(&sorted)
}

/// Joins the numbers of a list by commas, in the order of the list.
pub(crate) fn join_ports(ports: &Vec<u16>) -> (text: String)
    ensures
        text@ == joined(ports@),
{
    let mut text = String::new();
    let mut at: usize = 0;
    while at < ports.len()
        invariant
            at <= ports@.len(),
            text@ == joined(ports@.take(at as int)),
        decreases ports@.len() - at,
    {
        let ghost done = ports@.take(at as int);
        let ghost next = ports@.take(at + 1);
        assert(next.drop_last() == done);
        assert(next.last() == ports@[at as int]);
        if at > 0 {
            proof {
                reveal_strlit(",");
            }
            text.append(",");
            assert(text@ =~= joined(done) + seq![',']);
        }
        push_decimal(&mut text, ports[at]);
        assert(text@ =~= joined(next));
        at = at + 1;
    }
    assert(ports@.take(at as int) == ports@);
    text
}

/// No ports give the empty text: not `0`, and not a lone comma.
pub proof fn lemma_joined_empty()
    ensures
        joined(Seq::<u16>::empty()) == Seq::<char>::empty(),
{
}

/// One port alone gives its number, with no comma.
pub proof fn lemma_joined_single(port: u16)
    ensures
        joined(seq![port]) == decimal(port as nat),
{
}

/// Adding a port to a list that is not empty adds a comma and its number.
pub proof fn lemma_joined_push(ports: Seq<u16>, port: u16)
    requires
        ports.len() > 0,
    ensures
        joined(ports.push(port)) == joined(ports) + seq![','] + decimal(port as nat),
{
    assert(ports.push(port).drop_last() == ports);
}

/// The text of a list of ports does not depend on the order of the list:
/// a list and any rearrangement of it are worded alike.
pub proof fn lemma_rendering_ignores_order(a: Seq<u16>, b: Seq<u16>)
    requires
        a.to_multiset() == b.to_multiset(),
    ensures
        joined(ascending(a.to_set())) == joined(ascending(b.to_set())),
{
    lemma_ascending_ignores_order(a, b);
}

} // verus!
