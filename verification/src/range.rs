//! The candidate ports of a scan.

use vstd::prelude::*;
use crate::error::ScanError;

verus! {

/// The lowest port number.
pub const MIN_PORT: u16 = 1;

/// The highest port number.
pub const MAX_PORT: u16 = 65535;

/// The ports `first, first + 1, .., last`, in ascending order.
pub open spec fn ports_between(first: int, last: int) -> Seq<u16> {
    Seq::new((last - first + 1) as nat, |i: int| (first + i) as u16)
}

/// An inclusive, non-empty range of ports. It is immutable once built and
/// holds no cursor: whoever walks it keeps its own position.
#[derive(Clone, Copy, Debug)]
pub struct PortRange {
    start: u16,
    end: u16,
}

impl View for PortRange {
    type V = Seq<u16>;

    /// The ports of the range, ascending.
    closed spec fn view(&self) -> Seq<u16> {
        ports_between(self.start as int, self.end as int)
    }
}

impl PortRange {
    /// The first port of the range.
    pub closed spec fn first(&self) -> u16 {
        self.start
    }

    /// The last port of the range.
    pub closed spec fn last(&self) -> u16 {
        self.end
    }

    /// Both bounds are ports and the range is not empty.
    pub closed spec fn wf(&self) -> bool {
        1 <= self.start <= self.end
    }

    /// The range from `start` to `end`, both included. It is refused when a
    /// bound is 0 or `start` lies after `end`.
    pub fn new(start: u16, end: u16) -> (r: Result<PortRange, ScanError>)
        ensures
            r is Ok <==> 1 <= start <= end,
            r matches Ok(range) ==> range.wf() && range.first() == start && range.last() == end,
            r matches Err(e) ==> e == ScanError::InvalidRange,
    {
        if start == 0 || end == 0 || start > end {
            Err(ScanError::InvalidRange)
        } else {
            Ok(PortRange { start, end })
        }
    }

    /// Every port there is: 1 to 65535.
    pub fn full() -> (range: PortRange)
        ensures
            range.wf(),
            range.first() == MIN_PORT,
            range.last() == MAX_PORT,
    {
        PortRange { start: MIN_PORT, end: MAX_PORT }
    }

    /// The first port.
    pub fn start(&self) -> (p: u16)
        ensures
            p == self.first(),
    {
        self.start
    }

    /// The last port.
    pub fn end(&self) -> (p: u16)
        ensures
            p == self.last(),
    {
        self.end
    }

    /// How many ports the range holds.
    pub fn len(&self) -> (n: usize)
        requires
            self.wf(),
        ensures
            n == self@.len(),
            n == self.last() - self.first() + 1,
    {
        (self.end - self.start) as usize + 1
    }

    /// The port at position `index`, counting from 0.
    pub fn port_at(&self, index: usize) -> (p: u16)
        requires
            self.wf(),
            index < self@.len(),
        ensures
            p == self@[index as int],
    {
        self.start + index as u16
    }

    /// The port at position `index`, counting from 0, or `None` past the end.
    pub fn get(&self, index: usize) -> (p: Option<u16>)
        requires
            self.wf(),
        ensures
            p == (if index < self@.len() {
                Some(self@[index as int])
            } else {
                None
            }),
    {
        if index <= (self.end - self.start) as usize {
            Some(self.start + index as u16)
        } else {
            None
        }
    }

    /// Whether `port` is one of the range's ports.
    pub fn contains(&self, port: u16) -> (b: bool)
        requires
            self.wf(),
        ensures
            b == self@.contains(port),
            b == (self.first() <= port <= self.last()),
    {
        let b = self.start <= port && port <= self.end;
        proof {
            if b {
                assert(self@[port - self.start] == port);
            }
        }
        b
    }

    /// The ports of the range as a vector, ascending. Each call builds a
    /// fresh one.
    pub fn ports(&self) -> (v: Vec<u16>)
        requires
            self.wf(),
        ensures
            v@ == self@,
    {
        let mut v: Vec<u16> = Vec::new();
        let mut port: u16 = self.start;
        while port < self.end
            invariant
                self.wf(),
                self.start <= port <= self.end,
                v@ == ports_between(self.start as int, port as int - 1),
            decreases self.end - port,
        {
            v.push(port);
            port = port + 1;
        }
        v.push(port);
        v
    }

    /// The view of a range is a function of its bounds.
    pub proof fn lemma_bounds(&self)
        ensures
            self@ == ports_between(self.first() as int, self.last() as int),
    {
    }

    /// What the view holds, spelled out: position `i` holds `first + i`, so
    /// the ports ascend strictly and each lies within the bounds.
    pub proof fn lemma_view(&self)
        requires
            self.wf(),
        ensures
            self@.len() == self.last() - self.first() + 1,
            forall|i: int| 0 <= i < self@.len() ==> #[trigger] self@[i] == self.first() + i,
            forall|p: u16| self@.contains(p) <==> self.first() <= p <= self.last(),
            forall|i: int| 0 <= i < self@.len() ==> #[trigger] self@[i] >= 1,
            self@.no_duplicates(),
    {
        assert forall|p: u16| self.first() <= p <= self.last() implies self@.contains(p) by {
            assert(self@[p - self.first()] == p);
        }
    }
}

impl Default for PortRange {
    /// The full range, 1 to 65535.
    fn default() -> (range: PortRange)
        ensures
            range.wf(),
            range.first() == MIN_PORT,
            range.last() == MAX_PORT,
    {
        PortRange::full()
    }
}

} // verus!
