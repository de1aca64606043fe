//! The chained interrupt controllers: two 8-bit controllers remapped to a
//! vector base, each with a mask register and an in-service register. A
//! line is delivered only when it is unmasked and no line of equal or
//! higher priority is still in service; the end-of-interrupt
//! acknowledgement clears the in-service bit and re-arms the line. The
//! port writes that carry these transitions to the hardware live in the
//! embedding program; the state machine and its ordering rules live here.

use vstd::prelude::*;

verus! {

/// Bit `i` of `x`.
pub open spec fn bit_set(x: u8, i: u8) -> bool {
    i < 8 && x & (1u8 << i) != 0
}

/// The two chained controllers.
pub struct ChainedPics {
    /// Vector base of the primary controller (lines 0 to 7).
    pub offset1: u8,
    /// Vector base of the secondary controller (lines 8 to 15).
    pub offset2: u8,
    /// Masked lines of the primary controller.
    pub mask1: u8,
    /// Masked lines of the secondary controller.
    pub mask2: u8,
    /// Lines of the primary controller delivered and not yet acknowledged.
    pub in_service1: u8,
    /// Lines of the secondary controller delivered and not yet
    /// acknowledged.
    pub in_service2: u8,
    /// The controllers have been remapped and armed.
    pub initialized: bool,
}

impl ChainedPics {
    /// The controller handles `vector`.
    pub open spec fn spec_handles(&self, vector: u8) -> bool {
        (self.offset1 <= vector < self.offset1 + 8) || (self.offset2 <= vector < self.offset2 + 8)
    }

    /// The global line number (0 to 15) of `vector`; lower lines have
    /// higher priority.
    pub open spec fn spec_line(&self, vector: u8) -> int {
        if self.offset1 <= vector < self.offset1 + 8 {
            vector - self.offset1
        } else {
            8 + vector - self.offset2
        }
    }

    /// Line `l` is masked.
    pub open spec fn spec_masked(&self, l: int) -> bool {
        if l < 8 {
            bit_set(self.mask1, l as u8)
        } else {
            bit_set(self.mask2, (l - 8) as u8)
        }
    }

    /// Line `l` is in service: delivered and not yet acknowledged.
    pub open spec fn spec_in_service(&self, l: int) -> bool {
        if l < 8 {
            bit_set(self.in_service1, l as u8)
        } else {
            bit_set(self.in_service2, (l - 8) as u8)
        }
    }

    /// `vector` can be delivered now: the controllers are armed, the
    /// vector is theirs, its line is unmasked, and no line of equal or
    /// higher priority is awaiting its acknowledgement.
    pub open spec fn spec_can_deliver(&self, vector: u8) -> bool {
        &&& self.initialized
        &&& self.spec_handles(vector)
        &&& !self.spec_masked(self.spec_line(vector))
        &&& forall|l: int| 0 <= l <= self.spec_line(vector) ==> !self.spec_in_service(l)
    }

    /// The state after `vector` is delivered: its line goes in service.
    pub open spec fn spec_deliver(&self, vector: u8) -> ChainedPics {
        let l = self.spec_line(vector);
        if l < 8 {
            ChainedPics { in_service1: (self.in_service1 | (1u8 << l as u8)) as u8, ..*self }
        } else {
            ChainedPics { in_service2: (self.in_service2 | (1u8 << (l - 8) as u8)) as u8, ..*self }
        }
    }

    /// The state after the end-of-interrupt for `vector`: its line leaves
    /// service.
    pub open spec fn spec_eoi(&self, vector: u8) -> ChainedPics {
        let l = self.spec_line(vector);
        if l < 8 {
            ChainedPics { in_service1: (self.in_service1 & !(1u8 << l as u8)) as u8, ..*self }
        } else {
            ChainedPics { in_service2: (self.in_service2 & !(1u8 << (l - 8) as u8)) as u8, ..*self }
        }
    }

    /// Controllers set up for the two vector bases, not yet armed.
    pub fn new(offset1: u8, offset2: u8) -> (r: ChainedPics)
        ensures
            r.offset1 == offset1,
            r.offset2 == offset2,
            r.mask1 == 0xff,
            r.mask2 == 0xff,
            r.in_service1 == 0,
            r.in_service2 == 0,
            !r.initialized,
    {
        ChainedPics {
            offset1,
            offset2,
            mask1: 0xff,
            mask2: 0xff,
            in_service1: 0,
            in_service2: 0,
            initialized: false,
        }
    }

    /// Remaps and arms the controllers: every line unmasked, nothing in
    /// service. On hardware this is the initialization word sequence on
    /// the command and data ports.
    pub fn initialize(&mut self)
        ensures
            final(self).offset1 == old(self).offset1,
            final(self).offset2 == old(self).offset2,
            final(self).mask1 == 0,
            final(self).mask2 == 0,
            final(self).in_service1 == 0,
            final(self).in_service2 == 0,
            final(self).initialized,
    {
        self.mask1 = 0;
        self.mask2 = 0;
        self.in_service1 = 0;
        self.in_service2 = 0;
        self.initialized = true;
    }

    /// The controller handles `vector`.
    pub fn handles_interrupt(&self, vector: u8) -> (r: bool)
        requires
            self.offset1 + 8 <= 255,
            self.offset2 + 8 <= 255,
        ensures
            r == self.spec_handles(vector),
    {
        (self.offset1 <= vector && vector < self.offset1 + 8) || (self.offset2 <= vector && vector
            < self.offset2 + 8)
    }

    /// Marks the line of `vector` as delivered: from here until its
    /// end-of-interrupt, lines of equal or lower priority are blocked.
    pub fn deliver(&mut self, vector: u8)
        requires
            old(self).spec_handles(vector),
        ensures
            *final(self) == old(self).spec_deliver(vector),
            final(self).spec_in_service(old(self).spec_line(vector)),
    {
        proof {
            lemma_or_bit(old(self).in_service1, (old(self).spec_line(vector)) as u8);
            lemma_or_bit(old(self).in_service2, (old(self).spec_line(vector) - 8) as u8);
        }
        if self.offset1 <= vector && vector.wrapping_sub(self.offset1) < 8 {
            let l = vector - self.offset1;
            self.in_service1 = self.in_service1 | (1u8 << l);
        } else {
            let l = vector.wrapping_sub(self.offset2);
            proof {
                assert(old(self).spec_line(vector) - 8 == vector - old(self).offset2) by {
                    if old(self).offset1 <= vector < old(self).offset1 + 8 {
                        assert(vector - old(self).offset1 < 8);
                    }
                }
            }
            self.in_service2 = self.in_service2 | (1u8 << l);
        }
    }

    /// Acknowledges `vector`: clears its in-service bit, permitting
    /// further interrupts of that priority.
    pub fn notify_end_of_interrupt(&mut self, vector: u8)
        requires
            old(self).spec_handles(vector),
        ensures
            *final(self) == old(self).spec_eoi(vector),
            !final(self).spec_in_service(old(self).spec_line(vector)),
    {
        proof {
            lemma_and_not_bit(old(self).in_service1, (old(self).spec_line(vector)) as u8);
            lemma_and_not_bit(old(self).in_service2, (old(self).spec_line(vector) - 8) as u8);
        }
        if self.offset1 <= vector && vector.wrapping_sub(self.offset1) < 8 {
            let l = vector - self.offset1;
            self.in_service1 = self.in_service1 & !(1u8 << l);
        } else {
            let l = vector.wrapping_sub(self.offset2);
            proof {
                assert(old(self).spec_line(vector) - 8 == vector - old(self).offset2) by {
                    if old(self).offset1 <= vector < old(self).offset1 + 8 {
                        assert(vector - old(self).offset1 < 8);
                    }
                }
            }
            self.in_service2 = self.in_service2 & !(1u8 << l);
        }
    }
}

/// Setting bit `i` sets exactly bit `i`.
proof fn lemma_or_bit(x: u8, i: u8)
    by (bit_vector)
    ensures
        i < 8 ==> (x | (1u8 << i)) & (1u8 << i) != 0,
        forall|j: u8| j < 8 && j != i ==> ((x | (1u8 << i)) & (1u8 << j)) == x & (1u8 << j),
{
}

/// Clearing bit `i` clears exactly bit `i`.
proof fn lemma_and_not_bit(x: u8, i: u8)
    by (bit_vector)
    ensures
        i < 8 ==> (x & !(1u8 << i)) & (1u8 << i) == 0,
        forall|j: u8| j < 8 && j != i ==> ((x & !(1u8 << i)) & (1u8 << j)) == x & (1u8 << j),
{
}

/// An interrupt whose end-of-interrupt was never sent starves its own
/// line: after a delivery, the same vector cannot be delivered again
/// until the acknowledgement arrives, and the acknowledgement restores
/// exactly the state before the delivery.
pub proof fn lemma_missing_eoi_starves(p: ChainedPics, vector: u8)
    requires
        p.spec_can_deliver(vector),
    ensures
        !p.spec_deliver(vector).spec_can_deliver(vector),
        p.spec_deliver(vector).spec_eoi(vector).spec_can_deliver(vector),
{
    let l = p.spec_line(vector);
    let d = p.spec_deliver(vector);
    if l < 8 {
        lemma_or_bit(p.in_service1, l as u8);
        lemma_and_not_bit(d.in_service1, l as u8);
    } else {
        lemma_or_bit(p.in_service2, (l - 8) as u8);
        lemma_and_not_bit(d.in_service2, (l - 8) as u8);
    }
    let e = d.spec_eoi(vector);
    assert(d.spec_in_service(l));
    assert forall|k: int| 0 <= k <= e.spec_line(vector) implies !e.spec_in_service(k) by {
        assert(!p.spec_in_service(k));
        if k == l {
            if l < 8 {
                lemma_and_not_bit(d.in_service1, l as u8);
            } else {
                lemma_and_not_bit(d.in_service2, (l - 8) as u8);
            }
        } else {
            if k < 8 && l < 8 {
                lemma_or_bit(p.in_service1, l as u8);
                lemma_and_not_bit(d.in_service1, l as u8);
                assert((e.in_service1 & (1u8 << k as u8)) == (p.in_service1 & (1u8 << k as u8)));
            } else if k >= 8 && l >= 8 {
                lemma_or_bit(p.in_service2, (l - 8) as u8);
                lemma_and_not_bit(d.in_service2, (l - 8) as u8);
                assert((e.in_service2 & (1u8 << (k - 8) as u8)) == (p.in_service2 & (1u8 << (k
                    - 8) as u8)));
            }
        }
    }
}

} // verus!
