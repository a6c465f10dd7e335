//! The reorder queue: holds RTP packets until they can leave in sequence
//! order, modulo 16-bit wrap, releasing its minimum when full.

use vstd::prelude::*;
use crate::rtp::packet::{spec_seq_number, Packet};

verus! {

/// `(a - b) mod 2^16`: how far `a` lies ahead of `b` on the sequence circle.
pub open spec fn spec_seq_dist(a: u16, b: u16) -> u16 {
    (((a as int) - (b as int)) % 0x10000) as u16
}

/// `a` lies in the forward half-circle from `b`: its signed 16-bit delta
/// from `b` is positive.
pub open spec fn spec_newer(a: u16, b: u16) -> bool {
    1 <= spec_seq_dist(a, b) <= 0x7fff
}

/// `(a - b) mod 2^16`, executable.
pub fn seq_dist(a: u16, b: u16) -> (r: u16)
    ensures
        r == spec_seq_dist(a, b),
{
    let wide: u32 = (a as u32 + 0x10000 - b as u32) % 0x10000;
    proof {
        assert(((a as int) - (b as int)) % 0x10000 == ((a as int) + 0x10000 - (b as int))
            % 0x10000) by {
            vstd::arithmetic::div_mod::lemma_mod_add_multiples_vanish(
                (a as int) - (b as int),
                0x10000,
            );
        }
    }
    wide as u16
}


/// Where a packet at distance `d` from `l` goes in a queue ordered by
/// distance: after the maximal prefix of nearer packets.
pub open spec fn spec_insert_pos(s: Seq<u16>, l: u16, d: u16) -> int
    decreases s.len(),
{
    if s.len() == 0 {
        0
    } else if spec_seq_dist(s[0], l) < d {
        1 + spec_insert_pos(s.drop_first(), l, d)
    } else {
        0
    }
}

proof fn lemma_insert_pos_at(s: Seq<u16>, l: u16, d: u16, i: int)
    requires
        0 <= i <= s.len(),
        forall|k: int| 0 <= k < i ==> spec_seq_dist(#[trigger] s[k], l) < d,
        i == s.len() || spec_seq_dist(s[i], l) >= d,
    ensures
        spec_insert_pos(s, l, d) == i,
    decreases i,
{
    if i == 0 {
    } else {
        let t = s.drop_first();
        assert(forall|k: int| 0 <= k < i - 1 ==> #[trigger] t[k] == s[k + 1]);
        lemma_insert_pos_at(t, l, d, i - 1);
    }
}

pub struct ReorderQueue {
    queue: Vec<Packet>,
    max_len: usize,
    last_read_sn: Option<u16>,
}

impl ReorderQueue {
    /// The queued sequence numbers, nearest first.
    pub closed spec fn spec_seqs(&self) -> Seq<u16> {
        self.queue@.map_values(|p: Packet| spec_seq_number(p@))
    }

    pub closed spec fn spec_last(&self) -> Option<u16> {
        self.last_read_sn
    }

    pub closed spec fn spec_max_len(&self) -> usize {
        self.max_len
    }

    /// Queued packets are well formed, strictly ordered by distance from
    /// the last delivered sequence number, and all ahead of it.
    pub closed spec fn wf(&self) -> bool {
        match self.last_read_sn {
            Option::None => self.queue@.len() == 0,
            Option::Some(l) => {
                &&& forall|i: int| 0 <= i < self.queue@.len() ==> (#[trigger] self.queue@[i]).wf()
                &&& forall|i: int| 0 <= i < self.spec_seqs().len() ==> spec_newer(
                    #[trigger] self.spec_seqs()[i],
                    l,
                )
                &&& forall|i: int, j: int| 0 <= i < j < self.spec_seqs().len() ==> spec_seq_dist(
                    #[trigger] self.spec_seqs()[i],
                    l,
                ) < spec_seq_dist(#[trigger] self.spec_seqs()[j], l)
            },
        }
    }

    /// Public face of the invariant.
    pub open spec fn inv(&self) -> bool {
        self.wf()
    }

    pub fn new(max_len: usize) -> (r: Self)
        ensures
            r.inv(),
            r.spec_seqs() == Seq::<u16>::empty(),
            r.spec_last() is None,
            r.spec_max_len() == max_len,
    {
        let r = ReorderQueue { queue: Vec::new(), max_len, last_read_sn: None };
        proof {
            assert(r.spec_seqs() =~= Seq::<u16>::empty());
        }
        r
    }

    /// Hands the packet straight back when it is the next in line (or the
    /// first ever seen), discards it when it is not ahead of the last
    /// delivery or already queued, and queues it otherwise.
    ///
    /// A returned packet is always ahead of the previous delivery: its
    /// signed 16-bit delta from it is positive.
    pub fn push_or_return(&mut self, packet: Packet) -> (r: Option<Packet>)
        requires
            old(self).inv(),
            packet.wf(),
        ensures
            final(self).inv(),
            final(self).spec_max_len() == old(self).spec_max_len(),
            match old(self).spec_last() {
                Option::None => r matches Some(p) && p@ == packet@ && final(self).spec_last()
                    == Some(spec_seq_number(packet@)) && final(self).spec_seqs() == old(self).spec_seqs(),
                Option::Some(l) => {
                    let sp = spec_seq_number(packet@);
                    let d = spec_seq_dist(sp, l);
                    let olds = old(self).spec_seqs();
                    if d == 1 {
                        r matches Some(p) && p@ == packet@ && final(self).spec_last() == Some(sp)
                            && final(self).spec_seqs() == (if olds.len() > 0 && olds[0] == sp {
                            olds.drop_first()
                        } else {
                            olds
                        })
                    } else if !spec_newer(sp, l) || olds.contains(sp) {
                        r is None && final(self).spec_last() == old(self).spec_last() && final(self).spec_seqs() == olds
                    } else {
                        r is None && final(self).spec_last() == old(self).spec_last() && final(self).spec_seqs() == olds.insert(spec_insert_pos(olds, l, d), sp)
                    }
                },
            },
            r matches Some(p) ==> (p@ == packet@ && (old(self).spec_last() matches Some(l)
                ==> spec_newer(spec_seq_number(packet@), l))),
    {
        let sp = packet.sequence_number();
        match self.last_read_sn {
            Option::None => {
                self.last_read_sn = Some(sp);
                proof {
                    assert(self.spec_seqs() =~= old(self).spec_seqs());
                }
                Some(packet)
            },
            Option::Some(l) => {
                let d = seq_dist(sp, l);
                if d == 1 {
                    // a queued copy of this very sequence number is stale now
                    if self.queue.len() > 0 {
                        let q0 = self.queue[0].sequence_number();
                        if q0 == sp {
                            self.queue.remove(0);
                        }
                    }
                    self.last_read_sn = Some(sp);
                    proof {
                        let mids = self.spec_seqs();
                        let olds = old(self).spec_seqs();
                        if olds.len() > 0 && olds[0] == sp {
                            assert(mids =~= olds.drop_first());
                        } else {
                            assert(mids =~= olds);
                        }
                        assert forall|i: int| 0 <= i < mids.len() implies spec_seq_dist(
                            #[trigger] mids[i],
                            l,
                        ) > 1 && spec_newer(mids[i], l) by {
                            let s = mids[i];
                            if olds.len() > 0 && olds[0] == sp {
                                assert(s == olds[i + 1]);
                                assert(spec_seq_dist(olds[0], l) < spec_seq_dist(olds[i + 1], l));
                                assert(spec_newer(olds[i + 1], l));
                            } else {
                                assert(s == olds[i]);
                                assert(spec_newer(olds[i], l));
                                if spec_seq_dist(s, l) == 1 {
                                    if i > 0 {
                                        assert(spec_seq_dist(olds[0], l) < spec_seq_dist(olds[i], l));
                                        assert(spec_newer(olds[0], l));
                                    } else {
                                        lemma_dist_inj(s, sp, l);
                                    }
                                }
                            }
                        }
                        assert forall|i: int| 0 <= i < mids.len() implies spec_newer(
                            #[trigger] mids[i],
                            sp,
                        ) by {
                            lemma_dist_shift(mids[i], sp, l);
                        }
                        assert forall|i: int, j: int| 0 <= i < j < mids.len() implies spec_seq_dist(
                            #[trigger] mids[i],
                            sp,
                        ) < spec_seq_dist(#[trigger] mids[j], sp) by {
                            let a = mids[i];
                            let b = mids[j];
                            if olds.len() > 0 && olds[0] == sp {
                                assert(a == olds[i + 1]);
                                assert(b == olds[j + 1]);
                                assert(spec_seq_dist(olds[i + 1], l) < spec_seq_dist(olds[j + 1], l));
                            } else {
                                assert(a == olds[i]);
                                assert(b == olds[j]);
                                assert(spec_seq_dist(olds[i], l) < spec_seq_dist(olds[j], l));
                            }
                            lemma_dist_shift(a, sp, l);
                            lemma_dist_shift(b, sp, l);
                        }
                    }
                    Some(packet)
                } else if d == 0 || d > 0x7fff {
                    // not ahead of the last delivery: too old, drop it
                    None
                } else {
                    // queue it at its place in distance order
                    let ghost old_seqs = self.spec_seqs();
                    let mut i: usize = 0;
                    loop
                        invariant_except_break
                            self == old(self),
                            old(self).inv(),
                            old(self).spec_last() == Some(l),
                            d == spec_seq_dist(sp, l),
                            2 <= d <= 0x7fff,
                            sp == spec_seq_number(packet@),
                            0 <= i <= self.spec_seqs().len(),
                            forall|k: int| 0 <= k < i ==> spec_seq_dist(
                                #[trigger] self.spec_seqs()[k],
                                l,
                            ) < d,
                        ensures
                            self == old(self),
                            0 <= i <= self.spec_seqs().len(),
                            forall|k: int| 0 <= k < i ==> spec_seq_dist(
                                #[trigger] self.spec_seqs()[k],
                                l,
                            ) < d,
                            i < self.spec_seqs().len() ==> spec_seq_dist(self.spec_seqs()[i as int], l)
                                > d,
                            !self.spec_seqs().contains(sp),
                        decreases self.queue.len() - i,
                    {
                        if i >= self.queue.len() {
                            proof {
                                if self.spec_seqs().contains(sp) {
                                    let k = choose|k: int|
                                        0 <= k < self.spec_seqs().len() && self.spec_seqs()[k] == sp;
                                    assert(spec_seq_dist(self.spec_seqs()[k], l) < d);
                                }
                            }
                            break;
                        }
                        let q = self.queue[i].sequence_number();
                        let dq = seq_dist(q, l);
                        if dq == d {
                            // a duplicate of a queued packet: drop it
                            proof {
                                lemma_dist_inj(q, sp, l);
                                assert(self.spec_seqs()[i as int] == sp);
                                assert(self.spec_seqs().contains(sp));
                            }
                            return None;
                        }
                        if dq > d {
                            proof {
                                if self.spec_seqs().contains(sp) {
                                    let k = choose|k: int|
                                        0 <= k < self.spec_seqs().len() && self.spec_seqs()[k] == sp;
                                    if k < i {
                                        assert(spec_seq_dist(self.spec_seqs()[k], l) < d);
                                    } else if k > i {
                                        assert(spec_seq_dist(self.spec_seqs()[i as int], l)
                                            < spec_seq_dist(self.spec_seqs()[k], l));
                                    }
                                }
                            }
                            break;
                        }
                        i = i + 1;
                    }
                    proof {
                        lemma_insert_pos_at(old_seqs, l, d, i as int);
                    }
                    self.queue.insert(i, packet);
                    proof {
                        assert(self.spec_seqs() =~= old_seqs.insert(i as int, sp));
                    }
                    None
                }
            },
        }
    }

    /// Releases the nearest queued packet when it is next in line or the
    /// queue has reached its bound; else nothing.
    ///
    /// A returned packet is always ahead of the previous delivery: its
    /// signed 16-bit delta from it is positive.
    pub fn pop(&mut self) -> (r: Option<Packet>)
        requires
            old(self).inv(),
        ensures
            final(self).inv(),
            final(self).spec_max_len() == old(self).spec_max_len(),
            old(self).spec_seqs().len() == 0 ==> r is None && *final(self) == *old(self),
            old(self).spec_seqs().len() > 0 ==> {
                let l = old(self).spec_last()->Some_0;
                let d0 = spec_seq_dist(old(self).spec_seqs()[0], l);
                if d0 == 1 || old(self).spec_seqs().len() >= old(self).spec_max_len() {
                    &&& r matches Some(p) && p.wf() && spec_seq_number(p@) == old(self).spec_seqs()[0]
                    &&& final(self).spec_seqs() == old(self).spec_seqs().drop_first()
                    &&& final(self).spec_last() == Some(old(self).spec_seqs()[0])
                } else {
                    r is None && *final(self) == *old(self)
                }
            },
            r matches Some(p) ==> (old(self).spec_last() matches Some(l) && spec_newer(
                spec_seq_number(p@),
                l,
            )),
    {
        if self.queue.len() == 0 {
            return None;
        }
        let l = match self.last_read_sn {
            Option::Some(x) => x,
            Option::None => {
                proof {
                    assert(false);
                }
                0
            },
        };
        let first_sn = self.queue[0].sequence_number();
        let d0 = seq_dist(first_sn, l);
        if d0 == 1 || self.queue.len() >= self.max_len {
            let p = self.queue.remove(0);
            self.last_read_sn = Some(first_sn);
            proof {
                assert(self.spec_seqs() =~= old(self).spec_seqs().drop_first());
                let newl = first_sn;
                assert(newl == old(self).spec_seqs()[0]);
                assert forall|i: int| 0 <= i < self.spec_seqs().len() implies spec_newer(
                    #[trigger] self.spec_seqs()[i],
                    newl,
                ) by {
                    let s = self.spec_seqs()[i];
                    assert(s == old(self).spec_seqs()[i + 1]);
                    assert(spec_seq_dist(s, l) > spec_seq_dist(newl, l));
                    lemma_dist_shift(s, newl, l);
                }
                assert forall|i: int, j: int|
                    0 <= i < j < self.spec_seqs().len() implies spec_seq_dist(
                    #[trigger] self.spec_seqs()[i],
                    newl,
                ) < spec_seq_dist(#[trigger] self.spec_seqs()[j], newl) by {
                    let a = self.spec_seqs()[i];
                    let b = self.spec_seqs()[j];
                    assert(a == old(self).spec_seqs()[i + 1]);
                    assert(b == old(self).spec_seqs()[j + 1]);
                    lemma_dist_shift(a, newl, l);
                    lemma_dist_shift(b, newl, l);
                }
            }
            Some(p)
        } else {
            None
        }
    }
}

/// Equal distances from the same point mean equal sequence numbers.
proof fn lemma_dist_inj(a: u16, b: u16, l: u16)
    requires
        spec_seq_dist(a, l) == spec_seq_dist(b, l),
    ensures
        a == b,
{
    let x = a as int;
    let y = b as int;
    let c = l as int;
    vstd::arithmetic::div_mod::lemma_mod_add_multiples_vanish(x - c, 0x10000);
    vstd::arithmetic::div_mod::lemma_mod_add_multiples_vanish(y - c, 0x10000);
    let da = spec_seq_dist(a, l) as int;
    assert((x - c) % 0x10000 == da);
    assert((y - c) % 0x10000 == da);
    assert((x + 0x10000 - c) % 0x10000 == da);
    assert((y + 0x10000 - c) % 0x10000 == da);
    let xx = x + 0x10000 - c;
    let yy = y + 0x10000 - c;
    assert(0 <= xx < 0x20000);
    assert(0 <= yy < 0x20000);
    vstd::arithmetic::div_mod::lemma_fundamental_div_mod(xx, 0x10000);
    vstd::arithmetic::div_mod::lemma_fundamental_div_mod(yy, 0x10000);
    assert(xx == 0x10000 * (xx / 0x10000) + da);
    assert(yy == 0x10000 * (yy / 0x10000) + da);
    assert(0 <= xx / 0x10000 <= 1) by (nonlinear_arith)
        requires
            0 <= xx < 0x20000,
    ;
    assert(0 <= yy / 0x10000 <= 1) by (nonlinear_arith)
        requires
            0 <= yy < 0x20000,
    ;
    assert(x == y || x - y == 0x10000 || y - x == 0x10000);
}

/// With `l` behind both `m` and `s`, and `s` strictly beyond `m` as seen
/// from `l`, the distance of `s` from `m` is the difference of distances.
proof fn lemma_dist_shift(s: u16, m: u16, l: u16)
    requires
        spec_seq_dist(s, l) > spec_seq_dist(m, l),
        spec_newer(s, l),
        spec_newer(m, l) || m == l,
    ensures
        spec_seq_dist(s, m) == spec_seq_dist(s, l) - spec_seq_dist(m, l),
        spec_newer(s, m),
{
    let a = s as int;
    let b = m as int;
    let c = l as int;
    vstd::arithmetic::div_mod::lemma_mod_add_multiples_vanish(a - c, 0x10000);
    vstd::arithmetic::div_mod::lemma_mod_add_multiples_vanish(b - c, 0x10000);
    vstd::arithmetic::div_mod::lemma_mod_add_multiples_vanish(a - b, 0x10000);
    let da = spec_seq_dist(s, l) as int;
    let db = spec_seq_dist(m, l) as int;
    assert((a - c) % 0x10000 == da);
    assert((b - c) % 0x10000 == db);
    assert((a - b) % 0x10000 == (da - db) % 0x10000) by {
        vstd::arithmetic::div_mod::lemma_mod_equivalence(a - c, da, 0x10000);
        vstd::arithmetic::div_mod::lemma_mod_equivalence(b - c, db, 0x10000);
        vstd::arithmetic::div_mod::lemma_sub_mod_noop(a - c, b - c, 0x10000);
        vstd::arithmetic::div_mod::lemma_mod_equivalence(a - b, (a - c) - (b - c), 0x10000);
        vstd::arithmetic::div_mod::lemma_sub_mod_noop(da, db, 0x10000);
    }
    assert(0 < da - db < 0x10000);
    assert((da - db) % 0x10000 == da - db) by {
        vstd::arithmetic::div_mod::lemma_small_mod((da - db) as nat, 0x10000);
    }
}


/// The queue's ordering, exported: with nothing delivered the queue is
/// empty; otherwise every buffered sequence number is ahead of the last
/// delivery, and they are held strictly nearest-first.
pub proof fn lemma_queue_ordered(q: &ReorderQueue)
    requires
        q.inv(),
    ensures
        q.spec_last() is None ==> q.spec_seqs().len() == 0,
        q.spec_last() matches Some(l) ==> (forall|i: int|
            0 <= i < q.spec_seqs().len() ==> spec_newer(#[trigger] q.spec_seqs()[i], l)) && (forall|
            i: int,
            j: int,
        |
            0 <= i < j < q.spec_seqs().len() ==> spec_seq_dist(#[trigger] q.spec_seqs()[i], l)
                < spec_seq_dist(#[trigger] q.spec_seqs()[j], l)),
{
}
} // verus!
