//! The correlation table: every forwarded sub-query's transaction id maps to
//! the arena slot of the exchange it belongs to. An exchange's slot is freed
//! exactly when its last expected answer arrives.
use crate::converter::packet::group_encodable;
use crate::converter::packet::spec_answers_model;
use crate::converter::packet::spec_assembled_bytes;
use crate::converter::packet::spec_response_header_for;
use crate::converter::packet::PendingPacket;
use crate::converter::packet::UdpPacket;
use crate::section::SectionGroup;
use vstd::prelude::*;

verus! {

/// How many table entries point at arena slot `s`.
pub open spec fn refs_count(table: Seq<Option<usize>>, s: int) -> nat
    decreases table.len(),
{
    if table.len() == 0 {
        0
    } else {
        refs_count(table.drop_last(), s) + match table.last() {
            Option::Some(v) => if v == s {
                1nat
            } else {
                0nat
            },
            Option::None => 0nat,
        }
    }
}

/// Whether one table cell points at slot `s`.
pub open spec fn is_ref(cell: Option<usize>, s: int) -> nat {
    match cell {
        Option::Some(v) => if v == s {
            1nat
        } else {
            0nat
        },
        Option::None => 0nat,
    }
}

/// Updating one cell changes the count for `s` by exactly the difference the
/// cell contributes.
pub proof fn lemma_refs_update(table: Seq<Option<usize>>, i: int, x: Option<usize>, s: int)
    requires
        0 <= i < table.len(),
    ensures
        refs_count(table.update(i, x), s) + is_ref(table[i], s) == refs_count(table, s) + is_ref(
            x,
            s,
        ),
    decreases table.len(),
{
    let u = table.update(i, x);
    if i == table.len() - 1 {
        assert(u.drop_last() =~= table.drop_last());
        assert(u.last() == x);
    } else {
        assert(u.drop_last() =~= table.drop_last().update(i, x));
        assert(u.last() == table.last());
        lemma_refs_update(table.drop_last(), i, x, s);
    }
}

/// A cell pointing at `s` makes the count for `s` at least one.
pub proof fn lemma_refs_present(table: Seq<Option<usize>>, i: int, s: int)
    requires
        0 <= i < table.len(),
        table[i] == Option::Some(s as usize),
        0 <= s <= usize::MAX,
    ensures
        refs_count(table, s) >= 1,
    decreases table.len(),
{
    if i == table.len() - 1 {
        assert(table.last() == table[i]);
    } else {
        assert(table.drop_last()[i] == table[i]);
        lemma_refs_present(table.drop_last(), i, s);
    }
}

/// A slot no cell points at has count zero.
pub proof fn lemma_refs_absent(table: Seq<Option<usize>>, s: int)
    requires
        forall|i: int| 0 <= i < table.len() ==> table[i] != Option::Some(s as usize),
        s >= 0,
    ensures
        refs_count(table, s) == 0,
    decreases table.len(),
{
    if table.len() > 0 {
        lemma_refs_absent(table.drop_last(), s);
    }
}

/// An exchange the table may hold: within counts a 16-bit header can carry,
/// not yet complete, and with every gathered answer re-encodable.
pub open spec fn pending_wf(p: PendingPacket) -> bool {
    &&& 1 <= p.capacity <= 0xFFFF
    &&& p.qsection.groups@.len() <= 0xFFFF
    &&& p.a_section_groups@.len() < p.capacity
    &&& forall|i: int|
        0 <= i < p.a_section_groups@.len() ==> group_encodable(
            #[trigger] p.a_section_groups@[i].model(),
        )
}

/// Maps each locally allocated transaction id to the arena slot of the
/// exchange its forwarded sub-query belongs to. Ids are allocated from a
/// wrapping 16-bit counter; slots are never reused.
#[derive(Debug)]
pub struct Transcriber {
    pub txid_to_pending: Vec<Option<usize>>,
    pub arena: Vec<Option<PendingPacket>>,
    pub txid: u16,
}

impl Transcriber {
    /// The table covers every 16-bit id; every entry points at a live,
    /// well-formed exchange; and an exchange's outstanding sub-queries plus
    /// its gathered answers never exceed its capacity.
    pub open spec fn wf(self) -> bool {
        &&& self.txid_to_pending@.len() == 0x10000
        &&& forall|t: int|
            0 <= t < 0x10000 ==> match #[trigger] self.txid_to_pending@[t] {
                Option::Some(s) => s < self.arena@.len() && self.arena@[s as int] is Some,
                Option::None => true,
            }
        &&& forall|s: int|
            0 <= s < self.arena@.len() ==> match #[trigger] self.arena@[s] {
                Option::Some(p) => pending_wf(p) && refs_count(self.txid_to_pending@, s)
                    + p.a_section_groups@.len() <= p.capacity,
                Option::None => true,
            }
    }

    /// The slot an id currently maps to, if any.
    pub open spec fn spec_lookup(self, txid: u16) -> Option<usize> {
        self.txid_to_pending@[txid as int]
    }

    /// An empty table: no ids mapped, no exchanges, the counter at zero.
    pub fn new() -> (r: Self)
        ensures
            r.wf(),
            r.txid == 0,
            r.arena@.len() == 0,
            forall|t: int| 0 <= t < 0x10000 ==> #[trigger] r.txid_to_pending@[t] is None,
    {
        let table: Vec<Option<usize>> = vec![Option::None; 0x10000];
        let r = Transcriber { txid_to_pending: table, arena: Vec::new(), txid: 0 };
        r
    }

    pub fn txid(&self) -> (r: u16)
        ensures
            r == self.txid,
    {
        self.txid
    }

    /// Whether an id currently has a forwarded sub-query outstanding.
    pub fn has_pending(&self, txid: u16) -> (r: bool)
        requires
            self.wf(),
        ensures
            r == (self.spec_lookup(txid) is Some),
    {
        match self.txid_to_pending[txid as usize] {
            Option::Some(s) => true,
            Option::None => false,
        }
    }

    /// Park a fresh exchange in the arena, handing back its slot for the
    /// sub-query registrations that follow.
    pub fn add_packet(&mut self, p: PendingPacket) -> (slot: usize)
        requires
            old(self).wf(),
            p.a_section_groups@.len() == 0,
            1 <= p.capacity <= 0xFFFF,
            p.qsection.groups@.len() <= 0xFFFF,
        ensures
            final(self).wf(),
            slot == old(self).arena@.len(),
            final(self).arena@ == old(self).arena@.push(Option::Some(p)),
            final(self).txid_to_pending == old(self).txid_to_pending,
            final(self).txid == old(self).txid,
    {
        let slot = self.arena.len();
        self.arena.push(Option::Some(p));
        proof {
            assert forall|t: int| 0 <= t < 0x10000 implies self.txid_to_pending@[t]
                != Option::Some(slot) by {
                match old(self).txid_to_pending@[t] {
                    Option::Some(s2) => {
                        assert(s2 < old(self).arena@.len());
                    },
                    Option::None => {},
                }
            }
            lemma_refs_absent(self.txid_to_pending@, slot as int);
        }
        slot
    }

    /// Register the next forwarded sub-query: the current id is bound to
    /// `slot` and the counter steps on, wrapping from 0xFFFF back to 0.
    pub fn insert(&mut self, slot: usize)
        requires
            old(self).wf(),
            slot < old(self).arena@.len(),
            old(self).arena@[slot as int] is Some,
            ({
                let p = old(self).arena@[slot as int]->Some_0;
                refs_count(old(self).txid_to_pending@, slot as int) + p.a_section_groups@.len() + 1
                    <= p.capacity
            }),
        ensures
            final(self).wf(),
            final(self).txid_to_pending@ == old(self).txid_to_pending@.update(
                old(self).txid as int,
                Option::Some(slot),
            ),
            final(self).arena == old(self).arena,
            final(self).txid == spec_next_txid(old(self).txid),
            refs_count(final(self).txid_to_pending@, slot as int) == refs_count(
                old(self).txid_to_pending@,
                slot as int,
            ) + 1 - is_ref(old(self).txid_to_pending@[old(self).txid as int], slot as int),
    {
        let t = self.txid as usize;
        self.txid_to_pending[t] = Option::Some(slot);
        if self.txid == 0xFFFF {
            self.txid = 0;
        } else {
            self.txid = self.txid + 1;
        }
        proof {
            let old_table = old(self).txid_to_pending@;
            assert(self.txid_to_pending@ =~= old_table.update(t as int, Option::Some(slot)));
            assert forall|s: int|
                0 <= s < self.arena@.len() && self.arena@[s] is Some implies pending_wf(
                self.arena@[s]->Some_0,
            ) && refs_count(self.txid_to_pending@, s)
                + self.arena@[s]->Some_0.a_section_groups@.len()
                <= self.arena@[s]->Some_0.capacity by {
                lemma_refs_update(old_table, t as int, Option::Some(slot), s);
            }
            lemma_refs_update(old_table, t as int, Option::Some(slot), slot as int);
        }
    }

    /// Route one answer record home. The id's entry leaves the table; the
    /// answer joins its exchange; and exactly when the exchange reaches its
    /// capacity, it leaves the arena and comes back assembled as the final
    /// outgoing packet with the opaque address handle of its client.
    pub fn receive_and_delete(&mut self, txid: u16, section_group: SectionGroup) -> (r: Option<
        (UdpPacket, u64),
    >)
        requires
            old(self).wf(),
            old(self).spec_lookup(txid) is Some,
            group_encodable(section_group.model()),
        ensures
            final(self).wf(),
            final(self).txid == old(self).txid,
            final(self).txid_to_pending@ == old(self).txid_to_pending@.update(
                txid as int,
                Option::None,
            ),
            final(self).arena@.len() == old(self).arena@.len(),
            ({
                let slot = old(self).spec_lookup(txid)->Some_0 as int;
                let p = old(self).arena@[slot]->Some_0;
                let new_answers = spec_answers_model(p).push(section_group.model());
                &&& forall|s2: int|
                    0 <= s2 < old(self).arena@.len() && s2 != slot ==> final(self).arena@[s2]
                        == old(self).arena@[s2]
                &&& if p.a_section_groups@.len() + 1 == p.capacity {
                    &&& final(self).arena@[slot] is None
                    &&& r is Some
                    &&& r->Some_0.1 == p.addr_hdr.0
                    &&& r->Some_0.0.raw@ == spec_assembled_bytes(p, new_answers)
                } else {
                    &&& final(self).arena@[slot] is Some
                    &&& ({
                        let q = final(self).arena@[slot]->Some_0;
                        &&& q.addr_hdr == p.addr_hdr
                        &&& q.rcode == p.rcode
                        &&& q.capacity == p.capacity
                        &&& q.qsection == p.qsection
                        &&& q.a_section_groups@ == p.a_section_groups@.push(section_group)
                    })
                    &&& r is None
                }
            }),
    {
        let t = txid as usize;
        let slot = match self.txid_to_pending[t] {
            Option::Some(s) => s,
            Option::None => vstd::pervasive::unreached(),
        };
        self.txid_to_pending[t] = Option::None;
        proof {
            lemma_refs_present(old(self).txid_to_pending@, t as int, slot as int);
            assert forall|s: int| 0 <= s < old(self).arena@.len() implies refs_count(
                self.txid_to_pending@,
                s,
            ) + is_ref(old(self).txid_to_pending@[t as int], s) == refs_count(
                old(self).txid_to_pending@,
                s,
            ) by {
                lemma_refs_update(old(self).txid_to_pending@, t as int, Option::None, s);
            }
        }
        let pending_opt = self.arena[slot].take();
        let mut pending = match pending_opt {
            Option::Some(p) => p,
            Option::None => vstd::pervasive::unreached(),
        };
        let ghost gslot = slot as int;
        let ghost p = old(self).arena@[gslot]->Some_0;
        let ghost new_table = self.txid_to_pending@;
        let full = pending.insert_section_group(section_group);
        proof {
            assert(spec_answers_model(pending) =~= spec_answers_model(p).push(
                section_group.model(),
            ));
            assert forall|i: int| 0 <= i < pending.a_section_groups@.len() implies group_encodable(
                #[trigger] pending.a_section_groups@[i].model(),
            ) by {
                if i < p.a_section_groups@.len() {
                    assert(pending.a_section_groups@[i] == p.a_section_groups@[i]);
                }
            }
            assert(refs_count(new_table, gslot) + is_ref(old(self).txid_to_pending@[t as int], gslot)
                == refs_count(old(self).txid_to_pending@, gslot));
            assert(is_ref(old(self).txid_to_pending@[t as int], gslot) == 1);
        }
        if full {
            proof {
                // the exchange was at capacity, so this was its last
                // outstanding sub-query: nothing points at the freed slot
                assert(refs_count(old(self).txid_to_pending@, gslot)
                    + p.a_section_groups@.len() <= p.capacity);
                assert(refs_count(new_table, gslot) == 0);
                assert forall|t2: int| 0 <= t2 < 0x10000 implies new_table[t2] != Option::Some(
                    slot,
                ) by {
                    if new_table[t2] == Option::Some(slot) {
                        lemma_refs_present(new_table, t2, gslot);
                    }
                }
                assert(spec_response_header_for(pending, spec_answers_model(pending).len())
                    == spec_response_header_for(p, spec_answers_model(pending).len()));
                assert forall|s: int|
                    0 <= s < self.arena@.len() && self.arena@[s] is Some implies pending_wf(
                    self.arena@[s]->Some_0,
                ) && refs_count(new_table, s)
                    + self.arena@[s]->Some_0.a_section_groups@.len()
                    <= self.arena@[s]->Some_0.capacity by {
                    assert(self.arena@[s] == old(self).arena@[s]);
                }
            }
            Option::Some(pending.into_packet())
        } else {
            self.arena[slot] = Option::Some(pending);
            proof {
                assert(self.arena@ =~= old(self).arena@.update(gslot, Option::Some(pending)));
                assert(pending_wf(pending));
                assert forall|s: int|
                    0 <= s < self.arena@.len() && self.arena@[s] is Some implies pending_wf(
                    self.arena@[s]->Some_0,
                ) && refs_count(new_table, s)
                    + self.arena@[s]->Some_0.a_section_groups@.len()
                    <= self.arena@[s]->Some_0.capacity by {
                    if s != gslot {
                        assert(self.arena@[s] == old(self).arena@[s]);
                    }
                }
            }
            Option::None
        }
    }
}

/// The id that follows `t` in allocation order: one more, wrapping from the
/// largest 16-bit value back to zero.
pub open spec fn spec_next_txid(t: u16) -> u16 {
    if t == 0xFFFF {
        0
    } else {
        (t + 1) as u16
    }
}

/// The id allocated by the `n`-th registration after the counter stood at
/// `t0`.
pub open spec fn spec_txid_iter(t0: u16, n: nat) -> u16
    decreases n,
{
    if n == 0 {
        t0
    } else {
        spec_next_txid(spec_txid_iter(t0, (n - 1) as nat))
    }
}

/// Stepping the counter `n` times lands on the sum taken modulo the 16-bit
/// range.
pub proof fn lemma_txid_iter_mod(t0: u16, n: nat)
    ensures
        spec_txid_iter(t0, n) == ((t0 + n) % 0x10000) as u16,
    decreases n,
{
    if n == 0 {
        vstd::arithmetic::div_mod::lemma_small_mod(t0 as nat, 0x10000);
    } else {
        lemma_txid_iter_mod(t0, (n - 1) as nat);
        let prev = spec_txid_iter(t0, (n - 1) as nat);
        vstd::arithmetic::div_mod::lemma_add_mod_noop(t0 + n - 1, 1, 0x10000);
        vstd::arithmetic::div_mod::lemma_small_mod(1, 0x10000);
        if prev == 0xFFFF {
            assert((0xFFFF + 1) % 0x10000 == 0) by (nonlinear_arith);
        } else {
            vstd::arithmetic::div_mod::lemma_small_mod((prev + 1) as nat, 0x10000);
        }
    }
}

/// Law: the allocator hands out 65536 consecutive ids without repeating one,
/// and steps from the largest id straight back to zero.
pub proof fn lemma_txid_wraparound(t0: u16, i: nat, j: nat)
    requires
        i < j,
        j < 0x10000,
    ensures
        spec_txid_iter(t0, i) != spec_txid_iter(t0, j),
        spec_next_txid(0xFFFF) == 0,
{
    lemma_txid_iter_mod(t0, i);
    lemma_txid_iter_mod(t0, j);
    let m = 0x10000int;
    let x = t0 + i;
    let y = t0 + j;
    if (x % m) == (y % m) {
        vstd::arithmetic::div_mod::lemma_fundamental_div_mod(x, m);
        vstd::arithmetic::div_mod::lemma_fundamental_div_mod(y, m);
        let qx = x / m;
        let qy = y / m;
        assert(y - x == m * (qy - qx)) by (nonlinear_arith)
            requires
                x == m * qx + (x % m),
                y == m * qy + (y % m),
                (x % m) == (y % m),
        ;
        assert(qy - qx >= 1 ==> m * (qy - qx) >= m) by (nonlinear_arith)
            requires
                m == 0x10000int,
        ;
        assert(qy - qx <= 0 ==> m * (qy - qx) <= 0) by (nonlinear_arith)
            requires
                m == 0x10000int,
        ;
        assert(false);
    }
}

} // verus!
