//! The server's table of connected clients, keyed by their address.

use vstd::prelude::*;
use crate::constants::ConnectionState;

verus! {

/// A client's socket address, as plain values: the IP address as a number
/// (an IPv4 address in the low 32 bits), the port, and for IPv6 the flow
/// information and scope identifier.
#[derive(Clone, Copy, Debug, PartialEq, Eq, Structural)]
pub struct PeerAddr {
    /// The IP address as a number.
    pub ip: u128,
    /// The port.
    pub port: u16,
    /// Whether the address is an IPv6 address.
    pub is_v6: bool,
    /// IPv6 flow information (zero for IPv4).
    pub flowinfo: u32,
    /// IPv6 scope identifier (zero for IPv4).
    pub scope_id: u32,
}

/// Whether no two entries have the same address.
pub open spec fn keys_distinct(entries: Seq<(PeerAddr, ConnectionState)>) -> bool {
    forall|i: int, j: int|
        0 <= i < j < entries.len() ==> #[trigger] entries[i].0 != #[trigger] entries[j].0
}

/// The map that a list of entries stands for (a later entry for an address
/// overrides an earlier one).
pub open spec fn entries_map(entries: Seq<(PeerAddr, ConnectionState)>) -> Map<PeerAddr, ConnectionState>
    decreases entries.len(),
{
    if entries.len() == 0 {
        Map::empty()
    } else {
        entries_map(entries.drop_last()).insert(entries.last().0, entries.last().1)
    }
}

proof fn lemma_entries_map_dom(entries: Seq<(PeerAddr, ConnectionState)>, k: PeerAddr)
    ensures
        entries_map(entries).contains_key(k) <==> exists|i: int| 0 <= i < entries.len() && entries[i].0 == k,
    decreases entries.len(),
{
    if entries.len() > 0 {
        let p = entries.drop_last();
        lemma_entries_map_dom(p, k);
        if entries_map(entries).contains_key(k) && entries.last().0 != k {
            let i = choose|i: int| 0 <= i < p.len() && p[i].0 == k;
            assert(entries[i].0 == k);
        }
        if exists|i: int| 0 <= i < entries.len() && entries[i].0 == k {
            let i = choose|i: int| 0 <= i < entries.len() && entries[i].0 == k;
            if i < p.len() {
                assert(p[i].0 == k);
            }
        }
    }
}

proof fn lemma_entries_map_value(entries: Seq<(PeerAddr, ConnectionState)>, i: int)
    requires
        keys_distinct(entries),
        0 <= i < entries.len(),
    ensures
        entries_map(entries).contains_key(entries[i].0),
        entries_map(entries)[entries[i].0] == entries[i].1,
    decreases entries.len(),
{
    let p = entries.drop_last();
    if i < entries.len() - 1 {
        assert(keys_distinct(p)) by {
            assert forall|a: int, b: int| 0 <= a < b < p.len() implies #[trigger] p[a].0 != #[trigger] p[b].0 by {
                assert(entries[a].0 != entries[b].0);
            }
        }
        lemma_entries_map_value(p, i);
        assert(entries[i].0 != entries.last().0);
    }
}

proof fn lemma_entries_map_update(entries: Seq<(PeerAddr, ConnectionState)>, i: int, v: ConnectionState)
    requires
        0 <= i < entries.len(),
    ensures
        entries_map(entries.update(i, (entries[i].0, v))) =~= entries_map(entries).insert(entries[i].0, v)
            || !keys_distinct(entries),
    decreases entries.len(),
{
    if keys_distinct(entries) {
        let u = entries.update(i, (entries[i].0, v));
        let p = entries.drop_last();
        if i == entries.len() - 1 {
            assert(u.drop_last() =~= p);
        } else {
            assert(u.drop_last() =~= p.update(i, (p[i].0, v)));
            assert(keys_distinct(p)) by {
                assert forall|a: int, b: int| 0 <= a < b < p.len() implies #[trigger] p[a].0 != #[trigger] p[b].0 by {
                    assert(entries[a].0 != entries[b].0);
                }
            }
            lemma_entries_map_update(p, i, v);
            assert(entries[i].0 != entries.last().0);
        }
    }
}

proof fn lemma_entries_map_len(entries: Seq<(PeerAddr, ConnectionState)>)
    requires
        keys_distinct(entries),
    ensures
        entries_map(entries).dom().finite(),
        entries_map(entries).dom().len() == entries.len(),
    decreases entries.len(),
{
    if entries.len() > 0 {
        let p = entries.drop_last();
        assert(keys_distinct(p)) by {
            assert forall|a: int, b: int| 0 <= a < b < p.len() implies #[trigger] p[a].0 != #[trigger] p[b].0 by {
                assert(entries[a].0 != entries[b].0);
            }
        }
        lemma_entries_map_len(p);
        lemma_entries_map_dom(p, entries.last().0);
        if entries_map(p).contains_key(entries.last().0) {
            let i = choose|i: int| 0 <= i < p.len() && p[i].0 == entries.last().0;
            assert(entries[i].0 != entries[entries.len() - 1].0);
        }
        assert(entries_map(entries).dom() =~= entries_map(p).dom().insert(entries.last().0));
    }
}

/// The connected clients and their protocol state. No address occurs twice.
pub struct ConnectionTable {
    entries: Vec<(PeerAddr, ConnectionState)>,
}

impl ConnectionTable {
    #[verifier::type_invariant]
    spec fn distinct(self) -> bool {
        keys_distinct(self.entries@)
    }

    /// The entries, in the order the clients first connected.
    pub closed spec fn entry_seq(self) -> Seq<(PeerAddr, ConnectionState)> {
        self.entries@
    }

    /// An empty table.
    pub fn new() -> (table: ConnectionTable)
        ensures
            table@ == Map::<PeerAddr, ConnectionState>::empty(),
            table.entry_seq().len() == 0,
    {
        ConnectionTable { entries: Vec::new() }
    }

    fn find(&self, peer: &PeerAddr) -> (r: Option<usize>)
        ensures
            match r {
                Some(i) => i < self.entries@.len() && self.entries@[i as int].0 == *peer,
                None => forall|i: int| 0 <= i < self.entries@.len() ==> self.entries@[i].0 != *peer,
            },
    {
        let mut i: usize = 0;
        while i < self.entries.len()
            invariant
                i <= self.entries@.len(),
                forall|j: int| 0 <= j < i ==> self.entries@[j].0 != *peer,
            decreases self.entries@.len() - i,
        {
            if self.entries[i].0 == *peer {
                return Some(i);
            }
            i = i + 1;
        }
        None
    }

    /// The number of connected clients.
    pub fn len(&self) -> (n: usize)
        ensures
            n == self.entry_seq().len(),
            n == self@.dom().len(),
    {
        proof {
            use_type_invariant(self);
            lemma_entries_map_len(self.entries@);
        }
        self.entries.len()
    }

    /// Whether `peer` is connected.
    pub fn contains_key(&self, peer: &PeerAddr) -> (r: bool)
        ensures
            r == self@.contains_key(*peer),
    {
        proof {
            use_type_invariant(self);
            lemma_entries_map_dom(self.entries@, *peer);
        }
        self.find(peer).is_some()
    }

    /// The state of `peer`'s connection, if it is connected.
    pub fn get(&self, peer: &PeerAddr) -> (r: Option<ConnectionState>)
        ensures
            r == (if self@.contains_key(*peer) {
                Some(self@[*peer])
            } else {
                None
            }),
    {
        proof {
            use_type_invariant(self);
            lemma_entries_map_dom(self.entries@, *peer);
        }
        match self.find(peer) {
            Some(i) => {
                proof {
                    lemma_entries_map_value(self.entries@, i as int);
                }
                Some(self.entries[i].1)
            },
            None => None,
        }
    }

    /// Sets the state of a connected `peer`; does nothing for any other address.
    pub fn set(&mut self, peer: &PeerAddr, state: ConnectionState)
        ensures
            final(self)@ == if old(self)@.contains_key(*peer) {
                old(self)@.insert(*peer, state)
            } else {
                old(self)@
            },
            final(self).entry_seq().len() == old(self).entry_seq().len(),
            forall|i: int| 0 <= i < final(self).entry_seq().len() ==> #[trigger] final(self).entry_seq()[i].0
                == old(self).entry_seq()[i].0,
    {
        proof {
            use_type_invariant(&*self);
            lemma_entries_map_dom(self.entries@, *peer);
        }
        match self.find(peer) {
            Some(i) => {
                let mut entries: Vec<(PeerAddr, ConnectionState)> = Vec::new();
                std::mem::swap(&mut entries, &mut self.entries);
                let ghost before = entries@;
                entries.set(i, (*peer, state));
                proof {
                    lemma_entries_map_update(before, i as int, state);
                    assert(keys_distinct(entries@)) by {
                        assert forall|a: int, b: int| 0 <= a < b < entries@.len()
                            implies #[trigger] entries@[a].0 != #[trigger] entries@[b].0 by {
                            assert(before[a].0 != before[b].0);
                        }
                    }
                }
                self.entries = entries;
            },
            None => {},
        }
    }

    /// Connects `peer` with `state` unless it is already connected (the
    /// `entry(..).or_insert(..)` of a map); returns the state it then has.
    pub fn insert_if_absent(&mut self, peer: &PeerAddr, state: ConnectionState) -> (r: ConnectionState)
        ensures
            final(self)@ == if old(self)@.contains_key(*peer) {
                old(self)@
            } else {
                old(self)@.insert(*peer, state)
            },
            final(self)@.contains_key(*peer),
            r == final(self)@[*peer],
            old(self)@.contains_key(*peer) ==> final(self).entry_seq() == old(self).entry_seq(),
            !old(self)@.contains_key(*peer) ==> final(self).entry_seq() == old(self).entry_seq().push((*peer, state)),
    {
        proof {
            use_type_invariant(&*self);
            lemma_entries_map_dom(self.entries@, *peer);
        }
        match self.find(peer) {
            Some(i) => {
                proof {
                    lemma_entries_map_value(self.entries@, i as int);
                }
                self.entries[i].1
            },
            None => {
                let mut entries: Vec<(PeerAddr, ConnectionState)> = Vec::new();
                std::mem::swap(&mut entries, &mut self.entries);
                let ghost before = entries@;
                entries.push((*peer, state));
                proof {
                    assert(entries@.drop_last() =~= before);
                    assert(keys_distinct(entries@)) by {
                        assert forall|a: int, b: int| 0 <= a < b < entries@.len()
                            implies #[trigger] entries@[a].0 != #[trigger] entries@[b].0 by {
                            if b < before.len() {
                                assert(before[a].0 != before[b].0);
                            } else {
                                assert(entries@[a].0 == before[a].0);
                            }
                        }
                    }
                }
                self.entries = entries;
                state
            },
        }
    }

    /// The connected addresses, in the order they first connected.
    pub fn keys(&self) -> (keys: Vec<PeerAddr>)
        ensures
            keys@.len() == self.entry_seq().len(),
            keys@.len() == self@.dom().len(),
            forall|i: int| 0 <= i < keys@.len() ==> #[trigger] keys@[i] == self.entry_seq()[i].0,
            keys@.no_duplicates(),
            forall|k: PeerAddr| #[trigger] self@.contains_key(k) <==> keys@.contains(k),
    {
        proof {
            use_type_invariant(self);
            lemma_entries_map_len(self.entries@);
        }
        let mut keys: Vec<PeerAddr> = Vec::new();
        let mut i: usize = 0;
        while i < self.entries.len()
            invariant
                i <= self.entries@.len(),
                keys@.len() == i,
                forall|j: int| 0 <= j < i ==> #[trigger] keys@[j] == self.entries@[j].0,
            decreases self.entries@.len() - i,
        {
            keys.push(self.entries[i].0);
            i = i + 1;
        }
        proof {
            assert forall|a: int, b: int| 0 <= a < keys@.len() && 0 <= b < keys@.len() && a != b
                implies keys@[a] != keys@[b] by {
                if a < b {
                    assert(self.entries@[a].0 != self.entries@[b].0);
                } else {
                    assert(self.entries@[b].0 != self.entries@[a].0);
                }
            }
            assert forall|k: PeerAddr| #[trigger] self@.contains_key(k) <==> keys@.contains(k) by {
                lemma_entries_map_dom(self.entries@, k);
                if keys@.contains(k) {
                    let i = choose|i: int| 0 <= i < keys@.len() && keys@[i] == k;
                    assert(self.entries@[i].0 == k);
                }
                if self@.contains_key(k) {
                    let i = choose|i: int| 0 <= i < self.entries@.len() && self.entries@[i].0 == k;
                    assert(keys@[i] == k);
                }
            }
        }
        keys
    }

    /// The entries, in the order the clients first connected.
    pub fn entries(&self) -> (entries: Vec<(PeerAddr, ConnectionState)>)
        ensures
            entries@ == self.entry_seq(),
            keys_distinct(entries@),
            entries_map(entries@) == self@,
            forall|i: int| 0 <= i < entries@.len() ==> #[trigger] self@.contains_key(entries@[i].0)
                && self@[entries@[i].0] == entries@[i].1,
            forall|k: PeerAddr| #[trigger] self@.contains_key(k) ==> exists|i: int|
                0 <= i < entries@.len() && entries@[i].0 == k,
    {
        proof {
            use_type_invariant(self);
            assert forall|i: int| 0 <= i < self.entries@.len() implies #[trigger] self@.contains_key(self.entries@[i].0)
                && self@[self.entries@[i].0] == self.entries@[i].1 by {
                lemma_entries_map_value(self.entries@, i);
            }
            assert forall|k: PeerAddr| #[trigger] self@.contains_key(k) implies exists|i: int|
                0 <= i < self.entries@.len() && self.entries@[i].0 == k by {
                lemma_entries_map_dom(self.entries@, k);
            }
        }
        let mut entries: Vec<(PeerAddr, ConnectionState)> = Vec::new();
        let mut i: usize = 0;
        while i < self.entries.len()
            invariant
                i <= self.entries@.len(),
                entries@ == self.entries@.take(i as int),
            decreases self.entries@.len() - i,
        {
            entries.push(self.entries[i]);
            i = i + 1;
            assert(entries@ =~= self.entries@.take(i as int));
        }
        assert(self.entries@.take(i as int) =~= self.entries@);
        entries
    }
}

impl View for ConnectionTable {
    type V = Map<PeerAddr, ConnectionState>;

    closed spec fn view(&self) -> Map<PeerAddr, ConnectionState> {
        entries_map(self.entries@)
    }
}

} // verus!
