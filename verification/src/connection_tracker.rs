//! Tracks the transport connections the server currently serves, keyed by
//! their remote addresses, so the accept loop can hold the connection cap.

use vstd::prelude::*;
use crate::util::str_eq;

verus! {

/// One active connection: its remote address and when it arrived, in epoch
/// seconds.
#[derive(Debug, Clone)]
pub struct ConnectionInfo {
    pub remote_addr: String,
    pub connected_at: u64,
}

/// Whether some entry carries the address.
pub open spec fn holds_addr(conns: Seq<ConnectionInfo>, addr: Seq<char>) -> bool {
    exists|i: int| 0 <= i < conns.len() && conns[i].remote_addr@ == addr
}

/// The list with every entry for `addr` removed, order kept.
pub open spec fn remove_addr(conns: Seq<ConnectionInfo>, addr: Seq<char>) -> Seq<ConnectionInfo>
    decreases conns.len(),
{
    if conns.len() == 0 {
        Seq::empty()
    } else if conns[0].remote_addr@ == addr {
        remove_addr(conns.drop_first(), addr)
    } else {
        seq![conns[0]] + remove_addr(conns.drop_first(), addr)
    }
}

/// Extending the filtered list by one entry: a matching entry disappears,
/// any other is kept at the end.
proof fn lemma_remove_addr_push(conns: Seq<ConnectionInfo>, addr: Seq<char>, c: ConnectionInfo)
    ensures
        c.remote_addr@ == addr ==> remove_addr(conns.push(c), addr) == remove_addr(conns, addr),
        c.remote_addr@ != addr ==> remove_addr(conns.push(c), addr) == remove_addr(
            conns,
            addr,
        ).push(c),
    decreases conns.len(),
{
    if conns.len() == 0 {
        assert(conns.push(c)[0] == c);
        assert(conns.push(c).drop_first() =~= Seq::<ConnectionInfo>::empty());
        assert(remove_addr(Seq::<ConnectionInfo>::empty(), addr) == Seq::<
            ConnectionInfo,
        >::empty());
        if c.remote_addr@ != addr {
            assert(remove_addr(conns.push(c), addr) == seq![c] + Seq::<ConnectionInfo>::empty());
            assert(remove_addr(conns.push(c), addr) =~= remove_addr(conns, addr).push(c));
        } else {
            assert(remove_addr(conns.push(c), addr) =~= remove_addr(conns, addr));
        }
    } else {
        lemma_remove_addr_push(conns.drop_first(), addr, c);
        assert(conns.push(c)[0] == conns[0]);
        assert(conns.push(c).drop_first() =~= conns.drop_first().push(c));
        if c.remote_addr@ != addr && conns[0].remote_addr@ != addr {
            assert(seq![conns[0]] + remove_addr(conns.drop_first(), addr).push(c) =~= (
            seq![conns[0]] + remove_addr(conns.drop_first(), addr)).push(c));
        }
    }
}

/// The list of active connections, in arrival order.
pub struct ConnectionTracker {
    connections: Vec<ConnectionInfo>,
}

impl ConnectionTracker {
    /// The tracked connections, as the contracts see them.
    pub closed spec fn conns_spec(&self) -> Seq<ConnectionInfo> {
        self.connections@
    }

    /// A tracker with no connections.
    pub fn new() -> (r: ConnectionTracker)
        ensures
            r.conns_spec().len() == 0,
    {
        ConnectionTracker { connections: Vec::new() }
    }

    /// Records a new connection at the end of the list.
    pub fn register(&mut self, addr: String, now: u64)
        ensures
            final(self).conns_spec().len() == old(self).conns_spec().len() + 1,
            final(self).conns_spec() == old(self).conns_spec().push(
                ConnectionInfo { remote_addr: addr, connected_at: now },
            ),
    {
        self.connections.push(ConnectionInfo { remote_addr: addr, connected_at: now });
    }

    /// Drops exactly the connections with the given address; every other
    /// entry survives in order.
    pub fn unregister(&mut self, addr: &str)
        ensures
            final(self).conns_spec() == remove_addr(old(self).conns_spec(), addr@),
            !holds_addr(final(self).conns_spec(), addr@),
            final(self).conns_spec().len() <= old(self).conns_spec().len(),
    {
        let mut kept: Vec<ConnectionInfo> = Vec::new();
        let n = self.connections.len();
        let mut i: usize = 0;
        proof {
            assert(self.conns_spec().take(0) =~= Seq::<ConnectionInfo>::empty());
            assert(remove_addr(Seq::<ConnectionInfo>::empty(), addr@) =~= Seq::<
                ConnectionInfo,
            >::empty());
        }
        while i < n
            invariant
                n == self.conns_spec().len(),
                0 <= i <= n,
                kept@ =~= remove_addr(self.conns_spec().take(i as int), addr@),
            decreases n - i,
        {
            let c = &self.connections[i];
            let ghost k0 = kept@;
            let keep_it = !str_eq(c.remote_addr.as_str(), addr);
            if keep_it {
                kept.push(ConnectionInfo {
                    remote_addr: c.remote_addr.clone(),
                    connected_at: c.connected_at,
                });
            }
            proof {
                lemma_remove_addr_push(
                    self.conns_spec().take(i as int),
                    addr@,
                    self.conns_spec()[i as int],
                );
                assert(self.conns_spec().take(i + 1) =~= self.conns_spec().take(i as int).push(
                    self.conns_spec()[i as int],
                ));
                if keep_it {
                    assert(kept@ =~= k0.push(self.conns_spec()[i as int]));
                }
            }
            i = i + 1;
        }
        proof {
            assert(self.conns_spec().take(n as int) =~= self.conns_spec());
            Self::lemma_remove_addr_clean(self.conns_spec(), addr@);
        }
        self.connections = kept;
    }

    /// The filtered list never carries the removed address, and never
    /// grows.
    proof fn lemma_remove_addr_clean(conns: Seq<ConnectionInfo>, addr: Seq<char>)
        ensures
            !holds_addr(remove_addr(conns, addr), addr),
            remove_addr(conns, addr).len() <= conns.len(),
        decreases conns.len(),
    {
        if conns.len() > 0 {
            Self::lemma_remove_addr_clean(conns.drop_first(), addr);
            if conns[0].remote_addr@ != addr {
                let rest = remove_addr(conns.drop_first(), addr);
                if holds_addr(seq![conns[0]] + rest, addr) {
                    let j = choose|j: int|
                        0 <= j < (seq![conns[0]] + rest).len() && (#[trigger] (seq![conns[0]]
                            + rest)[j]).remote_addr@ == addr;
                    if j > 0 {
                        assert((seq![conns[0]] + rest)[j] == rest[j - 1]);
                    }
                }
            }
        }
    }

    /// How many connections are active.
    pub fn count(&self) -> (r: usize)
        ensures
            r == self.conns_spec().len(),
    {
        self.connections.len()
    }

    /// A copy of every active connection, in arrival order.
    pub fn get_all(&self) -> (r: Vec<ConnectionInfo>)
        ensures
            r@.len() == self.conns_spec().len(),
            forall|i: int| 0 <= i < r@.len() ==> (#[trigger] r@[i]).remote_addr@
                == self.conns_spec()[i].remote_addr@ && r@[i].connected_at
                == self.conns_spec()[i].connected_at,
    {
        let mut out: Vec<ConnectionInfo> = Vec::new();
        let n = self.connections.len();
        let mut i: usize = 0;
        while i < n
            invariant
                n == self.conns_spec().len(),
                0 <= i <= n,
                out@.len() == i,
                forall|j: int| 0 <= j < i ==> (#[trigger] out@[j]).remote_addr@
                    == self.conns_spec()[j].remote_addr@ && out@[j].connected_at
                    == self.conns_spec()[j].connected_at,
            decreases n - i,
        {
            let c = &self.connections[i];
            out.push(ConnectionInfo {
                remote_addr: c.remote_addr.clone(),
                connected_at: c.connected_at,
            });
            i = i + 1;
        }
        out
    }
}

} // verus!
