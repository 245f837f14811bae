//! The request multiplexer: a waiter table correlating responses and SSE
//! events with the requests that wait for them.
//!
//! Each registered id owns a queue of undelivered messages.  While the
//! waiter is open, `handle_response` appends to that queue, in call order;
//! removing the waiter (or a disconnect) closes it, after which its
//! receiver drains what was already delivered and then observes closure.

use vstd::prelude::*;
use crate::messages::{Message, msg_id};
use crate::strmap::{
    StrMap, has_key, value_of, find_key, lemma_find_key, lemma_find_key_same_keys,
    lemma_insert_lookup, lemma_remove_lookup, unique_keys,
};

verus! {

/// What polling a waiter yields.
pub enum RecvOutcome {
    /// The next delivered message, in `handle_response` order.
    Msg(Message),
    /// Nothing delivered yet, but the waiter is still open.
    Pending,
    /// The waiter is closed and its queue is drained.
    Closed,
}

/// A waiter table at the specification level: ids with their queues of
/// undelivered messages.
pub type WaitersV = Seq<(Seq<char>, Seq<Message>)>;

/// The specification-level table a `StrMap` of queues denotes.
pub open spec fn waiters_view(m: Seq<(Seq<char>, Vec<Message>)>) -> WaitersV {
    Seq::new(m.len(), |i: int| (m[i].0, m[i].1@))
}

/// One poll of the waiter `id`: a queued message is taken from the front,
/// an open empty waiter is pending, and a closed drained waiter reports
/// closure and disappears.
pub open spec fn poll_step(open: WaitersV, closed: WaitersV, id: Seq<char>) -> (
    WaitersV,
    WaitersV,
    RecvOutcome,
) {
    if has_key(open, id) {
        let i = find_key(open, id)->Some_0;
        let q = value_of(open, id);
        if q.len() > 0 {
            (open.update(i, (id, q.drop_first())), closed, RecvOutcome::Msg(q[0]))
        } else {
            (open, closed, RecvOutcome::Pending)
        }
    } else if has_key(closed, id) {
        let i = find_key(closed, id)->Some_0;
        let q = value_of(closed, id);
        if q.len() > 0 {
            (open, closed.update(i, (id, q.drop_first())), RecvOutcome::Msg(q[0]))
        } else {
            (open, closed.remove(i), RecvOutcome::Closed)
        }
    } else {
        (open, closed, RecvOutcome::Closed)
    }
}

/// Multiplexes concurrent CLI and HTTP requests over a single connection.
pub struct Multiplexer {
    open_waiters: StrMap<Vec<Message>>,
    closed_waiters: StrMap<Vec<Message>>,
}

impl Multiplexer {
    /// The open waiters: id to queue of undelivered messages.
    pub closed spec fn open_spec(&self) -> WaitersV {
        waiters_view(self.open_waiters@)
    }

    /// The closed waiters still holding undelivered messages.
    pub closed spec fn closed_spec(&self) -> WaitersV {
        waiters_view(self.closed_waiters@)
    }

    /// Both tables keep unique ids.
    pub closed spec fn wf(&self) -> bool {
        self.open_waiters.wf() && self.closed_waiters.wf()
    }

    /// Raw and specification-level lookups agree.
    proof fn lemma_views(&self, r: Seq<char>)
        ensures
            find_key(self.open_spec(), r) == find_key(self.open_waiters@, r),
            find_key(self.closed_spec(), r) == find_key(self.closed_waiters@, r),
            has_key(self.open_spec(), r) == has_key(self.open_waiters@, r),
            has_key(self.closed_spec(), r) == has_key(self.closed_waiters@, r),
            has_key(self.open_waiters@, r) ==> value_of(self.open_spec(), r) == value_of(
                self.open_waiters@,
                r,
            )@,
            has_key(self.closed_waiters@, r) ==> value_of(self.closed_spec(), r) == value_of(
                self.closed_waiters@,
                r,
            )@,
            self.open_waiters.wf() ==> unique_keys(self.open_spec()),
            self.closed_waiters.wf() ==> unique_keys(self.closed_spec()),
    {
        lemma_find_key_same_keys(self.open_spec(), self.open_waiters@, r);
        lemma_find_key_same_keys(self.closed_spec(), self.closed_waiters@, r);
        lemma_find_key(self.open_waiters@, r);
        lemma_find_key(self.closed_waiters@, r);
        lemma_find_key(self.open_spec(), r);
        lemma_find_key(self.closed_spec(), r);
        if self.open_waiters.wf() {
            assert forall|a: int, b: int|
                0 <= a < b < self.open_spec().len() implies self.open_spec()[a].0
                != self.open_spec()[b].0 by {
                assert(self.open_spec()[a].0 == self.open_waiters@[a].0);
                assert(self.open_spec()[b].0 == self.open_waiters@[b].0);
            }
        }
        if self.closed_waiters.wf() {
            assert forall|a: int, b: int|
                0 <= a < b < self.closed_spec().len() implies self.closed_spec()[a].0
                != self.closed_spec()[b].0 by {
                assert(self.closed_spec()[a].0 == self.closed_waiters@[a].0);
                assert(self.closed_spec()[b].0 == self.closed_waiters@[b].0);
            }
        }
    }

    /// What the private invariant gives a caller: both tables keep unique
    /// ids, so the specification-level lemmas apply to any well-formed
    /// multiplexer.
    pub proof fn lemma_wf_unique(&self)
        requires
            self.wf(),
        ensures
            unique_keys(self.open_spec()),
            unique_keys(self.closed_spec()),
    {
        self.lemma_views(Seq::empty());
    }

    /// A multiplexer with no waiters.
    pub fn new() -> (r: Multiplexer)
        ensures
            r.open_spec().len() == 0,
            r.closed_spec().len() == 0,
            r.wf(),
    {
        Multiplexer { open_waiters: StrMap::new(), closed_waiters: StrMap::new() }
    }

    /// Registers a waiter for a request id, with an empty queue.  A stale
    /// closed waiter under the same id is dropped.
    pub fn register_waiter(&mut self, id: String)
        requires
            old(self).wf(),
        ensures
            final(self).wf(),
            has_key(final(self).open_spec(), id@),
            value_of(final(self).open_spec(), id@) == Seq::<Message>::empty(),
            final(self).open_spec().len() == old(self).open_spec().len() + (if has_key(old(self).open_spec(), id@) { 0int } else { 1int }),
            forall|r: Seq<char>| r != id@ ==> (#[trigger] has_key(final(self).open_spec(), r)
                <==> has_key(old(self).open_spec(), r)),
            forall|r: Seq<char>| r != id@ && #[trigger] has_key(old(self).open_spec(), r)
                ==> value_of(final(self).open_spec(), r) == value_of(old(self).open_spec(), r),
            !has_key(final(self).closed_spec(), id@),
            forall|r: Seq<char>| r != id@ ==> (#[trigger] has_key(final(self).closed_spec(), r)
                <==> has_key(old(self).closed_spec(), r)),
            forall|r: Seq<char>| r != id@ && #[trigger] has_key(old(self).closed_spec(), r)
                ==> value_of(final(self).closed_spec(), r) == value_of(
                old(self).closed_spec(),
                r,
            ),
    {
        let ghost idv = id@;
        proof {
            old(self).lemma_views(idv);
            lemma_find_key(self.closed_waiters@, idv);
        }
        let ghost c0 = self.closed_waiters@;
        let _ = self.closed_waiters.remove(id.as_str());
        let ghost o0 = self.open_waiters@;
        let q: Vec<Message> = Vec::new();
        proof {
            lemma_find_key(o0, idv);
            lemma_remove_lookup(c0, self.closed_waiters@, idv);
        }
        self.open_waiters.insert(id, q);
        proof {
            lemma_insert_lookup(o0, self.open_waiters@, idv, q);
            self.lemma_views(idv);
            assert forall|r: Seq<char>| true implies #[trigger] find_key(self.open_spec(), r)
                == find_key(self.open_waiters@, r) && find_key(self.closed_spec(), r)
                == find_key(self.closed_waiters@, r) by {
                lemma_find_key_same_keys(self.open_spec(), self.open_waiters@, r);
                lemma_find_key_same_keys(self.closed_spec(), self.closed_waiters@, r);
            }
            assert forall|r: Seq<char>| r != idv && #[trigger] has_key(old(self).open_spec(), r)
                implies value_of(self.open_spec(), r) == value_of(old(self).open_spec(), r) by {
                old(self).lemma_views(r);
                self.lemma_views(r);
            }
            assert forall|r: Seq<char>| r != idv && #[trigger] has_key(old(self).closed_spec(), r)
                implies value_of(self.closed_spec(), r) == value_of(old(self).closed_spec(), r) by {
                old(self).lemma_views(r);
                self.lemma_views(r);
            }
            assert forall|r: Seq<char>| r != idv implies (#[trigger] has_key(self.open_spec(), r)
                <==> has_key(old(self).open_spec(), r)) by {
                old(self).lemma_views(r);
                self.lemma_views(r);
            }
            assert forall|r: Seq<char>| r != idv implies (#[trigger] has_key(self.closed_spec(), r)
                <==> has_key(old(self).closed_spec(), r)) by {
                old(self).lemma_views(r);
                self.lemma_views(r);
            }
        }
    }

    /// Delivers a message: it is appended to the queue of the waiter
    /// registered under the message's id, and dropped when no open waiter
    /// holds that id or the message carries none.  Messages for one id are
    /// therefore delivered in the order `handle_response` was called.
    pub fn handle_response(&mut self, msg: Message)
        requires
            old(self).wf(),
        ensures
            final(self).wf(),
            final(self).closed_spec() == old(self).closed_spec(),
            ({
                match msg_id(msg@) {
                    None => final(self).open_spec() == old(self).open_spec(),
                    Some(id) => {
                        &&& (!has_key(old(self).open_spec(), id) ==> final(self).open_spec()
                            == old(self).open_spec())
                        &&& (has_key(old(self).open_spec(), id) ==> has_key(
                            final(self).open_spec(),
                            id,
                        ) && value_of(final(self).open_spec(), id) == value_of(
                            old(self).open_spec(),
                            id,
                        ).push(msg))
                        &&& (forall|r: Seq<char>| r != id ==> (#[trigger] has_key(
                            final(self).open_spec(),
                            r,
                        ) <==> has_key(old(self).open_spec(), r)))
                        &&& (forall|r: Seq<char>| r != id && #[trigger] has_key(
                            old(self).open_spec(),
                            r,
                        ) ==> value_of(final(self).open_spec(), r) == value_of(
                            old(self).open_spec(),
                            r,
                        ))
                    },
                }
            }),
    {
        let id: String = match msg.id() {
            Some(s) => s.to_owned(),
            None => {
                return ;
            },
        };
        proof {
            old(self).lemma_views(id@);
            lemma_find_key(self.open_waiters@, id@);
        }
        let ghost o0 = self.open_waiters@;
        let empty: Vec<Message> = Vec::new();
        match self.open_waiters.swap_value(id.as_str(), empty) {
            Some(mut q) => {
                let ghost o1 = self.open_waiters@;
                let ghost q0 = q@;
                q.push(msg);
                proof {
                    lemma_find_key(o1, id@);
                    lemma_find_key(o0, id@);
                    let i = find_key(o0, id@)->Some_0;
                    assert(o1 == o0.update(i, (o0[i].0, empty)));
                    lemma_find_key_same_keys(o1, o0, id@);
                }
                let _ = self.open_waiters.swap_value(id.as_str(), q);
                proof {
                    let i = find_key(o0, id@)->Some_0;
                    assert(self.open_waiters@ =~= o0.update(i, (o0[i].0, q)));
                    assert(o0[i].0 == id@);
                    lemma_insert_lookup(o0, self.open_waiters@, id@, q);
                    self.lemma_views(id@);
                    assert(value_of(self.open_spec(), id@) == q@);
                    assert(q@ == value_of(old(self).open_spec(), id@).push(msg));
                    assert forall|r: Seq<char>| r != id@ implies (#[trigger] has_key(
                        self.open_spec(),
                        r,
                    ) <==> has_key(old(self).open_spec(), r)) by {
                        old(self).lemma_views(r);
                        self.lemma_views(r);
                    }
                    assert forall|r: Seq<char>| r != id@ && #[trigger] has_key(
                        old(self).open_spec(),
                        r,
                    ) implies value_of(self.open_spec(), r) == value_of(
                        old(self).open_spec(),
                        r,
                    ) by {
                        old(self).lemma_views(r);
                        self.lemma_views(r);
                    }
                    assert(self.closed_spec() == old(self).closed_spec());
                }
            },
            None => {},
        }
    }

    /// Closes the waiter for `id`: the entry keeps its queue but moves to
    /// the closed table, and later deliveries for `id` are dropped.
    pub fn remove_waiter(&mut self, id: &str)
        requires
            old(self).wf(),
        ensures
            final(self).wf(),
            !has_key(final(self).open_spec(), id@),
            final(self).open_spec().len() == old(self).open_spec().len() - (if has_key(old(self).open_spec(), id@) { 1int } else { 0int }),
            forall|r: Seq<char>| r != id@ ==> (#[trigger] has_key(final(self).open_spec(), r)
                <==> has_key(old(self).open_spec(), r)),
            forall|r: Seq<char>| r != id@ && #[trigger] has_key(old(self).open_spec(), r)
                ==> value_of(final(self).open_spec(), r) == value_of(old(self).open_spec(), r),
            has_key(old(self).open_spec(), id@) ==> (has_key(final(self).closed_spec(), id@)
                && value_of(final(self).closed_spec(), id@) == value_of(
                old(self).open_spec(),
                id@,
            )),
            !has_key(old(self).open_spec(), id@) ==> final(self).closed_spec() == old(
                self,
            ).closed_spec(),
            forall|r: Seq<char>| r != id@ ==> (#[trigger] has_key(final(self).closed_spec(), r)
                <==> has_key(old(self).closed_spec(), r)),
            forall|r: Seq<char>| r != id@ && #[trigger] has_key(old(self).closed_spec(), r)
                ==> value_of(final(self).closed_spec(), r) == value_of(
                old(self).closed_spec(),
                r,
            ),
    {
        proof {
            old(self).lemma_views(id@);
            lemma_find_key(self.open_waiters@, id@);
        }
        let ghost o0 = self.open_waiters@;
        let ghost c0 = self.closed_waiters@;
        match self.open_waiters.remove(id) {
            Some(q) => {
                proof {
                    lemma_remove_lookup(o0, self.open_waiters@, id@);
                    lemma_find_key(c0, id@);
                }
                self.closed_waiters.insert(id.to_owned(), q);
                proof {
                    lemma_find_key(o0, id@);
                    let i = find_key(o0, id@)->Some_0;
                    assert(q@ == o0[i].1@);
                    lemma_insert_lookup(c0, self.closed_waiters@, id@, q);
                    self.lemma_views(id@);
                    assert forall|r: Seq<char>| true implies (#[trigger] has_key(
                        self.open_spec(),
                        r,
                    ) <==> has_key(self.open_waiters@, r)) && (has_key(self.closed_spec(), r)
                        <==> has_key(self.closed_waiters@, r)) by {
                        self.lemma_views(r);
                    }
                    assert forall|r: Seq<char>| r != id@ && #[trigger] has_key(
                        old(self).open_spec(),
                        r,
                    ) implies value_of(self.open_spec(), r) == value_of(
                        old(self).open_spec(),
                        r,
                    ) by {
                        old(self).lemma_views(r);
                        self.lemma_views(r);
                    }
                    assert forall|r: Seq<char>| r != id@ && #[trigger] has_key(
                        old(self).closed_spec(),
                        r,
                    ) implies value_of(self.closed_spec(), r) == value_of(
                        old(self).closed_spec(),
                        r,
                    ) by {
                        old(self).lemma_views(r);
                        self.lemma_views(r);
                    }
                    assert forall|r: Seq<char>| r != id@ implies (#[trigger] has_key(
                        self.open_spec(),
                        r,
                    ) <==> has_key(old(self).open_spec(), r)) by {
                        old(self).lemma_views(r);
                        self.lemma_views(r);
                    }
                    assert forall|r: Seq<char>| r != id@ implies (#[trigger] has_key(
                        self.closed_spec(),
                        r,
                    ) <==> has_key(old(self).closed_spec(), r)) by {
                        old(self).lemma_views(r);
                        self.lemma_views(r);
                    }
                    assert(has_key(old(self).open_spec(), id@) ==> value_of(
                        self.closed_spec(),
                        id@,
                    ) == value_of(old(self).open_spec(), id@));
                }
            },
            None => {},
        }
    }

    /// Closes every waiter, keeping the queues for their receivers; the
    /// disconnect and shutdown path.  No open waiter survives.
    pub fn cleanup_on_disconnect(&mut self)
        requires
            old(self).wf(),
        ensures
            final(self).wf(),
            final(self).open_spec().len() == 0,
            forall|r: Seq<char>| #[trigger] has_key(old(self).open_spec(), r) ==> (has_key(
                final(self).closed_spec(),
                r,
            ) && value_of(final(self).closed_spec(), r) == value_of(old(self).open_spec(), r)),
            forall|r: Seq<char>| !has_key(old(self).open_spec(), r) ==> (#[trigger] has_key(
                final(self).closed_spec(),
                r,
            ) <==> has_key(old(self).closed_spec(), r)),
    {
        let ids = self.open_ids();
        let mut k: usize = 0;
        while k < ids.len()
            invariant
                self.wf(),
                0 <= k <= ids@.len(),
                ids.deep_view().len() == old(self).open_spec().len(),
                forall|i: int| 0 <= i < ids@.len() ==> #[trigger] ids.deep_view()[i] == old(
                    self,
                ).open_spec()[i].0,
                unique_keys(old(self).open_spec()),
                forall|r: Seq<char>| #[trigger] has_key(self.open_spec(), r) ==> has_key(
                    old(self).open_spec(),
                    r,
                ),
                forall|i: int| k <= i < ids@.len() ==> has_key(
                    self.open_spec(),
                    #[trigger] ids.deep_view()[i],
                ) && value_of(self.open_spec(), ids.deep_view()[i]) == value_of(
                    old(self).open_spec(),
                    ids.deep_view()[i],
                ),
                forall|i: int| 0 <= i < k ==> has_key(
                    self.closed_spec(),
                    #[trigger] ids.deep_view()[i],
                ) && value_of(self.closed_spec(), ids.deep_view()[i]) == value_of(
                    old(self).open_spec(),
                    ids.deep_view()[i],
                ) && !has_key(self.open_spec(), ids.deep_view()[i]),
                forall|r: Seq<char>| !has_key(old(self).open_spec(), r) ==> (#[trigger] has_key(
                    self.closed_spec(),
                    r,
                ) <==> has_key(old(self).closed_spec(), r)),
            decreases ids@.len() - k,
        {
            proof {
                assert(ids.deep_view()[k as int] == ids@[k as int]@);
            }
            self.remove_waiter(ids[k].as_str());
            k = k + 1;
        }
        proof {
            if self.open_spec().len() > 0 {
                let r = self.open_spec()[0].0;
                assert(has_key(self.open_spec(), r));
                assert(has_key(old(self).open_spec(), r));
                lemma_find_key(old(self).open_spec(), r);
                let i = find_key(old(self).open_spec(), r)->Some_0;
                assert(ids.deep_view()[i] == r);
            }
            assert forall|r: Seq<char>| #[trigger] has_key(old(self).open_spec(), r) implies (
            has_key(final(self).closed_spec(), r) && value_of(final(self).closed_spec(), r)
                == value_of(old(self).open_spec(), r)) by {
                lemma_find_key(old(self).open_spec(), r);
                let i = find_key(old(self).open_spec(), r)->Some_0;
                assert(ids.deep_view()[i] == r);
            }
        }
    }

    /// Closes every waiter; the shutdown path.
    pub fn clear(&mut self)
        requires
            old(self).wf(),
        ensures
            final(self).wf(),
            final(self).open_spec().len() == 0,
            forall|r: Seq<char>| #[trigger] has_key(old(self).open_spec(), r) ==> has_key(
                final(self).closed_spec(),
                r,
            ),
    {
        self.cleanup_on_disconnect();
    }

    /// The ids of the open waiters, in table order.
    fn open_ids(&self) -> (r: Vec<String>)
        ensures
            r.deep_view().len() == self.open_spec().len(),
            forall|i: int| 0 <= i < r@.len() ==> #[trigger] r.deep_view()[i]
                == self.open_spec()[i].0,
    {
        let mut out: Vec<String> = Vec::new();
        let n = self.open_waiters.len();
        let mut k: usize = 0;
        while k < n
            invariant
                n == self.open_spec().len(),
                0 <= k <= n,
                out@.len() == k,
                forall|i: int| 0 <= i < k ==> (#[trigger] out@[i])@ == self.open_spec()[i].0,
            decreases n - k,
        {
            let id = self.open_waiters.key_at(k);
            out.push(id.clone());
            k = k + 1;
        }
        proof {
            assert forall|i: int| 0 <= i < out@.len() implies #[trigger] out.deep_view()[i]
                == self.open_spec()[i].0 by {
                assert(out.deep_view()[i] == out@[i]@);
            }
        }
        out
    }

    /// Number of open waiters.
    pub fn pending_count(&self) -> (r: usize)
        ensures
            r == self.open_spec().len(),
    {
        self.open_waiters.len()
    }

    /// Polls the waiter for `id`: the next delivered message if one is
    /// queued, `Pending` while the waiter is open with an empty queue, and
    /// `Closed` once the waiter is gone and its queue drained.
    pub fn poll_waiter(&mut self, id: &str) -> (r: RecvOutcome)
        requires
            old(self).wf(),
        ensures
            final(self).wf(),
            (final(self).open_spec(), final(self).closed_spec(), r) == poll_step(
                old(self).open_spec(),
                old(self).closed_spec(),
                id@,
            ),
    {
        proof {
            old(self).lemma_views(id@);
            lemma_find_key(self.open_waiters@, id@);
            lemma_find_key(self.closed_waiters@, id@);
        }
        let ghost o0 = self.open_waiters@;
        let ghost c0 = self.closed_waiters@;
        let empty: Vec<Message> = Vec::new();
        match self.open_waiters.swap_value(id, empty) {
            Some(mut q) => {
                let ghost i = find_key(o0, id@)->Some_0;
                if q.len() > 0 {
                    let m = q.remove(0);
                    let _ = self.open_waiters.swap_value(id, q);
                    proof {
                        let o1 = o0.update(i, (o0[i].0, empty));
                        lemma_find_key_same_keys(o1, o0, id@);
                        assert(self.open_waiters@ =~= o0.update(i, (o0[i].0, q)));
                        assert(self.open_spec() =~= old(self).open_spec().update(
                            i,
                            (id@, value_of(old(self).open_spec(), id@).drop_first()),
                        ));
                    }
                    return RecvOutcome::Msg(m);
                } else {
                    let _ = self.open_waiters.swap_value(id, q);
                    proof {
                        let o1 = o0.update(i, (o0[i].0, empty));
                        lemma_find_key_same_keys(o1, o0, id@);
                        assert(self.open_waiters@ =~= o0.update(i, (o0[i].0, q)));
                        assert(self.open_waiters@ =~= o0);
                        assert(self.open_spec() =~= old(self).open_spec());
                    }
                    return RecvOutcome::Pending;
                }
            },
            None => {},
        }
        let empty2: Vec<Message> = Vec::new();
        match self.closed_waiters.swap_value(id, empty2) {
            Some(mut q) => {
                let ghost i = find_key(c0, id@)->Some_0;
                if q.len() > 0 {
                    let m = q.remove(0);
                    let _ = self.closed_waiters.swap_value(id, q);
                    proof {
                        let c1 = c0.update(i, (c0[i].0, empty2));
                        lemma_find_key_same_keys(c1, c0, id@);
                        assert(self.closed_waiters@ =~= c0.update(i, (c0[i].0, q)));
                        assert(self.closed_spec() =~= old(self).closed_spec().update(
                            i,
                            (id@, value_of(old(self).closed_spec(), id@).drop_first()),
                        ));
                    }
                    RecvOutcome::Msg(m)
                } else {
                    let ghost c1 = self.closed_waiters@;
                    let _ = self.closed_waiters.remove(id);
                    proof {
                        lemma_find_key_same_keys(c1, c0, id@);
                        assert(c1 == c0.update(i, (c0[i].0, empty2)));
                        assert(self.closed_waiters@ =~= c0.remove(i));
                        assert(self.closed_spec() =~= old(self).closed_spec().remove(i));
                    }
                    RecvOutcome::Closed
                }
            },
            None => RecvOutcome::Closed,
        }
    }
}

/// The messages observed by polling `id` repeatedly, up to `fuel` polls,
/// until closure is observed; `None` when closure was not reached.
pub open spec fn polls_until_closed(open: WaitersV, closed: WaitersV, id: Seq<char>, fuel: nat) -> Option<
    Seq<Message>,
>
    decreases fuel,
{
    if fuel == 0 {
        None
    } else {
        let (o1, c1, r) = poll_step(open, closed, id);
        match r {
            RecvOutcome::Closed => Some(Seq::empty()),
            RecvOutcome::Pending => None,
            RecvOutcome::Msg(m) => match polls_until_closed(o1, c1, id, (fuel - 1) as nat) {
                Some(s) => Some(seq![m] + s),
                None => None,
            },
        }
    }
}

/// No waiter leaks: once the waiter for `id` is closed, its receiver
/// observes exactly the undelivered messages, in delivery order, and then
/// closure; the drained entry is gone from the table.
pub proof fn lemma_no_waiter_leak(open: WaitersV, closed: WaitersV, id: Seq<char>)
    requires
        unique_keys(closed),
        !has_key(open, id),
        has_key(closed, id),
    ensures
        polls_until_closed(open, closed, id, (value_of(closed, id).len() + 1) as nat) == Some(
            value_of(closed, id),
        ),
    decreases value_of(closed, id).len(),
{
    lemma_find_key(closed, id);
    let i = find_key(closed, id)->Some_0;
    let q = value_of(closed, id);
    if q.len() == 0 {
        assert(polls_until_closed(open, closed, id, 1) == Some(Seq::<Message>::empty()));
        assert(q =~= Seq::<Message>::empty());
    } else {
        let c1 = closed.update(i, (id, q.drop_first()));
        assert forall|a: int, b: int| 0 <= a < b < c1.len() implies c1[a].0 != c1[b].0 by {
            assert(c1[a].0 == closed[a].0);
            assert(c1[b].0 == closed[b].0);
        }
        lemma_find_key_same_keys(c1, closed, id);
        lemma_find_key(c1, id);
        assert(value_of(c1, id) == q.drop_first());
        lemma_no_waiter_leak(open, c1, id);
        assert(seq![q[0]] + q.drop_first() =~= q);
    }
}

} // verus!
