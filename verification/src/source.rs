//! The channel registry: a listener claims a channel name, a sender connects
//! to it, and samples flow from the sender to the listener through a ring
//! buffer.

use std::sync::Arc;
use std::sync::atomic::AtomicBool;
use vstd::prelude::*;
use crate::online::{is_online, mark_offline, online_flag};
use crate::feed::Feed;
use crate::ring::{Ring, RingConsumer, RingProducer};

verus! {

/// Number of samples a channel can hold between its sender and its listener.
pub const CHANNEL_CAPACITY: usize = 65536;

/// Calls `Arc::clone`: the new handle points at the same value.
#[verifier::external_body]
fn share<T>(a: &Arc<T>) -> (r: Arc<T>)
    ensures
        r == *a,
{
    a.clone()
}

/// What the registry, the sender and the listener of one channel share.
#[derive(Debug)]
pub struct SourceShared {
    channel_name: String,
    recv_online: AtomicBool,
}

impl SourceShared {
    pub closed spec fn name(&self) -> Seq<char> {
        self.channel_name@
    }
}

/// Why a listener could not claim a channel name.
#[derive(Debug, PartialEq, Eq, Structural)]
pub enum ListenError {
    AlreadyInUse,
}

/// Why a sender could not connect to a channel.
#[derive(Debug, PartialEq, Eq, Structural)]
pub enum ConnectError {
    NoMountpoint,
    AlreadyConnected,
}

/// The registry's entry for one channel: the shared part and, while no
/// sender is connected, the producer half of the channel's buffer.
#[verifier::reject_recursive_types(S)]
pub struct Source<S> {
    shared: Arc<SourceShared>,
    tx: Option<RingProducer<S>>,
}

impl<S> Source<S> {
    pub closed spec fn name(&self) -> Seq<char> {
        self.shared.channel_name@
    }

    /// No sender is connected, so one may connect.
    pub closed spec fn accepts_sender(&self) -> bool {
        self.tx is Some
    }
}

pub open spec fn unique_names<S>(s: Seq<Source<S>>) -> bool {
    forall|i: int, j: int|
        0 <= i < s.len() && 0 <= j < s.len() && i != j ==> #[trigger] s[i].name() != #[trigger] s[j].name()
}

pub open spec fn has_name<S>(s: Seq<Source<S>>, n: Seq<char>) -> bool {
    exists|i: int| 0 <= i < s.len() && #[trigger] s[i].name() == n
}

pub open spec fn name_slot<S>(s: Seq<Source<S>>, n: Seq<char>) -> int {
    choose|i: int| 0 <= i < s.len() && #[trigger] s[i].name() == n
}

/// Channel name to "a sender may connect" for a list of entries.
pub open spec fn channel_map<S>(s: Seq<Source<S>>) -> Map<Seq<char>, bool> {
    Map::new(|n: Seq<char>| has_name(s, n), |n: Seq<char>| s[name_slot(s, n)].accepts_sender())
}

proof fn lemma_slot<S>(s: Seq<Source<S>>, i: int)
    requires
        unique_names(s),
        0 <= i < s.len(),
    ensures
        has_name(s, s[i].name()),
        name_slot(s, s[i].name()) == i,
        channel_map(s).dom().contains(s[i].name()),
        channel_map(s)[s[i].name()] == s[i].accepts_sender(),
{
    assert(has_name(s, s[i].name()));
    let j = name_slot(s, s[i].name());
    assert(0 <= j < s.len() && s[j].name() == s[i].name());
}

proof fn lemma_push<S>(s: Seq<Source<S>>, x: Source<S>)
    requires
        unique_names(s),
        !has_name(s, x.name()),
    ensures
        unique_names(s.push(x)),
        channel_map(s.push(x)) == channel_map(s).insert(x.name(), x.accepts_sender()),
{
    let t = s.push(x);
    assert forall|i: int, j: int|
        0 <= i < t.len() && 0 <= j < t.len() && i != j implies #[trigger] t[i].name() != #[trigger] t[j].name() by {
        if i < s.len() && j < s.len() {
            assert(t[i] == s[i] && t[j] == s[j]);
        } else if i < s.len() {
            assert(t[i] == s[i]);
        } else {
            assert(t[j] == s[j]);
        }
    }
    let m = channel_map(s).insert(x.name(), x.accepts_sender());
    assert forall|k: Seq<char>| #[trigger] channel_map(t).dom().contains(k) <==> m.dom().contains(k) by {
        if has_name(s, k) {
            let i = name_slot(s, k);
            assert(t[i] == s[i]);
        }
        if has_name(t, k) {
            let i = name_slot(t, k);
            if i < s.len() {
                assert(t[i] == s[i]);
            }
        }
        if k == x.name() {
            assert(t[s.len() as int] == x);
        }
    }
    assert forall|k: Seq<char>| #[trigger] channel_map(t).dom().contains(k) implies channel_map(t)[k] == m[k] by {
        if k == x.name() {
            assert(t[s.len() as int] == x);
            lemma_slot(t, s.len() as int);
        } else {
            let i = name_slot(t, k);
            assert(i < s.len());
            assert(t[i] == s[i]);
            lemma_slot(t, i);
            lemma_slot(s, i);
        }
    }
    assert(channel_map(t) =~= m);
}

proof fn lemma_update<S>(s: Seq<Source<S>>, i: int, x: Source<S>)
    requires
        unique_names(s),
        0 <= i < s.len(),
        x.name() == s[i].name(),
    ensures
        unique_names(s.update(i, x)),
        channel_map(s.update(i, x)) == channel_map(s).insert(x.name(), x.accepts_sender()),
{
    let t = s.update(i, x);
    assert forall|a: int, b: int|
        0 <= a < t.len() && 0 <= b < t.len() && a != b implies #[trigger] t[a].name() != #[trigger] t[b].name() by {
        assert(t[a].name() == s[a].name());
        assert(t[b].name() == s[b].name());
    }
    let m = channel_map(s).insert(x.name(), x.accepts_sender());
    lemma_slot(s, i);
    assert forall|k: Seq<char>| #[trigger] channel_map(t).dom().contains(k) <==> m.dom().contains(k) by {
        if has_name(s, k) {
            let j = name_slot(s, k);
            assert(t[j].name() == s[j].name());
        }
        if has_name(t, k) {
            let j = name_slot(t, k);
            assert(t[j].name() == s[j].name());
        }
    }
    assert forall|k: Seq<char>| #[trigger] channel_map(t).dom().contains(k) implies channel_map(t)[k] == m[k] by {
        let j = name_slot(t, k);
        assert(t[j].name() == s[j].name());
        lemma_slot(t, j);
        lemma_slot(s, j);
    }
    assert(channel_map(t) =~= m);
}

proof fn lemma_remove<S>(s: Seq<Source<S>>, i: int)
    requires
        unique_names(s),
        0 <= i < s.len(),
    ensures
        unique_names(s.remove(i)),
        channel_map(s.remove(i)) == channel_map(s).remove(s[i].name()),
{
    let t = s.remove(i);
    assert forall|a: int| 0 <= a < t.len() implies #[trigger] t[a] == s[if a < i { a } else { a + 1 }] by {}
    assert forall|a: int, b: int|
        0 <= a < t.len() && 0 <= b < t.len() && a != b implies #[trigger] t[a].name() != #[trigger] t[b].name() by {
        let a1 = if a < i { a } else { a + 1 };
        let b1 = if b < i { b } else { b + 1 };
        assert(t[a] == s[a1]);
        assert(t[b] == s[b1]);
    }
    let m = channel_map(s).remove(s[i].name());
    lemma_slot(s, i);
    assert forall|k: Seq<char>| #[trigger] channel_map(t).dom().contains(k) <==> m.dom().contains(k) by {
        if has_name(s, k) && k != s[i].name() {
            let j = name_slot(s, k);
            assert(j != i);
            let j1 = if j < i { j } else { j - 1 };
            assert(t[j1] == s[j]);
        }
        if has_name(t, k) {
            let j = name_slot(t, k);
            let j1 = if j < i { j } else { j + 1 };
            assert(t[j] == s[j1]);
        }
    }
    assert forall|k: Seq<char>| #[trigger] channel_map(t).dom().contains(k) implies channel_map(t)[k] == m[k] by {
        let j = name_slot(t, k);
        let j1 = if j < i { j } else { j + 1 };
        assert(t[j] == s[j1]);
        lemma_slot(t, j);
        lemma_slot(s, j1);
    }
    assert(channel_map(t) =~= m);
}


/// Whether a listener may claim `n` in a registry whose view is `m`.
pub open spec fn listen_result(m: Map<Seq<char>, bool>, n: Seq<char>) -> Result<(), ListenError> {
    if m.dom().contains(n) {
        Err(ListenError::AlreadyInUse)
    } else {
        Ok(())
    }
}

/// The view after a listener tries to claim `n`.
pub open spec fn after_listen(m: Map<Seq<char>, bool>, n: Seq<char>) -> Map<Seq<char>, bool> {
    if m.dom().contains(n) {
        m
    } else {
        m.insert(n, true)
    }
}

/// Whether a sender may connect to `n` in a registry whose view is `m`.
pub open spec fn connect_result(m: Map<Seq<char>, bool>, n: Seq<char>) -> Result<(), ConnectError> {
    if !m.dom().contains(n) {
        Err(ConnectError::NoMountpoint)
    } else if !m[n] {
        Err(ConnectError::AlreadyConnected)
    } else {
        Ok(())
    }
}

/// The view after a sender tries to connect to `n`.
pub open spec fn after_connect(m: Map<Seq<char>, bool>, n: Seq<char>) -> Map<Seq<char>, bool> {
    if connect_result(m, n) is Ok {
        m.insert(n, false)
    } else {
        m
    }
}

/// The view after the sender of channel `n` disconnects.
pub open spec fn after_release_sender(m: Map<Seq<char>, bool>, n: Seq<char>) -> Map<Seq<char>, bool> {
    if m.dom().contains(n) {
        m.insert(n, true)
    } else {
        m
    }
}

/// The view after the listener of channel `n` closes.
pub open spec fn after_release_receiver(m: Map<Seq<char>, bool>, n: Seq<char>) -> Map<Seq<char>, bool> {
    m.remove(n)
}

/// The entry of `s` named `k`.
pub open spec fn entry_at<S>(s: Seq<Source<S>>, k: Seq<char>) -> Source<S> {
    s[name_slot(s, k)]
}

/// Entry `j` of `t` is entry `i` of `s`, so both lists hold the same entry
/// under that name.
proof fn lemma_same_entry<S>(s: Seq<Source<S>>, t: Seq<Source<S>>, i: int, j: int)
    requires
        unique_names(s),
        unique_names(t),
        0 <= i < s.len(),
        0 <= j < t.len(),
        t[j] == s[i],
    ensures
        entry_at(t, s[i].name()) == entry_at(s, s[i].name()),
{
    lemma_slot(s, i);
    lemma_slot(t, j);
}

/// Adding an entry under a new name keeps every entry already there.
proof fn lemma_frame_push<S>(s: Seq<Source<S>>, x: Source<S>)
    requires
        unique_names(s),
        !has_name(s, x.name()),
    ensures
        forall|k: Seq<char>| has_name(s, k) ==> #[trigger] entry_at(s.push(x), k) == entry_at(s, k),
{
    lemma_push(s, x);
    assert forall|k: Seq<char>| has_name(s, k) implies #[trigger] entry_at(s.push(x), k) == entry_at(s, k) by {
        let i = name_slot(s, k);
        assert(s.push(x)[i] == s[i]);
        lemma_same_entry(s, s.push(x), i, i);
    }
}

/// Replacing entry `i` by one of the same name keeps every other entry.
proof fn lemma_frame_update<S>(s: Seq<Source<S>>, i: int, x: Source<S>)
    requires
        unique_names(s),
        0 <= i < s.len(),
        x.name() == s[i].name(),
    ensures
        forall|k: Seq<char>| has_name(s, k) && k != s[i].name() ==> #[trigger] entry_at(s.update(i, x), k)
            == entry_at(s, k),
{
    lemma_update(s, i, x);
    assert forall|k: Seq<char>| has_name(s, k) && k != s[i].name() implies #[trigger] entry_at(
        s.update(i, x),
        k,
    ) == entry_at(s, k) by {
        let j = name_slot(s, k);
        assert(j != i);
        assert(s.update(i, x)[j] == s[j]);
        lemma_same_entry(s, s.update(i, x), j, j);
    }
}

/// Removing entry `i` keeps every other entry.
proof fn lemma_frame_remove<S>(s: Seq<Source<S>>, i: int)
    requires
        unique_names(s),
        0 <= i < s.len(),
    ensures
        forall|k: Seq<char>| has_name(s, k) && k != s[i].name() ==> #[trigger] entry_at(s.remove(i), k)
            == entry_at(s, k),
{
    lemma_remove(s, i);
    assert forall|k: Seq<char>| has_name(s, k) && k != s[i].name() implies #[trigger] entry_at(
        s.remove(i),
        k,
    ) == entry_at(s, k) by {
        let j = name_slot(s, k);
        assert(j != i);
        let j1 = if j < i { j } else { j - 1 };
        assert(s.remove(i)[j1] == s[j]);
        lemma_same_entry(s, s.remove(i), j, j1);
    }
}

/// The channels that listeners have claimed, by name.
#[verifier::reject_recursive_types(S)]
pub struct Registry<S> {
    channels: Vec<Source<S>>,
}

impl<S> View for Registry<S> {
    type V = Map<Seq<char>, bool>;

    /// Each claimed channel name, mapped to whether a sender may still
    /// connect to it (no sender is connected).
    closed spec fn view(&self) -> Map<Seq<char>, bool> {
        channel_map(self.channels@)
    }
}

/// The sending end of a channel, held by a connected sender.
#[verifier::reject_recursive_types(S)]
pub struct SourceSend<S> {
    shared: Arc<SourceShared>,
    feed: Feed<S>,
}

/// The listening end of a channel, held by the listener that claimed it.
#[verifier::reject_recursive_types(S)]
pub struct SourceRecv<S> {
    shared: Arc<SourceShared>,
    rx: RingConsumer<S>,
}

impl<S> Registry<S> {
    /// The producer half the registry holds for channel `n`: `None` while a
    /// sender is connected.
    pub closed spec fn entry_tx(&self, n: Seq<char>) -> Option<RingProducer<S>> {
        entry_at(self.channels@, n).tx
    }

    /// The state channel `n` shares between the registry, its listener and
    /// its sender.
    pub closed spec fn entry_shared(&self, n: Seq<char>) -> SourceShared {
        *entry_at(self.channels@, n).shared
    }

    /// Every channel of `self` other than `n` has, in `other`, the same
    /// producer half and the same shared state.
    pub open spec fn others_kept(&self, other: &Self, n: Seq<char>) -> bool {
        forall|k: Seq<char>|
            k != n && #[trigger] self@.dom().contains(k) ==> other.entry_tx(k) == self.entry_tx(k)
                && other.entry_shared(k) == self.entry_shared(k)
    }

    /// No two channels share a name.
    #[verifier::type_invariant]
    spec fn wf(self) -> bool {
        unique_names(self.channels@)
    }

    /// An empty registry.
    pub fn new() -> (r: Self)
        ensures
            r@ == Map::<Seq<char>, bool>::empty(),
    {
        let r = Registry { channels: Vec::new() };
        assert(r@ =~= Map::<Seq<char>, bool>::empty());
        r
    }

    fn find(&self, name: &String) -> (r: Option<usize>)
        ensures
            match r {
                Some(i) => i < self.channels@.len() && self.channels@[i as int].name() == name@,
                None => !has_name(self.channels@, name@),
            },
    {
        let mut i: usize = 0;
        while i < self.channels.len()
            invariant
                i <= self.channels@.len(),
                forall|j: int| 0 <= j < i ==> #[trigger] self.channels@[j].name() != name@,
            decreases self.channels@.len() - i,
        {
            if self.channels[i].shared.channel_name.eq(name) {
                return Some(i);
            }
            i += 1;
        }
        None
    }
}

impl<S: Copy> Registry<S> {
    /// Claims `channel_name` for a new listener, with an empty buffer of
    /// `CHANNEL_CAPACITY` samples that a sender may connect to. Fails, and
    /// changes nothing, when the name is already claimed.
    pub fn listen(&mut self, channel_name: &str) -> (r: Result<SourceRecv<S>, ListenError>)
        ensures
            final(self)@ == after_listen(old(self)@, channel_name@),
            old(self).others_kept(&*final(self), channel_name@),
            match r {
                Ok(recv) => {
                    &&& listen_result(old(self)@, channel_name@) == Ok::<(), ListenError>(())
                    &&& recv.channel() == channel_name@
                    &&& recv.shared_state() == final(self).entry_shared(channel_name@)
                    &&& recv.capacity() == CHANNEL_CAPACITY
                    &&& recv.received() == Seq::<S>::empty()
                    &&& final(self).entry_tx(channel_name@) matches Some(tx)
                    &&& tx.ring() == recv.ring()
                    &&& tx.capacity() == CHANNEL_CAPACITY
                    &&& tx.pushed() == 0
                },
                Err(e) => listen_result(old(self)@, channel_name@) == Err::<(), ListenError>(e)
                    && *final(self) == *old(self),
            },
    {
        proof { use_type_invariant(&*self); }
        let name = channel_name.to_owned();
        if let Some(i) = self.find(&name) {
            proof { lemma_slot(self.channels@, i as int); }
            return Err(ListenError::AlreadyInUse);
        }
        let (tx, rx) = Ring::<S>::new(CHANNEL_CAPACITY).split();
        let shared = Arc::new(SourceShared { channel_name: name, recv_online: online_flag() });
        let recv = SourceRecv { shared: share(&shared), rx };
        let source = Source { shared, tx: Some(tx) };
        proof {
            lemma_push(self.channels@, source);
            lemma_frame_push(self.channels@, source);
        }
        let mut channels = Vec::new();
        std::mem::swap(&mut channels, &mut self.channels);
        channels.push(source);
        proof { lemma_slot(channels@, channels@.len() - 1); }
        self.channels = channels;
        Ok(recv)
    }

    /// Connects a sender to the channel named `channel_name`, taking the
    /// producer half of its buffer. Fails, and changes nothing, when no
    /// listener claimed the name or a sender is already connected.
    pub fn connect(&mut self, channel_name: &str) -> (r: Result<SourceSend<S>, ConnectError>)
        ensures
            final(self)@ == after_connect(old(self)@, channel_name@),
            old(self).others_kept(&*final(self), channel_name@),
            match r {
                Ok(send) => connect_result(old(self)@, channel_name@) == Ok::<(), ConnectError>(())
                    && send.channel() == channel_name@
                    && Some(send.producer()) == old(self).entry_tx(channel_name@)
                    && send.shared_state() == old(self).entry_shared(channel_name@)
                    && send.sent() == Seq::<S>::empty()
                    && final(self).entry_tx(channel_name@) is None
                    && final(self).entry_shared(channel_name@) == old(self).entry_shared(channel_name@),
                Err(e) => connect_result(old(self)@, channel_name@) == Err::<(), ConnectError>(e)
                    && *final(self) == *old(self),
            },
    {
        proof { use_type_invariant(&*self); }
        let name = channel_name.to_owned();
        let i = match self.find(&name) {
            None => {
                return Err(ConnectError::NoMountpoint);
            },
            Some(i) => i,
        };
        proof { lemma_slot(self.channels@, i as int); }
        if self.channels[i].tx.is_none() {
            return Err(ConnectError::AlreadyConnected);
        }
        let shared = share(&self.channels[i].shared);
        let mut channels = Vec::new();
        std::mem::swap(&mut channels, &mut self.channels);
        let tx = channels[i].tx.take().unwrap();
        proof {
            lemma_update(old(self).channels@, i as int, channels@[i as int]);
            lemma_frame_update(old(self).channels@, i as int, channels@[i as int]);
            lemma_slot(channels@, i as int);
        }
        self.channels = channels;
        Ok(SourceSend { shared, feed: Feed::new(tx) })
    }

    /// Disconnects a sender: its producer half goes back to the channel of
    /// the same name, if that name is still claimed, so that another sender
    /// may connect.
    pub fn release_sender(&mut self, send: SourceSend<S>)
        ensures
            final(self)@ == after_release_sender(old(self)@, send.channel()),
            old(self).others_kept(&*final(self), send.channel()),
            old(self)@.dom().contains(send.channel()) ==> {
                &&& final(self).entry_tx(send.channel()) == Some(send.producer())
                &&& final(self).entry_shared(send.channel()) == old(self).entry_shared(send.channel())
            },
    {
        proof { use_type_invariant(&*self); }
        let SourceSend { shared, feed } = send;
        match self.find(&shared.channel_name) {
            None => {},
            Some(i) => {
                proof { lemma_slot(self.channels@, i as int); }
                let mut channels = Vec::new();
                std::mem::swap(&mut channels, &mut self.channels);
                channels[i].tx = Some(feed.into_producer());
                proof {
                    lemma_update(old(self).channels@, i as int, channels@[i as int]);
                    lemma_frame_update(old(self).channels@, i as int, channels@[i as int]);
                    lemma_slot(channels@, i as int);
                }
                self.channels = channels;
            },
        }
    }

    /// Closes a listener: its channel name is released and its sender, if
    /// any, from now on finds the listener gone.
    pub fn release_receiver(&mut self, recv: SourceRecv<S>)
        ensures
            final(self)@ == after_release_receiver(old(self)@, recv.channel()),
            old(self).others_kept(&*final(self), recv.channel()),
    {
        proof { use_type_invariant(&*self); }
        match self.find(&recv.shared.channel_name) {
            None => {
                assert(old(self)@ =~= old(self)@.remove(recv.channel()));
            },
            Some(i) => {
                proof {
                    lemma_remove(self.channels@, i as int);
                    lemma_frame_remove(self.channels@, i as int);
                }
                let mut channels = Vec::new();
                std::mem::swap(&mut channels, &mut self.channels);
                let _ = channels.remove(i);
                self.channels = channels;
            },
        }
        mark_offline(&recv.shared.recv_online);
    }
}

impl<S> SourceSend<S> {
    pub closed spec fn channel(&self) -> Seq<char> {
        self.shared.channel_name@
    }

    /// The producer half this sender writes into.
    pub closed spec fn producer(&self) -> RingProducer<S> {
        self.feed.producer()
    }

    /// Every sample this sender has put into its channel's buffer since it
    /// connected, oldest first.
    pub closed spec fn sent(&self) -> Seq<S> {
        self.feed.accepted()
    }

    /// The state this sender shares with its channel's registry entry and
    /// listener.
    pub closed spec fn shared_state(&self) -> SourceShared {
        *self.shared
    }

    /// Whether the listener of the channel is still there. The flag lives in
    /// an atomic shared with the listener, so its value is not modelled.
    pub fn connected(&self) -> bool {
        is_online(&self.shared.recv_online)
    }

    /// The state this sender shares with its channel's registry entry and
    /// listener.
    pub fn shared(&self) -> (r: &SourceShared)
        ensures
            *r == self.shared_state(),
    {
        &*self.shared
    }
}

impl<S: Copy> SourceSend<S> {
    /// Writes samples to the channel when the listener is still there:
    /// `Ok` with how many samples of `data` fit into the buffer, which are
    /// the first ones of `data`; `Err(())`, writing nothing, when the
    /// listener is gone.
    pub fn write(&mut self, data: &[S]) -> (r: Result<usize, ()>)
        ensures
            final(self).shared_state() == old(self).shared_state(),
            final(self).producer().ring() == old(self).producer().ring(),
            final(self).producer().capacity() == old(self).producer().capacity(),
            final(self).channel() == old(self).channel(),
            r is Err ==> *final(self) == *old(self),
            r matches Ok(n) ==> n <= data@.len() && final(self).sent() == old(self).sent() + data@.subrange(
                0,
                n as int,
            ),
            r matches Ok(n) ==> n == data@.len() || old(self).producer().pushed() + n >= old(
                self,
            ).producer().capacity(),
    {
        let online = self.connected();
        self.write_checked(online, data)
    }

    /// The decision of `write` for a given answer of `connected`: pushes
    /// `data` into the buffer when `connected` holds, and fails otherwise.
    pub fn write_checked(&mut self, connected: bool, data: &[S]) -> (r: Result<usize, ()>)
        ensures
            final(self).shared_state() == old(self).shared_state(),
            final(self).producer().ring() == old(self).producer().ring(),
            final(self).producer().capacity() == old(self).producer().capacity(),
            final(self).channel() == old(self).channel(),
            r is Err <==> !connected,
            r is Err ==> *final(self) == *old(self),
            r matches Ok(n) ==> n <= data@.len() && final(self).sent() == old(self).sent() + data@.subrange(
                0,
                n as int,
            ),
            r matches Ok(n) ==> n == data@.len() || old(self).producer().pushed() + n >= old(
                self,
            ).producer().capacity(),
    {
        if connected {
            Ok(self.feed.push(data))
        } else {
            Err(())
        }
    }
}

impl<S> SourceRecv<S> {
    pub closed spec fn channel(&self) -> Seq<char> {
        self.shared.channel_name@
    }

    /// The state this listener shares with its channel's registry entry and
    /// sender.
    pub closed spec fn shared_state(&self) -> SourceShared {
        *self.shared
    }

    /// The buffer this listener reads from.
    pub closed spec fn ring(&self) -> int {
        self.rx.ring()
    }

    /// How many samples that buffer holds.
    pub closed spec fn capacity(&self) -> nat {
        self.rx.capacity()
    }

    /// Every sample this listener has read from its channel, oldest first.
    pub closed spec fn received(&self) -> Seq<S> {
        self.rx.taken()
    }

    /// The state this listener shares with its channel's registry entry and
    /// sender.
    pub fn shared(&self) -> (r: &SourceShared)
        ensures
            *r == self.shared_state(),
    {
        &*self.shared
    }

    /// The name this listener claimed.
    pub fn channel_name(&self) -> (r: &str)
        ensures
            r@ == self.channel(),
    {
        self.shared.channel_name.as_str()
    }
}

impl<S: Copy> SourceRecv<S> {
    /// Moves the oldest buffered samples into the front of `data` and returns
    /// how many it moved; the rest of `data` keeps its values, and the samples
    /// moved are exactly the ones added to what the listener has received.
    pub fn read(&mut self, data: &mut [S]) -> (n: usize)
        ensures
            final(self).channel() == old(self).channel(),
            final(self).ring() == old(self).ring(),
            final(self).capacity() == old(self).capacity(),
            final(self).received() == old(self).received() + final(data)@.subrange(0, n as int),
            n <= old(data)@.len(),
            final(data)@.len() == old(data)@.len(),
            final(data)@.subrange(n as int, final(data)@.len() as int)
                == old(data)@.subrange(n as int, old(data)@.len() as int),
    {
        self.rx.pop_slice(data)
    }
}


/// A listener that claims a free name and then closes leaves the registry
/// as it found it.
pub proof fn law_listen_then_close_restores(m: Map<Seq<char>, bool>, n: Seq<char>)
    requires
        listen_result(m, n) is Ok,
    ensures
        after_release_receiver(after_listen(m, n), n) == m,
{
    assert(after_release_receiver(after_listen(m, n), n) =~= m);
}

/// A sender that connects and then disconnects leaves the registry as it
/// found it.
pub proof fn law_connect_then_release_restores(m: Map<Seq<char>, bool>, n: Seq<char>)
    requires
        connect_result(m, n) is Ok,
    ensures
        after_release_sender(after_connect(m, n), n) == m,
{
    assert(after_release_sender(after_connect(m, n), n) =~= m);
}

/// A channel has at most one sender: once one connects, the next is refused
/// as already connected.
pub proof fn law_one_sender_per_channel(m: Map<Seq<char>, bool>, n: Seq<char>)
    requires
        connect_result(m, n) is Ok,
    ensures
        connect_result(after_connect(m, n), n) == Err::<(), ConnectError>(ConnectError::AlreadyConnected),
{
}

/// A name has at most one listener: after any attempt to claim it, claiming
/// it again is refused.
pub proof fn law_one_listener_per_name(m: Map<Seq<char>, bool>, n: Seq<char>)
    ensures
        listen_result(after_listen(m, n), n) == Err::<(), ListenError>(ListenError::AlreadyInUse),
{
}

/// A sender can connect to a channel as soon as a listener has claimed it.
pub proof fn law_listen_then_connect(m: Map<Seq<char>, bool>, n: Seq<char>)
    requires
        listen_result(m, n) is Ok,
    ensures
        connect_result(after_listen(m, n), n) is Ok,
{
}

/// Once the sender of a claimed channel disconnects, another may connect.
pub proof fn law_released_sender_frees_channel(m: Map<Seq<char>, bool>, n: Seq<char>)
    requires
        m.dom().contains(n),
    ensures
        connect_result(after_release_sender(m, n), n) is Ok,
{
}

/// Once a listener closes, its name is free to claim and no sender can
/// connect to it.
pub proof fn law_closed_channel_is_gone(m: Map<Seq<char>, bool>, n: Seq<char>)
    ensures
        listen_result(after_release_receiver(m, n), n) is Ok,
        connect_result(after_release_receiver(m, n), n) == Err::<(), ConnectError>(ConnectError::NoMountpoint),
{
}

/// Every operation on one channel leaves every other channel as it was.
pub proof fn law_other_channels_untouched(m: Map<Seq<char>, bool>, n: Seq<char>, k: Seq<char>)
    requires
        k != n,
    ensures
        after_listen(m, n).dom().contains(k) == m.dom().contains(k),
        after_connect(m, n).dom().contains(k) == m.dom().contains(k),
        after_release_sender(m, n).dom().contains(k) == m.dom().contains(k),
        after_release_receiver(m, n).dom().contains(k) == m.dom().contains(k),
        m.dom().contains(k) ==> after_listen(m, n)[k] == m[k] && after_connect(m, n)[k] == m[k]
            && after_release_sender(m, n)[k] == m[k] && after_release_receiver(m, n)[k] == m[k],
{
}

/// The samples of `outs`, one after another.
pub open spec fn concat<S>(outs: Seq<Seq<S>>) -> Seq<S>
    decreases outs.len(),
{
    if outs.len() == 0 {
        Seq::empty()
    } else {
        concat(outs.drop_last()) + outs.last()
    }
}

/// `states` are the values of one listener before and after each of a run
/// of reads, and `outs[i]` the samples the `i`-th read moved into the front
/// of its buffer (the first `n` of it, for the `n` it returned): each step is
/// what `read`'s contract states.
pub open spec fn is_read_run<S>(states: Seq<SourceRecv<S>>, outs: Seq<Seq<S>>) -> bool {
    &&& states.len() == outs.len() + 1
    &&& forall|i: int|
        0 <= i < outs.len() ==> states[i + 1].received() == states[i].received() + #[trigger] outs[i]
            && states[i + 1].ring() == states[i].ring()
}

/// No sample is lost or handed out twice between reads: after any run of
/// reads, the listener has received what it had before followed by exactly
/// the samples the reads handed out, in the order they handed them out, all
/// from the same buffer.
pub proof fn law_reads_hand_out_every_sample_once<S>(states: Seq<SourceRecv<S>>, outs: Seq<Seq<S>>)
    requires
        is_read_run(states, outs),
    ensures
        states.last().received() == states[0].received() + concat(outs),
        states.last().ring() == states[0].ring(),
    decreases outs.len(),
{
    if outs.len() > 0 {
        let n = outs.len() - 1;
        let init = states.drop_last();
        assert(is_read_run(init, outs.drop_last())) by {
            assert forall|i: int| 0 <= i < outs.drop_last().len() implies init[i + 1].received()
                == init[i].received() + #[trigger] outs.drop_last()[i] && init[i + 1].ring() == init[i].ring() by {
                assert(outs.drop_last()[i] == outs[i]);
                assert(init[i + 1] == states[i + 1] && init[i] == states[i]);
            }
        }
        law_reads_hand_out_every_sample_once(init, outs.drop_last());
        assert(init.last() == states[n]);
        assert(init[0] == states[0]);
        assert(states[n + 1].received() == states[n].received() + outs[n]);
        assert(states[0].received() + concat(outs) =~= states[0].received() + concat(outs.drop_last()) + outs.last());
    }
}

} // verus!
