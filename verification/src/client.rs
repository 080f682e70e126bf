//! The browser client's decisions: it keeps a copy of the workspace, numbers
//! the changes it sends, tracks how far the server has acknowledged them,
//! re-renders only once all of its changes have come back, and splits
//! incoming audio into one buffer per channel.

use vstd::prelude::*;
use crate::feed::Feed;
use crate::ring::{Ring, RingConsumer};
use crate::workspace_state::{snapshot_model, updated_model, ServerUpdate, State, StateModel, WorkspaceState};

verus! {

/// Number of samples each per-channel playback buffer holds.
pub const AUDIO_BUFFER_CAPACITY: usize = 131072;

/// The number a sequence issues after `last`: 1 first, then one more each time.
pub open spec fn next_number(last: Option<usize>) -> int {
    match last {
        None => 1,
        Some(n) => n + 1,
    }
}

/// Order of acknowledged sequence numbers, where nothing comes before 1.
pub open spec fn seq_le(a: Option<usize>, b: Option<usize>) -> bool {
    match (a, b) {
        (None, _) => true,
        (Some(_), None) => false,
        (Some(x), Some(y)) => x <= y,
    }
}

pub open spec fn seq_lt(a: Option<usize>, b: Option<usize>) -> bool {
    seq_le(a, b) && a != b
}

/// Issues the numbers 1, 2, 3, ... that label the client's changes.
pub struct Sequence {
    last: Option<usize>,
}

impl Sequence {
    pub closed spec fn last_issued(&self) -> Option<usize> {
        self.last
    }

    /// A sequence that has issued nothing.
    pub fn new() -> (s: Sequence)
        ensures
            s.last_issued() is None,
    {
        Sequence { last: None }
    }

    /// Issues the next number.
    pub fn next(&mut self) -> (n: usize)
        requires
            old(self).last_issued() != Some(usize::MAX),
        ensures
            n == next_number(old(self).last_issued()),
            final(self).last_issued() == Some(n),
    {
        let n = match self.last {
            None => 1,
            Some(last) => last + 1,
        };
        self.last = Some(n);
        n
    }

    /// The number issued last, if any.
    pub fn last(&self) -> (r: Option<usize>)
        ensures
            r == self.last_issued(),
    {
        self.last
    }
}

/// A change the client sends, labelled with its sequence number.
pub struct ClientMessage<O> {
    pub sequence: usize,
    pub op: O,
}

/// A message from the server.
pub enum ServerMessage<P, G, I> {
    /// The whole workspace; always the first message.
    WorkspaceState(WorkspaceState<P, G, I>),
    /// The server has applied the client's change with this number.
    Sync(usize),
    /// One change to the workspace.
    Update(ServerUpdate<P, G, I>),
}

/// An event the client application handles.
pub enum AppMsg<P, G, I, O, S> {
    NoOp,
    /// The browser window changed size; the root element now measures
    /// `width` by `height`.
    WindowResize { width: usize, height: usize },
    ServerMessage(ServerMessage<P, G, I>),
    /// The user changed something; the change is sent to the server.
    ClientUpdate(O),
    /// A block of audio from the server: one chunk per channel.
    AudioData(Vec<S>),
}

/// What the application has to do outside after handling an event.
#[verifier::reject_recursive_types(S)]
pub enum Action<O, S> {
    Nothing,
    /// Send this message to the server.
    Send(ClientMessage<O>),
    /// Start playback at `sample_rate`, one channel per consuming half.
    StartAudio { sample_rate: usize, receivers: Vec<RingConsumer<S>> },
}

/// The path of the websocket that carries workspace messages.
pub fn data_socket_url(host: &str) -> (r: String)
    ensures
        r@ == "ws://"@ + host@ + "/session"@,
{
    let mut url = "ws://".to_owned();
    url.append(host);
    url.append("/session");
    url
}

/// The path of the websocket that carries audio blocks.
pub fn audio_socket_url(host: &str) -> (r: String)
    ensures
        r@ == "ws://"@ + host@ + "/session_audio"@,
{
    let mut url = "ws://".to_owned();
    url.append(host);
    url.append("/session_audio");
    url
}

/// The client application's state: the size of its viewport, its copy of
/// the workspace (once the server sent one), the numbering of its own
/// changes, the last number the server acknowledged, and the feed of one
/// playback buffer per audio channel.
#[verifier::reject_recursive_types(S)]
pub struct App<P, G, I, S> {
    state: Option<State<P, G, I>>,
    client_seq: Sequence,
    server_seq: Option<usize>,
    viewport_width: usize,
    viewport_height: usize,
    audio_buffers: Vec<Feed<S>>,
}

/// The number of samples per channel chunk of audio data and the number of
/// channel buffers allow splitting `len` samples over the buffers.
pub open spec fn audio_fits(len: int, samples_per_tick: int, buffers: int) -> bool {
    samples_per_tick > 0 && len <= samples_per_tick * buffers
}

/// Where the `k`-th chunk of `len` samples ends, in chunks of
/// `samples_per_tick`.
pub open spec fn chunk_end(len: int, samples_per_tick: int, k: int) -> int {
    if (k + 1) * samples_per_tick < len {
        (k + 1) * samples_per_tick
    } else {
        len
    }
}

/// The `k`-th chunk of `data` in chunks of `samples_per_tick` samples:
/// `data[k * samples_per_tick .. min((k + 1) * samples_per_tick, len)]`,
/// empty past the end of `data`.
pub open spec fn audio_chunk<S>(data: Seq<S>, samples_per_tick: int, k: int) -> Seq<S> {
    if k * samples_per_tick < data.len() {
        data.subrange(k * samples_per_tick, chunk_end(data.len() as int, samples_per_tick, k))
    } else {
        Seq::empty()
    }
}

/// The bounds of the `k`-th chunk of `len` samples in chunks of
/// `samples_per_tick`, for a chunk that starts before the end.
pub fn chunk_bounds(len: usize, samples_per_tick: usize, k: usize) -> (r: (usize, usize))
    requires
        samples_per_tick > 0,
        k * samples_per_tick < len,
    ensures
        r.0 == k * samples_per_tick,
        r.1 == chunk_end(len as int, samples_per_tick as int, k as int),
        r.0 < r.1 <= len,
{
    let start = k * samples_per_tick;
    assert((k + 1) * samples_per_tick == start + samples_per_tick) by (nonlinear_arith)
        requires
            start == k * samples_per_tick,
    ;
    let end = if len - start <= samples_per_tick { len } else { start + samples_per_tick };
    (start, end)
}

impl<P, G, I, S> App<P, G, I, S> {
    pub closed spec fn model(&self) -> Option<StateModel<P, G, I>> {
        match self.state {
            Some(s) => Some(s@),
            None => None,
        }
    }

    pub closed spec fn client_last(&self) -> Option<usize> {
        self.client_seq.last_issued()
    }

    pub closed spec fn server_last(&self) -> Option<usize> {
        self.server_seq
    }

    /// The viewport's width and height.
    pub closed spec fn viewport(&self) -> (usize, usize) {
        (self.viewport_width, self.viewport_height)
    }

    /// The feeds of the playback buffers, one per channel.
    pub closed spec fn playback(&self) -> Seq<Feed<S>> {
        self.audio_buffers@
    }

    pub open spec fn buffer_count(&self) -> nat {
        self.playback().len()
    }

    /// For each playback buffer, every sample it has taken since it was
    /// opened, oldest first.
    pub open spec fn accepted(&self) -> Seq<Seq<S>> {
        records(self.playback())
    }

    /// A client whose root element measures `viewport_width` by
    /// `viewport_height`, with no workspace yet, nothing sent, nothing
    /// acknowledged and no playback buffers.
    pub fn new(viewport_width: usize, viewport_height: usize) -> (c: Self)
        ensures
            c.viewport() == (viewport_width, viewport_height),
            c.model() is None,
            c.client_last() is None,
            c.server_last() is None,
            c.buffer_count() == 0,
    {
        App {
            state: None,
            client_seq: Sequence::new(),
            server_seq: None,
            viewport_width,
            viewport_height,
            audio_buffers: Vec::new(),
        }
    }

    /// The client's copy of the workspace, once the server sent one.
    pub fn state(&self) -> (r: &Option<State<P, G, I>>)
        ensures
            match r {
                Some(s) => self.model() == Some(s@),
                None => self.model() is None,
            },
    {
        &self.state
    }

    /// The viewport's width and height.
    pub fn viewport_size(&self) -> (r: (usize, usize))
        ensures
            r == self.viewport(),
    {
        (self.viewport_width, self.viewport_height)
    }

    /// Whether the server has acknowledged every change the client sent,
    /// so that the server's view may be rendered. The server can never be
    /// ahead of the client.
    pub fn synced(&self) -> (r: bool)
        requires
            seq_le(self.server_last(), self.client_last()),
        ensures
            r == (self.server_last() == self.client_last()),
    {
        let client_seq = self.client_seq.last();
        match (self.server_seq, client_seq) {
            (None, None) => true,
            (Some(s), Some(c)) => s == c,
            _ => false,
        }
    }

    /// Handles the server's acknowledgement of change `seq`, which must be
    /// newer than the last one and no newer than the last change sent.
    /// Returns whether to re-render: whether every change has come back.
    fn receive_sync(&mut self, seq: usize) -> (r: bool)
        requires
            seq_lt(old(self).server_last(), Some(seq)),
            seq_le(Some(seq), old(self).client_last()),
        ensures
            final(self).server_last() == Some(seq),
            r == (Some(seq) == old(self).client_last()),
            final(self).client_last() == old(self).client_last(),
            final(self).model() == old(self).model(),
            final(self).viewport() == old(self).viewport(),
            final(self).playback() == old(self).playback(),
            final(self).accepted() == old(self).accepted(),
    {
        self.server_seq = Some(seq);
        self.synced()
    }

    /// Applies a server update to the workspace, which the server always
    /// sends first. Returns whether to re-render: whether every change the
    /// client sent has come back.
    fn receive_update(&mut self, op: ServerUpdate<P, G, I>) -> (r: bool)
        requires
            old(self).model() is Some,
            seq_le(old(self).server_last(), old(self).client_last()),
        ensures
            final(self).model() == Some(updated_model(old(self).model().unwrap(), op)),
            r == (old(self).server_last() == old(self).client_last()),
            final(self).server_last() == old(self).server_last(),
            final(self).client_last() == old(self).client_last(),
            final(self).viewport() == old(self).viewport(),
            final(self).playback() == old(self).playback(),
            final(self).accepted() == old(self).accepted(),
    {
        match &mut self.state {
            Some(state) => state.apply(op),
            None => {},
        }
        self.synced()
    }

    /// Numbers a change of the client's own for sending; it is not rendered
    /// until the server sends it back.
    fn send_update<O>(&mut self, op: O) -> (m: ClientMessage<O>)
        requires
            old(self).client_last() != Some(usize::MAX),
        ensures
            m.sequence == next_number(old(self).client_last()),
            m.op == op,
            final(self).client_last() == Some(m.sequence),
            final(self).server_last() == old(self).server_last(),
            final(self).model() == old(self).model(),
            final(self).viewport() == old(self).viewport(),
            final(self).playback() == old(self).playback(),
            final(self).accepted() == old(self).accepted(),
    {
        ClientMessage { sequence: self.client_seq.next(), op }
    }
}

/// Whether the application can handle `msg` in this state; otherwise the
/// server or the data broke the protocol.
pub open spec fn accepts<P, G, I, O, S>(
    model: Option<StateModel<P, G, I>>,
    client_last: Option<usize>,
    server_last: Option<usize>,
    buffers: nat,
    msg: AppMsg<P, G, I, O, S>,
) -> bool {
    match msg {
        AppMsg::ServerMessage(ServerMessage::Sync(seq)) => seq_lt(server_last, Some(seq)) && seq_le(
            Some(seq),
            client_last,
        ),
        AppMsg::ServerMessage(ServerMessage::Update(_)) => model is Some && seq_le(server_last, client_last),
        AppMsg::ClientUpdate(_) => client_last != Some(usize::MAX),
        AppMsg::AudioData(data) => match model {
            Some(m) => audio_fits(data@.len() as int, m.samples_per_tick as int, buffers as int),
            None => true,
        },
        _ => true,
    }
}

/// Each of `receivers` consumes from the buffer that the feed at the same
/// position fills, and each of those buffers holds `capacity` samples.
pub open spec fn paired<S>(feeds: Seq<Feed<S>>, receivers: Seq<RingConsumer<S>>, capacity: nat) -> bool {
    &&& receivers.len() == feeds.len()
    &&& forall|k: int|
        0 <= k < feeds.len() ==> {
            &&& #[trigger] receivers[k].ring() == feeds[k].producer().ring()
            &&& receivers[k].capacity() == capacity
            &&& feeds[k].producer().capacity() == capacity
        }
}

/// What each of `feeds` has put into its buffer.
pub open spec fn records<S>(feeds: Seq<Feed<S>>) -> Seq<Seq<S>> {
    Seq::new(feeds.len(), |k: int| feeds[k].accepted())
}

/// Each buffer of `after` took its whole chunk of `data` unless it filled
/// up: it took all of the `k`-th chunk, or at least its capacity less
/// everything ever pushed into it before.
pub open spec fn whole_unless_full<S>(
    before: Seq<Feed<S>>,
    after: Seq<Feed<S>>,
    data: Seq<S>,
    samples_per_tick: int,
) -> bool {
    forall|k: int|
        #![trigger after[k]]
        0 <= k < before.len() && k < after.len() ==> {
            let taken = after[k].accepted().len() - before[k].accepted().len();
            ||| taken == audio_chunk(data, samples_per_tick, k).len()
            ||| before[k].producer().pushed() + taken >= before[k].producer().capacity()
        }
}

/// `after` fills the same buffers as `before`, in the same order.
pub open spec fn same_buffers<S>(before: Seq<Feed<S>>, after: Seq<Feed<S>>) -> bool {
    &&& after.len() == before.len()
    &&& forall|k: int|
        0 <= k < before.len() ==> {
            &&& #[trigger] after[k].producer().ring() == before[k].producer().ring()
            &&& after[k].producer().capacity() == before[k].producer().capacity()
        }
}

/// What each playback buffer holds in `after`, given what it held in
/// `before`, once audio `data` in chunks of `samples_per_tick` has arrived:
/// the `k`-th buffer has taken a prefix of the `k`-th chunk, as much of it
/// as it had room for.
pub open spec fn took_chunks<S>(before: Seq<Seq<S>>, after: Seq<Seq<S>>, data: Seq<S>, samples_per_tick: int) -> bool {
    &&& after.len() == before.len()
    &&& forall|k: int|
        #![trigger after[k]]
        0 <= k < before.len() ==> {
            &&& before[k].len() <= after[k].len() <= before[k].len() + audio_chunk(data, samples_per_tick, k).len()
            &&& after[k] == before[k] + audio_chunk(data, samples_per_tick, k).subrange(
                0,
                after[k].len() - before[k].len(),
            )
        }
}

impl<P, G, I, S: Copy> App<P, G, I, S> {
    /// Handles one event: returns whether to re-render, and what to do
    /// outside. Server updates and acknowledgements re-render only once all
    /// of the client's own changes have come back.
    pub fn update<O>(&mut self, msg: AppMsg<P, G, I, O, S>) -> (r: (bool, Action<O, S>))
        requires
            accepts(old(self).model(), old(self).client_last(), old(self).server_last(), old(self).buffer_count(), msg),
        ensures
            numbers_step(*old(self), msg, *final(self)),
            match msg {
                AppMsg::NoOp => !r.0 && r.1 is Nothing && *final(self) == *old(self),
                AppMsg::WindowResize { width, height } => {
                    &&& r.0
                    &&& r.1 is Nothing
                    &&& final(self).viewport() == (width, height)
                    &&& final(self).model() == old(self).model()
                    &&& final(self).client_last() == old(self).client_last()
                    &&& final(self).server_last() == old(self).server_last()
                    &&& final(self).playback() == old(self).playback()
                    &&& final(self).accepted() == old(self).accepted()
                },
                AppMsg::ServerMessage(ServerMessage::WorkspaceState(ws)) => {
                    &&& r.0
                    &&& r.1 matches Action::StartAudio { sample_rate, receivers }
                        && sample_rate == ws.sample_rate && receivers@.len() == ws.channels
                        && paired(final(self).playback(), receivers@, AUDIO_BUFFER_CAPACITY as nat)
                    &&& forall|k: int| 0 <= k < final(self).buffer_count() ==> #[trigger] final(self).playback()[k].producer().pushed() == 0
                    &&& final(self).model() == Some(snapshot_model(ws))
                    &&& final(self).buffer_count() == ws.channels
                    &&& final(self).accepted() == Seq::new(ws.channels as nat, |k: int| Seq::<S>::empty())
                    &&& final(self).viewport() == old(self).viewport()
                    &&& final(self).client_last() == old(self).client_last()
                    &&& final(self).server_last() == old(self).server_last()
                },
                AppMsg::ServerMessage(ServerMessage::Sync(seq)) => {
                    &&& r.0 == (Some(seq) == old(self).client_last())
                    &&& r.1 is Nothing
                    &&& final(self).server_last() == Some(seq)
                    &&& final(self).client_last() == old(self).client_last()
                    &&& final(self).model() == old(self).model()
                    &&& final(self).viewport() == old(self).viewport()
                    &&& final(self).playback() == old(self).playback()
                    &&& final(self).accepted() == old(self).accepted()
                },
                AppMsg::ServerMessage(ServerMessage::Update(op)) => {
                    &&& r.0 == (old(self).server_last() == old(self).client_last())
                    &&& r.1 is Nothing
                    &&& final(self).model() == Some(updated_model(old(self).model().unwrap(), op))
                    &&& final(self).server_last() == old(self).server_last()
                    &&& final(self).client_last() == old(self).client_last()
                    &&& final(self).viewport() == old(self).viewport()
                    &&& final(self).playback() == old(self).playback()
                    &&& final(self).accepted() == old(self).accepted()
                },
                AppMsg::ClientUpdate(op) => {
                    &&& !r.0
                    &&& r.1 matches Action::Send(m) && m.sequence == next_number(old(self).client_last())
                        && m.op == op && final(self).client_last() == Some(m.sequence)
                    &&& final(self).server_last() == old(self).server_last()
                    &&& final(self).model() == old(self).model()
                    &&& final(self).viewport() == old(self).viewport()
                    &&& final(self).playback() == old(self).playback()
                    &&& final(self).accepted() == old(self).accepted()
                },
                AppMsg::AudioData(data) => {
                    &&& !r.0
                    &&& r.1 is Nothing
                    &&& old(self).model() is None ==> *final(self) == *old(self)
                    &&& same_buffers(old(self).playback(), final(self).playback())
                    &&& old(self).model() is Some ==> whole_unless_full(
                        old(self).playback(),
                        final(self).playback(),
                        data@,
                        old(self).model().unwrap().samples_per_tick as int,
                    )
                    &&& old(self).model() matches Some(m) ==> took_chunks(
                        old(self).accepted(),
                        final(self).accepted(),
                        data@,
                        m.samples_per_tick as int,
                    )
                    &&& final(self).model() == old(self).model()
                    &&& final(self).server_last() == old(self).server_last()
                    &&& final(self).client_last() == old(self).client_last()
                    &&& final(self).viewport() == old(self).viewport()
                    &&& final(self).buffer_count() == old(self).buffer_count()
                },
            },
    {
        match msg {
            AppMsg::NoOp => (false, Action::Nothing),
            AppMsg::WindowResize { width, height } => {
                self.viewport_width = width;
                self.viewport_height = height;
                (true, Action::Nothing)
            },
            AppMsg::ServerMessage(ServerMessage::WorkspaceState(ws)) => {
                let sample_rate = ws.sample_rate;
                let (render, receivers) = self.receive_workspace(ws);
                (render, Action::StartAudio { sample_rate, receivers })
            },
            AppMsg::ServerMessage(ServerMessage::Sync(seq)) => (self.receive_sync(seq), Action::Nothing),
            AppMsg::ServerMessage(ServerMessage::Update(op)) => (self.receive_update(op), Action::Nothing),
            AppMsg::ClientUpdate(op) => (false, Action::Send(self.send_update(op))),
            AppMsg::AudioData(data) => (self.receive_audio(data.as_slice()), Action::Nothing),
        }
    }

    /// Takes the server's full workspace and opens one empty playback buffer
    /// of `AUDIO_BUFFER_CAPACITY` samples per audio channel, dropping the old
    /// ones. Returns whether to re-render (always) and the consuming halves
    /// of the new buffers, one per channel, for playback.
    fn receive_workspace(&mut self, wstate: WorkspaceState<P, G, I>) -> (r: (bool, Vec<RingConsumer<S>>))
        ensures
            r.0,
            r.1@.len() == wstate.channels,
            paired(final(self).playback(), r.1@, AUDIO_BUFFER_CAPACITY as nat),
            forall|k: int| 0 <= k < final(self).buffer_count() ==> #[trigger] final(self).playback()[k].producer().pushed() == 0,
            final(self).buffer_count() == wstate.channels,
            final(self).accepted() == Seq::new(wstate.channels as nat, |k: int| Seq::<S>::empty()),
            final(self).model() == Some(snapshot_model(wstate)),
            final(self).viewport() == old(self).viewport(),
            final(self).server_last() == old(self).server_last(),
            final(self).client_last() == old(self).client_last(),
    {
        let channels = wstate.channels;
        self.state = Some(State::from(wstate));
        self.audio_buffers.clear();
        let mut receivers: Vec<RingConsumer<S>> = Vec::new();
        let mut i: usize = 0;
        while i < channels
            invariant
                i <= channels,
                self.audio_buffers@.len() == i,
                forall|k: int| 0 <= k < i ==> #[trigger] self.audio_buffers@[k].accepted() == Seq::<S>::empty(),
                receivers@.len() == i,
                paired(self.audio_buffers@, receivers@, AUDIO_BUFFER_CAPACITY as nat),
                forall|k: int| 0 <= k < i ==> #[trigger] self.audio_buffers@[k].producer().pushed() == 0,
                self.model() == Some(snapshot_model(wstate)),
                self.viewport() == old(self).viewport(),
                self.server_last() == old(self).server_last(),
                self.client_last() == old(self).client_last(),
            decreases channels - i,
        {
            let (prod, cons) = Ring::<S>::new(AUDIO_BUFFER_CAPACITY).split();
            self.audio_buffers.push(Feed::new(prod));
            receivers.push(cons);
            i += 1;
        }
        assert(self.accepted() =~= Seq::new(channels as nat, |k: int| Seq::<S>::empty()));
        (true, receivers)
    }

    /// Splits block-wise audio data into chunks of `samples_per_tick`
    /// samples and pushes the `k`-th chunk into the `k`-th channel's playback
    /// buffer, which takes as much of it as it has room for. Data that
    /// arrives before the workspace is ignored. Never re-renders.
    fn receive_audio(&mut self, data: &[S]) -> (r: bool)
        requires
            old(self).model() matches Some(m) ==> audio_fits(
                data@.len() as int,
                m.samples_per_tick as int,
                old(self).buffer_count() as int,
            ),
        ensures
            !r,
            old(self).model() is None ==> *final(self) == *old(self),
            same_buffers(old(self).playback(), final(self).playback()),
            old(self).model() matches Some(m) ==> whole_unless_full(
                old(self).playback(),
                final(self).playback(),
                data@,
                m.samples_per_tick as int,
            ),
            old(self).model() matches Some(m) ==> took_chunks(
                old(self).accepted(),
                final(self).accepted(),
                data@,
                m.samples_per_tick as int,
            ),
            final(self).model() == old(self).model(),
            final(self).server_last() == old(self).server_last(),
            final(self).client_last() == old(self).client_last(),
            final(self).viewport() == old(self).viewport(),
            final(self).buffer_count() == old(self).buffer_count(),
    {
        let samples_per_tick = match &self.state {
            Some(state) => state.samples_per_tick,
            None => {
                return false;
            },
        };
        let ghost before = old(self).accepted();
        let ghost spt = samples_per_tick as int;
        let len = data.len();
        let count = self.audio_buffers.len();
        let mut start: usize = 0;
        let mut channel: usize = 0;
        while start < len
            invariant
                len == data@.len(),
                count == self.audio_buffers@.len(),
                count == before.len(),
                spt == samples_per_tick,
                samples_per_tick > 0,
                len <= samples_per_tick * count,
                start <= len,
                channel * samples_per_tick < len ==> start == channel * samples_per_tick,
                channel * samples_per_tick >= len ==> start == len,
                channel <= count,
                forall|k: int|
                    #![trigger self.audio_buffers@[k]]
                    0 <= k < channel ==> {
                        let now = self.audio_buffers@[k].accepted();
                        &&& before[k].len() <= now.len() <= before[k].len() + audio_chunk(data@, spt, k).len()
                        &&& now == before[k] + audio_chunk(data@, spt, k).subrange(0, now.len() - before[k].len())
                        &&& self.audio_buffers@[k].producer().ring() == old(self).audio_buffers@[k].producer().ring()
                        &&& self.audio_buffers@[k].producer().capacity() == old(self).audio_buffers@[k].producer().capacity()
                        &&& now.len() - before[k].len() == audio_chunk(data@, spt, k).len()
                            || old(self).audio_buffers@[k].producer().pushed() + (now.len() - before[k].len())
                            >= old(self).audio_buffers@[k].producer().capacity()
                    },
                forall|k: int| channel <= k < count ==> #[trigger] self.audio_buffers@[k] == old(self).audio_buffers@[k],
                before == old(self).accepted(),
                self.state == old(self).state,
                self.server_seq == old(self).server_seq,
                self.client_seq == old(self).client_seq,
                self.viewport() == old(self).viewport(),
            decreases len - start,
        {
            assert(channel < count) by (nonlinear_arith)
                requires
                    channel * samples_per_tick < len,
                    len <= samples_per_tick * count,
                    samples_per_tick > 0,
            ;
            let (first, end) = chunk_bounds(len, samples_per_tick, channel);
            let chunk = &data[first..end];
            assert(chunk@ == audio_chunk(data@, spt, channel as int));
            assert(self.audio_buffers@[channel as int].accepted() == before[channel as int]);
            let _ = self.audio_buffers[channel].push(chunk);
            assert((channel + 1) * samples_per_tick == channel * samples_per_tick + samples_per_tick)
                by (nonlinear_arith);
            start = end;
            channel = channel + 1;
        }
        assert forall|k: int| channel <= k < count implies audio_chunk(data@, spt, k) =~= Seq::<S>::empty() by {
            assert(k * samples_per_tick >= channel * samples_per_tick) by (nonlinear_arith)
                requires
                    k >= channel,
                    samples_per_tick > 0,
            ;
        }
        let ghost after = self.accepted();
        assert forall|k: int| #![trigger after[k]] 0 <= k < before.len() implies {
            &&& before[k].len() <= after[k].len() <= before[k].len() + audio_chunk(data@, spt, k).len()
            &&& after[k] == before[k] + audio_chunk(data@, spt, k).subrange(0, after[k].len() - before[k].len())
        } by {
            assert(after[k] == self.audio_buffers@[k].accepted());
            if k >= channel {
                assert(before[k] + audio_chunk(data@, spt, k).subrange(0, 0) =~= before[k]);
            }
        }
        assert forall|k: int|
            #![trigger self.audio_buffers@[k]]
            0 <= k < count implies {
            let taken = self.audio_buffers@[k].accepted().len() - old(self).audio_buffers@[k].accepted().len();
            ||| taken == audio_chunk(data@, spt, k).len()
            ||| old(self).audio_buffers@[k].producer().pushed() + taken >= old(self).audio_buffers@[k].producer().capacity()
        } by {
            assert(before[k] == old(self).audio_buffers@[k].accepted());
        }
        false
    }
}


/// Each change the client sends is numbered after every change before it.
pub proof fn law_sequence_numbers_increase(last: Option<usize>)
    requires
        last != Some(usize::MAX),
    ensures
        next_number(last) >= 1,
        seq_lt(last, Some(next_number(last) as usize)),
{
}

/// `msg` acknowledges the change numbered `n`.
pub open spec fn acknowledges<P, G, I, O, S>(msg: AppMsg<P, G, I, O, S>, n: Option<usize>) -> bool {
    match msg {
        AppMsg::ServerMessage(ServerMessage::Sync(seq)) => Some(seq) == n,
        _ => false,
    }
}

/// What `update` does to the two sequence numbers when it handles `msg` in
/// `before` and leaves `after`, as its contract states: `msg` is accepted, a
/// change of the client's own takes the next number, an acknowledgement
/// becomes the server's number, and anything else keeps both.
pub open spec fn numbers_step<P, G, I, O, S>(
    before: App<P, G, I, S>,
    msg: AppMsg<P, G, I, O, S>,
    after: App<P, G, I, S>,
) -> bool {
    &&& accepts(before.model(), before.client_last(), before.server_last(), before.buffer_count(), msg)
    &&& match msg {
        AppMsg::ClientUpdate(_) => after.client_last() == Some(next_number(before.client_last()) as usize)
            && after.server_last() == before.server_last(),
        AppMsg::ServerMessage(ServerMessage::Sync(seq)) => after.server_last() == Some(seq)
            && after.client_last() == before.client_last(),
        _ => after.client_last() == before.client_last() && after.server_last() == before.server_last(),
    }
}

/// `states` are the values of one client before and after each message of
/// `msgs` that `update` handled, in order.
pub open spec fn is_client_run<P, G, I, O, S>(
    states: Seq<App<P, G, I, S>>,
    msgs: Seq<AppMsg<P, G, I, O, S>>,
) -> bool {
    &&& states.len() == msgs.len() + 1
    &&& forall|i: int| 0 <= i < msgs.len() ==> numbers_step(states[i], #[trigger] msgs[i], states[i + 1])
}

/// The client is synced when the server has acknowledged its last change.
pub open spec fn is_synced<P, G, I, S>(app: App<P, G, I, S>) -> bool {
    app.server_last() == app.client_last()
}

/// After the client's last change, numbered `n`, the client stays unsynced
/// (and so renders nothing from the server) until the acknowledgement of `n`
/// arrives, and from then on it stays synced: over a run of messages with no
/// further change of its own, the client is synced after the first `j`
/// messages exactly when it was synced at the start or one of them
/// acknowledged `n`.
pub proof fn law_synced_once_last_change_acknowledged<P, G, I, O, S>(
    states: Seq<App<P, G, I, S>>,
    msgs: Seq<AppMsg<P, G, I, O, S>>,
    j: int,
)
    requires
        is_client_run(states, msgs),
        forall|i: int| 0 <= i < msgs.len() ==> !(#[trigger] msgs[i] is ClientUpdate),
        0 <= j <= msgs.len(),
    ensures
        states[j].client_last() == states[0].client_last(),
        is_synced(states[j]) <==> (is_synced(states[0]) || exists|i: int|
            0 <= i < j && #[trigger] acknowledges(msgs[i], states[0].client_last())),
    decreases j,
{
    if j > 0 {
        law_synced_once_last_change_acknowledged(states, msgs, j - 1);
        let c = states[0].client_last();
        let m = msgs[j - 1];
        assert(numbers_step(states[j - 1], m, states[j]));
        assert(!(m is ClientUpdate));
        if acknowledges(m, c) {
            assert(is_synced(states[j]));
        }
        if is_synced(states[j]) && !is_synced(states[j - 1]) {
            assert(acknowledges(m, c));
        }
        if exists|i: int| 0 <= i < j && #[trigger] acknowledges(msgs[i], c) {
            let i = choose|i: int| 0 <= i < j && #[trigger] acknowledges(msgs[i], c);
            if i < j - 1 {
                assert(is_synced(states[j - 1]));
            }
        }
        if exists|i: int| 0 <= i < j - 1 && #[trigger] acknowledges(msgs[i], c) {
            let i = choose|i: int| 0 <= i < j - 1 && #[trigger] acknowledges(msgs[i], c);
            assert(0 <= i < j);
        }
    }
}

/// A playback buffer with room for its whole chunk takes all of it: when
/// audio arrives, a buffer that holds fewer than its capacity less the
/// chunk's length, counting everything ever pushed into it, ends up holding
/// its chunk whole, after what it had taken before.
pub proof fn law_room_takes_whole_chunk<S>(
    before: Seq<Feed<S>>,
    after: Seq<Feed<S>>,
    data: Seq<S>,
    samples_per_tick: int,
    k: int,
)
    requires
        took_chunks(records(before), records(after), data, samples_per_tick),
        whole_unless_full(before, after, data, samples_per_tick),
        0 <= k < before.len(),
        before[k].producer().pushed() + audio_chunk(data, samples_per_tick, k).len() <= before[k].producer().capacity(),
    ensures
        after[k].accepted() == before[k].accepted() + audio_chunk(data, samples_per_tick, k),
{
    let b = records(before);
    let a = records(after);
    assert(a[k] == after[k].accepted());
    assert(b[k] == before[k].accepted());
    let chunk = audio_chunk(data, samples_per_tick, k);
    assert(chunk.subrange(0, chunk.len() as int) =~= chunk);
}

} // verus!
