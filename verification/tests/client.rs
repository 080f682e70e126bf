use mixlab::client::{audio_socket_url, chunk_bounds, data_socket_url, Action, App, AppMsg, Sequence, ServerMessage, AUDIO_BUFFER_CAPACITY};
use mixlab::protocol::{LineType, Terminal};
use mixlab::workspace_state::{ServerUpdate, State, WorkspaceState};

type Ws = WorkspaceState<String, (i32, i32), u8>;

fn terminal(line_type: LineType) -> Terminal {
    line_type.unlabeled()
}

fn snapshot() -> Ws {
    WorkspaceState {
        modules: vec![(1, "osc".to_string()), (2, "mix".to_string()), (1, "osc2".to_string())],
        geometry: vec![(1, (10, 20)), (2, (30, 40))],
        indications: vec![(1, 0), (2, 1)],
        connections: vec![((2, 0), (1, 0))],
        inputs: vec![(2, vec![terminal(LineType::Mono)])],
        outputs: vec![(1, vec![terminal(LineType::Stereo)])],
        channels: 2,
        sample_rate: 44100,
        samples_per_tick: 3,
    }
}

#[test]
fn snapshot_last_pair_wins() {
    let state = State::from(snapshot());
    assert_eq!(state.modules.len(), 2);
    assert_eq!(state.modules.get(&1), Some(&"osc2".to_string()));
    assert_eq!(state.modules.get(&2), Some(&"mix".to_string()));
    assert_eq!(state.geometry.get(&2), Some(&(30, 40)));
    assert_eq!(state.connections.get(&(2, 0)), Some(&(1, 0)));
    assert_eq!(state.inputs.get(&2).unwrap()[0].line_type, LineType::Mono);
    assert_eq!(state.channels, 2);
    assert_eq!(state.sample_rate, 44100);
    assert_eq!(state.samples_per_tick, 3);
}

#[test]
fn updates_apply_to_state() {
    let mut state = State::from(snapshot());
    state.apply(ServerUpdate::CreateModule {
        id: 5,
        params: "delay".to_string(),
        geometry: (1, 1),
        indication: 9,
        inputs: vec![],
        outputs: vec![terminal(LineType::Mono)],
    });
    assert_eq!(state.modules.get(&5), Some(&"delay".to_string()));
    assert_eq!(state.indications.get(&5), Some(&9));
    state.apply(ServerUpdate::UpdateModuleParams(5, "echo".to_string()));
    assert_eq!(state.modules.get(&5), Some(&"echo".to_string()));
    state.apply(ServerUpdate::UpdateWindowGeometry(5, (2, 3)));
    assert_eq!(state.geometry.get(&5), Some(&(2, 3)));
    state.apply(ServerUpdate::UpdateModuleIndication(5, 4));
    assert_eq!(state.indications.get(&5), Some(&4));
    // updates for a module that does not exist are ignored
    state.apply(ServerUpdate::UpdateModuleParams(77, "ghost".to_string()));
    state.apply(ServerUpdate::UpdateWindowGeometry(77, (0, 0)));
    state.apply(ServerUpdate::UpdateModuleIndication(77, 0));
    assert!(state.modules.get(&77).is_none());
    assert!(state.geometry.get(&77).is_none());
    assert!(state.indications.get(&77).is_none());
    state.apply(ServerUpdate::DeleteModule(5));
    assert!(state.modules.get(&5).is_none());
    assert!(state.geometry.get(&5).is_none());
    assert!(state.indications.get(&5).is_none());
    assert!(state.inputs.get(&5).is_none());
    assert!(state.outputs.get(&5).is_none());
    state.apply(ServerUpdate::CreateConnection((1, 1), (2, 0)));
    assert_eq!(state.connections.get(&(1, 1)), Some(&(2, 0)));
    state.apply(ServerUpdate::DeleteConnection((1, 1)));
    assert!(state.connections.get(&(1, 1)).is_none());
    assert_eq!(state.connections.len(), 1);
}

#[test]
fn deleting_a_module_keeps_its_connections() {
    let mut state = State::from(snapshot());
    state.apply(ServerUpdate::DeleteModule(2));
    assert!(state.modules.get(&2).is_none());
    assert_eq!(state.connections.get(&(2, 0)), Some(&(1, 0)));
}

#[test]
fn sequence_counts_from_one() {
    let mut seq = Sequence::new();
    assert_eq!(seq.last(), None);
    assert_eq!(seq.next(), 1);
    assert_eq!(seq.next(), 2);
    assert_eq!(seq.last(), Some(2));
}

type TestApp = App<String, (i32, i32), u8, f32>;
type Msg = AppMsg<String, (i32, i32), u8, &'static str, f32>;

fn server(m: ServerMessage<String, (i32, i32), u8>) -> Msg {
    AppMsg::ServerMessage(m)
}

#[test]
fn client_renders_once_changes_round_trip() {
    let mut app: TestApp = App::new(800, 600);
    assert!(app.synced());
    assert!(app.state().is_none());
    let (render, action) = app.update::<&str>(server(ServerMessage::WorkspaceState(snapshot())));
    assert!(render);
    match action {
        Action::StartAudio { sample_rate, receivers } => {
            assert_eq!(sample_rate, 44100);
            assert_eq!(receivers.len(), 2);
        }
        _ => panic!("expected playback to start"),
    }
    let mut sequences = vec![];
    for op in ["first", "second"] {
        let (render, action) = app.update(AppMsg::ClientUpdate(op));
        assert!(!render);
        match action {
            Action::Send(m) => {
                assert_eq!(m.op, op);
                sequences.push(m.sequence);
            }
            _ => panic!("expected a message to send"),
        }
    }
    assert_eq!(sequences, vec![1, 2]);
    assert!(!app.synced());
    // the server echoes the first change: still waiting for the second
    let (render, _) = app.update::<&str>(server(ServerMessage::Update(ServerUpdate::UpdateModuleParams(2, "mix2".to_string()))));
    assert!(!render);
    assert!(!app.update::<&str>(server(ServerMessage::Sync(1))).0);
    assert!(!app.update::<&str>(server(ServerMessage::Update(ServerUpdate::DeleteConnection((2, 0))))).0);
    assert!(app.update::<&str>(server(ServerMessage::Sync(2))).0);
    assert!(app.update::<&str>(server(ServerMessage::Update(ServerUpdate::DeleteModule(1)))).0);
    let state = app.state().as_ref().unwrap();
    assert_eq!(state.modules.get(&2), Some(&"mix2".to_string()));
    assert!(state.modules.get(&1).is_none());
    assert!(state.connections.is_empty());
}

#[test]
fn local_events() {
    let mut app: TestApp = App::new(800, 600);
    let (render, action) = app.update::<&str>(AppMsg::NoOp);
    assert!(!render);
    assert!(matches!(action, Action::Nothing));
    assert_eq!(app.viewport_size(), (800, 600));
    let (render, action) = app.update::<&str>(AppMsg::WindowResize { width: 1024, height: 768 });
    assert!(render);
    assert!(matches!(action, Action::Nothing));
    assert_eq!(app.viewport_size(), (1024, 768));
}

#[test]
fn audio_is_split_per_channel() {
    let mut app: TestApp = App::new(800, 600);
    // audio before the workspace is ignored
    let (render, action) = app.update::<&str>(AppMsg::AudioData(vec![1.0, 2.0]));
    assert!(!render);
    assert!(matches!(action, Action::Nothing));
    let mut receivers = match app.update::<&str>(server(ServerMessage::WorkspaceState(snapshot()))).1 {
        Action::StartAudio { receivers, .. } => receivers,
        _ => panic!("expected playback to start"),
    };
    assert!(!app.update::<&str>(AppMsg::AudioData(vec![1.0, 2.0, 3.0, 4.0, 5.0])).0);
    let mut buf = [0.0f32; 4];
    assert_eq!(receivers[0].pop_slice(&mut buf), 3);
    assert_eq!(&buf[..3], &[1.0, 2.0, 3.0]);
    assert_eq!(receivers[1].pop_slice(&mut buf), 2);
    assert_eq!(&buf[..2], &[4.0, 5.0]);
    assert_eq!(receivers.remove(0).into_consumer().capacity(), AUDIO_BUFFER_CAPACITY);
}

#[test]
fn new_workspace_replaces_buffers() {
    let mut app: TestApp = App::new(800, 600);
    let first = app.update::<&str>(server(ServerMessage::WorkspaceState(snapshot())));
    let mut ws = snapshot();
    ws.channels = 3;
    let second = app.update::<&str>(server(ServerMessage::WorkspaceState(ws)));
    match (first.1, second.1) {
        (Action::StartAudio { receivers: a, .. }, Action::StartAudio { receivers: b, .. }) => {
            assert_eq!(a.len(), 2);
            assert_eq!(b.len(), 3);
        }
        _ => panic!("expected playback to start"),
    }
    assert_eq!(app.state().as_ref().unwrap().channels, 3);
}

#[test]
fn socket_urls() {
    assert_eq!(data_socket_url("localhost:8000"), "ws://localhost:8000/session");
    assert_eq!(audio_socket_url("localhost:8000"), "ws://localhost:8000/session_audio");
}

#[test]
fn chunks_of_audio() {
    assert_eq!(chunk_bounds(5, 3, 0), (0, 3));
    assert_eq!(chunk_bounds(5, 3, 1), (3, 5));
    assert_eq!(chunk_bounds(6, 3, 1), (3, 6));
    assert_eq!(chunk_bounds(7, 2, 3), (6, 7));
}

#[test]
fn snapshot_order_does_not_matter() {
    let mut a = snapshot();
    a.modules = vec![(1, "osc".to_string()), (2, "mix".to_string()), (3, "out".to_string())];
    let mut b = snapshot();
    b.modules = vec![(3, "out".to_string()), (1, "osc".to_string()), (2, "mix".to_string())];
    let sa = State::from(a);
    let sb = State::from(b);
    assert_eq!(sa.modules, sb.modules);
    let ids: Vec<usize> = sb.modules.keys().copied().collect();
    assert_eq!(ids, vec![1, 2, 3]);
}

#[test]
fn sync_keeps_playback_buffers() {
    let mut app: TestApp = App::new(1, 1);
    let mut receivers = match app.update::<&str>(server(ServerMessage::WorkspaceState(snapshot()))).1 {
        Action::StartAudio { receivers, .. } => receivers,
        _ => panic!("expected playback to start"),
    };
    let (_, _) = app.update(AppMsg::ClientUpdate("x"));
    assert!(app.update::<&str>(server(ServerMessage::Sync(1))).0);
    app.update::<&str>(AppMsg::AudioData(vec![1.0, 2.0, 3.0, 4.0]));
    let mut buf = [0.0f32; 3];
    assert_eq!(receivers[0].pop_slice(&mut buf), 3);
    assert_eq!(receivers[1].pop_slice(&mut buf), 1);
    assert_eq!(buf[0], 4.0);
}

#[test]
fn full_playback_buffer_takes_a_prefix() {
    let mut app: TestApp = App::new(1, 1);
    let mut receivers = match app.update::<&str>(server(ServerMessage::WorkspaceState(snapshot()))).1 {
        Action::StartAudio { receivers, .. } => receivers,
        _ => panic!("expected playback to start"),
    };
    let per_channel = AUDIO_BUFFER_CAPACITY / 3;
    for _ in 0..per_channel {
        app.update::<&str>(AppMsg::AudioData(vec![0.0; 6]));
    }
    app.update::<&str>(AppMsg::AudioData(vec![1.0, 2.0, 3.0, 4.0, 5.0, 6.0]));
    let mut buf = vec![9.0f32; AUDIO_BUFFER_CAPACITY + 1];
    assert_eq!(receivers[0].pop_slice(&mut buf), AUDIO_BUFFER_CAPACITY);
    assert_eq!(&buf[AUDIO_BUFFER_CAPACITY - 2..], &[1.0, 2.0, 9.0]);
    let mut buf = vec![9.0f32; AUDIO_BUFFER_CAPACITY + 1];
    assert_eq!(receivers[1].pop_slice(&mut buf), AUDIO_BUFFER_CAPACITY);
    assert_eq!(&buf[AUDIO_BUFFER_CAPACITY - 2..], &[4.0, 5.0, 9.0]);
}

#[test]
fn each_receiver_plays_its_own_channel() {
    let mut app: TestApp = App::new(1, 1);
    let receivers = match app.update::<&str>(server(ServerMessage::WorkspaceState(snapshot()))).1 {
        Action::StartAudio { receivers, .. } => receivers,
        _ => panic!("expected playback to start"),
    };
    app.update::<&str>(AppMsg::AudioData(vec![1.0, 2.0, 3.0, 4.0, 5.0, 6.0]));
    let mut consumers: Vec<_> = receivers.into_iter().map(|r| r.into_consumer()).collect();
    assert_eq!(consumers[1].capacity(), AUDIO_BUFFER_CAPACITY);
    let mut buf = [0.0f32; 3];
    assert_eq!(consumers[1].pop_slice(&mut buf), 3);
    assert_eq!(buf, [4.0, 5.0, 6.0]);
    assert_eq!(consumers[0].pop_slice(&mut buf), 3);
    assert_eq!(buf, [1.0, 2.0, 3.0]);
}

#[test]
fn synced_only_after_last_change_comes_back() {
    let mut app: TestApp = App::new(1, 1);
    app.update::<&str>(server(ServerMessage::WorkspaceState(snapshot())));
    assert!(app.synced());
    app.update(AppMsg::ClientUpdate("a"));
    app.update(AppMsg::ClientUpdate("b"));
    assert!(!app.synced());
    assert!(!app.update::<&str>(server(ServerMessage::Sync(1))).0);
    assert!(!app.synced());
    app.update::<&str>(AppMsg::NoOp);
    assert!(!app.synced());
    assert!(app.update::<&str>(server(ServerMessage::Sync(2))).0);
    assert!(app.synced());
    app.update::<&str>(AppMsg::WindowResize { width: 2, height: 2 });
    assert!(app.synced());
}
