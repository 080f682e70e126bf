use mixlab::source::{ConnectError, ListenError, Registry, CHANNEL_CAPACITY};

#[test]
fn listen_claims_name_once() {
    let mut reg: Registry<f32> = Registry::new();
    let recv = reg.listen("main").unwrap();
    assert_eq!(recv.channel_name(), "main");
    assert!(matches!(reg.listen("main"), Err(ListenError::AlreadyInUse)));
    assert!(reg.listen("other").is_ok());
}

#[test]
fn connect_needs_a_listener() {
    let mut reg: Registry<f32> = Registry::new();
    assert!(matches!(reg.connect("nowhere"), Err(ConnectError::NoMountpoint)));
}

#[test]
fn one_sender_per_channel() {
    let mut reg: Registry<f32> = Registry::new();
    let _recv = reg.listen("a").unwrap();
    let send = reg.connect("a").unwrap();
    assert!(matches!(reg.connect("a"), Err(ConnectError::AlreadyConnected)));
    reg.release_sender(send);
    assert!(reg.connect("a").is_ok());
}

#[test]
fn closing_listener_frees_name() {
    let mut reg: Registry<f32> = Registry::new();
    let recv = reg.listen("a").unwrap();
    let mut send = reg.connect("a").unwrap();
    assert!(send.connected());
    reg.release_receiver(recv);
    assert!(!send.connected());
    assert_eq!(send.write(&[1.0, 2.0]), Err(()));
    assert!(matches!(reg.connect("a"), Err(ConnectError::NoMountpoint)));
    assert!(reg.listen("a").is_ok());
    // the old sender's buffer goes to the channel of the same name
    reg.release_sender(send);
    assert!(reg.connect("a").is_ok());
}

#[test]
fn releasing_sender_of_removed_channel_changes_nothing() {
    let mut reg: Registry<f32> = Registry::new();
    let recv = reg.listen("a").unwrap();
    let send = reg.connect("a").unwrap();
    reg.release_receiver(recv);
    reg.release_sender(send);
    assert!(matches!(reg.connect("a"), Err(ConnectError::NoMountpoint)));
}

#[test]
fn samples_flow_from_sender_to_listener() {
    let mut reg: Registry<f32> = Registry::new();
    let mut recv = reg.listen("a").unwrap();
    let mut send = reg.connect("a").unwrap();
    assert_eq!(send.write(&[0.5, -0.25, 1.0]), Ok(3));
    let mut buf = [9.0f32; 5];
    let n = recv.read(&mut buf);
    assert_eq!(n, 3);
    assert_eq!(buf, [0.5, -0.25, 1.0, 9.0, 9.0]);
    assert_eq!(recv.read(&mut buf), 0);
}

#[test]
fn write_stops_at_capacity() {
    let mut reg: Registry<u8> = Registry::new();
    let _recv = reg.listen("a").unwrap();
    let mut send = reg.connect("a").unwrap();
    let data = vec![7u8; CHANNEL_CAPACITY + 10];
    assert_eq!(send.write(&data), Ok(CHANNEL_CAPACITY));
    assert_eq!(send.write(&data), Ok(0));
}

#[test]
fn write_checked_follows_the_flag() {
    let mut reg: Registry<i32> = Registry::new();
    let mut recv = reg.listen("a").unwrap();
    let mut send = reg.connect("a").unwrap();
    assert_eq!(send.write_checked(false, &[1, 2]), Err(()));
    assert_eq!(send.write_checked(true, &[1, 2]), Ok(2));
    let mut buf = [0i32; 2];
    assert_eq!(recv.read(&mut buf), 2);
    assert_eq!(buf, [1, 2]);
}

#[test]
fn listen_then_close_restores_registry() {
    let mut reg: Registry<f32> = Registry::new();
    let recv = reg.listen("x").unwrap();
    reg.release_receiver(recv);
    assert!(matches!(reg.connect("x"), Err(ConnectError::NoMountpoint)));
    let recv = reg.listen("x").unwrap();
    assert_eq!(recv.channel_name(), "x");
}

#[test]
fn channels_are_independent() {
    let mut reg: Registry<f32> = Registry::new();
    let ra = reg.listen("a").unwrap();
    let _rb = reg.listen("b").unwrap();
    let _sa = reg.connect("a").unwrap();
    assert!(reg.connect("b").is_ok());
    reg.release_receiver(ra);
    assert!(matches!(reg.connect("b"), Err(ConnectError::AlreadyConnected)));
}

#[test]
fn write_keeps_the_prefix_that_fits() {
    let mut reg: Registry<u32> = Registry::new();
    let mut recv = reg.listen("a").unwrap();
    let mut send = reg.connect("a").unwrap();
    let data: Vec<u32> = (0..(CHANNEL_CAPACITY as u32 + 10)).collect();
    assert_eq!(send.write(&data), Ok(CHANNEL_CAPACITY));
    let mut buf = vec![0u32; CHANNEL_CAPACITY + 10];
    assert_eq!(recv.read(&mut buf), CHANNEL_CAPACITY);
    assert_eq!(&buf[..CHANNEL_CAPACITY], &data[..CHANNEL_CAPACITY]);
    assert!(buf[CHANNEL_CAPACITY..].iter().all(|&x| x == 0));
}

#[test]
fn refused_listen_keeps_the_live_channel() {
    let mut reg: Registry<i32> = Registry::new();
    let mut recv = reg.listen("a").unwrap();
    assert!(matches!(reg.listen("a"), Err(ListenError::AlreadyInUse)));
    let mut send = reg.connect("a").unwrap();
    assert!(matches!(reg.connect("a"), Err(ConnectError::AlreadyConnected)));
    assert_eq!(send.write(&[4, 5, 6]), Ok(3));
    let mut buf = [0i32; 3];
    assert_eq!(recv.read(&mut buf), 3);
    assert_eq!(buf, [4, 5, 6]);
}

#[test]
fn closing_one_channel_keeps_the_others_flowing() {
    let mut reg: Registry<i32> = Registry::new();
    let ra = reg.listen("a").unwrap();
    let mut rb = reg.listen("b").unwrap();
    let mut sb = reg.connect("b").unwrap();
    assert_eq!(sb.write(&[1, 2]), Ok(2));
    reg.release_receiver(ra);
    assert!(sb.connected());
    assert_eq!(sb.write(&[3]), Ok(1));
    let mut buf = [0i32; 4];
    assert_eq!(rb.read(&mut buf), 3);
    assert_eq!(buf, [1, 2, 3, 0]);
}

#[test]
fn handles_show_their_shared_state() {
    let mut reg: Registry<f32> = Registry::new();
    let recv = reg.listen("main").unwrap();
    let send = reg.connect("main").unwrap();
    let text = "SourceShared { channel_name: \"main\", recv_online: true }";
    assert_eq!(format!("{:?}", send.shared()), text);
    assert_eq!(format!("{:?}", recv.shared()), text);
    reg.release_receiver(recv);
    assert_eq!(
        format!("{:?}", send.shared()),
        "SourceShared { channel_name: \"main\", recv_online: false }"
    );
}
