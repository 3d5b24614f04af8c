use tsumiki::bits::{F32Bits, Vec3Bits};
use tsumiki::channels::{
    client_msg_channel, io_err, server_msg_channel, DEFAULT_PORT, MAX_CLIENTS, PROTOCOL_ID,
};
use tsumiki::chunk::{BlockId, Chunk};
use tsumiki::geometry::{IVec3, UVec3};
use tsumiki::local::{from_local_client, pair, LOCAL_CLIENT_ID};
use tsumiki::net_client::ClientLink;
use tsumiki::net_server::ServerLink;
use tsumiki::protocol::{
    ClientToServer, ClientTransport, GameMode, PlayerSave, ServerToClient, ServerTransport,
};

fn save(x: f32) -> PlayerSave {
    PlayerSave {
        pos: Vec3Bits {
            x: F32Bits(x.to_bits()),
            y: F32Bits(0f32.to_bits()),
            z: F32Bits(0f32.to_bits()),
        },
        yaw: F32Bits(0),
        pitch: F32Bits(0),
    }
}

fn encode_client(msg: &ClientToServer) -> Vec<u8> {
    match msg {
        ClientToServer::Hello { name } => {
            let mut out = vec![1];
            out.extend(name.as_bytes());
            out
        }
        ClientToServer::PlaceBlock { pos, hotbar } => {
            vec![2, pos.x as u8, pos.y as u8, pos.z as u8, *hotbar]
        }
        ClientToServer::UpdatePlayer(save) => {
            let mut out = vec![3];
            out.extend(save.pos.x.0.to_le_bytes());
            out
        }
        _ => vec![0],
    }
}

fn decode_client(bytes: Vec<u8>) -> Option<ClientToServer> {
    match bytes.first()? {
        1 => Some(ClientToServer::Hello {
            name: String::from_utf8(bytes[1..].to_vec()).ok()?,
        }),
        2 => Some(ClientToServer::PlaceBlock {
            pos: IVec3::new(bytes[1].into(), bytes[2].into(), bytes[3].into()),
            hotbar: bytes[4],
        }),
        3 => Some(ClientToServer::UpdatePlayer(save(f32::from_bits(
            u32::from_le_bytes([bytes[1], bytes[2], bytes[3], bytes[4]]),
        )))),
        _ => None,
    }
}

fn welcome(client_id: u64) -> ServerToClient {
    ServerToClient::Welcome {
        client_id,
        player: None,
        game_mode: GameMode::Creative,
        time_of_day: F32Bits(0.25f32.to_bits()),
    }
}

fn encode_server(msg: &ServerToClient) -> Vec<u8> {
    match msg {
        ServerToClient::Welcome { client_id, .. } => vec![1, *client_id as u8],
        ServerToClient::ChunkData { pos, chunk } => {
            let mut out = vec![2, pos.x as i8 as u8, pos.y as i8 as u8, pos.z as i8 as u8];
            for y in 0..32 {
                for z in 0..32 {
                    for x in 0..32 {
                        out.push(chunk.get(UVec3::new(x, y, z)).0 as u8);
                    }
                }
            }
            out
        }
        _ => vec![0],
    }
}

fn decode_server(bytes: Vec<u8>) -> Option<ServerToClient> {
    match bytes.first()? {
        1 => Some(welcome(u64::from(bytes[1]))),
        2 => {
            let pos = IVec3::new(
                i32::from(bytes[1] as i8),
                i32::from(bytes[2] as i8),
                i32::from(bytes[3] as i8),
            );
            let mut chunk = Chunk::filled(BlockId(0));
            let mut n = 4;
            for y in 0..32 {
                for z in 0..32 {
                    for x in 0..32 {
                        chunk.set(UVec3::new(x, y, z), BlockId(u16::from(bytes[n])));
                        n += 1;
                    }
                }
            }
            Some(ServerToClient::ChunkData { pos, chunk })
        }
        _ => None,
    }
}

fn say(link: &mut ClientLink, msg: ClientToServer) {
    let bytes = encode_client(&msg);
    link.send(&msg, bytes);
}

fn tell(server: &mut ServerLink, to: u64, msg: ServerToClient) {
    let bytes = encode_server(&msg);
    server.send(to, &msg, bytes);
}

/// Carries what is queued on both sides across, a few times.
fn exchange(server: &mut ServerLink, id: u64, client: &mut ClientLink) {
    for _ in 0..8 {
        client.pump(decode_server);
        server.server.process_local_client(id, &mut client.client).unwrap();
        server.pump(decode_client);
    }
    client.pump(decode_server);
}

#[test]
fn connect_hello_welcome() {
    let mut server = ServerLink::new();
    let mut client = ClientLink::new();
    // Hello is sent before the connection is up; it must survive.
    say(&mut client, ClientToServer::Hello { name: "alice".into() });
    assert_eq!(client.pending.len(), 1);

    server.server.add_connection(7);
    client.client.set_connected();
    exchange(&mut server, 7, &mut client);
    assert_eq!(client.pending.len(), 0);

    let (id, hello) = server.try_recv().expect("a message from the client");
    assert_eq!(id, 7);
    match hello {
        ClientToServer::Hello { name } => assert_eq!(name, "alice"),
        other => panic!("expected Hello, got {other:?}"),
    }

    tell(&mut server, id, welcome(id));
    exchange(&mut server, 7, &mut client);
    match client.try_recv().expect("a Welcome") {
        ServerToClient::Welcome { client_id, player, .. } => {
            assert_eq!(client_id, id);
            assert!(player.is_none());
        }
        other => panic!("expected Welcome, got {other:?}"),
    }
    assert!(client.try_recv().is_none());
}

#[test]
fn reliable_and_unreliable_channels() {
    let mut server = ServerLink::new();
    let mut client = ClientLink::new();
    client.client = server.server.new_local_client(3);
    assert!(client.client.is_connected());
    say(
        &mut client,
        ClientToServer::PlaceBlock { pos: IVec3::new(1, 2, 3), hotbar: 7 },
    );
    for i in 0..50 {
        say(&mut client, ClientToServer::UpdatePlayer(save(i as f32)));
    }
    exchange(&mut server, 3, &mut client);
    let mut saw_place = false;
    let mut saw_update = false;
    while let Some((_, msg)) = server.try_recv() {
        match msg {
            ClientToServer::PlaceBlock { pos, hotbar } => {
                assert_eq!(pos, IVec3::new(1, 2, 3));
                assert_eq!(hotbar, 7);
                saw_place = true;
            }
            ClientToServer::UpdatePlayer(_) => saw_update = true,
            other => panic!("unexpected message: {other:?}"),
        }
    }
    assert!(saw_place, "the reliable message must always arrive");
    assert!(saw_update, "at least one unreliable message must arrive");
}

#[test]
fn two_clients_distinct_ids() {
    let mut server = ServerLink::new();
    let mut a = ClientLink::new();
    let mut b = ClientLink::new();
    a.client = server.server.new_local_client(1);
    b.client = server.server.new_local_client(2);
    say(&mut a, ClientToServer::Hello { name: "a".into() });
    say(&mut b, ClientToServer::Hello { name: "b".into() });
    exchange(&mut server, 1, &mut a);
    exchange(&mut server, 2, &mut b);
    let mut hellos: Vec<(u64, String)> = Vec::new();
    while let Some((id, msg)) = server.try_recv() {
        if let ClientToServer::Hello { name } = msg {
            hellos.push((id, name));
        }
    }
    hellos.sort();
    assert_eq!(hellos, vec![(1, "a".to_string()), (2, "b".to_string())]);

    tell(&mut server, 1, welcome(1));
    exchange(&mut server, 1, &mut a);
    exchange(&mut server, 2, &mut b);
    match a.try_recv().expect("a Welcome for a") {
        ServerToClient::Welcome { client_id, .. } => assert_eq!(client_id, 1),
        other => panic!("expected Welcome, got {other:?}"),
    }
    assert!(b.try_recv().is_none(), "b received a message meant for a");
}

#[test]
fn disconnect_synthesizes_goodbye() {
    let mut server = ServerLink::new();
    let mut client = ClientLink::new();
    client.client = server.server.new_local_client(9);
    say(&mut client, ClientToServer::Hello { name: "carol".into() });
    exchange(&mut server, 9, &mut client);
    let (client_id, _) = server.try_recv().expect("Hello");
    server.server.remove_connection(9);
    server.pump(decode_client);
    let (goodbye_id, goodbye) = server.try_recv().expect("a farewell after the disconnect");
    assert_eq!(goodbye_id, client_id);
    assert!(
        matches!(goodbye, ClientToServer::Goodbye),
        "expected Goodbye, got {goodbye:?}"
    );
    // Sending to a client that is gone does nothing.
    tell(&mut server, 9, welcome(9));
    assert!(server.try_recv().is_none());
}

#[test]
fn chunk_data_roundtrip_chunk_data_roundtrip() {
    let mut server = ServerLink::new();
    let mut client = ClientLink::new();
    client.client = server.server.new_local_client(4);
    let mut chunk = Chunk::filled(BlockId(0));
    let samples = [
        (UVec3::new(0, 0, 0), BlockId(1)),
        (UVec3::new(31, 0, 0), BlockId(2)),
        (UVec3::new(5, 17, 9), BlockId(3)),
        (UVec3::new(31, 31, 31), BlockId(4)),
    ];
    for &(pos, block) in &samples {
        chunk.set(pos, block);
    }
    let chunk_pos = IVec3::new(2, 0, -3);
    tell(
        &mut server,
        4,
        ServerToClient::ChunkData { pos: chunk_pos, chunk: chunk.clone() },
    );
    exchange(&mut server, 4, &mut client);
    match client.try_recv().expect("ChunkData") {
        ServerToClient::ChunkData { pos, chunk: received } => {
            assert_eq!(pos, chunk_pos);
            for &(local, expected) in &samples {
                assert_eq!(received.get(local), expected, "mismatch at {local:?}");
            }
            assert_eq!(received.get(UVec3::new(10, 10, 10)), BlockId(0));
        }
        other => panic!("expected ChunkData, got {other:?}"),
    }
}

#[test]
fn malformed_bytes_are_dropped() {
    let mut server = ServerLink::new();
    let mut client = ClientLink::new();
    client.client = server.server.new_local_client(5);
    client.send(&ClientToServer::Respawn, vec![250, 1, 2]);
    say(&mut client, ClientToServer::Hello { name: "dora".into() });
    exchange(&mut server, 5, &mut client);
    let (_, msg) = server.try_recv().expect("Hello");
    assert!(matches!(msg, ClientToServer::Hello { .. }));
    assert!(server.try_recv().is_none());
}

#[test]
fn after_a_disconnect_nothing_is_sent_or_kept() {
    let mut client = ClientLink::new();
    assert!(client.is_open());
    client.client.disconnect();
    assert!(!client.is_open());
    say(&mut client, ClientToServer::Hello { name: "eve".into() });
    assert_eq!(client.pending.len(), 0);
}

#[test]
fn waiting_messages_keep_their_order() {
    let mut server = ServerLink::new();
    let mut client = ClientLink::new();
    for name in ["one", "two", "three"] {
        say(&mut client, ClientToServer::Hello { name: name.into() });
    }
    client.pump(decode_server);
    assert_eq!(client.pending.len(), 3, "nothing is sent before the connection is up");
    server.server.add_connection(6);
    client.client.set_connected();
    exchange(&mut server, 6, &mut client);
    let mut names = Vec::new();
    while let Some((_, ClientToServer::Hello { name })) = server.try_recv() {
        names.push(name);
    }
    assert_eq!(names, vec!["one", "two", "three"]);
}

#[test]
fn only_movement_travels_unreliably() {
    assert_eq!(client_msg_channel(&ClientToServer::UpdatePlayer(save(0.0))), 0);
    assert_eq!(client_msg_channel(&ClientToServer::Goodbye), 2);
    assert_eq!(client_msg_channel(&ClientToServer::Hello { name: String::new() }), 2);
    assert_eq!(
        server_msg_channel(&ServerToClient::PlayerMoved { id: 1, state: save(0.0) }),
        0
    );
    assert_eq!(server_msg_channel(&ServerToClient::PlayerLeft { id: 1 }), 2);
    assert_eq!(server_msg_channel(&welcome(1)), 2);
    assert_eq!((PROTOCOL_ID, DEFAULT_PORT, MAX_CLIENTS), (4, 24571, 64));
}

#[test]
fn io_errors_carry_their_text() {
    let err = io_err("no route to host");
    assert_eq!(err.to_string(), "no route to host");
    assert_eq!(err.kind(), std::io::ErrorKind::Other);
}

#[test]
fn the_local_pair_is_connected_in_both_directions() {
    let (mut server, mut client) = pair();
    assert!(server.try_recv().is_none());
    client.send(ClientToServer::Hello { name: "solo".into() });
    client.send(ClientToServer::Goodbye);
    match server.try_recv() {
        Some((id, ClientToServer::Hello { name })) => {
            assert_eq!(id, LOCAL_CLIENT_ID);
            assert_eq!(name, "solo");
        }
        other => panic!("unexpected {other:?}"),
    }
    assert!(matches!(server.try_recv(), Some((1, ClientToServer::Goodbye))));
    server.send(LOCAL_CLIENT_ID, ServerToClient::HealthUpdate { hp: 3 });
    assert!(matches!(client.try_recv(), Some(ServerToClient::HealthUpdate { hp: 3 })));
    assert!(client.try_recv().is_none());
    drop(server);
    client.send(ClientToServer::Respawn);
    assert!(from_local_client(None).is_none());
}
