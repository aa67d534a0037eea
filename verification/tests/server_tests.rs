use crust::server::compression::{compress, decompress, RefSizeLimitedReader};
use crust::server::status::{favicon_data_url, get_status_response};
use crust::server::{already_connected, has_permission, ProxyConfig, ServerInfo, ServerList};
use crust::util::{generate_uuid, ByteReader, IoError, Uuid};

fn info(label: &str, address: &str) -> ServerInfo {
    ServerInfo { label: label.to_string(), address: address.to_string() }
}

#[test]
fn server_list_behaves_as_map() {
    let mut list = ServerList::new(vec!["lobby".to_string()]);
    list.add_server(info("lobby", "127.0.0.1:25565"));
    list.add_server(info("game", "127.0.0.1:25566"));
    assert_eq!(list.get_server_by_name("lobby").unwrap().address, "127.0.0.1:25565");
    list.add_server(info("lobby", "10.0.0.1:25565"));
    assert_eq!(list.all_servers().len(), 2);
    assert_eq!(list.get_server_by_name("lobby").unwrap().address, "10.0.0.1:25565");
    assert_eq!(list.get_server_by_name("game").unwrap().address, "127.0.0.1:25566");
    assert!(list.remove_server_by_name("lobby"));
    assert!(!list.remove_server_by_name("lobby"));
    assert!(list.get_server_by_name("lobby").is_none());
    assert_eq!(list.list_servers().len(), 1);
    assert_eq!(list.get_priorities(), &["lobby".to_string()]);
}

#[test]
fn default_config() {
    let c = ProxyConfig::default();
    assert_eq!(c.bind_address, "0.0.0.0:25577");
    assert_eq!(c.compression_threshold, 256);
    assert_eq!(c.max_players, 100);
    assert_eq!(c.servers.len(), 1);
    assert_eq!(c.servers[0].label, "lobby");
    assert_eq!(c.priorities, vec!["lobby".to_string()]);
    assert_eq!(c.groups.len(), 2);
    assert_eq!(c.users[0].0, "Outfluencer");
    let list = ServerList::from_config(&c);
    assert_eq!(list.get_server_by_name("lobby").unwrap().address, "127.0.0.1:25565");
}

#[test]
fn permissions_by_group() {
    let c = ProxyConfig::default();
    let admin = generate_uuid("Outfluencer");
    let other = generate_uuid("Someone");
    assert!(has_permission(&c, "Outfluencer", &admin, "crust.command.end"));
    assert!(has_permission(&c, "Someone", &other, "crust.command.server"));
    assert!(!has_permission(&c, "Someone", &other, "crust.command.end"));
    let mut c2 = ProxyConfig::default();
    c2.users = vec![(other.to_hyphenated_string(), vec!["admin".to_string()])];
    assert!(has_permission(&c2, "Someone", &other, "crust.command.gkick"));
    c2.groups = vec![];
    assert!(!has_permission(&c2, "Someone", &other, "crust.command.server"));
}

#[test]
fn status_response() {
    let c = ProxyConfig::default();
    let s = get_status_response(767, &c, 3, &None);
    assert_eq!(s.version.name, "Crust 1.20.2-1.21.4");
    assert_eq!(s.version.protocol, 767);
    assert_eq!(s.players.max, 100);
    assert_eq!(s.players.online, 3);
    assert_eq!(s.description.as_deref(), Some("A Rust Minecraft Proxy"));
    let s = get_status_response(1, &c, 0, &Some("icon".to_string()));
    assert_eq!(s.version.protocol, -1);
    assert_eq!(s.favicon.as_deref(), Some("icon"));
}

#[test]
fn compression_below_and_above_threshold() {
    let data = vec![7u8; 10];
    let mut out = Vec::new();
    assert_eq!(compress(&data, 256, &mut out), Ok(false));
    assert_eq!(out[0], 0);
    assert_eq!(&out[1..], &data[..]);
    let mut back = Vec::new();
    decompress(&out, &mut back).unwrap();
    assert_eq!(back, data);

    let big = vec![42u8; 1000];
    let mut out = Vec::new();
    assert_eq!(compress(&big, 256, &mut out), Ok(true));
    assert_eq!(&out[..2], &[0xe8, 0x07]);
    assert!(out.len() < big.len());
    let mut back = Vec::new();
    decompress(&out, &mut back).unwrap();
    assert_eq!(back, big);
}

#[test]
fn decompression_limit_and_garbage() {
    let mut back = Vec::new();
    assert_eq!(decompress(&[0x05, 1, 2, 3], &mut back), Err(IoError::InvalidInput));
    let body: Vec<u8> = (0u8..200).collect();
    let mut whole = Vec::new();
    compress(&body, 0, &mut whole).unwrap();
    let cut = &whole[..whole.len() - 6];
    let mut back = Vec::new();
    assert_eq!(decompress(cut, &mut back), Err(IoError::UnexpectedEof));
    let huge = vec![0u8; 9 * 1024 * 1024];
    let mut out = Vec::new();
    compress(&huge, 0, &mut out).unwrap();
    let mut back = Vec::new();
    assert_eq!(decompress(&out, &mut back), Err(IoError::InvalidData));
    assert!(back.len() <= 8 * 1024 * 1024);
}

#[test]
fn limited_reader_fails_at_limit() {
    let data = [1u8, 2, 3, 4];
    let mut r = ByteReader::new(&data);
    let mut lim = RefSizeLimitedReader::new(5);
    let mut out = Vec::new();
    assert_eq!(lim.read_to_end(&mut r, &mut out), Ok(4));
    assert_eq!(out, vec![1, 2, 3, 4]);
    let mut r = ByteReader::new(&data);
    let mut lim = RefSizeLimitedReader::new(4);
    let mut out = Vec::new();
    assert_eq!(lim.read_to_end(&mut r, &mut out), Err(IoError::InvalidData));
    assert_eq!(out, vec![1, 2, 3, 4]);
    let mut r = ByteReader::new(&data);
    let mut lim = RefSizeLimitedReader::new(2);
    assert_eq!(lim.read(&mut r, 10).unwrap(), vec![1, 2]);
    assert_eq!(lim.read(&mut r, 10), Err(IoError::InvalidData));
}

#[test]
fn fallback_skips_unknown_labels() {
    let mut list = ServerList::new(vec!["missing".to_string(), "lobby".to_string(), "game".to_string()]);
    list.add_server(info("game", "127.0.0.1:25566"));
    list.add_server(info("lobby", "127.0.0.1:25565"));
    let (i, first) = list.next_fallback(0).unwrap();
    assert_eq!(i, 1);
    assert_eq!(first.label, "lobby");
    let (j, second) = list.next_fallback(i + 1).unwrap();
    assert_eq!(j, 2);
    assert_eq!(second.address, "127.0.0.1:25566");
    assert!(list.next_fallback(j + 1).is_none());
    assert!(ServerList::new(vec!["lobby".to_string()]).next_fallback(0).is_none());
}

#[test]
fn a_second_login_is_refused_by_name_or_uuid() {
    let alice = generate_uuid("Alice");
    let bob = generate_uuid("bob");
    let on = vec![("Alice".to_string(), alice)];
    assert!(already_connected(&on, "alice", &bob));
    assert!(already_connected(&on, "Mallory", &alice));
    assert!(!already_connected(&on, "bob", &bob));
    assert!(!already_connected(&Vec::new(), "Alice", &alice));
    let other = Uuid { bytes: [7; 16] };
    assert!(!already_connected(&on, "Alic", &other));
}

#[test]
fn favicon_is_a_base64_data_url() {
    assert_eq!(favicon_data_url(b""), "data:image/png;base64,");
    assert_eq!(favicon_data_url(b"f"), "data:image/png;base64,Zg==");
    assert_eq!(favicon_data_url(b"fo"), "data:image/png;base64,Zm8=");
    assert_eq!(favicon_data_url(b"foobar"), "data:image/png;base64,Zm9vYmFy");
    assert_eq!(favicon_data_url(&[0xfb, 0xff]), "data:image/png;base64,+/8=");
}
