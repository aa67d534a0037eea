use crust::auth::{has_joined_url, server_hash, GameProfile, Property};

#[test]
fn server_hash_positive_and_negative() {
    let secret: [u8; 16] = core::array::from_fn(|i| i as u8);
    assert_eq!(server_hash("", &secret, &[]), "56178b86a57fac22899a9964185c2cc96e7da589");
    assert_eq!(server_hash("abc", &secret, &[1, 2]), "28064b59e53ec7415cedd93894d7ca22ab5e2746");
}

#[test]
fn has_joined_query() {
    let secret: [u8; 16] = core::array::from_fn(|i| i as u8);
    let url = has_joined_url("Notch", "", &secret, &[], None);
    assert_eq!(
        url,
        "https://sessionserver.mojang.com/session/minecraft/hasJoined?username=Notch&serverId=56178b86a57fac22899a9964185c2cc96e7da589"
    );
    let url = has_joined_url("a b", "", &secret, &[], Some("::1"));
    assert!(url.contains("username=a%20b&"));
    assert!(url.ends_with("&ip=%3A%3A1"));
}

#[test]
fn profile_without_properties() {
    let p = GameProfile {
        id: "id".to_string(),
        name: "Notch".to_string(),
        properties: vec![Property { name: "textures".into(), value: "v".into(), signature: None }],
    };
    let q = p.clone_without_properties();
    assert_eq!(q.id, "id");
    assert_eq!(q.name, "Notch");
    assert!(q.properties.is_empty());
}
