use crust::chat::{ClickAction, HoverEvent, TextColor, TextContent};
use crust::server::command::{GKICK_COMMAND, GLIST_COMMAND, SEND_COMMAND, SERVER_COMMAND};
use crust::server::core_commands::{
    core_completions, equals_ignore_ascii_case, glist_messages, join, kick_reason, send_selection, send_target,
    server_list_text, shutdown_text, SendSelection, SendTarget,
};

fn strings(v: &[&str]) -> Vec<String> {
    v.iter().map(|s| s.to_string()).collect()
}

fn literal(t: &crust::chat::Text) -> String {
    match &t.content {
        TextContent::Literal(s) => s.clone(),
        _ => panic!("expected a literal"),
    }
}

#[test]
fn server_list_has_clickable_entries() {
    let t = server_list_text(&strings(&["lobby", "game"]));
    assert_eq!(literal(&t), "Available servers: ");
    assert_eq!(t.style.color, Some(TextColor::from_rgb(182, 255, 156)));
    assert_eq!(t.extra.len(), 3);
    assert_eq!(literal(&t.extra[0]), "lobby");
    assert_eq!(literal(&t.extra[1]), ", ");
    assert_eq!(literal(&t.extra[2]), "game");
    let click = t.extra[2].click_event.as_ref().unwrap();
    assert_eq!(click.action, ClickAction::RunCommand);
    assert_eq!(click.value, "/server game");
    match t.extra[0].hover_event.as_ref().unwrap() {
        HoverEvent::ShowText(h) => assert_eq!(literal(h), "click to connect"),
        _ => panic!("expected hover text"),
    }
    assert!(server_list_text(&[]).extra.is_empty());
}

#[test]
fn kick_reasons() {
    let t = kick_reason(&strings(&["Steve", "too", "loud"]));
    assert_eq!(literal(&t), "too loud");
    assert_eq!(t.style.color, None);
    let t = kick_reason(&strings(&["Steve"]));
    assert_eq!(literal(&t), "You have been kicked off the proxy");
    assert_eq!(t.style.color, Some(TextColor::Red));
}

#[test]
fn shutdown_texts() {
    assert_eq!(literal(&shutdown_text("")), "§cProxy Server shutdown");
    assert_eq!(literal(&shutdown_text("&aBye && see you")), "§aBye §§ see you");
}

#[test]
fn send_targets() {
    assert_eq!(send_target("*"), SendTarget::Everyone);
    assert_eq!(send_target("*CURRENT"), SendTarget::SameServer);
    assert_eq!(send_target("*current"), SendTarget::SameServer);
    assert_eq!(send_target("Steve"), SendTarget::Player("Steve".to_string()));
    assert_eq!(send_target("**"), SendTarget::Player("**".to_string()));
    assert!(equals_ignore_ascii_case("AbC", "aBc"));
    assert!(!equals_ignore_ascii_case("É", "é"));
}

#[test]
fn glist_groups_by_server() {
    let players = vec![
        ("Alex".to_string(), Some("lobby".to_string())),
        ("Steve".to_string(), Some("game".to_string())),
        ("Notch".to_string(), None),
        ("Jeb".to_string(), Some("lobby".to_string())),
    ];
    let m = glist_messages(&players);
    assert_eq!(m.len(), 3);
    assert_eq!(literal(&m[0]), "There are currently 4 players on the proxy");
    assert_eq!(literal(&m[1]), "lobby (2): Alex, Jeb");
    assert_eq!(literal(&m[2]), "game (1): Steve");
    assert_eq!(m[1].style.color, Some(TextColor::from_rgb(182, 255, 156)));
    assert_eq!(literal(&glist_messages(&[])[0]), "There are currently 0 players on the proxy");
}

#[test]
fn joins() {
    assert_eq!(join(&strings(&["a", "b", "c"]), 0, ", "), "a, b, c");
    assert_eq!(join(&strings(&["a", "b", "c"]), 2, ", "), "c");
    assert_eq!(join(&strings(&["a"]), 1, ", "), "");
}

#[test]
fn completions_of_core_commands() {
    let labels = strings(&["lobby", "game", "lab"]);
    let names = strings(&["Steve", "Sam", "Alex"]);
    assert_eq!(core_completions(SERVER_COMMAND, &strings(&["l"]), &labels, &names), strings(&["lobby", "lab"]));
    assert_eq!(core_completions(GKICK_COMMAND, &strings(&["S"]), &labels, &names), strings(&["Steve", "Sam"]));
    assert_eq!(core_completions(SEND_COMMAND, &strings(&["*"]), &labels, &names), strings(&["*", "*current"]));
    assert_eq!(core_completions(SEND_COMMAND, &strings(&[""]), &labels, &names).len(), 5);
    assert_eq!(core_completions(SEND_COMMAND, &strings(&["Steve", "g"]), &labels, &names), strings(&["game"]));
    assert!(core_completions(GLIST_COMMAND, &strings(&["x"]), &labels, &names).is_empty());
    assert!(core_completions(SERVER_COMMAND, &strings(&["a", "b"]), &labels, &names).is_empty());
}

fn listed() -> Vec<(String, Option<String>)> {
    vec![
        ("Alice".to_string(), Some("lobby".to_string())),
        ("bob".to_string(), Some("survival".to_string())),
        ("Carol".to_string(), None),
        ("dave".to_string(), Some("lobby".to_string())),
    ]
}

#[test]
fn send_selects_everyone() {
    assert_eq!(send_selection(&listed(), &SendTarget::Everyone, None), SendSelection::Players(vec![0, 1, 2, 3]));
}

#[test]
fn send_selects_the_senders_server() {
    let p = listed();
    assert_eq!(send_selection(&p, &SendTarget::SameServer, Some(Some("lobby"))), SendSelection::Players(vec![0, 3]));
    assert_eq!(send_selection(&p, &SendTarget::SameServer, Some(None)), SendSelection::Players(vec![]));
    assert_eq!(send_selection(&p, &SendTarget::SameServer, None), SendSelection::ConsoleHasNoServer);
}

#[test]
fn send_selects_a_player_by_name_in_any_case() {
    let p = listed();
    assert_eq!(send_selection(&p, &send_target("ALICE"), None), SendSelection::Players(vec![0]));
    assert_eq!(send_selection(&p, &send_target("Dave"), Some(None)), SendSelection::Players(vec![3]));
    assert_eq!(send_selection(&p, &send_target("eve"), None), SendSelection::PlayerNotOnline);
}
