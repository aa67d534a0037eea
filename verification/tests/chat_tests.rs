use crust::chat::json::{deserialize_json, serialize_json, DeserializationError, JsonNumber, JsonValue};
use crust::chat::{ClickAction, ClickEvent, HoverEvent, Style, Text, TextBuilder, TextColor, TextContent};

fn s(t: &str) -> JsonValue {
    JsonValue::String(t.to_string())
}

#[test]
fn plain_text_serializes_as_string() {
    let t = Text::new(TextContent::literal("hi".to_string()));
    let j = serialize_json(&t);
    assert_eq!(j, s("hi"));
    assert_eq!(deserialize_json(&j).unwrap(), t);
}

#[test]
fn styled_text_reads_back() {
    let mut t = TextBuilder::new(TextContent::literal("Available: ".to_string()))
        .style(Style::empty().with_color(TextColor::from_rgb(182, 255, 156)).with_bold(true))
        .build();
    let mut child = Text::new(TextContent::literal("lobby".to_string()));
    child.click_event = Some(ClickEvent { action: ClickAction::RunCommand, value: "/server lobby".to_string() });
    t.add_extra(child);
    let j = serialize_json(&t);
    let back = deserialize_json(&j).unwrap();
    assert_eq!(back, t);
    assert_eq!(back.get_string(), "Available: lobby");
}

#[test]
fn strings_and_arrays() {
    let t = deserialize_json(&s("plain")).unwrap();
    assert_eq!(t.get_string(), "plain");
    let arr = JsonValue::Array(vec![s("a"), s("b")]);
    let t = deserialize_json(&arr).unwrap();
    assert_eq!(t.get_string(), "ab");
    assert_eq!(deserialize_json(&JsonValue::Array(vec![])), Err(DeserializationError::TextArrayEmpty));
    assert_eq!(deserialize_json(&JsonValue::Number(JsonNumber::PosInt(3))).unwrap().get_string(), "3");
    assert_eq!(deserialize_json(&JsonValue::Bool(true)).unwrap().get_string(), "true");
    assert_eq!(deserialize_json(&JsonValue::Null), Err(DeserializationError::InvalidValueType));
}

#[test]
fn colors() {
    assert_eq!(TextColor::from_rgb(255, 0, 0).get_rgb(), 0xFF0000);
    assert_eq!(TextColor::Red.get_rgb(), 0xFF5555);
    let j = JsonValue::Object(vec![("text".to_string(), s("x")), ("color".to_string(), s("#zz"))]);
    assert_eq!(deserialize_json(&j), Err(DeserializationError::InvalidColorFormat));
}

#[test]
fn richer_components_read_back() {
    let with = vec![Text::new(TextContent::literal("Steve".to_string()))];
    let mut t = Text::new(TextContent::Translation {
        key: "chat.type.text".to_string(),
        fallback: Some("<%s>".to_string()),
        with: Some(with),
    });
    t.style = Style::empty().with_color(TextColor::Hex(0x00ABCD));
    t.insertion = Some("Steve".to_string());
    t.hover_event = Some(HoverEvent::ShowItem { id: "minecraft:stone".to_string(), count: Some(-3), tag: None });
    t.click_event = Some(ClickEvent { action: ClickAction::Unresolved("open_door".to_string()), value: "x".to_string() });
    let j = serialize_json(&t);
    assert_eq!(deserialize_json(&j).unwrap(), t);

    let mut hover = Text::new(TextContent::Keybind("key.jump".to_string()));
    hover.style = Style::empty().with_color(TextColor::Gold);
    let mut u = Text::new(TextContent::Score {
        name: "Alex".to_string(),
        objective: "kills".to_string(),
        value: None,
    });
    u.hover_event = Some(HoverEvent::ShowText(Box::new(hover)));
    let j = serialize_json(&u);
    assert_eq!(deserialize_json(&j).unwrap(), u);
}

#[test]
fn plain_hover_text_does_not_read_back() {
    let mut t = Text::new(TextContent::literal("lobby".to_string()));
    t.hover_event = Some(HoverEvent::ShowText(Box::new(Text::new(TextContent::literal("click".to_string())))));
    let j = serialize_json(&t);
    assert_eq!(deserialize_json(&j), Err(DeserializationError::MissingHoverEventValue));
}

fn lit(t: &str) -> Text {
    Text::new(TextContent::literal(t.to_string()))
}

fn name_of(t: &Text) -> String {
    match &t.content {
        TextContent::Literal(s) => s.clone(),
        _ => String::new(),
    }
}

#[test]
fn accept_visits_parents_first_and_children_last_first() {
    let mut a = lit("a");
    let mut b = lit("b");
    b.add_extra(lit("b1"));
    a.add_extra(b);
    a.add_extra(lit("c"));
    let seen = std::cell::RefCell::new(Vec::new());
    a.accept(|t| {
        seen.borrow_mut().push(name_of(t));
        true
    });
    assert_eq!(*seen.borrow(), vec!["a", "c", "b", "b1"]);
    let seen = std::cell::RefCell::new(Vec::new());
    a.accept(|t| {
        seen.borrow_mut().push(name_of(t));
        name_of(t) != "c"
    });
    assert_eq!(*seen.borrow(), vec!["a", "c"]);
}
