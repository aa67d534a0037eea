use crust::server::brigadier::{
    parser_kind_of, ArgumentProperty, CommandNode, CommandNodeType, Commands, ParserKind, StringParserType,
    Suggestion, Suggestions, SuggestionsType,
};
use crust::server::command::{register_all, CommandRegistryBuilder};
use crust::server::nbt::NbtType;
use crust::server::packet_handler::add_proxy_commands;
use crust::server::packets::Packet;
use crust::util::{ByteReader, IoError};

fn sample_tree() -> Commands {
    Commands {
        nodes: vec![
            CommandNode { childrens: vec![1], node_type: CommandNodeType::Root, executable: false, redirect_index: None },
            CommandNode {
                childrens: vec![2],
                node_type: CommandNodeType::Literal("tp".to_string()),
                executable: false,
                redirect_index: None,
            },
            CommandNode {
                childrens: vec![],
                node_type: CommandNodeType::Argument {
                    name: "amount".to_string(),
                    parser_id: 3,
                    properties: Some(ArgumentProperty::Int { min: Some(-5), max: None }),
                    suggestions_type: Some(SuggestionsType::AskServer),
                },
                executable: true,
                redirect_index: Some(0),
            },
        ],
        root_index: 0,
    }
}

#[test]
fn commands_roundtrip() {
    let tree = sample_tree();
    let mut out = Vec::new();
    tree.encode(&mut out, 767).unwrap();
    let mut r = ByteReader::new(&out);
    let back = Commands::decode(&mut r, 767).unwrap();
    assert_eq!(r.remaining(), 0);
    assert_eq!(back.nodes.len(), 3);
    assert_eq!(back.root_index, 0);
    assert_eq!(back.nodes[0].childrens, vec![1]);
    match &back.nodes[2].node_type {
        CommandNodeType::Argument { name, parser_id, properties, suggestions_type } => {
            assert_eq!(name, "amount");
            assert_eq!(*parser_id, 3);
            assert!(matches!(properties, Some(ArgumentProperty::Int { min: Some(-5), max: None })));
            assert_eq!(*suggestions_type, Some(SuggestionsType::AskServer));
        },
        _ => panic!("expected an argument"),
    }
    assert_eq!(back.nodes[2].redirect_index, Some(0));
    assert!(back.nodes[2].executable);
}

#[test]
fn node_flags_bytes() {
    let tree = sample_tree();
    let mut out = Vec::new();
    tree.nodes[2].encode(&mut out).unwrap();
    assert_eq!(out[0], 0x02 | 0x04 | 0x08 | 0x10);
    let mut out = Vec::new();
    tree.nodes[1].encode(&mut out).unwrap();
    assert_eq!(out, vec![0x01, 1, 2, 2, b't', b'p']);
}

#[test]
fn parser_registries() {
    assert_eq!(parser_kind_of(767, 1), Some(ParserKind::Float));
    assert_eq!(parser_kind_of(767, 30), Some(ParserKind::ScoreHolder));
    assert_eq!(parser_kind_of(760, 29), Some(ParserKind::ScoreHolder));
    assert_eq!(parser_kind_of(767, 42), Some(ParserKind::Time));
    assert_eq!(parser_kind_of(765, 41), Some(ParserKind::Time));
    assert_eq!(parser_kind_of(762, 40), Some(ParserKind::Time));
    assert_eq!(parser_kind_of(761, 40), Some(ParserKind::Nothing));
    assert_eq!(parser_kind_of(340, 43), Some(ParserKind::ResourceOrTag));
    assert_eq!(parser_kind_of(340, 47), None);
    assert_eq!(parser_kind_of(767, 53), Some(ParserKind::Nothing));
    assert_eq!(parser_kind_of(767, 54), None);
    let mut r = ByteReader::new(&[]);
    assert!(matches!(ArgumentProperty::decode_by_parser_id(&mut r, 99, 767), Err(IoError::InvalidData)));
}

#[test]
fn argument_properties() {
    let p = ArgumentProperty::Double { min: Some(1.5f64.to_bits()), max: Some(2.5f64.to_bits()) };
    let mut out = Vec::new();
    p.encode(&mut out).unwrap();
    assert_eq!(out[0], 3);
    assert_eq!(out.len(), 17);
    let mut r = ByteReader::new(&out);
    match ArgumentProperty::decode_double(&mut r).unwrap() {
        Some(ArgumentProperty::Double { min, max }) => {
            assert_eq!(f64::from_bits(min.unwrap()), 1.5);
            assert_eq!(f64::from_bits(max.unwrap()), 2.5);
        },
        _ => panic!("expected a double range"),
    }
    let mut r = ByteReader::new(&[2]);
    assert!(matches!(
        ArgumentProperty::decode_string(&mut r).unwrap(),
        Some(ArgumentProperty::String(StringParserType::GreedyPhrase))
    ));
    let mut r = ByteReader::new(&[3]);
    assert!(matches!(ArgumentProperty::decode_string(&mut r), Err(IoError::InvalidData)));
    let mut r = ByteReader::new(&[0x01, 0x00, 0x00, 0x00, 0x0A]);
    assert!(matches!(ArgumentProperty::decode_int(&mut r).unwrap(), Some(ArgumentProperty::Int { min: Some(10), max: None })));
}

#[test]
fn suggestions_roundtrip() {
    let s = Suggestions {
        start: 8,
        length: 2,
        matches: vec![
            Suggestion { text: "lobby".to_string(), tooltip: None },
            Suggestion { text: "game".to_string(), tooltip: Some(NbtType::StringTag("hint".to_string())) },
        ],
    };
    let mut out = Vec::new();
    s.encode(&mut out, 767).unwrap();
    let mut r = ByteReader::new(&out);
    let back = Suggestions::decode(&mut r, 767).unwrap();
    assert_eq!((back.start, back.length, back.matches.len()), (8, 2, 2));
    assert_eq!(back.matches[0].text, "lobby");
    assert!(back.matches[0].tooltip.is_none());
    assert!(matches!(&back.matches[1].tooltip, Some(NbtType::StringTag(t)) if t == "hint"));
}

#[test]
fn proxy_commands_are_injected() {
    let mut tree = sample_tree();
    let registry = register_all(CommandRegistryBuilder::new()).build();
    add_proxy_commands(&mut tree, &registry);
    assert_eq!(tree.nodes.len(), 3 + 5 * 3);
    assert_eq!(tree.nodes[0].childrens.len(), 1 + 10);
    assert!(matches!(&tree.nodes[4].node_type, CommandNodeType::Literal(n) if n == "server"));
    assert_eq!(tree.nodes[4].childrens, vec![3]);
    match &tree.nodes[3].node_type {
        CommandNodeType::Argument { name, parser_id, suggestions_type, .. } => {
            assert_eq!(name, "args");
            assert_eq!(*parser_id, 5);
            assert_eq!(*suggestions_type, Some(SuggestionsType::AskServer));
        },
        _ => panic!("expected the args node"),
    }
}
