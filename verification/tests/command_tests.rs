use crust::server::command::{
    register_all, split_ascii_words, CommandArgType, CommandRegistryBuilder, END_COMMAND, GLIST_COMMAND,
    SERVER_COMMAND,
};
use crust::server::commands::{Command, CommandServer};

fn registry() -> crust::server::command::CommandRegistry {
    register_all(CommandRegistryBuilder::new()).build()
}

#[test]
fn core_commands_and_aliases() {
    let r = registry();
    assert_eq!(r.all_commands().len(), 5);
    let server = r.get_command_by_name("server").unwrap();
    assert_eq!(server.names, vec!["server".to_string(), "crust:server".to_string()]);
    assert_eq!(server.permission, "crust.command.server");
    assert!(r.get_command_by_name("crust:glist").is_some());
    assert!(r.get_command_by_name("nope").is_none());
    assert_eq!(r.all_commands()[END_COMMAND].arg_type, CommandArgType::Args0ContainsEverything);
    assert_eq!(r.all_commands()[END_COMMAND].name(), "end");
}

#[test]
fn execute_splits_arguments() {
    let r = registry();
    assert!(r.execute("").is_none());
    assert!(r.execute("unknown a b").is_none());
    let call = r.execute("server  lobby \t game ").unwrap();
    assert_eq!(call.index, SERVER_COMMAND);
    assert_eq!(call.name, "server");
    assert_eq!(call.args, vec!["lobby".to_string(), "game".to_string()]);
    let call = r.execute("glist").unwrap();
    assert_eq!(call.index, GLIST_COMMAND);
    assert!(call.args.is_empty());
    let call = r.execute("end bye now").unwrap();
    assert_eq!(call.args, vec!["end bye now".to_string(), "bye now".to_string()]);
}

#[test]
fn tab_complete_ranges() {
    let r = registry();
    let c = r.tab_complete("server lo").unwrap();
    assert_eq!(c.args, vec!["lo".to_string()]);
    assert_eq!((c.start, c.length), (8, 3));
    assert!(c.has_tab_completer);
    let c = r.tab_complete("server ").unwrap();
    assert_eq!(c.args, vec!["".to_string()]);
    assert_eq!((c.start, c.length), (8, 0));
    let c = r.tab_complete("glist").unwrap();
    assert_eq!((c.start, c.length), (2, 5));
    assert!(!c.has_tab_completer);
    let c = r.tab_complete("end x").unwrap();
    assert_eq!((c.start, c.length), (0, 0));
    assert!(r.tab_complete("").is_none());
}

#[test]
fn ascii_words() {
    assert_eq!(split_ascii_words("  a\tbb\n c  "), vec!["a", "bb", "c"]);
    assert!(split_ascii_words(" \r\n").is_empty());
}

#[test]
fn names_and_builder() {
    assert!(CommandRegistryBuilder::is_name_valid("abc_1"));
    assert!(!CommandRegistryBuilder::is_name_valid("a:b"));
    let mut b = CommandRegistryBuilder::new();
    b.add_core_command(vec!["x", "y"], CommandArgType::default(), false, "p".to_string(), "d".to_string());
    let r = b.build();
    assert_eq!(
        r.all_commands()[0].names,
        vec!["x".to_string(), "y".to_string(), "crust:x".to_string(), "crust:y".to_string()]
    );
    assert_eq!(CommandServer::name(), "server");
}
