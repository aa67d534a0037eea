//! What the proxy does with the packets it passes between a player and a
//! backend: most pass through, a few change the connection's state, and
//! a few the proxy answers or rewrites itself.
use vstd::prelude::*;

use crate::server::brigadier::{
    ArgumentProperty, CommandNode, CommandNodeType, Commands, NodeTypeView, NodeView, PropertyView,
    StringParserType, SuggestionsType, node_views,
};
use crate::server::command::{CommandArgType, CommandRegistry};
use crate::server::packet_ids::{ClientPacketType, ServerPacketType};
use crate::server::packets::ProtocolState;
use crate::server::texts;

verus! {

/// What to do with a packet from the player.
#[derive(Debug, Clone, Copy, PartialEq, Eq, Structural)]
pub enum ClientPacketAction {
    /// Pass it on.
    Forward,
    /// The player finished configuration: the connection is in the game
    /// state; pass it on.
    EnterGame,
    /// The player acknowledged configuration: the connection is in the
    /// configuration state; pass it on, unless the player is switching
    /// servers, in which case the switch is told and the packet kept.
    EnterConfig,
    /// Keep the player's settings (to send to the next server); pass it on.
    StoreSettings,
    /// Try the command line as one of the proxy's commands; pass it on only
    /// when it is none of them.
    TryCommand,
}

/// Handles packets from players.
pub struct ClientPacketHandler;

impl ClientPacketHandler {
    /// What to do with a player's packet of a type (if the registry knows
    /// it).
    pub fn action(packet_type: Option<ClientPacketType>) -> (r: ClientPacketAction)
        ensures
            r == match packet_type {
                Some(ClientPacketType::FinishConfiguration) => ClientPacketAction::EnterGame,
                Some(ClientPacketType::ConfigurationAck) => ClientPacketAction::EnterConfig,
                Some(ClientPacketType::ClientSettings) => ClientPacketAction::StoreSettings,
                Some(ClientPacketType::UnsignedClientCommand) => ClientPacketAction::TryCommand,
                _ => ClientPacketAction::Forward,
            },
    {
        match packet_type {
            Some(ClientPacketType::FinishConfiguration) => ClientPacketAction::EnterGame,
            Some(ClientPacketType::ConfigurationAck) => ClientPacketAction::EnterConfig,
            Some(ClientPacketType::ClientSettings) => ClientPacketAction::StoreSettings,
            Some(ClientPacketType::UnsignedClientCommand) => ClientPacketAction::TryCommand,
            _ => ClientPacketAction::Forward,
        }
    }
}

/// What to do with a packet from a backend.
#[derive(Debug, Clone, Copy, PartialEq, Eq, Structural)]
pub enum ServerPacketAction {
    /// Pass it on.
    Forward,
    /// A bundle delimiter: the player's connection handles it; keep it.
    Bundle,
    /// A kick: in the game state show its reason as a chat message; keep it.
    Kick,
    /// The command tree: add the proxy's commands and send it on.
    Commands,
}

/// Handles packets from backends.
pub struct ServerPacketHandler;

impl ServerPacketHandler {
    /// What to do with a backend's packet of a type (if the registry knows
    /// it).
    pub fn action(packet_type: Option<ServerPacketType>) -> (r: ServerPacketAction)
        ensures
            r == match packet_type {
                Some(ServerPacketType::BundleDelimiter) => ServerPacketAction::Bundle,
                Some(ServerPacketType::Kick) => ServerPacketAction::Kick,
                Some(ServerPacketType::Commands) => ServerPacketAction::Commands,
                _ => ServerPacketAction::Forward,
            },
    {
        match packet_type {
            Some(ServerPacketType::BundleDelimiter) => ServerPacketAction::Bundle,
            Some(ServerPacketType::Kick) => ServerPacketAction::Kick,
            Some(ServerPacketType::Commands) => ServerPacketAction::Commands,
            _ => ServerPacketAction::Forward,
        }
    }

    /// Whether a kick's reason is shown to the player as a chat message:
    /// only in the game state.
    pub fn kick_shown_as_chat(state: ProtocolState) -> (r: bool)
        ensures
            r == (state == ProtocolState::Game),
    {
        match state {
            ProtocolState::Game => true,
            _ => false,
        }
    }
}

// ---------------------------------------------------------------------------
// Adding the proxy's commands to a backend's command tree
// ---------------------------------------------------------------------------

/// The parser id of `brigadier:string`.
pub const STRING_PARSER_ID: usize = 5;

/// The argument node every proxy command gets: a greedy string named
/// `args`, completed by asking the server when the command completes.
pub open spec fn args_node(completes: bool) -> NodeView {
    NodeView {
        children: Seq::empty(),
        node_type: NodeTypeView::Argument {
            name: seq!['a', 'r', 'g', 's'],
            parser_id: STRING_PARSER_ID,
            properties: Some(PropertyView::String(StringParserType::GreedyPhrase)),
            suggestions_type: if completes {
                Some(SuggestionsType::AskServer)
            } else {
                None
            },
        },
        executable: true,
        redirect: None,
    }
}

/// The literal node of one of a command's names, leading to its argument
/// node.
pub open spec fn name_node(name: Seq<char>, arg_index: usize) -> NodeView {
    NodeView {
        children: seq![arg_index],
        node_type: NodeTypeView::Literal(name),
        executable: false,
        redirect: None,
    }
}

/// The nodes after adding a literal node for each of `names`, each made a
/// child of the root.
pub open spec fn with_names(nodes: Seq<NodeView>, root: int, arg_index: usize, names: Seq<Seq<char>>) -> Seq<NodeView>
    decreases names.len(),
{
    if names.len() == 0 {
        nodes
    } else {
        let before = with_names(nodes, root, arg_index, names.drop_last());
        let index = before.len() as usize;
        let added = before.push(name_node(names.last(), arg_index));
        added.update(root, NodeView { children: added[root].children.push(index), ..added[root] })
    }
}

/// The nodes after adding one command: its argument node, then its names.
pub open spec fn with_command(nodes: Seq<NodeView>, root: int, names: Seq<Seq<char>>, completes: bool) -> Seq<NodeView> {
    with_names(nodes.push(args_node(completes)), root, nodes.len() as usize, names)
}

/// The nodes after adding the first `k` commands.
pub open spec fn with_commands(
    nodes: Seq<NodeView>,
    root: int,
    cmds: Seq<(Seq<Seq<char>>, CommandArgType, bool, Seq<char>)>,
    k: nat,
) -> Seq<NodeView>
    decreases k,
{
    if k == 0 || k > cmds.len() {
        nodes
    } else {
        let before = with_commands(nodes, root, cmds, (k - 1) as nat);
        with_command(before, root, cmds[k - 1].0, cmds[k - 1].2)
    }
}

proof fn lemma_with_names_len(nodes: Seq<NodeView>, root: int, arg_index: usize, names: Seq<Seq<char>>)
    requires
        0 <= root < nodes.len(),
    ensures
        with_names(nodes, root, arg_index, names).len() == nodes.len() + names.len(),
    decreases names.len(),
{
    if names.len() > 0 {
        lemma_with_names_len(nodes, root, arg_index, names.drop_last());
    }
}

proof fn lemma_with_commands_len(
    nodes: Seq<NodeView>,
    root: int,
    cmds: Seq<(Seq<Seq<char>>, CommandArgType, bool, Seq<char>)>,
    k: nat,
)
    requires
        0 <= root < nodes.len(),
    ensures
        with_commands(nodes, root, cmds, k).len() >= nodes.len(),
    decreases k,
{
    if k > 0 && k <= cmds.len() {
        lemma_with_commands_len(nodes, root, cmds, (k - 1) as nat);
        let before = with_commands(nodes, root, cmds, (k - 1) as nat);
        lemma_with_names_len(before.push(args_node(cmds[k - 1].2)), root, before.len() as usize, cmds[k - 1].0);
    }
}

fn push_name_node(commands: &mut Commands, name: &String, arg_index: usize)
    requires
        old(commands).root_index < old(commands).nodes@.len(),
    ensures
        final(commands).root_index == old(commands).root_index,
        final(commands).nodes@.len() == old(commands).nodes@.len() + 1,
        ({
            let v = node_views(old(commands).nodes@);
            let root = old(commands).root_index as int;
            let added = v.push(name_node(name@, arg_index));
            node_views(final(commands).nodes@) == added.update(
                root,
                NodeView { children: added[root].children.push(v.len() as usize), ..added[root] },
            )
        }),
{
    let ghost v = node_views(commands.nodes@);
    let root = commands.root_index;
    let node_index = commands.nodes.len();
    let mut children: Vec<usize> = Vec::new();
    children.push(arg_index);
    let node = CommandNode {
        childrens: children,
        executable: false,
        redirect_index: None,
        node_type: CommandNodeType::Literal(name.clone()),
    };
    proof { assert(node.view().children =~= seq![arg_index]); }
    commands.nodes.push(node);
    let ghost added = node_views(commands.nodes@);
    proof { assert(added =~= v.push(name_node(name@, arg_index))); }
    commands.nodes[root].childrens.push(node_index);
    proof {
        assert(node_views(commands.nodes@) =~= added.update(
            root as int,
            NodeView { children: added[root as int].children.push(node_index), ..added[root as int] },
        ));
    }
}

/// Adds the proxy's commands to a backend's command tree: for each
/// command an argument node, and for each of its names a literal node
/// leading to it, made a child of the root.  The root must be a node of
/// the tree.
pub fn add_proxy_commands(commands: &mut Commands, registry: &CommandRegistry)
    requires
        old(commands).root_index < old(commands).nodes@.len(),
    ensures
        final(commands).root_index == old(commands).root_index,
        node_views(final(commands).nodes@) == with_commands(
            node_views(old(commands).nodes@),
            old(commands).root_index as int,
            registry@,
            registry@.len(),
        ),
{
    let ghost n0 = node_views(commands.nodes@);
    let ghost root = commands.root_index as int;
    let cmds = registry.all_commands();
    let ghost cv = registry@;
    let mut i: usize = 0;
    while i < cmds.len()
        invariant
            cv == registry@,
            crate::server::command::command_views(cmds@) == cv,
            i <= cmds@.len(),
            commands.root_index as int == root,
            0 <= root < n0.len(),
            root < commands.nodes@.len(),
            node_views(commands.nodes@) == with_commands(n0, root, cv, i as nat),
        decreases cmds.len() - i,
    {
        let info = &cmds[i];
        proof { assert(cv[i as int] == crate::server::command::command_view(*info)); }
        let ghost base = node_views(commands.nodes@);
        let arg_index = commands.nodes.len();
        let node = CommandNode {
            childrens: Vec::new(),
            executable: true,
            redirect_index: None,
            node_type: CommandNodeType::Argument {
                name: "args".to_owned(),
                parser_id: STRING_PARSER_ID,
                properties: Some(ArgumentProperty::String(StringParserType::GreedyPhrase)),
                suggestions_type: if info.has_tab_completer {
                    Some(SuggestionsType::AskServer)
                } else {
                    None
                },
            },
        };
        proof {
            reveal_strlit("args");
            assert("args"@ =~= seq!['a', 'r', 'g', 's']);
            assert(node.view().children =~= Seq::<usize>::empty());
            assert(node.view().node_type == args_node(info.has_tab_completer).node_type);
            assert(node.view() == args_node(info.has_tab_completer));
        }
        commands.nodes.push(node);
        proof { assert(node_views(commands.nodes@) =~= base.push(args_node(info.has_tab_completer))); }
        let ghost names = texts(info.names@);
        let mut j: usize = 0;
        proof { assert(names.take(0) =~= Seq::<Seq<char>>::empty()); }
        while j < info.names.len()
            invariant
                names == texts(info.names@),
                j <= info.names@.len(),
                commands.root_index as int == root,
                0 <= root < base.len(),
                root < commands.nodes@.len(),
                arg_index == base.len(),
                node_views(commands.nodes@) == with_names(
                    base.push(args_node(info.has_tab_completer)),
                    root,
                    arg_index,
                    names.take(j as int),
                ),
            decreases info.names.len() - j,
        {
            push_name_node(commands, &info.names[j], arg_index);
            proof {
                assert(names.take((j + 1) as int).drop_last() =~= names.take(j as int));
                assert(names.take((j + 1) as int).last() == info.names@[j as int]@);
            }
            j = j + 1;
        }
        proof {
            assert(names.take(j as int) =~= names);
            assert(cv[i as int].0 == names);
            assert(cv[i as int].2 == info.has_tab_completer);
        }
        i = i + 1;
    }
}

} // verus!
