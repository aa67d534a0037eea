//! What the core commands (`server`, `gkick`, `end`, `send`, `glist`)
//! decide and say: the messages they build, whom `send` moves, and what
//! their completers offer. Carrying it out (switching, kicking, shutting
//! down) is left to the caller, which holds the connections.
use vstd::prelude::*;

use crate::auth::opt_text;
use crate::chat::json::{decimal, push_decimal};
use crate::chat::{empty_style, rgb_value, ClickAction, ClickEvent, HoverEvent, Style, Text, TextColor, TextContent};
use crate::server::command::{
    completions_with_prefix, prefix_filter, GKICK_COMMAND, SEND_COMMAND, SERVER_COMMAND,
};
use crate::server::switch::same_text;
use crate::server::texts;
use crate::util::{push_char, push_str};

verus! {

/// The color of the proxy's informational messages.
pub open spec fn info_color() -> TextColor {
    TextColor::Hex(rgb_value(182, 255, 156))
}

/// The style with only a color set.
pub open spec fn colored_style(c: TextColor) -> Style {
    Style { color: Some(c), ..empty_style() }
}

/// `t` is a literal showing `s` in `style`, without children or events.
pub open spec fn is_literal(t: Text, s: Seq<char>, style: Style) -> bool {
    &&& t.content matches TextContent::Literal(l) && l@ == s
    &&& t.extra@.len() == 0
    &&& t.style == style
    &&& t.insertion is None
    &&& t.click_event is None
    &&& t.hover_event is None
}

/// The color of the proxy's informational messages.
pub fn info_color_value() -> (r: TextColor)
    ensures
        r == info_color(),
{
    TextColor::from_rgb(182, 255, 156)
}

/// A literal in one style.
pub fn styled_literal(text: String, style: Style) -> (r: Text)
    ensures
        is_literal(r, text@, style),
{
    Text {
        content: TextContent::Literal(text),
        extra: Vec::new(),
        style,
        insertion: None,
        click_event: None,
        hover_event: None,
    }
}

/// A literal in one color.
pub fn colored(text: String, color: TextColor) -> (r: Text)
    ensures
        is_literal(r, text@, colored_style(color)),
{
    styled_literal(text, Style::empty().with_color(color))
}

// ---------------------------------------------------------------------------
// end
// ---------------------------------------------------------------------------

/// A text with every `&` turned into `§`, the sign of formatting codes.
pub open spec fn amp_to_section(s: Seq<char>) -> Seq<char> {
    s.map_values(|c: char| if c == '&' { '§' } else { c })
}

/// What players are kicked with when the proxy shuts down: the reason with
/// `&` codes turned into `§` codes, or a red notice when there is none.
pub fn shutdown_text(reason: &str) -> (r: Text)
    ensures
        reason@.len() == 0 ==> is_literal(r, "§cProxy Server shutdown"@, empty_style()),
        reason@.len() > 0 ==> is_literal(r, amp_to_section(reason@), empty_style()),
{
    broadcast use vstd::string::axiom_spec_iter;

    let mut out = String::new();
    let mut any = false;
    for c in it: reason.chars()
        invariant
            it.seq() == reason@,
            out@ == amp_to_section(reason@.take(it.index())),
            any == (it.index() > 0),
    {
        proof { assert(reason@.take(it.index() + 1) =~= reason@.take(it.index()).push(c)); }
        push_char(
            &mut out,
            if c == '&' {
                '§'
            } else {
                c
            },
        );
        any = true;
        proof { assert(out@ =~= amp_to_section(reason@.take(it.index() + 1))); }
    }
    proof { assert(reason@.take(reason@.len() as int) =~= reason@); }
    if !any {
        return styled_literal("§cProxy Server shutdown".to_string(), Style::empty());
    }
    styled_literal(out, Style::empty())
}

// ---------------------------------------------------------------------------
// gkick
// ---------------------------------------------------------------------------

/// Texts joined with a separator between each two.
pub open spec fn joined(parts: Seq<Seq<char>>, sep: Seq<char>) -> Seq<char>
    decreases parts.len(),
{
    if parts.len() == 0 {
        Seq::empty()
    } else if parts.len() == 1 {
        parts[0]
    } else {
        joined(parts.drop_last(), sep) + sep + parts.last()
    }
}

/// Joins the texts from position `from` on with a separator, as `join` on
/// a slice of strings does.
pub fn join(parts: &[String], from: usize, sep: &str) -> (r: String)
    requires
        from <= parts@.len(),
    ensures
        r@ == joined(texts(parts@).skip(from as int), sep@),
{
    let ghost ps = texts(parts@).skip(from as int);
    let mut out = String::new();
    let mut i: usize = from;
    proof { assert(ps.take(0) =~= Seq::<Seq<char>>::empty()); }
    while i < parts.len()
        invariant
            ps == texts(parts@).skip(from as int),
            from <= i <= parts@.len(),
            out@ == joined(ps.take(i - from), sep@),
        decreases parts.len() - i,
    {
        if i > from {
            push_str(&mut out, sep);
        }
        push_str(&mut out, parts[i].as_str());
        proof {
            let t = ps.take(i - from + 1);
            assert(t.drop_last() =~= ps.take(i - from));
            assert(t.last() == parts@[i as int]@);
            assert(out@ =~= joined(t, sep@));
        }
        i = i + 1;
    }
    proof { assert(ps.take(parts@.len() - from) =~= ps); }
    out
}

/// What a player is kicked with by `gkick`: the words after the name, or a
/// red notice when there are none. The arguments start with the name.
pub fn kick_reason(args: &[String]) -> (r: Text)
    ensures
        args@.len() > 1 ==> is_literal(r, joined(texts(args@).skip(1), " "@), empty_style()),
        args@.len() <= 1 ==> is_literal(r, "You have been kicked off the proxy"@, colored_style(TextColor::Red)),
{
    if args.len() > 1 {
        let rest = join(args, 1, " ");
        styled_literal(rest, Style::empty())
    } else {
        colored("You have been kicked off the proxy".to_string(), TextColor::Red)
    }
}

// ---------------------------------------------------------------------------
// send
// ---------------------------------------------------------------------------

/// A character in ASCII lower case.
pub open spec fn ascii_lower(c: char) -> char {
    if 'A' <= c && c <= 'Z' {
        ((c as u32) + 32) as char
    } else {
        c
    }
}

/// Whether two texts are equal but for ASCII case.
pub open spec fn eq_ignore_ascii_case(a: Seq<char>, b: Seq<char>) -> bool {
    a.len() == b.len() && forall|i: int| 0 <= i < a.len() ==> ascii_lower(#[trigger] a[i]) == ascii_lower(b[i])
}

/// Whom `send` moves.
#[derive(Debug, PartialEq, Eq)]
pub enum SendTarget {
    /// Every player on the proxy.
    Everyone,
    /// Every player on the sender's server.
    SameServer,
    /// The player with this name.
    Player(String),
}

fn lower(c: char) -> (r: char)
    ensures
        r == ascii_lower(c),
{
    if 'A' <= c && c <= 'Z' {
        let b = (c as u8) + 32;
        proof {
            assert((c as u8) as u32 == c as u32);
        }
        b as char
    } else {
        c
    }
}

fn chars_of(s: &str) -> (r: Vec<char>)
    ensures
        r@ == s@,
{
    broadcast use vstd::string::axiom_spec_iter;

    let mut out: Vec<char> = Vec::new();
    for c in it: s.chars()
        invariant
            it.seq() == s@,
            out@ == s@.take(it.index()),
    {
        proof { assert(s@.take(it.index() + 1) =~= s@.take(it.index()).push(c)); }
        out.push(c);
    }
    proof { assert(s@.take(s@.len() as int) =~= s@); }
    out
}

/// Whether two texts are equal but for ASCII case.
pub fn equals_ignore_ascii_case(a: &str, b: &str) -> (r: bool)
    ensures
        r == eq_ignore_ascii_case(a@, b@),
{
    let x = chars_of(a);
    let y = chars_of(b);
    if x.len() != y.len() {
        return false;
    }
    let mut i: usize = 0;
    while i < x.len()
        invariant
            x@ == a@,
            y@ == b@,
            x@.len() == y@.len(),
            i <= x@.len(),
            forall|j: int| 0 <= j < i ==> ascii_lower(#[trigger] a@[j]) == ascii_lower(b@[j]),
        decreases x.len() - i,
    {
        if lower(x[i]) != lower(y[i]) {
            return false;
        }
        i = i + 1;
    }
    true
}

/// Whom the first argument of `send` names: `*` everyone, `*current` the
/// players on the sender's server (either in any ASCII case), anything
/// else one player by name.
pub fn send_target(arg: &str) -> (r: SendTarget)
    ensures
        eq_ignore_ascii_case(arg@, "*"@) ==> r == SendTarget::Everyone,
        !eq_ignore_ascii_case(arg@, "*"@) && eq_ignore_ascii_case(arg@, "*current"@) ==> r == SendTarget::SameServer,
        !eq_ignore_ascii_case(arg@, "*"@) && !eq_ignore_ascii_case(arg@, "*current"@) ==> (r matches SendTarget::Player(
            n,
        ) && n@ == arg@),
{
    if equals_ignore_ascii_case(arg, "*") {
        SendTarget::Everyone
    } else if equals_ignore_ascii_case(arg, "*current") {
        SendTarget::SameServer
    } else {
        SendTarget::Player(arg.to_owned())
    }
}

/// Whom `send` moves, among the players on the proxy.
#[derive(Debug, PartialEq, Eq)]
pub enum SendSelection {
    /// The players at these positions of the list.
    Players(Vec<usize>),
    /// `*current` was asked for by the console, which is on no server.
    ConsoleHasNoServer,
    /// No player has the name asked for.
    PlayerNotOnline,
}

/// The positions below `k` of the players on server `s`, in order.
pub open spec fn players_on(ps: Seq<(String, Option<String>)>, s: Seq<char>, k: nat) -> Seq<usize>
    decreases k,
{
    if k == 0 {
        Seq::empty()
    } else {
        let prev = players_on(ps, s, (k - 1) as nat);
        if ps[k - 1].1 matches Some(c) && c@ == s {
            prev.push((k - 1) as usize)
        } else {
            prev
        }
    }
}

/// The first position below `k` of a player with name `n`, in any case.
pub open spec fn first_named(ps: Seq<(String, Option<String>)>, n: Seq<char>, k: nat) -> Option<usize>
    decreases k,
{
    if k == 0 {
        None
    } else {
        match first_named(ps, n, (k - 1) as nat) {
            Some(i) => Some(i),
            None => if eq_ignore_ascii_case(ps[k - 1].0@, n) {
                Some((k - 1) as usize)
            } else {
                None
            },
        }
    }
}

/// Once a player with the name is found, later players change nothing.
proof fn lemma_first_named_stays(ps: Seq<(String, Option<String>)>, n: Seq<char>, k: nat, m: nat)
    requires
        k <= m,
        first_named(ps, n, k) is Some,
    ensures
        first_named(ps, n, m) == first_named(ps, n, k),
    decreases m - k,
{
    if m > k {
        lemma_first_named_stays(ps, n, k, (m - 1) as nat);
    }
}

/// Whom `send` moves: everyone; with `*current`, the players on the
/// sender's server (`sender` is `None` for the console, else the sender's
/// server, if any); or the player with the name asked for.  `players`
/// gives each player's name and current server.
pub fn send_selection(
    players: &Vec<(String, Option<String>)>,
    target: &SendTarget,
    sender: Option<Option<&str>>,
) -> (r: SendSelection)
    ensures
        match target {
            SendTarget::Everyone => r matches SendSelection::Players(v) && v@ == Seq::new(
                players@.len(),
                |i: int| i as usize,
            ),
            SendTarget::SameServer => match sender {
                None => r is ConsoleHasNoServer,
                Some(None) => r matches SendSelection::Players(v) && v@.len() == 0,
                Some(Some(s)) => r matches SendSelection::Players(v) && v@ == players_on(
                    players@,
                    s@,
                    players@.len(),
                ),
            },
            SendTarget::Player(n) => match first_named(players@, n@, players@.len()) {
                Some(i) => r matches SendSelection::Players(v) && v@ == seq![i],
                None => r is PlayerNotOnline,
            },
        },
{
    match target {
        SendTarget::Everyone => {
            let mut v: Vec<usize> = Vec::new();
            let mut i: usize = 0;
            while i < players.len()
                invariant
                    i <= players@.len(),
                    v@ == Seq::new(i as nat, |j: int| j as usize),
                decreases players.len() - i,
            {
                v.push(i);
                proof { assert(v@ =~= Seq::new((i + 1) as nat, |j: int| j as usize)); }
                i = i + 1;
            }
            SendSelection::Players(v)
        },
        SendTarget::SameServer => match sender {
            None => SendSelection::ConsoleHasNoServer,
            Some(None) => SendSelection::Players(Vec::new()),
            Some(Some(s)) => {
                let mut v: Vec<usize> = Vec::new();
                let mut i: usize = 0;
                while i < players.len()
                    invariant
                        i <= players@.len(),
                        v@ == players_on(players@, s@, i as nat),
                    decreases players.len() - i,
                {
                    let on = match &players[i].1 {
                        Some(c) => same_text(c.as_str(), s),
                        None => false,
                    };
                    if on {
                        v.push(i);
                    }
                    i = i + 1;
                }
                SendSelection::Players(v)
            },
        },
        SendTarget::Player(n) => {
            let mut i: usize = 0;
            while i < players.len()
                invariant
                    i <= players@.len(),
                    *target == SendTarget::Player(*n),
                    first_named(players@, n@, i as nat) is None,
                decreases players.len() - i,
            {
                if equals_ignore_ascii_case(players[i].0.as_str(), n.as_str()) {
                    proof {
                        assert(first_named(players@, n@, (i + 1) as nat) == Some(i));
                        lemma_first_named_stays(players@, n@, (i + 1) as nat, players@.len());
                    }
                    let mut v: Vec<usize> = Vec::new();
                    v.push(i);
                    return SendSelection::Players(v);
                }
                i = i + 1;
            }
            SendSelection::PlayerNotOnline
        },
    }
}

// ---------------------------------------------------------------------------
// server
// ---------------------------------------------------------------------------

/// Whether `t` is a server's entry in the list: its label, which runs
/// `/server <label>` when clicked and offers to connect when hovered.
pub open spec fn is_server_entry(t: Text, label: Seq<char>) -> bool {
    &&& t.content matches TextContent::Literal(l) && l@ == label
    &&& t.extra@.len() == 0
    &&& t.style == empty_style()
    &&& t.insertion is None
    &&& t.click_event matches Some(ev) && ev.action == ClickAction::RunCommand && ev.value@ == "/server "@ + label
    &&& t.hover_event matches Some(HoverEvent::ShowText(h)) && is_literal(*h, "click to connect"@, empty_style())
}

/// Whether `parts` is the list of servers after its heading: the entries of
/// `labels` in order, with a `, ` literal between each two.
pub open spec fn is_server_list(parts: Seq<Text>, labels: Seq<Seq<char>>) -> bool {
    &&& parts.len() == if labels.len() == 0 {
        0
    } else {
        2 * labels.len() - 1
    }
    &&& forall|j: int|
        0 <= j < parts.len() ==> if j % 2 == 0 {
            is_server_entry(#[trigger] parts[j], labels[j / 2])
        } else {
            is_literal(parts[j], ", "@, empty_style())
        }
}

fn server_entry(label: &String) -> (r: Text)
    ensures
        is_server_entry(r, label@),
{
    let mut value = String::new();
    push_str(&mut value, "/server ");
    push_str(&mut value, label.as_str());
    let hover = styled_literal("click to connect".to_string(), Style::empty());
    Text {
        content: TextContent::Literal(label.clone()),
        extra: Vec::new(),
        style: Style::empty(),
        insertion: None,
        click_event: Some(ClickEvent { action: ClickAction::RunCommand, value }),
        hover_event: Some(HoverEvent::ShowText(Box::new(hover))),
    }
}

/// What `server` without arguments shows: `Available servers: ` in the
/// info color, then each server's entry.
pub fn server_list_text(labels: &[String]) -> (r: Text)
    ensures
        r.content matches TextContent::Literal(l) && l@ == "Available servers: "@,
        r.style == colored_style(info_color()),
        r.insertion is None,
        r.click_event is None,
        r.hover_event is None,
        is_server_list(r.extra@, texts(labels@)),
{
    let ghost ls = texts(labels@);
    let mut parts: Vec<Text> = Vec::new();
    let mut i: usize = 0;
    while i < labels.len()
        invariant
            ls == texts(labels@),
            i <= labels@.len(),
            is_server_list(parts@, ls.take(i as int)),
        decreases labels.len() - i,
    {
        let ghost before = parts@;
        if i > 0 {
            parts.push(styled_literal(", ".to_string(), Style::empty()));
        }
        parts.push(server_entry(&labels[i]));
        proof {
            let t = ls.take(i + 1);
            assert forall|j: int| 0 <= j < parts@.len() implies if j % 2 == 0 {
                is_server_entry(#[trigger] parts@[j], t[j / 2])
            } else {
                is_literal(parts@[j], ", "@, empty_style())
            } by {
                if j < before.len() {
                    assert(parts@[j] == before[j]);
                    if j % 2 == 0 {
                        assert(t[j / 2] == ls.take(i as int)[j / 2]);
                    }
                }
            }
        }
        i = i + 1;
    }
    proof { assert(ls.take(labels@.len() as int) =~= ls); }
    let mut r = styled_literal("Available servers: ".to_string(), Style::empty().with_color(info_color_value()));
    r.extra = parts;
    r
}

// ---------------------------------------------------------------------------
// glist
// ---------------------------------------------------------------------------

/// The position of the group of a server, if there is one.
pub open spec fn group_index(groups: Seq<(Seq<char>, Seq<Seq<char>>)>, label: Seq<char>) -> Option<int>
    decreases groups.len(),
{
    if groups.len() == 0 {
        None
    } else if groups.last().0 == label {
        Some(groups.len() - 1)
    } else {
        group_index(groups.drop_last(), label)
    }
}

/// The groups after a player on `label` named `name` joins them: at the end
/// of the server's group, or in a new group at the end.
pub open spec fn group_add(groups: Seq<(Seq<char>, Seq<Seq<char>>)>, label: Seq<char>, name: Seq<char>) -> Seq<
    (Seq<char>, Seq<Seq<char>>),
> {
    match group_index(groups, label) {
        Some(i) => groups.update(i, (label, groups[i].1.push(name))),
        None => groups.push((label, seq![name])),
    }
}

/// The players (name, and server if on one) grouped by server, servers in
/// the order they first appear, names in the order they appear.
pub open spec fn players_by_server(players: Seq<(Seq<char>, Option<Seq<char>>)>) -> Seq<(Seq<char>, Seq<Seq<char>>)>
    decreases players.len(),
{
    if players.len() == 0 {
        Seq::empty()
    } else {
        let groups = players_by_server(players.drop_last());
        match players.last().1 {
            Some(label) => group_add(groups, label, players.last().0),
            None => groups,
        }
    }
}

/// Players as spec values.
pub open spec fn player_views(players: Seq<(String, Option<String>)>) -> Seq<(Seq<char>, Option<Seq<char>>)> {
    players.map_values(|p: (String, Option<String>)| (p.0@, opt_text(p.1)))
}

/// The first line of `glist`.
pub open spec fn count_line(n: nat) -> Seq<char> {
    "There are currently "@ + decimal(n) + " players on the proxy"@
}

/// The line of `glist` for a server.
pub open spec fn group_line(label: Seq<char>, names: Seq<Seq<char>>) -> Seq<char> {
    label + " ("@ + decimal(names.len()) + "): "@ + joined(names, ", "@)
}

proof fn lemma_group_index(groups: Seq<(Seq<char>, Seq<Seq<char>>)>, label: Seq<char>)
    ensures
        group_index(groups, label) matches Some(i) ==> 0 <= i < groups.len() && groups[i].0 == label,
        group_index(groups, label) is None ==> forall|k: int| 0 <= k < groups.len() ==> (#[trigger] groups[k]).0 != label,
    decreases groups.len(),
{
    if groups.len() > 0 && groups.last().0 != label {
        lemma_group_index(groups.drop_last(), label);
        assert forall|k: int| 0 <= k < groups.len() - 1 implies (#[trigger] groups[k]) == groups.drop_last()[k] by {}
    }
}

/// Labels that occur once each.
pub open spec fn group_labels_distinct(groups: Seq<(Seq<char>, Seq<Seq<char>>)>) -> bool {
    forall|a: int, b: int| 0 <= a < b < groups.len() ==> (#[trigger] groups[a]).0 != (#[trigger] groups[b]).0
}

proof fn lemma_group_found(groups: Seq<(Seq<char>, Seq<Seq<char>>)>, label: Seq<char>, k: int)
    requires
        group_labels_distinct(groups),
        0 <= k < groups.len(),
        groups[k].0 == label,
    ensures
        group_index(groups, label) == Some(k),
{
    lemma_group_index(groups, label);
    match group_index(groups, label) {
        Some(i) => {
            if i < k {
                assert(groups[i].0 != groups[k].0);
            } else if k < i {
                assert(groups[k].0 != groups[i].0);
            }
        },
        None => {
            assert(groups[k].0 != label);
        },
    }
}

fn find_group(groups: &Vec<(String, Vec<String>)>, label: &String) -> (r: Option<usize>)
    ensures
        r matches Some(k) ==> k < groups@.len() && groups@[k as int].0@ == label@,
        r is None ==> forall|j: int| 0 <= j < groups@.len() ==> (#[trigger] groups@[j]).0@ != label@,
{
    let mut k: usize = 0;
    while k < groups.len()
        invariant
            k <= groups@.len(),
            forall|j: int| 0 <= j < k ==> (#[trigger] groups@[j]).0@ != label@,
        decreases groups.len() - k,
    {
        if groups[k].0 == *label {
            return Some(k);
        }
        k = k + 1;
    }
    None
}

/// Groups as spec values.
pub open spec fn group_views(groups: Seq<(String, Vec<String>)>) -> Seq<(Seq<char>, Seq<Seq<char>>)> {
    groups.map_values(|g: (String, Vec<String>)| (g.0@, texts(g.1@)))
}

fn group_players(players: &[(String, Option<String>)]) -> (r: Vec<(String, Vec<String>)>)
    ensures
        group_views(r@) == players_by_server(player_views(players@)),
{
    let ghost pv = player_views(players@);
    let mut groups: Vec<(String, Vec<String>)> = Vec::new();
    let mut i: usize = 0;
    proof { assert(group_views(groups@) =~= players_by_server(pv.take(0))); }
    while i < players.len()
        invariant
            pv == player_views(players@),
            i <= players@.len(),
            group_views(groups@) == players_by_server(pv.take(i as int)),
            group_labels_distinct(group_views(groups@)),
        decreases players.len() - i,
    {
        let ghost before = group_views(groups@);
        proof {
            let t = pv.take(i + 1);
            assert(t.drop_last() =~= pv.take(i as int));
            assert(t.last() == (players@[i as int].0@, opt_text(players@[i as int].1)));
        }
        match &players[i].1 {
            Some(label) => {
                match find_group(&groups, label) {
                    Some(k) => {
                        proof {
                            assert(before[k as int].0 == label@);
                            lemma_group_found(before, label@, k as int);
                        }
                        let ghost old_groups = groups@;
                        let name = players[i].0.clone();
                        groups[k].1.push(name);
                        proof {
                            assert(groups@[k as int].1@ == old_groups[k as int].1@.push(name));
                            assert(texts(groups@[k as int].1@) =~= texts(old_groups[k as int].1@).push(
                                players@[i as int].0@,
                            ));
                            assert forall|j: int| 0 <= j < groups@.len() && j != k implies groups@[j] == old_groups[j] by {}
                            assert(group_views(groups@) =~= before.update(
                                k as int,
                                (label@, before[k as int].1.push(players@[i as int].0@)),
                            ));
                        }
                    },
                    None => {
                        let ghost old_groups = groups@;
                        let mut names: Vec<String> = Vec::new();
                        names.push(players[i].0.clone());
                        groups.push((label.clone(), names));
                        proof {
                            assert forall|j: int| 0 <= j < before.len() implies (#[trigger] before[j]).0 != label@ by {
                                assert(old_groups[j].0@ != label@);
                            }
                            lemma_group_index(before, label@);
                            if group_index(before, label@) is Some {
                                let q = group_index(before, label@).unwrap();
                                assert(before[q].0 != label@);
                            }
                            assert(texts(names@) =~= seq![players@[i as int].0@]);
                            assert(group_views(groups@) =~= before.push((label@, seq![players@[i as int].0@])));
                        }
                    },
                }
            },
            None => {},
        }
        i = i + 1;
    }
    proof { assert(pv.take(players@.len() as int) =~= pv); }
    groups
}

/// What `glist` shows, one message each, in the info color: how many
/// players are on the proxy, then for each server its players (servers in
/// the order their first player appears among `players`).
pub fn glist_messages(players: &[(String, Option<String>)]) -> (r: Vec<Text>)
    ensures
        r@.len() == players_by_server(player_views(players@)).len() + 1,
        is_literal(r@[0], count_line(players@.len()), colored_style(info_color())),
        forall|k: int|
            1 <= k < r@.len() ==> is_literal(
                #[trigger] r@[k],
                group_line(
                    players_by_server(player_views(players@))[k - 1].0,
                    players_by_server(player_views(players@))[k - 1].1,
                ),
                colored_style(info_color()),
            ),
{
    let groups = group_players(players);
    let ghost gv = group_views(groups@);
    let color = info_color_value();
    let mut first = String::new();
    push_str(&mut first, "There are currently ");
    push_decimal(&mut first, players.len() as u64);
    push_str(&mut first, " players on the proxy");
    let mut out: Vec<Text> = Vec::new();
    out.push(colored(first, color));
    let mut k: usize = 0;
    while k < groups.len()
        invariant
            gv == group_views(groups@),
            color == info_color(),
            k <= groups@.len(),
            out@.len() == k + 1,
            is_literal(out@[0], count_line(players@.len()), colored_style(info_color())),
            forall|j: int|
                1 <= j < out@.len() ==> is_literal(
                    #[trigger] out@[j],
                    group_line(gv[j - 1].0, gv[j - 1].1),
                    colored_style(info_color()),
                ),
        decreases groups.len() - k,
    {
        let mut line = String::new();
        push_str(&mut line, groups[k].0.as_str());
        push_str(&mut line, " (");
        push_decimal(&mut line, groups[k].1.len() as u64);
        push_str(&mut line, "): ");
        let names = join(groups[k].1.as_slice(), 0, ", ");
        push_str(&mut line, names.as_str());
        proof {
            assert(texts(groups@[k as int].1@).skip(0) =~= texts(groups@[k as int].1@));
            assert(gv[k as int] == (groups@[k as int].0@, texts(groups@[k as int].1@)));
        }
        out.push(colored(line, color));
        k = k + 1;
    }
    out
}

// ---------------------------------------------------------------------------
// Completion
// ---------------------------------------------------------------------------

/// What the completers of the core commands offer: server labels for
/// `server` and for the second argument of `send`, player names for `gkick`,
/// and `*`, `*current` and player names for the first argument of `send`;
/// each only where it starts with what was typed.
pub open spec fn core_completion(
    index: usize,
    args: Seq<Seq<char>>,
    labels: Seq<Seq<char>>,
    names: Seq<Seq<char>>,
) -> Seq<Seq<char>> {
    if index == SERVER_COMMAND && args.len() == 1 {
        prefix_filter(labels, args[0])
    } else if index == GKICK_COMMAND && args.len() == 1 {
        prefix_filter(names, args[0])
    } else if index == SEND_COMMAND && args.len() == 1 {
        prefix_filter(seq!["*"@, "*current"@] + names, args[0])
    } else if index == SEND_COMMAND && args.len() == 2 {
        prefix_filter(labels, args[1])
    } else {
        Seq::empty()
    }
}

/// The completions a core command offers for its arguments so far.
pub fn core_completions(index: usize, args: &[String], labels: &[String], names: &[String]) -> (r: Vec<String>)
    ensures
        texts(r@) == core_completion(index, texts(args@), texts(labels@), texts(names@)),
{
    if index == SERVER_COMMAND && args.len() == 1 {
        completions_with_prefix(labels, args[0].as_str())
    } else if index == GKICK_COMMAND && args.len() == 1 {
        completions_with_prefix(names, args[0].as_str())
    } else if index == SEND_COMMAND && args.len() == 1 {
        let mut all: Vec<String> = Vec::new();
        all.push("*".to_string());
        all.push("*current".to_string());
        let mut i: usize = 0;
        while i < names.len()
            invariant
                i <= names@.len(),
                texts(all@) == seq!["*"@, "*current"@] + texts(names@).take(i as int),
            decreases names.len() - i,
        {
            let ghost before = all@;
            all.push(names[i].clone());
            proof {
                assert(texts(all@) =~= texts(before).push(names@[i as int]@));
                assert(texts(names@).take(i + 1) =~= texts(names@).take(i as int).push(names@[i as int]@));
            }
            i = i + 1;
        }
        proof { assert(texts(names@).take(names@.len() as int) =~= texts(names@)); }
        completions_with_prefix(all.as_slice(), args[0].as_str())
    } else if index == SEND_COMMAND && args.len() == 2 {
        completions_with_prefix(labels, args[1].as_str())
    } else {
        let r: Vec<String> = Vec::new();
        proof { assert(texts(r@) =~= Seq::<Seq<char>>::empty()); }
        r
    }
}

} // verus!
