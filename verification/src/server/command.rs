//! The proxy's own commands: their registry, and how a typed command line
//! is split into the command's name and arguments, for running it or for
//! completing it.
//!
//! The code that runs a command lives with the caller; the registry says
//! which command a line names (by its position in the registry) and what
//! the command is handed.
use vstd::prelude::*;

use crate::server::texts;
use crate::util::{push_char, push_str};
use vstd::utf8::encode_utf8;


verus! {

/// How a command gets its arguments.
#[derive(Debug, Clone, Copy, PartialEq, Eq, Structural)]
pub enum CommandArgType {
    /// The arguments split at ASCII whitespace.
    TextSplitBySpace,
    /// Two arguments: the whole command line and everything after the name.
    Args0ContainsEverything,
}

impl Default for CommandArgType {
    fn default() -> (r: CommandArgType)
        ensures
            r == CommandArgType::TextSplitBySpace,
    {
        CommandArgType::TextSplitBySpace
    }
}

/// A registered command: its names (the first is its main name), how it
/// takes arguments, whether it can complete them, the permission it needs
/// and what it does.
#[derive(Debug)]
pub struct CommandInfo {
    pub names: Vec<String>,
    pub arg_type: CommandArgType,
    pub has_tab_completer: bool,
    pub permission: String,
    pub description: String,
}

impl CommandInfo {
    /// The main name.
    pub fn name(&self) -> (r: &str)
        requires
            self.names@.len() > 0,
        ensures
            r@ == self.names@[0]@,
    {
        self.names[0].as_str()
    }
}

/// Something that gives a list of command names.
pub trait CommandNames: Sized {
    /// The names it gives.
    spec fn names_view(&self) -> Seq<Seq<char>>;

    fn names(self) -> (r: Vec<String>)
        ensures
            texts(r@) == self.names_view(),
    ;
}

impl CommandNames for Vec<String> {
    open spec fn names_view(&self) -> Seq<Seq<char>> {
        texts(self@)
    }

    fn names(self) -> (r: Vec<String>) {
        self
    }
}

impl CommandNames for Vec<&str> {
    open spec fn names_view(&self) -> Seq<Seq<char>> {
        self@.map_values(|s: &str| s@)
    }

    fn names(self) -> (r: Vec<String>) {
        let mut out: Vec<String> = Vec::new();
        let mut i: usize = 0;
        while i < self.len()
            invariant
                i <= self@.len(),
                texts(out@) == self@.map_values(|s: &str| s@).take(i as int),
            decreases self.len() - i,
        {
            let ghost before = texts(out@);
            out.push(self[i].to_owned());
            proof {
                assert(texts(out@) =~= before.push(self@[i as int]@));
                assert(self@.map_values(|s: &str| s@).take((i + 1) as int) =~= self@.map_values(|s: &str| s@).take(
                    i as int,
                ).push(self@[i as int]@));
            }
            i = i + 1;
        }
        proof { assert(self@.map_values(|s: &str| s@).take(i as int) =~= self@.map_values(|s: &str| s@)); }
        out
    }
}

// ---------------------------------------------------------------------------
// Names
// ---------------------------------------------------------------------------

/// Whether `char::is_alphanumeric` holds of a character (the Unicode
/// `Alphabetic` or `Numeric` property).
pub uninterp spec fn unicode_alphanumeric(c: char) -> bool;

/// `char::is_alphanumeric`: whether the character is alphabetic or numeric
/// in Unicode's sense, a property of the character alone.  ASCII letters
/// and digits are (they have the `Alphabetic` and `Numeric` properties).
pub assume_specification[ char::is_alphanumeric ](c: char) -> (r: bool)
    ensures
        r == unicode_alphanumeric(c),
        ('a' <= c <= 'z' || 'A' <= c <= 'Z' || '0' <= c <= '9') ==> r,
;

/// Whether a character may stand in a command name.
pub open spec fn is_command_name_char(c: char) -> bool {
    unicode_alphanumeric(c) || c == '_'
}

/// Whether a command name is valid: alphanumeric characters and
/// underscores only.
pub open spec fn is_command_name(s: Seq<char>) -> bool {
    forall|i: int| 0 <= i < s.len() ==> is_command_name_char(#[trigger] s[i])
}

/// Whether a name is made of ASCII letters, digits and underscores.
pub open spec fn is_ascii_name(s: Seq<char>) -> bool {
    forall|i: int|
        0 <= i < s.len() ==> ('a' <= #[trigger] s[i] <= 'z' || 'A' <= s[i] <= 'Z' || '0' <= s[i] <= '9' || s[i]
            == '_')
}

/// The prefix of the alias every core command gets.
pub open spec fn core_prefix() -> Seq<char> {
    seq!['c', 'r', 'u', 's', 't', ':']
}

/// A command's names with the `crust:` alias of each added after them.
pub open spec fn with_aliases(names: Seq<Seq<char>>) -> Seq<Seq<char>> {
    names + names.map_values(|n: Seq<char>| core_prefix() + n)
}

/// A command as spec values: names, argument type, whether it completes,
/// permission.
pub open spec fn command_view(c: CommandInfo) -> (Seq<Seq<char>>, CommandArgType, bool, Seq<char>) {
    (texts(c.names@), c.arg_type, c.has_tab_completer, c.permission@)
}

/// The views of a list of commands.
pub open spec fn command_views(v: Seq<CommandInfo>) -> Seq<(Seq<Seq<char>>, CommandArgType, bool, Seq<char>)> {
    v.map_values(|c: CommandInfo| command_view(c))
}

/// Collects the commands of a registry.
pub struct CommandRegistryBuilder {
    commands: Vec<CommandInfo>,
}

impl CommandRegistryBuilder {
    /// The commands added so far.
    pub closed spec fn view(&self) -> Seq<(Seq<Seq<char>>, CommandArgType, bool, Seq<char>)> {
        command_views(self.commands@)
    }

    /// A builder with no commands.
    pub fn new() -> (r: CommandRegistryBuilder)
        ensures
            r@ == Seq::<(Seq<Seq<char>>, CommandArgType, bool, Seq<char>)>::empty(),
    {
        let r = CommandRegistryBuilder { commands: Vec::new() };
        proof { assert(r@ =~= Seq::<(Seq<Seq<char>>, CommandArgType, bool, Seq<char>)>::empty()); }
        r
    }

    /// Whether a command name is valid: alphanumeric characters and
    /// underscores only.
    pub fn is_name_valid(name: &str) -> (r: bool)
        ensures
            r == is_command_name(name@),
            is_ascii_name(name@) ==> r,
    {
        broadcast use vstd::string::axiom_spec_iter;
        let mut all = true;
        for c in it: name.chars()
            invariant
                it.seq() == name@,
                all == forall|j: int| 0 <= j < it.index() ==> is_command_name_char(#[trigger] name@[j]),
                is_ascii_name(name@) ==> all,
        {
            if !(c.is_alphanumeric() || c == '_') {
                all = false;
            }
        }
        all
    }

    /// Adds a core command, under its names and the `crust:` alias of each.
    /// Every name must be valid (see `is_name_valid`).
    pub fn add_core_command<N: CommandNames>(
        &mut self,
        names: N,
        arg_type: CommandArgType,
        has_tab_completer: bool,
        permission: String,
        description: String,
    )
        requires
            forall|i: int| 0 <= i < names.names_view().len() ==> is_command_name(#[trigger] names.names_view()[i]),
        ensures
            final(self)@ == old(self)@.push((with_aliases(names.names_view()), arg_type, has_tab_completer, permission@)),
    {
        let ghost given = names.names_view();
        let mut names = names.names();
        let count = names.len();
        let mut i: usize = 0;
        proof { assert(texts(names@) =~= given + given.take(0).map_values(|n: Seq<char>| core_prefix() + n)); }
        while i < count
            invariant
                count == given.len(),
                i <= count,
                names@.len() == count + i,
                texts(names@) == given + given.take(i as int).map_values(|n: Seq<char>| core_prefix() + n),
            decreases count - i,
        {
            let mut alias = "crust:".to_owned();
            proof {
                reveal_strlit("crust:");
                assert(alias@ =~= core_prefix());
            }
            proof { assert(texts(names@)[i as int] == given[i as int]); }
            push_str(&mut alias, names[i].as_str());
            let ghost before = texts(names@);
            names.push(alias);
            proof {
                assert(texts(names@) =~= before.push(core_prefix() + given[i as int]));
                assert(given.take((i + 1) as int).map_values(|n: Seq<char>| core_prefix() + n) =~= given.take(
                    i as int,
                ).map_values(|n: Seq<char>| core_prefix() + n).push(core_prefix() + given[i as int]));
            }
            i = i + 1;
        }
        proof { assert(given.take(count as int) =~= given); }
        let ghost cmds = self@;
        self.commands.push(CommandInfo { names, arg_type, has_tab_completer, permission, description });
        proof { assert(self@ =~= cmds.push((with_aliases(given), arg_type, has_tab_completer, permission@))); }
    }

    /// Adds a core command and hands the builder back.
    pub fn core_command<N: CommandNames>(
        self,
        names: N,
        arg_type: CommandArgType,
        has_tab_completer: bool,
        permission: String,
        description: String,
    ) -> (r: CommandRegistryBuilder)
        requires
            forall|i: int| 0 <= i < names.names_view().len() ==> is_command_name(#[trigger] names.names_view()[i]),
        ensures
            r@ == self@.push((with_aliases(names.names_view()), arg_type, has_tab_completer, permission@)),
    {
        let mut b = self;
        b.add_core_command(names, arg_type, has_tab_completer, permission, description);
        b
    }

    /// The registry of the commands added.
    pub fn build(self) -> (r: CommandRegistry)
        ensures
            r@ == self@,
    {
        CommandRegistry { commands: self.commands }
    }
}

/// The commands the proxy knows, found by any of their names; where two
/// commands share a name, the one added later has it.
pub struct CommandRegistry {
    commands: Vec<CommandInfo>,
}

impl CommandRegistry {
    /// The commands, in the order they were added.
    pub closed spec fn view(&self) -> Seq<(Seq<Seq<char>>, CommandArgType, bool, Seq<char>)> {
        command_views(self.commands@)
    }

    /// All commands.
    pub fn all_commands(&self) -> (r: &[CommandInfo])
        ensures
            command_views(r@) == self@,
    {
        self.commands.as_slice()
    }
}

// ---------------------------------------------------------------------------
// Command lines
// ---------------------------------------------------------------------------

/// The ASCII whitespace characters `split_ascii_whitespace` splits at.
pub open spec fn is_ascii_ws(c: char) -> bool {
    c == ' ' || c == '\t' || c == '\n' || c == '\x0C' || c == '\r'
}

/// The words of `s` when `cur` is the word read so far.
pub open spec fn words_from(s: Seq<char>, cur: Seq<char>) -> Seq<Seq<char>>
    decreases s.len(),
{
    if s.len() == 0 {
        if cur.len() > 0 {
            seq![cur]
        } else {
            Seq::empty()
        }
    } else if is_ascii_ws(s[0]) {
        (if cur.len() > 0 {
            seq![cur]
        } else {
            Seq::empty()
        }) + words_from(s.drop_first(), Seq::empty())
    } else {
        words_from(s.drop_first(), cur.push(s[0]))
    }
}

/// The words of `s`: the nonempty runs between ASCII whitespace.
pub open spec fn ascii_words(s: Seq<char>) -> Seq<Seq<char>> {
    words_from(s, Seq::empty())
}

/// The position of the first space in `s` at or after `i`, or -1.
pub open spec fn first_space_from(s: Seq<char>, i: nat) -> int
    decreases s.len() - i,
{
    if i >= s.len() {
        -1
    } else if s[i as int] == ' ' {
        i as int
    } else {
        first_space_from(s, i + 1)
    }
}

/// The name a command line starts with: everything before the first space.
pub open spec fn line_name(s: Seq<char>) -> Seq<char> {
    let p = first_space_from(s, 0);
    if p < 0 {
        s
    } else {
        s.take(p)
    }
}

/// What follows the name of a command line: everything after the first
/// space.
pub open spec fn line_rest(s: Seq<char>) -> Seq<char> {
    let p = first_space_from(s, 0);
    if p < 0 {
        Seq::empty()
    } else {
        s.skip(p + 1)
    }
}

/// The arguments a command gets from a line.
pub open spec fn line_args(arg_type: CommandArgType, line: Seq<char>) -> Seq<Seq<char>> {
    match arg_type {
        CommandArgType::TextSplitBySpace => ascii_words(line_rest(line)),
        CommandArgType::Args0ContainsEverything => seq![line, line_rest(line)],
    }
}

/// The position of the command among the first `k` that has a name, the
/// last one if several have it.
pub open spec fn find_command(
    cmds: Seq<(Seq<Seq<char>>, CommandArgType, bool, Seq<char>)>,
    name: Seq<char>,
    k: nat,
) -> Option<int>
    decreases k,
{
    if k == 0 || k > cmds.len() {
        None
    } else if cmds[k - 1].0.contains(name) {
        Some(k - 1)
    } else {
        find_command(cmds, name, (k - 1) as nat)
    }
}

proof fn lemma_no_space_prefix(s: Seq<char>, k: nat)
    requires
        k <= s.len(),
        forall|j: int| 0 <= j < k ==> s[j] != ' ',
    ensures
        first_space_from(s, 0) == first_space_from(s, k),
    decreases k,
{
    if k > 0 {
        lemma_no_space_prefix(s, (k - 1) as nat);
    }
}

/// Splits a command line at its first space.
fn split_line(line: &str) -> (r: (String, String))
    ensures
        r.0@ == line_name(line@),
        r.1@ == line_rest(line@),
{
    broadcast use vstd::string::axiom_spec_iter;
    let mut name = String::new();
    let mut rest = String::new();
    let mut found = false;
    let ghost s = line@;
    let ghost mut p: int = -1;
    for c in it: line.chars()
        invariant
            it.seq() == s,
            s == line@,
            !found ==> name@ == s.take(it.index() as int) && rest@ == Seq::<char>::empty() && forall|j: int|
                0 <= j < it.index() ==> s[j] != ' ',
            found ==> 0 <= p < it.index() && p == first_space_from(s, 0) && name@ == s.take(p) && rest@
                == s.subrange(p + 1, it.index() as int),
    {
        let ghost idx = it.index();
        if found {
            push_char(&mut rest, c);
            proof { assert(rest@ =~= s.subrange(p + 1, idx + 1)); }
        } else if c == ' ' {
            proof {
                lemma_no_space_prefix(s, idx as nat);
                p = idx as int;
            }
            found = true;
        } else {
            push_char(&mut name, c);
            proof { assert(name@ =~= s.take(idx + 1)); }
        }
    }
    proof {
        if !found {
            lemma_no_space_prefix(s, s.len());
            assert(s.take(s.len() as int) =~= s);
        } else {
            assert(s.subrange(p + 1, s.len() as int) =~= s.skip(p + 1));
        }
    }
    (name, rest)
}

/// The words of a text, split at ASCII whitespace.
pub fn split_ascii_words(text: &str) -> (r: Vec<String>)
    ensures
        texts(r@) == ascii_words(text@),
{
    broadcast use vstd::string::axiom_spec_iter;
    let ghost s = text@;
    let mut out: Vec<String> = Vec::new();
    let mut cur = String::new();
    let mut nonempty = false;
    proof { assert(s.skip(0) =~= s); }
    for c in it: text.chars()
        invariant
            it.seq() == s,
            s == text@,
            nonempty == (cur@.len() > 0),
            ascii_words(s) == texts(out@) + words_from(s.skip(it.index() as int), cur@),
    {
        let ghost idx = it.index() as int;
        let ghost t = s.skip(idx);
        proof {
            assert(t[0] == c);
            assert(t.drop_first() =~= s.skip(idx + 1));
        }
        if c == ' ' || c == '\t' || c == '\n' || c == '\x0C' || c == '\r' {
            if nonempty {
                let ghost before = texts(out@);
                let ghost w = cur@;
                out.push(cur);
                proof {
                    assert(texts(out@) =~= before.push(w));
                    assert(w.len() > 0);
                    assert(before + (seq![w] + words_from(s.skip(idx + 1), Seq::empty())) =~= before.push(w)
                        + words_from(s.skip(idx + 1), Seq::empty()));
                }
                cur = String::new();
                nonempty = false;
            } else {
                proof {
                    assert(cur@.len() == 0);
                    assert(Seq::<Seq<char>>::empty() + words_from(s.skip(idx + 1), Seq::empty()) =~= words_from(
                        s.skip(idx + 1),
                        Seq::empty(),
                    ));
                    assert(cur@ =~= Seq::<char>::empty());
                }
            }
        } else {
            push_char(&mut cur, c);
            nonempty = true;
        }
    }
    proof { assert(s.skip(s.len() as int) =~= Seq::<char>::empty()); }
    if nonempty {
        let ghost before = texts(out@);
        let ghost w = cur@;
        out.push(cur);
        proof { assert(texts(out@) =~= before.push(w)); }
    } else {
        proof { assert(texts(out@) + Seq::<Seq<char>>::empty() =~= texts(out@)); }
    }
    out
}

/// Whether the bytes of a line end with a space.
pub open spec fn ends_with_space(b: Seq<u8>) -> bool {
    b.len() > 0 && b.last() == 0x20u8
}

/// Going back from byte `i`, the first position that is 0 or holds a space.
pub open spec fn back_to_space(b: Seq<u8>, i: int) -> int
    decreases i,
{
    if i <= 0 {
        0
    } else if b[i] == 0x20u8 {
        i
    } else {
        back_to_space(b, i - 1)
    }
}

/// The part of a line (by bytes) that completions replace, as start and
/// length: after a trailing space an empty part past the end, else the
/// last word (the start counts from one past the space before it).
pub open spec fn completion_range(b: Seq<u8>) -> (i32, i32) {
    if ends_with_space(b) {
        ((b.len() + 1) as i32, 0i32)
    } else {
        let i = back_to_space(b, b.len() - 1);
        ((i + 2) as i32, (b.len() - i) as i32)
    }
}

/// The arguments a completer gets from a line: the words, and an empty
/// word after a trailing space.
pub open spec fn completion_args(arg_type: CommandArgType, line: Seq<char>, b: Seq<u8>) -> Seq<Seq<char>> {
    match arg_type {
        CommandArgType::TextSplitBySpace => ascii_words(line_rest(line)) + if ends_with_space(b) {
            seq![Seq::<char>::empty()]
        } else {
            Seq::empty()
        },
        CommandArgType::Args0ContainsEverything => seq![line, line_rest(line)],
    }
}

/// A command to run: its position in the registry, the name it was called
/// by, and its arguments.
#[derive(Debug)]
pub struct CommandCall {
    pub index: usize,
    pub name: String,
    pub args: Vec<String>,
}

/// A completion to ask of a command: its position in the registry, the
/// name it was called by, its arguments, the part of the line completions
/// replace, and whether the command completes at all.
#[derive(Debug)]
pub struct CompletionCall {
    pub index: usize,
    pub name: String,
    pub args: Vec<String>,
    pub start: i32,
    pub length: i32,
    pub has_tab_completer: bool,
}

impl CommandRegistry {
    fn find(&self, name: &str) -> (r: Option<usize>)
        ensures
            match find_command(self@, name@, self@.len()) {
                Some(i) => r matches Some(j) && j == i && i < self@.len() && i < self.commands@.len(),
                None => r is None,
            },
    {
        let ghost cmds = self@;
        let mut i: usize = self.commands.len();
        while i > 0
            invariant
                cmds == command_views(self.commands@),
                cmds.len() == self.commands@.len(),
                i <= cmds.len(),
                find_command(cmds, name@, cmds.len()) == find_command(cmds, name@, i as nat),
            decreases i,
        {
            proof { assert(cmds[i - 1].0 == texts(self.commands@[i - 1].names@)); }
            if crate::server::list_contains(&self.commands[i - 1].names, name) {
                return Some(i - 1);
            }
            i = i - 1;
        }
        None
    }

    /// The command that has this name.
    pub fn get_command_by_name(&self, name: &str) -> (r: Option<&CommandInfo>)
        ensures
            match find_command(self@, name@, self@.len()) {
                Some(i) => r matches Some(c) && command_view(*c) == self@[i],
                None => r is None,
            },
    {
        match self.find(name) {
            Some(i) => {
                proof { assert(self@[i as int] == command_view(self.commands@[i as int])); }
                Some(&self.commands[i])
            },
            None => None,
        }
    }

    /// What running a command line comes to: the command its name names,
    /// with its arguments; nothing for an empty line or an unknown name.
    pub fn execute(&self, command: &str) -> (r: Option<CommandCall>)
        ensures
            command@.len() == 0 ==> r is None,
            command@.len() > 0 ==> match find_command(self@, line_name(command@), self@.len()) {
                None => r is None,
                Some(i) => r matches Some(call) && call.index == i && call.name@ == line_name(command@) && texts(
                    call.args@,
                ) == line_args(self@[i].1, command@),
            },
    {
        if command.is_empty() {
            return None;
        }
        let (name, rest) = split_line(command);
        match self.find(name.as_str()) {
            None => None,
            Some(i) => {
                proof { assert(self@[i as int] == command_view(self.commands@[i as int])); }
                let args = match self.commands[i].arg_type {
                    CommandArgType::TextSplitBySpace => split_ascii_words(rest.as_str()),
                    CommandArgType::Args0ContainsEverything => {
                        let v = vec![command.to_owned(), rest];
                        proof { assert(texts(v@) =~= seq![command@, line_rest(command@)]); }
                        v
                    },
                };
                Some(CommandCall { index: i, name, args })
            },
        }
    }

    /// What completing a command line comes to: the command its name
    /// names, with the arguments its completer gets and the part of the
    /// line completions replace; nothing for an empty line or an unknown
    /// name.
    pub fn tab_complete(&self, command: &str) -> (r: Option<CompletionCall>)
        requires
            encode_utf8(command@).len() < i32::MAX,
        ensures
            command@.len() == 0 ==> r is None,
            command@.len() > 0 ==> match find_command(self@, line_name(command@), self@.len()) {
                None => r is None,
                Some(i) => r matches Some(call) && call.index == i && call.name@ == line_name(command@)
                    && call.has_tab_completer == self@[i].2 && texts(call.args@) == completion_args(
                    self@[i].1,
                    command@,
                    encode_utf8(command@),
                ) && (call.start, call.length) == match self@[i].1 {
                    CommandArgType::TextSplitBySpace => completion_range(encode_utf8(command@)),
                    CommandArgType::Args0ContainsEverything => (0i32, 0i32),
                },
            },
    {
        if command.is_empty() {
            return None;
        }
        let (name, rest) = split_line(command);
        match self.find(name.as_str()) {
            None => None,
            Some(i) => {
                proof { assert(self@[i as int] == command_view(self.commands@[i as int])); }
                let info = &self.commands[i];
                match info.arg_type {
                    CommandArgType::TextSplitBySpace => {
                        let mut args = split_ascii_words(rest.as_str());
                        let (start, length) = completion_range_of(command);
                        let b = command.as_bytes();
                        proof { vstd::utf8::encode_utf8_valid_utf8(command@); }
                        if b[b.len() - 1] == 0x20 {
                            let ghost before = texts(args@);
                            args.push(String::new());
                            proof { assert(texts(args@) =~= before + seq![Seq::<char>::empty()]); }
                        } else {
                            proof { assert(texts(args@) =~= texts(args@) + Seq::<Seq<char>>::empty()); }
                        }
                        Some(CompletionCall {
                            index: i,
                            name,
                            args,
                            start,
                            length,
                            has_tab_completer: info.has_tab_completer,
                        })
                    },
                    CommandArgType::Args0ContainsEverything => {
                        let args = vec![command.to_owned(), rest];
                        proof { assert(texts(args@) =~= seq![command@, line_rest(command@)]); }
                        Some(CompletionCall {
                            index: i,
                            name,
                            args,
                            start: 0,
                            length: 0,
                            has_tab_completer: info.has_tab_completer,
                        })
                    },
                }
            },
        }
    }
}

/// The part of a nonempty line completions replace.
fn completion_range_of(command: &str) -> (r: (i32, i32))
    requires
        command@.len() > 0,
        encode_utf8(command@).len() < i32::MAX,
    ensures
        r == completion_range(encode_utf8(command@)),
{
    let b = command.as_bytes();
    proof { lemma_bytes_nonempty(command@); }
    let len = b.len();
    if b[len - 1] == 0x20 {
        return ((len + 1) as i32, 0);
    }
    let mut index = len - 1;
    let mut count: usize = 1;
    while index != 0 && b[index] != 0x20
        invariant
            len == b@.len(),
            0 < len < i32::MAX,
            index < len,
            count == len - index,
            back_to_space(b@, len - 1) == back_to_space(b@, index as int),
        decreases index,
    {
        index = index - 1;
        count = count + 1;
    }
    ((index + 2) as i32, count as i32)
}

proof fn lemma_bytes_nonempty(s: Seq<char>)
    requires
        s.len() > 0,
    ensures
        encode_utf8(s).len() > 0,
{
    vstd::utf8::encode_utf8_first_scalar(s);
}

// ---------------------------------------------------------------------------
// The core commands
// ---------------------------------------------------------------------------

/// The positions of the core commands in a registry that holds only them.
pub const SERVER_COMMAND: usize = 0;
pub const GKICK_COMMAND: usize = 1;
pub const END_COMMAND: usize = 2;
pub const SEND_COMMAND: usize = 3;
pub const GLIST_COMMAND: usize = 4;

/// A core command entry as `register_all` adds it.
pub open spec fn core_entry(name: Seq<char>, arg_type: CommandArgType, completes: bool, permission: Seq<char>) -> (
    Seq<Seq<char>>,
    CommandArgType,
    bool,
    Seq<char>,
) {
    (with_aliases(seq![name]), arg_type, completes, permission)
}

/// Registers the proxy's core commands: `server`, `gkick`, `end`, `send`
/// and `glist`, in that order.
pub fn register_all(builder: CommandRegistryBuilder) -> (r: CommandRegistryBuilder)
    ensures
        r@ == builder@ + seq![
            core_entry("server"@, CommandArgType::TextSplitBySpace, true, "crust.command.server"@),
            core_entry("gkick"@, CommandArgType::TextSplitBySpace, true, "crust.command.gkick"@),
            core_entry("end"@, CommandArgType::Args0ContainsEverything, false, "crust.command.end"@),
            core_entry("send"@, CommandArgType::TextSplitBySpace, true, "crust.command.send"@),
            core_entry("glist"@, CommandArgType::TextSplitBySpace, false, "crust.command.glist"@),
        ],
{
    proof {
        reveal_strlit("server");
        reveal_strlit("gkick");
        reveal_strlit("end");
        reveal_strlit("send");
        reveal_strlit("glist");
    }
    let b0 = builder;
    let valid = CommandRegistryBuilder::is_name_valid("server") && CommandRegistryBuilder::is_name_valid("gkick")
        && CommandRegistryBuilder::is_name_valid("end") && CommandRegistryBuilder::is_name_valid("send")
        && CommandRegistryBuilder::is_name_valid("glist");
    proof { assert(valid); }
    let n_server: Vec<&str> = vec!["server"];
    let n_gkick: Vec<&str> = vec!["gkick"];
    let n_end: Vec<&str> = vec!["end"];
    let n_send: Vec<&str> = vec!["send"];
    let n_glist: Vec<&str> = vec!["glist"];
    proof {
        assert(n_server.names_view() =~= seq!["server"@]);
        assert(n_gkick.names_view() =~= seq!["gkick"@]);
        assert(n_end.names_view() =~= seq!["end"@]);
        assert(n_send.names_view() =~= seq!["send"@]);
        assert(n_glist.names_view() =~= seq!["glist"@]);
    }
    let b1 = b0.core_command(
        n_server,
        CommandArgType::default(),
        true,
        "crust.command.server".to_owned(),
        "Switches the player to another server".to_owned(),
    );
    let b2 = b1.core_command(
        n_gkick,
        CommandArgType::default(),
        true,
        "crust.command.gkick".to_owned(),
        "Kick a player from the proxy".to_owned(),
    );
    let b3 = b2.core_command(
        n_end,
        CommandArgType::Args0ContainsEverything,
        false,
        "crust.command.end".to_owned(),
        "Shutdown the proxy".to_owned(),
    );
    let b4 = b3.core_command(
        n_send,
        CommandArgType::default(),
        true,
        "crust.command.send".to_owned(),
        "Send players to a different backend".to_owned(),
    );
    let b5 = b4.core_command(
        n_glist,
        CommandArgType::default(),
        false,
        "crust.command.glist".to_owned(),
        "List all players on the proxy".to_owned(),
    );
    proof {
        assert(b5@ =~= builder@ + seq![
            core_entry("server"@, CommandArgType::TextSplitBySpace, true, "crust.command.server"@),
            core_entry("gkick"@, CommandArgType::TextSplitBySpace, true, "crust.command.gkick"@),
            core_entry("end"@, CommandArgType::Args0ContainsEverything, false, "crust.command.end"@),
            core_entry("send"@, CommandArgType::TextSplitBySpace, true, "crust.command.send"@),
            core_entry("glist"@, CommandArgType::TextSplitBySpace, false, "crust.command.glist"@),
        ]);
    }
    b5
}

// ---------------------------------------------------------------------------
// Completing names
// ---------------------------------------------------------------------------

/// Whether `prefix` starts `text`, byte for byte (as `str::starts_with`).
pub open spec fn starts_with(text: Seq<char>, prefix: Seq<char>) -> bool {
    encode_utf8(prefix).len() <= encode_utf8(text).len() && encode_utf8(text).take(encode_utf8(prefix).len() as int)
        == encode_utf8(prefix)
}

/// Whether `prefix` starts `text`.
pub fn has_prefix(text: &str, prefix: &str) -> (r: bool)
    ensures
        r == starts_with(text@, prefix@),
{
    let t = text.as_bytes();
    let p = prefix.as_bytes();
    if p.len() > t.len() {
        return false;
    }
    let mut i: usize = 0;
    while i < p.len()
        invariant
            p@ == encode_utf8(prefix@),
            t@ == encode_utf8(text@),
            p@.len() <= t@.len(),
            i <= p@.len(),
            forall|j: int| 0 <= j < i ==> t@[j] == p@[j],
        decreases p.len() - i,
    {
        if t[i] != p[i] {
            proof { assert(t@.take(p@.len() as int)[i as int] != p@[i as int]); }
            return false;
        }
        i = i + 1;
    }
    proof { assert(t@.take(p@.len() as int) =~= p@); }
    true
}

/// The candidates a completion filter keeps, in order.
pub open spec fn prefix_filter(candidates: Seq<Seq<char>>, filter: Seq<char>) -> Seq<Seq<char>>
    decreases candidates.len(),
{
    if candidates.len() == 0 {
        Seq::empty()
    } else {
        prefix_filter(candidates.drop_last(), filter) + if starts_with(candidates.last(), filter) {
            seq![candidates.last()]
        } else {
            Seq::empty()
        }
    }
}

/// The candidates that start with what was typed, as the completers of the
/// core commands offer them.
pub fn completions_with_prefix(candidates: &[String], filter: &str) -> (r: Vec<String>)
    ensures
        texts(r@) == prefix_filter(texts(candidates@), filter@),
{
    let ghost cs = texts(candidates@);
    let mut out: Vec<String> = Vec::new();
    let mut i: usize = 0;
    proof { assert(cs.take(0) =~= Seq::<Seq<char>>::empty()); }
    while i < candidates.len()
        invariant
            cs == texts(candidates@),
            i <= candidates@.len(),
            texts(out@) == prefix_filter(cs.take(i as int), filter@),
        decreases candidates.len() - i,
    {
        proof {
            assert(cs.take((i + 1) as int).drop_last() =~= cs.take(i as int));
            assert(cs.take((i + 1) as int).last() == candidates@[i as int]@);
        }
        if has_prefix(candidates[i].as_str(), filter) {
            let ghost before = texts(out@);
            out.push(candidates[i].clone());
            proof { assert(texts(out@) =~= before + seq![candidates@[i as int]@]); }
        } else {
            proof { assert(texts(out@) =~= texts(out@) + Seq::<Seq<char>>::empty()); }
        }
        i = i + 1;
    }
    proof { assert(cs.take(i as int) =~= cs); }
    out
}

} // verus!
