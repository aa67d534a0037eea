//! The JSON form of chat components.
//!
//! JSON values are held as `JsonValue`, the shape serde_json gives them:
//! objects keep their members in order, each name once.  A number is an
//! unsigned or a negative integer, or a floating-point number kept as the
//! text it prints as.  Turning JSON text into values is left to the caller.
use vstd::prelude::*;

use crate::chat::{ClickAction, ClickEvent, HoverEvent, Style, Text, TextColor, TextContent};
use crate::util::{push_char, push_str, write_u32_be, Uuid};

verus! {

/// A JSON number, as serde_json distinguishes them.
#[derive(Debug, PartialEq, Eq)]
pub enum JsonNumber {
    PosInt(u64),
    NegInt(i64),
    Float(String),
}

/// A JSON value.
#[derive(Debug, PartialEq, Eq)]
pub enum JsonValue {
    Null,
    Bool(bool),
    Number(JsonNumber),
    String(String),
    Array(Vec<JsonValue>),
    Object(Vec<(String, JsonValue)>),
}

/// A JSON number as a spec value.
pub enum NumView {
    PosInt(u64),
    NegInt(i64),
    Float(Seq<char>),
}

/// A JSON value as a spec value.
pub enum JsonView {
    Null,
    Bool(bool),
    Num(NumView),
    Str(Seq<char>),
    Arr(Seq<JsonView>),
    Obj(Seq<(Seq<char>, JsonView)>),
}

/// The spec value of a number.
pub open spec fn num_view(n: JsonNumber) -> NumView {
    match n {
        JsonNumber::PosInt(u) => NumView::PosInt(u),
        JsonNumber::NegInt(i) => NumView::NegInt(i),
        JsonNumber::Float(t) => NumView::Float(t@),
    }
}

/// The spec value of a JSON value.
pub open spec fn json_view(v: JsonValue) -> JsonView
    decreases v, 2nat,
{
    match v {
        JsonValue::Null => JsonView::Null,
        JsonValue::Bool(b) => JsonView::Bool(b),
        JsonValue::Number(n) => JsonView::Num(num_view(n)),
        JsonValue::String(s) => JsonView::Str(s@),
        JsonValue::Array(a) => JsonView::Arr(json_views(a@)),
        JsonValue::Object(m) => JsonView::Obj(member_views(m@)),
    }
}

/// The spec values of some JSON values.
pub open spec fn json_views(s: Seq<JsonValue>) -> Seq<JsonView>
    decreases s, 1nat,
{
    if s.len() == 0 {
        Seq::empty()
    } else {
        json_views(s.drop_last()).push(json_view(s[s.len() - 1]))
    }
}

/// The spec values of object members.
pub open spec fn member_views(s: Seq<(String, JsonValue)>) -> Seq<(Seq<char>, JsonView)>
    decreases s, 1nat,
{
    if s.len() == 0 {
        Seq::empty()
    } else {
        member_views(s.drop_last()).push((s[s.len() - 1].0@, json_view(s[s.len() - 1].1)))
    }
}

proof fn lemma_json_views(s: Seq<JsonValue>)
    ensures
        json_views(s).len() == s.len(),
        forall|i: int| 0 <= i < s.len() ==> #[trigger] json_views(s)[i] == json_view(s[i]),
    decreases s.len(),
{
    if s.len() > 0 {
        lemma_json_views(s.drop_last());
    }
}

proof fn lemma_member_views(s: Seq<(String, JsonValue)>)
    ensures
        member_views(s).len() == s.len(),
        forall|i: int| 0 <= i < s.len() ==> #[trigger] member_views(s)[i] == (s[i].0@, json_view(s[i].1)),
    decreases s.len(),
{
    if s.len() > 0 {
        lemma_member_views(s.drop_last());
    }
}

// ---------------------------------------------------------------------------
// Chat components as spec values
// ---------------------------------------------------------------------------

/// A click event as spec values: the action (an unknown one by its name)
/// and the value.
pub enum ClickActionView {
    OpenUrl,
    OpenFile,
    RunCommand,
    SuggestCommand,
    ChangePage,
    CopyToClipboard,
    Unresolved(Seq<char>),
}

/// The look of a component as spec values.
pub struct StyleView {
    pub color: Option<TextColor>,
    pub font: Option<Seq<char>>,
    pub shadow_color: Option<u32>,
    pub bold: Option<bool>,
    pub italic: Option<bool>,
    pub underlined: Option<bool>,
    pub strikethrough: Option<bool>,
    pub obfuscated: Option<bool>,
}

/// A chat component as spec values.
pub enum TextView {
    Node {
        content: ContentView,
        extra: Seq<TextView>,
        style: StyleView,
        insertion: Option<Seq<char>>,
        click_event: Option<(ClickActionView, Seq<char>)>,
        hover_event: Option<HoverView>,
    },
}

/// What a component shows, as spec values.
pub enum ContentView {
    Literal(Seq<char>),
    Translation { key: Seq<char>, fallback: Option<Seq<char>>, with: Option<Seq<TextView>> },
    Score { name: Seq<char>, objective: Seq<char>, value: Option<Seq<char>> },
    EntitySelector { selector: Seq<char>, separator: Option<Box<TextView>> },
    Keybind(Seq<char>),
    Nbt {
        nbt: Seq<char>,
        interpret: Option<bool>,
        separator: Option<Box<TextView>>,
        block: Option<Seq<char>>,
        entity: Option<Seq<char>>,
        storage: Option<Seq<char>>,
    },
}

/// What hovering shows, as spec values.
pub enum HoverView {
    ShowText(Box<TextView>),
    ShowItem { id: Seq<char>, count: Option<i32>, tag: Option<Seq<char>> },
    ShowEntity { id: Seq<char>, entity_type: Seq<char>, name: Option<Seq<char>> },
    Unresolved { action: Seq<char>, value: Seq<char> },
}

/// The text of an optional string.
pub open spec fn opt_str(o: Option<String>) -> Option<Seq<char>> {
    match o {
        Some(s) => Some(s@),
        None => None,
    }
}

/// The spec value of a click action.
pub open spec fn action_view(a: ClickAction) -> ClickActionView {
    match a {
        ClickAction::OpenUrl => ClickActionView::OpenUrl,
        ClickAction::OpenFile => ClickActionView::OpenFile,
        ClickAction::RunCommand => ClickActionView::RunCommand,
        ClickAction::SuggestCommand => ClickActionView::SuggestCommand,
        ClickAction::ChangePage => ClickActionView::ChangePage,
        ClickAction::CopyToClipboard => ClickActionView::CopyToClipboard,
        ClickAction::Unresolved(s) => ClickActionView::Unresolved(s@),
    }
}

/// The spec value of a style.
pub open spec fn style_view(s: Style) -> StyleView {
    StyleView {
        color: s.color,
        font: opt_str(s.font),
        shadow_color: s.shadow_color,
        bold: s.bold,
        italic: s.italic,
        underlined: s.underlined,
        strikethrough: s.strikethrough,
        obfuscated: s.obfuscated,
    }
}

/// The spec value of a component.
pub open spec fn text_view(t: Text) -> TextView
    decreases t, 3nat,
{
    TextView::Node {
        content: content_view(t.content),
        extra: text_views(t.extra@),
        style: style_view(t.style),
        insertion: opt_str(t.insertion),
        click_event: match t.click_event {
            Some(e) => Some((action_view(e.action), e.value@)),
            None => None,
        },
        hover_event: match t.hover_event {
            Some(h) => Some(hover_view(h)),
            None => None,
        },
    }
}

/// The spec values of some components.
pub open spec fn text_views(s: Seq<Text>) -> Seq<TextView>
    decreases s, 1nat,
{
    if s.len() == 0 {
        Seq::empty()
    } else {
        text_views(s.drop_last()).push(text_view(s[s.len() - 1]))
    }
}

/// The spec value of a content.
pub open spec fn content_view(c: TextContent) -> ContentView
    decreases c, 2nat,
{
    match c {
        TextContent::Literal(s) => ContentView::Literal(s@),
        TextContent::Translation { key, fallback, with } => ContentView::Translation {
            key: key@,
            fallback: opt_str(fallback),
            with: match with {
                Some(w) => Some(text_views(w@)),
                None => None,
            },
        },
        TextContent::Score { name, objective, value } => ContentView::Score {
            name: name@,
            objective: objective@,
            value: opt_str(value),
        },
        TextContent::EntitySelector { selector, separator } => ContentView::EntitySelector {
            selector: selector@,
            separator: match separator {
                Some(b) => Some(Box::new(text_view(*b))),
                None => None,
            },
        },
        TextContent::Keybind(k) => ContentView::Keybind(k@),
        TextContent::Nbt { nbt, interpret, separator, block, entity, storage } => ContentView::Nbt {
            nbt: nbt@,
            interpret,
            separator: match separator {
                Some(b) => Some(Box::new(text_view(*b))),
                None => None,
            },
            block: opt_str(block),
            entity: opt_str(entity),
            storage: opt_str(storage),
        },
    }
}

/// The spec value of a hover event.
pub open spec fn hover_view(h: HoverEvent) -> HoverView
    decreases h, 2nat,
{
    match h {
        HoverEvent::ShowText(b) => HoverView::ShowText(Box::new(text_view(*b))),
        HoverEvent::ShowItem { id, count, tag } => HoverView::ShowItem { id: id@, count, tag: opt_str(tag) },
        HoverEvent::ShowEntity { id, entity_type, name } => HoverView::ShowEntity {
            id: id@,
            entity_type: entity_type@,
            name: opt_str(name),
        },
        HoverEvent::Unresolved { action, value } => HoverView::Unresolved { action: action@, value: value@ },
    }
}

proof fn lemma_text_views(s: Seq<Text>)
    ensures
        text_views(s).len() == s.len(),
        forall|i: int| 0 <= i < s.len() ==> #[trigger] text_views(s)[i] == text_view(s[i]),
    decreases s.len(),
{
    if s.len() > 0 {
        lemma_text_views(s.drop_last());
    }
}

// ---------------------------------------------------------------------------
// Serialization
// ---------------------------------------------------------------------------

/// The number serde_json makes of an `i64`.
pub open spec fn num_of_i64(i: i64) -> NumView {
    if i >= 0 {
        NumView::PosInt(i as u64)
    } else {
        NumView::NegInt(i)
    }
}

/// An uppercase hexadecimal digit.
pub open spec fn upper_hex_digit(d: nat) -> char {
    if d < 10 {
        (48 + d) as char
    } else {
        (55 + d) as char
    }
}

/// The uppercase hexadecimal digits of `v`, without leading zeros.
pub open spec fn upper_hex(v: nat) -> Seq<char>
    decreases v,
{
    if v < 16 {
        seq![upper_hex_digit(v)]
    } else {
        upper_hex(v / 16).push(upper_hex_digit(v % 16))
    }
}

/// `#` and the uppercase hexadecimal digits of a color, at least six.
pub open spec fn hex_color_text(v: u32) -> Seq<char> {
    let d = upper_hex(v as nat);
    seq!['#'] + Seq::new(if d.len() < 6 { (6 - d.len()) as nat } else { 0 }, |i: int| '0') + d
}

/// The JSON name of a color.
pub open spec fn color_text(c: TextColor) -> Seq<char> {
    match c {
        TextColor::Hex(v) => hex_color_text(v),
        TextColor::Black => "black"@,
        TextColor::DarkBlue => "dark_blue"@,
        TextColor::DarkGreen => "dark_green"@,
        TextColor::DarkAqua => "dark_aqua"@,
        TextColor::DarkRed => "dark_red"@,
        TextColor::DarkPurple => "dark_purple"@,
        TextColor::Gold => "gold"@,
        TextColor::Gray => "gray"@,
        TextColor::DarkGray => "dark_gray"@,
        TextColor::Blue => "blue"@,
        TextColor::Green => "green"@,
        TextColor::Aqua => "aqua"@,
        TextColor::Red => "red"@,
        TextColor::LightPurple => "light_purple"@,
        TextColor::Yellow => "yellow"@,
        TextColor::White => "white"@,
    }
}

/// The JSON name of a click action.
pub open spec fn action_text(a: ClickActionView) -> Seq<char> {
    match a {
        ClickActionView::OpenUrl => "open_url"@,
        ClickActionView::OpenFile => "open_file"@,
        ClickActionView::RunCommand => "run_command"@,
        ClickActionView::SuggestCommand => "suggest_command"@,
        ClickActionView::ChangePage => "change_page"@,
        ClickActionView::CopyToClipboard => "copy_to_clipboard"@,
        ClickActionView::Unresolved(s) => s,
    }
}

/// A member when there is a value for it, else nothing.
pub open spec fn opt_member(key: Seq<char>, v: Option<JsonView>) -> Seq<(Seq<char>, JsonView)> {
    match v {
        Some(x) => seq![(key, x)],
        None => Seq::empty(),
    }
}

/// A string member when there is a string, else nothing.
pub open spec fn opt_str_member(key: Seq<char>, v: Option<Seq<char>>) -> Seq<(Seq<char>, JsonView)> {
    match v {
        Some(x) => seq![(key, JsonView::Str(x))],
        None => Seq::empty(),
    }
}

/// A boolean member when there is a flag, else nothing.
pub open spec fn opt_bool_member(key: Seq<char>, v: Option<bool>) -> Seq<(Seq<char>, JsonView)> {
    match v {
        Some(x) => seq![(key, JsonView::Bool(x))],
        None => Seq::empty(),
    }
}

/// The members a style writes: its color, flags and shadow color (the
/// font is not written).
pub open spec fn style_members(s: StyleView) -> Seq<(Seq<char>, JsonView)> {
    opt_member(
        "color"@,
        match s.color {
            Some(c) => Some(JsonView::Str(color_text(c))),
            None => None,
        },
    ) + opt_bool_member("bold"@, s.bold) + opt_bool_member("italic"@, s.italic) + opt_bool_member(
        "underlined"@,
        s.underlined,
    ) + opt_bool_member("strikethrough"@, s.strikethrough) + opt_bool_member("obfuscated"@, s.obfuscated) + opt_member(
        "shadow_color"@,
        match s.shadow_color {
            Some(v) => Some(JsonView::Num(num_of_i64((v as i32) as i64))),
            None => None,
        },
    )
}

/// Whether a style sets none of the fields it writes.
pub open spec fn style_is_empty(s: StyleView) -> bool {
    s.color is None && s.shadow_color is None && s.bold is None && s.italic is None && s.underlined is None
        && s.strikethrough is None && s.obfuscated is None
}

/// The JSON of a click event.
pub open spec fn click_json(a: ClickActionView, v: Seq<char>) -> JsonView {
    JsonView::Obj(seq![("action"@, JsonView::Str(action_text(a))), ("value"@, JsonView::Str(v))])
}

/// The JSON of a hover event.
pub open spec fn hover_json(h: HoverView) -> JsonView
    decreases h, 4nat,
{
    match h {
        HoverView::ShowText(t) => JsonView::Obj(
            seq![("action"@, JsonView::Str("show_text"@)), ("contents"@, text_json(*t))],
        ),
        HoverView::ShowItem { id, count, tag } => JsonView::Obj(
            seq![
                ("action"@, JsonView::Str("show_item"@)),
                (
                    "contents"@,
                    JsonView::Obj(
                        seq![("id"@, JsonView::Str(id))] + opt_member(
                            "count"@,
                            match count {
                                Some(c) => Some(JsonView::Num(num_of_i64(c as i64))),
                                None => None,
                            },
                        ) + opt_str_member("tag"@, tag),
                    ),
                ),
            ],
        ),
        HoverView::ShowEntity { id, entity_type, name } => JsonView::Obj(
            seq![
                ("action"@, JsonView::Str("show_entity"@)),
                (
                    "contents"@,
                    JsonView::Obj(
                        seq![("id"@, JsonView::Str(id)), ("type"@, JsonView::Str(entity_type))] + opt_str_member(
                            "name"@,
                            name,
                        ),
                    ),
                ),
            ],
        ),
        HoverView::Unresolved { action, value } => JsonView::Obj(
            seq![("action"@, JsonView::Str(action)), ("value"@, JsonView::Str(value))],
        ),
    }
}

/// The members a content writes.
pub open spec fn content_members(c: ContentView) -> Seq<(Seq<char>, JsonView)>
    decreases c, 4nat,
{
    match c {
        ContentView::Literal(s) => seq![("text"@, JsonView::Str(s))],
        ContentView::Translation { key, fallback, with } => seq![("translate"@, JsonView::Str(key))]
            + opt_str_member("fallback"@, fallback) + match with {
            Some(w) => seq![("with"@, JsonView::Arr(texts_json(w)))],
            None => Seq::empty(),
        },
        ContentView::Score { name, objective, value } => seq![
            (
                "score"@,
                JsonView::Obj(
                    seq![("name"@, JsonView::Str(name)), ("objective"@, JsonView::Str(objective))] + opt_str_member(
                        "value"@,
                        value,
                    ),
                ),
            ),
        ],
        ContentView::EntitySelector { selector, separator } => seq![("selector"@, JsonView::Str(selector))]
            + match separator {
            Some(b) => seq![("separator"@, text_json(*b))],
            None => Seq::empty(),
        },
        ContentView::Keybind(k) => seq![("keybind"@, JsonView::Str(k))],
        ContentView::Nbt { nbt, interpret, separator, block, entity, storage } => seq![("nbt"@, JsonView::Str(nbt))]
            + opt_bool_member("interpret"@, interpret) + match separator {
            Some(b) => seq![("separator"@, text_json(*b))],
            None => Seq::empty(),
        } + opt_str_member("block"@, block) + opt_str_member("entity"@, entity) + opt_str_member("storage"@, storage),
    }
}

/// The JSON of a component: a plain literal is just its string; otherwise
/// an object of its style, events, insertion and content, which becomes
/// the first element of an array of the children when there are children
/// (and is cut down to its string when only the text is left).
pub open spec fn text_json(t: TextView) -> JsonView
    decreases t, 5nat,
{
    match t {
        TextView::Node { content, extra, style, insertion, click_event, hover_event } => {
            if content is Literal && style_is_empty(style) && insertion is None && click_event is None
                && hover_event is None && extra.len() == 0 {
                JsonView::Str(content->Literal_0)
            } else {
                let members = style_members(style) + match click_event {
                    Some((a, v)) => seq![("clickEvent"@, click_json(a, v))],
                    None => Seq::empty(),
                } + match hover_event {
                    Some(h) => seq![("hoverEvent"@, hover_json(h))],
                    None => Seq::empty(),
                } + opt_str_member("insertion"@, insertion) + content_members(content);
                if extra.len() == 0 {
                    JsonView::Obj(members)
                } else {
                    let first = if members.len() == 1 && members[0].0 == "text"@ {
                        members[0].1
                    } else {
                        JsonView::Obj(members)
                    };
                    JsonView::Arr(seq![first] + texts_json(extra))
                }
            }
        },
    }
}

/// The JSON of some components.
pub open spec fn texts_json(s: Seq<TextView>) -> Seq<JsonView>
    decreases s, 3nat,
{
    if s.len() == 0 {
        Seq::empty()
    } else {
        texts_json(s.drop_last()).push(text_json(s[s.len() - 1]))
    }
}

/// Appends a member to an object's members.
fn push_member(m: &mut Vec<(String, JsonValue)>, key: &str, v: JsonValue)
    ensures
        member_views(final(m)@) == member_views(old(m)@).push((key@, json_view(v))),
{
    let ghost before = m@;
    m.push((key.to_owned(), v));
    proof { assert(m@.drop_last() =~= before); }
}

/// Appends a string member when there is a string.
fn push_opt_str(m: &mut Vec<(String, JsonValue)>, key: &str, v: &Option<String>)
    ensures
        member_views(final(m)@) == member_views(old(m)@) + opt_str_member(key@, opt_str(*v)),
{
    match v {
        Some(x) => {
            push_member(m, key, JsonValue::String(x.clone()));
            proof { assert(member_views(m@) =~= member_views(old(m)@) + opt_str_member(key@, opt_str(*v))); }
        },
        None => {
            proof { assert(member_views(m@) =~= member_views(old(m)@) + opt_str_member(key@, opt_str(*v))); }
        },
    }
}

/// Appends a boolean member when there is a flag.
fn push_opt_bool(m: &mut Vec<(String, JsonValue)>, key: &str, v: Option<bool>)
    ensures
        member_views(final(m)@) == member_views(old(m)@) + opt_bool_member(key@, v),
{
    match v {
        Some(x) => {
            push_member(m, key, JsonValue::Bool(x));
            proof { assert(member_views(m@) =~= member_views(old(m)@) + opt_bool_member(key@, v)); }
        },
        None => {
            proof { assert(member_views(m@) =~= member_views(old(m)@) + opt_bool_member(key@, v)); }
        },
    }
}

/// The number serde_json makes of an `i64`.
fn number_of(i: i64) -> (r: JsonNumber)
    ensures
        num_view(r) == num_of_i64(i),
{
    if i >= 0 {
        JsonNumber::PosInt(i as u64)
    } else {
        JsonNumber::NegInt(i)
    }
}

fn upper_hex_char(d: u32) -> (r: char)
    requires
        d < 16,
    ensures
        r == upper_hex_digit(d as nat),
{
    if d < 10 {
        ((48 + d) as u8) as char
    } else {
        ((55 + d) as u8) as char
    }
}

/// Appends the uppercase hexadecimal digits of `v`.
fn push_upper_hex(out: &mut String, v: u32)
    ensures
        final(out)@ == old(out)@ + upper_hex(v as nat),
    decreases v,
{
    if v >= 16 {
        push_upper_hex(out, v / 16);
    }
    push_char(out, upper_hex_char(v % 16));
    proof {
        if v >= 16 {
            assert(upper_hex(v as nat) == upper_hex((v / 16) as nat).push(upper_hex_digit((v % 16) as nat)));
        } else {
            assert(upper_hex(v as nat) == seq![upper_hex_digit((v % 16) as nat)]);
        }
        assert(final(out)@ =~= old(out)@ + upper_hex(v as nat));
    }
}

/// `#` and the uppercase hexadecimal digits of a color, at least six.
fn hex_color_string(v: u32) -> (r: String)
    ensures
        r@ == hex_color_text(v),
{
    let mut digits = String::new();
    push_upper_hex(&mut digits, v);
    let mut out = String::new();
    push_char(&mut out, '#');
    let n = upper_hex_len(v);
    let mut k: usize = n;
    while k < 6
        invariant
            n == digits@.len(),
            n <= k <= 6 || (n > 6 && k == n),
            out@ == seq!['#'] + Seq::new((k - n) as nat, |i: int| '0'),
        decreases 6 - k,
    {
        push_char(&mut out, '0');
        k = k + 1;
        proof { assert(out@ =~= seq!['#'] + Seq::new((k - n) as nat, |i: int| '0')); }
    }
    crate::util::push_str(&mut out, digits.as_str());
    proof { assert(out@ =~= hex_color_text(v)); }
    out
}

/// Sixteen to the power `k`.
pub open spec fn pow16(k: nat) -> nat
    decreases k,
{
    if k == 0 {
        1
    } else {
        16 * pow16((k - 1) as nat)
    }
}

/// A number below `16^k` has at most `k` hexadecimal digits.
proof fn lemma_upper_hex_len_bound(v: nat, k: nat)
    requires
        v < pow16(k),
        k >= 1,
    ensures
        upper_hex(v).len() <= k,
    decreases v,
{
    if v >= 16 {
        let p = pow16((k - 1) as nat);
        assert(k >= 2) by {
            if k == 1 {
                assert(pow16(0) == 1);
            }
        }
        assert(v / 16 < p) by (nonlinear_arith)
            requires
                v < 16 * p,
        ;
        lemma_upper_hex_len_bound(v / 16, (k - 1) as nat);
    }
}

/// The number of hexadecimal digits of `v`.
fn upper_hex_len(v: u32) -> (r: usize)
    ensures
        r == upper_hex(v as nat).len(),
        r <= 8,
    decreases v,
{
    proof {
        reveal_with_fuel(pow16, 9);
        lemma_upper_hex_len_bound(v as nat, 8);
    }
    if v >= 16 {
        let k = upper_hex_len(v / 16);
        k + 1
    } else {
        1
    }
}

/// The JSON name of a color.
fn color_string(c: TextColor) -> (r: String)
    ensures
        r@ == color_text(c),
{
    match c {
        TextColor::Hex(v) => hex_color_string(v),
        TextColor::Black => "black".to_owned(),
        TextColor::DarkBlue => "dark_blue".to_owned(),
        TextColor::DarkGreen => "dark_green".to_owned(),
        TextColor::DarkAqua => "dark_aqua".to_owned(),
        TextColor::DarkRed => "dark_red".to_owned(),
        TextColor::DarkPurple => "dark_purple".to_owned(),
        TextColor::Gold => "gold".to_owned(),
        TextColor::Gray => "gray".to_owned(),
        TextColor::DarkGray => "dark_gray".to_owned(),
        TextColor::Blue => "blue".to_owned(),
        TextColor::Green => "green".to_owned(),
        TextColor::Aqua => "aqua".to_owned(),
        TextColor::Red => "red".to_owned(),
        TextColor::LightPurple => "light_purple".to_owned(),
        TextColor::Yellow => "yellow".to_owned(),
        TextColor::White => "white".to_owned(),
    }
}

/// The JSON name of a click action.
fn action_string(a: &ClickAction) -> (r: String)
    ensures
        r@ == action_text(action_view(*a)),
{
    match a {
        ClickAction::OpenUrl => "open_url".to_owned(),
        ClickAction::OpenFile => "open_file".to_owned(),
        ClickAction::RunCommand => "run_command".to_owned(),
        ClickAction::SuggestCommand => "suggest_command".to_owned(),
        ClickAction::ChangePage => "change_page".to_owned(),
        ClickAction::CopyToClipboard => "copy_to_clipboard".to_owned(),
        ClickAction::Unresolved(s) => s.clone(),
    }
}

/// Appends the color member of a style, when it has a color.
fn push_color(map: &mut Vec<(String, JsonValue)>, color: Option<TextColor>)
    ensures
        member_views(final(map)@) == member_views(old(map)@) + opt_member(
            "color"@,
            match color {
                Some(c) => Some(JsonView::Str(color_text(c))),
                None => None,
            },
        ),
{
    match color {
        Some(c) => push_member(map, "color", JsonValue::String(color_string(c))),
        None => {},
    }
    proof {
        assert(member_views(map@) =~= member_views(old(map)@) + opt_member(
            "color"@,
            match color {
                Some(c) => Some(JsonView::Str(color_text(c))),
                None => None,
            },
        ));
    }
}

/// Appends the shadow color member of a style, when it has one.
fn push_shadow(map: &mut Vec<(String, JsonValue)>, shadow: Option<u32>)
    ensures
        member_views(final(map)@) == member_views(old(map)@) + opt_member(
            "shadow_color"@,
            match shadow {
                Some(v) => Some(JsonView::Num(num_of_i64((v as i32) as i64))),
                None => None,
            },
        ),
{
    match shadow {
        Some(v) => push_member(map, "shadow_color", JsonValue::Number(number_of((v as i32) as i64))),
        None => {},
    }
    proof {
        assert(member_views(map@) =~= member_views(old(map)@) + opt_member(
            "shadow_color"@,
            match shadow {
                Some(v) => Some(JsonView::Num(num_of_i64((v as i32) as i64))),
                None => None,
            },
        ));
    }
}

/// Appends the members a style writes.
#[verifier::rlimit(30)]
fn serialize_style0(style: &Style, map: &mut Vec<(String, JsonValue)>)
    ensures
        member_views(final(map)@) == member_views(old(map)@) + style_members(style_view(*style)),
{
    let ghost m0 = member_views(map@);
    push_color(map, style.color);
    let ghost m1 = member_views(map@);
    push_opt_bool(map, "bold", style.bold);
    push_opt_bool(map, "italic", style.italic);
    push_opt_bool(map, "underlined", style.underlined);
    push_opt_bool(map, "strikethrough", style.strikethrough);
    push_opt_bool(map, "obfuscated", style.obfuscated);
    let ghost m6 = member_views(map@);
    push_shadow(map, style.shadow_color);
    proof {
        let sv = style_view(*style);
        assert(m6 =~= m1 + opt_bool_member("bold"@, sv.bold) + opt_bool_member("italic"@, sv.italic) + opt_bool_member(
            "underlined"@,
            sv.underlined,
        ) + opt_bool_member("strikethrough"@, sv.strikethrough) + opt_bool_member("obfuscated"@, sv.obfuscated));
        assert(member_views(map@) =~= m0 + style_members(sv));
    }
}

/// The JSON object of a style's members.
pub fn serialize_style(style: &Style) -> (r: JsonValue)
    ensures
        json_view(r) == JsonView::Obj(style_members(style_view(*style))),
{
    let mut map: Vec<(String, JsonValue)> = Vec::new();
    proof { assert(member_views(map@) =~= Seq::<(Seq<char>, JsonView)>::empty()); }
    serialize_style0(style, &mut map);
    proof { assert(member_views(map@) =~= style_members(style_view(*style))); }
    JsonValue::Object(map)
}

/// The JSON of a click event.
fn serialize_click(event: &ClickEvent) -> (r: JsonValue)
    ensures
        json_view(r) == click_json(action_view(event.action), event.value@),
{
    let mut map: Vec<(String, JsonValue)> = Vec::new();
    proof { assert(member_views(map@) =~= Seq::<(Seq<char>, JsonView)>::empty()); }
    push_member(&mut map, "action", JsonValue::String(action_string(&event.action)));
    push_member(&mut map, "value", JsonValue::String(event.value.clone()));
    proof { assert(member_views(map@) =~= seq![("action"@, JsonView::Str(action_text(action_view(event.action)))), ("value"@, JsonView::Str(event.value@))]); }
    JsonValue::Object(map)
}

/// An object with two string members.
fn pair_object(k1: &str, v1: JsonValue, k2: &str, v2: JsonValue) -> (r: JsonValue)
    ensures
        json_view(r) == JsonView::Obj(seq![(k1@, json_view(v1)), (k2@, json_view(v2))]),
{
    let mut map: Vec<(String, JsonValue)> = Vec::new();
    proof { assert(member_views(map@) =~= Seq::<(Seq<char>, JsonView)>::empty()); }
    let ghost j1 = json_view(v1);
    let ghost j2 = json_view(v2);
    push_member(&mut map, k1, v1);
    push_member(&mut map, k2, v2);
    proof { assert(member_views(map@) =~= seq![(k1@, j1), (k2@, j2)]); }
    JsonValue::Object(map)
}

/// The JSON of a hover event.
fn serialize_hover(event: &HoverEvent) -> (r: JsonValue)
    ensures
        json_view(r) == hover_json(hover_view(*event)),
    decreases *event,
{
    match event {
        HoverEvent::ShowText(text) => {
            proof { assert(decreases_to!(*event => (*event)->ShowText_0)); }
            let contents = serialize_json(text);
            let r = pair_object("action", JsonValue::String("show_text".to_owned()), "contents", contents);
            proof {
                assert(hover_view(*event) == HoverView::ShowText(Box::new(text_view(**text))));
                assert(json_view(r) == hover_json(hover_view(*event)));
            }
            r
        },
        HoverEvent::ShowItem { id, count, tag } => {
            let mut map: Vec<(String, JsonValue)> = Vec::new();
            proof { assert(member_views(map@) =~= Seq::<(Seq<char>, JsonView)>::empty()); }
            push_member(&mut map, "id", JsonValue::String(id.clone()));
            let ghost m1 = member_views(map@);
            match count {
                Some(c) => push_member(&mut map, "count", JsonValue::Number(number_of(*c as i64))),
                None => {},
            }
            let ghost cm = opt_member(
                "count"@,
                match *count {
                    Some(c) => Some(JsonView::Num(num_of_i64(c as i64))),
                    None => None,
                },
            );
            proof { assert(member_views(map@) =~= m1 + cm); }
            push_opt_str(&mut map, "tag", tag);
            proof {
                assert(member_views(map@) =~= seq![("id"@, JsonView::Str(id@))] + cm + opt_str_member("tag"@, opt_str(*tag)));
            }
            let ghost mv = member_views(map@);
            let r = pair_object("action", JsonValue::String("show_item".to_owned()), "contents", JsonValue::Object(map));
            proof {
                let hv = hover_view(*event);
                assert(hv == HoverView::ShowItem { id: id@, count: *count, tag: opt_str(*tag) });
                assert(json_view(r) == JsonView::Obj(seq![("action"@, JsonView::Str("show_item"@)), ("contents"@, JsonView::Obj(mv))]));
                assert(mv == seq![("id"@, JsonView::Str(id@))] + cm + opt_str_member("tag"@, opt_str(*tag)));
                let big = seq![("action"@, JsonView::Str("show_item"@)), ("contents"@, JsonView::Obj(mv))];
                assert(hover_json(hv) is Obj);
                assert(hover_json(hv)->Obj_0 =~= big);
                assert(hover_json(hv) == JsonView::Obj(big));
            }
            r
        },
        HoverEvent::ShowEntity { id, entity_type, name } => {
            let mut map: Vec<(String, JsonValue)> = Vec::new();
            proof { assert(member_views(map@) =~= Seq::<(Seq<char>, JsonView)>::empty()); }
            push_member(&mut map, "id", JsonValue::String(id.clone()));
            push_member(&mut map, "type", JsonValue::String(entity_type.clone()));
            push_opt_str(&mut map, "name", name);
            proof {
                assert(member_views(map@) =~= seq![("id"@, JsonView::Str(id@)), ("type"@, JsonView::Str(entity_type@))]
                    + opt_str_member("name"@, opt_str(*name)));
            }
            let r = pair_object("action", JsonValue::String("show_entity".to_owned()), "contents", JsonValue::Object(map));
            proof { assert(json_view(r) == hover_json(hover_view(*event))); }
            r
        },
        HoverEvent::Unresolved { action, value } => {
            let r = pair_object("action", JsonValue::String(action.clone()), "value", JsonValue::String(value.clone()));
            proof { assert(json_view(r) == hover_json(hover_view(*event))); }
            r
        },
    }
}

/// The JSON of some components.
fn serialize_texts(texts: &Vec<Text>) -> (r: Vec<JsonValue>)
    ensures
        json_views(r@) == texts_json(text_views(texts@)),
    decreases *texts,
{
    let mut out: Vec<JsonValue> = Vec::new();
    proof {
        lemma_text_views(texts@);
        assert(json_views(out@) =~= texts_json(text_views(texts@).take(0)));
    }
    let mut k: usize = 0;
    while k < texts.len()
        invariant
            k <= texts@.len(),
            text_views(texts@).len() == texts@.len(),
            forall|j: int| 0 <= j < texts@.len() ==> #[trigger] text_views(texts@)[j] == text_view(texts@[j]),
            json_views(out@) == texts_json(text_views(texts@).take(k as int)),
        decreases texts.len() - k,
    {
        proof {
            assert(decreases_to!(*texts => texts@));
            assert(decreases_to!(texts@ => texts@[k as int]));
        }
        let j = serialize_json(&texts[k]);
        let ghost before = out@;
        out.push(j);
        proof {
            assert(out@.drop_last() =~= before);
            assert(text_views(texts@).take(k + 1).drop_last() =~= text_views(texts@).take(k as int));
            assert(json_views(out@) =~= texts_json(text_views(texts@).take(k + 1)));
        }
        k = k + 1;
    }
    proof { assert(text_views(texts@).take(texts@.len() as int) =~= text_views(texts@)); }
    out
}

/// Appends the separator member of a content, when it has a separator.
fn push_separator(map: &mut Vec<(String, JsonValue)>, separator: &Option<Box<Text>>)
    ensures
        member_views(final(map)@) == member_views(old(map)@) + match *separator {
            Some(b) => seq![("separator"@, text_json(text_view(*b)))],
            None => Seq::empty(),
        },
    decreases *separator,
{
    match separator {
        Some(b) => {
            proof { assert(decreases_to!(*separator => (*separator)->0)); }
            let j = serialize_json(b);
            push_member(map, "separator", j);
        },
        None => {},
    }
    proof {
        assert(member_views(map@) =~= member_views(old(map)@) + match *separator {
            Some(b) => seq![("separator"@, text_json(text_view(*b)))],
            None => Seq::empty(),
        });
    }
}

/// Appends the members a content writes.
#[verifier::rlimit(60)]
fn serialize_content_into(content: &TextContent, map: &mut Vec<(String, JsonValue)>)
    ensures
        member_views(final(map)@) == member_views(old(map)@) + content_members(content_view(*content)),
    decreases *content,
{
    let ghost m0 = member_views(map@);
    match content {
        TextContent::Literal(text) => {
            push_member(map, "text", JsonValue::String(text.clone()));
        },
        TextContent::Translation { key, fallback, with } => {
            push_member(map, "translate", JsonValue::String(key.clone()));
            push_opt_str(map, "fallback", fallback);
            let ghost m2 = member_views(map@);
            match with {
                Some(list) => {
                    proof {
                        assert(decreases_to!(*content => (*content)->with));
                        assert(decreases_to!((*content)->with => (*content)->with->0));
                    }
                    let items = serialize_texts(list);
                    push_member(map, "with", JsonValue::Array(items));
                },
                None => {},
            }
        },
        TextContent::Score { name, objective, value } => {
            let mut score: Vec<(String, JsonValue)> = Vec::new();
            proof { assert(member_views(score@) =~= Seq::<(Seq<char>, JsonView)>::empty()); }
            push_member(&mut score, "name", JsonValue::String(name.clone()));
            push_member(&mut score, "objective", JsonValue::String(objective.clone()));
            push_opt_str(&mut score, "value", value);
            proof {
                assert(member_views(score@) =~= seq![("name"@, JsonView::Str(name@)), ("objective"@, JsonView::Str(objective@))]
                    + opt_str_member("value"@, opt_str(*value)));
            }
            push_member(map, "score", JsonValue::Object(score));
        },
        TextContent::EntitySelector { selector, separator } => {
            push_member(map, "selector", JsonValue::String(selector.clone()));
            proof { assert(decreases_to!(*content => (*content)->EntitySelector_separator)); }
            push_separator(map, separator);
        },
        TextContent::Keybind(key) => {
            push_member(map, "keybind", JsonValue::String(key.clone()));
        },
        TextContent::Nbt { nbt, interpret, separator, block, entity, storage } => {
            push_member(map, "nbt", JsonValue::String(nbt.clone()));
            push_opt_bool(map, "interpret", *interpret);
            proof { assert(decreases_to!(*content => (*content)->Nbt_separator)); }
            push_separator(map, separator);
            push_opt_str(map, "block", block);
            push_opt_str(map, "entity", entity);
            push_opt_str(map, "storage", storage);
        },
    }
    proof { assert(member_views(map@) =~= m0 + content_members(content_view(*content))); }
}

/// The JSON made of a component's members and its children's JSON.
pub open spec fn assemble_json(members: Seq<(Seq<char>, JsonView)>, children: Seq<JsonView>) -> JsonView {
    if children.len() == 0 {
        JsonView::Obj(members)
    } else {
        let first = if members.len() == 1 && members[0].0 == "text"@ {
            members[0].1
        } else {
            JsonView::Obj(members)
        };
        JsonView::Arr(seq![first] + children)
    }
}

fn assemble(map: Vec<(String, JsonValue)>, children: Vec<JsonValue>) -> (r: JsonValue)
    ensures
        json_view(r) == assemble_json(member_views(map@), json_views(children@)),
{
    proof {
        lemma_json_views(children@);
        lemma_member_views(map@);
    }
    if children.len() == 0 {
        return JsonValue::Object(map);
    }
    let mut map = map;
    let first = if map.len() == 1 && map[0].0 == "text".to_owned() {
        let (_, v) = map.pop().unwrap();
        v
    } else {
        JsonValue::Object(map)
    };
    let mut arr: Vec<JsonValue> = Vec::new();
    arr.push(first);
    let ghost a1 = arr@;
    let mut rest = children;
    let ghost r1 = rest@;
    proof { lemma_json_views(a1); }
    arr.append(&mut rest);
    proof {
        lemma_json_views(arr@);
        assert(json_views(arr@) =~= json_views(a1) + json_views(r1));
        assert(json_views(a1) =~= seq![json_view(a1[0])]);
    }
    JsonValue::Array(arr)
}

/// The JSON of a component.
pub fn serialize_json(text: &Text) -> (r: JsonValue)
    ensures
        json_view(r) == text_json(text_view(*text)),
    decreases *text,
{
    proof { lemma_text_views(text.extra@); }
    if let TextContent::Literal(s) = &text.content {
        if text.style.is_empty() && text.insertion.is_none() && text.click_event.is_none() && text.hover_event.is_none()
            && text.extra.len() == 0 {
            return JsonValue::String(s.clone());
        }
    }
    let mut map: Vec<(String, JsonValue)> = Vec::new();
    proof { assert(member_views(map@) =~= Seq::<(Seq<char>, JsonView)>::empty()); }
    serialize_style0(&text.style, &mut map);
    let ghost m1 = member_views(map@);
    match &text.click_event {
        Some(event) => push_member(&mut map, "clickEvent", serialize_click(event)),
        None => {},
    }
    let ghost m2 = member_views(map@);
    match &text.hover_event {
        Some(event) => {
            proof {
                assert(decreases_to!(*text => text.hover_event));
                assert(decreases_to!(text.hover_event => text.hover_event->0));
            }
            let h = serialize_hover(event);
            push_member(&mut map, "hoverEvent", h);
        },
        None => {},
    }
    let ghost m3 = member_views(map@);
    push_opt_str(&mut map, "insertion", &text.insertion);
    serialize_content_into(&text.content, &mut map);
    let ghost tv = text_view(*text);
    proof {
        let members = style_members(style_view(text.style)) + match tv->click_event {
            Some((a, v)) => seq![("clickEvent"@, click_json(a, v))],
            None => Seq::empty(),
        } + match tv->hover_event {
            Some(h) => seq![("hoverEvent"@, hover_json(h))],
            None => Seq::empty(),
        } + opt_str_member("insertion"@, opt_str(text.insertion)) + content_members(content_view(text.content));
        assert(member_views(map@) =~= members);
    }
    let rest = serialize_texts(&text.extra);
    proof { lemma_json_views(rest@); }
    assemble(map, rest)
}

// ---------------------------------------------------------------------------
// Deserialization
// ---------------------------------------------------------------------------

/// Why JSON is not a chat component.
#[derive(Debug, Clone, Copy, PartialEq, Eq, Structural)]
pub enum DeserializationError {
    TextArrayEmpty,
    InvalidValueType,
    InvalidColorFormat,
    MissingClickEventAction,
    MissingClickEventValue,
    MissingHoverEventAction,
    InvalidHoverEventAction,
    MissingHoverEventValue,
    MalformedHoverEventValue,
    MissingScoreName,
    MissingScoreObjective,
    MissingNbtTarget,
    CouldNotIdentifyContentType,
}

/// The value of the first member named `key`.
pub open spec fn obj_get(m: Seq<(Seq<char>, JsonView)>, key: Seq<char>) -> Option<JsonView>
    decreases m.len(),
{
    if m.len() == 0 {
        None
    } else if m[0].0 == key {
        Some(m[0].1)
    } else {
        obj_get(m.drop_first(), key)
    }
}

/// What `obj_get` finds is one of the members' values.
pub proof fn lemma_obj_get(m: Seq<(Seq<char>, JsonView)>, key: Seq<char>)
    ensures
        obj_get(m, key) matches Some(x) ==> exists|i: int| 0 <= i < m.len() && m[i].1 == x && m[i].0 == key,
    decreases m.len(),
{
    if m.len() > 0 && m[0].0 != key {
        lemma_obj_get(m.drop_first(), key);
        if let Some(x) = obj_get(m.drop_first(), key) {
            let i = choose|i: int| 0 <= i < m.drop_first().len() && m.drop_first()[i].1 == x && m.drop_first()[i].0 == key;
            assert(m[i + 1].1 == x && m[i + 1].0 == key);
        }
    }
}

/// A value found in an object is smaller than the object.
pub proof fn lemma_obj_get_decreases(v: JsonView, key: Seq<char>)
    requires
        v is Obj,
    ensures
        obj_get(v->Obj_0, key) matches Some(x) ==> decreases_to!(v => x),
{
    lemma_obj_get(v->Obj_0, key);
    if let Some(x) = obj_get(v->Obj_0, key) {
        let m = v->Obj_0;
        let i = choose|i: int| 0 <= i < m.len() && m[i].1 == x && m[i].0 == key;
        assert(decreases_to!(v => m));
        assert(decreases_to!(m => m[i]));
        assert(decreases_to!(m[i] => m[i].1));
    }
}

/// A string value.
pub open spec fn as_str(o: Option<JsonView>) -> Option<Seq<char>> {
    match o {
        Some(JsonView::Str(s)) => Some(s),
        _ => None,
    }
}

/// A boolean value.
pub open spec fn as_bool(o: Option<JsonView>) -> Option<bool> {
    match o {
        Some(JsonView::Bool(b)) => Some(b),
        _ => None,
    }
}

/// An integer value that fits in an `i64`.
pub open spec fn as_i64(o: Option<JsonView>) -> Option<i64> {
    match o {
        Some(JsonView::Num(NumView::PosInt(u))) => if u <= i64::MAX as u64 {
            Some(u as i64)
        } else {
            None
        },
        Some(JsonView::Num(NumView::NegInt(i))) => Some(i),
        _ => None,
    }
}

/// The members of an object value.
pub open spec fn as_object(o: Option<JsonView>) -> Option<Seq<(Seq<char>, JsonView)>> {
    match o {
        Some(JsonView::Obj(m)) => Some(m),
        _ => None,
    }
}

/// The elements of an array value.
pub open spec fn as_array(o: Option<JsonView>) -> Option<Seq<JsonView>> {
    match o {
        Some(JsonView::Arr(a)) => Some(a),
        _ => None,
    }
}

/// The value of a hexadecimal digit (either case).
pub open spec fn hex_char_value(c: char) -> Option<nat> {
    if '0' <= c <= '9' {
        Some((c as nat - 48) as nat)
    } else if 'a' <= c <= 'f' {
        Some((c as nat - 87) as nat)
    } else if 'A' <= c <= 'F' {
        Some((c as nat - 55) as nat)
    } else {
        None
    }
}

/// The value of hexadecimal digits.
pub open spec fn hex_digits_value(d: Seq<char>) -> Option<nat>
    decreases d.len(),
{
    if d.len() == 0 {
        Some(0)
    } else {
        match (hex_digits_value(d.drop_last()), hex_char_value(d.last())) {
            (Some(a), Some(b)) => Some(a * 16 + b),
            _ => None,
        }
    }
}

/// What `u32::from_str_radix(_, 16)` gives for a text of at most six
/// characters: an optional `+`, then one or more hexadecimal digits.
pub open spec fn radix16_value(t: Seq<char>) -> Option<nat> {
    let digits = if t.len() > 0 && t[0] == '+' {
        t.drop_first()
    } else {
        t
    };
    if digits.len() == 0 {
        None
    } else {
        hex_digits_value(digits)
    }
}

/// The color a JSON name stands for: one of the sixteen names, or `#`
/// followed by six characters that read as a hexadecimal number.
pub open spec fn color_of_name(c: Seq<char>) -> Option<TextColor> {
    if c == "black"@ {
        Some(TextColor::Black)
    } else if c == "dark_blue"@ {
        Some(TextColor::DarkBlue)
    } else if c == "dark_green"@ {
        Some(TextColor::DarkGreen)
    } else if c == "dark_aqua"@ {
        Some(TextColor::DarkAqua)
    } else if c == "dark_red"@ {
        Some(TextColor::DarkRed)
    } else if c == "dark_purple"@ {
        Some(TextColor::DarkPurple)
    } else if c == "gold"@ {
        Some(TextColor::Gold)
    } else if c == "gray"@ {
        Some(TextColor::Gray)
    } else if c == "dark_gray"@ {
        Some(TextColor::DarkGray)
    } else if c == "blue"@ {
        Some(TextColor::Blue)
    } else if c == "green"@ {
        Some(TextColor::Green)
    } else if c == "aqua"@ {
        Some(TextColor::Aqua)
    } else if c == "red"@ {
        Some(TextColor::Red)
    } else if c == "light_purple"@ {
        Some(TextColor::LightPurple)
    } else if c == "yellow"@ {
        Some(TextColor::Yellow)
    } else if c == "white"@ {
        Some(TextColor::White)
    } else if c.len() == 7 && c[0] == '#' && radix16_value(c.drop_first()) is Some {
        Some(TextColor::Hex(radix16_value(c.drop_first()).unwrap() as u32))
    } else {
        None
    }
}

/// Reading a style from an object's members.
pub open spec fn style_of(m: Seq<(Seq<char>, JsonView)>) -> Result<StyleView, DeserializationError> {
    let color: Result<Option<TextColor>, DeserializationError> = match as_str(obj_get(m, "color"@)) {
        None => Ok(None),
        Some(c) => match color_of_name(c) {
            Some(col) => Ok(Some(col)),
            None => Err(DeserializationError::InvalidColorFormat),
        },
    };
    match color {
        Err(e) => Err(e),
        Ok(color) => Ok(
            StyleView {
                color,
                font: as_str(obj_get(m, "font"@)),
                shadow_color: match as_i64(obj_get(m, "shadow_color"@)) {
                    Some(v) => Some(v as u32),
                    None => None,
                },
                bold: as_bool(obj_get(m, "bold"@)),
                italic: as_bool(obj_get(m, "italic"@)),
                underlined: as_bool(obj_get(m, "underlined"@)),
                strikethrough: as_bool(obj_get(m, "strikethrough"@)),
                obfuscated: as_bool(obj_get(m, "obfuscated"@)),
            },
        ),
    }
}

/// The click action a JSON name stands for.
pub open spec fn action_of_name(a: Seq<char>) -> ClickActionView {
    if a == "open_url"@ {
        ClickActionView::OpenUrl
    } else if a == "open_file"@ {
        ClickActionView::OpenFile
    } else if a == "run_command"@ {
        ClickActionView::RunCommand
    } else if a == "suggest_command"@ {
        ClickActionView::SuggestCommand
    } else if a == "change_page"@ {
        ClickActionView::ChangePage
    } else if a == "copy_to_clipboard"@ {
        ClickActionView::CopyToClipboard
    } else {
        ClickActionView::Unresolved(a)
    }
}

/// Reading the click event of an object's members.
pub open spec fn click_of(m: Seq<(Seq<char>, JsonView)>) -> Result<Option<(ClickActionView, Seq<char>)>, DeserializationError> {
    match as_object(obj_get(m, "clickEvent"@)) {
        None => Ok(None),
        Some(cm) => match as_str(obj_get(cm, "action"@)) {
            None => Err(DeserializationError::MissingClickEventAction),
            Some(a) => match as_str(obj_get(cm, "value"@)) {
                None => Err(DeserializationError::MissingClickEventValue),
                Some(v) => Ok(Some((action_of_name(a), v))),
            },
        },
    }
}

/// Whether a value is an integer that fits in an `i64`.
pub open spec fn is_i64(v: JsonView) -> bool {
    as_i64(Some(v)) is Some
}

/// The UUID text of four 32-bit parts, most significant first.
pub open spec fn uuid_of_ints(a: Seq<JsonView>) -> Seq<char> {
    crate::util::uuid_text(
        crate::util::u32_be(as_i64(Some(a[0])).unwrap() as u32) + crate::util::u32_be(as_i64(Some(a[1])).unwrap() as u32)
            + crate::util::u32_be(as_i64(Some(a[2])).unwrap() as u32) + crate::util::u32_be(
            as_i64(Some(a[3])).unwrap() as u32,
        ),
    )
}

/// Reading the entity id of a hover event: a string, or four integers
/// that make a UUID.
pub open spec fn entity_id_of(o: Option<JsonView>) -> Result<Seq<char>, DeserializationError> {
    match o {
        None => Err(DeserializationError::MissingHoverEventValue),
        Some(JsonView::Str(s)) => Ok(s),
        Some(JsonView::Arr(a)) => if a.len() != 4 {
            Err(DeserializationError::MalformedHoverEventValue)
        } else if !(forall|k: int| 0 <= k < 4 ==> #[trigger] is_i64(a[k])) {
            Err(DeserializationError::MalformedHoverEventValue)
        } else {
            Ok(uuid_of_ints(a))
        },
        _ => Err(DeserializationError::MalformedHoverEventValue),
    }
}

/// The decimal digits of `n`, without leading zeros.
pub open spec fn decimal(n: nat) -> Seq<char>
    decreases n,
{
    if n < 10 {
        seq![(48 + n) as char]
    } else {
        decimal(n / 10).push((48 + n % 10) as char)
    }
}

/// The text a number prints as.
pub open spec fn num_text(n: NumView) -> Seq<char> {
    match n {
        NumView::PosInt(u) => decimal(u as nat),
        NumView::NegInt(i) => if i < 0 {
            seq!['-'] + decimal((-(i as int)) as nat)
        } else {
            decimal(i as nat)
        },
        NumView::Float(t) => t,
    }
}

/// The text a boolean prints as.
pub open spec fn bool_text(b: bool) -> Seq<char> {
    if b {
        "true"@
    } else {
        "false"@
    }
}

/// The style with nothing set, as spec values.
pub open spec fn empty_style_view() -> StyleView {
    StyleView {
        color: None,
        font: None,
        shadow_color: None,
        bold: None,
        italic: None,
        underlined: None,
        strikethrough: None,
        obfuscated: None,
    }
}

/// A plain literal component.
pub open spec fn literal_view(s: Seq<char>) -> TextView {
    TextView::Node {
        content: ContentView::Literal(s),
        extra: Seq::empty(),
        style: empty_style_view(),
        insertion: None,
        click_event: None,
        hover_event: None,
    }
}

/// A component with more children after its own.
pub open spec fn with_more_extra(t: TextView, more: Seq<TextView>) -> TextView {
    match t {
        TextView::Node { content, extra, style, insertion, click_event, hover_event } => TextView::Node {
            content,
            extra: extra + more,
            style,
            insertion,
            click_event,
            hover_event,
        },
    }
}

/// Reading a component from JSON: an array is its first element with the
/// others appended as children; an object has its style, events,
/// children, insertion and content read from its members; a string,
/// boolean or number is a plain literal of its text.
pub open spec fn text_of_json(v: JsonView) -> Result<TextView, DeserializationError>
    decreases v, 2nat,
{
    match v {
        JsonView::Arr(a) => if a.len() == 0 {
            Err(DeserializationError::TextArrayEmpty)
        } else {
            match text_of_json(a[0]) {
                Err(e) => Err(e),
                Ok(t) => match texts_of(a.skip(1)) {
                    Err(e) => Err(e),
                    Ok(ts) => Ok(with_more_extra(t, ts)),
                },
            }
        },
        JsonView::Obj(m) => match style_of(m) {
            Err(e) => Err(e),
            Ok(style) => match click_of(m) {
                Err(e) => Err(e),
                Ok(click_event) => match hover_of(v) {
                    Err(e) => Err(e),
                    Ok(hover_event) => match extra_of(v) {
                        Err(e) => Err(e),
                        Ok(extra) => match content_of(v) {
                            Err(e) => Err(e),
                            Ok(content) => Ok(
                                TextView::Node {
                                    content,
                                    extra,
                                    style,
                                    insertion: as_str(obj_get(m, "insertion"@)),
                                    click_event,
                                    hover_event,
                                },
                            ),
                        },
                    },
                },
            },
        },
        JsonView::Str(s) => Ok(literal_view(s)),
        JsonView::Bool(b) => Ok(literal_view(bool_text(b))),
        JsonView::Num(n) => Ok(literal_view(num_text(n))),
        JsonView::Null => Err(DeserializationError::InvalidValueType),
    }
}

/// Reading components from JSON values, stopping at the first that fails.
pub open spec fn texts_of(vs: Seq<JsonView>) -> Result<Seq<TextView>, DeserializationError>
    decreases vs, 1nat,
{
    if vs.len() == 0 {
        Ok(Seq::empty())
    } else {
        match texts_of(vs.drop_last()) {
            Err(e) => Err(e),
            Ok(ts) => match text_of_json(vs[vs.len() - 1]) {
                Err(e) => Err(e),
                Ok(t) => Ok(ts.push(t)),
            },
        }
    }
}

/// Reading the children of a component object: the components of its
/// `extra` array, if it has one.
pub open spec fn extra_of(v: JsonView) -> Result<Seq<TextView>, DeserializationError>
    decreases v, 1nat,
{
    if v is Obj {
        match obj_get(v->Obj_0, "extra"@) {
            Some(JsonView::Arr(list)) => {
                proof { lemma_obj_get_decreases(v, "extra"@); }
                texts_of(list)
            },
            _ => Ok(Seq::empty()),
        }
    } else {
        Ok(Seq::empty())
    }
}

/// Reading the hover event of a component object.
pub open spec fn hover_of(v: JsonView) -> Result<Option<HoverView>, DeserializationError>
    decreases v, 1nat,
{
    if v is Obj {
        match obj_get(v->Obj_0, "hoverEvent"@) {
            Some(JsonView::Obj(hm)) => match as_str(obj_get(hm, "action"@)) {
                None => Err(DeserializationError::InvalidValueType),
                Some(action) => match obj_get(hm, "contents"@) {
                    Some(JsonView::Obj(contents)) => {
                        if action == "show_text"@ {
                            proof {
                                lemma_obj_get_decreases(v, "hoverEvent"@);
                                lemma_obj_get_decreases(JsonView::Obj(hm), "contents"@);
                            }
                            match text_of_json(JsonView::Obj(contents)) {
                                Err(e) => Err(e),
                                Ok(t) => Ok(Some(HoverView::ShowText(Box::new(t)))),
                            }
                        } else if action == "show_item"@ {
                            match as_str(obj_get(contents, "id"@)) {
                                None => Err(DeserializationError::MissingHoverEventValue),
                                Some(id) => Ok(
                                    Some(
                                        HoverView::ShowItem {
                                            id,
                                            count: match as_i64(obj_get(contents, "count"@)) {
                                                Some(c) => Some(c as i32),
                                                None => None,
                                            },
                                            tag: as_str(obj_get(contents, "tag"@)),
                                        },
                                    ),
                                ),
                            }
                        } else if action == "show_entity"@ {
                            match as_str(obj_get(contents, "type"@)) {
                                None => Err(DeserializationError::MissingHoverEventValue),
                                Some(entity_type) => match entity_id_of(obj_get(contents, "id"@)) {
                                    Err(e) => Err(e),
                                    Ok(id) => Ok(
                                        Some(
                                            HoverView::ShowEntity {
                                                id,
                                                entity_type,
                                                name: as_str(obj_get(contents, "name"@)),
                                            },
                                        ),
                                    ),
                                },
                            }
                        } else {
                            Err(DeserializationError::InvalidHoverEventAction)
                        }
                    },
                    _ => match as_str(obj_get(hm, "value"@)) {
                        Some(value) => Ok(Some(HoverView::Unresolved { action, value })),
                        None => Err(DeserializationError::MissingHoverEventValue),
                    },
                },
            },
            _ => Ok(None),
        }
    } else {
        Ok(None)
    }
}

/// Reading the separator member of a component object.
pub open spec fn separator_of(v: JsonView) -> Result<Option<Box<TextView>>, DeserializationError>
    decreases v, 0nat,
{
    if v is Obj {
        match obj_get(v->Obj_0, "separator"@) {
            Some(sv) => {
                proof { lemma_obj_get_decreases(v, "separator"@); }
                match text_of_json(sv) {
                    Err(e) => Err(e),
                    Ok(t) => Ok(Some(Box::new(t))),
                }
            },
            None => Ok(None),
        }
    } else {
        Ok(None)
    }
}

/// Reading the content of a component object: the first of `text`,
/// `translate`, `keybind`, `score`, `selector` and `nbt` that it has.
pub open spec fn content_of(v: JsonView) -> Result<ContentView, DeserializationError>
    decreases v, 1nat,
{
    if v is Obj {
        let m = v->Obj_0;
        match obj_get(m, "text"@) {
            Some(JsonView::Str(s)) => Ok(ContentView::Literal(s)),
            Some(JsonView::Bool(b)) => Ok(ContentView::Literal(bool_text(b))),
            Some(JsonView::Num(n)) => Ok(ContentView::Literal(num_text(n))),
            Some(_) => Err(DeserializationError::InvalidValueType),
            None => match as_str(obj_get(m, "translate"@)) {
                Some(key) => {
                    let fallback = as_str(obj_get(m, "fallback"@));
                    match obj_get(m, "with"@) {
                        Some(JsonView::Arr(list)) => {
                            proof { lemma_obj_get_decreases(v, "with"@); }
                            match texts_of(list) {
                                Err(e) => Err(e),
                                Ok(ts) => Ok(ContentView::Translation { key, fallback, with: Some(ts) }),
                            }
                        },
                        _ => Ok(ContentView::Translation { key, fallback, with: None }),
                    }
                },
                None => match as_str(obj_get(m, "keybind"@)) {
                    Some(k) => Ok(ContentView::Keybind(k)),
                    None => match as_object(obj_get(m, "score"@)) {
                        Some(sm) => match as_str(obj_get(sm, "name"@)) {
                            None => Err(DeserializationError::MissingScoreName),
                            Some(name) => match as_str(obj_get(sm, "objective"@)) {
                                None => Err(DeserializationError::MissingScoreObjective),
                                Some(objective) => Ok(
                                    ContentView::Score { name, objective, value: as_str(obj_get(sm, "value"@)) },
                                ),
                            },
                        },
                        None => match as_str(obj_get(m, "selector"@)) {
                            Some(selector) => match separator_of(v) {
                                Err(e) => Err(e),
                                Ok(separator) => Ok(ContentView::EntitySelector { selector, separator }),
                            },
                            None => match as_str(obj_get(m, "nbt"@)) {
                                Some(nbt) => {
                                    let block = as_str(obj_get(m, "block"@));
                                    let entity = as_str(obj_get(m, "entity"@));
                                    let storage = as_str(obj_get(m, "storage"@));
                                    match separator_of(v) {
                                        Err(e) => Err(e),
                                        Ok(separator) => if entity is None && block is None && storage is None {
                                            Err(DeserializationError::MissingNbtTarget)
                                        } else {
                                            Ok(
                                                ContentView::Nbt {
                                                    nbt,
                                                    interpret: as_bool(obj_get(m, "interpret"@)),
                                                    separator,
                                                    block,
                                                    entity,
                                                    storage,
                                                },
                                            )
                                        },
                                    }
                                },
                                None => Err(DeserializationError::CouldNotIdentifyContentType),
                            },
                        },
                    },
                },
            },
        }
    } else {
        Err(DeserializationError::InvalidValueType)
    }
}

/// The first member named `key`, by reference.
fn member<'a>(m: &'a Vec<(String, JsonValue)>, key: &str) -> (r: Option<&'a JsonValue>)
    ensures
        match obj_get(member_views(m@), key@) {
            Some(x) => r is Some && json_view(*r.unwrap()) == x && exists|i: int|
                0 <= i < m@.len() && *r.unwrap() == m@[i].1,
            None => r is None,
        },
{
    proof { lemma_member_views(m@); }
    let k = key.to_owned();
    let mut i: usize = 0;
    proof { assert(member_views(m@).skip(0) =~= member_views(m@)); }
    while i < m.len()
        invariant
            k@ == key@,
            i <= m@.len(),
            member_views(m@).len() == m@.len(),
            forall|j: int| 0 <= j < m@.len() ==> #[trigger] member_views(m@)[j] == (m@[j].0@, json_view(m@[j].1)),
            obj_get(member_views(m@), key@) == obj_get(member_views(m@).skip(i as int), key@),
        decreases m.len() - i,
    {
        proof { assert(member_views(m@).skip(i as int).drop_first() =~= member_views(m@).skip(i + 1)); }
        if m[i].0 == k {
            return Some(&m[i].1);
        }
        i = i + 1;
    }
    None
}

/// A string member.
fn get_str(m: &Vec<(String, JsonValue)>, key: &str) -> (r: Option<String>)
    ensures
        opt_str(r) == as_str(obj_get(member_views(m@), key@)),
{
    match member(m, key) {
        Some(JsonValue::String(s)) => Some(s.clone()),
        _ => None,
    }
}

/// A boolean member.
fn get_bool(m: &Vec<(String, JsonValue)>, key: &str) -> (r: Option<bool>)
    ensures
        r == as_bool(obj_get(member_views(m@), key@)),
{
    match member(m, key) {
        Some(JsonValue::Bool(b)) => Some(*b),
        _ => None,
    }
}

/// An integer value that fits in an `i64`.
fn value_as_i64(v: &JsonValue) -> (r: Option<i64>)
    ensures
        r == as_i64(Some(json_view(*v))),
{
    match v {
        JsonValue::Number(JsonNumber::PosInt(u)) => if *u <= i64::MAX as u64 {
            Some(*u as i64)
        } else {
            None
        },
        JsonValue::Number(JsonNumber::NegInt(i)) => Some(*i),
        _ => None,
    }
}

/// An integer member that fits in an `i64`.
fn get_i64(m: &Vec<(String, JsonValue)>, key: &str) -> (r: Option<i64>)
    ensures
        r == as_i64(obj_get(member_views(m@), key@)),
{
    match member(m, key) {
        Some(v) => value_as_i64(v),
        None => None,
    }
}

/// The characters of a string.
fn chars_of(s: &str) -> (r: Vec<char>)
    ensures
        r@ == s@,
{
    broadcast use vstd::string::axiom_spec_iter;
    let mut out: Vec<char> = Vec::new();
    for c in it: s.chars()
        invariant
            it.seq() == s@,
            out@ == s@.take(it.index() as int),
    {
        proof { assert(s@.take(it.index() + 1).last() == c); }
        out.push(c);
        proof { assert(out@ =~= s@.take(it.index() + 1)); }
    }
    proof { assert(s@.take(s@.len() as int) =~= s@); }
    out
}

fn hex_value_of(c: char) -> (r: Option<u32>)
    ensures
        match hex_char_value(c) {
            Some(v) => r == Some(v as u32),
            None => r is None,
        },
{
    if '0' <= c && c <= '9' {
        Some((c as u32) - 48)
    } else if 'a' <= c && c <= 'f' {
        Some((c as u32) - 87)
    } else if 'A' <= c && c <= 'F' {
        Some((c as u32) - 55)
    } else {
        None
    }
}

/// Reads `+`-optional hexadecimal digits, as `u32::from_str_radix(_, 16)`
/// does for at most six characters.
fn parse_radix16(d: &[char]) -> (r: Option<u32>)
    requires
        d@.len() <= 6,
    ensures
        match radix16_value(d@) {
            Some(v) => r == Some(v as u32),
            None => r is None,
        },
{
    let start: usize = if d.len() > 0 && d[0] == '+' { 1 } else { 0 };
    let ghost digits = d@.skip(start as int);
    proof {
        if start == 1 {
            assert(digits =~= d@.drop_first());
        } else {
            assert(digits =~= d@);
        }
    }
    if d.len() == start {
        return None;
    }
    let mut acc: u32 = 0;
    let mut i: usize = start;
    proof { assert(digits.take(0) =~= Seq::<char>::empty()); }
    while i < d.len()
        invariant
            start <= i <= d@.len(),
            d@.len() <= 6,
            digits == d@.skip(start as int),
            digits == (if d@.len() > 0 && d@[0] == '+' { d@.drop_first() } else { d@ }),
            digits.len() > 0,
            hex_digits_value(digits.take(i - start)) == Some(acc as nat),
            acc < pow16((i - start) as nat),
        decreases d.len() - i,
    {
        proof {
            assert(digits.take(i - start + 1).drop_last() =~= digits.take(i - start));
            assert(digits.take(i - start + 1).last() == d@[i as int]);
        }
        match hex_value_of(d[i]) {
            Some(v) => {
                proof {
                    reveal_with_fuel(pow16, 7);
                    assert(pow16((i - start) as nat) <= 0x100000);
                    assert(acc * 16 + v < pow16((i - start + 1) as nat)) by (nonlinear_arith)
                        requires
                            acc < pow16((i - start) as nat),
                            v < 16,
                            pow16((i - start + 1) as nat) == 16 * pow16((i - start) as nat),
                    ;
                }
                acc = acc * 16 + v;
            },
            None => {
                proof {
                    lemma_hex_digits_none(digits, (i - start + 1) as nat);
                }
                return None;
            },
        }
        i = i + 1;
    }
    proof { assert(digits.take(d@.len() - start) =~= digits); }
    Some(acc)
}

/// Once a prefix has a non-digit, so has every longer prefix.
proof fn lemma_hex_digits_none(d: Seq<char>, k: nat)
    requires
        k <= d.len(),
        hex_digits_value(d.take(k as int)) is None,
    ensures
        hex_digits_value(d) is None,
    decreases d.len() - k,
{
    if k < d.len() {
        assert(d.take((k + 1) as int).drop_last() =~= d.take(k as int));
        lemma_hex_digits_none(d, k + 1);
    } else {
        assert(d.take(k as int) =~= d);
    }
}

/// The color a JSON name stands for.
fn color_from_name(c: &String) -> (r: Option<TextColor>)
    ensures
        r == color_of_name(c@),
{
    if *c == "black".to_owned() {
        Some(TextColor::Black)
    } else if *c == "dark_blue".to_owned() {
        Some(TextColor::DarkBlue)
    } else if *c == "dark_green".to_owned() {
        Some(TextColor::DarkGreen)
    } else if *c == "dark_aqua".to_owned() {
        Some(TextColor::DarkAqua)
    } else if *c == "dark_red".to_owned() {
        Some(TextColor::DarkRed)
    } else if *c == "dark_purple".to_owned() {
        Some(TextColor::DarkPurple)
    } else if *c == "gold".to_owned() {
        Some(TextColor::Gold)
    } else if *c == "gray".to_owned() {
        Some(TextColor::Gray)
    } else if *c == "dark_gray".to_owned() {
        Some(TextColor::DarkGray)
    } else if *c == "blue".to_owned() {
        Some(TextColor::Blue)
    } else if *c == "green".to_owned() {
        Some(TextColor::Green)
    } else if *c == "aqua".to_owned() {
        Some(TextColor::Aqua)
    } else if *c == "red".to_owned() {
        Some(TextColor::Red)
    } else if *c == "light_purple".to_owned() {
        Some(TextColor::LightPurple)
    } else if *c == "yellow".to_owned() {
        Some(TextColor::Yellow)
    } else if *c == "white".to_owned() {
        Some(TextColor::White)
    } else {
        let chars = chars_of(c.as_str());
        if chars.len() == 7 && chars[0] == '#' {
            let rest = chars.as_slice().split_at(1).1;
            proof { assert(rest@ =~= c@.drop_first()); }
            match parse_radix16(rest) {
                Some(v) => Some(TextColor::Hex(v)),
                None => None,
            }
        } else {
            None
        }
    }
}

/// Reads the style of an object's members.
pub fn deserialize_style0(map: &Vec<(String, JsonValue)>) -> (r: Result<Style, DeserializationError>)
    ensures
        match style_of(member_views(map@)) {
            Ok(sv) => r matches Ok(st) && style_view(st) == sv,
            Err(e) => r == Err::<Style, DeserializationError>(e),
        },
{
    let color = match get_str(map, "color") {
        Some(c) => match color_from_name(&c) {
            Some(col) => Some(col),
            None => return Err(DeserializationError::InvalidColorFormat),
        },
        None => None,
    };
    let shadow_color = match get_i64(map, "shadow_color") {
        Some(v) => Some(v as u32),
        None => None,
    };
    Ok(Style {
        color,
        font: get_str(map, "font"),
        shadow_color,
        bold: get_bool(map, "bold"),
        italic: get_bool(map, "italic"),
        underlined: get_bool(map, "underlined"),
        strikethrough: get_bool(map, "strikethrough"),
        obfuscated: get_bool(map, "obfuscated"),
    })
}

/// Reads a style from a JSON object.
pub fn deserialize_style(value: &JsonValue) -> (r: Result<Style, DeserializationError>)
    ensures
        match json_view(*value) {
            JsonView::Obj(m) => match style_of(m) {
                Ok(sv) => r matches Ok(st) && style_view(st) == sv,
                Err(e) => r == Err::<Style, DeserializationError>(e),
            },
            _ => r == Err::<Style, DeserializationError>(DeserializationError::InvalidValueType),
        },
{
    match value {
        JsonValue::Object(map) => deserialize_style0(map),
        _ => Err(DeserializationError::InvalidValueType),
    }
}

/// A member found in an object is smaller than the object.
proof fn lemma_member_decreases(value: JsonValue, found: JsonValue)
    requires
        value is Object,
        exists|i: int| 0 <= i < value->Object_0@.len() && found == value->Object_0@[i].1,
    ensures
        decreases_to!(value => found),
{
    let m = value->Object_0;
    let i = choose|i: int| 0 <= i < m@.len() && found == m@[i].1;
    assert(decreases_to!(value => m));
    assert(decreases_to!(m => m@));
    assert(decreases_to!(m@ => m@[i]));
    assert(decreases_to!(m@[i] => m@[i].1));
}

/// Once reading a prefix of a list failed, reading the whole list fails
/// the same way.
proof fn lemma_texts_of_err(vs: Seq<JsonView>, k: nat)
    requires
        k <= vs.len(),
        texts_of(vs.take(k as int)) is Err,
    ensures
        texts_of(vs) == texts_of(vs.take(k as int)),
    decreases vs.len() - k,
{
    if k < vs.len() {
        assert(vs.take((k + 1) as int).drop_last() =~= vs.take(k as int));
        lemma_texts_of_err(vs, k + 1);
    } else {
        assert(vs.take(k as int) =~= vs);
    }
}

/// The spec values of a list of components appended to another.
proof fn lemma_text_views_append(a: Seq<Text>, b: Seq<Text>)
    ensures
        text_views(a + b) == text_views(a) + text_views(b),
{
    lemma_text_views(a);
    lemma_text_views(b);
    lemma_text_views(a + b);
    assert(text_views(a + b) =~= text_views(a) + text_views(b));
}

/// The spec value of an optional hover event.
pub open spec fn opt_hover_view(o: Option<HoverEvent>) -> Option<HoverView> {
    match o {
        Some(h) => Some(hover_view(h)),
        None => None,
    }
}

/// The spec value of an optional separator.
pub open spec fn opt_separator_view(o: Option<Box<Text>>) -> Option<Box<TextView>> {
    match o {
        Some(b) => Some(Box::new(text_view(*b))),
        None => None,
    }
}

fn decimal_digit(d: u64) -> (r: char)
    requires
        d < 10,
    ensures
        r == (48 + d) as char,
{
    ((48 + d) as u8) as char
}

/// Appends the decimal digits of `n`.
pub(crate) fn push_decimal(out: &mut String, n: u64)
    ensures
        final(out)@ == old(out)@ + decimal(n as nat),
    decreases n,
{
    if n >= 10 {
        push_decimal(out, n / 10);
    }
    push_char(out, decimal_digit(n % 10));
    proof {
        if n >= 10 {
            assert(decimal(n as nat) == decimal((n / 10) as nat).push((48 + n % 10) as char));
        }
        assert(final(out)@ =~= old(out)@ + decimal(n as nat));
    }
}

/// The text a number prints as.
fn number_text(n: &JsonNumber) -> (r: String)
    ensures
        r@ == num_text(num_view(*n)),
{
    match n {
        JsonNumber::PosInt(u) => {
            let mut out = String::new();
            push_decimal(&mut out, *u);
            proof { assert(out@ =~= decimal(*u as nat)); }
            out
        },
        JsonNumber::NegInt(i) => {
            let mut out = String::new();
            if *i >= 0 {
                push_decimal(&mut out, *i as u64);
                proof { assert(out@ =~= decimal(*i as nat)); }
                return out;
            }
            push_char(&mut out, '-');
            let magnitude = (0i128 - (*i as i128)) as u64;
            proof { assert(magnitude as nat == (-(*i as int)) as nat); }
            push_decimal(&mut out, magnitude);
            proof { assert(out@ =~= seq!['-'] + decimal((-(*i as int)) as nat)); }
            out
        },
        JsonNumber::Float(t) => t.clone(),
    }
}

/// The text a boolean prints as.
fn bool_string(b: bool) -> (r: String)
    ensures
        r@ == bool_text(b),
{
    if b {
        "true".to_owned()
    } else {
        "false".to_owned()
    }
}

/// The click action a JSON name stands for.
fn action_from_name(a: String) -> (r: ClickAction)
    ensures
        action_view(r) == action_of_name(a@),
{
    if a == "open_url".to_owned() {
        ClickAction::OpenUrl
    } else if a == "open_file".to_owned() {
        ClickAction::OpenFile
    } else if a == "run_command".to_owned() {
        ClickAction::RunCommand
    } else if a == "suggest_command".to_owned() {
        ClickAction::SuggestCommand
    } else if a == "change_page".to_owned() {
        ClickAction::ChangePage
    } else if a == "copy_to_clipboard".to_owned() {
        ClickAction::CopyToClipboard
    } else {
        ClickAction::Unresolved(a)
    }
}

/// Reads the click event of an object's members.
fn deserialize_click(map: &Vec<(String, JsonValue)>) -> (r: Result<Option<ClickEvent>, DeserializationError>)
    ensures
        match click_of(member_views(map@)) {
            Ok(c) => r matches Ok(ce) && c == match ce {
                Some(e) => Some((action_view(e.action), e.value@)),
                None => None,
            },
            Err(e) => r == Err::<Option<ClickEvent>, DeserializationError>(e),
        },
{
    match member(map, "clickEvent") {
        Some(JsonValue::Object(cm)) => {
            let action = match get_str(cm, "action") {
                Some(a) => action_from_name(a),
                None => return Err(DeserializationError::MissingClickEventAction),
            };
            let value = match get_str(cm, "value") {
                Some(v) => v,
                None => return Err(DeserializationError::MissingClickEventValue),
            };
            Ok(Some(ClickEvent { action, value }))
        },
        _ => Ok(None),
    }
}

/// Reads the entity id of a hover event: a string, or four integers that
/// make a UUID.
fn deserialize_entity_id(o: Option<&JsonValue>) -> (r: Result<String, DeserializationError>)
    ensures
        match entity_id_of(
            match o {
                Some(v) => Some(json_view(*v)),
                None => None,
            },
        ) {
            Ok(id) => r matches Ok(s) && s@ == id,
            Err(e) => r == Err::<String, DeserializationError>(e),
        },
{
    match o {
        None => Err(DeserializationError::MissingHoverEventValue),
        Some(JsonValue::String(s)) => Ok(s.clone()),
        Some(JsonValue::Array(array)) => {
            proof { lemma_json_views(array@); }
            if array.len() != 4 {
                return Err(DeserializationError::MalformedHoverEventValue);
            }
            let a0 = value_as_i64(&array[0]);
            let a1 = value_as_i64(&array[1]);
            let a2 = value_as_i64(&array[2]);
            let a3 = value_as_i64(&array[3]);
            let ghost av = json_views(array@);
            proof {
                assert(av[0] == json_view(array@[0]));
                assert(av[1] == json_view(array@[1]));
                assert(av[2] == json_view(array@[2]));
                assert(av[3] == json_view(array@[3]));
            }
            match (a0, a1, a2, a3) {
                (Some(v0), Some(v1), Some(v2), Some(v3)) => {
                    let mut bytes: Vec<u8> = Vec::new();
                    write_u32_be(&mut bytes, v0 as u32);
                    write_u32_be(&mut bytes, v1 as u32);
                    write_u32_be(&mut bytes, v2 as u32);
                    write_u32_be(&mut bytes, v3 as u32);
                    let arr: [u8; 16] = [
                        bytes[0], bytes[1], bytes[2], bytes[3], bytes[4], bytes[5], bytes[6], bytes[7],
                        bytes[8], bytes[9], bytes[10], bytes[11], bytes[12], bytes[13], bytes[14], bytes[15],
                    ];
                    proof {
                        assert(arr@ =~= bytes@);
                        assert(forall|k: int| 0 <= k < 4 ==> #[trigger] is_i64(av[k])) by {
                            assert(is_i64(av[0]) && is_i64(av[1]) && is_i64(av[2]) && is_i64(av[3]));
                        }
                    }
                    Ok(Uuid::from_bytes(arr).to_hyphenated_string())
                },
                _ => {
                    proof {
                        assert(!(is_i64(av[0]) && is_i64(av[1]) && is_i64(av[2]) && is_i64(av[3])));
                    }
                    Err(DeserializationError::MalformedHoverEventValue)
                },
            }
        },
        _ => Err(DeserializationError::MalformedHoverEventValue),
    }
}

/// Reads the components of a list from position `start` on, stopping at
/// the first that fails.
fn deserialize_texts(list: &Vec<JsonValue>, start: usize) -> (r: Result<Vec<Text>, DeserializationError>)
    requires
        start <= list@.len(),
    ensures
        match texts_of(json_views(list@).skip(start as int)) {
            Ok(ts) => r matches Ok(v) && text_views(v@) == ts,
            Err(e) => r == Err::<Vec<Text>, DeserializationError>(e),
        },
    decreases *list, 0nat,
{
    proof { lemma_json_views(list@); }
    let ghost vs = json_views(list@).skip(start as int);
    let mut out: Vec<Text> = Vec::new();
    let mut k: usize = start;
    proof {
        assert(vs.take(0) =~= Seq::<JsonView>::empty());
        assert(text_views(out@) =~= Seq::<TextView>::empty());
    }
    while k < list.len()
        invariant
            start <= k <= list@.len(),
            vs == json_views(list@).skip(start as int),
            json_views(list@).len() == list@.len(),
            forall|j: int| 0 <= j < list@.len() ==> #[trigger] json_views(list@)[j] == json_view(list@[j]),
            texts_of(vs.take(k - start)) == Ok::<Seq<TextView>, DeserializationError>(text_views(out@)),
        decreases list.len() - k,
    {
        proof {
            assert(vs.take(k - start + 1).drop_last() =~= vs.take(k - start));
            assert(vs.take(k - start + 1).last() == json_view(list@[k as int]));
            assert(decreases_to!(*list => list@));
            assert(decreases_to!(list@ => list@[k as int]));
        }
        match deserialize_json(&list[k]) {
            Ok(t) => {
                let ghost before = out@;
                out.push(t);
                proof {
                    lemma_text_views_append(before, seq![t]);
                    assert(before + seq![t] =~= out@);
                    lemma_text_views(seq![t]);
                    assert(text_views(seq![t]) =~= seq![text_view(t)]);
                    assert(text_views(out@) =~= text_views(before).push(text_view(t)));
                }
            },
            Err(e) => {
                proof { lemma_texts_of_err(vs, (k - start + 1) as nat); }
                return Err(e);
            },
        }
        k = k + 1;
    }
    proof { assert(vs.take(list@.len() - start) =~= vs); }
    Ok(out)
}

/// Reads the children of a component object.
fn deserialize_extra(value: &JsonValue) -> (r: Result<Vec<Text>, DeserializationError>)
    ensures
        match extra_of(json_view(*value)) {
            Ok(ts) => r matches Ok(v) && text_views(v@) == ts,
            Err(e) => r == Err::<Vec<Text>, DeserializationError>(e),
        },
    decreases *value, 1nat,
{
    match value {
        JsonValue::Object(map) => match member(map, "extra") {
            Some(found) => match found {
                JsonValue::Array(list) => {
                    proof {
                        lemma_member_decreases(*value, *found);
                        assert(decreases_to!(*found => *list));
                        assert(json_views(list@).skip(0) =~= json_views(list@));
                    }
                    deserialize_texts(list, 0)
                },
                _ => {
                    proof { assert(text_views(Seq::<Text>::empty()) =~= Seq::<TextView>::empty()); }
                    Ok(Vec::new())
                },
            },
            None => {
                proof { assert(text_views(Seq::<Text>::empty()) =~= Seq::<TextView>::empty()); }
                Ok(Vec::new())
            },
        },
        _ => {
            proof { assert(text_views(Seq::<Text>::empty()) =~= Seq::<TextView>::empty()); }
            Ok(Vec::new())
        },
    }
}

/// Reads the separator member of a component object.
fn deserialize_separator(value: &JsonValue) -> (r: Result<Option<Box<Text>>, DeserializationError>)
    ensures
        match separator_of(json_view(*value)) {
            Ok(sep) => r matches Ok(o) && opt_separator_view(o) == sep,
            Err(e) => r == Err::<Option<Box<Text>>, DeserializationError>(e),
        },
    decreases *value, 0nat,
{
    match value {
        JsonValue::Object(map) => match member(map, "separator") {
            Some(found) => {
                proof { lemma_member_decreases(*value, *found); }
                let t = deserialize_json(found)?;
                Ok(Some(Box::new(t)))
            },
            None => Ok(None),
        },
        _ => Ok(None),
    }
}

/// Reads the hover event of a component object.
fn deserialize_hover(value: &JsonValue) -> (r: Result<Option<HoverEvent>, DeserializationError>)
    ensures
        match hover_of(json_view(*value)) {
            Ok(h) => r matches Ok(o) && opt_hover_view(o) == h,
            Err(e) => r == Err::<Option<HoverEvent>, DeserializationError>(e),
        },
    decreases *value, 1nat,
{
    let map = match value {
        JsonValue::Object(map) => map,
        _ => return Ok(None),
    };
    let hover = match member(map, "hoverEvent") {
        Some(h) => h,
        None => return Ok(None),
    };
    let hm = match hover {
        JsonValue::Object(hm) => hm,
        _ => return Ok(None),
    };
    let action = match get_str(hm, "action") {
        Some(a) => a,
        None => return Err(DeserializationError::InvalidValueType),
    };
    match member(hm, "contents") {
        Some(contents_value) => match contents_value {
            JsonValue::Object(contents) => {
                if action == "show_text".to_owned() {
                    proof {
                        lemma_member_decreases(*value, *hover);
                        lemma_member_decreases(*hover, *contents_value);
                    }
                    let t = deserialize_json(contents_value)?;
                    Ok(Some(HoverEvent::ShowText(Box::new(t))))
                } else if action == "show_item".to_owned() {
                    let id = match get_str(contents, "id") {
                        Some(id) => id,
                        None => return Err(DeserializationError::MissingHoverEventValue),
                    };
                    let count = match get_i64(contents, "count") {
                        Some(c) => Some(c as i32),
                        None => None,
                    };
                    let tag = get_str(contents, "tag");
                    Ok(Some(HoverEvent::ShowItem { id, count, tag }))
                } else if action == "show_entity".to_owned() {
                    let name = get_str(contents, "name");
                    let entity_type = match get_str(contents, "type") {
                        Some(t) => t,
                        None => return Err(DeserializationError::MissingHoverEventValue),
                    };
                    let id = deserialize_entity_id(member(contents, "id"))?;
                    Ok(Some(HoverEvent::ShowEntity { id, entity_type, name }))
                } else {
                    Err(DeserializationError::InvalidHoverEventAction)
                }
            },
            _ => match get_str(hm, "value") {
                Some(v) => Ok(Some(HoverEvent::Unresolved { action, value: v })),
                None => Err(DeserializationError::MissingHoverEventValue),
            },
        },
        None => match get_str(hm, "value") {
            Some(v) => Ok(Some(HoverEvent::Unresolved { action, value: v })),
            None => Err(DeserializationError::MissingHoverEventValue),
        },
    }
}

/// Reads the content of a component object.
fn deserialize_content(value: &JsonValue) -> (r: Result<TextContent, DeserializationError>)
    ensures
        match content_of(json_view(*value)) {
            Ok(c) => r matches Ok(content) && content_view(content) == c,
            Err(e) => r == Err::<TextContent, DeserializationError>(e),
        },
    decreases *value, 1nat,
{
    let map = match value {
        JsonValue::Object(map) => map,
        _ => return Err(DeserializationError::InvalidValueType),
    };
    match member(map, "text") {
        Some(JsonValue::String(s)) => return Ok(TextContent::Literal(s.clone())),
        Some(JsonValue::Bool(b)) => return Ok(TextContent::Literal(bool_string(*b))),
        Some(JsonValue::Number(n)) => return Ok(TextContent::Literal(number_text(n))),
        Some(_) => return Err(DeserializationError::InvalidValueType),
        None => {},
    }
    match get_str(map, "translate") {
        Some(key) => {
            let fallback = get_str(map, "fallback");
            return match member(map, "with") {
                Some(found) => match found {
                    JsonValue::Array(list) => {
                        proof {
                            lemma_member_decreases(*value, *found);
                            assert(decreases_to!(*found => *list));
                            assert(json_views(list@).skip(0) =~= json_views(list@));
                        }
                        let with = deserialize_texts(list, 0)?;
                        Ok(TextContent::Translation { key, fallback, with: Some(with) })
                    },
                    _ => Ok(TextContent::Translation { key, fallback, with: None }),
                },
                None => Ok(TextContent::Translation { key, fallback, with: None }),
            };
        },
        None => {},
    }
    match get_str(map, "keybind") {
        Some(k) => return Ok(TextContent::Keybind(k)),
        None => {},
    }
    match member(map, "score") {
        Some(JsonValue::Object(sm)) => {
            let name = match get_str(sm, "name") {
                Some(n) => n,
                None => return Err(DeserializationError::MissingScoreName),
            };
            let objective = match get_str(sm, "objective") {
                Some(o) => o,
                None => return Err(DeserializationError::MissingScoreObjective),
            };
            return Ok(TextContent::Score { name, objective, value: get_str(sm, "value") });
        },
        _ => {},
    }
    match get_str(map, "selector") {
        Some(selector) => {
            let separator = deserialize_separator(value)?;
            return Ok(TextContent::EntitySelector { selector, separator });
        },
        None => {},
    }
    match get_str(map, "nbt") {
        Some(nbt) => {
            let block = get_str(map, "block");
            let entity = get_str(map, "entity");
            let storage = get_str(map, "storage");
            let interpret = get_bool(map, "interpret");
            let separator = deserialize_separator(value)?;
            if entity.is_none() && block.is_none() && storage.is_none() {
                return Err(DeserializationError::MissingNbtTarget);
            }
            Ok(TextContent::Nbt { nbt, interpret, separator, block, entity, storage })
        },
        None => Err(DeserializationError::CouldNotIdentifyContentType),
    }
}

/// Reads a chat component from JSON.
pub fn deserialize_json(value: &JsonValue) -> (r: Result<Text, DeserializationError>)
    ensures
        match text_of_json(json_view(*value)) {
            Ok(tv) => r matches Ok(t) && text_view(t) == tv,
            Err(e) => r == Err::<Text, DeserializationError>(e),
        },
    decreases *value, 2nat,
{
    match value {
        JsonValue::Array(array) => {
            proof { lemma_json_views(array@); }
            if array.len() == 0 {
                return Err(DeserializationError::TextArrayEmpty);
            }
            proof {
                assert(decreases_to!(*value => *array));
                assert(decreases_to!(*array => array@));
                assert(decreases_to!(array@ => array@[0]));
            }
            let mut text = deserialize_json(&array[0])?;
            let mut more = deserialize_texts(array, 1)?;
            let ghost e0 = text.extra@;
            let ghost m0 = more@;
            text.extra.append(&mut more);
            proof {
                lemma_text_views_append(e0, m0);
                assert(json_views(array@).skip(1) =~= json_views(array@).skip(1));
            }
            Ok(text)
        },
        JsonValue::Object(map) => {
            let style = deserialize_style0(map)?;
            let click_event = deserialize_click(map)?;
            let hover_event = deserialize_hover(value)?;
            let extra = deserialize_extra(value)?;
            let insertion = get_str(map, "insertion");
            let content = deserialize_content(value)?;
            Ok(Text { content, extra, style, insertion, click_event, hover_event })
        },
        JsonValue::String(s) => Ok(Text::new(TextContent::Literal(s.clone()))),
        JsonValue::Bool(b) => Ok(Text::new(TextContent::Literal(bool_string(*b)))),
        JsonValue::Number(n) => Ok(Text::new(TextContent::Literal(number_text(n)))),
        JsonValue::Null => Err(DeserializationError::InvalidValueType),
    }
}


// ---------------------------------------------------------------------------
// What a read gives back of a write
// ---------------------------------------------------------------------------

/// Looking a key up in two member lists one after the other: the first list
/// wins.
pub proof fn lemma_obj_get_concat(a: Seq<(Seq<char>, JsonView)>, b: Seq<(Seq<char>, JsonView)>, k: Seq<char>)
    ensures
        obj_get(a + b, k) == (if obj_get(a, k) is Some {
            obj_get(a, k)
        } else {
            obj_get(b, k)
        }),
    decreases a.len(),
{
    if a.len() > 0 {
        assert((a + b).drop_first() =~= a.drop_first() + b);
        assert((a + b)[0] == a[0]);
        lemma_obj_get_concat(a.drop_first(), b, k);
    } else {
        assert(a + b =~= b);
    }
}

proof fn lemma_hex_digit_value(d: nat)
    requires
        d < 16,
    ensures
        hex_char_value(upper_hex_digit(d)) == Some(d),
{
}

proof fn lemma_upper_hex_value(v: nat)
    ensures
        hex_digits_value(upper_hex(v)) == Some(v),
    decreases v,
{
    if v < 16 {
        lemma_hex_digit_value(v);
        let d = upper_hex(v);
        assert(d.drop_last() =~= Seq::<char>::empty());
        assert(hex_digits_value(d.drop_last()) == Some(0nat));
        assert(d.last() == upper_hex_digit(v));
    } else {
        lemma_upper_hex_value(v / 16);
        lemma_hex_digit_value(v % 16);
        let d = upper_hex(v);
        assert(d.drop_last() =~= upper_hex(v / 16));
        assert(d.last() == upper_hex_digit(v % 16));
        assert((v / 16) * 16 + v % 16 == v);
    }
}

proof fn lemma_leading_zeros_value(n: nat, d: Seq<char>)
    ensures
        hex_digits_value(Seq::new(n, |i: int| '0') + d) == hex_digits_value(d),
    decreases d.len(), n,
{
    let z = Seq::new(n, |i: int| '0');
    if d.len() > 0 {
        assert((z + d).drop_last() =~= z + d.drop_last());
        assert((z + d).last() == d.last());
        lemma_leading_zeros_value(n, d.drop_last());
    } else if n > 0 {
        assert(z + d =~= z);
        let z1 = Seq::new((n - 1) as nat, |i: int| '0');
        assert(z.drop_last() =~= z1 + d);
        lemma_leading_zeros_value((n - 1) as nat, d);
        assert(z1 + d =~= z1);
    } else {
        assert(z + d =~= d);
    }
}

/// A color reads back from the name it is written as, when it is a named
/// color or an RGB value below `0x1000000`.
pub proof fn lemma_color_roundtrip(c: TextColor)
    requires
        c matches TextColor::Hex(v) ==> v < 0x1000000,
    ensures
        color_of_name(color_text(c)) == Some(c),
{
    reveal_strlit("black");
    reveal_strlit("dark_blue");
    reveal_strlit("dark_green");
    reveal_strlit("dark_aqua");
    reveal_strlit("dark_red");
    reveal_strlit("dark_purple");
    reveal_strlit("gold");
    reveal_strlit("gray");
    reveal_strlit("dark_gray");
    reveal_strlit("blue");
    reveal_strlit("green");
    reveal_strlit("aqua");
    reveal_strlit("red");
    reveal_strlit("light_purple");
    reveal_strlit("yellow");
    reveal_strlit("white");
    if let TextColor::Hex(v) = c {
        let d = upper_hex(v as nat);
        reveal_with_fuel(pow16, 7);
        lemma_upper_hex_len_bound(v as nat, 6);
        let n: nat = (6 - d.len()) as nat;
        let t = hex_color_text(v);
        assert(t =~= seq!['#'] + (Seq::new(n, |i: int| '0') + d));
        assert(t.len() == 7);
        assert(t.drop_first() =~= Seq::new(n, |i: int| '0') + d);
        lemma_leading_zeros_value(n, d);
        lemma_upper_hex_value(v as nat);
        let u = t.drop_first();
        if n > 0 {
            assert(u[0] == '0');
        } else {
            assert(u[0] == d[0]);
            assert(d =~= upper_hex(v as nat));
            assert(u[0] != '+') by {
                if v as nat >= 16 {
                    assert(d[0] == upper_hex((v / 16) as nat).push(upper_hex_digit((v % 16) as nat))[0]);
                }
                lemma_upper_hex_first(v as nat);
            }
        }
    }
}

proof fn lemma_upper_hex_first(v: nat)
    ensures
        upper_hex(v).len() > 0,
        upper_hex(v)[0] != '+',
    decreases v,
{
    if v >= 16 {
        lemma_upper_hex_first(v / 16);
        assert(upper_hex(v)[0] == upper_hex(v / 16)[0]);
    }
}


proof fn lemma_opt_member_get(key: Seq<char>, o: Option<JsonView>, k: Seq<char>)
    ensures
        obj_get(opt_member(key, o), k) == (if key == k {
            o
        } else {
            None
        }),
{
    if let Some(x) = o {
        assert(seq![(key, x)].drop_first() =~= Seq::<(Seq<char>, JsonView)>::empty());
        assert(obj_get(Seq::<(Seq<char>, JsonView)>::empty(), k) is None);
    }
}

proof fn lemma_opt_str_member_get(key: Seq<char>, o: Option<Seq<char>>, k: Seq<char>)
    ensures
        obj_get(opt_str_member(key, o), k) == (if key == k {
            str_json(o)
        } else {
            None
        }),
{
    if let Some(x) = o {
        assert(seq![(key, JsonView::Str(x))].drop_first() =~= Seq::<(Seq<char>, JsonView)>::empty());
        assert(obj_get(Seq::<(Seq<char>, JsonView)>::empty(), k) is None);
    }
}

proof fn lemma_opt_bool_member_get(key: Seq<char>, o: Option<bool>, k: Seq<char>)
    ensures
        obj_get(opt_bool_member(key, o), k) == (if key == k {
            bool_json(o)
        } else {
            None
        }),
{
    if let Some(x) = o {
        assert(seq![(key, JsonView::Bool(x))].drop_first() =~= Seq::<(Seq<char>, JsonView)>::empty());
        assert(obj_get(Seq::<(Seq<char>, JsonView)>::empty(), k) is None);
    }
}

/// An optional string as an optional JSON string.
pub open spec fn str_json(o: Option<Seq<char>>) -> Option<JsonView> {
    match o {
        Some(x) => Some(JsonView::Str(x)),
        None => None,
    }
}

/// An optional flag as an optional JSON boolean.
pub open spec fn bool_json(o: Option<bool>) -> Option<JsonView> {
    match o {
        Some(x) => Some(JsonView::Bool(x)),
        None => None,
    }
}

/// The color member's value of a style.
pub open spec fn color_json(s: StyleView) -> Option<JsonView> {
    match s.color {
        Some(c) => Some(JsonView::Str(color_text(c))),
        None => None,
    }
}

/// The shadow color member's value of a style.
pub open spec fn shadow_json(s: StyleView) -> Option<JsonView> {
    match s.shadow_color {
        Some(v) => Some(JsonView::Num(num_of_i64((v as i32) as i64))),
        None => None,
    }
}

/// What the members a style writes hold under a key.
pub open spec fn style_get(s: StyleView, k: Seq<char>) -> Option<JsonView> {
    if k == "color"@ {
        color_json(s)
    } else if k == "bold"@ {
        bool_json(s.bold)
    } else if k == "italic"@ {
        bool_json(s.italic)
    } else if k == "underlined"@ {
        bool_json(s.underlined)
    } else if k == "strikethrough"@ {
        bool_json(s.strikethrough)
    } else if k == "obfuscated"@ {
        bool_json(s.obfuscated)
    } else if k == "shadow_color"@ {
        shadow_json(s)
    } else {
        None
    }
}

/// The lengths and first characters of the member names of a component,
/// which tell any two of them apart.
proof fn lemma_member_names()
    ensures
        "color"@.len() == 5,
        "color"@[0] == 'c',
        "font"@.len() == 4,
        "font"@[0] == 'f',
        "shadow_color"@.len() == 12,
        "shadow_color"@[0] == 's',
        "bold"@.len() == 4,
        "bold"@[0] == 'b',
        "italic"@.len() == 6,
        "italic"@[0] == 'i',
        "underlined"@.len() == 10,
        "underlined"@[0] == 'u',
        "strikethrough"@.len() == 13,
        "strikethrough"@[0] == 's',
        "obfuscated"@.len() == 10,
        "obfuscated"@[0] == 'o',
        "clickEvent"@.len() == 10,
        "clickEvent"@[0] == 'c',
        "hoverEvent"@.len() == 10,
        "hoverEvent"@[0] == 'h',
        "insertion"@.len() == 9,
        "insertion"@[0] == 'i',
        "extra"@.len() == 5,
        "extra"@[0] == 'e',
        "text"@.len() == 4,
        "text"@[0] == 't',
        "translate"@.len() == 9,
        "translate"@[0] == 't',
        "fallback"@.len() == 8,
        "fallback"@[0] == 'f',
        "with"@.len() == 4,
        "with"@[0] == 'w',
        "keybind"@.len() == 7,
        "keybind"@[0] == 'k',
        "score"@.len() == 5,
        "score"@[0] == 's',
        "selector"@.len() == 8,
        "selector"@[0] == 's',
        "separator"@.len() == 9,
        "separator"@[0] == 's',
        "nbt"@.len() == 3,
        "nbt"@[0] == 'n',
        "interpret"@.len() == 9,
        "interpret"@[0] == 'i',
        "block"@.len() == 5,
        "block"@[0] == 'b',
        "entity"@.len() == 6,
        "entity"@[0] == 'e',
        "storage"@.len() == 7,
        "storage"@[0] == 's',
        "insertion"@[2] == 's',
        "interpret"@[2] == 't',
{
    reveal_strlit("color");
    reveal_strlit("font");
    reveal_strlit("shadow_color");
    reveal_strlit("bold");
    reveal_strlit("italic");
    reveal_strlit("underlined");
    reveal_strlit("strikethrough");
    reveal_strlit("obfuscated");
    reveal_strlit("clickEvent");
    reveal_strlit("hoverEvent");
    reveal_strlit("insertion");
    reveal_strlit("extra");
    reveal_strlit("text");
    reveal_strlit("translate");
    reveal_strlit("fallback");
    reveal_strlit("with");
    reveal_strlit("keybind");
    reveal_strlit("score");
    reveal_strlit("selector");
    reveal_strlit("separator");
    reveal_strlit("nbt");
    reveal_strlit("interpret");
    reveal_strlit("block");
    reveal_strlit("entity");
    reveal_strlit("storage");
}

proof fn lemma_style_members_get(s: StyleView, k: Seq<char>)
    ensures
        obj_get(style_members(s), k) == style_get(s, k),
{
    lemma_member_names();
    let a1 = opt_member("color"@, color_json(s));
    let a2 = opt_bool_member("bold"@, s.bold);
    let a3 = opt_bool_member("italic"@, s.italic);
    let a4 = opt_bool_member("underlined"@, s.underlined);
    let a5 = opt_bool_member("strikethrough"@, s.strikethrough);
    let a6 = opt_bool_member("obfuscated"@, s.obfuscated);
    let a7 = opt_member("shadow_color"@, shadow_json(s));
    assert(style_members(s) == a1 + a2 + a3 + a4 + a5 + a6 + a7);
    lemma_obj_get_concat(a1 + a2 + a3 + a4 + a5 + a6, a7, k);
    lemma_obj_get_concat(a1 + a2 + a3 + a4 + a5, a6, k);
    lemma_obj_get_concat(a1 + a2 + a3 + a4, a5, k);
    lemma_obj_get_concat(a1 + a2 + a3, a4, k);
    lemma_obj_get_concat(a1 + a2, a3, k);
    lemma_obj_get_concat(a1, a2, k);
    lemma_opt_member_get("color"@, color_json(s), k);
    lemma_opt_bool_member_get("bold"@, s.bold, k);
    lemma_opt_bool_member_get("italic"@, s.italic, k);
    lemma_opt_bool_member_get("underlined"@, s.underlined, k);
    lemma_opt_bool_member_get("strikethrough"@, s.strikethrough, k);
    lemma_opt_bool_member_get("obfuscated"@, s.obfuscated, k);
    lemma_opt_member_get("shadow_color"@, shadow_json(s), k);
}


/// The lengths and first characters of the member names inside events and
/// scores, which tell any two of them apart.
proof fn lemma_inner_member_names()
    ensures
        "name"@.len() == 4,
        "name"@[0] == 'n',
        "objective"@.len() == 9,
        "objective"@[0] == 'o',
        "value"@.len() == 5,
        "value"@[0] == 'v',
        "action"@.len() == 6,
        "action"@[0] == 'a',
        "contents"@.len() == 8,
        "contents"@[0] == 'c',
        "id"@.len() == 2,
        "id"@[0] == 'i',
        "count"@.len() == 5,
        "count"@[0] == 'c',
        "tag"@.len() == 3,
        "tag"@[0] == 't',
        "type"@.len() == 4,
        "type"@[0] == 't',
        "count"@[2] == 'u',
{
    reveal_strlit("name");
    reveal_strlit("objective");
    reveal_strlit("value");
    reveal_strlit("action");
    reveal_strlit("contents");
    reveal_strlit("id");
    reveal_strlit("count");
    reveal_strlit("tag");
    reveal_strlit("type");
}

proof fn lemma_style_read_back(s: StyleView, m: Seq<(Seq<char>, JsonView)>)
    requires
        s.font is None,
        s.color matches Some(TextColor::Hex(v)) ==> v < 0x1000000,
        obj_get(m, "color"@) == color_json(s),
        obj_get(m, "font"@) is None,
        obj_get(m, "shadow_color"@) == shadow_json(s),
        obj_get(m, "bold"@) == bool_json(s.bold),
        obj_get(m, "italic"@) == bool_json(s.italic),
        obj_get(m, "underlined"@) == bool_json(s.underlined),
        obj_get(m, "strikethrough"@) == bool_json(s.strikethrough),
        obj_get(m, "obfuscated"@) == bool_json(s.obfuscated),
    ensures
        style_of(m) == Ok::<StyleView, DeserializationError>(s),
{
    if let Some(c) = s.color {
        lemma_color_roundtrip(c);
    }
    if let Some(v) = s.shadow_color {
        let w = (v as i32) as i64;
        assert((w as u32) == v) by (bit_vector)
            requires
                w == (v as i32) as i64,
        ;
        if w >= 0 {
            assert((w as u64) as i64 == w) by (bit_vector)
                requires
                    w >= 0,
            ;
        }
    }
}


/// What the members a content writes hold under a key.
pub open spec fn content_get(c: ContentView, k: Seq<char>) -> Option<JsonView> {
    match c {
        ContentView::Literal(s) => if k == "text"@ {
            Some(JsonView::Str(s))
        } else {
            None
        },
        ContentView::Translation { key, fallback, with } => if k == "translate"@ {
            Some(JsonView::Str(key))
        } else if k == "fallback"@ {
            str_json(fallback)
        } else if k == "with"@ {
            match with {
                Some(w) => Some(JsonView::Arr(texts_json(w))),
                None => None,
            }
        } else {
            None
        },
        ContentView::Score { name, objective, value } => if k == "score"@ {
            Some(
                JsonView::Obj(
                    seq![("name"@, JsonView::Str(name)), ("objective"@, JsonView::Str(objective))] + opt_str_member(
                        "value"@,
                        value,
                    ),
                ),
            )
        } else {
            None
        },
        ContentView::EntitySelector { selector, separator } => if k == "selector"@ {
            Some(JsonView::Str(selector))
        } else if k == "separator"@ {
            separator_json(separator)
        } else {
            None
        },
        ContentView::Keybind(key) => if k == "keybind"@ {
            Some(JsonView::Str(key))
        } else {
            None
        },
        ContentView::Nbt { nbt, interpret, separator, block, entity, storage } => if k == "nbt"@ {
            Some(JsonView::Str(nbt))
        } else if k == "interpret"@ {
            bool_json(interpret)
        } else if k == "separator"@ {
            separator_json(separator)
        } else if k == "block"@ {
            str_json(block)
        } else if k == "entity"@ {
            str_json(entity)
        } else if k == "storage"@ {
            str_json(storage)
        } else {
            None
        },
    }
}

/// The separator member's value.
pub open spec fn separator_json(sep: Option<Box<TextView>>) -> Option<JsonView> {
    match sep {
        Some(b) => Some(text_json(*b)),
        None => None,
    }
}

proof fn lemma_one_member_get(key: Seq<char>, v: JsonView, k: Seq<char>)
    ensures
        obj_get(seq![(key, v)], k) == (if key == k {
            Some(v)
        } else {
            None
        }),
{
    lemma_opt_member_get(key, Some(v), k);
}

proof fn lemma_content_members_get(c: ContentView, k: Seq<char>)
    ensures
        obj_get(content_members(c), k) == content_get(c, k),
{
    lemma_member_names();
    match c {
        ContentView::Literal(s) => {
            lemma_one_member_get("text"@, JsonView::Str(s), k);
        },
        ContentView::Translation { key, fallback, with } => {
            let a1 = seq![("translate"@, JsonView::Str(key))];
            let a2 = opt_str_member("fallback"@, fallback);
            let w = match with {
                Some(w) => Some(JsonView::Arr(texts_json(w))),
                None => None,
            };
            let a3 = opt_member("with"@, w);
            assert(content_members(c) =~= a1 + a2 + a3);
            lemma_obj_get_concat(a1 + a2, a3, k);
            lemma_obj_get_concat(a1, a2, k);
            lemma_one_member_get("translate"@, JsonView::Str(key), k);
            lemma_opt_str_member_get("fallback"@, fallback, k);
            lemma_opt_member_get("with"@, w, k);
        },
        ContentView::Score { name, objective, value } => {
            let o = JsonView::Obj(
                seq![("name"@, JsonView::Str(name)), ("objective"@, JsonView::Str(objective))] + opt_str_member(
                    "value"@,
                    value,
                ),
            );
            lemma_one_member_get("score"@, o, k);
        },
        ContentView::EntitySelector { selector, separator } => {
            let a1 = seq![("selector"@, JsonView::Str(selector))];
            let a2 = opt_member("separator"@, separator_json(separator));
            assert(content_members(c) =~= a1 + a2);
            lemma_obj_get_concat(a1, a2, k);
            lemma_one_member_get("selector"@, JsonView::Str(selector), k);
            lemma_opt_member_get("separator"@, separator_json(separator), k);
        },
        ContentView::Keybind(key) => {
            lemma_one_member_get("keybind"@, JsonView::Str(key), k);
        },
        ContentView::Nbt { nbt, interpret, separator, block, entity, storage } => {
            let a1 = seq![("nbt"@, JsonView::Str(nbt))];
            let a2 = opt_bool_member("interpret"@, interpret);
            let a3 = opt_member("separator"@, separator_json(separator));
            let a4 = opt_str_member("block"@, block);
            let a5 = opt_str_member("entity"@, entity);
            let a6 = opt_str_member("storage"@, storage);
            assert(content_members(c) =~= a1 + a2 + a3 + a4 + a5 + a6);
            lemma_obj_get_concat(a1 + a2 + a3 + a4 + a5, a6, k);
            lemma_obj_get_concat(a1 + a2 + a3 + a4, a5, k);
            lemma_obj_get_concat(a1 + a2 + a3, a4, k);
            lemma_obj_get_concat(a1 + a2, a3, k);
            lemma_obj_get_concat(a1, a2, k);
            lemma_one_member_get("nbt"@, JsonView::Str(nbt), k);
            lemma_opt_bool_member_get("interpret"@, interpret, k);
            lemma_opt_member_get("separator"@, separator_json(separator), k);
            lemma_opt_str_member_get("block"@, block, k);
            lemma_opt_str_member_get("entity"@, entity, k);
            lemma_opt_str_member_get("storage"@, storage, k);
        },
    }
}

/// The members of a component object, as the writer lays them out.
pub open spec fn node_members(
    content: ContentView,
    style: StyleView,
    insertion: Option<Seq<char>>,
    click_event: Option<(ClickActionView, Seq<char>)>,
    hover_event: Option<HoverView>,
) -> Seq<(Seq<char>, JsonView)> {
    style_members(style) + match click_event {
        Some((a, v)) => seq![("clickEvent"@, click_json(a, v))],
        None => Seq::empty(),
    } + match hover_event {
        Some(h) => seq![("hoverEvent"@, hover_json(h))],
        None => Seq::empty(),
    } + opt_str_member("insertion"@, insertion) + content_members(content)
}

/// What a component object's members hold under a key.
pub open spec fn node_get(
    content: ContentView,
    style: StyleView,
    insertion: Option<Seq<char>>,
    click_event: Option<(ClickActionView, Seq<char>)>,
    hover_event: Option<HoverView>,
    k: Seq<char>,
) -> Option<JsonView> {
    if style_get(style, k) is Some {
        style_get(style, k)
    } else if k == "clickEvent"@ {
        match click_event {
            Some((a, v)) => Some(click_json(a, v)),
            None => None,
        }
    } else if k == "hoverEvent"@ {
        match hover_event {
            Some(h) => Some(hover_json(h)),
            None => None,
        }
    } else if k == "insertion"@ {
        str_json(insertion)
    } else {
        content_get(content, k)
    }
}

proof fn lemma_node_members_get(
    content: ContentView,
    style: StyleView,
    insertion: Option<Seq<char>>,
    click_event: Option<(ClickActionView, Seq<char>)>,
    hover_event: Option<HoverView>,
    k: Seq<char>,
)
    ensures
        obj_get(node_members(content, style, insertion, click_event, hover_event), k) == node_get(
            content,
            style,
            insertion,
            click_event,
            hover_event,
            k,
        ),
{
    lemma_member_names();
    let a1 = style_members(style);
    let c = match click_event {
        Some((a, v)) => Some(click_json(a, v)),
        None => None,
    };
    let h = match hover_event {
        Some(h) => Some(hover_json(h)),
        None => None,
    };
    let a2 = opt_member("clickEvent"@, c);
    let a3 = opt_member("hoverEvent"@, h);
    let a4 = opt_str_member("insertion"@, insertion);
    let a5 = content_members(content);
    assert(node_members(content, style, insertion, click_event, hover_event) =~= a1 + a2 + a3 + a4 + a5);
    lemma_obj_get_concat(a1 + a2 + a3 + a4, a5, k);
    lemma_obj_get_concat(a1 + a2 + a3, a4, k);
    lemma_obj_get_concat(a1 + a2, a3, k);
    lemma_obj_get_concat(a1, a2, k);
    lemma_style_members_get(style, k);
    lemma_opt_member_get("clickEvent"@, c, k);
    lemma_opt_member_get("hoverEvent"@, h, k);
    lemma_opt_str_member_get("insertion"@, insertion, k);
    lemma_content_members_get(content, k);
}


/// The lengths and telling characters of the action names of events.
proof fn lemma_action_names()
    ensures
        "open_url"@.len() == 8,
        "open_url"@[0] == 'o',
        "open_file"@.len() == 9,
        "open_file"@[0] == 'o',
        "run_command"@.len() == 11,
        "run_command"@[0] == 'r',
        "suggest_command"@.len() == 15,
        "suggest_command"@[0] == 's',
        "change_page"@.len() == 11,
        "change_page"@[0] == 'c',
        "copy_to_clipboard"@.len() == 17,
        "copy_to_clipboard"@[0] == 'c',
        "show_text"@.len() == 9,
        "show_text"@[0] == 's',
        "show_item"@.len() == 9,
        "show_item"@[0] == 's',
        "show_entity"@.len() == 11,
        "show_entity"@[0] == 's',
        "show_text"@[5] == 't',
        "show_item"@[5] == 'i',
{
    reveal_strlit("open_url");
    reveal_strlit("open_file");
    reveal_strlit("run_command");
    reveal_strlit("suggest_command");
    reveal_strlit("change_page");
    reveal_strlit("copy_to_clipboard");
    reveal_strlit("show_text");
    reveal_strlit("show_item");
    reveal_strlit("show_entity");
}

/// Whether a name is one of the click actions the reader knows.
pub open spec fn known_action_name(s: Seq<char>) -> bool {
    s == "open_url"@ || s == "open_file"@ || s == "run_command"@ || s == "suggest_command"@ || s == "change_page"@
        || s == "copy_to_clipboard"@
}

proof fn lemma_action_roundtrip(a: ClickActionView)
    requires
        a matches ClickActionView::Unresolved(s) ==> !known_action_name(s),
    ensures
        action_of_name(action_text(a)) == a,
{
    lemma_action_names();
}

/// Whether a click event reads back as written: an action the reader does
/// not know must not have the name of one it knows.
pub open spec fn click_wf(c: Option<(ClickActionView, Seq<char>)>) -> bool {
    c matches Some((ClickActionView::Unresolved(s), _)) ==> !known_action_name(s)
}

/// Whether a component reads back as it is written: no font (which is not
/// written), RGB colors below `0x1000000`, click actions as above, hover
/// texts that are written as objects, NBT contents with a target, and the
/// same of every component inside.
pub open spec fn text_wf(t: TextView) -> bool
    decreases t, 3nat,
{
    match t {
        TextView::Node { content, extra, style, insertion, click_event, hover_event } => {
            &&& style.font is None
            &&& (style.color matches Some(TextColor::Hex(v)) ==> v < 0x1000000)
            &&& click_wf(click_event)
            &&& match hover_event {
                Some(h) => hover_wf(h),
                None => true,
            }
            &&& content_wf(content)
            &&& texts_wf(extra)
        },
    }
}

/// Whether every component of a list reads back as it is written.
pub open spec fn texts_wf(ts: Seq<TextView>) -> bool
    decreases ts, 2nat,
{
    if ts.len() == 0 {
        true
    } else {
        texts_wf(ts.drop_last()) && text_wf(ts[ts.len() - 1])
    }
}

/// Whether a hover event reads back as it is written.
pub open spec fn hover_wf(h: HoverView) -> bool
    decreases h, 2nat,
{
    match h {
        HoverView::ShowText(b) => text_wf(*b) && text_json(*b) is Obj,
        _ => true,
    }
}

/// Whether a content reads back as it is written.
pub open spec fn content_wf(c: ContentView) -> bool
    decreases c, 2nat,
{
    match c {
        ContentView::Translation { with, .. } => match with {
            Some(w) => texts_wf(w),
            None => true,
        },
        ContentView::EntitySelector { separator, .. } => match separator {
            Some(b) => text_wf(*b),
            None => true,
        },
        ContentView::Nbt { separator, block, entity, storage, .. } => !(block is None && entity is None && storage is None)
            && match separator {
            Some(b) => text_wf(*b),
            None => true,
        },
        _ => true,
    }
}


proof fn lemma_texts_read_back(ts: Seq<TextView>)
    requires
        texts_wf(ts),
    ensures
        texts_of(texts_json(ts)) == Ok::<Seq<TextView>, DeserializationError>(ts),
    decreases ts, 2nat,
{
    if ts.len() == 0 {
        assert(ts =~= Seq::<TextView>::empty());
    } else {
        let d = ts.drop_last();
        let j = texts_json(ts);
        assert(j.drop_last() =~= texts_json(d));
        assert(j[j.len() - 1] == text_json(ts[ts.len() - 1]));
        lemma_texts_read_back(d);
        lemma_text_read_back(ts[ts.len() - 1]);
        assert(d.push(ts[ts.len() - 1]) =~= ts);
    }
}

proof fn lemma_hover_read_back(h: HoverView, m: Seq<(Seq<char>, JsonView)>)
    requires
        hover_wf(h),
        obj_get(m, "hoverEvent"@) == Some(hover_json(h)),
    ensures
        hover_of(JsonView::Obj(m)) == Ok::<Option<HoverView>, DeserializationError>(Some(h)),
    decreases h, 1nat,
{
    lemma_action_names();
    lemma_inner_member_names();
    match h {
        HoverView::ShowText(b) => {
            let hm = seq![("action"@, JsonView::Str("show_text"@)), ("contents"@, text_json(*b))];
            lemma_obj_get_concat(seq![hm[0]], seq![hm[1]], "action"@);
            lemma_obj_get_concat(seq![hm[0]], seq![hm[1]], "contents"@);
            assert(seq![hm[0]] + seq![hm[1]] =~= hm);
            lemma_one_member_get("action"@, JsonView::Str("show_text"@), "action"@);
            lemma_one_member_get("action"@, JsonView::Str("show_text"@), "contents"@);
            lemma_one_member_get("contents"@, text_json(*b), "contents"@);
            lemma_text_read_back(*b);
        },
        HoverView::ShowItem { id, count, tag } => {
            lemma_show_item_read_back(id, count, tag);
        },
        HoverView::ShowEntity { id, entity_type, name } => {
            let contents = seq![("id"@, JsonView::Str(id)), ("type"@, JsonView::Str(entity_type))] + opt_str_member(
                "name"@,
                name,
            );
            let hm = seq![("action"@, JsonView::Str("show_entity"@)), ("contents"@, JsonView::Obj(contents))];
            assert(seq![hm[0]] + seq![hm[1]] =~= hm);
            lemma_obj_get_concat(seq![hm[0]], seq![hm[1]], "action"@);
            lemma_obj_get_concat(seq![hm[0]], seq![hm[1]], "contents"@);
            lemma_one_member_get("action"@, JsonView::Str("show_entity"@), "action"@);
            lemma_one_member_get("action"@, JsonView::Str("show_entity"@), "contents"@);
            lemma_one_member_get("contents"@, JsonView::Obj(contents), "contents"@);
            let a1 = seq![("id"@, JsonView::Str(id))];
            let a2 = seq![("type"@, JsonView::Str(entity_type))];
            let a3 = opt_str_member("name"@, name);
            assert(contents =~= a1 + a2 + a3);
            lemma_obj_get_concat(a1 + a2, a3, "id"@);
            lemma_obj_get_concat(a1, a2, "id"@);
            lemma_obj_get_concat(a1 + a2, a3, "type"@);
            lemma_obj_get_concat(a1, a2, "type"@);
            lemma_obj_get_concat(a1 + a2, a3, "name"@);
            lemma_obj_get_concat(a1, a2, "name"@);
            lemma_one_member_get("id"@, JsonView::Str(id), "id"@);
            lemma_one_member_get("id"@, JsonView::Str(id), "type"@);
            lemma_one_member_get("id"@, JsonView::Str(id), "name"@);
            lemma_one_member_get("type"@, JsonView::Str(entity_type), "id"@);
            lemma_one_member_get("type"@, JsonView::Str(entity_type), "type"@);
            lemma_one_member_get("type"@, JsonView::Str(entity_type), "name"@);
            lemma_opt_str_member_get("name"@, name, "id"@);
            lemma_opt_str_member_get("name"@, name, "type"@);
            lemma_opt_str_member_get("name"@, name, "name"@);
        },
        HoverView::Unresolved { action, value } => {
            let hm = seq![("action"@, JsonView::Str(action)), ("value"@, JsonView::Str(value))];
            assert(seq![hm[0]] + seq![hm[1]] =~= hm);
            lemma_obj_get_concat(seq![hm[0]], seq![hm[1]], "action"@);
            lemma_obj_get_concat(seq![hm[0]], seq![hm[1]], "contents"@);
            lemma_obj_get_concat(seq![hm[0]], seq![hm[1]], "value"@);
            lemma_one_member_get("action"@, JsonView::Str(action), "action"@);
            lemma_one_member_get("action"@, JsonView::Str(action), "contents"@);
            lemma_one_member_get("action"@, JsonView::Str(action), "value"@);
            lemma_one_member_get("value"@, JsonView::Str(value), "action"@);
            lemma_one_member_get("value"@, JsonView::Str(value), "contents"@);
            lemma_one_member_get("value"@, JsonView::Str(value), "value"@);
        },
    }
}

proof fn lemma_show_item_read_back(id: Seq<char>, count: Option<i32>, tag: Option<Seq<char>>)
    ensures
        ({
            let hm = hover_json(HoverView::ShowItem { id, count, tag })->Obj_0;
            &&& hover_json(HoverView::ShowItem { id, count, tag }) is Obj
            &&& as_str(obj_get(hm, "action"@)) == Some("show_item"@)
            &&& obj_get(hm, "contents"@) matches Some(JsonView::Obj(contents)) && {
                &&& as_str(obj_get(contents, "id"@)) == Some(id)
                &&& (match as_i64(obj_get(contents, "count"@)) {
                    Some(c) => Some(c as i32),
                    None => None,
                }) == count
                &&& as_str(obj_get(contents, "tag"@)) == tag
            }
        }),
{
    lemma_action_names();
    lemma_inner_member_names();
    let cnt = match count {
        Some(c) => Some(JsonView::Num(num_of_i64(c as i64))),
        None => None,
    };
    let a1 = seq![("id"@, JsonView::Str(id))];
    let a2 = opt_member("count"@, cnt);
    let a3 = opt_str_member("tag"@, tag);
    let contents = a1 + a2 + a3;
    let hm = hover_json(HoverView::ShowItem { id, count, tag })->Obj_0;
    assert(hm =~= seq![("action"@, JsonView::Str("show_item"@)), ("contents"@, JsonView::Obj(contents))]);
    assert(seq![hm[0]] + seq![hm[1]] =~= hm);
    lemma_obj_get_concat(seq![hm[0]], seq![hm[1]], "action"@);
    lemma_obj_get_concat(seq![hm[0]], seq![hm[1]], "contents"@);
    lemma_one_member_get("action"@, JsonView::Str("show_item"@), "action"@);
    lemma_one_member_get("action"@, JsonView::Str("show_item"@), "contents"@);
    lemma_one_member_get("contents"@, JsonView::Obj(contents), "contents"@);
    lemma_obj_get_concat(a1 + a2, a3, "id"@);
    lemma_obj_get_concat(a1, a2, "id"@);
    lemma_obj_get_concat(a1 + a2, a3, "count"@);
    lemma_obj_get_concat(a1, a2, "count"@);
    lemma_obj_get_concat(a1 + a2, a3, "tag"@);
    lemma_obj_get_concat(a1, a2, "tag"@);
    lemma_one_member_get("id"@, JsonView::Str(id), "id"@);
    lemma_one_member_get("id"@, JsonView::Str(id), "count"@);
    lemma_one_member_get("id"@, JsonView::Str(id), "tag"@);
    lemma_opt_member_get("count"@, cnt, "id"@);
    lemma_opt_member_get("count"@, cnt, "count"@);
    lemma_opt_member_get("count"@, cnt, "tag"@);
    lemma_opt_str_member_get("tag"@, tag, "id"@);
    lemma_opt_str_member_get("tag"@, tag, "count"@);
    lemma_opt_str_member_get("tag"@, tag, "tag"@);
    if let Some(c) = count {
        let w = c as i64;
        if w >= 0 {
            assert((w as u64) as i64 == w && (w as u64) <= i64::MAX as u64) by (bit_vector)
                requires
                    w >= 0,
            ;
        }
        assert((w as i32) == c);
    }
}

proof fn lemma_score_members(name: Seq<char>, objective: Seq<char>, value: Option<Seq<char>>)
    ensures
        ({
            let sm = seq![("name"@, JsonView::Str(name)), ("objective"@, JsonView::Str(objective))] + opt_str_member(
                "value"@,
                value,
            );
            &&& obj_get(sm, "name"@) == Some(JsonView::Str(name))
            &&& obj_get(sm, "objective"@) == Some(JsonView::Str(objective))
            &&& obj_get(sm, "value"@) == str_json(value)
        }),
{
    lemma_inner_member_names();
    let a1 = seq![("name"@, JsonView::Str(name))];
    let a2 = seq![("objective"@, JsonView::Str(objective))];
    let a3 = opt_str_member("value"@, value);
    assert(seq![("name"@, JsonView::Str(name)), ("objective"@, JsonView::Str(objective))] =~= a1 + a2);
    lemma_obj_get_concat(a1 + a2, a3, "name"@);
    lemma_obj_get_concat(a1, a2, "name"@);
    lemma_obj_get_concat(a1 + a2, a3, "objective"@);
    lemma_obj_get_concat(a1, a2, "objective"@);
    lemma_obj_get_concat(a1 + a2, a3, "value"@);
    lemma_obj_get_concat(a1, a2, "value"@);
    lemma_one_member_get("name"@, JsonView::Str(name), "name"@);
    lemma_one_member_get("name"@, JsonView::Str(name), "objective"@);
    lemma_one_member_get("name"@, JsonView::Str(name), "value"@);
    lemma_one_member_get("objective"@, JsonView::Str(objective), "name"@);
    lemma_one_member_get("objective"@, JsonView::Str(objective), "objective"@);
    lemma_one_member_get("objective"@, JsonView::Str(objective), "value"@);
    lemma_opt_str_member_get("value"@, value, "name"@);
    lemma_opt_str_member_get("value"@, value, "objective"@);
    lemma_opt_str_member_get("value"@, value, "value"@);
}

proof fn lemma_content_read_back(c: ContentView, m: Seq<(Seq<char>, JsonView)>)
    requires
        content_wf(c),
        obj_get(m, "text"@) == content_get(c, "text"@),
        obj_get(m, "translate"@) == content_get(c, "translate"@),
        obj_get(m, "fallback"@) == content_get(c, "fallback"@),
        obj_get(m, "with"@) == content_get(c, "with"@),
        obj_get(m, "keybind"@) == content_get(c, "keybind"@),
        obj_get(m, "score"@) == content_get(c, "score"@),
        obj_get(m, "selector"@) == content_get(c, "selector"@),
        obj_get(m, "separator"@) == content_get(c, "separator"@),
        obj_get(m, "nbt"@) == content_get(c, "nbt"@),
        obj_get(m, "interpret"@) == content_get(c, "interpret"@),
        obj_get(m, "block"@) == content_get(c, "block"@),
        obj_get(m, "entity"@) == content_get(c, "entity"@),
        obj_get(m, "storage"@) == content_get(c, "storage"@),
    ensures
        content_of(JsonView::Obj(m)) == Ok::<ContentView, DeserializationError>(c),
    decreases c, 1nat,
{
    lemma_member_names();
    match c {
        ContentView::Translation { key, fallback, with } => {
            if let Some(w) = with {
                lemma_texts_read_back(w);
            }
        },
        ContentView::Score { name, objective, value } => {
            lemma_score_members(name, objective, value);
        },
        ContentView::EntitySelector { selector, separator } => {
            if let Some(b) = separator {
                lemma_text_read_back(*b);
            }
        },
        ContentView::Nbt { nbt, interpret, separator, block, entity, storage } => {
            if let Some(b) = separator {
                lemma_text_read_back(*b);
            }
        },
        _ => {},
    }
}

proof fn lemma_node_read_back(t: TextView)
    requires
        text_wf(t),
    ensures
        ({
            let TextView::Node { content, extra, style, insertion, click_event, hover_event } = t;
            text_of_json(JsonView::Obj(node_members(content, style, insertion, click_event, hover_event)))
                == Ok::<TextView, DeserializationError>(
                TextView::Node { content, extra: Seq::empty(), style, insertion, click_event, hover_event },
            )
        }),
    decreases t, 2nat,
{
    let TextView::Node { content, extra, style, insertion, click_event, hover_event } = t;
    let m = node_members(content, style, insertion, click_event, hover_event);
    lemma_member_names();
    lemma_inner_member_names();
    lemma_node_members_get(content, style, insertion, click_event, hover_event, "color"@);
    lemma_node_members_get(content, style, insertion, click_event, hover_event, "font"@);
    lemma_node_members_get(content, style, insertion, click_event, hover_event, "shadow_color"@);
    lemma_node_members_get(content, style, insertion, click_event, hover_event, "bold"@);
    lemma_node_members_get(content, style, insertion, click_event, hover_event, "italic"@);
    lemma_node_members_get(content, style, insertion, click_event, hover_event, "underlined"@);
    lemma_node_members_get(content, style, insertion, click_event, hover_event, "strikethrough"@);
    lemma_node_members_get(content, style, insertion, click_event, hover_event, "obfuscated"@);
    lemma_node_members_get(content, style, insertion, click_event, hover_event, "clickEvent"@);
    lemma_node_members_get(content, style, insertion, click_event, hover_event, "hoverEvent"@);
    lemma_node_members_get(content, style, insertion, click_event, hover_event, "insertion"@);
    lemma_node_members_get(content, style, insertion, click_event, hover_event, "extra"@);
    lemma_node_members_get(content, style, insertion, click_event, hover_event, "text"@);
    lemma_node_members_get(content, style, insertion, click_event, hover_event, "translate"@);
    lemma_node_members_get(content, style, insertion, click_event, hover_event, "fallback"@);
    lemma_node_members_get(content, style, insertion, click_event, hover_event, "with"@);
    lemma_node_members_get(content, style, insertion, click_event, hover_event, "keybind"@);
    lemma_node_members_get(content, style, insertion, click_event, hover_event, "score"@);
    lemma_node_members_get(content, style, insertion, click_event, hover_event, "selector"@);
    lemma_node_members_get(content, style, insertion, click_event, hover_event, "separator"@);
    lemma_node_members_get(content, style, insertion, click_event, hover_event, "nbt"@);
    lemma_node_members_get(content, style, insertion, click_event, hover_event, "interpret"@);
    lemma_node_members_get(content, style, insertion, click_event, hover_event, "block"@);
    lemma_node_members_get(content, style, insertion, click_event, hover_event, "entity"@);
    lemma_node_members_get(content, style, insertion, click_event, hover_event, "storage"@);
    lemma_style_read_back(style, m);
    if let Some((a, v)) = click_event {
        let cm = seq![("action"@, JsonView::Str(action_text(a))), ("value"@, JsonView::Str(v))];
        assert(seq![cm[0]] + seq![cm[1]] =~= cm);
        lemma_obj_get_concat(seq![cm[0]], seq![cm[1]], "action"@);
        lemma_obj_get_concat(seq![cm[0]], seq![cm[1]], "value"@);
        lemma_one_member_get("action"@, JsonView::Str(action_text(a)), "action"@);
        lemma_one_member_get("action"@, JsonView::Str(action_text(a)), "value"@);
        lemma_one_member_get("value"@, JsonView::Str(v), "action"@);
        lemma_one_member_get("value"@, JsonView::Str(v), "value"@);
        lemma_action_roundtrip(a);
    }
    if let Some(h) = hover_event {
        lemma_hover_read_back(h, m);
    }
    lemma_content_read_back(content, m);
    assert(style_of(m) == Ok::<StyleView, DeserializationError>(style));
    assert(click_of(m) == Ok::<Option<(ClickActionView, Seq<char>)>, DeserializationError>(click_event));
    assert(hover_of(JsonView::Obj(m)) == Ok::<Option<HoverView>, DeserializationError>(hover_event));
    assert(extra_of(JsonView::Obj(m)) == Ok::<Seq<TextView>, DeserializationError>(Seq::empty()));
}

proof fn lemma_text_read_back(t: TextView)
    requires
        text_wf(t),
    ensures
        text_of_json(text_json(t)) == Ok::<TextView, DeserializationError>(t),
    decreases t, 3nat,
{
    let TextView::Node { content, extra, style, insertion, click_event, hover_event } = t;
    if content is Literal && style_is_empty(style) && insertion is None && click_event is None && hover_event is None
        && extra.len() == 0 {
        assert(extra =~= Seq::<TextView>::empty());
    } else {
        let members = node_members(content, style, insertion, click_event, hover_event);
        lemma_node_read_back(t);
        let t0 = TextView::Node { content, extra: Seq::empty(), style, insertion, click_event, hover_event };
        if extra.len() == 0 {
            assert(extra =~= Seq::<TextView>::empty());
        } else {
            lemma_texts_read_back(extra);
            let first = if members.len() == 1 && members[0].0 == "text"@ {
                members[0].1
            } else {
                JsonView::Obj(members)
            };
            if members.len() == 1 && members[0].0 == "text"@ {
                lemma_single_text_member(content, style, insertion, click_event, hover_event);
            }
            assert(text_of_json(first) == Ok::<TextView, DeserializationError>(t0));
            let a = seq![first] + texts_json(extra);
            assert(a.skip(1) =~= texts_json(extra));
            assert(Seq::<TextView>::empty() + extra =~= extra);
        }
    }
}

proof fn lemma_single_text_member(
    content: ContentView,
    style: StyleView,
    insertion: Option<Seq<char>>,
    click_event: Option<(ClickActionView, Seq<char>)>,
    hover_event: Option<HoverView>,
)
    requires
        style.font is None,
        node_members(content, style, insertion, click_event, hover_event).len() == 1,
        node_members(content, style, insertion, click_event, hover_event)[0].0 == "text"@,
    ensures
        content matches ContentView::Literal(s) && node_members(content, style, insertion, click_event, hover_event)[0].1
            == JsonView::Str(s),
        style == empty_style_view(),
        insertion is None,
        click_event is None,
        hover_event is None,
{
    lemma_member_names();
    let k = content_members(content);
    assert(k.len() >= 1);
    assert(k[0].0 != "text"@ ==> !(content is Literal));
    let m = node_members(content, style, insertion, click_event, hover_event);
    assert(m[m.len() - 1] == k[k.len() - 1]);
}


/// Law: a chat component reads back as it is written, when it is one that
/// does (see `text_wf`: the writer leaves out the font, writes RGB colors
/// with six digits, and writes some hover texts in a form the reader does
/// not take).
pub proof fn law_text_json_roundtrip(t: TextView)
    requires
        text_wf(t),
    ensures
        text_of_json(text_json(t)) == Ok::<TextView, DeserializationError>(t),
{
    lemma_text_read_back(t);
}


/// A style with its color set to `c`.
pub open spec fn with_color(s: StyleView, c: TextColor) -> StyleView {
    StyleView { color: Some(c), ..s }
}

/// A named color is the first member of a style's JSON, and reads back.
proof fn lemma_named_color(s: StyleView, c: TextColor)
    requires
        !(c is Hex),
    ensures
        style_members(with_color(s, c))[0] == ("color"@, JsonView::Str(color_text(c))),
        style_of(seq![("color"@, JsonView::Str(color_text(c)))]) matches Ok(st) && st.color == Some(c),
{
    lemma_color_roundtrip(c);
}

/// Law: each named color is written by its Minecraft name, as the first
/// member of a style's JSON, and a style whose `color` member is that name
/// reads as that color.
pub proof fn law_color_names(s: StyleView)
    ensures
        style_members(with_color(s, TextColor::Black))[0] == ("color"@, JsonView::Str("black"@)),
        style_members(with_color(s, TextColor::DarkBlue))[0] == ("color"@, JsonView::Str("dark_blue"@)),
        style_members(with_color(s, TextColor::DarkGreen))[0] == ("color"@, JsonView::Str("dark_green"@)),
        style_members(with_color(s, TextColor::DarkAqua))[0] == ("color"@, JsonView::Str("dark_aqua"@)),
        style_members(with_color(s, TextColor::DarkRed))[0] == ("color"@, JsonView::Str("dark_red"@)),
        style_members(with_color(s, TextColor::DarkPurple))[0] == ("color"@, JsonView::Str("dark_purple"@)),
        style_members(with_color(s, TextColor::Gold))[0] == ("color"@, JsonView::Str("gold"@)),
        style_members(with_color(s, TextColor::Gray))[0] == ("color"@, JsonView::Str("gray"@)),
        style_members(with_color(s, TextColor::DarkGray))[0] == ("color"@, JsonView::Str("dark_gray"@)),
        style_members(with_color(s, TextColor::Blue))[0] == ("color"@, JsonView::Str("blue"@)),
        style_members(with_color(s, TextColor::Green))[0] == ("color"@, JsonView::Str("green"@)),
        style_members(with_color(s, TextColor::Aqua))[0] == ("color"@, JsonView::Str("aqua"@)),
        style_members(with_color(s, TextColor::Red))[0] == ("color"@, JsonView::Str("red"@)),
        style_members(with_color(s, TextColor::LightPurple))[0] == ("color"@, JsonView::Str("light_purple"@)),
        style_members(with_color(s, TextColor::Yellow))[0] == ("color"@, JsonView::Str("yellow"@)),
        style_members(with_color(s, TextColor::White))[0] == ("color"@, JsonView::Str("white"@)),
        style_of(seq![("color"@, JsonView::Str("black"@))]) matches Ok(st) && st.color == Some(TextColor::Black),
        style_of(seq![("color"@, JsonView::Str("dark_blue"@))]) matches Ok(st) && st.color == Some(TextColor::DarkBlue),
        style_of(seq![("color"@, JsonView::Str("dark_green"@))]) matches Ok(st) && st.color == Some(TextColor::DarkGreen),
        style_of(seq![("color"@, JsonView::Str("dark_aqua"@))]) matches Ok(st) && st.color == Some(TextColor::DarkAqua),
        style_of(seq![("color"@, JsonView::Str("dark_red"@))]) matches Ok(st) && st.color == Some(TextColor::DarkRed),
        style_of(seq![("color"@, JsonView::Str("dark_purple"@))]) matches Ok(st) && st.color == Some(TextColor::DarkPurple),
        style_of(seq![("color"@, JsonView::Str("gold"@))]) matches Ok(st) && st.color == Some(TextColor::Gold),
        style_of(seq![("color"@, JsonView::Str("gray"@))]) matches Ok(st) && st.color == Some(TextColor::Gray),
        style_of(seq![("color"@, JsonView::Str("dark_gray"@))]) matches Ok(st) && st.color == Some(TextColor::DarkGray),
        style_of(seq![("color"@, JsonView::Str("blue"@))]) matches Ok(st) && st.color == Some(TextColor::Blue),
        style_of(seq![("color"@, JsonView::Str("green"@))]) matches Ok(st) && st.color == Some(TextColor::Green),
        style_of(seq![("color"@, JsonView::Str("aqua"@))]) matches Ok(st) && st.color == Some(TextColor::Aqua),
        style_of(seq![("color"@, JsonView::Str("red"@))]) matches Ok(st) && st.color == Some(TextColor::Red),
        style_of(seq![("color"@, JsonView::Str("light_purple"@))]) matches Ok(st) && st.color == Some(TextColor::LightPurple),
        style_of(seq![("color"@, JsonView::Str("yellow"@))]) matches Ok(st) && st.color == Some(TextColor::Yellow),
        style_of(seq![("color"@, JsonView::Str("white"@))]) matches Ok(st) && st.color == Some(TextColor::White),
{
    lemma_named_color(s, TextColor::Black);
    lemma_named_color(s, TextColor::DarkBlue);
    lemma_named_color(s, TextColor::DarkGreen);
    lemma_named_color(s, TextColor::DarkAqua);
    lemma_named_color(s, TextColor::DarkRed);
    lemma_named_color(s, TextColor::DarkPurple);
    lemma_named_color(s, TextColor::Gold);
    lemma_named_color(s, TextColor::Gray);
    lemma_named_color(s, TextColor::DarkGray);
    lemma_named_color(s, TextColor::Blue);
    lemma_named_color(s, TextColor::Green);
    lemma_named_color(s, TextColor::Aqua);
    lemma_named_color(s, TextColor::Red);
    lemma_named_color(s, TextColor::LightPurple);
    lemma_named_color(s, TextColor::Yellow);
    lemma_named_color(s, TextColor::White);
}

} // verus!
