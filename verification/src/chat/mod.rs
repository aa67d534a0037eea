//! Chat components: text with content, style, events and children, the way
//! Minecraft shows messages, plus a builder for them.
use vstd::prelude::*;
use vstd::std_specs::convert::FromSpecImpl;

use crate::util::push_str;

pub mod json;

verus! {

/// A chat component.
#[derive(Debug, PartialEq, Eq)]
pub struct Text {
    pub content: TextContent,
    pub extra: Vec<Text>,
    pub style: Style,
    pub insertion: Option<String>,
    pub click_event: Option<ClickEvent>,
    pub hover_event: Option<HoverEvent>,
}

/// What a component shows.
#[derive(Debug, PartialEq, Eq)]
pub enum TextContent {
    Literal(String),
    Translation { key: String, fallback: Option<String>, with: Option<Vec<Text>> },
    Score { name: String, objective: String, value: Option<String> },
    EntitySelector { selector: String, separator: Option<Box<Text>> },
    Keybind(String),
    Nbt {
        nbt: String,
        interpret: Option<bool>,
        separator: Option<Box<Text>>,
        block: Option<String>,
        entity: Option<String>,
        storage: Option<String>,
    },
}

/// What clicking a component does.
#[derive(Debug, PartialEq, Eq)]
pub struct ClickEvent {
    pub action: ClickAction,
    pub value: String,
}

/// The kinds of click actions.
#[derive(Debug, PartialEq, Eq)]
pub enum ClickAction {
    OpenUrl,
    OpenFile,
    RunCommand,
    SuggestCommand,
    ChangePage,
    CopyToClipboard,
    Unresolved(String),
}

/// What hovering over a component shows.
#[derive(Debug, PartialEq, Eq)]
pub enum HoverEvent {
    ShowText(Box<Text>),
    ShowItem { id: String, count: Option<i32>, tag: Option<String> },
    ShowEntity { id: String, entity_type: String, name: Option<String> },
    Unresolved { action: String, value: String },
}

/// The look of a component; `None` fields are inherited from the parent.
#[derive(Debug, PartialEq, Eq)]
pub struct Style {
    pub color: Option<TextColor>,
    pub font: Option<String>,
    pub shadow_color: Option<u32>,
    pub bold: Option<bool>,
    pub italic: Option<bool>,
    pub underlined: Option<bool>,
    pub strikethrough: Option<bool>,
    pub obfuscated: Option<bool>,
}

/// A text color: one of the sixteen named colors or any RGB value.
#[derive(Debug, Clone, Copy, PartialEq, Eq, Structural)]
pub enum TextColor {
    Hex(u32),
    Black,
    DarkBlue,
    DarkGreen,
    DarkAqua,
    DarkRed,
    DarkPurple,
    Gold,
    Gray,
    DarkGray,
    Blue,
    Green,
    Aqua,
    Red,
    LightPurple,
    Yellow,
    White,
}

/// The style with every field unset.
pub open spec fn empty_style() -> Style {
    Style {
        color: None,
        font: None,
        shadow_color: None,
        bold: None,
        italic: None,
        underlined: None,
        strikethrough: None,
        obfuscated: None,
    }
}

/// `t` shows `content` and has no children, style or events.
pub open spec fn is_plain_text(t: Text, content: TextContent) -> bool {
    &&& t.content == content
    &&& t.extra@.len() == 0
    &&& t.style == empty_style()
    &&& t.insertion is None
    &&& t.click_event is None
    &&& t.hover_event is None
}

/// The characters a content contributes to the plain string of a component:
/// a literal's text, a translation's fallback or else its key, and nothing
/// for the other kinds.
pub open spec fn content_string(c: TextContent) -> Seq<char> {
    match c {
        TextContent::Literal(s) => s@,
        TextContent::Translation { key, fallback, .. } => match fallback {
            Some(f) => f@,
            None => key@,
        },
        _ => Seq::empty(),
    }
}

/// The plain string of a component: its own content, then the strings of its
/// children, the last child first (the order in which `get_string` visits
/// them).
pub open spec fn text_string(t: Text) -> Seq<char>
    decreases t, 1nat,
{
    content_string(t.content) + texts_string(t.extra@)
}

/// The plain strings of a list of components, the last one first.
pub open spec fn texts_string(s: Seq<Text>) -> Seq<char>
    decreases s, 0nat,
{
    if s.len() == 0 {
        Seq::empty()
    } else {
        text_string(s.last()) + texts_string(s.drop_last())
    }
}

/// The number of components in a tree.
pub open spec fn text_size(t: Text) -> nat
    decreases t, 1nat,
{
    1 + texts_size(t.extra@)
}

/// The number of components in a list of trees.
pub open spec fn texts_size(s: Seq<Text>) -> nat
    decreases s, 0nat,
{
    if s.len() == 0 {
        0
    } else {
        text_size(s.last()) + texts_size(s.drop_last())
    }
}

/// The components a stack of references points at.
pub open spec fn derefs(s: Seq<&Text>) -> Seq<Text> {
    s.map_values(|t: &Text| *t)
}

/// The components of a tree in the order `Text::accept` visits them: the
/// component, then its children's trees, the last child first.
pub open spec fn visit_order(t: Text) -> Seq<Text>
    decreases t, 1nat,
{
    seq![t] + texts_visit_order(t.extra@)
}

/// The visit order of a list of trees, the last one first.
pub open spec fn texts_visit_order(s: Seq<Text>) -> Seq<Text>
    decreases s, 0nat,
{
    if s.len() == 0 {
        Seq::empty()
    } else {
        visit_order(s.last()) + texts_visit_order(s.drop_last())
    }
}

/// Whether `visitor` was called on the first `n` of `order` (at least one)
/// and no further: every call but the last returned `true`, and the last
/// returned `false` unless all of `order` was visited.
pub open spec fn visited_first<F: Fn(&Text) -> bool>(visitor: F, order: Seq<Text>, n: int) -> bool {
    &&& 1 <= n <= order.len()
    &&& forall|i: int| 0 <= i < n - 1 ==> call_ensures(visitor, (&#[trigger] order[i],), true)
    &&& n < order.len() ==> call_ensures(visitor, (&order[n - 1],), false)
}

/// Appending to a list puts the new trees first in the visit order.
proof fn lemma_visit_order_append(a: Seq<Text>, b: Seq<Text>)
    ensures
        texts_visit_order(a + b) == texts_visit_order(b) + texts_visit_order(a),
    decreases b.len(),
{
    if b.len() == 0 {
        assert(a + b =~= a);
        assert(texts_visit_order(b) + texts_visit_order(a) =~= texts_visit_order(a));
    } else {
        lemma_visit_order_append(a, b.drop_last());
        assert((a + b).drop_last() =~= a + b.drop_last());
        assert((a + b).last() == b.last());
        assert(texts_visit_order(a + b) =~= texts_visit_order(b) + texts_visit_order(a));
    }
}

/// Appending to a list adds the new components' strings in front: the list
/// is read from its end.
proof fn lemma_texts_string_append(a: Seq<Text>, b: Seq<Text>)
    ensures
        texts_string(a + b) == texts_string(b) + texts_string(a),
        texts_size(a + b) == texts_size(b) + texts_size(a),
    decreases b.len(),
{
    if b.len() == 0 {
        assert(a + b =~= a);
        assert(texts_string(b) + texts_string(a) =~= texts_string(a));
    } else {
        lemma_texts_string_append(a, b.drop_last());
        assert((a + b).drop_last() =~= a + b.drop_last());
        assert((a + b).last() == b.last());
        assert(texts_string(a + b) =~= texts_string(b) + texts_string(a));
    }
}

impl Text {
    /// A component showing `content`, with no children, style or events.
    pub fn new(content: TextContent) -> (r: Text)
        ensures
            is_plain_text(r, content),
    {
        Text {
            content,
            extra: Vec::new(),
            style: Style::empty(),
            insertion: None,
            click_event: None,
            hover_event: None,
        }
    }

    /// Adds a child after the existing ones.
    pub fn add_extra(&mut self, extra: Text)
        ensures
            final(self).extra@ == old(self).extra@.push(extra),
            final(self).content == old(self).content,
            final(self).style == old(self).style,
            final(self).insertion == old(self).insertion,
            final(self).click_event == old(self).click_event,
            final(self).hover_event == old(self).hover_event,
    {
        self.extra.push(extra);
    }

    /// Adds children after the existing ones, in order.
    pub fn add_extras(&mut self, extras: Vec<Text>)
        ensures
            final(self).extra@ == old(self).extra@ + extras@,
            final(self).content == old(self).content,
            final(self).style == old(self).style,
            final(self).insertion == old(self).insertion,
            final(self).click_event == old(self).click_event,
            final(self).hover_event == old(self).hover_event,
    {
        let mut extras = extras;
        self.extra.append(&mut extras);
    }

    /// Calls `visitor` on this component and its descendants, each component
    /// before its children and the children last-first, until the visitor
    /// returns `false`: the visitor is called on the first `n` components of
    /// `visit_order(*self)`, for some `n` of at least one; every call but the
    /// last returned `true`, and the last returned `false` unless all
    /// components were visited (`visited_first`).
    pub fn accept<F: Fn(&Text) -> bool>(&self, visitor: F)
        requires
            forall|t: &Text| #[trigger] call_requires(visitor, (t,)),
        ensures
            exists|n: int| #[trigger] visited_first(visitor, visit_order(*self), n),
    {
        let ghost order = visit_order(*self);
        let ghost mut done: Seq<Text> = Seq::empty();
        let mut stack: Vec<&Text> = Vec::new();
        stack.push(self);
        proof {
            assert(derefs(stack@) =~= seq![*self]);
            let one = seq![*self];
            assert(one.drop_last() =~= Seq::<Text>::empty());
            assert(one.last() == *self);
            assert(texts_visit_order(Seq::<Text>::empty()) =~= Seq::<Text>::empty());
            assert(texts_visit_order(one) == visit_order(*self) + texts_visit_order(one.drop_last()));
            assert(texts_visit_order(one) =~= order);
            assert(done + texts_visit_order(derefs(stack@)) =~= order);
        }
        while stack.len() > 0
            invariant
                forall|t: &Text| #[trigger] call_requires(visitor, (t,)),
                order == visit_order(*self),
                order == done + texts_visit_order(derefs(stack@)),
                forall|i: int| 0 <= i < done.len() ==> call_ensures(visitor, (&#[trigger] done[i],), true),
            decreases texts_size(derefs(stack@)),
        {
            let ghost before = derefs(stack@);
            let text = stack.pop().unwrap();
            proof {
                assert(derefs(stack@) =~= before.drop_last());
                assert(*text == before.last());
            }
            let ghost popped = derefs(stack@);
            proof {
                assert(texts_visit_order(before) == visit_order(*text) + texts_visit_order(popped));
                assert(order == done + (seq![*text] + texts_visit_order(text.extra@) + texts_visit_order(popped)));
                assert(order[done.len() as int] == *text);
            }
            if !visitor(text) {
                proof {
                    assert forall|i: int| 0 <= i < done.len() implies call_ensures(
                        visitor,
                        (&#[trigger] order[i],),
                        true,
                    ) by {
                        assert(order[i] == done[i]);
                    }
                    assert(order.len() >= done.len() + 1);
                    assert(visited_first(visitor, order, done.len() + 1int));
                }
                return;
            }
            let mut i: usize = 0;
            while i < text.extra.len()
                invariant
                    i <= text.extra@.len(),
                    derefs(stack@) == popped + text.extra@.take(i as int),
                decreases text.extra.len() - i,
            {
                let ghost prev = stack@;
                let child = &text.extra[i];
                assert(*child == text.extra@[i as int]);
                stack.push(child);
                proof {
                    assert(stack@ == prev.push(child));
                    assert(derefs(stack@) =~= derefs(prev).push(*child));
                    assert(text.extra@.take(i + 1) =~= text.extra@.take(i as int).push(text.extra@[i as int]));
                }
                i = i + 1;
            }
            proof {
                assert(text.extra@.take(i as int) =~= text.extra@);
                lemma_texts_string_append(popped, text.extra@);
                lemma_visit_order_append(popped, text.extra@);
                assert(texts_size(before) == text_size(*text) + texts_size(popped));
                assert(text_size(*text) == 1 + texts_size(text.extra@));
                let d2 = done.push(*text);
                assert(order =~= d2 + texts_visit_order(derefs(stack@)));
                assert forall|k: int| 0 <= k < d2.len() implies call_ensures(visitor, (&#[trigger] d2[k],), true) by {
                    if k < done.len() {
                        assert(d2[k] == done[k]);
                    }
                }
                done = d2;
            }
        }
        proof {
            assert(derefs(stack@) =~= Seq::<Text>::empty());
            assert(order =~= done);
            assert forall|i: int| 0 <= i < order.len() - 1 implies call_ensures(
                visitor,
                (&#[trigger] order[i],),
                true,
            ) by {
                assert(order[i] == done[i]);
            }
            assert(order.len() >= 1);
            assert(visited_first(visitor, order, order.len() as int));
        }
    }

    /// The plain string of the component: the texts of literals and the
    /// fallbacks (or keys) of translations, this component first, then its
    /// children last-first.
    pub fn get_string(&self) -> (r: String)
        ensures
            r@ == text_string(*self),
    {
        let mut result = String::new();
        let mut stack: Vec<&Text> = Vec::new();
        stack.push(self);
        proof {
            assert(derefs(stack@) =~= seq![*self]);
            assert(derefs(stack@).drop_last() =~= Seq::<Text>::empty());
            assert(texts_string(Seq::<Text>::empty()) == Seq::<char>::empty());
            assert(texts_string(derefs(stack@)) =~= text_string(*self) + Seq::<char>::empty());
            assert(text_string(*self) + Seq::<char>::empty() =~= text_string(*self));
        }
        while stack.len() > 0
            invariant
                text_string(*self) == result@ + texts_string(derefs(stack@)),
            decreases texts_size(derefs(stack@)),
        {
            let ghost before = derefs(stack@);
            let text = stack.pop().unwrap();
            proof {
                assert(derefs(stack@) =~= before.drop_last());
                assert(*text == before.last());
            }
            match text.content.get_string() {
                Some(s) => push_str(&mut result, s.as_str()),
                None => {},
            }
            let ghost popped = derefs(stack@);
            let mut i: usize = 0;
            while i < text.extra.len()
                invariant
                    i <= text.extra@.len(),
                    derefs(stack@) == popped + text.extra@.take(i as int),
                decreases text.extra.len() - i,
            {
                let ghost prev = stack@;
                let child = &text.extra[i];
                assert(*child == text.extra@[i as int]);
                stack.push(child);
                proof {
                    assert(stack@ == prev.push(child));
                    assert(derefs(stack@) =~= derefs(prev).push(*child));
                    assert(text.extra@.take(i + 1) =~= text.extra@.take(i as int).push(text.extra@[i as int]));
                }
                i = i + 1;
            }
            proof {
                assert(text.extra@.take(i as int) =~= text.extra@);
                lemma_texts_string_append(popped, text.extra@);
                assert(texts_size(before) == text_size(*text) + texts_size(popped));
                assert(text_size(*text) == 1 + texts_size(text.extra@));
                assert(texts_string(before) == text_string(*text) + texts_string(popped));
                assert(text_string(*text) == content_string(text.content) + texts_string(text.extra@));
                assert(result@ + texts_string(derefs(stack@)) =~= text_string(*self));
            }
        }
        proof { assert(result@ =~= text_string(*self)); }
        result
    }
}

impl TextContent {
    /// Literal text.
    pub fn literal(text: String) -> (r: TextContent)
        ensures
            r == TextContent::Literal(text),
    {
        TextContent::Literal(text)
    }

    /// A translation key with its fallback and arguments.
    pub fn translation(key: String, fallback: Option<String>, with: Option<Vec<Text>>) -> (r: TextContent)
        ensures
            r == (TextContent::Translation { key, fallback, with }),
    {
        TextContent::Translation { key, fallback, with }
    }

    /// A scoreboard value.
    pub fn score(name: String, objective: String, value: Option<String>) -> (r: TextContent)
        ensures
            r == (TextContent::Score { name, objective, value }),
    {
        TextContent::Score { name, objective, value }
    }

    /// The names of the entities a selector picks.
    pub fn entity_selector(selector: String, separator: Option<Text>) -> (r: TextContent)
        ensures
            r == (TextContent::EntitySelector {
                selector,
                separator: match separator {
                    Some(t) => Some(Box::new(t)),
                    None => None,
                },
            }),
    {
        let separator = match separator {
            Some(t) => Some(Box::new(t)),
            None => None,
        };
        TextContent::EntitySelector { selector, separator }
    }

    /// The key bound to a control.
    pub fn keybind(key: String) -> (r: TextContent)
        ensures
            r == TextContent::Keybind(key),
    {
        TextContent::Keybind(key)
    }

    /// Values read from NBT data.
    pub fn nbt(
        nbt: String,
        interpret: Option<bool>,
        separator: Option<Text>,
        block: Option<String>,
        entity: Option<String>,
        storage: Option<String>,
    ) -> (r: TextContent)
        ensures
            r == (TextContent::Nbt {
                nbt,
                interpret,
                separator: match separator {
                    Some(t) => Some(Box::new(t)),
                    None => None,
                },
                block,
                entity,
                storage,
            }),
    {
        let separator = match separator {
            Some(t) => Some(Box::new(t)),
            None => None,
        };
        TextContent::Nbt { nbt, interpret, separator, block, entity, storage }
    }

    /// The text a literal shows, or a translation's fallback or else its key.
    pub fn get_string(&self) -> (r: Option<&String>)
        ensures
            match *self {
                TextContent::Literal(s) => r == Some(&s),
                TextContent::Translation { key, fallback, .. } => match fallback {
                    Some(f) => r == Some(&f),
                    None => r == Some(&key),
                },
                _ => r is None,
            },
            r matches Some(s) ==> s@ == content_string(*self),
            r is None ==> content_string(*self) == Seq::<char>::empty(),
    {
        match self {
            TextContent::Literal(text) => Some(text),
            TextContent::Translation { key, fallback, .. } => match fallback {
                Some(f) => Some(f),
                None => Some(key),
            },
            _ => None,
        }
    }
}

impl From<String> for TextContent {
    fn from(text: String) -> (r: TextContent) {
        TextContent::Literal(text)
    }
}

impl FromSpecImpl<String> for TextContent {
    open spec fn obeys_from_spec() -> bool {
        true
    }

    open spec fn from_spec(text: String) -> TextContent {
        TextContent::Literal(text)
    }
}

impl<'a> From<&'a str> for TextContent {
    fn from(text: &'a str) -> (r: TextContent) {
        TextContent::Literal(text.to_owned())
    }
}

impl<'a> FromSpecImpl<&'a str> for TextContent {
    open spec fn obeys_from_spec() -> bool {
        false
    }

    open spec fn from_spec(text: &'a str) -> TextContent {
        arbitrary()
    }
}

impl Style {
    /// The style with every field unset.
    pub fn empty() -> (r: Style)
        ensures
            r == empty_style(),
    {
        Style {
            color: None,
            font: None,
            shadow_color: None,
            bold: None,
            italic: None,
            underlined: None,
            strikethrough: None,
            obfuscated: None,
        }
    }

    /// Whether no field but possibly the font is set.
    pub fn is_empty(&self) -> (r: bool)
        ensures
            r == (self.color is None && self.shadow_color is None && self.bold is None
                && self.italic is None && self.underlined is None && self.strikethrough is None
                && self.obfuscated is None),
    {
        self.color.is_none() && self.shadow_color.is_none() && self.bold.is_none()
            && self.italic.is_none() && self.underlined.is_none() && self.strikethrough.is_none()
            && self.obfuscated.is_none()
    }

    /// This style with `color` set.
    pub fn with_color(self, color: TextColor) -> (r: Style)
        ensures
            r == (Style { color: Some(color), ..self }),
    {
        let mut s = self;
        s.color = Some(color);
        s
    }

    /// This style with `color` unset.
    pub fn without_color(self) -> (r: Style)
        ensures
            r == (Style { color: None, ..self }),
    {
        let mut s = self;
        s.color = None;
        s
    }

    /// This style with `font` set.
    pub fn with_font(self, font: String) -> (r: Style)
        ensures
            r == (Style { font: Some(font), ..self }),
    {
        let mut s = self;
        s.font = Some(font);
        s
    }

    /// This style with `font` unset.
    pub fn without_font(self) -> (r: Style)
        ensures
            r == (Style { font: None, ..self }),
    {
        let mut s = self;
        s.font = None;
        s
    }

    /// This style with `shadow_color` set.
    pub fn with_shadow_color(self, shadow_color: u32) -> (r: Style)
        ensures
            r == (Style { shadow_color: Some(shadow_color), ..self }),
    {
        let mut s = self;
        s.shadow_color = Some(shadow_color);
        s
    }

    /// This style with `shadow_color` unset.
    pub fn without_shadow_color(self) -> (r: Style)
        ensures
            r == (Style { shadow_color: None, ..self }),
    {
        let mut s = self;
        s.shadow_color = None;
        s
    }

    /// This style with `bold` set.
    pub fn with_bold(self, bold: bool) -> (r: Style)
        ensures
            r == (Style { bold: Some(bold), ..self }),
    {
        let mut s = self;
        s.bold = Some(bold);
        s
    }

    /// This style with `bold` unset.
    pub fn without_bold(self) -> (r: Style)
        ensures
            r == (Style { bold: None, ..self }),
    {
        let mut s = self;
        s.bold = None;
        s
    }

    /// This style with `italic` set.
    pub fn with_italic(self, italic: bool) -> (r: Style)
        ensures
            r == (Style { italic: Some(italic), ..self }),
    {
        let mut s = self;
        s.italic = Some(italic);
        s
    }

    /// This style with `italic` unset.
    pub fn without_italic(self) -> (r: Style)
        ensures
            r == (Style { italic: None, ..self }),
    {
        let mut s = self;
        s.italic = None;
        s
    }

    /// This style with `underlined` set.
    pub fn with_underlined(self, underlined: bool) -> (r: Style)
        ensures
            r == (Style { underlined: Some(underlined), ..self }),
    {
        let mut s = self;
        s.underlined = Some(underlined);
        s
    }

    /// This style with `underlined` unset.
    pub fn without_underlined(self) -> (r: Style)
        ensures
            r == (Style { underlined: None, ..self }),
    {
        let mut s = self;
        s.underlined = None;
        s
    }

    /// This style with `strikethrough` set.
    pub fn with_strikethrough(self, strikethrough: bool) -> (r: Style)
        ensures
            r == (Style { strikethrough: Some(strikethrough), ..self }),
    {
        let mut s = self;
        s.strikethrough = Some(strikethrough);
        s
    }

    /// This style with `strikethrough` unset.
    pub fn without_strikethrough(self) -> (r: Style)
        ensures
            r == (Style { strikethrough: None, ..self }),
    {
        let mut s = self;
        s.strikethrough = None;
        s
    }

    /// This style with `obfuscated` set.
    pub fn with_obfuscated(self, obfuscated: bool) -> (r: Style)
        ensures
            r == (Style { obfuscated: Some(obfuscated), ..self }),
    {
        let mut s = self;
        s.obfuscated = Some(obfuscated);
        s
    }

    /// This style with `obfuscated` unset.
    pub fn without_obfuscated(self) -> (r: Style)
        ensures
            r == (Style { obfuscated: None, ..self }),
    {
        let mut s = self;
        s.obfuscated = None;
        s
    }
}

impl Default for Style {
    fn default() -> (r: Style)
        ensures
            r == empty_style(),
    {
        Style::empty()
    }
}

/// The RGB value of a color: a hex color's own value or the fixed value of
/// a named color.
pub open spec fn color_rgb(c: TextColor) -> u32 {
    match c {
        TextColor::Hex(color) => color,
        TextColor::Black => 0x000000,
        TextColor::DarkBlue => 0x0000AA,
        TextColor::DarkGreen => 0x00AA00,
        TextColor::DarkAqua => 0x00AAAA,
        TextColor::DarkRed => 0xAA0000,
        TextColor::DarkPurple => 0xAA00AA,
        TextColor::Gold => 0xFFAA00,
        TextColor::Gray => 0xAAAAAA,
        TextColor::DarkGray => 0x555555,
        TextColor::Blue => 0x5555FF,
        TextColor::Green => 0x55FF55,
        TextColor::Aqua => 0x55FFFF,
        TextColor::Red => 0xFF5555,
        TextColor::LightPurple => 0xFF55FF,
        TextColor::Yellow => 0xFFFF55,
        TextColor::White => 0xFFFFFF,
    }
}

/// The RGB value with red, green and blue components `r`, `g`, `b`.
pub open spec fn rgb_value(r: u8, g: u8, b: u8) -> u32 {
    ((r as u32) * 65536 + (g as u32) * 256 + (b as u32)) as u32
}

impl TextColor {
    /// The RGB value of the color.
    pub fn get_rgb(&self) -> (r: u32)
        ensures
            r == color_rgb(*self),
    {
        match self {
            TextColor::Hex(color) => *color,
            TextColor::Black => 0x000000,
            TextColor::DarkBlue => 0x0000AA,
            TextColor::DarkGreen => 0x00AA00,
            TextColor::DarkAqua => 0x00AAAA,
            TextColor::DarkRed => 0xAA0000,
            TextColor::DarkPurple => 0xAA00AA,
            TextColor::Gold => 0xFFAA00,
            TextColor::Gray => 0xAAAAAA,
            TextColor::DarkGray => 0x555555,
            TextColor::Blue => 0x5555FF,
            TextColor::Green => 0x55FF55,
            TextColor::Aqua => 0x55FFFF,
            TextColor::Red => 0xFF5555,
            TextColor::LightPurple => 0xFF55FF,
            TextColor::Yellow => 0xFFFF55,
            TextColor::White => 0xFFFFFF,
        }
    }

    /// The hex color with red, green and blue components `r`, `g`, `b`.
    pub fn from_rgb(r: u8, g: u8, b: u8) -> (c: TextColor)
        ensures
            c == TextColor::Hex(rgb_value(r, g, b)),
    {
        let v = (r as u32) << 16 | (g as u32) << 8 | b as u32;
        proof {
            assert((r as u32) << 16 | (g as u32) << 8 | b as u32 == (r as u32) * 65536 + (g as u32) * 256
                + (b as u32)) by (bit_vector);
        }
        TextColor::Hex(v)
    }
}

/// Law: the RGB value of a color made from components has those components
/// in its three low bytes.
pub proof fn law_rgb_components(r: u8, g: u8, b: u8)
    ensures
        ({
            let v = color_rgb(TextColor::Hex(rgb_value(r, g, b)));
            &&& v >> 16 == r as u32
            &&& (v >> 8) & 0xff == g as u32
            &&& v & 0xff == b as u32
        }),
{
    let v: u32 = ((r as u32) * 65536 + (g as u32) * 256 + (b as u32)) as u32;
    assert(v == (r as u32) * 65536 + (g as u32) * 256 + (b as u32) ==> {
        &&& v >> 16 == r as u32
        &&& (v >> 8) & 0xff == g as u32
        &&& v & 0xff == b as u32
    }) by (bit_vector);
}

impl From<u32> for TextColor {
    fn from(color: u32) -> (r: TextColor) {
        TextColor::Hex(color)
    }
}

impl FromSpecImpl<u32> for TextColor {
    open spec fn obeys_from_spec() -> bool {
        true
    }

    open spec fn from_spec(color: u32) -> TextColor {
        TextColor::Hex(color)
    }
}

impl From<i32> for TextColor {
    fn from(color: i32) -> (r: TextColor) {
        TextColor::Hex(color as u32)
    }
}

impl FromSpecImpl<i32> for TextColor {
    open spec fn obeys_from_spec() -> bool {
        true
    }

    open spec fn from_spec(color: i32) -> TextColor {
        TextColor::Hex(color as u32)
    }
}

impl From<(u8, u8, u8)> for TextColor {
    fn from(color: (u8, u8, u8)) -> (r: TextColor) {
        TextColor::from_rgb(color.0, color.1, color.2)
    }
}

impl FromSpecImpl<(u8, u8, u8)> for TextColor {
    open spec fn obeys_from_spec() -> bool {
        true
    }

    open spec fn from_spec(color: (u8, u8, u8)) -> TextColor {
        TextColor::Hex(rgb_value(color.0, color.1, color.2))
    }
}

impl From<[u8; 3]> for TextColor {
    fn from(color: [u8; 3]) -> (r: TextColor) {
        TextColor::from_rgb(color[0], color[1], color[2])
    }
}

impl FromSpecImpl<[u8; 3]> for TextColor {
    open spec fn obeys_from_spec() -> bool {
        true
    }

    open spec fn from_spec(color: [u8; 3]) -> TextColor {
        TextColor::Hex(rgb_value(color@[0], color@[1], color@[2]))
    }
}

/// Builds a component step by step.
#[derive(Debug)]
pub struct TextBuilder {
    inner: Text,
}

impl View for TextBuilder {
    type V = Text;

    closed spec fn view(&self) -> Text {
        self.inner
    }
}

impl TextBuilder {
    /// A builder for a component showing `content`.
    pub fn new(content: TextContent) -> (r: TextBuilder)
        ensures
            is_plain_text(r@, content),
    {
        TextBuilder { inner: Text::new(content) }
    }

    /// Adds a child.
    pub fn extra(self, extra: Text) -> (r: TextBuilder)
        ensures
            r@ == (Text { extra: r@.extra, ..self@ }),
            r@.extra@ == self@.extra@.push(extra),
    {
        let mut b = self;
        b.inner.extra.push(extra);
        b
    }

    /// Adds a child in place.
    pub fn add_extra(&mut self, extra: Text) -> (r: &mut TextBuilder)
        ensures
            (*r)@ == (Text { extra: (*r)@.extra, ..old(self)@ }),
            (*r)@.extra@ == old(self)@.extra@.push(extra),
            *final(self) == *final(r),
    {
        self.inner.extra.push(extra);
        self
    }

    /// Adds children, in order.
    pub fn extras(self, extras: Vec<Text>) -> (r: TextBuilder)
        ensures
            r@ == (Text { extra: r@.extra, ..self@ }),
            r@.extra@ == self@.extra@ + extras@,
    {
        let mut b = self;
        let mut extras = extras;
        b.inner.extra.append(&mut extras);
        b
    }

    /// Adds children in place, in order.
    pub fn add_extras(&mut self, extras: Vec<Text>) -> (r: &mut TextBuilder)
        ensures
            (*r)@ == (Text { extra: (*r)@.extra, ..old(self)@ }),
            (*r)@.extra@ == old(self)@.extra@ + extras@,
            *final(self) == *final(r),
    {
        let mut extras = extras;
        self.inner.extra.append(&mut extras);
        self
    }

    /// Sets the style.
    pub fn style(self, style: Style) -> (r: TextBuilder)
        ensures
            r@ == (Text { style, ..self@ }),
    {
        let mut b = self;
        b.inner.style = style;
        b
    }

    /// Sets the text inserted on shift-click.
    pub fn insertion(self, insertion: String) -> (r: TextBuilder)
        ensures
            r@ == (Text { insertion: Some(insertion), ..self@ }),
    {
        let mut b = self;
        b.inner.insertion = Some(insertion);
        b
    }

    /// Sets the click event.
    pub fn click_event(self, action: ClickAction, value: String) -> (r: TextBuilder)
        ensures
            r@ == (Text { click_event: Some(ClickEvent { action, value }), ..self@ }),
    {
        let mut b = self;
        b.inner.click_event = Some(ClickEvent { action, value });
        b
    }

    /// Sets the hover event.
    pub fn hover_event(self, event: HoverEvent) -> (r: TextBuilder)
        ensures
            r@ == (Text { hover_event: Some(event), ..self@ }),
    {
        let mut b = self;
        b.inner.hover_event = Some(event);
        b
    }

    /// The component built.
    pub fn build(self) -> (r: Text)
        ensures
            r == self@,
    {
        self.inner
    }
}

impl From<TextBuilder> for Text {
    fn from(builder: TextBuilder) -> (r: Text) {
        builder.build()
    }
}

impl FromSpecImpl<TextBuilder> for Text {
    open spec fn obeys_from_spec() -> bool {
        true
    }

    open spec fn from_spec(builder: TextBuilder) -> Text {
        builder@
    }
}

impl From<TextContent> for Text {
    fn from(content: TextContent) -> (r: Text) {
        Text::new(content)
    }
}

impl FromSpecImpl<TextContent> for Text {
    open spec fn obeys_from_spec() -> bool {
        false
    }

    open spec fn from_spec(content: TextContent) -> Text {
        arbitrary()
    }
}

} // verus!
