//! The events that a tokenizer hands the tree builder.
use vstd::prelude::*;

verus! {

/// The kind of a parse event.
#[derive(Debug, Clone, Copy, PartialEq, Eq, Structural)]
pub enum Rule {
    /// `<!doctype ...>`, only ever as the first top-level event
    Doctype,
    /// An element; its parts are its inner events
    NodeElement,
    /// A run of text
    NodeText,
    /// A comment; its single inner event holds the content
    NodeComment,
    /// The name of a normal element
    ElName,
    /// The name of a void element
    ElVoidName,
    /// A raw text element (`<script>`, `<style>`); its parts are its inner events
    ElRawText,
    /// The name of a raw text element
    ElRawTextName,
    /// The content of a raw text element
    ElRawTextContent,
    /// The closing tag of a raw text element
    ElRawTextEnd,
    /// The closing tag of a normal element
    ElNormalEnd,
    /// A closing tag without an opening one
    ElDangling,
    /// An attribute; its parts are its inner events
    Attr,
    /// The key of an attribute
    AttrKey,
    /// An unquoted attribute value
    AttrNonQuoted,
    /// A quoted attribute value; its single inner event is the value
    AttrQuoted,
    /// The text between the quotes of an attribute value
    AttrValue,
    /// The end of the input
    Eoi,
}

/// A typed, positioned unit of the input: its kind, the text it spans, its
/// nested events in order, and its 1-based start and end positions.
#[derive(Debug)]
pub struct Event {
    pub rule: Rule,
    pub text: String,
    pub inner: Vec<Event>,
    pub start_line: usize,
    pub end_line: usize,
    pub start_column: usize,
    pub end_column: usize,
}

/// The name of an event kind, as it appears in messages.
pub open spec fn rule_name(r: Rule) -> Seq<char> {
    match r {
        Rule::Doctype => "doctype"@,
        Rule::NodeElement => "node_element"@,
        Rule::NodeText => "node_text"@,
        Rule::NodeComment => "node_comment"@,
        Rule::ElName => "el_name"@,
        Rule::ElVoidName => "el_void_name"@,
        Rule::ElRawText => "el_raw_text"@,
        Rule::ElRawTextName => "el_raw_text_name"@,
        Rule::ElRawTextContent => "el_raw_text_content"@,
        Rule::ElRawTextEnd => "el_raw_text_end"@,
        Rule::ElNormalEnd => "el_normal_end"@,
        Rule::ElDangling => "el_dangling"@,
        Rule::Attr => "attr"@,
        Rule::AttrKey => "attr_key"@,
        Rule::AttrNonQuoted => "attr_non_quoted"@,
        Rule::AttrQuoted => "attr_quoted"@,
        Rule::AttrValue => "attr_value"@,
        Rule::Eoi => "EOI"@,
    }
}

impl Rule {
    /// The name of this event kind, as it appears in messages.
    pub fn name(&self) -> (r: &'static str)
        ensures
            r@ == rule_name(*self),
    {
        match self {
            Rule::Doctype => "doctype",
            Rule::NodeElement => "node_element",
            Rule::NodeText => "node_text",
            Rule::NodeComment => "node_comment",
            Rule::ElName => "el_name",
            Rule::ElVoidName => "el_void_name",
            Rule::ElRawText => "el_raw_text",
            Rule::ElRawTextName => "el_raw_text_name",
            Rule::ElRawTextContent => "el_raw_text_content",
            Rule::ElRawTextEnd => "el_raw_text_end",
            Rule::ElNormalEnd => "el_normal_end",
            Rule::ElDangling => "el_dangling",
            Rule::Attr => "attr",
            Rule::AttrKey => "attr_key",
            Rule::AttrNonQuoted => "attr_non_quoted",
            Rule::AttrQuoted => "attr_quoted",
            Rule::AttrValue => "attr_value",
            Rule::Eoi => "EOI",
        }
    }
}

/// The content of a comment event: the text of its first inner event.
pub open spec fn comment_text(ev: Event) -> Seq<char> {
    if ev.inner@.len() > 0 {
        ev.inner@[0].text@
    } else {
        Seq::empty()
    }
}

impl Event {
    /// The content of a comment event.
    pub fn comment_content(&self) -> (r: String)
        ensures
            r@ == comment_text(*self),
    {
        if self.inner.len() > 0 {
            self.inner[0].text.clone()
        } else {
            String::new()
        }
    }
}

} // verus!
