use vstd::prelude::*;

verus! {

/// The tags that the span classifier attaches to the spans it recognises.
#[derive(Clone, Copy, Debug, PartialEq, Eq, Structural, Hash)]
pub enum Rule {
    Document,
    Paragraph,
    Verbatim,
    Header,
    HeaderMarker,
    BulletList,
    OrderedList,
    ListTight,
    ListLoose,
    ListItem,
    ListItemTight,
    ListIndex,
    DashBullet,
    StarBullet,
    PlusBullet,
    FencedCodeblock,
    IndentedCodeblock,
    InfoStringLanguage,
    Emphasis,
    Strong,
    Label,
    Link,
    LinkDestination,
    LinkTitle,
    Reference,
    Image,
    Code,
    Str,
    Space,
    Symbol,
    EscapedSpecialChar,
    Source,
    NonSpace,
    LinebreakLiteral,
    Linebreak,
    NormalEndline,
    BlockquoteLinebreak,
    Eoi,
}

impl Rule {
    /// Plaintext-class tags: runs of these are merged into a single text node.
    pub open spec fn plaintext(self) -> bool {
        self == Rule::Str || self == Rule::Symbol || self == Rule::EscapedSpecialChar
            || self == Rule::Source || self == Rule::Space || self == Rule::NonSpace
    }

    pub fn is_plaintext(&self) -> (r: bool)
        ensures
            r == self.plaintext(),
    {
        match self {
            Rule::Str | Rule::Symbol | Rule::EscapedSpecialChar | Rule::Source | Rule::Space
            | Rule::NonSpace => true,
            _ => false,
        }
    }

    /// The tag's name, as it appears in diagnostics.
    pub open spec fn spec_name(self) -> Seq<char> {
        match self {
            Rule::Document => "document"@,
            Rule::Paragraph => "paragraph"@,
            Rule::Verbatim => "verbatim"@,
            Rule::Header => "header"@,
            Rule::HeaderMarker => "header_marker"@,
            Rule::BulletList => "bullet_list"@,
            Rule::OrderedList => "ordered_list"@,
            Rule::ListTight => "list_tight"@,
            Rule::ListLoose => "list_loose"@,
            Rule::ListItem => "list_item"@,
            Rule::ListItemTight => "list_item_tight"@,
            Rule::ListIndex => "list_index"@,
            Rule::DashBullet => "dash_bullet"@,
            Rule::StarBullet => "star_bullet"@,
            Rule::PlusBullet => "plus_bullet"@,
            Rule::FencedCodeblock => "fenced_codeblock"@,
            Rule::IndentedCodeblock => "indented_codeblock"@,
            Rule::InfoStringLanguage => "info_string_language"@,
            Rule::Emphasis => "emphasis"@,
            Rule::Strong => "strong"@,
            Rule::Label => "label"@,
            Rule::Link => "link"@,
            Rule::LinkDestination => "link_destination"@,
            Rule::LinkTitle => "link_title"@,
            Rule::Reference => "reference"@,
            Rule::Image => "image"@,
            Rule::Code => "code"@,
            Rule::Str => "str"@,
            Rule::Space => "space"@,
            Rule::Symbol => "symbol"@,
            Rule::EscapedSpecialChar => "escaped_special_char"@,
            Rule::Source => "source"@,
            Rule::NonSpace => "non_space"@,
            Rule::LinebreakLiteral => "linebreak_literal"@,
            Rule::Linebreak => "linebreak"@,
            Rule::NormalEndline => "normal_endline"@,
            Rule::BlockquoteLinebreak => "blockquote_linebreak"@,
            Rule::Eoi => "EOI"@,
        }
    }

    /// The tag's name, as it appears in diagnostics.
    pub fn name(&self) -> (r: &'static str)
        ensures
            r@ == self.spec_name(),
    {
        match self {
            Rule::Document => "document",
            Rule::Paragraph => "paragraph",
            Rule::Verbatim => "verbatim",
            Rule::Header => "header",
            Rule::HeaderMarker => "header_marker",
            Rule::BulletList => "bullet_list",
            Rule::OrderedList => "ordered_list",
            Rule::ListTight => "list_tight",
            Rule::ListLoose => "list_loose",
            Rule::ListItem => "list_item",
            Rule::ListItemTight => "list_item_tight",
            Rule::ListIndex => "list_index",
            Rule::DashBullet => "dash_bullet",
            Rule::StarBullet => "star_bullet",
            Rule::PlusBullet => "plus_bullet",
            Rule::FencedCodeblock => "fenced_codeblock",
            Rule::IndentedCodeblock => "indented_codeblock",
            Rule::InfoStringLanguage => "info_string_language",
            Rule::Emphasis => "emphasis",
            Rule::Strong => "strong",
            Rule::Label => "label",
            Rule::Link => "link",
            Rule::LinkDestination => "link_destination",
            Rule::LinkTitle => "link_title",
            Rule::Reference => "reference",
            Rule::Image => "image",
            Rule::Code => "code",
            Rule::Str => "str",
            Rule::Space => "space",
            Rule::Symbol => "symbol",
            Rule::EscapedSpecialChar => "escaped_special_char",
            Rule::Source => "source",
            Rule::NonSpace => "non_space",
            Rule::LinebreakLiteral => "linebreak_literal",
            Rule::Linebreak => "linebreak",
            Rule::NormalEndline => "normal_endline",
            Rule::BlockquoteLinebreak => "blockquote_linebreak",
            Rule::Eoi => "EOI",
        }
    }
}

} // verus!
