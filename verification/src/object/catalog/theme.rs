//! Semantic theme token table: which tokens exist and what they resolve to.
//! A static light/dark RGBA lookup over a fixed set of kebab-case names.

use vstd::prelude::*;

use crate::text::str_eq;

verus! {

#[derive(Clone, Copy, Debug, PartialEq, Eq, Hash, Structural)]
pub enum Token {
    CanvasBg,
    Surface,
    SurfaceMuted,
    DefaultFill,
    DefaultStroke,
    Text,
    Shadow,
    SelectionRing,
    Material,
    Hairline,
    Hover,
    AccentSoft,
    TextSecondary,
}

pub const ALL_TOKENS: [Token; 13] = [
    Token::CanvasBg,
    Token::Surface,
    Token::SurfaceMuted,
    Token::DefaultFill,
    Token::DefaultStroke,
    Token::Text,
    Token::Shadow,
    Token::SelectionRing,
    Token::Material,
    Token::Hairline,
    Token::Hover,
    Token::AccentSoft,
    Token::TextSecondary,
];

/// The kebab-case wire name of a token.
pub open spec fn token_name(t: Token) -> Seq<char> {
    match t {
        Token::CanvasBg => "canvas-bg"@,
        Token::Surface => "surface"@,
        Token::SurfaceMuted => "surface-muted"@,
        Token::DefaultFill => "default-fill"@,
        Token::DefaultStroke => "default-stroke"@,
        Token::Text => "text"@,
        Token::Shadow => "shadow"@,
        Token::SelectionRing => "selection-ring"@,
        Token::Material => "material"@,
        Token::Hairline => "hairline"@,
        Token::Hover => "hover"@,
        Token::AccentSoft => "accent-soft"@,
        Token::TextSecondary => "text-secondary"@,
    }
}

/// The token of a wire name: the first in `ALL_TOKENS` order whose name matches.
pub open spec fn token_of_name(name: Seq<char>) -> Option<Token> {
    if name == token_name(Token::CanvasBg) {
        Some(Token::CanvasBg)
    } else if name == token_name(Token::Surface) {
        Some(Token::Surface)
    } else if name == token_name(Token::SurfaceMuted) {
        Some(Token::SurfaceMuted)
    } else if name == token_name(Token::DefaultFill) {
        Some(Token::DefaultFill)
    } else if name == token_name(Token::DefaultStroke) {
        Some(Token::DefaultStroke)
    } else if name == token_name(Token::Text) {
        Some(Token::Text)
    } else if name == token_name(Token::Shadow) {
        Some(Token::Shadow)
    } else if name == token_name(Token::SelectionRing) {
        Some(Token::SelectionRing)
    } else if name == token_name(Token::Material) {
        Some(Token::Material)
    } else if name == token_name(Token::Hairline) {
        Some(Token::Hairline)
    } else if name == token_name(Token::Hover) {
        Some(Token::Hover)
    } else if name == token_name(Token::AccentSoft) {
        Some(Token::AccentSoft)
    } else if name == token_name(Token::TextSecondary) {
        Some(Token::TextSecondary)
    } else {
        None
    }
}

/// RGBA (`[r, g, b, a]`) of a token in light (`dark == false`) or dark mode.
pub open spec fn token_rgba(t: Token, dark: bool) -> Seq<u8> {
    match (t, dark) {
        (Token::CanvasBg, false) => seq![0xf5u8, 0xf5, 0xf7, 0xff],
        (Token::CanvasBg, true) => seq![0x1eu8, 0x1e, 0x20, 0xff],
        (Token::Surface, false) => seq![0xffu8, 0xff, 0xff, 0xff],
        (Token::Surface, true) => seq![0x2cu8, 0x2c, 0x2e, 0xff],
        (Token::SurfaceMuted, false) => seq![0xe9u8, 0xe9, 0xeb, 0xff],
        (Token::SurfaceMuted, true) => seq![0x3au8, 0x3a, 0x3c, 0xff],
        (Token::DefaultFill, false) => seq![0xffu8, 0xff, 0xff, 0xff],
        (Token::DefaultFill, true) => seq![0x2cu8, 0x2c, 0x2e, 0xff],
        (Token::DefaultStroke, false) => seq![0xc6u8, 0xc6, 0xc8, 0xff],
        (Token::DefaultStroke, true) => seq![0x54u8, 0x54, 0x56, 0xff],
        (Token::Text, false) => seq![0x1du8, 0x1d, 0x1f, 0xff],
        (Token::Text, true) => seq![0xf5u8, 0xf5, 0xf7, 0xff],
        (Token::Shadow, false) => seq![0x00u8, 0x00, 0x00, 0x40],
        (Token::Shadow, true) => seq![0xffu8, 0xff, 0xff, 0x66],
        (Token::SelectionRing, false) => seq![0x00u8, 0x7a, 0xff, 0xff],
        (Token::SelectionRing, true) => seq![0x0au8, 0x84, 0xff, 0xff],
        (Token::Material, false) => seq![0xf7u8, 0xf7, 0xf9, 0xe6],
        (Token::Material, true) => seq![0x2cu8, 0x2c, 0x2e, 0xe6],
        (Token::Hairline, false) => seq![0x00u8, 0x00, 0x00, 0x1f],
        (Token::Hairline, true) => seq![0xffu8, 0xff, 0xff, 0x26],
        (Token::Hover, false) => seq![0x00u8, 0x00, 0x00, 0x14],
        (Token::Hover, true) => seq![0xffu8, 0xff, 0xff, 0x1f],
        (Token::AccentSoft, false) => seq![0x00u8, 0x7a, 0xff, 0x26],
        (Token::AccentSoft, true) => seq![0x0au8, 0x84, 0xff, 0x3d],
        (Token::TextSecondary, false) => seq![0x8au8, 0x8a, 0x8e, 0xff],
        (Token::TextSecondary, true) => seq![0x98u8, 0x98, 0x9d, 0xff],
    }
}

impl Token {
    /// The kebab-case wire name.
    pub fn name(self) -> (r: &'static str)
        ensures
            r@ == token_name(self),
    {
        match self {
            Token::CanvasBg => "canvas-bg",
            Token::Surface => "surface",
            Token::SurfaceMuted => "surface-muted",
            Token::DefaultFill => "default-fill",
            Token::DefaultStroke => "default-stroke",
            Token::Text => "text",
            Token::Shadow => "shadow",
            Token::SelectionRing => "selection-ring",
            Token::Material => "material",
            Token::Hairline => "hairline",
            Token::Hover => "hover",
            Token::AccentSoft => "accent-soft",
            Token::TextSecondary => "text-secondary",
        }
    }

    /// The token with this wire name, searched in `ALL_TOKENS` order.
    pub fn from_name(name: &str) -> (r: Option<Token>)
        ensures
            r == token_of_name(name@),
    {
        let mut i: usize = 0;
        while i < 13
            invariant
                i <= 13,
                forall|k: int| 0 <= k < i ==> name@ != token_name(#[trigger] ALL_TOKENS@[k]),
            decreases 13 - i,
        {
            let t = ALL_TOKENS[i];
            if str_eq(t.name(), name) {
                return Some(t);
            }
            i = i + 1;
        }
        None
    }

    /// RGBA (`[r, g, b, a]`, 0..=255) in the given mode.
    pub fn rgba(self, dark: bool) -> (r: [u8; 4])
        ensures
            r@ == token_rgba(self, dark),
    {
        let r: [u8; 4] = match (self, dark) {
            (Token::CanvasBg, false) => [0xf5, 0xf5, 0xf7, 0xff],
            (Token::CanvasBg, true) => [0x1e, 0x1e, 0x20, 0xff],
            (Token::Surface, false) => [0xff, 0xff, 0xff, 0xff],
            (Token::Surface, true) => [0x2c, 0x2c, 0x2e, 0xff],
            (Token::SurfaceMuted, false) => [0xe9, 0xe9, 0xeb, 0xff],
            (Token::SurfaceMuted, true) => [0x3a, 0x3a, 0x3c, 0xff],
            (Token::DefaultFill, false) => [0xff, 0xff, 0xff, 0xff],
            (Token::DefaultFill, true) => [0x2c, 0x2c, 0x2e, 0xff],
            (Token::DefaultStroke, false) => [0xc6, 0xc6, 0xc8, 0xff],
            (Token::DefaultStroke, true) => [0x54, 0x54, 0x56, 0xff],
            (Token::Text, false) => [0x1d, 0x1d, 0x1f, 0xff],
            (Token::Text, true) => [0xf5, 0xf5, 0xf7, 0xff],
            (Token::Shadow, false) => [0x00, 0x00, 0x00, 0x40],
            (Token::Shadow, true) => [0xff, 0xff, 0xff, 0x66],
            (Token::SelectionRing, false) => [0x00, 0x7a, 0xff, 0xff],
            (Token::SelectionRing, true) => [0x0a, 0x84, 0xff, 0xff],
            (Token::Material, false) => [0xf7, 0xf7, 0xf9, 0xe6],
            (Token::Material, true) => [0x2c, 0x2c, 0x2e, 0xe6],
            (Token::Hairline, false) => [0x00, 0x00, 0x00, 0x1f],
            (Token::Hairline, true) => [0xff, 0xff, 0xff, 0x26],
            (Token::Hover, false) => [0x00, 0x00, 0x00, 0x14],
            (Token::Hover, true) => [0xff, 0xff, 0xff, 0x1f],
            (Token::AccentSoft, false) => [0x00, 0x7a, 0xff, 0x26],
            (Token::AccentSoft, true) => [0x0a, 0x84, 0xff, 0x3d],
            (Token::TextSecondary, false) => [0x8a, 0x8a, 0x8e, 0xff],
            (Token::TextSecondary, true) => [0x98, 0x98, 0x9d, 0xff],
        };
        assert(r@ =~= token_rgba(self, dark));
        r
    }
}

/// RGBA of the token named `name` in the given mode, or `None` for an unknown name.
pub fn resolve_token(name: &str, dark: bool) -> (r: Option<[u8; 4]>)
    ensures
        match token_of_name(name@) {
            Some(t) => r matches Some(c) && c@ == token_rgba(t, dark),
            None => r is None,
        },
{
    match Token::from_name(name) {
        Some(t) => Some(t.rgba(dark)),
        None => None,
    }
}

/// Length and first character of every name: enough to tell them apart.
proof fn lemma_name_shapes()
    ensures
        token_name(Token::CanvasBg).len() == 9 && token_name(Token::CanvasBg)[0] == 'c',
        token_name(Token::Surface).len() == 7 && token_name(Token::Surface)[0] == 's',
        token_name(Token::SurfaceMuted).len() == 13 && token_name(Token::SurfaceMuted)[0] == 's',
        token_name(Token::DefaultFill).len() == 12 && token_name(Token::DefaultFill)[0] == 'd',
        token_name(Token::DefaultStroke).len() == 14 && token_name(Token::DefaultStroke)[0] == 'd',
        token_name(Token::Text).len() == 4 && token_name(Token::Text)[0] == 't',
        token_name(Token::Shadow).len() == 6 && token_name(Token::Shadow)[0] == 's',
        token_name(Token::SelectionRing).len() == 14 && token_name(Token::SelectionRing)[0] == 's',
        token_name(Token::Material).len() == 8 && token_name(Token::Material)[0] == 'm',
        token_name(Token::Hairline).len() == 8 && token_name(Token::Hairline)[0] == 'h',
        token_name(Token::Hover).len() == 5 && token_name(Token::Hover)[0] == 'h',
        token_name(Token::AccentSoft).len() == 11 && token_name(Token::AccentSoft)[0] == 'a',
        token_name(Token::TextSecondary).len() == 14 && token_name(Token::TextSecondary)[0] == 't',
{
    reveal_strlit("canvas-bg");
    assert(token_name(Token::CanvasBg).len() == 9 && token_name(Token::CanvasBg)[0] == 'c');
    reveal_strlit("surface");
    assert(token_name(Token::Surface).len() == 7 && token_name(Token::Surface)[0] == 's');
    reveal_strlit("surface-muted");
    assert(token_name(Token::SurfaceMuted).len() == 13 && token_name(Token::SurfaceMuted)[0] == 's');
    reveal_strlit("default-fill");
    assert(token_name(Token::DefaultFill).len() == 12 && token_name(Token::DefaultFill)[0] == 'd');
    reveal_strlit("default-stroke");
    assert(token_name(Token::DefaultStroke).len() == 14 && token_name(Token::DefaultStroke)[0] == 'd');
    reveal_strlit("text");
    assert(token_name(Token::Text).len() == 4 && token_name(Token::Text)[0] == 't');
    reveal_strlit("shadow");
    assert(token_name(Token::Shadow).len() == 6 && token_name(Token::Shadow)[0] == 's');
    reveal_strlit("selection-ring");
    assert(token_name(Token::SelectionRing).len() == 14 && token_name(Token::SelectionRing)[0] == 's');
    reveal_strlit("material");
    assert(token_name(Token::Material).len() == 8 && token_name(Token::Material)[0] == 'm');
    reveal_strlit("hairline");
    assert(token_name(Token::Hairline).len() == 8 && token_name(Token::Hairline)[0] == 'h');
    reveal_strlit("hover");
    assert(token_name(Token::Hover).len() == 5 && token_name(Token::Hover)[0] == 'h');
    reveal_strlit("accent-soft");
    assert(token_name(Token::AccentSoft).len() == 11 && token_name(Token::AccentSoft)[0] == 'a');
    reveal_strlit("text-secondary");
    assert(token_name(Token::TextSecondary).len() == 14 && token_name(Token::TextSecondary)[0] == 't');
}

/// Every token's name resolves back to that token: the names are distinct.
pub proof fn lemma_name_round_trip(t: Token)
    ensures
        token_of_name(token_name(t)) == Some(t),
{
    lemma_name_shapes();
}

/// The name lookup answers only token names, and no two tokens share a name:
/// `token_of_name(s)` is `Some(t)` exactly when `s` is `t`'s name.
pub proof fn lemma_name_lookup(s: Seq<char>, a: Token, b: Token)
    ensures
        token_of_name(s) matches Some(t) ==> token_name(t) == s,
        token_name(a) == token_name(b) ==> a == b,
        (token_of_name(s) == Some(a)) <==> (s == token_name(a)),
{
    lemma_name_round_trip(a);
    lemma_name_round_trip(b);
}

} // verus!
