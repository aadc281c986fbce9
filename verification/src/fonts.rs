//! The code fonts the user can pick, their display names, and the glyph each
//! uses to mark a line end in the visible-whitespace layer.

use vstd::prelude::*;

verus! {

#[derive(Debug, Clone, Copy, PartialEq, Eq, Structural)]
pub enum CodeFont {
    JetBrainsMono,
    FiraCode,
    CascadiaCode,
    NotoSansMono,
}

impl Default for CodeFont {
    fn default() -> (f: CodeFont)
        ensures
            f == CodeFont::JetBrainsMono,
    {
        CodeFont::JetBrainsMono
    }
}

/// `⏎` (U+23CE) where the font ships it.
pub const RETURN_SYMBOL: u32 = 0x23ce;

/// `¶` (U+00B6), for fonts without U+23CE.
pub const PILCROW: u32 = 0x00b6;

impl CodeFont {
    /// The name shown in the preferences.
    pub fn label(self) -> (s: &'static str)
        ensures
            s@ == match self {
                CodeFont::JetBrainsMono => "JetBrains Mono"@,
                CodeFont::FiraCode => "Fira Code"@,
                CodeFont::CascadiaCode => "Cascadia Code"@,
                CodeFont::NotoSansMono => "Noto Sans Mono"@,
            },
    {
        match self {
            CodeFont::JetBrainsMono => "JetBrains Mono",
            CodeFont::FiraCode => "Fira Code",
            CodeFont::CascadiaCode => "Cascadia Code",
            CodeFont::NotoSansMono => "Noto Sans Mono",
        }
    }

    /// Code point of the line-end marker: `¶` for Noto Sans Mono, whose
    /// arrows block stops at U+2195, `⏎` for the others.
    pub fn eol_codepoint(self) -> (cp: u32)
        ensures
            cp == if self == CodeFont::NotoSansMono {
                PILCROW
            } else {
                RETURN_SYMBOL
            },
    {
        match self {
            CodeFont::NotoSansMono => PILCROW,
            _ => RETURN_SYMBOL,
        }
    }
}

/// Every code font, in menu order.
pub fn all_fonts() -> (v: Vec<CodeFont>)
    ensures
        v@ == seq![
            CodeFont::JetBrainsMono,
            CodeFont::FiraCode,
            CodeFont::CascadiaCode,
            CodeFont::NotoSansMono,
        ],
{
    let mut v: Vec<CodeFont> = Vec::new();
    v.push(CodeFont::JetBrainsMono);
    v.push(CodeFont::FiraCode);
    v.push(CodeFont::CascadiaCode);
    v.push(CodeFont::NotoSansMono);
    proof {
        assert(v@ =~= seq![
            CodeFont::JetBrainsMono,
            CodeFont::FiraCode,
            CodeFont::CascadiaCode,
            CodeFont::NotoSansMono,
        ]);
    }
    v
}

} // verus!
