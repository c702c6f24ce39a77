//! Porter-Duff compositing operators and artistic blend modes.

use vstd::prelude::*;

verus! {

#[derive(Debug, Clone, Copy, PartialEq, Eq, Structural)]
pub enum CompositeOp {
    Clear,
    Source,
    Destination,
    SourceOver,
    DestinationOver,
    SourceIn,
    DestinationIn,
    SourceOut,
    DestinationOut,
    SourceAtop,
    DestinationAtop,
    Xor,
    Lighter,
}

impl Default for CompositeOp {
    fn default() -> (r: Self)
        ensures
            r == CompositeOp::SourceOver,
    {
        CompositeOp::SourceOver
    }
}

#[derive(Debug, Clone, Copy, PartialEq, Eq, Structural)]
pub enum BlendMode {
    Normal,
    Multiply,
    Screen,
    Overlay,
    Darken,
    Lighten,
    ColorDodge,
    ColorBurn,
    HardLight,
    SoftLight,
    Difference,
    Exclusion,
}

impl Default for BlendMode {
    fn default() -> (r: Self)
        ensures
            r == BlendMode::Normal,
    {
        BlendMode::Normal
    }
}

/// A character with its ASCII capital letter, if it is one, made small.
pub open spec fn ascii_lower(c: char) -> char {
    if 'A' <= c <= 'Z' {
        ((c as u32) + 32) as char
    } else {
        c
    }
}

/// A text with its ASCII capitals made small; other characters stay.
pub open spec fn ascii_lower_text(s: Seq<char>) -> Seq<char> {
    Seq::new(s.len(), |i: int| ascii_lower(s[i]))
}

/// The blend mode a name selects, ignoring ASCII case, as the CSS `mix-blend-mode` keywords
/// (and the hyphenless spellings) write it.
pub open spec fn blend_mode_named(name: Seq<char>) -> Option<BlendMode> {
    let n = ascii_lower_text(name);
    if n == "normal"@ || n == "source-over"@ {
        Some(BlendMode::Normal)
    } else if n == "multiply"@ {
        Some(BlendMode::Multiply)
    } else if n == "screen"@ {
        Some(BlendMode::Screen)
    } else if n == "overlay"@ {
        Some(BlendMode::Overlay)
    } else if n == "darken"@ {
        Some(BlendMode::Darken)
    } else if n == "lighten"@ {
        Some(BlendMode::Lighten)
    } else if n == "color-dodge"@ || n == "colordodge"@ {
        Some(BlendMode::ColorDodge)
    } else if n == "color-burn"@ || n == "colorburn"@ {
        Some(BlendMode::ColorBurn)
    } else if n == "hard-light"@ || n == "hardlight"@ {
        Some(BlendMode::HardLight)
    } else if n == "soft-light"@ || n == "softlight"@ {
        Some(BlendMode::SoftLight)
    } else if n == "difference"@ {
        Some(BlendMode::Difference)
    } else if n == "exclusion"@ {
        Some(BlendMode::Exclusion)
    } else {
        None
    }
}

/// Whether `name`, with its ASCII capitals made small, is the text `word`.
fn lower_equals(name: &str, word: &str) -> (r: bool)
    ensures
        r == (ascii_lower_text(name@) == word@),
{
    let n = name.unicode_len();
    let m = word.unicode_len();
    if n != m {
        assert(ascii_lower_text(name@).len() != word@.len());
        return false;
    }
    let mut i: usize = 0;
    while i < n
        invariant
            n == name@.len(),
            m == word@.len(),
            n == m,
            i <= n,
            forall|k: int| 0 <= k < i ==> ascii_lower(name@[k]) == word@[k],
        decreases n - i,
    {
        let c = name.get_char(i);
        let lower = if 'A' <= c && c <= 'Z' {
            ((c as u8) + 32) as char
        } else {
            c
        };
        assert(lower == ascii_lower(c));
        if lower != word.get_char(i) {
            assert(ascii_lower_text(name@)[i as int] != word@[i as int]);
            return false;
        }
        i = i + 1;
    }
    assert(ascii_lower_text(name@) =~= word@);
    true
}

impl BlendMode {
    /// The blend mode of a CSS-style name, ignoring ASCII case.
    pub fn from_name(name: &str) -> (r: Option<Self>)
        ensures
            r == blend_mode_named(name@),
    {
        if lower_equals(name, "normal") || lower_equals(name, "source-over") {
            Some(Self::Normal)
        } else if lower_equals(name, "multiply") {
            Some(Self::Multiply)
        } else if lower_equals(name, "screen") {
            Some(Self::Screen)
        } else if lower_equals(name, "overlay") {
            Some(Self::Overlay)
        } else if lower_equals(name, "darken") {
            Some(Self::Darken)
        } else if lower_equals(name, "lighten") {
            Some(Self::Lighten)
        } else if lower_equals(name, "color-dodge") || lower_equals(name, "colordodge") {
            Some(Self::ColorDodge)
        } else if lower_equals(name, "color-burn") || lower_equals(name, "colorburn") {
            Some(Self::ColorBurn)
        } else if lower_equals(name, "hard-light") || lower_equals(name, "hardlight") {
            Some(Self::HardLight)
        } else if lower_equals(name, "soft-light") || lower_equals(name, "softlight") {
            Some(Self::SoftLight)
        } else if lower_equals(name, "difference") {
            Some(Self::Difference)
        } else if lower_equals(name, "exclusion") {
            Some(Self::Exclusion)
        } else {
            None
        }
    }
}


/// Names are matched without regard to ASCII case: a name selects the same blend mode as its
/// small-letter spelling.
pub proof fn law_blend_names_ignore_case(name: Seq<char>)
    ensures
        blend_mode_named(name) == blend_mode_named(ascii_lower_text(name)),
{
    assert(ascii_lower_text(ascii_lower_text(name)) =~= ascii_lower_text(name));
}

/// Each CSS `mix-blend-mode` keyword selects the blend mode of the same name: "darken"
/// selects darkening, "lighten" lightening, and so on through the table, with the
/// hyphenless spellings selecting the same modes.
pub proof fn law_blend_keywords()
    ensures
        blend_mode_named("normal"@) == Some(BlendMode::Normal),
        blend_mode_named("source-over"@) == Some(BlendMode::Normal),
        blend_mode_named("multiply"@) == Some(BlendMode::Multiply),
        blend_mode_named("screen"@) == Some(BlendMode::Screen),
        blend_mode_named("overlay"@) == Some(BlendMode::Overlay),
        blend_mode_named("darken"@) == Some(BlendMode::Darken),
        blend_mode_named("lighten"@) == Some(BlendMode::Lighten),
        blend_mode_named("color-dodge"@) == Some(BlendMode::ColorDodge),
        blend_mode_named("colordodge"@) == Some(BlendMode::ColorDodge),
        blend_mode_named("color-burn"@) == Some(BlendMode::ColorBurn),
        blend_mode_named("colorburn"@) == Some(BlendMode::ColorBurn),
        blend_mode_named("hard-light"@) == Some(BlendMode::HardLight),
        blend_mode_named("hardlight"@) == Some(BlendMode::HardLight),
        blend_mode_named("soft-light"@) == Some(BlendMode::SoftLight),
        blend_mode_named("softlight"@) == Some(BlendMode::SoftLight),
        blend_mode_named("difference"@) == Some(BlendMode::Difference),
        blend_mode_named("exclusion"@) == Some(BlendMode::Exclusion),
{
    reveal_strlit("normal");
    reveal_strlit("source-over");
    reveal_strlit("multiply");
    reveal_strlit("screen");
    reveal_strlit("overlay");
    reveal_strlit("darken");
    reveal_strlit("lighten");
    reveal_strlit("color-dodge");
    reveal_strlit("colordodge");
    reveal_strlit("color-burn");
    reveal_strlit("colorburn");
    reveal_strlit("hard-light");
    reveal_strlit("hardlight");
    reveal_strlit("soft-light");
    reveal_strlit("softlight");
    reveal_strlit("difference");
    reveal_strlit("exclusion");
    assert(ascii_lower_text("normal"@) =~= "normal"@);
    assert(ascii_lower_text("source-over"@) =~= "source-over"@);
    assert(ascii_lower_text("multiply"@) =~= "multiply"@);
    assert(ascii_lower_text("screen"@) =~= "screen"@);
    assert(ascii_lower_text("overlay"@) =~= "overlay"@);
    assert(ascii_lower_text("darken"@) =~= "darken"@);
    assert(ascii_lower_text("lighten"@) =~= "lighten"@);
    assert(ascii_lower_text("color-dodge"@) =~= "color-dodge"@);
    assert(ascii_lower_text("colordodge"@) =~= "colordodge"@);
    assert(ascii_lower_text("color-burn"@) =~= "color-burn"@);
    assert(ascii_lower_text("colorburn"@) =~= "colorburn"@);
    assert(ascii_lower_text("hard-light"@) =~= "hard-light"@);
    assert(ascii_lower_text("hardlight"@) =~= "hardlight"@);
    assert(ascii_lower_text("soft-light"@) =~= "soft-light"@);
    assert(ascii_lower_text("softlight"@) =~= "softlight"@);
    assert(ascii_lower_text("difference"@) =~= "difference"@);
    assert(ascii_lower_text("exclusion"@) =~= "exclusion"@);
    assert("screen"@[0] != "normal"@[0]);
    assert("darken"@[0] != "normal"@[0]);
    assert("darken"@[0] != "screen"@[0]);
    assert("lighten"@[0] != "overlay"@[0]);
    assert("color-dodge"@[0] != "source-over"@[0]);
    assert("color-burn"@[5] != "colordodge"@[5]);
    assert("hard-light"@[0] != "colordodge"@[0]);
    assert("hard-light"@[0] != "color-burn"@[0]);
    assert("hardlight"@[0] != "colorburn"@[0]);
    assert("soft-light"@[0] != "colordodge"@[0]);
    assert("soft-light"@[0] != "color-burn"@[0]);
    assert("soft-light"@[0] != "hard-light"@[0]);
    assert("softlight"@[0] != "colorburn"@[0]);
    assert("softlight"@[0] != "hardlight"@[0]);
    assert("difference"@[0] != "colordodge"@[0]);
    assert("difference"@[0] != "color-burn"@[0]);
    assert("difference"@[0] != "hard-light"@[0]);
    assert("difference"@[0] != "soft-light"@[0]);
    assert("exclusion"@[0] != "colorburn"@[0]);
    assert("exclusion"@[0] != "hardlight"@[0]);
    assert("exclusion"@[0] != "softlight"@[0]);
}

} // verus!
