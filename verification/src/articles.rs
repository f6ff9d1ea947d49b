//! Native article identities whose item logic is stateful and therefore
//! kept out of generic projectile handling.

use vstd::prelude::*;

verus! {

/// A native article (item or projectile) identity.
#[derive(Clone, Copy, Debug, PartialEq, Eq, Structural, Hash)]
pub struct ArticleId(pub u16);

/// Peach articles with stateful native item logic.
pub fn peach_native_article(id: ArticleId) -> (r: Option<&'static str>)
    ensures
        match id.0 {
            98 => r matches Some(s) && s@ == "Bomber explosion"@,
            99 => r matches Some(s) && s@ == "turnip"@,
            103 => r matches Some(s) && s@ == "parasol"@,
            104 => r matches Some(s) && s@ == "Toad"@,
            111 => r matches Some(s) && s@ == "Toad spore"@,
            _ => r is None,
        },
{
    match id.0 {
        98 => Some("Bomber explosion"),
        99 => Some("turnip"),
        103 => Some("parasol"),
        104 => Some("Toad"),
        111 => Some("Toad spore"),
        _ => None,
    }
}

/// Link and Young Link articles have stateful native item logic
/// (attachment, return and stick states, pickup, bomb fuses); they are not
/// generic gravity projectiles.
pub fn link_native_article(id: ArticleId) -> (r: Option<&'static str>)
    ensures
        (58 <= id.0 <= 65) == (r is Some),
        match id.0 {
            58 => r matches Some(s) && s@ == "bomb"@,
            59 => r matches Some(s) && s@ == "Young Link bomb"@,
            60 => r matches Some(s) && s@ == "boomerang"@,
            61 => r matches Some(s) && s@ == "Young Link boomerang"@,
            62 => r matches Some(s) && s@ == "hookshot"@,
            63 => r matches Some(s) && s@ == "Young Link hookshot"@,
            64 => r matches Some(s) && s@ == "arrow"@,
            65 => r matches Some(s) && s@ == "Young Link fire arrow"@,
            _ => r is None,
        },
{
    match id.0 {
        58 => Some("bomb"),
        59 => Some("Young Link bomb"),
        60 => Some("boomerang"),
        61 => Some("Young Link boomerang"),
        62 => Some("hookshot"),
        63 => Some("Young Link hookshot"),
        64 => Some("arrow"),
        65 => Some("Young Link fire arrow"),
        _ => None,
    }
}

} // verus!
