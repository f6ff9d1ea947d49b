//! Linking of a fighter's article (projectile) resources: which behavior an
//! article id and resource kind select, and the field checks every linked
//! article passes.  Numbers are binary32 bit patterns.

use vstd::prelude::*;
use crate::articles::{link_native_article, peach_native_article, ArticleId};
use crate::float_bits::{
    lemma_bounded_encodings,
    f32_abs_within_million, f32_abs_within_million_exec, f32_is_finite, f32_is_finite_exec, f32_nonnegative,
    f32_nonnegative_exec, f32_whole_u32, f32_whole_value, f32_is_nan,
};
use crate::text::{concat2, concat3, decimal_string, decimal_text};

verus! {

/// The article Luigi's fireball must use.
pub const LUIGI_FIRE_ARTICLE: u16 = 105;
/// The native effect Luigi's fireball must use.
pub const LUIGI_FIRE_EFFECT: u32 = 1288;

/// The article ids the game's catalog assigns to the natively handled
/// projectiles.
#[derive(Clone, Copy, Debug, PartialEq, Eq, Structural)]
pub struct ArticleCatalog {
    pub mario_fire: ArticleId,
    pub fox_laser: ArticleId,
    pub falco_laser: ArticleId,
}

/// The checked fields of one hitbox.
#[derive(Clone, Copy, Debug, PartialEq, Eq, Structural)]
pub struct HitboxFields {
    pub center_x: u32,
    pub center_y: u32,
    pub center_z: u32,
    pub radius: u32,
    pub angle_degrees: u32,
    pub group: u32,
    pub damage: u32,
    pub shield_damage: i32,
    pub growth: u32,
    pub fixed: u32,
    pub base: u32,
}

/// The numeric fields of a gravity projectile.
#[derive(Clone, Copy, Debug, PartialEq, Eq, Structural)]
pub struct GravityFields {
    pub speed: u32,
    pub angle: u32,
    pub lifetime: u32,
    pub half_life: u32,
    pub gravity: u32,
    pub terminal_velocity: u32,
    pub surface_multiplier: u32,
    pub terrain_stop_speed: u32,
}

/// What an article resource declares, as far as linking reads it.
#[derive(Clone, Debug, PartialEq, Eq)]
pub enum ArticleResourceFields {
    Ray { lifetime: u32, hitboxes: Vec<HitboxFields> },
    Gravity { fields: GravityFields, hitboxes: Vec<HitboxFields> },
    MarioFireball { fields: GravityFields, hitboxes: Vec<HitboxFields> },
    LuigiFireball {
        speed: u32,
        lifetime: u32,
        gravity: u32,
        terminal_velocity: u32,
        terrain_stop_speed: u32,
        effect_id: u32,
        /// Whether the contact policy is the native source logic.
        native_contact: bool,
        hitboxes: Vec<HitboxFields>,
    },
}

#[derive(Clone, Copy, Debug, PartialEq, Eq, Structural)]
pub enum RayKind {
    FoxLaser,
    FalcoLaser,
}

/// The behavior an article links to; its fields are the resource's own
/// (Luigi's fireball takes angle `0`, half-life equal to its lifetime,
/// surface multiplier `1` and the reverse/bounce/despawn contact policy).
#[derive(Clone, Copy, Debug, PartialEq, Eq, Structural)]
pub enum ArticleLink {
    Ray(RayKind),
    Gravity,
    MarioFireball,
    LuigiFireball,
}

/// A finite number whose magnitude is at most one million.
pub open spec fn bounded(b: u32) -> bool {
    f32_is_finite(b) && f32_abs_within_million(b)
}

pub open spec fn hitbox_ok(h: HitboxFields) -> bool {
    &&& bounded(h.center_x) && bounded(h.center_y) && bounded(h.center_z)
    &&& f32_is_finite(h.radius) && f32_nonnegative(h.radius) && f32_abs_within_million(h.radius)
    &&& f32_is_finite(h.angle_degrees) && f32_nonnegative(h.angle_degrees)
    &&& f32_whole_value(h.angle_degrees) is Some && f32_whole_value(h.angle_degrees)->0 <= 362
    &&& h.group < 16
    &&& h.damage <= 999
    &&& -1000 <= h.shield_damage <= 1000
    &&& h.growth <= 1000 && h.fixed <= 1000 && h.base <= 1000
}

/// Why the lifetime and hitboxes of an article are refused, if they are.
pub open spec fn projectile_fault(path: Seq<char>, lifetime: u32, hitboxes: Seq<HitboxFields>) -> Option<Seq<char>> {
    if !(f32_is_finite(lifetime) && f32_nonnegative(lifetime)) {
        Some(path + " lifetime is invalid"@)
    } else if !(1 <= hitboxes.len() <= 4) {
        Some(path + " must contain 1..=4 hitboxes"@)
    } else if exists|i: int| 0 <= i < hitboxes.len() && !hitbox_ok(#[trigger] hitboxes[i]) {
        Some(path + " contains an invalid hitbox"@)
    } else {
        None
    }
}

/// Why the fields of a gravity projectile are refused, if they are.
pub open spec fn gravity_fault(path: Seq<char>, f: GravityFields, hitboxes: Seq<HitboxFields>) -> Option<Seq<char>> {
    if !(bounded(f.speed) && f32_nonnegative(f.speed)) {
        Some(path + " speed is invalid"@)
    } else if !bounded(f.angle) {
        Some(path + " angle is invalid"@)
    } else if !(bounded(f.half_life) && f32_nonnegative(f.half_life)) {
        Some(path + " half-life is invalid"@)
    } else if !(bounded(f.gravity) && bounded(f.terminal_velocity) && f32_nonnegative(f.terminal_velocity)) {
        Some(path + " gravity is invalid"@)
    } else if !(bounded(f.surface_multiplier) && f32_nonnegative(f.surface_multiplier)) {
        Some(path + " surface multiplier is invalid"@)
    } else if !(bounded(f.terrain_stop_speed) && f32_nonnegative(f.terrain_stop_speed)) {
        Some(path + " terrain stop speed is invalid"@)
    } else {
        projectile_fault(path, f.lifetime, hitboxes)
    }
}

/// Encoding of `0.0` and `1.0`.
pub const F32_ZERO_BITS: u32 = 0;
pub const F32_ONE_BITS: u32 = 0x3f80_0000;

/// The gravity fields Luigi's fireball is checked with.
pub open spec fn luigi_fields(speed: u32, lifetime: u32, gravity: u32, terminal_velocity: u32, terrain_stop_speed: u32) -> GravityFields {
    GravityFields {
        speed,
        angle: F32_ZERO_BITS,
        lifetime,
        half_life: lifetime,
        gravity,
        terminal_velocity,
        surface_multiplier: F32_ONE_BITS,
        terrain_stop_speed,
    }
}

pub open spec fn article_path(id: ArticleId) -> Seq<char> {
    "article "@ + decimal_text(id.0 as nat)
}

/// The behavior article `id` links to with resource `r`, or why it is
/// refused.
pub open spec fn article_link_of(catalog: ArticleCatalog, id: ArticleId, r: ArticleResourceFields) -> Result<ArticleLink, Seq<char>> {
    let path = article_path(id);
    if r is MarioFireball && id != catalog.mario_fire {
        Err("Mario fireball resource must use article id "@ + decimal_text(catalog.mario_fire.0 as nat) + ", got "@
            + decimal_text(id.0 as nat))
    } else {
        match r {
            ArticleResourceFields::Ray { lifetime, hitboxes } => {
                if id == catalog.fox_laser || id == catalog.falco_laser {
                    match projectile_fault(path, lifetime, hitboxes@) {
                        Some(m) => Err(m),
                        None => Ok(ArticleLink::Ray(if id == catalog.fox_laser { RayKind::FoxLaser } else { RayKind::FalcoLaser })),
                    }
                } else {
                    Err("unsupported ray article id "@ + decimal_text(id.0 as nat))
                }
            },
            ArticleResourceFields::Gravity { fields, hitboxes } | ArticleResourceFields::MarioFireball { fields, hitboxes } => {
                if 58 <= id.0 <= 65 {
                    Err("unsupported Link article "@ + link_article_name(id.0) + " id "@ + decimal_text(id.0 as nat))
                } else if peach_article_name(id.0) is Some {
                    Err("unsupported Peach article "@ + peach_article_name(id.0)->0 + " id "@ + decimal_text(id.0 as nat))
                } else {
                    match gravity_fault(path, fields, hitboxes@) {
                        Some(m) => Err(m),
                        None => Ok(if r is MarioFireball { ArticleLink::MarioFireball } else { ArticleLink::Gravity }),
                    }
                }
            },
            ArticleResourceFields::LuigiFireball {
                speed, lifetime, gravity, terminal_velocity, terrain_stop_speed, effect_id, native_contact, hitboxes,
            } => {
                if id.0 != LUIGI_FIRE_ARTICLE || effect_id != LUIGI_FIRE_EFFECT {
                    Err("Luigi fireball requires article 105 and native effect 1288"@)
                } else if !native_contact {
                    Err("unsupported Luigi fireball contact policy"@)
                } else {
                    match gravity_fault(path, luigi_fields(speed, lifetime, gravity, terminal_velocity, terrain_stop_speed), hitboxes@) {
                        Some(m) => Err(m),
                        None => Ok(ArticleLink::LuigiFireball),
                    }
                }
            },
        }
    }
}

/// A finite binary32 number of magnitude at most one million, on its
/// encoding.
pub open spec fn within_million_bits(b: u32) -> bool {
    (b as nat) % 0x8000_0000 <= 0x4974_2400
}

/// A number from zero to one million, on its encoding (`-0.0` included).
pub open spec fn zero_to_million_bits(b: u32) -> bool {
    b <= 0x4974_2400 || b == 0x8000_0000
}

/// A gravity projectile (or Mario's fireball) links only when its speed,
/// half-life, terminal velocity, surface multiplier and terrain stop speed
/// are numbers from zero to one million, its angle and gravity are at most
/// one million in magnitude, its lifetime is finite and not negative, and
/// it has one to four hitboxes; it then links to the behavior of its kind.
/// A negative half-life is refused with the half-life message whenever the
/// article is not refused for its id, its speed or its angle first.
pub proof fn law_gravity_fields_are_checked(catalog: ArticleCatalog, id: ArticleId, fields: GravityFields, hitboxes: Vec<HitboxFields>, mario: bool)
    ensures
        ({
            let r = if mario {
                ArticleResourceFields::MarioFireball { fields, hitboxes }
            } else {
                ArticleResourceFields::Gravity { fields, hitboxes }
            };
            article_link_of(catalog, id, r) is Ok ==> {
                &&& article_link_of(catalog, id, r) == Ok::<ArticleLink, Seq<char>>(
                    if mario { ArticleLink::MarioFireball } else { ArticleLink::Gravity })
                &&& zero_to_million_bits(fields.speed)
                &&& within_million_bits(fields.angle)
                &&& zero_to_million_bits(fields.half_life)
                &&& within_million_bits(fields.gravity)
                &&& zero_to_million_bits(fields.terminal_velocity)
                &&& zero_to_million_bits(fields.surface_multiplier)
                &&& zero_to_million_bits(fields.terrain_stop_speed)
                &&& (fields.lifetime < 0x7f80_0000 || fields.lifetime == 0x8000_0000)
                &&& 1 <= hitboxes@.len() <= 4
            }
        }),
        ({
            let r = if mario {
                ArticleResourceFields::MarioFireball { fields, hitboxes }
            } else {
                ArticleResourceFields::Gravity { fields, hitboxes }
            };
            (!(mario && id != catalog.mario_fire) && !(58 <= id.0 <= 65) && peach_article_name(id.0) is None
                && zero_to_million_bits(fields.speed) && within_million_bits(fields.angle)
                && fields.half_life > 0x8000_0000)
                ==> article_link_of(catalog, id, r) == Err::<ArticleLink, Seq<char>>(
                    "article "@ + decimal_text(id.0 as nat) + " half-life is invalid"@)
        }),
{
    lemma_bounded_encodings(fields.speed);
    lemma_bounded_encodings(fields.angle);
    lemma_bounded_encodings(fields.half_life);
    lemma_bounded_encodings(fields.gravity);
    lemma_bounded_encodings(fields.terminal_velocity);
    lemma_bounded_encodings(fields.surface_multiplier);
    lemma_bounded_encodings(fields.terrain_stop_speed);
    lemma_bounded_encodings(fields.lifetime);
}

/// The hitboxes an article resource declares.
pub open spec fn declared_hitboxes(r: ArticleResourceFields) -> Seq<HitboxFields> {
    match r {
        ArticleResourceFields::Ray { hitboxes, .. } => hitboxes@,
        ArticleResourceFields::Gravity { hitboxes, .. } => hitboxes@,
        ArticleResourceFields::MarioFireball { hitboxes, .. } => hitboxes@,
        ArticleResourceFields::LuigiFireball { hitboxes, .. } => hitboxes@,
    }
}

/// The lifetime an article resource declares.
pub open spec fn declared_lifetime(r: ArticleResourceFields) -> u32 {
    match r {
        ArticleResourceFields::Ray { lifetime, .. } => lifetime,
        ArticleResourceFields::Gravity { fields, .. } => fields.lifetime,
        ArticleResourceFields::MarioFireball { fields, .. } => fields.lifetime,
        ArticleResourceFields::LuigiFireball { lifetime, .. } => lifetime,
    }
}

/// Every linked article, of any kind, has one to four hitboxes and a finite
/// lifetime that is not negative; each hitbox has a centre within one
/// million of the origin on each axis, a radius from zero to one million, a
/// group below 16, damage of at most 999, shield damage within 1000 either
/// way, and growth, fixed and base knockback of at most 1000.  A ray links
/// only for the two laser ids, to the laser of its id.
pub proof fn law_linked_articles_have_valid_hitboxes(catalog: ArticleCatalog, id: ArticleId, r: ArticleResourceFields, i: int)
    ensures
        article_link_of(catalog, id, r) is Ok ==> {
            &&& 1 <= declared_hitboxes(r).len() <= 4
            &&& declared_lifetime(r) < 0x7f80_0000 || declared_lifetime(r) == 0x8000_0000
            &&& 0 <= i < declared_hitboxes(r).len() ==> {
                let h = declared_hitboxes(r)[i];
                &&& within_million_bits(h.center_x) && within_million_bits(h.center_y) && within_million_bits(h.center_z)
                &&& zero_to_million_bits(h.radius)
                &&& h.group < 16 && h.damage <= 999 && -1000 <= h.shield_damage <= 1000
                &&& h.growth <= 1000 && h.fixed <= 1000 && h.base <= 1000
            }
        },
        (r is Ray && article_link_of(catalog, id, r) is Ok) ==> (id == catalog.fox_laser || id == catalog.falco_laser)
            && article_link_of(catalog, id, r) == Ok::<ArticleLink, Seq<char>>(
                ArticleLink::Ray(if id == catalog.fox_laser { RayKind::FoxLaser } else { RayKind::FalcoLaser })),
{
    lemma_bounded_encodings(declared_lifetime(r));
    if article_link_of(catalog, id, r) is Ok && 0 <= i < declared_hitboxes(r).len() {
        let h = declared_hitboxes(r)[i];
        assert(hitbox_ok(h));
        lemma_bounded_encodings(h.center_x);
        lemma_bounded_encodings(h.center_y);
        lemma_bounded_encodings(h.center_z);
        lemma_bounded_encodings(h.radius);
    }
}

pub open spec fn link_article_name(id: u16) -> Seq<char> {
    if id == 58 { "bomb"@ } else if id == 59 { "Young Link bomb"@ } else if id == 60 { "boomerang"@ }
    else if id == 61 { "Young Link boomerang"@ } else if id == 62 { "hookshot"@ }
    else if id == 63 { "Young Link hookshot"@ } else if id == 64 { "arrow"@ } else { "Young Link fire arrow"@ }
}

pub open spec fn peach_article_name(id: u16) -> Option<Seq<char>> {
    if id == 98 { Some("Bomber explosion"@) } else if id == 99 { Some("turnip"@) }
    else if id == 103 { Some("parasol"@) } else if id == 104 { Some("Toad"@) }
    else if id == 111 { Some("Toad spore"@) } else { None }
}

fn bounded_exec(b: u32) -> (r: bool)
    ensures
        r == bounded(b),
{
    f32_is_finite_exec(b) && f32_abs_within_million_exec(b)
}

fn hitbox_check(h: &HitboxFields) -> (r: bool)
    ensures
        r == hitbox_ok(*h),
{
    if !(bounded_exec(h.center_x) && bounded_exec(h.center_y) && bounded_exec(h.center_z)) {
        return false;
    }
    if !(f32_is_finite_exec(h.radius) && f32_nonnegative_exec(h.radius) && f32_abs_within_million_exec(h.radius)) {
        return false;
    }
    match f32_whole_u32(h.angle_degrees) {
        Some(a) => if a > 362 {
            return false;
        },
        None => {
            return false;
        },
    }
    h.group < 16 && h.damage <= 999 && -1000 <= h.shield_damage && h.shield_damage <= 1000 && h.growth <= 1000
        && h.fixed <= 1000 && h.base <= 1000
}

fn projectile_check(path: &str, lifetime: u32, hitboxes: &Vec<HitboxFields>) -> (r: Option<String>)
    ensures
        match projectile_fault(path@, lifetime, hitboxes@) {
            Some(m) => r matches Some(s) && s@ == m,
            None => r is None,
        },
{
    if !(f32_is_finite_exec(lifetime) && f32_nonnegative_exec(lifetime)) {
        return Some(concat2(path, " lifetime is invalid"));
    }
    if hitboxes.len() < 1 || hitboxes.len() > 4 {
        return Some(concat2(path, " must contain 1..=4 hitboxes"));
    }
    let mut i: usize = 0;
    while i < hitboxes.len()
        invariant
            i <= hitboxes.len(),
            1 <= hitboxes.len() <= 4,
            f32_is_finite(lifetime) && f32_nonnegative(lifetime),
            forall|j: int| 0 <= j < i ==> hitbox_ok(#[trigger] hitboxes@[j]),
        decreases hitboxes.len() - i,
    {
        if !hitbox_check(&hitboxes[i]) {
            assert(!hitbox_ok(hitboxes@[i as int]));
            return Some(concat2(path, " contains an invalid hitbox"));
        }
        i = i + 1;
    }
    None
}

fn gravity_check(path: &str, f: &GravityFields, hitboxes: &Vec<HitboxFields>) -> (r: Option<String>)
    ensures
        match gravity_fault(path@, *f, hitboxes@) {
            Some(m) => r matches Some(s) && s@ == m,
            None => r is None,
        },
{
    if !(bounded_exec(f.speed) && f32_nonnegative_exec(f.speed)) {
        return Some(concat2(path, " speed is invalid"));
    }
    if !bounded_exec(f.angle) {
        return Some(concat2(path, " angle is invalid"));
    }
    if !(bounded_exec(f.half_life) && f32_nonnegative_exec(f.half_life)) {
        return Some(concat2(path, " half-life is invalid"));
    }
    if !(bounded_exec(f.gravity) && bounded_exec(f.terminal_velocity) && f32_nonnegative_exec(f.terminal_velocity)) {
        return Some(concat2(path, " gravity is invalid"));
    }
    if !(bounded_exec(f.surface_multiplier) && f32_nonnegative_exec(f.surface_multiplier)) {
        return Some(concat2(path, " surface multiplier is invalid"));
    }
    if !(bounded_exec(f.terrain_stop_speed) && f32_nonnegative_exec(f.terrain_stop_speed)) {
        return Some(concat2(path, " terrain stop speed is invalid"));
    }
    projectile_check(path, f.lifetime, hitboxes)
}

/// The behavior article `id` links to with resource `resource`, or the
/// message it is refused with.
pub fn link_article(catalog: ArticleCatalog, id: ArticleId, resource: &ArticleResourceFields) -> (r: Result<ArticleLink, String>)
    ensures
        match article_link_of(catalog, id, *resource) {
            Ok(link) => r == Ok::<ArticleLink, String>(link),
            Err(m) => r matches Err(e) && e@ == m,
        },
{
    let id_text = decimal_string(id.0 as u64);
    let path = concat2("article ", id_text.as_str());
    let mario_fireball = matches!(resource, ArticleResourceFields::MarioFireball { .. });
    if mario_fireball && id.0 != catalog.mario_fire.0 {
        let expected = decimal_string(catalog.mario_fire.0 as u64);
        let head = concat3("Mario fireball resource must use article id ", expected.as_str(), ", got ");
        return Err(concat2(head.as_str(), id_text.as_str()));
    }
    match resource {
        ArticleResourceFields::Ray { lifetime, hitboxes } => {
            let kind = if id.0 == catalog.fox_laser.0 {
                RayKind::FoxLaser
            } else if id.0 == catalog.falco_laser.0 {
                RayKind::FalcoLaser
            } else {
                return Err(concat2("unsupported ray article id ", id_text.as_str()));
            };
            match projectile_check(path.as_str(), *lifetime, hitboxes) {
                Some(m) => Err(m),
                None => Ok(ArticleLink::Ray(kind)),
            }
        },
        ArticleResourceFields::Gravity { fields, hitboxes } | ArticleResourceFields::MarioFireball { fields, hitboxes } => {
            if let Some(name) = link_native_article(id) {
                let head = concat3("unsupported Link article ", name, " id ");
                return Err(concat2(head.as_str(), id_text.as_str()));
            }
            if let Some(name) = peach_native_article(id) {
                let head = concat3("unsupported Peach article ", name, " id ");
                return Err(concat2(head.as_str(), id_text.as_str()));
            }
            match gravity_check(path.as_str(), fields, hitboxes) {
                Some(m) => Err(m),
                None => Ok(if mario_fireball { ArticleLink::MarioFireball } else { ArticleLink::Gravity }),
            }
        },
        ArticleResourceFields::LuigiFireball {
            speed, lifetime, gravity, terminal_velocity, terrain_stop_speed, effect_id, native_contact, hitboxes,
        } => {
            if id.0 != LUIGI_FIRE_ARTICLE || *effect_id != LUIGI_FIRE_EFFECT {
                return Err("Luigi fireball requires article 105 and native effect 1288".to_owned());
            }
            if !*native_contact {
                return Err("unsupported Luigi fireball contact policy".to_owned());
            }
            let fields = GravityFields {
                speed: *speed,
                angle: F32_ZERO_BITS,
                lifetime: *lifetime,
                half_life: *lifetime,
                gravity: *gravity,
                terminal_velocity: *terminal_velocity,
                surface_multiplier: F32_ONE_BITS,
                terrain_stop_speed: *terrain_stop_speed,
            };
            match gravity_check(path.as_str(), &fields, hitboxes) {
                Some(m) => Err(m),
                None => Ok(ArticleLink::LuigiFireball),
            }
        },
    }
}

/// Links every declared article in order; the first refusal stops linking.
pub fn link_articles(catalog: ArticleCatalog, articles: &Vec<(ArticleId, ArticleResourceFields)>)
    -> (r: Result<Vec<(ArticleId, ArticleLink)>, String>)
    ensures
        match r {
            Ok(v) => v@.len() == articles@.len() && forall|i: int| 0 <= i < v@.len() ==>
                (#[trigger] v@[i]).0 == articles@[i].0
                && article_link_of(catalog, articles@[i].0, articles@[i].1) == Ok::<ArticleLink, Seq<char>>(v@[i].1),
            Err(m) => exists|i: int| 0 <= i < articles@.len()
                && article_link_of(catalog, articles@[i].0, #[trigger] articles@[i].1) == Err::<ArticleLink, Seq<char>>(m@)
                && forall|j: int| 0 <= j < i ==> article_link_of(catalog, articles@[j].0, #[trigger] articles@[j].1) is Ok,
        },
{
    let mut out: Vec<(ArticleId, ArticleLink)> = Vec::new();
    let mut i: usize = 0;
    while i < articles.len()
        invariant
            i <= articles@.len(),
            out@.len() == i,
            forall|k: int| 0 <= k < i ==> (#[trigger] out@[k]).0 == articles@[k].0
                && article_link_of(catalog, articles@[k].0, articles@[k].1) == Ok::<ArticleLink, Seq<char>>(out@[k].1),
        decreases articles@.len() - i,
    {
        let (id, resource) = &articles[i];
        match link_article(catalog, *id, resource) {
            Ok(link) => {
                out.push((*id, link));
            },
            Err(m) => {
                assert forall|j: int| 0 <= j < i implies article_link_of(catalog, articles@[j].0, #[trigger] articles@[j].1) is Ok by {
                    assert(out@[j].0 == articles@[j].0);
                }
                return Err(m);
            },
        }
        i = i + 1;
    }
    Ok(out)
}

/// Packs that predate the article catalog link only the native laser of
/// Fox or Falco, and only when the pack has its legacy laser hitboxes.
pub fn legacy_ray_article(catalog: ArticleCatalog, fox: bool, falco: bool, has_laser_hitboxes: bool)
    -> (r: Option<(ArticleId, RayKind)>)
    ensures
        r == (if fox && has_laser_hitboxes {
            Some((catalog.fox_laser, RayKind::FoxLaser))
        } else if !fox && falco && has_laser_hitboxes {
            Some((catalog.falco_laser, RayKind::FalcoLaser))
        } else {
            None
        }),
{
    if fox {
        if has_laser_hitboxes { Some((catalog.fox_laser, RayKind::FoxLaser)) } else { None }
    } else if falco {
        if has_laser_hitboxes { Some((catalog.falco_laser, RayKind::FalcoLaser)) } else { None }
    } else {
        None
    }
}

} // verus!
