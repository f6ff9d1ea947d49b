use skirmish_script::article_links::{
    legacy_ray_article, link_article, link_articles, ArticleCatalog, ArticleLink, ArticleResourceFields, GravityFields,
    HitboxFields, RayKind,
};
use skirmish_script::articles::ArticleId;

fn b(x: f32) -> u32 {
    x.to_bits()
}

fn catalog() -> ArticleCatalog {
    ArticleCatalog { mario_fire: ArticleId(48), fox_laser: ArticleId(54), falco_laser: ArticleId(55) }
}

fn hitbox() -> HitboxFields {
    HitboxFields {
        center_x: b(0.0),
        center_y: b(1.0),
        center_z: b(-2.0),
        radius: b(3.0),
        angle_degrees: b(361.0),
        group: 0,
        damage: 5,
        shield_damage: 0,
        growth: 100,
        fixed: 0,
        base: 10,
    }
}

fn gravity() -> GravityFields {
    GravityFields {
        speed: b(1.0),
        angle: b(-30.0),
        lifetime: b(60.0),
        half_life: b(30.0),
        gravity: b(-0.1),
        terminal_velocity: b(2.0),
        surface_multiplier: b(1.0),
        terrain_stop_speed: b(0.0),
    }
}

fn message(r: Result<ArticleLink, String>) -> String {
    r.unwrap_err()
}

#[test]
fn rays_link_by_catalog_id() {
    let ray = ArticleResourceFields::Ray { lifetime: b(20.0), hitboxes: vec![hitbox()] };
    assert_eq!(link_article(catalog(), ArticleId(54), &ray), Ok(ArticleLink::Ray(RayKind::FoxLaser)));
    assert_eq!(link_article(catalog(), ArticleId(55), &ray), Ok(ArticleLink::Ray(RayKind::FalcoLaser)));
    assert_eq!(message(link_article(catalog(), ArticleId(7), &ray)), "unsupported ray article id 7");
    let empty = ArticleResourceFields::Ray { lifetime: b(20.0), hitboxes: vec![] };
    assert_eq!(message(link_article(catalog(), ArticleId(54), &empty)), "article 54 must contain 1..=4 hitboxes");
    let negative = ArticleResourceFields::Ray { lifetime: b(-1.0), hitboxes: vec![hitbox()] };
    assert_eq!(message(link_article(catalog(), ArticleId(54), &negative)), "article 54 lifetime is invalid");
}

#[test]
fn hitbox_fields_are_checked() {
    let mut h = hitbox();
    h.angle_degrees = b(45.5);
    let ray = ArticleResourceFields::Ray { lifetime: b(20.0), hitboxes: vec![hitbox(), h] };
    assert_eq!(message(link_article(catalog(), ArticleId(54), &ray)), "article 54 contains an invalid hitbox");
    let mut h = hitbox();
    h.angle_degrees = b(363.0);
    let ray = ArticleResourceFields::Ray { lifetime: b(20.0), hitboxes: vec![h] };
    assert!(link_article(catalog(), ArticleId(54), &ray).is_err());
    let mut h = hitbox();
    h.shield_damage = -1001;
    let ray = ArticleResourceFields::Ray { lifetime: b(20.0), hitboxes: vec![h] };
    assert!(link_article(catalog(), ArticleId(54), &ray).is_err());
    let mut h = hitbox();
    h.radius = b(f32::INFINITY);
    let ray = ArticleResourceFields::Ray { lifetime: b(20.0), hitboxes: vec![h] };
    assert!(link_article(catalog(), ArticleId(54), &ray).is_err());
}

#[test]
fn gravity_projectiles_and_fireballs() {
    let g = ArticleResourceFields::Gravity { fields: gravity(), hitboxes: vec![hitbox()] };
    assert_eq!(link_article(catalog(), ArticleId(200), &g), Ok(ArticleLink::Gravity));
    assert_eq!(message(link_article(catalog(), ArticleId(60), &g)), "unsupported Link article boomerang id 60");
    assert_eq!(message(link_article(catalog(), ArticleId(99), &g)), "unsupported Peach article turnip id 99");
    let mut f = gravity();
    f.terminal_velocity = b(-1.0);
    let bad = ArticleResourceFields::Gravity { fields: f, hitboxes: vec![hitbox()] };
    assert_eq!(message(link_article(catalog(), ArticleId(200), &bad)), "article 200 gravity is invalid");
    let mut f = gravity();
    f.speed = b(2_000_000.0);
    let bad = ArticleResourceFields::Gravity { fields: f, hitboxes: vec![hitbox()] };
    assert_eq!(message(link_article(catalog(), ArticleId(200), &bad)), "article 200 speed is invalid");
    let m = ArticleResourceFields::MarioFireball { fields: gravity(), hitboxes: vec![hitbox()] };
    assert_eq!(link_article(catalog(), ArticleId(48), &m), Ok(ArticleLink::MarioFireball));
    assert_eq!(message(link_article(catalog(), ArticleId(49), &m)), "Mario fireball resource must use article id 48, got 49");
}

fn luigi(effect_id: u32, native_contact: bool) -> ArticleResourceFields {
    ArticleResourceFields::LuigiFireball {
        speed: b(1.5),
        lifetime: b(40.0),
        gravity: b(-0.1),
        terminal_velocity: b(1.0),
        terrain_stop_speed: b(0.5),
        effect_id,
        native_contact,
        hitboxes: vec![hitbox()],
    }
}

#[test]
fn luigi_fireball_rules() {
    assert_eq!(link_article(catalog(), ArticleId(105), &luigi(1288, true)), Ok(ArticleLink::LuigiFireball));
    assert_eq!(
        message(link_article(catalog(), ArticleId(104), &luigi(1288, true))),
        "Luigi fireball requires article 105 and native effect 1288"
    );
    assert_eq!(
        message(link_article(catalog(), ArticleId(105), &luigi(1, true))),
        "Luigi fireball requires article 105 and native effect 1288"
    );
    assert_eq!(message(link_article(catalog(), ArticleId(105), &luigi(1288, false))), "unsupported Luigi fireball contact policy");
}

#[test]
fn articles_link_in_order_until_the_first_refusal() {
    let ray = ArticleResourceFields::Ray { lifetime: b(20.0), hitboxes: vec![hitbox()] };
    let g = ArticleResourceFields::Gravity { fields: gravity(), hitboxes: vec![hitbox()] };
    let linked = link_articles(catalog(), &vec![(ArticleId(54), ray.clone()), (ArticleId(200), g.clone())]).unwrap();
    assert_eq!(linked, vec![(ArticleId(54), ArticleLink::Ray(RayKind::FoxLaser)), (ArticleId(200), ArticleLink::Gravity)]);
    let refused = link_articles(catalog(), &vec![(ArticleId(54), ray), (ArticleId(61), g.clone()), (ArticleId(9), g)]);
    assert_eq!(refused, Err("unsupported Link article Young Link boomerang id 61".to_owned()));
}

#[test]
fn legacy_packs_link_only_the_native_laser() {
    assert_eq!(legacy_ray_article(catalog(), true, false, true), Some((ArticleId(54), RayKind::FoxLaser)));
    assert_eq!(legacy_ray_article(catalog(), false, true, true), Some((ArticleId(55), RayKind::FalcoLaser)));
    assert_eq!(legacy_ray_article(catalog(), true, false, false), None);
    assert_eq!(legacy_ray_article(catalog(), false, false, true), None);
}
