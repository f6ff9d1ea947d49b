use skirmish_script::articles::{link_native_article, peach_native_article, ArticleId};
use skirmish_script::definition::{callback_owner_for_dispatch, CallbackHandle, OwnedCallback};

#[test]
fn lifecycle_callbacks_keep_behavior_owner_for_action_changes() {
    let callback = OwnedCallback {
        callback: CallbackHandle::new("on_action_entered"),
        resource: Some("special".into()),
        behavior_index: Some(7),
    };
    assert_eq!(callback_owner_for_dispatch(&callback), Some(7));

    let global = OwnedCallback {
        callback: CallbackHandle::new("global_action_entered"),
        resource: None,
        behavior_index: None,
    };
    assert_eq!(callback_owner_for_dispatch(&global), None);
}

#[test]
fn link_article_ids_are_reserved_for_stateful_native_items() {
    for id in 58..=65 {
        assert!(link_native_article(ArticleId(id)).is_some(), "Link article id {id} must not enter generic gravity handling");
    }
    assert!(link_native_article(ArticleId(66)).is_none());
}

#[test]
fn peach_articles_are_named() {
    assert_eq!(peach_native_article(ArticleId(99)), Some("turnip"));
    assert_eq!(peach_native_article(ArticleId(100)), None);
    assert_eq!(link_native_article(ArticleId(64)), Some("arrow"));
}
