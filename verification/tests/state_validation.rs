use skirmish_script::host_state::{LocalState, LocalValue};
use skirmish_script::native::Error;
use skirmish_script::state_validation::{validate_state, StateLimits};

const LIMITS: StateLimits = StateLimits { max_fields: 8, max_key_bytes: 12, max_string_bytes: 6 };

fn state(entries: Vec<(&str, LocalValue)>) -> LocalState {
    LocalState::from_entries(entries.into_iter().map(|(k, v)| (k.to_owned(), v)).collect())
}

fn number(x: f64) -> LocalValue {
    LocalValue::Number(x.to_bits())
}

fn refusal(s: &LocalState, limits: &StateLimits) -> String {
    match validate_state(s, limits) {
        Err(Error::Invalid(m)) => m,
        other => panic!("expected a refusal, got {other:?}"),
    }
}

fn nested(levels: usize) -> LocalValue {
    let mut v = LocalValue::Bool(true);
    for _ in 0..levels {
        v = LocalValue::Tuple(vec![v]);
    }
    v
}

#[test]
fn bounded_scalar_state_is_accepted() {
    let s = state(vec![
        ("count", LocalValue::Integer(-1_000_000)),
        ("name", LocalValue::String("abcdef".into())),
        ("pair", LocalValue::Tuple(vec![LocalValue::Integer(1), number(-0.5), LocalValue::Bool(false)])),
        ("speed", number(1_000_000.0)),
        ("under_score9", LocalValue::Bool(true)),
    ]);
    assert_eq!(validate_state(&s, &LIMITS), Ok(()));
    assert_eq!(validate_state(&LocalState::new(), &LIMITS), Ok(()));
}

#[test]
fn field_count_and_keys_are_bounded() {
    let s = state(vec![("a", LocalValue::Bool(true)), ("b", LocalValue::Bool(true)), ("c", LocalValue::Bool(true))]);
    let two = StateLimits { max_fields: 2, ..LIMITS };
    assert_eq!(refusal(&s, &two), "too many script state fields");
    assert_eq!(refusal(&state(vec![("", LocalValue::Bool(true))]), &LIMITS), "script state key is too long");
    assert_eq!(refusal(&state(vec![("abcdefghijklm", LocalValue::Bool(true))]), &LIMITS), "script state key is too long");
    assert_eq!(refusal(&state(vec![("bad-key", LocalValue::Bool(true))]), &LIMITS), "invalid script state key \"bad-key\"");
    assert_eq!(refusal(&state(vec![("é", LocalValue::Bool(true))]), &LIMITS), "invalid script state key \"é\"");
}

#[test]
fn numbers_must_be_finite_and_within_a_million() {
    assert_eq!(
        refusal(&state(vec![("count", LocalValue::Integer(1_000_001))]), &LIMITS),
        "invalid integer state field \"count\""
    );
    for bad in [f64::NAN, f64::INFINITY, f64::NEG_INFINITY, 1_000_000.5, -2.0e6] {
        assert_eq!(refusal(&state(vec![("x", number(bad))]), &LIMITS), "invalid numeric state field \"x\"");
    }
    assert_eq!(validate_state(&state(vec![("x", number(-0.0))]), &LIMITS), Ok(()));
}

#[test]
fn strings_and_tuples_are_bounded() {
    assert_eq!(
        refusal(&state(vec![("name", LocalValue::String("abcdefg".into()))]), &LIMITS),
        "script state string \"name\" is too long"
    );
    assert_eq!(
        refusal(&state(vec![("name", LocalValue::String("éééé".into()))]), &LIMITS),
        "script state string \"name\" is too long"
    );
    assert_eq!(
        refusal(&state(vec![("t", LocalValue::Tuple((0..9).map(LocalValue::Integer).collect()))]), &LIMITS),
        "script state tuple \"t\" is too long"
    );
    assert_eq!(
        refusal(&state(vec![("t", LocalValue::Tuple(vec![LocalValue::Integer(2_000_000)]))]), &LIMITS),
        "invalid integer state field \"t\""
    );
    assert_eq!(
        refusal(&state(vec![("t", LocalValue::Tuple(vec![LocalValue::String("toolong".into())]))]), &LIMITS),
        "script state string \"t\" is too long"
    );
}

#[test]
fn nesting_depth_is_bounded() {
    assert_eq!(validate_state(&state(vec![("deep", nested(64))]), &LIMITS), Ok(()));
    assert_eq!(
        refusal(&state(vec![("deep", nested(65))]), &LIMITS),
        "script state tuple \"deep\" is too deeply nested"
    );
}

#[test]
fn tuple_items_share_one_budget() {
    let wide = StateLimits { max_fields: 5000, ..LIMITS };
    let items = |n: usize| LocalValue::Tuple((0..n).map(|_| LocalValue::Bool(true)).collect());
    assert_eq!(validate_state(&state(vec![("a", items(4096))]), &wide), Ok(()));
    assert_eq!(refusal(&state(vec![("a", items(4097))]), &wide), "script state contains too many tuple values");
    assert_eq!(
        refusal(&state(vec![("a", items(2048)), ("b", items(2049))]), &wide),
        "script state contains too many tuple values"
    );
}
