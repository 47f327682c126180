use zentry_db::{
    classify_graph_key, classify_key, classify_matches, ConversionGraph, Double, GraphKeyClass,
};

#[test]
fn the_historical_pattern_wins_over_the_active_one() {
    assert_eq!(classify_matches(Some(true), Some(true)), GraphKeyClass::Historical);
    assert_eq!(classify_matches(Some(true), Some(false)), GraphKeyClass::Historical);
    assert_eq!(classify_matches(Some(true), None), GraphKeyClass::Historical);
}

#[test]
fn the_active_pattern_counts_where_the_historical_does_not_match() {
    assert_eq!(classify_matches(Some(false), Some(true)), GraphKeyClass::Active);
    assert_eq!(classify_matches(None, Some(true)), GraphKeyClass::Active);
}

#[test]
fn no_match_is_an_unknown_key() {
    assert_eq!(classify_matches(Some(false), Some(false)), GraphKeyClass::Unknown);
    assert_eq!(classify_matches(None, None), GraphKeyClass::Unknown);
    assert_eq!(classify_matches(Some(false), None), GraphKeyClass::Unknown);
    assert_eq!(classify_matches(None, Some(false)), GraphKeyClass::Unknown);
}

#[test]
fn directions_are_active_keys() {
    for key in ["USD -> IDR", "USD <- IDR", "USD <-> SGD", "  a->b  ", "x_1 -> y2", "é -> ü"] {
        assert_eq!(classify_key(key), GraphKeyClass::Active);
    }
}

#[test]
fn bracketed_directions_between_instants_are_historical_keys() {
    for key in [
        "2023-11-14T22:13:20+00:00[USD -> IDR]2023-11-14T22:15:00+00:00",
        "2023-11-14T22:13:20.123+07:00[USD <-> IDR]2024-01-01T00:00:00-05:00",
        "1970-01-01T00:00:00+00:00[ a -> b ]9999-12-31T23:59:59+00:00",
    ] {
        assert_eq!(classify_key(key), GraphKeyClass::Historical);
    }
}

#[test]
fn other_keys_are_unknown() {
    for key in [
        "",
        "USD",
        "USD IDR",
        "USD => IDR",
        "US D -> IDR",
        "USD -> IDR!",
        "[USD -> IDR]",
        "2023-11-14T22:13:20Z[USD -> IDR]2023-11-14T22:15:00Z",
        "2023-11-14 22:13:20+00:00[USD -> IDR]2023-11-14T22:15:00+00:00",
        "+10000-01-01T00:00:00+00:00[USD -> IDR]2023-11-14T22:15:00+00:00",
    ] {
        assert_eq!(classify_key(key), GraphKeyClass::Unknown);
    }
}

#[test]
fn a_graph_has_the_class_of_its_key() {
    let graph = ConversionGraph {
        graph: String::from("USD -> IDR"),
        rate: Double::from_bits(0),
        rate_since: 0,
    };
    assert_eq!(classify_graph_key(&graph), GraphKeyClass::Active);
    let graph = ConversionGraph {
        graph: String::from("nothing of the kind"),
        rate: Double::from_bits(0),
        rate_since: 0,
    };
    assert_eq!(classify_graph_key(&graph), GraphKeyClass::Unknown);
}
