use pino::text::kebab;
use pino::usage::{
    compute_cost, compute_marginal, cost_of, family_of_lower, marginal_for, model_family,
    parse_usage, priced, prices, usage_from, Usage, FIVE_MIN_MS, UNITS_PER_USD,
};

const STREAM: &str = "event: message_start\n\
     data: {\"type\":\"message_start\",\"message\":{\"model\":\"m\",\"id\":\"msg_01\",\
     \"usage\":{\"input_tokens\":1,\"cache_creation_input_tokens\":3984,\
     \"cache_read_input_tokens\":38748,\"cache_creation\":{\"ephemeral_5m_input_tokens\":3984,\
     \"ephemeral_1h_input_tokens\":0},\"output_tokens\":3,\"service_tier\":\"standard\"}}}\n\n\
     event: content_block_delta\n\
     data: {\"type\":\"content_block_delta\",\"delta\":{\"type\":\"text_delta\",\"text\":\"hi\"}}\n\n\
     event: message_delta\n\
     data: {\"type\":\"message_delta\",\"usage\":{\"output_tokens\":351}}\n\n";

fn dollars(units: i128) -> f64 {
    units as f64 / UNITS_PER_USD as f64
}

#[test]
fn parse_usage_extracts_full_breakdown() {
    let u = parse_usage(STREAM).expect("should find usage");
    assert_eq!(u.input_tokens, 1);
    assert_eq!(u.cache_create, 3984);
    assert_eq!(u.cache_read, 38748);
    assert_eq!(u.ephem_5m, 3984);
    assert_eq!(u.ephem_1h, 0);
    assert_eq!(u.output_tokens, 351); // final message_delta value, not 0
}

#[test]
fn parse_usage_returns_none_without_usage() {
    assert!(parse_usage(r#"{"type":"count_tokens","input_tokens":10}"#).is_none());
    assert!(parse_usage("").is_none());
}

#[test]
fn model_family_maps_ids() {
    assert_eq!(model_family(&kebab("claude_opus_4_8")), "opus");
    assert_eq!(model_family(&kebab("claude_haiku_4_5_20251001")), "haiku");
    assert_eq!(model_family(&kebab("claude_sonnet_4_6")), "sonnet");
    assert_eq!(model_family("mystery-model"), "opus"); // safe fallback
}

#[test]
fn compute_cost_prices_caching_cheaper() {
    let u = parse_usage(STREAM).unwrap();
    let c = compute_cost(&u, &kebab("claude_opus_4_8"));
    assert_eq!(c.family, "opus");
    assert!(!c.estimate);
    assert!(c.cost_actual > 0);
    assert!(c.cost_uncached > c.cost_actual, "uncached must cost more");
    assert!(c.saved > 0);
    let pct = c.saved_pct.num as f64 / c.saved_pct.den as f64;
    assert!(pct > 50.0 && pct <= 100.0);

    let expected_input = (1.0 + 38748.0 * 0.1 + 3984.0 * 1.25) * (5.0 / 1e6);
    let expected_out = 351.0 * (25.0 / 1e6);
    assert!((dollars(c.cost_actual) - (expected_input + expected_out)).abs() < 1e-9);
}

#[test]
fn costs_are_exact() {
    let u = parse_usage(STREAM).unwrap();
    let c = compute_cost(&u, &kebab("claude_opus_4_8"));
    assert_eq!(c.cost_actual, (20 + 2 * 38748 + 25 * 3984) * 5 + 20 * 351 * 25);
    assert_eq!(c.cost_uncached, 20 * (1 + 38748 + 3984) * 5 + 20 * 351 * 25);
    assert_eq!(c.saved, c.cost_uncached - c.cost_actual);
    assert_eq!(c.saved_pct.num, 100 * c.saved);
    assert_eq!(c.saved_pct.den, c.cost_uncached);
}

#[test]
fn fable_is_its_own_family() {
    let c = compute_cost(&parse_usage(STREAM).unwrap(), &kebab("claude_fable_5"));
    assert_eq!(c.family, "fable");
    assert!(!c.estimate);
    let opus = compute_cost(&parse_usage(STREAM).unwrap(), &kebab("claude_opus_4_8"));
    assert!(c.cost_actual > opus.cost_actual); // Fable input is 2x Opus
}

#[test]
fn unknown_model_flagged_as_estimate() {
    let c = compute_cost(&parse_usage(STREAM).unwrap(), "some-future-model");
    assert!(c.estimate);
}

fn usage_rw(cache_read: i64, ephem_1h: i64) -> Usage {
    Usage { cache_read, ephem_1h, ..Default::default() }
}

#[test]
fn marginal_within_5min_is_pure_write_premium_loss() {
    // Gap under 5min: the default 5m cache would have hit too, so the 1h write
    // premium bought nothing — net is the premium, paid for nothing.
    let u = usage_rw(10_000, 2_000);
    let m = compute_marginal(&u, &kebab("claude_opus_4_8"), Some(FIVE_MIN_MS - 1));
    assert!(!m.extended_window);
    // opus in-price 5/M; premium = 2000 * (2.0-1.25) * 5e-6
    let premium = 2_000.0 * 0.75 * (5.0 / 1e6);
    assert!((dollars(m.write_premium) - premium).abs() < 1e-12);
    assert!((dollars(m.saved) - (-premium)).abs() < 1e-12, "should be a net loss");
}

#[test]
fn marginal_past_5min_credits_the_read() {
    // Gap >= 5min: the default 5m cache would have expired and missed, so the
    // read at 0.1x replaced a 1.25x re-write — that delta is the real saving.
    let u = usage_rw(10_000, 2_000);
    let m = compute_marginal(&u, &kebab("claude_opus_4_8"), Some(FIVE_MIN_MS));
    assert!(m.extended_window);
    let read_benefit = 10_000.0 * (1.25 - 0.1) * (5.0 / 1e6);
    let premium = 2_000.0 * 0.75 * (5.0 / 1e6);
    assert!((dollars(m.saved) - (read_benefit - premium)).abs() < 1e-12);
    assert!(m.saved > 0);
}

#[test]
fn marginal_unknown_gap_is_conservative() {
    // First request in a session / backfill with no predecessor: don't claim a
    // read benefit we can't justify.
    let m = compute_marginal(&usage_rw(10_000, 2_000), &kebab("claude_opus_4_8"), None);
    assert!(!m.extended_window);
    assert!(m.saved <= 0);
}

#[test]
fn marginal_zero_when_nothing_cached() {
    let m = compute_marginal(&Usage::default(), &kebab("claude_opus_4_8"), Some(FIVE_MIN_MS * 10));
    assert_eq!(m.saved, 0);
    assert_eq!(m.write_premium, 0);
}

#[test]
fn marginal_amounts_are_exact() {
    let m = marginal_for(&usage_rw(10_000, 2_000), "opus", Some(FIVE_MIN_MS));
    assert_eq!(m.write_premium, 2_000 * 15 * 5);
    assert_eq!(m.saved, 10_000 * 23 * 5 - 2_000 * 15 * 5);
}

#[test]
fn list_prices() {
    assert_eq!(prices("fable"), (10, 50));
    assert_eq!(prices("mythos"), (10, 50));
    assert_eq!(prices("opus"), (5, 25));
    assert_eq!(prices("sonnet"), (3, 15));
    assert_eq!(prices("haiku"), (1, 5));
    assert_eq!(prices("anything"), (5, 25));
}

#[test]
fn families_go_by_the_first_name_in_order() {
    assert_eq!(family_of_lower("fable-opus"), "fable");
    assert_eq!(family_of_lower("opus-haiku"), "opus");
    assert_eq!(family_of_lower("haiku-sonnet"), "haiku");
    assert_eq!(model_family("BIG-SONNET"), "sonnet");
    assert_eq!(model_family("My-Mythos-1"), "mythos");
}

#[test]
fn creation_without_a_split_is_written_for_five_minutes() {
    let u = Usage { cache_create: 100, ..Default::default() };
    assert_eq!(priced(&u, 5, 25).0, 25 * 100 * 5);
    let hour = Usage { cache_create: 100, ephem_1h: 100, ..Default::default() };
    assert_eq!(priced(&hour, 5, 25).0, 40 * 100 * 5);
    assert_eq!(priced(&hour, 5, 25).1, 20 * 100 * 5);
    let both = Usage { cache_create: 100, ephem_5m: 40, ephem_1h: 60, ..Default::default() };
    assert_eq!(priced(&both, 5, 25).0, (25 * 40 + 40 * 60) * 5);
}

#[test]
fn a_free_request_saves_no_share() {
    let c = cost_of(&Usage::default(), "opus", true);
    assert_eq!(c.saved_pct.num, 0);
    assert_eq!(c.saved_pct.den, 1);
    assert!(!c.estimate);
}

#[test]
fn usage_takes_the_first_report_and_the_largest_output() {
    let t = "\"usage\":{\"input_tokens\":7,\"cache_creation_input_tokens\":8,\
             \"cache_read_input_tokens\":9} \"output_tokens\":5 \"output_tokens\":12 \
             \"output_tokens\":11 \"usage\":{\"input_tokens\":70,\
             \"cache_creation_input_tokens\":80,\"cache_read_input_tokens\":90}";
    let u = parse_usage(t).unwrap();
    assert_eq!((u.input_tokens, u.cache_create, u.cache_read), (7, 8, 9));
    assert_eq!((u.ephem_5m, u.ephem_1h), (0, 0));
    assert_eq!(u.output_tokens, 12);
}

#[test]
fn counts_that_do_not_fit_are_none() {
    let g = |t: &str| Some(t.to_string());
    let start = vec![g("all"), g("5"), g("99999999999999999999"), None];
    let u = usage_from(&start, &None, &vec![vec![g("x"), g("4")], vec![g("x"), g("-9")]]);
    assert_eq!(u, Usage { input_tokens: 5, output_tokens: 4, ..Default::default() });
}

#[test]
fn sums_over_a_session_are_the_net() {
    let rows = [
        (Usage { ephem_1h: 500, ..Default::default() }, None),
        (Usage { cache_read: 500, ..Default::default() }, Some(FIVE_MIN_MS + 1)),
        (Usage { cache_read: 500, ephem_1h: 20, ..Default::default() }, Some(10)),
    ];
    let sum: i128 = rows.iter().map(|(u, gap)| marginal_for(u, "haiku", *gap).saved).sum();
    // Written anew once instead of read, against two dearer writes.
    assert_eq!(sum, 500 * 23 - 520 * 15);
}

#[test]
fn a_longer_stream_keeps_its_first_report() {
    let report = |n: u32| {
        format!(
            "\"usage\":{{\"input_tokens\":{n},\"cache_creation_input_tokens\":{n},\
             \"cache_read_input_tokens\":{n}"
        )
    };
    let first = format!("{} \"output_tokens\":5", report(7));
    for (more, largest) in [("3\"output_tokens\":4", 5), ("\"output_tokens\":40\n2", 40)] {
        let all = format!("{first}\n{} {more}", report(70));
        let u = parse_usage(&all).unwrap();
        assert_eq!((u.input_tokens, u.cache_create, u.cache_read), (7, 7, 7));
        assert_eq!(u.output_tokens, largest);
        assert_eq!(parse_usage(&first).unwrap().output_tokens, 5);
    }
}

#[test]
fn families_are_known_whatever_their_case() {
    let u = Usage { input_tokens: 3, ..Default::default() };
    for (model, family, estimate) in [
        ("X-HAIKU-9", "haiku", false),
        ("Mythos", "mythos", false),
        ("my-oPuS", "opus", false),
        ("haik", "opus", true),
        ("", "opus", true),
    ] {
        let c = compute_cost(&u, model);
        assert_eq!((c.family, c.estimate), (family, estimate), "{model}");
        if c.estimate {
            assert_eq!(c.cost_actual, 3 * 20 * 5);
        }
    }
}

#[test]
fn reports_are_read_where_they_are_whole() {
    let start = |a: &str, b: &str, c: &str| {
        format!(
            "\"usage\":{{\"input_tokens\":{a},\"cache_creation_input_tokens\":{b},\
             \"cache_read_input_tokens\":{c}"
        )
    };
    let t = format!("{} {} \"output_tokens\":", start("1", "x", "3"), start("04", "5", "6é"));
    let u = parse_usage(&t).unwrap();
    assert_eq!((u.input_tokens, u.cache_create, u.cache_read, u.output_tokens), (4, 5, 6, 0));
    assert_eq!(parse_usage(&start("1", "2", "")), None);
    assert_eq!(parse_usage(&start("-1", "2", "3")), None);
    // digits of other scripts are matched, but are no number
    let u = parse_usage(&start("٣", "2", "3")).unwrap();
    assert_eq!((u.input_tokens, u.cache_create), (0, 2));
}

#[test]
fn sums_over_several_models_are_the_net() {
    let rows = [("haiku", 500i64, None), ("opus", 20, Some(FIVE_MIN_MS)), ("fable", 0, Some(1))];
    let (mut sum, mut net) = (0, 0);
    for (family, written, gap) in rows {
        let u = Usage { cache_read: 100, ephem_1h: written, ..Default::default() };
        let price = prices(family).0;
        let read = if gap == Some(FIVE_MIN_MS) { 25 } else { 2 };
        let by_default = (100 * read + i128::from(written) * 25) * price;
        sum += marginal_for(&u, family, gap).saved;
        net += by_default - cost_of(&u, family, true).cost_actual;
    }
    assert_eq!(sum, net);
    assert_eq!(sum, -7500 + (100 * 23 - 20 * 15) * 5);
}
