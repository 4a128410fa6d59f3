use vibe_coding_tracker::format::format_number;
use vibe_coding_tracker::sorting::sort_by_name;
use vibe_coding_tracker::get_version_info;
use vibe_coding_tracker::json::{Json, JsonMember, JsonNumber};
use vibe_coding_tracker::pricing::{pricing_tier, PricingTier};

#[test]
fn pricing_tier_below_threshold() {
    // 1000 + 200 + 100 = 1300 < 200K
    assert_eq!(pricing_tier(1000, 200, 100), PricingTier::Base);
}

#[test]
fn pricing_tier_counts_input_context_only() {
    // 100K + 80K + 30K = 210K > 200K, no single type above 200K
    assert_eq!(pricing_tier(100_000, 80_000, 30_000), PricingTier::Above200k);
    // 50K + 60K + 40K = 150K; output tokens are not an input
    assert_eq!(pricing_tier(50_000, 60_000, 40_000), PricingTier::Base);
    assert_eq!(pricing_tier(50_000, 0, 0), PricingTier::Base);
    assert_eq!(pricing_tier(250_000, 250_000, 250_000), PricingTier::Above200k);
}

#[test]
fn pricing_tier_exactly_200k() {
    assert_eq!(pricing_tier(200_000, 0, 0), PricingTier::Base);
    assert_eq!(pricing_tier(200_001, 0, 0), PricingTier::Above200k);
    assert_eq!(pricing_tier(100_000, 50_000, 50_001), PricingTier::Above200k);
    assert_eq!(pricing_tier(-5, 0, 0), PricingTier::Base);
}

#[test]
fn version_info_fields() {
    let v = get_version_info("0.5.10", "1.90.0", "1.90.0-cargo");
    assert_eq!(v.version, "0.5.10");
    assert_eq!(v.rust_version, "1.90.0");
    assert_eq!(v.cargo_version, "1.90.0-cargo");
}

#[test]
fn json_accessors() {
    let doc = Json::Object(vec![
        JsonMember { key: "n".to_string(), value: Json::Number(JsonNumber::PosInt(7)) },
        JsonMember { key: "n".to_string(), value: Json::Number(JsonNumber::PosInt(8)) },
        JsonMember { key: "neg".to_string(), value: Json::Number(JsonNumber::NegInt(-2)) },
        JsonMember { key: "big".to_string(), value: Json::Number(JsonNumber::PosInt(u64::MAX)) },
    ]);
    assert_eq!(doc.get("n").and_then(|v| v.as_u64()), Some(7));
    assert_eq!(doc.get_u64_or_zero("neg"), 0);
    assert_eq!(doc.get("neg").and_then(|v| v.as_i64()), Some(-2));
    assert_eq!(doc.get("big").and_then(|v| v.as_i64()), None);
    assert_eq!(doc.get("big").and_then(|v| v.as_u64()), Some(u64::MAX));
    assert!(doc.get("missing").is_none());
    assert!(Json::Array(vec![]).get("n").is_none());
    assert!(doc.as_object().is_some());
    assert!(doc.as_array().is_none());
    assert_eq!(Json::Str("s".to_string()).as_str().map(|s| s.as_str()), Some("s"));
}

#[test]
fn numbers_grouped_by_thousands() {
    assert_eq!(format_number(0), "0");
    assert_eq!(format_number(999), "999");
    assert_eq!(format_number(1000), "1,000");
    assert_eq!(format_number(5567), "5,567");
    assert_eq!(format_number(4_627_938), "4,627,938");
    assert_eq!(format_number(1_000_001), "1,000,001");
    assert_eq!(format_number(-12_345), "-12,345");
    assert_eq!(format_number(i64::MIN), "-9,223,372,036,854,775,808");
    assert_eq!(format_number(i64::MAX), "9,223,372,036,854,775,807");
}

#[test]
fn names_sorted_ascending() {
    let sorted = sort_by_name(vec!["gpt-5".to_string(), "gemini-pro".to_string(), "Zed".to_string(), "a".to_string()]);
    assert_eq!(sorted, vec!["Zed", "a", "gemini-pro", "gpt-5"]);
    assert!(sort_by_name(Vec::<String>::new()).is_empty());
}

#[test]
fn counts_get_thousands_separators() {
    assert_eq!(vibe_coding_tracker::format::format_count(0), "0");
    assert_eq!(vibe_coding_tracker::format::format_count(999), "999");
    assert_eq!(vibe_coding_tracker::format::format_count(13_264), "13,264");
    assert_eq!(vibe_coding_tracker::format::format_count(1_000_005), "1,000,005");
}
