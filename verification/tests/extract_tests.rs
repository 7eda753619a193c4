use batch_acceptance_app::extract::{
    candidate_name, collision_name, extract_failure, extract_summary, plan_extract, probe_step,
    record_transfer, ExtractResult, NameProbe, NAME_ATTEMPTS,
    ExtractRow,
};
use batch_acceptance_app::types::RiskTier;

fn row(tier: RiskTier, json: &str) -> ExtractRow {
    ExtractRow {
        tier,
        json_path: json.to_string(),
        json_named: !json.is_empty(),
        jpg_path: None,
        txt_path: None,
    }
}

#[test]
fn test_extract_collision_renames() {
    assert_eq!(collision_name("d.json", 1), "d_1.json");
    assert_eq!(collision_name("d.json", 12), "d_12.json");
    assert_eq!(collision_name("a.b.json", 2), "a.b_2.json");
    assert_eq!(collision_name("noext", 3), "noext_3");
    assert_eq!(collision_name(".hidden", 1), ".hidden_1");
    assert_eq!(collision_name("trail.", 1), "trail_1");
    assert_eq!(collision_name("..", 1), ".._1");
    assert_eq!(collision_name("..x", 1), "._1.x");
}

#[test]
fn collision_names_are_distinct() {
    let names: Vec<String> = (1..200).map(|i| collision_name("c.txt", i)).collect();
    for (i, a) in names.iter().enumerate() {
        assert_ne!(a, "c.txt");
        for b in &names[i + 1..] {
            assert_ne!(a, b);
        }
    }
}

#[test]
fn test_extract_respects_tier_filter() {
    let rows = vec![
        row(RiskTier::Low, "/s/high_quality.json"),
        row(RiskTier::High, "/s/risky.json"),
        row(RiskTier::Medium, "/s/meh.json"),
    ];
    let plan = plan_extract(&rows, &vec![RiskTier::High], true, true);
    assert_eq!(plan.sources, vec!["/s/risky.json".to_string()]);
    assert_eq!(plan.skipped, 0);
    let plan2 = plan_extract(&rows, &vec![RiskTier::Medium, RiskTier::Low], true, true);
    assert_eq!(
        plan2.sources,
        vec!["/s/high_quality.json".to_string(), "/s/meh.json".to_string()]
    );
}

#[test]
fn test_extract_includes_jpg_and_txt_sidecars() {
    let mut r = row(RiskTier::High, "/s/c.json");
    r.jpg_path = Some("/s/c.jpg".to_string());
    r.txt_path = Some("/s/c.txt".to_string());
    let rows = vec![r];
    let all = plan_extract(&rows, &vec![RiskTier::High], true, true);
    assert_eq!(all.sources, vec!["/s/c.json", "/s/c.jpg", "/s/c.txt"]);
    let json_only = plan_extract(&rows, &vec![RiskTier::High], false, false);
    assert_eq!(json_only.sources, vec!["/s/c.json"]);
    let with_txt = plan_extract(&rows, &vec![RiskTier::High], false, true);
    assert_eq!(with_txt.sources, vec!["/s/c.json", "/s/c.txt"]);
}

#[test]
fn test_extract_skips_empty_json_path() {
    let rows = vec![row(RiskTier::High, ""), row(RiskTier::Low, "")];
    let plan = plan_extract(&rows, &vec![RiskTier::High], false, false);
    assert_eq!(plan.sources.len(), 0);
    assert_eq!(plan.skipped, 1);
    let mut unnamed = row(RiskTier::High, "/");
    unnamed.json_named = false;
    let plan2 = plan_extract(&vec![unnamed], &vec![RiskTier::High], true, true);
    assert_eq!(plan2.sources.len(), 0);
    assert_eq!(plan2.skipped, 1);
}

#[test]
fn test_extract_copies_json_only() {
    let mut result = ExtractResult::default();
    record_transfer("/s/a.json", "/d/a.json", Ok(()), &mut result);
    assert_eq!(result.transferred, vec!["/d/a.json".to_string()]);
    assert!(result.errors.is_empty());
    assert_eq!(result.skipped, 0);
}

#[test]
fn test_extract_moves_json() {
    let mut result = ExtractResult::default();
    record_transfer("/s/b.json", "/d/b.json", Err("denied".to_string()), &mut result);
    assert!(result.transferred.is_empty());
    assert_eq!(
        result.errors,
        vec![("/s/b.json".to_string(), "denied".to_string())]
    );
}

#[test]
fn summary_and_failure_messages() {
    assert_eq!(
        extract_summary(false, 3, "/dest", 0, 1),
        "Copied 3 file(s) to /dest (errors: 0, skipped: 1)"
    );
    assert_eq!(
        extract_summary(true, 12, "/d", 2, 0),
        "Moved 12 file(s) to /d (errors: 2, skipped: 0)"
    );
    assert_eq!(extract_failure("Copy", "no such dir"), "Copy failed: no such dir");
}

#[test]
fn destination_probing() {
    assert_eq!(candidate_name("d.json", 0), "d.json");
    assert_eq!(candidate_name("d.json", 3), "d_3.json");
    assert_eq!(probe_step(0, false), NameProbe::Take);
    assert_eq!(probe_step(0, true), NameProbe::Next(1));
    assert_eq!(probe_step(NAME_ATTEMPTS - 2, true), NameProbe::Next(NAME_ATTEMPTS - 1));
    assert_eq!(probe_step(NAME_ATTEMPTS - 1, true), NameProbe::GiveUp);
    assert_eq!(probe_step(NAME_ATTEMPTS - 1, false), NameProbe::Take);
}
