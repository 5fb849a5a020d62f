use ironclaw_memory::prompt::{ProfileSummary, PromptSources, build_system_prompt, join_strings};
use ironclaw_memory::seed::{
    BackfillStep, BackfillTally, Probe, SeedProbes, config_seeds, plan_seed, seed_count, seed_paths,
};
use ironclaw_memory::workspace::Workspace;

fn sources() -> PromptSources {
    PromptSources {
        bootstrap: None,
        admin: None,
        agents: None,
        soul: None,
        user: None,
        identity: None,
        tools: None,
        memory: None,
        today: None,
        yesterday: None,
        profile: None,
        directives: None,
        analysis_framework: "FRAMEWORK".to_string(),
        profile_json_schema: "SCHEMA".to_string(),
    }
}

fn profile() -> ProfileSummary {
    ProfileSummary {
        populated: true,
        confident: true,
        recent: true,
        cohort: "builder".to_string(),
        tone: "warm".to_string(),
        formality: "casual".to_string(),
        detail_level: "concise".to_string(),
        pace: "fast".to_string(),
        response_speed: "unknown".to_string(),
        decision_making: "analytical".to_string(),
        feedback_style: "direct".to_string(),
        proactivity_style: "proactive".to_string(),
        proactivity: "high".to_string(),
        notification_preferences: "moderate".to_string(),
        goals: vec!["ship".to_string(), "learn".to_string()],
        pain_points: vec![],
    }
}

#[test]
fn joins_with_separator() {
    assert_eq!(join_strings(&[], ", "), "");
    assert_eq!(join_strings(&["a".to_string()], ", "), "a");
    assert_eq!(
        join_strings(&["a".to_string(), "b".to_string()], ", "),
        "a, b"
    );
}

#[test]
fn prompt_sections_in_order() {
    let ws = Workspace::new("alice");
    let mut src = sources();
    src.agents = Some("follow rules".to_string());
    src.soul = Some(String::new());
    src.memory = Some("likes tea".to_string());
    src.today = Some("standup".to_string());
    src.directives = Some("Be brief.".to_string());
    let prompt = build_system_prompt(&ws, &src, false);
    assert_eq!(
        prompt,
        "## Agent Instructions\n\nfollow rules\n\n---\n\n## Long-Term Memory\n\nlikes tea\n\n---\n\n## Today's Notes\n\nstandup\n\n---\n\nBe brief."
    );
}

#[test]
fn group_chat_leaves_out_personal_context() {
    let ws = Workspace::new("alice");
    let mut src = sources();
    src.user = Some("Alice".to_string());
    src.memory = Some("secret".to_string());
    src.profile = Some(profile());
    src.directives = Some("Be brief.".to_string());
    let prompt = build_system_prompt(&ws, &src, true);
    assert_eq!(prompt, "## User Context\n\nAlice");
}

#[test]
fn bootstrap_injected_until_completed() {
    let mut ws = Workspace::new("alice");
    let mut src = sources();
    src.bootstrap = Some("ritual".to_string());
    let prompt = build_system_prompt(&ws, &src, false);
    assert_eq!(
        prompt,
        "## First-Run Bootstrap\n\nritual\n\n---\n\nPROFILE ANALYSIS FRAMEWORK:\nFRAMEWORK\n\nPROFILE JSON SCHEMA:\nWrite to `context/profile.json` using `memory_write` with this exact structure:\nSCHEMA\n\nIf the conversation doesn't reveal enough about a dimension, use defaults/unknown.\nFor personality trait scores: 40-60 is average range. Default to 50 if unclear.\nOnly score above 70 or below 30 with strong evidence."
    );
    ws.mark_bootstrap_completed();
    assert_eq!(build_system_prompt(&ws, &src, false), "");
}

#[test]
fn admin_prompt_only_when_enabled() {
    let mut src = sources();
    src.admin = Some("house rules".to_string());
    assert_eq!(build_system_prompt(&Workspace::new("alice"), &src, false), "");
    let ws = Workspace::new("alice").with_admin_prompt();
    assert_eq!(
        build_system_prompt(&ws, &src, false),
        "## System Instructions\n\nhouse rules"
    );
}

#[test]
fn profile_tiers() {
    let ws = Workspace::new("alice");
    let mut src = sources();
    src.profile = Some(profile());
    assert_eq!(
        build_system_prompt(&ws, &src, false),
        "## Interaction Style\n\nbuilder | warm tone | concise detail | high proactivity\n\n---\n\n## Personalization\n\nCommunication: warm tone, casual formality, concise detail, fast pace, analytical decision-making.\nProactivity style: proactive.\nActive goals: ship, learn."
    );
    let mut stale = profile();
    stale.recent = false;
    src.profile = Some(stale);
    assert_eq!(
        build_system_prompt(&ws, &src, false),
        "## Interaction Style\n\nbuilder | warm tone | concise detail | high proactivity"
    );
    let mut empty = profile();
    empty.populated = false;
    src.profile = Some(empty);
    assert_eq!(build_system_prompt(&ws, &src, false), "");
}

#[test]
fn seed_plan_only_fills_missing_files() {
    let paths = seed_paths();
    assert_eq!(paths.len(), 9);
    assert_eq!(paths[0], "README.md");
    assert_eq!(paths[8], ".system/gateway/README.md");
    let configs = config_seeds();
    assert_eq!(configs[0].0, "daily/.config");
    assert_eq!(configs[0].1.hygiene_retention_days, Some(30));
    assert_eq!(configs[1].1.hygiene_retention_days, Some(7));
    assert!(configs[2].1.skip_indexing);

    let probes = SeedProbes {
        bootstrap: Probe::NotFound,
        agents: Probe::NotFound,
        soul: Probe::NotFound,
        user: Probe::NotFound,
        files: vec![Probe::Found, Probe::NotFound, Probe::Failed],
        configs: vec![Probe::NotFound],
        has_profile: false,
    };
    let plan = plan_seed(&probes);
    assert_eq!(plan.files, vec![false, true, false]);
    assert_eq!(plan.configs, vec![true]);
    assert!(plan.bootstrap);
}

#[test]
fn seed_bootstrap_only_for_fresh_workspace_without_profile() {
    let base = || SeedProbes {
        bootstrap: Probe::NotFound,
        agents: Probe::NotFound,
        soul: Probe::NotFound,
        user: Probe::NotFound,
        files: vec![],
        configs: vec![],
        has_profile: false,
    };
    let mut p = base();
    p.has_profile = true;
    assert!(!plan_seed(&p).bootstrap);
    let mut p = base();
    p.user = Probe::Found;
    assert!(!plan_seed(&p).bootstrap);
    let mut p = base();
    p.bootstrap = Probe::Found;
    assert!(!plan_seed(&p).bootstrap);
    let mut p = base();
    p.bootstrap = Probe::Failed;
    assert!(plan_seed(&p).bootstrap);
}

#[test]
fn backfill_tally_counts_and_stops_at_limit() {
    let mut t = BackfillTally::new();
    assert_eq!(t.begin_document(Some(1), true), BackfillStep::Skip);
    assert_eq!(t.begin_document(Some(1), false), BackfillStep::Fingerprint);
    t.record(true);
    assert_eq!(t.begin_document(Some(1), false), BackfillStep::Stop);
    assert_eq!(
        t,
        BackfillTally {
            scanned: 2,
            skipped: 1,
            fingerprinted: 1,
            failed: 0
        }
    );
    assert_eq!(t.begin_document(None, false), BackfillStep::Fingerprint);
    t.record(false);
    assert_eq!(t.failed, 1);
    assert!(!t.shows_progress(2));
    assert!(t.shows_progress(3));
}

#[test]
fn seeding_existing_core_files_reports_zero() {
    let probes = SeedProbes {
        bootstrap: Probe::NotFound,
        agents: Probe::Found,
        soul: Probe::Found,
        user: Probe::Found,
        files: vec![Probe::Found; 9],
        configs: vec![Probe::NotFound, Probe::NotFound, Probe::NotFound],
        has_profile: false,
    };
    let plan = plan_seed(&probes);
    assert!(plan.files.iter().all(|f| !f));
    assert!(!plan.bootstrap);
    assert_eq!(plan.configs, vec![true, true, true]);
    assert_eq!(seed_count(&plan, &[true; 9], true), 0);
}

#[test]
fn seeding_counts_written_core_files_and_the_ritual() {
    let probes = SeedProbes {
        bootstrap: Probe::NotFound,
        agents: Probe::NotFound,
        soul: Probe::NotFound,
        user: Probe::NotFound,
        files: vec![Probe::NotFound, Probe::Found, Probe::NotFound],
        configs: vec![],
        has_profile: false,
    };
    let plan = plan_seed(&probes);
    assert_eq!(seed_count(&plan, &[true, true, false], true), 2);
    assert_eq!(seed_count(&plan, &[true, false, true], false), 2);
}
