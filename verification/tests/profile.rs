use ironclaw_memory::profile::{
    PROFILE_SECTION_BEGIN, PROFILE_SECTION_END, is_seed_template, merge_profile_section,
    wrap_profile_section,
};

#[test]
fn test_merge_replaces_existing_delimited_block() {
    let existing = "# My Notes\n\nSome user content.\n\n\
        <!-- BEGIN:profile-sync -->\nold profile data\n<!-- END:profile-sync -->\n\n\
        More user content.";
    let result = merge_profile_section(existing, "new profile data");
    assert!(result.contains("new profile data"));
    assert!(!result.contains("old profile data"));
    assert!(result.contains("# My Notes"));
    assert!(result.contains("More user content."));
}

#[test]
fn test_merge_preserves_user_content_outside_block() {
    let existing = "User wrote this.\n\n\
        <!-- BEGIN:profile-sync -->\nold stuff\n<!-- END:profile-sync -->\n\n\
        And this too.";
    let result = merge_profile_section(existing, "updated");
    assert!(result.contains("User wrote this."));
    assert!(result.contains("And this too."));
    assert!(result.contains("updated"));
}

#[test]
fn test_merge_appends_when_no_markers() {
    let existing = "# My custom USER.md\n\nHand-written notes.";
    let result = merge_profile_section(existing, "profile content");
    assert!(result.contains("# My custom USER.md"));
    assert!(result.contains("Hand-written notes."));
    assert!(result.contains(PROFILE_SECTION_BEGIN));
    assert!(result.contains("profile content"));
    assert!(result.contains(PROFILE_SECTION_END));
}

#[test]
fn test_merge_migrates_old_auto_generated_header() {
    let existing = "<!-- Auto-generated from context/profile.json. Manual edits may be overwritten on profile updates. -->\n\n\
        Old profile content here.";
    let result = merge_profile_section(existing, "new profile");
    assert!(result.contains(PROFILE_SECTION_BEGIN));
    assert!(result.contains("new profile"));
    assert!(!result.contains("Old profile content here."));
    assert!(!result.contains("Auto-generated from context/profile.json"));
}

#[test]
fn test_merge_migrates_seed_template() {
    let existing = "# User Context\n\n- **Name:**\n- **Timezone:**\n- **Preferences:**\n\n\
        The agent will fill this in as it learns about you.";
    let result = merge_profile_section(existing, "actual profile");
    assert!(result.contains(PROFILE_SECTION_BEGIN));
    assert!(result.contains("actual profile"));
    assert!(!result.contains("The agent will fill this in"));
}

#[test]
fn test_merge_end_marker_must_follow_begin() {
    let existing = format!(
        "Preamble\n{}\nstray end\n{}\nreal begin\n{}\nreal end\n{}",
        PROFILE_SECTION_END,
        "middle content",
        PROFILE_SECTION_BEGIN,
        PROFILE_SECTION_END,
    );
    let result = merge_profile_section(&existing, "replaced");
    assert!(result.contains("replaced"));
    assert!(result.contains("Preamble"));
    assert!(result.contains("stray end"));
}

#[test]
fn merge_exact_results() {
    assert_eq!(
        merge_profile_section("", "p"),
        "<!-- BEGIN:profile-sync -->\np\n<!-- END:profile-sync -->"
    );
    assert_eq!(
        merge_profile_section("notes  \n", "p"),
        "notes\n\n<!-- BEGIN:profile-sync -->\np\n<!-- END:profile-sync -->"
    );
    assert_eq!(
        merge_profile_section(
            "a<!-- BEGIN:profile-sync -->\nold\n<!-- END:profile-sync -->b",
            "new"
        ),
        "a<!-- BEGIN:profile-sync -->\nnew\n<!-- END:profile-sync -->b"
    );
}

#[test]
fn merge_is_idempotent_on_its_own_output() {
    let once = merge_profile_section("# Notes\n\nmine", "profile");
    let twice = merge_profile_section(&once, "profile");
    assert_eq!(once, twice);
}

#[test]
fn wrap_and_seed_template() {
    assert_eq!(
        wrap_profile_section("x"),
        "<!-- BEGIN:profile-sync -->\nx\n<!-- END:profile-sync -->"
    );
    assert!(is_seed_template("  # User Context\n- **Name:** Bob\n"));
    assert!(!is_seed_template("# User Context\nno name field"));
}

#[test]
fn merging_content_with_angle_brackets_twice_is_stable() {
    let content = "likes <b>bold</b> and a <!-- note -->";
    for existing in ["# Notes\n\nmine\n", "", "<p>html first</p>"] {
        let once = merge_profile_section(existing, content);
        assert_eq!(merge_profile_section(&once, content), once);
        assert!(once.contains(&wrap_profile_section(content)));
    }
}
