//! The system prompt a workspace builds from its identity, memory and
//! profile documents.
use vstd::prelude::*;

use crate::config::strings_view;
use crate::text::{cat_str, chars_eq, chars_of, opt_view};
use crate::workspace::WorkspaceView;

verus! {

/// Separator between the sections of the system prompt.
pub const PROMPT_SECTION_SEPARATOR: &'static str = "\n\n---\n\n";

/// `parts` joined with `sep` between neighbours.
pub open spec fn join_spec(parts: Seq<Seq<char>>, sep: Seq<char>) -> Seq<char>
    decreases parts.len(),
{
    if parts.len() == 0 {
        Seq::empty()
    } else if parts.len() == 1 {
        parts[0]
    } else {
        join_spec(parts.drop_last(), sep) + sep + parts.last()
    }
}

/// Join strings with a separator.
pub fn join_strings(parts: &[String], sep: &str) -> (r: String)
    ensures
        r@ == join_spec(strings_view(parts@), sep@),
{
    let ghost pv = strings_view(parts@);
    let mut r = String::new();
    let mut i: usize = 0;
    assert(pv.take(0) =~= Seq::<Seq<char>>::empty());
    while i < parts.len()
        invariant
            pv == strings_view(parts@),
            0 <= i <= parts@.len(),
            r@ == join_spec(pv.take(i as int), sep@),
        decreases parts.len() - i,
    {
        assert(pv.take(i + 1).drop_last() =~= pv.take(i as int));
        assert(pv.take(i + 1).last() == parts@[i as int]@);
        if i > 0 {
            r.append(sep);
        } else {
            assert(r@ =~= Seq::<char>::empty());
        }
        r.append(parts[i].as_str());
        proof {
            if i == 0 {
                assert(r@ =~= pv.take(1)[0]);
            }
        }
        i = i + 1;
    }
    assert(pv.take(parts@.len() as int) =~= pv);
    r
}

/// The section `header` followed by a blank line and `content`, when the
/// document was read and is not empty.
pub open spec fn section(header: Seq<char>, content: Option<Seq<char>>) -> Seq<Seq<char>> {
    match content {
        Some(c) => if c.len() > 0 {
            seq![header + "\n\n"@ + c]
        } else {
            Seq::empty()
        },
        None => Seq::empty(),
    }
}

/// The psychographic profile's fields that the system prompt reads.
pub struct ProfileSummary {
    /// The profile holds real data, not only defaults.
    pub populated: bool,
    /// The profile is confident enough for full personalization.
    pub confident: bool,
    /// The profile was updated within the last week.
    pub recent: bool,
    pub cohort: String,
    pub tone: String,
    pub formality: String,
    pub detail_level: String,
    pub pace: String,
    pub response_speed: String,
    pub decision_making: String,
    pub feedback_style: String,
    pub proactivity_style: String,
    pub proactivity: String,
    pub notification_preferences: String,
    pub goals: Vec<String>,
    pub pain_points: Vec<String>,
}

/// `text` when `cond`, else nothing.
pub open spec fn when(cond: bool, text: Seq<char>) -> Seq<char> {
    if cond {
        text
    } else {
        Seq::empty()
    }
}

/// The always-on interaction style line of a populated profile.
pub open spec fn tier1_spec(p: ProfileSummary) -> Seq<char> {
    "## Interaction Style\n\n"@ + p.cohort@ + " | "@ + p.tone@ + " tone | "@ + p.detail_level@
        + " detail | "@ + p.proactivity@ + " proactivity"@
}

/// The communication line of the personalization section.
pub open spec fn tier2_head_spec(p: ProfileSummary) -> Seq<char> {
    "## Personalization\n\n"@ + "Communication: "@ + p.tone@ + " tone, "@ + p.formality@
        + " formality, "@ + p.detail_level@ + " detail, "@ + p.pace@ + " pace"@ + when(
        p.response_speed@ != "unknown"@,
        ", "@ + p.response_speed@ + " response speed"@,
    ) + when(p.decision_making@ != "unknown"@, ", "@ + p.decision_making@ + " decision-making"@)
        + "."@
}

/// The preference lines of the personalization section.
pub open spec fn tier2_tail_spec(p: ProfileSummary) -> Seq<char> {
    when(p.feedback_style@ != "direct"@, "\nFeedback style: "@ + p.feedback_style@ + "."@) + when(
        p.proactivity_style@ != "reactive"@,
        "\nProactivity style: "@ + p.proactivity_style@ + "."@,
    ) + when(
        p.notification_preferences@ != "moderate"@ && p.notification_preferences@ != "unknown"@,
        "\nNotification preference: "@ + p.notification_preferences@ + "."@,
    ) + when(
        p.goals@.len() > 0,
        "\nActive goals: "@ + join_spec(strings_view(p.goals@), ", "@) + "."@,
    ) + when(
        p.pain_points@.len() > 0,
        "\nKnown pain points: "@ + join_spec(strings_view(p.pain_points@), ", "@) + "."@,
    )
}

/// The full personalization section of a confident, recent profile.
pub open spec fn tier2_spec(p: ProfileSummary) -> Seq<char> {
    tier2_head_spec(p) + tier2_tail_spec(p)
}

/// The profile sections: the style line of a populated profile, and the
/// personalization section when it is also confident and recent.
pub open spec fn profile_sections(p: ProfileSummary) -> Seq<Seq<char>> {
    if p.populated {
        if p.confident && p.recent {
            seq![tier1_spec(p), tier2_spec(p)]
        } else {
            seq![tier1_spec(p)]
        }
    } else {
        Seq::empty()
    }
}

/// The onboarding text shown with the first-run ritual when no profile
/// exists yet.
pub open spec fn onboarding_spec(framework: Seq<char>, schema: Seq<char>) -> Seq<char> {
    "PROFILE ANALYSIS FRAMEWORK:\n"@ + framework
        + "\n\nPROFILE JSON SCHEMA:\nWrite to `context/profile.json` using `memory_write` with this exact structure:\n"@
        + schema
        + "\n\nIf the conversation doesn't reveal enough about a dimension, use defaults/unknown.\nFor personality trait scores: 40-60 is average range. Default to 50 if unclear.\nOnly score above 70 or below 30 with strong evidence."@
}

/// What the system prompt is built from: each document as read (`None`
/// when it could not be read), the parsed profile, and the onboarding texts.
pub struct PromptSources {
    /// `BOOTSTRAP.md` of the primary scope.
    pub bootstrap: Option<String>,
    /// The admin system prompt, when one is set and not empty.
    pub admin: Option<String>,
    /// `AGENTS.md`, `SOUL.md`, `USER.md`, `IDENTITY.md`, `TOOLS.md` of the
    /// primary scope.
    pub agents: Option<String>,
    pub soul: Option<String>,
    pub user: Option<String>,
    pub identity: Option<String>,
    pub tools: Option<String>,
    /// `MEMORY.md` across the read scopes.
    pub memory: Option<String>,
    /// Today's and yesterday's daily logs.
    pub today: Option<String>,
    pub yesterday: Option<String>,
    /// The profile, when `context/profile.json` exists, is not empty and parses.
    pub profile: Option<ProfileSummary>,
    /// `context/assistant-directives.md` across the read scopes.
    pub directives: Option<String>,
    /// Profile analysis framework and JSON schema for onboarding.
    pub analysis_framework: String,
    pub profile_json_schema: String,
}

/// Whether the first-run ritual is injected: onboarding is not complete
/// and `BOOTSTRAP.md` holds something.
pub open spec fn bootstrap_injected(w: WorkspaceView, src: PromptSources) -> bool {
    !w.bootstrap_completed && match opt_view(src.bootstrap) {
        Some(c) => c.len() > 0,
        None => false,
    }
}

/// The sections of the system prompt, in order. Group chats leave out
/// long-term memory, the profile and the assistant directives.
pub open spec fn prompt_sections(w: WorkspaceView, src: PromptSources, group: bool) -> Seq<Seq<char>> {
    let injected = bootstrap_injected(w, src);
    (if injected {
        section("## First-Run Bootstrap"@, opt_view(src.bootstrap))
    } else {
        Seq::empty()
    }) + (if w.admin_prompt_enabled {
        section("## System Instructions"@, opt_view(src.admin))
    } else {
        Seq::empty()
    }) + section("## Agent Instructions"@, opt_view(src.agents)) + section(
        "## Core Values"@,
        opt_view(src.soul),
    ) + section("## User Context"@, opt_view(src.user)) + section(
        "## Identity"@,
        opt_view(src.identity),
    ) + section("## Tool Notes"@, opt_view(src.tools)) + (if group {
        Seq::empty()
    } else {
        section("## Long-Term Memory"@, opt_view(src.memory))
    }) + section("## Today's Notes"@, opt_view(src.today)) + section(
        "## Yesterday's Notes"@,
        opt_view(src.yesterday),
    ) + (if group {
        Seq::empty()
    } else {
        (match src.profile {
            Some(p) => profile_sections(p),
            None => Seq::empty(),
        }) + (if injected && src.profile is None {
            seq![onboarding_spec(src.analysis_framework@, src.profile_json_schema@)]
        } else {
            Seq::empty()
        }) + match opt_view(src.directives) {
            Some(c) => if c.len() > 0 {
                seq![c]
            } else {
                Seq::empty()
            },
            None => Seq::empty(),
        }
    })
}

/// Append the section `header` of `content` when it holds something.
fn push_section(parts: &mut Vec<String>, header: &str, content: &Option<String>)
    ensures
        strings_view(final(parts)@) == strings_view(old(parts)@) + section(header@, opt_view(*content)),
{
    match content {
        Some(c) => {
            let cc = chars_of(c.as_str());
            if cc.len() > 0 {
                let a = cat_str(header, "\n\n");
                let s = cat_str(a.as_str(), c.as_str());
                let ghost before = strings_view(parts@);
                parts.push(s);
                assert(strings_view(parts@) =~= before + seq![header@ + "\n\n"@ + c@]);
            } else {
                assert(strings_view(parts@) =~= strings_view(parts@) + Seq::<Seq<char>>::empty());
            }
        },
        None => {
            assert(strings_view(parts@) =~= strings_view(parts@) + Seq::<Seq<char>>::empty());
        },
    }
}

/// Whether two strings are equal.
fn str_eq(a: &str, b: &str) -> (r: bool)
    ensures
        r == (a@ == b@),
{
    let x = chars_of(a);
    let y = chars_of(b);
    chars_eq(x.as_slice(), y.as_slice())
}

/// `s` with `text` appended.
fn append_str(s: &mut String, text: &str)
    ensures
        final(s)@ == old(s)@ + text@,
{
    s.append(text);
}

/// The style line of a profile.
fn tier1(p: &ProfileSummary) -> (r: String)
    ensures
        r@ == tier1_spec(*p),
{
    let mut r = String::from_str("## Interaction Style\n\n");
    append_str(&mut r, p.cohort.as_str());
    append_str(&mut r, " | ");
    append_str(&mut r, p.tone.as_str());
    append_str(&mut r, " tone | ");
    append_str(&mut r, p.detail_level.as_str());
    append_str(&mut r, " detail | ");
    append_str(&mut r, p.proactivity.as_str());
    append_str(&mut r, " proactivity");
    proof {
        reveal_strlit("## Interaction Style\n\n");
    }
    assert(r@ =~= tier1_spec(*p));
    r
}

/// The communication line of a profile.
fn tier2_head(p: &ProfileSummary) -> (r: String)
    ensures
        r@ == tier2_head_spec(*p),
{
    let mut r = String::from_str("## Personalization\n\n");
    append_str(&mut r, "Communication: ");
    append_str(&mut r, p.tone.as_str());
    append_str(&mut r, " tone, ");
    append_str(&mut r, p.formality.as_str());
    append_str(&mut r, " formality, ");
    append_str(&mut r, p.detail_level.as_str());
    append_str(&mut r, " detail, ");
    append_str(&mut r, p.pace.as_str());
    append_str(&mut r, " pace");
    let ghost s1 = r@;
    if !str_eq(p.response_speed.as_str(), "unknown") {
        append_str(&mut r, ", ");
        append_str(&mut r, p.response_speed.as_str());
        append_str(&mut r, " response speed");
    }
    assert(r@ =~= s1 + when(
        p.response_speed@ != "unknown"@,
        ", "@ + p.response_speed@ + " response speed"@,
    ));
    let ghost s2 = r@;
    if !str_eq(p.decision_making.as_str(), "unknown") {
        append_str(&mut r, ", ");
        append_str(&mut r, p.decision_making.as_str());
        append_str(&mut r, " decision-making");
    }
    assert(r@ =~= s2 + when(
        p.decision_making@ != "unknown"@,
        ", "@ + p.decision_making@ + " decision-making"@,
    ));
    append_str(&mut r, ".");
    proof {
        reveal_strlit("## Personalization\n\n");
    }
    assert(r@ =~= tier2_head_spec(*p));
    r
}

/// Append `text` when `cond`.
fn append_when(r: &mut String, cond: bool, text: &str)
    ensures
        final(r)@ == old(r)@ + when(cond, text@),
{
    if cond {
        append_str(r, text);
    } else {
        assert(r@ =~= r@ + Seq::<char>::empty());
    }
}

/// `a + b + c` as one string.
fn cat3(a: &str, b: &str, c: &str) -> (r: String)
    ensures
        r@ == a@ + b@ + c@,
{
    let x = cat_str(a, b);
    cat_str(x.as_str(), c)
}

/// The preference lines of a profile.
fn tier2_tail(p: &ProfileSummary) -> (r: String)
    ensures
        r@ == tier2_tail_spec(*p),
{
    let mut r = String::new();
    let fb = cat3("\nFeedback style: ", p.feedback_style.as_str(), ".");
    append_when(&mut r, !str_eq(p.feedback_style.as_str(), "direct"), fb.as_str());
    let ps = cat3("\nProactivity style: ", p.proactivity_style.as_str(), ".");
    append_when(&mut r, !str_eq(p.proactivity_style.as_str(), "reactive"), ps.as_str());
    let np = cat3("\nNotification preference: ", p.notification_preferences.as_str(), ".");
    let show_np = !str_eq(p.notification_preferences.as_str(), "moderate") && !str_eq(
        p.notification_preferences.as_str(),
        "unknown",
    );
    append_when(&mut r, show_np, np.as_str());
    let goals = join_strings(p.goals.as_slice(), ", ");
    let g = cat3("\nActive goals: ", goals.as_str(), ".");
    append_when(&mut r, p.goals.len() > 0, g.as_str());
    let pains = join_strings(p.pain_points.as_slice(), ", ");
    let pp = cat3("\nKnown pain points: ", pains.as_str(), ".");
    append_when(&mut r, p.pain_points.len() > 0, pp.as_str());
    assert(r@ =~= tier2_tail_spec(*p));
    r
}

/// The personalization section of a profile.
fn tier2(p: &ProfileSummary) -> (r: String)
    ensures
        r@ == tier2_spec(*p),
{
    let h = tier2_head(p);
    let t = tier2_tail(p);
    cat_str(h.as_str(), t.as_str())
}

/// The onboarding text.
fn onboarding(framework: &str, schema: &str) -> (r: String)
    ensures
        r@ == onboarding_spec(framework@, schema@),
{
    let mut r = String::from_str("PROFILE ANALYSIS FRAMEWORK:\n");
    append_str(&mut r, framework);
    append_str(
        &mut r,
        "\n\nPROFILE JSON SCHEMA:\nWrite to `context/profile.json` using `memory_write` with this exact structure:\n",
    );
    append_str(&mut r, schema);
    append_str(
        &mut r,
        "\n\nIf the conversation doesn't reveal enough about a dimension, use defaults/unknown.\nFor personality trait scores: 40-60 is average range. Default to 50 if unclear.\nOnly score above 70 or below 30 with strong evidence.",
    );
    proof {
        reveal_strlit("PROFILE ANALYSIS FRAMEWORK:\n");
    }
    assert(r@ =~= onboarding_spec(framework@, schema@));
    r
}

/// Build the system prompt of workspace `w` from what was read: the
/// sections of [`prompt_sections`] joined with a horizontal rule.
pub fn build_system_prompt(w: &crate::workspace::Workspace, src: &PromptSources, is_group_chat: bool) -> (r:
    String)
    ensures
        r@ == join_spec(prompt_sections(w@, *src, is_group_chat), PROMPT_SECTION_SEPARATOR@),
{
    let mut parts: Vec<String> = Vec::new();
    let injected = if w.is_bootstrap_completed() {
        false
    } else {
        match &src.bootstrap {
            Some(c) => {
                let cc = chars_of(c.as_str());
                cc.len() > 0
            },
            None => false,
        }
    };
    assert(injected == bootstrap_injected(w@, *src));
    let ghost p0 = strings_view(parts@);
    if injected {
        push_section(&mut parts, "## First-Run Bootstrap", &src.bootstrap);
    }
    let ghost p1 = strings_view(parts@);
    assert(p1 =~= p0 + if injected {
        section("## First-Run Bootstrap"@, opt_view(src.bootstrap))
    } else {
        Seq::empty()
    });
    if w.admin_prompt_enabled() {
        push_section(&mut parts, "## System Instructions", &src.admin);
    }
    let ghost p2 = strings_view(parts@);
    assert(p2 =~= p1 + if w@.admin_prompt_enabled {
        section("## System Instructions"@, opt_view(src.admin))
    } else {
        Seq::empty()
    });
    push_section(&mut parts, "## Agent Instructions", &src.agents);
    push_section(&mut parts, "## Core Values", &src.soul);
    push_section(&mut parts, "## User Context", &src.user);
    push_section(&mut parts, "## Identity", &src.identity);
    push_section(&mut parts, "## Tool Notes", &src.tools);
    let ghost p3 = strings_view(parts@);
    if !is_group_chat {
        push_section(&mut parts, "## Long-Term Memory", &src.memory);
    }
    let ghost p4 = strings_view(parts@);
    assert(p4 =~= p3 + if is_group_chat {
        Seq::empty()
    } else {
        section("## Long-Term Memory"@, opt_view(src.memory))
    });
    push_section(&mut parts, "## Today's Notes", &src.today);
    push_section(&mut parts, "## Yesterday's Notes", &src.yesterday);
    let ghost p5 = strings_view(parts@);
    if !is_group_chat {
        match &src.profile {
            Some(p) => {
                if p.populated {
                    parts.push(tier1(p));
                    if p.confident && p.recent {
                        parts.push(tier2(p));
                    }
                }
            },
            None => {},
        }
        let ghost p6 = strings_view(parts@);
        assert(p6 =~= p5 + match src.profile {
            Some(p) => profile_sections(p),
            None => Seq::empty(),
        });
        if injected && src.profile.is_none() {
            parts.push(onboarding(src.analysis_framework.as_str(), src.profile_json_schema.as_str()));
        }
        let ghost p7 = strings_view(parts@);
        assert(p7 =~= p6 + if injected && src.profile is None {
            seq![onboarding_spec(src.analysis_framework@, src.profile_json_schema@)]
        } else {
            Seq::empty()
        });
        match &src.directives {
            Some(c) => {
                let cc = chars_of(c.as_str());
                if cc.len() > 0 {
                    parts.push(c.clone());
                }
            },
            None => {},
        }
    }
    assert(strings_view(parts@) =~= prompt_sections(w@, *src, is_group_chat));
    join_strings(parts.as_slice(), PROMPT_SECTION_SEPARATOR)
}

/// In a group chat the system prompt does not depend on long-term memory,
/// the profile or the assistant directives: changing them changes nothing.
pub proof fn law_group_chat_hides_personal_context(
    w: WorkspaceView,
    src: PromptSources,
    other: PromptSources,
)
    requires
        other.bootstrap == src.bootstrap,
        other.admin == src.admin,
        other.agents == src.agents,
        other.soul == src.soul,
        other.user == src.user,
        other.identity == src.identity,
        other.tools == src.tools,
        other.today == src.today,
        other.yesterday == src.yesterday,
    ensures
        prompt_sections(w, src, true) == prompt_sections(w, other, true),
{
}

/// Once onboarding is complete the first-run ritual is never injected,
/// whatever `BOOTSTRAP.md` holds, and no onboarding text is added.
pub proof fn law_completed_bootstrap_not_injected(
    w: WorkspaceView,
    src: PromptSources,
    other: PromptSources,
    group: bool,
)
    requires
        w.bootstrap_completed,
        other.admin == src.admin,
        other.agents == src.agents,
        other.soul == src.soul,
        other.user == src.user,
        other.identity == src.identity,
        other.tools == src.tools,
        other.memory == src.memory,
        other.today == src.today,
        other.yesterday == src.yesterday,
        other.profile == src.profile,
        other.directives == src.directives,
    ensures
        !bootstrap_injected(w, src),
        prompt_sections(w, src, group) == prompt_sections(w, other, group),
{
}

proof fn lemma_contains_left<T>(a: Seq<T>, b: Seq<T>, x: T)
    requires
        a.contains(x),
    ensures
        (a + b).contains(x),
{
    let i = choose|i: int| 0 <= i < a.len() && a[i] == x;
    assert((a + b)[i] == x);
}

proof fn lemma_contains_right<T>(a: Seq<T>, b: Seq<T>, x: T)
    requires
        b.contains(x),
    ensures
        (a + b).contains(x),
{
    let i = choose|i: int| 0 <= i < b.len() && b[i] == x;
    assert((a + b)[a.len() + i] == x);
}

proof fn lemma_section_holds(header: Seq<char>, c: Seq<char>)
    requires
        c.len() > 0,
    ensures
        section(header, Some(c)).contains(header + "\n\n"@ + c),
{
    assert(section(header, Some(c))[0] == header + "\n\n"@ + c);
}

/// Every identity document that holds something reaches the system prompt,
/// in a group chat too: agent instructions, core values (`SOUL.md`), user
/// context, identity and tool notes each appear as their header, a blank
/// line and the document's content.
pub proof fn law_identity_documents_in_prompt(w: WorkspaceView, src: PromptSources, group: bool)
    ensures
        match opt_view(src.agents) {
            Some(c) => c.len() > 0 ==> prompt_sections(w, src, group).contains(
                "## Agent Instructions"@ + "\n\n"@ + c,
            ),
            None => true,
        },
        match opt_view(src.soul) {
            Some(c) => c.len() > 0 ==> prompt_sections(w, src, group).contains(
                "## Core Values"@ + "\n\n"@ + c,
            ),
            None => true,
        },
        match opt_view(src.user) {
            Some(c) => c.len() > 0 ==> prompt_sections(w, src, group).contains(
                "## User Context"@ + "\n\n"@ + c,
            ),
            None => true,
        },
        match opt_view(src.identity) {
            Some(c) => c.len() > 0 ==> prompt_sections(w, src, group).contains(
                "## Identity"@ + "\n\n"@ + c,
            ),
            None => true,
        },
        match opt_view(src.tools) {
            Some(c) => c.len() > 0 ==> prompt_sections(w, src, group).contains(
                "## Tool Notes"@ + "\n\n"@ + c,
            ),
            None => true,
        },
{
    let injected = bootstrap_injected(w, src);
    let x0: Seq<Seq<char>> = if injected {
        section("## First-Run Bootstrap"@, opt_view(src.bootstrap))
    } else {
        Seq::empty()
    };
    let x1: Seq<Seq<char>> = if w.admin_prompt_enabled {
        section("## System Instructions"@, opt_view(src.admin))
    } else {
        Seq::empty()
    };
    let sa = section("## Agent Instructions"@, opt_view(src.agents));
    let ss = section("## Core Values"@, opt_view(src.soul));
    let su = section("## User Context"@, opt_view(src.user));
    let si = section("## Identity"@, opt_view(src.identity));
    let st = section("## Tool Notes"@, opt_view(src.tools));
    let whole = prompt_sections(w, src, group);
    let p0 = x0 + x1;
    let p1 = p0 + sa;
    let p2 = p1 + ss;
    let p3 = p2 + su;
    let p4 = p3 + si;
    let p5 = p4 + st;
    let rest = whole.skip(p5.len() as int);
    assert(whole =~= p5 + rest);
    if let Some(c) = opt_view(src.agents) {
        if c.len() > 0 {
            let x = "## Agent Instructions"@ + "\n\n"@ + c;
            lemma_section_holds("## Agent Instructions"@, c);
            lemma_contains_right(p0, sa, x);
            lemma_contains_left(p1, ss, x);
            lemma_contains_left(p2, su, x);
            lemma_contains_left(p3, si, x);
            lemma_contains_left(p4, st, x);
            lemma_contains_left(p5, rest, x);
        }
    }
    if let Some(c) = opt_view(src.soul) {
        if c.len() > 0 {
            let x = "## Core Values"@ + "\n\n"@ + c;
            lemma_section_holds("## Core Values"@, c);
            lemma_contains_right(p1, ss, x);
            lemma_contains_left(p2, su, x);
            lemma_contains_left(p3, si, x);
            lemma_contains_left(p4, st, x);
            lemma_contains_left(p5, rest, x);
        }
    }
    if let Some(c) = opt_view(src.user) {
        if c.len() > 0 {
            let x = "## User Context"@ + "\n\n"@ + c;
            lemma_section_holds("## User Context"@, c);
            lemma_contains_right(p2, su, x);
            lemma_contains_left(p3, si, x);
            lemma_contains_left(p4, st, x);
            lemma_contains_left(p5, rest, x);
        }
    }
    if let Some(c) = opt_view(src.identity) {
        if c.len() > 0 {
            let x = "## Identity"@ + "\n\n"@ + c;
            lemma_section_holds("## Identity"@, c);
            lemma_contains_right(p3, si, x);
            lemma_contains_left(p4, st, x);
            lemma_contains_left(p5, rest, x);
        }
    }
    if let Some(c) = opt_view(src.tools) {
        if c.len() > 0 {
            let x = "## Tool Notes"@ + "\n\n"@ + c;
            lemma_section_holds("## Tool Notes"@, c);
            lemma_contains_right(p4, st, x);
            lemma_contains_left(p5, rest, x);
        }
    }
}

} // verus!
