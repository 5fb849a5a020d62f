//! The decisions of the memory tools: which parameters are accepted, where a
//! write goes and what it does, and how reads, searches and trees are shaped.
use vstd::prelude::*;

use crate::config::{HdcDedupMode, strings_view};
use crate::document::{identity_paths, is_identity_path};
use crate::error::ToolError;
use crate::guards::{
    filesystem_path_spec, is_protected_orchestrator_path, is_protected_py_path,
    looks_like_filesystem_path, normalize_workspace_path, normalize_workspace_path_spec,
    protected_orchestrator_spec, protected_py_spec,
};
use crate::normalize::{normalize_path, normalize_path_spec};
use crate::ops::daily_log_path;
use crate::paths;
use crate::prompt::{join_spec, join_strings};
use crate::text::{
    CharClass, cat_str, chars_eq, chars_of, opt_view, starts_with, trim_chars, trim_spec,
};

verus! {

/// The parameters of a `memory_write` call; each is `None` when absent or
/// not of the expected JSON type.
pub struct WriteRequest {
    pub target: Option<String>,
    pub content: Option<String>,
    pub append: Option<bool>,
    pub layer: Option<String>,
    pub force: Option<bool>,
    /// A `metadata` object was given.
    pub has_metadata: bool,
    pub old_string: Option<String>,
    pub new_string: Option<String>,
    pub replace_all: Option<bool>,
}

/// Where a write goes.
#[derive(Debug)]
pub enum WriteRoute {
    /// The named memory layer.
    Layer(String),
    /// `MEMORY.md` (appends separate entries with a blank line).
    Memory,
    /// Today's daily log (always appended, time-stamped).
    DailyLog,
    /// The resolved path itself.
    Path,
}

/// What a `memory_write` call does.
#[derive(Debug)]
pub enum WriteKind {
    /// Clear `BOOTSTRAP.md` and mark the first-run ritual complete.
    ClearBootstrap,
    /// Search-and-replace in the document (its parameters are checked by
    /// [`check_patch_params`] after any metadata update).
    Patch,
    /// Write or append the content.
    Write { append: bool, route: WriteRoute },
}

/// Which document a metadata update applies to before the write.
#[derive(Debug, Clone, Copy, PartialEq, Eq, Structural)]
pub enum MetadataStep {
    /// No metadata update.
    Skip,
    /// The existing document of the primary scope, if any.
    ReadPrimary,
    /// The document, created empty when missing.
    GetOrCreate,
}

/// How a `memory_write` call proceeds once its parameters are accepted.
pub struct WritePlan {
    pub kind: WriteKind,
    /// The workspace path written.
    pub path: String,
    /// The content written (empty when clearing the bootstrap file).
    pub content: String,
    /// Skip privacy redirects and dedup blocking.
    pub force: bool,
    /// The document is orchestrator Python: check the syntax of what would
    /// be written first.
    pub validate_python: bool,
    pub metadata: MetadataStep,
    /// Run the near-duplicate check before writing.
    pub dedup_check: bool,
    /// The profile was written: re-derive the documents built from it.
    pub sync_profile: bool,
}

/// The value of an optional string, or `default`.
pub open spec fn or_default(o: Option<String>, default: Seq<char>) -> Seq<char> {
    match o {
        Some(s) => s@,
        None => default,
    }
}

/// The target of a write request (`daily_log` by default).
pub open spec fn target_spec(req: WriteRequest) -> Seq<char> {
    or_default(req.target, "daily_log"@)
}

/// The path is neither a logical alias nor normalizable: it holds a `..`
/// segment.
pub open spec fn traversal_spec(target: Seq<char>) -> bool {
    !"orchestrator:"@.is_prefix_of(target) && !"prompt:"@.is_prefix_of(target)
        && normalize_workspace_path_spec(target) is None
}

/// Why the write request is refused before any work, if it is.
pub open spec fn write_rejection(req: WriteRequest, self_modify: bool) -> Option<ToolErrorView> {
    let target = target_spec(req);
    let content = or_default(req.content, Seq::empty());
    let is_patch = req.old_string is Some;
    let has_content = trim_spec(content, CharClass::Whitespace).len() > 0;
    if !is_patch && !has_content && target != "bootstrap"@ {
        Some(
            ToolErrorView::InvalidParameters(
                "Either 'content' (for write/append) or 'old_string'+'new_string' (for patch) is required"@,
            ),
        )
    } else if filesystem_path_spec(target) {
        Some(
            ToolErrorView::InvalidParameters(
                "'"@ + target
                    + "' looks like a local filesystem path. memory_write only works with workspace-memory paths. Use write_file for filesystem writes. For opening files in an editor, use shell with: open \"<absolute_path>\"."@,
            ),
        )
    } else if traversal_spec(target) {
        Some(
            ToolErrorView::InvalidParameters(
                "'"@ + target
                    + "' contains a parent-directory ('..') segment, which is not allowed in workspace paths."@,
            ),
        )
    } else if protected_orchestrator_spec(target) && !self_modify {
        Some(
            ToolErrorView::NotAuthorized(
                "Writing to '"@ + target
                    + "' is blocked \u{2014} orchestrator self-modification is disabled. Set ORCHESTRATOR_SELF_MODIFY=true to enable runtime patching."@,
            ),
        )
    } else {
        None
    }
}

/// The value of a [`ToolError`].
pub enum ToolErrorView {
    InvalidParameters(Seq<char>),
    NotAuthorized(Seq<char>),
    ExecutionFailed(Seq<char>),
}

/// The value of a tool error.
pub open spec fn tool_error_view(e: ToolError) -> ToolErrorView {
    match e {
        ToolError::InvalidParameters(m) => ToolErrorView::InvalidParameters(m@),
        ToolError::NotAuthorized(m) => ToolErrorView::NotAuthorized(m@),
        ToolError::ExecutionFailed(m) => ToolErrorView::ExecutionFailed(m@),
    }
}

/// The workspace path a target names: `memory`, `daily_log` (today's log),
/// `heartbeat`, or the path itself.
pub open spec fn resolved_path_spec(target: Seq<char>, today: Seq<char>) -> Seq<char> {
    if target == "memory"@ {
        paths::MEMORY@
    } else if target == "daily_log"@ {
        "daily/"@ + today + ".md"@
    } else if target == "heartbeat"@ {
        paths::HEARTBEAT@
    } else {
        target
    }
}

/// The plan of an accepted write request.
pub open spec fn plan_matches(req: WriteRequest, today: Seq<char>, mode: HdcDedupMode, plan: WritePlan) -> bool {
    let target = target_spec(req);
    if target == "bootstrap"@ {
        &&& plan.kind is ClearBootstrap
        &&& plan.path@ == paths::BOOTSTRAP@
        &&& plan.content@ == Seq::<char>::empty()
    } else {
        let path = resolved_path_spec(target, today);
        let append = match req.append {
            Some(a) => a,
            None => true,
        };
        let force = match req.force {
            Some(f) => f,
            None => false,
        };
        let is_patch = req.old_string is Some;
        &&& plan.path@ == path
        &&& plan.content@ == or_default(req.content, Seq::empty())
        &&& plan.force == force
        &&& plan.validate_python == protected_py_spec(path)
        &&& plan.metadata == if req.has_metadata && req.layer is None {
            if is_patch {
                MetadataStep::ReadPrimary
            } else {
                MetadataStep::GetOrCreate
            }
        } else {
            MetadataStep::Skip
        }
        &&& if is_patch {
            &&& plan.kind is Patch
            &&& !plan.dedup_check
            &&& !plan.sync_profile
        } else {
            &&& plan.kind matches WriteKind::Write { append: a, route } && a == append && match req.layer {
                Some(l) => route matches WriteRoute::Layer(n) && n@ == l@,
                None => if target == "memory"@ {
                    route is Memory
                } else if target == "daily_log"@ {
                    route is DailyLog
                } else {
                    route is Path
                },
            }
            &&& plan.dedup_check == (mode != HdcDedupMode::Off && !force && !append
                && !identity_paths().contains(path) && path != paths::HEARTBEAT@)
            &&& plan.sync_profile == (normalize_path_spec(path) == paths::PROFILE@)
        }
    }
}

/// A `memory_write` without an `append` parameter appends, whatever the
/// target; an explicit `append` is followed as given. This holds of every
/// accepted write that is neither a patch nor the bootstrap clear.
pub proof fn law_write_appends_by_default(
    req: WriteRequest,
    today: Seq<char>,
    mode: HdcDedupMode,
    plan: WritePlan,
)
    requires
        plan_matches(req, today, mode, plan),
        req.old_string is None,
        target_spec(req) != "bootstrap"@,
    ensures
        plan.kind matches WriteKind::Write { append, .. } && append == match req.append {
            Some(a) => a,
            None => true,
        },
        req.append is None ==> (plan.kind matches WriteKind::Write { append, .. } && append),
{
}

fn str_eq(a: &str, b: &str) -> (r: bool)
    ensures
        r == (a@ == b@),
{
    let x = chars_of(a);
    let y = chars_of(b);
    chars_eq(x.as_slice(), y.as_slice())
}

fn starts_with_lit(s: &str, p: &str) -> (r: bool)
    ensures
        r == p@.is_prefix_of(s@),
{
    let x = chars_of(s);
    let y = chars_of(p);
    starts_with(x.as_slice(), y.as_slice())
}

fn opt_or(o: &Option<String>, default: &str) -> (r: String)
    ensures
        r@ == match o {
            Some(s) => s@,
            None => default@,
        },
{
    match o {
        Some(s) => s.clone(),
        None => String::from_str(default),
    }
}

/// Check a `memory_write` request and plan its work: the content or a patch
/// must be given (except to clear the bootstrap file), the target must not
/// be a filesystem path or hold a `..` segment, and orchestrator paths need
/// self-modification enabled. `today` is the date of the user's day
/// (`YYYY-MM-DD`); `dedup_mode` the configured near-duplicate handling.
pub fn plan_memory_write(req: &WriteRequest, self_modify: bool, today: &str, dedup_mode: HdcDedupMode) -> (r:
    Result<WritePlan, ToolError>)
    ensures
        match r {
            Err(e) => write_rejection(*req, self_modify) == Some(tool_error_view(e)),
            Ok(plan) => write_rejection(*req, self_modify) is None && plan_matches(
                *req,
                today@,
                dedup_mode,
                plan,
            ),
        },
{
    proof {
        reveal_strlit("");
    }
    let target = opt_or(&req.target, "daily_log");
    let content = opt_or(&req.content, "");
    assert(content@ == or_default(req.content, Seq::empty()));
    let is_patch = req.old_string.is_some();
    let cc = chars_of(content.as_str());
    let trimmed = trim_chars(cc.as_slice(), CharClass::Whitespace);
    let has_content = trimmed.len() > 0;
    let is_bootstrap = str_eq(target.as_str(), "bootstrap");
    if !is_patch && !has_content && !is_bootstrap {
        return Err(
            ToolError::InvalidParameters(
                String::from_str(
                    "Either 'content' (for write/append) or 'old_string'+'new_string' (for patch) is required",
                ),
            ),
        );
    }
    if looks_like_filesystem_path(target.as_str()) {
        let a = cat_str("'", target.as_str());
        let m = cat_str(
            a.as_str(),
            "' looks like a local filesystem path. memory_write only works with workspace-memory paths. Use write_file for filesystem writes. For opening files in an editor, use shell with: open \"<absolute_path>\".",
        );
        return Err(ToolError::InvalidParameters(m));
    }
    let alias = starts_with_lit(target.as_str(), "orchestrator:") || starts_with_lit(
        target.as_str(),
        "prompt:",
    );
    if !alias && normalize_workspace_path(target.as_str()).is_none() {
        let a = cat_str("'", target.as_str());
        let m = cat_str(
            a.as_str(),
            "' contains a parent-directory ('..') segment, which is not allowed in workspace paths.",
        );
        return Err(ToolError::InvalidParameters(m));
    }
    if is_protected_orchestrator_path(target.as_str()) && !self_modify {
        let a = cat_str("Writing to '", target.as_str());
        let m = cat_str(
            a.as_str(),
            "' is blocked \u{2014} orchestrator self-modification is disabled. Set ORCHESTRATOR_SELF_MODIFY=true to enable runtime patching.",
        );
        return Err(ToolError::NotAuthorized(m));
    }
    if is_bootstrap {
        return Ok(
            WritePlan {
                kind: WriteKind::ClearBootstrap,
                path: String::from_str(paths::BOOTSTRAP),
                content: String::new(),
                force: false,
                validate_python: false,
                metadata: MetadataStep::Skip,
                dedup_check: false,
                sync_profile: false,
            },
        );
    }
    let append = match req.append {
        Some(a) => a,
        None => true,
    };
    let force = match req.force {
        Some(f) => f,
        None => false,
    };
    let is_memory = str_eq(target.as_str(), "memory");
    let is_daily = str_eq(target.as_str(), "daily_log");
    let path = if is_memory {
        String::from_str(paths::MEMORY)
    } else if is_daily {
        daily_log_path(today)
    } else if str_eq(target.as_str(), "heartbeat") {
        String::from_str(paths::HEARTBEAT)
    } else {
        target.clone()
    };
    let validate_python = is_protected_py_path(path.as_str());
    let metadata = if req.has_metadata && req.layer.is_none() {
        if is_patch {
            MetadataStep::ReadPrimary
        } else {
            MetadataStep::GetOrCreate
        }
    } else {
        MetadataStep::Skip
    };
    if is_patch {
        return Ok(
            WritePlan {
                kind: WriteKind::Patch,
                path,
                content,
                force,
                validate_python,
                metadata,
                dedup_check: false,
                sync_profile: false,
            },
        );
    }
    let route = match &req.layer {
        Some(l) => WriteRoute::Layer(l.clone()),
        None => if is_memory {
            WriteRoute::Memory
        } else if is_daily {
            WriteRoute::DailyLog
        } else {
            WriteRoute::Path
        },
    };
    let system_path = is_identity_path(path.as_str()) || str_eq(path.as_str(), paths::HEARTBEAT);
    let dedup_check = dedup_mode != HdcDedupMode::Off && !force && !append && !system_path;
    let normalized = normalize_path(path.as_str());
    let sync_profile = str_eq(normalized.as_str(), paths::PROFILE);
    Ok(
        WritePlan {
            kind: WriteKind::Write { append, route },
            path,
            content,
            force,
            validate_python,
            metadata,
            dedup_check,
            sync_profile,
        },
    )
}

/// The checked parameters of a patch.
pub struct PatchParams {
    pub old_string: String,
    pub new_string: String,
    pub replace_all: bool,
}

/// Check the patch parameters of a write request: `old_string` must be
/// non-empty, no layer may be given, and `new_string` is required.
pub fn check_patch_params(req: &WriteRequest) -> (r: Result<PatchParams, ToolError>)
    requires
        req.old_string is Some,
    ensures
        match r {
            Ok(p) => req.old_string->0@.len() > 0 && req.layer is None && req.new_string is Some
                && p.old_string@ == req.old_string->0@ && p.new_string@ == req.new_string->0@
                && p.replace_all == (req.replace_all == Some(true)),
            Err(e) => tool_error_view(e) == if req.old_string->0@.len() == 0 {
                ToolErrorView::InvalidParameters("old_string cannot be empty"@)
            } else if req.layer is Some {
                ToolErrorView::InvalidParameters(
                    "patch mode (old_string/new_string) cannot be combined with layer"@,
                )
            } else {
                ToolErrorView::InvalidParameters(
                    "new_string is required when old_string is provided"@,
                )
            } && !(req.old_string->0@.len() > 0 && req.layer is None && req.new_string is Some),
        },
{
    let old = match &req.old_string {
        Some(s) => s.clone(),
        None => String::new(),
    };
    let oc = chars_of(old.as_str());
    if oc.len() == 0 {
        return Err(ToolError::InvalidParameters(String::from_str("old_string cannot be empty")));
    }
    if req.layer.is_some() {
        return Err(
            ToolError::InvalidParameters(
                String::from_str("patch mode (old_string/new_string) cannot be combined with layer"),
            ),
        );
    }
    match &req.new_string {
        None => Err(
            ToolError::InvalidParameters(
                String::from_str("new_string is required when old_string is provided"),
            ),
        ),
        Some(n) => Ok(
            PatchParams {
                old_string: old,
                new_string: n.clone(),
                replace_all: match req.replace_all {
                    Some(b) => b,
                    None => false,
                },
            },
        ),
    }
}

/// A near-duplicate blocks the write only in block mode.
pub fn dedup_blocks(is_duplicate: bool, mode: HdcDedupMode) -> (r: bool)
    ensures
        r == (is_duplicate && mode == HdcDedupMode::Block),
{
    is_duplicate && mode == HdcDedupMode::Block
}

/// Whether a tool call needs human approval.
#[derive(Debug, Clone, Copy, PartialEq, Eq, Structural)]
pub enum ApprovalRequirement {
    Never,
    Always,
}

/// A write needs approval every time when self-modification is enabled and
/// its target is a protected orchestrator path; a traversal attempt needs
/// none, as the write itself rejects it.
pub open spec fn approval_spec(target: Seq<char>, self_modify: bool) -> ApprovalRequirement {
    if !self_modify || traversal_spec(target) {
        ApprovalRequirement::Never
    } else if protected_orchestrator_spec(target) {
        ApprovalRequirement::Always
    } else {
        ApprovalRequirement::Never
    }
}

/// The approval a `memory_write` call with this target needs (an absent
/// target counts as empty).
pub fn write_requires_approval(target: Option<&str>, self_modify: bool) -> (r: ApprovalRequirement)
    ensures
        r == approval_spec(
            match target {
                Some(t) => t@,
                None => Seq::empty(),
            },
            self_modify,
        ),
{
    proof {
        reveal_strlit("");
    }
    let t = match target {
        Some(t) => t,
        None => "",
    };
    if !self_modify {
        return ApprovalRequirement::Never;
    }
    let alias = starts_with_lit(t, "orchestrator:") || starts_with_lit(t, "prompt:");
    if !alias && normalize_workspace_path(t).is_none() {
        return ApprovalRequirement::Never;
    }
    if is_protected_orchestrator_path(t) {
        ApprovalRequirement::Always
    } else {
        ApprovalRequirement::Never
    }
}

/// Number of results a search returns: 5 by default, at most 20.
pub fn search_limit(limit: Option<u64>) -> (r: usize)
    ensures
        r == match limit {
            Some(l) => if l < 20 {
                l as int
            } else {
                20
            },
            None => 5,
        },
{
    let l = match limit {
        Some(l) => l,
        None => 5,
    };
    if l < 20 {
        l as usize
    } else {
        20
    }
}

/// Search results are synthesized by the model when reasoning is asked for
/// (or enabled by default), a model is configured and there are results.
pub fn wants_synthesis(reasoning: Option<bool>, enabled: bool, has_llm: bool, result_count: usize) -> (r:
    bool)
    ensures
        r == (match reasoning {
            Some(b) => b,
            None => enabled,
        } && has_llm && result_count > 0),
{
    let use_reasoning = match reasoning {
        Some(b) => b,
        None => enabled,
    };
    use_reasoning && has_llm && result_count > 0
}

/// The user message asking the model to synthesize memory fragments.
pub fn synthesis_message(query: &str, fragments: &[String]) -> (r: String)
    ensures
        r@ == "Query: "@ + query@ + "\n\nMemory fragments:\n"@ + join_spec(
            strings_view(fragments@),
            "\n\n"@,
        ),
{
    let a = cat_str("Query: ", query);
    let b = cat_str(a.as_str(), "\n\nMemory fragments:\n");
    let f = join_strings(fragments, "\n\n");
    cat_str(b.as_str(), f.as_str())
}

/// Depth of a tree listing: 1 by default, between 1 and 10.
pub fn tree_depth(depth: Option<u64>) -> (r: usize)
    ensures
        r == match depth {
            Some(d) => if d < 1 {
                1
            } else if d > 10 {
                10
            } else {
                d as int
            },
            None => 1,
        },
{
    let d = match depth {
        Some(d) => d,
        None => 1,
    };
    if d < 1 {
        1
    } else if d > 10 {
        10
    } else {
        d as usize
    }
}

/// The label of an entry in a tree: its name, with a trailing `/` for a
/// directory.
pub open spec fn tree_label_spec(e: crate::listing::EntryView) -> Seq<char> {
    if e.is_directory {
        crate::document::after_last(e.path, '/') + "/"@
    } else {
        crate::document::after_last(e.path, '/')
    }
}

/// The label of an entry in a tree, as [`tree_label_spec`].
pub fn tree_label(entry: &crate::listing::WorkspaceEntry) -> (r: String)
    ensures
        r@ == tree_label_spec(entry@),
{
    let name = entry.name();
    if entry.is_directory {
        cat_str(name.as_str(), "/")
    } else {
        name
    }
}

/// Whether a tree listing at `current_depth` lists its directory at all.
pub fn tree_lists(current_depth: usize, max_depth: usize) -> (r: bool)
    ensures
        r == (current_depth <= max_depth),
{
    current_depth <= max_depth
}

/// One entry of a tree level: its label, and the directory to list below it
/// when the tree descends into it.
pub struct TreeStep {
    pub label: String,
    pub descend: Option<String>,
}

/// The steps of one tree level listed at `current_depth`: each entry gets
/// its label, and a directory is descended into while `current_depth` is
/// below `max_depth`.
pub fn tree_steps(
    entries: &[crate::listing::WorkspaceEntry],
    current_depth: usize,
    max_depth: usize,
) -> (r: Vec<TreeStep>)
    ensures
        r@.len() == entries@.len(),
        forall|i: int|
            0 <= i < entries@.len() ==> {
                &&& (#[trigger] r@[i]).label@ == tree_label_spec(entries@[i]@)
                &&& crate::text::opt_view(r@[i].descend) == if entries@[i].is_directory
                    && current_depth < max_depth {
                    Some(entries@[i].path@)
                } else {
                    None
                }
            },
{
    let mut r: Vec<TreeStep> = Vec::new();
    let mut i: usize = 0;
    while i < entries.len()
        invariant
            0 <= i <= entries@.len(),
            r@.len() == i,
            forall|j: int|
                0 <= j < i ==> {
                    &&& (#[trigger] r@[j]).label@ == tree_label_spec(entries@[j]@)
                    &&& crate::text::opt_view(r@[j].descend) == if entries@[j].is_directory
                        && current_depth < max_depth {
                        Some(entries@[j].path@)
                    } else {
                        None
                    }
                },
        decreases entries.len() - i,
    {
        let e = &entries[i];
        let label = tree_label(e);
        let descend = if e.is_directory && current_depth < max_depth {
            Some(e.path.clone())
        } else {
            None
        };
        r.push(TreeStep { label, descend });
        i = i + 1;
    }
    r
}

/// What a `memory_read` call returns.
#[derive(Debug, Clone, Copy, PartialEq, Eq, Structural)]
pub enum ReadMode {
    /// The document's current content.
    Current,
    /// The document's version history.
    ListVersions,
    /// One historical version.
    Version(i32),
}

/// How a `memory_read` call of `path` proceeds: `list_versions` and
/// `version` exclude each other (`version_given` is whether a `version`
/// parameter of any type was passed, `version` its integer value), and a
/// version lies between 1 and `i32::MAX`.
pub open spec fn read_plan_spec(
    path: Seq<char>,
    list_versions: Option<bool>,
    version_given: bool,
    version: Option<i64>,
) -> Result<ReadMode, ToolErrorView> {
    let list = list_versions == Some(true);
    if filesystem_path_spec(path) {
        Err(
            ToolErrorView::InvalidParameters(
                "'"@ + path
                    + "' looks like a local filesystem path. memory_read only works with workspace-memory paths. Use read_file for filesystem reads. For opening files in an editor, use shell with: open \"<absolute_path>\"."@,
            ),
        )
    } else if list && version_given {
        Err(ToolErrorView::InvalidParameters("list_versions and version are mutually exclusive"@))
    } else {
        match version {
            Some(v) => if v < 1 || v > 2147483647 {
                Err(
                    ToolErrorView::InvalidParameters(
                        "version must be between 1 and 2147483647, got "@ + crate::text::signed_decimal_spec(
                            v as int,
                        ),
                    ),
                )
            } else if list {
                Ok(ReadMode::ListVersions)
            } else {
                Ok(ReadMode::Version(v as i32))
            },
            None => if list {
                Ok(ReadMode::ListVersions)
            } else {
                Ok(ReadMode::Current)
            },
        }
    }
}

/// Check a `memory_read` call and decide what it returns, as
/// [`read_plan_spec`].
pub fn plan_memory_read(path: &str, list_versions: Option<bool>, version_given: bool, version: Option<i64>) -> (r:
    Result<ReadMode, ToolError>)
    requires
        version is Some ==> version_given,
    ensures
        match r {
            Ok(m) => read_plan_spec(path@, list_versions, version_given, version) == Ok::<
                ReadMode,
                ToolErrorView,
            >(m),
            Err(e) => read_plan_spec(path@, list_versions, version_given, version) == Err::<
                ReadMode,
                ToolErrorView,
            >(tool_error_view(e)),
        },
{
    if looks_like_filesystem_path(path) {
        let a = cat_str("'", path);
        let m = cat_str(
            a.as_str(),
            "' looks like a local filesystem path. memory_read only works with workspace-memory paths. Use read_file for filesystem reads. For opening files in an editor, use shell with: open \"<absolute_path>\".",
        );
        return Err(ToolError::InvalidParameters(m));
    }
    let list = match list_versions {
        Some(b) => b,
        None => false,
    };
    if list && version_given {
        return Err(
            ToolError::InvalidParameters(
                String::from_str("list_versions and version are mutually exclusive"),
            ),
        );
    }
    match version {
        Some(v) => {
            if v < 1 || v > 2147483647 {
                let d = crate::text::decimal_i64(v);
                let m = cat_str("version must be between 1 and 2147483647, got ", d.as_str());
                Err(ToolError::InvalidParameters(m))
            } else if list {
                Ok(ReadMode::ListVersions)
            } else {
                Ok(ReadMode::Version(v as i32))
            }
        },
        None => if list {
            Ok(ReadMode::ListVersions)
        } else {
            Ok(ReadMode::Current)
        },
    }
}

} // verus!
