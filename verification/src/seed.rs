//! Seeding a workspace with its core files, and the fingerprint backfill
//! tally.
use vstd::prelude::*;

use crate::config::strings_view;
use crate::paths;

verus! {

/// The outcome of looking a document up in the primary scope.
#[derive(Debug, Clone, Copy, PartialEq, Eq, Structural)]
pub enum Probe {
    /// The document exists.
    Found,
    /// There is no such document.
    NotFound,
    /// The lookup failed for another reason.
    Failed,
}

/// The core files seeded into a workspace, in order.
pub open spec fn seed_paths_spec() -> Seq<Seq<char>> {
    seq![
        paths::README@,
        paths::MEMORY@,
        paths::IDENTITY@,
        paths::SOUL@,
        paths::AGENTS@,
        paths::USER@,
        paths::HEARTBEAT@,
        paths::TOOLS@,
        ".system/gateway/README.md"@,
    ]
}

/// The folder `.config` documents seeded with hygiene and indexing defaults,
/// in order.
pub open spec fn config_seed_paths_spec() -> Seq<Seq<char>> {
    seq!["daily/.config"@, "conversations/.config"@, ".system/gateway/.config"@]
}

/// The core files seeded into a workspace, in order.
pub fn seed_paths() -> (v: Vec<String>)
    ensures
        strings_view(v@) == seed_paths_spec(),
{
    let mut v: Vec<String> = Vec::new();
    v.push(String::from_str(paths::README));
    v.push(String::from_str(paths::MEMORY));
    v.push(String::from_str(paths::IDENTITY));
    v.push(String::from_str(paths::SOUL));
    v.push(String::from_str(paths::AGENTS));
    v.push(String::from_str(paths::USER));
    v.push(String::from_str(paths::HEARTBEAT));
    v.push(String::from_str(paths::TOOLS));
    v.push(String::from_str(".system/gateway/README.md"));
    assert(strings_view(v@) =~= seed_paths_spec());
    v
}

/// Folder defaults a seeded `.config` document carries.
#[derive(Debug, Clone, Copy, PartialEq, Eq, Structural)]
pub struct FolderDefaults {
    /// Hygiene enabled with this retention in days, if any.
    pub hygiene_retention_days: Option<u32>,
    /// Versioning is skipped.
    pub skip_versioning: bool,
    /// Indexing is skipped.
    pub skip_indexing: bool,
}

/// The `.config` documents seeded into a workspace with their defaults:
/// daily logs kept 30 days and conversations 7, neither versioned; the
/// gateway folder not indexed.
pub fn config_seeds() -> (v: Vec<(String, FolderDefaults)>)
    ensures
        v@.len() == 3,
        forall|i: int| 0 <= i < 3 ==> (#[trigger] v@[i]).0@ == config_seed_paths_spec()[i],
        v@[0].1 == (FolderDefaults {
            hygiene_retention_days: Some(30),
            skip_versioning: true,
            skip_indexing: false,
        }),
        v@[1].1 == (FolderDefaults {
            hygiene_retention_days: Some(7),
            skip_versioning: true,
            skip_indexing: false,
        }),
        v@[2].1 == (FolderDefaults {
            hygiene_retention_days: None,
            skip_versioning: false,
            skip_indexing: true,
        }),
{
    let mut v: Vec<(String, FolderDefaults)> = Vec::new();
    v.push(
        (
            String::from_str("daily/.config"),
            FolderDefaults { hygiene_retention_days: Some(30), skip_versioning: true, skip_indexing: false },
        ),
    );
    v.push(
        (
            String::from_str("conversations/.config"),
            FolderDefaults { hygiene_retention_days: Some(7), skip_versioning: true, skip_indexing: false },
        ),
    );
    v.push(
        (
            String::from_str(".system/gateway/.config"),
            FolderDefaults { hygiene_retention_days: None, skip_versioning: false, skip_indexing: true },
        ),
    );
    v
}

/// What was found before seeding.
pub struct SeedProbes {
    /// `BOOTSTRAP.md`, `AGENTS.md`, `SOUL.md` and `USER.md`, looked up
    /// before anything is seeded.
    pub bootstrap: Probe,
    pub agents: Probe,
    pub soul: Probe,
    pub user: Probe,
    /// Each core file of [`seed_paths`], in order.
    pub files: Vec<Probe>,
    /// Each `.config` of [`config_seeds`], in order.
    pub configs: Vec<Probe>,
    /// A non-empty, parseable profile exists.
    pub has_profile: bool,
}

/// What to seed.
pub struct SeedPlan {
    /// For each core file, whether to write it.
    pub files: Vec<bool>,
    /// For each `.config`, whether to create it.
    pub configs: Vec<bool>,
    /// Whether to write the first-run ritual `BOOTSTRAP.md`.
    pub bootstrap: bool,
}

/// A fresh workspace: no `BOOTSTRAP.md`, and none of the identity files
/// `AGENTS.md`, `SOUL.md`, `USER.md`.
pub open spec fn fresh_spec(p: SeedProbes) -> bool {
    p.bootstrap != Probe::Found && p.agents == Probe::NotFound && p.soul == Probe::NotFound && p.user
        == Probe::NotFound
}

/// `r` is the seeding plan for the lookups `p`: only missing files are
/// seeded (a file that exists, or whose lookup failed, is left alone), and
/// the first-run ritual only into a fresh workspace of a user without a
/// profile.
pub open spec fn seed_plan_of(p: SeedProbes, r: SeedPlan) -> bool {
    &&& r.files@.len() == p.files@.len()
    &&& forall|i: int| 0 <= i < p.files@.len() ==> #[trigger] r.files@[i] == (p.files@[i] == Probe::NotFound)
    &&& r.configs@.len() == p.configs@.len()
    &&& forall|i: int|
        0 <= i < p.configs@.len() ==> #[trigger] r.configs@[i] == (p.configs@[i] == Probe::NotFound)
    &&& r.bootstrap == (fresh_spec(p) && !p.has_profile)
}

/// Plan the seeding of a workspace, as [`seed_plan_of`].
pub fn plan_seed(p: &SeedProbes) -> (r: SeedPlan)
    ensures
        seed_plan_of(*p, r),
{
    let mut files: Vec<bool> = Vec::new();
    let mut i: usize = 0;
    while i < p.files.len()
        invariant
            0 <= i <= p.files@.len(),
            files@.len() == i,
            forall|k: int| 0 <= k < i ==> #[trigger] files@[k] == (p.files@[k] == Probe::NotFound),
        decreases p.files.len() - i,
    {
        files.push(p.files[i] == Probe::NotFound);
        i = i + 1;
    }
    let mut configs: Vec<bool> = Vec::new();
    let mut j: usize = 0;
    while j < p.configs.len()
        invariant
            0 <= j <= p.configs@.len(),
            configs@.len() == j,
            forall|k: int| 0 <= k < j ==> #[trigger] configs@[k] == (p.configs@[k] == Probe::NotFound),
        decreases p.configs.len() - j,
    {
        configs.push(p.configs[j] == Probe::NotFound);
        j = j + 1;
    }
    let fresh = p.bootstrap != Probe::Found && p.agents == Probe::NotFound && p.soul == Probe::NotFound
        && p.user == Probe::NotFound;
    SeedPlan { files, configs, bootstrap: fresh && !p.has_profile }
}

/// How many of the planned core files were written.
pub open spec fn created_count(planned: Seq<bool>, written: Seq<bool>) -> nat
    decreases planned.len(),
{
    if planned.len() == 0 || written.len() == 0 {
        0
    } else {
        created_count(planned.drop_last(), written.drop_last()) + if planned.last()
            && written.last() {
            1nat
        } else {
            0nat
        }
    }
}

/// The number of files a seeding created: the planned core files that were
/// written, and the first-run ritual when it was planned and written. The
/// folder `.config` documents are not counted, so that a workspace whose
/// core files all exist reports 0.
pub open spec fn seed_count_spec(plan: SeedPlan, written: Seq<bool>, bootstrap_written: bool) -> nat {
    created_count(plan.files@, written) + if plan.bootstrap && bootstrap_written {
        1nat
    } else {
        0nat
    }
}

/// Count the files a seeding created, as [`seed_count_spec`]. `written[i]`
/// says whether the write of core file `i` succeeded.
pub fn seed_count(plan: &SeedPlan, written: &[bool], bootstrap_written: bool) -> (r: usize)
    requires
        written@.len() == plan.files@.len(),
        written@.len() < usize::MAX,
    ensures
        r == seed_count_spec(*plan, written@, bootstrap_written),
{
    let mut n: usize = 0;
    let mut i: usize = 0;
    while i < written.len()
        invariant
            written@.len() == plan.files@.len(),
            written@.len() < usize::MAX,
            0 <= i <= written@.len(),
            n == created_count(plan.files@.take(i as int), written@.take(i as int)),
            n <= i,
        decreases written.len() - i,
    {
        proof {
            assert(plan.files@.take(i + 1).drop_last() =~= plan.files@.take(i as int));
            assert(written@.take(i + 1).drop_last() =~= written@.take(i as int));
        }
        if plan.files[i] && written[i] {
            n = n + 1;
        }
        i = i + 1;
    }
    proof {
        assert(plan.files@.take(written@.len() as int) =~= plan.files@);
        assert(written@.take(written@.len() as int) =~= written@);
    }
    if plan.bootstrap && bootstrap_written {
        n + 1
    } else {
        n
    }
}

proof fn lemma_created_none(planned: Seq<bool>, written: Seq<bool>)
    requires
        forall|i: int| 0 <= i < planned.len() ==> !#[trigger] planned[i],
    ensures
        created_count(planned, written) == 0,
    decreases planned.len(),
{
    if planned.len() > 0 && written.len() > 0 {
        assert forall|i: int| 0 <= i < planned.drop_last().len() implies !#[trigger] planned.drop_last()[i] by {
            assert(planned.drop_last()[i] == planned[i]);
        }
        assert(!planned[planned.len() - 1]);
        lemma_created_none(planned.drop_last(), written.drop_last());
    }
}

/// Seeding never overwrites: when every core file already exists, the plan
/// writes none of them and no first-run ritual, and the seeding reports 0
/// files created, whatever the writes would have done.
pub proof fn law_seeding_existing_core_creates_nothing(
    p: SeedProbes,
    plan: SeedPlan,
    written: Seq<bool>,
    bootstrap_written: bool,
)
    requires
        seed_plan_of(p, plan),
        forall|i: int| 0 <= i < p.files@.len() ==> #[trigger] p.files@[i] == Probe::Found,
        p.agents == Probe::Found,
    ensures
        forall|i: int| 0 <= i < plan.files@.len() ==> !#[trigger] plan.files@[i],
        !plan.bootstrap,
        seed_count_spec(plan, written, bootstrap_written) == 0,
{
    assert forall|i: int| 0 <= i < plan.files@.len() implies !#[trigger] plan.files@[i] by {
        assert(p.files@[i] == Probe::Found);
    }
    lemma_created_none(plan.files@, written);
}

/// What to do with the next document of a fingerprint backfill.
#[derive(Debug, Clone, Copy, PartialEq, Eq, Structural)]
pub enum BackfillStep {
    /// The limit is reached: stop.
    Stop,
    /// The document already has a fingerprint.
    Skip,
    /// Compute (and, unless a dry run, store) its fingerprint.
    Fingerprint,
}

/// Counts of a fingerprint backfill run.
#[derive(Debug, Clone, Copy, PartialEq, Eq, Structural)]
pub struct BackfillTally {
    pub scanned: u64,
    pub skipped: u64,
    pub fingerprinted: u64,
    pub failed: u64,
}

/// Every scanned document was skipped, fingerprinted, failed, or is the one
/// being fingerprinted.
pub open spec fn tally_wf(t: BackfillTally) -> bool {
    t.skipped + t.fingerprinted + t.failed <= t.scanned
}

impl BackfillTally {
    /// A run that has seen nothing yet.
    pub fn new() -> (t: Self)
        ensures
            t == (BackfillTally { scanned: 0, skipped: 0, fingerprinted: 0, failed: 0 }),
    {
        BackfillTally { scanned: 0, skipped: 0, fingerprinted: 0, failed: 0 }
    }

    /// Take the next document: stop once `limit` documents were
    /// fingerprinted; otherwise count it scanned, and skipped when it already
    /// has a fingerprint.
    pub fn begin_document(&mut self, limit: Option<u64>, has_fingerprint: bool) -> (step: BackfillStep)
        requires
            tally_wf(*old(self)),
            old(self).scanned < u64::MAX,
        ensures
            tally_wf(*final(self)),
            match limit {
                Some(l) => old(self).fingerprinted >= l,
                None => false,
            } ==> step == BackfillStep::Stop && *final(self) == *old(self),
            !match limit {
                Some(l) => old(self).fingerprinted >= l,
                None => false,
            } ==> final(self).scanned == old(self).scanned + 1 && final(self).fingerprinted
                == old(self).fingerprinted && final(self).failed == old(self).failed && if has_fingerprint {
                step == BackfillStep::Skip && final(self).skipped == old(self).skipped + 1
            } else {
                step == BackfillStep::Fingerprint && final(self).skipped == old(self).skipped
            },
    {
        match limit {
            Some(l) => {
                if self.fingerprinted >= l {
                    return BackfillStep::Stop;
                }
            },
            None => {},
        }
        self.scanned = self.scanned + 1;
        if has_fingerprint {
            self.skipped = self.skipped + 1;
            BackfillStep::Skip
        } else {
            BackfillStep::Fingerprint
        }
    }

    /// Record the fingerprint of the document just taken: `stored` when it
    /// was written (or a dry run), else a failure.
    pub fn record(&mut self, stored: bool)
        requires
            old(self).skipped + old(self).fingerprinted + old(self).failed < old(self).scanned,
        ensures
            tally_wf(*final(self)),
            final(self).scanned == old(self).scanned,
            final(self).skipped == old(self).skipped,
            final(self).fingerprinted == old(self).fingerprinted + if stored {
                1int
            } else {
                0
            },
            final(self).failed == old(self).failed + if stored {
                0int
            } else {
                1
            },
    {
        if stored {
            self.fingerprinted = self.fingerprinted + 1;
        } else {
            self.failed = self.failed + 1;
        }
    }

    /// Progress is shown after every `batch_size` scanned documents.
    pub fn shows_progress(&self, batch_size: u64) -> (b: bool)
        requires
            batch_size > 0,
        ensures
            b == (self.scanned % batch_size == 0),
    {
        self.scanned % batch_size == 0
    }
}

} // verus!
