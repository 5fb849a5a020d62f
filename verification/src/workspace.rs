//! A workspace's scopes, memory layers and flags.
//!
//! A workspace writes to one primary scope (its user id) and may read from
//! several. The storage behind it is driven by the caller; this type holds
//! the configuration every storage operation is routed by.
use vstd::prelude::*;

use crate::config::strings_view;
use crate::document::{identity_paths, is_identity_path};
use crate::error::WorkspaceError;
use crate::layer::{
    LayerSensitivity, LayerView, MemoryLayer, contains_string, find_layer_spec, layers_view,
    private_layer_spec,
};
use crate::listing::{
    WorkspaceEntry, copy_entry, entries_view, merge_workspace_entries, merged_listing,
    sort_dedup_paths,
};
use crate::normalize::{normalize_path, normalize_path_spec};
use crate::order::strictly_sorted;

verus! {

/// `acc` with each item of `items` appended, in order, unless already present.
pub open spec fn push_new(acc: Seq<Seq<char>>, items: Seq<Seq<char>>) -> Seq<Seq<char>>
    decreases items.len(),
{
    if items.len() == 0 {
        acc
    } else {
        let prev = push_new(acc, items.drop_last());
        if prev.contains(items.last()) {
            prev
        } else {
            prev.push(items.last())
        }
    }
}

/// No value occurs twice.
pub open spec fn distinct(s: Seq<Seq<char>>) -> bool {
    forall|i: int, j: int| 0 <= i < j < s.len() ==> s[i] != s[j]
}

/// The scopes of a list of layers, in layer order.
pub open spec fn layer_scopes(ls: Seq<LayerView>) -> Seq<Seq<char>> {
    ls.map_values(|l: LayerView| l.scope)
}

proof fn lemma_contains_drop_last(s: Seq<Seq<char>>)
    requires
        s.len() > 0,
    ensures
        forall|x: Seq<char>|
            #[trigger] s.contains(x) <==> (s.drop_last().contains(x) || x == s.last()),
{
    assert forall|x: Seq<char>| #[trigger]
        s.contains(x) <==> (s.drop_last().contains(x) || x == s.last()) by {
        if s.contains(x) {
            let i = choose|i: int| 0 <= i < s.len() && s[i] == x;
            if i < s.len() - 1 {
                assert(s.drop_last()[i] == x);
            }
        }
        if s.drop_last().contains(x) {
            let i = choose|i: int| 0 <= i < s.drop_last().len() && s.drop_last()[i] == x;
            assert(s[i] == x);
        }
        if x == s.last() {
            assert(s[s.len() - 1] == x);
        }
    }
}

/// What [`push_new`] keeps: everything of `acc`, in place, then the new
/// items; it holds exactly the values of both and adds no repeat.
pub proof fn lemma_push_new(acc: Seq<Seq<char>>, items: Seq<Seq<char>>)
    ensures
        forall|x: Seq<char>| #[trigger]
            push_new(acc, items).contains(x) <==> (acc.contains(x) || items.contains(x)),
        push_new(acc, items).len() >= acc.len(),
        push_new(acc, items).take(acc.len() as int) == acc,
        distinct(acc) ==> distinct(push_new(acc, items)),
    decreases items.len(),
{
    if items.len() > 0 {
        lemma_push_new(acc, items.drop_last());
        lemma_contains_drop_last(items);
        let prev = push_new(acc, items.drop_last());
        if !prev.contains(items.last()) {
            let r = prev.push(items.last());
            lemma_contains_drop_last(r);
            assert(r.drop_last() =~= prev);
            assert(r.take(acc.len() as int) =~= prev.take(acc.len() as int));
            if distinct(prev) {
                assert forall|i: int, j: int| 0 <= i < j < r.len() implies r[i] != r[j] by {
                    if j == r.len() - 1 {
                        assert(prev[i] == r[i]);
                    }
                }
            }
        }
    } else {
        assert(acc.take(acc.len() as int) =~= acc);
    }
}

/// Pushing items that are all present already changes nothing.
pub proof fn lemma_push_new_present(acc: Seq<Seq<char>>, items: Seq<Seq<char>>)
    requires
        forall|i: int| 0 <= i < items.len() ==> acc.contains(#[trigger] items[i]),
    ensures
        push_new(acc, items) == acc,
    decreases items.len(),
{
    if items.len() > 0 {
        assert forall|i: int| 0 <= i < items.drop_last().len() implies acc.contains(
            #[trigger] items.drop_last()[i],
        ) by {
            assert(items.drop_last()[i] == items[i]);
        }
        lemma_push_new_present(acc, items.drop_last());
        assert(acc.contains(items[items.len() - 1]));
    }
}

/// Append to `acc` each string of `items` that it does not hold yet.
fn push_new_strings(acc: &mut Vec<String>, items: &[String])
    ensures
        strings_view(final(acc)@) == push_new(strings_view(old(acc)@), strings_view(items@)),
{
    let ghost a0 = strings_view(acc@);
    let ghost iv = strings_view(items@);
    let mut i: usize = 0;
    assert(iv.take(0) =~= Seq::<Seq<char>>::empty());
    while i < items.len()
        invariant
            iv == strings_view(items@),
            0 <= i <= items@.len(),
            strings_view(acc@) == push_new(a0, iv.take(i as int)),
        decreases items.len() - i,
    {
        assert(iv.take(i + 1).drop_last() =~= iv.take(i as int));
        assert(iv.take(i + 1).last() == items@[i as int]@);
        let s = items[i].clone();
        if !contains_string(acc, &s) {
            let ghost before = acc@;
            acc.push(s);
            assert(strings_view(acc@) =~= strings_view(before).push(items@[i as int]@));
        }
        i = i + 1;
    }
    assert(iv.take(items@.len() as int) =~= iv);
}

/// The layer list holds a private layer with scope `s`.
pub open spec fn has_private_scope(ls: Seq<LayerView>, s: Seq<char>) -> bool {
    exists|i: int|
        0 <= i < ls.len() && ls[i].sensitivity == LayerSensitivity::Private && #[trigger] ls[i].scope
            == s
}

/// The layer list holds a non-private layer with scope `s`.
pub open spec fn has_shared_scope(ls: Seq<LayerView>, s: Seq<char>) -> bool {
    exists|i: int|
        0 <= i < ls.len() && ls[i].sensitivity != LayerSensitivity::Private && #[trigger] ls[i].scope
            == s
}

/// Whether some layer of the given kind has scope `s`.
fn layers_have_scope(layers: &[MemoryLayer], s: &String, private: bool) -> (r: bool)
    ensures
        r == if private {
            has_private_scope(layers_view(layers@), s@)
        } else {
            has_shared_scope(layers_view(layers@), s@)
        },
{
    let ghost lv = layers_view(layers@);
    let mut i: usize = 0;
    while i < layers.len()
        invariant
            lv == layers_view(layers@),
            0 <= i <= layers@.len(),
            forall|j: int|
                0 <= j < i ==> !((lv[j].sensitivity == LayerSensitivity::Private) == private
                    && #[trigger] lv[j].scope == s@),
        decreases layers.len() - i,
    {
        let is_private = layers[i].sensitivity == LayerSensitivity::Private;
        if is_private == private && layers[i].scope == *s {
            assert(lv[i as int].scope == s@);
            return true;
        }
        i = i + 1;
    }
    false
}

/// The value of a [`Workspace`].
pub struct WorkspaceView {
    /// Primary scope: all writes go here.
    pub user_id: Seq<char>,
    /// Scopes read from, the primary scope first.
    pub read_user_ids: Seq<Seq<char>>,
    /// Agent the workspace is isolated to, if any.
    pub agent_id: Option<u128>,
    /// Memory layers the workspace may use.
    pub layers: Seq<LayerView>,
    /// A fresh workspace was seeded with the first-run ritual.
    pub bootstrap_pending: bool,
    /// Onboarding is complete; the first-run ritual is suppressed.
    pub bootstrap_completed: bool,
    /// The admin system prompt is part of the system prompt.
    pub admin_prompt_enabled: bool,
    /// Writes also store a similarity fingerprint.
    pub hdc_fingerprint_shadow: bool,
}

/// A private layer moves to scope `uid`; any other layer is kept.
pub open spec fn rescope_layer(l: LayerView, uid: Seq<char>) -> LayerView {
    if l.sensitivity == LayerSensitivity::Private {
        LayerView { name: l.name, scope: uid, writable: l.writable, sensitivity: l.sensitivity }
    } else {
        l
    }
}

/// A read scope of `w` that stays when the workspace is re-scoped: one a
/// non-private layer shares, or one that is neither the old primary scope
/// nor a private layer's scope.
pub open spec fn scope_carried_over(w: WorkspaceView, s: Seq<char>) -> bool {
    has_shared_scope(w.layers, s) || (s != w.user_id && !has_private_scope(w.layers, s))
}

/// [`scope_carried_over`] as a predicate.
pub open spec fn carried_pred(w: WorkspaceView) -> spec_fn(Seq<char>) -> bool {
    |s: Seq<char>| scope_carried_over(w, s)
}

/// The workspace of `w` re-scoped to the primary user `uid`.
pub open spec fn scoped_to_user_spec(w: WorkspaceView, uid: Seq<char>) -> WorkspaceView {
    let layers = w.layers.map_values(|l: LayerView| rescope_layer(l, uid));
    let same = uid == w.user_id;
    WorkspaceView {
        user_id: uid,
        read_user_ids: push_new(
            push_new(seq![uid], w.read_user_ids.filter(carried_pred(w))),
            layer_scopes(layers),
        ),
        agent_id: w.agent_id,
        layers,
        bootstrap_pending: same && w.bootstrap_pending,
        bootstrap_completed: same && w.bootstrap_completed,
        admin_prompt_enabled: w.admin_prompt_enabled,
        hdc_fingerprint_shadow: w.hdc_fingerprint_shadow,
    }
}

/// Which scopes a read of a document consults.
#[derive(Debug, Clone, Copy, PartialEq, Eq, Structural)]
pub enum ReadRoute {
    /// The primary scope only.
    Primary,
    /// Every read scope, the primary scope first.
    AllScopes,
}

/// Identity documents are read from the primary scope only; other documents
/// from every read scope when there are several.
pub open spec fn read_route_spec(w: WorkspaceView, path: Seq<char>) -> ReadRoute {
    if w.read_user_ids.len() > 1 && !identity_paths().contains(normalize_path_spec(path)) {
        ReadRoute::AllScopes
    } else {
        ReadRoute::Primary
    }
}

/// Entries of secondary scopes, identity documents left out, scope by scope.
pub open spec fn visible_secondary_entries(ss: Seq<Seq<crate::listing::EntryView>>) -> Seq<
    crate::listing::EntryView,
>
    decreases ss.len(),
{
    if ss.len() == 0 {
        Seq::empty()
    } else {
        visible_secondary_entries(ss.drop_last()) + ss.last().filter(
            |e: crate::listing::EntryView| !identity_paths().contains(e.path),
        )
    }
}

/// Paths of secondary scopes, identity documents left out, scope by scope.
pub open spec fn visible_secondary_paths(ss: Seq<Seq<Seq<char>>>) -> Seq<Seq<char>>
    decreases ss.len(),
{
    if ss.len() == 0 {
        Seq::empty()
    } else {
        visible_secondary_paths(ss.drop_last()) + ss.last().filter(
            |p: Seq<char>| !identity_paths().contains(p),
        )
    }
}

/// The values of the entries of each secondary scope.
pub open spec fn scope_entries_view(ss: Seq<Vec<WorkspaceEntry>>) -> Seq<Seq<crate::listing::EntryView>> {
    ss.map_values(|v: Vec<WorkspaceEntry>| entries_view(v@))
}

/// The paths of each secondary scope.
pub open spec fn scope_paths_view(ss: Seq<Vec<String>>) -> Seq<Seq<Seq<char>>> {
    ss.map_values(|v: Vec<String>| strings_view(v@))
}

/// Search result `j` is an identity document owned by a scope other than
/// the primary one.
pub open spec fn foreign_identity(
    w: WorkspaceView,
    paths: Seq<Seq<char>>,
    owners: Seq<Option<Seq<char>>>,
    j: int,
) -> bool {
    identity_paths().contains(paths[j]) && owners[j] is Some && owners[j]->0 != w.user_id
}

/// The optional owner of each search result.
pub open spec fn owners_view(o: Seq<Option<String>>) -> Seq<Option<Seq<char>>> {
    o.map_values(|x: Option<String>| crate::text::opt_view(x))
}

/// What a layer write resolves to.
pub enum LayerOutcome {
    /// Write in `scope` to the layer `layer`; `redirected` when sensitive
    /// content was moved to the private layer.
    Target { scope: Seq<char>, layer: Seq<char>, redirected: bool },
    NotFound,
    ReadOnly,
    RedirectFailed,
}

/// The layer named `name` must exist and be writable. Content a configured
/// privacy classifier judged sensitive (`sensitive == Some(true)`), bound for
/// a shared layer without `force`, goes to the first private layer, which
/// must be writable.
pub open spec fn layer_target_spec(
    w: WorkspaceView,
    name: Seq<char>,
    sensitive: Option<bool>,
    force: bool,
) -> LayerOutcome {
    layer_target_at(
        w.layers,
        name,
        find_layer_spec(w.layers, name),
        private_layer_spec(w.layers),
        sensitive,
        force,
    )
}

/// [`layer_target_spec`] given the index of the named layer and of the
/// first private layer.
pub open spec fn layer_target_at(
    ls: Seq<LayerView>,
    name: Seq<char>,
    found: Option<int>,
    private: Option<int>,
    sensitive: Option<bool>,
    force: bool,
) -> LayerOutcome {
    match found {
        None => LayerOutcome::NotFound,
        Some(i) => if !ls[i].writable {
            LayerOutcome::ReadOnly
        } else if !force && ls[i].sensitivity == LayerSensitivity::Shared && sensitive == Some(
            true,
        ) {
            match private {
                None => LayerOutcome::RedirectFailed,
                Some(p) => if !ls[p].writable {
                    LayerOutcome::RedirectFailed
                } else {
                    LayerOutcome::Target { scope: ls[p].scope, layer: ls[p].name, redirected: true }
                },
            }
        } else {
            LayerOutcome::Target { scope: ls[i].scope, layer: name, redirected: false }
        },
    }
}

/// Where a layer write lands.
pub struct LayerTarget {
    /// Scope the document is written in.
    pub scope: String,
    /// Name of the layer written.
    pub layer: String,
    /// Whether sensitive content was moved to the private layer.
    pub redirected: bool,
}

/// Persistent memory of one user: the scopes it reads and writes, its
/// memory layers, and its first-run flags.
pub struct Workspace {
    user_id: String,
    read_user_ids: Vec<String>,
    agent_id: Option<u128>,
    memory_layers: Vec<MemoryLayer>,
    bootstrap_pending: bool,
    bootstrap_completed: bool,
    admin_prompt_enabled: bool,
    hdc_fingerprint_shadow: bool,
}

impl View for Workspace {
    type V = WorkspaceView;

    closed spec fn view(&self) -> WorkspaceView {
        WorkspaceView {
            user_id: self.user_id@,
            read_user_ids: strings_view(self.read_user_ids@),
            agent_id: self.agent_id,
            layers: layers_view(self.memory_layers@),
            bootstrap_pending: self.bootstrap_pending,
            bootstrap_completed: self.bootstrap_completed,
            admin_prompt_enabled: self.admin_prompt_enabled,
            hdc_fingerprint_shadow: self.hdc_fingerprint_shadow,
        }
    }
}

/// The primary scope is the first read scope, and no read scope repeats.
pub open spec fn workspace_wf(w: WorkspaceView) -> bool {
    w.read_user_ids.len() >= 1 && w.read_user_ids[0] == w.user_id && distinct(w.read_user_ids)
}

/// The workspace after its pending first-run flag was taken.
pub open spec fn bootstrap_taken(w: WorkspaceView) -> WorkspaceView {
    WorkspaceView { bootstrap_pending: false, ..w }
}

/// The pending first-run flag is reported once: once taken, taking it again
/// reports `false` and changes nothing, and taking it keeps the workspace
/// well formed.
pub proof fn law_bootstrap_pending_taken_once(w: WorkspaceView)
    ensures
        !bootstrap_taken(w).bootstrap_pending,
        bootstrap_taken(bootstrap_taken(w)) == bootstrap_taken(w),
        workspace_wf(w) ==> workspace_wf(bootstrap_taken(w)),
{
}

impl Workspace {
    /// Every workspace is well formed.
    #[verifier::type_invariant]
    closed spec fn inv(self) -> bool {
        workspace_wf(self@)
    }

    /// A workspace of `user_id`: it reads and writes that scope only and
    /// has the user's default private layer.
    pub fn new(user_id: &str) -> (w: Self)
        ensures
            w@.user_id == user_id@,
            w@.read_user_ids == seq![user_id@],
            w@.agent_id is None,
            w@.layers == seq![
                LayerView {
                    name: "private"@,
                    scope: user_id@,
                    writable: true,
                    sensitivity: LayerSensitivity::Private,
                },
            ],
            !w@.bootstrap_pending,
            !w@.bootstrap_completed,
            !w@.admin_prompt_enabled,
            !w@.hdc_fingerprint_shadow,
            workspace_wf(w@),
    {
        let mut ids: Vec<String> = Vec::new();
        ids.push(String::from_str(user_id));
        let layers = MemoryLayer::default_for_user(user_id);
        let w = Workspace {
            user_id: String::from_str(user_id),
            read_user_ids: ids,
            agent_id: None,
            memory_layers: layers,
            bootstrap_pending: false,
            bootstrap_completed: false,
            admin_prompt_enabled: false,
            hdc_fingerprint_shadow: false,
        };
        assert(w@.read_user_ids =~= seq![user_id@]);
        assert(w@.layers =~= seq![layers@[0]@]);
        w
    }

    /// Returns `true` once after the first-run ritual was seeded; the flag is
    /// cleared so the caller acts only once.
    pub fn take_bootstrap_pending(&mut self) -> (was: bool)
        ensures
            was == old(self)@.bootstrap_pending,
            final(self)@ == bootstrap_taken(old(self)@),
    {
        let was = self.bootstrap_pending;
        proof {
            use_type_invariant(&*self);
        }
        self.bootstrap_pending = false;
        was
    }

    /// Record that the first-run ritual was seeded.
    pub fn set_bootstrap_pending(&mut self)
        ensures
            final(self)@ == (WorkspaceView { bootstrap_pending: true, ..old(self)@ }),
    {
        proof {
            use_type_invariant(&*self);
        }
        self.bootstrap_pending = true;
    }

    /// Mark bootstrap as completed: the first-run ritual is suppressed even if
    /// its file still exists.
    pub fn mark_bootstrap_completed(&mut self)
        ensures
            final(self)@ == (WorkspaceView { bootstrap_completed: true, ..old(self)@ }),
    {
        proof {
            use_type_invariant(&*self);
        }
        self.bootstrap_completed = true;
    }

    /// Whether the bootstrap safety-net flag is set.
    pub fn is_bootstrap_completed(&self) -> (b: bool)
        ensures
            b == self@.bootstrap_completed,
    {
        self.bootstrap_completed
    }

    /// This workspace, isolated to agent `agent_id`.
    pub fn with_agent(self, agent_id: u128) -> (w: Self)
        ensures
            w@ == (WorkspaceView { agent_id: Some(agent_id), ..self@ }),
    {
        let mut w = self;
        proof {
            use_type_invariant(&w);
        }
        w.agent_id = Some(agent_id);
        w
    }

    /// This workspace with the admin system prompt enabled.
    pub fn with_admin_prompt(self) -> (w: Self)
        ensures
            w@ == (WorkspaceView { admin_prompt_enabled: true, ..self@ }),
    {
        let mut w = self;
        proof {
            use_type_invariant(&w);
        }
        w.admin_prompt_enabled = true;
        w
    }

    /// This workspace with fingerprint computation on writes set to `enabled`.
    pub fn with_hdc_fingerprint_shadow(self, enabled: bool) -> (w: Self)
        ensures
            w@ == (WorkspaceView { hdc_fingerprint_shadow: enabled, ..self@ }),
    {
        let mut w = self;
        proof {
            use_type_invariant(&w);
        }
        w.hdc_fingerprint_shadow = enabled;
        w
    }

    /// Configure memory layers: they replace the current ones, and each
    /// layer scope not read yet becomes a read scope, in layer order.
    pub fn with_memory_layers(self, layers: Vec<MemoryLayer>) -> (w: Self)
        ensures
            w@ == (WorkspaceView {
                read_user_ids: push_new(self@.read_user_ids, layer_scopes(layers_view(layers@))),
                layers: layers_view(layers@),
                ..self@
            }),
            workspace_wf(w@),
    {
        proof {
            use_type_invariant(&self);
        }
        let ghost old_view = self@;
        let Workspace {
            user_id,
            read_user_ids,
            agent_id,
            memory_layers: _,
            bootstrap_pending,
            bootstrap_completed,
            admin_prompt_enabled,
            hdc_fingerprint_shadow,
        } = self;
        let mut scopes: Vec<String> = Vec::new();
        let mut i: usize = 0;
        while i < layers.len()
            invariant
                0 <= i <= layers@.len(),
                strings_view(scopes@) == layer_scopes(layers_view(layers@)).take(i as int),
            decreases layers.len() - i,
        {
            let s = layers[i].scope.clone();
            let ghost before = scopes@;
            scopes.push(s);
            assert(strings_view(scopes@) =~= strings_view(before).push(layers@[i as int].scope@));
            assert(layer_scopes(layers_view(layers@)).take(i + 1) =~= layer_scopes(
                layers_view(layers@),
            ).take(i as int).push(layers@[i as int].scope@));
            i = i + 1;
        }
        assert(layer_scopes(layers_view(layers@)).take(layers@.len() as int) =~= layer_scopes(
            layers_view(layers@),
        ));
        let mut ids = read_user_ids;
        let ghost r0 = strings_view(ids@);
        push_new_strings(&mut ids, scopes.as_slice());
        proof {
            lemma_push_new(r0, strings_view(scopes@));
            assert(strings_view(ids@)[0] == strings_view(ids@).take(r0.len() as int)[0]);
        }
        let w = Workspace {
            user_id,
            read_user_ids: ids,
            agent_id,
            memory_layers: layers,
            bootstrap_pending,
            bootstrap_completed,
            admin_prompt_enabled,
            hdc_fingerprint_shadow,
        };
        assert(w@ =~= (WorkspaceView {
            read_user_ids: push_new(old_view.read_user_ids, layer_scopes(layers_view(layers@))),
            layers: layers_view(layers@),
            ..old_view
        }));
        w
    }

    /// Add read scopes: each one not read yet is appended, in order; the
    /// primary scope stays first and no scope repeats.
    pub fn with_additional_read_scopes(self, scopes: Vec<String>) -> (w: Self)
        ensures
            w@ == (WorkspaceView {
                read_user_ids: push_new(self@.read_user_ids, strings_view(scopes@)),
                ..self@
            }),
            workspace_wf(w@),
    {
        proof {
            use_type_invariant(&self);
        }
        let ghost old_view = self@;
        let Workspace {
            user_id,
            read_user_ids,
            agent_id,
            memory_layers,
            bootstrap_pending,
            bootstrap_completed,
            admin_prompt_enabled,
            hdc_fingerprint_shadow,
        } = self;
        let mut ids = read_user_ids;
        let ghost r0 = strings_view(ids@);
        push_new_strings(&mut ids, scopes.as_slice());
        proof {
            lemma_push_new(r0, strings_view(scopes@));
            assert(strings_view(ids@)[0] == strings_view(ids@).take(r0.len() as int)[0]);
        }
        let w = Workspace {
            user_id,
            read_user_ids: ids,
            agent_id,
            memory_layers,
            bootstrap_pending,
            bootstrap_completed,
            admin_prompt_enabled,
            hdc_fingerprint_shadow,
        };
        assert(w@ =~= (WorkspaceView {
            read_user_ids: push_new(old_view.read_user_ids, strings_view(scopes@)),
            ..old_view
        }));
        w
    }

    /// The same configuration for another primary user: private layers move
    /// to `user_id`; read scopes that came only from the old user's private
    /// identity are dropped, the others kept in order after `user_id`; every
    /// layer scope is read. The first-run flags carry over only when the user
    /// is the same.
    pub fn scoped_to_user(&self, user_id: &str) -> (w: Self)
        ensures
            w@ == scoped_to_user_spec(self@, user_id@),
            workspace_wf(w@),
    {
        proof {
            use_type_invariant(self);
        }
        let uid = String::from_str(user_id);
        let ghost rescope = |l: LayerView| rescope_layer(l, user_id@);
        let mut layers: Vec<MemoryLayer> = Vec::new();
        let mut i: usize = 0;
        while i < self.memory_layers.len()
            invariant
                uid@ == user_id@,
                rescope == (|l: LayerView| rescope_layer(l, user_id@)),
                0 <= i <= self.memory_layers@.len(),
                layers_view(layers@) == self@.layers.take(i as int).map_values(rescope),
            decreases self.memory_layers.len() - i,
        {
            let l = &self.memory_layers[i];
            let scope = if l.sensitivity == LayerSensitivity::Private {
                uid.clone()
            } else {
                l.scope.clone()
            };
            let ghost before = layers@;
            layers.push(
                MemoryLayer {
                    name: l.name.clone(),
                    scope,
                    writable: l.writable,
                    sensitivity: l.sensitivity,
                },
            );
            assert(self@.layers.take(i + 1) =~= self@.layers.take(i as int).push(l@));
            assert(layers_view(layers@) =~= layers_view(before).push(rescope_layer(l@, user_id@)));
            assert(self@.layers.take(i + 1).map_values(rescope) =~= self@.layers.take(
                i as int,
            ).map_values(rescope).push(rescope(l@)));
            i = i + 1;
        }
        assert(self@.layers.take(self.memory_layers@.len() as int) =~= self@.layers);
        let ghost new_layers = self@.layers.map_values(rescope);
        let ghost pred = carried_pred(self@);
        let ghost ids0 = self@.read_user_ids;
        let mut ids: Vec<String> = Vec::new();
        ids.push(uid.clone());
        assert(strings_view(ids@) =~= seq![user_id@]);
        assert(ids0.take(0) =~= Seq::<Seq<char>>::empty());
        let mut k: usize = 0;
        while k < self.read_user_ids.len()
            invariant
                uid@ == user_id@,
                pred == carried_pred(self@),
                ids0 == self@.read_user_ids,
                0 <= k <= self.read_user_ids@.len(),
                strings_view(ids@) == push_new(seq![user_id@], ids0.take(k as int).filter(pred)),
            decreases self.read_user_ids.len() - k,
        {
            let s = &self.read_user_ids[k];
            assert(ids0.take(k + 1).drop_last() =~= ids0.take(k as int));
            assert(ids0.take(k + 1).last() == s@);
            let shared = layers_have_scope(self.memory_layers.as_slice(), s, false);
            let private = layers_have_scope(self.memory_layers.as_slice(), s, true);
            let carried = shared || (*s != self.user_id && !private);
            assert(carried == pred(s@));
            proof {
                assert(ids0.take(k + 1) =~= ids0.take(k as int).push(s@));
                ids0.take(k as int).lemma_filter_push(s@, pred);
            }
            if carried {
                assert(ids0.take(k + 1).filter(pred) == ids0.take(k as int).filter(pred).push(s@));
                assert(ids0.take(k as int).filter(pred).push(s@).drop_last() =~= ids0.take(
                    k as int,
                ).filter(pred));
                if !contains_string(&ids, s) {
                    let ghost before = ids@;
                    ids.push(s.clone());
                    assert(strings_view(ids@) =~= strings_view(before).push(s@));
                }
            } else {
                assert(ids0.take(k + 1).filter(pred) == ids0.take(k as int).filter(pred));
            }
            k = k + 1;
        }
        assert(ids0.take(self.read_user_ids@.len() as int) =~= ids0);
        let mut scopes: Vec<String> = Vec::new();
        let mut j: usize = 0;
        while j < layers.len()
            invariant
                0 <= j <= layers@.len(),
                strings_view(scopes@) == layer_scopes(layers_view(layers@)).take(j as int),
            decreases layers.len() - j,
        {
            let sc = layers[j].scope.clone();
            let ghost before = scopes@;
            scopes.push(sc);
            assert(strings_view(scopes@) =~= strings_view(before).push(layers@[j as int].scope@));
            assert(layer_scopes(layers_view(layers@)).take(j + 1) =~= layer_scopes(
                layers_view(layers@),
            ).take(j as int).push(layers@[j as int].scope@));
            j = j + 1;
        }
        assert(layer_scopes(layers_view(layers@)).take(layers@.len() as int) =~= layer_scopes(
            layers_view(layers@),
        ));
        let ghost mid = strings_view(ids@);
        push_new_strings(&mut ids, scopes.as_slice());
        proof {
            lemma_push_new(seq![user_id@], ids0.filter(pred));
            lemma_push_new(mid, strings_view(scopes@));
            assert(seq![user_id@].take(1) =~= seq![user_id@]);
            assert(distinct(seq![user_id@]));
            assert(mid[0] == mid.take(1)[0]);
            assert(strings_view(ids@)[0] == strings_view(ids@).take(mid.len() as int)[0]);
        }
        let same = uid == self.user_id;
        let w = Workspace {
            user_id: uid,
            read_user_ids: ids,
            agent_id: self.agent_id,
            memory_layers: layers,
            bootstrap_pending: same && self.bootstrap_pending,
            bootstrap_completed: same && self.bootstrap_completed,
            admin_prompt_enabled: self.admin_prompt_enabled,
            hdc_fingerprint_shadow: self.hdc_fingerprint_shadow,
        };
        assert(w@.layers =~= new_layers);
        w
    }

    /// Which scopes a read of `path` consults, and the normalized path.
    pub fn read_route(&self, path: &str) -> (r: (String, ReadRoute))
        ensures
            r.0@ == normalize_path_spec(path@),
            r.1 == read_route_spec(self@, path@),
    {
        let p = normalize_path(path);
        let identity = is_identity_path(p.as_str());
        if self.read_user_ids.len() > 1 && !identity {
            (p, ReadRoute::AllScopes)
        } else {
            (p, ReadRoute::Primary)
        }
    }

    /// A directory listing across the read scopes: the primary scope's
    /// entries, then each secondary scope's without identity documents,
    /// merged into one entry per path sorted by path. With a single read
    /// scope the primary listing is returned as it is.
    pub fn combine_listings(
        &self,
        primary: Vec<WorkspaceEntry>,
        secondary: Vec<Vec<WorkspaceEntry>>,
    ) -> (r: Vec<WorkspaceEntry>)
        ensures
            self@.read_user_ids.len() > 1 ==> merged_listing(
                entries_view(primary@) + visible_secondary_entries(scope_entries_view(secondary@)),
                entries_view(r@),
            ),
            self@.read_user_ids.len() <= 1 ==> entries_view(r@) == entries_view(primary@),
    {
        if self.read_user_ids.len() <= 1 {
            return primary;
        }
        let ghost pv = entries_view(primary@);
        let ghost sv = scope_entries_view(secondary@);
        let ghost pred = |e: crate::listing::EntryView| !identity_paths().contains(e.path);
        let mut all = primary;
        let mut k: usize = 0;
        assert(sv.take(0) =~= Seq::<Seq<crate::listing::EntryView>>::empty());
        assert(entries_view(all@) =~= pv + visible_secondary_entries(sv.take(0)));
        while k < secondary.len()
            invariant
                sv == scope_entries_view(secondary@),
                pred == (|e: crate::listing::EntryView| !identity_paths().contains(e.path)),
                0 <= k <= secondary@.len(),
                entries_view(all@) == pv + visible_secondary_entries(sv.take(k as int)),
            decreases secondary.len() - k,
        {
            let scope = &secondary[k];
            let ghost base = entries_view(all@);
            let ghost cur = entries_view(scope@);
            let mut j: usize = 0;
            assert(cur.take(0) =~= Seq::<crate::listing::EntryView>::empty());
            assert(entries_view(all@) =~= base + cur.take(0).filter(pred));
            while j < scope.len()
                invariant
                    pred == (|e: crate::listing::EntryView| !identity_paths().contains(e.path)),
                    cur == entries_view(scope@),
                    0 <= j <= scope@.len(),
                    entries_view(all@) == base + cur.take(j as int).filter(pred),
                decreases scope.len() - j,
            {
                let e = &scope[j];
                proof {
                    assert(cur.take(j + 1) =~= cur.take(j as int).push(e@));
                    cur.take(j as int).lemma_filter_push(e@, pred);
                }
                if !is_identity_path(e.path.as_str()) {
                    let ghost before = entries_view(all@);
                    all.push(copy_entry(e));
                    assert(entries_view(all@) =~= before.push(e@));
                }
                j = j + 1;
            }
            proof {
                assert(cur.take(scope@.len() as int) =~= cur);
                assert(sv.take(k + 1).drop_last() =~= sv.take(k as int));
                assert(sv.take(k + 1).last() == cur);
                assert(entries_view(all@) =~= pv + visible_secondary_entries(sv.take(k + 1)));
            }
            k = k + 1;
        }
        assert(sv.take(secondary@.len() as int) =~= sv);
        merge_workspace_entries(all)
    }

    /// All paths across the read scopes: the primary scope's, then each
    /// secondary scope's without identity documents, sorted with repeats
    /// removed. With a single read scope the primary list is returned as it is.
    pub fn combine_paths(&self, primary: Vec<String>, secondary: Vec<Vec<String>>) -> (r: Vec<
        String,
    >)
        ensures
            self@.read_user_ids.len() > 1 ==> strictly_sorted(strings_view(r@)) && forall|
                p: Seq<char>,
            |
                strings_view(r@).contains(p) <==> (strings_view(primary@)
                    + visible_secondary_paths(scope_paths_view(secondary@))).contains(p),
            self@.read_user_ids.len() <= 1 ==> r@ == primary@,
    {
        if self.read_user_ids.len() <= 1 {
            return primary;
        }
        let ghost pv = strings_view(primary@);
        let ghost sv = scope_paths_view(secondary@);
        let ghost pred = |p: Seq<char>| !identity_paths().contains(p);
        let mut all = primary;
        let mut k: usize = 0;
        assert(sv.take(0) =~= Seq::<Seq<Seq<char>>>::empty());
        assert(strings_view(all@) =~= pv + visible_secondary_paths(sv.take(0)));
        while k < secondary.len()
            invariant
                sv == scope_paths_view(secondary@),
                pred == (|p: Seq<char>| !identity_paths().contains(p)),
                0 <= k <= secondary@.len(),
                strings_view(all@) == pv + visible_secondary_paths(sv.take(k as int)),
            decreases secondary.len() - k,
        {
            let scope = &secondary[k];
            let ghost base = strings_view(all@);
            let ghost cur = strings_view(scope@);
            let mut j: usize = 0;
            assert(cur.take(0) =~= Seq::<Seq<char>>::empty());
            assert(strings_view(all@) =~= base + cur.take(0).filter(pred));
            while j < scope.len()
                invariant
                    pred == (|p: Seq<char>| !identity_paths().contains(p)),
                    cur == strings_view(scope@),
                    0 <= j <= scope@.len(),
                    strings_view(all@) == base + cur.take(j as int).filter(pred),
                decreases scope.len() - j,
            {
                let p = &scope[j];
                proof {
                    assert(cur.take(j + 1) =~= cur.take(j as int).push(p@));
                    cur.take(j as int).lemma_filter_push(p@, pred);
                }
                if !is_identity_path(p.as_str()) {
                    let ghost before = strings_view(all@);
                    all.push(p.clone());
                    assert(strings_view(all@) =~= before.push(p@));
                }
                j = j + 1;
            }
            proof {
                assert(cur.take(scope@.len() as int) =~= cur);
                assert(sv.take(k + 1).drop_last() =~= sv.take(k as int));
                assert(sv.take(k + 1).last() == cur);
                assert(strings_view(all@) =~= pv + visible_secondary_paths(sv.take(k + 1)));
            }
            k = k + 1;
        }
        assert(sv.take(secondary@.len() as int) =~= sv);
        sort_dedup_paths(all)
    }

    /// Which results of a multi-scope search to keep: a result is dropped
    /// when its document id is that of a result which is an identity
    /// document owned by another scope. `owners[j]` is the owner scope of
    /// result `j`'s document when it could be looked up.
    pub fn keep_search_results(&self, ids: &[u128], paths: &[String], owners: &[Option<String>]) -> (r:
        Vec<bool>)
        requires
            ids@.len() == paths@.len(),
            paths@.len() == owners@.len(),
        ensures
            r@.len() == ids@.len(),
            forall|i: int|
                0 <= i < ids@.len() ==> #[trigger] r@[i] == !exists|j: int|
                    0 <= j < ids@.len() && ids@[j] == ids@[i] && foreign_identity(
                        self@,
                        strings_view(paths@),
                        owners_view(owners@),
                        j,
                    ),
    {
        let ghost pv = strings_view(paths@);
        let ghost ov = owners_view(owners@);
        let mut dropped: Vec<bool> = Vec::new();
        let mut j: usize = 0;
        while j < ids.len()
            invariant
                pv == strings_view(paths@),
                ov == owners_view(owners@),
                ids@.len() == paths@.len(),
                paths@.len() == owners@.len(),
                0 <= j <= ids@.len(),
                dropped@.len() == j,
                forall|m: int| 0 <= m < j ==> #[trigger] dropped@[m] == foreign_identity(self@, pv, ov, m),
            decreases ids.len() - j,
        {
            let identity = is_identity_path(paths[j].as_str());
            let foreign = match &owners[j] {
                Some(o) => *o != self.user_id,
                None => false,
            };
            assert(pv[j as int] == paths@[j as int]@);
            assert(ov[j as int] == crate::text::opt_view(owners@[j as int]));
            dropped.push(identity && foreign);
            j = j + 1;
        }
        let mut r: Vec<bool> = Vec::new();
        let mut i: usize = 0;
        while i < ids.len()
            invariant
                ids@.len() == dropped@.len(),
                forall|m: int| 0 <= m < ids@.len() ==> #[trigger] dropped@[m] == foreign_identity(self@, pv, ov, m),
                0 <= i <= ids@.len(),
                r@.len() == i,
                forall|m: int|
                    0 <= m < i ==> #[trigger] r@[m] == !exists|j: int|
                        0 <= j < ids@.len() && ids@[j] == ids@[m] && foreign_identity(self@, pv, ov, j),
            decreases ids.len() - i,
        {
            let mut keep = true;
            let mut k: usize = 0;
            while k < ids.len()
                invariant
                    ids@.len() == dropped@.len(),
                    forall|m: int| 0 <= m < ids@.len() ==> #[trigger] dropped@[m] == foreign_identity(self@, pv, ov, m),
                    0 <= i < ids@.len(),
                    0 <= k <= ids@.len(),
                    keep == !exists|j: int|
                        0 <= j < k && ids@[j] == ids@[i as int] && foreign_identity(self@, pv, ov, j),
                decreases ids.len() - k,
            {
                if dropped[k] && ids[k] == ids[i] {
                    assert(dropped@[k as int]);
                    keep = false;
                }
                k = k + 1;
            }
            r.push(keep);
            i = i + 1;
        }
        r
    }

    /// Resolve where a write to the layer `layer_name` lands, as
    /// [`layer_target_spec`]. `sensitive` is the verdict of the workspace's
    /// privacy classifier on the content, `None` when none is configured.
    pub fn resolve_layer_target(&self, layer_name: &str, sensitive: Option<bool>, force: bool) -> (r:
        Result<LayerTarget, WorkspaceError>)
        ensures
            match layer_target_spec(self@, layer_name@, sensitive, force) {
                LayerOutcome::Target { scope, layer, redirected } => r matches Ok(t) && t.scope@
                    == scope && t.layer@ == layer && t.redirected == redirected,
                LayerOutcome::NotFound => r matches Err(WorkspaceError::LayerNotFound { name })
                    && name@ == layer_name@,
                LayerOutcome::ReadOnly => r matches Err(WorkspaceError::LayerReadOnly { name })
                    && name@ == layer_name@,
                LayerOutcome::RedirectFailed => r matches Err(
                    WorkspaceError::PrivacyRedirectFailed,
                ),
            },
    {
        let ghost lv = self@.layers;
        let ghost found = find_layer_spec(lv, layer_name@);
        let ghost private_idx = private_layer_spec(lv);
        assert(lv == layers_view(self.memory_layers@));
        assert(layer_target_spec(self@, layer_name@, sensitive, force) == layer_target_at(
            lv,
            layer_name@,
            found,
            private_idx,
            sensitive,
            force,
        ));
        let idx = MemoryLayer::find(self.memory_layers.as_slice(), layer_name);
        match idx {
            None => Err(WorkspaceError::LayerNotFound { name: String::from_str(layer_name) }),
            Some(i) => {
                let layer = &self.memory_layers[i];
                assert(self@.layers[i as int] == layer@);
                if !layer.writable {
                    return Err(WorkspaceError::LayerReadOnly { name: String::from_str(layer_name) });
                }
                let flagged = match sensitive {
                    Some(b) => b,
                    None => false,
                };
                if !force && layer.sensitivity == LayerSensitivity::Shared && flagged {
                    match MemoryLayer::private_layer(self.memory_layers.as_slice()) {
                        None => Err(WorkspaceError::PrivacyRedirectFailed),
                        Some(p) => {
                            let private = &self.memory_layers[p];
                            assert(self@.layers[p as int] == private@);
                            if !private.writable {
                                Err(WorkspaceError::PrivacyRedirectFailed)
                            } else {
                                Ok(
                                    LayerTarget {
                                        scope: private.scope.clone(),
                                        layer: private.name.clone(),
                                        redirected: true,
                                    },
                                )
                            }
                        },
                    }
                } else {
                    Ok(
                        LayerTarget {
                            scope: layer.scope.clone(),
                            layer: String::from_str(layer_name),
                            redirected: false,
                        },
                    )
                }
            },
        }
    }

    /// The workspace a per-user pool builds for `user_id`: the admin system
    /// prompt enabled, the configured read scopes added (when there are any),
    /// the configured layers with every private layer moved to the user's
    /// scope, and fingerprinting on writes as configured.
    pub fn for_pool_user(
        user_id: &str,
        read_scopes: &Vec<String>,
        layers: &[MemoryLayer],
        fingerprint_shadow: bool,
    ) -> (w: Self)
        ensures
            workspace_wf(w@),
            w@.user_id == user_id@,
            w@.admin_prompt_enabled,
            w@.hdc_fingerprint_shadow == fingerprint_shadow,
            w@.layers == layers_view(layers@).map_values(|l: LayerView| rescope_layer(l, user_id@)),
            w@.read_user_ids == push_new(
                push_new(seq![user_id@], strings_view(read_scopes@)),
                layer_scopes(w@.layers),
            ),
            w@.agent_id is None,
            !w@.bootstrap_pending,
            !w@.bootstrap_completed,
    {
        let mut w = Workspace::new(user_id).with_admin_prompt();
        if read_scopes.len() > 0 {
            w = w.with_additional_read_scopes(read_scopes.clone());
        } else {
            assert(strings_view(read_scopes@) =~= Seq::<Seq<char>>::empty());
        }
        let ghost rescope = |l: LayerView| rescope_layer(l, user_id@);
        let mut own: Vec<MemoryLayer> = Vec::new();
        let mut i: usize = 0;
        while i < layers.len()
            invariant
                rescope == (|l: LayerView| rescope_layer(l, user_id@)),
                0 <= i <= layers@.len(),
                layers_view(own@) == layers_view(layers@).take(i as int).map_values(rescope),
            decreases layers.len() - i,
        {
            let l = &layers[i];
            let scope = if l.sensitivity == LayerSensitivity::Private {
                String::from_str(user_id)
            } else {
                l.scope.clone()
            };
            let ghost before = own@;
            own.push(
                MemoryLayer {
                    name: l.name.clone(),
                    scope,
                    writable: l.writable,
                    sensitivity: l.sensitivity,
                },
            );
            assert(layers_view(layers@).take(i + 1) =~= layers_view(layers@).take(i as int).push(l@));
            assert(layers_view(own@) =~= layers_view(before).push(rescope_layer(l@, user_id@)));
            assert(layers_view(layers@).take(i + 1).map_values(rescope) =~= layers_view(layers@).take(
                i as int,
            ).map_values(rescope).push(rescope(l@)));
            i = i + 1;
        }
        assert(layers_view(layers@).take(layers@.len() as int) =~= layers_view(layers@));
        let w = w.with_memory_layers(own);
        w.with_hdc_fingerprint_shadow(fingerprint_shadow)
    }

    /// The configured memory layers.
    pub fn memory_layers(&self) -> (r: &[MemoryLayer])
        ensures
            layers_view(r@) == self@.layers,
    {
        self.memory_layers.as_slice()
    }

    /// The primary scope.
    pub fn user_id(&self) -> (r: &str)
        ensures
            r@ == self@.user_id,
    {
        self.user_id.as_str()
    }

    /// The scopes read from, the primary scope first.
    pub fn read_user_ids(&self) -> (r: &[String])
        ensures
            strings_view(r@) == self@.read_user_ids,
    {
        self.read_user_ids.as_slice()
    }

    /// Whether reads span more than one scope.
    pub fn is_multi_scope(&self) -> (b: bool)
        ensures
            b == (self@.read_user_ids.len() > 1),
    {
        self.read_user_ids.len() > 1
    }

    /// Whether the admin system prompt is part of the system prompt.
    pub fn admin_prompt_enabled(&self) -> (b: bool)
        ensures
            b == self@.admin_prompt_enabled,
    {
        self.admin_prompt_enabled
    }

    /// Whether writes also store a similarity fingerprint.
    pub fn hdc_fingerprint_shadow(&self) -> (b: bool)
        ensures
            b == self@.hdc_fingerprint_shadow,
    {
        self.hdc_fingerprint_shadow
    }

    /// The agent the workspace is isolated to.
    pub fn agent_id(&self) -> (r: Option<u128>)
        ensures
            r == self@.agent_id,
    {
        self.agent_id
    }
}

/// Re-scoping to another user reads every scope of its layers, and its
/// private layers all use the new user's scope while the other layers keep
/// theirs.
pub proof fn law_scoped_layers(w: WorkspaceView, uid: Seq<char>)
    ensures
        ({
            let r = scoped_to_user_spec(w, uid);
            &&& r.layers.len() == w.layers.len()
            &&& forall|i: int|
                0 <= i < r.layers.len() && w.layers[i].sensitivity == LayerSensitivity::Private
                    ==> #[trigger] r.layers[i].scope == uid
            &&& forall|i: int|
                0 <= i < r.layers.len() && w.layers[i].sensitivity != LayerSensitivity::Private
                    ==> #[trigger] r.layers[i] == w.layers[i]
            &&& forall|i: int|
                0 <= i < r.layers.len() ==> r.read_user_ids.contains(#[trigger] r.layers[i].scope)
        }),
{
    let r = scoped_to_user_spec(w, uid);
    let first = push_new(seq![uid], w.read_user_ids.filter(carried_pred(w)));
    lemma_push_new(first, layer_scopes(r.layers));
    assert forall|i: int| 0 <= i < r.layers.len() implies r.read_user_ids.contains(
        #[trigger] r.layers[i].scope,
    ) by {
        assert(layer_scopes(r.layers)[i] == r.layers[i].scope);
        assert(layer_scopes(r.layers).contains(r.layers[i].scope));
    }
}

/// Re-scoping to another user never keeps the old primary scope as a read
/// scope, unless a non-private layer shares it.
pub proof fn law_scoped_drops_old_primary(w: WorkspaceView, uid: Seq<char>)
    requires
        uid != w.user_id,
        !has_shared_scope(w.layers, w.user_id),
    ensures
        !scoped_to_user_spec(w, uid).read_user_ids.contains(w.user_id),
{
    let r = scoped_to_user_spec(w, uid);
    let pred = carried_pred(w);
    let kept = w.read_user_ids.filter(pred);
    let first = push_new(seq![uid], kept);
    lemma_push_new(seq![uid], kept);
    lemma_push_new(first, layer_scopes(r.layers));
    w.read_user_ids.filter_lemma(pred);
    if kept.contains(w.user_id) {
        let i = choose|i: int| 0 <= i < kept.len() && kept[i] == w.user_id;
        assert(pred(kept[i]));
    }
    if seq![uid].contains(w.user_id) {
        assert(seq![uid][0] == uid);
    }
    if layer_scopes(r.layers).contains(w.user_id) {
        let i = choose|i: int|
            0 <= i < layer_scopes(r.layers).len() && layer_scopes(r.layers)[i] == w.user_id;
        assert(r.layers[i] == rescope_layer(w.layers[i], uid));
        if w.layers[i].sensitivity != LayerSensitivity::Private {
            assert(w.layers[i].scope == w.user_id);
        }
    }
}

/// Adding the same read scopes a second time changes nothing.
pub proof fn law_additional_scopes_idempotent(reads: Seq<Seq<char>>, scopes: Seq<Seq<char>>)
    ensures
        push_new(push_new(reads, scopes), scopes) == push_new(reads, scopes),
{
    lemma_push_new(reads, scopes);
    let once = push_new(reads, scopes);
    assert forall|i: int| 0 <= i < scopes.len() implies once.contains(#[trigger] scopes[i]) by {
        assert(scopes.contains(scopes[i]));
    }
    lemma_push_new_present(once, scopes);
}


proof fn lemma_visible_entries_not_identity(ss: Seq<Seq<crate::listing::EntryView>>, i: int)
    requires
        0 <= i < visible_secondary_entries(ss).len(),
    ensures
        !identity_paths().contains(visible_secondary_entries(ss)[i].path),
    decreases ss.len(),
{
    let pred = |e: crate::listing::EntryView| !identity_paths().contains(e.path);
    let prev = visible_secondary_entries(ss.drop_last());
    if i < prev.len() {
        lemma_visible_entries_not_identity(ss.drop_last(), i);
    } else {
        let f = ss.last().filter(pred);
        assert(visible_secondary_entries(ss)[i] == f[i - prev.len()]);
        assert(pred(f[i - prev.len()]));
    }
}

proof fn lemma_visible_paths_not_identity(ss: Seq<Seq<Seq<char>>>, i: int)
    requires
        0 <= i < visible_secondary_paths(ss).len(),
    ensures
        !identity_paths().contains(visible_secondary_paths(ss)[i]),
    decreases ss.len(),
{
    let pred = |p: Seq<char>| !identity_paths().contains(p);
    let prev = visible_secondary_paths(ss.drop_last());
    if i < prev.len() {
        lemma_visible_paths_not_identity(ss.drop_last(), i);
    } else {
        let f = ss.last().filter(pred);
        assert(visible_secondary_paths(ss)[i] == f[i - prev.len()]);
        assert(pred(f[i - prev.len()]));
    }
}

proof fn lemma_fold_key_from_input(es: Seq<crate::listing::EntryView>, p: Seq<char>)
    requires
        crate::listing::merge_fold(es).contains_key(p),
    ensures
        exists|i: int| 0 <= i < es.len() && (#[trigger] es[i]).path == p,
    decreases es.len(),
{
    let prev = es.drop_last();
    if crate::listing::merge_fold(prev).contains_key(p) {
        lemma_fold_key_from_input(prev, p);
        let i = choose|i: int| 0 <= i < prev.len() && (#[trigger] prev[i]).path == p;
        assert(es[i] == prev[i]);
    } else {
        assert(es[es.len() - 1].path == p);
    }
}

/// Identity documents are read from the primary scope only: a read of an
/// identity path never consults other scopes, and a combined listing or
/// path list holds an identity path only where the primary scope's own
/// listing holds it.
pub proof fn law_identity_stays_primary(
    w: WorkspaceView,
    path: Seq<char>,
    primary: Seq<crate::listing::EntryView>,
    secondary: Seq<Seq<crate::listing::EntryView>>,
    listing: Seq<crate::listing::EntryView>,
    primary_paths: Seq<Seq<char>>,
    secondary_paths: Seq<Seq<Seq<char>>>,
    paths: Seq<Seq<char>>,
)
    requires
        merged_listing(primary + visible_secondary_entries(secondary), listing),
        forall|p: Seq<char>|
            paths.contains(p) <==> (primary_paths + visible_secondary_paths(
                secondary_paths,
            )).contains(p),
    ensures
        identity_paths().contains(normalize_path_spec(path)) ==> read_route_spec(w, path)
            == ReadRoute::Primary,
        forall|k: int|
            0 <= k < listing.len() && identity_paths().contains(#[trigger] listing[k].path)
                ==> crate::listing::entry_paths(primary).contains(listing[k].path),
        forall|p: Seq<char>|
            paths.contains(p) && identity_paths().contains(p) ==> primary_paths.contains(p),
{
    let es = primary + visible_secondary_entries(secondary);
    assert forall|k: int|
        0 <= k < listing.len() && identity_paths().contains(
            #[trigger] listing[k].path,
        ) implies crate::listing::entry_paths(primary).contains(listing[k].path) by {
        let p = listing[k].path;
        lemma_fold_key_from_input(es, p);
        let i = choose|i: int| 0 <= i < es.len() && (#[trigger] es[i]).path == p;
        if i >= primary.len() {
            lemma_visible_entries_not_identity(secondary, i - primary.len());
            assert(es[i] == visible_secondary_entries(secondary)[i - primary.len()]);
        } else {
            assert(crate::listing::entry_paths(primary)[i] == p);
        }
    }
    assert forall|p: Seq<char>|
        paths.contains(p) && identity_paths().contains(p) implies primary_paths.contains(p) by {
        let all = primary_paths + visible_secondary_paths(secondary_paths);
        assert(all.contains(p));
        let i = choose|i: int| 0 <= i < all.len() && all[i] == p;
        if i >= primary_paths.len() {
            lemma_visible_paths_not_identity(secondary_paths, i - primary_paths.len());
            assert(all[i] == visible_secondary_paths(secondary_paths)[i - primary_paths.len()]);
        } else {
            assert(primary_paths[i] == p);
        }
    }
}

} // verus!
