//! The plugin manifest types and the registry operations on a list of
//! installed plugins: install, enable/disable, remove, and command lookup.

use vstd::prelude::*;
use crate::entries::{collected, entries_from, entry_views, keys_distinct};
use crate::text::{debug_quote, quoted_text, same_text};

verus! {

/// What a command needs from the current UI selection to be applicable.
#[derive(Clone, Copy, Debug, PartialEq, Eq, Structural)]
pub enum PluginContext {
    /// No selection needed: always applicable (the default when omitted).
    NoSelection,
    /// Needs a selected commit.
    Commit,
    /// Needs a selected file.
    File,
    /// Repo-scoped: needs only the open repository.
    Repo,
}

impl Default for PluginContext {
    fn default() -> (r: Self)
        ensures
            r == PluginContext::NoSelection,
    {
        PluginContext::NoSelection
    }
}

/// Where a command surfaces.
#[derive(Clone, Copy, Debug, PartialEq, Eq, Structural)]
pub enum PluginPlacement {
    /// Only in the command palette (the default).
    Palette,
    /// Only in the relevant context menu.
    Menu,
    /// Both the palette and the context menu.
    Both,
}

impl Default for PluginPlacement {
    fn default() -> (r: Self)
        ensures
            r == PluginPlacement::Palette,
    {
        PluginPlacement::Palette
    }
}

/// A lifecycle event a hook can fire on.
#[derive(Clone, Copy, Debug, PartialEq, Eq, Structural)]
pub enum PluginEvent {
    RepoOpened,
    RepoSwitched,
    PreMutation,
    PostMutation,
    CommitCreated,
    Undo,
}

/// One user-invokable command a plugin contributes. `run` is an external
/// command template whose placeholders are expanded before it runs.
#[derive(Debug)]
pub struct PluginCommand {
    pub id: String,
    pub label: String,
    /// External command template; validated non-empty at install time.
    pub run: String,
    pub context: PluginContext,
    pub placement: PluginPlacement,
    /// Whether the command changes the repository (false when omitted).
    pub mutates: bool,
}

/// One lifecycle hook: run `run` when `event` fires.
#[derive(Debug)]
pub struct PluginHook {
    pub event: PluginEvent,
    pub run: String,
    /// Whether the hook changes the repository (false when omitted).
    pub mutates: bool,
}

/// A plugin-contributed Tama skin: `poses` maps a built-in pose key to an
/// asset path relative to the plugin's directory, `copy` carries voice/copy
/// lines passed through verbatim. Each is a list of `(key, value)` entries
/// used as a map (see [`PluginTama::well_formed`]).
#[derive(Debug)]
pub struct PluginTama {
    pub poses: Vec<(String, String)>,
    pub copy: Vec<(String, String)>,
}

impl PluginTama {
    /// Each map holds a key at most once.
    pub open spec fn well_formed(&self) -> bool {
        keys_distinct(self.poses@) && keys_distinct(self.copy@)
    }

    /// A skin declaration from `(key, value)` pairs as read from a manifest,
    /// each list taken as a map: a key read twice keeps the place of its
    /// first reading and the value of its last.
    pub fn from_entries(poses: Vec<(String, String)>, copy: Vec<(String, String)>) -> (r: Self)
        ensures
            r.well_formed(),
            entry_views(r.poses@) == collected(entry_views(poses@)),
            entry_views(r.copy@) == collected(entry_views(copy@)),
    {
        PluginTama { poses: entries_from(poses), copy: entries_from(copy) }
    }
}

/// A plugin manifest.
#[derive(Debug)]
pub struct Plugin {
    /// Stable identifier, `^[a-z0-9][a-z0-9-]*$` (enforced at install).
    pub id: String,
    pub name: String,
    pub version: String,
    pub description: Option<String>,
    /// `true` unless the manifest says otherwise.
    pub enabled: bool,
    pub commands: Vec<PluginCommand>,
    pub hooks: Vec<PluginHook>,
    /// Optional Tama skin.
    pub tama: Option<PluginTama>,
    /// The plugin's canonical source directory, recorded at install time.
    pub dir: Option<String>,
}

impl Plugin {
    /// The plugin's skin declaration, if any, is well formed.
    pub open spec fn well_formed(&self) -> bool {
        match self.tama {
            Some(t) => t.well_formed(),
            None => true,
        }
    }
}

/// The value a manifest's omitted `enabled` takes.
pub fn default_true() -> (r: bool)
    ensures
        r,
{
    true
}

fn clone_opt_string(o: &Option<String>) -> (r: Option<String>)
    ensures
        r == *o,
{
    match o {
        Some(s) => Some(s.clone()),
        None => None,
    }
}

/// A copy of a list of `(key, value)` entries.
pub fn clone_pairs(v: &Vec<(String, String)>) -> (r: Vec<(String, String)>)
    ensures
        r@ == v@,
{
    let mut out: Vec<(String, String)> = Vec::new();
    let mut i: usize = 0;
    while i < v.len()
        invariant
            i <= v.len(),
            out@ == v@.take(i as int),
        decreases v.len() - i,
    {
        let k = v[i].0.clone();
        let x = v[i].1.clone();
        out.push((k, x));
        assert(out@ =~= v@.take(i + 1));
        i = i + 1;
    }
    assert(v@.take(v.len() as int) =~= v@);
    out
}

impl Clone for PluginCommand {
    fn clone(&self) -> (r: Self)
        ensures
            r == *self,
    {
        PluginCommand {
            id: self.id.clone(),
            label: self.label.clone(),
            run: self.run.clone(),
            context: self.context,
            placement: self.placement,
            mutates: self.mutates,
        }
    }
}

impl Clone for PluginHook {
    fn clone(&self) -> (r: Self)
        ensures
            r == *self,
    {
        PluginHook { event: self.event, run: self.run.clone(), mutates: self.mutates }
    }
}

/// Two skins with the same entries.
pub open spec fn same_tama(a: PluginTama, b: PluginTama) -> bool {
    a.poses@ == b.poses@ && a.copy@ == b.copy@
}

/// Two plugins with the same fields, lists compared by their contents.
pub open spec fn same_plugin(a: Plugin, b: Plugin) -> bool {
    &&& a.id == b.id
    &&& a.name == b.name
    &&& a.version == b.version
    &&& a.description == b.description
    &&& a.enabled == b.enabled
    &&& a.commands@ == b.commands@
    &&& a.hooks@ == b.hooks@
    &&& match (a.tama, b.tama) {
        (Some(x), Some(y)) => same_tama(x, y),
        (None, None) => true,
        _ => false,
    }
    &&& a.dir == b.dir
}

impl Clone for PluginTama {
    fn clone(&self) -> (r: Self)
        ensures
            same_tama(r, *self),
    {
        let poses = clone_pairs(&self.poses);
        let copy = clone_pairs(&self.copy);
        PluginTama { poses, copy }
    }
}

impl Clone for Plugin {
    fn clone(&self) -> (r: Self)
        ensures
            same_plugin(r, *self),
    {
        let commands = self.commands.clone();
        assert(commands@ =~= self.commands@);
        let hooks = self.hooks.clone();
        assert(hooks@ =~= self.hooks@);
        let tama = match &self.tama {
            Some(t) => Some(t.clone()),
            None => None,
        };
        Plugin {
            id: self.id.clone(),
            name: self.name.clone(),
            version: self.version.clone(),
            description: clone_opt_string(&self.description),
            enabled: self.enabled,
            commands,
            hooks,
            tama,
            dir: clone_opt_string(&self.dir),
        }
    }
}

// ---------------------------------------------------------------------------
// Lookup by id
// ---------------------------------------------------------------------------

/// The index of the first entry equal to `x`.
pub open spec fn first_index(xs: Seq<Seq<char>>, x: Seq<char>) -> Option<int>
    decreases xs.len(),
{
    if xs.len() == 0 {
        None
    } else if xs[0] == x {
        Some(0)
    } else {
        match first_index(xs.drop_first(), x) {
            Some(k) => Some(k + 1),
            None => None,
        }
    }
}

/// `first_index` is the first position holding `x`, and `None` exactly when
/// no position does.
pub proof fn lemma_first_index(xs: Seq<Seq<char>>, x: Seq<char>, i: int)
    requires
        0 <= i <= xs.len(),
        forall|j: int| 0 <= j < i ==> xs[j] != x,
        i < xs.len() ==> xs[i] == x,
    ensures
        first_index(xs, x) == (if i < xs.len() { Some(i) } else { None::<int> }),
    decreases i,
{
    if i > 0 {
        let d = xs.drop_first();
        assert forall|j: int| 0 <= j < i - 1 implies d[j] != x by {
            assert(d[j] == xs[j + 1]);
        }
        if i < xs.len() {
            assert(d[i - 1] == xs[i]);
        }
        lemma_first_index(d, x, i - 1);
        assert(xs[0] != x);
    }
}

/// What `first_index` returns points at `x`, with no earlier `x`.
pub proof fn lemma_first_index_facts(xs: Seq<Seq<char>>, x: Seq<char>)
    ensures
        first_index(xs, x) matches Some(k) ==> 0 <= k < xs.len() && xs[k] == x && forall|j: int|
            0 <= j < k ==> xs[j] != x,
        first_index(xs, x) is None ==> forall|j: int| 0 <= j < xs.len() ==> xs[j] != x,
    decreases xs.len(),
{
    if xs.len() > 0 && xs[0] != x {
        let d = xs.drop_first();
        lemma_first_index_facts(d, x);
        assert forall|j: int| 0 < j < xs.len() implies xs[j] == d[j - 1] by {}
    }
}

/// The ids of a list of plugins.
pub open spec fn plugin_ids(ps: Seq<Plugin>) -> Seq<Seq<char>> {
    ps.map_values(|p: Plugin| p.id@)
}

/// The ids of a list of commands.
pub open spec fn command_ids(cs: Seq<PluginCommand>) -> Seq<Seq<char>> {
    cs.map_values(|c: PluginCommand| c.id@)
}

/// Whether some plugin has the id.
pub open spec fn has_plugin(ps: Seq<Plugin>, id: Seq<char>) -> bool {
    first_index(plugin_ids(ps), id) is Some
}

/// No two plugins share an id.
pub open spec fn ids_unique(ps: Seq<Plugin>) -> bool {
    forall|i: int, j: int| 0 <= i < j < ps.len() ==> ps[i].id@ != ps[j].id@
}

/// The index of the first plugin with id `id`.
pub fn plugin_index(plugins: &[Plugin], id: &str) -> (r: Option<usize>)
    ensures
        match r {
            Some(k) => first_index(plugin_ids(plugins@), id@) == Some(k as int),
            None => first_index(plugin_ids(plugins@), id@) is None,
        },
{
    let mut i: usize = 0;
    while i < plugins.len()
        invariant
            i <= plugins@.len(),
            forall|j: int| 0 <= j < i ==> plugins@[j].id@ != id@,
        decreases plugins.len() - i,
    {
        if same_text(plugins[i].id.as_str(), id) {
            proof {
                lemma_first_index(plugin_ids(plugins@), id@, i as int);
            }
            return Some(i);
        }
        i = i + 1;
    }
    proof {
        lemma_first_index(plugin_ids(plugins@), id@, i as int);
    }
    None
}

/// The index of the first command with id `id`.
fn command_index(commands: &[PluginCommand], id: &str) -> (r: Option<usize>)
    ensures
        match r {
            Some(k) => first_index(command_ids(commands@), id@) == Some(k as int),
            None => first_index(command_ids(commands@), id@) is None,
        },
{
    let mut i: usize = 0;
    while i < commands.len()
        invariant
            i <= commands@.len(),
            forall|j: int| 0 <= j < i ==> commands@[j].id@ != id@,
        decreases commands.len() - i,
    {
        if same_text(commands[i].id.as_str(), id) {
            proof {
                lemma_first_index(command_ids(commands@), id@, i as int);
            }
            return Some(i);
        }
        i = i + 1;
    }
    proof {
        lemma_first_index(command_ids(commands@), id@, i as int);
    }
    None
}

/// The command addressed by `(plugin_id, command_id)`: the first command with
/// that id in the first plugin with that id, whether or not it is enabled.
pub open spec fn command_at(ps: Seq<Plugin>, plugin_id: Seq<char>, command_id: Seq<char>) -> Option<
    PluginCommand,
> {
    match first_index(plugin_ids(ps), plugin_id) {
        Some(i) => match first_index(command_ids(ps[i].commands@), command_id) {
            Some(j) => Some(ps[i].commands@[j]),
            None => None,
        },
        None => None,
    }
}

/// Look up a single command by its `(plugin_id, command_id)` address, the way
/// a palette or menu invocation is resolved back to its `run` template.
/// `None` when either the plugin or the command does not exist. Does not look
/// at `enabled`.
pub fn find_command(plugins: &[Plugin], plugin_id: &str, command_id: &str) -> (r: Option<
    PluginCommand,
>)
    ensures
        r == command_at(plugins@, plugin_id@, command_id@),
{
    match plugin_index(plugins, plugin_id) {
        Some(i) => {
            proof {
                lemma_first_index_facts(plugin_ids(plugins@), plugin_id@);
            }
            let found = command_index(plugins[i].commands.as_slice(), command_id);
            proof {
                lemma_first_index_facts(command_ids(plugins@[i as int].commands@), command_id@);
            }
            match found {
                Some(j) => {
                    let c = plugins[i].commands[j].clone();
                    assert(c == plugins@[i as int].commands@[j as int]);
                    assert(first_index(plugin_ids(plugins@), plugin_id@) == Some(i as int));
                    assert(first_index(command_ids(plugins@[i as int].commands@), command_id@)
                        == Some(j as int));
                    Some(c)
                },
                None => None,
            }
        },
        None => None,
    }
}

// ---------------------------------------------------------------------------
// Mutations
// ---------------------------------------------------------------------------

/// The error for an id that no installed plugin has.
pub open spec fn no_plugin_message(id: Seq<char>) -> Seq<char> {
    "No plugin with id "@ + quoted_text(id) + " is installed."@
}

/// The error for installing an id that is already taken.
pub open spec fn duplicate_message(id: Seq<char>) -> Seq<char> {
    "A plugin with id "@ + quoted_text(id) + " is already installed."@
}

fn no_plugin_error(id: &str) -> (r: String)
    ensures
        r@ == no_plugin_message(id@),
{
    let mut s = String::from_str("No plugin with id ");
    let q = debug_quote(id);
    s.append(q.as_str());
    s.append(" is installed.");
    s
}

/// The registry with the first plugin of id `id` set to `enabled`; unchanged
/// when there is no such plugin.
pub open spec fn with_enabled(ps: Seq<Plugin>, id: Seq<char>, enabled: bool) -> Seq<Plugin> {
    match first_index(plugin_ids(ps), id) {
        Some(k) => ps.update(k, Plugin { enabled: enabled, ..ps[k] }),
        None => ps,
    }
}

/// The registry without the plugins of id `id`, in order.
pub open spec fn without_id(ps: Seq<Plugin>, id: Seq<char>) -> Seq<Plugin>
    decreases ps.len(),
{
    if ps.len() == 0 {
        seq![]
    } else if ps.last().id@ == id {
        without_id(ps.drop_last(), id)
    } else {
        without_id(ps.drop_last(), id).push(ps.last())
    }
}

/// Set `enabled` on the plugin with `id` in place. Errs, rather than silently
/// doing nothing, when no such plugin exists.
pub fn set_enabled_in(plugins: &mut Vec<Plugin>, id: &str, enabled: bool) -> (r: Result<(), String>)
    ensures
        final(plugins)@ == with_enabled(old(plugins)@, id@, enabled),
        has_plugin(old(plugins)@, id@) ==> r is Ok,
        !has_plugin(old(plugins)@, id@) ==> (r matches Err(e) && e@ == no_plugin_message(id@)),
{
    match plugin_index(plugins.as_slice(), id) {
        Some(k) => {
            proof {
                lemma_first_index_facts(plugin_ids(old(plugins)@), id@);
            }
            let mut p = plugins.remove(k);
            p.enabled = enabled;
            plugins.insert(k, p);
            assert(plugins@ =~= with_enabled(old(plugins)@, id@, enabled));
            Ok(())
        },
        None => Err(no_plugin_error(id)),
    }
}


fn duplicate_error(id: &str) -> (r: String)
    ensures
        r@ == duplicate_message(id@),
{
    let mut s = String::from_str("A plugin with id ");
    let q = debug_quote(id);
    s.append(q.as_str());
    s.append(" is already installed.");
    s
}

/// `has_plugin` holds exactly when some plugin carries the id.
pub proof fn lemma_has_plugin(ps: Seq<Plugin>, id: Seq<char>)
    ensures
        has_plugin(ps, id) <==> exists|k: int| 0 <= k < ps.len() && #[trigger] ps[k].id@ == id,
{
    lemma_first_index_facts(plugin_ids(ps), id);
    if has_plugin(ps, id) {
        let k = first_index(plugin_ids(ps), id)->0;
        assert(plugin_ids(ps)[k] == ps[k].id@);
    } else {
        assert forall|k: int| 0 <= k < ps.len() implies #[trigger] ps[k].id@ != id by {
            assert(plugin_ids(ps)[k] == ps[k].id@);
        }
    }
}

/// Every plugin left by `without_id` was in the list before, and none has the id.
pub proof fn lemma_without_id_elems(ps: Seq<Plugin>, id: Seq<char>)
    ensures
        without_id(ps, id).len() <= ps.len(),
        forall|i: int| 0 <= i < without_id(ps, id).len() ==> (#[trigger] without_id(ps, id)[i]).id@ != id
            && exists|k: int| 0 <= k < ps.len() && ps[k] == without_id(ps, id)[i],
    decreases ps.len(),
{
    if ps.len() > 0 {
        let d = ps.drop_last();
        lemma_without_id_elems(d, id);
        let w = without_id(ps, id);
        let wd = without_id(d, id);
        assert forall|i: int| 0 <= i < w.len() implies (#[trigger] w[i]).id@ != id && exists|k: int|
            0 <= k < ps.len() && ps[k] == w[i] by {
            if i < wd.len() {
                assert(w[i] == wd[i]);
                let k = choose|k: int| 0 <= k < d.len() && d[k] == wd[i];
                assert(ps[k] == d[k]);
            } else {
                assert(w[i] == ps.last());
                assert(ps[ps.len() - 1] == w[i]);
            }
        }
    }
}

/// Without any plugin of the id, `without_id` keeps the list as it is; with
/// one, it makes the list shorter.
pub proof fn lemma_without_id_len(ps: Seq<Plugin>, id: Seq<char>)
    ensures
        (forall|k: int| 0 <= k < ps.len() ==> #[trigger] ps[k].id@ != id) ==> without_id(ps, id) == ps,
        (exists|k: int| 0 <= k < ps.len() && #[trigger] ps[k].id@ == id) ==> without_id(ps, id).len()
            < ps.len(),
    decreases ps.len(),
{
    lemma_without_id_elems(ps, id);
    if ps.len() > 0 {
        let d = ps.drop_last();
        lemma_without_id_len(d, id);
        lemma_without_id_elems(d, id);
        if forall|k: int| 0 <= k < ps.len() ==> #[trigger] ps[k].id@ != id {
            assert forall|k: int| 0 <= k < d.len() implies #[trigger] d[k].id@ != id by {
                assert(d[k] == ps[k]);
            }
            assert(ps.last() == ps[ps.len() - 1]);
            assert(d.push(ps.last()) =~= ps);
        }
        if exists|k: int| 0 <= k < ps.len() && #[trigger] ps[k].id@ == id {
            let k = choose|k: int| 0 <= k < ps.len() && #[trigger] ps[k].id@ == id;
            if k < ps.len() - 1 {
                assert(d[k] == ps[k]);
            }
        }
    }
}

/// Remove the plugin with `id` (every plugin with that id). Errs, leaving the
/// list as it is, when no such plugin exists.
pub fn remove_from(plugins: &mut Vec<Plugin>, id: &str) -> (r: Result<(), String>)
    ensures
        final(plugins)@ == without_id(old(plugins)@, id@),
        has_plugin(old(plugins)@, id@) ==> r is Ok,
        !has_plugin(old(plugins)@, id@) ==> (r matches Err(e) && e@ == no_plugin_message(id@)),
{
    let ghost orig = plugins@;
    let before = plugins.len();
    let mut i: usize = 0;
    let ghost mut j: int = 0;
    assert(orig.take(0) =~= Seq::<Plugin>::empty());
    assert(orig.skip(0) =~= orig);
    while i < plugins.len()
        invariant
            0 <= j <= orig.len(),
            i <= plugins@.len(),
            plugins@ == without_id(orig.take(j), id@) + orig.skip(j),
            i == without_id(orig.take(j), id@).len(),
        decreases plugins.len() - i,
    {
        assert(plugins@[i as int] == orig[j]);
        let ghost w = without_id(orig.take(j), id@);
        assert(orig.take(j + 1).drop_last() =~= orig.take(j));
        assert(orig.take(j + 1).last() == orig[j]);
        if same_text(plugins[i].id.as_str(), id) {
            plugins.remove(i);
            assert(plugins@ =~= without_id(orig.take(j + 1), id@) + orig.skip(j + 1));
        } else {
            assert(without_id(orig.take(j + 1), id@) == w.push(orig[j]));
            assert(plugins@ =~= without_id(orig.take(j + 1), id@) + orig.skip(j + 1));
            i = i + 1;
        }
        proof {
            j = j + 1;
        }
    }
    assert(orig.take(j) =~= orig);
    assert(plugins@ =~= without_id(orig, id@));
    proof {
        lemma_has_plugin(orig, id@);
        lemma_without_id_len(orig, id@);
    }
    if plugins.len() == before {
        Err(no_plugin_error(id))
    } else {
        Ok(())
    }
}

/// Append `plugin` to the registry unless its id is already installed; the
/// installed plugin is returned. A duplicate id is rejected and the registry
/// is left as it is.
pub fn install_from(plugins: &mut Vec<Plugin>, plugin: Plugin) -> (r: Result<Plugin, String>)
    ensures
        has_plugin(old(plugins)@, plugin.id@) ==> final(plugins)@ == old(plugins)@ && (r matches Err(
            e,
        ) && e@ == duplicate_message(plugin.id@)),
        !has_plugin(old(plugins)@, plugin.id@) ==> final(plugins)@ == old(plugins)@.push(plugin) && (
        r matches Ok(p) && same_plugin(p, plugin)),
{
    match plugin_index(plugins.as_slice(), plugin.id.as_str()) {
        Some(_) => Err(duplicate_error(plugin.id.as_str())),
        None => {
            let installed = plugin.clone();
            plugins.push(plugin);
            Ok(installed)
        },
    }
}

// ---------------------------------------------------------------------------
// Laws of the registry
// ---------------------------------------------------------------------------

/// Installing a plugin and then removing its id gives back the registry as
/// it was before the install.
pub proof fn law_install_then_remove_restores(ps: Seq<Plugin>, p: Plugin)
    requires
        !has_plugin(ps, p.id@),
    ensures
        without_id(ps.push(p), p.id@) == ps,
{
    lemma_has_plugin(ps, p.id@);
    let q = ps.push(p);
    assert(q.drop_last() =~= ps);
    assert(q.last() == p);
    lemma_without_id_len(ps, p.id@);
}

/// After a removal no plugin of the id is left.
pub proof fn law_removed_id_is_gone(ps: Seq<Plugin>, id: Seq<char>)
    ensures
        !has_plugin(without_id(ps, id), id),
{
    lemma_without_id_elems(ps, id);
    lemma_has_plugin(without_id(ps, id), id);
}

/// A successful install makes the plugin findable: its id is then installed.
pub proof fn law_installed_id_is_present(ps: Seq<Plugin>, p: Plugin)
    ensures
        has_plugin(ps.push(p), p.id@),
{
    let q = ps.push(p);
    assert(q[ps.len() as int] == p);
    lemma_has_plugin(q, p.id@);
}

/// Install (of a new id), remove and enable/disable all keep plugin ids
/// unique in a registry whose ids are unique.
pub proof fn law_ids_stay_unique(ps: Seq<Plugin>, p: Plugin, id: Seq<char>, enabled: bool)
    requires
        ids_unique(ps),
    ensures
        !has_plugin(ps, p.id@) ==> ids_unique(ps.push(p)),
        ids_unique(without_id(ps, id)),
        ids_unique(with_enabled(ps, id, enabled)),
{
    lemma_has_plugin(ps, p.id@);
    let q = ps.push(p);
    if !has_plugin(ps, p.id@) {
        assert forall|i: int, j: int| 0 <= i < j < q.len() implies q[i].id@ != q[j].id@ by {
            if j == ps.len() {
                assert(q[j] == p);
                assert(q[i] == ps[i]);
            } else {
                assert(q[i] == ps[i] && q[j] == ps[j]);
            }
        }
    }
    lemma_without_id_unique(ps, id);
    lemma_first_index_facts(plugin_ids(ps), id);
    let e = with_enabled(ps, id, enabled);
    assert forall|i: int, j: int| 0 <= i < j < e.len() implies e[i].id@ != e[j].id@ by {
        assert(e[i].id == ps[i].id);
        assert(e[j].id == ps[j].id);
    }
}

proof fn lemma_without_id_unique(ps: Seq<Plugin>, id: Seq<char>)
    requires
        ids_unique(ps),
    ensures
        ids_unique(without_id(ps, id)),
    decreases ps.len(),
{
    if ps.len() > 0 {
        let d = ps.drop_last();
        assert(ids_unique(d)) by {
            assert forall|i: int, j: int| 0 <= i < j < d.len() implies d[i].id@ != d[j].id@ by {
                assert(d[i] == ps[i] && d[j] == ps[j]);
            }
        }
        lemma_without_id_unique(d, id);
        lemma_without_id_elems(d, id);
        let w = without_id(ps, id);
        let wd = without_id(d, id);
        if ps.last().id@ != id {
            assert forall|i: int, j: int| 0 <= i < j < w.len() implies w[i].id@ != w[j].id@ by {
                if j == wd.len() {
                    assert(w[j] == ps.last());
                    assert(w[i] == wd[i]);
                    let k = choose|k: int| 0 <= k < d.len() && d[k] == wd[i];
                    assert(ps[k] == d[k]);
                    assert(ps[ps.len() - 1] == ps.last());
                } else {
                    assert(w[i] == wd[i] && w[j] == wd[j]);
                }
            }
        }
    }
}

/// Setting `enabled` twice leaves the second value: the last write wins.
pub proof fn law_enable_last_write_wins(ps: Seq<Plugin>, id: Seq<char>, a: bool, b: bool)
    ensures
        with_enabled(with_enabled(ps, id, a), id, b) == with_enabled(ps, id, b),
{
    let e = with_enabled(ps, id, a);
    assert(plugin_ids(e) =~= plugin_ids(ps)) by {
        lemma_first_index_facts(plugin_ids(ps), id);
        assert forall|k: int| 0 <= k < ps.len() implies plugin_ids(e)[k] == plugin_ids(ps)[k] by {
            assert(e[k].id == ps[k].id);
        }
    }
    lemma_first_index_facts(plugin_ids(ps), id);
    match first_index(plugin_ids(ps), id) {
        Some(k) => {
            assert(with_enabled(e, id, b) =~= with_enabled(ps, id, b));
        },
        None => {},
    }
}

/// Enabling or disabling changes only the `enabled` flag: ids, order and
/// length stay, and every other plugin is untouched.
pub proof fn law_enable_touches_only_the_flag(ps: Seq<Plugin>, id: Seq<char>, e: bool)
    ensures
        with_enabled(ps, id, e).len() == ps.len(),
        forall|k: int| 0 <= k < ps.len() ==> (#[trigger] with_enabled(ps, id, e)[k] == ps[k] || (
        ps[k].id@ == id && with_enabled(ps, id, e)[k] == (Plugin { enabled: e, ..ps[k] }))),
{
    lemma_first_index_facts(plugin_ids(ps), id);
    match first_index(plugin_ids(ps), id) {
        Some(k) => {
            assert(plugin_ids(ps)[k] == ps[k].id@);
        },
        None => {},
    }
}

/// `k` is the first plugin of `ps` whose id is `id`.
pub open spec fn is_first_with_id(ps: Seq<Plugin>, id: Seq<char>, k: int) -> bool {
    &&& 0 <= k < ps.len()
    &&& ps[k].id@ == id
    &&& forall|i: int| 0 <= i < k ==> ps[i].id@ != id
}

proof fn lemma_first_plugin(ps: Seq<Plugin>, id: Seq<char>, k: int)
    requires
        is_first_with_id(ps, id, k),
    ensures
        first_index(plugin_ids(ps), id) == Some(k),
{
    assert forall|i: int| 0 <= i < k implies plugin_ids(ps)[i] != id by {
        assert(plugin_ids(ps)[i] == ps[i].id@);
    }
    assert(plugin_ids(ps)[k] == ps[k].id@);
    lemma_first_index(plugin_ids(ps), id, k);
}

/// A command address resolves inside the addressed plugin: when `k` is the
/// first plugin with id `plugin_id` and `j` the first of its own commands
/// with id `command_id`, the lookup gives exactly that command, whatever the
/// other plugins hold.
pub proof fn law_command_comes_from_the_addressed_plugin(
    ps: Seq<Plugin>,
    plugin_id: Seq<char>,
    command_id: Seq<char>,
    k: int,
    j: int,
)
    requires
        is_first_with_id(ps, plugin_id, k),
        0 <= j < ps[k].commands@.len(),
        ps[k].commands@[j].id@ == command_id,
        forall|i: int| 0 <= i < j ==> ps[k].commands@[i].id@ != command_id,
    ensures
        command_at(ps, plugin_id, command_id) == Some(ps[k].commands@[j]),
{
    lemma_first_plugin(ps, plugin_id, k);
    let cs = ps[k].commands@;
    assert forall|i: int| 0 <= i < j implies command_ids(cs)[i] != command_id by {
        assert(command_ids(cs)[i] == cs[i].id@);
    }
    assert(command_ids(cs)[j] == cs[j].id@);
    lemma_first_index(command_ids(cs), command_id, j);
}

/// A command address finds nothing when no plugin has the id, or when the
/// first plugin with the id has no command with the command id (even if a
/// later or an earlier plugin has one).
pub proof fn law_command_missing_from_the_addressed_plugin(
    ps: Seq<Plugin>,
    plugin_id: Seq<char>,
    command_id: Seq<char>,
)
    requires
        forall|k: int|
            #![trigger is_first_with_id(ps, plugin_id, k)]
            is_first_with_id(ps, plugin_id, k) ==> forall|i: int|
                0 <= i < ps[k].commands@.len() ==> ps[k].commands@[i].id@ != command_id,
    ensures
        command_at(ps, plugin_id, command_id) is None,
{
    lemma_first_index_facts(plugin_ids(ps), plugin_id);
    match first_index(plugin_ids(ps), plugin_id) {
        Some(k) => {
            assert forall|i: int| 0 <= i < k implies ps[i].id@ != plugin_id by {
                assert(plugin_ids(ps)[i] == ps[i].id@);
            }
            assert(plugin_ids(ps)[k] == ps[k].id@);
            assert(is_first_with_id(ps, plugin_id, k));
            let cs = ps[k].commands@;
            lemma_first_index_facts(command_ids(cs), command_id);
            match first_index(command_ids(cs), command_id) {
                Some(j) => {
                    assert(command_ids(cs)[j] == cs[j].id@);
                },
                None => {},
            }
        },
        None => {},
    }
}

/// Enabling or disabling sets the flag of the first plugin with the id to the
/// requested value, whatever else that plugin holds (commands, hooks, skin),
/// and keeps the rest of that plugin.
pub proof fn law_enable_sets_the_flag(ps: Seq<Plugin>, id: Seq<char>, e: bool, k: int)
    requires
        is_first_with_id(ps, id, k),
    ensures
        with_enabled(ps, id, e).len() == ps.len(),
        with_enabled(ps, id, e)[k].enabled == e,
        with_enabled(ps, id, e)[k] == (Plugin { enabled: e, ..ps[k] }),
{
    lemma_first_plugin(ps, id, k);
}

/// Enabling or disabling an id that no plugin has changes nothing.
pub proof fn law_enable_unknown_id_changes_nothing(ps: Seq<Plugin>, id: Seq<char>, e: bool)
    requires
        forall|k: int| 0 <= k < ps.len() ==> ps[k].id@ != id,
    ensures
        with_enabled(ps, id, e) == ps,
{
    lemma_first_index_facts(plugin_ids(ps), id);
    match first_index(plugin_ids(ps), id) {
        Some(k) => {
            assert(plugin_ids(ps)[k] == ps[k].id@);
        },
        None => {},
    }
}

} // verus!
