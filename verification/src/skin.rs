//! Tama skins: which declared pose assets may be loaded at all, the size cap
//! on an asset, the `data:` URI an asset becomes, and the skin assembled
//! from the assets that passed every check.

use vstd::prelude::*;
use base64::Engine;
use crate::manifest::{
    contains_dotdot, has_dotdot, is_pose_key, is_valid_pose_key, path_is_absolute, surely_relative,
};
use crate::registry::{
    clone_pairs, first_index, lemma_first_index_facts, no_plugin_message,
    plugin_ids, plugin_index, Plugin,
};
use crate::entries::{
    entries_insert, entry_keys, entry_views, insert_entry, keys_distinct, lemma_entry_keys_by_views,
};
use crate::text::{chars_of, debug_quote, quoted_text};

verus! {

/// Hard cap on a single pose asset's size, in bytes.
pub const MAX_TAMA_ASSET_BYTES: u64 = 512 * 1024;

/// A loaded skin: `poses` maps a built-in pose key to a `data:` URI usable as
/// an image source, `copy` carries the skin's voice/copy lines. Each is a list
/// of `(key, value)` entries used as a map (see [`TamaSkin::well_formed`]).
#[derive(Debug)]
pub struct TamaSkin {
    pub poses: Vec<(String, String)>,
    pub copy: Vec<(String, String)>,
}

impl TamaSkin {
    /// Each map holds a key at most once. Every function here that builds or
    /// changes a skin keeps this.
    pub open spec fn well_formed(&self) -> bool {
        keys_distinct(self.poses@) && keys_distinct(self.copy@)
    }
}

impl Default for TamaSkin {
    fn default() -> (r: Self)
        ensures
            r.poses@.len() == 0,
            r.copy@.len() == 0,
            r.well_formed(),
    {
        TamaSkin { poses: Vec::new(), copy: Vec::new() }
    }
}

/// A declared pose asset that passed the checks made before the file system
/// is touched: built-in key, safe relative path, allow-listed extension.
#[derive(Debug)]
pub struct SkinAsset {
    pub key: String,
    /// The asset path, relative to the plugin's directory.
    pub rel: String,
    /// The MIME type its extension maps to.
    pub mime: &'static str,
}

// ---------------------------------------------------------------------------
// Extensions and MIME types
// ---------------------------------------------------------------------------

/// `e` spells the same letters as `lo`, each position in either the case of
/// `lo` or of `up` (ASCII case-insensitive equality with a lowercase word).
pub open spec fn same_ignoring_case(e: Seq<char>, lo: Seq<char>, up: Seq<char>) -> bool {
    &&& e.len() == lo.len()
    &&& lo.len() == up.len()
    &&& forall|k: int| 0 <= k < e.len() ==> #[trigger] e[k] == lo[k] || e[k] == up[k]
}

fn matches_ignoring_case(e: &str, lo: &str, up: &str) -> (r: bool)
    ensures
        r == same_ignoring_case(e@, lo@, up@),
{
    let x = chars_of(e);
    let a = chars_of(lo);
    let b = chars_of(up);
    if x.len() != a.len() || a.len() != b.len() {
        return false;
    }
    let mut i: usize = 0;
    while i < x.len()
        invariant
            x@ == e@,
            a@ == lo@,
            b@ == up@,
            x.len() == a.len(),
            a.len() == b.len(),
            i <= x.len(),
            forall|k: int| 0 <= k < i ==> #[trigger] x@[k] == a@[k] || x@[k] == b@[k],
        decreases x.len() - i,
    {
        if x[i] != a[i] && x[i] != b[i] {
            return false;
        }
        i = i + 1;
    }
    true
}

/// The MIME type of an allow-listed extension, compared ignoring ASCII case:
/// `webp` and `png` only.
pub open spec fn mime_of(ext: Option<Seq<char>>) -> Option<Seq<char>> {
    match ext {
        Some(e) => if same_ignoring_case(e, "webp"@, "WEBP"@) {
            Some("image/webp"@)
        } else if same_ignoring_case(e, "png"@, "PNG"@) {
            Some("image/png"@)
        } else {
            None
        },
        None => None,
    }
}

/// The view of an optional text.
pub open spec fn opt_view(o: Option<&str>) -> Option<Seq<char>> {
    match o {
        Some(s) => Some(s@),
        None => None,
    }
}

/// Map an extension to its `data:` URI MIME type; anything but `webp` or
/// `png` (in any ASCII case) has none, which is how the extension allow-list
/// is enforced.
pub fn mime_for_extension(ext: Option<&str>) -> (r: Option<&'static str>)
    ensures
        opt_view(r) == mime_of(opt_view(ext)),
{
    match ext {
        Some(e) => {
            if matches_ignoring_case(e, "webp", "WEBP") {
                Some("image/webp")
            } else if matches_ignoring_case(e, "png", "PNG") {
                Some("image/png")
            } else {
                None
            }
        },
        None => None,
    }
}

/// `e` may be the extension of a file named in `path`: it follows a `.` in
/// the path and holds no `.`. (Whether it may hold a `/` depends on the
/// platform: a Windows `\\?\` path does not split at `/`.)
pub open spec fn is_extension_in(path: Seq<char>, e: Seq<char>) -> bool {
    &&& forall|k: int| 0 <= k < e.len() ==> #[trigger] e[k] != '.'
    &&& exists|i: int|
        1 <= i && i + e.len() <= path.len() && path[i - 1] == '.' && #[trigger] path.subrange(
            i,
            i + e.len(),
        ) == e
}

/// The index of the last `c` in `s`, or -1 when there is none.
pub open spec fn last_index_of(s: Seq<char>, c: char) -> int
    decreases s.len(),
{
    if s.len() == 0 {
        -1
    } else if s.last() == c {
        s.len() - 1
    } else {
        last_index_of(s.drop_last(), c)
    }
}

/// The last `c` of `s`, when there is one, stands inside `s`.
pub proof fn lemma_last_index_of(s: Seq<char>, c: char)
    ensures
        -1 <= last_index_of(s, c) < s.len(),
        last_index_of(s, c) >= 0 ==> s[last_index_of(s, c)] == c,
    decreases s.len(),
{
    if s.len() > 0 && s.last() != c {
        lemma_last_index_of(s.drop_last(), c);
    }
}

/// A path that every platform reads with `/` as its only separator and no
/// prefix: it holds no backslash and no `:` (so no Windows drive prefix and
/// no second kind of separator) and does not start with `//` (which Windows
/// reads as the start of a `\\server\share` prefix).
pub open spec fn portable_path(p: Seq<char>) -> bool {
    &&& forall|k: int| 0 <= k < p.len() ==> #[trigger] p[k] != '\\' && p[k] != ':'
    &&& !(p.len() >= 2 && p[0] == '/' && p[1] == '/')
}

/// The file name of a portable path (`Path::file_name`): its last component
/// once empty components (from repeated or trailing `/`) and `.` components
/// are dropped; none when that component is `..`, or when there is none (an
/// empty path, the root, or `.`).
pub open spec fn portable_file_name(p: Seq<char>) -> Option<Seq<char>>
    decreases p.len(),
{
    let i = last_index_of(p, '/');
    let seg = p.skip(i + 1);
    if seg.len() == 0 || seg == seq!['.'] {
        if i < 0 {
            None
        } else {
            proof {
                lemma_last_index_of(p, '/');
            }
            portable_file_name(p.take(i))
        }
    } else if seg == seq!['.', '.'] {
        None
    } else {
        Some(seg)
    }
}

/// The extension of a portable path (`Path::extension`): the text of its
/// file name after the last `.`; none when there is no file name, when the
/// file name has no `.`, or when its only `.` is its first character.
pub open spec fn portable_extension(p: Seq<char>) -> Option<Seq<char>> {
    match portable_file_name(p) {
        Some(f) => {
            let d = last_index_of(f, '.');
            if d <= 0 {
                None
            } else {
                Some(f.skip(d + 1))
            }
        },
        None => None,
    }
}

/// The extension of the file `p` names (`Path::extension`, then
/// `OsStr::to_str`, which cannot fail on text that came from a `&str`).
/// What counts as a separator or a prefix depends on the platform, so the
/// contract states the extension exactly for portable paths (see
/// [`portable_path`]), which every platform splits alike, and of any path
/// only that an extension follows a `.` in `p` and holds no `.`.
#[verifier::external_body]
fn path_extension(p: &str) -> (r: Option<String>)
    ensures
        r matches Some(e) ==> is_extension_in(p@, e@),
        portable_path(p@) ==> match r {
            Some(e) => portable_extension(p@) == Some(e@),
            None => portable_extension(p@) is None,
        },
{
    std::path::Path::new(p).extension().and_then(|e| e.to_str()).map(|e| e.to_string())
}

/// A MIME type that some extension found in `path` maps to.
pub open spec fn mime_possible(path: Seq<char>, m: Option<Seq<char>>) -> bool {
    exists|e: Option<Seq<char>>|
        (e matches Some(x) ==> is_extension_in(path, x)) && #[trigger] mime_of(e) == m
}

/// The `data:` URI MIME type of an asset path by its extension, or `None`
/// when the extension is not allow-listed.
pub fn tama_asset_mime(path: &str) -> (r: Option<&'static str>)
    ensures
        mime_possible(path@, opt_view(r)),
        portable_path(path@) ==> opt_view(r) == mime_of(portable_extension(path@)),
{
    let ext = path_extension(path);
    let r = match &ext {
        Some(e) => mime_for_extension(Some(e.as_str())),
        None => mime_for_extension(None),
    };
    proof {
        let e = match ext {
            Some(x) => Some(x@),
            None => None,
        };
        assert(mime_of(e) == opt_view(r));
    }
    r
}

// ---------------------------------------------------------------------------
// Choosing the assets to load
// ---------------------------------------------------------------------------

/// The declared poses that pass every check made before the file system is
/// touched, in declaration order, as `(key, relative path, MIME type)`:
/// a built-in key, a path that is not absolute (as `absolute` says) and has
/// no `..`, and an extension with a MIME type (as `mimes` says).
pub open spec fn selected_assets(
    poses: Seq<(String, String)>,
    absolute: Seq<bool>,
    mimes: Seq<Option<Seq<char>>>,
) -> Seq<(Seq<char>, Seq<char>, Seq<char>)>
    decreases poses.len(),
{
    if poses.len() == 0 {
        seq![]
    } else {
        let i = poses.len() - 1;
        let rest = selected_assets(poses.drop_last(), absolute.take(i), mimes.take(i));
        let p = poses.last();
        if is_pose_key(p.0@) && !absolute[i] && !has_dotdot(p.1@) && mimes[i] is Some {
            rest.push((p.0@, p.1@, mimes[i]->0))
        } else {
            rest
        }
    }
}

/// The views of a list of assets.
pub open spec fn asset_views(v: Seq<SkinAsset>) -> Seq<(Seq<char>, Seq<char>, Seq<char>)> {
    v.map_values(|a: SkinAsset| (a.key@, a.rel@, a.mime@))
}

/// The views of a list of optional MIME types.
pub open spec fn mime_views(v: Seq<Option<&'static str>>) -> Seq<Option<Seq<char>>> {
    v.map_values(|m: Option<&'static str>| opt_view(m))
}

/// The poses that pass the string-level checks, given for each declared pose
/// whether its path is absolute and which MIME type its extension maps to.
pub fn select_assets(
    poses: &Vec<(String, String)>,
    absolute: &[bool],
    mimes: &[Option<&'static str>],
) -> (r: Vec<SkinAsset>)
    requires
        absolute@.len() == poses@.len(),
        mimes@.len() == poses@.len(),
    ensures
        asset_views(r@) == selected_assets(poses@, absolute@, mime_views(mimes@)),
{
    let mut out: Vec<SkinAsset> = Vec::new();
    let mut i: usize = 0;
    while i < poses.len()
        invariant
            absolute@.len() == poses@.len(),
            mimes@.len() == poses@.len(),
            i <= poses@.len(),
            asset_views(out@) == selected_assets(
                poses@.take(i as int),
                absolute@.take(i as int),
                mime_views(mimes@).take(i as int),
            ),
        decreases poses.len() - i,
    {
        let ghost before = out@;
        let ghost pt = poses@.take(i + 1);
        let ghost at = absolute@.take(i + 1);
        let ghost mt = mime_views(mimes@).take(i + 1);
        assert(pt.drop_last() =~= poses@.take(i as int));
        assert(at.take(i as int) =~= absolute@.take(i as int));
        assert(mt.take(i as int) =~= mime_views(mimes@).take(i as int));
        assert(pt.last() == poses@[i as int]);
        assert(at[i as int] == absolute@[i as int]);
        assert(mt[i as int] == opt_view(mimes@[i as int]));
        let key = poses[i].0.as_str();
        let rel = poses[i].1.as_str();
        if is_valid_pose_key(key) && !absolute[i] && !contains_dotdot(rel) {
            match mimes[i] {
                Some(m) => {
                    out.push(SkinAsset { key: poses[i].0.clone(), rel: poses[i].1.clone(), mime: m });
                    assert(asset_views(out@) =~= asset_views(before).push((key@, rel@, m@)));
                },
                None => {},
            }
        }
        i = i + 1;
    }
    assert(poses@.take(poses.len() as int) =~= poses@);
    assert(absolute@.take(poses.len() as int) =~= absolute@);
    assert(mime_views(mimes@).take(poses.len() as int) =~= mime_views(mimes@));
    out
}

/// What the platform's answers for one pose path must agree with: the MIME
/// type comes from an extension found in the path, exactly the one of a
/// portable path; a surely relative path is not absolute.
pub open spec fn pose_checks_fit(path: Seq<char>, absolute: bool, m: Option<Seq<char>>) -> bool {
    &&& mime_possible(path, m)
    &&& portable_path(path) ==> m == mime_of(portable_extension(path))
    &&& surely_relative(path) ==> !absolute
}

/// The pose count of a plugin's skin.
pub open spec fn declared_poses(p: Plugin) -> Seq<(String, String)> {
    match p.tama {
        Some(t) => t.poses@,
        None => seq![],
    }
}

/// The declared pose assets of `plugin` that may be loaded, checked at the
/// string level before any file is touched: a built-in key, a relative path
/// without `..`, and a `.webp`/`.png` extension. No skin, no assets.
pub fn skin_assets(plugin: &Plugin) -> (r: Vec<SkinAsset>)
    ensures
        exists|absolute: Seq<bool>, mimes: Seq<Option<Seq<char>>>|
            absolute.len() == declared_poses(*plugin).len() && mimes.len() == declared_poses(
                *plugin,
            ).len() && (forall|k: int|
                0 <= k < mimes.len() ==> pose_checks_fit(
                    declared_poses(*plugin)[k].1@,
                    absolute[k],
                    #[trigger] mimes[k],
                )) && asset_views(r@) == #[trigger] selected_assets(declared_poses(*plugin), absolute, mimes),
{
    match &plugin.tama {
        Some(t) => {
            let mut absolute: Vec<bool> = Vec::new();
            let mut mimes: Vec<Option<&'static str>> = Vec::new();
            let mut i: usize = 0;
            while i < t.poses.len()
                invariant
                    i <= t.poses@.len(),
                    absolute@.len() == i,
                    mimes@.len() == i,
                    forall|k: int|
                        0 <= k < i ==> pose_checks_fit(
                            t.poses@[k].1@,
                            absolute@[k],
                            #[trigger] mime_views(mimes@)[k],
                        ),
                decreases t.poses.len() - i,
            {
                let ghost abefore = absolute@;
                absolute.push(path_is_absolute(t.poses[i].1.as_str()));
                let m = tama_asset_mime(t.poses[i].1.as_str());
                let ghost before = mimes@;
                mimes.push(m);
                assert forall|k: int| 0 <= k < i + 1 implies pose_checks_fit(
                    t.poses@[k].1@,
                    absolute@[k],
                    #[trigger] mime_views(mimes@)[k],
                ) by {
                    if k < i {
                        assert(mime_views(mimes@)[k] == mime_views(before)[k]);
                        assert(absolute@[k] == abefore[k]);
                    }
                }
                i = i + 1;
            }
            let r = select_assets(&t.poses, absolute.as_slice(), mimes.as_slice());
            assert(forall|k: int|
                0 <= k < mime_views(mimes@).len() ==> pose_checks_fit(
                    declared_poses(*plugin)[k].1@,
                    absolute@[k],
                    #[trigger] mime_views(mimes@)[k],
                ));
            r
        },
        None => {
            let r: Vec<SkinAsset> = Vec::new();
            let ghost e: Seq<bool> = seq![];
            let ghost m: Seq<Option<Seq<char>>> = seq![];
            assert(asset_views(r@) =~= selected_assets(declared_poses(*plugin), e, m));
            r
        },
    }
}

/// A path that every platform splits the same way: no backslash and no `:` (so
/// no Windows prefix and no second kind of separator), no repeated `/`, no
/// trailing `/` (other than the root `/` itself) and no `.` component. Its
/// components are an optional root followed by the texts between the `/`s.
pub open spec fn plain_path(p: Seq<char>) -> bool {
    &&& forall|k: int| 0 <= k < p.len() ==> #[trigger] p[k] != '\\' && p[k] != ':'
    &&& forall|k: int| 0 < k < p.len() ==> !(p[k - 1] == '/' && #[trigger] p[k] == '/')
    &&& p.len() > 1 ==> p[p.len() - 1] != '/'
    &&& forall|k: int|
        0 <= k < p.len() && #[trigger] p[k] == '.' ==> !((k == 0 || p[k - 1] == '/') && (k + 1
            == p.len() || p[k + 1] == '/'))
}

/// For plain paths: the components of `base` are a prefix of the components
/// of `path`. That is, `base` is empty, or `base` is a prefix of the text of
/// `path` that ends where a component ends (at the end of `path`, before a
/// `/`, or right after the root `/`).
pub open spec fn component_prefix(base: Seq<char>, path: Seq<char>) -> bool {
    ||| base.len() == 0
    ||| base.len() <= path.len() && path.subrange(0, base.len() as int) == base && (base.len()
        == path.len() || path[base.len() as int] == '/' || base[base.len() - 1] == '/')
}

/// Whether `base` is a prefix of `path` by whole path components
/// (`Path::starts_with`): `/plugins/foo` is a prefix of `/plugins/foo/a.png`
/// but not of `/plugins/foobar`. Windows also splits at a backslash and knows
/// prefixes such as `C:`, and every platform drops repeated separators, a
/// trailing separator and `.` components; so the contract states the result
/// for plain paths, which all platforms split alike into root and the texts
/// between `/`s, and otherwise only that a path starts with itself.
#[verifier::external_body]
fn path_starts_with(path: &str, base: &str) -> (r: bool)
    ensures
        path@ == base@ ==> r,
        plain_path(path@) && plain_path(base@) ==> (r <==> component_prefix(base@, path@)),
{
    std::path::Path::new(path).starts_with(base)
}

/// The containment guard of asset loading: given the canonical plugin
/// directory and the canonical path of an asset, is the asset inside the
/// directory? Because both paths are canonical, this one component-wise
/// prefix test rejects `..` traversal and symlinks that lead out alike. For
/// plain paths (see [`plain_path`]) the answer is exactly whether the
/// directory's components are a prefix of the asset's.
pub fn asset_is_within_dir(canonical_dir: &str, canonical_asset: &str) -> (r: bool)
    ensures
        canonical_asset@ == canonical_dir@ ==> r,
        plain_path(canonical_dir@) && plain_path(canonical_asset@) ==> (r <==> component_prefix(
            canonical_dir@,
            canonical_asset@,
        )),
{
    path_starts_with(canonical_asset, canonical_dir)
}

/// Whether an asset of `len` bytes is within [`MAX_TAMA_ASSET_BYTES`].
pub fn asset_fits(len: u64) -> (r: bool)
    ensures
        r == (len <= MAX_TAMA_ASSET_BYTES),
{
    len <= MAX_TAMA_ASSET_BYTES
}

// ---------------------------------------------------------------------------
// Assembling the skin
// ---------------------------------------------------------------------------

/// What `base64`'s standard engine (RFC 4648 alphabet, with padding)
/// encodes `bytes` to.
pub uninterp spec fn base64_standard(bytes: Seq<u8>) -> Seq<char>;

/// `base64::engine::general_purpose::STANDARD.encode`: the result is the
/// encoding of `bytes`, four characters per started group of three bytes. The
/// engine panics when that length overflows `usize`, so `requires` rules it out.
#[verifier::external_body]
fn base64_encode(bytes: &[u8]) -> (r: String)
    requires
        4 * ((bytes@.len() + 2) / 3) <= usize::MAX,
    ensures
        r@ == base64_standard(bytes@),
        r@.len() == 4 * ((bytes@.len() + 2) / 3),
{
    base64::engine::general_purpose::STANDARD.encode(bytes)
}

/// The `data:` URI of an asset: `data:<mime>;base64,<base64 of the bytes>`.
pub open spec fn data_uri(mime: Seq<char>, bytes: Seq<u8>) -> Seq<char> {
    "data:"@ + mime + ";base64,"@ + base64_standard(bytes)
}

/// The `data:` URI of an asset's bytes, usable directly as an image source.
pub fn pose_data_uri(mime: &str, bytes: &[u8]) -> (r: String)
    requires
        4 * ((bytes@.len() + 2) / 3) <= usize::MAX,
    ensures
        r@ == data_uri(mime@, bytes@),
{
    let mut s = String::from_str("data:");
    s.append(mime);
    s.append(";base64,");
    let b = base64_encode(bytes);
    s.append(b.as_str());
    s
}

/// A skin with `plugin`'s copy lines and no poses yet; a plugin without a
/// skin gets an empty one.
pub fn skin_copy(plugin: &Plugin) -> (r: TamaSkin)
    ensures
        r.poses@.len() == 0,
        plugin.well_formed() ==> r.well_formed(),
        r.copy@ == match plugin.tama {
            Some(t) => t.copy@,
            None => Seq::<(String, String)>::empty(),
        },
{
    match &plugin.tama {
        Some(t) => TamaSkin { poses: Vec::new(), copy: clone_pairs(&t.copy) },
        None => TamaSkin::default(),
    }
}

/// Record the `data:` URI of pose `key` in `skin`, replacing an earlier
/// value of the same key.
pub fn add_pose(skin: &mut TamaSkin, key: &str, uri: String)
    ensures
        final(skin).copy@ == old(skin).copy@,
        entry_views(final(skin).poses@) == entries_insert(old(skin).poses@, key@, uri@),
        old(skin).well_formed() ==> final(skin).well_formed(),
{
    insert_entry(&mut skin.poses, key, uri);
}

// ---------------------------------------------------------------------------
// Loading one asset
// ---------------------------------------------------------------------------

/// Where the loading of one asset stands: its path is still to be resolved,
/// the canonical path `p` is to be inspected, `p` is to be read, or the
/// asset is done with (admitted or skipped).
#[derive(Debug)]
pub enum AssetState {
    Resolve,
    Inspect(String),
    Read(String),
    Done,
}

/// What the file system answered for the current step: the canonical path
/// of the asset (`None` when it cannot be resolved), whether it is a regular
/// file and its length, its bytes, or a failure.
#[derive(Debug)]
pub enum AssetEvent {
    Resolved(Option<String>),
    Inspected(bool, u64),
    Bytes(Vec<u8>),
    Failed,
}

/// One step of loading `asset` for a skin whose canonical plugin directory
/// is `canonical_dir`. A resolved path is inspected only when it lies inside
/// the directory; an inspected file is read only when it is a regular file
/// within the size cap; read bytes are admitted, as the pose's `data:` URI,
/// only when they are still within the cap. Every failure, and an event that
/// does not answer the current step, ends the asset without a pose: an
/// asset is skipped, never fatal.
pub fn asset_step(
    skin: &mut TamaSkin,
    canonical_dir: &str,
    asset: &SkinAsset,
    state: AssetState,
    event: AssetEvent,
) -> (next: AssetState)
    ensures
        final(skin).copy@ == old(skin).copy@,
        old(skin).well_formed() ==> final(skin).well_formed(),
        match (state, event) {
            (AssetState::Resolve, AssetEvent::Resolved(Some(p))) => {
                &&& final(skin).poses@ == old(skin).poses@
                &&& (next matches AssetState::Inspect(q) && q == p) || next is Done
                &&& p@ == canonical_dir@ ==> next is Inspect
                &&& plain_path(canonical_dir@) && plain_path(p@) ==> (next is Inspect
                    <==> component_prefix(canonical_dir@, p@))
            },
            (AssetState::Inspect(p), AssetEvent::Inspected(is_file, len)) => {
                &&& final(skin).poses@ == old(skin).poses@
                &&& if is_file && len <= MAX_TAMA_ASSET_BYTES {
                    next matches AssetState::Read(q) && q == p
                } else {
                    next is Done
                }
            },
            (AssetState::Read(_), AssetEvent::Bytes(b)) => {
                &&& next is Done
                &&& if b@.len() <= MAX_TAMA_ASSET_BYTES {
                    entry_views(final(skin).poses@) == entries_insert(
                        old(skin).poses@,
                        asset.key@,
                        data_uri(asset.mime@, b@),
                    )
                } else {
                    final(skin).poses@ == old(skin).poses@
                }
            },
            _ => next is Done && final(skin).poses@ == old(skin).poses@,
        },
{
    match (state, event) {
        (AssetState::Resolve, AssetEvent::Resolved(Some(p))) => {
            if asset_is_within_dir(canonical_dir, p.as_str()) {
                AssetState::Inspect(p)
            } else {
                AssetState::Done
            }
        },
        (AssetState::Inspect(p), AssetEvent::Inspected(is_file, len)) => {
            if is_file && asset_fits(len) {
                AssetState::Read(p)
            } else {
                AssetState::Done
            }
        },
        (AssetState::Read(_), AssetEvent::Bytes(b)) => {
            if asset_fits(b.len() as u64) {
                let uri = pose_data_uri(asset.mime, b.as_slice());
                add_pose(skin, asset.key.as_str(), uri);
            }
            AssetState::Done
        },
        _ => AssetState::Done,
    }
}

/// Inserting into entries whose keys are distinct keeps them distinct, makes
/// the key map to the new value, and leaves every other key as it was.
pub proof fn law_add_pose_is_a_map_insert(v: Seq<(String, String)>, key: Seq<char>, value: Seq<char>)
    requires
        keys_distinct(v),
    ensures
        ({
            let w = entries_insert(v, key, value);
            &&& forall|i: int, j: int| 0 <= i < j < w.len() ==> w[i].0 != w[j].0
            &&& exists|i: int| 0 <= i < w.len() && w[i] == (key, value)
            &&& forall|i: int|
                0 <= i < v.len() && v[i].0@ != key ==> exists|j: int|
                    0 <= j < w.len() && w[j] == (v[i].0@, v[i].1@)
            &&& forall|j: int| 0 <= j < w.len() && w[j].0 != key ==> exists|i: int|
                0 <= i < v.len() && w[j] == (v[i].0@, v[i].1@)
        }),
{
    lemma_entry_keys_by_views(v);
    lemma_first_index_facts(entry_keys(v), key);
    let w = entries_insert(v, key, value);
    let ev = entry_views(v);
    match first_index(entry_keys(v), key) {
        Some(k) => {
            assert(w[k] == (key, value));
            assert forall|i: int, j: int| 0 <= i < j < w.len() implies w[i].0 != w[j].0 by {
                assert(entry_keys(v)[i] == v[i].0@);
                assert(entry_keys(v)[j] == v[j].0@);
            }
            assert forall|i: int|
                0 <= i < v.len() && v[i].0@ != key implies exists|j: int|
                0 <= j < w.len() && w[j] == (v[i].0@, v[i].1@) by {
                assert(entry_keys(v)[k] == v[k].0@);
                assert(w[i] == ev[i]);
            }
            assert forall|j: int| 0 <= j < w.len() && w[j].0 != key implies exists|i: int|
                0 <= i < v.len() && w[j] == (v[i].0@, v[i].1@) by {
                assert(w[j] == ev[j]);
            }
        },
        None => {
            assert(w[v.len() as int] == (key, value));
            assert forall|i: int, j: int| 0 <= i < j < w.len() implies w[i].0 != w[j].0 by {
                assert(entry_keys(v)[i] == v[i].0@);
                if j < v.len() {
                    assert(entry_keys(v)[j] == v[j].0@);
                }
            }
            assert forall|i: int|
                0 <= i < v.len() && v[i].0@ != key implies exists|j: int|
                0 <= j < w.len() && w[j] == (v[i].0@, v[i].1@) by {
                assert(w[i] == ev[i]);
            }
            assert forall|j: int| 0 <= j < w.len() && w[j].0 != key implies exists|i: int|
                0 <= i < v.len() && w[j] == (v[i].0@, v[i].1@) by {
                assert(w[j] == ev[j]);
            }
        },
    }
}

// ---------------------------------------------------------------------------
// Choosing the plugin whose skin is loaded
// ---------------------------------------------------------------------------

/// The error for a disabled plugin.
pub open spec fn disabled_message(id: Seq<char>) -> Seq<char> {
    "Plugin "@ + quoted_text(id) + " is disabled."@
}

/// The plugin whose skin is loaded for `id`: the first plugin with that id,
/// which must be enabled.
pub fn skin_plugin_index(plugins: &[Plugin], id: &str) -> (r: Result<usize, String>)
    ensures
        match first_index(plugin_ids(plugins@), id@) {
            None => r matches Err(e) && e@ == no_plugin_message(id@),
            Some(k) => if plugins@[k].enabled {
                r == Ok::<usize, String>(k as usize)
            } else {
                r matches Err(e) && e@ == disabled_message(id@)
            },
        },
{
    match plugin_index(plugins, id) {
        Some(k) => {
            proof {
                lemma_first_index_facts(plugin_ids(plugins@), id@);
            }
            if plugins[k].enabled {
                Ok(k)
            } else {
                let mut s = String::from_str("Plugin ");
                let q = debug_quote(id);
                s.append(q.as_str());
                s.append(" is disabled.");
                Err(s)
            }
        },
        None => {
            let mut s = String::from_str("No plugin with id ");
            let q = debug_quote(id);
            s.append(q.as_str());
            s.append(" is installed.");
            Err(s)
        },
    }
}

} // verus!
