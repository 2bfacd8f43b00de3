use vstd::multiset::Multiset;
use vstd::prelude::*;

use crate::text::{owned, str_eq};
use crate::tileset::TilesetInfo;
use crate::tree::{lemma_lex_total, lemma_lex_trans, lex_le, str_le};
use crate::workspace::PackMetadata;

verus! {

broadcast use vstd::seq_lib::to_multiset_insert, vstd::seq_lib::to_multiset_len, vstd::multiset::group_multiset_axioms;

/// The editor's settings.
#[derive(Debug, Clone)]
pub struct AppSettings {
    /// The game directory.
    pub game_path: Option<String>,
    /// The selected tileset.
    pub tileset: Option<String>,
    /// More directories that hold mods.
    pub mod_directories: Vec<String>,
}

/// What a game directory turned out to be.
#[derive(Debug, Clone)]
pub struct GamePathInfo {
    pub valid: bool,
    /// `repository`, `installed` or `macos_app`.
    pub path_type: String,
    /// The directory that holds `data/`.
    pub data_path: String,
    /// Whether it holds a game binary or is a source checkout.
    pub is_bn_root: bool,
}

/// What was found on disk about a candidate game directory.
#[derive(Debug, Clone)]
pub struct GamePathProbe {
    pub exists: bool,
    /// `data/json` is there.
    pub has_data_json: bool,
    /// `Contents/Resources/data/json` is there, as in a macOS application bundle.
    pub has_bundle_data_json: bool,
    /// `.git` or `src` is there.
    pub has_repo_marker: bool,
    /// The names of the files in the directory.
    pub root_files: Vec<String>,
    /// The names of the files in `Contents/Resources`.
    pub bundle_resource_files: Vec<String>,
    /// `Contents/MacOS/cataclysm-bn-tiles` is there.
    pub has_bundle_binary: bool,
}

/// The names the game's executable goes by.
pub open spec fn is_binary_name(n: Seq<char>) -> bool {
    n == "cataclysm-bn-tiles"@ || n == "cataclysm-bn-tiles.exe"@ || n == "cataclysm-bn"@ || n
        == "cataclysm-bn.exe"@ || n == "cataclysm-tiles"@ || n == "cataclysm-tiles.exe"@
}

pub open spec fn holds_binary(files: Seq<String>) -> bool {
    exists|i: int| 0 <= i < files.len() && is_binary_name(#[trigger] files[i]@)
}

fn binary_name(n: &str) -> (r: bool)
    ensures
        r == is_binary_name(n@),
{
    str_eq(n, "cataclysm-bn-tiles") || str_eq(n, "cataclysm-bn-tiles.exe") || str_eq(n, "cataclysm-bn")
        || str_eq(n, "cataclysm-bn.exe") || str_eq(n, "cataclysm-tiles") || str_eq(n, "cataclysm-tiles.exe")
}

/// Whether a directory with these files holds a game binary.
pub fn has_bn_binary(files: &Vec<String>) -> (r: bool)
    ensures
        r == holds_binary(files@),
{
    let mut i: usize = 0;
    while i < files.len()
        invariant
            i <= files@.len(),
            forall|k: int| 0 <= k < i ==> !is_binary_name(#[trigger] files@[k]@),
        decreases files.len() - i,
    {
        if binary_name(files[i].as_str()) {
            return true;
        }
        i += 1;
    }
    false
}

/// What a directory is, from what was found in it: an error where it does
/// not exist or holds no game data.
pub fn game_path_info(path: &str, probe: &GamePathProbe) -> (r: Result<GamePathInfo, String>)
    ensures
        !probe.exists ==> r is Err,
        probe.exists && probe.has_data_json ==> (r matches Ok(i) && i.valid && i.data_path@ == path@
            && i.path_type@ == (if probe.has_repo_marker { "repository"@ } else { "installed"@ })
            && i.is_bn_root == (holds_binary(probe.root_files@) || probe.has_repo_marker)),
        probe.exists && !probe.has_data_json && probe.has_bundle_data_json ==> (r matches Ok(i) && i.valid
            && i.data_path@ == path@ + "/Contents/Resources"@ && i.path_type@ == "macos_app"@
            && i.is_bn_root == (holds_binary(probe.bundle_resource_files@) || probe.has_bundle_binary)),
        probe.exists && !probe.has_data_json && !probe.has_bundle_data_json ==> r is Err,
{
    if !probe.exists {
        return Err(owned("Path does not exist"));
    }
    if !probe.has_data_json {
        if probe.has_bundle_data_json {
            let bin = has_bn_binary(&probe.bundle_resource_files) || probe.has_bundle_binary;
            return Ok(
                GamePathInfo {
                    valid: true,
                    path_type: owned("macos_app"),
                    data_path: crate::text::concat(path, "/Contents/Resources"),
                    is_bn_root: bin,
                },
            );
        }
        return Err(owned("Not a valid Cataclysm-BN directory (missing data/json)"));
    }
    let is_repo = probe.has_repo_marker;
    let bin = has_bn_binary(&probe.root_files) || is_repo;
    Ok(
        GamePathInfo {
            valid: true,
            path_type: if is_repo {
                owned("repository")
            } else {
                owned("installed")
            },
            data_path: owned(path),
            is_bn_root: bin,
        },
    )
}

/// A mod found in a mods directory.
#[derive(Debug)]
pub struct AvailableModInfo {
    pub path: String,
    pub metadata: PackMetadata,
}

/// Whether a directory under the mods directory is skipped: `bn` holds the
/// base game's manifest, not a mod.
pub fn is_skipped_mod_dir(name: &str) -> (r: bool)
    ensures
        r == (name@ == "bn"@),
{
    str_eq(name, "bn")
}

/// The id a mod is ordered by, empty where it has none.
pub open spec fn mod_key(m: AvailableModInfo) -> Seq<char> {
    match m.metadata.mod_id {
        Some(id) => id@,
        None => Seq::empty(),
    }
}

fn mod_key_str(m: &AvailableModInfo) -> (r: &str)
    ensures
        r@ == mod_key(*m),
{
    proof {
        reveal_strlit("");
    }
    match &m.metadata.mod_id {
        Some(id) => id.as_str(),
        None => "",
    }
}

pub open spec fn mods_sorted(v: Seq<AvailableModInfo>) -> bool {
    forall|i: int, j: int| #![trigger v[i], v[j]] 0 <= i < j < v.len() ==> lex_le(mod_key(v[i]), mod_key(v[j]))
}

proof fn lemma_empty_mods(s: Seq<AvailableModInfo>)
    requires
        s.len() == 0,
    ensures
        s.to_multiset() =~= Multiset::<AvailableModInfo>::empty(),
{
    assert forall|a: AvailableModInfo| s.to_multiset().count(a) == 0 by {
        vstd::seq_lib::to_multiset_contains(s, a);
    }
}

/// The mods ordered by id; equal ids keep their order.
pub fn sort_mods(v: Vec<AvailableModInfo>) -> (r: Vec<AvailableModInfo>)
    ensures
        r@.to_multiset() == v@.to_multiset(),
        mods_sorted(r@),
{
    let ghost orig = v@;
    let mut rest = v;
    let mut out: Vec<AvailableModInfo> = Vec::new();
    proof {
        lemma_empty_mods(out@);
    }
    assert(out@.to_multiset().add(rest@.to_multiset()) =~= orig.to_multiset());
    while rest.len() > 0
        invariant
            out@.to_multiset().add(rest@.to_multiset()) == orig.to_multiset(),
            mods_sorted(out@),
        decreases rest.len(),
    {
        let ghost before_rest = rest@;
        let x = rest.remove(0);
        proof {
            vstd::seq_lib::to_multiset_remove(before_rest, 0);
        }
        let mut p: usize = 0;
        while p < out.len() && str_le(mod_key_str(&out[p]), mod_key_str(&x))
            invariant
                p <= out@.len(),
                forall|k: int| 0 <= k < p ==> lex_le(mod_key(out@[k]), mod_key(x)),
            decreases out.len() - p,
        {
            p += 1;
        }
        let ghost before = out@;
        proof {
            if p < before.len() {
                lemma_lex_total(mod_key(before[p as int]), mod_key(x));
            }
        }
        out.insert(p, x);
        proof {
            assert forall|i: int, j: int| 0 <= i < j < out@.len() implies lex_le(mod_key(out@[i]), mod_key(out@[j])) by {
                if i == p {
                    assert(out@[j] == before[j - 1]);
                    if j > p + 1 {
                        assert(lex_le(mod_key(before[p as int]), mod_key(before[j - 1])));
                        lemma_lex_trans(mod_key(x), mod_key(before[p as int]), mod_key(before[j - 1]));
                    }
                } else if j == p {
                    assert(out@[i] == before[i]);
                } else {
                    let i2 = if i < p { i } else { i - 1 };
                    let j2 = if j < p { j } else { j - 1 };
                    assert(out@[i] == before[i2] && out@[j] == before[j2]);
                    assert(lex_le(mod_key(before[i2]), mod_key(before[j2])));
                }
            }
            assert(before_rest.to_multiset().count(x) > 0) by {
                vstd::seq_lib::to_multiset_contains(before_rest, x);
                assert(before_rest[0] == x);
            }
            assert(out@.to_multiset().add(rest@.to_multiset()) =~= before.to_multiset().add(before_rest.to_multiset()));
        }
    }
    proof {
        lemma_empty_mods(rest@);
        assert(out@.to_multiset().add(rest@.to_multiset()) =~= out@.to_multiset());
    }
    out
}

pub open spec fn tilesets_sorted(v: Seq<TilesetInfo>) -> bool {
    forall|i: int, j: int| #![trigger v[i], v[j]] 0 <= i < j < v.len() ==> lex_le(v[i].name@, v[j].name@)
}

proof fn lemma_empty_tilesets(s: Seq<TilesetInfo>)
    requires
        s.len() == 0,
    ensures
        s.to_multiset() =~= Multiset::<TilesetInfo>::empty(),
{
    assert forall|a: TilesetInfo| s.to_multiset().count(a) == 0 by {
        vstd::seq_lib::to_multiset_contains(s, a);
    }
}

/// The tilesets ordered by name.
pub fn sort_tilesets(v: Vec<TilesetInfo>) -> (r: Vec<TilesetInfo>)
    ensures
        r@.to_multiset() == v@.to_multiset(),
        tilesets_sorted(r@),
{
    let ghost orig = v@;
    let mut rest = v;
    let mut out: Vec<TilesetInfo> = Vec::new();
    proof {
        lemma_empty_tilesets(out@);
    }
    assert(out@.to_multiset().add(rest@.to_multiset()) =~= orig.to_multiset());
    while rest.len() > 0
        invariant
            out@.to_multiset().add(rest@.to_multiset()) == orig.to_multiset(),
            tilesets_sorted(out@),
        decreases rest.len(),
    {
        let ghost before_rest = rest@;
        let x = rest.remove(0);
        proof {
            vstd::seq_lib::to_multiset_remove(before_rest, 0);
        }
        let mut p: usize = 0;
        while p < out.len() && str_le(out[p].name.as_str(), x.name.as_str())
            invariant
                p <= out@.len(),
                forall|k: int| 0 <= k < p ==> lex_le(out@[k].name@, x.name@),
            decreases out.len() - p,
        {
            p += 1;
        }
        let ghost before = out@;
        proof {
            if p < before.len() {
                lemma_lex_total(before[p as int].name@, x.name@);
            }
        }
        out.insert(p, x);
        proof {
            assert forall|i: int, j: int| 0 <= i < j < out@.len() implies lex_le(out@[i].name@, out@[j].name@) by {
                if i == p {
                    assert(out@[j] == before[j - 1]);
                    if j > p + 1 {
                        assert(lex_le(before[p as int].name@, before[j - 1].name@));
                        lemma_lex_trans(x.name@, before[p as int].name@, before[j - 1].name@);
                    }
                } else if j == p {
                    assert(out@[i] == before[i]);
                } else {
                    let i2 = if i < p { i } else { i - 1 };
                    let j2 = if j < p { j } else { j - 1 };
                    assert(out@[i] == before[i2] && out@[j] == before[j2]);
                    assert(lex_le(before[i2].name@, before[j2].name@));
                }
            }
            assert(before_rest.to_multiset().count(x) > 0) by {
                vstd::seq_lib::to_multiset_contains(before_rest, x);
                assert(before_rest[0] == x);
            }
            assert(out@.to_multiset().add(rest@.to_multiset()) =~= before.to_multiset().add(before_rest.to_multiset()));
        }
    }
    proof {
        lemma_empty_tilesets(rest@);
        assert(out@.to_multiset().add(rest@.to_multiset()) =~= out@.to_multiset());
    }
    out
}

} // verus!
