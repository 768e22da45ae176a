//! Where a model is looked for, and what is taken of what is found there.

use vstd::prelude::*;

use crate::error::Error;
use crate::text::{joined, replace_all, replaced};

verus! {

/// Where the directory of a model was found.
#[derive(Debug, PartialEq, Eq, Structural, Clone, Copy)]
pub enum ModelDir {
    /// The given path is the directory.
    Given,
    /// The directory is a snapshot in the hub cache.
    Cached,
}

/// Decides which directory a model is loaded from: the given path if it holds
/// an agent configuration, else a cached snapshot, but only where the path is
/// no directory.
pub fn resolve_model_dir(model: &str, has_config: bool, is_dir: bool, cached: bool) -> (r: Result<
    ModelDir,
    Error<String>,
>)
    ensures
        has_config ==> r == Ok::<ModelDir, Error<String>>(ModelDir::Given),
        !has_config && is_dir ==> (r matches Err(e) && e@ == Error::ConfigMissing(model@)),
        !has_config && !is_dir && cached ==> r == Ok::<ModelDir, Error<String>>(ModelDir::Cached),
        !has_config && !is_dir && !cached ==> (r matches Err(e) && e@ == Error::ModelNotFound(
            model@,
        )),
{
    if has_config {
        return Ok(ModelDir::Given);
    }
    if is_dir {
        return Err(Error::ConfigMissing(model.to_owned()));
    }
    if cached {
        return Ok(ModelDir::Cached);
    }
    Err(Error::ModelNotFound(model.to_owned()))
}

/// The names under which a model is looked for in the hub cache, in their
/// order: its own, and those of the English checkpoint.
pub fn cache_aliases(model_id: &str) -> (r: Vec<String>)
    ensures
        r@.len() == 4,
        r@[0]@ == model_id@,
        r@[1]@ == "convaiinnovations/laya"@,
        r@[2]@ == "laya"@,
        r@[3]@ == "english"@,
{
    let mut r: Vec<String> = Vec::new();
    r.push(model_id.to_owned());
    r.push("convaiinnovations/laya".to_owned());
    r.push("laya".to_owned());
    r.push("english".to_owned());
    r
}

/// Gives the name of the directory that the hub cache has for a model.
pub fn cache_dir_name(name: &str) -> (r: String)
    ensures
        r@ == "models--"@ + replaced(name@, "/"@, "--"@),
{
    joined("models--", &replace_all(name, "/", "--"))
}

/// What a snapshot directory holds.
#[derive(Debug, Clone, Copy)]
pub struct Snapshot {
    pub has_config: bool,
    pub has_weights: bool,
}

/// Whether a snapshot has all that is asked of it.
pub open spec fn is_complete(s: Snapshot) -> bool {
    s.has_config && s.has_weights
}

/// Whether no snapshot in a list is complete.
pub open spec fn none_is_complete(found: Seq<Snapshot>) -> bool {
    forall|j: int| 0 <= j < found.len() ==> !is_complete(#[trigger] found[j])
}

/// Picks the first complete snapshot.
pub fn pick_snapshot(found: &Vec<Snapshot>) -> (r: Option<usize>)
    ensures
        match r {
            Some(i) => i < found@.len() && is_complete(found@[i as int]) && forall|j: int|
                0 <= j < i ==> !is_complete(#[trigger] found@[j]),
            None => none_is_complete(found@),
        },
{
    let mut i: usize = 0;
    while i < found.len()
        invariant
            i <= found@.len(),
            forall|j: int| 0 <= j < i ==> !is_complete(#[trigger] found@[j]),
        decreases found.len() - i,
    {
        if found[i].has_config && found[i].has_weights {
            return Some(i);
        }
        i += 1;
    }
    None
}

/// Picks the first complete snapshot of the first name that has one, where the
/// snapshots of each name are given in the order of the names.
pub fn pick_cached(found: &Vec<Vec<Snapshot>>) -> (r: Option<(usize, usize)>)
    ensures
        match r {
            Some((a, i)) => {
                &&& a < found@.len()
                &&& i < found@[a as int]@.len()
                &&& is_complete(found@[a as int]@[i as int])
                &&& forall|j: int| 0 <= j < i ==> !is_complete(#[trigger] found@[a as int]@[j])
                &&& forall|b: int|
                    0 <= b < a ==> none_is_complete((#[trigger] found@[b])@)
            },
            None => forall|b: int|
                0 <= b < found@.len() ==> none_is_complete((#[trigger] found@[b])@),
        },
{
    let mut a: usize = 0;
    while a < found.len()
        invariant
            a <= found@.len(),
            forall|b: int| 0 <= b < a ==> none_is_complete((#[trigger] found@[b])@),
        decreases found.len() - a,
    {
        if let Some(i) = pick_snapshot(&found[a]) {
            return Some((a, i));
        }
        a += 1;
    }
    None
}

/// Where the hub cache is.
#[derive(Debug, PartialEq)]
pub enum HubCache {
    /// At a path that the environment names.
    Named(String),
    /// At its usual place under the home directory.
    UnderHome,
}

/// Decides where the hub cache is: where `HF_HUB_CACHE` says, else where
/// `HUGGINGFACE_HUB_CACHE` says, else under the home directory, if there is one.
pub fn hub_cache(
    hf_hub_cache: Option<String>,
    huggingface_hub_cache: Option<String>,
    has_home: bool,
) -> (r: Option<HubCache>)
    ensures
        r == match (hf_hub_cache, huggingface_hub_cache) {
            (Some(path), _) => Some(HubCache::Named(path)),
            (None, Some(path)) => Some(HubCache::Named(path)),
            (None, None) => if has_home {
                Some(HubCache::UnderHome)
            } else {
                None
            },
        },
        r is None <==> hf_hub_cache is None && huggingface_hub_cache is None && !has_home,
        hf_hub_cache matches Some(path) ==> r == Some(HubCache::Named(path)),
        hf_hub_cache is None ==> (huggingface_hub_cache matches Some(path) ==> r == Some(
            HubCache::Named(path),
        )),
        r == Some(HubCache::UnderHome) ==> has_home,
{
    if let Some(path) = hf_hub_cache {
        return Some(HubCache::Named(path));
    }
    if let Some(path) = huggingface_hub_cache {
        return Some(HubCache::Named(path));
    }
    if has_home {
        Some(HubCache::UnderHome)
    } else {
        None
    }
}

/// A snapshot is complete exactly if it has both its configuration and its weights.
pub proof fn snapshots_need_both(s: Snapshot, found: Seq<Snapshot>, i: int)
    ensures
        is_complete(s) <==> s.has_config && s.has_weights,
        0 <= i < found.len() && found[i].has_config && found[i].has_weights ==> !none_is_complete(
            found,
        ),
        (forall|k: int|
            0 <= k < found.len() ==> !((#[trigger] found[k]).has_config && found[k].has_weights))
            ==> none_is_complete(found),
{
    if 0 <= i < found.len() {
        assert(is_complete(found[i]) <==> found[i].has_config && found[i].has_weights);
    }
}

} // verus!
