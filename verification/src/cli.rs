//! Resolving the level given on the command line to a path the asset loader
//! understands. The file must resolve to something under the project's
//! `assets/` directory, since that is the asset root the engine loads from.
//!
//! Canonicalising paths and looking for the assets directory read the file
//! system; the application does that and hands over the outcome, each
//! canonical absolute path as its list of components.

use vstd::prelude::*;

verus! {

/// Beambuilder — a 2D bridge construction game.
pub struct Cli {
    /// Path to a `.level.ron` file, as given. Must resolve under
    /// <project>/assets/.
    pub level: String,
}

/// Path passed through to the level loader, relative to the asset root.
#[derive(Debug, Clone)]
pub struct LevelPath(pub String);

#[derive(Debug)]
pub enum CliError {
    /// The level file is not under the assets directory.
    NotUnderAssets { full: Vec<String>, assets: Vec<String> },
    /// No assets directory was found.
    AssetsDirMissing,
    /// The assets directory was found but could not be canonicalised.
    AssetsDirUnreadable,
    /// The level file could not be canonicalised: it does not exist.
    LevelNotFound { level: String },
}

/// The components, as character sequences.
pub open spec fn views(parts: Seq<String>) -> Seq<Seq<char>> {
    parts.map_values(|s: String| s@)
}

/// `prefix` is a leading run of `path`'s components.
pub open spec fn starts_with(path: Seq<Seq<char>>, prefix: Seq<Seq<char>>) -> bool {
    prefix.len() <= path.len() && forall|i: int| 0 <= i < prefix.len() ==> #[trigger] path[i] == prefix[i]
}

/// A path starts with a prefix exactly when the prefix is no longer than the
/// path and equals the path's first components, taken together.
pub proof fn law_starts_with(path: Seq<Seq<char>>, prefix: Seq<Seq<char>>)
    ensures
        starts_with(path, prefix) <==> (prefix.len() <= path.len() && path.take(prefix.len() as int) == prefix),
{
    if prefix.len() <= path.len() && path.take(prefix.len() as int) == prefix {
        assert forall|i: int| 0 <= i < prefix.len() implies #[trigger] path[i] == prefix[i] by {
            assert(path.take(prefix.len() as int)[i] == path[i]);
        }
    }
    if starts_with(path, prefix) {
        assert(path.take(prefix.len() as int) =~= prefix);
    }
}

/// The components joined by `/`.
pub open spec fn join_components(parts: Seq<Seq<char>>) -> Seq<char>
    decreases parts.len(),
{
    if parts.len() == 0 {
        Seq::empty()
    } else if parts.len() == 1 {
        parts[0]
    } else {
        join_components(parts.drop_last()) + seq!['/'] + parts.last()
    }
}

impl Cli {
    /// Resolves the requested level to an `(asset_path, full_path)` pair:
    /// `full_path` is the level file's canonical path (`None` when it could
    /// not be canonicalised), `assets_root` the canonical assets directory
    /// or why it is not at hand. The asset path is the full path with the
    /// assets directory stripped off, component-wise.
    #[verifier::loop_isolation(false)]
    pub fn resolve(
        &self,
        full_path: Option<Vec<String>>,
        assets_root: Result<Vec<String>, CliError>,
    ) -> (r: Result<(LevelPath, Vec<String>), CliError>)
        ensures
            full_path is None ==> (r matches Err(CliError::LevelNotFound { level }) && level@ == self.level@),
            full_path matches Some(full) ==> match assets_root {
                Err(e) => r == Err::<(LevelPath, Vec<String>), CliError>(e),
                Ok(assets) => if starts_with(views(full@), views(assets@)) {
                    &&& r matches Ok((asset_path, f))
                    &&& f == full
                    &&& asset_path.0@ == join_components(views(full@).skip(assets@.len() as int))
                } else {
                    &&& r matches Err(CliError::NotUnderAssets { full: f, assets: a })
                    &&& f == full
                    &&& a == assets
                },
            },
            r is Ok <==> (full_path is Some && assets_root is Ok && assets_root->Ok_0@.len() <= full_path->0@.len()
                && views(full_path->0@).take(assets_root->Ok_0@.len() as int) == views(assets_root->Ok_0@)),
    {
        proof {
            if full_path is Some && assets_root is Ok {
                law_starts_with(views(full_path->0@), views(assets_root->Ok_0@));
            }
        }
        let full = match full_path {
            Some(f) => f,
            None => return Err(CliError::LevelNotFound { level: self.level.clone() }),
        };
        let assets = match assets_root {
            Ok(a) => a,
            Err(e) => return Err(e),
        };
        if assets.len() > full.len() {
            return Err(CliError::NotUnderAssets { full, assets });
        }
        let mut i: usize = 0;
        while i < assets.len()
            invariant
                assets.len() <= full.len(),
                0 <= i <= assets.len(),
                forall|j: int| 0 <= j < i ==> #[trigger] views(full@)[j] == views(assets@)[j],
            decreases assets.len() - i,
        {
            if full[i] != assets[i] {
                proof {
                    assert(views(full@)[i as int] != views(assets@)[i as int]);
                }
                return Err(CliError::NotUnderAssets { full, assets });
            }
            i = i + 1;
        }
        let start = assets.len();
        let mut rel = String::new();
        let mut j: usize = start;
        while j < full.len()
            invariant
                start <= j <= full.len(),
                rel@ == join_components(views(full@).subrange(start as int, j as int)),
            decreases full.len() - j,
        {
            let ghost before = views(full@).subrange(start as int, j as int);
            let ghost rel_before = rel@;
            proof {
                reveal_strlit("/");
            }
            if j > start {
                rel.append("/");
            }
            rel.append(full[j].as_str());
            j = j + 1;
            proof {
                let after = views(full@).subrange(start as int, j as int);
                assert(after.drop_last() =~= before);
                assert(after.last() == full@[j - 1]@);
                if before.len() == 0 {
                    assert(rel@ =~= full@[j - 1]@);
                } else {
                    assert(rel@ =~= rel_before + seq!['/'] + full@[j - 1]@);
                }
            }
        }
        proof {
            assert(views(full@).subrange(start as int, j as int) =~= views(full@).skip(start as int));
        }
        Ok((LevelPath(rel), full))
    }
}

} // verus!
