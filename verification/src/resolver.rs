//! The locator resolver for registry-lookup entries: builds the metadata
//! URL of a package release and selects its first source distribution.
//! The metadata request itself belongs to the caller, which hands the
//! decoded artifact list back here.

use vstd::prelude::*;

use crate::text::str_eq_str;
use crate::RefreshError;

verus! {

/// One distribution artifact of a package release, as listed by the
/// registry's metadata document.
#[derive(Debug)]
pub struct PypiArtifact {
    pub packagetype: String,
    pub url: String,
}

/// The (kind, url) views of an artifact list.
pub open spec fn artifact_views(v: Seq<PypiArtifact>) -> Seq<(Seq<char>, Seq<char>)> {
    v.map_values(|a: PypiArtifact| (a.packagetype@, a.url@))
}

/// The first artifact at or after `i` tagged as a source distribution.
pub open spec fn first_sdist(arts: Seq<(Seq<char>, Seq<char>)>, i: int) -> Option<int>
    decreases arts.len() - i,
{
    if i < 0 || i >= arts.len() {
        None
    } else if arts[i].0 == "sdist"@ {
        Some(i)
    } else {
        first_sdist(arts, i + 1)
    }
}

/// Selects the download URL of the release's first source distribution;
/// `Resolution` when the release lists none.
pub fn select_sdist(artifacts: &Vec<PypiArtifact>) -> (r: Result<String, RefreshError>)
    ensures
        match first_sdist(artifact_views(artifacts@), 0) {
            Some(j) => r is Ok && r->Ok_0@ == artifact_views(artifacts@)[j].1,
            None => r is Err && r->Err_0 == RefreshError::Resolution,
        },
{
    let n = artifacts.len();
    let mut i: usize = 0;
    while i < n
        invariant
            n == artifacts@.len(),
            i <= n,
            first_sdist(artifact_views(artifacts@), 0) == first_sdist(
                artifact_views(artifacts@),
                i as int,
            ),
        decreases n - i,
    {
        proof {
            assert(artifact_views(artifacts@)[i as int] == (
                artifacts@[i as int].packagetype@,
                artifacts@[i as int].url@,
            ));
        }
        if str_eq_str(artifacts[i].packagetype.as_str(), "sdist") {
            return Ok(artifacts[i].url.clone());
        }
        i += 1;
    }
    Err(RefreshError::Resolution)
}

/// Builds the canonical metadata URL of one package release on the Python
/// package index.
pub fn pypi_metadata_url(pkg: &String, ver: &String) -> (r: String)
    ensures
        r@ == "https://pypi.org/pypi/"@ + pkg@ + "/"@ + ver@ + "/json"@,
{
    let mut s = String::from_str("https://pypi.org/pypi/");
    s.append(pkg.as_str());
    s.append("/");
    s.append(ver.as_str());
    s.append("/json");
    s
}

} // verus!
