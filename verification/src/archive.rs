//! Resource keys: how a requested resource becomes a location inside the container,
//! and how the files of a container become keys.
use vstd::prelude::*;
use crate::text::{chars_of, to_string};
use crate::uri;

verus! {

broadcast use vstd::string::group_string_axioms;

/// A resource, by location within the container or by position in the spine.
#[derive(Debug)]
pub enum ResourceKey {
    Value(String),
    Position(usize),
}

/// The number of `/` at the start of `s`.
pub open spec fn leading_slashes(s: Seq<char>) -> int
    decreases s.len(),
{
    if s.len() > 0 && s[0] == '/' {
        1 + leading_slashes(s.drop_first())
    } else {
        0
    }
}

proof fn lemma_leading_slashes(s: Seq<char>)
    ensures
        0 <= leading_slashes(s) <= s.len(),
        forall|i: int| 0 <= i < leading_slashes(s) ==> s[i] == '/',
        leading_slashes(s) < s.len() ==> s[leading_slashes(s)] != '/',
    decreases s.len(),
{
    if s.len() > 0 && s[0] == '/' {
        lemma_leading_slashes(s.drop_first());
        assert forall|i: int| 0 <= i < leading_slashes(s) implies s[i] == '/' by {
            if i > 0 {
                assert(s[i] == s.drop_first()[i - 1]);
            }
        }
        if leading_slashes(s) < s.len() {
            assert(s[leading_slashes(s)] == s.drop_first()[leading_slashes(s) - 1]);
        }
    }
}

/// The path of a resource within an archive: its location without leading `/`; a
/// position names no path.
pub fn resource_path(key: &ResourceKey) -> (r: Option<&str>)
    ensures
        match *key {
            ResourceKey::Value(v) => r matches Some(p) && p@ == v@.skip(leading_slashes(v@)),
            ResourceKey::Position(_) => r is None,
        },
{
    match key {
        ResourceKey::Value(v) => {
            let c = chars_of(v.as_str());
            let n = c.len();
            let mut i: usize = 0;
            proof {
                lemma_leading_slashes(v@);
            }
            while i < n && c[i] == '/'
                invariant
                    n == c@.len(),
                    c@ == v@,
                    i <= n,
                    0 <= leading_slashes(v@) <= n,
                    i <= leading_slashes(v@),
                    forall|j: int| 0 <= j < leading_slashes(v@) ==> v@[j] == '/',
                    leading_slashes(v@) < n ==> v@[leading_slashes(v@)] != '/',
                decreases n - i,
            {
                i = i + 1;
            }
            Some(v.as_str().substring_char(i, n))
        },
        ResourceKey::Position(_) => None,
    }
}

/// The keys of the files of a zip archive: names that do not end with `/` (those are
/// directories), made absolute.
pub open spec fn zip_keys(names: Seq<Seq<char>>) -> Seq<Seq<char>>
    decreases names.len(),
{
    if names.len() == 0 {
        Seq::empty()
    } else {
        let r = zip_keys(names.drop_last());
        let n = names.last();
        if n.len() > 0 && n.last() == '/' {
            r
        } else {
            r.push(uri::spec_into_absolute(n))
        }
    }
}

/// The keys of the files of a zip archive (see [`zip_keys`]).
pub fn zip_resource_keys(names: &Vec<String>) -> (r: Vec<String>)
    ensures
        r@.len() == zip_keys(names@.map_values(|s: String| s@)).len(),
        forall|i: int| 0 <= i < r@.len() ==> (#[trigger] r@[i])@ == zip_keys(names@.map_values(|s: String| s@))[i],
{
    let ghost all = names@.map_values(|s: String| s@);
    let mut out: Vec<String> = Vec::new();
    let mut i: usize = 0;
    while i < names.len()
        invariant
            i <= names@.len(),
            all == names@.map_values(|s: String| s@),
            out@.len() == zip_keys(all.take(i as int)).len(),
            forall|k: int| 0 <= k < out@.len() ==> (#[trigger] out@[k])@ == zip_keys(all.take(i as int))[k],
        decreases names.len() - i,
    {
        assert(all.take(i + 1).drop_last() =~= all.take(i as int));
        assert(all.take(i + 1).last() == names@[i as int]@);
        let name = names[i].as_str();
        let c = chars_of(name);
        let is_dir = c.len() > 0 && c[c.len() - 1] == '/';
        if !is_dir {
            out.push(uri::into_absolute(name));
        }
        i = i + 1;
    }
    assert(all.take(i as int) =~= all);
    out
}

/// Where a requested location points within the container: percent-decoded, then
/// normalized when absolute, else resolved against the (decoded) package directory.
pub open spec fn spec_transform_location(package_dir: Seq<char>, href: Seq<char>) -> Seq<char> {
    let decoded = uri::spec_decode(href);
    if decoded.len() > 0 && decoded[0] == '/' {
        uri::spec_normalize(decoded)
    } else {
        uri::spec_resolve(uri::spec_decode(package_dir), decoded)
    }
}

/// The resource a request names: a location becomes its place in the container (see
/// [`spec_transform_location`]); a position is kept.
pub fn transform_resource(package_dir: &str, resource: ResourceKey) -> (r: ResourceKey)
    ensures
        match resource {
            ResourceKey::Value(v) => r matches ResourceKey::Value(t) && t@ == spec_transform_location(
                package_dir@,
                v@,
            ),
            ResourceKey::Position(p) => r == ResourceKey::Position(p),
        },
{
    match resource {
        ResourceKey::Value(v) => {
            let decoded = uri::decode(v.as_str());
            let c = chars_of(decoded.as_str());
            if c.len() > 0 && c[0] == '/' {
                ResourceKey::Value(uri::normalize(decoded.as_str()))
            } else {
                let dir = uri::decode(package_dir);
                ResourceKey::Value(uri::resolve(dir.as_str(), decoded.as_str()))
            }
        },
        ResourceKey::Position(p) => ResourceKey::Position(p),
    }
}

} // verus!
