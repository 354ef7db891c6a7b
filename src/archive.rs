//! Rules for the entries of archives.
use vstd::prelude::*;
use crate::paths::{components, join_components, joined, path_components, views};

verus! {

/// What becomes of one entry of a component zone image that is copied into
/// a composite.
#[derive(Clone, Debug, PartialEq, Eq)]
pub enum ComponentEntry {
    /// The layer descriptor `oxide.json`: left out.
    Skip,
    /// An entry under `root/`: unpacked at `unpack` below a scratch
    /// directory, then added under its own name.
    Add { unpack: String },
    /// An entry outside `root/`: the component is no zone image.
    NotZoneImage,
}

/// What becomes of the entry at `path` of a component zone image.
pub open spec fn component_entry_spec(path: Seq<char>) -> (Option<bool>, Seq<char>) {
    let c = path_components(path);
    if c == seq!["oxide.json"@] {
        (None, Seq::empty())
    } else if c.len() > 0 && c[0] == "root"@ {
        (Some(true), joined(c.subrange(1, c.len() as int)))
    } else {
        (Some(false), Seq::empty())
    }
}

/// Sorts an entry of a component zone image: the layer descriptor is left
/// out; every other entry must lie under `root/`, and is unpacked at the
/// rest of its path.
pub fn component_entry(path: &str) -> (r: ComponentEntry)
    ensures
        component_entry_spec(path@).0 is None <==> r is Skip,
        component_entry_spec(path@).0 == Some(false) <==> r is NotZoneImage,
        r matches ComponentEntry::Add { unpack } ==> component_entry_spec(path@) == (
            Some(true),
            unpack@,
        ),
{
    let c = components(path);
    proof {
        assert(views(c@) == path_components(path@));
    }
    let descriptor = String::from_str("oxide.json");
    if c.len() == 1 && c[0] == descriptor {
        proof {
            assert(path_components(path@) =~= seq!["oxide.json"@]);
        }
        return ComponentEntry::Skip;
    }
    proof {
        if path_components(path@) == seq!["oxide.json"@] {
            assert(views(c@).len() == 1);
            assert(views(c@)[0] == c@[0]@);
            assert(seq!["oxide.json"@][0] == "oxide.json"@);
        }
    }
    let root = String::from_str("root");
    if c.len() > 0 && c[0] == root {
        let unpack = join_components(&c, 1, c.len());
        return ComponentEntry::Add { unpack };
    }
    ComponentEntry::NotZoneImage
}

} // verus!
