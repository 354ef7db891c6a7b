//! The digest-based build cache: the record of what built an artifact, and
//! the decisions that tell whether a built artifact can be reused.
use vstd::prelude::*;
use vstd::string::StringExecFns;
use crate::digest::{same_digest, Digest};
use crate::input::{destination_of, input_path_of, same_input, BuildInput, BuildInputs};
use crate::paths::{components, join, join_path, path_components, views};

verus! {

/// The directory, within the output directory, that holds the manifests.
pub open spec fn cache_subdirectory() -> Seq<char> {
    "manifest-cache"@
}

/// One input of a manifest, with its digest when it reads a host path.
#[derive(Clone, Debug, PartialEq, Eq)]
pub struct InputEntry {
    pub key: BuildInput,
    pub value: Option<Digest>,
}

/// The record of the inputs that built an artifact. An ordered list, not a
/// map: the order of inputs is part of the cache key.
#[derive(Clone, Debug, PartialEq, Eq)]
pub struct ArtifactManifest {
    /// All inputs that create the artifact.
    pub inputs: Vec<InputEntry>,
    /// The artifact.
    pub output_path: String,
}

/// Two optional digests agree.
pub open spec fn same_value(a: Option<Digest>, b: Option<Digest>) -> bool {
    match (a, b) {
        (None, None) => true,
        (Some(x), Some(y)) => same_digest(x, y),
        _ => false,
    }
}

/// Two entries agree.
pub open spec fn same_entry(a: InputEntry, b: InputEntry) -> bool {
    same_input(a.key, b.key) && same_value(a.value, b.value)
}

/// Two manifests agree, entry by entry, and on the artifact.
pub open spec fn same_manifest(a: ArtifactManifest, b: ArtifactManifest) -> bool {
    &&& a.inputs@.len() == b.inputs@.len()
    &&& forall|i: int| 0 <= i < a.inputs@.len() ==> #[trigger] same_entry(a.inputs@[i], b.inputs@[i])
    &&& a.output_path@ == b.output_path@
}

/// The manifest lists exactly these inputs, in this order.
pub open spec fn same_keys(inputs: Seq<BuildInput>, m: ArtifactManifest) -> bool {
    &&& inputs.len() == m.inputs@.len()
    &&& forall|i: int| 0 <= i < inputs.len() ==> #[trigger] same_input(inputs[i], m.inputs@[i].key)
}

/// The last component of a path, if it is a name.
pub open spec fn file_name_of(p: Seq<char>) -> Option<Seq<char>> {
    let c = path_components(p);
    if c.len() > 0 && c.last() != "/"@ && c.last() != "."@ && c.last() != ".."@ {
        Some(c.last())
    } else {
        None
    }
}

/// The manifest is made of these inputs, their digests and this artifact.
pub open spec fn manifest_of(
    inputs: Seq<BuildInput>,
    digests: Seq<Option<Digest>>,
    output_path: Seq<char>,
    m: ArtifactManifest,
) -> bool {
    &&& m.inputs@.len() == inputs.len()
    &&& forall|i: int|
        0 <= i < inputs.len() ==> #[trigger] m.inputs@[i] == (InputEntry {
            key: inputs[i],
            value: digests[i],
        })
    &&& m.output_path@ == output_path
}

proof fn lemma_same_input_refl(a: BuildInput)
    ensures
        same_input(a, a),
{
    match a {
        BuildInput::AddBlob { blob, .. } => match blob {
            crate::blob::Source::S3(_) => {},
            crate::blob::Source::Buildomat(_) => {},
        },
        _ => {},
    }
}

proof fn lemma_same_value_refl(a: Option<Digest>)
    ensures
        same_value(a, a),
{
    match a {
        Some(d) => match d {
            Digest::Sha2(_) => {},
            Digest::Blake3(_) => {},
        },
        None => {},
    }
}

/// Why a cached artifact cannot be used.
#[derive(Clone, Debug, PartialEq, Eq)]
pub enum CacheError {
    /// The cache misses; building anew is the way on.
    CacheMiss { reason: String },
    /// A more fundamental problem.
    Other { message: String },
}

impl CacheError {
    /// A miss, for the given reason.
    pub fn miss(reason: &str) -> (r: CacheError)
        ensures
            r matches CacheError::CacheMiss { reason: s } && s@ == reason@,
    {
        CacheError::CacheMiss { reason: String::from_str(reason) }
    }

    /// The error message.
    pub fn message(&self) -> (r: String)
        ensures
            r@ == match self {
                CacheError::CacheMiss { reason } => "Cache Miss: "@ + reason@,
                CacheError::Other { message } => message@,
            },
    {
        match self {
            CacheError::CacheMiss { reason } => {
                let mut r = String::from_str("Cache Miss: ");
                r.append(reason.as_str());
                r
            },
            CacheError::Other { message } => message.clone(),
        }
    }
}

/// The reason of a miss, if the error is one.
pub open spec fn miss_reason(e: CacheError) -> Option<Seq<char>> {
    match e {
        CacheError::CacheMiss { reason } => Some(reason@),
        _ => None,
    }
}

/// The last component of a path, if it is a name.
pub fn file_name(p: &str) -> (r: Option<String>)
    ensures
        r matches Some(s) ==> file_name_of(p@) == Some(s@),
        r is None <==> file_name_of(p@) is None,
{
    let c = components(p);
    proof {
        assert(views(c@) == path_components(p@));
    }
    if c.len() == 0 {
        return None;
    }
    let last = c[c.len() - 1].clone();
    let root = String::from_str("/");
    let cur = String::from_str(".");
    let up = String::from_str("..");
    if last == root || last == cur || last == up {
        None
    } else {
        Some(last)
    }
}

/// Provides access to the manifests that describe built packages.
#[derive(Clone, Debug)]
pub struct Cache {
    disabled: bool,
    cache_directory: String,
}

impl Cache {
    pub closed spec fn is_disabled(&self) -> bool {
        self.disabled
    }

    pub closed spec fn directory(&self) -> Seq<char> {
        self.cache_directory@
    }

    /// The cache of the output directory; its manifests are kept in the
    /// `manifest-cache` directory within it.
    pub fn new(output_directory: &str) -> (r: Cache)
        ensures
            !r.is_disabled(),
            r.directory() == join_path(output_directory@, cache_subdirectory()),
    {
        Cache { disabled: false, cache_directory: join(output_directory, "manifest-cache") }
    }

    /// The directory that holds the manifests.
    pub fn cache_directory(&self) -> (r: &String)
        ensures
            r@ == self.directory(),
    {
        &self.cache_directory
    }

    /// With `disable`, every lookup misses and every update does nothing.
    pub fn set_disable(&mut self, disable: bool)
        ensures
            final(self).is_disabled() == disable,
            final(self).directory() == old(self).directory(),
    {
        self.disabled = disable;
    }

    /// Where the manifest of the artifact at `output_path` is kept: its file
    /// name with `.json` appended, in the cache directory.
    pub fn manifest_path(&self, output_path: &str) -> (r: Result<String, CacheError>)
        ensures
            r is Ok <==> file_name_of(output_path@) is Some,
            r matches Ok(p) ==> p@ == join_path(
                self.directory(),
                file_name_of(output_path@)->0 + ".json"@,
            ),
            r matches Err(e) ==> e is Other,
    {
        match file_name(output_path) {
            Some(mut name) => {
                name.append(".json");
                Ok(join(self.cache_directory.as_str(), name.as_str()))
            },
            None => Err(CacheError::Other { message: String::from_str("Output has no file name") }),
        }
    }

    /// The first step of a lookup: a disabled cache misses; otherwise the
    /// path of the manifest to read.
    pub fn lookup_start(&self, output_path: &str) -> (r: Result<String, CacheError>)
        ensures
            self.is_disabled() ==> (r matches Err(e) && miss_reason(e) == Some("Cache disabled"@)),
            !self.is_disabled() ==> (r is Ok <==> file_name_of(output_path@) is Some),
            !self.is_disabled() ==> (r matches Ok(p) ==> p@ == join_path(
                self.directory(),
                file_name_of(output_path@)->0 + ".json"@,
            )),
    {
        if self.disabled {
            return Err(CacheError::miss("Cache disabled"));
        }
        self.manifest_path(output_path)
    }

    /// Where an update writes the manifest of the artifact at
    /// `output_path`; nothing for a disabled cache.
    pub fn update_path(&self, output_path: &str) -> (r: Result<Option<String>, CacheError>)
        ensures
            self.is_disabled() ==> r == Ok::<Option<String>, CacheError>(None),
            !self.is_disabled() ==> (r is Ok <==> file_name_of(output_path@) is Some),
            !self.is_disabled() ==> (r matches Ok(Some(p)) ==> p@ == join_path(
                self.directory(),
                file_name_of(output_path@)->0 + ".json"@,
            )),
            !self.is_disabled() ==> !(r matches Ok(None)),
    {
        if self.disabled {
            return Ok(None);
        }
        match self.manifest_path(output_path) {
            Ok(p) => Ok(Some(p)),
            Err(e) => Err(e),
        }
    }
}

/// A digest as text: the algorithm, then the hex string.
pub open spec fn digest_text(v: Option<Digest>) -> Seq<char> {
    match v {
        Some(Digest::Sha2(h)) => "sha2:"@ + h@,
        Some(Digest::Blake3(h)) => "blake3:"@ + h@,
        None => "none"@,
    }
}

/// An entry as text: the path it reads (or the place it takes), then its
/// digest.
pub open spec fn entry_text(key: BuildInput, value: Option<Digest>) -> Seq<char> {
    (match input_path_of(key) {
        Some(p) => p,
        None => match destination_of(key) {
            Some(d) => d,
            None => Seq::empty(),
        },
    }) + " "@ + digest_text(value)
}

fn entry_text_exec(key: &BuildInput, value: &Option<Digest>) -> (r: String)
    ensures
        r@ == entry_text(*key, *value),
{
    let mut r = match key {
        BuildInput::AddInMemoryFile { dst_path, .. } => dst_path.clone(),
        BuildInput::AddDirectory(d) => d.0.clone(),
        BuildInput::AddFile { mapped_path, .. } => mapped_path.from.clone(),
        BuildInput::AddBlob { path, .. } => path.from.clone(),
        BuildInput::AddPackage(p) => p.0.clone(),
    };
    r.append(" ");
    match value {
        Some(Digest::Sha2(h)) => {
            r.append("sha2:");
            r.append(h.as_str());
        },
        Some(Digest::Blake3(h)) => {
            r.append("blake3:");
            r.append(h.as_str());
        },
        None => {
            r.append("none");
        },
    }
    r
}

fn same_value_exec(a: &Option<Digest>, b: &Option<Digest>) -> (r: bool)
    ensures
        r == same_value(*a, *b),
{
    match (a, b) {
        (None, None) => true,
        (Some(x), Some(y)) => x.same(y),
        _ => false,
    }
}

impl ArtifactManifest {
    /// The manifest of `inputs`, whose digests are `digests`, building the
    /// artifact at `output_path`.
    pub fn new(inputs: &BuildInputs, digests: Vec<Option<Digest>>, output_path: &str) -> (r: ArtifactManifest)
        requires
            digests@.len() == inputs.0@.len(),
        ensures
            manifest_of(inputs.0@, digests@, output_path@, r),
    {
        let mut entries: Vec<InputEntry> = Vec::new();
        let mut k: usize = 0;
        while k < inputs.0.len()
            invariant
                digests@.len() == inputs.0@.len(),
                k <= inputs.0@.len(),
                entries@.len() == k,
                forall|j: int|
                    0 <= j < k ==> #[trigger] entries@[j] == (InputEntry {
                        key: inputs.0@[j],
                        value: digests@[j],
                    }),
            decreases inputs.0@.len() - k,
        {
            let value = match &digests[k] {
                Some(d) => Some(d.clone_digest()),
                None => None,
            };
            entries.push(InputEntry { key: inputs.0[k].clone_input(), value });
            k = k + 1;
        }
        ArtifactManifest { inputs: entries, output_path: String::from_str(output_path) }
    }
}

impl Cache {
    /// Checks the stored manifest against the current inputs and artifact,
    /// before any digest is computed: the same inputs in the same order, the
    /// same artifact path, and the artifact present.
    pub fn check_manifest(
        inputs: &BuildInputs,
        output_path: &str,
        manifest: &ArtifactManifest,
        output_exists: bool,
    ) -> (r: Result<(), CacheError>)
        ensures
            r is Ok <==> same_keys(inputs.0@, *manifest) && manifest.output_path@ == output_path@
                && output_exists && file_name_of(output_path@) is Some,
            !same_keys(inputs.0@, *manifest) ==> (r matches Err(e) && miss_reason(e) == Some(
                "Set of inputs has changed"@,
            )),
            same_keys(inputs.0@, *manifest) && manifest.output_path@ != output_path@ ==> (r matches Err(
                e,
            ) && miss_reason(e) == Some(
                "Output path changed from "@ + manifest.output_path@ + " -> "@ + output_path@,
            )),
            same_keys(inputs.0@, *manifest) && manifest.output_path@ == output_path@ && !output_exists
                ==> (r matches Err(e) && miss_reason(e) == Some("Output does not exist"@)),
            r matches Err(e) ==> e is CacheMiss,
    {
        if inputs.0.len() != manifest.inputs.len() {
            return Err(CacheError::miss("Set of inputs has changed"));
        }
        let mut k: usize = 0;
        while k < inputs.0.len()
            invariant
                inputs.0@.len() == manifest.inputs@.len(),
                k <= inputs.0@.len(),
                forall|j: int| 0 <= j < k ==> #[trigger] same_input(inputs.0@[j], manifest.inputs@[j].key),
            decreases inputs.0@.len() - k,
        {
            if !inputs.0[k].same(&manifest.inputs[k].key) {
                return Err(CacheError::miss("Set of inputs has changed"));
            }
            k = k + 1;
        }
        let out = String::from_str(output_path);
        if !(out == manifest.output_path) {
            let mut reason = String::from_str("Output path changed from ");
            reason.append(manifest.output_path.as_str());
            reason.append(" -> ");
            reason.append(output_path);
            return Err(CacheError::CacheMiss { reason });
        }
        if !output_exists {
            return Err(CacheError::miss("Output does not exist"));
        }
        let expected = file_name(output_path);
        match file_name(manifest.output_path.as_str()) {
            None => {
                let mut reason = String::from_str("Missing output file name from manifest ");
                reason.append(manifest.output_path.as_str());
                Err(CacheError::CacheMiss { reason })
            },
            Some(observed) => match expected {
                Some(exp) => {
                    if observed == exp {
                        Ok(())
                    } else {
                        let mut reason = String::from_str("Wrong output name in manifest (saw ");
                        reason.append(observed.as_str());
                        reason.append(", expected ");
                        reason.append(exp.as_str());
                        reason.append(")");
                        Err(CacheError::CacheMiss { reason })
                    }
                },
                None => Err(CacheError::miss("Output has no file name")),
            },
        }
    }

    /// Compares one input, with its freshly computed digest, to the entry
    /// that the stored manifest holds at the same position. A difference is
    /// a miss, so that no further input needs hashing.
    pub fn compare_entry(expected: &InputEntry, key: &BuildInput, digest: Option<Digest>) -> (r: Result<
        InputEntry,
        CacheError,
    >)
        ensures
            r is Ok <==> same_entry(InputEntry { key: *key, value: digest }, *expected),
            r matches Ok(e) ==> e == (InputEntry { key: *key, value: digest }),
            r matches Err(e) ==> miss_reason(e) == Some(
                "Differing build inputs.\nSaw "@ + entry_text(*key, digest) + "\nExpected "@
                    + entry_text(expected.key, expected.value),
            ),
    {
        if key.same(&expected.key) && same_value_exec(&digest, &expected.value) {
            Ok(InputEntry { key: key.clone_input(), value: digest })
        } else {
            let mut reason = String::from_str("Differing build inputs.\nSaw ");
            let saw = entry_text_exec(key, &digest);
            reason.append(saw.as_str());
            reason.append("\nExpected ");
            let exp = entry_text_exec(&expected.key, &expected.value);
            reason.append(exp.as_str());
            Err(CacheError::CacheMiss { reason })
        }
    }

    /// The last check of a lookup: the manifest computed now must agree with
    /// the stored one in every respect.
    pub fn finish_lookup(calculated: &ArtifactManifest, stored: &ArtifactManifest) -> (r: Result<(), CacheError>)
        ensures
            r is Ok <==> same_manifest(*calculated, *stored),
            r matches Err(e) ==> miss_reason(e) == Some("Manifests appear different"@),
    {
        if calculated.inputs.len() != stored.inputs.len() || !(calculated.output_path
            == stored.output_path) {
            return Err(CacheError::miss("Manifests appear different"));
        }
        let mut k: usize = 0;
        while k < calculated.inputs.len()
            invariant
                calculated.inputs@.len() == stored.inputs@.len(),
                calculated.output_path@ == stored.output_path@,
                k <= calculated.inputs@.len(),
                forall|j: int| 0 <= j < k ==> #[trigger] same_entry(calculated.inputs@[j], stored.inputs@[j]),
            decreases calculated.inputs@.len() - k,
        {
            let a = &calculated.inputs[k];
            let b = &stored.inputs[k];
            if !(a.key.same(&b.key) && same_value_exec(&a.value, &b.value)) {
                assert(!same_entry(calculated.inputs@[k as int], stored.inputs@[k as int]));
                return Err(CacheError::miss("Manifests appear different"));
            }
            k = k + 1;
        }
        Ok(())
    }
}

/// Unchanged inputs hit the cache: when the stored manifest is the one that
/// an update made from these inputs, their digests and this artifact, and
/// the digests computed now are the same, then the stored manifest lists
/// the same inputs and artifact, every input compares equal to its entry,
/// and the manifest computed now agrees with the stored one.
pub proof fn lemma_unchanged_inputs_hit(
    inputs: Seq<BuildInput>,
    digests: Seq<Option<Digest>>,
    output_path: Seq<char>,
    stored: ArtifactManifest,
    calculated: ArtifactManifest,
)
    requires
        digests.len() == inputs.len(),
        manifest_of(inputs, digests, output_path, stored),
        manifest_of(inputs, digests, output_path, calculated),
    ensures
        same_keys(inputs, stored),
        stored.output_path@ == output_path,
        forall|i: int|
            0 <= i < inputs.len() ==> #[trigger] same_entry(
                InputEntry { key: inputs[i], value: digests[i] },
                stored.inputs@[i],
            ),
        same_manifest(calculated, stored),
{
    assert forall|i: int| 0 <= i < inputs.len() implies #[trigger] same_input(inputs[i], stored.inputs@[i].key) by {
        assert(stored.inputs@[i] == (InputEntry { key: inputs[i], value: digests[i] }));
        lemma_same_input_refl(inputs[i]);
    }
    assert forall|i: int| 0 <= i < inputs.len() implies #[trigger] same_entry(
        InputEntry { key: inputs[i], value: digests[i] },
        stored.inputs@[i],
    ) by {
        assert(stored.inputs@[i] == (InputEntry { key: inputs[i], value: digests[i] }));
        lemma_same_input_refl(inputs[i]);
        lemma_same_value_refl(digests[i]);
    }
    assert forall|i: int| 0 <= i < calculated.inputs@.len() implies #[trigger] same_entry(
        calculated.inputs@[i],
        stored.inputs@[i],
    ) by {
        assert(stored.inputs@[i] == (InputEntry { key: inputs[i], value: digests[i] }));
        assert(calculated.inputs@[i] == (InputEntry { key: inputs[i], value: digests[i] }));
        lemma_same_input_refl(inputs[i]);
        lemma_same_value_refl(digests[i]);
    }
}

/// A lookup in progress: the stored manifest has passed the checks that need
/// no digest, and the inputs are compared one by one, in order, each with
/// its digest computed just before. The first difference ends the lookup,
/// so no later input is hashed.
pub struct Lookup {
    stored: ArtifactManifest,
    output_path: String,
    entries: Vec<InputEntry>,
}

impl Lookup {
    /// The stored manifest.
    pub closed spec fn stored_view(&self) -> ArtifactManifest {
        self.stored
    }

    /// The manifest of the inputs compared so far, with their digests.
    pub closed spec fn compared_manifest(&self) -> ArtifactManifest {
        ArtifactManifest { inputs: self.entries, output_path: self.output_path }
    }

    /// How many inputs have been compared.
    pub closed spec fn compared(&self) -> nat {
        self.entries@.len()
    }

    pub closed spec fn wf(&self) -> bool {
        &&& self.entries@.len() <= self.stored.inputs@.len()
        &&& self.output_path@ == self.stored.output_path@
        &&& forall|i: int|
            0 <= i < self.entries@.len() ==> #[trigger] same_entry(self.entries@[i], self.stored.inputs@[i])
    }

    /// Starts a lookup of `inputs`, building the artifact at `output_path`,
    /// against the stored manifest.
    pub fn start(
        inputs: &BuildInputs,
        output_path: &str,
        stored: ArtifactManifest,
        output_exists: bool,
    ) -> (r: Result<Lookup, CacheError>)
        ensures
            r is Ok <==> same_keys(inputs.0@, stored) && stored.output_path@ == output_path@
                && output_exists && file_name_of(output_path@) is Some,
            r matches Ok(l) ==> l.wf() && l.stored_view() == stored && l.compared() == 0,
            r matches Err(e) ==> e is CacheMiss,
            !same_keys(inputs.0@, stored) ==> (r matches Err(e) && miss_reason(e) == Some(
                "Set of inputs has changed"@,
            )),
            same_keys(inputs.0@, stored) && stored.output_path@ != output_path@ ==> (r matches Err(
                e,
            ) && miss_reason(e) == Some(
                "Output path changed from "@ + stored.output_path@ + " -> "@ + output_path@,
            )),
            same_keys(inputs.0@, stored) && stored.output_path@ == output_path@ && !output_exists
                ==> (r matches Err(e) && miss_reason(e) == Some("Output does not exist"@)),
    {
        match Cache::check_manifest(inputs, output_path, &stored, output_exists) {
            Ok(()) => Ok(Lookup { stored, output_path: String::from_str(output_path), entries: Vec::new() }),
            Err(e) => Err(e),
        }
    }

    /// The position of the next input to hash and compare, if any is left.
    pub fn next_input(&self) -> (r: Option<usize>)
        requires
            self.wf(),
        ensures
            r is None <==> self.compared() == self.stored_view().inputs@.len(),
            r matches Some(i) ==> i == self.compared(),
    {
        if self.entries.len() < self.stored.inputs.len() {
            Some(self.entries.len())
        } else {
            None
        }
    }

    /// Compares the next input, whose digest is `digest`, with its entry.
    pub fn record(&mut self, key: &BuildInput, digest: Option<Digest>) -> (r: Result<(), CacheError>)
        requires
            old(self).wf(),
            old(self).compared() < old(self).stored_view().inputs@.len(),
        ensures
            final(self).wf(),
            final(self).stored_view() == old(self).stored_view(),
            r is Ok <==> same_entry(
                InputEntry { key: *key, value: digest },
                old(self).stored_view().inputs@[old(self).compared() as int],
            ),
            r is Ok ==> final(self).compared() == old(self).compared() + 1,
            r is Err ==> final(self).compared() == old(self).compared(),
            r matches Err(e) ==> miss_reason(e) == Some(
                "Differing build inputs.\nSaw "@ + entry_text(*key, digest) + "\nExpected "@
                    + entry_text(
                    old(self).stored_view().inputs@[old(self).compared() as int].key,
                    old(self).stored_view().inputs@[old(self).compared() as int].value,
                ),
            ),
    {
        let n = self.entries.len();
        match Cache::compare_entry(&self.stored.inputs[n], key, digest) {
            Ok(e) => {
                self.entries.push(e);
                proof {
                    assert forall|i: int| 0 <= i < self.entries@.len() implies #[trigger] same_entry(
                        self.entries@[i],
                        self.stored.inputs@[i],
                    ) by {
                        if i < n {
                            assert(self.entries@[i] == old(self).entries@[i]);
                        }
                    }
                }
                Ok(())
            },
            Err(e) => Err(e),
        }
    }

    /// Ends a lookup in which every input matched its entry: the cache hits,
    /// with the stored manifest. The manifest of what was compared agrees
    /// with the stored one in every respect, so no further check can miss.
    pub fn finish(self) -> (r: ArtifactManifest)
        requires
            self.wf(),
            self.compared() == self.stored_view().inputs@.len(),
        ensures
            r == self.stored_view(),
            same_manifest(self.compared_manifest(), r),
    {
        self.stored
    }
}

} // verus!
