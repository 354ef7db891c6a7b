//! Flattens a package definition into the ordered inputs of its archive.
use vstd::prelude::*;
use vstd::string::StringExecFns;
use crate::blob::Source;
use crate::identifier::{PackageName, ServiceName};
use crate::input::{destination_of, BuildInput, BuildInputs, MappedPath, TargetDirectory, TargetPackage};
use crate::package::{interp, InterpolateError, InterpolatedMappedPath, Package, PackageOutput, PackageSource, PrebuiltBlob, RustPackage};
use crate::target::TargetMap;
use crate::paths::{components, join, join_path, joined, path_components, views, zone_path, zone_path_of};

verus! {

/// Why the inputs of a package could not be listed.
#[derive(Clone, Debug, PartialEq, Eq)]
pub enum InputError {
    /// A path template could not be interpolated.
    Interpolate(InterpolateError),
    /// A zone image needs an absolute destination.
    RelativeDestination { to: String },
    /// A destination has no parent directory.
    NoParent { to: String },
    /// Only local and composite packages are built from inputs; `source`
    /// describes the package's source.
    UnsupportedSource { source: String },
}

impl InputError {
    /// The error message.
    pub fn message(&self) -> (r: String)
        ensures
            match self {
                InputError::Interpolate(e) => r@ == e.message_view(),
                InputError::RelativeDestination { to } => r@ == "Cannot add 'to = "@ + to@
                    + "'; absolute path required"@,
                InputError::NoParent { to } => r@ == "Cannot add 'to = "@ + to@
                    + "'; it has no parent directory"@,
                InputError::UnsupportedSource { source } => r@
                    == "Cannot walk over a zone package with source: "@ + source@,
            },
    {
        match self {
            InputError::Interpolate(e) => e.message(),
            InputError::RelativeDestination { to } => {
                let mut r = String::from_str("Cannot add 'to = ");
                r.append(to.as_str());
                r.append("'; absolute path required");
                r
            },
            InputError::NoParent { to } => {
                let mut r = String::from_str("Cannot add 'to = ");
                r.append(to.as_str());
                r.append("'; it has no parent directory");
                r
            },
            InputError::UnsupportedSource { source } => {
                let mut r = String::from_str("Cannot walk over a zone package with source: ");
                r.append(source.as_str());
                r
            },
        }
    }
}

/// One entry found by walking a source path, sorted by file name, with
/// directories before their contents.
#[derive(Clone, Debug)]
pub struct WalkEntry {
    /// The components of the entry's path below the walked path; none for
    /// the walked path itself.
    pub rel: Vec<String>,
    /// True for a directory, false for a file.
    pub is_dir: bool,
    /// The length of a file.
    pub len: u64,
    /// The entry's path on the host.
    pub source: String,
}

/// The result of walking the source of one mapped path.
#[derive(Clone, Debug)]
pub struct PathWalk {
    /// True if the source is a directory.
    pub from_is_dir: bool,
    pub entries: Vec<WalkEntry>,
}

/// The path `d` lies under `root/`.
pub open spec fn under_root(d: Seq<char>) -> bool {
    d.len() >= 5 && d.subrange(0, 5) == "root/"@
}

pub proof fn lemma_zone_path_under_root(c: Seq<Seq<char>>)
    ensures
        under_root(zone_path(c)),
{
    reveal_strlit("root/");
    assert(zone_path(c).subrange(0, 5) =~= "root/"@);
}

/// An absolute path: its first component is the root.
pub open spec fn absolute(c: Seq<Seq<char>>) -> bool {
    c.len() > 0 && c[0] == "/"@
}

/// `input` is the directory `d` of the archive.
pub open spec fn is_dir_at(input: BuildInput, d: Seq<char>) -> bool {
    input is AddDirectory && destination_of(input) == Some(d)
}

/// Where the walk entry with components `rel` goes: below the destination
/// for a walked directory, at the destination for a single file; in a zone
/// image, under `root/`.
pub open spec fn entry_destination(
    zone: bool,
    to: Seq<char>,
    from_is_dir: bool,
    rel: Seq<Seq<char>>,
) -> Seq<char> {
    let c = path_components(to);
    if zone {
        if from_is_dir {
            zone_path(c.subrange(1, c.len() as int) + rel)
        } else {
            zone_path(c.subrange(1, c.len() as int))
        }
    } else {
        if from_is_dir {
            join_path(to, joined(rel))
        } else {
            to
        }
    }
}

/// `input` is what the walk entry `e` becomes, placed at `dst`.
pub open spec fn entry_input(input: BuildInput, e: WalkEntry, dst: Seq<char>) -> bool {
    if e.is_dir {
        is_dir_at(input, dst)
    } else {
        match input {
            BuildInput::AddFile { mapped_path, len } => mapped_path.from@ == e.source@
                && mapped_path.to@ == dst && len == e.len,
            _ => false,
        }
    }
}

/// Appends the directories of the zone image for the first `hi` components
/// of an absolute path: `root/`, then each deeper directory in turn.
fn push_zone_dirs(c: &Vec<String>, hi: usize, out: &mut Vec<BuildInput>)
    requires
        1 <= hi <= c@.len(),
    ensures
        final(out)@.len() == old(out)@.len() + hi,
        forall|j: int| 0 <= j < old(out)@.len() ==> final(out)@[j] == old(out)@[j],
        forall|m: int|
            1 <= m <= hi ==> #[trigger] is_dir_at(
                final(out)@[old(out)@.len() + m - 1],
                zone_path(views(c@).subrange(1, m)),
            ),
{
    let ghost start = out@.len();
    let mut m: usize = 0;
    while m < hi
        invariant
            0 <= m <= hi,
            hi <= c@.len(),
            out@.len() == start + m,
            start == old(out)@.len(),
            forall|j: int| 0 <= j < start ==> out@[j] == old(out)@[j],
            forall|mm: int|
                1 <= mm <= m ==> #[trigger] is_dir_at(
                    out@[start + mm - 1],
                    zone_path(views(c@).subrange(1, mm)),
                ),
        decreases hi - m,
    {
        let d = zone_path_of(c, m + 1);
        out.push(BuildInput::AddDirectory(TargetDirectory(d)));
        m = m + 1;
    }
}

/// The place in a zone image of the absolute path `p`: `/a/b/c` becomes
/// `root/a/b/c`. A relative path is refused.
pub fn zone_archive_path(p: &str) -> (r: Result<String, InputError>)
    ensures
        r is Ok <==> absolute(path_components(p@)),
        r matches Ok(s) ==> s@ == zone_path(
            path_components(p@).subrange(1, path_components(p@).len() as int),
        ),
        r matches Err(e) ==> (e matches InputError::RelativeDestination { to } && to@ == p@),
{
    let c = components(p);
    proof {
        reveal_strlit("/");
        assert(views(c@) == path_components(p@));
    }
    let root = String::from_str("/");
    if c.len() == 0 || !(c[0] == root) {
        return Err(InputError::RelativeDestination { to: String::from_str(p) });
    }
    Ok(zone_path_of(&c, c.len()))
}

/// `v` is what one mapped path to `to`, whose source walk is `walk`, turns
/// into: in a zone image, first every parent directory of `to` from `root/`
/// down, then one input per walk entry, in walk order.
pub open spec fn block_ok(zone: bool, to: Seq<char>, walk: PathWalk, v: Seq<BuildInput>) -> bool {
    let c = path_components(to);
    let p = parent_count(zone, to);
    &&& zone ==> c.len() >= 2
    &&& v.len() == p + walk.entries@.len()
    &&& forall|m: int| 1 <= m <= p ==> #[trigger] is_dir_at(v[m - 1], zone_path(c.subrange(1, m)))
    &&& forall|k: int|
        0 <= k < walk.entries@.len() ==> #[trigger] entry_input(
            v[p + k],
            walk.entries@[k],
            entry_destination(zone, to, walk.from_is_dir, views(walk.entries@[k].rel@)),
        )
}

/// How many parent directories open the block of a path to `to`.
pub open spec fn parent_count(zone: bool, to: Seq<char>) -> int {
    if zone {
        path_components(to).len() - 1
    } else {
        0
    }
}

/// The archive directory of a package's Rust binaries: the top of a
/// tarball, `root/opt/oxide/<service>/bin` in a zone image.
pub open spec fn rust_dir(p: Package) -> Seq<char> {
    if p.output is Zone {
        zone_path(bin_components(p.service_name@).subrange(1, 5))
    } else {
        Seq::empty()
    }
}

/// How many directories open the inputs of a package's Rust binaries.
pub open spec fn rust_prefix(p: Package) -> int {
    if p.output is Zone {
        5
    } else {
        0
    }
}

/// The inputs of consecutive blocks, one after the other.
pub open spec fn concat_all(b: Seq<Seq<BuildInput>>) -> Seq<BuildInput>
    decreases b.len(),
{
    if b.len() == 0 {
        Seq::empty()
    } else {
        concat_all(b.drop_last()) + b.last()
    }
}

/// Where a walk entry with components `rel` goes.
fn entry_dst(zone: bool, to: &String, c: &Vec<String>, from_is_dir: bool, rel: &Vec<String>) -> (r: String)
    requires
        views(c@) == path_components(to@),
        zone ==> c@.len() >= 1,
    ensures
        r@ == entry_destination(zone, to@, from_is_dir, views(rel@)),
{
    if zone {
        let mut dc: Vec<String> = Vec::new();
        let mut k: usize = 0;
        while k < c.len()
            invariant
                k <= c@.len(),
                dc@ == c@.subrange(0, k as int),
            decreases c@.len() - k,
        {
            dc.push(c[k].clone());
            k = k + 1;
        }
        if from_is_dir {
            let mut k: usize = 0;
            while k < rel.len()
                invariant
                    k <= rel@.len(),
                    dc@ == c@ + rel@.subrange(0, k as int),
                decreases rel@.len() - k,
            {
                dc.push(rel[k].clone());
                k = k + 1;
            }
            proof {
                assert(rel@.subrange(0, rel@.len() as int) == rel@);
                assert(views(dc@).subrange(1, dc@.len() as int) =~= views(c@).subrange(
                    1,
                    c@.len() as int,
                ) + views(rel@));
            }
        } else {
            proof {
                assert(c@.subrange(0, c@.len() as int) == c@);
            }
        }
        zone_path_of(&dc, dc.len())
    } else if from_is_dir {
        let tail = crate::paths::join_components(rel, 0, rel.len());
        proof {
            assert(views(rel@).subrange(0, rel@.len() as int) == views(rel@));
        }
        join(to.as_str(), tail.as_str())
    } else {
        to.clone()
    }
}

/// The inputs of one mapped path whose source has been walked: in a zone
/// image, first every parent directory of the destination from `root/`
/// down, then one input per walk entry, in walk order.
pub fn mapped_path_inputs(zone: bool, mp: &MappedPath, walk: &PathWalk) -> (r: Result<
    Vec<BuildInput>,
    InputError,
>)
    ensures
        ({
            let c = path_components(mp.to@);
            &&& zone ==> (r is Ok <==> absolute(c) && c.len() >= 2)
            &&& !zone ==> r is Ok
            &&& r matches Err(e) ==> (!absolute(c) && (e matches InputError::RelativeDestination {
                to,
            } && to@ == mp.to@)) || (absolute(c) && (e matches InputError::NoParent { to } && to@
                == mp.to@))
            &&& r matches Ok(v) ==> block_ok(zone, mp.to@, *walk, v@)
        }),
{
    let c = components(mp.to.as_str());
    proof {
        reveal_strlit("/");
        assert(views(c@) == path_components(mp.to@));
    }
    let mut out: Vec<BuildInput> = Vec::new();
    let mut p: usize = 0;
    if zone {
        let root = String::from_str("/");
        if c.len() == 0 || !(c[0] == root) {
            return Err(InputError::RelativeDestination { to: mp.to.clone() });
        }
        if c.len() < 2 {
            return Err(InputError::NoParent { to: mp.to.clone() });
        }
        p = c.len() - 1;
        push_zone_dirs(&c, p, &mut out);
        proof {
            assert forall|m: int| 1 <= m <= p implies #[trigger] is_dir_at(
                out@[m - 1],
                zone_path(views(c@).subrange(1, m)),
            ) by {
                assert(is_dir_at(out@[0 + m - 1], zone_path(views(c@).subrange(1, m))));
            }
        }
    }
    let mut k: usize = 0;
    while k < walk.entries.len()
        invariant
            views(c@) == path_components(mp.to@),
            zone ==> c@.len() >= 2 && p == c@.len() - 1,
            !zone ==> p == 0,
            k <= walk.entries@.len(),
            out@.len() == p + k,
            forall|m: int|
                1 <= m <= p ==> #[trigger] is_dir_at(out@[m - 1], zone_path(views(c@).subrange(1, m))),
            forall|kk: int|
                0 <= kk < k ==> #[trigger] entry_input(
                    out@[p + kk],
                    walk.entries@[kk],
                    entry_destination(zone, mp.to@, walk.from_is_dir, views(walk.entries@[kk].rel@)),
                ),
        decreases walk.entries@.len() - k,
    {
        let e = &walk.entries[k];
        let dst = entry_dst(zone, &mp.to, &c, walk.from_is_dir, &e.rel);
        let ghost out0 = out@;
        if e.is_dir {
            out.push(BuildInput::AddDirectory(TargetDirectory(dst)));
        } else {
            out.push(
                BuildInput::AddFile {
                    mapped_path: MappedPath { from: e.source.clone(), to: dst },
                    len: e.len,
                },
            );
        }
        proof {
            assert forall|m: int| 1 <= m <= p implies #[trigger] is_dir_at(
                out@[m - 1],
                zone_path(views(c@).subrange(1, m)),
            ) by {
                assert(out@[m - 1] == out0[m - 1]);
            }
            assert forall|kk: int| 0 <= kk < k + 1 implies #[trigger] entry_input(
                out@[p + kk],
                walk.entries@[kk],
                entry_destination(zone, mp.to@, walk.from_is_dir, views(walk.entries@[kk].rel@)),
            ) by {
                if kk < k {
                    assert(out@[p + kk] == out0[p + kk]);
                }
            }
        }
        k = k + 1;
    }
    Ok(out)
}

/// The version stamped on packages that have not been stamped yet.
pub open spec fn version_text(v: Option<Seq<char>>) -> Seq<char> {
    match v {
        Some(s) => s,
        None => "0.0.0"@,
    }
}

/// The layer descriptor that opens a zone image, keys in the order v, t,
/// pkg, version.
pub open spec fn layer_json(name: Seq<char>, version: Seq<char>) -> Seq<char> {
    "{\"v\":\"1\",\"t\":\"layer\",\"pkg\":\""@ + name + "\",\"version\":\""@ + version + "\"}"@
}

/// `input` is an in-memory file at `dst` holding `contents`.
pub open spec fn is_memory_file(input: BuildInput, dst: Seq<char>, contents: Seq<char>) -> bool {
    match input {
        BuildInput::AddInMemoryFile { dst_path, contents: c } => dst_path@ == dst && c@ == contents,
        _ => false,
    }
}

/// The components of the directory that holds a service's binaries.
pub open spec fn bin_components(service: Seq<char>) -> Seq<Seq<char>> {
    seq!["/"@, "opt"@, "oxide"@, service, "bin"@]
}

/// The directory that holds a service's blobs, below the root.
pub open spec fn blob_components(service: Seq<char>) -> Seq<Seq<char>> {
    seq!["opt"@, "oxide"@, service, "blob"@]
}

/// Where a Rust binary is found after it was compiled.
pub open spec fn local_binary_path(name: Seq<char>, release: bool) -> Seq<char> {
    "target/"@ + (if release {
        "release"@
    } else {
        "debug"@
    }) + "/"@ + name
}

/// `input` adds the file at `from` as `to`, of length `len`.
pub open spec fn is_file_input(input: BuildInput, from: Seq<char>, to: Seq<char>, len: u64) -> bool {
    match input {
        BuildInput::AddFile { mapped_path, len: l } => mapped_path.from@ == from && mapped_path.to@
            == to && l == len,
        _ => false,
    }
}

/// `input` adds the blob from `source`, kept at `from`, as `to`.
pub open spec fn is_blob_input(input: BuildInput, from: Seq<char>, to: Seq<char>, source: Source) -> bool {
    match input {
        BuildInput::AddBlob { path, blob } => path.from@ == from && path.to@ == to
            && crate::blob::same_source(blob, source),
        _ => false,
    }
}

/// Where the blob named `b` of a service is kept after download, and where
/// it goes in the archive.
pub open spec fn blob_from(download: Seq<char>, service: Seq<char>, b: Seq<char>) -> Seq<char> {
    join_path(join_path(download, service), b)
}

pub open spec fn blob_to(zoned: bool, service: Seq<char>, b: Seq<char>) -> Seq<char> {
    join_path(
        if zoned {
            zone_path(blob_components(service))
        } else {
            "blob"@
        },
        b,
    )
}

impl RustPackage {
    /// Where a Rust binary is found after it was compiled.
    pub fn local_binary_path(name: &String, release: bool) -> (r: String)
        ensures
            r@ == local_binary_path(name@, release),
    {
        let mut r = String::from_str("target/");
        if release {
            r.append("release");
        } else {
            r.append("debug");
        }
        r.append("/");
        r.append(name.as_str());
        r
    }
}

impl Package {
    /// The input that stamps the version: the layer descriptor `oxide.json`
    /// for a zone image, the file `VERSION` for a tarball. Without a version,
    /// `0.0.0`.
    pub fn get_version_input(&self, package_name: &PackageName, version: Option<&String>) -> (r: BuildInput)
        ensures
            ({
                let v = version_text(
                    match version {
                        Some(s) => Some(s@),
                        None => None,
                    },
                );
                match self.output {
                    PackageOutput::Zone { .. } => is_memory_file(
                        r,
                        "oxide.json"@,
                        layer_json(package_name@, v),
                    ),
                    PackageOutput::Tarball => is_memory_file(r, "VERSION"@, v),
                }
            }),
    {
        let v = match version {
            Some(s) => s.clone(),
            None => String::from_str("0.0.0"),
        };
        match self.output {
            PackageOutput::Zone { .. } => {
                let mut contents = String::from_str("{\"v\":\"1\",\"t\":\"layer\",\"pkg\":\"");
                contents.append(package_name.as_str());
                contents.append("\",\"version\":\"");
                contents.append(v.as_str());
                contents.append("\"}");
                BuildInput::AddInMemoryFile { dst_path: String::from_str("oxide.json"), contents }
            },
            PackageOutput::Tarball => BuildInput::AddInMemoryFile {
                dst_path: String::from_str("VERSION"),
                contents: v,
            },
        }
    }

    /// The host paths of the package's Rust binaries, in order.
    pub fn rust_binary_sources(&self) -> (r: Vec<String>)
        ensures
            match self.source {
                PackageSource::Local { rust: Some(rp), .. } => r@.len() == rp.binary_names@.len()
                    && forall|k: int|
                    0 <= k < r@.len() ==> (#[trigger] r@[k])@ == local_binary_path(
                        rp.binary_names@[k]@,
                        rp.release,
                    ),
                _ => r@.len() == 0,
            },
    {
        let mut r: Vec<String> = Vec::new();
        match &self.source {
            PackageSource::Local { rust: Some(rp), .. } => {
                let mut k: usize = 0;
                while k < rp.binary_names.len()
                    invariant
                        k <= rp.binary_names@.len(),
                        r@.len() == k,
                        forall|j: int|
                            0 <= j < k ==> (#[trigger] r@[j])@ == local_binary_path(
                                rp.binary_names@[j]@,
                                rp.release,
                            ),
                    decreases rp.binary_names@.len() - k,
                {
                    r.push(RustPackage::local_binary_path(&rp.binary_names[k], rp.release));
                    k = k + 1;
                }
            },
            _ => {},
        }
        r
    }

    /// The inputs of the package's Rust binaries, whose lengths on disk are
    /// `lens`, in order. In a zone image they go to
    /// `/opt/oxide/<service>/bin`, after each directory down to it; in a
    /// tarball, to the top.
    pub fn get_rust_inputs(&self, lens: &Vec<u64>) -> (r: Vec<BuildInput>)
        requires
            match self.source {
                PackageSource::Local { rust: Some(rp), .. } => lens@.len() == rp.binary_names@.len(),
                _ => true,
            },
        ensures
            rust_part_ok(*self, lens@, r@),
    {
        let mut out: Vec<BuildInput> = Vec::new();
        match &self.source {
            PackageSource::Local { rust: Some(rp), .. } => {
                let zone = match self.output {
                    PackageOutput::Zone { .. } => true,
                    PackageOutput::Tarball => false,
                };
                let mut dir = String::new();
                let mut p: usize = 0;
                if zone {
                    let mut c: Vec<String> = Vec::new();
                    c.push(String::from_str("/"));
                    c.push(String::from_str("opt"));
                    c.push(String::from_str("oxide"));
                    c.push(String::from_str(self.service_name.as_str()));
                    c.push(String::from_str("bin"));
                    proof {
                        assert(views(c@) =~= bin_components(self.service_name@));
                    }
                    push_zone_dirs(&c, 5, &mut out);
                    dir = zone_path_of(&c, 5);
                    p = 5;
                    proof {
                        assert forall|m: int| 1 <= m <= 5 implies #[trigger] is_dir_at(
                            out@[m - 1],
                            zone_path(bin_components(self.service_name@).subrange(1, m)),
                        ) by {
                            assert(is_dir_at(out@[0 + m - 1], zone_path(views(c@).subrange(1, m))));
                        }
                    }
                }
                let mut k: usize = 0;
                while k < rp.binary_names.len()
                    invariant
                        lens@.len() == rp.binary_names@.len(),
                        k <= rp.binary_names@.len(),
                        out@.len() == p + k,
                        zone ==> p == 5,
                        !zone ==> p == 0,
                        zone == self.output is Zone,
                        p == rust_prefix(*self),
                        dir@ == rust_dir(*self),
                        forall|m: int|
                            1 <= m <= p ==> #[trigger] is_dir_at(
                                out@[m - 1],
                                zone_path(bin_components(self.service_name@).subrange(1, m)),
                            ),
                        forall|j: int|
                            0 <= j < k ==> #[trigger] is_file_input(
                                out@[p + j],
                                local_binary_path(rp.binary_names@[j]@, rp.release),
                                join_path(dir@, rp.binary_names@[j]@),
                                lens@[j],
                            ),
                    decreases rp.binary_names@.len() - k,
                {
                    let ghost out0 = out@;
                    let from = RustPackage::local_binary_path(&rp.binary_names[k], rp.release);
                    let to = join(dir.as_str(), rp.binary_names[k].as_str());
                    out.push(BuildInput::add_file(MappedPath { from, to }, lens[k]));
                    proof {
                        assert forall|m: int| 1 <= m <= p implies #[trigger] is_dir_at(
                            out@[m - 1],
                            zone_path(bin_components(self.service_name@).subrange(1, m)),
                        ) by {
                            assert(out@[m - 1] == out0[m - 1]);
                        }
                        assert forall|j: int| 0 <= j < k + 1 implies #[trigger] is_file_input(
                            out@[p + j],
                            local_binary_path(rp.binary_names@[j]@, rp.release),
                            join_path(dir@, rp.binary_names@[j]@),
                            lens@[j],
                        ) by {
                            if j < k {
                                assert(out@[p + j] == out0[p + j]);
                            }
                        }
                    }
                    k = k + 1;
                }
            },
            _ => {},
        }
        out
    }
}

fn copy_prebuilt(b: &PrebuiltBlob) -> (r: PrebuiltBlob)
    ensures
        crate::blob::same_prebuilt(r, *b),
{
    PrebuiltBlob {
        repo: b.repo.clone(),
        series: b.series.clone(),
        commit: b.commit.clone(),
        artifact: b.artifact.clone(),
        sha256: b.sha256.clone(),
    }
}

impl Package {
    /// The S3 blobs of a local package; none for other packages.
    pub open spec fn s3_blobs(&self) -> Seq<String> {
        match self.source {
            PackageSource::Local { blobs: Some(b), .. } => b@,
            _ => Seq::empty(),
        }
    }

    /// The Buildomat blobs of a local package; none for other packages.
    pub open spec fn buildomat_blobs(&self) -> Seq<PrebuiltBlob> {
        match self.source {
            PackageSource::Local { buildomat_blobs: Some(b), .. } => b@,
            _ => Seq::empty(),
        }
    }

    /// The inputs of the package's blobs: first those of the build bucket,
    /// then those of Buildomat, each kept under
    /// `<download_directory>/<service>/` and placed in `blob/` (under
    /// `root/opt/oxide/<service>/` in a zone image).
    pub fn get_blobs_inputs(&self, download_directory: &str, zoned: bool) -> (r: Vec<BuildInput>)
        ensures
            blobs_part_ok(*self, download_directory@, zoned, r@),
    {
        let dest = if zoned {
            let mut c: Vec<String> = Vec::new();
            c.push(String::from_str("/"));
            c.push(String::from_str("opt"));
            c.push(String::from_str("oxide"));
            c.push(String::from_str(self.service_name.as_str()));
            c.push(String::from_str("blob"));
            proof {
                assert(views(c@).subrange(1, 5) =~= blob_components(self.service_name@));
            }
            zone_path_of(&c, 5)
        } else {
            String::from_str("blob")
        };
        let base = join(download_directory, self.service_name.as_str());
        let mut out: Vec<BuildInput> = Vec::new();
        let ghost s3 = self.s3_blobs();
        let ghost bo = self.buildomat_blobs();
        match &self.source {
            PackageSource::Local { blobs: Some(blobs), .. } => {
                let mut k: usize = 0;
                while k < blobs.len()
                    invariant
                        blobs@ == s3,
                        k <= blobs@.len(),
                        out@.len() == k,
                        base@ == join_path(download_directory@, self.service_name@),
                        dest@ == if zoned {
                            zone_path(blob_components(self.service_name@))
                        } else {
                            "blob"@
                        },
                        forall|j: int|
                            0 <= j < k ==> #[trigger] is_blob_input(
                                out@[j],
                                blob_from(download_directory@, self.service_name@, s3[j]@),
                                blob_to(zoned, self.service_name@, s3[j]@),
                                Source::S3(s3[j]),
                            ),
                    decreases blobs@.len() - k,
                {
                    let ghost out0 = out@;
                    let from = join(base.as_str(), blobs[k].as_str());
                    let to = join(dest.as_str(), blobs[k].as_str());
                    out.push(BuildInput::AddBlob { path: MappedPath { from, to }, blob: Source::S3(blobs[k].clone()) });
                    proof {
                        assert forall|j: int| 0 <= j < k + 1 implies #[trigger] is_blob_input(
                            out@[j],
                            blob_from(download_directory@, self.service_name@, s3[j]@),
                            blob_to(zoned, self.service_name@, s3[j]@),
                            Source::S3(s3[j]),
                        ) by {
                            if j < k {
                                assert(out@[j] == out0[j]);
                            }
                        }
                    }
                    k = k + 1;
                }
            },
            _ => {},
        }
        let n = out.len();
        match &self.source {
            PackageSource::Local { buildomat_blobs: Some(blobs), .. } => {
                let mut k: usize = 0;
                while k < blobs.len()
                    invariant
                        blobs@ == bo,
                        n == s3.len(),
                        k <= blobs@.len(),
                        out@.len() == n + k,
                        base@ == join_path(download_directory@, self.service_name@),
                        dest@ == if zoned {
                            zone_path(blob_components(self.service_name@))
                        } else {
                            "blob"@
                        },
                        forall|j: int|
                            0 <= j < n ==> #[trigger] is_blob_input(
                                out@[j],
                                blob_from(download_directory@, self.service_name@, s3[j]@),
                                blob_to(zoned, self.service_name@, s3[j]@),
                                Source::S3(s3[j]),
                            ),
                        forall|j: int|
                            0 <= j < k ==> #[trigger] is_blob_input(
                                out@[n + j],
                                blob_from(download_directory@, self.service_name@, bo[j].artifact@),
                                blob_to(zoned, self.service_name@, bo[j].artifact@),
                                Source::Buildomat(bo[j]),
                            ),
                    decreases blobs@.len() - k,
                {
                    let ghost out0 = out@;
                    let from = join(base.as_str(), blobs[k].artifact.as_str());
                    let to = join(dest.as_str(), blobs[k].artifact.as_str());
                    out.push(BuildInput::AddBlob {
                        path: MappedPath { from, to },
                        blob: Source::Buildomat(copy_prebuilt(&blobs[k])),
                    });
                    proof {
                        assert forall|j: int| 0 <= j < n implies #[trigger] is_blob_input(
                            out@[j],
                            blob_from(download_directory@, self.service_name@, s3[j]@),
                            blob_to(zoned, self.service_name@, s3[j]@),
                            Source::S3(s3[j]),
                        ) by {
                            assert(out@[j] == out0[j]);
                        }
                        assert forall|j: int| 0 <= j < k + 1 implies #[trigger] is_blob_input(
                            out@[n + j],
                            blob_from(download_directory@, self.service_name@, bo[j].artifact@),
                            blob_to(zoned, self.service_name@, bo[j].artifact@),
                            Source::Buildomat(bo[j]),
                        ) by {
                            if j < k {
                                assert(out@[n + j] == out0[n + j]);
                            }
                        }
                    }
                    k = k + 1;
                }
            },
            _ => {},
        }
        out
    }
}

/// The interpolated destination of a path template; empty if it fails.
pub open spec fn interp_to(p: InterpolatedMappedPath, t: Map<Seq<char>, Seq<char>>) -> Seq<char> {
    match interp(p.to.0@, t) {
        Ok(s) => s,
        Err(_) => Seq::empty(),
    }
}

/// The path template interpolates, and in a zone image its destination is
/// absolute with a parent.
pub open spec fn path_ok(zone: bool, p: InterpolatedMappedPath, t: Map<Seq<char>, Seq<char>>) -> bool {
    &&& interp(p.from.0@, t) is Ok
    &&& interp(p.to.0@, t) is Ok
    &&& zone ==> absolute(path_components(interp_to(p, t))) && path_components(interp_to(p, t)).len() >= 2
}

/// `e` is the error of the path template `p`: a failed interpolation of the
/// source, else of the destination; else, in a zone image, a relative
/// destination, or one without a parent.
pub open spec fn path_error(zone: bool, p: InterpolatedMappedPath, t: Map<Seq<char>, Seq<char>>, e: InputError) -> bool {
    match interp(p.from.0@, t) {
        Err(why) => e matches InputError::Interpolate(ie) && ie.reason() == why && ie.input_view()
            == p.from.0@,
        Ok(_) => match interp(p.to.0@, t) {
            Err(why) => e matches InputError::Interpolate(ie) && ie.reason() == why
                && ie.input_view() == p.to.0@,
            Ok(to) => zone && if !absolute(path_components(to)) {
                e matches InputError::RelativeDestination { to: x } && x@ == to
            } else {
                e matches InputError::NoParent { to: x } && x@ == to
            },
        },
    }
}

/// A package source as text, for the sources that are not built from
/// inputs.
pub open spec fn source_text(s: PackageSource) -> Seq<char> {
    match s {
        PackageSource::Prebuilt { repo, commit, sha256 } => "Prebuilt { repo: \""@ + repo@
            + "\", commit: \""@ + commit@ + "\", sha256: \""@ + sha256@ + "\" }"@,
        PackageSource::Manual => "Manual"@,
        _ => Seq::empty(),
    }
}

fn describe_source(s: &PackageSource) -> (r: String)
    ensures
        r@ == source_text(*s),
{
    match s {
        PackageSource::Prebuilt { repo, commit, sha256 } => {
            let mut r = String::from_str("Prebuilt { repo: \"");
            r.append(repo.as_str());
            r.append("\", commit: \"");
            r.append(commit.as_str());
            r.append("\", sha256: \"");
            r.append(sha256.as_str());
            r.append("\" }");
            r
        },
        PackageSource::Manual => String::from_str("Manual"),
        _ => String::new(),
    }
}

impl Package {
    /// The inputs of the package's mapped paths, each path's block after the
    /// one before; `walks` holds the walk of each path's source, in order.
    pub fn get_paths_inputs(
        &self,
        target: &TargetMap,
        paths: &Vec<InterpolatedMappedPath>,
        walks: &Vec<PathWalk>,
    ) -> (r: Result<Vec<BuildInput>, InputError>)
        requires
            target.wf(),
            walks@.len() == paths@.len(),
        ensures
            ({
                let zone = self.output is Zone;
                &&& r is Ok <==> forall|i: int| 0 <= i < paths@.len() ==> #[trigger] path_ok(zone, paths@[i], target@)
                &&& r matches Err(e) ==> exists|i: int|
                    0 <= i < paths@.len() && (forall|j: int|
                        0 <= j < i ==> #[trigger] path_ok(zone, paths@[j], target@))
                        && #[trigger] path_error(zone, paths@[i], target@, e)
                &&& r matches Ok(v) ==> paths_part_ok(zone, paths@, target@, walks@, v@)
            }),
    {
        let zone = match self.output {
            PackageOutput::Zone { .. } => true,
            PackageOutput::Tarball => false,
        };
        let mut out: Vec<BuildInput> = Vec::new();
        let ghost mut blocks: Seq<Seq<BuildInput>> = Seq::empty();
        let mut i: usize = 0;
        while i < paths.len()
            invariant
                target.wf(),
                walks@.len() == paths@.len(),
                zone == self.output is Zone,
                i <= paths@.len(),
                blocks.len() == i,
                out@ == concat_all(blocks),
                forall|j: int| 0 <= j < i ==> #[trigger] path_ok(zone, paths@[j], target@),
                forall|j: int|
                    0 <= j < i ==> #[trigger] block_ok(
                        zone,
                        interp_to(paths@[j], target@),
                        walks@[j],
                        blocks[j],
                    ),
            decreases paths@.len() - i,
        {
            let mp = match paths[i].interpolate(target) {
                Ok(mp) => mp,
                Err(e) => {
                    proof {
                        assert(!path_ok(zone, paths@[i as int], target@));
                        assert(path_error(zone, paths@[i as int], target@, InputError::Interpolate(e)));
                    }
                    return Err(InputError::Interpolate(e));
                },
            };
            let block = match mapped_path_inputs(zone, &mp, &walks[i]) {
                Ok(b) => b,
                Err(e) => {
                    proof {
                        assert(!path_ok(zone, paths@[i as int], target@));
                        assert(interp_to(paths@[i as int], target@) == mp.to@);
                        assert(path_error(zone, paths@[i as int], target@, e));
                    }
                    return Err(e);
                },
            };
            let ghost out0 = out@;
            let mut k: usize = 0;
            while k < block.len()
                invariant
                    k <= block@.len(),
                    out@ == out0 + block@.subrange(0, k as int),
                decreases block@.len() - k,
            {
                out.push(block[k].clone_input());
                k = k + 1;
            }
            proof {
                assert(block@.subrange(0, block@.len() as int) == block@);
                let b2 = blocks.push(block@);
                assert(b2.drop_last() == blocks);
                blocks = b2;
                assert forall|j: int| 0 <= j < i + 1 implies #[trigger] block_ok(
                    zone,
                    interp_to(paths@[j], target@),
                    walks@[j],
                    blocks[j],
                ) by {}
            }
            i = i + 1;
        }
        proof {
            assert(blocks.len() == paths@.len());
        }
        Ok(out)
    }
}

/// `r` is what a package's Rust binaries, whose lengths are `lens`, turn
/// into.
pub open spec fn rust_part_ok(pkg: Package, lens: Seq<u64>, r: Seq<BuildInput>) -> bool {
    match pkg.source {
        PackageSource::Local { rust: Some(rp), .. } => {
            let p = rust_prefix(pkg);
            &&& r.len() == p + rp.binary_names@.len()
            &&& forall|m: int|
                1 <= m <= p ==> #[trigger] is_dir_at(
                    r[m - 1],
                    zone_path(bin_components(pkg.service_name@).subrange(1, m)),
                )
            &&& forall|k: int|
                0 <= k < rp.binary_names@.len() ==> #[trigger] is_file_input(
                    r[rust_prefix(pkg) + k],
                    local_binary_path(rp.binary_names@[k]@, rp.release),
                    join_path(rust_dir(pkg), rp.binary_names@[k]@),
                    lens[k],
                )
        },
        _ => r.len() == 0,
    }
}

/// `r` is what a package's blobs turn into, kept below `download`.
pub open spec fn blobs_part_ok(pkg: Package, download: Seq<char>, zoned: bool, r: Seq<BuildInput>) -> bool {
    &&& r.len() == pkg.s3_blobs().len() + pkg.buildomat_blobs().len()
    &&& forall|k: int|
        0 <= k < pkg.s3_blobs().len() ==> #[trigger] is_blob_input(
            r[k],
            blob_from(download, pkg.service_name@, pkg.s3_blobs()[k]@),
            blob_to(zoned, pkg.service_name@, pkg.s3_blobs()[k]@),
            Source::S3(pkg.s3_blobs()[k]),
        )
    &&& forall|k: int|
        0 <= k < pkg.buildomat_blobs().len() ==> #[trigger] is_blob_input(
            r[pkg.s3_blobs().len() + k],
            blob_from(download, pkg.service_name@, pkg.buildomat_blobs()[k].artifact@),
            blob_to(zoned, pkg.service_name@, pkg.buildomat_blobs()[k].artifact@),
            Source::Buildomat(pkg.buildomat_blobs()[k]),
        )
}

/// `v` is what the mapped paths turn into, one block per path, each path
/// interpolated against `t` and walked as `walks` says.
pub open spec fn paths_part_ok(
    zone: bool,
    paths: Seq<InterpolatedMappedPath>,
    t: Map<Seq<char>, Seq<char>>,
    walks: Seq<PathWalk>,
    v: Seq<BuildInput>,
) -> bool {
    exists|blocks: Seq<Seq<BuildInput>>|
        {
            &&& blocks.len() == paths.len()
            &&& v == concat_all(blocks)
            &&& forall|i: int|
                0 <= i < paths.len() ==> #[trigger] block_ok(zone, interp_to(paths[i], t), walks[i], blocks[i])
        }
}

/// Every input that names a place in the archive names one under `root/`.
pub open spec fn all_under_root(v: Seq<BuildInput>) -> bool {
    forall|i: int|
        0 <= i < v.len() ==> (#[trigger] destination_of(v[i]) matches Some(d) ==> under_root(d))
}

/// The path does not start with `/`.
pub open spec fn relative(p: Seq<char>) -> bool {
    !(p.len() > 0 && p[0] == '/')
}

/// The names that the package joins onto archive directories are relative:
/// those of its Rust binaries and of its blobs.
pub open spec fn relative_names(p: Package) -> bool {
    &&& match p.source {
        PackageSource::Local { rust: Some(rp), .. } => forall|k: int|
            0 <= k < rp.binary_names@.len() ==> relative(#[trigger] rp.binary_names@[k]@),
        _ => true,
    }
    &&& forall|k: int| 0 <= k < p.s3_blobs().len() ==> relative(#[trigger] p.s3_blobs()[k]@)
    &&& forall|k: int|
        0 <= k < p.buildomat_blobs().len() ==> relative(#[trigger] p.buildomat_blobs()[k].artifact@)
}

proof fn lemma_join_under_root(a: Seq<char>, b: Seq<char>)
    requires
        under_root(a),
        relative(b),
    ensures
        under_root(join_path(a, b)),
{
    reveal_strlit("/");
    if a.last() == '/' {
        assert((a + b).subrange(0, 5) =~= a.subrange(0, 5));
    } else {
        assert((a + "/"@ + b).subrange(0, 5) =~= a.subrange(0, 5));
    }
}

proof fn lemma_block_under_root(to: Seq<char>, walk: PathWalk, v: Seq<BuildInput>)
    requires
        block_ok(true, to, walk, v),
    ensures
        all_under_root(v),
{
    let c = path_components(to);
    let p = parent_count(true, to);
    assert forall|i: int| 0 <= i < v.len() implies (#[trigger] destination_of(v[i]) matches Some(d)
        ==> under_root(d)) by {
        if i < p {
            assert(is_dir_at(v[(i + 1) - 1], zone_path(c.subrange(1, i + 1))));
            lemma_zone_path_under_root(c.subrange(1, i + 1));
        } else {
            let k = i - p;
            let e = walk.entries@[k];
            assert(entry_input(v[parent_count(true, to) + k], walk.entries@[k], entry_destination(true, to, walk.from_is_dir, views(walk.entries@[k].rel@))));
            if walk.from_is_dir {
                lemma_zone_path_under_root(c.subrange(1, c.len() as int) + views(e.rel@));
            } else {
                lemma_zone_path_under_root(c.subrange(1, c.len() as int));
            }
        }
    }
}

proof fn lemma_concat_under_root(b: Seq<Seq<BuildInput>>)
    requires
        forall|i: int| 0 <= i < b.len() ==> all_under_root(#[trigger] b[i]),
    ensures
        all_under_root(concat_all(b)),
    decreases b.len(),
{
    if b.len() > 0 {
        lemma_concat_under_root(b.drop_last());
        let a = concat_all(b.drop_last());
        let l = b.last();
        assert(all_under_root(l));
        assert forall|i: int| 0 <= i < (a + l).len() implies (#[trigger] destination_of((a + l)[i]) matches Some(d)
            ==> under_root(d)) by {
            if i < a.len() {
                assert((a + l)[i] == a[i]);
            } else {
                assert((a + l)[i] == l[i - a.len()]);
            }
        }
    }
}

proof fn lemma_append_under_root(a: Seq<BuildInput>, b: Seq<BuildInput>)
    requires
        all_under_root(a),
        all_under_root(b),
    ensures
        all_under_root(a + b),
{
    assert forall|i: int| 0 <= i < (a + b).len() implies (#[trigger] destination_of((a + b)[i]) matches Some(d)
        ==> under_root(d)) by {
        if i < a.len() {
            assert((a + b)[i] == a[i]);
        } else {
            assert((a + b)[i] == b[i - a.len()]);
        }
    }
}

/// Appends copies of every input of `src` to `dst`.
fn append_inputs(dst: &mut Vec<BuildInput>, src: &Vec<BuildInput>)
    ensures
        final(dst)@ == old(dst)@ + src@,
{
    let mut k: usize = 0;
    while k < src.len()
        invariant
            k <= src@.len(),
            dst@ == old(dst)@ + src@.subrange(0, k as int),
        decreases src@.len() - k,
    {
        dst.push(src[k].clone_input());
        k = k + 1;
    }
    assert(src@.subrange(0, src@.len() as int) == src@);
}

/// The mapped paths of a local package; none for other packages.
pub open spec fn local_paths(p: Package) -> Seq<InterpolatedMappedPath> {
    match p.source {
        PackageSource::Local { paths, .. } => paths@,
        _ => Seq::empty(),
    }
}

impl Package {
    /// All inputs of the package, in the order that makes its archive: the
    /// version first; then, for a local package, its paths, its Rust
    /// binaries and its blobs; for a composite, its component images, kept
    /// in `output_directory`. Prebuilt and manual packages have none.
    ///
    /// In a zone image every input after the first lies under `root/`,
    /// provided the names of the package's Rust binaries and blobs are
    /// relative: an absolute name, joined onto a directory, replaces it, and
    /// such a name is kept as it is given.
    pub fn get_all_inputs(
        &self,
        package_name: &PackageName,
        target: &TargetMap,
        output_directory: &str,
        zoned: bool,
        version: Option<&String>,
        walks: &Vec<PathWalk>,
        rust_lens: &Vec<u64>,
    ) -> (r: Result<BuildInputs, InputError>)
        requires
            target.wf(),
            walks@.len() == local_paths(*self).len(),
            match self.source {
                PackageSource::Local { rust: Some(rp), .. } => rust_lens@.len() == rp.binary_names@.len(),
                _ => true,
            },
        ensures
            (r matches Err(InputError::UnsupportedSource { .. })) <==> (self.source is Prebuilt
                || self.source is Manual),
            r matches Err(InputError::UnsupportedSource { source }) ==> source@ == source_text(
                self.source,
            ),
            self.source is Local ==> (r matches Err(e) ==> exists|i: int|
                0 <= i < local_paths(*self).len() && (forall|j: int|
                    0 <= j < i ==> #[trigger] path_ok(self.output is Zone, local_paths(*self)[j], target@))
                    && #[trigger] path_error(self.output is Zone, local_paths(*self)[i], target@, e)),
            self.source is Composite ==> r is Ok,
            self.source is Local ==> (r is Ok <==> forall|i: int|
                0 <= i < local_paths(*self).len() ==> #[trigger] path_ok(
                    self.output is Zone,
                    local_paths(*self)[i],
                    target@,
                )),
            r matches Ok(v) ==> v.0@.len() > 0 && match self.output {
                PackageOutput::Zone { .. } => is_memory_file(
                    v.0@[0],
                    "oxide.json"@,
                    layer_json(package_name@, version_text(match version {
                        Some(s) => Some(s@),
                        None => None,
                    })),
                ),
                PackageOutput::Tarball => is_memory_file(
                    v.0@[0],
                    "VERSION"@,
                    version_text(match version {
                        Some(s) => Some(s@),
                        None => None,
                    }),
                ),
            },
            r matches Ok(v) ==> match self.source {
                PackageSource::Composite { packages } => v.0@.len() == 1 + packages@.len()
                    && forall|k: int|
                    0 <= k < packages@.len() ==> (#[trigger] v.0@[1 + k] matches BuildInput::AddPackage(
                        p,
                    ) && p.0@ == join_path(output_directory@, packages@[k]@)),
                _ => true,
            },
            r matches Ok(v) ==> (self.output is Zone && zoned && relative_names(*self)
                ==> all_under_root(v.0@.subrange(1, v.0@.len() as int))),
            r matches Ok(v) ==> (self.source is Local ==> exists|a: Seq<BuildInput>, b: Seq<BuildInput>, c: Seq<BuildInput>|
                #![trigger paths_part_ok(self.output is Zone, local_paths(*self), target@, walks@, a), rust_part_ok(*self, rust_lens@, b), blobs_part_ok(*self, output_directory@, zoned, c)]
                v.0@ == seq![v.0@[0]] + a + b + c && paths_part_ok(
                    self.output is Zone,
                    local_paths(*self),
                    target@,
                    walks@,
                    a,
                ) && rust_part_ok(*self, rust_lens@, b) && blobs_part_ok(*self, output_directory@, zoned, c)),
    {
        let mut all: Vec<BuildInput> = Vec::new();
        all.push(self.get_version_input(package_name, version));
        let ghost first = all@;
        match &self.source {
            PackageSource::Local { paths, .. } => {
                let p = match self.get_paths_inputs(target, paths, walks) {
                    Ok(p) => p,
                    Err(e) => return Err(e),
                };
                let ru = self.get_rust_inputs(rust_lens);
                let bl = self.get_blobs_inputs(output_directory, zoned);
                append_inputs(&mut all, &p);
                append_inputs(&mut all, &ru);
                append_inputs(&mut all, &bl);
                proof {
                    assert(all@ =~= seq![all@[0]] + p@ + ru@ + bl@);
                    assert(paths_part_ok(self.output is Zone, local_paths(*self), target@, walks@, p@));
                    assert(rust_part_ok(*self, rust_lens@, ru@));
                    assert(blobs_part_ok(*self, output_directory@, zoned, bl@));
                    assert(all@.subrange(1, all@.len() as int) =~= p@ + ru@ + bl@);
                    if self.output is Zone && zoned && relative_names(*self) {
                        let blocks = choose|blocks: Seq<Seq<BuildInput>>|
                            {
                                &&& blocks.len() == paths@.len()
                                &&& p@ == concat_all(blocks)
                                &&& forall|i: int|
                                    0 <= i < paths@.len() ==> #[trigger] block_ok(
                                        true,
                                        interp_to(paths@[i], target@),
                                        walks@[i],
                                        blocks[i],
                                    )
                            };
                        assert forall|i: int| 0 <= i < blocks.len() implies all_under_root(#[trigger] blocks[i]) by {
                            lemma_block_under_root(interp_to(paths@[i], target@), walks@[i], blocks[i]);
                        }
                        lemma_concat_under_root(blocks);
                        assert forall|i: int| 0 <= i < ru@.len() implies (#[trigger] destination_of(ru@[i]) matches Some(d)
                            ==> under_root(d)) by {
                            match self.source {
                                PackageSource::Local { rust: Some(rp), .. } => {
                                    let bc = bin_components(self.service_name@);
                                    if i < 5 {
                                        assert(is_dir_at(ru@[(i + 1) - 1], zone_path(bc.subrange(1, i + 1))));
                                        lemma_zone_path_under_root(bc.subrange(1, i + 1));
                                    } else {
                                        let k = i - 5;
                                        assert(rust_prefix(*self) == 5);
                                        assert(ru@.len() == 5 + rp.binary_names@.len());
                                        assert(0 <= k < rp.binary_names@.len());
                                        assert(is_file_input(
                                            ru@[rust_prefix(*self) + k],
                                            local_binary_path(rp.binary_names@[k]@, rp.release),
                                            join_path(rust_dir(*self), rp.binary_names@[k]@),
                                            rust_lens@[k],
                                        ));
                                        assert(relative(rp.binary_names@[k]@));
                                        lemma_zone_path_under_root(bc.subrange(1, 5));
                                        lemma_join_under_root(zone_path(bc.subrange(1, 5)), rp.binary_names@[k]@);
                                    }
                                },
                                _ => {},
                            }
                        }
                        assert forall|i: int| 0 <= i < bl@.len() implies (#[trigger] destination_of(bl@[i]) matches Some(d)
                            ==> under_root(d)) by {
                            let zp = zone_path(blob_components(self.service_name@));
                            lemma_zone_path_under_root(blob_components(self.service_name@));
                            if i < self.s3_blobs().len() {
                                assert(is_blob_input(
                                    bl@[i],
                                    blob_from(output_directory@, self.service_name@, self.s3_blobs()[i]@),
                                    blob_to(zoned, self.service_name@, self.s3_blobs()[i]@),
                                    Source::S3(self.s3_blobs()[i]),
                                ));
                                assert(relative(self.s3_blobs()[i]@));
                                lemma_join_under_root(zp, self.s3_blobs()[i]@);
                            } else {
                                let k = i - self.s3_blobs().len();
                                assert(is_blob_input(
                                    bl@[self.s3_blobs().len() + k],
                                    blob_from(output_directory@, self.service_name@, self.buildomat_blobs()[k].artifact@),
                                    blob_to(zoned, self.service_name@, self.buildomat_blobs()[k].artifact@),
                                    Source::Buildomat(self.buildomat_blobs()[k]),
                                ));
                                assert(relative(self.buildomat_blobs()[k].artifact@));
                                lemma_join_under_root(zp, self.buildomat_blobs()[k].artifact@);
                            }
                        }
                        lemma_append_under_root(p@, ru@);
                        lemma_append_under_root(p@ + ru@, bl@);
                    }
                }
            },
            PackageSource::Composite { packages } => {
                let mut k: usize = 0;
                while k < packages.len()
                    invariant
                        k <= packages@.len(),
                        all@.len() == 1 + k,
                        first.len() == 1,
                        all@[0] == first[0],
                        forall|j: int|
                            0 <= j < k ==> (#[trigger] all@[1 + j] matches BuildInput::AddPackage(p)
                                && p.0@ == join_path(output_directory@, packages@[j]@)),
                    decreases packages@.len() - k,
                {
                    let ghost a0 = all@;
                    all.push(BuildInput::AddPackage(TargetPackage(join(output_directory, packages[k].as_str()))));
                    proof {
                        assert forall|j: int| 0 <= j < k + 1 implies (#[trigger] all@[1 + j] matches BuildInput::AddPackage(p)
                            && p.0@ == join_path(output_directory@, packages@[j]@)) by {
                            if j < k {
                                assert(all@[1 + j] == a0[1 + j]);
                            }
                        }
                        assert forall|i: int| 0 <= i < all@.subrange(1, all@.len() as int).len() implies (#[trigger] destination_of(
                            all@.subrange(1, all@.len() as int)[i],
                        ) matches Some(d) ==> under_root(d)) by {
                            assert(all@.subrange(1, all@.len() as int)[i] == all@[1 + i]);
                        }
                    }
                    k = k + 1;
                }
                proof {
                    assert forall|i: int| 0 <= i < all@.subrange(1, all@.len() as int).len() implies (#[trigger] destination_of(
                        all@.subrange(1, all@.len() as int)[i],
                    ) matches Some(d) ==> under_root(d)) by {
                        assert(all@.subrange(1, all@.len() as int)[i] == all@[1 + i]);
                    }
                }
            },
            _ => {
                return Err(InputError::UnsupportedSource { source: describe_source(&self.source) });
            },
        }
        Ok(BuildInputs(all))
    }
}

/// The file that a package named `name` produces, in `dir`.
pub open spec fn output_path_of(dir: Seq<char>, name: Seq<char>, output: PackageOutput) -> Seq<char> {
    join_path(dir, crate::package::output_file_of(name, output))
}

impl Package {
    /// The path of the package once it is built.
    pub fn get_output_path(&self, id: &PackageName, output_directory: &str) -> (r: String)
        ensures
            r@ == output_path_of(output_directory@, id@, self.output),
    {
        let f = self.get_output_file(id);
        join(output_directory, f.as_str())
    }

    /// The path of the package, named by its service, in the install
    /// directory.
    pub fn get_output_path_for_service(&self, install_directory: &str) -> (r: String)
        ensures
            r@ == output_path_of(install_directory@, self.service_name@, self.output),
    {
        let f = self.get_output_file_for_service();
        join(install_directory, f.as_str())
    }

    /// The path of the package once it is stamped with a version: in the
    /// `versioned` directory of the output directory.
    pub fn get_stamped_output_path(&self, name: &PackageName, output_directory: &str) -> (r: String)
        ensures
            r@ == output_path_of(join_path(output_directory@, "versioned"@), name@, self.output),
    {
        let dir = join(output_directory, "versioned");
        self.get_output_path(name, dir.as_str())
    }

    /// The inputs that stamp a built zone image with `version`: the new
    /// layer descriptor, then the image itself as a component. A tarball is
    /// stamped by rewriting its `VERSION` file instead, so it has none.
    pub fn stamp_inputs(&self, name: &PackageName, output_directory: &str, version: &String) -> (r: Option<BuildInputs>)
        ensures
            r is Some <==> self.output is Zone,
            r matches Some(v) ==> v.0@.len() == 2 && is_memory_file(
                v.0@[0],
                "oxide.json"@,
                layer_json(name@, version@),
            ) && (v.0@[1] matches BuildInput::AddPackage(p) && p.0@ == output_path_of(
                output_directory@,
                name@,
                self.output,
            )),
    {
        match self.output {
            PackageOutput::Zone { .. } => {
                let mut v: Vec<BuildInput> = Vec::new();
                v.push(self.get_version_input(name, Some(version)));
                v.push(BuildInput::AddPackage(TargetPackage(self.get_output_path(name, output_directory))));
                Some(BuildInputs(v))
            },
            PackageOutput::Tarball => None,
        }
    }
}

/// The directories of a zone image that hold the absolute path `to`, and
/// `to` itself, from `root/` down: `/a/b` gives `root/`, `root/a`,
/// `root/a/b`. A relative path is refused.
pub fn zone_get_all_parent_inputs(to: &str) -> (r: Result<Vec<TargetDirectory>, InputError>)
    ensures
        r is Ok <==> absolute(path_components(to@)),
        r matches Ok(v) ==> v@.len() == path_components(to@).len() && forall|m: int|
            1 <= m <= v@.len() ==> (#[trigger] v@[m - 1]).0@ == zone_path(
                path_components(to@).subrange(1, m),
            ),
        r matches Err(e) ==> (e matches InputError::RelativeDestination { to: x } && x@ == to@),
{
    let c = components(to);
    proof {
        assert(views(c@) == path_components(to@));
    }
    let root = String::from_str("/");
    if c.len() == 0 || !(c[0] == root) {
        return Err(InputError::RelativeDestination { to: String::from_str(to) });
    }
    let mut v: Vec<TargetDirectory> = Vec::new();
    let mut m: usize = 0;
    while m < c.len()
        invariant
            views(c@) == path_components(to@),
            m <= c@.len(),
            v@.len() == m,
            forall|mm: int|
                1 <= mm <= m ==> (#[trigger] v@[mm - 1]).0@ == zone_path(views(c@).subrange(1, mm)),
        decreases c@.len() - m,
    {
        v.push(TargetDirectory(zone_path_of(&c, m + 1)));
        m = m + 1;
    }
    Ok(v)
}

/// The walk lists every directory before what it holds: for each entry and
/// each directory above it within the walked path, an earlier entry is that
/// directory.
pub open spec fn walk_preorder(walk: PathWalk) -> bool {
    forall|k: int, l: int|
        0 <= k < walk.entries@.len() && 0 <= l < walk.entries@[k].rel@.len()
            ==> #[trigger] dir_listed_before(walk, k, l)
}

/// An entry before entry `k` is the directory made of the first `l`
/// components of entry `k`.
pub open spec fn dir_listed_before(walk: PathWalk, k: int, l: int) -> bool {
    exists|k2: int|
        0 <= k2 < k && (#[trigger] walk.entries@[k2]).is_dir && views(walk.entries@[k2].rel@)
            == views(walk.entries@[k].rel@).take(l)
}

/// In a zone image, every directory above an entry of a walked directory
/// comes before it: those above the destination open the block, and those
/// within the walked directory come earlier in a walk that lists
/// directories first.
pub proof fn lemma_parents_precede(to: Seq<char>, walk: PathWalk, v: Seq<BuildInput>, k: int, l: int)
    requires
        block_ok(true, to, walk, v),
        walk.from_is_dir,
        walk_preorder(walk),
        0 <= k < walk.entries@.len(),
        0 <= l < walk.entries@[k].rel@.len(),
    ensures
        forall|m: int|
            1 <= m < path_components(to).len() ==> #[trigger] is_dir_at(
                v[m - 1],
                zone_path(path_components(to).subrange(1, m)),
            ),
        exists|j: int|
            parent_count(true, to) <= j < parent_count(true, to) + k && is_dir_at(
                v[j],
                zone_path(
                    path_components(to).subrange(1, path_components(to).len() as int) + views(
                        walk.entries@[k].rel@,
                    ).take(l),
                ),
            ),
{
    let c = path_components(to);
    let p = parent_count(true, to);
    assert(dir_listed_before(walk, k, l));
    let k2 = choose|k2: int|
        0 <= k2 < k && (#[trigger] walk.entries@[k2]).is_dir && views(walk.entries@[k2].rel@)
            == views(walk.entries@[k].rel@).take(l);
    assert(entry_input(
        v[parent_count(true, to) + k2],
        walk.entries@[k2],
        entry_destination(true, to, walk.from_is_dir, views(walk.entries@[k2].rel@)),
    ));
    assert(is_dir_at(
        v[p + k2],
        zone_path(c.subrange(1, c.len() as int) + views(walk.entries@[k].rel@).take(l)),
    ));
}

} // verus!
