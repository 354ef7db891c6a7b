//! Package definitions, and interpolation of target values into paths.
use vstd::prelude::*;
use vstd::string::StringExecFns;
use crate::identifier::{PackageName, ServiceName};
use crate::target::TargetMap;
use crate::input::MappedPath;
use crate::text::{chars_of, copy_range, extend_chars, find_pair, find_pair_from, lemma_find_pair_from, pair_at, string_of};

verus! {

/// A Buildomat-generated artifact, found at
/// `https://buildomat.eng.oxide.computer/public/file/oxidecomputer/REPO/SERIES/COMMIT/ARTIFACT`.
#[derive(Clone, Debug, PartialEq, Eq)]
pub struct PrebuiltBlob {
    pub repo: String,
    pub series: String,
    pub commit: String,
    pub artifact: String,
    pub sha256: String,
}

/// Configuration for packages holding Rust binaries.
#[derive(Clone, Debug, PartialEq, Eq)]
pub struct RustPackage {
    /// The names of the compiled binaries.
    pub binary_names: Vec<String>,
    /// True if the binaries were built in release mode.
    pub release: bool,
}

/// A string in which `{{key}}` placeholders are replaced by target values.
#[derive(Clone, Debug, PartialEq, Eq)]
pub struct InterpolatedString(pub String);

/// A pair of path templates, from a file or directory on the host to a place
/// in the archive.
#[derive(Clone, Debug, PartialEq, Eq)]
pub struct InterpolatedMappedPath {
    /// Source path.
    pub from: InterpolatedString,
    /// Destination path.
    pub to: InterpolatedString,
}

/// Where a package comes from.
#[derive(Clone, Debug, PartialEq, Eq)]
pub enum PackageSource {
    /// Assembled locally.
    Local {
        /// Blobs of the build bucket placed in this package.
        blobs: Option<Vec<String>>,
        /// Buildomat blobs placed in this package.
        buildomat_blobs: Option<Vec<PrebuiltBlob>>,
        /// Rust binaries placed in this package.
        rust: Option<RustPackage>,
        /// Mapped paths which appear within the archive.
        paths: Vec<InterpolatedMappedPath>,
    },
    /// Downloaded from Buildomat.
    Prebuilt { repo: String, commit: String, sha256: String },
    /// Made by merging other zone images, named by their output files.
    Composite { packages: Vec<String> },
    /// Built by hand and placed in the output directory.
    Manual,
}

/// The output format of a package.
#[derive(Clone, Copy, Debug, PartialEq, Eq, Structural)]
pub enum PackageOutput {
    /// A zone image.
    Zone {
        /// True if the package only serves to build composite packages.
        intermediate_only: bool,
    },
    /// A plain tarball.
    Tarball,
}

/// A single package.
#[derive(Clone, Debug, PartialEq, Eq)]
pub struct Package {
    /// The service name used on the target.
    pub service_name: ServiceName,
    /// Where the package comes from.
    pub source: PackageSource,
    /// What the package produces.
    pub output: PackageOutput,
    /// The targets for which the package is included; all of them if `None`.
    pub only_for_targets: Option<TargetMap>,
    /// Suggestions for setup if packaging fails.
    pub setup_hint: Option<String>,
}

/// The name of the file that a package named `name` produces.
pub open spec fn output_file_of(name: Seq<char>, output: PackageOutput) -> Seq<char> {
    match output {
        PackageOutput::Zone { .. } => name + ".tar.gz"@,
        PackageOutput::Tarball => name + ".tar"@,
    }
}

impl Package {
    /// The file name of the package once it is built.
    pub fn get_output_file(&self, name: &PackageName) -> (r: String)
        ensures
            r@ == output_file_of(name@, self.output),
    {
        let mut r = String::from_str(name.as_str());
        match self.output {
            PackageOutput::Zone { .. } => r.append(".tar.gz"),
            PackageOutput::Tarball => r.append(".tar"),
        }
        r
    }

    /// The file name of the package once it is built, named by its service.
    pub fn get_output_file_for_service(&self) -> (r: String)
        ensures
            r@ == output_file_of(self.service_name@, self.output),
    {
        let mut r = String::from_str(self.service_name.as_str());
        match self.output {
            PackageOutput::Zone { .. } => r.append(".tar.gz"),
            PackageOutput::Tarball => r.append(".tar"),
        }
        r
    }

    /// The package's parts hold their invariants.
    pub open spec fn wf(&self) -> bool {
        &&& self.service_name.wf()
        &&& match self.only_for_targets {
            Some(t) => t.wf(),
            None => true,
        }
    }
}

/// The result of interpolating `s` against target `t`, reading from position
/// `p` on: the rewritten text, or `Err(None)` for an unclosed placeholder, or
/// `Err(Some(key))` for a key that the target lacks.
pub open spec fn interp_from(s: Seq<char>, t: Map<Seq<char>, Seq<char>>, p: int) -> Result<
    Seq<char>,
    Option<Seq<char>>,
>
    decreases s.len() - p,
{
    if p < 0 || p > s.len() {
        Ok(Seq::empty())
    } else {
        match find_pair_from(s, '{', p) {
            None => Ok(s.subrange(p, s.len() as int)),
            Some(i) => match find_pair_from(s, '}', i + 2) {
                None => Err(None),
                Some(j) => {
                    let key = s.subrange(i + 2, j);
                    if !t.contains_key(key) {
                        Err(Some(key))
                    } else {
                        proof {
                            lemma_find_pair_from(s, '{', p);
                            lemma_find_pair_from(s, '}', i + 2);
                        }
                        match interp_from(s, t, j + 2) {
                            Ok(o) => Ok(s.subrange(p, i) + t[key] + o),
                            Err(e) => Err(e),
                        }
                    }
                },
            },
        }
    }
}

/// A string without `{{` is left as it is, whatever the target holds; in
/// particular with an empty target.
pub proof fn lemma_interp_without_placeholder(s: Seq<char>, t: Map<Seq<char>, Seq<char>>)
    requires
        forall|k: int| 0 <= k ==> !pair_at(s, '{', k),
    ensures
        interp(s, t) == Ok::<Seq<char>, Option<Seq<char>>>(s),
{
    lemma_find_pair_from(s, '{', 0);
    if find_pair_from(s, '{', 0) is Some {
        let i = find_pair_from(s, '{', 0)->0;
        assert(pair_at(s, '{', i));
    }
    assert(s.subrange(0, s.len() as int) =~= s);
}

/// Interpolation of `s` against target `t`, left to right.
pub open spec fn interp(s: Seq<char>, t: Map<Seq<char>, Seq<char>>) -> Result<
    Seq<char>,
    Option<Seq<char>>,
> {
    interp_from(s, t, 0)
}

pub open spec fn prepend(
    pre: Seq<char>,
    r: Result<Seq<char>, Option<Seq<char>>>,
) -> Result<Seq<char>, Option<Seq<char>>> {
    match r {
        Ok(o) => Ok(pre + o),
        Err(e) => Err(e),
    }
}

/// Why interpolation failed.
#[derive(Clone, Debug, PartialEq, Eq)]
pub enum InterpolateError {
    /// A `{{` without a closing `}}`.
    MissingClosing { input: String },
    /// A key that the target does not hold.
    MissingKey { key: String, input: String },
}

impl InterpolateError {
    /// The failure as `interp` states it.
    pub open spec fn reason(&self) -> Option<Seq<char>> {
        match self {
            InterpolateError::MissingClosing { .. } => None,
            InterpolateError::MissingKey { key, .. } => Some(key@),
        }
    }

    pub open spec fn input_view(&self) -> Seq<char> {
        match self {
            InterpolateError::MissingClosing { input } => input@,
            InterpolateError::MissingKey { input, .. } => input@,
        }
    }

    /// The error message, as text.
    pub open spec fn message_view(&self) -> Seq<char> {
        match self {
            InterpolateError::MissingClosing { input } => "Missing closing '}}' character in '"@
                + input@ + "'"@,
            InterpolateError::MissingKey { key, input } => "Key '"@ + key@
                + "' not found in target, but required in '"@ + input@ + "'"@,
        }
    }

    /// The error message.
    pub fn message(&self) -> (r: String)
        ensures
            r@ == self.message_view(),
    {
        match self {
            InterpolateError::MissingClosing { input } => {
                let mut r = String::from_str("Missing closing '}}' character in '");
                r.append(input.as_str());
                r.append("'");
                r
            },
            InterpolateError::MissingKey { key, input } => {
                let mut r = String::from_str("Key '");
                r.append(key.as_str());
                r.append("' not found in target, but required in '");
                r.append(input.as_str());
                r.append("'");
                r
            },
        }
    }
}

impl InterpolatedString {
    /// Substitutes each `{{key}}` with the target's value for `key`, left to
    /// right. The key runs from the first `{{` to the next `}}`.
    pub fn interpolate(&self, target: &TargetMap) -> (r: Result<String, InterpolateError>)
        requires
            target.wf(),
        ensures
            r matches Ok(o) ==> interp(self.0@, target@) == Ok::<Seq<char>, Option<Seq<char>>>(
                o@,
            ),
            r matches Err(e) ==> interp(self.0@, target@) == Err::<Seq<char>, Option<Seq<char>>>(
                e.reason(),
            ) && e.input_view() == self.0@,
            r is Ok <==> interp(self.0@, target@) is Ok,
    {
        let s = chars_of(self.0.as_str());
        let mut out: Vec<char> = Vec::new();
        let mut pos: usize = 0;
        while pos <= s.len()
            invariant
                pos <= s@.len(),
                s@ == self.0@,
                target.wf(),
                interp(s@, target@) == prepend(out@, interp_from(s@, target@, pos as int)),
            decreases s@.len() - pos,
        {
            proof {
                lemma_find_pair_from(s@, '{', pos as int);
            }
            match find_pair(&s, '{', pos) {
                None => {
                    let rest = copy_range(&s, pos, s.len());
                    extend_chars(&mut out, &rest);
                    return Ok(string_of(out.as_slice()));
                },
                Some(i) => {
                    proof {
                        lemma_find_pair_from(s@, '}', i + 2);
                    }
                    match find_pair(&s, '}', i + 2) {
                        None => {
                            return Err(InterpolateError::MissingClosing { input: self.0.clone() });
                        },
                        Some(j) => {
                            let key_chars = copy_range(&s, i + 2, j);
                            let key = string_of(key_chars.as_slice());
                            match target.get(&key) {
                                None => {
                                    return Err(
                                        InterpolateError::MissingKey { key, input: self.0.clone() },
                                    );
                                },
                                Some(value) => {
                                    let ghost out0 = out@;
                                    let before = copy_range(&s, pos, i);
                                    extend_chars(&mut out, &before);
                                    let vchars = chars_of(value.as_str());
                                    extend_chars(&mut out, &vchars);
                                    proof {
                                        let sub = s@.subrange(pos as int, i as int);
                                        assert(out@ == out0 + sub + target@[key@]);
                                        match interp_from(s@, target@, j + 2) {
                                            Ok(o) => {
                                                assert(out0 + (sub + target@[key@] + o) =~= out@
                                                    + o);
                                            },
                                            Err(_) => {},
                                        }
                                    }
                                    pos = j + 2;
                                },
                            }
                        },
                    }
                },
            }
        }
        Ok(string_of(out.as_slice()))
    }
}

impl InterpolatedMappedPath {
    /// Interpolates the source, then the destination.
    pub fn interpolate(&self, target: &TargetMap) -> (r: Result<MappedPath, InterpolateError>)
        requires
            target.wf(),
        ensures
            r is Ok <==> interp(self.from.0@, target@) is Ok && interp(self.to.0@, target@) is Ok,
            r matches Ok(mp) ==> interp(self.from.0@, target@) == Ok::<Seq<char>, Option<Seq<char>>>(mp.from@)
                && interp(self.to.0@, target@) == Ok::<Seq<char>, Option<Seq<char>>>(mp.to@),
            r matches Err(e) ==> ((interp(self.from.0@, target@) == Err::<Seq<char>, Option<Seq<char>>>(e.reason())
                && e.input_view() == self.from.0@)
                || (interp(self.from.0@, target@) is Ok && interp(self.to.0@, target@) == Err::<
                Seq<char>,
                Option<Seq<char>>,
            >(e.reason()) && e.input_view() == self.to.0@)),
    {
        let from = match self.from.interpolate(target) {
            Ok(f) => f,
            Err(e) => return Err(e),
        };
        let to = match self.to.interpolate(target) {
            Ok(t) => t,
            Err(e) => return Err(e),
        };
        Ok(MappedPath { from, to })
    }
}

} // verus!
