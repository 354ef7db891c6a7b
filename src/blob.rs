//! Where blobs come from, and when a blob on disk must be fetched again.
use vstd::prelude::*;
use vstd::string::StringExecFns;
use crate::package::PrebuiltBlob;
use crate::text::chars_of;

verus! {

/// Where a blob is downloaded from.
#[derive(Clone, Debug, PartialEq, Eq)]
pub enum Source {
    /// A path in the build bucket.
    S3(String),
    /// A Buildomat artifact.
    Buildomat(PrebuiltBlob),
}

/// Two blob specifications agree field by field.
pub open spec fn same_prebuilt(a: PrebuiltBlob, b: PrebuiltBlob) -> bool {
    &&& a.repo@ == b.repo@
    &&& a.series@ == b.series@
    &&& a.commit@ == b.commit@
    &&& a.artifact@ == b.artifact@
    &&& a.sha256@ == b.sha256@
}

/// Two sources agree.
pub open spec fn same_source(a: Source, b: Source) -> bool {
    match (a, b) {
        (Source::S3(x), Source::S3(y)) => x@ == y@,
        (Source::Buildomat(x), Source::Buildomat(y)) => same_prebuilt(x, y),
        _ => false,
    }
}

pub fn same_prebuilt_exec(a: &PrebuiltBlob, b: &PrebuiltBlob) -> (r: bool)
    ensures
        r == same_prebuilt(*a, *b),
{
    a.repo == b.repo && a.series == b.series && a.commit == b.commit && a.artifact == b.artifact
        && a.sha256 == b.sha256
}

/// The URL of the build bucket.
pub open spec fn s3_bucket() -> Seq<char> {
    "https://oxide-omicron-build.s3.amazonaws.com"@
}

/// The URL of Buildomat's public files of the oxidecomputer organisation.
pub open spec fn buildomat_base() -> Seq<char> {
    "https://buildomat.eng.oxide.computer/public/file/oxidecomputer"@
}

/// The URL from which a source is fetched.
pub open spec fn url_of(s: Source) -> Seq<char> {
    match s {
        Source::S3(p) => s3_bucket() + "/"@ + p@,
        Source::Buildomat(b) => buildomat_base() + "/"@ + b.repo@ + "/"@ + b.series@ + "/"@
            + b.commit@ + "/"@ + b.artifact@,
    }
}

/// Where a blob kept at `from` is downloaded to: its name in the source,
/// below the directory that holds `from`.
pub open spec fn download_path_of(s: Source, from: Seq<char>) -> Option<Seq<char>> {
    match crate::paths::parent_of(from) {
        None => None,
        Some(dir) => Some(crate::paths::join_path(
            dir,
            match s {
                Source::S3(p) => p@,
                Source::Buildomat(b) => b.artifact@,
            },
        )),
    }
}

impl Source {
    /// Where the blob, which an input keeps at `from`, is downloaded to; the
    /// directory that holds `from` must exist first.
    pub fn download_path(&self, from: &str) -> (r: Option<String>)
        ensures
            r is None <==> download_path_of(*self, from@) is None,
            r matches Some(p) ==> download_path_of(*self, from@) == Some(p@),
    {
        match crate::paths::parent(from) {
            None => None,
            Some(dir) => match self {
                Source::S3(p) => Some(crate::paths::join(dir.as_str(), p.as_str())),
                Source::Buildomat(b) => Some(crate::paths::join(dir.as_str(), b.artifact.as_str())),
            },
        }
    }

    /// A copy of the source.
    pub fn clone_source(&self) -> (r: Source)
        ensures
            r == *self,
    {
        match self {
            Source::S3(s) => Source::S3(s.clone()),
            Source::Buildomat(b) => Source::Buildomat(
                PrebuiltBlob {
                    repo: b.repo.clone(),
                    series: b.series.clone(),
                    commit: b.commit.clone(),
                    artifact: b.artifact.clone(),
                    sha256: b.sha256.clone(),
                },
            ),
        }
    }

    pub fn same(&self, o: &Source) -> (r: bool)
        ensures
            r == same_source(*self, *o),
    {
        match (self, o) {
            (Source::S3(x), Source::S3(y)) => *x == *y,
            (Source::Buildomat(x), Source::Buildomat(y)) => same_prebuilt_exec(x, y),
            _ => false,
        }
    }

    /// The URL from which the blob is fetched.
    pub fn get_url(&self) -> (r: String)
        ensures
            r@ == url_of(*self),
    {
        match self {
            Source::S3(s) => {
                let mut r = String::from_str("https://oxide-omicron-build.s3.amazonaws.com");
                r.append("/");
                r.append(s.as_str());
                r
            },
            Source::Buildomat(spec) => {
                let mut r = String::from_str(
                    "https://buildomat.eng.oxide.computer/public/file/oxidecomputer",
                );
                r.append("/");
                r.append(spec.repo.as_str());
                r.append("/");
                r.append(spec.series.as_str());
                r.append("/");
                r.append(spec.commit.as_str());
                r.append("/");
                r.append(spec.artifact.as_str());
                r
            },
        }
    }
}

#[verifier::external_type_specification]
#[verifier::external_body]
pub struct ExFromHexError(hex::FromHexError);

#[verifier::external_type_specification]
#[verifier::external_body]
pub struct ExParseError(chrono::format::ParseError);

/// The value of a hex digit, either case.
pub open spec fn hex_val(c: char) -> Option<nat> {
    if '0' <= c && c <= '9' {
        Some((c as nat - '0' as nat) as nat)
    } else if 'a' <= c && c <= 'f' {
        Some((c as nat - 'a' as nat + 10) as nat)
    } else if 'A' <= c && c <= 'F' {
        Some((c as nat - 'A' as nat + 10) as nat)
    } else {
        None
    }
}

/// The text is hex: an even number of hex digits.
pub open spec fn hex_ok(s: Seq<char>) -> bool {
    s.len() % 2 == 0 && forall|i: int| 0 <= i < s.len() ==> (#[trigger] hex_val(s[i])) is Some
}

/// The bytes that hex text stands for, two digits each.
pub open spec fn hex_bytes(s: Seq<char>) -> Seq<u8> {
    Seq::new(
        (s.len() / 2) as nat,
        |i: int| (hex_val(s[2 * i])->0 * 16 + hex_val(s[2 * i + 1])->0) as u8,
    )
}

/// Relies on `hex::decode`: decodes an even number of hex digits of either
/// case into bytes, and fails on anything else.
#[verifier::external_body]
fn hex_decode(s: &str) -> (r: Result<Vec<u8>, hex::FromHexError>)
    ensures
        r is Ok <==> hex_ok(s@),
        r matches Ok(b) ==> b@ == hex_bytes(s@),
{
    hex::decode(s)
}

/// The instant that an RFC 2822 date names, as seconds and nanoseconds since
/// the epoch, if it parses.
pub uninterp spec fn rfc2822_instant(s: Seq<char>) -> Option<(i64, u32)>;

/// Relies on `chrono::DateTime::parse_from_rfc2822`, with `timestamp` and
/// `timestamp_subsec_nanos`: the result depends on the text alone.
#[verifier::external_body]
fn parse_rfc2822(s: &str) -> (r: Result<(i64, u32), chrono::format::ParseError>)
    ensures
        r is Ok <==> rfc2822_instant(s@) is Some,
        r matches Ok(t) ==> rfc2822_instant(s@) == Some(t),
{
    chrono::DateTime::parse_from_rfc2822(s).map(|d| (d.timestamp(), d.timestamp_subsec_nanos()))
}

/// An ASCII digit.
pub open spec fn is_digit(c: char) -> bool {
    '0' <= c && c <= '9'
}

/// The value of a string of digits.
pub open spec fn digits_value(s: Seq<char>) -> nat
    decreases s.len(),
{
    if s.len() == 0 {
        0
    } else {
        digits_value(s.drop_last()) * 10 + (s.last() as nat - '0' as nat) as nat
    }
}

/// The digits of a decimal number, after an optional `+`.
pub open spec fn decimal_digits(s: Seq<char>) -> Seq<char> {
    if s.len() > 0 && s[0] == '+' {
        s.drop_first()
    } else {
        s
    }
}

/// The unsigned 64-bit number that the text spells: an optional `+`, then
/// one or more ASCII digits, of a value that fits.
pub open spec fn decimal_u64(s: Seq<char>) -> Option<u64> {
    let d = decimal_digits(s);
    if d.len() > 0 && (forall|i: int| 0 <= i < d.len() ==> #[trigger] is_digit(d[i]))
        && digits_value(d) <= u64::MAX {
        Some(digits_value(d) as u64)
    } else {
        None
    }
}

proof fn lemma_digits_monotone(s: Seq<char>, k: int)
    requires
        0 <= k <= s.len(),
        forall|i: int| 0 <= i < s.len() ==> #[trigger] is_digit(s[i]),
    ensures
        digits_value(s.subrange(0, k)) <= digits_value(s),
    decreases s.len() - k,
{
    if k < s.len() {
        lemma_digits_monotone(s, k + 1);
        let t = s.subrange(0, k + 1);
        assert(t.drop_last() =~= s.subrange(0, k));
        assert(is_digit(t.last()));
    } else {
        assert(s.subrange(0, k) =~= s);
    }
}

/// Reads an unsigned 64-bit decimal number.
pub fn parse_u64(s: &str) -> (r: Option<u64>)
    ensures
        r == decimal_u64(s@),
{
    let c = chars_of(s);
    let mut k: usize = 0;
    if c.len() > 0 && c[0] == '+' {
        k = 1;
    }
    let ghost d = decimal_digits(s@);
    proof {
        assert(d =~= c@.subrange(k as int, c@.len() as int));
    }
    if k >= c.len() {
        proof {
            assert(d.len() == 0);
        }
        return None;
    }
    let start = k;
    let mut v: u64 = 0;
    while k < c.len()
        invariant
            c@ == s@,
            d == decimal_digits(s@),
            d == c@.subrange(start as int, c@.len() as int),
            start < c@.len(),
            start <= k <= c@.len(),
            forall|i: int| 0 <= i < k - start ==> #[trigger] is_digit(d[i]),
            v as nat == digits_value(d.subrange(0, k - start)),
        decreases c@.len() - k,
    {
        let ch = c[k];
        if !('0' <= ch && ch <= '9') {
            proof {
                assert(d[k - start] == c@[k as int]);
                assert(!is_digit(d[k - start]));
            }
            return None;
        }
        let digit = (ch as u32 - '0' as u32) as u64;
        proof {
            let t = d.subrange(0, k - start + 1);
            assert(t.drop_last() =~= d.subrange(0, k - start));
            assert(t.last() == ch);
        }
        if v > (u64::MAX - digit) / 10 {
            proof {
                assert(v * 10 + digit > u64::MAX) by (nonlinear_arith)
                    requires
                        v > (u64::MAX - digit) / 10,
                        digit <= 9,
                ;
                if forall|i: int| 0 <= i < d.len() ==> #[trigger] is_digit(d[i]) {
                    lemma_digits_monotone(d, k - start + 1);
                }
            }
            return None;
        }
        v = v * 10 + digit;
        k = k + 1;
    }
    proof {
        assert(d.subrange(0, k - start) =~= d);
    }
    Some(v)
}

/// Why a blob could not be checked or fetched.
#[derive(Clone, Debug, PartialEq, Eq)]
pub enum BlobError {
    /// The server sent no `Content-Length`.
    MissingContentLength { url: String },
    /// The server sent no `Last-Modified`.
    MissingLastModified { url: String },
    /// The `Content-Length` is not a number.
    BadContentLength,
    /// A date does not parse.
    BadDate,
    /// The expected digest is not hex.
    BadHex,
}

/// Facts about an S3 blob: what the server says of it, and what the file on
/// disk is like.
pub open spec fn s3_download_required_spec(
    content_length: u64,
    last_modified: (i64, u32),
    disk_len: u64,
    disk_modified: (i64, u32),
) -> bool {
    disk_len != content_length || disk_modified != last_modified
}

impl Source {
    /// Whether an S3 blob on disk must be fetched again, from the
    /// `Content-Length` and `Last-Modified` of a HEAD response and the
    /// length and modification time of the file on disk: it is reused only
    /// when both agree.
    pub fn s3_download_required(
        url: &str,
        content_length: Option<&str>,
        last_modified: Option<&str>,
        disk_len: u64,
        disk_modified: (i64, u32),
    ) -> (r: Result<bool, BlobError>)
        ensures
            content_length is None ==> (r matches Err(BlobError::MissingContentLength { url: u }) && u@ == url@),
            content_length is Some && decimal_u64(content_length->0@) is None ==> r == Err::<bool, BlobError>(BlobError::BadContentLength),
            content_length is Some && decimal_u64(content_length->0@) is Some ==> ({
                &&& last_modified is None ==> (r matches Err(BlobError::MissingLastModified { url: u }) && u@ == url@)
                &&& last_modified is Some && rfc2822_instant(last_modified->0@) is None ==> r == Err::<bool, BlobError>(BlobError::BadDate)
                &&& last_modified is Some && rfc2822_instant(last_modified->0@) is Some ==> r == Ok::<bool, BlobError>(
                    s3_download_required_spec(
                        decimal_u64(content_length->0@)->0,
                        rfc2822_instant(last_modified->0@)->0,
                        disk_len,
                        disk_modified,
                    ),
                )
            }),
    {
        let cl = match content_length {
            None => return Err(BlobError::MissingContentLength { url: String::from_str(url) }),
            Some(cl) => cl,
        };
        let len = match parse_u64(cl) {
            None => return Err(BlobError::BadContentLength),
            Some(n) => n,
        };
        let lm = match last_modified {
            None => return Err(BlobError::MissingLastModified { url: String::from_str(url) }),
            Some(lm) => lm,
        };
        let when = match parse_rfc2822(lm) {
            Ok(t) => t,
            Err(_) => return Err(BlobError::BadDate),
        };
        Ok(disk_len != len || disk_modified.0 != when.0 || disk_modified.1 != when.1)
    }

    /// Whether a Buildomat blob on disk, whose SHA-256 digest is
    /// `file_digest`, must be fetched again: it is reused only when the
    /// digest is the one that `sha256` spells in hex.
    pub fn buildomat_download_required(file_digest: &Vec<u8>, sha256: &str) -> (r: Result<bool, BlobError>)
        ensures
            r is Err <==> !hex_ok(sha256@),
            r matches Err(e) ==> e == BlobError::BadHex,
            r matches Ok(b) ==> b == (file_digest@ != hex_bytes(sha256@)),
    {
        let expected = match hex_decode(sha256) {
            Ok(b) => b,
            Err(_) => return Err(BlobError::BadHex),
        };
        if file_digest.len() != expected.len() {
            return Ok(true);
        }
        let mut k: usize = 0;
        while k < expected.len()
            invariant
                file_digest@.len() == expected@.len(),
                hex_ok(sha256@),
                expected@ == hex_bytes(sha256@),
                k <= expected@.len(),
                forall|j: int| 0 <= j < k ==> file_digest@[j] == expected@[j],
            decreases expected@.len() - k,
        {
            if file_digest[k] != expected[k] {
                assert(file_digest@[k as int] != expected@[k as int]);
                return Ok(true);
            }
            k = k + 1;
        }
        assert(file_digest@ =~= expected@);
        Ok(false)
    }

    /// The modification time to give a downloaded blob: the
    /// `Last-Modified` of the response, when it sent one.
    pub fn downloaded_mtime(last_modified: Option<&str>) -> (r: Result<Option<(i64, u32)>, BlobError>)
        ensures
            last_modified is None ==> r == Ok::<Option<(i64, u32)>, BlobError>(None),
            last_modified matches Some(lm) ==> (match rfc2822_instant(lm@) {
                Some(t) => r == Ok::<Option<(i64, u32)>, BlobError>(Some(t)),
                None => r == Err::<Option<(i64, u32)>, BlobError>(BlobError::BadDate),
            }),
    {
        match last_modified {
            None => Ok(None),
            Some(lm) => match parse_rfc2822(lm) {
                Ok(t) => Ok(Some(t)),
                Err(_) => Err(BlobError::BadDate),
            },
        }
    }
}

} // verus!
