//! Paths as sequences of components, and where files go in an archive.
use vstd::prelude::*;
use vstd::string::StringExecFns;
use camino::Utf8Path;

verus! {

/// The components of a path, as `camino` splits them: the root as `/`, the
/// current directory as `.`, the parent directory as `..`, and every other
/// component as its name.
pub uninterp spec fn path_components(s: Seq<char>) -> Seq<Seq<char>>;

/// The views of a sequence of strings.
pub open spec fn views(v: Seq<String>) -> Seq<Seq<char>> {
    v.map_values(|c: String| c@)
}

/// Relies on `camino::Utf8Path::components` and `Utf8Component::as_str`:
/// splits a path into its components; a path that starts with `/` begins
/// with the root component `/`, and only such a path does.
#[verifier::external_body]
pub(crate) fn components(s: &str) -> (r: Vec<String>)
    ensures
        views(r@) == path_components(s@),
        (s@.len() > 0 && s@[0] == '/') <==> (r@.len() > 0 && r@[0]@ == "/"@),
{
    Utf8Path::new(s).components().map(|c| c.as_str().to_string()).collect()
}

/// The components joined by `/`.
pub open spec fn joined(c: Seq<Seq<char>>) -> Seq<char>
    decreases c.len(),
{
    if c.len() == 0 {
        Seq::empty()
    } else if c.len() == 1 {
        c[0]
    } else {
        joined(c.drop_last()) + "/"@ + c.last()
    }
}

/// The place in a zone image of the absolute path whose components after
/// the root are `c`: under `root/`.
pub open spec fn zone_path(c: Seq<Seq<char>>) -> Seq<char> {
    "root/"@ + joined(c)
}

/// `b` appended to `a` as a path: `b` itself if it is absolute, else with a
/// separator in between where `a` is non-empty and does not end in one.
pub open spec fn join_path(a: Seq<char>, b: Seq<char>) -> Seq<char> {
    if b.len() > 0 && b[0] == '/' {
        b
    } else if a.len() == 0 || a.last() == '/' {
        a + b
    } else {
        a + "/"@ + b
    }
}

/// Appends path `b` to path `a`.
pub fn join(a: &str, b: &str) -> (r: String)
    ensures
        r@ == join_path(a@, b@),
{
    proof {
        reveal_strlit("/");
    }
    let bc = crate::text::chars_of(b);
    let ac = crate::text::chars_of(a);
    if bc.len() > 0 && bc[0] == '/' {
        return String::from_str(b);
    }
    let mut r = String::from_str(a);
    if ac.len() > 0 && ac[ac.len() - 1] != '/' {
        r.append("/");
    }
    r.append(b);
    r
}

/// The components `c` joined by `/`.
pub fn join_components(c: &Vec<String>, lo: usize, hi: usize) -> (r: String)
    requires
        lo <= hi <= c@.len(),
    ensures
        r@ == joined(views(c@).subrange(lo as int, hi as int)),
{
    let mut r = String::new();
    let mut k = lo;
    while k < hi
        invariant
            lo <= k <= hi <= c@.len(),
            r@ == joined(views(c@).subrange(lo as int, k as int)),
        decreases hi - k,
    {
        proof {
            let s = views(c@).subrange(lo as int, k as int + 1);
            assert(s.drop_last() == views(c@).subrange(lo as int, k as int));
        }
        if k > lo {
            r.append("/");
        }
        r.append(c[k].as_str());
        k = k + 1;
    }
    r
}

/// The place in a zone image of the absolute path with components `c`,
/// taking the components in `[1, hi)`.
pub fn zone_path_of(c: &Vec<String>, hi: usize) -> (r: String)
    requires
        1 <= hi <= c@.len(),
    ensures
        r@ == zone_path(views(c@).subrange(1, hi as int)),
{
    let mut r = String::from_str("root/");
    let rest = join_components(c, 1, hi);
    r.append(rest.as_str());
    r
}

/// The path that components `c` spell: the root as a leading `/`, the other
/// components joined by `/`.
pub open spec fn render_components(c: Seq<Seq<char>>) -> Seq<char> {
    if c.len() > 0 && c[0] == "/"@ {
        "/"@ + joined(c.subrange(1, c.len() as int))
    } else {
        joined(c)
    }
}

/// The parent of a path: all its components but the last, if the last is
/// not the root.
pub open spec fn parent_of(p: Seq<char>) -> Option<Seq<char>> {
    let c = path_components(p);
    if c.len() == 0 || (c.len() == 1 && c[0] == "/"@) {
        None
    } else {
        Some(render_components(c.subrange(0, c.len() - 1)))
    }
}

/// The parent directory of a path, if it has one.
pub fn parent(p: &str) -> (r: Option<String>)
    ensures
        r is None <==> parent_of(p@) is None,
        r matches Some(s) ==> parent_of(p@) == Some(s@),
{
    let c = components(p);
    proof {
        assert(views(c@) == path_components(p@));
    }
    let root = String::from_str("/");
    if c.len() == 0 || (c.len() == 1 && c[0] == root) {
        return None;
    }
    let n = c.len() - 1;
    proof {
        assert(views(c@).subrange(0, n as int) =~= views(c@.subrange(0, n as int)));
    }
    if c[0] == root {
        let mut r = String::from_str("/");
        let rest = join_components(&c, 1, n);
        r.append(rest.as_str());
        proof {
            assert(views(c@).subrange(0, n as int).subrange(1, n as int) =~= views(c@).subrange(1, n as int));
        }
        Some(r)
    } else {
        let r = join_components(&c, 0, n);
        Some(r)
    }
}

} // verus!
