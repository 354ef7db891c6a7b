//! The target: a key-value map describing the platform being built for.
use vstd::prelude::*;
use vstd::string::StringExecFns;
use crate::package::Package;
use crate::text::{chars_of, copy_range, string_of};

verus! {

/// The key of an entry, as characters.
pub open spec fn key_of(e: (String, String)) -> Seq<char> {
    e.0@
}

/// No two entries share a key.
pub open spec fn keys_unique(e: Seq<(String, String)>) -> bool {
    forall|i: int, j: int|
        0 <= i < e.len() && 0 <= j < e.len() && i != j ==> key_of(#[trigger] e[i]) != key_of(
            #[trigger] e[j],
        )
}

/// Some entry has key `k`.
pub open spec fn has_key(e: Seq<(String, String)>, k: Seq<char>) -> bool {
    exists|i: int| 0 <= i < e.len() && key_of(#[trigger] e[i]) == k
}

/// The map that the entries describe.
pub open spec fn map_of(e: Seq<(String, String)>) -> Map<Seq<char>, Seq<char>> {
    Map::new(
        |k: Seq<char>| has_key(e, k),
        |k: Seq<char>| e[choose|i: int| 0 <= i < e.len() && key_of(#[trigger] e[i]) == k].1@,
    )
}

proof fn lemma_map_of_at(e: Seq<(String, String)>, i: int)
    requires
        keys_unique(e),
        0 <= i < e.len(),
    ensures
        map_of(e).contains_key(e[i].0@),
        map_of(e)[e[i].0@] == e[i].1@,
{
    let k = e[i].0@;
    assert(key_of(e[i]) == k);
    assert(has_key(e, k));
    let j = choose|j: int| 0 <= j < e.len() && key_of(#[trigger] e[j]) == k;
    assert(j == i);
}

/// `a` comes before `b` in the order of strings, comparing from position
/// `i` on: character by character, a proper prefix first.
pub open spec fn lt_from(a: Seq<char>, b: Seq<char>, i: int) -> bool
    decreases a.len() - i,
{
    if i < 0 || i >= a.len() {
        0 <= i < b.len()
    } else if i >= b.len() {
        false
    } else if a[i] != b[i] {
        a[i] < b[i]
    } else {
        lt_from(a, b, i + 1)
    }
}

/// `a` comes before `b` in the order of strings.
pub open spec fn key_lt(a: Seq<char>, b: Seq<char>) -> bool {
    lt_from(a, b, 0)
}

/// The keys are in strictly increasing order.
pub open spec fn keys_sorted(e: Seq<(String, String)>) -> bool {
    forall|i: int, j: int|
        0 <= i < j < e.len() ==> key_lt(key_of(#[trigger] e[i]), key_of(#[trigger] e[j]))
}

proof fn lemma_lt_irreflexive(a: Seq<char>, i: int)
    requires
        0 <= i,
    ensures
        !lt_from(a, a, i),
    decreases a.len() - i,
{
    if i < a.len() {
        lemma_lt_irreflexive(a, i + 1);
    }
}

proof fn lemma_lt_total(a: Seq<char>, b: Seq<char>, i: int)
    requires
        0 <= i <= a.len(),
        i <= b.len(),
        forall|k: int| 0 <= k < i ==> a[k] == b[k],
        a != b,
    ensures
        lt_from(a, b, i) || lt_from(b, a, i),
    decreases a.len() - i,
{
    if i == a.len() && i == b.len() {
        assert(a =~= b);
    } else if i < a.len() && i < b.len() && a[i] == b[i] {
        lemma_lt_total(a, b, i + 1);
    } else if i < a.len() && i < b.len() {
        assert(a[i] < b[i] || b[i] < a[i]);
    }
}

proof fn lemma_lt_transitive(a: Seq<char>, b: Seq<char>, c: Seq<char>, i: int)
    requires
        0 <= i,
        lt_from(a, b, i),
        lt_from(b, c, i),
    ensures
        lt_from(a, c, i),
    decreases a.len() - i,
{
    if i < a.len() && i < b.len() && i < c.len() && a[i] == b[i] && b[i] == c[i] {
        lemma_lt_transitive(a, b, c, i + 1);
    }
}

proof fn lemma_sorted_unique(e: Seq<(String, String)>)
    requires
        keys_sorted(e),
    ensures
        keys_unique(e),
{
    assert forall|i: int, j: int|
        0 <= i < e.len() && 0 <= j < e.len() && i != j implies key_of(#[trigger] e[i]) != key_of(
        #[trigger] e[j],
    ) by {
        if key_of(e[i]) == key_of(e[j]) {
            lemma_lt_irreflexive(key_of(e[i]), 0);
        }
    }
}

/// Compares two strings in the order of strings.
fn key_less(a: &String, b: &String) -> (r: bool)
    ensures
        r == key_lt(a@, b@),
{
    let ac = chars_of(a.as_str());
    let bc = chars_of(b.as_str());
    let mut i: usize = 0;
    while i < ac.len() && i < bc.len()
        invariant
            ac@ == a@,
            bc@ == b@,
            i <= ac@.len(),
            i <= bc@.len(),
            key_lt(a@, b@) == lt_from(a@, b@, i as int),
        decreases ac@.len() - i,
    {
        if ac[i] != bc[i] {
            return ac[i] < bc[i];
        }
        i = i + 1;
    }
    i < bc.len() && i >= ac.len()
}

/// Describes the platform and configuration being built for.
///
/// An arbitrary key-value map of strings; consumers give meaning to keys.
#[derive(Clone, Debug, Default, PartialEq, Eq)]
pub struct TargetMap {
    entries: Vec<(String, String)>,
}

impl View for TargetMap {
    type V = Map<Seq<char>, Seq<char>>;

    closed spec fn view(&self) -> Map<Seq<char>, Seq<char>> {
        map_of(self.entries@)
    }
}

impl TargetMap {
    pub closed spec fn wf(&self) -> bool {
        keys_unique(self.entries@) && keys_sorted(self.entries@)
    }

    /// An empty target.
    pub fn new() -> (r: TargetMap)
        ensures
            r.wf(),
            r@ == Map::<Seq<char>, Seq<char>>::empty(),
    {
        let r = TargetMap { entries: Vec::new() };
        assert(r@ =~= Map::<Seq<char>, Seq<char>>::empty());
        r
    }

    /// The position of `key` among the entries, if present.
    fn position(&self, key: &String) -> (r: Option<usize>)
        requires
            self.wf(),
        ensures
            r is None <==> !self@.contains_key(key@),
            r matches Some(i) ==> i < self.entries@.len() && self.entries@[i as int].0@ == key@,
    {
        let mut i: usize = 0;
        while i < self.entries.len()
            invariant
                self.wf(),
                i <= self.entries@.len(),
                forall|j: int| 0 <= j < i ==> key_of(#[trigger] self.entries@[j]) != key@,
            decreases self.entries@.len() - i,
        {
            if self.entries[i].0 == *key {
                proof {
                    lemma_map_of_at(self.entries@, i as int);
                }
                return Some(i);
            }
            i = i + 1;
        }
        None
    }

    /// The value of `key`, if present.
    pub fn get(&self, key: &String) -> (r: Option<&String>)
        requires
            self.wf(),
        ensures
            r is Some <==> self@.contains_key(key@),
            r matches Some(v) ==> v@ == self@[key@],
    {
        match self.position(key) {
            Some(i) => {
                proof {
                    lemma_map_of_at(self.entries@, i as int);
                }
                Some(&self.entries[i].1)
            },
            None => None,
        }
    }

    /// Sets `key` to `value`, replacing an earlier value.
    pub fn insert(&mut self, key: String, value: String)
        requires
            old(self).wf(),
        ensures
            final(self).wf(),
            final(self)@ == old(self)@.insert(key@, value@),
    {
        let ghost k = key@;
        let ghost v = value@;
        let ghost old_e = self.entries@;
        match self.position(&key) {
            Some(i) => {
                self.entries.set(i, (key, value));
                proof {
                    let e = self.entries@;
                    assert(e == old_e.update(i as int, e[i as int]));
                    assert forall|a: int, b: int|
                        0 <= a < e.len() && 0 <= b < e.len() && a != b implies key_of(
                            #[trigger] e[a],
                        ) != key_of(#[trigger] e[b]) by {
                        if a != i && b != i {
                            assert(key_of(old_e[a]) != key_of(old_e[b]));
                        } else if a == i {
                            assert(key_of(old_e[i as int]) != key_of(old_e[b]));
                        } else {
                            assert(key_of(old_e[a]) != key_of(old_e[i as int]));
                        }
                    }
                    assert forall|kk: Seq<char>| #[trigger]
                        map_of(e).contains_key(kk) == map_of(old_e).insert(k, v).contains_key(
                            kk,
                        ) by {
                        if has_key(e, kk) {
                            let a = choose|a: int| 0 <= a < e.len() && key_of(#[trigger] e[a]) == kk;
                            if a != i {
                                assert(key_of(old_e[a]) == kk);
                            }
                        }
                        if has_key(old_e, kk) {
                            let a = choose|a: int|
                                0 <= a < old_e.len() && key_of(#[trigger] old_e[a]) == kk;
                            if a != i {
                                assert(key_of(e[a]) == kk);
                            } else {
                                assert(key_of(e[i as int]) == kk);
                            }
                        }
                        if kk == k {
                            assert(key_of(e[i as int]) == kk);
                        }
                    }
                    assert forall|kk: Seq<char>| #[trigger]
                        map_of(e).contains_key(kk) implies map_of(e)[kk] == map_of(old_e).insert(
                            k,
                            v,
                        )[kk] by {
                        let a = choose|a: int| 0 <= a < e.len() && key_of(#[trigger] e[a]) == kk;
                        lemma_map_of_at(e, a);
                        if a != i {
                            assert(key_of(old_e[a]) == kk);
                            lemma_map_of_at(old_e, a);
                        }
                    }
                    assert(map_of(e) =~= map_of(old_e).insert(k, v));
                }
            },
            None => {
                let mut j: usize = 0;
                while j < self.entries.len() && key_less(&self.entries[j].0, &key)
                    invariant
                        self.entries@ == old_e,
                        keys_unique(old_e),
                        keys_sorted(old_e),
                        key@ == k,
                        !has_key(old_e, k),
                        j <= old_e.len(),
                        forall|m: int| 0 <= m < j ==> key_lt(key_of(#[trigger] old_e[m]), k),
                    decreases old_e.len() - j,
                {
                    j = j + 1;
                }
                proof {
                    assert forall|m: int| j <= m < old_e.len() implies key_lt(k, key_of(#[trigger] old_e[m])) by {
                        assert(key_of(old_e[j as int]) != k);
                        assert(!key_lt(key_of(old_e[j as int]), k));
                        lemma_lt_total(key_of(old_e[j as int]), k, 0);
                        if m > j {
                            lemma_lt_transitive(k, key_of(old_e[j as int]), key_of(old_e[m]), 0);
                        }
                    }
                }
                self.entries.insert(j, (key, value));
                proof {
                    let e = self.entries@;
                    let x = e[j as int];
                    assert(e == old_e.insert(j as int, x));
                    assert(key_of(x) == k);
                    assert forall|a: int, b: int| 0 <= a < b < e.len() implies key_lt(
                        key_of(#[trigger] e[a]),
                        key_of(#[trigger] e[b]),
                    ) by {
                        if b < j {
                            assert(key_lt(key_of(old_e[a]), key_of(old_e[b])));
                        } else if b == j {
                            assert(key_lt(key_of(old_e[a]), k));
                        } else if a < j {
                            assert(key_lt(key_of(old_e[a]), k));
                            assert(key_lt(k, key_of(old_e[b - 1])));
                            lemma_lt_transitive(key_of(old_e[a]), k, key_of(old_e[b - 1]), 0);
                        } else if a == j {
                            assert(key_lt(k, key_of(old_e[b - 1])));
                        } else {
                            assert(key_lt(key_of(old_e[a - 1]), key_of(old_e[b - 1])));
                        }
                    }
                    lemma_sorted_unique(e);
                    assert forall|kk: Seq<char>| #[trigger]
                        map_of(e).contains_key(kk) == map_of(old_e).insert(k, v).contains_key(
                            kk,
                        ) by {
                        if has_key(e, kk) {
                            let a = choose|a: int| 0 <= a < e.len() && key_of(#[trigger] e[a]) == kk;
                            if a < j {
                                assert(key_of(old_e[a]) == kk);
                            } else if a > j {
                                assert(key_of(old_e[a - 1]) == kk);
                            }
                        }
                        if has_key(old_e, kk) {
                            let a = choose|a: int|
                                0 <= a < old_e.len() && key_of(#[trigger] old_e[a]) == kk;
                            if a < j {
                                assert(key_of(e[a]) == kk);
                            } else {
                                assert(key_of(e[a + 1]) == kk);
                            }
                        }
                        if kk == k {
                            assert(key_of(e[j as int]) == kk);
                        }
                    }
                    assert forall|kk: Seq<char>| #[trigger]
                        map_of(e).contains_key(kk) implies map_of(e)[kk] == map_of(old_e).insert(
                            k,
                            v,
                        )[kk] by {
                        let a = choose|a: int| 0 <= a < e.len() && key_of(#[trigger] e[a]) == kk;
                        lemma_map_of_at(e, a);
                        if a < j {
                            assert(key_of(old_e[a]) == kk);
                            lemma_map_of_at(old_e, a);
                        } else if a > j {
                            assert(key_of(old_e[a - 1]) == kk);
                            lemma_map_of_at(old_e, a - 1);
                        }
                    }
                    assert(map_of(e) =~= map_of(old_e).insert(k, v));
                }
            },
        }
    }
}

/// A target includes a package iff every key that the package lists is in the
/// target with an equal value; a package that lists nothing is always included.
pub open spec fn includes(t: Map<Seq<char>, Seq<char>>, only: Option<Map<Seq<char>, Seq<char>>>) -> bool {
    only is Some ==> forall|k: Seq<char>| #[trigger]
        only->Some_0.contains_key(k) ==> t.contains_key(k) && t[k] == only->Some_0[k]
}

/// The target filter of a package, as a map.
pub open spec fn only_view(pkg: Package) -> Option<Map<Seq<char>, Seq<char>>> {
    match pkg.only_for_targets {
        None => None,
        Some(m) => Some(m@),
    }
}

impl TargetMap {
    /// True if this target should include the package: every key of the
    /// package's target filter is present here with an equal value.
    pub fn includes_package(&self, pkg: &Package) -> (r: bool)
        requires
            self.wf(),
            pkg.wf(),
        ensures
            r == includes(self@, only_view(*pkg)),
    {
        match &pkg.only_for_targets {
            None => true,
            Some(only) => {
                let mut i: usize = 0;
                while i < only.entries.len()
                    invariant
                        self.wf(),
                        only.wf(),
                        pkg.only_for_targets == Some(*only),
                        i <= only.entries@.len(),
                        forall|j: int|
                            0 <= j < i ==> self@.contains_key(#[trigger] only.entries@[j].0@)
                                && self@[only.entries@[j].0@] == only.entries@[j].1@,
                    decreases only.entries@.len() - i,
                {
                    match self.get(&only.entries[i].0) {
                        None => {
                            proof {
                                lemma_map_of_at(only.entries@, i as int);
                                let k = only.entries@[i as int].0@;
                                assert(only@.contains_key(k));
                                assert(!self@.contains_key(k));
                                assert(only_view(*pkg) == Some(only@));
                                let ov = only_view(*pkg);
                                assert(ov->Some_0.contains_key(k));
                                assert(!includes(self@, ov));
                            }
                            return false;
                        },
                        Some(v) => {
                            if !(*v == only.entries[i].1) {
                                proof {
                                    lemma_map_of_at(only.entries@, i as int);
                                    let k = only.entries@[i as int].0@;
                                    let ov = only_view(*pkg);
                                    assert(ov->Some_0.contains_key(k));
                                    assert(self@[k] != ov->Some_0[k]);
                                }
                                return false;
                            }
                        },
                    }
                    i = i + 1;
                }
                proof {
                    assert forall|k: Seq<char>| #[trigger] only@.contains_key(k) implies self@.contains_key(k)
                        && self@[k] == only@[k] by {
                        let j = choose|j: int|
                            0 <= j < only.entries@.len() && key_of(#[trigger] only.entries@[j]) == k;
                        lemma_map_of_at(only.entries@, j);
                        assert(self@.contains_key(only.entries@[j].0@));
                    }
                }
                true
            },
        }
    }
}

/// A white-space character, as Unicode's White_Space property lists them.
pub open spec fn is_ws(c: char) -> bool {
    let u = c as u32;
    (0x09 <= u && u <= 0x0d) || u == 0x20 || u == 0x85 || u == 0xa0 || u == 0x1680 || (0x2000 <= u
        && u <= 0x200a) || u == 0x2028 || u == 0x2029 || u == 0x202f || u == 0x205f || u == 0x3000
}

fn is_ws_exec(c: char) -> (r: bool)
    ensures
        r == is_ws(c),
{
    let u = c as u32;
    (0x09 <= u && u <= 0x0d) || u == 0x20 || u == 0x85 || u == 0xa0 || u == 0x1680 || (0x2000 <= u
        && u <= 0x200a) || u == 0x2028 || u == 0x2029 || u == 0x202f || u == 0x205f || u == 0x3000
}

/// The end of the token that starts at `i`: the next white space, or the end.
pub open spec fn token_end(s: Seq<char>, i: int) -> int
    decreases s.len() - i,
{
    if i < 0 || i >= s.len() || is_ws(s[i]) {
        i
    } else {
        token_end(s, i + 1)
    }
}

pub proof fn lemma_token_end(s: Seq<char>, i: int)
    requires
        0 <= i <= s.len(),
    ensures
        i <= token_end(s, i) <= s.len(),
        forall|k: int| i <= k < token_end(s, i) ==> !is_ws(#[trigger] s[k]),
        token_end(s, i) < s.len() ==> is_ws(s[token_end(s, i)]),
    decreases s.len() - i,
{
    if i < s.len() && !is_ws(s[i]) {
        lemma_token_end(s, i + 1);
    }
}

/// The position of the first `=` at or after `i`, if any.
pub open spec fn first_eq(t: Seq<char>, i: int) -> Option<int>
    decreases t.len() - i,
{
    if i < 0 || i >= t.len() {
        None
    } else if t[i] == '=' {
        Some(i)
    } else {
        first_eq(t, i + 1)
    }
}

proof fn lemma_first_eq(t: Seq<char>, i: int)
    requires
        0 <= i,
    ensures
        first_eq(t, i) matches Some(e) ==> i <= e < t.len(),
    decreases t.len() - i,
{
    if i < t.len() && t[i] != '=' {
        lemma_first_eq(t, i + 1);
    }
}

/// Reads `key=value` pairs separated by white space, from position `i` on,
/// into `acc`; a later pair overrides an earlier one with the same key. A
/// token without `=` is an error that names it.
pub open spec fn parse_from(s: Seq<char>, i: int, acc: Map<Seq<char>, Seq<char>>) -> Result<
    Map<Seq<char>, Seq<char>>,
    Seq<char>,
>
    decreases s.len() - i,
{
    if i < 0 || i >= s.len() {
        Ok(acc)
    } else if is_ws(s[i]) {
        parse_from(s, i + 1, acc)
    } else {
        let j = token_end(s, i);
        let tok = s.subrange(i, j);
        proof {
            lemma_token_end(s, i);
        }
        match first_eq(tok, 0) {
            None => Err(tok),
            Some(e) => parse_from(s, j, acc.insert(tok.subrange(0, e), tok.subrange(e + 1, tok.len() as int))),
        }
    }
}

/// Why a target could not be read.
#[derive(Clone, Debug, PartialEq, Eq)]
pub enum TargetParseError {
    /// A token without `=`.
    MissingEquals(String),
}

impl TargetParseError {
    /// The error message.
    pub fn message(&self) -> (r: String)
        ensures
            r@ == match self {
                TargetParseError::MissingEquals(t) => "Cannot parse key-value pair out of '"@ + t@ + "'"@,
            },
    {
        match self {
            TargetParseError::MissingEquals(t) => {
                let mut r = String::from_str("Cannot parse key-value pair out of '");
                r.append(t.as_str());
                r.append("'");
                r
            },
        }
    }
}

/// The text of entries, each as `key=value` followed by a space.
pub open spec fn render(e: Seq<(String, String)>) -> Seq<char>
    decreases e.len(),
{
    if e.len() == 0 {
        Seq::empty()
    } else {
        render(e.drop_last()) + e.last().0@ + "="@ + e.last().1@ + " "@
    }
}

impl TargetMap {
    /// The pairs, in key order.
    pub closed spec fn entries_view(&self) -> Seq<(String, String)> {
        self.entries@
    }

    /// The target as text: `k1=v1 k2=v2 `, in key order.
    pub fn to_text(&self) -> (r: String)
        requires
            self.wf(),
        ensures
            r@ == render(self.entries_view()),
            keys_sorted(self.entries_view()),
            map_of(self.entries_view()) == self@,
    {
        let mut r = String::new();
        let mut k: usize = 0;
        while k < self.entries.len()
            invariant
                k <= self.entries@.len(),
                r@ == render(self.entries@.subrange(0, k as int)),
            decreases self.entries@.len() - k,
        {
            proof {
                assert(self.entries@.subrange(0, k as int + 1).drop_last() =~= self.entries@.subrange(0, k as int));
            }
            r.append(self.entries[k].0.as_str());
            r.append("=");
            r.append(self.entries[k].1.as_str());
            r.append(" ");
            k = k + 1;
        }
        proof {
            assert(self.entries@.subrange(0, self.entries@.len() as int) =~= self.entries@);
        }
        r
    }

    /// Reads a target from `key=value` pairs separated by white space.
    pub fn parse(s: &str) -> (r: Result<TargetMap, TargetParseError>)
        ensures
            r matches Ok(t) ==> t.wf() && parse_from(s@, 0, Map::empty()) == Ok::<
                Map<Seq<char>, Seq<char>>,
                Seq<char>,
            >(t@),
            r matches Err(TargetParseError::MissingEquals(tok)) ==> parse_from(s@, 0, Map::empty())
                == Err::<Map<Seq<char>, Seq<char>>, Seq<char>>(tok@),
            r is Ok <==> parse_from(s@, 0, Map::empty()) is Ok,
    {
        let c = chars_of(s);
        let mut t = TargetMap::new();
        let mut i: usize = 0;
        while i < c.len()
            invariant
                c@ == s@,
                i <= c@.len(),
                t.wf(),
                parse_from(s@, 0, Map::empty()) == parse_from(s@, i as int, t@),
            decreases c@.len() - i,
        {
            if is_ws_exec(c[i]) {
                i = i + 1;
            } else {
                proof {
                    lemma_token_end(c@, i as int);
                }
                let mut j = i;
                while j < c.len() && !is_ws_exec(c[j])
                    invariant
                        i <= j <= c@.len(),
                        token_end(c@, i as int) == token_end(c@, j as int),
                    decreases c@.len() - j,
                {
                    j = j + 1;
                }
                let tok = copy_range(&c, i, j);
                proof {
                    assert(token_end(c@, j as int) == j);
                }
                let mut e: usize = 0;
                while e < tok.len() && tok[e] != '='
                    invariant
                        e <= tok@.len(),
                        first_eq(tok@, 0) == first_eq(tok@, e as int),
                    decreases tok@.len() - e,
                {
                    e = e + 1;
                }
                if e >= tok.len() {
                    return Err(TargetParseError::MissingEquals(string_of(tok.as_slice())));
                }
                let key = string_of(copy_range(&tok, 0, e).as_slice());
                let value = string_of(copy_range(&tok, e + 1, tok.len()).as_slice());
                t.insert(key, value);
                i = j;
            }
        }
        proof {
            assert(parse_from(s@, i as int, t@) == Ok::<Map<Seq<char>, Seq<char>>, Seq<char>>(t@));
        }
        Ok(t)
    }
}

} // verus!
