//! Orders packages so that each is built after the packages it depends on.
use vstd::prelude::*;
use topological_sort::TopologicalSort;
use crate::identifier::PackageName;
use crate::package::{output_file_of, Package, PackageOutput, PackageSource};
use crate::target::{includes, only_view, TargetMap};

verus! {

#[verifier::external_type_specification]
#[verifier::external_body]
#[verifier::reject_recursive_types(T)]
pub struct ExTopologicalSort<T>(TopologicalSort<T>);

/// The elements that a sort holds.
pub uninterp spec fn topo_nodes(t: TopologicalSort<usize>) -> Set<usize>;

/// The dependencies `(prec, succ)` that a sort holds between its elements.
pub uninterp spec fn topo_edges(t: TopologicalSort<usize>) -> Set<(usize, usize)>;

/// The elements on which no element of the sort depends.
pub open spec fn ready(nodes: Set<usize>, edges: Set<(usize, usize)>) -> Set<usize> {
    nodes.filter(|x: usize| forall|p: usize| !edges.contains((p, x)))
}

/// Relies on `TopologicalSort::new`: the sort starts empty.
#[verifier::external_body]
fn topo_new() -> (r: TopologicalSort<usize>)
    ensures
        topo_nodes(r) == Set::<usize>::empty(),
        topo_edges(r) == Set::<(usize, usize)>::empty(),
{
    TopologicalSort::new()
}

/// Relies on `TopologicalSort::insert`: adds an element and no dependency.
#[verifier::external_body]
fn topo_insert(t: &mut TopologicalSort<usize>, x: usize)
    ensures
        topo_nodes(*final(t)) == topo_nodes(*old(t)).insert(x),
        topo_edges(*final(t)) == topo_edges(*old(t)),
{
    let _ = t.insert(x);
}

/// Relies on `TopologicalSort::add_dependency`: adds both elements, and the
/// dependency of `succ` on `prec`.
#[verifier::external_body]
fn topo_add_dependency(t: &mut TopologicalSort<usize>, prec: usize, succ: usize)
    ensures
        topo_nodes(*final(t)) == topo_nodes(*old(t)).insert(prec).insert(succ),
        topo_edges(*final(t)) == topo_edges(*old(t)).insert((prec, succ)),
{
    t.add_dependency(prec, succ)
}

/// Relies on `TopologicalSort::is_empty`: true iff the sort holds no element.
#[verifier::external_body]
fn topo_is_empty(t: &TopologicalSort<usize>) -> (r: bool)
    ensures
        r == (topo_nodes(*t) == Set::<usize>::empty()),
{
    t.is_empty()
}

/// Relies on `TopologicalSort::pop_all`: removes and returns, once each and
/// in no given order, every element on which no other depends, with the
/// dependencies they held.
#[verifier::external_body]
fn topo_pop_all(t: &mut TopologicalSort<usize>) -> (r: Vec<usize>)
    ensures
        r@.no_duplicates(),
        r@.to_set() == ready(topo_nodes(*old(t)), topo_edges(*old(t))),
        topo_nodes(*final(t)) == topo_nodes(*old(t)).difference(r@.to_set()),
        topo_edges(*final(t)) == topo_edges(*old(t)).filter(
            |e: (usize, usize)| !r@.to_set().contains(e.0),
        ),
{
    t.pop_all()
}

/// Why no batch could be produced.
#[derive(Clone, Debug, PartialEq, Eq)]
pub enum PlanError {
    /// Packages depend on each other in a cycle.
    Cycle,
    /// A composite names an output file that no package creates.
    MissingDependency { output: String },
}

impl PlanError {
    /// The error message.
    pub fn message(&self) -> (r: String)
        ensures
            r@ == match self {
                PlanError::Cycle => "cyclic dependency in package manifest!"@,
                PlanError::MissingDependency { output } => "Could not find a package which creates '"@
                    + output@ + "'"@,
            },
    {
        match self {
            PlanError::Cycle => String::from_str("cyclic dependency in package manifest!"),
            PlanError::MissingDependency { output } => {
                let mut r = String::from_str("Could not find a package which creates '");
                r.append(output.as_str());
                r.append("'");
                r
            },
        }
    }
}

/// A package enters the graph on its own, unless it only serves composites.
pub open spec fn standalone(p: Package) -> bool {
    &&& !(p.source is Composite)
    &&& p.output != (PackageOutput::Zone { intermediate_only: true })
}

/// Describes a set of packages to act upon, by name.
pub struct PackageMap<'a> {
    pub packages: Vec<(&'a PackageName, &'a Package)>,
}

impl<'a> PackageMap<'a> {
    pub open spec fn wf(&self) -> bool {
        forall|i: int| 0 <= i < self.packages@.len() ==> (#[trigger] self.packages@[i]).1.wf()
            && self.packages@[i].0.wf()
    }
}

/// Returns the packages in batches: each batch depends only on earlier ones,
/// and the packages of one batch may be built concurrently.
pub struct PackageDependencyIter<'a> {
    /// The packages; the graph names package `i` by the number `i`.
    packages: Vec<(&'a PackageName, &'a Package)>,
    /// The output file of each graph element: first those of the packages,
    /// then the files that composites name and no package creates.
    outputs: Vec<String>,
    sort: TopologicalSort<usize>,
    /// Every dependency put into the graph, `(prec, succ)`.
    graph: Ghost<Set<(usize, usize)>>,
    /// The batch in which each element left the graph.
    batch_of: Ghost<Map<usize, nat>>,
    /// The number of batches produced so far.
    rounds: Ghost<nat>,
}

} // verus!

verus! {

/// The output files that a composite lists; nothing for other packages.
pub open spec fn composite_deps(p: Package) -> Seq<String> {
    match p.source {
        PackageSource::Composite { packages } => packages@,
        _ => Seq::empty(),
    }
}

/// Position `a` holds `name`, and no earlier position does.
pub open spec fn is_first(outputs: Seq<String>, a: int, name: Seq<char>) -> bool {
    &&& 0 <= a < outputs.len()
    &&& outputs[a]@ == name
    &&& forall|b: int| 0 <= b < a ==> (#[trigger] outputs[b])@ != name
}

proof fn lemma_is_first_grow(o0: Seq<String>, o1: Seq<String>, a: int, name: Seq<char>)
    requires
        extends(o0, o1),
        is_first(o0, a, name),
    ensures
        is_first(o1, a, name),
{
    assert forall|b: int| 0 <= b < a implies (#[trigger] o1[b])@ != name by {
        assert(o1[b] == o0[b]);
    }
    assert(o1[a] == o0[a]);
}

/// A dependency links to the first element with its output file: to a
/// package that creates the file when one does (the first such), and to an
/// element past every package when none does.
pub proof fn lemma_first_is_creator(outputs: Seq<String>, n: int, a: int, name: Seq<char>)
    requires
        0 <= n <= outputs.len(),
        is_first(outputs, a, name),
    ensures
        forall|j: int| 0 <= j < n && (#[trigger] outputs[j])@ == name ==> a <= j,
        (forall|j: int| 0 <= j < n ==> (#[trigger] outputs[j])@ != name) ==> a >= n,
{
    if (forall|j: int| 0 <= j < n ==> (#[trigger] outputs[j])@ != name) {
        if a < n {
            assert(outputs[a]@ == name);
        }
    }
}

/// The dependency `(prec, succ)` stands for a composite `succ` that lists the
/// output file of element `prec`, the first element with that output file.
pub open spec fn edge_matches(
    packages: Seq<(&PackageName, &Package)>,
    outputs: Seq<String>,
    e: (usize, usize),
) -> bool {
    &&& (e.0 as int) < outputs.len()
    &&& (e.1 as int) < packages.len()
    &&& is_first(outputs, e.0 as int, outputs[e.0 as int]@)
    &&& exists|k: int|
        0 <= k < composite_deps(*packages[e.1 as int].1).len() && (#[trigger] composite_deps(
            *packages[e.1 as int].1,
        )[k])@ == outputs[e.0 as int]@
}

/// Some dependency of `succ` comes from the first element whose output file
/// is `dep`.
pub open spec fn dep_linked(
    g: Set<(usize, usize)>,
    outputs: Seq<String>,
    dep: Seq<char>,
    succ: usize,
) -> bool {
    exists|a: usize| #[trigger] g.contains((a, succ)) && is_first(outputs, a as int, dep)
}

/// `x` is an end of some dependency.
pub open spec fn endpoint(g: Set<(usize, usize)>, x: usize) -> bool {
    exists|e: (usize, usize)| #[trigger] g.contains(e) && (e.0 == x || e.1 == x)
}

/// `o1` extends `o0`.
pub open spec fn extends(o0: Seq<String>, o1: Seq<String>) -> bool {
    o0.len() <= o1.len() && forall|a: int| 0 <= a < o0.len() ==> #[trigger] o1[a] == o0[a]
}

proof fn lemma_edge_matches_grow(
    packages: Seq<(&PackageName, &Package)>,
    o0: Seq<String>,
    o1: Seq<String>,
    e: (usize, usize),
)
    requires
        extends(o0, o1),
        edge_matches(packages, o0, e),
    ensures
        edge_matches(packages, o1, e),
{
    assert(o1[e.0 as int] == o0[e.0 as int]);
    lemma_is_first_grow(o0, o1, e.0 as int, o0[e.0 as int]@);
}

proof fn lemma_dep_linked_grow(
    g0: Set<(usize, usize)>,
    g1: Set<(usize, usize)>,
    o0: Seq<String>,
    o1: Seq<String>,
    dep: Seq<char>,
    succ: usize,
)
    requires
        extends(o0, o1),
        g0.subset_of(g1),
        dep_linked(g0, o0, dep, succ),
    ensures
        dep_linked(g1, o1, dep, succ),
{
    let a = choose|a: usize| #[trigger] g0.contains((a, succ)) && is_first(o0, a as int, dep);
    assert(g1.contains((a, succ)));
    lemma_is_first_grow(o0, o1, a as int, dep);
}

proof fn lemma_endpoint_grow(g0: Set<(usize, usize)>, g1: Set<(usize, usize)>, x: usize)
    requires
        g0.subset_of(g1),
        endpoint(g0, x),
    ensures
        endpoint(g1, x),
{
    let e = choose|e: (usize, usize)| #[trigger] g0.contains(e) && (e.0 == x || e.1 == x);
    assert(g1.contains(e));
}

/// What holds of the graph after the first `i` packages, and `k` output
/// files of package `i`, have been put into it.
pub open spec fn building(
    packages: Seq<(&PackageName, &Package)>,
    outputs: Seq<String>,
    nodes: Set<usize>,
    g: Set<(usize, usize)>,
    i: int,
    k: int,
) -> bool {
    &&& nodes.finite()
    &&& packages.len() <= outputs.len()
    &&& forall|a: int|
        packages.len() <= a < outputs.len() ==> is_first(outputs, a, (#[trigger] outputs[a])@)
    &&& forall|x: usize| #[trigger] nodes.contains(x) ==> (x as int) < outputs.len()
    &&& forall|e: (usize, usize)| #[trigger]
        g.contains(e) ==> edge_matches(packages, outputs, e) && (e.1 < i || (e.1 == i && k > 0))
            && nodes.contains(e.0) && nodes.contains(e.1)
    &&& forall|j: int|
        0 <= j < i && standalone(*packages[j].1) ==> #[trigger] nodes.contains(j as usize)
    &&& forall|j: int, kk: int|
        0 <= j < i && 0 <= kk < composite_deps(*packages[j].1).len() ==> #[trigger] dep_linked(
            g,
            outputs,
            composite_deps(*packages[j].1)[kk]@,
            j as usize,
        )
    &&& forall|kk: int|
        0 <= kk < k && i < packages.len() ==> #[trigger] dep_linked(
            g,
            outputs,
            composite_deps(*packages[i].1)[kk]@,
            i as usize,
        )
    &&& forall|x: usize| #[trigger]
        nodes.contains(x) ==> ((x as int) < i && standalone(*packages[x as int].1)) || endpoint(
            g,
            x,
        )
}

proof fn lemma_building_add_dependency(
    packages: Seq<(&PackageName, &Package)>,
    o0: Seq<String>,
    o1: Seq<String>,
    n0: Set<usize>,
    g0: Set<(usize, usize)>,
    i: usize,
    k: int,
    a: usize,
)
    requires
        (i as int) < packages.len() <= o0.len(),
        0 <= k < composite_deps(*packages[i as int].1).len(),
        building(packages, o0, n0, g0, i as int, k),
        extends(o0, o1),
        o1 == o0 || (o1 == o0.push(o1[o0.len() as int]) && is_first(
            o1,
            o0.len() as int,
            o1[o0.len() as int]@,
        )),
        is_first(o1, a as int, composite_deps(*packages[i as int].1)[k]@),
    ensures
        building(packages, o1, n0.insert(a).insert(i), g0.insert((a, i)), i as int, k + 1),
{
    let n1 = n0.insert(a).insert(i);
    let g1 = g0.insert((a, i));
    let deps = composite_deps(*packages[i as int].1);
    assert(g0.subset_of(g1));
    assert forall|b: int| packages.len() <= b < o1.len() implies is_first(o1, b, (#[trigger] o1[b])@) by {
        if b < o0.len() {
            lemma_is_first_grow(o0, o1, b, o0[b]@);
            assert(o1[b] == o0[b]);
        }
    }
    assert forall|x: usize| #[trigger] n1.contains(x) implies (x as int) < o1.len() by {
        if x != a && x != i {
            assert(n0.contains(x));
        }
    }
    assert forall|e: (usize, usize)| #[trigger] g1.contains(e) implies edge_matches(packages, o1, e)
        && (e.1 < i || (e.1 == i && k + 1 > 0)) && n1.contains(e.0) && n1.contains(e.1) by {
        if e != (a, i) {
            assert(g0.contains(e));
            lemma_edge_matches_grow(packages, o0, o1, e);
        } else {
            assert(deps[k]@ == o1[a as int]@);
            assert(edge_matches(packages, o1, e));
        }
    }
    assert forall|j: int, kk: int|
        0 <= j < i && 0 <= kk < composite_deps(*packages[j].1).len() implies #[trigger] dep_linked(
        g1,
        o1,
        composite_deps(*packages[j].1)[kk]@,
        j as usize,
    ) by {
        lemma_dep_linked_grow(g0, g1, o0, o1, composite_deps(*packages[j].1)[kk]@, j as usize);
    }
    assert forall|kk: int| 0 <= kk < k + 1 && (i as int) < packages.len() implies #[trigger] dep_linked(
        g1,
        o1,
        composite_deps(*packages[i as int].1)[kk]@,
        i,
    ) by {
        if kk < k {
            assert(dep_linked(g0, o0, composite_deps(*packages[i as int].1)[kk]@, (i as int) as usize));
            lemma_dep_linked_grow(g0, g1, o0, o1, deps[kk]@, i);
        } else {
            assert(g1.contains((a, i)));
        }
    }
    assert forall|x: usize| #[trigger] n1.contains(x) implies ((x as int) < i && standalone(
        *packages[x as int].1,
    )) || endpoint(g1, x) by {
        if x == a || x == i {
            assert(g1.contains((a, i)));
        } else if !((x as int) < i && standalone(*packages[x as int].1)) {
            assert(n0.contains(x));
            lemma_endpoint_grow(g0, g1, x);
        }
    }
}

impl<'a> PackageDependencyIter<'a> {
    /// The packages, numbered as in the graph.
    pub closed spec fn packages_view(&self) -> Seq<(&'a PackageName, &'a Package)> {
        self.packages@
    }

    /// The output file that each graph element stands for.
    pub closed spec fn outputs_view(&self) -> Seq<String> {
        self.outputs@
    }

    /// Every dependency put into the graph.
    pub closed spec fn graph(&self) -> Set<(usize, usize)> {
        self.graph@
    }

    /// The elements still to be produced.
    pub closed spec fn remaining(&self) -> Set<usize> {
        topo_nodes(self.sort)
    }

    /// The dependencies among the elements still to be produced.
    pub closed spec fn remaining_edges(&self) -> Set<(usize, usize)> {
        topo_edges(self.sort)
    }

    /// The batch in which each produced element came.
    pub closed spec fn batch_of(&self) -> Map<usize, nat> {
        self.batch_of@
    }

    /// The number of batches produced so far.
    pub closed spec fn rounds(&self) -> nat {
        self.rounds@
    }

    pub closed spec fn wf(&self) -> bool {
        let nodes = topo_nodes(self.sort);
        let edges = topo_edges(self.sort);
        let g = self.graph@;
        let b = self.batch_of@;
        &&& self.packages@.len() <= self.outputs@.len()
        &&& forall|i: int|
            0 <= i < self.packages@.len() ==> (#[trigger] self.outputs@[i])@ == output_file_of(
                self.packages@[i].0@,
                self.packages@[i].1.output,
            )
        &&& nodes.finite()
        &&& forall|x: usize| #[trigger] nodes.contains(x) ==> (x as int) < self.outputs@.len()
        &&& forall|x: usize| #[trigger] nodes.contains(x) ==> !b.contains_key(x)
        &&& forall|e: (usize, usize)| #[trigger] edges.contains(e) ==> g.contains(e)
        &&& forall|e: (usize, usize)| #[trigger]
            g.contains(e) ==> edge_matches(self.packages@, self.outputs@, e)
        &&& forall|e: (usize, usize)| #[trigger]
            g.contains(e) ==> (nodes.contains(e.0) || b.contains_key(e.0)) && (nodes.contains(e.1)
                || b.contains_key(e.1))
        &&& forall|e: (usize, usize)| #[trigger]
            g.contains(e) && nodes.contains(e.0) && nodes.contains(e.1) ==> edges.contains(e)
        &&& forall|e: (usize, usize)| #[trigger]
            g.contains(e) && b.contains_key(e.1) ==> b.contains_key(e.0) && b[e.0] < b[e.1]
        &&& forall|x: usize| #[trigger] b.contains_key(x) ==> b[x] < self.rounds@
    }

    /// Every dependency of a composite on another package's output is kept:
    /// wherever the composite has been produced, the package it depends on
    /// came in a strictly earlier batch.
    pub proof fn lemma_dependencies_come_first(&self, prec: usize, succ: usize)
        requires
            self.wf(),
            self.graph().contains((prec, succ)),
            self.batch_of().contains_key(succ),
        ensures
            self.batch_of().contains_key(prec),
            self.batch_of()[prec] < self.batch_of()[succ],
            edge_matches(self.packages_view(), self.outputs_view(), (prec, succ)),
    {
    }
}

} // verus!

verus! {

/// The position of the first output named `name`, added at the end if none is.
fn index_or_add(outputs: &mut Vec<String>, name: &String) -> (r: usize)
    ensures
        extends(old(outputs)@, final(outputs)@),
        final(outputs)@ == old(outputs)@ || (final(outputs)@ == old(outputs)@.push(*name)
            && is_first(final(outputs)@, old(outputs)@.len() as int, name@)),
        is_first(final(outputs)@, r as int, name@),
{
    let mut j: usize = 0;
    while j < outputs.len()
        invariant
            j <= outputs@.len(),
            outputs@ == old(outputs)@,
            forall|b: int| 0 <= b < j ==> (#[trigger] outputs@[b])@ != name@,
        decreases outputs@.len() - j,
    {
        if outputs[j] == *name {
            return j;
        }
        j = j + 1;
    }
    outputs.push(name.clone());
    proof {
        assert forall|b: int| 0 <= b < j implies (#[trigger] outputs@[b])@ != name@ by {
            assert(outputs@[b] == old(outputs)@[b]);
        }
    }
    j
}

impl<'a> PackageMap<'a> {
    /// Puts the packages into a dependency graph, from which `next` takes
    /// them in batches. A composite depends on the packages whose output
    /// files it lists; other packages stand on their own, except zone images
    /// that only serve composites.
    pub fn build_order(&self) -> (r: PackageDependencyIter<'a>)
        requires
            self.wf(),
        ensures
            r.wf(),
            r.packages_view() == self.packages@,
            r.batch_of() == Map::<usize, nat>::empty(),
            r.rounds() == 0,
            r.remaining_edges() == r.graph(),
            self.packages@.len() <= r.outputs_view().len(),
            forall|i: int|
                0 <= i < self.packages@.len() ==> (#[trigger] r.outputs_view()[i])@ == output_file_of(
                    self.packages@[i].0@,
                    self.packages@[i].1.output,
                ),
            forall|a: int|
                self.packages@.len() <= a < r.outputs_view().len() ==> is_first(
                    r.outputs_view(),
                    a,
                    (#[trigger] r.outputs_view()[a])@,
                ),
            forall|e: (usize, usize)| #[trigger]
                r.graph().contains(e) ==> edge_matches(self.packages@, r.outputs_view(), e)
                    && r.remaining().contains(e.0) && r.remaining().contains(e.1),
            forall|i: int|
                0 <= i < self.packages@.len() && standalone(*self.packages@[i].1)
                    ==> #[trigger] r.remaining().contains(i as usize),
            forall|i: int, k: int|
                0 <= i < self.packages@.len() && 0 <= k < composite_deps(*self.packages@[i].1).len()
                    ==> #[trigger] dep_linked(
                    r.graph(),
                    r.outputs_view(),
                    composite_deps(*self.packages@[i].1)[k]@,
                    i as usize,
                ),
            forall|x: usize| #[trigger]
                r.remaining().contains(x) ==> ((x as int) < self.packages@.len() && standalone(
                    *self.packages@[x as int].1,
                )) || endpoint(r.graph(), x),
    {
        let n = self.packages.len();
        let mut pk: Vec<(&'a PackageName, &'a Package)> = Vec::new();
        let mut outputs: Vec<String> = Vec::new();
        let mut i: usize = 0;
        while i < n
            invariant
                n == self.packages@.len(),
                i <= n,
                pk@ == self.packages@.subrange(0, i as int),
                outputs@.len() == i,
                forall|j: int|
                    0 <= j < i ==> (#[trigger] outputs@[j])@ == output_file_of(
                        self.packages@[j].0@,
                        self.packages@[j].1.output,
                    ),
            decreases n - i,
        {
            let (name, pkg) = self.packages[i];
            pk.push((name, pkg));
            outputs.push(pkg.get_output_file(name));
            i = i + 1;
        }
        assert(pk@ == self.packages@);
        let ghost o_first = outputs@;
        let mut sort = topo_new();
        let ghost mut g: Set<(usize, usize)> = Set::empty();
        i = 0;
        while i < n
            invariant
                n == self.packages@.len(),
                pk@ == self.packages@,
                i <= n,
                o_first.len() == n,
                extends(o_first, outputs@),
                forall|j: int|
                    0 <= j < n ==> (#[trigger] o_first[j])@ == output_file_of(
                        self.packages@[j].0@,
                        self.packages@[j].1.output,
                    ),
                topo_edges(sort) == g,
                building(pk@, outputs@, topo_nodes(sort), g, i as int, 0),
            decreases n - i,
        {
            let pkg = pk[i].1;
            match &pkg.source {
                PackageSource::Composite { packages: deps } => {
                    let mut k: usize = 0;
                    while k < deps.len()
                        invariant
                            n == self.packages@.len(),
                            pk@ == self.packages@,
                            i < n,
                            *pkg == *pk@[i as int].1,
                            composite_deps(*pkg) == deps@,
                            k <= deps@.len(),
                            o_first.len() == n,
                            extends(o_first, outputs@),
                            topo_edges(sort) == g,
                            building(pk@, outputs@, topo_nodes(sort), g, i as int, k as int),
                        decreases deps@.len() - k,
                    {
                        let ghost o0 = outputs@;
                        let ghost n0 = topo_nodes(sort);
                        let a = index_or_add(&mut outputs, &deps[k]);
                        topo_add_dependency(&mut sort, a, i);
                        proof {
                            lemma_building_add_dependency(pk@, o0, outputs@, n0, g, i, k as int, a);
                            g = g.insert((a, i));
                        }
                        k = k + 1;
                    }
                    proof {
                        assert(building(pk@, outputs@, topo_nodes(sort), g, i as int + 1, 0));
                    }
                },
                _ => {
                    match pkg.output {
                        PackageOutput::Zone { intermediate_only: true } => {},
                        _ => {
                            topo_insert(&mut sort, i);
                        },
                    }
                    proof {
                        assert(building(pk@, outputs@, topo_nodes(sort), g, i as int + 1, 0));
                    }
                },
            }
            i = i + 1;
        }
        PackageDependencyIter {
            packages: pk,
            outputs,
            sort,
            graph: Ghost(g),
            batch_of: Ghost(Map::empty()),
            rounds: Ghost(0),
        }
    }
}

} // verus!

verus! {

impl<'a> PackageDependencyIter<'a> {
    /// Takes the next batch: every remaining package on which no remaining
    /// package depends. `None` once the graph is empty; `Cycle` when packages
    /// remain but none is free; `MissingDependency` when the batch holds an
    /// output file that no package creates.
    pub fn next(&mut self) -> (r: Option<Result<Vec<(&'a PackageName, &'a Package)>, PlanError>>)
        requires
            old(self).wf(),
        ensures
            final(self).wf(),
            final(self).packages_view() == old(self).packages_view(),
            final(self).outputs_view() == old(self).outputs_view(),
            final(self).graph() == old(self).graph(),
            r is None <==> old(self).remaining() == Set::<usize>::empty(),
            r is None ==> final(self).remaining() == old(self).remaining(),
            r is None ==> final(self).remaining_edges() == old(self).remaining_edges(),
            ({
                let free = ready(old(self).remaining(), old(self).remaining_edges());
                &&& r is Some ==> final(self).remaining() == old(self).remaining().difference(free)
                &&& r is Some ==> final(self).remaining_edges() == old(self).remaining_edges().filter(
                    |e: (usize, usize)| !free.contains(e.0),
                )
                &&& r is Some ==> forall|x: usize| #[trigger]
                    free.contains(x) ==> final(self).batch_of().contains_key(x)
                        && final(self).batch_of()[x] == old(self).rounds()
                &&& r == Some(Err::<Vec<(&'a PackageName, &'a Package)>, PlanError>(
                    PlanError::Cycle,
                )) <==> (old(self).remaining() != Set::<usize>::empty() && free
                    == Set::<usize>::empty())
                &&& (r matches Some(Err(PlanError::MissingDependency { .. }))) <==> exists|x: usize|
                    #[trigger] free.contains(x) && (x as int) >= old(self).packages_view().len()
                &&& r matches Some(Err(PlanError::MissingDependency { output })) ==> exists|x: usize|
                    #[trigger] free.contains(x) && (x as int) >= old(self).packages_view().len()
                        && output@ == old(self).outputs_view()[x as int]@
                &&& r matches Some(Ok(v)) ==> exists|idx: Seq<usize>|
                    {
                        &&& idx.no_duplicates()
                        &&& idx.to_set() == free
                        &&& idx.len() == v@.len()
                        &&& idx.len() > 0
                        &&& forall|k: int|
                            0 <= k < idx.len() ==> (idx[k] as int) < old(
                                self,
                            ).packages_view().len() && #[trigger] v@[k] == old(
                                self,
                            ).packages_view()[idx[k] as int]
                    }
            }),
    {
        if topo_is_empty(&self.sort) {
            return None;
        }
        let ghost old_nodes = topo_nodes(self.sort);
        let ghost old_edges = topo_edges(self.sort);
        let ghost old_b = self.batch_of@;
        let ghost round = self.rounds@;
        let batch = topo_pop_all(&mut self.sort);
        let ghost free = batch@.to_set();
        proof {
            let nb = Map::new(
                |x: usize| old_b.contains_key(x) || free.contains(x),
                |x: usize|
                    if old_b.contains_key(x) {
                        old_b[x]
                    } else {
                        round
                    },
            );
            self.batch_of = Ghost(nb);
            self.rounds = Ghost(round + 1);
            let nodes = topo_nodes(self.sort);
            let edges = topo_edges(self.sort);
            let g = self.graph@;
            assert forall|x: usize| #[trigger] free.contains(x) implies old_nodes.contains(x)
                && !old_b.contains_key(x) by {}
            assert forall|e: (usize, usize)| #[trigger]
                g.contains(e) && nb.contains_key(e.1) implies nb.contains_key(e.0) && nb[e.0]
                < nb[e.1] by {
                if free.contains(e.1) {
                    if old_nodes.contains(e.0) {
                        assert(old_edges.contains(e));
                        assert(!old_edges.contains((e.0, e.1)));
                    }
                }
            }
            assert forall|e: (usize, usize)| #[trigger]
                g.contains(e) && nodes.contains(e.0) && nodes.contains(e.1) implies edges.contains(
                e,
            ) by {
                assert(old_edges.contains(e));
            }
            assert(self.wf());
        }
        if batch.len() == 0 {
            proof {
                assert(free =~= Set::<usize>::empty());
            }
            return Some(Err(PlanError::Cycle));
        }
        proof {
            assert(free.contains(batch@[0]));
            assert forall|x: usize| #[trigger] free.contains(x) implies (x as int) < self.outputs@.len() by {
                assert(old_nodes.contains(x));
            }
        }
        let mut v: Vec<(&'a PackageName, &'a Package)> = Vec::new();
        let mut k: usize = 0;
        let ghost snap = *self;
        while k < batch.len()
            invariant
                *self == snap,
                self.wf(),
                self.packages@ == old(self).packages@,
                self.outputs@ == old(self).outputs@,
                self.graph@ == old(self).graph@,
                old_nodes == topo_nodes(old(self).sort),
                old_edges == topo_edges(old(self).sort),
                old_nodes != Set::<usize>::empty(),
                round == old(self).rounds@,
                free == ready(old_nodes, old_edges),
                topo_nodes(self.sort) == old_nodes.difference(free),
                topo_edges(self.sort) == old_edges.filter(|e: (usize, usize)| !free.contains(e.0)),
                forall|x: usize| #[trigger] free.contains(x) ==> self.batch_of@.contains_key(x)
                    && self.batch_of@[x] == round,
                k <= batch@.len(),
                v@.len() == k,
                free == batch@.to_set(),
                forall|x: usize| #[trigger] free.contains(x) ==> (x as int) < self.outputs@.len(),
                forall|j: int| 0 <= j < k ==> (#[trigger] batch@[j] as int) < self.packages@.len(),
                forall|j: int|
                    0 <= j < k ==> #[trigger] v@[j] == self.packages@[batch@[j] as int],
            decreases batch@.len() - k,
        {
            let x = batch[k];
            if x < self.packages.len() {
                v.push(self.packages[x]);
                k = k + 1;
            } else {
                proof {
                    assert(batch@.contains(x));
                    assert(free.contains(x));
                }
                return Some(Err(PlanError::MissingDependency { output: self.outputs[x].clone() }));
            }
        }
        proof {
            assert forall|x: usize| #[trigger] free.contains(x) implies (x as int)
                < self.packages@.len() by {
                assert(batch@.contains(x));
                let j = choose|j: int| 0 <= j < batch@.len() && batch@[j] == x;
                assert(batch@[j] == x);
            }
            assert(batch@.len() == v@.len());
        }
        Some(Ok(v))
    }
}

} // verus!

verus! {

/// `idx` picks, in order, exactly the positions `j` of `all` for which
/// `keep(j)` holds, and `picked` holds those entries.
pub open spec fn picks(
    all: Seq<(PackageName, Package)>,
    picked: Seq<(&PackageName, &Package)>,
    idx: Seq<int>,
    keep: spec_fn(int) -> bool,
) -> bool {
    &&& idx.len() == picked.len()
    &&& forall|k: int| 0 <= k < idx.len() ==> 0 <= #[trigger] idx[k] < all.len() && keep(idx[k])
    &&& forall|k: int, l: int| 0 <= k < l < idx.len() ==> #[trigger] idx[k] < #[trigger] idx[l]
    &&& forall|k: int|
        0 <= k < idx.len() ==> *(#[trigger] picked[k]).0 == all[idx[k]].0 && *picked[k].1
            == all[idx[k]].1
    &&& forall|j: int| 0 <= j < all.len() && #[trigger] keep(j) ==> exists|k: int| 0 <= k < idx.len() && #[trigger] idx[k] == j
}

/// The positions of `all` whose packages target `t` includes; with
/// `deploy_only`, only those that are also deployed on their own.
pub open spec fn included_at(
    all: Seq<(PackageName, Package)>,
    t: Map<Seq<char>, Seq<char>>,
    deploy_only: bool,
) -> spec_fn(int) -> bool {
    |j: int| includes(t, only_view(all[j].1)) && (deploy_only ==> deployable(all[j].1))
}

/// A package is deployed on its own unless it only serves composites.
pub open spec fn deployable(p: Package) -> bool {
    p.output != (PackageOutput::Zone { intermediate_only: true })
}

/// The configuration of a set of packages.
#[derive(Clone, Debug)]
pub struct Config {
    /// Packages to be built and installed, by name.
    pub packages: Vec<(PackageName, Package)>,
}

impl Config {
    /// Every package and name holds its invariant, and no two packages share
    /// a name.
    pub open spec fn wf(&self) -> bool {
        &&& forall|i: int|
            0 <= i < self.packages@.len() ==> (#[trigger] self.packages@[i]).1.wf()
                && self.packages@[i].0.wf()
        &&& forall|i: int, j: int|
            0 <= i < self.packages@.len() && 0 <= j < self.packages@.len() && i != j
                ==> (#[trigger] self.packages@[i]).0@ != (#[trigger] self.packages@[j]).0@
    }

    /// The packages that the target includes, to be assembled on the builder.
    pub fn packages_to_build(&self, target: &TargetMap) -> (r: PackageMap<'_>)
        requires
            self.wf(),
            target.wf(),
        ensures
            r.wf(),
            exists|idx: Seq<int>|
                #[trigger] picks(self.packages@, r.packages@, idx, included_at(self.packages@, target@, false)),
    {
        self.select(target, false)
    }

    /// The packages that the target includes and that run on the deployment
    /// machine: all but zone images that only serve composites.
    pub fn packages_to_deploy(&self, target: &TargetMap) -> (r: PackageMap<'_>)
        requires
            self.wf(),
            target.wf(),
        ensures
            r.wf(),
            exists|idx: Seq<int>|
                #[trigger] picks(self.packages@, r.packages@, idx, included_at(self.packages@, target@, true)),
    {
        self.select(target, true)
    }

    fn select(&self, target: &TargetMap, deploy_only: bool) -> (r: PackageMap<'_>)
        requires
            self.wf(),
            target.wf(),
        ensures
            r.wf(),
            exists|idx: Seq<int>|
                #[trigger] picks(self.packages@, r.packages@, idx, included_at(self.packages@, target@, deploy_only)),
    {
        let ghost keep = included_at(self.packages@, target@, deploy_only);
        let mut out: Vec<(&PackageName, &Package)> = Vec::new();
        let ghost mut idx: Seq<int> = Seq::empty();
        let mut i: usize = 0;
        while i < self.packages.len()
            invariant
                self.wf(),
                target.wf(),
                i <= self.packages@.len(),
                keep == included_at(self.packages@, target@, deploy_only),
                picks(self.packages@.subrange(0, i as int), out@, idx, keep),
                forall|k: int| 0 <= k < idx.len() ==> #[trigger] idx[k] < i,
            decreases self.packages@.len() - i,
        {
            let entry = &self.packages[i];
            let deployed = match entry.1.output {
                PackageOutput::Zone { intermediate_only } => !intermediate_only,
                PackageOutput::Tarball => true,
            };
            if target.includes_package(&entry.1) && (!deploy_only || deployed) {
                let ghost idx0 = idx;
                out.push((&entry.0, &entry.1));
                proof {
                    idx = idx.push(i as int);
                    assert forall|j: int| 0 <= j < i + 1 && #[trigger] keep(j) implies exists|k: int|
                        0 <= k < idx.len() && #[trigger] idx[k] == j by {
                        if j < i {
                            let k = choose|k: int| 0 <= k < idx0.len() && #[trigger] idx0[k] == j;
                            assert(idx[k] == j);
                        } else {
                            assert(idx[idx.len() - 1] == j);
                        }
                    }
                    assert(picks(self.packages@.subrange(0, i + 1), out@, idx, keep));
                }
            } else {
                proof {
                    assert forall|j: int| 0 <= j < i + 1 && #[trigger] keep(j) implies exists|k: int|
                        0 <= k < idx.len() && #[trigger] idx[k] == j by {
                        if j < i {
                            assert(self.packages@.subrange(0, i as int)[j] == self.packages@[j]);
                        }
                    }
                    assert(picks(self.packages@.subrange(0, i + 1), out@, idx, keep));
                }
            }
            i = i + 1;
        }
        proof {
            assert(self.packages@.subrange(0, self.packages@.len() as int) == self.packages@);
        }
        let r = PackageMap { packages: out };
        proof {
            assert(picks(self.packages@, r.packages@, idx, included_at(self.packages@, target@, deploy_only)));
        }
        r
    }
}

} // verus!
