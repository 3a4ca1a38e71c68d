//! The graph resolver: cycle-safe recursive traversal of a model's
//! ancestry over previously recorded metadata-source outcomes, and assembly
//! of the finished bill of materials.
use vstd::prelude::*;
use vstd::string::*;

use crate::component_generator::ComponentGenerator;
use crate::component_generator::dataset_ref;
use crate::component_generator::is_app_component;
use crate::component_generator::is_dataset_component;
use crate::component_generator::is_model_component;
use crate::component_generator::lemma_dataset_ref_inj;
use crate::component_generator::lemma_model_ref_inj;
use crate::component_generator::lemma_refs_distinct;
use crate::component_generator::license_text_of;
use crate::component_generator::model_ref;
use crate::component_generator::org_of;
use crate::component_generator::hf_url;
use crate::component_generator::prop_is;
use crate::license_handler::stage1_found;
use crate::model_analyzer::base_rel;
use crate::model_analyzer::edges_view;
use crate::model_analyzer::opt_view;
use crate::model_analyzer::first_rel;
use crate::model_analyzer::has_target;
use crate::model_analyzer::raw_edges;
use crate::models::AIBOM;
use crate::models::Component;
use crate::models::Dependency;
use crate::models::ExternalReference;
use crate::models::Metadata;
use crate::models::Organization;
use crate::models::Property;
use crate::models::ToolComponent;
use crate::models::Tools;
use crate::models::ModelInfo;
use crate::text::views;

verus! {

/// What the metadata source reported for one identifier: the record, or
/// that the fetch failed.
pub enum FetchOutcome {
    Fetched(ModelInfo),
    Unavailable,
}

/// The recorded outcomes of metadata fetches and license-file probes that
/// one resolution run draws on. The driver fills it as the resolver asks.
pub struct MetadataCache {
    pub models: Vec<(String, FetchOutcome)>,
    pub probes: Vec<(String, Option<String>)>,
}

/// First-match lookup in the model outcomes.
pub open spec fn assoc_model(ms: Seq<(String, FetchOutcome)>, id: Seq<char>) -> Option<FetchOutcome>
    decreases ms.len(),
{
    if ms.len() == 0 {
        None
    } else if ms[0].0@ == id {
        Some(ms[0].1)
    } else {
        assoc_model(ms.drop_first(), id)
    }
}

/// First-match lookup in the probe outcomes.
pub open spec fn assoc_probe(ps: Seq<(String, Option<String>)>, id: Seq<char>) -> Option<
    Option<String>,
>
    decreases ps.len(),
{
    if ps.len() == 0 {
        None
    } else if ps[0].0@ == id {
        Some(ps[0].1)
    } else {
        assoc_probe(ps.drop_first(), id)
    }
}

impl MetadataCache {
    /// The recorded fetch outcome for an identifier, if any.
    pub open spec fn model_at(self, id: Seq<char>) -> Option<FetchOutcome> {
        assoc_model(self.models@, id)
    }

    /// The recorded probe outcome for an identifier, if any.
    pub open spec fn probe_at(self, id: Seq<char>) -> Option<Option<String>> {
        assoc_probe(self.probes@, id)
    }

    /// The record fetched for an identifier, when the fetch succeeded.
    pub open spec fn fetched(self, id: Seq<char>) -> Option<ModelInfo> {
        match self.model_at(id) {
            Some(FetchOutcome::Fetched(m)) => Some(m),
            _ => None,
        }
    }

    /// Every fetched record describes the identifier it was recorded
    /// under. The metadata source owes this; the driver keys records by
    /// their own identifier.
    pub open spec fn consistent(self) -> bool {
        forall|id: Seq<char>|
            #[trigger] self.fetched(id) matches Some(m) ==> m.model_id@ == id
    }

    pub fn new() -> (r: Self)
        ensures
            r.models@.len() == 0,
            r.probes@.len() == 0,
    {
        MetadataCache { models: Vec::new(), probes: Vec::new() }
    }

    /// Records a fetch outcome; an identifier already recorded keeps its
    /// first outcome.
    pub fn record_model(&mut self, id: String, outcome: FetchOutcome)
        ensures
            final(self).probes@ == old(self).probes@,
            old(self).model_at(id@) is Some ==> final(self).models@ == old(self).models@,
            old(self).model_at(id@) is None ==> final(self).models@ == old(self).models@.push(
                (id, outcome),
            ),
    {
        if self.lookup_model(id.as_str()).is_none() {
            self.models.push((id, outcome));
        }
    }

    /// Records a probe outcome; an identifier already recorded keeps its
    /// first outcome.
    pub fn record_probe(&mut self, id: String, found_url: Option<String>)
        ensures
            final(self).models@ == old(self).models@,
            old(self).probe_at(id@) is Some ==> final(self).probes@ == old(self).probes@,
            old(self).probe_at(id@) is None ==> final(self).probes@ == old(self).probes@.push(
                (id, found_url),
            ),
    {
        if self.lookup_probe(id.as_str()).is_none() {
            self.probes.push((id, found_url));
        }
    }

    /// The recorded fetch outcome for an identifier.
    pub fn lookup_model<'a>(&'a self, id: &str) -> (r: Option<&'a FetchOutcome>)
        ensures
            match r {
                Some(o) => self.model_at(id@) == Some(*o),
                None => self.model_at(id@) is None,
            },
    {
        proof {
            assert(self.models@.skip(0) =~= self.models@);
        }
        let mut i: usize = 0;
        while i < self.models.len()
            invariant
                i <= self.models@.len(),
                assoc_model(self.models@, id@) == assoc_model(self.models@.skip(i as int), id@),
            decreases self.models@.len() - i,
        {
            proof {
                assert(self.models@.skip(i as int).drop_first() =~= self.models@.skip(i + 1));
                assert(self.models@.skip(i as int)[0] == self.models@[i as int]);
            }
            if crate::text::str_eq(self.models[i].0.as_str(), id) {
                return Some(&self.models[i].1);
            }
            i = i + 1;
        }
        proof {
            assert(self.models@.skip(self.models@.len() as int).len() == 0);
        }
        None
    }

    /// The recorded probe outcome for an identifier.
    pub fn lookup_probe<'a>(&'a self, id: &str) -> (r: Option<&'a Option<String>>)
        ensures
            match r {
                Some(o) => self.probe_at(id@) == Some(*o),
                None => self.probe_at(id@) is None,
            },
    {
        proof {
            assert(self.probes@.skip(0) =~= self.probes@);
        }
        let mut i: usize = 0;
        while i < self.probes.len()
            invariant
                i <= self.probes@.len(),
                assoc_probe(self.probes@, id@) == assoc_probe(self.probes@.skip(i as int), id@),
            decreases self.probes@.len() - i,
        {
            proof {
                assert(self.probes@.skip(i as int).drop_first() =~= self.probes@.skip(i + 1));
                assert(self.probes@.skip(i as int)[0] == self.probes@[i as int]);
            }
            if crate::text::str_eq(self.probes[i].0.as_str(), id) {
                return Some(&self.probes[i].1);
            }
            i = i + 1;
        }
        proof {
            assert(self.probes@.skip(self.probes@.len() as int).len() == 0);
        }
        None
    }
}

/// Some string of `v` holds the characters `id`.
pub open spec fn seq_has(v: Seq<String>, id: Seq<char>) -> bool {
    exists|i: int| 0 <= i < v.len() && (#[trigger] v[i])@ == id
}

/// `t` is a model dependency of the record: a declared non-self target
/// whose first relation is not the dataset relation.
pub open spec fn is_model_target(m: ModelInfo, t: Seq<char>) -> bool {
    &&& has_target(raw_edges(m), t)
    &&& t != m.model_id@
    &&& first_rel(raw_edges(m), t) != Some("train"@)
}

/// `t` is a dataset dependency of the record: a declared non-self target
/// whose first relation is the dataset relation.
pub open spec fn is_dataset_target(m: ModelInfo, t: Seq<char>) -> bool {
    &&& has_target(raw_edges(m), t)
    &&& t != m.model_id@
    &&& first_rel(raw_edges(m), t) == Some("train"@)
}

/// The record declares at least one dependency.
pub open spec fn has_any_dep(m: ModelInfo) -> bool {
    exists|t: Seq<char>| is_model_target(m, t) || is_dataset_target(m, t)
}

/// The relation attached to the node's own component: the relation of its
/// base-model edges, when a base model is declared.
pub open spec fn node_relation(m: ModelInfo) -> Option<Seq<char>> {
    match m.card_data {
        Some(cd) => if cd.base_model is Some {
            base_rel(m, cd)
        } else {
            None
        },
        None => None,
    }
}

/// The record's license text needs the remote probe: there is one, and
/// canonical matching fails on it.
pub open spec fn needs_probe(m: ModelInfo) -> bool {
    license_text_of(m) matches Some(lt) && !stage1_found(lt)
}

/// `x` is the root, or reachable from it through at most `n` model edges
/// of fetched records.
pub open spec fn reaches_within(
    cache: MetadataCache,
    root: Seq<char>,
    x: Seq<char>,
    n: nat,
) -> bool
    decreases n,
{
    x == root || (n > 0 && exists|p: Seq<char>|
        reaches_within(cache, root, p, (n - 1) as nat) && #[trigger] cache.fetched(p) is Some
            && is_model_target(cache.fetched(p)->0, x))
}

/// `x` is the root, or reachable from it through model edges of fetched
/// records: exactly the identifiers a resolution from `root` can ask
/// about.
pub open spec fn reaches(cache: MetadataCache, root: Seq<char>, x: Seq<char>) -> bool {
    exists|n: nat| reaches_within(cache, root, x, n)
}

proof fn lemma_reaches_root(cache: MetadataCache, root: Seq<char>)
    ensures
        reaches(cache, root, root),
{
    assert(reaches_within(cache, root, root, 0));
}

proof fn lemma_reaches_step(cache: MetadataCache, root: Seq<char>, p: Seq<char>, x: Seq<char>)
    requires
        reaches(cache, root, p),
        cache.fetched(p) is Some,
        is_model_target(cache.fetched(p)->0, x),
    ensures
        reaches(cache, root, x),
{
    let n = choose|n: nat| reaches_within(cache, root, p, n);
    assert(reaches_within(cache, root, x, n + 1));
}

/// Every outcome a resolution from `root` could ask about is recorded:
/// the root's own record was fetched, every reachable identifier has a
/// recorded fetch outcome, and every reachable fetched record whose
/// license needs the remote probe has a recorded probe outcome. Under a
/// closed cache a resolution must complete.
pub open spec fn cache_closed(cache: MetadataCache, root: Seq<char>) -> bool {
    &&& cache.fetched(root) is Some
    &&& forall|x: Seq<char>| #[trigger] reaches(cache, root, x) ==> cache.model_at(x) is Some
    &&& forall|x: Seq<char>|
        #[trigger] reaches(cache, root, x) && cache.fetched(x) is Some && needs_probe(
            cache.fetched(x)->0,
        ) ==> cache.probe_at(x) is Some
}

/// The probe outcome `pr` is the one recorded for the record, whenever the
/// record needs the probe at all.
pub open spec fn probe_consistent(cache: MetadataCache, m: ModelInfo, pr: Option<Seq<char>>) -> bool {
    needs_probe(m) ==> (cache.probe_at(m.model_id@) matches Some(p)
        && crate::model_analyzer::opt_view(p) == pr)
}

/// The accumulated result of one resolution run: every node visited, the
/// component of each resolved node and dataset, and the dependency entry
/// of each node that declared dependencies.
pub struct ResolutionGraph {
    pub components: Vec<Component>,
    pub dependencies: Vec<Dependency>,
    pub visited: Vec<String>,
    pub datasets: Vec<String>,
    pub root: Ghost<Seq<char>>,
}

/// `id` is fully resolved: visited, not under expansion, and its record
/// was fetched.
pub open spec fn closed_model(
    g: ResolutionGraph,
    cache: MetadataCache,
    open: Seq<Seq<char>>,
    id: Seq<char>,
) -> bool {
    &&& seq_has(g.visited@, id)
    &&& !open.contains(id)
    &&& cache.fetched(id) is Some
}

/// One dependency reference of the entry for record `m` is the stable
/// reference of one of its declared targets.
pub open spec fn dep_ref_ok(r: Seq<char>, m: ModelInfo) -> bool {
    ||| exists|t: Seq<char>| is_model_target(m, t) && r == model_ref(t)
    ||| exists|t: Seq<char>| is_dataset_target(m, t) && r == dataset_ref(t)
}

/// The dependency entry of record `m`: every reference belongs to a
/// declared target, and every declared target is referenced.
pub open spec fn dep_entry_ok(d: Dependency, m: ModelInfo) -> bool {
    &&& forall|i: int|
        0 <= i < d.depends_on@.len() ==> dep_ref_ok((#[trigger] d.depends_on@[i])@, m)
    &&& forall|t: Seq<char>| is_model_target(m, t) ==> seq_has(d.depends_on@, model_ref(t))
    &&& forall|t: Seq<char>| is_dataset_target(m, t) ==> seq_has(d.depends_on@, dataset_ref(t))
}

/// One component of the graph: either the component of a resolved model
/// node, built from its record with its relation and probe outcome, or the
/// component of a recorded dataset leaf.
pub open spec fn comp_ok(
    g: ResolutionGraph,
    cache: MetadataCache,
    open: Seq<Seq<char>>,
    c: Component,
) -> bool {
    ||| exists|id: Seq<char>|
        #[trigger] closed_model(g, cache, open, id) && (cache.fetched(id) matches Some(m) && (
        exists|pr: Option<Seq<char>>|
            is_model_component(c, m, node_relation(m), pr) && probe_consistent(cache, m, pr)))
    ||| exists|d: Seq<char>| #[trigger] seq_has(g.datasets@, d) && is_dataset_component(c, d)
}

/// Some visited node's record declares `d` as a dataset dependency.
pub open spec fn dataset_witnessed(g: ResolutionGraph, cache: MetadataCache, d: Seq<char>) -> bool {
    exists|p: Seq<char>|
        seq_has(g.visited@, p) && #[trigger] cache.fetched(p) is Some && is_dataset_target(
            cache.fetched(p)->0,
            d,
        )
}

/// A component carrying the dataset reference of `d` was emitted.
pub open spec fn dataset_comp_present(g: ResolutionGraph, d: Seq<char>) -> bool {
    exists|i: int|
        0 <= i < g.components@.len() && (#[trigger] g.components@[i]).bom_ref@ == dataset_ref(d)
}

/// A component carrying the model reference of `id` was emitted.
pub open spec fn model_comp_present(g: ResolutionGraph, id: Seq<char>) -> bool {
    exists|i: int|
        0 <= i < g.components@.len() && (#[trigger] g.components@[i]).bom_ref@ == model_ref(id)
}

/// Entry `k` of the dependency list belongs to one resolved node and
/// references exactly that node's declared targets.
pub open spec fn dep_entry_at(
    g: ResolutionGraph,
    cache: MetadataCache,
    open: Seq<Seq<char>>,
    k: int,
) -> bool {
    exists|id: Seq<char>|
        #[trigger] closed_model(g, cache, open, id) && g.dependencies@[k].reference@ == model_ref(
            id,
        ) && cache.fetched(id) is Some && dep_entry_ok(
            g.dependencies@[k],
            cache.fetched(id)->0,
        ) && g.dependencies@[k].depends_on@.len() > 0
}

/// A dependency entry keyed by the model reference of `id` is present.
pub open spec fn dep_entry_present(g: ResolutionGraph, id: Seq<char>) -> bool {
    exists|k: int|
        0 <= k < g.dependencies@.len() && (#[trigger] g.dependencies@[k]).reference@ == model_ref(
            id,
        )
}

/// The visit of `id` is accounted for: it is the run's root, or some
/// visited record declares it as a model dependency.
pub open spec fn visit_justified(g: ResolutionGraph, cache: MetadataCache, id: Seq<char>) -> bool {
    id == g.root@ || exists|p: Seq<char>|
        seq_has(g.visited@, p) && #[trigger] cache.fetched(p) is Some && is_model_target(
            cache.fetched(p)->0,
            id,
        )
}

/// Well-formedness of the run's state while the identifiers of `open` are
/// still being expanded: the visited set starts at the root and is closed
/// under resolved model edges, each resolved node and each recorded
/// dataset has exactly one component, and each resolved node that declared
/// dependencies has exactly one dependency entry.
pub open spec fn graph_wf(g: ResolutionGraph, cache: MetadataCache, open: Seq<Seq<char>>) -> bool {
    &&& views(g.visited@).no_duplicates()
    &&& seq_has(g.visited@, g.root@)
    &&& forall|id: Seq<char>| seq_has(g.visited@, id) ==> #[trigger] cache.model_at(id) is Some
    &&& forall|id: Seq<char>| #[trigger] seq_has(g.visited@, id) ==> visit_justified(g, cache, id)
    &&& forall|id: Seq<char>| #[trigger] seq_has(g.visited@, id) ==> reaches(cache, g.root@, id)
    &&& open.no_duplicates()
    &&& forall|k: int|
        0 <= k < open.len() ==> seq_has(g.visited@, #[trigger] open[k]) && cache.fetched(open[k])
            is Some
    &&& forall|id: Seq<char>|
        #[trigger] closed_model(g, cache, open, id) ==> (cache.fetched(id) matches Some(m)
            ==> forall|t: Seq<char>| is_model_target(m, t) ==> seq_has(g.visited@, t))
    &&& forall|id: Seq<char>|
        #[trigger] closed_model(g, cache, open, id) ==> (cache.fetched(id) matches Some(m)
            ==> forall|t: Seq<char>| is_dataset_target(m, t) ==> seq_has(g.datasets@, t))
    &&& forall|i: int|
        0 <= i < g.components@.len() ==> comp_ok(g, cache, open, #[trigger] g.components@[i])
    &&& forall|i: int, j: int|
        0 <= i < j < g.components@.len() ==> (#[trigger] g.components@[i]).bom_ref@ != (
        #[trigger] g.components@[j]).bom_ref@
    &&& forall|id: Seq<char>|
        #[trigger] closed_model(g, cache, open, id) ==> model_comp_present(g, id)
    &&& views(g.datasets@).no_duplicates()
    &&& forall|k: int|
        0 <= k < g.datasets@.len() ==> dataset_witnessed(g, cache, (#[trigger] g.datasets@[k])@)
    &&& forall|k: int|
        0 <= k < g.datasets@.len() ==> dataset_comp_present(g, (#[trigger] g.datasets@[k])@)
    &&& forall|k: int| 0 <= k < g.dependencies@.len() ==> #[trigger] dep_entry_at(g, cache, open, k)
    &&& forall|k: int, l: int|
        0 <= k < l < g.dependencies@.len() ==> (#[trigger] g.dependencies@[k]).reference@ != (
        #[trigger] g.dependencies@[l]).reference@
    &&& forall|id: Seq<char>|
        #[trigger] closed_model(g, cache, open, id) ==> (cache.fetched(id) matches Some(m)
            ==> (has_any_dep(m) ==> dep_entry_present(g, id)))
}

/// A missing piece of information the driver must supply before the run
/// can go further.
pub enum Need {
    Model(String),
    Probe(String),
}

/// The keys under which model outcomes were recorded.
pub open spec fn model_keys(ms: Seq<(String, FetchOutcome)>) -> Seq<Seq<char>> {
    ms.map_values(|p: (String, FetchOutcome)| p.0@)
}

proof fn lemma_assoc_model_key(ms: Seq<(String, FetchOutcome)>, id: Seq<char>)
    requires
        assoc_model(ms, id) is Some,
    ensures
        model_keys(ms).contains(id),
    decreases ms.len(),
{
    if ms.len() != 0 {
        if ms[0].0@ == id {
            assert(model_keys(ms)[0] == id);
        } else {
            lemma_assoc_model_key(ms.drop_first(), id);
            let w = choose|w: int|
                0 <= w < model_keys(ms.drop_first()).len() && model_keys(ms.drop_first())[w] == id;
            assert(model_keys(ms.drop_first())[w] == ms.drop_first()[w].0@);
            assert(ms.drop_first()[w] == ms[w + 1]);
            assert(model_keys(ms)[w + 1] == id);
        }
    }
}

/// Distinct visited identifiers that all have recorded outcomes cannot
/// outnumber the recorded outcomes; this bounds the recursion.
proof fn lemma_visited_bound(vis: Seq<String>, cache: MetadataCache)
    requires
        views(vis).no_duplicates(),
        forall|id: Seq<char>| seq_has(vis, id) ==> #[trigger] cache.model_at(id) is Some,
    ensures
        vis.len() <= cache.models@.len(),
{
    broadcast use vstd::seq_lib::seq_to_set_is_finite;
    broadcast use vstd::set::group_set_axioms;

    let vv = views(vis);
    let keys = model_keys(cache.models@);
    assert forall|x: Seq<char>| vv.to_set().contains(x) implies keys.to_set().contains(x) by {
        assert(vv.contains(x));
        let w = choose|w: int| 0 <= w < vv.len() && vv[w] == x;
        assert(vv[w] == vis[w]@);
        assert(seq_has(vis, x));
        assert(cache.model_at(x) is Some);
        lemma_assoc_model_key(cache.models@, x);
        assert(keys.contains(x));
    }
    assert(vv.to_set().subset_of(keys.to_set()));
    vv.unique_seq_to_set();
    keys.lemma_cardinality_of_set();
    vstd::set_lib::lemma_len_subset(vv.to_set(), keys.to_set());
    assert(vv.len() == vis.len());
}

proof fn lemma_seq_has_views(v: Seq<String>)
    ensures
        forall|x: Seq<char>| #[trigger] seq_has(v, x) <==> views(v).contains(x),
{
    assert forall|x: Seq<char>| #[trigger] seq_has(v, x) implies views(v).contains(x) by {
        let w = choose|w: int| 0 <= w < v.len() && (#[trigger] v[w])@ == x;
        assert(views(v)[w] == x);
    }
    assert forall|x: Seq<char>| views(v).contains(x) implies #[trigger] seq_has(v, x) by {
        let w = choose|w: int| 0 <= w < views(v).len() && views(v)[w] == x;
        assert(v[w]@ == x);
    }
}

proof fn lemma_views_push(v: Seq<String>, s: String)
    ensures
        views(v.push(s)) == views(v).push(s@),
{
    assert(views(v.push(s)) =~= views(v).push(s@));
}

proof fn lemma_seq_has_push(v: Seq<String>, s: String)
    ensures
        forall|x: Seq<char>| #[trigger] seq_has(v, x) ==> seq_has(v.push(s), x),
        forall|x: Seq<char>| #[trigger] seq_has(v.push(s), x) ==> seq_has(v, x) || s@ == x,
        seq_has(v.push(s), s@),
{
    assert forall|x: Seq<char>| #[trigger] seq_has(v, x) implies seq_has(v.push(s), x) by {
        let w = choose|w: int| 0 <= w < v.len() && (#[trigger] v[w])@ == x;
        assert(v.push(s)[w]@ == x);
    }
    assert forall|x: Seq<char>| #[trigger] seq_has(v.push(s), x) implies seq_has(v, x) || s@
        == x by {
        let w = choose|w: int| 0 <= w < v.push(s).len() && (#[trigger] v.push(s)[w])@ == x;
        if w < v.len() {
            assert(v[w]@ == x);
        }
    }
    assert(v.push(s)[v.len() as int]@ == s@);
}

/// Visited identifiers, recorded datasets and resolved nodes only grow
/// during a run, so a component stays accounted for.
proof fn lemma_comp_ok_mono(
    g1: ResolutionGraph,
    g2: ResolutionGraph,
    cache: MetadataCache,
    open1: Seq<Seq<char>>,
    open2: Seq<Seq<char>>,
    c: Component,
)
    requires
        comp_ok(g1, cache, open1, c),
        forall|x: Seq<char>| #[trigger] seq_has(g1.datasets@, x) ==> seq_has(g2.datasets@, x),
        forall|x: Seq<char>|
            #[trigger] closed_model(g1, cache, open1, x) ==> closed_model(g2, cache, open2, x),
    ensures
        comp_ok(g2, cache, open2, c),
{
}

/// Marking an unvisited identifier visited keeps the run well-formed:
/// under the grown expansion set when its record was fetched, under the
/// same one when the fetch had failed.
#[verifier::rlimit(100)]
#[verifier::spinoff_prover]
proof fn lemma_wf_after_visit_push(
    gpre: ResolutionGraph,
    g2: ResolutionGraph,
    cache: MetadataCache,
    open0: Seq<Seq<char>>,
    parent: Seq<char>,
    t: Seq<char>,
    newly_open: bool,
)
    requires
        graph_wf(gpre, cache, open0),
        seq_has(gpre.visited@, parent),
        cache.fetched(parent) matches Some(pm) && is_model_target(pm, t),
        g2.components == gpre.components,
        g2.dependencies == gpre.dependencies,
        g2.datasets == gpre.datasets,
        g2.root == gpre.root,
        exists|s: String| g2.visited@ == gpre.visited@.push(s) && (#[trigger] s@) == t,
        !seq_has(gpre.visited@, t),
        cache.model_at(t) is Some,
        newly_open <==> cache.fetched(t) is Some,
    ensures
        newly_open ==> graph_wf(g2, cache, open0.push(t)),
        !newly_open ==> graph_wf(g2, cache, open0),
        forall|x: Seq<char>| #[trigger] seq_has(gpre.visited@, x) ==> seq_has(g2.visited@, x),
        seq_has(g2.visited@, t),
{
    let s = choose|s: String| g2.visited@ == gpre.visited@.push(s) && (#[trigger] s@) == t;
    lemma_views_push(gpre.visited@, s);
    lemma_seq_has_push(gpre.visited@, s);
    lemma_seq_has_views(gpre.visited@);
    lemma_seq_has_views(g2.visited@);
    let open2 = if newly_open {
        open0.push(t)
    } else {
        open0
    };
    // the new visited list has no duplicates
    assert forall|i: int, j: int|
        0 <= i < j < views(g2.visited@).len() implies views(g2.visited@)[i] != views(
        g2.visited@,
    )[j] by {
        if j == views(gpre.visited@).len() {
            assert(views(g2.visited@)[i] == views(gpre.visited@)[i]);
            assert(views(gpre.visited@)[i] == gpre.visited@[i]@);
            assert(seq_has(gpre.visited@, gpre.visited@[i]@));
        }
    }
    // t is not among the open identifiers
    assert forall|k: int| 0 <= k < open0.len() implies open0[k] != t by {
        assert(seq_has(gpre.visited@, open0[k]));
    }
    if newly_open {
        assert(open2[open0.len() as int] == t);
        assert forall|i: int, j: int| 0 <= i < j < open2.len() implies open2[i] != open2[j] by {
            if j < open0.len() {
                assert(open2[i] == open0[i] && open2[j] == open0[j]);
            } else {
                assert(open2[j] == t);
                if i < open0.len() {
                    assert(open2[i] == open0[i]);
                }
            }
        }
        assert forall|k: int|
            0 <= k < open2.len() implies seq_has(g2.visited@, open2[k]) && cache.fetched(open2[k])
                is Some by {
            if k < open0.len() {
                assert(open2[k] == open0[k]);
                assert(seq_has(gpre.visited@, open0[k]));
            } else {
                assert(open2[k] == t);
            }
        }
    }
    // every visit stays accounted for, including the new one
    assert forall|id: Seq<char>| #[trigger] seq_has(g2.visited@, id) implies visit_justified(
        g2,
        cache,
        id,
    ) by {
        if id == t {
            assert(seq_has(g2.visited@, parent));
            assert(cache.fetched(parent) is Some && is_model_target(cache.fetched(parent)->0, t));
        } else {
            assert(seq_has(gpre.visited@, id));
            assert(visit_justified(gpre, cache, id));
            if id != gpre.root@ {
                let p = choose|p: Seq<char>|
                    seq_has(gpre.visited@, p) && #[trigger] cache.fetched(p) is Some
                        && is_model_target(cache.fetched(p)->0, id);
                assert(seq_has(g2.visited@, p));
            }
        }
    }
    assert forall|x: Seq<char>| #[trigger] seq_has(g2.visited@, x) implies reaches(
        cache,
        g2.root@,
        x,
    ) by {
        if x == t {
            assert(seq_has(gpre.visited@, parent));
            assert(reaches(cache, gpre.root@, parent));
            lemma_reaches_step(cache, gpre.root@, parent, t);
        } else {
            assert(seq_has(gpre.visited@, x));
        }
    }
    // the closed identifiers are exactly the old ones
    assert forall|x: Seq<char>| #[trigger] closed_model(g2, cache, open2, x) implies closed_model(
        gpre,
        cache,
        open0,
        x,
    ) by {
        if x == t {
            if newly_open {
                assert(open2.contains(t));
            } else {
                assert(cache.fetched(t) is None);
            }
            assert(false);
        } else {
            assert(seq_has(gpre.visited@, x));
            if newly_open {
                assert(!open0.contains(x)) by {
                    if open0.contains(x) {
                        let w = choose|w: int| 0 <= w < open0.len() && open0[w] == x;
                        assert(open2[w] == x);
                    }
                }
            }
        }
    }
    assert forall|x: Seq<char>| #[trigger] closed_model(gpre, cache, open0, x) implies closed_model(
        g2,
        cache,
        open2,
        x,
    ) by {
        assert(seq_has(g2.visited@, x));
        assert(x != t);
        if newly_open && open2.contains(x) {
            let w = choose|w: int| 0 <= w < open2.len() && open2[w] == x;
            if w < open0.len() {
                assert(open0[w] == x);
            }
        }
    }
    // components, datasets and dependency entries carry over unchanged
    assert forall|i: int|
        0 <= i < g2.components@.len() implies comp_ok(
        g2,
        cache,
        open2,
        #[trigger] g2.components@[i],
    ) by {
        lemma_comp_ok_mono(gpre, g2, cache, open0, open2, gpre.components@[i]);
    }
    assert forall|x: Seq<char>| #[trigger] closed_model(g2, cache, open2, x) implies model_comp_present(
        g2,
        x,
    ) by {
        assert(closed_model(gpre, cache, open0, x));
        assert(model_comp_present(gpre, x));
        let i = choose|i: int|
            0 <= i < gpre.components@.len() && (#[trigger] gpre.components@[i]).bom_ref@
                == model_ref(x);
        assert(g2.components@[i].bom_ref@ == model_ref(x));
    }
    assert forall|k: int| 0 <= k < g2.datasets@.len() implies dataset_witnessed(
        g2,
        cache,
        (#[trigger] g2.datasets@[k])@,
    ) by {
        assert(gpre.datasets@[k] == g2.datasets@[k]);
        assert(dataset_witnessed(gpre, cache, gpre.datasets@[k]@));
        let p = choose|p: Seq<char>|
            seq_has(gpre.visited@, p) && #[trigger] cache.fetched(p) is Some && is_dataset_target(
                cache.fetched(p)->0,
                gpre.datasets@[k]@,
            );
        assert(seq_has(g2.visited@, p));
    }
    assert forall|k: int| 0 <= k < g2.datasets@.len() implies dataset_comp_present(
        g2,
        (#[trigger] g2.datasets@[k])@,
    ) by {
        assert(gpre.datasets@[k] == g2.datasets@[k]);
        assert(dataset_comp_present(gpre, gpre.datasets@[k]@));
        let i = choose|i: int|
            0 <= i < gpre.components@.len() && (#[trigger] gpre.components@[i]).bom_ref@
                == dataset_ref(gpre.datasets@[k]@);
        assert(g2.components@[i].bom_ref@ == dataset_ref(g2.datasets@[k]@));
    }
    assert forall|k: int| 0 <= k < g2.dependencies@.len() implies #[trigger] dep_entry_at(
        g2,
        cache,
        open2,
        k,
    ) by {
        assert(dep_entry_at(gpre, cache, open0, k));
        let id = choose|id: Seq<char>|
            #[trigger] closed_model(gpre, cache, open0, id) && gpre.dependencies@[k].reference@
                == model_ref(id) && cache.fetched(id) is Some && dep_entry_ok(
                gpre.dependencies@[k],
                cache.fetched(id)->0,
            ) && gpre.dependencies@[k].depends_on@.len() > 0;
        assert(closed_model(g2, cache, open2, id));
        assert(g2.dependencies@[k] == gpre.dependencies@[k]);
    }
    assert forall|x: Seq<char>|
        #[trigger] closed_model(g2, cache, open2, x) implies (cache.fetched(x) matches Some(m)
            ==> (has_any_dep(m) ==> dep_entry_present(g2, x))) by {
        assert(closed_model(gpre, cache, open0, x));
        if cache.fetched(x) matches Some(m) && has_any_dep(m) {
            assert(dep_entry_present(gpre, x));
            let k = choose|k: int|
                0 <= k < gpre.dependencies@.len() && (#[trigger] gpre.dependencies@[k]).reference@
                    == model_ref(x);
            assert(g2.dependencies@[k].reference@ == model_ref(x));
        }
    }
    assert(graph_wf(g2, cache, open2));
}

/// Closing the node under expansion keeps the run well-formed: every
/// target it declared is resolved or recorded, its component and, when it
/// declared dependencies, its dependency entry are appended, and it
/// leaves the expansion set.
#[verifier::rlimit(100)]
#[verifier::spinoff_prover]
proof fn lemma_wf_close(
    gpre: ResolutionGraph,
    g2: ResolutionGraph,
    cache: MetadataCache,
    anc: Seq<Seq<char>>,
    id: Seq<char>,
    c: Component,
    added_dep: bool,
)
    requires
        cache.consistent(),
        graph_wf(gpre, cache, anc.push(id)),
        cache.fetched(id) is Some,
        forall|t: Seq<char>|
            is_model_target(cache.fetched(id)->0, t) ==> seq_has(gpre.visited@, t),
        forall|t: Seq<char>|
            is_dataset_target(cache.fetched(id)->0, t) ==> seq_has(gpre.datasets@, t),
        exists|pr: Option<Seq<char>>|
            is_model_component(c, cache.fetched(id)->0, node_relation(cache.fetched(id)->0), pr)
                && probe_consistent(cache, cache.fetched(id)->0, pr),
        g2.visited == gpre.visited,
        g2.datasets == gpre.datasets,
        g2.root == gpre.root,
        g2.components@ == gpre.components@.push(c),
        added_dep ==> g2.dependencies@.len() == gpre.dependencies@.len() + 1
            && g2.dependencies@ == gpre.dependencies@.push(
            g2.dependencies@[g2.dependencies@.len() - 1],
        ) && g2.dependencies@[g2.dependencies@.len() - 1].reference@ == model_ref(id)
            && dep_entry_ok(
            g2.dependencies@[g2.dependencies@.len() - 1],
            cache.fetched(id)->0,
        ) && g2.dependencies@[g2.dependencies@.len() - 1].depends_on@.len() > 0,
        !added_dep ==> g2.dependencies@ == gpre.dependencies@ && !has_any_dep(
            cache.fetched(id)->0,
        ),
    ensures
        graph_wf(g2, cache, anc),
{
    let open0 = anc.push(id);
    let m = cache.fetched(id)->0;
    assert(open0[anc.len() as int] == id);
    assert(seq_has(gpre.visited@, id));
    assert(!anc.contains(id)) by {
        if anc.contains(id) {
            let w = choose|w: int| 0 <= w < anc.len() && anc[w] == id;
            assert(open0[w] == id);
        }
    }
    assert(anc.no_duplicates()) by {
        assert forall|i: int, j: int| 0 <= i < j < anc.len() implies anc[i] != anc[j] by {
            assert(open0[i] == anc[i] && open0[j] == anc[j]);
        }
    }
    assert forall|k: int|
        0 <= k < anc.len() implies seq_has(g2.visited@, #[trigger] anc[k]) && cache.fetched(anc[k])
            is Some by {
        assert(open0[k] == anc[k]);
    }
    // the closed identifiers gain exactly `id`
    assert forall|x: Seq<char>|
        #[trigger] closed_model(g2, cache, anc, x) && x != id implies closed_model(
        gpre,
        cache,
        open0,
        x,
    ) by {
        if open0.contains(x) {
            let w = choose|w: int| 0 <= w < open0.len() && open0[w] == x;
            if w < anc.len() {
                assert(anc[w] == x);
            }
        }
    }
    assert forall|x: Seq<char>| #[trigger] closed_model(gpre, cache, open0, x) implies closed_model(
        g2,
        cache,
        anc,
        x,
    ) by {
        if anc.contains(x) {
            let w = choose|w: int| 0 <= w < anc.len() && anc[w] == x;
            assert(open0[w] == x);
        }
    }
    assert(closed_model(g2, cache, anc, id));
    assert(!closed_model(gpre, cache, open0, id)) by {
        assert(open0.contains(id));
    }
    // the new component carries the model reference of `id`
    assert(c.bom_ref@ == model_ref(id)) by {
        let pr = choose|pr: Option<Seq<char>>|
            is_model_component(c, m, node_relation(m), pr) && probe_consistent(cache, m, pr);
        assert(cache.fetched(id) matches Some(mm) ==> mm.model_id@ == id);
        assert(m.model_id@ == id);
    }
    // no earlier component carries it
    assert forall|i: int|
        0 <= i < gpre.components@.len() implies (#[trigger] gpre.components@[i]).bom_ref@
        != model_ref(id) by {
        assert(comp_ok(gpre, cache, open0, gpre.components@[i]));
        let ci = gpre.components@[i];
        if exists|q: Seq<char>|
            #[trigger] closed_model(gpre, cache, open0, q) && (cache.fetched(q) matches Some(mm)
                && (exists|pr: Option<Seq<char>>|
                is_model_component(ci, mm, node_relation(mm), pr) && probe_consistent(
                    cache,
                    mm,
                    pr,
                ))) {
            let q = choose|q: Seq<char>|
                #[trigger] closed_model(gpre, cache, open0, q) && (cache.fetched(q) matches Some(
                    mm,
                ) && (exists|pr: Option<Seq<char>>|
                    is_model_component(ci, mm, node_relation(mm), pr) && probe_consistent(
                        cache,
                        mm,
                        pr,
                    )));
            assert(cache.fetched(q)->0.model_id@ == q);
            assert(ci.bom_ref@ == model_ref(q));
            if ci.bom_ref@ == model_ref(id) {
                lemma_model_ref_inj(q, id);
            }
        } else {
            let d = choose|d: Seq<char>| #[trigger] seq_has(gpre.datasets@, d)
                && is_dataset_component(ci, d);
            assert(ci.bom_ref@ == dataset_ref(d));
            lemma_refs_distinct(id, d);
        }
    }
    // visits stay accounted for
    assert forall|x: Seq<char>| #[trigger] seq_has(g2.visited@, x) implies visit_justified(
        g2,
        cache,
        x,
    ) by {
        assert(seq_has(gpre.visited@, x));
        assert(visit_justified(gpre, cache, x));
        if x != gpre.root@ {
            let p = choose|p: Seq<char>|
                seq_has(gpre.visited@, p) && #[trigger] cache.fetched(p) is Some
                    && is_model_target(cache.fetched(p)->0, x);
            assert(seq_has(g2.visited@, p));
        }
    }
    assert forall|x: Seq<char>| #[trigger] seq_has(g2.visited@, x) implies reaches(
        cache,
        g2.root@,
        x,
    ) by {
        assert(seq_has(gpre.visited@, x));
    }
    // resolved nodes keep their targets resolved and recorded
    assert forall|x: Seq<char>|
        #[trigger] closed_model(g2, cache, anc, x) implies (cache.fetched(x) matches Some(mm)
            ==> forall|t: Seq<char>| is_model_target(mm, t) ==> seq_has(g2.visited@, t)) by {
        if x != id {
            assert(closed_model(gpre, cache, open0, x));
        }
    }
    assert forall|x: Seq<char>|
        #[trigger] closed_model(g2, cache, anc, x) implies (cache.fetched(x) matches Some(mm)
            ==> forall|t: Seq<char>| is_dataset_target(mm, t) ==> seq_has(g2.datasets@, t)) by {
        if x != id {
            assert(closed_model(gpre, cache, open0, x));
        }
    }
    // every component is accounted for, the new one by `id`
    assert forall|i: int|
        0 <= i < g2.components@.len() implies comp_ok(
        g2,
        cache,
        anc,
        #[trigger] g2.components@[i],
    ) by {
        if i < gpre.components@.len() {
            assert(g2.components@[i] == gpre.components@[i]);
            lemma_comp_ok_mono(gpre, g2, cache, open0, anc, gpre.components@[i]);
        } else {
            assert(g2.components@[i] == c);
            assert(closed_model(g2, cache, anc, id) && (cache.fetched(id) matches Some(mm) && (
            exists|pr: Option<Seq<char>>|
                is_model_component(c, mm, node_relation(mm), pr) && probe_consistent(
                    cache,
                    mm,
                    pr,
                ))));
        }
    }
    // references stay pairwise distinct
    assert forall|i: int, j: int|
        0 <= i < j < g2.components@.len() implies (#[trigger] g2.components@[i]).bom_ref@ != (
        #[trigger] g2.components@[j]).bom_ref@ by {
        if j < gpre.components@.len() {
            assert(g2.components@[i] == gpre.components@[i]);
            assert(g2.components@[j] == gpre.components@[j]);
        } else {
            assert(g2.components@[j] == c);
            assert(g2.components@[i] == gpre.components@[i]);
        }
    }
    // every resolved node has its component, `id` the appended one
    assert forall|x: Seq<char>|
        #[trigger] closed_model(g2, cache, anc, x) implies model_comp_present(g2, x) by {
        if x == id {
            assert(g2.components@[g2.components@.len() - 1].bom_ref@ == model_ref(id));
        } else {
            assert(closed_model(gpre, cache, open0, x));
            assert(model_comp_present(gpre, x));
            let i = choose|i: int|
                0 <= i < gpre.components@.len() && (#[trigger] gpre.components@[i]).bom_ref@
                    == model_ref(x);
            assert(g2.components@[i].bom_ref@ == model_ref(x));
        }
    }
    // datasets carry over
    assert forall|k: int| 0 <= k < g2.datasets@.len() implies dataset_witnessed(
        g2,
        cache,
        (#[trigger] g2.datasets@[k])@,
    ) by {
        assert(gpre.datasets@[k] == g2.datasets@[k]);
        assert(dataset_witnessed(gpre, cache, gpre.datasets@[k]@));
        let p = choose|p: Seq<char>|
            seq_has(gpre.visited@, p) && #[trigger] cache.fetched(p) is Some && is_dataset_target(
                cache.fetched(p)->0,
                gpre.datasets@[k]@,
            );
        assert(seq_has(g2.visited@, p));
    }
    assert forall|k: int| 0 <= k < g2.datasets@.len() implies dataset_comp_present(
        g2,
        (#[trigger] g2.datasets@[k])@,
    ) by {
        assert(gpre.datasets@[k] == g2.datasets@[k]);
        assert(dataset_comp_present(gpre, gpre.datasets@[k]@));
        let i = choose|i: int|
            0 <= i < gpre.components@.len() && (#[trigger] gpre.components@[i]).bom_ref@
                == dataset_ref(gpre.datasets@[k]@);
        assert(g2.components@[i].bom_ref@ == dataset_ref(g2.datasets@[k]@));
    }
    // no earlier dependency entry is keyed by `id`
    assert forall|k: int|
        0 <= k < gpre.dependencies@.len() implies (#[trigger] gpre.dependencies@[k]).reference@
        != model_ref(id) by {
        assert(dep_entry_at(gpre, cache, open0, k));
        let q = choose|q: Seq<char>|
            #[trigger] closed_model(gpre, cache, open0, q) && gpre.dependencies@[k].reference@
                == model_ref(q) && cache.fetched(q) is Some && dep_entry_ok(
                gpre.dependencies@[k],
                cache.fetched(q)->0,
            ) && gpre.dependencies@[k].depends_on@.len() > 0;
        if gpre.dependencies@[k].reference@ == model_ref(id) {
            lemma_model_ref_inj(q, id);
        }
    }
    // dependency entries are accounted for
    assert forall|k: int| 0 <= k < g2.dependencies@.len() implies #[trigger] dep_entry_at(
        g2,
        cache,
        anc,
        k,
    ) by {
        if k < gpre.dependencies@.len() {
            assert(dep_entry_at(gpre, cache, open0, k));
            let q = choose|q: Seq<char>|
                #[trigger] closed_model(gpre, cache, open0, q) && gpre.dependencies@[k].reference@
                    == model_ref(q) && cache.fetched(q) is Some && dep_entry_ok(
                    gpre.dependencies@[k],
                    cache.fetched(q)->0,
                ) && gpre.dependencies@[k].depends_on@.len() > 0;
            assert(closed_model(g2, cache, anc, q));
            assert(g2.dependencies@[k] == gpre.dependencies@[k]);
        } else {
            assert(added_dep);
            assert(g2.dependencies@[k] == g2.dependencies@[g2.dependencies@.len() - 1]);
        }
    }
    assert forall|k: int, l: int|
        0 <= k < l < g2.dependencies@.len() implies (#[trigger] g2.dependencies@[k]).reference@
        != (#[trigger] g2.dependencies@[l]).reference@ by {
        if l < gpre.dependencies@.len() {
            assert(g2.dependencies@[k] == gpre.dependencies@[k]);
            assert(g2.dependencies@[l] == gpre.dependencies@[l]);
        } else {
            assert(g2.dependencies@[k] == gpre.dependencies@[k]);
        }
    }
    assert forall|x: Seq<char>|
        #[trigger] closed_model(g2, cache, anc, x) implies (cache.fetched(x) matches Some(mm)
            ==> (has_any_dep(mm) ==> dep_entry_present(g2, x))) by {
        if x == id {
            if has_any_dep(m) {
                assert(added_dep);
                assert(g2.dependencies@[g2.dependencies@.len() - 1].reference@ == model_ref(id));
            }
        } else {
            assert(closed_model(gpre, cache, open0, x));
            if cache.fetched(x) matches Some(mm) && has_any_dep(mm) {
                assert(dep_entry_present(gpre, x));
                let k = choose|k: int|
                    0 <= k < gpre.dependencies@.len() && (
                    #[trigger] gpre.dependencies@[k]).reference@ == model_ref(x);
                assert(g2.dependencies@[k].reference@ == model_ref(x));
            }
        }
    }
    assert(graph_wf(g2, cache, anc));
}

/// Recording a new dataset leaf keeps the run well-formed: its component
/// is appended and the dataset is remembered, everything else stands.
#[verifier::rlimit(100)]
#[verifier::spinoff_prover]
proof fn lemma_wf_push_dataset(
    gpre: ResolutionGraph,
    g2: ResolutionGraph,
    cache: MetadataCache,
    open0: Seq<Seq<char>>,
    parent: Seq<char>,
    d: Seq<char>,
    comp: Component,
)
    requires
        cache.consistent(),
        graph_wf(gpre, cache, open0),
        seq_has(gpre.visited@, parent),
        cache.fetched(parent) is Some,
        is_dataset_target(cache.fetched(parent)->0, d),
        !seq_has(gpre.datasets@, d),
        is_dataset_component(comp, d),
        g2.visited == gpre.visited,
        g2.dependencies == gpre.dependencies,
        g2.root == gpre.root,
        g2.components@ == gpre.components@.push(comp),
        exists|s: String| g2.datasets@ == gpre.datasets@.push(s) && (#[trigger] s@) == d,
    ensures
        graph_wf(g2, cache, open0),
        forall|x: Seq<char>| #[trigger] seq_has(gpre.datasets@, x) ==> seq_has(g2.datasets@, x),
        seq_has(g2.datasets@, d),
{
    let s = choose|s: String| g2.datasets@ == gpre.datasets@.push(s) && (#[trigger] s@) == d;
    lemma_views_push(gpre.datasets@, s);
    lemma_seq_has_push(gpre.datasets@, s);
    lemma_seq_has_views(gpre.datasets@);
    lemma_seq_has_views(g2.datasets@);
    // the dataset list keeps distinct entries
    assert forall|i: int, j: int|
        0 <= i < j < views(g2.datasets@).len() implies views(g2.datasets@)[i] != views(
        g2.datasets@,
    )[j] by {
        if j == views(gpre.datasets@).len() {
            assert(views(g2.datasets@)[i] == views(gpre.datasets@)[i]);
            assert(views(gpre.datasets@)[i] == gpre.datasets@[i]@);
            assert(seq_has(gpre.datasets@, gpre.datasets@[i]@));
        }
    }
    // the closed identifiers are unchanged
    assert forall|x: Seq<char>| #[trigger] closed_model(g2, cache, open0, x) implies closed_model(
        gpre,
        cache,
        open0,
        x,
    ) by {
        assert(g2.visited@ == gpre.visited@);
    }
    assert forall|x: Seq<char>| #[trigger] closed_model(gpre, cache, open0, x) implies closed_model(
        g2,
        cache,
        open0,
        x,
    ) by {
        assert(g2.visited@ == gpre.visited@);
    }
    // no earlier component carries the new dataset reference
    assert forall|i: int|
        0 <= i < gpre.components@.len() implies (#[trigger] gpre.components@[i]).bom_ref@
        != dataset_ref(d) by {
        assert(comp_ok(gpre, cache, open0, gpre.components@[i]));
        let ci = gpre.components@[i];
        if exists|q: Seq<char>|
            #[trigger] closed_model(gpre, cache, open0, q) && (cache.fetched(q) matches Some(mm)
                && (exists|pr: Option<Seq<char>>|
                is_model_component(ci, mm, node_relation(mm), pr) && probe_consistent(
                    cache,
                    mm,
                    pr,
                ))) {
            let q = choose|q: Seq<char>|
                #[trigger] closed_model(gpre, cache, open0, q) && (cache.fetched(q) matches Some(
                    mm,
                ) && (exists|pr: Option<Seq<char>>|
                    is_model_component(ci, mm, node_relation(mm), pr) && probe_consistent(
                        cache,
                        mm,
                        pr,
                    )));
            assert(cache.fetched(q)->0.model_id@ == q);
            assert(ci.bom_ref@ == model_ref(q));
            lemma_refs_distinct(q, d);
        } else {
            let dd = choose|dd: Seq<char>| #[trigger] seq_has(gpre.datasets@, dd)
                && is_dataset_component(ci, dd);
            assert(ci.bom_ref@ == dataset_ref(dd));
            if ci.bom_ref@ == dataset_ref(d) {
                lemma_dataset_ref_inj(dd, d);
            }
        }
    }
    // visits stay accounted for
    assert forall|x: Seq<char>| #[trigger] seq_has(g2.visited@, x) implies visit_justified(
        g2,
        cache,
        x,
    ) by {
        assert(seq_has(gpre.visited@, x));
        assert(visit_justified(gpre, cache, x));
        if x != gpre.root@ {
            let p = choose|p: Seq<char>|
                seq_has(gpre.visited@, p) && #[trigger] cache.fetched(p) is Some
                    && is_model_target(cache.fetched(p)->0, x);
            assert(seq_has(g2.visited@, p));
        }
    }
    assert forall|x: Seq<char>| #[trigger] seq_has(g2.visited@, x) implies reaches(
        cache,
        g2.root@,
        x,
    ) by {
        assert(seq_has(gpre.visited@, x));
    }
    // every component stays accounted for, the new one by the dataset
    assert forall|i: int|
        0 <= i < g2.components@.len() implies comp_ok(
        g2,
        cache,
        open0,
        #[trigger] g2.components@[i],
    ) by {
        if i < gpre.components@.len() {
            assert(g2.components@[i] == gpre.components@[i]);
            lemma_comp_ok_mono(gpre, g2, cache, open0, open0, gpre.components@[i]);
        } else {
            assert(g2.components@[i] == comp);
            assert(seq_has(g2.datasets@, d) && is_dataset_component(comp, d));
        }
    }
    assert forall|i: int, j: int|
        0 <= i < j < g2.components@.len() implies (#[trigger] g2.components@[i]).bom_ref@ != (
        #[trigger] g2.components@[j]).bom_ref@ by {
        if j < gpre.components@.len() {
            assert(g2.components@[i] == gpre.components@[i]);
            assert(g2.components@[j] == gpre.components@[j]);
        } else {
            assert(g2.components@[j] == comp);
            assert(g2.components@[i] == gpre.components@[i]);
        }
    }
    assert forall|x: Seq<char>|
        #[trigger] closed_model(g2, cache, open0, x) implies model_comp_present(g2, x) by {
        assert(closed_model(gpre, cache, open0, x));
        assert(model_comp_present(gpre, x));
        let i = choose|i: int|
            0 <= i < gpre.components@.len() && (#[trigger] gpre.components@[i]).bom_ref@
                == model_ref(x);
        assert(g2.components@[i].bom_ref@ == model_ref(x));
    }
    assert forall|k: int| 0 <= k < g2.datasets@.len() implies dataset_witnessed(
        g2,
        cache,
        (#[trigger] g2.datasets@[k])@,
    ) by {
        if k < gpre.datasets@.len() {
            assert(gpre.datasets@[k] == g2.datasets@[k]);
            assert(dataset_witnessed(gpre, cache, gpre.datasets@[k]@));
            let p = choose|p: Seq<char>|
                seq_has(gpre.visited@, p) && #[trigger] cache.fetched(p) is Some
                    && is_dataset_target(cache.fetched(p)->0, gpre.datasets@[k]@);
            assert(seq_has(g2.visited@, p));
        } else {
            assert(g2.datasets@[k]@ == d);
            assert(seq_has(g2.visited@, parent));
        }
    }
    assert forall|k: int| 0 <= k < g2.datasets@.len() implies dataset_comp_present(
        g2,
        (#[trigger] g2.datasets@[k])@,
    ) by {
        if k < gpre.datasets@.len() {
            assert(gpre.datasets@[k] == g2.datasets@[k]);
            assert(dataset_comp_present(gpre, gpre.datasets@[k]@));
            let i = choose|i: int|
                0 <= i < gpre.components@.len() && (#[trigger] gpre.components@[i]).bom_ref@
                    == dataset_ref(gpre.datasets@[k]@);
            assert(g2.components@[i].bom_ref@ == dataset_ref(g2.datasets@[k]@));
        } else {
            assert(g2.datasets@[k]@ == d);
            assert(g2.components@[g2.components@.len() - 1].bom_ref@ == dataset_ref(d));
        }
    }
    // dependency entries carry over
    assert forall|k: int| 0 <= k < g2.dependencies@.len() implies #[trigger] dep_entry_at(
        g2,
        cache,
        open0,
        k,
    ) by {
        assert(dep_entry_at(gpre, cache, open0, k));
        let q = choose|q: Seq<char>|
            #[trigger] closed_model(gpre, cache, open0, q) && gpre.dependencies@[k].reference@
                == model_ref(q) && cache.fetched(q) is Some && dep_entry_ok(
                gpre.dependencies@[k],
                cache.fetched(q)->0,
            ) && gpre.dependencies@[k].depends_on@.len() > 0;
        assert(closed_model(g2, cache, open0, q));
        assert(g2.dependencies@[k] == gpre.dependencies@[k]);
    }
    assert forall|x: Seq<char>|
        #[trigger] closed_model(g2, cache, open0, x) implies (cache.fetched(x) matches Some(mm)
            ==> (has_any_dep(mm) ==> dep_entry_present(g2, x))) by {
        assert(closed_model(gpre, cache, open0, x));
        if cache.fetched(x) matches Some(mm) && has_any_dep(mm) {
            assert(dep_entry_present(gpre, x));
            let k = choose|k: int|
                0 <= k < gpre.dependencies@.len() && (#[trigger] gpre.dependencies@[k]).reference@
                    == model_ref(x);
            assert(g2.dependencies@[k].reference@ == model_ref(x));
        }
    }
    assert(graph_wf(g2, cache, open0));
}

/// Resolves one fetched model: extracts its declared edges, synthesizes
/// dataset leaves, recurses into unvisited model dependencies, then builds
/// the node's own component and dependency entry. `anc` holds the
/// identifiers whose expansion is still in progress, nearest last; `id`
/// itself is already visited and counted among them.
#[verifier::loop_isolation(false)]
#[verifier::rlimit(100)]
#[verifier::spinoff_prover]
fn process_model_recursively(
    cache: &MetadataCache,
    cg: &ComponentGenerator,
    g: &mut ResolutionGraph,
    id: &String,
    anc: Ghost<Seq<Seq<char>>>,
) -> (r: Result<(), Need>)
    requires
        cache.consistent(),
        graph_wf(*old(g), *cache, anc@.push(id@)),
        cache.fetched(id@) is Some,
    ensures
        forall|x: Seq<char>|
            #[trigger] seq_has(old(g).visited@, x) ==> seq_has(final(g).visited@, x),
        forall|x: Seq<char>|
            #[trigger] seq_has(old(g).datasets@, x) ==> seq_has(final(g).datasets@, x),
        final(g).root == old(g).root,
        final(g).visited@.len() >= old(g).visited@.len(),
        r is Ok ==> graph_wf(*final(g), *cache, anc@),
        r matches Err(Need::Model(x)) ==> cache.model_at(x@) is None && reaches(
            *cache,
            old(g).root@,
            x@,
        ),
        r matches Err(Need::Probe(x)) ==> cache.probe_at(x@) is None && reaches(
            *cache,
            old(g).root@,
            x@,
        ) && cache.fetched(x@) is Some && needs_probe(cache.fetched(x@)->0),
    decreases cache.models@.len() + 1 - old(g).visited@.len(),
{
    let ghost open0 = anc@.push(id@);
    let m: &ModelInfo = match cache.lookup_model(id.as_str()) {
        Some(FetchOutcome::Fetched(rec)) => rec,
        _ => {
            proof {
                assert(false);
            }
            return Ok(());
        },
    };
    proof {
        assert(cache.fetched(id@) == Some(*m));
        assert(m.model_id@ == id@);
    }
    let edges = cg.model_analyzer.extract_dependencies(m);
    let ghost ev = edges_view(edges@);
    let ghost raw = raw_edges(*m);
    let mut deps: Vec<String> = Vec::new();
    let mut k: usize = 0;
    while k < edges.len()
        invariant
            k <= edges@.len(),
            deps@.len() == k as int,
            graph_wf(*g, *cache, open0),
            g.visited@.len() >= old(g).visited@.len(),
            forall|x: Seq<char>|
                #[trigger] seq_has(old(g).visited@, x) ==> seq_has(g.visited@, x),
            forall|x: Seq<char>|
                #[trigger] seq_has(old(g).datasets@, x) ==> seq_has(g.datasets@, x),
            g.root == old(g).root,
            forall|j: int|
                0 <= j < k ==> (if (#[trigger] ev[j]).1 == Some("train"@) {
                    seq_has(g.datasets@, ev[j].0) && seq_has(deps@, dataset_ref(ev[j].0))
                } else {
                    seq_has(g.visited@, ev[j].0) && seq_has(deps@, model_ref(ev[j].0))
                }),
            forall|i: int| 0 <= i < deps@.len() ==> dep_ref_ok((#[trigger] deps@[i])@, *m),
        decreases edges@.len() - k,
    {
        proof {
            assert(ev[k as int] == (edges@[k as int].0@, opt_view(edges@[k as int].1)));
            assert(has_target(raw, ev[k as int].0));
            assert(ev[k as int].1 == first_rel(raw, ev[k as int].0));
            assert(ev[k as int].0 != m.model_id@);
        }
        let t: &String = &edges[k].0;
        let is_train = match &edges[k].1 {
            Some(rl) => crate::text::str_eq(rl.as_str(), "train"),
            None => false,
        };
        proof {
            assert(is_train == (ev[k as int].1 == Some("train"@)));
        }
        if is_train {
            proof {
                assert(is_dataset_target(*m, t@));
            }
            if !crate::text::vec_contains_str(&g.datasets, t.as_str()) {
                let comp = cg.create_dataset_component(t.as_str());
                let ghost gpre = *g;
                g.components.push(comp);
                g.datasets.push(t.clone());
                proof {
                    let c = g.components@[g.components@.len() - 1];
                    assert(g.components@ == gpre.components@.push(c));
                    let s = g.datasets@[g.datasets@.len() - 1];
                    assert(g.datasets@ == gpre.datasets@.push(s) && s@ == t@);
                    assert(open0[anc@.len() as int] == id@);
                    assert(seq_has(gpre.visited@, id@));
                    lemma_seq_has_views(gpre.datasets@);
                    assert(!seq_has(gpre.datasets@, t@));
                    lemma_wf_push_dataset(gpre, *g, *cache, open0, id@, t@, c);
                }
            }
            let ghost depspre = deps@;
            deps.push(crate::component_generator::dataset_ref_string(t.as_str()));
            proof {
                lemma_seq_has_push(depspre, deps@[deps@.len() - 1]);
                assert(seq_has(deps@, dataset_ref(t@)));
            }
        } else {
            proof {
                assert(is_model_target(*m, t@));
            }
            if !crate::text::vec_contains_str(&g.visited, t.as_str()) {
                let ghost gpre = *g;
                g.visited.push(t.clone());
                proof {
                    let s = g.visited@[g.visited@.len() - 1];
                    assert(g.visited@ == gpre.visited@.push(s) && s@ == t@);
                    assert(open0[anc@.len() as int] == id@);
                    assert(seq_has(gpre.visited@, id@));
                    lemma_seq_has_views(gpre.visited@);
                    assert(!seq_has(gpre.visited@, t@));
                }
                match cache.lookup_model(t.as_str()) {
                    None => {
                        proof {
                            lemma_seq_has_push(gpre.visited@, g.visited@[g.visited@.len() - 1]);
                            assert(reaches(*cache, gpre.root@, id@));
                            lemma_reaches_step(*cache, gpre.root@, id@, t@);
                        }
                        return Err(Need::Model(t.clone()));
                    },
                    Some(FetchOutcome::Unavailable) => {
                        proof {
                            lemma_wf_after_visit_push(gpre, *g, *cache, open0, id@, t@, false);
                        }
                    },
                    Some(FetchOutcome::Fetched(_)) => {
                        proof {
                            lemma_wf_after_visit_push(gpre, *g, *cache, open0, id@, t@, true);
                            lemma_visited_bound(g.visited@, *cache);
                        }
                        match process_model_recursively(cache, cg, g, t, Ghost(open0)) {
                            Ok(()) => {},
                            Err(e) => {
                                return Err(e);
                            },
                        }
                    },
                }
            }
            let ghost depspre = deps@;
            deps.push(crate::component_generator::model_ref_string(t.as_str()));
            proof {
                lemma_seq_has_push(depspre, deps@[deps@.len() - 1]);
                assert(seq_has(deps@, model_ref(t@)));
                lemma_seq_has_views(g.visited@);
                assert(seq_has(g.visited@, t@));
            }
        }
        k = k + 1;
    }
    // every declared target is now resolved or recorded
    proof {
        assert forall|t0: Seq<char>| is_model_target(*m, t0) implies seq_has(g.visited@, t0) by {
            assert(has_target(ev, t0));
            let j = choose|j: int| 0 <= j < ev.len() && (#[trigger] ev[j]).0 == t0;
            assert(ev[j].1 == first_rel(raw, t0));
        }
        assert forall|t0: Seq<char>| is_dataset_target(*m, t0) implies seq_has(
            g.datasets@,
            t0,
        ) by {
            assert(has_target(ev, t0));
            let j = choose|j: int| 0 <= j < ev.len() && (#[trigger] ev[j]).0 == t0;
            assert(ev[j].1 == first_rel(raw, t0));
        }
    }
    let relation: Option<String> = if let Some(cd) = &m.card_data {
        if cd.base_model.is_some() {
            match &cd.base_model_relation {
                Some(rr) => Some(rr.clone()),
                None => cg.model_analyzer.infer_relation_from_metadata(m, cd),
            }
        } else {
            None
        }
    } else {
        None
    };
    let ghost relv = opt_view(relation);
    proof {
        assert(relv == node_relation(*m));
    }
    let license_text: Option<String> = match &m.license {
        Some(l) => Some(l.clone()),
        None => cg.model_analyzer.extract_license_from_tags(&m.tags),
    };
    proof {
        assert(opt_view(license_text) == license_text_of(*m));
    }
    let probe_url: Option<String> = match &license_text {
        Some(lt) => {
            if !cg.license_handler.matches_spdx(lt.as_str()) {
                match cache.lookup_probe(id.as_str()) {
                    None => {
                        proof {
                            assert(open0[anc@.len() as int] == id@);
                            assert(seq_has(g.visited@, id@));
                            assert(reaches(*cache, g.root@, id@));
                            assert(needs_probe(*m));
                        }
                        return Err(Need::Probe(id.clone()));
                    },
                    Some(p) => match p {
                        Some(u) => Some(u.clone()),
                        None => None,
                    },
                }
            } else {
                None
            }
        },
        None => None,
    };
    let ghost prv = opt_view(probe_url);
    proof {
        assert(probe_consistent(*cache, *m, prv));
    }
    let ghost depsv = deps@;
    let comp = cg.model_info_to_component(m, relation, probe_url);
    let ghost gpre2 = *g;
    g.components.push(comp);
    let has_deps = deps.len() > 0;
    if has_deps {
        let reference = crate::component_generator::model_ref_string(id.as_str());
        g.dependencies.push(Dependency { reference, depends_on: deps });
    }
    proof {
        let c = g.components@[g.components@.len() - 1];
        assert(g.components@ == gpre2.components@.push(c));
        assert(is_model_component(c, *m, node_relation(*m), prv) && probe_consistent(
            *cache,
            *m,
            prv,
        ));
        if has_deps {
            let entry = g.dependencies@[g.dependencies@.len() - 1];
            assert(g.dependencies@ == gpre2.dependencies@.push(entry));
            assert(entry.reference@ == model_ref(id@));
            assert(entry.depends_on@ == depsv);
            assert forall|t0: Seq<char>| is_model_target(*m, t0) implies seq_has(
                entry.depends_on@,
                model_ref(t0),
            ) by {
                assert(has_target(ev, t0));
                let j = choose|j: int| 0 <= j < ev.len() && (#[trigger] ev[j]).0 == t0;
                assert(ev[j].1 == first_rel(raw, t0));
            }
            assert forall|t0: Seq<char>| is_dataset_target(*m, t0) implies seq_has(
                entry.depends_on@,
                dataset_ref(t0),
            ) by {
                assert(has_target(ev, t0));
                let j = choose|j: int| 0 <= j < ev.len() && (#[trigger] ev[j]).0 == t0;
                assert(ev[j].1 == first_rel(raw, t0));
            }
            assert(dep_entry_ok(entry, *m));
        } else {
            assert(!has_any_dep(*m)) by {
                if has_any_dep(*m) {
                    let t0 = choose|t0: Seq<char>|
                        is_model_target(*m, t0) || is_dataset_target(*m, t0);
                    assert(has_target(ev, t0));
                    let j = choose|j: int| 0 <= j < ev.len() && (#[trigger] ev[j]).0 == t0;
                    assert(deps@.len() > 0);
                }
            }
        }
        lemma_wf_close(gpre2, *g, *cache, anc@, id@, c, has_deps);
    }
    Ok(())
}

/// A finished resolution: well-formed with nothing left under expansion,
/// rooted at `root`.
pub open spec fn resolved(g: ResolutionGraph, cache: MetadataCache, root: Seq<char>) -> bool {
    &&& g.root@ == root
    &&& graph_wf(g, cache, Seq::empty())
}

/// The outcome of one resolution attempt over the recorded outcomes.
pub enum Resolution {
    Complete(ResolutionGraph),
    NeedModel(String),
    NeedProbe(String),
    RootUnavailable,
}

/// The outcome of one document-generation attempt.
pub enum GenerateOutcome {
    Complete(AIBOM),
    NeedModel(String),
    NeedProbe(String),
    RootUnavailable,
}

/// The fixed frame of the finished document around the resolved graph.
pub open spec fn aibom_frame_ok(
    bom: AIBOM,
    root: Seq<char>,
    ts: Seq<char>,
    serial: Seq<char>,
) -> bool {
    &&& bom.bom_format@ == "CycloneDX"@
    &&& bom.spec_version@ == "1.6"@
    &&& bom.serial_number@ == "urn:uuid:"@ + serial
    &&& bom.version == 1u32
    &&& bom.metadata.timestamp@ == ts
    &&& is_app_component(bom.metadata.component, root)
    &&& bom.metadata.tools.components@.len() == 1
    &&& bom.metadata.properties matches Some(ps) && ps@.len() == 2 && prop_is(
        ps@[0],
        "primaryPurpose"@,
        "text-generation"@,
    ) && prop_is(ps@[1], "suppliedBy"@, org_of(root))
    &&& bom.external_references matches Some(er) && er@.len() == 1 && er@[0].ref_type@
        == "distribution"@ && er@[0].url@ == hf_url(root) && er@[0].comment is None
}

/// The orchestrator of one run: owns the recorded metadata-source
/// outcomes and the component builders, and resolves ancestry over them.
pub struct AIBOMGenerator {
    pub cache: MetadataCache,
    pub component_generator: ComponentGenerator,
}

impl AIBOMGenerator {
    pub fn new() -> (r: Self)
        ensures
            r.cache.models@.len() == 0,
            r.cache.probes@.len() == 0,
    {
        AIBOMGenerator { cache: MetadataCache::new(), component_generator: ComponentGenerator::new() }
    }

    /// One resolution attempt from the root identifier. It completes with
    /// a well-formed graph, reports the first identifier whose fetch or
    /// probe outcome is not recorded yet, or fails fatally when the
    /// root's own record is unavailable. A request always names a
    /// genuinely missing outcome of a reachable identifier, so once the
    /// recorded outcomes are closed over the root's ancestry the attempt
    /// must complete: completion is owed, not optional.
    pub fn resolve(&self, root_id: &str) -> (r: Resolution)
        requires
            self.cache.consistent(),
        ensures
            match r {
                Resolution::Complete(g) => resolved(g, self.cache, root_id@),
                Resolution::NeedModel(x) => self.cache.model_at(x@) is None,
                Resolution::NeedProbe(x) => self.cache.probe_at(x@) is None,
                Resolution::RootUnavailable => self.cache.model_at(root_id@) matches Some(o) && o
                    is Unavailable,
            },
            r matches Resolution::Complete(g) ==> self.cache.fetched(root_id@) is Some,
            r matches Resolution::NeedModel(x) ==> reaches(self.cache, root_id@, x@),
            r matches Resolution::NeedProbe(x) ==> reaches(self.cache, root_id@, x@)
                && self.cache.fetched(x@) is Some && needs_probe(self.cache.fetched(x@)->0),
            cache_closed(self.cache, root_id@) ==> r is Complete,
    {
        let root = root_id.to_owned();
        let mut g = ResolutionGraph {
            components: Vec::new(),
            dependencies: Vec::new(),
            visited: Vec::new(),
            datasets: Vec::new(),
            root: Ghost(root_id@),
        };
        g.visited.push(root_id.to_owned());
        proof {
            lemma_reaches_root(self.cache, root_id@);
        }
        match self.cache.lookup_model(root_id) {
            None => Resolution::NeedModel(root),
            Some(FetchOutcome::Unavailable) => Resolution::RootUnavailable,
            Some(FetchOutcome::Fetched(_)) => {
                proof {
                    let open1 = Seq::<Seq<char>>::empty().push(root_id@);
                    assert(g.visited@.len() == 1 && g.visited@[0]@ == root_id@);
                    assert(seq_has(g.visited@, root_id@));
                    assert forall|x: Seq<char>| #[trigger] seq_has(g.visited@, x) implies x
                        == root_id@ by {
                        let w = choose|w: int|
                            0 <= w < g.visited@.len() && (#[trigger] g.visited@[w])@ == x;
                    }
                    assert(views(g.visited@).len() == 1);
                    assert(views(g.visited@).no_duplicates());
                    assert(views(g.datasets@).no_duplicates());
                    assert(open1.no_duplicates());
                    assert(open1[0] == root_id@);
                    assert forall|x: Seq<char>| !(#[trigger] closed_model(
                        g,
                        self.cache,
                        open1,
                        x,
                    )) by {
                        if closed_model(g, self.cache, open1, x) {
                            assert(x == root_id@);
                            assert(open1.contains(root_id@));
                        }
                    }
                    assert forall|x: Seq<char>| #[trigger] seq_has(g.visited@, x) implies reaches(
                        self.cache,
                        g.root@,
                        x,
                    ) by {
                        assert(reaches_within(self.cache, root_id@, root_id@, 0));
                    }
                    assert(graph_wf(g, self.cache, open1));
                }
                match process_model_recursively(
                    &self.cache,
                    &self.component_generator,
                    &mut g,
                    &root,
                    Ghost(Seq::empty()),
                ) {
                    Ok(()) => Resolution::Complete(g),
                    Err(Need::Model(x)) => Resolution::NeedModel(x),
                    Err(Need::Probe(x)) => Resolution::NeedProbe(x),
                }
            },
        }
    }

    /// Wraps a completed resolution into the document: fixed format
    /// fields, the caller-supplied timestamp and run identifier, the
    /// application component standing for the subject, and the graph's
    /// components and dependency entries unchanged.
    pub fn assemble_aibom(
        &self,
        graph: ResolutionGraph,
        main_model_id: &str,
        timestamp: String,
        serial: String,
    ) -> (r: AIBOM)
        ensures
            aibom_frame_ok(r, main_model_id@, timestamp@, serial@),
            r.components@ == graph.components@,
            r.dependencies@ == graph.dependencies@,
    {
        let main_component = self.component_generator.create_main_application_component(
            main_model_id,
        );
        let (main_org, _main_name) = self.component_generator
            .model_analyzer
            .extract_organization_from_model_id(main_model_id);
        let mut serial_number = String::from_str("urn:uuid:");
        serial_number.append(serial.as_str());
        let mut dist_url = String::from_str("https://huggingface.co/");
        dist_url.append(main_model_id);
        AIBOM {
            bom_format: String::from_str("CycloneDX"),
            spec_version: String::from_str("1.6"),
            serial_number,
            version: 1,
            metadata: Metadata {
                timestamp,
                tools: Tools {
                    components: vec![
                        ToolComponent {
                            bom_ref: String::from_str("pkg:generic/rust-aibom-generator@1.0.0"),
                            manufacturer: Organization {
                                name: String::from_str("Rust AIBOM Generator"),
                                url: None,
                            },
                            name: String::from_str("rust-aibom-generator"),
                            component_type: String::from_str("application"),
                            version: String::from_str("1.0"),
                        },
                    ],
                },
                component: main_component,
                properties: Some(
                    vec![
                        Property {
                            name: String::from_str("primaryPurpose"),
                            value: String::from_str("text-generation"),
                        },
                        Property { name: String::from_str("suppliedBy"), value: main_org },
                    ],
                ),
            },
            components: graph.components,
            dependencies: graph.dependencies,
            external_references: Some(
                vec![
                    ExternalReference {
                        ref_type: String::from_str("distribution"),
                        url: dist_url,
                        comment: None,
                    },
                ],
            ),
        }
    }

    /// The top-level operation: resolves the root's ancestry over the
    /// recorded outcomes and assembles the document. It fails only when
    /// the root's own record is unavailable; missing recorded outcomes
    /// are reported for the driver to supply; each request names a
    /// genuinely missing outcome of a reachable identifier, so once the
    /// recorded outcomes are closed over the root's ancestry the document
    /// is owed. The timestamp and the run identifier are the caller's:
    /// the engine itself is deterministic over its recorded inputs.
    pub fn generate_aibom(
        &self,
        main_model_id: &str,
        timestamp: String,
        serial: String,
    ) -> (r: GenerateOutcome)
        requires
            self.cache.consistent(),
        ensures
            match r {
                GenerateOutcome::Complete(bom) => aibom_frame_ok(
                    bom,
                    main_model_id@,
                    timestamp@,
                    serial@,
                ) && exists|g: ResolutionGraph|
                    #[trigger] resolved(g, self.cache, main_model_id@) && bom.components@
                        == g.components@ && bom.dependencies@ == g.dependencies@,
                GenerateOutcome::NeedModel(x) => self.cache.model_at(x@) is None,
                GenerateOutcome::NeedProbe(x) => self.cache.probe_at(x@) is None,
                GenerateOutcome::RootUnavailable => self.cache.model_at(main_model_id@) matches Some(
                    o,
                ) && o is Unavailable,
            },
            r matches GenerateOutcome::Complete(bom) ==> self.cache.fetched(main_model_id@)
                is Some,
            r matches GenerateOutcome::NeedModel(x) ==> reaches(self.cache, main_model_id@, x@),
            r matches GenerateOutcome::NeedProbe(x) ==> reaches(self.cache, main_model_id@, x@)
                && self.cache.fetched(x@) is Some && needs_probe(self.cache.fetched(x@)->0),
            cache_closed(self.cache, main_model_id@) ==> r is Complete,
    {
        match self.resolve(main_model_id) {
            Resolution::Complete(g) => {
                let ghost gg = g;
                let bom = self.assemble_aibom(g, main_model_id, timestamp, serial);
                proof {
                    assert(resolved(gg, self.cache, main_model_id@) && bom.components@
                        == gg.components@ && bom.dependencies@ == gg.dependencies@);
                }
                GenerateOutcome::Complete(bom)
            },
            Resolution::NeedModel(x) => GenerateOutcome::NeedModel(x),
            Resolution::NeedProbe(x) => GenerateOutcome::NeedProbe(x),
            Resolution::RootUnavailable => GenerateOutcome::RootUnavailable,
        }
    }
}

/// Each resolved node appears as a component exactly once, however many
/// ancestors reference it: one component carries its reference, and no
/// two components carry the same reference.
pub proof fn lemma_component_exactly_once(
    g: ResolutionGraph,
    cache: MetadataCache,
    root: Seq<char>,
    id: Seq<char>,
)
    requires
        resolved(g, cache, root),
        seq_has(g.visited@, id),
        cache.fetched(id) is Some,
    ensures
        exists|i: int|
            0 <= i < g.components@.len() && (#[trigger] g.components@[i]).bom_ref@ == model_ref(id),
        forall|i: int, j: int|
            0 <= i < j < g.components@.len() ==> (#[trigger] g.components@[i]).bom_ref@ != (
            #[trigger] g.components@[j]).bom_ref@,
{
    assert(!Seq::<Seq<char>>::empty().contains(id));
    assert(closed_model(g, cache, Seq::empty(), id));
    assert(model_comp_present(g, id));
}

/// Only model edges lead into the visited set: every visited identifier
/// other than the root is the model dependency of some visited record.
/// A dataset dependency as such is never visited, so it never triggers a
/// recursive metadata fetch.
pub proof fn lemma_visited_only_model_edges(
    g: ResolutionGraph,
    cache: MetadataCache,
    root: Seq<char>,
    x: Seq<char>,
)
    requires
        resolved(g, cache, root),
        seq_has(g.visited@, x),
        x != root,
    ensures
        exists|p: Seq<char>|
            seq_has(g.visited@, p) && #[trigger] cache.fetched(p) is Some && is_model_target(
                cache.fetched(p)->0,
                x,
            ),
{
    assert(visit_justified(g, cache, x));
}

/// The recorded outcomes form one acyclic ancestry chain: the listed
/// identifiers are distinct, each was fetched, each one's sole model
/// dependency is the next one, the last has none, and nothing else was
/// fetched.
pub open spec fn chain_cache(cache: MetadataCache, ids: Seq<Seq<char>>) -> bool {
    &&& ids.no_duplicates()
    &&& ids.len() >= 1
    &&& forall|k: int| 0 <= k < ids.len() ==> #[trigger] cache.fetched(ids[k]) is Some
    &&& forall|k: int, t: Seq<char>|
        0 <= k < ids.len() - 1 ==> (#[trigger] is_model_target(cache.fetched(ids[k])->0, t) <==> t
            == ids[k + 1])
    &&& forall|t: Seq<char>|
        !#[trigger] is_model_target(cache.fetched(ids[ids.len() - 1])->0, t)
    &&& forall|x: Seq<char>| #[trigger] cache.fetched(x) is Some ==> ids.contains(x)
}

proof fn lemma_chain_prefix_visited(
    g: ResolutionGraph,
    cache: MetadataCache,
    ids: Seq<Seq<char>>,
    k: int,
)
    requires
        resolved(g, cache, ids[0]),
        chain_cache(cache, ids),
        0 <= k < ids.len(),
    ensures
        seq_has(g.visited@, ids[k]),
    decreases k,
{
    if k == 0 {
        assert(seq_has(g.visited@, g.root@));
    } else {
        lemma_chain_prefix_visited(g, cache, ids, k - 1);
        assert(!Seq::<Seq<char>>::empty().contains(ids[k - 1]));
        assert(closed_model(g, cache, Seq::empty(), ids[k - 1]));
        assert(is_model_target(cache.fetched(ids[k - 1])->0, ids[k]));
    }
}

/// Resolving an acyclic ancestry chain of length `N` visits exactly its
/// `N` distinct nodes: every chain node is visited, and the visited set
/// holds exactly `N` identifiers afterward.
pub proof fn lemma_chain_visits_exactly(
    g: ResolutionGraph,
    cache: MetadataCache,
    ids: Seq<Seq<char>>,
)
    requires
        resolved(g, cache, ids[0]),
        chain_cache(cache, ids),
    ensures
        forall|k: int| 0 <= k < ids.len() ==> seq_has(g.visited@, #[trigger] ids[k]),
        g.visited@.len() == ids.len(),
{
    broadcast use vstd::seq_lib::seq_to_set_is_finite;
    broadcast use vstd::set::group_set_axioms;

    assert forall|k: int| 0 <= k < ids.len() implies seq_has(g.visited@, #[trigger] ids[k]) by {
        lemma_chain_prefix_visited(g, cache, ids, k);
    }
    let vv = views(g.visited@);
    lemma_seq_has_views(g.visited@);
    // every visited identifier is a chain node
    assert forall|x: Seq<char>| #[trigger] seq_has(g.visited@, x) implies ids.contains(x) by {
        assert(visit_justified(g, cache, x));
        if x == g.root@ {
            assert(ids[0] == x);
        } else {
            let p = choose|p: Seq<char>|
                seq_has(g.visited@, p) && #[trigger] cache.fetched(p) is Some && is_model_target(
                    cache.fetched(p)->0,
                    x,
                );
            assert(ids.contains(p));
            let w = choose|w: int| 0 <= w < ids.len() && ids[w] == p;
            if w < ids.len() - 1 {
                assert(x == ids[w + 1]);
            } else {
                assert(!is_model_target(cache.fetched(ids[ids.len() - 1])->0, x));
            }
        }
    }
    // the two sets coincide, and both lists are duplicate-free
    assert(vv.to_set() =~= ids.to_set()) by {
        assert forall|x: Seq<char>| vv.to_set().contains(x) implies ids.to_set().contains(x) by {
            assert(vv.contains(x));
            let w = choose|w: int| 0 <= w < vv.len() && vv[w] == x;
            assert(vv[w] == g.visited@[w]@);
            assert(seq_has(g.visited@, x));
        }
        assert forall|x: Seq<char>| ids.to_set().contains(x) implies vv.to_set().contains(x) by {
            assert(ids.contains(x));
            let w = choose|w: int| 0 <= w < ids.len() && ids[w] == x;
            assert(seq_has(g.visited@, ids[w]));
            let u = choose|u: int| 0 <= u < g.visited@.len() && (#[trigger] g.visited@[u])@ == x;
            assert(vv[u] == x);
        }
    }
    vv.unique_seq_to_set();
    ids.unique_seq_to_set();
    assert(vv.len() == g.visited@.len());
}

} // verus!
