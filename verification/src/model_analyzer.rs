//! Reading one metadata record: organization/name splitting, task and
//! architecture classification, and license extraction from tags.
use vstd::prelude::*;
use vstd::string::*;

use crate::models::CardData;
use crate::models::CardValue;
use crate::models::ModelInfo;
use crate::text::char_idx;
use crate::text::char_idx_from;
use crate::text::find_char_from;
use crate::text::has_sub;
use crate::text::lex_lt;
use crate::text::lemma_lex_lt_irrefl;
use crate::text::lemma_lex_lt_total;
use crate::text::lemma_lex_lt_trans;
use crate::text::str_lt;
use crate::text::lower_of;
use crate::text::str_chars;
use crate::text::str_contains;
use crate::text::str_eq;
use crate::text::str_starts_with;
use crate::text::str_strip_prefix;
use crate::text::to_lower;

verus! {

/// The view of an optional owned string.
pub open spec fn opt_view(o: Option<String>) -> Option<Seq<char>> {
    match o {
        Some(s) => Some(s@),
        None => None,
    }
}

/// The organization and artifact name read from a slash-separated
/// identifier: the parts before and after the first slash (the second part
/// ends at the next slash, if any). An identifier without a slash belongs to
/// the default `huggingface` organization.
pub open spec fn org_split(s: Seq<char>) -> (Seq<char>, Seq<char>) {
    let i = char_idx(s, '/');
    if i < s.len() {
        let j = char_idx_from(s, '/', i + 1);
        (s.subrange(0, i), s.subrange(i + 1, j))
    } else {
        ("huggingface"@, s)
    }
}

/// A tag that marks a machine-learning task.
pub open spec fn ml_tag(t: Seq<char>) -> bool {
    ||| t == "text-generation"@
    ||| t == "conversational"@
    ||| t == "text-classification"@
    ||| t == "feature-extraction"@
    ||| t == "translation"@
    ||| t == "summarization"@
    ||| t == "question-answering"@
    ||| t == "fill-mask"@
    ||| t == "token-classification"@
    ||| t == "image-classification"@
    ||| t == "object-detection"@
    ||| t == "image-segmentation"@
    ||| t == "audio-classification"@
    ||| t == "automatic-speech-recognition"@
    ||| t == "text-to-speech"@
    ||| t == "reinforcement-learning"@
}

/// Whether the tag set marks a machine-learning model.
pub open spec fn is_ml_spec(tags: Seq<String>) -> bool {
    exists|i: int| 0 <= i < tags.len() && ml_tag(tags[i]@)
}

/// A tag naming one of the tasks the engine reports as primary purpose.
pub open spec fn task_tag(t: Seq<char>) -> bool {
    ||| t == "text-generation"@
    ||| t == "conversational"@
    ||| t == "text-classification"@
    ||| t == "feature-extraction"@
    ||| t == "translation"@
}

/// The task named by the first task tag, or `text-generation` by default.
pub open spec fn determine_task_spec(tags: Seq<String>) -> Seq<char>
    decreases tags.len(),
{
    if tags.len() == 0 {
        "text-generation"@
    } else if task_tag(tags[0]@) {
        tags[0]@
    } else {
        determine_task_spec(tags.drop_first())
    }
}

/// The architecture read from card data: an explicit `architecture` entry,
/// else the first entry of an `architectures` list, else a generic default.
pub open spec fn architecture_spec(m: ModelInfo) -> Seq<char> {
    match m.card_data {
        Some(cd) => match cd.architecture {
            Some(a) => a@,
            None => match cd.architectures {
                Some(arr) => if arr.len() > 0 && arr[0] is Some {
                    arr[0]->0@
                } else {
                    "TransformerModel"@
                },
                None => "TransformerModel"@,
            },
        },
        None => "TransformerModel"@,
    }
}

/// The license named by the first `license:`-prefixed tag, if any.
pub open spec fn license_from_tags_spec(tags: Seq<String>) -> Option<Seq<char>>
    decreases tags.len(),
{
    if tags.len() == 0 {
        None
    } else if "license:"@.is_prefix_of(tags[0]@) {
        Some(tags[0]@.skip("license:"@.len() as int))
    } else {
        license_from_tags_spec(tags.drop_first())
    }
}

/// The relation a `base_model:<kind>:<target>` convention tag names.
pub open spec fn base_kind_relation(kind: Seq<char>) -> Option<Seq<char>> {
    if kind == "finetune"@ || kind == "finetuned"@ {
        Some("finetuned"@)
    } else if kind == "adapter"@ {
        Some("adapter"@)
    } else if kind == "lora"@ || kind == "qlora"@ {
        Some("lora"@)
    } else if kind == "quantized"@ || kind == "quantization"@ {
        Some("quantized"@)
    } else if kind == "merged"@ || kind == "merge"@ {
        Some("merged"@)
    } else if kind == "distilled"@ || kind == "distillation"@ {
        Some("distilled"@)
    } else {
        None
    }
}

/// The relation a bare convention tag (already lowercased) names.
pub open spec fn simple_tag_relation(lo: Seq<char>) -> Option<Seq<char>> {
    if lo == "lora"@ || lo == "qlora"@ {
        Some("lora"@)
    } else if lo == "adapter"@ {
        Some("adapter"@)
    } else if lo == "instruction-tuning"@ || lo == "chat"@ {
        Some("finetuned"@)
    } else if lo == "distillation"@ {
        Some("distilled"@)
    } else if lo == "onnx"@ || lo == "tensorrt"@ {
        Some("converted"@)
    } else if lo == "pruning"@ {
        Some("pruned"@)
    } else {
        None
    }
}

/// The relation one tag names: either through the
/// `base_model:<kind>:<target>` convention or as a bare convention tag.
pub open spec fn tag_relation_one(t: Seq<char>) -> Option<Seq<char>> {
    let lo = lower_of(t);
    let i = char_idx(lo, ':');
    let j = char_idx_from(lo, ':', i + 1);
    if "base_model:"@.is_prefix_of(lo) {
        if i < lo.len() && j < lo.len() && lo.subrange(0, i) == "base_model"@ {
            base_kind_relation(lo.subrange(i + 1, j))
        } else {
            None
        }
    } else {
        simple_tag_relation(lo)
    }
}

/// The relation named by the first tag that names one, in tag order.
pub open spec fn tag_scan_relation(tags: Seq<String>) -> Option<Seq<char>>
    decreases tags.len(),
{
    if tags.len() == 0 {
        None
    } else if tag_relation_one(tags[0]@) is Some {
        tag_relation_one(tags[0]@)
    } else {
        tag_scan_relation(tags.drop_first())
    }
}

/// The toolkit named by the card-data library hint, mapped to its relation.
pub open spec fn library_relation(cd: CardData) -> Option<Seq<char>> {
    match cd.library_name {
        Some(l) => if l@ == "adapter-transformers"@ || l@ == "adapters"@ {
            Some("adapter"@)
        } else if l@ == "peft"@ {
            Some("lora"@)
        } else {
            None
        },
        None => None,
    }
}

/// `quantized`, when the card data names a quantizer.
pub open spec fn quantized_relation(cd: CardData) -> Option<Seq<char>> {
    if cd.quantized_by is Some {
        Some("quantized"@)
    } else {
        None
    }
}

/// Whether some tag mentions merging, case-insensitively.
pub open spec fn has_merge_tag(tags: Seq<String>) -> bool {
    exists|i: int| 0 <= i < tags.len() && has_sub(lower_of(tags[i]@), "merge"@)
}

/// `merged`, when a base model is declared and either several base models
/// are listed or some tag mentions merging.
pub open spec fn merge_relation(m: ModelInfo, cd: CardData) -> Option<Seq<char>> {
    match cd.base_model {
        Some(bm) => {
            let many = bm matches CardValue::List(items) && items.len() > 1;
            if many || has_merge_tag(m.tags@) {
                Some("merged"@)
            } else {
                None
            }
        },
        None => None,
    }
}

/// The priority order of the classifier is strict: once the tag scan
/// names a relation, neither merge detection nor the identifier's name
/// patterns are consulted.
pub proof fn lemma_tag_scan_precedes_name_patterns(m: ModelInfo, cd: CardData)
    requires
        library_relation(cd) is None,
        quantized_relation(cd) is None,
        tag_scan_relation(m.tags@) is Some,
    ensures
        infer_relation_spec(m, cd) == tag_scan_relation(m.tags@),
{
}

/// The relation suggested by markers inside the lowercased identifier,
/// checked in a fixed order.
pub open spec fn name_relation(id: Seq<char>) -> Option<Seq<char>> {
    let lo = lower_of(id);
    if has_sub(lo, "gguf"@) || has_sub(lo, "gptq"@) || has_sub(lo, "awq"@) || has_sub(lo, "int4"@)
        || has_sub(lo, "int8"@) {
        Some("quantized"@)
    } else if has_sub(lo, "lora"@) || has_sub(lo, "qlora"@) {
        Some("lora"@)
    } else if has_sub(lo, "adapter"@) {
        Some("adapter"@)
    } else if has_sub(lo, "merge"@) {
        Some("merged"@)
    } else if has_sub(lo, "finetune"@) || has_sub(lo, "ft"@) {
        Some("finetuned"@)
    } else if has_sub(lo, "instruct"@) || has_sub(lo, "chat"@) {
        Some("finetuned"@)
    } else if has_sub(lo, "distil"@) {
        Some("distilled"@)
    } else if has_sub(lo, "onnx"@) {
        Some("converted"@)
    } else if has_sub(lo, "prune"@) {
        Some("pruned"@)
    } else {
        None
    }
}

/// The inferred relation of a record to its base model: library hint, then
/// quantizer field, then tag scan, then merge detection, then identifier
/// name patterns; the first stage that names a relation wins.
pub open spec fn infer_relation_spec(m: ModelInfo, cd: CardData) -> Option<Seq<char>> {
    if library_relation(cd) is Some {
        library_relation(cd)
    } else if quantized_relation(cd) is Some {
        quantized_relation(cd)
    } else if tag_scan_relation(m.tags@) is Some {
        tag_scan_relation(m.tags@)
    } else if merge_relation(m, cd) is Some {
        merge_relation(m, cd)
    } else {
        name_relation(m.model_id@)
    }
}

/// The views of a sequence of owned dependency edges.
pub open spec fn edges_view(v: Seq<(String, Option<String>)>) -> Seq<(Seq<char>, Option<Seq<char>>)> {
    v.map_values(|e: (String, Option<String>)| (e.0@, opt_view(e.1)))
}

/// Edges contributed by the string items of a card-data list, each labeled
/// with the same relation.
pub open spec fn list_edges(items: Seq<Option<String>>, rel: Option<Seq<char>>) -> Seq<
    (Seq<char>, Option<Seq<char>>),
>
    decreases items.len(),
{
    if items.len() == 0 {
        Seq::empty()
    } else {
        let rest = list_edges(items.drop_first(), rel);
        match items[0] {
            Some(s) => seq![(s@, rel)] + rest,
            None => rest,
        }
    }
}

/// The relation attached to base-model edges: the explicit card-data
/// relation if present, else the inferred one.
pub open spec fn base_rel(m: ModelInfo, cd: CardData) -> Option<Seq<char>> {
    match cd.base_model_relation {
        Some(r) => Some(r@),
        None => infer_relation_spec(m, cd),
    }
}

/// Edges declared by the base-model entry.
pub open spec fn base_edges(m: ModelInfo, cd: CardData) -> Seq<(Seq<char>, Option<Seq<char>>)> {
    match cd.base_model {
        Some(CardValue::Text(s)) => seq![(s@, base_rel(m, cd))],
        Some(CardValue::List(items)) => list_edges(items@, base_rel(m, cd)),
        Some(CardValue::Other) => Seq::empty(),
        None => Seq::empty(),
    }
}

/// The edge declared by the parent-model entry.
pub open spec fn parent_edges(cd: CardData) -> Seq<(Seq<char>, Option<Seq<char>>)> {
    match cd.parent_model {
        Some(p) => seq![(p@, Some("parent"@))],
        None => Seq::empty(),
    }
}

/// Edges declared by the datasets entry.
pub open spec fn dataset_edges(cd: CardData) -> Seq<(Seq<char>, Option<Seq<char>>)> {
    match cd.datasets {
        Some(CardValue::List(items)) => list_edges(items@, Some("train"@)),
        Some(CardValue::Text(s)) => seq![(s@, Some("train"@))],
        Some(CardValue::Other) => Seq::empty(),
        None => Seq::empty(),
    }
}

/// The edge declared by the training-dataset entry.
pub open spec fn train_edges(cd: CardData) -> Seq<(Seq<char>, Option<Seq<char>>)> {
    match cd.train_dataset {
        Some(s) => seq![(s@, Some("train"@))],
        None => Seq::empty(),
    }
}

/// Every declared edge of a record, in declaration order, before sorting,
/// deduplication and the self-reference guard.
pub open spec fn raw_edges(m: ModelInfo) -> Seq<(Seq<char>, Option<Seq<char>>)> {
    match m.card_data {
        Some(cd) => base_edges(m, cd) + parent_edges(cd) + dataset_edges(cd) + train_edges(cd),
        None => Seq::empty(),
    }
}

/// Some edge of `es` has target `t`.
pub open spec fn has_target(es: Seq<(Seq<char>, Option<Seq<char>>)>, t: Seq<char>) -> bool {
    exists|i: int| 0 <= i < es.len() && (#[trigger] es[i]).0 == t
}

/// Some edge among the first `k` of `es` has target `t`.
pub open spec fn has_target_upto(
    es: Seq<(Seq<char>, Option<Seq<char>>)>,
    k: int,
    t: Seq<char>,
) -> bool {
    exists|i: int| 0 <= i < k && i < es.len() && (#[trigger] es[i]).0 == t
}

/// Strictly increasing targets, in lexicographic order.
pub open spec fn edges_sorted(es: Seq<(Seq<char>, Option<Seq<char>>)>) -> bool {
    forall|i: int, j: int|
        0 <= i < j < es.len() ==> lex_lt((#[trigger] es[i]).0, (#[trigger] es[j]).0)
}

/// The relation of the first edge with the given target.
pub open spec fn first_rel(es: Seq<(Seq<char>, Option<Seq<char>>)>, t: Seq<char>) -> Option<
    Seq<char>,
>
    decreases es.len(),
{
    if es.len() == 0 {
        None
    } else if es[0].0 == t {
        es[0].1
    } else {
        first_rel(es.drop_first(), t)
    }
}

/// What the extractor returns: the declared edges, sorted strictly by
/// target, one edge per target carrying the relation of its first
/// declaration, with self-references removed.
pub open spec fn extracted_edges_ok(
    m: ModelInfo,
    res: Seq<(Seq<char>, Option<Seq<char>>)>,
) -> bool {
    let raw = raw_edges(m);
    &&& edges_sorted(res)
    &&& forall|i: int| 0 <= i < res.len() ==> (#[trigger] res[i]).0 != m.model_id@
    &&& forall|i: int|
        0 <= i < res.len() ==> has_target(raw, (#[trigger] res[i]).0) && res[i].1 == first_rel(
            raw,
            res[i].0,
        )
    &&& forall|t: Seq<char>| has_target(raw, t) && t != m.model_id@ ==> has_target(res, t)
}

/// If the first `k` edges never mention the target of edge `k`, that edge's
/// relation is the target's first relation.
proof fn lemma_first_rel_at(es: Seq<(Seq<char>, Option<Seq<char>>)>, k: int)
    requires
        0 <= k < es.len(),
        forall|j: int| 0 <= j < k ==> (#[trigger] es[j]).0 != es[k].0,
    ensures
        first_rel(es, es[k].0) == es[k].1,
    decreases k,
{
    if k > 0 {
        lemma_first_rel_at(es.drop_first(), k - 1);
        assert(es.drop_first()[k - 1] == es[k]);
        assert(forall|j: int|
            0 <= j < k - 1 ==> (#[trigger] es.drop_first()[j]).0 != es.drop_first()[k - 1].0);
    }
}

/// Reads single metadata records; holds no state of its own.
pub struct ModelAnalyzer;

impl ModelAnalyzer {
    pub fn new() -> (r: Self) {
        ModelAnalyzer
    }

    /// Splits a model identifier into organization and model name.
    pub fn extract_organization_from_model_id(&self, model_id: &str) -> (r: (String, String))
        ensures
            (r.0@, r.1@) == org_split(model_id@),
    {
        split_slash_id(model_id)
    }

    /// Splits a dataset identifier into organization and dataset name.
    pub fn extract_organization_from_dataset_id(&self, dataset_id: &str) -> (r: (String, String))
        ensures
            (r.0@, r.1@) == org_split(dataset_id@),
    {
        split_slash_id(dataset_id)
    }

    /// Whether the tag set marks the record as a machine-learning model.
    pub fn is_machine_learning_model(&self, tags: &Vec<String>) -> (r: bool)
        ensures
            r == is_ml_spec(tags@),
    {
        let mut i: usize = 0;
        while i < tags.len()
            invariant
                i <= tags@.len(),
                forall|j: int| 0 <= j < i ==> !ml_tag(tags@[j]@),
            decreases tags@.len() - i,
        {
            if tag_is_ml(tags[i].as_str()) {
                assert(ml_tag(tags@[i as int]@));
                return true;
            }
            i = i + 1;
        }
        false
    }

    /// The primary task of the record, from the first recognized task tag.
    pub fn determine_task(&self, tags: &Vec<String>) -> (r: String)
        ensures
            r@ == determine_task_spec(tags@),
    {
        proof {
            assert(tags@.skip(0) =~= tags@);
        }
        let mut i: usize = 0;
        while i < tags.len()
            invariant
                i <= tags@.len(),
                determine_task_spec(tags@) == determine_task_spec(tags@.skip(i as int)),
            decreases tags@.len() - i,
        {
            let t = tags[i].as_str();
            proof {
                assert(tags@.skip(i as int).drop_first() =~= tags@.skip(i + 1));
                assert(tags@.skip(i as int)[0] == tags@[i as int]);
            }
            if str_eq(t, "text-generation") || str_eq(t, "conversational") || str_eq(
                t,
                "text-classification",
            ) || str_eq(t, "feature-extraction") || str_eq(t, "translation") {
                return tags[i].clone();
            }
            i = i + 1;
        }
        proof {
            assert(tags@.skip(tags@.len() as int).len() == 0);
        }
        String::from_str("text-generation")
    }

    /// The model architecture recorded in card data, if any.
    pub fn get_model_architecture(&self, model_info: &ModelInfo) -> (r: String)
        ensures
            r@ == architecture_spec(*model_info),
    {
        if let Some(cd) = &model_info.card_data {
            if let Some(a) = &cd.architecture {
                return a.clone();
            }
            if let Some(arr) = &cd.architectures {
                if arr.len() > 0 {
                    if let Some(a0) = &arr[0] {
                        return a0.clone();
                    }
                }
            }
        }
        String::from_str("TransformerModel")
    }

    /// Collects every edge the record's card data declares, in declaration
    /// order.
    fn collect_raw_edges(&self, m: &ModelInfo) -> (r: Vec<(String, Option<String>)>)
        ensures
            edges_view(r@) == raw_edges(*m),
    {
        let mut out: Vec<(String, Option<String>)> = Vec::new();
        if let Some(cd) = &m.card_data {
            let rel: Option<String> = match &cd.base_model_relation {
                Some(r) => Some(r.clone()),
                None => self.infer_relation_from_metadata(m, cd),
            };
            proof {
                assert(opt_view(rel) == base_rel(*m, *cd));
                assert(edges_view(out@) =~= Seq::<(Seq<char>, Option<Seq<char>>)>::empty());
            }
            match &cd.base_model {
                Some(CardValue::Text(s)) => {
                    out.push((s.clone(), rel));
                    proof {
                        assert(edges_view(out@) =~= base_edges(*m, *cd));
                    }
                },
                Some(CardValue::List(items)) => {
                    push_list_edges(&mut out, items, &rel);
                    proof {
                        assert(edges_view(out@) =~= base_edges(*m, *cd));
                    }
                },
                _ => {
                    proof {
                        assert(edges_view(out@) =~= base_edges(*m, *cd));
                    }
                },
            }
            if let Some(p) = &cd.parent_model {
                let ghost before = out@;
                out.push((p.clone(), Some(String::from_str("parent"))));
                proof {
                    let pushed = out@[before.len() as int];
                    assert(out@ == before.push(pushed));
                    assert(edges_view(out@) =~= base_edges(*m, *cd) + parent_edges(*cd));
                }
            } else {
                proof {
                    assert(edges_view(out@) =~= base_edges(*m, *cd) + parent_edges(*cd));
                }
            }
            let ghost mid = base_edges(*m, *cd) + parent_edges(*cd);
            match &cd.datasets {
                Some(CardValue::List(items)) => {
                    let train: Option<String> = Some(String::from_str("train"));
                    push_list_edges(&mut out, items, &train);
                    proof {
                        assert(edges_view(out@) =~= mid + dataset_edges(*cd));
                    }
                },
                Some(CardValue::Text(s)) => {
                    let ghost before = out@;
                    out.push((s.clone(), Some(String::from_str("train"))));
                    proof {
                        let pushed = out@[before.len() as int];
                        assert(out@ == before.push(pushed));
                        assert(edges_view(out@) =~= mid + dataset_edges(*cd));
                    }
                },
                _ => {
                    proof {
                        assert(edges_view(out@) =~= mid + dataset_edges(*cd));
                    }
                },
            }
            if let Some(s) = &cd.train_dataset {
                let ghost before = out@;
                out.push((s.clone(), Some(String::from_str("train"))));
                proof {
                    let pushed = out@[before.len() as int];
                    assert(out@ == before.push(pushed));
                    assert(edges_view(out@) =~= mid + dataset_edges(*cd) + train_edges(*cd));
                }
            } else {
                proof {
                    assert(edges_view(out@) =~= mid + dataset_edges(*cd) + train_edges(*cd));
                }
            }
            proof {
                assert(edges_view(out@) =~= raw_edges(*m));
            }
        } else {
            proof {
                assert(edges_view(out@) =~= raw_edges(*m));
            }
        }
        out
    }

    /// The dependency edges of a record: every declared target exactly once,
    /// sorted by target, first-declared relation kept, self-references
    /// dropped. An empty result is the valid "no declared provenance".
    pub fn extract_dependencies(&self, model_info: &ModelInfo) -> (r: Vec<(String, Option<String>)>)
        ensures
            extracted_edges_ok(*model_info, edges_view(r@)),
    {
        let raw = self.collect_raw_edges(model_info);
        let ghost rv = raw_edges(*model_info);
        let mut out: Vec<(String, Option<String>)> = Vec::new();
        let mut k: usize = 0;
        while k < raw.len()
            invariant
                edges_view(raw@) == rv,
                raw@.len() == rv.len(),
                k <= rv.len(),
                edges_sorted(edges_view(out@)),
                out@.len() == edges_view(out@).len(),
                forall|i: int|
                    0 <= i < out@.len() ==> (#[trigger] edges_view(out@)[i]).0
                        != model_info.model_id@,
                forall|i: int|
                    0 <= i < out@.len() ==> has_target_upto(
                        rv,
                        k as int,
                        (#[trigger] edges_view(out@)[i]).0,
                    ) && edges_view(out@)[i].1 == first_rel(rv, edges_view(out@)[i].0),
                forall|t: Seq<char>|
                    has_target_upto(rv, k as int, t) && t != model_info.model_id@ ==> has_target(
                        edges_view(out@),
                        t,
                    ),
            decreases rv.len() - k,
        {
            proof {
                assert(edges_view(raw@)[k as int] == (raw@[k as int].0@, opt_view(
                    raw@[k as int].1,
                )));
            }
            let t = &raw[k].0;
            if !str_eq(t.as_str(), model_info.model_id.as_str()) {
                let (present, pos) = edge_insert_point(&out, t.as_str());
                if !present {
                    proof {
                        assert forall|j: int| 0 <= j < k implies (#[trigger] rv[j]).0
                            != rv[k as int].0 by {
                            if rv[j].0 == rv[k as int].0 {
                                assert(has_target_upto(rv, k as int, rv[k as int].0));
                                assert(has_target(edges_view(out@), rv[k as int].0));
                            }
                        }
                        lemma_first_rel_at(rv, k as int);
                    }
                    let ghost before = edges_view(out@);
                    let e = (t.clone(), clone_opt_string(&raw[k].1));
                    out.insert(pos, e);
                    proof {
                        let ev = (rv[k as int].0, rv[k as int].1);
                        assert(edges_view(out@) =~= before.insert(pos as int, ev));
                        let now = edges_view(out@);
                        assert forall|a: int, b: int| 0 <= a < b < now.len() implies lex_lt(
                            (#[trigger] now[a]).0,
                            (#[trigger] now[b]).0,
                        ) by {
                            if a < pos && b < pos {
                                assert(now[a] == before[a] && now[b] == before[b]);
                            } else if a < pos && b == pos {
                                assert(now[a] == before[a]);
                            } else if a < pos && b > pos {
                                assert(now[a] == before[a] && now[b] == before[b - 1]);
                            } else if a == pos && b > pos {
                                assert(now[b] == before[b - 1]);
                            } else if a > pos && b > pos {
                                assert(now[a] == before[a - 1] && now[b] == before[b - 1]);
                            }
                        }
                        assert forall|i: int|
                            0 <= i < now.len() implies (#[trigger] now[i]).0
                            != model_info.model_id@ && has_target_upto(rv, k + 1, now[i].0)
                            && now[i].1 == first_rel(rv, now[i].0) by {
                            if i < pos {
                                assert(now[i] == before[i]);
                            } else if i > pos {
                                assert(now[i] == before[i - 1]);
                            }
                            assert(has_target_upto(rv, k + 1, now[i].0));
                        }
                        assert forall|tt: Seq<char>|
                            has_target_upto(rv, k + 1, tt) && tt
                                != model_info.model_id@ implies has_target(now, tt) by {
                            if tt == rv[k as int].0 {
                                assert(now[pos as int].0 == tt);
                            } else {
                                assert(has_target_upto(rv, k as int, tt));
                                let w = choose|w: int|
                                    0 <= w < before.len() && (#[trigger] before[w]).0 == tt;
                                if w < pos {
                                    assert(now[w].0 == tt);
                                } else {
                                    assert(now[w + 1].0 == tt);
                                }
                            }
                        }
                    }
                } else {
                    proof {
                        assert forall|tt: Seq<char>|
                            has_target_upto(rv, k + 1, tt) && tt
                                != model_info.model_id@ implies has_target(
                                edges_view(out@),
                                tt,
                            ) by {
                            if tt != rv[k as int].0 {
                                assert(has_target_upto(rv, k as int, tt));
                            }
                        }
                    }
                }
            } else {
                proof {
                    assert forall|tt: Seq<char>|
                        has_target_upto(rv, k + 1, tt) && tt
                            != model_info.model_id@ implies has_target(edges_view(out@), tt) by {
                        if tt != rv[k as int].0 {
                            assert(has_target_upto(rv, k as int, tt));
                        }
                    }
                }
            }
            k = k + 1;
        }
        proof {
            assert forall|i: int|
                0 <= i < edges_view(out@).len() implies has_target(
                rv,
                (#[trigger] edges_view(out@)[i]).0,
            ) by {
                assert(has_target_upto(rv, rv.len() as int, edges_view(out@)[i].0));
            }
            assert forall|t: Seq<char>|
                has_target(rv, t) && t != model_info.model_id@ implies has_target(
                edges_view(out@),
                t,
            ) by {
                assert(has_target_upto(rv, rv.len() as int, t));
            }
        }
        out
    }

    /// Infers the relation of the record to its base model, trying the
    /// stages of `infer_relation_spec` in their fixed priority order.
    pub fn infer_relation_from_metadata(
        &self,
        model_info: &ModelInfo,
        card_data: &CardData,
    ) -> (r: Option<String>)
        ensures
            opt_view(r) == infer_relation_spec(*model_info, *card_data),
    {
        if let Some(l) = &card_data.library_name {
            if str_eq(l.as_str(), "adapter-transformers") || str_eq(l.as_str(), "adapters") {
                return Some(String::from_str("adapter"));
            }
            if str_eq(l.as_str(), "peft") {
                return Some(String::from_str("lora"));
            }
        }
        if card_data.quantized_by.is_some() {
            return Some(String::from_str("quantized"));
        }
        let tags = &model_info.tags;
        proof {
            assert(tags@.skip(0) =~= tags@);
        }
        let mut i: usize = 0;
        while i < tags.len()
            invariant
                i <= tags@.len(),
                tag_scan_relation(tags@) == tag_scan_relation(tags@.skip(i as int)),
                tags@ == model_info.tags@,
                library_relation(*card_data) is None,
                quantized_relation(*card_data) is None,
            decreases tags@.len() - i,
        {
            proof {
                assert(tags@.skip(i as int).drop_first() =~= tags@.skip(i + 1));
                assert(tags@.skip(i as int)[0] == tags@[i as int]);
            }
            if let Some(rel) = tag_relation(tags[i].as_str()) {
                assert(tag_scan_relation(tags@) == Some(rel@));
                return Some(rel);
            }
            i = i + 1;
        }
        proof {
            assert(tags@.skip(tags@.len() as int).len() == 0);
        }
        if let Some(bm) = &card_data.base_model {
            let many = match bm {
                CardValue::List(items) => items.len() > 1,
                _ => false,
            };
            if many || tags_mention_merge(&model_info.tags) {
                return Some(String::from_str("merged"));
            }
        }
        name_pattern_relation(model_info.model_id.as_str())
    }

    /// The license named by the first `license:`-prefixed tag, if any.
    pub fn extract_license_from_tags(&self, tags: &Vec<String>) -> (r: Option<String>)
        ensures
            opt_view(r) == license_from_tags_spec(tags@),
    {
        proof {
            assert(tags@.skip(0) =~= tags@);
        }
        let mut i: usize = 0;
        while i < tags.len()
            invariant
                i <= tags@.len(),
                license_from_tags_spec(tags@) == license_from_tags_spec(tags@.skip(i as int)),
            decreases tags@.len() - i,
        {
            proof {
                assert(tags@.skip(i as int).drop_first() =~= tags@.skip(i + 1));
                assert(tags@.skip(i as int)[0] == tags@[i as int]);
            }
            if let Some(rest) = str_strip_prefix(tags[i].as_str(), "license:") {
                return Some(rest);
            }
            i = i + 1;
        }
        proof {
            assert(tags@.skip(tags@.len() as int).len() == 0);
        }
        None
    }
}

proof fn lemma_list_edges_concat(
    a: Seq<Option<String>>,
    b: Seq<Option<String>>,
    rel: Option<Seq<char>>,
)
    ensures
        list_edges(a + b, rel) == list_edges(a, rel) + list_edges(b, rel),
    decreases a.len(),
{
    if a.len() == 0 {
        assert(a + b =~= b);
        assert(list_edges(a, rel) + list_edges(b, rel) =~= list_edges(b, rel));
    } else {
        lemma_list_edges_concat(a.drop_first(), b, rel);
        assert((a + b).drop_first() =~= a.drop_first() + b);
        assert((a + b)[0] == a[0]);
        match a[0] {
            Some(s) => {
                assert(seq![(s@, rel)] + (list_edges(a.drop_first(), rel) + list_edges(b, rel))
                    =~= (seq![(s@, rel)] + list_edges(a.drop_first(), rel)) + list_edges(b, rel));
            },
            None => {},
        }
    }
}

/// A copy of an optional owned string.
fn clone_opt_string(o: &Option<String>) -> (r: Option<String>)
    ensures
        r == *o,
{
    match o {
        Some(s) => Some(s.clone()),
        None => None,
    }
}

/// Appends an edge for each string item of `items`, labeled `rel`.
fn push_list_edges(
    out: &mut Vec<(String, Option<String>)>,
    items: &Vec<Option<String>>,
    rel: &Option<String>,
)
    ensures
        edges_view(final(out)@) == edges_view(old(out)@) + list_edges(items@, opt_view(*rel)),
{
    let ghost base = out@;
    proof {
        assert(items@.take(0) =~= Seq::<Option<String>>::empty());
        assert(edges_view(out@) =~= edges_view(base) + list_edges(items@.take(0), opt_view(*rel)));
    }
    let mut i: usize = 0;
    while i < items.len()
        invariant
            i <= items@.len(),
            edges_view(out@) == edges_view(base) + list_edges(
                items@.take(i as int),
                opt_view(*rel),
            ),
        decreases items@.len() - i,
    {
        proof {
            let itm = items@[i as int];
            assert(items@.take(i + 1) =~= items@.take(i as int) + seq![itm]);
            lemma_list_edges_concat(items@.take(i as int), seq![itm], opt_view(*rel));
            assert(seq![itm].drop_first() =~= Seq::<Option<String>>::empty());
            assert(list_edges(Seq::<Option<String>>::empty(), opt_view(*rel))
                == Seq::<(Seq<char>, Option<Seq<char>>)>::empty());
            if itm is Some {
                assert(list_edges(seq![itm], opt_view(*rel)) =~= seq![(itm->0@, opt_view(*rel))]);
            } else {
                assert(list_edges(seq![itm], opt_view(*rel)) =~= Seq::<
                    (Seq<char>, Option<Seq<char>>),
                >::empty());
            }
        }
        let ghost before = out@;
        if let Some(s) = &items[i] {
            out.push((s.clone(), clone_opt_string(rel)));
            proof {
                let pushed = out@[before.len() as int];
                assert(out@ == before.push(pushed));
                assert(pushed.0@ == items@[i as int]->0@);
                assert(opt_view(pushed.1) == opt_view(*rel));
                assert(edges_view(out@) =~= edges_view(before).push(
                    (pushed.0@, opt_view(pushed.1)),
                ));
                assert(list_edges(items@.take(i + 1), opt_view(*rel)) == list_edges(
                    items@.take(i as int),
                    opt_view(*rel),
                ) + seq![(items@[i as int]->0@, opt_view(*rel))]);
                assert(edges_view(out@) =~= edges_view(base) + list_edges(
                    items@.take(i + 1),
                    opt_view(*rel),
                ));
            }
        } else {
            proof {
                assert(edges_view(out@) =~= edges_view(base) + list_edges(
                    items@.take(i + 1),
                    opt_view(*rel),
                ));
            }
        }
        i = i + 1;
    }
    proof {
        assert(items@.take(items@.len() as int) =~= items@);
    }
}

/// Looks for `t` among the targets of the sorted edge list `out`: reports
/// whether it is there, and if not, where it belongs.
fn edge_insert_point(out: &Vec<(String, Option<String>)>, t: &str) -> (r: (bool, usize))
    requires
        edges_sorted(edges_view(out@)),
    ensures
        r.0 == has_target(edges_view(out@), t@),
        !r.0 ==> r.1 <= out@.len() && (forall|i: int|
            0 <= i < r.1 ==> lex_lt((#[trigger] edges_view(out@)[i]).0, t@)) && (forall|i: int|
            r.1 <= i < out@.len() ==> lex_lt(t@, (#[trigger] edges_view(out@)[i]).0)),
{
    let ghost ov = edges_view(out@);
    let mut i: usize = 0;
    while i < out.len()
        invariant
            ov == edges_view(out@),
            ov.len() == out@.len(),
            edges_sorted(ov),
            i <= out@.len(),
            forall|j: int| 0 <= j < i ==> lex_lt((#[trigger] ov[j]).0, t@),
        decreases out@.len() - i,
    {
        proof {
            assert(ov[i as int] == (out@[i as int].0@, opt_view(out@[i as int].1)));
        }
        if str_eq(out[i].0.as_str(), t) {
            assert(has_target(ov, t@));
            return (true, i);
        }
        if !str_lt(out[i].0.as_str(), t) {
            proof {
                lemma_lex_lt_total(ov[i as int].0, t@);
                assert(lex_lt(t@, ov[i as int].0));
                assert forall|j: int| i <= j < ov.len() implies lex_lt(
                    t@,
                    (#[trigger] ov[j]).0,
                ) by {
                    if j > i {
                        lemma_lex_lt_trans(t@, ov[i as int].0, ov[j].0);
                    }
                }
                assert forall|k: int| 0 <= k < ov.len() implies (#[trigger] ov[k]).0 != t@ by {
                    if ov[k].0 == t@ {
                        lemma_lex_lt_irrefl(t@);
                    }
                }
            }
            return (false, i);
        }
        i = i + 1;
    }
    proof {
        assert forall|k: int| 0 <= k < ov.len() implies (#[trigger] ov[k]).0 != t@ by {
            if ov[k].0 == t@ {
                lemma_lex_lt_irrefl(t@);
            }
        }
    }
    (false, i)
}

/// Maps a `base_model:<kind>:<target>` kind to its relation.
fn base_kind(kind: &str) -> (r: Option<String>)
    ensures
        opt_view(r) == base_kind_relation(kind@),
{
    if str_eq(kind, "finetune") || str_eq(kind, "finetuned") {
        Some(String::from_str("finetuned"))
    } else if str_eq(kind, "adapter") {
        Some(String::from_str("adapter"))
    } else if str_eq(kind, "lora") || str_eq(kind, "qlora") {
        Some(String::from_str("lora"))
    } else if str_eq(kind, "quantized") || str_eq(kind, "quantization") {
        Some(String::from_str("quantized"))
    } else if str_eq(kind, "merged") || str_eq(kind, "merge") {
        Some(String::from_str("merged"))
    } else if str_eq(kind, "distilled") || str_eq(kind, "distillation") {
        Some(String::from_str("distilled"))
    } else {
        None
    }
}

/// Maps a bare, lowercased convention tag to its relation.
fn simple_tag(lo: &str) -> (r: Option<String>)
    ensures
        opt_view(r) == simple_tag_relation(lo@),
{
    if str_eq(lo, "lora") || str_eq(lo, "qlora") {
        Some(String::from_str("lora"))
    } else if str_eq(lo, "adapter") {
        Some(String::from_str("adapter"))
    } else if str_eq(lo, "instruction-tuning") || str_eq(lo, "chat") {
        Some(String::from_str("finetuned"))
    } else if str_eq(lo, "distillation") {
        Some(String::from_str("distilled"))
    } else if str_eq(lo, "onnx") || str_eq(lo, "tensorrt") {
        Some(String::from_str("converted"))
    } else if str_eq(lo, "pruning") {
        Some(String::from_str("pruned"))
    } else {
        None
    }
}

/// The relation one tag names, as `tag_relation_one` describes.
fn tag_relation(t: &str) -> (r: Option<String>)
    ensures
        opt_view(r) == tag_relation_one(t@),
{
    let lo = to_lower(t);
    let los = lo.as_str();
    if str_starts_with(los, "base_model:") {
        let lov = str_chars(los);
        proof {
            assert(los@.skip(0) =~= los@);
        }
        let i = find_char_from(&lov, ':', 0);
        if i < lov.len() {
            let j = find_char_from(&lov, ':', i + 1);
            if j < lov.len() {
                let head = los.substring_char(0, i);
                if str_eq(head, "base_model") {
                    let kind = los.substring_char(i + 1, j);
                    return base_kind(kind);
                }
            }
        }
        None
    } else {
        simple_tag(los)
    }
}

/// Whether some tag mentions merging, case-insensitively.
fn tags_mention_merge(tags: &Vec<String>) -> (r: bool)
    ensures
        r == has_merge_tag(tags@),
{
    let mut i: usize = 0;
    while i < tags.len()
        invariant
            i <= tags@.len(),
            forall|j: int| 0 <= j < i ==> !has_sub(lower_of(tags@[j]@), "merge"@),
        decreases tags@.len() - i,
    {
        let lo = to_lower(tags[i].as_str());
        if str_contains(lo.as_str(), "merge") {
            assert(has_sub(lower_of(tags@[i as int]@), "merge"@));
            return true;
        }
        i = i + 1;
    }
    false
}

/// The relation suggested by the identifier's name, as `name_relation`
/// describes.
fn name_pattern_relation(id: &str) -> (r: Option<String>)
    ensures
        opt_view(r) == name_relation(id@),
{
    let low = to_lower(id);
    let lo = low.as_str();
    if str_contains(lo, "gguf") || str_contains(lo, "gptq") || str_contains(lo, "awq")
        || str_contains(lo, "int4") || str_contains(lo, "int8") {
        Some(String::from_str("quantized"))
    } else if str_contains(lo, "lora") || str_contains(lo, "qlora") {
        Some(String::from_str("lora"))
    } else if str_contains(lo, "adapter") {
        Some(String::from_str("adapter"))
    } else if str_contains(lo, "merge") {
        Some(String::from_str("merged"))
    } else if str_contains(lo, "finetune") || str_contains(lo, "ft") {
        Some(String::from_str("finetuned"))
    } else if str_contains(lo, "instruct") || str_contains(lo, "chat") {
        Some(String::from_str("finetuned"))
    } else if str_contains(lo, "distil") {
        Some(String::from_str("distilled"))
    } else if str_contains(lo, "onnx") {
        Some(String::from_str("converted"))
    } else if str_contains(lo, "prune") {
        Some(String::from_str("pruned"))
    } else {
        None
    }
}

/// Whether one tag is a machine-learning task tag.
fn tag_is_ml(t: &str) -> (r: bool)
    ensures
        r == ml_tag(t@),
{
    str_eq(t, "text-generation") || str_eq(t, "conversational") || str_eq(t, "text-classification")
        || str_eq(t, "feature-extraction") || str_eq(t, "translation") || str_eq(t, "summarization")
        || str_eq(t, "question-answering") || str_eq(t, "fill-mask") || str_eq(
        t,
        "token-classification",
    ) || str_eq(t, "image-classification") || str_eq(t, "object-detection") || str_eq(
        t,
        "image-segmentation",
    ) || str_eq(t, "audio-classification") || str_eq(t, "automatic-speech-recognition") || str_eq(
        t,
        "text-to-speech",
    ) || str_eq(t, "reinforcement-learning")
}

/// Splits a slash-separated identifier as `org_split` describes.
fn split_slash_id(id: &str) -> (r: (String, String))
    ensures
        (r.0@, r.1@) == org_split(id@),
{
    let chars = str_chars(id);
    proof {
        assert(id@.skip(0) =~= id@);
    }
    let n = chars.len();
    let i = find_char_from(&chars, '/', 0);
    if i < n {
        let j = find_char_from(&chars, '/', i + 1);
        let org = id.substring_char(0, i);
        let name = id.substring_char(i + 1, j);
        (org.to_owned(), name.to_owned())
    } else {
        (String::from_str("huggingface"), id.to_owned())
    }
}

} // verus!
