//! Building output components: one for a dataset leaf, one for a resolved
//! model record, and one for the document's own application entry.
use vstd::prelude::*;
use vstd::string::*;

use crate::license_handler::LicenseHandler;
use crate::license_handler::is_spdx_info;
use crate::license_handler::stage1_found;
use crate::license_handler::stage1_id;
use crate::license_handler::stage2_name;
use crate::model_analyzer::ModelAnalyzer;
use crate::model_analyzer::architecture_spec;
use crate::model_analyzer::determine_task_spec;
use crate::model_analyzer::is_ml_spec;
use crate::model_analyzer::license_from_tags_spec;
use crate::model_analyzer::opt_view;
use crate::model_analyzer::org_split;
use crate::models::Author;
use crate::models::Component;
use crate::models::ExternalReference;
use crate::models::License;
use crate::models::ModelCard;
use crate::models::ModelInfo;
use crate::models::ModelParameters;
use crate::models::InputOutputData;
use crate::models::Organization;
use crate::models::Property;
use crate::models::QuantitativeAnalysis;
use crate::text::str_replace_char;

verus! {

/// The stable reference of a model component.
pub open spec fn model_ref(id: Seq<char>) -> Seq<char> {
    "pkg:huggingface/"@ + id + "@1.0"@
}

/// The stable reference of a dataset component.
pub open spec fn dataset_ref(id: Seq<char>) -> Seq<char> {
    "pkg:huggingface-dataset/"@ + id + "@1.0"@
}

/// The stable reference of the document's application component.
pub open spec fn app_ref(id: Seq<char>) -> Seq<char> {
    "pkg:generic/"@ + escape_slash(id) + "@1.0"@
}

/// `s` with every slash written as the escape `%2F`.
pub open spec fn escape_slash(s: Seq<char>) -> Seq<char>
    decreases s.len(),
{
    if s.len() == 0 {
        Seq::empty()
    } else {
        let rest = escape_slash(s.drop_first());
        if s[0] == '/' {
            "%2F"@ + rest
        } else {
            seq![s[0]] + rest
        }
    }
}

/// Model references are formed deterministically from the identifier:
/// equal references mean equal identifiers.
pub proof fn lemma_model_ref_inj(a: Seq<char>, b: Seq<char>)
    requires
        model_ref(a) == model_ref(b),
    ensures
        a == b,
{
    broadcast use vstd::string::group_string_axioms;

    reveal_strlit("pkg:huggingface/");
    reveal_strlit("@1.0");
    assert(model_ref(a).len() == 16 + a.len() + 4);
    assert(a.len() == b.len());
    assert forall|i: int| 0 <= i < a.len() implies a[i] == b[i] by {
        assert(model_ref(a)[16 + i] == a[i]);
        assert(model_ref(b)[16 + i] == b[i]);
    }
    assert(a =~= b);
}

/// Dataset references are formed deterministically from the identifier:
/// equal references mean equal identifiers.
pub proof fn lemma_dataset_ref_inj(a: Seq<char>, b: Seq<char>)
    requires
        dataset_ref(a) == dataset_ref(b),
    ensures
        a == b,
{
    broadcast use vstd::string::group_string_axioms;

    reveal_strlit("pkg:huggingface-dataset/");
    reveal_strlit("@1.0");
    assert(dataset_ref(a).len() == 24 + a.len() + 4);
    assert(a.len() == b.len());
    assert forall|i: int| 0 <= i < a.len() implies a[i] == b[i] by {
        assert(dataset_ref(a)[24 + i] == a[i]);
        assert(dataset_ref(b)[24 + i] == b[i]);
    }
    assert(a =~= b);
}

/// A model reference never collides with a dataset reference.
pub proof fn lemma_refs_distinct(a: Seq<char>, b: Seq<char>)
    ensures
        model_ref(a) != dataset_ref(b),
{
    broadcast use vstd::string::group_string_axioms;

    reveal_strlit("pkg:huggingface/");
    reveal_strlit("pkg:huggingface-dataset/");
    reveal_strlit("@1.0");
    if model_ref(a) == dataset_ref(b) {
        assert(model_ref(a)[15] == "pkg:huggingface/"@[15]);
        assert(dataset_ref(b)[15] == "pkg:huggingface-dataset/"@[15]);
        assert(model_ref(a)[15] == '/');
        assert(dataset_ref(b)[15] == '-');
    }
}

/// The organization part of an identifier.
pub open spec fn org_of(id: Seq<char>) -> Seq<char> {
    org_split(id).0
}

/// The artifact-name part of an identifier.
pub open spec fn name_of(id: Seq<char>) -> Seq<char> {
    org_split(id).1
}

/// The page of an artifact or organization at the hosting service.
pub open spec fn hf_url(id: Seq<char>) -> Seq<char> {
    "https://huggingface.co/"@ + id
}

/// The page of a dataset or dataset organization at the hosting service.
pub open spec fn hf_ds_url(id: Seq<char>) -> Seq<char> {
    "https://huggingface.co/datasets/"@ + id
}

/// The file listing of an artifact at the hosting service.
pub open spec fn hf_tree_url(id: Seq<char>) -> Seq<char> {
    hf_url(id) + "/tree/main"@
}

/// `s` with every slash turned into a dash.
pub open spec fn dash_slash(s: Seq<char>) -> Seq<char> {
    Seq::new(s.len(), |i: int| if s[i] == '/' { '-' } else { s[i] })
}

/// An organization entry pointing at one URL.
pub open spec fn is_org(o: Organization, name: Seq<char>, url: Seq<char>) -> bool {
    &&& o.name@ == name
    &&& o.url matches Some(u) && u.len() == 1 && u[0]@ == url
}

/// One property with the given name and value.
pub open spec fn prop_is(p: Property, n: Seq<char>, v: Seq<char>) -> bool {
    p.name@ == n && p.value@ == v
}

/// The component a dataset leaf is given.
pub open spec fn is_dataset_component(c: Component, id: Seq<char>) -> bool {
    &&& c.component_type@ == "data"@
    &&& c.bom_ref@ == dataset_ref(id)
    &&& c.name@ == name_of(id)
    &&& c.version matches Some(v) && v@ == "1.0"@
    &&& c.description matches Some(d) && d@ == "Training dataset"@
    &&& c.group matches Some(g) && g@ == org_of(id)
    &&& c.publisher matches Some(p) && p@ == org_of(id)
    &&& c.supplier matches Some(o) && is_org(o, org_of(id), hf_ds_url(org_of(id)))
    &&& c.manufacturer matches Some(o) && is_org(o, org_of(id), hf_ds_url(org_of(id)))
    &&& c.authors matches Some(a) && a.len() == 1 && a[0].name@ == org_of(id)
    &&& c.copyright matches Some(x) && x@ == "NOASSERTION"@
    &&& c.licenses is None
    &&& c.external_references matches Some(er) && er.len() == 1 && er[0].ref_type@ == "website"@
        && er[0].url@ == hf_ds_url(id) && (er[0].comment matches Some(cm) && cm@
        == "Dataset repository"@)
    &&& c.purl matches Some(pl) && pl@ == dataset_ref(id)
    &&& c.model_card is None
}

/// The component the document's application entry is given.
pub open spec fn is_app_component(c: Component, id: Seq<char>) -> bool {
    &&& c.component_type@ == "application"@
    &&& c.bom_ref@ == app_ref(id)
    &&& c.name@ == name_of(id)
    &&& c.version matches Some(v) && v@ == "1.0"@
    &&& c.description matches Some(d) && d@ == "No description available"@
    &&& c.group is None
    &&& c.publisher is None
    &&& c.supplier is None
    &&& c.manufacturer is None
    &&& c.authors is None
    &&& c.copyright matches Some(x) && x@ == "NOASSERTION"@
    &&& c.licenses is None
    &&& c.external_references is None
    &&& c.purl matches Some(pl) && pl@ == app_ref(id)
    &&& c.model_card is None
}

proof fn lemma_escape_concat(a: Seq<char>, b: Seq<char>)
    ensures
        escape_slash(a + b) == escape_slash(a) + escape_slash(b),
    decreases a.len(),
{
    if a.len() == 0 {
        assert(a + b =~= b);
        assert(escape_slash(a) + escape_slash(b) =~= escape_slash(b));
    } else {
        lemma_escape_concat(a.drop_first(), b);
        assert((a + b).drop_first() =~= a.drop_first() + b);
        assert((a + b)[0] == a[0]);
        if a[0] == '/' {
            assert("%2F"@ + (escape_slash(a.drop_first()) + escape_slash(b)) =~= ("%2F"@
                + escape_slash(a.drop_first())) + escape_slash(b));
        } else {
            assert(seq![a[0]] + (escape_slash(a.drop_first()) + escape_slash(b)) =~= (seq![a[0]]
                + escape_slash(a.drop_first())) + escape_slash(b));
        }
    }
}

/// `s` with every slash written as the escape `%2F`.
fn escape_slashes(s: &str) -> (r: String)
    ensures
        r@ == escape_slash(s@),
{
    let sv = crate::text::str_chars(s);
    let mut out: Vec<char> = Vec::new();
    proof {
        assert(s@.take(0) =~= Seq::<char>::empty());
        assert(out@ =~= escape_slash(s@.take(0)));
    }
    let mut i: usize = 0;
    while i < sv.len()
        invariant
            sv@ == s@,
            i <= s@.len(),
            out@ == escape_slash(s@.take(i as int)),
        decreases s@.len() - i,
    {
        proof {
            assert(s@.take(i + 1) =~= s@.take(i as int) + seq![s@[i as int]]);
            lemma_escape_concat(s@.take(i as int), seq![s@[i as int]]);
            assert(seq![s@[i as int]].drop_first() =~= Seq::<char>::empty());
            assert(escape_slash(Seq::<char>::empty()) =~= Seq::<char>::empty());
            assert(escape_slash(seq![s@[i as int]].drop_first()) =~= Seq::<char>::empty());
            reveal_strlit("%2F");
        }
        let c = sv[i];
        if c == '/' {
            out.push('%');
            out.push('2');
            out.push('F');
            proof {
                assert("%2F"@.len() == 3);
                assert(escape_slash(seq![s@[i as int]]) =~= "%2F"@ + Seq::<char>::empty());
                assert(out@ =~= escape_slash(s@.take(i + 1)));
            }
        } else {
            out.push(c);
            proof {
                assert(escape_slash(seq![s@[i as int]]) =~= seq![s@[i as int]] + Seq::<
                    char,
                >::empty());
                assert(out@ =~= escape_slash(s@.take(i + 1)));
            }
        }
        i = i + 1;
    }
    proof {
        assert(s@.take(s@.len() as int) =~= s@);
    }
    crate::text::chars_string(&out)
}

/// The free-text license the engine starts from: the record's license
/// field, else the first `license:` tag.
pub open spec fn license_text_of(m: ModelInfo) -> Option<Seq<char>> {
    match m.license {
        Some(l) => Some(l@),
        None => license_from_tags_spec(m.tags@),
    }
}

/// The raw JSON text of the external-references property.
pub open spec fn ext_refs_json(id: Seq<char>) -> Seq<char> {
    "[{\"type\": \"website\", \"url\": \"https://huggingface.co/"@ + id
        + "\", \"comment\": \"Model repository\"}, {\"type\": \"distribution\", \"url\": \"https://huggingface.co/"@
        + id + "/tree/main\", \"comment\": \"Model files\"}]"@
}

/// The descriptive properties a model card carries, with the relation
/// appended when one was inferred.
pub open spec fn model_props_ok(ps: Seq<Property>, m: ModelInfo, relation: Option<Seq<char>>) -> bool {
    let id = m.model_id@;
    &&& ps.len() == if relation is Some {
        10int
    } else {
        9int
    }
    &&& prop_is(ps[0], "bomFormat"@, "CycloneDX"@)
    &&& prop_is(ps[1], "specVersion"@, "1.6"@)
    &&& prop_is(ps[2], "serialNumber"@, "urn:uuid:"@ + dash_slash(id))
    &&& prop_is(ps[3], "version"@, "1.0.0"@)
    &&& prop_is(ps[4], "primaryPurpose"@, determine_task_spec(m.tags@))
    &&& prop_is(ps[5], "suppliedBy"@, org_of(id))
    &&& prop_is(ps[6], "typeOfModel"@, "transformer"@)
    &&& prop_is(ps[7], "downloadLocation"@, hf_tree_url(id))
    &&& prop_is(ps[8], "external_references"@, ext_refs_json(id))
    &&& (relation matches Some(rl) ==> prop_is(ps[9], "ai.model.relation"@, rl))
}

/// The model card of a machine-learning component.
pub open spec fn is_model_card(mc: ModelCard, m: ModelInfo, relation: Option<Seq<char>>) -> bool {
    &&& mc.model_parameters matches Some(mp) && {
        &&& mp.architecture_family matches Some(af) && af@ == "transformer"@
        &&& mp.model_architecture matches Some(ma) && ma@ == architecture_spec(m)
        &&& mp.task matches Some(t) && t@ == determine_task_spec(m.tags@)
        &&& mp.inputs matches Some(ins) && ins.len() == 1 && ins[0].format@ == "text"@
        &&& mp.outputs matches Some(outs) && outs.len() == 1 && outs[0].format@
            == "generated-text"@
    }
    &&& mc.properties matches Some(ps) && model_props_ok(ps@, m, relation)
    &&& mc.quantitative_analysis matches Some(qa) && (qa.graphics matches Some(g) && g@ == "{}"@)
        && qa.performance_metrics is None
}

/// The normalized license entries of a model component, given the probe
/// outcome for its identifier.
pub open spec fn model_licenses_ok(c: Component, m: ModelInfo, probe: Option<Seq<char>>) -> bool {
    match license_text_of(m) {
        None => c.licenses is None,
        Some(lt) => if stage1_found(lt) {
            c.licenses matches Some(ls) && ls.len() == 1 && is_spdx_info(
                ls[0].license,
                stage1_id(lt),
            )
        } else if probe is Some {
            c.licenses matches Some(ls) && ls.len() == 1 && ls[0].license.id is None
                && (ls[0].license.name matches Some(n) && n@ == stage2_name(lt, m)) && (
            ls[0].license.url matches Some(x) && x@ == probe->0)
        } else {
            c.licenses is None
        },
    }
}

/// The component a resolved model record is given.
pub open spec fn is_model_component(
    c: Component,
    m: ModelInfo,
    relation: Option<Seq<char>>,
    probe: Option<Seq<char>>,
) -> bool {
    let id = m.model_id@;
    &&& c.component_type@ == "machine-learning-model"@
    &&& c.bom_ref@ == model_ref(id)
    &&& c.name@ == name_of(id)
    &&& c.version matches Some(v) && v@ == "1.0"@
    &&& c.description matches Some(d) && d@ == "No description available"@
    &&& c.group matches Some(g) && g@ == org_of(id)
    &&& c.publisher matches Some(p) && p@ == org_of(id)
    &&& c.supplier matches Some(o) && is_org(o, org_of(id), hf_url(org_of(id)))
    &&& c.manufacturer matches Some(o) && is_org(o, org_of(id), hf_url(org_of(id)))
    &&& c.authors matches Some(a) && a.len() == 1 && a[0].name@ == org_of(id)
    &&& c.copyright matches Some(x) && x@ == "NOASSERTION"@
    &&& model_licenses_ok(c, m, probe)
    &&& c.external_references matches Some(er) && er.len() == 1 && er[0].ref_type@ == "website"@
        && er[0].url@ == hf_url(id) && er[0].comment is None
    &&& c.purl matches Some(pl) && pl@ == model_ref(id)
    &&& if is_ml_spec(m.tags@) {
        c.model_card matches Some(mc) && is_model_card(mc, m, relation)
    } else {
        c.model_card is None
    }
}

/// The stable reference of a model component, as a string.
pub fn model_ref_string(id: &str) -> (r: String)
    ensures
        r@ == model_ref(id@),
{
    let mut s = String::from_str("pkg:huggingface/");
    s.append(id);
    s.append("@1.0");
    s
}

/// The stable reference of a dataset component, as a string.
pub fn dataset_ref_string(id: &str) -> (r: String)
    ensures
        r@ == dataset_ref(id@),
{
    let mut s = String::from_str("pkg:huggingface-dataset/");
    s.append(id);
    s.append("@1.0");
    s
}

/// Builds output components; bundles the analyzer and license handler it
/// draws on.
pub struct ComponentGenerator {
    pub license_handler: LicenseHandler,
    pub model_analyzer: ModelAnalyzer,
}

impl ComponentGenerator {
    pub fn new() -> (r: Self) {
        ComponentGenerator { license_handler: LicenseHandler::new(), model_analyzer: ModelAnalyzer::new() }
    }

    /// The component of one dataset leaf; datasets are never fetched, so
    /// everything here derives from the identifier.
    pub fn create_dataset_component(&self, dataset_id: &str) -> (c: Component)
        ensures
            is_dataset_component(c, dataset_id@),
    {
        let (org, dataset_name) = self.model_analyzer.extract_organization_from_dataset_id(
            dataset_id,
        );
        let version = String::from_str("1.0");
        let mut purl = String::from_str("pkg:huggingface-dataset/");
        purl.append(dataset_id);
        purl.append("@1.0");
        let mut org_url = String::from_str("https://huggingface.co/datasets/");
        org_url.append(org.as_str());
        let mut ds_url = String::from_str("https://huggingface.co/datasets/");
        ds_url.append(dataset_id);
        Component {
            component_type: String::from_str("data"),
            bom_ref: purl.clone(),
            name: dataset_name,
            version: Some(version),
            description: Some(String::from_str("Training dataset")),
            group: Some(org.clone()),
            publisher: Some(org.clone()),
            supplier: Some(
                Organization { name: org.clone(), url: Some(vec![org_url.clone()]) },
            ),
            manufacturer: Some(Organization { name: org.clone(), url: Some(vec![org_url]) }),
            authors: Some(vec![Author { name: org }]),
            copyright: Some(String::from_str("NOASSERTION")),
            licenses: None,
            external_references: Some(
                vec![
                    ExternalReference {
                        ref_type: String::from_str("website"),
                        url: ds_url,
                        comment: Some(String::from_str("Dataset repository")),
                    },
                ],
            ),
            purl: Some(purl),
            model_card: None,
        }
    }

    /// The component of one resolved model record. `relation` labels its
    /// base-model edge; `probe_url` is the license-probe outcome for its
    /// identifier, consulted only when canonical license matching fails.
    #[verifier::rlimit(50)]
    pub fn model_info_to_component(
        &self,
        model_info: &ModelInfo,
        relation: Option<String>,
        probe_url: Option<String>,
    ) -> (c: Component)
        ensures
            is_model_component(c, *model_info, opt_view(relation), opt_view(probe_url)),
    {
        let id = model_info.model_id.as_str();
        let (org, model_name) = self.model_analyzer.extract_organization_from_model_id(id);
        let mut purl = String::from_str("pkg:huggingface/");
        purl.append(id);
        purl.append("@1.0");
        let license_str: Option<String> = match &model_info.license {
            Some(l) => Some(l.clone()),
            None => self.model_analyzer.extract_license_from_tags(&model_info.tags),
        };
        let licenses: Option<Vec<License>> = match &license_str {
            Some(lt) => match self.license_handler.normalize_license(
                lt.as_str(),
                model_info,
                probe_url,
            ) {
                Some(li) => Some(vec![License { license: li }]),
                None => None,
            },
            None => None,
        };
        let ml = self.model_analyzer.is_machine_learning_model(&model_info.tags);
        let model_card: Option<ModelCard> = if ml {
            let task = self.model_analyzer.determine_task(&model_info.tags);
            let architecture = self.model_analyzer.get_model_architecture(model_info);
            let mut serial = String::from_str("urn:uuid:");
            let dashed = str_replace_char(id, '/', '-');
            proof {
                assert(dashed@ =~= dash_slash(model_info.model_id@));
            }
            serial.append(dashed.as_str());
            let mut dl = String::from_str("https://huggingface.co/");
            dl.append(id);
            dl.append("/tree/main");
            let mut ext = String::from_str(
                "[{\"type\": \"website\", \"url\": \"https://huggingface.co/",
            );
            ext.append(id);
            ext.append(
                "\", \"comment\": \"Model repository\"}, {\"type\": \"distribution\", \"url\": \"https://huggingface.co/",
            );
            ext.append(id);
            ext.append("/tree/main\", \"comment\": \"Model files\"}]");
            let mut properties: Vec<Property> = Vec::new();
            properties.push(
                Property {
                    name: String::from_str("bomFormat"),
                    value: String::from_str("CycloneDX"),
                },
            );
            properties.push(
                Property { name: String::from_str("specVersion"), value: String::from_str("1.6") },
            );
            properties.push(Property { name: String::from_str("serialNumber"), value: serial });
            properties.push(
                Property { name: String::from_str("version"), value: String::from_str("1.0.0") },
            );
            properties.push(
                Property { name: String::from_str("primaryPurpose"), value: task.clone() },
            );
            properties.push(Property { name: String::from_str("suppliedBy"), value: org.clone() });
            properties.push(
                Property {
                    name: String::from_str("typeOfModel"),
                    value: String::from_str("transformer"),
                },
            );
            properties.push(Property { name: String::from_str("downloadLocation"), value: dl });
            properties.push(Property { name: String::from_str("external_references"), value: ext });
            if let Some(rel) = &relation {
                properties.push(
                    Property { name: String::from_str("ai.model.relation"), value: rel.clone() },
                );
            }
            Some(
                ModelCard {
                    model_parameters: Some(
                        ModelParameters {
                            architecture_family: Some(String::from_str("transformer")),
                            model_architecture: Some(architecture),
                            task: Some(task),
                            inputs: Some(
                                vec![InputOutputData { format: String::from_str("text") }],
                            ),
                            outputs: Some(
                                vec![
                                    InputOutputData { format: String::from_str("generated-text") },
                                ],
                            ),
                        },
                    ),
                    properties: Some(properties),
                    quantitative_analysis: Some(
                        QuantitativeAnalysis {
                            graphics: Some(String::from_str("{}")),
                            performance_metrics: None,
                        },
                    ),
                },
            )
        } else {
            None
        };
        let mut org_url = String::from_str("https://huggingface.co/");
        org_url.append(org.as_str());
        let mut page_url = String::from_str("https://huggingface.co/");
        page_url.append(id);
        Component {
            component_type: String::from_str("machine-learning-model"),
            bom_ref: purl.clone(),
            name: model_name,
            version: Some(String::from_str("1.0")),
            description: Some(String::from_str("No description available")),
            group: Some(org.clone()),
            publisher: Some(org.clone()),
            supplier: Some(
                Organization { name: org.clone(), url: Some(vec![org_url.clone()]) },
            ),
            manufacturer: Some(Organization { name: org.clone(), url: Some(vec![org_url]) }),
            authors: Some(vec![Author { name: org }]),
            copyright: Some(String::from_str("NOASSERTION")),
            licenses,
            external_references: Some(
                vec![
                    ExternalReference {
                        ref_type: String::from_str("website"),
                        url: page_url,
                        comment: None,
                    },
                ],
            ),
            purl: Some(purl),
            model_card,
        }
    }

    /// The application component that stands for the document's subject.
    pub fn create_main_application_component(&self, main_model_id: &str) -> (c: Component)
        ensures
            is_app_component(c, main_model_id@),
    {
        let (_main_org, main_name) = self.model_analyzer.extract_organization_from_model_id(
            main_model_id,
        );
        let escaped = escape_slashes(main_model_id);
        let mut main_purl = String::from_str("pkg:generic/");
        main_purl.append(escaped.as_str());
        main_purl.append("@1.0");
        Component {
            component_type: String::from_str("application"),
            bom_ref: main_purl.clone(),
            name: main_name,
            version: Some(String::from_str("1.0")),
            description: Some(String::from_str("No description available")),
            group: None,
            publisher: None,
            supplier: None,
            manufacturer: None,
            authors: None,
            copyright: Some(String::from_str("NOASSERTION")),
            licenses: None,
            external_references: None,
            purl: Some(main_purl),
            model_card: None,
        }
    }
}

} // verus!
