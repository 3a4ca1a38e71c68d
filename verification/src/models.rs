//! The data model: the metadata record of one model as the metadata source
//! reports it, and the records that make up the finished bill of materials.
use vstd::prelude::*;

verus! {

/// A card-data entry that may be one string, a list of items (an item that is
/// not a string is kept as `None`), or a value of some other shape.
#[derive(Clone, Debug)]
pub enum CardValue {
    Text(String),
    List(Vec<Option<String>>),
    Other,
}

/// The structured card data of a model record: the fields the resolution
/// engine reads, as plain values. A field that is absent, or present with a
/// shape the engine does not read, is `None`.
#[derive(Clone, Debug)]
pub struct CardData {
    pub base_model: Option<CardValue>,
    pub base_model_relation: Option<String>,
    pub parent_model: Option<String>,
    pub datasets: Option<CardValue>,
    pub train_dataset: Option<String>,
    pub library_name: Option<String>,
    pub quantized_by: Option<String>,
    pub license_name: Option<String>,
    pub architecture: Option<String>,
    pub architectures: Option<Vec<Option<String>>>,
}

impl CardData {
    /// Card data with every field absent.
    pub fn empty() -> (r: CardData)
        ensures
            r.base_model is None,
            r.base_model_relation is None,
            r.parent_model is None,
            r.datasets is None,
            r.train_dataset is None,
            r.library_name is None,
            r.quantized_by is None,
            r.license_name is None,
            r.architecture is None,
            r.architectures is None,
    {
        CardData {
            base_model: None,
            base_model_relation: None,
            parent_model: None,
            datasets: None,
            train_dataset: None,
            library_name: None,
            quantized_by: None,
            license_name: None,
            architecture: None,
            architectures: None,
        }
    }
}

/// One model's metadata record, immutable once fetched.
#[derive(Clone, Debug)]
pub struct ModelInfo {
    pub model_id: String,
    pub tags: Vec<String>,
    pub library_name: Option<String>,
    pub created_at: Option<String>,
    pub last_modified: Option<String>,
    pub license: Option<String>,
    pub card_data: Option<CardData>,
    pub sha: Option<String>,
}

/// An organization that supplies or manufactures an artifact.
#[derive(Clone, Debug, PartialEq)]
pub struct Organization {
    pub name: String,
    pub url: Option<Vec<String>>,
}

/// A named descriptive property of a component.
#[derive(Clone, Debug, PartialEq)]
pub struct Property {
    pub name: String,
    pub value: String,
}

/// A typed reference to a location outside the document.
#[derive(Clone, Debug, PartialEq)]
pub struct ExternalReference {
    pub ref_type: String,
    pub url: String,
    pub comment: Option<String>,
}

/// An author of a component.
#[derive(Clone, Debug, PartialEq)]
pub struct Author {
    pub name: String,
}

/// Normalized license data: either a canonical identifier with its reference
/// URL, or a free-text name with a probed URL; never both at once.
#[derive(Clone, Debug, PartialEq)]
pub struct LicenseInfo {
    pub id: Option<String>,
    pub name: Option<String>,
    pub url: Option<String>,
}

/// One license attached to a component.
#[derive(Clone, Debug, PartialEq)]
pub struct License {
    pub license: LicenseInfo,
}

/// The format of one input or output of a model.
#[derive(Clone, Debug, PartialEq)]
pub struct InputOutputData {
    pub format: String,
}

/// One reported performance figure.
#[derive(Clone, Debug, PartialEq)]
pub struct PerformanceMetric {
    pub metric_type: String,
    pub value: String,
}

/// Quantitative analysis attached to a model card. The graphics entry is
/// carried as raw JSON text; turning it into a structured value is the
/// document encoder's concern.
#[derive(Clone, Debug, PartialEq)]
pub struct QuantitativeAnalysis {
    pub graphics: Option<String>,
    pub performance_metrics: Option<Vec<PerformanceMetric>>,
}

/// The parameters section of an output model card.
#[derive(Clone, Debug, PartialEq)]
pub struct ModelParameters {
    pub architecture_family: Option<String>,
    pub model_architecture: Option<String>,
    pub task: Option<String>,
    pub inputs: Option<Vec<InputOutputData>>,
    pub outputs: Option<Vec<InputOutputData>>,
}

/// The model card of an output component.
#[derive(Clone, Debug, PartialEq)]
pub struct ModelCard {
    pub model_parameters: Option<ModelParameters>,
    pub properties: Option<Vec<Property>>,
    pub quantitative_analysis: Option<QuantitativeAnalysis>,
}

/// One output record of the bill of materials, keyed by its `bom_ref`.
#[derive(Clone, Debug, PartialEq)]
pub struct Component {
    pub component_type: String,
    pub bom_ref: String,
    pub name: String,
    pub version: Option<String>,
    pub description: Option<String>,
    pub group: Option<String>,
    pub publisher: Option<String>,
    pub supplier: Option<Organization>,
    pub manufacturer: Option<Organization>,
    pub authors: Option<Vec<Author>>,
    pub copyright: Option<String>,
    pub licenses: Option<Vec<License>>,
    pub external_references: Option<Vec<ExternalReference>>,
    pub purl: Option<String>,
    pub model_card: Option<ModelCard>,
}

/// The dependency entry of one component: the references it depends on.
#[derive(Clone, Debug, PartialEq)]
pub struct Dependency {
    pub reference: String,
    pub depends_on: Vec<String>,
}

/// A dependency edge with its relation label, kept for callers that want the
/// labeled form.
#[derive(Clone, Debug, PartialEq)]
pub struct DependencyReference {
    pub reference: String,
    pub relation: Option<String>,
    pub scope: Option<String>,
}

/// The tool component named in the document metadata.
#[derive(Clone, Debug, PartialEq)]
pub struct ToolComponent {
    pub bom_ref: String,
    pub manufacturer: Organization,
    pub name: String,
    pub component_type: String,
    pub version: String,
}

/// The tools section of the document metadata.
#[derive(Clone, Debug, PartialEq)]
pub struct Tools {
    pub components: Vec<ToolComponent>,
}

/// The document metadata: timestamp, generating tool, and the component the
/// document describes.
#[derive(Clone, Debug, PartialEq)]
pub struct Metadata {
    pub timestamp: String,
    pub tools: Tools,
    pub component: Component,
    pub properties: Option<Vec<Property>>,
}

/// The finished bill-of-materials document.
#[derive(Clone, Debug, PartialEq)]
pub struct AIBOM {
    pub bom_format: String,
    pub spec_version: String,
    pub serial_number: String,
    pub version: u32,
    pub metadata: Metadata,
    pub components: Vec<Component>,
    pub dependencies: Vec<Dependency>,
    pub external_references: Option<Vec<ExternalReference>>,
}

} // verus!
