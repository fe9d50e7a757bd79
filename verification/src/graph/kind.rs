//! Node and edge kinds of the semantic graph.

use vstd::prelude::*;

verus! {

/// Kind of a configuration metadata object.
#[derive(Debug, Clone, Copy, PartialEq, Eq, PartialOrd, Ord, Hash, Structural)]
pub enum MetadataKind {
    Configuration,
    Subsystem,
    Catalog,
    Document,
    Enumeration,
    CommonModule,
    Report,
    DataProcessor,
    InformationRegister,
    AccumulationRegister,
    AccountingRegister,
    CalculationRegister,
    BusinessProcess,
    Task,
    Role,
    CommonForm,
    Form,
    Command,
    Template,
    HttpService,
    WebService,
    XdtoPackage,
    EventSubscription,
    Unknown,
}

/// Kind of a semantic graph node.
#[derive(Debug, Clone, Copy, PartialEq, Eq, PartialOrd, Ord, Hash, Structural)]
pub enum NodeKind {
    /// Metadata object node.
    Metadata(MetadataKind),
    /// Module node.
    Module,
    /// Procedure node.
    Procedure,
    /// Function node.
    Function,
    /// Query node.
    Query,
    /// Report-owned Data Composition Schema node.
    DataCompositionSchema,
    /// Direct Data Set node owned by a Data Composition Schema.
    DataSet,
    /// Direct named Data Composition Field node owned by a Data Set.
    DataCompositionField,
    /// Form node.
    Form,
    /// Command node.
    Command,
    /// Attribute node.
    Attribute,
    /// Platform-provided standard attribute node.
    StandardAttribute,
    /// Tabular section node.
    TabularSection,
    /// Register dimension node.
    Dimension,
    /// Register resource node.
    Resource,
    /// Accounting register measure node.
    Measure,
    /// Role node.
    Role,
    /// Scoped access-right node.
    AccessRight,
    /// Subsystem node.
    Subsystem,
    /// Unknown or not-yet-supported node.
    Unknown,
}

/// Kind of a directed semantic edge.
#[derive(Debug, Clone, Copy, PartialEq, Eq, PartialOrd, Ord, Hash, Structural)]
pub enum EdgeKind {
    /// Parent contains child.
    Contains,
    /// Source calls target.
    Calls,
    /// Source references target.
    References,
    /// Source reads target.
    Reads,
    /// Source writes target.
    Writes,
    /// Source grants access to target.
    Grants,
    /// Source includes target.
    Includes,
    /// Source extends target.
    Extends,
    /// Source depends on target.
    DependsOn,
    /// Source opens target form.
    Opens,
    /// Event subscription invokes its handler procedure.
    Triggers,
}


/// Metadata kinds in declaration order.
pub open spec fn metadata_kind_at(i: int) -> MetadataKind {
    if i == 0 {
        MetadataKind::Configuration
    } else if i == 1 {
        MetadataKind::Subsystem
    } else if i == 2 {
        MetadataKind::Catalog
    } else if i == 3 {
        MetadataKind::Document
    } else if i == 4 {
        MetadataKind::Enumeration
    } else if i == 5 {
        MetadataKind::CommonModule
    } else if i == 6 {
        MetadataKind::Report
    } else if i == 7 {
        MetadataKind::DataProcessor
    } else if i == 8 {
        MetadataKind::InformationRegister
    } else if i == 9 {
        MetadataKind::AccumulationRegister
    } else if i == 10 {
        MetadataKind::AccountingRegister
    } else if i == 11 {
        MetadataKind::CalculationRegister
    } else if i == 12 {
        MetadataKind::BusinessProcess
    } else if i == 13 {
        MetadataKind::Task
    } else if i == 14 {
        MetadataKind::Role
    } else if i == 15 {
        MetadataKind::CommonForm
    } else if i == 16 {
        MetadataKind::Form
    } else if i == 17 {
        MetadataKind::Command
    } else if i == 18 {
        MetadataKind::Template
    } else if i == 19 {
        MetadataKind::HttpService
    } else if i == 20 {
        MetadataKind::WebService
    } else if i == 21 {
        MetadataKind::XdtoPackage
    } else if i == 22 {
        MetadataKind::EventSubscription
    } else {
        MetadataKind::Unknown
    }
}

/// The metadata kind at position `i` of declaration order.
pub(crate) fn metadata_kind_at_position(i: usize) -> (r: MetadataKind)
    requires
        i < 24,
    ensures
        r == metadata_kind_at(i as int),
{
    if i == 0 {
        MetadataKind::Configuration
    } else if i == 1 {
        MetadataKind::Subsystem
    } else if i == 2 {
        MetadataKind::Catalog
    } else if i == 3 {
        MetadataKind::Document
    } else if i == 4 {
        MetadataKind::Enumeration
    } else if i == 5 {
        MetadataKind::CommonModule
    } else if i == 6 {
        MetadataKind::Report
    } else if i == 7 {
        MetadataKind::DataProcessor
    } else if i == 8 {
        MetadataKind::InformationRegister
    } else if i == 9 {
        MetadataKind::AccumulationRegister
    } else if i == 10 {
        MetadataKind::AccountingRegister
    } else if i == 11 {
        MetadataKind::CalculationRegister
    } else if i == 12 {
        MetadataKind::BusinessProcess
    } else if i == 13 {
        MetadataKind::Task
    } else if i == 14 {
        MetadataKind::Role
    } else if i == 15 {
        MetadataKind::CommonForm
    } else if i == 16 {
        MetadataKind::Form
    } else if i == 17 {
        MetadataKind::Command
    } else if i == 18 {
        MetadataKind::Template
    } else if i == 19 {
        MetadataKind::HttpService
    } else if i == 20 {
        MetadataKind::WebService
    } else if i == 21 {
        MetadataKind::XdtoPackage
    } else if i == 22 {
        MetadataKind::EventSubscription
    } else {
        MetadataKind::Unknown
    }
}


/// Node kinds in order: the metadata kinds first, then the other kinds in
/// declaration order.
pub open spec fn node_kind_at(i: int) -> NodeKind {
    if i < 24 {
        NodeKind::Metadata(metadata_kind_at(i))
    } else {
        other_node_kind_at(i - 24)
    }
}

/// Node kinds other than metadata in declaration order.
pub open spec fn other_node_kind_at(i: int) -> NodeKind {
    if i == 0 {
        NodeKind::Module
    } else if i == 1 {
        NodeKind::Procedure
    } else if i == 2 {
        NodeKind::Function
    } else if i == 3 {
        NodeKind::Query
    } else if i == 4 {
        NodeKind::DataCompositionSchema
    } else if i == 5 {
        NodeKind::DataSet
    } else if i == 6 {
        NodeKind::DataCompositionField
    } else if i == 7 {
        NodeKind::Form
    } else if i == 8 {
        NodeKind::Command
    } else if i == 9 {
        NodeKind::Attribute
    } else if i == 10 {
        NodeKind::StandardAttribute
    } else if i == 11 {
        NodeKind::TabularSection
    } else if i == 12 {
        NodeKind::Dimension
    } else if i == 13 {
        NodeKind::Resource
    } else if i == 14 {
        NodeKind::Measure
    } else if i == 15 {
        NodeKind::Role
    } else if i == 16 {
        NodeKind::AccessRight
    } else if i == 17 {
        NodeKind::Subsystem
    } else {
        NodeKind::Unknown
    }
}

/// The node kind at position `i`.
pub(crate) fn node_kind_at_position(i: usize) -> (r: NodeKind)
    requires
        i < 43,
    ensures
        r == node_kind_at(i as int),
{
    if i < 24 {
        NodeKind::Metadata(metadata_kind_at_position(i))
    } else {
        other_node_kind_at_position(i - 24)
    }
}

fn other_node_kind_at_position(i: usize) -> (r: NodeKind)
    requires
        i < 19,
    ensures
        r == other_node_kind_at(i as int),
{
    if i == 0 {
        NodeKind::Module
    } else if i == 1 {
        NodeKind::Procedure
    } else if i == 2 {
        NodeKind::Function
    } else if i == 3 {
        NodeKind::Query
    } else if i == 4 {
        NodeKind::DataCompositionSchema
    } else if i == 5 {
        NodeKind::DataSet
    } else if i == 6 {
        NodeKind::DataCompositionField
    } else if i == 7 {
        NodeKind::Form
    } else if i == 8 {
        NodeKind::Command
    } else if i == 9 {
        NodeKind::Attribute
    } else if i == 10 {
        NodeKind::StandardAttribute
    } else if i == 11 {
        NodeKind::TabularSection
    } else if i == 12 {
        NodeKind::Dimension
    } else if i == 13 {
        NodeKind::Resource
    } else if i == 14 {
        NodeKind::Measure
    } else if i == 15 {
        NodeKind::Role
    } else if i == 16 {
        NodeKind::AccessRight
    } else if i == 17 {
        NodeKind::Subsystem
    } else {
        NodeKind::Unknown
    }
}


/// Edge kinds in declaration order.
pub open spec fn edge_kind_at(i: int) -> EdgeKind {
    if i == 0 {
        EdgeKind::Contains
    } else if i == 1 {
        EdgeKind::Calls
    } else if i == 2 {
        EdgeKind::References
    } else if i == 3 {
        EdgeKind::Reads
    } else if i == 4 {
        EdgeKind::Writes
    } else if i == 5 {
        EdgeKind::Grants
    } else if i == 6 {
        EdgeKind::Includes
    } else if i == 7 {
        EdgeKind::Extends
    } else if i == 8 {
        EdgeKind::DependsOn
    } else if i == 9 {
        EdgeKind::Opens
    } else {
        EdgeKind::Triggers
    }
}

/// The edge kind at position `i` of declaration order.
pub(crate) fn edge_kind_at_position(i: usize) -> (r: EdgeKind)
    requires
        i < 11,
    ensures
        r == edge_kind_at(i as int),
{
    if i == 0 {
        EdgeKind::Contains
    } else if i == 1 {
        EdgeKind::Calls
    } else if i == 2 {
        EdgeKind::References
    } else if i == 3 {
        EdgeKind::Reads
    } else if i == 4 {
        EdgeKind::Writes
    } else if i == 5 {
        EdgeKind::Grants
    } else if i == 6 {
        EdgeKind::Includes
    } else if i == 7 {
        EdgeKind::Extends
    } else if i == 8 {
        EdgeKind::DependsOn
    } else if i == 9 {
        EdgeKind::Opens
    } else {
        EdgeKind::Triggers
    }
}



/// Stable machine-readable name of a metadata kind.
pub open spec fn metadata_kind_text(k: MetadataKind) -> Seq<char> {
    match k {
        MetadataKind::Configuration => "configuration"@,
        MetadataKind::Subsystem => "subsystem"@,
        MetadataKind::Catalog => "catalog"@,
        MetadataKind::Document => "document"@,
        MetadataKind::Enumeration => "enumeration"@,
        MetadataKind::CommonModule => "common_module"@,
        MetadataKind::Report => "report"@,
        MetadataKind::DataProcessor => "data_processor"@,
        MetadataKind::InformationRegister => "information_register"@,
        MetadataKind::AccumulationRegister => "accumulation_register"@,
        MetadataKind::AccountingRegister => "accounting_register"@,
        MetadataKind::CalculationRegister => "calculation_register"@,
        MetadataKind::BusinessProcess => "business_process"@,
        MetadataKind::Task => "task"@,
        MetadataKind::Role => "role"@,
        MetadataKind::CommonForm => "common_form"@,
        MetadataKind::Form => "form"@,
        MetadataKind::Command => "command"@,
        MetadataKind::Template => "template"@,
        MetadataKind::HttpService => "http_service"@,
        MetadataKind::WebService => "web_service"@,
        MetadataKind::XdtoPackage => "xdto_package"@,
        MetadataKind::EventSubscription => "event_subscription"@,
        MetadataKind::Unknown => "unknown"@,
    }
}

impl MetadataKind {
    /// Returns the stable machine-readable name of the metadata kind.
    pub fn as_str(self) -> (r: &'static str)
        ensures
            r@ == metadata_kind_text(self),
    {
        match self {
            MetadataKind::Configuration => "configuration",
            MetadataKind::Subsystem => "subsystem",
            MetadataKind::Catalog => "catalog",
            MetadataKind::Document => "document",
            MetadataKind::Enumeration => "enumeration",
            MetadataKind::CommonModule => "common_module",
            MetadataKind::Report => "report",
            MetadataKind::DataProcessor => "data_processor",
            MetadataKind::InformationRegister => "information_register",
            MetadataKind::AccumulationRegister => "accumulation_register",
            MetadataKind::AccountingRegister => "accounting_register",
            MetadataKind::CalculationRegister => "calculation_register",
            MetadataKind::BusinessProcess => "business_process",
            MetadataKind::Task => "task",
            MetadataKind::Role => "role",
            MetadataKind::CommonForm => "common_form",
            MetadataKind::Form => "form",
            MetadataKind::Command => "command",
            MetadataKind::Template => "template",
            MetadataKind::HttpService => "http_service",
            MetadataKind::WebService => "web_service",
            MetadataKind::XdtoPackage => "xdto_package",
            MetadataKind::EventSubscription => "event_subscription",
            MetadataKind::Unknown => "unknown",
        }
    }
}

/// Stable code of a node kind other than a metadata kind.
pub open spec fn node_kind_code_text(k: NodeKind) -> Seq<char> {
    match k {
        NodeKind::Metadata(m) => metadata_kind_text(m),
        NodeKind::Module => "module"@,
        NodeKind::Procedure => "procedure"@,
        NodeKind::Function => "function"@,
        NodeKind::Query => "query"@,
        NodeKind::DataCompositionSchema => "data_composition_schema"@,
        NodeKind::DataSet => "data_set"@,
        NodeKind::DataCompositionField => "data_composition_field"@,
        NodeKind::Form => "form"@,
        NodeKind::Command => "command"@,
        NodeKind::Attribute => "attribute"@,
        NodeKind::StandardAttribute => "standard_attribute"@,
        NodeKind::TabularSection => "tabular_section"@,
        NodeKind::Dimension => "dimension"@,
        NodeKind::Resource => "resource"@,
        NodeKind::Measure => "measure"@,
        NodeKind::Role => "role"@,
        NodeKind::AccessRight => "access_right"@,
        NodeKind::Subsystem => "subsystem"@,
        NodeKind::Unknown => "unknown"@,
    }
}

/// Returns the stable code of a node kind; a metadata node kind has the
/// name of its metadata kind.
pub fn node_kind_code(k: NodeKind) -> (r: &'static str)
    ensures
        r@ == node_kind_code_text(k),
{
    match k {
        NodeKind::Metadata(m) => m.as_str(),
        NodeKind::Module => "module",
        NodeKind::Procedure => "procedure",
        NodeKind::Function => "function",
        NodeKind::Query => "query",
        NodeKind::DataCompositionSchema => "data_composition_schema",
        NodeKind::DataSet => "data_set",
        NodeKind::DataCompositionField => "data_composition_field",
        NodeKind::Form => "form",
        NodeKind::Command => "command",
        NodeKind::Attribute => "attribute",
        NodeKind::StandardAttribute => "standard_attribute",
        NodeKind::TabularSection => "tabular_section",
        NodeKind::Dimension => "dimension",
        NodeKind::Resource => "resource",
        NodeKind::Measure => "measure",
        NodeKind::Role => "role",
        NodeKind::AccessRight => "access_right",
        NodeKind::Subsystem => "subsystem",
        NodeKind::Unknown => "unknown",
    }
}

impl View for NodeKind {
    type V = NodeKind;

    open spec fn view(&self) -> NodeKind {
        *self
    }
}

} // verus!
