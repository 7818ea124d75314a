//! The abstract syntax tree: passive data shapes for the constructs of the
//! architecture-specification language, together with their mathematical
//! views.

use vstd::prelude::*;

verus! {

/// Output-organization hint for a downstream generator: one artifact per
/// file, or one per directory.
#[derive(Clone, Debug, Eq, PartialEq)]
pub enum Cataloging {
    File,
    Dir,
}

/// How the text of a cataloging hint is read: `"file"` names [`Cataloging::File`],
/// `"dir"` names [`Cataloging::Dir`], and anything else falls back to
/// [`Cataloging::File`].
pub open spec fn spec_cataloging_from(text: Seq<char>) -> Cataloging {
    if text == "dir"@ {
        Cataloging::Dir
    } else {
        Cataloging::File
    }
}

impl Cataloging {
    pub fn from(text: String) -> (r: Cataloging)
        ensures
            r == spec_cataloging_from(text@),
    {
        if text == String::from_str("dir") {
            Cataloging::Dir
        } else {
            Cataloging::File
        }
    }
}

/// One file's worth of parsed source: the ordered top-level parts.
#[derive(Debug, PartialEq)]
pub struct SourceUnit(pub Vec<SourceUnitPart>);

/// One top-level construct of a source unit.
#[derive(Clone, Debug, Eq, PartialEq)]
pub enum SourceUnitPart {
    Architecture(Architecture),
    ConceptUnit(ConceptUnit),
    ContractUnit(ContractUnit),
    ApiUnit(ApiUnit),
    ConceptBy(ConceptBy),
    StructFor(StructFor),
    BehaviorFor(BehaviorFor),
    ConceptSpace(ConceptSpace),
}

/// Marker part: the unit declares itself an architecture description.
#[derive(Clone, Debug, Eq, PartialEq)]
pub struct Architecture {}

/// A cataloging hint: how a downstream generator organizes its output for
/// the concepts found at `path`.
#[derive(Clone, Debug, Eq, PartialEq)]
pub struct ConceptBy {
    pub cataloging: Cataloging,
    pub path: String,
}

/// A namespace manifest: the concept identifiers grouped under a package
/// name.
#[derive(Clone, Debug, Eq, PartialEq)]
pub struct ConceptSpace {
    pub identifier: String,
    pub package: String,
    pub concepts: Vec<String>,
}

/// A collection of request/response exchanges, optionally imported from an
/// external path.
#[derive(Clone, Debug, Eq, PartialEq)]
pub struct ApiUnit {
    pub name: String,
    pub import: Option<String>,
    pub apis: Vec<ApiNode>,
}

/// One request/response exchange: inbound and outbound fields with pre- and
/// post-conditions.
#[derive(Clone, Debug, Eq, PartialEq)]
pub struct ApiNode {
    pub inbound: Vec<StructField>,
    pub outbound: Vec<StructField>,
    pub pre_cond: Vec<Condition>,
    pub post_cond: Vec<Condition>,
}

/// A declared condition: its raw text, and the parsed expression form.
#[derive(Clone, Debug, Eq, PartialEq)]
pub struct Condition {
    pub text: String,
    pub expr: Expression,
}

/// The expression language of conditions; an opaque string is its only
/// form so far, a deliberate extension point.
#[derive(Clone, Debug, Eq, PartialEq)]
pub enum Expression {
    String(String),
}

/// A type-like entity: fields, behaviors, and optional multiple inheritance
/// through `extends`.
#[derive(Clone, Debug, Eq, PartialEq)]
pub struct ConceptUnit {
    pub description: String,
    pub identifier: String,
    pub extends: Vec<String>,
    pub structs: Vec<StructField>,
    pub behaviors: Vec<Interface>,
    pub struct_source: StructSource,
}

/// Marks a concept's fields as mirrored from an externally defined struct.
#[derive(Clone, Debug, Eq, PartialEq)]
pub struct StructSource {
    type_type: String,
    path: String,
    source: String,
}

/// A free-standing field list describing an external type's shape.
#[derive(Clone, Debug, Eq, PartialEq)]
pub struct StructFor {
    pub identifier: String,
    pub declarations: Vec<StructField>,
}

/// One named, typed field.
#[derive(Clone, Debug, Eq, PartialEq)]
pub struct StructField {
    pub identifier: String,
    pub declarator: TypeSpecifier,
}

/// A free-standing method list describing an external type's behavior.
#[derive(Clone, Debug, Eq, PartialEq)]
pub struct BehaviorFor {
    identifier: String,
    functions: Vec<Interface>,
}

/// One method signature: name, parameters, and return type.
#[derive(Clone, Debug, Eq, PartialEq)]
pub struct Interface {
    pub identifier: String,
    pub params: Vec<Parameter>,
    pub return_type: TypeSpecifier,
}

/// auto insert/update comment to code
#[derive(Clone, Debug, Eq, PartialEq)]
pub struct HighlightCore {}

/// A named API resource rooted at a base URL.
#[derive(Clone, Debug, Eq, PartialEq)]
pub struct ApiResource {
    identifier: String,
    base_url: String,
    source: String,
    api: Vec<ApiDecl>,
}

/// One declaration within an API resource.
#[derive(Clone, Debug, Eq, PartialEq)]
pub struct ApiDecl {
    inbound: Vec<Parameter>,
    outbound: Vec<Parameter>,
    pre_condition: String,
    post_condition: String,
}

/// One named, typed parameter of a behavior.
#[derive(Clone, Debug, Eq, PartialEq)]
pub struct Parameter {
    pub identifier: String,
    pub specifier: TypeSpecifier,
}

/// A named pre/post condition set scoped to a lifecycle phase.
#[derive(Clone, Debug, Eq, PartialEq)]
pub struct ContractUnit {
    pub identifier: String,
    pub during: String,
    pub pre_condition: Vec<Condition>,
    pub post_condition: Vec<Condition>,
}

/// A type written in a declaration: a builtin kind, or a named reference to
/// a concept or struct-for declared elsewhere.
#[derive(Clone, Debug, Eq, PartialEq)]
pub enum TypeSpecifier {
    /// no return or empty
    NoType,
    Int,
    Float,
    Double,
    String,
    Array,
    TypeType(String),
}

/// The view of a [`TypeSpecifier`]: the same shape with the named reference
/// as a sequence of characters.
pub enum TypeSpecifierView {
    NoType,
    Int,
    Float,
    Double,
    String,
    Array,
    TypeType(Seq<char>),
}

impl View for TypeSpecifier {
    type V = TypeSpecifierView;

    open spec fn view(&self) -> TypeSpecifierView {
        match self {
            TypeSpecifier::NoType => TypeSpecifierView::NoType,
            TypeSpecifier::Int => TypeSpecifierView::Int,
            TypeSpecifier::Float => TypeSpecifierView::Float,
            TypeSpecifier::Double => TypeSpecifierView::Double,
            TypeSpecifier::String => TypeSpecifierView::String,
            TypeSpecifier::Array => TypeSpecifierView::Array,
            TypeSpecifier::TypeType(t) => TypeSpecifierView::TypeType(t@),
        }
    }
}

/// The lower-case form of an ASCII letter; any other character is unchanged.
pub open spec fn lower_char(c: char) -> char {
    if 'A' <= c && c <= 'Z' {
        ((c as u8) + 32) as char
    } else {
        c
    }
}

/// Character-wise ASCII lower-casing of a text.
pub open spec fn lower(text: Seq<char>) -> Seq<char> {
    text.map_values(|c: char| lower_char(c))
}

/// How the text of a type specifier is read: the builtin kinds are matched
/// ignoring ASCII case; any other text becomes a named reference that keeps
/// its original case.
pub open spec fn spec_type_specifier_from(text: Seq<char>) -> TypeSpecifierView {
    if lower(text) == "int"@ {
        TypeSpecifierView::Int
    } else if lower(text) == "float"@ {
        TypeSpecifierView::Float
    } else if lower(text) == "double"@ {
        TypeSpecifierView::Double
    } else if lower(text) == "string"@ {
        TypeSpecifierView::String
    } else if lower(text) == "array"@ {
        TypeSpecifierView::Array
    } else {
        TypeSpecifierView::TypeType(text)
    }
}

/// The lower-case form of an ASCII letter, computed.
fn lower_char_exec(c: char) -> (r: char)
    ensures
        r == lower_char(c),
{
    if 'A' <= c && c <= 'Z' {
        (((c as u8) + 32) as char)
    } else {
        c
    }
}

/// Whether `text`, lower-cased character by character, equals `lit`, which
/// must already be lower-case.
fn eq_lowered(text: &str, lit: &str) -> (r: bool)
    ensures
        r == (lower(text@) == lower(lit@)),
{
    let n = text.unicode_len();
    let m = lit.unicode_len();
    if n != m {
        assert(lower(text@).len() != lower(lit@).len());
        return false;
    }
    let mut i: usize = 0;
    while i < n
        invariant
            i <= n,
            n == text@.len(),
            n == lit@.len(),
            forall|j: int| 0 <= j < i ==> lower_char(text@[j]) == lower_char(lit@[j]),
        decreases n - i,
    {
        let a = lower_char_exec(text.get_char(i));
        let b = lower_char_exec(lit.get_char(i));
        if a != b {
            assert(lower(text@)[i as int] != lower(lit@)[i as int]);
            return false;
        }
        i += 1;
    }
    assert(lower(text@) =~= lower(lit@));
    true
}

impl TypeSpecifier {
    pub fn from(text: String) -> (r: TypeSpecifier)
        ensures
            r@ == spec_type_specifier_from(text@),
    {
        if eq_lowered(text.as_str(), "int") {
            proof { reveal_strlit("int"); lemma_lower_lowercase("int"@); }
            TypeSpecifier::Int
        } else if eq_lowered(text.as_str(), "float") {
            proof { reveal_strlit("float"); lemma_lower_lowercase("float"@); }
            TypeSpecifier::Float
        } else if eq_lowered(text.as_str(), "double") {
            proof { reveal_strlit("double"); lemma_lower_lowercase("double"@); }
            TypeSpecifier::Double
        } else if eq_lowered(text.as_str(), "string") {
            proof { reveal_strlit("string"); lemma_lower_lowercase("string"@); }
            TypeSpecifier::String
        } else if eq_lowered(text.as_str(), "array") {
            proof { reveal_strlit("array"); lemma_lower_lowercase("array"@); }
            TypeSpecifier::Array
        } else {
            proof {
                reveal_strlit("int");
                reveal_strlit("float");
                reveal_strlit("double");
                reveal_strlit("string");
                reveal_strlit("array");
                lemma_lower_lowercase("int"@);
                lemma_lower_lowercase("float"@);
                lemma_lower_lowercase("double"@);
                lemma_lower_lowercase("string"@);
                lemma_lower_lowercase("array"@);
            }
            TypeSpecifier::TypeType(text)
        }
    }
}

/// The view of a [`SourceUnit`]: the ordered part views.
pub ghost struct SourceUnitView {
    pub parts: Seq<SourceUnitPartView>,
}

/// The view of a [`SourceUnitPart`].
#[verifier::ext_equal]
pub ghost enum SourceUnitPartView {
    Architecture,
    ConceptUnit(ConceptUnitView),
    ContractUnit(ContractUnitView),
    ApiUnit(ApiUnitView),
    ConceptBy(ConceptByView),
    StructFor(StructForView),
    BehaviorFor(BehaviorForView),
    ConceptSpace(ConceptSpaceView),
}

/// The view of a [`ConceptBy`].
#[verifier::ext_equal]
pub ghost struct ConceptByView {
    pub cataloging: Cataloging,
    pub path: Seq<char>,
}

/// The view of a [`ConceptSpace`].
#[verifier::ext_equal]
pub ghost struct ConceptSpaceView {
    pub identifier: Seq<char>,
    pub package: Seq<char>,
    pub concepts: Seq<Seq<char>>,
}

/// The view of an [`ApiUnit`].
#[verifier::ext_equal]
pub ghost struct ApiUnitView {
    pub name: Seq<char>,
    pub import: Option<Seq<char>>,
    pub apis: Seq<ApiNodeView>,
}

/// The view of an [`ApiNode`].
#[verifier::ext_equal]
pub ghost struct ApiNodeView {
    pub inbound: Seq<StructFieldView>,
    pub outbound: Seq<StructFieldView>,
    pub pre_cond: Seq<ConditionView>,
    pub post_cond: Seq<ConditionView>,
}

/// The view of a [`Condition`].
#[verifier::ext_equal]
pub ghost struct ConditionView {
    pub text: Seq<char>,
    pub expr: ExpressionView,
}

/// The view of an [`Expression`].
#[verifier::ext_equal]
pub ghost enum ExpressionView {
    String(Seq<char>),
}

/// The view of a [`ConceptUnit`].
#[verifier::ext_equal]
pub ghost struct ConceptUnitView {
    pub description: Seq<char>,
    pub identifier: Seq<char>,
    pub extends: Seq<Seq<char>>,
    pub structs: Seq<StructFieldView>,
    pub behaviors: Seq<InterfaceView>,
    pub struct_source: StructSourceView,
}

/// The view of a [`StructSource`].
#[verifier::ext_equal]
pub ghost struct StructSourceView {
    pub type_type: Seq<char>,
    pub path: Seq<char>,
    pub source: Seq<char>,
}

/// The view of a [`StructFor`].
#[verifier::ext_equal]
pub ghost struct StructForView {
    pub identifier: Seq<char>,
    pub declarations: Seq<StructFieldView>,
}

/// The view of a [`StructField`].
#[verifier::ext_equal]
pub ghost struct StructFieldView {
    pub identifier: Seq<char>,
    pub declarator: TypeSpecifierView,
}

/// The view of a [`BehaviorFor`].
#[verifier::ext_equal]
pub ghost struct BehaviorForView {
    pub identifier: Seq<char>,
    pub functions: Seq<InterfaceView>,
}

/// The view of an [`Interface`].
#[verifier::ext_equal]
pub ghost struct InterfaceView {
    pub identifier: Seq<char>,
    pub params: Seq<ParameterView>,
    pub return_type: TypeSpecifierView,
}

/// The view of a [`Parameter`].
#[verifier::ext_equal]
pub ghost struct ParameterView {
    pub identifier: Seq<char>,
    pub specifier: TypeSpecifierView,
}

/// The view of a [`ContractUnit`].
#[verifier::ext_equal]
pub ghost struct ContractUnitView {
    pub identifier: Seq<char>,
    pub during: Seq<char>,
    pub pre_condition: Seq<ConditionView>,
    pub post_condition: Seq<ConditionView>,
}

impl View for SourceUnit {
    type V = SourceUnitView;

    open spec fn view(&self) -> SourceUnitView {
        SourceUnitView { parts: self.0@.map_values(|p: SourceUnitPart| p@) }
    }
}

impl View for SourceUnitPart {
    type V = SourceUnitPartView;

    open spec fn view(&self) -> SourceUnitPartView {
        match self {
            SourceUnitPart::Architecture(_) => SourceUnitPartView::Architecture,
            SourceUnitPart::ConceptUnit(c) => SourceUnitPartView::ConceptUnit(c@),
            SourceUnitPart::ContractUnit(c) => SourceUnitPartView::ContractUnit(c@),
            SourceUnitPart::ApiUnit(a) => SourceUnitPartView::ApiUnit(a@),
            SourceUnitPart::ConceptBy(b) => SourceUnitPartView::ConceptBy(b@),
            SourceUnitPart::StructFor(f) => SourceUnitPartView::StructFor(f@),
            SourceUnitPart::BehaviorFor(b) => SourceUnitPartView::BehaviorFor(b@),
            SourceUnitPart::ConceptSpace(s) => SourceUnitPartView::ConceptSpace(s@),
        }
    }
}

impl View for ConceptBy {
    type V = ConceptByView;

    open spec fn view(&self) -> ConceptByView {
        ConceptByView { cataloging: self.cataloging, path: self.path@ }
    }
}

impl View for ConceptSpace {
    type V = ConceptSpaceView;

    open spec fn view(&self) -> ConceptSpaceView {
        ConceptSpaceView {
            identifier: self.identifier@,
            package: self.package@,
            concepts: self.concepts@.map_values(|s: String| s@),
        }
    }
}

impl View for ApiUnit {
    type V = ApiUnitView;

    open spec fn view(&self) -> ApiUnitView {
        ApiUnitView {
            name: self.name@,
            import: match self.import {
                Option::Some(s) => Option::Some(s@),
                Option::None => Option::None,
            },
            apis: self.apis@.map_values(|n: ApiNode| n@),
        }
    }
}

impl View for ApiNode {
    type V = ApiNodeView;

    open spec fn view(&self) -> ApiNodeView {
        ApiNodeView {
            inbound: self.inbound@.map_values(|f: StructField| f@),
            outbound: self.outbound@.map_values(|f: StructField| f@),
            pre_cond: self.pre_cond@.map_values(|c: Condition| c@),
            post_cond: self.post_cond@.map_values(|c: Condition| c@),
        }
    }
}

impl View for Condition {
    type V = ConditionView;

    open spec fn view(&self) -> ConditionView {
        ConditionView { text: self.text@, expr: self.expr@ }
    }
}

impl View for Expression {
    type V = ExpressionView;

    open spec fn view(&self) -> ExpressionView {
        match self {
            Expression::String(s) => ExpressionView::String(s@),
        }
    }
}

impl View for ConceptUnit {
    type V = ConceptUnitView;

    open spec fn view(&self) -> ConceptUnitView {
        ConceptUnitView {
            description: self.description@,
            identifier: self.identifier@,
            extends: self.extends@.map_values(|s: String| s@),
            structs: self.structs@.map_values(|f: StructField| f@),
            behaviors: self.behaviors@.map_values(|b: Interface| b@),
            struct_source: self.struct_source@,
        }
    }
}

impl View for StructSource {
    type V = StructSourceView;

    closed spec fn view(&self) -> StructSourceView {
        StructSourceView {
            type_type: self.type_type@,
            path: self.path@,
            source: self.source@,
        }
    }
}

impl View for StructFor {
    type V = StructForView;

    open spec fn view(&self) -> StructForView {
        StructForView {
            identifier: self.identifier@,
            declarations: self.declarations@.map_values(|f: StructField| f@),
        }
    }
}

impl View for StructField {
    type V = StructFieldView;

    open spec fn view(&self) -> StructFieldView {
        StructFieldView { identifier: self.identifier@, declarator: self.declarator@ }
    }
}

impl View for BehaviorFor {
    type V = BehaviorForView;

    closed spec fn view(&self) -> BehaviorForView {
        BehaviorForView {
            identifier: self.identifier@,
            functions: self.functions@.map_values(|b: Interface| b@),
        }
    }
}

impl View for Interface {
    type V = InterfaceView;

    open spec fn view(&self) -> InterfaceView {
        InterfaceView {
            identifier: self.identifier@,
            params: self.params@.map_values(|p: Parameter| p@),
            return_type: self.return_type@,
        }
    }
}

impl View for Parameter {
    type V = ParameterView;

    open spec fn view(&self) -> ParameterView {
        ParameterView { identifier: self.identifier@, specifier: self.specifier@ }
    }
}

impl View for ContractUnit {
    type V = ContractUnitView;

    open spec fn view(&self) -> ContractUnitView {
        ContractUnitView {
            identifier: self.identifier@,
            during: self.during@,
            pre_condition: self.pre_condition@.map_values(|c: Condition| c@),
            post_condition: self.post_condition@.map_values(|c: Condition| c@),
        }
    }
}

/// The construction-time sentinel view of a [`StructSource`]: every field
/// still the empty string.
pub open spec fn struct_source_default_view() -> StructSourceView {
    StructSourceView {
        type_type: Seq::<char>::empty(),
        path: Seq::<char>::empty(),
        source: Seq::<char>::empty(),
    }
}

impl ConceptBy {
    /// A cataloging hint before its fields are filled in: per-file, with an
    /// empty path.
    pub fn new() -> (r: ConceptBy)
        ensures
            r@ == (ConceptByView { cataloging: Cataloging::File, path: Seq::<char>::empty() }),
    {
        let r = ConceptBy { cataloging: Cataloging::File, path: String::new() };
        proof {
            assert(r@ =~= (ConceptByView {
                cataloging: Cataloging::File,
                path: Seq::<char>::empty(),
            }));
        }
        r
    }
}

impl ConceptSpace {
    /// A concept space before its fields are filled in.
    pub fn new() -> (r: ConceptSpace)
        ensures
            r@ == (ConceptSpaceView {
                identifier: Seq::<char>::empty(),
                package: Seq::<char>::empty(),
                concepts: Seq::<Seq<char>>::empty(),
            }),
    {
        let r = ConceptSpace {
            identifier: String::new(),
            package: String::new(),
            concepts: Vec::new(),
        };
        proof {
            assert(r@ =~~= (ConceptSpaceView {
                identifier: Seq::<char>::empty(),
                package: Seq::<char>::empty(),
                concepts: Seq::<Seq<char>>::empty(),
            }));
        }
        r
    }
}

impl ApiUnit {
    /// An API unit before its fields are filled in.
    pub fn new() -> (r: ApiUnit)
        ensures
            r@ == (ApiUnitView {
                name: Seq::<char>::empty(),
                import: Option::None,
                apis: Seq::<ApiNodeView>::empty(),
            }),
    {
        let r = ApiUnit { name: String::new(), import: Option::None, apis: Vec::new() };
        proof {
            assert(r@ =~~= (ApiUnitView {
                name: Seq::<char>::empty(),
                import: Option::None,
                apis: Seq::<ApiNodeView>::empty(),
            }));
        }
        r
    }
}

impl ApiNode {
    /// An exchange before its fields are filled in.
    pub fn new() -> (r: ApiNode)
        ensures
            r@ == (ApiNodeView {
                inbound: Seq::<StructFieldView>::empty(),
                outbound: Seq::<StructFieldView>::empty(),
                pre_cond: Seq::<ConditionView>::empty(),
                post_cond: Seq::<ConditionView>::empty(),
            }),
    {
        let r = ApiNode {
            inbound: Vec::new(),
            outbound: Vec::new(),
            pre_cond: Vec::new(),
            post_cond: Vec::new(),
        };
        proof {
            assert(r@ =~~= (ApiNodeView {
                inbound: Seq::<StructFieldView>::empty(),
                outbound: Seq::<StructFieldView>::empty(),
                pre_cond: Seq::<ConditionView>::empty(),
                post_cond: Seq::<ConditionView>::empty(),
            }));
        }
        r
    }
}

impl Condition {
    /// A condition before its fields are filled in: empty text, wrapped as
    /// the empty opaque-string expression.
    pub fn new() -> (r: Condition)
        ensures
            r@ == (ConditionView {
                text: Seq::<char>::empty(),
                expr: ExpressionView::String(Seq::<char>::empty()),
            }),
    {
        let r = Condition { text: String::new(), expr: Expression::String(String::new()) };
        proof {
            assert(r@ =~~= (ConditionView {
                text: Seq::<char>::empty(),
                expr: ExpressionView::String(Seq::<char>::empty()),
            }));
        }
        r
    }
}

impl ConceptUnit {
    /// A concept before its fields are filled in.
    pub fn new() -> (r: ConceptUnit)
        ensures
            r@ == (ConceptUnitView {
                description: Seq::<char>::empty(),
                identifier: Seq::<char>::empty(),
                extends: Seq::<Seq<char>>::empty(),
                structs: Seq::<StructFieldView>::empty(),
                behaviors: Seq::<InterfaceView>::empty(),
                struct_source: struct_source_default_view(),
            }),
    {
        let r = ConceptUnit {
            description: String::new(),
            identifier: String::new(),
            extends: Vec::new(),
            structs: Vec::new(),
            behaviors: Vec::new(),
            struct_source: StructSource::default(),
        };
        proof {
            assert(r@ =~~= (ConceptUnitView {
                description: Seq::<char>::empty(),
                identifier: Seq::<char>::empty(),
                extends: Seq::<Seq<char>>::empty(),
                structs: Seq::<StructFieldView>::empty(),
                behaviors: Seq::<InterfaceView>::empty(),
                struct_source: struct_source_default_view(),
            }));
        }
        r
    }
}

impl Default for StructSource {
    /// The construction-time sentinel: every field the empty string.
    fn default() -> (r: StructSource)
        ensures
            r@ == struct_source_default_view(),
    {
        let r = StructSource {
            type_type: String::new(),
            path: String::new(),
            source: String::new(),
        };
        proof {
            assert(r@ =~= struct_source_default_view());
        }
        r
    }
}

impl StructFor {
    /// A struct-for declaration before its fields are filled in.
    pub fn new() -> (r: StructFor)
        ensures
            r@ == (StructForView {
                identifier: Seq::<char>::empty(),
                declarations: Seq::<StructFieldView>::empty(),
            }),
    {
        let r = StructFor { identifier: String::new(), declarations: Vec::new() };
        proof {
            assert(r@ =~~= (StructForView {
                identifier: Seq::<char>::empty(),
                declarations: Seq::<StructFieldView>::empty(),
            }));
        }
        r
    }
}

impl StructField {
    /// A field before its parts are filled in: empty name, empty named
    /// type.
    pub fn new() -> (r: StructField)
        ensures
            r@ == (StructFieldView {
                identifier: Seq::<char>::empty(),
                declarator: TypeSpecifierView::TypeType(Seq::<char>::empty()),
            }),
    {
        let r = StructField {
            identifier: String::new(),
            declarator: TypeSpecifier::TypeType(String::new()),
        };
        proof {
            assert(r@ =~= (StructFieldView {
                identifier: Seq::<char>::empty(),
                declarator: TypeSpecifierView::TypeType(Seq::<char>::empty()),
            }));
        }
        r
    }
}

impl BehaviorFor {
    /// A behavior-for declaration from its parts.
    pub fn make(identifier: String, functions: Vec<Interface>) -> (r: BehaviorFor)
        ensures
            r@ == (BehaviorForView {
                identifier: identifier@,
                functions: functions@.map_values(|b: Interface| b@),
            }),
    {
        BehaviorFor { identifier, functions }
    }

    /// The declared identifier.
    pub fn identifier(&self) -> (r: &String)
        ensures
            r@ == self@.identifier,
    {
        &self.identifier
    }

    /// The declared method signatures.
    pub fn functions(&self) -> (r: &Vec<Interface>)
        ensures
            r@.map_values(|b: Interface| b@) == self@.functions,
    {
        &self.functions
    }
}

impl Interface {
    /// A method signature before its parts are filled in.
    pub fn new() -> (r: Interface)
        ensures
            r@ == (InterfaceView {
                identifier: Seq::<char>::empty(),
                params: Seq::<ParameterView>::empty(),
                return_type: TypeSpecifierView::NoType,
            }),
    {
        let r = Interface {
            identifier: String::new(),
            params: Vec::new(),
            return_type: TypeSpecifier::NoType,
        };
        proof {
            assert(r@ =~~= (InterfaceView {
                identifier: Seq::<char>::empty(),
                params: Seq::<ParameterView>::empty(),
                return_type: TypeSpecifierView::NoType,
            }));
        }
        r
    }
}

impl Parameter {
    /// A parameter before its parts are filled in.
    pub fn new() -> (r: Parameter)
        ensures
            r@ == (ParameterView {
                identifier: Seq::<char>::empty(),
                specifier: TypeSpecifierView::NoType,
            }),
    {
        let r = Parameter { identifier: String::new(), specifier: TypeSpecifier::NoType };
        proof {
            assert(r@ =~= (ParameterView {
                identifier: Seq::<char>::empty(),
                specifier: TypeSpecifierView::NoType,
            }));
        }
        r
    }
}

impl ContractUnit {
    /// A contract before its fields are filled in.
    pub fn new() -> (r: ContractUnit)
        ensures
            r@ == (ContractUnitView {
                identifier: Seq::<char>::empty(),
                during: Seq::<char>::empty(),
                pre_condition: Seq::<ConditionView>::empty(),
                post_condition: Seq::<ConditionView>::empty(),
            }),
    {
        let r = ContractUnit {
            identifier: String::new(),
            during: String::new(),
            pre_condition: Vec::new(),
            post_condition: Vec::new(),
        };
        proof {
            assert(r@ =~~= (ContractUnitView {
                identifier: Seq::<char>::empty(),
                during: Seq::<char>::empty(),
                pre_condition: Seq::<ConditionView>::empty(),
                post_condition: Seq::<ConditionView>::empty(),
            }));
        }
        r
    }
}

/// Lower-casing a text that holds no upper-case ASCII letter leaves it as
/// it is.
pub proof fn lemma_lower_lowercase(text: Seq<char>)
    requires
        forall|j: int| 0 <= j < text.len() ==> !('A' <= #[trigger] text[j] && text[j] <= 'Z'),
    ensures
        lower(text) == text,
{
    assert(lower(text) =~= text);
}

} // verus!
