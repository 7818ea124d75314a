use archspec::ast::{
    Cataloging, ConceptBy, ConceptSpace, ConceptUnit, Expression, SourceUnit, SourceUnitPart,
    StructField, TypeSpecifier,
};
use archspec::diagnostics::{Diagnostic, DiagnosticKind, Severity};
use archspec::lexer::{tokenize, LexErrorKind};
use archspec::parser::parse;
use archspec::validator::validate;

fn kinds_of(diags: &[Diagnostic]) -> Vec<DiagnosticKind> {
    diags.iter().map(|d| d.kind).collect()
}

fn count_kind(diags: &[Diagnostic], kind: DiagnosticKind) -> usize {
    diags.iter().filter(|d| d.kind == kind).count()
}

#[test]
fn empty_concept_parses_clean() {
    let (unit, diags) = parse("concept Foo { }");
    assert!(diags.is_empty());
    assert_eq!(unit.0.len(), 1);
    match &unit.0[0] {
        SourceUnitPart::ConceptUnit(c) => {
            assert_eq!(c.identifier, "Foo");
            assert_eq!(c.description, "");
            assert!(c.extends.is_empty());
            assert!(c.structs.is_empty());
            assert!(c.behaviors.is_empty());
        }
        other => panic!("expected a concept, got {:?}", other),
    }
}

#[test]
fn concept_with_fields_and_behaviors() {
    let (unit, diags) = parse(
        "concept Blog extends Entry, Titled {\n  title: String\n  update(title: String): Bool\n}",
    );
    assert!(diags.is_empty());
    assert_eq!(unit.0.len(), 1);
    match &unit.0[0] {
        SourceUnitPart::ConceptUnit(c) => {
            assert_eq!(c.identifier, "Blog");
            assert_eq!(c.extends, vec!["Entry".to_string(), "Titled".to_string()]);
            assert_eq!(c.structs.len(), 1);
            assert_eq!(c.structs[0].identifier, "title");
            assert_eq!(c.structs[0].declarator, TypeSpecifier::String);
            assert_eq!(c.behaviors.len(), 1);
            assert_eq!(c.behaviors[0].identifier, "update");
            assert_eq!(c.behaviors[0].params.len(), 1);
            assert_eq!(c.behaviors[0].params[0].identifier, "title");
            assert_eq!(
                c.behaviors[0].return_type,
                TypeSpecifier::TypeType("Bool".to_string())
            );
        }
        other => panic!("expected a concept, got {:?}", other),
    }
}

#[test]
fn extends_list_keeps_commas() {
    let (unit, diags) = parse("concept C extends A, B { }");
    assert!(diags.is_empty());
    match &unit.0[0] {
        SourceUnitPart::ConceptUnit(c) => {
            assert_eq!(c.extends, vec!["A".to_string(), "B".to_string()]);
        }
        other => panic!("expected a concept, got {:?}", other),
    }
}

#[test]
fn doc_comment_becomes_description() {
    let (unit, diags) = parse("/// a blog entry\nconcept Blog { }");
    assert!(diags.is_empty());
    match &unit.0[0] {
        SourceUnitPart::ConceptUnit(c) => {
            assert_eq!(c.description, "a blog entry");
            assert_eq!(c.identifier, "Blog");
        }
        other => panic!("expected a concept, got {:?}", other),
    }
}

#[test]
fn ordinary_comment_is_discarded() {
    let (unit, diags) = parse("// just a note\nconcept Blog { }");
    assert!(diags.is_empty());
    assert_eq!(unit.0.len(), 1);
    match &unit.0[0] {
        SourceUnitPart::ConceptUnit(c) => assert_eq!(c.description, ""),
        other => panic!("expected a concept, got {:?}", other),
    }
}

#[test]
fn contract_with_pre_and_post() {
    let (unit, diags) = parse(
        "contract SLA during \"runtime\" { pre { \"x > 0\" } post { \"y > 0\" \"z > 0\" } }",
    );
    assert!(diags.is_empty());
    match &unit.0[0] {
        SourceUnitPart::ContractUnit(c) => {
            assert_eq!(c.identifier, "SLA");
            assert_eq!(c.during, "runtime");
            assert_eq!(c.pre_condition.len(), 1);
            assert_eq!(c.pre_condition[0].text, "x > 0");
            assert_eq!(
                c.pre_condition[0].expr,
                Expression::String("x > 0".to_string())
            );
            assert_eq!(c.post_condition.len(), 2);
            assert_eq!(c.post_condition[1].text, "z > 0");
        }
        other => panic!("expected a contract, got {:?}", other),
    }
}

#[test]
fn api_unit_with_import_and_nodes() {
    let (unit, diags) = parse(
        "api Payments import \"billing/api\" {\n\
         inbound { amount: Int }\n\
         outbound { ok: Bool }\n\
         pre { \"amount > 0\" }\n\
         post { \"ok\" }\n\
         }",
    );
    assert!(diags.is_empty());
    match &unit.0[0] {
        SourceUnitPart::ApiUnit(a) => {
            assert_eq!(a.name, "Payments");
            assert_eq!(a.import, Some("billing/api".to_string()));
            assert_eq!(a.apis.len(), 1);
            assert_eq!(a.apis[0].inbound.len(), 1);
            assert_eq!(a.apis[0].inbound[0].declarator, TypeSpecifier::Int);
            assert_eq!(a.apis[0].outbound[0].identifier, "ok");
            assert_eq!(a.apis[0].pre_cond.len(), 1);
            assert_eq!(a.apis[0].post_cond.len(), 1);
        }
        other => panic!("expected an api unit, got {:?}", other),
    }
}

#[test]
fn conceptspace_by_structfor_behaviorfor_architecture() {
    let (unit, diags) = parse(
        "architecture\n\
         conceptspace Core package \"core\" { Foo, Bar }\n\
         by dir \"./concepts\"\n\
         structfor Point { x: Int y: Int }\n\
         behaviorfor Point { norm(): Double }",
    );
    assert!(diags.is_empty());
    assert_eq!(unit.0.len(), 5);
    assert!(matches!(unit.0[0], SourceUnitPart::Architecture(_)));
    match &unit.0[1] {
        SourceUnitPart::ConceptSpace(s) => {
            assert_eq!(s.identifier, "Core");
            assert_eq!(s.package, "core");
            assert_eq!(s.concepts, vec!["Foo".to_string(), "Bar".to_string()]);
        }
        other => panic!("expected a concept space, got {:?}", other),
    }
    match &unit.0[2] {
        SourceUnitPart::ConceptBy(b) => {
            assert_eq!(b.cataloging, Cataloging::Dir);
            assert_eq!(b.path, "./concepts");
        }
        other => panic!("expected a cataloging hint, got {:?}", other),
    }
    match &unit.0[3] {
        SourceUnitPart::StructFor(s) => {
            assert_eq!(s.identifier, "Point");
            assert_eq!(s.declarations.len(), 2);
        }
        other => panic!("expected a struct-for, got {:?}", other),
    }
    match &unit.0[4] {
        SourceUnitPart::BehaviorFor(b) => {
            assert_eq!(b.identifier().as_str(), "Point");
            assert_eq!(b.functions().len(), 1);
            assert_eq!(b.functions()[0].identifier, "norm");
            assert_eq!(b.functions()[0].return_type, TypeSpecifier::Double);
        }
        other => panic!("expected a behavior-for, got {:?}", other),
    }
}

#[test]
fn missing_closing_brace_gives_one_syntax_error_and_resumes() {
    let (unit, diags) = parse("concept A { x: Int\nconcept B { }");
    assert_eq!(kinds_of(&diags), vec![DiagnosticKind::SyntaxError]);
    assert_eq!(diags[0].severity, Severity::Error);
    assert_eq!(unit.0.len(), 1);
    match &unit.0[0] {
        SourceUnitPart::ConceptUnit(c) => assert_eq!(c.identifier, "B"),
        other => panic!("expected concept B, got {:?}", other),
    }
}

#[test]
fn stray_token_is_reported_and_skipped() {
    let (unit, diags) = parse("} concept Ok2 { }");
    assert_eq!(count_kind(&diags, DiagnosticKind::SyntaxError), 1);
    assert_eq!(unit.0.len(), 1);
}

#[test]
fn eof_inside_construct_is_fatal_but_reported_once() {
    let (unit, diags) = parse("contract C during \"x\" { pre {");
    assert_eq!(kinds_of(&diags), vec![DiagnosticKind::SyntaxError]);
    assert!(unit.0.is_empty());
}

#[test]
fn unterminated_string_is_a_lex_error() {
    let err = tokenize("concept A { } \"oops").unwrap_err();
    assert_eq!(err.kind, LexErrorKind::UnterminatedString);
    assert_eq!(err.line, 1);
    assert_eq!(err.col, 15);
    let (unit, diags) = parse("concept A { } \"oops");
    assert!(unit.0.is_empty());
    assert_eq!(kinds_of(&diags), vec![DiagnosticKind::LexError]);
    assert_eq!(diags[0].location.line, 1);
    assert_eq!(diags[0].location.col, 15);
}

#[test]
fn invalid_character_is_a_lex_error() {
    let err = tokenize("concept A;").unwrap_err();
    assert_eq!(err.kind, LexErrorKind::InvalidCharacter);
    assert_eq!(err.line, 1);
    assert_eq!(err.col, 10);
}

#[test]
fn token_positions_track_lines() {
    let toks = tokenize("concept\n  Foo").unwrap();
    assert_eq!(toks.len(), 2);
    assert_eq!((toks[0].line, toks[0].col), (1, 1));
    assert_eq!((toks[1].line, toks[1].col), (2, 3));
}

#[test]
fn type_specifier_builtins_are_case_insensitive() {
    assert_eq!(TypeSpecifier::from("INT".to_string()), TypeSpecifier::Int);
    assert_eq!(TypeSpecifier::from("int".to_string()), TypeSpecifier::Int);
    assert_eq!(TypeSpecifier::from("Int".to_string()), TypeSpecifier::Int);
    assert_eq!(TypeSpecifier::from("Float".to_string()), TypeSpecifier::Float);
    assert_eq!(TypeSpecifier::from("DOUBLE".to_string()), TypeSpecifier::Double);
    assert_eq!(TypeSpecifier::from("string".to_string()), TypeSpecifier::String);
    assert_eq!(TypeSpecifier::from("Array".to_string()), TypeSpecifier::Array);
}

#[test]
fn type_specifier_named_reference_keeps_case() {
    assert_eq!(
        TypeSpecifier::from("MyType".to_string()),
        TypeSpecifier::TypeType("MyType".to_string())
    );
    assert_eq!(
        TypeSpecifier::from("iNtX".to_string()),
        TypeSpecifier::TypeType("iNtX".to_string())
    );
}

#[test]
fn cataloging_from_text() {
    assert_eq!(Cataloging::from("file".to_string()), Cataloging::File);
    assert_eq!(Cataloging::from("dir".to_string()), Cataloging::Dir);
    assert_eq!(Cataloging::from("anything".to_string()), Cataloging::File);
    assert_eq!(Cataloging::from("".to_string()), Cataloging::File);
}

#[test]
fn validate_accepts_clean_set() {
    let (u1, d1) = parse("concept Base { }");
    let (u2, d2) = parse("concept Derived extends Base { parent: Base }");
    assert!(d1.is_empty() && d2.is_empty());
    let diags = validate(&vec![u1, u2]);
    assert!(diags.is_empty(), "unexpected diagnostics: {:?}", diags);
}

#[test]
fn cycle_is_detected_with_path() {
    let (u1, _) = parse("concept A extends B { }");
    let (u2, _) = parse("concept B extends A { }");
    let diags = validate(&vec![u1, u2]);
    assert_eq!(count_kind(&diags, DiagnosticKind::CyclicInheritance), 1);
    let d = diags
        .iter()
        .find(|d| d.kind == DiagnosticKind::CyclicInheritance)
        .unwrap();
    assert_eq!(d.severity, Severity::Error);
    assert_eq!(d.related_identifier, Some("A -> B -> A".to_string()));
}

#[test]
fn cycle_detection_ignores_declaration_order() {
    let (u1, _) = parse("concept B extends A { }");
    let (u2, _) = parse("concept A extends B { }");
    let diags = validate(&vec![u1, u2]);
    assert_eq!(count_kind(&diags, DiagnosticKind::CyclicInheritance), 1);
}

#[test]
fn self_extension_is_a_cycle() {
    let (u, _) = parse("concept A extends A { }");
    let diags = validate(&vec![u]);
    assert_eq!(count_kind(&diags, DiagnosticKind::CyclicInheritance), 1);
}

#[test]
fn diamond_inheritance_is_not_a_cycle() {
    let (u, _) = parse(
        "concept Top { }\nconcept L extends Top { }\nconcept R extends Top { }\nconcept Bottom extends L, R { }",
    );
    let diags = validate(&vec![u]);
    assert_eq!(count_kind(&diags, DiagnosticKind::CyclicInheritance), 0);
}

#[test]
fn duplicate_concepts_are_flagged_once_per_extra() {
    let (u1, _) = parse("concept Foo { }");
    let (u2, _) = parse("concept Foo { }");
    let diags = validate(&vec![u1, u2]);
    assert_eq!(count_kind(&diags, DiagnosticKind::DuplicateIdentifier), 1);
    let d = diags
        .iter()
        .find(|d| d.kind == DiagnosticKind::DuplicateIdentifier)
        .unwrap();
    assert_eq!(d.related_identifier, Some("Foo".to_string()));
}

#[test]
fn duplicates_flagged_regardless_of_file_split() {
    let (u, _) = parse("concept Foo { }\nconcept Foo { }");
    let one_file = validate(&vec![u]);
    let (u1, _) = parse("concept Foo { }");
    let (u2, _) = parse("concept Foo { }");
    let two_files = validate(&vec![u1, u2]);
    assert_eq!(
        count_kind(&one_file, DiagnosticKind::DuplicateIdentifier),
        count_kind(&two_files, DiagnosticKind::DuplicateIdentifier)
    );
}

#[test]
fn same_name_in_different_scope_kinds_is_fine() {
    let (u, _) = parse("concept Foo { }\ncontract Foo during \"x\" { }\napi Foo { }");
    let diags = validate(&vec![u]);
    assert_eq!(count_kind(&diags, DiagnosticKind::DuplicateIdentifier), 0);
}

#[test]
fn conceptspace_unresolved_member_is_a_warning() {
    let (u, d) = parse("concept Foo { }\nconceptspace Core package \"core\" { Foo, Bar }");
    assert!(d.is_empty());
    let diags = validate(&vec![u]);
    assert_eq!(kinds_of(&diags), vec![DiagnosticKind::UnresolvedReference]);
    assert_eq!(diags[0].severity, Severity::Warning);
    assert_eq!(diags[0].related_identifier, Some("Bar".to_string()));
}

#[test]
fn unresolved_type_reference_is_a_warning() {
    let (u, _) = parse("concept Foo { item: Widget }");
    let diags = validate(&vec![u]);
    assert_eq!(kinds_of(&diags), vec![DiagnosticKind::UnresolvedReference]);
    assert_eq!(diags[0].related_identifier, Some("Widget".to_string()));
}

#[test]
fn type_reference_resolves_against_structfor_too() {
    let (u, _) = parse("structfor Widget { w: Int }\nconcept Foo { item: Widget }");
    let diags = validate(&vec![u]);
    assert!(diags.is_empty(), "unexpected diagnostics: {:?}", diags);
}

#[test]
fn empty_identifier_sentinel_is_rejected() {
    let unit = SourceUnit(vec![SourceUnitPart::ConceptUnit(ConceptUnit::new())]);
    let diags = validate(&vec![unit]);
    assert_eq!(
        count_kind(&diags, DiagnosticKind::EmptyIdentifierSentinel),
        1
    );
    assert_eq!(diags[0].severity, Severity::Error);
}

#[test]
fn constructors_build_sentinels() {
    let c = ConceptUnit::new();
    assert_eq!(c.identifier, "");
    assert!(c.extends.is_empty());
    let b = ConceptBy::new();
    assert_eq!(b.cataloging, Cataloging::File);
    assert_eq!(b.path, "");
    let s = ConceptSpace::new();
    assert_eq!(s.identifier, "");
    assert!(s.concepts.is_empty());
    let f = StructField::new();
    assert_eq!(f.declarator, TypeSpecifier::TypeType(String::new()));
}
