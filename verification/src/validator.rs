//! The semantic validator: operates over one or more parsed source units,
//! builds symbol tables, resolves references, detects inheritance cycles,
//! and emits an ordered diagnostic list.
//!
//! Passes, in order: the defensive empty-identifier check, duplicate
//! identifiers per scope kind, concept-space resolution, inheritance-cycle
//! detection, and type-reference resolution.

use vstd::prelude::*;

use crate::ast::{
    ApiNode, ApiNodeView, Interface, InterfaceView, Parameter, ParameterView, SourceUnit,
    SourceUnitPart, SourceUnitPartView, StructField, StructFieldView, TypeSpecifier,
    TypeSpecifierView,
};
use crate::diagnostics::{diagnostic_view, make_diagnostic, Diagnostic, DiagnosticKind,
    DiagnosticView};

verus! {

/// The identifier of every named part, in order: what the defensive
/// empty-identifier check inspects.
pub open spec fn ex_any_name(p: SourceUnitPartView) -> Seq<Seq<char>> {
    match p {
        SourceUnitPartView::ConceptUnit(c) => seq![c.identifier],
        SourceUnitPartView::ContractUnit(c) => seq![c.identifier],
        SourceUnitPartView::ApiUnit(a) => seq![a.name],
        SourceUnitPartView::StructFor(s) => seq![s.identifier],
        SourceUnitPartView::BehaviorFor(b) => seq![b.identifier],
        SourceUnitPartView::ConceptSpace(s) => seq![s.identifier],
        _ => Seq::empty(),
    }
}

/// Concept identifiers.
pub open spec fn ex_concept_name(p: SourceUnitPartView) -> Seq<Seq<char>> {
    match p {
        SourceUnitPartView::ConceptUnit(c) => seq![c.identifier],
        _ => Seq::empty(),
    }
}

/// Each concept's `extends` list, parallel to [`ex_concept_name`].
pub open spec fn ex_concept_exts(p: SourceUnitPartView) -> Seq<Seq<Seq<char>>> {
    match p {
        SourceUnitPartView::ConceptUnit(c) => seq![c.extends],
        _ => Seq::empty(),
    }
}

/// Contract identifiers.
pub open spec fn ex_contract_name(p: SourceUnitPartView) -> Seq<Seq<char>> {
    match p {
        SourceUnitPartView::ContractUnit(c) => seq![c.identifier],
        _ => Seq::empty(),
    }
}

/// API-unit names.
pub open spec fn ex_api_name(p: SourceUnitPartView) -> Seq<Seq<char>> {
    match p {
        SourceUnitPartView::ApiUnit(a) => seq![a.name],
        _ => Seq::empty(),
    }
}

/// Struct-for identifiers.
pub open spec fn ex_structfor_name(p: SourceUnitPartView) -> Seq<Seq<char>> {
    match p {
        SourceUnitPartView::StructFor(s) => seq![s.identifier],
        _ => Seq::empty(),
    }
}

/// Behavior-for identifiers.
pub open spec fn ex_behaviorfor_name(p: SourceUnitPartView) -> Seq<Seq<char>> {
    match p {
        SourceUnitPartView::BehaviorFor(b) => seq![b.identifier],
        _ => Seq::empty(),
    }
}

/// Each concept space's listed concept identifiers, one row per space.
pub open spec fn ex_space_list(p: SourceUnitPartView) -> Seq<Seq<Seq<char>>> {
    match p {
        SourceUnitPartView::ConceptSpace(s) => seq![s.concepts],
        _ => Seq::empty(),
    }
}

/// The named type references a field list makes.
pub open spec fn refs_of_fields(fs: Seq<StructFieldView>) -> Seq<Seq<char>>
    decreases fs.len(),
{
    if fs.len() == 0 {
        Seq::empty()
    } else {
        refs_of_fields(fs.drop_last()) + (match fs.last().declarator {
            TypeSpecifierView::TypeType(t) => seq![t],
            _ => Seq::empty(),
        })
    }
}

/// The named type references a parameter list makes.
pub open spec fn refs_of_params(ps: Seq<ParameterView>) -> Seq<Seq<char>>
    decreases ps.len(),
{
    if ps.len() == 0 {
        Seq::empty()
    } else {
        refs_of_params(ps.drop_last()) + (match ps.last().specifier {
            TypeSpecifierView::TypeType(t) => seq![t],
            _ => Seq::empty(),
        })
    }
}

/// The named type references a method-signature list makes: parameters
/// first, then the return type.
pub open spec fn refs_of_ifaces(bs: Seq<InterfaceView>) -> Seq<Seq<char>>
    decreases bs.len(),
{
    if bs.len() == 0 {
        Seq::empty()
    } else {
        refs_of_ifaces(bs.drop_last()) + refs_of_params(bs.last().params) + (
        match bs.last().return_type {
            TypeSpecifierView::TypeType(t) => seq![t],
            _ => Seq::empty(),
        })
    }
}

/// The named type references an exchange list makes.
pub open spec fn refs_of_nodes(ns: Seq<ApiNodeView>) -> Seq<Seq<char>>
    decreases ns.len(),
{
    if ns.len() == 0 {
        Seq::empty()
    } else {
        refs_of_nodes(ns.drop_last()) + refs_of_fields(ns.last().inbound) + refs_of_fields(
            ns.last().outbound,
        )
    }
}

/// Every named type reference a part makes, in order.
pub open spec fn ex_refs(p: SourceUnitPartView) -> Seq<Seq<char>> {
    match p {
        SourceUnitPartView::ConceptUnit(c) => refs_of_fields(c.structs) + refs_of_ifaces(
            c.behaviors,
        ),
        SourceUnitPartView::StructFor(s) => refs_of_fields(s.declarations),
        SourceUnitPartView::BehaviorFor(b) => refs_of_ifaces(b.functions),
        SourceUnitPartView::ApiUnit(a) => refs_of_nodes(a.apis),
        _ => Seq::empty(),
    }
}

/// The identifier of every named part across a part list, in order.
pub open spec fn any_names_parts(parts: Seq<SourceUnitPartView>) -> Seq<Seq<char>>
    decreases parts.len(),
{
    if parts.len() == 0 {
        Seq::empty()
    } else {
        any_names_parts(parts.drop_last()) + ex_any_name(parts.last())
    }
}

/// The identifier of every named part across a unit set, in order.
pub open spec fn any_names_units(units: Seq<SourceUnit>) -> Seq<Seq<char>>
    decreases units.len(),
{
    if units.len() == 0 {
        Seq::empty()
    } else {
        any_names_units(units.drop_last()) + any_names_parts(units.last()@.parts)
    }
}

/// The concept identifiers of a part list, in order.
pub open spec fn concept_names_parts(parts: Seq<SourceUnitPartView>) -> Seq<Seq<char>>
    decreases parts.len(),
{
    if parts.len() == 0 {
        Seq::empty()
    } else {
        concept_names_parts(parts.drop_last()) + ex_concept_name(parts.last())
    }
}

/// The concept identifiers of a unit set, in order: the concept symbol
/// table.
pub open spec fn concept_names_units(units: Seq<SourceUnit>) -> Seq<Seq<char>>
    decreases units.len(),
{
    if units.len() == 0 {
        Seq::empty()
    } else {
        concept_names_units(units.drop_last()) + concept_names_parts(units.last()@.parts)
    }
}

/// The concepts' `extends` lists of a part list, parallel to
/// [`concept_names_parts`].
pub open spec fn concept_exts_parts(parts: Seq<SourceUnitPartView>) -> Seq<Seq<Seq<char>>>
    decreases parts.len(),
{
    if parts.len() == 0 {
        Seq::empty()
    } else {
        concept_exts_parts(parts.drop_last()) + ex_concept_exts(parts.last())
    }
}

/// The concepts' `extends` lists of a unit set, parallel to
/// [`concept_names_units`].
pub open spec fn concept_exts_units(units: Seq<SourceUnit>) -> Seq<Seq<Seq<char>>>
    decreases units.len(),
{
    if units.len() == 0 {
        Seq::empty()
    } else {
        concept_exts_units(units.drop_last()) + concept_exts_parts(units.last()@.parts)
    }
}

/// The contract identifiers of a part list, in order.
pub open spec fn contract_names_parts(parts: Seq<SourceUnitPartView>) -> Seq<Seq<char>>
    decreases parts.len(),
{
    if parts.len() == 0 {
        Seq::empty()
    } else {
        contract_names_parts(parts.drop_last()) + ex_contract_name(parts.last())
    }
}

/// The contract identifiers of a unit set, in order.
pub open spec fn contract_names_units(units: Seq<SourceUnit>) -> Seq<Seq<char>>
    decreases units.len(),
{
    if units.len() == 0 {
        Seq::empty()
    } else {
        contract_names_units(units.drop_last()) + contract_names_parts(units.last()@.parts)
    }
}

/// The API-unit names of a part list, in order.
pub open spec fn api_names_parts(parts: Seq<SourceUnitPartView>) -> Seq<Seq<char>>
    decreases parts.len(),
{
    if parts.len() == 0 {
        Seq::empty()
    } else {
        api_names_parts(parts.drop_last()) + ex_api_name(parts.last())
    }
}

/// The API-unit names of a unit set, in order.
pub open spec fn api_names_units(units: Seq<SourceUnit>) -> Seq<Seq<char>>
    decreases units.len(),
{
    if units.len() == 0 {
        Seq::empty()
    } else {
        api_names_units(units.drop_last()) + api_names_parts(units.last()@.parts)
    }
}

/// The struct-for identifiers of a part list, in order.
pub open spec fn structfor_names_parts(parts: Seq<SourceUnitPartView>) -> Seq<Seq<char>>
    decreases parts.len(),
{
    if parts.len() == 0 {
        Seq::empty()
    } else {
        structfor_names_parts(parts.drop_last()) + ex_structfor_name(parts.last())
    }
}

/// The struct-for identifiers of a unit set, in order.
pub open spec fn structfor_names_units(units: Seq<SourceUnit>) -> Seq<Seq<char>>
    decreases units.len(),
{
    if units.len() == 0 {
        Seq::empty()
    } else {
        structfor_names_units(units.drop_last()) + structfor_names_parts(units.last()@.parts)
    }
}

/// The behavior-for identifiers of a part list, in order.
pub open spec fn behaviorfor_names_parts(parts: Seq<SourceUnitPartView>) -> Seq<Seq<char>>
    decreases parts.len(),
{
    if parts.len() == 0 {
        Seq::empty()
    } else {
        behaviorfor_names_parts(parts.drop_last()) + ex_behaviorfor_name(parts.last())
    }
}

/// The behavior-for identifiers of a unit set, in order.
pub open spec fn behaviorfor_names_units(units: Seq<SourceUnit>) -> Seq<Seq<char>>
    decreases units.len(),
{
    if units.len() == 0 {
        Seq::empty()
    } else {
        behaviorfor_names_units(units.drop_last()) + behaviorfor_names_parts(units.last()@.parts)
    }
}

/// The concept spaces' listed identifiers of a part list, one row per
/// space.
pub open spec fn space_lists_parts(parts: Seq<SourceUnitPartView>) -> Seq<Seq<Seq<char>>>
    decreases parts.len(),
{
    if parts.len() == 0 {
        Seq::empty()
    } else {
        space_lists_parts(parts.drop_last()) + ex_space_list(parts.last())
    }
}

/// The concept spaces' listed identifiers of a unit set, one row per
/// space.
pub open spec fn space_lists_units(units: Seq<SourceUnit>) -> Seq<Seq<Seq<char>>>
    decreases units.len(),
{
    if units.len() == 0 {
        Seq::empty()
    } else {
        space_lists_units(units.drop_last()) + space_lists_parts(units.last()@.parts)
    }
}

/// The named type references of a part list, in order.
pub open spec fn type_refs_parts(parts: Seq<SourceUnitPartView>) -> Seq<Seq<char>>
    decreases parts.len(),
{
    if parts.len() == 0 {
        Seq::empty()
    } else {
        type_refs_parts(parts.drop_last()) + ex_refs(parts.last())
    }
}

/// The named type references of a unit set, in order.
pub open spec fn type_refs_units(units: Seq<SourceUnit>) -> Seq<Seq<char>>
    decreases units.len(),
{
    if units.len() == 0 {
        Seq::empty()
    } else {
        type_refs_units(units.drop_last()) + type_refs_parts(units.last()@.parts)
    }
}

/// The identifiers flagged by duplicate detection: each occurrence that
/// repeats an earlier one in the same table, in occurrence order.
pub open spec fn dup_ids(ids: Seq<Seq<char>>) -> Seq<Seq<char>>
    decreases ids.len(),
{
    if ids.len() == 0 {
        Seq::empty()
    } else {
        dup_ids(ids.drop_last()) + (if ids.drop_last().contains(ids.last()) {
            seq![ids.last()]
        } else {
            Seq::empty()
        })
    }
}

/// The diagnostics of the empty-identifier check over a name table.
pub open spec fn empty_diags(ids: Seq<Seq<char>>) -> Seq<DiagnosticView>
    decreases ids.len(),
{
    if ids.len() == 0 {
        Seq::empty()
    } else {
        empty_diags(ids.drop_last()) + (if ids.last().len() == 0 {
            seq![
                diagnostic_view(
                    DiagnosticKind::EmptyIdentifierSentinel,
                    0,
                    0,
                    Option::Some(ids.last()),
                ),
            ]
        } else {
            Seq::empty()
        })
    }
}

/// The diagnostics of duplicate detection over a name table.
pub open spec fn dup_diags(ids: Seq<Seq<char>>) -> Seq<DiagnosticView> {
    dup_ids(ids).map_values(
        |x: Seq<char>| diagnostic_view(DiagnosticKind::DuplicateIdentifier, 0, 0, Option::Some(x)),
    )
}

/// The warnings for the identifiers of one list that the table does not
/// declare, in order.
pub open spec fn miss_diags(ids: Seq<Seq<char>>, tab: Seq<Seq<char>>) -> Seq<DiagnosticView>
    decreases ids.len(),
{
    if ids.len() == 0 {
        Seq::empty()
    } else {
        miss_diags(ids.drop_last(), tab) + (if tab.contains(ids.last()) {
            Seq::empty()
        } else {
            seq![
                diagnostic_view(
                    DiagnosticKind::UnresolvedReference,
                    0,
                    0,
                    Option::Some(ids.last()),
                ),
            ]
        })
    }
}

/// The warnings of concept-space resolution: every listed concept that the
/// concept table does not declare, space by space.
pub open spec fn ns_diags(lists: Seq<Seq<Seq<char>>>, tab: Seq<Seq<char>>) -> Seq<DiagnosticView>
    decreases lists.len(),
{
    if lists.len() == 0 {
        Seq::empty()
    } else {
        ns_diags(lists.drop_last(), tab) + miss_diags(lists.last(), tab)
    }
}

/// An inheritance edge from child `a` to parent `b`: concept `a` extends
/// an identifier that names concept `b`.
pub open spec fn has_edge(
    names: Seq<Seq<char>>,
    exts: Seq<Seq<Seq<char>>>,
    a: int,
    b: int,
) -> bool {
    &&& 0 <= a < names.len()
    &&& 0 <= b < names.len()
    &&& exts.len() == names.len()
    &&& exts[a].contains(names[b])
}

/// A cycle in the inheritance graph: a closed walk of length at least one
/// edge, every step an edge.
pub open spec fn is_cycle(names: Seq<Seq<char>>, exts: Seq<Seq<Seq<char>>>, p: Seq<int>) -> bool {
    &&& p.len() >= 2
    &&& p[0] == p[p.len() - 1]
    &&& forall|q: int| 0 <= q < p.len() - 1 ==> has_edge(names, exts, #[trigger] p[q], p[q + 1])
}

/// Whether the inheritance graph has any cycle.
pub open spec fn has_cycle(names: Seq<Seq<char>>, exts: Seq<Seq<Seq<char>>>) -> bool {
    exists|p: Seq<int>| is_cycle(names, exts, p)
}

/// The names along a cycle path.
pub open spec fn path_names(names: Seq<Seq<char>>, p: Seq<int>) -> Seq<Seq<char>> {
    p.map_values(|i: int| if 0 <= i < names.len() { names[i] } else { Seq::empty() })
}

/// Identifiers joined with an arrow, for a cycle report.
pub open spec fn join_arrow(ids: Seq<Seq<char>>) -> Seq<char>
    decreases ids.len(),
{
    if ids.len() == 0 {
        Seq::empty()
    } else if ids.len() == 1 {
        ids[0]
    } else {
        join_arrow(ids.drop_last()) + " -> "@ + ids.last()
    }
}

/// The mapped views of a string vector.
pub open spec fn strs(v: Seq<String>) -> Seq<Seq<char>> {
    v.map_values(|s: String| s@)
}

/// The mapped views of a vector of string vectors.
pub open spec fn strss(v: Seq<Vec<String>>) -> Seq<Seq<Seq<char>>> {
    v.map_values(|w: Vec<String>| strs(w@))
}

/// The mapped views of a diagnostic vector.
pub open spec fn diag_views(v: Seq<Diagnostic>) -> Seq<DiagnosticView> {
    v.map_values(|d: Diagnostic| d@)
}

/// Whether two strings spell the same characters.
fn eq_string(a: &String, b: &String) -> (r: bool)
    ensures
        r == (a@ == b@),
{
    a.eq(b)
}

/// Whether a string table contains a name.
fn contains_str(tab: &Vec<String>, x: &String) -> (r: bool)
    ensures
        r == strs(tab@).contains(x@),
{
    let mut j: usize = 0;
    while j < tab.len()
        invariant
            j <= tab@.len(),
            forall|k: int| 0 <= k < j ==> strs(tab@)[k] != x@,
        decreases tab@.len() - j,
    {
        if eq_string(&tab[j], x) {
            assert(strs(tab@)[j as int] == x@);
            return true;
        }
        j += 1;
    }
    false
}

/// Copies a string vector, element by element.
fn clone_strs(v: &Vec<String>) -> (r: Vec<String>)
    ensures
        r@ == v@,
{
    let mut r: Vec<String> = Vec::new();
    let mut j: usize = 0;
    while j < v.len()
        invariant
            j <= v@.len(),
            r@ == v@.take(j as int),
        decreases v@.len() - j,
    {
        r.push(v[j].clone());
        proof {
            assert(v@.take(j as int).push(v@[j as int]) =~= v@.take(j as int + 1));
        }
        j += 1;
    }
    proof {
        assert(v@.take(v@.len() as int) =~= v@);
    }
    r
}

/// Appends the named type references of a field list.
fn push_field_refs(fs: &Vec<StructField>, refs: &mut Vec<String>)
    ensures
        strs(final(refs)@) == strs(old(refs)@) + refs_of_fields(
            fs@.map_values(|f: StructField| f@),
        ),
{
    let ghost fv = fs@.map_values(|f: StructField| f@);
    let mut j: usize = 0;
    proof {
        assert(strs(refs@) + refs_of_fields(fv.take(0)) =~= strs(refs@));
    }
    while j < fs.len()
        invariant
            j <= fs@.len(),
            fv == fs@.map_values(|f: StructField| f@),
            strs(refs@) == strs(old(refs)@) + refs_of_fields(fv.take(j as int)),
        decreases fs@.len() - j,
    {
        proof {
            assert(fv.take(j as int + 1).drop_last() =~= fv.take(j as int));
            assert(fv.take(j as int + 1).last() == fv[j as int]);
            assert(fv[j as int] == fs@[j as int]@);
        }
        match &fs[j].declarator {
            TypeSpecifier::TypeType(t) => {
                let ghost before = refs@;
                refs.push(t.clone());
                proof {
                    assert(strs(before.push(refs@[before.len() as int])) =~= strs(before).push(
                        t@,
                    ));
                    assert(strs(old(refs)@) + refs_of_fields(fv.take(j as int + 1)) =~= strs(
                        old(refs)@,
                    ) + refs_of_fields(fv.take(j as int)) + seq![t@]);
                }
            },
            _ => {
                proof {
                    assert(strs(old(refs)@) + refs_of_fields(fv.take(j as int + 1)) =~= strs(
                        old(refs)@,
                    ) + refs_of_fields(fv.take(j as int)));
                }
            },
        }
        j += 1;
    }
    proof {
        assert(fv.take(fs@.len() as int) =~= fv);
    }
}

/// Appends the named type references of a parameter list.
fn push_param_refs(ps: &Vec<Parameter>, refs: &mut Vec<String>)
    ensures
        strs(final(refs)@) == strs(old(refs)@) + refs_of_params(
            ps@.map_values(|p: Parameter| p@),
        ),
{
    let ghost pv = ps@.map_values(|p: Parameter| p@);
    let mut j: usize = 0;
    proof {
        assert(strs(refs@) + refs_of_params(pv.take(0)) =~= strs(refs@));
    }
    while j < ps.len()
        invariant
            j <= ps@.len(),
            pv == ps@.map_values(|p: Parameter| p@),
            strs(refs@) == strs(old(refs)@) + refs_of_params(pv.take(j as int)),
        decreases ps@.len() - j,
    {
        proof {
            assert(pv.take(j as int + 1).drop_last() =~= pv.take(j as int));
            assert(pv.take(j as int + 1).last() == pv[j as int]);
            assert(pv[j as int] == ps@[j as int]@);
        }
        match &ps[j].specifier {
            TypeSpecifier::TypeType(t) => {
                let ghost before = refs@;
                refs.push(t.clone());
                proof {
                    assert(strs(before.push(refs@[before.len() as int])) =~= strs(before).push(
                        t@,
                    ));
                    assert(strs(old(refs)@) + refs_of_params(pv.take(j as int + 1)) =~= strs(
                        old(refs)@,
                    ) + refs_of_params(pv.take(j as int)) + seq![t@]);
                }
            },
            _ => {
                proof {
                    assert(strs(old(refs)@) + refs_of_params(pv.take(j as int + 1)) =~= strs(
                        old(refs)@,
                    ) + refs_of_params(pv.take(j as int)));
                }
            },
        }
        j += 1;
    }
    proof {
        assert(pv.take(ps@.len() as int) =~= pv);
    }
}

/// Appends the named type references of a method-signature list.
fn push_iface_refs(bs: &Vec<Interface>, refs: &mut Vec<String>)
    ensures
        strs(final(refs)@) == strs(old(refs)@) + refs_of_ifaces(
            bs@.map_values(|b: Interface| b@),
        ),
{
    let ghost bv = bs@.map_values(|b: Interface| b@);
    let mut j: usize = 0;
    proof {
        assert(strs(refs@) + refs_of_ifaces(bv.take(0)) =~= strs(refs@));
    }
    while j < bs.len()
        invariant
            j <= bs@.len(),
            bv == bs@.map_values(|b: Interface| b@),
            strs(refs@) == strs(old(refs)@) + refs_of_ifaces(bv.take(j as int)),
        decreases bs@.len() - j,
    {
        proof {
            assert(bv.take(j as int + 1).drop_last() =~= bv.take(j as int));
            assert(bv.take(j as int + 1).last() == bv[j as int]);
            assert(bv[j as int] == bs@[j as int]@);
        }
        let ghost mid = refs@;
        push_param_refs(&bs[j].params, refs);
        match &bs[j].return_type {
            TypeSpecifier::TypeType(t) => {
                let ghost before = refs@;
                refs.push(t.clone());
                proof {
                    assert(strs(before.push(refs@[before.len() as int])) =~= strs(before).push(
                        t@,
                    ));
                    assert(strs(old(refs)@) + refs_of_ifaces(bv.take(j as int + 1)) =~= strs(
                        old(refs)@,
                    ) + refs_of_ifaces(bv.take(j as int)) + refs_of_params(bv[j as int].params)
                        + seq![t@]);
                }
            },
            _ => {
                proof {
                    assert(strs(old(refs)@) + refs_of_ifaces(bv.take(j as int + 1)) =~= strs(
                        old(refs)@,
                    ) + refs_of_ifaces(bv.take(j as int)) + refs_of_params(bv[j as int].params));
                }
            },
        }
        j += 1;
    }
    proof {
        assert(bv.take(bs@.len() as int) =~= bv);
    }
}

/// Appends the named type references of an exchange list.
fn push_node_refs(ns: &Vec<ApiNode>, refs: &mut Vec<String>)
    ensures
        strs(final(refs)@) == strs(old(refs)@) + refs_of_nodes(ns@.map_values(|n: ApiNode| n@)),
{
    let ghost nv = ns@.map_values(|n: ApiNode| n@);
    let mut j: usize = 0;
    proof {
        assert(strs(refs@) + refs_of_nodes(nv.take(0)) =~= strs(refs@));
    }
    while j < ns.len()
        invariant
            j <= ns@.len(),
            nv == ns@.map_values(|n: ApiNode| n@),
            strs(refs@) == strs(old(refs)@) + refs_of_nodes(nv.take(j as int)),
        decreases ns@.len() - j,
    {
        proof {
            assert(nv.take(j as int + 1).drop_last() =~= nv.take(j as int));
            assert(nv.take(j as int + 1).last() == nv[j as int]);
            assert(nv[j as int] == ns@[j as int]@);
        }
        push_field_refs(&ns[j].inbound, refs);
        push_field_refs(&ns[j].outbound, refs);
        proof {
            assert(strs(old(refs)@) + refs_of_nodes(nv.take(j as int + 1)) =~= strs(old(refs)@)
                + refs_of_nodes(nv.take(j as int)) + refs_of_fields(nv[j as int].inbound)
                + refs_of_fields(nv[j as int].outbound));
        }
        j += 1;
    }
    proof {
        assert(nv.take(ns@.len() as int) =~= nv);
    }
}

/// The symbol tables of one compilation, gathered fresh per call.
struct Tables {
    any_names: Vec<String>,
    concept_names: Vec<String>,
    concept_exts: Vec<Vec<String>>,
    contract_names: Vec<String>,
    api_names: Vec<String>,
    structfor_names: Vec<String>,
    behaviorfor_names: Vec<String>,
    space_lists: Vec<Vec<String>>,
    type_refs: Vec<String>,
}

/// One pass over every part of every unit, filling all symbol tables.
fn collect(units: &Vec<SourceUnit>) -> (t: Tables)
    ensures
        strs(t.any_names@) == any_names_units(units@),
        strs(t.concept_names@) == concept_names_units(units@),
        strss(t.concept_exts@) == concept_exts_units(units@),
        strs(t.contract_names@) == contract_names_units(units@),
        strs(t.api_names@) == api_names_units(units@),
        strs(t.structfor_names@) == structfor_names_units(units@),
        strs(t.behaviorfor_names@) == behaviorfor_names_units(units@),
        strss(t.space_lists@) == space_lists_units(units@),
        strs(t.type_refs@) == type_refs_units(units@),
{
    let mut t = Tables {
        any_names: Vec::new(),
        concept_names: Vec::new(),
        concept_exts: Vec::new(),
        contract_names: Vec::new(),
        api_names: Vec::new(),
        structfor_names: Vec::new(),
        behaviorfor_names: Vec::new(),
        space_lists: Vec::new(),
        type_refs: Vec::new(),
    };
    let mut u: usize = 0;
    proof {
        assert(units@.take(0) =~= Seq::<SourceUnit>::empty());
        assert(strs(t.any_names@) =~= any_names_units(units@.take(0)));
        assert(strs(t.concept_names@) =~= concept_names_units(units@.take(0)));
        assert(strss(t.concept_exts@) =~= concept_exts_units(units@.take(0)));
        assert(strs(t.contract_names@) =~= contract_names_units(units@.take(0)));
        assert(strs(t.api_names@) =~= api_names_units(units@.take(0)));
        assert(strs(t.structfor_names@) =~= structfor_names_units(units@.take(0)));
        assert(strs(t.behaviorfor_names@) =~= behaviorfor_names_units(units@.take(0)));
        assert(strss(t.space_lists@) =~= space_lists_units(units@.take(0)));
        assert(strs(t.type_refs@) =~= type_refs_units(units@.take(0)));
    }
    while u < units.len()
        invariant
            u <= units@.len(),
            strs(t.any_names@) == any_names_units(units@.take(u as int)),
            strs(t.concept_names@) == concept_names_units(units@.take(u as int)),
            strss(t.concept_exts@) == concept_exts_units(units@.take(u as int)),
            strs(t.contract_names@) == contract_names_units(units@.take(u as int)),
            strs(t.api_names@) == api_names_units(units@.take(u as int)),
            strs(t.structfor_names@) == structfor_names_units(units@.take(u as int)),
            strs(t.behaviorfor_names@) == behaviorfor_names_units(units@.take(u as int)),
            strss(t.space_lists@) == space_lists_units(units@.take(u as int)),
            strs(t.type_refs@) == type_refs_units(units@.take(u as int)),
        decreases units@.len() - u,
    {
        let ghost pv = units@[u as int]@.parts;
        let mut p: usize = 0;
        proof {
            assert(pv.take(0) =~= Seq::<SourceUnitPartView>::empty());
            assert(any_names_units(units@.take(u as int)) + any_names_parts(pv.take(0))
                =~= any_names_units(units@.take(u as int)));
            assert(concept_names_units(units@.take(u as int)) + concept_names_parts(pv.take(0))
                =~= concept_names_units(units@.take(u as int)));
            assert(concept_exts_units(units@.take(u as int)) + concept_exts_parts(pv.take(0))
                =~= concept_exts_units(units@.take(u as int)));
            assert(contract_names_units(units@.take(u as int)) + contract_names_parts(pv.take(0))
                =~= contract_names_units(units@.take(u as int)));
            assert(api_names_units(units@.take(u as int)) + api_names_parts(pv.take(0))
                =~= api_names_units(units@.take(u as int)));
            assert(structfor_names_units(units@.take(u as int)) + structfor_names_parts(
                pv.take(0),
            ) =~= structfor_names_units(units@.take(u as int)));
            assert(behaviorfor_names_units(units@.take(u as int)) + behaviorfor_names_parts(
                pv.take(0),
            ) =~= behaviorfor_names_units(units@.take(u as int)));
            assert(space_lists_units(units@.take(u as int)) + space_lists_parts(pv.take(0))
                =~= space_lists_units(units@.take(u as int)));
            assert(type_refs_units(units@.take(u as int)) + type_refs_parts(pv.take(0))
                =~= type_refs_units(units@.take(u as int)));
        }
        while p < units[u].0.len()
            invariant
                u < units@.len(),
                p <= pv.len(),
                pv == units@[u as int]@.parts,
                strs(t.any_names@) == any_names_units(units@.take(u as int)) + any_names_parts(
                    pv.take(p as int),
                ),
                strs(t.concept_names@) == concept_names_units(units@.take(u as int))
                    + concept_names_parts(pv.take(p as int)),
                strss(t.concept_exts@) == concept_exts_units(units@.take(u as int))
                    + concept_exts_parts(pv.take(p as int)),
                strs(t.contract_names@) == contract_names_units(units@.take(u as int))
                    + contract_names_parts(pv.take(p as int)),
                strs(t.api_names@) == api_names_units(units@.take(u as int)) + api_names_parts(
                    pv.take(p as int),
                ),
                strs(t.structfor_names@) == structfor_names_units(units@.take(u as int))
                    + structfor_names_parts(pv.take(p as int)),
                strs(t.behaviorfor_names@) == behaviorfor_names_units(units@.take(u as int))
                    + behaviorfor_names_parts(pv.take(p as int)),
                strss(t.space_lists@) == space_lists_units(units@.take(u as int))
                    + space_lists_parts(pv.take(p as int)),
                strs(t.type_refs@) == type_refs_units(units@.take(u as int)) + type_refs_parts(
                    pv.take(p as int),
                ),
            decreases pv.len() - p,
        {
            proof {
                assert(pv.take(p as int + 1).drop_last() =~= pv.take(p as int));
                assert(pv.take(p as int + 1).last() == pv[p as int]);
                assert(pv[p as int] == units@[u as int].0@[p as int]@);
            }
            match &units[u].0[p] {
                SourceUnitPart::ConceptUnit(c) => {
                    let ghost a0 = t.any_names@;
                    let ghost c0 = t.concept_names@;
                    let ghost e0 = t.concept_exts@;
                    let ghost r0 = t.type_refs@;
                    t.any_names.push(c.identifier.clone());
                    t.concept_names.push(c.identifier.clone());
                    t.concept_exts.push(clone_strs(&c.extends));
                    push_field_refs(&c.structs, &mut t.type_refs);
                    push_iface_refs(&c.behaviors, &mut t.type_refs);
                    proof {
                        assert(strs(t.any_names@) =~= strs(a0) + seq![c.identifier@]);
                        assert(strs(t.concept_names@) =~= strs(c0) + seq![c.identifier@]);
                        assert(strss(t.concept_exts@) =~= strss(e0) + seq![
                            strs(c.extends@),
                        ]);
                        assert(strs(c.extends@) == c@.extends);
                        assert(strs(t.type_refs@) =~= strs(r0) + refs_of_fields(c@.structs)
                            + refs_of_ifaces(c@.behaviors));
                    }
                },
                SourceUnitPart::ContractUnit(c) => {
                    let ghost a0 = t.any_names@;
                    let ghost c0 = t.contract_names@;
                    t.any_names.push(c.identifier.clone());
                    t.contract_names.push(c.identifier.clone());
                    proof {
                        assert(strs(t.any_names@) =~= strs(a0) + seq![c.identifier@]);
                        assert(strs(t.contract_names@) =~= strs(c0) + seq![c.identifier@]);
                    }
                },
                SourceUnitPart::ApiUnit(a) => {
                    let ghost a0 = t.any_names@;
                    let ghost n0 = t.api_names@;
                    let ghost r0 = t.type_refs@;
                    t.any_names.push(a.name.clone());
                    t.api_names.push(a.name.clone());
                    push_node_refs(&a.apis, &mut t.type_refs);
                    proof {
                        assert(strs(t.any_names@) =~= strs(a0) + seq![a.name@]);
                        assert(strs(t.api_names@) =~= strs(n0) + seq![a.name@]);
                        assert(strs(t.type_refs@) =~= strs(r0) + refs_of_nodes(a@.apis));
                    }
                },
                SourceUnitPart::StructFor(sf) => {
                    let ghost a0 = t.any_names@;
                    let ghost n0 = t.structfor_names@;
                    let ghost r0 = t.type_refs@;
                    t.any_names.push(sf.identifier.clone());
                    t.structfor_names.push(sf.identifier.clone());
                    push_field_refs(&sf.declarations, &mut t.type_refs);
                    proof {
                        assert(strs(t.any_names@) =~= strs(a0) + seq![sf.identifier@]);
                        assert(strs(t.structfor_names@) =~= strs(n0) + seq![sf.identifier@]);
                        assert(strs(t.type_refs@) =~= strs(r0) + refs_of_fields(
                            sf@.declarations,
                        ));
                    }
                },
                SourceUnitPart::BehaviorFor(bf) => {
                    let ghost a0 = t.any_names@;
                    let ghost n0 = t.behaviorfor_names@;
                    let ghost r0 = t.type_refs@;
                    t.any_names.push(bf.identifier().clone());
                    t.behaviorfor_names.push(bf.identifier().clone());
                    push_iface_refs(bf.functions(), &mut t.type_refs);
                    proof {
                        assert(strs(t.any_names@) =~= strs(a0) + seq![bf@.identifier]);
                        assert(strs(t.behaviorfor_names@) =~= strs(n0) + seq![bf@.identifier]);
                        assert(strs(t.type_refs@) =~= strs(r0) + refs_of_ifaces(bf@.functions));
                    }
                },
                SourceUnitPart::ConceptSpace(cs) => {
                    let ghost a0 = t.any_names@;
                    let ghost l0 = t.space_lists@;
                    t.any_names.push(cs.identifier.clone());
                    t.space_lists.push(clone_strs(&cs.concepts));
                    proof {
                        assert(strs(t.any_names@) =~= strs(a0) + seq![cs.identifier@]);
                        assert(strss(t.space_lists@) =~= strss(l0) + seq![strs(cs.concepts@)]);
                        assert(strs(cs.concepts@) == cs@.concepts);
                    }
                },
                _ => {},
            }
            proof {
                assert(strs(t.any_names@) =~= any_names_units(units@.take(u as int))
                    + any_names_parts(pv.take(p as int + 1)));
                assert(strs(t.concept_names@) =~= concept_names_units(units@.take(u as int))
                    + concept_names_parts(pv.take(p as int + 1)));
                assert(strss(t.concept_exts@) =~= concept_exts_units(units@.take(u as int))
                    + concept_exts_parts(pv.take(p as int + 1)));
                assert(strs(t.contract_names@) =~= contract_names_units(units@.take(u as int))
                    + contract_names_parts(pv.take(p as int + 1)));
                assert(strs(t.api_names@) =~= api_names_units(units@.take(u as int))
                    + api_names_parts(pv.take(p as int + 1)));
                assert(strs(t.structfor_names@) =~= structfor_names_units(units@.take(u as int))
                    + structfor_names_parts(pv.take(p as int + 1)));
                assert(strs(t.behaviorfor_names@) =~= behaviorfor_names_units(
                    units@.take(u as int),
                ) + behaviorfor_names_parts(pv.take(p as int + 1)));
                assert(strss(t.space_lists@) =~= space_lists_units(units@.take(u as int))
                    + space_lists_parts(pv.take(p as int + 1)));
                assert(strs(t.type_refs@) =~= type_refs_units(units@.take(u as int))
                    + type_refs_parts(pv.take(p as int + 1)));
            }
            p += 1;
        }
        proof {
            assert(pv.take(pv.len() as int) =~= pv);
            assert(units@.take(u as int + 1).drop_last() =~= units@.take(u as int));
            assert(units@.take(u as int + 1).last() == units@[u as int]);
        }
        u += 1;
    }
    proof {
        assert(units@.take(units@.len() as int) =~= units@);
    }
    t
}

/// The empty-identifier pass over a name table.
fn empties_of(names: &Vec<String>) -> (r: Vec<Diagnostic>)
    ensures
        diag_views(r@) == empty_diags(strs(names@)),
{
    let ghost nv = strs(names@);
    let mut r: Vec<Diagnostic> = Vec::new();
    let mut j: usize = 0;
    proof {
        assert(diag_views(r@) =~= empty_diags(nv.take(0)));
    }
    while j < names.len()
        invariant
            j <= names@.len(),
            nv == strs(names@),
            diag_views(r@) == empty_diags(nv.take(j as int)),
        decreases names@.len() - j,
    {
        proof {
            assert(nv.take(j as int + 1).drop_last() =~= nv.take(j as int));
            assert(nv.take(j as int + 1).last() == nv[j as int]);
            assert(nv[j as int] == names@[j as int]@);
        }
        let ghost before = r@;
        if names[j].as_str().is_empty() {
            let d = make_diagnostic(
                DiagnosticKind::EmptyIdentifierSentinel,
                0,
                0,
                Option::Some(names[j].clone()),
            );
            r.push(d);
            proof {
                assert(diag_views(r@) =~= diag_views(before).push(r@.last()@));
                assert(diag_views(before) + seq![r@.last()@] =~= diag_views(r@));
            }
        }
        proof {
            assert(diag_views(r@) =~= empty_diags(nv.take(j as int + 1)));
        }
        j += 1;
    }
    proof {
        assert(nv.take(names@.len() as int) =~= nv);
    }
    r
}

/// The duplicate-identifier pass over one scope kind's name table.
fn dups_of(names: &Vec<String>) -> (r: Vec<Diagnostic>)
    ensures
        diag_views(r@) == dup_diags(strs(names@)),
{
    let ghost nv = strs(names@);
    let mut r: Vec<Diagnostic> = Vec::new();
    let mut j: usize = 0;
    proof {
        assert(dup_ids(nv.take(0)) =~= Seq::<Seq<char>>::empty());
        assert(diag_views(r@) =~= dup_diags(nv.take(0)));
    }
    while j < names.len()
        invariant
            j <= names@.len(),
            nv == strs(names@),
            diag_views(r@) == dup_diags(nv.take(j as int)),
        decreases names@.len() - j,
    {
        proof {
            assert(nv.take(j as int + 1).drop_last() =~= nv.take(j as int));
            assert(nv.take(j as int + 1).last() == nv[j as int]);
            assert(nv[j as int] == names@[j as int]@);
        }
        let mut seen = false;
        let mut i: usize = 0;
        while i < j
            invariant
                i <= j < names@.len(),
                nv == strs(names@),
                seen <==> exists|k: int| 0 <= k < i && nv[k] == nv[j as int],
            decreases j - i,
        {
            if !seen && eq_string(&names[i], &names[j]) {
                seen = true;
                proof {
                    assert(nv[i as int] == nv[j as int]);
                }
            }
            i += 1;
        }
        proof {
            if seen {
                let k = choose|k: int| 0 <= k < j && nv[k] == nv[j as int];
                assert(nv.take(j as int)[k] == nv[j as int]);
                assert(nv.take(j as int).contains(nv[j as int]));
            } else {
                if nv.take(j as int).contains(nv[j as int]) {
                    let k = choose|k: int|
                        0 <= k < j && nv.take(j as int)[k] == nv[j as int];
                    assert(nv[k] == nv[j as int]);
                }
            }
        }
        let ghost before = r@;
        if seen {
            let d = make_diagnostic(
                DiagnosticKind::DuplicateIdentifier,
                0,
                0,
                Option::Some(names[j].clone()),
            );
            r.push(d);
            proof {
                assert(diag_views(r@) =~= diag_views(before).push(r@.last()@));
            }
        }
        proof {
            assert(dup_ids(nv.take(j as int + 1)) =~= dup_ids(nv.take(j as int)) + (
            if nv.take(j as int).contains(nv[j as int]) {
                seq![nv[j as int]]
            } else {
                Seq::<Seq<char>>::empty()
            }));
            assert(diag_views(r@) =~= dup_diags(nv.take(j as int + 1)));
        }
        j += 1;
    }
    proof {
        assert(nv.take(names@.len() as int) =~= nv);
    }
    r
}

/// The resolution pass over one identifier list against a table.
fn miss_of(ids: &Vec<String>, tab: &Vec<String>) -> (r: Vec<Diagnostic>)
    ensures
        diag_views(r@) == miss_diags(strs(ids@), strs(tab@)),
{
    let ghost iv = strs(ids@);
    let ghost tv = strs(tab@);
    let mut r: Vec<Diagnostic> = Vec::new();
    let mut j: usize = 0;
    proof {
        assert(diag_views(r@) =~= miss_diags(iv.take(0), tv));
    }
    while j < ids.len()
        invariant
            j <= ids@.len(),
            iv == strs(ids@),
            tv == strs(tab@),
            diag_views(r@) == miss_diags(iv.take(j as int), tv),
        decreases ids@.len() - j,
    {
        proof {
            assert(iv.take(j as int + 1).drop_last() =~= iv.take(j as int));
            assert(iv.take(j as int + 1).last() == iv[j as int]);
            assert(iv[j as int] == ids@[j as int]@);
        }
        let ghost before = r@;
        if !contains_str(tab, &ids[j]) {
            let d = make_diagnostic(
                DiagnosticKind::UnresolvedReference,
                0,
                0,
                Option::Some(ids[j].clone()),
            );
            r.push(d);
            proof {
                assert(diag_views(r@) =~= diag_views(before).push(r@.last()@));
            }
        }
        proof {
            assert(diag_views(r@) =~= miss_diags(iv.take(j as int + 1), tv));
        }
        j += 1;
    }
    proof {
        assert(iv.take(ids@.len() as int) =~= iv);
    }
    r
}

/// The concept-space resolution pass: every space's list against the
/// concept table.
fn ns_of(lists: &Vec<Vec<String>>, tab: &Vec<String>) -> (r: Vec<Diagnostic>)
    ensures
        diag_views(r@) == ns_diags(strss(lists@), strs(tab@)),
{
    let ghost lv = strss(lists@);
    let ghost tv = strs(tab@);
    let mut r: Vec<Diagnostic> = Vec::new();
    let mut u: usize = 0;
    proof {
        assert(diag_views(r@) =~= ns_diags(lv.take(0), tv));
    }
    while u < lists.len()
        invariant
            u <= lists@.len(),
            lv == strss(lists@),
            tv == strs(tab@),
            diag_views(r@) == ns_diags(lv.take(u as int), tv),
        decreases lists@.len() - u,
    {
        proof {
            assert(lv.take(u as int + 1).drop_last() =~= lv.take(u as int));
            assert(lv.take(u as int + 1).last() == lv[u as int]);
            assert(lv[u as int] == strs(lists@[u as int]@));
        }
        let ghost before = r@;
        let mut more = miss_of(&lists[u], tab);
        proof {
            assert(diag_views(before + more@) =~= diag_views(before) + diag_views(more@));
        }
        r.append(&mut more);
        proof {
            assert(diag_views(r@) =~= ns_diags(lv.take(u as int + 1), tv));
        }
        u += 1;
    }
    proof {
        assert(lv.take(lists@.len() as int) =~= lv);
    }
    r
}

/// Whether concept `a` lists concept `b`'s identifier in its `extends`.
fn edge(names: &Vec<String>, exts: &Vec<Vec<String>>, a: usize, b: usize) -> (r: bool)
    requires
        names@.len() == exts@.len(),
        a < names@.len(),
        b < names@.len(),
    ensures
        r == has_edge(strs(names@), strss(exts@), a as int, b as int),
{
    proof {
        assert(strss(exts@)[a as int] == strs(exts@[a as int]@));
        assert(strs(names@)[b as int] == names@[b as int]@);
    }
    contains_str(&exts[a], &names[b])
}

/// Whether node `x` still has a parent that is not yet removed.
pub open spec fn blocked(
    nv: Seq<Seq<char>>,
    ev: Seq<Seq<Seq<char>>>,
    removed: Seq<bool>,
    x: int,
) -> bool {
    exists|b: int| has_edge(nv, ev, x, b) && !removed[b]
}

/// Whether every parent of `x` is already removed.
fn is_ready(names: &Vec<String>, exts: &Vec<Vec<String>>, removed: &Vec<bool>, x: usize) -> (r:
    bool)
    requires
        names@.len() == exts@.len(),
        removed@.len() == names@.len(),
        x < names@.len(),
    ensures
        r <==> forall|b: int|
            #[trigger] has_edge(strs(names@), strss(exts@), x as int, b) ==> removed@[b],
{
    let mut b: usize = 0;
    while b < names.len()
        invariant
            b <= names@.len(),
            names@.len() == exts@.len(),
            removed@.len() == names@.len(),
            x < names@.len(),
            forall|k: int|
                0 <= k < b && #[trigger] has_edge(strs(names@), strss(exts@), x as int, k)
                    ==> removed@[k],
        decreases names@.len() - b,
    {
        if edge(names, exts, x, b) && !removed[b] {
            return false;
        }
        b += 1;
    }
    true
}

/// Finds some parent of `x` that is not yet removed.
fn find_unremoved_parent(
    names: &Vec<String>,
    exts: &Vec<Vec<String>>,
    removed: &Vec<bool>,
    x: usize,
) -> (r: Option<usize>)
    requires
        names@.len() == exts@.len(),
        removed@.len() == names@.len(),
        x < names@.len(),
    ensures
        match r {
            Option::Some(b) => has_edge(strs(names@), strss(exts@), x as int, b as int)
                && !removed@[b as int],
            Option::None => forall|b: int|
                #[trigger] has_edge(strs(names@), strss(exts@), x as int, b) ==> removed@[b],
        },
{
    let mut b: usize = 0;
    while b < names.len()
        invariant
            b <= names@.len(),
            names@.len() == exts@.len(),
            removed@.len() == names@.len(),
            x < names@.len(),
            forall|k: int|
                0 <= k < b && #[trigger] has_edge(strs(names@), strss(exts@), x as int, k)
                    ==> removed@[k],
        decreases names@.len() - b,
    {
        if edge(names, exts, x, b) && !removed[b] {
            return Option::Some(b);
        }
        b += 1;
    }
    Option::None
}

/// Finds the position and index of a node in `remaining` whose parents
/// are all removed.
fn find_ready(
    names: &Vec<String>,
    exts: &Vec<Vec<String>>,
    removed: &Vec<bool>,
    remaining: &Vec<usize>,
) -> (r: Option<(usize, usize)>)
    requires
        names@.len() == exts@.len(),
        removed@.len() == names@.len(),
        forall|k: int| 0 <= k < remaining@.len() ==> #[trigger] remaining@[k] < names@.len(),
    ensures
        match r {
            Option::Some((pos, x)) => pos < remaining@.len() && remaining@[pos as int] == x
                && forall|b: int|
                #[trigger] has_edge(strs(names@), strss(exts@), x as int, b) ==> removed@[b],
            Option::None => forall|k: int|
                #![trigger remaining@[k]]
                0 <= k < remaining@.len() ==> blocked(
                    strs(names@),
                    strss(exts@),
                    removed@,
                    remaining@[k] as int,
                ),
        },
{
    let mut k: usize = 0;
    while k < remaining.len()
        invariant
            k <= remaining@.len(),
            names@.len() == exts@.len(),
            removed@.len() == names@.len(),
            forall|q: int| 0 <= q < remaining@.len() ==> #[trigger] remaining@[q] < names@.len(),
            forall|q: int|
                #![trigger remaining@[q]]
                0 <= q < k ==> blocked(
                    strs(names@),
                    strss(exts@),
                    removed@,
                    remaining@[q] as int,
                ),
        decreases remaining@.len() - k,
    {
        let x = remaining[k];
        if is_ready(names, exts, removed, x) {
            return Option::Some((k, x));
        }
        proof {
            let b = choose|b: int|
                has_edge(strs(names@), strss(exts@), x as int, b) && !removed@[b];
            assert(has_edge(strs(names@), strss(exts@), remaining@[k as int] as int, b)
                && !removed@[b]);
            assert(blocked(strs(names@), strss(exts@), removed@, remaining@[k as int] as int));
        }
        k += 1;
    }
    Option::None
}

/// Removing one position from a duplicate-free sequence keeps it
/// duplicate-free, drops exactly that element, and keeps the others.
proof fn lemma_seq_remove_facts(s: Seq<usize>, pos: int)
    requires
        s.no_duplicates(),
        0 <= pos < s.len(),
    ensures
        s.remove(pos).no_duplicates(),
        !s.remove(pos).contains(s[pos]),
        forall|y: usize| y != s[pos] ==> (s.remove(pos).contains(y) <==> s.contains(y)),
{
    let t = s.remove(pos);
    assert forall|y: usize| y != s[pos] implies (t.contains(y) <==> s.contains(y)) by {
        if t.contains(y) {
            let k = choose|k: int| 0 <= k < t.len() && t[k] == y;
            if k < pos {
                assert(s[k] == y);
            } else {
                assert(s[k + 1] == y);
            }
        }
        if s.contains(y) {
            let k = choose|k: int| 0 <= k < s.len() && s[k] == y;
            if k < pos {
                assert(t[k] == y);
            } else {
                assert(t[k - 1] == y);
            }
        }
    }
    if t.contains(s[pos]) {
        let k = choose|k: int| 0 <= k < t.len() && t[k] == s[pos];
        if k < pos {
            assert(s[k] == s[pos]);
        } else {
            assert(s[k + 1] == s[pos]);
        }
    }
}

/// A duplicate-free sequence of indices below `n` has at most `n`
/// elements.
proof fn lemma_distinct_bound(p: Seq<int>, n: int)
    requires
        p.no_duplicates(),
        forall|k: int| 0 <= k < p.len() ==> 0 <= #[trigger] p[k] < n,
        0 <= n,
    ensures
        p.len() <= n,
{
    broadcast use vstd::seq_lib::seq_to_set_is_finite;

    p.unique_seq_to_set();
    vstd::set_lib::lemma_int_range(0, n);
    assert(p.to_set().subset_of(vstd::set_lib::set_int_range(0, n))) by {
        assert forall|x: int| p.to_set().contains(x) implies vstd::set_lib::set_int_range(
            0,
            n,
        ).contains(x) by {
            assert(p.contains(x));
            let k = choose|k: int| 0 <= k < p.len() && p[k] == x;
        }
    }
    vstd::set_lib::lemma_len_subset(p.to_set(), vstd::set_lib::set_int_range(0, n));
}

/// Along a walk whose every step is an edge, a rank that strictly
/// decreases across each edge strictly decreases end to end.
proof fn lemma_path_descends(
    nv: Seq<Seq<char>>,
    ev: Seq<Seq<Seq<char>>>,
    ridx: Map<int, int>,
    p: Seq<int>,
)
    requires
        p.len() >= 1,
        forall|q: int| 0 <= q < p.len() - 1 ==> has_edge(nv, ev, #[trigger] p[q], p[q + 1]),
        forall|a: int, b: int|
            #[trigger] has_edge(nv, ev, a, b) ==> ridx.dom().contains(a) && ridx.dom().contains(
                b,
            ) && ridx[b] < ridx[a],
    ensures
        p.len() >= 2 ==> ridx.dom().contains(p[0]) && ridx.dom().contains(p[p.len() - 1])
            && ridx[p[p.len() - 1]] < ridx[p[0]],
    decreases p.len(),
{
    if p.len() >= 2 {
        if p.len() == 2 {
            assert(has_edge(nv, ev, p[0], p[1]));
        } else {
            let q = p.drop_last();
            assert forall|k: int| 0 <= k < q.len() - 1 implies has_edge(
                nv,
                ev,
                #[trigger] q[k],
                q[k + 1],
            ) by {
                assert(q[k] == p[k] && q[k + 1] == p[k + 1]);
                assert(has_edge(nv, ev, p[k], p[k + 1]));
            }
            lemma_path_descends(nv, ev, ridx, q);
            assert(has_edge(nv, ev, p[p.len() - 2], p[p.len() - 1]));
        }
    }
}

/// Indices of a duplicate-free index vector, as integers, are
/// duplicate-free.
proof fn lemma_idx_no_dup(p: Seq<usize>)
    requires
        p.no_duplicates(),
    ensures
        p.map_values(|u: usize| u as int).no_duplicates(),
{
    let q = p.map_values(|u: usize| u as int);
    assert forall|i: int, j: int| 0 <= i < q.len() && 0 <= j < q.len() && i != j implies q[i]
        != q[j] by {
        assert(p[i] != p[j]);
    }
}

/// Detects an inheritance cycle: returns a closed walk when the graph
/// has one, and nothing exactly when it is acyclic.
#[verifier::rlimit(100)]
fn find_cycle(names: &Vec<String>, exts: &Vec<Vec<String>>) -> (r: Option<Vec<usize>>)
    requires
        names@.len() == exts@.len(),
    ensures
        match r {
            Option::Some(p) => is_cycle(
                strs(names@),
                strss(exts@),
                p@.map_values(|u: usize| u as int),
            ),
            Option::None => !has_cycle(strs(names@), strss(exts@)),
        },
{
    let ghost nv = strs(names@);
    let ghost ev = strss(exts@);
    let n = names.len();
    let mut removed: Vec<bool> = Vec::new();
    let mut remaining: Vec<usize> = Vec::new();
    let mut j: usize = 0;
    while j < n
        invariant
            j <= n,
            removed@.len() == j,
            remaining@.len() == j,
            forall|k: int| 0 <= k < j ==> !removed@[k],
            forall|k: int| 0 <= k < j ==> #[trigger] remaining@[k] == k,
        decreases n - j,
    {
        removed.push(false);
        remaining.push(j);
        j += 1;
    }
    proof {
        assert(remaining@.no_duplicates());
        assert forall|x: usize| x < n implies (removed@[x as int] <==> !remaining@.contains(
            x,
        )) by {
            assert(remaining@[x as int] == x);
        }
    }
    let ghost mut ridx: Map<int, int> = Map::empty();
    loop
        invariant
            n == names@.len(),
            n == exts@.len(),
            nv == strs(names@),
            ev == strss(exts@),
            removed@.len() == n,
            remaining@.no_duplicates(),
            forall|k: int| 0 <= k < remaining@.len() ==> #[trigger] remaining@[k] < n,
            forall|x: usize| x < n ==> (removed@[x as int] <==> !remaining@.contains(x)),
            forall|a: int|
                0 <= a < n ==> (#[trigger] removed@[a] <==> ridx.dom().contains(a)),
            forall|a: int|
                0 <= a < n && #[trigger] removed@[a] ==> ridx[a] < n - remaining@.len(),
            forall|a: int, b: int|
                0 <= a < n && #[trigger] removed@[a] && #[trigger] has_edge(nv, ev, a, b)
                    ==> removed@[b] && ridx[b] < ridx[a],
        ensures
            forall|k: int|
                #![trigger remaining@[k]]
                0 <= k < remaining@.len() ==> blocked(nv, ev, removed@, remaining@[k] as int),
        decreases remaining@.len(),
    {
        match find_ready(names, exts, &removed, &remaining) {
            Option::Some((pos, x)) => {
                let ghost len_before = remaining@.len();
                proof {
                    assert(remaining@.contains(x));
                    assert(!removed@[x as int]);
                    lemma_seq_remove_facts(remaining@, pos as int);
                    ridx = ridx.insert(x as int, n - len_before);
                }
                removed.set(x, true);
                remaining.remove(pos);
                proof {
                    assert forall|y: usize| y < n implies (removed@[y as int]
                        <==> !remaining@.contains(y)) by {}
                }
            },
            Option::None => {
                proof {
                    assert forall|k2: int| #![trigger remaining@[k2]] 0 <= k2
                        < remaining@.len() implies blocked(
                        nv,
                        ev,
                        removed@,
                        remaining@[k2] as int,
                    ) by {
                        assert(blocked(strs(names@), strss(exts@), removed@,
                            remaining@[k2] as int));
                    }
                }
                break ;
            },
        }
    }
    // Every node still present has a parent still present; an empty
    // remainder means the whole graph was ranked, so it is acyclic.
    if remaining.len() == 0 {
        proof {
            assert forall|a: int| 0 <= a < n implies removed@[a] by {
                assert(!remaining@.contains(a as usize));
            }
            if has_cycle(nv, ev) {
                let p = choose|p: Seq<int>| is_cycle(nv, ev, p);
                assert forall|a: int, b: int| #[trigger] has_edge(nv, ev, a, b) implies
                    ridx.dom().contains(a) && ridx.dom().contains(b) && ridx[b] < ridx[a] by {
                    assert(removed@[a] && removed@[b]);
                }
                assert(has_edge(nv, ev, p[0], p[1]));
                lemma_path_descends(nv, ev, ridx, p);
                assert(false);
            }
        }
        return Option::None;
    }
    proof {
        assert forall|x: usize| #![trigger removed@[x as int]] x < n && !removed@[x as int]
            implies blocked(nv, ev, removed@, x as int) by {
            assert(remaining@.contains(x));
            let k = choose|k: int| 0 <= k < remaining@.len() && remaining@[k] == x;
            assert(blocked(nv, ev, removed@, remaining@[k] as int));
        }
    }
    let start = remaining[0];
    let mut path: Vec<usize> = Vec::new();
    path.push(start);
    let mut in_path: Vec<bool> = Vec::new();
    let mut j2: usize = 0;
    while j2 < n
        invariant
            j2 <= n,
            in_path@.len() == j2,
            forall|k: int| 0 <= k < j2 ==> !in_path@[k],
        decreases n - j2,
    {
        in_path.push(false);
        j2 += 1;
    }
    in_path.set(start, true);
    proof {
        assert forall|x: usize| x < n implies (in_path@[x as int] <==> path@.contains(x)) by {
            if path@.contains(x) {
                let k = choose|k: int| 0 <= k < path@.len() && path@[k] == x;
                assert(path@[0] == start);
            }
            if x == start {
                assert(path@[0] == x);
            }
        }
    }
    loop
        invariant
            n == names@.len(),
            n == exts@.len(),
            nv == strs(names@),
            ev == strss(exts@),
            removed@.len() == n,
            in_path@.len() == n,
            1 <= path@.len(),
            forall|k: int| 0 <= k < path@.len() ==> #[trigger] path@[k] < n,
            forall|k: int| 0 <= k < path@.len() ==> !removed@[#[trigger] path@[k] as int],
            forall|x: usize| x < n ==> (in_path@[x as int] <==> path@.contains(x)),
            path@.no_duplicates(),
            forall|q: int|
                #![trigger path@[q]]
                0 <= q < path@.len() - 1 ==> has_edge(
                    nv,
                    ev,
                    path@[q] as int,
                    path@[q + 1] as int,
                ),
            forall|x: usize|
                #![trigger removed@[x as int]]
                x < n && !removed@[x as int] ==> blocked(nv, ev, removed@, x as int),
        decreases n - path@.len(),
    {
        let cur = path[path.len() - 1];
        match find_unremoved_parent(names, exts, &removed, cur) {
            Option::None => {
                proof {
                    assert(blocked(nv, ev, removed@, cur as int));
                    let b = choose|b: int|
                        has_edge(nv, ev, cur as int, b) && !removed@[b];
                    assert(false);
                }
                return Option::None;
            },
            Option::Some(b) => {
                proof {
                    assert(has_edge(nv, ev, cur as int, b as int));
                    assert(b < n);
                }
                if in_path[b] {
                    let mut tpos: usize = 0;
                    let plen = path.len();
                    proof {
                        assert(path@.contains(b));
                    }
                    while path[tpos] != b
                        invariant
                            plen == path@.len(),
                            tpos < path@.len(),
                            forall|k: int| 0 <= k < tpos ==> path@[k] != b,
                            path@.contains(b),
                        decreases path@.len() - tpos,
                    {
                        proof {
                            let k = choose|k: int|
                                0 <= k < path@.len() && path@[k] == b;
                            assert(k > tpos);
                        }
                        tpos += 1;
                    }
                    let mut cyc: Vec<usize> = Vec::new();
                    let mut k: usize = tpos;
                    while k < path.len()
                        invariant
                            tpos <= k <= path@.len(),
                            cyc@ == path@.subrange(tpos as int, k as int),
                        decreases path@.len() - k,
                    {
                        proof {
                            assert(path@.subrange(tpos as int, k as int + 1) =~= path@.subrange(
                                tpos as int,
                                k as int,
                            ).push(path@[k as int]));
                        }
                        cyc.push(path[k]);
                        k += 1;
                    }
                    cyc.push(b);
                    proof {
                        let c = cyc@.map_values(|u: usize| u as int);
                        let m = path@.len() as int;
                        assert(cyc@ == path@.subrange(tpos as int, m).push(b));
                        assert(c.len() == m - tpos + 1);
                        assert(c.len() >= 2);
                        assert(cyc@[0] == path@[tpos as int]);
                        assert(path@[tpos as int] == b);
                        assert(c[0] == b as int);
                        assert(c[c.len() - 1] == b as int);
                        assert forall|q: int| 0 <= q < c.len() - 1 implies #[trigger] has_edge(
                            nv,
                            ev,
                            c[q],
                            c[q + 1],
                        ) by {
                            if q < c.len() - 2 {
                                assert(c[q] == path@[tpos + q] as int);
                                assert(c[q + 1] == path@[tpos + q + 1] as int);
                                assert(has_edge(
                                    nv,
                                    ev,
                                    path@[tpos + q] as int,
                                    path@[tpos + q + 1] as int,
                                ));
                            } else {
                                assert(c[q] == path@[m - 1] as int);
                                assert(has_edge(nv, ev, cur as int, b as int));
                            }
                        }
                        assert(is_cycle(nv, ev, c));
                    }
                    return Option::Some(cyc);
                } else {
                    let ghost path0 = path@;
                    path.push(b);
                    in_path.set(b, true);
                    proof {
                        assert forall|x: usize| x < n implies (in_path@[x as int]
                            <==> path@.contains(x)) by {
                            if x != b {
                                if path@.contains(x) {
                                    let k = choose|k: int|
                                        0 <= k < path@.len() && path@[k] == x;
                                    if k < path0.len() {
                                        assert(path0[k] == x);
                                    }
                                }
                                if path0.contains(x) {
                                    let k = choose|k: int|
                                        0 <= k < path0.len() && path0[k] == x;
                                    assert(path@[k] == x);
                                }
                            } else {
                                assert(path@[path@.len() - 1] == b);
                            }
                        }
                        assert(!path0.contains(b));
                        assert(path@.no_duplicates());
                        lemma_idx_no_dup(path@);
                        lemma_distinct_bound(
                            path@.map_values(|u: usize| u as int),
                            n as int,
                        );
                    }
                }
            },
        }
    }
}

/// The concept-name and extends tables of a part list run parallel.
proof fn lemma_parallel_parts(parts: Seq<SourceUnitPartView>)
    ensures
        concept_names_parts(parts).len() == concept_exts_parts(parts).len(),
    decreases parts.len(),
{
    if parts.len() > 0 {
        lemma_parallel_parts(parts.drop_last());
    }
}

/// The concept-name and extends tables of a unit set run parallel.
proof fn lemma_parallel_units(units: Seq<SourceUnit>)
    ensures
        concept_names_units(units).len() == concept_exts_units(units).len(),
    decreases units.len(),
{
    if units.len() > 0 {
        lemma_parallel_units(units.drop_last());
        lemma_parallel_parts(units.last()@.parts);
    }
}

/// Identifiers joined with an arrow, computed.
fn join_arrow_exec(ids: &Vec<String>) -> (r: String)
    ensures
        r@ == join_arrow(strs(ids@)),
{
    let ghost iv = strs(ids@);
    let mut r = String::new();
    let mut j: usize = 0;
    while j < ids.len()
        invariant
            j <= ids@.len(),
            iv == strs(ids@),
            r@ == join_arrow(iv.take(j as int)),
        decreases ids@.len() - j,
    {
        proof {
            assert(iv.take(j as int + 1).drop_last() =~= iv.take(j as int));
            assert(iv.take(j as int + 1).last() == iv[j as int]);
            assert(iv[j as int] == ids@[j as int]@);
        }
        if j > 0 {
            r.append(" -> ");
        }
        r.append(ids[j].as_str());
        j += 1;
    }
    proof {
        assert(iv.take(ids@.len() as int) =~= iv);
    }
    r
}

/// Every diagnostic of the empty-identifier pass carries its kind.
proof fn lemma_empty_diags_kinds(ids: Seq<Seq<char>>)
    ensures
        forall|k: int|
            0 <= k < empty_diags(ids).len() ==> #[trigger] empty_diags(ids)[k].kind
                == DiagnosticKind::EmptyIdentifierSentinel,
    decreases ids.len(),
{
    if ids.len() > 0 {
        lemma_empty_diags_kinds(ids.drop_last());
    }
}

/// Every diagnostic of the duplicate pass carries its kind.
proof fn lemma_dup_diags_kinds(ids: Seq<Seq<char>>)
    ensures
        forall|k: int|
            0 <= k < dup_diags(ids).len() ==> #[trigger] dup_diags(ids)[k].kind
                == DiagnosticKind::DuplicateIdentifier,
{
}

/// Every diagnostic of a resolution pass carries its kind.
proof fn lemma_miss_diags_kinds(ids: Seq<Seq<char>>, tab: Seq<Seq<char>>)
    ensures
        forall|k: int|
            0 <= k < miss_diags(ids, tab).len() ==> #[trigger] miss_diags(ids, tab)[k].kind
                == DiagnosticKind::UnresolvedReference,
    decreases ids.len(),
{
    if ids.len() > 0 {
        lemma_miss_diags_kinds(ids.drop_last(), tab);
    }
}

/// Every diagnostic of the concept-space pass carries its kind.
proof fn lemma_ns_diags_kinds(lists: Seq<Seq<Seq<char>>>, tab: Seq<Seq<char>>)
    ensures
        forall|k: int|
            0 <= k < ns_diags(lists, tab).len() ==> #[trigger] ns_diags(lists, tab)[k].kind
                == DiagnosticKind::UnresolvedReference,
    decreases lists.len(),
{
    if lists.len() > 0 {
        lemma_ns_diags_kinds(lists.drop_last(), tab);
        lemma_miss_diags_kinds(lists.last(), tab);
    }
}

/// The validator. Runs its passes over the whole unit set and returns the
/// ordered diagnostic list: empty-identifier errors, duplicate-identifier
/// errors per scope kind (concepts, contracts, API units, struct-for,
/// behavior-for), concept-space resolution warnings, one cyclic-inheritance
/// error naming a real cycle exactly when the `extends` graph has a cycle,
/// and type-resolution warnings. Validation accepts the `extends` graph —
/// emits no cyclic-inheritance diagnostic — if and only if the graph is
/// acyclic.
pub fn validate(units: &Vec<SourceUnit>) -> (r: Vec<Diagnostic>)
    ensures
        ({
            let cn = concept_names_units(units@);
            let ce = concept_exts_units(units@);
            let head = empty_diags(any_names_units(units@)) + dup_diags(cn) + dup_diags(
                contract_names_units(units@),
            ) + dup_diags(api_names_units(units@)) + dup_diags(structfor_names_units(units@))
                + dup_diags(behaviorfor_names_units(units@)) + ns_diags(
                space_lists_units(units@),
                cn,
            );
            let tail = miss_diags(
                type_refs_units(units@),
                cn + structfor_names_units(units@),
            );
            &&& (!has_cycle(cn, ce) ==> diag_views(r@) == head + tail)
            &&& (has_cycle(cn, ce) ==> exists|p: Seq<int>|
                is_cycle(cn, ce, p) && diag_views(r@) == head + seq![
                    diagnostic_view(
                        DiagnosticKind::CyclicInheritance,
                        0,
                        0,
                        Option::Some(join_arrow(path_names(cn, p))),
                    ),
                ] + tail)
            &&& (has_cycle(cn, ce) <==> exists|k: int|
                0 <= k < r@.len() && #[trigger] r@[k]@.kind
                    == DiagnosticKind::CyclicInheritance)
        }),
{
    let t = collect(units);
    let ghost cn = concept_names_units(units@);
    let ghost ce = concept_exts_units(units@);
    let mut diags = empties_of(&t.any_names);
    let mut more = dups_of(&t.concept_names);
    proof {
        assert(diag_views(diags@ + more@) =~= diag_views(diags@) + diag_views(more@));
    }
    diags.append(&mut more);
    let mut more = dups_of(&t.contract_names);
    proof {
        assert(diag_views(diags@ + more@) =~= diag_views(diags@) + diag_views(more@));
    }
    diags.append(&mut more);
    let mut more = dups_of(&t.api_names);
    proof {
        assert(diag_views(diags@ + more@) =~= diag_views(diags@) + diag_views(more@));
    }
    diags.append(&mut more);
    let mut more = dups_of(&t.structfor_names);
    proof {
        assert(diag_views(diags@ + more@) =~= diag_views(diags@) + diag_views(more@));
    }
    diags.append(&mut more);
    let mut more = dups_of(&t.behaviorfor_names);
    proof {
        assert(diag_views(diags@ + more@) =~= diag_views(diags@) + diag_views(more@));
    }
    diags.append(&mut more);
    let mut more = ns_of(&t.space_lists, &t.concept_names);
    proof {
        assert(diag_views(diags@ + more@) =~= diag_views(diags@) + diag_views(more@));
    }
    diags.append(&mut more);
    let ghost head = diag_views(diags@);
    proof {
        lemma_empty_diags_kinds(any_names_units(units@));
        lemma_dup_diags_kinds(cn);
        lemma_dup_diags_kinds(contract_names_units(units@));
        lemma_dup_diags_kinds(api_names_units(units@));
        lemma_dup_diags_kinds(structfor_names_units(units@));
        lemma_dup_diags_kinds(behaviorfor_names_units(units@));
        lemma_ns_diags_kinds(space_lists_units(units@), cn);
        assert(forall|k: int|
            0 <= k < head.len() ==> #[trigger] head[k].kind
                != DiagnosticKind::CyclicInheritance);
    }
    let ghost mut cycle_witness: Seq<int> = Seq::empty();
    let ghost mut cyclic: bool = false;
    proof {
        lemma_parallel_units(units@);
    }
    match find_cycle(&t.concept_names, &t.concept_exts) {
        Option::None => {},
        Option::Some(cyc) => {
            proof {
                cyclic = true;
                cycle_witness = cyc@.map_values(|u: usize| u as int);
            }
            let mut pnames: Vec<String> = Vec::new();
            let mut k: usize = 0;
            proof {
                assert forall|q: int|
                    0 <= q < cycle_witness.len() implies 0 <= #[trigger] cycle_witness[q]
                    < cn.len() by {
                    if q < cycle_witness.len() - 1 {
                        assert(has_edge(cn, ce, cycle_witness[q], cycle_witness[q + 1]));
                    } else {
                        assert(cycle_witness[q] == cycle_witness[0]);
                        assert(has_edge(cn, ce, cycle_witness[0], cycle_witness[1]));
                    }
                }
            }
            while k < cyc.len()
                invariant
                    k <= cyc@.len(),
                    cn == concept_names_units(units@),
                    cn == strs(t.concept_names@),
                    cycle_witness == cyc@.map_values(|u: usize| u as int),
                    forall|q: int|
                        0 <= q < cycle_witness.len() ==> 0 <= #[trigger] cycle_witness[q]
                            < cn.len(),
                    strs(pnames@) == path_names(cn, cycle_witness).take(k as int),
                decreases cyc@.len() - k,
            {
                proof {
                    assert(cycle_witness[k as int] == cyc@[k as int] as int);
                    assert(path_names(cn, cycle_witness)[k as int] == cn[cyc@[k as int] as int]);
                }
                let ghost before = pnames@;
                let name = t.concept_names[cyc[k]].clone();
                proof {
                    assert(name@ == cn[cyc@[k as int] as int]);
                }
                pnames.push(name);
                proof {
                    assert(strs(pnames@) =~= strs(before).push(cn[cyc@[k as int] as int]));
                    assert(path_names(cn, cycle_witness).take(k as int + 1) =~= path_names(
                        cn,
                        cycle_witness,
                    ).take(k as int).push(path_names(cn, cycle_witness)[k as int]));
                }
                k += 1;
            }
            proof {
                assert(path_names(cn, cycle_witness).take(cycle_witness.len() as int)
                    =~= path_names(cn, cycle_witness));
            }
            let msg = join_arrow_exec(&pnames);
            let d = make_diagnostic(
                DiagnosticKind::CyclicInheritance,
                0,
                0,
                Option::Some(msg),
            );
            let ghost before = diags@;
            diags.push(d);
            proof {
                assert(diag_views(diags@) =~= diag_views(before).push(d@));
                assert(diag_views(diags@) =~= head + seq![
                    diagnostic_view(
                        DiagnosticKind::CyclicInheritance,
                        0,
                        0,
                        Option::Some(join_arrow(path_names(cn, cycle_witness))),
                    ),
                ]);
            }
        },
    }
    let ghost mid = diag_views(diags@);
    let ghost cyc_at = diags@.len() - 1;
    let mut tab2 = clone_strs(&t.concept_names);
    let mut sf = clone_strs(&t.structfor_names);
    proof {
        assert(strs(tab2@ + sf@) =~= strs(tab2@) + strs(sf@));
    }
    tab2.append(&mut sf);
    let mut more = miss_of(&t.type_refs, &tab2);
    proof {
        assert(diag_views(diags@ + more@) =~= diag_views(diags@) + diag_views(more@));
        lemma_miss_diags_kinds(
            type_refs_units(units@),
            cn + structfor_names_units(units@),
        );
    }
    diags.append(&mut more);
    proof {
        let tail = miss_diags(type_refs_units(units@), cn + structfor_names_units(units@));
        if cyclic {
            assert(is_cycle(cn, ce, cycle_witness));
            assert(diag_views(diags@) =~= head + seq![
                diagnostic_view(
                    DiagnosticKind::CyclicInheritance,
                    0,
                    0,
                    Option::Some(join_arrow(path_names(cn, cycle_witness))),
                ),
            ] + tail);
            assert(diags@[cyc_at]@.kind == DiagnosticKind::CyclicInheritance);
        } else {
            assert(diag_views(diags@) =~= head + tail);
            assert forall|k: int| 0 <= k < diags@.len() implies #[trigger] diags@[k]@.kind
                != DiagnosticKind::CyclicInheritance by {
                assert(diags@[k]@ == diag_views(diags@)[k]);
                if k < head.len() {
                } else {
                    assert(diag_views(diags@)[k] == tail[k - head.len()]);
                }
            }
        }
    }
    diags
}

/// Duplicate detection flags something if and only if the table truly
/// holds a repeated identifier.
pub proof fn lemma_duplicates_iff(ids: Seq<Seq<char>>)
    ensures
        dup_ids(ids).len() > 0 <==> !ids.no_duplicates(),
    decreases ids.len(),
{
    if ids.len() > 0 {
        lemma_duplicates_iff(ids.drop_last());
        let d = ids.drop_last();
        if d.contains(ids.last()) {
            let i = choose|i: int| 0 <= i < d.len() && d[i] == ids.last();
            assert(ids[i] == ids[ids.len() - 1]);
            assert(!ids.no_duplicates());
        } else {
            assert(dup_ids(d) + Seq::<Seq<char>>::empty() =~= dup_ids(d));
            if !ids.no_duplicates() {
                let (i, j) = choose|i: int, j: int|
                    0 <= i < ids.len() && 0 <= j < ids.len() && i != j && ids[i] == ids[j];
                let lo = if i < j {
                    i
                } else {
                    j
                };
                let hi = if i < j {
                    j
                } else {
                    i
                };
                if hi < ids.len() - 1 {
                    assert(d[lo] == d[hi]);
                    assert(!d.no_duplicates());
                } else {
                    assert(d[lo] == ids.last());
                    assert(d.contains(ids.last()));
                }
            }
            if !d.no_duplicates() {
                let (i, j) = choose|i: int, j: int|
                    0 <= i < d.len() && 0 <= j < d.len() && i != j && d[i] == d[j];
                assert(ids[i] == ids[j]);
                assert(!ids.no_duplicates());
            }
        }
    }
}

/// Duplicate detection is blind to file and declaration order: two tables
/// holding the same identifiers the same number of times are flagged
/// alike.
pub proof fn lemma_duplicates_order_blind(a: Seq<Seq<char>>, b: Seq<Seq<char>>)
    requires
        a.to_multiset() == b.to_multiset(),
    ensures
        dup_ids(a).len() > 0 <==> dup_ids(b).len() > 0,
{
    lemma_duplicates_iff(a);
    lemma_duplicates_iff(b);
    if a.no_duplicates() {
        a.lemma_multiset_has_no_duplicates();
        b.lemma_multiset_has_no_duplicates_conv();
    }
    if b.no_duplicates() {
        b.lemma_multiset_has_no_duplicates();
        a.lemma_multiset_has_no_duplicates_conv();
    }
}

} // verus!
