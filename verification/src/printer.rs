//! The pretty-printer model: what token stream a validated tree prints
//! to, and the round-trip laws — re-parsing a printed construct yields
//! the same construct.

use vstd::prelude::*;

use crate::ast::{
    lemma_lower_lowercase, lower, spec_cataloging_from, spec_type_specifier_from, Cataloging,
    ConceptByView, ConceptSpaceView, SourceUnitPartView, StructFieldView, StructForView,
    TypeSpecifierView,
};
use crate::parser::{
    parse_by, parse_space, parse_space_ids, parse_spec, parse_structfor, parse_fields,
    parse_units, parse_id, parse_string, top_step, ParseOut, Parsed, TopStep,
};
use crate::token::{Keyword, TokenView};

verus! {

/// The mode word a cataloging hint prints to.
pub open spec fn cataloging_text(c: Cataloging) -> Seq<char> {
    match c {
        Cataloging::File => "file"@,
        Cataloging::Dir => "dir"@,
    }
}

/// The text a type specifier prints to.
pub open spec fn type_text(t: TypeSpecifierView) -> Seq<char> {
    match t {
        TypeSpecifierView::NoType => Seq::empty(),
        TypeSpecifierView::Int => "int"@,
        TypeSpecifierView::Float => "float"@,
        TypeSpecifierView::Double => "double"@,
        TypeSpecifierView::String => "string"@,
        TypeSpecifierView::Array => "array"@,
        TypeSpecifierView::TypeType(x) => x,
    }
}

/// A named type that no builtin keyword spells, in any case.
pub open spec fn wf_type_name(x: Seq<char>) -> bool {
    &&& lower(x) != "int"@
    &&& lower(x) != "float"@
    &&& lower(x) != "double"@
    &&& lower(x) != "string"@
    &&& lower(x) != "array"@
}

/// A type a declaration may carry: printing its text reads back as the
/// same type.
pub open spec fn wf_type(t: TypeSpecifierView) -> bool {
    match t {
        TypeSpecifierView::NoType => false,
        TypeSpecifierView::TypeType(x) => wf_type_name(x),
        _ => true,
    }
}

/// Printing a well-formed type's text reads back as the same type.
pub proof fn lemma_type_roundtrip(t: TypeSpecifierView)
    requires
        wf_type(t),
    ensures
        spec_type_specifier_from(type_text(t)) == t,
{
    reveal_strlit("int");
    reveal_strlit("float");
    reveal_strlit("double");
    reveal_strlit("string");
    reveal_strlit("array");
    lemma_lower_lowercase("int"@);
    lemma_lower_lowercase("float"@);
    lemma_lower_lowercase("double"@);
    lemma_lower_lowercase("string"@);
    lemma_lower_lowercase("array"@);
    match t {
        TypeSpecifierView::Int => {},
        TypeSpecifierView::Float => {
            assert(lower("float"@) != "int"@);
        },
        TypeSpecifierView::Double => {
            assert(lower("double"@) != "int"@ && lower("double"@) != "float"@);
        },
        TypeSpecifierView::String => {
            assert(lower("string"@)[0] == 's' && "double"@[0] == 'd');
            assert(lower("string"@) != "int"@ && lower("string"@) != "float"@ && lower(
                "string"@,
            ) != "double"@);
        },
        TypeSpecifierView::Array => {
            assert(lower("array"@)[0] == 'a' && "float"@[0] == 'f');
            assert(lower("array"@) != "int"@ && lower("array"@) != "float"@ && lower("array"@)
                != "double"@ && lower("array"@) != "string"@);
        },
        _ => {},
    }
}

/// A token stream that one top-level step turns whole into one part
/// parses to exactly that part.
proof fn lemma_single_part(ts: Seq<TokenView>, p: SourceUnitPartView)
    requires
        top_step(ts, 0) == TopStep::Part(p, ts.len() as int),
    ensures
        parse_spec(ts) == (ParseOut { parts: seq![p], errs: Seq::<int>::empty() }),
{
    reveal_with_fuel(parse_units, 3);
    assert(top_step(ts, ts.len() as int) == TopStep::End);
    assert(Seq::<SourceUnitPartView>::empty().push(p) =~= seq![p]);
}

/// The tokens of a concept space's identifier list, closing brace
/// included.
pub open spec fn print_space_ids(ids: Seq<Seq<char>>) -> Seq<TokenView>
    decreases ids.len(),
{
    if ids.len() == 0 {
        seq![TokenView::RBrace]
    } else if ids.len() == 1 {
        seq![TokenView::Identifier(ids[0]), TokenView::RBrace]
    } else {
        seq![TokenView::Identifier(ids[0]), TokenView::Comma] + print_space_ids(
            ids.drop_first(),
        )
    }
}

/// The tokens of a typed field list, closing brace included.
pub open spec fn print_fields(fs: Seq<StructFieldView>) -> Seq<TokenView>
    decreases fs.len(),
{
    if fs.len() == 0 {
        seq![TokenView::RBrace]
    } else {
        seq![
            TokenView::Identifier(fs[0].identifier),
            TokenView::Colon,
            TokenView::Identifier(type_text(fs[0].declarator)),
        ] + print_fields(fs.drop_first())
    }
}

/// The tokens of one top-level construct.
pub open spec fn print_part(p: SourceUnitPartView) -> Seq<TokenView> {
    match p {
        SourceUnitPartView::Architecture => seq![
            TokenView::Keyword(Keyword::Architecture),
        ],
        SourceUnitPartView::ConceptBy(b) => seq![
            TokenView::Keyword(Keyword::By),
            TokenView::Identifier(cataloging_text(b.cataloging)),
            TokenView::StringLiteral(b.path),
        ],
        SourceUnitPartView::ConceptSpace(s) => seq![
            TokenView::Keyword(Keyword::Conceptspace),
            TokenView::Identifier(s.identifier),
            TokenView::Keyword(Keyword::Package),
            TokenView::StringLiteral(s.package),
            TokenView::LBrace,
        ] + print_space_ids(s.concepts),
        SourceUnitPartView::StructFor(s) => seq![
            TokenView::Keyword(Keyword::Structfor),
            TokenView::Identifier(s.identifier),
            TokenView::LBrace,
        ] + print_fields(s.declarations),
        _ => Seq::empty(),
    }
}

/// What a round-trippable construct looks like: every type it writes
/// down reads back as itself. The constructs not named here are not yet
/// covered by the proved round-trip laws.
pub open spec fn wf_part(p: SourceUnitPartView) -> bool {
    match p {
        SourceUnitPartView::Architecture => true,
        SourceUnitPartView::ConceptBy(_) => true,
        SourceUnitPartView::ConceptSpace(_) => true,
        SourceUnitPartView::StructFor(s) => forall|k: int|
            0 <= k < s.declarations.len() ==> wf_type(#[trigger] s.declarations[k].declarator),
        _ => false,
    }
}

/// Re-parsing a printed identifier list yields the identifiers back.
proof fn lemma_space_ids_roundtrip(
    ts: Seq<TokenView>,
    i: int,
    acc: Seq<Seq<char>>,
    ids: Seq<Seq<char>>,
)
    requires
        0 <= i,
        i + print_space_ids(ids).len() == ts.len(),
        forall|k: int|
            0 <= k < print_space_ids(ids).len() ==> ts[i + k] == #[trigger] print_space_ids(
                ids,
            )[k],
    ensures
        parse_space_ids(ts, i, acc) == Parsed::<Seq<Seq<char>>>::Val(acc + ids, ts.len() as int),
    decreases ids.len(),
{
    if ids.len() == 0 {
        assert(ts[i + 0] == print_space_ids(ids)[0]);
        assert(acc + ids =~= acc);
    } else if ids.len() == 1 {
        assert(ts[i + 0] == print_space_ids(ids)[0]);
        assert(ts[i + 1] == print_space_ids(ids)[1]);
        assert(acc.push(ids[0]) =~= acc + ids);
    } else {
        assert(ts[i + 0] == print_space_ids(ids)[0]);
        assert(ts[i + 1] == print_space_ids(ids)[1]);
        let rest = ids.drop_first();
        assert forall|k: int|
            0 <= k < print_space_ids(rest).len() implies ts[(i + 2) + k]
            == #[trigger] print_space_ids(rest)[k] by {
            assert(print_space_ids(ids)[2 + k] == print_space_ids(rest)[k]);
            assert(ts[i + (2 + k)] == print_space_ids(ids)[2 + k]);
        }
        lemma_space_ids_roundtrip(ts, i + 2, acc.push(ids[0]), rest);
        assert(acc.push(ids[0]) + rest =~= acc + ids);
    }
}

/// Re-parsing a printed field list yields the fields back.
proof fn lemma_fields_roundtrip(
    ts: Seq<TokenView>,
    i: int,
    acc: Seq<StructFieldView>,
    fs: Seq<StructFieldView>,
)
    requires
        0 <= i,
        i + print_fields(fs).len() == ts.len(),
        forall|k: int|
            0 <= k < print_fields(fs).len() ==> ts[i + k] == #[trigger] print_fields(fs)[k],
        forall|k: int| 0 <= k < fs.len() ==> wf_type(#[trigger] fs[k].declarator),
    ensures
        parse_fields(ts, i, acc) == Parsed::<Seq<StructFieldView>>::Val(
            acc + fs,
            ts.len() as int,
        ),
    decreases fs.len(),
{
    if fs.len() == 0 {
        assert(ts[i + 0] == print_fields(fs)[0]);
        assert(acc + fs =~= acc);
    } else {
        assert(ts[i + 0] == print_fields(fs)[0]);
        assert(ts[i + 1] == print_fields(fs)[1]);
        assert(ts[i + 2] == print_fields(fs)[2]);
        assert(wf_type(fs[0].declarator));
        lemma_type_roundtrip(fs[0].declarator);
        let rest = fs.drop_first();
        assert forall|k: int|
            0 <= k < print_fields(rest).len() implies ts[(i + 3) + k]
            == #[trigger] print_fields(rest)[k] by {
            assert(print_fields(fs)[3 + k] == print_fields(rest)[k]);
            assert(ts[i + (3 + k)] == print_fields(fs)[3 + k]);
        }
        assert forall|k: int| 0 <= k < rest.len() implies wf_type(
            #[trigger] rest[k].declarator,
        ) by {
            assert(rest[k] == fs[k + 1]);
        }
        lemma_fields_roundtrip(ts, i + 3, acc.push(fs[0]), rest);
        assert(parse_fields(ts, i, acc) == parse_fields(ts, i + 3, acc.push(fs[0])));
        assert(acc.push(fs[0]) + rest =~= acc + fs);
    }
}

/// Round trip for one printed construct: parsing exactly its tokens
/// yields that construct as the only part, with no diagnostics — for
/// every construct kind that [`wf_part`] covers.
#[verifier::rlimit(60)]
pub proof fn lemma_part_roundtrip(p: SourceUnitPartView)
    requires
        wf_part(p),
    ensures
        parse_spec(print_part(p)) == (ParseOut { parts: seq![p], errs: Seq::<int>::empty() }),
{
    let ts = print_part(p);
    match p {
        SourceUnitPartView::Architecture => {
            assert(top_step(ts, 0) == TopStep::Part(p, 1));
            lemma_single_part(ts, p);
        },
        SourceUnitPartView::ConceptBy(b) => {
            reveal_strlit("file");
            reveal_strlit("dir");
            assert(parse_id(ts, 1) == Parsed::<Seq<char>>::Val(
                cataloging_text(b.cataloging),
                2,
            ));
            assert(parse_string(ts, 2) == Parsed::<Seq<char>>::Val(b.path, 3));
            match b.cataloging {
                Cataloging::File => {
                    assert("file"@.len() == 4 && "dir"@.len() == 3);
                    assert(cataloging_text(b.cataloging) != "dir"@);
                },
                Cataloging::Dir => {},
            }
            assert(spec_cataloging_from(cataloging_text(b.cataloging)) == b.cataloging);
            assert(parse_by(ts, 1) == Parsed::<ConceptByView>::Val(b, 3));
            assert(top_step(ts, 0) == TopStep::Part(p, 3));
            lemma_single_part(ts, p);
        },
        SourceUnitPartView::ConceptSpace(s) => {
            let pre = seq![
                TokenView::Keyword(Keyword::Conceptspace),
                TokenView::Identifier(s.identifier),
                TokenView::Keyword(Keyword::Package),
                TokenView::StringLiteral(s.package),
                TokenView::LBrace,
            ];
            assert(ts == pre + print_space_ids(s.concepts));
            assert(ts[0] == pre[0] && ts[1] == pre[1] && ts[2] == pre[2] && ts[3] == pre[3]
                && ts[4] == pre[4]);
            assert(parse_id(ts, 1) == Parsed::<Seq<char>>::Val(s.identifier, 2));
            assert(parse_string(ts, 3) == Parsed::<Seq<char>>::Val(s.package, 4));
            assert forall|k: int|
                0 <= k < print_space_ids(s.concepts).len() implies ts[5 + k]
                == #[trigger] print_space_ids(s.concepts)[k] by {}
            lemma_space_ids_roundtrip(ts, 5, Seq::empty(), s.concepts);
            assert(Seq::<Seq<char>>::empty() + s.concepts =~= s.concepts);
            assert(parse_space(ts, 1) == Parsed::<ConceptSpaceView>::Val(
                s,
                ts.len() as int,
            ));
            assert(top_step(ts, 0) == TopStep::Part(p, ts.len() as int));
            lemma_single_part(ts, p);
        },
        SourceUnitPartView::StructFor(s) => {
            let pre = seq![
                TokenView::Keyword(Keyword::Structfor),
                TokenView::Identifier(s.identifier),
                TokenView::LBrace,
            ];
            assert(ts == pre + print_fields(s.declarations));
            assert(ts[0] == pre[0] && ts[1] == pre[1] && ts[2] == pre[2]);
            assert(parse_id(ts, 1) == Parsed::<Seq<char>>::Val(s.identifier, 2));
            assert forall|k: int|
                0 <= k < print_fields(s.declarations).len() implies ts[3 + k]
                == #[trigger] print_fields(s.declarations)[k] by {}
            lemma_fields_roundtrip(ts, 3, Seq::empty(), s.declarations);
            assert(Seq::<StructFieldView>::empty() + s.declarations =~= s.declarations);
            assert(parse_structfor(ts, 1) == Parsed::<StructForView>::Val(
                s,
                ts.len() as int,
            ));
            assert(top_step(ts, 0) == TopStep::Part(p, ts.len() as int));
            lemma_single_part(ts, p);
        },
        _ => {},
    }
}

} // verus!
