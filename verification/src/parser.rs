//! The parser: token stream to a [`SourceUnit`], by recursive descent on
//! the leading keyword, with skip-to-keyword error recovery.
//!
//! The whole behavior is pinned by the specification [`parse_units`] and
//! its production functions; the executable parser is proved to return
//! exactly what they say.

use vstd::prelude::*;

use crate::ast::{
    spec_cataloging_from, spec_type_specifier_from, struct_source_default_view, ApiNode,
    ApiNodeView, ApiUnit, ApiUnitView, Architecture, BehaviorFor, BehaviorForView, Cataloging,
    ConceptBy, ConceptByView, ConceptSpace, ConceptSpaceView, ConceptUnit, ConceptUnitView, ContractUnit, ContractUnitView,
    Condition, ConditionView, Expression, ExpressionView, Interface, InterfaceView, Parameter,
    ParameterView, SourceUnit, SourceUnitPart, SourceUnitPartView, SourceUnitView, StructField,
    StructFieldView, StructFor, StructForView, StructSource, TypeSpecifier, TypeSpecifierView,
};
use crate::diagnostics::{make_diagnostic, diagnostic_view, Diagnostic, DiagnosticKind};
use crate::lexer::{lemma_lex_count, lex_spec, tokenize, tokens_view, LexOut, SpecToken};
use crate::token::{Keyword, Token, TokenKind, TokenView};

verus! {

/// The outcome of one production: a value and the position after it, or
/// the position where parsing it failed.
#[verifier::ext_equal]
pub ghost enum Parsed<T> {
    Val(T, int),
    Fail(int),
}

/// The token kinds a token vector holds, in order.
pub open spec fn kinds(toks: Seq<Token>) -> Seq<TokenView> {
    toks.map_values(|t: Token| t@)
}

/// An identifier token, consumed.
pub open spec fn parse_id(ts: Seq<TokenView>, i: int) -> Parsed<Seq<char>> {
    if 0 <= i < ts.len() {
        match ts[i] {
            TokenView::Identifier(t) => Parsed::Val(t, i + 1),
            _ => Parsed::Fail(i),
        }
    } else {
        Parsed::Fail(i)
    }
}

/// A string-literal token, consumed.
pub open spec fn parse_string(ts: Seq<TokenView>, i: int) -> Parsed<Seq<char>> {
    if 0 <= i < ts.len() {
        match ts[i] {
            TokenView::StringLiteral(t) => Parsed::Val(t, i + 1),
            _ => Parsed::Fail(i),
        }
    } else {
        Parsed::Fail(i)
    }
}

/// The comma-separated identifiers after the first of an `extends` list.
pub open spec fn parse_id_tail(ts: Seq<TokenView>, i: int, acc: Seq<Seq<char>>) -> Parsed<
    Seq<Seq<char>>,
>
    decreases ts.len() - i,
{
    if 0 <= i && i + 1 < ts.len() && ts[i] == TokenView::Comma && ts[i + 1] is Identifier {
        parse_id_tail(ts, i + 2, acc.push(ts[i + 1]->Identifier_0))
    } else if 0 <= i < ts.len() && ts[i] == TokenView::Comma {
        Parsed::Fail(i + 1)
    } else {
        Parsed::Val(acc, i)
    }
}

/// A non-empty comma-separated identifier list.
pub open spec fn parse_id_list(ts: Seq<TokenView>, i: int) -> Parsed<Seq<Seq<char>>> {
    match parse_id(ts, i) {
        Parsed::Val(x, j) => parse_id_tail(ts, j, seq![x]),
        Parsed::Fail(f) => Parsed::Fail(f),
    }
}

/// The parameter list of a behavior, after the opening parenthesis, up to
/// and past the closing one.
pub open spec fn parse_params(ts: Seq<TokenView>, i: int, acc: Seq<ParameterView>) -> Parsed<
    Seq<ParameterView>,
>
    decreases ts.len() - i,
{
    if 0 <= i < ts.len() && ts[i] == TokenView::RParen {
        Parsed::Val(acc, i + 1)
    } else if 0 <= i && i + 2 < ts.len() && ts[i] is Identifier && ts[i + 1] == TokenView::Colon
        && ts[i + 2] is Identifier {
        let p = ParameterView {
            identifier: ts[i]->Identifier_0,
            specifier: spec_type_specifier_from(ts[i + 2]->Identifier_0),
        };
        if i + 3 < ts.len() && ts[i + 3] == TokenView::Comma {
            parse_params(ts, i + 4, acc.push(p))
        } else if i + 3 < ts.len() && ts[i + 3] == TokenView::RParen {
            Parsed::Val(acc.push(p), i + 4)
        } else {
            Parsed::Fail(i + 3)
        }
    } else {
        Parsed::Fail(i)
    }
}

/// The members of a concept body: fields (`name ':' type`) and behaviors
/// (`name '(' params ')' [':' type]`), up to and past the closing brace.
pub open spec fn parse_members(
    ts: Seq<TokenView>,
    i: int,
    structs: Seq<StructFieldView>,
    behaviors: Seq<InterfaceView>,
) -> Parsed<(Seq<StructFieldView>, Seq<InterfaceView>)>
    decreases ts.len() - i,
    when 0 <= i
    via parse_members_dec
{
    if i < ts.len() && ts[i] == TokenView::RBrace {
        Parsed::Val((structs, behaviors), i + 1)
    } else if i < ts.len() && ts[i] is Identifier {
        if i + 1 < ts.len() && ts[i + 1] == TokenView::Colon {
            if i + 2 < ts.len() && ts[i + 2] is Identifier {
                let f = StructFieldView {
                    identifier: ts[i]->Identifier_0,
                    declarator: spec_type_specifier_from(ts[i + 2]->Identifier_0),
                };
                parse_members(ts, i + 3, structs.push(f), behaviors)
            } else {
                Parsed::Fail(i + 2)
            }
        } else if i + 1 < ts.len() && ts[i + 1] == TokenView::LParen {
            match parse_params(ts, i + 2, Seq::empty()) {
                Parsed::Fail(f) => Parsed::Fail(f),
                Parsed::Val(ps, k) => {
                    let name = ts[i]->Identifier_0;
                    if k + 1 < ts.len() && ts[k] == TokenView::Colon && ts[k + 1] is Identifier {
                        let b = InterfaceView {
                            identifier: name,
                            params: ps,
                            return_type: spec_type_specifier_from(ts[k + 1]->Identifier_0),
                        };
                        parse_members(ts, k + 2, structs, behaviors.push(b))
                    } else if k < ts.len() && ts[k] == TokenView::Colon {
                        Parsed::Fail(k + 1)
                    } else {
                        let b = InterfaceView {
                            identifier: name,
                            params: ps,
                            return_type: TypeSpecifierView::NoType,
                        };
                        parse_members(ts, k, structs, behaviors.push(b))
                    }
                },
            }
        } else {
            Parsed::Fail(i + 1)
        }
    } else {
        Parsed::Fail(i)
    }
}

#[via_fn]
proof fn parse_members_dec(
    ts: Seq<TokenView>,
    i: int,
    structs: Seq<StructFieldView>,
    behaviors: Seq<InterfaceView>,
) {
    lemma_parse_params_progress(ts, i + 2, Seq::empty());
}

/// The method signatures of a behavior-for body, up to and past the
/// closing brace.
pub open spec fn parse_methods(ts: Seq<TokenView>, i: int, acc: Seq<InterfaceView>) -> Parsed<
    Seq<InterfaceView>,
>
    decreases ts.len() - i,
    when 0 <= i
    via parse_methods_dec
{
    if i < ts.len() && ts[i] == TokenView::RBrace {
        Parsed::Val(acc, i + 1)
    } else if i < ts.len() && ts[i] is Identifier && i + 1 < ts.len() && ts[i + 1]
        == TokenView::LParen {
        match parse_params(ts, i + 2, Seq::empty()) {
            Parsed::Fail(f) => Parsed::Fail(f),
            Parsed::Val(ps, k) => {
                let name = ts[i]->Identifier_0;
                if k + 1 < ts.len() && ts[k] == TokenView::Colon && ts[k + 1] is Identifier {
                    let b = InterfaceView {
                        identifier: name,
                        params: ps,
                        return_type: spec_type_specifier_from(ts[k + 1]->Identifier_0),
                    };
                    parse_methods(ts, k + 2, acc.push(b))
                } else if k < ts.len() && ts[k] == TokenView::Colon {
                    Parsed::Fail(k + 1)
                } else {
                    let b = InterfaceView {
                        identifier: name,
                        params: ps,
                        return_type: TypeSpecifierView::NoType,
                    };
                    parse_methods(ts, k, acc.push(b))
                }
            },
        }
    } else {
        Parsed::Fail(if i < ts.len() && ts[i] is Identifier {
            i + 1
        } else {
            i
        })
    }
}

#[via_fn]
proof fn parse_methods_dec(ts: Seq<TokenView>, i: int, acc: Seq<InterfaceView>) {
    lemma_parse_params_progress(ts, i + 2, Seq::empty());
}

/// Typed fields (`name ':' type`), up to and past the closing brace.
pub open spec fn parse_fields(ts: Seq<TokenView>, i: int, acc: Seq<StructFieldView>) -> Parsed<
    Seq<StructFieldView>,
>
    decreases ts.len() - i,
{
    if 0 <= i < ts.len() && ts[i] == TokenView::RBrace {
        Parsed::Val(acc, i + 1)
    } else if 0 <= i && i + 2 < ts.len() && ts[i] is Identifier && ts[i + 1] == TokenView::Colon
        && ts[i + 2] is Identifier {
        let f = StructFieldView {
            identifier: ts[i]->Identifier_0,
            declarator: spec_type_specifier_from(ts[i + 2]->Identifier_0),
        };
        parse_fields(ts, i + 3, acc.push(f))
    } else {
        Parsed::Fail(i)
    }
}

/// Conditions: string literals, up to and past the closing brace.
pub open spec fn parse_conditions(ts: Seq<TokenView>, i: int, acc: Seq<ConditionView>) -> Parsed<
    Seq<ConditionView>,
>
    decreases ts.len() - i,
{
    if 0 <= i < ts.len() && ts[i] == TokenView::RBrace {
        Parsed::Val(acc, i + 1)
    } else if 0 <= i < ts.len() && ts[i] is StringLiteral {
        let c = ConditionView {
            text: ts[i]->StringLiteral_0,
            expr: ExpressionView::String(ts[i]->StringLiteral_0),
        };
        parse_conditions(ts, i + 1, acc.push(c))
    } else {
        Parsed::Fail(i)
    }
}

/// A concept body's heading: after `concept`, its identifier, an optional
/// `extends` list, and the braced member list.
pub open spec fn parse_concept(ts: Seq<TokenView>, i: int, desc: Seq<char>) -> Parsed<
    ConceptUnitView,
> {
    match parse_id(ts, i) {
        Parsed::Fail(f) => Parsed::Fail(f),
        Parsed::Val(id, j) => {
            let ext = if j < ts.len() && ts[j] == TokenView::Keyword(Keyword::Extends) {
                parse_id_list(ts, j + 1)
            } else {
                Parsed::Val(Seq::<Seq<char>>::empty(), j)
            };
            match ext {
                Parsed::Fail(f) => Parsed::Fail(f),
                Parsed::Val(exts, k) => {
                    if k < ts.len() && ts[k] == TokenView::LBrace {
                        match parse_members(ts, k + 1, Seq::empty(), Seq::empty()) {
                            Parsed::Fail(f) => Parsed::Fail(f),
                            Parsed::Val((ss, bs), m) => Parsed::Val(
                                ConceptUnitView {
                                    description: desc,
                                    identifier: id,
                                    extends: exts,
                                    structs: ss,
                                    behaviors: bs,
                                    struct_source: struct_source_default_view(),
                                },
                                m,
                            ),
                        }
                    } else {
                        Parsed::Fail(k)
                    }
                },
            }
        },
    }
}

/// A contract's `pre`/`post` blocks, in order, up to and past the closing
/// brace.
pub open spec fn parse_blocks(
    ts: Seq<TokenView>,
    i: int,
    pre: Seq<ConditionView>,
    post: Seq<ConditionView>,
) -> Parsed<(Seq<ConditionView>, Seq<ConditionView>)>
    decreases ts.len() - i,
    when 0 <= i
    via parse_blocks_dec
{
    if i < ts.len() && ts[i] == TokenView::RBrace {
        Parsed::Val((pre, post), i + 1)
    } else if i + 1 < ts.len() && ts[i] == TokenView::Keyword(Keyword::Pre) && ts[i + 1]
        == TokenView::LBrace {
        match parse_conditions(ts, i + 2, Seq::empty()) {
            Parsed::Fail(f) => Parsed::Fail(f),
            Parsed::Val(cs, j) => parse_blocks(ts, j, pre + cs, post),
        }
    } else if i + 1 < ts.len() && ts[i] == TokenView::Keyword(Keyword::Post) && ts[i + 1]
        == TokenView::LBrace {
        match parse_conditions(ts, i + 2, Seq::empty()) {
            Parsed::Fail(f) => Parsed::Fail(f),
            Parsed::Val(cs, j) => parse_blocks(ts, j, pre, post + cs),
        }
    } else {
        Parsed::Fail(i)
    }
}

#[via_fn]
proof fn parse_blocks_dec(
    ts: Seq<TokenView>,
    i: int,
    pre: Seq<ConditionView>,
    post: Seq<ConditionView>,
) {
    lemma_parse_conditions_progress(ts, i + 2, Seq::empty());
}

/// A contract: after `contract`, its identifier, `during` and the phase
/// string, and the braced pre/post blocks.
pub open spec fn parse_contract(ts: Seq<TokenView>, i: int) -> Parsed<ContractUnitView> {
    match parse_id(ts, i) {
        Parsed::Fail(f) => Parsed::Fail(f),
        Parsed::Val(id, j) => {
            if j < ts.len() && ts[j] == TokenView::Keyword(Keyword::During) {
                match parse_string(ts, j + 1) {
                    Parsed::Fail(f) => Parsed::Fail(f),
                    Parsed::Val(during, k) => {
                        if k < ts.len() && ts[k] == TokenView::LBrace {
                            match parse_blocks(ts, k + 1, Seq::empty(), Seq::empty()) {
                                Parsed::Fail(f) => Parsed::Fail(f),
                                Parsed::Val((pre, post), m) => Parsed::Val(
                                    ContractUnitView {
                                        identifier: id,
                                        during,
                                        pre_condition: pre,
                                        post_condition: post,
                                    },
                                    m,
                                ),
                            }
                        } else {
                            Parsed::Fail(k)
                        }
                    },
                }
            } else {
                Parsed::Fail(j)
            }
        },
    }
}

/// The exchanges of an API unit: each `inbound { .. } outbound { .. }`
/// with optional `pre`/`post` blocks, up to and past the closing brace.
pub open spec fn parse_api_nodes(ts: Seq<TokenView>, i: int, acc: Seq<ApiNodeView>) -> Parsed<
    Seq<ApiNodeView>,
>
    decreases ts.len() - i,
    when 0 <= i
    via parse_api_nodes_dec
{
    if i < ts.len() && ts[i] == TokenView::RBrace {
        Parsed::Val(acc, i + 1)
    } else if i + 1 < ts.len() && ts[i] == TokenView::Keyword(Keyword::Inbound) && ts[i + 1]
        == TokenView::LBrace {
        match parse_fields(ts, i + 2, Seq::empty()) {
            Parsed::Fail(f) => Parsed::Fail(f),
            Parsed::Val(inb, j) => {
                if j + 1 < ts.len() && ts[j] == TokenView::Keyword(Keyword::Outbound) && ts[j + 1]
                    == TokenView::LBrace {
                    match parse_fields(ts, j + 2, Seq::empty()) {
                        Parsed::Fail(f) => Parsed::Fail(f),
                        Parsed::Val(outb, k) => {
                            let pre = if k + 1 < ts.len() && ts[k] == TokenView::Keyword(
                                Keyword::Pre,
                            ) && ts[k + 1] == TokenView::LBrace {
                                parse_conditions(ts, k + 2, Seq::empty())
                            } else {
                                Parsed::Val(Seq::<ConditionView>::empty(), k)
                            };
                            match pre {
                                Parsed::Fail(f) => Parsed::Fail(f),
                                Parsed::Val(pre_cs, m) => {
                                    let post = if m + 1 < ts.len() && ts[m] == TokenView::Keyword(
                                        Keyword::Post,
                                    ) && ts[m + 1] == TokenView::LBrace {
                                        parse_conditions(ts, m + 2, Seq::empty())
                                    } else {
                                        Parsed::Val(Seq::<ConditionView>::empty(), m)
                                    };
                                    match post {
                                        Parsed::Fail(f) => Parsed::Fail(f),
                                        Parsed::Val(post_cs, p) => {
                                            let node = ApiNodeView {
                                                inbound: inb,
                                                outbound: outb,
                                                pre_cond: pre_cs,
                                                post_cond: post_cs,
                                            };
                                            parse_api_nodes(ts, p, acc.push(node))
                                        },
                                    }
                                },
                            }
                        },
                    }
                } else {
                    Parsed::Fail(j)
                }
            },
        }
    } else {
        Parsed::Fail(i)
    }
}

#[via_fn]
proof fn parse_api_nodes_dec(ts: Seq<TokenView>, i: int, acc: Seq<ApiNodeView>) {
    if 0 <= i {
        lemma_parse_fields_progress(ts, i + 2, Seq::empty());
        let inb = parse_fields(ts, i + 2, Seq::empty());
        if inb is Val {
            let j = inb->Val_1;
            lemma_parse_fields_progress(ts, j + 2, Seq::empty());
            let outb = parse_fields(ts, j + 2, Seq::empty());
            if outb is Val {
                let k = outb->Val_1;
                lemma_parse_conditions_progress(ts, k + 2, Seq::empty());
                let pre = parse_conditions(ts, k + 2, Seq::empty());
                if pre is Val {
                    lemma_parse_conditions_progress(ts, pre->Val_1 + 2, Seq::empty());
                }
                if k >= 0 {
                    lemma_parse_conditions_progress(ts, k + 2, Seq::empty());
                }
            }
        }
    }
}

/// An API unit: after `api`, its name, an optional `import` string, and
/// the braced exchange list.
pub open spec fn parse_api(ts: Seq<TokenView>, i: int) -> Parsed<ApiUnitView> {
    match parse_id(ts, i) {
        Parsed::Fail(f) => Parsed::Fail(f),
        Parsed::Val(name, j) => {
            let imp = if j < ts.len() && ts[j] == TokenView::Keyword(Keyword::Import) {
                match parse_string(ts, j + 1) {
                    Parsed::Fail(f) => Parsed::Fail(f),
                    Parsed::Val(p, k) => Parsed::Val(Option::Some(p), k),
                }
            } else {
                Parsed::Val(Option::<Seq<char>>::None, j)
            };
            match imp {
                Parsed::Fail(f) => Parsed::Fail(f),
                Parsed::Val(import, k) => {
                    if k < ts.len() && ts[k] == TokenView::LBrace {
                        match parse_api_nodes(ts, k + 1, Seq::empty()) {
                            Parsed::Fail(f) => Parsed::Fail(f),
                            Parsed::Val(nodes, m) => Parsed::Val(
                                ApiUnitView { name, import, apis: nodes },
                                m,
                            ),
                        }
                    } else {
                        Parsed::Fail(k)
                    }
                },
            }
        },
    }
}

/// The identifier list of a concept space, up to and past the closing
/// brace; the list may be empty.
pub open spec fn parse_space_ids(ts: Seq<TokenView>, i: int, acc: Seq<Seq<char>>) -> Parsed<
    Seq<Seq<char>>,
>
    decreases ts.len() - i,
{
    if 0 <= i < ts.len() && ts[i] == TokenView::RBrace {
        Parsed::Val(acc, i + 1)
    } else if 0 <= i < ts.len() && ts[i] is Identifier {
        let acc2 = acc.push(ts[i]->Identifier_0);
        if i + 1 < ts.len() && ts[i + 1] == TokenView::Comma {
            parse_space_ids(ts, i + 2, acc2)
        } else if i + 1 < ts.len() && ts[i + 1] == TokenView::RBrace {
            Parsed::Val(acc2, i + 2)
        } else {
            Parsed::Fail(i + 1)
        }
    } else {
        Parsed::Fail(i)
    }
}

/// A concept space: after `conceptspace`, its identifier, `package` and
/// the package string, and the braced concept list.
pub open spec fn parse_space(ts: Seq<TokenView>, i: int) -> Parsed<ConceptSpaceView> {
    match parse_id(ts, i) {
        Parsed::Fail(f) => Parsed::Fail(f),
        Parsed::Val(id, j) => {
            if j < ts.len() && ts[j] == TokenView::Keyword(Keyword::Package) {
                match parse_string(ts, j + 1) {
                    Parsed::Fail(f) => Parsed::Fail(f),
                    Parsed::Val(pkg, k) => {
                        if k < ts.len() && ts[k] == TokenView::LBrace {
                            match parse_space_ids(ts, k + 1, Seq::empty()) {
                                Parsed::Fail(f) => Parsed::Fail(f),
                                Parsed::Val(ids, m) => Parsed::Val(
                                    ConceptSpaceView { identifier: id, package: pkg, concepts: ids },
                                    m,
                                ),
                            }
                        } else {
                            Parsed::Fail(k)
                        }
                    },
                }
            } else {
                Parsed::Fail(j)
            }
        },
    }
}

/// A cataloging hint: after `by`, the mode word and the path string.
pub open spec fn parse_by(ts: Seq<TokenView>, i: int) -> Parsed<ConceptByView> {
    match parse_id(ts, i) {
        Parsed::Fail(f) => Parsed::Fail(f),
        Parsed::Val(mode, j) => {
            match parse_string(ts, j) {
                Parsed::Fail(f) => Parsed::Fail(f),
                Parsed::Val(path, k) => Parsed::Val(
                    ConceptByView { cataloging: spec_cataloging_from(mode), path },
                    k,
                ),
            }
        },
    }
}

/// A struct-for declaration: after `structfor`, its identifier and the
/// braced field list.
pub open spec fn parse_structfor(ts: Seq<TokenView>, i: int) -> Parsed<StructForView> {
    match parse_id(ts, i) {
        Parsed::Fail(f) => Parsed::Fail(f),
        Parsed::Val(id, j) => {
            if j < ts.len() && ts[j] == TokenView::LBrace {
                match parse_fields(ts, j + 1, Seq::empty()) {
                    Parsed::Fail(f) => Parsed::Fail(f),
                    Parsed::Val(fs, m) => Parsed::Val(
                        StructForView { identifier: id, declarations: fs },
                        m,
                    ),
                }
            } else {
                Parsed::Fail(j)
            }
        },
    }
}

/// A behavior-for declaration: after `behaviorfor`, its identifier and
/// the braced method list.
pub open spec fn parse_behaviorfor(ts: Seq<TokenView>, i: int) -> Parsed<BehaviorForView> {
    match parse_id(ts, i) {
        Parsed::Fail(f) => Parsed::Fail(f),
        Parsed::Val(id, j) => {
            if j < ts.len() && ts[j] == TokenView::LBrace {
                match parse_methods(ts, j + 1, Seq::empty()) {
                    Parsed::Fail(f) => Parsed::Fail(f),
                    Parsed::Val(ms, m) => Parsed::Val(
                        BehaviorForView { identifier: id, functions: ms },
                        m,
                    ),
                }
            } else {
                Parsed::Fail(j)
            }
        },
    }
}

/// Whether a token opens a top-level part: the recovery points of the
/// parser.
pub open spec fn is_top_keyword(t: TokenView) -> bool {
    ||| t == TokenView::Keyword(Keyword::Architecture)
    ||| t == TokenView::Keyword(Keyword::Concept)
    ||| t == TokenView::Keyword(Keyword::Contract)
    ||| t == TokenView::Keyword(Keyword::Api)
    ||| t == TokenView::Keyword(Keyword::By)
    ||| t == TokenView::Keyword(Keyword::Structfor)
    ||| t == TokenView::Keyword(Keyword::Behaviorfor)
    ||| t == TokenView::Keyword(Keyword::Conceptspace)
}

/// The first position at or after `i` holding a top-level keyword, or the
/// end of the stream.
pub open spec fn next_top(ts: Seq<TokenView>, i: int) -> int
    decreases ts.len() - i,
{
    if 0 <= i < ts.len() {
        if is_top_keyword(ts[i]) {
            i
        } else {
            next_top(ts, i + 1)
        }
    } else {
        ts.len() as int
    }
}

/// The larger of two positions.
pub open spec fn pos_max(a: int, b: int) -> int {
    if a > b {
        a
    } else {
        b
    }
}

/// What one step of the top-level loop does at position `i`.
#[verifier::ext_equal]
pub ghost enum TopStep {
    /// The stream is exhausted.
    End,
    /// Nothing was produced; parsing continues at the position given.
    Skip(int),
    /// One part was parsed; parsing continues at the position given.
    Part(SourceUnitPartView, int),
    /// A part was malformed: one syntax error at the first position, and
    /// parsing resumes at the second.
    Recover(int, int),
}

/// Turns a production's outcome into a top-level step: a success becomes
/// a part; a failure becomes exactly one syntax error, with parsing
/// resumed at the next top-level keyword strictly after `i`.
pub open spec fn step_of<T>(
    ts: Seq<TokenView>,
    i: int,
    r: Parsed<T>,
    wrap: spec_fn(T) -> SourceUnitPartView,
) -> TopStep {
    match r {
        Parsed::Val(v, n) => TopStep::Part(wrap(v), n),
        Parsed::Fail(f) => TopStep::Recover(f, next_top(ts, pos_max(f, i + 1))),
    }
}

/// One step of the top-level loop: dispatch on the leading token.
pub open spec fn top_step(ts: Seq<TokenView>, i: int) -> TopStep {
    if i >= ts.len() {
        TopStep::End
    } else {
        match ts[i] {
            TokenView::DocComment(d) => {
                if i + 1 < ts.len() && ts[i + 1] == TokenView::Keyword(Keyword::Concept) {
                    step_of(
                        ts,
                        i,
                        parse_concept(ts, i + 2, d),
                        |c: ConceptUnitView| SourceUnitPartView::ConceptUnit(c),
                    )
                } else {
                    TopStep::Skip(i + 1)
                }
            },
            TokenView::Keyword(Keyword::Architecture) => TopStep::Part(
                SourceUnitPartView::Architecture,
                i + 1,
            ),
            TokenView::Keyword(Keyword::Concept) => step_of(
                ts,
                i,
                parse_concept(ts, i + 1, Seq::empty()),
                |c: ConceptUnitView| SourceUnitPartView::ConceptUnit(c),
            ),
            TokenView::Keyword(Keyword::Contract) => step_of(
                ts,
                i,
                parse_contract(ts, i + 1),
                |c: ContractUnitView| SourceUnitPartView::ContractUnit(c),
            ),
            TokenView::Keyword(Keyword::Api) => step_of(
                ts,
                i,
                parse_api(ts, i + 1),
                |a: ApiUnitView| SourceUnitPartView::ApiUnit(a),
            ),
            TokenView::Keyword(Keyword::By) => step_of(
                ts,
                i,
                parse_by(ts, i + 1),
                |b: ConceptByView| SourceUnitPartView::ConceptBy(b),
            ),
            TokenView::Keyword(Keyword::Structfor) => step_of(
                ts,
                i,
                parse_structfor(ts, i + 1),
                |f: StructForView| SourceUnitPartView::StructFor(f),
            ),
            TokenView::Keyword(Keyword::Behaviorfor) => step_of(
                ts,
                i,
                parse_behaviorfor(ts, i + 1),
                |b: BehaviorForView| SourceUnitPartView::BehaviorFor(b),
            ),
            TokenView::Keyword(Keyword::Conceptspace) => step_of(
                ts,
                i,
                parse_space(ts, i + 1),
                |s: ConceptSpaceView| SourceUnitPartView::ConceptSpace(s),
            ),
            _ => TopStep::Recover(i, next_top(ts, i + 1)),
        }
    }
}

/// What parsing yields: the ordered parts and the token positions of the
/// syntax errors, in order.
#[verifier::ext_equal]
pub ghost struct ParseOut {
    pub parts: Seq<SourceUnitPartView>,
    pub errs: Seq<int>,
}

/// The parser, specified: repeats [`top_step`] from position `i`,
/// collecting parts and syntax-error positions.
pub open spec fn parse_units(
    ts: Seq<TokenView>,
    i: int,
    parts: Seq<SourceUnitPartView>,
    errs: Seq<int>,
) -> ParseOut
    decreases ts.len() - i,
    when 0 <= i
    via parse_units_dec
{
    match top_step(ts, i) {
        TopStep::End => ParseOut { parts, errs },
        TopStep::Skip(n) => parse_units(ts, n, parts, errs),
        TopStep::Part(p, n) => parse_units(ts, n, parts.push(p), errs),
        TopStep::Recover(f, n) => parse_units(ts, n, parts, errs.push(f)),
    }
}

#[via_fn]
proof fn parse_units_dec(
    ts: Seq<TokenView>,
    i: int,
    parts: Seq<SourceUnitPartView>,
    errs: Seq<int>,
) {
    lemma_top_step_progress(ts, i);
}

/// What parsing a whole token stream yields.
pub open spec fn parse_spec(ts: Seq<TokenView>) -> ParseOut {
    parse_units(ts, 0, Seq::empty(), Seq::empty())
}

/// A production's outcome never lands before where it started, nor past
/// the end of the stream on success.
pub open spec fn progresses<T>(r: Parsed<T>, lo: int, len: int) -> bool {
    match r {
        Parsed::Val(_, n) => lo <= n <= len,
        Parsed::Fail(_) => true,
    }
}

proof fn lemma_parse_id_progress(ts: Seq<TokenView>, i: int)
    ensures
        progresses(parse_id(ts, i), i + 1, ts.len() as int),
        progresses(parse_string(ts, i), i + 1, ts.len() as int),
{
}

proof fn lemma_parse_id_tail_progress(ts: Seq<TokenView>, i: int, acc: Seq<Seq<char>>)
    requires
        i <= ts.len(),
    ensures
        progresses(parse_id_tail(ts, i, acc), i, ts.len() as int),
    decreases ts.len() - i,
{
    if 0 <= i && i + 1 < ts.len() && ts[i] == TokenView::Comma && ts[i + 1] is Identifier {
        lemma_parse_id_tail_progress(ts, i + 2, acc.push(ts[i + 1]->Identifier_0));
    }
}

proof fn lemma_parse_params_progress(ts: Seq<TokenView>, i: int, acc: Seq<ParameterView>)
    ensures
        progresses(parse_params(ts, i, acc), i + 1, ts.len() as int),
    decreases ts.len() - i,
{
    if 0 <= i && i + 2 < ts.len() && ts[i] is Identifier && ts[i + 1] == TokenView::Colon && ts[i
        + 2] is Identifier {
        let p = ParameterView {
            identifier: ts[i]->Identifier_0,
            specifier: spec_type_specifier_from(ts[i + 2]->Identifier_0),
        };
        if i + 3 < ts.len() && ts[i + 3] == TokenView::Comma {
            lemma_parse_params_progress(ts, i + 4, acc.push(p));
        }
    }
}

proof fn lemma_parse_members_progress(
    ts: Seq<TokenView>,
    i: int,
    structs: Seq<StructFieldView>,
    behaviors: Seq<InterfaceView>,
)
    requires
        0 <= i,
    ensures
        progresses(parse_members(ts, i, structs, behaviors), i, ts.len() as int),
    decreases ts.len() - i,
{
    if i < ts.len() && !(ts[i] == TokenView::RBrace) && ts[i] is Identifier {
        if i + 1 < ts.len() && ts[i + 1] == TokenView::Colon {
            if i + 2 < ts.len() && ts[i + 2] is Identifier {
                let f = StructFieldView {
                    identifier: ts[i]->Identifier_0,
                    declarator: spec_type_specifier_from(ts[i + 2]->Identifier_0),
                };
                lemma_parse_members_progress(ts, i + 3, structs.push(f), behaviors);
            }
        } else if i + 1 < ts.len() && ts[i + 1] == TokenView::LParen {
            lemma_parse_params_progress(ts, i + 2, Seq::empty());
            match parse_params(ts, i + 2, Seq::empty()) {
                Parsed::Fail(_) => {},
                Parsed::Val(ps, k) => {
                    let name = ts[i]->Identifier_0;
                    if k + 1 < ts.len() && ts[k] == TokenView::Colon && ts[k + 1] is Identifier {
                        let b = InterfaceView {
                            identifier: name,
                            params: ps,
                            return_type: spec_type_specifier_from(ts[k + 1]->Identifier_0),
                        };
                        lemma_parse_members_progress(ts, k + 2, structs, behaviors.push(b));
                    } else if k < ts.len() && ts[k] == TokenView::Colon {
                    } else {
                        let b = InterfaceView {
                            identifier: name,
                            params: ps,
                            return_type: TypeSpecifierView::NoType,
                        };
                        lemma_parse_members_progress(ts, k, structs, behaviors.push(b));
                    }
                },
            }
        }
    }
}

proof fn lemma_parse_methods_progress(ts: Seq<TokenView>, i: int, acc: Seq<InterfaceView>)
    requires
        0 <= i,
    ensures
        progresses(parse_methods(ts, i, acc), i, ts.len() as int),
    decreases ts.len() - i,
{
    if i < ts.len() && !(ts[i] == TokenView::RBrace) && ts[i] is Identifier && i + 1 < ts.len()
        && ts[i + 1] == TokenView::LParen {
        lemma_parse_params_progress(ts, i + 2, Seq::empty());
        match parse_params(ts, i + 2, Seq::empty()) {
            Parsed::Fail(_) => {},
            Parsed::Val(ps, k) => {
                let name = ts[i]->Identifier_0;
                if k + 1 < ts.len() && ts[k] == TokenView::Colon && ts[k + 1] is Identifier {
                    let b = InterfaceView {
                        identifier: name,
                        params: ps,
                        return_type: spec_type_specifier_from(ts[k + 1]->Identifier_0),
                    };
                    lemma_parse_methods_progress(ts, k + 2, acc.push(b));
                } else if k < ts.len() && ts[k] == TokenView::Colon {
                } else {
                    let b = InterfaceView {
                        identifier: name,
                        params: ps,
                        return_type: TypeSpecifierView::NoType,
                    };
                    lemma_parse_methods_progress(ts, k, acc.push(b));
                }
            },
        }
    }
}

proof fn lemma_parse_fields_progress(ts: Seq<TokenView>, i: int, acc: Seq<StructFieldView>)
    ensures
        progresses(parse_fields(ts, i, acc), i, ts.len() as int),
    decreases ts.len() - i,
{
    if 0 <= i && i + 2 < ts.len() && !(0 <= i < ts.len() && ts[i] == TokenView::RBrace) && ts[i]
        is Identifier && ts[i + 1] == TokenView::Colon && ts[i + 2] is Identifier {
        let f = StructFieldView {
            identifier: ts[i]->Identifier_0,
            declarator: spec_type_specifier_from(ts[i + 2]->Identifier_0),
        };
        lemma_parse_fields_progress(ts, i + 3, acc.push(f));
    }
}

proof fn lemma_parse_conditions_progress(ts: Seq<TokenView>, i: int, acc: Seq<ConditionView>)
    ensures
        progresses(parse_conditions(ts, i, acc), i, ts.len() as int),
    decreases ts.len() - i,
{
    if 0 <= i < ts.len() && !(ts[i] == TokenView::RBrace) && ts[i] is StringLiteral {
        let c = ConditionView {
            text: ts[i]->StringLiteral_0,
            expr: ExpressionView::String(ts[i]->StringLiteral_0),
        };
        lemma_parse_conditions_progress(ts, i + 1, acc.push(c));
    }
}

proof fn lemma_parse_blocks_progress(
    ts: Seq<TokenView>,
    i: int,
    pre: Seq<ConditionView>,
    post: Seq<ConditionView>,
)
    requires
        0 <= i,
    ensures
        progresses(parse_blocks(ts, i, pre, post), i, ts.len() as int),
    decreases ts.len() - i,
{
    if i < ts.len() && !(ts[i] == TokenView::RBrace) {
        if i + 1 < ts.len() && ts[i] == TokenView::Keyword(Keyword::Pre) && ts[i + 1]
            == TokenView::LBrace {
            lemma_parse_conditions_progress(ts, i + 2, Seq::empty());
            match parse_conditions(ts, i + 2, Seq::empty()) {
                Parsed::Fail(_) => {},
                Parsed::Val(cs, j) => {
                    lemma_parse_blocks_progress(ts, j, pre + cs, post);
                },
            }
        } else if i + 1 < ts.len() && ts[i] == TokenView::Keyword(Keyword::Post) && ts[i + 1]
            == TokenView::LBrace {
            lemma_parse_conditions_progress(ts, i + 2, Seq::empty());
            match parse_conditions(ts, i + 2, Seq::empty()) {
                Parsed::Fail(_) => {},
                Parsed::Val(cs, j) => {
                    lemma_parse_blocks_progress(ts, j, pre, post + cs);
                },
            }
        }
    }
}

proof fn lemma_parse_api_nodes_progress(ts: Seq<TokenView>, i: int, acc: Seq<ApiNodeView>)
    requires
        0 <= i,
    ensures
        progresses(parse_api_nodes(ts, i, acc), i, ts.len() as int),
    decreases ts.len() - i,
{
    if i < ts.len() && !(ts[i] == TokenView::RBrace) && i + 1 < ts.len() && ts[i]
        == TokenView::Keyword(Keyword::Inbound) && ts[i + 1] == TokenView::LBrace {
        lemma_parse_fields_progress(ts, i + 2, Seq::empty());
        match parse_fields(ts, i + 2, Seq::empty()) {
            Parsed::Fail(_) => {},
            Parsed::Val(inb, j) => {
                if j + 1 < ts.len() && ts[j] == TokenView::Keyword(Keyword::Outbound) && ts[j + 1]
                    == TokenView::LBrace {
                    lemma_parse_fields_progress(ts, j + 2, Seq::empty());
                    match parse_fields(ts, j + 2, Seq::empty()) {
                        Parsed::Fail(_) => {},
                        Parsed::Val(outb, k) => {
                            lemma_parse_conditions_progress(ts, k + 2, Seq::empty());
                            let pre = if k + 1 < ts.len() && ts[k] == TokenView::Keyword(
                                Keyword::Pre,
                            ) && ts[k + 1] == TokenView::LBrace {
                                parse_conditions(ts, k + 2, Seq::empty())
                            } else {
                                Parsed::Val(Seq::<ConditionView>::empty(), k)
                            };
                            match pre {
                                Parsed::Fail(_) => {},
                                Parsed::Val(pre_cs, m) => {
                                    lemma_parse_conditions_progress(ts, m + 2, Seq::empty());
                                    let post = if m + 1 < ts.len() && ts[m] == TokenView::Keyword(
                                        Keyword::Post,
                                    ) && ts[m + 1] == TokenView::LBrace {
                                        parse_conditions(ts, m + 2, Seq::empty())
                                    } else {
                                        Parsed::Val(Seq::<ConditionView>::empty(), m)
                                    };
                                    match post {
                                        Parsed::Fail(_) => {},
                                        Parsed::Val(post_cs, p) => {
                                            let node = ApiNodeView {
                                                inbound: inb,
                                                outbound: outb,
                                                pre_cond: pre_cs,
                                                post_cond: post_cs,
                                            };
                                            lemma_parse_api_nodes_progress(ts, p, acc.push(node));
                                        },
                                    }
                                },
                            }
                        },
                    }
                }
            },
        }
    }
}

proof fn lemma_parse_space_ids_progress(ts: Seq<TokenView>, i: int, acc: Seq<Seq<char>>)
    ensures
        progresses(parse_space_ids(ts, i, acc), i, ts.len() as int),
    decreases ts.len() - i,
{
    if 0 <= i < ts.len() && !(ts[i] == TokenView::RBrace) && ts[i] is Identifier {
        let acc2 = acc.push(ts[i]->Identifier_0);
        if i + 1 < ts.len() && ts[i + 1] == TokenView::Comma {
            lemma_parse_space_ids_progress(ts, i + 2, acc2);
        }
    }
}

/// Every construct production lands at or after where it started.
proof fn lemma_constructs_progress(ts: Seq<TokenView>, i: int, desc: Seq<char>)
    requires
        0 <= i,
    ensures
        progresses(parse_concept(ts, i, desc), i, ts.len() as int),
        progresses(parse_contract(ts, i), i, ts.len() as int),
        progresses(parse_api(ts, i), i, ts.len() as int),
        progresses(parse_by(ts, i), i, ts.len() as int),
        progresses(parse_structfor(ts, i), i, ts.len() as int),
        progresses(parse_behaviorfor(ts, i), i, ts.len() as int),
        progresses(parse_space(ts, i), i, ts.len() as int),
{
    lemma_parse_id_progress(ts, i);
    match parse_id(ts, i) {
        Parsed::Fail(_) => {},
        Parsed::Val(id, j) => {
            lemma_parse_id_progress(ts, j);
            lemma_parse_id_progress(ts, j + 1);
            if 0 <= j + 1 {
                match parse_id(ts, j + 1) {
                    Parsed::Fail(_) => {},
                    Parsed::Val(_, j2) => {
                        lemma_parse_id_tail_progress(ts, j2, seq![ts[j + 1]->Identifier_0]);
                    },
                }
            }
            lemma_parse_members_progress(ts, j + 1, Seq::empty(), Seq::empty());
            match parse_id_list(ts, j + 1) {
                Parsed::Fail(_) => {},
                Parsed::Val(_, k) => {
                    lemma_parse_members_progress(ts, k + 1, Seq::empty(), Seq::empty());
                },
            }
            match parse_string(ts, j + 1) {
                Parsed::Fail(_) => {},
                Parsed::Val(_, k) => {
                    lemma_parse_blocks_progress(ts, k + 1, Seq::empty(), Seq::empty());
                    lemma_parse_api_nodes_progress(ts, k + 1, Seq::empty());
                    lemma_parse_space_ids_progress(ts, k + 1, Seq::empty());
                },
            }
            lemma_parse_blocks_progress(ts, j + 1, Seq::empty(), Seq::empty());
            lemma_parse_api_nodes_progress(ts, j + 1, Seq::empty());
            lemma_parse_space_ids_progress(ts, j + 1, Seq::empty());
            lemma_parse_fields_progress(ts, j + 1, Seq::empty());
            lemma_parse_methods_progress(ts, j + 1, Seq::empty());
            lemma_parse_id_tail_progress(ts, j, seq![id]);
            match parse_string(ts, j) {
                Parsed::Fail(_) => {},
                Parsed::Val(_, _) => {},
            }
        },
    }
}

/// The mapped views of a string vector.
pub open spec fn strs_view(v: Seq<String>) -> Seq<Seq<char>> {
    v.map_values(|s: String| s@)
}

/// The mapped views of a field vector.
pub open spec fn fields_view(v: Seq<StructField>) -> Seq<StructFieldView> {
    v.map_values(|f: StructField| f@)
}

/// The mapped views of a method-signature vector.
pub open spec fn ifaces_view(v: Seq<Interface>) -> Seq<InterfaceView> {
    v.map_values(|b: Interface| b@)
}

/// The mapped views of a parameter vector.
pub open spec fn params_view(v: Seq<Parameter>) -> Seq<ParameterView> {
    v.map_values(|p: Parameter| p@)
}

/// The mapped views of a condition vector.
pub open spec fn conds_view(v: Seq<Condition>) -> Seq<ConditionView> {
    v.map_values(|c: Condition| c@)
}

/// The mapped views of an exchange vector.
pub open spec fn nodes_view(v: Seq<ApiNode>) -> Seq<ApiNodeView> {
    v.map_values(|n: ApiNode| n@)
}

/// The mapped views of a part vector.
pub open spec fn parts_view(v: Seq<SourceUnitPart>) -> Seq<SourceUnitPartView> {
    v.map_values(|p: SourceUnitPart| p@)
}

/// Error positions as mathematical integers.
pub open spec fn errs_view(v: Seq<usize>) -> Seq<int> {
    v.map_values(|u: usize| u as int)
}

/// Whether the token at `i` is the given punctuation or keyword test:
/// these small readers connect the token vector to its kind sequence.
fn at_colon(toks: &Vec<Token>, i: usize) -> (r: bool)
    requires
        i < toks@.len(),
    ensures
        r == (kinds(toks@)[i as int] == TokenView::Colon),
{
    match &toks[i].kind {
        TokenKind::Colon => true,
        _ => false,
    }
}

/// Whether the token at `i` is a comma.
fn at_comma(toks: &Vec<Token>, i: usize) -> (r: bool)
    requires
        i < toks@.len(),
    ensures
        r == (kinds(toks@)[i as int] == TokenView::Comma),
{
    match &toks[i].kind {
        TokenKind::Comma => true,
        _ => false,
    }
}

/// Whether the token at `i` is an opening brace.
fn at_lbrace(toks: &Vec<Token>, i: usize) -> (r: bool)
    requires
        i < toks@.len(),
    ensures
        r == (kinds(toks@)[i as int] == TokenView::LBrace),
{
    match &toks[i].kind {
        TokenKind::LBrace => true,
        _ => false,
    }
}

/// Whether the token at `i` is a closing brace.
fn at_rbrace(toks: &Vec<Token>, i: usize) -> (r: bool)
    requires
        i < toks@.len(),
    ensures
        r == (kinds(toks@)[i as int] == TokenView::RBrace),
{
    match &toks[i].kind {
        TokenKind::RBrace => true,
        _ => false,
    }
}

/// Whether the token at `i` is an opening parenthesis.
fn at_lparen(toks: &Vec<Token>, i: usize) -> (r: bool)
    requires
        i < toks@.len(),
    ensures
        r == (kinds(toks@)[i as int] == TokenView::LParen),
{
    match &toks[i].kind {
        TokenKind::LParen => true,
        _ => false,
    }
}

/// Whether the token at `i` is a closing parenthesis.
fn at_rparen(toks: &Vec<Token>, i: usize) -> (r: bool)
    requires
        i < toks@.len(),
    ensures
        r == (kinds(toks@)[i as int] == TokenView::RParen),
{
    match &toks[i].kind {
        TokenKind::RParen => true,
        _ => false,
    }
}

/// Whether the token at `i` is the given keyword.
fn at_kw(toks: &Vec<Token>, i: usize, k: Keyword) -> (r: bool)
    requires
        i < toks@.len(),
    ensures
        r == (kinds(toks@)[i as int] == TokenView::Keyword(k)),
{
    match &toks[i].kind {
        TokenKind::Keyword(k2) => *k2 == k,
        _ => false,
    }
}

/// Whether the token at `i` is an identifier.
fn at_ident(toks: &Vec<Token>, i: usize) -> (r: bool)
    requires
        i < toks@.len(),
    ensures
        r == (kinds(toks@)[i as int] is Identifier),
{
    match &toks[i].kind {
        TokenKind::Identifier(_) => true,
        _ => false,
    }
}

/// The identifier text of the token at `i`.
fn get_ident(toks: &Vec<Token>, i: usize) -> (r: String)
    requires
        i < toks@.len(),
        kinds(toks@)[i as int] is Identifier,
    ensures
        r@ == kinds(toks@)[i as int]->Identifier_0,
{
    match &toks[i].kind {
        TokenKind::Identifier(s) => s.clone(),
        _ => String::new(),
    }
}

/// An identifier token, consumed; or the failure position.
fn p_id(toks: &Vec<Token>, i: usize) -> (r: Result<(String, usize), usize>)
    requires
        i <= toks@.len(),
    ensures
        match r {
            Result::Ok((v, n)) => parse_id(kinds(toks@), i as int) == Parsed::<Seq<char>>::Val(
                v@,
                n as int,
            ) && n <= toks@.len(),
            Result::Err(f) => parse_id(kinds(toks@), i as int) == Parsed::<Seq<char>>::Fail(
                f as int,
            ),
        },
{
    if i < toks.len() && at_ident(toks, i) {
        Result::Ok((get_ident(toks, i), i + 1))
    } else {
        Result::Err(i)
    }
}

/// A string-literal token, consumed; or the failure position.
fn p_string(toks: &Vec<Token>, i: usize) -> (r: Result<(String, usize), usize>)
    requires
        i <= toks@.len(),
    ensures
        match r {
            Result::Ok((v, n)) => parse_string(kinds(toks@), i as int) == Parsed::<Seq<char>>::Val(
                v@,
                n as int,
            ) && n <= toks@.len(),
            Result::Err(f) => parse_string(kinds(toks@), i as int) == Parsed::<Seq<char>>::Fail(
                f as int,
            ),
        },
{
    if i < toks.len() {
        match &toks[i].kind {
            TokenKind::StringLiteral(s) => Result::Ok((s.clone(), i + 1)),
            _ => Result::Err(i),
        }
    } else {
        Result::Err(i)
    }
}

/// The comma-separated identifiers after the first of an `extends` list.
fn p_id_tail(toks: &Vec<Token>, i: usize, acc: Vec<String>) -> (r: Result<
    (Vec<String>, usize),
    usize,
>)
    requires
        i <= toks@.len(),
        toks@.len() + 8 < usize::MAX,
    ensures
        match r {
            Result::Ok((v, n)) => parse_id_tail(kinds(toks@), i as int, strs_view(acc@))
                == Parsed::<Seq<Seq<char>>>::Val(strs_view(v@), n as int) && n <= toks@.len(),
            Result::Err(f) => parse_id_tail(kinds(toks@), i as int, strs_view(acc@))
                == Parsed::<Seq<Seq<char>>>::Fail(f as int),
        },
    decreases toks@.len() - i,
{
    if i + 1 < toks.len() && at_comma(toks, i) && at_ident(toks, i + 1) {
        let x = get_ident(toks, i + 1);
        let mut acc2 = acc;
        proof {
            assert(strs_view(acc2@.push(x)) =~= strs_view(acc2@).push(x@));
        }
        acc2.push(x);
        p_id_tail(toks, i + 2, acc2)
    } else if i < toks.len() && at_comma(toks, i) {
        Result::Err(i + 1)
    } else {
        Result::Ok((acc, i))
    }
}

/// A non-empty comma-separated identifier list.
fn p_id_list(toks: &Vec<Token>, i: usize) -> (r: Result<(Vec<String>, usize), usize>)
    requires
        i <= toks@.len(),
        toks@.len() + 8 < usize::MAX,
    ensures
        match r {
            Result::Ok((v, n)) => parse_id_list(kinds(toks@), i as int)
                == Parsed::<Seq<Seq<char>>>::Val(strs_view(v@), n as int) && n <= toks@.len(),
            Result::Err(f) => parse_id_list(kinds(toks@), i as int)
                == Parsed::<Seq<Seq<char>>>::Fail(f as int),
        },
{
    match p_id(toks, i) {
        Result::Err(f) => Result::Err(f),
        Result::Ok((x, j)) => {
            let mut acc: Vec<String> = Vec::new();
            proof {
                assert(strs_view(acc@.push(x)) =~= seq![x@]);
            }
            acc.push(x);
            p_id_tail(toks, j, acc)
        },
    }
}

/// The parameter list of a behavior, after the opening parenthesis.
fn p_params(toks: &Vec<Token>, i: usize, acc: Vec<Parameter>) -> (r: Result<
    (Vec<Parameter>, usize),
    usize,
>)
    requires
        i <= toks@.len(),
        toks@.len() + 8 < usize::MAX,
    ensures
        match r {
            Result::Ok((v, n)) => parse_params(kinds(toks@), i as int, params_view(acc@))
                == Parsed::<Seq<ParameterView>>::Val(params_view(v@), n as int) && n
                <= toks@.len(),
            Result::Err(f) => parse_params(kinds(toks@), i as int, params_view(acc@))
                == Parsed::<Seq<ParameterView>>::Fail(f as int),
        },
    decreases toks@.len() - i,
{
    if i < toks.len() && at_rparen(toks, i) {
        Result::Ok((acc, i + 1))
    } else if i + 2 < toks.len() && at_ident(toks, i) && at_colon(toks, i + 1) && at_ident(
        toks,
        i + 2,
    ) {
        let p = Parameter {
            identifier: get_ident(toks, i),
            specifier: TypeSpecifier::from(get_ident(toks, i + 2)),
        };
        let mut acc2 = acc;
        proof {
            assert(params_view(acc2@.push(p)) =~= params_view(acc2@).push(p@));
        }
        acc2.push(p);
        if i + 3 < toks.len() && at_comma(toks, i + 3) {
            p_params(toks, i + 4, acc2)
        } else if i + 3 < toks.len() && at_rparen(toks, i + 3) {
            Result::Ok((acc2, i + 4))
        } else {
            Result::Err(i + 3)
        }
    } else {
        Result::Err(i)
    }
}

/// The members of a concept body.
fn p_members(toks: &Vec<Token>, i: usize, structs: Vec<StructField>, behaviors: Vec<Interface>)
    -> (r: Result<(Vec<StructField>, Vec<Interface>, usize), usize>)
    requires
        i <= toks@.len(),
        toks@.len() + 8 < usize::MAX,
    ensures
        match r {
            Result::Ok((sv, bv, n)) => parse_members(
                kinds(toks@),
                i as int,
                fields_view(structs@),
                ifaces_view(behaviors@),
            ) == Parsed::<(Seq<StructFieldView>, Seq<InterfaceView>)>::Val(
                (fields_view(sv@), ifaces_view(bv@)),
                n as int,
            ) && n <= toks@.len(),
            Result::Err(f) => parse_members(
                kinds(toks@),
                i as int,
                fields_view(structs@),
                ifaces_view(behaviors@),
            ) == Parsed::<(Seq<StructFieldView>, Seq<InterfaceView>)>::Fail(f as int),
        },
    decreases toks@.len() - i,
{
    if i < toks.len() && at_rbrace(toks, i) {
        Result::Ok((structs, behaviors, i + 1))
    } else if i < toks.len() && at_ident(toks, i) {
        if i + 1 < toks.len() && at_colon(toks, i + 1) {
            if i + 2 < toks.len() && at_ident(toks, i + 2) {
                let f = StructField {
                    identifier: get_ident(toks, i),
                    declarator: TypeSpecifier::from(get_ident(toks, i + 2)),
                };
                let mut structs2 = structs;
                proof {
                    assert(fields_view(structs2@.push(f)) =~= fields_view(structs2@).push(f@));
                }
                structs2.push(f);
                p_members(toks, i + 3, structs2, behaviors)
            } else {
                Result::Err(i + 2)
            }
        } else if i + 1 < toks.len() && at_lparen(toks, i + 1) {
            match p_params(toks, i + 2, Vec::new()) {
                Result::Err(f) => {
                    proof {
                        assert(params_view(Seq::<Parameter>::empty())
                            =~= Seq::<ParameterView>::empty());
                    }
                    Result::Err(f)
                },
                Result::Ok((ps, k)) => {
                    proof {
                        assert(params_view(Seq::<Parameter>::empty())
                            =~= Seq::<ParameterView>::empty());
                        lemma_parse_params_progress(kinds(toks@), i as int + 2, Seq::empty());
                    }
                    let name = get_ident(toks, i);
                    if k + 1 < toks.len() && at_colon(toks, k) && at_ident(toks, k + 1) {
                        let b = Interface {
                            identifier: name,
                            params: ps,
                            return_type: TypeSpecifier::from(get_ident(toks, k + 1)),
                        };
                        let mut behaviors2 = behaviors;
                        proof {
                            assert(ifaces_view(behaviors2@.push(b)) =~= ifaces_view(
                                behaviors2@,
                            ).push(b@));
                        }
                        behaviors2.push(b);
                        p_members(toks, k + 2, structs, behaviors2)
                    } else if k < toks.len() && at_colon(toks, k) {
                        Result::Err(k + 1)
                    } else {
                        let b = Interface {
                            identifier: name,
                            params: ps,
                            return_type: TypeSpecifier::NoType,
                        };
                        let mut behaviors2 = behaviors;
                        proof {
                            assert(ifaces_view(behaviors2@.push(b)) =~= ifaces_view(
                                behaviors2@,
                            ).push(b@));
                        }
                        behaviors2.push(b);
                        p_members(toks, k, structs, behaviors2)
                    }
                },
            }
        } else {
            Result::Err(i + 1)
        }
    } else {
        Result::Err(i)
    }
}

/// The method signatures of a behavior-for body.
fn p_methods(toks: &Vec<Token>, i: usize, acc: Vec<Interface>) -> (r: Result<
    (Vec<Interface>, usize),
    usize,
>)
    requires
        i <= toks@.len(),
        toks@.len() + 8 < usize::MAX,
    ensures
        match r {
            Result::Ok((v, n)) => parse_methods(kinds(toks@), i as int, ifaces_view(acc@))
                == Parsed::<Seq<InterfaceView>>::Val(ifaces_view(v@), n as int) && n
                <= toks@.len(),
            Result::Err(f) => parse_methods(kinds(toks@), i as int, ifaces_view(acc@))
                == Parsed::<Seq<InterfaceView>>::Fail(f as int),
        },
    decreases toks@.len() - i,
{
    if i < toks.len() && at_rbrace(toks, i) {
        Result::Ok((acc, i + 1))
    } else if i < toks.len() && at_ident(toks, i) && i + 1 < toks.len() && at_lparen(toks, i + 1) {
        match p_params(toks, i + 2, Vec::new()) {
            Result::Err(f) => {
                proof {
                    assert(params_view(Seq::<Parameter>::empty())
                        =~= Seq::<ParameterView>::empty());
                }
                Result::Err(f)
            },
            Result::Ok((ps, k)) => {
                proof {
                    assert(params_view(Seq::<Parameter>::empty())
                        =~= Seq::<ParameterView>::empty());
                    lemma_parse_params_progress(kinds(toks@), i as int + 2, Seq::empty());
                }
                let name = get_ident(toks, i);
                if k + 1 < toks.len() && at_colon(toks, k) && at_ident(toks, k + 1) {
                    let b = Interface {
                        identifier: name,
                        params: ps,
                        return_type: TypeSpecifier::from(get_ident(toks, k + 1)),
                    };
                    let mut acc2 = acc;
                    proof {
                        assert(ifaces_view(acc2@.push(b)) =~= ifaces_view(acc2@).push(b@));
                    }
                    acc2.push(b);
                    p_methods(toks, k + 2, acc2)
                } else if k < toks.len() && at_colon(toks, k) {
                    Result::Err(k + 1)
                } else {
                    let b = Interface {
                        identifier: name,
                        params: ps,
                        return_type: TypeSpecifier::NoType,
                    };
                    let mut acc2 = acc;
                    proof {
                        assert(ifaces_view(acc2@.push(b)) =~= ifaces_view(acc2@).push(b@));
                    }
                    acc2.push(b);
                    p_methods(toks, k, acc2)
                }
            },
        }
    } else if i < toks.len() && at_ident(toks, i) {
        Result::Err(i + 1)
    } else {
        Result::Err(i)
    }
}

/// Typed fields up to and past the closing brace.
fn p_fields(toks: &Vec<Token>, i: usize, acc: Vec<StructField>) -> (r: Result<
    (Vec<StructField>, usize),
    usize,
>)
    requires
        i <= toks@.len(),
        toks@.len() + 8 < usize::MAX,
    ensures
        match r {
            Result::Ok((v, n)) => parse_fields(kinds(toks@), i as int, fields_view(acc@))
                == Parsed::<Seq<StructFieldView>>::Val(fields_view(v@), n as int) && n
                <= toks@.len(),
            Result::Err(f) => parse_fields(kinds(toks@), i as int, fields_view(acc@))
                == Parsed::<Seq<StructFieldView>>::Fail(f as int),
        },
    decreases toks@.len() - i,
{
    if i < toks.len() && at_rbrace(toks, i) {
        Result::Ok((acc, i + 1))
    } else if i + 2 < toks.len() && at_ident(toks, i) && at_colon(toks, i + 1) && at_ident(
        toks,
        i + 2,
    ) {
        let f = StructField {
            identifier: get_ident(toks, i),
            declarator: TypeSpecifier::from(get_ident(toks, i + 2)),
        };
        let mut acc2 = acc;
        proof {
            assert(fields_view(acc2@.push(f)) =~= fields_view(acc2@).push(f@));
        }
        acc2.push(f);
        p_fields(toks, i + 3, acc2)
    } else {
        Result::Err(i)
    }
}

/// Conditions up to and past the closing brace.
fn p_conditions(toks: &Vec<Token>, i: usize, acc: Vec<Condition>) -> (r: Result<
    (Vec<Condition>, usize),
    usize,
>)
    requires
        i <= toks@.len(),
        toks@.len() + 8 < usize::MAX,
    ensures
        match r {
            Result::Ok((v, n)) => parse_conditions(kinds(toks@), i as int, conds_view(acc@))
                == Parsed::<Seq<ConditionView>>::Val(conds_view(v@), n as int) && n
                <= toks@.len(),
            Result::Err(f) => parse_conditions(kinds(toks@), i as int, conds_view(acc@))
                == Parsed::<Seq<ConditionView>>::Fail(f as int),
        },
    decreases toks@.len() - i,
{
    if i < toks.len() && at_rbrace(toks, i) {
        Result::Ok((acc, i + 1))
    } else if i < toks.len() {
        match &toks[i].kind {
            TokenKind::StringLiteral(s) => {
                let c = Condition { text: s.clone(), expr: Expression::String(s.clone()) };
                let mut acc2 = acc;
                proof {
                    assert(conds_view(acc2@.push(c)) =~= conds_view(acc2@).push(c@));
                }
                acc2.push(c);
                p_conditions(toks, i + 1, acc2)
            },
            _ => Result::Err(i),
        }
    } else {
        Result::Err(i)
    }
}

/// A concept, after its keyword (and doc comment, if any).
fn p_concept(toks: &Vec<Token>, i: usize, desc: String) -> (r: Result<(ConceptUnit, usize), usize>)
    requires
        i <= toks@.len(),
        toks@.len() + 8 < usize::MAX,
    ensures
        match r {
            Result::Ok((c, n)) => parse_concept(kinds(toks@), i as int, desc@)
                == Parsed::<ConceptUnitView>::Val(c@, n as int) && n <= toks@.len(),
            Result::Err(f) => parse_concept(kinds(toks@), i as int, desc@)
                == Parsed::<ConceptUnitView>::Fail(f as int),
        },
{
    match p_id(toks, i) {
        Result::Err(f) => Result::Err(f),
        Result::Ok((id, j)) => {
            let ext = if j < toks.len() && at_kw(toks, j, Keyword::Extends) {
                p_id_list(toks, j + 1)
            } else {
                proof {
                    assert(strs_view(Seq::<String>::empty()) =~= Seq::<Seq<char>>::empty());
                }
                Result::Ok((Vec::new(), j))
            };
            match ext {
                Result::Err(f) => Result::Err(f),
                Result::Ok((exts, k)) => {
                    if k < toks.len() && at_lbrace(toks, k) {
                        proof {
                            assert(fields_view(Seq::<StructField>::empty())
                                =~= Seq::<StructFieldView>::empty());
                            assert(ifaces_view(Seq::<Interface>::empty())
                                =~= Seq::<InterfaceView>::empty());
                        }
                        match p_members(toks, k + 1, Vec::new(), Vec::new()) {
                            Result::Err(f) => Result::Err(f),
                            Result::Ok((ss, bs, m)) => {
                                let c = ConceptUnit {
                                    description: desc,
                                    identifier: id,
                                    extends: exts,
                                    structs: ss,
                                    behaviors: bs,
                                    struct_source: StructSource::default(),
                                };
                                Result::Ok((c, m))
                            },
                        }
                    } else {
                        Result::Err(k)
                    }
                },
            }
        },
    }
}

/// A contract's pre/post blocks.
fn p_blocks(toks: &Vec<Token>, i: usize, pre: Vec<Condition>, post: Vec<Condition>) -> (r: Result<
    (Vec<Condition>, Vec<Condition>, usize),
    usize,
>)
    requires
        i <= toks@.len(),
        toks@.len() + 8 < usize::MAX,
    ensures
        match r {
            Result::Ok((pv, qv, n)) => parse_blocks(
                kinds(toks@),
                i as int,
                conds_view(pre@),
                conds_view(post@),
            ) == Parsed::<(Seq<ConditionView>, Seq<ConditionView>)>::Val(
                (conds_view(pv@), conds_view(qv@)),
                n as int,
            ) && n <= toks@.len(),
            Result::Err(f) => parse_blocks(
                kinds(toks@),
                i as int,
                conds_view(pre@),
                conds_view(post@),
            ) == Parsed::<(Seq<ConditionView>, Seq<ConditionView>)>::Fail(f as int),
        },
    decreases toks@.len() - i,
{
    if i < toks.len() && at_rbrace(toks, i) {
        Result::Ok((pre, post, i + 1))
    } else if i + 1 < toks.len() && at_kw(toks, i, Keyword::Pre) && at_lbrace(toks, i + 1) {
        proof {
            assert(conds_view(Seq::<Condition>::empty()) =~= Seq::<ConditionView>::empty());
        }
        match p_conditions(toks, i + 2, Vec::new()) {
            Result::Err(f) => Result::Err(f),
            Result::Ok((cs, j)) => {
                let mut pre2 = pre;
                proof {
                    lemma_parse_conditions_progress(kinds(toks@), i as int + 2, Seq::empty());
                    assert(conds_view(pre2@ + cs@) =~= conds_view(pre2@) + conds_view(cs@));
                }
                let mut cs2 = cs;
                pre2.append(&mut cs2);
                p_blocks(toks, j, pre2, post)
            },
        }
    } else if i + 1 < toks.len() && at_kw(toks, i, Keyword::Post) && at_lbrace(toks, i + 1) {
        proof {
            assert(conds_view(Seq::<Condition>::empty()) =~= Seq::<ConditionView>::empty());
        }
        match p_conditions(toks, i + 2, Vec::new()) {
            Result::Err(f) => Result::Err(f),
            Result::Ok((cs, j)) => {
                let mut post2 = post;
                proof {
                    lemma_parse_conditions_progress(kinds(toks@), i as int + 2, Seq::empty());
                    assert(conds_view(post2@ + cs@) =~= conds_view(post2@) + conds_view(cs@));
                }
                let mut cs2 = cs;
                post2.append(&mut cs2);
                p_blocks(toks, j, pre, post2)
            },
        }
    } else {
        Result::Err(i)
    }
}

/// A contract, after its keyword.
fn p_contract(toks: &Vec<Token>, i: usize) -> (r: Result<(ContractUnit, usize), usize>)
    requires
        i <= toks@.len(),
        toks@.len() + 8 < usize::MAX,
    ensures
        match r {
            Result::Ok((c, n)) => parse_contract(kinds(toks@), i as int)
                == Parsed::<ContractUnitView>::Val(c@, n as int) && n <= toks@.len(),
            Result::Err(f) => parse_contract(kinds(toks@), i as int)
                == Parsed::<ContractUnitView>::Fail(f as int),
        },
{
    match p_id(toks, i) {
        Result::Err(f) => Result::Err(f),
        Result::Ok((id, j)) => {
            if j < toks.len() && at_kw(toks, j, Keyword::During) {
                match p_string(toks, j + 1) {
                    Result::Err(f) => Result::Err(f),
                    Result::Ok((during, k)) => {
                        if k < toks.len() && at_lbrace(toks, k) {
                            proof {
                                assert(conds_view(Seq::<Condition>::empty())
                                    =~= Seq::<ConditionView>::empty());
                            }
                            match p_blocks(toks, k + 1, Vec::new(), Vec::new()) {
                                Result::Err(f) => Result::Err(f),
                                Result::Ok((pre, post, m)) => {
                                    let c = ContractUnit {
                                        identifier: id,
                                        during,
                                        pre_condition: pre,
                                        post_condition: post,
                                    };
                                    Result::Ok((c, m))
                                },
                            }
                        } else {
                            Result::Err(k)
                        }
                    },
                }
            } else {
                Result::Err(j)
            }
        },
    }
}

/// The exchanges of an API unit.
fn p_api_nodes(toks: &Vec<Token>, i: usize, acc: Vec<ApiNode>) -> (r: Result<
    (Vec<ApiNode>, usize),
    usize,
>)
    requires
        i <= toks@.len(),
        toks@.len() + 8 < usize::MAX,
    ensures
        match r {
            Result::Ok((v, n)) => parse_api_nodes(kinds(toks@), i as int, nodes_view(acc@))
                == Parsed::<Seq<ApiNodeView>>::Val(nodes_view(v@), n as int) && n <= toks@.len(),
            Result::Err(f) => parse_api_nodes(kinds(toks@), i as int, nodes_view(acc@))
                == Parsed::<Seq<ApiNodeView>>::Fail(f as int),
        },
    decreases toks@.len() - i,
{
    proof {
        assert(fields_view(Seq::<StructField>::empty()) =~= Seq::<StructFieldView>::empty());
        assert(conds_view(Seq::<Condition>::empty()) =~= Seq::<ConditionView>::empty());
    }
    if i < toks.len() && at_rbrace(toks, i) {
        Result::Ok((acc, i + 1))
    } else if i + 1 < toks.len() && at_kw(toks, i, Keyword::Inbound) && at_lbrace(toks, i + 1) {
        match p_fields(toks, i + 2, Vec::new()) {
            Result::Err(f) => Result::Err(f),
            Result::Ok((inb, j)) => {
                proof {
                    lemma_parse_fields_progress(kinds(toks@), i as int + 2, Seq::empty());
                }
                if j + 1 < toks.len() && at_kw(toks, j, Keyword::Outbound) && at_lbrace(
                    toks,
                    j + 1,
                ) {
                    match p_fields(toks, j + 2, Vec::new()) {
                        Result::Err(f) => Result::Err(f),
                        Result::Ok((outb, k)) => {
                            proof {
                                lemma_parse_fields_progress(kinds(toks@), j as int + 2, Seq::empty());
                                lemma_parse_conditions_progress(kinds(toks@), k as int + 2, Seq::empty());
                            }
                            let pre = if k + 1 < toks.len() && at_kw(toks, k, Keyword::Pre)
                                && at_lbrace(toks, k + 1) {
                                p_conditions(toks, k + 2, Vec::new())
                            } else {
                                Result::Ok((Vec::new(), k))
                            };
                            match pre {
                                Result::Err(f) => Result::Err(f),
                                Result::Ok((pre_cs, m)) => {
                                    proof {
                                        lemma_parse_conditions_progress(kinds(toks@), m as int + 2, Seq::empty());
                                    }
                                    let post = if m + 1 < toks.len() && at_kw(
                                        toks,
                                        m,
                                        Keyword::Post,
                                    ) && at_lbrace(toks, m + 1) {
                                        p_conditions(toks, m + 2, Vec::new())
                                    } else {
                                        Result::Ok((Vec::new(), m))
                                    };
                                    match post {
                                        Result::Err(f) => Result::Err(f),
                                        Result::Ok((post_cs, p)) => {
                                            let node = ApiNode {
                                                inbound: inb,
                                                outbound: outb,
                                                pre_cond: pre_cs,
                                                post_cond: post_cs,
                                            };
                                            let mut acc2 = acc;
                                            proof {
                                                assert(nodes_view(acc2@.push(node))
                                                    =~= nodes_view(acc2@).push(node@));
                                            }
                                            acc2.push(node);
                                            p_api_nodes(toks, p, acc2)
                                        },
                                    }
                                },
                            }
                        },
                    }
                } else {
                    Result::Err(j)
                }
            },
        }
    } else {
        Result::Err(i)
    }
}

/// An API unit, after its keyword.
fn p_api(toks: &Vec<Token>, i: usize) -> (r: Result<(ApiUnit, usize), usize>)
    requires
        i <= toks@.len(),
        toks@.len() + 8 < usize::MAX,
    ensures
        match r {
            Result::Ok((a, n)) => parse_api(kinds(toks@), i as int) == Parsed::<ApiUnitView>::Val(
                a@,
                n as int,
            ) && n <= toks@.len(),
            Result::Err(f) => parse_api(kinds(toks@), i as int) == Parsed::<ApiUnitView>::Fail(
                f as int,
            ),
        },
{
    match p_id(toks, i) {
        Result::Err(f) => Result::Err(f),
        Result::Ok((name, j)) => {
            let imp = if j < toks.len() && at_kw(toks, j, Keyword::Import) {
                match p_string(toks, j + 1) {
                    Result::Err(f) => Result::Err(f),
                    Result::Ok((p, k)) => Result::Ok((Option::Some(p), k)),
                }
            } else {
                Result::Ok((Option::None, j))
            };
            match imp {
                Result::Err(f) => Result::Err(f),
                Result::Ok((import, k)) => {
                    if k < toks.len() && at_lbrace(toks, k) {
                        proof {
                            assert(nodes_view(Seq::<ApiNode>::empty())
                                =~= Seq::<ApiNodeView>::empty());
                        }
                        match p_api_nodes(toks, k + 1, Vec::new()) {
                            Result::Err(f) => Result::Err(f),
                            Result::Ok((nodes, m)) => {
                                let a = ApiUnit { name, import, apis: nodes };
                                Result::Ok((a, m))
                            },
                        }
                    } else {
                        Result::Err(k)
                    }
                },
            }
        },
    }
}

/// The identifier list of a concept space.
fn p_space_ids(toks: &Vec<Token>, i: usize, acc: Vec<String>) -> (r: Result<
    (Vec<String>, usize),
    usize,
>)
    requires
        i <= toks@.len(),
        toks@.len() + 8 < usize::MAX,
    ensures
        match r {
            Result::Ok((v, n)) => parse_space_ids(kinds(toks@), i as int, strs_view(acc@))
                == Parsed::<Seq<Seq<char>>>::Val(strs_view(v@), n as int) && n <= toks@.len(),
            Result::Err(f) => parse_space_ids(kinds(toks@), i as int, strs_view(acc@))
                == Parsed::<Seq<Seq<char>>>::Fail(f as int),
        },
    decreases toks@.len() - i,
{
    if i < toks.len() && at_rbrace(toks, i) {
        Result::Ok((acc, i + 1))
    } else if i < toks.len() && at_ident(toks, i) {
        let x = get_ident(toks, i);
        let mut acc2 = acc;
        proof {
            assert(strs_view(acc2@.push(x)) =~= strs_view(acc2@).push(x@));
        }
        acc2.push(x);
        if i + 1 < toks.len() && at_comma(toks, i + 1) {
            p_space_ids(toks, i + 2, acc2)
        } else if i + 1 < toks.len() && at_rbrace(toks, i + 1) {
            Result::Ok((acc2, i + 2))
        } else {
            Result::Err(i + 1)
        }
    } else {
        Result::Err(i)
    }
}

/// A concept space, after its keyword.
fn p_space(toks: &Vec<Token>, i: usize) -> (r: Result<(ConceptSpace, usize), usize>)
    requires
        i <= toks@.len(),
        toks@.len() + 8 < usize::MAX,
    ensures
        match r {
            Result::Ok((s, n)) => parse_space(kinds(toks@), i as int)
                == Parsed::<ConceptSpaceView>::Val(s@, n as int) && n <= toks@.len(),
            Result::Err(f) => parse_space(kinds(toks@), i as int)
                == Parsed::<ConceptSpaceView>::Fail(f as int),
        },
{
    match p_id(toks, i) {
        Result::Err(f) => Result::Err(f),
        Result::Ok((id, j)) => {
            if j < toks.len() && at_kw(toks, j, Keyword::Package) {
                match p_string(toks, j + 1) {
                    Result::Err(f) => Result::Err(f),
                    Result::Ok((pkg, k)) => {
                        if k < toks.len() && at_lbrace(toks, k) {
                            proof {
                                assert(strs_view(Seq::<String>::empty())
                                    =~= Seq::<Seq<char>>::empty());
                            }
                            match p_space_ids(toks, k + 1, Vec::new()) {
                                Result::Err(f) => Result::Err(f),
                                Result::Ok((ids, m)) => {
                                    let s = ConceptSpace {
                                        identifier: id,
                                        package: pkg,
                                        concepts: ids,
                                    };
                                    Result::Ok((s, m))
                                },
                            }
                        } else {
                            Result::Err(k)
                        }
                    },
                }
            } else {
                Result::Err(j)
            }
        },
    }
}

/// A cataloging hint, after its keyword.
fn p_by(toks: &Vec<Token>, i: usize) -> (r: Result<(ConceptBy, usize), usize>)
    requires
        i <= toks@.len(),
        toks@.len() + 8 < usize::MAX,
    ensures
        match r {
            Result::Ok((b, n)) => parse_by(kinds(toks@), i as int) == Parsed::<ConceptByView>::Val(
                b@,
                n as int,
            ) && n <= toks@.len(),
            Result::Err(f) => parse_by(kinds(toks@), i as int) == Parsed::<ConceptByView>::Fail(
                f as int,
            ),
        },
{
    match p_id(toks, i) {
        Result::Err(f) => Result::Err(f),
        Result::Ok((mode, j)) => {
            match p_string(toks, j) {
                Result::Err(f) => Result::Err(f),
                Result::Ok((path, k)) => {
                    let b = ConceptBy { cataloging: Cataloging::from(mode), path };
                    Result::Ok((b, k))
                },
            }
        },
    }
}

/// A struct-for declaration, after its keyword.
fn p_structfor(toks: &Vec<Token>, i: usize) -> (r: Result<(StructFor, usize), usize>)
    requires
        i <= toks@.len(),
        toks@.len() + 8 < usize::MAX,
    ensures
        match r {
            Result::Ok((sf, n)) => parse_structfor(kinds(toks@), i as int)
                == Parsed::<StructForView>::Val(sf@, n as int) && n <= toks@.len(),
            Result::Err(f) => parse_structfor(kinds(toks@), i as int)
                == Parsed::<StructForView>::Fail(f as int),
        },
{
    match p_id(toks, i) {
        Result::Err(f) => Result::Err(f),
        Result::Ok((id, j)) => {
            if j < toks.len() && at_lbrace(toks, j) {
                proof {
                    assert(fields_view(Seq::<StructField>::empty())
                        =~= Seq::<StructFieldView>::empty());
                }
                match p_fields(toks, j + 1, Vec::new()) {
                    Result::Err(f) => Result::Err(f),
                    Result::Ok((fs, m)) => {
                        Result::Ok((StructFor { identifier: id, declarations: fs }, m))
                    },
                }
            } else {
                Result::Err(j)
            }
        },
    }
}

/// A behavior-for declaration, after its keyword.
fn p_behaviorfor(toks: &Vec<Token>, i: usize) -> (r: Result<(BehaviorFor, usize), usize>)
    requires
        i <= toks@.len(),
        toks@.len() + 8 < usize::MAX,
    ensures
        match r {
            Result::Ok((b, n)) => parse_behaviorfor(kinds(toks@), i as int)
                == Parsed::<BehaviorForView>::Val(b@, n as int) && n <= toks@.len(),
            Result::Err(f) => parse_behaviorfor(kinds(toks@), i as int)
                == Parsed::<BehaviorForView>::Fail(f as int),
        },
{
    match p_id(toks, i) {
        Result::Err(f) => Result::Err(f),
        Result::Ok((id, j)) => {
            if j < toks.len() && at_lbrace(toks, j) {
                proof {
                    assert(ifaces_view(Seq::<Interface>::empty())
                        =~= Seq::<InterfaceView>::empty());
                }
                match p_methods(toks, j + 1, Vec::new()) {
                    Result::Err(f) => Result::Err(f),
                    Result::Ok((ms, m)) => {
                        Result::Ok((BehaviorFor::make(id, ms), m))
                    },
                }
            } else {
                Result::Err(j)
            }
        },
    }
}

/// The next recovery point at or after `i`, computed.
fn p_next_top(toks: &Vec<Token>, i: usize) -> (r: usize)
    requires
        toks@.len() + 8 < usize::MAX,
    ensures
        r as int == next_top(kinds(toks@), i as int),
        r <= toks@.len(),
    decreases toks@.len() - i,
{
    if i < toks.len() {
        let top = at_kw(toks, i, Keyword::Architecture) || at_kw(toks, i, Keyword::Concept)
            || at_kw(toks, i, Keyword::Contract) || at_kw(toks, i, Keyword::Api) || at_kw(
            toks,
            i,
            Keyword::By,
        ) || at_kw(toks, i, Keyword::Structfor) || at_kw(toks, i, Keyword::Behaviorfor) || at_kw(
            toks,
            i,
            Keyword::Conceptspace,
        );
        if top {
            i
        } else {
            p_next_top(toks, i + 1)
        }
    } else {
        toks.len()
    }
}

/// The position a diagnostic at error index `idx` points to: the token
/// there, the last token when the stream ended early, or line 1, column 1
/// of an empty stream.
pub open spec fn locate_spec(toks: Seq<Token>, idx: int) -> (int, int) {
    if 0 <= idx < toks.len() {
        (toks[idx].line as int, toks[idx].col as int)
    } else if toks.len() > 0 {
        (toks[toks.len() - 1].line as int, toks[toks.len() - 1].col as int)
    } else {
        (1, 1)
    }
}

/// The position a diagnostic at error index `idx` points to, computed.
fn locate(toks: &Vec<Token>, idx: usize) -> (r: (usize, usize))
    ensures
        (r.0 as int, r.1 as int) == locate_spec(toks@, idx as int),
{
    if idx < toks.len() {
        (toks[idx].line, toks[idx].col)
    } else if toks.len() > 0 {
        (toks[toks.len() - 1].line, toks[toks.len() - 1].col)
    } else {
        (1, 1)
    }
}

/// What one executable dispatch step produced: a part, a skip, or a
/// failure position.
enum Outcome {
    Made(SourceUnitPart, usize),
    Skipped(usize),
    Failed(usize),
}

/// The top-level loop: repeats one dispatch step, collecting parts and
/// error positions.
fn p_units(toks: &Vec<Token>, start: usize, parts0: Vec<SourceUnitPart>, errs0: Vec<usize>) -> (r:
    (Vec<SourceUnitPart>, Vec<usize>))
    requires
        start <= toks@.len(),
        toks@.len() + 8 < usize::MAX,
    ensures
        parse_units(kinds(toks@), start as int, parts_view(parts0@), errs_view(errs0@))
            == (ParseOut { parts: parts_view(r.0@), errs: errs_view(r.1@) }),
    decreases toks@.len() - start,
{
    let mut parts = parts0;
    let mut errs = errs0;
    let i = start;
    let n = toks.len();
    if i >= n {
        return (parts, errs);
    }
    let ghost ts = kinds(toks@);
    proof {
        assert(ts[i as int] == toks@[i as int]@);
    }
    let outcome: Outcome = match &toks[i].kind {
        TokenKind::DocComment(d) => {
            if i + 1 < n && at_kw(toks, i + 1, Keyword::Concept) {
                match p_concept(toks, i + 2, d.clone()) {
                    Result::Ok((c, m)) => Outcome::Made(SourceUnitPart::ConceptUnit(c), m),
                    Result::Err(f) => Outcome::Failed(f),
                }
            } else {
                Outcome::Skipped(i + 1)
            }
        },
        TokenKind::Keyword(Keyword::Architecture) => Outcome::Made(
            SourceUnitPart::Architecture(Architecture {}),
            i + 1,
        ),
        TokenKind::Keyword(Keyword::Concept) => {
            match p_concept(toks, i + 1, String::new()) {
                Result::Ok((c, m)) => Outcome::Made(SourceUnitPart::ConceptUnit(c), m),
                Result::Err(f) => Outcome::Failed(f),
            }
        },
        TokenKind::Keyword(Keyword::Contract) => {
            match p_contract(toks, i + 1) {
                Result::Ok((c, m)) => Outcome::Made(SourceUnitPart::ContractUnit(c), m),
                Result::Err(f) => Outcome::Failed(f),
            }
        },
        TokenKind::Keyword(Keyword::Api) => {
            match p_api(toks, i + 1) {
                Result::Ok((a, m)) => Outcome::Made(SourceUnitPart::ApiUnit(a), m),
                Result::Err(f) => Outcome::Failed(f),
            }
        },
        TokenKind::Keyword(Keyword::By) => {
            match p_by(toks, i + 1) {
                Result::Ok((b, m)) => Outcome::Made(SourceUnitPart::ConceptBy(b), m),
                Result::Err(f) => Outcome::Failed(f),
            }
        },
        TokenKind::Keyword(Keyword::Structfor) => {
            match p_structfor(toks, i + 1) {
                Result::Ok((sf, m)) => Outcome::Made(SourceUnitPart::StructFor(sf), m),
                Result::Err(f) => Outcome::Failed(f),
            }
        },
        TokenKind::Keyword(Keyword::Behaviorfor) => {
            match p_behaviorfor(toks, i + 1) {
                Result::Ok((b, m)) => Outcome::Made(SourceUnitPart::BehaviorFor(b), m),
                Result::Err(f) => Outcome::Failed(f),
            }
        },
        TokenKind::Keyword(Keyword::Conceptspace) => {
            match p_space(toks, i + 1) {
                Result::Ok((s, m)) => Outcome::Made(SourceUnitPart::ConceptSpace(s), m),
                Result::Err(f) => Outcome::Failed(f),
            }
        },
        _ => Outcome::Failed(i),
    };
    proof {
        lemma_top_step_progress(ts, i as int);
    }
    match outcome {
        Outcome::Made(p, m) => {
            proof {
                assert(top_step(ts, i as int) == TopStep::Part(p@, m as int));
                assert(parts_view(parts@.push(p)) =~= parts_view(parts@).push(p@));
            }
            parts.push(p);
            p_units(toks, m, parts, errs)
        },
        Outcome::Skipped(m) => {
            proof {
                assert(top_step(ts, i as int) == TopStep::Skip(m as int));
            }
            p_units(toks, m, parts, errs)
        },
        Outcome::Failed(f) => {
            let start2 = if f > i + 1 {
                f
            } else {
                i + 1
            };
            let m = p_next_top(toks, start2);
            proof {
                assert(top_step(ts, i as int) == TopStep::Recover(f as int, m as int));
                assert(errs_view(errs@.push(f)) =~= errs_view(errs@).push(f as int));
            }
            errs.push(f);
            p_units(toks, m, parts, errs)
        },
    }
}

/// The parser. Turns a token stream into a source unit and its syntax
/// diagnostics; the parts and the diagnostics are exactly what
/// [`parse_spec`] says of the stream's token kinds, each diagnostic
/// placed at the token where its production failed.
pub fn parse_tokens(toks: &Vec<Token>) -> (r: (SourceUnit, Vec<Diagnostic>))
    requires
        toks@.len() + 8 < usize::MAX,
    ensures
        r.0@.parts == parse_spec(kinds(toks@)).parts,
        r.1@.len() == parse_spec(kinds(toks@)).errs.len(),
        forall|k: int|
            0 <= k < r.1@.len() ==> #[trigger] r.1@[k]@ == diagnostic_view(
                DiagnosticKind::SyntaxError,
                locate_spec(toks@, parse_spec(kinds(toks@)).errs[k]).0,
                locate_spec(toks@, parse_spec(kinds(toks@)).errs[k]).1,
                Option::None,
            ),
{
    proof {
        assert(parts_view(Seq::<SourceUnitPart>::empty()) =~= Seq::<SourceUnitPartView>::empty());
        assert(errs_view(Seq::<usize>::empty()) =~= Seq::<int>::empty());
    }
    let (parts, errs) = p_units(toks, 0, Vec::new(), Vec::new());
    let ghost out = parse_spec(kinds(toks@));
    let mut diags: Vec<Diagnostic> = Vec::new();
    let mut k: usize = 0;
    while k < errs.len()
        invariant
            k <= errs@.len(),
            diags@.len() == k,
            out.errs == errs_view(errs@),
            forall|q: int|
                0 <= q < k ==> #[trigger] diags@[q]@ == diagnostic_view(
                    DiagnosticKind::SyntaxError,
                    locate_spec(toks@, out.errs[q]).0,
                    locate_spec(toks@, out.errs[q]).1,
                    Option::None,
                ),
        decreases errs@.len() - k,
    {
        let (line, col) = locate(toks, errs[k]);
        let d = make_diagnostic(DiagnosticKind::SyntaxError, line, col, Option::None);
        diags.push(d);
        k += 1;
    }
    let unit = SourceUnit(parts);
    proof {
        assert(unit@.parts =~= parts_view(parts@));
    }
    (unit, diags)
}

/// The token kinds of a specification-level token sequence, in order.
pub open spec fn spec_kinds(sts: Seq<SpecToken>) -> Seq<TokenView> {
    sts.map_values(|st: SpecToken| st.kind)
}

/// The position a diagnostic at error index `idx` points to, over the
/// specification-level tokens.
pub open spec fn locate_sts(sts: Seq<SpecToken>, idx: int) -> (int, int) {
    if 0 <= idx < sts.len() {
        (sts[idx].line, sts[idx].col)
    } else if sts.len() > 0 {
        (sts[sts.len() - 1].line, sts[sts.len() - 1].col)
    } else {
        (1, 1)
    }
}

/// The front door: lexes the text and parses the tokens. A lexical error
/// yields an empty unit and that one diagnostic; otherwise the unit's
/// parts and the syntax diagnostics are exactly what [`parse_spec`] says
/// of the lexed token kinds.
pub fn parse(text: &str) -> (r: (SourceUnit, Vec<Diagnostic>))
    requires
        text@.len() + 8 < usize::MAX,
    ensures
        match lex_spec(text@) {
            LexOut::Tokens(sts) => {
                let out = parse_spec(spec_kinds(sts));
                &&& r.0@.parts == out.parts
                &&& r.1@.len() == out.errs.len()
                &&& forall|k: int|
                    0 <= k < r.1@.len() ==> #[trigger] r.1@[k]@ == diagnostic_view(
                        DiagnosticKind::SyntaxError,
                        locate_sts(sts, out.errs[k]).0,
                        locate_sts(sts, out.errs[k]).1,
                        Option::None,
                    )
            },
            LexOut::Failure(kind, l, c) => {
                &&& r.0@.parts.len() == 0
                &&& r.1@.len() == 1
                &&& r.1@[0]@ == diagnostic_view(DiagnosticKind::LexError, l, c, Option::None)
            },
        },
{
    match tokenize(text) {
        Result::Err(e) => {
            let d = make_diagnostic(DiagnosticKind::LexError, e.line, e.col, Option::None);
            let mut diags: Vec<Diagnostic> = Vec::new();
            diags.push(d);
            let unit = SourceUnit(Vec::new());
            proof {
                assert(unit@.parts =~= Seq::<SourceUnitPartView>::empty());
            }
            (unit, diags)
        },
        Result::Ok(toks) => {
            proof {
                lemma_lex_count(text@, 0, 1, 1);
                assert(tokens_view(toks@).len() == toks@.len());
            }
            let r = parse_tokens(&toks);
            proof {
                let sts = tokens_view(toks@);
                assert(kinds(toks@) =~= spec_kinds(sts));
                assert forall|idx: int|
                    #[trigger] locate_sts(sts, idx) == locate_spec(toks@, idx) by {
                    assert(sts.len() == toks@.len());
                    if 0 <= idx < sts.len() {
                        assert(sts[idx].line == toks@[idx].line as int);
                    } else if sts.len() > 0 {
                        assert(sts[sts.len() - 1].line == toks@[toks@.len() - 1].line as int);
                    }
                }
            }
            r
        },
    }
}

/// The next recovery point never lies before where the search starts,
/// nor past the end of the stream.
proof fn lemma_next_top_bounds(ts: Seq<TokenView>, i: int)
    ensures
        next_top(ts, i) <= ts.len(),
        i <= ts.len() ==> next_top(ts, i) >= i,
    decreases ts.len() - i,
{
    if 0 <= i < ts.len() && !is_top_keyword(ts[i]) {
        lemma_next_top_bounds(ts, i + 1);
    }
}

/// Forward progress: at any position still inside the stream, one
/// top-level step always advances past at least one token, malformed
/// input included — the error-recovery skip can never loop.
pub proof fn lemma_top_step_progress(ts: Seq<TokenView>, i: int)
    requires
        0 <= i,
    ensures
        match top_step(ts, i) {
            TopStep::End => i >= ts.len(),
            TopStep::Skip(n) => i < n <= ts.len(),
            TopStep::Part(_, n) => i < n <= ts.len(),
            TopStep::Recover(_, n) => i < n <= ts.len(),
        },
{
    if i < ts.len() {
        lemma_constructs_progress(ts, i + 1, Seq::empty());
        lemma_constructs_progress(ts, i + 2, Seq::empty());
        if ts[i] is DocComment {
            lemma_constructs_progress(ts, i + 2, ts[i]->DocComment_0);
        }
        lemma_next_top_bounds(ts, i + 1);
        assert forall|f: int|
            i < #[trigger] next_top(ts, pos_max(f, i + 1)) <= ts.len() by {
            lemma_next_top_bounds(ts, pos_max(f, i + 1));
        }
    }
}

/// Error recovery: when the construct at `i` is malformed, the parser
/// reports exactly one syntax error for it (at the position `f` where its
/// production failed), resumes at the next recognized top-level keyword
/// strictly after `i`, and the remainder of the stream is parsed exactly
/// as it would be from that point — never discarded.
pub proof fn lemma_error_recovery(
    ts: Seq<TokenView>,
    i: int,
    parts: Seq<SourceUnitPartView>,
    errs: Seq<int>,
    f: int,
    n: int,
)
    requires
        0 <= i,
        top_step(ts, i) == TopStep::Recover(f, n),
    ensures
        i < n <= ts.len(),
        n == next_top(ts, pos_max(f, i + 1)),
        n < ts.len() ==> is_top_keyword(ts[n]),
        parse_units(ts, i, parts, errs) == parse_units(ts, n, parts, errs.push(f)),
{
    lemma_top_step_progress(ts, i);
    lemma_next_top_keyword(ts, pos_max(f, i + 1));
    assert(i < ts.len());
    if ts[i] is DocComment {
        assert(n == next_top(ts, pos_max(f, i + 1)));
    }
}

/// What the next-recovery-point search lands on, when it lands inside the
/// stream, is a top-level keyword.
proof fn lemma_next_top_keyword(ts: Seq<TokenView>, i: int)
    ensures
        next_top(ts, i) < ts.len() ==> is_top_keyword(ts[next_top(ts, i)]),
    decreases ts.len() - i,
{
    if 0 <= i < ts.len() && !is_top_keyword(ts[i]) {
        lemma_next_top_keyword(ts, i + 1);
    }
}

} // verus!
