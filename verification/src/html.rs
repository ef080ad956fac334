//! The pipeline's failure taxonomy and its driver loop: pull a token from
//! the tokenizer, hand it to the tree parser, apply any lexical-state
//! override the parser requests, and repeat until end of file.

use vstd::prelude::*;

use crate::domtree::DomTree;
use crate::parser::Parser;
use crate::tokenizer::{States, TokResult, Tokenizer};
use crate::tokens::Token;

verus! {

/// Everything the pipeline can report instead of a tree.
///
/// Malformed markup with a defined recovery is consumed silently; these are
/// the conditions that stop a parse: a rejected document form (`ParseError`),
/// markup this implementation does not cover (`UnsupportedConstruct`), and
/// internal-consistency faults that a caller must hear about rather than
/// receive a silently corrupted tree.
#[derive(Debug, PartialEq, Eq, Structural, Clone, Copy)]
pub enum HTMLError {
    /// A token was started while another was still being built.
    TokenBuilderImproperlyCleared,
    /// The tree parser was asked to run without an insertion mode.
    ParserWithoutInsertionMode,
    /// A tree mutation named a handle that resolves to no live node.
    InaccessibleDomTreeNode,
    /// The document form was rejected, such as a doctype whose name is not
    /// exactly "html".
    ParseError,
    /// Text mode ended with no recorded mode to return to.
    ParserLostOriginalMode,
    /// A node was to be attached while no open element could parent it.
    OrphanObject,
    /// The input reached markup outside the implemented subset of the
    /// lexical and tree-construction grammars.
    UnsupportedConstruct,
}

/// A tokenizer as `Tokenizer::new` hands it out, over exactly `data`.
pub open spec fn initial_tokenizer(t: Tokenizer<'_>, data: Seq<u8>) -> bool {
    &&& t.bytes() == data
    &&& t.pos() == 0
    &&& t.state == States::Data
    &&& t.spec_return_state() == States::Data
    &&& t.queue().len() == 0
    &&& t.spec_builder().is_clear()
    &&& t.spec_builder().last_start_tag@.len() == 0
}

/// A parser as `Parser::new` hands it out: initial mode, the single root
/// document node, and the root as the only open element.
pub open spec fn initial_parser(p: Parser) -> bool {
    &&& p.insertion_mode == crate::parser::Mode::Initial
    &&& p.original_mode is None
    &&& p.open_elements@ == seq![0usize]
    &&& p.last_element == 0
    &&& p.dom_tree.root == Some(0usize)
    &&& p.dom_tree.doctype is None
    &&& p.dom_tree.head is None
    &&& p.dom_tree.arena.slots().len() == 1
    &&& p.dom_tree.arena.free_list().len() == 0
    &&& p.dom_tree.live(0)
    &&& p.dom_tree.node(0).parent is None
    &&& p.dom_tree.node(0).dom_obj == crate::domtree::DomObject::Document
    &&& p.dom_tree.node(0).children@.len() == 0
}

/// One iteration of the driver loop: either the tokenizer did housekeeping
/// and yielded nothing, or it yielded one token short of end of file, the
/// parser consumed it, and any lexical-state override the parser requested
/// was applied before anything else happened.
pub open spec fn driver_step<'a>(
    t1: Tokenizer<'a>,
    p1: Parser,
    t2: Tokenizer<'a>,
    p2: Parser,
) -> bool {
    ||| (Tokenizer::tok_next(t1, t2, Ok(None)) && p2 == p1)
    ||| (exists|tmid: Tokenizer<'a>, token: Token, pr: crate::parser::ParserResult|
        {
            &&& #[trigger] Tokenizer::tok_next(t1, tmid, Ok(Some(token)))
            &&& !(token is EndOfFile)
            &&& #[trigger] Parser::parse_step(p1, p2, token, pr)
            &&& match pr {
                Ok(Some(st)) => t2 == (Tokenizer { state: st, ..tmid }),
                Ok(None) => t2 == tmid,
                Err(_) => false,
            }
        })
}

/// A complete run of the pipeline: from the initial machines over `data`,
/// through one `driver_step` after another, to a tokenizer that has
/// consumed the whole input with nothing left to hand out, with `tree` the
/// parser's finished tree.
pub open spec fn pipeline_chain<'a>(
    ts: Seq<Tokenizer<'a>>,
    ps: Seq<Parser>,
    data: Seq<u8>,
    tree: DomTree,
) -> bool {
    &&& ts.len() == ps.len()
    &&& ts.len() >= 1
    &&& initial_tokenizer(ts[0], data)
    &&& initial_parser(ps[0])
    &&& forall|i: int|
        0 <= i < ts.len() - 1 ==> #[trigger] driver_step(ts[i], ps[i], ts[i + 1], ps[i + 1])
    &&& ts.last().pos() == ts.last().bytes().len()
    &&& ts.last().queue().len() == 0
    &&& tree == ps.last().dom_tree
}

/// The tree is what some complete pipeline run over `data` produces.
pub open spec fn pipeline_produces<'a>(data: &'a Vec<u8>, tree: DomTree) -> bool {
    exists|ts: Seq<Tokenizer<'a>>, ps: Seq<Parser>| #[trigger] pipeline_chain(ts, ps, data@, tree)
}

/// No driver step leaves a tokenizer that has consumed the whole input and
/// holds nothing in its queue: from there the only answer is end of file.
proof fn lemma_no_step_at_end<'a>(t: Tokenizer<'a>, p: Parser, t2: Tokenizer<'a>, p2: Parser)
    requires
        t.pos() == t.bytes().len(),
        t.queue().len() == 0,
    ensures
        !driver_step(t, p, t2, p2),
{
    if driver_step(t, p, t2, p2) {
        if Tokenizer::tok_next(t, t2, Ok(None)) && p2 == p {
        } else {
            let (tmid, ttok, tpr) = choose|
                tmid: Tokenizer<'a>,
                ttok: Token,
                tpr: crate::parser::ParserResult,
            |
                {
                    &&& #[trigger] Tokenizer::tok_next(t, tmid, Ok(Some(ttok)))
                    &&& !(ttok is EndOfFile)
                    &&& #[trigger] Parser::parse_step(p, p2, ttok, tpr)
                    &&& match tpr {
                        Ok(Some(st)) => t2 == (Tokenizer { state: st, ..tmid }),
                        Ok(None) => t2 == tmid,
                        Err(_) => false,
                    }
                };
            assert(false);
        }
    }
}

/// One driver step on each of two machine pairs that read the same leaves
/// machine pairs that read the same.
proof fn lemma_driver_step_deterministic<'a>(
    t1: Tokenizer<'a>,
    p1: Parser,
    t2: Tokenizer<'a>,
    p2: Parser,
    u1: Tokenizer<'a>,
    q1: Parser,
    u2: Tokenizer<'a>,
    q2: Parser,
)
    requires
        Tokenizer::equiv(t1, u1),
        Parser::equiv(p1, q1),
        p1.wf(),
        q1.wf(),
        driver_step(t1, p1, t2, p2),
        driver_step(u1, q1, u2, q2),
    ensures
        Tokenizer::equiv(t2, u2),
        Parser::equiv(p2, q2),
{
    if Tokenizer::tok_next(t1, t2, Ok(None)) && p2 == p1 {
        if Tokenizer::tok_next(u1, u2, Ok(None)) && q2 == q1 {
            Tokenizer::lemma_tok_next_deterministic(t1, t2, Ok(None), u1, u2, Ok(None));
        } else {
            let (umid, utok, upr) = choose|
                umid: Tokenizer<'a>,
                utok: Token,
                upr: crate::parser::ParserResult,
            |
                {
                    &&& #[trigger] Tokenizer::tok_next(u1, umid, Ok(Some(utok)))
                    &&& !(utok is EndOfFile)
                    &&& #[trigger] Parser::parse_step(q1, q2, utok, upr)
                    &&& match upr {
                        Ok(Some(st)) => u2 == (Tokenizer { state: st, ..umid }),
                        Ok(None) => u2 == umid,
                        Err(_) => false,
                    }
                };
            Tokenizer::lemma_tok_next_deterministic(t1, t2, Ok(None), u1, umid, Ok(Some(utok)));
            assert(false);
        }
    } else {
        let (tmid, ttok, tpr) = choose|
            tmid: Tokenizer<'a>,
            ttok: Token,
            tpr: crate::parser::ParserResult,
        |
            {
                &&& #[trigger] Tokenizer::tok_next(t1, tmid, Ok(Some(ttok)))
                &&& !(ttok is EndOfFile)
                &&& #[trigger] Parser::parse_step(p1, p2, ttok, tpr)
                &&& match tpr {
                    Ok(Some(st)) => t2 == (Tokenizer { state: st, ..tmid }),
                    Ok(None) => t2 == tmid,
                    Err(_) => false,
                }
            };
        if Tokenizer::tok_next(u1, u2, Ok(None)) && q2 == q1 {
            Tokenizer::lemma_tok_next_deterministic(t1, tmid, Ok(Some(ttok)), u1, u2, Ok(None));
            assert(false);
        } else {
            let (umid, utok, upr) = choose|
                umid: Tokenizer<'a>,
                utok: Token,
                upr: crate::parser::ParserResult,
            |
                {
                    &&& #[trigger] Tokenizer::tok_next(u1, umid, Ok(Some(utok)))
                    &&& !(utok is EndOfFile)
                    &&& #[trigger] Parser::parse_step(q1, q2, utok, upr)
                    &&& match upr {
                        Ok(Some(st)) => u2 == (Tokenizer { state: st, ..umid }),
                        Ok(None) => u2 == umid,
                        Err(_) => false,
                    }
                };
            Tokenizer::lemma_tok_next_deterministic(
                t1,
                tmid,
                Ok(Some(ttok)),
                u1,
                umid,
                Ok(Some(utok)),
            );
            Parser::lemma_parse_step_deterministic(p1, p2, ttok, tpr, q1, q2, utok, upr);
            match tpr {
                Ok(Some(st)) => {
                    assert(t2 == (Tokenizer { state: st, ..tmid }));
                    assert(u2 == (Tokenizer { state: st, ..umid }));
                },
                Ok(None) => {
                },
                Err(_) => {
                    assert(false);
                },
            }
        }
    }
}

/// Chains of driver steps from the initial machines over the same input
/// agree position for position, up to how states read: the machine is
/// deterministic, so there is essentially one run.
proof fn lemma_chains_agree<'a>(
    cts: Seq<Tokenizer<'a>>,
    cps: Seq<Parser>,
    ts: Seq<Tokenizer<'a>>,
    ps: Seq<Parser>,
    data: Seq<u8>,
    i: int,
)
    requires
        cts.len() == cps.len(),
        cts.len() >= 1,
        ts.len() == ps.len(),
        ts.len() >= 1,
        initial_tokenizer(cts[0], data),
        initial_parser(cps[0]),
        initial_tokenizer(ts[0], data),
        initial_parser(ps[0]),
        forall|k: int|
            0 <= k < cts.len() - 1 ==> #[trigger] driver_step(cts[k], cps[k], cts[k + 1], cps[k + 1]),
        forall|k: int|
            0 <= k < ts.len() - 1 ==> #[trigger] driver_step(ts[k], ps[k], ts[k + 1], ps[k + 1]),
        forall|k: int| 0 <= k < ps.len() ==> (#[trigger] ps[k]).wf(),
        0 <= i < cts.len(),
        i < ts.len(),
    ensures
        Tokenizer::equiv(cts[i], ts[i]),
        Parser::equiv(cps[i], ps[i]),
    decreases i,
{
    if i == 0 {
        assert(cts[0].spec_builder().last_start_tag@ =~= ts[0].spec_builder().last_start_tag@);
        crate::tokens::lemma_clear_builders_equiv(cts[0].spec_builder(), ts[0].spec_builder());
        assert(cts[0].queue() =~= ts[0].queue());
        assert(cps[0].dom_tree.arena.free_list() =~= ps[0].dom_tree.arena.free_list());
        assert forall|h: crate::arena::ArenaRef|
            #![all_triggers]
            (cps[0].dom_tree.live(h) <==> ps[0].dom_tree.live(h)) && (cps[0].dom_tree.live(h)
                ==> crate::domtree::node_equiv(cps[0].dom_tree.node(h), ps[0].dom_tree.node(h))) by {
            if h == 0 {
                assert(cps[0].dom_tree.live(0) && ps[0].dom_tree.live(0));
                assert(cps[0].dom_tree.node(0).children@ =~= ps[0].dom_tree.node(0).children@);
            } else {
                assert(cps[0].dom_tree.arena.spec_get(h) is None);
                assert(ps[0].dom_tree.arena.spec_get(h) is None);
            }
        }
    } else {
        lemma_chains_agree(cts, cps, ts, ps, data, i - 1);
        Parser::lemma_equiv_sym(cps[i - 1], ps[i - 1]);
        Parser::lemma_equiv_wf(ps[i - 1], cps[i - 1]);
        assert(driver_step(cts[i - 1], cps[i - 1], cts[i - 1 + 1], cps[i - 1 + 1]));
        assert(driver_step(ts[i - 1], ps[i - 1], ts[i - 1 + 1], ps[i - 1 + 1]));
        assert(cts[i - 1 + 1] == cts[i] && cps[i - 1 + 1] == cps[i]);
        assert(ts[i - 1 + 1] == ts[i] && ps[i - 1 + 1] == ps[i]);
        lemma_driver_step_deterministic(
            cts[i - 1],
            cps[i - 1],
            cts[i],
            cps[i],
            ts[i - 1],
            ps[i - 1],
            ts[i],
            ps[i],
        );
    }
}

/// An `EndOfFile` answer means the input is exhausted: nothing waited in
/// the queue, the cursor sat at the end, and the machine did not move.
proof fn lemma_end_of_file_means_end(pre: Tokenizer, post: Tokenizer, r: TokResult)
    requires
        pre.wf(),
        Tokenizer::tok_next(pre, post, r),
        r == Ok::<Option<Token>, HTMLError>(Some(Token::EndOfFile)),
    ensures
        post == pre,
        pre.pos() == pre.bytes().len(),
        pre.queue().len() == 0,
{
    if pre.queue().len() > 0 {
        assert(pre.queue()[0] is Character);
        assert(false);
    } else if pre.pos() == pre.bytes().len() {
    } else {
        assert(false);
    }
}

/// Whenever a token other than a lone character comes out of the tokenizer,
/// the builder has just been drained: tags, comments and doctypes are only
/// ever produced by a finalizing `build`, and the queue holds characters
/// alone.
proof fn lemma_emission_clears_builder(
    pre: Tokenizer,
    post: Tokenizer,
    r: TokResult,
    token: Token,
)
    requires
        pre.wf(),
        Tokenizer::tok_next(pre, post, r),
        r == Ok::<Option<Token>, crate::html::HTMLError>(Some(token)),
        !(token is Character),
        !(token is EndOfFile),
    ensures
        post.spec_builder().is_clear(),
{
    if pre.queue().len() > 0 {
        assert(pre.queue()[0] is Character);
        assert(false);
    } else if pre.pos() == pre.bytes().len() {
        assert(false);
    }
}

/// The tree parser requests a lexical-state override only on the start tag
/// of a text-like element, and only toward the rcdata or rawtext states.
proof fn lemma_override_is_start_tag(
    pre: Parser,
    post: Parser,
    token: Token,
    r: crate::parser::ParserResult,
    s: States,
)
    requires
        Parser::parse_step(pre, post, token, r),
        r == Ok::<Option<States>, HTMLError>(Some(s)),
    ensures
        token is StartTag,
        s == States::RCData || s == States::RawText,
{
}

/// Runs the pipeline on one whole in-memory document: pulls a token from
/// the tokenizer, hands it to the tree parser, applies any lexical-state
/// override the parser requests before the next token is fetched, and stops
/// at end of file. A successful parse hands back a well-formed tree that
/// some complete chain of `driver_step`s over this very input produced —
/// each step pinned down by `Tokenizer::tok_next` and `Parser::parse_step`.
pub fn make_dom<'a>(data: &'a Vec<u8>) -> (r: Result<DomTree, HTMLError>)
    ensures
        match r {
            Ok(tree) => tree.wf() && pipeline_produces(data, tree),
            Err(_) => true,
        },
        r is Err ==> !(exists|tree: DomTree| #[trigger] pipeline_produces(data, tree)),
{
    let mut tokenizer = Tokenizer::new(data);
    let mut parser = Parser::new();
    let ghost mut ts: Seq<Tokenizer<'a>> = seq![tokenizer];
    let ghost mut ps: Seq<Parser> = seq![parser];
    loop
        invariant
            tokenizer.wf(),
            parser.wf(),
            ts.len() == ps.len(),
            ts.len() >= 1,
            initial_tokenizer(ts[0], data@),
            initial_parser(ps[0]),
            forall|i: int|
                0 <= i < ts.len() - 1 ==> #[trigger] driver_step(ts[i], ps[i], ts[i + 1], ps[i + 1]),
            forall|i: int| 0 <= i < ps.len() ==> (#[trigger] ps[i]).wf(),
            ts.last() == tokenizer,
            ps.last() == parser,
        decreases tokenizer.measure(),
    {
        let ghost tok_pre = tokenizer;
        let ghost parser_pre = parser;
        let next_emit: Option<Token> = match tokenizer.get_next_token() {
            Ok(v) => v,
            Err(e) => {
                proof {
                    if exists|tree: DomTree| #[trigger] pipeline_produces(data, tree) {
                        let tree = choose|tree: DomTree| #[trigger] pipeline_produces(data, tree);
                        let (cts, cps) = choose|cts: Seq<Tokenizer<'a>>, cps: Seq<Parser>|
                            #[trigger] pipeline_chain(cts, cps, data@, tree);
                        let m = ts.len() - 1;
                        if cts.len() - 1 > m {
                            lemma_chains_agree(cts, cps, ts, ps, data@, m);
                            assert(driver_step(cts[m], cps[m], cts[m + 1], cps[m + 1]));
                            if Tokenizer::tok_next(cts[m], cts[m + 1], Ok(None)) && cps[m + 1]
                                == cps[m] {
                                Tokenizer::lemma_tok_next_deterministic(
                                    cts[m],
                                    cts[m + 1],
                                    Ok(None),
                                    tok_pre,
                                    tokenizer,
                                    Err(e),
                                );
                            } else {
                                let (umid, utok, upr) = choose|
                                    umid: Tokenizer<'a>,
                                    utok: Token,
                                    upr: crate::parser::ParserResult,
                                |
                                    {
                                        &&& #[trigger] Tokenizer::tok_next(
                                            cts[m],
                                            umid,
                                            Ok(Some(utok)),
                                        )
                                        &&& !(utok is EndOfFile)
                                        &&& #[trigger] Parser::parse_step(
                                            cps[m],
                                            cps[m + 1],
                                            utok,
                                            upr,
                                        )
                                        &&& match upr {
                                            Ok(Some(st)) => cts[m + 1] == (Tokenizer {
                                                state: st,
                                                ..umid
                                            }),
                                            Ok(None) => cts[m + 1] == umid,
                                            Err(_) => false,
                                        }
                                    };
                                Tokenizer::lemma_tok_next_deterministic(
                                    cts[m],
                                    umid,
                                    Ok(Some(utok)),
                                    tok_pre,
                                    tokenizer,
                                    Err(e),
                                );
                            }
                        } else {
                            let k = cts.len() - 1;
                            lemma_chains_agree(cts, cps, ts, ps, data@, k);
                            assert(cts.last() == cts[k]);
                            assert(ts[k].pos() == ts[k].bytes().len() && ts[k].queue().len() == 0);
                            if k < m {
                                assert(driver_step(ts[k], ps[k], ts[k + 1], ps[k + 1]));
                                lemma_no_step_at_end(ts[k], ps[k], ts[k + 1], ps[k + 1]);
                            } else {
                                assert(ts[k] == tok_pre);
                                assert(false);
                            }
                        }
                        assert(false);
                    }
                }
                return Err(e);
            },
        };
        let ghost tok_res = Ok::<Option<Token>, HTMLError>(next_emit);
        match next_emit {
            None => {
                proof {
                    assert(Tokenizer::tok_next(tok_pre, tokenizer, Ok(None)));
                    assert(driver_step(tok_pre, parser_pre, tokenizer, parser));
                    let ts_old = ts;
                    let ps_old = ps;
                    ts = ts.push(tokenizer);
                    ps = ps.push(parser);
                    assert(ts.drop_last() =~= ts_old);
                    assert(ps.drop_last() =~= ps_old);
                    assert(ts[0] == ts_old[0] && ps[0] == ps_old[0]);
                    assert(ts[ts.len() - 2] == ts_old.last() && ps[ps.len() - 2] == ps_old.last());
                    lemma_chain_extended(ts, ps);
                }
            },
            Some(token) => {
                if matches!(token, Token::EndOfFile) {
                    proof {
                        lemma_end_of_file_means_end(tok_pre, tokenizer, tok_res);
                        assert(pipeline_chain(ts, ps, data@, parser.dom_tree));
                    }
                    return Ok(parser.dom_tree);
                }
                let ghost token_g = token;
                let res = parser.parse_token(token);
                let ghost tmid = tokenizer;
                match res {
                    Ok(Some(state)) => {
                        proof {
                            lemma_override_is_start_tag(parser_pre, parser, token_g, res, state);
                            lemma_emission_clears_builder(tok_pre, tokenizer, tok_res, token_g);
                        }
                        tokenizer.state = state;
                        proof {
                            assert(tokenizer == (Tokenizer { state, ..tmid }));
                        }
                    },
                    Ok(None) => {},
                    Err(err) => {
                        proof {
                            if exists|tree: DomTree| #[trigger] pipeline_produces(data, tree) {
                                let tree = choose|tree: DomTree|
                                    #[trigger] pipeline_produces(data, tree);
                                let (cts, cps) = choose|cts: Seq<Tokenizer<'a>>, cps: Seq<Parser>|
                                    #[trigger] pipeline_chain(cts, cps, data@, tree);
                                let m = ts.len() - 1;
                                if cts.len() - 1 > m {
                                    lemma_chains_agree(cts, cps, ts, ps, data@, m);
                                    assert(driver_step(cts[m], cps[m], cts[m + 1], cps[m + 1]));
                                    if Tokenizer::tok_next(cts[m], cts[m + 1], Ok(None)) && cps[m
                                        + 1] == cps[m] {
                                        Tokenizer::lemma_tok_next_deterministic(
                                            cts[m],
                                            cts[m + 1],
                                            Ok(None),
                                            tok_pre,
                                            tmid,
                                            Ok(Some(token_g)),
                                        );
                                    } else {
                                        let (umid, utok, upr) = choose|
                                            umid: Tokenizer<'a>,
                                            utok: Token,
                                            upr: crate::parser::ParserResult,
                                        |
                                            {
                                                &&& #[trigger] Tokenizer::tok_next(
                                                    cts[m],
                                                    umid,
                                                    Ok(Some(utok)),
                                                )
                                                &&& !(utok is EndOfFile)
                                                &&& #[trigger] Parser::parse_step(
                                                    cps[m],
                                                    cps[m + 1],
                                                    utok,
                                                    upr,
                                                )
                                                &&& match upr {
                                                    Ok(Some(st)) => cts[m + 1] == (Tokenizer {
                                                        state: st,
                                                        ..umid
                                                    }),
                                                    Ok(None) => cts[m + 1] == umid,
                                                    Err(_) => false,
                                                }
                                            };
                                        Tokenizer::lemma_tok_next_deterministic(
                                            cts[m],
                                            umid,
                                            Ok(Some(utok)),
                                            tok_pre,
                                            tmid,
                                            Ok(Some(token_g)),
                                        );
                                        Parser::lemma_equiv_sym(cps[m], ps[m]);
                                        Parser::lemma_equiv_wf(ps[m], cps[m]);
                                        assert(ps[m] == parser_pre);
                                        Parser::lemma_parse_step_deterministic(
                                            cps[m],
                                            cps[m + 1],
                                            utok,
                                            upr,
                                            parser_pre,
                                            parser,
                                            token_g,
                                            res,
                                        );
                                    }
                                } else {
                                    let k = cts.len() - 1;
                                    lemma_chains_agree(cts, cps, ts, ps, data@, k);
                                    assert(cts.last() == cts[k]);
                                    assert(ts[k].pos() == ts[k].bytes().len() && ts[k].queue().len()
                                        == 0);
                                    if k < m {
                                        assert(driver_step(ts[k], ps[k], ts[k + 1], ps[k + 1]));
                                        lemma_no_step_at_end(ts[k], ps[k], ts[k + 1], ps[k + 1]);
                                    } else {
                                        assert(ts[k] == tok_pre);
                                        assert(false);
                                    }
                                }
                                assert(false);
                            }
                        }
                        return Err(err);
                    },
                }
                proof {
                    assert(Tokenizer::tok_next(tok_pre, tmid, Ok(Some(token_g))));
                    assert(Parser::parse_step(parser_pre, parser, token_g, res));
                    assert(driver_step(tok_pre, parser_pre, tokenizer, parser));
                    let ts_old = ts;
                    let ps_old = ps;
                    ts = ts.push(tokenizer);
                    ps = ps.push(parser);
                    assert(ts.drop_last() =~= ts_old);
                    assert(ps.drop_last() =~= ps_old);
                    assert(ts[0] == ts_old[0] && ps[0] == ps_old[0]);
                    assert(ts[ts.len() - 2] == ts_old.last() && ps[ps.len() - 2] == ps_old.last());
                    lemma_chain_extended(ts, ps);
                }
            },
        }
    }
}

/// After pushing one linked pair onto both chains, every consecutive pair
/// is still linked.
proof fn lemma_chain_extended<'a>(ts: Seq<Tokenizer<'a>>, ps: Seq<Parser>)
    requires
        ts.len() == ps.len(),
        ts.len() >= 2,
        forall|i: int|
            0 <= i < ts.len() - 2 ==> #[trigger] driver_step(
                ts.drop_last()[i],
                ps.drop_last()[i],
                ts.drop_last()[i + 1],
                ps.drop_last()[i + 1],
            ),
        driver_step(
            ts[ts.len() - 2],
            ps[ps.len() - 2],
            ts[ts.len() - 1],
            ps[ps.len() - 1],
        ),
    ensures
        forall|i: int|
            0 <= i < ts.len() - 1 ==> #[trigger] driver_step(ts[i], ps[i], ts[i + 1], ps[i + 1]),
{
    assert forall|i: int| 0 <= i < ts.len() - 1 implies #[trigger] driver_step(
        ts[i],
        ps[i],
        ts[i + 1],
        ps[i + 1],
    ) by {
        if i < ts.len() - 2 {
            assert(driver_step(
                ts.drop_last()[i],
                ps.drop_last()[i],
                ts.drop_last()[i + 1],
                ps.drop_last()[i + 1],
            ));
            assert(ts.drop_last()[i] == ts[i]);
            assert(ps.drop_last()[i] == ps[i]);
            assert(ts.drop_last()[i + 1] == ts[i + 1]);
            assert(ps.drop_last()[i + 1] == ps[i + 1]);
        }
    }
}

} // verus!
