//! Ordinary prose passes through untouched: a source without commands or
//! delimiter bytes compiles to its own paragraphs wrapped in paragraph
//! tags, byte for byte.

use vstd::prelude::*;

use crate::ast::{NodeId, SpecNode};
use crate::error::{Error, Span};
use crate::grammar::{
    block, doc_items, document, is_opener, is_closer, text_items, ws_end, Delim, PState,
};
use crate::render::{
    find_nl, p_tag, render_list, render_node, span_bytes, tag_close, tag_open, wrapped,
};
use crate::to_html_spec;

verus! {

/// A byte of ordinary prose: not the command sigil and no delimiter.
pub open spec fn plain_byte(b: u8) -> bool {
    b != 0x7e && !is_opener(b) && !is_closer(b)
}

/// Ordinary prose: a source holding no command sigil and no delimiter
/// bytes at all.
pub open spec fn plain(s: Seq<u8>) -> bool {
    forall|i: int| 0 <= i < s.len() ==> plain_byte(#[trigger] s[i])
}

/// The paragraphs a prose source falls into, from `p` on: skip whitespace,
/// then the text up to (not including) the next newline is one paragraph;
/// the newline itself is consumed, and the rest follows.
pub open spec fn paragraphs(s: Seq<u8>, p: int) -> Seq<Span>
    decreases s.len() - p,
{
    let q = ws_end(s, p);
    if !(p <= q && q <= s.len()) {
        Seq::<Span>::empty()
    } else if q >= s.len() {
        Seq::<Span>::empty()
    } else {
        let e = find_nl(s, q);
        if !(q <= e && e <= s.len()) {
            Seq::<Span>::empty()
        } else {
            let p2 = if e < s.len() {
                e + 1
            } else {
                e
            };
            if p < p2 && p2 <= s.len() {
                seq![Span { start: q as u32, end: e as u32 }] + paragraphs(s, p2)
            } else {
                Seq::<Span>::empty()
            }
        }
    }
}

/// Each paragraph's contents wrapped in one pair of paragraph tags, in
/// order, with the contents copied byte for byte.
pub open spec fn prose_html(s: Seq<u8>, spans: Seq<Span>) -> Seq<u8>
    decreases spans.len(),
{
    if spans.len() == 0 {
        Seq::<u8>::empty()
    } else {
        tag_open(p_tag()) + span_bytes(s, spans[0]) + tag_close(p_tag()) + prose_html(
            s,
            spans.drop_first(),
        )
    }
}

/// The arena a prose parse builds: for each paragraph a `Text` node
/// followed by the `Paragraph` that holds it.
pub open spec fn para_nodes(spans: Seq<Span>, base: int) -> Seq<SpecNode>
    decreases spans.len(),
{
    if spans.len() == 0 {
        Seq::<SpecNode>::empty()
    } else {
        seq![
            SpecNode::Text(spans[0]),
            SpecNode::Paragraph(seq![NodeId { idx: base as usize }]),
        ] + para_nodes(spans.drop_first(), base + 2)
    }
}

/// The handles of the paragraph nodes, every second index from `base + 1`.
pub open spec fn para_ids(n: int, base: int) -> Seq<NodeId>
    decreases n,
{
    if n <= 0 {
        Seq::<NodeId>::empty()
    } else {
        seq![NodeId { idx: (base + 1) as usize }] + para_ids(n - 1, base + 2)
    }
}

proof fn lemma_ws_end_bounds(s: Seq<u8>, p: int)
    requires
        0 <= p <= s.len(),
    ensures
        p <= ws_end(s, p) <= s.len(),
    decreases s.len() - p,
{
    if p < s.len() && crate::grammar::is_ws(s[p]) {
        lemma_ws_end_bounds(s, p + 1);
    }
}

proof fn lemma_find_nl_bounds(s: Seq<u8>, p: int)
    requires
        0 <= p <= s.len(),
    ensures
        p <= find_nl(s, p) <= s.len(),
        find_nl(s, p) < s.len() ==> s[find_nl(s, p)] == 0x0a,
    decreases s.len() - p,
{
    if p < s.len() && s[p] != 0x0a {
        lemma_find_nl_bounds(s, p + 1);
    }
}

/// On prose, a text section runs to the next newline (or end of input) and
/// leaves exactly one `Text` node whose span starts at the pending mark.
proof fn lemma_text_plain(s: Seq<u8>, x: PState, d0: int, t: int)
    requires
        plain(s),
        0 <= x.p <= s.len(),
    ensures
        ({
            let e = find_nl(s, x.p);
            let p2 = if e < s.len() {
                e + 1
            } else {
                e
            };
            text_items(s, x, d0, Some(t)) == Ok::<_, Error>(
                (
                    PState {
                        p: p2,
                        st: x.st,
                        ns: x.ns.push(SpecNode::Text(Span { start: t as u32, end: e as u32 })),
                    },
                    seq![NodeId { idx: x.ns.len() as usize }],
                ),
            )
        }),
    decreases s.len() - x.p,
{
    lemma_find_nl_bounds(s, x.p);
    if x.p >= s.len() {
    } else {
        let b = s[x.p];
        assert(plain_byte(b));
        if b == 0x0a {
        } else {
            lemma_text_plain(s, PState { p: x.p + 1, st: x.st, ns: x.ns }, d0, t);
        }
    }
}

/// On prose, a block is one paragraph: the text to the next newline wrapped
/// in a `Paragraph` node.
proof fn lemma_block_plain(s: Seq<u8>, x: PState)
    requires
        plain(s),
        0 <= x.p <= s.len(),
    ensures
        ({
            let e = find_nl(s, x.p);
            let p2 = if e < s.len() {
                e + 1
            } else {
                e
            };
            block(s, x) == Ok::<_, Error>(
                (
                    PState {
                        p: p2,
                        st: x.st,
                        ns: x.ns.push(
                            SpecNode::Text(Span { start: x.p as u32, end: e as u32 }),
                        ).push(
                            SpecNode::Paragraph(seq![NodeId { idx: x.ns.len() as usize }]),
                        ),
                    },
                    NodeId { idx: (x.ns.len() + 1) as usize },
                ),
            )
        }),
{
    if x.p < s.len() {
        assert(plain_byte(s[x.p]));
    }
    lemma_text_plain(s, x, x.st.len() as int, x.p);
}

/// On prose, the document's blocks are exactly its paragraphs, laid out in
/// the arena text-then-paragraph, in order.
proof fn lemma_doc_plain(s: Seq<u8>, x: PState)
    requires
        plain(s),
        0 <= x.p <= s.len(),
    ensures
        ({
            let spans = paragraphs(s, x.p);
            match doc_items(s, x) {
                Ok((x2, ids)) => x2.st == x.st && x2.ns == x.ns + para_nodes(
                    spans,
                    x.ns.len() as int,
                ) && ids == para_ids(spans.len() as int, x.ns.len() as int),
                Err(_) => false,
            }
        }),
    decreases s.len() - x.p,
{
    let q = ws_end(s, x.p);
    lemma_ws_end_bounds(s, x.p);
    if q >= s.len() {
        assert(x.ns + para_nodes(paragraphs(s, x.p), x.ns.len() as int) =~= x.ns);
    } else {
        assert(plain_byte(s[q]));
        let xb = PState { p: q, st: x.st, ns: x.ns };
        lemma_block_plain(s, xb);
        let e = find_nl(s, q);
        lemma_find_nl_bounds(s, q);
        let p2 = if e < s.len() {
            e + 1
        } else {
            e
        };
        let x2 = (match block(s, xb) {
            Ok((x2, id)) => x2,
            Err(_) => arbitrary(),
        });
        lemma_doc_plain(s, x2);
        let spans = paragraphs(s, x.p);
        let rest = paragraphs(s, p2);
        assert(spans == seq![Span { start: q as u32, end: e as u32 }] + rest);
        let base = x.ns.len() as int;
        assert(spans.drop_first() =~= rest);
        assert(para_nodes(spans, base) =~= seq![
            SpecNode::Text(Span { start: q as u32, end: e as u32 }),
            SpecNode::Paragraph(seq![NodeId { idx: base as usize }]),
        ] + para_nodes(rest, base + 2));
        assert(x.ns + para_nodes(spans, base) =~= x2.ns + para_nodes(rest, x2.ns.len() as int));
        assert(para_ids(spans.len() as int, base) =~= seq![NodeId { idx: (base + 1) as usize }]
            + para_ids(rest.len() as int, base + 2));
        if let Ok((x3, ids3)) = doc_items(s, x) {
            assert(ids3 =~= para_ids(spans.len() as int, base));
            assert(x3.ns =~= x.ns + para_nodes(spans, base));
        }
    }
}

proof fn lemma_paragraphs_count(s: Seq<u8>, p: int)
    requires
        0 <= p <= s.len(),
    ensures
        paragraphs(s, p).len() <= s.len() - p,
    decreases s.len() - p,
{
    let q = ws_end(s, p);
    if p <= q && q <= s.len() && q < s.len() {
        let e = find_nl(s, q);
        if q <= e && e <= s.len() {
            let p2 = if e < s.len() {
                e + 1
            } else {
                e
            };
            if p < p2 && p2 <= s.len() {
                lemma_paragraphs_count(s, p2);
            }
        }
    }
}

proof fn lemma_para_nodes_len(spans: Seq<Span>, base: int)
    ensures
        para_nodes(spans, base).len() == 2 * spans.len(),
    decreases spans.len(),
{
    if spans.len() > 0 {
        lemma_para_nodes_len(spans.drop_first(), base + 2);
    }
}

proof fn lemma_para_nodes_index(spans: Seq<Span>, base: int, j: int)
    requires
        0 <= j < spans.len(),
    ensures
        para_nodes(spans, base)[2 * j] == SpecNode::Text(spans[j]),
        para_nodes(spans, base)[2 * j + 1] == SpecNode::Paragraph(
            seq![NodeId { idx: (base + 2 * j) as usize }],
        ),
    decreases j,
{
    lemma_para_nodes_len(spans, base);
    if j > 0 {
        lemma_para_nodes_index(spans.drop_first(), base + 2, j - 1);
    }
}

/// Rendering the paragraph handles over an arena laid out as
/// [`para_nodes`] yields each paragraph's bytes in one pair of paragraph
/// tags.
proof fn lemma_render_prose(s: Seq<u8>, nsf: Seq<SpecNode>, spans: Seq<Span>, base: int, i: int)
    requires
        0 <= base,
        0 <= base + 2 * spans.len() <= i <= nsf.len(),
        base + 2 * spans.len() <= usize::MAX,
        forall|j: int| 0 <= j < spans.len() ==> nsf[base + 2 * j] == SpecNode::Text(
            #[trigger] spans[j],
        ),
        forall|j: int| 0 <= j < spans.len() ==> #[trigger] nsf[base + 2 * j + 1]
            == SpecNode::Paragraph(seq![NodeId { idx: (base + 2 * j) as usize }]),
    ensures
        render_list(s, nsf, para_ids(spans.len() as int, base), i) == Ok::<Seq<u8>, Error>(
            prose_html(s, spans),
        ),
    decreases spans.len(),
{
    let ids = para_ids(spans.len() as int, base);
    if spans.len() == 0 {
    } else {
        assert(nsf[base + 2 * 0 + 1] == SpecNode::Paragraph(
            seq![NodeId { idx: (base + 2 * 0) as usize }],
        ));
        assert(nsf[base + 2 * 0] == SpecNode::Text(spans[0]));
        assert(ids[0] == NodeId { idx: (base + 1) as usize });
        // the paragraph node holds exactly its one text node
        let inner = seq![NodeId { idx: base as usize }];
        assert(render_node(s, nsf, base) == Ok::<Seq<u8>, Error>(span_bytes(s, spans[0])));
        assert(render_list(s, nsf, inner.drop_first(), base + 1) == Ok::<Seq<u8>, Error>(
            Seq::<u8>::empty(),
        ));
        assert(render_list(s, nsf, inner, base + 1) == Ok::<Seq<u8>, Error>(
            span_bytes(s, spans[0]) + Seq::<u8>::empty(),
        ));
        assert(span_bytes(s, spans[0]) + Seq::<u8>::empty() =~= span_bytes(s, spans[0]));
        assert(render_node(s, nsf, base + 1) == wrapped(
            Ok::<Seq<u8>, Error>(span_bytes(s, spans[0])),
            p_tag(),
        ));
        let rest = spans.drop_first();
        assert forall|j: int| 0 <= j < rest.len() implies nsf[(base + 2) + 2 * j]
            == SpecNode::Text(#[trigger] rest[j]) by {
            assert(spans[j + 1] == rest[j]);
            assert(nsf[base + 2 * (j + 1)] == SpecNode::Text(spans[j + 1]));
            assert(base + 2 * (j + 1) == (base + 2) + 2 * j);
        }
        assert forall|j: int| 0 <= j < rest.len() implies #[trigger] nsf[(base + 2) + 2 * j + 1]
            == SpecNode::Paragraph(seq![NodeId { idx: ((base + 2) + 2 * j) as usize }]) by {
            assert(nsf[base + 2 * (j + 1) + 1] == SpecNode::Paragraph(
                seq![NodeId { idx: (base + 2 * (j + 1)) as usize }],
            ));
            assert(base + 2 * (j + 1) == (base + 2) + 2 * j);
            assert(base + 2 * (j + 1) + 1 == (base + 2) + 2 * j + 1);
        }
        lemma_render_prose(s, nsf, rest, base + 2, i);
        assert(ids.drop_first() =~= para_ids(rest.len() as int, base + 2));
        assert(render_list(s, nsf, ids, i) == Ok::<Seq<u8>, Error>(
            (tag_open(p_tag()) + span_bytes(s, spans[0]) + tag_close(p_tag())) + prose_html(
                s,
                rest,
            ),
        ));
        assert((tag_open(p_tag()) + span_bytes(s, spans[0]) + tag_close(p_tag())) + prose_html(
            s,
            rest,
        ) =~= prose_html(s, spans));
    }
}

/// On prose — a source with no commands and no delimiter bytes — the
/// compiler's output is exactly the input's paragraphs wrapped in paragraph
/// tags, split at newlines with inter-paragraph whitespace dropped, and
/// with each paragraph's text copied byte for byte.
pub proof fn lemma_prose_round_trip(s: Seq<u8>)
    requires
        plain(s),
        2 * s.len() + 1 <= usize::MAX,
    ensures
        to_html_spec(s) == Ok::<Seq<u8>, Error>(prose_html(s, paragraphs(s, 0))),
{
    let x0 = PState { p: 0, st: Seq::<Delim>::empty(), ns: Seq::<SpecNode>::empty() };
    lemma_doc_plain(s, x0);
    let spans = paragraphs(s, 0);
    let n = spans.len() as int;
    lemma_para_nodes_len(spans, 0);
    if let Ok((x2, ids)) = doc_items(s, x0) {
        assert(x2.ns =~= para_nodes(spans, 0));
        let nsf = x2.ns.push(SpecNode::Group(ids));
        let root = NodeId { idx: x2.ns.len() as usize };
        assert(document(s) == Ok::<(Seq<SpecNode>, NodeId), Error>((nsf, root)));
        lemma_paragraphs_count(s, 0);
        assert(x2.ns.len() == 2 * n);
        assert(root.idx as int == 2 * n);
        assert(nsf.len() == 2 * n + 1);
        assert(nsf[2 * n] == SpecNode::Group(ids));
        assert forall|j: int| 0 <= j < spans.len() implies nsf[0 + 2 * j] == SpecNode::Text(
            #[trigger] spans[j],
        ) by {
            lemma_para_nodes_index(spans, 0, j);
            assert(nsf[2 * j] == para_nodes(spans, 0)[2 * j]);
        }
        assert forall|j: int| 0 <= j < spans.len() implies #[trigger] nsf[0 + 2 * j + 1]
            == SpecNode::Paragraph(seq![NodeId { idx: (0 + 2 * j) as usize }]) by {
            lemma_para_nodes_index(spans, 0, j);
            assert(nsf[2 * j + 1] == para_nodes(spans, 0)[2 * j + 1]);
        }
        lemma_render_prose(s, nsf, spans, 0, 2 * n);
        assert(render_node(s, nsf, root.idx as int) == render_list(s, nsf, ids, 2 * n));
    }
}

} // verus!
