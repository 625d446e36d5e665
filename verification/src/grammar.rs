//! The grammar as a functional specification: spec-level rules that say,
//! for every cursor state, exactly what the parser consumes, what it pushes
//! into the arena, and which fault it reports.

use vstd::prelude::*;

use crate::ast::{NodeId, SpecArg, SpecNode};
use crate::error::{Error, Span};

verus! {

/// One open delimiter currently being nested: `(`, `[` or `{`.
#[derive(Clone, Copy, Debug, PartialEq, Eq, Structural)]
pub enum Delim {
    Paren,
    Bracket,
    Brace,
}

/// A cursor state of the parse: position, open-delimiter stack, and the
/// arena of nodes pushed so far.
pub ghost struct PState {
    pub p: int,
    pub st: Seq<Delim>,
    pub ns: Seq<SpecNode>,
}

pub open spec fn is_ws(b: u8) -> bool {
    b == 0x20 || b == 0x09 || b == 0x0a || b == 0x0c || b == 0x0d
}

pub open spec fn is_alpha(b: u8) -> bool {
    (0x41 <= b && b <= 0x5a) || (0x61 <= b && b <= 0x7a)
}

pub open spec fn is_opener(b: u8) -> bool {
    b == 0x28 || b == 0x5b || b == 0x7b
}

pub open spec fn is_closer(b: u8) -> bool {
    b == 0x29 || b == 0x5d || b == 0x7d
}

pub open spec fn opener_delim(b: u8) -> Delim {
    if b == 0x28 {
        Delim::Paren
    } else if b == 0x5b {
        Delim::Bracket
    } else {
        Delim::Brace
    }
}

pub open spec fn closer_delim(b: u8) -> Delim {
    if b == 0x29 {
        Delim::Paren
    } else if b == 0x5d {
        Delim::Bracket
    } else {
        Delim::Brace
    }
}

/// The byte at `p`, with 0 standing in for end of input.
pub open spec fn at(s: Seq<u8>, p: int) -> u8 {
    if 0 <= p < s.len() {
        s[p]
    } else {
        0
    }
}

/// The span of the single byte at `p`, empty when the cursor sits at end of
/// input.
pub open spec fn here_span(s: Seq<u8>, p: int) -> Span {
    Span { start: p as u32, end: if p < s.len() { (p + 1) as u32 } else { p as u32 } }
}

/// One step of the cursor. Crossing an opener pushes it; crossing a closer
/// must pop its own opener, else the input's delimiters do not nest; any
/// other byte leaves the stack alone. At end of input the cursor stays put.
pub open spec fn bump(s: Seq<u8>, p: int, st: Seq<Delim>) -> Result<(int, Seq<Delim>), Error> {
    if p >= s.len() {
        Ok((p, st))
    } else {
        let b = s[p];
        if is_opener(b) {
            Ok((p + 1, st.push(opener_delim(b))))
        } else if is_closer(b) {
            if st.len() > 0 && st.last() == closer_delim(b) {
                Ok((p + 1, st.drop_last()))
            } else {
                Err(Error::UnbalancedDelimiter { span: here_span(s, p) })
            }
        } else {
            Ok((p + 1, st))
        }
    }
}

/// The first position at or after `p` holding a non-whitespace byte.
pub open spec fn ws_end(s: Seq<u8>, p: int) -> int
    decreases s.len() - p,
{
    if 0 <= p < s.len() && is_ws(s[p]) {
        ws_end(s, p + 1)
    } else {
        p
    }
}

/// The end of the maximal alphabetic run starting at `p`.
pub open spec fn alpha_end(s: Seq<u8>, p: int) -> int
    decreases s.len() - p,
{
    if 0 <= p < s.len() && is_alpha(s[p]) {
        alpha_end(s, p + 1)
    } else {
        p
    }
}

/// Where the scan of a quoted string's body stops: at the first unescaped
/// quote, or at end of input. Every byte on the way is crossed with [`bump`],
/// so delimiters inside the string still push and pop the stack.
pub open spec fn string_scan(s: Seq<u8>, p: int, st: Seq<Delim>) -> Result<
    (int, Seq<Delim>),
    Error,
>
    decreases s.len() - p,
{
    if !(0 <= p < s.len()) {
        Ok((p, st))
    } else if s[p] == 0x22 && !(p >= 1 && s[p - 1] == 0x5c) {
        Ok((p, st))
    } else {
        match bump(s, p, st) {
            Ok((p2, st2)) => if p < p2 && p2 <= s.len() {
                string_scan(s, p2, st2)
            } else {
                Ok((p2, st2))
            },
            Err(e) => Err(e),
        }
    }
}

/// The end of an alphabetic run never lies before its start.
pub proof fn lemma_alpha_end_ge(s: Seq<u8>, p: int)
    ensures
        alpha_end(s, p) >= p,
    decreases s.len() - p,
{
    if 0 <= p < s.len() && is_alpha(s[p]) {
        lemma_alpha_end_ge(s, p + 1);
    }
}

/// An alphabetic byte under the cursor pushes the run's end past it.
pub proof fn lemma_alpha_end_lb(s: Seq<u8>, p: int)
    requires
        0 <= p < s.len(),
        is_alpha(s[p]),
    ensures
        alpha_end(s, p) >= p + 1,
{
    lemma_alpha_end_ge(s, p + 1);
}

/// Demand one exact byte under the cursor and cross it.
pub open spec fn expect_byte(s: Seq<u8>, p: int, st: Seq<Delim>, expected: u8) -> Result<
    (int, Seq<Delim>),
    Error,
> {
    if at(s, p) == expected {
        bump(s, p, st)
    } else {
        Err(Error::ExpectedFound { expected, found: at(s, p), span: here_span(s, p) })
    }
}

/// Append one node to the arena and hand back its handle.
pub open spec fn pushed(x: PState, n: SpecNode) -> (PState, NodeId) {
    (PState { p: x.p, st: x.st, ns: x.ns.push(n) }, NodeId { idx: x.ns.len() as usize })
}

/// Returned on cursor states the executable parser never reaches; the
/// branches producing it only keep the recursion visibly well-founded.
pub open spec fn stuck() -> Error {
    Error::ExpectedArgs { found: 0, span: Span { start: 0, end: 0 } }
}

/// A quoted-string argument: cross the opening quote, scan to the closing
/// one, cross it. The span keeps both quotes.
pub open spec fn string_arg(s: Seq<u8>, p: int, st: Seq<Delim>) -> Result<
    (SpecArg, int, Seq<Delim>),
    Error,
> {
    let p1 = if p < s.len() {
        p + 1
    } else {
        p
    };
    match string_scan(s, p1, st) {
        Ok((p2, st2)) => {
            let p3 = if p2 < s.len() {
                p2 + 1
            } else {
                p2
            };
            Ok((SpecArg::String(Span { start: p as u32, end: p3 as u32 }), p3, st2))
        },
        Err(e) => Err(e),
    }
}

/// A bare identifier argument: the maximal alphabetic run.
pub open spec fn ident_arg(s: Seq<u8>, p: int) -> (SpecArg, int) {
    let p2 = alpha_end(s, p);
    (SpecArg::Ident(Span { start: p as u32, end: p2 as u32 }), p2)
}

/// If a pending text run is open, emit it as a `Text` node ending at `end`.
pub open spec fn flush_text(x: PState, tstart: Option<int>, end: int) -> (PState, Seq<NodeId>) {
    match tstart {
        Some(t) => {
            let (x2, id) = pushed(x, SpecNode::Text(Span { start: t as u32, end: end as u32 }));
            (x2, seq![id])
        },
        None => (x, Seq::<NodeId>::empty()),
    }
}

/// A command invocation: the sigil, a maximal alphabetic name, optional
/// whitespace, then exactly one argument form: a parenthesized list, one
/// bracketed inline argument, or (only where block arguments are permitted)
/// one braced block argument.
pub open spec fn command(s: Seq<u8>, x: PState, blocks: bool) -> Result<(PState, NodeId), Error>
    decreases s.len() - x.p, 0int,
{
    if !(0 <= x.p && x.p <= s.len()) {
        Err(stuck())
    } else {
        let p1 = if x.p < s.len() {
            x.p + 1
        } else {
            x.p
        };
        let p2 = alpha_end(s, p1);
        let name = Span { start: p1 as u32, end: p2 as u32 };
        let p3 = if p1 <= p2 && p2 <= s.len() {
            ws_end(s, p2)
        } else {
            p2
        };
        if !(x.p < p3 && p3 <= s.len()) {
            if at(s, p3) == 0x28 || at(s, p3) == 0x5b || (at(s, p3) == 0x7b && blocks) {
                Err(stuck())
            } else {
                Err(Error::ExpectedArgs { found: at(s, p3), span: here_span(s, p3) })
            }
        } else if at(s, p3) == 0x28 {
            match paren_args(s, PState { p: p3, st: x.st, ns: x.ns }, blocks) {
                Ok((x2, args)) => {
                    let (x3, id) = pushed(x2, SpecNode::Command(name, args));
                    Ok((x3, id))
                },
                Err(e) => Err(e),
            }
        } else if at(s, p3) == 0x5b {
            match bracketed_arg(s, PState { p: p3, st: x.st, ns: x.ns }) {
                Ok((x2, arg)) => {
                    let (x3, id) = pushed(x2, SpecNode::Command(name, seq![arg]));
                    Ok((x3, id))
                },
                Err(e) => Err(e),
            }
        } else if at(s, p3) == 0x7b && blocks {
            match braced_arg(s, PState { p: p3, st: x.st, ns: x.ns }) {
                Ok((x2, arg)) => {
                    let (x3, id) = pushed(x2, SpecNode::Command(name, seq![arg]));
                    Ok((x3, id))
                },
                Err(e) => Err(e),
            }
        } else {
            Err(Error::ExpectedArgs { found: at(s, p3), span: here_span(s, p3) })
        }
    }
}

/// A parenthesized, comma-separated argument list terminated by `)`.
pub open spec fn paren_args(s: Seq<u8>, x: PState, blocks: bool) -> Result<
    (PState, Seq<SpecArg>),
    Error,
>
    decreases s.len() - x.p, 0int,
{
    if !(0 <= x.p && x.p <= s.len()) {
        Err(stuck())
    } else {
        match bump(s, x.p, x.st) {
            Ok((p1, st1)) => {
                let p2 = ws_end(s, p1);
                if !(x.p < p2 && p2 <= s.len()) {
                    Err(stuck())
                } else {
                    match paren_loop(s, PState { p: p2, st: st1, ns: x.ns }, blocks) {
                        Ok((x2, args)) => match expect_byte(s, x2.p, x2.st, 0x29) {
                            Ok((p3, st3)) => Ok((PState { p: p3, st: st3, ns: x2.ns }, args)),
                            Err(e) => Err(e),
                        },
                        Err(e) => Err(e),
                    }
                }
            },
            Err(e) => Err(e),
        }
    }
}

/// The argument list's scanning loop: stop at `)` or end of input, else
/// dispatch one argument by its leading byte.
pub open spec fn paren_loop(s: Seq<u8>, x: PState, blocks: bool) -> Result<
    (PState, Seq<SpecArg>),
    Error,
>
    decreases s.len() - x.p, 1int,
{
    if !(0 <= x.p && x.p <= s.len()) {
        Err(stuck())
    } else if x.p >= s.len() {
        Ok((x, Seq::<SpecArg>::empty()))
    } else {
        let p1 = ws_end(s, x.p);
        if !(x.p <= p1 && p1 <= s.len()) {
            Err(stuck())
        } else {
            let b = at(s, p1);
            if b == 0x29 {
                Ok((PState { p: p1, st: x.st, ns: x.ns }, Seq::<SpecArg>::empty()))
            } else if b == 0x5b {
                match bracketed_arg(s, PState { p: p1, st: x.st, ns: x.ns }) {
                    Ok((x2, arg)) => if x.p < x2.p && x2.p <= s.len() {
                        args_rest(s, x2, arg, blocks)
                    } else {
                        Err(stuck())
                    },
                    Err(e) => Err(e),
                }
            } else if b == 0x7b && blocks {
                match braced_arg(s, PState { p: p1, st: x.st, ns: x.ns }) {
                    Ok((x2, arg)) => if x.p < x2.p && x2.p <= s.len() {
                        args_rest(s, x2, arg, blocks)
                    } else {
                        Err(stuck())
                    },
                    Err(e) => Err(e),
                }
            } else if b == 0x22 {
                match string_arg(s, p1, x.st) {
                    Ok((arg, p2, st2)) => if x.p < p2 && p2 <= s.len() {
                        args_rest(s, PState { p: p2, st: st2, ns: x.ns }, arg, blocks)
                    } else {
                        Err(stuck())
                    },
                    Err(e) => Err(e),
                }
            } else if is_alpha(b) {
                let (arg, p2) = ident_arg(s, p1);
                if x.p < p2 && p2 <= s.len() {
                    args_rest(s, PState { p: p2, st: x.st, ns: x.ns }, arg, blocks)
                } else {
                    Err(stuck())
                }
            } else {
                Err(Error::ExpectedArgs { found: b, span: here_span(s, p1) })
            }
        }
    }
}

/// After one argument: a `,` is mandatory unless the next byte is `)`; then
/// scan the remaining arguments.
pub open spec fn args_rest(s: Seq<u8>, x: PState, arg: SpecArg, blocks: bool) -> Result<
    (PState, Seq<SpecArg>),
    Error,
>
    decreases s.len() - x.p, 2int,
{
    if !(0 <= x.p && x.p <= s.len()) {
        Err(stuck())
    } else {
        let p3 = ws_end(s, x.p);
        if !(x.p <= p3 && p3 <= s.len()) {
            Err(stuck())
        } else if at(s, p3) == 0x29 {
            match paren_loop(s, PState { p: p3, st: x.st, ns: x.ns }, blocks) {
                Ok((x3, rest)) => Ok((x3, seq![arg] + rest)),
                Err(e) => Err(e),
            }
        } else {
            match expect_byte(s, p3, x.st, 0x2c) {
                Ok((p4, st4)) => if x.p < p4 && p4 <= s.len() {
                    match paren_loop(s, PState { p: p4, st: st4, ns: x.ns }, blocks) {
                        Ok((x3, rest)) => Ok((x3, seq![arg] + rest)),
                        Err(e) => Err(e),
                    }
                } else {
                    Err(stuck())
                },
                Err(e) => Err(e),
            }
        }
    }
}

/// A bracketed argument: `[`, one inline run, `]`. The span keeps the
/// brackets.
pub open spec fn bracketed_arg(s: Seq<u8>, x: PState) -> Result<(PState, SpecArg), Error>
    decreases s.len() - x.p, 0int,
{
    if !(0 <= x.p && x.p <= s.len()) {
        Err(stuck())
    } else {
        match bump(s, x.p, x.st) {
            Ok((p1, st1)) => if x.p < p1 && p1 <= s.len() {
                match inline_node(s, PState { p: p1, st: st1, ns: x.ns }) {
                    Ok((x2, id)) => match expect_byte(s, x2.p, x2.st, 0x5d) {
                        Ok((p3, st3)) => Ok(
                            (
                                PState { p: p3, st: st3, ns: x2.ns },
                                SpecArg::Inline(id, Span { start: x.p as u32, end: p3 as u32 }),
                            ),
                        ),
                        Err(e) => Err(e),
                    },
                    Err(e) => Err(e),
                }
            } else {
                Err(stuck())
            },
            Err(e) => Err(e),
        }
    }
}

/// A braced argument: `{`, zero or more blocks, `}`. The span keeps the
/// braces.
pub open spec fn braced_arg(s: Seq<u8>, x: PState) -> Result<(PState, SpecArg), Error>
    decreases s.len() - x.p, 0int,
{
    if !(0 <= x.p && x.p <= s.len()) {
        Err(stuck())
    } else {
        match bump(s, x.p, x.st) {
            Ok((p1, st1)) => if x.p < p1 && p1 <= s.len() {
                match braced_items(s, PState { p: p1, st: st1, ns: x.ns }) {
                    Ok((x2, ids)) => match expect_byte(s, x2.p, x2.st, 0x7d) {
                        Ok((p3, st3)) => Ok(
                            (
                                PState { p: p3, st: st3, ns: x2.ns },
                                SpecArg::Block(ids, Span { start: x.p as u32, end: p3 as u32 }),
                            ),
                        ),
                        Err(e) => Err(e),
                    },
                    Err(e) => Err(e),
                }
            } else {
                Err(stuck())
            },
            Err(e) => Err(e),
        }
    }
}

/// The blocks inside a braced argument, up to the closing `}` (left for the
/// caller). A closer byte of an enclosing construct in block position is
/// crossed with [`bump`], where it must match the stack.
pub open spec fn braced_items(s: Seq<u8>, x: PState) -> Result<(PState, Seq<NodeId>), Error>
    decreases s.len() - x.p, 4int,
{
    if !(0 <= x.p && x.p <= s.len()) {
        Err(stuck())
    } else {
        let p1 = ws_end(s, x.p);
        if !(x.p <= p1 && p1 <= s.len()) {
            Err(stuck())
        } else if p1 >= s.len() || at(s, p1) == 0x7d {
            Ok((PState { p: p1, st: x.st, ns: x.ns }, Seq::<NodeId>::empty()))
        } else if at(s, p1) == 0x29 || at(s, p1) == 0x5d {
            match bump(s, p1, x.st) {
                Ok((p2, st2)) => if x.p < p2 && p2 <= s.len() {
                    braced_items(s, PState { p: p2, st: st2, ns: x.ns })
                } else {
                    Err(stuck())
                },
                Err(e) => Err(e),
            }
        } else {
            match block(s, PState { p: p1, st: x.st, ns: x.ns }) {
                Ok((x2, id)) => if x.p < x2.p && x2.p <= s.len() {
                    match braced_items(s, x2) {
                        Ok((x3, rest)) => Ok((x3, seq![id] + rest)),
                        Err(e) => Err(e),
                    }
                } else {
                    Err(stuck())
                },
                Err(e) => Err(e),
            }
        }
    }
}

/// An inline run: a command if the sigil is next, else a text section
/// wrapped in a transparent `Group`.
pub open spec fn inline_node(s: Seq<u8>, x: PState) -> Result<(PState, NodeId), Error>
    decreases s.len() - x.p, 3int,
{
    if !(0 <= x.p && x.p <= s.len()) {
        Err(stuck())
    } else if at(s, x.p) == 0x7e {
        command(s, x, false)
    } else {
        match text_items(s, x, x.st.len() as int, Some(x.p)) {
            Ok((x2, ids)) => {
                let (x3, id) = pushed(x2, SpecNode::Group(ids));
                Ok((x3, id))
            },
            Err(e) => Err(e),
        }
    }
}

/// A block: a command (block arguments permitted) if the sigil is next,
/// else a text section wrapped as a `Paragraph`.
pub open spec fn block(s: Seq<u8>, x: PState) -> Result<(PState, NodeId), Error>
    decreases s.len() - x.p, 3int,
{
    if !(0 <= x.p && x.p <= s.len()) {
        Err(stuck())
    } else if at(s, x.p) == 0x7e {
        command(s, x, true)
    } else {
        match text_items(s, x, x.st.len() as int, Some(x.p)) {
            Ok((x2, ids)) => {
                let (x3, id) = pushed(x2, SpecNode::Paragraph(ids));
                Ok((x3, id))
            },
            Err(e) => Err(e),
        }
    }
}

/// A text section: raw bytes accumulate into a pending `Text` span until the
/// command sigil (emit the pending text, then a nested inline command), a
/// newline (consumed, not included in the emitted span, section ends), or a
/// closer byte whose stack depth equals `d0`, the depth recorded when the
/// section began (it belongs to the caller: section ends without consuming).
pub open spec fn text_items(
    s: Seq<u8>,
    x: PState,
    d0: int,
    tstart: Option<int>,
) -> Result<(PState, Seq<NodeId>), Error>
    decreases s.len() - x.p, 1int,
{
    if !(0 <= x.p && x.p <= s.len()) {
        Err(stuck())
    } else if x.p >= s.len() {
        let (x1, pre) = flush_text(x, tstart, x.p);
        Ok((x1, pre))
    } else {
        let b = s[x.p];
        if b == 0x7e {
            let (x1, pre) = flush_text(x, tstart, x.p);
            match command(s, x1, false) {
                Ok((x2, id)) => if x.p < x2.p && x2.p <= s.len() {
                    match text_items(s, x2, d0, None) {
                        Ok((x3, rest)) => Ok((x3, pre + seq![id] + rest)),
                        Err(e) => Err(e),
                    }
                } else {
                    Err(stuck())
                },
                Err(e) => Err(e),
            }
        } else if b == 0x0a {
            let (x1, pre) = flush_text(x, tstart, x.p);
            Ok((PState { p: x.p + 1, st: x1.st, ns: x1.ns }, pre))
        } else if is_closer(b) && x.st.len() == d0 {
            let (x1, pre) = flush_text(x, tstart, x.p);
            Ok((x1, pre))
        } else {
            let t2 = if tstart is None {
                Some(x.p)
            } else {
                tstart
            };
            match bump(s, x.p, x.st) {
                Ok((p2, st2)) => if x.p < p2 && p2 <= s.len() {
                    text_items(s, PState { p: p2, st: st2, ns: x.ns }, d0, t2)
                } else {
                    Err(stuck())
                },
                Err(e) => Err(e),
            }
        }
    }
}

/// The blocks of the whole document, with inter-block whitespace eaten. A
/// stray closer byte in block position is crossed with [`bump`], where it
/// must match the stack.
pub open spec fn doc_items(s: Seq<u8>, x: PState) -> Result<(PState, Seq<NodeId>), Error>
    decreases s.len() - x.p, 4int,
{
    if !(0 <= x.p && x.p <= s.len()) {
        Err(stuck())
    } else {
        let p1 = ws_end(s, x.p);
        if !(x.p <= p1 && p1 <= s.len()) {
            Err(stuck())
        } else if p1 >= s.len() {
            Ok((PState { p: p1, st: x.st, ns: x.ns }, Seq::<NodeId>::empty()))
        } else if is_closer(at(s, p1)) {
            match bump(s, p1, x.st) {
                Ok((p2, st2)) => if x.p < p2 && p2 <= s.len() {
                    doc_items(s, PState { p: p2, st: st2, ns: x.ns })
                } else {
                    Err(stuck())
                },
                Err(e) => Err(e),
            }
        } else {
            match block(s, PState { p: p1, st: x.st, ns: x.ns }) {
                Ok((x2, id)) => if x.p < x2.p && x2.p <= s.len() {
                    match doc_items(s, x2) {
                        Ok((x3, rest)) => Ok((x3, seq![id] + rest)),
                        Err(e) => Err(e),
                    }
                } else {
                    Err(stuck())
                },
                Err(e) => Err(e),
            }
        }
    }
}

/// The whole document: its blocks gathered under a root `Group`. The result
/// is the final arena and the root's handle.
pub open spec fn document(s: Seq<u8>) -> Result<(Seq<SpecNode>, NodeId), Error> {
    match doc_items(s, PState { p: 0, st: Seq::<Delim>::empty(), ns: Seq::<SpecNode>::empty() }) {
        Ok((x2, ids)) => {
            let (x3, root) = pushed(x2, SpecNode::Group(ids));
            Ok((x3.ns, root))
        },
        Err(e) => Err(e),
    }
}

} // verus!
