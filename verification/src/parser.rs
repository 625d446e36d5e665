//! The recursive-descent parser: a single pass over the source bytes with
//! one-byte lookahead and a delimiter stack, proved to agree with the
//! grammar rule by rule.

use vstd::prelude::*;

use crate::ast::{
    arena_wf, arg_wf, args_bounded, ids_bounded, lemma_arena_wf_push, Argument, Ast, Node, NodeId,
    SpecArg, SpecNode,
};
use crate::error::{Error, Span};
use crate::grammar::{
    alpha_end, args_rest, at, block, braced_arg, braced_items, bracketed_arg, bump, command,
    doc_items, document, expect_byte, here_span, ident_arg, inline_node, is_alpha, is_closer,
    flush_text, is_opener, is_ws, lemma_alpha_end_lb, paren_args, paren_loop, string_arg,
    string_scan,
    text_items, ws_end, Delim, PState,
};

verus! {

/// `b` is one of the five ASCII whitespace bytes.
fn byte_is_ws(b: u8) -> (r: bool)
    ensures
        r == is_ws(b),
{
    b == 0x20 || b == 0x09 || b == 0x0a || b == 0x0c || b == 0x0d
}

/// `b` is an ASCII letter.
fn byte_is_alpha(b: u8) -> (r: bool)
    ensures
        r == is_alpha(b),
{
    (0x41 <= b && b <= 0x5a) || (0x61 <= b && b <= 0x7a)
}

/// `b` closes one of the three delimiter pairs.
fn byte_is_closer(b: u8) -> (r: bool)
    ensures
        r == is_closer(b),
{
    b == 0x29 || b == 0x5d || b == 0x7d
}

/// The pending-text marker as the grammar sees it.
pub open spec fn tstart_view(o: Option<u32>) -> Option<int> {
    match o {
        Some(v) => Some(v as int),
        None => None,
    }
}

/// The single-pass cursor over the source bytes, building the arena as it
/// scans. Its behaviour is the grammar's: every method agrees with the
/// spec-level rule of the same shape in [`crate::grammar`].
pub struct Parser<'b> {
    ast: Ast,
    bytes: &'b [u8],
    position: u32,
    delim_stack: Vec<Delim>,
}

impl<'b> Parser<'b> {
    /// The source being parsed.
    pub closed spec fn src(self) -> Seq<u8> {
        self.bytes@
    }

    /// The cursor state: position, delimiter stack, arena.
    pub closed spec fn cfg(self) -> PState {
        PState { p: self.position as int, st: self.delim_stack@, ns: self.ast.arena() }
    }

    /// The parser's invariant: the cursor stays inside the source, the
    /// source length fits the position type, and the arena built so far is
    /// well-formed.
    pub closed spec fn inv(self) -> bool {
        self.position <= self.src().len() <= u32::MAX
        && arena_wf(self.ast.arena(), self.src().len() as int)
    }

    pub fn new(bytes: &'b [u8]) -> (r: Self)
        requires
            bytes@.len() <= u32::MAX,
        ensures
            r.inv(),
            r.src() == bytes@,
            r.cfg() == (PState {
                p: 0,
                st: Seq::<Delim>::empty(),
                ns: Seq::<SpecNode>::empty(),
            }),
    {
        let r = Self { ast: Ast::new(), bytes, position: 0, delim_stack: Vec::new() };
        proof {
            assert(r.delim_stack@ =~= Seq::<Delim>::empty());
        }
        r
    }

    fn at_end(&self) -> (r: bool)
        ensures
            r == (self.cfg().p == self.src().len()),
    {
        self.position as usize == self.bytes.len()
    }

    /// The byte under the cursor, 0 at end of input.
    fn peek(&self) -> (r: u8)
        requires
            self.inv(),
        ensures
            r == at(self.src(), self.cfg().p),
    {
        if (self.position as usize) < self.bytes.len() {
            self.bytes[self.position as usize]
        } else {
            0
        }
    }

    /// The byte just behind the cursor.
    fn previous(&self) -> (r: u8)
        requires
            self.inv(),
            1 <= self.cfg().p,
        ensures
            r == self.src()[self.cfg().p - 1],
    {
        self.bytes[(self.position - 1) as usize]
    }

    /// The span of the byte under the cursor (empty at end of input).
    fn here(&self) -> (r: Span)
        requires
            self.inv(),
        ensures
            r == here_span(self.src(), self.cfg().p),
    {
        let end = if (self.position as usize) < self.bytes.len() {
            self.position + 1
        } else {
            self.position
        };
        Span::new(self.position, end)
    }

    /// Step over a byte that is no delimiter (a no-op at end of input): the
    /// stack and arena stay put.
    fn advance(&mut self)
        requires
            old(self).inv(),
            old(self).cfg().p == old(self).src().len() || !is_opener(
                old(self).src()[old(self).cfg().p],
            ) && !is_closer(old(self).src()[old(self).cfg().p]),
        ensures
            final(self).inv(),
            final(self).src() == old(self).src(),
            bump(old(self).src(), old(self).cfg().p, old(self).cfg().st) == Ok::<_, Error>(
                (final(self).cfg().p, final(self).cfg().st),
            ),
            final(self).cfg().st == old(self).cfg().st,
            final(self).cfg().ns == old(self).cfg().ns,
            old(self).cfg().p <= final(self).cfg().p <= old(self).cfg().p + 1,
            old(self).cfg().p < old(self).src().len() ==> final(self).cfg().p == old(
                self,
            ).cfg().p + 1,
    {
        if (self.position as usize) != self.bytes.len() {
            self.position = self.position + 1;
        }
    }

    /// Step over any byte, pushing or popping the delimiter stack as
    /// [`bump`] says; a closer that does not match its opener is the
    /// unbalanced-delimiter error.
    fn bump(&mut self) -> (r: Result<(), Error>)
        requires
            old(self).inv(),
        ensures
            final(self).inv(),
            final(self).src() == old(self).src(),
            final(self).cfg().ns == old(self).cfg().ns,
            match bump(old(self).src(), old(self).cfg().p, old(self).cfg().st) {
                Ok((p2, st2)) => r is Ok && final(self).cfg().p == p2 && final(self).cfg().st
                    == st2,
                Err(e) => r == Err::<(), Error>(e),
            },
    {
        if self.position as usize == self.bytes.len() {
            return Ok(());
        }
        let b = self.bytes[self.position as usize];
        if b == 0x28 {
            self.delim_stack.push(Delim::Paren);
        } else if b == 0x5b {
            self.delim_stack.push(Delim::Bracket);
        } else if b == 0x7b {
            self.delim_stack.push(Delim::Brace);
        } else if b == 0x29 || b == 0x5d || b == 0x7d {
            let want = if b == 0x29 {
                Delim::Paren
            } else if b == 0x5d {
                Delim::Bracket
            } else {
                Delim::Brace
            };
            let popped = self.delim_stack.pop();
            let ok = match popped {
                Some(d) => d == want,
                None => false,
            };
            if !ok {
                return Err(Error::UnbalancedDelimiter { span: self.here() });
            }
        }
        self.position = self.position + 1;
        Ok(())
    }

    /// Step over whitespace; the stack and arena stay put.
    fn eat_whitespace(&mut self)
        requires
            old(self).inv(),
        ensures
            final(self).inv(),
            final(self).src() == old(self).src(),
            final(self).cfg().st == old(self).cfg().st,
            final(self).cfg().ns == old(self).cfg().ns,
            final(self).cfg().p == ws_end(old(self).src(), old(self).cfg().p),
            old(self).cfg().p <= final(self).cfg().p,
    {
        let ghost s = self.src();
        let ghost p0 = self.cfg().p;
        while !self.at_end() && byte_is_ws(self.peek())
            invariant
                self.inv(),
                self.src() == s,
                self.cfg().st == old(self).cfg().st,
                self.cfg().ns == old(self).cfg().ns,
                p0 <= self.cfg().p,
                ws_end(s, p0) == ws_end(s, self.cfg().p),
            decreases s.len() - self.cfg().p,
        {
            self.advance();
        }
    }

    /// A quoted-string argument: step over the opening quote, scan to the
    /// first unescaped quote (`\"` is a literal escaped quote, not a
    /// terminator), step over it. The span keeps both quotes.
    fn parse_string_arg(&mut self) -> (r: Result<Argument, Error>)
        requires
            old(self).inv(),
            at(old(self).src(), old(self).cfg().p) == 0x22,
        ensures
            final(self).inv(),
            final(self).src() == old(self).src(),
            final(self).cfg().ns == old(self).cfg().ns,
            match string_arg(old(self).src(), old(self).cfg().p, old(self).cfg().st) {
                Ok((arg, p2, st2)) => r matches Ok(a) && a@ == arg && final(self).cfg().p == p2
                    && final(self).cfg().st == st2,
                Err(e) => r matches Err(e2) && e2 == e,
            },
            r is Ok ==> old(self).cfg().p < final(self).cfg().p,
            r matches Ok(a) ==> (a@ matches SpecArg::String(sp) && sp.wf(
                final(self).src().len() as int,
            ) && (sp.start + 2 <= sp.end || final(self).cfg().p == final(self).src().len())),
    {
        let ghost s = self.src();
        let start = self.position;
        self.advance();  // the opening quote is no delimiter
        let ghost p1 = self.cfg().p;
        let ghost st1 = self.cfg().st;
        loop
            invariant
                self.inv(),
                self.src() == s,
                s == old(self).src(),
                self.cfg().ns == old(self).cfg().ns,
                old(self).cfg().p < s.len(),
                p1 == old(self).cfg().p + 1,
                st1 == old(self).cfg().st,
                1 <= p1 <= self.cfg().p,
                string_scan(s, p1, st1) == string_scan(s, self.cfg().p, self.cfg().st),
            ensures
                self.inv(),
                self.src() == s,
                self.cfg().ns == old(self).cfg().ns,
                p1 <= self.cfg().p,
                string_scan(s, p1, st1) == Ok::<_, Error>((self.cfg().p, self.cfg().st)),
                self.cfg().p == s.len() || at(s, self.cfg().p) == 0x22,
            decreases s.len() - self.cfg().p,
        {
            if self.at_end() {
                break;
            }
            let c = self.peek();
            if c == 0x22 && self.previous() != 0x5c {
                break;
            }
            match self.bump() {
                Ok(()) => {},
                Err(e) => {
                    return Err(e);
                },
            }
        }
        self.advance();  // the closing quote (or end of input)
        Ok(Argument::String(Span::new(start, self.position)))
    }

    /// A bare identifier argument: the maximal alphabetic run.
    fn parse_ident_arg(&mut self) -> (r: Argument)
        requires
            old(self).inv(),
        ensures
            final(self).inv(),
            final(self).src() == old(self).src(),
            final(self).cfg().st == old(self).cfg().st,
            final(self).cfg().ns == old(self).cfg().ns,
            ({
                let (arg, p2) = ident_arg(old(self).src(), old(self).cfg().p);
                r@ == arg && final(self).cfg().p == p2
            }),
            old(self).cfg().p <= final(self).cfg().p,
    {
        let ghost s = self.src();
        let ghost p0 = self.cfg().p;
        let start = self.position;
        while byte_is_alpha(self.peek())
            invariant
                self.inv(),
                self.src() == s,
                self.cfg().st == old(self).cfg().st,
                self.cfg().ns == old(self).cfg().ns,
                p0 <= self.cfg().p,
                alpha_end(s, p0) == alpha_end(s, self.cfg().p),
            decreases s.len() - self.cfg().p,
        {
            self.advance();
        }
        Argument::Ident(Span::new(start, self.position))
    }

    /// A command invocation: the sigil, a maximal alphabetic name, optional
    /// whitespace, then exactly one argument form. Any other byte after the
    /// name is the malformed-argument-list error.
    fn parse_command(&mut self, blocks: bool) -> (r: Result<NodeId, Error>)
        requires
            old(self).inv(),
            at(old(self).src(), old(self).cfg().p) == 0x7e,
        ensures
            final(self).inv(),
            final(self).src() == old(self).src(),
            match command(old(self).src(), old(self).cfg(), blocks) {
                Ok((x2, id)) => r matches Ok(i2) && i2 == id && final(self).cfg() == x2,
                Err(e) => r matches Err(e2) && e2 == e,
            },
            r is Ok ==> old(self).cfg().p < final(self).cfg().p,
            r is Ok ==> old(self).cfg().ns.len() <= final(self).cfg().ns.len(),
            r matches Ok(id) ==> id.idx < final(self).cfg().ns.len(),
        decreases self.src().len() - self.cfg().p, 0int,
    {
        let ghost s = self.src();
        let ghost x0 = self.cfg();
        self.advance();  // the sigil is no delimiter
        let name_start = self.position;
        let ghost pn = self.cfg().p;
        while byte_is_alpha(self.peek())
            invariant
                self.inv(),
                self.src() == s,
                self.cfg().st == x0.st,
                self.cfg().ns == x0.ns,
                pn <= self.cfg().p,
                alpha_end(s, pn) == alpha_end(s, self.cfg().p),
            decreases s.len() - self.cfg().p,
        {
            self.advance();
        }
        let name_span = Span::new(name_start, self.position);
        self.eat_whitespace();
        let b = self.peek();
        let args: Vec<Argument>;
        if b == 0x28 {
            args = match self.parse_parenthesized_args(blocks) {
                Ok(v) => v,
                Err(e) => {
                    return Err(e);
                },
            };
        } else if b == 0x5b {
            let a = match self.parse_bracketed_arg() {
                Ok(a) => a,
                Err(e) => {
                    return Err(e);
                },
            };
            args = vec![a];
            proof {
                assert(args@.map_values(|a: Argument| a@) =~= seq![a@]);
            }
        } else if b == 0x7b && blocks {
            let a = match self.parse_braced_arg() {
                Ok(a) => a,
                Err(e) => {
                    return Err(e);
                },
            };
            args = vec![a];
            proof {
                assert(args@.map_values(|a: Argument| a@) =~= seq![a@]);
            }
        } else {
            return Err(Error::ExpectedArgs { found: b, span: self.here() });
        }
        let ghost node = SpecNode::Command(name_span, args@.map_values(|a: Argument| a@));
        proof {
            lemma_arena_wf_push(self.cfg().ns, node, s.len() as int);
        }
        let id = self.ast.push(Node::Command(name_span, args));
        Ok(id)
    }

    /// A parenthesized, comma-separated argument list terminated by `)`;
    /// each element is dispatched by its leading byte.
    #[verifier::rlimit(50)]
    fn parse_parenthesized_args(&mut self, blocks: bool) -> (r: Result<Vec<Argument>, Error>)
        requires
            old(self).inv(),
            at(old(self).src(), old(self).cfg().p) == 0x28,
        ensures
            final(self).inv(),
            final(self).src() == old(self).src(),
            match paren_args(old(self).src(), old(self).cfg(), blocks) {
                Ok((x2, args)) => r matches Ok(v) && v@.map_values(|a: Argument| a@) == args
                    && final(self).cfg() == x2 && args_bounded(
                    args,
                    final(self).cfg().ns.len() as int,
                    final(self).src().len() as int,
                ),
                Err(e) => r matches Err(e2) && e2 == e,
            },
            r is Ok ==> old(self).cfg().p < final(self).cfg().p,
            r is Ok ==> old(self).cfg().ns.len() <= final(self).cfg().ns.len(),
        decreases self.src().len() - self.cfg().p, 0int,
    {
        let ghost s = self.src();
        let ghost x0 = self.cfg();
        match self.bump() {
            Ok(()) => {},
            Err(e) => {
                return Err(e);
            },
        }
        self.eat_whitespace();
        let ghost t = paren_loop(s, self.cfg(), blocks);
        let mut args: Vec<Argument> = Vec::new();
        loop
            invariant
                self.inv(),
                self.src() == s,
                s == old(self).src(),
                x0 == old(self).cfg(),
                at(s, x0.p) == 0x28,
                x0.p < self.cfg().p,
                x0.ns.len() <= self.cfg().ns.len(),
                args_bounded(
                    args@.map_values(|a: Argument| a@),
                    self.cfg().ns.len() as int,
                    s.len() as int,
                ),
                paren_args(s, x0, blocks) == (match t {
                    Ok((x2, full)) => match expect_byte(s, x2.p, x2.st, 0x29) {
                        Ok((p3, st3)) => Ok::<_, Error>(
                            (PState { p: p3, st: st3, ns: x2.ns }, full),
                        ),
                        Err(e) => Err(e),
                    },
                    Err(e) => Err(e),
                }),
                match paren_loop(s, self.cfg(), blocks) {
                    Ok((x2, rest)) => t == Ok::<_, Error>(
                        (x2, args@.map_values(|a: Argument| a@) + rest),
                    ),
                    Err(e) => t == Err::<(PState, Seq<SpecArg>), Error>(e),
                },
            ensures
                self.inv(),
                self.src() == s,
                x0.p < self.cfg().p,
                x0.ns.len() <= self.cfg().ns.len(),
                paren_args(s, x0, blocks) == (match t {
                    Ok((x2, full)) => match expect_byte(s, x2.p, x2.st, 0x29) {
                        Ok((p3, st3)) => Ok::<_, Error>(
                            (PState { p: p3, st: st3, ns: x2.ns }, full),
                        ),
                        Err(e) => Err(e),
                    },
                    Err(e) => Err(e),
                }),
                match t {
                    Ok((x2, full)) => x2 == self.cfg() && full == args@.map_values(
                        |a: Argument| a@,
                    ) && args_bounded(full, self.cfg().ns.len() as int, s.len() as int),
                    Err(_) => false,
                },
            decreases s.len() - self.cfg().p,
        {
            if self.at_end() {
                break;
            }
            self.eat_whitespace();
            let ghost xh = self.cfg();
            let b = self.peek();
            if b == 0x29 {
                break;
            }
            let a: Argument;
            if b == 0x5b {
                a = match self.parse_bracketed_arg() {
                    Ok(a) => a,
                    Err(e) => {
                        return Err(e);
                    },
                };
            } else if b == 0x7b && blocks {
                a = match self.parse_braced_arg() {
                    Ok(a) => a,
                    Err(e) => {
                        return Err(e);
                    },
                };
            } else if b == 0x22 {
                a = match self.parse_string_arg() {
                    Ok(a) => a,
                    Err(e) => {
                        return Err(e);
                    },
                };
            } else if byte_is_alpha(b) {
                proof {
                    lemma_alpha_end_lb(s, self.cfg().p);
                }
                a = self.parse_ident_arg();
            } else {
                return Err(Error::ExpectedArgs { found: b, span: self.here() });
            }
            proof {
                assert(paren_loop(s, xh, blocks) == args_rest(s, self.cfg(), a@, blocks));
            }
            let ghost xa = self.cfg();
            self.eat_whitespace();
            if self.peek() != 0x29 {
                match self.expect(0x2c) {
                    Ok(()) => {},
                    Err(e) => {
                        return Err(e);
                    },
                }
            }
            proof {
                assert(args_rest(s, xa, a@, blocks) == (match paren_loop(s, self.cfg(), blocks) {
                    Ok((x3, rest)) => Ok::<_, Error>((x3, seq![a@] + rest)),
                    Err(e) => Err(e),
                }));
            }
            let ghost old_args = args@;
            args.push(a);
            proof {
                assert(args@.map_values(|a2: Argument| a2@) =~= old_args.map_values(
                    |a2: Argument| a2@,
                ).push(a@));
                if let Ok((x3, rest)) = paren_loop(s, self.cfg(), blocks) {
                    assert(old_args.map_values(|a2: Argument| a2@) + (seq![a@] + rest)
                        =~= args@.map_values(|a2: Argument| a2@) + rest);
                }
            }
        }
        match self.expect(0x29) {
            Ok(()) => {},
            Err(e) => {
                return Err(e);
            },
        }
        Ok(args)
    }

    /// A bracketed argument: `[`, one inline run, `]`. The span keeps the
    /// brackets.
    fn parse_bracketed_arg(&mut self) -> (r: Result<Argument, Error>)
        requires
            old(self).inv(),
            at(old(self).src(), old(self).cfg().p) == 0x5b,
        ensures
            final(self).inv(),
            final(self).src() == old(self).src(),
            match bracketed_arg(old(self).src(), old(self).cfg()) {
                Ok((x2, arg)) => r matches Ok(a) && a@ == arg && final(self).cfg() == x2
                    && arg_wf(arg, final(self).cfg().ns.len() as int, final(self).src().len() as int),
                Err(e) => r matches Err(e2) && e2 == e,
            },
            r is Ok ==> old(self).cfg().p < final(self).cfg().p,
            r is Ok ==> old(self).cfg().ns.len() <= final(self).cfg().ns.len(),
        decreases self.src().len() - self.cfg().p, 0int,
    {
        let ghost s = self.src();
        let start = self.position;
        match self.bump() {
            Ok(()) => {},
            Err(e) => {
                return Err(e);
            },
        }
        let node = match self.parse_inline() {
            Ok(id) => id,
            Err(e) => {
                return Err(e);
            },
        };
        match self.expect(0x5d) {
            Ok(()) => {},
            Err(e) => {
                return Err(e);
            },
        }
        Ok(Argument::Inline(node, Span::new(start, self.position)))
    }

    /// A braced argument: `{`, zero or more blocks, `}`. The span keeps the
    /// braces. A stray closer in block position is stepped over with
    /// [`Parser::bump`], where it must match the stack.
    fn parse_braced_arg(&mut self) -> (r: Result<Argument, Error>)
        requires
            old(self).inv(),
            at(old(self).src(), old(self).cfg().p) == 0x7b,
        ensures
            final(self).inv(),
            final(self).src() == old(self).src(),
            match braced_arg(old(self).src(), old(self).cfg()) {
                Ok((x2, arg)) => r matches Ok(a) && a@ == arg && final(self).cfg() == x2
                    && arg_wf(arg, final(self).cfg().ns.len() as int, final(self).src().len() as int),
                Err(e) => r matches Err(e2) && e2 == e,
            },
            r is Ok ==> old(self).cfg().p < final(self).cfg().p,
            r is Ok ==> old(self).cfg().ns.len() <= final(self).cfg().ns.len(),
        decreases self.src().len() - self.cfg().p, 0int,
    {
        let ghost s = self.src();
        let ghost x0 = self.cfg();
        let start = self.position;
        match self.bump() {
            Ok(()) => {},
            Err(e) => {
                return Err(e);
            },
        }
        let ghost t = braced_items(s, self.cfg());
        let mut nodes: Vec<NodeId> = Vec::new();
        loop
            invariant
                self.inv(),
                self.src() == s,
                s == old(self).src(),
                x0 == old(self).cfg(),
                at(s, x0.p) == 0x7b,
                x0.p < self.cfg().p,
                x0.ns.len() <= self.cfg().ns.len(),
                ids_bounded(nodes@, self.cfg().ns.len() as int),
                braced_arg(s, x0) == (match t {
                    Ok((x2, ids)) => match expect_byte(s, x2.p, x2.st, 0x7d) {
                        Ok((p3, st3)) => Ok::<_, Error>(
                            (
                                PState { p: p3, st: st3, ns: x2.ns },
                                SpecArg::Block(ids, Span { start: x0.p as u32, end: p3 as u32 }),
                            ),
                        ),
                        Err(e) => Err(e),
                    },
                    Err(e) => Err(e),
                }),
                match braced_items(s, self.cfg()) {
                    Ok((x2, rest)) => t == Ok::<_, Error>((x2, nodes@ + rest)),
                    Err(e) => t == Err::<(PState, Seq<NodeId>), Error>(e),
                },
            ensures
                self.inv(),
                self.src() == s,
                x0.p < self.cfg().p,
                x0.ns.len() <= self.cfg().ns.len(),
                braced_arg(s, x0) == (match t {
                    Ok((x2, ids)) => match expect_byte(s, x2.p, x2.st, 0x7d) {
                        Ok((p3, st3)) => Ok::<_, Error>(
                            (
                                PState { p: p3, st: st3, ns: x2.ns },
                                SpecArg::Block(ids, Span { start: x0.p as u32, end: p3 as u32 }),
                            ),
                        ),
                        Err(e) => Err(e),
                    },
                    Err(e) => Err(e),
                }),
                match t {
                    Ok((x2, ids)) => x2 == self.cfg() && ids == nodes@ && ids_bounded(
                        ids,
                        self.cfg().ns.len() as int,
                    ),
                    Err(_) => false,
                },
            decreases s.len() - self.cfg().p,
        {
            self.eat_whitespace();
            if self.at_end() {
                break;
            }
            let b = self.peek();
            if b == 0x7d {
                break;
            }
            if b == 0x29 || b == 0x5d {
                match self.bump() {
                    Ok(()) => {},
                    Err(e) => {
                        return Err(e);
                    },
                }
            } else {
                let id = match self.parse_block() {
                    Ok(id) => id,
                    Err(e) => {
                        return Err(e);
                    },
                };
                let ghost old_nodes = nodes@;
                nodes.push(id);
                proof {
                    if let Ok((x3, rest)) = braced_items(s, self.cfg()) {
                        assert(old_nodes + (seq![id] + rest) =~= nodes@ + rest);
                    }
                }
            }
        }
        match self.expect(0x7d) {
            Ok(()) => {},
            Err(e) => {
                return Err(e);
            },
        }
        Ok(Argument::Block(nodes, Span::new(start, self.position)))
    }

    /// Emit the pending text run, if one is open, as a `Text` node ending
    /// at the cursor.
    fn flush_pending(&mut self, nodes: &mut Vec<NodeId>, text_start: Option<u32>)
        requires
            old(self).inv(),
            match text_start {
                Some(ts) => ts <= old(self).cfg().p,
                None => true,
            },
        ensures
            final(self).inv(),
            final(self).src() == old(self).src(),
            ({
                let (x1, pre) = flush_text(
                    old(self).cfg(),
                    tstart_view(text_start),
                    old(self).cfg().p,
                );
                final(self).cfg() == x1 && final(nodes)@ == old(nodes)@ + pre
            }),
            ids_bounded(old(nodes)@, old(self).cfg().ns.len() as int) ==> ids_bounded(
                final(nodes)@,
                final(self).cfg().ns.len() as int,
            ),
    {
        match text_start {
            Some(ts) => {
                proof {
                    lemma_arena_wf_push(
                        self.cfg().ns,
                        SpecNode::Text(Span { start: ts, end: self.position }),
                        self.src().len() as int,
                    );
                }
                let tid = self.ast.push(Node::Text(Span::new(ts, self.position)));
                nodes.push(tid);
                proof {
                    assert(nodes@ =~= old(nodes)@ + seq![tid]);
                }
            },
            None => {
                proof {
                    assert(nodes@ =~= old(nodes)@ + Seq::<NodeId>::empty());
                }
            },
        }
    }

    /// A text section: raw bytes accumulate into a pending `Text` span until
    /// the command sigil, a newline (consumed, not included in the emitted
    /// span), or a closer byte whose stack depth equals the depth recorded
    /// when the section began (left for the caller).
    fn parse_text_section(&mut self) -> (r: Result<Vec<NodeId>, Error>)
        requires
            old(self).inv(),
        ensures
            final(self).inv(),
            final(self).src() == old(self).src(),
            match text_items(
                old(self).src(),
                old(self).cfg(),
                old(self).cfg().st.len() as int,
                Some(old(self).cfg().p),
            ) {
                Ok((x2, ids)) => r matches Ok(v) && v@ == ids && final(self).cfg() == x2
                    && ids_bounded(ids, final(self).cfg().ns.len() as int),
                Err(e) => r matches Err(e2) && e2 == e,
            },
            r is Ok ==> old(self).cfg().p <= final(self).cfg().p,
            r is Ok ==> old(self).cfg().ns.len() <= final(self).cfg().ns.len(),
            r is Ok ==> (old(self).cfg().p < final(self).cfg().p || old(self).cfg().p == old(
                self,
            ).src().len() || is_closer(at(old(self).src(), old(self).cfg().p))),
        decreases self.src().len() - self.cfg().p, 1int,
    {
        let ghost s = self.src();
        let ghost x0 = self.cfg();
        let stack_len = self.delim_stack.len();
        let ghost d0 = stack_len as int;
        let mut nodes: Vec<NodeId> = Vec::new();
        let mut text_start: Option<u32> = Some(self.position);
        let ghost t = text_items(s, x0, d0, Some(x0.p));
        loop
            invariant_except_break
                match text_items(s, self.cfg(), d0, tstart_view(text_start)) {
                    Ok((x2, rest)) => t == Ok::<_, Error>((x2, nodes@ + rest)),
                    Err(e) => t == Err::<(PState, Seq<NodeId>), Error>(e),
                },
            invariant
                self.inv(),
                self.src() == s,
                s == old(self).src(),
                x0 == old(self).cfg(),
                t == text_items(s, x0, d0, Some(x0.p)),
                d0 == stack_len as int,
                d0 == x0.st.len() as int,
                x0.p <= self.cfg().p,
                x0.ns.len() <= self.cfg().ns.len(),
                ids_bounded(nodes@, self.cfg().ns.len() as int),
                match text_start {
                    Some(ts) => ts <= self.cfg().p,
                    None => true,
                },
            ensures
                self.inv(),
                self.src() == s,
                x0.p <= self.cfg().p,
                x0.ns.len() <= self.cfg().ns.len(),
                x0.p < self.cfg().p || x0.p == s.len() || is_closer(at(s, x0.p)),
                match t {
                    Ok((x2, ids)) => x2 == self.cfg() && ids == nodes@ && ids_bounded(
                        ids,
                        self.cfg().ns.len() as int,
                    ),
                    Err(_) => false,
                },
            decreases s.len() - self.cfg().p,
        {
            let ghost xh = self.cfg();
            let ghost nh = nodes@;
            let ghost tsh = tstart_view(text_start);
            if self.at_end() {
                self.flush_pending(&mut nodes, text_start);
                proof {
                    assert(nh + flush_text(xh, tsh, xh.p).1 =~= nodes@);
                }
                break;
            }
            let b = self.peek();
            if b == 0x7e {
                self.flush_pending(&mut nodes, text_start);
                text_start = None;
                let id = match self.parse_command(false) {
                    Ok(id) => id,
                    Err(e) => {
                        proof {
                            assert(text_items(s, xh, d0, tsh) == Err::<
                                (PState, Seq<NodeId>),
                                Error,
                            >(e));
                        }
                        return Err(e);
                    },
                };
                nodes.push(id);
                proof {
                    if let Ok((x3, rest)) = text_items(s, self.cfg(), d0, tstart_view(text_start)) {
                        assert(nh + (flush_text(xh, tsh, xh.p).1 + seq![id] + rest) =~= nodes@
                            + rest);
                    }
                }
            } else if b == 0x0a {
                self.flush_pending(&mut nodes, text_start);
                text_start = None;
                self.advance();
                proof {
                    assert(nh + flush_text(xh, tsh, xh.p).1 =~= nodes@);
                }
                break;
            } else if byte_is_closer(b) && self.delim_stack.len() == stack_len {
                self.flush_pending(&mut nodes, text_start);
                text_start = None;
                proof {
                    assert(nh + flush_text(xh, tsh, xh.p).1 =~= nodes@);
                }
                break;
            } else {
                match text_start {
                    Some(_) => {},
                    None => {
                        text_start = Some(self.position);
                    },
                }
                match self.bump() {
                    Ok(()) => {},
                    Err(e) => {
                        proof {
                            assert(text_items(s, xh, d0, tsh) == Err::<
                                (PState, Seq<NodeId>),
                                Error,
                            >(e));
                        }
                        return Err(e);
                    },
                }
            }
        }
        Ok(nodes)
    }

    /// An inline run: a command if the sigil is next, else a text section
    /// wrapped in a transparent `Group`.
    fn parse_inline(&mut self) -> (r: Result<NodeId, Error>)
        requires
            old(self).inv(),
        ensures
            final(self).inv(),
            final(self).src() == old(self).src(),
            match inline_node(old(self).src(), old(self).cfg()) {
                Ok((x2, id)) => r matches Ok(i2) && i2 == id && final(self).cfg() == x2,
                Err(e) => r matches Err(e2) && e2 == e,
            },
            r is Ok ==> old(self).cfg().p <= final(self).cfg().p,
            r is Ok ==> old(self).cfg().ns.len() <= final(self).cfg().ns.len(),
            r matches Ok(id) ==> id.idx < final(self).cfg().ns.len(),
            r is Ok ==> (old(self).cfg().p < final(self).cfg().p || old(self).cfg().p == old(
                self,
            ).src().len() || is_closer(at(old(self).src(), old(self).cfg().p))),
        decreases self.src().len() - self.cfg().p, 2int,
    {
        let ghost s = self.src();
        if self.peek() == 0x7e {
            self.parse_command(false)
        } else {
            let nodes = match self.parse_text_section() {
                Ok(v) => v,
                Err(e) => {
                    return Err(e);
                },
            };
            proof {
                lemma_arena_wf_push(self.cfg().ns, SpecNode::Group(nodes@), s.len() as int);
            }
            let id = self.ast.push(Node::Group(nodes));
            Ok(id)
        }
    }

    /// A block: a command (block arguments permitted) if the sigil is next,
    /// else a text section wrapped as a `Paragraph`.
    fn parse_block(&mut self) -> (r: Result<NodeId, Error>)
        requires
            old(self).inv(),
        ensures
            final(self).inv(),
            final(self).src() == old(self).src(),
            match block(old(self).src(), old(self).cfg()) {
                Ok((x2, id)) => r matches Ok(i2) && i2 == id && final(self).cfg() == x2,
                Err(e) => r matches Err(e2) && e2 == e,
            },
            r is Ok ==> old(self).cfg().p <= final(self).cfg().p,
            r is Ok ==> old(self).cfg().ns.len() <= final(self).cfg().ns.len(),
            r matches Ok(id) ==> id.idx < final(self).cfg().ns.len(),
            r is Ok ==> (old(self).cfg().p < final(self).cfg().p || old(self).cfg().p == old(
                self,
            ).src().len() || is_closer(at(old(self).src(), old(self).cfg().p))),
        decreases self.src().len() - self.cfg().p, 2int,
    {
        let ghost s = self.src();
        if self.peek() == 0x7e {
            self.parse_command(true)
        } else {
            let nodes = match self.parse_text_section() {
                Ok(v) => v,
                Err(e) => {
                    return Err(e);
                },
            };
            proof {
                lemma_arena_wf_push(self.cfg().ns, SpecNode::Paragraph(nodes@), s.len() as int);
            }
            let id = self.ast.push(Node::Paragraph(nodes));
            Ok(id)
        }
    }

    /// The blocks of the whole document, with inter-block whitespace eaten.
    /// A stray closer byte in block position is stepped over with
    /// [`Parser::bump`], where it must match the stack.
    fn parse_doc_items(&mut self) -> (r: Result<Vec<NodeId>, Error>)
        requires
            old(self).inv(),
        ensures
            final(self).inv(),
            final(self).src() == old(self).src(),
            match doc_items(old(self).src(), old(self).cfg()) {
                Ok((x2, ids)) => r matches Ok(v) && v@ == ids && final(self).cfg() == x2
                    && ids_bounded(ids, final(self).cfg().ns.len() as int),
                Err(e) => r matches Err(e2) && e2 == e,
            },
    {
        let ghost s = self.src();
        let ghost x0 = self.cfg();
        let ghost t = doc_items(s, x0);
        let mut nodes: Vec<NodeId> = Vec::new();
        loop
            invariant
                self.inv(),
                self.src() == s,
                s == old(self).src(),
                x0 == old(self).cfg(),
                t == doc_items(s, x0),
                ids_bounded(nodes@, self.cfg().ns.len() as int),
                match doc_items(s, self.cfg()) {
                    Ok((x2, rest)) => t == Ok::<_, Error>((x2, nodes@ + rest)),
                    Err(e) => t == Err::<(PState, Seq<NodeId>), Error>(e),
                },
            ensures
                self.inv(),
                self.src() == s,
                match t {
                    Ok((x2, ids)) => x2 == self.cfg() && ids == nodes@ && ids_bounded(
                        ids,
                        self.cfg().ns.len() as int,
                    ),
                    Err(_) => false,
                },
            decreases s.len() - self.cfg().p,
        {
            self.eat_whitespace();
            if self.at_end() {
                break;
            }
            let b = self.peek();
            if byte_is_closer(b) {
                match self.bump() {
                    Ok(()) => {},
                    Err(e) => {
                        return Err(e);
                    },
                }
            } else {
                let id = match self.parse_block() {
                    Ok(id) => id,
                    Err(e) => {
                        return Err(e);
                    },
                };
                let ghost old_nodes = nodes@;
                nodes.push(id);
                proof {
                    if let Ok((x3, rest)) = doc_items(s, self.cfg()) {
                        assert(old_nodes + (seq![id] + rest) =~= nodes@ + rest);
                    }
                }
            }
        }
        Ok(nodes)
    }

    /// Parse the whole document: blocks until end of input, gathered under a
    /// root `Group`.
    pub fn parse(self) -> (r: Result<Ast, Error>)
        requires
            self.inv(),
            self.cfg() == (PState {
                p: 0,
                st: Seq::<Delim>::empty(),
                ns: Seq::<SpecNode>::empty(),
            }),
        ensures
            match document(self.src()) {
                Ok((ns, root)) => r matches Ok(a) && a.arena() == ns && a.root_id() == root
                    && a.wf(self.src().len() as int),
                Err(e) => r matches Err(e2) && e2 == e,
            },
    {
        let ghost s = self.src();
        let mut this = self;
        let nodes = match this.parse_doc_items() {
            Ok(v) => v,
            Err(e) => {
                return Err(e);
            },
        };
        proof {
            lemma_arena_wf_push(this.cfg().ns, SpecNode::Group(nodes@), s.len() as int);
        }
        let root = this.ast.push(Node::Group(nodes));
        this.ast.root = root;
        Ok(this.ast)
    }

    /// Demand one exact byte under the cursor and step over it.
    fn expect(&mut self, expected: u8) -> (r: Result<(), Error>)
        requires
            old(self).inv(),
        ensures
            final(self).inv(),
            final(self).src() == old(self).src(),
            final(self).cfg().ns == old(self).cfg().ns,
            match expect_byte(old(self).src(), old(self).cfg().p, old(self).cfg().st, expected) {
                Ok((p2, st2)) => r is Ok && final(self).cfg().p == p2 && final(self).cfg().st
                    == st2,
                Err(e) => r == Err::<(), Error>(e),
            },
    {
        let found = self.peek();
        if expected == found {
            self.bump()
        } else {
            Err(Error::ExpectedFound { expected, found, span: self.here() })
        }
    }
}

} // verus!
