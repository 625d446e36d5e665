//! Inputs whose delimiters nest are never rejected for their delimiters:
//! the parser's stack walks in step with a plain left-to-right scan.

use vstd::prelude::*;

use crate::error::Error;
use crate::grammar::{
    alpha_end, args_rest, at, block, braced_arg, braced_items, bracketed_arg, bump, closer_delim,
    command, doc_items, document, expect_byte, ident_arg, inline_node, is_closer, is_opener,
    opener_delim, paren_args, paren_loop, string_arg, string_scan, text_items, ws_end, Delim,
    PState,
};

verus! {

/// The delimiter stack a plain left-to-right scan holds after the first `p`
/// bytes, mismatched closers left unpopped.
pub open spec fn scan_stack(s: Seq<u8>, p: int) -> Seq<Delim>
    decreases p,
{
    if p <= 0 {
        Seq::<Delim>::empty()
    } else {
        let st = scan_stack(s, p - 1);
        let b = s[p - 1];
        if is_opener(b) {
            st.push(opener_delim(b))
        } else if is_closer(b) {
            if st.len() > 0 && st.last() == closer_delim(b) {
                st.drop_last()
            } else {
                st
            }
        } else {
            st
        }
    }
}

/// A plain scan of the first `p` bytes meets every closer with its own
/// opener on top of the stack.
pub open spec fn scan_ok(s: Seq<u8>, p: int) -> bool
    decreases p,
{
    if p <= 0 {
        true
    } else {
        scan_ok(s, p - 1) && (is_closer(s[p - 1]) ==> scan_stack(s, p - 1).len() > 0 && scan_stack(
            s,
            p - 1,
        ).last() == closer_delim(s[p - 1]))
    }
}

/// The input's delimiters nest: the whole scan is faultless and ends with
/// an empty stack.
pub open spec fn balanced(s: Seq<u8>) -> bool {
    scan_ok(s, s.len() as int) && scan_stack(s, s.len() as int) == Seq::<Delim>::empty()
}

/// A faultless scan of a prefix is faultless on every shorter prefix.
proof fn lemma_scan_ok_mono(s: Seq<u8>, p: int, q: int)
    requires
        0 <= p <= q,
        scan_ok(s, q),
    ensures
        scan_ok(s, p),
    decreases q,
{
    if p < q {
        lemma_scan_ok_mono(s, p, q - 1);
    }
}

/// Crossing a byte that is no delimiter moves the scan's stack not at all.
proof fn lemma_step_nondelim(s: Seq<u8>, p: int)
    requires
        0 <= p < s.len(),
        !is_opener(s[p]),
        !is_closer(s[p]),
    ensures
        scan_stack(s, p + 1) == scan_stack(s, p),
        scan_ok(s, p) ==> scan_ok(s, p + 1),
{
}

/// Where the whole input scans faultlessly, [`bump`] agrees with the plain
/// scan: it cannot fault, and it carries the scan's stack along.
proof fn lemma_bump_ok(s: Seq<u8>, p: int)
    requires
        0 <= p < s.len(),
        scan_ok(s, p + 1),
    ensures
        bump(s, p, scan_stack(s, p)) == Ok::<(int, Seq<Delim>), Error>((p + 1, scan_stack(s, p + 1))),
{
}

/// Skipping whitespace leaves the scan's stack and faultlessness alone.
proof fn lemma_ws_end_scan(s: Seq<u8>, p: int)
    requires
        0 <= p,
    ensures
        scan_stack(s, ws_end(s, p)) == scan_stack(s, p),
        scan_ok(s, p) ==> scan_ok(s, ws_end(s, p)),
        p <= ws_end(s, p),
    decreases s.len() - p,
{
    if 0 <= p < s.len() && crate::grammar::is_ws(s[p]) {
        lemma_step_nondelim(s, p);
        lemma_ws_end_scan(s, p + 1);
    }
}

/// Skipping an alphabetic run leaves the scan's stack and faultlessness
/// alone.
proof fn lemma_alpha_end_scan(s: Seq<u8>, p: int)
    requires
        0 <= p,
    ensures
        scan_stack(s, alpha_end(s, p)) == scan_stack(s, p),
        scan_ok(s, p) ==> scan_ok(s, alpha_end(s, p)),
        p <= alpha_end(s, p),
        alpha_end(s, p) <= s.len() || alpha_end(s, p) == p,
    decreases s.len() - p,
{
    if 0 <= p < s.len() && crate::grammar::is_alpha(s[p]) {
        lemma_step_nondelim(s, p);
        lemma_alpha_end_scan(s, p + 1);
    }
}

/// On a faultlessly scanning input, demanding one byte either crosses it in
/// step with the scan or reports the mismatch — never a delimiter fault.
proof fn lemma_expect_scan(s: Seq<u8>, p: int, b: u8)
    requires
        scan_ok(s, s.len() as int),
        0 <= p <= s.len(),
        b != 0,
    ensures
        match expect_byte(s, p, scan_stack(s, p), b) {
            Ok((p2, st2)) => 0 <= p2 <= s.len() && st2 == scan_stack(s, p2),
            Err(e) => !(e is UnbalancedDelimiter),
        },
{
    if at(s, p) == b {
        lemma_scan_ok_mono(s, p + 1, s.len() as int);
        lemma_bump_ok(s, p);
    }
}

/// On a faultlessly scanning input, the quoted-string scan cannot fault and
/// stays in step with the plain scan.
proof fn lemma_string_scan_scan(s: Seq<u8>, p: int)
    requires
        scan_ok(s, s.len() as int),
        0 <= p <= s.len(),
    ensures
        match string_scan(s, p, scan_stack(s, p)) {
            Ok((p2, st2)) => p <= p2 <= s.len() && st2 == scan_stack(s, p2) && (p2 == s.len() || s[p2]
                == 0x22),
            Err(e) => !(e is UnbalancedDelimiter),
        },
    decreases s.len() - p,
{
    if !(0 <= p < s.len()) {
    } else if s[p] == 0x22 && !(p >= 1 && s[p - 1] == 0x5c) {
    } else {
        lemma_scan_ok_mono(s, p + 1, s.len() as int);
        lemma_bump_ok(s, p);
        lemma_string_scan_scan(s, p + 1);
    }
}

/// On a faultlessly scanning input, a string argument stays in step with
/// the plain scan.
proof fn lemma_string_arg_scan(s: Seq<u8>, p: int)
    requires
        scan_ok(s, s.len() as int),
        0 <= p <= s.len(),
        at(s, p) == 0x22,
    ensures
        match string_arg(s, p, scan_stack(s, p)) {
            Ok((arg, p2, st2)) => p <= p2 <= s.len() && st2 == scan_stack(s, p2),
            Err(e) => !(e is UnbalancedDelimiter),
        },
{
    let p1 = if p < s.len() {
        p + 1
    } else {
        p
    };
    if p < s.len() {
        lemma_step_nondelim(s, p);
    }
    lemma_string_scan_scan(s, p1);
    if let Ok((p2, st2)) = string_scan(s, p1, scan_stack(s, p1)) {
        if p2 < s.len() {
            lemma_step_nondelim(s, p2);
        }
    }
}

/// The well-nesting invariant the induction carries: the model's stack is
/// the plain scan's stack at the model's cursor.
pub open spec fn in_step(s: Seq<u8>, x: PState) -> bool {
    0 <= x.p <= s.len() && x.st == scan_stack(s, x.p)
}

/// On a faultlessly scanning input, a command's parse keeps the model's
/// stack in step with the plain scan and never reports a delimiter fault.
proof fn lemma_command_scan(s: Seq<u8>, x: PState, blocks: bool)
    requires
        scan_ok(s, s.len() as int),
        in_step(s, x),
        at(s, x.p) == 0x7e,
    ensures
        match command(s, x, blocks) {
            Ok((x2, id)) => in_step(s, x2),
            Err(e) => !(e is UnbalancedDelimiter),
        },
    decreases s.len() - x.p, 0int,
{
    let p1 = if x.p < s.len() {
        x.p + 1
    } else {
        x.p
    };
    if x.p < s.len() {
        lemma_step_nondelim(s, x.p);
    }
    let p2 = alpha_end(s, p1);
    lemma_alpha_end_scan(s, p1);
    let p3 = if p1 <= p2 && p2 <= s.len() {
        ws_end(s, p2)
    } else {
        p2
    };
    if p1 <= p2 && p2 <= s.len() {
        lemma_ws_end_scan(s, p2);
    }
    if x.p < p3 && p3 <= s.len() {
        let xa = PState { p: p3, st: x.st, ns: x.ns };
        if at(s, p3) == 0x28 {
            lemma_paren_args_scan(s, xa, blocks);
        } else if at(s, p3) == 0x5b {
            lemma_bracketed_arg_scan(s, xa);
        } else if at(s, p3) == 0x7b && blocks {
            lemma_braced_arg_scan(s, xa);
        }
    }
}

proof fn lemma_paren_args_scan(s: Seq<u8>, x: PState, blocks: bool)
    requires
        scan_ok(s, s.len() as int),
        in_step(s, x),
    ensures
        match paren_args(s, x, blocks) {
            Ok((x2, args)) => in_step(s, x2),
            Err(e) => !(e is UnbalancedDelimiter),
        },
    decreases s.len() - x.p, 0int,
{
    if x.p < s.len() {
        lemma_scan_ok_mono(s, x.p + 1, s.len() as int);
        lemma_bump_ok(s, x.p);
    }
    if let Ok((p1, st1)) = bump(s, x.p, x.st) {
        lemma_ws_end_scan(s, p1);
        let p2 = ws_end(s, p1);
        if x.p < p2 && p2 <= s.len() {
            let xl = PState { p: p2, st: st1, ns: x.ns };
            lemma_paren_loop_scan(s, xl, blocks);
            if let Ok((x2, args)) = paren_loop(s, xl, blocks) {
                lemma_expect_scan(s, x2.p, 0x29);
            }
        }
    }
}

proof fn lemma_paren_loop_scan(s: Seq<u8>, x: PState, blocks: bool)
    requires
        scan_ok(s, s.len() as int),
        in_step(s, x),
    ensures
        match paren_loop(s, x, blocks) {
            Ok((x2, args)) => in_step(s, x2),
            Err(e) => !(e is UnbalancedDelimiter),
        },
    decreases s.len() - x.p, 1int,
{
    if x.p >= s.len() {
    } else {
        let p1 = ws_end(s, x.p);
        lemma_ws_end_scan(s, x.p);
        if x.p <= p1 && p1 <= s.len() {
            let b = at(s, p1);
            let xa = PState { p: p1, st: x.st, ns: x.ns };
            if b == 0x29 {
            } else if b == 0x5b {
                lemma_bracketed_arg_scan(s, xa);
                if let Ok((x2, arg)) = bracketed_arg(s, xa) {
                    if x.p < x2.p && x2.p <= s.len() {
                        lemma_args_rest_scan(s, x2, arg, blocks);
                    }
                }
            } else if b == 0x7b && blocks {
                lemma_braced_arg_scan(s, xa);
                if let Ok((x2, arg)) = braced_arg(s, xa) {
                    if x.p < x2.p && x2.p <= s.len() {
                        lemma_args_rest_scan(s, x2, arg, blocks);
                    }
                }
            } else if b == 0x22 {
                lemma_string_arg_scan(s, p1);
                if let Ok((arg, p2, st2)) = string_arg(s, p1, x.st) {
                    if x.p < p2 && p2 <= s.len() {
                        lemma_args_rest_scan(s, PState { p: p2, st: st2, ns: x.ns }, arg, blocks);
                    }
                }
            } else if crate::grammar::is_alpha(b) {
                lemma_alpha_end_scan(s, p1);
                let (arg, p2) = ident_arg(s, p1);
                if x.p < p2 && p2 <= s.len() {
                    lemma_args_rest_scan(s, PState { p: p2, st: x.st, ns: x.ns }, arg, blocks);
                }
            }
        }
    }
}

proof fn lemma_args_rest_scan(s: Seq<u8>, x: PState, arg: crate::ast::SpecArg, blocks: bool)
    requires
        scan_ok(s, s.len() as int),
        in_step(s, x),
    ensures
        match args_rest(s, x, arg, blocks) {
            Ok((x2, args)) => in_step(s, x2),
            Err(e) => !(e is UnbalancedDelimiter),
        },
    decreases s.len() - x.p, 2int,
{
    let p3 = ws_end(s, x.p);
    lemma_ws_end_scan(s, x.p);
    if x.p <= p3 && p3 <= s.len() {
        if at(s, p3) == 0x29 {
            lemma_paren_loop_scan(s, PState { p: p3, st: x.st, ns: x.ns }, blocks);
        } else {
            lemma_expect_scan(s, p3, 0x2c);
            if let Ok((p4, st4)) = expect_byte(s, p3, scan_stack(s, p3), 0x2c) {
                if x.p < p4 && p4 <= s.len() {
                    lemma_paren_loop_scan(s, PState { p: p4, st: st4, ns: x.ns }, blocks);
                }
            }
        }
    }
}

proof fn lemma_bracketed_arg_scan(s: Seq<u8>, x: PState)
    requires
        scan_ok(s, s.len() as int),
        in_step(s, x),
    ensures
        match bracketed_arg(s, x) {
            Ok((x2, arg)) => in_step(s, x2),
            Err(e) => !(e is UnbalancedDelimiter),
        },
    decreases s.len() - x.p, 0int,
{
    if x.p < s.len() {
        lemma_scan_ok_mono(s, x.p + 1, s.len() as int);
        lemma_bump_ok(s, x.p);
    }
    if let Ok((p1, st1)) = bump(s, x.p, x.st) {
        if x.p < p1 && p1 <= s.len() {
            let xi = PState { p: p1, st: st1, ns: x.ns };
            lemma_inline_scan(s, xi);
            if let Ok((x2, id)) = inline_node(s, xi) {
                lemma_expect_scan(s, x2.p, 0x5d);
            }
        }
    }
}

proof fn lemma_braced_arg_scan(s: Seq<u8>, x: PState)
    requires
        scan_ok(s, s.len() as int),
        in_step(s, x),
    ensures
        match braced_arg(s, x) {
            Ok((x2, arg)) => in_step(s, x2),
            Err(e) => !(e is UnbalancedDelimiter),
        },
    decreases s.len() - x.p, 0int,
{
    if x.p < s.len() {
        lemma_scan_ok_mono(s, x.p + 1, s.len() as int);
        lemma_bump_ok(s, x.p);
    }
    if let Ok((p1, st1)) = bump(s, x.p, x.st) {
        if x.p < p1 && p1 <= s.len() {
            let xi = PState { p: p1, st: st1, ns: x.ns };
            lemma_braced_items_scan(s, xi);
            if let Ok((x2, ids)) = braced_items(s, xi) {
                lemma_expect_scan(s, x2.p, 0x7d);
            }
        }
    }
}

proof fn lemma_braced_items_scan(s: Seq<u8>, x: PState)
    requires
        scan_ok(s, s.len() as int),
        in_step(s, x),
    ensures
        match braced_items(s, x) {
            Ok((x2, ids)) => in_step(s, x2),
            Err(e) => !(e is UnbalancedDelimiter),
        },
    decreases s.len() - x.p, 4int,
{
    let p1 = ws_end(s, x.p);
    lemma_ws_end_scan(s, x.p);
    if x.p <= p1 && p1 <= s.len() {
        if p1 >= s.len() || at(s, p1) == 0x7d {
        } else if at(s, p1) == 0x29 || at(s, p1) == 0x5d {
            lemma_scan_ok_mono(s, p1 + 1, s.len() as int);
            lemma_bump_ok(s, p1);
            if let Ok((p2, st2)) = bump(s, p1, x.st) {
                if x.p < p2 && p2 <= s.len() {
                    lemma_braced_items_scan(s, PState { p: p2, st: st2, ns: x.ns });
                }
            }
        } else {
            let xb = PState { p: p1, st: x.st, ns: x.ns };
            lemma_block_scan(s, xb);
            if let Ok((x2, id)) = block(s, xb) {
                if x.p < x2.p && x2.p <= s.len() {
                    lemma_braced_items_scan(s, x2);
                }
            }
        }
    }
}

proof fn lemma_inline_scan(s: Seq<u8>, x: PState)
    requires
        scan_ok(s, s.len() as int),
        in_step(s, x),
    ensures
        match inline_node(s, x) {
            Ok((x2, id)) => in_step(s, x2),
            Err(e) => !(e is UnbalancedDelimiter),
        },
    decreases s.len() - x.p, 3int,
{
    if at(s, x.p) == 0x7e {
        lemma_command_scan(s, x, false);
    } else {
        lemma_text_items_scan(s, x, x.st.len() as int, Some(x.p));
    }
}

proof fn lemma_block_scan(s: Seq<u8>, x: PState)
    requires
        scan_ok(s, s.len() as int),
        in_step(s, x),
    ensures
        match block(s, x) {
            Ok((x2, id)) => in_step(s, x2),
            Err(e) => !(e is UnbalancedDelimiter),
        },
    decreases s.len() - x.p, 3int,
{
    if at(s, x.p) == 0x7e {
        lemma_command_scan(s, x, true);
    } else {
        lemma_text_items_scan(s, x, x.st.len() as int, Some(x.p));
    }
}

proof fn lemma_text_items_scan(s: Seq<u8>, x: PState, d0: int, tstart: Option<int>)
    requires
        scan_ok(s, s.len() as int),
        in_step(s, x),
    ensures
        match text_items(s, x, d0, tstart) {
            Ok((x2, ids)) => in_step(s, x2),
            Err(e) => !(e is UnbalancedDelimiter),
        },
    decreases s.len() - x.p, 1int,
{
    if x.p >= s.len() {
    } else {
        let b = s[x.p];
        if b == 0x7e {
            let (x1, pre) = crate::grammar::flush_text(x, tstart, x.p);
            lemma_command_scan(s, x1, false);
            if let Ok((x2, id)) = command(s, x1, false) {
                if x.p < x2.p && x2.p <= s.len() {
                    lemma_text_items_scan(s, x2, d0, None);
                }
            }
        } else if b == 0x0a {
            lemma_step_nondelim(s, x.p);
        } else if is_closer(b) && x.st.len() == d0 {
        } else {
            lemma_scan_ok_mono(s, x.p + 1, s.len() as int);
            lemma_bump_ok(s, x.p);
            if let Ok((p2, st2)) = bump(s, x.p, x.st) {
                if x.p < p2 && p2 <= s.len() {
                    let t2 = if tstart is None {
                        Some(x.p)
                    } else {
                        tstart
                    };
                    lemma_text_items_scan(s, PState { p: p2, st: st2, ns: x.ns }, d0, t2);
                }
            }
        }
    }
}

proof fn lemma_doc_items_scan(s: Seq<u8>, x: PState)
    requires
        scan_ok(s, s.len() as int),
        in_step(s, x),
    ensures
        match doc_items(s, x) {
            Ok((x2, ids)) => in_step(s, x2),
            Err(e) => !(e is UnbalancedDelimiter),
        },
    decreases s.len() - x.p, 4int,
{
    let p1 = ws_end(s, x.p);
    lemma_ws_end_scan(s, x.p);
    if x.p <= p1 && p1 <= s.len() {
        if p1 >= s.len() {
        } else if is_closer(at(s, p1)) {
            lemma_scan_ok_mono(s, p1 + 1, s.len() as int);
            lemma_bump_ok(s, p1);
            if let Ok((p2, st2)) = bump(s, p1, x.st) {
                if x.p < p2 && p2 <= s.len() {
                    lemma_doc_items_scan(s, PState { p: p2, st: st2, ns: x.ns });
                }
            }
        } else {
            let xb = PState { p: p1, st: x.st, ns: x.ns };
            lemma_block_scan(s, xb);
            if let Ok((x2, id)) = block(s, xb) {
                if x.p < x2.p && x2.p <= s.len() {
                    lemma_doc_items_scan(s, x2);
                }
            }
        }
    }
}

/// On an input whose delimiters nest, parsing never raises a delimiter
/// fault: whatever else may go wrong, the unbalanced-delimiter error is not
/// the outcome.
pub proof fn lemma_balanced_input_never_faults(s: Seq<u8>)
    requires
        balanced(s),
    ensures
        match document(s) {
            Ok(_) => true,
            Err(e) => !(e is UnbalancedDelimiter),
        },
{
    let x0 = PState { p: 0, st: Seq::<Delim>::empty(), ns: Seq::<crate::ast::SpecNode>::empty() };
    assert(scan_stack(s, 0) == Seq::<Delim>::empty());
    lemma_doc_items_scan(s, x0);
}

} // verus!
