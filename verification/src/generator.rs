//! The tree-walking HTML generator, proved to emit exactly what the
//! rendering specification says, command table, escaping and all.

use vstd::prelude::*;

use crate::ast::{
    arg_wf, args_bounded, ids_bounded, node_wf, Argument, Ast, Node, NodeId, SpecArg, SpecNode,
};
use crate::error::{Error, Span};
use crate::render::{
    a_close, a_mid, a_open, arg_count_err, aside_tag, blockquote_tag, bull_sep, chomp, code_lines_from,
    code_tag, div_close, em_tag, escape, escape_byte, find_nl, h2_tag, h3_tag, last_dot, name_aside,
    name_b, name_blockquote, name_code, name_codeblock, name_i, name_link, name_section,
    name_subsection, name_super, p_tag, pre_close, pre_open, render_code, render_codeblock,
    render_command, render_link, render_list, render_node, render_wrap_block, render_wrap_inline,
    rs_ext, rust_name, span_bytes, spec_arg_span, spec_block_arg, spec_inline_arg, spec_string_arg,
    strong_tag, sup_tag, tag_close, tag_open, text_name, txt_ext, unescape, wrapped,
};
use vstd::slice::slice_subrange;

verus! {

/// Append a whole vector of bytes.
fn append(out: &mut Vec<u8>, bs: &Vec<u8>)
    ensures
        final(out)@ == old(out)@ + bs@,
{
    let mut i: usize = 0;
    while i < bs.len()
        invariant
            i <= bs@.len(),
            out@ == old(out)@ + bs@.take(i as int),
        decreases bs@.len() - i,
    {
        out.push(bs[i]);
        i = i + 1;
        proof {
            assert(out@ =~= old(out)@ + bs@.take(i as int));
        }
    }
    proof {
        assert(old(out)@ + bs@.take(bs@.len() as int) =~= old(out)@ + bs@);
    }
}

/// Append a range of a byte slice.
fn append_range(out: &mut Vec<u8>, bytes: &[u8], from: usize, to: usize)
    requires
        from <= to <= bytes@.len(),
    ensures
        final(out)@ == old(out)@ + bytes@.subrange(from as int, to as int),
{
    let mut i: usize = from;
    while i < to
        invariant
            from <= i <= to <= bytes@.len(),
            out@ == old(out)@ + bytes@.subrange(from as int, i as int),
        decreases to - i,
    {
        out.push(bytes[i]);
        i = i + 1;
        proof {
            assert(bytes@.subrange(from as int, i as int) =~= bytes@.subrange(
                from as int,
                i - 1,
            ).push(bytes@[i - 1]));
            assert(out@ =~= old(out)@ + bytes@.subrange(from as int, i as int));
        }
    }
}

/// Whether a slice and a vector hold the same bytes.
fn bytes_eq(a: &[u8], b: &Vec<u8>) -> (r: bool)
    ensures
        r == (a@ == b@),
{
    if a.len() != b.len() {
        return false;
    }
    let mut i: usize = 0;
    while i < a.len()
        invariant
            i <= a@.len(),
            a@.len() == b@.len(),
            forall|j: int| 0 <= j < i ==> a@[j] == b@[j],
        decreases a@.len() - i,
    {
        if a[i] != b[i] {
            return false;
        }
        i = i + 1;
    }
    proof {
        assert(a@ =~= b@);
    }
    true
}

/// Whether the tail of a vector from `from` on equals a pattern.
fn tail_eq(v: &Vec<u8>, from: usize, pat: &Vec<u8>) -> (r: bool)
    requires
        from <= v@.len(),
    ensures
        r == (v@.skip(from as int) == pat@),
{
    if v.len() - from != pat.len() {
        proof {
            assert(v@.skip(from as int).len() != pat@.len());
        }
        return false;
    }
    let mut k: usize = from;
    while k < v.len()
        invariant
            from + pat@.len() == v@.len(),
            from <= k <= v@.len(),
            forall|j: int| 0 <= j < k - from ==> v@[from + j] == pat@[j],
        decreases v@.len() - k,
    {
        if v[k] != pat[k - from] {
            proof {
                assert(v@.skip(from as int)[k - from] != pat@[k - from]);
            }
            return false;
        }
        k = k + 1;
    }
    proof {
        assert(v@.skip(from as int) =~= pat@);
    }
    true
}

/// Undo the string-literal escape on a byte slice: `\"` becomes `"`.
fn unescape_bytes(bs: &[u8]) -> (r: Vec<u8>)
    ensures
        r@ == unescape(bs@),
{
    let mut r: Vec<u8> = Vec::new();
    let mut i: usize = 0;
    proof {
        assert(bs@.skip(0) =~= bs@);
        assert(Seq::<u8>::empty() + unescape(bs@) =~= unescape(bs@));
    }
    while i < bs.len()
        invariant
            i <= bs@.len(),
            unescape(bs@) == r@ + unescape(bs@.skip(i as int)),
        decreases bs@.len() - i,
    {
        let ghost r0 = r@;
        let ghost i0 = i as int;
        if i + 1 < bs.len() && bs[i] == 0x5c && bs[i + 1] == 0x22 {
            r.push(0x22);
            i = i + 2;
            proof {
                assert(bs@.skip(i0).skip(2) =~= bs@.skip(i as int));
                assert(r0 + (seq![0x22u8] + unescape(bs@.skip(i as int))) =~= r@ + unescape(
                    bs@.skip(i as int),
                ));
            }
        } else {
            r.push(bs[i]);
            i = i + 1;
            proof {
                assert(bs@.skip(i0).drop_first() =~= bs@.skip(i as int));
                assert(r0 + (seq![bs@[i0]] + unescape(bs@.skip(i as int))) =~= r@ + unescape(
                    bs@.skip(i as int),
                ));
            }
        }
    }
    proof {
        assert(unescape(bs@.skip(bs@.len() as int)) =~= Seq::<u8>::empty());
        assert(r@ + Seq::<u8>::empty() =~= r@);
    }
    r
}

/// HTML-entity escaping of a byte vector.
fn escape_bytes(bs: &Vec<u8>) -> (r: Vec<u8>)
    ensures
        r@ == escape(bs@),
{
    let mut r: Vec<u8> = Vec::new();
    let mut i: usize = 0;
    proof {
        assert(bs@.skip(0) =~= bs@);
        assert(Seq::<u8>::empty() + escape(bs@) =~= escape(bs@));
    }
    while i < bs.len()
        invariant
            i <= bs@.len(),
            escape(bs@) == r@ + escape(bs@.skip(i as int)),
        decreases bs@.len() - i,
    {
        let ghost r0 = r@;
        let ghost i0 = i as int;
        let b = bs[i];
        if b == 0x26 {
            r.push(0x26);
            r.push(0x61);
            r.push(0x6d);
            r.push(0x70);
            r.push(0x3b);
        } else if b == 0x3c {
            r.push(0x26);
            r.push(0x6c);
            r.push(0x74);
            r.push(0x3b);
        } else if b == 0x3e {
            r.push(0x26);
            r.push(0x67);
            r.push(0x74);
            r.push(0x3b);
        } else if b == 0x22 {
            r.push(0x26);
            r.push(0x71);
            r.push(0x75);
            r.push(0x6f);
            r.push(0x74);
            r.push(0x3b);
        } else {
            r.push(b);
        }
        i = i + 1;
        proof {
            assert(r@ =~= r0 + escape_byte(bs@[i0]));
            assert(bs@.skip(i0).drop_first() =~= bs@.skip(i as int));
            assert(r0 + (escape_byte(bs@[i0]) + escape(bs@.skip(i as int))) =~= r@ + escape(
                bs@.skip(i as int),
            ));
        }
    }
    proof {
        assert(escape(bs@.skip(bs@.len() as int)) =~= Seq::<u8>::empty());
        assert(r@ + Seq::<u8>::empty() =~= r@);
    }
    r
}

/// Demand an exact argument count; the mismatch is the arity error.
fn expect_args(name: Span, args: &Vec<Argument>, expected: usize) -> (r: Result<(), Error>)
    ensures
        args@.len() == expected ==> r is Ok,
        args@.len() != expected ==> r == Err::<(), Error>(
            arg_count_err(name, args@.map_values(|a: Argument| a@), expected as int),
        ),
{
    if args.len() == expected {
        Ok(())
    } else {
        Err(Error::IncorrectArgCount { expected, found: args.len(), span: name })
    }
}

/// Demand an inline argument at `idx`.
fn inline_arg(args: &Vec<Argument>, idx: usize) -> (r: Result<NodeId, Error>)
    requires
        idx < args@.len(),
    ensures
        ({
            let m = spec_inline_arg(args@.map_values(|a: Argument| a@), idx as int);
            match m {
                Ok(id) => r matches Ok(i2) && i2 == id,
                Err(e) => r matches Err(e2) && e2 == e,
            }
        }),
{
    match &args[idx] {
        Argument::Inline(node, _) => Ok(*node),
        Argument::Block(_, span) => Err(Error::ExpectedInlineArg { span: *span }),
        Argument::Ident(span) => Err(Error::ExpectedInlineArg { span: *span }),
        Argument::String(span) => Err(Error::ExpectedInlineArg { span: *span }),
    }
}

/// Demand a block argument at `idx`.
fn block_arg<'a>(args: &'a Vec<Argument>, idx: usize) -> (r: Result<&'a Vec<NodeId>, Error>)
    requires
        idx < args@.len(),
    ensures
        ({
            let m = spec_block_arg(args@.map_values(|a: Argument| a@), idx as int);
            match m {
                Ok(c) => r matches Ok(v) && v@ == c,
                Err(e) => r matches Err(e2) && e2 == e,
            }
        }),
{
    match &args[idx] {
        Argument::Block(nodes, _) => Ok(nodes),
        Argument::Inline(_, span) => Err(Error::ExpectedBlockArg { span: *span }),
        Argument::Ident(span) => Err(Error::ExpectedBlockArg { span: *span }),
        Argument::String(span) => Err(Error::ExpectedBlockArg { span: *span }),
    }
}

/// Demand a string argument at `idx`; the result drops the two quotes.
fn string_arg(args: &Vec<Argument>, idx: usize) -> (r: Result<Span, Error>)
    requires
        idx < args@.len(),
        arg_wf(args@.map_values(|a: Argument| a@)[idx as int], args@.len() as int, u32::MAX as int)
            || arg_wf(
            args@.map_values(|a: Argument| a@)[idx as int],
            0,
            u32::MAX as int,
        ) || (match args@[idx as int]@ {
            SpecArg::String(sp) => sp.start + 2 <= sp.end,
            _ => true,
        }),
    ensures
        ({
            let m = spec_string_arg(args@.map_values(|a: Argument| a@), idx as int);
            match m {
                Ok(sp) => r matches Ok(s2) && s2 == sp,
                Err(e) => r matches Err(e2) && e2 == e,
            }
        }),
{
    match &args[idx] {
        Argument::String(span) => Ok(Span::new(span.start + 1, span.end - 1)),
        Argument::Block(_, span) => Err(Error::ExpectedStringArg { span: *span }),
        Argument::Inline(_, span) => Err(Error::ExpectedStringArg { span: *span }),
        Argument::Ident(span) => Err(Error::ExpectedStringArg { span: *span }),
    }
}

/// The span of the argument's own surface syntax.
fn arg_span(args: &Vec<Argument>, idx: usize) -> (r: Span)
    requires
        idx < args@.len(),
    ensures
        r == spec_arg_span(args@.map_values(|a: Argument| a@)[idx as int]),
{
    match &args[idx] {
        Argument::Block(_, span) => *span,
        Argument::Inline(_, span) => *span,
        Argument::Ident(span) => *span,
        Argument::String(span) => *span,
    }
}

/// The bytes of `i` as a vector.
fn lit_name_i() -> (r: Vec<u8>)
    ensures
        r@ == name_i(),
{
    let mut v: Vec<u8> = Vec::new();
    v.push(0x69);
    proof {
        assert(v@ =~= name_i());
    }
    v
}

/// The bytes of `b` as a vector.
fn lit_name_b() -> (r: Vec<u8>)
    ensures
        r@ == name_b(),
{
    let mut v: Vec<u8> = Vec::new();
    v.push(0x62);
    proof {
        assert(v@ =~= name_b());
    }
    v
}

/// The bytes of `section` as a vector.
fn lit_name_section() -> (r: Vec<u8>)
    ensures
        r@ == name_section(),
{
    let mut v: Vec<u8> = Vec::new();
    v.push(0x73); v.push(0x65); v.push(0x63); v.push(0x74); v.push(0x69); v.push(0x6f); v.push(0x6e);
    proof {
        assert(v@ =~= name_section());
    }
    v
}

/// The bytes of `subsection` as a vector.
fn lit_name_subsection() -> (r: Vec<u8>)
    ensures
        r@ == name_subsection(),
{
    let mut v: Vec<u8> = Vec::new();
    v.push(0x73); v.push(0x75); v.push(0x62); v.push(0x73); v.push(0x65); v.push(0x63); v.push(0x74); v.push(0x69); v.push(0x6f); v.push(0x6e);
    proof {
        assert(v@ =~= name_subsection());
    }
    v
}

/// The bytes of `super` as a vector.
fn lit_name_super() -> (r: Vec<u8>)
    ensures
        r@ == name_super(),
{
    let mut v: Vec<u8> = Vec::new();
    v.push(0x73); v.push(0x75); v.push(0x70); v.push(0x65); v.push(0x72);
    proof {
        assert(v@ =~= name_super());
    }
    v
}

/// The bytes of `code` as a vector.
fn lit_name_code() -> (r: Vec<u8>)
    ensures
        r@ == name_code(),
{
    let mut v: Vec<u8> = Vec::new();
    v.push(0x63); v.push(0x6f); v.push(0x64); v.push(0x65);
    proof {
        assert(v@ =~= name_code());
    }
    v
}

/// The bytes of `link` as a vector.
fn lit_name_link() -> (r: Vec<u8>)
    ensures
        r@ == name_link(),
{
    let mut v: Vec<u8> = Vec::new();
    v.push(0x6c); v.push(0x69); v.push(0x6e); v.push(0x6b);
    proof {
        assert(v@ =~= name_link());
    }
    v
}

/// The bytes of `aside` as a vector.
fn lit_name_aside() -> (r: Vec<u8>)
    ensures
        r@ == name_aside(),
{
    let mut v: Vec<u8> = Vec::new();
    v.push(0x61); v.push(0x73); v.push(0x69); v.push(0x64); v.push(0x65);
    proof {
        assert(v@ =~= name_aside());
    }
    v
}

/// The bytes of `blockquote` as a vector.
fn lit_name_blockquote() -> (r: Vec<u8>)
    ensures
        r@ == name_blockquote(),
{
    let mut v: Vec<u8> = Vec::new();
    v.push(0x62); v.push(0x6c); v.push(0x6f); v.push(0x63); v.push(0x6b); v.push(0x71); v.push(0x75); v.push(0x6f); v.push(0x74); v.push(0x65);
    proof {
        assert(v@ =~= name_blockquote());
    }
    v
}

/// The bytes of `codeblock` as a vector.
fn lit_name_codeblock() -> (r: Vec<u8>)
    ensures
        r@ == name_codeblock(),
{
    let mut v: Vec<u8> = Vec::new();
    v.push(0x63); v.push(0x6f); v.push(0x64); v.push(0x65); v.push(0x62); v.push(0x6c); v.push(0x6f); v.push(0x63); v.push(0x6b);
    proof {
        assert(v@ =~= name_codeblock());
    }
    v
}

/// The bytes of `em` as a vector.
fn lit_em_tag() -> (r: Vec<u8>)
    ensures
        r@ == em_tag(),
{
    let mut v: Vec<u8> = Vec::new();
    v.push(0x65); v.push(0x6d);
    proof {
        assert(v@ =~= em_tag());
    }
    v
}

/// The bytes of `strong` as a vector.
fn lit_strong_tag() -> (r: Vec<u8>)
    ensures
        r@ == strong_tag(),
{
    let mut v: Vec<u8> = Vec::new();
    v.push(0x73); v.push(0x74); v.push(0x72); v.push(0x6f); v.push(0x6e); v.push(0x67);
    proof {
        assert(v@ =~= strong_tag());
    }
    v
}

/// The bytes of `h2` as a vector.
fn lit_h2_tag() -> (r: Vec<u8>)
    ensures
        r@ == h2_tag(),
{
    let mut v: Vec<u8> = Vec::new();
    v.push(0x68); v.push(0x32);
    proof {
        assert(v@ =~= h2_tag());
    }
    v
}

/// The bytes of `h3` as a vector.
fn lit_h3_tag() -> (r: Vec<u8>)
    ensures
        r@ == h3_tag(),
{
    let mut v: Vec<u8> = Vec::new();
    v.push(0x68); v.push(0x33);
    proof {
        assert(v@ =~= h3_tag());
    }
    v
}

/// The bytes of `sup` as a vector.
fn lit_sup_tag() -> (r: Vec<u8>)
    ensures
        r@ == sup_tag(),
{
    let mut v: Vec<u8> = Vec::new();
    v.push(0x73); v.push(0x75); v.push(0x70);
    proof {
        assert(v@ =~= sup_tag());
    }
    v
}

/// The bytes of `p` as a vector.
fn lit_p_tag() -> (r: Vec<u8>)
    ensures
        r@ == p_tag(),
{
    let mut v: Vec<u8> = Vec::new();
    v.push(0x70);
    proof {
        assert(v@ =~= p_tag());
    }
    v
}

/// The bytes of `code` as a vector.
fn lit_code_tag() -> (r: Vec<u8>)
    ensures
        r@ == code_tag(),
{
    let mut v: Vec<u8> = Vec::new();
    v.push(0x63); v.push(0x6f); v.push(0x64); v.push(0x65);
    proof {
        assert(v@ =~= code_tag());
    }
    v
}

/// The bytes of `aside` as a vector.
fn lit_aside_tag() -> (r: Vec<u8>)
    ensures
        r@ == aside_tag(),
{
    let mut v: Vec<u8> = Vec::new();
    v.push(0x61); v.push(0x73); v.push(0x69); v.push(0x64); v.push(0x65);
    proof {
        assert(v@ =~= aside_tag());
    }
    v
}

/// The bytes of `blockquote` as a vector.
fn lit_blockquote_tag() -> (r: Vec<u8>)
    ensures
        r@ == blockquote_tag(),
{
    let mut v: Vec<u8> = Vec::new();
    v.push(0x62); v.push(0x6c); v.push(0x6f); v.push(0x63); v.push(0x6b); v.push(0x71); v.push(0x75); v.push(0x6f); v.push(0x74); v.push(0x65);
    proof {
        assert(v@ =~= blockquote_tag());
    }
    v
}

/// The bytes of `<a href="` as a vector.
fn lit_a_open() -> (r: Vec<u8>)
    ensures
        r@ == a_open(),
{
    let mut v: Vec<u8> = Vec::new();
    v.push(0x3c); v.push(0x61); v.push(0x20); v.push(0x68); v.push(0x72); v.push(0x65); v.push(0x66); v.push(0x3d); v.push(0x22);
    proof {
        assert(v@ =~= a_open());
    }
    v
}

/// The bytes of `">` as a vector.
fn lit_a_mid() -> (r: Vec<u8>)
    ensures
        r@ == a_mid(),
{
    let mut v: Vec<u8> = Vec::new();
    v.push(0x22); v.push(0x3e);
    proof {
        assert(v@ =~= a_mid());
    }
    v
}

/// The bytes of `</a>` as a vector.
fn lit_a_close() -> (r: Vec<u8>)
    ensures
        r@ == a_close(),
{
    let mut v: Vec<u8> = Vec::new();
    v.push(0x3c); v.push(0x2f); v.push(0x61); v.push(0x3e);
    proof {
        assert(v@ =~= a_close());
    }
    v
}

/// The bytes of `<pre><div class="language-tag">` as a vector.
fn lit_pre_open() -> (r: Vec<u8>)
    ensures
        r@ == pre_open(),
{
    let mut v: Vec<u8> = Vec::new();
    v.push(0x3c); v.push(0x70); v.push(0x72); v.push(0x65); v.push(0x3e); v.push(0x3c); v.push(0x64); v.push(0x69); v.push(0x76); v.push(0x20); v.push(0x63); v.push(0x6c); v.push(0x61); v.push(0x73); v.push(0x73); v.push(0x3d); v.push(0x22); v.push(0x6c); v.push(0x61); v.push(0x6e); v.push(0x67); v.push(0x75); v.push(0x61); v.push(0x67); v.push(0x65); v.push(0x2d); v.push(0x74); v.push(0x61); v.push(0x67); v.push(0x22); v.push(0x3e);
    proof {
        assert(v@ =~= pre_open());
    }
    v
}

/// The bytes of ` &bull; ` as a vector.
fn lit_bull_sep() -> (r: Vec<u8>)
    ensures
        r@ == bull_sep(),
{
    let mut v: Vec<u8> = Vec::new();
    v.push(0x20); v.push(0x26); v.push(0x62); v.push(0x75); v.push(0x6c); v.push(0x6c); v.push(0x3b); v.push(0x20);
    proof {
        assert(v@ =~= bull_sep());
    }
    v
}

/// The bytes of `</div>` as a vector.
fn lit_div_close() -> (r: Vec<u8>)
    ensures
        r@ == div_close(),
{
    let mut v: Vec<u8> = Vec::new();
    v.push(0x3c); v.push(0x2f); v.push(0x64); v.push(0x69); v.push(0x76); v.push(0x3e);
    proof {
        assert(v@ =~= div_close());
    }
    v
}

/// The bytes of `</pre>` as a vector.
fn lit_pre_close() -> (r: Vec<u8>)
    ensures
        r@ == pre_close(),
{
    let mut v: Vec<u8> = Vec::new();
    v.push(0x3c); v.push(0x2f); v.push(0x70); v.push(0x72); v.push(0x65); v.push(0x3e);
    proof {
        assert(v@ =~= pre_close());
    }
    v
}

/// The bytes of `Rust` as a vector.
fn lit_rust_name() -> (r: Vec<u8>)
    ensures
        r@ == rust_name(),
{
    let mut v: Vec<u8> = Vec::new();
    v.push(0x52); v.push(0x75); v.push(0x73); v.push(0x74);
    proof {
        assert(v@ =~= rust_name());
    }
    v
}

/// The bytes of `Text` as a vector.
fn lit_text_name() -> (r: Vec<u8>)
    ensures
        r@ == text_name(),
{
    let mut v: Vec<u8> = Vec::new();
    v.push(0x54); v.push(0x65); v.push(0x78); v.push(0x74);
    proof {
        assert(v@ =~= text_name());
    }
    v
}

/// The bytes of `rs` as a vector.
fn lit_rs_ext() -> (r: Vec<u8>)
    ensures
        r@ == rs_ext(),
{
    let mut v: Vec<u8> = Vec::new();
    v.push(0x72); v.push(0x73);
    proof {
        assert(v@ =~= rs_ext());
    }
    v
}

/// The bytes of `txt` as a vector.
fn lit_txt_ext() -> (r: Vec<u8>)
    ensures
        r@ == txt_ext(),
{
    let mut v: Vec<u8> = Vec::new();
    v.push(0x74); v.push(0x78); v.push(0x74);
    proof {
        assert(v@ =~= txt_ext());
    }
    v
}


/// The tree-walking HTML generator: walks the arena from the root, appending
/// bytes to one output buffer in document order. Its behaviour is the
/// rendering rule of the same shape in [`crate::render`].
pub struct Generator<'b> {
    bytes: &'b [u8],
    ast: Ast,
}

impl<'b> Generator<'b> {
    /// The source the spans point into.
    pub closed spec fn src(self) -> Seq<u8> {
        self.bytes@
    }

    /// The arena being walked.
    pub closed spec fn arena(self) -> Seq<SpecNode> {
        self.ast.arena()
    }

    /// The root handle.
    pub closed spec fn root(self) -> NodeId {
        self.ast.root_id()
    }

    /// The generator's invariant: the tree is well-formed for this source.
    pub closed spec fn wf(self) -> bool {
        self.ast.wf(self.src().len() as int)
    }

    pub fn new(bytes: &'b [u8], ast: Ast) -> (r: Self)
        requires
            ast.wf(bytes@.len() as int),
        ensures
            r.wf(),
            r.src() == bytes@,
            r.arena() == ast.arena(),
            r.root() == ast.root_id(),
    {
        Self { bytes, ast }
    }

    /// Render one node, appending its bytes to the output.
    fn node(&self, output: &mut Vec<u8>, id: NodeId) -> (r: Result<(), Error>)
        requires
            self.wf(),
            id.idx < self.arena().len(),
        ensures
            match render_node(self.src(), self.arena(), id.idx as int) {
                Ok(h) => r is Ok && final(output)@ == old(output)@ + h,
                Err(e) => r matches Err(e2) && e2 == e,
            },
        decreases id.idx, 9int, 0int,
    {
        let ghost s = self.src();
        let ghost ns = self.arena();
        proof {
            assert(node_wf(ns[id.idx as int], id.idx as int, s.len() as int));
        }
        let n = self.ast.get(id);
        match n {
            Node::Group(c) => self.group(output, c, Ghost(id.idx as int)),
            Node::Paragraph(c) => self.many_wrapped_in(output, c, &lit_p_tag(), Ghost(id.idx as int)),
            Node::Text(span) => {
                append_range(output, self.bytes, span.start as usize, span.end as usize);
                Ok(())
            },
            Node::Command(name, args) => self.command(output, *name, args, Ghost(id.idx as int)),
        }
    }

    /// Render a run of children in order, no wrapping markup.
    fn group(&self, output: &mut Vec<u8>, nodes: &Vec<NodeId>, Ghost(i): Ghost<int>) -> (r: Result<
        (),
        Error,
    >)
        requires
            self.wf(),
            ids_bounded(nodes@, i),
            0 <= i <= self.arena().len(),
        ensures
            match render_list(self.src(), self.arena(), nodes@, i) {
                Ok(h) => r is Ok && final(output)@ == old(output)@ + h,
                Err(e) => r matches Err(e2) && e2 == e,
            },
        decreases i, 4int, nodes@.len(),
    {
        let ghost s = self.src();
        let ghost ns = self.arena();
        let ghost t = render_list(s, ns, nodes@, i);
        let ghost out0 = old(output)@;
        let mut j: usize = 0;
        proof {
            assert(nodes@.skip(0) =~= nodes@);
        }
        while j < nodes.len()
            invariant
                self.wf(),
                self.src() == s,
                self.arena() == ns,
                ids_bounded(nodes@, i),
                0 <= i <= ns.len(),
                t == render_list(s, ns, nodes@, i),
                out0 == old(output)@,
                j <= nodes@.len(),
                match render_list(s, ns, nodes@.skip(j as int), i) {
                    Ok(rest) => t matches Ok(full) && output@ + rest == out0 + full,
                    Err(e) => t == Err::<Seq<u8>, Error>(e),
                },
            decreases nodes@.len() - j,
        {
            let id = nodes[j];
            let ghost outh = output@;
            match self.node(output, id) {
                Ok(()) => {},
                Err(e) => {
                    proof {
                        assert(nodes@.skip(j as int)[0] == nodes@[j as int]);
                    }
                    return Err(e);
                },
            }
            proof {
                assert(nodes@.skip(j as int)[0] == nodes@[j as int]);
                assert(nodes@.skip(j as int).drop_first() =~= nodes@.skip(j as int + 1));
                if let Ok(h) = render_node(s, ns, nodes@[j as int].idx as int) {
                    if let Ok(rest) = render_list(s, ns, nodes@.skip(j as int + 1), i) {
                        assert(outh + (h + rest) =~= output@ + rest);
                    }
                }
            }
            j = j + 1;
        }
        proof {
            assert(nodes@.skip(nodes@.len() as int) =~= Seq::<NodeId>::empty());
            if let Ok(full) = t {
                assert(output@ + Seq::<u8>::empty() =~= output@);
            }
        }
        Ok(())
    }

    /// Wrap one rendered node in a tag pair.
    fn one_wrapped_in(
        &self,
        output: &mut Vec<u8>,
        node: NodeId,
        tag: &Vec<u8>,
        Ghost(i): Ghost<int>,
    ) -> (r: Result<(), Error>)
        requires
            self.wf(),
            node.idx < i,
            i <= self.arena().len(),
        ensures
            match wrapped(render_node(self.src(), self.arena(), node.idx as int), tag@) {
                Ok(h) => r is Ok && final(output)@ == old(output)@ + h,
                Err(e) => r matches Err(e2) && e2 == e,
            },
        decreases i, 5int, 0int,
    {
        let ghost s = self.src();
        let ghost ns = self.arena();
        output.push(0x3c);
        append(output, tag);
        output.push(0x3e);
        match self.node(output, node) {
            Ok(()) => {},
            Err(e) => {
                return Err(e);
            },
        }
        output.push(0x3c);
        output.push(0x2f);
        append(output, tag);
        output.push(0x3e);
        proof {
            if let Ok(h) = render_node(s, ns, node.idx as int) {
                assert(output@ =~= old(output)@ + (tag_open(tag@) + h + tag_close(tag@)));
            }
        }
        Ok(())
    }

    /// Wrap a run of rendered children in a tag pair.
    fn many_wrapped_in(
        &self,
        output: &mut Vec<u8>,
        nodes: &Vec<NodeId>,
        tag: &Vec<u8>,
        Ghost(i): Ghost<int>,
    ) -> (r: Result<(), Error>)
        requires
            self.wf(),
            ids_bounded(nodes@, i),
            0 <= i <= self.arena().len(),
        ensures
            match wrapped(render_list(self.src(), self.arena(), nodes@, i), tag@) {
                Ok(h) => r is Ok && final(output)@ == old(output)@ + h,
                Err(e) => r matches Err(e2) && e2 == e,
            },
        decreases i, 5int, 0int,
    {
        let ghost s = self.src();
        let ghost ns = self.arena();
        output.push(0x3c);
        append(output, tag);
        output.push(0x3e);
        match self.group(output, nodes, Ghost(i)) {
            Ok(()) => {},
            Err(e) => {
                return Err(e);
            },
        }
        output.push(0x3c);
        output.push(0x2f);
        append(output, tag);
        output.push(0x3e);
        proof {
            if let Ok(h) = render_list(s, ns, nodes@, i) {
                assert(output@ =~= old(output)@ + (tag_open(tag@) + h + tag_close(tag@)));
            }
        }
        Ok(())
    }

    /// Dispatch a command by the exact bytes of its name.
    fn command(
        &self,
        output: &mut Vec<u8>,
        name: Span,
        args: &Vec<Argument>,
        Ghost(i): Ghost<int>,
    ) -> (r: Result<(), Error>)
        requires
            self.wf(),
            name.wf(self.src().len() as int),
            args_bounded(args@.map_values(|a: Argument| a@), i, self.src().len() as int),
            0 <= i <= self.arena().len(),
        ensures
            match render_command(
                self.src(),
                self.arena(),
                name,
                args@.map_values(|a: Argument| a@),
                i,
            ) {
                Ok(h) => r is Ok && final(output)@ == old(output)@ + h,
                Err(e) => r matches Err(e2) && e2 == e,
            },
        decreases i, 8int, 0int,
    {
        let nb = slice_subrange(self.bytes, name.start as usize, name.end as usize);
        if bytes_eq(nb, &lit_name_i()) {
            self.italic(output, name, args, Ghost(i))
        } else if bytes_eq(nb, &lit_name_b()) {
            self.bold(output, name, args, Ghost(i))
        } else if bytes_eq(nb, &lit_name_section()) {
            self.section(output, name, args, Ghost(i))
        } else if bytes_eq(nb, &lit_name_subsection()) {
            self.subsection(output, name, args, Ghost(i))
        } else if bytes_eq(nb, &lit_name_super()) {
            self.super_(output, name, args, Ghost(i))
        } else if bytes_eq(nb, &lit_name_code()) {
            self.code(output, name, args, Ghost(i))
        } else if bytes_eq(nb, &lit_name_link()) {
            self.link(output, name, args, Ghost(i))
        } else if bytes_eq(nb, &lit_name_aside()) {
            self.aside(output, name, args, Ghost(i))
        } else if bytes_eq(nb, &lit_name_blockquote()) {
            self.blockquote(output, name, args, Ghost(i))
        } else if bytes_eq(nb, &lit_name_codeblock()) {
            self.codeblock(output, name, args, Ghost(i))
        } else {
            Err(Error::UnknownCommand { span: name })
        }
    }

    /// One inline argument wrapped in a tag pair: the shared shape of the
    /// five text-styling commands.
    fn wrap_inline_cmd(
        &self,
        output: &mut Vec<u8>,
        name: Span,
        args: &Vec<Argument>,
        tag: &Vec<u8>,
        Ghost(i): Ghost<int>,
    ) -> (r: Result<(), Error>)
        requires
            self.wf(),
            args_bounded(args@.map_values(|a: Argument| a@), i, self.src().len() as int),
            0 <= i <= self.arena().len(),
        ensures
            match render_wrap_inline(
                self.src(),
                self.arena(),
                name,
                args@.map_values(|a: Argument| a@),
                i,
                tag@,
            ) {
                Ok(h) => r is Ok && final(output)@ == old(output)@ + h,
                Err(e) => r matches Err(e2) && e2 == e,
            },
        decreases i, 6int, 0int,
    {
        let ghost argsv = args@.map_values(|a: Argument| a@);
        match expect_args(name, args, 1) {
            Ok(()) => {},
            Err(e) => {
                return Err(e);
            },
        }
        let node = match inline_arg(args, 0) {
            Ok(n) => n,
            Err(e) => {
                return Err(e);
            },
        };
        proof {
            assert(arg_wf(argsv[0], i, self.src().len() as int));
        }
        self.one_wrapped_in(output, node, tag, Ghost(i))
    }

    fn italic(
        &self,
        output: &mut Vec<u8>,
        name: Span,
        args: &Vec<Argument>,
        Ghost(i): Ghost<int>,
    ) -> (r: Result<(), Error>)
        requires
            self.wf(),
            args_bounded(args@.map_values(|a: Argument| a@), i, self.src().len() as int),
            0 <= i <= self.arena().len(),
        ensures
            match render_wrap_inline(
                self.src(),
                self.arena(),
                name,
                args@.map_values(|a: Argument| a@),
                i,
                em_tag(),
            ) {
                Ok(h) => r is Ok && final(output)@ == old(output)@ + h,
                Err(e) => r matches Err(e2) && e2 == e,
            },
        decreases i, 7int, 0int,
    {
        self.wrap_inline_cmd(output, name, args, &lit_em_tag(), Ghost(i))
    }

    fn bold(
        &self,
        output: &mut Vec<u8>,
        name: Span,
        args: &Vec<Argument>,
        Ghost(i): Ghost<int>,
    ) -> (r: Result<(), Error>)
        requires
            self.wf(),
            args_bounded(args@.map_values(|a: Argument| a@), i, self.src().len() as int),
            0 <= i <= self.arena().len(),
        ensures
            match render_wrap_inline(
                self.src(),
                self.arena(),
                name,
                args@.map_values(|a: Argument| a@),
                i,
                strong_tag(),
            ) {
                Ok(h) => r is Ok && final(output)@ == old(output)@ + h,
                Err(e) => r matches Err(e2) && e2 == e,
            },
        decreases i, 7int, 0int,
    {
        self.wrap_inline_cmd(output, name, args, &lit_strong_tag(), Ghost(i))
    }

    fn section(
        &self,
        output: &mut Vec<u8>,
        name: Span,
        args: &Vec<Argument>,
        Ghost(i): Ghost<int>,
    ) -> (r: Result<(), Error>)
        requires
            self.wf(),
            args_bounded(args@.map_values(|a: Argument| a@), i, self.src().len() as int),
            0 <= i <= self.arena().len(),
        ensures
            match render_wrap_inline(
                self.src(),
                self.arena(),
                name,
                args@.map_values(|a: Argument| a@),
                i,
                h2_tag(),
            ) {
                Ok(h) => r is Ok && final(output)@ == old(output)@ + h,
                Err(e) => r matches Err(e2) && e2 == e,
            },
        decreases i, 7int, 0int,
    {
        self.wrap_inline_cmd(output, name, args, &lit_h2_tag(), Ghost(i))
    }

    fn subsection(
        &self,
        output: &mut Vec<u8>,
        name: Span,
        args: &Vec<Argument>,
        Ghost(i): Ghost<int>,
    ) -> (r: Result<(), Error>)
        requires
            self.wf(),
            args_bounded(args@.map_values(|a: Argument| a@), i, self.src().len() as int),
            0 <= i <= self.arena().len(),
        ensures
            match render_wrap_inline(
                self.src(),
                self.arena(),
                name,
                args@.map_values(|a: Argument| a@),
                i,
                h3_tag(),
            ) {
                Ok(h) => r is Ok && final(output)@ == old(output)@ + h,
                Err(e) => r matches Err(e2) && e2 == e,
            },
        decreases i, 7int, 0int,
    {
        self.wrap_inline_cmd(output, name, args, &lit_h3_tag(), Ghost(i))
    }

    fn super_(
        &self,
        output: &mut Vec<u8>,
        name: Span,
        args: &Vec<Argument>,
        Ghost(i): Ghost<int>,
    ) -> (r: Result<(), Error>)
        requires
            self.wf(),
            args_bounded(args@.map_values(|a: Argument| a@), i, self.src().len() as int),
            0 <= i <= self.arena().len(),
        ensures
            match render_wrap_inline(
                self.src(),
                self.arena(),
                name,
                args@.map_values(|a: Argument| a@),
                i,
                sup_tag(),
            ) {
                Ok(h) => r is Ok && final(output)@ == old(output)@ + h,
                Err(e) => r matches Err(e2) && e2 == e,
            },
        decreases i, 7int, 0int,
    {
        self.wrap_inline_cmd(output, name, args, &lit_sup_tag(), Ghost(i))
    }

    /// The `code` command: unescape the string, HTML-entity escape it, wrap
    /// it in a `code` tag pair.
    fn code(
        &self,
        output: &mut Vec<u8>,
        name: Span,
        args: &Vec<Argument>,
        Ghost(i): Ghost<int>,
    ) -> (r: Result<(), Error>)
        requires
            self.wf(),
            args_bounded(args@.map_values(|a: Argument| a@), i, self.src().len() as int),
        ensures
            match render_code(self.src(), name, args@.map_values(|a: Argument| a@)) {
                Ok(h) => r is Ok && final(output)@ == old(output)@ + h,
                Err(e) => r matches Err(e2) && e2 == e,
            },
    {
        let ghost argsv = args@.map_values(|a: Argument| a@);
        match expect_args(name, args, 1) {
            Ok(()) => {},
            Err(e) => {
                return Err(e);
            },
        }
        proof {
            assert(arg_wf(argsv[0], i, self.src().len() as int));
        }
        let sp = match string_arg(args, 0) {
            Ok(sp) => sp,
            Err(e) => {
                return Err(e);
            },
        };
        let content = slice_subrange(self.bytes, sp.start as usize, sp.end as usize);
        let un = unescape_bytes(content);
        let esc = escape_bytes(&un);
        output.push(0x3c);
        append(output, &lit_code_tag());
        output.push(0x3e);
        append(output, &esc);
        output.push(0x3c);
        output.push(0x2f);
        append(output, &lit_code_tag());
        output.push(0x3e);
        proof {
            assert(output@ =~= old(output)@ + (tag_open(code_tag()) + escape(
                unescape(span_bytes(self.src(), sp)),
            ) + tag_close(code_tag())));
        }
        Ok(())
    }

    /// The `link` command: the visible text as an inline argument, the
    /// `href` copied raw from the string argument.
    fn link(
        &self,
        output: &mut Vec<u8>,
        name: Span,
        args: &Vec<Argument>,
        Ghost(i): Ghost<int>,
    ) -> (r: Result<(), Error>)
        requires
            self.wf(),
            args_bounded(args@.map_values(|a: Argument| a@), i, self.src().len() as int),
            0 <= i <= self.arena().len(),
        ensures
            match render_link(
                self.src(),
                self.arena(),
                name,
                args@.map_values(|a: Argument| a@),
                i,
            ) {
                Ok(h) => r is Ok && final(output)@ == old(output)@ + h,
                Err(e) => r matches Err(e2) && e2 == e,
            },
        decreases i, 7int, 0int,
    {
        let ghost s = self.src();
        let ghost ns = self.arena();
        let ghost argsv = args@.map_values(|a: Argument| a@);
        match expect_args(name, args, 2) {
            Ok(()) => {},
            Err(e) => {
                return Err(e);
            },
        }
        let text = match inline_arg(args, 0) {
            Ok(n) => n,
            Err(e) => {
                return Err(e);
            },
        };
        proof {
            assert(arg_wf(argsv[0], i, s.len() as int));
            assert(arg_wf(argsv[1], i, s.len() as int));
        }
        let href = match string_arg(args, 1) {
            Ok(sp) => sp,
            Err(e) => {
                return Err(e);
            },
        };
        append(output, &lit_a_open());
        append_range(output, self.bytes, href.start as usize, href.end as usize);
        append(output, &lit_a_mid());
        match self.node(output, text) {
            Ok(()) => {},
            Err(e) => {
                return Err(e);
            },
        }
        append(output, &lit_a_close());
        proof {
            if let Ok(t) = render_node(s, ns, text.idx as int) {
                assert(output@ =~= old(output)@ + (a_open() + span_bytes(s, href) + a_mid() + t
                    + a_close()));
            }
        }
        Ok(())
    }

    fn aside(
        &self,
        output: &mut Vec<u8>,
        name: Span,
        args: &Vec<Argument>,
        Ghost(i): Ghost<int>,
    ) -> (r: Result<(), Error>)
        requires
            self.wf(),
            args_bounded(args@.map_values(|a: Argument| a@), i, self.src().len() as int),
            0 <= i <= self.arena().len(),
        ensures
            match render_wrap_block(
                self.src(),
                self.arena(),
                name,
                args@.map_values(|a: Argument| a@),
                i,
                aside_tag(),
            ) {
                Ok(h) => r is Ok && final(output)@ == old(output)@ + h,
                Err(e) => r matches Err(e2) && e2 == e,
            },
        decreases i, 7int, 0int,
    {
        self.wrap_block_cmd(output, name, args, &lit_aside_tag(), Ghost(i))
    }

    fn blockquote(
        &self,
        output: &mut Vec<u8>,
        name: Span,
        args: &Vec<Argument>,
        Ghost(i): Ghost<int>,
    ) -> (r: Result<(), Error>)
        requires
            self.wf(),
            args_bounded(args@.map_values(|a: Argument| a@), i, self.src().len() as int),
            0 <= i <= self.arena().len(),
        ensures
            match render_wrap_block(
                self.src(),
                self.arena(),
                name,
                args@.map_values(|a: Argument| a@),
                i,
                blockquote_tag(),
            ) {
                Ok(h) => r is Ok && final(output)@ == old(output)@ + h,
                Err(e) => r matches Err(e2) && e2 == e,
            },
        decreases i, 7int, 0int,
    {
        self.wrap_block_cmd(output, name, args, &lit_blockquote_tag(), Ghost(i))
    }

    /// One block argument, its children wrapped in a tag pair: the shared
    /// shape of `aside` and `blockquote`.
    fn wrap_block_cmd(
        &self,
        output: &mut Vec<u8>,
        name: Span,
        args: &Vec<Argument>,
        tag: &Vec<u8>,
        Ghost(i): Ghost<int>,
    ) -> (r: Result<(), Error>)
        requires
            self.wf(),
            args_bounded(args@.map_values(|a: Argument| a@), i, self.src().len() as int),
            0 <= i <= self.arena().len(),
        ensures
            match render_wrap_block(
                self.src(),
                self.arena(),
                name,
                args@.map_values(|a: Argument| a@),
                i,
                tag@,
            ) {
                Ok(h) => r is Ok && final(output)@ == old(output)@ + h,
                Err(e) => r matches Err(e2) && e2 == e,
            },
        decreases i, 6int, 0int,
    {
        let ghost argsv = args@.map_values(|a: Argument| a@);
        match expect_args(name, args, 1) {
            Ok(()) => {},
            Err(e) => {
                return Err(e);
            },
        }
        let nodes = match block_arg(args, 0) {
            Ok(c) => c,
            Err(e) => {
                return Err(e);
            },
        };
        proof {
            assert(arg_wf(argsv[0], i, self.src().len() as int));
        }
        self.many_wrapped_in(output, nodes, tag, Ghost(i))
    }

    /// The `codeblock` command: resolve the display language from the file
    /// name's extension, then emit the caption line and one `code` element
    /// per line of the escaped code string.
    fn codeblock(
        &self,
        output: &mut Vec<u8>,
        name: Span,
        args: &Vec<Argument>,
        Ghost(i): Ghost<int>,
    ) -> (r: Result<(), Error>)
        requires
            self.wf(),
            args_bounded(args@.map_values(|a: Argument| a@), i, self.src().len() as int),
        ensures
            match render_codeblock(self.src(), name, args@.map_values(|a: Argument| a@)) {
                Ok(h) => r is Ok && final(output)@ == old(output)@ + h,
                Err(e) => r matches Err(e2) && e2 == e,
            },
    {
        let ghost s = self.src();
        let ghost argsv = args@.map_values(|a: Argument| a@);
        match expect_args(name, args, 2) {
            Ok(()) => {},
            Err(e) => {
                return Err(e);
            },
        }
        proof {
            assert(arg_wf(argsv[0], i, s.len() as int));
            assert(arg_wf(argsv[1], i, s.len() as int));
        }
        let fsp = match string_arg(args, 0) {
            Ok(sp) => sp,
            Err(e) => {
                return Err(e);
            },
        };
        let csp = match string_arg(args, 1) {
            Ok(sp) => sp,
            Err(e) => {
                return Err(e);
            },
        };
        let fslice = slice_subrange(self.bytes, fsp.start as usize, fsp.end as usize);
        let file = unescape_bytes(fslice);

        // the index of the last `.` of the file name, if any
        let mut j: usize = file.len();
        let mut dot: Option<usize> = None;
        proof {
            assert(file@.take(file@.len() as int) =~= file@);
        }
        loop
            invariant_except_break
                dot is None,
            invariant
                j <= file@.len(),
                last_dot(file@) == last_dot(file@.take(j as int)),
            ensures
                match dot {
                    Some(d) => last_dot(file@) == d && d < file@.len(),
                    None => last_dot(file@) == -1,
                },
            decreases j,
        {
            if j == 0 {
                break;
            }
            if file[j - 1] == 0x2e {
                dot = Some(j - 1);
                proof {
                    assert(file@.take(j as int).last() == file@[j - 1]);
                }
                break;
            }
            proof {
                assert(file@.take(j as int).drop_last() =~= file@.take(j as int - 1));
            }
            j = j - 1;
        }
        let di = match dot {
            Some(d) => d,
            None => {
                return Err(Error::UnknownCodeLanguage { span: arg_span(args, 0) });
            },
        };
        let is_rs = tail_eq(&file, di + 1, &lit_rs_ext());
        let is_txt = tail_eq(&file, di + 1, &lit_txt_ext());
        if !is_rs && !is_txt {
            return Err(Error::UnknownCodeLanguage { span: arg_span(args, 0) });
        }
        let cslice = slice_subrange(self.bytes, csp.start as usize, csp.end as usize);
        let un = unescape_bytes(cslice);
        let esc = escape_bytes(&un);

        append(output, &lit_pre_open());
        if is_rs {
            append(output, &lit_rust_name());
        } else {
            append(output, &lit_text_name());
        }
        append(output, &lit_bull_sep());
        append(output, &file);
        append(output, &lit_div_close());
        let ghost out_mark = output@;
        let ghost lang = if is_rs {
            rust_name()
        } else {
            text_name()
        };

        // one `code` element per line of the escaped code
        let mut p: usize = 0;
        while p < esc.len()
            invariant
                p <= esc@.len(),
                output@ + code_lines_from(esc@, p as int) == out_mark + code_lines_from(esc@, 0),
            decreases esc@.len() - p,
        {
            let ghost outh = output@;
            let mut k: usize = p;
            while k < esc.len() && esc[k] != 0x0a
                invariant
                    p <= k <= esc@.len(),
                    find_nl(esc@, p as int) == find_nl(esc@, k as int),
                decreases esc@.len() - k,
            {
                k = k + 1;
            }
            proof {
                assert(find_nl(esc@, p as int) == k as int);
            }
            let line_end = if k < esc.len() {
                if k > p && esc[k - 1] == 0x0d {
                    k - 1
                } else {
                    k
                }
            } else {
                k
            };
            output.push(0x3c);
            append(output, &lit_code_tag());
            output.push(0x3e);
            append_range(output, esc.as_slice(), p, line_end);
            output.push(0x3c);
            output.push(0x2f);
            append(output, &lit_code_tag());
            output.push(0x3e);
            proof {
                if k < esc@.len() {
                    assert(chomp(esc@.subrange(p as int, k as int)) =~= esc@.subrange(
                        p as int,
                        line_end as int,
                    ));
                    assert(output@ =~= outh + (tag_open(code_tag()) + chomp(
                        esc@.subrange(p as int, k as int),
                    ) + tag_close(code_tag())));
                } else {
                    assert(output@ =~= outh + (tag_open(code_tag()) + esc@.subrange(
                        p as int,
                        esc@.len() as int,
                    ) + tag_close(code_tag())));
                }
            }
            p = if k < esc.len() {
                k + 1
            } else {
                k
            };
        }
        append(output, &lit_pre_close());
        proof {
            assert(code_lines_from(esc@, esc@.len() as int) =~= Seq::<u8>::empty());
            assert(output@ =~= old(output)@ + (pre_open() + lang + bull_sep() + file@ + div_close()
                + code_lines_from(esc@, 0) + pre_close()));
        }
        Ok(())
    }

    /// Render the whole tree from the root into a fresh output buffer.
    pub fn generate(&self) -> (r: Result<Vec<u8>, Error>)
        requires
            self.wf(),
        ensures
            match render_node(self.src(), self.arena(), self.root().idx as int) {
                Ok(h) => r matches Ok(v) && v@ == h,
                Err(e) => r matches Err(e2) && e2 == e,
            },
    {
        let mut output: Vec<u8> = Vec::new();
        match self.node(&mut output, self.ast.root) {
            Ok(()) => {
                proof {
                    if let Ok(h) = render_node(self.src(), self.arena(), self.root().idx as int) {
                        assert(output@ =~= h);
                    }
                }
                Ok(output)
            },
            Err(e) => Err(e),
        }
    }
}

} // verus!
