//! The compiler's promises about command rendering, proved once and for
//! all over the rendering specification.

use vstd::prelude::*;

use crate::ast::{SpecArg, SpecNode};
use crate::error::{Error, Span};
use crate::render::{
    a_close, a_mid, a_open, code_tag, em_tag, escape, name_aside, name_b, name_blockquote,
    name_code, name_codeblock, name_i, name_link, name_section, name_subsection, name_super,
    render_code, render_command, render_link, render_node, render_wrap_block, render_wrap_inline,
    span_bytes, spec_arg_span, strong_tag, sup_tag, tag_close, tag_open, unescape, h2_tag, h3_tag,
    aside_tag, blockquote_tag, render_codeblock,
};
use crate::to_html_spec;

verus! {

/// How many arguments each built-in command demands, `None` outside the
/// table.
pub open spec fn arity_of(nb: Seq<u8>) -> Option<int> {
    if nb == name_i() || nb == name_b() || nb == name_section() || nb == name_subsection()
        || nb == name_super() || nb == name_code() || nb == name_aside() || nb == name_blockquote() {
        Some(1int)
    } else if nb == name_link() || nb == name_codeblock() {
        Some(2int)
    } else {
        None
    }
}

/// The command's name demands exactly one inline argument.
pub open spec fn is_inline_command(nb: Seq<u8>) -> bool {
    nb == name_i() || nb == name_b() || nb == name_section() || nb == name_subsection()
        || nb == name_super()
}

/// A command invoked with the wrong number of arguments renders to the
/// arity error carrying the demanded and the supplied count and the name's
/// span — never to a generated fragment.
pub proof fn lemma_wrong_arity(
    s: Seq<u8>,
    ns: Seq<SpecNode>,
    i: int,
    name: Span,
    args: Seq<SpecArg>,
    expected: int,
)
    requires
        0 <= i < ns.len(),
        ns[i] == SpecNode::Command(name, args),
        arity_of(span_bytes(s, name)) == Some(expected),
        args.len() != expected,
    ensures
        render_node(s, ns, i) == Err::<Seq<u8>, Error>(
            Error::IncorrectArgCount {
                expected: expected as usize,
                found: args.len() as usize,
                span: name,
            },
        ),
{
    let nb = span_bytes(s, name);
    assert(render_node(s, ns, i) == render_command(s, ns, name, args, i));
    if nb == name_i() {
        assert(render_command(s, ns, name, args, i) == render_wrap_inline(s, ns, name, args, i, em_tag()));
    } else if nb == name_b() {
        assert(render_command(s, ns, name, args, i) == render_wrap_inline(s, ns, name, args, i, strong_tag()));
    } else if nb == name_section() {
        assert(render_command(s, ns, name, args, i) == render_wrap_inline(s, ns, name, args, i, h2_tag()));
    } else if nb == name_subsection() {
        assert(render_command(s, ns, name, args, i) == render_wrap_inline(s, ns, name, args, i, h3_tag()));
    } else if nb == name_super() {
        assert(render_command(s, ns, name, args, i) == render_wrap_inline(s, ns, name, args, i, sup_tag()));
    } else if nb == name_code() {
        assert(render_command(s, ns, name, args, i) == render_code(s, name, args));
    } else if nb == name_aside() {
        assert(render_command(s, ns, name, args, i) == render_wrap_block(s, ns, name, args, i, aside_tag()));
    } else if nb == name_blockquote() {
        assert(render_command(s, ns, name, args, i) == render_wrap_block(s, ns, name, args, i, blockquote_tag()));
    } else if nb == name_link() {
        assert(render_command(s, ns, name, args, i) == render_link(s, ns, name, args, i));
    } else {
        assert(nb == name_codeblock());
        assert(render_command(s, ns, name, args, i) == render_codeblock(s, name, args));
    }
}

/// A command that demands an inline argument, given exactly one argument of
/// any other kind, renders to the wrong-kind error carrying that argument's
/// own span.
pub proof fn lemma_wrong_kind_inline(
    s: Seq<u8>,
    ns: Seq<SpecNode>,
    i: int,
    name: Span,
    args: Seq<SpecArg>,
)
    requires
        0 <= i < ns.len(),
        ns[i] == SpecNode::Command(name, args),
        is_inline_command(span_bytes(s, name)),
        args.len() == 1,
        !(args[0] is Inline),
    ensures
        render_node(s, ns, i) == Err::<Seq<u8>, Error>(
            Error::ExpectedInlineArg { span: spec_arg_span(args[0]) },
        ),
{
    let nb = span_bytes(s, name);
    assert(render_node(s, ns, i) == render_command(s, ns, name, args, i));
    if nb == name_i() {
        assert(render_command(s, ns, name, args, i) == render_wrap_inline(s, ns, name, args, i, em_tag()));
    } else if nb == name_b() {
        assert(render_command(s, ns, name, args, i) == render_wrap_inline(s, ns, name, args, i, strong_tag()));
    } else if nb == name_section() {
        assert(render_command(s, ns, name, args, i) == render_wrap_inline(s, ns, name, args, i, h2_tag()));
    } else if nb == name_subsection() {
        assert(render_command(s, ns, name, args, i) == render_wrap_inline(s, ns, name, args, i, h3_tag()));
    } else {
        assert(nb == name_super());
        assert(render_command(s, ns, name, args, i) == render_wrap_inline(s, ns, name, args, i, sup_tag()));
    }
}

/// The italic and bold commands wrap their argument's rendering in exactly
/// one pair of tags, with the content unmodified.
pub proof fn lemma_style_wraps_once(
    s: Seq<u8>,
    ns: Seq<SpecNode>,
    i: int,
    name: Span,
    id: crate::ast::NodeId,
    sp: Span,
    h: Seq<u8>,
)
    requires
        0 <= i < ns.len(),
        0 <= id.idx < i,
        ns[i] == SpecNode::Command(name, seq![SpecArg::Inline(id, sp)]),
        render_node(s, ns, id.idx as int) == Ok::<Seq<u8>, Error>(h),
    ensures
        span_bytes(s, name) == name_i() ==> render_node(s, ns, i) == Ok::<Seq<u8>, Error>(
            tag_open(em_tag()) + h + tag_close(em_tag()),
        ),
        span_bytes(s, name) == name_b() ==> render_node(s, ns, i) == Ok::<Seq<u8>, Error>(
            tag_open(strong_tag()) + h + tag_close(strong_tag()),
        ),
{
    let args = seq![SpecArg::Inline(id, sp)];
    assert(render_node(s, ns, i) == render_command(s, ns, name, args, i));
    if span_bytes(s, name) == name_i() {
        assert(render_command(s, ns, name, args, i) == render_wrap_inline(s, ns, name, args, i, em_tag()));
    }
    if span_bytes(s, name) == name_b() {
        assert(name_i()[0] == 0x69 && name_b()[0] == 0x62);
        assert(render_command(s, ns, name, args, i) == render_wrap_inline(s, ns, name, args, i, strong_tag()));
    }
}

/// The link command's `href` attribute is exactly the string argument's
/// contents between the quotes, copied raw, and its visible text is the
/// rendered inline argument.
pub proof fn lemma_link_href_raw(
    s: Seq<u8>,
    ns: Seq<SpecNode>,
    i: int,
    name: Span,
    id: crate::ast::NodeId,
    isp: Span,
    ssp: Span,
    h: Seq<u8>,
)
    requires
        0 <= i < ns.len(),
        0 <= id.idx < i,
        ns[i] == SpecNode::Command(name, seq![SpecArg::Inline(id, isp), SpecArg::String(ssp)]),
        span_bytes(s, name) == name_link(),
        render_node(s, ns, id.idx as int) == Ok::<Seq<u8>, Error>(h),
    ensures
        render_node(s, ns, i) == Ok::<Seq<u8>, Error>(
            a_open() + span_bytes(
                s,
                Span { start: (ssp.start + 1) as u32, end: (ssp.end - 1) as u32 },
            ) + a_mid() + h + a_close(),
        ),
{
    let args = seq![SpecArg::Inline(id, isp), SpecArg::String(ssp)];
    assert(render_node(s, ns, i) == render_command(s, ns, name, args, i));
    assert(render_command(s, ns, name, args, i) == render_link(s, ns, name, args, i));
}

/// The code command renders the string argument's contents with the escaped
/// quotes turned back into literal quotes and the result HTML-entity
/// escaped, in one pair of `code` tags.
pub proof fn lemma_code_escapes(s: Seq<u8>, ns: Seq<SpecNode>, i: int, name: Span, ssp: Span)
    requires
        0 <= i < ns.len(),
        ns[i] == SpecNode::Command(name, seq![SpecArg::String(ssp)]),
        span_bytes(s, name) == name_code(),
    ensures
        render_node(s, ns, i) == Ok::<Seq<u8>, Error>(
            tag_open(code_tag()) + escape(
                unescape(
                    span_bytes(
                        s,
                        Span { start: (ssp.start + 1) as u32, end: (ssp.end - 1) as u32 },
                    ),
                ),
            ) + tag_close(code_tag()),
        ),
{
    let args = seq![SpecArg::String(ssp)];
    assert(render_node(s, ns, i) == render_command(s, ns, name, args, i));
    assert(render_command(s, ns, name, args, i) == render_code(s, name, args));
}

/// Compilation is deterministic: what a source compiles to is a function of
/// its bytes alone, so any two results of compiling the same bytes agree,
/// with no hidden state between runs.
pub proof fn lemma_compile_deterministic(
    s: Seq<u8>,
    r1: Result<Seq<u8>, Error>,
    r2: Result<Seq<u8>, Error>,
)
    requires
        r1 == to_html_spec(s),
        r2 == to_html_spec(s),
    ensures
        r1 == r2,
{
}

} // verus!
