//! Rendering as a functional specification: what every node, command and
//! escape turns into, byte for byte.

use vstd::prelude::*;

use crate::ast::{NodeId, SpecArg, SpecNode};
use crate::error::{Error, Span};

verus! {

/// The bytes of the command name `i`: `i`.
pub open spec fn name_i() -> Seq<u8> {
    seq![0x69u8]
}

/// The bytes of the command name `b`: `b`.
pub open spec fn name_b() -> Seq<u8> {
    seq![0x62u8]
}

/// The bytes of the command name `section`: `section`.
pub open spec fn name_section() -> Seq<u8> {
    seq![0x73u8, 0x65, 0x63, 0x74, 0x69, 0x6f, 0x6e]
}

/// The bytes of the command name `subsection`: `subsection`.
pub open spec fn name_subsection() -> Seq<u8> {
    seq![0x73u8, 0x75, 0x62, 0x73, 0x65, 0x63, 0x74, 0x69, 0x6f, 0x6e]
}

/// The bytes of the command name `super`: `super`.
pub open spec fn name_super() -> Seq<u8> {
    seq![0x73u8, 0x75, 0x70, 0x65, 0x72]
}

/// The bytes of the command name `code`: `code`.
pub open spec fn name_code() -> Seq<u8> {
    seq![0x63u8, 0x6f, 0x64, 0x65]
}

/// The bytes of the command name `link`: `link`.
pub open spec fn name_link() -> Seq<u8> {
    seq![0x6cu8, 0x69, 0x6e, 0x6b]
}

/// The bytes of the command name `aside`: `aside`.
pub open spec fn name_aside() -> Seq<u8> {
    seq![0x61u8, 0x73, 0x69, 0x64, 0x65]
}

/// The bytes of the command name `blockquote`: `blockquote`.
pub open spec fn name_blockquote() -> Seq<u8> {
    seq![0x62u8, 0x6c, 0x6f, 0x63, 0x6b, 0x71, 0x75, 0x6f, 0x74, 0x65]
}

/// The bytes of the command name `codeblock`: `codeblock`.
pub open spec fn name_codeblock() -> Seq<u8> {
    seq![0x63u8, 0x6f, 0x64, 0x65, 0x62, 0x6c, 0x6f, 0x63, 0x6b]
}

/// The bytes of the tag `em`: `em`.
pub open spec fn em_tag() -> Seq<u8> {
    seq![0x65u8, 0x6d]
}

/// The bytes of the tag `strong`: `strong`.
pub open spec fn strong_tag() -> Seq<u8> {
    seq![0x73u8, 0x74, 0x72, 0x6f, 0x6e, 0x67]
}

/// The bytes of the tag `h2`: `h2`.
pub open spec fn h2_tag() -> Seq<u8> {
    seq![0x68u8, 0x32]
}

/// The bytes of the tag `h3`: `h3`.
pub open spec fn h3_tag() -> Seq<u8> {
    seq![0x68u8, 0x33]
}

/// The bytes of the tag `sup`: `sup`.
pub open spec fn sup_tag() -> Seq<u8> {
    seq![0x73u8, 0x75, 0x70]
}

/// The bytes of the tag `p`: `p`.
pub open spec fn p_tag() -> Seq<u8> {
    seq![0x70u8]
}

/// The bytes of the tag `code`: `code`.
pub open spec fn code_tag() -> Seq<u8> {
    seq![0x63u8, 0x6f, 0x64, 0x65]
}

/// The bytes of the tag `aside`: `aside`.
pub open spec fn aside_tag() -> Seq<u8> {
    seq![0x61u8, 0x73, 0x69, 0x64, 0x65]
}

/// The bytes of the tag `blockquote`: `blockquote`.
pub open spec fn blockquote_tag() -> Seq<u8> {
    seq![0x62u8, 0x6c, 0x6f, 0x63, 0x6b, 0x71, 0x75, 0x6f, 0x74, 0x65]
}

/// The bytes of the anchor opening up to its `href` value: `<a href="`.
pub open spec fn a_open() -> Seq<u8> {
    seq![0x3cu8, 0x61, 0x20, 0x68, 0x72, 0x65, 0x66, 0x3d, 0x22]
}

/// The bytes of the end of the `href` attribute and of the opening anchor tag: `">`.
pub open spec fn a_mid() -> Seq<u8> {
    seq![0x22u8, 0x3e]
}

/// The bytes of the closing anchor tag: `</a>`.
pub open spec fn a_close() -> Seq<u8> {
    seq![0x3cu8, 0x2f, 0x61, 0x3e]
}

/// The bytes of the code block opening and its caption division: `<pre><div class="language-tag">`.
pub open spec fn pre_open() -> Seq<u8> {
    seq![0x3cu8, 0x70, 0x72, 0x65, 0x3e, 0x3c, 0x64, 0x69, 0x76, 0x20, 0x63, 0x6c, 0x61, 0x73, 0x73, 0x3d, 0x22, 0x6c, 0x61, 0x6e, 0x67, 0x75, 0x61, 0x67, 0x65, 0x2d, 0x74, 0x61, 0x67, 0x22, 0x3e]
}

/// The bytes of the bullet between language name and file name: ` &bull; `.
pub open spec fn bull_sep() -> Seq<u8> {
    seq![0x20u8, 0x26, 0x62, 0x75, 0x6c, 0x6c, 0x3b, 0x20]
}

/// The bytes of the closing caption division: `</div>`.
pub open spec fn div_close() -> Seq<u8> {
    seq![0x3cu8, 0x2f, 0x64, 0x69, 0x76, 0x3e]
}

/// The bytes of the closing of the code block: `</pre>`.
pub open spec fn pre_close() -> Seq<u8> {
    seq![0x3cu8, 0x2f, 0x70, 0x72, 0x65, 0x3e]
}

/// The bytes of the display name for Rust sources: `Rust`.
pub open spec fn rust_name() -> Seq<u8> {
    seq![0x52u8, 0x75, 0x73, 0x74]
}

/// The bytes of the display name for plain text: `Text`.
pub open spec fn text_name() -> Seq<u8> {
    seq![0x54u8, 0x65, 0x78, 0x74]
}

/// The bytes of the file extension of Rust sources: `rs`.
pub open spec fn rs_ext() -> Seq<u8> {
    seq![0x72u8, 0x73]
}

/// The bytes of the file extension of plain text: `txt`.
pub open spec fn txt_ext() -> Seq<u8> {
    seq![0x74u8, 0x78, 0x74]
}

/// The source bytes a span points at.
pub open spec fn span_bytes(s: Seq<u8>, sp: Span) -> Seq<u8> {
    s.subrange(sp.start as int, sp.end as int)
}

/// What one byte becomes under HTML-entity escaping: `&`, `<`, `>` and the
/// double quote become entities, every other byte stays itself.
pub open spec fn escape_byte(b: u8) -> Seq<u8> {
    if b == 0x26 {
        seq![0x26u8, 0x61, 0x6d, 0x70, 0x3b]  // &amp;
    } else if b == 0x3c {
        seq![0x26u8, 0x6c, 0x74, 0x3b]  // &lt;
    } else if b == 0x3e {
        seq![0x26u8, 0x67, 0x74, 0x3b]  // &gt;
    } else if b == 0x22 {
        seq![0x26u8, 0x71, 0x75, 0x6f, 0x74, 0x3b]  // &quot;
    } else {
        seq![b]
    }
}

/// HTML-entity escaping, byte for byte.
pub open spec fn escape(s: Seq<u8>) -> Seq<u8>
    decreases s.len(),
{
    if s.len() == 0 {
        Seq::<u8>::empty()
    } else {
        escape_byte(s[0]) + escape(s.drop_first())
    }
}

/// Undo the string-literal escape: each `\"` pair becomes a literal quote,
/// scanning left to right without overlap.
pub open spec fn unescape(s: Seq<u8>) -> Seq<u8>
    decreases s.len(),
{
    if s.len() == 0 {
        Seq::<u8>::empty()
    } else if s.len() >= 2 && s[0] == 0x5c && s[1] == 0x22 {
        seq![0x22u8] + unescape(s.skip(2))
    } else {
        seq![s[0]] + unescape(s.drop_first())
    }
}

/// The first newline at or after `p`, or the length if none is left.
pub open spec fn find_nl(s: Seq<u8>, p: int) -> int
    decreases s.len() - p,
{
    if 0 <= p < s.len() {
        if s[p] == 0x0a {
            p
        } else {
            find_nl(s, p + 1)
        }
    } else {
        s.len() as int
    }
}

/// Strip one carriage return left at the end of a line that a newline ended.
pub open spec fn chomp(line: Seq<u8>) -> Seq<u8> {
    if line.len() > 0 && line.last() == 0x0d {
        line.drop_last()
    } else {
        line
    }
}

/// The index of the last `.` in a file name, or -1 if it has none.
pub open spec fn last_dot(s: Seq<u8>) -> int
    decreases s.len(),
{
    if s.len() == 0 {
        -1
    } else if s.last() == 0x2e {
        s.len() - 1
    } else {
        last_dot(s.drop_last())
    }
}

/// An opening tag.
pub open spec fn tag_open(tag: Seq<u8>) -> Seq<u8> {
    seq![0x3cu8] + tag + seq![0x3eu8]
}

/// A closing tag.
pub open spec fn tag_close(tag: Seq<u8>) -> Seq<u8> {
    seq![0x3cu8, 0x2f] + tag + seq![0x3eu8]
}

/// Wrap successfully rendered content in a tag pair; a failure passes
/// through.
pub open spec fn wrapped(inner: Result<Seq<u8>, Error>, tag: Seq<u8>) -> Result<Seq<u8>, Error> {
    match inner {
        Ok(x) => Ok(tag_open(tag) + x + tag_close(tag)),
        Err(e) => Err(e),
    }
}

/// One `<code>` element per newline-delimited line of `s`, from `p` on,
/// with the line split of `str::lines`: a final line ending is optional and
/// a carriage return before a newline is stripped.
pub open spec fn code_lines_from(s: Seq<u8>, p: int) -> Seq<u8>
    decreases s.len() - p,
{
    if !(0 <= p < s.len()) {
        Seq::<u8>::empty()
    } else {
        let k = find_nl(s, p);
        if !(p <= k <= s.len()) {
            Seq::<u8>::empty()
        } else if k < s.len() {
            tag_open(code_tag()) + chomp(s.subrange(p, k)) + tag_close(code_tag())
                + code_lines_from(s, k + 1)
        } else {
            tag_open(code_tag()) + s.subrange(p, s.len() as int) + tag_close(code_tag())
        }
    }
}

/// The number of arguments a command demands did not match.
pub open spec fn arg_count_err(name: Span, args: Seq<SpecArg>, expected: int) -> Error {
    Error::IncorrectArgCount {
        expected: expected as usize,
        found: args.len() as usize,
        span: name,
    }
}

/// The span of an argument's own surface syntax.
pub open spec fn spec_arg_span(a: SpecArg) -> Span {
    match a {
        SpecArg::Block(_, sp) => sp,
        SpecArg::Inline(_, sp) => sp,
        SpecArg::Ident(sp) => sp,
        SpecArg::String(sp) => sp,
    }
}

/// Demand an inline argument at `idx`.
pub open spec fn spec_inline_arg(args: Seq<SpecArg>, idx: int) -> Result<NodeId, Error> {
    match args[idx] {
        SpecArg::Inline(id, _) => Ok(id),
        SpecArg::Block(_, sp) => Err(Error::ExpectedInlineArg { span: sp }),
        SpecArg::Ident(sp) => Err(Error::ExpectedInlineArg { span: sp }),
        SpecArg::String(sp) => Err(Error::ExpectedInlineArg { span: sp }),
    }
}

/// Demand a block argument at `idx`.
pub open spec fn spec_block_arg(args: Seq<SpecArg>, idx: int) -> Result<Seq<NodeId>, Error> {
    match args[idx] {
        SpecArg::Block(c, _) => Ok(c),
        SpecArg::Inline(_, sp) => Err(Error::ExpectedBlockArg { span: sp }),
        SpecArg::Ident(sp) => Err(Error::ExpectedBlockArg { span: sp }),
        SpecArg::String(sp) => Err(Error::ExpectedBlockArg { span: sp }),
    }
}

/// Demand a string argument at `idx`; the result drops the two quotes.
pub open spec fn spec_string_arg(args: Seq<SpecArg>, idx: int) -> Result<Span, Error> {
    match args[idx] {
        SpecArg::String(sp) => Ok(
            Span { start: (sp.start + 1) as u32, end: (sp.end - 1) as u32 },
        ),
        SpecArg::Block(_, sp) => Err(Error::ExpectedStringArg { span: sp }),
        SpecArg::Inline(_, sp) => Err(Error::ExpectedStringArg { span: sp }),
        SpecArg::Ident(sp) => Err(Error::ExpectedStringArg { span: sp }),
    }
}

/// What a node renders to: children in order for a group, a paragraph tag
/// around them for a paragraph, the raw source bytes for text, the built-in
/// table for a command. `i` is the node's arena index; every handle below it
/// has already been pushed.
pub open spec fn render_node(s: Seq<u8>, ns: Seq<SpecNode>, i: int) -> Result<Seq<u8>, Error>
    decreases i, 3int, 0int,
{
    if !(0 <= i < ns.len()) {
        Ok(Seq::<u8>::empty())
    } else {
        match ns[i] {
            SpecNode::Group(c) => render_list(s, ns, c, i),
            SpecNode::Paragraph(c) => wrapped(render_list(s, ns, c, i), p_tag()),
            SpecNode::Text(sp) => Ok(span_bytes(s, sp)),
            SpecNode::Command(name, args) => render_command(s, ns, name, args, i),
        }
    }
}

/// Children rendered in order, the first failure short-circuiting.
pub open spec fn render_list(s: Seq<u8>, ns: Seq<SpecNode>, ids: Seq<NodeId>, i: int) -> Result<
    Seq<u8>,
    Error,
>
    decreases i, 0int, ids.len(),
{
    if ids.len() == 0 {
        Ok(Seq::<u8>::empty())
    } else if !(0 <= ids[0].idx < i) {
        Ok(Seq::<u8>::empty())
    } else {
        match render_node(s, ns, ids[0].idx as int) {
            Ok(h) => match render_list(s, ns, ids.drop_first(), i) {
                Ok(rest) => Ok(h + rest),
                Err(e) => Err(e),
            },
            Err(e) => Err(e),
        }
    }
}

/// The fixed table of built-ins, dispatched by the exact bytes of the
/// command's name; a name outside the table is the unknown-command error.
pub open spec fn render_command(
    s: Seq<u8>,
    ns: Seq<SpecNode>,
    name: Span,
    args: Seq<SpecArg>,
    i: int,
) -> Result<Seq<u8>, Error>
    decreases i, 2int, 0int,
{
    if !(0 <= i) {
        Ok(Seq::<u8>::empty())
    } else {
        let nb = span_bytes(s, name);
        if nb == name_i() {
            render_wrap_inline(s, ns, name, args, i, em_tag())
        } else if nb == name_b() {
            render_wrap_inline(s, ns, name, args, i, strong_tag())
        } else if nb == name_section() {
            render_wrap_inline(s, ns, name, args, i, h2_tag())
        } else if nb == name_subsection() {
            render_wrap_inline(s, ns, name, args, i, h3_tag())
        } else if nb == name_super() {
            render_wrap_inline(s, ns, name, args, i, sup_tag())
        } else if nb == name_code() {
            render_code(s, name, args)
        } else if nb == name_link() {
            render_link(s, ns, name, args, i)
        } else if nb == name_aside() {
            render_wrap_block(s, ns, name, args, i, aside_tag())
        } else if nb == name_blockquote() {
            render_wrap_block(s, ns, name, args, i, blockquote_tag())
        } else if nb == name_codeblock() {
            render_codeblock(s, name, args)
        } else {
            Err(Error::UnknownCommand { span: name })
        }
    }
}

/// A command of one inline argument, wrapped in `tag`.
pub open spec fn render_wrap_inline(
    s: Seq<u8>,
    ns: Seq<SpecNode>,
    name: Span,
    args: Seq<SpecArg>,
    i: int,
    tag: Seq<u8>,
) -> Result<Seq<u8>, Error>
    decreases i, 1int, 0int,
{
    if args.len() != 1 {
        Err(arg_count_err(name, args, 1))
    } else {
        match spec_inline_arg(args, 0) {
            Ok(id) => if 0 <= id.idx < i {
                wrapped(render_node(s, ns, id.idx as int), tag)
            } else {
                Ok(Seq::<u8>::empty())
            },
            Err(e) => Err(e),
        }
    }
}

/// A command of one block argument, its children wrapped in `tag`.
pub open spec fn render_wrap_block(
    s: Seq<u8>,
    ns: Seq<SpecNode>,
    name: Span,
    args: Seq<SpecArg>,
    i: int,
    tag: Seq<u8>,
) -> Result<Seq<u8>, Error>
    decreases i, 1int, 0int,
{
    if args.len() != 1 {
        Err(arg_count_err(name, args, 1))
    } else {
        match spec_block_arg(args, 0) {
            Ok(c) => wrapped(render_list(s, ns, c, i), tag),
            Err(e) => Err(e),
        }
    }
}

/// The `code` command: one string argument, unescaped then HTML-entity
/// escaped, wrapped in a `code` tag pair.
pub open spec fn render_code(s: Seq<u8>, name: Span, args: Seq<SpecArg>) -> Result<
    Seq<u8>,
    Error,
> {
    if args.len() != 1 {
        Err(arg_count_err(name, args, 1))
    } else {
        match spec_string_arg(args, 0) {
            Ok(sp) => Ok(
                tag_open(code_tag()) + escape(unescape(span_bytes(s, sp))) + tag_close(code_tag()),
            ),
            Err(e) => Err(e),
        }
    }
}

/// The `link` command: one inline argument (the visible text) and one string
/// argument (the `href`, copied raw).
pub open spec fn render_link(
    s: Seq<u8>,
    ns: Seq<SpecNode>,
    name: Span,
    args: Seq<SpecArg>,
    i: int,
) -> Result<Seq<u8>, Error>
    decreases i, 1int, 0int,
{
    if args.len() != 2 {
        Err(arg_count_err(name, args, 2))
    } else {
        match spec_inline_arg(args, 0) {
            Ok(id) => match spec_string_arg(args, 1) {
                Ok(href) => if 0 <= id.idx < i {
                    match render_node(s, ns, id.idx as int) {
                        Ok(t) => Ok(a_open() + span_bytes(s, href) + a_mid() + t + a_close()),
                        Err(e) => Err(e),
                    }
                } else {
                    Ok(Seq::<u8>::empty())
                },
                Err(e) => Err(e),
            },
            Err(e) => Err(e),
        }
    }
}

/// The `codeblock` command: a file name and a code string. The display
/// language is resolved from the file name's extension against a fixed
/// table; a file name without an extension, or with one outside the table,
/// is the unknown-code-language error.
pub open spec fn render_codeblock(s: Seq<u8>, name: Span, args: Seq<SpecArg>) -> Result<
    Seq<u8>,
    Error,
> {
    if args.len() != 2 {
        Err(arg_count_err(name, args, 2))
    } else {
        match spec_string_arg(args, 0) {
            Ok(fsp) => match spec_string_arg(args, 1) {
                Ok(csp) => {
                    let file = unescape(span_bytes(s, fsp));
                    let di = last_dot(file);
                    if di < 0 {
                        Err(Error::UnknownCodeLanguage { span: spec_arg_span(args[0]) })
                    } else {
                        let ext = file.skip(di + 1);
                        if ext == rs_ext() || ext == txt_ext() {
                            let lang = if ext == rs_ext() {
                                rust_name()
                            } else {
                                text_name()
                            };
                            let esc = escape(unescape(span_bytes(s, csp)));
                            Ok(
                                pre_open() + lang + bull_sep() + file + div_close()
                                    + code_lines_from(esc, 0) + pre_close(),
                            )
                        } else {
                            Err(Error::UnknownCodeLanguage { span: spec_arg_span(args[0]) })
                        }
                    }
                },
                Err(e) => Err(e),
            },
            Err(e) => Err(e),
        }
    }
}

} // verus!
