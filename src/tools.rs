//! The response tool chain: `!t1!t2...` names byte-transforming tools that
//! are applied to a reply right to left.
use vstd::prelude::*;
use base64::Engine;
use crate::bytes::{bytes_eq, copy_bytes};

verus! {

/// `!`, which opens each tool name in a chain.
pub const BANG: u8 = 33;

/// What base64 decoding (standard alphabet, with padding) makes of the bytes:
/// the decoded bytes, or `None` where they are not valid base64.
pub uninterp spec fn base64_decoded(b: Seq<u8>) -> Option<Seq<u8>>;

/// What lenient quoted-printable decoding makes of the bytes: the decoded
/// bytes, or `None` where decoding fails.
pub uninterp spec fn quoted_printable_decoded(b: Seq<u8>) -> Option<Seq<u8>>;

/// Relies on base64's `STANDARD` engine and `Engine::decode`, a function of
/// the input bytes alone.
#[verifier::external_body]
fn decode_base64(b: &[u8]) -> (r: Option<Vec<u8>>)
    ensures
        r matches Some(v) ==> base64_decoded(b@) == Some(v@),
        r is None ==> base64_decoded(b@) is None,
{
    base64::engine::general_purpose::STANDARD.decode(b).ok()
}

/// Relies on `quoted_printable::decode` in `ParseMode::Robust`, a function of
/// the input bytes alone.
#[verifier::external_body]
fn decode_quoted_printable(b: &[u8]) -> (r: Option<Vec<u8>>)
    ensures
        r matches Some(v) ==> quoted_printable_decoded(b@) == Some(v@),
        r is None ==> quoted_printable_decoded(b@) is None,
{
    quoted_printable::decode(b, quoted_printable::ParseMode::Robust).ok()
}

/// A decoding tool.
#[derive(Clone, Copy, Debug, PartialEq, Eq, Structural)]
pub enum Decoder {
    Base64,
    QuotedPrintable,
}

/// What a tool asks of the outside world, or reports, as it runs.
#[derive(Debug)]
pub enum ToolEffect {
    /// Decoding failed; the reply was left as it was.
    DecodeFailed(Decoder),
    /// Show these bytes (the reply at that point of the chain) in a browser.
    OpenBrowser(Vec<u8>),
    /// No tool has this name; the reply was left as it was.
    UnknownTool(Vec<u8>),
}

/// The mathematical value of a `ToolEffect`.
pub enum ToolEffectView {
    DecodeFailed(Decoder),
    OpenBrowser(Seq<u8>),
    UnknownTool(Seq<u8>),
}

impl View for ToolEffect {
    type V = ToolEffectView;

    open spec fn view(&self) -> ToolEffectView {
        match self {
            ToolEffect::DecodeFailed(d) => ToolEffectView::DecodeFailed(*d),
            ToolEffect::OpenBrowser(b) => ToolEffectView::OpenBrowser(b@),
            ToolEffect::UnknownTool(t) => ToolEffectView::UnknownTool(t@),
        }
    }
}

pub open spec fn effects_view(effects: Seq<ToolEffect>) -> Seq<ToolEffectView> {
    effects.map_values(|e: ToolEffect| e@)
}

/// `b64`
pub open spec fn base64_name() -> Seq<u8> {
    seq![98u8, 54u8, 52u8]
}

/// `qp`
pub open spec fn quoted_printable_name() -> Seq<u8> {
    seq![113u8, 112u8]
}

/// `b`
pub open spec fn browser_name() -> Seq<u8> {
    seq![98u8]
}

/// The tool names of `spec[..end]` in the order they are applied, right to
/// left; the name being read ends at `seg_end`.
pub open spec fn chain_scan(spec: Seq<u8>, end: int, seg_end: int) -> Seq<Seq<u8>>
    decreases end,
{
    if end <= 0 {
        Seq::empty()
    } else if spec[end - 1] == BANG {
        seq![spec.subrange(end, seg_end)] + chain_scan(spec, end - 1, end - 1)
    } else {
        chain_scan(spec, end - 1, seg_end)
    }
}

/// The tool names of a chain in the order they are applied: each name runs
/// from a `!` to the next `!` or the end, and the rightmost comes first.
pub open spec fn tool_chain(spec: Seq<u8>) -> Seq<Seq<u8>> {
    chain_scan(spec, spec.len() as int, spec.len() as int)
}

/// The outcome of a decoder on the reply: the decoded bytes replace it, or it
/// stays as it was and the failure is reported.
pub open spec fn decode_outcome(decoder: Decoder, decoded: Option<Seq<u8>>, buf: Seq<u8>) -> (Seq<u8>, Seq<ToolEffectView>) {
    match decoded {
        Some(d) => (d, Seq::empty()),
        None => (buf, seq![ToolEffectView::DecodeFailed(decoder)]),
    }
}

/// One tool applied to the reply: the new reply and what it reported.
pub open spec fn apply_tool(tool: Seq<u8>, buf: Seq<u8>) -> (Seq<u8>, Seq<ToolEffectView>) {
    if tool == base64_name() {
        decode_outcome(Decoder::Base64, base64_decoded(buf), buf)
    } else if tool == quoted_printable_name() {
        decode_outcome(Decoder::QuotedPrintable, quoted_printable_decoded(buf), buf)
    } else if tool == browser_name() {
        (buf, seq![ToolEffectView::OpenBrowser(buf)])
    } else {
        (buf, seq![ToolEffectView::UnknownTool(tool)])
    }
}

/// The tools applied in order: the final reply and everything reported.
pub open spec fn apply_chain(tools: Seq<Seq<u8>>, buf: Seq<u8>) -> (Seq<u8>, Seq<ToolEffectView>)
    decreases tools.len(),
{
    if tools.len() == 0 {
        (buf, Seq::empty())
    } else {
        let first = apply_tool(tools[0], buf);
        let rest = apply_chain(tools.drop_first(), first.0);
        (rest.0, first.1 + rest.1)
    }
}

/// A chain ending in `!t`, with no `!` in `t`, applies `t` first and then
/// the chain before it.
pub proof fn lemma_rightmost_tool_first(front: Seq<u8>, t: Seq<u8>)
    requires
        !t.contains(BANG),
    ensures
        tool_chain(front + seq![BANG] + t) == seq![t] + tool_chain(front),
{
    let spec = front + seq![BANG] + t;
    let n = spec.len() as int;
    let m = front.len() as int;
    assert(spec.subrange(m + 1, n) =~= t);
    lemma_scan_skips(spec, t, m, n, n);
    assert(spec.subrange(0, m) =~= front);
    assert(spec[m] == BANG);
    lemma_scan_prefix(front, spec, m, m);
}

proof fn lemma_scan_skips(spec: Seq<u8>, t: Seq<u8>, m: int, e: int, n: int)
    requires
        0 <= m,
        m + 1 <= e <= n,
        n == spec.len(),
        spec.subrange(m + 1, n) == t,
        !t.contains(BANG),
    ensures
        chain_scan(spec, e, n) == chain_scan(spec, m + 1, n),
    decreases e,
{
    if e > m + 1 {
        assert(spec[e - 1] == t[e - 1 - (m + 1)]);
        if spec[e - 1] == BANG {
            assert(t.contains(BANG));
        }
        lemma_scan_skips(spec, t, m, e - 1, n);
    }
}

proof fn lemma_scan_prefix(front: Seq<u8>, spec: Seq<u8>, end: int, seg: int)
    requires
        0 <= end <= seg <= front.len(),
        front.len() <= spec.len(),
        spec.subrange(0, front.len() as int) == front,
    ensures
        chain_scan(spec, end, seg) == chain_scan(front, end, seg),
    decreases end,
{
    if end > 0 {
        assert(spec.subrange(0, front.len() as int)[end - 1] == spec[end - 1]);
        if spec[end - 1] == BANG {
            lemma_scan_prefix(front, spec, end - 1, end - 1);
            assert(spec.subrange(end, seg) =~= front.subrange(end, seg)) by {
                assert forall|i: int| 0 <= i < seg - end implies spec.subrange(end, seg)[i] == front.subrange(end, seg)[i] by {
                    assert(spec.subrange(0, front.len() as int)[end + i] == spec[end + i]);
                }
            }
        } else {
            lemma_scan_prefix(front, spec, end - 1, seg);
        }
    }
}

proof fn lemma_single_tool_chain(t: Seq<u8>)
    requires
        !t.contains(BANG),
    ensures
        tool_chain(seq![BANG] + t) == seq![t],
{
    lemma_rightmost_tool_first(Seq::empty(), t);
    assert(Seq::<u8>::empty() + seq![BANG] + t =~= seq![BANG] + t);
    assert(seq![t] + tool_chain(Seq::<u8>::empty()) =~= seq![t]);
}

/// The chain `!b!b64` decodes base64 first and only then asks for the
/// browser, which is shown the decoded bytes.
pub proof fn lemma_decode_then_browser(buf: Seq<u8>)
    requires
        base64_decoded(buf) is Some,
    ensures
        apply_chain(tool_chain(seq![BANG, 98u8, BANG, 98u8, 54u8, 52u8]), buf) == (
            base64_decoded(buf)->0,
            seq![ToolEffectView::OpenBrowser(base64_decoded(buf)->0)],
        ),
{
    let spec = seq![BANG, 98u8, BANG, 98u8, 54u8, 52u8];
    let front = seq![BANG] + browser_name();
    assert(!base64_name().contains(BANG)) by {
        if base64_name().contains(BANG) {
            let i = choose|i: int| 0 <= i < base64_name().len() && base64_name()[i] == BANG;
        }
    }
    assert(!browser_name().contains(BANG)) by {
        if browser_name().contains(BANG) {
            let i = choose|i: int| 0 <= i < browser_name().len() && browser_name()[i] == BANG;
        }
    }
    lemma_rightmost_tool_first(front, base64_name());
    lemma_single_tool_chain(browser_name());
    assert(front + seq![BANG] + base64_name() =~= spec);
    let chain = seq![base64_name(), browser_name()];
    assert(tool_chain(spec) =~= chain);
    let d = base64_decoded(buf)->0;
    assert(base64_name() != browser_name()) by {
        assert(base64_name().len() != browser_name().len());
    }
    assert(browser_name() != quoted_printable_name()) by {
        assert(quoted_printable_name().len() != browser_name().len());
    }
    let rest1 = chain.drop_first();
    assert(rest1 =~= seq![browser_name()]);
    let rest2 = rest1.drop_first();
    assert(rest2 =~= Seq::<Seq<u8>>::empty());
    assert(apply_chain(rest2, d) == (d, Seq::<ToolEffectView>::empty()));
    assert(apply_tool(browser_name(), d) == (d, seq![ToolEffectView::OpenBrowser(d)]));
    assert(apply_chain(rest1, d) == (d, seq![ToolEffectView::OpenBrowser(d)] + Seq::<ToolEffectView>::empty()));
    assert(apply_tool(base64_name(), buf) == (d, Seq::<ToolEffectView>::empty()));
    assert(Seq::<ToolEffectView>::empty() + (seq![ToolEffectView::OpenBrowser(d)] + Seq::<ToolEffectView>::empty())
        =~= seq![ToolEffectView::OpenBrowser(d)]);
}

/// `!b64` on bytes that are not valid base64 keeps the reply byte for byte
/// and reports the failed decoding.
pub proof fn lemma_bad_base64_kept(buf: Seq<u8>)
    requires
        base64_decoded(buf) is None,
    ensures
        apply_chain(tool_chain(seq![BANG, 98u8, 54u8, 52u8]), buf) == (
            buf,
            seq![ToolEffectView::DecodeFailed(Decoder::Base64)],
        ),
{
    let spec = seq![BANG, 98u8, 54u8, 52u8];
    assert(!base64_name().contains(BANG)) by {
        if base64_name().contains(BANG) {
            let i = choose|i: int| 0 <= i < base64_name().len() && base64_name()[i] == BANG;
        }
    }
    lemma_single_tool_chain(base64_name());
    assert(seq![BANG] + base64_name() =~= spec);
    let chain = seq![base64_name()];
    let rest = chain.drop_first();
    assert(rest =~= Seq::<Seq<u8>>::empty());
    assert(apply_chain(rest, buf) == (buf, Seq::<ToolEffectView>::empty()));
    assert(apply_tool(base64_name(), buf) == (buf, seq![ToolEffectView::DecodeFailed(Decoder::Base64)]));
    assert(seq![ToolEffectView::DecodeFailed(Decoder::Base64)] + Seq::<ToolEffectView>::empty()
        =~= seq![ToolEffectView::DecodeFailed(Decoder::Base64)]);
}

/// Puts a decoder's result in place: decoded bytes replace the reply; on
/// failure the reply is kept and the failure is returned.
pub fn apply_decoded(decoder: Decoder, buf: &mut Vec<u8>, decoded: Option<Vec<u8>>) -> (r: Option<ToolEffect>)
    ensures
        decoded matches Some(d) ==> final(buf)@ == d@ && r is None,
        decoded is None ==> final(buf)@ == old(buf)@
            && (r matches Some(e) && e@ == ToolEffectView::DecodeFailed(decoder)),
{
    match decoded {
        Some(d) => {
            *buf = d;
            None
        },
        None => Some(ToolEffect::DecodeFailed(decoder)),
    }
}

/// Applies the tool named `tool` to the reply.
fn apply_one(tool: &[u8], buf: &mut Vec<u8>) -> (r: Option<ToolEffect>)
    ensures
        (final(buf)@, match r {
            Some(e) => seq![e@],
            None => Seq::<ToolEffectView>::empty(),
        }) == apply_tool(tool@, old(buf)@),
{
    let b64: Vec<u8> = vec![98u8, 54u8, 52u8];
    let qp: Vec<u8> = vec![113u8, 112u8];
    let browser: Vec<u8> = vec![98u8];
    assert(b64@ =~= base64_name());
    assert(qp@ =~= quoted_printable_name());
    assert(browser@ =~= browser_name());
    if bytes_eq(tool, b64.as_slice()) {
        let decoded = decode_base64(buf.as_slice());
        let r = apply_decoded(Decoder::Base64, buf, decoded);
        proof {
            if r is Some {
                assert(seq![r->0@] =~= seq![ToolEffectView::DecodeFailed(Decoder::Base64)]);
            }
        }
        r
    } else if bytes_eq(tool, qp.as_slice()) {
        let decoded = decode_quoted_printable(buf.as_slice());
        let r = apply_decoded(Decoder::QuotedPrintable, buf, decoded);
        proof {
            if r is Some {
                assert(seq![r->0@] =~= seq![ToolEffectView::DecodeFailed(Decoder::QuotedPrintable)]);
            }
        }
        r
    } else if bytes_eq(tool, browser.as_slice()) {
        Some(ToolEffect::OpenBrowser(copy_bytes(buf.as_slice())))
    } else {
        Some(ToolEffect::UnknownTool(copy_bytes(tool)))
    }
}

proof fn lemma_apply_chain_cons(t: Seq<u8>, rest: Seq<Seq<u8>>, buf: Seq<u8>)
    ensures
        apply_chain(seq![t] + rest, buf) == ({
            let first = apply_tool(t, buf);
            let tail = apply_chain(rest, first.0);
            (tail.0, first.1 + tail.1)
        }),
{
    let s = seq![t] + rest;
    assert(s[0] == t);
    assert(s.drop_first() =~= rest);
}

/// Applies the tool chain `spec` to the reply, rightmost tool first, and
/// returns what the tools reported, in order. Decoders replace the reply with
/// its decoding, or keep it and report the failure; `b` asks for the reply as
/// it stands to be shown in a browser; an unknown name is reported and
/// skipped.
pub fn apply_tools(spec: &[u8], buf: &mut Vec<u8>) -> (effects: Vec<ToolEffect>)
    ensures
        (final(buf)@, effects_view(effects@)) == apply_chain(tool_chain(spec@), old(buf)@),
{
    let mut effects: Vec<ToolEffect> = Vec::new();
    let mut end: usize = spec.len();
    let mut seg_end: usize = spec.len();
    while end > 0
        invariant
            end <= seg_end <= spec@.len(),
            ({
                let rest = apply_chain(chain_scan(spec@, end as int, seg_end as int), buf@);
                apply_chain(tool_chain(spec@), old(buf)@) == (rest.0, effects_view(effects@) + rest.1)
            }),
        decreases end,
    {
        if spec[end - 1] == BANG {
            let ghost before = buf@;
            let ghost eff_before = effects@;
            let tool = &spec[end..seg_end];
            let ghost rest_chain = chain_scan(spec@, end - 1, end - 1);
            proof {
                lemma_apply_chain_cons(tool@, rest_chain, before);
            }
            let r = apply_one(tool, buf);
            match r {
                Some(e) => {
                    effects.push(e);
                },
                None => {},
            }
            proof {
                let step = apply_tool(tool@, before);
                let tail = apply_chain(rest_chain, buf@);
                assert(effects_view(effects@) =~= effects_view(eff_before) + step.1);
                assert(effects_view(eff_before) + (step.1 + tail.1)
                    =~= effects_view(effects@) + tail.1);
            }
            seg_end = end - 1;
        }
        end = end - 1;
    }
    proof {
        let rest = apply_chain(chain_scan(spec@, 0, seg_end as int), buf@);
        assert(effects_view(effects@) + rest.1 =~= effects_view(effects@));
    }
    effects
}

} // verus!
