//! Block fingerprints: a 128-bit XXH3 hash of a canonical byte encoding
//! of a block, which ignores the order of attributes, of arguments and
//! of object entries, the form of line breaks and surrounding
//! whitespace of embedded code, and the sign of zero and the payload of
//! NaN in floating-point numbers.
use vstd::prelude::*;
use vstd::utf8::{encode_utf8, is_ascii_chars, is_ascii_chars_encode_utf8};

use crate::format::{
    arguments_view, Argument, ArgumentV, Attribute, AttributeV, Block, CallV, Child, ChildContent,
    ChildContentV, ChildV, LeadingText, LeadingTextV, Literal, LiteralV, RValue, RValueV,
    TailingText, TailingTextV, TemplateLiteralPart, TemplatePartV, Text, TextV, Variable,
};
use crate::sorting::{isort, lemma_insert_sorted_at, lemma_isort_elements, seq_lt, str_lt};
use crate::text::{chars_of, skip_ws_backward, skip_ws_forward, trim};

verus! {

broadcast use vstd::std_specs::vec::axiom_vec_index_decreases;

// ---------------------------------------------------------------------
// The outside hash
// ---------------------------------------------------------------------

/// The XXH3 128-bit hash (default seed and secret) of a byte sequence.
pub uninterp spec fn xxh3_128(bytes: Seq<u8>) -> u128;

/// `twox_hash::XxHash3_128::oneshot`: hashes `bytes` in one call; the
/// crate documents that this equals feeding the same bytes to a
/// streaming hasher and finishing it. The contract only names the
/// result as the hash of the bytes.
#[verifier::external_body]
fn xxh3_128_of(bytes: &[u8]) -> (r: u128)
    ensures
        r == xxh3_128(bytes@),
{
    twox_hash::XxHash3_128::oneshot(bytes)
}

// ---------------------------------------------------------------------
// Integers as bytes
// ---------------------------------------------------------------------

pub open spec fn u32_le(x: u32) -> Seq<u8> {
    seq![
        (x & 0xff) as u8,
        ((x >> 8) & 0xff) as u8,
        ((x >> 16) & 0xff) as u8,
        ((x >> 24) & 0xff) as u8,
    ]
}

pub open spec fn u64_le(x: u64) -> Seq<u8> {
    seq![
        (x & 0xff) as u8,
        ((x >> 8) & 0xff) as u8,
        ((x >> 16) & 0xff) as u8,
        ((x >> 24) & 0xff) as u8,
        ((x >> 32) & 0xff) as u8,
        ((x >> 40) & 0xff) as u8,
        ((x >> 48) & 0xff) as u8,
        ((x >> 56) & 0xff) as u8,
    ]
}

pub open spec fn u128_be(x: u128) -> Seq<u8> {
    Seq::new(16, |k: int| ((x >> (((15 - k) * 8) as u32)) & 0xff) as u8)
}

fn u128_be_bytes(x: u128) -> (r: [u8; 16])
    ensures
        r@ == u128_be(x),
{
    let mut out = [0u8; 16];
    let mut k: usize = 0;
    while k < 16
        invariant
            0 <= k <= 16,
            out@.len() == 16,
            forall|j: int| 0 <= j < k ==> #[trigger] out@[j] == u128_be(x)[j],
        decreases 16 - k,
    {
        let shift: u32 = ((15 - k) * 8) as u32;
        out[k] = ((x >> shift) & 0xff) as u8;
        k += 1;
    }
    assert(out@ =~= u128_be(x));
    out
}

fn push_u32_le(out: &mut Vec<u8>, x: u32)
    ensures
        final(out)@ == old(out)@ + u32_le(x),
{
    let ghost start = out@;
    out.push((x & 0xff) as u8);
    out.push(((x >> 8) & 0xff) as u8);
    out.push(((x >> 16) & 0xff) as u8);
    out.push(((x >> 24) & 0xff) as u8);
    assert(out@ =~= start + u32_le(x));
}

fn push_u64_le(out: &mut Vec<u8>, x: u64)
    ensures
        final(out)@ == old(out)@ + u64_le(x),
{
    let ghost start = out@;
    out.push((x & 0xff) as u8);
    out.push(((x >> 8) & 0xff) as u8);
    out.push(((x >> 16) & 0xff) as u8);
    out.push(((x >> 24) & 0xff) as u8);
    out.push(((x >> 32) & 0xff) as u8);
    out.push(((x >> 40) & 0xff) as u8);
    out.push(((x >> 48) & 0xff) as u8);
    out.push(((x >> 56) & 0xff) as u8);
    assert(out@ =~= start + u64_le(x));
}

// ---------------------------------------------------------------------
// Normalizations
// ---------------------------------------------------------------------

/// The bit pattern of a float with `-0.0` made `0.0` and every NaN made
/// the canonical quiet NaN.
pub open spec fn normalize_f64_bits(bits: u64) -> u64 {
    if bits & 0x7fff_ffff_ffff_ffff == 0 {
        0
    } else if bits & 0x7ff0_0000_0000_0000 == 0x7ff0_0000_0000_0000 && bits & 0x000f_ffff_ffff_ffff
        != 0 {
        0x7ff8_0000_0000_0000
    } else {
        bits
    }
}

fn normalize_f64_bits_exec(bits: u64) -> (r: u64)
    ensures
        r == normalize_f64_bits(bits),
{
    if bits & 0x7fff_ffff_ffff_ffff == 0 {
        0
    } else if bits & 0x7ff0_0000_0000_0000 == 0x7ff0_0000_0000_0000 && bits & 0x000f_ffff_ffff_ffff
        != 0 {
        0x7ff8_0000_0000_0000
    } else {
        bits
    }
}

/// `\r\n` becomes `\n`, then every other `\r` becomes `\n`.
pub open spec fn normalize_line_breaks(s: Seq<char>) -> Seq<char>
    decreases s.len(),
{
    if s.len() == 0 {
        Seq::empty()
    } else if s[0] == '\r' && s.len() > 1 && s[1] == '\n' {
        seq!['\n'] + normalize_line_breaks(s.skip(2))
    } else if s[0] == '\r' {
        seq!['\n'] + normalize_line_breaks(s.skip(1))
    } else {
        seq![s[0]] + normalize_line_breaks(s.skip(1))
    }
}

/// Embedded code as the fingerprint sees it.
pub open spec fn normalize_embedded_code(s: Seq<char>) -> Seq<char> {
    trim(normalize_line_breaks(s))
}

fn normalize_embedded_code_exec(code: &str) -> (r: Vec<char>)
    ensures
        r@ == normalize_embedded_code(code@),
{
    let v = chars_of(code);
    let mut n: Vec<char> = Vec::new();
    let mut i: usize = 0;
    assert(v@.skip(0) =~= v@);
    assert(Seq::<char>::empty() + normalize_line_breaks(v@.skip(0)) =~= normalize_line_breaks(v@));
    while i < v.len()
        invariant
            0 <= i <= v@.len(),
            n@ + normalize_line_breaks(v@.skip(i as int)) == normalize_line_breaks(v@),
        decreases v.len() - i,
    {
        let ghost t = v@.skip(i as int);
        if v[i] == '\r' && i + 1 < v.len() && v[i + 1] == '\n' {
            assert(t.skip(2) =~= v@.skip(i + 2));
            n.push('\n');
            i += 2;
        } else if v[i] == '\r' {
            assert(t.skip(1) =~= v@.skip(i + 1));
            n.push('\n');
            i += 1;
        } else {
            assert(t.skip(1) =~= v@.skip(i + 1));
            n.push(v[i]);
            i += 1;
        }
    }
    assert(v@.skip(i as int) =~= Seq::<char>::empty());
    assert(n@ + Seq::<char>::empty() =~= n@);
    let lo = skip_ws_forward(&n, 0, n.len());
    let hi = skip_ws_backward(&n, lo, n.len());
    let mut r: Vec<char> = Vec::new();
    crate::text::extend_from(&mut r, &n, lo, hi);
    proof {
        assert(n@.subrange(0, n@.len() as int) =~= n@);
        let t = n@.skip(lo as int);
        assert(t =~= n@.subrange(lo as int, n@.len() as int));
        assert(t.take(t.len() - (n@.len() - hi)) =~= n@.subrange(lo as int, hi as int));
    }
    r
}

// ---------------------------------------------------------------------
// Sort orders
// ---------------------------------------------------------------------

pub open spec fn opt_str_lt(a: Option<Seq<char>>, b: Option<Seq<char>>) -> bool {
    match (a, b) {
        (None, Some(_)) => true,
        (Some(x), Some(y)) => seq_lt(x, y),
        _ => false,
    }
}

/// Attributes by keyword, then condition (absent first).
pub open spec fn attr_lt(a: AttributeV, b: AttributeV) -> bool {
    seq_lt(a.keyword, b.keyword) || (a.keyword == b.keyword && opt_str_lt(a.condition, b.condition))
}

/// Arguments by name.
pub open spec fn arg_lt(a: ArgumentV, b: ArgumentV) -> bool {
    seq_lt(a.name, b.name)
}

pub open spec fn attr_order() -> spec_fn(AttributeV, AttributeV) -> bool {
    |x: AttributeV, y: AttributeV| attr_lt(x, y)
}

pub open spec fn arg_order() -> spec_fn(ArgumentV, ArgumentV) -> bool {
    |x: ArgumentV, y: ArgumentV| arg_lt(x, y)
}

pub open spec fn key_order() -> spec_fn((Seq<char>, Seq<u8>), (Seq<char>, Seq<u8>)) -> bool {
    |x: (Seq<char>, Seq<u8>), y: (Seq<char>, Seq<u8>)| key_lt(x, y)
}

// ---------------------------------------------------------------------
// The canonical encoding
// ---------------------------------------------------------------------

/// A string: its UTF-8 length as four little-endian bytes, then its
/// UTF-8 bytes.
pub open spec fn enc_str(s: Seq<char>) -> Seq<u8> {
    u32_le(encode_utf8(s).len() as u32) + encode_utf8(s)
}

pub open spec fn enc_opt_str(o: Option<Seq<char>>) -> Seq<u8> {
    match o {
        Some(s) => seq![0x11u8] + enc_str(s),
        None => seq![0x10u8],
    }
}

pub open spec fn enc_attribute(a: AttributeV) -> Seq<u8> {
    seq![0x03u8] + enc_str(a.keyword) + enc_opt_str(a.condition)
}

pub open spec fn enc_attributes(s: Seq<AttributeV>) -> Seq<u8>
    decreases s.len(),
{
    if s.len() == 0 {
        Seq::empty()
    } else {
        enc_attributes(s.drop_last()) + enc_attribute(s.last())
    }
}

pub open spec fn enc_strs(s: Seq<Seq<char>>) -> Seq<u8>
    decreases s.len(),
{
    if s.len() == 0 {
        Seq::empty()
    } else {
        enc_strs(s.drop_last()) + enc_str(s.last())
    }
}

pub open spec fn enc_variable(chain: Seq<Seq<char>>) -> Seq<u8> {
    seq![0x05u8] + u32_le(chain.len() as u32) + enc_strs(chain)
}

pub open spec fn enc_literal(l: LiteralV) -> Seq<u8>
    decreases l, 1nat,
{
    match l {
        LiteralV::Null => seq![0x80u8],
        LiteralV::Str(s) => seq![0x81u8] + enc_str(s),
        LiteralV::Integer(i) => seq![0x82u8] + u64_le(i as u64),
        LiteralV::Float(b) => seq![0x83u8] + u64_le(normalize_f64_bits(b)),
        LiteralV::Boolean(b) => seq![0x84u8, if b { 1u8 } else { 0u8 }],
        LiteralV::Array(v) => seq![0x85u8] + u32_le(v.len() as u32) + enc_literals(v),
        LiteralV::Object(e) => {
            let sorted = isort(keyed_entries(e), key_order());
            seq![0x86u8] + u32_le(sorted.len() as u32) + concat_bytes(
                sorted.map_values(|p: (Seq<char>, Seq<u8>)| p.1),
            )
        },
    }
}

/// Each entry of an object paired with its key: the key, then the
/// encoded key followed by the encoded value.
pub open spec fn keyed_entries(e: Seq<(Seq<char>, LiteralV)>) -> Seq<(Seq<char>, Seq<u8>)>
    decreases e, 0nat,
{
    Seq::new(
        e.len(),
        |i: int|
            if 0 <= i < e.len() {
                (e[i].0, enc_str(e[i].0) + enc_literal(e[i].1))
            } else {
                (Seq::empty(), Seq::empty())
            },
    )
}

pub open spec fn enc_literals(v: Seq<LiteralV>) -> Seq<u8>
    decreases v, 0nat,
{
    if v.len() == 0 {
        Seq::empty()
    } else {
        enc_literals(v.drop_last()) + enc_literal(v.last())
    }
}

/// Keyed encodings by key.
pub open spec fn key_lt(a: (Seq<char>, Seq<u8>), b: (Seq<char>, Seq<u8>)) -> bool {
    seq_lt(a.0, b.0)
}

pub open spec fn concat_bytes(s: Seq<Seq<u8>>) -> Seq<u8>
    decreases s.len(),
{
    if s.len() == 0 {
        Seq::empty()
    } else {
        concat_bytes(s.drop_last()) + s.last()
    }
}

pub open spec fn enc_rvalue(v: RValueV) -> Seq<u8> {
    match v {
        RValueV::Literal(l) => seq![0x70u8] + enc_literal(l),
        RValueV::Variable(c) => seq![0x71u8] + enc_variable(c),
    }
}

pub open spec fn enc_argument(a: ArgumentV) -> Seq<u8> {
    seq![0x04u8] + enc_str(a.name) + enc_rvalue(a.value)
}

pub open spec fn enc_arguments(s: Seq<ArgumentV>) -> Seq<u8>
    decreases s.len(),
{
    if s.len() == 0 {
        Seq::empty()
    } else {
        enc_arguments(s.drop_last()) + enc_argument(s.last())
    }
}

/// A command or system call: its name, then its arguments sorted by name.
pub open spec fn enc_call(c: CallV) -> Seq<u8> {
    let sorted = isort(c.arguments, arg_order());
    enc_str(c.command) + u32_le(sorted.len() as u32) + enc_arguments(sorted)
}

pub open spec fn enc_template_part(p: TemplatePartV) -> Seq<u8> {
    match p {
        TemplatePartV::Text(s) => seq![0x60u8] + enc_str(s),
        TemplatePartV::Value(v) => seq![0x61u8] + enc_rvalue(v),
    }
}

pub open spec fn enc_template_parts(s: Seq<TemplatePartV>) -> Seq<u8>
    decreases s.len(),
{
    if s.len() == 0 {
        Seq::empty()
    } else {
        enc_template_parts(s.drop_last()) + enc_template_part(s.last())
    }
}

pub open spec fn enc_template(s: Seq<TemplatePartV>) -> Seq<u8> {
    seq![0x06u8] + u32_le(s.len() as u32) + enc_template_parts(s)
}

pub open spec fn enc_leading(l: LeadingTextV) -> Seq<u8> {
    match l {
        LeadingTextV::Absent => seq![0x30u8],
        LeadingTextV::Text(s) => seq![0x31u8] + enc_str(s),
        LeadingTextV::Template(t) => seq![0x32u8] + enc_template(t),
    }
}

pub open spec fn enc_text(t: TextV) -> Seq<u8> {
    match t {
        TextV::Absent => seq![0x40u8],
        TextV::Text(s) => seq![0x41u8] + enc_str(s),
        TextV::Template(t) => seq![0x42u8] + enc_template(t),
    }
}

pub open spec fn enc_tailing(t: TailingTextV) -> Seq<u8> {
    match t {
        TailingTextV::Absent => seq![0x50u8],
        TailingTextV::Text(s) => seq![0x51u8] + enc_str(s),
    }
}

pub open spec fn enc_content(c: ChildContentV) -> Seq<u8>
    decreases c, 0nat,
{
    match c {
        ChildContentV::Block(b) => seq![0x20u8] + enc_block(b),
        ChildContentV::TextLine(l, t, g) => seq![0x21u8] + enc_leading(l) + enc_text(t) + enc_tailing(g),
        ChildContentV::CommandLine(cl) => seq![0x22u8] + enc_call(cl),
        ChildContentV::SystemCallLine(sl) => seq![0x23u8] + enc_call(sl),
        ChildContentV::EmbeddedCode(code) => seq![0x24u8] + enc_str(normalize_embedded_code(code)),
    }
}

/// A child: its attributes sorted, then its content.
pub open spec fn enc_child(c: ChildV) -> Seq<u8>
    decreases c, 0nat,
{
    let sorted = isort(c.attributes, attr_order());
    seq![0x02u8] + u32_le(sorted.len() as u32) + enc_attributes(sorted) + enc_content(c.content)
}

pub open spec fn enc_children(s: Seq<ChildV>) -> Seq<u8>
    decreases s, 0nat,
{
    if s.len() == 0 {
        Seq::empty()
    } else {
        enc_children(s.drop_last()) + enc_child(s.last())
    }
}

pub open spec fn enc_block(b: Seq<ChildV>) -> Seq<u8>
    decreases b, 1nat,
{
    seq![0x01u8] + u32_le(b.len() as u32) + enc_children(b)
}

/// The version prefix `sixu:block-fingerprint:v1`.
pub open spec fn version_prefix() -> Seq<u8> {
    seq![
        115u8, 105, 120, 117, 58, 98, 108, 111, 99, 107, 45, 102, 105, 110, 103, 101, 114, 112,
        114, 105, 110, 116, 58, 118, 49,
    ]
}

/// The bytes that are hashed for a block.
pub open spec fn fingerprint_input(b: Seq<ChildV>) -> Seq<u8> {
    version_prefix() + enc_block(b)
}

/// The fingerprint of a block.
pub open spec fn spec_fingerprint(b: Seq<ChildV>) -> Seq<u8> {
    u128_be(xxh3_128(fingerprint_input(b)))
}

// ---------------------------------------------------------------------
// Lengths that the encoding writes must fit in 32 bits
// ---------------------------------------------------------------------

pub open spec fn str_fits(s: Seq<char>) -> bool {
    encode_utf8(s).len() <= u32::MAX
}

pub open spec fn strs_fit(s: Seq<Seq<char>>) -> bool {
    s.len() <= u32::MAX && forall|i: int| 0 <= i < s.len() ==> str_fits(#[trigger] s[i])
}

pub open spec fn literal_fits(l: LiteralV) -> bool
    decreases l,
{
    match l {
        LiteralV::Str(s) => str_fits(s),
        LiteralV::Array(v) => v.len() <= u32::MAX && forall|i: int|
            0 <= i < v.len() ==> literal_fits(#[trigger] v[i]),
        LiteralV::Object(e) => e.len() <= u32::MAX && forall|i: int|
            0 <= i < e.len() ==> str_fits(#[trigger] e[i].0) && literal_fits(e[i].1),
        _ => true,
    }
}

pub open spec fn rvalue_fits(v: RValueV) -> bool {
    match v {
        RValueV::Literal(l) => literal_fits(l),
        RValueV::Variable(c) => strs_fit(c),
    }
}

pub open spec fn call_fits(c: CallV) -> bool {
    &&& str_fits(c.command)
    &&& c.arguments.len() <= u32::MAX
    &&& forall|i: int|
        0 <= i < c.arguments.len() ==> str_fits(#[trigger] c.arguments[i].name) && rvalue_fits(
            c.arguments[i].value,
        )
}

pub open spec fn template_fits(t: Seq<TemplatePartV>) -> bool {
    t.len() <= u32::MAX && forall|i: int|
        0 <= i < t.len() ==> match #[trigger] t[i] {
            TemplatePartV::Text(s) => str_fits(s),
            TemplatePartV::Value(v) => rvalue_fits(v),
        }
}

pub open spec fn content_fits(c: ChildContentV) -> bool
    decreases c,
{
    match c {
        ChildContentV::Block(b) => block_fits(b),
        ChildContentV::TextLine(l, t, g) => {
            &&& match l {
                LeadingTextV::Text(s) => str_fits(s),
                LeadingTextV::Template(t) => template_fits(t),
                LeadingTextV::Absent => true,
            }
            &&& match t {
                TextV::Text(s) => str_fits(s),
                TextV::Template(t) => template_fits(t),
                TextV::Absent => true,
            }
            &&& match g {
                TailingTextV::Text(s) => str_fits(s),
                TailingTextV::Absent => true,
            }
        },
        ChildContentV::CommandLine(cl) => call_fits(cl),
        ChildContentV::SystemCallLine(sl) => call_fits(sl),
        ChildContentV::EmbeddedCode(code) => str_fits(normalize_embedded_code(code)),
    }
}

pub open spec fn child_fits(c: ChildV) -> bool
    decreases c,
{
    &&& c.attributes.len() <= u32::MAX
    &&& forall|i: int|
        0 <= i < c.attributes.len() ==> str_fits(#[trigger] c.attributes[i].keyword) && match c.attributes[i].condition {
            Some(s) => str_fits(s),
            None => true,
        }
    &&& content_fits(c.content)
}

/// Every length that the encoding of a block writes fits in 32 bits
/// (the fingerprint of a block that breaks this is not defined).
pub open spec fn block_fits(b: Seq<ChildV>) -> bool
    decreases b,
{
    b.len() <= u32::MAX && forall|i: int| 0 <= i < b.len() ==> child_fits(#[trigger] b[i])
}

// ---------------------------------------------------------------------
// The encoder
// ---------------------------------------------------------------------

fn push_str_enc(out: &mut Vec<u8>, s: &str)
    requires
        str_fits(s@),
    ensures
        final(out)@ == old(out)@ + enc_str(s@),
{
    let b = s.as_bytes();
    let n = b.len();
    push_u32_le(out, n as u32);
    let ghost mid = out@;
    let mut i: usize = 0;
    while i < n
        invariant
            0 <= i <= n,
            n == b@.len(),
            b@ == encode_utf8(s@),
            out@ == mid + b@.take(i as int),
        decreases n - i,
    {
        out.push(b[i]);
        i += 1;
        assert(out@ =~= mid + b@.take(i as int));
    }
    assert(b@.take(n as int) =~= b@);
}

fn push_chars_enc(out: &mut Vec<u8>, v: &Vec<char>)
    requires
        str_fits(v@),
    ensures
        final(out)@ == old(out)@ + enc_str(v@),
{
    let s = crate::text::string_of_all(v.as_slice());
    push_str_enc(out, s.as_str());
}

fn sort_attributes<'a>(v: &'a Vec<Attribute>) -> (r: Vec<&'a Attribute>)
    ensures
        r@.map_values(|a: &Attribute| a@) == isort(v@.map_values(|a: Attribute| a@), attr_order()),
{
    let ghost all = v@.map_values(|a: Attribute| a@);
    let mut r: Vec<&Attribute> = Vec::new();
    let mut i: usize = 0;
    assert(r@.map_values(|a: &Attribute| a@) =~= isort(all.take(0), attr_order()));
    while i < v.len()
        invariant
            0 <= i <= v@.len(),
            all == v@.map_values(|a: Attribute| a@),
            r@.map_values(|a: &Attribute| a@) == isort(all.take(i as int), attr_order()),
        decreases v.len() - i,
    {
        let x = &v[i];
        let ghost rv = r@.map_values(|a: &Attribute| a@);
        let mut j: usize = r.len();
        while j > 0 && attribute_less(x, r[j - 1])
            invariant
                0 <= j <= r@.len(),
                rv == r@.map_values(|a: &Attribute| a@),
                forall|k: int| j <= k < r@.len() ==> attr_lt(x@, #[trigger] rv[k]),
            decreases j,
        {
            j -= 1;
        }
        proof {
            lemma_insert_sorted_at(rv, x@, attr_order(), j as int);
            assert(all.take(i + 1).drop_last() =~= all.take(i as int));
        }
        r.insert(j, x);
        assert(r@.map_values(|a: &Attribute| a@) =~= rv.insert(j as int, x@));
        i += 1;
    }
    assert(all.take(i as int) =~= all);
    r
}

fn attribute_less(a: &Attribute, b: &Attribute) -> (r: bool)
    ensures
        r == attr_lt(a@, b@),
{
    if str_lt(a.keyword.as_str(), b.keyword.as_str()) {
        return true;
    }
    if !crate::text::str_eq(a.keyword.as_str(), b.keyword.as_str()) {
        return false;
    }
    match (&a.condition, &b.condition) {
        (None, Some(_)) => true,
        (Some(x), Some(y)) => str_lt(x.as_str(), y.as_str()),
        _ => false,
    }
}

fn sort_arguments<'a>(v: &'a Vec<Argument>) -> (r: Vec<&'a Argument>)
    ensures
        r@.map_values(|a: &Argument| a@) == isort(v@.map_values(|a: Argument| a@), arg_order()),
{
    let ghost all = v@.map_values(|a: Argument| a@);
    let mut r: Vec<&Argument> = Vec::new();
    let mut i: usize = 0;
    assert(r@.map_values(|a: &Argument| a@) =~= isort(all.take(0), arg_order()));
    while i < v.len()
        invariant
            0 <= i <= v@.len(),
            all == v@.map_values(|a: Argument| a@),
            r@.map_values(|a: &Argument| a@) == isort(all.take(i as int), arg_order()),
        decreases v.len() - i,
    {
        let x = &v[i];
        let ghost rv = r@.map_values(|a: &Argument| a@);
        let mut j: usize = r.len();
        while j > 0 && str_lt(x.name.as_str(), r[j - 1].name.as_str())
            invariant
                0 <= j <= r@.len(),
                rv == r@.map_values(|a: &Argument| a@),
                forall|k: int| j <= k < r@.len() ==> arg_lt(x@, #[trigger] rv[k]),
            decreases j,
        {
            j -= 1;
        }
        proof {
            lemma_insert_sorted_at(rv, x@, arg_order(), j as int);
            assert(all.take(i + 1).drop_last() =~= all.take(i as int));
        }
        r.insert(j, x);
        assert(r@.map_values(|a: &Argument| a@) =~= rv.insert(j as int, x@));
        i += 1;
    }
    assert(all.take(i as int) =~= all);
    r
}

pub open spec fn keyed_view(v: Seq<(&String, Vec<u8>)>) -> Seq<(Seq<char>, Seq<u8>)> {
    v.map_values(|p: (&String, Vec<u8>)| (p.0@, p.1@))
}

fn sort_keyed<'a>(v: Vec<(&'a String, Vec<u8>)>) -> (r: Vec<(&'a String, Vec<u8>)>)
    ensures
        keyed_view(r@) == isort(keyed_view(v@), key_order()),
{
    let ghost all = keyed_view(v@);
    let len = v.len();
    let mut rest = v;
    let mut src: Vec<(&String, Vec<u8>)> = Vec::new();
    while rest.len() > 0
        invariant
            src@.len() + rest@.len() == len,
            len == all.len(),
            forall|k: int|
                0 <= k < src@.len() ==> ((#[trigger] src@[k]).0@, src@[k].1@) == all[len - 1 - k],
            keyed_view(rest@) == all.take(rest@.len() as int),
        decreases rest.len(),
    {
        let ghost old_rest = rest@;
        let x = rest.pop().unwrap();
        assert(keyed_view(old_rest)[old_rest.len() - 1] == (x.0@, x.1@));
        assert(keyed_view(rest@) =~= all.take(rest@.len() as int));
        src.push(x);
    }
    let mut r: Vec<(&String, Vec<u8>)> = Vec::new();
    let mut i: usize = 0;
    assert(keyed_view(r@) =~= isort(all.take(0), key_order()));
    while i < len
        invariant
            0 <= i <= len,
            len == all.len(),
            src@.len() == len - i,
            forall|k: int|
                0 <= k < src@.len() ==> ((#[trigger] src@[k]).0@, src@[k].1@) == all[len - 1 - k],
            keyed_view(r@) == isort(all.take(i as int), key_order()),
        decreases len - i,
    {
        let x = src.pop().unwrap();
        let ghost xv = (x.0@, x.1@);
        assert(xv == all[i as int]);
        let ghost rv = keyed_view(r@);
        let mut j: usize = r.len();
        loop
            invariant
                0 <= j <= r@.len(),
                rv == keyed_view(r@),
                xv == (x.0@, x.1@),
                forall|k: int| j <= k < r@.len() ==> key_lt(xv, #[trigger] rv[k]),
            ensures
                0 <= j <= r@.len(),
                forall|k: int| j <= k < r@.len() ==> key_lt(xv, #[trigger] rv[k]),
                j > 0 ==> !key_lt(xv, rv[j - 1]),
            decreases j,
        {
            if j == 0 {
                break;
            }
            let prev: &String = r[j - 1].0;
            let lt = str_lt(x.0.as_str(), prev.as_str());
            assert(rv[j - 1] == (prev@, r@[j - 1].1@));
            if !lt {
                break;
            }
            j -= 1;
        }
        proof {
            lemma_insert_sorted_at(rv, xv, key_order(), j as int);
            assert(all.take(i + 1).drop_last() =~= all.take(i as int));
            assert(all.take(i + 1).last() == xv);
        }
        r.insert(j, x);
        assert(keyed_view(r@) =~= rv.insert(j as int, xv));
        i += 1;
    }
    assert(all.take(i as int) =~= all);
    r
}

fn encode_literal(out: &mut Vec<u8>, l: &Literal)
    requires
        literal_fits(l@),
    ensures
        final(out)@ == old(out)@ + enc_literal(l@),
    decreases l,
{
    let ghost start = out@;
    match l {
        Literal::Null => {
            out.push(0x80);
        },
        Literal::String(s) => {
            out.push(0x81);
            push_str_enc(out, s.as_str());
        },
        Literal::Integer(i) => {
            out.push(0x82);
            push_u64_le(out, #[verifier::truncate] (*i as u64));
        },
        Literal::Float(b) => {
            out.push(0x83);
            let n = normalize_f64_bits_exec(*b);
            push_u64_le(out, n);
        },
        Literal::Boolean(b) => {
            out.push(0x84);
            out.push(if *b { 1 } else { 0 });
        },
        Literal::Array(v) => {
            let ghost lv = crate::format::literals_view(*v);
            out.push(0x85);
            push_u32_le(out, v.len() as u32);
            let ghost mid = out@;
            let mut i: usize = 0;
            assert(mid + enc_literals(lv.take(0)) =~= mid);
            while i < v.len()
                invariant
                    0 <= i <= v.len(),
                    lv == crate::format::literals_view(*v),
                    lv.len() == v.len(),
                    *l == Literal::Array(*v),
                    literal_fits(l@),
                    out@ == mid + enc_literals(lv.take(i as int)),
                decreases v.len() - i,
            {
                assert(lv.take(i + 1).drop_last() =~= lv.take(i as int));
                assert(decreases_to!(*l => (*l)->Array_0));
                assert(decreases_to!(*v => v[i as int]));
                assert(lv[i as int] == v[i as int]@);
                encode_literal(out, &v[i]);
                i += 1;
                assert(out@ =~= mid + enc_literals(lv.take(i as int)));
            }
            assert(lv.take(i as int) =~= lv);
            assert(l@ == LiteralV::Array(lv));
            assert(out@ =~= start + enc_literal(l@));
        },
        Literal::Object(e) => {
            let ghost ev = crate::format::entries_view(*e);
            let ghost keyed = keyed_entries(ev);
            let mut pairs: Vec<(&String, Vec<u8>)> = Vec::new();
            let mut i: usize = 0;
            while i < e.len()
                invariant
                    0 <= i <= e.len(),
                    ev == crate::format::entries_view(*e),
                    ev.len() == e.len(),
                    *l == Literal::Object(*e),
                    literal_fits(l@),
                    keyed_view(pairs@) == keyed.take(i as int),
                    pairs@.len() == i,
                    keyed.len() == ev.len(),
                    forall|k: int|
                        0 <= k < ev.len() ==> #[trigger] keyed[k] == (
                            ev[k].0,
                            enc_str(ev[k].0) + enc_literal(ev[k].1),
                        ),
                decreases e.len() - i,
            {
                let mut buf: Vec<u8> = Vec::new();
                assert(ev[i as int] == (e[i as int].0@, e[i as int].1@));
                assert(l@ == LiteralV::Object(ev));
                assert(str_fits(ev[i as int].0));
                assert(literal_fits(ev[i as int].1));
                push_str_enc(&mut buf, e[i].0.as_str());
                assert(decreases_to!(*l => (*l)->Object_0));
                assert(decreases_to!(*e => e[i as int]));
                assert(decreases_to!(e[i as int] => e[i as int].1));
                encode_literal(&mut buf, &e[i].1);
                assert(buf@ == keyed[i as int].1);
                let ghost before = pairs@;
                let key: &String = &e[i].0;
                assert(key@ == keyed[i as int].0);
                let ghost entry = (key@, buf@);
                pairs.push((key, buf));
                assert(pairs@.len() == i + 1);
                assert(keyed_view(pairs@)[i as int] == entry);
                assert(keyed_view(pairs@).drop_last() =~= keyed_view(before));
                i += 1;
                assert(keyed_view(pairs@) =~= keyed.take(i as int));
            }
            assert(keyed.take(i as int) =~= keyed);
            let sorted = sort_keyed(pairs);
            proof {
                crate::sorting::lemma_isort_multiset(keyed, key_order());
            }
            out.push(0x86);
            push_u32_le(out, sorted.len() as u32);
            let ghost sv = keyed_view(sorted@);
            let ghost mid = out@;
            let mut k: usize = 0;
            assert(mid + concat_bytes(sv.map_values(|p: (Seq<char>, Seq<u8>)| p.1).take(0)) =~= mid);
            while k < sorted.len()
                invariant
                    0 <= k <= sorted@.len(),
                    sv == keyed_view(sorted@),
                    out@ == mid + concat_bytes(sv.map_values(|p: (Seq<char>, Seq<u8>)| p.1).take(k as int)),
                decreases sorted.len() - k,
            {
                let ghost bs = sv.map_values(|p: (Seq<char>, Seq<u8>)| p.1);
                assert(bs.take(k + 1).drop_last() =~= bs.take(k as int));
                let buf = &sorted[k].1;
                let mut m: usize = 0;
                let ghost b2 = out@;
                while m < buf.len()
                    invariant
                        0 <= m <= buf@.len(),
                        out@ == b2 + buf@.take(m as int),
                    decreases buf.len() - m,
                {
                    out.push(buf[m]);
                    m += 1;
                    assert(out@ =~= b2 + buf@.take(m as int));
                }
                assert(buf@.take(m as int) =~= buf@);
                k += 1;
                assert(out@ =~= mid + concat_bytes(bs.take(k as int)));
            }
            assert(sv.map_values(|p: (Seq<char>, Seq<u8>)| p.1).take(k as int) =~= sv.map_values(
                |p: (Seq<char>, Seq<u8>)| p.1,
            ));
            proof {
                assert(l@ == LiteralV::Object(ev));
                assert(sv == isort(keyed, key_order()));
                assert(sv.len() == sorted@.len());
                assert(mid == start + seq![0x86u8] + u32_le(sv.len() as u32));
                let bs = sv.map_values(|p: (Seq<char>, Seq<u8>)| p.1);
                assert(out@ == mid + concat_bytes(bs));
                assert(enc_literal(l@) == seq![0x86u8] + u32_le(sv.len() as u32) + concat_bytes(bs));
            }
            assert(out@ =~= start + enc_literal(l@));
        },
    }
    assert(out@ =~= start + enc_literal(l@));
}

fn encode_variable(out: &mut Vec<u8>, v: &Variable)
    requires
        strs_fit(v@),
    ensures
        final(out)@ == old(out)@ + enc_variable(v@),
{
    let ghost start = out@;
    let ghost cv = v@;
    out.push(0x05);
    push_u32_le(out, v.chain.len() as u32);
    let ghost mid = out@;
    let mut i: usize = 0;
    assert(mid + enc_strs(cv.take(0)) =~= mid);
    while i < v.chain.len()
        invariant
            0 <= i <= v.chain@.len(),
            cv == v@,
            cv.len() == v.chain@.len(),
            strs_fit(cv),
            out@ == mid + enc_strs(cv.take(i as int)),
        decreases v.chain.len() - i,
    {
        assert(cv.take(i + 1).drop_last() =~= cv.take(i as int));
        assert(cv[i as int] == v.chain@[i as int]@);
        assert(str_fits(cv[i as int]));
        push_str_enc(out, v.chain[i].as_str());
        i += 1;
        assert(out@ =~= mid + enc_strs(cv.take(i as int)));
    }
    assert(cv.take(i as int) =~= cv);
    assert(out@ =~= start + enc_variable(cv));
}

fn encode_rvalue(out: &mut Vec<u8>, v: &RValue)
    requires
        rvalue_fits(v@),
    ensures
        final(out)@ == old(out)@ + enc_rvalue(v@),
{
    let ghost start = out@;
    match v {
        RValue::Literal(l) => {
            out.push(0x70);
            encode_literal(out, l);
        },
        RValue::Variable(x) => {
            out.push(0x71);
            encode_variable(out, x);
        },
    }
    assert(out@ =~= start + enc_rvalue(v@));
}

fn encode_argument(out: &mut Vec<u8>, a: &Argument)
    requires
        str_fits(a@.name),
        rvalue_fits(a@.value),
    ensures
        final(out)@ == old(out)@ + enc_argument(a@),
{
    let ghost start = out@;
    out.push(0x04);
    push_str_enc(out, a.name.as_str());
    encode_rvalue(out, &a.value);
    assert(out@ =~= start + enc_argument(a@));
}

fn encode_call(out: &mut Vec<u8>, command: &String, arguments: &Vec<Argument>)
    requires
        call_fits(CallV { command: command@, arguments: arguments_view(arguments@) }),
    ensures
        final(out)@ == old(out)@ + enc_call(
            CallV { command: command@, arguments: arguments_view(arguments@) },
        ),
{
    let ghost c = CallV { command: command@, arguments: arguments_view(arguments@) };
    let ghost start = out@;
    push_str_enc(out, command.as_str());
    let sorted = sort_arguments(arguments);
    let ghost sv = sorted@.map_values(|a: &Argument| a@);
    proof {
        assert(arguments_view(arguments@) =~= arguments@.map_values(|a: Argument| a@));
        lemma_isort_elements(c.arguments, arg_order());
    }
    push_u32_le(out, sorted.len() as u32);
    let ghost mid = out@;
    let mut i: usize = 0;
    assert(mid + enc_arguments(sv.take(0)) =~= mid);
    while i < sorted.len()
        invariant
            0 <= i <= sorted@.len(),
            sv == sorted@.map_values(|a: &Argument| a@),
            sv == isort(c.arguments, arg_order()),
            sv.len() == c.arguments.len(),
            forall|k: int| 0 <= k < sv.len() ==> c.arguments.contains(#[trigger] sv[k]),
            call_fits(c),
            out@ == mid + enc_arguments(sv.take(i as int)),
        decreases sorted.len() - i,
    {
        let a = sorted[i];
        proof {
            assert(a@ == sv[i as int]);
            assert(c.arguments.contains(sv[i as int]));
            let j = choose|j: int| 0 <= j < c.arguments.len() && c.arguments[j] == sv[i as int];
            assert(str_fits(c.arguments[j].name));
            assert(sv.take(i + 1).drop_last() =~= sv.take(i as int));
        }
        encode_argument(out, a);
        i += 1;
        assert(out@ =~= mid + enc_arguments(sv.take(i as int)));
    }
    assert(sv.take(i as int) =~= sv);
    assert(out@ =~= start + enc_call(c));
}

fn encode_template(out: &mut Vec<u8>, parts: &Vec<TemplateLiteralPart>)
    requires
        template_fits(parts@.map_values(|p: TemplateLiteralPart| p@)),
    ensures
        final(out)@ == old(out)@ + enc_template(parts@.map_values(|p: TemplateLiteralPart| p@)),
{
    let ghost tv = parts@.map_values(|p: TemplateLiteralPart| p@);
    let ghost start = out@;
    out.push(0x06);
    push_u32_le(out, parts.len() as u32);
    let ghost mid = out@;
    let mut i: usize = 0;
    assert(mid + enc_template_parts(tv.take(0)) =~= mid);
    while i < parts.len()
        invariant
            0 <= i <= parts@.len(),
            tv == parts@.map_values(|p: TemplateLiteralPart| p@),
            template_fits(tv),
            out@ == mid + enc_template_parts(tv.take(i as int)),
        decreases parts.len() - i,
    {
        assert(tv.take(i + 1).drop_last() =~= tv.take(i as int));
        assert(tv[i as int] == parts@[i as int]@);
        let ghost before = out@;
        match &parts[i] {
            TemplateLiteralPart::Text(s) => {
                out.push(0x60);
                push_str_enc(out, s.as_str());
            },
            TemplateLiteralPart::Value(v) => {
                out.push(0x61);
                encode_rvalue(out, v);
            },
        }
        assert(out@ =~= before + enc_template_part(tv[i as int]));
        i += 1;
        assert(out@ =~= mid + enc_template_parts(tv.take(i as int)));
    }
    assert(tv.take(i as int) =~= tv);
    assert(out@ =~= start + enc_template(tv));
}

fn encode_attribute(out: &mut Vec<u8>, a: &Attribute)
    requires
        str_fits(a@.keyword),
        match a@.condition {
            Some(c) => str_fits(c),
            None => true,
        },
    ensures
        final(out)@ == old(out)@ + enc_attribute(a@),
{
    let ghost start = out@;
    out.push(0x03);
    push_str_enc(out, a.keyword.as_str());
    match &a.condition {
        Some(c) => {
            out.push(0x11);
            push_str_enc(out, c.as_str());
        },
        None => {
            out.push(0x10);
        },
    }
    assert(out@ =~= start + enc_attribute(a@));
}

fn encode_leading(out: &mut Vec<u8>, l: &LeadingText)
    requires
        match l@ {
            LeadingTextV::Text(s) => str_fits(s),
            LeadingTextV::Template(t) => template_fits(t),
            LeadingTextV::Absent => true,
        },
    ensures
        final(out)@ == old(out)@ + enc_leading(l@),
{
    let ghost start = out@;
    match l {
        LeadingText::Absent => out.push(0x30),
        LeadingText::Text(s) => {
            out.push(0x31);
            push_str_enc(out, s.as_str());
        },
        LeadingText::TemplateLiteral(tl) => {
            out.push(0x32);
            encode_template(out, &tl.parts);
        },
    }
    assert(out@ =~= start + enc_leading(l@));
}

fn encode_text(out: &mut Vec<u8>, t: &Text)
    requires
        match t@ {
            TextV::Text(s) => str_fits(s),
            TextV::Template(t) => template_fits(t),
            TextV::Absent => true,
        },
    ensures
        final(out)@ == old(out)@ + enc_text(t@),
{
    let ghost start = out@;
    match t {
        Text::Absent => out.push(0x40),
        Text::Text(s) => {
            out.push(0x41);
            push_str_enc(out, s.as_str());
        },
        Text::TemplateLiteral(tl) => {
            out.push(0x42);
            encode_template(out, &tl.parts);
        },
    }
    assert(out@ =~= start + enc_text(t@));
}

fn encode_tailing(out: &mut Vec<u8>, g: &TailingText)
    requires
        match g@ {
            TailingTextV::Text(s) => str_fits(s),
            TailingTextV::Absent => true,
        },
    ensures
        final(out)@ == old(out)@ + enc_tailing(g@),
{
    let ghost start = out@;
    match g {
        TailingText::Absent => out.push(0x50),
        TailingText::Text(s) => {
            out.push(0x51);
            push_str_enc(out, s.as_str());
        },
    }
    assert(out@ =~= start + enc_tailing(g@));
}

fn encode_child(out: &mut Vec<u8>, c: &Child)
    requires
        child_fits(c@),
    ensures
        final(out)@ == old(out)@ + enc_child(c@),
    decreases c,
{
    let ghost cv = c@;
    let ghost start = out@;
    out.push(0x02);
    let sorted = sort_attributes(&c.attributes);
    let ghost sv = sorted@.map_values(|a: &Attribute| a@);
    proof {
        lemma_isort_elements(cv.attributes, attr_order());
    }
    push_u32_le(out, sorted.len() as u32);
    let ghost mid = out@;
    let mut i: usize = 0;
    assert(mid + enc_attributes(sv.take(0)) =~= mid);
    while i < sorted.len()
        invariant
            0 <= i <= sorted@.len(),
            cv == c@,
            sv == sorted@.map_values(|a: &Attribute| a@),
            sv == isort(cv.attributes, attr_order()),
            sv.len() == cv.attributes.len(),
            forall|k: int| 0 <= k < sv.len() ==> cv.attributes.contains(#[trigger] sv[k]),
            child_fits(cv),
            out@ == mid + enc_attributes(sv.take(i as int)),
        decreases sorted.len() - i,
    {
        let a = sorted[i];
        proof {
            assert(a@ == sv[i as int]);
            assert(cv.attributes.contains(sv[i as int]));
            let j = choose|j: int| 0 <= j < cv.attributes.len() && cv.attributes[j] == sv[i as int];
            assert(str_fits(cv.attributes[j].keyword));
            assert(sv.take(i + 1).drop_last() =~= sv.take(i as int));
        }
        encode_attribute(out, a);
        i += 1;
        assert(out@ =~= mid + enc_attributes(sv.take(i as int)));
    }
    assert(sv.take(i as int) =~= sv);
    let ghost before_content = out@;
    assert(before_content =~= start + seq![0x02u8] + u32_le(sv.len() as u32) + enc_attributes(sv));
    match &c.content {
        ChildContent::Block(b) => {
            out.push(0x20);
            assert(decreases_to!(*c => c.content));
            encode_block(out, b);
        },
        ChildContent::TextLine(l, t, g) => {
            out.push(0x21);
            encode_leading(out, l);
            encode_text(out, t);
            encode_tailing(out, g);
        },
        ChildContent::CommandLine(cl) => {
            out.push(0x22);
            encode_call(out, &cl.command, &cl.arguments);
        },
        ChildContent::SystemCallLine(sl) => {
            out.push(0x23);
            encode_call(out, &sl.command, &sl.arguments);
        },
        ChildContent::EmbeddedCode(code) => {
            out.push(0x24);
            let n = normalize_embedded_code_exec(code.as_str());
            push_chars_enc(out, &n);
        },
    }
    assert(out@ =~= before_content + enc_content(cv.content));
    assert(out@ =~= start + enc_child(cv));
}

fn encode_block(out: &mut Vec<u8>, b: &Block)
    requires
        block_fits(b@),
    ensures
        final(out)@ == old(out)@ + enc_block(b@),
    decreases b,
{
    let ghost bv = b@;
    let ghost start = out@;
    out.push(0x01);
    push_u32_le(out, b.children.len() as u32);
    let ghost mid = out@;
    let mut i: usize = 0;
    assert(mid + enc_children(bv.take(0)) =~= mid);
    while i < b.children.len()
        invariant
            0 <= i <= b.children@.len(),
            bv == b@,
            bv.len() == b.children@.len(),
            block_fits(bv),
            out@ == mid + enc_children(bv.take(i as int)),
        decreases b.children.len() - i,
    {
        assert(bv.take(i + 1).drop_last() =~= bv.take(i as int));
        assert(bv[i as int] == b.children@[i as int]@);
        assert(child_fits(bv[i as int]));
        assert(decreases_to!(*b => b.children));
        encode_child(out, &b.children[i]);
        i += 1;
        assert(out@ =~= mid + enc_children(bv.take(i as int)));
    }
    assert(bv.take(i as int) =~= bv);
    assert(out@ =~= start + enc_block(bv));
}

// ---------------------------------------------------------------------
// The fingerprint and its hexadecimal form
// ---------------------------------------------------------------------

/// The fingerprint of a block: the 128-bit hash as 16 big-endian bytes.
#[derive(Debug, Clone, Copy, PartialEq, Eq, PartialOrd, Ord, Hash)]
pub struct BlockFingerprint([u8; 16]);

impl View for BlockFingerprint {
    type V = Seq<u8>;

    closed spec fn view(&self) -> Seq<u8> {
        self.0@
    }
}

/// The lowercase hexadecimal digit of `d` (`0 <= d < 16`).
pub open spec fn hex_char(d: int) -> char {
    if d < 10 {
        (48 + d) as char
    } else {
        (87 + d) as char
    }
}

/// Two lowercase hexadecimal digits per byte, high nibble first.
pub open spec fn hex_string(b: Seq<u8>) -> Seq<char> {
    Seq::new(
        2 * b.len(),
        |i: int|
            if i % 2 == 0 {
                hex_char(b[i / 2] as int / 16)
            } else {
                hex_char(b[i / 2] as int % 16)
            },
    )
}

/// The value of an ASCII hexadecimal digit, either case.
pub open spec fn hex_value(c: u8) -> Option<u8> {
    if 48 <= c <= 57 {
        Some((c - 48) as u8)
    } else if 97 <= c <= 102 {
        Some((c - 87) as u8)
    } else if 65 <= c <= 70 {
        Some((c - 55) as u8)
    } else {
        None
    }
}

/// Whether every byte of `b` is a hexadecimal digit.
pub open spec fn all_hex(b: Seq<u8>) -> bool {
    forall|i: int| 0 <= i < b.len() ==> (#[trigger] hex_value(b[i])) is Some
}

/// The bytes written by pairs of hexadecimal digits, high nibble first.
pub open spec fn hex_decode(b: Seq<u8>) -> Seq<u8> {
    Seq::new(
        b.len() / 2,
        |k: int| (hex_value(b[2 * k])->0 * 16 + hex_value(b[2 * k + 1])->0) as u8,
    )
}

fn hex_digit(value: u8) -> (c: char)
    requires
        value < 16,
    ensures
        c == hex_char(value as int),
{
    if value < 10 {
        (48u8 + value) as char
    } else {
        (97u8 + value - 10) as char
    }
}

fn decode_hex_digit(value: u8) -> (r: Result<u8, &'static str>)
    ensures
        match hex_value(value) {
            Some(d) => r == Ok::<u8, &'static str>(d),
            None => r is Err && r->Err_0@ == "block fingerprint contains a non-hex character"@,
        },
{
    if 48u8 <= value && value <= 57u8 {
        Ok(value - 48u8)
    } else if 97u8 <= value && value <= 102u8 {
        Ok(value - 97u8 + 10)
    } else if 65u8 <= value && value <= 70u8 {
        Ok(value - 65u8 + 10)
    } else {
        Err("block fingerprint contains a non-hex character")
    }
}

impl BlockFingerprint {
    /// The name and version of the encoding that is hashed.
    pub const VERSION: &'static str = "sixu:block-fingerprint:v1";

    /// The 16 bytes of the fingerprint.
    pub fn as_bytes(&self) -> (r: &[u8; 16])
        ensures
            r@ == self@,
    {
        &self.0
    }

    /// The 16 bytes of the fingerprint, by value.
    pub fn into_bytes(self) -> (r: [u8; 16])
        ensures
            r@ == self@,
    {
        self.0
    }

    /// The fingerprint as 32 lowercase hexadecimal digits.
    pub fn to_hex(&self) -> (r: String)
        ensures
            r@ == hex_string(self@),
    {
        let mut hex = String::new();
        let mut k: usize = 0;
        while k < 16
            invariant
                0 <= k <= 16,
                self@.len() == 16,
                hex@ == hex_string(self@.take(k as int)),
            decreases 16 - k,
        {
            let byte = self.0[k];
            let high = byte >> 4;
            let low = byte & 0x0f;
            assert(high == byte / 16 && low == byte % 16) by (bit_vector)
                requires
                    high == byte >> 4,
                    low == byte & 0x0f,
            ;
            crate::text::push_char(&mut hex, hex_digit(high));
            crate::text::push_char(&mut hex, hex_digit(low));
            k += 1;
            assert(hex@ =~= hex_string(self@.take(k as int)));
        }
        assert(self@.take(16) =~= self@);
        hex
    }

    /// Reads a fingerprint from 32 hexadecimal digits of either case.
    pub fn from_hex(value: &str) -> (r: Result<Self, &'static str>)
        ensures
            encode_utf8(value@).len() != 32 ==> r is Err && r->Err_0@
                == "block fingerprint hex must be 32 characters long"@,
            encode_utf8(value@).len() == 32 && !all_hex(encode_utf8(value@)) ==> r is Err
                && r->Err_0@ == "block fingerprint contains a non-hex character"@,
            encode_utf8(value@).len() == 32 && all_hex(encode_utf8(value@)) ==> r is Ok && r->Ok_0@
                == hex_decode(encode_utf8(value@)),
    {
        let bytes = value.as_bytes();
        if bytes.len() != 32 {
            return Err("block fingerprint hex must be 32 characters long");
        }
        let mut output = [0u8; 16];
        let mut index: usize = 0;
        while index < 16
            invariant
                0 <= index <= 16,
                bytes@ == encode_utf8(value@),
                bytes@.len() == 32,
                output@.len() == 16,
                forall|j: int| 0 <= j < 2 * index ==> (#[trigger] hex_value(bytes@[j])) is Some,
                forall|k: int| 0 <= k < index ==> #[trigger] output@[k] == hex_decode(bytes@)[k],
            decreases 16 - index,
        {
            let high = match decode_hex_digit(bytes[2 * index]) {
                Ok(d) => d,
                Err(e) => {
                    assert(!all_hex(bytes@));
                    return Err(e);
                },
            };
            let low = match decode_hex_digit(bytes[2 * index + 1]) {
                Ok(d) => d,
                Err(e) => {
                    assert(!all_hex(bytes@));
                    return Err(e);
                },
            };
            assert((high << 4) | low == high * 16 + low) by (bit_vector)
                requires
                    high < 16,
                    low < 16,
            ;
            output[index] = (high << 4) | low;
            index += 1;
        }
        assert(all_hex(bytes@));
        let r = BlockFingerprint(output);
        assert(r@ =~= hex_decode(bytes@));
        Ok(r)
    }
}

impl Block {
    /// The fingerprint of the block: the XXH3-128 hash of the version
    /// prefix followed by the canonical encoding of the block.
    pub fn fingerprint(&self) -> (r: BlockFingerprint)
        requires
            block_fits(self@),
        ensures
            r@ == spec_fingerprint(self@),
    {
        let mut bytes: Vec<u8> = Vec::new();
        let prefix = BlockFingerprint::VERSION.as_bytes();
        proof {
            reveal_strlit("sixu:block-fingerprint:v1");
            let cs = BlockFingerprint::VERSION@;
            assert(is_ascii_chars(cs));
            is_ascii_chars_encode_utf8(cs);
            assert(prefix@ =~= version_prefix());
        }
        let mut i: usize = 0;
        while i < prefix.len()
            invariant
                0 <= i <= prefix@.len(),
                bytes@ == prefix@.take(i as int),
            decreases prefix.len() - i,
        {
            bytes.push(prefix[i]);
            i += 1;
            assert(bytes@ =~= prefix@.take(i as int));
        }
        assert(prefix@.take(i as int) =~= prefix@);
        encode_block(&mut bytes, self);
        let h = xxh3_128_of(bytes.as_slice());
        BlockFingerprint(u128_be_bytes(h))
    }
}

} // verus!
